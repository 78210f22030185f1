use lisp_core::lisp::{fxn, Interner, List, Object, Symbol};
use lisp_core::read::{
    decimal_fixnum, digit_to_int, digits_to_fixnum, fixnum, hex_fixnum, list, read, sign,
    signed_fixnum, symbol, ReadError,
};

fn num(i: i32) -> Object {
    Object::Fixnum(fxn(i))
}

fn read_all(text: &str) -> (Interner, &str, Object) {
    let mut table = Interner::new();
    let (rest, object) = read(&mut table, text).expect("read error");
    (table, rest, object)
}

#[test]
fn reads_a_hexadecimal_number() {
    let (_, rest, object) = read_all("0x1a");
    assert_eq!(object, num(26));
    assert_eq!(rest, "");
}

#[test]
fn reads_a_negative_number() {
    let (_, rest, object) = read_all("-5");
    assert_eq!(object, num(-5));
    assert_eq!(rest, "");
}

#[test]
fn reads_a_symbol() {
    let (mut table, rest, object) = read_all("foo");
    assert_eq!(object, Object::Symbol(Symbol::intern(&mut table, "foo")));
    assert_eq!(rest, "");
    match object {
        Object::Symbol(sym) => assert_eq!(table.name(sym), Some("foo")),
        other => panic!("expected a symbol, got {:?}", other),
    }
}

#[test]
fn reads_an_empty_list() {
    let (_, rest, object) = read_all("()");
    assert_eq!(object, Object::List(List::from(vec![])));
    assert_eq!(rest, "");
}

#[test]
fn reads_a_list_and_leaves_the_rest() {
    let (mut table, rest, object) = read_all("(add 1 2) rest");
    let add = Symbol::intern(&mut table, "add");
    assert_eq!(
        object,
        Object::List(List::from(vec![Object::Symbol(add), num(1), num(2)]))
    );
    assert_eq!(rest, "rest");
}

#[test]
fn reads_several_expressions_from_one_line() {
    let mut table = Interner::new();
    let (rest, first) = read(&mut table, "  1 (add 2 3)\tfoo\n").expect("read error");
    assert_eq!(first, num(1));
    assert_eq!(rest, "(add 2 3)\tfoo\n");
    let (rest, second) = read(&mut table, rest).expect("read error");
    let add = Symbol::intern(&mut table, "add");
    assert_eq!(
        second,
        Object::List(List::from(vec![Object::Symbol(add), num(2), num(3)]))
    );
    assert_eq!(rest, "foo\n");
    let (rest, third) = read(&mut table, rest).expect("read error");
    assert_eq!(third, Object::Symbol(Symbol::intern(&mut table, "foo")));
    assert_eq!(rest, "");
    assert_eq!(read(&mut table, rest), Err(ReadError {}));
}

#[test]
fn reads_nested_lists() {
    let (mut table, rest, object) = read_all("(add 1 (add 1 1))");
    let add = Symbol::intern(&mut table, "add");
    let inner = Object::List(List::from(vec![Object::Symbol(add), num(1), num(1)]));
    assert_eq!(
        object,
        Object::List(List::from(vec![Object::Symbol(add), num(1), inner]))
    );
    assert_eq!(rest, "");
}

#[test]
fn reads_spaces_inside_a_list() {
    let (_, rest, object) = read_all("( 1\n\t2 \r) 3");
    assert_eq!(object, Object::List(List::from(vec![num(1), num(2)])));
    assert_eq!(rest, "3");
}

#[test]
fn reads_plain_and_signed_decimal_numbers() {
    assert_eq!(read_all("42").2, num(42));
    assert_eq!(read_all("+7").2, num(7));
    assert_eq!(read_all("-0").2, num(0));
    assert_eq!(read_all("007").2, num(7));
    assert_eq!(read_all("2147483647").2, num(i32::MAX));
    assert_eq!(read_all("-2147483648").2, num(i32::MIN));
}

#[test]
fn reads_hexadecimal_digits_of_either_case() {
    assert_eq!(read_all("0xff").2, num(255));
    assert_eq!(read_all("0xFF").2, num(255));
    assert_eq!(read_all("0xaBcDeF").2, num(0xabcdef));
    assert_eq!(read_all("0x0").2, num(0));
    assert_eq!(read_all("0x7fffffff").2, num(i32::MAX));
}

#[test]
fn numbers_wrap_to_32_bits() {
    assert_eq!(read_all("2147483648").2, num(i32::MIN));
    assert_eq!(read_all("4294967296").2, num(0));
    assert_eq!(read_all("4294967301").2, num(5));
    assert_eq!(read_all("-4294967301").2, num(-5));
    assert_eq!(read_all("0xffffffff").2, num(-1));
    assert_eq!(read_all("0x80000000").2, num(i32::MIN));
    assert_eq!(read_all("0x100000001").2, num(1));
    assert_eq!(read_all("123456789012345678901234567890").2, num(1312754386));
}

#[test]
fn hexadecimal_takes_no_sign() {
    let (_, rest, object) = read_all("-0x10");
    assert_eq!(object, num(0));
    assert_eq!(rest, "x10");
}

#[test]
fn prefix_without_digits_is_a_zero() {
    let (_, rest, object) = read_all("0xg");
    assert_eq!(object, num(0));
    assert_eq!(rest, "xg");
}

#[test]
fn number_ends_where_its_digits_end() {
    let (_, rest, object) = read_all("12abc");
    assert_eq!(object, num(12));
    assert_eq!(rest, "abc");
}

#[test]
fn symbol_may_hold_digits_after_a_letter() {
    let (table, rest, object) = read_all("abc12 x");
    match object {
        Object::Symbol(sym) => assert_eq!(table.name(sym), Some("abc12")),
        other => panic!("expected a symbol, got {:?}", other),
    }
    assert_eq!(rest, "x");
}

#[test]
fn symbol_ends_at_a_character_that_is_no_ascii_letter_or_digit() {
    let (table, rest, object) = read_all("foo-bar");
    match object {
        Object::Symbol(sym) => assert_eq!(table.name(sym), Some("foo")),
        other => panic!("expected a symbol, got {:?}", other),
    }
    assert_eq!(rest, "-bar");
    let (table, rest, object) = read_all("caf\u{e9}");
    match object {
        Object::Symbol(sym) => assert_eq!(table.name(sym), Some("caf")),
        other => panic!("expected a symbol, got {:?}", other),
    }
    assert_eq!(rest, "\u{e9}");
}

#[test]
fn symbols_keep_their_case() {
    let (mut table, _, object) = read_all("Foo");
    assert_ne!(object, Object::Symbol(Symbol::intern(&mut table, "foo")));
    assert_eq!(object, Object::Symbol(Symbol::intern(&mut table, "Foo")));
}

#[test]
fn equal_names_in_one_text_are_one_symbol() {
    let (_, _, object) = read_all("(foo bar foo)");
    match object {
        Object::List(items) => {
            assert_eq!(items.len(), 3);
            assert_eq!(items[0], items[2]);
            assert_ne!(items[0], items[1]);
        }
        other => panic!("expected a list, got {:?}", other),
    }
}

#[test]
fn refuses_what_is_no_expression() {
    let mut table = Interner::new();
    assert_eq!(read(&mut table, ""), Err(ReadError {}));
    assert_eq!(read(&mut table, "   "), Err(ReadError {}));
    assert_eq!(read(&mut table, ")"), Err(ReadError {}));
    assert_eq!(read(&mut table, "-"), Err(ReadError {}));
    assert_eq!(read(&mut table, "+x"), Err(ReadError {}));
    assert_eq!(read(&mut table, "#t"), Err(ReadError {}));
    assert_eq!(read(&mut table, "\u{e9}"), Err(ReadError {}));
    assert_eq!(table.len(), 2);
}

#[test]
fn refuses_a_list_that_is_not_closed() {
    let mut table = Interner::new();
    assert_eq!(read(&mut table, "(add 1 2"), Err(ReadError {}));
    assert_eq!(read(&mut table, "("), Err(ReadError {}));
    assert_eq!(read(&mut table, "(add (1 2)"), Err(ReadError {}));
    assert_eq!(read(&mut table, "(add 1 #)"), Err(ReadError {}));
}

#[test]
fn refuses_a_list_of_spaces_alone() {
    let mut table = Interner::new();
    assert_eq!(read(&mut table, "( )"), Err(ReadError {}));
}

#[test]
fn symbols_of_a_refused_list_stay_interned() {
    let mut table = Interner::new();
    assert_eq!(read(&mut table, "(foo bar"), Err(ReadError {}));
    assert_eq!(table.len(), 4);
    assert_eq!(table.name(Symbol { id: 2 }), Some("foo"));
    assert_eq!(table.name(Symbol { id: 3 }), Some("bar"));
}

#[test]
fn reader_never_gives_nil() {
    let (table, _, object) = read_all("nil");
    match object {
        Object::Symbol(sym) => assert_eq!(table.name(sym), Some("nil")),
        other => panic!("expected a symbol, got {:?}", other),
    }
}

#[test]
fn digit_values() {
    assert_eq!(digit_to_int('0'), fxn(0));
    assert_eq!(digit_to_int('9'), fxn(9));
    assert_eq!(digit_to_int('a'), fxn(10));
    assert_eq!(digit_to_int('f'), fxn(15));
    assert_eq!(digit_to_int('A'), fxn(10));
    assert_eq!(digit_to_int('F'), fxn(15));
}

#[test]
fn digits_count_most_significant_first() {
    assert_eq!(digits_to_fixnum("123", fxn(10)), fxn(123));
    assert_eq!(digits_to_fixnum("123", fxn(16)), fxn(0x123));
    assert_eq!(digits_to_fixnum("", fxn(10)), fxn(0));
    assert_eq!(digits_to_fixnum("ff", fxn(16)), fxn(255));
}

#[test]
fn token_readers_cut_the_text() {
    assert_eq!(hex_fixnum("1aZ"), Some(("Z", fxn(26))));
    assert_eq!(hex_fixnum("Z"), None);
    assert_eq!(decimal_fixnum("12a"), Some(("a", fxn(12))));
    assert_eq!(decimal_fixnum("a12"), None);
    assert_eq!(sign("+1"), Some(("1", fxn(0))));
    assert_eq!(sign("-1"), Some(("1", fxn(-1))));
    assert_eq!(sign("1"), None);
    assert_eq!(sign(""), None);
    assert_eq!(signed_fixnum("-12 "), Some((" ", fxn(-12))));
    assert_eq!(signed_fixnum("+12"), Some(("", fxn(12))));
    assert_eq!(signed_fixnum("12"), Some(("", fxn(12))));
    assert_eq!(signed_fixnum("--12"), None);
    assert_eq!(fixnum("0x10)"), Some((")", fxn(16))));
    assert_eq!(fixnum("010"), Some(("", fxn(10))));
    assert_eq!(fixnum("x10"), None);
}

#[test]
fn symbol_reader_interns_the_run() {
    let mut table = Interner::new();
    let (rest, sym) = symbol(&mut table, "foo1 bar").expect("a symbol");
    assert_eq!(rest, " bar");
    assert_eq!(table.name(sym), Some("foo1"));
    assert_eq!(symbol(&mut table, " foo"), None);
    assert_eq!(symbol(&mut table, ""), None);
}

#[test]
fn list_reader_takes_no_space_before_the_bracket() {
    let mut table = Interner::new();
    let (rest, items) = list(&mut table, "(1 2) 3").expect("a list");
    assert_eq!(rest, " 3");
    assert_eq!(items, List::from(vec![num(1), num(2)]));
    assert_eq!(list(&mut table, " (1 2)"), None);
    assert_eq!(list(&mut table, "1"), None);
}
