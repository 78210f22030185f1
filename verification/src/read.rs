//! The reader: from text to a value and the text that follows it.
//!
//! ```text
//! expr   := space* ( list | number | symbol ) space*
//! list   := '(' expr* ')'
//! number := "0x" hex-digit+ | ( '+' | '-' )? digit+
//! symbol := alphanumeric+
//! ```
//!
//! The alternatives are tried in the order given and the first that fits
//! is taken; each repetition takes as much as it can. Numbers wrap to 32
//! bits.
//!
//! The runs of characters and the single characters are recognised by
//! `nom`. The five functions that call it are taken on trust: their
//! contracts say what the source of `nom` shows of the call, and are not
//! proved. All that is built on them is.

use vstd::prelude::*;
use vstd::string::*;
use crate::fixnum::{fxn, lemma_wrap_mul, wrap, Fixnum};
use crate::list::List;
use crate::symbol::{
    extends, handle, interned, lemma_interned, well_formed, Interner, Symbol,
};
use crate::top_type::{
    lemma_joined_text_some, lemma_text_extends, text_of, values_of, Object, Value,
};

verus! {

/// The kinds of character that the grammar tells apart.
pub ghost enum CharClass {
    /// Space, tab, carriage return and line feed.
    Space,
    /// `0` to `9`.
    Digit,
    /// `0` to `9`, `a` to `f` and `A` to `F`.
    HexDigit,
    /// The ASCII letters and `0` to `9`.
    Alphanumeric,
}

/// Whether `c` is of the class.
pub open spec fn in_class(c: char, class: CharClass) -> bool {
    match class {
        CharClass::Space => c == ' ' || c == '\t' || c == '\r' || c == '\n',
        CharClass::Digit => '0' <= c <= '9',
        CharClass::HexDigit => '0' <= c <= '9' || 'a' <= c <= 'f' || 'A' <= c <= 'F',
        CharClass::Alphanumeric => '0' <= c <= '9' || 'a' <= c <= 'z' || 'A' <= c <= 'Z',
    }
}

/// How many characters at the start of `text` are of the class, up to the
/// first that is not.
pub open spec fn run_len(text: Seq<char>, class: CharClass) -> nat
    decreases text.len(),
{
    if text.len() > 0 && in_class(text[0], class) {
        1 + run_len(text.skip(1), class)
    } else {
        0
    }
}

/// A run is no longer than the text, and made of the class.
pub proof fn lemma_run_len(text: Seq<char>, class: CharClass)
    ensures
        run_len(text, class) <= text.len(),
        forall|i: int| 0 <= i < run_len(text, class) ==> in_class(#[trigger] text[i], class),
    decreases text.len(),
{
    if text.len() > 0 && in_class(text[0], class) {
        let tail = text.skip(1);
        lemma_run_len(tail, class);
        assert forall|i: int| 0 <= i < run_len(text, class) implies in_class(
            #[trigger] text[i],
            class,
        ) by {
            if i > 0 {
                assert(text[i] == tail[i - 1]);
            }
        }
    }
}

/// `token` and `rest` are `text` cut after its first `n` characters.
pub open spec fn cut_at(text: Seq<char>, n: nat, token: Seq<char>, rest: Seq<char>) -> bool {
    token == text.take(n as int) && rest == text.skip(n as int)
}

/// `nom::character::complete::multispace0` on a `&str`: cuts the text after
/// its leading spaces, tabs, carriage returns and line feeds, of which there
/// may be none. It never fails.
#[verifier::external_body]
fn take_spaces<'a>(s: &'a str) -> (r: Option<(&'a str, &'a str)>)
    ensures
        match r {
            Some((rest, token)) => cut_at(s@, run_len(s@, CharClass::Space), token@, rest@),
            None => false,
        },
{
    nom::character::complete::multispace0::<&str, nom::error::Error<&str>>(s).ok()
}

/// `nom::character::complete::digit1` on a `&str`: cuts the text after its
/// leading ASCII decimal digits, and fails where there is none.
#[verifier::external_body]
fn take_digits<'a>(s: &'a str) -> (r: Option<(&'a str, &'a str)>)
    ensures
        match r {
            Some((rest, token)) => run_len(s@, CharClass::Digit) > 0 && cut_at(
                s@,
                run_len(s@, CharClass::Digit),
                token@,
                rest@,
            ),
            None => run_len(s@, CharClass::Digit) == 0,
        },
{
    nom::character::complete::digit1::<&str, nom::error::Error<&str>>(s).ok()
}

/// `nom::character::complete::hex_digit1` on a `&str`: cuts the text after
/// its leading ASCII hexadecimal digits, and fails where there is none.
#[verifier::external_body]
fn take_hex_digits<'a>(s: &'a str) -> (r: Option<(&'a str, &'a str)>)
    ensures
        match r {
            Some((rest, token)) => run_len(s@, CharClass::HexDigit) > 0 && cut_at(
                s@,
                run_len(s@, CharClass::HexDigit),
                token@,
                rest@,
            ),
            None => run_len(s@, CharClass::HexDigit) == 0,
        },
{
    nom::character::complete::hex_digit1::<&str, nom::error::Error<&str>>(s).ok()
}

/// `nom::character::complete::alphanumeric1` on a `&str`: cuts the text
/// after its leading ASCII letters and digits, and fails where there is
/// none.
#[verifier::external_body]
fn take_alphanumerics<'a>(s: &'a str) -> (r: Option<(&'a str, &'a str)>)
    ensures
        match r {
            Some((rest, token)) => run_len(s@, CharClass::Alphanumeric) > 0 && cut_at(
                s@,
                run_len(s@, CharClass::Alphanumeric),
                token@,
                rest@,
            ),
            None => run_len(s@, CharClass::Alphanumeric) == 0,
        },
{
    nom::character::complete::alphanumeric1::<&str, nom::error::Error<&str>>(s).ok()
}

/// `nom::character::complete::char` on a `&str`: takes the first character
/// off the text where it is `c`, and fails where it is another or the text
/// is empty.
#[verifier::external_body]
fn take_char<'a>(c: char, s: &'a str) -> (r: Option<&'a str>)
    ensures
        match r {
            Some(rest) => s@.len() > 0 && s@[0] == c && rest@ == s@.skip(1),
            None => s@.len() == 0 || s@[0] != c,
        },
{
    nom::character::complete::char::<&str, nom::error::Error<&str>>(c)(s).ok().map(|found| found.0)
}

/// What a hexadecimal digit counts for.
pub open spec fn digit_value(c: char) -> int {
    if '0' <= c <= '9' {
        c as int - '0' as int
    } else if 'a' <= c <= 'f' {
        c as int - 'a' as int + 10
    } else {
        c as int - 'A' as int + 10
    }
}

/// The number that the digits write in the base, the first digit counting
/// most.
pub open spec fn number_of(digits: Seq<char>, base: int) -> int
    decreases digits.len(),
{
    if digits.len() == 0 {
        0
    } else {
        number_of(digits.drop_last(), base) * base + digit_value(digits.last())
    }
}

/// The number for which a hexadecimal digit stands.
pub fn digit_to_int(c: char) -> (r: Fixnum)
    requires
        in_class(c, CharClass::HexDigit),
    ensures
        r@ == digit_value(c),
{
    if '0' <= c && c <= '9' {
        Fixnum::from(c) - Fixnum::from('0')
    } else if 'a' <= c && c <= 'f' {
        Fixnum::from(c) - Fixnum::from('a') + fxn(0xa)
    } else {
        Fixnum::from(c) - Fixnum::from('A') + fxn(0xa)
    }
}

/// The number that a run of digits writes in the base, wrapped to 32 bits.
pub fn digits_to_fixnum(digits: &str, base: Fixnum) -> (r: Fixnum)
    requires
        forall|i: int| 0 <= i < digits@.len() ==> in_class(#[trigger] digits@[i], CharClass::HexDigit),
    ensures
        r@ == wrap(number_of(digits@, base@)),
{
    broadcast use vstd::string::group_string_axioms;

    let mut acc = fxn(0);
    for digit in it: digits.chars()
        invariant
            it.seq() == digits@,
            forall|i: int| 0 <= i < digits@.len() ==> in_class(#[trigger] digits@[i], CharClass::HexDigit),
            acc@ == wrap(number_of(digits@.take(it.index()), base@)),
    {
        proof {
            let sofar = number_of(digits@.take(it.index()), base@);
            assert(digits@.take(it.index() + 1).drop_last() =~= digits@.take(it.index()));
            lemma_wrap_mul(sofar, base@);
        }
        acc = acc * base + digit_to_int(digit);
    }
    proof {
        assert(digits@.take(digits@.len() as int) =~= digits@);
    }
    acc
}

/// A run of hexadecimal digits at the start of the text: the text after it
/// and the number that it writes.
pub open spec fn hex_spec(text: Seq<char>) -> Option<(Seq<char>, int)> {
    let n = run_len(text, CharClass::HexDigit) as int;
    if n > 0 {
        Some((text.skip(n), wrap(number_of(text.take(n), 16))))
    } else {
        None
    }
}

/// A run of decimal digits at the start of the text: the text after it and
/// the number that it writes.
pub open spec fn decimal_spec(text: Seq<char>) -> Option<(Seq<char>, int)> {
    let n = run_len(text, CharClass::Digit) as int;
    if n > 0 {
        Some((text.skip(n), wrap(number_of(text.take(n), 10))))
    } else {
        None
    }
}

/// A sign at the start of the text: the text after it, and 0 for `+`, -1
/// for `-`.
pub open spec fn sign_spec(text: Seq<char>) -> Option<(Seq<char>, int)> {
    if text.len() > 0 && text[0] == '+' {
        Some((text.skip(1), 0))
    } else if text.len() > 0 && text[0] == '-' {
        Some((text.skip(1), -1))
    } else {
        None
    }
}

/// A decimal number with or without a sign before it.
pub open spec fn signed_spec(text: Seq<char>) -> Option<(Seq<char>, int)> {
    match sign_spec(text) {
        Some((unsigned, sign)) => match decimal_spec(unsigned) {
            Some((rest, n)) => Some((rest, if sign == -1 { wrap(n * -1) } else { n })),
            None => None,
        },
        None => decimal_spec(text),
    }
}

/// A number: hexadecimal after `0x`, else decimal.
pub open spec fn number_spec(text: Seq<char>) -> Option<(Seq<char>, int)> {
    if text.len() >= 2 && text[0] == '0' && text[1] == 'x' && hex_spec(text.skip(2)) is Some {
        hex_spec(text.skip(2))
    } else {
        signed_spec(text)
    }
}

/// Reads a run of hexadecimal digits.
pub fn hex_fixnum<'a>(s: &'a str) -> (r: Option<(&'a str, Fixnum)>)
    ensures
        match r {
            Some((rest, n)) => hex_spec(s@) == Some((rest@, n@)),
            None => hex_spec(s@) is None,
        },
{
    match take_hex_digits(s) {
        Some((rest, digits)) => {
            proof {
                lemma_run_len(s@, CharClass::HexDigit);
            }
            Some((rest, digits_to_fixnum(digits, fxn(0x10))))
        },
        None => None,
    }
}

/// Reads a sign.
pub fn sign<'a>(s: &'a str) -> (r: Option<(&'a str, Fixnum)>)
    ensures
        match r {
            Some((rest, n)) => sign_spec(s@) == Some((rest@, n@)),
            None => sign_spec(s@) is None,
        },
{
    match take_char('+', s) {
        Some(rest) => Some((rest, fxn(0))),
        None => match take_char('-', s) {
            Some(rest) => Some((rest, fxn(-1))),
            None => None,
        },
    }
}

/// Reads a run of decimal digits.
pub fn decimal_fixnum<'a>(s: &'a str) -> (r: Option<(&'a str, Fixnum)>)
    ensures
        match r {
            Some((rest, n)) => decimal_spec(s@) == Some((rest@, n@)),
            None => decimal_spec(s@) is None,
        },
{
    match take_digits(s) {
        Some((rest, digits)) => {
            proof {
                lemma_run_len(s@, CharClass::Digit);
            }
            Some((rest, digits_to_fixnum(digits, fxn(10))))
        },
        None => None,
    }
}

/// Reads a decimal number with or without a sign.
pub fn signed_fixnum<'a>(s: &'a str) -> (r: Option<(&'a str, Fixnum)>)
    ensures
        match r {
            Some((rest, n)) => signed_spec(s@) == Some((rest@, n@)),
            None => signed_spec(s@) is None,
        },
{
    match sign(s) {
        Some((unsigned, sign)) => match decimal_fixnum(unsigned) {
            Some((rest, n)) => Some((rest, if sign == fxn(-1) { n * fxn(-1) } else { n })),
            None => None,
        },
        None => decimal_fixnum(s),
    }
}

/// Reads a number.
pub fn fixnum<'a>(s: &'a str) -> (r: Option<(&'a str, Fixnum)>)
    ensures
        match r {
            Some((rest, n)) => number_spec(s@) == Some((rest@, n@)),
            None => number_spec(s@) is None,
        },
{
    let prefixed = match take_char('0', s) {
        Some(after_zero) => match take_char('x', after_zero) {
            Some(digits) => {
                assert(digits@ =~= s@.skip(2));
                hex_fixnum(digits)
            },
            None => None,
        },
        None => None,
    };
    match prefixed {
        Some(found) => Some(found),
        None => signed_fixnum(s),
    }
}

/// A number takes at least one character.
pub proof fn lemma_number_shortens(text: Seq<char>)
    ensures
        number_spec(text) matches Some((rest, _)) ==> rest.len() < text.len(),
{
    if text.len() >= 1 {
        lemma_run_len(text.skip(1), CharClass::Digit);
    }
    if text.len() >= 2 {
        lemma_run_len(text.skip(2), CharClass::HexDigit);
    }
}

/// The text without the spaces that it begins with.
pub open spec fn trim(text: Seq<char>) -> Seq<char> {
    text.skip(run_len(text, CharClass::Space) as int)
}

/// What reading has come to: the table as it has become, and, unless the
/// reading failed, the text that is left and the value that was read.
pub ghost struct Reading {
    pub names: Seq<Seq<char>>,
    pub found: Option<(Seq<char>, Value)>,
}

/// What reading one expression after another has come to: the table as it
/// has become, the values read, and the text at which reading stopped.
pub ghost struct ReadingAll {
    pub names: Seq<Seq<char>>,
    pub rest: Seq<char>,
    pub values: Seq<Value>,
}

/// A symbol at the start of the text: a run of letters and digits, interned.
pub open spec fn symbol_spec(names: Seq<Seq<char>>, text: Seq<char>) -> Reading {
    let n = run_len(text, CharClass::Alphanumeric) as int;
    if n > 0 {
        Reading {
            names: interned(names, text.take(n)),
            found: Some(
                (text.skip(n), Value::Symbol(handle(names, text.take(n)) as nat)),
            ),
        }
    } else {
        Reading { names, found: None }
    }
}

/// A list at the start of the text: `(`, as many expressions as can be
/// read, and `)`. The symbols of a list that is not closed stay interned.
pub open spec fn list_spec(names: Seq<Seq<char>>, text: Seq<char>) -> Reading
    decreases text.len(), 0nat,
{
    if text.len() > 0 && text[0] == '(' {
        let inner = read_all_spec(names, text.skip(1));
        if inner.rest.len() > 0 && inner.rest[0] == ')' {
            Reading { names: inner.names, found: Some((inner.rest.skip(1), Value::List(inner.values))) }
        } else {
            Reading { names: inner.names, found: None }
        }
    } else {
        Reading { names, found: None }
    }
}

/// An expression at the start of the text, with the spaces around it: a
/// list, else a number, else a symbol.
pub open spec fn read_spec(names: Seq<Seq<char>>, text: Seq<char>) -> Reading
    decreases text.len(), 1nat,
{
    let body = trim(text);
    proof {
        lemma_run_len(text, CharClass::Space);
    }
    let listed = list_spec(names, body);
    match listed.found {
        Some((rest, value)) => Reading { names: listed.names, found: Some((trim(rest), value)) },
        None => match number_spec(body) {
            Some((rest, n)) => Reading {
                names: listed.names,
                found: Some((trim(rest), Value::Fixnum(n))),
            },
            None => {
                let named = symbol_spec(listed.names, body);
                match named.found {
                    Some((rest, value)) => Reading {
                        names: named.names,
                        found: Some((trim(rest), value)),
                    },
                    None => named,
                }
            },
        },
    }
}

/// Expressions one after another from the start of the text, up to where
/// none can be read. What the failed attempt interned stays interned.
pub open spec fn read_all_spec(names: Seq<Seq<char>>, text: Seq<char>) -> ReadingAll
    decreases text.len(), 2nat,
{
    let first = read_spec(names, text);
    match first.found {
        Some((rest, value)) if rest.len() < text.len() => {
            let more = read_all_spec(first.names, rest);
            ReadingAll { names: more.names, rest: more.rest, values: seq![value] + more.values }
        },
        _ => ReadingAll { names: first.names, rest: text, values: Seq::empty() },
    }
}

/// Reading expressions one after another stops inside the text.
pub proof fn lemma_read_all_rest(names: Seq<Seq<char>>, text: Seq<char>)
    ensures
        read_all_spec(names, text).rest.len() <= text.len(),
    decreases text.len(),
{
    let first = read_spec(names, text);
    if let Some((rest, _)) = first.found {
        if rest.len() < text.len() {
            lemma_read_all_rest(first.names, rest);
        }
    }
}

/// An expression takes at least one character, so reading one expression
/// after another goes on for as long as there is one to read.
pub proof fn lemma_read_shortens(names: Seq<Seq<char>>, text: Seq<char>)
    ensures
        read_spec(names, text).found matches Some((rest, _)) ==> rest.len() < text.len(),
{
    let body = trim(text);
    lemma_run_len(text, CharClass::Space);
    match list_spec(names, body).found {
        Some((rest, _)) => {
            lemma_read_all_rest(names, body.skip(1));
            lemma_run_len(rest, CharClass::Space);
        },
        None => match number_spec(body) {
            Some((rest, _)) => {
                lemma_number_shortens(body);
                lemma_run_len(rest, CharClass::Space);
            },
            None => {
                let n = run_len(body, CharClass::Alphanumeric) as int;
                lemma_run_len(body, CharClass::Alphanumeric);
                lemma_run_len(body.skip(n), CharClass::Space);
            },
        },
    }
}

/// Reading only ever adds to the table: it stays well formed, and every
/// symbol made before keeps its name, whether the reading succeeds or not.
pub proof fn lemma_read_extends(names: Seq<Seq<char>>, text: Seq<char>)
    requires
        well_formed(names),
    ensures
        well_formed(read_spec(names, text).names),
        extends(names, read_spec(names, text).names),
    decreases text.len(), 1nat,
{
    let body = trim(text);
    lemma_run_len(text, CharClass::Space);
    lemma_list_extends(names, body);
    let listed = list_spec(names, body);
    let n = run_len(body, CharClass::Alphanumeric) as int;
}

/// Reading a list only ever adds to the table.
pub proof fn lemma_list_extends(names: Seq<Seq<char>>, text: Seq<char>)
    requires
        well_formed(names),
    ensures
        well_formed(list_spec(names, text).names),
        extends(names, list_spec(names, text).names),
    decreases text.len(), 0nat,
{
    if text.len() > 0 && text[0] == '(' {
        lemma_read_all_extends(names, text.skip(1));
    }
}

/// Reading expressions one after another only ever adds to the table.
pub proof fn lemma_read_all_extends(names: Seq<Seq<char>>, text: Seq<char>)
    requires
        well_formed(names),
    ensures
        well_formed(read_all_spec(names, text).names),
        extends(names, read_all_spec(names, text).names),
    decreases text.len(), 2nat,
{
    lemma_read_extends(names, text);
    let first = read_spec(names, text);
    if let Some((rest, _)) = first.found {
        if rest.len() < text.len() {
            lemma_read_all_extends(first.names, rest);
        }
    }
}

/// What is read can be shown: a value that was read has a text in the table
/// as the reading left it.
pub proof fn lemma_read_has_text(names: Seq<Seq<char>>, text: Seq<char>)
    requires
        well_formed(names),
    ensures
        read_spec(names, text).found matches Some((_, value)) ==> text_of(
            value,
            read_spec(names, text).names,
        ) is Some,
    decreases text.len(), 1nat,
{
    let body = trim(text);
    lemma_run_len(text, CharClass::Space);
    let listed = list_spec(names, body);
    lemma_list_extends(names, body);
    if body.len() > 0 && body[0] == '(' {
        let inner = read_all_spec(names, body.skip(1));
        lemma_read_all_has_text(names, body.skip(1));
        lemma_joined_text_some(inner.values, inner.names);
    }
    let n = run_len(body, CharClass::Alphanumeric) as int;
    lemma_interned(listed.names, body.take(n));
}

/// The values read one after another all have a text in the table as the
/// reading left it.
pub proof fn lemma_read_all_has_text(names: Seq<Seq<char>>, text: Seq<char>)
    requires
        well_formed(names),
    ensures
        forall|i: int|
            0 <= i < read_all_spec(names, text).values.len() ==> (#[trigger] text_of(
                read_all_spec(names, text).values[i],
                read_all_spec(names, text).names,
            )) is Some,
    decreases text.len(), 2nat,
{
    let first = read_spec(names, text);
    lemma_read_has_text(names, text);
    lemma_read_extends(names, text);
    if let Some((rest, value)) = first.found {
        if rest.len() < text.len() {
            let more = read_all_spec(first.names, rest);
            lemma_read_all_has_text(first.names, rest);
            lemma_read_all_extends(first.names, rest);
            lemma_text_extends(value, first.names, more.names);
        }
    }
}

/// The text does not begin with an expression.
#[derive(Debug, Clone, Copy, PartialEq, Eq)]
pub struct ReadError {}

/// Reads a symbol and interns it.
pub fn symbol<'a>(table: &mut Interner, s: &'a str) -> (r: Option<(&'a str, Symbol)>)
    requires
        old(table).wf(),
    ensures
        final(table).wf(),
        final(table)@ == symbol_spec(old(table)@, s@).names,
        match r {
            Some((rest, sym)) => symbol_spec(old(table)@, s@).found == Some(
                (rest@, Value::Symbol(sym.id as nat)),
            ),
            None => symbol_spec(old(table)@, s@).found is None,
        },
{
    match take_alphanumerics(s) {
        Some((rest, name)) => {
            let sym = Symbol::intern(table, name);
            Some((rest, sym))
        },
        None => None,
    }
}

/// Reads a list.
pub fn list<'a>(table: &mut Interner, s: &'a str) -> (r: Option<(&'a str, List)>)
    requires
        old(table).wf(),
    ensures
        final(table).wf(),
        final(table)@ == list_spec(old(table)@, s@).names,
        match r {
            Some((rest, list)) => list_spec(old(table)@, s@).found == Some((rest@, Value::List(list@)))
                && rest@.len() < s@.len(),
            None => list_spec(old(table)@, s@).found is None,
        },
    decreases s@.len(), 0nat,
{
    let mut cur = match take_char('(', s) {
        Some(inner) => inner,
        None => {
            return None;
        },
    };
    let ghost whole = read_all_spec(table@, cur@);
    let mut items: Vec<Object> = Vec::new();
    loop
        invariant_except_break
            whole.names == read_all_spec(table@, cur@).names,
            whole.rest == read_all_spec(table@, cur@).rest,
            whole.values == values_of(items@) + read_all_spec(table@, cur@).values,
        invariant
            table.wf(),
            cur@.len() < s@.len(),
        ensures
            table.wf(),
            cur@.len() < s@.len(),
            whole == (ReadingAll { names: table@, rest: cur@, values: values_of(items@) }),
        decreases cur@.len(),
    {
        let ghost before = items@;
        match read(table, cur) {
            Ok((rest, object)) => {
                items.push(object);
                cur = rest;
                proof {
                    assert(before =~= items@.drop_last());
                }
            },
            Err(_) => {
                break ;
            },
        }
    }
    match take_char(')', cur) {
        Some(rest) => Some((rest, List::from(items))),
        None => None,
    }
}

/// Reads one expression from the start of the text and gives it with the
/// text that follows it. The spaces before and after the expression are
/// passed over, so that the text given back begins where the next
/// expression would.
pub fn read<'a>(table: &mut Interner, s: &'a str) -> (r: Result<(&'a str, Object), ReadError>)
    requires
        old(table).wf(),
    ensures
        final(table).wf(),
        final(table)@ == read_spec(old(table)@, s@).names,
        match r {
            Ok((rest, object)) => read_spec(old(table)@, s@).found == Some((rest@, object@))
                && rest@.len() < s@.len(),
            Err(_) => read_spec(old(table)@, s@).found is None,
        },
    decreases s@.len(), 1nat,
{
    proof {
        lemma_run_len(s@, CharClass::Space);
    }
    let body = match take_spaces(s) {
        Some((body, _)) => body,
        None => {
            return Err(ReadError {});
        },
    };
    proof {
        lemma_number_shortens(body@);
        lemma_run_len(body@, CharClass::Alphanumeric);
    }
    let found: Option<(&'a str, Object)> = match list(table, body) {
        Some((rest, list)) => Some((rest, Object::from(list))),
        None => match fixnum(body) {
            Some((rest, n)) => Some((rest, Object::from(n))),
            None => match symbol(table, body) {
                Some((rest, sym)) => Some((rest, Object::from(sym))),
                None => None,
            },
        },
    };
    match found {
        Some((after, object)) => {
            proof {
                lemma_run_len(after@, CharClass::Space);
            }
            match take_spaces(after) {
                Some((rest, _)) => Ok((rest, object)),
                None => Err(ReadError {}),
            }
        },
        None => Err(ReadError {}),
    }
}

} // verus!
