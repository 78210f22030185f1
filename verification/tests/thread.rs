use lisp_core::compile::{compile_function, Instruction};
use lisp_core::err::Error;
use lisp_core::lisp::{fxn, Interner, List, Object, Symbol};
use lisp_core::read::read;
use lisp_core::thread::Thread;

fn num(i: i32) -> Object {
    Object::Fixnum(fxn(i))
}

fn parse(table: &mut Interner, text: &str) -> Object {
    let (rest, object) = read(table, text).expect("read error");
    assert_eq!(rest, "");
    object
}

fn eval_text(text: &str) -> Result<Object, Error> {
    let mut table = Interner::new();
    let form = parse(&mut table, text);
    Thread::default().eval(form)
}

#[test]
fn sum_of_two_evaluates_to_their_sum() {
    assert_eq!(eval_text("(add 3 4)").expect("evaluation error"), num(7));
}

#[test]
fn nested_sum_evaluates_inside_out() {
    assert_eq!(eval_text("(add 1 (add 1 1))").expect("evaluation error"), num(3));
}

#[test]
fn sum_of_many_folds_them_all() {
    assert_eq!(eval_text("(add 1 2 3 4)").expect("evaluation error"), num(10));
    assert_eq!(
        eval_text("(add (add 1 2) (add 3 4 5) 6 (add 7))").expect("evaluation error"),
        num(28)
    );
    assert_eq!(eval_text("(add -5 0x10 +2)").expect("evaluation error"), num(13));
}

#[test]
fn sum_of_one_is_its_argument() {
    assert_eq!(eval_text("(add 5)").expect("evaluation error"), num(5));
    let mut table = Interner::new();
    let form = parse(&mut table, "(add foo)");
    let foo = Symbol::intern(&mut table, "foo");
    assert_eq!(
        Thread::default().eval(form).expect("evaluation error"),
        Object::Symbol(foo)
    );
}

#[test]
fn sums_wrap_to_32_bits() {
    assert_eq!(
        eval_text("(add 2147483647 1)").expect("evaluation error"),
        num(i32::MIN)
    );
    assert_eq!(
        eval_text("(add -2147483648 -1)").expect("evaluation error"),
        num(i32::MAX)
    );
    assert_eq!(
        eval_text("(add 2147483647 2147483647 2)").expect("evaluation error"),
        num(0)
    );
}

#[test]
fn what_is_no_list_evaluates_to_itself() {
    let mut thread = Thread::default();
    assert_eq!(thread.eval(num(5)).expect("evaluation error"), num(5));
    assert_eq!(thread.eval(Object::Nil).expect("evaluation error"), Object::Nil);
    let sym = Object::Symbol(Symbol { id: 7 });
    assert_eq!(thread.eval(sym.shallow_copy()).expect("evaluation error"), sym);
    assert_eq!(thread.depth(), 0);
}

#[test]
fn unknown_operator_fails_and_leaves_the_stack() {
    let mut table = Interner::new();
    let form = parse(&mut table, "(unknown 1 2)");
    let mut thread = Thread::default();
    thread.push(num(1)).expect("push");
    thread.push(num(2)).expect("push");
    match thread.eval(form.shallow_copy()) {
        Err(Error::UnknownCompilerForm(list)) => assert_eq!(Object::List(list), form),
        other => panic!("expected an unknown form, got {:?}", other),
    }
    assert_eq!(thread.depth(), 2);
    assert_eq!(thread.pop().expect("pop"), num(2));
    assert_eq!(thread.pop().expect("pop"), num(1));
}

#[test]
fn sum_of_what_is_no_number_is_a_type_error_and_leaves_the_stack() {
    let mut table = Interner::new();
    let mut thread = Thread::default();
    thread.push(num(9)).expect("push");
    for text in ["(add foo 1)", "(add 1 foo)", "(add 1 2 foo)", "(add foo 2 3)", "(add 1 (add 2 ()) 3)"] {
        let form = parse(&mut table, text);
        assert!(matches!(thread.eval(form), Err(Error::TypeError(_))));
        assert_eq!(thread.depth(), 1);
    }
    assert_eq!(thread.pop().expect("pop"), num(9));
}

#[test]
fn empty_list_and_sum_of_nothing_do_not_evaluate() {
    assert!(matches!(eval_text("()"), Err(Error::TypeError(_))));
    assert!(matches!(eval_text("(1 2)"), Err(Error::TypeError(_))));
    assert!(matches!(eval_text("((add 1 2) 3)"), Err(Error::TypeError(_))));
    assert!(matches!(eval_text("(add)"), Err(Error::UnknownCompilerForm(_))));
    assert!(matches!(eval_text("(defun 1 2)"), Err(Error::UnknownCompilerForm(_))));
}

#[test]
fn compile_error_comes_before_any_type_error() {
    assert!(matches!(
        eval_text("(add (add foo 1) (unknown 2))"),
        Err(Error::UnknownCompilerForm(_))
    ));
}

#[test]
fn invoke_leaves_the_stack_as_high_as_it_found_it() {
    let mut table = Interner::new();
    let form = parse(&mut table, "(add 1 (add 2 3 (add 4 5)) 6)");
    let compiled = compile_function(&[form]).expect("compiler error");
    let mut thread = Thread::default();
    assert_eq!(thread.invoke(&compiled).expect("evaluation error"), num(21));
    assert_eq!(thread.depth(), 0);
    thread.push(num(100)).expect("push");
    thread.push(Object::Nil).expect("push");
    assert_eq!(thread.invoke(&compiled).expect("evaluation error"), num(21));
    assert_eq!(thread.depth(), 2);
    assert_eq!(thread.invoke(&compiled).expect("evaluation error"), num(21));
    assert_eq!(thread.depth(), 2);
    assert_eq!(thread.pop().expect("pop"), Object::Nil);
    assert_eq!(thread.pop().expect("pop"), num(100));
}

#[test]
fn function_body_leaves_one_value_more() {
    let mut table = Interner::new();
    let form = parse(&mut table, "(add 1 (add 2 3) 4)");
    let compiled = compile_function(&[form]).expect("compiler error");
    let mut thread = Thread::default();
    thread.push(num(100)).expect("push");
    thread.execute_function_body(&compiled).expect("evaluation error");
    assert_eq!(thread.depth(), 2);
    assert_eq!(thread.pop().expect("pop"), num(10));
    assert_eq!(thread.pop().expect("pop"), num(100));
}

#[test]
fn function_body_stops_at_the_first_failure() {
    let mut table = Interner::new();
    let form = parse(&mut table, "(add 1 (add foo 2) 3)");
    let compiled = compile_function(&[form]).expect("compiler error");
    let mut thread = Thread::default();
    thread.push(num(100)).expect("push");
    assert!(matches!(
        thread.execute_function_body(&compiled),
        Err(Error::TypeError(_))
    ));
    assert_eq!(thread.depth(), 2);
    assert_eq!(thread.pop().expect("pop"), num(1));
    assert_eq!(thread.pop().expect("pop"), num(100));
}

#[test]
fn one_thread_evaluates_one_form_after_another() {
    let mut table = Interner::new();
    let mut thread = Thread::default();
    let mut input = "(add 1 2) (unknown) (add foo 1) 7 (add 3 4)";
    let mut results = Vec::new();
    while !input.is_empty() {
        let (rest, form) = read(&mut table, input).expect("read error");
        input = rest;
        results.push(thread.eval(form).ok());
        assert_eq!(thread.depth(), 0);
    }
    assert_eq!(results, vec![Some(num(3)), None, None, Some(num(7)), Some(num(7))]);
}

#[test]
fn push_and_pop_are_last_in_first_out() {
    let mut thread = Thread::default();
    assert_eq!(thread.depth(), 0);
    thread.push(num(1)).expect("push");
    thread.push(Object::List(List::from(vec![num(2), Object::Nil]))).expect("push");
    assert_eq!(thread.depth(), 2);
    assert_eq!(
        thread.pop().expect("pop"),
        Object::List(List::from(vec![num(2), Object::Nil]))
    );
    assert_eq!(thread.pop().expect("pop"), num(1));
    assert_eq!(thread.depth(), 0);
}

#[test]
fn pop_of_an_empty_stack_underflows() {
    let mut thread = Thread::default();
    assert!(matches!(thread.pop(), Err(Error::StackUnderflow)));
    assert_eq!(thread.depth(), 0);
}

#[test]
fn literal_pushes_a_copy() {
    let mut thread = Thread::default();
    let value = Object::List(List::from(vec![num(1)]));
    thread
        .operate(&Instruction::Literal(value.shallow_copy()))
        .expect("operate");
    assert_eq!(thread.depth(), 1);
    assert_eq!(thread.pop().expect("pop"), value);
}

#[test]
fn addition_replaces_two_numbers_by_their_sum() {
    let mut thread = Thread::default();
    thread.push(Object::Nil).expect("push");
    thread.push(num(3)).expect("push");
    thread.push(num(4)).expect("push");
    thread.operate(&Instruction::FixnumAdd).expect("operate");
    assert_eq!(thread.depth(), 2);
    assert_eq!(thread.pop().expect("pop"), num(7));
    assert_eq!(thread.pop().expect("pop"), Object::Nil);
}

#[test]
fn addition_on_an_empty_stack_underflows() {
    let mut thread = Thread::default();
    assert!(matches!(
        thread.operate(&Instruction::FixnumAdd),
        Err(Error::StackUnderflow)
    ));
    assert_eq!(thread.depth(), 0);
}

#[test]
fn addition_on_one_number_underflows_and_keeps_it_popped() {
    let mut thread = Thread::default();
    thread.push(num(1)).expect("push");
    assert!(matches!(thread.fixnum_add(), Err(Error::StackUnderflow)));
    assert_eq!(thread.depth(), 0);
}

#[test]
fn addition_of_what_is_no_number_is_a_type_error() {
    let mut thread = Thread::default();
    thread.push(num(1)).expect("push");
    thread.push(Object::Nil).expect("push");
    assert!(matches!(thread.fixnum_add(), Err(Error::TypeError(_))));
    assert_eq!(thread.depth(), 1);
    assert_eq!(thread.pop().expect("pop"), num(1));

    thread.push(num(0)).expect("push");
    thread.push(Object::Nil).expect("push");
    thread.push(num(1)).expect("push");
    assert!(matches!(thread.fixnum_add(), Err(Error::TypeError(_))));
    assert_eq!(thread.depth(), 1);
    assert_eq!(thread.pop().expect("pop"), num(0));
}
