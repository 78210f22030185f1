//! What a form stands for, and the proof that the compiler and the engine
//! together compute it.

use vstd::prelude::*;
use crate::compile::{adds, code_of, code_of_all, Op};
use crate::err::Failure;
use crate::fixnum::wrap;
use crate::thread::{add_outcome, run, Outcome};
use crate::top_type::{text_of, Value};

verus! {

/// The wrapped sum of the values, which must all be numbers.
pub open spec fn total(values: Seq<Value>) -> Option<int>
    decreases values.len(),
{
    if values.len() == 0 {
        Some(0)
    } else {
        match (total(values.drop_last()), values.last()) {
            (Some(sum), Value::Fixnum(n)) => Some(wrap(sum + n)),
            _ => None,
        }
    }
}

/// What a form that compiles stands for: itself if it is no list; if it is
/// a sum of one argument, the value of that argument; if it is a sum of
/// more, the wrapped sum of their values, which must all be numbers. `None`
/// where a value that is no number would have to be added.
pub open spec fn value_of_form(form: Value) -> Option<Value>
    decreases form, 0nat,
{
    match form {
        Value::List(items) => if items.len() < 2 {
            None
        } else {
            match values_of_forms(items.subrange(1, items.len() as int)) {
                None => None,
                Some(values) => if values.len() == 1 {
                    Some(values[0])
                } else {
                    match total(values) {
                        Some(sum) => Some(Value::Fixnum(sum)),
                        None => None,
                    }
                },
            }
        },
        _ => Some(form),
    }
}

/// The values of the forms, in order; `None` where one of them has none.
pub open spec fn values_of_forms(forms: Seq<Value>) -> Option<Seq<Value>>
    decreases forms, 1nat,
{
    if forms.len() == 0 {
        Some(Seq::empty())
    } else {
        match (values_of_forms(forms.drop_last()), value_of_form(forms.last())) {
            (Some(front), Some(last)) => Some(front.push(last)),
            _ => None,
        }
    }
}

/// The value of a form, or the error of compiling or running it. A form
/// that is no list is its own value. A list is compiled whole before any of
/// it is run, so an error of the compiler comes before any type error.
pub open spec fn evaluated(form: Value) -> core::result::Result<Value, Failure> {
    match form {
        Value::List(_) => match code_of(form) {
            Err(e) => Err(e),
            Ok(_) => match value_of_form(form) {
                Some(value) => Ok(value),
                None => Err(Failure::TypeError),
            },
        },
        _ => Ok(form),
    }
}

/// Two runs of instructions one after the other do what the first does and
/// then, if it did not fail, what the second does.
pub proof fn lemma_run_concat(front: Seq<Op>, back: Seq<Op>, stack: Seq<Value>)
    ensures
        run(front + back, stack) == if run(front, stack).error is Some {
            run(front, stack)
        } else {
            run(back, run(front, stack).stack)
        },
    decreases back.len(),
{
    if back.len() > 0 {
        assert((front + back).drop_last() =~= front + back.drop_last());
        lemma_run_concat(front, back.drop_last(), stack);
    }
}

/// One addition fewer than there are values folds the values on top of the
/// stack into their wrapped sum, or fails with a type error where one of
/// them is no number. A single value stays as it is.
pub proof fn lemma_run_adds(stack: Seq<Value>, values: Seq<Value>)
    requires
        values.len() >= 1,
    ensures
        ({
            let after = run(adds((values.len() - 1) as nat), stack + values);
            if values.len() == 1 {
                after == (Outcome { stack: stack.push(values[0]), error: None })
            } else {
                match total(values) {
                    Some(sum) => after == (Outcome {
                        stack: stack.push(Value::Fixnum(sum)),
                        error: None,
                    }),
                    None => after.error == Some(Failure::TypeError),
                }
            }
        }),
    decreases values.len(),
{
    let n = values.len() as int;
    let whole = stack + values;
    if n == 1 {
        assert(whole =~= stack.push(values[0]));
    } else {
        let one = seq![Op::FixnumAdd];
        assert(adds((n - 1) as nat) =~= one + adds((n - 2) as nat));
        lemma_run_concat(one, adds((n - 2) as nat), whole);
        assert(run(one.drop_last(), whole) == (Outcome { stack: whole, error: None }));
        let front = values.take(n - 2);
        assert(values.drop_last().drop_last() =~= front);
        if values[n - 1] is Fixnum && values[n - 2] is Fixnum {
            let a = values[n - 1]->Fixnum_0;
            let b = values[n - 2]->Fixnum_0;
            let folded = front.push(Value::Fixnum(wrap(a + b)));
            assert(add_outcome(whole).stack =~= stack + folded);
            assert(folded.drop_last() =~= front);
            if let Some(sum) = total(front) {
                assert(total(values.drop_last()) == Some(wrap(sum + b)));
            }
            lemma_run_adds(stack, folded);
        }
    }
}

/// The compiler is right: run on any stack, the code of a form leaves that
/// stack with the value of the form on top of it, or fails with a type
/// error where the form has no value.
pub proof fn lemma_code_computes(form: Value, stack: Seq<Value>)
    requires
        code_of(form) is Ok,
    ensures
        match value_of_form(form) {
            Some(value) => run(code_of(form)->Ok_0, stack) == (Outcome {
                stack: stack.push(value),
                error: None,
            }),
            None => run(code_of(form)->Ok_0, stack).error == Some(Failure::TypeError),
        },
    decreases form, 0nat,
{
    match form {
        Value::List(items) => {
            let args = items.subrange(1, items.len() as int);
            let code = code_of_all(args)->Ok_0;
            let folds = adds((args.len() - 1) as nat);
            lemma_code_all_computes(args, stack);
            lemma_run_concat(code, folds, stack);
            if let Some(values) = values_of_forms(args) {
                lemma_run_adds(stack, values);
            }
        },
        _ => {
            let code = seq![Op::Literal(form)];
            assert(run(code.drop_last(), stack) == (Outcome { stack, error: None }));
        },
    }
}

/// The code of a run of forms leaves their values on the stack, in order,
/// or fails with a type error where one of them has no value.
pub proof fn lemma_code_all_computes(forms: Seq<Value>, stack: Seq<Value>)
    requires
        code_of_all(forms) is Ok,
    ensures
        match values_of_forms(forms) {
            Some(values) => values.len() == forms.len() && run(code_of_all(forms)->Ok_0, stack) == (
            Outcome { stack: stack + values, error: None }),
            None => run(code_of_all(forms)->Ok_0, stack).error == Some(Failure::TypeError),
        },
    decreases forms, 1nat,
{
    if forms.len() > 0 {
        let front = code_of_all(forms.drop_last())->Ok_0;
        let back = code_of(forms.last())->Ok_0;
        lemma_code_all_computes(forms.drop_last(), stack);
        lemma_run_concat(front, back, stack);
        if let Some(values) = values_of_forms(forms.drop_last()) {
            lemma_code_computes(forms.last(), stack + values);
        }
    }
}

/// What is computed can be shown: the value of a form that has a text in a
/// table has a text in that table.
pub proof fn lemma_value_has_text(form: Value, names: Seq<Seq<char>>)
    requires
        text_of(form, names) is Some,
        value_of_form(form) is Some,
    ensures
        text_of(value_of_form(form)->Some_0, names) is Some,
    decreases form,
{
    if let Value::List(items) = form {
        let args = items.subrange(1, items.len() as int);
        let values = values_of_forms(args)->Some_0;
        if values.len() == 1 {
            assert(args.len() == 1) by {
                if args.len() > 1 {
                    lemma_values_of_forms_len(args);
                }
            }
            lemma_value_has_text(items[1], names);
        }
    }
}

/// There are as many values as forms.
pub proof fn lemma_values_of_forms_len(forms: Seq<Value>)
    requires
        values_of_forms(forms) is Some,
    ensures
        values_of_forms(forms)->Some_0.len() == forms.len(),
    decreases forms.len(),
{
    if forms.len() > 0 {
        lemma_values_of_forms_len(forms.drop_last());
    }
}

} // verus!
