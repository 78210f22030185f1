//! The execution engine: an operand stack and the instructions that work on
//! it.

use vstd::prelude::*;
use crate::compile::{
    code_of, compile_function, depth_after, lemma_code_depth, lemma_code_of_single, ops_of,
    CompiledFunction, Instruction, Op,
};
use crate::err::{type_error, Error, Failure, Result};
use crate::fixnum::{wrap, Fixnum};
use crate::meaning::{evaluated, lemma_code_computes, value_of_form};
use crate::top_type::{lemma_values_of, values_of, Object, Value};

verus! {

/// The machine after some instructions: its stack, and the error at which it
/// stopped, if it did.
pub ghost struct Outcome {
    pub stack: Seq<Value>,
    pub error: Option<Failure>,
}

/// What `FixnumAdd` does. It pops the top value, which must be a number,
/// then the next, which must be one too, and pushes their sum. What was
/// popped before a failure stays popped.
pub open spec fn add_outcome(stack: Seq<Value>) -> Outcome {
    let n = stack.len() as int;
    if n == 0 {
        Outcome { stack, error: Some(Failure::StackUnderflow) }
    } else if !(stack[n - 1] is Fixnum) {
        Outcome { stack: stack.take(n - 1), error: Some(Failure::TypeError) }
    } else if n == 1 {
        Outcome { stack: stack.take(n - 1), error: Some(Failure::StackUnderflow) }
    } else if !(stack[n - 2] is Fixnum) {
        Outcome { stack: stack.take(n - 2), error: Some(Failure::TypeError) }
    } else {
        Outcome {
            stack: stack.take(n - 2).push(
                Value::Fixnum(wrap(stack[n - 1]->Fixnum_0 + stack[n - 2]->Fixnum_0)),
            ),
            error: None,
        }
    }
}

/// What one instruction does to a stack.
pub open spec fn step(op: Op, stack: Seq<Value>) -> Outcome {
    match op {
        Op::Literal(value) => Outcome { stack: stack.push(value), error: None },
        Op::FixnumAdd => add_outcome(stack),
    }
}

/// What a run of instructions does to a stack: each in order, up to the
/// first that fails.
pub open spec fn run(ops: Seq<Op>, stack: Seq<Value>) -> Outcome
    decreases ops.len(),
{
    if ops.len() == 0 {
        Outcome { stack, error: None }
    } else {
        let before = run(ops.drop_last(), stack);
        if before.error is Some {
            before
        } else {
            step(ops.last(), before.stack)
        }
    }
}

/// Where the first `i + 1` instructions fail, so does the whole run, with
/// the same stack and error.
pub proof fn lemma_run_stops(ops: Seq<Op>, stack: Seq<Value>, i: int)
    requires
        0 <= i < ops.len(),
        run(ops.take(i + 1), stack).error is Some,
    ensures
        run(ops, stack) == run(ops.take(i + 1), stack),
    decreases ops.len(),
{
    if i == ops.len() - 1 {
        assert(ops.take(i + 1) =~= ops);
    } else {
        assert(ops.drop_last().take(i + 1) =~= ops.take(i + 1));
        lemma_run_stops(ops.drop_last(), stack, i);
    }
}

/// Instructions whose depth is defined from `depth` on never touch what lies
/// below the top `depth` values, never find the stack empty, and, where they
/// all succeed, leave the stack as high as `depth_after` says.
pub proof fn lemma_run_frame(ops: Seq<Op>, stack: Seq<Value>, depth: nat)
    requires
        depth <= stack.len(),
        depth_after(ops, depth) is Some,
    ensures
        ({
            let base = stack.len() - depth;
            let after = run(ops, stack);
            &&& after.stack.len() >= base
            &&& after.stack.take(base) == stack.take(base)
            &&& after.error is None ==> after.stack.len() == base + depth_after(ops, depth)->Some_0
            &&& after.error is Some ==> after.error == Some(Failure::TypeError)
        }),
    decreases ops.len(),
{
    if ops.len() > 0 {
        lemma_run_frame(ops.drop_last(), stack, depth);
    }
}

/// Stack height across a compiled form: run on any stack, the code of a
/// form either fails with a type error, or leaves that stack with exactly
/// one value on top of it, however many forms are nested in the form.
pub proof fn lemma_invoke_height(form: Value, stack: Seq<Value>)
    requires
        code_of(form) is Ok,
    ensures
        ({
            let after = run(code_of(form)->Ok_0, stack);
            &&& after.error is None ==> after.stack.len() == stack.len() + 1
                && after.stack.drop_last() == stack
            &&& after.error is Some ==> after.error == Some(Failure::TypeError)
                && after.stack.len() >= stack.len()
                && after.stack.take(stack.len() as int) == stack
        }),
{
    lemma_code_depth(form, 0);
    lemma_run_frame(code_of(form)->Ok_0, stack, 0);
}

/// One execution context: an operand stack.
pub struct Thread {
    value_stack: Vec<Object>,
}

impl View for Thread {
    type V = Seq<Value>;

    closed spec fn view(&self) -> Seq<Value> {
        values_of(self.value_stack@)
    }
}

impl Default for Thread {
    /// A thread with an empty stack.
    fn default() -> (thread: Thread)
        ensures
            thread@ == Seq::<Value>::empty(),
    {
        Thread { value_stack: Vec::new() }
    }
}

impl Thread {
    /// How many values the stack holds.
    pub fn depth(&self) -> (n: usize)
        ensures
            n == self@.len(),
    {
        proof {
            lemma_values_of(self.value_stack@);
        }
        self.value_stack.len()
    }

    /// Runs the function and returns the one value that it leaves. The
    /// stack is afterwards as it was before, also where the function fails.
    pub fn invoke(&mut self, function: &CompiledFunction) -> (r: Result<Object>)
        requires
            function.yields_one(),
        ensures
            final(self)@ == old(self)@,
            match r {
                Ok(value) => run(function@, old(self)@) == (Outcome {
                    stack: old(self)@.push(value@),
                    error: None,
                }),
                Err(e) => run(function@, old(self)@).error == Some(e@),
            },
    {
        let height = self.value_stack.len();
        proof {
            lemma_values_of(self.value_stack@);
            lemma_run_frame(function@, self@, 0);
        }
        match self.execute_function_body(function) {
            Ok(_) => {
                let ghost after = self@;
                let r = self.pop();
                proof {
                    assert(after =~= after.drop_last().push(after.last()));
                }
                r
            },
            Err(e) => {
                let ghost longer = self.value_stack@;
                self.value_stack.truncate(height);
                proof {
                    lemma_values_of(longer);
                    lemma_values_of(self.value_stack@);
                    assert(self@ =~= values_of(longer).take(height as int));
                }
                Err(e)
            },
        }
    }

    /// Runs the instructions in order and stops at the first that fails.
    pub fn execute_function_body(&mut self, function: &CompiledFunction) -> (r: Result<()>)
        ensures
            final(self)@ == run(function@, old(self)@).stack,
            match r {
                Ok(_) => run(function@, old(self)@).error is None,
                Err(e) => run(function@, old(self)@).error == Some(e@),
            },
    {
        let body: &[Instruction] = function;
        let ghost ops = function@;
        let mut i: usize = 0;
        while i < body.len()
            invariant
                i <= body.len(),
                ops == function@,
                ops == ops_of(body@),
                run(ops.take(i as int), old(self)@) == (Outcome { stack: self@, error: None }),
            decreases body.len() - i,
        {
            proof {
                assert(ops.take(i + 1).drop_last() =~= ops.take(i as int));
            }
            match self.operate(&body[i]) {
                Ok(_) => {},
                Err(e) => {
                    proof {
                        lemma_run_stops(ops, old(self)@, i as int);
                    }
                    return Err(e);
                },
            }
            i += 1;
        }
        proof {
            assert(ops.take(i as int) =~= ops);
        }
        Ok(())
    }

    /// Evaluates a form: a list is compiled and run, any other value is
    /// returned as it is. The stack is afterwards as it was before.
    pub fn eval(&mut self, it: Object) -> (r: Result<Object>)
        ensures
            final(self)@ == old(self)@,
            match r {
                Ok(value) => evaluated(it@) == Ok::<Value, Failure>(value@),
                Err(e) => evaluated(it@) == Err::<Value, Failure>(e@),
            },
    {
        match &it {
            Object::List(_) => {
                let ghost form = it@;
                let body: Vec<Object> = vec![it];
                proof {
                    lemma_values_of(body@);
                    assert(values_of(body@) =~= seq![form]);
                    lemma_code_of_single(form);
                }
                match compile_function(body.as_slice()) {
                    Ok(function) => {
                        proof {
                            lemma_code_computes(form, self@);
                        }
                        let r = self.invoke(&function);
                        proof {
                            if r is Ok {
                                let value = value_of_form(form)->Some_0;
                                assert(old(self)@.push(value).last() == value);
                            }
                        }
                        r
                    },
                    Err(e) => Err(e),
                }
            },
            _ => Ok(it),
        }
    }

    /// Puts a copy of the value on top of the stack.
    pub fn push(&mut self, value: Object) -> (r: Result<()>)
        ensures
            r is Ok,
            final(self)@ == old(self)@.push(value@),
    {
        self.value_stack.push(value.shallow_copy());
        proof {
            assert(self.value_stack@.drop_last() =~= old(self).value_stack@);
        }
        Ok(())
    }

    /// Takes the top value off the stack.
    pub fn pop(&mut self) -> (r: Result<Object>)
        ensures
            match r {
                Ok(value) => old(self)@.len() > 0 && value@ == old(self)@.last() && final(self)@
                    == old(self)@.drop_last(),
                Err(e) => old(self)@.len() == 0 && e@ == Failure::StackUnderflow && final(self)@
                    == old(self)@,
            },
    {
        match self.value_stack.pop() {
            Some(value) => Ok(value),
            None => Err(Error::StackUnderflow),
        }
    }

    /// Replaces the two numbers on top of the stack by their sum.
    pub fn fixnum_add(&mut self) -> (r: Result<()>)
        ensures
            final(self)@ == add_outcome(old(self)@).stack,
            match r {
                Ok(_) => add_outcome(old(self)@).error is None,
                Err(e) => add_outcome(old(self)@).error == Some(e@),
            },
    {
        let first: Fixnum = match self.pop() {
            Ok(Object::Fixnum(n)) => n,
            Ok(_) => {
                return Err(type_error());
            },
            Err(e) => {
                return Err(e);
            },
        };
        let second: Fixnum = match self.pop() {
            Ok(Object::Fixnum(n)) => n,
            Ok(_) => {
                return Err(type_error());
            },
            Err(e) => {
                return Err(e);
            },
        };
        let res: Fixnum = first + second;
        self.push(Object::Fixnum(res))
    }

    /// Carries out one instruction.
    pub fn operate(&mut self, op: &Instruction) -> (r: Result<()>)
        ensures
            final(self)@ == step(op@, old(self)@).stack,
            match r {
                Ok(_) => step(op@, old(self)@).error is None,
                Err(e) => step(op@, old(self)@).error == Some(e@),
            },
    {
        match op {
            Instruction::Literal(obj) => self.push(obj.shallow_copy()),
            Instruction::FixnumAdd => self.fixnum_add(),
        }
    }
}

} // verus!
