//! The compiler: from a form to the instructions that compute it.
//!
//! A form that is not a list stands for itself and compiles to one
//! `Literal`. A list is a call: its head names the operator. The one
//! operator is the variadic sum `add`: its arguments are compiled from left
//! to right, then one `FixnumAdd` fewer than there are arguments folds them
//! into one number. A sum of no arguments has no value and is refused.

use vstd::prelude::*;
use vstd::slice::slice_subrange;
use crate::err::{type_error, Error, Failure, Result};
use crate::list::List;
use crate::symbol::{Symbol, ADD_ID, DEFUN_ID};
use crate::top_type::{lemma_values_of, values_of, Object, Value};

verus! {

/// One step of the stack machine.
#[derive(Debug)]
pub enum Instruction {
    /// Push a copy of the value.
    Literal(Object),
    /// Pop two numbers and push their sum.
    FixnumAdd,
}

/// An instruction as contracts speak of it.
pub ghost enum Op {
    Literal(Value),
    FixnumAdd,
}

impl View for Instruction {
    type V = Op;

    open spec fn view(&self) -> Op {
        match self {
            Instruction::Literal(object) => Op::Literal(object@),
            Instruction::FixnumAdd => Op::FixnumAdd,
        }
    }
}

/// The instructions of a run, in order.
pub open spec fn ops_of(body: Seq<Instruction>) -> Seq<Op> {
    Seq::new(body.len(), |i: int| body[i]@)
}

/// `n` additions in a row.
pub open spec fn adds(n: nat) -> Seq<Op> {
    Seq::new(n, |i: int| Op::FixnumAdd)
}

/// The code of one form, or the error that refuses it.
pub open spec fn code_of(form: Value) -> core::result::Result<Seq<Op>, Failure>
    decreases form,
{
    match form {
        Value::List(items) => {
            if items.len() == 0 || !(items[0] is Symbol) {
                Err(Failure::TypeError)
            } else if items[0]->Symbol_0 != ADD_ID || items.len() == 1 {
                Err(Failure::UnknownCompilerForm(items))
            } else {
                match code_of_all(items.subrange(1, items.len() as int)) {
                    Ok(code) => Ok(code + adds((items.len() - 2) as nat)),
                    Err(e) => Err(e),
                }
            }
        },
        _ => Ok(seq![Op::Literal(form)]),
    }
}

/// The codes of several forms one after another, or the error of the first
/// form that is refused.
pub open spec fn code_of_all(forms: Seq<Value>) -> core::result::Result<Seq<Op>, Failure>
    decreases forms,
{
    if forms.len() == 0 {
        Ok(Seq::empty())
    } else {
        match code_of_all(forms.drop_last()) {
            Err(e) => Err(e),
            Ok(front) => match code_of(forms.last()) {
                Err(e) => Err(e),
                Ok(back) => Ok(front + back),
            },
        }
    }
}

/// A declaration: a list whose head is the symbol `defun`.
pub open spec fn is_special(items: Seq<Value>) -> bool {
    items.len() > 0 && items[0] is Symbol && items[0]->Symbol_0 == DEFUN_ID
}

/// What a top-level form compiles to: nothing for a declaration, a function
/// for any other list, and an error for what is no list.
pub open spec fn toplevel_code(form: Value) -> core::result::Result<Option<Seq<Op>>, Failure> {
    match form {
        Value::List(items) => {
            if is_special(items) {
                Ok(None)
            } else {
                match code_of(form) {
                    Ok(code) => Ok(Some(code)),
                    Err(e) => Err(e),
                }
            }
        },
        _ => Err(Failure::TypeError),
    }
}

/// Once a form of a run is refused, the run is refused with that error,
/// however it goes on.
pub proof fn lemma_code_of_all_refused(forms: Seq<Value>, i: int)
    requires
        0 <= i < forms.len(),
        code_of_all(forms.take(i)) is Ok,
        code_of(forms[i]) is Err,
    ensures
        code_of_all(forms) == Err::<Seq<Op>, Failure>(code_of(forms[i])->Err_0),
    decreases forms.len(),
{
    if i < forms.len() - 1 {
        assert(forms.drop_last().take(i) =~= forms.take(i));
        lemma_code_of_all_refused(forms.drop_last(), i);
    }
}

/// A body of one form has the code of that form.
pub proof fn lemma_code_of_single(form: Value)
    ensures
        code_of_all(seq![form]) == code_of(form),
{
    assert(seq![form].drop_last() =~= Seq::<Value>::empty());
    assert(code_of_all(Seq::<Value>::empty()) == Ok::<Seq<Op>, Failure>(Seq::empty()));
}

/// The height of the stack above its base after `ops`, when it was `depth`
/// before, as far as the instructions alone tell: a `Literal` adds a value,
/// a `FixnumAdd` takes two and gives one. `None` where an addition would
/// find fewer than two values above the base.
pub open spec fn depth_after(ops: Seq<Op>, depth: nat) -> Option<nat>
    decreases ops.len(),
{
    if ops.len() == 0 {
        Some(depth)
    } else {
        match depth_after(ops.drop_last(), depth) {
            None => None,
            Some(d) => match ops.last() {
                Op::Literal(_) => Some(d + 1),
                Op::FixnumAdd => if d >= 2 {
                    Some((d - 1) as nat)
                } else {
                    None
                },
            },
        }
    }
}

/// Where the depth is undefined after the first `i + 1` instructions, it is
/// undefined after all of them.
pub proof fn lemma_depth_undefined(ops: Seq<Op>, depth: nat, i: int)
    requires
        0 <= i < ops.len(),
        depth_after(ops.take(i + 1), depth) is None,
    ensures
        depth_after(ops, depth) is None,
    decreases ops.len(),
{
    if i == ops.len() - 1 {
        assert(ops.take(i + 1) =~= ops);
    } else {
        assert(ops.drop_last().take(i + 1) =~= ops.take(i + 1));
        lemma_depth_undefined(ops.drop_last(), depth, i);
    }
}

/// The depth after two runs of instructions is the depth after the second,
/// begun where the first ended.
pub proof fn lemma_depth_concat(front: Seq<Op>, back: Seq<Op>, depth: nat)
    ensures
        depth_after(front + back, depth) == match depth_after(front, depth) {
            None => None,
            Some(d) => depth_after(back, d),
        },
    decreases back.len(),
{
    if back.len() > 0 {
        assert((front + back).drop_last() =~= front + back.drop_last());
        lemma_depth_concat(front, back.drop_last(), depth);
    }
}

/// `n` additions take `n` values from a stack that holds more than `n`.
pub proof fn lemma_depth_adds(n: nat, depth: nat)
    requires
        depth > n,
    ensures
        depth_after(adds(n), depth) == Some((depth - n) as nat),
    decreases n,
{
    if n > 0 {
        assert(adds(n).drop_last() =~= adds((n - 1) as nat));
        lemma_depth_adds((n - 1) as nat, depth);
    }
}

/// The code of a form leaves exactly one value more on the stack than it
/// found, however many forms are nested in it.
pub proof fn lemma_code_depth(form: Value, depth: nat)
    requires
        code_of(form) is Ok,
    ensures
        depth_after(code_of(form)->Ok_0, depth) == Some(depth + 1),
    decreases form, 0nat,
{
    match form {
        Value::List(items) => {
            let args = items.subrange(1, items.len() as int);
            let code = code_of_all(args)->Ok_0;
            lemma_code_all_depth(args, depth);
            lemma_depth_concat(code, adds((args.len() - 1) as nat), depth);
            lemma_depth_adds((args.len() - 1) as nat, depth + args.len());
        },
        _ => {
            let code = seq![Op::Literal(form)];
            assert(depth_after(code.drop_last(), depth) == Some(depth));
        },
    }
}

/// The code of a run of forms leaves one value more for each of them.
pub proof fn lemma_code_all_depth(forms: Seq<Value>, depth: nat)
    requires
        code_of_all(forms) is Ok,
    ensures
        depth_after(code_of_all(forms)->Ok_0, depth) == Some(depth + forms.len()),
    decreases forms, 1nat,
{
    if forms.len() > 0 {
        lemma_code_all_depth(forms.drop_last(), depth);
        lemma_code_depth(forms.last(), (depth + forms.len() - 1) as nat);
        lemma_depth_concat(
            code_of_all(forms.drop_last())->Ok_0,
            code_of(forms.last())->Ok_0,
            depth,
        );
    }
}

/// An ordered, immutable sequence of instructions.
#[derive(Debug)]
pub struct CompiledFunction {
    body: Vec<Instruction>,
}

impl View for CompiledFunction {
    type V = Seq<Op>;

    closed spec fn view(&self) -> Seq<Op> {
        ops_of(self.body@)
    }
}

impl core::ops::Deref for CompiledFunction {
    type Target = [Instruction];

    fn deref(&self) -> (body: &[Instruction])
        ensures
            ops_of(body@) == self@,
    {
        self.body.as_slice()
    }
}

/// Whether the list is a declaration.
pub fn special_toplevel_form_p(list: &[Object]) -> (r: bool)
    ensures
        r == is_special(values_of(list@)),
{
    proof {
        lemma_values_of(list@);
    }
    if list.len() > 0 {
        match &list[0] {
            Object::Symbol(sym) => sym.id == DEFUN_ID,
            _ => false,
        }
    } else {
        false
    }
}

/// Compiles a declaration: to nothing, as yet.
pub fn compile_special_toplevel_form(list: &List) -> (r: Result<()>)
    ensures
        r is Ok,
{
    Ok(())
}

/// Compiles a form read at top level.
pub fn compile_toplevel_form(form: Object) -> (r: Result<Option<CompiledFunction>>)
    ensures
        match r {
            Ok(Some(function)) => toplevel_code(form@) == Ok::<Option<Seq<Op>>, Failure>(Some(function@))
                && function.yields_one(),
            Ok(None) => toplevel_code(form@) == Ok::<Option<Seq<Op>>, Failure>(None),
            Err(e) => toplevel_code(form@) == Err::<Option<Seq<Op>>, Failure>(e@),
        },
{
    match &form {
        Object::List(list) => {
            if special_toplevel_form_p(list) {
                match compile_special_toplevel_form(list) {
                    Ok(_) => Ok(None),
                    Err(e) => Err(e),
                }
            } else {
                let mut body: Vec<Object> = Vec::new();
                body.push(form);
                proof {
                    lemma_values_of(body@);
                    assert(values_of(body@) =~= seq![form@]);
                    lemma_code_of_single(form@);
                }
                match compile_function(body.as_slice()) {
                    Ok(function) => Ok(Some(function)),
                    Err(e) => Err(e),
                }
            }
        },
        _ => Err(type_error()),
    }
}

/// Compiles the forms of a function body, one after another.
pub fn compile_function(body: &[Object]) -> (r: Result<CompiledFunction>)
    ensures
        match r {
            Ok(function) => code_of_all(values_of(body@)) == Ok::<Seq<Op>, Failure>(function@)
                && depth_after(function@, 0) == Some(body@.len()),
            Err(e) => code_of_all(values_of(body@)) == Err::<Seq<Op>, Failure>(e@),
        },
{
    let mut func = CompiledFunction::empty();
    let ghost forms = values_of(body@);
    proof {
        lemma_values_of(body@);
    }
    let mut i: usize = 0;
    while i < body.len()
        invariant
            i <= body.len(),
            forms == values_of(body@),
            forms.len() == body.len(),
            forall|j: int| 0 <= j < body.len() ==> (#[trigger] forms[j]) == body@[j]@,
            code_of_all(forms.take(i as int)) == Ok::<Seq<Op>, Failure>(func@),
        decreases body.len() - i,
    {
        match func.compile(body[i].shallow_copy()) {
            Ok(_) => {
                proof {
                    assert(forms.take(i + 1).drop_last() =~= forms.take(i as int));
                }
            },
            Err(e) => {
                proof {
                    lemma_code_of_all_refused(forms, i as int);
                }
                return Err(e);
            },
        }
        i += 1;
    }
    proof {
        assert(forms.take(i as int) =~= forms);
        lemma_code_all_depth(forms, 0);
    }
    Ok(func)
}

impl CompiledFunction {
    /// The function leaves exactly one value more on the stack than it
    /// found, and never reaches below where it began.
    pub open spec fn yields_one(&self) -> bool {
        depth_after(self@, 0) == Some(1nat)
    }

    /// How many values the function leaves on the stack beyond those that
    /// it found, or `None` where one of its additions would reach below
    /// where the function began. `invoke` asks for `Some(1)`.
    pub fn stack_effect(&self) -> (r: Option<usize>)
        ensures
            match r {
                Some(depth) => depth_after(self@, 0) == Some(depth as nat),
                None => depth_after(self@, 0) is None,
            },
    {
        let ghost ops = self@;
        let mut depth: usize = 0;
        let mut i: usize = 0;
        while i < self.body.len()
            invariant
                i <= self.body.len(),
                ops == ops_of(self.body@),
                depth <= i,
                depth_after(ops.take(i as int), 0) == Some(depth as nat),
            decreases self.body.len() - i,
        {
            proof {
                assert(ops.take(i + 1).drop_last() =~= ops.take(i as int));
            }
            match &self.body[i] {
                Instruction::Literal(_) => {
                    depth += 1;
                },
                Instruction::FixnumAdd => {
                    if depth >= 2 {
                        depth -= 1;
                    } else {
                        proof {
                            lemma_depth_undefined(ops, 0, i as int);
                        }
                        return None;
                    }
                },
            }
            i += 1;
        }
        proof {
            assert(ops.take(i as int) =~= ops);
        }
        Some(depth)
    }

    /// A function without instructions.
    fn empty() -> (function: CompiledFunction)
        ensures
            function@ == Seq::<Op>::empty(),
    {
        let function = CompiledFunction { body: Vec::new() };
        function
    }

    /// Adds an instruction at the end.
    fn append_op(&mut self, op: Instruction)
        ensures
            final(self)@ == old(self)@.push(op@),
    {
        self.body.push(op);
    }

    /// Appends the code of `form`; leaves the function as it was where the
    /// form is refused.
    fn compile(&mut self, form: Object) -> (r: Result<()>)
        ensures
            match r {
                Ok(_) => code_of(form@) is Ok && final(self)@ == old(self)@ + code_of(form@)->Ok_0,
                Err(e) => code_of(form@) == Err::<Seq<Op>, Failure>(e@) && final(self)@ == old(self)@,
            },
        decreases form@, 1nat,
    {
        match form {
            Object::List(list) => self.compile_form(list),
            _ => {
                self.append_op(Instruction::Literal(form));
                Ok(())
            },
        }
    }

    /// Appends the code of a call, which the list's head selects.
    fn compile_form(&mut self, form: List) -> (r: Result<()>)
        ensures
            match r {
                Ok(_) => code_of(Value::List(form@)) is Ok && final(self)@ == old(self)@ + code_of(
                    Value::List(form@),
                )->Ok_0,
                Err(e) => code_of(Value::List(form@)) == Err::<Seq<Op>, Failure>(e@) && final(self)@
                    == old(self)@,
            },
        decreases Value::List(form@), 0nat,
    {
        proof {
            lemma_values_of(form.vec@);
        }
        let head: Option<Symbol> = if form.vec.len() > 0 {
            match &form.vec[0] {
                Object::Symbol(sym) => Some(*sym),
                _ => None,
            }
        } else {
            None
        };
        match head {
            Some(sym) => {
                if sym.id == ADD_ID && form.vec.len() > 1 {
                    let args = slice_subrange(form.vec.as_slice(), 1, form.vec.len());
                    proof {
                        lemma_values_of(args@);
                        assert(values_of(args@) =~= form@.subrange(1, form@.len() as int));
                    }
                    self.compile_addition(args)
                } else {
                    Err(Error::UnknownCompilerForm(form))
                }
            },
            None => Err(type_error()),
        }
    }

    /// Appends the code of each argument, then the additions that fold
    /// their values into one.
    fn compile_addition(&mut self, args: &[Object]) -> (r: Result<()>)
        requires
            args.len() >= 1,
        ensures
            match r {
                Ok(_) => code_of_all(values_of(args@)) is Ok && final(self)@ == old(self)@ + code_of_all(
                    values_of(args@),
                )->Ok_0 + adds((args.len() - 1) as nat),
                Err(e) => code_of_all(values_of(args@)) == Err::<Seq<Op>, Failure>(e@) && final(self)@
                    == old(self)@,
            },
        decreases values_of(args@), 2nat,
    {
        let start = self.body.len();
        let ghost forms = values_of(args@);
        proof {
            lemma_values_of(args@);
        }
        let mut i: usize = 0;
        while i < args.len()
            invariant
                i <= args.len(),
                forms == values_of(args@),
                forms.len() == args.len(),
                forall|j: int| 0 <= j < args.len() ==> (#[trigger] forms[j]) == args@[j]@,
                code_of_all(forms.take(i as int)) is Ok,
                self@ == old(self)@ + code_of_all(forms.take(i as int))->Ok_0,
                start == old(self)@.len(),
            decreases args.len() - i,
        {
            match self.compile(args[i].shallow_copy()) {
                Ok(_) => {
                    proof {
                        assert(forms.take(i + 1).drop_last() =~= forms.take(i as int));
                        assert(self@ =~= old(self)@ + code_of_all(forms.take(i + 1))->Ok_0);
                    }
                },
                Err(e) => {
                    let ghost longer = self.body@;
                    self.body.truncate(start);
                    proof {
                        lemma_code_of_all_refused(forms, i as int);
                        assert(ops_of(longer.subrange(0, start as int)) =~= ops_of(longer).subrange(
                            0,
                            start as int,
                        ));
                    }
                    return Err(e);
                },
            }
            i += 1;
        }
        proof {
            assert(forms.take(i as int) =~= forms);
        }
        let ghost code = self@;
        let mut k: usize = 1;
        while k < args.len()
            invariant
                1 <= k <= args.len(),
                self@ == code + adds((k - 1) as nat),
            decreases args.len() - k,
        {
            self.append_op(Instruction::FixnumAdd);
            k += 1;
        }
        Ok(())
    }
}

} // verus!
