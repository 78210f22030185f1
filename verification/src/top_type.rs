//! Values: the closed union of symbol, list, number and nil.

use vstd::prelude::*;
use vstd::std_specs::convert::{FromSpecImpl, TryFromSpecImpl};
use crate::err::TypeError;
use vstd::string::*;
use crate::fixnum::{hex_digits, unsigned, Fixnum};
use crate::list::List;
use crate::symbol::{extends, Interner, Symbol};

verus! {

/// A value, as the reader makes it and the engine returns it.
#[derive(Debug, PartialEq)]
pub enum Object {
    Symbol(Symbol),
    List(List),
    Fixnum(Fixnum),
    Nil,
}

/// What a value is, apart from how it is stored.
pub ghost enum Value {
    /// A symbol, by its handle.
    Symbol(nat),
    /// A list, by what it holds.
    List(Seq<Value>),
    /// A number.
    Fixnum(int),
    Nil,
}

/// The content of one object.
pub open spec fn value_of(object: Object) -> Value
    decreases object,
{
    match object {
        Object::Symbol(sym) => Value::Symbol(sym.id as nat),
        Object::List(list) => Value::List(values_of(list.vec@)),
        Object::Fixnum(n) => Value::Fixnum(n@),
        Object::Nil => Value::Nil,
    }
}

/// The contents of a run of objects, in order.
pub open spec fn values_of(objects: Seq<Object>) -> Seq<Value>
    decreases objects,
{
    if objects.len() == 0 {
        Seq::empty()
    } else {
        values_of(objects.drop_last()).push(value_of(objects.last()))
    }
}

/// `values_of` maps `value_of` over the run.
pub proof fn lemma_values_of(objects: Seq<Object>)
    ensures
        values_of(objects).len() == objects.len(),
        forall|i: int| 0 <= i < objects.len() ==> (#[trigger] values_of(objects)[i]) == value_of(objects[i]),
    decreases objects.len(),
{
    if objects.len() > 0 {
        lemma_values_of(objects.drop_last());
    }
}

/// The text of a value: a symbol shows its name in the table, a number its
/// 32 bits in lowercase hexadecimal after `0x`, nil the word `nil`, and a
/// list the texts of what it holds, a space between each two, in round
/// brackets. A value that holds a symbol unknown to the table has no text.
pub open spec fn text_of(value: Value, names: Seq<Seq<char>>) -> Option<Seq<char>>
    decreases value, 0nat,
{
    match value {
        Value::Symbol(id) => if id < names.len() {
            Some(names[id as int])
        } else {
            None
        },
        Value::List(items) => match joined_text(items, names) {
            Some(inner) => Some(seq!['('] + inner + seq![')']),
            None => None,
        },
        Value::Fixnum(n) => Some(seq!['0', 'x'] + hex_digits(unsigned(n))),
        Value::Nil => Some(seq!['n', 'i', 'l']),
    }
}

/// The texts of the values, a space between each two.
pub open spec fn joined_text(values: Seq<Value>, names: Seq<Seq<char>>) -> Option<Seq<char>>
    decreases values, 1nat,
{
    if values.len() == 0 {
        Some(Seq::empty())
    } else {
        match (joined_text(values.drop_last(), names), text_of(values.last(), names)) {
            (Some(front), Some(last)) => Some(
                if values.len() == 1 {
                    last
                } else {
                    front + seq![' '] + last
                },
            ),
            _ => None,
        }
    }
}

/// Values of which the first `i + 1` have no joined text have none
/// together.
pub proof fn lemma_joined_text_none(values: Seq<Value>, names: Seq<Seq<char>>, i: int)
    requires
        0 <= i < values.len(),
        joined_text(values.take(i + 1), names) is None,
    ensures
        joined_text(values, names) is None,
    decreases values.len(),
{
    if i == values.len() - 1 {
        assert(values.take(i + 1) =~= values);
    } else {
        assert(values.drop_last().take(i + 1) =~= values.take(i + 1));
        lemma_joined_text_none(values.drop_last(), names, i);
    }
}

/// Values have a joined text exactly when each of them has a text.
pub proof fn lemma_joined_text_some(values: Seq<Value>, names: Seq<Seq<char>>)
    ensures
        joined_text(values, names) is Some <==> forall|i: int|
            0 <= i < values.len() ==> (#[trigger] text_of(values[i], names)) is Some,
    decreases values.len(),
{
    if values.len() > 0 {
        let front = values.drop_last();
        lemma_joined_text_some(front, names);
        assert forall|i: int| 0 <= i < front.len() implies values[i] == #[trigger] front[i] by {}
        if joined_text(values, names) is Some {
            assert forall|i: int| 0 <= i < values.len() implies (#[trigger] text_of(
                values[i],
                names,
            )) is Some by {
                if i < front.len() {
                    assert(values[i] == front[i]);
                }
            }
        } else if joined_text(front, names) is None {
            let i = choose|i: int|
                0 <= i < front.len() && !((#[trigger] text_of(front[i], names)) is Some);
        } else {
            assert(!(text_of(values[values.len() - 1], names) is Some));
        }
    }
}

/// A value that has a text keeps it when the table grows.
pub proof fn lemma_text_extends(value: Value, before: Seq<Seq<char>>, after: Seq<Seq<char>>)
    requires
        extends(before, after),
        text_of(value, before) is Some,
    ensures
        text_of(value, after) == text_of(value, before),
    decreases value, 0nat,
{
    if let Value::List(items) = value {
        lemma_joined_text_extends(items, before, after);
    }
}

/// Values that have a joined text keep it when the table grows.
pub proof fn lemma_joined_text_extends(
    values: Seq<Value>,
    before: Seq<Seq<char>>,
    after: Seq<Seq<char>>,
)
    requires
        extends(before, after),
        joined_text(values, before) is Some,
    ensures
        joined_text(values, after) == joined_text(values, before),
    decreases values, 1nat,
{
    if values.len() > 0 {
        lemma_joined_text_extends(values.drop_last(), before, after);
        lemma_text_extends(values.last(), before, after);
    }
}

impl View for Object {
    type V = Value;

    open spec fn view(&self) -> Value {
        value_of(*self)
    }
}

/// Copies of the objects of a slice, in order.
pub fn copy_objects(objects: &[Object]) -> (copies: Vec<Object>)
    ensures
        values_of(copies@) == values_of(objects@),
    decreases objects@,
{
    let mut copies: Vec<Object> = Vec::new();
    let mut i: usize = 0;
    while i < objects.len()
        invariant
            i <= objects.len(),
            copies.len() == i,
            forall|j: int| 0 <= j < i ==> value_of(copies@[j]) == value_of(objects@[j]),
        decreases objects.len() - i,
    {
        let copy = objects[i].shallow_copy();
        copies.push(copy);
        i += 1;
    }
    proof {
        lemma_values_of(copies@);
        lemma_values_of(objects@);
    }
    copies
}

impl Object {
    /// An independent value with the same content. A list is copied with
    /// all that it holds, so the copy shares nothing with `self`.
    pub fn shallow_copy(&self) -> (copy: Object)
        ensures
            copy@ == self@,
        decreases *self,
    {
        match self {
            Object::Symbol(sym) => Object::Symbol(*sym),
            Object::List(list) => {
                Object::List(List { vec: copy_objects(list.vec.as_slice()) })
            },
            Object::Fixnum(n) => Object::Fixnum(*n),
            Object::Nil => Object::Nil,
        }
    }

    /// The text that shows the value, where the table knows its symbols.
    pub fn to_text(&self, table: &Interner) -> (r: Option<String>)
        ensures
            match r {
                Some(text) => text_of(self@, table@) == Some(text@),
                None => text_of(self@, table@) is None,
            },
        decreases *self,
    {
        match self {
            Object::Symbol(sym) => match table.name(*sym) {
                Some(name) => Some(String::from_str(name)),
                None => None,
            },
            Object::List(list) => list.to_text(table),
            Object::Fixnum(n) => {
                proof {
                    reveal_strlit("0x");
                }
                let mut text = String::from_str("0x");
                text.append(n.to_lower_hex().as_str());
                Some(text)
            },
            Object::Nil => {
                proof {
                    reveal_strlit("nil");
                }
                Some(String::from_str("nil"))
            },
        }
    }
}

impl Clone for Object {
    fn clone(&self) -> (r: Object)
        ensures
            r@ == self@,
    {
        self.shallow_copy()
    }
}

impl From<Symbol> for Object {
    fn from(it: Symbol) -> (r: Object) {
        Object::Symbol(it)
    }
}

impl FromSpecImpl<Symbol> for Object {
    open spec fn obeys_from_spec() -> bool {
        true
    }

    open spec fn from_spec(it: Symbol) -> Object {
        Object::Symbol(it)
    }
}

impl From<Fixnum> for Object {
    fn from(it: Fixnum) -> (r: Object) {
        Object::Fixnum(it)
    }
}

impl FromSpecImpl<Fixnum> for Object {
    open spec fn obeys_from_spec() -> bool {
        true
    }

    open spec fn from_spec(it: Fixnum) -> Object {
        Object::Fixnum(it)
    }
}

impl From<List> for Object {
    fn from(it: List) -> (r: Object) {
        Object::List(it)
    }
}

impl FromSpecImpl<List> for Object {
    open spec fn obeys_from_spec() -> bool {
        true
    }

    open spec fn from_spec(it: List) -> Object {
        Object::List(it)
    }
}

impl TryFrom<Object> for Fixnum {
    type Error = TypeError;

    fn try_from(obj: Object) -> (r: Result<Fixnum, TypeError>) {
        if let Object::Fixnum(it) = obj {
            Ok(it)
        } else {
            Err(TypeError {})
        }
    }
}

impl TryFromSpecImpl<Object> for Fixnum {
    open spec fn obeys_try_from_spec() -> bool {
        true
    }

    open spec fn try_from_spec(obj: Object) -> Result<Fixnum, TypeError> {
        match obj {
            Object::Fixnum(it) => Ok(it),
            _ => Err(TypeError {}),
        }
    }
}

impl TryFrom<Object> for List {
    type Error = TypeError;

    fn try_from(obj: Object) -> (r: Result<List, TypeError>) {
        if let Object::List(it) = obj {
            Ok(it)
        } else {
            Err(TypeError {})
        }
    }
}

impl TryFromSpecImpl<Object> for List {
    open spec fn obeys_try_from_spec() -> bool {
        true
    }

    open spec fn try_from_spec(obj: Object) -> Result<List, TypeError> {
        match obj {
            Object::List(it) => Ok(it),
            _ => Err(TypeError {}),
        }
    }
}

impl TryFrom<Object> for Symbol {
    type Error = TypeError;

    fn try_from(obj: Object) -> (r: Result<Symbol, TypeError>) {
        if let Object::Symbol(it) = obj {
            Ok(it)
        } else {
            Err(TypeError {})
        }
    }
}

impl TryFromSpecImpl<Object> for Symbol {
    open spec fn obeys_try_from_spec() -> bool {
        true
    }

    open spec fn try_from_spec(obj: Object) -> Result<Symbol, TypeError> {
        match obj {
            Object::Symbol(it) => Ok(it),
            _ => Err(TypeError {}),
        }
    }
}

} // verus!
