//! Lists: finite ordered sequences of values.

use vstd::prelude::*;
use vstd::std_specs::convert::FromSpecImpl;
use vstd::string::*;
use crate::symbol::Interner;
use crate::top_type::{
    copy_objects, joined_text, lemma_joined_text_none, lemma_values_of, text_of, values_of, Object,
    Value,
};

verus! {

/// An ordered sequence of values, owned by whoever holds the list.
#[derive(Debug, PartialEq)]
pub struct List {
    pub vec: Vec<Object>,
}

impl View for List {
    type V = Seq<Value>;

    open spec fn view(&self) -> Seq<Value> {
        values_of(self.vec@)
    }
}

impl From<Vec<Object>> for List {
    fn from(vec: Vec<Object>) -> (r: List) {
        List { vec }
    }
}

impl FromSpecImpl<Vec<Object>> for List {
    open spec fn obeys_from_spec() -> bool {
        true
    }

    open spec fn from_spec(vec: Vec<Object>) -> List {
        List { vec }
    }
}

impl core::ops::Deref for List {
    type Target = [Object];

    fn deref(&self) -> (r: &[Object])
        ensures
            r@ == self.vec@,
    {
        self.vec.as_slice()
    }
}

impl Clone for List {
    /// A list of its own with the same content.
    fn clone(&self) -> (r: List)
        ensures
            r@ == self@,
    {
        List { vec: copy_objects(self.vec.as_slice()) }
    }
}

impl List {
    /// The text that shows the list: what it holds, a space between each
    /// two, in round brackets.
    pub fn to_text(&self, table: &Interner) -> (r: Option<String>)
        ensures
            match r {
                Some(text) => text_of(Value::List(self@), table@) == Some(text@),
                None => text_of(Value::List(self@), table@) is None,
            },
        decreases *self,
    {
        proof {
            reveal_strlit("(");
            reveal_strlit(" ");
            reveal_strlit(")");
            lemma_values_of(self.vec@);
        }
        let ghost values = self@;
        let mut text = String::from_str("(");
        let mut i: usize = 0;
        while i < self.vec.len()
            invariant
                i <= self.vec.len(),
                values == self@,
                values.len() == self.vec.len(),
                forall|j: int| 0 <= j < values.len() ==> (#[trigger] values[j]) == self.vec@[j]@,
                "("@ == seq!['('],
                " "@ == seq![' '],
                joined_text(values.take(i as int), table@) is Some,
                text@ == seq!['('] + joined_text(values.take(i as int), table@)->Some_0,
            decreases self.vec.len() - i,
        {
            proof {
                assert(values.take(i + 1).drop_last() =~= values.take(i as int));
            }
            match self.vec[i].to_text(table) {
                Some(item) => {
                    let ghost front = joined_text(values.take(i as int), table@)->Some_0;
                    if i > 0 {
                        text.append(" ");
                        proof {
                            assert(text@ + item@ =~= seq!['('] + (front + seq![' '] + item@));
                        }
                    } else {
                        proof {
                            assert(front =~= Seq::<char>::empty());
                            assert(text@ + item@ =~= seq!['('] + item@);
                        }
                    }
                    text.append(item.as_str());
                },
                None => {
                    proof {
                        lemma_joined_text_none(values, table@, i as int);
                    }
                    return None;
                },
            }
            i += 1;
        }
        proof {
            assert(values.take(i as int) =~= values);
        }
        text.append(")");
        Some(text)
    }
}

} // verus!
