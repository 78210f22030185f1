//! Interned names.
//!
//! An [`Interner`] is an append-only table of distinct names. A [`Symbol`] is
//! a handle into such a table: the position at which its name was stored.
//! Two names interned in the same table give the same symbol exactly when
//! they have the same content, so symbols are compared by handle alone.

use vstd::prelude::*;
use vstd::string::*;

verus! {

/// Handle of the name `defun`, present in every table.
pub const DEFUN_ID: usize = 0;

/// Handle of the name `add`, present in every table.
pub const ADD_ID: usize = 1;

/// The characters of the name `defun`.
pub open spec fn defun_name() -> Seq<char> {
    seq!['d', 'e', 'f', 'u', 'n']
}

/// The characters of the name `add`.
pub open spec fn add_name() -> Seq<char> {
    seq!['a', 'd', 'd']
}

/// No name occurs at two positions.
pub open spec fn distinct(names: Seq<Seq<char>>) -> bool {
    forall|i: int, j: int| 0 <= i < j < names.len() ==> names[i] != names[j]
}

/// A table as every `Interner` holds it: distinct names, the operator names
/// at their fixed handles.
pub open spec fn well_formed(names: Seq<Seq<char>>) -> bool {
    &&& distinct(names)
    &&& names.len() >= 2
    &&& names[DEFUN_ID as int] == defun_name()
    &&& names[ADD_ID as int] == add_name()
}

/// The table after `name` has been interned in `names`.
pub open spec fn interned(names: Seq<Seq<char>>, name: Seq<char>) -> Seq<Seq<char>> {
    if names.contains(name) {
        names
    } else {
        names.push(name)
    }
}

/// A position at which `names` holds `name`; the only one where `names` is
/// distinct and holds it.
pub open spec fn position(names: Seq<Seq<char>>, name: Seq<char>) -> int {
    choose|i: int| 0 <= i < names.len() && names[i] == name
}

/// The handle that interning `name` in `names` gives.
pub open spec fn handle(names: Seq<Seq<char>>, name: Seq<char>) -> int {
    position(interned(names, name), name)
}

/// In a distinct table a name that stands at `i` has position `i`.
pub proof fn lemma_position(names: Seq<Seq<char>>, name: Seq<char>, i: int)
    requires
        distinct(names),
        0 <= i < names.len(),
        names[i] == name,
    ensures
        position(names, name) == i,
{
}

/// `after` holds what `before` holds, at the same handles.
pub open spec fn extends(before: Seq<Seq<char>>, after: Seq<Seq<char>>) -> bool {
    &&& before.len() <= after.len()
    &&& forall|i: int| 0 <= i < before.len() ==> after[i] == before[i]
}

/// Interning keeps a table well formed and only ever appends to it, and the
/// handle that it gives is that of the name.
pub proof fn lemma_interned(names: Seq<Seq<char>>, name: Seq<char>)
    requires
        well_formed(names),
    ensures
        well_formed(interned(names, name)),
        extends(names, interned(names, name)),
        0 <= handle(names, name) < interned(names, name).len(),
        interned(names, name)[handle(names, name)] == name,
{
    let after = interned(names, name);
    if names.contains(name) {
        let i = choose|i: int| 0 <= i < names.len() && names[i] == name;
    } else {
        lemma_position(after, name, names.len() as int);
    }
}

/// Interning identity: a name that was interned once gets the same handle
/// whenever it is interned again, however much was interned between, and
/// the table is not changed by it.
pub proof fn lemma_intern_same(names: Seq<Seq<char>>, name: Seq<char>, later: Seq<Seq<char>>)
    requires
        well_formed(names),
        well_formed(later),
        extends(interned(names, name), later),
    ensures
        handle(later, name) == handle(names, name),
        interned(later, name) == later,
{
    lemma_interned(names, name);
}

/// Interning identity: names of different content get different handles,
/// in whichever order they are interned and however much is interned
/// between.
pub proof fn lemma_intern_differ(
    names: Seq<Seq<char>>,
    first: Seq<char>,
    later: Seq<Seq<char>>,
    second: Seq<char>,
)
    requires
        well_formed(names),
        well_formed(later),
        extends(interned(names, first), later),
        first != second,
    ensures
        handle(names, first) != handle(later, second),
{
    lemma_interned(names, first);
    lemma_interned(later, second);
}

/// The operator names have their fixed handles in every table, and
/// interning them changes nothing.
pub proof fn lemma_operator_handles(names: Seq<Seq<char>>)
    requires
        well_formed(names),
    ensures
        handle(names, defun_name()) == DEFUN_ID,
        handle(names, add_name()) == ADD_ID,
        interned(names, defun_name()) == names,
        interned(names, add_name()) == names,
{
}

/// A handle to an interned name.
#[derive(Debug, Copy, Clone, PartialEq, Eq, Structural, Hash)]
pub struct Symbol {
    pub id: usize,
}

/// An append-only table of distinct names.
#[derive(Debug)]
pub struct Interner {
    names: Vec<String>,
}

impl View for Interner {
    type V = Seq<Seq<char>>;

    closed spec fn view(&self) -> Seq<Seq<char>> {
        Seq::new(self.names@.len(), |i: int| self.names@[i]@)
    }
}

impl Interner {
    /// The table's invariant.
    pub open spec fn wf(&self) -> bool {
        well_formed(self@)
    }

    /// A table that holds the operator names and nothing else.
    pub fn new() -> (table: Interner)
        ensures
            table.wf(),
            table@ == seq![defun_name(), add_name()],
    {
        let mut names: Vec<String> = Vec::new();
        names.push("defun".to_owned());
        names.push("add".to_owned());
        let table = Interner { names };
        proof {
            reveal_strlit("defun");
            reveal_strlit("add");
            assert("defun"@ =~= defun_name());
            assert("add"@ =~= add_name());
        }
        table
    }

    /// How many names the table holds.
    pub fn len(&self) -> (n: usize)
        ensures
            n == self@.len(),
    {
        self.names.len()
    }

    /// The name behind a handle, where the table holds it.
    pub fn name(&self, sym: Symbol) -> (r: Option<&str>)
        ensures
            match r {
                Some(name) => sym.id < self@.len() && name@ == self@[sym.id as int],
                None => sym.id >= self@.len(),
            },
    {
        if sym.id < self.names.len() {
            Some(self.names[sym.id].as_str())
        } else {
            None
        }
    }
}

/// An owned copy of a name, as the table stores it.
pub fn finalize_symbol(s: &str) -> (name: String)
    ensures
        name@ == s@,
{
    s.to_owned()
}

/// Looks a name up without changing the table.
pub fn try_get_sym(table: &Interner, s: &str) -> (r: Option<Symbol>)
    requires
        table.wf(),
    ensures
        match r {
            Some(sym) => table@.contains(s@) && sym.id == position(table@, s@),
            None => !table@.contains(s@),
        },
{
    let key = finalize_symbol(s);
    let mut i: usize = 0;
    while i < table.names.len()
        invariant
            table.wf(),
            i <= table.names.len(),
            key@ == s@,
            forall|j: int| 0 <= j < i ==> table@[j] != s@,
        decreases table.names.len() - i,
    {
        if table.names[i] == key {
            proof {
                lemma_position(table@, s@, i as int);
            }
            return Some(Symbol { id: i });
        }
        i += 1;
    }
    None
}

/// Stores a name that the table does not hold yet and gives its handle.
pub fn insert_sym(table: &mut Interner, s: &str) -> (sym: Symbol)
    requires
        old(table).wf(),
        !old(table)@.contains(s@),
    ensures
        final(table).wf(),
        final(table)@ == old(table)@.push(s@),
        sym.id == old(table)@.len(),
{
    let id = table.names.len();
    table.names.push(finalize_symbol(s));
    proof {
        assert(table@ =~= old(table)@.push(s@));
    }
    Symbol { id }
}

impl Symbol {
    /// The symbol of `s` in `table`: the one it already has there, or a new
    /// one, stored at the table's end.
    pub fn intern(table: &mut Interner, s: &str) -> (sym: Symbol)
        requires
            old(table).wf(),
        ensures
            final(table).wf(),
            final(table)@ == interned(old(table)@, s@),
            sym.id == handle(old(table)@, s@),
    {
        match try_get_sym(table, s) {
            Some(sym) => sym,
            None => {
                let sym = insert_sym(table, s);
                proof {
                    lemma_position(table@, s@, sym.id as int);
                }
                sym
            },
        }
    }
}

} // verus!
