//! The history-based memory model.
//!
//! Every variable is an append-only *history* of all values it has held.
//! Histories are shared objects: several names, and several memories (a
//! caller's and a sub-program's), may refer to the same history, and a write
//! through one is visible through all.  Sharing is realised with an arena:
//! the [`Arena`] owns every history, and a [`Memory`] binds names to arena
//! handles, so aliasing two names means binding them to one handle.

use vstd::prelude::*;

use crate::variable_type::{RuntimeError, Val, VariableType};

verus! {

/// An append-only sequence of values; index 0 is the oldest value and the
/// last index is the current one.
#[derive(Debug)]
pub struct History {
    items: Vec<VariableType>,
}

impl View for History {
    type V = Seq<Val>;

    closed spec fn view(&self) -> Seq<Val> {
        self.items@.map(|i: int, v: VariableType| v@)
    }
}

impl History {
    /// An empty history.
    pub fn new() -> (r: History)
        ensures
            r@ == Seq::<Val>::empty(),
    {
        let r = History { items: Vec::new() };
        proof {
            assert(r@ =~= Seq::<Val>::empty());
        }
        r
    }

    /// A fresh one-element history holding the variable's first value.
    pub fn allocate(_name: String, val: VariableType) -> (r: History)
        ensures
            r@ =~= seq![val@],
    {
        let mut items = Vec::new();
        items.push(val);
        let r = History { items };
        proof {
            assert(r@ =~= seq![val@]);
        }
        r
    }

    /// Appends a value; nothing already recorded changes.
    pub fn add(&mut self, val: VariableType)
        ensures
            final(self)@ =~= old(self)@.push(val@),
    {
        self.items.push(val);
    }

    /// How many values the history has held.
    pub fn len(&self) -> (n: usize)
        ensures
            n == self@.len(),
    {
        self.items.len()
    }

    /// The value recorded at `index`, counted from the oldest.
    pub fn get_past(&self, index: usize) -> (r: VariableType)
        requires
            index < self@.len(),
        ensures
            r@ == self@[index as int],
    {
        self.items[index].duplicate()
    }
}

/// The owner of every history in one execution.  A handle returned by
/// `alloc` stays valid forever: histories are never dropped or replaced,
/// only appended to.
pub struct Arena {
    histories: Vec<History>,
}

impl View for Arena {
    type V = Seq<Seq<Val>>;

    closed spec fn view(&self) -> Seq<Seq<Val>> {
        self.histories@.map(|i: int, h: History| h@)
    }
}

impl Arena {
    /// An arena with no histories.
    pub fn new() -> (r: Arena)
        ensures
            r@ == Seq::<Seq<Val>>::empty(),
    {
        let r = Arena { histories: Vec::new() };
        proof {
            assert(r@ =~= Seq::<Seq<Val>>::empty());
        }
        r
    }

    /// How many histories have been allocated.
    pub fn len(&self) -> (n: usize)
        ensures
            n == self@.len(),
    {
        self.histories.len()
    }

    /// Takes ownership of a history and hands back its handle.
    pub fn allocate(&mut self, h: History) -> (handle: usize)
        ensures
            final(self)@ =~= old(self)@.push(h@),
            handle == old(self)@.len(),
    {
        let handle = self.histories.len();
        self.histories.push(h);
        proof {
            assert(final(self)@ =~= old(self)@.push(h@));
        }
        handle
    }

    /// The length of the history behind `handle`.
    pub fn history_len(&self, handle: usize) -> (n: usize)
        requires
            handle < self@.len(),
        ensures
            n == self@[handle as int].len(),
    {
        self.histories[handle].len()
    }

    /// The value at `index` of the history behind `handle`.
    pub fn history_at(&self, handle: usize, index: usize) -> (r: VariableType)
        requires
            handle < self@.len(),
            index < self@[handle as int].len(),
        ensures
            r@ == self@[handle as int][index as int],
    {
        self.histories[handle].get_past(index)
    }

    /// Appends a value to the history behind `handle`; every other history
    /// is untouched.
    pub fn append_at(&mut self, handle: usize, val: VariableType)
        requires
            handle < old(self)@.len(),
        ensures
            final(self)@ =~= old(self)@.update(handle as int, old(self)@[handle as int].push(val@)),
    {
        let hist = &mut self.histories[handle];
        hist.add(val);
        proof {
            assert(final(self)@ =~= old(self)@.update(
                handle as int,
                old(self)@[handle as int].push(val@),
            ));
        }
    }
}

/// The name→history bindings visible to one running program, modelled as a
/// map from variable name to arena handle.
pub struct Memory {
    cells: Vec<(String, usize)>,
}

/// The map a binding list denotes: a later binding of a name shadows an
/// earlier one.
pub closed spec fn assoc_view(s: Seq<(String, usize)>) -> Map<Seq<char>, int>
    decreases s.len(),
{
    if s.len() == 0 {
        Map::empty()
    } else {
        assoc_view(s.drop_last()).insert(s.last().0@, s.last().1 as int)
    }
}

impl View for Memory {
    type V = Map<Seq<char>, int>;

    closed spec fn view(&self) -> Map<Seq<char>, int> {
        assoc_view(self.cells@)
    }
}

/// Bindings beyond index `i` that never mention `name` do not affect what
/// `name` resolves to.
proof fn lemma_assoc_prefix(s: Seq<(String, usize)>, i: int, name: Seq<char>)
    requires
        0 <= i <= s.len(),
        forall|j: int| i <= j < s.len() ==> #[trigger] s[j].0@ != name,
    ensures
        assoc_view(s).contains_key(name) == assoc_view(s.take(i)).contains_key(name),
        assoc_view(s).contains_key(name) ==> assoc_view(s)[name] == assoc_view(s.take(i))[name],
    decreases s.len() - i,
{
    if i == s.len() {
        assert(s.take(i) =~= s);
    } else {
        assert(s.take(s.len() as int - 1) =~= s.drop_last());
        lemma_assoc_prefix(s.drop_last(), i, name);
        assert(s.drop_last().take(i) =~= s.take(i));
    }
}

impl Memory {
    /// A memory with no bindings.
    pub fn new() -> (r: Memory)
        ensures
            r@ == Map::<Seq<char>, int>::empty(),
    {
        Memory { cells: Vec::new() }
    }

    /// The handle `name` is bound to, or `None` before its first
    /// assignment.
    pub fn get_history(&self, name: &String) -> (r: Option<usize>)
        ensures
            match r {
                Some(h) => self@.contains_key(name@) && h as int == self@[name@],
                None => !self@.contains_key(name@),
            },
    {
        let n = self.cells.len();
        let mut i = n;
        while i > 0
            invariant
                i <= n,
                n == self.cells@.len(),
                forall|j: int| i <= j < n ==> #[trigger] self.cells@[j].0@ != name@,
            decreases i,
        {
            i = i - 1;
            let entry = &self.cells[i];
            if entry.0 == *name {
                proof {
                    lemma_assoc_take_lookup(self.cells@, i as int);
                    lemma_assoc_prefix(self.cells@, i + 1, name@);
                    assert(self.cells@.take(i + 1).drop_last() =~= self.cells@.take(i as int));
                    assert(self.cells@.take(i + 1).last() == self.cells@[i as int]);
                }
                return Some(entry.1);
            }
        }
        proof {
            lemma_assoc_prefix(self.cells@, 0, name@);
            assert(self.cells@.take(0) =~= Seq::<(String, usize)>::empty());
        }
        None
    }

    /// Records an assignment: appends to the history `name` is bound to,
    /// or, on the first assignment, allocates a fresh one-element history
    /// and binds `name` to it.
    pub fn update_history(&mut self, arena: &mut Arena, name: String, value: VariableType)
        ensures
            old(self)@.contains_key(name@) && 0 <= old(self)@[name@] < old(arena)@.len()
                ==> final(self)@ == old(self)@ && final(arena)@ =~= old(arena)@.update(
                    old(self)@[name@],
                    old(arena)@[old(self)@[name@]].push(value@),
                ),
            !(old(self)@.contains_key(name@) && 0 <= old(self)@[name@] < old(arena)@.len())
                ==> final(self)@ == old(self)@.insert(name@, old(arena)@.len() as int)
                    && final(arena)@ =~= old(arena)@.push(seq![value@]),
    {
        let found = self.get_history(&name);
        if let Some(h) = found {
            if h < arena.len() {
                arena.append_at(h, value);
                return;
            }
        }
        let h = arena.allocate(History::allocate(name.clone(), value));
        self.insert_history(name, h);
    }

    /// Binds `name` directly to an existing shared history.
    pub fn insert_history(&mut self, name: String, handle: usize)
        ensures
            final(self)@ == old(self)@.insert(name@, handle as int),
    {
        let ghost pre = self.cells@;
        self.cells.push((name, handle));
        proof {
            assert(self.cells@.drop_last() =~= pre);
        }
    }

    /// Aliases `destination` to `source`'s history: afterwards the two
    /// names resolve to the same handle, so an assignment through either is
    /// visible through the other.
    pub fn copy(&mut self, source: &String, destination: String) -> (r: Result<(), RuntimeError>)
        ensures
            match r {
                Ok(()) => old(self)@.contains_key(source@) && final(self)@ == old(self)@.insert(
                    destination@,
                    old(self)@[source@],
                ),
                Err(e) => !old(self)@.contains_key(source@) && final(self)@ == old(self)@ && e@
                    == crate::variable_type::ErrV::Undeclared(source@),
            },
    {
        let found = self.get_history(source);
        match found {
            Some(h) => {
                self.insert_history(destination, h);
                Ok(())
            }
            None => Err(RuntimeError::UndeclaredVariable(source.clone())),
        }
    }
}

/// Looking a sequence's own last element up in its map.
proof fn lemma_assoc_take_lookup(s: Seq<(String, usize)>, i: int)
    requires
        0 <= i < s.len(),
    ensures
        assoc_view(s.take(i + 1)).contains_key(s[i].0@),
        assoc_view(s.take(i + 1))[s[i].0@] == s[i].1 as int,
{
    assert(s.take(i + 1).last() == s[i]);
}

} // verus!
