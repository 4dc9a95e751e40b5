//! The cursor table: for each registered stream, the identifier of the last
//! entry that was delivered.

use vstd::prelude::*;
use crate::decode::{EntryView, StreamView};
use crate::entry_id::EntryId;
use crate::error::Error;

verus! {

/// The mathematical model of a cursor table: names and cursors in the order
/// of registration.
pub type Cursors = Seq<(Seq<char>, EntryId)>;

/// No name occurs twice.
pub open spec fn distinct(t: Cursors) -> bool {
    forall|i: int, j: int| 0 <= i < j < t.len() ==> (#[trigger] t[i]).0 != (#[trigger] t[j]).0
}

/// `name` has a cursor in `t`.
pub open spec fn registered(t: Cursors, name: Seq<char>) -> bool {
    exists|i: int| 0 <= i < t.len() && (#[trigger] t[i]).0 == name
}

/// Where `name` stands in `t`, if it is registered.
pub open spec fn position(t: Cursors, name: Seq<char>) -> int {
    choose|i: int| 0 <= i < t.len() && (#[trigger] t[i]).0 == name
}

/// The cursor of `name`, if it is registered.
pub open spec fn cursor_of(t: Cursors, name: Seq<char>) -> Option<EntryId> {
    if registered(t, name) {
        Some(t[position(t, name)].1)
    } else {
        None
    }
}

/// The table after `name` is registered at `id`: a registered name keeps its
/// place and gets the new cursor, a new name goes to the end.
pub open spec fn spec_register(t: Cursors, name: Seq<char>, id: EntryId) -> Cursors {
    if registered(t, name) {
        t.update(position(t, name), (name, id))
    } else {
        t.push((name, id))
    }
}

/// The table after an entry `id` of `name` was delivered: the cursor moves to
/// `id` if `id` is later, and stays otherwise.
pub open spec fn spec_advance(t: Cursors, name: Seq<char>, id: EntryId) -> Cursors {
    if registered(t, name) && t[position(t, name)].1.spec_lt(id) {
        t.update(position(t, name), (name, id))
    } else {
        t
    }
}

/// The latest identifier among `entries`; `None` where there are none.
pub open spec fn max_id(entries: Seq<EntryView>) -> Option<EntryId>
    decreases entries.len(),
{
    if entries.len() == 0 {
        None
    } else {
        match max_id(entries.drop_last()) {
            None => Some(entries.last().id),
            Some(m) => Some(m.spec_max(entries.last().id)),
        }
    }
}

/// The table after the entries of one stream were delivered.
pub open spec fn spec_advance_stream(t: Cursors, stream: StreamView) -> Cursors {
    match max_id(stream.entries) {
        None => t,
        Some(id) => spec_advance(t, stream.name, id),
    }
}

/// The table after the streams of one reply were delivered.
pub open spec fn spec_advance_all(t: Cursors, streams: Seq<StreamView>) -> Cursors
    decreases streams.len(),
{
    if streams.len() == 0 {
        t
    } else {
        spec_advance_stream(spec_advance_all(t, streams.drop_last()), streams.last())
    }
}

/// In a table without repeated names, a name stands where it is found.
pub proof fn lemma_position(t: Cursors, i: int)
    requires
        distinct(t),
        0 <= i < t.len(),
    ensures
        registered(t, t[i].0),
        position(t, t[i].0) == i,
        cursor_of(t, t[i].0) == Some(t[i].1),
{
    let p = position(t, t[i].0);
    if p < i {
        assert(t[p].0 != t[i].0);
    } else if i < p {
        assert(t[i].0 != t[p].0);
    }
}

/// Delivering an entry changes no name and moves no cursor back.
pub proof fn lemma_advance_shape(t: Cursors, name: Seq<char>, id: EntryId)
    requires
        distinct(t),
    ensures
        ({
            let u = spec_advance(t, name, id);
            &&& u.len() == t.len()
            &&& distinct(u)
            &&& forall|k: int| 0 <= k < t.len() ==> (#[trigger] u[k]).0 == t[k].0
            &&& forall|k: int| 0 <= k < t.len() ==> t[k].1.spec_le((#[trigger] u[k]).1)
            &&& forall|k: int|
                0 <= k < t.len() && t[k].0 == name ==> (#[trigger] u[k]).1 == t[k].1.spec_max(id)
            &&& forall|k: int| 0 <= k < t.len() && t[k].0 != name ==> (#[trigger] u[k]).1 == t[k].1
        }),
{
    let u = spec_advance(t, name, id);
    if registered(t, name) {
        let p = position(t, name);
        lemma_position(t, p);
        assert forall|k: int| 0 <= k < t.len() && t[k].0 == name implies (#[trigger] u[k]).1
            == t[k].1.spec_max(id) by {
            lemma_position(t, k);
        }
    }
    assert forall|i: int, j: int| 0 <= i < j < u.len() implies (#[trigger] u[i]).0 != (
    #[trigger] u[j]).0 by {
        assert(u[i].0 == t[i].0);
        assert(u[j].0 == t[j].0);
    }
}

/// Delivering the streams of a reply changes no name and moves no cursor
/// back.
pub proof fn lemma_advance_all_shape(t: Cursors, streams: Seq<StreamView>)
    requires
        distinct(t),
    ensures
        ({
            let u = spec_advance_all(t, streams);
            &&& u.len() == t.len()
            &&& distinct(u)
            &&& forall|k: int| 0 <= k < t.len() ==> (#[trigger] u[k]).0 == t[k].0
            &&& forall|k: int| 0 <= k < t.len() ==> t[k].1.spec_le((#[trigger] u[k]).1)
        }),
    decreases streams.len(),
{
    if streams.len() > 0 {
        let mid = spec_advance_all(t, streams.drop_last());
        lemma_advance_all_shape(t, streams.drop_last());
        match max_id(streams.last().entries) {
            Some(id) => {
                lemma_advance_shape(mid, streams.last().name, id);
            },
            None => {},
        }
        let u = spec_advance_all(t, streams);
        assert forall|k: int| 0 <= k < t.len() implies t[k].1.spec_le((#[trigger] u[k]).1) by {
            assert(t[k].1.spec_le(mid[k].1));
            assert(mid[k].1.spec_le(u[k].1));
        }
    }
}

/// Tables with the same names in the same places have the same streams
/// registered.
pub proof fn lemma_same_names(t: Cursors, u: Cursors, name: Seq<char>)
    requires
        u.len() == t.len(),
        forall|k: int| 0 <= k < t.len() ==> (#[trigger] u[k]).0 == t[k].0,
    ensures
        registered(u, name) == registered(t, name),
{
    if registered(t, name) {
        let p = position(t, name);
        assert(u[p].0 == name);
    }
    if registered(u, name) {
        let p = position(u, name);
        assert(t[p].0 == name);
    }
}

/// The cursor table of one consumer.
pub struct CursorTable {
    cursors: Vec<(String, EntryId)>,
}

impl View for CursorTable {
    type V = Cursors;

    closed spec fn view(&self) -> Cursors {
        self.cursors@.map_values(|c: (String, EntryId)| (c.0@, c.1))
    }
}

impl CursorTable {
    /// No stream stands in the table twice.
    #[verifier::type_invariant]
    pub open spec fn names_distinct(self) -> bool {
        distinct(self@)
    }

    /// A table without registered streams.
    pub fn new() -> (t: CursorTable)
        ensures
            t@ == Seq::<(Seq<char>, EntryId)>::empty(),
    {
        let t = CursorTable { cursors: Vec::new() };
        assert(t@ =~= Seq::empty());
        t
    }

    /// Where `name` stands in the table.
    fn find(&self, name: &String) -> (r: Option<usize>)
        ensures
            distinct(self@),
            match r {
                Some(i) => registered(self@, name@) && i == position(self@, name@) && i
                    < self.cursors@.len(),
                None => !registered(self@, name@),
            },
    {
        proof {
            use_type_invariant(self);
        }
        let mut i: usize = 0;
        while i < self.cursors.len()
            invariant
                0 <= i <= self.cursors@.len(),
                distinct(self@),
                forall|j: int| 0 <= j < i ==> (#[trigger] self@[j]).0 != name@,
            decreases self.cursors@.len() - i,
        {
            if self.cursors[i].0 == *name {
                proof {
                    assert(self@[i as int].0 == name@);
                    lemma_position(self@, i as int);
                }
                return Some(i);
            }
            i = i + 1;
        }
        None
    }

    /// How many streams are registered.
    pub fn len(&self) -> (n: usize)
        ensures
            n == self@.len(),
    {
        self.cursors.len()
    }

    /// The cursor of `name`, if it is registered.
    pub fn cursor(&self, name: &str) -> (r: Option<EntryId>)
        ensures
            r == cursor_of(self@, name@),
    {
        match self.find(&name.to_owned()) {
            Some(i) => Some(self.cursors[i].1),
            None => None,
        }
    }

    /// Registers `name` at `id`, or moves its cursor to `id` if it is
    /// registered. Returns the cursor that `name` had before.
    pub fn register(&mut self, name: &str, id: EntryId) -> (previous: Option<EntryId>)
        ensures
            previous == cursor_of(old(self)@, name@),
            final(self)@ == spec_register(old(self)@, name@, id),
            distinct(final(self)@),
    {
        let owned = name.to_owned();
        let found = self.find(&owned);
        let ghost before = self@;
        let mut cursors: Vec<(String, EntryId)> = Vec::new();
        std::mem::swap(&mut cursors, &mut self.cursors);
        let previous = match found {
            Some(i) => {
                let previous = cursors[i].1;
                cursors.set(i, (owned, id));
                Some(previous)
            },
            None => {
                cursors.push((owned, id));
                None
            },
        };
        proof {
            let after = cursors@.map_values(|c: (String, EntryId)| (c.0@, c.1));
            assert(after =~= spec_register(before, name@, id));
            assert forall|i: int, j: int| 0 <= i < j < after.len() implies (#[trigger] after[i]).0
                != (#[trigger] after[j]).0 by {
                if i < before.len() {
                    assert(after[i].0 == before[i].0);
                }
                if j < before.len() {
                    assert(after[j].0 == before[j].0);
                }
            }
        }
        self.cursors = cursors;
        previous
    }

    /// Records that an entry `id` of `name` was delivered: the cursor moves
    /// to `id` if `id` is later than the cursor, and stays otherwise.
    pub fn advance(&mut self, name: &str, id: EntryId) -> (r: Result<(), Error>)
        ensures
            distinct(final(self)@),
            match r {
                Ok(()) => registered(old(self)@, name@) && final(self)@ == spec_advance(
                    old(self)@,
                    name@,
                    id,
                ),
                Err(Error::UnregisteredStream(unknown)) => !registered(old(self)@, name@)
                    && unknown@ == name@ && final(self)@ == old(self)@,
                Err(_) => false,
            },
    {
        let owned = name.to_owned();
        match self.find(&owned) {
            Some(i) => {
                if self.cursors[i].1.lt(&id) {
                    let ghost before = self@;
                    let mut cursors: Vec<(String, EntryId)> = Vec::new();
                    std::mem::swap(&mut cursors, &mut self.cursors);
                    cursors.set(i, (owned, id));
                    proof {
                        let after = cursors@.map_values(|c: (String, EntryId)| (c.0@, c.1));
                        assert(after =~= spec_advance(before, name@, id));
                        assert forall|a: int, b: int| 0 <= a < b < after.len() implies (
                        #[trigger] after[a]).0 != (#[trigger] after[b]).0 by {
                            assert(after[a].0 == before[a].0);
                            assert(after[b].0 == before[b].0);
                        }
                    }
                    self.cursors = cursors;
                }
                Ok(())
            },
            None => Err(Error::UnregisteredStream(owned)),
        }
    }

    /// The registered streams with their cursors, in the order of
    /// registration, as they stand now.
    pub fn snapshot(&self) -> (pairs: Vec<(String, EntryId)>)
        ensures
            pairs@.map_values(|c: (String, EntryId)| (c.0@, c.1)) == self@,
            distinct(self@),
    {
        proof {
            use_type_invariant(self);
        }
        let mut pairs: Vec<(String, EntryId)> = Vec::new();
        let mut i: usize = 0;
        while i < self.cursors.len()
            invariant
                0 <= i <= self.cursors@.len(),
                pairs@.len() == i,
                forall|j: int|
                    0 <= j < i ==> (#[trigger] pairs@[j]).0@ == self.cursors@[j].0@ && pairs@[j].1
                        == self.cursors@[j].1,
            decreases self.cursors@.len() - i,
        {
            pairs.push((self.cursors[i].0.clone(), self.cursors[i].1));
            i = i + 1;
        }
        assert(pairs@.map_values(|c: (String, EntryId)| (c.0@, c.1)) =~= self@);
        pairs
    }
}

} // verus!
