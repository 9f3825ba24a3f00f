//! Tables of things that are found by number, and queues, each modelled by a sequence of views.

use vstd::prelude::*;

verus! {

/// Things in the order in which they came.
#[derive(Debug)]
pub struct Queue<T> {
    pub items: Vec<T>,
}

impl<T: View> View for Queue<T> {
    type V = Seq<T::V>;

    open spec fn view(&self) -> Seq<T::V> {
        Seq::new(self.items@.len(), |i: int| self.items@[i]@)
    }
}

impl<T: View> Queue<T> {
    pub fn new() -> (result: Self)
        ensures
            result@ == Seq::<T::V>::empty(),
    {
        let queue = Queue { items: Vec::new() };
        assert(queue@ =~= Seq::<T::V>::empty());
        queue
    }

    pub fn len(&self) -> (result: usize)
        ensures
            result == self@.len(),
    {
        self.items.len()
    }

    pub fn push(&mut self, item: T)
        ensures
            final(self)@ == old(self)@.push(item@),
    {
        self.items.push(item);
        assert(self@ =~= old(self)@.push(item@));
    }

    pub fn get(&self, at: usize) -> (result: &T)
        requires
            at < self@.len(),
        ensures
            result@ == self@[at as int],
    {
        &self.items[at]
    }

    pub fn remove(&mut self, at: usize) -> (result: T)
        requires
            at < old(self)@.len(),
        ensures
            result@ == old(self)@[at as int],
            final(self)@ == old(self)@.remove(at as int),
    {
        let item = self.items.remove(at);
        assert(self@ =~= old(self)@.remove(at as int));
        item
    }

    pub fn insert(&mut self, at: usize, item: T)
        requires
            at <= old(self)@.len(),
        ensures
            final(self)@ == old(self)@.insert(at as int, item@),
    {
        self.items.insert(at, item);
        assert(self@ =~= old(self)@.insert(at as int, item@));
    }

    pub fn clear(&mut self)
        ensures
            final(self)@ == Seq::<T::V>::empty(),
    {
        self.items.clear();
        assert(self@ =~= Seq::<T::V>::empty());
    }
}

/// A thing and its number.
#[derive(Debug)]
pub struct Entry<T> {
    pub id: u64,
    pub item: T,
}

impl<T: View> View for Entry<T> {
    type V = (u64, T::V);

    open spec fn view(&self) -> (u64, T::V) {
        (self.id, self.item@)
    }
}

/// Things that are found by number.
#[derive(Debug)]
pub struct Table<T> {
    pub entries: Queue<Entry<T>>,
}

impl<T: View> View for Table<T> {
    type V = Seq<(u64, T::V)>;

    open spec fn view(&self) -> Seq<(u64, T::V)> {
        self.entries@
    }
}

/// The position of a number, or the length where it does not occur.
pub open spec fn position<V>(entries: Seq<(u64, V)>, id: u64) -> int
    decreases entries.len(),
{
    if entries.len() == 0 || entries[0].0 == id {
        0
    } else {
        1 + position(entries.skip(1), id)
    }
}

/// Whether a number occurs.
pub open spec fn holds<V>(entries: Seq<(u64, V)>, id: u64) -> bool {
    position(entries, id) < entries.len()
}

/// What stands under a number.
pub open spec fn found<V>(entries: Seq<(u64, V)>, id: u64) -> V {
    entries[position(entries, id)].1
}

/// The entries without the one under a number.
pub open spec fn without_id<V>(entries: Seq<(u64, V)>, id: u64) -> Seq<(u64, V)> {
    if holds(entries, id) {
        entries.remove(position(entries, id))
    } else {
        entries
    }
}

/// No number occurs twice.
pub open spec fn distinct<V>(entries: Seq<(u64, V)>) -> bool {
    forall|i: int, j: int|
        0 <= i < j < entries.len() ==> (#[trigger] entries[i]).0 != (#[trigger] entries[j]).0
}

/// Where `position` points and what lies before it.
pub proof fn lemma_position<V>(entries: Seq<(u64, V)>, id: u64)
    ensures
        0 <= position(entries, id) <= entries.len(),
        position(entries, id) < entries.len() ==> entries[position(entries, id)].0 == id,
        forall|i: int| 0 <= i < position(entries, id) ==> (#[trigger] entries[i]).0 != id,
    decreases entries.len(),
{
    if entries.len() > 0 && entries[0].0 != id {
        lemma_position(entries.skip(1), id);
        assert forall|i: int| 0 <= i < position(entries, id) implies (#[trigger] entries[i]).0
            != id by {
            if i > 0 {
                assert(entries.skip(1)[i - 1] == entries[i]);
            }
        }
    }
}

/// The position described by `position` is the only one with its properties.
pub proof fn lemma_position_is<V>(entries: Seq<(u64, V)>, id: u64, at: int)
    requires
        0 <= at <= entries.len(),
        at < entries.len() ==> entries[at].0 == id,
        forall|i: int| 0 <= i < at ==> (#[trigger] entries[i]).0 != id,
    ensures
        position(entries, id) == at,
{
    lemma_position(entries, id);
    let there = position(entries, id);
    if there < at {
        assert(entries[there].0 != id);
    } else if at < there {
        assert(entries[at].0 != id);
    }
}

/// In a table without repetitions, a number is found where it stands.
pub proof fn lemma_position_at<V>(entries: Seq<(u64, V)>, at: int)
    requires
        distinct(entries),
        0 <= at < entries.len(),
    ensures
        position(entries, entries[at].0) == at,
        without_id(entries, entries[at].0) == entries.remove(at),
{
    assert forall|i: int| 0 <= i < at implies (#[trigger] entries[i]).0 != entries[at].0 by {}
    lemma_position_is(entries, entries[at].0, at);
}

/// What is taken out of a table without repetitions is gone, and nothing else is.
pub proof fn lemma_without_id<V>(entries: Seq<(u64, V)>, id: u64, other: u64)
    requires
        distinct(entries),
    ensures
        distinct(without_id(entries, id)),
        !holds(without_id(entries, id), id),
        other != id ==> holds(without_id(entries, id), other) == holds(entries, other),
        other != id && holds(entries, other) ==> found(without_id(entries, id), other) == found(
            entries,
            other,
        ),
{
    lemma_position(entries, id);
    lemma_position(entries, other);
    let left = without_id(entries, id);
    let at = position(entries, id);
    if holds(entries, id) {
        assert forall|i: int| 0 <= i < left.len() implies (#[trigger] left[i]).0 != id by {
            if i < at {
                assert(left[i] == entries[i]);
            } else {
                assert(left[i] == entries[i + 1]);
                assert(entries[at].0 != entries[i + 1].0);
            }
        }
        lemma_position_is(left, id, left.len() as int);
        assert forall|i: int, j: int| 0 <= i < j < left.len() implies (#[trigger] left[i]).0 != (
        #[trigger] left[j]).0 by {
            let from = if i < at {
                i
            } else {
                i + 1
            };
            let to = if j < at {
                j
            } else {
                j + 1
            };
            assert(entries[from].0 != entries[to].0);
        }
        if other != id {
            let there = position(entries, other);
            if there < entries.len() {
                let moved = if there < at {
                    there
                } else {
                    there - 1
                };
                assert(left[moved] == entries[there]);
                assert forall|i: int| 0 <= i < moved implies (#[trigger] left[i]).0 != other by {
                    if i < at {
                        assert(left[i] == entries[i]);
                    } else {
                        assert(left[i] == entries[i + 1]);
                    }
                }
                lemma_position_is(left, other, moved);
            } else {
                assert forall|i: int| 0 <= i < left.len() implies (#[trigger] left[i]).0
                    != other by {
                    if i < at {
                        assert(left[i] == entries[i]);
                    } else {
                        assert(left[i] == entries[i + 1]);
                    }
                }
                lemma_position_is(left, other, left.len() as int);
            }
        }
    } else {
        lemma_position_is(entries, id, entries.len() as int);
    }
}

/// What is added under a new number is found, and nothing else changes.
pub proof fn lemma_added<V>(entries: Seq<(u64, V)>, id: u64, item: V, other: u64)
    requires
        distinct(entries),
        !holds(entries, id),
    ensures
        distinct(entries.push((id, item))),
        holds(entries.push((id, item)), id),
        found(entries.push((id, item)), id) == item,
        other != id ==> holds(entries.push((id, item)), other) == holds(entries, other),
        other != id && holds(entries, other) ==> found(entries.push((id, item)), other) == found(
            entries,
            other,
        ),
{
    lemma_position(entries, id);
    lemma_position(entries, other);
    let more = entries.push((id, item));
    lemma_position_is(more, id, entries.len() as int);
    assert forall|i: int, j: int| 0 <= i < j < more.len() implies (#[trigger] more[i]).0 != (
    #[trigger] more[j]).0 by {
        if j < entries.len() {
            assert(entries[i].0 != entries[j].0);
        } else {
            assert(entries[i].0 != id);
        }
    }
    if other != id {
        let there = position(entries, other);
        if there < entries.len() {
            assert forall|i: int| 0 <= i < there implies (#[trigger] more[i]).0 != other by {
                assert(more[i] == entries[i]);
            }
            lemma_position_is(more, other, there);
        } else {
            assert forall|i: int| 0 <= i < more.len() implies (#[trigger] more[i]).0 != other by {
                if i < entries.len() {
                    assert(more[i] == entries[i]);
                }
            }
            lemma_position_is(more, other, more.len() as int);
        }
    }
}

impl<T: View> Table<T> {
    pub fn new() -> (result: Self)
        ensures
            result@ == Seq::<(u64, T::V)>::empty(),
    {
        Table { entries: Queue::new() }
    }

    pub fn len(&self) -> (result: usize)
        ensures
            result == self@.len(),
    {
        self.entries.len()
    }

    fn find(&self, id: u64) -> (result: usize)
        ensures
            result == position(self@, id),
            result <= self@.len(),
    {
        let mut at: usize = 0;
        while at < self.entries.len()
            invariant
                at <= self@.len(),
                forall|i: int| 0 <= i < at ==> (#[trigger] self@[i]).0 != id,
            decreases self@.len() - at,
        {
            if self.entries.get(at).id == id {
                proof {
                    lemma_position_is(self@, id, at as int);
                }
                return at;
            }
            at += 1;
        }
        proof {
            lemma_position_is(self@, id, at as int);
        }
        at
    }

    pub fn contains(&self, id: u64) -> (result: bool)
        ensures
            result == holds(self@, id),
    {
        self.find(id) < self.entries.len()
    }

    pub fn get(&self, id: u64) -> (result: Option<&T>)
        ensures
            match result {
                Some(item) => holds(self@, id) && item@ == found(self@, id),
                None => !holds(self@, id),
            },
    {
        let at = self.find(id);
        if at < self.entries.len() {
            Some(&self.entries.get(at).item)
        } else {
            None
        }
    }

    /// The number at a position.
    pub fn id_at(&self, at: usize) -> (result: u64)
        requires
            at < self@.len(),
        ensures
            result == self@[at as int].0,
    {
        self.entries.get(at).id
    }

    /// The thing at a position.
    pub fn item_at(&self, at: usize) -> (result: &T)
        requires
            at < self@.len(),
        ensures
            result@ == self@[at as int].1,
    {
        &self.entries.get(at).item
    }

    pub fn remove(&mut self, id: u64) -> (result: Option<T>)
        ensures
            final(self)@ == without_id(old(self)@, id),
            match result {
                Some(item) => holds(old(self)@, id) && item@ == found(old(self)@, id),
                None => !holds(old(self)@, id),
            },
    {
        let at = self.find(id);
        if at < self.entries.len() {
            let entry = self.entries.remove(at);
            Some(entry.item)
        } else {
            None
        }
    }

    pub fn insert(&mut self, id: u64, item: T)
        ensures
            final(self)@ == old(self)@.push((id, item@)),
    {
        self.entries.push(Entry { id, item });
    }

    pub fn clear(&mut self)
        ensures
            final(self)@ == Seq::<(u64, T::V)>::empty(),
    {
        self.entries.clear();
    }
}

} // verus!
