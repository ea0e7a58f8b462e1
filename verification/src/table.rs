//! Maps as vectors of entries: one that remembers the order in which its keys
//! came in, and one that keeps its keys sorted; and the keys of a map of std.

use std::collections::HashMap;
use vstd::prelude::*;
use crate::text::{self, Rank};

verus! {

/// A type that can be the key of a [`Table`].
pub trait Key: Sized {
    /// What identifies the key.
    type Id;

    /// The identity of the key.
    spec fn id(&self) -> Self::Id;

    /// Whether two keys have the same identity.
    fn same(&self, other: &Self) -> (r: bool)
        ensures
            r == (self.id() == other.id()),
    ;
}

impl Key for u64 {
    type Id = u64;

    open spec fn id(&self) -> u64 {
        *self
    }

    fn same(&self, other: &Self) -> (r: bool) {
        *self == *other
    }
}

impl Key for String {
    type Id = Seq<char>;

    open spec fn id(&self) -> Seq<char> {
        self@
    }

    fn same(&self, other: &Self) -> (r: bool) {
        *self == *other
    }
}

/// The keys of a map, each once, in no particular order.
pub fn keys_of<V>(map: &HashMap<u64, V>) -> (r: Vec<u64>)
    ensures
        r@.no_duplicates(),
        r@.len() == map@.dom().len(),
        forall|id: u64| map@.contains_key(id) <==> #[trigger] r@.contains(id),
{
    let mut out: Vec<u64> = Vec::new();
    for key in it: map.keys()
        invariant
            out@ == it.seq().unref().take(it.index()),
            it.seq().unref().to_set() == map@.dom(),
            it.index() == it.seq().len() ==> out@ =~= it.seq().unref(),
    {
        assert(it.seq().unref().take(it.index() + 1) =~= out@.push(*key));
        out.push(*key);
    }
    assert(out@.to_set() == map@.dom());
    assert forall|id: u64| map@.contains_key(id) <==> #[trigger] out@.contains(id) by {
        assert(out@.to_set().contains(id) == out@.contains(id));
    }
    out
}

/// A map from keys to values, kept in the order in which the keys were added.
pub struct Table<K: Key, V> {
    entries: Vec<(K, V)>,
}

/// Where `id` stands among `entries`.
pub open spec fn position<K: Key, V>(entries: Seq<(K, V)>, id: K::Id) -> int {
    choose|i: int| 0 <= i < entries.len() && (#[trigger] entries[i]).0.id() == id
}

/// Whether `id` stands among `entries`.
pub open spec fn present<K: Key, V>(entries: Seq<(K, V)>, id: K::Id) -> bool {
    exists|i: int| 0 <= i < entries.len() && (#[trigger] entries[i]).0.id() == id
}

/// Whether no two entries have the same identity.
pub open spec fn distinct<K: Key, V>(entries: Seq<(K, V)>) -> bool {
    forall|i: int, j: int|
        0 <= i < j < entries.len() ==> (#[trigger] entries[i]).0.id() != (#[trigger] entries[j]).0.id()
}

/// The map that a sequence of entries stands for.
pub open spec fn map_of<K: Key, V>(entries: Seq<(K, V)>) -> Map<K::Id, V> {
    Map::new(|id: K::Id| present(entries, id), |id: K::Id| entries[position(entries, id)].1)
}

/// The entries without that of a key, in the same order.
pub open spec fn without<K: Key, V>(entries: Seq<(K, V)>, id: K::Id) -> Seq<(K, V)> {
    if present(entries, id) {
        entries.remove(position(entries, id))
    } else {
        entries
    }
}

/// With distinct keys, each entry is found under its own identity.
pub proof fn lemma_position<K: Key, V>(entries: Seq<(K, V)>, i: int)
    requires
        distinct(entries),
        0 <= i < entries.len(),
    ensures
        position(entries, entries[i].0.id()) == i,
        map_of(entries).contains_key(entries[i].0.id()),
        map_of(entries)[entries[i].0.id()] == entries[i].1,
{
    let id = entries[i].0.id();
    assert(present(entries, id));
    let p = position(entries, id);
    assert(0 <= p < entries.len() && entries[p].0.id() == id);
}

/// A key that is in the map stands at its position.
pub proof fn lemma_present<K: Key, V>(entries: Seq<(K, V)>, id: K::Id)
    requires
        map_of(entries).contains_key(id),
    ensures
        0 <= position(entries, id) < entries.len(),
        entries[position(entries, id)].0.id() == id,
{
}

impl<K: Key, V> Table<K, V> {
    /// The entries in order.
    pub closed spec fn seq(&self) -> Seq<(K, V)> {
        self.entries@
    }

    /// The table as a map.
    pub open spec fn map(&self) -> Map<K::Id, V> {
        map_of(self.seq())
    }

    /// No key occurs twice.
    pub open spec fn wf(&self) -> bool {
        distinct(self.seq())
    }

    /// An empty table.
    pub fn new() -> (r: Self)
        ensures
            r.wf(),
            r.seq() == Seq::<(K, V)>::empty(),
            r.map() == Map::<K::Id, V>::empty(),
    {
        let r: Table<K, V> = Table { entries: Vec::new() };
        assert(r.map() =~= Map::<K::Id, V>::empty());
        r
    }

    /// The number of entries.
    pub fn len(&self) -> (r: usize)
        ensures
            r == self.seq().len(),
    {
        self.entries.len()
    }

    /// The index of a key's entry.
    pub fn find(&self, key: &K) -> (r: Option<usize>)
        requires
            self.wf(),
        ensures
            match r {
                Some(i) => {
                    &&& i < self.seq().len()
                    &&& self.seq()[i as int].0.id() == key.id()
                    &&& self.map().contains_key(key.id())
                    &&& self.map()[key.id()] == self.seq()[i as int].1
                },
                None => !self.map().contains_key(key.id()),
            },
    {
        let mut i: usize = 0;
        while i < self.entries.len()
            invariant
                self.wf(),
                i <= self.seq().len(),
                forall|k: int| 0 <= k < i ==> (#[trigger] self.seq()[k]).0.id() != key.id(),
            decreases self.seq().len() - i,
        {
            if self.entries[i].0.same(key) {
                proof {
                    lemma_position(self.seq(), i as int);
                }
                return Some(i);
            }
            i = i + 1;
        }
        None
    }

    /// The key at an index.
    pub fn key_at(&self, i: usize) -> (r: &K)
        requires
            i < self.seq().len(),
        ensures
            *r == self.seq()[i as int].0,
    {
        &self.entries[i].0
    }

    /// The value at an index.
    pub fn value_at(&self, i: usize) -> (r: &V)
        requires
            i < self.seq().len(),
        ensures
            *r == self.seq()[i as int].1,
    {
        &self.entries[i].1
    }

    /// Adds an entry whose key is not in the table yet.
    pub fn push(&mut self, key: K, value: V)
        requires
            old(self).wf(),
            !old(self).map().contains_key(key.id()),
        ensures
            final(self).wf(),
            final(self).seq() == old(self).seq().push((key, value)),
            final(self).map() == old(self).map().insert(key.id(), value),
    {
        let ghost before = self.seq();
        self.entries.push((key, value));
        proof {
            let after = before.push((key, value));
            assert(self.seq() == after);
            assert forall|i: int, j: int| 0 <= i < j < after.len() implies (#[trigger] after[i]).0.id()
                != (#[trigger] after[j]).0.id() by {
                if j == before.len() {
                    assert(before[i] == after[i]);
                    if before[i].0.id() == key.id() {
                        assert(present(before, key.id()));
                    }
                } else {
                    assert(before[i] == after[i] && before[j] == after[j]);
                }
            }
            lemma_push_map(before, key, value);
        }
    }

    /// Takes the entry at an index out; the others keep their order.
    pub fn remove_at(&mut self, i: usize) -> (r: (K, V))
        requires
            old(self).wf(),
            i < old(self).seq().len(),
        ensures
            final(self).wf(),
            r == old(self).seq()[i as int],
            final(self).seq() == old(self).seq().remove(i as int),
            final(self).map() == old(self).map().remove(r.0.id()),
            old(self).map().contains_key(r.0.id()),
            old(self).map()[r.0.id()] == r.1,
    {
        let ghost before = self.seq();
        let r: (K, V) = self.entries.remove(i);
        proof {
            lemma_remove_map(before, i as int);
            lemma_position(before, i as int);
        }
        r
    }

    /// Replaces the value at an index.
    pub fn set_at(&mut self, i: usize, value: V)
        requires
            old(self).wf(),
            i < old(self).seq().len(),
        ensures
            final(self).wf(),
            final(self).seq() == old(self).seq().update(
                i as int,
                (old(self).seq()[i as int].0, value),
            ),
            final(self).map() == old(self).map().insert(old(self).seq()[i as int].0.id(), value),
    {
        let ghost before = self.seq();
        let ghost key = before[i as int].0;
        self.entries[i].1 = value;
        proof {
            let after = before.update(i as int, (key, value));
            assert(self.seq() =~= after);
            lemma_update_map(before, i as int, value);
        }
    }

    /// Sets a key's value: in place where the key is present, else at the end.
    pub fn insert(&mut self, key: K, value: V)
        requires
            old(self).wf(),
        ensures
            final(self).wf(),
            final(self).map() == old(self).map().insert(key.id(), value),
            if present(old(self).seq(), key.id()) {
                let at = position(old(self).seq(), key.id());
                final(self).seq() == old(self).seq().update(at, (old(self).seq()[at].0, value))
            } else {
                final(self).seq() == old(self).seq().push((key, value))
            },
    {
        match self.find(&key) {
            Some(i) => {
                proof {
                    lemma_position(self.seq(), i as int);
                }
                self.set_at(i, value)
            },
            None => self.push(key, value),
        }
    }

    /// Takes a key's value out; the other entries keep their order.
    pub fn remove(&mut self, key: &K) -> (r: Option<V>)
        requires
            old(self).wf(),
        ensures
            final(self).wf(),
            final(self).map() == old(self).map().remove(key.id()),
            final(self).seq() == without(old(self).seq(), key.id()),
            match r {
                Some(v) => old(self).map().contains_key(key.id()) && v == old(self).map()[key.id()],
                None => !old(self).map().contains_key(key.id()),
            },
    {
        match self.find(key) {
            Some(i) => {
                proof {
                    lemma_position(self.seq(), i as int);
                }
                Some(self.remove_at(i).1)
            },
            None => {
                assert(self.map().remove(key.id()) =~= self.map());
                None
            },
        }
    }
}

/// A table has as many keys as entries.
pub proof fn lemma_map_len<K: Key, V>(entries: Seq<(K, V)>)
    requires
        distinct(entries),
    ensures
        map_of(entries).dom().finite(),
        map_of(entries).dom().len() == entries.len(),
    decreases entries.len(),
{
    if entries.len() == 0 {
        assert(map_of(entries).dom() =~= Set::empty());
    } else {
        let last = entries.len() - 1;
        let front = entries.remove(last);
        lemma_remove_map(entries, last);
        lemma_map_len(front);
        lemma_position(entries, last);
        assert(map_of(entries).dom() =~= map_of(front).dom().insert(entries[last].0.id()));
    }
}

/// Adding an entry with a new key adds that key to the map.
pub proof fn lemma_push_map<K: Key, V>(entries: Seq<(K, V)>, key: K, value: V)
    requires
        distinct(entries),
        !map_of(entries).contains_key(key.id()),
        distinct(entries.push((key, value))),
    ensures
        map_of(entries.push((key, value))) == map_of(entries).insert(key.id(), value),
{
    let after = entries.push((key, value));
    assert(after[entries.len() as int] == (key, value));
    assert forall|id: K::Id| map_of(after).contains_key(id) <==> #[trigger] map_of(entries).insert(
        key.id(),
        value,
    ).contains_key(id) by {
        if map_of(after).contains_key(id) {
            let p = position(after, id);
            if p < entries.len() {
                assert(entries[p].0.id() == id);
            }
        }
        if map_of(entries).contains_key(id) {
            let p = position(entries, id);
            assert(after[p].0.id() == id);
        }
    }
    assert forall|id: K::Id| map_of(after).contains_key(id) implies #[trigger] map_of(after)[id]
        == map_of(entries).insert(key.id(), value)[id] by {
        if id == key.id() {
            lemma_position(after, entries.len() as int);
        } else {
            let p = position(after, id);
            assert(entries[p] == after[p]);
            lemma_position(entries, p);
        }
    }
    assert(map_of(after) =~= map_of(entries).insert(key.id(), value));
}

/// Taking an entry out takes its key out of the map.
pub proof fn lemma_remove_map<K: Key, V>(entries: Seq<(K, V)>, i: int)
    requires
        distinct(entries),
        0 <= i < entries.len(),
    ensures
        distinct(entries.remove(i)),
        map_of(entries.remove(i)) == map_of(entries).remove(entries[i].0.id()),
{
    let after = entries.remove(i);
    let gone = entries[i].0.id();
    assert forall|a: int, b: int| 0 <= a < b < after.len() implies (#[trigger] after[a]).0.id() != (
    #[trigger] after[b]).0.id() by {
        let a0 = if a < i { a } else { a + 1 };
        let b0 = if b < i { b } else { b + 1 };
        assert(after[a] == entries[a0] && after[b] == entries[b0]);
    }
    assert forall|id: K::Id| #[trigger] map_of(after).contains_key(id) <==> map_of(entries).remove(
        gone,
    ).contains_key(id) by {
        if map_of(after).contains_key(id) {
            let p = position(after, id);
            let p0 = if p < i { p } else { p + 1 };
            assert(after[p] == entries[p0]);
            assert(entries[p0].0.id() == id);
        }
        if map_of(entries).contains_key(id) && id != gone {
            let p = position(entries, id);
            let q = if p < i { p } else { p - 1 };
            assert(after[q] == entries[p]);
        }
    }
    assert forall|id: K::Id| map_of(after).contains_key(id) implies #[trigger] map_of(after)[id]
        == map_of(entries).remove(gone)[id] by {
        let p = position(after, id);
        let p0 = if p < i { p } else { p + 1 };
        assert(after[p] == entries[p0]);
        lemma_position(entries, p0);
    }
    assert(map_of(after) =~= map_of(entries).remove(gone));
}

/// Replacing an entry's value replaces it in the map.
pub proof fn lemma_update_map<K: Key, V>(entries: Seq<(K, V)>, i: int, value: V)
    requires
        distinct(entries),
        0 <= i < entries.len(),
    ensures
        distinct(entries.update(i, (entries[i].0, value))),
        map_of(entries.update(i, (entries[i].0, value))) == map_of(entries).insert(
            entries[i].0.id(),
            value,
        ),
{
    let key = entries[i].0;
    let after = entries.update(i, (key, value));
    assert forall|a: int, b: int| 0 <= a < b < after.len() implies (#[trigger] after[a]).0.id() != (
    #[trigger] after[b]).0.id() by {
        assert(after[a].0 == entries[a].0 && after[b].0 == entries[b].0);
    }
    assert forall|id: K::Id| #[trigger] map_of(after).contains_key(id) <==> map_of(entries).insert(
        key.id(),
        value,
    ).contains_key(id) by {
        if map_of(after).contains_key(id) {
            let p = position(after, id);
            assert(entries[p].0 == after[p].0);
        }
        if map_of(entries).contains_key(id) {
            let p = position(entries, id);
            assert(after[p].0 == entries[p].0);
        }
        if id == key.id() {
            assert(after[i].0.id() == id);
        }
    }
    assert forall|id: K::Id| map_of(after).contains_key(id) implies #[trigger] map_of(after)[id]
        == map_of(entries).insert(key.id(), value)[id] by {
        let p = position(after, id);
        assert(entries[p].0 == after[p].0);
        lemma_position(after, p);
        lemma_position(entries, p);
    }
    assert(map_of(after) =~= map_of(entries).insert(key.id(), value));
}

// ── Sorted maps ─────────────────────────────────────────────────────────────

/// A key with a place in an order.
pub trait OrderedKey: Key {
    /// Whether `a` comes before `b`.
    spec fn precedes(a: Self::Id, b: Self::Id) -> bool;

    /// Of two different identities exactly one comes first.
    proof fn total(a: Self::Id, b: Self::Id)
        ensures
            Self::precedes(a, b) || Self::precedes(b, a) || a == b,
            !(Self::precedes(a, b) && Self::precedes(b, a)),
            a == b ==> !Self::precedes(a, b),
    ;

    /// The order is transitive.
    proof fn transitive(a: Self::Id, b: Self::Id, c: Self::Id)
        requires
            Self::precedes(a, b),
            Self::precedes(b, c),
        ensures
            Self::precedes(a, c),
    ;

    /// How `self` stands to `other`.
    fn rank(&self, other: &Self) -> (r: Rank)
        ensures
            match r {
                Rank::Before => Self::precedes(self.id(), other.id()),
                Rank::Same => self.id() == other.id(),
                Rank::After => Self::precedes(other.id(), self.id()),
            },
    ;
}

impl OrderedKey for String {
    open spec fn precedes(a: Seq<char>, b: Seq<char>) -> bool {
        text::less(a, b)
    }

    proof fn total(a: Seq<char>, b: Seq<char>) {
        text::lemma_less_total(a, b);
    }

    proof fn transitive(a: Seq<char>, b: Seq<char>, c: Seq<char>) {
        text::lemma_less_transitive(a, b, c);
    }

    fn rank(&self, other: &Self) -> (r: Rank) {
        proof {
            text::lemma_less_total(self@, other@);
        }
        text::rank(self.as_str(), other.as_str())
    }
}

/// Whether the keys of `entries` ascend.
pub open spec fn ascending<K: OrderedKey, V>(entries: Seq<(K, V)>) -> bool {
    forall|i: int, j: int|
        0 <= i < j < entries.len() ==> K::precedes(
            (#[trigger] entries[i]).0.id(),
            (#[trigger] entries[j]).0.id(),
        )
}

/// Ascending keys are distinct.
pub proof fn lemma_ascending_distinct<K: OrderedKey, V>(entries: Seq<(K, V)>)
    requires
        ascending(entries),
    ensures
        distinct(entries),
{
    assert forall|i: int, j: int| 0 <= i < j < entries.len() implies (#[trigger] entries[i]).0.id()
        != (#[trigger] entries[j]).0.id() by {
        K::total(entries[i].0.id(), entries[j].0.id());
    }
}

/// A map whose entries are kept in the order of their keys.
pub struct Sorted<K: OrderedKey, V> {
    /// The entries.
    pub entries: Vec<(K, V)>,
}

/// Where a key stands in a sorted map.
pub enum Slot {
    /// It is there, at this index.
    Found(usize),
    /// It is not there, and belongs at this index.
    Missing(usize),
}

impl<K: OrderedKey, V> Sorted<K, V> {
    /// The keys ascend.
    pub open spec fn wf(&self) -> bool {
        ascending(self.entries@)
    }

    /// The map.
    pub open spec fn map(&self) -> Map<K::Id, V> {
        map_of(self.entries@)
    }

    /// An empty map.
    pub fn new() -> (r: Self)
        ensures
            r.wf(),
            r.entries@ == Seq::<(K, V)>::empty(),
            r.map() == Map::<K::Id, V>::empty(),
    {
        let r: Sorted<K, V> = Sorted { entries: Vec::new() };
        assert(r.map() =~= Map::<K::Id, V>::empty());
        r
    }

    /// Finds the place of a key.
    pub fn slot(&self, key: &K) -> (r: Slot)
        requires
            self.wf(),
        ensures
            match r {
                Slot::Found(i) => {
                    &&& i < self.entries@.len()
                    &&& self.entries@[i as int].0.id() == key.id()
                    &&& self.map().contains_key(key.id())
                    &&& self.map()[key.id()] == self.entries@[i as int].1
                },
                Slot::Missing(i) => {
                    &&& i <= self.entries@.len()
                    &&& !self.map().contains_key(key.id())
                    &&& forall|k: int|
                        0 <= k < i ==> K::precedes((#[trigger] self.entries@[k]).0.id(), key.id())
                    &&& forall|k: int|
                        i <= k < self.entries@.len() ==> K::precedes(
                            key.id(),
                            (#[trigger] self.entries@[k]).0.id(),
                        )
                },
            },
    {
        let mut i: usize = 0;
        while i < self.entries.len()
            invariant
                self.wf(),
                i <= self.entries@.len(),
                forall|k: int|
                    0 <= k < i ==> K::precedes((#[trigger] self.entries@[k]).0.id(), key.id()),
            decreases self.entries@.len() - i,
        {
            match self.entries[i].0.rank(key) {
                Rank::Before => {
                    i = i + 1;
                },
                Rank::Same => {
                    proof {
                        lemma_ascending_distinct(self.entries@);
                        lemma_position(self.entries@, i as int);
                    }
                    return Slot::Found(i);
                },
                Rank::After => {
                    proof {
                        assert forall|k: int| i <= k < self.entries@.len() implies K::precedes(
                            key.id(),
                            (#[trigger] self.entries@[k]).0.id(),
                        ) by {
                            if k > i {
                                K::transitive(
                                    key.id(),
                                    self.entries@[i as int].0.id(),
                                    self.entries@[k].0.id(),
                                );
                            }
                        }
                        self.lemma_missing(key.id(), i as int);
                    }
                    return Slot::Missing(i);
                },
            }
        }
        proof {
            self.lemma_missing(key.id(), i as int);
        }
        Slot::Missing(i)
    }

    proof fn lemma_missing(&self, id: K::Id, i: int)
        requires
            0 <= i <= self.entries@.len(),
            forall|k: int| 0 <= k < i ==> K::precedes((#[trigger] self.entries@[k]).0.id(), id),
            forall|k: int|
                i <= k < self.entries@.len() ==> K::precedes(
                    id,
                    (#[trigger] self.entries@[k]).0.id(),
                ),
        ensures
            !self.map().contains_key(id),
    {
        if self.map().contains_key(id) {
            let p = position(self.entries@, id);
            lemma_present(self.entries@, id);
            K::total(self.entries@[p].0.id(), id);
        }
    }

    /// Puts an entry where its key belongs.
    pub fn insert_at(&mut self, i: usize, key: K, value: V)
        requires
            old(self).wf(),
            i <= old(self).entries@.len(),
            forall|k: int|
                0 <= k < i ==> K::precedes((#[trigger] old(self).entries@[k]).0.id(), key.id()),
            forall|k: int|
                i <= k < old(self).entries@.len() ==> K::precedes(
                    key.id(),
                    (#[trigger] old(self).entries@[k]).0.id(),
                ),
        ensures
            final(self).wf(),
            final(self).entries@ == old(self).entries@.insert(i as int, (key, value)),
            final(self).map() == old(self).map().insert(key.id(), value),
    {
        let ghost before = self.entries@;
        self.entries.insert(i, (key, value));
        proof {
            let after = self.entries@;
            assert forall|a: int, b: int| 0 <= a < b < after.len() implies K::precedes(
                (#[trigger] after[a]).0.id(),
                (#[trigger] after[b]).0.id(),
            ) by {
                if a < i {
                    assert(after[a] == before[a]);
                } else if a > i {
                    assert(after[a] == before[a - 1]);
                }
                if b < i {
                    assert(after[b] == before[b]);
                } else if b > i {
                    assert(after[b] == before[b - 1]);
                }
            }
            lemma_ascending_distinct(after);
            lemma_remove_map(after, i as int);
            lemma_position(after, i as int);
            assert(after.remove(i as int) =~= before);
            assert(map_of(after) =~= map_of(before).insert(key.id(), value));
        }
    }

    /// Replaces the value at an index.
    pub fn set_at(&mut self, i: usize, value: V)
        requires
            old(self).wf(),
            i < old(self).entries@.len(),
        ensures
            final(self).wf(),
            final(self).entries@ == old(self).entries@.update(
                i as int,
                (old(self).entries@[i as int].0, value),
            ),
            final(self).map() == old(self).map().insert(
                old(self).entries@[i as int].0.id(),
                value,
            ),
    {
        let ghost before = self.entries@;
        let ghost key = before[i as int].0;
        self.entries[i].1 = value;
        proof {
            let after = before.update(i as int, (key, value));
            assert(self.entries@ =~= after);
            assert forall|a: int, b: int| 0 <= a < b < after.len() implies K::precedes(
                (#[trigger] after[a]).0.id(),
                (#[trigger] after[b]).0.id(),
            ) by {
                assert(after[a].0 == before[a].0 && after[b].0 == before[b].0);
            }
            lemma_ascending_distinct(before);
            lemma_update_map(before, i as int, value);
        }
    }

    /// The value of a key.
    pub fn get(&self, key: &K) -> (r: Option<&V>)
        requires
            self.wf(),
        ensures
            match r {
                Some(v) => self.map().contains_key(key.id()) && *v == self.map()[key.id()],
                None => !self.map().contains_key(key.id()),
            },
    {
        match self.slot(key) {
            Slot::Found(i) => Some(&self.entries[i].1),
            Slot::Missing(_) => None,
        }
    }
}

/// Without a key, everything else is there, and the key is not.
pub proof fn law_one_key_is_taken_out<K: Key, V>(entries: Seq<(K, V)>, id: K::Id, entry: (K, V))
    requires
        distinct(entries),
    ensures
        without(entries, id).contains(entry) <==> entries.contains(entry) && entry.0.id() != id,
        !present(entries, id) ==> without(entries, id) == entries,
        present(entries, id) ==> without(entries, id).len() == entries.len() - 1,
{
    if present(entries, id) {
        let at = position(entries, id);
        let rest = entries.remove(at);
        assert(0 <= at < entries.len() && entries[at].0.id() == id);
        if rest.contains(entry) {
            let i = choose|i: int| 0 <= i < rest.len() && rest[i] == entry;
            let k = if i < at {
                i
            } else {
                i + 1
            };
            assert(entries[k] == entry);
            if k < at {
                assert(entries[k].0.id() != entries[at].0.id());
            } else {
                assert(entries[at].0.id() != entries[k].0.id());
            }
        }
        if entries.contains(entry) && entry.0.id() != id {
            let k = choose|k: int| 0 <= k < entries.len() && entries[k] == entry;
            let i = if k < at {
                k
            } else {
                k - 1
            };
            assert(rest[i] == entry);
        }
    } else if entries.contains(entry) {
        let k = choose|k: int| 0 <= k < entries.len() && entries[k] == entry;
        assert(entries[k].0.id() != id);
    }
}

} // verus!
