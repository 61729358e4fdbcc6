//! A small map from strings to values, kept as a list of entries with
//! distinct keys, and the pruning of entries that have grown stale.

use vstd::prelude::*;
use crate::container_ui::state::{fresh, is_fresh, UnixTime};
use crate::text::same_text;

verus! {

/// Values that carry the instant they were created.
pub trait Stamped {
    spec fn stamp(&self) -> UnixTime;

    fn creation(&self) -> (t: UnixTime)
        ensures
            t == self.stamp(),
    ;
}

/// The map that a list of entries denotes (later entries win).
pub open spec fn entries_map<T>(es: Seq<(String, T)>) -> Map<Seq<char>, T>
    decreases es.len(),
{
    if es.len() == 0 {
        Map::empty()
    } else {
        entries_map(es.drop_last()).insert(es.last().0@, es.last().1)
    }
}

/// No two entries share a key.
pub open spec fn keys_unique<T>(es: Seq<(String, T)>) -> bool {
    forall|i: int, j: int| 0 <= i < j < es.len() ==> (#[trigger] es[i]).0@ != (#[trigger] es[j]).0@
}

proof fn lemma_entries_map_index<T>(es: Seq<(String, T)>, i: int)
    requires
        keys_unique(es),
        0 <= i < es.len(),
    ensures
        entries_map(es).contains_key(es[i].0@),
        entries_map(es)[es[i].0@] == es[i].1,
    decreases es.len(),
{
    if i < es.len() - 1 {
        lemma_entries_map_index(es.drop_last(), i);
        assert(es.drop_last()[i] == es[i]);
    }
}

proof fn lemma_entries_map_absent<T>(es: Seq<(String, T)>, k: Seq<char>)
    requires
        forall|i: int| 0 <= i < es.len() ==> (#[trigger] es[i]).0@ != k,
    ensures
        !entries_map(es).contains_key(k),
    decreases es.len(),
{
    if es.len() > 0 {
        lemma_entries_map_absent(es.drop_last(), k);
    }
}

proof fn lemma_entries_map_update<T>(es: Seq<(String, T)>, i: int, e: (String, T))
    requires
        keys_unique(es),
        0 <= i < es.len(),
        e.0@ == es[i].0@,
    ensures
        entries_map(es.update(i, e)) == entries_map(es).insert(e.0@, e.1),
    decreases es.len(),
{
    if i == es.len() - 1 {
        assert(es.update(i, e).drop_last() =~= es.drop_last());
        lemma_entries_map_absent(es.drop_last(), e.0@);
        assert(entries_map(es.drop_last()).insert(es.last().0@, es.last().1).insert(e.0@, e.1)
            =~= entries_map(es.drop_last()).insert(e.0@, e.1));
    } else {
        lemma_entries_map_update(es.drop_last(), i, e);
        assert(es.update(i, e).drop_last() =~= es.drop_last().update(i, e));
        assert(es.update(i, e).last() == es.last());
        assert(es.last().0@ != e.0@);
        assert(entries_map(es.drop_last()).insert(e.0@, e.1).insert(es.last().0@, es.last().1)
            =~= entries_map(es.drop_last()).insert(es.last().0@, es.last().1).insert(e.0@, e.1));
    }
}

proof fn lemma_entries_map_remove<T>(es: Seq<(String, T)>, i: int)
    requires
        keys_unique(es),
        0 <= i < es.len(),
    ensures
        entries_map(es.remove(i)) == entries_map(es).remove(es[i].0@),
    decreases es.len(),
{
    let k = es[i].0@;
    if i == es.len() - 1 {
        assert(es.remove(i) =~= es.drop_last());
        lemma_entries_map_absent(es.drop_last(), k);
        assert(entries_map(es.drop_last()) =~= entries_map(es.drop_last()).insert(k, es.last().1).remove(k));
    } else {
        lemma_entries_map_remove(es.drop_last(), i);
        assert(es.remove(i).drop_last() =~= es.drop_last().remove(i));
        assert(es.remove(i).last() == es.last());
        assert(es.last().0@ != k);
        assert(entries_map(es.drop_last()).remove(k).insert(es.last().0@, es.last().1)
            =~= entries_map(es.drop_last()).insert(es.last().0@, es.last().1).remove(k));
    }
}

/// Values kept under string keys (session tokens, device names), each key
/// at most once.
pub struct StrMap<T> {
    entries: Vec<(String, T)>,
}

/// The entries of `m` that are still fresh at `now`.
pub open spec fn pruned<T: Stamped>(m: Map<Seq<char>, T>, now: UnixTime, ttl: u64) -> Map<Seq<char>, T> {
    m.restrict(Set::new(|k: Seq<char>| m.contains_key(k) && fresh(m[k].stamp(), now, ttl)))
}

impl<T> StrMap<T> {
    #[verifier::type_invariant]
    spec fn inv(&self) -> bool {
        keys_unique(self.entries@)
    }

    /// The token-to-value map.
    pub closed spec fn view(&self) -> Map<Seq<char>, T> {
        entries_map(self.entries@)
    }

    /// An empty map.
    pub fn new() -> (m: Self)
        ensures
            m.view() == Map::<Seq<char>, T>::empty(),
    {
        StrMap { entries: Vec::new() }
    }

    fn position(&self, key: &str) -> (r: Option<usize>)
        ensures
            match r {
                Some(i) => i < self.entries@.len() && self.entries@[i as int].0@ == key@,
                None => forall|i: int| 0 <= i < self.entries@.len() ==> (#[trigger] self.entries@[i]).0@ != key@,
            },
    {
        let mut i: usize = 0;
        while i < self.entries.len()
            invariant
                i <= self.entries@.len(),
                forall|j: int| 0 <= j < i ==> (#[trigger] self.entries@[j]).0@ != key@,
            decreases self.entries.len() - i,
        {
            if same_text(self.entries[i].0.as_str(), key) {
                return Some(i);
            }
            i = i + 1;
        }
        None
    }

    /// The value stored under `key`.
    pub fn get(&self, key: &str) -> (r: Option<&T>)
        ensures
            match r {
                Some(v) => self.view().contains_key(key@) && self.view()[key@] == *v,
                None => !self.view().contains_key(key@),
            },
    {
        proof {
            use_type_invariant(self);
        }
        match self.position(key) {
            Some(i) => {
                proof {
                    lemma_entries_map_index(self.entries@, i as int);
                }
                Some(&self.entries[i].1)
            },
            None => {
                proof {
                    lemma_entries_map_absent(self.entries@, key@);
                }
                None
            },
        }
    }

    /// Stores `value` under `key`, replacing what was there.
    pub fn insert(&mut self, key: String, value: T)
        ensures
            final(self).view() == old(self).view().insert(key@, value),
    {
        proof {
            use_type_invariant(&*self);
        }
        let pos = self.position(key.as_str());
        let mut es: Vec<(String, T)> = Vec::new();
        std::mem::swap(&mut es, &mut self.entries);
        match pos {
            Some(i) => {
                proof {
                    lemma_entries_map_update(es@, i as int, (key, value));
                }
                es.set(i, (key, value));
            },
            None => {
                let ghost e = (key, value);
                es.push((key, value));
                assert(es@.drop_last() == old(self).entries@);
            },
        }
        self.entries = es;
    }

    /// Removes and returns the value stored under `key`.
    pub fn remove(&mut self, key: &str) -> (r: Option<T>)
        ensures
            final(self).view() == old(self).view().remove(key@),
            match r {
                Some(v) => old(self).view().contains_key(key@) && old(self).view()[key@] == v,
                None => !old(self).view().contains_key(key@),
            },
    {
        proof {
            use_type_invariant(&*self);
        }
        match self.position(key) {
            Some(i) => {
                proof {
                    lemma_entries_map_index(self.entries@, i as int);
                    lemma_entries_map_remove(self.entries@, i as int);
                }
                let mut es: Vec<(String, T)> = Vec::new();
                std::mem::swap(&mut es, &mut self.entries);
                let (_, v) = es.remove(i);
                self.entries = es;
                Some(v)
            },
            None => {
                proof {
                    lemma_entries_map_absent(self.entries@, key@);
                    assert(self.view().remove(key@) =~= self.view());
                }
                None
            },
        }
    }
}

impl<T: Stamped> StrMap<T> {
    /// Drops the entries that are `ttl` seconds old or older at `now`.
    pub fn prune(&mut self, now: UnixTime, ttl: u64)
        ensures
            final(self).view() == pruned(old(self).view(), now, ttl),
    {
        proof {
            use_type_invariant(&*self);
        }
        let ghost es = self.entries@;
        let mut old_entries: Vec<(String, T)> = Vec::new();
        std::mem::swap(&mut old_entries, &mut self.entries);
        let mut kept: Vec<(String, T)> = Vec::new();
        let n = old_entries.len();
        let mut taken: usize = 0;
        while old_entries.len() > 0
            invariant
                old_entries@.len() + taken == n == es.len(),
                old_entries@ == es.subrange(taken as int, n as int),
                keys_unique(es),
                keys_unique(kept@),
                forall|j: int| 0 <= j < kept@.len() ==> exists|m: int| 0 <= m < taken && (#[trigger] kept@[j]).0@ == (#[trigger] es[m]).0@,
                entries_map(kept@) == pruned(entries_map(es.take(taken as int)), now, ttl),
            decreases old_entries.len(),
        {
            let e = old_entries.remove(0);
            assert(e == es[taken as int]);
            let keep = is_fresh(e.1.creation(), now, ttl);
            proof {
                let before = entries_map(es.take(taken as int));
                assert(es.take(taken + 1).drop_last() =~= es.take(taken as int));
                assert(entries_map(es.take(taken + 1)) == before.insert(e.0@, e.1));
                assert forall|m: int| 0 <= m < taken implies (#[trigger] es[m]).0@ != e.0@ by {
                    assert(es[m].0@ != es[taken as int].0@);
                }
                lemma_entries_map_absent(es.take(taken as int), e.0@);
                if keep {
                    assert(pruned(before.insert(e.0@, e.1), now, ttl) =~= pruned(before, now, ttl).insert(e.0@, e.1));
                } else {
                    assert(pruned(before.insert(e.0@, e.1), now, ttl) =~= pruned(before, now, ttl));
                }
            }
            if keep {
                let ghost k0 = kept@;
                kept.push(e);
                assert(kept@.drop_last() =~= k0);
            }
            taken = taken + 1;
            assert(old_entries@ =~= es.subrange(taken as int, n as int));
        }
        assert(es.take(n as int) =~= es);
        self.entries = kept;
    }
}


/// What a write does to the map: the key written reads back the value
/// written, every other key keeps what it had, and a removed key is gone
/// while the others stay.
pub proof fn lemma_write_then_read<T>(m: Map<Seq<char>, T>, k: Seq<char>, v: T, other: Seq<char>)
    requires
        other != k,
    ensures
        m.insert(k, v).contains_key(k) && m.insert(k, v)[k] == v,
        m.insert(k, v).contains_key(other) == m.contains_key(other),
        m.contains_key(other) ==> m.insert(k, v)[other] == m[other],
        !m.remove(k).contains_key(k),
        m.remove(k).contains_key(other) == m.contains_key(other),
        m.contains_key(other) ==> m.remove(k)[other] == m[other],
{
}

/// Pruning keeps exactly the entries that are still fresh, unchanged.
pub proof fn lemma_pruned_exactly_fresh<T: Stamped>(m: Map<Seq<char>, T>, now: UnixTime, ttl: u64, k: Seq<char>)
    ensures
        pruned(m, now, ttl).contains_key(k) <==> (m.contains_key(k) && fresh(m[k].stamp(), now, ttl)),
        pruned(m, now, ttl).contains_key(k) ==> pruned(m, now, ttl)[k] == m[k],
{
}

} // verus!
