//! A small key-value store backed by a vector of pairs, with a `Map` view.
//!
//! The live index needs deterministic snapshots of its contents, so the
//! store keeps its pairs in insertion order and its view is the map the
//! pairs spell out. Keys are entity identifiers (`u64`).

use vstd::prelude::*;

verus! {

/// The map a sequence of key-value pairs spells out; a later pair with
/// the same key wins.
pub open spec fn entries_map<K, V>(s: Seq<(K, V)>) -> Map<K, V>
    decreases s.len(),
{
    if s.len() == 0 {
        Map::empty()
    } else {
        entries_map(s.drop_last()).insert(s.last().0, s.last().1)
    }
}

/// Whether no two pairs of `s` share a key.
pub open spec fn unique_keys<K, V>(s: Seq<(K, V)>) -> bool {
    forall|i: int, j: int| 0 <= i < j < s.len() ==> (#[trigger] s[i]).0 != (#[trigger] s[j]).0
}

/// Every key in the sequence is in the map's domain.
pub proof fn lemma_entries_map_contains_at<K, V>(s: Seq<(K, V)>, i: int)
    requires
        0 <= i < s.len(),
    ensures
        entries_map(s).dom().contains(s[i].0),
    decreases s.len(),
{
    if i < s.len() - 1 {
        lemma_entries_map_contains_at(s.drop_last(), i);
    }
}

/// A key no pair holds is not in the map's domain.
pub proof fn lemma_entries_map_absent<K, V>(s: Seq<(K, V)>, k: K)
    requires
        forall|i: int| 0 <= i < s.len() ==> (#[trigger] s[i]).0 != k,
    ensures
        !entries_map(s).dom().contains(k),
    decreases s.len(),
{
    if s.len() > 0 {
        assert forall|i: int| 0 <= i < s.drop_last().len() implies (#[trigger] s.drop_last()[i]).0
            != k by {
            assert(s.drop_last()[i] == s[i]);
        }
        lemma_entries_map_absent(s.drop_last(), k);
    }
}

/// With unique keys, the map sends each key to the value paired with it.
pub proof fn lemma_entries_map_at<K, V>(s: Seq<(K, V)>, i: int)
    requires
        unique_keys(s),
        0 <= i < s.len(),
    ensures
        entries_map(s)[s[i].0] == s[i].1,
    decreases s.len(),
{
    if i < s.len() - 1 {
        assert(unique_keys(s.drop_last()));
        lemma_entries_map_at(s.drop_last(), i);
        assert(s[s.len() - 1].0 != s[i].0);
    }
}

/// With unique keys, the map holds exactly as many keys as the sequence.
pub proof fn lemma_entries_map_len<K, V>(s: Seq<(K, V)>)
    requires
        unique_keys(s),
    ensures
        entries_map(s).dom().finite(),
        entries_map(s).dom().len() == s.len(),
    decreases s.len(),
{
    if s.len() > 0 {
        assert(unique_keys(s.drop_last()));
        lemma_entries_map_len(s.drop_last());
        assert forall|i: int| 0 <= i < s.drop_last().len() implies (#[trigger] s.drop_last()[
            i
        ]).0 != s.last().0 by {
            assert(s.drop_last()[i] == s[i]);
        }
        lemma_entries_map_absent(s.drop_last(), s.last().0);
    }
}

/// Replacing the value at one position updates the map at that key alone.
pub proof fn lemma_entries_map_update<K, V>(s: Seq<(K, V)>, i: int, v: V)
    requires
        unique_keys(s),
        0 <= i < s.len(),
    ensures
        unique_keys(s.update(i, (s[i].0, v))),
        entries_map(s.update(i, (s[i].0, v))) =~= entries_map(s).insert(s[i].0, v),
    decreases s.len(),
{
    let t = s.update(i, (s[i].0, v));
    assert forall|p: int, q: int| 0 <= p < q < t.len() implies (#[trigger] t[p]).0 != (#[trigger] t[
        q
    ]).0 by {
        assert(s[p].0 != s[q].0);
    }
    if i == s.len() - 1 {
        assert(t.drop_last() =~= s.drop_last());
    } else {
        assert(t.drop_last() =~= s.drop_last().update(i, (s[i].0, v)));
        assert(s.drop_last()[i] == s[i]);
        assert(unique_keys(s.drop_last()));
        lemma_entries_map_update(s.drop_last(), i, v);
        assert(s.last().0 != s[i].0);
    }
}

/// Removing the pair at one position removes that key from the map.
pub proof fn lemma_entries_map_remove<K, V>(s: Seq<(K, V)>, i: int)
    requires
        unique_keys(s),
        0 <= i < s.len(),
    ensures
        unique_keys(s.remove(i)),
        entries_map(s.remove(i)) =~= entries_map(s).remove(s[i].0),
    decreases s.len(),
{
    let t = s.remove(i);
    assert forall|p: int, q: int| 0 <= p < q < t.len() implies (#[trigger] t[p]).0 != (#[trigger] t[
        q
    ]).0 by {
        let sp: int = if p < i {
            p
        } else {
            p + 1
        };
        let sq: int = if q < i {
            q
        } else {
            q + 1
        };
        assert(t[p] == s[sp]);
        assert(t[q] == s[sq]);
        assert(s[sp].0 != s[sq].0);
    }
    if i == s.len() - 1 {
        assert(t =~= s.drop_last());
        assert forall|p: int| 0 <= p < s.drop_last().len() implies (#[trigger] s.drop_last()[
            p
        ]).0 != s[i].0 by {
            assert(s.drop_last()[p] == s[p]);
        }
        lemma_entries_map_absent(s.drop_last(), s[i].0);
        assert(entries_map(s.drop_last()).remove(s[i].0) =~= entries_map(s.drop_last()));
        assert(entries_map(s) == entries_map(s.drop_last()).insert(s.last().0, s.last().1));
        assert(entries_map(s).remove(s[i].0) =~= entries_map(s.drop_last()));
    } else {
        assert(t.drop_last() =~= s.drop_last().remove(i));
        assert(t.last() == s.last());
        assert(unique_keys(s.drop_last()));
        assert(s.drop_last()[i] == s[i]);
        lemma_entries_map_remove(s.drop_last(), i);
        assert(s.last().0 != s[i].0);
        assert(entries_map(t) == entries_map(s.drop_last()).remove(s[i].0).insert(
            s.last().0,
            s.last().1,
        ));
        assert(entries_map(s).remove(s[i].0) =~= entries_map(s.drop_last()).remove(s[i].0).insert(
            s.last().0,
            s.last().1,
        ));
    }
}

/// Appending a pair with a fresh key keeps the keys unique.
pub proof fn lemma_unique_keys_push<K, V>(s: Seq<(K, V)>, k: K, v: V)
    requires
        unique_keys(s),
        forall|i: int| 0 <= i < s.len() ==> (#[trigger] s[i]).0 != k,
    ensures
        unique_keys(s.push((k, v))),
{
    let t = s.push((k, v));
    assert forall|p: int, q: int| 0 <= p < q < t.len() implies (#[trigger] t[p]).0 != (#[trigger] t[
        q
    ]).0 by {
        if q < s.len() {
            assert(t[p] == s[p]);
            assert(t[q] == s[q]);
        } else {
            assert(t[p] == s[p]);
            assert(t[q] == (k, v));
        }
    }
}

/// A key-value store over entity identifiers with a deterministic order
/// of entries, viewed as the map it spells out.
pub struct Dict<V> {
    entries: Vec<(u64, V)>,
}

impl<V> View for Dict<V> {
    type V = Map<u64, V>;

    closed spec fn view(&self) -> Map<u64, V> {
        entries_map(self.entries@)
    }
}

impl<V> Dict<V> {
    /// No two entries share a key.
    pub closed spec fn wf(&self) -> bool {
        unique_keys(self.entries@)
    }

    /// The entries in their kept order.
    pub closed spec fn seq(&self) -> Seq<(u64, V)> {
        self.entries@
    }

    /// An empty store.
    pub fn new() -> (r: Self)
        ensures
            r.wf(),
            r@ == Map::<u64, V>::empty(),
            r.seq() == Seq::<(u64, V)>::empty(),
    {
        Dict { entries: Vec::new() }
    }

    /// The position of the entry holding `key`, if any.
    fn position(&self, key: u64) -> (r: Option<usize>)
        ensures
            match r {
                Some(i) => i < self.entries@.len() && self.entries@[i as int].0 == key,
                None => forall|i: int|
                    0 <= i < self.entries@.len() ==> (#[trigger] self.entries@[i]).0 != key,
            },
    {
        let n = self.entries.len();
        let mut i: usize = 0;
        while i < n
            invariant
                0 <= i <= n,
                n == self.entries@.len(),
                forall|j: int| 0 <= j < i ==> (#[trigger] self.entries@[j]).0 != key,
            decreases n - i,
        {
            if self.entries[i].0 == key {
                return Some(i);
            }
            i = i + 1;
        }
        None
    }

    /// How many entities the store holds.
    pub fn len(&self) -> (r: usize)
        requires
            self.wf(),
        ensures
            r == self@.dom().len(),
            self@.dom().finite(),
    {
        proof {
            lemma_entries_map_len(self.entries@);
        }
        self.entries.len()
    }

    /// Whether `key` is present.
    pub fn contains_key(&self, key: u64) -> (r: bool)
        ensures
            r == self@.dom().contains(key),
    {
        let r = self.position(key);
        proof {
            match r {
                Some(i) => lemma_entries_map_contains_at(self.entries@, i as int),
                None => lemma_entries_map_absent(self.entries@, key),
            }
        }
        r.is_some()
    }

    /// The value stored under `key`, if any.
    pub fn get(&self, key: u64) -> (r: Option<V>) where V: Copy
        requires
            self.wf(),
        ensures
            r is Some <==> self@.dom().contains(key),
            r is Some ==> r->Some_0 == self@[key],
    {
        match self.position(key) {
            Some(i) => {
                proof {
                    lemma_entries_map_contains_at(self.entries@, i as int);
                    lemma_entries_map_at(self.entries@, i as int);
                }
                Some(self.entries[i].1)
            },
            None => {
                proof {
                    lemma_entries_map_absent(self.entries@, key);
                }
                None
            },
        }
    }

    /// Stores `value` under `key`, replacing any previous value.
    pub fn insert(&mut self, key: u64, value: V)
        requires
            old(self).wf(),
        ensures
            final(self).wf(),
            final(self)@ == old(self)@.insert(key, value),
            final(self)@.dom() =~= old(self)@.dom().insert(key),
    {
        match self.position(key) {
            Some(i) => {
                self.entries.set(i, (key, value));
                proof {
                    lemma_entries_map_update(old(self).entries@, i as int, value);
                    assert(old(self).entries@[i as int].0 == key);
                    assert(self.entries@ =~= old(self).entries@.update(i as int, (key, value)));
                    assert(self@ =~= old(self)@.insert(key, value));
                }
            },
            None => {
                self.entries.push((key, value));
                proof {
                    lemma_unique_keys_push(old(self).entries@, key, value);
                    assert(self.entries@.drop_last() =~= old(self).entries@);
                    assert(self@ =~= old(self)@.insert(key, value));
                }
            },
        }
    }

    /// Drops `key` and whatever it was mapped to.
    pub fn remove(&mut self, key: u64)
        requires
            old(self).wf(),
        ensures
            final(self).wf(),
            final(self)@ == old(self)@.remove(key),
            final(self)@.dom() =~= old(self)@.dom().remove(key),
    {
        match self.position(key) {
            Some(i) => {
                let _ = self.entries.remove(i);
                proof {
                    lemma_entries_map_remove(old(self).entries@, i as int);
                    assert(old(self).entries@[i as int].0 == key);
                    assert(self@ =~= old(self)@.remove(key));
                }
            },
            None => {
                proof {
                    lemma_entries_map_absent(self.entries@, key);
                    assert(entries_map(self.entries@).remove(key) =~= entries_map(self.entries@));
                }
            },
        }
    }

    /// Drops every entry.
    pub fn clear(&mut self)
        ensures
            final(self).wf(),
            final(self)@ == Map::<u64, V>::empty(),
            final(self).seq() == Seq::<(u64, V)>::empty(),
    {
        self.entries.clear();
    }

    /// The entries as a vector of pairs, in their kept order; the pairs
    /// spell out exactly the store's map.
    pub fn to_pairs(&self) -> (r: Vec<(u64, V)>) where V: Copy
        requires
            self.wf(),
        ensures
            r@ == self.seq(),
            entries_map(r@) == self@,
            unique_keys(r@),
    {
        let n = self.entries.len();
        let mut r: Vec<(u64, V)> = Vec::new();
        let mut i: usize = 0;
        while i < n
            invariant
                0 <= i <= n,
                n == self.entries@.len(),
                r@ == self.entries@.take(i as int),
            decreases n - i,
        {
            r.push(self.entries[i]);
            proof {
                assert(r@ =~= self.entries@.take(i + 1));
            }
            i = i + 1;
        }
        proof {
            assert(self.entries@.take(n as int) =~= self.entries@);
        }
        r
    }
}

} // verus!
