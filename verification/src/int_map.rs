//! A mapping from a `u8` key to a value, stored as a contiguous sequence of
//! entries sorted by key and queried by binary search.
//!
//! Printer capabilities represented with this type generally involve sending
//! a key in this map as part of a command to the printer: the key is a
//! device-internal id (of a code page, an ink color, or a font), and the
//! value describes what the device offers under that id.

use vstd::prelude::*;

verus! {

/// The keys of `s` are strictly increasing by index.
pub open spec fn strictly_sorted<T>(s: Seq<(u8, T)>) -> bool {
    forall|i: int, j: int| 0 <= i < j < s.len() ==> s[i].0 < s[j].0
}

/// Some entry of `s` has key `k`.
pub open spec fn key_in<T>(s: Seq<(u8, T)>, k: u8) -> bool {
    exists|i: int| 0 <= i < s.len() && s[i].0 == k
}

/// The mathematical map described by an entry sequence; on duplicate keys the
/// later entry wins.
pub open spec fn map_of<T>(s: Seq<(u8, T)>) -> Map<u8, T>
    decreases s.len(),
{
    if s.len() == 0 {
        Map::empty()
    } else {
        map_of(s.drop_last()).insert(s.last().0, s.last().1)
    }
}

/// The map obtained from `m` by inserting every pair of `pairs` in order, so
/// that on equal keys the last pair wins.
pub open spec fn insert_all<T>(m: Map<u8, T>, pairs: Seq<(u8, T)>) -> Map<u8, T>
    decreases pairs.len(),
{
    if pairs.len() == 0 {
        m
    } else {
        insert_all(m.insert(pairs[0].0, pairs[0].1), pairs.drop_first())
    }
}

/// The value of the last pair of `pairs` carrying the key `k`, if any.
pub open spec fn last_entry<T>(pairs: Seq<(u8, T)>, k: u8) -> Option<T>
    decreases pairs.len(),
{
    if pairs.len() == 0 {
        None
    } else if pairs.last().0 == k {
        Some(pairs.last().1)
    } else {
        last_entry(pairs.drop_last(), k)
    }
}

/// Looking for the last pair with a key can start from the front.
proof fn lemma_last_entry_front<T>(pairs: Seq<(u8, T)>, k: u8)
    requires
        pairs.len() > 0,
    ensures
        last_entry(pairs, k) == (match last_entry(pairs.drop_first(), k) {
            Some(v) => Some(v),
            None => if pairs[0].0 == k {
                Some(pairs[0].1)
            } else {
                None::<T>
            },
        }),
    decreases pairs.len(),
{
    if pairs.len() == 1 {
        assert(pairs.last() == pairs[0]);
    } else {
        lemma_last_entry_front(pairs.drop_last(), k);
        assert(pairs.drop_last().drop_first() =~= pairs.drop_first().drop_last());
        assert(pairs.drop_first().last() == pairs.last());
        assert(pairs.drop_last()[0] == pairs[0]);
    }
}

/// Law: a bulk addition resolves a repeated key to the last pair that
/// carries it; a key that no pair carries keeps its prior association, and
/// no other key enters the map.
pub proof fn lemma_insert_all_last_wins<T>(m: Map<u8, T>, pairs: Seq<(u8, T)>, k: u8)
    ensures
        insert_all(m, pairs).dom().contains(k) <==> (m.dom().contains(k) || last_entry(pairs, k)
            is Some),
        last_entry(pairs, k) matches Some(v) ==> insert_all(m, pairs)[k] == v,
        last_entry(pairs, k) is None && m.dom().contains(k) ==> insert_all(m, pairs)[k] == m[k],
    decreases pairs.len(),
{
    if pairs.len() > 0 {
        lemma_insert_all_last_wins(m.insert(pairs[0].0, pairs[0].1), pairs.drop_first(), k);
        lemma_last_entry_front(pairs, k);
    }
}

/// A key is in the domain of `map_of(s)` exactly when some entry of `s` has it.
pub proof fn lemma_map_of_domain<T>(s: Seq<(u8, T)>)
    ensures
        forall|k: u8| map_of(s).dom().contains(k) <==> key_in(s, k),
    decreases s.len(),
{
    if s.len() > 0 {
        lemma_map_of_domain(s.drop_last());
        assert forall|k: u8| map_of(s).dom().contains(k) implies key_in(s, k) by {
            if k == s.last().0 {
                assert(s[s.len() - 1].0 == k);
            } else {
                assert(map_of(s.drop_last()).dom().contains(k));
                assert(key_in(s.drop_last(), k));
                let i = choose|i: int| 0 <= i < s.drop_last().len() && s.drop_last()[i].0 == k;
                assert(s.drop_last()[i] == s[i]);
                assert(s[i].0 == k);
            }
        }
        assert forall|k: u8| key_in(s, k) implies map_of(s).dom().contains(k) by {
            let i = choose|i: int| 0 <= i < s.len() && s[i].0 == k;
            if i < s.len() - 1 {
                assert(s.drop_last()[i].0 == k);
                assert(key_in(s.drop_last(), k));
                assert(map_of(s.drop_last()).dom().contains(k));
            } else {
                assert(k == s.last().0);
            }
        }
    }
}

/// Over a sequence with pairwise distinct keys, `map_of` associates each
/// entry's key with that entry's value.
pub proof fn lemma_map_of_entry<T>(s: Seq<(u8, T)>, i: int)
    requires
        forall|a: int, b: int| 0 <= a < b < s.len() ==> s[a].0 != s[b].0,
        0 <= i < s.len(),
    ensures
        map_of(s).contains_pair(s[i].0, s[i].1),
    decreases s.len(),
{
    if i < s.len() - 1 {
        assert(s.drop_last()[i] == s[i]);
        lemma_map_of_entry(s.drop_last(), i);
        assert(s[i].0 != s[s.len() - 1].0);
    }
}

/// Law: building a map from a strictly sorted entry sequence associates
/// exactly the sequence's keys with their values, and no others.
pub proof fn lemma_sorted_entries_map<T>(s: Seq<(u8, T)>)
    requires
        strictly_sorted(s),
    ensures
        forall|i: int| 0 <= i < s.len() ==> map_of(s).contains_pair(s[i].0, s[i].1),
        forall|k: u8| map_of(s).dom().contains(k) <==> key_in(s, k),
{
    lemma_map_of_domain(s);
    assert forall|i: int| 0 <= i < s.len() implies map_of(s).contains_pair(s[i].0, s[i].1) by {
        lemma_map_of_entry(s, i);
    }
}

/// Adjacent order implies order between every pair of indices.
proof fn lemma_adjacent_key_lt<T>(s: Seq<(u8, T)>, i: int, j: int)
    requires
        forall|a: int| 0 < a < s.len() ==> s[a - 1].0 < #[trigger] s[a].0,
        0 <= i < j < s.len(),
    ensures
        s[i].0 < s[j].0,
    decreases j - i,
{
    if j > i + 1 {
        lemma_adjacent_key_lt(s, i, j - 1);
    }
}

proof fn lemma_adjacent_implies_sorted<T>(s: Seq<(u8, T)>)
    requires
        forall|a: int| 0 < a < s.len() ==> s[a - 1].0 < #[trigger] s[a].0,
    ensures
        strictly_sorted(s),
{
    assert forall|i: int, j: int| 0 <= i < j < s.len() implies s[i].0 < s[j].0 by {
        lemma_adjacent_key_lt(s, i, j);
    }
}

/// An immutable map from `u8` keys to values, held as a sorted entry
/// sequence and looked up by binary search.
#[derive(Debug)]
pub struct IntMap<T> {
    entries: Vec<(u8, T)>,
}

impl<T> View for IntMap<T> {
    type V = Map<u8, T>;

    closed spec fn view(&self) -> Map<u8, T> {
        map_of(self.entries@)
    }
}

/// Binary search for the entry with key `k` over a strictly sorted sequence.
fn find_index<T>(entries: &Vec<(u8, T)>, k: u8) -> (r: Option<usize>)
    requires
        strictly_sorted(entries@),
    ensures
        match r {
            Some(i) => i < entries@.len() && entries@[i as int].0 == k,
            None => !key_in(entries@, k),
        },
{
    let mut lo: usize = 0;
    let mut hi: usize = entries.len();
    while lo < hi
        invariant
            lo <= hi <= entries@.len(),
            strictly_sorted(entries@),
            forall|j: int| 0 <= j < lo ==> entries@[j].0 < k,
            forall|j: int| hi <= j < entries@.len() ==> entries@[j].0 > k,
        decreases hi - lo,
    {
        let mid = lo + (hi - lo) / 2;
        let key = entries[mid].0;
        if key == k {
            return Some(mid);
        } else if key < k {
            lo = mid + 1;
        } else {
            hi = mid;
        }
    }
    None
}

/// Binary search for the position where key `k` stands or belongs in a
/// strictly sorted sequence: every key before the position is below `k`, and
/// the position holds `k` itself exactly when the second component is true.
fn find_slot<T>(entries: &Vec<(u8, T)>, k: u8) -> (r: (usize, bool))
    requires
        strictly_sorted(entries@),
    ensures
        r.0 <= entries@.len(),
        forall|j: int| 0 <= j < r.0 ==> entries@[j].0 < k,
        r.1 ==> r.0 < entries@.len() && entries@[r.0 as int].0 == k,
        !r.1 ==> forall|j: int| r.0 <= j < entries@.len() ==> entries@[j].0 > k,
{
    let mut lo: usize = 0;
    let mut hi: usize = entries.len();
    while lo < hi
        invariant
            lo <= hi <= entries@.len(),
            strictly_sorted(entries@),
            forall|j: int| 0 <= j < lo ==> entries@[j].0 < k,
            forall|j: int| hi <= j < entries@.len() ==> entries@[j].0 > k,
        decreases hi - lo,
    {
        let mid = lo + (hi - lo) / 2;
        let key = entries[mid].0;
        if key == k {
            return (mid, true);
        } else if key < k {
            lo = mid + 1;
        } else {
            hi = mid;
        }
    }
    (lo, false)
}

impl<T> IntMap<T> {
    /// The entry sequence backing this map.
    pub closed spec fn entries_view(self) -> Seq<(u8, T)> {
        self.entries@
    }

    /// The backing sequence is sorted with strictly increasing keys.
    pub open spec fn wf(self) -> bool {
        strictly_sorted(self.entries_view())
    }

    /// An empty `IntMap`.
    pub fn empty() -> (r: Self)
        ensures
            r.entries_view() == Seq::<(u8, T)>::empty(),
            r.wf(),
            r@ == Map::<u8, T>::empty(),
    {
        IntMap { entries: Vec::new() }
    }

    /// The number of entries in this map.
    pub fn len(&self) -> (n: usize)
        ensures
            n == self.entries_view().len(),
    {
        self.entries.len()
    }

    /// Create an `IntMap` from the given map entries.
    ///
    /// Returns the map exactly when `entries` is ordered with strictly
    /// increasing keys; an out-of-order or duplicate key yields `None`, which
    /// callers treat as fatal, since entry sequences are produced internally
    /// from already-validated data.
    pub fn from_entries(entries: Vec<(u8, T)>) -> (r: Option<Self>)
        ensures
            r matches Some(m) <==> strictly_sorted(entries@),
            r matches Some(m) ==> m.entries_view() == entries@ && m.wf() && m@ == map_of(
                entries@,
            ),
    {
        let n = entries.len();
        if n > 0 {
            let mut prev: u8 = entries[0].0;
            let mut i: usize = 1;
            while i < n
                invariant
                    1 <= i <= n,
                    n == entries@.len(),
                    prev == entries@[i - 1].0,
                    forall|a: int| 0 < a < i ==> entries@[a - 1].0 < #[trigger] entries@[a].0,
                decreases n - i,
            {
                let cur = entries[i].0;
                if cur <= prev {
                    assert(!strictly_sorted(entries@)) by {
                        assert(entries@[i - 1].0 >= entries@[i as int].0);
                    }
                    return None;
                }
                prev = cur;
                i += 1;
            }
            proof {
                lemma_adjacent_implies_sorted(entries@);
            }
        }
        Some(IntMap { entries })
    }

    /// Lookup a value by the given key.
    ///
    /// Returns the value associated with `k` in the map view, and nothing
    /// exactly when `k` is not a key of the map.
    pub fn get<'a>(&'a self, k: u8) -> (r: Option<&'a T>)
        requires
            self.wf(),
        ensures
            match r {
                Some(v) => self@.dom().contains(k) && self@[k] == *v,
                None => !self@.dom().contains(k),
            },
    {
        match find_index(&self.entries, k) {
            Some(i) => {
                proof {
                    lemma_map_of_entry(self.entries@, i as int);
                }
                Some(&self.entries[i].1)
            },
            None => {
                proof {
                    lemma_map_of_domain(self.entries@);
                }
                None
            },
        }
    }

    /// The entry at position `i`, in ascending key order.
    pub fn entry_at<'a>(&'a self, i: usize) -> (r: (u8, &'a T))
        requires
            i < self.entries_view().len(),
        ensures
            r.0 == self.entries_view()[i as int].0,
            *r.1 == self.entries_view()[i as int].1,
    {
        let e = &self.entries[i];
        (e.0, &e.1)
    }

    /// Returns an iterator over the entries of this map.
    pub fn iter<'a>(&'a self) -> (r: IntMapIter<'a, T>)
        ensures
            r.map == self,
            r.pos == 0,
    {
        IntMapIter { map: self, pos: 0 }
    }
}

/// An iterator over an [`IntMap`], yielding entries in ascending key order.
pub struct IntMapIter<'a, T> {
    /// The map being walked.
    pub map: &'a IntMap<T>,
    /// The position of the next entry to yield.
    pub pos: usize,
}

impl<'a, T> IntMapIter<'a, T> {
    /// The next entry of the map, or nothing once all entries were yielded.
    pub fn next(&mut self) -> (r: Option<(u8, &'a T)>)
        ensures
            final(self).map == old(self).map,
            old(self).pos < old(self).map.entries_view().len() ==> {
                &&& final(self).pos == old(self).pos + 1
                &&& r matches Some(e) && e.0 == old(self).map.entries_view()[old(
                    self,
                ).pos as int].0 && *e.1 == old(self).map.entries_view()[old(self).pos as int].1
            },
            old(self).pos >= old(self).map.entries_view().len() ==> r is None && final(self).pos
                == old(self).pos,
    {
        if self.pos < self.map.entries.len() {
            let e = &self.map.entries[self.pos];
            self.pos = self.pos + 1;
            Some((e.0, &e.1))
        } else {
            None
        }
    }
}

/// An owned, mutable version of [`IntMap`], preserving the same sorted,
/// duplicate-free invariant across insertions.
#[derive(Debug)]
pub struct OwnedIntMap<T> {
    entries: Vec<(u8, T)>,
}

impl<T> View for OwnedIntMap<T> {
    type V = Map<u8, T>;

    closed spec fn view(&self) -> Map<u8, T> {
        map_of(self.entries@)
    }
}

/// Replacing the value at an existing key position rewrites exactly that
/// key's association in the map view.
proof fn lemma_map_of_update<T>(s: Seq<(u8, T)>, i: int, v: T)
    requires
        forall|a: int, b: int| 0 <= a < b < s.len() ==> s[a].0 != s[b].0,
        0 <= i < s.len(),
    ensures
        map_of(s.update(i, (s[i].0, v))) == map_of(s).insert(s[i].0, v),
    decreases s.len(),
{
    let t = s.update(i, (s[i].0, v));
    if i == s.len() - 1 {
        assert(t.drop_last() =~= s.drop_last());
        assert(map_of(t) =~= map_of(s).insert(s[i].0, v));
    } else {
        assert(t.drop_last() =~= s.drop_last().update(i, (s[i].0, v)));
        assert(s.drop_last()[i] == s[i]);
        lemma_map_of_update(s.drop_last(), i, v);
        assert(s[i].0 != s.last().0);
        assert(map_of(t) =~= map_of(s).insert(s[i].0, v));
    }
}

/// Inserting a fresh key anywhere in the entry sequence adds exactly that
/// association to the map view.
proof fn lemma_map_of_insert<T>(s: Seq<(u8, T)>, i: int, k: u8, v: T)
    requires
        0 <= i <= s.len(),
        !key_in(s, k),
    ensures
        map_of(s.insert(i, (k, v))) == map_of(s).insert(k, v),
    decreases s.len(),
{
    let t = s.insert(i, (k, v));
    if i == s.len() {
        assert(t.drop_last() =~= s);
    } else {
        assert(t.len() == s.len() + 1);
        assert(t.last() == s.last());
        assert(t.drop_last() =~= s.drop_last().insert(i, (k, v)));
        assert(!key_in(s.drop_last(), k)) by {
            assert forall|j: int| 0 <= j < s.drop_last().len() implies s.drop_last()[j].0 != k by {
                assert(s[j].0 != k);
            }
        }
        lemma_map_of_insert(s.drop_last(), i, k, v);
        assert(s.last().0 != k) by {
            assert(s[s.len() - 1].0 != k);
        }
        assert(map_of(t) =~= map_of(s).insert(k, v));
    }
}

impl<T> OwnedIntMap<T> {
    /// The entry sequence backing this map.
    pub closed spec fn entries_view(self) -> Seq<(u8, T)> {
        self.entries@
    }

    /// The backing sequence is sorted with strictly increasing keys.
    pub open spec fn wf(self) -> bool {
        strictly_sorted(self.entries_view())
    }

    /// A new, empty map.
    pub fn new() -> (r: Self)
        ensures
            r.entries_view() == Seq::<(u8, T)>::empty(),
            r.wf(),
            r@ == Map::<u8, T>::empty(),
    {
        OwnedIntMap { entries: Vec::new() }
    }

    /// The number of entries in this map.
    pub fn len(&self) -> (n: usize)
        ensures
            n == self.entries_view().len(),
    {
        self.entries.len()
    }

    /// Lookup a value by the given key.
    pub fn get<'a>(&'a self, k: u8) -> (r: Option<&'a T>)
        requires
            self.wf(),
        ensures
            match r {
                Some(v) => self@.dom().contains(k) && self@[k] == *v,
                None => !self@.dom().contains(k),
            },
    {
        match find_index(&self.entries, k) {
            Some(i) => {
                proof {
                    lemma_map_of_entry(self.entries@, i as int);
                }
                Some(&self.entries[i].1)
            },
            None => {
                proof {
                    lemma_map_of_domain(self.entries@);
                }
                None
            },
        }
    }

    /// Insert a new entry into the map, returning the previous value at
    /// `key` if it existed.
    ///
    /// A present key keeps the map's length unchanged and has its prior
    /// value handed back; a fresh key grows the map by one entry, placed so
    /// that sortedness is preserved.
    pub fn insert(&mut self, key: u8, val: T) -> (prev: Option<T>)
        requires
            old(self).wf(),
        ensures
            final(self).wf(),
            final(self)@ == old(self)@.insert(key, val),
            match prev {
                Some(p) => old(self)@.contains_pair(key, p) && final(self).entries_view().len()
                    == old(self).entries_view().len(),
                None => !old(self)@.dom().contains(key) && final(self).entries_view().len() == old(
                    self,
                ).entries_view().len() + 1,
            },
    {
        let (i, found) = find_slot(&self.entries, key);
        if found {
            let ghost s = self.entries@;
            let removed = self.entries.remove(i);
            self.entries.insert(i, (key, val));
            proof {
                assert(self.entries@ =~= s.update(i as int, (key, val)));
                lemma_map_of_update(s, i as int, val);
                lemma_map_of_entry(s, i as int);
            }
            Some(removed.1)
        } else {
            let ghost s = self.entries@;
            self.entries.insert(i, (key, val));
            proof {
                let t = self.entries@;
                assert forall|a: int, b: int| 0 <= a < b < t.len() implies t[a].0 < t[b].0 by {
                    if b < i {
                        assert(t[a] == s[a] && t[b] == s[b]);
                    } else if a < i && b == i {
                        assert(t[a] == s[a]);
                    } else if a < i && b > i {
                        assert(t[a] == s[a] && t[b] == s[b - 1]);
                    } else if a == i {
                        assert(t[b] == s[b - 1]);
                    } else {
                        assert(t[a] == s[a - 1] && t[b] == s[b - 1]);
                    }
                }
                assert forall|j: int| 0 <= j < s.len() implies s[j].0 != key by {
                    if j < i {
                        assert(s[j].0 < key);
                    } else {
                        assert(s[j].0 > key);
                    }
                }
                assert(!key_in(s, key));
                lemma_map_of_domain(s);
                lemma_map_of_insert(s, i as int, key, val);
            }
            None
        }
    }

    /// Add every pair of `pairs` to the map, in order, so that on equal keys
    /// the last pair wins; sortedness is re-established after each addition.
    pub fn extend(&mut self, pairs: Vec<(u8, T)>)
        requires
            old(self).wf(),
        ensures
            final(self).wf(),
            final(self)@ == insert_all(old(self)@, pairs@),
    {
        let ghost all = pairs@;
        let mut rest = pairs;
        proof {
            assert(rest@ =~= all);
        }
        while rest.len() > 0
            invariant
                self.wf(),
                insert_all(old(self)@, all) == insert_all(self@, rest@),
            decreases rest.len(),
        {
            let ghost before = rest@;
            let p = rest.remove(0);
            self.insert(p.0, p.1);
            proof {
                assert(rest@ =~= before.drop_first());
            }
        }
    }

    /// Build a map from an arbitrary, possibly unordered sequence of pairs;
    /// on duplicate keys the last pair wins.
    pub fn from_pairs(pairs: Vec<(u8, T)>) -> (r: Self)
        ensures
            r.wf(),
            r@ == insert_all(Map::<u8, T>::empty(), pairs@),
    {
        let mut m = Self::new();
        m.extend(pairs);
        m
    }

    /// Convert this map into its immutable counterpart, keeping the same
    /// entries.
    pub fn into_int_map(self) -> (r: IntMap<T>)
        requires
            self.wf(),
        ensures
            r.wf(),
            r.entries_view() == self.entries_view(),
            r@ == self@,
    {
        IntMap { entries: self.entries }
    }
}

} // verus!
