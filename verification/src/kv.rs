//! A verified association list from byte keys to byte values.
//!
//! Both partitions of the session cache and the storage of the host model
//! are instances of [`KvList`]. The list keeps at most one entry per key;
//! its abstract value is a `Map<Seq<u8>, Seq<u8>>`, and, where order
//! matters (the flush loop), the sequence of entries is exposed as well.

use vstd::prelude::*;

verus! {

/// The view of one entry: key bytes and value bytes.
pub type PairView = (Seq<u8>, Seq<u8>);

/// The sequence of views of a sequence of entries.
pub open spec fn pair_views(s: Seq<(Vec<u8>, Vec<u8>)>) -> Seq<PairView> {
    s.map_values(|p: (Vec<u8>, Vec<u8>)| (p.0@, p.1@))
}

/// Folds a sequence of pairs into a map, front to back: a later entry for
/// a key overwrites an earlier one.
pub open spec fn put_all(m: Map<Seq<u8>, Seq<u8>>, s: Seq<PairView>) -> Map<Seq<u8>, Seq<u8>>
    decreases s.len(),
{
    if s.len() == 0 {
        m
    } else {
        put_all(m, s.drop_last()).insert(s.last().0, s.last().1)
    }
}

/// The map that a sequence of pairs denotes.
pub open spec fn kv_map(s: Seq<PairView>) -> Map<Seq<u8>, Seq<u8>> {
    put_all(Map::empty(), s)
}

/// The value the fold assigns to `k`: that of the last pair whose key is
/// `k`, if any.
pub open spec fn seq_lookup(s: Seq<PairView>, k: Seq<u8>) -> Option<Seq<u8>>
    decreases s.len(),
{
    if s.len() == 0 {
        None
    } else if s.last().0 == k {
        Some(s.last().1)
    } else {
        seq_lookup(s.drop_last(), k)
    }
}

/// `put_all` answers lookups by `seq_lookup`, falling back to the initial
/// map where the sequence has no pair for the key.
pub proof fn lemma_put_all_lookup(m: Map<Seq<u8>, Seq<u8>>, s: Seq<PairView>, k: Seq<u8>)
    ensures
        seq_lookup(s, k) matches Some(v) ==> put_all(m, s).contains_key(k) && put_all(m, s)[k]
            == v,
        seq_lookup(s, k) is None ==> put_all(m, s).contains_key(k) == m.contains_key(k) && (
        m.contains_key(k) ==> put_all(m, s)[k] == m[k]),
    decreases s.len(),
{
    if s.len() > 0 {
        lemma_put_all_lookup(m, s.drop_last(), k);
    }
}

/// Distinct keys in `s`: no two pairs share a key.
pub open spec fn distinct_keys(s: Seq<PairView>) -> bool {
    forall|i: int, j: int| 0 <= i < j < s.len() ==> s[i].0 != s[j].0
}

/// Updating the pair at a position whose key occurs nowhere else changes
/// the fold like an insert of the new value.
pub proof fn lemma_put_all_update(m: Map<Seq<u8>, Seq<u8>>, s: Seq<PairView>, i: int, v: Seq<u8>)
    requires
        0 <= i < s.len(),
        forall|j: int| 0 <= j < s.len() && j != i ==> s[j].0 != s[i].0,
    ensures
        put_all(m, s.update(i, (s[i].0, v))) == put_all(m, s).insert(s[i].0, v),
    decreases s.len(),
{
    let t = s.update(i, (s[i].0, v));
    if i == s.len() - 1 {
        assert(t.drop_last() =~= s.drop_last());
        assert(put_all(m, t) =~= put_all(m, s).insert(s[i].0, v));
    } else {
        assert(t.drop_last() =~= s.drop_last().update(i, (s[i].0, v)));
        lemma_put_all_update(m, s.drop_last(), i, v);
        assert(put_all(m, t) =~= put_all(m, s).insert(s[i].0, v));
    }
}

/// Removing the pair at a position whose key occurs nowhere else changes
/// the fold like a removal of that key.
pub proof fn lemma_put_all_remove(m: Map<Seq<u8>, Seq<u8>>, s: Seq<PairView>, i: int)
    requires
        0 <= i < s.len(),
        forall|j: int| 0 <= j < s.len() && j != i ==> s[j].0 != s[i].0,
        !m.contains_key(s[i].0),
    ensures
        put_all(m, s.remove(i)) == put_all(m, s).remove(s[i].0),
    decreases s.len(),
{
    let t = s.remove(i);
    if i == s.len() - 1 {
        assert(t =~= s.drop_last());
        lemma_put_all_lookup(m, s.drop_last(), s[i].0);
        lemma_put_all_absent_key(m, s.drop_last(), s[i].0);
        assert(put_all(m, t) =~= put_all(m, s).remove(s[i].0));
    } else {
        assert(t.drop_last() =~= s.drop_last().remove(i));
        lemma_put_all_remove(m, s.drop_last(), i);
        assert(put_all(m, t) =~= put_all(m, s).remove(s[i].0));
    }
}

/// A key no pair of `s` holds is in the fold exactly as in the initial
/// map.
pub proof fn lemma_put_all_absent_key(m: Map<Seq<u8>, Seq<u8>>, s: Seq<PairView>, k: Seq<u8>)
    requires
        forall|j: int| 0 <= j < s.len() ==> s[j].0 != k,
    ensures
        put_all(m, s).contains_key(k) == m.contains_key(k),
        m.contains_key(k) ==> put_all(m, s)[k] == m[k],
    decreases s.len(),
{
    if s.len() > 0 {
        lemma_put_all_absent_key(m, s.drop_last(), k);
    }
}

/// Compares two byte slices by content.
pub fn bytes_eq(a: &[u8], b: &[u8]) -> (r: bool)
    ensures
        r == (a@ == b@),
{
    if a.len() != b.len() {
        assert(a@.len() != b@.len());
        return false;
    }
    let n = a.len();
    let mut i: usize = 0;
    while i < n
        invariant
            n == a@.len() == b@.len(),
            0 <= i <= n,
            forall|j: int| 0 <= j < i ==> a@[j] == b@[j],
        decreases n - i,
    {
        if a[i] != b[i] {
            return false;
        }
        i += 1;
    }
    assert(a@ =~= b@);
    true
}

/// Copies a byte slice into a fresh vector.
pub fn copy_bytes(v: &[u8]) -> (r: Vec<u8>)
    ensures
        r@ == v@,
{
    let mut r: Vec<u8> = Vec::new();
    let n = v.len();
    let mut i: usize = 0;
    while i < n
        invariant
            n == v@.len(),
            0 <= i <= n,
            r@ =~= v@.take(i as int),
        decreases n - i,
    {
        r.push(v[i]);
        i += 1;
    }
    assert(r@ =~= v@);
    r
}

/// An association list with at most one entry per key.
pub struct KvList {
    entries: Vec<(Vec<u8>, Vec<u8>)>,
}

impl View for KvList {
    type V = Seq<PairView>;

    closed spec fn view(&self) -> Seq<PairView> {
        pair_views(self.entries@)
    }
}

impl KvList {
    /// Well-formed: no two entries share a key.
    pub open spec fn wf(self) -> bool {
        distinct_keys(self@)
    }

    /// The map this list denotes.
    pub open spec fn as_map(self) -> Map<Seq<u8>, Seq<u8>> {
        kv_map(self@)
    }

    /// An empty list.
    pub fn new() -> (r: KvList)
        ensures
            r@ == Seq::<PairView>::empty(),
            r.as_map() == Map::<Seq<u8>, Seq<u8>>::empty(),
            r.wf(),
    {
        let r = KvList { entries: Vec::new() };
        proof {
            assert(r@ =~= Seq::<PairView>::empty());
        }
        r
    }

    /// The number of entries.
    pub fn len(&self) -> (n: usize)
        ensures
            n == self@.len(),
    {
        self.entries.len()
    }

    /// Whether the list is empty.
    pub fn is_empty(&self) -> (r: bool)
        ensures
            r == (self@.len() == 0),
    {
        self.entries.len() == 0
    }

    /// The position of the entry for `k`, if one exists.
    fn find(&self, k: &[u8]) -> (r: Option<usize>)
        requires
            self.wf(),
        ensures
            r matches Some(i) ==> 0 <= i < self@.len() && self@[i as int].0 == k@,
            r is None ==> forall|j: int| 0 <= j < self@.len() ==> self@[j].0 != k@,
    {
        let n = self.entries.len();
        let mut i: usize = 0;
        while i < n
            invariant
                n == self@.len(),
                0 <= i <= n,
                self@.len() == self.entries@.len(),
                forall|j: int| 0 <= j < self@.len() ==> self@[j] == (
                self.entries@[j].0@,
                self.entries@[j].1@,
                ),
                forall|j: int| 0 <= j < i ==> self@[j].0 != k@,
            decreases n - i,
        {
            if bytes_eq(self.entries[i].0.as_slice(), k) {
                return Some(i);
            }
            i += 1;
        }
        None
    }

    /// The value stored for `k`, if any, as a fresh vector.
    pub fn lookup(&self, k: &[u8]) -> (r: Option<Vec<u8>>)
        requires
            self.wf(),
        ensures
            r matches Some(v) ==> self.as_map().contains_key(k@) && v@ == self.as_map()[k@],
            r is None ==> !self.as_map().contains_key(k@),
    {
        match self.find(k) {
            Some(i) => {
                proof {
                    lemma_kv_index(self@, i as int);
                }
                Some(copy_bytes(self.entries[i].1.as_slice()))
            },
            None => {
                proof {
                    lemma_put_all_absent_key(Map::empty(), self@, k@);
                }
                None
            },
        }
    }

    /// Whether the list holds an entry for `k`.
    pub fn contains(&self, k: &[u8]) -> (r: bool)
        requires
            self.wf(),
        ensures
            r == self.as_map().contains_key(k@),
    {
        match self.find(k) {
            Some(i) => {
                proof {
                    lemma_kv_index(self@, i as int);
                }
                true
            },
            None => {
                proof {
                    lemma_put_all_absent_key(Map::empty(), self@, k@);
                }
                false
            },
        }
    }

    /// Stores `v` under `k`, overwriting any earlier entry for `k` in
    /// place; a fresh key is appended at the end.
    pub fn insert(&mut self, k: Vec<u8>, v: Vec<u8>)
        requires
            old(self).wf(),
        ensures
            final(self).wf(),
            final(self).as_map() == old(self).as_map().insert(k@, v@),
            !old(self).as_map().contains_key(k@) ==> final(self)@ == old(self)@.push((k@, v@)),
            old(self).as_map().contains_key(k@) ==> exists|i: int|
                0 <= i < old(self)@.len() && old(self)@[i].0 == k@ && final(self)@ == old(
                self,
                )@.update(i, (k@, v@)),
    {
        let ghost s0 = self@;
        match self.find(&k) {
            Some(i) => {
                proof {
                    lemma_kv_index(s0, i as int);
                }
                self.entries[i] = (k, v);
                proof {
                    assert(self@ =~= s0.update(i as int, (k@, v@)));
                    lemma_put_all_update(Map::empty(), s0, i as int, v@);
                }
            },
            None => {
                proof {
                    lemma_put_all_absent_key(Map::empty(), s0, k@);
                }
                self.entries.push((k, v));
                proof {
                    assert(self@ =~= s0.push((k@, v@)));
                    assert(self@.drop_last() =~= s0);
                }
            },
        }
    }

    /// Removes the entry for `k`, if one exists.
    pub fn remove(&mut self, k: &[u8])
        requires
            old(self).wf(),
        ensures
            final(self).wf(),
            final(self).as_map() == old(self).as_map().remove(k@),
            !old(self).as_map().contains_key(k@) ==> final(self)@ == old(self)@,
            old(self).as_map().contains_key(k@) ==> exists|i: int|
                0 <= i < old(self)@.len() && old(self)@[i].0 == k@ && final(self)@ == old(
                self,
                )@.remove(i),
    {
        let ghost s0 = self@;
        match self.find(k) {
            Some(i) => {
                proof {
                    lemma_kv_index(s0, i as int);
                }
                self.entries.remove(i);
                proof {
                    assert(self@ =~= s0.remove(i as int));
                    lemma_put_all_remove(Map::empty(), s0, i as int);
                }
            },
            None => {
                proof {
                    lemma_put_all_absent_key(Map::empty(), s0, k@);
                    assert(old(self).as_map().remove(k@) =~= old(self).as_map());
                }
            },
        }
    }

    /// A copy of the first entry, if any.
    pub fn head(&self) -> (r: Option<(Vec<u8>, Vec<u8>)>)
        ensures
            self@.len() > 0 ==> (r matches Some(p) && p.0@ == self@[0].0 && p.1@ == self@[0].1),
            self@.len() == 0 ==> r is None,
    {
        if self.entries.len() == 0 {
            None
        } else {
            let k = copy_bytes(self.entries[0].0.as_slice());
            let v = copy_bytes(self.entries[0].1.as_slice());
            Some((k, v))
        }
    }

    /// Drops the first entry.
    pub fn remove_head(&mut self)
        requires
            old(self).wf(),
            old(self)@.len() > 0,
        ensures
            final(self).wf(),
            final(self)@ == old(self)@.drop_first(),
            final(self).as_map() == old(self).as_map().remove(old(self)@[0].0),
    {
        let ghost s0 = self@;
        self.entries.remove(0);
        proof {
            assert(self@ =~= s0.remove(0));
            assert(s0.remove(0) =~= s0.drop_first());
            lemma_put_all_remove(Map::empty(), s0, 0);
        }
    }
}

/// In a list with distinct keys, the entry at `i` is what the map stores
/// for its key.
pub proof fn lemma_kv_index(s: Seq<PairView>, i: int)
    requires
        distinct_keys(s),
        0 <= i < s.len(),
    ensures
        kv_map(s).contains_key(s[i].0),
        kv_map(s)[s[i].0] == s[i].1,
    decreases s.len(),
{
    if i == s.len() - 1 {
    } else {
        lemma_kv_index(s.drop_last(), i);
        assert(s.drop_last()[i] == s[i]);
        lemma_put_all_lookup(Map::empty(), s, s[i].0);
        lemma_put_all_lookup(Map::empty(), s.drop_last(), s[i].0);
    }
}

} // verus!
