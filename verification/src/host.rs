//! The host side of the boundary, and the bridge over its three storage
//! primitives.
//!
//! The boundary offers exactly three imported calls — `put`, `get` and
//! `delete` — whose arguments and results cross as packed pointers and
//! sentinel words. [`HostStore`] is a verified reference model of the
//! host's side of that contract: it keeps the persisted map, answers the
//! three calls with the documented sentinel convention, and places `get`
//! results into guest memory exactly as the protocol prescribes (the
//! host allocates a guest block, fills it, and hands back a packed
//! pointer whose ownership transfers to the guest). The bridge functions
//! below translate between in-process values and that call surface.
//!
//! Sentinel convention, used consistently throughout: status calls
//! (`put`, `delete`) return `0` for success and a nonzero word for
//! failure; `get` returns `0` (the null packed pointer, which names no
//! block) for "not found" and a nonzero packed pointer on success.

use vstd::prelude::*;

use crate::kv::{copy_bytes, KvList};
use crate::memory::{
    alloc_span, allocate, pack_word, to_smart_ptr, unpack_addr, unpack_len, GuestHeap, Memory,
    Pointer, SmartPtr,
};
use crate::memory::{lemma_nonzero_addr_packs_nonzero, lemma_smart_ptr_round_trip};
use crate::program::Program;
use crate::state::{Error, Key};

verus! {

/// Whether some entry of `d` holds exactly the bytes `k`.
spec fn denied_seq_has(d: Seq<Vec<u8>>, k: Seq<u8>) -> bool {
    exists|i: int| 0 <= i < d.len() && d[i]@ == k
}

proof fn lemma_denied_push(d: Seq<Vec<u8>>, x: Vec<u8>, k: Seq<u8>)
    ensures
        denied_seq_has(d.push(x), k) == (denied_seq_has(d, k) || x@ == k),
{
    if denied_seq_has(d, k) {
        let i = choose|i: int| 0 <= i < d.len() && d[i]@ == k;
        assert(d.push(x)[i]@ == k);
    }
    if x@ == k {
        assert(d.push(x)[d.len() as int]@ == k);
    }
    if denied_seq_has(d.push(x), k) {
        let i = choose|i: int| 0 <= i < d.push(x).len() && d.push(x)[i]@ == k;
        if i < d.len() {
            assert(d[i]@ == k);
        }
    }
}

/// A reference model of the host's storage capability.
///
/// Keys and values are uninterpreted byte sequences; the model does not
/// namespace by caller identity, which it receives and ignores as the
/// real host's storage engine is out of scope. A configurable set of
/// denied keys lets a session observe write and delete failures; `get`
/// calls are counted so that a caller can state that an operation made
/// no boundary crossing.
pub struct HostStore {
    entries: KvList,
    denied: Vec<Vec<u8>>,
    get_calls: u64,
}

impl HostStore {
    /// The persisted key/value map.
    pub closed spec fn map(self) -> Map<Seq<u8>, Seq<u8>> {
        self.entries.as_map()
    }

    /// Whether the host refuses writes and deletes for `k`.
    pub closed spec fn denies(self, k: Seq<u8>) -> bool {
        denied_seq_has(self.denied@, k)
    }

    /// How many `get` calls the host has answered.
    pub closed spec fn gets(self) -> u64 {
        self.get_calls
    }

    /// Well-formed: the underlying storage keeps one entry per key.
    pub closed spec fn wf(self) -> bool {
        self.entries.wf()
    }

    /// An empty host: nothing stored, nothing denied, no calls made.
    pub fn new() -> (h: HostStore)
        ensures
            h.wf(),
            h.map() == Map::<Seq<u8>, Seq<u8>>::empty(),
            forall|k: Seq<u8>| !h.denies(k),
            h.gets() == 0,
    {
        let h = HostStore { entries: KvList::new(), denied: Vec::new(), get_calls: 0 };
        proof {
            assert(forall|k: Seq<u8>| !h.denies(k));
        }
        h
    }

    /// Makes the host refuse every later write or delete of `key`.
    pub fn deny(&mut self, key: Vec<u8>)
        ensures
            final(self).wf() == old(self).wf(),
            final(self).map() == old(self).map(),
            final(self).gets() == old(self).gets(),
            forall|k: Seq<u8>| final(self).denies(k) == (old(self).denies(k) || k == key@),
    {
        let ghost d0 = self.denied@;
        self.denied.push(key);
        proof {
            assert forall|k: Seq<u8>|
                self.denies(k) == (old(self).denies(k) || k == key@) by {
                if old(self).denies(k) {
                    let i = choose|i: int| 0 <= i < d0.len() && d0[i]@ == k;
                    assert(self.denied@[i]@ == k);
                }
                if k == key@ {
                    assert(self.denied@[d0.len() as int]@ == k);
                }
                if self.denies(k) {
                    let i = choose|i: int| 0 <= i < self.denied@.len() && self.denied@[i]@ == k;
                    if i < d0.len() {
                        assert(d0[i]@ == k);
                    }
                }
            }
        }
    }

    /// Lets the host accept `key` again, undoing [`HostStore::deny`]: a
    /// failed flush can then be retried.
    pub fn allow(&mut self, key: &[u8])
        ensures
            final(self).wf() == old(self).wf(),
            final(self).map() == old(self).map(),
            final(self).gets() == old(self).gets(),
            forall|k: Seq<u8>|
                final(self).denies(k) == (old(self).denies(k) && k != key@),
    {
        let ghost d0 = self.denied@;
        let mut kept: Vec<Vec<u8>> = Vec::new();
        let mut i: usize = 0;
        while i < self.denied.len()
            invariant
                i <= self.denied@.len(),
                self.denied@ == d0,
                forall|k: Seq<u8>|
                    denied_seq_has(kept@, k) == (denied_seq_has(d0.take(i as int), k) && k
                        != key@),
            decreases self.denied@.len() - i,
        {
            let ghost kept0 = kept@;
            let keep = !crate::kv::bytes_eq(self.denied[i].as_slice(), key);
            if keep {
                let entry = crate::kv::copy_bytes(self.denied[i].as_slice());
                kept.push(entry);
            }
            proof {
                assert(d0.take(i as int + 1) =~= d0.take(i as int).push(d0[i as int]));
                assert forall|k: Seq<u8>|
                    denied_seq_has(kept@, k) == (denied_seq_has(d0.take(i as int + 1), k) && k
                        != key@) by {
                    lemma_denied_push(d0.take(i as int), d0[i as int], k);
                    if keep {
                        assert(kept@ =~= kept0.push(kept@.last()));
                        lemma_denied_push(kept0, kept@.last(), k);
                    }
                }
            }
            i += 1;
        }
        proof {
            assert(d0.take(d0.len() as int) =~= d0);
        }
        self.denied = kept;
    }

    /// Whether `k` is in the denied set.
    fn is_denied(&self, k: &[u8]) -> (r: bool)
        ensures
            r == self.denies(k@),
    {
        let n = self.denied.len();
        let mut i: usize = 0;
        while i < n
            invariant
                i <= n,
                n == self.denied@.len(),
                forall|j: int| 0 <= j < i ==> self.denied@[j]@ != k@,
            decreases n - i,
        {
            if crate::kv::bytes_eq(self.denied[i].as_slice(), k) {
                return true;
            }
            i += 1;
        }
        false
    }

    /// The imported `put` call: persists `value` under `key`. Returns
    /// the `0` status word on success and `1` where the host refuses the
    /// write.
    pub fn put(&mut self, caller: &[u8], key: &[u8], value: &[u8]) -> (status: i64)
        requires
            old(self).wf(),
        ensures
            final(self).wf(),
            final(self).gets() == old(self).gets(),
            forall|k: Seq<u8>| final(self).denies(k) == old(self).denies(k),
            old(self).denies(key@) ==> status == 1 && final(self).map() == old(self).map(),
            !old(self).denies(key@) ==> status == 0 && final(self).map() == old(self).map().insert(
                key@,
                value@,
            ),
    {
        if self.is_denied(key) {
            1
        } else {
            let k = copy_bytes(key);
            let v = copy_bytes(value);
            self.entries.insert(k, v);
            0
        }
    }

    /// The imported `delete` call: removes `key`. Deleting an absent key
    /// succeeds; a denied key fails with status `1`.
    pub fn delete(&mut self, caller: &[u8], key: &[u8]) -> (status: i64)
        requires
            old(self).wf(),
        ensures
            final(self).wf(),
            final(self).gets() == old(self).gets(),
            forall|k: Seq<u8>| final(self).denies(k) == old(self).denies(k),
            old(self).denies(key@) ==> status == 1 && final(self).map() == old(self).map(),
            !old(self).denies(key@) ==> status == 0 && final(self).map() == old(self).map().remove(
                key@,
            ),
    {
        if self.is_denied(key) {
            1
        } else {
            self.entries.remove(key);
            0
        }
    }

    /// The imported `get` call: looks `key` up and, on success, places
    /// the value into a freshly allocated guest block whose ownership
    /// transfers to the guest, returning its packed pointer. Returns the
    /// null word where the key is absent.
    pub fn get(&mut self, heap: &mut GuestHeap, caller: &[u8], key: &[u8]) -> (w: SmartPtr)
        requires
            old(self).wf(),
            old(heap).wf(),
            old(self).gets() < u64::MAX,
            old(self).map().contains_key(key@) ==> old(heap).next() + old(self).map()[key@].len()
                < 0x1_0000_0000,
        ensures
            final(self).wf(),
            final(heap).wf(),
            final(self).map() == old(self).map(),
            forall|k: Seq<u8>| final(self).denies(k) == old(self).denies(k),
            final(self).gets() == old(self).gets() + 1,
            !old(self).map().contains_key(key@) ==> w == 0 && *final(heap) == *old(heap),
            old(self).map().contains_key(key@) ==> {
                let v = old(self).map()[key@];
                &&& w != 0
                &&& w == pack_word(old(heap).next(), v.len() as u64)
                &&& unpack_addr(w) == old(heap).next()
                &&& unpack_len(w) == v.len()
                &&& final(heap).live_at(unpack_addr(w)) == Some(v)
                &&& forall|a: u64|
                    a != unpack_addr(w) ==> final(heap).live_at(a) == old(heap).live_at(a)
                &&& final(heap).next() == old(heap).next() + alloc_span(v.len() as int)
                &&& old(heap).next() + v.len() <= final(heap).next() <= old(heap).next() + v.len()
                    + 1
            },
    {
        self.get_calls = self.get_calls + 1;
        match self.entries.lookup(key) {
            None => 0,
            Some(v) => {
                proof {
                    old(heap).lemma_wf_next();
                }
                let addr = allocate(heap, v.len());
                let mem = Memory::new(Pointer::new(addr));
                mem.write(heap, v.as_slice());
                proof {
                    let zeros = Seq::new(v@.len(), |i: int| 0u8);
                    assert(v@ + zeros.skip(v@.len() as int) =~= v@);
                }
                let w = match to_smart_ptr(addr, v.len() as u64) {
                    Ok(w) => w,
                    Err(_) => {
                        proof {
                            assert(false);
                        }
                        0
                    },
                };
                proof {
                    lemma_smart_ptr_round_trip(addr, v.len() as u64);
                    lemma_nonzero_addr_packs_nonzero(addr, v.len() as u64);
                }
                w
            },
        }
    }

    /// How many `get` calls the host has answered so far.
    #[must_use]
    pub fn get_call_count(&self) -> (n: u64)
        ensures
            n == self.gets(),
    {
        self.get_calls
    }
}

/// Persists `value` under `key` through the imported `put` call, mapping
/// the failure sentinel to [`Error::Write`]. Argument buffers are
/// borrowed by the host for the duration of the call only.
pub(crate) fn put_bytes(host: &mut HostStore, caller: &Program, key: &Key, value: &Vec<u8>) -> (r:
    Result<(), Error>)
    requires
        old(host).wf(),
    ensures
        final(host).wf(),
        final(host).gets() == old(host).gets(),
        forall|k: Seq<u8>| final(host).denies(k) == old(host).denies(k),
        old(host).denies(key@) ==> r == Err::<(), Error>(Error::Write) && final(host).map() == old(
            host,
        ).map(),
        !old(host).denies(key@) ==> r == Ok::<(), Error>(()) && final(host).map() == old(
            host,
        ).map().insert(key@, value@),
{
    let status = host.put(caller.id().as_slice(), key.as_bytes().as_slice(), value.as_slice());
    if status == 0 {
        Ok(())
    } else {
        Err(Error::Write)
    }
}

/// Removes `key` through the imported `delete` call, mapping the failure
/// sentinel to [`Error::Delete`].
pub(crate) fn delete_bytes(host: &mut HostStore, caller: &Program, key: &Key) -> (r: Result<
    (),
    Error,
>)
    requires
        old(host).wf(),
    ensures
        final(host).wf(),
        final(host).gets() == old(host).gets(),
        forall|k: Seq<u8>| final(host).denies(k) == old(host).denies(k),
        old(host).denies(key@) ==> r == Err::<(), Error>(Error::Delete) && final(host).map() == old(
            host,
        ).map(),
        !old(host).denies(key@) ==> r == Ok::<(), Error>(()) && final(host).map() == old(
            host,
        ).map().remove(key@),
{
    let status = host.delete(caller.id().as_slice(), key.as_bytes().as_slice());
    if status == 0 {
        Ok(())
    } else {
        Err(Error::Delete)
    }
}

/// Looks `key` up through the imported `get` call and returns the raw
/// packed-pointer word the host answered with; the null word means the
/// key is absent. On success the word names a host-populated guest block
/// that the caller must copy out and release.
pub(crate) fn get_bytes(host: &mut HostStore, heap: &mut GuestHeap, caller: &Program, key: &Key) -> (r:
    Result<SmartPtr, Error>)
    requires
        old(host).wf(),
        old(heap).wf(),
        old(host).gets() < u64::MAX,
        old(host).map().contains_key(key@) ==> old(heap).next() + old(host).map()[key@].len()
            < 0x1_0000_0000,
    ensures
        final(host).wf(),
        final(heap).wf(),
        final(host).map() == old(host).map(),
        forall|k: Seq<u8>| final(host).denies(k) == old(host).denies(k),
        final(host).gets() == old(host).gets() + 1,
        r matches Ok(w) && (!old(host).map().contains_key(key@) ==> w == 0 && *final(heap) == *old(
            heap,
        )) && (old(host).map().contains_key(key@) ==> {
            let v = old(host).map()[key@];
            &&& w != 0
            &&& unpack_addr(w) == old(heap).next()
            &&& unpack_len(w) == v.len()
            &&& final(heap).live_at(unpack_addr(w)) == Some(v)
            &&& forall|a: u64|
                a != unpack_addr(w) ==> final(heap).live_at(a) == old(heap).live_at(a)
            &&& old(heap).next() + v.len() <= final(heap).next() <= old(heap).next() + v.len() + 1
        }),
{
    let w = host.get(heap, caller.id().as_slice(), key.as_bytes().as_slice());
    Ok(w)
}

} // verus!
