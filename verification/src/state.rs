//! The session-scoped key/value state abstraction and its error taxonomy.
//!
//! A [`State`] is one session over the host's storage: it memoizes what
//! it read, stages what it wrote, and flushes the staged writes to the
//! host exactly once. Its cache is two disjoint partitions — *reads*
//! (values fetched from the host) and *writes* (values staged but not
//! yet durable) — and the writes partition always wins when both hold a
//! key.

use vstd::prelude::*;

use crate::host::{delete_bytes, get_bytes, put_bytes, HostStore};
use crate::kv::{copy_bytes, put_all, KvList, PairView};
use crate::memory::{deallocate, into_bytes, split_smart_ptr, GuestHeap};
use crate::program::Program;

verus! {

/// Every failure a storage or boundary operation can report.
///
/// `Read`, `Write` and `Delete` are host operation failures;
/// `Serialization` and `Deserialization` are codec failures;
/// `IntegerConversion` means an address or length exceeded the 32-bit
/// field of a packed pointer; the `Invalid*` variants describe malformed
/// packed data or malformed tagged-key bytes.
#[derive(Clone, Debug, PartialEq, Eq)]
pub enum Error {
    /// An unclassified error, with a description.
    Other(String),
    /// The bytes do not have the expected format.
    InvalidBytes,
    /// The bytes have an unexpected length.
    InvalidByteLength(usize),
    /// A pointer offset did not refer to a valid location.
    InvalidPointer,
    /// A tagged key carried an unknown leading tag byte.
    InvalidTag(u8),
    /// The host failed to write to storage.
    Write,
    /// The host failed to read from storage.
    Read,
    /// A value could not be serialized.
    Serialization,
    /// Bytes could not be deserialized into the requested value.
    Deserialization,
    /// An address or length does not fit an unsigned 32-bit field.
    IntegerConversion,
    /// The host failed to delete from storage.
    Delete,
}

/// An immutable byte sequence used as a storage key.
///
/// Keys compare by exact byte content; a key is produced either directly
/// from raw bytes or by a canonical encoding of a tagged variant (one
/// leading tag byte followed by the variant's payload bytes).
#[derive(Debug, Default, Clone)]
pub struct Key(Vec<u8>);

impl View for Key {
    type V = Seq<u8>;

    closed spec fn view(&self) -> Seq<u8> {
        self.0@
    }
}

impl Key {
    /// Returns a new `Key` holding exactly `bytes`.
    #[must_use]
    pub fn new(bytes: Vec<u8>) -> (k: Key)
        ensures
            k@ == bytes@,
    {
        Key(bytes)
    }

    /// The bytes of the key.
    #[must_use]
    pub fn as_bytes(&self) -> (r: &Vec<u8>)
        ensures
            r@ == self@,
    {
        &self.0
    }

    /// The key's bytes, consuming the key.
    #[must_use]
    pub fn into_vec(self) -> (v: Vec<u8>)
        ensures
            v@ == self@,
    {
        self.0
    }
}

/// The position of the first staged write whose key the host denies;
/// the length of `ws` when the host denies none of them.
pub open spec fn first_denied_index(host: HostStore, ws: Seq<PairView>) -> int
    decreases ws.len(),
{
    if ws.len() == 0 {
        0
    } else if host.denies(ws[0].0) {
        0
    } else {
        1 + first_denied_index(host, ws.drop_first())
    }
}

proof fn lemma_first_denied(host: HostStore, ws: Seq<PairView>, j: int)
    requires
        0 <= j < ws.len(),
        forall|i: int| 0 <= i < j ==> !host.denies(ws[i].0),
        host.denies(ws[j].0),
    ensures
        first_denied_index(host, ws) == j,
    decreases j,
{
    if j > 0 {
        let t = ws.drop_first();
        assert forall|i: int| 0 <= i < j - 1 implies !host.denies(t[i].0) by {
            assert(t[i] == ws[i + 1]);
        }
        assert(t[j - 1] == ws[j]);
        lemma_first_denied(host, t, j - 1);
    }
}

/// One session over host storage: a read-through, write-back cache tied
/// to the acting program's identity.
///
/// The session must reach a flushed state before it is discarded: call
/// [`State::flush`] (or have the embedding runtime do so at end of
/// scope) and treat a failure there as fatal — a staged write must never
/// be lost silently. Whether that has happened is queryable through
/// [`State::is_flushed`] and [`State::pending_writes`].
pub struct State {
    program: Program,
    reads: KvList,
    writes: KvList,
    flushed: bool,
}

impl State {
    /// The identity of the program this session acts for.
    pub closed spec fn program_id(self) -> Seq<u8> {
        self.program@
    }

    /// The reads partition: values fetched from the host and memoized.
    pub closed spec fn reads_map(self) -> Map<Seq<u8>, Seq<u8>> {
        self.reads.as_map()
    }

    /// The writes partition, as a map.
    pub closed spec fn writes_map(self) -> Map<Seq<u8>, Seq<u8>> {
        self.writes.as_map()
    }

    /// The writes partition, in staging order: the order flushing
    /// reaches the host.
    pub closed spec fn writes_seq(self) -> Seq<PairView> {
        self.writes@
    }

    /// Whether an explicit flush has succeeded and no write has been
    /// staged since.
    pub closed spec fn flushed_spec(self) -> bool {
        self.flushed
    }

    /// The value this session holds for `k` without asking the host:
    /// the staged write if there is one, else the memoized read.
    pub open spec fn cached(self, k: Seq<u8>) -> Option<Seq<u8>> {
        if self.writes_map().contains_key(k) {
            Some(self.writes_map()[k])
        } else if self.reads_map().contains_key(k) {
            Some(self.reads_map()[k])
        } else {
            None
        }
    }

    /// Well-formed: each partition keeps one entry per key, and a
    /// flushed session stages nothing.
    pub closed spec fn wf(self) -> bool {
        &&& self.reads.wf()
        &&& self.writes.wf()
        &&& (self.flushed ==> self.writes@.len() == 0)
    }

    /// A fresh, unflushed session for `program` with an empty cache.
    #[must_use]
    pub fn new(program: Program) -> (s: State)
        ensures
            s.wf(),
            s.program_id() == program@,
            s.reads_map() == Map::<Seq<u8>, Seq<u8>>::empty(),
            s.writes_map() == Map::<Seq<u8>, Seq<u8>>::empty(),
            s.writes_seq() == Seq::<PairView>::empty(),
            !s.flushed_spec(),
    {
        State { program, reads: KvList::new(), writes: KvList::new(), flushed: false }
    }

    /// Whether the session has flushed and staged nothing since.
    #[must_use]
    pub fn is_flushed(&self) -> (r: bool)
        ensures
            r == self.flushed_spec(),
    {
        self.flushed
    }

    /// How many writes are staged and not yet durable.
    #[must_use]
    pub fn pending_writes(&self) -> (n: usize)
        ensures
            n == self.writes_seq().len(),
    {
        self.writes.len()
    }

    /// Stages `value` under `key`, unconditionally overwriting any
    /// earlier staged value for that key. No host call occurs; at the
    /// byte level the operation cannot fail. Staging clears the flushed
    /// marker, so a later end of session flushes this write too.
    pub fn store(&mut self, key: Key, value: Vec<u8>)
        requires
            old(self).wf(),
        ensures
            final(self).wf(),
            final(self).program_id() == old(self).program_id(),
            final(self).reads_map() == old(self).reads_map(),
            final(self).writes_map() == old(self).writes_map().insert(key@, value@),
            final(self).cached(key@) == Some(value@),
            !final(self).flushed_spec(),
            !old(self).writes_map().contains_key(key@) ==> final(self).writes_seq() == old(
                self,
            ).writes_seq().push((key@, value@)),
            old(self).writes_map().contains_key(key@) ==> exists|i: int|
                0 <= i < old(self).writes_seq().len() && old(self).writes_seq()[i].0 == key@
                    && final(self).writes_seq() == old(self).writes_seq().update(
                    i,
                    (key@, value@),
                ),
    {
        let ghost ws0 = self.writes@;
        let k = key.into_vec();
        self.writes.insert(k, value);
        self.flushed = false;
        proof {
            if old(self).writes_map().contains_key(key@) {
                let i = choose|i: int|
                    0 <= i < ws0.len() && ws0[i].0 == key@ && self.writes@ == ws0.update(
                        i,
                        (key@, value@),
                    );
                assert(0 <= i < old(self).writes_seq().len() && old(self).writes_seq()[i].0 == key@
                    && self.writes@ == old(self).writes_seq().update(i, (key@, value@)));
            }
        }
    }

    /// The value this session already holds for `key` — the staged
    /// write first, else the memoized read — without any host call.
    #[must_use]
    pub fn cached_lookup(&self, key: &Key) -> (r: Option<Vec<u8>>)
        requires
            self.wf(),
        ensures
            r matches Some(v) ==> self.cached(key@) == Some(v@),
            r is None ==> self.cached(key@) is None,
    {
        let kb = key.as_bytes().as_slice();
        match self.writes.lookup(kb) {
            Some(v) => Some(v),
            None => self.reads.lookup(kb),
        }
    }

    /// Memoizes `value` as what the host returned for `key`.
    pub fn record_read(&mut self, key: &Key, value: Vec<u8>)
        requires
            old(self).wf(),
        ensures
            final(self).wf(),
            final(self).program_id() == old(self).program_id(),
            final(self).reads_map() == old(self).reads_map().insert(key@, value@),
            final(self).writes_map() == old(self).writes_map(),
            final(self).writes_seq() == old(self).writes_seq(),
            final(self).flushed_spec() == old(self).flushed_spec(),
    {
        let k = copy_bytes(key.as_bytes().as_slice());
        self.reads.insert(k, value);
    }

    /// Forgets `key` in both partitions, so this session no longer
    /// holds any value for it.
    pub fn remove_local(&mut self, key: &Key)
        requires
            old(self).wf(),
        ensures
            final(self).wf(),
            final(self).program_id() == old(self).program_id(),
            final(self).reads_map() == old(self).reads_map().remove(key@),
            final(self).writes_map() == old(self).writes_map().remove(key@),
            final(self).cached(key@) is None,
            final(self).flushed_spec() == old(self).flushed_spec(),
    {
        let kb = key.as_bytes().as_slice();
        self.reads.remove(kb);
        self.writes.remove(kb);
        proof {
            if old(self).flushed_spec() {
                assert(self.writes@ == old(self).writes@);
            }
        }
    }

    /// The first staged write, for a driver that performs the host
    /// `put` itself.
    #[must_use]
    pub fn pending_head(&self) -> (r: Option<(Vec<u8>, Vec<u8>)>)
        ensures
            self.writes_seq().len() > 0 ==> (r matches Some(p) && p.0@ == self.writes_seq()[0].0
                && p.1@ == self.writes_seq()[0].1),
            self.writes_seq().len() == 0 ==> r is None,
    {
        self.writes.head()
    }

    /// Drops the first staged write once the host has accepted it.
    pub fn confirm_head_written(&mut self)
        requires
            old(self).wf(),
            old(self).writes_seq().len() > 0,
        ensures
            final(self).wf(),
            final(self).program_id() == old(self).program_id(),
            final(self).reads_map() == old(self).reads_map(),
            final(self).writes_seq() == old(self).writes_seq().drop_first(),
            final(self).writes_map() == old(self).writes_map().remove(old(self).writes_seq()[0].0),
            final(self).flushed_spec() == old(self).flushed_spec(),
    {
        self.writes.remove_head();
    }

    /// Marks the session flushed; callable only once nothing is staged.
    pub fn mark_flushed(&mut self)
        requires
            old(self).wf(),
            old(self).writes_seq().len() == 0,
        ensures
            final(self).wf(),
            final(self).program_id() == old(self).program_id(),
            final(self).reads_map() == old(self).reads_map(),
            final(self).writes_map() == old(self).writes_map(),
            final(self).writes_seq() == old(self).writes_seq(),
            final(self).flushed_spec(),
    {
        self.flushed = true;
    }

    /// Returns the value for `key`: a value this session already holds
    /// is returned without any host call and without touching the host
    /// or the heap; otherwise the host is asked once, and a fetched
    /// value is memoized before its transfer buffer is released. Fails
    /// with [`Error::Read`] exactly when the key is cached nowhere and
    /// the host does not hold it.
    pub fn get(&mut self, key: &Key, host: &mut HostStore, heap: &mut GuestHeap) -> (r: Result<
        Vec<u8>,
        Error,
    >)
        requires
            old(self).wf(),
            old(host).wf(),
            old(heap).wf(),
            old(self).cached(key@) is None ==> old(host).gets() < u64::MAX,
            old(self).cached(key@) is None && old(host).map().contains_key(key@) ==> old(
                heap,
            ).next() + old(host).map()[key@].len() < 0x1_0000_0000,
        ensures
            final(self).wf(),
            final(host).wf(),
            final(heap).wf(),
            final(self).program_id() == old(self).program_id(),
            final(self).writes_map() == old(self).writes_map(),
            final(self).writes_seq() == old(self).writes_seq(),
            final(self).flushed_spec() == old(self).flushed_spec(),
            final(host).map() == old(host).map(),
            forall|k: Seq<u8>| final(host).denies(k) == old(host).denies(k),
            // A value this session holds is returned as is: no host
            // call, nothing changes.
            old(self).cached(key@) matches Some(v) ==> ({
                &&& r matches Ok(b) && b@ == v
                &&& *final(self) == *old(self)
                &&& *final(host) == *old(host)
                &&& *final(heap) == *old(heap)
            }),
            // A miss the host cannot serve: the one host call reports
            // absence and the session is unchanged.
            (old(self).cached(key@) is None && !old(host).map().contains_key(key@)) ==> ({
                &&& r == Err::<Vec<u8>, Error>(Error::Read)
                &&& final(self).reads_map() == old(self).reads_map()
                &&& final(host).gets() == old(host).gets() + 1
                &&& *final(heap) == *old(heap)
            }),
            // A miss the host serves: the fetched value is returned and
            // memoized, and the transfer buffer is gone again.
            (old(self).cached(key@) is None && old(host).map().contains_key(key@)) ==> ({
                &&& r matches Ok(b) && b@ == old(host).map()[key@]
                &&& final(self).reads_map() == old(self).reads_map().insert(
                    key@,
                    old(host).map()[key@],
                )
                &&& final(host).gets() == old(host).gets() + 1
                &&& forall|a: u64| final(heap).live_at(a) == old(heap).live_at(a)
                &&& old(heap).next() <= final(heap).next() <= old(heap).next() + old(
                    host,
                ).map()[key@].len() + 1
            }),
            // Whatever happened, the session now holds exactly what it
            // answered.
            r matches Ok(b) ==> final(self).cached(key@) == Some(b@),
    {
        if let Some(v) = self.cached_lookup(key) {
            return Ok(v);
        }
        let w = match get_bytes(host, heap, &self.program, key) {
            Ok(w) => w,
            Err(e) => {
                proof {
                    assert(false);
                }
                return Err(e);
            },
        };
        if w == 0 {
            return Err(Error::Read);
        }
        let bytes = into_bytes(heap, w);
        proof {
            assert(old(host).map()[key@].take(old(host).map()[key@].len() as int) =~= old(
                host,
            ).map()[key@]);
            old(heap).lemma_live_at_next_none();
        }
        let (addr, len) = split_smart_ptr(w);
        deallocate(heap, addr as u64, len);
        proof {
            assert forall|a: u64| heap.live_at(a) == old(heap).live_at(a) by {}
        }
        let out = copy_bytes(bytes.as_slice());
        self.record_read(key, bytes);
        Ok(out)
    }

    /// Removes `key` from both cache partitions and immediately issues
    /// the host delete — deletion is not deferred. The local removal
    /// happens even when the host refuses the delete, so this session no
    /// longer holds the key either way; the host then still does, a
    /// documented inconsistency the caller learns of through
    /// [`Error::Delete`].
    pub fn delete(&mut self, key: &Key, host: &mut HostStore) -> (r: Result<(), Error>)
        requires
            old(self).wf(),
            old(host).wf(),
        ensures
            final(self).wf(),
            final(host).wf(),
            final(self).program_id() == old(self).program_id(),
            final(self).reads_map() == old(self).reads_map().remove(key@),
            final(self).writes_map() == old(self).writes_map().remove(key@),
            final(self).cached(key@) is None,
            final(self).flushed_spec() == old(self).flushed_spec(),
            final(host).gets() == old(host).gets(),
            forall|k: Seq<u8>| final(host).denies(k) == old(host).denies(k),
            old(host).denies(key@) ==> r == Err::<(), Error>(Error::Delete) && final(host).map()
                == old(host).map(),
            !old(host).denies(key@) ==> r == Ok::<(), Error>(()) && final(host).map() == old(
                host,
            ).map().remove(key@),
    {
        self.remove_local(key);
        delete_bytes(host, &self.program, key)
    }

    /// Sends every staged write to the host, front to back, dropping
    /// each from the writes partition as the host accepts it. Succeeds,
    /// and marks the session flushed, exactly when the host denies none
    /// of the staged keys; otherwise it stops at the first denied key
    /// and surfaces [`Error::Write`], leaving that write and the later
    /// ones staged for a retry.
    pub fn flush(&mut self, host: &mut HostStore) -> (r: Result<(), Error>)
        requires
            old(self).wf(),
            old(host).wf(),
        ensures
            final(self).wf(),
            final(host).wf(),
            final(self).program_id() == old(self).program_id(),
            final(self).reads_map() == old(self).reads_map(),
            final(host).gets() == old(host).gets(),
            forall|k: Seq<u8>| final(host).denies(k) == old(host).denies(k),
            (forall|i: int|
                0 <= i < old(self).writes_seq().len() ==> !old(host).denies(
                    old(self).writes_seq()[i].0,
                )) ==> (r == Ok::<(), Error>(()) && final(self).writes_seq() == Seq::<
                PairView,
            >::empty() && final(self).flushed_spec() && final(host).map() == put_all(
                old(host).map(),
                old(self).writes_seq(),
            )),
            (exists|i: int|
                0 <= i < old(self).writes_seq().len() && old(host).denies(
                    old(self).writes_seq()[i].0,
                )) ==> ({
                let i = first_denied_index(*old(host), old(self).writes_seq());
                &&& r == Err::<(), Error>(Error::Write)
                &&& 0 <= i < old(self).writes_seq().len()
                &&& old(host).denies(old(self).writes_seq()[i].0)
                &&& final(self).writes_seq() == old(self).writes_seq().skip(i)
                &&& final(self).flushed_spec() == old(self).flushed_spec()
                &&& final(host).map() == put_all(
                    old(host).map(),
                    old(self).writes_seq().take(i),
                )
            }),
    {
        let ghost ws0 = self.writes@;
        let ghost m0 = host.map();
        let ghost mut j: int = 0;
        proof {
            assert(ws0.skip(0) =~= ws0);
            assert(ws0.take(0) =~= Seq::<PairView>::empty());
        }
        while self.writes.len() > 0
            invariant
                self.wf(),
                host.wf(),
                self.program == old(self).program,
                self.reads == old(self).reads,
                self.flushed == old(self).flushed,
                0 <= j <= ws0.len(),
                self.writes@ == ws0.skip(j),
                host.map() == put_all(m0, ws0.take(j)),
                forall|i: int| 0 <= i < j ==> !old(host).denies(ws0[i].0),
                forall|k: Seq<u8>| host.denies(k) == old(host).denies(k),
                host.gets() == old(host).gets(),
                ws0 == old(self).writes@,
                m0 == old(host).map(),
            decreases self.writes@.len(),
        {
            let (k, v) = match self.writes.head() {
                Some(p) => p,
                None => {
                    proof {
                        assert(false);
                    }
                    (Vec::new(), Vec::new())
                },
            };
            proof {
                assert(self.writes@[0] == ws0[j]);
            }
            let key = Key::new(k);
            match put_bytes(host, &self.program, &key, &v) {
                Err(e) => {
                    proof {
                        lemma_first_denied(*old(host), ws0, j);
                        assert(0 <= j < old(self).writes_seq().len() && old(host).denies(
                            old(self).writes_seq()[j].0,
                        ));
                    }
                    return Err(e);
                },
                Ok(()) => {
                    self.writes.remove_head();
                    proof {
                        assert(ws0.skip(j).drop_first() =~= ws0.skip(j + 1));
                        assert(ws0.take(j + 1).drop_last() =~= ws0.take(j));
                        assert(ws0.take(j + 1).last() == ws0[j]);
                        j = j + 1;
                    }
                },
            }
        }
        proof {
            assert(j == ws0.len());
            assert(ws0.take(j) =~= ws0);
            assert(ws0.skip(j) =~= Seq::<PairView>::empty());
        }
        self.flushed = true;
        Ok(())
    }
}

} // verus!
