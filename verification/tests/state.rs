use wasmlanche_sdk::host::HostStore;
use wasmlanche_sdk::memory::GuestHeap;
use wasmlanche_sdk::program::Program;
use wasmlanche_sdk::state::{Error, Key};
use wasmlanche_sdk::state::State;

fn program() -> Program {
    Program::new(vec![1u8; 32])
}

fn key(bytes: &[u8]) -> Key {
    Key::new(bytes.to_vec())
}

#[test]
fn cache_read_through() {
    let mut host = HostStore::new();
    let mut heap = GuestHeap::new();
    assert_eq!(host.put(&[1; 32], b"k", b"value-bytes"), 0);

    let mut session = State::new(program());
    let before = host.get_call_count();
    let first = session
        .get(&key(b"k"), &mut host, &mut heap)
        .expect("host holds the key");
    assert_eq!(first, b"value-bytes".to_vec());
    assert_eq!(host.get_call_count(), before + 1);

    let second = session
        .get(&key(b"k"), &mut host, &mut heap)
        .expect("memoized");
    assert_eq!(second, first);
    // no second host call
    assert_eq!(host.get_call_count(), before + 1);
}

#[test]
fn write_staging_serves_get_without_host() {
    let mut host = HostStore::new();
    let mut heap = GuestHeap::new();
    let mut session = State::new(program());

    session.store(key(b"k"), b"staged".to_vec());
    assert_eq!(session.pending_writes(), 1);

    let got = session
        .get(&key(b"k"), &mut host, &mut heap)
        .expect("staged value is cached");
    assert_eq!(got, b"staged".to_vec());
    assert_eq!(host.get_call_count(), 0);
}

#[test]
fn flush_empties_writes_and_makes_durable() {
    let mut host = HostStore::new();
    let mut heap = GuestHeap::new();
    let mut session = State::new(program());

    session.store(key(b"a"), vec![1]);
    session.store(key(b"b"), vec![2]);
    assert!(!session.is_flushed());
    session.flush(&mut host).expect("nothing denied");
    assert!(session.is_flushed());
    assert_eq!(session.pending_writes(), 0);

    // a later get for a staged key goes to the host: durability, not
    // just local caching
    let before = host.get_call_count();
    let got = session
        .get(&key(b"a"), &mut host, &mut heap)
        .expect("flushed to host");
    assert_eq!(got, vec![1]);
    assert_eq!(host.get_call_count(), before + 1);

    // a fresh session sees the flushed values too
    let mut other = State::new(program());
    let got = other
        .get(&key(b"b"), &mut host, &mut heap)
        .expect("flushed to host");
    assert_eq!(got, vec![2]);
}

#[test]
fn flush_stops_at_first_denied_key() {
    let mut host = HostStore::new();
    let mut heap = GuestHeap::new();
    host.deny(b"k2".to_vec());

    let mut session = State::new(program());
    session.store(key(b"k1"), vec![1]);
    session.store(key(b"k2"), vec![2]);
    session.store(key(b"k3"), vec![3]);

    assert_eq!(session.flush(&mut host), Err(Error::Write));
    assert!(!session.is_flushed());
    // the denied write and the one behind it stay staged for a retry
    assert_eq!(session.pending_writes(), 2);

    // the write before the failure reached the host
    let mut other = State::new(program());
    assert_eq!(
        other.get(&key(b"k1"), &mut host, &mut heap),
        Ok(vec![1])
    );
    // the ones at and after the failure did not
    assert_eq!(
        other.get(&key(b"k3"), &mut host, &mut heap),
        Err(Error::Read)
    );
}

#[test]
fn staged_write_wins_over_memoized_read() {
    let mut host = HostStore::new();
    let mut heap = GuestHeap::new();
    assert_eq!(host.put(&[1; 32], b"k", b"old"), 0);

    let mut session = State::new(program());
    // the key lands in the reads partition
    assert_eq!(
        session.get(&key(b"k"), &mut host, &mut heap),
        Ok(b"old".to_vec())
    );
    // and now in the writes partition as well; writes win
    session.store(key(b"k"), b"new".to_vec());
    assert_eq!(
        session.get(&key(b"k"), &mut host, &mut heap),
        Ok(b"new".to_vec())
    );
}

#[test]
fn failed_flush_can_be_retried() {
    let mut host = HostStore::new();
    let mut heap = GuestHeap::new();
    host.deny(b"k2".to_vec());

    let mut session = State::new(program());
    session.store(key(b"k1"), vec![1]);
    session.store(key(b"k2"), vec![2]);
    assert_eq!(session.flush(&mut host), Err(Error::Write));
    assert_eq!(session.pending_writes(), 1);

    // once the host accepts the key again, the retry finishes the job
    host.allow(b"k2");
    session.flush(&mut host).expect("nothing denied any more");
    assert!(session.is_flushed());
    assert_eq!(session.pending_writes(), 0);

    let mut other = State::new(program());
    assert_eq!(
        other.get(&key(b"k2"), &mut host, &mut heap),
        Ok(vec![2])
    );
}

#[test]
fn store_overwrites_staged_value() {
    let mut host = HostStore::new();
    let mut heap = GuestHeap::new();
    let mut session = State::new(program());

    session.store(key(b"k"), vec![1]);
    session.store(key(b"k"), vec![2]);
    assert_eq!(session.pending_writes(), 1);
    assert_eq!(
        session.get(&key(b"k"), &mut host, &mut heap),
        Ok(vec![2])
    );
}

#[test]
fn store_after_flush_clears_flushed_marker() {
    let mut host = HostStore::new();
    let mut session = State::new(program());

    session.store(key(b"k"), vec![1]);
    session.flush(&mut host).expect("nothing denied");
    assert!(session.is_flushed());

    // a later write must not be silently dropped at end of scope: the
    // flushed marker clears so a safety-net flush still runs
    session.store(key(b"k"), vec![2]);
    assert!(!session.is_flushed());
    assert_eq!(session.pending_writes(), 1);
}

#[test]
fn delete_removes_locally_and_remotely() {
    let mut host = HostStore::new();
    let mut heap = GuestHeap::new();
    assert_eq!(host.put(&[1; 32], b"k", b"old"), 0);

    let mut session = State::new(program());
    let got = session
        .get(&key(b"k"), &mut host, &mut heap)
        .expect("host holds the key");
    assert_eq!(got, b"old".to_vec());

    session.delete(&key(b"k"), &mut host).expect("not denied");
    // the pre-delete value is gone for this session and for the host
    assert_eq!(
        session.get(&key(b"k"), &mut host, &mut heap),
        Err(Error::Read)
    );
    let mut other = State::new(program());
    assert_eq!(
        other.get(&key(b"k"), &mut host, &mut heap),
        Err(Error::Read)
    );
}

#[test]
fn delete_clears_cache_even_when_host_refuses() {
    let mut host = HostStore::new();
    let mut session = State::new(program());
    host.deny(b"k".to_vec());

    session.store(key(b"k"), vec![7]);
    assert_eq!(session.pending_writes(), 1);

    assert_eq!(session.delete(&key(b"k"), &mut host), Err(Error::Delete));
    // the local removal happened regardless: nothing staged, nothing
    // cached, so a later flush cannot resurrect the key
    assert_eq!(session.pending_writes(), 0);
    session.flush(&mut host).expect("nothing staged");
}

#[test]
fn end_to_end_scenario() {
    let mut host = HostStore::new();
    let mut heap = GuestHeap::new();

    {
        let mut session = State::new(program());
        session.store(
            key(b"a"),
            borsh::to_vec(&42u32).expect("u32 serializes"),
        );
        // end of scope: the embedder's safety net flushes the session
        session.flush(&mut host).expect("nothing denied");
    }

    let mut session = State::new(program());
    let bytes = session
        .get(&key(b"a"), &mut host, &mut heap)
        .expect("durable after the first session");
    let value: u32 = borsh::from_slice(&bytes).expect("u32 deserializes");
    assert_eq!(value, 42);

    session.delete(&key(b"a"), &mut host).expect("not denied");
    let mut fresh = State::new(program());
    assert_eq!(
        fresh.get(&key(b"a"), &mut host, &mut heap),
        Err(Error::Read)
    );
}

#[test]
fn get_of_absent_key_reports_read_failure() {
    let mut host = HostStore::new();
    let mut heap = GuestHeap::new();
    let mut session = State::new(program());
    assert_eq!(
        session.get(&key(b"missing"), &mut host, &mut heap),
        Err(Error::Read)
    );
}

#[test]
fn empty_value_round_trips() {
    let mut host = HostStore::new();
    let mut heap = GuestHeap::new();
    let mut session = State::new(program());

    session.store(key(b"empty"), Vec::new());
    session.flush(&mut host).expect("nothing denied");

    let mut other = State::new(program());
    assert_eq!(
        other.get(&key(b"empty"), &mut host, &mut heap),
        Ok(Vec::new())
    );
}
