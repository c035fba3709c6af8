use wasmlanche_sdk::memory::{split_smart_ptr, to_smart_ptr, Pointer};
use wasmlanche_sdk::state::Error;

#[test]
fn round_trip_exact() {
    let word = to_smart_ptr(4096, 10).expect("both fields fit 32 bits");
    let (addr, len) = split_smart_ptr(word);
    assert_eq!(addr, 4096);
    assert_eq!(len, 10);
}

#[test]
fn round_trip_samples() {
    let cases: Vec<(u64, u64)> = vec![
        (0, 0),
        (1, 0),
        (0, 1),
        (0xFFFF_FFFF, 0xFFFF_FFFF),
        (0x1234_5678, 0x9ABC_DEF0),
        (7, 0x8000_0000),
        (0xFFFF_FFFF, 0),
    ];
    for (a, l) in cases {
        let word = to_smart_ptr(a, l).expect("both fields fit 32 bits");
        let (addr, len) = split_smart_ptr(word);
        assert_eq!(addr as u64, a);
        assert_eq!(len as u64, l);
    }
}

#[test]
fn high_length_packs_into_negative_word() {
    let word = to_smart_ptr(5, 0x8000_0000).expect("both fields fit 32 bits");
    assert!(word < 0);
    let (addr, len) = split_smart_ptr(word);
    assert_eq!(addr, 5);
    assert_eq!(len, 0x8000_0000);
}

#[test]
fn encode_rejects_large_address() {
    assert_eq!(
        to_smart_ptr(0x1_0000_0000, 1),
        Err(Error::IntegerConversion)
    );
}

#[test]
fn encode_rejects_large_length() {
    assert_eq!(
        to_smart_ptr(1, 0x1_0000_0000),
        Err(Error::IntegerConversion)
    );
}

#[test]
fn encode_packs_length_into_high_bits() {
    let word = to_smart_ptr(4096, 10).expect("both fields fit 32 bits");
    assert_eq!(word, 4096i64 | (10i64 << 32));
}

#[test]
fn pointer_from_word_keeps_low_bits() {
    let p = Pointer::from(4096i64);
    assert_eq!(p.addr(), 4096);
}
