use wasmlanche_sdk::kv::KvList;

#[test]
fn insert_lookup_remove() {
    let mut list = KvList::new();
    assert!(list.is_empty());

    list.insert(b"a".to_vec(), vec![1]);
    list.insert(b"b".to_vec(), vec![2]);
    assert_eq!(list.len(), 2);
    assert_eq!(list.lookup(b"a"), Some(vec![1]));
    assert_eq!(list.lookup(b"b"), Some(vec![2]));
    assert_eq!(list.lookup(b"c"), None);

    // overwriting keeps one entry per key
    list.insert(b"a".to_vec(), vec![9]);
    assert_eq!(list.len(), 2);
    assert_eq!(list.lookup(b"a"), Some(vec![9]));

    list.remove(b"a");
    assert_eq!(list.lookup(b"a"), None);
    assert!(!list.contains(b"a"));
    assert!(list.contains(b"b"));
    assert_eq!(list.len(), 1);
}

#[test]
fn head_follows_staging_order() {
    let mut list = KvList::new();
    list.insert(b"first".to_vec(), vec![1]);
    list.insert(b"second".to_vec(), vec![2]);

    let (k, v) = list.head().expect("nonempty");
    assert_eq!(k, b"first".to_vec());
    assert_eq!(v, vec![1]);

    list.remove_head();
    let (k, _) = list.head().expect("still one left");
    assert_eq!(k, b"second".to_vec());
}
