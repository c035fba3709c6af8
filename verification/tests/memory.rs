use wasmlanche_sdk::memory::{
    allocate, deallocate, into_bytes, to_smart_ptr, GuestHeap, Memory, Pointer,
};

#[test]
fn test_memory() {
    let mut heap = GuestHeap::new();
    let ptr_len = 5;
    let ptr = allocate(&mut heap, ptr_len);
    let memory = Memory::new(Pointer::new(ptr));
    let data = vec![1, 2, 3, 4, 5];

    memory.write(&mut heap, &data);
    let result = memory.range(&heap, data.len());
    assert_eq!(result, data);
    {
        let data = vec![5, 1, 2, 4, 5];
        memory.write(&mut heap, &data);
        let result = memory.range(&heap, data.len());
        assert_eq!(result, data);
    }
    {
        let data = vec![9, 9, 2];
        memory.write(&mut heap, &data);
        let result = memory.range(&heap, ptr_len);
        assert_eq!(result, vec![9, 9, 2, 4, 5]);
    }

    // the handle stays valid for later reads of the same block
    let result = memory.range(&heap, data.len());
    assert_eq!(result, vec![9, 9, 2, 4, 5]);
}

#[test]
fn test_range_owned() {
    let mut heap = GuestHeap::new();
    let ptr_len = 5;
    let ptr = allocate(&mut heap, ptr_len);
    let memory = Memory::new(Pointer::new(ptr));
    let data = vec![1, 2, 3, 4, 5];

    let mut result = memory.range_mut(&mut heap, data.len());
    assert_eq!(result, vec![0; 5]);
    // the bytes are owned now; mutating them touches no shared memory,
    // and the block itself is gone from the heap, so the use-after-free
    // reads of a raw-pointer allocator cannot be written at all
    result[0] = 1;
    assert_eq!(result, vec![1, 0, 0, 0, 0]);
}

#[test]
fn fresh_allocation_is_zeroed() {
    let mut heap = GuestHeap::new();
    let ptr = allocate(&mut heap, 3);
    let memory = Memory::new(Pointer::new(ptr));
    assert_eq!(memory.range(&heap, 3), vec![0, 0, 0]);
}

#[test]
fn allocations_do_not_overlap() {
    let mut heap = GuestHeap::new();
    let a = allocate(&mut heap, 4);
    let b = allocate(&mut heap, 4);
    assert!(b >= a + 4);
    let ma = Memory::new(Pointer::new(a));
    let mb = Memory::new(Pointer::new(b));
    ma.write(&mut heap, &[1, 1, 1, 1]);
    mb.write(&mut heap, &[2, 2, 2, 2]);
    assert_eq!(ma.range(&heap, 4), vec![1, 1, 1, 1]);
    assert_eq!(mb.range(&heap, 4), vec![2, 2, 2, 2]);
}

#[test]
fn into_bytes_reads_packed_pointer() {
    let mut heap = GuestHeap::new();
    let addr = allocate(&mut heap, 3);
    let memory = Memory::new(Pointer::new(addr));
    memory.write(&mut heap, &[10, 20, 30]);
    let word = to_smart_ptr(addr, 3).expect("fits 32 bits");
    assert_eq!(into_bytes(&heap, word), vec![10, 20, 30]);
    deallocate(&mut heap, addr, 3);
}
