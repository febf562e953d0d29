use agb::block_allocator::BlockAllocator;

#[test]
fn allocations_take_the_lowest_free_run() {
    let mut allocator = BlockAllocator::new(0x1000, 8);
    assert_eq!(allocator.blocks(), 8);
    assert_eq!(allocator.allocate(64), Some(0x1000));
    assert_eq!(allocator.allocate(32), Some(0x1040));
    assert_eq!(allocator.allocate(96), Some(0x1060));
}

#[test]
fn memory_given_back_is_handed_out_again() {
    let mut allocator = BlockAllocator::new(0x1000, 8);
    let first = allocator.allocate(64).unwrap();
    let second = allocator.allocate(32).unwrap();
    allocator.deallocate(first, 64);
    assert_eq!(allocator.allocate(32), Some(0x1000));
    // one block is left before the second allocation: two blocks go after it
    assert_eq!(allocator.allocate(64), Some(0x1060));
    assert_eq!(allocator.allocate(32), Some(0x1020));
    allocator.deallocate(second, 32);
    assert_eq!(allocator.allocate(32), Some(0x1040));
}

#[test]
fn a_request_that_fits_nowhere_gets_nothing() {
    let mut allocator = BlockAllocator::new(0x1000, 4);
    assert_eq!(allocator.allocate(160), None);
    assert_eq!(allocator.allocate(64), Some(0x1000));
    assert_eq!(allocator.allocate(96), None);
    assert_eq!(allocator.allocate(64), Some(0x1040));
    assert_eq!(allocator.allocate(32), None);
    allocator.deallocate(0x1000, 32);
    allocator.deallocate(0x1040, 32);
    // two single blocks are free, but not next to each other
    assert_eq!(allocator.allocate(64), None);
    assert_eq!(allocator.allocate(32), Some(0x1000));
}

#[test]
fn giving_back_beyond_the_range_frees_what_lies_within() {
    let mut allocator = BlockAllocator::new(0x1000, 2);
    assert_eq!(allocator.allocate(64), Some(0x1000));
    allocator.deallocate(0x1020, 4096);
    assert_eq!(allocator.allocate(64), None);
    assert_eq!(allocator.allocate(32), Some(0x1020));
    allocator.deallocate(0x2000, 32);
    assert_eq!(allocator.allocate(32), None);
}
