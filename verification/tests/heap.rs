use abi_bridge::heap::{allocate, deallocate, LinearMemory};

#[test]
fn the_first_region_starts_at_8() {
    let mut memory = LinearMemory::new(1024);
    assert_eq!(memory.bytes.len(), 0);
    assert_eq!(allocate(&mut memory, 16), 8);
    assert_eq!(memory.bytes, vec![0u8; 24]);
    assert_eq!(memory.limit, 1024);
}

#[test]
fn regions_follow_each_other_at_multiples_of_8() {
    let mut memory = LinearMemory::new(1024);
    assert_eq!(allocate(&mut memory, 3), 8);
    assert_eq!(memory.bytes.len(), 11);
    assert_eq!(allocate(&mut memory, 16), 16);
    assert_eq!(memory.bytes.len(), 32);
    assert_eq!(allocate(&mut memory, 1), 32);
    assert_eq!(memory.bytes.len(), 33);
}

#[test]
fn new_regions_are_zero_and_old_bytes_stay() {
    let mut memory = LinearMemory::new(1024);
    assert_eq!(allocate(&mut memory, 4), 8);
    assert!(memory.write(8, &vec![1, 2, 3, 4]));
    assert_eq!(allocate(&mut memory, 4), 16);
    assert_eq!(memory.bytes, vec![0, 0, 0, 0, 0, 0, 0, 0, 1, 2, 3, 4, 0, 0, 0, 0, 0, 0, 0, 0]);
}

#[test]
fn empty_regions_share_an_address() {
    let mut memory = LinearMemory::new(1024);
    assert_eq!(allocate(&mut memory, 0), 8);
    assert_eq!(allocate(&mut memory, 0), 8);
    assert_eq!(memory.bytes.len(), 8);
}

#[test]
fn a_full_memory_answers_with_the_null_address() {
    let mut memory = LinearMemory::new(32);
    assert_eq!(allocate(&mut memory, 25), 0);
    assert_eq!(memory.bytes.len(), 0);
    assert_eq!(allocate(&mut memory, 24), 8);
    assert_eq!(memory.bytes.len(), 32);
    assert_eq!(allocate(&mut memory, 1), 0);
    assert_eq!(allocate(&mut memory, 0), 32);
    assert_eq!(memory.bytes.len(), 32);
    let mut tiny = LinearMemory::new(7);
    assert_eq!(allocate(&mut tiny, 0), 0);
    assert_eq!(tiny.bytes.len(), 0);
}

#[test]
fn the_last_region_is_cut_off_when_it_is_given_back() {
    let mut memory = LinearMemory::new(1024);
    assert_eq!(allocate(&mut memory, 16), 8);
    assert_eq!(allocate(&mut memory, 10), 24);
    deallocate(&mut memory, 24, 10);
    assert_eq!(memory.bytes.len(), 24);
    assert_eq!(allocate(&mut memory, 4), 24);
    deallocate(&mut memory, 24, 4);
    deallocate(&mut memory, 8, 16);
    assert_eq!(memory.bytes.len(), 8);
}

#[test]
fn a_region_in_the_middle_stays_when_it_is_given_back() {
    let mut memory = LinearMemory::new(1024);
    assert_eq!(allocate(&mut memory, 16), 8);
    assert_eq!(allocate(&mut memory, 16), 24);
    deallocate(&mut memory, 8, 16);
    assert_eq!(memory.bytes.len(), 40);
    deallocate(&mut memory, 24, 15);
    assert_eq!(memory.bytes.len(), 40);
    deallocate(&mut memory, 0, 40);
    assert_eq!(memory.bytes.len(), 40);
}

#[test]
fn reads_and_writes_stay_inside_the_memory() {
    let mut memory = LinearMemory::new(64);
    assert_eq!(allocate(&mut memory, 8), 8);
    assert!(memory.write(10, &vec![9, 8, 7]));
    assert_eq!(memory.read(9, 5), Some(vec![0, 9, 8, 7, 0]));
    assert_eq!(memory.read(16, 0), Some(vec![]));
    assert_eq!(memory.read(12, 5), None);
    assert_eq!(memory.read(u32::MAX, u32::MAX), None);
    assert!(!memory.write(14, &vec![1, 2, 3]));
    assert_eq!(memory.read(8, 8), Some(vec![0, 0, 9, 8, 7, 0, 0, 0]));
    assert!(memory.write(16, &vec![]));
    assert!(!memory.write(17, &vec![]));
}
