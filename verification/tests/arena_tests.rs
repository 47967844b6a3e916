use hotreload::arena::{Memory, MEMORY_LENGTH};
use hotreload::HostError;

#[test]
fn two_small_allocations_then_overflow() {
    // capacity = 1024: two 16-byte allocations return offsets 0 and 16; a
    // subsequent 1000-byte allocation no longer fits and is rejected.
    let mut m = Memory::with_capacity(1024);
    let a = m.allocate::<[u8; 16]>().unwrap();
    let b = m.allocate::<[u8; 16]>().unwrap();
    assert_eq!(a.offset(), 0);
    assert_eq!(b.offset(), 16);
    match m.allocate::<[u8; 1000]>() {
        Err(HostError::FatalAllocation { requested, available }) => {
            assert_eq!(requested, 1000);
            assert_eq!(available, 1024 - 32);
        }
        _ => panic!("allocation past capacity must be rejected"),
    }
    // The failed allocation left the arena untouched.
    assert_eq!(m.next_allocation(), 32);
}

#[test]
fn offsets_are_aligned_and_disjoint() {
    let mut m = Memory::with_capacity(256);
    let a = m.allocate::<[u8; 5]>().unwrap();
    let b = m.allocate::<[u8; 1]>().unwrap();
    let c = m.allocate::<[u8; 17]>().unwrap();
    assert_eq!(a.offset(), 0);
    assert_eq!(b.offset(), 16);
    assert_eq!(c.offset(), 32);
    // No two allocations overlap: each starts past the previous one's end.
    assert!(a.offset() + 5 <= b.offset());
    assert!(b.offset() + 1 <= c.offset());
    assert!(c.offset() + 17 <= 256);
}

#[test]
fn allocation_exactly_filling_capacity_succeeds() {
    let mut m = Memory::with_capacity(64);
    let a = m.allocate::<[u8; 64]>().unwrap();
    assert_eq!(a.offset(), 0);
    assert!(m.allocate::<[u8; 1]>().is_err());
}

#[test]
fn default_region_has_default_capacity() {
    let m = Memory::new();
    assert_eq!(m.capacity(), MEMORY_LENGTH);
    assert_eq!(m.next_allocation(), 0);
    assert!(!m.initialized);
}

#[test]
fn snapshot_then_restore_is_identity() {
    let mut m = Memory::with_capacity(64);
    m.write_byte(3, 7);
    m.write_byte(10, 42);
    let snap = m.data_as_vec();
    assert_eq!(snap.len(), 64);
    assert_eq!(snap[3], 7);
    m.restore(&snap).unwrap();
    assert_eq!(m.data_as_vec(), snap);
    assert_eq!(m.next_allocation(), 0);
}

#[test]
fn restore_undoes_mutation_since_snapshot() {
    let mut m = Memory::with_capacity(32);
    m.write_byte(0, 1);
    let snap = m.data_as_vec();
    m.write_byte(0, 99);
    m.write_byte(31, 5);
    m.restore(&snap).unwrap();
    assert_eq!(m.read_byte(0), 1);
    assert_eq!(m.read_byte(31), 0);
}

#[test]
fn restore_rejects_wrong_length() {
    let mut m = Memory::with_capacity(64);
    let short = vec![1u8, 2, 3];
    match m.restore(&short) {
        Err(HostError::SessionFormatError { expected, actual }) => {
            assert_eq!(expected, 64);
            assert_eq!(actual, 3);
        }
        _ => panic!("length mismatch must be rejected"),
    }
    // The failed restore left the region untouched.
    assert_eq!(m.read_byte(0), 0);
}

#[test]
fn dereference_reads_what_write_through_wrote() {
    let mut m = Memory::with_capacity(64);
    let h = m.allocate::<[u8; 4]>().unwrap();
    m.write_through(&h, &vec![1u8, 2, 3, 4]);
    assert_eq!(m.dereference(&h), vec![1u8, 2, 3, 4]);
    assert_eq!(m.read_byte(h.offset()), 1);
    // Bytes outside the handle's object are untouched.
    assert_eq!(m.read_byte(4), 0);
}

#[test]
fn handles_stay_valid_across_restore() {
    // A handle is an offset: restoring the region does not invalidate it.
    let mut m = Memory::with_capacity(64);
    let h = m.allocate::<[u8; 2]>().unwrap();
    m.write_through(&h, &vec![8u8, 9]);
    let snap = m.data_as_vec();
    m.write_through(&h, &vec![0u8, 0]);
    m.restore(&snap).unwrap();
    assert_eq!(m.dereference(&h), vec![8u8, 9]);
}
