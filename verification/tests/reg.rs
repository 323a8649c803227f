use fdt::properties::cells::CellSizes;
use fdt::properties::reg::{RawRegEntry, RegEntry, RegIter, RegRawIter};

#[test]
fn reg_raw_iter() {
    let mut iter = RegRawIter::new(
        CellSizes { address_cells: 2, size_cells: 1 },
        &[0x55, 0x44, 0x33, 0x22, 0x66, 0x77, 0x88, 0x99, 0xAA, 0xBB, 0xCC, 0xDD],
    );

    assert_eq!(
        iter.next().unwrap(),
        RawRegEntry { address: &[0x55, 0x44, 0x33, 0x22, 0x66, 0x77, 0x88, 0x99], len: &[0xAA, 0xBB, 0xCC, 0xDD] }
    );
}

#[test]
fn reg_u64_iter() {
    let mut iter = RegIter::<u64, usize>::new(
        CellSizes { address_cells: 2, size_cells: 1 },
        &[0x55, 0x44, 0x33, 0x22, 0x66, 0x77, 0x88, 0x99, 0xAA, 0xBB, 0xCC, 0xDD],
    );

    assert_eq!(iter.next().unwrap().unwrap(), RegEntry { address: 0x5544332266778899, len: 0xAABBCCDD });
}

#[test]
fn reg_iter_ends_after_last_entry() {
    let mut iter = RegIter::<u32, u32>::new(CellSizes { address_cells: 1, size_cells: 1 }, &[0, 0, 0, 1, 0, 0, 0, 2, 0, 0]);
    assert_eq!(iter.next().unwrap().unwrap(), RegEntry { address: 1, len: 2 });
    assert!(iter.next().is_none());
}

#[test]
fn reg_u32_overflow_is_an_error() {
    let mut iter = RegIter::<u32, u32>::new(
        CellSizes { address_cells: 2, size_cells: 1 },
        &[0, 0, 0, 1, 0, 0, 0, 2, 0, 0, 0, 3],
    );
    assert!(iter.next().unwrap().is_err());
}
