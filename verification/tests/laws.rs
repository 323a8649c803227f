use core::num::Wrapping;

use fdt::properties::cells::CellSizes;
use fdt::properties::pci::{PciAddress, PciAddressHighBits, PciAddressSpace};
use fdt::properties::reg::{RegIter, RegRawIter};
use fdt::properties::values::StringList;
use fdt::properties::Compatible;

#[test]
fn pci_high_bits_fields() {
    let hi = PciAddressHighBits::new(0x8200_1234);
    assert_eq!(hi.register(), 0x34);
    assert_eq!(hi.function(), 2);
    assert_eq!(hi.device(), 2);
    assert_eq!(hi.bus(), 0);
    assert_eq!(hi.address_space(), PciAddressSpace::Memory32);
    assert!(!hi.prefetchable());
    assert!(!hi.relocatable());

    let hi = PciAddressHighBits::new(0x4312_ff07);
    assert_eq!(hi.register(), 0x07);
    assert_eq!(hi.function(), 7);
    assert_eq!(hi.device(), 0x1f);
    assert_eq!(hi.bus(), 0x12);
    assert_eq!(hi.address_space(), PciAddressSpace::Memory64);
    assert!(hi.prefetchable());
    assert!(hi.relocatable());
    let r = hi.register() as u32;
    let f = hi.function() as u32;
    let d = hi.device() as u32;
    let b = hi.bus() as u32;
    assert_eq!(r | (f << 8) | (d << 11) | (b << 16) | (3 << 24) | (1 << 30), 0x4312_ff07);
}

#[test]
fn pci_addresses_are_collected_from_three_cells() {
    let bytes: Vec<u8> = [0x0200_0000u32, 0, 0x4000_0000, 0, 0x1000].iter().flat_map(|c| c.to_be_bytes()).collect();
    let mut it = RegIter::<PciAddress, u64>::new(CellSizes { address_cells: 3, size_cells: 2 }, &bytes);
    let e = it.next().unwrap().unwrap();
    assert_eq!(e.address, PciAddress { hi: PciAddressHighBits::new(0x0200_0000), mid: 0, lo: 0x4000_0000 });
    assert_eq!(e.len, 0x1000);
    assert_eq!(e.address.bitand(PciAddress { hi: PciAddressHighBits::new(0x0300_0000), mid: 0, lo: 0xffff }).hi, PciAddressHighBits::new(0x0200_0000));

    let four: Vec<u8> = [1u32, 2, 3, 4, 5].iter().flat_map(|c| c.to_be_bytes()).collect();
    let mut it = RegIter::<PciAddress, u32>::new(CellSizes { address_cells: 4, size_cells: 1 }, &four);
    assert!(it.next().unwrap().is_err());
}

#[test]
fn wrapping_collection_keeps_low_bits() {
    let bytes: Vec<u8> = [1u32, 2, 3, 9].iter().flat_map(|c| c.to_be_bytes()).collect();
    let mut it = RegIter::<Wrapping<u64>, u32>::new(CellSizes { address_cells: 3, size_cells: 1 }, &bytes);
    let e = it.next().unwrap().unwrap();
    assert_eq!(e.address, 0x2_0000_0003);
    assert_eq!(e.len, 9);

    let mut it = RegIter::<Wrapping<u128>, u32>::new(CellSizes { address_cells: 3, size_cells: 1 }, &bytes);
    assert_eq!(it.next().unwrap().unwrap().address, 0x1_0000_0002_0000_0003);
}

#[test]
fn wrapping_u32_collection_keeps_the_last_cell() {
    let bytes: Vec<u8> = [1u32, 2].iter().flat_map(|c| c.to_be_bytes()).collect();
    assert_eq!(fdt::cell_collector::collect_from_bytes::<Wrapping<u32>>(&bytes).unwrap(), 2);
    let bytes: Vec<u8> = [1u32, 2, 3, 9].iter().flat_map(|c| c.to_be_bytes()).collect();
    let mut it = RegIter::<Wrapping<u32>, u32>::new(CellSizes { address_cells: 3, size_cells: 1 }, &bytes);
    let e = it.next().unwrap().unwrap();
    assert_eq!((e.address, e.len), (3, 9));
    assert_eq!(fdt::cell_collector::collect_from_bytes::<Wrapping<u32>>(&[]).unwrap(), 0);
}

#[test]
fn optional_size_is_none_without_size_cells() {
    let bytes: Vec<u8> = [0u32, 0x1000, 0, 0x2000].iter().flat_map(|c| c.to_be_bytes()).collect();
    let mut it = RegIter::<u64, Option<u64>>::new(CellSizes { address_cells: 2, size_cells: 0 }, &bytes);
    let e = it.next().unwrap().unwrap();
    assert_eq!((e.address, e.len), (0x1000, None));
    let e = it.next().unwrap().unwrap();
    assert_eq!((e.address, e.len), (0x2000, None));
    assert!(it.next().is_none());
}

#[test]
fn raw_and_collected_reg_entries_agree() {
    let bytes: Vec<u8> = [0u32, 0x1000, 0x10, 0, 0x2000, 0x20, 0, 0x3000, 0x30].iter().flat_map(|c| c.to_be_bytes()).collect();
    let cs = CellSizes { address_cells: 2, size_cells: 1 };
    let mut raw = RegRawIter::new(cs, &bytes);
    let mut collected = RegIter::<u64, u32>::new(cs, &bytes);
    let mut count = 0;
    loop {
        match (raw.next(), collected.next()) {
            (Some(r), Some(c)) => {
                let c = c.unwrap();
                assert_eq!(u64::from_be_bytes(r.address.try_into().unwrap()), c.address);
                assert_eq!(u32::from_be_bytes(r.len.try_into().unwrap()), c.len);
                count += 1;
            }
            (None, None) => break,
            _ => panic!("the iterators disagree"),
        }
    }
    assert_eq!(count * 12, bytes.len());
}

#[test]
fn string_list_pieces_join_back() {
    let value = "sifive,test1\0sifive,test0\0syscon";
    let mut list = StringList::from_str(value);
    let mut pieces = Vec::new();
    while let Some(p) = list.next() {
        pieces.push(p);
    }
    assert_eq!(pieces.join("\0"), value);
    assert_eq!(Compatible::new(value).first(), pieces[0]);
}

#[test]
fn integer_collection_fails_from_the_first_overflowing_cell() {
    let bytes = |cs: &[u32]| -> Vec<u8> { cs.iter().flat_map(|c| c.to_be_bytes()).collect() };
    assert_eq!(fdt::cell_collector::collect_from_bytes::<u64>(&bytes(&[0, 0, 5])).unwrap(), 5);
    assert!(fdt::cell_collector::collect_from_bytes::<u64>(&bytes(&[1, 0, 0])).is_err());
    assert!(fdt::cell_collector::collect_from_bytes::<u64>(&bytes(&[1, 0, 0, 0])).is_err());
    assert_eq!(fdt::cell_collector::collect_from_bytes::<u32>(&bytes(&[0, 5])).unwrap(), 5);
    assert!(fdt::cell_collector::collect_from_bytes::<u32>(&bytes(&[1, 0])).is_err());
    assert_eq!(
        fdt::cell_collector::collect_from_bytes::<u128>(&bytes(&[0, 1, 2, 3, 4])).unwrap(),
        0x1_0000_0002_0000_0003_0000_0004
    );
}
