use vstd::prelude::*;

use crate::cell_collector::{BuildCellCollector, CellCollector, CollectCellsError};

verus! {

/// The numerical representation of a PCI address (PCI Bus Binding to Open
/// Firmware 2.2.1.1), as used within the `interrupt-map` property.
#[allow(missing_docs)]
#[derive(Debug, Clone, Copy, Default, PartialEq, Eq, PartialOrd, Ord, Hash)]
pub struct PciAddress {
    pub hi: PciAddressHighBits,
    pub mid: u32,
    pub lo: u32,
}

/// The `phys.hi` cell of a PCI address: `npt000ss bbbbbbbb dddddfff
/// rrrrrrrr`, where `n` is 0 for a relocatable address, `p` is 1 for a
/// prefetchable region, `ss` is the address space, `b` the bus, `d` the
/// device, `f` the function and `r` the register number.
#[derive(Debug, Clone, Copy, Default, PartialEq, Eq, PartialOrd, Ord, Hash)]
pub struct PciAddressHighBits(u32);

impl View for PciAddressHighBits {
    type V = u32;

    closed spec fn view(&self) -> u32 {
        self.0
    }
}

/// The type of a PCI address space.
#[allow(missing_docs)]
#[derive(Debug, Clone, Copy, PartialEq, Eq)]
pub enum PciAddressSpace {
    Configuration,
    Io,
    Memory32,
    Memory64,
}

/// The address space named by the space code `ss`, bits 24 and 25 of
/// `phys.hi`.
pub open spec fn spec_address_space(raw: u32) -> PciAddressSpace {
    let code = raw / 0x100_0000 % 4;
    if code == 0 {
        PciAddressSpace::Configuration
    } else if code == 1 {
        PciAddressSpace::Io
    } else if code == 2 {
        PciAddressSpace::Memory32
    } else {
        PciAddressSpace::Memory64
    }
}

#[allow(missing_docs)]
impl PciAddressHighBits {
    pub fn new(raw: u32) -> (r: Self)
        ensures
            r@ == raw,
    {
        PciAddressHighBits(raw)
    }

    /// The register number, bits 0 to 7.
    pub fn register(self) -> (r: u8)
        ensures
            r == self@ % 0x100,
    {
        let x = self.0;
        assert(x as u8 == x % 0x100) by (bit_vector);
        x as u8
    }

    /// The function number, bits 8 to 10.
    pub fn function(self) -> (r: u8)
        ensures
            r == self@ / 0x100 % 8,
    {
        let x = self.0;
        assert(((x >> 8u32) & 7u32) as u8 == x / 0x100 % 8) by (bit_vector);
        ((x >> 8) & 7) as u8
    }

    /// The device number, bits 11 to 15.
    pub fn device(self) -> (r: u8)
        ensures
            r == self@ / 0x800 % 0x20,
    {
        let x = self.0;
        assert(((x >> 11u32) & 0x1fu32) as u8 == x / 0x800 % 0x20) by (bit_vector);
        ((x >> 11) & 0x1f) as u8
    }

    /// The bus number, bits 16 to 23.
    pub fn bus(self) -> (r: u8)
        ensures
            r == self@ / 0x1_0000 % 0x100,
    {
        let x = self.0;
        assert((x >> 16u32) as u8 == x / 0x1_0000 % 0x100) by (bit_vector);
        (x >> 16) as u8
    }

    /// The address space, bits 24 and 25.
    pub fn address_space(self) -> (r: PciAddressSpace)
        ensures
            r == spec_address_space(self@),
    {
        let x = self.0;
        let code = (x >> 24) & 3;
        assert((x >> 24u32) & 3u32 == x / 0x100_0000 % 4) by (bit_vector);
        if code == 0 {
            PciAddressSpace::Configuration
        } else if code == 1 {
            PciAddressSpace::Io
        } else if code == 2 {
            PciAddressSpace::Memory32
        } else {
            PciAddressSpace::Memory64
        }
    }

    /// Whether the region is prefetchable: bit 30 is set.
    pub fn prefetchable(self) -> (r: bool)
        ensures
            r == (self@ / 0x4000_0000 % 2 == 1),
    {
        let x = self.0;
        assert(((x >> 30u32) & 1u32 == 1u32) == (x / 0x4000_0000 % 2 == 1)) by (bit_vector);
        (x >> 30) & 1 == 1
    }

    /// Whether the address is relocatable: bit 31 is clear.
    pub fn relocatable(self) -> (r: bool)
        ensures
            r == (self@ / 0x8000_0000 == 0),
    {
        let x = self.0;
        assert(((x >> 31u32) & 1u32 == 0u32) == (x / 0x8000_0000 == 0)) by (bit_vector);
        (x >> 31) & 1 == 0
    }
}

impl PciAddress {
    /// The bitwise AND of two addresses, cell by cell.
    pub fn bitand(self, rhs: Self) -> (r: Self)
        ensures
            r.hi@ == self.hi@ & rhs.hi@,
            r.mid == self.mid & rhs.mid,
            r.lo == self.lo & rhs.lo,
    {
        PciAddress { hi: PciAddressHighBits(self.hi.0 & rhs.hi.0), mid: self.mid & rhs.mid, lo: self.lo & rhs.lo }
    }
}

/// The address that up to three cells give: `phys.hi`, `phys.mid` and
/// `phys.lo` in that order, zero where a cell is missing.
pub closed spec fn pci_address_of(cells: Seq<u32>) -> PciAddress {
    PciAddress {
        hi: PciAddressHighBits(if cells.len() > 0 { cells[0] } else { 0 }),
        mid: if cells.len() > 1 { cells[1] } else { 0 },
        lo: if cells.len() > 2 { cells[2] } else { 0 },
    }
}

/// Collecting cells into a PCI address places the first in `phys.hi`, the
/// second in `phys.mid` and the third in `phys.lo`; a missing cell is zero.
pub proof fn law_pci_address_of(cells: Seq<u32>)
    ensures
        pci_address_of(cells).hi@ == (if cells.len() > 0 { cells[0] } else { 0 }),
        pci_address_of(cells).mid == (if cells.len() > 1 { cells[1] } else { 0 }),
        pci_address_of(cells).lo == (if cells.len() > 2 { cells[2] } else { 0 }),
{
}

/// Collecting cells into a PCI address succeeds exactly when there are at
/// most three of them.
pub proof fn law_pci_collect_accepts(cells: Seq<u32>)
    ensures
        crate::cell_collector::collect_cells::<PciAddress>(cells) is Ok <==> cells.len() <= 3,
{
}

/// The fields of the high cell are the bits the binding assigns them:
/// together with the space code and the top two flags they give back the
/// cell, whose bits 26 to 29 are the ones none of them reads.
pub proof fn law_pci_high_bits_fields(raw: u32)
    ensures
        raw % 0x100 + (raw / 0x100 % 8) * 0x100 + (raw / 0x800 % 0x20) * 0x800 + (raw / 0x1_0000 % 0x100) * 0x1_0000
            + (raw / 0x100_0000 % 4) * 0x100_0000 + (raw / 0x400_0000 % 0x10) * 0x400_0000 + (raw / 0x4000_0000 % 2)
            * 0x4000_0000 + (raw / 0x8000_0000) * 0x8000_0000 == raw,
{
    assert(raw % 0x100 + (raw / 0x100 % 8) * 0x100 + (raw / 0x800 % 0x20) * 0x800 + (raw / 0x1_0000 % 0x100) * 0x1_0000
        + (raw / 0x100_0000 % 4) * 0x100_0000 + (raw / 0x400_0000 % 0x10) * 0x400_0000 + (raw / 0x4000_0000 % 2)
        * 0x4000_0000 + (raw / 0x8000_0000) * 0x8000_0000 == raw) by (bit_vector);
}

/// Builder of a [`PciAddress`] from at most three cells.
pub struct PciAddressCollector {
    address: PciAddress,
    num_pushes: u32,
    cells: Ghost<Seq<u32>>,
}

impl BuildCellCollector for PciAddressCollector {
    type Output = PciAddress;

    closed spec fn pushed(&self) -> Seq<u32> {
        self.cells@
    }

    closed spec fn wf(&self) -> bool {
        &&& self.num_pushes as int == self.cells@.len()
        &&& self.cells@.len() <= 3
        &&& self.address == pci_address_of(self.cells@)
    }

    open spec fn accepts(cells: Seq<u32>) -> bool {
        cells.len() <= 3
    }

    open spec fn result(cells: Seq<u32>) -> PciAddress {
        pci_address_of(cells)
    }

    proof fn lemma_accepts_empty() {
    }

    proof fn lemma_accepts_prefix(cells: Seq<u32>, c: u32) {
    }

    fn new() -> (r: Self) {
        PciAddressCollector {
            address: PciAddress { hi: PciAddressHighBits(0), mid: 0, lo: 0 },
            num_pushes: 0,
            cells: Ghost(Seq::empty()),
        }
    }

    fn push(&mut self, component: u32) -> (r: Result<(), CollectCellsError>) {
        let ghost next = self.cells@.push(component);
        if self.num_pushes == 0 {
            self.address.hi = PciAddressHighBits(component);
        } else if self.num_pushes == 1 {
            self.address.mid = component;
        } else if self.num_pushes == 2 {
            self.address.lo = component;
        } else {
            return Err(CollectCellsError);
        }
        self.num_pushes = self.num_pushes + 1;
        self.cells = Ghost(next);
        Ok(())
    }

    fn finish(self) -> (r: PciAddress) {
        self.address
    }
}

impl CellCollector for PciAddress {
    type Output = PciAddress;
    type Builder = PciAddressCollector;

    open spec fn spec_map(b: PciAddress) -> PciAddress {
        b
    }

    fn map(builder_out: PciAddress) -> (r: PciAddress) {
        builder_out
    }
}

} // verus!
