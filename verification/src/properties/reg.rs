use vstd::prelude::*;
use vstd::string::*;

use crate::cell_collector::{be_value, cells_of, collect_cells, collect_from_bytes, CellCollector, CollectCellsError};
use crate::nodes::root::Root;
use crate::nodes::{node_find_prop, Node};
use crate::parsing::spec_parse_root;
use crate::properties::cells::{spec_cell_sizes, CellSizes};
use crate::properties::{node_u32_prop, u32_prop, Property};
use crate::FdtError;

verus! {

broadcast use vstd::seq::group_seq_axioms;

/// The byte counts of one `reg` entry fit in a `usize`.
pub open spec fn reg_fits(cs: CellSizes) -> bool {
    cs.address_cells * 4 + cs.size_cells * 4 <= usize::MAX
}

/// The `reg` property: a list of address and length pairs, encoded with the
/// parent's cell sizes.
#[derive(Debug, Clone, Copy, PartialEq, Eq)]
pub struct Reg<'a> {
    cell_sizes: CellSizes,
    encoded_array: &'a [u8],
}

impl<'a> View for Reg<'a> {
    type V = (CellSizes, Seq<u8>);

    closed spec fn view(&self) -> (CellSizes, Seq<u8>) {
        (self.cell_sizes, self.encoded_array@)
    }
}

/// The cell sizes that `reg` of a node is read with: its parent's, or the
/// defaults for a node without a parent or a parent without them.
pub open spec fn reg_cell_sizes(parent: Option<Seq<u8>>, strings: Seq<u8>, structs: Seq<u8>) -> Result<CellSizes, FdtError> {
    match parent {
        None => Ok(CellSizes { address_cells: 2, size_cells: 1 }),
        Some(p) => match spec_parse_root(structs) {
            Err(e) => Err(e),
            Ok(_) => match spec_cell_sizes(p, strings) {
                Err(e) => Err(e),
                Ok(None) => Ok(CellSizes { address_cells: 2, size_cells: 1 }),
                Ok(Some(cs)) => Ok(cs),
            },
        },
    }
}

/// The `reg` property of `node`: absent, an error, or its cell sizes and value.
pub open spec fn spec_reg(node: Node) -> Result<Option<(CellSizes, Seq<u8>)>, FdtError> {
    spec_reg_of(node.this_view(), node.parent_view(), node.strings_view(), node.structs_view())
}

/// The `reg` property of the node with raw body `this` and parent `parent`.
pub open spec fn spec_reg_of(this: Seq<u8>, parent: Option<Seq<u8>>, strings: Seq<u8>, structs: Seq<u8>) -> Result<
    Option<(CellSizes, Seq<u8>)>,
    FdtError,
> {
    match node_find_prop(this, strings, "reg".spec_bytes()) {
        Err(e) => Err(e),
        Ok(None) => Ok(None),
        Ok(Some(p)) => match reg_cell_sizes(parent, strings, structs) {
            Err(e) => Err(e),
            Ok(cs) => if !reg_fits(cs) || cs.address_cells * 4 + cs.size_cells * 4 == 0
                || (p.1.len() as int) % ((cs.address_cells * 4 + cs.size_cells * 4) as int) != 0 {
                Err(FdtError::InvalidPropertyValue)
            } else {
                Ok(Some((cs, p.1)))
            },
        },
    }
}

impl<'a> Reg<'a> {
    /// The cell sizes fit.
    pub closed spec fn wf(&self) -> bool {
        reg_fits(self.cell_sizes)
    }

    /// The cell sizes that the entries are read with.
    pub fn cell_sizes(self) -> (r: CellSizes)
        ensures
            r == self@.0,
    {
        self.cell_sizes
    }

    /// An iterator over the raw entries.
    pub fn iter_raw(self) -> (r: RegRawIter<'a>)
        requires
            self.wf(),
        ensures
            r@ == self@,
            r.wf(),
    {
        RegRawIter { cell_sizes: self.cell_sizes, encoded_array: self.encoded_array }
    }

    /// An iterator over the entries, collected into `Addr` and `Len`.
    pub fn iter<Addr: CellCollector, Len: CellCollector>(self) -> (r: RegIter<'a, Addr, Len>)
        requires
            self.wf(),
        ensures
            r@ == self@,
            r.wf(),
    {
        RegIter { cell_sizes: self.cell_sizes, encoded_array: self.encoded_array, _collector: core::marker::PhantomData }
    }
}

impl<'a> Property<'a> for Reg<'a> {
    open spec fn parse_ensures(node: Node<'a>, r: Result<Option<Self>, FdtError>) -> bool {
        match spec_reg(node) {
            Err(e) => r == Err::<Option<Self>, FdtError>(e),
            Ok(None) => r == Ok::<Option<Self>, FdtError>(None),
            Ok(Some(v)) => r matches Ok(Some(g)) && g@ == v && g.wf(),
        }
    }

    fn parse(node: Node<'a>, _root: Root<'a>) -> (r: Result<Option<Self>, FdtError>) {
        let prop = match node.raw_property("reg") {
            Ok(Some(p)) => p,
            Ok(None) => return Ok(None),
            Err(e) => return Err(e),
        };
        let cell_sizes = match node.parent() {
            Some(parent) => match parent.property::<CellSizes>() {
                Ok(Some(cs)) => cs,
                Ok(None) => CellSizes::default(),
                Err(e) => return Err(e),
            },
            None => CellSizes::default(),
        };
        let encoded_array = prop.value;
        if cell_sizes.address_cells > usize::MAX / 4 || cell_sizes.size_cells > usize::MAX / 4
            || cell_sizes.address_cells * 4 > usize::MAX - cell_sizes.size_cells * 4 {
            return Err(FdtError::InvalidPropertyValue);
        }
        let stride = cell_sizes.address_cells * 4 + cell_sizes.size_cells * 4;
        if stride == 0 || encoded_array.len() % stride != 0 {
            return Err(FdtError::InvalidPropertyValue);
        }
        Ok(Some(Reg { cell_sizes, encoded_array }))
    }
}

/// One entry of `reg`, collected.
#[derive(Debug, Clone, Copy, PartialEq, Eq, PartialOrd, Ord, Hash)]
pub struct RegEntry<Addr, Len> {
    pub address: Addr,
    pub len: Len,
}

/// One step over `reg` entries: the address and length cells, collected, and
/// what remains; `None` when no whole entry remains.
pub open spec fn reg_step<A: CellCollector, L: CellCollector>(cs: CellSizes, s: Seq<u8>) -> (
    Option<Result<RegEntry<A::Output, L::Output>, CollectCellsError>>,
    Seq<u8>,
) {
    let ab = cs.address_cells * 4;
    let sb = cs.size_cells * 4;
    if ab + sb > s.len() {
        (None, s)
    } else {
        match collect_cells::<A>(cells_of(s.subrange(0, ab as int))) {
            Err(e) => (Some(Err(e)), s),
            Ok(a) => match collect_cells::<L>(cells_of(s.subrange(ab as int, ab + sb))) {
                Err(e) => (Some(Err(e)), s),
                Ok(l) => (Some(Ok(RegEntry { address: a, len: l })), s.subrange(ab + sb, s.len() as int)),
            },
        }
    }
}

/// A `reg` entry read with `u64` collectors: its address is the number
/// spelled by the first `#address-cells` cells, its size the number spelled by
/// the `#size-cells` cells after them, and the iterator then moves past the
/// entry; an entry that does not fit in what remains ends the iteration, and
/// a part too large for a `u64` is an error.
pub proof fn law_reg_entry_u64(cs: CellSizes, s: Seq<u8>)
    ensures
        ({
            let ab = cs.address_cells * 4;
            let sb = cs.size_cells * 4;
            let address = be_value(cells_of(s.subrange(0, ab as int)));
            let size = be_value(cells_of(s.subrange(ab as int, ab + sb)));
            &&& ab + sb > s.len() ==> reg_step::<u64, u64>(cs, s) == (None::<Result<RegEntry<u64, u64>, CollectCellsError>>, s)
            &&& ab + sb <= s.len() && address <= u64::MAX && size <= u64::MAX ==> reg_step::<u64, u64>(cs, s) == (
                Some(Ok::<RegEntry<u64, u64>, CollectCellsError>(RegEntry { address: address as u64, len: size as u64 })),
                s.subrange(ab + sb, s.len() as int),
            )
            &&& ab + sb <= s.len() && (address > u64::MAX || size > u64::MAX) ==> reg_step::<u64, u64>(cs, s).0 matches Some(
                Err(_),
            )
        }),
{
    let ab = cs.address_cells * 4;
    let sb = cs.size_cells * 4;
    crate::cell_collector::law_collect_u64(cells_of(s.subrange(0, ab as int)));
    crate::cell_collector::law_collect_u64(cells_of(s.subrange(ab as int, ab + sb)));
}

/// Iterator over the entries of `reg`, collected into `CAddr` and `Len`.
pub struct RegIter<'a, CAddr: CellCollector, Len: CellCollector> {
    cell_sizes: CellSizes,
    encoded_array: &'a [u8],
    _collector: core::marker::PhantomData<(CAddr, Len)>,
}

impl<'a, CAddr: CellCollector, Len: CellCollector> View for RegIter<'a, CAddr, Len> {
    type V = (CellSizes, Seq<u8>);

    closed spec fn view(&self) -> (CellSizes, Seq<u8>) {
        (self.cell_sizes, self.encoded_array@)
    }
}

impl<'a, CAddr: CellCollector, Len: CellCollector> RegIter<'a, CAddr, Len> {
    /// The cell sizes fit.
    pub closed spec fn wf(&self) -> bool {
        reg_fits(self.cell_sizes)
    }

    /// An iterator over the entries encoded in `encoded_array`.
    pub fn new(cell_sizes: CellSizes, encoded_array: &'a [u8]) -> (r: Self)
        requires
            reg_fits(cell_sizes),
        ensures
            r@ == (cell_sizes, encoded_array@),
            r.wf(),
    {
        RegIter { cell_sizes, encoded_array, _collector: core::marker::PhantomData }
    }

    /// The next entry; an error leaves the iterator where it is.
    pub fn next(&mut self) -> (r: Option<Result<RegEntry<CAddr::Output, Len::Output>, CollectCellsError>>)
        requires
            old(self).wf(),
        ensures
            final(self).wf(),
            r == reg_step::<CAddr, Len>(old(self)@.0, old(self)@.1).0,
            final(self)@ == (old(self)@.0, reg_step::<CAddr, Len>(old(self)@.0, old(self)@.1).1),
    {
        let address_bytes = self.cell_sizes.address_cells * 4;
        let size_bytes = self.cell_sizes.size_cells * 4;
        let len = self.encoded_array.len();
        if address_bytes > len || size_bytes > len - address_bytes {
            return None;
        }
        let encoded_address = &self.encoded_array[0..address_bytes];
        let encoded_len = &self.encoded_array[address_bytes..address_bytes + size_bytes];
        let address = match collect_from_bytes::<CAddr>(encoded_address) {
            Ok(v) => v,
            Err(e) => return Some(Err(e)),
        };
        let l = match collect_from_bytes::<Len>(encoded_len) {
            Ok(v) => v,
            Err(e) => return Some(Err(e)),
        };
        self.encoded_array = &self.encoded_array[address_bytes + size_bytes..len];
        Some(Ok(RegEntry { address, len: l }))
    }
}

/// One entry of `reg`, as raw bytes.
#[derive(Debug, Clone, Copy, PartialEq, Eq)]
pub struct RawRegEntry<'a> {
    pub address: &'a [u8],
    pub len: &'a [u8],
}

/// One step over raw `reg` entries: the address bytes, the length bytes and
/// what remains; `None` when no whole entry remains.
pub open spec fn raw_reg_step(cs: CellSizes, s: Seq<u8>) -> Option<(Seq<u8>, Seq<u8>, Seq<u8>)> {
    let ab = cs.address_cells * 4;
    let sb = cs.size_cells * 4;
    if ab + sb > s.len() {
        None
    } else {
        Some((s.subrange(0, ab as int), s.subrange(ab as int, ab + sb), s.subrange(ab + sb, s.len() as int)))
    }
}

/// Iterator over the raw entries of `reg`.
pub struct RegRawIter<'a> {
    cell_sizes: CellSizes,
    encoded_array: &'a [u8],
}

impl<'a> View for RegRawIter<'a> {
    type V = (CellSizes, Seq<u8>);

    closed spec fn view(&self) -> (CellSizes, Seq<u8>) {
        (self.cell_sizes, self.encoded_array@)
    }
}

impl<'a> RegRawIter<'a> {
    /// The cell sizes fit.
    pub closed spec fn wf(&self) -> bool {
        reg_fits(self.cell_sizes)
    }

    /// An iterator over the raw entries encoded in `encoded_array`.
    pub fn new(cell_sizes: CellSizes, encoded_array: &'a [u8]) -> (r: Self)
        requires
            reg_fits(cell_sizes),
        ensures
            r@ == (cell_sizes, encoded_array@),
            r.wf(),
    {
        RegRawIter { cell_sizes, encoded_array }
    }

    /// The next raw entry.
    pub fn next(&mut self) -> (r: Option<RawRegEntry<'a>>)
        requires
            old(self).wf(),
        ensures
            final(self).wf(),
            final(self)@.0 == old(self)@.0,
            match raw_reg_step(old(self)@.0, old(self)@.1) {
                None => r is None && final(self)@.1 == old(self)@.1,
                Some(t) => r matches Some(e) && e.address@ == t.0 && e.len@ == t.1 && final(self)@.1 == t.2,
            },
    {
        let address_bytes = self.cell_sizes.address_cells * 4;
        let size_bytes = self.cell_sizes.size_cells * 4;
        let len = self.encoded_array.len();
        if address_bytes + size_bytes > len {
            return None;
        }
        let (addr_len, rest) = self.encoded_array.split_at(address_bytes + size_bytes);
        let (address, l) = addr_len.split_at(address_bytes);
        self.encoded_array = rest;
        Some(RawRegEntry { address, len: l })
    }
}

/// The `virtual-reg` property: an effective address that maps to the first
/// physical address of the node's `reg` property.
#[derive(Debug, Clone, Copy, PartialEq, Eq, PartialOrd, Ord, Hash)]
pub struct VirtualReg(u32);

impl View for VirtualReg {
    type V = u32;

    closed spec fn view(&self) -> u32 {
        self.0
    }
}

impl VirtualReg {
    /// The address.
    pub fn into_u32(self) -> (r: u32)
        ensures
            r == self@,
    {
        self.0
    }
}

impl<'a> Property<'a> for VirtualReg {
    open spec fn parse_ensures(node: Node<'a>, r: Result<Option<Self>, FdtError>) -> bool {
        match u32_prop(node.this_view(), node.strings_view(), "virtual-reg".spec_bytes()) {
            Err(e) => r == Err::<Option<Self>, FdtError>(e),
            Ok(None) => r == Ok::<Option<Self>, FdtError>(None),
            Ok(Some(v)) => r matches Ok(Some(x)) && x@ == v,
        }
    }

    fn parse(node: Node<'a>, _root: Root<'a>) -> (r: Result<Option<Self>, FdtError>) {
        match node_u32_prop(&node, "virtual-reg") {
            Ok(Some(v)) => Ok(Some(VirtualReg(v))),
            Ok(None) => Ok(None),
            Err(e) => Err(e),
        }
    }
}

impl<'a> Node<'a> {
    /// The `reg` property: the addresses and lengths of the node's resources,
    /// encoded with the parent's cell sizes.
    pub fn reg(&self) -> (r: Result<Option<Reg<'a>>, FdtError>)
        ensures
            spec_parse_root(self.structs_view()) matches Err(e) ==> r == Err::<Option<Reg>, FdtError>(e),
            spec_parse_root(self.structs_view()) is Ok ==> match spec_reg(*self) {
                Err(e) => r == Err::<Option<Reg>, FdtError>(e),
                Ok(None) => r == Ok::<Option<Reg>, FdtError>(None),
                Ok(Some(v)) => r matches Ok(Some(g)) && g@ == v && g.wf(),
            },
    {
        self.property::<Reg<'a>>()
    }
}

/// Reading `reg` entry by entry collected and as raw bytes agree: both stop
/// at the same point, and a collected entry is the collection of the raw
/// address and length cells.
pub proof fn law_reg_iters_agree<A: CellCollector, L: CellCollector>(cs: CellSizes, s: Seq<u8>)
    ensures
        raw_reg_step(cs, s) is None <==> reg_step::<A, L>(cs, s).0 is None,
        raw_reg_step(cs, s) matches Some(t) ==> match (collect_cells::<A>(cells_of(t.0)), collect_cells::<L>(cells_of(t.1))) {
            (Ok(a), Ok(l)) => reg_step::<A, L>(cs, s).0 == Some(Ok::<RegEntry<A::Output, L::Output>, CollectCellsError>(
                RegEntry { address: a, len: l },
            )) && reg_step::<A, L>(cs, s).1 == t.2,
            _ => reg_step::<A, L>(cs, s).0 matches Some(Err(_)),
        },
{
}

/// How many raw entries reading `s` with the cell sizes `cs` gives.
pub open spec fn raw_reg_entries(cs: CellSizes, s: Seq<u8>) -> nat
    decreases s.len(),
{
    if cs.address_cells * 4 + cs.size_cells * 4 == 0 {
        0
    } else {
        match raw_reg_step(cs, s) {
            None => 0,
            Some(t) => 1 + raw_reg_entries(cs, t.2),
        }
    }
}

/// A `reg` value holds whole entries only: reading it entry by entry uses
/// all of its bytes, one entry per address and size pair.
pub proof fn law_reg_entry_count(cs: CellSizes, s: Seq<u8>)
    requires
        cs.address_cells * 4 + cs.size_cells * 4 > 0,
        (s.len() as int) % ((cs.address_cells * 4 + cs.size_cells * 4) as int) == 0,
    ensures
        raw_reg_entries(cs, s) * (cs.address_cells * 4 + cs.size_cells * 4) == s.len(),
    decreases s.len(),
{
    let stride = (cs.address_cells * 4 + cs.size_cells * 4) as int;
    if s.len() < stride {
        if s.len() > 0 {
            vstd::arithmetic::div_mod::lemma_small_mod(s.len(), stride as nat);
        }
        assert(raw_reg_entries(cs, s) == 0);
        assert(0 * stride == 0);
    } else {
        let rest = s.subrange(stride, s.len() as int);
        vstd::arithmetic::div_mod::lemma_mod_multiples_vanish(1, s.len() - stride, stride);
        law_reg_entry_count(cs, rest);
        assert(raw_reg_entries(cs, s) == 1 + raw_reg_entries(cs, rest));
        vstd::arithmetic::mul::lemma_mul_is_distributive_add_other_way(stride, 1, raw_reg_entries(cs, rest) as int);
        assert(raw_reg_entries(cs, rest) * stride == s.len() - stride);
        assert((1 + raw_reg_entries(cs, rest)) * stride == s.len());
    }
}

} // verus!
