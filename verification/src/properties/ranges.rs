use vstd::prelude::*;
use vstd::string::*;

use crate::cell_collector::{be_value, cells_of, collect_cells, collect_from_bytes, CellCollector, CollectCellsError};
use crate::nodes::root::Root;
use crate::nodes::{node_find_prop, Node};
use crate::parsing::spec_parse_root;
use crate::properties::cells::{spec_cell_sizes, AddressCells, CellSizes};
use crate::properties::Property;
use crate::FdtError;

verus! {

broadcast use vstd::seq::group_seq_axioms;

/// The byte counts of one `ranges` entry fit in a `usize`.
pub open spec fn ranges_fit(pac: usize, cs: CellSizes) -> bool {
    cs.address_cells * 4 + pac * 4 + cs.size_cells * 4 <= usize::MAX
}

/// The `ranges` property: `(child-bus-address, parent-bus-address, length)`
/// triplets mapping the node's address space onto its parent's.
#[derive(Debug, Clone, Copy)]
pub struct Ranges<'a> {
    parent_address_cells: AddressCells,
    cell_sizes: CellSizes,
    ranges: &'a [u8],
}

impl<'a> View for Ranges<'a> {
    type V = (usize, CellSizes, Seq<u8>);

    closed spec fn view(&self) -> (usize, CellSizes, Seq<u8>) {
        (self.parent_address_cells.0, self.cell_sizes, self.ranges@)
    }
}

/// The `ranges` property of `node`: absent, an error, or the parent's address
/// cell count, the node's cell sizes and the value.
pub open spec fn spec_ranges(node: Node) -> Result<Option<(usize, CellSizes, Seq<u8>)>, FdtError> {
    match node_find_prop(node.this_view(), node.strings_view(), "ranges".spec_bytes()) {
        Err(e) => Err(e),
        Ok(None) => Ok(None),
        Ok(Some(p)) => match node.parent_view() {
            None => Err(FdtError::MissingParent),
            Some(parent) => match spec_parse_root(node.structs_view()) {
                Err(e) => Err(e),
                Ok(_) => match usize_prop_of(parent, node.strings_view()) {
                    Err(e) => Err(e),
                    Ok(pac) => match spec_cell_sizes(node.this_view(), node.strings_view()) {
                        Err(e) => Err(e),
                        Ok(cs) => {
                            let cs = match cs {
                                Some(c) => c,
                                None => CellSizes { address_cells: 2, size_cells: 1 },
                            };
                            if ranges_fit(pac, cs) {
                                Ok(Some((pac, cs, p.1)))
                            } else {
                                Err(FdtError::InvalidPropertyValue)
                            }
                        },
                    },
                },
            },
        },
    }
}

/// The `#address-cells` of the node with raw body `this`, 2 when absent.
pub open spec fn usize_prop_of(this: Seq<u8>, strings: Seq<u8>) -> Result<usize, FdtError> {
    match node_find_prop(this, strings, "#address-cells".spec_bytes()) {
        Err(e) => Err(e),
        Ok(None) => Ok(2),
        Ok(Some(p)) => match crate::properties::values::usize_value(p.1) {
            None => Err(FdtError::InvalidPropertyValue),
            Some(v) => Ok(v),
        },
    }
}

impl<'a> Ranges<'a> {
    /// The byte counts fit.
    pub closed spec fn wf(&self) -> bool {
        ranges_fit(self.parent_address_cells.0, self.cell_sizes)
    }

    /// An iterator over the triplets, collected into `CAddr`, `PAddr` and `Len`.
    pub fn iter<CAddr: CellCollector, PAddr: CellCollector, Len: CellCollector>(self) -> (r: RangesIter<'a, CAddr, PAddr, Len>)
        requires
            self.wf(),
        ensures
            r@ == self@,
            r.wf(),
    {
        RangesIter {
            parent_address_cells: self.parent_address_cells,
            cell_sizes: self.cell_sizes,
            ranges: self.ranges,
            _collectors: core::marker::PhantomData,
        }
    }
}

impl<'a> Property<'a> for Ranges<'a> {
    open spec fn parse_ensures(node: Node<'a>, r: Result<Option<Self>, FdtError>) -> bool {
        match spec_ranges(node) {
            Err(e) => r == Err::<Option<Self>, FdtError>(e),
            Ok(None) => r is Ok && r == Ok::<Option<Self>, FdtError>(None),
            Ok(Some(v)) => r matches Ok(Some(g)) && g@ == v && g.wf(),
        }
    }

    fn parse(node: Node<'a>, _root: Root<'a>) -> (r: Result<Option<Self>, FdtError>) {
        let ranges = match node.raw_property("ranges") {
            Ok(Some(p)) => p,
            Ok(None) => return Ok(None),
            Err(e) => return Err(e),
        };
        let parent = match node.parent() {
            Some(p) => p,
            None => return Err(FdtError::MissingParent),
        };
        let parent_address_cells = match parent.property::<AddressCells>() {
            Ok(Some(a)) => a,
            Ok(None) => AddressCells::default(),
            Err(e) => return Err(e),
        };
        let cell_sizes = match node.property::<CellSizes>() {
            Ok(Some(c)) => c,
            Ok(None) => CellSizes::default(),
            Err(e) => return Err(e),
        };
        let a = cell_sizes.address_cells;
        let p = parent_address_cells.0;
        let l = cell_sizes.size_cells;
        if a > usize::MAX / 4 || p > usize::MAX / 4 || l > usize::MAX / 4 || a * 4 > usize::MAX - p * 4
            || a * 4 + p * 4 > usize::MAX - l * 4 {
            return Err(FdtError::InvalidPropertyValue);
        }
        Ok(Some(Ranges { parent_address_cells, cell_sizes, ranges: ranges.value }))
    }
}

/// One address mapping of `ranges`.
#[derive(Debug, Clone, Copy, PartialEq, Eq, PartialOrd, Ord, Hash)]
pub struct Range<CAddr, PAddr, Len> {
    pub child_bus_address: CAddr,
    pub parent_bus_address: PAddr,
    pub len: Len,
}

/// One step over `ranges` triplets: the three parts, collected, and what
/// remains; `None` when no whole triplet remains.
pub open spec fn ranges_step<C: CellCollector, P: CellCollector, L: CellCollector>(
    pac: usize,
    cs: CellSizes,
    s: Seq<u8>,
) -> (Option<Result<Range<C::Output, P::Output, L::Output>, CollectCellsError>>, Seq<u8>) {
    let cb = cs.address_cells * 4;
    let pb = pac * 4;
    let lb = cs.size_cells * 4;
    if cb + pb + lb > s.len() {
        (None, s)
    } else {
        match collect_cells::<C>(cells_of(s.subrange(0, cb as int))) {
            Err(e) => (Some(Err(e)), s),
            Ok(c) => match collect_cells::<P>(cells_of(s.subrange(cb as int, cb + pb))) {
                Err(e) => (Some(Err(e)), s),
                Ok(p) => match collect_cells::<L>(cells_of(s.subrange(cb + pb, cb + pb + lb))) {
                    Err(e) => (Some(Err(e)), s),
                    Ok(l) => (
                        Some(Ok(Range { child_bus_address: c, parent_bus_address: p, len: l })),
                        s.subrange(cb + pb + lb, s.len() as int),
                    ),
                },
            },
        }
    }
}

/// A `ranges` triplet read with `u64` collectors: the child-bus address is
/// the number spelled by the first `#address-cells` cells of the entry, the
/// parent-bus address the number spelled by the next parent `#address-cells`
/// cells, and the length the number spelled by the `#size-cells` cells after
/// them; the iterator then moves past the whole triplet. A triplet that does
/// not fit in what remains ends the iteration, and a part too large for a
/// `u64` is an error.
pub proof fn law_ranges_triplet_u64(pac: usize, cs: CellSizes, s: Seq<u8>)
    ensures
        ({
            let cb = cs.address_cells * 4;
            let pb = pac * 4;
            let lb = cs.size_cells * 4;
            let child = be_value(cells_of(s.subrange(0, cb as int)));
            let parent = be_value(cells_of(s.subrange(cb as int, cb + pb)));
            let len = be_value(cells_of(s.subrange(cb + pb, cb + pb + lb)));
            &&& cb + pb + lb > s.len() ==> ranges_step::<u64, u64, u64>(pac, cs, s) == (
                None::<Result<Range<u64, u64, u64>, CollectCellsError>>,
                s,
            )
            &&& cb + pb + lb <= s.len() && child <= u64::MAX && parent <= u64::MAX && len <= u64::MAX
                ==> ranges_step::<u64, u64, u64>(pac, cs, s) == (
                Some(
                    Ok::<Range<u64, u64, u64>, CollectCellsError>(
                        Range { child_bus_address: child as u64, parent_bus_address: parent as u64, len: len as u64 },
                    ),
                ),
                s.subrange(cb + pb + lb, s.len() as int),
            )
            &&& cb + pb + lb <= s.len() && (child > u64::MAX || parent > u64::MAX || len > u64::MAX)
                ==> ranges_step::<u64, u64, u64>(pac, cs, s).0 matches Some(Err(_))
        }),
{
    let cb = cs.address_cells * 4;
    let pb = pac * 4;
    let lb = cs.size_cells * 4;
    crate::cell_collector::law_collect_u64(cells_of(s.subrange(0, cb as int)));
    crate::cell_collector::law_collect_u64(cells_of(s.subrange(cb as int, cb + pb)));
    crate::cell_collector::law_collect_u64(cells_of(s.subrange(cb + pb, cb + pb + lb)));
}

/// A `ranges` triplet read with `u32` collectors: the child-bus address is
/// the number spelled by the first `#address-cells` cells of the entry, the
/// parent-bus address that of the next parent `#address-cells` cells, and the
/// length that of the `#size-cells` cells after them.
pub proof fn law_ranges_triplet_u32(pac: usize, cs: CellSizes, s: Seq<u8>)
    ensures
        ({
            let cb = cs.address_cells * 4;
            let pb = pac * 4;
            let lb = cs.size_cells * 4;
            let child = be_value(cells_of(s.subrange(0, cb as int)));
            let parent = be_value(cells_of(s.subrange(cb as int, cb + pb)));
            let len = be_value(cells_of(s.subrange(cb + pb, cb + pb + lb)));
            &&& cb + pb + lb <= s.len() && child <= u32::MAX && parent <= u32::MAX && len <= u32::MAX
                ==> ranges_step::<u32, u32, u32>(pac, cs, s) == (
                Some(
                    Ok::<Range<u32, u32, u32>, CollectCellsError>(
                        Range { child_bus_address: child as u32, parent_bus_address: parent as u32, len: len as u32 },
                    ),
                ),
                s.subrange(cb + pb + lb, s.len() as int),
            )
            &&& cb + pb + lb <= s.len() && (child > u32::MAX || parent > u32::MAX || len > u32::MAX)
                ==> ranges_step::<u32, u32, u32>(pac, cs, s).0 matches Some(Err(_))
        }),
{
    let cb = cs.address_cells * 4;
    let pb = pac * 4;
    let lb = cs.size_cells * 4;
    crate::cell_collector::law_collect_u32(cells_of(s.subrange(0, cb as int)));
    crate::cell_collector::law_collect_u32(cells_of(s.subrange(cb as int, cb + pb)));
    crate::cell_collector::law_collect_u32(cells_of(s.subrange(cb + pb, cb + pb + lb)));
}

/// Iterator over the triplets of `ranges`.
pub struct RangesIter<'a, CAddr: CellCollector, PAddr: CellCollector, Len: CellCollector> {
    parent_address_cells: AddressCells,
    cell_sizes: CellSizes,
    ranges: &'a [u8],
    _collectors: core::marker::PhantomData<(CAddr, PAddr, Len)>,
}

impl<'a, CAddr: CellCollector, PAddr: CellCollector, Len: CellCollector> View for RangesIter<'a, CAddr, PAddr, Len> {
    type V = (usize, CellSizes, Seq<u8>);

    closed spec fn view(&self) -> (usize, CellSizes, Seq<u8>) {
        (self.parent_address_cells.0, self.cell_sizes, self.ranges@)
    }
}

impl<'a, CAddr: CellCollector, PAddr: CellCollector, Len: CellCollector> RangesIter<'a, CAddr, PAddr, Len> {
    /// The byte counts fit.
    pub closed spec fn wf(&self) -> bool {
        ranges_fit(self.parent_address_cells.0, self.cell_sizes)
    }

    /// The next triplet; an error leaves the iterator where it is.
    pub fn next(&mut self) -> (r: Option<Result<Range<CAddr::Output, PAddr::Output, Len::Output>, CollectCellsError>>)
        requires
            old(self).wf(),
        ensures
            final(self).wf(),
            r == ranges_step::<CAddr, PAddr, Len>(old(self)@.0, old(self)@.1, old(self)@.2).0,
            final(self)@ == (old(self)@.0, old(self)@.1, ranges_step::<CAddr, PAddr, Len>(old(self)@.0, old(self)@.1, old(self)@.2).1),
    {
        let child_address_bytes = self.cell_sizes.address_cells * 4;
        let parent_address_bytes = self.parent_address_cells.0 * 4;
        let len_bytes = self.cell_sizes.size_cells * 4;
        let total = child_address_bytes + parent_address_bytes + len_bytes;
        let n = self.ranges.len();
        if total > n {
            return None;
        }
        let child = &self.ranges[0..child_address_bytes];
        let parent = &self.ranges[child_address_bytes..child_address_bytes + parent_address_bytes];
        let len = &self.ranges[child_address_bytes + parent_address_bytes..total];
        let c = match collect_from_bytes::<CAddr>(child) {
            Ok(v) => v,
            Err(e) => return Some(Err(e)),
        };
        let p = match collect_from_bytes::<PAddr>(parent) {
            Ok(v) => v,
            Err(e) => return Some(Err(e)),
        };
        let l = match collect_from_bytes::<Len>(len) {
            Ok(v) => v,
            Err(e) => return Some(Err(e)),
        };
        self.ranges = &self.ranges[total..n];
        Some(Ok(Range { child_bus_address: c, parent_bus_address: p, len: l }))
    }
}

impl<'a> Node<'a> {
    /// The `ranges` property: how the node's address space maps onto its
    /// parent's.
    pub fn ranges(&self) -> (r: Result<Option<Ranges<'a>>, FdtError>)
        ensures
            spec_parse_root(self.structs_view()) matches Err(e) ==> r == Err::<Option<Ranges>, FdtError>(e),
            spec_parse_root(self.structs_view()) is Ok ==> match spec_ranges(*self) {
                Err(e) => r == Err::<Option<Ranges>, FdtError>(e),
                Ok(None) => r == Ok::<Option<Ranges>, FdtError>(None),
                Ok(Some(v)) => r matches Ok(Some(g)) && g@ == v && g.wf(),
            },
    {
        self.property::<Ranges<'a>>()
    }
}

} // verus!
