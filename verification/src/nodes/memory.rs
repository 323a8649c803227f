use vstd::prelude::*;
use vstd::string::*;

use crate::cell_collector::{be_value, cells_of, collect_cells, collect_from_bytes, CellCollector, CollectCellsError};
use crate::nodes::{node_find_prop, spec_node_name, AsNode, Node, NodeChildrenIter, NodeName};
use crate::parsing::spec_parse_root;
use crate::properties::cells::{spec_cell_sizes, CellSizes, SizeCells};
use crate::properties::reg::{spec_reg, Reg};
use crate::properties::{has_prop, node_has_prop, usize_prop, Compatible, Property};
use crate::util::{be_u32, be_u64, read_be_u32, read_be_u64};
use crate::FdtError;

verus! {

broadcast use vstd::seq::group_seq_axioms;

/// A `/memory` node: the physical memory layout of the system.
#[derive(Clone, Copy)]
pub struct Memory<'a> {
    pub(crate) node: Node<'a>,
}

/// The initial mapped area of a `/memory` node: effective address, physical
/// address and size.
#[allow(missing_docs)]
#[derive(Debug, Clone, Copy, PartialEq, Eq, PartialOrd, Ord, Hash)]
pub struct MappedArea {
    pub effective_address: u64,
    pub physical_address: u64,
    pub size: u32,
}

/// The `initial-mapped-area` property: twenty bytes, two big-endian `u64`s
/// and a big-endian `u32`.
pub open spec fn spec_mapped_area(this: Seq<u8>, strings: Seq<u8>) -> Result<Option<MappedArea>, FdtError> {
    match node_find_prop(this, strings, "initial-mapped-area".spec_bytes()) {
        Err(e) => Err(e),
        Ok(None) => Ok(None),
        Ok(Some(p)) => if p.1.len() != 20 {
            Err(FdtError::InvalidPropertyValue)
        } else {
            Ok(
                Some(
                    MappedArea {
                        effective_address: be_u64(p.1.subrange(0, 8)),
                        physical_address: be_u64(p.1.subrange(8, 16)),
                        size: be_u32(p.1.subrange(16, 20)),
                    },
                ),
            )
        },
    }
}

/// The `initial-mapped-area` of a node is read from the twenty bytes of its
/// value in order: the effective address is the big-endian `u64` of bytes
/// 0..8, the physical address that of bytes 8..16, and the size the
/// big-endian `u32` of bytes 16..20; a value of another length is refused.
pub proof fn law_mapped_area_layout(this: Seq<u8>, strings: Seq<u8>)
    ensures
        node_find_prop(this, strings, "initial-mapped-area".spec_bytes()) matches Ok(Some(p)) ==> {
            &&& p.1.len() != 20 ==> spec_mapped_area(this, strings) == Err::<Option<MappedArea>, FdtError>(
                FdtError::InvalidPropertyValue,
            )
            &&& p.1.len() == 20 ==> (spec_mapped_area(this, strings) matches Ok(Some(m)) && m.effective_address as int
                == p.1[0] as int * 0x100_0000_0000_0000 + p.1[1] as int * 0x1_0000_0000_0000 + p.1[2] as int
                * 0x100_0000_0000 + p.1[3] as int * 0x1_0000_0000 + p.1[4] as int * 0x100_0000 + p.1[5] as int
                * 0x1_0000 + p.1[6] as int * 0x100 + p.1[7] as int && m.physical_address as int == p.1[8] as int
                * 0x100_0000_0000_0000 + p.1[9] as int * 0x1_0000_0000_0000 + p.1[10] as int * 0x100_0000_0000
                + p.1[11] as int * 0x1_0000_0000 + p.1[12] as int * 0x100_0000 + p.1[13] as int * 0x1_0000
                + p.1[14] as int * 0x100 + p.1[15] as int && m.size as int == p.1[16] as int * 0x100_0000
                + p.1[17] as int * 0x1_0000 + p.1[18] as int * 0x100 + p.1[19] as int)
        },
{
    if let Ok(Some(p)) = node_find_prop(this, strings, "initial-mapped-area".spec_bytes()) {
        if p.1.len() == 20 {
            crate::util::lemma_be_u64_bytes(p.1.subrange(0, 8));
            crate::util::lemma_be_u64_bytes(p.1.subrange(8, 16));
            crate::util::lemma_be_u32_bytes(p.1.subrange(16, 20));
        }
    }
}

impl<'a> Memory<'a> {
    /// The memory node.
    pub closed spec fn node_view(&self) -> Node<'a> {
        self.node
    }

    /// The memory node, given its node.
    pub fn new(node: Node<'a>) -> (r: Self)
        ensures
            r.node_view() == node,
    {
        Memory { node }
    }

    /// The address and size pairs of the memory ranges (required).
    pub fn reg(&self) -> (r: Result<Reg<'a>, FdtError>)
        ensures
            spec_parse_root(self.node_view().structs_view()) matches Err(e) ==> r == Err::<Reg, FdtError>(e),
            spec_parse_root(self.node_view().structs_view()) is Ok ==> match spec_reg(self.node_view()) {
                Err(e) => r == Err::<Reg, FdtError>(e),
                Ok(None) => r == Err::<Reg, FdtError>(FdtError::MissingRequiredProperty("reg")),
                Ok(Some(v)) => r matches Ok(g) && g@ == v && g.wf(),
            },
    {
        match self.node.reg() {
            Ok(Some(r)) => Ok(r),
            Ok(None) => Err(FdtError::MissingRequiredProperty("reg")),
            Err(e) => Err(e),
        }
    }

    /// The address and size of the Initial Mapped Area (optional).
    pub fn initial_mapped_area(&self) -> (r: Result<Option<MappedArea>, FdtError>)
        ensures
            r == spec_mapped_area(self.node_view().this_view(), self.node_view().strings_view()),
    {
        match self.node.raw_property("initial-mapped-area") {
            Err(e) => Err(e),
            Ok(None) => Ok(None),
            Ok(Some(prop)) => {
                let value = prop.value;
                if value.len() != 20 {
                    return Err(FdtError::InvalidPropertyValue);
                }
                Ok(Some(MappedArea {
                    effective_address: read_be_u64(&value[0..8]),
                    physical_address: read_be_u64(&value[8..16]),
                    size: read_be_u32(&value[16..20]),
                }))
            },
        }
    }

    /// Whether this memory may potentially be removed later.
    pub fn hotpluggable(&self) -> (r: Result<bool, FdtError>)
        ensures
            r == has_prop(self.node_view().this_view(), self.node_view().strings_view(), "hotpluggable".spec_bytes()),
    {
        node_has_prop(&self.node, "hotpluggable")
    }
}

impl<'a> AsNode<'a> for Memory<'a> {
    open spec fn node_of(&self) -> Node<'a> {
        self.node_view()
    }

    fn as_node(&self) -> (r: Node<'a>) {
        self.node
    }
}

/// The `/reserved-memory` node: regions excluded from normal use.
#[derive(Clone, Copy)]
pub struct ReservedMemory<'a> {
    pub(crate) node: Node<'a>,
}

impl<'a> ReservedMemory<'a> {
    /// The reserved-memory node.
    pub closed spec fn node_view(&self) -> Node<'a> {
        self.node
    }

    /// The reserved-memory node, given its node.
    pub fn new(node: Node<'a>) -> (r: Self)
        ensures
            r.node_view() == node,
    {
        ReservedMemory { node }
    }

    /// The `#address-cells` and `#size-cells` of this node (required).
    pub fn cell_sizes(&self) -> (r: Result<CellSizes, FdtError>)
        ensures
            spec_parse_root(self.node_view().structs_view()) matches Err(e) ==> r == Err::<CellSizes, FdtError>(e),
            spec_parse_root(self.node_view().structs_view()) is Ok ==> match spec_cell_sizes(self.node_view().this_view(), self.node_view().strings_view()) {
                Err(e) => r == Err::<CellSizes, FdtError>(e),
                Ok(None) => r == Err::<CellSizes, FdtError>(FdtError::MissingRequiredNode("#address-cells/#size-cells")),
                Ok(Some(c)) => r == Ok::<CellSizes, FdtError>(c),
            },
    {
        match self.node.property::<CellSizes>() {
            Ok(Some(c)) => Ok(c),
            Ok(None) => Err(FdtError::MissingRequiredNode("#address-cells/#size-cells")),
            Err(e) => Err(e),
        }
    }

    /// The child nodes, each describing a reserved region.
    pub fn children(&self) -> (r: Result<ReservedMemoryChildrenIter<'a>, FdtError>)
        ensures
            crate::nodes::node_children_start(self.node_view().this_view()) matches Ok(s) ==> r matches Ok(it) && it@ == s
                && it.parent_view() == self.node_view().this_view()
                && it.strings_view() == self.node_view().strings_view()
                && it.structs_view() == self.node_view().structs_view(),
            crate::nodes::node_children_start(self.node_view().this_view()) matches Err(e) ==> r == Err::<ReservedMemoryChildrenIter, FdtError>(e),
    {
        match self.node.children() {
            Ok(c) => Ok(ReservedMemoryChildrenIter { children: c.iter() }),
            Err(e) => Err(e),
        }
    }
}

impl<'a> AsNode<'a> for ReservedMemory<'a> {
    open spec fn node_of(&self) -> Node<'a> {
        self.node_view()
    }

    fn as_node(&self) -> (r: Node<'a>) {
        self.node
    }
}

/// Iterator over the children of `/reserved-memory`.
pub struct ReservedMemoryChildrenIter<'a> {
    children: NodeChildrenIter<'a>,
}

impl<'a> View for ReservedMemoryChildrenIter<'a> {
    type V = Seq<u8>;

    closed spec fn view(&self) -> Seq<u8> {
        self.children@
    }
}

impl<'a> ReservedMemoryChildrenIter<'a> {
    /// The raw body of the parent node.
    pub closed spec fn parent_view(&self) -> Seq<u8> {
        self.children.parent_view()
    }

    /// The strings block.
    pub closed spec fn strings_view(&self) -> Seq<u8> {
        self.children.strings_view()
    }

    /// The structure block.
    pub closed spec fn structs_view(&self) -> Seq<u8> {
        self.children.structs_view()
    }

    /// The next reserved region.
    pub fn next(&mut self) -> (r: Option<Result<ReservedMemoryChild<'a>, FdtError>>)
        ensures
            match crate::nodes::child_step(old(self)@).0 {
                Err(e) => r == Some(Err::<ReservedMemoryChild, FdtError>(e)),
                Ok(None) => r is None,
                Ok(Some(c)) => r matches Some(Ok(x)) && x.node_view().this_view() == c
                    && x.node_view().parent_view() == Some(old(self).parent_view()) && x.wf()
                    && x.node_view().strings_view() == old(self).strings_view()
                    && x.node_view().structs_view() == old(self).structs_view(),
            },
            final(self)@ == crate::nodes::child_step(old(self)@).1,
            final(self).parent_view() == old(self).parent_view(),
            final(self).strings_view() == old(self).strings_view(),
            final(self).structs_view() == old(self).structs_view(),
    {
        match self.children.next() {
            Some(Ok(node)) => Some(Ok(ReservedMemoryChild { node })),
            Some(Err(e)) => Some(Err(e)),
            None => None,
        }
    }
}

/// A region under `/reserved-memory`.
#[derive(Clone, Copy)]
pub struct ReservedMemoryChild<'a> {
    node: Node<'a>,
}

/// A size-like property of a reserved region: exactly the parent's
/// `#size-cells` cells (1 when absent), collected.
pub open spec fn reserved_cells_prop<C: CellCollector>(
    this: Seq<u8>,
    parent: Seq<u8>,
    strings: Seq<u8>,
    structs: Seq<u8>,
    name: Seq<u8>,
) -> Result<Option<Result<C::Output, CollectCellsError>>, FdtError> {
    match node_find_prop(this, strings, name) {
        Err(e) => Err(e),
        Ok(None) => Ok(None),
        Ok(Some(p)) => match spec_parse_root(structs) {
            Err(e) => Err(e),
            Ok(_) => match usize_prop(parent, strings, "#size-cells".spec_bytes()) {
                Err(e) => Err(e),
                Ok(sc) => {
                    let sc = match sc {
                        Some(v) => v,
                        None => 1,
                    };
                    if sc == 0 || p.1.len() != 4 * sc {
                        Err(FdtError::InvalidPropertyValue)
                    } else {
                        Ok(Some(collect_cells::<C>(cells_of(p.1))))
                    }
                },
            },
        },
    }
}

/// A reserved region's `size` or `alignment`, read as a `u64`, is the number
/// spelled by the cells of its value, which must be exactly the parent's
/// `#size-cells` cells (one when the parent has none); a value of another
/// length, or a `#size-cells` of 0, is refused.
pub proof fn law_reserved_cells_u64(this: Seq<u8>, parent: Seq<u8>, strings: Seq<u8>, structs: Seq<u8>, name: Seq<u8>)
    ensures
        node_find_prop(this, strings, name) matches Ok(Some(p)) ==> (spec_parse_root(structs) is Ok ==> (usize_prop(
            parent,
            strings,
            "#size-cells".spec_bytes(),
        ) matches Ok(sc) ==> {
            let n: int = match sc {
                Some(v) => v as int,
                None => 1,
            };
            &&& (n == 0 || p.1.len() != 4 * n) ==> reserved_cells_prop::<u64>(this, parent, strings, structs, name)
                == Err::<Option<Result<u64, CollectCellsError>>, FdtError>(FdtError::InvalidPropertyValue)
            &&& (n > 0 && p.1.len() == 4 * n && be_value(cells_of(p.1)) <= u64::MAX) ==> reserved_cells_prop::<u64>(
                this,
                parent,
                strings,
                structs,
                name,
            ) == Ok::<Option<Result<u64, CollectCellsError>>, FdtError>(Some(Ok(be_value(cells_of(p.1)) as u64)))
        })),
{
    if let Ok(Some(p)) = node_find_prop(this, strings, name) {
        crate::cell_collector::law_collect_u64(cells_of(p.1));
    }
}

impl<'a> ReservedMemoryChild<'a> {
    /// The region's node.
    pub closed spec fn node_view(&self) -> Node<'a> {
        self.node
    }

    /// The region's node has its parent.
    pub closed spec fn wf(&self) -> bool {
        self.node.parent_view() is Some
    }

    /// The region of the given node, which has its parent.
    pub fn new(node: Node<'a>) -> (r: Self)
        requires
            node.parent_view() is Some,
        ensures
            r.node_view() == node,
            r.wf(),
    {
        ReservedMemoryChild { node }
    }

    /// The region's name.
    pub fn name(&self) -> (r: Result<NodeName<'a>, FdtError>)
        ensures
            spec_node_name(self.node_view().this_view()) matches Ok(n) ==> r matches Ok(x) && x@ == n,
            spec_node_name(self.node_view().this_view()) matches Err(e) ==> r == Err::<NodeName, FdtError>(e),
    {
        self.node.name()
    }

    /// The address and size pairs of the region (optional).
    pub fn reg(&self) -> (r: Result<Option<Reg<'a>>, FdtError>)
        ensures
            spec_parse_root(self.node_view().structs_view()) matches Err(e) ==> r == Err::<Option<Reg>, FdtError>(e),
            spec_parse_root(self.node_view().structs_view()) is Ok ==> match spec_reg(self.node_view()) {
                Err(e) => r == Err::<Option<Reg>, FdtError>(e),
                Ok(None) => r == Ok::<Option<Reg>, FdtError>(None),
                Ok(Some(v)) => r matches Ok(Some(g)) && g@ == v && g.wf(),
            },
    {
        self.node.reg()
    }

    /// Size in bytes of memory to reserve for dynamically allocated regions.
    pub fn size<C: CellCollector>(&self) -> (r: Result<Option<Result<C::Output, CollectCellsError>>, FdtError>)
        requires
            self.wf(),
        ensures
            r == reserved_cells_prop::<C>(self.node_view().this_view(), self.node_view().parent_view().unwrap(),
                self.node_view().strings_view(), self.node_view().structs_view(), "size".spec_bytes()),
    {
        self.cells_prop::<C>("size")
    }

    /// Address boundary for alignment of allocation.
    pub fn alignment<C: CellCollector>(&self) -> (r: Result<Option<Result<C::Output, CollectCellsError>>, FdtError>)
        requires
            self.wf(),
        ensures
            r == reserved_cells_prop::<C>(self.node_view().this_view(), self.node_view().parent_view().unwrap(),
                self.node_view().strings_view(), self.node_view().structs_view(), "alignment".spec_bytes()),
    {
        self.cells_prop::<C>("alignment")
    }

    fn cells_prop<C: CellCollector>(&self, name: &str) -> (r: Result<Option<Result<C::Output, CollectCellsError>>, FdtError>)
        requires
            self.wf(),
        ensures
            r == reserved_cells_prop::<C>(self.node_view().this_view(), self.node_view().parent_view().unwrap(),
                self.node_view().strings_view(), self.node_view().structs_view(), name.spec_bytes()),
    {
        let prop = match self.node.raw_property(name) {
            Ok(Some(p)) => p,
            Ok(None) => return Ok(None),
            Err(e) => return Err(e),
        };
        let parent = match self.node.parent() {
            Some(p) => p,
            None => return Ok(None),
        };
        let size_cells = match parent.property::<SizeCells>() {
            Ok(Some(s)) => s,
            Ok(None) => SizeCells(1),
            Err(e) => return Err(e),
        };
        if size_cells.0 == 0 || size_cells.0 > prop.value.len() / 4 || prop.value.len() != 4 * size_cells.0 {
            return Err(FdtError::InvalidPropertyValue);
        }
        Ok(Some(collect_from_bytes::<C>(prop.value)))
    }

    /// The `compatible` strings of the region (optional).
    pub fn compatible(&self) -> (r: Result<Option<Compatible<'a>>, FdtError>)
        ensures
            spec_parse_root(self.node_view().structs_view()) matches Err(e) ==> r == Err::<Option<Compatible>, FdtError>(e),
            spec_parse_root(self.node_view().structs_view()) is Ok ==> <Compatible as Property>::parse_ensures(self.node_view(), r),
    {
        self.node.property::<Compatible<'a>>()
    }

    /// Whether the operating system must not create a virtual mapping of the
    /// region.
    pub fn no_map(&self) -> (r: Result<bool, FdtError>)
        ensures
            r == has_prop(self.node_view().this_view(), self.node_view().strings_view(), "no-map".spec_bytes()),
    {
        node_has_prop(&self.node, "no-map")
    }

    /// Whether the operating system can use the memory in this region, with
    /// the owning drivers able to reclaim it.
    pub fn reusable(&self) -> (r: Result<bool, FdtError>)
        ensures
            r == has_prop(self.node_view().this_view(), self.node_view().strings_view(), "reusable".spec_bytes()),
    {
        node_has_prop(&self.node, "reusable")
    }

    /// Whether Linux uses the region for the default pool of the contiguous
    /// memory allocator: the `linux,cma-default` property is present.
    pub fn cma_default(&self) -> (r: Result<bool, FdtError>)
        ensures
            r == has_prop(self.node_view().this_view(), self.node_view().strings_view(), "linux,cma-default".spec_bytes()),
    {
        node_has_prop(&self.node, "linux,cma-default")
    }

    /// Whether Linux uses the region for the default pool of the consistent
    /// DMA allocator: the `linux,dma-default` property is present.
    pub fn dma_default(&self) -> (r: Result<bool, FdtError>)
        ensures
            r == has_prop(self.node_view().this_view(), self.node_view().strings_view(), "linux,dma-default".spec_bytes()),
    {
        node_has_prop(&self.node, "linux,dma-default")
    }
}

impl<'a> AsNode<'a> for ReservedMemoryChild<'a> {
    open spec fn node_of(&self) -> Node<'a> {
        self.node_view()
    }

    fn as_node(&self) -> (r: Node<'a>) {
        self.node
    }
}

/// A memory region
#[allow(missing_docs)]
#[derive(Debug, Clone, Copy, PartialEq)]
pub struct MemoryRegion {
    pub starting_address: u64,
    pub size: Option<usize>,
}

/// Range mapping child bus addresses to parent bus addresses
#[derive(Debug, Clone, Copy, PartialEq)]
pub struct MemoryRange {
    /// Starting address on child bus
    pub child_bus_address: usize,
    /// The high bits of the child bus' starting address, if present
    pub child_bus_address_hi: u32,
    /// Starting address on parent bus
    pub parent_bus_address: usize,
    /// Size of range
    pub size: usize,
}

} // verus!
