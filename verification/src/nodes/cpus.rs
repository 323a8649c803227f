use vstd::prelude::*;
use vstd::string::*;

use crate::cell_collector::{cells_of, collect_cells, collect_from_bytes, CellCollector, CollectCellsError};
use crate::nodes::root::{has_phandle, law_phandle_first, phandle_walk, walk_nodes, walk_start};
use crate::nodes::{
    filtered_step, find_child, node_children_start, node_find_prop, spec_node_name, str_query, AsNode, Node,
    NodeChildrenIter,
};
use crate::parsing::spec_parse_root;
use crate::properties::cells::{spec_cell_sizes, AddressCells, CellSizes};
use crate::properties::values::{split_off, split_step, StringList};
use crate::properties::{
    has_prop, node_has_prop, node_str_prop, node_u32_prop, node_u64_prop, opt_str_result, str_prop, trim_prefix,
    u32_prop, u64_prop, usize_prop, PHandle,
};
use crate::util::{bytes_starts_with, empty_str, parse_usize, parse_usize_bytes, str_eq, str_from_utf8};
use crate::FdtError;

verus! {

broadcast use vstd::seq::group_seq_axioms;

/// The `/cpus` node: a container for the `cpu` nodes, which represent the
/// system's CPUs.
#[derive(Clone, Copy)]
pub struct Cpus<'a> {
    pub(crate) node: Node<'a>,
}

impl<'a> Cpus<'a> {
    /// The cpus node.
    pub closed spec fn node_view(&self) -> Node<'a> {
        self.node
    }

    /// The cpus node, given its node.
    pub fn new(node: Node<'a>) -> (r: Self)
        ensures
            r.node_view() == node,
    {
        Cpus { node }
    }

    /// The `#address-cells` and `#size-cells` of this node (required).
    pub fn cell_sizes(&self) -> (r: Result<CellSizes, FdtError>)
        ensures
            spec_parse_root(self.node_view().structs_view()) matches Err(e) ==> r == Err::<CellSizes, FdtError>(e),
            spec_parse_root(self.node_view().structs_view()) is Ok ==> match spec_cell_sizes(self.node_view().this_view(), self.node_view().strings_view()) {
                Err(e) => r == Err::<CellSizes, FdtError>(e),
                Ok(None) => r == Err::<CellSizes, FdtError>(FdtError::MissingRequiredProperty("#address-cells/#size-cells")),
                Ok(Some(c)) => r == Ok::<CellSizes, FdtError>(c),
            },
    {
        match self.node.property::<CellSizes>() {
            Ok(Some(c)) => Ok(c),
            Ok(None) => Err(FdtError::MissingRequiredProperty("#address-cells/#size-cells")),
            Err(e) => Err(e),
        }
    }

    /// The `timebase-frequency` common to the `cpu` nodes, when this node
    /// holds one: four or eight big-endian bytes.
    pub fn common_timebase_frequency(&self) -> (r: Result<Option<u64>, FdtError>)
        ensures
            r == u64_prop(self.node_view().this_view(), self.node_view().strings_view(), "timebase-frequency".spec_bytes()),
    {
        node_u64_prop(&self.node, "timebase-frequency")
    }

    /// The `clock-frequency` common to the `cpu` nodes, when this node holds
    /// one: four or eight big-endian bytes.
    pub fn common_clock_frequency(&self) -> (r: Result<Option<u64>, FdtError>)
        ensures
            r == u64_prop(self.node_view().this_view(), self.node_view().strings_view(), "clock-frequency".spec_bytes()),
    {
        node_u64_prop(&self.node, "clock-frequency")
    }

    /// The optional `cpu-map` child, which describes the socket and CPU
    /// topology.
    pub fn topology(&self) -> (r: Result<Option<CpuTopology<'a>>, FdtError>)
        ensures
            match node_children_start(self.node_view().this_view()) {
                Err(e) => r == Err::<Option<CpuTopology>, FdtError>(e),
                Ok(s) => match find_child(s, str_query("cpu-map".spec_bytes())) {
                    Err(e) => r == Err::<Option<CpuTopology>, FdtError>(e),
                    Ok(None) => r == Ok::<Option<CpuTopology>, FdtError>(None),
                    Ok(Some(c)) => r matches Ok(Some(t)) && t.node_view().this_view() == c
                        && t.node_view().parent_view() == Some(self.node_view().this_view())
                        && t.node_view().same_tree(self.node_view()),
                },
            },
    {
        match self.node.child("cpu-map") {
            Ok(Some(node)) => Ok(Some(CpuTopology { node })),
            Ok(None) => Ok(None),
            Err(e) => Err(e),
        }
    }

    /// An iterator over the children named `cpu`.
    pub fn iter(&self) -> (r: Result<CpusIter<'a>, FdtError>)
        ensures
            node_children_start(self.node_view().this_view()) matches Ok(s) ==> r matches Ok(it) && it@ == s
                && it.parent_view() == self.node_view().this_view()
                && it.strings_view() == self.node_view().strings_view()
                && it.structs_view() == self.node_view().structs_view(),
            node_children_start(self.node_view().this_view()) matches Err(e) ==> r == Err::<CpusIter, FdtError>(e),
    {
        match self.node.children() {
            Ok(c) => Ok(CpusIter { children: c.iter() }),
            Err(e) => Err(e),
        }
    }
}

impl<'a> AsNode<'a> for Cpus<'a> {
    open spec fn node_of(&self) -> Node<'a> {
        self.node_view()
    }

    fn as_node(&self) -> (r: Node<'a>) {
        self.node
    }
}

/// Iterator over the `cpu` children of `/cpus`.
pub struct CpusIter<'a> {
    children: NodeChildrenIter<'a>,
}

impl<'a> View for CpusIter<'a> {
    type V = Seq<u8>;

    closed spec fn view(&self) -> Seq<u8> {
        self.children@
    }
}

impl<'a> CpusIter<'a> {
    /// The raw body of the `/cpus` node.
    pub closed spec fn parent_view(&self) -> Seq<u8> {
        self.children.parent_view()
    }

    /// The strings block.
    pub closed spec fn strings_view(&self) -> Seq<u8> {
        self.children.strings_view()
    }

    /// The structure block.
    pub closed spec fn structs_view(&self) -> Seq<u8> {
        self.children.structs_view()
    }

    /// The next child named `cpu`; children whose name cannot be read are
    /// passed over, other errors are handed out.
    pub fn next(&mut self) -> (r: Option<Result<Cpu<'a>, FdtError>>)
        ensures
            match filtered_step(old(self)@, "cpu".spec_bytes(), true).0 {
                None => r is None,
                Some(Err(e)) => r == Some(Err::<Cpu, FdtError>(e)),
                Some(Ok(c)) => r matches Some(Ok(x)) && x.node_view().this_view() == c
                    && x.node_view().parent_view() == Some(old(self).parent_view())
                    && x.node_view().strings_view() == old(self).strings_view()
                    && x.node_view().structs_view() == old(self).structs_view(),
            },
            final(self)@ == filtered_step(old(self)@, "cpu".spec_bytes(), true).1,
            final(self).parent_view() == old(self).parent_view(),
            final(self).strings_view() == old(self).strings_view(),
            final(self).structs_view() == old(self).structs_view(),
    {
        match self.children.next_filtered("cpu".as_bytes(), true) {
            Some(Ok(node)) => Some(Ok(Cpu { node })),
            Some(Err(e)) => Some(Err(e)),
            None => None,
        }
    }
}

/// A `cpu` node: a hardware execution block able to run an operating system
/// on its own.  A property missing from a `cpu` node is looked up in the
/// parent `/cpus` node.
#[derive(Clone, Copy)]
pub struct Cpu<'a> {
    pub(crate) node: Node<'a>,
}

/// What `reg` of a `cpu` node gives: the value of its `reg` property and the
/// parent's `#address-cells`; a value empty or shorter than one id is
/// refused.
pub open spec fn spec_cpu_reg(node: Node) -> Result<(Seq<u8>, usize), FdtError> {
    match node_find_prop(node.this_view(), node.strings_view(), "reg".spec_bytes()) {
        Err(e) => Err(e),
        Ok(None) => Err(FdtError::MissingRequiredProperty("reg")),
        Ok(Some(p)) => if p.1.len() == 0 {
            Err(FdtError::InvalidPropertyValue)
        } else {
            match node.parent_view() {
                None => Err(FdtError::MissingParent),
                Some(parent) => match spec_parse_root(node.structs_view()) {
                    Err(e) => Err(e),
                    Ok(_) => match usize_prop(parent, node.strings_view(), "#address-cells".spec_bytes()) {
                        Err(e) => Err(e),
                        Ok(None) => Err(FdtError::MissingRequiredProperty("#address-cells")),
                        Ok(Some(ac)) => if p.1.len() < 4 * ac {
                            Err(FdtError::InvalidPropertyValue)
                        } else {
                            Ok((p.1, ac))
                        },
                    },
                },
            }
        },
    }
}

/// A frequency property of a `cpu` node, four or eight bytes, taken from the
/// parent when the node lacks it.
pub open spec fn inherited_u64(node: Node, name: Seq<u8>, missing: FdtError) -> Result<u64, FdtError> {
    match u64_prop(node.this_view(), node.strings_view(), name) {
        Err(e) => Err(e),
        Ok(Some(v)) => Ok(v),
        Ok(None) => match node.parent_view() {
            None => Err(FdtError::MissingParent),
            Some(p) => match u64_prop(p, node.strings_view(), name) {
                Err(e) => Err(e),
                Ok(None) => Err(missing),
                Ok(Some(v)) => Ok(v),
            },
        },
    }
}

impl<'a> Cpu<'a> {
    /// The cpu node.
    pub closed spec fn node_view(&self) -> Node<'a> {
        self.node
    }

    /// The cpu of the given node.
    pub fn new(node: Node<'a>) -> (r: Self)
        ensures
            r.node_view() == node,
    {
        Cpu { node }
    }

    /// The CPU/thread ids held by `reg` (required), one per thread, each
    /// encoded with the parent's `#address-cells`; a `reg` shorter than one id
    /// is refused, so that the first id always exists.
    pub fn reg<C: CellCollector>(self) -> (r: Result<CpuIds<'a, C>, FdtError>)
        ensures
            match spec_cpu_reg(self.node_view()) {
                Err(e) => r matches Err(x) && x == e,
                Ok(v) => r matches Ok(ids) && ids@ == v,
            },
            r matches Ok(ids) ==> ids@.1 * 4 <= ids@.0.len(),
    {
        let reg = match self.node.raw_property("reg") {
            Ok(Some(p)) => p,
            Ok(None) => return Err(FdtError::MissingRequiredProperty("reg")),
            Err(e) => return Err(e),
        };
        if reg.value.len() == 0 {
            return Err(FdtError::InvalidPropertyValue);
        }
        let parent = match self.node.parent() {
            Some(p) => p,
            None => return Err(FdtError::MissingParent),
        };
        let address_cells = match parent.property::<AddressCells>() {
            Ok(Some(a)) => a,
            Ok(None) => return Err(FdtError::MissingRequiredProperty("#address-cells")),
            Err(e) => return Err(e),
        };
        if address_cells.0 > reg.value.len() / 4 {
            return Err(FdtError::InvalidPropertyValue);
        }
        Ok(CpuIds { reg: reg.value, address_cells: address_cells.0, _collector: core::marker::PhantomData })
    }

    /// The frequency property `name`, from this node or else from its parent.
    fn inherited_frequency(&self, name: &str, missing: FdtError) -> (r: Result<u64, FdtError>)
        ensures
            r == inherited_u64(self.node_view(), name.spec_bytes(), missing),
    {
        match node_u64_prop(&self.node, name) {
            Err(e) => Err(e),
            Ok(Some(v)) => Ok(v),
            Ok(None) => match self.node.parent() {
                None => Err(FdtError::MissingParent),
                Some(p) => match node_u64_prop(&p, name) {
                    Err(e) => Err(e),
                    Ok(None) => Err(missing),
                    Ok(Some(v)) => Ok(v),
                },
            },
        }
    }

    /// The current clock speed of the CPU in Hertz (required): a `<u32>` or
    /// a `<u64>`.
    pub fn clock_frequency(self) -> (r: Result<u64, FdtError>)
        ensures
            r == inherited_u64(self.node_view(), "clock-frequency".spec_bytes(),
                FdtError::MissingRequiredProperty("clock-frequency")),
    {
        self.inherited_frequency("clock-frequency", FdtError::MissingRequiredProperty("clock-frequency"))
    }

    /// The frequency in Hertz at which the timebase and decrementer registers
    /// are updated (required): a `<u32>` or a `<u64>`.
    pub fn timebase_frequency(self) -> (r: Result<u64, FdtError>)
        ensures
            r == inherited_u64(self.node_view(), "timebase-frequency".spec_bytes(),
                FdtError::MissingRequiredProperty("timebase-frequency")),
    {
        self.inherited_frequency("timebase-frequency", FdtError::MissingRequiredProperty("timebase-frequency"))
    }

    /// The state of the CPU: `"okay"`, `"disabled"` or `"fail"`.
    pub fn status(&self) -> (r: Result<Option<CpuStatus<'a>>, FdtError>)
        ensures
            match str_prop(self.node_view().this_view(), self.node_view().strings_view(), "status".spec_bytes()) {
                Err(e) => r == Err::<Option<CpuStatus>, FdtError>(e),
                Ok(None) => r == Ok::<Option<CpuStatus>, FdtError>(None),
                Ok(Some(b)) => r matches Ok(Some(s)) && s@ == b,
            },
    {
        match node_str_prop(&self.node, "status") {
            Ok(Some(s)) => Ok(Some(CpuStatus(s))),
            Ok(None) => Ok(None),
            Err(e) => Err(e),
        }
    }

    /// The methods by which a disabled CPU is enabled: one or more strings;
    /// an empty value is refused.
    pub fn enable_method(&self) -> (r: Result<Option<CpuEnableMethods<'a>>, FdtError>)
        ensures
            match str_prop(self.node_view().this_view(), self.node_view().strings_view(), "enable-method".spec_bytes()) {
                Err(e) => r == Err::<Option<CpuEnableMethods>, FdtError>(e),
                Ok(None) => r == Ok::<Option<CpuEnableMethods>, FdtError>(None),
                Ok(Some(b)) => if b.len() == 0 {
                    r == Err::<Option<CpuEnableMethods>, FdtError>(FdtError::InvalidPropertyValue)
                } else {
                    r matches Ok(Some(m)) && m@ == Some(b) && m.wf()
                },
            },
    {
        match node_str_prop(&self.node, "enable-method") {
            Ok(Some(s)) => {
                if s.as_bytes().len() == 0 {
                    return Err(FdtError::InvalidPropertyValue);
                }
                Ok(Some(CpuEnableMethods(StringList::from_str(s))))
            },
            Ok(None) => Ok(None),
            Err(e) => Err(e),
        }
    }

    /// The CPU's MMU type.
    pub fn mmu_type(&self) -> (r: Result<Option<&'a str>, FdtError>)
        ensures
            opt_str_result(r, str_prop(self.node_view().this_view(), self.node_view().strings_view(), "mmu-type".spec_bytes())),
    {
        node_str_prop(&self.node, "mmu-type")
    }

    /// Whether the TLB has a split configuration, with separate TLBs for
    /// instructions and data.
    pub fn tlb_split(&self) -> (r: Result<bool, FdtError>)
        ensures
            r == has_prop(self.node_view().this_view(), self.node_view().strings_view(), "tlb-split".spec_bytes()),
    {
        node_has_prop(&self.node, "tlb-split")
    }

    /// The number of entries in the unified TLB.
    pub fn tlb_size(&self) -> (r: Result<Option<u32>, FdtError>)
        ensures
            r == u32_prop(self.node_view().this_view(), self.node_view().strings_view(), "tlb-size".spec_bytes()),
    {
        node_u32_prop(&self.node, "tlb-size")
    }

    /// The number of associativity sets in the unified TLB.
    pub fn tlb_sets(&self) -> (r: Result<Option<u32>, FdtError>)
        ensures
            r == u32_prop(self.node_view().this_view(), self.node_view().strings_view(), "tlb-sets".spec_bytes()),
    {
        node_u32_prop(&self.node, "tlb-sets")
    }

    /// The number of entries in the data TLB.
    pub fn d_tlb_size(&self) -> (r: Result<Option<u32>, FdtError>)
        ensures
            r == u32_prop(self.node_view().this_view(), self.node_view().strings_view(), "d-tlb-size".spec_bytes()),
    {
        node_u32_prop(&self.node, "d-tlb-size")
    }

    /// The number of associativity sets in the data TLB.
    pub fn d_tlb_sets(&self) -> (r: Result<Option<u32>, FdtError>)
        ensures
            r == u32_prop(self.node_view().this_view(), self.node_view().strings_view(), "d-tlb-sets".spec_bytes()),
    {
        node_u32_prop(&self.node, "d-tlb-sets")
    }

    /// The number of entries in the instruction TLB.
    pub fn i_tlb_size(&self) -> (r: Result<Option<u32>, FdtError>)
        ensures
            r == u32_prop(self.node_view().this_view(), self.node_view().strings_view(), "i-tlb-size".spec_bytes()),
    {
        node_u32_prop(&self.node, "i-tlb-size")
    }

    /// The number of associativity sets in the instruction TLB.
    pub fn i_tlb_sets(&self) -> (r: Result<Option<u32>, FdtError>)
        ensures
            r == u32_prop(self.node_view().this_view(), self.node_view().strings_view(), "i-tlb-sets".spec_bytes()),
    {
        node_u32_prop(&self.node, "i-tlb-sets")
    }
}

impl<'a> AsNode<'a> for Cpu<'a> {
    open spec fn node_of(&self) -> Node<'a> {
        self.node_view()
    }

    fn as_node(&self) -> (r: Node<'a>) {
        self.node
    }
}

/// The `status` of a `cpu` node.
#[derive(Debug, Clone, Copy, PartialEq, Eq, PartialOrd, Ord, Hash)]
pub struct CpuStatus<'a>(&'a str);

impl<'a> View for CpuStatus<'a> {
    type V = Seq<u8>;

    closed spec fn view(&self) -> Seq<u8> {
        self.0.spec_bytes()
    }
}

impl<'a> CpuStatus<'a> {
    /// A status from its string, which may be none of the standard values.
    pub fn new(status: &'a str) -> (r: Self)
        ensures
            r@ == status.spec_bytes(),
    {
        CpuStatus(status)
    }

    /// Whether the status is `"okay"`: the CPU is running.
    pub fn is_okay(self) -> (r: bool)
        ensures
            r == (self@ == "okay".spec_bytes()),
    {
        str_eq(self.0, "okay")
    }

    /// Whether the status is `"disabled"`: the CPU is in a quiescent state.
    pub fn is_disabled(self) -> (r: bool)
        ensures
            r == (self@ == "disabled".spec_bytes()),
    {
        str_eq(self.0, "disabled")
    }

    /// Whether the status is `"fail"`: the CPU is not operational or does not
    /// exist.
    pub fn is_failed(self) -> (r: bool)
        ensures
            r == (self@ == "fail".spec_bytes()),
    {
        str_eq(self.0, "fail")
    }
}

/// The enable methods of a `cpu` node, one or more NUL-separated strings.
#[derive(Debug, Clone, Copy)]
pub struct CpuEnableMethods<'a>(StringList<'a>);

impl<'a> View for CpuEnableMethods<'a> {
    type V = Option<Seq<u8>>;

    closed spec fn view(&self) -> Option<Seq<u8>> {
        self.0@
    }
}

/// One enable method.
pub enum CpuEnableMethod<'a> {
    /// The spin table method defined in the devicetree specification.
    SpinTable,
    /// An implementation dependent method, `"[vendor],[method]"`.
    VendorMethod {
        /// The manufacturer.
        vendor: &'a str,
        /// The vendor specific mechanism; empty when the string holds no `,`.
        method: &'a str,
    },
}

/// `m` is the enable method named by the string `piece`: the spin table for
/// `"spin-table"`, otherwise the vendor before the first `,` and the method
/// after it.
pub open spec fn method_is(m: CpuEnableMethod, piece: Seq<u8>) -> bool {
    if piece == "spin-table".spec_bytes() {
        m is SpinTable
    } else {
        m matches CpuEnableMethod::VendorMethod { vendor, method } && vendor.spec_bytes() == split_step(piece, 0x2c).0
            && method.spec_bytes() == match split_step(piece, 0x2c).1 {
            Some(t) => t,
            None => Seq::empty(),
        }
    }
}

/// The enable method named by `piece`.
fn enable_method_of<'a>(piece: &'a str) -> (r: CpuEnableMethod<'a>)
    ensures
        method_is(r, piece.spec_bytes()),
{
    if str_eq(piece, "spin-table") {
        return CpuEnableMethod::SpinTable;
    }
    proof {
        vstd::utf8::encode_utf8_valid_utf8(piece@);
    }
    let (vendor, rest) = split_off(piece.as_bytes(), 0x2c);
    let method = match rest {
        Some(t) => match str_from_utf8(t) {
            Some(m) => m,
            None => {
                proof {
                    assert(false);
                }
                empty_str()
            },
        },
        None => empty_str(),
    };
    CpuEnableMethod::VendorMethod { vendor, method }
}

impl<'a> CpuEnableMethods<'a> {
    /// The list holds at least one string.
    pub closed spec fn wf(&self) -> bool {
        self.0.wf() && self.0@ is Some
    }

    /// An iterator over the enable methods.
    pub fn iter(&self) -> (r: CpuEnableMethodsIter<'a>)
        requires
            self.wf(),
        ensures
            r@ == self@,
            r.wf(),
    {
        CpuEnableMethodsIter(self.0)
    }

    /// The first enable method.
    pub fn first(&self) -> (r: CpuEnableMethod<'a>)
        requires
            self.wf(),
        ensures
            method_is(r, split_step(self@.unwrap(), 0).0),
    {
        let mut list = self.0;
        match list.next() {
            Some(piece) => enable_method_of(piece),
            None => {
                proof {
                    assert(false);
                }
                CpuEnableMethod::SpinTable
            },
        }
    }
}

/// Iterator over the enable methods of a `cpu` node.
pub struct CpuEnableMethodsIter<'a>(StringList<'a>);

impl<'a> View for CpuEnableMethodsIter<'a> {
    type V = Option<Seq<u8>>;

    closed spec fn view(&self) -> Option<Seq<u8>> {
        self.0@
    }
}

impl<'a> CpuEnableMethodsIter<'a> {
    /// What remains is UTF-8.
    pub closed spec fn wf(&self) -> bool {
        self.0.wf()
    }

    /// The next enable method.
    pub fn next(&mut self) -> (r: Option<CpuEnableMethod<'a>>)
        requires
            old(self).wf(),
        ensures
            final(self).wf(),
            old(self)@ is None ==> r is None && final(self)@ is None,
            old(self)@ matches Some(s) ==> r matches Some(m) && method_is(m, split_step(s, 0).0)
                && final(self)@ == split_step(s, 0).1,
    {
        match self.0.next() {
            Some(piece) => Some(enable_method_of(piece)),
            None => None,
        }
    }
}

/// One step over the ids of `reg`: the first `address_cells` cells,
/// collected, and what follows them; `None` when fewer bytes remain.
pub open spec fn cpu_id_step<C: CellCollector>(reg: Seq<u8>, address_cells: usize) -> (
    Option<Result<C::Output, CollectCellsError>>,
    Seq<u8>,
) {
    let n = address_cells * 4;
    if n > reg.len() {
        (None, reg)
    } else {
        (Some(collect_cells::<C>(cells_of(reg.subrange(0, n)))), reg.subrange(n, reg.len() as int))
    }
}

/// What remains of the `reg` bytes after `k` successive steps of the ids
/// iterator.
pub open spec fn cpu_ids_rest<C: CellCollector>(reg: Seq<u8>, address_cells: usize, k: nat) -> Seq<u8>
    decreases k,
{
    if k == 0 {
        reg
    } else {
        cpu_id_step::<C>(cpu_ids_rest::<C>(reg, address_cells, (k - 1) as nat), address_cells).1
    }
}

/// Iterating over the ids of a `reg` hands out one id per `#address-cells`
/// cells, in order: after `k` ids the iterator holds the bytes of `reg` past
/// the first `k` ids, and the next step gives the id spelled by the next
/// `#address-cells` cells when they are all there, and ends otherwise. So a
/// `reg` of `len` bytes gives exactly `len / (4 * #address-cells)` ids.
pub proof fn law_cpu_ids_in_order<C: CellCollector>(reg: Seq<u8>, address_cells: usize, k: nat)
    requires
        address_cells > 0,
        4 * address_cells * k <= reg.len(),
    ensures
        cpu_ids_rest::<C>(reg, address_cells, k) == reg.subrange(4 * address_cells * k, reg.len() as int),
        cpu_id_step::<C>(cpu_ids_rest::<C>(reg, address_cells, k), address_cells).0 == if 4 * address_cells * (k + 1)
            <= reg.len() {
            Some(collect_cells::<C>(cells_of(reg.subrange(4 * address_cells * k, 4 * address_cells * (k + 1)))))
        } else {
            None
        },
    decreases k,
{
    let n: int = 4 * address_cells;
    let nk: int = n * k;
    assert(nk == 4 * address_cells * k);
    assert(n * (k + 1) == nk + n) by (nonlinear_arith)
        requires
            nk == n * k,
    ;
    assert(nk >= 0) by (nonlinear_arith)
        requires
            nk == n * k,
            n > 0,
    ;
    if k == 0 {
        assert(reg.subrange(0, reg.len() as int) =~= reg);
    } else {
        let k1 = (k - 1) as nat;
        let nk1: int = n * k1;
        assert(nk == nk1 + n) by (nonlinear_arith)
            requires
                k1 + 1 == k,
                nk == n * k,
                nk1 == n * k1,
        ;
        law_cpu_ids_in_order::<C>(reg, address_cells, k1);
        let prev = cpu_ids_rest::<C>(reg, address_cells, k1);
        assert(prev == reg.subrange(nk1, reg.len() as int));
        assert(cpu_ids_rest::<C>(reg, address_cells, k) == cpu_id_step::<C>(prev, address_cells).1);
        assert(prev.subrange(n, prev.len() as int) =~= reg.subrange(nk, reg.len() as int));
    }
    let rest = cpu_ids_rest::<C>(reg, address_cells, k);
    if nk + n <= reg.len() {
        assert(rest.subrange(0, n) =~= reg.subrange(nk, nk + n));
    }
}

/// A `reg` of `len` bytes gives exactly `len / (4 * #address-cells)` ids:
/// each of the steps before gives an id, and the step after them ends the
/// iteration.
pub proof fn law_cpu_ids_count<C: CellCollector>(reg: Seq<u8>, address_cells: usize, k: nat)
    requires
        address_cells > 0,
        k <= reg.len() as int / (4 * address_cells as int),
    ensures
        k < reg.len() as int / (4 * address_cells as int) ==> cpu_id_step::<C>(cpu_ids_rest::<C>(reg, address_cells, k), address_cells).0 is Some,
        k == reg.len() as int / (4 * address_cells as int) ==> cpu_id_step::<C>(cpu_ids_rest::<C>(reg, address_cells, k), address_cells).0 is None,
{
    let n: int = 4 * address_cells;
    let q: int = reg.len() as int / n;
    vstd::arithmetic::div_mod::lemma_fundamental_div_mod(reg.len() as int, n);
    assert(n * q <= reg.len() < n * q + n);
    assert(n * k <= n * q) by (nonlinear_arith)
        requires
            k <= q,
            n > 0,
    ;
    assert(n * (k + 1) == n * k + n) by (nonlinear_arith);
    if k < q {
        assert(n * (k + 1) <= n * q) by (nonlinear_arith)
            requires
                k + 1 <= q,
                n > 0,
        ;
    }
    law_cpu_ids_in_order::<C>(reg, address_cells, k);
}

/// The ids held by the `reg` of a `cpu` node.
pub struct CpuIds<'a, C: CellCollector> {
    reg: &'a [u8],
    address_cells: usize,
    _collector: core::marker::PhantomData<C>,
}

impl<'a, C: CellCollector> View for CpuIds<'a, C> {
    type V = (Seq<u8>, usize);

    closed spec fn view(&self) -> (Seq<u8>, usize) {
        (self.reg@, self.address_cells)
    }
}

impl<'a, C: CellCollector> CpuIds<'a, C> {
    /// The first id, when `reg` holds one whole id.
    pub fn first(&self) -> (r: Result<C::Output, CollectCellsError>)
        requires
            self@.1 * 4 <= self@.0.len(),
        ensures
            cpu_id_step::<C>(self@.0, self@.1).0 == Some(r),
    {
        let mut it = self.iter();
        match it.next() {
            Some(r) => r,
            None => {
                proof {
                    assert(false);
                }
                Err(CollectCellsError)
            },
        }
    }

    /// An iterator over the ids.
    pub fn iter(&self) -> (r: CpuIdsIter<'a, C>)
        ensures
            r@ == self@,
    {
        CpuIdsIter { reg: self.reg, address_cells: self.address_cells, _collector: core::marker::PhantomData }
    }
}

/// Iterator over the ids held by the `reg` of a `cpu` node.
pub struct CpuIdsIter<'a, C: CellCollector> {
    reg: &'a [u8],
    address_cells: usize,
    _collector: core::marker::PhantomData<C>,
}

impl<'a, C: CellCollector> View for CpuIdsIter<'a, C> {
    type V = (Seq<u8>, usize);

    closed spec fn view(&self) -> (Seq<u8>, usize) {
        (self.reg@, self.address_cells)
    }
}

impl<'a, C: CellCollector> CpuIdsIter<'a, C> {
    /// The next id; an error still moves past the id's cells.
    pub fn next(&mut self) -> (r: Option<Result<C::Output, CollectCellsError>>)
        ensures
            r == cpu_id_step::<C>(old(self)@.0, old(self)@.1).0,
            final(self)@ == (cpu_id_step::<C>(old(self)@.0, old(self)@.1).1, old(self)@.1),
    {
        let len = self.reg.len();
        let n = match self.address_cells.checked_mul(4) {
            Some(n) => n,
            None => return None,
        };
        if n > len {
            return None;
        }
        let this_cell = &self.reg[0..n];
        self.reg = &self.reg[n..len];
        Some(collect_from_bytes::<C>(this_cell))
    }
}

/// The `cpu-map` node: the hierarchy of sockets, clusters, cores and
/// threads that the `cpu` nodes belong to.
#[derive(Clone, Copy)]
pub struct CpuTopology<'a> {
    node: Node<'a>,
}

impl<'a> CpuTopology<'a> {
    /// The `cpu-map` node.
    pub closed spec fn node_view(&self) -> Node<'a> {
        self.node
    }

    /// The top-level socket children; sockets are optional on single-socket
    /// systems.
    pub fn sockets(&self) -> (r: Result<CpuSocketIter<'a>, FdtError>)
        ensures
            node_children_start(self.node_view().this_view()) matches Ok(s) ==> r matches Ok(it) && it@ == s
                && it.parent_view() == self.node_view().this_view()
                && it.strings_view() == self.node_view().strings_view()
                && it.structs_view() == self.node_view().structs_view(),
            node_children_start(self.node_view().this_view()) matches Err(e) ==> r == Err::<CpuSocketIter, FdtError>(e),
    {
        match self.node.children() {
            Ok(c) => Ok(CpuSocketIter { children: c.iter() }),
            Err(e) => Err(e),
        }
    }

    /// The top-level cluster children; clusters may stand under sockets
    /// instead.
    pub fn clusters(&self) -> (r: Result<CpuClusterIter<'a>, FdtError>)
        ensures
            node_children_start(self.node_view().this_view()) matches Ok(s) ==> r matches Ok(it) && it@ == s
                && it.parent_view() == self.node_view().this_view()
                && it.strings_view() == self.node_view().strings_view()
                && it.structs_view() == self.node_view().structs_view(),
            node_children_start(self.node_view().this_view()) matches Err(e) ==> r == Err::<CpuClusterIter, FdtError>(e),
    {
        match self.node.children() {
            Ok(c) => Ok(CpuClusterIter { children: c.iter() }),
            Err(e) => Err(e),
        }
    }
}

/// The number in the name of a topology node: its name without the leading
/// `prefix`es, read as a decimal `usize`.
pub open spec fn spec_topology_id(this: Seq<u8>, prefix: Seq<u8>) -> Result<usize, FdtError> {
    match spec_node_name(this) {
        Err(e) => Err(e),
        Ok(nn) => match parse_usize(trim_prefix(nn.0, prefix)) {
            Some(v) => Ok(v),
            None => Err(FdtError::InvalidNodeName),
        },
    }
}

/// A topology node named with its prefix followed by a number written in
/// decimal, such as `core12`, has that number as its id.
pub proof fn law_topology_id(prefix: Seq<u8>, n: usize)
    requires
        prefix.len() > 0,
        !(0x30 <= prefix[0] <= 0x39),
    ensures
        parse_usize(trim_prefix(prefix + crate::util::decimal_bytes(n as nat), prefix)) == Some(n),
{
    let d = crate::util::decimal_bytes(n as nat);
    crate::util::lemma_decimal_bytes(n as nat);
    crate::util::law_decimal_round_trip(n);
    let whole = prefix + d;
    assert(whole.subrange(0, prefix.len() as int) =~= prefix);
    assert(whole.subrange(prefix.len() as int, whole.len() as int) =~= d);
    assert(0x30 <= d[0] <= 0x39);
    if prefix.len() <= d.len() && d.subrange(0, prefix.len() as int) == prefix {
        assert(d.subrange(0, prefix.len() as int)[0] == prefix[0]);
    }
    assert(trim_prefix(d, prefix) == d);
}

/// The number in the name of the topology node `node`.
fn topology_id(node: &Node, prefix: &[u8]) -> (r: Result<usize, FdtError>)
    ensures
        r == spec_topology_id(node.this_view(), prefix@),
{
    let name = match node.name() {
        Ok(n) => n,
        Err(e) => return Err(e),
    };
    let mut rest = name.name.as_bytes();
    let plen = prefix.len();
    while plen > 0 && bytes_starts_with(rest, prefix)
        invariant
            plen == prefix@.len(),
            trim_prefix(rest@, prefix@) == trim_prefix(name.name.spec_bytes(), prefix@),
        decreases rest@.len(),
    {
        let len = rest.len();
        rest = &rest[plen..len];
    }
    match parse_usize_bytes(rest) {
        Some(v) => Ok(v),
        None => Err(FdtError::InvalidNodeName),
    }
}

/// The `cpu` node that the `cpu` property of a topology node links to, by
/// its phandle: absent without the property.
pub open spec fn spec_linked_cpu(node: Node) -> Result<Option<(Seq<u8>, Seq<u8>)>, FdtError> {
    match u32_prop(node.this_view(), node.strings_view(), "cpu".spec_bytes()) {
        Err(e) => Err(e),
        Ok(None) => Ok(None),
        Ok(Some(ph)) => match spec_parse_root(node.structs_view()) {
            Err(e) => Err(e),
            Ok(root) => match walk_start(root) {
                Err(e) => Err(e),
                Ok(st) => match phandle_walk(st, ph, node.strings_view(), node.structs_view()) {
                    Err(e) => Err(e),
                    Ok(None) => Err(FdtError::MissingPHandleNode(ph)),
                    Ok(Some(n)) => Ok(Some(n)),
                },
            },
        },
    }
}

/// The `cpu` node linked to by the `cpu` property of `node`.
fn linked_cpu<'a>(node: &Node<'a>) -> (r: Result<Option<Cpu<'a>>, FdtError>)
    ensures
        match spec_linked_cpu(*node) {
            Err(e) => r == Err::<Option<Cpu>, FdtError>(e),
            Ok(None) => r == Ok::<Option<Cpu>, FdtError>(None),
            Ok(Some(n)) => r matches Ok(Some(c)) && c.node_view().this_view() == n.0
                && c.node_view().parent_view() == Some(n.1) && c.node_view().same_tree(*node),
        },
{
    let phandle = match node_u32_prop(node, "cpu") {
        Ok(Some(v)) => PHandle::new(v),
        Ok(None) => return Ok(None),
        Err(e) => return Err(e),
    };
    let root = match node.make_root() {
        Ok(r) => r,
        Err(e) => return Err(e),
    };
    match root.resolve_phandle(phandle) {
        Ok(Some(n)) => Ok(Some(Cpu { node: n })),
        Ok(None) => Err(FdtError::MissingPHandleNode(phandle.as_u32())),
        Err(e) => Err(e),
    }
}

/// Iterator over the socket children of a topology node.
pub struct CpuSocketIter<'a> {
    children: NodeChildrenIter<'a>,
}

impl<'a> View for CpuSocketIter<'a> {
    type V = Seq<u8>;

    closed spec fn view(&self) -> Seq<u8> {
        self.children@
    }
}

impl<'a> CpuSocketIter<'a> {
    /// The raw body of the parent node.
    pub closed spec fn parent_view(&self) -> Seq<u8> {
        self.children.parent_view()
    }

    /// The strings block.
    pub closed spec fn strings_view(&self) -> Seq<u8> {
        self.children.strings_view()
    }

    /// The structure block.
    pub closed spec fn structs_view(&self) -> Seq<u8> {
        self.children.structs_view()
    }

    /// The next child whose name starts with `socket`; children whose name
    /// cannot be read are passed over, other errors are handed out.
    pub fn next(&mut self) -> (r: Option<Result<CpuSocket<'a>, FdtError>>)
        ensures
            match filtered_step(old(self)@, "socket".spec_bytes(), false).0 {
                None => r is None,
                Some(Err(e)) => r == Some(Err::<CpuSocket, FdtError>(e)),
                Some(Ok(c)) => r matches Some(Ok(x)) && x.node_view().this_view() == c
                    && x.node_view().parent_view() == Some(old(self).parent_view())
                    && x.node_view().strings_view() == old(self).strings_view()
                    && x.node_view().structs_view() == old(self).structs_view(),
            },
            final(self)@ == filtered_step(old(self)@, "socket".spec_bytes(), false).1,
            final(self).parent_view() == old(self).parent_view(),
            final(self).strings_view() == old(self).strings_view(),
            final(self).structs_view() == old(self).structs_view(),
    {
        match self.children.next_filtered("socket".as_bytes(), false) {
            Some(Ok(node)) => Some(Ok(CpuSocket { node })),
            Some(Err(e)) => Some(Err(e)),
            None => None,
        }
    }
}

/// Iterator over the cluster children of a topology node.
pub struct CpuClusterIter<'a> {
    children: NodeChildrenIter<'a>,
}

impl<'a> View for CpuClusterIter<'a> {
    type V = Seq<u8>;

    closed spec fn view(&self) -> Seq<u8> {
        self.children@
    }
}

impl<'a> CpuClusterIter<'a> {
    /// The raw body of the parent node.
    pub closed spec fn parent_view(&self) -> Seq<u8> {
        self.children.parent_view()
    }

    /// The strings block.
    pub closed spec fn strings_view(&self) -> Seq<u8> {
        self.children.strings_view()
    }

    /// The structure block.
    pub closed spec fn structs_view(&self) -> Seq<u8> {
        self.children.structs_view()
    }

    /// The next child whose name starts with `cluster`; children whose name
    /// cannot be read are passed over, other errors are handed out.
    pub fn next(&mut self) -> (r: Option<Result<CpuCluster<'a>, FdtError>>)
        ensures
            match filtered_step(old(self)@, "cluster".spec_bytes(), false).0 {
                None => r is None,
                Some(Err(e)) => r == Some(Err::<CpuCluster, FdtError>(e)),
                Some(Ok(c)) => r matches Some(Ok(x)) && x.node_view().this_view() == c
                    && x.node_view().parent_view() == Some(old(self).parent_view())
                    && x.node_view().strings_view() == old(self).strings_view()
                    && x.node_view().structs_view() == old(self).structs_view(),
            },
            final(self)@ == filtered_step(old(self)@, "cluster".spec_bytes(), false).1,
            final(self).parent_view() == old(self).parent_view(),
            final(self).strings_view() == old(self).strings_view(),
            final(self).structs_view() == old(self).structs_view(),
    {
        match self.children.next_filtered("cluster".as_bytes(), false) {
            Some(Ok(node)) => Some(Ok(CpuCluster { node })),
            Some(Err(e)) => Some(Err(e)),
            None => None,
        }
    }
}

/// Iterator over the core children of a topology node.
pub struct CpuCoreIter<'a> {
    children: NodeChildrenIter<'a>,
}

impl<'a> View for CpuCoreIter<'a> {
    type V = Seq<u8>;

    closed spec fn view(&self) -> Seq<u8> {
        self.children@
    }
}

impl<'a> CpuCoreIter<'a> {
    /// The raw body of the parent node.
    pub closed spec fn parent_view(&self) -> Seq<u8> {
        self.children.parent_view()
    }

    /// The strings block.
    pub closed spec fn strings_view(&self) -> Seq<u8> {
        self.children.strings_view()
    }

    /// The structure block.
    pub closed spec fn structs_view(&self) -> Seq<u8> {
        self.children.structs_view()
    }

    /// The next child whose name starts with `core`; children whose name
    /// cannot be read are passed over, other errors are handed out.
    pub fn next(&mut self) -> (r: Option<Result<CpuCore<'a>, FdtError>>)
        ensures
            match filtered_step(old(self)@, "core".spec_bytes(), false).0 {
                None => r is None,
                Some(Err(e)) => r == Some(Err::<CpuCore, FdtError>(e)),
                Some(Ok(c)) => r matches Some(Ok(x)) && x.node_view().this_view() == c
                    && x.node_view().parent_view() == Some(old(self).parent_view())
                    && x.node_view().strings_view() == old(self).strings_view()
                    && x.node_view().structs_view() == old(self).structs_view(),
            },
            final(self)@ == filtered_step(old(self)@, "core".spec_bytes(), false).1,
            final(self).parent_view() == old(self).parent_view(),
            final(self).strings_view() == old(self).strings_view(),
            final(self).structs_view() == old(self).structs_view(),
    {
        match self.children.next_filtered("core".as_bytes(), false) {
            Some(Ok(node)) => Some(Ok(CpuCore { node })),
            Some(Err(e)) => Some(Err(e)),
            None => None,
        }
    }
}

/// Iterator over the thread children of a topology node.
pub struct CpuThreadIter<'a> {
    children: NodeChildrenIter<'a>,
}

impl<'a> View for CpuThreadIter<'a> {
    type V = Seq<u8>;

    closed spec fn view(&self) -> Seq<u8> {
        self.children@
    }
}

impl<'a> CpuThreadIter<'a> {
    /// The raw body of the parent node.
    pub closed spec fn parent_view(&self) -> Seq<u8> {
        self.children.parent_view()
    }

    /// The strings block.
    pub closed spec fn strings_view(&self) -> Seq<u8> {
        self.children.strings_view()
    }

    /// The structure block.
    pub closed spec fn structs_view(&self) -> Seq<u8> {
        self.children.structs_view()
    }

    /// The next child whose name starts with `thread`; children whose name
    /// cannot be read are passed over, other errors are handed out.
    pub fn next(&mut self) -> (r: Option<Result<CpuThread<'a>, FdtError>>)
        ensures
            match filtered_step(old(self)@, "thread".spec_bytes(), false).0 {
                None => r is None,
                Some(Err(e)) => r == Some(Err::<CpuThread, FdtError>(e)),
                Some(Ok(c)) => r matches Some(Ok(x)) && x.node_view().this_view() == c
                    && x.node_view().parent_view() == Some(old(self).parent_view())
                    && x.node_view().strings_view() == old(self).strings_view()
                    && x.node_view().structs_view() == old(self).structs_view(),
            },
            final(self)@ == filtered_step(old(self)@, "thread".spec_bytes(), false).1,
            final(self).parent_view() == old(self).parent_view(),
            final(self).strings_view() == old(self).strings_view(),
            final(self).structs_view() == old(self).structs_view(),
    {
        match self.children.next_filtered("thread".as_bytes(), false) {
            Some(Ok(node)) => Some(Ok(CpuThread { node })),
            Some(Err(e)) => Some(Err(e)),
            None => None,
        }
    }
}

/// A physical CPU socket.
#[derive(Clone, Copy)]
pub struct CpuSocket<'a> {
    node: Node<'a>,
}

impl<'a> AsNode<'a> for CpuSocket<'a> {
    open spec fn node_of(&self) -> Node<'a> {
        self.node_view()
    }

    fn as_node(&self) -> (r: Node<'a>) {
        self.node
    }
}

impl<'a> CpuSocket<'a> {
    /// The node.
    pub closed spec fn node_view(&self) -> Node<'a> {
        self.node
    }

    /// The socket number, e.g. the `0` in `socket0`.
    pub fn id(&self) -> (r: Result<usize, FdtError>)
        ensures
            r == spec_topology_id(self.node_view().this_view(), "socket".spec_bytes()),
    {
        topology_id(&self.node, "socket".as_bytes())
    }

    /// The clusters contained by this socket.
    pub fn clusters(&self) -> (r: Result<CpuClusterIter<'a>, FdtError>)
        ensures
            node_children_start(self.node_view().this_view()) matches Ok(s) ==> r matches Ok(it) && it@ == s
                && it.parent_view() == self.node_view().this_view()
                && it.strings_view() == self.node_view().strings_view()
                && it.structs_view() == self.node_view().structs_view(),
            node_children_start(self.node_view().this_view()) matches Err(e) ==> r == Err::<CpuClusterIter, FdtError>(e),
    {
        match self.node.children() {
            Ok(c) => Ok(CpuClusterIter { children: c.iter() }),
            Err(e) => Err(e),
        }
    }
}

/// A CPU cluster, made up of clusters or of cores.
#[derive(Clone, Copy)]
pub struct CpuCluster<'a> {
    node: Node<'a>,
}

impl<'a> AsNode<'a> for CpuCluster<'a> {
    open spec fn node_of(&self) -> Node<'a> {
        self.node_view()
    }

    fn as_node(&self) -> (r: Node<'a>) {
        self.node
    }
}

impl<'a> CpuCluster<'a> {
    /// The node.
    pub closed spec fn node_view(&self) -> Node<'a> {
        self.node
    }

    /// The cluster number, e.g. the `0` in `cluster0`.
    pub fn id(&self) -> (r: Result<usize, FdtError>)
        ensures
            r == spec_topology_id(self.node_view().this_view(), "cluster".spec_bytes()),
    {
        topology_id(&self.node, "cluster".as_bytes())
    }

    /// The cores contained by this cluster.
    pub fn cores(&self) -> (r: Result<CpuCoreIter<'a>, FdtError>)
        ensures
            node_children_start(self.node_view().this_view()) matches Ok(s) ==> r matches Ok(it) && it@ == s
                && it.parent_view() == self.node_view().this_view()
                && it.strings_view() == self.node_view().strings_view()
                && it.structs_view() == self.node_view().structs_view(),
            node_children_start(self.node_view().this_view()) matches Err(e) ==> r == Err::<CpuCoreIter, FdtError>(e),
    {
        match self.node.children() {
            Ok(c) => Ok(CpuCoreIter { children: c.iter() }),
            Err(e) => Err(e),
        }
    }
}

/// A physical CPU core, described by a `cpu` node or by a set of threads
/// when symmetric multithreading is enabled.
#[derive(Clone, Copy)]
pub struct CpuCore<'a> {
    node: Node<'a>,
}

impl<'a> AsNode<'a> for CpuCore<'a> {
    open spec fn node_of(&self) -> Node<'a> {
        self.node_view()
    }

    fn as_node(&self) -> (r: Node<'a>) {
        self.node
    }
}

impl<'a> CpuCore<'a> {
    /// The node.
    pub closed spec fn node_view(&self) -> Node<'a> {
        self.node
    }

    /// The core number, e.g. the `0` in `core0`.
    pub fn id(&self) -> (r: Result<usize, FdtError>)
        ensures
            r == spec_topology_id(self.node_view().this_view(), "core".spec_bytes()),
    {
        topology_id(&self.node, "core".as_bytes())
    }

    /// The `cpu` node that describes this core when it has no threads;
    /// `None` when the core has no `cpu` property.
    pub fn cpu(&self) -> (r: Result<Option<Cpu<'a>>, FdtError>)
        ensures
            match spec_linked_cpu(self.node_view()) {
                Err(e) => r == Err::<Option<Cpu>, FdtError>(e),
                Ok(None) => r == Ok::<Option<Cpu>, FdtError>(None),
                Ok(Some(n)) => r matches Ok(Some(c)) && c.node_view().this_view() == n.0
                    && c.node_view().parent_view() == Some(n.1) && c.node_view().same_tree(self.node_view()),
            },
    {
        linked_cpu(&self.node)
    }

    /// The threads of this core; none when SMT is not enabled.
    pub fn threads(&self) -> (r: Result<CpuThreadIter<'a>, FdtError>)
        ensures
            node_children_start(self.node_view().this_view()) matches Ok(s) ==> r matches Ok(it) && it@ == s
                && it.parent_view() == self.node_view().this_view()
                && it.strings_view() == self.node_view().strings_view()
                && it.structs_view() == self.node_view().structs_view(),
            node_children_start(self.node_view().this_view()) matches Err(e) ==> r == Err::<CpuThreadIter, FdtError>(e),
    {
        match self.node.children() {
            Ok(c) => Ok(CpuThreadIter { children: c.iter() }),
            Err(e) => Err(e),
        }
    }
}

/// A logical thread of execution of a core.
#[derive(Clone, Copy)]
pub struct CpuThread<'a> {
    node: Node<'a>,
}

impl<'a> AsNode<'a> for CpuThread<'a> {
    open spec fn node_of(&self) -> Node<'a> {
        self.node_view()
    }

    fn as_node(&self) -> (r: Node<'a>) {
        self.node
    }
}

impl<'a> CpuThread<'a> {
    /// The node.
    pub closed spec fn node_view(&self) -> Node<'a> {
        self.node
    }

    /// The thread number, e.g. the `0` in `thread0`.
    pub fn id(&self) -> (r: Result<usize, FdtError>)
        ensures
            r == spec_topology_id(self.node_view().this_view(), "thread".spec_bytes()),
    {
        topology_id(&self.node, "thread".as_bytes())
    }

    /// The `cpu` node that this thread is (required).
    pub fn cpu(&self) -> (r: Result<Cpu<'a>, FdtError>)
        ensures
            match spec_linked_cpu(self.node_view()) {
                Err(e) => r == Err::<Cpu, FdtError>(e),
                Ok(None) => r == Err::<Cpu, FdtError>(FdtError::MissingRequiredProperty("cpu")),
                Ok(Some(n)) => r matches Ok(c) && c.node_view().this_view() == n.0
                    && c.node_view().parent_view() == Some(n.1) && c.node_view().same_tree(self.node_view()),
            },
    {
        match linked_cpu(&self.node) {
            Ok(Some(c)) => Ok(c),
            Ok(None) => Err(FdtError::MissingRequiredProperty("cpu")),
            Err(e) => Err(e),
        }
    }
}

/// The `cpu` linked to by a topology node is the node that resolving its
/// `cpu` phandle gives: the first node of the depth-first walk with that
/// phandle; when no node has it, the link is reported missing.
pub proof fn law_linked_cpu_by_phandle(node: Node, ph: u32)
    requires
        u32_prop(node.this_view(), node.strings_view(), "cpu".spec_bytes()) == Ok::<Option<u32>, FdtError>(Some(ph)),
    ensures
        spec_parse_root(node.structs_view()) matches Ok(root) ==> (walk_start(root) matches Ok(st) ==> {
            let nodes = walk_nodes(st);
            &&& spec_linked_cpu(node) matches Ok(Some(n)) ==> exists|i: int|
                #![trigger nodes[i]]
                0 <= i < nodes.len() && n == (nodes[i].1, nodes[i].2) && has_phandle(nodes[i].1, node.strings_view(), ph)
                    && forall|j: int| 0 <= j < i ==> !has_phandle(#[trigger] nodes[j].1, node.strings_view(), ph)
            &&& phandle_walk(st, ph, node.strings_view(), node.structs_view()) == Ok::<Option<(Seq<u8>, Seq<u8>)>, FdtError>(None)
                ==> spec_linked_cpu(node) == Err::<Option<(Seq<u8>, Seq<u8>)>, FdtError>(FdtError::MissingPHandleNode(ph))
                && forall|i: int| 0 <= i < nodes.len() ==> !has_phandle(#[trigger] nodes[i].1, node.strings_view(), ph)
        }),
{
    if let Ok(root) = spec_parse_root(node.structs_view()) {
        if let Ok(st) = walk_start(root) {
            law_phandle_first(st, ph, node.strings_view(), node.structs_view());
        }
    }
}

/// A `cpu` node's frequency is its own property when it has one, and
/// otherwise the one of its parent `/cpus` node.
pub proof fn law_cpu_frequency_inherited(node: Node, name: Seq<u8>, missing: FdtError)
    ensures
        u64_prop(node.this_view(), node.strings_view(), name) matches Ok(Some(v)) ==> inherited_u64(node, name, missing)
            == Ok::<u64, FdtError>(v),
        u64_prop(node.this_view(), node.strings_view(), name) == Ok::<Option<u64>, FdtError>(None) && node.parent_view() is Some
            ==> inherited_u64(node, name, missing) == match u64_prop(node.parent_view().unwrap(), node.strings_view(), name) {
            Ok(Some(v)) => Ok(v),
            Ok(None) => Err(missing),
            Err(e) => Err(e),
        },
{
}

} // verus!
