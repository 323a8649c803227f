use vstd::prelude::*;
use vstd::string::*;
use vstd::utf8::*;

/// Reading raw property values as numbers and strings.
pub mod values;
/// The `#address-cells` and `#size-cells` properties.
pub mod cells;
/// The `reg` and `virtual-reg` properties.
pub mod reg;
/// The `ranges` property.
pub mod ranges;
/// Numerical PCI addresses.
pub mod pci;

use crate::nodes::root::Root;
use crate::nodes::{node_find_prop, Node};
use crate::parsing::{spec_parse_root, BigEndianU32};
use crate::properties::values::{
    split_off, split_pieces, split_step, str_value, u32_value, u64_value, usize_value, value_as_str,
    value_as_u32, value_as_u64, value_as_usize, StringList, lemma_split_pieces_step, pieces_from,
};
use crate::util::{bytes_starts_with, str_eq, str_from_utf8};
use crate::FdtError;

verus! {

broadcast use vstd::seq::group_seq_axioms;

/// A property (or potentially a group of related properties) that can be
/// parsed from a [`crate::nodes::Node`].
pub trait Property<'a>: Sized {
    /// What `parse` gives for `node`.
    spec fn parse_ensures(node: Node<'a>, r: Result<Option<Self>, FdtError>) -> bool;

    /// Reads the property from `node`, in the devicetree whose root is `root`.
    fn parse(node: Node<'a>, root: Root<'a>) -> (r: Result<Option<Self>, FdtError>)
        ensures
            Self::parse_ensures(node, r),
    ;
}

impl<'a> Node<'a> {
    /// Attempt to find and extract the specified property represented by
    /// `Prop`.
    pub fn property<Prop: Property<'a>>(&self) -> (r: Result<Option<Prop>, FdtError>)
        ensures
            spec_parse_root(self.structs_view()) matches Err(e) ==> r == Err::<Option<Prop>, FdtError>(e),
            spec_parse_root(self.structs_view()) is Ok ==> Prop::parse_ensures(*self, r),
    {
        match self.make_root() {
            Ok(root) => Prop::parse(*self, root),
            Err(e) => Err(e),
        }
    }
}

/// The string value of the property `name` of `node`.
pub open spec fn str_prop(this: Seq<u8>, strings: Seq<u8>, name: Seq<u8>) -> Result<Option<Seq<u8>>, FdtError> {
    match node_find_prop(this, strings, name) {
        Err(e) => Err(e),
        Ok(None) => Ok(None),
        Ok(Some(p)) => match str_value(p.1) {
            None => Err(FdtError::InvalidPropertyValue),
            Some(b) => Ok(Some(b)),
        },
    }
}

/// The `u32` value of the property `name` of `node`.
pub open spec fn u32_prop(this: Seq<u8>, strings: Seq<u8>, name: Seq<u8>) -> Result<Option<u32>, FdtError> {
    match node_find_prop(this, strings, name) {
        Err(e) => Err(e),
        Ok(None) => Ok(None),
        Ok(Some(p)) => match u32_value(p.1) {
            None => Err(FdtError::InvalidPropertyValue),
            Some(b) => Ok(Some(b)),
        },
    }
}

/// The `u64` value (four or eight bytes) of the property `name` of `node`.
pub open spec fn u64_prop(this: Seq<u8>, strings: Seq<u8>, name: Seq<u8>) -> Result<Option<u64>, FdtError> {
    match node_find_prop(this, strings, name) {
        Err(e) => Err(e),
        Ok(None) => Ok(None),
        Ok(Some(p)) => match u64_value(p.1) {
            None => Err(FdtError::InvalidPropertyValue),
            Some(b) => Ok(Some(b)),
        },
    }
}

/// The `usize` value of the property `name` of `node`.
pub open spec fn usize_prop(this: Seq<u8>, strings: Seq<u8>, name: Seq<u8>) -> Result<Option<usize>, FdtError> {
    match node_find_prop(this, strings, name) {
        Err(e) => Err(e),
        Ok(None) => Ok(None),
        Ok(Some(p)) => match usize_value(p.1) {
            None => Err(FdtError::InvalidPropertyValue),
            Some(b) => Ok(Some(b)),
        },
    }
}

/// Whether `node` has the property `name`.
pub open spec fn has_prop(this: Seq<u8>, strings: Seq<u8>, name: Seq<u8>) -> Result<bool, FdtError> {
    match node_find_prop(this, strings, name) {
        Err(e) => Err(e),
        Ok(p) => Ok(p is Some),
    }
}

/// `r` is the exec form of the optional string result `s`.
pub open spec fn opt_str_result(r: Result<Option<&str>, FdtError>, s: Result<Option<Seq<u8>>, FdtError>) -> bool {
    match s {
        Err(e) => r == Err::<Option<&str>, FdtError>(e),
        Ok(None) => r == Ok::<Option<&str>, FdtError>(None),
        Ok(Some(b)) => r matches Ok(Some(x)) && x.spec_bytes() == b,
    }
}

/// The string value of the property `name`.
pub fn node_str_prop<'a>(node: &Node<'a>, name: &str) -> (r: Result<Option<&'a str>, FdtError>)
    ensures
        opt_str_result(r, str_prop(node.this_view(), node.strings_view(), name.spec_bytes())),
{
    match node.raw_property(name) {
        Err(e) => Err(e),
        Ok(None) => Ok(None),
        Ok(Some(p)) => match value_as_str(p.value) {
            Ok(s) => Ok(Some(s)),
            Err(_) => Err(FdtError::InvalidPropertyValue),
        },
    }
}

/// The `u32` value of the property `name`.
pub fn node_u32_prop(node: &Node, name: &str) -> (r: Result<Option<u32>, FdtError>)
    ensures
        r == u32_prop(node.this_view(), node.strings_view(), name.spec_bytes()),
{
    match node.raw_property(name) {
        Err(e) => Err(e),
        Ok(None) => Ok(None),
        Ok(Some(p)) => match value_as_u32(p.value) {
            Ok(s) => Ok(Some(s)),
            Err(_) => Err(FdtError::InvalidPropertyValue),
        },
    }
}

/// The `u64` value (four or eight bytes) of the property `name`.
pub fn node_u64_prop(node: &Node, name: &str) -> (r: Result<Option<u64>, FdtError>)
    ensures
        r == u64_prop(node.this_view(), node.strings_view(), name.spec_bytes()),
{
    match node.raw_property(name) {
        Err(e) => Err(e),
        Ok(None) => Ok(None),
        Ok(Some(p)) => match value_as_u64(p.value) {
            Ok(s) => Ok(Some(s)),
            Err(_) => Err(FdtError::InvalidPropertyValue),
        },
    }
}

/// The `usize` value of the property `name`.
pub fn node_usize_prop(node: &Node, name: &str) -> (r: Result<Option<usize>, FdtError>)
    ensures
        r == usize_prop(node.this_view(), node.strings_view(), name.spec_bytes()),
{
    match node.raw_property(name) {
        Err(e) => Err(e),
        Ok(None) => Ok(None),
        Ok(Some(p)) => match value_as_usize(p.value) {
            Ok(s) => Ok(Some(s)),
            Err(_) => Err(FdtError::InvalidPropertyValue),
        },
    }
}

/// Whether the node has the property `name`.
pub fn node_has_prop(node: &Node, name: &str) -> (r: Result<bool, FdtError>)
    ensures
        r == has_prop(node.this_view(), node.strings_view(), name.spec_bytes()),
{
    match node.raw_property(name) {
        Err(e) => Err(e),
        Ok(p) => Ok(p.is_some()),
    }
}

/// The `compatible` property: one or more NUL-separated strings, from most
/// specific to most general.
#[derive(Debug, Clone, Copy)]
pub struct Compatible<'a> {
    string: &'a str,
}

impl<'a> View for Compatible<'a> {
    type V = Seq<u8>;

    closed spec fn view(&self) -> Seq<u8> {
        self.string.spec_bytes()
    }
}

impl<'a> Property<'a> for Compatible<'a> {
    open spec fn parse_ensures(node: Node<'a>, r: Result<Option<Self>, FdtError>) -> bool {
        match str_prop(node.this_view(), node.strings_view(), "compatible".spec_bytes()) {
            Err(e) => r == Err::<Option<Self>, FdtError>(e),
            Ok(None) => r == Ok::<Option<Self>, FdtError>(None),
            Ok(Some(b)) => r matches Ok(Some(c)) && c@ == b,
        }
    }

    fn parse(node: Node<'a>, _root: Root<'a>) -> (r: Result<Option<Self>, FdtError>) {
        match node_str_prop(&node, "compatible") {
            Ok(Some(s)) => Ok(Some(Compatible { string: s })),
            Ok(None) => Ok(None),
            Err(e) => Err(e),
        }
    }
}

impl<'a> Compatible<'a> {
    /// A `compatible` value from its string.
    pub fn new(string: &'a str) -> (r: Self)
        ensures
            r@ == string.spec_bytes(),
    {
        Compatible { string }
    }

    /// First compatible model.
    pub fn first(self) -> (r: &'a str)
        ensures
            r.spec_bytes() == split_step(self@, 0).0,
    {
        proof {
            vstd::utf8::encode_utf8_valid_utf8(self.string@);
        }
        split_off(self.string.as_bytes(), 0).0
    }

    /// Returns an iterator over all compatible models.
    pub fn all(self) -> (r: CompatibleIter<'a>)
        ensures
            r@ == Some(self@),
            r.wf(),
    {
        CompatibleIter { iter: StringList::from_str(self.string) }
    }

    /// Returns whether the node is compatible with the given string value.
    pub fn compatible_with(self, value: &str) -> (r: bool)
        ensures
            r == split_pieces(self@, 0).contains(value.spec_bytes()),
    {
        let mut it = self.all();
        loop
            invariant
                it.wf(),
                split_pieces(self@, 0).contains(value.spec_bytes()) == rest_pieces(it@).contains(value.spec_bytes()),
            decreases rest_len(it@),
        {
            let ghost before = it@;
            proof {
                if let Some(s) = before {
                    lemma_split_pieces_step(s, 0);
                    lemma_split_step_shorter(s, 0);
                }
            }
            match it.next() {
                None => {
                    assert(rest_pieces(before) =~= Seq::<Seq<u8>>::empty());
                    return false;
                },
                Some(piece) => {
                    let ghost s = before.unwrap();
                    proof {
                        let ps = pieces_from(split_step(s, 0).0, split_step(s, 0).1, 0);
                        assert(ps == seq![split_step(s, 0).0] + rest_pieces(split_step(s, 0).1));
                        assert(ps[0] == split_step(s, 0).0);
                        assert forall|x: Seq<u8>| ps.contains(x) <==> (x == split_step(s, 0).0 || rest_pieces(split_step(s, 0).1).contains(x)) by {
                            if ps.contains(x) {
                                let i = choose|i: int| 0 <= i < ps.len() && ps[i] == x;
                                if i > 0 {
                                    assert(rest_pieces(split_step(s, 0).1)[i - 1] == x);
                                }
                            }
                            if rest_pieces(split_step(s, 0).1).contains(x) {
                                let i = choose|i: int| 0 <= i < rest_pieces(split_step(s, 0).1).len() && rest_pieces(split_step(s, 0).1)[i] == x;
                                assert(ps[i + 1] == x);
                            }
                        }
                    }
                    if str_eq(piece, value) {
                        return true;
                    }
                },
            }
        }
    }
}

/// The pieces not yet handed out by a split.
pub open spec fn rest_pieces(o: Option<Seq<u8>>) -> Seq<Seq<u8>> {
    match o {
        Some(s) => split_pieces(s, 0),
        None => Seq::empty(),
    }
}

/// A measure that decreases as a split goes on.
pub open spec fn rest_len(o: Option<Seq<u8>>) -> nat {
    match o {
        Some(s) => s.len() + 1,
        None => 0,
    }
}

pub proof fn lemma_split_step_shorter(s: Seq<u8>, c: u8)
    ensures
        split_step(s, c).1 matches Some(t) ==> t.len() < s.len(),
{
    if crate::util::contains_byte(s, c) {
        crate::util::lemma_first_index(s, c);
    }
}

/// An iterator over all of the strings contained within a [`Compatible`]
/// property.
pub struct CompatibleIter<'a> {
    iter: StringList<'a>,
}

impl<'a> View for CompatibleIter<'a> {
    type V = Option<Seq<u8>>;

    closed spec fn view(&self) -> Option<Seq<u8>> {
        self.iter@
    }
}

impl<'a> CompatibleIter<'a> {
    /// The iterator is well formed.
    pub closed spec fn wf(&self) -> bool {
        self.iter.wf()
    }

    /// The next compatible string.
    pub fn next(&mut self) -> (r: Option<&'a str>)
        requires
            old(self).wf(),
        ensures
            final(self).wf(),
            old(self)@ is None ==> r is None && final(self)@ is None,
            old(self)@ matches Some(s) ==> r matches Some(p) && p.spec_bytes() == split_step(s, 0).0
                && final(self)@ == split_step(s, 0).1,
    {
        self.iter.next()
    }
}

/// The model property value is a `<string>` that specifies the manufacturer’s
/// model number of the device.
#[derive(Debug, Clone, Copy, PartialEq, Eq, PartialOrd, Ord, Hash)]
pub struct Model<'a>(&'a str);

impl<'a> View for Model<'a> {
    type V = Seq<u8>;

    closed spec fn view(&self) -> Seq<u8> {
        self.0.spec_bytes()
    }
}

impl<'a> Model<'a> {
    /// The model string.
    pub fn as_str(&self) -> (r: &'a str)
        ensures
            r.spec_bytes() == self@,
    {
        self.0
    }
}

impl<'a> Property<'a> for Model<'a> {
    open spec fn parse_ensures(node: Node<'a>, r: Result<Option<Self>, FdtError>) -> bool {
        match str_prop(node.this_view(), node.strings_view(), "model".spec_bytes()) {
            Err(e) => r == Err::<Option<Self>, FdtError>(e),
            Ok(None) => r == Ok::<Option<Self>, FdtError>(None),
            Ok(Some(b)) => r matches Ok(Some(c)) && c@ == b,
        }
    }

    fn parse(node: Node<'a>, _root: Root<'a>) -> (r: Result<Option<Self>, FdtError>) {
        match node_str_prop(&node, "model") {
            Ok(Some(s)) => Ok(Some(Model(s))),
            Ok(None) => Ok(None),
            Err(e) => Err(e),
        }
    }
}

/// The `phandle` property specifies a numerical identifier for a node that is
/// unique within the devicetree.
#[derive(Debug, Clone, Copy, PartialEq, Eq, PartialOrd, Ord, Hash)]
pub struct PHandle(BigEndianU32);

impl View for PHandle {
    type V = u32;

    closed spec fn view(&self) -> u32 {
        self.0@
    }
}

impl PHandle {
    /// Create a new [`PHandle`] using an existing handle ID, given in the
    /// platform's native endianness.
    pub fn new(handle: u32) -> (r: Self)
        ensures
            r@ == handle,
    {
        PHandle(BigEndianU32::from_ne(handle))
    }

    /// Return the [`PHandle`]'s value as a native-endianness [`u32`].
    pub fn as_u32(self) -> (r: u32)
        ensures
            r == self@,
    {
        self.0.to_ne()
    }
}

impl<'a> Property<'a> for PHandle {
    open spec fn parse_ensures(node: Node<'a>, r: Result<Option<Self>, FdtError>) -> bool {
        match u32_prop(node.this_view(), node.strings_view(), "phandle".spec_bytes()) {
            Err(e) => r == Err::<Option<Self>, FdtError>(e),
            Ok(None) => r == Ok::<Option<Self>, FdtError>(None),
            Ok(Some(v)) => r matches Ok(Some(p)) && p@ == v,
        }
    }

    fn parse(node: Node<'a>, _root: Root<'a>) -> (r: Result<Option<Self>, FdtError>) {
        match node_u32_prop(&node, "phandle") {
            Ok(Some(v)) => Ok(Some(PHandle::new(v))),
            Ok(None) => Ok(None),
            Err(e) => Err(e),
        }
    }
}

/// The `status` property indicates the operational status of a device.
#[derive(Debug, Clone, Copy, PartialEq, Eq, PartialOrd, Ord, Hash)]
pub struct Status<'a>(&'a str);

impl<'a> View for Status<'a> {
    type V = Seq<u8>;

    closed spec fn view(&self) -> Seq<u8> {
        self.0.spec_bytes()
    }
}

/// `s` with the prefix `p` taken off as often as it stands at its front.
pub open spec fn trim_prefix(s: Seq<u8>, p: Seq<u8>) -> Seq<u8>
    decreases s.len(),
{
    if p.len() > 0 && p.len() <= s.len() && s.subrange(0, p.len() as int) == p {
        trim_prefix(s.subrange(p.len() as int, s.len() as int), p)
    } else {
        s
    }
}

/// The bytes of `"fail-"`.
pub open spec fn fail_dash() -> Seq<u8> {
    seq![0x66u8, 0x61u8, 0x69u8, 0x6cu8, 0x2du8]
}

impl<'a> Status<'a> {
    /// A status from its string.
    pub fn new(status: &'a str) -> (r: Self)
        ensures
            r@ == status.spec_bytes(),
    {
        Status(status)
    }

    /// The status string.
    pub fn as_str(&self) -> (r: &'a str)
        ensures
            r.spec_bytes() == self@,
    {
        self.0
    }

    /// Returns true if the status is `"okay"`
    pub fn is_okay(self) -> (r: bool)
        ensures
            r == (self@ == "okay".spec_bytes()),
    {
        str_eq(self.0, "okay")
    }

    /// Returns true if the status is `"disabled"`
    pub fn is_disabled(self) -> (r: bool)
        ensures
            r == (self@ == "disabled".spec_bytes()),
    {
        str_eq(self.0, "disabled")
    }

    /// Returns true if the status is `"reserved"`
    pub fn is_reserved(self) -> (r: bool)
        ensures
            r == (self@ == "reserved".spec_bytes()),
    {
        str_eq(self.0, "reserved")
    }

    /// Returns true if the status is `"fail"` or begins with `"fail-"`
    pub fn is_failed(self) -> (r: bool)
        ensures
            r == (self@ == "fail".spec_bytes() || (fail_dash().len() <= self@.len() && self@.subrange(0, 5) == fail_dash())),
    {
        str_eq(self.0, "fail") || bytes_starts_with(self.0.as_bytes(), fail_dash_bytes())
    }

    /// Returns the `sss` portion of the `fail-sss` status, if the status is
    /// failed and contains a status condition: what follows the one leading
    /// `"fail-"`.
    pub fn failed_status_code(self) -> (r: Option<&'a str>)
        ensures
            (fail_dash().len() <= self@.len() && self@.subrange(0, 5) == fail_dash()) ==> (r matches Some(s)
                && s.spec_bytes() == self@.subrange(5, self@.len() as int)),
            !(fail_dash().len() <= self@.len() && self@.subrange(0, 5) == fail_dash()) ==> r is None,
    {
        let prefix = fail_dash_bytes();
        let b = self.0.as_bytes();
        if !bytes_starts_with(b, prefix) {
            return None;
        }
        proof {
            vstd::utf8::encode_utf8_valid_utf8(self.0@);
            assert forall|i: int| 0 <= i < 5 implies b@[i] <= 0x7f by {
                assert(b@.subrange(0, 5)[i] == fail_dash()[i]);
            }
            crate::util::lemma_utf8_drop_ascii_prefix(b@, 5);
        }
        let len = b.len();
        let rest = &b[5..len];
        match str_from_utf8(rest) {
            Some(s) => Some(s),
            None => None,
        }
    }
}

/// The bytes of `"fail-"`.
fn fail_dash_bytes() -> (r: &'static [u8])
    ensures
        r@ == fail_dash(),
{
    let r: &'static [u8] = &[0x66u8, 0x61u8, 0x69u8, 0x6cu8, 0x2du8];
    assert(r@ =~= fail_dash());
    r
}

impl<'a> Property<'a> for Status<'a> {
    open spec fn parse_ensures(node: Node<'a>, r: Result<Option<Self>, FdtError>) -> bool {
        match str_prop(node.this_view(), node.strings_view(), "status".spec_bytes()) {
            Err(e) => r == Err::<Option<Self>, FdtError>(e),
            Ok(None) => r == Ok::<Option<Self>, FdtError>(None),
            Ok(Some(b)) => r matches Ok(Some(c)) && c@ == b,
        }
    }

    fn parse(node: Node<'a>, _root: Root<'a>) -> (r: Result<Option<Self>, FdtError>) {
        match node_str_prop(&node, "status") {
            Ok(Some(s)) => Ok(Some(Status(s))),
            Ok(None) => Ok(None),
            Err(e) => Err(e),
        }
    }
}

/// The `dma-coherent` property: the device is capable of coherent DMA
/// operations.
pub struct DmaCoherent;

impl<'a> Property<'a> for DmaCoherent {
    open spec fn parse_ensures(node: Node<'a>, r: Result<Option<Self>, FdtError>) -> bool {
        match has_prop(node.this_view(), node.strings_view(), "dma-coherent".spec_bytes()) {
            Err(e) => r is Err && r == Err::<Option<Self>, FdtError>(e),
            Ok(b) => r matches Ok(o) && (o is Some <==> b),
        }
    }

    fn parse(node: Node<'a>, _root: Root<'a>) -> (r: Result<Option<Self>, FdtError>) {
        match node_has_prop(&node, "dma-coherent") {
            Ok(true) => Ok(Some(DmaCoherent)),
            Ok(false) => Ok(None),
            Err(e) => Err(e),
        }
    }
}

/// The first model of a `compatible` value is the first of all its models,
/// so a value is compatible with its own first model.
pub proof fn law_compatible_first(s: Seq<u8>)
    ensures
        split_pieces(s, 0)[0] == split_step(s, 0).0,
        split_pieces(s, 0).contains(split_step(s, 0).0),
{
    lemma_split_pieces_step(s, 0);
    assert(split_pieces(s, 0)[0] == split_step(s, 0).0);
}

} // verus!
