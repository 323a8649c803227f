//! Parsing of Flattened Devicetrees (FDT blobs), with contracts proved by Verus.

use vstd::prelude::*;

/// Byte-level helpers shared by the parsers.
pub mod util;
/// The token stream of the structure block and the parsers that walk it.
pub mod parsing;
/// Devicetree node abstractions.
pub mod nodes;
/// Trait and types for working with `*-cells` values.
pub mod cell_collector;
/// Devicetree property abstractions.
pub mod properties;
/// Printing a devicetree in the source format.
pub mod pretty_print;

use vstd::string::*;
use vstd::utf8::*;

use crate::nodes::root::{
    find_node_spec, named_step, node_opt_result, strs_bytes, walk_start, AllCompatibleIter, AllNodesIter,
    AllNodesWithNameIter, Root,
};
use crate::nodes::Node;
use crate::parsing::{
    host_to_from_be, parse_error_message, spec_header, spec_parse_root, BigEndianU32, FdtHeader, ParseError,
    StringsBlock, StructsBlock, UnalignedParser,
};
use crate::parsing::aligned::AlignedParser;
use crate::pretty_print::{print_fdt, spec_print_fdt, Error};
use crate::util::{decimal_chars, find_nul, first_nul, has_nul, lemma_first_nul, push_decimal, str_from_utf8};

verus! {

/// Possible errors when attempting to create or read an `Fdt`
#[derive(Debug, Clone, Copy)]
pub enum FdtError {
    /// The FDT had an invalid magic value
    BadMagic,
    /// The given pointer was null
    BadPtr,
    /// The provided slice is smaller than the required size given by the header
    SliceTooSmall,
    /// An error was encountered during parsing
    ParseError(ParseError),
    /// Attempted to resolve the `phandle` value for a node, but was unable to
    /// locate it.
    MissingPHandleNode(u32),
    /// A parent node is required.
    MissingParent,
    /// A required node with the given name wasn't found.
    MissingRequiredNode(&'static str),
    /// A required property with the given name wasn't found.
    MissingRequiredProperty(&'static str),
    /// Property name contained invalid characters.
    InvalidPropertyValue,
    /// Node name contained invalid characters.
    InvalidNodeName,
    /// A `-cells` property value was unable to be collected into the specified
    /// type.
    CollectCellsError,
}

/// The message that describes an error.
pub open spec fn error_message(e: FdtError) -> Seq<char> {
    match e {
        FdtError::BadMagic => "bad FDT magic value"@,
        FdtError::BadPtr => "an invalid pointer was passed"@,
        FdtError::SliceTooSmall => "provided slice is too small"@,
        FdtError::ParseError(p) => parse_error_message(p),
        FdtError::MissingPHandleNode(v) => "a node containing the `phandle` property value of `"@ + decimal_chars(v as nat)
            + "` was not found"@,
        FdtError::MissingParent => "node parent is not present but needed to parse a property"@,
        FdtError::MissingRequiredNode(name) => "FDT is missing a required node `"@ + name@ + "`"@,
        FdtError::MissingRequiredProperty(name) => "FDT node is missing a required property `"@ + name@ + "`"@,
        FdtError::InvalidPropertyValue => "FDT property value is invalid"@,
        FdtError::InvalidNodeName => "FDT node contained invalid characters or did not match the expected format"@,
        FdtError::CollectCellsError => "overflow occurred while collecting `#<specifier>-cells` size values into the desired type"@,
    }
}

impl FdtError {
    /// The message that describes this error.
    pub fn message(&self) -> (r: String)
        ensures
            r@ == error_message(*self),
    {
        match self {
            FdtError::BadMagic => String::from_str("bad FDT magic value"),
            FdtError::BadPtr => String::from_str("an invalid pointer was passed"),
            FdtError::SliceTooSmall => String::from_str("provided slice is too small"),
            FdtError::ParseError(e) => e.message(),
            FdtError::MissingPHandleNode(value) => {
                let mut s = String::from_str("a node containing the `phandle` property value of `");
                push_decimal(&mut s, *value as u64);
                s.append("` was not found");
                s
            },
            FdtError::MissingParent => String::from_str("node parent is not present but needed to parse a property"),
            FdtError::MissingRequiredNode(name) => {
                let mut s = String::from_str("FDT is missing a required node `");
                s.append(name);
                s.append("`");
                s
            },
            FdtError::MissingRequiredProperty(name) => {
                let mut s = String::from_str("FDT node is missing a required property `");
                s.append(name);
                s.append("`");
                s
            },
            FdtError::InvalidPropertyValue => String::from_str("FDT property value is invalid"),
            FdtError::InvalidNodeName => String::from_str(
                "FDT node contained invalid characters or did not match the expected format",
            ),
            FdtError::CollectCellsError => String::from_str(
                "overflow occurred while collecting `#<specifier>-cells` size values into the desired type",
            ),
        }
    }
}

impl From<ParseError> for FdtError {
    fn from(value: ParseError) -> (r: Self)
        ensures
            r == FdtError::ParseError(value),
    {
        FdtError::ParseError(value)
    }
}

impl vstd::std_specs::convert::FromSpecImpl<ParseError> for FdtError {
    open spec fn obeys_from_spec() -> bool {
        true
    }

    open spec fn from_spec(v: ParseError) -> Self {
        FdtError::ParseError(v)
    }
}

/// The four bytes that a `u32` word occupies in memory: the big-endian
/// bytes of the word read as a big-endian number.
pub open spec fn word_bytes(w: u32) -> Seq<u8> {
    let v = host_to_from_be(w);
    seq![(v / 0x1000000) as u8, (v / 0x10000 % 0x100) as u8, (v / 0x100 % 0x100) as u8, (v % 0x100) as u8]
}

/// The bytes that a slice of `u32` words occupies in memory.
pub open spec fn words_to_bytes(ws: Seq<u32>) -> Seq<u8> {
    Seq::new(4 * ws.len(), |i: int| word_bytes(ws[i / 4])[i % 4])
}

/// What building an `Fdt` from the bytes `data` gives: its header, strings
/// block and structure block, or the error.
pub open spec fn spec_new_unaligned(data: Seq<u8>) -> Result<(FdtHeader, Seq<u8>, Seq<u8>), FdtError> {
    match spec_header(data) {
        Err(e) => Err(e),
        Ok(h) => if data.len() < h.strings_offset + h.strings_size || data.len() < h.structs_offset + h.structs_size {
            Err(FdtError::SliceTooSmall)
        } else if h.magic != 0xd00dfeed {
            Err(FdtError::BadMagic)
        } else if data.len() < h.total_size {
            Err(FdtError::SliceTooSmall)
        } else {
            Ok(
                (
                    h,
                    data.subrange(h.strings_offset as int, h.strings_offset + h.strings_size),
                    data.subrange(h.structs_offset as int, h.structs_offset + h.structs_size),
                ),
            )
        },
    }
}

/// What building an `Fdt` from the bytes `data` of a slice of words gives:
/// as for bytes, but the structure block is taken in whole words, from the
/// word that holds its offset, as many as its size holds.
pub open spec fn spec_new_aligned(data: Seq<u8>) -> Result<(FdtHeader, Seq<u8>, Seq<u8>), FdtError> {
    match spec_new_unaligned(data) {
        Err(e) => Err(e),
        Ok(p) => Ok(
            (
                p.0,
                p.1,
                data.subrange(4 * (p.0.structs_offset / 4), 4 * (p.0.structs_offset / 4 + p.0.structs_size / 4)),
            ),
        ),
    }
}

/// The header of an `Fdt` built from bytes, or from the bytes of words, is
/// the ten header words at the front of the data, in the order of the
/// devicetree specification.
pub proof fn law_fdt_header_layout(data: Seq<u8>)
    ensures
        spec_new_unaligned(data) matches Ok(p) ==> crate::parsing::header_fields_at(p.0, data),
        spec_new_aligned(data) matches Ok(p) ==> crate::parsing::header_fields_at(p.0, data),
{
    crate::parsing::law_header_layout(data);
}

/// The blocks of an `Fdt` built from bytes lie where the header puts them:
/// the strings block at the offset held by bytes 12..16 with the size held by
/// bytes 32..36, the structure block at the offset held by bytes 8..12 with
/// the size held by bytes 36..40; building succeeds exactly when the header
/// is there with the right magic and both blocks and the total size fit in
/// the data.
pub proof fn law_fdt_blocks_layout(data: Seq<u8>)
    ensures
        ({
            let so = crate::util::be_u32(data.subrange(12, 16)) as int;
            let ss = crate::util::be_u32(data.subrange(32, 36)) as int;
            let to = crate::util::be_u32(data.subrange(8, 12)) as int;
            let ts = crate::util::be_u32(data.subrange(36, 40)) as int;
            &&& spec_new_unaligned(data) is Ok <==> (data.len() >= 40 && so + ss <= data.len() && to + ts <= data.len()
                && crate::util::be_u32(data.subrange(0, 4)) == 0xd00dfeed && crate::util::be_u32(data.subrange(4, 8))
                <= data.len())
            &&& spec_new_unaligned(data) matches Ok(p) ==> p.1 == data.subrange(so, so + ss) && p.2 == data.subrange(
                to,
                to + ts,
            )
        }),
{
    crate::parsing::law_header_layout(data);
}

/// The header's block sizes can be added to their offsets without overflow.
pub open spec fn header_sums_fit(data: Seq<u8>) -> bool {
    spec_header(data) matches Ok(h) ==> h.strings_offset + h.strings_size <= u32::MAX && h.structs_offset
        + h.structs_size <= u32::MAX
}

/// Whether the header of `data` has block sizes that can be added to their
/// offsets without overflow, as building an `Fdt` from `data` requires.
pub fn header_fits(data: &[u8]) -> (r: bool)
    ensures
        r == header_sums_fit(data@),
{
    let mut parser = UnalignedParser::new(data, StringsBlock(&data[0..0]), StructsBlock(&data[0..0]));
    match parser.parse_header() {
        Err(_) => true,
        Ok(h) => h.strings_offset as u64 + h.strings_size as u64 <= 0xffff_ffff && h.structs_offset as u64
            + h.structs_size as u64 <= 0xffff_ffff,
    }
}

/// The strings of a strings block: its NUL-terminated pieces, in order, up
/// to the first one that is not terminated or not UTF-8.
pub open spec fn block_strings(b: Seq<u8>) -> Seq<Seq<u8>>
    decreases b.len(),
{
    if b.len() == 0 || !has_nul(b) {
        Seq::empty()
    } else {
        let piece = b.subrange(0, first_nul(b));
        if !valid_utf8(piece) {
            Seq::empty()
        } else {
            proof {
                lemma_first_nul(b);
            }
            seq![piece] + block_strings(b.subrange(first_nul(b) + 1, b.len() as int))
        }
    }
}

/// The bytes of each of the strings `v`.
pub open spec fn strs_view(v: Seq<&str>) -> Seq<Seq<u8>> {
    Seq::new(v.len(), |i: int| v[i].spec_bytes())
}

/// Where the bytes of a devicetree are kept.
enum FdtData<'a> {
    Borrowed(&'a [u8]),
    Owned(Vec<u8>),
}

impl<'a> FdtData<'a> {
    closed spec fn view(&self) -> Seq<u8> {
        match self {
            FdtData::Borrowed(b) => b@,
            FdtData::Owned(v) => v@,
        }
    }

    fn bytes(&self) -> (r: &[u8])
        ensures
            r@ == self.view(),
    {
        match self {
            FdtData::Borrowed(b) => b,
            FdtData::Owned(v) => v.as_slice(),
        }
    }
}

/// A flattened devicetree located somewhere in memory
pub struct Fdt<'a> {
    data: FdtData<'a>,
    header: FdtHeader,
    strings_start: usize,
    strings_end: usize,
    structs_start: usize,
    structs_end: usize,
}

impl<'a> Fdt<'a> {
    #[verifier::type_invariant]
    closed spec fn inv(&self) -> bool {
        &&& self.strings_start <= self.strings_end <= self.data.view().len()
        &&& self.structs_start <= self.structs_end <= self.data.view().len()
    }

    /// The header.
    pub closed spec fn header_view(&self) -> FdtHeader {
        self.header
    }

    /// The bytes of the strings block.
    pub closed spec fn strings_view(&self) -> Seq<u8> {
        self.data.view().subrange(self.strings_start as int, self.strings_end as int)
    }

    /// The bytes of the structure block.
    pub closed spec fn structs_view(&self) -> Seq<u8> {
        self.data.view().subrange(self.structs_start as int, self.structs_end as int)
    }

    /// Reads the header of `data` and finds its blocks; the block ends are
    /// computed without overflow.
    fn from_bytes(data: &'a [u8]) -> (r: Result<Self, FdtError>)
        ensures
            spec_new_unaligned(data@) matches Err(e) ==> r == Err::<Fdt, FdtError>(e),
            spec_new_unaligned(data@) matches Ok(p) ==> r matches Ok(f) && f.header_view() == p.0
                && f.strings_view() == p.1 && f.structs_view() == p.2,
    {
        let mut parser = UnalignedParser::new(data, StringsBlock(&data[0..0]), StructsBlock(&data[0..0]));
        let header = match parser.parse_header() {
            Ok(h) => h,
            Err(e) => return Err(e),
        };
        let len = data.len() as u64;
        let strings_end = header.strings_offset as u64 + header.strings_size as u64;
        let structs_end = header.structs_offset as u64 + header.structs_size as u64;
        if len < strings_end || len < structs_end {
            return Err(FdtError::SliceTooSmall);
        }
        if !header.valid_magic() {
            return Err(FdtError::BadMagic);
        } else if len < header.total_size as u64 {
            return Err(FdtError::SliceTooSmall);
        }
        Ok(Fdt {
            data: FdtData::Borrowed(data),
            header,
            strings_start: header.strings_offset as usize,
            strings_end: strings_end as usize,
            structs_start: header.structs_offset as usize,
            structs_end: structs_end as usize,
        })
    }

    /// Reads the header from the `u32` words of `data`, checks the blocks,
    /// then copies the words into bytes, in the order in which they lie in
    /// memory; the block ends are computed without overflow.
    fn from_words(data: &'a [u32]) -> (r: Result<Self, FdtError>)
        requires
            4 * data@.len() <= usize::MAX,
        ensures
            spec_new_aligned(words_to_bytes(data@)) matches Err(e) ==> r == Err::<Fdt, FdtError>(e),
            spec_new_aligned(words_to_bytes(data@)) matches Ok(p) ==> r matches Ok(f)
                && f.header_view() == p.0 && f.strings_view() == p.1 && f.structs_view() == p.2,
    {
        let empty: &[u8] = &[];
        let mut parser = AlignedParser::new(data, StringsBlock(empty), StructsBlock(empty));
        let header = match parser.parse_header() {
            Ok(h) => h,
            Err(e) => return Err(e),
        };
        let len = 4 * data.len() as u64;
        let strings_end = header.strings_offset as u64 + header.strings_size as u64;
        let structs_end = header.structs_offset as u64 + header.structs_size as u64;
        if len < strings_end || len < structs_end {
            return Err(FdtError::SliceTooSmall);
        }
        if !header.valid_magic() {
            return Err(FdtError::BadMagic);
        } else if len < header.total_size as u64 {
            return Err(FdtError::SliceTooSmall);
        }
        let structs_start = header.structs_offset as u64 / 4;
        let structs_words = header.structs_size as u64 / 4;
        let bytes = words_to_byte_vec(data);
        Ok(Fdt {
            data: FdtData::Owned(bytes),
            header,
            strings_start: header.strings_offset as usize,
            strings_end: strings_end as usize,
            structs_start: (4 * structs_start) as usize,
            structs_end: (4 * (structs_start + structs_words)) as usize,
        })
    }

    /// Construct a new `Fdt` from a byte buffer
    pub fn new_unaligned(data: &'a [u8]) -> (r: Result<Self, FdtError>)
        requires
            header_sums_fit(data@),
        ensures
            spec_new_unaligned(data@) matches Err(e) ==> r == Err::<Fdt, FdtError>(e),
            spec_new_unaligned(data@) matches Ok(p) ==> r matches Ok(f) && f.header_view() == p.0
                && f.strings_view() == p.1 && f.structs_view() == p.2,
    {
        Self::from_bytes(data)
    }

    /// Construct a new `Fdt` from a `u32`-aligned buffer; the words are copied
    /// into bytes in the order in which they lie in memory.
    pub fn new(data: &'a [u32]) -> (r: Result<Self, FdtError>)
        requires
            header_sums_fit(words_to_bytes(data@)),
            4 * data@.len() <= usize::MAX,
        ensures
            spec_new_aligned(words_to_bytes(data@)) matches Err(e) ==> r == Err::<Fdt, FdtError>(e),
            spec_new_aligned(words_to_bytes(data@)) matches Ok(p) ==> r matches Ok(f)
                && f.header_view() == p.0 && f.strings_view() == p.1 && f.structs_view() == p.2,
    {
        Self::from_words(data)
    }

    /// Construct a new `Fdt` from a byte buffer; errors are reported as
    /// values, a header whose blocks end past what a `u32` holds included.
    pub fn new_unaligned_fallible(data: &'a [u8]) -> (r: Result<Self, FdtError>)
        ensures
            spec_new_unaligned(data@) matches Err(e) ==> r == Err::<Fdt, FdtError>(e),
            spec_new_unaligned(data@) matches Ok(p) ==> r matches Ok(f) && f.header_view() == p.0
                && f.strings_view() == p.1 && f.structs_view() == p.2,
    {
        Self::from_bytes(data)
    }

    /// Construct a new `Fdt` from a `u32`-aligned buffer; errors are reported
    /// as values, a header whose blocks end past what a `u32` holds included.
    pub fn new_fallible(data: &'a [u32]) -> (r: Result<Self, FdtError>)
        requires
            4 * data@.len() <= usize::MAX,
        ensures
            spec_new_aligned(words_to_bytes(data@)) matches Err(e) ==> r == Err::<Fdt, FdtError>(e),
            spec_new_aligned(words_to_bytes(data@)) matches Ok(p) ==> r matches Ok(f)
                && f.header_view() == p.0 && f.strings_view() == p.1 && f.structs_view() == p.2,
    {
        Self::from_words(data)
    }

    /// Slice pointing to the raw strings block.
    pub fn strings_block(&self) -> (r: &[u8])
        ensures
            r@ == self.strings_view(),
    {
        proof {
            use_type_invariant(self);
        }
        let b = self.data.bytes();
        &b[self.strings_start..self.strings_end]
    }

    /// Slice pointing to the raw structs block.
    pub fn structs_block(&self) -> (r: &[u8])
        ensures
            r@ == self.structs_view(),
    {
        proof {
            use_type_invariant(self);
        }
        let b = self.data.bytes();
        &b[self.structs_start..self.structs_end]
    }

    /// Header describing this devicetree.
    pub fn header(&self) -> (r: &FdtHeader)
        ensures
            *r == self.header_view(),
    {
        &self.header
    }

    /// Total size of the devicetree in bytes
    pub fn total_size(&self) -> (r: usize)
        ensures
            r == self.header_view().total_size,
    {
        self.header.total_size as usize
    }

    /// Return the root (`/`) node
    pub fn root(&self) -> (r: Result<Root<'_>, FdtError>)
        ensures
            spec_parse_root(self.structs_view()) matches Ok(b) ==> r matches Ok(root)
                && root.node_view().this_view() == b && root.node_view().parent_view() is None
                && root.node_view().strings_view() == self.strings_view()
                && root.node_view().structs_view() == self.structs_view(),
            spec_parse_root(self.structs_view()) matches Err(e) ==> r == Err::<Root, FdtError>(e),
    {
        let structs = self.structs_block();
        let strings = self.strings_block();
        let mut parser = UnalignedParser::new(structs, StringsBlock(strings), StructsBlock(structs));
        match parser.parse_root_raw() {
            Ok(this) => Ok(Root::from_node(Node::from_parts(this, None, StringsBlock(strings), StructsBlock(structs)))),
            Err(e) => Err(e),
        }
    }

    /// The strings of the strings block, in order; the listing stops at the
    /// first string that is not NUL-terminated or not UTF-8.
    pub fn strings(&self) -> (r: Vec<&str>)
        ensures
            strs_view(r@) == block_strings(self.strings_view()),
    {
        let mut block = self.strings_block();
        let mut out: Vec<&str> = Vec::new();
        let ghost all = block@;
        proof {
            assert(strs_view(out@) + block_strings(block@) =~= block_strings(all));
        }
        loop
            invariant
                all == self.strings_view(),
                strs_view(out@) + block_strings(block@) == block_strings(all),
            decreases block@.len(),
        {
            if block.len() == 0 {
                assert(strs_view(out@) + Seq::<Seq<u8>>::empty() =~= strs_view(out@));
                return out;
            }
            let end = match find_nul(block) {
                Some(i) => i,
                None => {
                    assert(strs_view(out@) + Seq::<Seq<u8>>::empty() =~= strs_view(out@));
                    return out;
                },
            };
            let piece = &block[0..end];
            let len = block.len();
            let rest = &block[end + 1..len];
            match str_from_utf8(piece) {
                Some(st) => {
                    let ghost before = out@;
                    out.push(st);
                    proof {
                        assert(strs_view(out@) =~= strs_view(before) + seq![piece@]);
                        assert(block_strings(block@) == seq![piece@] + block_strings(rest@));
                        assert(strs_view(out@) + block_strings(rest@) =~= strs_view(before) + block_strings(block@));
                    }
                    block = rest;
                },
                None => {
                    assert(strs_view(out@) + Seq::<Seq<u8>>::empty() =~= strs_view(out@));
                    return out;
                },
            }
        }
    }

    /// Convenience wrapper around [`Root::all_compatible`]: every node
    /// compatible with at least one of the strings `with`.
    pub fn all_compatible<'b>(&self, with: &'b [&'b str]) -> (r: Result<AllCompatibleIter<'_, 'b>, FdtError>)
        ensures
            match spec_parse_root(self.structs_view()) {
                Err(e) => r == Err::<AllCompatibleIter, FdtError>(e),
                Ok(b) => match walk_start(b) {
                    Err(e) => r == Err::<AllCompatibleIter, FdtError>(e),
                    Ok(st) => r matches Ok(it) && it@ == st && it.wf() && it.with_view() == strs_bytes(with@)
                        && it.strings_view() == self.strings_view() && it.structs_view() == self.structs_view(),
                },
            },
    {
        match self.root() {
            Ok(root) => root.all_compatible(with),
            Err(e) => Err(e),
        }
    }

    /// The devicetree in the source format, as `dtc` prints it.
    pub fn to_dts_string(&self) -> (r: Result<String, Error>)
        ensures
            match spec_parse_root(self.structs_view()) {
                Err(_) => r is Err,
                Ok(b) => match spec_print_fdt(b, None, self.strings_view(), self.structs_view()) {
                    None => r is Err,
                    Some(t) => r matches Ok(s) && s@ == t,
                },
            },
    {
        match self.root() {
            Ok(root) => print_fdt(root),
            Err(_) => Err(Error),
        }
    }

    /// Convenience wrapper around [`Root::find_node`]. Attempt to find a node
    /// with the given path (with an optional unit address, defaulting to the
    /// first matching name if omitted).
    pub fn find_node(&self, path: &str) -> (r: Result<Option<Node<'_>>, FdtError>)
        ensures
            match spec_parse_root(self.structs_view()) {
                Err(e) => r == Err::<Option<Node>, FdtError>(e),
                Ok(b) => node_opt_result(r, find_node_spec(b, None, path.spec_bytes())),
            },
    {
        match self.root() {
            Ok(root) => root.find_node(path),
            Err(e) => Err(e),
        }
    }

    /// Convenience wrapper around [`Root::find_node_by_name`]. Returns the
    /// first node with a name that matches `name` in depth-first order.
    pub fn find_node_by_name(&self, name: &str) -> (r: Result<Option<Node<'_>>, FdtError>)
        ensures
            match spec_parse_root(self.structs_view()) {
                Err(e) => r == Err::<Option<Node>, FdtError>(e),
                Ok(b) => match walk_start(b) {
                    Err(e) => r == Err::<Option<Node>, FdtError>(e),
                    Ok(st) => match named_step(st, name.spec_bytes()).0 {
                        None => r == Ok::<Option<Node>, FdtError>(None),
                        Some(Err(e)) => r == Err::<Option<Node>, FdtError>(e),
                        Some(Ok(n)) => r matches Ok(Some(x)) && x.this_view() == n.1 && x.parent_view() == Some(n.2),
                    },
                },
            },
    {
        match self.root() {
            Ok(root) => root.find_node_by_name(name),
            Err(e) => Err(e),
        }
    }

    /// Convenience wrapper around [`Root::find_all_nodes_with_name`].
    pub fn find_all_nodes_with_name<'b>(&self, name: &'b str) -> (r: Result<AllNodesWithNameIter<'_, 'b>, FdtError>)
        ensures
            match spec_parse_root(self.structs_view()) {
                Err(e) => r == Err::<AllNodesWithNameIter, FdtError>(e),
                Ok(b) => match walk_start(b) {
                    Err(e) => r == Err::<AllNodesWithNameIter, FdtError>(e),
                    Ok(st) => r matches Ok(it) && it@ == st && it.wf() && it.name_view() == name.spec_bytes(),
                },
            },
    {
        match self.root() {
            Ok(root) => root.find_all_nodes_with_name(name),
            Err(e) => Err(e),
        }
    }

    /// Convenience wrapper around [`Root::all_nodes`]. Returns an iterator over
    /// each node in the tree, depth-first, along with its depth in the tree.
    pub fn all_nodes(&self) -> (r: Result<AllNodesIter<'_>, FdtError>)
        ensures
            match spec_parse_root(self.structs_view()) {
                Err(e) => r == Err::<AllNodesIter, FdtError>(e),
                Ok(b) => match walk_start(b) {
                    Err(e) => r == Err::<AllNodesIter, FdtError>(e),
                    Ok(st) => r matches Ok(it) && it@ == st && it.wf(),
                },
            },
    {
        match self.root() {
            Ok(root) => root.all_nodes(),
            Err(e) => Err(e),
        }
    }
}

/// The bytes that `data` occupies in memory, copied into a vector.
pub fn words_to_byte_vec(data: &[u32]) -> (r: Vec<u8>)
    requires
        4 * data@.len() <= usize::MAX,
    ensures
        r@ == words_to_bytes(data@),
{
    let mut out: Vec<u8> = Vec::new();
    let mut k: usize = 0;
    while k < data.len()
        invariant
            k <= data@.len(),
            out@.len() == 4 * k,
            forall|i: int| 0 <= i < 4 * k ==> out@[i] == word_bytes(data@[i / 4])[i % 4],
        decreases data@.len() - k,
    {
        let b = BigEndianU32::from_be(data[k]);
        let v = b.to_ne();
        out.push((v / 0x1000000) as u8);
        out.push((v / 0x10000 % 0x100) as u8);
        out.push((v / 0x100 % 0x100) as u8);
        out.push((v % 0x100) as u8);
        k = k + 1;
    }
    assert(out@ =~= words_to_bytes(data@));
    out
}

/// The strings `ps`, each followed by a NUL.
pub open spec fn nul_terminated(ps: Seq<Seq<u8>>) -> Seq<u8>
    decreases ps.len(),
{
    if ps.len() == 0 {
        Seq::empty()
    } else {
        ps[0] + seq![0u8] + nul_terminated(ps.drop_first())
    }
}

/// The strings listed from a strings block are UTF-8 without NULs, and,
/// each followed by its NUL, they are the start of the block.
pub proof fn law_block_strings(b: Seq<u8>)
    ensures
        nul_terminated(block_strings(b)).len() <= b.len(),
        b.subrange(0, nul_terminated(block_strings(b)).len() as int) == nul_terminated(block_strings(b)),
        forall|i: int| 0 <= i < block_strings(b).len() ==> valid_utf8(#[trigger] block_strings(b)[i])
            && !has_nul(block_strings(b)[i]),
    decreases b.len(),
{
    if b.len() == 0 || !has_nul(b) {
        assert(b.subrange(0, 0) =~= Seq::<u8>::empty());
    } else {
        let n = first_nul(b);
        lemma_first_nul(b);
        let piece = b.subrange(0, n);
        if !valid_utf8(piece) {
            assert(b.subrange(0, 0) =~= Seq::<u8>::empty());
        } else {
            let rest = b.subrange(n + 1, b.len() as int);
            law_block_strings(rest);
            let ps = block_strings(b);
            assert(ps.drop_first() =~= block_strings(rest));
            let t = nul_terminated(block_strings(rest));
            assert(nul_terminated(ps) == piece + seq![0u8] + t);
            assert(b.subrange(0, nul_terminated(ps).len() as int) =~= piece + seq![0u8] + rest.subrange(0, t.len() as int));
            assert forall|i: int| 0 <= i < ps.len() implies valid_utf8(#[trigger] ps[i]) && !has_nul(ps[i]) by {
                if i == 0 {
                    if has_nul(piece) {
                        let j = choose|j: int| 0 <= j < piece.len() && piece[j] == 0;
                        assert(b[j] == 0);
                    }
                } else {
                    assert(ps[i] == block_strings(rest)[i - 1]);
                }
            }
        }
    }
}

} // verus!
