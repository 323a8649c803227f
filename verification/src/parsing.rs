use vstd::prelude::*;

use vstd::string::*;
use vstd::utf8::valid_utf8;
use crate::util::{be_u32, find_nul, read_be_u32, str_from_utf8, first_nul, has_nul, lemma_first_nul, round_up4, skip_or_empty};
use crate::FdtError;

/// A parser that reads the structure block a `u32` word at a time.
pub mod aligned;

verus! {

broadcast use vstd::seq::group_seq_axioms;

/// Token value opening a node.
pub const FDT_BEGIN_NODE: u32 = 1;
/// Token value closing a node.
pub const FDT_END_NODE: u32 = 2;
/// Token value introducing a property.
pub const FDT_PROP: u32 = 3;
/// Token value that carries nothing and is skipped.
pub const FDT_NOP: u32 = 4;
/// Token value ending the structure block.
pub const FDT_END: u32 = 9;

/// Errors found while reading the raw token stream.
#[derive(Debug, Clone, Copy)]
pub enum ParseError {
    NumericConversionError,
    InvalidCStrValue,
    InvalidPropertyValue,
    InvalidTokenValue,
    UnexpectedToken,
    UnexpectedEndOfData,
}

/// The message that describes a parse error.
pub open spec fn parse_error_message(e: ParseError) -> Seq<char> {
    match e {
        ParseError::InvalidCStrValue => "cstr was either non-terminated or invalid ASCII"@,
        ParseError::InvalidPropertyValue => "invalid property value"@,
        ParseError::InvalidTokenValue => "encountered invalid FDT token value while parsing"@,
        ParseError::NumericConversionError => "u32 value too large for usize (this should only occur on 16-bit platforms)"@,
        ParseError::UnexpectedEndOfData => "encountered end of data while parsing but expected more"@,
        ParseError::UnexpectedToken => "encountered an unexpected FDT token value while parsing"@,
    }
}

impl ParseError {
    /// The message that describes this error.
    pub fn message(&self) -> (r: String)
        ensures
            r@ == parse_error_message(*self),
    {
        match self {
            ParseError::InvalidCStrValue => String::from_str("cstr was either non-terminated or invalid ASCII"),
            ParseError::InvalidPropertyValue => String::from_str("invalid property value"),
            ParseError::InvalidTokenValue => String::from_str("encountered invalid FDT token value while parsing"),
            ParseError::NumericConversionError => String::from_str(
                "u32 value too large for usize (this should only occur on 16-bit platforms)",
            ),
            ParseError::UnexpectedEndOfData => String::from_str("encountered end of data while parsing but expected more"),
            ParseError::UnexpectedToken => String::from_str("encountered an unexpected FDT token value while parsing"),
        }
    }
}

/// The error for running out of data.
pub open spec fn eod() -> FdtError {
    FdtError::ParseError(ParseError::UnexpectedEndOfData)
}

/// `x` with its four bytes in reverse order.
pub open spec fn swap_bytes32(x: u32) -> u32 {
    ((x & 0xff) << 24u32) | ((x & 0xff00) << 8u32) | ((x >> 8u32) & 0xff00) | (x >> 24u32)
}

/// Whether the host stores integers most significant byte first.
pub open spec fn host_is_big_endian() -> bool {
    vstd::endian::endianness() matches vstd::endian::Endian::Big
}

/// The conversion between host byte order and big-endian order (it is its own inverse).
pub open spec fn host_to_from_be(x: u32) -> u32 {
    if host_is_big_endian() { x } else { swap_bytes32(x) }
}

/// The conversion between host byte order and little-endian order.
pub open spec fn host_to_from_le(x: u32) -> u32 {
    if host_is_big_endian() { swap_bytes32(x) } else { x }
}

pub proof fn lemma_swap_bytes32_involution(x: u32)
    ensures
        swap_bytes32(swap_bytes32(x)) == x,
{
    assert(swap_bytes32(swap_bytes32(x)) == x) by (bit_vector);
}

/// Calls `u32::from_be`: the value is kept on a big-endian host and has its
/// bytes reversed on a little-endian one.
#[verifier::external_body]
fn u32_from_be(x: u32) -> (r: u32)
    ensures
        r == host_to_from_be(x),
{
    u32::from_be(x)
}

/// Calls `u32::to_be`: the value is kept on a big-endian host and has its
/// bytes reversed on a little-endian one.
#[verifier::external_body]
fn u32_to_be(x: u32) -> (r: u32)
    ensures
        r == host_to_from_be(x),
{
    x.to_be()
}

/// Calls `u32::from_le`: the value is kept on a little-endian host and has
/// its bytes reversed on a big-endian one.
#[verifier::external_body]
fn u32_from_le(x: u32) -> (r: u32)
    ensures
        r == host_to_from_le(x),
{
    u32::from_le(x)
}

/// A `u32` kept in big-endian byte order, as it is laid out in a devicetree.
#[derive(Debug, Clone, Copy, PartialEq, Eq, PartialOrd, Ord, Hash)]
pub struct BigEndianU32(u32);

impl View for BigEndianU32 {
    type V = u32;

    /// The value in the host's own byte order.
    closed spec fn view(&self) -> u32 {
        host_to_from_be(self.0)
    }
}

impl BigEndianU32 {
    /// The raw big-endian representation.
    pub closed spec fn raw(self) -> u32 {
        self.0
    }

    /// The host-order value is the raw one, converted from big-endian order.
    pub proof fn law_view_raw(self)
        ensures
            self@ == host_to_from_be(self.raw()),
    {
    }

    /// Wraps a value given in the host's byte order.
    pub fn from_ne(n: u32) -> (r: Self)
        ensures
            r@ == n,
            r.raw() == host_to_from_be(n),
    {
        proof {
            lemma_swap_bytes32_involution(n);
        }
        Self(u32_to_be(n))
    }

    /// Wraps a value given in little-endian byte order.
    pub fn from_le(n: u32) -> (r: Self)
        ensures
            r@ == host_to_from_le(n),
    {
        Self::from_ne(u32_from_le(n))
    }

    /// Wraps a value that already is in big-endian byte order.
    pub fn from_be(n: u32) -> (r: Self)
        ensures
            r.raw() == n,
            r@ == host_to_from_be(n),
    {
        Self(n)
    }

    /// The value in the host's byte order.
    pub fn to_ne(self) -> (r: u32)
        ensures
            r == self@,
    {
        u32_from_be(self.0)
    }

    /// The raw big-endian representation.
    pub fn to_be(self) -> (r: u32)
        ensures
            r == self.raw(),
    {
        self.0
    }
}

/// A structure block token, kept in big-endian byte order.
#[derive(Debug, Clone, Copy, PartialEq, Eq, PartialOrd, Ord)]
pub struct BigEndianToken(pub(crate) BigEndianU32);

impl View for BigEndianToken {
    type V = u32;

    /// The token's value in host byte order.
    closed spec fn view(&self) -> u32 {
        self.0@
    }
}

impl BigEndianToken {
    /// Token with the given host-order value.
    pub fn new(value: u32) -> (r: Self)
        ensures
            r@ == value,
    {
        BigEndianToken(BigEndianU32::from_ne(value))
    }

    /// The token's value in host byte order.
    pub fn value(self) -> (r: u32)
        ensures
            r == self@,
    {
        self.0.to_ne()
    }
}

// ---------------------------------------------------------------------------
// The token stream, as a function of the remaining bytes.  Each step returns
// its result together with the bytes that remain after it.
// ---------------------------------------------------------------------------

/// Whether `v` is one of the tokens that the stream hands out.
pub open spec fn is_token(v: u32) -> bool {
    v == FDT_BEGIN_NODE || v == FDT_END_NODE || v == FDT_PROP || v == FDT_END
}

/// Reading one big-endian `u32`.
pub open spec fn step_u32(s: Seq<u8>) -> (Result<u32, FdtError>, Seq<u8>) {
    if s.len() < 4 {
        (Err(eod()), s)
    } else {
        (Ok(be_u32(s)), s.subrange(4, s.len() as int))
    }
}

/// Reading the next token, skipping `NOP`s.
pub open spec fn step_token(s: Seq<u8>) -> (Result<u32, FdtError>, Seq<u8>)
    decreases s.len(),
{
    if s.len() < 4 {
        (Err(eod()), s)
    } else {
        let v = be_u32(s);
        let rest = s.subrange(4, s.len() as int);
        if v == FDT_NOP {
            step_token(rest)
        } else if is_token(v) {
            (Ok(v), rest)
        } else {
            (Err(FdtError::ParseError(ParseError::InvalidTokenValue)), rest)
        }
    }
}

/// The token that comes next, without consuming it.
pub open spec fn peek_token(s: Seq<u8>) -> Result<u32, FdtError> {
    step_token(s).0
}

/// Reading a NUL-terminated string and the padding up to the next multiple of four.
pub open spec fn step_cstr(s: Seq<u8>) -> (Result<Seq<u8>, FdtError>, Seq<u8>) {
    if has_nul(s) {
        let i = first_nul(s);
        (Ok(s.subrange(0, i)), skip_or_empty(s, round_up4(i + 1)))
    } else {
        (Err(FdtError::ParseError(ParseError::InvalidCStrValue)), s)
    }
}

/// Skipping `n` bytes of data and their padding.
pub open spec fn step_aligned(s: Seq<u8>, n: int) -> Seq<u8> {
    skip_or_empty(s, round_up4(n))
}

/// Reading one property: its name offset and its value.
pub open spec fn step_raw_property(s: Seq<u8>) -> (Result<(u32, Seq<u8>), FdtError>, Seq<u8>) {
    let (t, s1) = step_token(s);
    match t {
        Err(e) => (Err(e), s1),
        Ok(t) => if t != FDT_PROP {
            (Err(FdtError::ParseError(ParseError::UnexpectedToken)), s1)
        } else {
            let (len, s2) = step_u32(s1);
            match len {
                Err(e) => (Err(e), s2),
                Ok(len) => {
                    let (off, s3) = step_u32(s2);
                    match off {
                        Err(e) => (Err(e), s3),
                        Ok(off) => if len > s3.len() {
                            (Err(eod()), s3)
                        } else {
                            (Ok((off, s3.subrange(0, len as int))), step_aligned(s3, len as int))
                        },
                    }
                },
            }
        },
    }
}

/// `r` is what remains of `s` after dropping some of its front.
pub open spec fn is_suffix(r: Seq<u8>, s: Seq<u8>) -> bool {
    r.len() <= s.len() && r == s.subrange(s.len() - r.len(), s.len() as int)
}

pub proof fn lemma_suffix_trans(a: Seq<u8>, b: Seq<u8>, c: Seq<u8>)
    requires
        is_suffix(a, b),
        is_suffix(b, c),
    ensures
        is_suffix(a, c),
{
    assert(a =~= c.subrange(c.len() - a.len(), c.len() as int));
}

pub proof fn lemma_suffix_refl(a: Seq<u8>)
    ensures
        is_suffix(a, a),
{
    assert(a =~= a.subrange(0, a.len() as int));
}

pub proof fn lemma_subrange_suffix(s: Seq<u8>, i: int)
    requires
        0 <= i <= s.len(),
    ensures
        is_suffix(s.subrange(i, s.len() as int), s),
{
    assert(s.subrange(i, s.len() as int) =~= s.subrange(s.len() - s.subrange(i, s.len() as int).len(), s.len() as int));
}

pub proof fn lemma_skip_or_empty_suffix(s: Seq<u8>, n: int)
    ensures
        is_suffix(skip_or_empty(s, n), s),
{
    if 0 <= n <= s.len() {
        lemma_subrange_suffix(s, n);
    } else {
        assert(Seq::<u8>::empty() =~= s.subrange(s.len() as int, s.len() as int));
    }
}

pub proof fn lemma_step_u32_suffix(s: Seq<u8>)
    ensures
        is_suffix(step_u32(s).1, s),
        step_u32(s).0 is Ok ==> step_u32(s).1.len() == s.len() - 4,
{
    if s.len() < 4 {
        lemma_suffix_refl(s);
    } else {
        lemma_subrange_suffix(s, 4);
    }
}

pub proof fn lemma_step_token_suffix(s: Seq<u8>)
    ensures
        is_suffix(step_token(s).1, s),
        step_token(s).0 is Ok ==> step_token(s).1.len() <= s.len() - 4,
    decreases s.len(),
{
    if s.len() < 4 {
        lemma_suffix_refl(s);
    } else {
        let rest = s.subrange(4, s.len() as int);
        lemma_subrange_suffix(s, 4);
        if be_u32(s) == FDT_NOP {
            lemma_step_token_suffix(rest);
            lemma_suffix_trans(step_token(rest).1, rest, s);
        }
    }
}

pub proof fn lemma_step_cstr_suffix(s: Seq<u8>)
    ensures
        is_suffix(step_cstr(s).1, s),
        step_cstr(s).0 is Ok ==> step_cstr(s).1.len() < s.len() || s.len() == 0,
{
    if has_nul(s) {
        lemma_skip_or_empty_suffix(s, round_up4(first_nul(s) + 1));
        lemma_first_nul(s);
    } else {
        lemma_suffix_refl(s);
    }
}

pub proof fn lemma_step_raw_property_suffix(s: Seq<u8>)
    ensures
        is_suffix(step_raw_property(s).1, s),
        step_raw_property(s).0 is Ok ==> step_raw_property(s).1.len() < s.len(),
{
    let (t, s1) = step_token(s);
    lemma_step_token_suffix(s);
    lemma_step_u32_suffix(s1);
    let s2 = step_u32(s1).1;
    lemma_suffix_trans(s2, s1, s);
    lemma_step_u32_suffix(s2);
    let s3 = step_u32(s2).1;
    lemma_suffix_trans(s3, s2, s);
    match step_u32(s1).0 {
        Ok(len) => {
            lemma_skip_or_empty_suffix(s3, round_up4(len as int));
            lemma_suffix_trans(step_aligned(s3, len as int), s3, s);
        },
        Err(_) => {},
    }
}

} // verus!

verus! {

/// The FDT header: ten big-endian `u32` fields at the start of the blob.
pub open spec fn header_field(s: Seq<u8>, k: int) -> u32 {
    be_u32(s.subrange(4 * k, 4 * k + 4))
}

/// The header held by the first forty bytes of `s`, or the error for a shorter `s`.
pub open spec fn spec_header(s: Seq<u8>) -> Result<FdtHeader, FdtError> {
    if s.len() < 40 {
        Err(eod())
    } else {
        Ok(
            FdtHeader {
                magic: header_field(s, 0),
                total_size: header_field(s, 1),
                structs_offset: header_field(s, 2),
                strings_offset: header_field(s, 3),
                memory_reserve_map_offset: header_field(s, 4),
                version: header_field(s, 5),
                last_compatible_version: header_field(s, 6),
                boot_cpuid: header_field(s, 7),
                strings_size: header_field(s, 8),
                structs_size: header_field(s, 9),
            },
        )
    }
}

/// Whether `h` holds the ten header words at the front of `s`, in the order
/// of the devicetree specification, each read big-endian from its four
/// bytes.
pub open spec fn header_fields_at(h: FdtHeader, s: Seq<u8>) -> bool {
    &&& h.magic == be_u32(s.subrange(0, 4))
    &&& h.total_size == be_u32(s.subrange(4, 8))
    &&& h.structs_offset == be_u32(s.subrange(8, 12))
    &&& h.strings_offset == be_u32(s.subrange(12, 16))
    &&& h.memory_reserve_map_offset == be_u32(s.subrange(16, 20))
    &&& h.version == be_u32(s.subrange(20, 24))
    &&& h.last_compatible_version == be_u32(s.subrange(24, 28))
    &&& h.boot_cpuid == be_u32(s.subrange(28, 32))
    &&& h.strings_size == be_u32(s.subrange(32, 36))
    &&& h.structs_size == be_u32(s.subrange(36, 40))
}

/// Reading a header succeeds exactly when forty bytes are there, and then
/// gives the ten header words in the order of the devicetree
/// specification: magic, total size, structure block offset, strings block
/// offset, reservation map offset, version, last compatible version, boot
/// CPU id, strings block size and structure block size.
pub proof fn law_header_layout(s: Seq<u8>)
    ensures
        s.len() < 40 ==> spec_header(s) == Err::<FdtHeader, FdtError>(eod()),
        s.len() >= 40 ==> (spec_header(s) matches Ok(h) && header_fields_at(h, s)),
{
}

/// Skipping the properties at the front of `s`.
pub open spec fn skip_props(s: Seq<u8>) -> (Result<(), FdtError>, Seq<u8>)
    decreases s.len(),
{
    match peek_token(s) {
        Err(e) => (Err(e), s),
        Ok(t) => if t != FDT_PROP {
            (Ok(()), s)
        } else {
            let (r, s2) = step_raw_property(s);
            match r {
                Err(e) => (Err(e), s2),
                Ok(_) => {
                    proof {
                        lemma_step_raw_property_suffix(s);
                    }
                    skip_props(s2)
                },
            }
        },
    }
}

pub proof fn lemma_skip_props_suffix(s: Seq<u8>)
    ensures
        is_suffix(skip_props(s).1, s),
    decreases s.len(),
{
    match peek_token(s) {
        Err(e) => lemma_suffix_refl(s),
        Ok(t) => if t != FDT_PROP {
            lemma_suffix_refl(s);
        } else {
            let (r, s2) = step_raw_property(s);
            lemma_step_raw_property_suffix(s);
            match r {
                Err(e) => {},
                Ok(_) => {
                    lemma_skip_props_suffix(s2);
                    lemma_suffix_trans(skip_props(s2).1, s2, s);
                },
            }
        },
    }
}

/// The name and the properties that open a node (after its `BEGIN_NODE`).
pub open spec fn skip_head(s: Seq<u8>) -> (Result<(), FdtError>, Seq<u8>) {
    let (c, s1) = step_cstr(s);
    match c {
        Err(e) => (Err(e), s1),
        Ok(_) => skip_props(s1),
    }
}

pub proof fn lemma_skip_head_suffix(s: Seq<u8>)
    ensures
        is_suffix(skip_head(s).1, s),
{
    lemma_step_cstr_suffix(s);
    let s1 = step_cstr(s).1;
    lemma_skip_props_suffix(s1);
    lemma_suffix_trans(skip_props(s1).1, s1, s);
}

/// Walks over the nested nodes of a node's body until the `END_NODE` that
/// closes it, `depth` nodes deep; the result is the stream at that token.
pub open spec fn walk_children(s: Seq<u8>, depth: nat) -> Result<Seq<u8>, FdtError>
    decreases s.len(),
{
    match peek_token(s) {
        Err(e) => Err(e),
        Ok(t) => {
            proof {
                lemma_step_token_suffix(s);
            }
            let s1 = step_token(s).1;
            if t == FDT_BEGIN_NODE {
                let (h, s2) = skip_head(s1);
                match h {
                    Err(e) => Err(e),
                    Ok(_) => {
                        proof {
                            lemma_skip_head_suffix(s1);
                        }
                        walk_children(s2, depth + 1)
                    },
                }
            } else if t == FDT_END_NODE {
                if depth == 0 {
                    Ok(s)
                } else {
                    walk_children(s1, (depth - 1) as nat)
                }
            } else {
                Err(FdtError::ParseError(ParseError::InvalidTokenValue))
            }
        },
    }
}

pub proof fn lemma_walk_children_suffix(s: Seq<u8>, depth: nat)
    ensures
        walk_children(s, depth) matches Ok(r) ==> is_suffix(r, s),
    decreases s.len(),
{
    match peek_token(s) {
        Err(e) => {},
        Ok(t) => {
            lemma_step_token_suffix(s);
            let s1 = step_token(s).1;
            if t == FDT_BEGIN_NODE {
                lemma_skip_head_suffix(s1);
                let s2 = skip_head(s1).1;
                lemma_suffix_trans(s2, s1, s);
                lemma_walk_children_suffix(s2, depth + 1);
                if let Ok(r) = walk_children(s2, depth + 1) {
                    lemma_suffix_trans(r, s2, s);
                }
            } else if t == FDT_END_NODE {
                if depth == 0 {
                    lemma_suffix_refl(s);
                } else {
                    lemma_walk_children_suffix(s1, (depth - 1) as nat);
                    if let Ok(r) = walk_children(s1, (depth - 1) as nat) {
                        lemma_suffix_trans(r, s1, s);
                    }
                }
            }
        },
    }
}

/// Parsing one node at the front of `s`: the node's raw body (from after its
/// `BEGIN_NODE` up to its `END_NODE`) and what remains after its `END_NODE`.
#[verifier::opaque]
pub open spec fn spec_parse_node(s: Seq<u8>) -> Result<(Seq<u8>, Seq<u8>), FdtError> {
    let (t, s1) = step_token(s);
    match t {
        Err(e) => Err(e),
        Ok(t) => if t != FDT_BEGIN_NODE {
            Err(FdtError::ParseError(ParseError::UnexpectedToken))
        } else {
            let (h, s2) = skip_head(s1);
            match h {
                Err(e) => Err(e),
                Ok(_) => match walk_children(s2, 0) {
                    Err(e) => Err(e),
                    Ok(s3) => {
                        let (t2, s4) = step_token(s3);
                        match t2 {
                            Err(e) => Err(e),
                            Ok(t2) => if t2 == FDT_END_NODE {
                                Ok((s1.subrange(0, s1.len() - s3.len()), s4))
                            } else {
                                Err(FdtError::ParseError(ParseError::UnexpectedToken))
                            },
                        }
                    },
                },
            }
        },
    }
}

/// Parsing the root node: after its `BEGIN_NODE`, everything up to the final
/// four bytes, which must hold the `END` token.
pub open spec fn spec_parse_root(s: Seq<u8>) -> Result<Seq<u8>, FdtError> {
    let (t, s1) = step_token(s);
    match t {
        Err(e) => Err(e),
        Ok(t) => if t != FDT_BEGIN_NODE {
            Err(FdtError::ParseError(ParseError::UnexpectedToken))
        } else if s1.len() < 4 {
            Err(eod())
        } else if be_u32(s1.subrange(s1.len() - 4, s1.len() as int)) != FDT_END {
            Err(FdtError::ParseError(ParseError::UnexpectedToken))
        } else {
            Ok(s1.subrange(0, s1.len() - 4))
        },
    }
}

/// FDT header.
#[derive(Debug, Clone, Copy)]
pub struct FdtHeader {
    /// FDT header magic
    pub magic: u32,
    /// Total size in bytes of the FDT structure
    pub total_size: u32,
    /// Offset in bytes from the start of the header to the structure block
    pub structs_offset: u32,
    /// Offset in bytes from the start of the header to the strings block
    pub strings_offset: u32,
    /// Offset in bytes from the start of the header to the memory reservation
    /// block
    pub memory_reserve_map_offset: u32,
    /// FDT version
    pub version: u32,
    /// Last compatible FDT version
    pub last_compatible_version: u32,
    /// System boot CPU ID
    pub boot_cpuid: u32,
    /// Length in bytes of the strings block
    pub strings_size: u32,
    /// Length in bytes of the struct block
    pub structs_size: u32,
}

impl FdtHeader {
    /// Whether the magic value is the FDT one, `0xd00dfeed`.
    pub fn valid_magic(&self) -> (r: bool)
        ensures
            r == (self.magic == 0xd00dfeed),
    {
        self.magic == 0xd00dfeed
    }
}

/// The strings block of a devicetree.
#[derive(Debug, Clone, Copy)]
pub struct StringsBlock<'a>(pub &'a [u8]);

/// The NUL-terminated string at `off` in the strings block `strings`.
pub open spec fn spec_offset_at(strings: Seq<u8>, off: int) -> Result<Seq<u8>, FdtError> {
    if off > strings.len() {
        Err(eod())
    } else {
        let t = strings.subrange(off, strings.len() as int);
        if !has_nul(t) {
            Err(FdtError::ParseError(ParseError::InvalidCStrValue))
        } else {
            let c = t.subrange(0, first_nul(t));
            if valid_utf8(c) {
                Ok(c)
            } else {
                Err(FdtError::ParseError(ParseError::InvalidCStrValue))
            }
        }
    }
}

impl<'a> StringsBlock<'a> {
    /// The string that starts at `offset`, up to its NUL.
    pub fn offset_at(self, offset: usize) -> (r: Result<&'a str, FdtError>)
        ensures
            spec_offset_at(self.0@, offset as int) matches Ok(c) ==> r matches Ok(x) && x.spec_bytes() == c,
            spec_offset_at(self.0@, offset as int) matches Err(e) ==> r == Err::<&str, FdtError>(e),
    {
        let len = self.0.len();
        if offset > len {
            return Err(FdtError::ParseError(ParseError::UnexpectedEndOfData));
        }
        let t = &self.0[offset..len];
        match find_nul(t) {
            None => Err(FdtError::ParseError(ParseError::InvalidCStrValue)),
            Some(i) => match str_from_utf8(&t[0..i]) {
                Some(s) => Ok(s),
                None => Err(FdtError::ParseError(ParseError::InvalidCStrValue)),
            },
        }
    }
}

/// The structure block of a devicetree.
#[derive(Debug, Clone, Copy)]
pub struct StructsBlock<'a>(pub &'a [u8]);

/// A parser over a byte stream of the structure block.
#[derive(Clone, Copy)]
pub struct UnalignedParser<'a> {
    stream: &'a [u8],
    strings: StringsBlock<'a>,
    structs: StructsBlock<'a>,
}

impl<'a> View for UnalignedParser<'a> {
    type V = Seq<u8>;

    /// The bytes not yet consumed.
    closed spec fn view(&self) -> Seq<u8> {
        self.stream@
    }
}

impl<'a> UnalignedParser<'a> {
    /// The strings block that property names are looked up in.
    pub closed spec fn strings_view(&self) -> Seq<u8> {
        self.strings.0@
    }

    /// The whole structure block.
    pub closed spec fn structs_view(&self) -> Seq<u8> {
        self.structs.0@
    }

    /// A parser positioned at the start of `data`.
    pub fn new(data: &'a [u8], strings: StringsBlock<'a>, structs: StructsBlock<'a>) -> (r: Self)
        ensures
            r@ == data@,
            r.strings_view() == strings.0@,
            r.structs_view() == structs.0@,
    {
        UnalignedParser { stream: data, strings, structs }
    }

    /// The bytes not yet consumed.
    pub fn data(&self) -> (r: &'a [u8])
        ensures
            r@ == self@,
    {
        self.stream
    }

    /// The bytes not yet consumed.
    pub fn byte_data(&self) -> (r: &'a [u8])
        ensures
            r@ == self@,
    {
        self.stream
    }

    /// The strings block.
    pub fn strings(&self) -> (r: StringsBlock<'a>)
        ensures
            r.0@ == self.strings_view(),
    {
        self.strings
    }

    /// The structure block.
    pub fn structs(&self) -> (r: StructsBlock<'a>)
        ensures
            r.0@ == self.structs_view(),
    {
        self.structs
    }

    /// Drops `n` bytes, or everything when fewer remain.
    pub fn skip_many(&mut self, n: usize)
        ensures
            final(self)@ == skip_or_empty(old(self)@, n as int),
            final(self).strings_view() == old(self).strings_view(),
            final(self).structs_view() == old(self).structs_view(),
    {
        let len = self.stream.len();
        if n <= len {
            self.stream = &self.stream[n..len];
        } else {
            self.stream = &self.stream[len..len];
        }
    }

    /// Reads one big-endian `u32`, giving its host-order value.
    pub fn advance_u32_value(&mut self) -> (r: Result<u32, FdtError>)
        ensures
            r == step_u32(old(self)@).0,
            final(self)@ == step_u32(old(self)@).1,
            final(self).strings_view() == old(self).strings_view(),
            final(self).structs_view() == old(self).structs_view(),
    {
        if self.stream.len() < 4 {
            return Err(FdtError::ParseError(ParseError::UnexpectedEndOfData));
        }
        let v = read_be_u32(self.stream);
        let len = self.stream.len();
        self.stream = &self.stream[4..len];
        Ok(v)
    }

    /// Reads one big-endian `u32`.
    pub fn advance_u32(&mut self) -> (r: Result<BigEndianU32, FdtError>)
        ensures
            step_u32(old(self)@).0 matches Ok(v) ==> r matches Ok(x) && x@ == v,
            step_u32(old(self)@).0 matches Err(e) ==> r == Err::<BigEndianU32, FdtError>(e),
            final(self)@ == step_u32(old(self)@).1,
            final(self).strings_view() == old(self).strings_view(),
            final(self).structs_view() == old(self).structs_view(),
    {
        match self.advance_u32_value() {
            Ok(v) => Ok(BigEndianU32::from_ne(v)),
            Err(e) => Err(e),
        }
    }

    /// The next big-endian `u32`, without consuming it.
    pub fn peek_u32(&self) -> (r: Result<BigEndianU32, FdtError>)
        ensures
            step_u32(self@).0 matches Ok(v) ==> r matches Ok(x) && x@ == v,
            step_u32(self@).0 matches Err(e) ==> r == Err::<BigEndianU32, FdtError>(e),
    {
        let mut p = *self;
        p.advance_u32()
    }

    /// Reads the next token, skipping `NOP`s, giving its host-order value.
    pub fn advance_token_value(&mut self) -> (r: Result<u32, FdtError>)
        ensures
            r == step_token(old(self)@).0,
            final(self)@ == step_token(old(self)@).1,
            final(self).strings_view() == old(self).strings_view(),
            final(self).structs_view() == old(self).structs_view(),
    {
        let ghost s0 = self@;
        loop
            invariant
                step_token(self@) == step_token(s0),
                s0 == old(self)@,
                self.strings_view() == old(self).strings_view(),
                self.structs_view() == old(self).structs_view(),
            decreases self@.len(),
        {
            let len = self.stream.len();
            if len < 4 {
                return Err(FdtError::ParseError(ParseError::UnexpectedEndOfData));
            }
            let v = read_be_u32(self.stream);
            self.stream = &self.stream[4..len];
            if v == FDT_NOP {
                continue;
            } else if v == FDT_BEGIN_NODE || v == FDT_END_NODE || v == FDT_PROP || v == FDT_END {
                return Ok(v);
            } else {
                return Err(FdtError::ParseError(ParseError::InvalidTokenValue));
            }
        }
    }

    /// Reads the next token, skipping `NOP`s.
    pub fn advance_token(&mut self) -> (r: Result<BigEndianToken, FdtError>)
        ensures
            step_token(old(self)@).0 matches Ok(v) ==> r matches Ok(t) && t@ == v,
            step_token(old(self)@).0 matches Err(e) ==> r == Err::<BigEndianToken, FdtError>(e),
            final(self)@ == step_token(old(self)@).1,
            final(self).strings_view() == old(self).strings_view(),
            final(self).structs_view() == old(self).structs_view(),
    {
        match self.advance_token_value() {
            Ok(v) => Ok(BigEndianToken::new(v)),
            Err(e) => Err(e),
        }
    }

    /// The next token's host-order value, without consuming it.
    pub fn peek_token_value(&self) -> (r: Result<u32, FdtError>)
        ensures
            r == peek_token(self@),
    {
        let mut p = *self;
        p.advance_token_value()
    }

    /// The next token, without consuming it.
    pub fn peek_token(&self) -> (r: Result<BigEndianToken, FdtError>)
        ensures
            peek_token(self@) matches Ok(v) ==> r matches Ok(t) && t@ == v,
            peek_token(self@) matches Err(e) ==> r == Err::<BigEndianToken, FdtError>(e),
    {
        let mut p = *self;
        p.advance_token()
    }

    /// Reads a NUL-terminated string, and the padding after it; the result
    /// leaves out the NUL.
    pub fn advance_cstr(&mut self) -> (r: Result<&'a [u8], FdtError>)
        ensures
            step_cstr(old(self)@).0 matches Ok(c) ==> r matches Ok(x) && x@ == c,
            step_cstr(old(self)@).0 matches Err(e) ==> r == Err::<&[u8], FdtError>(e),
            final(self)@ == step_cstr(old(self)@).1,
            final(self).strings_view() == old(self).strings_view(),
            final(self).structs_view() == old(self).structs_view(),
    {
        match find_nul(self.stream) {
            None => Err(FdtError::ParseError(ParseError::InvalidCStrValue)),
            Some(i) => {
                let cstr = &self.stream[0..i];
                let len = self.stream.len();
                let base = i / 4 * 4;
                if len - base >= 4 {
                    self.skip_many(base + 4);
                } else {
                    self.stream = &self.stream[len..len];
                }
                Ok(cstr)
            },
        }
    }

    /// Skips `n` bytes of data and the padding up to a multiple of four.
    pub fn advance_aligned(&mut self, n: usize)
        ensures
            final(self)@ == step_aligned(old(self)@, n as int),
            final(self).strings_view() == old(self).strings_view(),
            final(self).structs_view() == old(self).structs_view(),
    {
        let len = self.stream.len();
        let base = n / 4 * 4;
        if base == n {
            self.skip_many(n);
        } else if base <= len && len - base >= 4 {
            self.skip_many(base + 4);
        } else {
            self.stream = &self.stream[len..len];
        }
    }

    /// Reads the ten fields of an FDT header.
    pub fn parse_header(&mut self) -> (r: Result<FdtHeader, FdtError>)
        ensures
            r == spec_header(old(self)@),
            r is Ok ==> final(self)@ == old(self)@.subrange(40, old(self)@.len() as int),
    {
        let ghost s0 = self@;
        let magic = match self.advance_u32_value() { Ok(v) => v, Err(e) => return Err(e) };
        let total_size = match self.advance_u32_value() { Ok(v) => v, Err(e) => return Err(e) };
        let structs_offset = match self.advance_u32_value() { Ok(v) => v, Err(e) => return Err(e) };
        let strings_offset = match self.advance_u32_value() { Ok(v) => v, Err(e) => return Err(e) };
        let memory_reserve_map_offset = match self.advance_u32_value() { Ok(v) => v, Err(e) => return Err(e) };
        let version = match self.advance_u32_value() { Ok(v) => v, Err(e) => return Err(e) };
        let last_compatible_version = match self.advance_u32_value() { Ok(v) => v, Err(e) => return Err(e) };
        let boot_cpuid = match self.advance_u32_value() { Ok(v) => v, Err(e) => return Err(e) };
        let strings_size = match self.advance_u32_value() { Ok(v) => v, Err(e) => return Err(e) };
        let structs_size = match self.advance_u32_value() { Ok(v) => v, Err(e) => return Err(e) };
        proof {
            assert(s0.subrange(0, 4) =~= s0.subrange(0, 4));
            assert(self@ =~= s0.subrange(40, s0.len() as int));
        }
        Ok(FdtHeader {
            magic,
            total_size,
            structs_offset,
            strings_offset,
            memory_reserve_map_offset,
            version,
            last_compatible_version,
            boot_cpuid,
            strings_size,
            structs_size,
        })
    }

    /// Reads one property, giving the offset of its name in the strings
    /// block and its value.
    pub fn parse_raw_property(&mut self) -> (r: Result<(usize, &'a [u8]), FdtError>)
        ensures
            step_raw_property(old(self)@).0 matches Ok(p) ==> r matches Ok(x) && x.0 == p.0 && x.1@ == p.1,
            step_raw_property(old(self)@).0 matches Err(e) ==> r == Err::<(usize, &[u8]), FdtError>(e),
            final(self)@ == step_raw_property(old(self)@).1,
            final(self).strings_view() == old(self).strings_view(),
            final(self).structs_view() == old(self).structs_view(),
    {
        match self.advance_token_value() {
            Err(e) => return Err(e),
            Ok(t) => if t != FDT_PROP {
                return Err(FdtError::ParseError(ParseError::UnexpectedToken));
            },
        }
        let len = match self.advance_u32_value() { Ok(v) => v as usize, Err(e) => return Err(e) };
        let name_offset = match self.advance_u32_value() { Ok(v) => v as usize, Err(e) => return Err(e) };
        if len > self.stream.len() {
            return Err(FdtError::ParseError(ParseError::UnexpectedEndOfData));
        }
        let data = &self.stream[0..len];
        self.advance_aligned(len);
        Ok((name_offset, data))
    }
}

} // verus!

verus! {

impl<'a> UnalignedParser<'a> {
    /// Skips the properties at the front of the stream.
    pub fn skip_props(&mut self) -> (r: Result<(), FdtError>)
        ensures
            r == skip_props(old(self)@).0,
            final(self)@ == skip_props(old(self)@).1,
            final(self).strings_view() == old(self).strings_view(),
            final(self).structs_view() == old(self).structs_view(),
    {
        let ghost s0 = self@;
        loop
            invariant
                skip_props(self@) == skip_props(s0),
                s0 == old(self)@,
                self.strings_view() == old(self).strings_view(),
                self.structs_view() == old(self).structs_view(),
            decreases self@.len(),
        {
            let ghost before = self@;
            match self.peek_token_value() {
                Err(e) => return Err(e),
                Ok(t) => if t != FDT_PROP {
                    return Ok(());
                },
            }
            match self.parse_raw_property() {
                Err(e) => return Err(e),
                Ok(_) => {},
            }
            proof {
                lemma_step_raw_property_suffix(before);
            }
        }
    }

    /// Skips a node's name and properties.
    pub fn skip_head(&mut self) -> (r: Result<(), FdtError>)
        ensures
            r == skip_head(old(self)@).0,
            final(self)@ == skip_head(old(self)@).1,
            final(self).strings_view() == old(self).strings_view(),
            final(self).structs_view() == old(self).structs_view(),
    {
        match self.advance_cstr() {
            Err(e) => return Err(e),
            Ok(_) => {},
        }
        self.skip_props()
    }

    /// Parses the node at the front of the stream, giving its raw body.
    pub fn parse_node_raw(&mut self) -> (r: Result<&'a [u8], FdtError>)
        ensures
            spec_parse_node(old(self)@) matches Ok(p) ==> r matches Ok(x) && x@ == p.0 && final(self)@ == p.1,
            spec_parse_node(old(self)@) matches Err(e) ==> r == Err::<&[u8], FdtError>(e),
            final(self).strings_view() == old(self).strings_view(),
            final(self).structs_view() == old(self).structs_view(),
    {
        let ghost s0 = self@;
        proof {
            reveal(spec_parse_node);
        }
        match self.advance_token_value() {
            Err(e) => return Err(e),
            Ok(t) => if t != FDT_BEGIN_NODE {
                return Err(FdtError::ParseError(ParseError::UnexpectedToken));
            },
        }
        let starting_data = self.stream;
        let starting_len = starting_data.len();
        match self.skip_head() {
            Err(e) => return Err(e),
            Ok(_) => {},
        }
        let ghost s2 = self@;
        proof {
            lemma_skip_head_suffix(starting_data@);
        }
        let mut depth: usize = 0;
        loop
            invariant
                walk_children(self@, depth as nat) == walk_children(s2, 0),
                s0 == old(self)@,
                is_suffix(self@, starting_data@),
                depth + self@.len() <= starting_len,
                starting_len == starting_data@.len(),
                spec_parse_node(s0) == (match walk_children(s2, 0) {
                    Err(e) => Err(e),
                    Ok(s3) => {
                        let (t2, s4) = step_token(s3);
                        match t2 {
                            Err(e) => Err(e),
                            Ok(t2) => if t2 == FDT_END_NODE {
                                Ok((starting_data@.subrange(0, starting_data@.len() - s3.len()), s4))
                            } else {
                                Err(FdtError::ParseError(ParseError::UnexpectedToken))
                            },
                        }
                    },
                }),
                self.strings_view() == old(self).strings_view(),
                self.structs_view() == old(self).structs_view(),
            decreases self@.len(),
        {
            let ghost before = self@;
            proof {
                lemma_step_token_suffix(before);
            }
            let t = match self.peek_token_value() {
                Err(e) => return Err(e),
                Ok(t) => t,
            };
            if t == FDT_BEGIN_NODE {
                let _ = self.advance_token_value();
                let ghost s1 = self@;
                match self.skip_head() {
                    Err(e) => return Err(e),
                    Ok(_) => {},
                }
                proof {
                    lemma_skip_head_suffix(s1);
                    lemma_suffix_trans(self@, s1, before);
                    lemma_suffix_trans(self@, before, starting_data@);
                }
                depth = depth + 1;
            } else if t == FDT_END_NODE {
                if depth == 0 {
                    let ending_len = self.stream.len();
                    match self.advance_token_value() {
                        Err(e) => return Err(e),
                        Ok(t2) => {
                            if t2 == FDT_END_NODE {
                                return Ok(&starting_data[0..starting_len - ending_len]);
                            } else {
                                return Err(FdtError::ParseError(ParseError::UnexpectedToken));
                            }
                        },
                    }
                } else {
                    let _ = self.advance_token_value();
                    proof {
                        lemma_suffix_trans(self@, before, starting_data@);
                    }
                    depth = depth - 1;
                }
            } else {
                return Err(FdtError::ParseError(ParseError::InvalidTokenValue));
            }
        }
    }

    /// Parses the root node at the front of the stream, giving its raw body.
    pub fn parse_root_raw(&mut self) -> (r: Result<&'a [u8], FdtError>)
        ensures
            spec_parse_root(old(self)@) matches Ok(b) ==> r matches Ok(x) && x@ == b,
            spec_parse_root(old(self)@) matches Err(e) ==> r == Err::<&[u8], FdtError>(e),
    {
        match self.advance_token_value() {
            Err(e) => return Err(e),
            Ok(t) => if t != FDT_BEGIN_NODE {
                return Err(FdtError::ParseError(ParseError::UnexpectedToken));
            },
        }
        let data = self.stream;
        let len = data.len();
        if len < 4 {
            return Err(FdtError::ParseError(ParseError::UnexpectedEndOfData));
        }
        let last = &data[len - 4..len];
        if read_be_u32(last) != FDT_END {
            return Err(FdtError::ParseError(ParseError::UnexpectedToken));
        }
        Ok(&data[0..len - 4])
    }
}

pub proof fn lemma_parse_node_suffix(s: Seq<u8>)
    ensures
        spec_parse_node(s) matches Ok(p) ==> is_suffix(p.1, s) && p.1.len() < s.len(),
{
    reveal(spec_parse_node);
    let (t, s1) = step_token(s);
    lemma_step_token_suffix(s);
    if let Ok(t) = t {
        lemma_skip_head_suffix(s1);
        let s2 = skip_head(s1).1;
        lemma_walk_children_suffix(s2, 0);
        if let Ok(s3) = walk_children(s2, 0) {
            lemma_step_token_suffix(s3);
            lemma_suffix_trans(s3, s2, s1);
            lemma_suffix_trans(s3, s1, s);
            lemma_suffix_trans(step_token(s3).1, s3, s);
        }
    }
}

/// Converting a value to big-endian order and back gives the value again.
pub proof fn law_be_round_trip(x: u32)
    ensures
        host_to_from_be(host_to_from_be(x)) == x,
{
    lemma_swap_bytes32_involution(x);
}

} // verus!
