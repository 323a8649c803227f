use vstd::prelude::*;
use vstd::string::*;
use vstd::utf8::*;

use crate::parsing::BigEndianU32;
use crate::util::{
    be_u32, be_u64, contains_byte, find_byte, first_index, lemma_utf8_ascii_boundary,
    lemma_utf8_ascii_head, read_be_u32, read_be_u64, str_from_utf8,
};
use crate::FdtError;

verus! {

broadcast use vstd::seq::group_seq_axioms;

/// The value of a property did not have the form that was asked for.
#[derive(Debug, Clone, Copy)]
pub struct InvalidPropertyValue;

impl From<InvalidPropertyValue> for FdtError {
    fn from(_v: InvalidPropertyValue) -> (r: Self)
        ensures
            r == FdtError::InvalidPropertyValue,
    {
        FdtError::InvalidPropertyValue
    }
}

impl vstd::std_specs::convert::FromSpecImpl<InvalidPropertyValue> for FdtError {
    open spec fn obeys_from_spec() -> bool {
        true
    }

    open spec fn from_spec(v: InvalidPropertyValue) -> Self {
        FdtError::InvalidPropertyValue
    }
}

/// `v` without the NUL bytes at its end.
pub open spec fn trim_nuls(v: Seq<u8>) -> Seq<u8>
    decreases v.len(),
{
    if v.len() > 0 && v.last() == 0 {
        trim_nuls(v.drop_last())
    } else {
        v
    }
}

/// `trim_nuls(v)` is `v` up to some index, and what follows is all NULs.
pub proof fn lemma_trim_nuls_prefix(v: Seq<u8>)
    ensures
        trim_nuls(v).len() <= v.len(),
        trim_nuls(v) == v.subrange(0, trim_nuls(v).len() as int),
        forall|i: int| trim_nuls(v).len() <= i < v.len() ==> v[i] == 0,
        trim_nuls(v).len() > 0 ==> trim_nuls(v).last() != 0,
    decreases v.len(),
{
    if v.len() > 0 && v.last() == 0 {
        lemma_trim_nuls_prefix(v.drop_last());
        assert(trim_nuls(v) =~= v.subrange(0, trim_nuls(v).len() as int));
        assert forall|i: int| trim_nuls(v).len() <= i < v.len() implies v[i] == 0 by {
            if i < v.len() - 1 {
                assert(v.drop_last()[i] == v[i]);
            }
        }
    } else {
        assert(v =~= v.subrange(0, v.len() as int));
    }
}

/// A property value read as a string: well-formed UTF-8, with its trailing
/// NULs taken off.
pub open spec fn str_value(v: Seq<u8>) -> Option<Seq<u8>> {
    if valid_utf8(v) {
        Some(trim_nuls(v))
    } else {
        None
    }
}

/// Reads a property value as a string: the whole value must be UTF-8, and the
/// NULs at its end are left out.
pub fn value_as_str<'a>(value: &'a [u8]) -> (r: Result<&'a str, InvalidPropertyValue>)
    ensures
        r is Ok <==> str_value(value@) is Some,
        r matches Ok(s) ==> s.spec_bytes() == trim_nuls(value@),
{
    if str_from_utf8(value).is_none() {
        return Err(InvalidPropertyValue);
    }
    let mut end = value.len();
    assert(value@.subrange(0, end as int) =~= value@);
    while end > 0 && value[end - 1] == 0
        invariant
            end <= value@.len(),
            trim_nuls(value@.subrange(0, end as int)) == trim_nuls(value@),
            forall|i: int| end <= i < value@.len() ==> value@[i] == 0,
        decreases end,
    {
        assert(value@.subrange(0, end as int).drop_last() =~= value@.subrange(0, end - 1));
        end = end - 1;
    }
    let trimmed = &value[0..end];
    proof {
        assert(value@ =~= value@.subrange(0, end as int) + value@.subrange(end as int, value@.len() as int));
        lemma_utf8_ascii_boundary(value@.subrange(0, end as int), value@.subrange(end as int, value@.len() as int));
        assert(trim_nuls(value@.subrange(0, end as int)) == value@.subrange(0, end as int));
    }
    match str_from_utf8(trimmed) {
        Some(s) => Ok(s),
        None => Err(InvalidPropertyValue),
    }
}

/// A property value read as a `u32`: exactly four big-endian bytes.
pub open spec fn u32_value(v: Seq<u8>) -> Option<u32> {
    if v.len() == 4 {
        Some(be_u32(v))
    } else {
        None
    }
}

/// A `u32` property value is four bytes, read most significant first.
pub proof fn law_u32_value_bytes(v: Seq<u8>)
    ensures
        u32_value(v) is Some <==> v.len() == 4,
        u32_value(v) matches Some(x) ==> x as int == v[0] as int * 0x100_0000 + v[1] as int * 0x1_0000 + v[2] as int
            * 0x100 + v[3] as int,
{
    if v.len() == 4 {
        crate::util::lemma_be_u32_bytes(v);
    }
}

/// Reads a property value as a `u32`.
pub fn value_as_u32(value: &[u8]) -> (r: Result<u32, InvalidPropertyValue>)
    ensures
        u32_value(value@) matches Some(x) ==> r == Ok::<u32, InvalidPropertyValue>(x),
        u32_value(value@) is None ==> r is Err,
{
    if value.len() == 4 {
        Ok(read_be_u32(value))
    } else {
        Err(InvalidPropertyValue)
    }
}

/// A property value read as a `u64`: four or eight big-endian bytes.
pub open spec fn u64_value(v: Seq<u8>) -> Option<u64> {
    if v.len() == 4 {
        Some(be_u32(v) as u64)
    } else if v.len() == 8 {
        Some(be_u64(v))
    } else {
        None
    }
}

/// A `u64` property value is four or eight bytes, read most significant
/// first.
pub proof fn law_u64_value_bytes(v: Seq<u8>)
    ensures
        u64_value(v) is Some <==> (v.len() == 4 || v.len() == 8),
        v.len() == 4 ==> (u64_value(v) matches Some(x) && x as int == v[0] as int * 0x100_0000 + v[1] as int * 0x1_0000
            + v[2] as int * 0x100 + v[3] as int),
        v.len() == 8 ==> (u64_value(v) matches Some(x) && x as int == v[0] as int * 0x100_0000_0000_0000 + v[1] as int
            * 0x1_0000_0000_0000 + v[2] as int * 0x100_0000_0000 + v[3] as int * 0x1_0000_0000 + v[4] as int
            * 0x100_0000 + v[5] as int * 0x1_0000 + v[6] as int * 0x100 + v[7] as int),
{
    if v.len() == 4 {
        crate::util::lemma_be_u32_bytes(v);
    }
    if v.len() == 8 {
        crate::util::lemma_be_u64_bytes(v);
    }
}

/// Reads a property value as a `u64`.
pub fn value_as_u64(value: &[u8]) -> (r: Result<u64, InvalidPropertyValue>)
    ensures
        u64_value(value@) matches Some(x) ==> r == Ok::<u64, InvalidPropertyValue>(x),
        u64_value(value@) is None ==> r is Err,
{
    if value.len() == 4 {
        Ok(read_be_u32(value) as u64)
    } else if value.len() == 8 {
        Ok(read_be_u64(value))
    } else {
        Err(InvalidPropertyValue)
    }
}

/// A property value read as a `usize`: four big-endian bytes, or eight where
/// `usize` has 64 bits.
pub open spec fn usize_value(v: Seq<u8>) -> Option<usize> {
    if v.len() == 4 {
        Some(be_u32(v) as usize)
    } else if v.len() == 8 && usize::BITS == 64 {
        Some(be_u64(v) as usize)
    } else {
        None
    }
}

/// Reads a property value as a `usize`.
pub fn value_as_usize(value: &[u8]) -> (r: Result<usize, InvalidPropertyValue>)
    ensures
        usize_value(value@) matches Some(x) ==> r == Ok::<usize, InvalidPropertyValue>(x),
        usize_value(value@) is None ==> r is Err,
{
    if value.len() == 4 {
        Ok(read_be_u32(value) as usize)
    } else if value.len() == 8 && usize::BITS == 64 {
        let v = read_be_u64(value);
        assert(usize::MAX == u64::MAX);
        Ok(v as usize)
    } else {
        Err(InvalidPropertyValue)
    }
}

/// A type that a raw property value can be read as.
pub trait PropertyValue<'a>: Sized {
    /// What `parse` gives for the bytes `value`.
    spec fn value_ensures(value: Seq<u8>, r: Result<Self, InvalidPropertyValue>) -> bool;

    /// Reads `value` as `Self`.
    fn parse(value: &'a [u8]) -> (r: Result<Self, InvalidPropertyValue>)
        ensures
            Self::value_ensures(value@, r),
    ;
}

impl<'a> PropertyValue<'a> for u32 {
    open spec fn value_ensures(value: Seq<u8>, r: Result<Self, InvalidPropertyValue>) -> bool {
        match u32_value(value) {
            Some(x) => r == Ok::<u32, InvalidPropertyValue>(x),
            None => r is Err,
        }
    }

    fn parse(value: &'a [u8]) -> (r: Result<Self, InvalidPropertyValue>) {
        value_as_u32(value)
    }
}

impl<'a> PropertyValue<'a> for u64 {
    open spec fn value_ensures(value: Seq<u8>, r: Result<Self, InvalidPropertyValue>) -> bool {
        match u64_value(value) {
            Some(x) => r == Ok::<u64, InvalidPropertyValue>(x),
            None => r is Err,
        }
    }

    fn parse(value: &'a [u8]) -> (r: Result<Self, InvalidPropertyValue>) {
        value_as_u64(value)
    }
}

impl<'a> PropertyValue<'a> for usize {
    open spec fn value_ensures(value: Seq<u8>, r: Result<Self, InvalidPropertyValue>) -> bool {
        match usize_value(value) {
            Some(x) => r == Ok::<usize, InvalidPropertyValue>(x),
            None => r is Err,
        }
    }

    fn parse(value: &'a [u8]) -> (r: Result<Self, InvalidPropertyValue>) {
        value_as_usize(value)
    }
}

impl<'a> PropertyValue<'a> for BigEndianU32 {
    open spec fn value_ensures(value: Seq<u8>, r: Result<Self, InvalidPropertyValue>) -> bool {
        match u32_value(value) {
            Some(x) => r matches Ok(b) && b@ == x,
            None => r is Err,
        }
    }

    fn parse(value: &'a [u8]) -> (r: Result<Self, InvalidPropertyValue>) {
        match value_as_u32(value) {
            Ok(v) => Ok(BigEndianU32::from_ne(v)),
            Err(e) => Err(e),
        }
    }
}

impl<'a> PropertyValue<'a> for &'a str {
    open spec fn value_ensures(value: Seq<u8>, r: Result<Self, InvalidPropertyValue>) -> bool {
        match str_value(value) {
            Some(b) => r matches Ok(s) && s.spec_bytes() == b,
            None => r is Err,
        }
    }

    fn parse(value: &'a [u8]) -> (r: Result<Self, InvalidPropertyValue>) {
        value_as_str(value)
    }
}

/// A property value made of big-endian `u32`s.
#[derive(Debug, Clone, Copy)]
pub struct U32List<'a>(&'a [u8]);

impl<'a> View for U32List<'a> {
    type V = Seq<u8>;

    closed spec fn view(&self) -> Seq<u8> {
        self.0@
    }
}

impl<'a> U32List<'a> {
    /// An iterator over the `u32`s.
    pub fn iter(self) -> (r: U32ListIter<'a>)
        ensures
            r@ == self@,
    {
        U32ListIter(self.0)
    }
}

impl<'a> PropertyValue<'a> for U32List<'a> {
    open spec fn value_ensures(value: Seq<u8>, r: Result<Self, InvalidPropertyValue>) -> bool {
        if value.len() % 4 == 0 {
            r matches Ok(l) && l@ == value
        } else {
            r is Err
        }
    }

    fn parse(value: &'a [u8]) -> (r: Result<Self, InvalidPropertyValue>) {
        if value.len() % 4 != 0 {
            return Err(InvalidPropertyValue);
        }
        Ok(U32List(value))
    }
}

/// Iterator over the `u32`s of a [`U32List`].
pub struct U32ListIter<'a>(&'a [u8]);

impl<'a> View for U32ListIter<'a> {
    type V = Seq<u8>;

    /// The bytes not yet read.
    closed spec fn view(&self) -> Seq<u8> {
        self.0@
    }
}

impl<'a> U32ListIter<'a> {
    /// The next `u32`, read from the next four bytes.
    pub fn next(&mut self) -> (r: Option<u32>)
        ensures
            old(self)@.len() >= 4 ==> r == Some(be_u32(old(self)@)) && final(self)@ == old(self)@.subrange(4, old(self)@.len() as int),
            old(self)@.len() < 4 ==> r is None && final(self)@ == old(self)@,
    {
        let len = self.0.len();
        if len < 4 {
            return None;
        }
        let val = read_be_u32(self.0);
        self.0 = &self.0[4..len];
        Some(val)
    }
}

/// The first piece of `s` before the byte `c`, and what follows that byte
/// when `s` holds one.
pub open spec fn split_step(s: Seq<u8>, c: u8) -> (Seq<u8>, Option<Seq<u8>>) {
    if contains_byte(s, c) {
        (s.subrange(0, first_index(s, c)), Some(s.subrange(first_index(s, c) + 1, s.len() as int)))
    } else {
        (s, None)
    }
}

/// The pieces of `s` between occurrences of the byte `c`.
pub open spec fn split_pieces(s: Seq<u8>, c: u8) -> Seq<Seq<u8>>
    decreases s.len(),
{
    if contains_byte(s, c) {
        proof {
            crate::util::lemma_first_index(s, c);
        }
        seq![s.subrange(0, first_index(s, c))] + split_pieces(s.subrange(first_index(s, c) + 1, s.len() as int), c)
    } else {
        seq![s]
    }
}

/// Splits off the first piece of `rest` before the ASCII byte `c`.
pub fn split_off<'a>(rest: &'a [u8], c: u8) -> (r: (&'a str, Option<&'a [u8]>))
    requires
        valid_utf8(rest@),
        c <= 0x7f,
    ensures
        r.0.spec_bytes() == split_step(rest@, c).0,
        r.1 matches Some(t) ==> split_step(rest@, c).1 == Some(t@) && valid_utf8(t@),
        r.1 is None ==> split_step(rest@, c).1 is None,
{
    match find_byte(rest, c) {
        Some(i) => {
            let len = rest.len();
            let head = &rest[0..i];
            let tail = &rest[i..len];
            let after = &rest[i + 1..len];
            proof {
                assert(rest@ =~= head@ + tail@);
                lemma_utf8_ascii_boundary(head@, tail@);
                lemma_utf8_ascii_head(tail@);
                assert(tail@.subrange(1, tail@.len() as int) =~= after@);
            }
            match str_from_utf8(head) {
                Some(s) => (s, Some(after)),
                None => {
                    proof {
                        assert(false);
                    }
                    (crate::util::empty_str(), None)
                },
            }
        },
        None => {
            match str_from_utf8(rest) {
                Some(s) => (s, None),
                None => {
                    proof {
                        assert(false);
                    }
                    (crate::util::empty_str(), None)
                },
            }
        },
    }
}

/// The strings of a string list property, separated by NULs.
#[derive(Debug, Clone, Copy)]
pub struct StringList<'a> {
    rest: &'a [u8],
    done: bool,
}

impl<'a> View for StringList<'a> {
    type V = Option<Seq<u8>>;

    /// The bytes whose pieces are not handed out yet, or `None` once all are.
    closed spec fn view(&self) -> Option<Seq<u8>> {
        if self.done {
            None
        } else {
            Some(self.rest@)
        }
    }
}

impl<'a> StringList<'a> {
    /// The list is well formed: what remains is UTF-8.
    pub closed spec fn wf(&self) -> bool {
        !self.done ==> valid_utf8(self.rest@)
    }

    /// The list of the NUL-separated pieces of `s`.
    pub fn from_str(s: &'a str) -> (r: Self)
        ensures
            r@ == Some(s.spec_bytes()),
            r.wf(),
    {
        proof {
            vstd::utf8::encode_utf8_valid_utf8(s@);
        }
        StringList { rest: s.as_bytes(), done: false }
    }

    /// The next piece.
    pub fn next(&mut self) -> (r: Option<&'a str>)
        requires
            old(self).wf(),
        ensures
            final(self).wf(),
            old(self)@ is None ==> r is None && final(self)@ is None,
            old(self)@ matches Some(s) ==> r matches Some(p) && p.spec_bytes() == split_step(s, 0).0
                && final(self)@ == split_step(s, 0).1,
    {
        if self.done {
            return None;
        }
        let (piece, after) = split_off(self.rest, 0);
        match after {
            Some(t) => {
                self.rest = t;
            },
            None => {
                self.done = true;
            },
        }
        Some(piece)
    }
}

impl<'a> PropertyValue<'a> for StringList<'a> {
    open spec fn value_ensures(value: Seq<u8>, r: Result<Self, InvalidPropertyValue>) -> bool {
        match str_value(value) {
            Some(b) => r matches Ok(l) && l@ == Some(b) && l.wf(),
            None => r is Err,
        }
    }

    fn parse(value: &'a [u8]) -> (r: Result<Self, InvalidPropertyValue>) {
        match value_as_str(value) {
            Ok(s) => Ok(StringList::from_str(s)),
            Err(e) => Err(e),
        }
    }
}

/// Splits off the first piece of `s` before the byte `c`.
pub fn split_bytes<'a>(s: &'a [u8], c: u8) -> (r: (&'a [u8], Option<&'a [u8]>))
    ensures
        r.0@ == split_step(s@, c).0,
        r.1 matches Some(t) ==> split_step(s@, c).1 == Some(t@),
        r.1 is None ==> split_step(s@, c).1 is None,
{
    match find_byte(s, c) {
        Some(i) => {
            let len = s.len();
            (&s[0..i], Some(&s[i + 1..len]))
        },
        None => (s, None),
    }
}

/// The pieces of a string given its first piece and what follows it.
pub open spec fn pieces_from(first: Seq<u8>, rest: Option<Seq<u8>>, c: u8) -> Seq<Seq<u8>> {
    seq![first] + match rest {
        Some(r) => split_pieces(r, c),
        None => Seq::empty(),
    }
}

/// The pieces of `s` are its first piece and the pieces of what follows.
pub proof fn lemma_split_pieces_step(s: Seq<u8>, c: u8)
    ensures
        split_pieces(s, c) == pieces_from(split_step(s, c).0, split_step(s, c).1, c),
{
    if contains_byte(s, c) {
        assert(split_pieces(s, c) =~= pieces_from(split_step(s, c).0, split_step(s, c).1, c));
    } else {
        assert(split_pieces(s, c) =~= pieces_from(split_step(s, c).0, split_step(s, c).1, c));
    }
}

/// The pieces `ps` joined with the byte `c` between each two of them.
pub open spec fn join_pieces(ps: Seq<Seq<u8>>, c: u8) -> Seq<u8>
    decreases ps.len(),
{
    if ps.len() == 0 {
        Seq::empty()
    } else if ps.len() == 1 {
        ps[0]
    } else {
        ps[0] + seq![c] + join_pieces(ps.drop_first(), c)
    }
}

/// Splitting at the first `c` loses nothing: the piece, `c` and what follows
/// give back `s`, and the piece holds no `c`.
pub proof fn law_split_step_rejoin(s: Seq<u8>, c: u8)
    ensures
        !contains_byte(split_step(s, c).0, c),
        split_step(s, c).1 matches Some(rest) ==> split_step(s, c).0 + seq![c] + rest == s,
        split_step(s, c).1 is None ==> split_step(s, c).0 == s,
{
    if contains_byte(s, c) {
        crate::util::lemma_first_index(s, c);
        let i = first_index(s, c);
        assert(s.subrange(0, i) + seq![c] + s.subrange(i + 1, s.len() as int) =~= s);
        if contains_byte(s.subrange(0, i), c) {
            let j = choose|j: int| 0 <= j < s.subrange(0, i).len() && s.subrange(0, i)[j] == c;
            assert(s[j] == c);
        }
    }
}

/// Splitting at every `c` loses nothing: joining the pieces with `c` gives
/// `s` back, and no piece holds `c`.
pub proof fn law_split_pieces_join(s: Seq<u8>, c: u8)
    ensures
        split_pieces(s, c).len() >= 1,
        join_pieces(split_pieces(s, c), c) == s,
        forall|i: int| 0 <= i < split_pieces(s, c).len() ==> !contains_byte(#[trigger] split_pieces(s, c)[i], c),
    decreases s.len(),
{
    law_split_step_rejoin(s, c);
    if contains_byte(s, c) {
        crate::util::lemma_first_index(s, c);
        let i = first_index(s, c);
        let rest = s.subrange(i + 1, s.len() as int);
        law_split_pieces_join(rest, c);
        let ps = split_pieces(s, c);
        assert(ps.drop_first() =~= split_pieces(rest, c));
        assert(ps.len() >= 2);
        assert(join_pieces(ps, c) == ps[0] + seq![c] + join_pieces(ps.drop_first(), c));
        assert forall|k: int| 0 <= k < ps.len() implies !contains_byte(#[trigger] ps[k], c) by {
            if k > 0 {
                assert(ps[k] == split_pieces(rest, c)[k - 1]);
            }
        }
    } else {
        assert(split_pieces(s, c) =~= seq![s]);
    }
}

} // verus!
