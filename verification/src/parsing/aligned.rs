use vstd::prelude::*;

use crate::parsing::{
    host_to_from_be, spec_header, step_cstr, step_token, step_u32, BigEndianToken, BigEndianU32, FdtHeader,
    ParseError, StringsBlock, StructsBlock, FDT_BEGIN_NODE, FDT_END, FDT_END_NODE, FDT_NOP, FDT_PROP,
};
use crate::util::{be_u32, first_index, has_nul, round_up4, skip_or_empty};
use crate::{word_bytes, words_to_bytes, FdtError};

verus! {

broadcast use vstd::seq::group_seq_axioms;

/// The byte at `4 * k + t` of the bytes that words occupy is byte `t` of
/// word `k`.
pub proof fn lemma_words_to_bytes_index(ws: Seq<u32>, k: int, t: int)
    requires
        0 <= k < ws.len(),
        0 <= t < 4,
    ensures
        words_to_bytes(ws)[4 * k + t] == word_bytes(ws[k])[t],
{
    assert((4 * k + t) / 4 == k);
    assert((4 * k + t) % 4 == t);
}

/// Dropping the first `k` words drops the first `4 * k` bytes.
pub proof fn lemma_words_to_bytes_skip(ws: Seq<u32>, k: int)
    requires
        0 <= k <= ws.len(),
    ensures
        words_to_bytes(ws.subrange(k, ws.len() as int)) == words_to_bytes(ws).subrange(4 * k, 4 * ws.len() as int),
{
    let a = words_to_bytes(ws.subrange(k, ws.len() as int));
    let b = words_to_bytes(ws).subrange(4 * k, 4 * ws.len() as int);
    assert forall|i: int| 0 <= i < a.len() implies a[i] == b[i] by {
        let j = i / 4;
        let t = i % 4;
        assert(i == 4 * j + t);
        lemma_words_to_bytes_index(ws.subrange(k, ws.len() as int), j, t);
        lemma_words_to_bytes_index(ws, k + j, t);
        assert(4 * k + i == 4 * (k + j) + t);
    }
    assert(a =~= b);
}

/// The first four bytes of a word, read big-endian, give its value in the
/// host's order.
pub proof fn lemma_word_be_u32(w: u32)
    ensures
        be_u32(word_bytes(w)) == host_to_from_be(w),
{
    let v = host_to_from_be(w);
    assert((v / 0x1000000) * 0x1000000 + (v / 0x10000 % 0x100) * 0x10000 + (v / 0x100 % 0x100) * 0x100 + v % 0x100 == v)
        by (bit_vector);
}

/// The first word of the bytes that words occupy, read big-endian, is the
/// first word's value in the host's order.
pub proof fn lemma_words_be_u32(ws: Seq<u32>)
    requires
        ws.len() > 0,
    ensures
        be_u32(words_to_bytes(ws)) == host_to_from_be(ws[0]),
{
    lemma_words_to_bytes_index(ws, 0, 0);
    lemma_words_to_bytes_index(ws, 0, 1);
    lemma_words_to_bytes_index(ws, 0, 2);
    lemma_words_to_bytes_index(ws, 0, 3);
    lemma_word_be_u32(ws[0]);
}

/// The four bytes that the word `w` occupies in memory.
fn word_to_bytes(w: u32) -> (r: (u8, u8, u8, u8))
    ensures
        r.0 == word_bytes(w)[0],
        r.1 == word_bytes(w)[1],
        r.2 == word_bytes(w)[2],
        r.3 == word_bytes(w)[3],
{
    let v = BigEndianU32::from_be(w).to_ne();
    ((v / 0x1000000) as u8, (v / 0x10000 % 0x100) as u8, (v / 0x100 % 0x100) as u8, (v % 0x100) as u8)
}

/// A parser over the structure block held as `u32` words, as they lie in
/// memory; it reads the bytes that the words occupy exactly as
/// [`crate::parsing::UnalignedParser`] reads a byte stream.
#[derive(Clone, Copy)]
pub struct AlignedParser<'a> {
    stream: &'a [u32],
    strings: StringsBlock<'a>,
    structs: StructsBlock<'a>,
}

impl<'a> View for AlignedParser<'a> {
    type V = Seq<u8>;

    /// The bytes of the words not yet consumed.
    closed spec fn view(&self) -> Seq<u8> {
        words_to_bytes(self.stream@)
    }
}

impl<'a> AlignedParser<'a> {
    /// The words not yet consumed.
    pub closed spec fn words_view(&self) -> Seq<u32> {
        self.stream@
    }

    /// The strings block that property names are looked up in.
    pub closed spec fn strings_view(&self) -> Seq<u8> {
        self.strings.0@
    }

    /// The whole structure block.
    pub closed spec fn structs_view(&self) -> Seq<u8> {
        self.structs.0@
    }

    /// The view is the bytes of the words not yet consumed.
    pub proof fn law_view_words(&self)
        ensures
            self@ == words_to_bytes(self.words_view()),
    {
    }

    /// A parser positioned at the start of `data`.
    pub fn new(data: &'a [u32], strings: StringsBlock<'a>, structs: StructsBlock<'a>) -> (r: Self)
        ensures
            r.words_view() == data@,
            r@ == words_to_bytes(data@),
            r.strings_view() == strings.0@,
            r.structs_view() == structs.0@,
    {
        AlignedParser { stream: data, strings, structs }
    }

    /// The words not yet consumed.
    pub fn data(&self) -> (r: &'a [u32])
        ensures
            r@ == self.words_view(),
    {
        self.stream
    }

    /// The bytes of the words not yet consumed, copied out.
    pub fn byte_data(&self) -> (r: Vec<u8>)
        requires
            4 * self.words_view().len() <= usize::MAX,
        ensures
            r@ == self@,
    {
        crate::words_to_byte_vec(self.stream)
    }

    /// The strings block.
    pub fn strings(&self) -> (r: StringsBlock<'a>)
        ensures
            r.0@ == self.strings_view(),
    {
        self.strings
    }

    /// The structure block.
    pub fn structs(&self) -> (r: StructsBlock<'a>)
        ensures
            r.0@ == self.structs_view(),
    {
        self.structs
    }

    /// Drops the first `k` words, or all of them when fewer remain.
    fn skip_words(&mut self, k: usize)
        ensures
            final(self)@ == skip_or_empty(old(self)@, 4 * k),
            final(self).words_view() == skip_or_empty(old(self).words_view(), k as int),
            final(self).strings_view() == old(self).strings_view(),
            final(self).structs_view() == old(self).structs_view(),
    {
        let len = self.stream.len();
        let ghost ws = self.stream@;
        if k <= len {
            self.stream = &self.stream[k..len];
            proof {
                lemma_words_to_bytes_skip(ws, k as int);
            }
        } else {
            self.stream = &self.stream[len..len];
            assert(words_to_bytes(self.stream@) =~= Seq::<u8>::empty());
        }
    }

    /// Reads one big-endian `u32`, giving its host-order value.
    pub fn advance_u32_value(&mut self) -> (r: Result<u32, FdtError>)
        ensures
            r == step_u32(old(self)@).0,
            final(self)@ == step_u32(old(self)@).1,
            final(self).strings_view() == old(self).strings_view(),
            final(self).structs_view() == old(self).structs_view(),
    {
        if self.stream.len() == 0 {
            return Err(FdtError::ParseError(ParseError::UnexpectedEndOfData));
        }
        proof {
            lemma_words_be_u32(self.stream@);
        }
        let v = BigEndianU32::from_be(self.stream[0]).to_ne();
        self.skip_words(1);
        Ok(v)
    }

    /// Reads one big-endian `u32`.
    pub fn advance_u32(&mut self) -> (r: Result<BigEndianU32, FdtError>)
        ensures
            step_u32(old(self)@).0 matches Ok(v) ==> r matches Ok(x) && x@ == v,
            step_u32(old(self)@).0 matches Err(e) ==> r == Err::<BigEndianU32, FdtError>(e),
            final(self)@ == step_u32(old(self)@).1,
            final(self).strings_view() == old(self).strings_view(),
            final(self).structs_view() == old(self).structs_view(),
    {
        match self.advance_u32_value() {
            Ok(v) => Ok(BigEndianU32::from_ne(v)),
            Err(e) => Err(e),
        }
    }

    /// The next big-endian `u32`, without consuming it.
    pub fn peek_u32(&self) -> (r: Result<BigEndianU32, FdtError>)
        ensures
            step_u32(self@).0 matches Ok(v) ==> r matches Ok(x) && x@ == v,
            step_u32(self@).0 matches Err(e) ==> r == Err::<BigEndianU32, FdtError>(e),
    {
        let mut p = *self;
        p.advance_u32()
    }

    /// Reads the next token, skipping `NOP`s, giving its host-order value.
    pub fn advance_token_value(&mut self) -> (r: Result<u32, FdtError>)
        ensures
            r == step_token(old(self)@).0,
            final(self)@ == step_token(old(self)@).1,
            final(self).strings_view() == old(self).strings_view(),
            final(self).structs_view() == old(self).structs_view(),
    {
        let ghost s0 = self@;
        loop
            invariant
                step_token(self@) == step_token(s0),
                s0 == old(self)@,
                self.strings_view() == old(self).strings_view(),
                self.structs_view() == old(self).structs_view(),
            decreases self.stream@.len(),
        {
            if self.stream.len() == 0 {
                return Err(FdtError::ParseError(ParseError::UnexpectedEndOfData));
            }
            proof {
                lemma_words_be_u32(self.stream@);
            }
            let v = BigEndianU32::from_be(self.stream[0]).to_ne();
            self.skip_words(1);
            if v == FDT_NOP {
                continue;
            } else if v == FDT_BEGIN_NODE || v == FDT_END_NODE || v == FDT_PROP || v == FDT_END {
                return Ok(v);
            } else {
                return Err(FdtError::ParseError(ParseError::InvalidTokenValue));
            }
        }
    }

    /// Reads the next token, skipping `NOP`s.
    pub fn advance_token(&mut self) -> (r: Result<BigEndianToken, FdtError>)
        ensures
            step_token(old(self)@).0 matches Ok(v) ==> r matches Ok(t) && t@ == v,
            step_token(old(self)@).0 matches Err(e) ==> r == Err::<BigEndianToken, FdtError>(e),
            final(self)@ == step_token(old(self)@).1,
            final(self).strings_view() == old(self).strings_view(),
            final(self).structs_view() == old(self).structs_view(),
    {
        match self.advance_token_value() {
            Ok(v) => Ok(BigEndianToken::new(v)),
            Err(e) => Err(e),
        }
    }

    /// The next token, without consuming it.
    pub fn peek_token(&self) -> (r: Result<BigEndianToken, FdtError>)
        ensures
            step_token(self@).0 matches Ok(v) ==> r matches Ok(t) && t@ == v,
            step_token(self@).0 matches Err(e) ==> r == Err::<BigEndianToken, FdtError>(e),
    {
        let mut p = *self;
        p.advance_token()
    }

    /// Reads a NUL-terminated string, and the padding after it; the result
    /// leaves out the NUL. The string's bytes are copied out, words not being
    /// lent as bytes.
    pub fn advance_cstr(&mut self) -> (r: Result<Vec<u8>, FdtError>)
        ensures
            step_cstr(old(self)@).0 matches Ok(c) ==> r matches Ok(x) && x@ == c,
            step_cstr(old(self)@).0 matches Err(e) ==> r == Err::<Vec<u8>, FdtError>(e),
            final(self)@ == step_cstr(old(self)@).1,
            final(self).strings_view() == old(self).strings_view(),
            final(self).structs_view() == old(self).structs_view(),
    {
        let ghost b0 = self@;
        let len = self.stream.len();
        let mut out: Vec<u8> = Vec::new();
        let mut k: usize = 0;
        while k < len
            invariant
                k <= len,
                len == self.stream@.len(),
                b0 == old(self)@,
                *self == *old(self),
                b0 == words_to_bytes(self.stream@),
                b0.len() == 4 * len,
                out@ == b0.subrange(0, 4 * k),
                forall|j: int| 0 <= j < 4 * k ==> b0[j] != 0,
            decreases len - k,
        {
            let (x0, x1, x2, x3) = word_to_bytes(self.stream[k]);
            proof {
                lemma_words_to_bytes_index(self.stream@, k as int, 0);
                lemma_words_to_bytes_index(self.stream@, k as int, 1);
                lemma_words_to_bytes_index(self.stream@, k as int, 2);
                lemma_words_to_bytes_index(self.stream@, k as int, 3);
            }
            let bs: [u8; 4] = [x0, x1, x2, x3];
            let mut t: usize = 0;
            while t < 4
                invariant
                    t <= 4,
                    k < len,
                    len == self.stream@.len(),
                    b0 == old(self)@,
                    *self == *old(self),
                    b0 == words_to_bytes(self.stream@),
                    b0.len() == 4 * len,
                    forall|u: int| 0 <= u < 4 ==> bs@[u] == b0[4 * k + u],
                    out@ == b0.subrange(0, 4 * k + t),
                    forall|j: int| 0 <= j < 4 * k + t ==> b0[j] != 0,
                decreases 4 - t,
            {
                if bs[t] == 0 {
                    let ghost i = 4 * k + t;
                    proof {
                        assert(b0[i] == 0);
                        crate::util::lemma_first_index(b0, 0);
                        let f = first_index(b0, 0);
                        assert(f == i) by {
                            if f < i {
                                assert(b0[f] != 0);
                            } else if f > i {
                                assert(b0[i] != 0);
                            }
                        }
                        assert(round_up4(i + 1) == 4 * (k + 1));
                    }
                    self.skip_words(k + 1);
                    return Ok(out);
                }
                out.push(bs[t]);
                t = t + 1;
            }
            k = k + 1;
        }
        proof {
            assert(!has_nul(b0));
        }
        Err(FdtError::ParseError(ParseError::InvalidCStrValue))
    }

    /// The first `n` bytes of the words not yet consumed, copied out.
    fn copy_bytes(&self, n: usize) -> (r: Vec<u8>)
        requires
            n <= self@.len(),
        ensures
            r@ == self@.subrange(0, n as int),
    {
        let mut out: Vec<u8> = Vec::new();
        let mut i: usize = 0;
        while i < n
            invariant
                i <= n,
                n <= self@.len(),
                self@.len() == 4 * self.stream@.len(),
                out@ == self@.subrange(0, i as int),
            decreases n - i,
        {
            let k = i / 4;
            let (x0, x1, x2, x3) = word_to_bytes(self.stream[k]);
            let t = i % 4;
            proof {
                lemma_words_to_bytes_index(self.stream@, k as int, t as int);
            }
            let b = if t == 0 {
                x0
            } else if t == 1 {
                x1
            } else if t == 2 {
                x2
            } else {
                x3
            };
            out.push(b);
            i = i + 1;
        }
        out
    }

    /// Reads one property, giving the offset of its name in the strings
    /// block and a copy of its value.
    pub fn parse_raw_property(&mut self) -> (r: Result<(usize, Vec<u8>), FdtError>)
        ensures
            crate::parsing::step_raw_property(old(self)@).0 matches Ok(p) ==> r matches Ok(x) && x.0 == p.0 && x.1@ == p.1,
            crate::parsing::step_raw_property(old(self)@).0 matches Err(e) ==> r == Err::<(usize, Vec<u8>), FdtError>(e),
            final(self)@ == crate::parsing::step_raw_property(old(self)@).1,
            final(self).strings_view() == old(self).strings_view(),
            final(self).structs_view() == old(self).structs_view(),
    {
        match self.advance_token_value() {
            Err(e) => return Err(e),
            Ok(t) => if t != FDT_PROP {
                return Err(FdtError::ParseError(ParseError::UnexpectedToken));
            },
        }
        let len = match self.advance_u32_value() { Ok(v) => v as usize, Err(e) => return Err(e) };
        let name_offset = match self.advance_u32_value() { Ok(v) => v as usize, Err(e) => return Err(e) };
        let words = self.stream.len();
        if len / 4 > words || (len / 4 == words && len % 4 != 0) {
            return Err(FdtError::ParseError(ParseError::UnexpectedEndOfData));
        }
        let data = self.copy_bytes(len);
        self.advance_aligned(len);
        Ok((name_offset, data))
    }

    /// Skips `n` bytes of data and the padding up to a multiple of four.
    pub fn advance_aligned(&mut self, n: usize)
        ensures
            final(self)@ == crate::parsing::step_aligned(old(self)@, n as int),
            final(self).strings_view() == old(self).strings_view(),
            final(self).structs_view() == old(self).structs_view(),
    {
        let k = n / 4 + if n % 4 == 0 { 0 } else { 1 };
        assert(4 * k == round_up4(n as int));
        self.skip_words(k);
    }

    /// Reads the ten fields of an FDT header.
    pub fn parse_header(&mut self) -> (r: Result<FdtHeader, FdtError>)
        ensures
            r == spec_header(old(self)@),
            r is Ok ==> final(self)@ == old(self)@.subrange(40, old(self)@.len() as int),
    {
        if self.stream.len() < 10 {
            return Err(FdtError::ParseError(ParseError::UnexpectedEndOfData));
        }
        let w = self.stream;
        proof {
            lemma_header_words(w@);
        }
        let h = FdtHeader {
            magic: BigEndianU32::from_be(w[0]).to_ne(),
            total_size: BigEndianU32::from_be(w[1]).to_ne(),
            structs_offset: BigEndianU32::from_be(w[2]).to_ne(),
            strings_offset: BigEndianU32::from_be(w[3]).to_ne(),
            memory_reserve_map_offset: BigEndianU32::from_be(w[4]).to_ne(),
            version: BigEndianU32::from_be(w[5]).to_ne(),
            last_compatible_version: BigEndianU32::from_be(w[6]).to_ne(),
            boot_cpuid: BigEndianU32::from_be(w[7]).to_ne(),
            strings_size: BigEndianU32::from_be(w[8]).to_ne(),
            structs_size: BigEndianU32::from_be(w[9]).to_ne(),
        };
        self.skip_words(10);
        Ok(h)
    }
}

/// Header field `k` of the bytes that words occupy is word `k`, in the
/// host's order.
proof fn lemma_header_word(ws: Seq<u32>, k: int)
    requires
        0 <= k < ws.len(),
    ensures
        crate::parsing::header_field(words_to_bytes(ws), k) == host_to_from_be(ws[k]),
{
    let rest = ws.subrange(k, ws.len() as int);
    lemma_words_to_bytes_skip(ws, k);
    lemma_words_be_u32(rest);
    let b = words_to_bytes(ws);
    let x = b.subrange(4 * k, 4 * k + 4);
    let y = b.subrange(4 * k, 4 * ws.len() as int);
    assert(x[0] == y[0] && x[1] == y[1] && x[2] == y[2] && x[3] == y[3]);
}

/// The ten header fields of the bytes that at least ten words occupy.
proof fn lemma_header_words(ws: Seq<u32>)
    requires
        ws.len() >= 10,
    ensures
        forall|k: int| 0 <= k < 10 ==> #[trigger] crate::parsing::header_field(words_to_bytes(ws), k) == host_to_from_be(ws[k]),
{
    assert forall|k: int| 0 <= k < 10 implies #[trigger] crate::parsing::header_field(words_to_bytes(ws), k)
        == host_to_from_be(ws[k]) by {
        lemma_header_word(ws, k);
    }
}

} // verus!
