use vstd::prelude::*;
use vstd::utf8::*;
use vstd::string::*;

verus! {

broadcast use vstd::seq::group_seq_axioms;

/// The big-endian `u32` held by the first four bytes of `b`.
pub open spec fn be_u32(b: Seq<u8>) -> u32 {
    (b[0] as int * 0x1000000 + b[1] as int * 0x10000 + b[2] as int * 0x100 + b[3] as int) as u32
}

/// The big-endian `u64` held by the first eight bytes of `b`.
pub open spec fn be_u64(b: Seq<u8>) -> u64 {
    (be_u32(b) as int * 0x1_0000_0000 + be_u32(b.subrange(4, 8)) as int) as u64
}

/// The big-endian `u32` of four bytes is the number they spell, most
/// significant byte first.
pub proof fn lemma_be_u32_bytes(b: Seq<u8>)
    requires
        b.len() >= 4,
    ensures
        be_u32(b) as int == b[0] as int * 0x100_0000 + b[1] as int * 0x1_0000 + b[2] as int * 0x100 + b[3] as int,
{
}

/// The big-endian `u64` of eight bytes is the number they spell, most
/// significant byte first.
pub proof fn lemma_be_u64_bytes(b: Seq<u8>)
    requires
        b.len() >= 8,
    ensures
        be_u64(b) as int == b[0] as int * 0x100_0000_0000_0000 + b[1] as int * 0x1_0000_0000_0000 + b[2] as int
            * 0x100_0000_0000 + b[3] as int * 0x1_0000_0000 + b[4] as int * 0x100_0000 + b[5] as int * 0x1_0000
            + b[6] as int * 0x100 + b[7] as int,
{
    lemma_be_u32_bytes(b);
    lemma_be_u32_bytes(b.subrange(4, 8));
}

/// `n` rounded up to the next multiple of four.
pub open spec fn round_up4(n: int) -> int {
    (n + 3) / 4 * 4
}

/// What remains of `s` after dropping `n` elements, or nothing when `s` is shorter.
pub open spec fn skip_or_empty<T>(s: Seq<T>, n: int) -> Seq<T> {
    if 0 <= n <= s.len() {
        s.subrange(n, s.len() as int)
    } else {
        Seq::empty()
    }
}

/// `i` is the index of the first occurrence of `c` in `s`.
pub open spec fn is_first_byte(s: Seq<u8>, c: u8, i: int) -> bool {
    &&& 0 <= i < s.len()
    &&& s[i] == c
    &&& forall|j: int| 0 <= j < i ==> s[j] != c
}

/// `i` is the index of the last occurrence of `c` in `s`.
pub open spec fn is_last_byte(s: Seq<u8>, c: u8, i: int) -> bool {
    &&& 0 <= i < s.len()
    &&& s[i] == c
    &&& forall|j: int| i < j < s.len() ==> s[j] != c
}

/// `s` holds the byte `c`.
pub open spec fn contains_byte(s: Seq<u8>, c: u8) -> bool {
    exists|i: int| 0 <= i < s.len() && s[i] == c
}

/// The index of the first occurrence of `c` in `s` (meaningful when `contains_byte(s, c)`).
pub open spec fn first_index(s: Seq<u8>, c: u8) -> int {
    choose|i: int| is_first_byte(s, c, i)
}

/// The index of the last occurrence of `c` in `s` (meaningful when `contains_byte(s, c)`).
pub open spec fn last_index(s: Seq<u8>, c: u8) -> int {
    choose|i: int| is_last_byte(s, c, i)
}

/// `i` is the index of the first NUL byte of `s`.
pub open spec fn is_first_nul(s: Seq<u8>, i: int) -> bool {
    is_first_byte(s, 0, i)
}

/// `s` holds a NUL byte.
pub open spec fn has_nul(s: Seq<u8>) -> bool {
    contains_byte(s, 0)
}

/// The index of the first NUL byte of `s` (meaningful when `has_nul(s)`).
pub open spec fn first_nul(s: Seq<u8>) -> int {
    first_index(s, 0)
}

proof fn lemma_first_below(s: Seq<u8>, c: u8, w: int)
    requires
        0 <= w < s.len(),
        s[w] == c,
    ensures
        exists|j: int| is_first_byte(s, c, j),
    decreases w,
{
    if exists|j: int| 0 <= j < w && s[j] == c {
        let j = choose|j: int| 0 <= j < w && s[j] == c;
        lemma_first_below(s, c, j);
    } else {
        assert(is_first_byte(s, c, w));
    }
}

proof fn lemma_last_above(s: Seq<u8>, c: u8, w: int)
    requires
        0 <= w < s.len(),
        s[w] == c,
    ensures
        exists|j: int| is_last_byte(s, c, j),
    decreases s.len() - w,
{
    if exists|j: int| w < j < s.len() && s[j] == c {
        let j = choose|j: int| w < j < s.len() && s[j] == c;
        lemma_last_above(s, c, j);
    } else {
        assert(is_last_byte(s, c, w));
    }
}

/// When `s` holds `c`, `first_index(s, c)` is the index of its first occurrence.
pub proof fn lemma_first_index(s: Seq<u8>, c: u8)
    requires
        contains_byte(s, c),
    ensures
        is_first_byte(s, c, first_index(s, c)),
{
    let w = choose|i: int| 0 <= i < s.len() && s[i] == c;
    lemma_first_below(s, c, w);
}

/// When `s` holds `c`, `last_index(s, c)` is the index of its last occurrence.
pub proof fn lemma_last_index(s: Seq<u8>, c: u8)
    requires
        contains_byte(s, c),
    ensures
        is_last_byte(s, c, last_index(s, c)),
{
    let w = choose|i: int| 0 <= i < s.len() && s[i] == c;
    lemma_last_above(s, c, w);
}

/// Only one index is the first occurrence.
pub proof fn lemma_first_nul(s: Seq<u8>)
    requires
        has_nul(s),
    ensures
        is_first_nul(s, first_nul(s)),
{
    lemma_first_index(s, 0);
}

/// Position of the first occurrence of `c` in `b`, if any.
pub fn find_byte(b: &[u8], c: u8) -> (r: Option<usize>)
    ensures
        match r {
            Some(i) => is_first_byte(b@, c, i as int) && contains_byte(b@, c) && first_index(b@, c) == i,
            None => !contains_byte(b@, c),
        },
{
    let mut i: usize = 0;
    while i < b.len()
        invariant
            i <= b@.len(),
            forall|j: int| 0 <= j < i ==> b@[j] != c,
        decreases b@.len() - i,
    {
        if b[i] == c {
            proof {
                lemma_first_index(b@, c);
            }
            return Some(i);
        }
        i = i + 1;
    }
    None
}

/// Position of the last occurrence of `c` in `b`, if any.
pub fn rfind_byte(b: &[u8], c: u8) -> (r: Option<usize>)
    ensures
        match r {
            Some(i) => is_last_byte(b@, c, i as int) && contains_byte(b@, c) && last_index(b@, c) == i,
            None => !contains_byte(b@, c),
        },
{
    let mut i: usize = b.len();
    while i > 0
        invariant
            i <= b@.len(),
            forall|j: int| i <= j < b@.len() ==> b@[j] != c,
        decreases i,
    {
        if b[i - 1] == c {
            proof {
                lemma_last_index(b@, c);
            }
            return Some(i - 1);
        }
        i = i - 1;
    }
    None
}

/// Position of the first NUL byte in `b`, if any.
pub fn find_nul(b: &[u8]) -> (r: Option<usize>)
    ensures
        match r {
            Some(i) => is_first_nul(b@, i as int) && first_nul(b@) == i,
            None => !has_nul(b@),
        },
{
    find_byte(b, 0)
}

/// Whether two byte slices hold the same bytes.
pub fn bytes_eq(a: &[u8], b: &[u8]) -> (r: bool)
    ensures
        r == (a@ == b@),
{
    if a.len() != b.len() {
        return false;
    }
    let mut i: usize = 0;
    while i < a.len()
        invariant
            a@.len() == b@.len(),
            i <= a@.len(),
            forall|j: int| 0 <= j < i ==> a@[j] == b@[j],
        decreases a@.len() - i,
    {
        if a[i] != b[i] {
            return false;
        }
        i = i + 1;
    }
    assert(a@ =~= b@);
    true
}

/// Whether `a` starts with the bytes of `prefix`.
pub fn bytes_starts_with(a: &[u8], prefix: &[u8]) -> (r: bool)
    ensures
        r == (prefix@.len() <= a@.len() && a@.subrange(0, prefix@.len() as int) == prefix@),
{
    if a.len() < prefix.len() {
        return false;
    }
    let head = vstd::slice::slice_subrange(a, 0, prefix.len());
    bytes_eq(head, prefix)
}

/// Whether two strings hold the same text.
pub fn str_eq(a: &str, b: &str) -> (r: bool)
    ensures
        r == (a.spec_bytes() == b.spec_bytes()),
{
    bytes_eq(a.as_bytes(), b.as_bytes())
}

/// Big-endian `u32` from the first four bytes of `b`.
pub fn read_be_u32(b: &[u8]) -> (r: u32)
    requires
        b@.len() >= 4,
    ensures
        r == be_u32(b@),
{
    (b[0] as u32) * 0x1000000 + (b[1] as u32) * 0x10000 + (b[2] as u32) * 0x100 + (b[3] as u32)
}

/// Big-endian `u64` from the first eight bytes of `b`.
pub fn read_be_u64(b: &[u8]) -> (r: u64)
    requires
        b@.len() >= 8,
    ensures
        r == be_u64(b@),
{
    let hi = read_be_u32(b) as u64;
    let rest = vstd::slice::slice_subrange(b, 4, 8);
    let lo = read_be_u32(rest) as u64;
    hi * 0x1_0000_0000 + lo
}

/// Calls `core::str::from_utf8`, which succeeds exactly when the bytes are
/// well-formed UTF-8 and then borrows those same bytes as a string.
#[verifier::external_body]
pub(crate) fn str_from_utf8(b: &[u8]) -> (r: Option<&str>)
    ensures
        r is Some <==> valid_utf8(b@),
        r matches Some(s) ==> s.spec_bytes() == b@,
{
    core::str::from_utf8(b).ok()
}

/// Concatenating two well-formed UTF-8 sequences gives a well-formed one.
pub proof fn lemma_utf8_concat(a: Seq<u8>, b: Seq<u8>)
    requires
        valid_utf8(a),
        valid_utf8(b),
    ensures
        valid_utf8(a + b),
    decreases a.len(),
{
    if a.len() == 0 {
        assert(a + b =~= b);
    } else {
        let ab = a + b;
        let l = length_of_first_scalar(a);
        assert(ab[0] == a[0]);
        assert(l >= 1 ==> ab[0] == a[0]);
        assert(l >= 2 ==> ab[1] == a[1]);
        assert(l >= 3 ==> ab[2] == a[2]);
        assert(l >= 4 ==> ab[3] == a[3]);
        assert(valid_first_scalar(ab));
        assert(length_of_first_scalar(ab) == l);
        assert(pop_first_scalar(ab) =~= pop_first_scalar(a) + b);
        lemma_utf8_concat(pop_first_scalar(a), b);
    }
}

/// A well-formed UTF-8 sequence splits into two well-formed ones in front of
/// an ASCII byte.
pub proof fn lemma_utf8_split_ascii(a: Seq<u8>, b: Seq<u8>)
    requires
        valid_utf8(a + b),
        b.len() == 0 || b[0] <= 0x7f,
    ensures
        valid_utf8(a),
        valid_utf8(b),
    decreases a.len(),
{
    let ab = a + b;
    if a.len() == 0 {
        assert(ab =~= b);
    } else {
        let l = length_of_first_scalar(ab);
        assert(valid_first_scalar(ab));
        if l > a.len() {
            assert(ab[a.len() as int] == b[0]);
            assert(false);
        }
        assert(ab[0] == a[0]);
        assert(l >= 2 ==> ab[1] == a[1]);
        assert(l >= 3 ==> ab[2] == a[2]);
        assert(l >= 4 ==> ab[3] == a[3]);
        assert(valid_first_scalar(a));
        assert(length_of_first_scalar(a) == l);
        assert(pop_first_scalar(ab) =~= pop_first_scalar(a) + b);
        lemma_utf8_split_ascii(pop_first_scalar(a), b);
    }
}

/// Around an ASCII byte, a sequence is well-formed UTF-8 exactly when both
/// of its parts are.
pub proof fn lemma_utf8_ascii_boundary(a: Seq<u8>, b: Seq<u8>)
    requires
        b.len() == 0 || b[0] <= 0x7f,
    ensures
        valid_utf8(a + b) <==> valid_utf8(a) && valid_utf8(b),
{
    if valid_utf8(a + b) {
        lemma_utf8_split_ascii(a, b);
    }
    if valid_utf8(a) && valid_utf8(b) {
        lemma_utf8_concat(a, b);
    }
}

/// Dropping ASCII bytes from the front of well-formed UTF-8 leaves well-formed UTF-8.
pub proof fn lemma_utf8_drop_ascii_prefix(s: Seq<u8>, n: int)
    requires
        0 <= n <= s.len(),
        forall|i: int| 0 <= i < n ==> s[i] <= 0x7f,
        valid_utf8(s),
    ensures
        valid_utf8(s.subrange(n, s.len() as int)),
    decreases n,
{
    if n == 0 {
        assert(s.subrange(0, s.len() as int) =~= s);
    } else {
        lemma_utf8_ascii_head(s);
        let t = s.subrange(1, s.len() as int);
        lemma_utf8_drop_ascii_prefix(t, n - 1);
        assert(t.subrange(n - 1, t.len() as int) =~= s.subrange(n, s.len() as int));
    }
}

/// A sequence that starts with an ASCII byte is well-formed exactly when the
/// rest of it is.
pub proof fn lemma_utf8_ascii_head(b: Seq<u8>)
    requires
        b.len() > 0,
        b[0] <= 0x7f,
    ensures
        valid_utf8(b) <==> valid_utf8(b.subrange(1, b.len() as int)),
{
    reveal_with_fuel(valid_utf8, 2);
    assert(valid_first_scalar(b));
    assert(pop_first_scalar(b) =~= b.subrange(1, b.len() as int));
}

} // verus!

verus! {

/// The string `"/"`.
pub fn slash_str() -> (r: &'static str)
    ensures
        r.spec_bytes() == seq![0x2fu8],
{
    let s = "/";
    proof {
        reveal_strlit("/");
        assert(s@ =~= seq!['/']);
        assert(('/' as u32) == 47u32);
        assert((47u32 & 0x7F) as u8 == 47u8) by (bit_vector);
        assert(encode_scalar(47u32) =~= seq![47u8]);
        assert(s@.drop_first() =~= Seq::<char>::empty());
        assert(encode_utf8(s@.drop_first()) =~= Seq::<u8>::empty());
        assert(encode_utf8(s@) =~= seq![47u8]);
    }
    s
}

} // verus!

verus! {

/// The empty string.
pub fn empty_str() -> (r: &'static str)
    ensures
        r.spec_bytes() == Seq::<u8>::empty(),
{
    let s = "";
    proof {
        reveal_strlit("");
        assert(s@ =~= Seq::<char>::empty());
        assert(encode_utf8(s@) =~= Seq::<u8>::empty());
    }
    s
}

/// The value of the decimal digits `d`, most significant first.
pub open spec fn decimal_value(d: Seq<u8>) -> int
    decreases d.len(),
{
    if d.len() == 0 {
        0
    } else {
        decimal_value(d.drop_last()) * 10 + (d.last() - 0x30)
    }
}

/// `d` is made of ASCII decimal digits only.
pub open spec fn all_decimal(d: Seq<u8>) -> bool {
    forall|i: int| 0 <= i < d.len() ==> 0x30 <= #[trigger] d[i] <= 0x39
}

/// The digits of `s`: `s` without one leading `+`.
pub open spec fn unsigned_digits(s: Seq<u8>) -> Seq<u8> {
    if s.len() > 0 && s[0] == 0x2b {
        s.drop_first()
    } else {
        s
    }
}

/// `s` read as an unsigned decimal `usize`: an optional `+`, then one or more
/// decimal digits whose value fits.
pub open spec fn parse_usize(s: Seq<u8>) -> Option<usize> {
    let d = unsigned_digits(s);
    if d.len() > 0 && all_decimal(d) && decimal_value(d) <= usize::MAX {
        Some(decimal_value(d) as usize)
    } else {
        None
    }
}

proof fn lemma_decimal_nonneg(d: Seq<u8>)
    requires
        all_decimal(d),
    ensures
        decimal_value(d) >= 0,
    decreases d.len(),
{
    if d.len() > 0 {
        lemma_decimal_nonneg(d.drop_last());
        assert(0x30 <= d[d.len() - 1] <= 0x39);
    }
}

proof fn lemma_decimal_prefix_grows(d: Seq<u8>, i: int, j: int)
    requires
        all_decimal(d),
        0 <= i <= j <= d.len(),
    ensures
        decimal_value(d.subrange(0, i)) <= decimal_value(d.subrange(0, j)),
    decreases j - i,
{
    if i < j {
        lemma_decimal_prefix_grows(d, i, j - 1);
        let p = d.subrange(0, j);
        assert(p.drop_last() =~= d.subrange(0, j - 1));
        assert(all_decimal(d.subrange(0, j - 1)));
        lemma_decimal_nonneg(d.subrange(0, j - 1));
        assert(0x30 <= d[j - 1] <= 0x39);
    }
}

/// Reads `s` as an unsigned decimal number, as `usize`'s `FromStr` does.
pub fn parse_usize_bytes(s: &[u8]) -> (r: Option<usize>)
    ensures
        r == parse_usize(s@),
{
    let len = s.len();
    let start: usize = if len > 0 && s[0] == 0x2b {
        1
    } else {
        0
    };
    let d = &s[start..len];
    assert(d@ =~= unsigned_digits(s@));
    if d.len() == 0 {
        return None;
    }
    let mut v: usize = 0;
    let mut i: usize = 0;
    while i < d.len()
        invariant
            0 <= i <= d@.len(),
            d@ == unsigned_digits(s@),
            all_decimal(d@.subrange(0, i as int)),
            v == decimal_value(d@.subrange(0, i as int)),
        decreases d@.len() - i,
    {
        let c = d[i];
        if c < 0x30 || c > 0x39 {
            assert(!all_decimal(d@));
            return None;
        }
        let ghost next = d@.subrange(0, i + 1);
        proof {
            assert(next.drop_last() =~= d@.subrange(0, i as int));
            assert forall|k: int| 0 <= k < next.len() implies 0x30 <= #[trigger] next[k] <= 0x39 by {
                if k < i {
                    assert(next[k] == d@.subrange(0, i as int)[k]);
                }
            }
        }
        let dig: usize = (c - 0x30) as usize;
        let m = match v.checked_mul(10) {
            Some(m) => m,
            None => {
                proof {
                    if all_decimal(d@) {
                        lemma_decimal_nonneg(d@.subrange(0, i as int));
                        lemma_decimal_prefix_grows(d@, i + 1, d@.len() as int);
                        assert(d@.subrange(0, d@.len() as int) =~= d@);
                    }
                }
                return None;
            },
        };
        match m.checked_add(dig) {
            Some(n) => {
                v = n;
            },
            None => {
                proof {
                    if all_decimal(d@) {
                        lemma_decimal_prefix_grows(d@, i + 1, d@.len() as int);
                        assert(d@.subrange(0, d@.len() as int) =~= d@);
                    }
                }
                return None;
            },
        }
        i = i + 1;
    }
    assert(d@.subrange(0, d@.len() as int) =~= d@);
    Some(v)
}

} // verus!

verus! {

/// `t` occurs in `s`.
pub open spec fn contains_sub(s: Seq<u8>, t: Seq<u8>) -> bool {
    exists|i: int| 0 <= i && i + t.len() <= s.len() && #[trigger] s.subrange(i, i + t.len()) == t
}

/// Whether `t` occurs in `s`.
pub fn bytes_contains(s: &[u8], t: &[u8]) -> (r: bool)
    ensures
        r == contains_sub(s@, t@),
{
    let n = s.len();
    let m = t.len();
    if m > n {
        return false;
    }
    if m == 0 {
        assert(s@.subrange(0int, 0int + t@.len()) =~= t@);
        return true;
    }
    let mut i: usize = 0;
    while i <= n - m
        invariant
            m == t@.len(),
            n == s@.len(),
            0 < m <= n,
            i <= n - m + 1,
            forall|j: int| 0 <= j < i ==> #[trigger] s@.subrange(j, j + m) != t@,
        decreases n - m + 1 - i,
    {
        let window = &s[i..i + m];
        if bytes_eq(window, t) {
            assert(s@.subrange(i as int, i + m) == t@);
            return true;
        }
        i = i + 1;
    }
    assert forall|j: int| 0 <= j && j + t@.len() <= s@.len() implies #[trigger] s@.subrange(j, j + t@.len()) != t@ by {
        assert(j < i);
    }
    false
}

/// The decimal digit `d` as a character.
pub open spec fn decimal_char(d: nat) -> char {
    (0x30 + d) as char
}

/// The decimal digits of `v`, most significant first, without leading zeros.
pub open spec fn decimal_chars(v: nat) -> Seq<char>
    decreases v,
{
    if v < 10 {
        seq![decimal_char(v)]
    } else {
        decimal_chars(v / 10) + seq![decimal_char(v % 10)]
    }
}

/// The string of the decimal digit `d`.
fn decimal_digit_str(d: u64) -> (r: &'static str)
    requires
        d < 10,
    ensures
        r@ == seq![decimal_char(d as nat)],
{
    proof {
        reveal_strlit("0");
        reveal_strlit("1");
        reveal_strlit("2");
        reveal_strlit("3");
        reveal_strlit("4");
        reveal_strlit("5");
        reveal_strlit("6");
        reveal_strlit("7");
        reveal_strlit("8");
        reveal_strlit("9");
    }
    match d {
        0 => "0",
        1 => "1",
        2 => "2",
        3 => "3",
        4 => "4",
        5 => "5",
        6 => "6",
        7 => "7",
        8 => "8",
        _ => "9",
    }
}

/// Appends the decimal digits of `v` to `out`.
pub fn push_decimal(out: &mut String, v: u64)
    ensures
        final(out)@ == old(out)@ + decimal_chars(v as nat),
    decreases v,
{
    if v >= 10 {
        push_decimal(out, v / 10);
    }
    out.append(decimal_digit_str(v % 10));
    proof {
        assert(old(out)@ + decimal_chars(v as nat) =~= final(out)@) by {
            if v >= 10 {
                assert(decimal_chars(v as nat) == decimal_chars((v / 10) as nat) + seq![decimal_char((v % 10) as nat)]);
            }
        }
    }
}

/// The decimal digits of `v` as ASCII bytes, most significant first.
pub open spec fn decimal_bytes(v: nat) -> Seq<u8>
    decreases v,
{
    if v < 10 {
        seq![(0x30 + v) as u8]
    } else {
        decimal_bytes(v / 10).push((0x30 + v % 10) as u8)
    }
}

pub(crate) proof fn lemma_decimal_bytes(v: nat)
    ensures
        decimal_bytes(v).len() > 0,
        decimal_bytes(v)[0] != 0x2b,
        all_decimal(decimal_bytes(v)),
        decimal_value(decimal_bytes(v)) == v,
    decreases v,
{
    if v >= 10 {
        lemma_decimal_bytes(v / 10);
        let d = decimal_bytes(v);
        assert(d.drop_last() =~= decimal_bytes(v / 10));
        assert(d.last() == (0x30 + v % 10) as u8);
        assert(d.last() - 0x30 == v % 10);
        assert(decimal_value(d) == decimal_value(d.drop_last()) * 10 + (d.last() - 0x30));
        assert((v / 10) * 10 + v % 10 == v);
    } else {
        let d = decimal_bytes(v);
        assert(d.drop_last() =~= Seq::<u8>::empty());
        assert(decimal_value(d) == decimal_value(d.drop_last()) * 10 + (d.last() - 0x30));
        assert forall|i: int| 0 <= i < d.len() implies 0x30 <= #[trigger] d[i] <= 0x39 by {
            if i < d.len() - 1 {
                assert(d[i] == decimal_bytes(v / 10)[i]);
            }
        }
    }
}

/// A `usize` written in decimal reads back as itself.
pub proof fn law_decimal_round_trip(v: usize)
    ensures
        parse_usize(decimal_bytes(v as nat)) == Some(v),
{
    lemma_decimal_bytes(v as nat);
}

} // verus!
