use vstd::prelude::*;
use vstd::string::*;
use vstd::utf8::*;

use crate::cell_collector::CollectCellsError;
use crate::nodes::{lemma_prop_step_shrinks, node_props_start, prop_step, Node, NodeProperty};
use crate::parsing::spec_parse_root;
use crate::properties::cells::CellSizes;
use crate::properties::reg::{reg_step, spec_reg_of, RegEntry};
use crate::properties::values::{str_value, u32_value, value_as_str, value_as_u32, InvalidPropertyValue};
use crate::util::{be_u32, bytes_contains, contains_sub, str_eq};
use crate::FdtError;

verus! {

broadcast use vstd::seq::group_seq_axioms;

/// The devicetree could not be read while printing it.
#[derive(Debug)]
pub struct Error;

impl From<FdtError> for Error {
    fn from(_e: FdtError) -> (r: Self) {
        Error
    }
}

impl vstd::std_specs::convert::FromSpecImpl<FdtError> for Error {
    open spec fn obeys_from_spec() -> bool {
        true
    }

    open spec fn from_spec(v: FdtError) -> Self {
        Error
    }
}

impl From<CollectCellsError> for Error {
    fn from(_e: CollectCellsError) -> (r: Self) {
        Error
    }
}

impl vstd::std_specs::convert::FromSpecImpl<CollectCellsError> for Error {
    open spec fn obeys_from_spec() -> bool {
        true
    }

    open spec fn from_spec(v: CollectCellsError) -> Self {
        Error
    }
}

impl From<InvalidPropertyValue> for Error {
    fn from(_e: InvalidPropertyValue) -> (r: Self) {
        Error
    }
}

impl vstd::std_specs::convert::FromSpecImpl<InvalidPropertyValue> for Error {
    open spec fn obeys_from_spec() -> bool {
        true
    }

    open spec fn from_spec(v: InvalidPropertyValue) -> Self {
        Error
    }
}

/// What `{:?}` writes for a string with the characters `s`: the string
/// between double quotes, with quotes, backslashes and characters that do
/// not print escaped.
pub uninterp spec fn str_debug(s: Seq<char>) -> Seq<char>;

/// Formats `s` with `{:?}`.
#[verifier::external_body]
fn debug_str(s: &str) -> (r: String)
    ensures
        r@ == str_debug(s@),
{
    format!("{:?}", s)
}

/// The hexadecimal digit `d` as a lower-case character.
pub open spec fn hex_char(d: nat) -> char {
    if d < 10 {
        (0x30 + d) as char
    } else {
        (0x57 + d) as char
    }
}

/// The lower-case hexadecimal digits of `v`, without leading zeros.
pub open spec fn hex_digits(v: nat) -> Seq<char>
    decreases v,
{
    if v < 16 {
        seq![hex_char(v)]
    } else {
        hex_digits(v / 16) + seq![hex_char(v % 16)]
    }
}

/// What `{:#04x}` writes for `v`: `0x` and at least two hexadecimal digits.
pub open spec fn hex_text(v: nat) -> Seq<char> {
    "0x"@ + (if v < 16 {
        "0"@
    } else {
        Seq::empty()
    }) + hex_digits(v)
}

/// The string of the hexadecimal digit `d`.
fn hex_digit_str(d: u64) -> (r: &'static str)
    requires
        d < 16,
    ensures
        r@ == seq![hex_char(d as nat)],
{
    proof {
        reveal_strlit("0");
        reveal_strlit("1");
        reveal_strlit("2");
        reveal_strlit("3");
        reveal_strlit("4");
        reveal_strlit("5");
        reveal_strlit("6");
        reveal_strlit("7");
        reveal_strlit("8");
        reveal_strlit("9");
        reveal_strlit("a");
        reveal_strlit("b");
        reveal_strlit("c");
        reveal_strlit("d");
        reveal_strlit("e");
        reveal_strlit("f");
    }
    match d {
        0 => "0",
        1 => "1",
        2 => "2",
        3 => "3",
        4 => "4",
        5 => "5",
        6 => "6",
        7 => "7",
        8 => "8",
        9 => "9",
        10 => "a",
        11 => "b",
        12 => "c",
        13 => "d",
        14 => "e",
        _ => "f",
    }
}

/// Appends the hexadecimal digits of `v` to `out`.
fn push_hex_digits(out: &mut String, v: u64)
    ensures
        final(out)@ == old(out)@ + hex_digits(v as nat),
    decreases v,
{
    if v >= 16 {
        push_hex_digits(out, v / 16);
    }
    out.append(hex_digit_str(v % 16));
    proof {
        if v >= 16 {
            assert(hex_digits(v as nat) == hex_digits((v / 16) as nat) + seq![hex_char((v % 16) as nat)]);
        }
        assert(old(out)@ + hex_digits(v as nat) =~= final(out)@);
    }
}

/// Appends `v` as `{:#04x}` writes it.
fn push_hex(out: &mut String, v: u64)
    ensures
        final(out)@ == old(out)@ + hex_text(v as nat),
{
    out.append("0x");
    if v < 16 {
        out.append("0");
    }
    push_hex_digits(out, v);
    assert(final(out)@ =~= old(out)@ + hex_text(v as nat));
}

/// `n` spaces.
pub open spec fn spaces(n: nat) -> Seq<char> {
    Seq::new(n, |i: int| ' ')
}

/// What `{:width$}` writes for a single space: the space padded to `w`
/// characters.
pub open spec fn pad(w: nat) -> Seq<char> {
    if w == 0 {
        spaces(1)
    } else {
        spaces(w)
    }
}

/// Appends a space padded to `w` characters.
fn push_pad(out: &mut String, w: usize)
    ensures
        final(out)@ == old(out)@ + pad(w as nat),
{
    let n: usize = if w == 0 {
        1
    } else {
        w
    };
    let mut k: usize = 0;
    proof {
        reveal_strlit(" ");
        assert(old(out)@ + spaces(0) =~= old(out)@);
    }
    while k < n
        invariant
            k <= n,
            out@ == old(out)@ + spaces(k as nat),
            " "@ == seq![' '],
        decreases n - k,
    {
        out.append(" ");
        k = k + 1;
        assert(out@ =~= old(out)@ + spaces(k as nat));
    }
}

/// Prefixes a text that may have failed.
pub open spec fn prepend(a: Seq<char>, o: Option<Seq<char>>) -> Option<Seq<char>> {
    match o {
        None => None,
        Some(b) => Some(a + b),
    }
}

/// The text of one `reg` entry: its address, as a `usize`, and its size when
/// there is one.
pub open spec fn reg_entry_text(e: RegEntry<u64, Option<u64>>) -> Seq<char> {
    match e.len {
        Some(size) => hex_text((e.address as usize) as nat) + " "@ + hex_text(size as nat),
        None => hex_text((e.address as usize) as nat),
    }
}

/// The text of the `reg` entries held by `s`, separated by spaces; `None`
/// when an entry cannot be collected.
pub open spec fn reg_entries_text(cs: CellSizes, s: Seq<u8>, first: bool) -> Option<Seq<char>>
    decreases s.len(),
{
    if cs.address_cells * 4 + cs.size_cells * 4 == 0 {
        Some(Seq::empty())
    } else {
        match reg_step::<u64, Option<u64>>(cs, s).0 {
            None => Some(Seq::empty()),
            Some(Err(_)) => None,
            Some(Ok(e)) => prepend(
                (if first {
                    Seq::empty()
                } else {
                    " "@
                }) + reg_entry_text(e),
                reg_entries_text(cs, reg_step::<u64, Option<u64>>(cs, s).1, false),
            ),
        }
    }
}

/// The text of the `reg` property of a node.
pub open spec fn reg_text(this: Seq<u8>, parent: Option<Seq<u8>>, strings: Seq<u8>, structs: Seq<u8>) -> Option<Seq<char>> {
    match spec_parse_root(structs) {
        Err(_) => None,
        Ok(_) => match spec_reg_of(this, parent, strings, structs) {
            Ok(Some(r)) => reg_entries_text(r.0, r.1, true),
            _ => None,
        },
    }
}

/// The `u32`s held by `v`, in hexadecimal, separated by spaces.
pub open spec fn u32s_text(v: Seq<u8>, first: bool) -> Seq<char>
    decreases v.len(),
{
    if v.len() < 4 {
        Seq::empty()
    } else {
        (if first {
            Seq::empty()
        } else {
            " "@
        }) + hex_text(be_u32(v) as nat) + u32s_text(v.subrange(4, v.len() as int), false)
    }
}

/// The line written for a `compatible` property with value `v`, indented
/// by `ind`.
pub open spec fn compatible_line(ind: Seq<char>, v: Seq<u8>) -> Option<Seq<char>> {
    match str_value(v) {
        None => None,
        Some(b) => Some(ind + "compatible = "@ + str_debug(decode_utf8(b)) + ";\n"@),
    }
}

/// A `compatible` property prints as one line holding the debug form of the
/// whole value, every listed model with the NULs between them, up to the
/// NULs at its end: the line exists exactly when the value is UTF-8, and the
/// printed string is the value up to an index after which only NULs follow
/// and before which the last byte is not a NUL.
pub proof fn law_compatible_line_whole_value(ind: Seq<char>, v: Seq<u8>)
    ensures
        compatible_line(ind, v) is Some <==> valid_utf8(v),
        compatible_line(ind, v) matches Some(t) ==> exists|k: int|
            #![trigger v.subrange(0, k)]
            0 <= k <= v.len() && (k == 0 || v[k - 1] != 0) && (forall|i: int| k <= i < v.len() ==> v[i] == 0) && t
                == ind + "compatible = "@ + str_debug(decode_utf8(v.subrange(0, k))) + ";\n"@,
{
    crate::properties::values::lemma_trim_nuls_prefix(v);
    let k = crate::properties::values::trim_nuls(v).len() as int;
    if k > 0 {
        assert(v[k - 1] == crate::properties::values::trim_nuls(v).last());
    }
    assert(v.subrange(0, k) == crate::properties::values::trim_nuls(v));
}

/// The line written for a `*-cells` property named `name` with value `v`.
pub open spec fn cells_line(ind: Seq<char>, name: Seq<char>, v: Seq<u8>) -> Option<Seq<char>> {
    match u32_value(v) {
        None => None,
        Some(x) => Some(ind + name + " = <"@ + hex_text(x as nat) + ">;\n"@),
    }
}

/// The line written for another property named `name` with value `v`: a
/// string when it reads as one, else a list of `u32`s.
pub open spec fn plain_line(ind: Seq<char>, name: Seq<char>, v: Seq<u8>) -> Option<Seq<char>> {
    match str_value(v) {
        Some(b) => if b.len() == 0 {
            Some(ind + name + ";\n"@)
        } else {
            Some(ind + name + " = "@ + str_debug(decode_utf8(b)) + ";\n"@)
        },
        None => if v.len() == 0 {
            Some(ind + name + ";\n"@)
        } else if v.len() % 4 != 0 {
            None
        } else {
            Some(ind + name + " = <"@ + u32s_text(v, true) + ">;\n"@)
        },
    }
}

/// The line written for the property `p` (its name and value) of a node at
/// `depth`.
pub open spec fn prop_text(
    this: Seq<u8>,
    parent: Option<Seq<u8>>,
    strings: Seq<u8>,
    structs: Seq<u8>,
    p: (Seq<u8>, Seq<u8>),
    depth: nat,
) -> Option<Seq<char>> {
    let ind = pad(depth * 4 + 4);
    if p.0 == "reg".spec_bytes() {
        match reg_text(this, parent, strings, structs) {
            None => None,
            Some(t) => Some(ind + "reg = <"@ + t + ">;\n"@),
        }
    } else if p.0 == "compatible".spec_bytes() {
        compatible_line(ind, p.1)
    } else if contains_sub(p.0, "-cells".spec_bytes()) {
        cells_line(ind, decode_utf8(p.0), p.1)
    } else {
        plain_line(ind, decode_utf8(p.0), p.1)
    }
}

/// The lines written for the properties at the front of `s`.
pub open spec fn props_text(
    this: Seq<u8>,
    parent: Option<Seq<u8>>,
    strings: Seq<u8>,
    structs: Seq<u8>,
    s: Seq<u8>,
    depth: nat,
) -> Option<Seq<char>>
    decreases s.len(),
{
    match prop_step(s, strings).0 {
        Err(_) => None,
        Ok(None) => Some(Seq::empty()),
        Ok(Some(p)) => match prop_text(this, parent, strings, structs, p, depth) {
            None => None,
            Some(t) => {
                proof {
                    lemma_prop_step_shrinks(s, strings);
                }
                prepend(t, props_text(this, parent, strings, structs, prop_step(s, strings).1, depth))
            },
        },
    }
}

/// The lines written for the properties of a node at `depth`, and whether it
/// has any.
#[verifier::opaque]
pub open spec fn node_props_text(
    this: Seq<u8>,
    parent: Option<Seq<u8>>,
    strings: Seq<u8>,
    structs: Seq<u8>,
    depth: nat,
) -> Option<(Seq<char>, bool)> {
    match node_props_start(this) {
        Err(_) => None,
        Ok(s) => match props_text(this, parent, strings, structs, s, depth) {
            None => None,
            Some(t) => Some((t, prop_step(s, strings).0 matches Ok(Some(_)))),
        },
    }
}

proof fn lemma_prepend_assoc(a: Seq<char>, b: Seq<char>, o: Option<Seq<char>>)
    ensures
        prepend(a, prepend(b, o)) == prepend(a + b, o),
{
    match o {
        Some(x) => {
            assert(a + (b + x) =~= (a + b) + x);
        },
        None => {},
    }
}

/// Appends one `reg` entry, after a space unless it is the first.
fn push_reg_entry(out: &mut String, entry: RegEntry<u64, Option<u64>>, first: bool)
    ensures
        final(out)@ == old(out)@ + (if first {
            Seq::empty()
        } else {
            " "@
        }) + reg_entry_text(entry),
{
    if !first {
        out.append(" ");
    }
    push_hex(out, entry.address as usize as u64);
    match entry.len {
        Some(size) => {
            out.append(" ");
            push_hex(out, size);
        },
        None => {},
    }
    assert(final(out)@ =~= old(out)@ + (if first {
        Seq::empty()
    } else {
        " "@
    }) + reg_entry_text(entry));
}

/// Appends the `reg` entries of `node`, separated by spaces.
#[verifier::rlimit(30)]
fn print_reg(out: &mut String, node: &Node) -> (r: Result<(), Error>)
    ensures
        match reg_text(node.this_view(), node.parent_view(), node.strings_view(), node.structs_view()) {
            None => r is Err,
            Some(t) => r is Ok && final(out)@ == old(out)@ + t,
        },
{
    let reg = match node.reg() {
        Ok(Some(reg)) => reg,
        _ => return Err(Error),
    };
    let mut it = reg.iter::<u64, Option<u64>>();
    let ghost cs = reg@.0;
    let ghost total = reg_entries_text(cs, reg@.1, true);
    let ghost mut done: Seq<char> = Seq::empty();
    let mut first = true;
    proof {
        assert(old(out)@ + done =~= old(out)@);
        assert(prepend(done, total) == total) by {
            match total {
                Some(x) => {
                    assert(done + x =~= x);
                },
                None => {},
            }
        }
    }
    loop
        invariant
            it.wf(),
            it@.0 == cs,
            cs.address_cells * 4 + cs.size_cells * 4 != 0,
            total == reg_text(node.this_view(), node.parent_view(), node.strings_view(), node.structs_view()),
            total == prepend(done, reg_entries_text(cs, it@.1, first)),
            out@ == old(out)@ + done,
        decreases it@.1.len(),
    {
        match it.next() {
            None => {
                assert(done + Seq::<char>::empty() =~= done);
                return Ok(());
            },
            Some(Err(_)) => return Err(Error),
            Some(Ok(entry)) => {
                push_reg_entry(out, entry, first);
                proof {
                    let piece = (if first {
                        Seq::empty()
                    } else {
                        " "@
                    }) + reg_entry_text(entry);
                    lemma_prepend_assoc(done, piece, reg_entries_text(cs, it@.1, false));
                    done = done + piece;
                    assert(out@ =~= old(out)@ + done);
                }
                first = false;
            },
        }
    }
}

/// Appends the hexadecimal `u32`s of `list`, separated by spaces.
fn print_u32s(out: &mut String, value: &[u8]) -> (r: Result<(), Error>)
    ensures
        value@.len() % 4 == 0 ==> r is Ok && final(out)@ == old(out)@ + u32s_text(value@, true),
        value@.len() % 4 != 0 ==> r is Err,
{
    let list = match NodeProperty::new("", value).as_value::<crate::properties::values::U32List>() {
        Ok(l) => l,
        Err(_) => return Err(Error),
    };
    let mut it = list.iter();
    let mut first = true;
    let ghost mut done: Seq<char> = Seq::empty();
    proof {
        assert(old(out)@ + done =~= old(out)@);
        assert(done + u32s_text(value@, true) =~= u32s_text(value@, true));
    }
    loop
        invariant
            value@.len() % 4 == 0,
            u32s_text(value@, true) == done + u32s_text(it@, first),
            out@ == old(out)@ + done,
        decreases it@.len(),
    {
        let ghost out0 = out@;
        let ghost before = it@;
        match it.next() {
            None => {
                assert(done + Seq::<char>::empty() =~= done);
                return Ok(());
            },
            Some(v) => {
                if !first {
                    out.append(" ");
                }
                push_hex(out, v as u64);
                proof {
                    let piece = (if first {
                        Seq::empty()
                    } else {
                        " "@
                    }) + hex_text(v as nat);
                    assert(out@ =~= out0 + piece);
                    assert(u32s_text(before, first) == piece + u32s_text(it@, false));
                    assert(done + (piece + u32s_text(it@, false)) =~= (done + piece) + u32s_text(it@, false));
                    done = done + piece;
                }
                first = false;
            },
        }
    }
}

/// Appends the line of a `compatible` property with value `value`.
fn print_compatible(out: &mut String, value: &[u8], width: usize) -> (r: Result<(), Error>)
    ensures
        match compatible_line(pad(width as nat), value@) {
            None => r is Err,
            Some(t) => r is Ok && final(out)@ == old(out)@ + t,
        },
{
    broadcast use vstd::utf8::encode_utf8_decode_utf8;

    let s = match value_as_str(value) {
        Ok(s) => s,
        Err(_) => return Err(Error),
    };
    push_pad(out, width);
    out.append("compatible = ");
    let d = debug_str(s);
    out.append(d.as_str());
    out.append(";\n");
    assert(final(out)@ =~= old(out)@ + pad(width as nat) + "compatible = "@ + str_debug(s@) + ";\n"@);
    Ok(())
}

/// Appends the line of a `*-cells` property.
fn print_cells(out: &mut String, name: &str, value: &[u8], width: usize) -> (r: Result<(), Error>)
    ensures
        match cells_line(pad(width as nat), name@, value@) {
            None => r is Err,
            Some(t) => r is Ok && final(out)@ == old(out)@ + t,
        },
{
    let v = match value_as_u32(value) {
        Ok(v) => v,
        Err(_) => return Err(Error),
    };
    push_pad(out, width);
    out.append(name);
    out.append(" = <");
    push_hex(out, v as u64);
    out.append(">;\n");
    assert(final(out)@ =~= old(out)@ + pad(width as nat) + name@ + " = <"@ + hex_text(v as nat) + ">;\n"@);
    Ok(())
}

/// Appends the line of a property that is neither `reg`, `compatible` nor a
/// `*-cells` one.
fn print_plain(out: &mut String, name: &str, value: &[u8], width: usize) -> (r: Result<(), Error>)
    ensures
        match plain_line(pad(width as nat), name@, value@) {
            None => r is Err,
            Some(t) => r is Ok && final(out)@ == old(out)@ + t,
        },
{
    broadcast use vstd::utf8::encode_utf8_decode_utf8;

    match value_as_str(value) {
        Ok(s) => {
            push_pad(out, width);
            out.append(name);
            if s.as_bytes().len() == 0 {
                out.append(";\n");
                assert(final(out)@ =~= old(out)@ + pad(width as nat) + name@ + ";\n"@);
            } else {
                out.append(" = ");
                let d = debug_str(s);
                out.append(d.as_str());
                out.append(";\n");
                assert(final(out)@ =~= old(out)@ + pad(width as nat) + name@ + " = "@ + str_debug(s@) + ";\n"@);
            }
            Ok(())
        },
        Err(_) => {
            if value.len() == 0 {
                push_pad(out, width);
                out.append(name);
                out.append(";\n");
                assert(final(out)@ =~= old(out)@ + pad(width as nat) + name@ + ";\n"@);
                return Ok(());
            }
            if value.len() % 4 != 0 {
                return Err(Error);
            }
            push_pad(out, width);
            out.append(name);
            out.append(" = <");
            match print_u32s(out, value) {
                Ok(()) => {},
                Err(e) => return Err(e),
            }
            out.append(">;\n");
            assert(final(out)@ =~= old(out)@ + pad(width as nat) + name@ + " = <"@ + u32s_text(value@, true) + ">;\n"@);
            Ok(())
        },
    }
}

/// Appends the line of the property `prop` of `node`, at `depth`.
#[verifier::rlimit(30)]
fn print_property(out: &mut String, node: &Node, prop: NodeProperty, depth: usize) -> (r: Result<(), Error>)
    requires
        depth < 16,
    ensures
        match prop_text(node.this_view(), node.parent_view(), node.strings_view(), node.structs_view(), prop@, depth as nat) {
            None => r is Err,
            Some(t) => r is Ok && final(out)@ == old(out)@ + t,
        },
{
    broadcast use vstd::utf8::encode_utf8_decode_utf8;

    let name = prop.name;
    let width = depth * 4 + 4;
    assert(decode_utf8(prop@.0) == name@);
    if str_eq(name, "reg") {
        push_pad(out, width);
        out.append("reg = <");
        match print_reg(out, node) {
            Ok(()) => {},
            Err(e) => return Err(e),
        }
        out.append(">;\n");
        assert(final(out)@ =~= old(out)@ + pad(width as nat) + "reg = <"@
            + reg_text(node.this_view(), node.parent_view(), node.strings_view(), node.structs_view()).unwrap() + ">;\n"@);
        return Ok(());
    }
    if str_eq(name, "compatible") {
        return print_compatible(out, prop.value, width);
    }
    if bytes_contains(name.as_bytes(), "-cells".as_bytes()) {
        return print_cells(out, name, prop.value, width);
    }
    print_plain(out, name, prop.value, width)
}

/// Appends the lines of the properties of `node`, at `depth`; tells whether
/// the node has any.
#[verifier::rlimit(30)]
fn print_properties(out: &mut String, node: &Node, depth: usize) -> (r: Result<bool, Error>)
    requires
        depth < 16,
    ensures
        match node_props_text(node.this_view(), node.parent_view(), node.strings_view(), node.structs_view(), depth as nat) {
            None => r is Err,
            Some(t) => r == Ok::<bool, Error>(t.1) && final(out)@ == old(out)@ + t.0,
        },
{
    let props = match node.properties() {
        Ok(p) => p,
        Err(_) => {
            assert(node_props_text(node.this_view(), node.parent_view(), node.strings_view(), node.structs_view(), depth as nat) is None) by {
                reveal(node_props_text);
            }
            return Err(Error);
        },
    };
    let mut it = props.iter();
    let ghost start = it@;
    let ghost total = props_text(node.this_view(), node.parent_view(), node.strings_view(), node.structs_view(), start, depth as nat);
    let ghost mut done: Seq<char> = Seq::empty();
    let mut any_props = false;
    proof {
        assert(old(out)@ + done =~= old(out)@);
        assert(prepend(done, total) == total) by {
            match total {
                Some(x) => {
                    assert(done + x =~= x);
                },
                None => {},
            }
        }
    }
    loop
        invariant
            it.strings_view() == node.strings_view(),
            node_props_start(node.this_view()) == Ok::<Seq<u8>, FdtError>(start),
            total == props_text(node.this_view(), node.parent_view(), node.strings_view(), node.structs_view(), start, depth as nat),
            total == prepend(done, props_text(node.this_view(), node.parent_view(), node.strings_view(), node.structs_view(), it@, depth as nat)),
            out@ == old(out)@ + done,
            !any_props ==> it@ == start,
            any_props ==> prop_step(start, node.strings_view()).0 matches Ok(Some(_)),
            depth < 16,
        decreases it@.len(),
    {
        proof {
            lemma_prop_step_shrinks(it@, node.strings_view());
        }
        match it.next() {
            None => {
                assert(done + Seq::<char>::empty() =~= done);
                assert(node_props_text(node.this_view(), node.parent_view(), node.strings_view(), node.structs_view(), depth as nat)
                    == Some((done, any_props))) by {
                    reveal(node_props_text);
                }
                return Ok(any_props);
            },
            Some(Err(_)) => {
                assert(node_props_text(node.this_view(), node.parent_view(), node.strings_view(), node.structs_view(), depth as nat) is None) by {
                    reveal(node_props_text);
                }
                return Err(Error);
            },
            Some(Ok(prop)) => {
                any_props = true;
                match print_property(out, node, prop, depth) {
                    Ok(()) => {},
                    Err(e) => {
                        assert(node_props_text(node.this_view(), node.parent_view(), node.strings_view(), node.structs_view(), depth as nat) is None) by {
                            reveal(node_props_text);
                        }
                        return Err(e);
                    },
                }
                proof {
                    let piece = prop_text(node.this_view(), node.parent_view(), node.strings_view(), node.structs_view(), prop@, depth as nat).unwrap();
                    lemma_prepend_assoc(done, piece, props_text(node.this_view(), node.parent_view(), node.strings_view(), node.structs_view(), it@, depth as nat));
                    done = done + piece;
                }
            },
        }
    }
}

/// The printer's state between two nodes: whether the last node had
/// properties, how many braces are still to close, and the depth they close
/// from.
pub struct PrintState {
    pub any_props: bool,
    pub n_braces: nat,
    pub final_depth: nat,
}

/// The `n` closing braces of the nodes above depth `fd`, each on its own line.
pub open spec fn closing_braces(fd: nat, n: nat) -> Seq<char>
    decreases n,
{
    if n == 0 || fd == 0 {
        Seq::empty()
    } else {
        pad(((fd - 1) * 4) as nat) + "};\n"@ + closing_braces((fd - 1) as nat, (n - 1) as nat)
    }
}

/// The name of a node as it is printed: `/` for the root, else its name and
/// its unit address after an `@`.
pub open spec fn name_text(nn: (Seq<u8>, Option<Seq<u8>>)) -> Seq<char> {
    if nn.0.len() == 0 {
        "/"@
    } else {
        match nn.1 {
            Some(u) => decode_utf8(nn.0) + "@"@ + decode_utf8(u),
            None => decode_utf8(nn.0),
        }
    }
}

/// What comes before a node: the braces still to close, and a blank line
/// after a node that had properties.
pub open spec fn node_lead(ps: PrintState) -> Seq<char> {
    closing_braces(ps.final_depth, ps.n_braces) + (if ps.any_props {
        "\n"@
    } else {
        Seq::empty()
    })
}

/// The line that opens a node at depth `d` named `nn`.
pub open spec fn node_head(d: nat, nn: (Seq<u8>, Option<Seq<u8>>)) -> Seq<char> {
    pad(d * 4) + name_text(nn) + " {\n"@
}

/// What follows the properties of a node at depth `d`, the next node being
/// at depth `nd`: a blank line for a node with neither properties nor
/// children, and its closing brace unless children follow.
pub open spec fn node_tail(d: nat, nd: nat, any: bool) -> Seq<char> {
    let blank = if !any && !(nd > d) {
        "\n"@
    } else {
        Seq::empty()
    };
    blank + (if nd <= d {
        pad(d * 4) + "};\n"@ + blank
    } else {
        Seq::empty()
    })
}

/// The printer's state after a node at depth `d`, the next node being at
/// depth `nd`.
pub open spec fn next_state(d: nat, nd: nat, any: bool) -> PrintState {
    if d > nd {
        PrintState { any_props: any, n_braces: (d - nd) as nat, final_depth: d }
    } else {
        PrintState { any_props: any, n_braces: 0, final_depth: 0 }
    }
}

/// The text written for the node at depth `d` with raw body `this` and
/// parent `parent`, when the next node is at depth `nd` (0 at the end), and
/// the printer's state after it.
#[verifier::opaque]
pub open spec fn node_text(
    d: nat,
    this: Seq<u8>,
    parent: Seq<u8>,
    nd: nat,
    ps: PrintState,
    strings: Seq<u8>,
    structs: Seq<u8>,
) -> Option<(Seq<char>, PrintState)> {
    match crate::nodes::spec_node_name(this) {
        Err(_) => None,
        Ok(nn) => match node_props_text(this, Some(parent), strings, structs, d) {
            None => None,
            Some(pp) => Some((node_lead(ps) + node_head(d, nn) + pp.0 + node_tail(d, nd, pp.1), next_state(d, nd, pp.1))),
        },
    }
}

/// The braces that close, after the last node, the nodes above it but the
/// root.
pub open spec fn walk_end(ps: PrintState) -> Seq<char> {
    if ps.n_braces > 0 {
        closing_braces(ps.final_depth, (ps.n_braces - 1) as nat)
    } else {
        Seq::empty()
    }
}

/// The text written for the walk from the node `item` on, the walk being at
/// `st` after it, up to the closing of the root.
#[verifier::opaque]
pub open spec fn print_walk(
    item: Option<Result<crate::nodes::root::WalkNode, FdtError>>,
    st: crate::nodes::root::WalkState,
    ps: PrintState,
    strings: Seq<u8>,
    structs: Seq<u8>,
) -> Option<Seq<char>>
    decreases st.stream.len(),
{
    match item {
        None => Some(walk_end(ps)),
        Some(Err(_)) => None,
        Some(Ok(n)) => {
            let (la, st2) = crate::nodes::root::walk_step(st);
            match la {
                Some(Err(_)) => None,
                None => match node_text(n.0, n.1, n.2, 0, ps, strings, structs) {
                    None => None,
                    Some(r) => Some(r.0 + walk_end(r.1)),
                },
                Some(Ok(m)) => match node_text(n.0, n.1, n.2, m.0, ps, strings, structs) {
                    None => None,
                    Some(r) => {
                        proof {
                            crate::nodes::root::lemma_walk_step_shrinks(st);
                        }
                        prepend(r.0, print_walk(la, st2, r.1, strings, structs))
                    },
                },
            }
        },
    }
}

proof fn lemma_print_walk(
    item: Option<Result<crate::nodes::root::WalkNode, FdtError>>,
    st: crate::nodes::root::WalkState,
    ps: PrintState,
    strings: Seq<u8>,
    structs: Seq<u8>,
)
    ensures
        print_walk(item, st, ps, strings, structs) == match item {
            None => Some(walk_end(ps)),
            Some(Err(_)) => None,
            Some(Ok(n)) => match crate::nodes::root::walk_step(st).0 {
                Some(Err(_)) => None,
                None => match node_text(n.0, n.1, n.2, 0, ps, strings, structs) {
                    None => None,
                    Some(r) => Some(r.0 + walk_end(r.1)),
                },
                Some(Ok(m)) => match node_text(n.0, n.1, n.2, m.0, ps, strings, structs) {
                    None => None,
                    Some(r) => prepend(
                        r.0,
                        print_walk(crate::nodes::root::walk_step(st).0, crate::nodes::root::walk_step(st).1, r.1, strings, structs),
                    ),
                },
            },
        },
{
    reveal(print_walk);
}

/// The devicetree below the root with raw body `root_this`, in the source
/// format: the root's properties, then every node with its properties, each
/// level indented by four spaces.
pub open spec fn spec_print_fdt(root_this: Seq<u8>, root_parent: Option<Seq<u8>>, strings: Seq<u8>, structs: Seq<u8>) -> Option<
    Seq<char>,
> {
    match node_props_text(root_this, root_parent, strings, structs, 0) {
        None => None,
        Some(rp) => match crate::nodes::root::walk_start(root_this) {
            Err(_) => None,
            Ok(st) => {
                let (first, st1) = crate::nodes::root::walk_step(st);
                match print_walk(first, st1, PrintState { any_props: rp.1, n_braces: 0, final_depth: 0 }, strings, structs) {
                    None => None,
                    Some(body) => Some("/ {\n"@ + rp.0 + body + "};"@),
                }
            },
        },
    }
}

/// Appends `n` closing braces, from depth `fd` up.
fn push_closing_braces(out: &mut String, fd: usize, n: usize)
    requires
        n <= fd < 16,
    ensures
        final(out)@ == old(out)@ + closing_braces(fd as nat, n as nat),
    decreases n,
{
    if n == 0 {
        assert(old(out)@ + closing_braces(fd as nat, n as nat) =~= old(out)@);
        return;
    }
    push_pad(out, (fd - 1) * 4);
    out.append("};\n");
    push_closing_braces(out, fd - 1, n - 1);
    assert(final(out)@ =~= old(out)@ + closing_braces(fd as nat, n as nat));
}

/// Appends the name of a node as it is printed.
fn push_node_name(out: &mut String, nn: crate::nodes::NodeName)
    ensures
        final(out)@ == old(out)@ + name_text(nn@),
{
    broadcast use vstd::utf8::encode_utf8_decode_utf8;

    if nn.name.as_bytes().len() == 0 {
        out.append("/");
        return;
    }
    out.append(nn.name);
    match nn.unit_address {
        Some(u) => {
            out.append("@");
            out.append(u);
            assert(final(out)@ =~= old(out)@ + name_text(nn@));
        },
        None => {},
    }
}

/// Appends what comes before a node.
fn push_lead(out: &mut String, any_props: bool, n_braces: usize, final_depth: usize)
    requires
        n_braces <= final_depth < 16,
    ensures
        final(out)@ == old(out)@ + node_lead(PrintState { any_props, n_braces: n_braces as nat, final_depth: final_depth as nat }),
{
    push_closing_braces(out, final_depth, n_braces);
    if any_props {
        out.append("\n");
    }
    assert(final(out)@ =~= old(out)@ + node_lead(PrintState { any_props, n_braces: n_braces as nat, final_depth: final_depth as nat }));
}

/// Appends the line that opens a node.
fn push_head(out: &mut String, depth: usize, nn: crate::nodes::NodeName)
    requires
        depth < 16,
    ensures
        final(out)@ == old(out)@ + node_head(depth as nat, nn@),
{
    push_pad(out, depth * 4);
    push_node_name(out, nn);
    out.append(" {\n");
    assert(final(out)@ =~= old(out)@ + node_head(depth as nat, nn@));
}

/// Appends what follows the properties of a node.
fn push_tail(out: &mut String, depth: usize, next_depth: usize, any: bool)
    requires
        depth < 16,
    ensures
        final(out)@ == old(out)@ + node_tail(depth as nat, next_depth as nat, any),
{
    let quiet = !any && !(next_depth > depth);
    if quiet {
        out.append("\n");
    }
    if next_depth <= depth {
        push_pad(out, depth * 4);
        out.append("};\n");
        if quiet {
            out.append("\n");
        }
    }
    assert(final(out)@ =~= old(out)@ + node_tail(depth as nat, next_depth as nat, any));
}

/// Appends the text of one node at `depth`, the next node being at
/// `next_depth`; gives the printer's state after it.
#[verifier::rlimit(30)]
fn print_node(
    out: &mut String,
    node: &Node,
    depth: usize,
    next_depth: usize,
    any_props: bool,
    n_braces: usize,
    final_depth: usize,
) -> (r: Result<(bool, usize, usize), Error>)
    requires
        1 <= depth < 16,
        next_depth < 16,
        n_braces <= final_depth < 16,
        node.parent_view() is Some,
    ensures
        match node_text(depth as nat, node.this_view(), node.parent_view().unwrap(), next_depth as nat,
            PrintState { any_props, n_braces: n_braces as nat, final_depth: final_depth as nat },
            node.strings_view(), node.structs_view()) {
            None => r is Err,
            Some(t) => r matches Ok(v) && v.0 == t.1.any_props && v.1 == t.1.n_braces && v.2 == t.1.final_depth
                && final(out)@ == old(out)@ + t.0 && v.1 <= v.2 < 16,
        },
{
    proof {
        reveal(node_text);
    }
    push_lead(out, any_props, n_braces, final_depth);
    let ghost lead_end = out@;
    let nn = match node.name() {
        Ok(nn) => nn,
        Err(_) => return Err(Error),
    };
    push_head(out, depth, nn);
    let ghost head_end = out@;
    let any = match print_properties(out, node, depth) {
        Ok(b) => b,
        Err(e) => return Err(e),
    };
    let ghost props_end = out@;
    push_tail(out, depth, next_depth, any);
    proof {
        let ps = PrintState { any_props, n_braces: n_braces as nat, final_depth: final_depth as nat };
        let pp = node_props_text(node.this_view(), node.parent_view(), node.strings_view(), node.structs_view(), depth as nat)->Some_0;
        assert(final(out)@ =~= old(out)@ + (node_lead(ps) + node_head(depth as nat, nn@) + pp.0 + node_tail(depth as nat,
            next_depth as nat, any)));
    }
    if depth > next_depth {
        Ok((any, depth - next_depth, depth))
    } else {
        Ok((any, 0, 0))
    }
}

/// Writes the devicetree below `root` in the source format: the root's
/// properties, then every node with its properties, each level indented by
/// four spaces.
#[verifier::rlimit(30)]
pub fn print_fdt(root: crate::nodes::root::Root) -> (r: Result<String, Error>)
    ensures
        match spec_print_fdt(root.node_view().this_view(), root.node_view().parent_view(), root.node_view().strings_view(),
            root.node_view().structs_view()) {
            None => r is Err,
            Some(t) => r matches Ok(s) && s@ == t,
        },
{
    let root_node = root.as_node();
    let ghost strings = root.node_view().strings_view();
    let ghost structs = root.node_view().structs_view();
    let mut iter = match root.all_nodes() {
        Ok(it) => it,
        Err(_) => return Err(Error),
    };
    let mut out = String::new();
    out.append("/ {\n");
    let mut any_props = match print_properties(&mut out, &root_node, 0) {
        Ok(b) => b,
        Err(e) => return Err(e),
    };
    let ghost st0 = iter@;
    let ghost rp = node_props_text(root_node.this_view(), root_node.parent_view(), strings, structs, 0)->Some_0;
    let ghost mut item = crate::nodes::root::walk_step(st0).0;
    let ghost body = print_walk(item, crate::nodes::root::walk_step(st0).1,
        PrintState { any_props: rp.1, n_braces: 0, final_depth: 0 }, strings, structs);
    let ghost mut done: Seq<char> = Seq::empty();
    let ghost base = out@;
    let mut n_braces: usize = 0;
    let mut final_depth: usize = 0;
    let mut cur = iter.next();
    proof {
        assert(base + done =~= base);
        assert(prepend(done, body) == body) by {
            match body {
                Some(x) => {
                    assert(done + x =~= x);
                },
                None => {},
            }
        }
    }
    proof {
        assert(spec_print_fdt(root.node_view().this_view(), root.node_view().parent_view(), strings, structs) == match body {
            None => None::<Seq<char>>,
            Some(b) => Some(base + b + "};"@),
        }) by {
            match body {
                Some(b) => {
                    assert(base + b + "};"@ =~= "/ {\n"@ + rp.0 + b + "};"@);
                },
                None => {},
            }
        }
    }
    loop
        invariant
            strings == root.node_view().strings_view(),
            structs == root.node_view().structs_view(),
            spec_print_fdt(root.node_view().this_view(), root.node_view().parent_view(), strings, structs) == match body {
                None => None::<Seq<char>>,
                Some(b) => Some(base + b + "};"@),
            },
            iter.wf(),
            iter.strings_view() == strings,
            iter.structs_view() == structs,
            crate::nodes::root::walk_result(cur, item),
            cur matches Some(Ok(p)) ==> p.1.strings_view() == strings && p.1.structs_view() == structs && 1 <= p.0 < 16,
            n_braces <= final_depth < 16,
            body == prepend(done, print_walk(item, iter@,
                PrintState { any_props, n_braces: n_braces as nat, final_depth: final_depth as nat }, strings, structs)),
            out@ == base + done,
        ensures
            cur is None,
            item is None,
            n_braces <= final_depth < 16,
            body == Some(done + walk_end(PrintState { any_props, n_braces: n_braces as nat, final_depth: final_depth as nat })),
            out@ == base + done,
            strings == root.node_view().strings_view(),
            structs == root.node_view().structs_view(),
            spec_print_fdt(root.node_view().this_view(), root.node_view().parent_view(), strings, structs) == match body {
                None => None::<Seq<char>>,
                Some(b) => Some(base + b + "};"@),
            },
        decreases iter@.stream.len() + (if cur is Some {
            1int
        } else {
            0int
        }),
    {
        let ghost ps = PrintState { any_props, n_braces: n_braces as nat, final_depth: final_depth as nat };
        let ghost st_before = iter@;
        proof {
            lemma_print_walk(item, st_before, ps, strings, structs);
        }
        match cur {
            None => {
                break;
            },
            Some(Err(_)) => {
                return Err(Error);
            },
            Some(Ok((depth, node))) => {
                proof {
                    crate::nodes::root::lemma_walk_step_shrinks(st_before);
                }
                let la = iter.next();
                let next_depth: usize = match &la {
                    Some(Err(_)) => return Err(Error),
                    Some(Ok((nd, _))) => *nd,
                    None => 0,
                };
                let step = print_node(&mut out, &node, depth, next_depth, any_props, n_braces, final_depth);
                match step {
                    Err(e) => return Err(e),
                    Ok((a, nb, fd)) => {
                        proof {
                            let n = item->Some_0->Ok_0;
                            let t = node_text(n.0, n.1, n.2, next_depth as nat, ps, strings, structs)->Some_0;
                            let next_item = crate::nodes::root::walk_step(st_before).0;
                            let ps2 = PrintState { any_props: a, n_braces: nb as nat, final_depth: fd as nat };
                            lemma_print_walk(next_item, iter@, ps2, strings, structs);
                            lemma_prepend_assoc(done, t.0, print_walk(next_item, iter@, ps2, strings, structs));
                            if next_item is None {
                                assert(done + (t.0 + walk_end(ps2)) =~= (done + t.0) + walk_end(ps2));
                            }
                            done = done + t.0;
                            item = next_item;
                        }
                        any_props = a;
                        n_braces = nb;
                        final_depth = fd;
                        cur = la;
                    },
                }
            },
        }
    }
    let ghost end_state = PrintState { any_props, n_braces: n_braces as nat, final_depth: final_depth as nat };
    if n_braces > 0 {
        push_closing_braces(&mut out, final_depth, n_braces - 1);
    } else {
        assert(out@ + walk_end(end_state) =~= out@);
    }
    out.append("};");
    proof {
        assert(out@ =~= base + (done + walk_end(end_state)) + "};"@);
    }
    Ok(out)
}

/// A printed devicetree opens with the root's `/ {` and ends with the
/// closing of the root.
pub proof fn law_print_fdt_frame(root_this: Seq<u8>, root_parent: Option<Seq<u8>>, strings: Seq<u8>, structs: Seq<u8>)
    ensures
        spec_print_fdt(root_this, root_parent, strings, structs) matches Some(t) ==> t.len() >= 4 + 2
            && t.subrange(0, 4) == "/ {\n"@ && t.subrange(t.len() - 2, t.len() as int) == "};"@,
{
    reveal_strlit("/ {\n");
    reveal_strlit("};");
    if let Some(t) = spec_print_fdt(root_this, root_parent, strings, structs) {
        let rp = node_props_text(root_this, root_parent, strings, structs, 0)->Some_0;
        let st = crate::nodes::root::walk_start(root_this)->Ok_0;
        let body = print_walk(crate::nodes::root::walk_step(st).0, crate::nodes::root::walk_step(st).1,
            PrintState { any_props: rp.1, n_braces: 0, final_depth: 0 }, strings, structs)->Some_0;
        assert(t == "/ {\n"@ + rp.0 + body + "};"@);
        assert(t.subrange(0, 4) =~= "/ {\n"@);
        assert(t.subrange(t.len() - 2, t.len() as int) =~= "};"@);
    }
}

/// How many times `c` occurs in `s`.
pub open spec fn char_count(s: Seq<char>, c: char) -> nat
    decreases s.len(),
{
    if s.len() == 0 {
        0
    } else {
        char_count(s.drop_last(), c) + if s.last() == c {
            1nat
        } else {
            0nat
        }
    }
}

/// `s` holds no brace.
pub open spec fn brace_free(s: Seq<char>) -> bool {
    forall|i: int| 0 <= i < s.len() ==> s[i] != '{' && s[i] != '}'
}

/// The name and the property lines printed for the node `n` of the walk
/// hold no brace.
pub open spec fn printed_brace_free(n: crate::nodes::root::WalkNode, strings: Seq<u8>, structs: Seq<u8>) -> bool {
    &&& crate::nodes::spec_node_name(n.1) matches Ok(nn) ==> brace_free(name_text(nn))
    &&& node_props_text(n.1, Some(n.2), strings, structs, n.0) matches Some(pp) ==> brace_free(pp.0)
}

/// The opening braces of `s` less its closing ones.
spec fn brace_balance(s: Seq<char>) -> int {
    char_count(s, '{') - char_count(s, '}')
}

proof fn lemma_char_count_concat(a: Seq<char>, b: Seq<char>, c: char)
    ensures
        char_count(a + b, c) == char_count(a, c) + char_count(b, c),
    decreases b.len(),
{
    if b.len() == 0 {
        assert(a + b =~= a);
    } else {
        assert((a + b).drop_last() =~= a + b.drop_last());
        lemma_char_count_concat(a, b.drop_last(), c);
    }
}

proof fn lemma_balance_concat(a: Seq<char>, b: Seq<char>)
    ensures
        brace_balance(a + b) == brace_balance(a) + brace_balance(b),
{
    lemma_char_count_concat(a, b, '{');
    lemma_char_count_concat(a, b, '}');
}

proof fn lemma_brace_free_balance(s: Seq<char>)
    requires
        brace_free(s),
    ensures
        char_count(s, '{') == 0,
        char_count(s, '}') == 0,
    decreases s.len(),
{
    if s.len() > 0 {
        assert(brace_free(s.drop_last())) by {
            assert forall|i: int| 0 <= i < s.drop_last().len() implies s.drop_last()[i] != '{' && s.drop_last()[i]
                != '}' by {
                assert(s.drop_last()[i] == s[i]);
            }
        }
        lemma_brace_free_balance(s.drop_last());
    }
}

proof fn lemma_pad_balance(w: nat)
    ensures
        brace_balance(pad(w)) == 0,
{
    assert(brace_free(pad(w)));
    lemma_brace_free_balance(pad(w));
}

/// The balance of the fixed pieces of the printed text.
proof fn lemma_literal_balances()
    ensures
        brace_balance("/ {\n"@) == 1,
        brace_balance(" {\n"@) == 1,
        brace_balance("};\n"@) == -1,
        brace_balance("};"@) == -1,
        brace_balance("\n"@) == 0,
        brace_balance(Seq::<char>::empty()) == 0,
{
    reveal_strlit("/ {\n");
    reveal_strlit(" {\n");
    reveal_strlit("};\n");
    reveal_strlit("};");
    reveal_strlit("\n");
    reveal_with_fuel(char_count, 5);
    assert("/ {\n"@.drop_last() =~= seq!['/', ' ', '{']);
    assert(seq!['/', ' ', '{'].drop_last() =~= seq!['/', ' ']);
    assert(seq!['/', ' '].drop_last() =~= seq!['/']);
    assert(seq!['/'].drop_last() =~= Seq::<char>::empty());
    assert(" {\n"@.drop_last() =~= seq![' ', '{']);
    assert(seq![' ', '{'].drop_last() =~= seq![' ']);
    assert(seq![' '].drop_last() =~= Seq::<char>::empty());
    assert("};\n"@.drop_last() =~= seq!['}', ';']);
    assert(seq!['}', ';'].drop_last() =~= seq!['}']);
    assert(seq!['}'].drop_last() =~= Seq::<char>::empty());
    assert("};"@.drop_last() =~= seq!['}']);
    assert("\n"@.drop_last() =~= Seq::<char>::empty());
}

proof fn lemma_closing_braces_balance(fd: nat, k: nat)
    requires
        k <= fd,
    ensures
        brace_balance(closing_braces(fd, k)) == -(k as int),
    decreases k,
{
    lemma_literal_balances();
    if k > 0 {
        lemma_closing_braces_balance((fd - 1) as nat, (k - 1) as nat);
        lemma_pad_balance(((fd - 1) * 4) as nat);
        lemma_balance_concat(pad(((fd - 1) * 4) as nat), "};\n"@);
        lemma_balance_concat(pad(((fd - 1) * 4) as nat) + "};\n"@, closing_braces((fd - 1) as nat, (k - 1) as nat));
    }
}

/// The text of one node opens one block, closes the `n_braces` blocks still
/// pending, and closes its own block unless children follow.
proof fn lemma_node_text_balance(
    n: crate::nodes::root::WalkNode,
    nd: nat,
    ps: PrintState,
    strings: Seq<u8>,
    structs: Seq<u8>,
)
    requires
        printed_brace_free(n, strings, structs),
        ps.n_braces <= ps.final_depth,
    ensures
        node_text(n.0, n.1, n.2, nd, ps, strings, structs) matches Some(r) ==> {
            &&& brace_balance(r.0) == 1 - ps.n_braces - (if nd <= n.0 { 1int } else { 0int })
            &&& r.1.n_braces == (if n.0 > nd { (n.0 - nd) as nat } else { 0nat })
            &&& r.1.final_depth == (if n.0 > nd { n.0 } else { 0nat })
        },
{
    reveal(node_text);
    if let Some(r) = node_text(n.0, n.1, n.2, nd, ps, strings, structs) {
        let nn = crate::nodes::spec_node_name(n.1)->Ok_0;
        let pp = node_props_text(n.1, Some(n.2), strings, structs, n.0)->Some_0;
        lemma_literal_balances();
        lemma_closing_braces_balance(ps.final_depth, ps.n_braces);
        let lead = node_lead(ps);
        lemma_balance_concat(closing_braces(ps.final_depth, ps.n_braces), if ps.any_props { "\n"@ } else { Seq::empty() });
        let head = node_head(n.0, nn);
        lemma_pad_balance(n.0 * 4);
        lemma_brace_free_balance(name_text(nn));
        lemma_balance_concat(pad(n.0 * 4), name_text(nn));
        lemma_balance_concat(pad(n.0 * 4) + name_text(nn), " {\n"@);
        lemma_brace_free_balance(pp.0);
        let blank = if !pp.1 && !(nd > n.0) { "\n"@ } else { Seq::<char>::empty() };
        lemma_balance_concat(pad(n.0 * 4), "};\n"@);
        lemma_balance_concat(pad(n.0 * 4) + "};\n"@, blank);
        let close = if nd <= n.0 { pad(n.0 * 4) + "};\n"@ + blank } else { Seq::<char>::empty() };
        lemma_balance_concat(blank, close);
        let tail = node_tail(n.0, nd, pp.1);
        assert(tail == blank + close);
        lemma_balance_concat(lead, head);
        lemma_balance_concat(lead + head, pp.0);
        lemma_balance_concat(lead + head + pp.0, tail);
    }
}

/// The braces that the rest of the walk prints: it closes the pending
/// blocks and, with each node, opens and closes that node's block, so that
/// at the end all the blocks above the next node are closed but the root.
proof fn lemma_print_walk_balance(
    item: Option<Result<crate::nodes::root::WalkNode, FdtError>>,
    st: crate::nodes::root::WalkState,
    ps: PrintState,
    strings: Seq<u8>,
    structs: Seq<u8>,
)
    requires
        ps.n_braces <= ps.final_depth,
        item matches Some(Ok(n)) ==> 1 <= n.0 && st.index == n.0 && printed_brace_free(n, strings, structs)
            && forall|i: int|
            0 <= i < crate::nodes::root::walk_nodes(st).len() ==> printed_brace_free(
                #[trigger] crate::nodes::root::walk_nodes(st)[i],
                strings,
                structs,
            ),
    ensures
        print_walk(item, st, ps, strings, structs) matches Some(t) ==> brace_balance(t) == match item {
            Some(Ok(n)) => 1 - ps.n_braces - n.0,
            _ => if ps.n_braces > 0 { 1 - ps.n_braces } else { 0 },
        },
    decreases st.stream.len(),
{
    lemma_print_walk(item, st, ps, strings, structs);
    lemma_literal_balances();
    match item {
        None => {
            if ps.n_braces > 0 {
                lemma_closing_braces_balance(ps.final_depth, (ps.n_braces - 1) as nat);
            }
        },
        Some(Err(_)) => {},
        Some(Ok(n)) => {
            let (la, st2) = crate::nodes::root::walk_step(st);
            crate::nodes::root::law_walk_depth(st);
            crate::nodes::root::lemma_walk_step_shrinks(st);
            match la {
                Some(Err(_)) => {},
                None => {
                    lemma_node_text_balance(n, 0, ps, strings, structs);
                    if let Some(r) = node_text(n.0, n.1, n.2, 0, ps, strings, structs) {
                        lemma_closing_braces_balance(r.1.final_depth, (r.1.n_braces - 1) as nat);
                        lemma_balance_concat(r.0, walk_end(r.1));
                    }
                },
                Some(Ok(m)) => {
                    lemma_node_text_balance(n, m.0, ps, strings, structs);
                    let nodes = crate::nodes::root::walk_nodes(st);
                    assert(nodes == seq![m] + crate::nodes::root::walk_nodes(st2));
                    assert(nodes[0] == m);
                    assert forall|i: int| 0 <= i < crate::nodes::root::walk_nodes(st2).len() implies printed_brace_free(
                        #[trigger] crate::nodes::root::walk_nodes(st2)[i],
                        strings,
                        structs,
                    ) by {
                        assert(nodes[i + 1] == crate::nodes::root::walk_nodes(st2)[i]);
                    }
                    if let Some(r) = node_text(n.0, n.1, n.2, m.0, ps, strings, structs) {
                        lemma_print_walk_balance(la, st2, r.1, strings, structs);
                        if let Some(rest) = print_walk(la, st2, r.1, strings, structs) {
                            lemma_balance_concat(r.0, rest);
                        }
                    }
                },
            }
        },
    }
}

/// In a printed devicetree every block that is opened is closed exactly
/// once, whatever the shape of the tree: when no node name and no printed
/// property holds a brace, the text holds as many `{` as `}`.
pub proof fn law_print_fdt_braces_balance(root_this: Seq<u8>, root_parent: Option<Seq<u8>>, strings: Seq<u8>, structs: Seq<u8>)
    requires
        node_props_text(root_this, root_parent, strings, structs, 0) matches Some(rp) ==> brace_free(rp.0),
        crate::nodes::root::walk_start(root_this) matches Ok(st) ==> forall|i: int|
            0 <= i < crate::nodes::root::walk_nodes(st).len() ==> printed_brace_free(
                #[trigger] crate::nodes::root::walk_nodes(st)[i],
                strings,
                structs,
            ),
    ensures
        spec_print_fdt(root_this, root_parent, strings, structs) matches Some(t) ==> char_count(t, '{') == char_count(t, '}'),
{
    if let Some(t) = spec_print_fdt(root_this, root_parent, strings, structs) {
        let rp = node_props_text(root_this, root_parent, strings, structs, 0)->Some_0;
        let st = crate::nodes::root::walk_start(root_this)->Ok_0;
        let (first, st1) = crate::nodes::root::walk_step(st);
        crate::nodes::root::law_walk_depth(st);
        crate::nodes::root::lemma_walk_step_shrinks(st);
        let ps = PrintState { any_props: rp.1, n_braces: 0, final_depth: 0 };
        let nodes = crate::nodes::root::walk_nodes(st);
        if let Some(Ok(n)) = first {
            assert(nodes == seq![n] + crate::nodes::root::walk_nodes(st1));
            assert(nodes[0] == n);
            assert forall|i: int| 0 <= i < crate::nodes::root::walk_nodes(st1).len() implies printed_brace_free(
                #[trigger] crate::nodes::root::walk_nodes(st1)[i],
                strings,
                structs,
            ) by {
                assert(nodes[i + 1] == crate::nodes::root::walk_nodes(st1)[i]);
            }
        }
        let body = print_walk(first, st1, ps, strings, structs)->Some_0;
        lemma_print_walk_balance(first, st1, ps, strings, structs);
        lemma_literal_balances();
        lemma_brace_free_balance(rp.0);
        lemma_balance_concat("/ {\n"@, rp.0);
        lemma_balance_concat("/ {\n"@ + rp.0, body);
        lemma_balance_concat("/ {\n"@ + rp.0 + body, "};"@);
        assert(t == "/ {\n"@ + rp.0 + body + "};"@);
    }
}

} // verus!
