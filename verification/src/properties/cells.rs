use vstd::prelude::*;
use vstd::string::*;

use crate::nodes::root::Root;
use crate::nodes::{lemma_prop_step_shrinks, node_props_start, prop_step, Node};
use crate::parsing::{step_u32, StringsBlock, StructsBlock, UnalignedParser};
use crate::properties::{node_usize_prop, usize_prop, Property};
use crate::util::{be_u32, str_eq};
use crate::FdtError;

verus! {

/// The `#address-cells` and `#size-cells` properties: how many `<u32>` cells
/// encode the address and the size in a child node's `reg` property.  If
/// missing, a client program should assume a default value of 2 for
/// `#address-cells`, and a value of 1 for `#size-cells`.
#[derive(Debug, Clone, Copy, PartialEq, Eq)]
pub struct CellSizes {
    pub address_cells: usize,
    pub size_cells: usize,
}

/// Scanning a node's properties for the two cell counts; each is read from
/// the first four bytes of its value, and a later occurrence overrides an
/// earlier one.
pub open spec fn scan_cells(s: Seq<u8>, strings: Seq<u8>, ac: Option<usize>, sc: Option<usize>) -> Result<(Option<usize>, Option<usize>), FdtError>
    decreases s.len(),
{
    let (r, s2) = prop_step(s, strings);
    match r {
        Err(e) => Err(e),
        Ok(None) => Ok((ac, sc)),
        Ok(Some(p)) => {
            proof {
                lemma_prop_step_shrinks(s, strings);
            }
            if p.0 == "#address-cells".spec_bytes() {
                match step_u32(p.1).0 {
                    Err(e) => Err(e),
                    Ok(v) => scan_cells(s2, strings, Some(v as usize), sc),
                }
            } else if p.0 == "#size-cells".spec_bytes() {
                match step_u32(p.1).0 {
                    Err(e) => Err(e),
                    Ok(v) => scan_cells(s2, strings, ac, Some(v as usize)),
                }
            } else {
                scan_cells(s2, strings, ac, sc)
            }
        },
    }
}

/// The properties at the front of `s`, in order, up to the last one or the
/// first error.
pub open spec fn prop_list(s: Seq<u8>, strings: Seq<u8>) -> Seq<(Seq<u8>, Seq<u8>)>
    decreases s.len(),
{
    let (r, s2) = prop_step(s, strings);
    match r {
        Ok(Some(p)) => {
            proof {
                lemma_prop_step_shrinks(s, strings);
            }
            seq![p] + prop_list(s2, strings)
        },
        _ => Seq::empty(),
    }
}

/// The property at `i` is the last of `props` named `name`.
pub open spec fn is_last_named(props: Seq<(Seq<u8>, Seq<u8>)>, name: Seq<u8>, i: int) -> bool {
    &&& 0 <= i < props.len()
    &&& props[i].0 == name
    &&& forall|j: int| i < j < props.len() ==> props[j].0 != name
}

/// `v` is the count that `props` gives for `name`: that of the last property
/// so named, read from the first four bytes of its value, or `dflt` when no
/// property is so named.
pub open spec fn count_from(props: Seq<(Seq<u8>, Seq<u8>)>, name: Seq<u8>, dflt: Option<usize>, v: Option<usize>) -> bool {
    ||| exists|i: int|
        #![trigger props[i]]
        is_last_named(props, name, i) && props[i].1.len() >= 4 && v == Some(be_u32(props[i].1) as usize)
    ||| (forall|i: int| 0 <= i < props.len() ==> #[trigger] props[i].0 != name) && v == dflt
}

/// The count that a property list gives, from the count that its tail gives.
proof fn lemma_count_from_cons(
    p: (Seq<u8>, Seq<u8>),
    props2: Seq<(Seq<u8>, Seq<u8>)>,
    name: Seq<u8>,
    d: Option<usize>,
    d2: Option<usize>,
    v: Option<usize>,
)
    requires
        count_from(props2, name, d2, v),
        p.0 == name ==> p.1.len() >= 4 && d2 == Some(be_u32(p.1) as usize),
        p.0 != name ==> d2 == d,
    ensures
        count_from(seq![p] + props2, name, d, v),
{
    let props = seq![p] + props2;
    assert forall|j: int| 0 <= j < props2.len() implies #[trigger] props[j + 1] == props2[j] by {}
    if exists|i: int| #![trigger props2[i]] is_last_named(props2, name, i) && props2[i].1.len() >= 4 && v == Some(be_u32(props2[i].1) as usize) {
        let i = choose|i: int| #![trigger props2[i]] is_last_named(props2, name, i) && props2[i].1.len() >= 4 && v == Some(be_u32(props2[i].1) as usize);
        assert(props[i + 1] == props2[i]);
        assert(is_last_named(props, name, i + 1)) by {
            assert forall|j: int| i + 1 < j < props.len() implies props[j].0 != name by {
                assert(props[j] == props2[j - 1]);
            }
        }
    } else if p.0 == name {
        assert(props[0] == p);
        assert(is_last_named(props, name, 0)) by {
            assert forall|j: int| 0 < j < props.len() implies props[j].0 != name by {
                assert(props[j] == props2[j - 1]);
            }
        }
    } else {
        assert forall|i: int| 0 <= i < props.len() implies #[trigger] props[i].0 != name by {
            if i > 0 {
                assert(props[i] == props2[i - 1]);
            }
        }
    }
}

proof fn lemma_scan_cells(s: Seq<u8>, strings: Seq<u8>, ac: Option<usize>, sc: Option<usize>)
    ensures
        scan_cells(s, strings, ac, sc) matches Ok((a, b)) ==> count_from(prop_list(s, strings), "#address-cells".spec_bytes(), ac, a)
            && count_from(prop_list(s, strings), "#size-cells".spec_bytes(), sc, b),
    decreases s.len(),
{
    reveal_strlit("#address-cells");
    reveal_strlit("#size-cells");
    let an = "#address-cells".spec_bytes();
    let sn = "#size-cells".spec_bytes();
    assert(an.len() != sn.len()) by {
        assert(is_ascii("#address-cells"));
        assert(is_ascii("#size-cells"));
        is_ascii_spec_bytes("#address-cells");
        is_ascii_spec_bytes("#size-cells");
    }
    let (r, s2) = prop_step(s, strings);
    lemma_prop_step_shrinks(s, strings);
    if let Ok(Some(p)) = r {
        let props = prop_list(s, strings);
        let props2 = prop_list(s2, strings);
        assert(props == seq![p] + props2);
        assert(props[0] == p);
        assert forall|j: int| 0 <= j < props2.len() implies #[trigger] props[j + 1] == props2[j] by {}
        let (ac2, sc2) = if p.0 == an && p.1.len() >= 4 {
            (Some(be_u32(p.1) as usize), sc)
        } else if p.0 == sn && p.1.len() >= 4 {
            (ac, Some(be_u32(p.1) as usize))
        } else {
            (ac, sc)
        };
        lemma_scan_cells(s2, strings, ac2, sc2);
        if let Ok((a, b)) = scan_cells(s, strings, ac, sc) {
            assert(scan_cells(s, strings, ac, sc) == scan_cells(s2, strings, ac2, sc2));
            lemma_count_from_cons(p, props2, an, ac, ac2, a);
            lemma_count_from_cons(p, props2, sn, sc, sc2, b);
        }
    } else {
        assert(prop_list(s, strings) =~= Seq::<(Seq<u8>, Seq<u8>)>::empty());
    }
}

/// A node's cell counts are read from its properties: `#address-cells` from
/// the first four bytes of the last property so named, `#size-cells` from
/// the last property so named; when one of the two is missing the node has
/// no cell counts of its own.
pub proof fn law_cell_sizes_from_properties(this: Seq<u8>, strings: Seq<u8>)
    ensures
        spec_cell_sizes(this, strings) matches Ok(Some(cs)) ==> (node_props_start(this) matches Ok(s) && count_from(
            prop_list(s, strings),
            "#address-cells".spec_bytes(),
            None,
            Some(cs.address_cells),
        ) && count_from(prop_list(s, strings), "#size-cells".spec_bytes(), None, Some(cs.size_cells))),
        spec_cell_sizes(this, strings) == Ok::<Option<CellSizes>, FdtError>(None) ==> (node_props_start(this) matches Ok(s)
            && ((forall|i: int| 0 <= i < prop_list(s, strings).len() ==> #[trigger] prop_list(s, strings)[i].0
            != "#address-cells".spec_bytes()) || (forall|i: int| 0 <= i < prop_list(s, strings).len()
            ==> #[trigger] prop_list(s, strings)[i].0 != "#size-cells".spec_bytes()))),
{
    if let Ok(s) = node_props_start(this) {
        lemma_scan_cells(s, strings, None, None);
    }
}

/// The cell counts of `node`, when it has both properties.
pub open spec fn spec_cell_sizes(this: Seq<u8>, strings: Seq<u8>) -> Result<Option<CellSizes>, FdtError> {
    match node_props_start(this) {
        Err(e) => Err(e),
        Ok(s) => match scan_cells(s, strings, None, None) {
            Err(e) => Err(e),
            Ok((Some(a), Some(b))) => Ok(Some(CellSizes { address_cells: a, size_cells: b })),
            Ok(_) => Ok(None),
        },
    }
}

impl<'a> Property<'a> for CellSizes {
    open spec fn parse_ensures(node: Node<'a>, r: Result<Option<Self>, FdtError>) -> bool {
        r == spec_cell_sizes(node.this_view(), node.strings_view())
    }

    fn parse(node: Node<'a>, _root: Root<'a>) -> (r: Result<Option<Self>, FdtError>) {
        let props = match node.properties() {
            Ok(p) => p,
            Err(e) => return Err(e),
        };
        let mut it = props.iter();
        let mut address_cells: Option<usize> = None;
        let mut size_cells: Option<usize> = None;
        loop
            invariant
                it.strings_view() == node.strings_view(),
                scan_cells(it@, it.strings_view(), address_cells, size_cells)
                    == scan_cells(props@, node.strings_view(), None, None),
                node_props_start(node.this_view()) == Ok::<Seq<u8>, FdtError>(props@),
            ensures
                scan_cells(props@, node.strings_view(), None, None)
                    == Ok::<(Option<usize>, Option<usize>), FdtError>((address_cells, size_cells)),
                node_props_start(node.this_view()) == Ok::<Seq<u8>, FdtError>(props@),
            decreases it@.len(),
        {
            proof {
                lemma_prop_step_shrinks(it@, it.strings_view());
            }
            match it.next() {
                None => break,
                Some(Err(e)) => return Err(e),
                Some(Ok(property)) => {
                    let value = property.value;
                    let mut parser = UnalignedParser::new(value, StringsBlock(&value[0..0]), StructsBlock(&value[0..0]));
                    if str_eq(property.name, "#address-cells") {
                        match parser.advance_u32_value() {
                            Ok(v) => address_cells = Some(v as usize),
                            Err(e) => return Err(e),
                        }
                    } else if str_eq(property.name, "#size-cells") {
                        match parser.advance_u32_value() {
                            Ok(v) => size_cells = Some(v as usize),
                            Err(e) => return Err(e),
                        }
                    }
                },
            }
        }
        match (address_cells, size_cells) {
            (Some(address_cells), Some(size_cells)) => Ok(Some(CellSizes { address_cells, size_cells })),
            _ => Ok(None),
        }
    }
}

impl Default for CellSizes {
    fn default() -> (r: Self)
        ensures
            r.address_cells == 2,
            r.size_cells == 1,
    {
        CellSizes { address_cells: 2, size_cells: 1 }
    }
}

/// The `#address-cells` property alone.
#[derive(Debug, Clone, Copy, PartialEq, Eq)]
pub struct AddressCells(pub usize);

impl<'a> Property<'a> for AddressCells {
    open spec fn parse_ensures(node: Node<'a>, r: Result<Option<Self>, FdtError>) -> bool {
        match usize_prop(node.this_view(), node.strings_view(), "#address-cells".spec_bytes()) {
            Err(e) => r == Err::<Option<Self>, FdtError>(e),
            Ok(None) => r == Ok::<Option<Self>, FdtError>(None),
            Ok(Some(v)) => r == Ok::<Option<Self>, FdtError>(Some(AddressCells(v))),
        }
    }

    fn parse(node: Node<'a>, _root: Root<'a>) -> (r: Result<Option<Self>, FdtError>) {
        match node_usize_prop(&node, "#address-cells") {
            Ok(Some(v)) => Ok(Some(AddressCells(v))),
            Ok(None) => Ok(None),
            Err(e) => Err(e),
        }
    }
}

impl Default for AddressCells {
    fn default() -> (r: Self)
        ensures
            r.0 == 2,
    {
        AddressCells(2)
    }
}

/// The `#size-cells` property alone.
#[derive(Debug, Clone, Copy, PartialEq, Eq)]
pub struct SizeCells(pub usize);

impl<'a> Property<'a> for SizeCells {
    open spec fn parse_ensures(node: Node<'a>, r: Result<Option<Self>, FdtError>) -> bool {
        match usize_prop(node.this_view(), node.strings_view(), "#size-cells".spec_bytes()) {
            Err(e) => r == Err::<Option<Self>, FdtError>(e),
            Ok(None) => r == Ok::<Option<Self>, FdtError>(None),
            Ok(Some(v)) => r == Ok::<Option<Self>, FdtError>(Some(SizeCells(v))),
        }
    }

    fn parse(node: Node<'a>, _root: Root<'a>) -> (r: Result<Option<Self>, FdtError>) {
        match node_usize_prop(&node, "#size-cells") {
            Ok(Some(v)) => Ok(Some(SizeCells(v))),
            Ok(None) => Ok(None),
            Err(e) => Err(e),
        }
    }
}

impl Default for SizeCells {
    fn default() -> (r: Self)
        ensures
            r.0 == 1,
    {
        SizeCells(1)
    }
}

} // verus!
