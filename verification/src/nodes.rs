use vstd::prelude::*;

/// The root node and the depth-first walk of the tree.
pub mod root;
/// The `/aliases` node.
pub mod aliases;
/// The `/chosen` node.
pub mod chosen;
/// The `/memory` and `/reserved-memory` nodes.
pub mod memory;
/// The `/cpus` node, its `cpu` children and the CPU topology.
pub mod cpus;
use vstd::string::*;
use vstd::utf8::*;

use crate::parsing::{
    eod, peek_token, spec_offset_at, spec_parse_node, step_cstr, step_raw_property, ParseError,
    StringsBlock, StructsBlock, UnalignedParser, FDT_BEGIN_NODE, FDT_END_NODE, FDT_PROP,
    lemma_step_raw_property_suffix, is_suffix,
};
use crate::properties::values::{InvalidPropertyValue, PropertyValue};
use crate::util::{
    contains_byte, find_byte, first_index, last_index, lemma_utf8_ascii_boundary,
    lemma_utf8_ascii_head, rfind_byte, slash_str, str_eq, str_from_utf8, bytes_eq,
};
use crate::FdtError;

verus! {

broadcast use vstd::seq::group_seq_axioms;

/// A node name, split into its component parts.
#[derive(Debug, Clone, Copy, PartialEq, Eq)]
pub struct NodeName<'a> {
    /// Node name.
    pub name: &'a str,
    /// Optional unit address specified after the `@`.
    pub unit_address: Option<&'a str>,
}

/// The bytes of an optional string.
pub open spec fn opt_bytes(s: Option<&str>) -> Option<Seq<u8>> {
    match s {
        Some(s) => Some(s.spec_bytes()),
        None => None,
    }
}

impl<'a> View for NodeName<'a> {
    type V = (Seq<u8>, Option<Seq<u8>>);

    open spec fn view(&self) -> (Seq<u8>, Option<Seq<u8>>) {
        (self.name.spec_bytes(), opt_bytes(self.unit_address))
    }
}

impl<'a> NodeName<'a> {
    /// Create a new [`NodeName`] from its raw parts.
    pub fn new(name: &'a str, unit_address: Option<&'a str>) -> (r: Self)
        ensures
            r.name == name,
            r.unit_address == unit_address,
    {
        NodeName { name, unit_address }
    }
}

/// What a searchable name asks for: a base name, whatever the unit address,
/// or a base name together with a unit address (or its absence).
pub enum NameQuery {
    Base(Seq<u8>),
    WithUnitAddress((Seq<u8>, Option<Seq<u8>>)),
}

/// Whether the node name `nn` answers the query `q`.
pub open spec fn query_matches(q: NameQuery, nn: (Seq<u8>, Option<Seq<u8>>)) -> bool {
    match q {
        NameQuery::Base(b) => nn.0 == b,
        NameQuery::WithUnitAddress(n) => n == nn,
    }
}

/// A node name that can searched with.
#[derive(Debug, Clone, Copy)]
pub enum SearchableNodeName<'a> {
    /// Node name without the unit address
    Base(&'a str),
    /// Node name with the unit address
    WithUnitAddress(NodeName<'a>),
}

impl<'a> View for SearchableNodeName<'a> {
    type V = NameQuery;

    open spec fn view(&self) -> NameQuery {
        match self {
            SearchableNodeName::Base(b) => NameQuery::Base(b.spec_bytes()),
            SearchableNodeName::WithUnitAddress(n) => NameQuery::WithUnitAddress(n@),
        }
    }
}

/// The query that a string stands for: `name@unit-address` when it holds an
/// `@` (split at the last one), else a base name.
pub open spec fn str_query(s: Seq<u8>) -> NameQuery {
    if contains_byte(s, 0x40) {
        NameQuery::WithUnitAddress(
            (s.subrange(0, last_index(s, 0x40)), Some(s.subrange(last_index(s, 0x40) + 1, s.len() as int))),
        )
    } else {
        NameQuery::Base(s)
    }
}

/// Convert from a type that can potentially represent a node name that is able
/// to be searched for during lookup operations.
pub trait IntoSearchableNodeName<'a>: Sized {
    /// The query that this value stands for.
    spec fn query(&self) -> NameQuery;

    #[allow(missing_docs)]
    fn into_searchable_node_name(self) -> (r: SearchableNodeName<'a>)
        ensures
            r@ == self.query(),
    ;
}

impl<'a> IntoSearchableNodeName<'a> for SearchableNodeName<'a> {
    open spec fn query(&self) -> NameQuery {
        self@
    }

    fn into_searchable_node_name(self) -> (r: SearchableNodeName<'a>) {
        self
    }
}

impl<'a> IntoSearchableNodeName<'a> for NodeName<'a> {
    open spec fn query(&self) -> NameQuery {
        NameQuery::WithUnitAddress(self@)
    }

    fn into_searchable_node_name(self) -> (r: SearchableNodeName<'a>) {
        SearchableNodeName::WithUnitAddress(self)
    }
}

impl<'a> IntoSearchableNodeName<'a> for &'a str {
    open spec fn query(&self) -> NameQuery {
        str_query(self.spec_bytes())
    }

    fn into_searchable_node_name(self) -> (r: SearchableNodeName<'a>) {
        let b = self.as_bytes();
        proof {
            vstd::utf8::encode_utf8_valid_utf8(self@);
        }
        match rfind_byte(b, 0x40) {
            Some(i) => {
                let len = b.len();
                let base = &b[0..i];
                let tail = &b[i..len];
                let unit = &b[i + 1..len];
                proof {
                    assert(b@ =~= base@ + tail@);
                    lemma_utf8_ascii_boundary(base@, tail@);
                    lemma_utf8_ascii_head(tail@);
                    assert(tail@.subrange(1, tail@.len() as int) =~= unit@);
                }
                match (str_from_utf8(base), str_from_utf8(unit)) {
                    (Some(n), Some(u)) => SearchableNodeName::WithUnitAddress(NodeName { name: n, unit_address: Some(u) }),
                    _ => {
                        proof {
                            assert(false);
                        }
                        SearchableNodeName::Base(self)
                    },
                }
            },
            None => SearchableNodeName::Base(self),
        }
    }
}

/// The name of the node whose raw body is `this`: the string that opens it,
/// split at its first `@`; the root's empty name reads as `/`.
pub open spec fn spec_node_name(this: Seq<u8>) -> Result<(Seq<u8>, Option<Seq<u8>>), FdtError> {
    match step_cstr(this).0 {
        Err(e) => Err(e),
        Ok(c) => if !valid_utf8(c) {
            Err(FdtError::ParseError(ParseError::InvalidCStrValue))
        } else if c.len() == 0 {
            Ok((seq![0x2fu8], None))
        } else if contains_byte(c, 0x40) {
            Ok((c.subrange(0, first_index(c, 0x40)), Some(c.subrange(first_index(c, 0x40) + 1, c.len() as int))))
        } else {
            Ok((c, None))
        },
    }
}

/// Where the properties of the node with raw body `this` start.
pub open spec fn node_props_start(this: Seq<u8>) -> Result<Seq<u8>, FdtError> {
    match step_cstr(this) {
        (Ok(_), r) => Ok(r),
        (Err(e), _) => Err(e),
    }
}

/// One step over a node's properties: the next property's name and value, or
/// `None` at the end of them.
pub open spec fn prop_step(s: Seq<u8>, strings: Seq<u8>) -> (Result<Option<(Seq<u8>, Seq<u8>)>, FdtError>, Seq<u8>) {
    match peek_token(s) {
        Ok(t) => if t == FDT_PROP {
            let (r, s2) = step_raw_property(s);
            match r {
                Ok(p) => match spec_offset_at(strings, p.0 as int) {
                    Ok(n) => (Ok(Some((n, p.1))), s2),
                    Err(e) => (Err(e), s2),
                },
                Err(e) => if e == eod() {
                    (Ok(None), s)
                } else {
                    (Err(e), s)
                },
            }
        } else if t == FDT_BEGIN_NODE || t == FDT_END_NODE {
            (Ok(None), s)
        } else {
            (Err(FdtError::ParseError(ParseError::UnexpectedToken)), s)
        },
        Err(e) => if e == eod() {
            (Ok(None), s)
        } else {
            (Err(e), s)
        },
    }
}

pub proof fn lemma_prop_step_shrinks(s: Seq<u8>, strings: Seq<u8>)
    ensures
        prop_step(s, strings).0 matches Ok(Some(_)) ==> prop_step(s, strings).1.len() < s.len(),
        is_suffix(prop_step(s, strings).1, s),
{
    lemma_step_raw_property_suffix(s);
    crate::parsing::lemma_suffix_refl(s);
}

/// The first property named `name` among the properties at the front of `s`.
pub open spec fn find_prop(s: Seq<u8>, strings: Seq<u8>, name: Seq<u8>) -> Result<Option<(Seq<u8>, Seq<u8>)>, FdtError>
    decreases s.len(),
{
    let (r, s2) = prop_step(s, strings);
    match r {
        Err(e) => Err(e),
        Ok(None) => Ok(None),
        Ok(Some(p)) => if p.0 == name {
            Ok(Some(p))
        } else {
            proof {
                lemma_prop_step_shrinks(s, strings);
            }
            find_prop(s2, strings, name)
        },
    }
}

/// The first property named `name` of the node with raw body `this`.
pub open spec fn node_find_prop(this: Seq<u8>, strings: Seq<u8>, name: Seq<u8>) -> Result<Option<(Seq<u8>, Seq<u8>)>, FdtError> {
    match node_props_start(this) {
        Err(e) => Err(e),
        Ok(s) => find_prop(s, strings, name),
    }
}

/// Skipping a node's properties on the way to its children: stops at a
/// `BEGIN_NODE`, at any other token but a property, and at the end of the data.
pub open spec fn skip_props_to_children(s: Seq<u8>) -> Result<Seq<u8>, FdtError>
    decreases s.len(),
{
    match peek_token(s) {
        Ok(t) => if t == FDT_PROP {
            let (r, s2) = step_raw_property(s);
            match r {
                Err(e) => Err(e),
                Ok(_) => {
                    proof {
                        lemma_step_raw_property_suffix(s);
                    }
                    skip_props_to_children(s2)
                },
            }
        } else {
            Ok(s)
        },
        Err(e) => if e == eod() {
            Ok(s)
        } else {
            Err(e)
        },
    }
}

/// Where the children of the node with raw body `this` start.
pub open spec fn node_children_start(this: Seq<u8>) -> Result<Seq<u8>, FdtError> {
    match node_props_start(this) {
        Err(e) => Err(e),
        Ok(s) => skip_props_to_children(s),
    }
}

/// One step over a node's children: the raw body of the next child, or
/// `None` after the last one.
pub open spec fn child_step(s: Seq<u8>) -> (Result<Option<Seq<u8>>, FdtError>, Seq<u8>) {
    match peek_token(s) {
        Ok(t) => if t == FDT_BEGIN_NODE {
            match spec_parse_node(s) {
                Ok(p) => (Ok(Some(p.0)), p.1),
                Err(e) => if e == eod() {
                    (Ok(None), s)
                } else {
                    (Err(e), s)
                },
            }
        } else if t == FDT_END_NODE {
            (Ok(None), s)
        } else {
            (Err(FdtError::ParseError(ParseError::UnexpectedToken)), s)
        },
        Err(e) => if e == eod() {
            (Ok(None), s)
        } else {
            (Err(e), s)
        },
    }
}

pub proof fn lemma_child_step_shrinks(s: Seq<u8>)
    ensures
        child_step(s).0 matches Ok(Some(_)) ==> child_step(s).1.len() < s.len(),
{
    crate::parsing::lemma_parse_node_suffix(s);
}

/// The raw body of the first child at the front of `s` whose name answers `q`.
pub open spec fn find_child(s: Seq<u8>, q: NameQuery) -> Result<Option<Seq<u8>>, FdtError>
    decreases s.len(),
{
    let (r, s2) = child_step(s);
    match r {
        Err(e) => Err(e),
        Ok(None) => Ok(None),
        Ok(Some(c)) => match spec_node_name(c) {
            Err(e) => Err(e),
            Ok(nn) => if query_matches(q, nn) {
                Ok(Some(c))
            } else {
                proof {
                    lemma_child_step_shrinks(s);
                }
                find_child(s2, q)
            },
        },
    }
}

/// The raw bodies of the children at the front of `s`, in order, up to the
/// last one or the first error.
pub open spec fn child_nodes(s: Seq<u8>) -> Seq<Seq<u8>>
    decreases s.len(),
{
    let (r, s2) = child_step(s);
    match r {
        Ok(Some(c)) => {
            proof {
                lemma_child_step_shrinks(s);
            }
            seq![c] + child_nodes(s2)
        },
        _ => Seq::empty(),
    }
}

/// Whether the name of the node with raw body `c` answers `q`.
pub open spec fn name_answers(c: Seq<u8>, q: NameQuery) -> bool {
    spec_node_name(c) matches Ok(nn) && query_matches(q, nn)
}

/// Finding a child by name gives the first child, in the order in which the
/// children are iterated, whose name answers the query, and nothing when no
/// child's name does.
pub proof fn law_find_child_first(s: Seq<u8>, q: NameQuery)
    ensures
        find_child(s, q) matches Ok(Some(c)) ==> exists|i: int|
            #![trigger child_nodes(s)[i]]
            0 <= i < child_nodes(s).len() && child_nodes(s)[i] == c && name_answers(c, q) && forall|j: int|
                0 <= j < i ==> !name_answers(#[trigger] child_nodes(s)[j], q),
        find_child(s, q) matches Ok(None) ==> forall|i: int|
            0 <= i < child_nodes(s).len() ==> !name_answers(#[trigger] child_nodes(s)[i], q),
    decreases s.len(),
{
    let (r, s2) = child_step(s);
    if let Ok(Some(c)) = r {
        lemma_child_step_shrinks(s);
        let cs = child_nodes(s);
        assert(cs == seq![c] + child_nodes(s2));
        assert(cs[0] == c);
        if spec_node_name(c) is Ok && !name_answers(c, q) {
            law_find_child_first(s2, q);
            assert(find_child(s, q) == find_child(s2, q));
            if let Ok(Some(x)) = find_child(s, q) {
                let i = choose|i: int|
                    #![trigger child_nodes(s2)[i]]
                    0 <= i < child_nodes(s2).len() && child_nodes(s2)[i] == x && name_answers(x, q) && forall|j: int|
                        0 <= j < i ==> !name_answers(#[trigger] child_nodes(s2)[j], q);
                assert(cs[i + 1] == child_nodes(s2)[i]);
                assert forall|j: int| 0 <= j < i + 1 implies !name_answers(#[trigger] cs[j], q) by {
                    if j > 0 {
                        assert(cs[j] == child_nodes(s2)[j - 1]);
                    }
                }
            }
            if let Ok(None) = find_child(s, q) {
                assert forall|i: int| 0 <= i < cs.len() implies !name_answers(#[trigger] cs[i], q) by {
                    if i > 0 {
                        assert(cs[i] == child_nodes(s2)[i - 1]);
                    }
                }
            }
        }
    }
}

/// A generic devicetree node.
#[derive(Clone, Copy)]
pub struct Node<'a> {
    this: &'a [u8],
    parent: Option<&'a [u8]>,
    strings: StringsBlock<'a>,
    structs: StructsBlock<'a>,
}

/// The bytes of an optional slice.
pub open spec fn opt_view(s: Option<&[u8]>) -> Option<Seq<u8>> {
    match s {
        Some(s) => Some(s@),
        None => None,
    }
}

impl<'a> Node<'a> {
    /// The node's raw body: from after its `BEGIN_NODE`.
    pub closed spec fn this_view(&self) -> Seq<u8> {
        self.this@
    }

    /// The raw body of the node's parent, where known.
    pub closed spec fn parent_view(&self) -> Option<Seq<u8>> {
        opt_view(self.parent)
    }

    /// The strings block of the devicetree.
    pub closed spec fn strings_view(&self) -> Seq<u8> {
        self.strings.0@
    }

    /// The structure block of the devicetree.
    pub closed spec fn structs_view(&self) -> Seq<u8> {
        self.structs.0@
    }

    /// Both nodes belong to the same devicetree.
    pub open spec fn same_tree(&self, other: Node<'a>) -> bool {
        self.strings_view() == other.strings_view() && self.structs_view() == other.structs_view()
    }

    /// A node from its raw parts.
    pub fn from_parts(this: &'a [u8], parent: Option<&'a [u8]>, strings: StringsBlock<'a>, structs: StructsBlock<'a>) -> (r: Self)
        ensures
            r.this_view() == this@,
            r.parent_view() == opt_view(parent),
            r.strings_view() == strings.0@,
            r.structs_view() == structs.0@,
    {
        Node { this, parent, strings, structs }
    }

    /// The raw body of the node.
    pub fn raw_body(&self) -> (r: &'a [u8])
        ensures
            r@ == self.this_view(),
    {
        self.this
    }

    /// The strings block.
    pub fn strings_block(&self) -> (r: StringsBlock<'a>)
        ensures
            r.0@ == self.strings_view(),
    {
        self.strings
    }

    /// The structure block.
    pub fn structs_block(&self) -> (r: StructsBlock<'a>)
        ensures
            r.0@ == self.structs_view(),
    {
        self.structs
    }

    /// The node itself; every access to a node reports errors as values.
    pub fn fallible(self) -> (r: Self)
        ensures
            r == self,
    {
        self
    }

    /// The node itself, seen through another handle; there is one way of
    /// reading nodes, so this is the node unchanged.
    pub fn alt(self) -> (r: Self)
        ensures
            r == self,
    {
        self
    }

    /// The name of this node along with the optional unit address.
    pub fn name(&self) -> (r: Result<NodeName<'a>, FdtError>)
        ensures
            spec_node_name(self.this_view()) matches Ok(n) ==> r matches Ok(x) && x@ == n,
            spec_node_name(self.this_view()) matches Err(e) ==> r == Err::<NodeName, FdtError>(e),
    {
        let mut parser = UnalignedParser::new(self.this, self.strings, self.structs);
        let c = match parser.advance_cstr() {
            Ok(c) => c,
            Err(e) => return Err(e),
        };
        let whole = match str_from_utf8(c) {
            Some(s) => s,
            None => return Err(FdtError::ParseError(ParseError::InvalidCStrValue)),
        };
        if c.len() == 0 {
            return Ok(NodeName { name: slash_str(), unit_address: None });
        }
        match find_byte(c, 0x40) {
            Some(i) => {
                let len = c.len();
                let base = &c[0..i];
                let tail = &c[i..len];
                let unit = &c[i + 1..len];
                proof {
                    assert(c@ =~= base@ + tail@);
                    lemma_utf8_ascii_boundary(base@, tail@);
                    lemma_utf8_ascii_head(tail@);
                    assert(tail@.subrange(1, tail@.len() as int) =~= unit@);
                }
                match (str_from_utf8(base), str_from_utf8(unit)) {
                    (Some(n), Some(u)) => Ok(NodeName { name: n, unit_address: Some(u) }),
                    _ => {
                        proof {
                            assert(false);
                        }
                        Err(FdtError::ParseError(ParseError::InvalidCStrValue))
                    },
                }
            },
            None => Ok(NodeName { name: whole, unit_address: None }),
        }
    }

    /// Returns [`NodeProperties`] which allows searching and iterating over
    /// this node's properties.
    pub fn properties(&self) -> (r: Result<NodeProperties<'a>, FdtError>)
        ensures
            node_props_start(self.this_view()) matches Ok(s) ==> r matches Ok(p) && p@ == s
                && p.strings_view() == self.strings_view() && p.structs_view() == self.structs_view(),
            node_props_start(self.this_view()) matches Err(e) ==> r == Err::<NodeProperties, FdtError>(e),
    {
        let mut parser = UnalignedParser::new(self.this, self.strings, self.structs);
        match parser.advance_cstr() {
            Ok(_) => Ok(NodeProperties { data: parser.data(), strings: self.strings, structs: self.structs }),
            Err(e) => Err(e),
        }
    }

    /// Attempt to find the property with the given name and extract the raw
    /// name and value.
    pub fn raw_property(&self, name: &str) -> (r: Result<Option<NodeProperty<'a>>, FdtError>)
        ensures
            prop_result(r, node_find_prop(self.this_view(), self.strings_view(), name.spec_bytes())),
    {
        match self.properties() {
            Ok(p) => p.find(name),
            Err(e) => Err(e),
        }
    }

    /// Returns [`NodeChildren`] which allows searching and iterating over this
    /// node's children.
    pub fn children(&self) -> (r: Result<NodeChildren<'a>, FdtError>)
        ensures
            node_children_start(self.this_view()) matches Ok(s) ==> r matches Ok(c) && c@ == s
                && c.parent_view() == self.this_view()
                && c.strings_view() == self.strings_view() && c.structs_view() == self.structs_view(),
            node_children_start(self.this_view()) matches Err(e) ==> r == Err::<NodeChildren, FdtError>(e),
    {
        let mut parser = UnalignedParser::new(self.this, self.strings, self.structs);
        match parser.advance_cstr() {
            Ok(_) => {},
            Err(e) => return Err(e),
        }
        loop
            invariant
                node_children_start(self.this_view()) == skip_props_to_children(parser@),
                parser.strings_view() == self.strings_view(),
                parser.structs_view() == self.structs_view(),
            ensures
                node_children_start(self.this_view()) == Ok::<Seq<u8>, FdtError>(parser@),
                parser.strings_view() == self.strings_view(),
                parser.structs_view() == self.structs_view(),
            decreases parser@.len(),
        {
            let ghost before = parser@;
            match parser.peek_token_value() {
                Ok(t) => if t == FDT_PROP {
                    match parser.parse_raw_property() {
                        Ok(_) => {},
                        Err(e) => return Err(e),
                    }
                    proof {
                        lemma_step_raw_property_suffix(before);
                    }
                } else {
                    break;
                },
                Err(e) => match e {
                    FdtError::ParseError(ParseError::UnexpectedEndOfData) => break,
                    _ => return Err(e),
                },
            }
        }
        Ok(NodeChildren { data: parser.data(), parent: self.this, strings: self.strings, structs: self.structs })
    }

    /// Attempt to find a child of the current [`Node`] with the given name.
    pub fn child<N: IntoSearchableNodeName<'a>>(&self, name: N) -> (r: Result<Option<Node<'a>>, FdtError>)
        ensures
            match node_children_start(self.this_view()) {
                Err(e) => r == Err::<Option<Node>, FdtError>(e),
                Ok(s) => child_result(r, find_child(s, name.query()), self.this_view())
                    && (r matches Ok(Some(n)) ==> n.same_tree(*self)),
            },
    {
        match self.children() {
            Ok(c) => c.find(name),
            Err(e) => Err(e),
        }
    }

    /// Attempt to retrieve the parent for this node.
    pub fn parent(&self) -> (r: Option<Self>)
        ensures
            self.parent_view() is None ==> r is None,
            self.parent_view() matches Some(p) ==> r matches Some(n) && n.this_view() == p && n.parent_view() is None
                && n.same_tree(*self),
    {
        match self.parent {
            Some(p) => Some(Node { this: p, parent: None, strings: self.strings, structs: self.structs }),
            None => None,
        }
    }
}

/// `r` is the exec form of the property result `s`.
pub open spec fn prop_result(r: Result<Option<NodeProperty>, FdtError>, s: Result<Option<(Seq<u8>, Seq<u8>)>, FdtError>) -> bool {
    match s {
        Err(e) => r == Err::<Option<NodeProperty>, FdtError>(e),
        Ok(None) => r == Ok::<Option<NodeProperty>, FdtError>(None),
        Ok(Some(p)) => r matches Ok(Some(x)) && x@ == p,
    }
}

/// `r` is the exec form of the child result `s`, the child's parent being `parent`.
pub open spec fn child_result(r: Result<Option<Node>, FdtError>, s: Result<Option<Seq<u8>>, FdtError>, parent: Seq<u8>) -> bool {
    match s {
        Err(e) => r == Err::<Option<Node>, FdtError>(e),
        Ok(None) => r == Ok::<Option<Node>, FdtError>(None),
        Ok(Some(c)) => r matches Ok(Some(n)) && n.this_view() == c && n.parent_view() == Some(parent),
    }
}

/// Generic node property.
#[derive(Debug, Clone, Copy, PartialEq, Eq, PartialOrd, Ord)]
pub struct NodeProperty<'a> {
    /// Property name.
    pub name: &'a str,
    /// Raw property value.
    pub value: &'a [u8],
}

impl<'a> View for NodeProperty<'a> {
    type V = (Seq<u8>, Seq<u8>);

    open spec fn view(&self) -> (Seq<u8>, Seq<u8>) {
        (self.name.spec_bytes(), self.value@)
    }
}

impl<'a> NodeProperty<'a> {
    /// A property from its name and raw value.
    pub fn new(name: &'a str, value: &'a [u8]) -> (r: Self)
        ensures
            r.name == name,
            r.value == value,
    {
        NodeProperty { name, value }
    }

    /// The property's name.
    pub fn name(&self) -> (r: &'a str)
        ensures
            r == self.name,
    {
        self.name
    }

    /// The property's raw value.
    pub fn value(&self) -> (r: &'a [u8])
        ensures
            r == self.value,
    {
        self.value
    }

    /// Attempt to convert this property's value to the specified
    /// [`PropertyValue`] type.
    pub fn as_value<V: PropertyValue<'a>>(&self) -> (r: Result<V, InvalidPropertyValue>)
        ensures
            V::value_ensures(self.value@, r),
    {
        V::parse(self.value)
    }
}

/// Allows for searching and iterating over all of the properties of a given
/// [`Node`].
#[derive(Clone, Copy)]
pub struct NodeProperties<'a> {
    data: &'a [u8],
    strings: StringsBlock<'a>,
    structs: StructsBlock<'a>,
}

impl<'a> View for NodeProperties<'a> {
    type V = Seq<u8>;

    /// The data from the next property on.
    closed spec fn view(&self) -> Seq<u8> {
        self.data@
    }
}

impl<'a> NodeProperties<'a> {
    /// The strings block.
    pub closed spec fn strings_view(&self) -> Seq<u8> {
        self.strings.0@
    }

    /// The structure block.
    pub closed spec fn structs_view(&self) -> Seq<u8> {
        self.structs.0@
    }

    /// Create an iterator over the properties in the [`Node`].
    pub fn iter(self) -> (r: NodePropertiesIter<'a>)
        ensures
            r@ == self@,
            r.strings_view() == self.strings_view(),
    {
        NodePropertiesIter { properties: self }
    }

    /// The next property, or `None` after the last one.
    pub fn advance(&mut self) -> (r: Result<Option<NodeProperty<'a>>, FdtError>)
        ensures
            prop_result(r, prop_step(old(self)@, old(self).strings_view()).0),
            final(self)@ == prop_step(old(self)@, old(self).strings_view()).1,
            final(self).strings_view() == old(self).strings_view(),
            final(self).structs_view() == old(self).structs_view(),
    {
        let mut parser = UnalignedParser::new(self.data, self.strings, self.structs);
        match parser.peek_token_value() {
            Ok(t) => if t == FDT_PROP {
            } else if t == FDT_BEGIN_NODE || t == FDT_END_NODE {
                return Ok(None);
            } else {
                return Err(FdtError::ParseError(ParseError::UnexpectedToken));
            },
            Err(e) => match e {
                FdtError::ParseError(ParseError::UnexpectedEndOfData) => return Ok(None),
                _ => return Err(e),
            },
        }
        match parser.parse_raw_property() {
            Ok((name_offset, data)) => {
                self.data = parser.data();
                match self.strings.offset_at(name_offset) {
                    Ok(name) => Ok(Some(NodeProperty { name, value: data })),
                    Err(e) => Err(e),
                }
            },
            Err(e) => match e {
                FdtError::ParseError(ParseError::UnexpectedEndOfData) => Ok(None),
                _ => Err(e),
            },
        }
    }

    /// Attempt to find a property with the provided name.
    pub fn find(&self, name: &str) -> (r: Result<Option<NodeProperty<'a>>, FdtError>)
        ensures
            prop_result(r, find_prop(self@, self.strings_view(), name.spec_bytes())),
    {
        let mut it = *self;
        loop
            invariant
                find_prop(it@, it.strings_view(), name.spec_bytes()) == find_prop(self@, self.strings_view(), name.spec_bytes()),
                it.strings_view() == self.strings_view(),
                it.structs_view() == self.structs_view(),
            decreases it@.len(),
        {
            let ghost before = it@;
            proof {
                lemma_prop_step_shrinks(before, it.strings_view());
            }
            match it.advance() {
                Err(e) => return Err(e),
                Ok(None) => return Ok(None),
                Ok(Some(p)) => {
                    if str_eq(p.name, name) {
                        return Ok(Some(p));
                    }
                },
            }
        }
    }
}

/// See [`NodeProperties::iter`].
#[derive(Clone, Copy)]
pub struct NodePropertiesIter<'a> {
    properties: NodeProperties<'a>,
}

impl<'a> View for NodePropertiesIter<'a> {
    type V = Seq<u8>;

    closed spec fn view(&self) -> Seq<u8> {
        self.properties@
    }
}

impl<'a> NodePropertiesIter<'a> {
    /// The strings block.
    pub closed spec fn strings_view(&self) -> Seq<u8> {
        self.properties.strings_view()
    }

    /// How many bytes are left to read.
    pub(crate) fn remaining_len(&self) -> (r: usize)
        ensures
            r == self@.len(),
    {
        self.properties.data.len()
    }

    /// The next property; `None` after the last one.
    pub fn next(&mut self) -> (r: Option<Result<NodeProperty<'a>, FdtError>>)
        ensures
            match prop_step(old(self)@, old(self).strings_view()).0 {
                Err(e) => r == Some(Err::<NodeProperty, FdtError>(e)),
                Ok(None) => r is None,
                Ok(Some(p)) => r matches Some(Ok(x)) && x@ == p,
            },
            final(self)@ == prop_step(old(self)@, old(self).strings_view()).1,
            final(self).strings_view() == old(self).strings_view(),
    {
        match self.properties.advance() {
            Ok(Some(p)) => Some(Ok(p)),
            Ok(None) => None,
            Err(e) => Some(Err(e)),
        }
    }
}

/// Allows for searching and iterating over the children of a given [`Node`].
#[derive(Clone, Copy)]
pub struct NodeChildren<'a> {
    data: &'a [u8],
    parent: &'a [u8],
    strings: StringsBlock<'a>,
    structs: StructsBlock<'a>,
}

impl<'a> View for NodeChildren<'a> {
    type V = Seq<u8>;

    /// The data from the next child on.
    closed spec fn view(&self) -> Seq<u8> {
        self.data@
    }
}

impl<'a> NodeChildren<'a> {
    /// The raw body of the parent node.
    pub closed spec fn parent_view(&self) -> Seq<u8> {
        self.parent@
    }

    /// The strings block.
    pub closed spec fn strings_view(&self) -> Seq<u8> {
        self.strings.0@
    }

    /// The structure block.
    pub closed spec fn structs_view(&self) -> Seq<u8> {
        self.structs.0@
    }

    /// Create an iterator over the [`Node`]'s children.
    pub fn iter(&self) -> (r: NodeChildrenIter<'a>)
        ensures
            r@ == self@,
            r.parent_view() == self.parent_view(),
            r.strings_view() == self.strings_view(),
            r.structs_view() == self.structs_view(),
    {
        NodeChildrenIter { children: *self }
    }

    /// The next child, or `None` after the last one.
    pub fn advance(&mut self) -> (r: Result<Option<Node<'a>>, FdtError>)
        ensures
            child_result(r, child_step(old(self)@).0, old(self).parent_view()),
            r matches Ok(Some(n)) ==> n.strings_view() == old(self).strings_view() && n.structs_view() == old(self).structs_view(),
            final(self)@ == child_step(old(self)@).1,
            final(self).parent_view() == old(self).parent_view(),
            final(self).strings_view() == old(self).strings_view(),
            final(self).structs_view() == old(self).structs_view(),
    {
        let mut parser = UnalignedParser::new(self.data, self.strings, self.structs);
        match parser.peek_token_value() {
            Ok(t) => if t == FDT_BEGIN_NODE {
            } else if t == FDT_END_NODE {
                return Ok(None);
            } else {
                return Err(FdtError::ParseError(ParseError::UnexpectedToken));
            },
            Err(e) => match e {
                FdtError::ParseError(ParseError::UnexpectedEndOfData) => return Ok(None),
                _ => return Err(e),
            },
        }
        match parser.parse_node_raw() {
            Ok(this) => {
                self.data = parser.data();
                Ok(Some(Node { this, parent: Some(self.parent), strings: self.strings, structs: self.structs }))
            },
            Err(e) => match e {
                FdtError::ParseError(ParseError::UnexpectedEndOfData) => Ok(None),
                _ => Err(e),
            },
        }
    }

    /// Attempt to find the first child matching the provided name, see
    /// [`IntoSearchableNodeName`] for more details. If the name lacks a unit
    /// address, unit addresses on the children will be ignored when checking if
    /// the name matches.
    pub fn find<'n, N: IntoSearchableNodeName<'n>>(&self, name: N) -> (r: Result<Option<Node<'a>>, FdtError>)
        ensures
            child_result(r, find_child(self@, name.query()), self.parent_view()),
            r matches Ok(Some(n)) ==> n.strings_view() == self.strings_view() && n.structs_view() == self.structs_view(),
    {
        let q = name.into_searchable_node_name();
        let mut it = *self;
        loop
            invariant
                find_child(it@, q@) == find_child(self@, q@),
                q@ == name.query(),
                it.parent_view() == self.parent_view(),
                it.strings_view() == self.strings_view(),
                it.structs_view() == self.structs_view(),
            decreases it@.len(),
        {
            proof {
                lemma_child_step_shrinks(it@);
            }
            match it.advance() {
                Err(e) => return Err(e),
                Ok(None) => return Ok(None),
                Ok(Some(node)) => {
                    match node.name() {
                        Err(e) => return Err(e),
                        Ok(nn) => {
                            if name_matches(q, nn) {
                                return Ok(Some(node));
                            }
                        },
                    }
                },
            }
        }
    }
}

/// Whether the node name `nn` answers the searchable name `q`.
pub fn name_matches(q: SearchableNodeName, nn: NodeName) -> (r: bool)
    ensures
        r == query_matches(q@, nn@),
{
    match q {
        SearchableNodeName::Base(b) => str_eq(nn.name, b),
        SearchableNodeName::WithUnitAddress(snn) => {
            if !str_eq(snn.name, nn.name) {
                return false;
            }
            match (snn.unit_address, nn.unit_address) {
                (Some(a), Some(b)) => str_eq(a, b),
                (None, None) => true,
                _ => false,
            }
        },
    }
}

/// See [`NodeChildren::iter`].
#[derive(Clone, Copy)]
pub struct NodeChildrenIter<'a> {
    children: NodeChildren<'a>,
}

impl<'a> View for NodeChildrenIter<'a> {
    type V = Seq<u8>;

    closed spec fn view(&self) -> Seq<u8> {
        self.children@
    }
}

impl<'a> NodeChildrenIter<'a> {
    /// The raw body of the parent node.
    pub closed spec fn parent_view(&self) -> Seq<u8> {
        self.children.parent_view()
    }

    /// The strings block.
    pub closed spec fn strings_view(&self) -> Seq<u8> {
        self.children.strings_view()
    }

    /// The structure block.
    pub closed spec fn structs_view(&self) -> Seq<u8> {
        self.children.structs_view()
    }

    /// The next child; `None` after the last one.
    pub fn next(&mut self) -> (r: Option<Result<Node<'a>, FdtError>>)
        ensures
            match child_step(old(self)@).0 {
                Err(e) => r == Some(Err::<Node, FdtError>(e)),
                Ok(None) => r is None,
                Ok(Some(c)) => r matches Some(Ok(n)) && n.this_view() == c && n.parent_view() == Some(old(self).parent_view())
                    && n.strings_view() == old(self).strings_view() && n.structs_view() == old(self).structs_view(),
            },
            final(self)@ == child_step(old(self)@).1,
            final(self).parent_view() == old(self).parent_view(),
            final(self).strings_view() == old(self).strings_view(),
            final(self).structs_view() == old(self).structs_view(),
    {
        match self.children.advance() {
            Ok(Some(n)) => Some(Ok(n)),
            Ok(None) => None,
            Err(e) => Some(Err(e)),
        }
    }
}

/// Trait for extracting a [`Node`] from a wrapper type.
pub trait AsNode<'a> {
    /// The node that the wrapper stands for.
    spec fn node_of(&self) -> Node<'a>;

    #[allow(missing_docs)]
    fn as_node(&self) -> (r: Node<'a>)
        ensures
            r == self.node_of(),
    ;
}

impl<'a> AsNode<'a> for Node<'a> {
    open spec fn node_of(&self) -> Node<'a> {
        *self
    }

    fn as_node(&self) -> (r: Node<'a>) {
        *self
    }
}

/// Whether the child with raw body `c` passes a name filter: its name is
/// `name` (when `exact`), or starts with it.
pub open spec fn name_passes(c: Seq<u8>, name: Seq<u8>, exact: bool) -> bool {
    match spec_node_name(c) {
        Ok(nn) => if exact {
            nn.0 == name
        } else {
            name.len() <= nn.0.len() && nn.0.subrange(0, name.len() as int) == name
        },
        Err(_) => false,
    }
}

/// The next child that passes the name filter; errors pass through.
pub open spec fn filtered_step(s: Seq<u8>, name: Seq<u8>, exact: bool) -> (Option<Result<Seq<u8>, FdtError>>, Seq<u8>)
    decreases s.len(),
{
    let (r, s2) = child_step(s);
    match r {
        Err(e) => (Some(Err(e)), s2),
        Ok(None) => (None, s2),
        Ok(Some(c)) => if name_passes(c, name, exact) {
            (Some(Ok(c)), s2)
        } else {
            proof {
                lemma_child_step_shrinks(s);
            }
            filtered_step(s2, name, exact)
        },
    }
}

impl<'a> NodeChildrenIter<'a> {
    /// The next child whose name is `name` (when `exact`) or starts with it;
    /// errors are handed out as they come.
    pub fn next_filtered(&mut self, name: &[u8], exact: bool) -> (r: Option<Result<Node<'a>, FdtError>>)
        ensures
            match filtered_step(old(self)@, name@, exact).0 {
                None => r is None,
                Some(Err(e)) => r == Some(Err::<Node, FdtError>(e)),
                Some(Ok(c)) => r matches Some(Ok(n)) && n.this_view() == c && n.parent_view() == Some(old(self).parent_view())
                    && n.strings_view() == old(self).strings_view() && n.structs_view() == old(self).structs_view(),
            },
            final(self)@ == filtered_step(old(self)@, name@, exact).1,
            final(self).parent_view() == old(self).parent_view(),
            final(self).strings_view() == old(self).strings_view(),
            final(self).structs_view() == old(self).structs_view(),
    {
        let ghost s0 = self@;
        loop
            invariant
                filtered_step(self@, name@, exact) == filtered_step(s0, name@, exact),
                s0 == old(self)@,
                self.parent_view() == old(self).parent_view(),
                self.strings_view() == old(self).strings_view(),
                self.structs_view() == old(self).structs_view(),
            decreases self@.len(),
        {
            proof {
                lemma_child_step_shrinks(self@);
            }
            match self.next() {
                None => return None,
                Some(Err(e)) => return Some(Err(e)),
                Some(Ok(node)) => {
                    let passes = match node.name() {
                        Ok(nn) => {
                            let b = nn.name.as_bytes();
                            if exact {
                                bytes_eq(b, name)
                            } else {
                                crate::util::bytes_starts_with(b, name)
                            }
                        },
                        Err(_) => false,
                    };
                    if passes {
                        return Some(Ok(node));
                    }
                },
            }
        }
    }
}

/// A node's name and unit address are the string that opens the node, cut
/// at its first `@`: the name holds no `@`, and name, `@` and unit address
/// give the string back; the root's empty string reads as `/`.
pub proof fn law_node_name_split(this: Seq<u8>)
    ensures
        spec_node_name(this) matches Ok(nn) ==> match nn.1 {
            Some(u) => step_cstr(this).0 == Ok::<Seq<u8>, FdtError>(nn.0 + seq![0x40u8] + u) && !contains_byte(nn.0, 0x40),
            None => (step_cstr(this).0 == Ok::<Seq<u8>, FdtError>(nn.0) && !contains_byte(nn.0, 0x40)) || (step_cstr(
                this,
            ).0 == Ok::<Seq<u8>, FdtError>(Seq::empty()) && nn.0 == seq![0x2fu8]),
        },
{
    if let Ok(c) = step_cstr(this).0 {
        if c.len() == 0 {
            assert(c =~= Seq::<u8>::empty());
        }
        if valid_utf8(c) && c.len() > 0 {
            crate::properties::values::law_split_step_rejoin(c, 0x40);
            let sp = crate::properties::values::split_step(c, 0x40);
            if contains_byte(c, 0x40) {
                assert(sp.0 == c.subrange(0, first_index(c, 0x40)));
            }
        }
    }
}

impl<'a> UnalignedParser<'a> {
    /// Parses the root node, which opens the structure block and is followed
    /// by its `END` token.
    pub fn parse_root(&mut self) -> (r: Result<Node<'a>, FdtError>)
        ensures
            crate::parsing::spec_parse_root(old(self)@) matches Ok(b) ==> r matches Ok(n) && n.this_view() == b
                && n.parent_view() is None && n.strings_view() == old(self).strings_view()
                && n.structs_view() == old(self).structs_view(),
            crate::parsing::spec_parse_root(old(self)@) matches Err(e) ==> r == Err::<Node, FdtError>(e),
    {
        let strings = self.strings();
        let structs = self.structs();
        match self.parse_root_raw() {
            Ok(this) => Ok(Node::from_parts(this, None, strings, structs)),
            Err(e) => Err(e),
        }
    }

    /// Parses the node that starts here, with its properties and children,
    /// up to and including its `END_NODE` token.
    pub fn parse_node(&mut self, parent: Option<&'a [u8]>) -> (r: Result<Node<'a>, FdtError>)
        ensures
            spec_parse_node(old(self)@) matches Ok(p) ==> r matches Ok(n) && n.this_view() == p.0
                && n.parent_view() == opt_view(parent) && final(self)@ == p.1
                && n.strings_view() == old(self).strings_view() && n.structs_view() == old(self).structs_view(),
            spec_parse_node(old(self)@) matches Err(e) ==> r == Err::<Node, FdtError>(e),
            final(self).strings_view() == old(self).strings_view(),
            final(self).structs_view() == old(self).structs_view(),
    {
        let strings = self.strings();
        let structs = self.structs();
        match self.parse_node_raw() {
            Ok(this) => Ok(Node::from_parts(this, parent, strings, structs)),
            Err(e) => Err(e),
        }
    }
}

/// The name as it is displayed: the name, then `@` and the unit address
/// when there is one.
pub open spec fn display_name(nn: (Seq<u8>, Option<Seq<u8>>)) -> Seq<char> {
    match nn.1 {
        Some(u) => decode_utf8(nn.0) + "@"@ + decode_utf8(u),
        None => decode_utf8(nn.0),
    }
}

impl<'a> NodeName<'a> {
    /// The name as it is displayed: the name, then `@` and the unit address
    /// when there is one.
    pub fn display(&self) -> (r: String)
        ensures
            r@ == display_name(self@),
    {
        broadcast use vstd::utf8::encode_utf8_decode_utf8;

        let mut out = String::from_str(self.name);
        match self.unit_address {
            Some(u) => {
                out.append("@");
                out.append(u);
            },
            None => {},
        }
        out
    }
}

/// Decoding UTF-8 bytes that start with an `@` gives an `@` followed by the
/// decoding of the rest.
proof fn lemma_decode_at_sign(d: Seq<u8>)
    requires
        valid_utf8(d),
        d.len() > 0,
        d[0] == 0x40,
    ensures
        valid_utf8(d.subrange(1, d.len() as int)),
        decode_utf8(d) == "@"@ + decode_utf8(d.subrange(1, d.len() as int)),
{
    reveal_strlit("@");
    let b: u8 = d[0];
    assert(b & 0x7f == 0x40) by (bit_vector)
        requires
            b == 0x40,
    ;
    assert(pop_first_scalar(d) == d.subrange(1, d.len() as int));
    assert((0x40u32 as char) == '@');
    assert(decode_utf8(d) =~= "@"@ + decode_utf8(d.subrange(1, d.len() as int)));
}

/// A node's name displays back as the name written in the devicetree: its
/// base name, then `@` and its unit address when it has one; the root's
/// empty name displays as `/`.
pub proof fn law_node_name_display(this: Seq<u8>)
    ensures
        spec_node_name(this) matches Ok(nn) ==> (step_cstr(this).0 matches Ok(c) ==> (c.len() > 0 ==> display_name(nn)
            == decode_utf8(c)) && (c.len() == 0 ==> display_name(nn) == "/"@)),
{
    if let Ok(nn) = spec_node_name(this) {
        if let Ok(c) = step_cstr(this).0 {
            if c.len() == 0 {
                reveal_strlit("/");
                let z: Seq<u8> = seq![0x2fu8];
                assert(pop_first_scalar(z) =~= Seq::<u8>::empty());
                let b: u8 = 0x2f;
                assert(b & 0x7f == 0x2f) by (bit_vector)
                    requires
                        b == 0x2f,
                ;
                assert((0x2fu32 as char) == '/');
                assert(valid_utf8(z)) by {
                    reveal_with_fuel(valid_utf8, 2);
                }
                assert(decode_utf8(z) =~= "/"@) by {
                    reveal_with_fuel(decode_utf8, 2);
                }
            } else if contains_byte(c, 0x40) {
                let i = first_index(c, 0x40);
                crate::util::lemma_first_index(c, 0x40);
                is_char_boundary_iff_not_is_continuation_byte(c, i);
                valid_utf8_split(c, i);
                decode_utf8_split(c, i);
                let d = c.subrange(i, c.len() as int);
                lemma_decode_at_sign(d);
                assert(d.subrange(1, d.len() as int) =~= c.subrange(i + 1, c.len() as int));
                assert(display_name(nn) =~= decode_utf8(c));
            }
        }
    }
}

/// A property found by name has that name.
pub proof fn law_find_prop_name(s: Seq<u8>, strings: Seq<u8>, name: Seq<u8>)
    ensures
        find_prop(s, strings, name) matches Ok(Some(p)) ==> p.0 == name,
    decreases s.len(),
{
    lemma_prop_step_shrinks(s, strings);
    if let Ok(Some(p)) = prop_step(s, strings).0 {
        if p.0 != name {
            law_find_prop_name(prop_step(s, strings).1, strings, name);
        }
    }
}

/// A child found by name answers the query, and its name can be read.
pub proof fn law_find_child_matches(s: Seq<u8>, q: NameQuery)
    ensures
        find_child(s, q) matches Ok(Some(c)) ==> spec_node_name(c) matches Ok(nn) && query_matches(q, nn),
    decreases s.len(),
{
    lemma_child_step_shrinks(s);
    if let Ok(Some(c)) = child_step(s).0 {
        if let Ok(nn) = spec_node_name(c) {
            if !query_matches(q, nn) {
                law_find_child_matches(child_step(s).1, q);
            }
        }
    }
}

} // verus!
