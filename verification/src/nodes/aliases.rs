use vstd::prelude::*;
use vstd::string::*;

use crate::nodes::root::{find_node_spec, node_opt_result};
use crate::nodes::{prop_step, AsNode, Node, NodePropertiesIter};
use crate::parsing::spec_parse_root;
use crate::properties::values::{str_value, value_as_str};
use crate::properties::{node_str_prop, opt_str_result, str_prop};
use crate::FdtError;

verus! {

/// The `/aliases` node: each property defines an alias, whose value is the
/// full path to a node in the devicetree.
#[derive(Clone, Copy)]
pub struct Aliases<'a> {
    pub(crate) node: Node<'a>,
}

/// Resolving `alias` through the aliases node with raw body `this`: the
/// node that the alias's path leads to.
pub open spec fn spec_resolve_alias(this: Seq<u8>, strings: Seq<u8>, structs: Seq<u8>, alias: Seq<u8>) -> Result<Option<(Seq<u8>, Option<Seq<u8>>)>, FdtError> {
    match str_prop(this, strings, alias) {
        Err(e) => Err(e),
        Ok(None) => Ok(None),
        Ok(Some(path)) => match spec_parse_root(structs) {
            Err(e) => Err(e),
            Ok(b) => find_node_spec(b, None, path),
        },
    }
}

impl<'a> Aliases<'a> {
    /// The aliases node.
    pub closed spec fn node_view(&self) -> Node<'a> {
        self.node
    }

    /// The aliases of the given node.
    pub fn new(node: Node<'a>) -> (r: Self)
        ensures
            r.node_view() == node,
    {
        Aliases { node }
    }

    /// Attempt to resolve an alias to a node name.
    pub fn resolve_name(self, alias: &str) -> (r: Result<Option<&'a str>, FdtError>)
        ensures
            opt_str_result(r, str_prop(self.node_view().this_view(), self.node_view().strings_view(), alias.spec_bytes())),
    {
        node_str_prop(&self.node, alias)
    }

    /// Attempt resolve an alias to the aliased-to node.
    pub fn resolve(self, alias: &str) -> (r: Result<Option<Node<'a>>, FdtError>)
        ensures
            node_opt_result(r, spec_resolve_alias(self.node_view().this_view(), self.node_view().strings_view(),
                self.node_view().structs_view(), alias.spec_bytes())),
            r matches Ok(Some(n)) ==> n.same_tree(self.node_view()),
    {
        let path = match self.resolve_name(alias) {
            Ok(Some(p)) => p,
            Ok(None) => return Ok(None),
            Err(e) => return Err(e),
        };
        let root = match self.node.make_root() {
            Ok(r) => r,
            Err(e) => return Err(e),
        };
        root.find_node(path)
    }

    /// Create an iterator over all of the available aliases
    pub fn iter(self) -> (r: Result<AllAliasesIter<'a>, FdtError>)
        ensures
            crate::nodes::node_props_start(self.node_view().this_view()) matches Ok(s) ==> r matches Ok(it) && it@ == s
                && it.strings_view() == self.node_view().strings_view(),
            crate::nodes::node_props_start(self.node_view().this_view()) matches Err(e) ==> r == Err::<AllAliasesIter, FdtError>(e),
    {
        match self.node.properties() {
            Ok(p) => Ok(AllAliasesIter { properties: p.iter() }),
            Err(e) => Err(e),
        }
    }
}

impl<'a> AsNode<'a> for Aliases<'a> {
    open spec fn node_of(&self) -> Node<'a> {
        self.node_view()
    }

    fn as_node(&self) -> (r: Node<'a>) {
        self.node
    }
}

/// Iterator over every alias: its name and the path it stands for.
pub struct AllAliasesIter<'a> {
    properties: NodePropertiesIter<'a>,
}

impl<'a> View for AllAliasesIter<'a> {
    type V = Seq<u8>;

    closed spec fn view(&self) -> Seq<u8> {
        self.properties@
    }
}

impl<'a> AllAliasesIter<'a> {
    /// The strings block.
    pub closed spec fn strings_view(&self) -> Seq<u8> {
        self.properties.strings_view()
    }

    /// The next alias and its path.
    pub fn next(&mut self) -> (r: Option<Result<(&'a str, &'a str), FdtError>>)
        ensures
            final(self)@ == prop_step(old(self)@, old(self).strings_view()).1,
            final(self).strings_view() == old(self).strings_view(),
            match prop_step(old(self)@, old(self).strings_view()).0 {
                Err(e) => r == Some(Err::<(&str, &str), FdtError>(e)),
                Ok(None) => r is None,
                Ok(Some(p)) => match str_value(p.1) {
                    None => r == Some(Err::<(&str, &str), FdtError>(FdtError::InvalidPropertyValue)),
                    Some(v) => r matches Some(Ok(x)) && x.0.spec_bytes() == p.0 && x.1.spec_bytes() == v,
                },
            },
    {
        match self.properties.next() {
            Some(Ok(prop)) => match value_as_str(prop.value) {
                Ok(v) => Some(Ok((prop.name, v))),
                Err(_) => Some(Err(FdtError::InvalidPropertyValue)),
            },
            Some(Err(e)) => Some(Err(e)),
            None => None,
        }
    }
}

} // verus!
