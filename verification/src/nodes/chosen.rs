use vstd::prelude::*;
use vstd::string::*;
use vstd::utf8::*;

use crate::nodes::aliases::spec_resolve_alias;
use crate::nodes::root::find_node_spec;
use crate::nodes::{lemma_prop_step_shrinks, node_props_start, prop_step, AsNode, Node};
use crate::parsing::{spec_parse_root, ParseError};
use crate::properties::values::{split_off, split_step};
use crate::properties::{node_str_prop, str_prop};
use crate::util::{contains_byte, find_byte, str_eq, str_from_utf8};
use crate::FdtError;

verus! {

broadcast use vstd::seq::group_seq_axioms;

/// The `/chosen` node: parameters chosen or specified by the system firmware
/// at run time.
#[derive(Clone, Copy)]
pub struct Chosen<'a> {
    pub(crate) node: Node<'a>,
}

/// Looking for `bootargs` among the properties at the front of `s`.
/// Properties that cannot be read but are stepped over are skipped; the
/// search ends at an error that does not move on.  The value is read without
/// its last byte and must be UTF-8.
pub open spec fn bootargs_scan(s: Seq<u8>, strings: Seq<u8>) -> Result<Option<Seq<u8>>, FdtError>
    decreases s.len(),
{
    let (r, s2) = prop_step(s, strings);
    proof {
        lemma_prop_step_shrinks(s, strings);
    }
    match r {
        Ok(None) => Ok(None),
        Err(_) => if s2.len() < s.len() {
            bootargs_scan(s2, strings)
        } else {
            Ok(None)
        },
        Ok(Some(p)) => if p.0 == "bootargs".spec_bytes() {
            if p.1.len() == 0 {
                Err(FdtError::ParseError(ParseError::InvalidCStrValue))
            } else if valid_utf8(p.1.drop_last()) {
                Ok(Some(p.1.drop_last()))
            } else {
                Err(FdtError::ParseError(ParseError::InvalidCStrValue))
            }
        } else {
            bootargs_scan(s2, strings)
        },
    }
}

/// The `bootargs` of the chosen node with raw body `this`.
pub open spec fn spec_bootargs(this: Seq<u8>, strings: Seq<u8>) -> Result<Option<Seq<u8>>, FdtError> {
    match node_props_start(this) {
        Err(e) => Err(e),
        Ok(s) => bootargs_scan(s, strings),
    }
}

/// A console path read from the property `name`: the part before the first
/// `:`, and what follows it.
pub open spec fn spec_io_path(this: Seq<u8>, strings: Seq<u8>, name: Seq<u8>) -> Result<Option<(Seq<u8>, Option<Seq<u8>>)>, FdtError> {
    match str_prop(this, strings, name) {
        Err(e) => Err(e),
        Ok(None) => Ok(None),
        Ok(Some(s)) => Ok(Some(split_step(s, 0x3a))),
    }
}

/// A console path is the property's string cut at its first `:`: the path
/// is what comes before, holding no `:`, and the parameters what comes
/// after; without a `:` the whole string is the path and there are no
/// parameters.
pub proof fn law_io_path_split(this: Seq<u8>, strings: Seq<u8>, name: Seq<u8>)
    ensures
        spec_io_path(this, strings, name) matches Ok(Some(pp)) ==> (str_prop(this, strings, name) matches Ok(Some(s))
            && !contains_byte(pp.0, 0x3a) && (pp.1 matches Some(q) ==> s == pp.0 + seq![0x3au8] + q) && (pp.1 is None
            ==> s == pp.0)),
        str_prop(this, strings, name) == Ok::<Option<Seq<u8>>, FdtError>(None) ==> spec_io_path(this, strings, name)
            == Ok::<Option<(Seq<u8>, Option<Seq<u8>>)>, FdtError>(None),
{
    if let Ok(Some(s)) = str_prop(this, strings, name) {
        crate::properties::values::law_split_step_rejoin(s, 0x3a);
    }
}

/// The console device named by the property `name`: looked up as a path when
/// it holds a `/`, and else, or when no node has that path, as an alias;
/// with the parameters that follow the path.
pub open spec fn spec_io(this: Seq<u8>, strings: Seq<u8>, structs: Seq<u8>, name: Seq<u8>) -> Result<Option<(Seq<u8>, Option<Seq<u8>>, Option<Seq<u8>>)>, FdtError> {
    match spec_io_path(this, strings, name) {
        Err(e) => Err(e),
        Ok(None) => Ok(None),
        Ok(Some(pp)) => match spec_parse_root(structs) {
            Err(e) => Err(e),
            Ok(b) => {
                let by_path = if contains_byte(pp.0, 0x2f) {
                    find_node_spec(b, None, pp.0)
                } else {
                    Ok(None)
                };
                match by_path {
                    Err(e) => Err(e),
                    Ok(Some(n)) => Ok(Some((n.0, n.1, pp.1))),
                    Ok(None) => match find_node_spec(b, None, "/aliases".spec_bytes()) {
                        Err(e) => Err(e),
                        Ok(None) => Ok(None),
                        Ok(Some(a)) => match spec_resolve_alias(a.0, strings, structs, pp.0) {
                            Err(e) => Err(e),
                            Ok(None) => Ok(None),
                            Ok(Some(n)) => Ok(Some((n.0, n.1, pp.1))),
                        },
                    },
                }
            },
        },
    }
}

/// The console device is looked up by path first and by alias second: a
/// path holding a `/` that names a node gives that node; a path without a
/// `/`, or one that names no node, is resolved through `/aliases`, and with no
/// `/aliases` node there is no device. The parameters after the `:` go along.
pub proof fn law_io_path_then_alias(this: Seq<u8>, strings: Seq<u8>, structs: Seq<u8>, name: Seq<u8>)
    ensures
        spec_io_path(this, strings, name) matches Ok(Some(pp)) ==> (spec_parse_root(structs) matches Ok(b) ==> {
            &&& contains_byte(pp.0, 0x2f) ==> (find_node_spec(b, None, pp.0) matches Ok(Some(n)) ==> spec_io(
                this,
                strings,
                structs,
                name,
            ) == Ok::<Option<(Seq<u8>, Option<Seq<u8>>, Option<Seq<u8>>)>, FdtError>(Some((n.0, n.1, pp.1))))
            &&& (!contains_byte(pp.0, 0x2f) || find_node_spec(b, None, pp.0) == Ok::<
                Option<(Seq<u8>, Option<Seq<u8>>)>,
                FdtError,
            >(None)) ==> spec_io(this, strings, structs, name) == match find_node_spec(b, None, "/aliases".spec_bytes()) {
                Err(e) => Err(e),
                Ok(None) => Ok(None),
                Ok(Some(a)) => match spec_resolve_alias(a.0, strings, structs, pp.0) {
                    Err(e) => Err(e),
                    Ok(None) => Ok(None),
                    Ok(Some(n)) => Ok(Some((n.0, n.1, pp.1))),
                },
            }
        }),
{
}

/// `r` is the exec form of the path `s`.
pub open spec fn io_path_result(r: Result<Option<StdInOutPath>, FdtError>, s: Result<Option<(Seq<u8>, Option<Seq<u8>>)>, FdtError>) -> bool {
    match s {
        Err(e) => r == Err::<Option<StdInOutPath>, FdtError>(e),
        Ok(None) => r == Ok::<Option<StdInOutPath>, FdtError>(None),
        Ok(Some(p)) => r matches Ok(Some(x)) && x@ == p,
    }
}

impl<'a> Chosen<'a> {
    /// The chosen node.
    pub closed spec fn node_view(&self) -> Node<'a> {
        self.node
    }

    /// The chosen node, given its node.
    pub fn new(node: Node<'a>) -> (r: Self)
        ensures
            r.node_view() == node,
    {
        Chosen { node }
    }

    /// A string that specifies the boot arguments for the client program.
    pub fn bootargs(self) -> (r: Result<Option<&'a str>, FdtError>)
        ensures
            match spec_bootargs(self.node_view().this_view(), self.node_view().strings_view()) {
                Err(e) => r == Err::<Option<&str>, FdtError>(e),
                Ok(None) => r == Ok::<Option<&str>, FdtError>(None),
                Ok(Some(b)) => r matches Ok(Some(s)) && s.spec_bytes() == b,
            },
    {
        let props = match self.node.properties() {
            Ok(p) => p,
            Err(e) => return Err(e),
        };
        let mut it = props.iter();
        loop
            invariant
                it.strings_view() == self.node_view().strings_view(),
                bootargs_scan(it@, it.strings_view()) == spec_bootargs(self.node_view().this_view(), self.node_view().strings_view()),
            decreases it@.len(),
        {
            let ghost before = it@;
            proof {
                lemma_prop_step_shrinks(before, it.strings_view());
            }
            let before_len = it.remaining_len();
            match it.next() {
                None => return Ok(None),
                Some(Err(_)) => {
                    if !(it.remaining_len() < before_len) {
                        return Ok(None);
                    }
                },
                Some(Ok(prop)) => {
                    if str_eq(prop.name, "bootargs") {
                        let v = prop.value;
                        let len = v.len();
                        if len == 0 {
                            return Err(FdtError::ParseError(ParseError::InvalidCStrValue));
                        }
                        assert(v@.subrange(0, len - 1) =~= v@.drop_last());
                        return match str_from_utf8(&v[0..len - 1]) {
                            Some(s) => Ok(Some(s)),
                            None => Err(FdtError::ParseError(ParseError::InvalidCStrValue)),
                        };
                    }
                },
            }
        }
    }

    /// The `stdout-path` property: the path to the device used for boot
    /// console output; a `:` in it ends the path.
    pub fn stdout_path(self) -> (r: Result<Option<StdInOutPath<'a>>, FdtError>)
        ensures
            io_path_result(r, spec_io_path(self.node_view().this_view(), self.node_view().strings_view(), "stdout-path".spec_bytes())),
    {
        io_path(&self.node, "stdout-path")
    }

    /// The `stdin-path` property: the path to the device used for boot
    /// console input; a `:` in it ends the path.
    pub fn stdin_path(self) -> (r: Result<Option<StdInOutPath<'a>>, FdtError>)
        ensures
            io_path_result(r, spec_io_path(self.node_view().this_view(), self.node_view().strings_view(), "stdin-path".spec_bytes())),
    {
        io_path(&self.node, "stdin-path")
    }

    /// Like [`Chosen::stdout_path`] but also resolves the path (or, failing
    /// that, the alias) to its node.
    pub fn stdout(self) -> (r: Result<Option<Stdout<'a>>, FdtError>)
        ensures
            match spec_io(self.node_view().this_view(), self.node_view().strings_view(),
                self.node_view().structs_view(), "stdout-path".spec_bytes()) {
                Err(e) => r == Err::<Option<Stdout>, FdtError>(e),
                Ok(None) => r == Ok::<Option<Stdout>, FdtError>(None),
                Ok(Some(t)) => r matches Ok(Some(x)) && x.node.this_view() == t.0 && x.node.parent_view() == t.1
                    && crate::nodes::opt_bytes(x.params) == t.2,
            },
    {
        match io_device(&self.node, "stdout-path") {
            Ok(Some((node, params))) => Ok(Some(Stdout { node, params })),
            Ok(None) => Ok(None),
            Err(e) => Err(e),
        }
    }

    /// Like [`Chosen::stdin_path`] but also resolves the path (or, failing
    /// that, the alias) to its node.
    pub fn stdin(self) -> (r: Result<Option<Stdin<'a>>, FdtError>)
        ensures
            match spec_io(self.node_view().this_view(), self.node_view().strings_view(),
                self.node_view().structs_view(), "stdin-path".spec_bytes()) {
                Err(e) => r == Err::<Option<Stdin>, FdtError>(e),
                Ok(None) => r == Ok::<Option<Stdin>, FdtError>(None),
                Ok(Some(t)) => r matches Ok(Some(x)) && x.node.this_view() == t.0 && x.node.parent_view() == t.1
                    && crate::nodes::opt_bytes(x.params) == t.2,
            },
    {
        match io_device(&self.node, "stdin-path") {
            Ok(Some((node, params))) => Ok(Some(Stdin { node, params })),
            Ok(None) => Ok(None),
            Err(e) => Err(e),
        }
    }
}

/// Reads the console path held by the property `name`.
fn io_path<'a>(node: &Node<'a>, name: &str) -> (r: Result<Option<StdInOutPath<'a>>, FdtError>)
    ensures
        io_path_result(r, spec_io_path(node.this_view(), node.strings_view(), name.spec_bytes())),
{
    match node_str_prop(node, name) {
        Err(e) => Err(e),
        Ok(None) => Ok(None),
        Ok(Some(s)) => {
            proof {
                vstd::utf8::encode_utf8_valid_utf8(s@);
            }
            let (path, rest) = split_off(s.as_bytes(), 0x3a);
            let params = match rest {
                Some(t) => match str_from_utf8(t) {
                    Some(p) => Some(p),
                    None => {
                        proof {
                            assert(false);
                        }
                        None
                    },
                },
                None => None,
            };
            Ok(Some(StdInOutPath { path, params }))
        },
    }
}

/// Resolves the console device named by the property `name`.
fn io_device<'a>(node: &Node<'a>, name: &str) -> (r: Result<Option<(Node<'a>, Option<&'a str>)>, FdtError>)
    ensures
        match spec_io(node.this_view(), node.strings_view(), node.structs_view(), name.spec_bytes()) {
            Err(e) => r == Err::<Option<(Node, Option<&str>)>, FdtError>(e),
            Ok(None) => r == Ok::<Option<(Node, Option<&str>)>, FdtError>(None),
            Ok(Some(t)) => r matches Ok(Some(x)) && x.0.this_view() == t.0 && x.0.parent_view() == t.1
                && crate::nodes::opt_bytes(x.1) == t.2,
        },
{
    let p = match io_path(node, name) {
        Ok(Some(p)) => p,
        Ok(None) => return Ok(None),
        Err(e) => return Err(e),
    };
    let root = match node.make_root() {
        Ok(r) => r,
        Err(e) => return Err(e),
    };
    let by_path = if find_byte(p.path.as_bytes(), 0x2f).is_some() {
        match root.find_node(p.path) {
            Ok(n) => n,
            Err(e) => return Err(e),
        }
    } else {
        None
    };
    match by_path {
        Some(n) => Ok(Some((n, p.params))),
        None => {
            let aliases = match root.aliases() {
                Ok(Some(a)) => a,
                Ok(None) => return Ok(None),
                Err(e) => return Err(e),
            };
            match aliases.resolve(p.path) {
                Ok(Some(n)) => Ok(Some((n, p.params))),
                Ok(None) => Ok(None),
                Err(e) => Err(e),
            }
        },
    }
}

impl<'a> AsNode<'a> for Chosen<'a> {
    open spec fn node_of(&self) -> Node<'a> {
        self.node_view()
    }

    fn as_node(&self) -> (r: Node<'a>) {
        self.node
    }
}

/// See [`Chosen::stdin`].
pub struct Stdin<'a> {
    pub node: Node<'a>,
    pub params: Option<&'a str>,
}

/// See [`Chosen::stdout`].
pub struct Stdout<'a> {
    pub node: Node<'a>,
    pub params: Option<&'a str>,
}

/// A console path and its parameters.
#[derive(Clone, Copy)]
pub struct StdInOutPath<'a> {
    path: &'a str,
    params: Option<&'a str>,
}

impl<'a> View for StdInOutPath<'a> {
    type V = (Seq<u8>, Option<Seq<u8>>);

    closed spec fn view(&self) -> (Seq<u8>, Option<Seq<u8>>) {
        (self.path.spec_bytes(), crate::nodes::opt_bytes(self.params))
    }
}

impl<'a> StdInOutPath<'a> {
    /// Path to the node representing the stdin/stdout device. This node path
    /// may be an alias.
    pub fn path(&self) -> (r: &'a str)
        ensures
            r.spec_bytes() == self@.0,
    {
        self.path
    }

    /// Optional parameters specified by the stdin/stdout property value.
    pub fn params(&self) -> (r: Option<&'a str>)
        ensures
            crate::nodes::opt_bytes(r) == self@.1,
    {
        self.params
    }
}

} // verus!
