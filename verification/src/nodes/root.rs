use vstd::prelude::*;
use vstd::string::*;

use crate::nodes::{
    child_result, find_child, lemma_child_step_shrinks, node_children_start, opt_view, query_matches, spec_node_name,
    str_query, Node, NodeName,
};
use crate::parsing::{
    eod, is_suffix, lemma_skip_head_suffix, lemma_step_token_suffix, lemma_suffix_refl, lemma_suffix_trans,
    peek_token, skip_head, spec_parse_root, step_token, ParseError, UnalignedParser, FDT_BEGIN_NODE, FDT_END,
    FDT_END_NODE,
};
use crate::properties::values::{lemma_split_pieces_step, pieces_from, split_bytes, split_pieces};
use crate::util::{contains_byte, rfind_byte, bytes_eq};
use crate::FdtError;
use crate::nodes::chosen::Chosen;
use crate::nodes::cpus::Cpus;
use crate::nodes::memory::{Memory, ReservedMemory};
use crate::properties::cells::{spec_cell_sizes, CellSizes};
use crate::properties::{node_str_prop, opt_str_result, str_prop, Compatible, PHandle, Property};

verus! {

broadcast use vstd::seq::group_seq_axioms;

/// The devicetree has a single root node of which all other device nodes are
/// descendants. The full path to the root node is `/`.
#[derive(Clone, Copy)]
pub struct Root<'a> {
    pub(crate) node: Node<'a>,
}

impl<'a> Root<'a> {
    /// The root node.
    pub closed spec fn node_view(&self) -> Node<'a> {
        self.node
    }

    /// A root from its node.
    pub fn from_node(node: Node<'a>) -> (r: Self)
        ensures
            r.node_view() == node,
    {
        Root { node }
    }

    /// The root node itself.
    pub fn as_node(&self) -> (r: Node<'a>)
        ensures
            r == self.node_view(),
    {
        self.node
    }
}

impl<'a> Node<'a> {
    /// Parses the root of the devicetree that this node belongs to.
    pub fn make_root(&self) -> (r: Result<Root<'a>, FdtError>)
        ensures
            spec_parse_root(self.structs_view()) matches Ok(b) ==> r matches Ok(root)
                && root.node_view().this_view() == b && root.node_view().parent_view() is None
                && root.node_view().same_tree(*self),
            spec_parse_root(self.structs_view()) matches Err(e) ==> r == Err::<Root, FdtError>(e),
    {
        let structs = self.structs_block();
        let mut parser = UnalignedParser::new(structs.0, self.strings_block(), structs);
        match parser.parse_root_raw() {
            Ok(this) => Ok(Root { node: Node::from_parts(this, None, self.strings_block(), structs) }),
            Err(e) => Err(e),
        }
    }
}

/// The state of a depth-first walk over the tree: the bytes still to read,
/// the raw bodies of the nodes on the current path, and the current depth.
pub struct WalkState {
    pub stream: Seq<u8>,
    pub parents: Seq<Seq<u8>>,
    pub index: nat,
}

/// A node handed out by the walk: its depth, its raw body and its parent's.
pub type WalkNode = (nat, Seq<u8>, Seq<u8>);

/// Closing the nodes whose `END_NODE`s come next.
pub open spec fn pop_end_nodes(s: Seq<u8>, idx: nat) -> (Seq<u8>, nat)
    decreases s.len(),
{
    if peek_token(s) == Ok::<u32, FdtError>(FDT_END_NODE) {
        proof {
            lemma_step_token_suffix(s);
        }
        pop_end_nodes(step_token(s).1, if idx > 0 { (idx - 1) as nat } else { 0 })
    } else {
        (s, idx)
    }
}

pub proof fn lemma_pop_end_nodes(s: Seq<u8>, idx: nat)
    ensures
        is_suffix(pop_end_nodes(s, idx).0, s),
        pop_end_nodes(s, idx).1 + pop_end_nodes(s, idx).0.len() <= idx + s.len(),
    decreases s.len(),
{
    if peek_token(s) == Ok::<u32, FdtError>(FDT_END_NODE) {
        lemma_step_token_suffix(s);
        let s1 = step_token(s).1;
        lemma_pop_end_nodes(s1, if idx > 0 { (idx - 1) as nat } else { 0 });
        lemma_suffix_trans(pop_end_nodes(s1, if idx > 0 { (idx - 1) as nat } else { 0 }).0, s1, s);
    } else {
        lemma_suffix_refl(s);
    }
}

proof fn lemma_pop_end_nodes_index(s: Seq<u8>, idx: nat)
    ensures
        pop_end_nodes(s, idx).1 <= idx,
    decreases s.len(),
{
    if peek_token(s) == Ok::<u32, FdtError>(FDT_END_NODE) {
        lemma_step_token_suffix(s);
        lemma_pop_end_nodes_index(step_token(s).1, if idx > 0 { (idx - 1) as nat } else { 0 });
    }
}

/// One step of the depth-first walk: the next node (with its depth and its
/// parent), an error, or `None` at the end of the tree.
pub open spec fn walk_step(st: WalkState) -> (Option<Result<WalkNode, FdtError>>, WalkState) {
    let (s1, i1) = pop_end_nodes(st.stream, st.index);
    let (t, s2) = step_token(s1);
    let st1 = WalkState { stream: s2, parents: st.parents, index: i1 };
    match t {
        Ok(t) => if t == FDT_BEGIN_NODE {
            let i2 = i1 + 1;
            if i2 >= 16 {
                (None, WalkState { stream: s2, parents: st.parents, index: i2 })
            } else {
                let parents2 = st.parents.update(i2 as int, s2);
                let (h, s3) = skip_head(s2);
                let st2 = WalkState { stream: s3, parents: parents2, index: i2 };
                match h {
                    Ok(_) => (Some(Ok((i2, s2, parents2[i2 - 1]))), st2),
                    Err(e) => (Some(Err(e)), st2),
                }
            }
        } else if t == FDT_END {
            (None, st1)
        } else {
            (Some(Err(FdtError::ParseError(ParseError::UnexpectedToken))), st1)
        },
        Err(e) => if e == eod() {
            (None, st1)
        } else {
            (Some(Err(e)), st1)
        },
    }
}

pub proof fn lemma_walk_step_shrinks(st: WalkState)
    ensures
        walk_step(st).0 matches Some(Ok(_)) ==> walk_step(st).1.stream.len() < st.stream.len(),
{
    let (s1, i1) = pop_end_nodes(st.stream, st.index);
    lemma_pop_end_nodes(st.stream, st.index);
    lemma_step_token_suffix(s1);
    let s2 = step_token(s1).1;
    lemma_skip_head_suffix(s2);
}

pub proof fn lemma_walk_step(st: WalkState)
    requires
        st.parents.len() == 16,
    ensures
        is_suffix(walk_step(st).1.stream, st.stream),
        walk_step(st).0 matches Some(Ok(_)) ==> walk_step(st).1.stream.len() < st.stream.len(),
        walk_step(st).1.index + walk_step(st).1.stream.len() <= st.index + st.stream.len(),
        walk_step(st).1.parents.len() == st.parents.len(),
        walk_step(st).0 matches Some(Ok(n)) ==> 1 <= n.0 < 16,
{
    let (s1, i1) = pop_end_nodes(st.stream, st.index);
    lemma_pop_end_nodes(st.stream, st.index);
    lemma_step_token_suffix(s1);
    let s2 = step_token(s1).1;
    lemma_suffix_trans(s2, s1, st.stream);
    lemma_skip_head_suffix(s2);
    lemma_suffix_trans(skip_head(s2).1, s2, st.stream);
}

/// The walk is depth-first: each node it hands out is at least one level
/// below the root and at most one level below the node handed out before
/// it, whose depth the walk then keeps.
pub proof fn law_walk_depth(st: WalkState)
    ensures
        walk_step(st).0 matches Some(Ok(n)) ==> 1 <= n.0 <= st.index + 1 && walk_step(st).1.index == n.0,
{
    lemma_pop_end_nodes_index(st.stream, st.index);
}

/// The nodes that the walk from `st` hands out, in order, up to its end or
/// its first error.
pub open spec fn walk_nodes(st: WalkState) -> Seq<WalkNode>
    decreases st.stream.len(),
{
    let (item, st2) = walk_step(st);
    proof {
        lemma_walk_step_shrinks(st);
    }
    match item {
        Some(Ok(n)) => seq![n] + walk_nodes(st2),
        _ => Seq::empty(),
    }
}

/// The node at `i` in `nodes` hangs below its nearest enclosing node: the
/// root `root` at depth 1, else the last node before it one level up.
pub open spec fn below_nearest_enclosing(nodes: Seq<WalkNode>, i: int, root: Seq<u8>) -> bool {
    if nodes[i].0 == 1 {
        nodes[i].2 == root
    } else {
        exists|j: int|
            #![trigger nodes[j]]
            0 <= j < i && nodes[j].0 + 1 == nodes[i].0 && nodes[j].1 == nodes[i].2 && forall|m: int|
                j < m < i ==> #[trigger] nodes[m].0 + 1 != nodes[i].0
    }
}

/// The walk's record of the current path: `parents[k]` is the last node
/// of `prefix` at depth `k`, the root at depth 0.
spec fn path_recorded(st: WalkState, root: Seq<u8>, prefix: Seq<WalkNode>) -> bool {
    &&& st.parents.len() == 16
    &&& st.index < 16
    &&& st.parents[0] == root
    &&& forall|k: int| 1 <= k <= st.index ==> #[trigger] last_at_depth(prefix, k, st.parents[k])
}

/// The last node of `prefix` at depth `k` has the raw body `body`.
spec fn last_at_depth(prefix: Seq<WalkNode>, k: int, body: Seq<u8>) -> bool {
    exists|j: int|
        #![trigger prefix[j]]
        0 <= j < prefix.len() && prefix[j].0 == k && prefix[j].1 == body && forall|m: int|
            j < m < prefix.len() ==> #[trigger] prefix[m].0 != k
}

proof fn lemma_walk_parents(st: WalkState, root: Seq<u8>, prefix: Seq<WalkNode>)
    requires
        path_recorded(st, root, prefix),
    ensures
        forall|i: int|
            prefix.len() <= i < prefix.len() + walk_nodes(st).len() ==> below_nearest_enclosing(
                prefix + walk_nodes(st),
                i,
                root,
            ),
    decreases st.stream.len(),
{
    let (item, st2) = walk_step(st);
    lemma_walk_step_shrinks(st);
    if let Some(Ok(n)) = item {
        let (s1, i1) = pop_end_nodes(st.stream, st.index);
        lemma_pop_end_nodes_index(st.stream, st.index);
        let prefix2 = prefix.push(n);
        let all = prefix + walk_nodes(st);
        assert(walk_nodes(st) == seq![n] + walk_nodes(st2));
        assert(all =~= prefix2 + walk_nodes(st2));
        let p = prefix.len() as int;
        assert(all[p] == n);
        assert(n.0 == i1 + 1);
        assert(n.2 == st.parents[i1 as int]);
        // The node just handed out.
        assert(below_nearest_enclosing(all, p, root)) by {
            if n.0 != 1 {
                let k = i1 as int;
                assert(last_at_depth(prefix, k, st.parents[k]));
                let j = choose|j: int|
                    #![trigger prefix[j]]
                    0 <= j < prefix.len() && prefix[j].0 == k && prefix[j].1 == st.parents[k] && forall|m: int|
                        j < m < prefix.len() ==> #[trigger] prefix[m].0 != k;
                assert(all[j] == prefix[j]);
                assert forall|m: int| j < m < p implies #[trigger] all[m].0 + 1 != all[p].0 by {
                    assert(all[m] == prefix[m]);
                }
            }
        }
        // The walk's record after the node.
        assert(st2.parents == st.parents.update(n.0 as int, n.1));
        assert(st2.index == n.0 && n.0 < 16);
        assert(st2.parents[0] == root);
        {
            assert forall|k: int| 1 <= k <= st2.index implies #[trigger] last_at_depth(prefix2, k, st2.parents[k]) by {
                if k == st2.index {
                    assert(prefix2[p] == n);
                } else {
                    assert(st2.parents[k] == st.parents[k]);
                    assert(last_at_depth(prefix, k, st.parents[k]));
                    let j = choose|j: int|
                        #![trigger prefix[j]]
                        0 <= j < prefix.len() && prefix[j].0 == k && prefix[j].1 == st.parents[k] && forall|m: int|
                            j < m < prefix.len() ==> #[trigger] prefix[m].0 != k;
                    assert(prefix2[j] == prefix[j]);
                    assert forall|m: int| j < m < prefix2.len() implies #[trigger] prefix2[m].0 != k by {
                        if m < p {
                            assert(prefix2[m] == prefix[m]);
                        }
                    }
                }
            }
        }
        assert(path_recorded(st2, root, prefix2));
        lemma_walk_parents(st2, root, prefix2);
        assert forall|i: int| p <= i < p + walk_nodes(st).len() implies below_nearest_enclosing(all, i, root) by {
            if i > p {
                assert(prefix2 + walk_nodes(st2) == all);
            }
        }
    }
}

/// The walk over the whole tree is depth-first: the first node is a child of
/// the root, each node is at most one level below the one before it, and
/// each node's parent is its nearest enclosing node (the root for a node at
/// depth 1, else the last node before it one level up).
pub proof fn law_walk_parent(root_this: Seq<u8>)
    ensures
        walk_start(root_this) matches Ok(st) ==> {
            let nodes = walk_nodes(st);
            &&& nodes.len() > 0 ==> nodes[0].0 == 1
            &&& forall|i: int| 0 < i < nodes.len() ==> #[trigger] nodes[i].0 <= nodes[i - 1].0 + 1
            &&& forall|i: int| 0 <= i < nodes.len() ==> #[trigger] below_nearest_enclosing(nodes, i, root_this)
        },
{
    if let Ok(st) = walk_start(root_this) {
        assert(path_recorded(st, root_this, Seq::empty()));
        lemma_walk_parents(st, root_this, Seq::empty());
        assert(Seq::<WalkNode>::empty() + walk_nodes(st) =~= walk_nodes(st));
        lemma_walk_depths(st);
        law_walk_depth(st);
    }
}

proof fn lemma_walk_depths(st: WalkState)
    ensures
        forall|i: int| 0 < i < walk_nodes(st).len() ==> #[trigger] walk_nodes(st)[i].0 <= walk_nodes(st)[i - 1].0 + 1,
    decreases st.stream.len(),
{
    let (item, st2) = walk_step(st);
    lemma_walk_step_shrinks(st);
    if let Some(Ok(n)) = item {
        lemma_walk_depths(st2);
        law_walk_depth(st);
        law_walk_depth(st2);
        let nodes = walk_nodes(st);
        assert(nodes == seq![n] + walk_nodes(st2));
        assert forall|i: int| 0 < i < nodes.len() implies #[trigger] nodes[i].0 <= nodes[i - 1].0 + 1 by {
            if i > 1 {
                assert(nodes[i] == walk_nodes(st2)[i - 1]);
                assert(nodes[i - 1] == walk_nodes(st2)[i - 2]);
            } else {
                assert(nodes[1] == walk_nodes(st2)[0]);
                let (item2, st3) = walk_step(st2);
                lemma_walk_step_shrinks(st2);
                if let Some(Ok(m)) = item2 {
                    assert(walk_nodes(st2) == seq![m] + walk_nodes(st3));
                    assert(walk_nodes(st2)[0] == m);
                } else {
                    assert(walk_nodes(st2).len() == 0);
                }
            }
        }
    }
}

/// The walk over the tree from the start of the root's children.
pub open spec fn walk_start(root_this: Seq<u8>) -> Result<WalkState, FdtError> {
    match skip_head(root_this) {
        (Err(e), _) => Err(e),
        (Ok(_), s) => Ok(
            WalkState {
                stream: s,
                parents: seq![root_this].add(Seq::new(15, |i: int| Seq::<u8>::empty())),
                index: 0,
            },
        ),
    }
}

/// Iterator over every node below the root, depth-first, with its depth.
pub struct AllNodesIter<'a> {
    pub(crate) parser: UnalignedParser<'a>,
    pub(crate) parents: Vec<&'a [u8]>,
    pub(crate) parent_index: usize,
}

impl<'a> View for AllNodesIter<'a> {
    type V = WalkState;

    closed spec fn view(&self) -> WalkState {
        WalkState {
            stream: self.parser@,
            parents: Seq::new(self.parents@.len(), |i: int| self.parents@[i]@),
            index: self.parent_index as nat,
        }
    }
}

impl<'a> AllNodesIter<'a> {
    /// The iterator's state is coherent.
    pub closed spec fn wf(&self) -> bool {
        &&& self.parents@.len() == 16
        &&& self.parent_index + self.parser@.len() <= usize::MAX
    }

    /// The strings block.
    pub closed spec fn strings_view(&self) -> Seq<u8> {
        self.parser.strings_view()
    }

    /// The structure block.
    pub closed spec fn structs_view(&self) -> Seq<u8> {
        self.parser.structs_view()
    }

    /// The next node, depth-first, with its depth; `None` at the end.
    pub fn next(&mut self) -> (r: Option<Result<(usize, Node<'a>), FdtError>>)
        requires
            old(self).wf(),
        ensures
            final(self).wf(),
            final(self)@ == walk_step(old(self)@).1,
            final(self)@.stream.len() <= old(self)@.stream.len(),
            final(self).strings_view() == old(self).strings_view(),
            final(self).structs_view() == old(self).structs_view(),
            walk_result(r, walk_step(old(self)@).0),
            r matches Some(Ok(p)) ==> p.1.strings_view() == old(self).strings_view() && p.1.structs_view() == old(self).structs_view()
                && 1 <= p.0 < 16,
    {
        let ghost st0 = self@;
        proof {
            lemma_walk_step(st0);
        }
        let ghost pe = pop_end_nodes(self.parser@, self.parent_index as nat);
        loop
            invariant
                pop_end_nodes(self.parser@, self.parent_index as nat) == pe,
                pe == pop_end_nodes(st0.stream, st0.index),
                self.parents@.len() == 16,
                self@.parents == st0.parents,
                st0 == old(self)@,
                self.parent_index + self.parser@.len() <= usize::MAX,
                self.parser.strings_view() == old(self).strings_view(),
                self.parser.structs_view() == old(self).structs_view(),
            ensures
                pe == (self.parser@, self.parent_index as nat),
                self.parents@.len() == 16,
                self@.parents == st0.parents,
                self.parent_index + self.parser@.len() <= usize::MAX,
                self.parser.strings_view() == old(self).strings_view(),
                self.parser.structs_view() == old(self).structs_view(),
            decreases self.parser@.len(),
        {
            proof {
                lemma_step_token_suffix(self.parser@);
            }
            match self.parser.peek_token_value() {
                Ok(t) => if t == FDT_END_NODE {
                    let _ = self.parser.advance_token_value();
                    self.parent_index = if self.parent_index > 0 { self.parent_index - 1 } else { 0 };
                } else {
                    break;
                },
                Err(_) => break,
            }
        }
        match self.parser.advance_token_value() {
            Ok(t) => if t == FDT_BEGIN_NODE {
                self.parent_index = self.parent_index + 1;
            } else if t == FDT_END {
                return None;
            } else {
                return Some(Err(FdtError::ParseError(ParseError::UnexpectedToken)));
            },
            Err(e) => match e {
                FdtError::ParseError(ParseError::UnexpectedEndOfData) => return None,
                _ => return Some(Err(e)),
            },
        }
        let starting_data = self.parser.data();
        if self.parent_index >= 16 {
            return None;
        }
        self.parents.set(self.parent_index, starting_data);
        let parent = self.parents[self.parent_index - 1];
        let node = Node::from_parts(starting_data, Some(parent), self.parser.strings(), self.parser.structs());
        let depth = self.parent_index;
        proof {
            assert(self@.parents =~= st0.parents.update(depth as int, starting_data@));
        }
        match self.parser.skip_head() {
            Ok(_) => Some(Ok((depth, node))),
            Err(e) => Some(Err(e)),
        }
    }
}

/// `r` is the exec form of the walk item `s`.
pub open spec fn walk_result(r: Option<Result<(usize, Node), FdtError>>, s: Option<Result<WalkNode, FdtError>>) -> bool {
    match s {
        None => r is None,
        Some(Err(e)) => r == Some(Err::<(usize, Node), FdtError>(e)),
        Some(Ok(n)) => r matches Some(Ok(p)) && p.0 == n.0 && p.1.this_view() == n.1 && p.1.parent_view() == Some(n.2),
    }
}

/// `s` without the `/`s at its front.
pub open spec fn trim_leading_slashes(p: Seq<u8>) -> Seq<u8>
    decreases p.len(),
{
    if p.len() > 0 && p[0] == 0x2f {
        trim_leading_slashes(p.drop_first())
    } else {
        p
    }
}

/// Following the path components `comps` down from the node with raw body
/// `this`, whose parent is `parent`: each component names a direct child of
/// the node found for the component before it, the first such child in
/// order. The raw body of the node reached and that of its parent.
pub open spec fn follow_path(
    this: Seq<u8>,
    parent: Option<Seq<u8>>,
    comps: Seq<Seq<u8>>,
) -> Result<Option<(Seq<u8>, Option<Seq<u8>>)>, FdtError>
    decreases comps.len(),
{
    if comps.len() == 0 {
        Ok(Some((this, parent)))
    } else {
        match node_children_start(this) {
            Err(e) => Err(e),
            Ok(s) => match find_child(s, str_query(comps[0])) {
                Err(e) => Err(e),
                Ok(None) => Ok(None),
                Ok(Some(c)) => follow_path(c, Some(this), comps.drop_first()),
            },
        }
    }
}

/// The components of a path.
pub open spec fn path_components(p: Seq<u8>) -> Seq<Seq<u8>> {
    split_pieces(trim_leading_slashes(p), 0x2f)
}

/// `r` is the exec form of the lookup result `s`.
pub open spec fn found_result(r: Result<Option<Node>, FdtError>, s: Result<Option<(Seq<u8>, Seq<u8>)>, FdtError>) -> bool {
    match s {
        Err(e) => r == Err::<Option<Node>, FdtError>(e),
        Ok(None) => r == Ok::<Option<Node>, FdtError>(None),
        Ok(Some(p)) => r matches Ok(Some(n)) && n.this_view() == p.0 && n.parent_view() == Some(p.1),
    }
}

/// Looking up the path `p` from the root node `root`: the raw body of the
/// node found and that of its parent.
pub open spec fn find_node_spec(root_this: Seq<u8>, root_parent: Option<Seq<u8>>, p: Seq<u8>) -> Result<Option<(Seq<u8>, Option<Seq<u8>>)>, FdtError> {
    if p == seq![0x2fu8] {
        Ok(Some((root_this, root_parent)))
    } else {
        follow_path(root_this, root_parent, path_components(p))
    }
}

/// `r` is the exec form of the optional node `s`.
pub open spec fn node_opt_result(r: Result<Option<Node>, FdtError>, s: Result<Option<(Seq<u8>, Option<Seq<u8>>)>, FdtError>) -> bool {
    match s {
        Err(e) => r == Err::<Option<Node>, FdtError>(e),
        Ok(None) => r == Ok::<Option<Node>, FdtError>(None),
        Ok(Some(p)) => r matches Ok(Some(n)) && n.this_view() == p.0 && n.parent_view() == p.1,
    }
}

/// The next node of the walk whose name (without unit address) is `name`.
pub open spec fn named_step(st: WalkState, name: Seq<u8>) -> (Option<Result<WalkNode, FdtError>>, WalkState)
    decreases st.stream.len(),
{
    let (item, st2) = walk_step(st);
    proof {
        lemma_walk_step_shrinks(st);
    }
    match item {
        None => (None, st2),
        Some(Err(e)) => (Some(Err(e)), st2),
        Some(Ok(n)) => match spec_node_name(n.1) {
            Err(e) => (Some(Err(e)), st2),
            Ok(nn) => if nn.0 == name {
                (Some(Ok(n)), st2)
            } else {
                named_step(st2, name)
            },
        },
    }
}

pub proof fn lemma_named_step(st: WalkState, name: Seq<u8>)
    requires
        st.parents.len() == 16,
    ensures
        named_step(st, name).1.parents.len() == 16,
        named_step(st, name).1.index + named_step(st, name).1.stream.len() <= st.index + st.stream.len(),
    decreases st.stream.len(),
{
    lemma_walk_step(st);
    let (item, st2) = walk_step(st);
    if let Some(Ok(n)) = item {
        if let Ok(nn) = spec_node_name(n.1) {
            if nn.0 != name {
                lemma_named_step(st2, name);
            }
        }
    }
}

/// Whether the node name `nn` answers the path component `comp`.
fn component_matches(comp: &[u8], nn: NodeName) -> (r: bool)
    ensures
        r == query_matches(str_query(comp@), nn@),
{
    let name = nn.name.as_bytes();
    match rfind_byte(comp, 0x40) {
        Some(i) => {
            let len = comp.len();
            if !bytes_eq(name, &comp[0..i]) {
                return false;
            }
            match nn.unit_address {
                Some(u) => bytes_eq(u.as_bytes(), &comp[i + 1..len]),
                None => false,
            }
        },
        None => bytes_eq(name, comp),
    }
}

/// The first child of `node` whose name answers the path component `comp`.
fn child_by_component<'a>(node: &Node<'a>, comp: &[u8]) -> (r: Result<Option<Node<'a>>, FdtError>)
    ensures
        match node_children_start(node.this_view()) {
            Err(e) => r == Err::<Option<Node>, FdtError>(e),
            Ok(s) => child_result(r, find_child(s, str_query(comp@)), node.this_view()),
        },
        r matches Ok(Some(n)) ==> n.same_tree(*node),
{
    let mut it = match node.children() {
        Ok(c) => c,
        Err(e) => return Err(e),
    };
    let ghost start = it@;
    loop
        invariant
            find_child(it@, str_query(comp@)) == find_child(start, str_query(comp@)),
            node_children_start(node.this_view()) == Ok::<Seq<u8>, FdtError>(start),
            it.parent_view() == node.this_view(),
            it.strings_view() == node.strings_view(),
            it.structs_view() == node.structs_view(),
        decreases it@.len(),
    {
        proof {
            lemma_child_step_shrinks(it@);
        }
        match it.advance() {
            Err(e) => return Err(e),
            Ok(None) => return Ok(None),
            Ok(Some(child)) => {
                match child.name() {
                    Err(e) => return Err(e),
                    Ok(nn) => {
                        if component_matches(comp, nn) {
                            return Ok(Some(child));
                        }
                    },
                }
            },
        }
    }
}

impl<'a> Root<'a> {
    /// Returns an iterator over each node in the tree, depth-first, along with
    /// its depth in the tree
    pub fn all_nodes(self) -> (r: Result<AllNodesIter<'a>, FdtError>)
        ensures
            walk_start(self.node_view().this_view()) matches Ok(st) ==> r matches Ok(it) && it@ == st && it.wf()
                && it.strings_view() == self.node_view().strings_view()
                && it.structs_view() == self.node_view().structs_view(),
            walk_start(self.node_view().this_view()) matches Err(e) ==> r == Err::<AllNodesIter, FdtError>(e),
    {
        let this = self.node.raw_body();
        let mut parser = UnalignedParser::new(this, self.node.strings_block(), self.node.structs_block());
        match parser.skip_head() {
            Ok(_) => {},
            Err(e) => return Err(e),
        }
        proof {
            lemma_skip_head_suffix(this@);
        }
        let this_len = this.len();
        assert(parser@.len() <= this_len);
        let mut parents: Vec<&'a [u8]> = Vec::new();
        parents.push(this);
        let empty = &this[0..0];
        let mut k: usize = 0;
        while k < 15
            invariant
                k <= 15,
                parents@.len() == k + 1,
                parents@[0]@ == this@,
                forall|j: int| 1 <= j < parents@.len() ==> parents@[j]@ == Seq::<u8>::empty(),
                empty@ == Seq::<u8>::empty(),
            decreases 15 - k,
        {
            parents.push(empty);
            k = k + 1;
        }
        let it = AllNodesIter { parser, parents, parent_index: 0 };
        proof {
            assert(it@.parents =~= seq![this@].add(Seq::new(15, |i: int| Seq::<u8>::empty())));
        }
        Ok(it)
    }

    /// Attempt to find a node with the given path (with an optional unit
    /// address, defaulting to the first matching name if omitted). If you only
    /// have the node name but not the path, use [`Root::find_node_by_name`] instead.
    pub fn find_node(self, path: &str) -> (r: Result<Option<Node<'a>>, FdtError>)
        ensures
            node_opt_result(r, find_node_spec(self.node_view().this_view(), self.node_view().parent_view(), path.spec_bytes())),
            r matches Ok(Some(n)) ==> n.same_tree(self.node_view()),
    {
        let pb = path.as_bytes();
        if pb.len() == 1 && pb[0] == 0x2f {
            assert(pb@ =~= seq![0x2fu8]);
            return Ok(Some(self.node));
        }
        let mut trimmed = pb;
        while trimmed.len() > 0 && trimmed[0] == 0x2f
            invariant
                trim_leading_slashes(trimmed@) == trim_leading_slashes(pb@),
            decreases trimmed@.len(),
        {
            let len = trimmed.len();
            assert(trimmed@.drop_first() =~= trimmed@.subrange(1, len as int));
            trimmed = &trimmed[1..len];
        }
        proof {
            lemma_split_pieces_step(trimmed@, 0x2f);
        }
        let (first, after) = split_bytes(trimmed, 0x2f);
        let mut comp = first;
        let mut rest = after;
        let mut current: Node<'a> = self.node;
        loop
            invariant
                follow_path(current.this_view(), current.parent_view(), pieces_from(comp@, opt_view(rest), 0x2f))
                    == find_node_spec(self.node_view().this_view(), self.node_view().parent_view(), path.spec_bytes()),
                current.same_tree(self.node_view()),
            decreases match rest {
                Some(r) => r@.len() as int + 1,
                None => 0int,
            },
        {
            let ghost comps = pieces_from(comp@, opt_view(rest), 0x2f);
            assert(comps[0] == comp@);
            let child = match child_by_component(&current, comp) {
                Err(e) => return Err(e),
                Ok(None) => return Ok(None),
                Ok(Some(c)) => c,
            };
            current = child;
            match rest {
                None => {
                    proof {
                        assert(comps.drop_first() =~= Seq::<Seq<u8>>::empty());
                        assert(follow_path(current.this_view(), current.parent_view(), comps.drop_first())
                            == Ok::<Option<(Seq<u8>, Option<Seq<u8>>)>, FdtError>(Some((current.this_view(), current.parent_view()))));
                    }
                    return Ok(Some(current));
                },
                Some(r) => {
                    proof {
                        lemma_split_pieces_step(r@, 0x2f);
                        assert(comps.drop_first() =~= split_pieces(r@, 0x2f));
                        if contains_byte(r@, 0x2f) {
                            crate::util::lemma_first_index(r@, 0x2f);
                        }
                    }
                    let (c2, r2) = split_bytes(r, 0x2f);
                    comp = c2;
                    rest = r2;
                },
            }
        }
    }

    /// Returns an iterator that yields every node with the name that matches
    /// `name` in depth-first order
    pub fn find_all_nodes_with_name<'b>(self, name: &'b str) -> (r: Result<AllNodesWithNameIter<'a, 'b>, FdtError>)
        ensures
            walk_start(self.node_view().this_view()) matches Ok(st) ==> r matches Ok(it) && it@ == st && it.wf()
                && it.name_view() == name.spec_bytes()
                && it.strings_view() == self.node_view().strings_view()
                && it.structs_view() == self.node_view().structs_view(),
            walk_start(self.node_view().this_view()) matches Err(e) ==> r == Err::<AllNodesWithNameIter, FdtError>(e),
    {
        match self.all_nodes() {
            Ok(iter) => Ok(AllNodesWithNameIter { iter, name }),
            Err(e) => Err(e),
        }
    }

    /// Attempt to find a node with the given name, returning the first node
    /// with a name that matches `name` in depth-first order
    pub fn find_node_by_name(self, name: &str) -> (r: Result<Option<Node<'a>>, FdtError>)
        ensures
            match walk_start(self.node_view().this_view()) {
                Err(e) => r == Err::<Option<Node>, FdtError>(e),
                Ok(st) => match named_step(st, name.spec_bytes()).0 {
                    None => r == Ok::<Option<Node>, FdtError>(None),
                    Some(Err(e)) => r == Err::<Option<Node>, FdtError>(e),
                    Some(Ok(n)) => r matches Ok(Some(x)) && x.this_view() == n.1 && x.parent_view() == Some(n.2),
                },
            },
            r matches Ok(Some(n)) ==> n.same_tree(self.node_view()),
    {
        match self.find_all_nodes_with_name(name) {
            Ok(mut it) => match it.next() {
                None => Ok(None),
                Some(Ok(n)) => Ok(Some(n)),
                Some(Err(e)) => Err(e),
            },
            Err(e) => Err(e),
        }
    }
}

/// Iterator over the nodes of the tree whose name is a given one.
pub struct AllNodesWithNameIter<'a, 'b> {
    pub(crate) iter: AllNodesIter<'a>,
    pub(crate) name: &'b str,
}

impl<'a, 'b> View for AllNodesWithNameIter<'a, 'b> {
    type V = WalkState;

    closed spec fn view(&self) -> WalkState {
        self.iter@
    }
}

impl<'a, 'b> AllNodesWithNameIter<'a, 'b> {
    /// The name looked for.
    pub closed spec fn name_view(&self) -> Seq<u8> {
        self.name.spec_bytes()
    }

    /// The walk's state is coherent.
    pub closed spec fn wf(&self) -> bool {
        self.iter.wf()
    }

    /// The strings block.
    pub closed spec fn strings_view(&self) -> Seq<u8> {
        self.iter.strings_view()
    }

    /// The structure block.
    pub closed spec fn structs_view(&self) -> Seq<u8> {
        self.iter.structs_view()
    }

    /// The next node with the name looked for.
    pub fn next(&mut self) -> (r: Option<Result<Node<'a>, FdtError>>)
        requires
            old(self).wf(),
        ensures
            final(self).wf(),
            final(self)@ == named_step(old(self)@, old(self).name_view()).1,
            final(self).name_view() == old(self).name_view(),
            final(self).strings_view() == old(self).strings_view(),
            final(self).structs_view() == old(self).structs_view(),
            match named_step(old(self)@, old(self).name_view()).0 {
                None => r is None,
                Some(Err(e)) => r == Some(Err::<Node, FdtError>(e)),
                Some(Ok(n)) => r matches Some(Ok(x)) && x.this_view() == n.1 && x.parent_view() == Some(n.2),
            },
            r matches Some(Ok(x)) ==> x.strings_view() == old(self).strings_view() && x.structs_view() == old(self).structs_view(),
    {
        let ghost st0 = self@;
        loop
            invariant
                self.iter.wf(),
                named_step(self@, self.name_view()) == named_step(st0, self.name_view()),
                st0 == old(self)@,
                self.name_view() == old(self).name_view(),
                self.strings_view() == old(self).strings_view(),
                self.structs_view() == old(self).structs_view(),
            decreases self@.stream.len(),
        {
            proof {
                lemma_walk_step_shrinks(self@);
            }
            match self.iter.next() {
                None => return None,
                Some(Err(e)) => return Some(Err(e)),
                Some(Ok((_, n))) => match n.name() {
                    Err(e) => return Some(Err(e)),
                    Ok(nn) => {
                        if crate::util::str_eq(nn.name, self.name) {
                            return Some(Ok(n));
                        }
                    },
                },
            }
        }
    }
}

impl<'a> Root<'a> {
    /// The `/aliases` node, if there is one.
    pub fn aliases(&self) -> (r: Result<Option<crate::nodes::aliases::Aliases<'a>>, FdtError>)
        ensures
            match find_node_spec(self.node_view().this_view(), self.node_view().parent_view(), "/aliases".spec_bytes()) {
                Err(e) => r == Err::<Option<crate::nodes::aliases::Aliases>, FdtError>(e),
                Ok(None) => r == Ok::<Option<crate::nodes::aliases::Aliases>, FdtError>(None),
                Ok(Some(p)) => r matches Ok(Some(a)) && a.node_view().this_view() == p.0 && a.node_view().parent_view() == p.1
                    && a.node_view().same_tree(self.node_view()),
            },
    {
        match self.find_node("/aliases") {
            Ok(Some(node)) => Ok(Some(crate::nodes::aliases::Aliases::new(node))),
            Ok(None) => Ok(None),
            Err(e) => Err(e),
        }
    }
}

/// Walking the tree for the first node whose `phandle` is `ph`.
pub open spec fn phandle_walk(st: WalkState, ph: u32, strings: Seq<u8>, structs: Seq<u8>) -> Result<Option<(Seq<u8>, Seq<u8>)>, FdtError>
    decreases st.stream.len(),
{
    let (item, st2) = walk_step(st);
    proof {
        lemma_walk_step_shrinks(st);
    }
    match item {
        None => Ok(None),
        Some(Err(e)) => Err(e),
        Some(Ok(n)) => match spec_parse_root(structs) {
            Err(e) => Err(e),
            Ok(_) => match crate::properties::u32_prop(n.1, strings, "phandle".spec_bytes()) {
                Err(e) => Err(e),
                Ok(Some(v)) => if v == ph {
                    Ok(Some((n.1, n.2)))
                } else {
                    phandle_walk(st2, ph, strings, structs)
                },
                Ok(None) => phandle_walk(st2, ph, strings, structs),
            },
        },
    }
}

/// The bytes of each of the strings `with`.
pub open spec fn strs_bytes(with: Seq<&str>) -> Seq<Seq<u8>> {
    Seq::new(with.len(), |i: int| with[i].spec_bytes())
}

/// Whether a `compatible` value `b` lists one of the strings `with`.
pub open spec fn compatible_with_any(b: Seq<u8>, with: Seq<Seq<u8>>) -> bool {
    exists|i: int| 0 <= i < with.len() && split_pieces(b, 0).contains(#[trigger] with[i])
}

/// The next node of the walk that is compatible with one of `with`.
pub open spec fn compat_step(st: WalkState, with: Seq<Seq<u8>>, strings: Seq<u8>, structs: Seq<u8>) -> (Option<Result<(Seq<u8>, Seq<u8>), FdtError>>, WalkState)
    decreases st.stream.len(),
{
    let (item, st2) = walk_step(st);
    proof {
        lemma_walk_step_shrinks(st);
    }
    match item {
        None => (None, st2),
        Some(Err(e)) => (Some(Err(e)), st2),
        Some(Ok(n)) => match spec_parse_root(structs) {
            Err(e) => (Some(Err(e)), st2),
            Ok(_) => match crate::properties::str_prop(n.1, strings, "compatible".spec_bytes()) {
                Err(e) => (Some(Err(e)), st2),
                Ok(None) => compat_step(st2, with, strings, structs),
                Ok(Some(b)) => if compatible_with_any(b, with) {
                    (Some(Ok((n.1, n.2))), st2)
                } else {
                    compat_step(st2, with, strings, structs)
                },
            },
        },
    }
}

pub proof fn lemma_compat_step(st: WalkState, with: Seq<Seq<u8>>, strings: Seq<u8>, structs: Seq<u8>)
    requires
        st.parents.len() == 16,
    ensures
        compat_step(st, with, strings, structs).1.parents.len() == 16,
        compat_step(st, with, strings, structs).1.index + compat_step(st, with, strings, structs).1.stream.len()
            <= st.index + st.stream.len(),
    decreases st.stream.len(),
{
    lemma_walk_step(st);
    let (item, st2) = walk_step(st);
    if let Some(Ok(n)) = item {
        if spec_parse_root(structs) is Ok {
            match crate::properties::str_prop(n.1, strings, "compatible".spec_bytes()) {
                Ok(None) => lemma_compat_step(st2, with, strings, structs),
                Ok(Some(b)) => if !compatible_with_any(b, with) {
                    lemma_compat_step(st2, with, strings, structs);
                },
                Err(_) => {},
            }
        }
    }
}

/// Whether the node with raw body `this` has the `phandle` `ph`.
pub open spec fn has_phandle(this: Seq<u8>, strings: Seq<u8>, ph: u32) -> bool {
    crate::properties::u32_prop(this, strings, "phandle".spec_bytes()) == Ok::<Option<u32>, FdtError>(Some(ph))
}

/// Resolving a phandle gives the first node of the depth-first walk that has
/// it, and nothing when no node of the walk has it.
pub proof fn law_phandle_first(st: WalkState, ph: u32, strings: Seq<u8>, structs: Seq<u8>)
    ensures
        phandle_walk(st, ph, strings, structs) matches Ok(Some(p)) ==> exists|i: int|
            #![trigger walk_nodes(st)[i]]
            0 <= i < walk_nodes(st).len() && p == (walk_nodes(st)[i].1, walk_nodes(st)[i].2) && has_phandle(
                walk_nodes(st)[i].1,
                strings,
                ph,
            ) && forall|j: int| 0 <= j < i ==> !has_phandle(#[trigger] walk_nodes(st)[j].1, strings, ph),
        phandle_walk(st, ph, strings, structs) matches Ok(None) ==> forall|i: int|
            0 <= i < walk_nodes(st).len() ==> !has_phandle(#[trigger] walk_nodes(st)[i].1, strings, ph),
    decreases st.stream.len(),
{
    let (item, st2) = walk_step(st);
    lemma_walk_step_shrinks(st);
    if let Some(Ok(n)) = item {
        let nodes = walk_nodes(st);
        assert(nodes == seq![n] + walk_nodes(st2));
        assert(nodes[0] == n);
        if spec_parse_root(structs) is Ok {
            if !has_phandle(n.1, strings, ph) && crate::properties::u32_prop(n.1, strings, "phandle".spec_bytes()) is Ok {
                law_phandle_first(st2, ph, strings, structs);
                assert(phandle_walk(st, ph, strings, structs) == phandle_walk(st2, ph, strings, structs));
                if let Ok(Some(p)) = phandle_walk(st, ph, strings, structs) {
                    let i = choose|i: int|
                        #![trigger walk_nodes(st2)[i]]
                        0 <= i < walk_nodes(st2).len() && p == (walk_nodes(st2)[i].1, walk_nodes(st2)[i].2) && has_phandle(
                            walk_nodes(st2)[i].1,
                            strings,
                            ph,
                        ) && forall|j: int| 0 <= j < i ==> !has_phandle(#[trigger] walk_nodes(st2)[j].1, strings, ph);
                    assert(nodes[i + 1] == walk_nodes(st2)[i]);
                    assert forall|j: int| 0 <= j < i + 1 implies !has_phandle(#[trigger] nodes[j].1, strings, ph) by {
                        if j > 0 {
                            assert(nodes[j] == walk_nodes(st2)[j - 1]);
                        }
                    }
                }
                if let Ok(None) = phandle_walk(st, ph, strings, structs) {
                    assert forall|i: int| 0 <= i < nodes.len() implies !has_phandle(#[trigger] nodes[i].1, strings, ph) by {
                        if i > 0 {
                            assert(nodes[i] == walk_nodes(st2)[i - 1]);
                        }
                    }
                }
            }
        }
    }
}

/// Whether the node with raw body `this` is compatible with one of `with`.
pub open spec fn node_compatible_with(this: Seq<u8>, strings: Seq<u8>, with: Seq<Seq<u8>>) -> bool {
    crate::properties::str_prop(this, strings, "compatible".spec_bytes()) matches Ok(Some(b)) && compatible_with_any(b, with)
}

/// Looking for the next compatible node gives the first node of the
/// depth-first walk that is compatible with one of `with`, and the walk goes
/// on right after it; so the compatible nodes handed out one after the other
/// are exactly the compatible nodes of the walk, in its order.
pub proof fn law_compat_step_first(st: WalkState, with: Seq<Seq<u8>>, strings: Seq<u8>, structs: Seq<u8>)
    ensures
        compat_step(st, with, strings, structs).0 matches Some(Ok(p)) ==> exists|i: int|
            #![trigger walk_nodes(st)[i]]
            0 <= i < walk_nodes(st).len() && p == (walk_nodes(st)[i].1, walk_nodes(st)[i].2) && node_compatible_with(
                walk_nodes(st)[i].1,
                strings,
                with,
            ) && (forall|j: int| 0 <= j < i ==> !node_compatible_with(#[trigger] walk_nodes(st)[j].1, strings, with))
                && walk_nodes(compat_step(st, with, strings, structs).1) == walk_nodes(st).subrange(i + 1, walk_nodes(st).len() as int),
        compat_step(st, with, strings, structs).0 is None ==> forall|i: int|
            0 <= i < walk_nodes(st).len() ==> !node_compatible_with(#[trigger] walk_nodes(st)[i].1, strings, with),
    decreases st.stream.len(),
{
    let (item, st2) = walk_step(st);
    lemma_walk_step_shrinks(st);
    if let Some(Ok(n)) = item {
        let nodes = walk_nodes(st);
        assert(nodes == seq![n] + walk_nodes(st2));
        assert(nodes[0] == n);
        if spec_parse_root(structs) is Ok {
            let sp = crate::properties::str_prop(n.1, strings, "compatible".spec_bytes());
            if sp is Ok && !node_compatible_with(n.1, strings, with) {
                law_compat_step_first(st2, with, strings, structs);
                assert(compat_step(st, with, strings, structs) == compat_step(st2, with, strings, structs));
                if let Some(Ok(p)) = compat_step(st, with, strings, structs).0 {
                    let i = choose|i: int|
                        #![trigger walk_nodes(st2)[i]]
                        0 <= i < walk_nodes(st2).len() && p == (walk_nodes(st2)[i].1, walk_nodes(st2)[i].2)
                            && node_compatible_with(walk_nodes(st2)[i].1, strings, with) && (forall|j: int|
                            0 <= j < i ==> !node_compatible_with(#[trigger] walk_nodes(st2)[j].1, strings, with))
                            && walk_nodes(compat_step(st2, with, strings, structs).1) == walk_nodes(st2).subrange(
                            i + 1,
                            walk_nodes(st2).len() as int,
                        );
                    assert(nodes[i + 1] == walk_nodes(st2)[i]);
                    assert forall|j: int| 0 <= j < i + 1 implies !node_compatible_with(#[trigger] nodes[j].1, strings, with) by {
                        if j > 0 {
                            assert(nodes[j] == walk_nodes(st2)[j - 1]);
                        }
                    }
                    assert(walk_nodes(st2).subrange(i + 1, walk_nodes(st2).len() as int) =~= nodes.subrange(
                        i + 2,
                        nodes.len() as int,
                    ));
                }
                if compat_step(st, with, strings, structs).0 is None {
                    assert forall|i: int| 0 <= i < nodes.len() implies !node_compatible_with(#[trigger] nodes[i].1, strings, with) by {
                        if i > 0 {
                            assert(nodes[i] == walk_nodes(st2)[i - 1]);
                        }
                    }
                }
            } else if node_compatible_with(n.1, strings, with) {
                assert(walk_nodes(st2) =~= nodes.subrange(1, nodes.len() as int));
            }
        }
    }
}

/// `r` is the exec form of the required node `s`, whose absence is the error `missing`.
pub open spec fn required_node(r: Result<Node, FdtError>, s: Result<Option<(Seq<u8>, Option<Seq<u8>>)>, FdtError>, missing: FdtError) -> bool {
    match s {
        Err(e) => r == Err::<Node, FdtError>(e),
        Ok(None) => r == Err::<Node, FdtError>(missing),
        Ok(Some(p)) => r matches Ok(n) && n.this_view() == p.0 && n.parent_view() == p.1,
    }
}

impl<'a> Root<'a> {
    /// The `#address-cells` and `#size-cells` of the root (required).
    pub fn cell_sizes(self) -> (r: Result<CellSizes, FdtError>)
        ensures
            spec_parse_root(self.node_view().structs_view()) matches Err(e) ==> r == Err::<CellSizes, FdtError>(e),
            spec_parse_root(self.node_view().structs_view()) is Ok ==> match spec_cell_sizes(self.node_view().this_view(), self.node_view().strings_view()) {
                Err(e) => r == Err::<CellSizes, FdtError>(e),
                Ok(None) => r == Err::<CellSizes, FdtError>(FdtError::MissingRequiredProperty("#address-cells/#size-cells")),
                Ok(Some(c)) => r == Ok::<CellSizes, FdtError>(c),
            },
    {
        match self.node.property::<CellSizes>() {
            Ok(Some(c)) => Ok(c),
            Ok(None) => Err(FdtError::MissingRequiredProperty("#address-cells/#size-cells")),
            Err(e) => Err(e),
        }
    }

    /// The model of the system board (required).
    pub fn model(self) -> (r: Result<&'a str, FdtError>)
        ensures
            match str_prop(self.node_view().this_view(), self.node_view().strings_view(), "model".spec_bytes()) {
                Err(e) => r == Err::<&str, FdtError>(e),
                Ok(None) => r == Err::<&str, FdtError>(FdtError::MissingRequiredProperty("model")),
                Ok(Some(b)) => r matches Ok(s) && s.spec_bytes() == b,
            },
    {
        match node_str_prop(&self.node, "model") {
            Ok(Some(s)) => Ok(s),
            Ok(None) => Err(FdtError::MissingRequiredProperty("model")),
            Err(e) => Err(e),
        }
    }

    /// The platform architectures this platform is compatible with (required).
    pub fn compatible(&self) -> (r: Result<Compatible<'a>, FdtError>)
        ensures
            spec_parse_root(self.node_view().structs_view()) matches Err(e) ==> r == Err::<Compatible, FdtError>(e),
            spec_parse_root(self.node_view().structs_view()) is Ok ==> match str_prop(self.node_view().this_view(), self.node_view().strings_view(), "compatible".spec_bytes()) {
                Err(e) => r == Err::<Compatible, FdtError>(e),
                Ok(None) => r == Err::<Compatible, FdtError>(FdtError::MissingRequiredProperty("compatible")),
                Ok(Some(b)) => r matches Ok(c) && c@ == b,
            },
    {
        let root = match self.node.make_root() {
            Ok(r) => r,
            Err(e) => return Err(e),
        };
        match <Compatible as Property>::parse(self.node, root) {
            Ok(Some(c)) => Ok(c),
            Ok(None) => Err(FdtError::MissingRequiredProperty("compatible")),
            Err(e) => Err(e),
        }
    }

    /// The device's serial number (optional).
    pub fn serial_number(&self) -> (r: Result<Option<&'a str>, FdtError>)
        ensures
            opt_str_result(r, str_prop(self.node_view().this_view(), self.node_view().strings_view(), "serial-number".spec_bytes())),
    {
        node_str_prop(&self.node, "serial-number")
    }

    /// The form-factor of the system (optional, but recommended).
    pub fn chassis_type(&self) -> (r: Result<Option<&'a str>, FdtError>)
        ensures
            opt_str_result(r, str_prop(self.node_view().this_view(), self.node_view().strings_view(), "chassis-type".spec_bytes())),
    {
        node_str_prop(&self.node, "chassis-type")
    }

    fn required_node(&self, path: &str, missing: FdtError) -> (r: Result<Node<'a>, FdtError>)
        ensures
            required_node(r, find_node_spec(self.node_view().this_view(), self.node_view().parent_view(), path.spec_bytes()), missing),
            r matches Ok(n) ==> n.same_tree(self.node_view()),
    {
        match self.find_node(path) {
            Ok(Some(n)) => Ok(n),
            Ok(None) => Err(missing),
            Err(e) => Err(e),
        }
    }

    /// The `/chosen` node (required).
    pub fn chosen(&self) -> (r: Result<Chosen<'a>, FdtError>)
        ensures
            match find_node_spec(self.node_view().this_view(), self.node_view().parent_view(), "/chosen".spec_bytes()) {
                Err(e) => r == Err::<Chosen, FdtError>(e),
                Ok(None) => r == Err::<Chosen, FdtError>(FdtError::MissingRequiredNode("/chosen")),
                Ok(Some(p)) => r matches Ok(c) && c.node_view().this_view() == p.0 && c.node_view().parent_view() == p.1
                    && c.node_view().same_tree(self.node_view()),
            },
    {
        match self.required_node("/chosen", FdtError::MissingRequiredNode("/chosen")) {
            Ok(n) => Ok(Chosen::new(n)),
            Err(e) => Err(e),
        }
    }

    /// The `/cpus` node (required).
    pub fn cpus(&self) -> (r: Result<Cpus<'a>, FdtError>)
        ensures
            match find_node_spec(self.node_view().this_view(), self.node_view().parent_view(), "/cpus".spec_bytes()) {
                Err(e) => r == Err::<Cpus, FdtError>(e),
                Ok(None) => r == Err::<Cpus, FdtError>(FdtError::MissingRequiredNode("/cpus")),
                Ok(Some(p)) => r matches Ok(c) && c.node_view().this_view() == p.0 && c.node_view().parent_view() == p.1
                    && c.node_view().same_tree(self.node_view()),
            },
    {
        match self.required_node("/cpus", FdtError::MissingRequiredNode("/cpus")) {
            Ok(n) => Ok(Cpus::new(n)),
            Err(e) => Err(e),
        }
    }

    /// The `/memory` node (required).
    pub fn memory(&self) -> (r: Result<Memory<'a>, FdtError>)
        ensures
            match find_node_spec(self.node_view().this_view(), self.node_view().parent_view(), "/memory".spec_bytes()) {
                Err(e) => r == Err::<Memory, FdtError>(e),
                Ok(None) => r == Err::<Memory, FdtError>(FdtError::MissingRequiredNode("/memory")),
                Ok(Some(p)) => r matches Ok(c) && c.node_view().this_view() == p.0 && c.node_view().parent_view() == p.1
                    && c.node_view().same_tree(self.node_view()),
            },
    {
        match self.required_node("/memory", FdtError::MissingRequiredNode("/memory")) {
            Ok(n) => Ok(Memory::new(n)),
            Err(e) => Err(e),
        }
    }

    /// The `/reserved-memory` node.
    pub fn reserved_memory(&self) -> (r: Result<ReservedMemory<'a>, FdtError>)
        ensures
            match find_node_spec(self.node_view().this_view(), self.node_view().parent_view(), "/reserved-memory".spec_bytes()) {
                Err(e) => r == Err::<ReservedMemory, FdtError>(e),
                Ok(None) => r == Err::<ReservedMemory, FdtError>(FdtError::MissingRequiredNode("/reserved-memory")),
                Ok(Some(p)) => r matches Ok(c) && c.node_view().this_view() == p.0 && c.node_view().parent_view() == p.1
                    && c.node_view().same_tree(self.node_view()),
            },
    {
        match self.required_node("/reserved-memory", FdtError::MissingRequiredNode("/reserved-memory")) {
            Ok(n) => Ok(ReservedMemory::new(n)),
            Err(e) => Err(e),
        }
    }

    /// Attempt to resolve a [`PHandle`] to the node containing a `phandle`
    /// property with the value
    pub fn resolve_phandle(&self, phandle: PHandle) -> (r: Result<Option<Node<'a>>, FdtError>)
        ensures
            match walk_start(self.node_view().this_view()) {
                Err(e) => r == Err::<Option<Node>, FdtError>(e),
                Ok(st) => found_result(r, phandle_walk(st, phandle@, self.node_view().strings_view(), self.node_view().structs_view())),
            },
            r matches Ok(Some(n)) ==> n.same_tree(self.node_view()),
    {
        let mut all = match self.all_nodes() {
            Ok(it) => it,
            Err(e) => return Err(e),
        };
        let ghost st0 = all@;
        let want = phandle.as_u32();
        loop
            invariant
                all.wf(),
                all.strings_view() == self.node_view().strings_view(),
                all.structs_view() == self.node_view().structs_view(),
                walk_start(self.node_view().this_view()) == Ok::<WalkState, FdtError>(st0),
                phandle_walk(all@, want, all.strings_view(), all.structs_view())
                    == phandle_walk(st0, phandle@, self.node_view().strings_view(), self.node_view().structs_view()),
            decreases all@.stream.len(),
        {
            proof {
                lemma_walk_step_shrinks(all@);
            }
            match all.next() {
                None => return Ok(None),
                Some(Err(e)) => return Err(e),
                Some(Ok((_, node))) => {
                    match node.property::<PHandle>() {
                        Err(e) => return Err(e),
                        Ok(Some(p)) => {
                            if p.as_u32() == want {
                                return Ok(Some(node));
                            }
                        },
                        Ok(None) => {},
                    }
                },
            }
        }
    }

    /// Returns an iterator over every node within the devicetree which is
    /// compatible with at least one of the compatible strings contained within
    /// `with`
    pub fn all_compatible<'b>(self, with: &'b [&'b str]) -> (r: Result<AllCompatibleIter<'a, 'b>, FdtError>)
        ensures
            walk_start(self.node_view().this_view()) matches Ok(st) ==> r matches Ok(it) && it@ == st && it.wf()
                && it.with_view() == strs_bytes(with@)
                && it.strings_view() == self.node_view().strings_view()
                && it.structs_view() == self.node_view().structs_view(),
            walk_start(self.node_view().this_view()) matches Err(e) ==> r == Err::<AllCompatibleIter, FdtError>(e),
    {
        match self.all_nodes() {
            Ok(iter) => Ok(AllCompatibleIter { iter, with }),
            Err(e) => Err(e),
        }
    }
}

/// Iterator over the nodes that are compatible with one of a list of strings.
pub struct AllCompatibleIter<'a, 'b> {
    pub(crate) iter: AllNodesIter<'a>,
    pub(crate) with: &'b [&'b str],
}

impl<'a, 'b> View for AllCompatibleIter<'a, 'b> {
    type V = WalkState;

    closed spec fn view(&self) -> WalkState {
        self.iter@
    }
}

/// Whether `c` lists one of the strings `with`.
fn compatible_any(c: Compatible, with: &[&str]) -> (r: bool)
    ensures
        r == compatible_with_any(c@, strs_bytes(with@)),
{
    let mut i: usize = 0;
    while i < with.len()
        invariant
            i <= with@.len(),
            forall|j: int| 0 <= j < i ==> !split_pieces(c@, 0).contains(#[trigger] strs_bytes(with@)[j]),
        decreases with@.len() - i,
    {
        if c.compatible_with(with[i]) {
            assert(split_pieces(c@, 0).contains(strs_bytes(with@)[i as int]));
            return true;
        }
        i = i + 1;
    }
    false
}

impl<'a, 'b> AllCompatibleIter<'a, 'b> {
    /// The strings looked for.
    pub closed spec fn with_view(&self) -> Seq<Seq<u8>> {
        strs_bytes(self.with@)
    }

    /// The walk's state is coherent.
    pub closed spec fn wf(&self) -> bool {
        self.iter.wf()
    }

    /// The strings block.
    pub closed spec fn strings_view(&self) -> Seq<u8> {
        self.iter.strings_view()
    }

    /// The structure block.
    pub closed spec fn structs_view(&self) -> Seq<u8> {
        self.iter.structs_view()
    }

    /// The next compatible node.
    pub fn next(&mut self) -> (r: Option<Result<Node<'a>, FdtError>>)
        requires
            old(self).wf(),
        ensures
            final(self).wf(),
            final(self)@ == compat_step(old(self)@, old(self).with_view(), old(self).strings_view(), old(self).structs_view()).1,
            final(self).with_view() == old(self).with_view(),
            final(self).strings_view() == old(self).strings_view(),
            final(self).structs_view() == old(self).structs_view(),
            match compat_step(old(self)@, old(self).with_view(), old(self).strings_view(), old(self).structs_view()).0 {
                None => r is None,
                Some(Err(e)) => r == Some(Err::<Node, FdtError>(e)),
                Some(Ok(n)) => r matches Some(Ok(x)) && x.this_view() == n.0 && x.parent_view() == Some(n.1),
            },
    {
        let ghost st0 = self@;
        loop
            invariant
                self.iter.wf(),
                compat_step(self@, self.with_view(), self.strings_view(), self.structs_view())
                    == compat_step(st0, self.with_view(), self.strings_view(), self.structs_view()),
                st0 == old(self)@,
                self.with_view() == old(self).with_view(),
                self.strings_view() == old(self).strings_view(),
                self.structs_view() == old(self).structs_view(),
            decreases self@.stream.len(),
        {
            proof {
                lemma_walk_step_shrinks(self@);
            }
            match self.iter.next() {
                None => return None,
                Some(Err(e)) => return Some(Err(e)),
                Some(Ok((_, n))) => match n.property::<Compatible>() {
                    Err(e) => return Some(Err(e)),
                    Ok(None) => {},
                    Ok(Some(c)) => {
                        if compatible_any(c, self.with) {
                            return Some(Ok(n));
                        }
                    },
                },
            }
        }
    }
}

} // verus!
