//! The node-set engine: a `NodeSet` is an ordered sequence of node indices
//! into a [`Document`](crate::tree::Document), and each of the thirteen
//! XPath axes, plus the non-standard `document` axis, maps a node-set to a
//! fresh node-set.
//!
//! Every axis result is the concatenation, in context-node order, of
//! per-node expansions; the per-node expansion of each axis is given by a
//! spec function here, and each exec method is proved to return exactly
//! that expansion.

use vstd::prelude::*;

use crate::model::AxisSpecifier;
use crate::tree::{Document, NodeType, NodeView};

verus! {

/// Parents point strictly downwards in index order: the termination measure
/// for walks toward the root.  Implied by `wf_tree`.
pub open spec fn parents_decreasing(t: Seq<NodeView>) -> bool {
    forall|i: int|
        0 <= i < t.len() && (#[trigger] t[i].parent) is Some ==> t[i].parent->0 < i
}

/// Children point strictly upwards in index order and stay in bounds: the
/// termination measure for walks into subtrees.  Implied by `wf_tree`.
pub open spec fn children_increasing(t: Seq<NodeView>) -> bool {
    forall|i: int, k: int|
        0 <= i < t.len() && 0 <= k < t[i].children.len() ==> i < (#[trigger] t[i].children[k])
            < t.len()
}

/// A well-formed tree walks both ways.
pub proof fn lemma_wf_walks(t: Seq<NodeView>)
    requires
        crate::tree::wf_tree(t),
    ensures
        parents_decreasing(t),
        children_increasing(t),
{
    assert forall|i: int| 0 <= i < t.len() && (#[trigger] t[i].parent) is Some implies t[i].parent->0
        < i by {
        if t[i].node_type == NodeType::Attribute {
        } else if i == 0 {
        } else {
            assert(t[i].parent->0 < i);
        }
    }
    assert forall|i: int, k: int|
        0 <= i < t.len() && 0 <= k < t[i].children.len() implies i < (#[trigger] t[i].children[k])
        < t.len() by {
        assert(crate::tree::wf_node(t, i));
    }
}

/// The `self` axis: the context node itself.
pub open spec fn self_exp(t: Seq<NodeView>, n: usize) -> Seq<usize> {
    seq![n]
}

/// The `parent` axis: the parent of the context node, if there is one.
pub open spec fn parent_exp(t: Seq<NodeView>, n: usize) -> Seq<usize> {
    match t[n as int].parent {
        None => Seq::empty(),
        Some(p) => seq![p],
    }
}

/// The `child` axis: the children of the context node, in document order.
pub open spec fn child_exp(t: Seq<NodeView>, n: usize) -> Seq<usize> {
    t[n as int].children
}

/// The `document` axis: the owning document of the context node.  As in DOM
/// Level 2, the document node owns every other node but has no owning
/// document itself.
pub open spec fn document_exp(t: Seq<NodeView>, n: usize) -> Seq<usize> {
    if t[n as int].node_type == NodeType::Document {
        Seq::empty()
    } else {
        seq![0usize]
    }
}

/// The `ancestor` axis: the parent, the parent's parent, and so on, up to
/// and including the root; innermost first.
pub open spec fn ancestor_exp(t: Seq<NodeView>, n: usize) -> Seq<usize>
    decreases n,
        when n < t.len() && parents_decreasing(t)
{
    match t[n as int].parent {
        None => Seq::empty(),
        Some(p) => seq![p] + ancestor_exp(t, p),
    }
}

/// The `ancestor-or-self` axis: the context node first, then its ancestors.
pub open spec fn ancestor_or_self_exp(t: Seq<NodeView>, n: usize) -> Seq<usize> {
    seq![n] + ancestor_exp(t, n)
}

/// The pre-order walk of the subtree rooted at `n`: the node itself, then
/// each child's subtree in turn.
pub open spec fn subtree_exp(t: Seq<NodeView>, n: usize) -> Seq<usize>
    decreases t.len() - n, 1int, 0int,
        when n < t.len() && children_increasing(t)
{
    seq![n] + subtrees_exp(t, t[n as int].children, n)
}

/// The concatenation of the pre-order subtree walks of the nodes of `cs`,
/// each of which must lie beyond `lo` in the arena.
pub open spec fn subtrees_exp(t: Seq<NodeView>, cs: Seq<usize>, lo: usize) -> Seq<usize>
    decreases t.len() - lo, 0int, cs.len(),
        when lo < t.len() && children_increasing(t) && (forall|k: int|
            0 <= k < cs.len() ==> lo < (#[trigger] cs[k]) < t.len())
{
    if cs.len() == 0 {
        Seq::empty()
    } else {
        subtrees_exp(t, cs.drop_last(), lo) + subtree_exp(t, cs.last())
    }
}

/// The `descendant` axis: each child, followed by that child's own
/// descendants, in document order.
pub open spec fn descendant_exp(t: Seq<NodeView>, n: usize) -> Seq<usize> {
    subtrees_exp(t, t[n as int].children, n)
}

/// The `descendant-or-self` axis: the context node, then its descendants.
pub open spec fn descendant_or_self_exp(t: Seq<NodeView>, n: usize) -> Seq<usize> {
    subtree_exp(t, n)
}

/// The per-node expansion of `axis` at the context node `n`.
pub open spec fn axis_exp(t: Seq<NodeView>, n: usize, axis: AxisSpecifier) -> Seq<usize> {
    match axis {
        AxisSpecifier::Ancestor => ancestor_exp(t, n),
        AxisSpecifier::AncestorOrSelf => ancestor_or_self_exp(t, n),
        AxisSpecifier::Attribute => attribute_exp(t, n),
        AxisSpecifier::Child => child_exp(t, n),
        AxisSpecifier::Descendant => descendant_exp(t, n),
        AxisSpecifier::DescendantOrSelf => descendant_or_self_exp(t, n),
        AxisSpecifier::Following => following_exp(t, n),
        AxisSpecifier::FollowingSibling => following_sibling_exp(t, n),
        AxisSpecifier::Namespace => namespace_exp(t, n),
        AxisSpecifier::Parent => parent_exp(t, n),
        AxisSpecifier::Preceding => preceding_exp(t, n),
        AxisSpecifier::PrecedingSibling => preceding_sibling_exp(t, n),
        AxisSpecifier::SelfNode => self_exp(t, n),
    }
}

/// The expansion of a whole node-set along `axis`: the concatenation of the
/// per-node expansions, in context-node order.  Duplicates are kept.
pub open spec fn expand_axis(t: Seq<NodeView>, ns: Seq<usize>, axis: AxisSpecifier) -> Seq<usize>
    decreases ns.len(),
{
    if ns.len() == 0 {
        Seq::empty()
    } else {
        expand_axis(t, ns.drop_last(), axis) + axis_exp(t, ns.last(), axis)
    }
}

/// Expanding one more context node appends that node's own expansion.
pub proof fn lemma_expand_axis_take(t: Seq<NodeView>, ns: Seq<usize>, k: int, axis: AxisSpecifier)
    requires
        0 <= k < ns.len(),
    ensures
        expand_axis(t, ns.take(k + 1), axis) == expand_axis(t, ns.take(k), axis) + axis_exp(
            t,
            ns[k],
            axis,
        ),
{
    assert(ns.take(k + 1).drop_last() =~= ns.take(k));
    assert(ns.take(k + 1).last() == ns[k]);
}

/// The `following-sibling` axis: the children of the context node's parent
/// that come after the context node, in document order.
pub open spec fn following_sibling_exp(t: Seq<NodeView>, n: usize) -> Seq<usize> {
    match t[n as int].parent {
        None => Seq::empty(),
        Some(p) => {
            let cs = t[p as int].children;
            if cs.contains(n) {
                cs.subrange(cs.index_of(n) + 1, cs.len() as int)
            } else {
                Seq::empty()
            }
        },
    }
}

/// The `preceding-sibling` axis: the children of the context node's parent
/// that come before the context node, in document order.
pub open spec fn preceding_sibling_exp(t: Seq<NodeView>, n: usize) -> Seq<usize> {
    match t[n as int].parent {
        None => Seq::empty(),
        Some(p) => {
            let cs = t[p as int].children;
            if cs.contains(n) {
                cs.subrange(0, cs.index_of(n))
            } else {
                Seq::empty()
            }
        },
    }
}

/// The `following` axis: the subtree of each following sibling in turn, in
/// document order.
pub open spec fn following_exp(t: Seq<NodeView>, n: usize) -> Seq<usize> {
    match t[n as int].parent {
        None => Seq::empty(),
        Some(p) => subtrees_exp(t, following_sibling_exp(t, n), p),
    }
}

/// The reverse walk of the subtree below `n`: the children reversed, then
/// the reverse walk of each child in that reversed order.
pub open spec fn rev_descendant_exp(t: Seq<NodeView>, n: usize) -> Seq<usize>
    decreases t.len() - n, 1int, 0int,
        when n < t.len() && children_increasing(t)
{
    t[n as int].children.reverse() + rev_descendants_exp(t, t[n as int].children.reverse(), n)
}

/// The concatenation of the reverse subtree walks of the nodes of `cs`,
/// each of which must lie beyond `lo` in the arena.
pub open spec fn rev_descendants_exp(t: Seq<NodeView>, cs: Seq<usize>, lo: usize) -> Seq<usize>
    decreases t.len() - lo, 0int, cs.len(),
        when lo < t.len() && children_increasing(t) && (forall|k: int|
            0 <= k < cs.len() ==> lo < (#[trigger] cs[k]) < t.len())
{
    if cs.len() == 0 {
        Seq::empty()
    } else {
        rev_descendants_exp(t, cs.drop_last(), lo) + rev_descendant_exp(t, cs.last())
    }
}

/// The `preceding` axis: the preceding siblings, nearest first, then the
/// reverse walk of each in that order.  The order is adjacency order
/// (nearest preceding node first), a deliberate simplification of strict
/// reverse document order that this engine preserves.
pub open spec fn preceding_exp(t: Seq<NodeView>, n: usize) -> Seq<usize> {
    match t[n as int].parent {
        None => Seq::empty(),
        Some(p) => {
            let rsib = preceding_sibling_exp(t, n).reverse();
            rsib + rev_descendants_exp(t, rsib, p)
        },
    }
}

/// Whether the qualified name `s` declares a namespace: `xmlns` itself or
/// any name with the `xmlns` prefix.
pub open spec fn is_namespace_name(s: Seq<char>) -> bool {
    s == "xmlns"@ || (s.len() >= 6 && s.subrange(0, 6) == "xmlns:"@)
}

/// The attribute nodes among `attrs` whose names are namespace
/// declarations (with `namespace_ones` true), or whose names are not (with
/// it false), in declaration order.
pub open spec fn attrs_where(
    t: Seq<NodeView>,
    attrs: Seq<usize>,
    namespace_ones: bool,
) -> Seq<usize>
    decreases attrs.len(),
{
    if attrs.len() == 0 {
        Seq::empty()
    } else {
        let rest = attrs_where(t, attrs.drop_last(), namespace_ones);
        if is_namespace_name(t[attrs.last() as int].name) == namespace_ones {
            rest.push(attrs.last())
        } else {
            rest
        }
    }
}

/// The `attribute` axis: the attributes of an element context node, the
/// namespace declarations excluded; empty for any other node type.
pub open spec fn attribute_exp(t: Seq<NodeView>, n: usize) -> Seq<usize> {
    if t[n as int].node_type == NodeType::Element {
        attrs_where(t, t[n as int].attributes, false)
    } else {
        Seq::empty()
    }
}

/// The `namespace` axis: exactly the namespace declaration attributes of an
/// element context node; empty for any other node type.
pub open spec fn namespace_exp(t: Seq<NodeView>, n: usize) -> Seq<usize> {
    if t[n as int].node_type == NodeType::Element {
        attrs_where(t, t[n as int].attributes, true)
    } else {
        Seq::empty()
    }
}

/// A container of document nodes: the input to, and the output of, each
/// step of a path.  It is not truly a set: duplicates may occur, and the
/// order of items is defined by the individual axis functions — document
/// order by default.
#[derive(Debug, PartialEq)]
pub struct NodeSet(pub Vec<usize>);

impl Clone for NodeSet {
    /// Cloning keeps the nodes and their order.
    fn clone(&self) -> (r: Self)
        ensures
            r@ == self@,
    {
        let mut v: Vec<usize> = Vec::new();
        proof {
            assert(self@.take(0) =~= Seq::<usize>::empty());
        }
        let num = self.0.len();
        let mut k: usize = 0;
        while k < num
            invariant
                num == self@.len(),
                k <= num,
                v@ == self@.take(k as int),
            decreases num - k,
        {
            let n = self.0[k];
            proof {
                assert(self@.take(k + 1) =~= self@.take(k as int).push(n));
            }
            v.push(n);
            k += 1;
        }
        proof {
            assert(self@.take(num as int) =~= self@);
        }
        NodeSet(v)
    }
}

impl View for NodeSet {
    type V = Seq<usize>;

    open spec fn view(&self) -> Seq<usize> {
        self.0@
    }
}

impl NodeSet {
    /// Every node of this set lies within the arena of `t`.
    pub open spec fn bounded(&self, t: Seq<NodeView>) -> bool {
        forall|k: int| 0 <= k < self@.len() ==> (#[trigger] self@[k]) < t.len()
    }

    /// The number of nodes in the set, duplicates counted.
    pub fn len(&self) -> (n: usize)
        ensures
            n == self@.len(),
    {
        self.0.len()
    }

    /// Whether the set holds no node.
    pub fn is_empty(&self) -> (e: bool)
        ensures
            e == (self@.len() == 0),
    {
        self.0.is_empty()
    }

    /// The nodes of the set, in order.
    pub fn as_slice(&self) -> (s: &[usize])
        ensures
            s@ == self@,
    {
        self.0.as_slice()
    }

    /// The node at position `i` of the set.
    pub fn get(&self, i: usize) -> (n: usize)
        requires
            i < self@.len(),
        ensures
            n == self@[i as int],
    {
        self.0[i]
    }

    /// Whether every node of this set lies within the arena of `doc`;
    /// returns exactly [`NodeSet::bounded`].
    pub fn check_bounded(&self, doc: &Document) -> (b: bool)
        ensures
            b == self.bounded(doc@),
    {
        let num = self.0.len();
        let dlen = doc.len();
        let mut k: usize = 0;
        while k < num
            invariant
                num == self@.len(),
                dlen == doc@.len(),
                k <= num,
                forall|i: int| 0 <= i < k ==> (#[trigger] self@[i]) < doc@.len(),
            decreases num - k,
        {
            if self.0[k] >= dlen {
                return false;
            }
            k += 1;
        }
        true
    }

    /// A set holding the given nodes, in the given order.
    pub fn from_vec(nodes: Vec<usize>) -> (ns: NodeSet)
        ensures
            ns@ == nodes@,
    {
        NodeSet(nodes)
    }
}

impl Default for NodeSet {
    /// The empty node-set.
    fn default() -> (ns: NodeSet)
        ensures
            ns@ == Seq::<usize>::empty(),
    {
        NodeSet(Vec::new())
    }
}

impl NodeSet {
    /// A node-set holding the one node `n`.
    pub fn from(n: usize) -> (ns: NodeSet)
        ensures
            ns@ == seq![n],
    {
        let mut v: Vec<usize> = Vec::new();
        v.push(n);
        NodeSet(v)
    }
}


/// Append the ancestors of `n`, innermost first, to `out`.
fn push_ancestors(doc: &Document, n: usize, out: &mut Vec<usize>)
    requires
        doc.wf(),
        n < doc@.len(),
    ensures
        final(out)@ == old(out)@ + ancestor_exp(doc@, n),
{
    proof {
        lemma_wf_walks(doc@);
    }
    let ghost t = doc@;
    let mut cur = n;
    loop
        invariant
            doc.wf(),
            parents_decreasing(t),
            cur < t.len(),
            t == doc@,
            out@ + ancestor_exp(t, cur) == old(out)@ + ancestor_exp(t, n),
        ensures
            out@ == old(out)@ + ancestor_exp(t, n),
        decreases cur,
    {
        match doc.nodes[cur].parent {
            None => {
                proof {
                    assert(ancestor_exp(t, cur) =~= Seq::<usize>::empty());
                    assert(out@ + Seq::<usize>::empty() =~= out@);
                }
                break ;
            },
            Some(p) => {
                proof {
                    assert(ancestor_exp(t, cur) == seq![p] + ancestor_exp(t, p));
                    assert(out@ + (seq![p] + ancestor_exp(t, p)) =~= (out@ + seq![p])
                        + ancestor_exp(t, p));
                    assert(out@.push(p) =~= out@ + seq![p]);
                }
                out.push(p);
                cur = p;
            },
        }
    }
}

/// Append the pre-order walk of the subtree rooted at `n` to `out`.
fn push_subtree(doc: &Document, n: usize, out: &mut Vec<usize>)
    requires
        doc.wf(),
        n < doc@.len(),
    ensures
        final(out)@ == old(out)@ + subtree_exp(doc@, n),
    decreases doc@.len() - n,
{
    proof {
        lemma_wf_walks(doc@);
    }
    let ghost t = doc@;
    let ghost cs = t[n as int].children;
    out.push(n);
    proof {
        assert(out@ =~= old(out)@ + seq![n]);
        assert(cs.take(0) =~= Seq::<usize>::empty());
        assert(out@ + subtrees_exp(t, cs.take(0), n) =~= out@);
    }
    let num = doc.nodes[n].children.len();
    let mut k: usize = 0;
    while k < num
        invariant
            doc.wf(),
            children_increasing(t),
            t == doc@,
            n < t.len(),
            cs == t[n as int].children,
            num == cs.len(),
            k <= num,
            out@ == old(out)@ + seq![n] + subtrees_exp(t, cs.take(k as int), n),
        decreases num - k,
    {
        let c = doc.nodes[n].children[k];
        proof {
            assert(crate::tree::wf_node(t, n as int));
            assert(n < c < t.len());
        }
        push_subtree(doc, c, out);
        proof {
            assert(cs.take(k + 1).drop_last() =~= cs.take(k as int));
            assert(cs.take(k + 1).last() == c);
            assert(subtrees_exp(t, cs.take(k + 1), n) == subtrees_exp(t, cs.take(k as int), n)
                + subtree_exp(t, c));
            assert((old(out)@ + seq![n] + subtrees_exp(t, cs.take(k as int), n)) + subtree_exp(t, c)
                =~= old(out)@ + seq![n] + (subtrees_exp(t, cs.take(k as int), n) + subtree_exp(
                t,
                c,
            )));
        }
        k += 1;
    }
    proof {
        assert(cs.take(num as int) =~= cs);
        assert(old(out)@ + seq![n] + subtrees_exp(t, cs, n) =~= old(out)@ + (seq![n]
            + subtrees_exp(t, cs, n)));
    }
}

/// Append the reverse walk of the subtree below `n` to `out`: the children
/// reversed, then each child's reverse walk in that reversed order.
fn push_rev_descendants(doc: &Document, n: usize, out: &mut Vec<usize>)
    requires
        doc.wf(),
        n < doc@.len(),
    ensures
        final(out)@ == old(out)@ + rev_descendant_exp(doc@, n),
    decreases doc@.len() - n,
{
    proof {
        lemma_wf_walks(doc@);
    }
    let ghost t = doc@;
    let ghost cs = t[n as int].children;
    let ghost rcs = cs.reverse();
    let num = doc.nodes[n].children.len();
    proof {
        assert(rcs.take(0) =~= Seq::<usize>::empty());
        assert(out@ + rcs.take(0) =~= out@);
    }
    let mut q: usize = 0;
    while q < num
        invariant
            doc.wf(),
            t == doc@,
            n < t.len(),
            cs == t[n as int].children,
            rcs == cs.reverse(),
            num == cs.len(),
            q <= num,
            out@ == old(out)@ + rcs.take(q as int),
        decreases num - q,
    {
        let c = doc.nodes[n].children[num - 1 - q];
        proof {
            assert(rcs[q as int] == cs[num - 1 - q]);
            assert(rcs.take(q + 1) =~= rcs.take(q as int).push(c));
            assert(out@.push(c) =~= (old(out)@ + rcs.take(q as int)).push(c));
            assert((old(out)@ + rcs.take(q as int)).push(c) =~= old(out)@ + rcs.take(q + 1));
        }
        out.push(c);
        q += 1;
    }
    proof {
        assert(rcs.take(num as int) =~= rcs);
        assert(rev_descendants_exp(t, rcs.take(0), n) =~= Seq::<usize>::empty());
        assert(out@ + rev_descendants_exp(t, rcs.take(0), n) =~= out@);
    }
    let mut q2: usize = 0;
    while q2 < num
        invariant
            doc.wf(),
            children_increasing(t),
            t == doc@,
            n < t.len(),
            cs == t[n as int].children,
            rcs == cs.reverse(),
            num == cs.len(),
            q2 <= num,
            out@ == old(out)@ + rcs + rev_descendants_exp(t, rcs.take(q2 as int), n),
        decreases num - q2,
    {
        let c = doc.nodes[n].children[num - 1 - q2];
        proof {
            assert(crate::tree::wf_node(t, n as int));
            assert(cs[num - 1 - q2] == c);
            assert(n < c < t.len());
        }
        push_rev_descendants(doc, c, out);
        proof {
            assert(rcs[q2 as int] == cs[num - 1 - q2]);
            assert(rcs.take(q2 + 1).drop_last() =~= rcs.take(q2 as int));
            assert(rcs.take(q2 + 1).last() == c);
            assert(rev_descendants_exp(t, rcs.take(q2 + 1), n) == rev_descendants_exp(
                t,
                rcs.take(q2 as int),
                n,
            ) + rev_descendant_exp(t, c));
            assert((old(out)@ + rcs + rev_descendants_exp(t, rcs.take(q2 as int), n))
                + rev_descendant_exp(t, c) =~= old(out)@ + rcs + (rev_descendants_exp(
                t,
                rcs.take(q2 as int),
                n,
            ) + rev_descendant_exp(t, c)));
        }
        q2 += 1;
    }
    proof {
        assert(rcs.take(num as int) =~= rcs);
        assert(old(out)@ + rcs + rev_descendants_exp(t, rcs, n) =~= old(out)@ + (rcs
            + rev_descendants_exp(t, rcs, n)));
    }
}

/// Whether the qualified name `s` declares a namespace: `xmlns` itself or a
/// name carrying the `xmlns` prefix.
pub fn is_namespace_attr_name(s: &str) -> (b: bool)
    ensures
        b == is_namespace_name(s@),
{
    proof {
        reveal_strlit("xmlns");
        reveal_strlit("xmlns:");
    }
    let n = s.unicode_len();
    if n == 5 {
        let b = s.get_char(0) == 'x' && s.get_char(1) == 'm' && s.get_char(2) == 'l' && s.get_char(
            3,
        ) == 'n' && s.get_char(4) == 's';
        proof {
            if b {
                assert(s@ =~= "xmlns"@);
            } else {
                assert(s@ != "xmlns"@);
            }
        }
        b
    } else if n >= 6 {
        let b = s.get_char(0) == 'x' && s.get_char(1) == 'm' && s.get_char(2) == 'l' && s.get_char(
            3,
        ) == 'n' && s.get_char(4) == 's' && s.get_char(5) == ':';
        proof {
            if b {
                assert(s@.subrange(0, 6) =~= "xmlns:"@);
            } else {
                assert(s@.subrange(0, 6)[0] == s@[0]);
                assert(s@.subrange(0, 6)[1] == s@[1]);
                assert(s@.subrange(0, 6)[2] == s@[2]);
                assert(s@.subrange(0, 6)[3] == s@[3]);
                assert(s@.subrange(0, 6)[4] == s@[4]);
                assert(s@.subrange(0, 6)[5] == s@[5]);
                assert(s@.subrange(0, 6) != "xmlns:"@);
            }
            assert(s@ != "xmlns"@);
        }
        b
    } else {
        proof {
            assert(s@ != "xmlns"@);
        }
        false
    }
}

/// Append the attributes of `n` whose names are, or are not, namespace
/// declarations to `out`, in declaration order.
fn push_attrs_where(doc: &Document, n: usize, namespace_ones: bool, out: &mut Vec<usize>)
    requires
        doc.wf(),
        n < doc@.len(),
    ensures
        final(out)@ == old(out)@ + attrs_where(doc@, doc@[n as int].attributes, namespace_ones),
{
    let ghost t = doc@;
    let ghost attrs = t[n as int].attributes;
    proof {
        assert(attrs.take(0) =~= Seq::<usize>::empty());
        assert(attrs_where(t, attrs.take(0), namespace_ones) =~= Seq::<usize>::empty());
        assert(out@ + attrs_where(t, attrs.take(0), namespace_ones) =~= out@);
    }
    let num = doc.nodes[n].attributes.len();
    let mut k: usize = 0;
    while k < num
        invariant
            doc.wf(),
            t == doc@,
            n < t.len(),
            attrs == t[n as int].attributes,
            num == attrs.len(),
            k <= num,
            out@ == old(out)@ + attrs_where(t, attrs.take(k as int), namespace_ones),
        decreases num - k,
    {
        let a = doc.nodes[n].attributes[k];
        proof {
            assert(crate::tree::wf_node(t, n as int));
            assert(a < t.len());
            assert(attrs.take(k + 1).drop_last() =~= attrs.take(k as int));
            assert(attrs.take(k + 1).last() == a);
        }
        let is_ns = is_namespace_attr_name(&doc.nodes[a].name);
        if is_ns == namespace_ones {
            proof {
                assert(attrs_where(t, attrs.take(k + 1), namespace_ones) == attrs_where(
                    t,
                    attrs.take(k as int),
                    namespace_ones,
                ).push(a));
                assert((old(out)@ + attrs_where(t, attrs.take(k as int), namespace_ones)).push(a)
                    =~= old(out)@ + attrs_where(t, attrs.take(k as int), namespace_ones).push(a));
            }
            out.push(a);
        } else {
            proof {
                assert(attrs_where(t, attrs.take(k + 1), namespace_ones) == attrs_where(
                    t,
                    attrs.take(k as int),
                    namespace_ones,
                ));
            }
        }
        k += 1;
    }
    proof {
        assert(attrs.take(num as int) =~= attrs);
    }
}

/// The position of `n` in the child list of `p`.
fn find_child_index(doc: &Document, p: usize, n: usize) -> (j: usize)
    requires
        doc.wf(),
        p < doc@.len(),
        doc@[p as int].children.contains(n),
    ensures
        j < doc@[p as int].children.len(),
        doc@[p as int].children[j as int] == n,
        doc@[p as int].children.index_of(n) == j,
{
    let ghost t = doc@;
    let ghost cs = t[p as int].children;
    proof {
        assert(cs.len() > 0);
    }
    let num = doc.nodes[p].children.len();
    let mut j: usize = 0;
    loop
        invariant_except_break
            doc.wf(),
            t == doc@,
            p < t.len(),
            cs == t[p as int].children,
            num == cs.len(),
            j < num,
            forall|i: int| 0 <= i < j ==> cs[i] != n,
            cs.contains(n),
        ensures
            j < cs.len() && cs[j as int] == n && (forall|i: int| 0 <= i < j ==> cs[i] != n),
        decreases cs.len() - j,
    {
        if doc.nodes[p].children[j] == n {
            break ;
        }
        proof {
            let idx = choose|i: int| 0 <= i < cs.len() && cs[i] == n;
            assert(idx > j);
        }
        j += 1;
    }
    proof {
        assert(crate::tree::wf_node(t, p as int));
        assert(cs.no_duplicates());
        let idx = cs.index_of(n);
        assert(0 <= idx < cs.len() && cs[idx] == n);
        if idx != j {
            assert(cs[idx] == cs[j as int]);
            assert(false);
        }
    }
    j
}

/// Append the per-node expansion of `axis` at `n` to `out`.
fn push_axis(doc: &Document, n: usize, axis: AxisSpecifier, out: &mut Vec<usize>)
    requires
        doc.wf(),
        n < doc@.len(),
    ensures
        final(out)@ == old(out)@ + axis_exp(doc@, n, axis),
{
    proof {
        lemma_wf_walks(doc@);
    }
    let ghost t = doc@;
    match axis {
        AxisSpecifier::Ancestor => {
            push_ancestors(doc, n, out);
        },
        AxisSpecifier::AncestorOrSelf => {
            out.push(n);
            proof {
                assert(out@ =~= old(out)@ + seq![n]);
            }
            push_ancestors(doc, n, out);
            proof {
                assert((old(out)@ + seq![n]) + ancestor_exp(t, n) =~= old(out)@ + (seq![n]
                    + ancestor_exp(t, n)));
            }
        },
        AxisSpecifier::Attribute => {
            if matches!(doc.nodes[n].node_type, NodeType::Element) {
                push_attrs_where(doc, n, false, out);
            } else {
                proof {
                    assert(out@ + attribute_exp(t, n) =~= out@);
                }
            }
        },
        AxisSpecifier::Child => {
            let ghost cs = t[n as int].children;
            proof {
                assert(out@ + cs.take(0) =~= out@);
            }
            let num = doc.nodes[n].children.len();
            let mut k: usize = 0;
            while k < num
                invariant
                    doc.wf(),
                    t == doc@,
                    n < t.len(),
                    cs == t[n as int].children,
                    num == cs.len(),
                    k <= num,
                    out@ == old(out)@ + cs.take(k as int),
                decreases num - k,
            {
                let c = doc.nodes[n].children[k];
                proof {
                    assert(cs.take(k + 1) =~= cs.take(k as int).push(c));
                    assert((old(out)@ + cs.take(k as int)).push(c) =~= old(out)@ + cs.take(k + 1));
                }
                out.push(c);
                k += 1;
            }
            proof {
                assert(cs.take(num as int) =~= cs);
            }
        },
        AxisSpecifier::Descendant => {
            let ghost cs = t[n as int].children;
            proof {
                assert(cs.take(0) =~= Seq::<usize>::empty());
                assert(out@ + subtrees_exp(t, cs.take(0), n) =~= out@);
            }
            let num = doc.nodes[n].children.len();
            let mut k: usize = 0;
            while k < num
                invariant
                    doc.wf(),
                    children_increasing(t),
                    t == doc@,
                    n < t.len(),
                    cs == t[n as int].children,
                    num == cs.len(),
                    k <= num,
                    out@ == old(out)@ + subtrees_exp(t, cs.take(k as int), n),
                decreases num - k,
            {
                let c = doc.nodes[n].children[k];
                proof {
                    assert(crate::tree::wf_node(t, n as int));
                    assert(n < c < t.len());
                }
                push_subtree(doc, c, out);
                proof {
                    assert(cs.take(k + 1).drop_last() =~= cs.take(k as int));
                    assert(cs.take(k + 1).last() == c);
                    assert((old(out)@ + subtrees_exp(t, cs.take(k as int), n)) + subtree_exp(t, c)
                        =~= old(out)@ + (subtrees_exp(t, cs.take(k as int), n) + subtree_exp(
                        t,
                        c,
                    )));
                }
                k += 1;
            }
            proof {
                assert(cs.take(num as int) =~= cs);
            }
        },
        AxisSpecifier::DescendantOrSelf => {
            push_subtree(doc, n, out);
        },
        AxisSpecifier::Following => {
            match doc.nodes[n].parent {
                None => {
                    proof {
                        assert(out@ + following_exp(t, n) =~= out@);
                    }
                },
                Some(p) => {
                    let ghost cs = t[p as int].children;
                    let ghost fs = following_sibling_exp(t, n);
                    let j = find_child_index(doc, p, n);
                    proof {
                        assert(fs == cs.subrange(j + 1, cs.len() as int));
                        assert(fs.take(0) =~= Seq::<usize>::empty());
                        assert(out@ + subtrees_exp(t, fs.take(0), p) =~= out@);
                    }
                    let num = doc.nodes[p].children.len();
                    let mut m: usize = j + 1;
                    while m < num
                        invariant
                            doc.wf(),
                            children_increasing(t),
                            t == doc@,
                            n < t.len(),
                            p < t.len(),
                            cs == t[p as int].children,
                            fs == following_sibling_exp(t, n),
                            fs == cs.subrange(j + 1, cs.len() as int),
                            num == cs.len(),
                            j < num,
                            j + 1 <= m <= num,
                            out@ == old(out)@ + subtrees_exp(t, fs.take(m - j - 1), p),
                        decreases num - m,
                    {
                        let c = doc.nodes[p].children[m];
                        proof {
                            assert(crate::tree::wf_node(t, p as int));
                            assert(p < c < t.len());
                            assert(fs[m - j - 1] == cs[m as int]);
                        }
                        push_subtree(doc, c, out);
                        proof {
                            assert(fs.take(m - j).drop_last() =~= fs.take(m - j - 1));
                            assert(fs.take(m - j).last() == c);
                            assert((old(out)@ + subtrees_exp(t, fs.take(m - j - 1), p))
                                + subtree_exp(t, c) =~= old(out)@ + (subtrees_exp(
                                t,
                                fs.take(m - j - 1),
                                p,
                            ) + subtree_exp(t, c)));
                        }
                        m += 1;
                    }
                    proof {
                        assert(fs.take(num - j - 1) =~= fs);
                    }
                },
            }
        },
        AxisSpecifier::FollowingSibling => {
            match doc.nodes[n].parent {
                None => {
                    proof {
                        assert(out@ + following_sibling_exp(t, n) =~= out@);
                    }
                },
                Some(p) => {
                    let ghost cs = t[p as int].children;
                    let ghost fs = following_sibling_exp(t, n);
                    let j = find_child_index(doc, p, n);
                    proof {
                        assert(fs == cs.subrange(j + 1, cs.len() as int));
                        assert(out@ + fs.take(0) =~= out@);
                    }
                    let num = doc.nodes[p].children.len();
                    let mut m: usize = j + 1;
                    while m < num
                        invariant
                            doc.wf(),
                            t == doc@,
                            p < t.len(),
                            cs == t[p as int].children,
                            fs == cs.subrange(j + 1, cs.len() as int),
                            num == cs.len(),
                            j < num,
                            j + 1 <= m <= num,
                            out@ == old(out)@ + fs.take(m - j - 1),
                        decreases num - m,
                    {
                        let c = doc.nodes[p].children[m];
                        proof {
                            assert(fs[m - j - 1] == cs[m as int]);
                            assert(fs.take(m - j) =~= fs.take(m - j - 1).push(c));
                            assert((old(out)@ + fs.take(m - j - 1)).push(c) =~= old(out)@
                                + fs.take(m - j));
                        }
                        out.push(c);
                        m += 1;
                    }
                    proof {
                        assert(fs.take(num - j - 1) =~= fs);
                        assert(following_sibling_exp(t, n) == fs);
                    }
                },
            }
        },
        AxisSpecifier::Namespace => {
            if matches!(doc.nodes[n].node_type, NodeType::Element) {
                push_attrs_where(doc, n, true, out);
            } else {
                proof {
                    assert(out@ + namespace_exp(t, n) =~= out@);
                }
            }
        },
        AxisSpecifier::Parent => {
            match doc.nodes[n].parent {
                None => {
                    proof {
                        assert(out@ + parent_exp(t, n) =~= out@);
                    }
                },
                Some(p) => {
                    proof {
                        assert(out@.push(p) =~= out@ + parent_exp(t, n));
                    }
                    out.push(p);
                },
            }
        },
        AxisSpecifier::Preceding => {
            match doc.nodes[n].parent {
                None => {
                    proof {
                        assert(out@ + preceding_exp(t, n) =~= out@);
                    }
                },
                Some(p) => {
                    let ghost cs = t[p as int].children;
                    let ghost ps = preceding_sibling_exp(t, n);
                    let ghost rsib = ps.reverse();
                    let j = find_child_index(doc, p, n);
                    proof {
                        assert(ps == cs.subrange(0, j as int));
                        assert(rsib.len() == j);
                        assert(out@ + rsib.take(0) =~= out@);
                    }
                    let mut q: usize = 0;
                    while q < j
                        invariant
                            doc.wf(),
                            t == doc@,
                            p < t.len(),
                            cs == t[p as int].children,
                            ps == cs.subrange(0, j as int),
                            rsib == ps.reverse(),
                            j < cs.len(),
                            q <= j,
                            out@ == old(out)@ + rsib.take(q as int),
                        decreases j - q,
                    {
                        let c = doc.nodes[p].children[j - 1 - q];
                        proof {
                            assert(rsib[q as int] == ps[j - 1 - q]);
                            assert(ps[j - 1 - q] == cs[j - 1 - q]);
                            assert(rsib.take(q + 1) =~= rsib.take(q as int).push(c));
                            assert((old(out)@ + rsib.take(q as int)).push(c) =~= old(out)@
                                + rsib.take(q + 1));
                        }
                        out.push(c);
                        q += 1;
                    }
                    proof {
                        assert(rsib.take(j as int) =~= rsib);
                        assert(rev_descendants_exp(t, rsib.take(0), p) =~= Seq::<usize>::empty());
                        assert(out@ + rev_descendants_exp(t, rsib.take(0), p) =~= out@);
                    }
                    let mut q2: usize = 0;
                    while q2 < j
                        invariant
                            doc.wf(),
                            children_increasing(t),
                            t == doc@,
                            p < t.len(),
                            cs == t[p as int].children,
                            ps == cs.subrange(0, j as int),
                            rsib == ps.reverse(),
                            j < cs.len(),
                            q2 <= j,
                            out@ == old(out)@ + rsib + rev_descendants_exp(
                                t,
                                rsib.take(q2 as int),
                                p,
                            ),
                        decreases j - q2,
                    {
                        let c = doc.nodes[p].children[j - 1 - q2];
                        proof {
                            assert(crate::tree::wf_node(t, p as int));
                            assert(cs[j - 1 - q2] == c);
                            assert(p < c < t.len());
                            assert(rsib[q2 as int] == ps[j - 1 - q2]);
                            assert(ps[j - 1 - q2] == cs[j - 1 - q2]);
                        }
                        push_rev_descendants(doc, c, out);
                        proof {
                            assert(rsib.take(q2 + 1).drop_last() =~= rsib.take(q2 as int));
                            assert(rsib.take(q2 + 1).last() == c);
                            assert(rev_descendants_exp(t, rsib.take(q2 + 1), p)
                                == rev_descendants_exp(t, rsib.take(q2 as int), p)
                                + rev_descendant_exp(t, c));
                            assert((old(out)@ + rsib + rev_descendants_exp(
                                t,
                                rsib.take(q2 as int),
                                p,
                            )) + rev_descendant_exp(t, c) =~= old(out)@ + rsib
                                + (rev_descendants_exp(t, rsib.take(q2 as int), p)
                                + rev_descendant_exp(t, c)));
                        }
                        q2 += 1;
                    }
                    proof {
                        assert(rsib.take(j as int) =~= rsib);
                        assert(old(out)@ + rsib + rev_descendants_exp(t, rsib, p) =~= old(out)@
                            + (rsib + rev_descendants_exp(t, rsib, p)));
                    }
                },
            }
        },
        AxisSpecifier::PrecedingSibling => {
            match doc.nodes[n].parent {
                None => {
                    proof {
                        assert(out@ + preceding_sibling_exp(t, n) =~= out@);
                    }
                },
                Some(p) => {
                    let ghost cs = t[p as int].children;
                    let ghost ps = preceding_sibling_exp(t, n);
                    let j = find_child_index(doc, p, n);
                    proof {
                        assert(ps == cs.subrange(0, j as int));
                        assert(out@ + ps.take(0) =~= out@);
                    }
                    let mut m: usize = 0;
                    while m < j
                        invariant
                            doc.wf(),
                            t == doc@,
                            p < t.len(),
                            cs == t[p as int].children,
                            ps == cs.subrange(0, j as int),
                            j < cs.len(),
                            m <= j,
                            out@ == old(out)@ + ps.take(m as int),
                        decreases j - m,
                    {
                        let c = doc.nodes[p].children[m];
                        proof {
                            assert(ps[m as int] == cs[m as int]);
                            assert(ps.take(m + 1) =~= ps.take(m as int).push(c));
                            assert((old(out)@ + ps.take(m as int)).push(c) =~= old(out)@ + ps.take(
                                m + 1,
                            ));
                        }
                        out.push(c);
                        m += 1;
                    }
                    proof {
                        assert(ps.take(j as int) =~= ps);
                        assert(preceding_sibling_exp(t, n) == ps);
                    }
                },
            }
        },
        AxisSpecifier::SelfNode => {
            proof {
                assert(out@.push(n) =~= out@ + self_exp(t, n));
            }
            out.push(n);
        },
    }
}

impl NodeSet {
    /// Expand every node of this set along `axis`, in context-node order.
    fn expand(&self, doc: &Document, axis: AxisSpecifier) -> (r: NodeSet)
        requires
            doc.wf(),
            self.bounded(doc@),
        ensures
            r@ == expand_axis(doc@, self@, axis),
    {
        let ghost t = doc@;
        let mut out: Vec<usize> = Vec::new();
        proof {
            assert(self@.take(0) =~= Seq::<usize>::empty());
        }
        let num = self.0.len();
        let mut k: usize = 0;
        while k < num
            invariant
                doc.wf(),
                self.bounded(doc@),
                t == doc@,
                num == self@.len(),
                k <= num,
                out@ == expand_axis(t, self@.take(k as int), axis),
            decreases num - k,
        {
            let n = self.0[k];
            push_axis(doc, n, axis, &mut out);
            proof {
                lemma_expand_axis_take(t, self@, k as int, axis);
            }
            k += 1;
        }
        proof {
            assert(self@.take(num as int) =~= self@);
        }
        NodeSet(out)
    }
}



impl NodeSet {
    /// The `ancestor` axis: for each context node, its parent, the parent's
    /// parent, and so on up to the root, innermost first.
    pub fn ancestor(&self, doc: &Document) -> (r: NodeSet)
        requires
            doc.wf(),
            self.bounded(doc@),
        ensures
            r@ == expand_axis(doc@, self@, AxisSpecifier::Ancestor),
    {
        self.expand(doc, AxisSpecifier::Ancestor)
    }

    /// The `ancestor-or-self` axis: each context node itself, then its
    /// ancestors, innermost first.
    pub fn ancestor_or_self(&self, doc: &Document) -> (r: NodeSet)
        requires
            doc.wf(),
            self.bounded(doc@),
        ensures
            r@ == expand_axis(doc@, self@, AxisSpecifier::AncestorOrSelf),
    {
        self.expand(doc, AxisSpecifier::AncestorOrSelf)
    }

    /// The `attribute` axis: the attributes of each element context node,
    /// in declaration order, namespace declarations excluded; empty for any
    /// other node type.
    pub fn attribute(&self, doc: &Document) -> (r: NodeSet)
        requires
            doc.wf(),
            self.bounded(doc@),
        ensures
            r@ == expand_axis(doc@, self@, AxisSpecifier::Attribute),
    {
        self.expand(doc, AxisSpecifier::Attribute)
    }

    /// The `child` axis: the children of each context node, in document
    /// order.
    pub fn child(&self, doc: &Document) -> (r: NodeSet)
        requires
            doc.wf(),
            self.bounded(doc@),
        ensures
            r@ == expand_axis(doc@, self@, AxisSpecifier::Child),
    {
        self.expand(doc, AxisSpecifier::Child)
    }

    /// The `descendant` axis: the descendants of each context node in
    /// document order — each child followed by that child's own subtree.
    pub fn descendant(&self, doc: &Document) -> (r: NodeSet)
        requires
            doc.wf(),
            self.bounded(doc@),
        ensures
            r@ == expand_axis(doc@, self@, AxisSpecifier::Descendant),
    {
        self.expand(doc, AxisSpecifier::Descendant)
    }

    /// The `descendant-or-self` axis: each context node, then its
    /// descendants, in document order.
    pub fn descendant_or_self(&self, doc: &Document) -> (r: NodeSet)
        requires
            doc.wf(),
            self.bounded(doc@),
        ensures
            r@ == expand_axis(doc@, self@, AxisSpecifier::DescendantOrSelf),
    {
        self.expand(doc, AxisSpecifier::DescendantOrSelf)
    }

    /// The non-standard `document` axis: the owning document node of each
    /// context node that has one.  The document node owns every other node
    /// but has no owning document itself.
    pub fn document(&self, doc: &Document) -> (r: NodeSet)
        requires
            doc.wf(),
            self.bounded(doc@),
        ensures
            r@ == expand_document(doc@, self@),
    {
        let ghost t = doc@;
        let mut out: Vec<usize> = Vec::new();
        proof {
            assert(self@.take(0) =~= Seq::<usize>::empty());
        }
        let num = self.0.len();
        let mut k: usize = 0;
        while k < num
            invariant
                doc.wf(),
                self.bounded(doc@),
                t == doc@,
                num == self@.len(),
                k <= num,
                out@ == expand_document(t, self@.take(k as int)),
            decreases num - k,
        {
            let n = self.0[k];
            proof {
                assert(self@.take(k + 1).drop_last() =~= self@.take(k as int));
                assert(self@.take(k + 1).last() == n);
            }
            if !matches!(doc.nodes[n].node_type, NodeType::Document) {
                proof {
                    assert(out@.push(0usize) =~= out@ + document_exp(t, n));
                }
                out.push(0);
            } else {
                proof {
                    assert(out@ + document_exp(t, n) =~= out@);
                }
            }
            k += 1;
        }
        proof {
            assert(self@.take(num as int) =~= self@);
        }
        NodeSet(out)
    }

    /// The `following` axis: for each context node, the full subtree of
    /// each following sibling in turn, in document order.
    pub fn following(&self, doc: &Document) -> (r: NodeSet)
        requires
            doc.wf(),
            self.bounded(doc@),
        ensures
            r@ == expand_axis(doc@, self@, AxisSpecifier::Following),
    {
        self.expand(doc, AxisSpecifier::Following)
    }

    /// The `following-sibling` axis: the siblings after each context node,
    /// in document order; empty for a node without a parent (the document
    /// node and attribute nodes).
    pub fn following_sibling(&self, doc: &Document) -> (r: NodeSet)
        requires
            doc.wf(),
            self.bounded(doc@),
        ensures
            r@ == expand_axis(doc@, self@, AxisSpecifier::FollowingSibling),
    {
        self.expand(doc, AxisSpecifier::FollowingSibling)
    }

    /// The `namespace` axis: exactly the namespace declaration attributes
    /// of each element context node; empty for any other node type.
    pub fn namespace(&self, doc: &Document) -> (r: NodeSet)
        requires
            doc.wf(),
            self.bounded(doc@),
        ensures
            r@ == expand_axis(doc@, self@, AxisSpecifier::Namespace),
    {
        self.expand(doc, AxisSpecifier::Namespace)
    }

    /// The `parent` axis: the parent of each context node that has one.
    pub fn parent(&self, doc: &Document) -> (r: NodeSet)
        requires
            doc.wf(),
            self.bounded(doc@),
        ensures
            r@ == expand_axis(doc@, self@, AxisSpecifier::Parent),
    {
        self.expand(doc, AxisSpecifier::Parent)
    }

    /// The `preceding` axis: for each context node, the preceding siblings
    /// nearest first, then the reverse walk of each in that order.  The
    /// order is adjacency order (nearest preceding node first), a
    /// deliberate simplification of strict reverse document order.
    pub fn preceding(&self, doc: &Document) -> (r: NodeSet)
        requires
            doc.wf(),
            self.bounded(doc@),
        ensures
            r@ == expand_axis(doc@, self@, AxisSpecifier::Preceding),
    {
        self.expand(doc, AxisSpecifier::Preceding)
    }

    /// The `preceding-sibling` axis: the siblings before each context node,
    /// in document order; empty for a node without a parent.
    pub fn preceding_sibling(&self, doc: &Document) -> (r: NodeSet)
        requires
            doc.wf(),
            self.bounded(doc@),
        ensures
            r@ == expand_axis(doc@, self@, AxisSpecifier::PrecedingSibling),
    {
        self.expand(doc, AxisSpecifier::PrecedingSibling)
    }

    /// The `self` axis: each context node itself, in order.
    pub fn self_node(&self, doc: &Document) -> (r: NodeSet)
        requires
            doc.wf(),
            self.bounded(doc@),
        ensures
            r@ == expand_axis(doc@, self@, AxisSpecifier::SelfNode),
    {
        self.expand(doc, AxisSpecifier::SelfNode)
    }
}

/// The expansion of a whole node-set along the `document` axis.
pub open spec fn expand_document(t: Seq<NodeView>, ns: Seq<usize>) -> Seq<usize>
    decreases ns.len(),
{
    if ns.len() == 0 {
        Seq::empty()
    } else {
        expand_document(t, ns.drop_last()) + document_exp(t, ns.last())
    }
}



/// Every node of a subtree walk lies between its root and the end of the
/// arena.
pub proof fn lemma_subtree_bounded(t: Seq<NodeView>, n: usize)
    requires
        children_increasing(t),
        n < t.len(),
    ensures
        forall|i: int|
            0 <= i < subtree_exp(t, n).len() ==> n <= #[trigger] subtree_exp(t, n)[i] < t.len(),
    decreases t.len() - n, 1int, 0int,
{
    let cs = t[n as int].children;
    lemma_subtrees_bounded(t, cs, n);
    assert forall|i: int|
        0 <= i < subtree_exp(t, n).len() implies n <= #[trigger] subtree_exp(t, n)[i]
        < t.len() by {
        if i == 0 {
        } else {
            assert(subtree_exp(t, n)[i] == subtrees_exp(t, cs, n)[i - 1]);
        }
    }
}

/// Every node of a concatenation of subtree walks lies beyond `lo`.
pub proof fn lemma_subtrees_bounded(t: Seq<NodeView>, cs: Seq<usize>, lo: usize)
    requires
        children_increasing(t),
        lo < t.len(),
        forall|k: int| 0 <= k < cs.len() ==> lo < (#[trigger] cs[k]) < t.len(),
    ensures
        forall|i: int|
            0 <= i < subtrees_exp(t, cs, lo).len() ==> lo < #[trigger] subtrees_exp(t, cs, lo)[i]
                < t.len(),
    decreases t.len() - lo, 0int, cs.len(),
{
    if cs.len() == 0 {
    } else {
        lemma_subtrees_bounded(t, cs.drop_last(), lo);
        lemma_subtree_bounded(t, cs.last());
        let pre = subtrees_exp(t, cs.drop_last(), lo);
        let post = subtree_exp(t, cs.last());
        assert forall|i: int|
            0 <= i < subtrees_exp(t, cs, lo).len() implies lo < #[trigger] subtrees_exp(
            t,
            cs,
            lo,
        )[i] < t.len() by {
            if i < pre.len() {
                assert(subtrees_exp(t, cs, lo)[i] == pre[i]);
            } else {
                assert(subtrees_exp(t, cs, lo)[i] == post[i - pre.len()]);
                assert(cs.last() <= post[i - pre.len()] < t.len());
            }
        }
    }
}

/// Every node of a reverse subtree walk lies between its root and the end
/// of the arena.
pub proof fn lemma_rev_descendant_bounded(t: Seq<NodeView>, n: usize)
    requires
        children_increasing(t),
        n < t.len(),
    ensures
        forall|i: int|
            0 <= i < rev_descendant_exp(t, n).len() ==> n < #[trigger] rev_descendant_exp(t, n)[i]
                < t.len(),
    decreases t.len() - n, 1int, 0int,
{
    let rcs = t[n as int].children.reverse();
    assert forall|k: int| 0 <= k < rcs.len() implies n < (#[trigger] rcs[k]) < t.len() by {
        assert(rcs[k] == t[n as int].children[rcs.len() - 1 - k]);
    }
    lemma_rev_descendants_bounded(t, rcs, n);
    assert forall|i: int|
        0 <= i < rev_descendant_exp(t, n).len() implies n < #[trigger] rev_descendant_exp(t, n)[i]
        < t.len() by {
        if i < rcs.len() {
            assert(rev_descendant_exp(t, n)[i] == rcs[i]);
        } else {
            assert(rev_descendant_exp(t, n)[i] == rev_descendants_exp(t, rcs, n)[i - rcs.len()]);
        }
    }
}

/// Every node of a concatenation of reverse subtree walks lies beyond
/// `lo`.
pub proof fn lemma_rev_descendants_bounded(t: Seq<NodeView>, cs: Seq<usize>, lo: usize)
    requires
        children_increasing(t),
        lo < t.len(),
        forall|k: int| 0 <= k < cs.len() ==> lo < (#[trigger] cs[k]) < t.len(),
    ensures
        forall|i: int|
            0 <= i < rev_descendants_exp(t, cs, lo).len() ==> lo < #[trigger] rev_descendants_exp(
                t,
                cs,
                lo,
            )[i] < t.len(),
    decreases t.len() - lo, 0int, cs.len(),
{
    if cs.len() == 0 {
    } else {
        lemma_rev_descendants_bounded(t, cs.drop_last(), lo);
        lemma_rev_descendant_bounded(t, cs.last());
        let pre = rev_descendants_exp(t, cs.drop_last(), lo);
        let post = rev_descendant_exp(t, cs.last());
        assert forall|i: int|
            0 <= i < rev_descendants_exp(t, cs, lo).len() implies lo < #[trigger] rev_descendants_exp(
            t,
            cs,
            lo,
        )[i] < t.len() by {
            if i < pre.len() {
                assert(rev_descendants_exp(t, cs, lo)[i] == pre[i]);
            } else {
                assert(rev_descendants_exp(t, cs, lo)[i] == post[i - pre.len()]);
                assert(cs.last() < post[i - pre.len()] < t.len());
            }
        }
    }
}

/// Every ancestor of `n` lies below `n` in the arena.
pub proof fn lemma_ancestor_bounded(t: Seq<NodeView>, n: usize)
    requires
        parents_decreasing(t),
        n < t.len(),
    ensures
        forall|i: int|
            0 <= i < ancestor_exp(t, n).len() ==> #[trigger] ancestor_exp(t, n)[i] < n,
    decreases n,
{
    match t[n as int].parent {
        None => {},
        Some(p) => {
            lemma_ancestor_bounded(t, p);
            assert forall|i: int|
                0 <= i < ancestor_exp(t, n).len() implies #[trigger] ancestor_exp(t, n)[i]
                < n by {
                if i == 0 {
                } else {
                    assert(ancestor_exp(t, n)[i] == ancestor_exp(t, p)[i - 1]);
                }
            }
        },
    }
}

/// The filtered attribute list is drawn from the attribute list itself.
pub proof fn lemma_attrs_where_subset(t: Seq<NodeView>, attrs: Seq<usize>, namespace_ones: bool)
    ensures
        forall|i: int|
            0 <= i < attrs_where(t, attrs, namespace_ones).len() ==> attrs.contains(
                #[trigger] attrs_where(t, attrs, namespace_ones)[i],
            ),
    decreases attrs.len(),
{
    if attrs.len() == 0 {
    } else {
        lemma_attrs_where_subset(t, attrs.drop_last(), namespace_ones);
        let rest = attrs_where(t, attrs.drop_last(), namespace_ones);
        assert forall|i: int|
            0 <= i < attrs_where(t, attrs, namespace_ones).len() implies attrs.contains(
            #[trigger] attrs_where(t, attrs, namespace_ones)[i],
        ) by {
            let v = attrs_where(t, attrs, namespace_ones)[i];
            if i < rest.len() {
                assert(v == rest[i]);
                assert(attrs.drop_last().contains(v));
                let w = choose|w: int| 0 <= w < attrs.drop_last().len() && attrs.drop_last()[w] == v;
                assert(attrs[w] == v);
            } else {
                assert(v == attrs.last());
                assert(attrs[attrs.len() - 1] == v);
            }
        }
    }
}

/// Every node of a per-node axis expansion lies within the arena.
pub proof fn lemma_axis_exp_bounded(t: Seq<NodeView>, n: usize, axis: AxisSpecifier)
    requires
        crate::tree::wf_tree(t),
        n < t.len(),
    ensures
        forall|i: int|
            0 <= i < axis_exp(t, n, axis).len() ==> #[trigger] axis_exp(t, n, axis)[i] < t.len(),
{
    lemma_wf_walks(t);
    let e = axis_exp(t, n, axis);
    match axis {
        AxisSpecifier::Ancestor => {
            lemma_ancestor_bounded(t, n);
        },
        AxisSpecifier::AncestorOrSelf => {
            lemma_ancestor_bounded(t, n);
            assert forall|i: int| 0 <= i < e.len() implies #[trigger] e[i] < t.len() by {
                if i > 0 {
                    assert(e[i] == ancestor_exp(t, n)[i - 1]);
                }
            }
        },
        AxisSpecifier::Attribute => {
            if t[n as int].node_type == NodeType::Element {
                lemma_attrs_where_subset(t, t[n as int].attributes, false);
                assert forall|i: int| 0 <= i < e.len() implies #[trigger] e[i] < t.len() by {
                    assert(t[n as int].attributes.contains(e[i]));
                    let w = choose|w: int|
                        0 <= w < t[n as int].attributes.len() && t[n as int].attributes[w] == e[i];
                    assert(crate::tree::wf_node(t, n as int));
                }
            }
        },
        AxisSpecifier::Child => {
            assert(crate::tree::wf_node(t, n as int));
        },
        AxisSpecifier::Descendant => {
            lemma_subtrees_bounded(t, t[n as int].children, n);
        },
        AxisSpecifier::DescendantOrSelf => {
            lemma_subtree_bounded(t, n);
        },
        AxisSpecifier::Following => {
            match t[n as int].parent {
                None => {},
                Some(p) => {
                    let cs = t[p as int].children;
                    let fs = following_sibling_exp(t, n);
                    assert forall|k: int| 0 <= k < fs.len() implies p < (#[trigger] fs[k])
                        < t.len() by {
                        assert(fs[k] == cs[cs.index_of(n) + 1 + k]);
                    }
                    lemma_subtrees_bounded(t, fs, p);
                },
            }
        },
        AxisSpecifier::FollowingSibling => {
            match t[n as int].parent {
                None => {},
                Some(p) => {
                    let cs = t[p as int].children;
                    assert forall|i: int| 0 <= i < e.len() implies #[trigger] e[i] < t.len() by {
                        assert(e[i] == cs[cs.index_of(n) + 1 + i]);
                    }
                },
            }
        },
        AxisSpecifier::Namespace => {
            if t[n as int].node_type == NodeType::Element {
                lemma_attrs_where_subset(t, t[n as int].attributes, true);
                assert forall|i: int| 0 <= i < e.len() implies #[trigger] e[i] < t.len() by {
                    assert(t[n as int].attributes.contains(e[i]));
                    let w = choose|w: int|
                        0 <= w < t[n as int].attributes.len() && t[n as int].attributes[w] == e[i];
                    assert(crate::tree::wf_node(t, n as int));
                }
            }
        },
        AxisSpecifier::Parent => {},
        AxisSpecifier::Preceding => {
            match t[n as int].parent {
                None => {},
                Some(p) => {
                    let cs = t[p as int].children;
                    let ps = preceding_sibling_exp(t, n);
                    let rsib = ps.reverse();
                    assert forall|k: int| 0 <= k < rsib.len() implies p < (#[trigger] rsib[k])
                        < t.len() by {
                        assert(rsib[k] == ps[ps.len() - 1 - k]);
                        assert(ps[ps.len() - 1 - k] == cs[ps.len() - 1 - k]);
                    }
                    lemma_rev_descendants_bounded(t, rsib, p);
                    assert forall|i: int| 0 <= i < e.len() implies #[trigger] e[i] < t.len() by {
                        if i < rsib.len() {
                            assert(e[i] == rsib[i]);
                        } else {
                            assert(e[i] == rev_descendants_exp(t, rsib, p)[i - rsib.len()]);
                        }
                    }
                },
            }
        },
        AxisSpecifier::PrecedingSibling => {
            match t[n as int].parent {
                None => {},
                Some(p) => {
                    let cs = t[p as int].children;
                    assert forall|i: int| 0 <= i < e.len() implies #[trigger] e[i] < t.len() by {
                        assert(e[i] == cs[i]);
                    }
                },
            }
        },
        AxisSpecifier::SelfNode => {},
    }
}

/// Every node of a whole expansion lies within the arena.
pub proof fn lemma_expand_axis_bounded(t: Seq<NodeView>, ns: Seq<usize>, axis: AxisSpecifier)
    requires
        crate::tree::wf_tree(t),
        forall|k: int| 0 <= k < ns.len() ==> (#[trigger] ns[k]) < t.len(),
    ensures
        forall|i: int|
            0 <= i < expand_axis(t, ns, axis).len() ==> #[trigger] expand_axis(t, ns, axis)[i]
                < t.len(),
    decreases ns.len(),
{
    if ns.len() == 0 {
    } else {
        lemma_expand_axis_bounded(t, ns.drop_last(), axis);
        lemma_axis_exp_bounded(t, ns.last(), axis);
        let pre = expand_axis(t, ns.drop_last(), axis);
        let post = axis_exp(t, ns.last(), axis);
        assert forall|i: int|
            0 <= i < expand_axis(t, ns, axis).len() implies #[trigger] expand_axis(t, ns, axis)[i]
            < t.len() by {
            if i < pre.len() {
                assert(expand_axis(t, ns, axis)[i] == pre[i]);
            } else {
                assert(expand_axis(t, ns, axis)[i] == post[i - pre.len()]);
            }
        }
    }
}

/// Every node of a `document` axis expansion lies within the arena.
pub proof fn lemma_expand_document_bounded(t: Seq<NodeView>, ns: Seq<usize>)
    requires
        crate::tree::wf_tree(t),
    ensures
        forall|i: int|
            0 <= i < expand_document(t, ns).len() ==> #[trigger] expand_document(t, ns)[i]
                < t.len(),
    decreases ns.len(),
{
    if ns.len() == 0 {
    } else {
        lemma_expand_document_bounded(t, ns.drop_last());
        let pre = expand_document(t, ns.drop_last());
        let post = document_exp(t, ns.last());
        assert forall|i: int|
            0 <= i < expand_document(t, ns).len() implies #[trigger] expand_document(t, ns)[i]
            < t.len() by {
            if i < pre.len() {
                assert(expand_document(t, ns)[i] == pre[i]);
            } else {
                assert(expand_document(t, ns)[i] == post[i - pre.len()]);
            }
        }
    }
}


} // verus!
