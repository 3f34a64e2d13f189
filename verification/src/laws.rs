//! The laws of the axis engine, stated over the spec functions that the
//! axis methods' contracts use, and proved for every well-formed document.

use vstd::prelude::*;

use crate::model::AxisSpecifier;
use crate::node_set::{
    ancestor_exp, ancestor_or_self_exp, attribute_exp, attrs_where, child_exp, descendant_exp,
    descendant_or_self_exp, expand_axis, expand_document, following_exp, following_sibling_exp,
    is_namespace_name, lemma_ancestor_bounded, lemma_subtree_bounded, lemma_subtrees_bounded,
    lemma_wf_walks, namespace_exp, parent_exp, parents_decreasing, preceding_sibling_exp,
    self_exp, subtree_exp, subtrees_exp,
};
use crate::tree::{wf_node, wf_tree, NodeType, NodeView};

verus! {

/// The `self` axis of any node is that node alone, whatever its type.
pub proof fn law_self_identity(t: Seq<NodeView>, n: usize)
    ensures
        self_exp(t, n) == seq![n],
{
}

/// Every axis applied to an empty node-set yields an empty node-set, and
/// so does the `document` axis.
pub proof fn law_empty_input(t: Seq<NodeView>, axis: AxisSpecifier)
    ensures
        expand_axis(t, Seq::<usize>::empty(), axis) == Seq::<usize>::empty(),
        expand_document(t, Seq::<usize>::empty()) == Seq::<usize>::empty(),
{
}

/// The ancestors of a node with a parent include that parent, and the
/// parent axis of every child of a node leads back to that node.
pub proof fn law_parent_round_trip(t: Seq<NodeView>, n: usize)
    requires
        wf_tree(t),
        n < t.len(),
    ensures
        t[n as int].parent matches Some(p) ==> ancestor_exp(t, n).contains(p),
        forall|k: int|
            0 <= k < child_exp(t, n).len() ==> parent_exp(t, #[trigger] child_exp(t, n)[k])
                == seq![n],
{
    lemma_wf_walks(t);
    match t[n as int].parent {
        None => {},
        Some(p) => {
            assert(ancestor_exp(t, n)[0] == p);
        },
    }
    assert forall|k: int|
        0 <= k < child_exp(t, n).len() implies parent_exp(t, #[trigger] child_exp(t, n)[k])
        == seq![n] by {
        assert(wf_node(t, n as int));
        let c = t[n as int].children[k];
        assert(t[c as int].parent == Some(n));
    }
}

/// A node's expansion is carried whole into the expansion of any node-set
/// that holds the node.
pub proof fn lemma_expand_axis_member(
    t: Seq<NodeView>,
    ns: Seq<usize>,
    axis: AxisSpecifier,
    n: usize,
    x: usize,
)
    requires
        ns.contains(n),
        crate::node_set::axis_exp(t, n, axis).contains(x),
    ensures
        expand_axis(t, ns, axis).contains(x),
    decreases ns.len(),
{
    let pre = expand_axis(t, ns.drop_last(), axis);
    let post = crate::node_set::axis_exp(t, ns.last(), axis);
    if ns.last() == n {
        let i = choose|i: int|
            0 <= i < crate::node_set::axis_exp(t, n, axis).len() && crate::node_set::axis_exp(
                t,
                n,
                axis,
            )[i] == x;
        assert(expand_axis(t, ns, axis)[pre.len() + i] == x);
    } else {
        let w = choose|w: int| 0 <= w < ns.len() && ns[w] == n;
        assert(ns.drop_last()[w] == n);
        assert(ns.drop_last().contains(n));
        lemma_expand_axis_member(t, ns.drop_last(), axis, n, x);
        let i = choose|i: int| 0 <= i < pre.len() && pre[i] == x;
        assert(expand_axis(t, ns, axis)[i] == x);
    }
}

/// Axis round trip at the node-set level: the `ancestor` axis of any
/// node-set holding a child of `p` includes `p` itself.
pub proof fn law_ancestor_round_trip(t: Seq<NodeView>, ns: Seq<usize>, p: usize, k: int)
    requires
        wf_tree(t),
        p < t.len(),
        0 <= k < t[p as int].children.len(),
        ns.contains(t[p as int].children[k]),
    ensures
        expand_axis(t, ns, AxisSpecifier::Ancestor).contains(p),
{
    lemma_wf_walks(t);
    assert(wf_node(t, p as int));
    let c = t[p as int].children[k];
    assert(t[c as int].parent == Some(p));
    assert(ancestor_exp(t, c)[0] == p);
    assert(ancestor_exp(t, c).contains(p));
    lemma_expand_axis_member(t, ns, AxisSpecifier::Ancestor, c, p);
}

/// The `ancestor-or-self` axis is the node itself, first, followed by its
/// ancestors.
pub proof fn law_ancestor_or_self(t: Seq<NodeView>, n: usize)
    ensures
        ancestor_or_self_exp(t, n) == seq![n] + ancestor_exp(t, n),
{
}

/// Sibling symmetry: of two children of the same parent, the later is a
/// following sibling of the earlier, and the earlier a preceding sibling
/// of the later.
pub proof fn law_sibling_symmetry(t: Seq<NodeView>, p: usize, a: int, b: int)
    requires
        wf_tree(t),
        p < t.len(),
        0 <= a < b < t[p as int].children.len(),
    ensures
        following_sibling_exp(t, t[p as int].children[a]).contains(t[p as int].children[b]),
        preceding_sibling_exp(t, t[p as int].children[b]).contains(t[p as int].children[a]),
{
    let cs = t[p as int].children;
    let s1 = cs[a];
    let s2 = cs[b];
    assert(wf_node(t, p as int));
    assert(t[s1 as int].parent == Some(p));
    assert(t[s2 as int].parent == Some(p));
    assert(cs.contains(s1));
    assert(cs.contains(s2));
    lemma_index_of_unique(cs, s1, a);
    lemma_index_of_unique(cs, s2, b);
    let fs = following_sibling_exp(t, s1);
    assert(fs == cs.subrange(a + 1, cs.len() as int));
    assert(fs[b - a - 1] == s2);
    let ps = preceding_sibling_exp(t, s2);
    assert(ps == cs.subrange(0, b));
    assert(ps[a] == s1);
}

/// In a duplicate-free sequence, `index_of` finds the one position an
/// element has.
pub proof fn lemma_index_of_unique(cs: Seq<usize>, v: usize, at: int)
    requires
        cs.no_duplicates(),
        0 <= at < cs.len(),
        cs[at] == v,
    ensures
        cs.contains(v),
        cs.index_of(v) == at,
{
    assert(cs.contains(v));
    let i = cs.index_of(v);
    assert(0 <= i < cs.len() && cs[i] == v);
    if i != at {
        assert(cs[i] != cs[at]);
    }
}

/// Attribute/namespace partition: membership in a filtered attribute list
/// is membership in the list with the matching namespace flag.
pub proof fn lemma_attrs_where_membership(
    t: Seq<NodeView>,
    attrs: Seq<usize>,
    namespace_ones: bool,
    a: usize,
)
    ensures
        attrs_where(t, attrs, namespace_ones).contains(a) <==> (attrs.contains(a)
            && is_namespace_name(t[a as int].name) == namespace_ones),
    decreases attrs.len(),
{
    if attrs.len() == 0 {
    } else {
        lemma_attrs_where_membership(t, attrs.drop_last(), namespace_ones, a);
        let rest = attrs_where(t, attrs.drop_last(), namespace_ones);
        let whole = attrs_where(t, attrs, namespace_ones);
        assert(attrs.drop_last().contains(a) ==> attrs.contains(a)) by {
            if attrs.drop_last().contains(a) {
                let w = choose|w: int|
                    0 <= w < attrs.drop_last().len() && attrs.drop_last()[w] == a;
                assert(attrs[w] == a);
            }
        }
        if is_namespace_name(t[attrs.last() as int].name) == namespace_ones {
            assert(whole == rest.push(attrs.last()));
            if whole.contains(a) {
                let w = choose|w: int| 0 <= w < whole.len() && whole[w] == a;
                if w < rest.len() {
                    assert(rest[w] == a);
                } else {
                    assert(a == attrs.last());
                    assert(attrs[attrs.len() - 1] == a);
                }
            }
            if attrs.contains(a) && is_namespace_name(t[a as int].name) == namespace_ones {
                let w = choose|w: int| 0 <= w < attrs.len() && attrs[w] == a;
                if w < attrs.len() - 1 {
                    assert(attrs.drop_last()[w] == a);
                    assert(rest.contains(a));
                    let w2 = choose|w2: int| 0 <= w2 < rest.len() && rest[w2] == a;
                    assert(whole[w2] == a);
                } else {
                    assert(whole.last() == a);
                }
            }
        } else {
            assert(whole == rest);
            if whole.contains(a) {
                assert(rest.contains(a));
                let w = choose|w: int| 0 <= w < rest.len() && rest[w] == a;
                assert(attrs.drop_last().contains(rest[w]));
            }
            if attrs.contains(a) && is_namespace_name(t[a as int].name) == namespace_ones {
                let w = choose|w: int| 0 <= w < attrs.len() && attrs[w] == a;
                if w == attrs.len() - 1 {
                    assert(a == attrs.last());
                    assert(false);
                } else {
                    assert(attrs.drop_last()[w] == a);
                }
            }
        }
    }
}

/// Attribute/namespace partition: for an element, the `attribute` and
/// `namespace` axes together hold exactly the element's attribute nodes,
/// and no attribute is on both sides — the split is decided solely by
/// whether the attribute's name declares a namespace.
pub proof fn law_attribute_namespace_partition(t: Seq<NodeView>, n: usize, a: usize)
    requires
        wf_tree(t),
        n < t.len(),
        t[n as int].node_type == NodeType::Element,
    ensures
        t[n as int].attributes.contains(a) <==> (attribute_exp(t, n).contains(a)
            || namespace_exp(t, n).contains(a)),
        !(attribute_exp(t, n).contains(a) && namespace_exp(t, n).contains(a)),
        attribute_exp(t, n).contains(a) ==> !is_namespace_name(t[a as int].name),
        namespace_exp(t, n).contains(a) ==> is_namespace_name(t[a as int].name),
{
    lemma_attrs_where_membership(t, t[n as int].attributes, false, a);
    lemma_attrs_where_membership(t, t[n as int].attributes, true, a);
}


/// Each position of the ancestor chain carries the whole chain above it:
/// the ancestors of the `i`-th ancestor are the rest of the chain.
pub proof fn lemma_ancestor_suffix(t: Seq<NodeView>, m: usize)
    requires
        parents_decreasing(t),
        m < t.len(),
    ensures
        forall|i: int|
            0 <= i < ancestor_exp(t, m).len() ==> {
                let a = #[trigger] ancestor_exp(t, m)[i];
                &&& a < t.len()
                &&& a < m
                &&& ancestor_exp(t, a) == ancestor_exp(t, m).skip(i + 1)
            },
    decreases m,
{
    match t[m as int].parent {
        None => {},
        Some(p) => {
            lemma_ancestor_suffix(t, p);
            assert forall|i: int| 0 <= i < ancestor_exp(t, m).len() implies {
                let a = #[trigger] ancestor_exp(t, m)[i];
                &&& a < t.len()
                &&& a < m
                &&& ancestor_exp(t, a) == ancestor_exp(t, m).skip(i + 1)
            } by {
                if i == 0 {
                    assert(ancestor_exp(t, m)[0] == p);
                    assert(ancestor_exp(t, m).skip(1) =~= ancestor_exp(t, p));
                } else {
                    assert(ancestor_exp(t, m)[i] == ancestor_exp(t, p)[i - 1]);
                    assert(ancestor_exp(t, m).skip(i + 1) =~= ancestor_exp(t, p).skip(i));
                }
            }
        },
    }
}

/// A node lies in a concatenation of subtree walks exactly when it lies in
/// one of them.
pub proof fn lemma_subtrees_member(t: Seq<NodeView>, cs: Seq<usize>, lo: usize, m: usize)
    requires
        crate::node_set::children_increasing(t),
        lo < t.len(),
        forall|k: int| 0 <= k < cs.len() ==> lo < (#[trigger] cs[k]) < t.len(),
    ensures
        subtrees_exp(t, cs, lo).contains(m) <==> exists|k: int|
            0 <= k < cs.len() && #[trigger] subtree_exp(t, cs[k]).contains(m),
    decreases cs.len(),
{
    if cs.len() == 0 {
    } else {
        lemma_subtrees_member(t, cs.drop_last(), lo, m);
        let pre = subtrees_exp(t, cs.drop_last(), lo);
        let post = subtree_exp(t, cs.last());
        if subtrees_exp(t, cs, lo).contains(m) {
            let w = choose|w: int|
                0 <= w < subtrees_exp(t, cs, lo).len() && subtrees_exp(t, cs, lo)[w] == m;
            if w < pre.len() {
                assert(pre[w] == m);
                assert(pre.contains(m));
                let k = choose|k: int|
                    0 <= k < cs.drop_last().len() && #[trigger] subtree_exp(
                        t,
                        cs.drop_last()[k],
                    ).contains(m);
                assert(cs[k] == cs.drop_last()[k]);
                assert(subtree_exp(t, cs[k]).contains(m));
            } else {
                assert(post[w - pre.len()] == m);
                assert(subtree_exp(t, cs[cs.len() - 1]).contains(m));
            }
        }
        if exists|k: int| 0 <= k < cs.len() && #[trigger] subtree_exp(t, cs[k]).contains(m) {
            let k = choose|k: int| 0 <= k < cs.len() && #[trigger] subtree_exp(t, cs[k]).contains(m);
            if k < cs.len() - 1 {
                assert(cs.drop_last()[k] == cs[k]);
                assert(subtree_exp(t, cs.drop_last()[k]).contains(m));
                assert(pre.contains(m));
                let w = choose|w: int| 0 <= w < pre.len() && pre[w] == m;
                assert(subtrees_exp(t, cs, lo)[w] == m);
            } else {
                let w = choose|w: int| 0 <= w < post.len() && post[w] == m;
                assert(subtrees_exp(t, cs, lo)[pre.len() + w] == m);
            }
        }
    }
}

/// Soundness of the subtree walk: everything it visits is the root itself
/// or a node whose ancestor chain passes through the root.
pub proof fn lemma_subtree_sound(t: Seq<NodeView>, n: usize, m: usize)
    requires
        wf_tree(t),
        n < t.len(),
    ensures
        subtree_exp(t, n).contains(m) ==> m == n || (m < t.len() && ancestor_exp(t, m).contains(
            n,
        )),
    decreases t.len() - n,
{
    lemma_wf_walks(t);
    if subtree_exp(t, n).contains(m) && m != n {
        let cs = t[n as int].children;
        let w = choose|w: int| 0 <= w < subtree_exp(t, n).len() && subtree_exp(t, n)[w] == m;
        assert(subtree_exp(t, n)[0] == n);
        assert(subtrees_exp(t, cs, n)[w - 1] == m);
        assert(subtrees_exp(t, cs, n).contains(m));
        lemma_subtrees_member(t, cs, n, m);
        let k = choose|k: int| 0 <= k < cs.len() && #[trigger] subtree_exp(t, cs[k]).contains(m);
        let c = cs[k];
        assert(wf_node(t, n as int));
        assert(n < c < t.len());
        lemma_subtree_sound(t, c, m);
        lemma_subtree_bounded(t, c);
        if m == c {
            assert(t[m as int].parent == Some(n));
            assert(ancestor_exp(t, m)[0] == n);
        } else {
            assert(ancestor_exp(t, m).contains(c));
            let i = choose|i: int|
                0 <= i < ancestor_exp(t, m).len() && ancestor_exp(t, m)[i] == c;
            lemma_ancestor_suffix(t, m);
            assert(ancestor_exp(t, c) == ancestor_exp(t, m).skip(i + 1));
            assert(t[c as int].parent == Some(n));
            assert(ancestor_exp(t, c)[0] == n);
            assert(ancestor_exp(t, m)[i + 1] == n);
        }
    }
}

/// Completeness of the subtree walk: a node whose ancestor chain passes
/// through `n`, or `n` itself, is visited by the walk from `n`.
pub proof fn lemma_subtree_complete(t: Seq<NodeView>, n: usize, m: usize)
    requires
        wf_tree(t),
        n < t.len(),
        m < t.len(),
        m == n || ancestor_exp(t, m).contains(n),
    ensures
        subtree_exp(t, n).contains(m),
    decreases t.len() - n,
{
    lemma_wf_walks(t);
    if m == n {
        assert(subtree_exp(t, n)[0] == n);
    } else {
        lemma_ancestor_suffix(t, m);
        let i = choose|i: int| 0 <= i < ancestor_exp(t, m).len() && ancestor_exp(t, m)[i] == n;
        let cs = t[n as int].children;
        if i == 0 {
            assert(t[m as int].parent == Some(n));
            assert(t[m as int].node_type != NodeType::Attribute);
            assert(m >= 1);
            assert(cs.contains(m));
            let k = choose|k: int| 0 <= k < cs.len() && cs[k] == m;
            assert(subtree_exp(t, cs[k])[0] == m);
            assert(subtree_exp(t, cs[k]).contains(m));
            lemma_subtrees_member(t, cs, n, m);
            assert(subtrees_exp(t, cs, n).contains(m));
            let w = choose|w: int|
                0 <= w < subtrees_exp(t, cs, n).len() && subtrees_exp(t, cs, n)[w] == m;
            assert(subtree_exp(t, n)[w + 1] == m);
        } else {
            let c = ancestor_exp(t, m)[i - 1];
            assert(ancestor_exp(t, c) == ancestor_exp(t, m).skip(i));
            assert(ancestor_exp(t, c)[0] == ancestor_exp(t, m)[i]);
            assert(t[c as int].parent == Some(n)) by {
                assert(ancestor_exp(t, c).len() > 0);
                assert(t[c as int].parent is Some);
                assert(ancestor_exp(t, c)[0] == t[c as int].parent->0);
            }
            assert(t[c as int].node_type != NodeType::Attribute);
            assert(c >= 1);
            assert(cs.contains(c));
            assert(n < c) by {
                let k0 = choose|k0: int| 0 <= k0 < cs.len() && cs[k0] == c;
                assert(wf_node(t, n as int));
                assert(n < cs[k0]);
            }
            assert(ancestor_exp(t, m).contains(c));
            lemma_subtree_complete(t, c, m);
            lemma_subtrees_member(t, cs, n, m);
            let k = choose|k: int| 0 <= k < cs.len() && cs[k] == c;
            assert(subtree_exp(t, cs[k]).contains(m));
            assert(subtrees_exp(t, cs, n).contains(m));
            let w = choose|w: int|
                0 <= w < subtrees_exp(t, cs, n).len() && subtrees_exp(t, cs, n)[w] == m;
            assert(subtree_exp(t, n)[w + 1] == m);
        }
    }
}

/// Descendant completeness: the `descendant` axis of `n` holds exactly
/// the nodes reachable from `n` by one or more child steps — those whose
/// ancestor chain passes through `n` — and never an attribute or document
/// node.
pub proof fn law_descendant_completeness(t: Seq<NodeView>, n: usize, m: usize)
    requires
        wf_tree(t),
        n < t.len(),
    ensures
        descendant_exp(t, n).contains(m) <==> (m < t.len() && m != n && ancestor_exp(
            t,
            m,
        ).contains(n)),
        descendant_exp(t, n).contains(m) ==> t[m as int].node_type != NodeType::Attribute
            && t[m as int].node_type != NodeType::Document,
{
    lemma_wf_walks(t);
    let cs = t[n as int].children;
    lemma_subtrees_bounded(t, cs, n);
    if descendant_exp(t, n).contains(m) {
        let w = choose|w: int|
            0 <= w < subtrees_exp(t, cs, n).len() && subtrees_exp(t, cs, n)[w] == m;
        assert(n < m < t.len());
        assert(subtree_exp(t, n)[w + 1] == m);
        assert(subtree_exp(t, n).contains(m));
        lemma_subtree_sound(t, n, m);
        assert(ancestor_exp(t, m).contains(n));
        // the walk never leaves the tree of element-like nodes
        lemma_subtrees_member(t, cs, n, m);
        let k = choose|k: int| 0 <= k < cs.len() && #[trigger] subtree_exp(t, cs[k]).contains(m);
        let c = cs[k];
        assert(wf_node(t, n as int));
        lemma_subtree_sound(t, c, m);
        if m == c {
            assert(t[m as int].node_type != NodeType::Attribute);
            assert(t[m as int].node_type != NodeType::Document);
        } else {
            assert(ancestor_exp(t, m).len() > 0);
            assert(t[m as int].parent is Some);
            assert(t[m as int].node_type != NodeType::Attribute);
            assert(m >= 1);
            assert(t[m as int].node_type != NodeType::Document);
        }
    }
    if m < t.len() && m != n && ancestor_exp(t, m).contains(n) {
        lemma_subtree_complete(t, n, m);
        let w = choose|w: int| 0 <= w < subtree_exp(t, n).len() && subtree_exp(t, n)[w] == m;
        assert(subtree_exp(t, n)[0] == n);
        assert(w >= 1);
        assert(subtrees_exp(t, cs, n)[w - 1] == m);
        assert(subtrees_exp(t, cs, n).contains(m));
    }
}



/// Roots that are pairwise unrelated: no two equal, and neither lying on
/// the other's ancestor chain.
pub open spec fn pairwise_unrelated(t: Seq<NodeView>, cs: Seq<usize>) -> bool {
    forall|j: int, k: int|
        #![trigger cs[j], cs[k]]
        0 <= j < k < cs.len() ==> cs[j] != cs[k] && !ancestor_exp(t, cs[j]).contains(cs[k])
            && !ancestor_exp(t, cs[k]).contains(cs[j])
}

/// The subtree walks of pairwise unrelated roots — no two equal, neither
/// an ancestor of the other — visit disjoint sets of nodes, and a walk
/// visits no node twice.
pub proof fn lemma_subtree_no_dup(t: Seq<NodeView>, n: usize)
    requires
        wf_tree(t),
        n < t.len(),
    ensures
        subtree_exp(t, n).no_duplicates(),
    decreases t.len() - n, 1int, 0int,
{
    lemma_wf_walks(t);
    let cs = t[n as int].children;
    assert(wf_node(t, n as int));
    assert forall|j: int, k: int|
        #![trigger cs[j], cs[k]]
        0 <= j < k < cs.len() implies cs[j] != cs[k] && !ancestor_exp(t, cs[j]).contains(cs[k])
        && !ancestor_exp(t, cs[k]).contains(cs[j]) by {
        assert(cs[j] != cs[k]);
        lemma_unrelated_siblings(t, n, j, k);
        lemma_unrelated_siblings(t, n, k, j);
    }
    assert(pairwise_unrelated(t, cs));
    lemma_subtrees_no_dup(t, cs, n);
    lemma_subtrees_bounded(t, cs, n);
    let body = subtrees_exp(t, cs, n);
    assert forall|x: int, y: int|
        0 <= x < subtree_exp(t, n).len() && 0 <= y < subtree_exp(t, n).len() && x
            != y implies subtree_exp(t, n)[x] != subtree_exp(t, n)[y] by {
        if x == 0 {
            assert(subtree_exp(t, n)[y] == body[y - 1]);
        } else if y == 0 {
            assert(subtree_exp(t, n)[x] == body[x - 1]);
        } else {
            assert(subtree_exp(t, n)[x] == body[x - 1]);
            assert(subtree_exp(t, n)[y] == body[y - 1]);
        }
    }
}

/// Two distinct children of one node are unrelated: neither lies on the
/// other's ancestor chain.
pub proof fn lemma_unrelated_siblings(t: Seq<NodeView>, n: usize, j: int, k: int)
    requires
        wf_tree(t),
        n < t.len(),
        0 <= j < t[n as int].children.len(),
        0 <= k < t[n as int].children.len(),
        j != k,
    ensures
        !ancestor_exp(t, t[n as int].children[j]).contains(t[n as int].children[k]),
{
    lemma_wf_walks(t);
    let cs = t[n as int].children;
    assert(wf_node(t, n as int));
    let cj = cs[j];
    let ck = cs[k];
    if ancestor_exp(t, cj).contains(ck) {
        let i = choose|i: int| 0 <= i < ancestor_exp(t, cj).len() && ancestor_exp(t, cj)[i] == ck;
        assert(t[cj as int].parent == Some(n));
        assert(ancestor_exp(t, cj)[0] == n);
        assert(ck != n);
        assert(i > 0);
        lemma_ancestor_suffix(t, cj);
        assert(ancestor_exp(t, cj)[i] == ancestor_exp(t, n)[i - 1]);
        lemma_ancestor_bounded(t, n);
        assert(ck < n);
        assert(n < ck);
    }
}

/// Concatenated subtree walks of pairwise unrelated roots visit no node
/// twice.
pub proof fn lemma_subtrees_no_dup(t: Seq<NodeView>, cs: Seq<usize>, lo: usize)
    requires
        wf_tree(t),
        lo < t.len(),
        forall|k: int| 0 <= k < cs.len() ==> lo < (#[trigger] cs[k]) < t.len(),
        pairwise_unrelated(t, cs),
    ensures
        subtrees_exp(t, cs, lo).no_duplicates(),
    decreases t.len() - lo, 0int, cs.len(),
{
    lemma_wf_walks(t);
    if cs.len() == 0 {
    } else {
        assert forall|j: int, k: int|
            #![trigger cs.drop_last()[j], cs.drop_last()[k]]
            0 <= j < k < cs.drop_last().len() implies cs.drop_last()[j] != cs.drop_last()[k]
            && !ancestor_exp(t, cs.drop_last()[j]).contains(cs.drop_last()[k]) && !ancestor_exp(
            t,
            cs.drop_last()[k],
        ).contains(cs.drop_last()[j]) by {
            assert(cs.drop_last()[j] == cs[j]);
            assert(cs.drop_last()[k] == cs[k]);
        }
        assert(pairwise_unrelated(t, cs.drop_last()));
        lemma_subtrees_no_dup(t, cs.drop_last(), lo);
        lemma_subtree_no_dup(t, cs.last());
        let pre = subtrees_exp(t, cs.drop_last(), lo);
        let post = subtree_exp(t, cs.last());
        // the two halves are disjoint
        assert forall|x: int, y: int|
            0 <= x < pre.len() && 0 <= y < post.len() implies pre[x] != post[y] by {
            if pre[x] == post[y] {
                let m = pre[x];
                assert(pre.contains(m));
                lemma_subtrees_member(t, cs.drop_last(), lo, m);
                let k = choose|k: int|
                    0 <= k < cs.drop_last().len() && #[trigger] subtree_exp(
                        t,
                        cs.drop_last()[k],
                    ).contains(m);
                let cj = cs.drop_last()[k];
                assert(cj == cs[k]);
                let ck = cs.last();
                assert(ck == cs[cs.len() - 1]);
                assert(k < cs.len() - 1);
                assert(cs[k] != cs[cs.len() - 1] && !ancestor_exp(t, cs[k]).contains(
                    cs[cs.len() - 1],
                ) && !ancestor_exp(t, cs[cs.len() - 1]).contains(cs[k]));
                lemma_subtree_sound(t, cj, m);
                assert(post.contains(m));
                lemma_subtree_sound(t, ck, m);
                if m == cj {
                    // then ck == m impossible, so ck is an ancestor of m == cj
                    assert(ancestor_exp(t, cj).contains(ck));
                } else if m == ck {
                    assert(ancestor_exp(t, ck).contains(cj));
                } else {
                    // both cj and ck lie on m's chain; the chain is linear,
                    // so one is an ancestor of the other
                    let i1 = choose|i1: int|
                        0 <= i1 < ancestor_exp(t, m).len() && ancestor_exp(t, m)[i1] == cj;
                    let i2 = choose|i2: int|
                        0 <= i2 < ancestor_exp(t, m).len() && ancestor_exp(t, m)[i2] == ck;
                    lemma_subtree_bounded(t, cj);
                    assert(m < t.len());
                    lemma_ancestor_suffix(t, m);
                    if i1 < i2 {
                        assert(ancestor_exp(t, cj) == ancestor_exp(t, m).skip(i1 + 1));
                        assert(ancestor_exp(t, cj)[i2 - i1 - 1] == ck);
                    } else if i2 < i1 {
                        assert(ancestor_exp(t, ck) == ancestor_exp(t, m).skip(i2 + 1));
                        assert(ancestor_exp(t, ck)[i1 - i2 - 1] == cj);
                    } else {
                        assert(cj == ck);
                    }
                }
            }
        }
        assert forall|x: int, y: int|
            0 <= x < subtrees_exp(t, cs, lo).len() && 0 <= y < subtrees_exp(t, cs, lo).len() && x
                != y implies subtrees_exp(t, cs, lo)[x] != subtrees_exp(t, cs, lo)[y] by {
            let s = subtrees_exp(t, cs, lo);
            if x < pre.len() {
                assert(s[x] == pre[x]);
            } else {
                assert(s[x] == post[x - pre.len()]);
            }
            if y < pre.len() {
                assert(s[y] == pre[y]);
            } else {
                assert(s[y] == post[y - pre.len()]);
            }
        }
    }
}

/// Splitting a concatenation of subtree walks at one root.
pub proof fn lemma_subtrees_split(t: Seq<NodeView>, cs: Seq<usize>, lo: usize, k: int)
    requires
        crate::node_set::children_increasing(t),
        lo < t.len(),
        forall|i: int| 0 <= i < cs.len() ==> lo < (#[trigger] cs[i]) < t.len(),
        0 <= k < cs.len(),
    ensures
        subtrees_exp(t, cs, lo) == subtrees_exp(t, cs.take(k), lo) + subtree_exp(t, cs[k])
            + subtrees_exp(t, cs.skip(k + 1), lo),
    decreases cs.len(),
{
    if k == cs.len() - 1 {
        assert(cs.take(k) =~= cs.drop_last());
        assert(cs.skip(k + 1) =~= Seq::<usize>::empty());
        assert(subtrees_exp(t, cs.skip(k + 1), lo) =~= Seq::<usize>::empty());
        assert(subtrees_exp(t, cs, lo) =~= subtrees_exp(t, cs.take(k), lo) + subtree_exp(t, cs[k])
            + subtrees_exp(t, cs.skip(k + 1), lo));
    } else {
        lemma_subtrees_split(t, cs.drop_last(), lo, k);
        assert(cs.drop_last().take(k) =~= cs.take(k));
        assert(cs.drop_last()[k] == cs[k]);
        assert(cs.drop_last().skip(k + 1) =~= cs.skip(k + 1).drop_last());
        assert(subtrees_exp(t, cs.skip(k + 1), lo) == subtrees_exp(
            t,
            cs.skip(k + 1).drop_last(),
            lo,
        ) + subtree_exp(t, cs.skip(k + 1).last())) by {
            assert(cs.skip(k + 1).len() > 0);
        }
        assert(cs.skip(k + 1).last() == cs.last());
        assert(subtrees_exp(t, cs, lo) =~= subtrees_exp(t, cs.take(k), lo) + subtree_exp(t, cs[k])
            + subtrees_exp(t, cs.skip(k + 1), lo));
    }
}

/// The document-order walk of the whole tree: the pre-order walk from the
/// document node.
pub open spec fn doc_order(t: Seq<NodeView>) -> Seq<usize> {
    subtree_exp(t, 0)
}

/// The document-order position of a node.
pub open spec fn doc_pos(t: Seq<NodeView>, m: usize) -> int {
    doc_order(t).index_of(m)
}

/// A node-set strictly ordered by document position.
pub open spec fn sorted_by_doc_pos(t: Seq<NodeView>, s: Seq<usize>) -> bool {
    forall|i: int, j: int|
        0 <= i < j < s.len() ==> doc_pos(t, #[trigger] s[i]) < doc_pos(t, #[trigger] s[j])
}

/// The subtree walk of any non-attribute node appears, whole and
/// contiguous, inside the document-order walk.
pub proof fn lemma_subtree_infix(t: Seq<NodeView>, n: usize) -> (a: int)
    requires
        wf_tree(t),
        n < t.len(),
        t[n as int].node_type != NodeType::Attribute,
    ensures
        0 <= a,
        a + subtree_exp(t, n).len() <= doc_order(t).len(),
        forall|i: int|
            0 <= i < subtree_exp(t, n).len() ==> doc_order(t)[a + i] == #[trigger] subtree_exp(
                t,
                n,
            )[i],
    decreases n,
{
    lemma_wf_walks(t);
    if n == 0 {
        0
    } else {
        let p = t[n as int].parent->0;
        assert(t[n as int].parent matches Some(q) && q == p);
        assert(t[p as int].children.contains(n as usize));
        assert(t[p as int].node_type != NodeType::Attribute) by {
            if t[p as int].node_type == NodeType::Attribute {
                assert(t[p as int].children.len() == 0);
            }
        }
        let ap = lemma_subtree_infix(t, p);
        let cs = t[p as int].children;
        assert(wf_node(t, p as int));
        let k = choose|k: int| 0 <= k < cs.len() && cs[k] == n;
        lemma_subtrees_split(t, cs, p, k);
        let pre = subtrees_exp(t, cs.take(k), p);
        let mid = subtree_exp(t, n);
        let a = ap + 1 + pre.len();
        assert forall|i: int| 0 <= i < mid.len() implies doc_order(t)[a + i] == #[trigger] mid[i] by {
            let body = subtrees_exp(t, cs, p);
            assert(body[pre.len() + i] == mid[i]);
            assert(subtree_exp(t, p)[1 + pre.len() + i] == body[pre.len() + i]);
            assert(doc_order(t)[ap + 1 + pre.len() + i] == subtree_exp(t, p)[1 + pre.len() + i]);
        }
        assert(a + mid.len() <= doc_order(t).len()) by {
            assert(subtree_exp(t, p).len() == 1 + subtrees_exp(t, cs, p).len());
            assert(subtrees_exp(t, cs, p).len() == pre.len() + mid.len() + subtrees_exp(
                t,
                cs.skip(k + 1),
                p,
            ).len());
        }
        a
    }
}

/// Within the document-order walk, each node of a subtree walk sits at a
/// consecutive position.
pub proof fn lemma_subtree_positions(t: Seq<NodeView>, n: usize) -> (a: int)
    requires
        wf_tree(t),
        n < t.len(),
        t[n as int].node_type != NodeType::Attribute,
    ensures
        0 <= a,
        a + subtree_exp(t, n).len() <= doc_order(t).len(),
        forall|i: int|
            0 <= i < subtree_exp(t, n).len() ==> doc_pos(t, #[trigger] subtree_exp(t, n)[i]) == a
                + i,
{
    lemma_wf_walks(t);
    let a = lemma_subtree_infix(t, n);
    lemma_subtree_no_dup(t, 0);
    assert forall|i: int|
        0 <= i < subtree_exp(t, n).len() implies doc_pos(t, #[trigger] subtree_exp(t, n)[i]) == a
        + i by {
        assert(doc_order(t)[a + i] == subtree_exp(t, n)[i]);
        lemma_index_of_unique(doc_order(t), subtree_exp(t, n)[i], a + i);
    }
    a
}

/// Document order invariant: the `child`, `descendant`,
/// `descendant-or-self`, `following-sibling` and `following` axes of any
/// node are strictly ordered by document position.
pub proof fn law_document_order(t: Seq<NodeView>, n: usize)
    requires
        wf_tree(t),
        n < t.len(),
    ensures
        sorted_by_doc_pos(t, child_exp(t, n)),
        sorted_by_doc_pos(t, descendant_exp(t, n)),
        sorted_by_doc_pos(t, descendant_or_self_exp(t, n)),
        sorted_by_doc_pos(t, following_sibling_exp(t, n)),
        sorted_by_doc_pos(t, preceding_sibling_exp(t, n)),
        sorted_by_doc_pos(t, following_exp(t, n)),
{
    lemma_wf_walks(t);
    assert(wf_node(t, n as int));
    if t[n as int].node_type == NodeType::Attribute {
        // an attribute has no children and no parent: all five axes are
        // empty
        assert(t[n as int].children.len() == 0);
        assert(subtrees_exp(t, t[n as int].children, n) =~= Seq::<usize>::empty());
        assert(subtree_exp(t, n) =~= seq![n]);
    } else {
        let a = lemma_subtree_positions(t, n);
        let cs = t[n as int].children;
        // descendant-or-self: the subtree walk itself, consecutive
        // positions
        assert(sorted_by_doc_pos(t, descendant_or_self_exp(t, n)));
        // descendant: the subtree walk without its head
        assert forall|i: int, j: int|
            0 <= i < j < descendant_exp(t, n).len() implies doc_pos(
            t,
            #[trigger] descendant_exp(t, n)[i],
        ) < doc_pos(t, #[trigger] descendant_exp(t, n)[j]) by {
            assert(descendant_exp(t, n)[i] == subtree_exp(t, n)[i + 1]);
            assert(descendant_exp(t, n)[j] == subtree_exp(t, n)[j + 1]);
        }
        // child: each child heads its own walk within the parent's
        lemma_child_positions(t, n, a);
        assert forall|i: int, j: int|
            0 <= i < j < cs.len() implies doc_pos(t, #[trigger] cs[i]) < doc_pos(
            t,
            #[trigger] cs[j],
        ) by {
            lemma_subtrees_take_grows(t, cs, n, i, j);
        }
        // following-sibling and following
        match t[n as int].parent {
            None => {},
            Some(p) => {
                assert(t[p as int].node_type != NodeType::Attribute) by {
                    if t[p as int].node_type == NodeType::Attribute {
                        assert(t[p as int].children.len() == 0);
                        assert(t[p as int].children.contains(n as usize));
                    }
                }
                law_document_order_siblings(t, n, p);
            },
        }
    }
}

/// The position of each child within its parent's subtree walk: after the
/// parent, beyond the walks of the earlier children.
proof fn lemma_child_positions(t: Seq<NodeView>, n: usize, a: int)
    requires
        wf_tree(t),
        n < t.len(),
        t[n as int].node_type != NodeType::Attribute,
        0 <= a,
        a + subtree_exp(t, n).len() <= doc_order(t).len(),
        forall|i: int|
            0 <= i < subtree_exp(t, n).len() ==> doc_pos(t, #[trigger] subtree_exp(t, n)[i]) == a
                + i,
    ensures
        forall|k: int|
            0 <= k < t[n as int].children.len() ==> doc_pos(
                t,
                #[trigger] t[n as int].children[k],
            ) == a + 1 + subtrees_exp(t, t[n as int].children.take(k), n).len(),
{
    lemma_wf_walks(t);
    assert(wf_node(t, n as int));
    let cs = t[n as int].children;
    assert forall|k: int| 0 <= k < cs.len() implies doc_pos(t, #[trigger] cs[k]) == a + 1
        + subtrees_exp(t, cs.take(k), n).len() by {
        lemma_subtrees_split(t, cs, n, k);
        let pre = subtrees_exp(t, cs.take(k), n);
        let plen = pre.len() as int;
        assert(subtrees_exp(t, cs, n)[plen] == subtree_exp(t, cs[k])[0]);
        assert(subtree_exp(t, cs[k])[0] == cs[k]);
        assert(subtree_exp(t, n)[1 + plen] == subtrees_exp(t, cs, n)[plen]);
        assert(doc_pos(t, subtree_exp(t, n)[1 + plen]) == a + 1 + plen);
    }
}

/// The prefix walks of a child list grow strictly with each further
/// child.
proof fn lemma_subtrees_take_grows(t: Seq<NodeView>, cs: Seq<usize>, lo: usize, i: int, j: int)
    requires
        crate::node_set::children_increasing(t),
        lo < t.len(),
        forall|k: int| 0 <= k < cs.len() ==> lo < (#[trigger] cs[k]) < t.len(),
        0 <= i < j < cs.len(),
    ensures
        subtrees_exp(t, cs.take(i), lo).len() < subtrees_exp(t, cs.take(j), lo).len(),
    decreases j - i,
{
    assert(cs.take(i + 1).drop_last() =~= cs.take(i));
    assert(cs.take(i + 1).last() == cs[i]);
    assert(subtrees_exp(t, cs.take(i + 1), lo) == subtrees_exp(t, cs.take(i), lo) + subtree_exp(
        t,
        cs[i],
    ));
    assert(subtree_exp(t, cs[i]).len() >= 1) by {
        assert(subtree_exp(t, cs[i])[0] == cs[i]);
    }
    if i + 1 < j {
        lemma_subtrees_take_grows(t, cs, lo, i + 1, j);
    }
}

/// Document order for the sibling axes: the siblings on either side, and
/// the whole subtrees of the later ones in turn, are strictly ordered by
/// document position.
#[verifier::rlimit(60)]
proof fn law_document_order_siblings(t: Seq<NodeView>, n: usize, p: usize)
    requires
        wf_tree(t),
        n < t.len(),
        p < t.len(),
        t[n as int].parent == Some(p),
        t[p as int].node_type != NodeType::Attribute,
        t[n as int].node_type != NodeType::Attribute,
    ensures
        sorted_by_doc_pos(t, following_sibling_exp(t, n)),
        sorted_by_doc_pos(t, preceding_sibling_exp(t, n)),
        sorted_by_doc_pos(t, following_exp(t, n)),
{
    lemma_wf_walks(t);
    assert(wf_node(t, p as int));
    let cs = t[p as int].children;
    assert(cs.contains(n));
    let ap = lemma_subtree_positions(t, p);
    lemma_child_positions(t, p, ap);
    let idx = cs.index_of(n);
    assert(0 <= idx < cs.len() && cs[idx] == n);
    let fs = following_sibling_exp(t, n);
    assert(fs == cs.subrange(idx + 1, cs.len() as int));
    assert forall|i: int, j: int|
        0 <= i < j < fs.len() implies doc_pos(t, #[trigger] fs[i]) < doc_pos(
        t,
        #[trigger] fs[j],
    ) by {
        assert(fs[i] == cs[idx + 1 + i]);
        assert(fs[j] == cs[idx + 1 + j]);
        lemma_subtrees_take_grows(t, cs, p, idx + 1 + i, idx + 1 + j);
    }
    let ps = preceding_sibling_exp(t, n);
    assert(ps == cs.subrange(0, idx));
    assert forall|i: int, j: int|
        0 <= i < j < ps.len() implies doc_pos(t, #[trigger] ps[i]) < doc_pos(
        t,
        #[trigger] ps[j],
    ) by {
        assert(ps[i] == cs[i]);
        assert(ps[j] == cs[j]);
        lemma_subtrees_take_grows(t, cs, p, i, j);
    }
    // following: the concatenation of the walks of the later siblings is a
    // contiguous tail of the parent's subtree walk
    let body = subtrees_exp(t, cs, p);
    let fw = following_exp(t, n);
    assert(fw == subtrees_exp(t, fs, p));
    lemma_subtrees_tail(t, cs, p, idx + 1);
    let off = subtrees_exp(t, cs.take(idx + 1), p).len() as int;
    assert forall|i: int, j: int|
        0 <= i < j < fw.len() implies doc_pos(t, #[trigger] fw[i]) < doc_pos(
        t,
        #[trigger] fw[j],
    ) by {
        assert(fw[i] == body[off + i]);
        assert(fw[j] == body[off + j]);
        assert(subtree_exp(t, p)[1 + off + i] == body[off + i]);
        assert(subtree_exp(t, p)[1 + off + j] == body[off + j]);
        assert(doc_pos(t, subtree_exp(t, p)[1 + off + i]) == ap + 1 + off + i);
        assert(doc_pos(t, subtree_exp(t, p)[1 + off + j]) == ap + 1 + off + j);
    }
}

/// The walks of a suffix of a child list form the matching tail of the
/// walks of the whole list.
proof fn lemma_subtrees_tail(t: Seq<NodeView>, cs: Seq<usize>, lo: usize, k: int)
    requires
        crate::node_set::children_increasing(t),
        lo < t.len(),
        forall|i: int| 0 <= i < cs.len() ==> lo < (#[trigger] cs[i]) < t.len(),
        0 <= k <= cs.len(),
    ensures
        subtrees_exp(t, cs, lo) == subtrees_exp(t, cs.take(k), lo) + subtrees_exp(
            t,
            cs.skip(k),
            lo,
        ),
    decreases cs.len() - k,
{
    if k == cs.len() {
        assert(cs.take(k) =~= cs);
        assert(cs.skip(k) =~= Seq::<usize>::empty());
        assert(subtrees_exp(t, cs, lo) =~= subtrees_exp(t, cs.take(k), lo) + subtrees_exp(
            t,
            cs.skip(k),
            lo,
        ));
    } else {
        lemma_subtrees_split(t, cs, lo, k);
        lemma_subtrees_tail(t, cs, lo, k + 1);
        assert(cs.take(k + 1).drop_last() =~= cs.take(k));
        assert(cs.take(k + 1).last() == cs[k]);
        assert(subtrees_exp(t, cs.take(k + 1), lo) == subtrees_exp(t, cs.take(k), lo)
            + subtree_exp(t, cs[k]));
        // assemble from the split at k and the tail from k + 1
        assert(cs.skip(k)[0] == cs[k]);
        assert(cs.skip(k).skip(1) =~= cs.skip(k + 1));
        lemma_subtrees_head(t, cs.skip(k), lo);
        assert(subtrees_exp(t, cs.skip(k), lo) == subtree_exp(t, cs[k]) + subtrees_exp(
            t,
            cs.skip(k + 1),
            lo,
        ));
        assert(subtrees_exp(t, cs, lo) =~= subtrees_exp(t, cs.take(k), lo) + subtrees_exp(
            t,
            cs.skip(k),
            lo,
        ));
    }
}

/// Peeling the first root off a concatenation of subtree walks.
proof fn lemma_subtrees_head(t: Seq<NodeView>, cs: Seq<usize>, lo: usize)
    requires
        crate::node_set::children_increasing(t),
        lo < t.len(),
        forall|i: int| 0 <= i < cs.len() ==> lo < (#[trigger] cs[i]) < t.len(),
        cs.len() > 0,
    ensures
        subtrees_exp(t, cs, lo) == subtree_exp(t, cs[0]) + subtrees_exp(t, cs.skip(1), lo),
    decreases cs.len(),
{
    if cs.len() == 1 {
        assert(cs.skip(1) =~= Seq::<usize>::empty());
        assert(cs.drop_last() =~= Seq::<usize>::empty());
        assert(subtrees_exp(t, cs.drop_last(), lo) =~= Seq::<usize>::empty());
        assert(cs.last() == cs[0]);
        assert(subtrees_exp(t, cs, lo) =~= subtree_exp(t, cs[0]) + subtrees_exp(
            t,
            cs.skip(1),
            lo,
        ));
    } else {
        lemma_subtrees_head(t, cs.drop_last(), lo);
        assert(cs.drop_last()[0] == cs[0]);
        assert(cs.drop_last().skip(1) =~= cs.skip(1).drop_last());
        assert(cs.skip(1).last() == cs.last());
        assert(subtrees_exp(t, cs.skip(1), lo) == subtrees_exp(t, cs.skip(1).drop_last(), lo)
            + subtree_exp(t, cs.skip(1).last())) by {
            assert(cs.skip(1).len() > 0);
        }
        assert(subtrees_exp(t, cs, lo) =~= subtree_exp(t, cs[0]) + subtrees_exp(
            t,
            cs.skip(1),
            lo,
        ));
    }
}


} // verus!
