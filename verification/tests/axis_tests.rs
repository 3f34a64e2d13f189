//! Tests of the node-set engine: each axis against the book/chapter/section
//! tree, one letter per element:
//!
//! ```text
//!                        [A]
//!                         |
//!       ,-----------,-----'-----,-----------,
//!      [B]         [E]         [K]         [N]
//!       |           |           |
//!    ,--'--,     ,--'--,     ,--'--,
//!   [C]   [D]   [F]   [G]   [L]   [M]
//!                      |
//!                ,-----|-----,
//!               [H]   [I]   [J]
//! ```
//!
//! Section C holds one text node, and the elements carry `xml:id`
//! attributes, as the equivalent XML document would.

use xml_dom_xpath::node_set::NodeSet;
use xml_dom_xpath::tree::Document;

/// The document above.  Returns the document and the indices of
/// `[A, B, C, text, D, E, F, G, H, I, J, K, L, M, N]`, in that order.
fn make_test_document() -> (Document, Vec<usize>) {
    let mut doc = Document::new();
    let a = doc.add_element(0, "book");
    doc.add_attribute(a, "xml:id");
    let b = doc.add_element(a, "chapter");
    doc.add_attribute(b, "xml:id");
    let c = doc.add_element(b, "section");
    doc.add_attribute(c, "xml:id");
    let t_c = doc.add_text(c);
    let d = doc.add_element(b, "section");
    doc.add_attribute(d, "xml:id");
    doc.add_attribute(d, "incomplete");
    let e = doc.add_element(a, "chapter");
    doc.add_attribute(e, "xml:id");
    let f = doc.add_element(e, "section");
    doc.add_attribute(f, "xml:id");
    let g = doc.add_element(e, "section");
    doc.add_attribute(g, "xml:id");
    let h = doc.add_element(g, "sub-section");
    doc.add_attribute(h, "xml:id");
    let i = doc.add_element(g, "sub-section");
    doc.add_attribute(i, "xml:id");
    let j = doc.add_element(g, "sub-section");
    doc.add_attribute(j, "xml:id");
    let k = doc.add_element(a, "chapter");
    doc.add_attribute(k, "xml:id");
    let l = doc.add_element(k, "section");
    doc.add_attribute(l, "xml:id");
    let m = doc.add_element(k, "section");
    doc.add_attribute(m, "xml:id");
    doc.add_attribute(m, "incomplete");
    let n = doc.add_element(a, "chapter");
    doc.add_attribute(n, "xml:id");
    doc.add_attribute(n, "incomplete");
    assert!(doc.is_well_formed());
    (doc, vec![a, b, c, t_c, d, e, f, g, h, i, j, k, l, m, n])
}

#[test]
fn test_ancester() {
    let (doc, ids) = make_test_document();
    let (a, e, g) = (ids[0], ids[5], ids[7]);
    let node_set = NodeSet::from(g);

    let node_set = node_set.ancestor(&doc);

    assert_eq!(node_set.len(), 3);
    assert_eq!(node_set.as_slice(), &[e, a, 0][..]);
}

#[test]
fn test_ancester_or_self() {
    let (doc, ids) = make_test_document();
    let (a, e, g) = (ids[0], ids[5], ids[7]);
    let node_set = NodeSet::from(g);

    let node_set = node_set.ancestor_or_self(&doc);

    assert_eq!(node_set.len(), 4);
    assert_eq!(node_set.as_slice(), &[g, e, a, 0][..]);
}

#[test]
fn test_child() {
    let (doc, ids) = make_test_document();
    let (e, f, g) = (ids[5], ids[6], ids[7]);
    let node_set = NodeSet::from(e);

    let node_set = node_set.child(&doc);

    assert_eq!(node_set.len(), 2);
    assert_eq!(node_set.as_slice(), &[f, g][..]);
}

#[test]
fn test_descendant() {
    let (doc, ids) = make_test_document();
    let (e, f, g, h, i, j) = (ids[5], ids[6], ids[7], ids[8], ids[9], ids[10]);
    let node_set = NodeSet::from(e);

    let node_set = node_set.descendant(&doc);

    assert_eq!(node_set.len(), 5);
    assert_eq!(node_set.as_slice(), &[f, g, h, i, j][..]);
}

#[test]
fn test_descendant_or_self() {
    let (doc, ids) = make_test_document();
    let (e, f, g, h, i, j) = (ids[5], ids[6], ids[7], ids[8], ids[9], ids[10]);
    let node_set = NodeSet::from(e);

    let node_set = node_set.descendant_or_self(&doc);

    assert_eq!(node_set.len(), 6);
    assert_eq!(node_set.as_slice(), &[e, f, g, h, i, j][..]);
}

#[test]
fn test_following() {
    let (doc, ids) = make_test_document();
    let (e, k, l, m, n) = (ids[5], ids[11], ids[12], ids[13], ids[14]);
    let node_set = NodeSet::from(e);

    let node_set = node_set.following(&doc);

    assert_eq!(node_set.len(), 4);
    assert_eq!(node_set.as_slice(), &[k, l, m, n][..]);
}

#[test]
fn test_following_sibling() {
    let (doc, ids) = make_test_document();
    let (e, k, n) = (ids[5], ids[11], ids[14]);
    let node_set = NodeSet::from(e);

    let node_set = node_set.following_sibling(&doc);

    assert_eq!(node_set.len(), 2);
    assert_eq!(node_set.as_slice(), &[k, n][..]);
}

#[test]
fn test_parent() {
    let (doc, ids) = make_test_document();
    let (a, e) = (ids[0], ids[5]);
    let node_set = NodeSet::from(e);

    let node_set = node_set.parent(&doc);

    assert_eq!(node_set.len(), 1);
    assert_eq!(node_set.as_slice(), &[a][..]);
}

#[test]
fn test_preceding() {
    let (doc, ids) = make_test_document();
    let (b, c, t_c, d, e) = (ids[1], ids[2], ids[3], ids[4], ids[5]);
    let node_set = NodeSet::from(e);

    let node_set = node_set.preceding(&doc);

    assert_eq!(node_set.len(), 4);
    // adjacency order: the sibling B first, then its subtree walked in
    // reverse — a deliberate simplification of strict reverse document
    // order that this engine preserves
    assert_eq!(node_set.as_slice(), &[b, d, c, t_c][..]);
}

#[test]
fn test_preceding_sibling() {
    let (doc, ids) = make_test_document();
    let (b, e) = (ids[1], ids[5]);
    let node_set = NodeSet::from(e);

    let node_set = node_set.preceding_sibling(&doc);

    assert_eq!(node_set.len(), 1);
    assert_eq!(node_set.as_slice(), &[b][..]);
}

// --------------------------------------------------------------------------
// the concrete scenario of the descendant/following/ancestor orderings, on
// a bare tree without text or attribute nodes
// --------------------------------------------------------------------------

/// The tree `A{ B{C,D}, E{F,G{H,I,J}}, K{L,M}, N }`, elements only.
fn make_scenario_document() -> (Document, Vec<usize>) {
    let mut doc = Document::new();
    let a = doc.add_element(0, "a");
    let b = doc.add_element(a, "b");
    let c = doc.add_element(b, "c");
    let d = doc.add_element(b, "d");
    let e = doc.add_element(a, "e");
    let f = doc.add_element(e, "f");
    let g = doc.add_element(e, "g");
    let h = doc.add_element(g, "h");
    let i = doc.add_element(g, "i");
    let j = doc.add_element(g, "j");
    let k = doc.add_element(a, "k");
    let l = doc.add_element(k, "l");
    let m = doc.add_element(k, "m");
    let n = doc.add_element(a, "n");
    (doc, vec![a, b, c, d, e, f, g, h, i, j, k, l, m, n])
}

#[test]
fn scenario_axis_results() {
    let (doc, ids) = make_scenario_document();
    let (a, b, e, f, g, h, i, j, k, l, m, n) = (
        ids[0], ids[1], ids[4], ids[5], ids[6], ids[7], ids[8], ids[9], ids[10], ids[11], ids[12],
        ids[13],
    );
    assert_eq!(NodeSet::from(e).descendant(&doc).as_slice(), &[f, g, h, i, j][..]);
    assert_eq!(NodeSet::from(e).descendant_or_self(&doc).as_slice(), &[e, f, g, h, i, j][..]);
    assert_eq!(NodeSet::from(e).following(&doc).as_slice(), &[k, l, m, n][..]);
    assert_eq!(NodeSet::from(e).following_sibling(&doc).as_slice(), &[k, n][..]);
    assert_eq!(NodeSet::from(g).ancestor(&doc).as_slice(), &[e, a, 0][..]);
    assert_eq!(NodeSet::from(g).ancestor_or_self(&doc).as_slice(), &[g, e, a, 0][..]);
    assert_eq!(NodeSet::from(e).preceding_sibling(&doc).as_slice(), &[b][..]);
    assert_eq!(NodeSet::from(e).parent(&doc).as_slice(), &[a][..]);
}

#[test]
fn self_axis_keeps_every_node_type() {
    let (doc, ids) = make_test_document();
    // an element, the text node and the document node alike
    let text = ids[3];
    for node in [ids[0], text, 0usize] {
        let ns = NodeSet::from(node).self_node(&doc);
        assert_eq!(ns.as_slice(), &[node][..]);
    }
}

#[test]
fn empty_input_yields_empty_output() {
    let (doc, _ids) = make_test_document();
    let empty = NodeSet::from_vec(Vec::new());
    assert!(empty.ancestor(&doc).is_empty());
    assert!(empty.ancestor_or_self(&doc).is_empty());
    assert!(empty.attribute(&doc).is_empty());
    assert!(empty.child(&doc).is_empty());
    assert!(empty.descendant(&doc).is_empty());
    assert!(empty.descendant_or_self(&doc).is_empty());
    assert!(empty.document(&doc).is_empty());
    assert!(empty.following(&doc).is_empty());
    assert!(empty.following_sibling(&doc).is_empty());
    assert!(empty.namespace(&doc).is_empty());
    assert!(empty.parent(&doc).is_empty());
    assert!(empty.preceding(&doc).is_empty());
    assert!(empty.preceding_sibling(&doc).is_empty());
    assert!(empty.self_node(&doc).is_empty());
}

#[test]
fn attribute_and_namespace_partition() {
    let mut doc = Document::new();
    let root = doc.add_element(0, "book");
    let plain = doc.add_attribute(root, "title");
    let ns_default = doc.add_attribute(root, "xmlns");
    let ns_prefixed = doc.add_attribute(root, "xmlns:dc");
    let other = doc.add_attribute(root, "xml:id");
    assert!(doc.is_well_formed());

    let attrs = NodeSet::from(root).attribute(&doc);
    let namespaces = NodeSet::from(root).namespace(&doc);
    assert_eq!(attrs.as_slice(), &[plain, other][..]);
    assert_eq!(namespaces.as_slice(), &[ns_default, ns_prefixed][..]);

    // non-elements have neither attributes nor namespace nodes
    assert!(NodeSet::from(0).attribute(&doc).is_empty());
    assert!(NodeSet::from(0).namespace(&doc).is_empty());
}

#[test]
fn namespace_attr_names() {
    assert!(xml_dom_xpath::node_set::is_namespace_attr_name("xmlns"));
    assert!(xml_dom_xpath::node_set::is_namespace_attr_name("xmlns:dc"));
    assert!(!xml_dom_xpath::node_set::is_namespace_attr_name("xmlnsx"));
    assert!(!xml_dom_xpath::node_set::is_namespace_attr_name("title"));
    assert!(!xml_dom_xpath::node_set::is_namespace_attr_name("id"));
    assert!(!xml_dom_xpath::node_set::is_namespace_attr_name(""));
}

#[test]
fn document_axis_finds_the_owner() {
    let (doc, ids) = make_test_document();
    let g = ids[7];
    assert_eq!(NodeSet::from(g).document(&doc).as_slice(), &[0][..]);
    // the document node has no owning document of its own
    assert!(NodeSet::from(0).document(&doc).is_empty());
}

#[test]
fn sibling_axes_of_parentless_nodes_are_empty() {
    let mut doc = Document::new();
    let root = doc.add_element(0, "book");
    let attr = doc.add_attribute(root, "xml:id");
    // the document node has no parent; attribute nodes have none either
    for node in [0usize, attr] {
        assert!(NodeSet::from(node).parent(&doc).is_empty());
        assert!(NodeSet::from(node).ancestor(&doc).is_empty());
        assert!(NodeSet::from(node).following_sibling(&doc).is_empty());
        assert!(NodeSet::from(node).preceding_sibling(&doc).is_empty());
        assert!(NodeSet::from(node).following(&doc).is_empty());
        assert!(NodeSet::from(node).preceding(&doc).is_empty());
    }
}

#[test]
fn duplicates_are_kept_in_context_order() {
    let (doc, ids) = make_test_document();
    let (a, e, f, g) = (ids[0], ids[5], ids[6], ids[7]);
    let ns = NodeSet::from_vec(vec![f, g, f]);
    // per-node expansions concatenate in context order, without
    // deduplication
    assert_eq!(ns.parent(&doc).as_slice(), &[e, e, e][..]);
    let both = NodeSet::from_vec(vec![e, e]);
    assert_eq!(both.child(&doc).as_slice(), &[f, g, f, g][..]);
    assert_eq!(NodeSet::from(a).len(), 1);
}

#[test]
fn well_formedness_check_rejects_a_cycle() {
    let (mut doc, ids) = make_test_document();
    assert!(doc.is_well_formed());
    // short-circuit a parent pointer to fabricate a cycle
    let g = ids[7];
    doc.nodes[g].children.push(ids[0]);
    assert!(!doc.is_well_formed());
}

#[test]
fn preceding_walks_nearest_subtrees_first() {
    let (doc, ids) = make_scenario_document();
    let (b, c, d, e, f, g, h, i, j, k) = (
        ids[1], ids[2], ids[3], ids[4], ids[5], ids[6], ids[7], ids[8], ids[9], ids[10],
    );
    // from K: the nearer sibling E first, then B, each followed by its
    // subtree walked children-first in reverse
    let ns = NodeSet::from(k).preceding(&doc);
    assert_eq!(ns.as_slice(), &[e, b, g, f, j, i, h, d, c][..]);
}
