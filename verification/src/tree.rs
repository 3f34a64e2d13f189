//! The document model the evaluator walks: a parent-linked tree of typed
//! nodes held in one arena, where a node is named by its index.
//!
//! Node 0 is always the document node.  Every other node records its parent
//! (attribute nodes, as in DOM Level 2, have no parent), and every node
//! records its children and its attributes in order.  Well-formedness,
//! [`Document::wf`], ties the arena together: children point back to their
//! parent, a child's index is greater than its parent's (so the structure is
//! acyclic), and child lists hold no duplicates.

use vstd::prelude::*;

verus! {

/// The type of a node in the document tree.
#[derive(Clone, Copy, Debug, PartialEq, Eq, Structural)]
pub enum NodeType {
    /// The document node; always node 0 of a well-formed document.
    Document,
    /// An element, with a qualified name, children and attributes.
    Element,
    /// An attribute of an element, with a qualified name.
    Attribute,
    /// A text node.
    Text,
    /// A comment node.
    Comment,
    /// A processing instruction; its name holds the instruction's target.
    ProcessingInstruction,
}

/// The mathematical view of one node of the tree.
pub ghost struct NodeView {
    /// The node's type.
    pub node_type: NodeType,
    /// The node's qualified name (the target, for a processing instruction).
    pub name: Seq<char>,
    /// The index of the parent node, if the node has one.
    pub parent: Option<usize>,
    /// The indices of the child nodes, in document order.
    pub children: Seq<usize>,
    /// The indices of the attribute nodes, in declaration order.
    pub attributes: Seq<usize>,
}

pub struct NodeData {
    /// The node's type.
    pub node_type: NodeType,
    /// The node's qualified name (the target, for a processing instruction).
    pub name: String,
    /// The index of the parent node, if the node has one.
    pub parent: Option<usize>,
    /// The indices of the child nodes, in document order.
    pub children: Vec<usize>,
    /// The indices of the attribute nodes, in declaration order.
    pub attributes: Vec<usize>,
}

impl View for NodeData {
    type V = NodeView;

    open spec fn view(&self) -> NodeView {
        NodeView {
            node_type: self.node_type,
            name: self.name@,
            parent: self.parent,
            children: self.children@,
            attributes: self.attributes@,
        }
    }
}

/// An in-memory document tree.  Nodes are created through the `add_*`
/// methods and are referred to by index; the document node itself is
/// created by [`Document::new`] and is always index 0.
pub struct Document {
    /// The node arena; a node is named by its index here.
    pub nodes: Vec<NodeData>,
}

impl View for Document {
    type V = Seq<NodeView>;

    open spec fn view(&self) -> Seq<NodeView> {
        self.nodes@.map_values(|nd: NodeData| nd@)
    }
}

/// One node of the tree, seen from its own entry: children and attributes
/// lie within the arena and beyond the node itself, children point back to
/// it, and both lists are free of duplicates.
pub open spec fn wf_node(t: Seq<NodeView>, i: int) -> bool {
    &&& forall|k: int|
        0 <= k < t[i].children.len() ==> {
            let c = #[trigger] t[i].children[k];
            &&& i < c < t.len()
            &&& t[c as int].parent matches Some(p) && p == i
            &&& t[c as int].node_type != NodeType::Document
            &&& t[c as int].node_type != NodeType::Attribute
        }
    &&& t[i].children.no_duplicates()
    &&& forall|k: int|
        0 <= k < t[i].attributes.len() ==> {
            let a = #[trigger] t[i].attributes[k];
            &&& i < a < t.len()
            &&& t[a as int].node_type == NodeType::Attribute
        }
    &&& t[i].attributes.no_duplicates()
}

/// Well-formedness of the whole arena: node 0 is the document node, every
/// other non-attribute node hangs off a parent with a smaller index that
/// lists it as a child, and attribute nodes have no parent.
pub open spec fn wf_tree(t: Seq<NodeView>) -> bool {
    &&& 1 <= t.len()
    &&& t[0].node_type == NodeType::Document
    &&& t[0].parent is None
    &&& forall|i: int| 0 <= i < t.len() ==> wf_node(t, i)
    &&& forall|i: int| 1 <= i < t.len() ==> (#[trigger] t[i].node_type) != NodeType::Document
    &&& forall|i: int|
        1 <= i < t.len() && (#[trigger] t[i].node_type) != NodeType::Attribute ==> {
            &&& t[i].parent matches Some(p)
            &&& t[i].parent->0 < i
            &&& t[t[i].parent->0 as int].children.contains(i as usize)
        }
    &&& forall|i: int|
        0 <= i < t.len() && (#[trigger] t[i].node_type) == NodeType::Attribute ==> t[i].parent
            is None && t[i].children.len() == 0
}

impl Document {
    /// Well-formedness of this document's node arena.
    pub open spec fn wf(&self) -> bool {
        wf_tree(self@)
    }

    /// The number of nodes in the document, the document node included.
    pub fn len(&self) -> (n: usize)
        ensures
            n == self@.len(),
    {
        self.nodes.len()
    }

    /// The type of node `n`.
    pub fn node_type(&self, n: usize) -> (t: NodeType)
        requires
            n < self@.len(),
        ensures
            t == self@[n as int].node_type,
    {
        self.nodes[n].node_type
    }

    /// The qualified name of node `n` (for a processing instruction, its
    /// target; empty for nodes without a name).
    pub fn node_name(&self, n: usize) -> (name: &String)
        requires
            n < self@.len(),
        ensures
            name@ == self@[n as int].name,
    {
        &self.nodes[n].name
    }

    /// Create a document holding only its document node.
    pub fn new() -> (doc: Document)
        ensures
            doc.wf(),
            doc@.len() == 1,
            doc@[0].node_type == NodeType::Document,
            doc@[0].children == Seq::<usize>::empty(),
            doc@[0].attributes == Seq::<usize>::empty(),
    {
        let doc = Document {
            nodes: vec![
                NodeData {
                    node_type: NodeType::Document,
                    name: String::new(),
                    parent: None,
                    children: Vec::new(),
                    attributes: Vec::new(),
                },
            ],
        };
        proof {
            assert(doc@ =~= seq![doc.nodes@[0]@]);
        }
        doc
    }

    /// Append a fresh node of type `node_type` with name `name` as the last
    /// child of `parent`, returning its index.
    fn add_child_node(&mut self, parent: usize, node_type: NodeType, name: &str) -> (id: usize)
        requires
            old(self).wf(),
            parent < old(self)@.len(),
            old(self)@[parent as int].node_type != NodeType::Attribute,
            node_type != NodeType::Document,
            node_type != NodeType::Attribute,
        ensures
            final(self).wf(),
            id == old(self)@.len(),
            final(self)@.len() == old(self)@.len() + 1,
            final(self)@ =~= old(self)@.update(
                parent as int,
                NodeView { children: old(self)@[parent as int].children.push(id), ..old(self)@[parent as int] },
            ).push(
                NodeView {
                    node_type,
                    name: name@,
                    parent: Some(parent),
                    children: Seq::empty(),
                    attributes: Seq::empty(),
                },
            ),
    {
        let id = self.nodes.len();
        let ghost t0 = self@;
        self.nodes.push(NodeData {
            node_type,
            name: name.to_owned(),
            parent: Some(parent),
            children: Vec::new(),
            attributes: Vec::new(),
        });
        let parent_node = &mut self.nodes[parent];
        parent_node.children.push(id);
        proof {
            let t = self@;
            assert(t =~= t0.update(
                parent as int,
                NodeView { children: t0[parent as int].children.push(id), ..t0[parent as int] },
            ).push(
                NodeView {
                    node_type,
                    name: name@,
                    parent: Some(parent),
                    children: Seq::empty(),
                    attributes: Seq::empty(),
                },
            ));
            assert forall|i: int| 0 <= i < t.len() implies wf_node(t, i) by {
                if i < t0.len() {
                    assert(wf_node(t0, i));
                    if i == parent {
                        assert(t[i].children =~= t0[i].children.push(id as usize));
                        assert(forall|k: int|
                            0 <= k < t0[i].children.len() ==> t[i].children[k] == t0[i].children[k]);
                        assert(!t0[i].children.contains(id as usize));
                        assert(t[i].children.no_duplicates());
                    } else {
                        assert(t[i].children =~= t0[i].children);
                        assert(t[i].attributes =~= t0[i].attributes);
                    }
                } else {
                    assert(i == id);
                    assert(t[i].children.len() == 0);
                    assert(t[i].attributes.len() == 0);
                }
            }
            assert forall|i: int|
                1 <= i < t.len() && (#[trigger] t[i].node_type) != NodeType::Attribute implies {
                    &&& t[i].parent matches Some(p)
                    &&& t[i].parent->0 < i
                    &&& t[t[i].parent->0 as int].children.contains(i as usize)
                } by {
                if i < t0.len() {
                    let q = t0[i].parent->0 as int;
                    assert(t0[q].children.contains(i as usize));
                    let k = choose|k: int|
                        0 <= k < t0[q].children.len() && t0[q].children[k] == i as usize;
                    assert(t[q].children[k] == i as usize);
                } else {
                    assert(t[parent as int].children[t0[parent as int].children.len() as int]
                        == id as usize);
                }
            }
            assert(wf_tree(t));
        }
        id
    }

    /// Append a fresh element named `name` as the last child of `parent`,
    /// returning its index.
    pub fn add_element(&mut self, parent: usize, name: &str) -> (id: usize)
        requires
            old(self).wf(),
            parent < old(self)@.len(),
            old(self)@[parent as int].node_type != NodeType::Attribute,
        ensures
            final(self).wf(),
            id == old(self)@.len(),
            final(self)@ =~= old(self)@.update(
                parent as int,
                NodeView { children: old(self)@[parent as int].children.push(id), ..old(self)@[parent as int] },
            ).push(
                NodeView {
                    node_type: NodeType::Element,
                    name: name@,
                    parent: Some(parent),
                    children: Seq::empty(),
                    attributes: Seq::empty(),
                },
            ),
    {
        self.add_child_node(parent, NodeType::Element, name)
    }

    /// Append a fresh text node as the last child of `parent`, returning its
    /// index.
    pub fn add_text(&mut self, parent: usize) -> (id: usize)
        requires
            old(self).wf(),
            parent < old(self)@.len(),
            old(self)@[parent as int].node_type != NodeType::Attribute,
        ensures
            final(self).wf(),
            id == old(self)@.len(),
            final(self)@ =~= old(self)@.update(
                parent as int,
                NodeView { children: old(self)@[parent as int].children.push(id), ..old(self)@[parent as int] },
            ).push(
                NodeView {
                    node_type: NodeType::Text,
                    name: Seq::empty(),
                    parent: Some(parent),
                    children: Seq::empty(),
                    attributes: Seq::empty(),
                },
            ),
    {
        let id = self.add_child_node(parent, NodeType::Text, "");
        proof {
            reveal_strlit("");
            assert(""@ =~= Seq::<char>::empty());
        }
        id
    }

    /// Append a fresh comment node as the last child of `parent`, returning
    /// its index.
    pub fn add_comment(&mut self, parent: usize) -> (id: usize)
        requires
            old(self).wf(),
            parent < old(self)@.len(),
            old(self)@[parent as int].node_type != NodeType::Attribute,
        ensures
            final(self).wf(),
            id == old(self)@.len(),
            final(self)@ =~= old(self)@.update(
                parent as int,
                NodeView { children: old(self)@[parent as int].children.push(id), ..old(self)@[parent as int] },
            ).push(
                NodeView {
                    node_type: NodeType::Comment,
                    name: Seq::empty(),
                    parent: Some(parent),
                    children: Seq::empty(),
                    attributes: Seq::empty(),
                },
            ),
    {
        let id = self.add_child_node(parent, NodeType::Comment, "");
        proof {
            reveal_strlit("");
            assert(""@ =~= Seq::<char>::empty());
        }
        id
    }

    /// Append a fresh processing instruction with target `target` as the
    /// last child of `parent`, returning its index.
    pub fn add_processing_instruction(&mut self, parent: usize, target: &str) -> (id: usize)
        requires
            old(self).wf(),
            parent < old(self)@.len(),
            old(self)@[parent as int].node_type != NodeType::Attribute,
        ensures
            final(self).wf(),
            id == old(self)@.len(),
            final(self)@ =~= old(self)@.update(
                parent as int,
                NodeView { children: old(self)@[parent as int].children.push(id), ..old(self)@[parent as int] },
            ).push(
                NodeView {
                    node_type: NodeType::ProcessingInstruction,
                    name: target@,
                    parent: Some(parent),
                    children: Seq::empty(),
                    attributes: Seq::empty(),
                },
            ),
    {
        self.add_child_node(parent, NodeType::ProcessingInstruction, target)
    }

    /// Append a fresh attribute named `name` to the element `element`,
    /// returning its index.  Attribute nodes, as in DOM Level 2, have no
    /// parent node.
    pub fn add_attribute(&mut self, element: usize, name: &str) -> (id: usize)
        requires
            old(self).wf(),
            element < old(self)@.len(),
            old(self)@[element as int].node_type == NodeType::Element,
        ensures
            final(self).wf(),
            id == old(self)@.len(),
            final(self)@ =~= old(self)@.update(
                element as int,
                NodeView {
                    attributes: old(self)@[element as int].attributes.push(id),
                    ..old(self)@[element as int]
                },
            ).push(
                NodeView {
                    node_type: NodeType::Attribute,
                    name: name@,
                    parent: None,
                    children: Seq::empty(),
                    attributes: Seq::empty(),
                },
            ),
    {
        let id = self.nodes.len();
        let ghost t0 = self@;
        self.nodes.push(NodeData {
            node_type: NodeType::Attribute,
            name: name.to_owned(),
            parent: None,
            children: Vec::new(),
            attributes: Vec::new(),
        });
        let element_node = &mut self.nodes[element];
        element_node.attributes.push(id);
        proof {
            let t = self@;
            assert(t =~= t0.update(
                element as int,
                NodeView { attributes: t0[element as int].attributes.push(id), ..t0[element as int] },
            ).push(
                NodeView {
                    node_type: NodeType::Attribute,
                    name: name@,
                    parent: None,
                    children: Seq::empty(),
                    attributes: Seq::empty(),
                },
            ));
            assert forall|i: int| 0 <= i < t.len() implies wf_node(t, i) by {
                if i < t0.len() {
                    assert(wf_node(t0, i));
                    if i == element {
                        assert(t[i].attributes =~= t0[i].attributes.push(id as usize));
                        assert(forall|k: int|
                            0 <= k < t0[i].attributes.len() ==> t[i].attributes[k] == t0[i].attributes[k]);
                        assert(!t0[i].attributes.contains(id as usize));
                        assert(t[i].attributes.no_duplicates());
                        assert(t[i].children =~= t0[i].children);
                    } else {
                        assert(t[i].children =~= t0[i].children);
                        assert(t[i].attributes =~= t0[i].attributes);
                    }
                } else {
                    assert(i == id);
                    assert(t[i].children.len() == 0);
                    assert(t[i].attributes.len() == 0);
                }
            }
            assert(wf_tree(t));
        }
        id
    }
}


impl Document {
    /// Whether this document's arena is a well-formed tree; returns exactly
    /// [`Document::wf`].  The builder methods keep a document well-formed;
    /// this check lets an arena assembled by other means (or corrupted into
    /// a parent/child cycle) be recognised before evaluation.
    pub fn is_well_formed(&self) -> (b: bool)
        ensures
            b == self.wf(),
    {
        let ghost t = self@;
        let n = self.nodes.len();
        if n == 0 {
            return false;
        }
        if !matches!(self.nodes[0].node_type, NodeType::Document) {
            return false;
        }
        if self.nodes[0].parent.is_some() {
            return false;
        }
        let mut i: usize = 0;
        while i < n
            invariant
                t == self@,
                n == t.len(),
                1 <= n,
                t[0].node_type == NodeType::Document,
                t[0].parent is None,
                i <= n,
                forall|j: int| 0 <= j < i ==> wf_node(t, j),
                forall|j: int| 1 <= j < i ==> (#[trigger] t[j].node_type) != NodeType::Document,
                forall|j: int|
                    1 <= j < i && (#[trigger] t[j].node_type) != NodeType::Attribute ==> {
                        &&& t[j].parent matches Some(p)
                        &&& t[j].parent->0 < j
                        &&& t[t[j].parent->0 as int].children.contains(j as usize)
                    },
                forall|j: int|
                    0 <= j < i && (#[trigger] t[j].node_type) == NodeType::Attribute ==> t[j].parent
                        is None && t[j].children.len() == 0,
            decreases n - i,
        {
            let cnum = self.nodes[i].children.len();
            let ghost cs = t[i as int].children;
            let mut k: usize = 0;
            while k < cnum
                invariant
                    t == self@,
                    n == t.len(),
                    i < n,
                    cs == t[i as int].children,
                    cnum == cs.len(),
                    k <= cnum,
                    forall|m: int|
                        0 <= m < k ==> {
                            let c = #[trigger] cs[m];
                            &&& i < c < t.len()
                            &&& t[c as int].parent matches Some(p) && p == i
                            &&& t[c as int].node_type != NodeType::Document
                            &&& t[c as int].node_type != NodeType::Attribute
                        },
                decreases cnum - k,
            {
                let c = self.nodes[i].children[k];
                if c <= i || c >= n {
                    proof {
                        if wf_node(t, i as int) {
                            assert(i < cs[k as int] < t.len());
                        }
                        assert(!wf_node(t, i as int));
                    }
                    return false;
                }
                let parent_ok = match self.nodes[c].parent {
                    Some(p) => p == i,
                    None => false,
                };
                if !parent_ok {
                    proof {
                        if wf_node(t, i as int) {
                            assert(t[cs[k as int] as int].parent matches Some(p) && p == i);
                        }
                        assert(!wf_node(t, i as int));
                    }
                    return false;
                }
                if matches!(self.nodes[c].node_type, NodeType::Document) || matches!(
                    self.nodes[c].node_type,
                    NodeType::Attribute,
                ) {
                    proof {
                        if wf_node(t, i as int) {
                            assert(t[cs[k as int] as int].node_type != NodeType::Document);
                            assert(t[cs[k as int] as int].node_type != NodeType::Attribute);
                        }
                        assert(!wf_node(t, i as int));
                    }
                    return false;
                }
                k += 1;
            }
            let mut a: usize = 0;
            while a < cnum
                invariant
                    t == self@,
                    n == t.len(),
                    i < n,
                    cs == t[i as int].children,
                    cnum == cs.len(),
                    a <= cnum,
                    forall|x: int, y: int| 0 <= x < y < cnum && x < a ==> cs[x] != cs[y],
                decreases cnum - a,
            {
                let va = self.nodes[i].children[a];
                let mut b: usize = a + 1;
                while b < cnum
                    invariant
                        t == self@,
                        n == t.len(),
                        i < n,
                        cs == t[i as int].children,
                        cnum == cs.len(),
                        a < b,
                        a < cnum,
                        b <= cnum,
                        va == cs[a as int],
                        forall|y: int| a < y < b ==> cs[a as int] != cs[y],
                    decreases cnum - b,
                {
                    if va == self.nodes[i].children[b] {
                        proof {
                            assert(cs[a as int] == cs[b as int]);
                            if cs.no_duplicates() {
                                assert(cs[a as int] != cs[b as int]);
                            }
                            assert(!wf_node(t, i as int));
                        }
                        return false;
                    }
                    b += 1;
                }
                a += 1;
            }
            let anum = self.nodes[i].attributes.len();
            let ghost ats = t[i as int].attributes;
            let mut k2: usize = 0;
            while k2 < anum
                invariant
                    t == self@,
                    n == t.len(),
                    i < n,
                    ats == t[i as int].attributes,
                    anum == ats.len(),
                    k2 <= anum,
                    forall|m: int|
                        0 <= m < k2 ==> {
                            let c = #[trigger] ats[m];
                            &&& i < c < t.len()
                            &&& t[c as int].node_type == NodeType::Attribute
                        },
                decreases anum - k2,
            {
                let c = self.nodes[i].attributes[k2];
                if c <= i || c >= n {
                    proof {
                        if wf_node(t, i as int) {
                            assert(i < ats[k2 as int] < t.len());
                        }
                        assert(!wf_node(t, i as int));
                    }
                    return false;
                }
                if !matches!(self.nodes[c].node_type, NodeType::Attribute) {
                    proof {
                        if wf_node(t, i as int) {
                            assert(t[ats[k2 as int] as int].node_type == NodeType::Attribute);
                        }
                        assert(!wf_node(t, i as int));
                    }
                    return false;
                }
                k2 += 1;
            }
            let mut a2: usize = 0;
            while a2 < anum
                invariant
                    t == self@,
                    n == t.len(),
                    i < n,
                    ats == t[i as int].attributes,
                    anum == ats.len(),
                    a2 <= anum,
                    forall|x: int, y: int| 0 <= x < y < anum && x < a2 ==> ats[x] != ats[y],
                decreases anum - a2,
            {
                let va = self.nodes[i].attributes[a2];
                let mut b2: usize = a2 + 1;
                while b2 < anum
                    invariant
                        t == self@,
                        n == t.len(),
                        i < n,
                        ats == t[i as int].attributes,
                        anum == ats.len(),
                        a2 < b2,
                        a2 < anum,
                        b2 <= anum,
                        va == ats[a2 as int],
                        forall|y: int| a2 < y < b2 ==> ats[a2 as int] != ats[y],
                    decreases anum - b2,
                {
                    if va == self.nodes[i].attributes[b2] {
                        proof {
                            assert(ats[a2 as int] == ats[b2 as int]);
                            if ats.no_duplicates() {
                                assert(ats[a2 as int] != ats[b2 as int]);
                            }
                            assert(!wf_node(t, i as int));
                        }
                        return false;
                    }
                    b2 += 1;
                }
                a2 += 1;
            }
            proof {
                assert(wf_node(t, i as int));
            }
            if i >= 1 {
                if matches!(self.nodes[i].node_type, NodeType::Document) {
                    proof {
                        if wf_tree(t) {
                            assert(t[i as int].node_type != NodeType::Document);
                        }
                    }
                    return false;
                }
                if matches!(self.nodes[i].node_type, NodeType::Attribute) {
                    if self.nodes[i].parent.is_some() {
                        proof {
                            if wf_tree(t) {
                                assert(t[i as int].parent is None);
                            }
                        }
                        return false;
                    }
                    if self.nodes[i].children.len() != 0 {
                        proof {
                            if wf_tree(t) {
                                assert(t[i as int].children.len() == 0);
                            }
                        }
                        return false;
                    }
                } else {
                    let p = match self.nodes[i].parent {
                        Some(p) => p,
                        None => {
                            proof {
                                if wf_tree(t) {
                                    assert(t[i as int].parent matches Some(q));
                                }
                            }
                            return false;
                        },
                    };
                    if p >= i {
                        proof {
                            if wf_tree(t) {
                                assert(t[i as int].parent->0 < i);
                            }
                        }
                        return false;
                    }
                    let pcnum = self.nodes[p].children.len();
                    let mut m: usize = 0;
                    let mut found = false;
                    while m < pcnum
                        invariant
                            t == self@,
                            n == t.len(),
                            i < n,
                            p < i,
                            pcnum == t[p as int].children.len(),
                            m <= pcnum,
                            found ==> t[p as int].children.contains(i as usize),
                            !found ==> forall|y: int|
                                0 <= y < m ==> t[p as int].children[y] != i as usize,
                        decreases pcnum - m,
                    {
                        if self.nodes[p].children[m] == i {
                            found = true;
                            proof {
                                assert(t[p as int].children[m as int] == i as usize);
                            }
                        }
                        m += 1;
                    }
                    if !found {
                        proof {
                            assert(!t[p as int].children.contains(i as usize));
                            if wf_tree(t) {
                                assert(t[t[i as int].parent->0 as int].children.contains(
                                    i as usize,
                                ));
                            }
                        }
                        return false;
                    }
                }
            }
            i += 1;
        }
        true
    }
}


} // verus!
