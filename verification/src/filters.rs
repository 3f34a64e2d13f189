//! The filter pipeline: after a step's axis expansion, each candidate node
//! must pass the step's node test against the axis's principal node type.
//! Predicate filters are declared here as data but are not evaluated by
//! this engine.

use vstd::prelude::*;

use crate::model::{AxisSpecifier, NodeTest, Predicate};
use crate::tree::{Document, NodeType, NodeView};

verus! {

/// The principal node type of an axis: `Attribute` for the attribute axis,
/// `Element` for every other axis.
pub open spec fn principal_of(axis: AxisSpecifier) -> NodeType {
    match axis {
        AxisSpecifier::Attribute => NodeType::Attribute,
        _ => NodeType::Element,
    }
}

/// Whether node `n` passes `test` under the principal node type
/// `principal`.
pub open spec fn node_test_passes(
    t: Seq<NodeView>,
    n: usize,
    principal: NodeType,
    test: NodeTest,
) -> bool {
    match test {
        NodeTest::All => t[n as int].node_type == principal,
        NodeTest::Named(name) => t[n as int].node_type == principal && t[n as int].name == name@,
        NodeTest::Comment => t[n as int].node_type == NodeType::Comment,
        NodeTest::Text => t[n as int].node_type == NodeType::Text,
        NodeTest::ProcessingInstruction(None) => t[n as int].node_type
            == NodeType::ProcessingInstruction,
        NodeTest::ProcessingInstruction(Some(target)) => t[n as int].node_type
            == NodeType::ProcessingInstruction && t[n as int].name == target@,
        NodeTest::Node => true,
    }
}

/// The nodes of `ns` that pass `test` under `principal`, in order.
pub open spec fn filter_spec(
    t: Seq<NodeView>,
    ns: Seq<usize>,
    principal: NodeType,
    test: NodeTest,
) -> Seq<usize>
    decreases ns.len(),
{
    if ns.len() == 0 {
        Seq::empty()
    } else {
        let rest = filter_spec(t, ns.drop_last(), principal, test);
        if node_test_passes(t, ns.last(), principal, test) {
            rest.push(ns.last())
        } else {
            rest
        }
    }
}

/// A single stage of the filter pipeline, applied to one candidate node at
/// a time.
pub trait Filter {
    /// What the stage accepts.
    spec fn passes(&self, t: Seq<NodeView>, n: usize) -> bool;

    /// Whether node `n` of `doc` passes this stage.
    fn apply(&self, doc: &Document, n: usize) -> (b: bool)
        requires
            doc.wf(),
            n < doc@.len(),
        ensures
            b == self.passes(doc@, n),
    ;
}

/// The node-test stage: accepts a node by its type, and for named tests by
/// its qualified name.
pub struct NodeTestFilter {
    /// The principal node type of the step's axis.
    pub principal_type: NodeType,
    /// The step's node test.
    pub node_test: NodeTest,
}

impl NodeTestFilter {
    /// A node-test stage for the given principal type and node test.
    pub fn new(principal_type: NodeType, node_test: NodeTest) -> (f: NodeTestFilter)
        ensures
            f.principal_type == principal_type,
            f.node_test == node_test,
    {
        NodeTestFilter { principal_type, node_test }
    }
}

impl Filter for NodeTestFilter {
    open spec fn passes(&self, t: Seq<NodeView>, n: usize) -> bool {
        node_test_passes(t, n, self.principal_type, self.node_test)
    }

    fn apply(&self, doc: &Document, n: usize) -> (b: bool) {
        node_test_apply(doc, n, self.principal_type, &self.node_test)
    }
}

/// Whether node `n` of `doc` passes `test` under the principal type
/// `principal`.
pub fn node_test_apply(doc: &Document, n: usize, principal: NodeType, test: &NodeTest) -> (b: bool)
    requires
        doc.wf(),
        n < doc@.len(),
    ensures
        b == node_test_passes(doc@, n, principal, *test),
{
    match test {
        NodeTest::All => doc.nodes[n].node_type == principal,
        NodeTest::Named(name) => {
            doc.nodes[n].node_type == principal && doc.nodes[n].name == *name
        },
        NodeTest::Comment => doc.nodes[n].node_type == NodeType::Comment,
        NodeTest::Text => doc.nodes[n].node_type == NodeType::Text,
        NodeTest::ProcessingInstruction(None) => {
            doc.nodes[n].node_type == NodeType::ProcessingInstruction
        },
        NodeTest::ProcessingInstruction(Some(target)) => {
            doc.nodes[n].node_type == NodeType::ProcessingInstruction && doc.nodes[n].name
                == *target
        },
        NodeTest::Node => true,
    }
}

/// A predicate stage: declared for the shape of the pipeline, but not
/// evaluated by this engine — predicate evaluation is the concern of a
/// separate collaborator.
pub struct PredicateFilter {
    /// The predicate this stage would evaluate.
    pub predicate: Predicate,
}

impl PredicateFilter {
    /// A predicate stage holding `predicate`.
    pub fn new(predicate: Predicate) -> (f: PredicateFilter)
        ensures
            f.predicate == predicate,
    {
        PredicateFilter { predicate }
    }
}

} // verus!
