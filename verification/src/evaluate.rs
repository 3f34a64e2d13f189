//! The evaluator: applies a parsed [`LocationPath`] to a context
//! [`NodeSet`] of a document, step by step.  Each step expands the working
//! set along its axis and filters the expansion by its node test; the next
//! step consumes the previous step's filtered result, left to right.

use vstd::prelude::*;

use crate::filters::{filter_spec, node_test_apply, principal_of};
use crate::model::{AxisSpecifier, LocationPath, NodeTest, Step};
use crate::node_set::{expand_axis, expand_document, NodeSet};
use crate::tree::{Document, NodeType, NodeView};
use crate::XPathObject;

verus! {

/// The errors evaluation can report.
#[derive(Clone, Debug, PartialEq, Eq, Structural)]
pub enum EvaluationError {
    /// The document's node table is not a well-formed tree — a parent/child
    /// cycle or another structural fault — or a context node lies outside
    /// it.
    CycleError,
}

impl EvaluationError {
    /// The error's message.
    pub fn to_string(&self) -> (r: String)
        ensures
            r@ == "A cycle was detected in the expression axis."@,
    {
        "A cycle was detected in the expression axis.".to_owned()
    }
}

/// Whether no step of `steps` carries a predicate.  Predicate evaluation
/// is the concern of a separate collaborator; this engine evaluates only
/// predicate-free paths.
pub open spec fn steps_without_predicates(steps: Seq<Step>) -> bool {
    forall|i: int| 0 <= i < steps.len() ==> (#[trigger] steps[i]).predicates@.len() == 0
}

/// One step's work: expand the working set along the step's axis, then
/// keep the nodes that pass the step's node test under the axis's
/// principal node type.
pub open spec fn eval_step_spec(t: Seq<NodeView>, ns: Seq<usize>, step: Step) -> Seq<usize> {
    filter_spec(
        t,
        expand_axis(t, ns, step.select.axis),
        principal_of(step.select.axis),
        step.select.test,
    )
}

/// The steps applied left to right: each step consumes the previous
/// step's filtered result.
pub open spec fn eval_steps_spec(t: Seq<NodeView>, ns: Seq<usize>, steps: Seq<Step>) -> Seq<usize>
    decreases steps.len(),
{
    if steps.len() == 0 {
        ns
    } else {
        eval_steps_spec(t, eval_step_spec(t, ns, steps[0]), steps.drop_first())
    }
}

/// A whole path: an absolute path first replaces each context node by its
/// owning document node, then the steps run left to right.
pub open spec fn eval_path_spec(t: Seq<NodeView>, ns: Seq<usize>, path: LocationPath) -> Seq<
    usize,
> {
    eval_steps_spec(
        t,
        if path.root {
            expand_document(t, ns)
        } else {
            ns
        },
        path.steps@,
    )
}

/// Expand `node_set` along the axis of `step`.
pub(crate) fn select_nodes(node_set: &NodeSet, doc: &Document, step: &Step) -> (r: NodeSet)
    requires
        doc.wf(),
        node_set.bounded(doc@),
    ensures
        r@ == expand_axis(doc@, node_set@, step.select.axis),
{
    match step.select.axis {
        AxisSpecifier::Ancestor => node_set.ancestor(doc),
        AxisSpecifier::AncestorOrSelf => node_set.ancestor_or_self(doc),
        AxisSpecifier::Attribute => node_set.attribute(doc),
        AxisSpecifier::Child => node_set.child(doc),
        AxisSpecifier::Descendant => node_set.descendant(doc),
        AxisSpecifier::DescendantOrSelf => node_set.descendant_or_self(doc),
        AxisSpecifier::Following => node_set.following(doc),
        AxisSpecifier::FollowingSibling => node_set.following_sibling(doc),
        AxisSpecifier::Namespace => node_set.namespace(doc),
        AxisSpecifier::Parent => node_set.parent(doc),
        AxisSpecifier::Preceding => node_set.preceding(doc),
        AxisSpecifier::PrecedingSibling => node_set.preceding_sibling(doc),
        AxisSpecifier::SelfNode => node_set.self_node(doc),
    }
}

/// Keep the nodes of `node_set` that pass the node test of `step` under
/// the principal type of the step's axis.
pub(crate) fn filter_nodes(node_set: &NodeSet, doc: &Document, step: &Step) -> (r: NodeSet)
    requires
        doc.wf(),
        node_set.bounded(doc@),
        step.predicates@.len() == 0,
    ensures
        r@ == filter_spec(
            doc@,
            node_set@,
            principal_of(step.select.axis),
            step.select.test,
        ),
{
    let ghost t = doc@;
    let principal = match step.select.axis {
        AxisSpecifier::Attribute => NodeType::Attribute,
        _ => NodeType::Element,
    };
    let mut out: Vec<usize> = Vec::new();
    proof {
        assert(node_set@.take(0) =~= Seq::<usize>::empty());
    }
    let num = node_set.len();
    let mut k: usize = 0;
    while k < num
        invariant
            doc.wf(),
            node_set.bounded(doc@),
            t == doc@,
            principal == principal_of(step.select.axis),
            num == node_set@.len(),
            k <= num,
            out@ == filter_spec(t, node_set@.take(k as int), principal, step.select.test),
        decreases num - k,
    {
        let n = node_set.get(k);
        proof {
            assert(node_set@.take(k + 1).drop_last() =~= node_set@.take(k as int));
            assert(node_set@.take(k + 1).last() == n);
        }
        if node_test_apply(doc, n, principal, &step.select.test) {
            out.push(n);
        }
        k += 1;
    }
    proof {
        assert(node_set@.take(num as int) =~= node_set@);
    }
    NodeSet(out)
}

/// Every node kept by the filter comes from the filtered set.
pub proof fn lemma_filter_spec_bounded(
    t: Seq<NodeView>,
    ns: Seq<usize>,
    principal: NodeType,
    test: NodeTest,
)
    requires
        forall|k: int| 0 <= k < ns.len() ==> (#[trigger] ns[k]) < t.len(),
    ensures
        forall|i: int|
            0 <= i < filter_spec(t, ns, principal, test).len() ==> #[trigger] filter_spec(
                t,
                ns,
                principal,
                test,
            )[i] < t.len(),
    decreases ns.len(),
{
    if ns.len() == 0 {
    } else {
        lemma_filter_spec_bounded(t, ns.drop_last(), principal, test);
        let rest = filter_spec(t, ns.drop_last(), principal, test);
        assert forall|i: int|
            0 <= i < filter_spec(t, ns, principal, test).len() implies #[trigger] filter_spec(
            t,
            ns,
            principal,
            test,
        )[i] < t.len() by {
            if i < rest.len() {
                assert(filter_spec(t, ns, principal, test)[i] == rest[i]);
            } else {
                assert(filter_spec(t, ns, principal, test)[i] == ns.last());
            }
        }
    }
}

/// Evaluate `xpath` against the context `node_set` of `doc`, returning the
/// resulting node-set.
///
/// The document is checked first: a node table that is not a well-formed
/// tree (for instance one holding a parent/child cycle), or a context node
/// lying outside it, is reported as [`EvaluationError::CycleError`], and
/// nothing else ever is.  An absolute path starts from the owning document
/// node of each context node; a context node without one (the document
/// node itself) contributes nothing, which makes an absolute path over the
/// document node alone come out empty rather than fail.
pub fn evaluate_path(node_set: &NodeSet, doc: &Document, xpath: &LocationPath) -> (r: Result<
    XPathObject,
    EvaluationError,
>)
    requires
        steps_without_predicates(xpath.steps@),
    ensures
        match r {
            Ok(obj) => {
                &&& doc.wf()
                &&& node_set.bounded(doc@)
                &&& obj matches XPathObject::NodeSet(ns) && ns@ == eval_path_spec(
                    doc@,
                    node_set@,
                    *xpath,
                )
            },
            Err(e) => {
                &&& e == EvaluationError::CycleError
                &&& !(doc.wf() && node_set.bounded(doc@))
            },
        },
{
    let ghost t = doc@;
    if !doc.is_well_formed() {
        return Err(EvaluationError::CycleError);
    }
    if !node_set.check_bounded(doc) {
        return Err(EvaluationError::CycleError);
    }
    let mut ws = if xpath.is_absolute() {
        let start = node_set.document(doc);
        proof {
            crate::node_set::lemma_expand_document_bounded(t, node_set@);
        }
        start
    } else {
        node_set.clone()
    };
    proof {
        assert(xpath.steps@.skip(0) =~= xpath.steps@);
    }
    let num = xpath.steps.len();
    let mut i: usize = 0;
    while i < num
        invariant
            doc.wf(),
            t == doc@,
            steps_without_predicates(xpath.steps@),
            num == xpath.steps@.len(),
            i <= num,
            ws.bounded(t),
            eval_steps_spec(t, ws@, xpath.steps@.skip(i as int)) == eval_path_spec(
                t,
                node_set@,
                *xpath,
            ),
        decreases num - i,
    {
        let step = &xpath.steps[i];
        let expanded = select_nodes(&ws, doc, step);
        proof {
            crate::node_set::lemma_expand_axis_bounded(t, ws@, step.select.axis);
        }
        let filtered = filter_nodes(&expanded, doc, step);
        proof {
            lemma_filter_spec_bounded(t, expanded@, principal_of(step.select.axis), step.select.test);
            assert(xpath.steps@.skip(i as int)[0] == xpath.steps@[i as int]);
            assert(xpath.steps@.skip(i as int).drop_first() =~= xpath.steps@.skip(i + 1));
            assert(filtered@ == eval_step_spec(t, ws@, xpath.steps@[i as int]));
        }
        ws = filtered;
        i += 1;
    }
    proof {
        assert(xpath.steps@.skip(num as int) =~= Seq::<Step>::empty());
    }
    Ok(XPathObject::NodeSet(ws))
}

} // verus!
