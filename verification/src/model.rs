//! The expression model for XPath location paths: axis specifiers, node
//! tests, select components, steps, predicates and paths.  Values of these
//! types are built once, through the constructors here, and only read by the
//! evaluator.

use vstd::prelude::*;

verus! {

/// The thirteen axis specifiers of XPath 1.0; the default is `Child`.
#[derive(Clone, Copy, Debug, PartialEq, Eq, Structural)]
pub enum AxisSpecifier {
    /// The parent of the context node, its parent, and so on; innermost
    /// first.
    Ancestor,
    /// The context node, then its ancestors.
    AncestorOrSelf,
    /// The attributes of the context node, namespace declarations excluded;
    /// empty unless the context node is an element.
    Attribute,
    /// The children of the context node, in document order.
    Child,
    /// The descendants of the context node, in document order.
    Descendant,
    /// The context node, then its descendants, in document order.
    DescendantOrSelf,
    /// Every node after the context node in document order, descendants,
    /// attributes and namespace nodes excluded.
    Following,
    /// The siblings after the context node, in document order.
    FollowingSibling,
    /// The namespace declaration attributes of the context node; empty
    /// unless the context node is an element.
    Namespace,
    /// The parent of the context node, if there is one.
    Parent,
    /// Every node before the context node in document order, ancestors,
    /// attributes and namespace nodes excluded; nearest node first.
    Preceding,
    /// The siblings before the context node, in document order.
    PrecedingSibling,
    /// The context node itself.
    SelfNode,
}

impl Default for AxisSpecifier {
    /// The default axis is `Child`.
    fn default() -> (a: AxisSpecifier)
        ensures
            a == AxisSpecifier::Child,
    {
        AxisSpecifier::Child
    }
}

/// The node tests of XPath 1.0; the default is `All`.
#[derive(Clone, Debug)]
pub enum NodeTest {
    /// Every node of the axis's principal type.
    All,
    /// Every node of the axis's principal type whose qualified name equals
    /// the given name exactly.
    Named(String),
    /// Every comment node, whatever the axis's principal type.
    Comment,
    /// Every text node, whatever the axis's principal type.
    Text,
    /// Every processing instruction; with a target given, only those whose
    /// target equals it.
    ProcessingInstruction(Option<String>),
    /// Every node, of any type.
    Node,
}

impl Default for NodeTest {
    /// The default node test is `All`.
    fn default() -> (t: NodeTest)
        ensures
            t == NodeTest::All,
    {
        NodeTest::All
    }
}

/// A select component: an axis specifier paired with a node test.
#[derive(Clone, Debug)]
pub struct Select {
    /// The axis specifier.
    pub axis: AxisSpecifier,
    /// The node test.
    pub test: NodeTest,
}

impl Select {
    /// The axis specifier of this select component.
    pub open spec fn spec_axis(&self) -> AxisSpecifier {
        self.axis
    }

    /// The node test of this select component.
    pub open spec fn spec_node_test(&self) -> NodeTest {
        self.test
    }

    /// Construct a select component from the given axis and node test.
    pub fn with(axis: AxisSpecifier, node_test: NodeTest) -> (s: Select)
        ensures
            s.spec_axis() == axis,
            s.spec_node_test() == node_test,
    {
        Select { axis, test: node_test }
    }

    /// The axis specifier part of this select component.
    pub fn axis_specifier(&self) -> (a: AxisSpecifier)
        ensures
            a == self.spec_axis(),
    {
        self.axis
    }

    /// The node test part of this select component.
    pub fn node_test(&self) -> (t: &NodeTest)
        ensures
            t == self.spec_node_test(),
    {
        &self.test
    }

    /// The select component `child::named`.
    pub fn child_elements(named: &str) -> (s: Select)
        ensures
            s.axis == AxisSpecifier::Child,
            s.test matches NodeTest::Named(nm) && nm@ == named@,
    {
        Select { axis: AxisSpecifier::Child, test: NodeTest::Named(named.to_owned()) }
    }

    /// The select component `child::*`.
    pub fn all_child_elements() -> (s: Select)
        ensures
            s.axis == AxisSpecifier::Child,
            s.test == NodeTest::All,
    {
        Select { axis: AxisSpecifier::Child, test: NodeTest::All }
    }

    /// The select component `child::text()`.
    pub fn all_child_text() -> (s: Select)
        ensures
            s.axis == AxisSpecifier::Child,
            s.test == NodeTest::Text,
    {
        Select { axis: AxisSpecifier::Child, test: NodeTest::Text }
    }

    /// The select component `child::node()`.
    pub fn all_children() -> (s: Select)
        ensures
            s.axis == AxisSpecifier::Child,
            s.test == NodeTest::Node,
    {
        Select { axis: AxisSpecifier::Child, test: NodeTest::Node }
    }

    /// The select component `attribute::named`.
    pub fn attributes(named: &str) -> (s: Select)
        ensures
            s.axis == AxisSpecifier::Attribute,
            s.test matches NodeTest::Named(nm) && nm@ == named@,
    {
        Select { axis: AxisSpecifier::Attribute, test: NodeTest::Named(named.to_owned()) }
    }

    /// The select component `attribute::*`.
    pub fn all_attributes() -> (s: Select)
        ensures
            s.axis == AxisSpecifier::Attribute,
            s.test == NodeTest::All,
    {
        Select { axis: AxisSpecifier::Attribute, test: NodeTest::All }
    }

    /// The select component `descendant::named`.
    pub fn descendant_elements(named: &str) -> (s: Select)
        ensures
            s.axis == AxisSpecifier::Descendant,
            s.test matches NodeTest::Named(nm) && nm@ == named@,
    {
        Select { axis: AxisSpecifier::Descendant, test: NodeTest::Named(named.to_owned()) }
    }

    /// The select component `ancestor-or-self::named`.
    pub fn ancestor_or_self_elements(named: &str) -> (s: Select)
        ensures
            s.axis == AxisSpecifier::AncestorOrSelf,
            s.test matches NodeTest::Named(nm) && nm@ == named@,
    {
        Select { axis: AxisSpecifier::AncestorOrSelf, test: NodeTest::Named(named.to_owned()) }
    }

    /// The select component `descendant-or-self::named`.
    pub fn descendant_or_self_elements(named: &str) -> (s: Select)
        ensures
            s.axis == AxisSpecifier::DescendantOrSelf,
            s.test matches NodeTest::Named(nm) && nm@ == named@,
    {
        Select { axis: AxisSpecifier::DescendantOrSelf, test: NodeTest::Named(named.to_owned()) }
    }

    /// The select component `self::named`.
    pub fn self_elements(named: &str) -> (s: Select)
        ensures
            s.axis == AxisSpecifier::SelfNode,
            s.test matches NodeTest::Named(nm) && nm@ == named@,
    {
        Select { axis: AxisSpecifier::SelfNode, test: NodeTest::Named(named.to_owned()) }
    }
}

impl Default for Select {
    /// The default select component: all element children.
    fn default() -> (s: Select)
        ensures
            s.spec_axis() == AxisSpecifier::Child,
            s.spec_node_test() == NodeTest::All,
    {
        Select { axis: AxisSpecifier::Child, test: NodeTest::All }
    }
}


/// Another name for the select component, as the expression grammar calls
/// it where it stands as a predicate terminal.
pub type SelectExpr = Select;

/// The predicate component of a step; each step carries zero or more, each
/// filtering the result of the one before it.  The node-set engine treats
/// predicates as opaque data: building them is supported here, evaluating
/// them is the concern of a separate predicate evaluator.
#[derive(Debug)]
pub enum Predicate {
    /// A unary or binary expression.
    Expr(ExprNode),
    /// A terminal value.
    Terminal(Terminal),
    /// A call to one of the core library functions.
    Function(FunctionCall),
}

/// The binary expressions, and the one unary expression, of the predicate
/// grammar.  Precedence is the parser's concern; this tree is
/// precedence-unaware.
#[derive(Debug)]
pub enum ExprNode {
    /// Both sides hold.
    And { left: Box<Predicate>, right: Box<Predicate> },
    /// At least one side holds.
    Or { left: Box<Predicate>, right: Box<Predicate> },
    /// The sides are equal.
    Equals { left: Box<Predicate>, right: Box<Predicate> },
    /// The sides differ.
    NotEquals { left: Box<Predicate>, right: Box<Predicate> },
    /// The left side is less than the right.
    LessThan { left: Box<Predicate>, right: Box<Predicate> },
    /// The left side is at most the right.
    LessThanOrEqual { left: Box<Predicate>, right: Box<Predicate> },
    /// The left side is greater than the right.
    GreaterThan { left: Box<Predicate>, right: Box<Predicate> },
    /// The left side is at least the right.
    GreaterThanOrEqual { left: Box<Predicate>, right: Box<Predicate> },
    /// The sum of the sides.
    Add { left: Box<Predicate>, right: Box<Predicate> },
    /// The difference of the sides.
    Subtract { left: Box<Predicate>, right: Box<Predicate> },
    /// The product of the sides.
    Multiply { left: Box<Predicate>, right: Box<Predicate> },
    /// The quotient of the sides.
    Divide { left: Box<Predicate>, right: Box<Predicate> },
    /// The remainder of the sides, written `mod`.
    Modulus { left: Box<Predicate>, right: Box<Predicate> },
    /// The quotient of the sides, written `div`.
    FPDiv { left: Box<Predicate>, right: Box<Predicate> },
    /// The negation of a value.
    UnaryMinus { value: Box<Predicate> },
}

/// A terminal value of the predicate grammar.
#[derive(Debug)]
pub enum Terminal {
    /// A variable reference.
    Variable(String),
    /// A string literal.
    Literal(String),
    /// An integer literal.
    Number(i64),
    /// A select expression.
    Select(Select),
}

/// A call to one of the core library functions, with its arguments.
#[derive(Debug)]
pub struct FunctionCall {
    /// The function's name; always a name of the catalog.
    pub name: String,
    /// The call's arguments, in order.
    pub arguments: Vec<Predicate>,
}

impl FunctionCall {
    /// A call of the catalog function named `name`, with no arguments.
    pub fn with(name: &str) -> (c: FunctionCall)
        requires
            crate::function::spec_is_function(name@),
        ensures
            c.name@ == name@,
            c.arguments@ == Seq::<Predicate>::empty(),
    {
        FunctionCall { name: name.to_owned(), arguments: Vec::new() }
    }

    /// A call of the catalog function named `name`, with the given
    /// arguments.
    pub fn with_both(name: &str, arguments: Vec<Predicate>) -> (c: FunctionCall)
        requires
            crate::function::spec_is_function(name@),
        ensures
            c.name@ == name@,
            c.arguments@ == arguments@,
    {
        FunctionCall { name: name.to_owned(), arguments }
    }

    /// Append one more argument to the call.
    pub fn append(&mut self, argument: Predicate)
        ensures
            final(self).name == old(self).name,
            final(self).arguments@ == old(self).arguments@.push(argument),
    {
        self.arguments.push(argument);
    }
}

impl Predicate {
    /// A string literal predicate.
    pub fn literal(value: &str) -> (p: Predicate)
        ensures
            p matches Predicate::Terminal(t) && t matches Terminal::Literal(s) && s@ == value@,
    {
        Predicate::Terminal(Terminal::Literal(value.to_owned()))
    }

    /// An integer literal predicate.
    pub fn integer(value: i64) -> (p: Predicate)
        ensures
            p == Predicate::Terminal(Terminal::Number(value)),
    {
        Predicate::Terminal(Terminal::Number(value))
    }

    /// A variable reference predicate.
    pub fn variable(named: &str) -> (p: Predicate)
        ensures
            p matches Predicate::Terminal(t) && t matches Terminal::Variable(s) && s@ == named@,
    {
        Predicate::Terminal(Terminal::Variable(named.to_owned()))
    }

    /// A call of the catalog function named `named`, with no arguments, as
    /// a predicate.
    pub fn function(named: &str) -> (p: Predicate)
        requires
            crate::function::spec_is_function(named@),
        ensures
            p matches Predicate::Function(c) && c.name@ == named@ && c.arguments@
                == Seq::<Predicate>::empty(),
    {
        Predicate::Function(FunctionCall::with(named))
    }

    /// A call of the catalog function named `named`, with arguments, as a
    /// predicate.
    pub fn function_with(named: &str, args: Vec<Predicate>) -> (p: Predicate)
        requires
            crate::function::spec_is_function(named@),
        ensures
            p matches Predicate::Function(c) && c.name@ == named@ && c.arguments@ == args@,
    {
        Predicate::Function(FunctionCall::with_both(named, args))
    }

    /// A select expression as a predicate.
    pub fn select(axis: AxisSpecifier, node_test: NodeTest) -> (p: Predicate)
        ensures
            p matches Predicate::Terminal(t) && t matches Terminal::Select(s) && s.axis == axis
                && s.test == node_test,
    {
        Predicate::Terminal(Terminal::Select(Select { axis, test: node_test }))
    }

    /// Both sides hold.
    pub fn and(left: Predicate, right: Predicate) -> (p: Predicate)
        ensures
            p matches Predicate::Expr(e) && e matches ExprNode::And { left: l, right: r } && l
                == left && r == right,
    {
        Predicate::Expr(ExprNode::And { left: Box::new(left), right: Box::new(right) })
    }

    /// At least one side holds.
    pub fn or(left: Predicate, right: Predicate) -> (p: Predicate)
        ensures
            p matches Predicate::Expr(e) && e matches ExprNode::Or { left: l, right: r } && l
                == left && r == right,
    {
        Predicate::Expr(ExprNode::Or { left: Box::new(left), right: Box::new(right) })
    }

    /// The sides are equal.
    pub fn eq(left: Predicate, right: Predicate) -> (p: Predicate)
        ensures
            p matches Predicate::Expr(e) && e matches ExprNode::Equals { left: l, right: r } && l
                == left && r == right,
    {
        Predicate::Expr(ExprNode::Equals { left: Box::new(left), right: Box::new(right) })
    }

    /// The sides differ.
    pub fn neq(left: Predicate, right: Predicate) -> (p: Predicate)
        ensures
            p matches Predicate::Expr(e) && e matches ExprNode::NotEquals { left: l, right: r }
                && l == left && r == right,
    {
        Predicate::Expr(ExprNode::NotEquals { left: Box::new(left), right: Box::new(right) })
    }

    /// The left side is less than the right.
    pub fn lt(left: Predicate, right: Predicate) -> (p: Predicate)
        ensures
            p matches Predicate::Expr(e) && e matches ExprNode::LessThan { left: l, right: r }
                && l == left && r == right,
    {
        Predicate::Expr(ExprNode::LessThan { left: Box::new(left), right: Box::new(right) })
    }

    /// The left side is at most the right.
    pub fn lteq(left: Predicate, right: Predicate) -> (p: Predicate)
        ensures
            p matches Predicate::Expr(e) && e matches ExprNode::LessThanOrEqual {
                left: l,
                right: r,
            } && l == left && r == right,
    {
        Predicate::Expr(ExprNode::LessThanOrEqual { left: Box::new(left), right: Box::new(right) })
    }

    /// The left side is greater than the right.
    pub fn gt(left: Predicate, right: Predicate) -> (p: Predicate)
        ensures
            p matches Predicate::Expr(e) && e matches ExprNode::GreaterThan { left: l, right: r }
                && l == left && r == right,
    {
        Predicate::Expr(ExprNode::GreaterThan { left: Box::new(left), right: Box::new(right) })
    }

    /// The left side is at least the right.
    pub fn gteq(left: Predicate, right: Predicate) -> (p: Predicate)
        ensures
            p matches Predicate::Expr(e) && e matches ExprNode::GreaterThanOrEqual {
                left: l,
                right: r,
            } && l == left && r == right,
    {
        Predicate::Expr(
            ExprNode::GreaterThanOrEqual { left: Box::new(left), right: Box::new(right) },
        )
    }

    /// The sum of the sides.
    pub fn add(left: Predicate, right: Predicate) -> (p: Predicate)
        ensures
            p matches Predicate::Expr(e) && e matches ExprNode::Add { left: l, right: r } && l
                == left && r == right,
    {
        Predicate::Expr(ExprNode::Add { left: Box::new(left), right: Box::new(right) })
    }

    /// The difference of the sides.
    pub fn subtract(left: Predicate, right: Predicate) -> (p: Predicate)
        ensures
            p matches Predicate::Expr(e) && e matches ExprNode::Subtract { left: l, right: r }
                && l == left && r == right,
    {
        Predicate::Expr(ExprNode::Subtract { left: Box::new(left), right: Box::new(right) })
    }

    /// The product of the sides.
    pub fn multiply(left: Predicate, right: Predicate) -> (p: Predicate)
        ensures
            p matches Predicate::Expr(e) && e matches ExprNode::Multiply { left: l, right: r }
                && l == left && r == right,
    {
        Predicate::Expr(ExprNode::Multiply { left: Box::new(left), right: Box::new(right) })
    }

    /// The quotient of the sides.
    pub fn divide(left: Predicate, right: Predicate) -> (p: Predicate)
        ensures
            p matches Predicate::Expr(e) && e matches ExprNode::Divide { left: l, right: r } && l
                == left && r == right,
    {
        Predicate::Expr(ExprNode::Divide { left: Box::new(left), right: Box::new(right) })
    }

    /// The remainder of the sides, written `mod`.
    pub fn a_mod(left: Predicate, right: Predicate) -> (p: Predicate)
        ensures
            p matches Predicate::Expr(e) && e matches ExprNode::Modulus { left: l, right: r }
                && l == left && r == right,
    {
        Predicate::Expr(ExprNode::Modulus { left: Box::new(left), right: Box::new(right) })
    }

    /// The quotient of the sides, written `div`.
    pub fn div(left: Predicate, right: Predicate) -> (p: Predicate)
        ensures
            p matches Predicate::Expr(e) && e matches ExprNode::FPDiv { left: l, right: r } && l
                == left && r == right,
    {
        Predicate::Expr(ExprNode::FPDiv { left: Box::new(left), right: Box::new(right) })
    }

    /// The negation of a value.
    pub fn minus(value: Predicate) -> (p: Predicate)
        ensures
            p matches Predicate::Expr(e) && e matches ExprNode::UnaryMinus { value: v } && v
                == value,
    {
        Predicate::Expr(ExprNode::UnaryMinus { value: Box::new(value) })
    }
}

/// One step of a location path: a select component and zero or more
/// predicates, applied in order.
#[derive(Debug)]
pub struct Step {
    /// The select component: the step's axis and node test.
    pub select: Select,
    /// The step's predicates, in order of application.
    pub predicates: Vec<Predicate>,
}

impl Step {
    /// A step with the given select component and no predicates.
    pub fn new(select: Select) -> (s: Step)
        ensures
            s.select == select,
            s.predicates@ == Seq::<Predicate>::empty(),
    {
        Step { select, predicates: Vec::new() }
    }

    /// A step with the given axis and node test, and no predicates.
    pub fn new_from(axis: AxisSpecifier, node_test: NodeTest) -> (s: Step)
        ensures
            s.select.axis == axis,
            s.select.test == node_test,
            s.predicates@ == Seq::<Predicate>::empty(),
    {
        Step { select: Select { axis, test: node_test }, predicates: Vec::new() }
    }

    /// A step with the given select component and no predicates.
    pub fn with(select: Select) -> (s: Step)
        ensures
            s.select == select,
            s.predicates@ == Seq::<Predicate>::empty(),
    {
        Step { select, predicates: Vec::new() }
    }

    /// A step with the given axis, node test and a single predicate.
    pub fn new_with_predicate(axis: AxisSpecifier, node_test: NodeTest, predicate: Predicate) -> (s:
        Step)
        ensures
            s.select.axis == axis,
            s.select.test == node_test,
            s.predicates@ == seq![predicate],
    {
        let mut predicates: Vec<Predicate> = Vec::new();
        let ghost pv = predicate;
        predicates.push(predicate);
        proof {
            assert(predicates@ =~= seq![pv]);
        }
        Step { select: Select { axis, test: node_test }, predicates }
    }

    /// Append a predicate to this step.
    pub fn append(&mut self, predicate: Predicate)
        ensures
            final(self).select == old(self).select,
            final(self).predicates@ == old(self).predicates@.push(predicate),
    {
        self.predicates.push(predicate);
    }

    /// The select component of this step.
    pub fn select_expr(&self) -> (s: &Select)
        ensures
            s == &self.select,
    {
        &self.select
    }

    /// The predicates of this step, in order of application.
    pub fn predicate_exprs(&self) -> (p: &Vec<Predicate>)
        ensures
            p == &self.predicates,
    {
        &self.predicates
    }

    /// The step `child::named`.
    pub fn child_elements(named: &str) -> (s: Step)
        ensures
            s.select.axis == AxisSpecifier::Child,
            s.select.test matches NodeTest::Named(nm) && nm@ == named@,
            s.predicates@ == Seq::<Predicate>::empty(),
    {
        Step::new_from(AxisSpecifier::Child, NodeTest::Named(named.to_owned()))
    }

    /// The step `child::*`.
    pub fn all_child_elements() -> (s: Step)
        ensures
            s.select.axis == AxisSpecifier::Child,
            s.select.test == NodeTest::All,
            s.predicates@ == Seq::<Predicate>::empty(),
    {
        Step::new_from(AxisSpecifier::Child, NodeTest::All)
    }

    /// The step `child::node()`.
    pub fn all_children() -> (s: Step)
        ensures
            s.select.axis == AxisSpecifier::Child,
            s.select.test == NodeTest::Node,
            s.predicates@ == Seq::<Predicate>::empty(),
    {
        Step::new_from(AxisSpecifier::Child, NodeTest::Node)
    }

    /// The step `self::node()`.
    pub fn all_self() -> (s: Step)
        ensures
            s.select.axis == AxisSpecifier::SelfNode,
            s.select.test == NodeTest::Node,
            s.predicates@ == Seq::<Predicate>::empty(),
    {
        Step::new_from(AxisSpecifier::SelfNode, NodeTest::Node)
    }

    /// The step `self::*`.
    pub fn all_self_elements() -> (s: Step)
        ensures
            s.select.axis == AxisSpecifier::SelfNode,
            s.select.test == NodeTest::All,
            s.predicates@ == Seq::<Predicate>::empty(),
    {
        Step::new_from(AxisSpecifier::SelfNode, NodeTest::All)
    }

    /// The step `descendant::named`.
    pub fn descendant_elements(named: &str) -> (s: Step)
        ensures
            s.select.axis == AxisSpecifier::Descendant,
            s.select.test matches NodeTest::Named(nm) && nm@ == named@,
            s.predicates@ == Seq::<Predicate>::empty(),
    {
        Step::new_from(AxisSpecifier::Descendant, NodeTest::Named(named.to_owned()))
    }

    /// The step `following-sibling::named`.
    pub fn following_sibling_elements(named: &str) -> (s: Step)
        ensures
            s.select.axis == AxisSpecifier::FollowingSibling,
            s.select.test matches NodeTest::Named(nm) && nm@ == named@,
            s.predicates@ == Seq::<Predicate>::empty(),
    {
        Step::new_from(AxisSpecifier::FollowingSibling, NodeTest::Named(named.to_owned()))
    }

    /// The step `preceding-sibling::named`.
    pub fn preceding_sibling_elements(named: &str) -> (s: Step)
        ensures
            s.select.axis == AxisSpecifier::PrecedingSibling,
            s.select.test matches NodeTest::Named(nm) && nm@ == named@,
            s.predicates@ == Seq::<Predicate>::empty(),
    {
        Step::new_from(AxisSpecifier::PrecedingSibling, NodeTest::Named(named.to_owned()))
    }
}

impl Default for Step {
    /// The default step: all element children, no predicates.
    fn default() -> (s: Step)
        ensures
            s.select.axis == AxisSpecifier::Child,
            s.select.test == NodeTest::All,
            s.predicates@ == Seq::<Predicate>::empty(),
    {
        Step { select: Select { axis: AxisSpecifier::Child, test: NodeTest::All }, predicates: Vec::new() }
    }
}

/// A whole location path: whether it is absolute, and its steps in order.
#[derive(Debug)]
pub struct LocationPath {
    /// Whether the path is anchored at the document root.
    pub root: bool,
    /// The path's steps, applied left to right.
    pub steps: Vec<Step>,
}

impl LocationPath {
    /// An empty relative path.
    pub fn new() -> (p: LocationPath)
        ensures
            !p.root,
            p.steps@ == Seq::<Step>::empty(),
    {
        LocationPath { root: false, steps: Vec::new() }
    }

    /// A relative path with a single step.
    pub fn new_with(step: Step) -> (p: LocationPath)
        ensures
            !p.root,
            p.steps@ == seq![step],
    {
        let ghost sv = step;
        let mut steps: Vec<Step> = Vec::new();
        steps.push(step);
        proof {
            assert(steps@ =~= seq![sv]);
        }
        LocationPath { root: false, steps }
    }

    /// A relative path with a single step.
    pub fn with(step: Step) -> (p: LocationPath)
        ensures
            !p.root,
            p.steps@ == seq![step],
    {
        LocationPath::new_with(step)
    }

    /// An empty absolute path: the bare `/`.
    pub fn root() -> (p: LocationPath)
        ensures
            p.root,
            p.steps@ == Seq::<Step>::empty(),
    {
        LocationPath { root: true, steps: Vec::new() }
    }

    /// An absolute path with a single step.
    pub fn root_with(step: Step) -> (p: LocationPath)
        ensures
            p.root,
            p.steps@ == seq![step],
    {
        let ghost sv = step;
        let mut steps: Vec<Step> = Vec::new();
        steps.push(step);
        proof {
            assert(steps@ =~= seq![sv]);
        }
        LocationPath { root: true, steps }
    }

    /// An empty absolute path: the bare `/`.
    pub fn absolute() -> (p: LocationPath)
        ensures
            p.root,
            p.steps@ == Seq::<Step>::empty(),
    {
        LocationPath::root()
    }

    /// An absolute path with a single step.
    pub fn absolute_with(step: Step) -> (p: LocationPath)
        ensures
            p.root,
            p.steps@ == seq![step],
    {
        LocationPath::root_with(step)
    }

    /// Append a step to the end of this path.
    pub fn append(&mut self, step: Step)
        ensures
            final(self).root == old(self).root,
            final(self).steps@ == old(self).steps@.push(step),
    {
        self.steps.push(step);
    }

    /// Whether this is an absolute path.
    pub fn is_absolute(&self) -> (b: bool)
        ensures
            b == self.root,
    {
        self.root
    }

    /// Whether this path has no steps.
    pub fn is_empty(&self) -> (b: bool)
        ensures
            b == (self.steps@.len() == 0),
    {
        self.steps.is_empty()
    }

    /// The steps of this path, in order of application.
    pub fn steps(&self) -> (s: &Vec<Step>)
        ensures
            s == &self.steps,
    {
        &self.steps
    }

    /// Append the step `child::named`.
    pub fn child_elements(&mut self, named: &str)
        ensures
            final(self).root == old(self).root,
            final(self).steps@.len() == old(self).steps@.len() + 1,
            final(self).steps@.drop_last() == old(self).steps@,
            final(self).steps@.last().select.axis == AxisSpecifier::Child,
            final(self).steps@.last().select.test matches NodeTest::Named(nm) && nm@ == named@,
            final(self).steps@.last().predicates@ == Seq::<Predicate>::empty(),
    {
        let s = Step::child_elements(named);
        self.steps.push(s);
        proof {
            assert(final(self).steps@.drop_last() =~= old(self).steps@);
        }
    }

    /// Append the step `child::*`.
    pub fn all_child_elements(&mut self)
        ensures
            final(self).root == old(self).root,
            final(self).steps@.len() == old(self).steps@.len() + 1,
            final(self).steps@.drop_last() == old(self).steps@,
            final(self).steps@.last().select.axis == AxisSpecifier::Child,
            final(self).steps@.last().select.test == NodeTest::All,
            final(self).steps@.last().predicates@ == Seq::<Predicate>::empty(),
    {
        let s = Step::all_child_elements();
        self.steps.push(s);
        proof {
            assert(final(self).steps@.drop_last() =~= old(self).steps@);
        }
    }

    /// Append the step `self::node()`.
    pub fn all_self(&mut self)
        ensures
            final(self).root == old(self).root,
            final(self).steps@.len() == old(self).steps@.len() + 1,
            final(self).steps@.drop_last() == old(self).steps@,
            final(self).steps@.last().select.axis == AxisSpecifier::SelfNode,
            final(self).steps@.last().select.test == NodeTest::Node,
            final(self).steps@.last().predicates@ == Seq::<Predicate>::empty(),
    {
        let s = Step::all_self();
        self.steps.push(s);
        proof {
            assert(final(self).steps@.drop_last() =~= old(self).steps@);
        }
    }

    /// Append the step `self::*`.
    pub fn all_self_elements(&mut self)
        ensures
            final(self).root == old(self).root,
            final(self).steps@.len() == old(self).steps@.len() + 1,
            final(self).steps@.drop_last() == old(self).steps@,
            final(self).steps@.last().select.axis == AxisSpecifier::SelfNode,
            final(self).steps@.last().select.test == NodeTest::All,
            final(self).steps@.last().predicates@ == Seq::<Predicate>::empty(),
    {
        let s = Step::all_self_elements();
        self.steps.push(s);
        proof {
            assert(final(self).steps@.drop_last() =~= old(self).steps@);
        }
    }

    /// Append the step `descendant::named`.
    pub fn descendant_elements(&mut self, named: &str)
        ensures
            final(self).root == old(self).root,
            final(self).steps@.len() == old(self).steps@.len() + 1,
            final(self).steps@.drop_last() == old(self).steps@,
            final(self).steps@.last().select.axis == AxisSpecifier::Descendant,
            final(self).steps@.last().select.test matches NodeTest::Named(nm) && nm@ == named@,
            final(self).steps@.last().predicates@ == Seq::<Predicate>::empty(),
    {
        let s = Step::descendant_elements(named);
        self.steps.push(s);
        proof {
            assert(final(self).steps@.drop_last() =~= old(self).steps@);
        }
    }
}

impl Default for LocationPath {
    /// The default path: relative, with no steps.
    fn default() -> (p: LocationPath)
        ensures
            !p.root,
            p.steps@ == Seq::<Step>::empty(),
    {
        LocationPath { root: false, steps: Vec::new() }
    }
}


} // verus!
