//! Rendering of the expression model back to XPath text, in the full
//! syntax and in the abbreviated syntax of the specification.  Each
//! rendering is specified by a spec function over the model value and the
//! exec methods are proved to produce exactly it.

use vstd::prelude::*;

use crate::function::{args_view, Argument, ArgumentView, DataType, Function};
use crate::model::{
    AxisSpecifier, ExprNode, FunctionCall, LocationPath, NodeTest, Predicate, Select, Step,
    Terminal,
};

verus! {

/// Display of a value in the abbreviated syntax of the XPath
/// specification.
pub trait ToAbbrString {
    /// What the abbreviated rendering is.
    spec fn abbr_view(&self) -> Seq<char>;

    /// Render in abbreviated form.
    fn to_abbr_string(&self) -> (r: String)
        ensures
            r@ == self.abbr_view(),
    ;
}

/// Relies on `String::push_str`: appends exactly the given string slice.
#[verifier::external_body]
fn push_str(out: &mut String, s: &str)
    ensures
        final(out)@ == old(out)@ + s@,
{
    out.push_str(s)
}

/// Relies on `String::push`: appends exactly the given character.
#[verifier::external_body]
fn push_char(out: &mut String, c: char)
    ensures
        final(out)@ == old(out)@ + seq![c],
{
    out.push(c)
}

/// The decimal digit character for `d`.
pub open spec fn digit_char(d: nat) -> char {
    if d == 0 {
        '0'
    } else if d == 1 {
        '1'
    } else if d == 2 {
        '2'
    } else if d == 3 {
        '3'
    } else if d == 4 {
        '4'
    } else if d == 5 {
        '5'
    } else if d == 6 {
        '6'
    } else if d == 7 {
        '7'
    } else if d == 8 {
        '8'
    } else {
        '9'
    }
}

/// The decimal digits of `n`, most significant first.
pub open spec fn dec_nat(n: nat) -> Seq<char>
    decreases n,
{
    if n < 10 {
        seq![digit_char(n)]
    } else {
        dec_nat(n / 10) + seq![digit_char(n % 10)]
    }
}

/// The decimal rendering of `v`, a minus sign first for a negative value.
pub open spec fn dec_int(v: int) -> Seq<char> {
    if v < 0 {
        seq!['-'] + dec_nat((-v) as nat)
    } else {
        dec_nat(v as nat)
    }
}

/// Append the decimal digit character for `d`.
fn push_digit(out: &mut String, d: u64)
    requires
        d < 10,
    ensures
        final(out)@ == old(out)@ + seq![digit_char(d as nat)],
{
    let c = match d {
        0 => '0',
        1 => '1',
        2 => '2',
        3 => '3',
        4 => '4',
        5 => '5',
        6 => '6',
        7 => '7',
        8 => '8',
        _ => '9',
    };
    push_char(out, c);
}

/// Append the decimal digits of `n`.
fn push_u64_dec(out: &mut String, n: u64)
    ensures
        final(out)@ == old(out)@ + dec_nat(n as nat),
    decreases n,
{
    if n >= 10 {
        push_u64_dec(out, n / 10);
        push_digit(out, n % 10);
        proof {
            assert((old(out)@ + dec_nat((n / 10) as nat)) + seq![digit_char((n % 10) as nat)]
                =~= old(out)@ + (dec_nat((n / 10) as nat) + seq![digit_char((n % 10) as nat)]));
        }
    } else {
        push_digit(out, n);
    }
}

/// Append the decimal rendering of `v`.
fn push_i64_dec(out: &mut String, v: i64)
    ensures
        final(out)@ == old(out)@ + dec_int(v as int),
{
    if v < 0 {
        push_char(out, '-');
        let m: u64 = if v == i64::MIN {
            9223372036854775808u64
        } else {
            (-v) as u64
        };
        proof {
            assert(m as nat == (-(v as int)) as nat);
        }
        push_u64_dec(out, m);
        proof {
            assert((old(out)@ + seq!['-']) + dec_nat(m as nat) =~= old(out)@ + (seq!['-']
                + dec_nat(m as nat)));
        }
    } else {
        push_u64_dec(out, v as u64);
    }
}

/// The full-syntax rendering of an axis specifier.
pub open spec fn axis_full(a: AxisSpecifier) -> Seq<char> {
    match a {
        AxisSpecifier::Ancestor => "ancestor::"@,
        AxisSpecifier::AncestorOrSelf => "ancestor-or-self::"@,
        AxisSpecifier::Attribute => "attribute::"@,
        AxisSpecifier::Child => "child::"@,
        AxisSpecifier::Descendant => "descendant::"@,
        AxisSpecifier::DescendantOrSelf => "descendant-or-self::"@,
        AxisSpecifier::Following => "following::"@,
        AxisSpecifier::FollowingSibling => "following-sibling::"@,
        AxisSpecifier::Namespace => "namespace::"@,
        AxisSpecifier::Parent => "parent::"@,
        AxisSpecifier::Preceding => "preceding::"@,
        AxisSpecifier::PrecedingSibling => "preceding-sibling::"@,
        AxisSpecifier::SelfNode => "self::"@,
    }
}

/// The abbreviated rendering of an axis specifier: `@` for the attribute
/// axis, nothing for the child axis, the full form otherwise.
pub open spec fn axis_abbr(a: AxisSpecifier) -> Seq<char> {
    match a {
        AxisSpecifier::Attribute => "@"@,
        AxisSpecifier::Child => ""@,
        _ => axis_full(a),
    }
}

/// Append the full-syntax rendering of an axis specifier.
fn push_axis_full(out: &mut String, a: AxisSpecifier)
    ensures
        final(out)@ == old(out)@ + axis_full(a),
{
    match a {
        AxisSpecifier::Ancestor => push_str(out, "ancestor::"),
        AxisSpecifier::AncestorOrSelf => push_str(out, "ancestor-or-self::"),
        AxisSpecifier::Attribute => push_str(out, "attribute::"),
        AxisSpecifier::Child => push_str(out, "child::"),
        AxisSpecifier::Descendant => push_str(out, "descendant::"),
        AxisSpecifier::DescendantOrSelf => push_str(out, "descendant-or-self::"),
        AxisSpecifier::Following => push_str(out, "following::"),
        AxisSpecifier::FollowingSibling => push_str(out, "following-sibling::"),
        AxisSpecifier::Namespace => push_str(out, "namespace::"),
        AxisSpecifier::Parent => push_str(out, "parent::"),
        AxisSpecifier::Preceding => push_str(out, "preceding::"),
        AxisSpecifier::PrecedingSibling => push_str(out, "preceding-sibling::"),
        AxisSpecifier::SelfNode => push_str(out, "self::"),
    }
}

/// Append the abbreviated rendering of an axis specifier.
fn push_axis_abbr(out: &mut String, a: AxisSpecifier)
    ensures
        final(out)@ == old(out)@ + axis_abbr(a),
{
    match a {
        AxisSpecifier::Attribute => push_str(out, "@"),
        AxisSpecifier::Child => push_str(out, ""),
        _ => push_axis_full(out, a),
    }
}

/// The rendering of a node test; it is the same in both syntaxes.
pub open spec fn node_test_render(t: NodeTest) -> Seq<char> {
    match t {
        NodeTest::All => "*"@,
        NodeTest::Named(name) => name@,
        NodeTest::Comment => "comment()"@,
        NodeTest::Text => "text()"@,
        NodeTest::ProcessingInstruction(None) => "processing-instruction()"@,
        NodeTest::ProcessingInstruction(Some(literal)) => "processing-instruction("@ + literal@
            + ")"@,
        NodeTest::Node => "node()"@,
    }
}

/// Append the rendering of a node test.
fn push_node_test(out: &mut String, t: &NodeTest)
    ensures
        final(out)@ == old(out)@ + node_test_render(*t),
{
    match t {
        NodeTest::All => push_str(out, "*"),
        NodeTest::Named(name) => push_str(out, name.as_str()),
        NodeTest::Comment => push_str(out, "comment()"),
        NodeTest::Text => push_str(out, "text()"),
        NodeTest::ProcessingInstruction(None) => push_str(out, "processing-instruction()"),
        NodeTest::ProcessingInstruction(Some(literal)) => {
            push_str(out, "processing-instruction(");
            push_str(out, literal.as_str());
            push_str(out, ")");
            proof {
                assert(((old(out)@ + "processing-instruction("@) + literal@) + ")"@ =~= old(out)@
                    + ("processing-instruction("@ + literal@ + ")"@));
            }
        },
        NodeTest::Node => push_str(out, "node()"),
    }
}

/// The full-syntax rendering of a select component.
pub open spec fn select_full(s: Select) -> Seq<char> {
    axis_full(s.axis) + node_test_render(s.test)
}

/// The abbreviated rendering of a select component: `.` for the context
/// node, `..` for its parent, `//` for any descendant-or-self node, and
/// the abbreviated axis with the node test otherwise.
pub open spec fn select_abbr(s: Select) -> Seq<char> {
    if s.axis == AxisSpecifier::SelfNode && (s.test matches NodeTest::Node) {
        "."@
    } else if s.axis == AxisSpecifier::Parent && (s.test matches NodeTest::Node) {
        ".."@
    } else if s.axis == AxisSpecifier::DescendantOrSelf && (s.test matches NodeTest::Node) {
        "//"@
    } else {
        axis_abbr(s.axis) + node_test_render(s.test)
    }
}

/// Append the full-syntax rendering of a select component.
fn push_select_full(out: &mut String, s: &Select)
    ensures
        final(out)@ == old(out)@ + select_full(*s),
{
    push_axis_full(out, s.axis);
    push_node_test(out, &s.test);
    proof {
        assert((old(out)@ + axis_full(s.axis)) + node_test_render(s.test) =~= old(out)@ + (
        axis_full(s.axis) + node_test_render(s.test)));
    }
}

/// Append the abbreviated rendering of a select component.
fn push_select_abbr(out: &mut String, s: &Select)
    ensures
        final(out)@ == old(out)@ + select_abbr(*s),
{
    let plain_node = matches!(s.test, NodeTest::Node);
    if plain_node && matches!(s.axis, AxisSpecifier::SelfNode) {
        push_str(out, ".");
    } else if plain_node && matches!(s.axis, AxisSpecifier::Parent) {
        push_str(out, "..");
    } else if plain_node && matches!(s.axis, AxisSpecifier::DescendantOrSelf) {
        push_str(out, "//");
    } else {
        push_axis_abbr(out, s.axis);
        push_node_test(out, &s.test);
        proof {
            assert((old(out)@ + axis_abbr(s.axis)) + node_test_render(s.test) =~= old(out)@ + (
            axis_abbr(s.axis) + node_test_render(s.test)));
        }
    }
}

impl Select {
    /// Render this select component in the full syntax.
    pub fn to_string(&self) -> (r: String)
        ensures
            r@ == select_full(*self),
    {
        let mut out = String::new();
        proof {
            assert(Seq::<char>::empty() + select_full(*self) =~= select_full(*self));
        }
        push_select_full(&mut out, self);
        out
    }
}

impl ToAbbrString for Select {
    open spec fn abbr_view(&self) -> Seq<char> {
        select_abbr(*self)
    }

    fn to_abbr_string(&self) -> (r: String) {
        let mut out = String::new();
        proof {
            assert(Seq::<char>::empty() + select_abbr(*self) =~= select_abbr(*self));
        }
        push_select_abbr(&mut out, self);
        out
    }
}

impl AxisSpecifier {
    /// Render this axis specifier in the full syntax.
    pub fn to_string(&self) -> (r: String)
        ensures
            r@ == axis_full(*self),
    {
        let mut out = String::new();
        proof {
            assert(Seq::<char>::empty() + axis_full(*self) =~= axis_full(*self));
        }
        push_axis_full(&mut out, *self);
        out
    }
}

impl ToAbbrString for AxisSpecifier {
    open spec fn abbr_view(&self) -> Seq<char> {
        axis_abbr(*self)
    }

    fn to_abbr_string(&self) -> (r: String) {
        let mut out = String::new();
        proof {
            assert(Seq::<char>::empty() + axis_abbr(*self) =~= axis_abbr(*self));
        }
        push_axis_abbr(&mut out, *self);
        out
    }
}

impl NodeTest {
    /// Render this node test.
    pub fn to_string(&self) -> (r: String)
        ensures
            r@ == node_test_render(*self),
    {
        let mut out = String::new();
        proof {
            assert(Seq::<char>::empty() + node_test_render(*self) =~= node_test_render(*self));
        }
        push_node_test(&mut out, self);
        out
    }
}

impl ToAbbrString for NodeTest {
    open spec fn abbr_view(&self) -> Seq<char> {
        node_test_render(*self)
    }

    fn to_abbr_string(&self) -> (r: String) {
        let mut out = String::new();
        proof {
            assert(Seq::<char>::empty() + node_test_render(*self) =~= node_test_render(*self));
        }
        push_node_test(&mut out, self);
        out
    }
}


/// Whether a predicate is a bare call of `position()`.
pub open spec fn is_position_call(p: Predicate) -> bool {
    p matches Predicate::Function(c) && c.name@ == "position"@ && c.arguments@.len() == 0
}

/// The integer a predicate holds, if it is a bare number.
pub open spec fn number_of(p: Predicate) -> Option<i64> {
    match p {
        Predicate::Terminal(Terminal::Number(n)) => Some(n),
        _ => None,
    }
}

/// The rendering of a predicate, in the full or the abbreviated syntax.
pub open spec fn pred_render(p: Predicate, abbr: bool) -> Seq<char>
    decreases p,
{
    match p {
        Predicate::Expr(e) => expr_render(e, abbr),
        Predicate::Terminal(term) => term_render(term, abbr),
        Predicate::Function(c) => call_render(c),
    }
}

/// The rendering of a terminal value.  In the abbreviated syntax a select
/// expression uses its abbreviated form; the other terminals render alike
/// in both syntaxes.
pub open spec fn term_render(term: Terminal, abbr: bool) -> Seq<char> {
    match term {
        Terminal::Variable(v) => "$"@ + v@,
        Terminal::Literal(v) => "'"@ + v@ + "'"@,
        Terminal::Number(v) => dec_int(v as int),
        Terminal::Select(s) => if abbr {
            select_abbr(s)
        } else {
            select_full(s)
        },
    }
}

/// The rendering of an expression node.  In the abbreviated syntax an
/// equality of `position()` against a bare number renders as the number
/// alone — the numeric-position abbreviation.
pub open spec fn expr_render(e: ExprNode, abbr: bool) -> Seq<char>
    decreases e,
{
    match e {
        ExprNode::And { left, right } => pred_render(*left, abbr) + " and "@ + pred_render(
            *right,
            abbr,
        ),
        ExprNode::Or { left, right } => pred_render(*left, abbr) + " or "@ + pred_render(
            *right,
            abbr,
        ),
        ExprNode::Equals { left, right } => {
            if abbr && is_position_call(*left) && (number_of(*right) matches Some(n)) {
                dec_int(number_of(*right)->0 as int)
            } else {
                pred_render(*left, abbr) + " = "@ + pred_render(*right, abbr)
            }
        },
        ExprNode::NotEquals { left, right } => pred_render(*left, abbr) + " != "@ + pred_render(
            *right,
            abbr,
        ),
        ExprNode::LessThan { left, right } => pred_render(*left, abbr) + " < "@ + pred_render(
            *right,
            abbr,
        ),
        ExprNode::LessThanOrEqual { left, right } => pred_render(*left, abbr) + " <= "@
            + pred_render(*right, abbr),
        ExprNode::GreaterThan { left, right } => pred_render(*left, abbr) + " > "@ + pred_render(
            *right,
            abbr,
        ),
        ExprNode::GreaterThanOrEqual { left, right } => pred_render(*left, abbr) + " >= "@
            + pred_render(*right, abbr),
        ExprNode::Add { left, right } => pred_render(*left, abbr) + " + "@ + pred_render(
            *right,
            abbr,
        ),
        ExprNode::Subtract { left, right } => pred_render(*left, abbr) + " - "@ + pred_render(
            *right,
            abbr,
        ),
        ExprNode::Multiply { left, right } => pred_render(*left, abbr) + " * "@ + pred_render(
            *right,
            abbr,
        ),
        ExprNode::Divide { left, right } => pred_render(*left, abbr) + " / "@ + pred_render(
            *right,
            abbr,
        ),
        ExprNode::Modulus { left, right } => pred_render(*left, abbr) + " mod "@ + pred_render(
            *right,
            abbr,
        ),
        ExprNode::FPDiv { left, right } => pred_render(*left, abbr) + " div "@ + pred_render(
            *right,
            abbr,
        ),
        ExprNode::UnaryMinus { value } => "- "@ + pred_render(*value, abbr),
    }
}

/// The rendering of a function call: its name and its arguments, in full
/// syntax, separated by commas.
pub open spec fn call_render(c: FunctionCall) -> Seq<char>
    decreases c,
{
    c.name@ + "("@ + call_args_render(c.arguments@) + ")"@
}

/// The comma-separated renderings of a call's arguments.
pub open spec fn call_args_render(args: Seq<Predicate>) -> Seq<char>
    decreases args,
{
    if args.len() == 0 {
        Seq::empty()
    } else if args.len() == 1 {
        pred_render(args[0], false)
    } else {
        call_args_render(args.drop_last()) + ", "@ + pred_render(args.last(), false)
    }
}

/// Append the rendering of a predicate.
fn push_pred(out: &mut String, p: &Predicate, abbr: bool)
    ensures
        final(out)@ == old(out)@ + pred_render(*p, abbr),
    decreases *p, 2int,
{
    match p {
        Predicate::Expr(e) => push_expr(out, e, abbr),
        Predicate::Terminal(term) => push_term(out, term, abbr),
        Predicate::Function(c) => push_call(out, c),
    }
}

/// Append the rendering of a terminal value.
fn push_term(out: &mut String, term: &Terminal, abbr: bool)
    ensures
        final(out)@ == old(out)@ + term_render(*term, abbr),
{
    match term {
        Terminal::Variable(v) => {
            push_str(out, "$");
            push_str(out, v.as_str());
            proof {
                assert((old(out)@ + "$"@) + v@ =~= old(out)@ + ("$"@ + v@));
            }
        },
        Terminal::Literal(v) => {
            push_str(out, "'");
            push_str(out, v.as_str());
            push_str(out, "'");
            proof {
                assert(((old(out)@ + "'"@) + v@) + "'"@ =~= old(out)@ + ("'"@ + v@ + "'"@));
            }
        },
        Terminal::Number(v) => push_i64_dec(out, *v),
        Terminal::Select(s) => {
            if abbr {
                push_select_abbr(out, s);
            } else {
                push_select_full(out, s);
            }
        },
    }
}

/// Append the renderings of the two sides of a binary expression around
/// its operator.  The expression the sides came from rides along as a
/// ghost so the mutual recursion's measure can follow it.
fn push_binary(
    out: &mut String,
    Ghost(e): Ghost<ExprNode>,
    left: &Predicate,
    op: &str,
    right: &Predicate,
    abbr: bool,
)
    requires
        decreases_to!(e => *left),
        decreases_to!(e => *right),
    ensures
        final(out)@ == old(out)@ + (pred_render(*left, abbr) + op@ + pred_render(*right, abbr)),
    decreases e, 0int,
{
    push_pred(out, left, abbr);
    push_str(out, op);
    push_pred(out, right, abbr);
    proof {
        assert(((old(out)@ + pred_render(*left, abbr)) + op@) + pred_render(*right, abbr)
            =~= old(out)@ + (pred_render(*left, abbr) + op@ + pred_render(*right, abbr)));
    }
}

/// Append the rendering of an expression node.
fn push_expr(out: &mut String, e: &ExprNode, abbr: bool)
    ensures
        final(out)@ == old(out)@ + expr_render(*e, abbr),
    decreases *e, 1int,
{
    match e {
        ExprNode::And { left, right } => push_binary(out, Ghost(*e), &**left, " and ", &**right, abbr),
        ExprNode::Or { left, right } => push_binary(out, Ghost(*e), &**left, " or ", &**right, abbr),
        ExprNode::Equals { left, right } => {
            let mut special = false;
            let mut num: i64 = 0;
            if abbr {
                if let Predicate::Function(c) = &**left {
                    if c.arguments.len() == 0 {
                        let position_name = "position".to_owned();
                        if c.name == position_name {
                            if let Predicate::Terminal(Terminal::Number(n)) = &**right {
                                special = true;
                                num = *n;
                            }
                        }
                    }
                }
            }
            proof {
                assert(special == (abbr && is_position_call(**left) && (number_of(**right)
                    matches Some(nn))));
            }
            if special {
                push_i64_dec(out, num);
            } else {
                push_binary(out, Ghost(*e), &**left, " = ", &**right, abbr);
            }
        },
        ExprNode::NotEquals { left, right } => push_binary(out, Ghost(*e), &**left, " != ", &**right, abbr),
        ExprNode::LessThan { left, right } => push_binary(out, Ghost(*e), &**left, " < ", &**right, abbr),
        ExprNode::LessThanOrEqual { left, right } => push_binary(out, Ghost(*e), &**left, " <= ", &**right, abbr),
        ExprNode::GreaterThan { left, right } => push_binary(out, Ghost(*e), &**left, " > ", &**right, abbr),
        ExprNode::GreaterThanOrEqual { left, right } => push_binary(out, Ghost(*e), &**left, " >= ", &**right, abbr),
        ExprNode::Add { left, right } => push_binary(out, Ghost(*e), &**left, " + ", &**right, abbr),
        ExprNode::Subtract { left, right } => push_binary(out, Ghost(*e), &**left, " - ", &**right, abbr),
        ExprNode::Multiply { left, right } => push_binary(out, Ghost(*e), &**left, " * ", &**right, abbr),
        ExprNode::Divide { left, right } => push_binary(out, Ghost(*e), &**left, " / ", &**right, abbr),
        ExprNode::Modulus { left, right } => push_binary(out, Ghost(*e), &**left, " mod ", &**right, abbr),
        ExprNode::FPDiv { left, right } => push_binary(out, Ghost(*e), &**left, " div ", &**right, abbr),
        ExprNode::UnaryMinus { value } => {
            push_str(out, "- ");
            push_pred(out, value, abbr);
            proof {
                assert((old(out)@ + "- "@) + pred_render(**value, abbr) =~= old(out)@ + ("- "@
                    + pred_render(**value, abbr)));
            }
        },
    }
}

/// Append the rendering of a function call.
fn push_call(out: &mut String, c: &FunctionCall)
    ensures
        final(out)@ == old(out)@ + call_render(*c),
    decreases *c, 0int,
{
    let ghost args = c.arguments@;
    push_str(out, c.name.as_str());
    push_str(out, "(");
    proof {
        assert(args.take(0) =~= Seq::<Predicate>::empty());
        assert(call_args_render(args.take(0)) =~= Seq::<char>::empty());
    }
    let num = c.arguments.len();
    let mut k: usize = 0;
    while k < num
        invariant
            args == c.arguments@,
            num == args.len(),
            k <= num,
            out@ == old(out)@ + c.name@ + "("@ + call_args_render(args.take(k as int)),
        decreases num - k,
    {
        if k > 0 {
            push_str(out, ", ");
        }
        push_pred(out, &c.arguments[k], false);
        proof {
            assert(args.take(k + 1).drop_last() =~= args.take(k as int));
            assert(args.take(k + 1).last() == args[k as int]);
            if k == 0 {
                assert(call_args_render(args.take(1)) == pred_render(args[0], false));
                assert((old(out)@ + c.name@ + "("@ + call_args_render(args.take(0)))
                    + pred_render(args[0], false) =~= old(out)@ + c.name@ + "("@ + (
                call_args_render(args.take(0)) + pred_render(args[0], false)));
                assert(call_args_render(args.take(0)) + pred_render(args[0], false)
                    =~= pred_render(args[0], false));
            } else {
                assert(call_args_render(args.take(k + 1)) == call_args_render(args.take(k as int))
                    + ", "@ + pred_render(args[k as int], false));
                assert(((old(out)@ + c.name@ + "("@ + call_args_render(args.take(k as int)))
                    + ", "@) + pred_render(args[k as int], false) =~= old(out)@ + c.name@ + "("@ + (
                call_args_render(args.take(k as int)) + ", "@ + pred_render(args[k as int], false)));
            }
        }
        k += 1;
    }
    push_str(out, ")");
    proof {
        assert(args.take(num as int) =~= args);
        assert((old(out)@ + c.name@ + "("@ + call_args_render(args)) + ")"@ =~= old(out)@ + (
        c.name@ + "("@ + call_args_render(args) + ")"@));
    }
}

/// The bracketed renderings of a step's predicates, in order.
pub open spec fn preds_render(preds: Seq<Predicate>, abbr: bool) -> Seq<char>
    decreases preds,
{
    if preds.len() == 0 {
        Seq::empty()
    } else {
        preds_render(preds.drop_last(), abbr) + "["@ + pred_render(preds.last(), abbr) + "]"@
    }
}

/// The rendering of one step: its select component, then its predicates
/// in brackets.
pub open spec fn step_render(s: Step, abbr: bool) -> Seq<char> {
    (if abbr {
        select_abbr(s.select)
    } else {
        select_full(s.select)
    }) + preds_render(s.predicates@, abbr)
}

/// Append the bracketed renderings of a step's predicates.
fn push_preds(out: &mut String, preds: &Vec<Predicate>, abbr: bool)
    ensures
        final(out)@ == old(out)@ + preds_render(preds@, abbr),
{
    let ghost ps = preds@;
    proof {
        assert(preds_render(ps.take(0), abbr) =~= Seq::<char>::empty());
        assert(out@ + preds_render(ps.take(0), abbr) =~= out@);
    }
    let num = preds.len();
    let mut k: usize = 0;
    while k < num
        invariant
            ps == preds@,
            num == ps.len(),
            k <= num,
            out@ == old(out)@ + preds_render(ps.take(k as int), abbr),
        decreases num - k,
    {
        push_str(out, "[");
        push_pred(out, &preds[k], abbr);
        push_str(out, "]");
        proof {
            assert(ps.take(k + 1).drop_last() =~= ps.take(k as int));
            assert(ps.take(k + 1).last() == ps[k as int]);
            assert((((old(out)@ + preds_render(ps.take(k as int), abbr)) + "["@) + pred_render(
                ps[k as int],
                abbr,
            )) + "]"@ =~= old(out)@ + (preds_render(ps.take(k as int), abbr) + "["@ + pred_render(
                ps[k as int],
                abbr,
            ) + "]"@));
        }
        k += 1;
    }
    proof {
        assert(ps.take(num as int) =~= ps);
    }
}

/// Append the rendering of one step.
fn push_step(out: &mut String, s: &Step, abbr: bool)
    ensures
        final(out)@ == old(out)@ + step_render(*s, abbr),
{
    if abbr {
        push_select_abbr(out, &s.select);
    } else {
        push_select_full(out, &s.select);
    }
    let ghost sel = if abbr {
        select_abbr(s.select)
    } else {
        select_full(s.select)
    };
    push_preds(out, &s.predicates, abbr);
    proof {
        assert((old(out)@ + sel) + preds_render(s.predicates@, abbr) =~= old(out)@ + (sel
            + preds_render(s.predicates@, abbr)));
    }
}

/// The slash-separated renderings of a path's steps.
pub open spec fn steps_render(steps: Seq<Step>, abbr: bool) -> Seq<char>
    decreases steps,
{
    if steps.len() == 0 {
        Seq::empty()
    } else if steps.len() == 1 {
        step_render(steps[0], abbr)
    } else {
        steps_render(steps.drop_last(), abbr) + "/"@ + step_render(steps.last(), abbr)
    }
}

/// The rendering of a whole path: a leading slash for an absolute path,
/// then its steps separated by slashes.
pub open spec fn path_render(p: LocationPath, abbr: bool) -> Seq<char> {
    if p.root {
        "/"@ + steps_render(p.steps@, abbr)
    } else {
        steps_render(p.steps@, abbr)
    }
}

/// Append the rendering of a whole path.
fn push_path(out: &mut String, p: &LocationPath, abbr: bool)
    ensures
        final(out)@ == old(out)@ + path_render(*p, abbr),
{
    let ghost before = out@;
    if p.is_absolute() {
        push_str(out, "/");
    }
    let ghost mid = out@;
    let ghost steps = p.steps@;
    proof {
        assert(steps_render(steps.take(0), abbr) =~= Seq::<char>::empty());
        assert(out@ + steps_render(steps.take(0), abbr) =~= out@);
    }
    let num = p.steps.len();
    let mut k: usize = 0;
    while k < num
        invariant
            steps == p.steps@,
            num == steps.len(),
            k <= num,
            out@ == mid + steps_render(steps.take(k as int), abbr),
        decreases num - k,
    {
        if k > 0 {
            push_str(out, "/");
        }
        push_step(out, &p.steps[k], abbr);
        proof {
            assert(steps.take(k + 1).drop_last() =~= steps.take(k as int));
            assert(steps.take(k + 1).last() == steps[k as int]);
            if k == 0 {
                assert(steps_render(steps.take(1), abbr) == step_render(steps[0], abbr));
                assert((mid + steps_render(steps.take(0), abbr)) + step_render(steps[0], abbr)
                    =~= mid + steps_render(steps.take(1), abbr));
            } else {
                assert(steps_render(steps.take(k + 1), abbr) == steps_render(
                    steps.take(k as int),
                    abbr,
                ) + "/"@ + step_render(steps[k as int], abbr));
                assert(((mid + steps_render(steps.take(k as int), abbr)) + "/"@) + step_render(
                    steps[k as int],
                    abbr,
                ) =~= mid + (steps_render(steps.take(k as int), abbr) + "/"@ + step_render(
                    steps[k as int],
                    abbr,
                )));
            }
        }
        k += 1;
    }
    proof {
        assert(steps.take(num as int) =~= steps);
        if p.root {
            assert(mid =~= before + "/"@);
            assert((before + "/"@) + steps_render(steps, abbr) =~= before + ("/"@ + steps_render(
                steps,
                abbr,
            )));
        }
    }
}

impl Predicate {
    /// Render this predicate in the full syntax.
    pub fn to_string(&self) -> (r: String)
        ensures
            r@ == pred_render(*self, false),
    {
        let mut out = String::new();
        proof {
            assert(Seq::<char>::empty() + pred_render(*self, false) =~= pred_render(*self, false));
        }
        push_pred(&mut out, self, false);
        out
    }
}

impl ToAbbrString for Predicate {
    open spec fn abbr_view(&self) -> Seq<char> {
        pred_render(*self, true)
    }

    fn to_abbr_string(&self) -> (r: String) {
        let mut out = String::new();
        proof {
            assert(Seq::<char>::empty() + pred_render(*self, true) =~= pred_render(*self, true));
        }
        push_pred(&mut out, self, true);
        out
    }
}

impl Step {
    /// Render this step in the full syntax.
    pub fn to_string(&self) -> (r: String)
        ensures
            r@ == step_render(*self, false),
    {
        let mut out = String::new();
        proof {
            assert(Seq::<char>::empty() + step_render(*self, false) =~= step_render(*self, false));
        }
        push_step(&mut out, self, false);
        out
    }
}

impl ToAbbrString for Step {
    open spec fn abbr_view(&self) -> Seq<char> {
        step_render(*self, true)
    }

    fn to_abbr_string(&self) -> (r: String) {
        let mut out = String::new();
        proof {
            assert(Seq::<char>::empty() + step_render(*self, true) =~= step_render(*self, true));
        }
        push_step(&mut out, self, true);
        out
    }
}

impl LocationPath {
    /// Render this path in the full syntax.
    pub fn to_string(&self) -> (r: String)
        ensures
            r@ == path_render(*self, false),
    {
        let mut out = String::new();
        proof {
            assert(Seq::<char>::empty() + path_render(*self, false) =~= path_render(*self, false));
        }
        push_path(&mut out, self, false);
        out
    }
}

impl ToAbbrString for LocationPath {
    open spec fn abbr_view(&self) -> Seq<char> {
        path_render(*self, true)
    }

    fn to_abbr_string(&self) -> (r: String) {
        let mut out = String::new();
        proof {
            assert(Seq::<char>::empty() + path_render(*self, true) =~= path_render(*self, true));
        }
        push_path(&mut out, self, true);
        out
    }
}

/// The rendering of a catalog data type.
pub open spec fn data_type_render(d: DataType) -> Seq<char> {
    match d {
        DataType::Bool => "bool"@,
        DataType::Number => "Num"@,
        DataType::String => "&str"@,
        DataType::Object => "Object"@,
        DataType::NodeSet => "NodeSet"@,
    }
}

/// Append the rendering of a catalog data type.
fn push_data_type(out: &mut String, d: DataType)
    ensures
        final(out)@ == old(out)@ + data_type_render(d),
{
    match d {
        DataType::Bool => push_str(out, "bool"),
        DataType::Number => push_str(out, "Num"),
        DataType::String => push_str(out, "&str"),
        DataType::Object => push_str(out, "Object"),
        DataType::NodeSet => push_str(out, "NodeSet"),
    }
}

/// The rendering of a declared argument: its name and type, the type
/// optional-wrapped when the argument is not required.
pub open spec fn argument_render(a: ArgumentView) -> Seq<char> {
    a.name + ": "@ + (if a.required {
        data_type_render(a.data_type)
    } else {
        "Option<"@ + data_type_render(a.data_type) + ">"@
    })
}

/// Append the rendering of a declared argument.
fn push_argument(out: &mut String, a: &Argument)
    ensures
        final(out)@ == old(out)@ + argument_render(a@),
{
    push_str(out, a.name.as_str());
    push_str(out, ": ");
    if a.required {
        push_data_type(out, a.data_type);
        proof {
            assert(((old(out)@ + a.name@) + ": "@) + data_type_render(a.data_type) =~= old(out)@
                + (a.name@ + ": "@ + data_type_render(a.data_type)));
        }
    } else {
        push_str(out, "Option<");
        push_data_type(out, a.data_type);
        push_str(out, ">");
        proof {
            assert(((((old(out)@ + a.name@) + ": "@) + "Option<"@) + data_type_render(a.data_type))
                + ">"@ =~= old(out)@ + (a.name@ + ": "@ + ("Option<"@ + data_type_render(
                a.data_type,
            ) + ">"@)));
        }
    }
}

/// The comma-separated renderings of a function's arguments.
pub open spec fn arguments_render(args: Seq<ArgumentView>) -> Seq<char>
    decreases args.len(),
{
    if args.len() == 0 {
        Seq::empty()
    } else if args.len() == 1 {
        argument_render(args[0])
    } else {
        arguments_render(args.drop_last()) + ", "@ + argument_render(args.last())
    }
}

/// The rendering of a catalog function: a signature line.
pub open spec fn function_render(f: crate::function::FunctionView) -> Seq<char> {
    "fn "@ + f.name + "("@ + arguments_render(f.arguments) + ") -> "@ + data_type_render(
        f.result_type,
    ) + ";"@
}

impl DataType {
    /// Render this data type.
    pub fn to_string(&self) -> (r: String)
        ensures
            r@ == data_type_render(*self),
    {
        let mut out = String::new();
        proof {
            assert(Seq::<char>::empty() + data_type_render(*self) =~= data_type_render(*self));
        }
        push_data_type(&mut out, *self);
        out
    }
}

impl Argument {
    /// Render this argument declaration.
    pub fn to_string(&self) -> (r: String)
        ensures
            r@ == argument_render(self@),
    {
        let mut out = String::new();
        proof {
            assert(Seq::<char>::empty() + argument_render(self@) =~= argument_render(self@));
        }
        push_argument(&mut out, self);
        out
    }
}

impl Function {
    /// Render this catalog function as a signature line.
    pub fn to_string(&self) -> (r: String)
        ensures
            r@ == function_render(self@),
    {
        let ghost args = args_view(self.arguments@);
        let mut out = String::new();
        push_str(&mut out, "fn ");
        push_str(&mut out, self.name.as_str());
        push_str(&mut out, "(");
        proof {
            assert(args.take(0) =~= Seq::<ArgumentView>::empty());
            assert(arguments_render(args.take(0)) =~= Seq::<char>::empty());
            assert(out@ =~= Seq::<char>::empty() + "fn "@ + self.name@ + "("@ + arguments_render(
                args.take(0),
            ));
        }
        let num = self.arguments.len();
        let mut k: usize = 0;
        while k < num
            invariant
                args == args_view(self.arguments@),
                num == self.arguments@.len(),
                k <= num,
                out@ == Seq::<char>::empty() + "fn "@ + self.name@ + "("@ + arguments_render(
                    args.take(k as int),
                ),
            decreases num - k,
        {
            proof {
                assert(args.len() == self.arguments@.len());
            }
            if k > 0 {
                push_str(&mut out, ", ");
            }
            push_argument(&mut out, &self.arguments[k]);
            proof {
                assert(args.take(k + 1).drop_last() =~= args.take(k as int));
                assert(args.take(k + 1).last() == args[k as int]);
                assert(args[k as int] == self.arguments@[k as int]@);
                let pre = Seq::<char>::empty() + "fn "@ + self.name@ + "("@;
                if k == 0 {
                    assert(arguments_render(args.take(1)) == argument_render(args[0]));
                    assert((pre + arguments_render(args.take(0))) + argument_render(args[0]) =~= pre
                        + arguments_render(args.take(1)));
                } else {
                    assert(arguments_render(args.take(k + 1)) == arguments_render(
                        args.take(k as int),
                    ) + ", "@ + argument_render(args[k as int]));
                    assert(((pre + arguments_render(args.take(k as int))) + ", "@)
                        + argument_render(args[k as int]) =~= pre + (arguments_render(
                        args.take(k as int),
                    ) + ", "@ + argument_render(args[k as int])));
                }
            }
            k += 1;
        }
        push_str(&mut out, ") -> ");
        push_data_type(&mut out, self.result_type);
        push_str(&mut out, ";");
        proof {
            assert(args.take(num as int) =~= args);
            assert(out@ =~= function_render(self@));
        }
        out
    }
}


} // verus!
