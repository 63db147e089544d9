//! The PromQL syntax tree, and its reading from query text.
use promql_parser::label::{MatchOp, Matcher};
use promql_parser::parser::{
    AggregateExpr, BinModifier, BinaryExpr, Call, Expr, LabelModifier, VectorMatchCardinality,
    VectorSelector,
};
use vstd::prelude::*;

verus! {

/// `promql_parser::parser::Expr`, opaque.
#[verifier::external_type_specification]
#[verifier::external_body]
pub struct ExExpr(promql_parser::parser::Expr);

/// `promql_parser::parser::Call`, opaque.
#[verifier::external_type_specification]
#[verifier::external_body]
pub struct ExCall(promql_parser::parser::Call);

/// `promql_parser::parser::BinaryExpr`, opaque.
#[verifier::external_type_specification]
#[verifier::external_body]
pub struct ExBinaryExpr(promql_parser::parser::BinaryExpr);

/// `promql_parser::parser::AggregateExpr`, opaque.
#[verifier::external_type_specification]
#[verifier::external_body]
pub struct ExAggregateExpr(promql_parser::parser::AggregateExpr);

/// `promql_parser::parser::VectorSelector`, opaque.
#[verifier::external_type_specification]
#[verifier::external_body]
pub struct ExVectorSelector(promql_parser::parser::VectorSelector);

/// `promql_parser::parser::LabelModifier`, opaque.
#[verifier::external_type_specification]
#[verifier::external_body]
pub struct ExLabelModifier(promql_parser::parser::LabelModifier);

/// `promql_parser::parser::BinModifier`, opaque.
#[verifier::external_type_specification]
#[verifier::external_body]
pub struct ExBinModifier(promql_parser::parser::BinModifier);

/// `promql_parser::label::Matcher`, opaque.
#[verifier::external_type_specification]
#[verifier::external_body]
pub struct ExMatcher(promql_parser::label::Matcher);

/// How a label matcher compares a label's value.
#[derive(Debug, Clone, Copy, PartialEq, Eq, Structural)]
pub enum MatcherOp {
    /// `=`
    Equal,
    /// `!=`
    NotEqual,
    /// `=~`
    Re,
    /// `!~`
    NotRe,
}

/// A label matcher of a selector.
#[derive(Debug)]
pub struct LabelMatcher {
    pub op: MatcherOp,
    pub name: String,
    pub value: String,
}

/// A selector: a metric name, and matchers on labels.
#[derive(Debug)]
pub struct Selector {
    pub name: Option<String>,
    pub matchers: Vec<LabelMatcher>,
}

/// `by`/`on` with the labels that it lists, or `without`/`ignoring` with them.
#[derive(Debug)]
pub enum Grouping {
    Include(Vec<String>),
    Exclude(Vec<String>),
}

/// How many series of one operand match one series of the other, with the labels
/// that `group_left` or `group_right` lists.
#[derive(Debug)]
pub enum Cardinality {
    OneToOne,
    ManyToOne(Vec<String>),
    OneToMany(Vec<String>),
    ManyToMany,
}

/// The modifiers of a binary operator.
#[derive(Debug)]
pub struct BinaryModifier {
    pub card: Cardinality,
    pub matching: Option<Grouping>,
    pub return_bool: bool,
}

/// A PromQL expression.
#[derive(Debug)]
pub enum PromExpr {
    /// A number, as the bits of the double that it stands for.
    Number(u64),
    /// A string literal.
    Text(String),
    /// A parenthesised expression.
    Paren(Box<PromExpr>),
    /// A negated expression.
    Unary(Box<PromExpr>),
    /// A binary operator, by its symbol.
    Binary { op: String, lhs: Box<PromExpr>, rhs: Box<PromExpr>, modifier: Option<BinaryModifier> },
    /// A function call.
    Call { name: String, args: Vec<PromExpr> },
    /// An aggregation operator, by its keyword.
    Aggregate {
        op: String,
        expr: Box<PromExpr>,
        param: Option<Box<PromExpr>>,
        grouping: Option<Grouping>,
    },
    /// An instant vector selector.
    Vector(Selector),
    /// A range vector selector, with its range in nanoseconds.
    Matrix(Selector, u128),
    /// A subquery over an expression.
    Subquery(Box<PromExpr>),
    /// An expression that only an extension of the language knows.
    Other,
}

/// What `promql_parser::parser::parse` reads from a query text: the tree, or
/// nothing where the text is not PromQL.
pub uninterp spec fn promql_tree(query: Seq<char>) -> Option<PromExpr>;

/// `promql_parser::parser::parse`, with its tree moved into [`PromExpr`]. Claimed:
/// whether the text is accepted, and the tree, are functions of the text alone.
/// Nothing is claimed of the message that comes with a refusal: where `on` and
/// `group_left` share several labels, the one that it names depends on the order in
/// which the parser walks a hash set.
#[verifier::external_body]
fn parsed(query: &str) -> (r: Result<PromExpr, String>)
    ensures
        r is Ok <==> promql_tree(query@) is Some,
        r matches Ok(e) ==> promql_tree(query@) == Some(e),
{
    promql_parser::parser::parse(query).map(|e| expr_from(&e))
}

/// Whether a message is one with which the parser refuses a query text.
pub closed spec fn refused_with(query: Seq<char>, message: Seq<char>) -> bool {
    exists|q: &str, m: String|
        q@ == query && m@ == message && #[trigger] call_ensures(
            parsed,
            (q,),
            Err::<PromExpr, String>(m),
        )
}

/// The fields of a `promql_parser::parser::Expr`, moved one by one.
#[verifier::external_body]
fn expr_from(e: &Expr) -> PromExpr {
    match e {
        Expr::NumberLiteral(n) => PromExpr::Number(n.val.to_bits()),
        Expr::StringLiteral(s) => PromExpr::Text(s.val.clone()),
        Expr::Paren(p) => PromExpr::Paren(boxed(&p.expr)),
        Expr::Unary(u) => PromExpr::Unary(boxed(&u.expr)),
        Expr::Subquery(s) => PromExpr::Subquery(boxed(&s.expr)),
        Expr::Binary(b) => binary_from(b),
        Expr::Call(c) => call_from(c),
        Expr::Aggregate(a) => aggregate_from(a),
        Expr::VectorSelector(v) => PromExpr::Vector(selector_from(v)),
        Expr::MatrixSelector(m) => PromExpr::Matrix(selector_from(&m.vs), m.range.as_nanos()),
        Expr::Extension(_) => PromExpr::Other,
    }
}

/// What [`expr_from`] gives for an expression, in a box.
fn boxed(e: &Expr) -> (r: Box<PromExpr>)
    ensures
        call_ensures(expr_from, (e,), *r),
{
    Box::new(expr_from(e))
}

/// The fields of a `promql_parser::parser::BinaryExpr`, moved one by one; the
/// operator as its `Display` writes it.
#[verifier::external_body]
fn binary_from(b: &BinaryExpr) -> PromExpr {
    PromExpr::Binary {
        op: b.op.to_string(),
        lhs: boxed(&b.lhs),
        rhs: boxed(&b.rhs),
        modifier: b.modifier.as_ref().map(modifier_from),
    }
}

/// The name and the arguments of a `promql_parser::parser::Call`.
#[verifier::external_body]
fn call_from(c: &Call) -> PromExpr {
    PromExpr::Call {
        name: c.func.name.to_string(),
        args: c.args.args.iter().map(|a| expr_from(a)).collect(),
    }
}

/// The fields of a `promql_parser::parser::AggregateExpr`, moved one by one; the
/// operator as its `Display` writes it.
#[verifier::external_body]
fn aggregate_from(a: &AggregateExpr) -> PromExpr {
    PromExpr::Aggregate {
        op: a.op.to_string(),
        expr: boxed(&a.expr),
        param: a.param.as_ref().map(|p| boxed(p)),
        grouping: a.modifier.as_ref().map(grouping_from),
    }
}

/// The name and the matchers of a `promql_parser::parser::VectorSelector`.
#[verifier::external_body]
fn selector_from(v: &VectorSelector) -> Selector {
    Selector {
        name: v.name.clone(),
        matchers: v.matchers.matchers.iter().map(matcher_from).collect(),
    }
}

/// The fields of a `promql_parser::label::Matcher`, moved one by one.
#[verifier::external_body]
fn matcher_from(m: &Matcher) -> LabelMatcher {
    let op = match m.op {
        MatchOp::Equal => MatcherOp::Equal,
        MatchOp::NotEqual => MatcherOp::NotEqual,
        MatchOp::Re(_) => MatcherOp::Re,
        MatchOp::NotRe(_) => MatcherOp::NotRe,
    };
    LabelMatcher { op, name: m.name.clone(), value: m.value.clone() }
}

/// The labels of a `promql_parser::parser::LabelModifier`.
#[verifier::external_body]
fn grouping_from(m: &LabelModifier) -> Grouping {
    match m {
        LabelModifier::Include(l) => Grouping::Include(l.labels.clone()),
        LabelModifier::Exclude(l) => Grouping::Exclude(l.labels.clone()),
    }
}

/// The fields of a `promql_parser::parser::BinModifier`, moved one by one.
#[verifier::external_body]
fn modifier_from(m: &BinModifier) -> BinaryModifier {
    let card = match &m.card {
        VectorMatchCardinality::OneToOne => Cardinality::OneToOne,
        VectorMatchCardinality::ManyToOne(l) => Cardinality::ManyToOne(l.labels.clone()),
        VectorMatchCardinality::OneToMany(l) => Cardinality::OneToMany(l.labels.clone()),
        VectorMatchCardinality::ManyToMany => Cardinality::ManyToMany,
    };
    let matching = m.matching.as_ref().map(grouping_from);
    BinaryModifier { card, matching, return_bool: m.return_bool }
}

/// Reads a query text. A refusal comes with the message of the parser.
pub fn parse(query: &str) -> (r: Result<PromExpr, String>)
    ensures
        r is Ok <==> promql_tree(query@) is Some,
        r matches Ok(e) ==> promql_tree(query@) == Some(e),
        r matches Err(m) ==> refused_with(query@, m@),
{
    let r = parsed(query);
    assert(call_ensures(parsed, (query,), r));
    r
}

} // verus!
