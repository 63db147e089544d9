//! TraceQL: spanset filters `{ … }` combined by `&& || >> <<`, with field expressions
//! (comparisons, `&&`/`||`, parentheses, scoped attributes, intrinsics, literals).
pub mod ast;
pub mod grammar;
pub mod lexer;
pub mod written;

use crate::text::{owned, white_space};
use ast::{spanset_view, FieldExprView, FieldOp, FieldView, SpansetExpr, SpansetView};
use grammar::{expression, spanset, spanset_tokens, written_spansets_are_read_back};
use lexer::{tokens, tokens_of, TokenView};
use written::{
    can_be_written, comparison_text, field_text, is_gap, is_writable, spaced,
    written_tokens_are_read_back,
};
use vstd::prelude::*;

verus! {

/// A TraceQL parse failure. Surfaced as HTTP 400 by the route handlers.
#[derive(Debug)]
pub struct ParseError(pub String);

impl ParseError {
    /// What is said of the failure.
    pub fn message(&self) -> (r: String)
        ensures
            r@ == self.0@,
    {
        owned(self.0.as_str())
    }
}

/// The spanset expression that a query is, if it is one: all of it can be read as
/// tokens, and these follow the grammar.
pub open spec fn query(input: Seq<char>) -> Option<SpansetView> {
    match tokens_of(input) {
        Some(t) => spanset(t),
        None => None,
    }
}

/// What is said of a query that is no expression.
pub open spec fn not_traceql() -> Seq<char> {
    "invalid TraceQL: 1 parse error(s)"@
}

/// Parse a TraceQL query into a [`SpansetExpr`]. Never panics on any input;
/// malformed input yields a [`ParseError`].
pub fn parse(input: &str) -> (r: Result<SpansetExpr, ParseError>)
    ensures
        r is Ok <==> query(input@) is Some,
        r matches Ok(e) ==> query(input@) == Some(spanset_view(e)),
        r matches Err(e) ==> e.0@ == not_traceql(),
{
    if let Some(t) = tokens(input) {
        if let Some(e) = expression(&t) {
            return Ok(e);
        }
    }
    Err(ParseError(owned("invalid TraceQL: 1 parse error(s)")))
}

/// A spanset expression that is written with all its parentheses, with white space before,
/// between and behind its words, is read as itself, where each of its fields can be
/// written.
pub proof fn written_queries_are_read_back(
    e: SpansetView,
    lead: Seq<char>,
    gaps: Seq<Seq<char>>,
)
    requires
        forall|k: int| 0 <= k < lead.len() ==> white_space(#[trigger] lead[k]),
        gaps.len() == spanset_tokens(e).len(),
        forall|k: int|
            0 <= k < spanset_tokens(e).len() ==> can_be_written(#[trigger] spanset_tokens(e)[k]),
        forall|k: int| 0 <= k < gaps.len() ==> is_gap(#[trigger] gaps[k]),
    ensures
        query(lead + spaced(spanset_tokens(e), gaps)) == Some(e),
{
    written_tokens_are_read_back(lead, spanset_tokens(e), gaps);
    written_spansets_are_read_back(e);
}

/// A filter with one comparison, such as `{ name = "GET /users" }`, compares the field on
/// the left with the field on the right; and a filter without any matches all spans.
pub proof fn filters_compare_their_fields(
    f: FieldView,
    op: FieldOp,
    g: FieldView,
    gaps: Seq<Seq<char>>,
)
    requires
        is_writable(f),
        is_writable(g),
        gaps.len() == 5,
        forall|k: int| 0 <= k < gaps.len() ==> is_gap(#[trigger] gaps[k]),
    ensures
        query(
            seq!['{'] + (gaps[0] + (field_text(f) + (gaps[1] + (comparison_text(op) + (gaps[2] + (
            field_text(g) + (gaps[3] + (seq!['}'] + gaps[4])))))))),
        ) == Some(SpansetView::Filter(Some(FieldExprView::Cmp { lhs: f, op, rhs: g }))),
        query(seq!['{'] + (gaps[0] + (seq!['}'] + gaps[1]))) == Some(SpansetView::Filter(None)),
{
    let inside = seq![TokenView::Operand(f), TokenView::Compare(op), TokenView::Operand(g)];
    let open = seq![TokenView::OpenBrace];
    let close = seq![TokenView::CloseBrace];
    let t = open + inside + close;
    let none = Seq::<char>::empty();
    reveal_with_fuel(spaced, 6);
    assert(t =~= seq![
        TokenView::OpenBrace,
        TokenView::Operand(f),
        TokenView::Compare(op),
        TokenView::Operand(g),
        TokenView::CloseBrace,
    ]);
    written_tokens_are_read_back(none, t, gaps);
    assert(none + spaced(t, gaps) =~= seq!['{'] + (gaps[0] + (field_text(f) + (gaps[1] + (
    comparison_text(op) + (gaps[2] + (field_text(g) + (gaps[3] + (seq!['}'] + gaps[4]))))))))) by {
        assert(t.drop_first() =~= inside + close);
        let g1 = gaps.drop_first();
        let g2 = g1.drop_first();
        let g3 = g2.drop_first();
        let g4 = g3.drop_first();
        assert(g1[0] == gaps[1]);
        assert(g2[0] == gaps[2]);
        assert(g3[0] == gaps[3]);
        assert(g4[0] == gaps[4]);
        let t1 = t.drop_first();
        let t2 = t1.drop_first();
        let t3 = t2.drop_first();
        let t4 = t3.drop_first();
        let t5 = t4.drop_first();
        assert(t1[0] == t[1]);
        assert(t2[0] == t[2]);
        assert(t3[0] == t[3]);
        assert(t4[0] == t[4]);
        assert(spaced(t5, g4.drop_first()) =~= none);
        assert(spaced(t4, g4) =~= seq!['}'] + gaps[4]);
        assert(spaced(t3, g3) == field_text(g) + (gaps[3] + spaced(t4, g4)));
        assert(spaced(t2, g2) == comparison_text(op) + (gaps[2] + spaced(t3, g3)));
        assert(spaced(t1, g1) == field_text(f) + (gaps[1] + spaced(t2, g2)));
    }
    let e = SpansetView::Filter(Some(FieldExprView::Cmp { lhs: f, op, rhs: g }));
    written_spansets_are_read_back(e);
    assert(spanset_tokens(e) =~= t);
    let u = open + Seq::<TokenView>::empty() + close;
    assert(u =~= seq![TokenView::OpenBrace, TokenView::CloseBrace]);
    let two = gaps.take(2);
    assert forall|k: int| 0 <= k < two.len() implies is_gap(#[trigger] two[k]) by {
        assert(two[k] == gaps[k]);
    }
    written_tokens_are_read_back(none, u, two);
    assert(none + spaced(u, two) =~= seq!['{'] + (gaps[0] + (seq!['}'] + gaps[1]))) by {
        let u1 = u.drop_first();
        let two1 = two.drop_first();
        assert(u1[0] == u[1]);
        assert(two1[0] == gaps[1]);
        assert(spaced(u1.drop_first(), two1.drop_first()) =~= none);
        assert(spaced(u1, two1) =~= seq!['}'] + gaps[1]);
    }
    written_spansets_are_read_back(SpansetView::Filter(None));
    assert(spanset_tokens(SpansetView::Filter(None)) =~= u);
}

} // verus!
