//! The grammar of TraceQL: a list of tokens as a spanset expression.
//!
//! `&&` and `||` bind alike and group to the left; `>>` and `<<` bind tighter and group
//! to the left too. So an expression is taken apart at the last operator of the loosest
//! kind that stands outside all brackets.
use super::ast::{
    field_expr_view, spanset_view, FieldExpr, FieldExprView, FieldOp, FieldView, SpansetExpr,
    SpansetOp, SpansetView,
};
use super::lexer::{tokens_view, Token, TokenView};
use vstd::prelude::*;

verus! {

/// What a token adds to the number of open brackets.
pub open spec fn weight(t: TokenView) -> int {
    match t {
        TokenView::OpenBrace | TokenView::OpenParen => 1,
        TokenView::CloseBrace | TokenView::CloseParen => -1,
        _ => 0,
    }
}

/// How many brackets are open behind the first `k` tokens.
pub open spec fn depth(t: Seq<TokenView>, k: int) -> int
    decreases k,
{
    if k <= 0 {
        0
    } else {
        depth(t, k - 1) + weight(t[k - 1])
    }
}

/// How tightly an operator binds.
#[derive(Debug, Clone, Copy, PartialEq, Eq, Structural)]
pub enum Binding {
    /// `&&` and `||`.
    Loose,
    /// `>>` and `<<`.
    Tight,
}

/// Whether a token is an operator that binds so.
pub open spec fn binds(t: TokenView, b: Binding) -> bool {
    match b {
        Binding::Loose => t is And || t is Or,
        Binding::Tight => t is Descendant || t is Ancestor,
    }
}

/// Whether an operator outside all brackets stands at place `k`.
pub open spec fn splits(t: Seq<TokenView>, k: int, b: Binding) -> bool {
    0 <= k < t.len() && depth(t, k) == 0 && binds(t[k], b)
}

/// The last place among the first `n` where the tokens split; -1 where there is none.
pub open spec fn last_split(t: Seq<TokenView>, n: int, b: Binding) -> int
    decreases n,
{
    if n <= 0 {
        -1
    } else if splits(t, n - 1, b) {
        n - 1
    } else {
        last_split(t, n - 1, b)
    }
}

/// The last place where tokens split is one of their places.
pub proof fn last_split_is_within(t: Seq<TokenView>, n: int, b: Binding)
    requires
        n <= t.len(),
    ensures
        -1 <= last_split(t, n, b),
        last_split(t, n, b) >= 0 ==> last_split(t, n, b) < n,
        last_split(t, n, b) >= 0 ==> splits(t, last_split(t, n, b), b),
    decreases n,
{
    if n > 0 {
        last_split_is_within(t, n - 1, b);
    }
}

/// The tokens between the first and the last.
pub open spec fn inner(t: Seq<TokenView>) -> Seq<TokenView> {
    t.subrange(1, t.len() - 1)
}

/// Whether tokens stand between parentheses.
pub open spec fn in_parens(t: Seq<TokenView>) -> bool {
    t.len() >= 2 && t[0] is OpenParen && t.last() is CloseParen
}

/// Whether tokens stand between braces.
pub open spec fn in_braces(t: Seq<TokenView>) -> bool {
    t.len() >= 2 && t[0] is OpenBrace && t.last() is CloseBrace
}

/// Two field expressions with an operator between them.
pub open spec fn joined_fields(
    a: Option<FieldExprView>,
    op: TokenView,
    b: Option<FieldExprView>,
) -> Option<FieldExprView> {
    if a is Some && b is Some {
        Some(
            if op is And {
                FieldExprView::And(Box::new(a->0), Box::new(b->0))
            } else {
                FieldExprView::Or(Box::new(a->0), Box::new(b->0))
            },
        )
    } else {
        None
    }
}

/// The field expression that tokens are: two of them with `&&` or `||` between; one in
/// parentheses; a field; or two fields with a comparison between.
pub open spec fn field_expr(t: Seq<TokenView>) -> Option<FieldExprView>
    decreases t.len(),
{
    proof {
        last_split_is_within(t, t.len() as int, Binding::Loose);
    }
    let k = last_split(t, t.len() as int, Binding::Loose);
    if k >= 0 {
        joined_fields(field_expr(t.take(k)), t[k], field_expr(t.skip(k + 1)))
    } else if in_parens(t) {
        field_expr(inner(t))
    } else if t.len() == 1 && t[0] is Operand {
        Some(FieldExprView::Field(t[0]->Operand_0))
    } else if t.len() == 3 && t[0] is Operand && t[1] is Compare && t[2] is Operand {
        Some(
            FieldExprView::Cmp {
                lhs: t[0]->Operand_0,
                op: t[1]->Compare_0,
                rhs: t[2]->Operand_0,
            },
        )
    } else {
        None
    }
}

/// The spanset operator that a token is.
pub open spec fn spanset_op(t: TokenView) -> SpansetOp {
    match t {
        TokenView::And => SpansetOp::And,
        TokenView::Or => SpansetOp::Or,
        TokenView::Descendant => SpansetOp::Descendant,
        _ => SpansetOp::Ancestor,
    }
}

/// Two spansets with an operator between them.
pub open spec fn joined_spansets(
    a: Option<SpansetView>,
    op: TokenView,
    b: Option<SpansetView>,
) -> Option<SpansetView> {
    if a is Some && b is Some {
        Some(
            SpansetView::Op { lhs: Box::new(a->0), op: spanset_op(op), rhs: Box::new(b->0) },
        )
    } else {
        None
    }
}

/// The filter that the tokens between braces are.
pub open spec fn filter(t: Seq<TokenView>) -> Option<SpansetView> {
    if t.len() == 0 {
        Some(SpansetView::Filter(None))
    } else {
        match field_expr(t) {
            Some(e) => Some(SpansetView::Filter(Some(e))),
            None => None,
        }
    }
}

/// The spanset expression that tokens are: two of them with an operator between; one in
/// parentheses; or a filter in braces.
pub open spec fn spanset(t: Seq<TokenView>) -> Option<SpansetView>
    decreases t.len(),
{
    proof {
        last_split_is_within(t, t.len() as int, Binding::Loose);
        last_split_is_within(t, t.len() as int, Binding::Tight);
    }
    let loose = last_split(t, t.len() as int, Binding::Loose);
    let tight = last_split(t, t.len() as int, Binding::Tight);
    if loose >= 0 {
        joined_spansets(spanset(t.take(loose)), t[loose], spanset(t.skip(loose + 1)))
    } else if tight >= 0 {
        joined_spansets(spanset(t.take(tight)), t[tight], spanset(t.skip(tight + 1)))
    } else if in_parens(t) {
        spanset(inner(t))
    } else if in_braces(t) {
        filter(inner(t))
    } else {
        None
    }
}

/// The tokens of a part of a list.
pub open spec fn part(t: Seq<Token>, lo: int, hi: int) -> Seq<TokenView> {
    tokens_view(t).subrange(lo, hi)
}

fn find_last_split(t: &Vec<Token>, lo: usize, hi: usize, b: Binding) -> (r: Option<usize>)
    requires
        lo <= hi <= t@.len(),
    ensures
        ({
            let k = last_split(part(t@, lo as int, hi as int), hi - lo, b);
            match r {
                Some(at) => k >= 0 && at == lo + k && lo <= at < hi,
                None => k < 0,
            }
        }),
{
    let mut open: i128 = 0;
    let mut found: Option<usize> = None;
    let mut i: usize = lo;
    let ghost sub = part(t@, lo as int, hi as int);
    while i < hi
        invariant
            lo <= i <= hi <= t@.len(),
            sub == part(t@, lo as int, hi as int),
            -(i - lo) <= open <= i - lo,
            open == depth(sub, i - lo),
            match found {
                Some(at) => lo <= at < i && last_split(sub, i - lo, b) == at - lo,
                None => last_split(sub, i - lo, b) == -1,
            },
        decreases hi - i,
    {
        proof {
            assert(sub[i - lo] == t@[i as int]@);
        }
        let step: i128 = match &t[i] {
            Token::OpenBrace | Token::OpenParen => 1,
            Token::CloseBrace | Token::CloseParen => -1,
            _ => 0,
        };
        let operator = match b {
            Binding::Loose => matches!(&t[i], Token::And | Token::Or),
            Binding::Tight => matches!(&t[i], Token::Descendant | Token::Ancestor),
        };
        if open == 0 && operator {
            found = Some(i);
        }
        open = open + step;
        i = i + 1;
    }
    found
}

/// The value of an optional field expression.
pub open spec fn fields_of(e: Option<FieldExpr>) -> Option<FieldExprView> {
    match e {
        Some(x) => Some(field_expr_view(x)),
        None => None,
    }
}

/// The value of an optional spanset expression.
pub open spec fn spansets_of(e: Option<SpansetExpr>) -> Option<SpansetView> {
    match e {
        Some(x) => Some(spanset_view(x)),
        None => None,
    }
}

fn parse_fields(t: &Vec<Token>, lo: usize, hi: usize) -> (r: Option<FieldExpr>)
    requires
        lo <= hi <= t@.len(),
    ensures
        fields_of(r) == field_expr(part(t@, lo as int, hi as int)),
    decreases hi - lo,
{
    let ghost sub = part(t@, lo as int, hi as int);
    if let Some(k) = find_last_split(t, lo, hi, Binding::Loose) {
        proof {
            assert(sub.take(k - lo) =~= part(t@, lo as int, k as int));
            assert(sub.skip(k - lo + 1) =~= part(t@, k + 1, hi as int));
            assert(sub[k - lo] == t@[k as int]@);
        }
        let a = match parse_fields(t, lo, k) {
            Some(e) => e,
            None => return None,
        };
        let b = match parse_fields(t, k + 1, hi) {
            Some(e) => e,
            None => return None,
        };
        return match &t[k] {
            Token::And => Some(FieldExpr::And(Box::new(a), Box::new(b))),
            _ => Some(FieldExpr::Or(Box::new(a), Box::new(b))),
        };
    }
    let n: usize = hi - lo;
    proof {
        assert(sub.len() == n);
        assert forall|i: int| 0 <= i < n implies #[trigger] sub[i] == t@[lo + i]@ by {}
    }
    if n >= 2 && matches!(&t[lo], Token::OpenParen) && matches!(&t[hi - 1], Token::CloseParen) {
        proof {
            assert(inner(sub) =~= part(t@, lo + 1, hi - 1));
        }
        return parse_fields(t, lo + 1, hi - 1);
    }
    if n == 1 {
        if let Token::Operand(f) = &t[lo] {
            return Some(FieldExpr::Field(Box::new(f.copy())));
        }
    }
    if n == 3 {
        if let (Token::Operand(f), Token::Compare(op), Token::Operand(g)) = (
            &t[lo],
            &t[lo + 1],
            &t[lo + 2],
        ) {
            return Some(
                FieldExpr::Cmp { lhs: Box::new(f.copy()), op: *op, rhs: Box::new(g.copy()) },
            );
        }
    }
    None
}

fn parse_join(t: &Vec<Token>, lo: usize, k: usize, hi: usize) -> (r: Option<SpansetExpr>)
    requires
        lo <= k < hi <= t@.len(),
    ensures
        spansets_of(r) == joined_spansets(
            spanset(part(t@, lo as int, k as int)),
            t@[k as int]@,
            spanset(part(t@, k + 1, hi as int)),
        ),
    decreases hi - lo, 0int,
{
    let a = match parse_spansets(t, lo, k) {
        Some(e) => e,
        None => return None,
    };
    let b = match parse_spansets(t, k + 1, hi) {
        Some(e) => e,
        None => return None,
    };
    let op = match &t[k] {
        Token::And => SpansetOp::And,
        Token::Or => SpansetOp::Or,
        Token::Descendant => SpansetOp::Descendant,
        _ => SpansetOp::Ancestor,
    };
    Some(SpansetExpr::Op { lhs: Box::new(a), op, rhs: Box::new(b) })
}

fn parse_spansets(t: &Vec<Token>, lo: usize, hi: usize) -> (r: Option<SpansetExpr>)
    requires
        lo <= hi <= t@.len(),
    ensures
        spansets_of(r) == spanset(part(t@, lo as int, hi as int)),
    decreases hi - lo, 1int,
{
    let ghost sub = part(t@, lo as int, hi as int);
    let found = match find_last_split(t, lo, hi, Binding::Loose) {
        Some(k) => Some(k),
        None => find_last_split(t, lo, hi, Binding::Tight),
    };
    if let Some(k) = found {
        proof {
            assert(sub.take(k - lo) =~= part(t@, lo as int, k as int));
            assert(sub.skip(k - lo + 1) =~= part(t@, k + 1, hi as int));
            assert(sub[k - lo] == t@[k as int]@);
        }
        return parse_join(t, lo, k, hi);
    }
    if hi - lo >= 2 {
        proof {
            assert(sub[0] == t@[lo as int]@);
            assert(sub.last() == t@[hi - 1]@);
            assert(inner(sub) =~= part(t@, lo + 1, hi - 1));
        }
        if matches!(&t[lo], Token::OpenParen) && matches!(&t[hi - 1], Token::CloseParen) {
            return parse_spansets(t, lo + 1, hi - 1);
        }
        if matches!(&t[lo], Token::OpenBrace) && matches!(&t[hi - 1], Token::CloseBrace) {
            if hi - lo == 2 {
                return Some(SpansetExpr::Filter(None));
            }
            return match parse_fields(t, lo + 1, hi - 1) {
                Some(e) => Some(SpansetExpr::Filter(Some(e))),
                None => None,
            };
        }
    }
    None
}

/// The spanset expression that tokens are, if they are one.
pub fn expression(t: &Vec<Token>) -> (r: Option<SpansetExpr>)
    ensures
        spansets_of(r) == spanset(tokens_view(t@)),
{
    proof {
        assert(part(t@, 0, t@.len() as int) =~= tokens_view(t@));
    }
    parse_spansets(t, 0, t.len())
}

/// Tokens in parentheses.
pub open spec fn parens(t: Seq<TokenView>) -> Seq<TokenView> {
    seq![TokenView::OpenParen] + t + seq![TokenView::CloseParen]
}

/// Tokens in braces.
pub open spec fn braces(t: Seq<TokenView>) -> Seq<TokenView> {
    seq![TokenView::OpenBrace] + t + seq![TokenView::CloseBrace]
}

/// Two expressions, each in parentheses, with an operator between them.
pub open spec fn infix(a: Seq<TokenView>, op: TokenView, b: Seq<TokenView>) -> Seq<TokenView> {
    parens(a) + seq![op] + parens(b)
}

/// A field expression, written with all its parentheses.
pub open spec fn field_expr_tokens(e: FieldExprView) -> Seq<TokenView>
    decreases e,
{
    match e {
        FieldExprView::Cmp { lhs, op, rhs } => seq![
            TokenView::Operand(lhs),
            TokenView::Compare(op),
            TokenView::Operand(rhs),
        ],
        FieldExprView::And(a, b) => infix(
            field_expr_tokens(*a),
            TokenView::And,
            field_expr_tokens(*b),
        ),
        FieldExprView::Or(a, b) => infix(
            field_expr_tokens(*a),
            TokenView::Or,
            field_expr_tokens(*b),
        ),
        FieldExprView::Field(f) => seq![TokenView::Operand(f)],
    }
}

/// The token of a spanset operator.
pub open spec fn op_token(op: SpansetOp) -> TokenView {
    match op {
        SpansetOp::And => TokenView::And,
        SpansetOp::Or => TokenView::Or,
        SpansetOp::Descendant => TokenView::Descendant,
        SpansetOp::Ancestor => TokenView::Ancestor,
    }
}

/// A spanset expression, written with all its parentheses.
pub open spec fn spanset_tokens(e: SpansetView) -> Seq<TokenView>
    decreases e,
{
    match e {
        SpansetView::Filter(f) => match f {
            Some(fe) => braces(field_expr_tokens(fe)),
            None => braces(Seq::empty()),
        },
        SpansetView::Op { lhs, op, rhs } => infix(
            spanset_tokens(*lhs),
            op_token(op),
            spanset_tokens(*rhs),
        ),
    }
}

/// Whether every bracket of some tokens is closed, and none before it is opened.
pub open spec fn balanced(t: Seq<TokenView>) -> bool {
    depth(t, t.len() as int) == 0 && forall|k: int|
        0 <= k <= t.len() ==> #[trigger] depth(t, k) >= 0
}

proof fn depth_of_prefix(a: Seq<TokenView>, b: Seq<TokenView>, k: int)
    requires
        k <= a.len(),
    ensures
        depth(a + b, k) == depth(a, k),
    decreases k,
{
    if k > 0 {
        depth_of_prefix(a, b, k - 1);
    }
}

proof fn depth_of_suffix(a: Seq<TokenView>, b: Seq<TokenView>, k: int)
    requires
        0 <= k <= b.len(),
    ensures
        depth(a + b, a.len() + k) == depth(a, a.len() as int) + depth(b, k),
    decreases k,
{
    if k > 0 {
        depth_of_suffix(a, b, k - 1);
        assert((a + b)[a.len() + k - 1] == b[k - 1]);
    } else {
        depth_of_prefix(a, b, a.len() as int);
    }
}

/// Between brackets, every place but the outermost two has a bracket open before it.
proof fn bracketed(open: TokenView, t: Seq<TokenView>, close: TokenView, k: int)
    requires
        weight(open) == 1,
        weight(close) == -1,
        balanced(t),
        0 <= k <= t.len() + 2,
    ensures
        ({
            let s = seq![open] + t + seq![close];
            &&& 1 <= k <= t.len() + 1 ==> depth(s, k) == 1 + depth(t, k - 1) && depth(s, k) >= 1
            &&& k == t.len() + 2 ==> depth(s, k) == 0
            &&& k == 0 ==> depth(s, k) == 0
        }),
    decreases k,
{
    let head = seq![open] + t;
    let s = head + seq![close];
    if 1 <= k <= t.len() + 1 {
        depth_of_prefix(head, seq![close], k);
        depth_of_suffix(seq![open], t, k - 1);
        assert(depth(seq![open], 1) == depth(seq![open], 0) + weight(open));
    } else if k == t.len() + 2 {
        bracketed(open, t, close, k - 1);
        assert(s[k - 1] == close);
    }
}

proof fn bracketed_is_balanced(open: TokenView, t: Seq<TokenView>, close: TokenView)
    requires
        weight(open) == 1,
        weight(close) == -1,
        balanced(t),
    ensures
        balanced(seq![open] + t + seq![close]),
        forall|k: int, b: Binding| !#[trigger] splits(seq![open] + t + seq![close], k, b),
{
    let s = seq![open] + t + seq![close];
    assert forall|k: int| 0 <= k <= s.len() implies #[trigger] depth(s, k) >= 0 by {
        bracketed(open, t, close, k);
    }
    bracketed(open, t, close, s.len() as int);
    assert forall|k: int, b: Binding| !#[trigger] splits(s, k, b) by {
        if 0 <= k < s.len() {
            bracketed(open, t, close, k);
            assert(s[0] == open);
        }
    }
}

proof fn infix_splits_once(a: Seq<TokenView>, op: TokenView, b: Seq<TokenView>, k: int)
    requires
        balanced(a),
        balanced(b),
        weight(op) == 0,
        0 <= k <= a.len() + b.len() + 5,
    ensures
        depth(infix(a, op, b), k) >= 0,
        k == a.len() + b.len() + 5 ==> depth(infix(a, op, b), k) == 0,
        k == a.len() + 2 ==> depth(infix(a, op, b), k) == 0 && infix(a, op, b)[k] == op,
        forall|g: Binding| #[trigger]
            splits(infix(a, op, b), k, g) <==> k == a.len() + 2 && binds(op, g),
{
    let left = parens(a);
    let right = parens(b);
    let mid = left + seq![op];
    let t = infix(a, op, b);
    let open = TokenView::OpenParen;
    let close = TokenView::CloseParen;
    bracketed_is_balanced(open, a, close);
    bracketed_is_balanced(open, b, close);
    assert(t =~= left + (seq![op] + right));
    assert(t =~= mid + right);
    depth_of_prefix(left, seq![op], left.len() as int);
    assert(mid[left.len() as int] == op);
    assert(depth(mid, mid.len() as int) == 0);
    if k <= left.len() {
        depth_of_prefix(left, seq![op] + right, k);
        if k < left.len() {
            assert(t[k] == left[k]);
            assert forall|g: Binding| !#[trigger] splits(t, k, g) by {
                assert(!splits(left, k, g));
            }
        }
    } else {
        depth_of_suffix(mid, right, k - mid.len());
        if k < t.len() {
            assert(t[k] == right[k - mid.len()]);
            assert forall|g: Binding| !#[trigger] splits(t, k, g) by {
                assert(!splits(right, k - mid.len(), g));
            }
        }
    }
}

proof fn split_is_last(t: Seq<TokenView>, n: int, g: Binding, k: int)
    requires
        n <= t.len(),
        forall|i: int| 0 <= i < n ==> (#[trigger] splits(t, i, g) <==> i == k),
    ensures
        last_split(t, n, g) == if 0 <= k < n {
            k
        } else {
            -1
        },
    decreases n,
{
    if n > 0 {
        assert(splits(t, n - 1, g) <==> n - 1 == k);
        split_is_last(t, n - 1, g, k);
    }
}

/// Where the operator of two expressions in parentheses stands.
spec fn op_place(a: Seq<TokenView>) -> int {
    a.len() as int + 2
}

/// Where two expressions in parentheses split.
spec fn split_place(a: Seq<TokenView>, op: TokenView, g: Binding) -> int {
    if binds(op, g) {
        op_place(a)
    } else {
        -1
    }
}

proof fn infix_parts(a: Seq<TokenView>, op: TokenView, b: Seq<TokenView>)
    requires
        balanced(a),
        balanced(b),
        weight(op) == 0,
    ensures
        balanced(infix(a, op, b)),
        infix(a, op, b)[op_place(a)] == op,
        infix(a, op, b).take(op_place(a)) == parens(a),
        infix(a, op, b).skip(op_place(a) + 1) == parens(b),
        forall|g: Binding| #[trigger]
            last_split(infix(a, op, b), infix(a, op, b).len() as int, g) == split_place(a, op, g),
{
    let t = infix(a, op, b);
    assert(t.len() == a.len() + b.len() + 5);
    assert forall|k: int| 0 <= k <= t.len() implies #[trigger] depth(t, k) >= 0 by {
        infix_splits_once(a, op, b, k);
    }
    infix_splits_once(a, op, b, t.len() as int);
    infix_splits_once(a, op, b, op_place(a));
    assert(t.take(op_place(a)) =~= parens(a));
    assert(t.skip(op_place(a) + 1) =~= parens(b));
    assert forall|g: Binding| #[trigger]
        last_split(t, t.len() as int, g) == split_place(a, op, g) by {
        let at = split_place(a, op, g);
        assert forall|i: int| 0 <= i < t.len() implies (#[trigger] splits(t, i, g) <==> i == at) by {
            infix_splits_once(a, op, b, i);
        }
        split_is_last(t, t.len() as int, g, at);
    }
}

proof fn bracketed_parts(open: TokenView, t: Seq<TokenView>, close: TokenView)
    requires
        weight(open) == 1,
        weight(close) == -1,
        balanced(t),
    ensures
        balanced(seq![open] + t + seq![close]),
        inner(seq![open] + t + seq![close]) == t,
        forall|g: Binding| #[trigger]
            last_split(
                seq![open] + t + seq![close],
                (seq![open] + t + seq![close]).len() as int,
                g,
            ) == -1,
{
    let s = seq![open] + t + seq![close];
    bracketed_is_balanced(open, t, close);
    assert(inner(s) =~= t);
    assert forall|g: Binding| #[trigger] last_split(s, s.len() as int, g) == -1 by {
        split_is_last(s, s.len() as int, g, -1);
    }
}

/// A field expression that is written with all its parentheses is read as itself.
pub proof fn written_fields_are_read_back(e: FieldExprView)
    ensures
        field_expr(field_expr_tokens(e)) == Some(e),
        balanced(field_expr_tokens(e)),
        field_expr_tokens(e).len() > 0,
    decreases e,
{
    let t = field_expr_tokens(e);
    match e {
        FieldExprView::Cmp { .. } => {
            assert(depth(t, 0) == 0);
            assert(depth(t, 1) == 0);
            assert(depth(t, 2) == 0);
            assert(depth(t, 3) == 0);
            split_is_last(t, 3, Binding::Loose, -1);
        },
        FieldExprView::Field(_) => {
            assert(depth(t, 0) == 0);
            assert(depth(t, 1) == 0);
            split_is_last(t, 1, Binding::Loose, -1);
        },
        FieldExprView::And(a, b) => {
            written_fields_are_read_back(*a);
            written_fields_are_read_back(*b);
            joined_fields_are_read_back(*a, TokenView::And, *b);
        },
        FieldExprView::Or(a, b) => {
            written_fields_are_read_back(*a);
            written_fields_are_read_back(*b);
            joined_fields_are_read_back(*a, TokenView::Or, *b);
        },
    }
}

proof fn joined_fields_are_read_back(a: FieldExprView, op: TokenView, b: FieldExprView)
    requires
        op is And || op is Or,
        field_expr(field_expr_tokens(a)) == Some(a),
        field_expr(field_expr_tokens(b)) == Some(b),
        balanced(field_expr_tokens(a)),
        balanced(field_expr_tokens(b)),
    ensures
        field_expr(infix(field_expr_tokens(a), op, field_expr_tokens(b))) == joined_fields(
            Some(a),
            op,
            Some(b),
        ),
        balanced(infix(field_expr_tokens(a), op, field_expr_tokens(b))),
{
    let x = field_expr_tokens(a);
    let y = field_expr_tokens(b);
    let t = infix(x, op, y);
    infix_parts(x, op, y);
    bracketed_parts(TokenView::OpenParen, x, TokenView::CloseParen);
    bracketed_parts(TokenView::OpenParen, y, TokenView::CloseParen);
    assert(last_split(t, t.len() as int, Binding::Loose) == x.len() + 2);
    assert(last_split(parens(x), parens(x).len() as int, Binding::Loose) == -1);
    assert(last_split(parens(y), parens(y).len() as int, Binding::Loose) == -1);
    assert(field_expr(parens(x)) == Some(a));
    assert(field_expr(parens(y)) == Some(b));
}

/// A spanset expression that is written with all its parentheses is read as itself: so
/// every expression can be asked for, and reading undoes writing.
pub proof fn written_spansets_are_read_back(e: SpansetView)
    ensures
        spanset(spanset_tokens(e)) == Some(e),
        balanced(spanset_tokens(e)),
    decreases e,
{
    let t = spanset_tokens(e);
    match e {
        SpansetView::Filter(f) => {
            let body = match f {
                Some(fe) => field_expr_tokens(fe),
                None => Seq::empty(),
            };
            if let Some(fe) = f {
                written_fields_are_read_back(fe);
            }
            assert(balanced(body));
            assert(t == braces(body));
            bracketed_parts(TokenView::OpenBrace, body, TokenView::CloseBrace);
            assert(last_split(t, t.len() as int, Binding::Loose) == -1);
            assert(last_split(t, t.len() as int, Binding::Tight) == -1);
            assert(in_braces(t));
            assert(!in_parens(t));
            assert(filter(body) == Some(e));
        },
        SpansetView::Op { lhs, op, rhs } => {
            written_spansets_are_read_back(*lhs);
            written_spansets_are_read_back(*rhs);
            let x = spanset_tokens(*lhs);
            let y = spanset_tokens(*rhs);
            infix_parts(x, op_token(op), y);
            bracketed_parts(TokenView::OpenParen, x, TokenView::CloseParen);
            bracketed_parts(TokenView::OpenParen, y, TokenView::CloseParen);
            assert(last_split(parens(x), parens(x).len() as int, Binding::Loose) == -1);
            assert(last_split(parens(x), parens(x).len() as int, Binding::Tight) == -1);
            assert(last_split(parens(y), parens(y).len() as int, Binding::Loose) == -1);
            assert(last_split(parens(y), parens(y).len() as int, Binding::Tight) == -1);
            assert(spanset(parens(x)) == Some(*lhs));
            assert(spanset(parens(y)) == Some(*rhs));
            assert(last_split(t, t.len() as int, Binding::Loose) == split_place(x, op_token(op), Binding::Loose));
            assert(last_split(t, t.len() as int, Binding::Tight) == split_place(x, op_token(op), Binding::Tight));
            assert(spanset_op(op_token(op)) == op);
        },
    }
}

/// Whether tokens hold together: their brackets are closed, and no operator stands
/// outside them.
pub open spec fn is_unit(t: Seq<TokenView>) -> bool {
    balanced(t) && forall|k: int, g: Binding| !#[trigger] splits(t, k, g)
}

/// Whether a token is a spanset operator.
pub open spec fn is_operator(t: TokenView) -> bool {
    binds(t, Binding::Loose) || binds(t, Binding::Tight)
}

/// Two units with an operator between them.
pub open spec fn between(x: Seq<TokenView>, o: TokenView, y: Seq<TokenView>) -> Seq<TokenView> {
    x + seq![o] + y
}

proof fn unit_then(x: Seq<TokenView>, o: TokenView, rest: Seq<TokenView>, k: int, g: Binding)
    requires
        is_unit(x),
        is_operator(o),
        0 <= k <= x.len() + 1 + rest.len(),
    ensures
        splits(between(x, o, rest), k, g) <==> (k == x.len() && binds(o, g)) || (k > x.len()
            && splits(rest, k - x.len() - 1, g)),
        k > x.len() ==> depth(between(x, o, rest), k) == depth(rest, k - x.len() - 1),
        k <= x.len() ==> depth(between(x, o, rest), k) == depth(x, k),
{
    let head = x + seq![o];
    let t = head + rest;
    assert(t =~= x + (seq![o] + rest));
    depth_of_prefix(x, seq![o], x.len() as int);
    assert(head[x.len() as int] == o);
    assert(depth(head, head.len() as int) == 0);
    if k <= x.len() {
        depth_of_prefix(x, seq![o] + rest, k);
        if k < x.len() {
            assert(t[k] == x[k]);
            assert(!splits(x, k, g));
        } else {
            assert(t[k] == o);
        }
    } else {
        depth_of_suffix(head, rest, k - head.len());
        if k < t.len() {
            assert(t[k] == rest[k - head.len()]);
        }
    }
}

proof fn last_split_at(t: Seq<TokenView>, n: int, g: Binding, k: int)
    requires
        0 <= n <= t.len(),
        k < n,
        k >= 0 ==> splits(t, k, g),
        forall|i: int| k < i < n ==> !#[trigger] splits(t, i, g),
    ensures
        last_split(t, n, g) == if k >= 0 {
            k
        } else {
            -1
        },
    decreases n,
{
    if n > 0 && n - 1 != k {
        assert(!splits(t, n - 1, g));
        last_split_at(t, n - 1, g, k);
    }
}

proof fn pair_is_joined(x: Seq<TokenView>, o: TokenView, y: Seq<TokenView>)
    requires
        is_unit(x),
        is_unit(y),
        is_operator(o),
    ensures
        spanset(between(x, o, y)) == joined_spansets(spanset(x), o, spanset(y)),
{
    let t = between(x, o, y);
    let n = t.len() as int;
    let at = x.len() as int;
    assert forall|i: int, g: Binding| 0 <= i < n implies (#[trigger] splits(t, i, g) <==> i == at
        && binds(o, g)) by {
        unit_then(x, o, y, i, g);
    }
    assert(t[at] == o);
    assert(t.take(at) =~= x);
    assert(t.skip(at + 1) =~= y);
    if binds(o, Binding::Loose) {
        assert(splits(t, at, Binding::Loose));
        last_split_at(t, n, Binding::Loose, at);
    } else {
        assert(splits(t, at, Binding::Tight));
        last_split_at(t, n, Binding::Loose, -1);
        last_split_at(t, n, Binding::Tight, at);
    }
}

/// `>>` and `<<` bind tighter than `&&` and `||`; else operators group to the left.
pub proof fn operators_group_by_binding(
    x: Seq<TokenView>,
    o: TokenView,
    y: Seq<TokenView>,
    p: TokenView,
    z: Seq<TokenView>,
)
    requires
        is_unit(x),
        is_unit(y),
        is_unit(z),
        is_operator(o),
        is_operator(p),
    ensures
        binds(o, Binding::Loose) && binds(p, Binding::Tight) ==> spanset(
            between(x, o, between(y, p, z)),
        ) == joined_spansets(spanset(x), o, joined_spansets(spanset(y), p, spanset(z))),
        binds(o, Binding::Tight) || binds(p, Binding::Loose) ==> spanset(
            between(x, o, between(y, p, z)),
        ) == joined_spansets(joined_spansets(spanset(x), o, spanset(y)), p, spanset(z)),
{
    let rest = between(y, p, z);
    let t = between(x, o, rest);
    let n = t.len() as int;
    let first = x.len() as int;
    let second = first + 1 + y.len();
    assert forall|i: int, g: Binding| 0 <= i < n implies (#[trigger] splits(t, i, g) <==> (i
        == first && binds(o, g)) || (i == second && binds(p, g))) by {
        unit_then(x, o, rest, i, g);
        if i > first {
            unit_then(y, p, z, i - first - 1, g);
        }
    }
    assert(t[first] == o);
    assert(t[second] == p);
    assert(t.take(first) =~= x);
    assert(t.skip(first + 1) =~= rest);
    assert(t.take(second) =~= between(x, o, y));
    assert(t.skip(second + 1) =~= z);
    pair_is_joined(x, o, y);
    pair_is_joined(y, p, z);
    if binds(o, Binding::Loose) && binds(p, Binding::Tight) {
        assert(splits(t, first, Binding::Loose));
        last_split_at(t, n, Binding::Loose, first);
    } else if binds(p, Binding::Loose) {
        assert(splits(t, second, Binding::Loose));
        last_split_at(t, n, Binding::Loose, second);
    } else {
        assert(splits(t, second, Binding::Tight));
        last_split_at(t, n, Binding::Loose, -1);
        last_split_at(t, n, Binding::Tight, second);
    }
}

/// A filter in braces is a unit.
pub proof fn filters_are_units(t: Seq<TokenView>)
    requires
        balanced(t),
    ensures
        is_unit(braces(t)),
{
    bracketed_is_balanced(TokenView::OpenBrace, t, TokenView::CloseBrace);
}

/// Two spansets with an operator between them are that operator between them, the left one
/// on the left.
pub proof fn spansets_are_joined(
    x: Seq<TokenView>,
    y: Seq<TokenView>,
    a: SpansetView,
    b: SpansetView,
)
    requires
        is_unit(x),
        is_unit(y),
        spanset(x) == Some(a),
        spanset(y) == Some(b),
    ensures
        spanset(x + seq![TokenView::And] + y) == Some(
            SpansetView::Op { lhs: Box::new(a), op: SpansetOp::And, rhs: Box::new(b) },
        ),
        spanset(x + seq![TokenView::Or] + y) == Some(
            SpansetView::Op { lhs: Box::new(a), op: SpansetOp::Or, rhs: Box::new(b) },
        ),
        spanset(x + seq![TokenView::Descendant] + y) == Some(
            SpansetView::Op { lhs: Box::new(a), op: SpansetOp::Descendant, rhs: Box::new(b) },
        ),
        spanset(x + seq![TokenView::Ancestor] + y) == Some(
            SpansetView::Op { lhs: Box::new(a), op: SpansetOp::Ancestor, rhs: Box::new(b) },
        ),
{
    pair_is_joined(x, TokenView::And, y);
    pair_is_joined(x, TokenView::Or, y);
    pair_is_joined(x, TokenView::Descendant, y);
    pair_is_joined(x, TokenView::Ancestor, y);
}

/// `x && y >> z` is `x && (y >> z)`, and `x >> y && z` is `(x >> y) && z`; `x && y || z` is
/// `(x && y) || z`, and `x || y && z` is `(x || y) && z`.
pub proof fn structure_binds_tighter_than_logic(
    x: Seq<TokenView>,
    y: Seq<TokenView>,
    z: Seq<TokenView>,
    a: SpansetView,
    b: SpansetView,
    c: SpansetView,
)
    requires
        is_unit(x),
        is_unit(y),
        is_unit(z),
        spanset(x) == Some(a),
        spanset(y) == Some(b),
        spanset(z) == Some(c),
    ensures
        spanset(x + seq![TokenView::And] + (y + seq![TokenView::Descendant] + z)) == Some(
            SpansetView::Op {
                lhs: Box::new(a),
                op: SpansetOp::And,
                rhs: Box::new(
                    SpansetView::Op {
                        lhs: Box::new(b),
                        op: SpansetOp::Descendant,
                        rhs: Box::new(c),
                    },
                ),
            },
        ),
        spanset(x + seq![TokenView::Descendant] + (y + seq![TokenView::And] + z)) == Some(
            SpansetView::Op {
                lhs: Box::new(
                    SpansetView::Op {
                        lhs: Box::new(a),
                        op: SpansetOp::Descendant,
                        rhs: Box::new(b),
                    },
                ),
                op: SpansetOp::And,
                rhs: Box::new(c),
            },
        ),
        spanset(x + seq![TokenView::And] + (y + seq![TokenView::Or] + z)) == Some(
            SpansetView::Op {
                lhs: Box::new(
                    SpansetView::Op { lhs: Box::new(a), op: SpansetOp::And, rhs: Box::new(b) },
                ),
                op: SpansetOp::Or,
                rhs: Box::new(c),
            },
        ),
        spanset(x + seq![TokenView::Or] + (y + seq![TokenView::And] + z)) == Some(
            SpansetView::Op {
                lhs: Box::new(
                    SpansetView::Op { lhs: Box::new(a), op: SpansetOp::Or, rhs: Box::new(b) },
                ),
                op: SpansetOp::And,
                rhs: Box::new(c),
            },
        ),
{
    operators_group_by_binding(x, TokenView::And, y, TokenView::Descendant, z);
    operators_group_by_binding(x, TokenView::Descendant, y, TokenView::And, z);
    operators_group_by_binding(x, TokenView::And, y, TokenView::Or, z);
    operators_group_by_binding(x, TokenView::Or, y, TokenView::And, z);
}

/// A comparison of two fields, and two comparisons with `&&` or `||` between them, are read
/// as that.
pub proof fn comparisons_are_joined(
    f: FieldView,
    op: FieldOp,
    g: FieldView,
    h: FieldView,
    oq: FieldOp,
    k: FieldView,
)
    ensures
        ({
            let x = seq![TokenView::Operand(f), TokenView::Compare(op), TokenView::Operand(g)];
            let y = seq![TokenView::Operand(h), TokenView::Compare(oq), TokenView::Operand(k)];
            let a = FieldExprView::Cmp { lhs: f, op, rhs: g };
            let b = FieldExprView::Cmp { lhs: h, op: oq, rhs: k };
            &&& field_expr(x) == Some(a)
            &&& field_expr(x + seq![TokenView::And] + y) == Some(
                FieldExprView::And(Box::new(a), Box::new(b)),
            )
            &&& field_expr(x + seq![TokenView::Or] + y) == Some(
                FieldExprView::Or(Box::new(a), Box::new(b)),
            )
        }),
{
    let x = seq![TokenView::Operand(f), TokenView::Compare(op), TokenView::Operand(g)];
    let y = seq![TokenView::Operand(h), TokenView::Compare(oq), TokenView::Operand(k)];
    comparisons_are_units(f, op, g);
    comparisons_are_units(h, oq, k);
    assert forall|o: TokenView| o is And || o is Or implies field_expr(
        x + seq![o] + y,
    ) == joined_fields(field_expr(x), o, field_expr(y)) by {
        let t = between(x, o, y);
        let n = t.len() as int;
        assert forall|i: int, g: Binding| 0 <= i < n implies (#[trigger] splits(t, i, g) <==> i == 3
            && binds(o, g)) by {
            unit_then(x, o, y, i, g);
        }
        assert(splits(t, 3, Binding::Loose));
        last_split_at(t, n, Binding::Loose, 3);
        assert(t.take(3) =~= x);
        assert(t.skip(4) =~= y);
    }
    assert(field_expr(x + seq![TokenView::And] + y) == joined_fields(
        field_expr(x),
        TokenView::And,
        field_expr(y),
    ));
    assert(field_expr(x + seq![TokenView::Or] + y) == joined_fields(
        field_expr(x),
        TokenView::Or,
        field_expr(y),
    ));
}

proof fn comparisons_are_units(f: FieldView, op: FieldOp, g: FieldView)
    ensures
        ({
            let x = seq![TokenView::Operand(f), TokenView::Compare(op), TokenView::Operand(g)];
            is_unit(x) && field_expr(x) == Some(FieldExprView::Cmp { lhs: f, op, rhs: g })
        }),
{
    let x = seq![TokenView::Operand(f), TokenView::Compare(op), TokenView::Operand(g)];
    assert(depth(x, 0) == 0);
    assert(depth(x, 1) == 0);
    assert(depth(x, 2) == 0);
    assert(depth(x, 3) == 0);
    assert forall|k: int, b: Binding| !#[trigger] splits(x, k, b) by {
        if 0 <= k < 3 {
            assert(x[0] is Operand && x[1] is Compare && x[2] is Operand);
        }
    }
    split_is_last(x, 3, Binding::Loose, -1);
}

} // verus!
