//! What a PromQL expression asks for: the shapes that are recognised in it, and
//! the capability that it needs of a rollup tier.
use crate::labels::{KindView, MatchKind};
use crate::number::{count_of_bits, whole_count};
use crate::promql::{BinaryModifier, Grouping, PromExpr, Selector};
use crate::selector::{
    before_suffix, matcher_tests, stem, tests_of, tests_view, LabelTest, TestView,
};
use crate::text::{copied, ends_with, in_list, listed, owned, str_eq, texts, texts_push};
use crate::windows::{
    anchored, instant_anchor, resolve_metric_windows, source_windows, windows_view, Capability,
    MetricWindow,
};
use vstd::prelude::*;

verus! {

/// A range in nanoseconds, capped at the greatest signed number.
pub open spec fn capped_ns(range: u128) -> int {
    if range > i64::MAX {
        i64::MAX as int
    } else {
        range as int
    }
}

/// A range in nanoseconds, capped at the greatest signed number.
pub fn range_to_ns(range: u128) -> (r: i64)
    ensures
        r == capped_ns(range),
{
    if range > i64::MAX as u128 {
        i64::MAX
    } else {
        range as i64
    }
}

/// An aggregation operator that can be computed.
#[derive(Debug, Clone, Copy, PartialEq, Eq, Structural)]
pub enum AggKind {
    Sum,
    Max,
    Min,
    Avg,
    Count,
}

/// The aggregation operator with the given keyword.
pub open spec fn agg_kind(op: Seq<char>) -> Option<AggKind> {
    if op == "sum"@ {
        Some(AggKind::Sum)
    } else if op == "max"@ {
        Some(AggKind::Max)
    } else if op == "min"@ {
        Some(AggKind::Min)
    } else if op == "avg"@ {
        Some(AggKind::Avg)
    } else if op == "count"@ {
        Some(AggKind::Count)
    } else {
        None
    }
}

/// What is said of an aggregation operator that cannot be computed.
pub open spec fn unsupported_aggregation() -> Seq<char> {
    "unsupported aggregation operator (instant: sum/max/min/avg/count)"@
}

/// The aggregation operator with the given keyword.
pub fn agg_name(op: &str) -> (r: Result<AggKind, String>)
    ensures
        r is Ok <==> agg_kind(op@) is Some,
        r matches Ok(k) ==> agg_kind(op@) == Some(k),
        r matches Err(m) ==> m@ == unsupported_aggregation(),
{
    if str_eq(op, "sum") {
        Ok(AggKind::Sum)
    } else if str_eq(op, "max") {
        Ok(AggKind::Max)
    } else if str_eq(op, "min") {
        Ok(AggKind::Min)
    } else if str_eq(op, "avg") {
        Ok(AggKind::Avg)
    } else if str_eq(op, "count") {
        Ok(AggKind::Count)
    } else {
        Err(owned("unsupported aggregation operator (instant: sum/max/min/avg/count)"))
    }
}

/// The labels that an aggregation keeps: those it lists, all but those it lists,
/// or none where it lists nothing.
pub open spec fn grouping_view(g: Option<Grouping>) -> KindView {
    match g {
        Some(Grouping::Include(l)) => KindView::On(texts(l@)),
        Some(Grouping::Exclude(l)) => KindView::Ignoring(texts(l@)),
        None => KindView::On(Seq::empty()),
    }
}

/// The labels that an aggregation keeps.
pub fn agg_grouping(g: &Option<Grouping>) -> (r: MatchKind)
    ensures
        r@ == grouping_view(*g),
{
    match g {
        Some(Grouping::Include(l)) => MatchKind::On(copied(l)),
        Some(Grouping::Exclude(l)) => MatchKind::Ignoring(copied(l)),
        None => {
            let none: Vec<String> = Vec::new();
            assert(texts(none@) =~= Seq::<Seq<char>>::empty());
            MatchKind::On(none)
        },
    }
}

/// Why a count parameter is refused.
#[derive(Debug, Clone, Copy, PartialEq, Eq, Structural)]
pub enum CountError {
    /// A number that is not a whole number in range.
    NotAnInteger,
    /// Not a number.
    NotAScalar,
}

/// The count that a parameter stands for: only an integer literal is one, and
/// nothing is truncated.
pub open spec fn count_param(e: PromExpr) -> Result<int, CountError> {
    match e {
        PromExpr::Number(bits) => match whole_count(bits) {
            Some(n) => Ok(n),
            None => Err(CountError::NotAnInteger),
        },
        _ => Err(CountError::NotAScalar),
    }
}

/// The count parameter of `topk`/`bottomk`.
pub fn as_count(expr: &PromExpr) -> (r: Result<i64, CountError>)
    ensures
        match r {
            Ok(n) => count_param(*expr) == Ok::<int, CountError>(n as int),
            Err(e) => count_param(*expr) == Err::<int, CountError>(e),
        },
{
    match expr {
        PromExpr::Number(bits) => match count_of_bits(*bits) {
            Some(n) => Ok(n),
            None => Err(CountError::NotAnInteger),
        },
        _ => Err(CountError::NotAScalar),
    }
}

/// Whether the keyword selects series by rank.
pub open spec fn is_rank_op(op: Seq<char>) -> bool {
    op == "topk"@ || op == "bottomk"@
}

fn ranks(op: &str) -> (r: bool)
    ensures
        r == is_rank_op(op@),
{
    str_eq(op, "topk") || str_eq(op, "bottomk")
}

/// The count of a `topk`/`bottomk`, where its parameter is one.
pub open spec fn rank_count(op: Seq<char>, param: Option<Box<PromExpr>>) -> Option<int> {
    if is_rank_op(op) {
        match param {
            Some(p) => match count_param(*p) {
                Ok(n) => Some(n),
                Err(_) => None,
            },
            None => None,
        }
    } else {
        None
    }
}

fn rank_param(op: &str, param: &Option<Box<PromExpr>>) -> (r: Option<i64>)
    ensures
        r is Some <==> rank_count(op@, *param) is Some,
        r matches Some(n) ==> rank_count(op@, *param) == Some(n as int),
{
    if !ranks(op) {
        return None;
    }
    match param {
        Some(p) => match as_count(p) {
            Ok(n) => Some(n),
            Err(_) => None,
        },
        None => None,
    }
}

/// `topk(n, inner)` / `bottomk(n, inner)` as `(n, whether it is topk, inner)`.
pub open spec fn rank_of(e: PromExpr) -> Option<(int, bool, PromExpr)>
    decreases e,
{
    match e {
        PromExpr::Paren(p) => rank_of(*p),
        PromExpr::Aggregate { op, expr, param, grouping } => match rank_count(op@, param) {
            Some(n) => Some((n, op@ == "topk"@, *expr)),
            None => None,
        },
        _ => None,
    }
}

/// If `expr` is `topk(n, inner)` / `bottomk(n, inner)`, the count, whether it is
/// `topk`, and the inner expression.
pub fn topk_parts(expr: &PromExpr) -> (r: Option<(i64, bool, &PromExpr)>)
    ensures
        r is Some <==> rank_of(*expr) is Some,
        r matches Some(t) ==> rank_of(*expr) == Some((t.0 as int, t.1, *t.2)),
    decreases expr,
{
    match expr {
        PromExpr::Paren(p) => topk_parts(p),
        PromExpr::Aggregate { op, expr: inner, param, grouping: _ } => {
            match rank_param(op.as_str(), param) {
                Some(n) => Some((n, str_eq(op.as_str(), "topk"), inner)),
                None => None,
            }
        },
        _ => None,
    }
}

/// The labels without `le`, in their order.
pub open spec fn without_le(l: Seq<Seq<char>>) -> Seq<Seq<char>>
    decreases l.len(),
{
    if l.len() == 0 {
        Seq::empty()
    } else if l.last() == "le"@ {
        without_le(l.drop_last())
    } else {
        without_le(l.drop_last()).push(l.last())
    }
}

fn drop_le(labels: &Vec<String>) -> (r: Vec<String>)
    ensures
        texts(r@) == without_le(texts(labels@)),
{
    let mut out: Vec<String> = Vec::new();
    let ghost all = texts(labels@);
    let mut i: usize = 0;
    while i < labels.len()
        invariant
            all == texts(labels@),
            i <= labels@.len(),
            texts(out@) == without_le(all.take(i as int)),
        decreases labels.len() - i,
    {
        let ghost before = out@;
        proof {
            assert(all.take(i + 1).drop_last() =~= all.take(i as int));
            assert(all.take(i + 1).last() == labels@[i as int]@);
        }
        if !str_eq(labels[i].as_str(), "le") {
            out.push(owned(labels[i].as_str()));
            proof {
                texts_push(before, out@.last());
            }
        }
        i = i + 1;
    }
    assert(all.take(labels@.len() as int) =~= all);
    out
}

/// The labels that `by (…)` lists; none without it.
pub open spec fn by_labels(g: Option<Grouping>) -> Seq<Seq<char>> {
    match g {
        Some(Grouping::Include(l)) => texts(l@),
        _ => Seq::empty(),
    }
}

/// The histogram selector under an expression, with the labels of its outermost
/// `by (…)` but `le`.
pub open spec fn hist_base(e: PromExpr) -> Option<(Selector, Seq<Seq<char>>)>
    decreases e,
{
    match e {
        PromExpr::Paren(p) => hist_base(*p),
        PromExpr::Aggregate { op, expr, param, grouping } => match hist_base(*expr) {
            Some(found) => Some((found.0, without_le(by_labels(grouping)))),
            None => None,
        },
        PromExpr::Call { name, args } => if args@.len() > 0 {
            hist_base(args@[0])
        } else {
            None
        },
        PromExpr::Matrix(s, _) => Some((s, Seq::empty())),
        PromExpr::Vector(s) => Some((s, Seq::empty())),
        _ => None,
    }
}

/// Find the underlying histogram selector + `by(...)` labels (minus `le`).
pub fn find_hist_base(expr: &PromExpr) -> (r: Option<(&Selector, Vec<String>)>)
    ensures
        r is Some <==> hist_base(*expr) is Some,
        r matches Some(t) ==> hist_base(*expr) == Some((*t.0, texts(t.1@))),
    decreases expr,
{
    match expr {
        PromExpr::Paren(p) => find_hist_base(p),
        PromExpr::Aggregate { op: _, expr: inner, param: _, grouping } => {
            let by = match grouping {
                Some(Grouping::Include(l)) => drop_le(l),
                _ => {
                    let none: Vec<String> = Vec::new();
                    assert(texts(none@) =~= without_le(Seq::empty()));
                    none
                },
            };
            match find_hist_base(inner) {
                Some(found) => Some((found.0, by)),
                None => None,
            }
        },
        PromExpr::Call { name: _, args } => if args.len() > 0 {
            find_hist_base(&args[0])
        } else {
            None
        },
        PromExpr::Matrix(s, _) => {
            let none: Vec<String> = Vec::new();
            assert(texts(none@) =~= Seq::<Seq<char>>::empty());
            Some((s, none))
        },
        PromExpr::Vector(s) => {
            let none: Vec<String> = Vec::new();
            assert(texts(none@) =~= Seq::<Seq<char>>::empty());
            Some((s, none))
        },
        _ => None,
    }
}

/// A recognised classic-histogram quantile query.
#[derive(Debug)]
pub struct HistSpec {
    /// The quantile, as the bits of a double.
    pub phi: u64,
    /// The normalized base name, without `_bucket`.
    pub base: String,
    /// The tests on labels, but those on `le`.
    pub tests: Vec<LabelTest>,
    /// The labels to group by.
    pub group_by: Vec<String>,
    /// The count of a `topk` (or, where false, `bottomk`) around it.
    pub topk: Option<(i64, bool)>,
}

/// A recognised classic-histogram quantile query, as a value.
pub struct HistView {
    pub phi: u64,
    pub base: Seq<char>,
    pub tests: Seq<TestView>,
    pub group_by: Seq<Seq<char>>,
    pub topk: Option<(int, bool)>,
}

impl View for HistSpec {
    type V = HistView;

    open spec fn view(&self) -> HistView {
        HistView {
            phi: self.phi,
            base: self.base@,
            tests: tests_view(self.tests@),
            group_by: texts(self.group_by@),
            topk: match self.topk {
                Some(t) => Some((t.0 as int, t.1)),
                None => None,
            },
        }
    }
}

/// The tests but those on `le`, in their order.
pub open spec fn tests_without_le(s: Seq<TestView>) -> Seq<TestView>
    decreases s.len(),
{
    if s.len() == 0 {
        Seq::empty()
    } else if s.last().label == "le"@ {
        tests_without_le(s.drop_last())
    } else {
        tests_without_le(s.drop_last()).push(s.last())
    }
}

fn drop_le_tests(tests: Vec<LabelTest>) -> (r: Vec<LabelTest>)
    ensures
        tests_view(r@) == tests_without_le(tests_view(tests@)),
{
    let mut out: Vec<LabelTest> = Vec::new();
    let ghost all = tests_view(tests@);
    let mut i: usize = 0;
    while i < tests.len()
        invariant
            all == tests_view(tests@),
            i <= tests@.len(),
            tests_view(out@) == tests_without_le(all.take(i as int)),
        decreases tests.len() - i,
    {
        let ghost before = out@;
        proof {
            assert(all.take(i + 1).drop_last() =~= all.take(i as int));
            assert(all.take(i + 1).last() == tests@[i as int]@);
        }
        if !str_eq(tests[i].label.as_str(), "le") {
            let t = LabelTest {
                label: owned(tests[i].label.as_str()),
                op: tests[i].op,
                value: owned(tests[i].value.as_str()),
            };
            out.push(t);
            assert(tests_view(out@) =~= tests_view(before).push(t@));
        }
        i = i + 1;
    }
    assert(all.take(tests@.len() as int) =~= all);
    out
}

/// A metric name without `_bucket` at its end.
pub open spec fn without_bucket(name: Seq<char>) -> Seq<char> {
    if ends_with(name, "_bucket"@) {
        stem(name, "_bucket"@)
    } else {
        name
    }
}

/// The quantile query that a call of `histogram_quantile` with these arguments is.
pub open spec fn quantile_call(args: Seq<PromExpr>) -> Option<HistView> {
    if args.len() < 2 {
        None
    } else {
        match (args[0], hist_base(args[1])) {
            (PromExpr::Number(phi), Some((s, by))) => match s.name {
                Some(name) => Some(
                    HistView {
                        phi,
                        base: without_bucket(name@),
                        tests: tests_without_le(tests_of(s.matchers@)),
                        group_by: by,
                        topk: None,
                    },
                ),
                None => None,
            },
            _ => None,
        }
    }
}

/// The quantile query that an expression is: `histogram_quantile(φ, …)`, possibly
/// under `topk`/`bottomk`.
pub open spec fn hist_quantile(e: PromExpr) -> Option<HistView>
    decreases e,
{
    match e {
        PromExpr::Paren(p) => hist_quantile(*p),
        PromExpr::Aggregate { op, expr, param, grouping } => match (
            rank_count(op@, param),
            hist_quantile(*expr),
        ) {
            (Some(n), Some(h)) => Some(HistView { topk: Some((n, op@ == "topk"@)), ..h }),
            _ => None,
        },
        PromExpr::Call { name, args } => if name@ == "histogram_quantile"@ {
            quantile_call(args@)
        } else {
            None
        },
        _ => None,
    }
}

/// A call of `histogram_quantile` as a quantile query.
fn detect_quantile_call(args: &Vec<PromExpr>) -> (r: Option<HistSpec>)
    ensures
        r is Some <==> quantile_call(args@) is Some,
        r matches Some(h) ==> quantile_call(args@) == Some(h@),
{
    if args.len() < 2 {
        return None;
    }
    let phi: u64 = match &args[0] {
        PromExpr::Number(bits) => *bits,
        _ => return None,
    };
    match find_hist_base(&args[1]) {
        None => None,
        Some((s, group_by)) => match &s.name {
            None => None,
            Some(name) => {
                let base = match before_suffix(name.as_str(), "_bucket") {
                    Some(b) => b,
                    None => owned(name.as_str()),
                };
                let tests = drop_le_tests(matcher_tests(&s.matchers));
                Some(HistSpec { phi, base, tests, group_by, topk: None })
            },
        },
    }
}

/// Detect `histogram_quantile(φ, …)` (optionally under `topk`/`bottomk`).
pub fn detect_hist_quantile(expr: &PromExpr) -> (r: Option<HistSpec>)
    ensures
        r is Some <==> hist_quantile(*expr) is Some,
        r matches Some(h) ==> hist_quantile(*expr) == Some(h@),
    decreases expr,
{
    match expr {
        PromExpr::Paren(p) => detect_hist_quantile(p),
        PromExpr::Aggregate { op, expr: inner, param, grouping: _ } => {
            match rank_param(op.as_str(), param) {
                None => None,
                Some(n) => match detect_hist_quantile(inner) {
                    None => None,
                    Some(spec) => Some(
                        HistSpec {
                            phi: spec.phi,
                            base: spec.base,
                            tests: spec.tests,
                            group_by: spec.group_by,
                            topk: Some((n, str_eq(op.as_str(), "topk"))),
                        },
                    ),
                },
            }
        },
        PromExpr::Call { name, args } => if str_eq(name.as_str(), "histogram_quantile") {
            detect_quantile_call(args)
        } else {
            None
        },
        _ => None,
    }
}

/// A recognised `_bucket`-by-`le` heatmap query.
#[derive(Debug)]
pub struct BucketSpec {
    /// The normalized base name, without `_bucket`.
    pub base: String,
    /// The tests on labels.
    pub tests: Vec<LabelTest>,
    /// The labels to group by, but `le`.
    pub group_by: Vec<String>,
}

/// A recognised heatmap query, as a value.
pub struct BucketView {
    pub base: Seq<char>,
    pub tests: Seq<TestView>,
    pub group_by: Seq<Seq<char>>,
}

impl View for BucketSpec {
    type V = BucketView;

    open spec fn view(&self) -> BucketView {
        BucketView {
            base: self.base@,
            tests: tests_view(self.tests@),
            group_by: texts(self.group_by@),
        }
    }
}

/// The heatmap query that an expression is: an aggregation by `le`, and possibly
/// more labels, of a `_bucket` selector.
pub open spec fn bucket_heatmap(e: PromExpr) -> Option<BucketView>
    decreases e,
{
    match e {
        PromExpr::Paren(p) => bucket_heatmap(*p),
        PromExpr::Aggregate { op, expr, param, grouping } => match (grouping, hist_base(*expr)) {
            (Some(Grouping::Include(by)), Some((s, _))) => match s.name {
                Some(name) => if listed(by@, "le"@) && ends_with(name@, "_bucket"@) {
                    Some(
                        BucketView {
                            base: stem(name@, "_bucket"@),
                            tests: tests_of(s.matchers@),
                            group_by: without_le(texts(by@)),
                        },
                    )
                } else {
                    None
                },
                None => None,
            },
            _ => None,
        },
        _ => None,
    }
}

/// Detect `sum(rate(<base>_bucket[d])) by (le[, G])` (no `histogram_quantile`).
pub fn detect_bucket_heatmap(expr: &PromExpr) -> (r: Option<BucketSpec>)
    ensures
        r is Some <==> bucket_heatmap(*expr) is Some,
        r matches Some(h) ==> bucket_heatmap(*expr) == Some(h@),
    decreases expr,
{
    match expr {
        PromExpr::Paren(p) => detect_bucket_heatmap(p),
        PromExpr::Aggregate { op: _, expr: inner, param: _, grouping } => {
            let by = match grouping {
                Some(Grouping::Include(l)) => l,
                _ => return None,
            };
            if !in_list(by, "le") {
                return None;
            }
            match find_hist_base(inner) {
                None => None,
                Some((s, _)) => match &s.name {
                    None => None,
                    Some(name) => match before_suffix(name.as_str(), "_bucket") {
                        None => None,
                        Some(base) => Some(
                            BucketSpec {
                                base,
                                tests: matcher_tests(&s.matchers),
                                group_by: drop_le(by),
                            },
                        ),
                    },
                },
            }
        },
        _ => None,
    }
}

/// Whether an expression refers to a metric series anywhere.
pub open spec fn has_selector(e: PromExpr) -> bool
    decreases e,
{
    match e {
        PromExpr::Vector(_) => true,
        PromExpr::Matrix(_, _) => true,
        PromExpr::Paren(p) => has_selector(*p),
        PromExpr::Unary(u) => has_selector(*u),
        PromExpr::Aggregate { op, expr, param, grouping } => has_selector(*expr),
        PromExpr::Subquery(s) => has_selector(*s),
        PromExpr::Binary { op, lhs, rhs, modifier } => has_selector(*lhs) || has_selector(*rhs),
        PromExpr::Call { name, args } => exists|i: int|
            0 <= i < args@.len() && has_selector(#[trigger] args@[i]),
        _ => false,
    }
}

/// Whether `expr` refers to any metric series anywhere in its tree: tells a
/// **scalar** operand (`* 2`, `/ 1024`) from a metric operand.
pub fn expr_has_selector(expr: &PromExpr) -> (r: bool)
    ensures
        r == has_selector(*expr),
    decreases expr,
{
    match expr {
        PromExpr::Vector(_) => true,
        PromExpr::Matrix(_, _) => true,
        PromExpr::Paren(p) => expr_has_selector(p),
        PromExpr::Unary(u) => expr_has_selector(u),
        PromExpr::Aggregate { op: _, expr: inner, param: _, grouping: _ } => expr_has_selector(
            inner,
        ),
        PromExpr::Subquery(s) => expr_has_selector(s),
        PromExpr::Binary { op: _, lhs, rhs, modifier: _ } => expr_has_selector(lhs)
            || expr_has_selector(rhs),
        PromExpr::Call { name: _, args } => {
            let mut i: usize = 0;
            while i < args.len()
                invariant
                    i <= args@.len(),
                    forall|j: int| 0 <= j < i ==> !has_selector(#[trigger] args@[j]),
                    *expr matches PromExpr::Call { name: _, args: a } && a == *args,
                decreases args.len() - i,
            {
                if expr_has_selector(&args[i]) {
                    return true;
                }
                i = i + 1;
            }
            false
        },
        _ => false,
    }
}

/// The capability of two operands together: what both need, if they agree.
pub open spec fn combined(l: Capability, r: Capability) -> Capability {
    if l == r {
        l
    } else {
        Capability::Raw
    }
}

/// Combine the capabilities of a binary operator's two operands: equal
/// capabilities pass through, any two that differ force raw.
pub fn combine_capability(lhs: Capability, rhs: Capability) -> (r: Capability)
    ensures
        r == combined(lhs, rhs),
{
    if lhs == Capability::Raw || rhs == Capability::Raw {
        Capability::Raw
    } else if lhs == rhs {
        lhs
    } else {
        Capability::Raw
    }
}

/// The capability that a function call needs.
pub open spec fn call_capability(name: Seq<char>) -> Capability {
    if name == "rate"@ || name == "increase"@ {
        Capability::Last
    } else if name == "max_over_time"@ || name == "min_over_time"@ {
        Capability::MinMax
    } else if name == "avg_over_time"@ || name == "sum_over_time"@ || name == "count_over_time"@ {
        Capability::SumCount
    } else {
        Capability::Raw
    }
}

fn capability_of_call(name: &str) -> (r: Capability)
    ensures
        r == call_capability(name@),
{
    if str_eq(name, "rate") || str_eq(name, "increase") {
        Capability::Last
    } else if str_eq(name, "max_over_time") || str_eq(name, "min_over_time") {
        Capability::MinMax
    } else if str_eq(name, "avg_over_time") || str_eq(name, "sum_over_time") || str_eq(
        name,
        "count_over_time",
    ) {
        Capability::SumCount
    } else {
        Capability::Raw
    }
}

/// The capability that an expression needs of a rollup tier. A quantile of a
/// histogram needs the last value; parentheses, aggregations and a sign need what
/// is inside; an operand that refers to no metric leaves it to the other one; two
/// metric operands have to agree; and what is not listed needs raw samples.
pub open spec fn capability(e: PromExpr) -> Capability
    decreases e,
{
    if hist_quantile(e) is Some {
        Capability::Last
    } else {
        match e {
            PromExpr::Paren(p) => capability(*p),
            PromExpr::Aggregate { op, expr, param, grouping } => capability(*expr),
            PromExpr::Unary(u) => capability(*u),
            PromExpr::Binary { op, lhs, rhs, modifier } => match (
                has_selector(*lhs),
                has_selector(*rhs),
            ) {
                (false, false) => Capability::Raw,
                (false, true) => capability(*rhs),
                (true, false) => capability(*lhs),
                (true, true) => combined(capability(*lhs), capability(*rhs)),
            },
            PromExpr::Call { name, args } => call_capability(name@),
            _ => Capability::Raw,
        }
    }
}

/// Statically classify the governing range operator of `expr` into the rollup
/// [`Capability`] it needs.
pub fn op_capability(expr: &PromExpr) -> (r: Capability)
    ensures
        r == capability(*expr),
    decreases expr,
{
    if detect_hist_quantile(expr).is_some() {
        return Capability::Last;
    }
    match expr {
        PromExpr::Paren(p) => op_capability(p),
        PromExpr::Aggregate { op: _, expr: inner, param: _, grouping: _ } => op_capability(inner),
        PromExpr::Unary(u) => op_capability(u),
        PromExpr::Binary { op: _, lhs, rhs, modifier: _ } => {
            let lc = op_capability(lhs);
            let rc = op_capability(rhs);
            match (expr_has_selector(lhs), expr_has_selector(rhs)) {
                (false, false) => Capability::Raw,
                (false, true) => rc,
                (true, false) => lc,
                (true, true) => combine_capability(lc, rc),
            }
        },
        PromExpr::Call { name, args: _ } => capability_of_call(name.as_str()),
        _ => Capability::Raw,
    }
}

/// Parentheses change nothing about the capability.
pub proof fn parentheses_keep_capability(e: PromExpr)
    ensures
        capability(PromExpr::Paren(Box::new(e))) == capability(e),
{
}

/// A sign changes nothing about the capability.
pub proof fn sign_keeps_capability(e: PromExpr)
    ensures
        capability(PromExpr::Unary(Box::new(e))) == capability(e),
{
}

/// Scaling a metric expression by an operand that refers to no metric changes
/// nothing about the capability, on either side.
pub proof fn scalar_operand_is_neutral(
    op: String,
    e: PromExpr,
    k: PromExpr,
    modifier: Option<BinaryModifier>,
)
    requires
        has_selector(e),
        !has_selector(k),
    ensures
        capability(
            PromExpr::Binary { op, lhs: Box::new(e), rhs: Box::new(k), modifier },
        ) == capability(e),
        capability(
            PromExpr::Binary { op, lhs: Box::new(k), rhs: Box::new(e), modifier },
        ) == capability(e),
{
}

/// The lookback window of a range expression.
pub open spec fn matrix_range(e: PromExpr) -> Option<int>
    decreases e,
{
    match e {
        PromExpr::Call { name, args } => if args@.len() > 0 {
            match args@[0] {
                PromExpr::Matrix(_, range) => Some(capped_ns(range)),
                _ => None,
            }
        } else {
            None
        },
        PromExpr::Paren(p) => matrix_range(*p),
        _ => None,
    }
}

/// Matrix range (ns) of a range expression (`rate(m[5m])`, `<agg>_over_time(m[d])`):
/// the lookback window used to evaluate it at a single instant.
pub fn matrix_range_ns(expr: &PromExpr) -> (r: Option<i64>)
    ensures
        r is Some <==> matrix_range(*expr) is Some,
        r matches Some(n) ==> matrix_range(*expr) == Some(n as int) && n >= 0,
    decreases expr,
{
    match expr {
        PromExpr::Call { name: _, args } => if args.len() > 0 {
            match &args[0] {
                PromExpr::Matrix(_, range) => Some(range_to_ns(*range)),
                _ => None,
            }
        } else {
            None
        },
        PromExpr::Paren(p) => matrix_range_ns(p),
        _ => None,
    }
}

/// Whether the governing range function takes differences of consecutive samples.
pub open spec fn takes_differences(e: PromExpr) -> bool
    decreases e,
{
    match e {
        PromExpr::Paren(p) => takes_differences(*p),
        PromExpr::Aggregate { op, expr, param, grouping } => takes_differences(*expr),
        PromExpr::Call { name, args } => is_counter_fn(name@),
        _ => false,
    }
}

/// Whether a function takes differences of consecutive samples.
pub open spec fn is_counter_fn(name: Seq<char>) -> bool {
    name == "rate"@ || name == "increase"@ || name == "irate"@
}

/// Whether a function takes differences of consecutive samples.
pub fn counter_fn(name: &str) -> (r: bool)
    ensures
        r == is_counter_fn(name@),
{
    str_eq(name, "rate") || str_eq(name, "increase") || str_eq(name, "irate")
}

/// Whether the governing range function of `expr` is a counter function
/// (`rate`/`increase`/`irate`), whose first difference needs the sample before the
/// window.
pub fn is_lag_range_op(expr: &PromExpr) -> (r: bool)
    ensures
        r == takes_differences(*expr),
    decreases expr,
{
    match expr {
        PromExpr::Paren(p) => is_lag_range_op(p),
        PromExpr::Aggregate { op: _, expr: inner, param: _, grouping: _ } => is_lag_range_op(inner),
        PromExpr::Call { name, args: _ } => counter_fn(name.as_str()),
        _ => false,
    }
}

/// The aggregation inside an expression, without parentheses.
pub open spec fn inner_aggregate(e: PromExpr) -> Option<PromExpr>
    decreases e,
{
    match e {
        PromExpr::Aggregate { op, expr, param, grouping } => Some(e),
        PromExpr::Paren(p) => inner_aggregate(*p),
        _ => None,
    }
}

/// The inner aggregate of `expr`, unwrapping parens.
pub fn aggregate_inner(expr: &PromExpr) -> (r: Option<&PromExpr>)
    ensures
        r is Some <==> inner_aggregate(*expr) is Some,
        r matches Some(a) ==> inner_aggregate(*expr) == Some(*a) && (a is Aggregate),
        r matches Some(a) ==> a == expr || decreases_to!(expr => a),
    decreases expr,
{
    match expr {
        PromExpr::Aggregate { op: _, expr: _, param: _, grouping: _ } => Some(expr),
        PromExpr::Paren(p) => aggregate_inner(p),
        _ => None,
    }
}

/// The selector inside an expression, without parentheses.
pub open spec fn inner_selector(e: PromExpr) -> Option<Selector>
    decreases e,
{
    match e {
        PromExpr::Vector(s) => Some(s),
        PromExpr::Paren(p) => inner_selector(*p),
        _ => None,
    }
}

/// The inner vector selector of `expr`, unwrapping parens.
pub fn aggregate_inner_selector(expr: &PromExpr) -> (r: Option<&Selector>)
    ensures
        r is Some <==> inner_selector(*expr) is Some,
        r matches Some(s) ==> inner_selector(*expr) == Some(*s),
    decreases expr,
{
    match expr {
        PromExpr::Vector(s) => Some(s),
        PromExpr::Paren(p) => aggregate_inner_selector(p),
        _ => None,
    }
}

/// `histogram_quantile(φ, <selector>)` as `(φ, selector)`; the selector may stand in
/// one pair of parentheses.
pub open spec fn instant_quantile(e: PromExpr) -> Option<(u64, Selector)>
    decreases e,
{
    match e {
        PromExpr::Paren(p) => instant_quantile(*p),
        PromExpr::Call { name, args } => if name@ == "histogram_quantile"@ && args@.len() >= 2 {
            match (args@[0], args@[1]) {
                (PromExpr::Number(phi), PromExpr::Vector(s)) => Some((phi, s)),
                (PromExpr::Number(phi), PromExpr::Paren(p)) => match *p {
                    PromExpr::Vector(s) => Some((phi, s)),
                    _ => None,
                },
                _ => None,
            }
        } else {
            None
        },
        _ => None,
    }
}

/// If `expr` is `histogram_quantile(φ, <selector>)`, return `(φ, selector)`.
pub fn histogram_quantile_parts(expr: &PromExpr) -> (r: Option<(u64, &Selector)>)
    ensures
        r is Some <==> instant_quantile(*expr) is Some,
        r matches Some(t) ==> instant_quantile(*expr) == Some((t.0, *t.1)),
    decreases expr,
{
    match expr {
        PromExpr::Paren(p) => histogram_quantile_parts(p),
        PromExpr::Call { name, args } => {
            if !str_eq(name.as_str(), "histogram_quantile") || args.len() < 2 {
                return None;
            }
            let phi: u64 = match &args[0] {
                PromExpr::Number(bits) => *bits,
                _ => return None,
            };
            match &args[1] {
                PromExpr::Vector(s) => Some((phi, s)),
                PromExpr::Paren(p) => match &**p {
                    PromExpr::Vector(s) => Some((phi, s)),
                    _ => None,
                },
                _ => None,
            }
        },
        _ => None,
    }
}

/// A number that is not below the least signed one.
pub open spec fn floored(n: int) -> int {
    if n < i64::MIN {
        i64::MIN as int
    } else {
        n
    }
}

/// The difference of a number and one that is not negative, not below the least
/// signed number.
pub fn lowered(n: i64, by: i64) -> (r: i64)
    requires
        by >= 0,
    ensures
        r == floored(n - by),
{
    match n.checked_sub(by) {
        Some(r) => r,
        None => i64::MIN,
    }
}

/// What is said of an instant range function without a range vector.
pub open spec fn no_instant_range() -> Seq<char> {
    "instant range function expects a range vector like m[5m] (v1)"@
}

/// The source windows of an instant range expression: the selector's window before
/// the anchored time, and, for differences of consecutive samples, once more the
/// window, so that the first difference has its predecessor.
pub open spec fn anchored_windows(
    tables: Seq<String>,
    e: PromExpr,
    time: int,
    now: int,
) -> Result<Seq<(Seq<char>, int, int)>, Seq<char>> {
    match matrix_range(e) {
        None => Err(no_instant_range()),
        Some(range) => {
            let anchor = anchored(time, now);
            let margin = if takes_differences(e) {
                range
            } else {
                0
            };
            Ok(
                source_windows(
                    tables,
                    floored(floored(anchor - range) - margin),
                    anchor,
                    range,
                    capability(e),
                    now,
                ),
            )
        },
    }
}

/// Resolve the source windows for an **instant** range expression evaluated at
/// `time_ns`.
pub fn instant_range_windows(
    tables: &Vec<String>,
    expr: &PromExpr,
    time_ns: i64,
    now_ns: i64,
) -> (r: Result<Vec<MetricWindow>, String>)
    ensures
        match r {
            Ok(w) => anchored_windows(tables@, *expr, time_ns as int, now_ns as int) == Ok::<
                Seq<(Seq<char>, int, int)>,
                Seq<char>,
            >(windows_view(w@)),
            Err(m) => anchored_windows(tables@, *expr, time_ns as int, now_ns as int) == Err::<
                Seq<(Seq<char>, int, int)>,
                Seq<char>,
            >(m@),
        },
{
    match matrix_range_ns(expr) {
        None => Err(owned("instant range function expects a range vector like m[5m] (v1)")),
        Some(range) => {
            let anchor = instant_anchor(time_ns, now_ns);
            let margin: i64 = if is_lag_range_op(expr) {
                range
            } else {
                0
            };
            let start = lowered(lowered(anchor, range), margin);
            Ok(resolve_metric_windows(tables, start, anchor, range, op_capability(expr), now_ns))
        },
    }
}

} // verus!
