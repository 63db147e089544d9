//! Metadata queries: the series, the label names and the label values that there are.
use crate::labels::Labels;
use crate::promql::{parse, promql_tree, refused_with, PromExpr, Selector};
use crate::selector::{
    copied_tests, matcher_tests, name_pred_expr, name_test, tests_of, tests_view, LabelTest,
    NameTest, NameView, TestView,
};
use crate::series::LabelMap;
use crate::text::{
    alphanumeric, listed, owned, precedes, str_eq, texts, texts_ascend, trim, trimmed,
};
use crate::textmap::{has_key, place_of, TextMap};
use crate::udf::{normalize, normalized};
use crate::windows::{
    raw_table, resolve_metric_windows, source_windows, window_view, windows_view, Capability,
    QueryScope,
};
use vstd::prelude::*;

verus! {

/// A column name: every character that is no letter and no digit becomes `_`.
pub open spec fn ident(key: Seq<char>) -> Seq<char> {
    Seq::new(
        key.len(),
        |i: int|
            if alphanumeric(key[i]) {
                key[i]
            } else {
                '_'
            },
    )
}

/// The column name of a label.
pub fn sql_ident(key: &str) -> (r: String)
    ensures
        r@ == ident(key@),
{
    let mut out = String::new();
    for c in it: key.chars()
        invariant
            it.seq() == key@,
            out@ =~= ident(key@).take(it.index() as int),
    {
        if c.is_alphanumeric() {
            out.push(c);
        } else {
            out.push('_');
        }
    }
    assert(ident(key@).take(key@.len() as int) =~= ident(key@));
    out
}

/// What a `match[]` selector asks of a row.
#[derive(Debug)]
pub struct MatchTests {
    pub name: Option<NameTest>,
    pub tests: Vec<LabelTest>,
}

/// What a `match[]` selector asks of a row, as a value.
pub struct MatchView {
    pub name: Option<NameView>,
    pub tests: Seq<TestView>,
}

impl View for MatchTests {
    type V = MatchView;

    open spec fn view(&self) -> MatchView {
        MatchView {
            name: match self.name {
                Some(n) => Some(n@),
                None => None,
            },
            tests: tests_view(self.tests@),
        }
    }
}

/// What a selector asks of a row: its name, if it has one, and its labels.
pub open spec fn selector_tests(s: Selector) -> MatchView {
    MatchView {
        name: match s.name {
            Some(n) => Some(name_test(n@)),
            None => None,
        },
        tests: tests_of(s.matchers@),
    }
}

/// What is asked where there is no selector.
pub open spec fn no_tests() -> MatchView {
    MatchView { name: None, tests: Seq::empty() }
}

/// What is said of a `match[]` that is no selector.
pub open spec fn not_a_selector() -> Seq<char> {
    "match[] must be a metric selector"@
}

/// What the expression of a `match[]` asks of a row.
pub fn tests_of_expr(expr: &PromExpr) -> (r: Result<MatchTests, String>)
    ensures
        r is Ok <==> *expr is Vector,
        r matches Ok(t) ==> t@ == selector_tests(expr->Vector_0),
        r matches Err(m) ==> m@ == not_a_selector(),
{
    match expr {
        PromExpr::Vector(vs) => {
            let name = match &vs.name {
                Some(n) => Some(name_pred_expr(n.as_str())),
                None => None,
            };
            Ok(MatchTests { name, tests: matcher_tests(&vs.matchers) })
        },
        _ => Err(owned("match[] must be a metric selector")),
    }
}

/// Whether a `match[]` narrows a query: it is there, and not blank.
pub open spec fn narrows(matcher: Option<String>) -> bool {
    matcher is Some && trimmed(matcher->0@).len() > 0
}

/// The expression of a `match[]`.
pub open spec fn match_tree(matcher: Option<String>) -> Option<PromExpr> {
    promql_tree(trimmed(matcher->0@))
}

/// Whether a `match[]` can be applied: it does not narrow, or it is a selector.
pub open spec fn applies(matcher: Option<String>) -> bool {
    narrows(matcher) ==> match_tree(matcher) is Some && match_tree(matcher)->0 is Vector
}

/// What a `match[]` asks of a row.
pub open spec fn match_tests(matcher: Option<String>) -> MatchView {
    if narrows(matcher) {
        selector_tests(match_tree(matcher)->0->Vector_0)
    } else {
        no_tests()
    }
}

/// Whether a message is what is said of a `match[]` that cannot be applied: that of the
/// parser, where it is not PromQL, or that it is no selector.
pub open spec fn match_refusal(matcher: Option<String>, m: Seq<char>) -> bool {
    if match_tree(matcher) is Some {
        m == not_a_selector()
    } else {
        refused_with(trimmed(matcher->0@), m)
    }
}

/// What is asked of a row by a `match[]` selector (metric name + label matchers): one
/// that is absent or blank asks nothing; one that is not PromQL, or no selector, is
/// refused.
pub fn apply_match_selector(matcher: &Option<String>) -> (r: Result<MatchTests, String>)
    ensures
        r is Ok <==> applies(*matcher),
        r matches Ok(t) ==> t@ == match_tests(*matcher),
        r matches Err(m) ==> match_refusal(*matcher, m@),
{
    if let Some(text) = matcher {
        let sel = trim(text.as_str());
        if sel.as_str().unicode_len() > 0 {
            return match parse(sel.as_str()) {
                Ok(expr) => tests_of_expr(&expr),
                Err(m) => Err(m),
            };
        }
    }
    let none: Vec<LabelTest> = Vec::new();
    assert(tests_view(none@) =~= Seq::empty());
    Ok(MatchTests { name: None, tests: none })
}

fn copied_match(t: &MatchTests) -> (r: MatchTests)
    ensures
        r@ == t@,
{
    let name = match &t.name {
        Some(n) => {
            let histogram = match &n.histogram {
                Some(h) => Some(owned(h.as_str())),
                None => None,
            };
            Some(NameTest { exact: owned(n.exact.as_str()), histogram })
        },
        None => None,
    };
    MatchTests { name, tests: copied_tests(&t.tests) }
}

/// A scan of a metadata query: the rows of a table in a window, if there is one, that
/// a `match[]` asks for.
#[derive(Debug)]
pub struct MetaScan {
    pub table: String,
    pub window: Option<QueryScope>,
    pub matching: MatchTests,
}

/// A scan of a metadata query, as a value.
pub struct MetaView {
    pub table: Seq<char>,
    pub window: Option<QueryScope>,
    pub matching: MatchView,
}

impl View for MetaScan {
    type V = MetaView;

    open spec fn view(&self) -> MetaView {
        MetaView { table: self.table@, window: self.window, matching: self.matching@ }
    }
}

/// Scans, as values.
pub open spec fn meta_view(s: Seq<MetaScan>) -> Seq<MetaView> {
    Seq::new(s.len(), |i: int| s[i]@)
}

/// The windows of a metadata query over a span: it computes no values, so any tier can
/// serve the sealed part, and the coarsest is the cheapest.
pub open spec fn meta_windows(tables: Seq<String>, start: int, end: int, now: int) -> Seq<
    (Seq<char>, int, int),
> {
    source_windows(tables, start, end, i64::MAX as int, Capability::Last, now)
}

/// The scan of a window.
pub open spec fn meta_scan(w: (Seq<char>, int, int), matching: MatchView) -> MetaView {
    MetaView {
        table: w.0,
        window: Some(QueryScope { lo_ns: w.1 as i64, hi_ns: w.2 as i64 }),
        matching,
    }
}

/// The scans of a metadata query: those of the windows of its span, or, without one,
/// all raw samples.
pub open spec fn meta_scans(
    tables: Seq<String>,
    range: Option<(i64, i64)>,
    now: int,
    matching: MatchView,
) -> Seq<MetaView> {
    match range {
        None => seq![MetaView { table: raw_table(), window: None, matching }],
        Some((start, end)) => {
            let w = meta_windows(tables, start as int, end as int, now);
            Seq::new(w.len(), |i: int| meta_scan(w[i], matching))
        },
    }
}

/// The scans of a metadata query for an optional `[start, end]` span.
pub fn metadata_sources(
    tables: &Vec<String>,
    time_range: Option<(i64, i64)>,
    now_ns: i64,
    matching: &MatchTests,
) -> (r: Vec<MetaScan>)
    ensures
        meta_view(r@) == meta_scans(tables@, time_range, now_ns as int, matching@),
{
    let mut out: Vec<MetaScan> = Vec::new();
    let ghost want = meta_scans(tables@, time_range, now_ns as int, matching@);
    match time_range {
        None => {
            out.push(
                MetaScan {
                    table: owned("metrics"),
                    window: None,
                    matching: copied_match(matching),
                },
            );
            assert(meta_view(out@) =~= want);
        },
        Some((start_ns, end_ns)) => {
            let windows = resolve_metric_windows(
                tables,
                start_ns,
                end_ns,
                i64::MAX,
                Capability::Last,
                now_ns,
            );
            let ghost w = windows_view(windows@);
            let mut i: usize = 0;
            while i < windows.len()
                invariant
                    w == windows_view(windows@),
                    want == Seq::new(w.len(), |k: int| meta_scan(w[k], matching@)),
                    i <= windows@.len(),
                    meta_view(out@) =~= want.take(i as int),
                decreases windows.len() - i,
            {
                let scan = MetaScan {
                    table: owned(windows[i].0.as_str()),
                    window: Some(QueryScope { lo_ns: windows[i].1, hi_ns: windows[i].2 }),
                    matching: copied_match(matching),
                };
                let ghost before = out@;
                let ghost v = scan@;
                proof {
                    assert(w[i as int] == window_view(windows@[i as int]));
                    assert(v == want[i as int]);
                }
                out.push(scan);
                assert(meta_view(out@) =~= meta_view(before).push(v));
                i = i + 1;
            }
            assert(want.take(windows@.len() as int) =~= want);
        },
    }
    out
}

/// Plan the `/series` query: the scans whose distinct `(name, service_name)` pairs are
/// united.
pub fn build_series(
    tables: &Vec<String>,
    matcher: &Option<String>,
    time_range: Option<(i64, i64)>,
    now_ns: i64,
) -> (r: Result<Vec<MetaScan>, String>)
    ensures
        r is Ok <==> applies(*matcher),
        r matches Ok(s) ==> meta_view(s@) == meta_scans(
            tables@,
            time_range,
            now_ns as int,
            match_tests(*matcher),
        ),
        r matches Err(m) ==> match_refusal(*matcher, m@),
{
    match apply_match_selector(matcher) {
        Ok(t) => Ok(metadata_sources(tables, time_range, now_ns, &t)),
        Err(m) => Err(m),
    }
}

/// What a scan for label values gives of each row.
#[derive(Debug)]
pub enum ValueColumn {
    /// The normalized metric name.
    Name,
    /// The normalized metric name with a suffix, of a row with buckets.
    BucketName(&'static str),
    /// The value of a label, where there is one.
    Label(String),
}

/// What a scan for label values gives, as a value.
pub enum ValueView {
    Name,
    BucketName(Seq<char>),
    Label(Seq<char>),
}

impl View for ValueColumn {
    type V = ValueView;

    open spec fn view(&self) -> ValueView {
        match self {
            ValueColumn::Name => ValueView::Name,
            ValueColumn::BucketName(s) => ValueView::BucketName(s@),
            ValueColumn::Label(l) => ValueView::Label(l@),
        }
    }
}

/// A step from the united values of scans to the listing of a label's values.
#[derive(Debug, Clone, Copy, PartialEq, Eq, Structural)]
pub enum ValueStep {
    /// Without the nulls.
    NotNull,
    /// Each value once.
    Distinct,
    /// In ascending order of the texts.
    SortAscending,
}

/// The plan of a query for label values: the scans whose values are united, and the
/// steps that the united values take.
#[derive(Debug)]
pub struct ValuesPlan {
    pub scans: Vec<ValueScan>,
    pub steps: Vec<ValueStep>,
}

/// The steps from the united values to one distinct, sorted listing.
pub open spec fn value_steps() -> Seq<ValueStep> {
    seq![ValueStep::NotNull, ValueStep::Distinct, ValueStep::SortAscending]
}

/// Whether a nullable value may stand before another in ascending order, nulls last.
pub open spec fn in_order(a: Option<Seq<char>>, b: Option<Seq<char>>) -> bool {
    match (a, b) {
        (Some(x), Some(y)) => x == y || precedes(x, y),
        (None, Some(_)) => false,
        (_, None) => true,
    }
}

/// Whether a step leads from some nullable values to others.
pub open spec fn step_done(
    step: ValueStep,
    before: Seq<Option<Seq<char>>>,
    after: Seq<Option<Seq<char>>>,
) -> bool {
    match step {
        ValueStep::NotNull => after == before.filter(|v: Option<Seq<char>>| v is Some),
        ValueStep::Distinct => after.no_duplicates() && forall|v: Option<Seq<char>>| #[trigger]
            after.contains(v) <==> before.contains(v),
        ValueStep::SortAscending => after.to_multiset() == before.to_multiset() && forall|
            i: int,
            j: int,
        |
            0 <= i < j < after.len() ==> in_order(#[trigger] after[i], #[trigger] after[j]),
    }
}

/// Whether steps, one after another, lead from some nullable values to others.
pub open spec fn steps_done(
    steps: Seq<ValueStep>,
    before: Seq<Option<Seq<char>>>,
    after: Seq<Option<Seq<char>>>,
) -> bool
    decreases steps.len(),
{
    if steps.len() == 0 {
        after == before
    } else {
        exists|mid: Seq<Option<Seq<char>>>|
            steps_done(steps.drop_last(), before, mid) && #[trigger] step_done(
                steps.last(),
                mid,
                after,
            )
    }
}

/// The steps of a query for label values lead to a listing without nulls, strictly
/// ascending, that holds exactly the values that there are.
pub proof fn listed_values_are_exact(
    before: Seq<Option<Seq<char>>>,
    after: Seq<Option<Seq<char>>>,
)
    requires
        steps_done(value_steps(), before, after),
    ensures
        forall|i: int| 0 <= i < after.len() ==> #[trigger] after[i] is Some,
        forall|i: int, j: int|
            0 <= i < j < after.len() ==> precedes((#[trigger] after[i])->0, (#[trigger] after[j])->0),
        forall|v: Seq<char>| #[trigger] after.contains(Some(v)) <==> before.contains(Some(v)),
{
    let steps = value_steps();
    let two = steps.drop_last();
    let one = two.drop_last();
    assert(one.drop_last().len() == 0);
    let distinct = choose|mid: Seq<Option<Seq<char>>>|
        steps_done(two, before, mid) && #[trigger] step_done(steps.last(), mid, after);
    let filled = choose|mid: Seq<Option<Seq<char>>>|
        steps_done(one, before, mid) && #[trigger] step_done(two.last(), mid, distinct);
    let first = choose|mid: Seq<Option<Seq<char>>>|
        steps_done(one.drop_last(), before, mid) && #[trigger] step_done(one.last(), mid, filled);
    assert(first == before);
    let some = |v: Option<Seq<char>>| v is Some;
    assert(filled == before.filter(some));
    assert forall|v: Option<Seq<char>>| #[trigger]
        filled.contains(v) <==> before.contains(v) && v is Some by {
        if filled.contains(v) {
            before.lemma_filter_contains_rev(some, v);
            let i = choose|i: int| 0 <= i < filled.len() && filled[i] == v;
            before.lemma_filter_pred(some, i);
        }
        if before.contains(v) && v is Some {
            let i = choose|i: int| 0 <= i < before.len() && before[i] == v;
            before.lemma_filter_contains(some, i);
        }
    }
    assert forall|v: Option<Seq<char>>| #[trigger]
        after.contains(v) <==> distinct.contains(v) by {
        vstd::seq_lib::to_multiset_contains(after, v);
        vstd::seq_lib::to_multiset_contains(distinct, v);
    }
    distinct.lemma_multiset_has_no_duplicates();
    after.lemma_multiset_has_no_duplicates_conv();
    assert forall|i: int| 0 <= i < after.len() implies #[trigger] after[i] is Some by {
        assert(after.contains(after[i]));
    }
    assert forall|i: int, j: int| 0 <= i < j < after.len() implies precedes(
        (#[trigger] after[i])->0,
        (#[trigger] after[j])->0,
    ) by {
        assert(in_order(after[i], after[j]));
        assert(after[i] != after[j]);
    }
}

/// A scan for label values.
pub type ValueScan = (MetaScan, ValueColumn);

/// Scans for label values, as values.
pub open spec fn value_scans_view(s: Seq<ValueScan>) -> Seq<(MetaView, ValueView)> {
    Seq::new(s.len(), |i: int| (s[i].0@, s[i].1@))
}

/// What the scans of one window give: of metric names also those of the series that a
/// histogram stands for.
pub open spec fn value_columns(label: Seq<char>) -> Seq<ValueView> {
    if label == "__name__"@ {
        seq![
            ValueView::Name,
            ValueView::BucketName("_bucket"@),
            ValueView::BucketName("_count"@),
            ValueView::BucketName("_sum"@),
        ]
    } else {
        seq![ValueView::Label(label)]
    }
}

/// The scans of windows for label values.
pub open spec fn value_scans(
    label: Seq<char>,
    windows: Seq<(Seq<char>, int, int)>,
    matching: MatchView,
) -> Seq<(MetaView, ValueView)>
    decreases windows.len(),
{
    if windows.len() == 0 {
        Seq::empty()
    } else {
        let columns = value_columns(label);
        value_scans(label, windows.drop_last(), matching) + Seq::new(
            columns.len(),
            |i: int| (meta_scan(windows.last(), matching), columns[i]),
        )
    }
}

fn columns_of(label: &str) -> (r: Vec<ValueColumn>)
    ensures
        Seq::new(r@.len(), |i: int| r@[i]@) == value_columns(label@),
{
    let mut r: Vec<ValueColumn> = Vec::new();
    if str_eq(label, "__name__") {
        r.push(ValueColumn::Name);
        r.push(ValueColumn::BucketName("_bucket"));
        r.push(ValueColumn::BucketName("_count"));
        r.push(ValueColumn::BucketName("_sum"));
    } else {
        r.push(ValueColumn::Label(owned(label)));
    }
    assert(Seq::new(r@.len(), |i: int| r@[i]@) =~= value_columns(label@));
    r
}

/// Plan the `label/:name/values` query: the scans whose values are united, and the steps
/// to one distinct, sorted result. `__name__` gives the normalized metric names plus the
/// synthetic `_bucket`/`_count`/`_sum` histogram series.
pub fn build_label_values(
    tables: &Vec<String>,
    label: &str,
    start_ns: i64,
    end_ns: i64,
    matcher: &Option<String>,
    now_ns: i64,
) -> (r: Result<ValuesPlan, String>)
    ensures
        r is Ok <==> applies(*matcher),
        r matches Ok(p) ==> value_scans_view(p.scans@) == value_scans(
            label@,
            meta_windows(tables@, start_ns as int, end_ns as int, now_ns as int),
            match_tests(*matcher),
        ),
        r matches Ok(p) ==> p.steps@ == value_steps(),
        r matches Err(m) ==> match_refusal(*matcher, m@),
{
    let matching = match apply_match_selector(matcher) {
        Ok(t) => t,
        Err(m) => return Err(m),
    };
    let windows = resolve_metric_windows(
        tables,
        start_ns,
        end_ns,
        i64::MAX,
        Capability::Last,
        now_ns,
    );
    let ghost w = windows_view(windows@);
    let mut out: Vec<ValueScan> = Vec::new();
    let mut i: usize = 0;
    proof {
        assert(value_scans_view(out@) =~= value_scans(label@, w.take(0), matching@));
    }
    while i < windows.len()
        invariant
            w == windows_view(windows@),
            i <= windows@.len(),
            value_scans_view(out@) == value_scans(label@, w.take(i as int), matching@),
        decreases windows.len() - i,
    {
        let columns = columns_of(label);
        let ghost cv = value_columns(label@);
        let ghost start = value_scans_view(out@);
        let ghost these = Seq::new(
            cv.len(),
            |k: int| (meta_scan(w[i as int], matching@), cv[k]),
        );
        let ghost all = columns@;
        let n: usize = columns.len();
        let mut left = columns;
        let mut j: usize = 0;
        proof {
            assert(start + these.take(0) =~= value_scans_view(out@));
        }
        while j < n
            invariant
                i < windows@.len(),
                w == windows_view(windows@),
                n == all.len(),
                cv == Seq::new(all.len(), |k: int| all[k]@),
                these == Seq::new(cv.len(), |k: int| (meta_scan(w[i as int], matching@), cv[k])),
                j <= n,
                left@ == all.skip(j as int),
                value_scans_view(out@) == start + these.take(j as int),
            decreases n - j,
        {
            let column = left.remove(0);
            let scan = MetaScan {
                table: owned(windows[i].0.as_str()),
                window: Some(QueryScope { lo_ns: windows[i].1, hi_ns: windows[i].2 }),
                matching: copied_match(&matching),
            };
            let ghost before = out@;
            let ghost v = (scan@, column@);
            proof {
                assert(column == all[j as int]);
                assert(w[i as int] == window_view(windows@[i as int]));
                assert(v == these[j as int]);
                assert(left@ =~= all.skip(j + 1));
            }
            out.push((scan, column));
            proof {
                assert(value_scans_view(out@) =~= value_scans_view(before).push(v));
                assert(start + these.take(j + 1) =~= (start + these.take(j as int)).push(v));
            }
            j = j + 1;
        }
        proof {
            assert(these.take(n as int) =~= these);
            assert(w.take(i + 1).drop_last() =~= w.take(i as int));
            assert(w.take(i + 1).last() == w[i as int]);
        }
        i = i + 1;
    }
    assert(w.take(windows@.len() as int) =~= w);
    let mut steps: Vec<ValueStep> = Vec::new();
    steps.push(ValueStep::NotNull);
    steps.push(ValueStep::Distinct);
    steps.push(ValueStep::SortAscending);
    assert(steps@ =~= value_steps());
    Ok(ValuesPlan { scans: out, steps })
}

/// Whether a text is the name of a label: the metric name, the service name, or the
/// Prometheus name of a key.
pub open spec fn is_label_name(keys: Seq<String>, n: Seq<char>) -> bool {
    n == "__name__"@ || n == "service_name"@ || is_normal_key(keys, keys.len() as int, n)
}

/// Whether a text is the Prometheus name of one of the first `n` keys.
pub open spec fn is_normal_key(keys: Seq<String>, n: int, name: Seq<char>) -> bool {
    exists|i: int| 0 <= i < n && normalized((#[trigger] keys[i])@) == name
}

/// The texts of a map, in ascending order.
fn keys_in_order(set: TextMap<bool>) -> (out: Vec<String>)
    ensures
        texts_ascend(texts(out@)),
        forall|n: Seq<char>| #[trigger] listed(out@, n) <==> set@.dom().contains(n),
{
    let ghost dom = set@;
    let entries = set.into_entries();
    let mut out: Vec<String> = Vec::new();
    let mut j: usize = 0;
    while j < entries.len()
        invariant
            j <= entries@.len(),
            out@.len() == j,
            forall|q: int| 0 <= q < j ==> (#[trigger] out@[q])@ == entries@[q].0@,
        decreases entries.len() - j,
    {
        out.push(owned(entries[j].0.as_str()));
        j = j + 1;
    }
    proof {
        let e = entries@;
        assert forall|a: int, b: int| 0 <= a < b < texts(out@).len() implies precedes(
            #[trigger] texts(out@)[a],
            #[trigger] texts(out@)[b],
        ) by {
            assert(out@[a]@ == e[a].0@ && out@[b]@ == e[b].0@);
            assert(precedes(e[a].0@, e[b].0@));
        }
        assert forall|n: Seq<char>| #[trigger] listed(out@, n) <==> dom.dom().contains(n) by {
            assert(dom.dom().contains(n) <==> has_key(e, n));
            if listed(out@, n) {
                let q = choose|q: int| 0 <= q < out@.len() && (#[trigger] out@[q])@ == n;
                assert(e[q].0@ == n);
            }
            if has_key(e, n) {
                let q = place_of(e, n);
                assert(e[q].0@ == n);
                assert(out@[q]@ == n);
            }
        }
    }
    out
}

/// The label names of the metrics, given the keys of their attributes: the promoted
/// columns plus the normalized keys, each once and in ascending order.
pub fn handle_labels(keys: &Vec<String>) -> (r: Vec<String>)
    ensures
        texts_ascend(texts(r@)),
        forall|n: Seq<char>| #[trigger] listed(r@, n) <==> is_label_name(keys@, n),
{
    let mut set: TextMap<bool> = TextMap::new();
    set = set.with(owned("__name__"), true);
    set = set.with(owned("service_name"), true);
    let mut i: usize = 0;
    while i < keys.len()
        invariant
            i <= keys@.len(),
            forall|n: Seq<char>| #[trigger]
                set@.dom().contains(n) <==> n == "__name__"@ || n == "service_name"@
                    || is_normal_key(keys@, i as int, n),
        decreases keys.len() - i,
    {
        let name = normalize(keys[i].as_str());
        let ghost k = name@;
        set = set.with(name, true);
        proof {
            assert(normalized(keys@[i as int]@) == k);
            assert forall|n: Seq<char>| #[trigger]
                is_normal_key(keys@, i + 1, n) <==> is_normal_key(keys@, i as int, n) || n == k by {}
        }
        i = i + 1;
    }
    keys_in_order(set)
}

/// The labels of a row of `/series`: its name and its service, as far as they are not
/// null.
pub open spec fn series_labels(name: Option<String>, service: Option<String>) -> LabelMap {
    let named = match name {
        Some(n) => Map::<Seq<char>, Seq<char>>::empty().insert("__name__"@, n@),
        None => Map::<Seq<char>, Seq<char>>::empty(),
    };
    match service {
        Some(s) => named.insert("service_name"@, s@),
        None => named,
    }
}

/// The label sets of rows of `/series`: each once, in the order in which they come first.
pub open spec fn series_of(rows: Seq<(Option<String>, Option<String>)>) -> Seq<LabelMap>
    decreases rows.len(),
{
    if rows.len() == 0 {
        Seq::empty()
    } else {
        let rest = series_of(rows.drop_last());
        let labels = series_labels(rows.last().0, rows.last().1);
        if rest.contains(labels) {
            rest
        } else {
            rest.push(labels)
        }
    }
}

/// The series that are listed are those of the rows, each once.
pub proof fn series_are_listed_once(rows: Seq<(Option<String>, Option<String>)>, m: LabelMap)
    ensures
        series_of(rows).no_duplicates(),
        series_of(rows).contains(m) <==> exists|i: int|
            0 <= i < rows.len() && series_labels((#[trigger] rows[i]).0, rows[i].1) == m,
    decreases rows.len(),
{
    if rows.len() > 0 {
        let before = rows.drop_last();
        let rest = series_of(before);
        let all = series_of(rows);
        let labels = series_labels(rows.last().0, rows.last().1);
        series_are_listed_once(before, m);
        assert(rows.last() == rows[rows.len() - 1]);
        assert(all.contains(m) <==> rest.contains(m) || m == labels) by {
            if rest.contains(m) {
                let i = choose|i: int| 0 <= i < rest.len() && rest[i] == m;
                assert(all[i] == m);
            }
            if !rest.contains(labels) {
                assert(all[rest.len() as int] == labels);
            }
            if all.contains(m) && m != labels {
                let i = choose|i: int| 0 <= i < all.len() && all[i] == m;
                assert(rest[i] == m);
            }
        }
        if rest.contains(m) {
            let i = choose|i: int|
                0 <= i < before.len() && series_labels((#[trigger] before[i]).0, before[i].1) == m;
            assert(rows[i] == before[i]);
        }
        if exists|i: int|
            0 <= i < rows.len() && series_labels((#[trigger] rows[i]).0, rows[i].1) == m {
            let i = choose|i: int|
                0 <= i < rows.len() && series_labels((#[trigger] rows[i]).0, rows[i].1) == m;
            if i < before.len() {
                assert(before[i] == rows[i]);
            }
        }
    }
}

/// Label sets, as values.
pub open spec fn label_maps(s: Seq<Labels>) -> Seq<LabelMap> {
    Seq::new(s.len(), |i: int| s[i]@)
}

fn holds_labels(s: &Vec<Labels>, m: &Labels) -> (r: bool)
    ensures
        r == label_maps(s@).contains(m@),
{
    let ghost all = label_maps(s@);
    let mut i: usize = 0;
    while i < s.len()
        invariant
            all == label_maps(s@),
            i <= s@.len(),
            forall|j: int| 0 <= j < i ==> #[trigger] all[j] != m@,
        decreases s.len() - i,
    {
        if s[i].same(m) {
            assert(all[i as int] == m@);
            return true;
        }
        i = i + 1;
    }
    false
}

/// The label sets of `/series`, each once.
pub fn handle_series(rows: &Vec<(Option<String>, Option<String>)>) -> (r: Vec<Labels>)
    ensures
        label_maps(r@) == series_of(rows@),
        label_maps(r@).no_duplicates(),
{
    let mut r: Vec<Labels> = Vec::new();
    let mut i: usize = 0;
    assert(label_maps(r@) =~= series_of(rows@.take(0)));
    while i < rows.len()
        invariant
            i <= rows@.len(),
            label_maps(r@) == series_of(rows@.take(i as int)),
        decreases rows.len() - i,
    {
        proof {
            assert(rows@.take(i + 1).drop_last() =~= rows@.take(i as int));
            assert(rows@.take(i + 1).last() == rows@[i as int]);
        }
        let mut m = Labels::new();
        if let Some(n) = &rows[i].0 {
            m = m.with(owned("__name__"), owned(n.as_str()));
        }
        if let Some(s) = &rows[i].1 {
            m = m.with(owned("service_name"), owned(s.as_str()));
        }
        assert(m@ == series_labels(rows@[i as int].0, rows@[i as int].1));
        if !holds_labels(&r, &m) {
            let ghost before = label_maps(r@);
            let ghost v = m@;
            r.push(m);
            assert(label_maps(r@) =~= before.push(v));
        }
        i = i + 1;
    }
    proof {
        assert(rows@.take(rows@.len() as int) =~= rows@);
        series_are_listed_once(rows@, Map::empty());
    }
    r
}

/// Whether one of the first `n` rows of a nullable column holds a value.
pub open spec fn is_value(rows: Seq<Option<String>>, n: int, v: Seq<char>) -> bool {
    exists|i: int| 0 <= i < n && (#[trigger] rows[i]) is Some && rows[i]->0@ == v
}

/// The values of a label: those of its rows that are not null, each once and in
/// ascending order.
pub fn handle_label_values(rows: &Vec<Option<String>>) -> (r: Vec<String>)
    ensures
        texts_ascend(texts(r@)),
        forall|v: Seq<char>| #[trigger]
            listed(r@, v) <==> is_value(rows@, rows@.len() as int, v),
{
    let mut set: TextMap<bool> = TextMap::new();
    let mut i: usize = 0;
    while i < rows.len()
        invariant
            i <= rows@.len(),
            forall|v: Seq<char>| #[trigger]
                set@.dom().contains(v) <==> is_value(rows@, i as int, v),
        decreases rows.len() - i,
    {
        let ghost before = set@;
        if let Some(v) = &rows[i] {
            set = set.with(owned(v.as_str()), true);
        }
        proof {
            assert forall|v: Seq<char>| #[trigger]
                set@.dom().contains(v) <==> is_value(rows@, i + 1, v) by {
                assert(before.dom().contains(v) <==> is_value(rows@, i as int, v));
                if is_value(rows@, i + 1, v) {
                    let k = choose|k: int|
                        0 <= k < i + 1 && (#[trigger] rows@[k]) is Some && rows@[k]->0@ == v;
                    if k < i {
                        assert(is_value(rows@, i as int, v));
                    }
                }
                if rows@[i as int] is Some && rows@[i as int]->0@ == v {
                    assert(is_value(rows@, i + 1, v));
                }
            }
        }
        i = i + 1;
    }
    keys_in_order(set)
}

/// How many rows of attributes are read of one scan for their keys. Discovery is bounded
/// by the number of label sets, and this lies far above any real one.
pub const MAX_ATTRIBUTE_ROWS: usize = 10_000;

} // verus!
