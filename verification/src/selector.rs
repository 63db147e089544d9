//! How a selector reads the metrics table: tests on names, labels and values.
use crate::promql::{LabelMatcher, MatcherOp};
use crate::text::{ends_with, owned, str_eq, strip_suffix};
use vstd::prelude::*;

verus! {

/// Where the value of a label stands.
#[derive(Debug)]
pub enum LabelSource {
    /// In the column `service_name`.
    ServiceName,
    /// Among the attributes, under the key with this normalized name.
    Attribute(String),
}

/// Where a label's value stands: promoted `service_name`, else the attributes.
pub fn label_lhs_expr(key: &str) -> (r: LabelSource)
    ensures
        r is ServiceName <==> key@ == "service_name"@,
        r matches LabelSource::Attribute(k) ==> k@ == key@,
{
    if str_eq(key, "service_name") {
        LabelSource::ServiceName
    } else {
        LabelSource::Attribute(owned(key))
    }
}

/// A test on a label's value.
#[derive(Debug)]
pub struct LabelTest {
    pub label: String,
    pub op: MatcherOp,
    pub value: String,
}

/// A test on a label's value, as a value.
pub struct TestView {
    pub label: Seq<char>,
    pub op: MatcherOp,
    pub value: Seq<char>,
}

impl View for LabelTest {
    type V = TestView;

    open spec fn view(&self) -> TestView {
        TestView { label: self.label@, op: self.op, value: self.value@ }
    }
}

/// Tests, as values.
pub open spec fn tests_view(s: Seq<LabelTest>) -> Seq<TestView> {
    Seq::new(s.len(), |i: int| s[i]@)
}

/// The test that a matcher stands for; none for `__name__`, which the test on the
/// metric name covers. The value is carried whole, whatever it holds.
pub open spec fn test_of(m: LabelMatcher) -> Option<TestView> {
    if m.name@ == "__name__"@ {
        None
    } else {
        Some(TestView { label: m.name@, op: m.op, value: m.value@ })
    }
}

/// The tests that the matchers stand for, in their order.
pub open spec fn tests_of(s: Seq<LabelMatcher>) -> Seq<TestView>
    decreases s.len(),
{
    if s.len() == 0 {
        Seq::empty()
    } else {
        match test_of(s.last()) {
            Some(t) => tests_of(s.drop_last()).push(t),
            None => tests_of(s.drop_last()),
        }
    }
}

/// A matcher as a test on a label (none for `__name__`).
pub fn matcher_expr(m: &LabelMatcher) -> (r: Option<LabelTest>)
    ensures
        r is Some <==> test_of(*m) is Some,
        r matches Some(t) ==> test_of(*m) == Some(t@),
{
    if str_eq(m.name.as_str(), "__name__") {
        None
    } else {
        let t = LabelTest {
            label: owned(m.name.as_str()),
            op: m.op,
            value: owned(m.value.as_str()),
        };
        Some(t)
    }
}

/// The matchers of a selector as tests on labels.
pub fn matcher_tests(matchers: &Vec<LabelMatcher>) -> (r: Vec<LabelTest>)
    ensures
        tests_view(r@) == tests_of(matchers@),
{
    let mut out: Vec<LabelTest> = Vec::new();
    let mut i: usize = 0;
    while i < matchers.len()
        invariant
            i <= matchers@.len(),
            tests_view(out@) == tests_of(matchers@.take(i as int)),
        decreases matchers.len() - i,
    {
        let ghost before = out@;
        proof {
            assert(matchers@.take(i + 1).drop_last() =~= matchers@.take(i as int));
        }
        if let Some(t) = matcher_expr(&matchers[i]) {
            out.push(t);
            assert(tests_view(out@) =~= tests_view(before).push(t@));
        }
        i = i + 1;
    }
    assert(matchers@.take(matchers@.len() as int) =~= matchers@);
    assert(tests_view(out@) =~= tests_of(matchers@));
    out
}

/// Another copy of a list of tests.
pub fn copied_tests(tests: &Vec<LabelTest>) -> (r: Vec<LabelTest>)
    ensures
        tests_view(r@) == tests_view(tests@),
{
    let mut out: Vec<LabelTest> = Vec::new();
    let mut i: usize = 0;
    while i < tests.len()
        invariant
            i <= tests@.len(),
            tests_view(out@) =~= tests_view(tests@).take(i as int),
        decreases tests.len() - i,
    {
        let t = LabelTest {
            label: owned(tests[i].label.as_str()),
            op: tests[i].op,
            value: owned(tests[i].value.as_str()),
        };
        let ghost before = out@;
        out.push(t);
        assert(tests_view(out@) =~= tests_view(before).push(t@));
        i = i + 1;
    }
    assert(tests_view(tests@).take(tests@.len() as int) =~= tests_view(tests@));
    out
}

/// The test on a metric's name: the normalized name is `exact`, or the row holds
/// histogram buckets under the normalized name `histogram`.
#[derive(Debug)]
pub struct NameTest {
    pub exact: String,
    pub histogram: Option<String>,
}

/// The test on a metric's name, as a value.
pub struct NameView {
    pub exact: Seq<char>,
    pub histogram: Option<Seq<char>>,
}

impl View for NameTest {
    type V = NameView;

    open spec fn view(&self) -> NameView {
        NameView {
            exact: self.exact@,
            histogram: match self.histogram {
                Some(h) => Some(h@),
                None => None,
            },
        }
    }
}

/// What stands before a suffix.
pub open spec fn stem(name: Seq<char>, suffix: Seq<char>) -> Seq<char> {
    name.take(name.len() - suffix.len())
}

/// The base name of the histogram that a name synthesised from one refers to.
pub open spec fn histogram_base(name: Seq<char>) -> Option<Seq<char>> {
    if ends_with(name, "_count"@) {
        Some(stem(name, "_count"@))
    } else if ends_with(name, "_sum"@) {
        Some(stem(name, "_sum"@))
    } else {
        None
    }
}

/// The test on the metric name `name`.
pub open spec fn name_test(name: Seq<char>) -> NameView {
    NameView { exact: name, histogram: histogram_base(name) }
}

/// The test on exactly the metric name `name`.
pub open spec fn exact_name_test(name: Seq<char>) -> NameView {
    NameView { exact: name, histogram: None }
}

/// What stands before a suffix, where the name ends with it.
pub fn before_suffix(name: &str, suffix: &str) -> (r: Option<String>)
    ensures
        r is Some <==> ends_with(name@, suffix@),
        r matches Some(t) ==> t@ == stem(name@, suffix@),
{
    let r = strip_suffix(name, suffix);
    proof {
        assert(r matches Some(t) ==> t@ =~= stem(name@, suffix@));
    }
    r
}

/// The test on a metric's name: the exact normalized name, plus the histogram
/// `_count`/`_sum` synthesis on bucket rows.
pub fn name_pred_expr(name: &str) -> (r: NameTest)
    ensures
        r@ == name_test(name@),
{
    let histogram = match before_suffix(name, "_count") {
        Some(base) => Some(base),
        None => before_suffix(name, "_sum"),
    };
    NameTest { exact: owned(name), histogram }
}

/// The test on exactly one metric name.
pub fn exact_name(name: &str) -> (r: NameTest)
    ensures
        r@ == exact_name_test(name@),
{
    NameTest { exact: owned(name), histogram: None }
}

/// A value read from a row.
#[derive(Debug, Clone, Copy, PartialEq, Eq, Structural)]
pub enum ValueExpr {
    /// The gauge or counter value.
    Plain,
    /// The gauge or counter value, else the histogram's count.
    Count,
    /// The gauge or counter value as a double, else the histogram's sum.
    Sum,
    /// The greatest value of a rollup bucket.
    BucketMax,
    /// The least value of a rollup bucket.
    BucketMin,
    /// The sum of the values of a rollup bucket.
    BucketSum,
    /// The number of values of a rollup bucket.
    BucketCount,
    /// One, for each row.
    One,
}

/// A column to read, and whether to read it as a double.
pub type Source = (&'static str, bool);

impl ValueExpr {
    /// The columns of which the first that is not null is the value.
    pub open spec fn columns(self) -> Seq<(Seq<char>, bool)> {
        match self {
            ValueExpr::Plain => seq![("double_value"@, false), ("int_value"@, true)],
            ValueExpr::Count => seq![
                ("double_value"@, false),
                ("int_value"@, true),
                ("count"@, true),
            ],
            ValueExpr::Sum => seq![("double_value"@, false), ("sum"@, false)],
            ValueExpr::BucketMax => seq![("value_max"@, false)],
            ValueExpr::BucketMin => seq![("value_min"@, false)],
            ValueExpr::BucketSum => seq![("value_sum"@, false)],
            ValueExpr::BucketCount => seq![("value_count"@, false)],
            ValueExpr::One => seq![],
        }
    }

    /// The columns of which the first that is not null is the value; none where
    /// the value is one.
    pub fn sources(self) -> (r: Vec<Source>)
        ensures
            Seq::new(r@.len(), |i: int| (r@[i].0@, r@[i].1)) == self.columns(),
    {
        let mut r: Vec<Source> = Vec::new();
        match self {
            ValueExpr::Plain => {
                r.push(("double_value", false));
                r.push(("int_value", true));
            },
            ValueExpr::Count => {
                r.push(("double_value", false));
                r.push(("int_value", true));
                r.push(("count", true));
            },
            ValueExpr::Sum => {
                r.push(("double_value", false));
                r.push(("sum", false));
            },
            ValueExpr::BucketMax => r.push(("value_max", false)),
            ValueExpr::BucketMin => r.push(("value_min", false)),
            ValueExpr::BucketSum => r.push(("value_sum", false)),
            ValueExpr::BucketCount => r.push(("value_count", false)),
            ValueExpr::One => {},
        }
        assert(Seq::new(r@.len(), |i: int| (r@[i].0@, r@[i].1)) =~= self.columns());
        r
    }
}

/// The numeric value of a metric's rows: the gauge or counter value, or the
/// histogram count or sum.
pub open spec fn value_of(name: Seq<char>) -> ValueExpr {
    if ends_with(name, "_count"@) {
        ValueExpr::Count
    } else if ends_with(name, "_sum"@) {
        ValueExpr::Sum
    } else {
        ValueExpr::Plain
    }
}

/// The numeric value of a metric's rows.
pub fn metric_value_expr(name: &str) -> (r: ValueExpr)
    ensures
        r == value_of(name@),
{
    if before_suffix(name, "_count").is_some() {
        ValueExpr::Count
    } else if before_suffix(name, "_sum").is_some() {
        ValueExpr::Sum
    } else {
        ValueExpr::Plain
    }
}

} // verus!
