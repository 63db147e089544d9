//! HTTP routing for the query backend: which endpoint a request is for, and what its
//! parameters stand for.
use crate::text::{chars_of, contains, occurs_in, owned, str_eq, texts, texts_push};
use vstd::prelude::*;

verus! {

/// An HTTP method.
#[derive(Debug, Clone, Copy, PartialEq, Eq, Structural)]
pub enum Method {
    Get,
    Post,
    /// Any other method.
    Other,
}

/// The endpoints of the query backend.
#[derive(Debug, Clone, Copy, PartialEq, Eq, Structural)]
pub enum Endpoint {
    LokiQueryRange,
    LokiLabels,
    LokiLabelValues,
    LokiSeries,
    LokiIndexStats,
    LokiIndexVolumeRange,
    LokiIndexVolume,
    PromQuery,
    PromQueryRange,
    PromLabelValues,
    PromLabels,
    PromRules,
    PromMetadata,
    PromSeries,
    TempoSearch,
    TempoTraceV2,
    TempoTraceV1,
    TempoTagsV2,
    TempoTagsV1,
    TempoTagValuesV2,
    TempoTagValuesV1,
    TempoEcho,
    Sql,
    Ready,
}

/// A segment of a path pattern.
#[derive(Debug, Clone, Copy)]
pub enum Part {
    /// A segment with this text.
    Fixed(&'static str),
    /// Any segment that is not empty.
    Any,
}

/// A segment of a path pattern, as a value.
pub enum PartView {
    Fixed(Seq<char>),
    Any,
}

impl View for Part {
    type V = PartView;

    open spec fn view(&self) -> PartView {
        match self {
            Part::Fixed(s) => PartView::Fixed(s@),
            Part::Any => PartView::Any,
        }
    }
}

/// A pattern, as a value.
pub open spec fn parts_view(p: Seq<Part>) -> Seq<PartView> {
    Seq::new(p.len(), |i: int| p[i]@)
}

/// A segment with this text.
pub open spec fn fixed(s: Seq<char>) -> PartView {
    PartView::Fixed(s)
}

/// The path of an endpoint.
pub open spec fn pattern(e: Endpoint) -> Seq<PartView> {
    match e {
        Endpoint::LokiQueryRange => seq![
            fixed("loki"@),
            fixed("api"@),
            fixed("v1"@),
            fixed("query_range"@),
        ],
        Endpoint::LokiLabels => seq![
            fixed("loki"@),
            fixed("api"@),
            fixed("v1"@),
            fixed("labels"@),
        ],
        Endpoint::LokiLabelValues => seq![
            fixed("loki"@),
            fixed("api"@),
            fixed("v1"@),
            fixed("label"@),
            PartView::Any,
            fixed("values"@),
        ],
        Endpoint::LokiSeries => seq![
            fixed("loki"@),
            fixed("api"@),
            fixed("v1"@),
            fixed("series"@),
        ],
        Endpoint::LokiIndexStats => seq![
            fixed("loki"@),
            fixed("api"@),
            fixed("v1"@),
            fixed("index"@),
            fixed("stats"@),
        ],
        Endpoint::LokiIndexVolumeRange => seq![
            fixed("loki"@),
            fixed("api"@),
            fixed("v1"@),
            fixed("index"@),
            fixed("volume_range"@),
        ],
        Endpoint::LokiIndexVolume => seq![
            fixed("loki"@),
            fixed("api"@),
            fixed("v1"@),
            fixed("index"@),
            fixed("volume"@),
        ],
        Endpoint::PromQuery => seq![
            fixed("prometheus"@),
            fixed("api"@),
            fixed("v1"@),
            fixed("query"@),
        ],
        Endpoint::PromQueryRange => seq![
            fixed("prometheus"@),
            fixed("api"@),
            fixed("v1"@),
            fixed("query_range"@),
        ],
        Endpoint::PromLabelValues => seq![
            fixed("prometheus"@),
            fixed("api"@),
            fixed("v1"@),
            fixed("label"@),
            PartView::Any,
            fixed("values"@),
        ],
        Endpoint::PromLabels => seq![
            fixed("prometheus"@),
            fixed("api"@),
            fixed("v1"@),
            fixed("labels"@),
        ],
        Endpoint::PromRules => seq![
            fixed("prometheus"@),
            fixed("api"@),
            fixed("v1"@),
            fixed("rules"@),
        ],
        Endpoint::PromMetadata => seq![
            fixed("prometheus"@),
            fixed("api"@),
            fixed("v1"@),
            fixed("metadata"@),
        ],
        Endpoint::PromSeries => seq![
            fixed("prometheus"@),
            fixed("api"@),
            fixed("v1"@),
            fixed("series"@),
        ],
        Endpoint::TempoSearch => seq![
            fixed("tempo"@),
            fixed("api"@),
            fixed("search"@),
        ],
        Endpoint::TempoTraceV2 => seq![
            fixed("tempo"@),
            fixed("api"@),
            fixed("v2"@),
            fixed("traces"@),
            PartView::Any,
        ],
        Endpoint::TempoTraceV1 => seq![
            fixed("tempo"@),
            fixed("api"@),
            fixed("traces"@),
            PartView::Any,
        ],
        Endpoint::TempoTagsV2 => seq![
            fixed("tempo"@),
            fixed("api"@),
            fixed("v2"@),
            fixed("search"@),
            fixed("tags"@),
        ],
        Endpoint::TempoTagsV1 => seq![
            fixed("tempo"@),
            fixed("api"@),
            fixed("search"@),
            fixed("tags"@),
        ],
        Endpoint::TempoTagValuesV2 => seq![
            fixed("tempo"@),
            fixed("api"@),
            fixed("v2"@),
            fixed("search"@),
            fixed("tag"@),
            PartView::Any,
            fixed("values"@),
        ],
        Endpoint::TempoTagValuesV1 => seq![
            fixed("tempo"@),
            fixed("api"@),
            fixed("search"@),
            fixed("tag"@),
            PartView::Any,
            fixed("values"@),
        ],
        Endpoint::TempoEcho => seq![
            fixed("tempo"@),
            fixed("api"@),
            fixed("echo"@),
        ],
        Endpoint::Sql => seq![
            fixed("api"@),
            fixed("v1"@),
            fixed("sql"@),
        ],
        Endpoint::Ready => seq![
            fixed("ready"@),
        ],
    }
}

/// Whether an endpoint answers a method: all but the SQL endpoint answer GET; the SQL
/// endpoint and those that take a form answer POST.
pub open spec fn allows(e: Endpoint, m: Method) -> bool {
    match m {
        Method::Get => e != Endpoint::Sql,
        Method::Post => e == Endpoint::PromQuery || e == Endpoint::PromQueryRange || e
            == Endpoint::PromLabels || e == Endpoint::PromSeries || e == Endpoint::LokiSeries || e
            == Endpoint::Sql,
        Method::Other => false,
    }
}

fn answers(e: Endpoint, m: Method) -> (r: bool)
    ensures
        r == allows(e, m),
{
    match m {
        Method::Get => e != Endpoint::Sql,
        Method::Post => e == Endpoint::PromQuery || e == Endpoint::PromQueryRange || e
            == Endpoint::PromLabels || e == Endpoint::PromSeries || e == Endpoint::LokiSeries || e
            == Endpoint::Sql,
        Method::Other => false,
    }
}

/// The parts of a text between slashes.
pub open spec fn split(s: Seq<char>) -> Seq<Seq<char>>
    decreases s.len(),
{
    if s.len() == 0 {
        seq![Seq::empty()]
    } else {
        let before = split(s.drop_last());
        if s.last() == '/' {
            before.push(Seq::empty())
        } else {
            before.drop_last().push(before.last().push(s.last()))
        }
    }
}

/// A path without the slash before it.
pub open spec fn unrooted(path: Seq<char>) -> Seq<char> {
    if path.len() > 0 && path[0] == '/' {
        path.skip(1)
    } else {
        path
    }
}

/// The segments of a path: the slash before it, and one behind it, do not count.
pub open spec fn segments(path: Seq<char>) -> Seq<Seq<char>> {
    let parts = split(unrooted(path));
    if parts.len() > 1 && parts.last().len() == 0 {
        parts.drop_last()
    } else {
        parts
    }
}

/// Whether a segment fits its part of a pattern.
pub open spec fn part_fits(p: PartView, segment: Seq<char>) -> bool {
    match p {
        PartView::Fixed(s) => segment == s,
        PartView::Any => segment.len() > 0,
    }
}

/// Whether segments fit a pattern: as many, and each its part.
pub open spec fn fits(p: Seq<PartView>, segments: Seq<Seq<char>>) -> bool {
    p.len() == segments.len() && forall|i: int|
        0 <= i < p.len() ==> part_fits(#[trigger] p[i], segments[i])
}

/// Whether a path is that of an endpoint.
pub open spec fn is_path_of(e: Endpoint, path: Seq<char>) -> bool {
    fits(pattern(e), segments(path))
}

/// Whether a request is for an endpoint.
pub open spec fn is_for(e: Endpoint, m: Method, path: Seq<char>) -> bool {
    is_path_of(e, path) && allows(e, m)
}

/// The segment that stands at the open part of a pattern.
pub open spec fn captured(p: Seq<PartView>, segments: Seq<Seq<char>>) -> Option<Seq<char>>
    decreases p.len(),
{
    if p.len() == 0 || segments.len() == 0 {
        None
    } else if p.last() is Any {
        Some(segments.last())
    } else {
        captured(p.drop_last(), segments.drop_last())
    }
}

/// Where a request goes.
#[derive(Debug)]
pub enum Routed {
    /// To an endpoint, with the open segment of its path.
    Found(Endpoint, Option<String>),
    /// Nowhere: the path is known, but not with this method (405).
    NotAllowed,
    /// Nowhere: the path is not known (404).
    NotFound,
}

/// The text of an optional string.
pub open spec fn text_of_option(s: Option<String>) -> Option<Seq<char>> {
    match s {
        Some(t) => Some(t@),
        None => None,
    }
}

fn path_segments(path: &str) -> (r: Vec<String>)
    ensures
        texts(r@) == segments(path@),
{
    let chars = chars_of(path);
    let from: usize = if chars.len() > 0 && chars[0] == '/' {
        1
    } else {
        0
    };
    let ghost rest = unrooted(path@);
    assert(rest =~= chars@.skip(from as int));
    let mut done: Vec<String> = Vec::new();
    let mut current = String::new();
    let mut i: usize = from;
    proof {
        assert(rest.take(0) =~= Seq::empty());
        assert(texts(done@).push(current@) =~= seq![Seq::<char>::empty()]);
    }
    while i < chars.len()
        invariant
            from <= i <= chars@.len(),
            rest == chars@.skip(from as int),
            split(rest.take(i - from)) == texts(done@).push(current@),
        decreases chars.len() - i,
    {
        let ghost before = texts(done@).push(current@);
        proof {
            let next = rest.take(i - from + 1);
            assert(next.drop_last() =~= rest.take(i - from));
            assert(next.last() == chars@[i as int]);
            assert(before.drop_last() =~= texts(done@));
        }
        if chars[i] == '/' {
            let ghost old_done = done@;
            done.push(current);
            proof {
                texts_push(old_done, done@.last());
            }
            current = String::new();
            assert(current@ =~= Seq::empty());
        } else {
            current.push(chars[i]);
        }
        i = i + 1;
    }
    assert(rest.take(rest.len() as int) =~= rest);
    assert(split(rest) == texts(done@).push(current@));
    assert(texts(done@).push(current@).drop_last() =~= texts(done@));
    if done.len() > 0 && current.as_str().unicode_len() == 0 {
        return done;
    }
    let ghost old_done = done@;
    done.push(current);
    proof {
        texts_push(old_done, done@.last());
    }
    done
}

fn parts3(a: &'static str, b: &'static str, c: &'static str) -> (r: Vec<Part>)
    ensures
        parts_view(r@) == seq![fixed(a@), fixed(b@), fixed(c@)],
{
    let mut v: Vec<Part> = Vec::new();
    v.push(Part::Fixed(a));
    v.push(Part::Fixed(b));
    v.push(Part::Fixed(c));
    assert(parts_view(v@) =~= seq![fixed(a@), fixed(b@), fixed(c@)]);
    v
}

fn and(v: Vec<Part>, p: Part) -> (r: Vec<Part>)
    ensures
        parts_view(r@) == parts_view(v@).push(p@),
{
    let ghost before = v@;
    let mut w = v;
    w.push(p);
    assert(parts_view(w@) =~= parts_view(before).push(p@));
    w
}

fn pattern_of(e: Endpoint) -> (r: Vec<Part>)
    ensures
        parts_view(r@) == pattern(e),
{
    let r = match e {
        Endpoint::LokiQueryRange => and(parts3("loki", "api", "v1"), Part::Fixed("query_range")),
        Endpoint::LokiLabels => and(parts3("loki", "api", "v1"), Part::Fixed("labels")),
        Endpoint::LokiLabelValues => and(
            and(and(parts3("loki", "api", "v1"), Part::Fixed("label")), Part::Any),
            Part::Fixed("values"),
        ),
        Endpoint::LokiSeries => and(parts3("loki", "api", "v1"), Part::Fixed("series")),
        Endpoint::LokiIndexStats => and(
            and(parts3("loki", "api", "v1"), Part::Fixed("index")),
            Part::Fixed("stats"),
        ),
        Endpoint::LokiIndexVolumeRange => and(
            and(parts3("loki", "api", "v1"), Part::Fixed("index")),
            Part::Fixed("volume_range"),
        ),
        Endpoint::LokiIndexVolume => and(
            and(parts3("loki", "api", "v1"), Part::Fixed("index")),
            Part::Fixed("volume"),
        ),
        Endpoint::PromQuery => and(parts3("prometheus", "api", "v1"), Part::Fixed("query")),
        Endpoint::PromQueryRange => and(
            parts3("prometheus", "api", "v1"),
            Part::Fixed("query_range"),
        ),
        Endpoint::PromLabelValues => and(
            and(and(parts3("prometheus", "api", "v1"), Part::Fixed("label")), Part::Any),
            Part::Fixed("values"),
        ),
        Endpoint::PromLabels => and(parts3("prometheus", "api", "v1"), Part::Fixed("labels")),
        Endpoint::PromRules => and(parts3("prometheus", "api", "v1"), Part::Fixed("rules")),
        Endpoint::PromMetadata => and(parts3("prometheus", "api", "v1"), Part::Fixed("metadata")),
        Endpoint::PromSeries => and(parts3("prometheus", "api", "v1"), Part::Fixed("series")),
        Endpoint::TempoSearch => parts3("tempo", "api", "search"),
        Endpoint::TempoTraceV2 => and(
            and(parts3("tempo", "api", "v2"), Part::Fixed("traces")),
            Part::Any,
        ),
        Endpoint::TempoTraceV1 => and(parts3("tempo", "api", "traces"), Part::Any),
        Endpoint::TempoTagsV2 => and(
            and(parts3("tempo", "api", "v2"), Part::Fixed("search")),
            Part::Fixed("tags"),
        ),
        Endpoint::TempoTagsV1 => and(parts3("tempo", "api", "search"), Part::Fixed("tags")),
        Endpoint::TempoTagValuesV2 => and(
            and(
                and(and(parts3("tempo", "api", "v2"), Part::Fixed("search")), Part::Fixed("tag")),
                Part::Any,
            ),
            Part::Fixed("values"),
        ),
        Endpoint::TempoTagValuesV1 => and(
            and(and(parts3("tempo", "api", "search"), Part::Fixed("tag")), Part::Any),
            Part::Fixed("values"),
        ),
        Endpoint::TempoEcho => parts3("tempo", "api", "echo"),
        Endpoint::Sql => parts3("api", "v1", "sql"),
        Endpoint::Ready => {
            let mut v: Vec<Part> = Vec::new();
            v.push(Part::Fixed("ready"));
            v
        },
    };
    assert(parts_view(r@) =~= pattern(e));
    r
}

fn fits_pattern(p: &Vec<Part>, segs: &Vec<String>) -> (r: bool)
    ensures
        r == fits(parts_view(p@), texts(segs@)),
{
    if p.len() != segs.len() {
        return false;
    }
    let mut i: usize = 0;
    while i < p.len()
        invariant
            p@.len() == segs@.len(),
            i <= p@.len(),
            forall|j: int|
                0 <= j < i ==> part_fits(#[trigger] parts_view(p@)[j], texts(segs@)[j]),
        decreases p.len() - i,
    {
        let ok = match &p[i] {
            Part::Fixed(s) => str_eq(segs[i].as_str(), s),
            Part::Any => segs[i].as_str().unicode_len() > 0,
        };
        proof {
            assert(parts_view(p@)[i as int] == p@[i as int]@);
            assert(texts(segs@)[i as int] == segs@[i as int]@);
        }
        if !ok {
            return false;
        }
        i = i + 1;
    }
    true
}

fn capture(p: &Vec<Part>, segs: &Vec<String>) -> (r: Option<String>)
    requires
        p@.len() == segs@.len(),
    ensures
        text_of_option(r) == captured(parts_view(p@), texts(segs@)),
{
    let mut n: usize = p.len();
    let ghost pv = parts_view(p@);
    let ghost sv = texts(segs@);
    proof {
        assert(pv.take(n as int) =~= pv);
        assert(sv.take(n as int) =~= sv);
    }
    while n > 0
        invariant
            pv == parts_view(p@),
            sv == texts(segs@),
            p@.len() == segs@.len(),
            n <= p@.len(),
            captured(pv, sv) == captured(pv.take(n as int), sv.take(n as int)),
        decreases n,
    {
        proof {
            assert(pv.take(n as int).last() == p@[n - 1]@);
            assert(sv.take(n as int).last() == segs@[n - 1]@);
            assert(pv.take(n as int).drop_last() =~= pv.take(n - 1));
            assert(sv.take(n as int).drop_last() =~= sv.take(n - 1));
        }
        if let Part::Any = &p[n - 1] {
            return Some(owned(segs[n - 1].as_str()));
        }
        n = n - 1;
    }
    None
}

/// All endpoints, in the order in which they are tried.
pub open spec fn endpoints() -> Seq<Endpoint> {
    seq![
        Endpoint::LokiQueryRange,
        Endpoint::LokiLabels,
        Endpoint::LokiLabelValues,
        Endpoint::LokiSeries,
        Endpoint::LokiIndexStats,
        Endpoint::LokiIndexVolumeRange,
        Endpoint::LokiIndexVolume,
        Endpoint::PromQuery,
        Endpoint::PromQueryRange,
        Endpoint::PromLabelValues,
        Endpoint::PromLabels,
        Endpoint::PromRules,
        Endpoint::PromMetadata,
        Endpoint::PromSeries,
        Endpoint::TempoSearch,
        Endpoint::TempoTraceV2,
        Endpoint::TempoTraceV1,
        Endpoint::TempoTagsV2,
        Endpoint::TempoTagsV1,
        Endpoint::TempoTagValuesV2,
        Endpoint::TempoTagValuesV1,
        Endpoint::TempoEcho,
        Endpoint::Sql,
        Endpoint::Ready,
    ]
}

/// The place of an endpoint in the order.
spec fn rank(e: Endpoint) -> int {
    match e {
        Endpoint::LokiQueryRange => 0,
        Endpoint::LokiLabels => 1,
        Endpoint::LokiLabelValues => 2,
        Endpoint::LokiSeries => 3,
        Endpoint::LokiIndexStats => 4,
        Endpoint::LokiIndexVolumeRange => 5,
        Endpoint::LokiIndexVolume => 6,
        Endpoint::PromQuery => 7,
        Endpoint::PromQueryRange => 8,
        Endpoint::PromLabelValues => 9,
        Endpoint::PromLabels => 10,
        Endpoint::PromRules => 11,
        Endpoint::PromMetadata => 12,
        Endpoint::PromSeries => 13,
        Endpoint::TempoSearch => 14,
        Endpoint::TempoTraceV2 => 15,
        Endpoint::TempoTraceV1 => 16,
        Endpoint::TempoTagsV2 => 17,
        Endpoint::TempoTagsV1 => 18,
        Endpoint::TempoTagValuesV2 => 19,
        Endpoint::TempoTagValuesV1 => 20,
        Endpoint::TempoEcho => 21,
        Endpoint::Sql => 22,
        Endpoint::Ready => 23,
    }
}

proof fn every_endpoint_is_tried(e: Endpoint)
    ensures
        0 <= rank(e) < endpoints().len(),
        endpoints()[rank(e)] == e,
{
}

fn all_endpoints() -> (r: Vec<Endpoint>)
    ensures
        r@ == endpoints(),
{
    let r = vec![
        Endpoint::LokiQueryRange,
        Endpoint::LokiLabels,
        Endpoint::LokiLabelValues,
        Endpoint::LokiSeries,
        Endpoint::LokiIndexStats,
        Endpoint::LokiIndexVolumeRange,
        Endpoint::LokiIndexVolume,
        Endpoint::PromQuery,
        Endpoint::PromQueryRange,
        Endpoint::PromLabelValues,
        Endpoint::PromLabels,
        Endpoint::PromRules,
        Endpoint::PromMetadata,
        Endpoint::PromSeries,
        Endpoint::TempoSearch,
        Endpoint::TempoTraceV2,
        Endpoint::TempoTraceV1,
        Endpoint::TempoTagsV2,
        Endpoint::TempoTagsV1,
        Endpoint::TempoTagValuesV2,
        Endpoint::TempoTagValuesV1,
        Endpoint::TempoEcho,
        Endpoint::Sql,
        Endpoint::Ready,
    ];
    assert(r@ =~= endpoints());
    r
}

/// Whether a request goes there: to the endpoint that it is for, with the open segment of
/// its path; and nowhere where it is for none.
pub open spec fn goes_to(method: Method, path: Seq<char>, r: Routed) -> bool {
    match r {
        Routed::Found(e, segment) => is_for(e, method, path) && text_of_option(segment) == captured(
            pattern(e),
            segments(path),
        ),
        Routed::NotAllowed => (forall|e: Endpoint| !#[trigger] is_for(e, method, path)) && (exists|
            e: Endpoint,
        | #[trigger]
            is_path_of(e, path)),
        Routed::NotFound => forall|e: Endpoint| !#[trigger] is_path_of(e, path),
    }
}

/// The endpoint that a request is for, by its method and its path.
pub fn make_routes(method: Method, path: &str) -> (r: Routed)
    ensures
        goes_to(method, path@, r),
{
    let segs = path_segments(path);
    let all = all_endpoints();
    let mut known = false;
    let mut i: usize = 0;
    while i < all.len()
        invariant
            texts(segs@) == segments(path@),
            all@ == endpoints(),
            i <= all@.len(),
            forall|j: int| 0 <= j < i ==> !#[trigger] is_for(all@[j], method, path@),
            known ==> exists|e: Endpoint| #[trigger] is_path_of(e, path@),
            !known ==> forall|j: int| 0 <= j < i ==> !#[trigger] is_path_of(all@[j], path@),
        decreases all.len() - i,
    {
        let p = pattern_of(all[i]);
        if fits_pattern(&p, &segs) {
            assert(is_path_of(all@[i as int], path@));
            known = true;
            if answers(all[i], method) {
                return Routed::Found(all[i], capture(&p, &segs));
            }
        }
        i = i + 1;
    }
    proof {
        assert forall|e: Endpoint| !#[trigger] is_for(e, method, path@) by {
            every_endpoint_is_tried(e);
            assert(!is_for(all@[rank(e)], method, path@));
        }
        if !known {
            assert forall|e: Endpoint| !#[trigger] is_path_of(e, path@) by {
                every_endpoint_is_tried(e);
                assert(!is_path_of(all@[rank(e)], path@));
            }
        }
    }
    if known {
        Routed::NotAllowed
    } else {
        Routed::NotFound
    }
}

/// The endpoint that segments can be for.
spec fn only_endpoint(s: Seq<Seq<char>>) -> Endpoint {
    if s.len() == 1 {
        Endpoint::Ready
    } else if s[0] == "api"@ {
        Endpoint::Sql
    } else if s[0] == "loki"@ {
        if s.len() == 4 {
            if s[3] == "query_range"@ {
                Endpoint::LokiQueryRange
            } else if s[3] == "labels"@ {
                Endpoint::LokiLabels
            } else {
                Endpoint::LokiSeries
            }
        } else if s.len() == 5 {
            if s[4] == "stats"@ {
                Endpoint::LokiIndexStats
            } else if s[4] == "volume"@ {
                Endpoint::LokiIndexVolume
            } else {
                Endpoint::LokiIndexVolumeRange
            }
        } else {
            Endpoint::LokiLabelValues
        }
    } else if s[0] == "prometheus"@ {
        if s.len() == 4 {
            if s[3] == "query"@ {
                Endpoint::PromQuery
            } else if s[3] == "query_range"@ {
                Endpoint::PromQueryRange
            } else if s[3] == "labels"@ {
                Endpoint::PromLabels
            } else if s[3] == "rules"@ {
                Endpoint::PromRules
            } else if s[3] == "metadata"@ {
                Endpoint::PromMetadata
            } else {
                Endpoint::PromSeries
            }
        } else {
            Endpoint::PromLabelValues
        }
    } else if s[2] == "v2"@ {
        if s.len() == 6 || s.len() == 7 {
            Endpoint::TempoTagValuesV2
        } else if s[3] == "traces"@ {
            Endpoint::TempoTraceV2
        } else {
            Endpoint::TempoTagsV2
        }
    } else if s.len() == 3 {
        if s[2] == "search"@ {
            Endpoint::TempoSearch
        } else {
            Endpoint::TempoEcho
        }
    } else if s.len() == 4 {
        if s[2] == "traces"@ {
            Endpoint::TempoTraceV1
        } else {
            Endpoint::TempoTagsV1
        }
    } else {
        Endpoint::TempoTagValuesV1
    }
}

proof fn names_differ()
    ensures
        "api"@ != "loki"@,
        "api"@ != "prometheus"@,
        "api"@ != "tempo"@,
        "loki"@ != "prometheus"@,
        "loki"@ != "tempo"@,
        "prometheus"@ != "tempo"@,
        "query"@ != "query_range"@,
        "query"@ != "labels"@,
        "query"@ != "rules"@,
        "query"@ != "metadata"@,
        "query"@ != "series"@,
        "query_range"@ != "labels"@,
        "query_range"@ != "rules"@,
        "query_range"@ != "metadata"@,
        "query_range"@ != "series"@,
        "labels"@ != "rules"@,
        "labels"@ != "metadata"@,
        "labels"@ != "series"@,
        "rules"@ != "metadata"@,
        "rules"@ != "series"@,
        "metadata"@ != "series"@,
        "stats"@ != "volume"@,
        "stats"@ != "volume_range"@,
        "volume"@ != "volume_range"@,
        "v2"@ != "search"@,
        "v2"@ != "traces"@,
        "v2"@ != "echo"@,
        "search"@ != "traces"@,
        "search"@ != "echo"@,
        "traces"@ != "echo"@,
{
    reveal_strlit("api");
    reveal_strlit("echo");
    reveal_strlit("labels");
    reveal_strlit("loki");
    reveal_strlit("metadata");
    reveal_strlit("prometheus");
    reveal_strlit("query");
    reveal_strlit("query_range");
    reveal_strlit("rules");
    reveal_strlit("search");
    reveal_strlit("series");
    reveal_strlit("stats");
    reveal_strlit("tempo");
    reveal_strlit("traces");
    reveal_strlit("v2");
    reveal_strlit("volume");
    reveal_strlit("volume_range");
    assert("api"@.len() == 3);
    assert("echo"@.len() == 4);
    assert("labels"@.len() == 6);
    assert("loki"@.len() == 4);
    assert("metadata"@.len() == 8);
    assert("prometheus"@.len() == 10);
    assert("query"@.len() == 5);
    assert("query_range"@.len() == 11);
    assert("rules"@.len() == 5);
    assert("search"@.len() == 6);
    assert("series"@.len() == 6);
    assert("stats"@.len() == 5);
    assert("tempo"@.len() == 5);
    assert("traces"@.len() == 6);
    assert("v2"@.len() == 2);
    assert("volume"@.len() == 6);
    assert("volume_range"@.len() == 12);
    assert("query"@[0] != "rules"@[0]);
    assert("labels"@[0] != "series"@[0]);
    assert("search"@[0] != "traces"@[0]);
}

proof fn segments_are_for_one(e: Endpoint, s: Seq<Seq<char>>)
    requires
        fits(pattern(e), s),
    ensures
        only_endpoint(s) == e,
{
    names_differ();
    let p = pattern(e);
    assert(p.len() == s.len());
    assert(part_fits(p[0], s[0]));
    if p.len() > 2 {
        assert(part_fits(p[2], s[2]));
    }
    if p.len() > 3 {
        assert(part_fits(p[3], s[3]));
    }
    if p.len() > 4 {
        assert(part_fits(p[4], s[4]));
    }
}

/// No path is that of two endpoints, so it does not matter in which order they are
/// tried.
pub proof fn paths_are_disjoint(a: Endpoint, b: Endpoint, path: Seq<char>)
    requires
        is_path_of(a, path),
        is_path_of(b, path),
    ensures
        a == b,
{
    segments_are_for_one(a, segments(path));
    segments_are_for_one(b, segments(path));
}

/// How the requests of an endpoint are counted: by API and by signal.
pub open spec fn counted_as(e: Endpoint) -> Option<(Seq<char>, Seq<char>)> {
    match e {
        Endpoint::LokiQueryRange | Endpoint::LokiIndexVolume | Endpoint::LokiIndexVolumeRange => Some(
            ("loki"@, "logs"@),
        ),
        Endpoint::PromQuery | Endpoint::PromQueryRange => Some(("prometheus"@, "metrics"@)),
        Endpoint::TempoSearch | Endpoint::TempoTraceV1 | Endpoint::TempoTraceV2 => Some(
            ("tempo"@, "traces"@),
        ),
        Endpoint::Sql => Some(("sql"@, "sql"@)),
        _ => None,
    }
}

/// The API and the signal by which a served request is recorded, if it is.
pub fn rec(e: Endpoint) -> (r: Option<(&'static str, &'static str)>)
    ensures
        match r {
            Some((api, signal)) => counted_as(e) == Some((api@, signal@)),
            None => counted_as(e) is None,
        },
{
    match e {
        Endpoint::LokiQueryRange | Endpoint::LokiIndexVolume | Endpoint::LokiIndexVolumeRange => Some(
            ("loki", "logs"),
        ),
        Endpoint::PromQuery | Endpoint::PromQueryRange => Some(("prometheus", "metrics")),
        Endpoint::TempoSearch | Endpoint::TempoTraceV1 | Endpoint::TempoTraceV2 => Some(
            ("tempo", "traces"),
        ),
        Endpoint::Sql => Some(("sql", "sql")),
        _ => None,
    }
}

/// The number that decimal digits write; none where there is no digit, or some other
/// character.
pub open spec fn digits_value(s: Seq<char>) -> Option<int>
    decreases s.len(),
{
    if s.len() == 0 || !('0' <= s.last() && s.last() <= '9') {
        None
    } else {
        let digit = s.last() as int - '0' as int;
        if s.len() == 1 {
            Some(digit)
        } else {
            match digits_value(s.drop_last()) {
                Some(n) => Some(n * 10 + digit),
                None => None,
            }
        }
    }
}

/// The 64-bit number that a text writes: digits with or without a sign.
pub open spec fn number_of(s: Seq<char>) -> Option<int> {
    let signed = s.len() > 0 && (s[0] == '-' || s[0] == '+');
    let digits = if signed {
        digits_value(s.skip(1))
    } else {
        digits_value(s)
    };
    match digits {
        Some(n) => {
            let value = if signed && s[0] == '-' {
                -n
            } else {
                n
            };
            if i64::MIN <= value <= i64::MAX {
                Some(value)
            } else {
                None
            }
        },
        None => None,
    }
}

/// A bound above every 64-bit number.
const DIGITS_BOUND: i128 = 100_000_000_000_000_000_000;

/// A number, or the bound where it is greater.
spec fn capped(n: int) -> int {
    if n > DIGITS_BOUND {
        DIGITS_BOUND as int
    } else {
        n
    }
}

fn read_digits(chars: &Vec<char>, from: usize) -> (r: Option<i128>)
    requires
        from <= chars@.len(),
    ensures
        match digits_value(chars@.skip(from as int)) {
            Some(n) => n >= 0 && r == Some(capped(n) as i128),
            None => r is None,
        },
{
    let ghost s = chars@.skip(from as int);
    if from == chars.len() {
        return None;
    }
    let mut total: i128 = 0;
    let mut i: usize = from;
    while i < chars.len()
        invariant
            s == chars@.skip(from as int),
            from <= i <= chars@.len(),
            0 <= total <= DIGITS_BOUND,
            i == from ==> total == 0,
            i > from ==> digits_value(s.take(i - from)) is Some && digits_value(s.take(i - from))->0
                >= 0 && total == capped(digits_value(s.take(i - from))->0),
        decreases chars.len() - i,
    {
        let c = chars[i];
        let ghost next = s.take(i - from + 1);
        proof {
            assert(next.last() == c);
            assert(next.drop_last() =~= s.take(i - from));
        }
        if !(c >= '0' && c <= '9') {
            proof {
                digits_stop(s, i - from);
            }
            return None;
        }
        let digit: i128 = (c as u32 - '0' as u32) as i128;
        let sum: i128 = total * 10 + digit;
        total = if sum > DIGITS_BOUND {
            DIGITS_BOUND
        } else {
            sum
        };
        i = i + 1;
    }
    assert(s.take(s.len() as int) =~= s);
    Some(total)
}

proof fn digits_stop(s: Seq<char>, at: int)
    requires
        0 <= at < s.len(),
        !('0' <= s[at] && s[at] <= '9'),
    ensures
        digits_value(s) is None,
    decreases s.len(),
{
    if at < s.len() - 1 {
        assert(s.drop_last()[at] == s[at]);
        digits_stop(s.drop_last(), at);
    }
}

/// The 64-bit number that a text writes, if it writes one.
pub fn parse_i64(s: &str) -> (r: Option<i64>)
    ensures
        match r {
            Some(n) => number_of(s@) == Some(n as int),
            None => number_of(s@) is None,
        },
{
    let chars = chars_of(s);
    let negative = chars.len() > 0 && chars[0] == '-';
    let signed = negative || (chars.len() > 0 && chars[0] == '+');
    let from: usize = if signed {
        1
    } else {
        0
    };
    proof {
        assert(chars@.skip(0) =~= chars@);
    }
    let n = match read_digits(&chars, from) {
        Some(n) => n,
        None => return None,
    };
    let value: i128 = if negative {
        -n
    } else {
        n
    };
    if value >= i64::MIN as i128 && value <= i64::MAX as i128 {
        Some(value as i64)
    } else {
        None
    }
}

/// The number that a parameter writes; a default where it is absent or writes none.
pub open spec fn number_or(s: Option<String>, default: i64) -> i64 {
    if s is Some && number_of(s->0@) is Some {
        number_of(s->0@)->0 as i64
    } else {
        default
    }
}

/// A parameter in nanoseconds, with its default.
pub fn parse_ns(s: &Option<String>, default: i64) -> (r: i64)
    ensures
        r == number_or(*s, default),
{
    match s {
        Some(v) => match parse_i64(v.as_str()) {
            Some(n) => n,
            None => default,
        },
        None => default,
    }
}

/// One second, in nanoseconds.
pub const SECOND_NS: i64 = 1_000_000_000;

/// The greater of a step and one second.
pub open spec fn at_least_a_second(ns: int) -> int {
    if ns < SECOND_NS {
        SECOND_NS as int
    } else {
        ns
    }
}

/// The length of a span, as far as it can be held.
pub open spec fn span(start: int, end: int) -> int {
    if end - start > i64::MAX {
        i64::MAX as int
    } else {
        end - start
    }
}

/// The digits, with points, before the unit of a step.
pub open spec fn step_digits_end(s: Seq<char>, i: int) -> int
    decreases s.len() - i,
{
    if 0 <= i < s.len() && (('0' <= s[i] && s[i] <= '9') || s[i] == '.') {
        step_digits_end(s, i + 1)
    } else {
        i
    }
}

/// The part of a Loki `step` before the unit that it may end in.
pub fn step_digits(step: &str) -> (r: String)
    ensures
        r@ == step@.take(step_digits_end(step@, 0)),
{
    let chars = chars_of(step);
    let mut i: usize = 0;
    while i < chars.len() && ((chars[i] >= '0' && chars[i] <= '9') || chars[i] == '.')
        invariant
            chars@ == step@,
            i <= chars@.len(),
            step_digits_end(step@, 0) == step_digits_end(step@, i as int),
        decreases chars.len() - i,
    {
        i = i + 1;
    }
    crate::text::text_between(&chars, 0, i)
}

/// A Loki step: one that is given and positive, or about 1/100 of the range; at least
/// one second.
pub fn loki_step_ns(parsed: Option<i64>, start: i64, end: i64) -> (r: i64)
    ensures
        parsed is Some && parsed->0 > 0 ==> r == at_least_a_second(parsed->0 as int),
        !(parsed is Some && parsed->0 > 0) ==> r == at_least_a_second(
            span(start as int, end as int) / 100,
        ),
{
    if let Some(ns) = parsed {
        if ns > 0 {
            return if ns < SECOND_NS {
                SECOND_NS
            } else {
                ns
            };
        }
    }
    if end <= start {
        return SECOND_NS;
    }
    let length: i128 = end as i128 - start as i128;
    let capped: i128 = if length > i64::MAX as i128 {
        i64::MAX as i128
    } else {
        length
    };
    let step: i128 = capped / 100;
    if step < SECOND_NS as i128 {
        SECOND_NS
    } else {
        step as i64
    }
}

/// A Prometheus `time`: absent or unreadable means "now", the latest sample.
pub fn parse_time_ns(parsed: Option<i64>) -> (r: i64)
    ensures
        r == match parsed {
            Some(ns) => ns,
            None => i64::MAX,
        },
{
    match parsed {
        Some(ns) => ns,
        None => i64::MAX,
    }
}

/// A Prometheus `step`: absent or unreadable means 0, which selects raw samples.
pub fn parse_step_ns(parsed: Option<i64>) -> (r: i64)
    ensures
        r == match parsed {
            Some(ns) => ns,
            None => 0,
        },
{
    match parsed {
        Some(ns) => ns,
        None => 0,
    }
}

/// A time parameter: whether it is there, and its nanoseconds where it can be read.
#[derive(Debug, Clone, Copy, PartialEq, Eq, Structural)]
pub struct TimeParam {
    pub given: bool,
    pub ns: Option<i64>,
}

/// The time that a parameter stands for.
pub open spec fn time_of(t: TimeParam) -> i64 {
    if t.given && t.ns is Some {
        t.ns->0
    } else {
        i64::MAX
    }
}

/// The window of a request: an absent start is 0 (all past), an absent end is the
/// latest.
pub open spec fn window(start: TimeParam, end: TimeParam) -> (i64, i64) {
    (
        if start.given {
            time_of(start)
        } else {
            0
        },
        time_of(end),
    )
}

fn time_param(t: &TimeParam) -> (r: i64)
    ensures
        r == time_of(*t),
{
    if t.given {
        parse_time_ns(t.ns)
    } else {
        parse_time_ns(None)
    }
}

/// The window of a range, label-values or trace-search request.
pub fn request_window(start: &TimeParam, end: &TimeParam) -> (r: (i64, i64))
    ensures
        r == window(*start, *end),
{
    let from: i64 = if start.given {
        time_param(start)
    } else {
        0
    };
    (from, time_param(end))
}

/// The window of a series request: there is one only where a start is given.
pub fn series_window(start: &TimeParam, end: &TimeParam) -> (r: Option<(i64, i64)>)
    ensures
        r == if start.given {
            Some((time_of(*start), time_of(*end)))
        } else {
            None
        },
{
    if start.given {
        Some((time_param(start), time_param(end)))
    } else {
        None
    }
}

/// What a Loki range request asks for.
#[derive(Debug, Clone, Copy, PartialEq, Eq, Structural)]
pub struct LokiRequest {
    pub start: i64,
    pub end: i64,
    pub limit: u32,
    pub forward: bool,
}

/// Whether an optional text is another text.
pub open spec fn text_is(s: Option<String>, t: Seq<char>) -> bool {
    s is Some && s->0@ == t
}

/// The parameters of a Loki range request: all time, 100 lines and newest first, where
/// they are absent.
pub fn loki_query_range(
    start: &Option<String>,
    end: &Option<String>,
    limit: Option<u32>,
    direction: &Option<String>,
) -> (r: LokiRequest)
    ensures
        r.start == number_or(*start, 0),
        r.end == number_or(*end, i64::MAX),
        r.limit == (match limit {
            Some(n) => n,
            None => 100,
        }),
        r.forward == text_is(*direction, "forward"@),
{
    LokiRequest {
        start: parse_ns(start, 0),
        end: parse_ns(end, i64::MAX),
        limit: match limit {
            Some(n) => n,
            None => 100,
        },
        forward: match direction {
            Some(d) => str_eq(d.as_str(), "forward"),
            None => false,
        },
    }
}

/// How many traces a search gives: 20 where no limit is given.
pub fn tempo_limit(limit: Option<u32>) -> (r: u32)
    ensures
        r == match limit {
            Some(n) => n,
            None => 20,
        },
{
    match limit {
        Some(n) => n,
        None => 20,
    }
}

/// A selector parameter: `{}`, which matches all, where it is absent.
pub fn query_or_all(query: &Option<String>) -> (r: String)
    ensures
        r@ == match *query {
            Some(q) => q@,
            None => "{}"@,
        },
{
    match query {
        Some(q) => owned(q.as_str()),
        None => owned("{}"),
    }
}

/// Whether a client wants a trace as protobuf, by its `Accept` header.
pub fn wants_protobuf(accept: &Option<String>) -> (r: bool)
    ensures
        r == (*accept is Some && (occurs_in((*accept)->0@, "application/protobuf"@) || occurs_in(
            (*accept)->0@,
            "application/x-protobuf"@,
        ))),
{
    match accept {
        Some(a) => contains(a.as_str(), "application/protobuf") || contains(
            a.as_str(),
            "application/x-protobuf",
        ),
        None => false,
    }
}

} // verus!
