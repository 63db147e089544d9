//! Laws of requests: where they go, and what their parameters ask for.
use crate::routes::{
    captured, digits_value, fits, is_for, is_path_of, loki_step_ns, make_routes, parse_i64,
    paths_are_disjoint, pattern, rec, request_window, segments, series_window, split, step_digits,
    step_digits_end, unrooted, Endpoint, Method, PartView, Routed, TimeParam,
};
use crate::sql::{
    dir_parquet_bytes, estimate_scan_bytes, has_parquet_extension, lowercased, parquet_sum,
    scan_bytes, sql_error_status, SignalBytes,
};
use crate::text::{decimal, occurs_in};
use vstd::prelude::*;

verus! {

/// Whether a text holds no slash.
pub open spec fn is_word(s: Seq<char>) -> bool {
    forall|k: int| 0 <= k < s.len() ==> #[trigger] s[k] != '/'
}

/// Words with a slash before each of them.
pub open spec fn path_of(words: Seq<Seq<char>>) -> Seq<char>
    decreases words.len(),
{
    if words.len() == 0 {
        Seq::empty()
    } else {
        path_of(words.drop_last()) + (seq!['/'] + words.last())
    }
}

/// The words of the path of an endpoint, with the one that a client may choose.
pub open spec fn words_of(e: Endpoint, chosen: Seq<char>) -> Seq<Seq<char>> {
    match e {
        Endpoint::LokiQueryRange => seq!["loki"@, "api"@, "v1"@, "query_range"@],
        Endpoint::LokiLabels => seq!["loki"@, "api"@, "v1"@, "labels"@],
        Endpoint::LokiLabelValues => seq!["loki"@, "api"@, "v1"@, "label"@, chosen, "values"@],
        Endpoint::LokiSeries => seq!["loki"@, "api"@, "v1"@, "series"@],
        Endpoint::LokiIndexStats => seq!["loki"@, "api"@, "v1"@, "index"@, "stats"@],
        Endpoint::LokiIndexVolumeRange => seq!["loki"@, "api"@, "v1"@, "index"@, "volume_range"@],
        Endpoint::LokiIndexVolume => seq!["loki"@, "api"@, "v1"@, "index"@, "volume"@],
        Endpoint::PromQuery => seq!["prometheus"@, "api"@, "v1"@, "query"@],
        Endpoint::PromQueryRange => seq!["prometheus"@, "api"@, "v1"@, "query_range"@],
        Endpoint::PromLabelValues => seq![
            "prometheus"@,
            "api"@,
            "v1"@,
            "label"@,
            chosen,
            "values"@,
        ],
        Endpoint::PromLabels => seq!["prometheus"@, "api"@, "v1"@, "labels"@],
        Endpoint::PromRules => seq!["prometheus"@, "api"@, "v1"@, "rules"@],
        Endpoint::PromMetadata => seq!["prometheus"@, "api"@, "v1"@, "metadata"@],
        Endpoint::PromSeries => seq!["prometheus"@, "api"@, "v1"@, "series"@],
        Endpoint::TempoSearch => seq!["tempo"@, "api"@, "search"@],
        Endpoint::TempoTraceV2 => seq!["tempo"@, "api"@, "v2"@, "traces"@, chosen],
        Endpoint::TempoTraceV1 => seq!["tempo"@, "api"@, "traces"@, chosen],
        Endpoint::TempoTagsV2 => seq!["tempo"@, "api"@, "v2"@, "search"@, "tags"@],
        Endpoint::TempoTagsV1 => seq!["tempo"@, "api"@, "search"@, "tags"@],
        Endpoint::TempoTagValuesV2 => seq![
            "tempo"@,
            "api"@,
            "v2"@,
            "search"@,
            "tag"@,
            chosen,
            "values"@,
        ],
        Endpoint::TempoTagValuesV1 => seq![
            "tempo"@,
            "api"@,
            "search"@,
            "tag"@,
            chosen,
            "values"@,
        ],
        Endpoint::TempoEcho => seq!["tempo"@, "api"@, "echo"@],
        Endpoint::Sql => seq!["api"@, "v1"@, "sql"@],
        Endpoint::Ready => seq!["ready"@],
    }
}

/// Whether a client chooses one of the words of a path.
pub open spec fn takes_a_word(e: Endpoint) -> bool {
    match e {
        Endpoint::LokiLabelValues
        | Endpoint::PromLabelValues
        | Endpoint::TempoTraceV2
        | Endpoint::TempoTraceV1
        | Endpoint::TempoTagValuesV2
        | Endpoint::TempoTagValuesV1 => true,
        _ => false,
    }
}

proof fn words_hold_no_slash()
    ensures
        is_word("loki"@),
        is_word("api"@),
        is_word("v1"@),
        is_word("v2"@),
        is_word("query_range"@),
        is_word("labels"@),
        is_word("label"@),
        is_word("values"@),
        is_word("series"@),
        is_word("index"@),
        is_word("stats"@),
        is_word("volume_range"@),
        is_word("volume"@),
        is_word("prometheus"@),
        is_word("query"@),
        is_word("rules"@),
        is_word("metadata"@),
        is_word("tempo"@),
        is_word("search"@),
        is_word("traces"@),
        is_word("tags"@),
        is_word("tag"@),
        is_word("echo"@),
        is_word("sql"@),
        is_word("ready"@),
{
    reveal_strlit("loki");
    reveal_strlit("api");
    reveal_strlit("v1");
    reveal_strlit("v2");
    reveal_strlit("query_range");
    reveal_strlit("labels");
    reveal_strlit("label");
    reveal_strlit("values");
    reveal_strlit("series");
    reveal_strlit("index");
    reveal_strlit("stats");
    reveal_strlit("volume_range");
    reveal_strlit("volume");
    reveal_strlit("prometheus");
    reveal_strlit("query");
    reveal_strlit("rules");
    reveal_strlit("metadata");
    reveal_strlit("tempo");
    reveal_strlit("search");
    reveal_strlit("traces");
    reveal_strlit("tags");
    reveal_strlit("tag");
    reveal_strlit("echo");
    reveal_strlit("sql");
    reveal_strlit("ready");
}

proof fn words_are_words(e: Endpoint, chosen: Seq<char>, i: int)
    requires
        is_word(chosen),
        0 <= i < words_of(e, chosen).len(),
    ensures
        is_word(words_of(e, chosen)[i]),
        words_of(e, chosen).len() > 0,
{
    words_hold_no_slash();
}

proof fn a_word_is_one_part(s: Seq<char>)
    requires
        is_word(s),
    ensures
        split(s) == seq![s],
    decreases s.len(),
{
    if s.len() == 0 {
        assert(s =~= Seq::empty());
        assert(split(s) =~= seq![s]);
    } else {
        let rest = s.drop_last();
        assert forall|k: int| 0 <= k < rest.len() implies #[trigger] rest[k] != '/' by {
            assert(rest[k] == s[k]);
        }
        a_word_is_one_part(rest);
        assert(rest.push(s.last()) =~= s);
        assert(s.last() == s[s.len() - 1]);
        assert(split(s) =~= seq![s]);
    }
}

proof fn a_word_is_one_more_part(s: Seq<char>, t: Seq<char>)
    requires
        is_word(t),
    ensures
        split(s + (seq!['/'] + t)) == split(s).push(t),
    decreases t.len(),
{
    let all = s + (seq!['/'] + t);
    if t.len() == 0 {
        assert(all.drop_last() =~= s);
        assert(all.last() == '/');
        assert(t =~= Seq::empty());
    } else {
        let rest = t.drop_last();
        assert forall|k: int| 0 <= k < rest.len() implies #[trigger] rest[k] != '/' by {
            assert(rest[k] == t[k]);
        }
        a_word_is_one_more_part(s, rest);
        assert(all.drop_last() =~= s + (seq!['/'] + rest));
        assert(all.last() == t[t.len() - 1]);
        assert(rest.push(t.last()) =~= t);
        let before = split(s).push(rest);
        assert(before.drop_last() =~= split(s));
    }
}

proof fn paths_are_split(words: Seq<Seq<char>>)
    requires
        words.len() > 0,
        forall|i: int| 0 <= i < words.len() ==> is_word(#[trigger] words[i]),
    ensures
        path_of(words).len() > 0,
        path_of(words)[0] == '/',
        split(path_of(words).skip(1)) == words,
    decreases words.len(),
{
    let rest = words.drop_last();
    let path = path_of(words);
    assert(is_word(words[words.len() - 1]));
    if words.len() == 1 {
        assert(path.skip(1) =~= words.last());
        a_word_is_one_part(words.last());
        assert(seq![words.last()] =~= words);
    } else {
        assert forall|i: int| 0 <= i < rest.len() implies is_word(#[trigger] rest[i]) by {
            assert(rest[i] == words[i]);
        }
        paths_are_split(rest);
        assert(path.skip(1) =~= path_of(rest).skip(1) + (seq!['/'] + words.last()));
        a_word_is_one_more_part(path_of(rest).skip(1), words.last());
        assert(rest.push(words.last()) =~= words);
    }
}

/// The place of the word that a client chooses, in a path with one.
spec fn place_of_choice(e: Endpoint) -> int {
    match e {
        Endpoint::TempoTagValuesV2 => 5,
        Endpoint::TempoTraceV1 => 3,
        _ => 4,
    }
}

proof fn the_last_open_part_is_captured(p: Seq<PartView>, s: Seq<Seq<char>>, k: int)
    requires
        p.len() == s.len(),
        -1 <= k < p.len(),
        k >= 0 ==> p[k] is Any,
        forall|i: int| k < i < p.len() ==> !(#[trigger] p[i] is Any),
    ensures
        captured(p, s) == if k >= 0 {
            Some(s[k])
        } else {
            None
        },
    decreases p.len(),
{
    if p.len() > 0 && k < p.len() - 1 {
        let (rest, before) = (p.drop_last(), s.drop_last());
        assert(!(p[p.len() - 1] is Any));
        assert forall|i: int| k < i < rest.len() implies !(#[trigger] rest[i] is Any) by {
            assert(rest[i] == p[i]);
        }
        if k >= 0 {
            assert(rest[k] == p[k] && before[k] == s[k]);
        }
        the_last_open_part_is_captured(rest, before, k);
    }
}

proof fn words_fit(e: Endpoint, chosen: Seq<char>)
    requires
        chosen.len() > 0,
    ensures
        fits(pattern(e), words_of(e, chosen)),
        words_of(e, chosen).len() > 0,
        words_of(e, chosen).last().len() > 0,
{
    words_are_not_empty();
}

proof fn chosen_words_are_captured(e: Endpoint, chosen: Seq<char>)
    ensures
        captured(pattern(e), words_of(e, chosen)) == if takes_a_word(e) {
            Some(chosen)
        } else {
            None
        },
{
    let k = if takes_a_word(e) {
        place_of_choice(e)
    } else {
        -1
    };
    the_last_open_part_is_captured(pattern(e), words_of(e, chosen), k);
}

proof fn words_are_not_empty()
    ensures
        "query_range"@.len() > 0,
        "labels"@.len() > 0,
        "values"@.len() > 0,
        "series"@.len() > 0,
        "stats"@.len() > 0,
        "volume_range"@.len() > 0,
        "volume"@.len() > 0,
        "query"@.len() > 0,
        "rules"@.len() > 0,
        "metadata"@.len() > 0,
        "search"@.len() > 0,
        "tags"@.len() > 0,
        "echo"@.len() > 0,
        "sql"@.len() > 0,
        "ready"@.len() > 0,
{
    reveal_strlit("query_range");
    reveal_strlit("labels");
    reveal_strlit("values");
    reveal_strlit("series");
    reveal_strlit("stats");
    reveal_strlit("volume_range");
    reveal_strlit("volume");
    reveal_strlit("query");
    reveal_strlit("rules");
    reveal_strlit("metadata");
    reveal_strlit("search");
    reveal_strlit("tags");
    reveal_strlit("echo");
    reveal_strlit("sql");
    reveal_strlit("ready");
}

/// A GET of the path of an endpoint, with or without a slash behind it, reaches that
/// endpoint, and hands on the word that the client chose; only the SQL endpoint takes no
/// GET. A POST reaches the SQL endpoint and those that take a form, and no other. Every other
/// method is refused on a known path.
pub proof fn paths_lead_to_their_endpoints(
    e: Endpoint,
    chosen: Seq<char>,
    method: Method,
    path: &str,
    r: Routed,
)
    requires
        is_word(chosen),
        chosen.len() > 0,
        path@ == path_of(words_of(e, chosen)) || path@ == path_of(words_of(e, chosen)) + seq!['/'],
        call_ensures(make_routes, (method, path), r),
    ensures
        ({
            let takes_a_form = e == Endpoint::PromQuery || e == Endpoint::PromQueryRange || e
                == Endpoint::PromLabels || e == Endpoint::PromSeries || e == Endpoint::LokiSeries;
            let reached = match method {
                Method::Get => e != Endpoint::Sql,
                Method::Post => e == Endpoint::Sql || takes_a_form,
                Method::Other => false,
            };
            match r {
                Routed::Found(found, word) => reached && found == e && (if takes_a_word(e) {
                    word is Some && word->0@ == chosen
                } else {
                    word is None
                }),
                Routed::NotAllowed => !reached,
                Routed::NotFound => false,
            }
        }),
{
    let words = words_of(e, chosen);
    assert forall|i: int| 0 <= i < words.len() implies is_word(#[trigger] words[i]) by {
        words_are_words(e, chosen, i);
    }
    words_fit(e, chosen);
    chosen_words_are_captured(e, chosen);
    paths_are_split(words);
    let plain = path_of(words);
    if path@ == plain {
        assert(segments(path@) == words);
    } else {
        let none = Seq::<char>::empty();
        assert(unrooted(path@) =~= plain.skip(1) + (seq!['/'] + none));
        a_word_is_one_more_part(plain.skip(1), none);
        assert(words.push(none).drop_last() =~= words);
        assert(segments(path@) == words);
    }
    assert(is_path_of(e, path@));
    match r {
        Routed::Found(found, _) => {
            assert(is_for(found, method, path@));
            paths_are_disjoint(e, found, path@);
        },
        _ => {
            assert(!is_for(e, method, path@));
        },
    }
}

proof fn digits_are_read(n: nat)
    ensures
        digits_value(decimal(n)) == Some(n as int),
        decimal(n).len() > 0,
        '0' <= decimal(n)[0] && decimal(n)[0] <= '9',
    decreases n,
{
    if n >= 10 {
        digits_are_read(n / 10);
        let s = decimal(n);
        assert(s.drop_last() =~= decimal(n / 10));
        assert(s[0] == decimal(n / 10)[0]);
    }
}

/// The decimal digits of a number, with or without a sign, are read as that number, where it
/// fits in 64 bits; and as none where it does not.
pub proof fn numbers_are_read_back(n: nat, s: &str, r: Option<i64>)
    requires
        call_ensures(parse_i64, (s,), r),
    ensures
        s@ == decimal(n) || s@ == seq!['+'] + decimal(n) ==> if n <= i64::MAX {
            r is Some && r->0 == n
        } else {
            r is None
        },
        s@ == seq!['-'] + decimal(n) ==> if n <= -(i64::MIN as int) {
            r is Some && r->0 == -(n as int)
        } else {
            r is None
        },
{
    digits_are_read(n);
    assert((seq!['+'] + decimal(n)).skip(1) =~= decimal(n));
    assert((seq!['-'] + decimal(n)).skip(1) =~= decimal(n));
}

proof fn digits_are_digits(s: Seq<char>, k: int)
    requires
        digits_value(s) is Some,
        0 <= k < s.len(),
    ensures
        '0' <= s[k] && s[k] <= '9',
    decreases s.len(),
{
    if k < s.len() - 1 {
        digits_are_digits(s.drop_last(), k);
        assert(s.drop_last()[k] == s[k]);
    }
}

/// A text that is read as a number holds digits only, but for a sign before them.
pub proof fn only_digits_are_read(s: &str, r: Option<i64>, k: int)
    requires
        call_ensures(parse_i64, (s,), r),
        r is Some,
        0 <= k < s@.len(),
    ensures
        ('0' <= s@[k] && s@[k] <= '9') || (k == 0 && s@.len() > 1 && (s@[0] == '-' || s@[0] == '+')),
{
    let signed = s@[0] == '-' || s@[0] == '+';
    if signed {
        if k > 0 {
            digits_are_digits(s@.skip(1), k - 1);
            assert(s@.skip(1)[k - 1] == s@[k]);
        }
    } else {
        digits_are_digits(s@, k);
    }
}

proof fn step_digits_go_on(s: Seq<char>, i: int)
    requires
        0 <= i <= s.len(),
    ensures
        i <= step_digits_end(s, i) <= s.len(),
        forall|k: int|
            i <= k < step_digits_end(s, i) ==> ('0' <= #[trigger] s[k] && s[k] <= '9') || s[k] == '.',
        step_digits_end(s, i) < s.len() ==> {
            let c = s[step_digits_end(s, i)];
            !('0' <= c && c <= '9') && c != '.'
        },
    decreases s.len() - i,
{
    if i < s.len() && (('0' <= s[i] && s[i] <= '9') || s[i] == '.') {
        step_digits_go_on(s, i + 1);
    }
}

/// A step is read up to its unit: what comes before is made of digits and points, and is
/// followed by something else, or by nothing.
pub proof fn steps_are_read_up_to_their_unit(step: &str, r: String)
    requires
        call_ensures(step_digits, (step,), r),
    ensures
        r@.len() <= step@.len(),
        r@ == step@.take(r@.len() as int),
        forall|k: int|
            0 <= k < r@.len() ==> ('0' <= #[trigger] r@[k] && r@[k] <= '9') || r@[k] == '.',
        r@.len() < step@.len() ==> {
            let c = step@[r@.len() as int];
            !('0' <= c && c <= '9') && c != '.'
        },
{
    step_digits_go_on(step@, 0);
}

/// A step for logs is the one that is given, or a hundredth of the range, rounded down; but
/// at least a second.
pub proof fn log_steps_divide_the_range(parsed: Option<i64>, start: i64, end: i64, r: i64)
    requires
        call_ensures(loki_step_ns, (parsed, start, end), r),
    ensures
        r >= 1_000_000_000,
        parsed is Some && parsed->0 >= 1_000_000_000 ==> r == parsed->0,
        parsed is Some && 0 < parsed->0 < 1_000_000_000 ==> r == 1_000_000_000,
        ({
            let given = parsed is Some && parsed->0 > 0;
            let length = end - start;
            &&& !given && length < 100_000_000_000 ==> r == 1_000_000_000
            &&& !given && 100_000_000_000 <= length <= i64::MAX ==> r * 100 <= length < (r + 1)
                * 100
        }),
{
}

/// The window of a request goes from its start to its end: without a start from the
/// beginning, without an end to the latest. Series are looked for in a window only where a
/// start is given.
pub proof fn windows_are_those_of_the_request(
    start: &TimeParam,
    end: &TimeParam,
    w: (i64, i64),
    series: Option<(i64, i64)>,
)
    requires
        call_ensures(request_window, (start, end), w),
        call_ensures(series_window, (start, end), series),
    ensures
        start.given && start.ns is Some ==> w.0 == start.ns->0,
        !start.given ==> w.0 == 0,
        end.given && end.ns is Some ==> w.1 == end.ns->0,
        !end.given || end.ns is None ==> w.1 == i64::MAX,
        series is Some <==> start.given,
        series is Some ==> series->0 == w,
{
}

/// Requests for data are counted by the API and the signal of their endpoint; those for
/// labels, tags and the like are not counted.
pub proof fn requests_are_counted_by_signal(e: Endpoint, r: Option<(&'static str, &'static str)>)
    requires
        call_ensures(rec, (e,), r),
    ensures
        ({
            let (api, signal) = match r {
                Some((a, s)) => (a@, s@),
                None => (""@, ""@),
            };
            let first = words_of(e, ""@)[0];
            &&& r is Some && first != "api"@ ==> api == first
            &&& r is Some && first == "loki"@ ==> signal == "logs"@
            &&& r is Some && first == "prometheus"@ ==> signal == "metrics"@
            &&& r is Some && first == "tempo"@ ==> signal == "traces"@
            &&& e == Endpoint::Sql ==> r is Some && api == "sql"@ && signal == "sql"@
        }),
        r is Some <==> (e == Endpoint::LokiQueryRange || e == Endpoint::LokiIndexVolume || e
            == Endpoint::LokiIndexVolumeRange || e == Endpoint::PromQuery || e
            == Endpoint::PromQueryRange || e == Endpoint::TempoSearch || e == Endpoint::TempoTraceV1
            || e == Endpoint::TempoTraceV2 || e == Endpoint::Sql),
{
    reveal_strlit("loki");
    reveal_strlit("prometheus");
    reveal_strlit("tempo");
    reveal_strlit("api");
    reveal_strlit("ready");
    assert("loki"@.len() == 4 && "prometheus"@.len() == 10 && "tempo"@.len() == 5 && "api"@.len()
        == 3);
    assert("ready"@.len() == 5 && "ready"@[0] == 'r' && "tempo"@[0] == 't');
}

/// The estimate of a query is the sum of the bytes of the tables that it names, up to the
/// greatest number there is.
pub proof fn named_tables_are_scanned(sizes: &SignalBytes, lower: &str, r: u64)
    requires
        call_ensures(scan_bytes, (sizes, lower), r),
    ensures
        ({
            let logs = if occurs_in(lower@, "logs"@) {
                sizes.logs as int
            } else {
                0
            };
            let traces = if occurs_in(lower@, "traces"@) {
                sizes.traces as int
            } else {
                0
            };
            let metrics = if occurs_in(lower@, "metrics"@) {
                sizes.metrics as int
            } else {
                0
            };
            let total = logs + traces + metrics;
            r == if total <= u64::MAX {
                total
            } else {
                u64::MAX as int
            }
        }),
{
}

/// Whether a query is written in small letters or not, it is held to the same budget: its
/// estimate is that of its text in small letters.
pub proof fn estimates_know_no_case(sizes: &SignalBytes, sql: &str, lower: &str, a: u64, b: u64)
    requires
        call_ensures(estimate_scan_bytes, (sizes, sql), a),
        call_ensures(scan_bytes, (sizes, lower), b),
    ensures
        lower@ == lowercased(sql@) ==> a == b,
{
}

proof fn extensions_are_endings(name: Seq<char>)
    ensures
        has_extension(name) == has_parquet_extension(name),
{
    reveal_strlit(".parquet");
    assert(".parquet"@.len() == 8);
    if name.len() > 8 {
        assert(name.skip(name.len() - 8) =~= name.subrange(name.len() - 8, name.len() as int));
    }
}

proof fn parquet_files_are_summed(files: Seq<(String, u64)>)
    ensures
        parquet_sum(files) == files.filter(
            |f: (String, u64)| has_extension(f.0@),
        ).fold_left(0int, |sum: int, f: (String, u64)| sum + f.1),
        parquet_sum(files) >= 0,
    decreases files.len(),
{
    reveal(Seq::filter);
    let pred = |f: (String, u64)| has_extension(f.0@);
    let plus = |sum: int, f: (String, u64)| sum + f.1;
    if files.len() > 0 {
        let rest = files.drop_last();
        parquet_files_are_summed(rest);
        extensions_are_endings(files.last().0@);
        if pred(files.last()) {
            let more = rest.filter(pred).push(files.last());
            assert(more.drop_last() =~= rest.filter(pred));
            assert(more.fold_left(0int, plus) == plus(
                rest.filter(pred).fold_left(0int, plus),
                files.last(),
            ));
        }
    }
}

/// Whether a file name has something before `.parquet` at its end.
pub open spec fn has_extension(name: Seq<char>) -> bool {
    name.len() > 8 && name.skip(name.len() - 8) == ".parquet"@
}

/// The bytes of a directory are the sum of the bytes of its Parquet files, up to the greatest
/// number there is.
pub proof fn only_parquet_files_count(files: &Vec<(String, u64)>, r: u64)
    requires
        call_ensures(dir_parquet_bytes, (files,), r),
    ensures
        ({
            let total = files@.filter(|f: (String, u64)| has_extension(f.0@)).fold_left(
                0int,
                |sum: int, f: (String, u64)| sum + f.1,
            );
            r == if total <= u64::MAX {
                total
            } else {
                u64::MAX as int
            }
        }),
{
    parquet_files_are_summed(files@);
}

/// A message of a failed query is answered with status 422 where it begins with
/// `guardrail:`, and else with 400.
pub proof fn only_guardrails_are_unprocessable(rest: Seq<char>, message: &str, r: u16)
    requires
        call_ensures(sql_error_status, (message,), r),
    ensures
        message@ == "guardrail:"@ + rest ==> r == 422,
        message@.len() < 10 || message@.take(10) != "guardrail:"@ ==> r == 400,
{
    reveal_strlit("guardrail:");
    let n = "guardrail:"@.len() as int;
    assert(n == 10);
    assert(("guardrail:"@ + rest).subrange(0, n) =~= "guardrail:"@);
    if message@.len() >= 10 {
        assert(message@.subrange(0, n) =~= message@.take(10));
    }
}

} // verus!
