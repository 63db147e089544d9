//! Laws of names, attributes and metadata.
use crate::metadata::{
    applies, ident, is_label_name, match_tests, meta_scans, series_labels,
    value_columns, value_scans, MatchView, MetaView, ValueView,
};
use crate::selector::TestView;
use crate::series::LabelMap;
use crate::text::alphanumeric;
use crate::udf::{
    entries_of, looked_up, member_looked_up, normalized, promoted_labels,
    with_entries, Promoted,
};
use crate::windows::QueryScope;
use vstd::prelude::*;

verus! {

/// The Prometheus name of a key is as long as the key; its letters, digits and underscores
/// stay, and every other character becomes an underscore.
pub proof fn names_keep_letters_digits_and_underscores(key: Seq<char>, i: int)
    requires
        0 <= i < key.len(),
    ensures
        normalized(key).len() == key.len(),
        ({
            let c = key[i];
            normalized(key)[i] == if ('a' <= c && c <= 'z') || ('A' <= c && c <= 'Z') || ('0' <= c
                && c <= '9') || c == '_' {
                c
            } else {
                '_'
            }
        }),
{
}

/// Whether the `i`-th entry is the first one whose key has a Prometheus name; the number of
/// entries where none has.
pub open spec fn is_first_named<T>(e: Seq<(Seq<char>, T)>, name: Seq<char>, i: int) -> bool {
    &&& 0 <= i <= e.len()
    &&& i < e.len() ==> normalized(e[i].0) == name
    &&& forall|j: int| 0 <= j < i ==> normalized((#[trigger] e[j]).0) != name
}

proof fn lookups_skip(e: Seq<(Seq<char>, Seq<char>)>, name: Seq<char>, j: int, i: int)
    requires
        0 <= j <= i,
        is_first_named(e, name, i),
    ensures
        looked_up(e, name, j) == looked_up(e, name, i),
    decreases i - j,
{
    if j < i {
        assert(normalized(e[j].0) != name);
        lookups_skip(e, name, j + 1, i);
    }
}

proof fn member_lookups_skip(
    e: Seq<(Seq<char>, Option<Seq<char>>)>,
    name: Seq<char>,
    j: int,
    i: int,
)
    requires
        0 <= j <= i,
        is_first_named(e, name, i),
    ensures
        member_looked_up(e, name, j) == member_looked_up(e, name, i),
    decreases i - j,
{
    if j < i {
        assert(normalized(e[j].0) != name);
        member_lookups_skip(e, name, j + 1, i);
    }
}

/// A lookup by Prometheus name finds the value of the first entry whose key has that name,
/// and nothing where no key has it; in a JSON object a null is nothing.
pub proof fn the_first_entry_is_found(
    e: Seq<(Seq<char>, Seq<char>)>,
    m: Seq<(Seq<char>, Option<Seq<char>>)>,
    name: Seq<char>,
    i: int,
    k: int,
)
    requires
        is_first_named(e, name, i),
        is_first_named(m, name, k),
    ensures
        looked_up(e, name, 0) == if i < e.len() {
            Some(e[i].1)
        } else {
            None
        },
        member_looked_up(m, name, 0) == if k < m.len() {
            m[k].1
        } else {
            None
        },
{
    lookups_skip(e, name, 0, i);
    member_lookups_skip(m, name, 0, k);
}

/// The attributes of a row are its entries with a key, in their order; a value that is null
/// is empty.
pub proof fn attributes_are_entries_with_keys(s: Seq<(Option<String>, Option<String>)>)
    ensures
        entries_of(s) == s.filter(|x: (Option<String>, Option<String>)| x.0 is Some).map_values(
            |x: (Option<String>, Option<String>)|
                (
                    x.0->0@,
                    if x.1 is Some {
                        x.1->0@
                    } else {
                        Seq::<char>::empty()
                    },
                ),
        ),
    decreases s.len(),
{
    reveal(Seq::filter);
    let pred = |x: (Option<String>, Option<String>)| x.0 is Some;
    let f = |x: (Option<String>, Option<String>)|
        (
            x.0->0@,
            if x.1 is Some {
                x.1->0@
            } else {
                Seq::<char>::empty()
            },
        );
    if s.len() == 0 {
        assert(s.filter(pred).map_values(f) =~= Seq::empty());
    } else {
        let rest = s.drop_last();
        attributes_are_entries_with_keys(rest);
        if pred(s.last()) {
            assert(rest.filter(pred).push(s.last()).map_values(f) =~= rest.filter(pred).map_values(
                f,
            ).push(f(s.last())));
        }
    }
}

/// A label that no column gives has the value of the first attribute with that Prometheus
/// name, and is absent where there is none.
pub proof fn the_first_attribute_is_the_label(
    m: LabelMap,
    e: Seq<(Seq<char>, Seq<char>)>,
    name: Seq<char>,
    i: int,
)
    requires
        !m.dom().contains(name),
        is_first_named(e, name, i),
    ensures
        with_entries(m, e).dom().contains(name) <==> i < e.len(),
        i < e.len() ==> with_entries(m, e)[name] == e[i].1,
    decreases e.len(),
{
    if e.len() > 0 {
        let rest = e.drop_last();
        let last = e.len() - 1;
        assert(e[last] == e.last());
        assert forall|j: int| 0 <= j < rest.len() implies #[trigger] rest[j] == e[j] by {}
        if i < last {
            assert(rest[i] == e[i]);
            the_first_attribute_is_the_label(m, rest, name, i);
        } else {
            assert forall|j: int| 0 <= j < last implies normalized((#[trigger] rest[j]).0)
                != name by {
                assert(normalized(e[j].0) != name);
            }
            the_first_attribute_is_the_label(m, rest, name, last);
        }
    }
}

/// A promoted column gives its label, where its value is not null; of columns with one name
/// the last one counts.
pub proof fn promoted_columns_are_labels(s: Seq<Promoted>, i: int)
    requires
        0 <= i < s.len(),
        s[i].1 is Some,
        forall|j: int|
            i < j < s.len() && (#[trigger] s[j]).1 is Some ==> s[j].0@ != s[i].0@,
    ensures
        promoted_labels(s).dom().contains(s[i].0@),
        promoted_labels(s)[s[i].0@] == s[i].1->0@,
    decreases s.len(),
{
    let last = s.len() - 1;
    assert(s[last] == s.last());
    if i < last {
        assert(s.drop_last()[i] == s[i]);
        assert forall|j: int|
            i < j < s.drop_last().len() && (
            #[trigger] s.drop_last()[j]).1 is Some implies s.drop_last()[j].0@
            != s.drop_last()[i].0@ by {
            assert(s[j] == s.drop_last()[j]);
        }
        promoted_columns_are_labels(s.drop_last(), i);
        assert(s[last].1 is Some ==> s[last].0@ != s[i].0@);
    }
}

/// Only columns that are not null give labels.
pub proof fn promoted_labels_are_of_columns(s: Seq<Promoted>, k: Seq<char>)
    requires
        promoted_labels(s).dom().contains(k),
    ensures
        exists|i: int|
            0 <= i < s.len() && (#[trigger] s[i]).0@ == k && s[i].1 is Some && s[i].1->0@
                == promoted_labels(s)[k],
    decreases s.len(),
{
    if s.len() > 0 {
        let last = s.len() - 1;
        assert(s[last] == s.last());
        if !(s.last().1 is Some && s.last().0@ == k) {
            promoted_labels_are_of_columns(s.drop_last(), k);
            let i = choose|i: int|
                0 <= i < s.drop_last().len() && (#[trigger] s.drop_last()[i]).0@ == k
                    && s.drop_last()[i].1 is Some && s.drop_last()[i].1->0@ == promoted_labels(
                    s.drop_last(),
                )[k];
            assert(s[i] == s.drop_last()[i]);
        }
    }
}

/// A column name keeps letters and digits, and has an underscore for every other character.
pub proof fn column_names_keep_letters_and_digits(key: Seq<char>, i: int)
    requires
        0 <= i < key.len(),
    ensures
        ident(key).len() == key.len(),
        alphanumeric(key[i]) ==> ident(key)[i] == key[i],
        !alphanumeric(key[i]) ==> ident(key)[i] == '_',
{
}

/// The values of a label are those of its own column in each window; metric names are those
/// of the rows, and for rows with buckets also those of their buckets, counts and sums.
pub proof fn label_values_are_read_from_every_window(
    label: Seq<char>,
    windows: Seq<(Seq<char>, int, int)>,
    matching: MatchView,
    i: int,
    v: ValueView,
)
    requires
        0 <= i < windows.len(),
        if label == "__name__"@ {
            v == ValueView::Name || v == ValueView::BucketName("_bucket"@) || v
                == ValueView::BucketName("_count"@) || v == ValueView::BucketName("_sum"@)
        } else {
            v == ValueView::Label(label)
        },
    ensures
        value_scans(label, windows, matching).contains(
            (
                MetaView {
                    table: windows[i].0,
                    window: Some(
                        QueryScope { lo_ns: windows[i].1 as i64, hi_ns: windows[i].2 as i64 },
                    ),
                    matching,
                },
                v,
            ),
        ),
        label != "__name__"@ ==> value_columns(label) == seq![ValueView::Label(label)],
        value_columns("__name__"@).len() == 4,
    decreases windows.len(),
{
    let all = value_scans(label, windows, matching);
    let rest = value_scans(label, windows.drop_last(), matching);
    let columns = value_columns(label);
    let last = windows.len() - 1;
    let w = (
        MetaView {
            table: windows[i].0,
            window: Some(QueryScope { lo_ns: windows[i].1 as i64, hi_ns: windows[i].2 as i64 }),
            matching,
        },
        v,
    );
    if i < last {
        label_values_are_read_from_every_window(label, windows.drop_last(), matching, i, v);
        let k = choose|k: int| 0 <= k < rest.len() && rest[k] == w;
        assert(all[k] == w);
    } else {
        assert(columns.contains(v)) by {
            if label == "__name__"@ {
                assert(columns[0] == ValueView::Name);
                assert(columns[1] == ValueView::BucketName("_bucket"@));
                assert(columns[2] == ValueView::BucketName("_count"@));
                assert(columns[3] == ValueView::BucketName("_sum"@));
            } else {
                assert(columns[0] == v);
            }
        }
        let k = choose|k: int| 0 <= k < columns.len() && columns[k] == v;
        assert(all[rest.len() + k] == w);
    }
}

/// The label names are the metric name, the service name, and the Prometheus names of all
/// attribute keys, and no others.
pub proof fn label_names_are_normal_keys(keys: Seq<String>, n: Seq<char>)
    ensures
        is_label_name(keys, "__name__"@),
        is_label_name(keys, "service_name"@),
        forall|i: int| 0 <= i < keys.len() ==> is_label_name(keys, normalized((#[trigger] keys[i])@)),
        is_label_name(keys, n) && n != "__name__"@ && n != "service_name"@ ==> exists|i: int|
            0 <= i < keys.len() && normalized((#[trigger] keys[i])@) == n,
{
}

/// A listed series has the name of its metric and its service, as far as they are known,
/// and no other label.
pub proof fn listed_series_have_their_names(name: Option<String>, service: Option<String>)
    ensures
        ({
            let m = series_labels(name, service);
            &&& m.dom().contains("__name__"@) <==> name is Some
            &&& name is Some ==> m["__name__"@] == name->0@
            &&& m.dom().contains("service_name"@) <==> service is Some
            &&& service is Some ==> m["service_name"@] == service->0@
            &&& forall|k: Seq<char>| #[trigger]
                m.dom().contains(k) ==> k == "__name__"@ || k == "service_name"@
        }),
{
    reveal_strlit("__name__");
    reveal_strlit("service_name");
    assert("__name__"@.len() == 8 && "service_name"@.len() == 12);
}

/// Metadata without a span is read from all raw samples; a `match[]` that is absent or blank
/// asks for nothing.
pub proof fn metadata_without_a_span_reads_all(
    tables: Seq<String>,
    now: int,
    matching: MatchView,
    matcher: Option<String>,
)
    ensures
        meta_scans(tables, None, now, matching) == seq![
            MetaView { table: "metrics"@, window: None, matching },
        ],
        matcher is None ==> applies(matcher) && match_tests(matcher).name is None && match_tests(
            matcher,
        ).tests == Seq::<TestView>::empty(),
{
}

} // verus!
