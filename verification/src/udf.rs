//! Attributes under their Prometheus names.
//!
//! Attributes are stored under their raw OTLP keys (dotted, e.g. `http.route`), while
//! queries use the Prometheus-normalized name (`http_route`): a stored key answers to
//! the name that it has when every character outside `[A-Za-z0-9_]` becomes `_`.
use crate::labels::Labels;
use crate::series::LabelMap;
use crate::text::{owned, str_eq};
use vstd::prelude::*;

verus! {

/// Whether a character is an ASCII letter or digit.
pub open spec fn is_ascii_alnum(c: char) -> bool {
    ('a' <= c && c <= 'z') || ('A' <= c && c <= 'Z') || ('0' <= c && c <= '9')
}

/// A character as it stands in a Prometheus name.
pub open spec fn normal_char(c: char) -> char {
    if is_ascii_alnum(c) || c == '_' {
        c
    } else {
        '_'
    }
}

/// The Prometheus name of a key.
pub open spec fn normalized(key: Seq<char>) -> Seq<char> {
    Seq::new(key.len(), |i: int| normal_char(key[i]))
}

/// Normalize an OTLP attribute key to its Prometheus label name: every character
/// outside `[A-Za-z0-9_]` becomes `_`.
pub fn normalize(key: &str) -> (r: String)
    ensures
        r@ == normalized(key@),
{
    let mut out = String::new();
    for c in it: key.chars()
        invariant
            it.seq() == key@,
            out@ =~= normalized(key@).take(it.index() as int),
    {
        if (c >= 'a' && c <= 'z') || (c >= 'A' && c <= 'Z') || (c >= '0' && c <= '9') || c == '_' {
            out.push(c);
        } else {
            out.push('_');
        }
    }
    assert(normalized(key@).take(key@.len() as int) =~= normalized(key@));
    out
}

/// Normalizing a normalized name changes nothing.
pub proof fn normalizing_is_idempotent(key: Seq<char>)
    ensures
        normalized(normalized(key)) == normalized(key),
{
    assert(normalized(normalized(key)) =~= normalized(key));
}

/// A name of letters, digits and underscores is its own Prometheus name.
pub proof fn normal_names_stay(key: Seq<char>)
    requires
        forall|i: int| 0 <= i < key.len() ==> is_ascii_alnum(#[trigger] key[i]) || key[i] == '_',
    ensures
        normalized(key) == key,
{
    assert(normalized(key) =~= key);
}

/// The attributes of a row: nullable, with nullable keys and values.
pub type MapRow = Option<Vec<(Option<String>, Option<String>)>>;

/// The entries of attributes that have a key; a null value is empty.
pub open spec fn entries_of(s: Seq<(Option<String>, Option<String>)>) -> Seq<(Seq<char>, Seq<char>)>
    decreases s.len(),
{
    if s.len() == 0 {
        Seq::empty()
    } else {
        let rest = entries_of(s.drop_last());
        match s.last().0 {
            None => rest,
            Some(k) => rest.push(
                (
                    k@,
                    match s.last().1 {
                        Some(v) => v@,
                        None => Seq::empty(),
                    },
                ),
            ),
        }
    }
}

/// Pairs of strings, as values.
pub open spec fn pairs_view(s: Seq<(String, String)>) -> Seq<(Seq<char>, Seq<char>)> {
    Seq::new(s.len(), |i: int| (s[i].0@, s[i].1@))
}

/// The entries of a row; none for null attributes.
pub open spec fn row_entries(row: MapRow) -> Seq<(Seq<char>, Seq<char>)> {
    match row {
        None => Seq::empty(),
        Some(s) => entries_of(s@),
    }
}

/// The `(raw_key, value)` entries of the attributes of a row, or `None` for null
/// attributes. Keys are the raw OTLP keys.
pub fn map_row_entries(row: &MapRow) -> (r: Option<Vec<(String, String)>>)
    ensures
        r is Some <==> *row is Some,
        r matches Some(e) ==> pairs_view(e@) == row_entries(*row),
{
    match row {
        None => None,
        Some(s) => {
            let mut out: Vec<(String, String)> = Vec::new();
            let mut i: usize = 0;
            while i < s.len()
                invariant
                    i <= s@.len(),
                    pairs_view(out@) =~= entries_of(s@.take(i as int)),
                decreases s.len() - i,
            {
                proof {
                    assert(s@.take(i + 1).drop_last() =~= s@.take(i as int));
                    assert(s@.take(i + 1).last() == s@[i as int]);
                }
                if let Some(k) = &s[i].0 {
                    let v = match &s[i].1 {
                        Some(v) => owned(v.as_str()),
                        None => String::new(),
                    };
                    let ghost before = out@;
                    out.push((owned(k.as_str()), v));
                    assert(pairs_view(out@) =~= pairs_view(before).push((k@, v@)));
                }
                i = i + 1;
            }
            assert(s@.take(s@.len() as int) =~= s@);
            Some(out)
        },
    }
}

/// A label set to which entries were added under their Prometheus names, where these
/// are not taken yet.
pub open spec fn with_entries(m: LabelMap, e: Seq<(Seq<char>, Seq<char>)>) -> LabelMap
    decreases e.len(),
{
    if e.len() == 0 {
        m
    } else {
        let rest = with_entries(m, e.drop_last());
        let name = normalized(e.last().0);
        if rest.dom().contains(name) {
            rest
        } else {
            rest.insert(name, e.last().1)
        }
    }
}

/// Add the attributes of a row to its labels under their Prometheus names: the labels
/// that are there win, and of the attributes with one name the first.
pub fn add_attributes(labels: Labels, row: &MapRow) -> (r: Labels)
    ensures
        r@ == with_entries(labels@, row_entries(*row)),
{
    let ghost start = labels@;
    let mut r = labels;
    if let Some(entries) = map_row_entries(row) {
        let ghost e = pairs_view(entries@);
        let mut i: usize = 0;
        while i < entries.len()
            invariant
                e == pairs_view(entries@),
                i <= entries@.len(),
                r@ == with_entries(start, e.take(i as int)),
            decreases entries.len() - i,
        {
            proof {
                assert(e.take(i + 1).drop_last() =~= e.take(i as int));
                assert(e.take(i + 1).last() == (entries@[i as int].0@, entries@[i as int].1@));
            }
            let name = normalize(entries[i].0.as_str());
            r = r.with_default(name, owned(entries[i].1.as_str()));
            i = i + 1;
        }
        assert(e.take(entries@.len() as int) =~= e);
    }
    r
}

/// The normalized labels of the attributes of a row: the first occurrence of a
/// normalized key wins.
pub fn map_row_normalized_labels(row: &MapRow) -> (r: Labels)
    ensures
        r@ == with_entries(Map::empty(), row_entries(*row)),
{
    add_attributes(Labels::new(), row)
}

/// A promoted column of a row: its label, and its nullable value.
pub type Promoted = (String, Option<String>);

/// The labels of the promoted columns of a row that are not null.
pub open spec fn promoted_labels(s: Seq<Promoted>) -> LabelMap
    decreases s.len(),
{
    if s.len() == 0 {
        Map::empty()
    } else {
        let rest = promoted_labels(s.drop_last());
        match s.last().1 {
            Some(v) => rest.insert(s.last().0@, v@),
            None => rest,
        }
    }
}

/// The labels of a row: its promoted columns, and its attributes under their
/// Prometheus names where no column has the name.
pub fn row_labels(promoted: &Vec<Promoted>, attributes: &MapRow) -> (r: Labels)
    ensures
        r@ == with_entries(promoted_labels(promoted@), row_entries(*attributes)),
{
    let mut r = Labels::new();
    let mut i: usize = 0;
    while i < promoted.len()
        invariant
            i <= promoted@.len(),
            r@ == promoted_labels(promoted@.take(i as int)),
        decreases promoted.len() - i,
    {
        proof {
            assert(promoted@.take(i + 1).drop_last() =~= promoted@.take(i as int));
            assert(promoted@.take(i + 1).last() == promoted@[i as int]);
        }
        if let Some(v) = &promoted[i].1 {
            r = r.with(owned(promoted[i].0.as_str()), owned(v.as_str()));
        }
        i = i + 1;
    }
    assert(promoted@.take(promoted@.len() as int) =~= promoted@);
    add_attributes(r, attributes)
}

/// Promoted columns win: an attribute never changes the label of one.
pub proof fn promoted_columns_win(m: LabelMap, e: Seq<(Seq<char>, Seq<char>)>, k: Seq<char>)
    requires
        m.dom().contains(k),
    ensures
        with_entries(m, e).dom().contains(k),
        with_entries(m, e)[k] == m[k],
    decreases e.len(),
{
    if e.len() > 0 {
        promoted_columns_win(m, e.drop_last(), k);
    }
}

/// The value of the first entry whose key has the Prometheus name `name`.
pub open spec fn looked_up(e: Seq<(Seq<char>, Seq<char>)>, name: Seq<char>, i: int) -> Option<
    Seq<char>,
>
    decreases e.len() - i,
{
    if 0 <= i < e.len() {
        if normalized(e[i].0) == name {
            Some(e[i].1)
        } else {
            looked_up(e, name, i + 1)
        }
    } else {
        None
    }
}

/// Look up `prom_name` in the attributes of a row by normalized key. Returns the first
/// matching entry's value.
pub fn lookup_map(row: &MapRow, prom_name: &str) -> (r: Option<String>)
    ensures
        r is Some <==> looked_up(row_entries(*row), prom_name@, 0) is Some,
        r matches Some(v) ==> looked_up(row_entries(*row), prom_name@, 0) == Some(v@),
{
    match map_row_entries(row) {
        None => None,
        Some(entries) => {
            let ghost e = pairs_view(entries@);
            let mut i: usize = 0;
            while i < entries.len()
                invariant
                    e == pairs_view(entries@),
                    e == row_entries(*row),
                    i <= entries@.len(),
                    looked_up(e, prom_name@, 0) == looked_up(e, prom_name@, i as int),
                decreases entries.len() - i,
            {
                let name = normalize(entries[i].0.as_str());
                assert(e[i as int] == (entries@[i as int].0@, entries@[i as int].1@));
                if str_eq(name.as_str(), prom_name) {
                    return Some(owned(entries[i].1.as_str()));
                }
                i = i + 1;
            }
            None
        },
    }
}

/// A value of a JSON object.
#[derive(Debug)]
pub enum JsonValue {
    /// A string.
    Text(String),
    /// Null.
    Null,
    /// Anything else, as its JSON text.
    Other(String),
}

/// The text of a JSON value; none for null.
pub open spec fn json_text(v: JsonValue) -> Option<Seq<char>> {
    match v {
        JsonValue::Text(s) => Some(s@),
        JsonValue::Null => None,
        JsonValue::Other(s) => Some(s@),
    }
}

/// Members of a JSON object, as values.
pub open spec fn members_view(s: Seq<(String, JsonValue)>) -> Seq<(Seq<char>, Option<Seq<char>>)> {
    Seq::new(s.len(), |i: int| (s[i].0@, json_text(s[i].1)))
}

/// The members of the JSON object that a text is, in the order in which
/// `serde_json::Map` walks them: each with its text, none for null; nothing where the
/// text is no object.
pub uninterp spec fn json_members(json: Seq<char>) -> Option<Seq<(Seq<char>, Option<Seq<char>>)>>;

/// `serde_json::from_str` for an object. Claimed: the members, and their order, are a
/// function of the text alone.
#[verifier::external_body]
fn read_object(json: &str) -> (r: Option<Vec<(String, JsonValue)>>)
    ensures
        r is Some <==> json_members(json@) is Some,
        r matches Some(m) ==> json_members(json@) == Some(members_view(m@)),
{
    let map: serde_json::Map<String, serde_json::Value> = serde_json::from_str(json).ok()?;
    Some(map.into_iter().map(|(k, v)| (k, match v {
        serde_json::Value::String(s) => JsonValue::Text(s),
        serde_json::Value::Null => JsonValue::Null,
        other => JsonValue::Other(other.to_string()),
    })).collect())
}

/// The value of the first member whose key has the Prometheus name `name`; none where it
/// is null, or where there is no such member.
pub open spec fn member_looked_up(
    m: Seq<(Seq<char>, Option<Seq<char>>)>,
    name: Seq<char>,
    i: int,
) -> Option<Seq<char>>
    decreases m.len() - i,
{
    if 0 <= i < m.len() {
        if normalized(m[i].0) == name {
            m[i].1
        } else {
            member_looked_up(m, name, i + 1)
        }
    } else {
        None
    }
}

/// The value of `name` in a JSON-object attributes string.
pub open spec fn json_looked_up(json: Seq<char>, name: Seq<char>) -> Option<Seq<char>> {
    match json_members(json) {
        None => None,
        Some(m) => member_looked_up(m, name, 0),
    }
}

/// The value of the first member whose key has the Prometheus name.
pub fn lookup_members(members: &Vec<(String, JsonValue)>, prom_name: &str) -> (r: Option<String>)
    ensures
        r is Some <==> member_looked_up(members_view(members@), prom_name@, 0) is Some,
        r matches Some(v) ==> member_looked_up(members_view(members@), prom_name@, 0) == Some(v@),
{
    let ghost m = members_view(members@);
    let mut i: usize = 0;
    while i < members.len()
        invariant
            m == members_view(members@),
            i <= members@.len(),
            member_looked_up(m, prom_name@, 0) == member_looked_up(m, prom_name@, i as int),
        decreases members.len() - i,
    {
        let name = normalize(members[i].0.as_str());
        assert(m[i as int] == (members@[i as int].0@, json_text(members@[i as int].1)));
        if str_eq(name.as_str(), prom_name) {
            return match &members[i].1 {
                JsonValue::Text(s) => Some(owned(s.as_str())),
                JsonValue::Null => None,
                JsonValue::Other(s) => Some(owned(s.as_str())),
            };
        }
        i = i + 1;
    }
    None
}

/// Look up `prom_name` in a JSON-object attributes string by normalized key.
pub fn lookup_json(attributes_json: &str, prom_name: &str) -> (r: Option<String>)
    ensures
        r is Some <==> json_looked_up(attributes_json@, prom_name@) is Some,
        r matches Some(v) ==> json_looked_up(attributes_json@, prom_name@) == Some(v@),
{
    match read_object(attributes_json) {
        None => None,
        Some(members) => lookup_members(&members, prom_name),
    }
}

/// A column of attributes.
#[derive(Debug)]
pub enum Attributes {
    /// Maps.
    Maps(Vec<MapRow>),
    /// JSON objects as nullable strings.
    Json(Vec<Option<String>>),
}

/// The number of rows of a column.
pub open spec fn row_count(c: Attributes) -> nat {
    match c {
        Attributes::Maps(rows) => rows@.len(),
        Attributes::Json(rows) => rows@.len(),
    }
}

/// The value of a name in a row of a column; none where the name or the row is null.
pub open spec fn attr_at(c: Attributes, names: Seq<Option<String>>, i: int) -> Option<Seq<char>> {
    if i < names.len() {
        match names[i] {
            None => None,
            Some(name) => match c {
                Attributes::Maps(rows) => looked_up(row_entries(rows@[i]), name@, 0),
                Attributes::Json(rows) => match rows@[i] {
                    None => None,
                    Some(json) => json_looked_up(json@, name@),
                },
            },
        }
    } else {
        None
    }
}

/// A nullable string, as a value.
pub open spec fn opt_text(s: Option<String>) -> Option<Seq<char>> {
    match s {
        Some(t) => Some(t@),
        None => None,
    }
}

/// Core of `prom_attr`: attributes and names, row by row, to values.
pub fn eval_prom_attr(attributes: &Attributes, names: &Vec<Option<String>>) -> (out: Vec<
    Option<String>,
>)
    ensures
        out@.len() == row_count(*attributes),
        forall|i: int|
            0 <= i < out@.len() ==> opt_text(#[trigger] out@[i]) == attr_at(*attributes, names@, i),
{
    let mut out: Vec<Option<String>> = Vec::new();
    let n: usize = match attributes {
        Attributes::Maps(rows) => rows.len(),
        Attributes::Json(rows) => rows.len(),
    };
    let mut i: usize = 0;
    while i < n
        invariant
            n == row_count(*attributes),
            i <= n,
            out@.len() == i,
            forall|j: int|
                0 <= j < i ==> opt_text(#[trigger] out@[j]) == attr_at(*attributes, names@, j),
        decreases n - i,
    {
        let mut value: Option<String> = None;
        if i < names.len() {
            if let Some(name) = &names[i] {
                match attributes {
                    Attributes::Maps(rows) => {
                        value = lookup_map(&rows[i], name.as_str());
                    },
                    Attributes::Json(rows) => {
                        if let Some(json) = &rows[i] {
                            value = lookup_json(json.as_str(), name.as_str());
                        }
                    },
                }
            }
        }
        assert(opt_text(value) == attr_at(*attributes, names@, i as int));
        out.push(value);
        i = i + 1;
    }
    out
}

/// The keys of a column of attributes: of the maps those that are not null, of the
/// strings those of the objects.
pub open spec fn has_attr_key(c: Attributes, k: Seq<char>) -> bool {
    match c {
        Attributes::Maps(rows) => exists|i: int|
            0 <= i < rows@.len() && has_entry_key(row_entries(#[trigger] rows@[i]), k),
        Attributes::Json(rows) => exists|i: int|
            0 <= i < rows@.len() && has_json_key(#[trigger] rows@[i], k),
    }
}

/// Whether an entry has the key.
pub open spec fn has_entry_key(e: Seq<(Seq<char>, Seq<char>)>, k: Seq<char>) -> bool {
    exists|j: int| 0 <= j < e.len() && (#[trigger] e[j]).0 == k
}

/// Whether a nullable string is a JSON object with the key.
pub open spec fn has_json_key(json: Option<String>, k: Seq<char>) -> bool {
    match json {
        None => false,
        Some(t) => match json_members(t@) {
            None => false,
            Some(m) => has_member_key(m, m.len() as int, k),
        },
    }
}

/// Whether one of the first `n` members has the key.
pub open spec fn has_member_key(
    m: Seq<(Seq<char>, Option<Seq<char>>)>,
    n: int,
    k: Seq<char>,
) -> bool {
    exists|j: int| 0 <= j < n && (#[trigger] m[j]).0 == k
}

fn keys_of_row(row: &MapRow, out: &mut Vec<String>)
    ensures
        forall|k: Seq<char>| #[trigger]
            crate::text::listed(final(out)@, k) <==> crate::text::listed(old(out)@, k)
                || has_entry_key(row_entries(*row), k),
{
    if let Some(entries) = map_row_entries(row) {
        let ghost e = pairs_view(entries@);
        let ghost start = out@;
        let mut i: usize = 0;
        while i < entries.len()
            invariant
                e == pairs_view(entries@),
                i <= entries@.len(),
                forall|k: Seq<char>| #[trigger]
                    crate::text::listed(out@, k) <==> crate::text::listed(start, k)
                        || has_entry_key(e.take(i as int), k),
            decreases entries.len() - i,
        {
            let ghost before = out@;
            let key = owned(entries[i].0.as_str());
            out.push(key);
            proof {
                assert(e[i as int].0 == key@);
                crate::text::listed_push(before, key);
                prefix_keys(e, i as int);
            }
            i = i + 1;
        }
        assert(e.take(entries@.len() as int) =~= e);
    }
}

proof fn prefix_keys(e: Seq<(Seq<char>, Seq<char>)>, i: int)
    requires
        0 <= i < e.len(),
    ensures
        forall|k: Seq<char>| #[trigger]
            has_entry_key(e.take(i + 1), k) <==> has_entry_key(e.take(i), k) || k == e[i].0,
{
    let a = e.take(i);
    let b = e.take(i + 1);
    assert forall|k: Seq<char>| #[trigger]
        has_entry_key(b, k) <==> has_entry_key(a, k) || k == e[i].0 by {
        if has_entry_key(a, k) {
            let j = choose|j: int| 0 <= j < a.len() && (#[trigger] a[j]).0 == k;
            assert(b[j].0 == k);
        }
        if has_entry_key(b, k) && k != e[i].0 {
            let j = choose|j: int| 0 <= j < b.len() && (#[trigger] b[j]).0 == k;
            assert(a[j].0 == k);
        }
        assert(b[i].0 == e[i].0);
    }
}

fn keys_of_json(json: &Option<String>, out: &mut Vec<String>)
    ensures
        forall|k: Seq<char>| #[trigger]
            crate::text::listed(final(out)@, k) <==> crate::text::listed(old(out)@, k)
                || has_json_key(*json, k),
{
    if let Some(t) = json {
        if let Some(members) = read_object(t.as_str()) {
            let ghost m = members_view(members@);
            let ghost start = out@;
            let mut i: usize = 0;
            while i < members.len()
                invariant
                    m == members_view(members@),
                    i <= members@.len(),
                    forall|k: Seq<char>| #[trigger]
                        crate::text::listed(out@, k) <==> crate::text::listed(start, k)
                            || has_member_key(m, i as int, k),
                decreases members.len() - i,
            {
                let ghost before = out@;
                let key = owned(members[i].0.as_str());
                out.push(key);
                proof {
                    assert(m[i as int].0 == key@);
                    crate::text::listed_push(before, key);
                    assert forall|k: Seq<char>| #[trigger]
                        has_member_key(m, i + 1, k) <==> has_member_key(m, i as int, k) || k
                            == key@ by {}
                }
                i = i + 1;
            }
        }
    }
}

/// The keys of a column of attributes.
pub fn attribute_keys(column: &Attributes) -> (out: Vec<String>)
    ensures
        forall|k: Seq<char>| #[trigger]
            crate::text::listed(out@, k) <==> has_attr_key(*column, k),
{
    let mut out: Vec<String> = Vec::new();
    match column {
        Attributes::Maps(rows) => {
            let mut i: usize = 0;
            while i < rows.len()
                invariant
                    i <= rows@.len(),
                    forall|k: Seq<char>| #[trigger]
                        crate::text::listed(out@, k) <==> exists|j: int|
                            0 <= j < i && has_entry_key(row_entries(#[trigger] rows@[j]), k),
                decreases rows.len() - i,
            {
                keys_of_row(&rows[i], &mut out);
                i = i + 1;
            }
        },
        Attributes::Json(rows) => {
            let mut i: usize = 0;
            while i < rows.len()
                invariant
                    i <= rows@.len(),
                    forall|k: Seq<char>| #[trigger]
                        crate::text::listed(out@, k) <==> exists|j: int|
                            0 <= j < i && has_json_key(#[trigger] rows@[j], k),
                decreases rows.len() - i,
            {
                keys_of_json(&rows[i], &mut out);
                i = i + 1;
            }
        },
    }
    out
}

/// The name under which attribute lookup is registered as a SQL function.
pub fn prom_attr_udf() -> (r: &'static str)
    ensures
        r@ == "prom_attr"@,
{
    "prom_attr"
}

} // verus!
