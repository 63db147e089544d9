//! Label sets: the identity of a series, and the rules that pick labels from it.
use crate::text::{
    among, ascending_texts_are_unique, in_list, joined, listed_is_among, owned, precedes,
    precedes_total, precedes_transitive, str_eq, texts, texts_ascend,
};
use crate::textmap::{
    ascending, has_key, mapping, mapping_at, mapping_is_finite, place_of, same_keys_same_places, TextMap,
};
use vstd::prelude::*;

verus! {

/// A set of labels: each name once, walked in ascending order of the names.
#[derive(Debug)]
pub struct Labels {
    map: TextMap<String>,
}

/// A mapping to strings, with the strings as texts.
pub open spec fn as_texts(m: Map<Seq<char>, String>) -> Map<Seq<char>, Seq<char>> {
    Map::new(|k: Seq<char>| m.dom().contains(k), |k: Seq<char>| m[k]@)
}

/// The text that std's `Debug` writes for a string: quoted and escaped.
pub uninterp spec fn quoted(s: Seq<char>) -> Seq<char>;

/// Std's `Debug` of a `str`. Claimed: the text is a function of the string alone.
#[verifier::external_body]
fn debug_of(s: &str) -> (r: String)
    ensures
        r@ == quoted(s@),
{
    format!("{:?}", s)
}

/// A character of a marked text: a quote, a backslash or a NUL is written with a
/// backslash.
pub open spec fn escaped(c: char) -> Seq<char> {
    if c == '"' || c == '\\' {
        seq!['\\', c]
    } else if c == '\0' {
        seq!['\\', '0']
    } else {
        seq![c]
    }
}

/// The characters of a text, each escaped.
pub open spec fn all_escaped(s: Seq<char>) -> Seq<char>
    decreases s.len(),
{
    if s.len() == 0 {
        Seq::empty()
    } else {
        escaped(s[0]) + all_escaped(s.skip(1))
    }
}

/// A text whose end is marked by a quote.
pub open spec fn marked(s: Seq<char>) -> Seq<char> {
    all_escaped(s) + seq!['"']
}

fn push_marked(out: &mut String, s: &str)
    ensures
        final(out)@ == old(out)@ + marked(s@),
{
    let ghost start = out@;
    let ghost want = start + all_escaped(s@);
    assert(s@.skip(0) =~= s@);
    for c in it: s.chars()
        invariant
            it.seq() == s@,
            out@ + all_escaped(s@.skip(it.index() as int)) == want,
    {
        proof {
            let rest = s@.skip(it.index() as int);
            assert(rest[0] == c);
            assert(rest.skip(1) =~= s@.skip(it.index() + 1));
            assert(out@ + all_escaped(rest) =~= out@ + escaped(c) + all_escaped(rest.skip(1)));
            assert(out@.push('\\').push(c) =~= out@ + seq!['\\', c]);
            assert(out@.push('\\').push('0') =~= out@ + seq!['\\', '0']);
            assert(out@.push(c) =~= out@ + seq![c]);
        }
        if c == '\0' {
            out.push('\\');
            out.push('0');
        } else {
            if c == '"' || c == '\\' {
                out.push('\\');
            }
            out.push(c);
        }
    }
    proof {
        assert(s@.skip(s@.len() as int) =~= Seq::empty());
        assert(out@ =~= want);
        assert(want.push('"') =~= start + marked(s@));
    }
    out.push('"');
}

/// What follows a marked text begins where the text ends.
proof fn marked_ends_itself(s: Seq<char>, x: Seq<char>, t: Seq<char>, y: Seq<char>)
    requires
        marked(s) + x == marked(t) + y,
    ensures
        s == t,
        x == y,
    decreases s.len(),
{
    let a = marked(s) + x;
    let b = marked(t) + y;
    if s.len() == 0 && t.len() == 0 {
        assert(a.skip(1) =~= x);
        assert(b.skip(1) =~= y);
        assert(s =~= t);
    } else if s.len() == 0 {
        assert(a[0] == '"');
        assert(b[0] == escaped(t[0])[0]);
    } else if t.len() == 0 {
        assert(b[0] == '"');
        assert(a[0] == escaped(s[0])[0]);
    } else {
        let n = escaped(s[0]).len() as int;
        assert(a[0] == escaped(s[0])[0]);
        assert(b[0] == escaped(t[0])[0]);
        if n == 2 {
            assert(escaped(t[0]).len() == 2);
            assert(a[1] == escaped(s[0])[1]);
            assert(b[1] == escaped(t[0])[1]);
        }
        assert(s[0] == t[0]);
        assert(a.skip(n) =~= marked(s.skip(1)) + x);
        assert(b.skip(n) =~= marked(t.skip(1)) + y);
        marked_ends_itself(s.skip(1), x, t.skip(1), y);
        assert(s =~= seq![s[0]] + s.skip(1));
        assert(t =~= seq![t[0]] + t.skip(1));
    }
}

/// Whether a list of pairs, ascending by name, lists a label set.
pub open spec fn lists(s: Seq<(Seq<char>, Seq<char>)>, m: Map<Seq<char>, Seq<char>>) -> bool {
    &&& forall|i: int, j: int| 0 <= i < j < s.len() ==> precedes((#[trigger] s[i]).0, (#[trigger] s[j]).0)
    &&& forall|i: int|
        0 <= i < s.len() ==> m.dom().contains((#[trigger] s[i]).0) && m[s[i].0] == s[i].1
    &&& forall|k: Seq<char>| #[trigger]
        m.dom().contains(k) ==> exists|i: int| 0 <= i < s.len() && (#[trigger] s[i]).0 == k
}

/// The labels of a set as pairs, ascending by name.
pub open spec fn listed_pairs(m: Map<Seq<char>, Seq<char>>) -> Seq<(Seq<char>, Seq<char>)> {
    choose|s: Seq<(Seq<char>, Seq<char>)>| lists(s, m)
}

/// A label set is listed in one way only.
pub proof fn listing_is_unique(
    a: Seq<(Seq<char>, Seq<char>)>,
    b: Seq<(Seq<char>, Seq<char>)>,
    m: Map<Seq<char>, Seq<char>>,
)
    requires
        lists(a, m),
        lists(b, m),
    ensures
        a == b,
{
    let x = Seq::new(a.len(), |i: int| a[i].0);
    let y = Seq::new(b.len(), |i: int| b[i].0);
    assert forall|k: Seq<char>| among(x, k) == m.dom().contains(k) by {
        if among(x, k) {
            let i = choose|i: int| 0 <= i < x.len() && #[trigger] x[i] == k;
            assert(a[i].0 == k);
        }
        if m.dom().contains(k) {
            let i = choose|i: int| 0 <= i < a.len() && (#[trigger] a[i]).0 == k;
            assert(x[i] == k);
        }
    }
    assert forall|k: Seq<char>| among(y, k) == m.dom().contains(k) by {
        if among(y, k) {
            let i = choose|i: int| 0 <= i < y.len() && #[trigger] y[i] == k;
            assert(b[i].0 == k);
        }
        if m.dom().contains(k) {
            let i = choose|i: int| 0 <= i < b.len() && (#[trigger] b[i]).0 == k;
            assert(y[i] == k);
        }
    }
    assert(texts_ascend(x)) by {
        assert forall|i: int, j: int| 0 <= i < j < x.len() implies precedes(
            #[trigger] x[i],
            #[trigger] x[j],
        ) by {
            assert(precedes(a[i].0, a[j].0));
        }
    }
    assert(texts_ascend(y)) by {
        assert forall|i: int, j: int| 0 <= i < j < y.len() implies precedes(
            #[trigger] y[i],
            #[trigger] y[j],
        ) by {
            assert(precedes(b[i].0, b[j].0));
        }
    }
    ascending_texts_are_unique(x, y);
    assert(x == y);
    assert(x.len() == a.len() && y.len() == b.len());
    assert forall|i: int| 0 <= i < a.len() implies #[trigger] a[i] == b[i] by {
        assert(x[i] == y[i]);
        assert(b[i].0 == a[i].0);
    }
    assert(a =~= b);
}

/// A pair as text: its quoted name and its quoted value.
pub open spec fn entry_text(e: (Seq<char>, Seq<char>)) -> Seq<char> {
    quoted(e.0) + ": "@ + quoted(e.1)
}

/// The pairs as text, separated by commas.
pub open spec fn entries_text(s: Seq<(Seq<char>, Seq<char>)>) -> Seq<char>
    decreases s.len(),
{
    if s.len() == 0 {
        Seq::empty()
    } else if s.len() == 1 {
        entry_text(s.last())
    } else {
        entries_text(s.drop_last()) + ", "@ + entry_text(s.last())
    }
}

/// The text that std's `Debug` writes for a label set: its labels, ascending by name, in
/// braces.
pub open spec fn label_text(m: Map<Seq<char>, Seq<char>>) -> Seq<char> {
    "{"@ + entries_text(listed_pairs(m)) + "}"@
}

/// The names and values of pairs, each marked.
pub open spec fn marks(s: Seq<(Seq<char>, Seq<char>)>) -> Seq<char>
    decreases s.len(),
{
    if s.len() == 0 {
        Seq::empty()
    } else {
        marks(s.drop_last()) + marked(s.last().0) + marked(s.last().1)
    }
}

/// The key of a label set: the text by which label sets are ordered, and, behind a NUL,
/// the marked labels, by which they are told apart.
pub open spec fn rendered(m: Map<Seq<char>, Seq<char>>) -> Seq<char> {
    label_text(m) + seq!['\0'] + marks(listed_pairs(m))
}

proof fn marks_from_the_front(s: Seq<(Seq<char>, Seq<char>)>)
    requires
        s.len() > 0,
    ensures
        marks(s) == marked(s[0].0) + (marked(s[0].1) + marks(s.skip(1))),
    decreases s.len(),
{
    let tail = s.skip(1);
    if s.len() == 1 {
        assert(marks(s.drop_last()) =~= Seq::empty());
        assert(marks(tail) =~= Seq::empty());
        assert(marks(s) =~= marked(s[0].0) + (marked(s[0].1) + marks(tail)));
    } else {
        let init = s.drop_last();
        marks_from_the_front(init);
        assert(init[0] == s[0]);
        assert(tail.last() == s.last());
        assert(tail.drop_last() =~= init.skip(1));
        assert(marks(s) =~= marked(s[0].0) + (marked(s[0].1) + marks(tail)));
    }
}

proof fn marks_tell_apart(a: Seq<(Seq<char>, Seq<char>)>, b: Seq<(Seq<char>, Seq<char>)>)
    requires
        marks(a) == marks(b),
    ensures
        a == b,
    decreases a.len(),
{
    if a.len() > 0 {
        marks_from_the_front(a);
        assert(marks(a).len() > 0);
    }
    if b.len() > 0 {
        marks_from_the_front(b);
        assert(marks(b).len() > 0);
    }
    if a.len() == 0 {
        assert(a =~= b);
    } else {
        let x = marks(a.skip(1));
        let y = marks(b.skip(1));
        marked_ends_itself(a[0].0, marked(a[0].1) + x, b[0].0, marked(b[0].1) + y);
        marked_ends_itself(a[0].1, x, b[0].1, y);
        marks_tell_apart(a.skip(1), b.skip(1));
        assert(a =~= seq![a[0]] + a.skip(1));
        assert(b =~= seq![b[0]] + b.skip(1));
    }
}

/// Whether a text holds no NUL.
spec fn without_nul(s: Seq<char>) -> bool {
    forall|i: int| 0 <= i < s.len() ==> #[trigger] s[i] != '\0'
}

proof fn escapes_hold_no_nul(s: Seq<char>)
    ensures
        without_nul(all_escaped(s)),
    decreases s.len(),
{
    if s.len() > 0 {
        escapes_hold_no_nul(s.skip(1));
        assert(without_nul(escaped(s[0])));
    }
}

proof fn marks_hold_no_nul(s: Seq<(Seq<char>, Seq<char>)>)
    ensures
        without_nul(marks(s)),
    decreases s.len(),
{
    if s.len() > 0 {
        marks_hold_no_nul(s.drop_last());
        escapes_hold_no_nul(s.last().0);
        escapes_hold_no_nul(s.last().1);
    }
}

proof fn last_nul_divides(x: Seq<char>, p: Seq<char>, y: Seq<char>, q: Seq<char>)
    requires
        x + seq!['\0'] + p == y + seq!['\0'] + q,
        without_nul(p),
        without_nul(q),
    ensures
        p == q,
{
    let a = x + seq!['\0'] + p;
    let b = y + seq!['\0'] + q;
    assert(a.len() == b.len());
    assert(a[x.len() as int] == '\0');
    assert(b[y.len() as int] == '\0');
    if x.len() < y.len() {
        assert(a[y.len() as int] == p[y.len() - x.len() - 1]);
    } else if y.len() < x.len() {
        assert(b[x.len() as int] == q[x.len() - y.len() - 1]);
    }
    assert(a.skip(x.len() as int + 1) =~= p);
    assert(b.skip(y.len() as int + 1) =~= q);
}

/// A label set can be listed.
proof fn some_listing(m: Map<Seq<char>, Seq<char>>) -> (s: Seq<(Seq<char>, Seq<char>)>)
    requires
        m.dom().finite(),
    ensures
        lists(s, m),
    decreases m.dom().len(),
{
    if m.dom().len() == 0 {
        assert forall|k: Seq<char>| !m.dom().contains(k) by {
            if m.dom().contains(k) {
                assert(m.dom().remove(k).len() < 0);
            }
        }
        Seq::empty()
    } else {
        let k = m.dom().choose();
        let rest = m.remove(k);
        assert(rest.dom() =~= m.dom().remove(k));
        let s = some_listing(rest);
        let p = count_before(s, k);
        count_before_is_a_place(s, k);
        let t = s.insert(p, (k, m[k]));
        assert forall|i: int, j: int| 0 <= i < j < t.len() implies precedes(
            (#[trigger] t[i]).0,
            (#[trigger] t[j]).0,
        ) by {
            let si = if i < p { i } else { i - 1 };
            let sj = if j < p { j } else { j - 1 };
            if i != p {
                assert(t[i] == s[si]);
            }
            if j != p {
                assert(t[j] == s[sj]);
            }
        }
        assert forall|i: int| 0 <= i < t.len() implies m.dom().contains((#[trigger] t[i]).0)
            && m[t[i].0] == t[i].1 by {
            if i != p {
                let si = if i < p { i } else { i - 1 };
                assert(t[i] == s[si]);
                assert(rest.dom().contains(s[si].0));
            }
        }
        assert forall|x: Seq<char>| #[trigger] m.dom().contains(x) implies exists|i: int|
            0 <= i < t.len() && (#[trigger] t[i]).0 == x by {
            if x == k {
                assert(t[p].0 == x);
            } else {
                assert(rest.dom().contains(x));
                let i = choose|i: int| 0 <= i < s.len() && (#[trigger] s[i]).0 == x;
                if i < p {
                    assert(t[i].0 == x);
                } else {
                    assert(t[i + 1].0 == x);
                }
            }
        }
        t
    }
}

/// How many names of a listing precede a name.
spec fn count_before(s: Seq<(Seq<char>, Seq<char>)>, k: Seq<char>) -> int
    decreases s.len(),
{
    if s.len() == 0 {
        0
    } else if precedes(s.last().0, k) {
        s.len() as int
    } else {
        count_before(s.drop_last(), k)
    }
}

proof fn count_before_is_a_place(s: Seq<(Seq<char>, Seq<char>)>, k: Seq<char>)
    requires
        forall|i: int, j: int|
            0 <= i < j < s.len() ==> precedes((#[trigger] s[i]).0, (#[trigger] s[j]).0),
        forall|i: int| 0 <= i < s.len() ==> (#[trigger] s[i]).0 != k,
    ensures
        0 <= count_before(s, k) <= s.len(),
        forall|i: int| 0 <= i < count_before(s, k) ==> precedes((#[trigger] s[i]).0, k),
        forall|i: int| count_before(s, k) <= i < s.len() ==> precedes(k, (#[trigger] s[i]).0),
    decreases s.len(),
{
    if s.len() > 0 {
        let last = s.last().0;
        assert(s.last() == s[s.len() - 1]);
        if precedes(last, k) {
            assert forall|i: int| 0 <= i < s.len() implies precedes((#[trigger] s[i]).0, k) by {
                if i < s.len() - 1 {
                    assert(precedes(s[i].0, s[s.len() - 1].0));
                    precedes_transitive(s[i].0, last, k);
                }
            }
        } else {
            let init = s.drop_last();
            assert(forall|i: int| 0 <= i < init.len() ==> #[trigger] init[i] == s[i]);
            count_before_is_a_place(init, k);
            precedes_total(last, k);
            assert forall|i: int| count_before(s, k) <= i < s.len() implies precedes(
                k,
                (#[trigger] s[i]).0,
            ) by {
                if i < s.len() - 1 {
                    assert(init[i] == s[i]);
                }
            }
            assert forall|i: int| 0 <= i < count_before(s, k) implies precedes(
                (#[trigger] s[i]).0,
                k,
            ) by {
                assert(init[i] == s[i]);
            }
        }
    }
}

/// Different label sets have different keys, so what is told apart by its key is told
/// apart by its labels.
pub proof fn keys_tell_label_sets_apart(
    a: Map<Seq<char>, Seq<char>>,
    b: Map<Seq<char>, Seq<char>>,
)
    requires
        a.dom().finite(),
        b.dom().finite(),
    ensures
        rendered(a) == rendered(b) <==> a == b,
{
    if rendered(a) == rendered(b) {
        let x = listed_pairs(a);
        let y = listed_pairs(b);
        let sa = some_listing(a);
        let sb = some_listing(b);
        assert(lists(x, a));
        assert(lists(y, b));
        marks_hold_no_nul(x);
        marks_hold_no_nul(y);
        last_nul_divides(label_text(a), marks(x), label_text(b), marks(y));
        marks_tell_apart(x, y);
        assert forall|k: Seq<char>| a.dom().contains(k) <==> b.dom().contains(k) by {
            if a.dom().contains(k) {
                let i = choose|i: int| 0 <= i < x.len() && (#[trigger] x[i]).0 == k;
                assert(y[i].0 == k);
            }
            if b.dom().contains(k) {
                let i = choose|i: int| 0 <= i < y.len() && (#[trigger] y[i]).0 == k;
                assert(x[i].0 == k);
            }
        }
        assert forall|k: Seq<char>| a.dom().contains(k) implies a[k] == b[k] by {
            let i = choose|i: int| 0 <= i < x.len() && (#[trigger] x[i]).0 == k;
            assert(x[i].1 == y[i].1);
            assert(b.dom().contains(y[i].0));
        }
        assert(a =~= b);
    }
}

/// The listing of a text map of labels.
spec fn pairs_of(s: Seq<(String, String)>) -> Seq<(Seq<char>, Seq<char>)> {
    Seq::new(s.len(), |i: int| (s[i].0@, s[i].1@))
}

proof fn pairs_list_the_map(s: Seq<(String, String)>)
    requires
        ascending(s),
    ensures
        lists(pairs_of(s), as_texts(mapping(s))),
        listed_pairs(as_texts(mapping(s))) == pairs_of(s),
{
    let p = pairs_of(s);
    let m = as_texts(mapping(s));
    assert forall|i: int| 0 <= i < p.len() implies m.dom().contains((#[trigger] p[i]).0)
        && m[p[i].0] == p[i].1 by {
        mapping_at(s, i);
    }
    assert forall|i: int, j: int| 0 <= i < j < p.len() implies precedes(
        (#[trigger] p[i]).0,
        (#[trigger] p[j]).0,
    ) by {
        assert(precedes(s[i].0@, s[j].0@));
    }
    assert forall|k: Seq<char>| #[trigger] m.dom().contains(k) implies exists|i: int|
        0 <= i < p.len() && (#[trigger] p[i]).0 == k by {
        let i = place_of(s, k);
        assert(s[i].0@ == k);
        assert(p[i].0 == k);
    }
    assert(lists(p, m));
    listing_is_unique(p, listed_pairs(m), m);
}

impl Labels {
    /// The mapping from label names to label values.
    pub closed spec fn view(&self) -> Map<Seq<char>, Seq<char>> {
        as_texts(self.map@)
    }

    /// A label set is finite.
    pub proof fn is_finite(&self)
        ensures
            self@.dom().finite(),
    {
        mapping_is_finite(self.map.listing());
        assert(self@.dom() =~= self.map@.dom());
    }

    /// The empty label set.
    pub fn new() -> (r: Labels)
        ensures
            r@ == Map::<Seq<char>, Seq<char>>::empty(),
    {
        let r = Labels { map: TextMap::new() };
        assert(r@ =~= Map::<Seq<char>, Seq<char>>::empty());
        r
    }

    /// The value of the label named `k`.
    pub fn get(&self, k: &str) -> (r: Option<&String>)
        ensures
            r is Some <==> self@.dom().contains(k@),
            r matches Some(v) ==> v@ == self@[k@],
    {
        self.map.get(k)
    }

    /// Whether a label named `k` is present.
    pub fn contains_key(&self, k: &str) -> (r: bool)
        ensures
            r == self@.dom().contains(k@),
    {
        self.get(k).is_some()
    }

    /// The label set with the label `k` set to `v`.
    pub fn with(self, k: String, v: String) -> (r: Labels)
        ensures
            r@ == self@.insert(k@, v@),
    {
        let r = Labels { map: self.map.with(k, v) };
        assert(r@ =~= self@.insert(k@, v@));
        r
    }

    /// The label set with the label `k` set to `v` unless it is there already.
    pub fn with_default(self, k: String, v: String) -> (r: Labels)
        ensures
            r@ == if self@.dom().contains(k@) {
                self@
            } else {
                self@.insert(k@, v@)
            },
    {
        if self.contains_key(k.as_str()) {
            self
        } else {
            self.with(k, v)
        }
    }

    /// The label set without the label `k`.
    pub fn without(self, k: &str) -> (r: Labels)
        ensures
            r@ == self@.remove(k@),
    {
        let (map, _) = self.map.take(k);
        let r = Labels { map };
        assert(r@ =~= self@.remove(k@));
        r
    }

    /// The labels that a rule takes.
    fn chosen(&self, rule: &Selection) -> (r: Labels)
        ensures
            forall|n: Seq<char>|
                #![trigger r@.dom().contains(n)]
                r@.dom().contains(n) <==> self@.dom().contains(n) && rule.takes(n),
            forall|n: Seq<char>| #![trigger r@[n]] r@.dom().contains(n) ==> r@[n] == self@[n],
    {
        let n: usize = self.map.len();
        let ghost s = self.map.listing();
        let mut out = Labels::new();
        let mut i: usize = 0;
        while i < n
            invariant
                s == self.map.listing(),
                ascending(s),
                i <= n == s.len(),
                forall|k: Seq<char>|
                    #![trigger out@.dom().contains(k)]
                    out@.dom().contains(k) <==> has_key(s.take(i as int), k) && rule.takes(k),
                forall|k: Seq<char>|
                    #![trigger out@[k]]
                    out@.dom().contains(k) ==> out@[k] == mapping(s)[k]@,
            decreases n - i,
        {
            let (k, v) = self.map.at(i);
            let ghost before = out@;
            if rule.takes_name(k.as_str()) {
                out = out.with(owned(k.as_str()), owned(v.as_str()));
            }
            proof {
                mapping_at(s, i as int);
                let old_seen = s.take(i as int);
                let seen = s.take(i + 1);
                assert(seen[i as int].0@ == k@);
                assert forall|x: Seq<char>| has_key(seen, x) <==> has_key(old_seen, x) || x
                    == k@ by {
                    if has_key(old_seen, x) {
                        let p = place_of(old_seen, x);
                        assert(seen[p].0@ == x);
                    }
                    if has_key(seen, x) && x != k@ {
                        let p = place_of(seen, x);
                        assert(old_seen[p].0@ == x);
                    }
                }
            }
            i = i + 1;
        }
        proof {
            assert(s.take(s.len() as int) =~= s);
        }
        out
    }

    /// The labels that take part under `kind`.
    pub fn kept(&self, kind: &MatchKind) -> (r: Labels)
        ensures
            r@ == kept_labels(kind@, self@),
    {
        let r = self.chosen(&Selection::Under(kind));
        assert(r@ =~= kept_labels(kind@, self@));
        r
    }

    /// Whether two label sets are the same.
    pub fn same(&self, other: &Labels) -> (r: bool)
        ensures
            r == (self@ == other@),
    {
        let n: usize = self.map.len();
        let m: usize = other.map.len();
        let ghost a = self.map.listing();
        let ghost b = other.map.listing();
        proof {
            if self@ == other@ {
                assert forall|k: Seq<char>| has_key(a, k) == has_key(b, k) by {
                    assert(self@.dom().contains(k) == other@.dom().contains(k));
                }
                same_keys_same_places(a, b);
                assert forall|i: int| 0 <= i < a.len() implies (#[trigger] a[i]).1@ == b[i].1@ by {
                    mapping_at(a, i);
                    mapping_at(b, i);
                    assert(self@[a[i].0@] == other@[a[i].0@]);
                }
            }
        }
        if n != m {
            return false;
        }
        let mut i: usize = 0;
        while i < n
            invariant
                a == self.map.listing(),
                b == other.map.listing(),
                i <= n == a.len(),
                a.len() == b.len(),
                self@ == other@ ==> forall|j: int|
                    0 <= j < a.len() ==> (#[trigger] a[j]).0@ == b[j].0@ && a[j].1@ == b[j].1@,
                forall|j: int|
                    0 <= j < i ==> (#[trigger] a[j]).0@ == b[j].0@ && a[j].1@ == b[j].1@,
            decreases n - i,
        {
            let (k, v) = self.map.at(i);
            let (l, w) = other.map.at(i);
            if !str_eq(k.as_str(), l.as_str()) || !str_eq(v.as_str(), w.as_str()) {
                assert(a[i as int].0@ != b[i as int].0@ || a[i as int].1@ != b[i as int].1@);
                return false;
            }
            i = i + 1;
        }
        proof {
            assert forall|k: Seq<char>| self@.dom().contains(k) == other@.dom().contains(k) by {
                if has_key(a, k) {
                    let p = place_of(a, k);
                    assert(a[p].0@ == k);
                    assert(b[p].0@ == k);
                }
                if has_key(b, k) {
                    let p = place_of(b, k);
                    assert(a[p].0@ == k);
                }
            }
            assert forall|k: Seq<char>| self@.dom().contains(k) implies self@[k] == other@[k] by {
                let p = place_of(a, k);
                assert(a[p].0@ == k);
                mapping_at(a, p);
                mapping_at(b, p);
            }
            assert(self@ =~= other@);
        }
        true
    }

    /// Another copy of the label set.
    pub fn copy(&self) -> (r: Labels)
        ensures
            r@ == self@,
    {
        let r = self.chosen(&Selection::All);
        assert(r@ =~= self@);
        r
    }

    /// The text by which label sets are ordered.
    pub fn text(&self) -> (r: String)
        ensures
            r@ == label_text(self@),
    {
        let n: usize = self.map.len();
        let ghost s = self.map.listing();
        let ghost p = pairs_of(s);
        proof {
            pairs_list_the_map(s);
        }
        let mut out = String::new();
        let mut i: usize = 0;
        while i < n
            invariant
                s == self.map.listing(),
                p == pairs_of(s),
                i <= n == s.len(),
                out@ == entries_text(p.take(i as int)),
            decreases n - i,
        {
            let (k, v) = self.map.at(i);
            let name = joined(debug_of(k.as_str()).as_str(), ": ");
            let entry = joined(name.as_str(), debug_of(v.as_str()).as_str());
            proof {
                assert(p.take(i + 1).drop_last() =~= p.take(i as int));
                assert(p.take(i + 1).last() == (k@, v@));
            }
            if i > 0 {
                out = joined(out.as_str(), ", ");
                out = joined(out.as_str(), entry.as_str());
            } else {
                out = entry;
            }
            i = i + 1;
        }
        assert(p.take(n as int) =~= p);
        let open = joined("{", out.as_str());
        joined(open.as_str(), "}")
    }

    /// The key under which a label set is held.
    pub fn key(&self) -> (r: String)
        ensures
            r@ == rendered(self@),
    {
        let n: usize = self.map.len();
        let ghost s = self.map.listing();
        let ghost p = pairs_of(s);
        proof {
            pairs_list_the_map(s);
        }
        let mut out = self.text();
        out.push('\0');
        let ghost start = label_text(self@) + seq!['\0'];
        let mut i: usize = 0;
        assert(out@ =~= start + marks(p.take(0)));
        while i < n
            invariant
                s == self.map.listing(),
                p == pairs_of(s),
                i <= n == s.len(),
                out@ == start + marks(p.take(i as int)),
            decreases n - i,
        {
            let (k, v) = self.map.at(i);
            push_marked(&mut out, k.as_str());
            push_marked(&mut out, v.as_str());
            proof {
                assert(p.take(i + 1).drop_last() =~= p.take(i as int));
                assert(p.take(i + 1).last() == (k@, v@));
                assert(out@ =~= start + marks(p.take(i + 1)));
            }
            i = i + 1;
        }
        assert(p.take(n as int) =~= p);
        out
    }

    /// The labels as pairs of name and value, in ascending order of the names.
    pub fn into_pairs(self) -> (r: Vec<(String, String)>)
        ensures
            ascending(r@),
            as_texts(mapping(r@)) == self@,
    {
        self.map.into_entries()
    }
}

/// Which labels `Labels::chosen` takes.
enum Selection<'a> {
    /// Every label.
    All,
    /// The labels that take part under a rule of matching.
    Under(&'a MatchKind),
}

impl<'a> Selection<'a> {
    spec fn takes(self, n: Seq<char>) -> bool {
        match self {
            Selection::All => true,
            Selection::Under(kind) => kind@.takes(n),
        }
    }

    fn takes_name(&self, n: &str) -> (r: bool)
        ensures
            r == self.takes(n@),
    {
        match self {
            Selection::All => true,
            Selection::Under(kind) => kind.keeps(n),
        }
    }
}

/// Which labels take part in matching, and stay in the result: with `On` exactly
/// the listed ones, with `Ignoring` all but `__name__` and the listed ones.
#[derive(Debug)]
pub enum MatchKind {
    On(Vec<String>),
    Ignoring(Vec<String>),
}

/// A rule of matching, as a value.
pub enum KindView {
    On(Seq<Seq<char>>),
    Ignoring(Seq<Seq<char>>),
}

impl KindView {
    /// Whether the label named `k` takes part.
    pub open spec fn takes(self, k: Seq<char>) -> bool {
        match self {
            KindView::On(set) => among(set, k),
            KindView::Ignoring(set) => k != "__name__"@ && !among(set, k),
        }
    }
}

impl View for MatchKind {
    type V = KindView;

    open spec fn view(&self) -> KindView {
        match self {
            MatchKind::On(set) => KindView::On(texts(set@)),
            MatchKind::Ignoring(set) => KindView::Ignoring(texts(set@)),
        }
    }
}

impl MatchKind {
    /// Whether the label named `k` takes part in matching and appears in the result.
    pub fn keeps(&self, k: &str) -> (r: bool)
        ensures
            r == self@.takes(k@),
    {
        match self {
            MatchKind::On(set) => {
                proof {
                    listed_is_among(set@, k@);
                }
                in_list(set, k)
            },
            MatchKind::Ignoring(set) => {
                proof {
                    listed_is_among(set@, k@);
                }
                !str_eq(k, "__name__") && !in_list(set, k)
            },
        }
    }

    /// The labels carried by a result series.
    pub fn result_labels(&self, labels: &Labels) -> (r: Labels)
        ensures
            r@ == kept_labels(self@, labels@),
    {
        labels.kept(self)
    }

    /// Whether two series match: they carry the same labels among those that
    /// take part.
    pub fn matches(&self, a: &Labels, b: &Labels) -> (r: bool)
        ensures
            r == (kept_labels(self@, a@) == kept_labels(self@, b@)),
    {
        let x = a.kept(self);
        let y = b.kept(self);
        x.same(&y)
    }
}

/// The labels of `m` that take part under `kind`.
pub open spec fn kept_labels(kind: KindView, m: Map<Seq<char>, Seq<char>>) -> Map<
    Seq<char>,
    Seq<char>,
> {
    Map::new(|k: Seq<char>| m.dom().contains(k) && kind.takes(k), |k: Seq<char>| m[k])
}

/// The label set without the metric name.
pub fn drop_name(m: Labels) -> (r: Labels)
    ensures
        r@ == m@.remove("__name__"@),
{
    m.without("__name__")
}

} // verus!
