//! A map from texts to values, walked in the order of the texts.
use crate::text::{
    among, ascending_texts_are_unique, precedes, precedes_asymmetric, precedes_irreflexive,
    precedes_total, precedes_transitive, str_eq, str_precedes, texts_ascend,
};
use vstd::prelude::*;

verus! {

/// A map from texts to values. Each text stands in it once, and the entries are
/// held in ascending order of the texts.
#[derive(Debug)]
pub struct TextMap<T> {
    entries: Vec<(String, T)>,
}

/// Whether the texts of the entries ascend strictly.
pub open spec fn ascending<T>(s: Seq<(String, T)>) -> bool {
    forall|i: int, j: int| 0 <= i < j < s.len() ==> precedes((#[trigger] s[i]).0@, (#[trigger] s[j]).0@)
}

/// Whether an entry has the text `k`.
pub open spec fn has_key<T>(s: Seq<(String, T)>, k: Seq<char>) -> bool {
    exists|i: int| 0 <= i < s.len() && (#[trigger] s[i]).0@ == k
}

/// The place of an entry that has the text `k`.
pub open spec fn place_of<T>(s: Seq<(String, T)>, k: Seq<char>) -> int {
    choose|i: int| 0 <= i < s.len() && (#[trigger] s[i]).0@ == k
}

/// The mapping that a list of entries stands for.
pub open spec fn mapping<T>(s: Seq<(String, T)>) -> Map<Seq<char>, T> {
    Map::new(|k: Seq<char>| has_key(s, k), |k: Seq<char>| s[place_of(s, k)].1)
}

/// In ascending entries each text has one place, and is mapped to its value.
pub proof fn mapping_at<T>(s: Seq<(String, T)>, i: int)
    requires
        ascending(s),
        0 <= i < s.len(),
    ensures
        mapping(s).dom().contains(s[i].0@),
        mapping(s)[s[i].0@] == s[i].1,
        place_of(s, s[i].0@) == i,
{
    let k = s[i].0@;
    assert(has_key(s, k));
    let p = place_of(s, k);
    if p < i {
        precedes_asymmetric(s[p].0@, s[i].0@);
    } else if i < p {
        precedes_asymmetric(s[i].0@, s[p].0@);
    }
}

/// A list of entries maps finitely many texts.
pub proof fn mapping_is_finite<T>(s: Seq<(String, T)>)
    ensures
        mapping(s).dom().finite(),
    decreases s.len(),
{
    if s.len() == 0 {
        assert(mapping(s).dom() =~= Set::<Seq<char>>::empty());
    } else {
        let rest = s.drop_last();
        let last = s.last().0@;
        mapping_is_finite(rest);
        assert(s[s.len() - 1].0@ == last);
        assert forall|k: Seq<char>| has_key(s, k) <==> has_key(rest, k) || k == last by {
            if has_key(rest, k) {
                let i = place_of(rest, k);
                assert(s[i].0@ == k);
            }
            if has_key(s, k) && k != last {
                let i = place_of(s, k);
                assert(rest[i].0@ == k);
            }
        }
        assert(mapping(s).dom() =~= mapping(rest).dom().insert(last));
    }
}

/// Two ascending lists with the same texts have them in the same places.
pub proof fn same_keys_same_places<A, B>(a: Seq<(String, A)>, b: Seq<(String, B)>)
    requires
        ascending(a),
        ascending(b),
        forall|k: Seq<char>| has_key(a, k) == has_key(b, k),
    ensures
        a.len() == b.len(),
        forall|i: int| 0 <= i < a.len() ==> (#[trigger] a[i]).0@ == b[i].0@,
{
    let x = Seq::new(a.len(), |i: int| a[i].0@);
    let y = Seq::new(b.len(), |i: int| b[i].0@);
    assert forall|k: Seq<char>| among(x, k) == among(y, k) by {
        if among(x, k) {
            let i = choose|i: int| 0 <= i < x.len() && #[trigger] x[i] == k;
            assert(a[i].0@ == k);
            assert(has_key(a, k));
            let j = place_of(b, k);
            assert(y[j] == k);
        }
        if among(y, k) {
            let i = choose|i: int| 0 <= i < y.len() && #[trigger] y[i] == k;
            assert(b[i].0@ == k);
            assert(has_key(b, k));
            let j = place_of(a, k);
            assert(x[j] == k);
        }
    }
    assert(texts_ascend(x)) by {
        assert forall|i: int, j: int| 0 <= i < j < x.len() implies precedes(
            #[trigger] x[i],
            #[trigger] x[j],
        ) by {
            assert(precedes(a[i].0@, a[j].0@));
        }
    }
    assert(texts_ascend(y)) by {
        assert forall|i: int, j: int| 0 <= i < j < y.len() implies precedes(
            #[trigger] y[i],
            #[trigger] y[j],
        ) by {
            assert(precedes(b[i].0@, b[j].0@));
        }
    }
    ascending_texts_are_unique(x, y);
    assert(x == y);
    assert(x.len() == a.len() && y.len() == b.len());
    assert forall|i: int| 0 <= i < a.len() implies (#[trigger] a[i]).0@ == b[i].0@ by {
        assert(x[i] == y[i]);
    }
}

proof fn mapping_inserted<T>(s: Seq<(String, T)>, p: int, e: (String, T), t: Seq<(String, T)>)
    requires
        ascending(s),
        0 <= p <= s.len(),
        t == s.insert(p, e),
        forall|i: int| 0 <= i < p ==> precedes((#[trigger] s[i]).0@, e.0@),
        forall|i: int| p <= i < s.len() ==> precedes(e.0@, (#[trigger] s[i]).0@),
    ensures
        ascending(t),
        mapping(t) == mapping(s).insert(e.0@, e.1),
{
    assert forall|i: int, j: int| 0 <= i < j < t.len() implies precedes(
        (#[trigger] t[i]).0@,
        (#[trigger] t[j]).0@,
    ) by {
        let si = if i < p { i } else { i - 1 };
        let sj = if j < p { j } else { j - 1 };
        if i != p {
            assert(t[i] == s[si]);
        }
        if j != p {
            assert(t[j] == s[sj]);
        }
    }
    let a = mapping(t);
    let b = mapping(s).insert(e.0@, e.1);
    assert(t[p] == e);
    mapping_at(t, p);
    assert forall|k: Seq<char>| a.dom().contains(k) == b.dom().contains(k) by {
        if has_key(t, k) {
            let i = place_of(t, k);
            if i != p {
                let si = if i < p { i } else { i - 1 };
                assert(s[si].0@ == k);
            }
        }
        if has_key(s, k) {
            let i = place_of(s, k);
            let ti = if i < p { i } else { i + 1 };
            assert(t[ti].0@ == k);
        }
    }
    assert forall|k: Seq<char>| a.dom().contains(k) implies a[k] == b[k] by {
        let i = place_of(t, k);
        mapping_at(t, i);
        if i != p {
            let si = if i < p { i } else { i - 1 };
            assert(t[i] == s[si]);
            mapping_at(s, si);
            if k == e.0@ {
                precedes_irreflexive(k);
            }
        }
    }
    assert(a =~= b);
}

proof fn mapping_updated<T>(s: Seq<(String, T)>, p: int, e: (String, T), t: Seq<(String, T)>)
    requires
        ascending(s),
        0 <= p < s.len(),
        s[p].0@ == e.0@,
        t == s.update(p, e),
    ensures
        ascending(t),
        mapping(t) == mapping(s).insert(e.0@, e.1),
{
    assert forall|i: int, j: int| 0 <= i < j < t.len() implies precedes(
        (#[trigger] t[i]).0@,
        (#[trigger] t[j]).0@,
    ) by {
        assert(t[i].0@ == s[i].0@ && t[j].0@ == s[j].0@);
    }
    let a = mapping(t);
    let b = mapping(s).insert(e.0@, e.1);
    assert forall|k: Seq<char>| a.dom().contains(k) == b.dom().contains(k) by {
        if has_key(t, k) {
            assert(s[place_of(t, k)].0@ == k);
        }
        if has_key(s, k) {
            assert(t[place_of(s, k)].0@ == k);
        }
        assert(t[p].0@ == e.0@);
    }
    assert forall|k: Seq<char>| a.dom().contains(k) implies a[k] == b[k] by {
        let i = place_of(t, k);
        mapping_at(t, i);
        mapping_at(s, i);
        mapping_at(t, p);
    }
    assert(a =~= b);
}

proof fn mapping_removed<T>(s: Seq<(String, T)>, p: int, t: Seq<(String, T)>)
    requires
        ascending(s),
        0 <= p < s.len(),
        t == s.remove(p),
    ensures
        ascending(t),
        mapping(t) == mapping(s).remove(s[p].0@),
{
    assert forall|i: int, j: int| 0 <= i < j < t.len() implies precedes(
        (#[trigger] t[i]).0@,
        (#[trigger] t[j]).0@,
    ) by {
        let si = if i < p { i } else { i + 1 };
        let sj = if j < p { j } else { j + 1 };
        assert(t[i] == s[si] && t[j] == s[sj]);
    }
    let a = mapping(t);
    let b = mapping(s).remove(s[p].0@);
    assert forall|k: Seq<char>| a.dom().contains(k) == b.dom().contains(k) by {
        if has_key(t, k) {
            let i = place_of(t, k);
            let si = if i < p { i } else { i + 1 };
            assert(s[si].0@ == k);
            mapping_at(s, si);
            mapping_at(s, p);
        }
        if has_key(s, k) && k != s[p].0@ {
            let i = place_of(s, k);
            let ti = if i < p { i } else { i - 1 };
            assert(t[ti].0@ == k);
        }
    }
    assert forall|k: Seq<char>| a.dom().contains(k) implies a[k] == b[k] by {
        let i = place_of(t, k);
        mapping_at(t, i);
        let si = if i < p { i } else { i + 1 };
        mapping_at(s, si);
    }
    assert(a =~= b);
}

impl<T> TextMap<T> {
    #[verifier::type_invariant]
    spec fn ordered(self) -> bool {
        ascending(self.entries@)
    }

    /// The entries in ascending order of their texts.
    pub closed spec fn listing(&self) -> Seq<(String, T)> {
        self.entries@
    }

    /// The mapping from texts to values.
    pub open spec fn view(&self) -> Map<Seq<char>, T> {
        mapping(self.listing())
    }

    /// The empty map.
    pub fn new() -> (r: TextMap<T>)
        ensures
            r@ == Map::<Seq<char>, T>::empty(),
            r.listing().len() == 0,
    {
        let r = TextMap { entries: Vec::new() };
        assert(r@ =~= Map::<Seq<char>, T>::empty());
        r
    }

    /// The first place whose text does not come before `k`.
    fn place(&self, k: &str) -> (p: usize)
        ensures
            p <= self.entries@.len(),
            forall|i: int| 0 <= i < p ==> precedes((#[trigger] self.entries@[i]).0@, k@),
            p < self.entries@.len() ==> !precedes(self.entries@[p as int].0@, k@),
            forall|i: int|
                p < i < self.entries@.len() ==> precedes(k@, (#[trigger] self.entries@[i]).0@),
            self@.dom().contains(k@) <==> p < self.entries@.len() && self.entries@[p as int].0@
                == k@,
            p < self.entries@.len() && self.entries@[p as int].0@ == k@ ==> self@[k@]
                == self.entries@[p as int].1,
            ascending(self.entries@),
    {
        proof {
            use_type_invariant(self);
        }
        let mut i: usize = 0;
        while i < self.entries.len() && str_precedes(self.entries[i].0.as_str(), k)
            invariant
                i <= self.entries@.len(),
                forall|j: int| 0 <= j < i ==> precedes((#[trigger] self.entries@[j]).0@, k@),
            decreases self.entries.len() - i,
        {
            i = i + 1;
        }
        proof {
            let s = self.entries@;
            assert forall|j: int| i < j < s.len() implies precedes(k@, (#[trigger] s[j]).0@) by {
                precedes_total(s[i as int].0@, k@);
                assert(precedes(s[i as int].0@, s[j].0@));
                if s[i as int].0@ != k@ {
                    precedes_transitive(k@, s[i as int].0@, s[j].0@);
                }
            }
            if has_key(s, k@) {
                let j = place_of(s, k@);
                precedes_irreflexive(k@);
                assert(j == i);
            }
            if i < s.len() && s[i as int].0@ == k@ {
                mapping_at(s, i as int);
            }
        }
        i
    }

    /// The value of `k`.
    pub fn get(&self, k: &str) -> (r: Option<&T>)
        ensures
            r is Some <==> self@.dom().contains(k@),
            r matches Some(v) ==> *v == self@[k@],
    {
        let p = self.place(k);
        if p < self.entries.len() && str_eq(self.entries[p].0.as_str(), k) {
            Some(&self.entries[p].1)
        } else {
            None
        }
    }

    /// The map with `k` mapped to `v`.
    pub fn with(self, k: String, v: T) -> (r: TextMap<T>)
        ensures
            r@ == self@.insert(k@, v),
    {
        let p = self.place(k.as_str());
        let found = p < self.entries.len() && str_eq(self.entries[p].0.as_str(), k.as_str());
        let mut entries = self.entries;
        let ghost s = entries@;
        let ghost e = (k, v);
        if found {
            entries.set(p, (k, v));
            proof {
                mapping_updated(s, p as int, e, entries@);
            }
        } else {
            entries.insert(p, (k, v));
            proof {
                if p < s.len() {
                    precedes_total(s[p as int].0@, e.0@);
                }
                mapping_inserted(s, p as int, e, entries@);
            }
        }
        TextMap { entries }
    }

    /// The map without `k`, and the value that `k` had.
    pub fn take(self, k: &str) -> (r: (TextMap<T>, Option<T>))
        ensures
            r.0@ == self@.remove(k@),
            r.1 is Some <==> self@.dom().contains(k@),
            r.1 matches Some(v) ==> v == self@[k@],
    {
        let p = self.place(k);
        if p < self.entries.len() && str_eq(self.entries[p].0.as_str(), k) {
            let mut entries = self.entries;
            let ghost s = entries@;
            let e = entries.remove(p);
            proof {
                mapping_removed(s, p as int, entries@);
            }
            (TextMap { entries }, Some(e.1))
        } else {
            assert(self@.remove(k@) =~= self@);
            (self, None)
        }
    }

    /// How many entries there are.
    pub fn len(&self) -> (n: usize)
        ensures
            n == self.listing().len(),
            ascending(self.listing()),
    {
        proof {
            use_type_invariant(self);
        }
        self.entries.len()
    }

    /// The `i`-th entry in ascending order.
    pub fn at(&self, i: usize) -> (r: (&String, &T))
        requires
            i < self.listing().len(),
        ensures
            r.0 == self.listing()[i as int].0,
            r.1 == self.listing()[i as int].1,
    {
        (&self.entries[i].0, &self.entries[i].1)
    }

    /// The entries in ascending order.
    pub fn into_entries(self) -> (r: Vec<(String, T)>)
        ensures
            r@ == self.listing(),
            ascending(r@),
    {
        proof {
            use_type_invariant(&self);
        }
        self.entries
    }
}

} // verus!
