//! Rows in groups, and in each group by time.
use crate::textmap::TextMap;
use vstd::prelude::*;

verus! {

/// The rows of a group at one time.
#[derive(Debug)]
pub struct Slot {
    pub t: i64,
    pub rows: Vec<usize>,
}

/// The rows of a group: the place of its first row, and all of them by time.
#[derive(Debug)]
pub struct RowGroup {
    pub first: usize,
    pub slots: Vec<Slot>,
}

/// A row as it is grouped: the text that names its group, and its time.
pub type RowKey = (String, i64);

/// Rows as they are grouped, as values.
pub open spec fn rows_view(s: Seq<RowKey>) -> Seq<(Seq<char>, i64)> {
    Seq::new(s.len(), |i: int| (s[i].0@, s[i].1))
}

/// The places of the rows of a group at a time, in their order.
pub open spec fn rows_at(rows: Seq<(Seq<char>, i64)>, key: Seq<char>, t: i64) -> Seq<usize>
    decreases rows.len(),
{
    if rows.len() == 0 {
        Seq::empty()
    } else {
        let rest = rows_at(rows.drop_last(), key, t);
        if rows.last().0 == key && rows.last().1 == t {
            rest.push((rows.len() - 1) as usize)
        } else {
            rest
        }
    }
}

/// The place of the first row of a group.
pub open spec fn first_row(rows: Seq<(Seq<char>, i64)>, key: Seq<char>) -> Option<int>
    decreases rows.len(),
{
    if rows.len() == 0 {
        None
    } else {
        match first_row(rows.drop_last(), key) {
            Some(i) => Some(i),
            None => if rows.last().0 == key {
                Some(rows.len() - 1)
            } else {
                None
            },
        }
    }
}

/// Whether there is a slot of a time.
pub open spec fn has_slot(slots: Seq<Slot>, t: i64) -> bool {
    exists|i: int| 0 <= i < slots.len() && (#[trigger] slots[i]).t == t
}

/// Whether the slots hold the rows of a group, in ascending order of time, one slot
/// for each time that occurs.
pub open spec fn slots_hold(rows: Seq<(Seq<char>, i64)>, key: Seq<char>, slots: Seq<Slot>) -> bool {
    &&& forall|i: int, j: int|
        0 <= i < j < slots.len() ==> (#[trigger] slots[i]).t < (#[trigger] slots[j]).t
    &&& forall|i: int|
        0 <= i < slots.len() ==> (#[trigger] slots[i]).rows@ == rows_at(rows, key, slots[i].t)
            && slots[i].rows@.len() > 0
    &&& forall|t: i64| (#[trigger] rows_at(rows, key, t)).len() > 0 ==> has_slot(slots, t)
}

/// Whether the groups hold the rows.
pub open spec fn groups_hold(rows: Seq<(Seq<char>, i64)>, groups: Map<Seq<char>, RowGroup>) -> bool {
    &&& forall|key: Seq<char>| #[trigger]
        groups.dom().contains(key) <==> first_row(rows, key) is Some
    &&& forall|key: Seq<char>|
        #![trigger groups[key]]
        groups.dom().contains(key) ==> first_row(rows, key) == Some(groups[key].first as int)
            && slots_hold(rows, key, groups[key].slots@)
}

proof fn no_first_no_rows(rows: Seq<(Seq<char>, i64)>, key: Seq<char>, t: i64)
    requires
        first_row(rows, key) is None,
    ensures
        rows_at(rows, key, t).len() == 0,
    decreases rows.len(),
{
    if rows.len() > 0 {
        no_first_no_rows(rows.drop_last(), key, t);
    }
}

/// The first row of a group is one of its rows.
pub proof fn first_row_is_in_range(rows: Seq<(Seq<char>, i64)>, key: Seq<char>)
    requires
        first_row(rows, key) is Some,
    ensures
        0 <= first_row(rows, key)->0 < rows.len(),
        rows[first_row(rows, key)->0].0 == key,
    decreases rows.len(),
{
    if first_row(rows.drop_last(), key) is Some {
        first_row_is_in_range(rows.drop_last(), key);
    }
}

/// The first row of a group is among the rows of its time.
pub proof fn first_row_has_rows(rows: Seq<(Seq<char>, i64)>, key: Seq<char>)
    requires
        first_row(rows, key) is Some,
    ensures
        rows_at(rows, key, rows[first_row(rows, key)->0].1).len() > 0,
    decreases rows.len(),
{
    if first_row(rows.drop_last(), key) is Some {
        first_row_is_in_range(rows.drop_last(), key);
        first_row_has_rows(rows.drop_last(), key);
    }
}

/// The rows of a group are in range.
pub proof fn rows_are_in_range(rows: Seq<(Seq<char>, i64)>, key: Seq<char>, t: i64)
    requires
        rows.len() <= usize::MAX,
    ensures
        forall|i: int|
            0 <= i < rows_at(rows, key, t).len() ==> (#[trigger] rows_at(rows, key, t)[i])
                < rows.len(),
    decreases rows.len(),
{
    if rows.len() > 0 {
        let rest = rows_at(rows.drop_last(), key, t);
        let all = rows_at(rows, key, t);
        rows_are_in_range(rows.drop_last(), key, t);
        assert forall|i: int| 0 <= i < all.len() implies (#[trigger] all[i]) < rows.len() by {
            if i < rest.len() {
                assert(all[i] == rest[i]);
            }
        }
    }
}

/// Put a row into the slot of its time.
fn into_slots(slots: Vec<Slot>, t: i64, row: usize, Ghost(rows): Ghost<Seq<(Seq<char>, i64)>>, Ghost(
    last,
): Ghost<(Seq<char>, i64)>) -> (r: Vec<Slot>)
    requires
        row == rows.len(),
        last.1 == t,
        slots_hold(rows, last.0, slots@),
    ensures
        slots_hold(rows.push(last), last.0, r@),
{
    let mut slots = slots;
    let ghost key = last.0;
    let ghost more = rows.push(last);
    let mut at: usize = slots.len();
    while at > 0 && slots[at - 1].t >= t
        invariant
            at <= slots@.len(),
            forall|i: int| at <= i < slots@.len() ==> (#[trigger] slots@[i]).t >= t,
        decreases at,
    {
        at = at - 1;
    }
    let ghost before = slots@;
    proof {
        assert(more.drop_last() =~= rows);
        assert forall|i: int| 0 <= i < at implies (#[trigger] before[i]).t < t by {
            if i < at - 1 {
                assert(before[i].t < before[at - 1].t);
            }
        }
        assert forall|i: int| at < i < before.len() implies (#[trigger] before[i]).t > t by {
            assert(before[at as int].t < before[i].t);
        }
        assert forall|x: i64| x != t implies #[trigger] rows_at(more, key, x) == rows_at(
            rows,
            key,
            x,
        ) by {}
        assert(rows_at(more, key, t) == rows_at(rows, key, t).push(row));
    }
    if at < slots.len() && slots[at].t == t {
        let mut held = copy_rows(&slots[at].rows);
        held.push(row);
        slots.set(at, Slot { t, rows: held });
        proof {
            let r = slots@;
            assert forall|i: int| 0 <= i < r.len() implies (#[trigger] r[i]).rows@ == rows_at(
                more,
                key,
                r[i].t,
            ) && r[i].rows@.len() > 0 by {
                if i != at {
                    assert(r[i] == before[i]);
                } else {
                    assert(before[i].rows@ == rows_at(rows, key, t));
                }
            }
            assert forall|x: i64| (#[trigger] rows_at(more, key, x)).len() > 0 implies has_slot(
                r,
                x,
            ) by {
                if x == t {
                    assert(r[at as int].t == t);
                } else {
                    assert(rows_at(rows, key, x).len() > 0);
                    assert(has_slot(before, x));
                    let i = choose|i: int| 0 <= i < before.len() && (#[trigger] before[i]).t == x;
                    assert(r[i].t == x);
                }
            }
        }
        return slots;
    }
    let mut held: Vec<usize> = Vec::new();
    held.push(row);
    slots.insert(at, Slot { t, rows: held });
    proof {
        let r = slots@;
        assert(rows_at(rows, key, t).len() == 0) by {
            if rows_at(rows, key, t).len() > 0 {
                assert(has_slot(before, t));
                let i = choose|i: int| 0 <= i < before.len() && (#[trigger] before[i]).t == t;
                assert(i == at);
            }
        }
        assert forall|i: int| 0 <= i < r.len() implies (#[trigger] r[i]).rows@ == rows_at(
            more,
            key,
            r[i].t,
        ) && r[i].rows@.len() > 0 by {
            if i != at {
                let x = if i < at { i } else { i - 1 };
                assert(r[i] == before[x]);
            } else {
                assert(rows_at(rows, key, t) =~= Seq::empty());
                assert(r[i].rows@ =~= rows_at(more, key, t));
            }
        }
        assert forall|i: int, j: int| 0 <= i < j < r.len() implies (#[trigger] r[i]).t < (
        #[trigger] r[j]).t by {
            let x = if i < at { i } else { i - 1 };
            let y = if j < at { j } else { j - 1 };
            if i != at {
                assert(r[i] == before[x]);
            }
            if j != at {
                assert(r[j] == before[y]);
            }
        }
        assert forall|x: i64| (#[trigger] rows_at(more, key, x)).len() > 0 implies has_slot(
            r,
            x,
        ) by {
            if x == t {
                assert(r[at as int].t == t);
            } else {
                assert(rows_at(rows, key, x).len() > 0);
                assert(has_slot(before, x));
                let i = choose|i: int| 0 <= i < before.len() && (#[trigger] before[i]).t == x;
                let k = if i < at { i } else { i + 1 };
                assert(r[k] == before[i]);
            }
        }
    }
    slots
}

fn copy_rows(rows: &Vec<usize>) -> (r: Vec<usize>)
    ensures
        r@ == rows@,
{
    let mut r: Vec<usize> = Vec::new();
    let mut i: usize = 0;
    while i < rows.len()
        invariant
            i <= rows@.len(),
            r@ == rows@.take(i as int),
        decreases rows.len() - i,
    {
        r.push(rows[i]);
        assert(rows@.take(i + 1) =~= rows@.take(i as int).push(rows@[i as int]));
        i = i + 1;
    }
    assert(rows@.take(rows@.len() as int) =~= rows@);
    r
}

/// Group rows by their texts, and in each group by their times.
pub fn group_rows(rows: &Vec<RowKey>) -> (groups: TextMap<RowGroup>)
    ensures
        groups_hold(rows_view(rows@), groups@),
{
    let ghost all = rows_view(rows@);
    let mut groups: TextMap<RowGroup> = TextMap::new();
    let mut i: usize = 0;
    while i < rows.len()
        invariant
            all == rows_view(rows@),
            i <= rows@.len(),
            groups_hold(all.take(i as int), groups@),
        decreases rows.len() - i,
    {
        let key = rows[i].0.as_str();
        let t = rows[i].1;
        let ghost seen = all.take(i as int);
        let ghost last = all[i as int];
        let ghost before = groups@;
        let (others, found) = groups.take(key);
        let (first, slots) = match found {
            Some(g) => (g.first, g.slots),
            None => {
                let none: Vec<Slot> = Vec::new();
                proof {
                    assert forall|x: i64| (#[trigger] rows_at(seen, key@, x)).len()
                        > 0 implies has_slot(none@, x) by {
                        no_first_no_rows(seen, key@, x);
                    }
                }
                (i, none)
            },
        };
        let slots = into_slots(slots, t, i, Ghost(seen), Ghost(last));
        let group = RowGroup { first, slots };
        groups = others.with(crate::text::owned(key), group);
        proof {
            let next = all.take(i + 1);
            assert(next =~= seen.push(last));
            assert(next.drop_last() =~= seen);
            assert forall|k: Seq<char>| #[trigger]
                groups@.dom().contains(k) <==> first_row(next, k) is Some by {
                assert(before.dom().contains(k) <==> first_row(seen, k) is Some);
            }
            assert forall|k: Seq<char>|
                #![trigger groups@[k]]
                groups@.dom().contains(k) implies first_row(next, k) == Some(
                groups@[k].first as int,
            ) && slots_hold(next, k, groups@[k].slots@) by {
                assert(before.dom().contains(k) <==> first_row(seen, k) is Some);
                if k != key@ {
                    assert(groups@[k] == before[k]);
                    assert forall|x: i64| #[trigger] rows_at(next, k, x) == rows_at(seen, k, x) by {}
                } else {
                    assert(groups@[k] == group);
                }
            }
        }
        i = i + 1;
    }
    assert(all.take(all.len() as int) =~= all);
    groups
}

} // verus!
