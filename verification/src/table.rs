//! What the tables of the cache have in common: finding a row, keeping
//! some rows, changing some rows.

use crate::ranking::{lemma_selected, selected};
use vstd::prelude::*;

verus! {

/// The first index at or after `from` of a row that `hit` holds of, or the
/// number of rows where there is none.
pub open spec fn position<T>(rows: Seq<T>, hit: spec_fn(T) -> bool, from: int) -> int
    decreases rows.len() - from,
{
    if from < 0 || from >= rows.len() {
        rows.len() as int
    } else if hit(rows[from]) {
        from
    } else {
        position(rows, hit, from + 1)
    }
}

/// The first row that `hit` holds of.
pub open spec fn first_where<T>(rows: Seq<T>, hit: spec_fn(T) -> bool) -> Option<T> {
    if position(rows, hit, 0) < rows.len() {
        Some(rows[position(rows, hit, 0)])
    } else {
        None
    }
}

/// What [`position`] returns: the index of a row that `hit` holds of,
/// before which it holds of none; or the number of rows, where it holds of
/// none.
pub proof fn lemma_position<T>(rows: Seq<T>, hit: spec_fn(T) -> bool, from: int)
    requires
        0 <= from <= rows.len(),
    ensures
        from <= position(rows, hit, from) <= rows.len(),
        position(rows, hit, from) < rows.len() ==> hit(rows[position(rows, hit, from)]),
        forall|j: int| from <= j < position(rows, hit, from) ==> !hit(#[trigger] rows[j]),
    decreases rows.len() - from,
{
    if from < rows.len() && !hit(rows[from]) {
        lemma_position(rows, hit, from + 1);
    }
}

/// The rows that `keep` holds of, in the order of the table.
pub open spec fn retained<T>(rows: Seq<T>, keep: spec_fn(T) -> bool) -> Seq<T> {
    selected(rows, keep).map_values(|i: int| rows[i])
}

/// The rows, with `change` applied to each that `hit` holds of.
pub open spec fn changed<T>(rows: Seq<T>, hit: spec_fn(T) -> bool, change: spec_fn(T) -> T) -> Seq<T> {
    Seq::new(
        rows.len(),
        |i: int|
            if hit(rows[i]) {
                change(rows[i])
            } else {
                rows[i]
            },
    )
}

/// Keeping rows of a table with one row more: the last row is kept or not,
/// the others as before.
pub proof fn lemma_retained_push<T>(rows: Seq<T>, keep: spec_fn(T) -> bool, row: T)
    ensures
        retained(rows.push(row), keep) == if keep(row) {
            retained(rows, keep).push(row)
        } else {
            retained(rows, keep)
        },
{
    let more = rows.push(row);
    assert(more.drop_last() =~= rows);
    lemma_selected(rows, keep);
    let s = selected(rows, keep);
    assert forall|k: int| 0 <= k < s.len() implies more[s[k]] == rows[s[k]] by {}
    if keep(row) {
        assert(retained(more, keep) =~= retained(rows, keep).push(row));
    } else {
        assert(retained(more, keep) =~= retained(rows, keep));
    }
}

/// Nothing is kept of no rows.
pub proof fn lemma_retained_empty<T>(keep: spec_fn(T) -> bool)
    ensures
        retained(Seq::<T>::empty(), keep) == Seq::<T>::empty(),
{
    assert(retained(Seq::<T>::empty(), keep) =~= Seq::<T>::empty());
}

/// The rows that are kept are rows of the table that `keep` holds of, and
/// what holds of every two rows of the table holds of every two that are
/// kept.
pub proof fn lemma_retained<T>(rows: Seq<T>, keep: spec_fn(T) -> bool, apart: spec_fn(T, T) -> bool)
    requires
        forall|i: int, j: int|
            0 <= i < rows.len() && 0 <= j < rows.len() && i != j ==> apart(
                #[trigger] rows[i],
                #[trigger] rows[j],
            ),
    ensures
        retained(rows, keep).len() <= rows.len(),
        forall|k: int|
            0 <= k < retained(rows, keep).len() ==> keep(#[trigger] retained(rows, keep)[k])
                && rows.contains(retained(rows, keep)[k]),
        forall|a: int, b: int|
            0 <= a < retained(rows, keep).len() && 0 <= b < retained(rows, keep).len() && a != b
                ==> apart(#[trigger] retained(rows, keep)[a], #[trigger] retained(rows, keep)[b]),
        forall|i: int|
            0 <= i < rows.len() && keep(#[trigger] rows[i]) ==> retained(rows, keep).contains(
                rows[i],
            ),
{
    lemma_selected(rows, keep);
    let s = selected(rows, keep);
    let r = retained(rows, keep);
    assert forall|a: int, b: int| 0 <= a < r.len() && 0 <= b < r.len() && a != b implies apart(
        #[trigger] r[a],
        #[trigger] r[b],
    ) by {
        if a < b {
            assert(s[a] < s[b]);
        } else {
            assert(s[b] < s[a]);
        }
        assert(apart(rows[s[a]], rows[s[b]]));
    }
    assert forall|i: int| 0 <= i < rows.len() && keep(#[trigger] rows[i]) implies r.contains(
        rows[i],
    ) by {
        assert(s.contains(i));
        let k = choose|k: int| 0 <= k < s.len() && s[k] == i;
        assert(r[k] == rows[i]);
    }
    assert forall|k: int| 0 <= k < r.len() implies keep(#[trigger] r[k]) && rows.contains(r[k]) by {
        assert(r[k] == rows[s[k]]);
    }
}

/// Whether the identifiers are those of the rows of a table: each is at
/// least 1 and below the largest number, and none occurs twice.
pub open spec fn valid_ids(ids: Seq<i64>) -> bool {
    &&& forall|i: int| 0 <= i < ids.len() ==> 1 <= #[trigger] ids[i] < i64::MAX
    &&& forall|i: int, j: int| 0 <= i < ids.len() && 0 <= j < ids.len() && i != j ==> ids[i] != ids[j]
}

/// The largest of the first `upto` identifiers, or 0 where there is none.
pub open spec fn largest(ids: Seq<i64>, upto: int) -> i64
    decreases upto,
{
    if upto <= 0 || upto > ids.len() {
        0
    } else if ids[upto - 1] > largest(ids, upto - 1) {
        ids[upto - 1]
    } else {
        largest(ids, upto - 1)
    }
}

/// The identifier that follows the largest one: what the next new row
/// gets.
pub open spec fn next_after(ids: Seq<i64>) -> int {
    largest(ids, ids.len() as int) + 1
}

/// No identifier is above the largest.
pub proof fn lemma_largest(ids: Seq<i64>, upto: int)
    requires
        0 <= upto <= ids.len(),
    ensures
        forall|i: int| 0 <= i < upto ==> #[trigger] ids[i] <= largest(ids, upto),
        largest(ids, upto) >= 0,
    decreases upto,
{
    if upto > 0 {
        lemma_largest(ids, upto - 1);
    }
}

/// The identifier that the next new row gets, where the identifiers are
/// valid; `None` where they are not.
pub fn next_identifier(ids: &Vec<i64>) -> (r: Option<i64>)
    ensures
        match r {
            Some(n) => valid_ids(ids@) && n == next_after(ids@) && 1 <= n <= i64::MAX && forall|
                i: int,
            |
                0 <= i < ids.len() ==> #[trigger] ids@[i] < n,
            None => !valid_ids(ids@),
        },
{
    let mut top: i64 = 0;
    let mut i: usize = 0;
    while i < ids.len()
        invariant
            i <= ids.len(),
            top == largest(ids@, i as int),
            0 <= top < i64::MAX,
            forall|a: int| 0 <= a < i ==> 1 <= #[trigger] ids@[a] < i64::MAX,
            forall|a: int, b: int| 0 <= a < i && 0 <= b < i && a != b ==> ids@[a] != ids@[b],
        decreases ids.len() - i,
    {
        let id = ids[i];
        if id < 1 || id == i64::MAX {
            return None;
        }
        let mut k: usize = 0;
        while k < i
            invariant
                k <= i < ids.len(),
                id == ids@[i as int],
                forall|a: int| 0 <= a < k ==> ids@[a] != id,
            decreases i - k,
        {
            if ids[k] == id {
                return None;
            }
            k += 1;
        }
        if id > top {
            top = id;
        }
        i += 1;
    }
    proof {
        lemma_largest(ids@, ids.len() as int);
    }
    Some(top + 1)
}

} // verus!
