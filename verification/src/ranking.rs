//! The order in which the rows of a query come out.
//!
//! Each row has a key. Rows with a larger number come first; among those
//! with the same numbers, the one whose text is smaller; among those with
//! the same key, the one that stands first in the table.

use vstd::prelude::*;

verus! {

/// The key of a row.
pub struct SortKey {
    pub major: i64,
    pub minor: i64,
    pub text: Vec<char>,
}

/// The model of a [`SortKey`].
pub struct SortKeyModel {
    pub major: i64,
    pub minor: i64,
    pub text: Seq<char>,
}

impl View for SortKey {
    type V = SortKeyModel;

    open spec fn view(&self) -> SortKeyModel {
        SortKeyModel { major: self.major, minor: self.minor, text: self.text@ }
    }
}

/// The keys that a vector holds.
pub open spec fn key_models(keys: Seq<SortKey>) -> Seq<SortKeyModel> {
    keys.map_values(|k: SortKey| k@)
}

/// The first index at or after `from` at which `a` and `b` differ, or the
/// length of the shorter where they do not.
pub open spec fn differ_from(a: Seq<char>, b: Seq<char>, from: int) -> int
    decreases a.len() - from,
{
    if from < 0 || from >= a.len() || from >= b.len() {
        if a.len() <= b.len() {
            a.len() as int
        } else {
            b.len() as int
        }
    } else if a[from] != b[from] {
        from
    } else {
        differ_from(a, b, from + 1)
    }
}

/// What [`differ_from`] returns: the texts agree before it, and differ at
/// it where both go on.
pub proof fn lemma_differ_from(a: Seq<char>, b: Seq<char>, from: int)
    requires
        0 <= from <= a.len(),
        from <= b.len(),
    ensures
        from <= differ_from(a, b, from) <= a.len(),
        differ_from(a, b, from) <= b.len(),
        forall|j: int| from <= j < differ_from(a, b, from) ==> a[j] == b[j],
        differ_from(a, b, from) < a.len() && differ_from(a, b, from) < b.len() ==> a[differ_from(
            a,
            b,
            from,
        )] != b[differ_from(a, b, from)],
    decreases a.len() - from,
{
    if from < a.len() && from < b.len() && a[from] == b[from] {
        lemma_differ_from(a, b, from + 1);
    }
}

/// Whether `a` comes before `b` in the order of a dictionary, character by
/// character, a text before those it begins.
pub open spec fn text_less(a: Seq<char>, b: Seq<char>) -> bool {
    let k = differ_from(a, b, 0);
    if k < a.len() && k < b.len() {
        a[k] < b[k]
    } else {
        a.len() < b.len()
    }
}

/// Of two texts, one comes before the other or they are the same.
pub proof fn lemma_text_order_total(a: Seq<char>, b: Seq<char>)
    ensures
        text_less(a, b) || text_less(b, a) || a == b,
        !(text_less(a, b) && text_less(b, a)),
        !text_less(a, a),
{
    lemma_differ_from(a, b, 0);
    lemma_differ_from(b, a, 0);
    lemma_differ_from(a, a, 0);
    let k = differ_from(a, b, 0);
    let m = differ_from(b, a, 0);
    if k < m {
        if k < a.len() && k < b.len() {
            assert(b[k] == a[k]);
        }
    } else if m < k {
        if m < a.len() && m < b.len() {
            assert(a[m] == b[m]);
        }
    }
    assert(k == m);
    if !(k < a.len() && k < b.len()) && a.len() == b.len() {
        assert(a =~= b);
    }
}

/// The order of texts is transitive.
pub proof fn lemma_text_order_transitive(a: Seq<char>, b: Seq<char>, c: Seq<char>)
    requires
        text_less(a, b),
        text_less(b, c),
    ensures
        text_less(a, c),
{
    lemma_differ_from(a, b, 0);
    lemma_differ_from(b, c, 0);
    lemma_differ_from(a, c, 0);
    let k = differ_from(a, b, 0);
    let m = differ_from(b, c, 0);
    let n = differ_from(a, c, 0);
    let low = if k <= m {
        k
    } else {
        m
    };
    // a and c agree below `low`
    assert forall|j: int| 0 <= j < low implies a[j] == c[j] by {
        assert(a[j] == b[j]);
        assert(b[j] == c[j]);
    }
    if n < low {
        assert(a[n] == c[n]);
    }
    if low < a.len() && low < c.len() {
        // they differ at `low`, in the right direction
        if k < m {
            assert(b[k] == c[k]);
        } else if m < k {
            assert(a[m] == b[m]);
        }
        assert(a[low] < c[low]);
        if n > low {
            assert(a[low] == c[low]);
        }
        assert(n == low);
    }
}

/// Whether the row at index `a` comes out before the row at index `b`.
pub open spec fn ranks_before(keys: Seq<SortKeyModel>, a: int, b: int) -> bool {
    let x = keys[a];
    let y = keys[b];
    if x.major != y.major {
        x.major > y.major
    } else if x.minor != y.minor {
        x.minor > y.minor
    } else if x.text != y.text {
        text_less(x.text, y.text)
    } else {
        a < b
    }
}

/// Whether `order` lists the indices below `count` once each, in the order
/// in which their rows come out.
pub open spec fn ranks(keys: Seq<SortKeyModel>, order: Seq<int>, count: int) -> bool {
    &&& order.len() == count
    &&& forall|i: int| 0 <= i < order.len() ==> 0 <= #[trigger] order[i] < count
    &&& forall|i: int, j: int| 0 <= i < j < order.len() ==> ranks_before(keys, #[trigger] order[i], #[trigger] order[j])
}

/// Whether `order` is the ranking of all rows.
pub open spec fn is_ranking(keys: Seq<SortKeyModel>, order: Seq<int>) -> bool {
    ranks(keys, order, keys.len() as int)
}

/// Of two rows, one comes out before the other.
pub proof fn lemma_ranks_before_total(keys: Seq<SortKeyModel>, a: int, b: int)
    requires
        0 <= a < keys.len(),
        0 <= b < keys.len(),
        a != b,
    ensures
        ranks_before(keys, a, b) != ranks_before(keys, b, a),
{
    lemma_text_order_total(keys[a].text, keys[b].text);
}

/// The order in which rows come out is transitive.
pub proof fn lemma_ranks_before_transitive(keys: Seq<SortKeyModel>, a: int, b: int, c: int)
    requires
        0 <= a < keys.len(),
        0 <= b < keys.len(),
        0 <= c < keys.len(),
        ranks_before(keys, a, b),
        ranks_before(keys, b, c),
    ensures
        ranks_before(keys, a, c),
{
    let x = keys[a];
    let y = keys[b];
    let z = keys[c];
    if x.major == y.major && y.major == z.major && x.minor == y.minor && y.minor == z.minor {
        lemma_text_order_total(x.text, y.text);
        lemma_text_order_total(y.text, z.text);
        lemma_text_order_total(x.text, z.text);
        if x.text != y.text && y.text != z.text {
            lemma_text_order_transitive(x.text, y.text, z.text);
        }
    }
}

/// The indices of an order, as numbers.
pub open spec fn indices(order: Seq<usize>) -> Seq<int> {
    order.map_values(|i: usize| i as int)
}

/// Whether `a` comes before `b` in the order of a dictionary.
pub fn text_precedes(a: &Vec<char>, b: &Vec<char>) -> (r: bool)
    ensures
        r == text_less(a@, b@),
{
    let mut i: usize = 0;
    while i < a.len() && i < b.len() && a[i] == b[i]
        invariant
            i <= a.len(),
            i <= b.len(),
            differ_from(a@, b@, 0) == differ_from(a@, b@, i as int),
        decreases a.len() - i,
    {
        i += 1;
    }
    if i < a.len() && i < b.len() {
        a[i] < b[i]
    } else {
        a.len() < b.len()
    }
}

/// Whether the row at index `a` comes out before the row at index `b`.
pub fn comes_before(keys: &Vec<SortKey>, a: usize, b: usize) -> (r: bool)
    requires
        a < keys.len(),
        b < keys.len(),
    ensures
        r == ranks_before(key_models(keys@), a as int, b as int),
{
    let x = &keys[a];
    let y = &keys[b];
    if x.major != y.major {
        x.major > y.major
    } else if x.minor != y.minor {
        x.minor > y.minor
    } else if !crate::text::same_text(&x.text, &y.text) {
        text_precedes(&x.text, &y.text)
    } else {
        a < b
    }
}

/// The indices of the rows in the order in which they come out.
pub fn rank(keys: &Vec<SortKey>) -> (order: Vec<usize>)
    ensures
        is_ranking(key_models(keys@), indices(order@)),
{
    let ghost model = key_models(keys@);
    let mut order: Vec<usize> = Vec::new();
    let mut k: usize = 0;
    while k < keys.len()
        invariant
            k <= keys.len(),
            model == key_models(keys@),
            ranks(model, indices(order@), k as int),
        decreases keys.len() - k,
    {
        // the place of row `k` among those ranked so far
        let mut p: usize = 0;
        proof {
            assert forall|i: int| 0 <= i < order.len() implies #[trigger] order@[i] < k by {
                assert(indices(order@)[i] == order@[i]);
            }
        }
        while p < order.len() && comes_before(keys, order[p], k)
            invariant
                p <= order.len(),
                k < keys.len(),
                model == key_models(keys@),
                ranks(model, indices(order@), k as int),
                forall|i: int| 0 <= i < order.len() ==> #[trigger] order@[i] < k,
                forall|i: int| 0 <= i < p ==> ranks_before(model, #[trigger] indices(order@)[i], k as int),
            decreases order.len() - p,
        {
            proof {
                assert(indices(order@)[p as int] == order@[p as int]);
            }
            p += 1;
        }
        let ghost before = indices(order@);
        order.insert(p, k);
        proof {
            let after = indices(order@);
            assert(after =~= before.insert(p as int, k as int));
            assert forall|i: int, j: int| 0 <= i < j < after.len() implies ranks_before(
                model,
                #[trigger] after[i],
                #[trigger] after[j],
            ) by {
                if j < p {
                    assert(after[i] == before[i] && after[j] == before[j]);
                } else if j == p {
                    assert(after[i] == before[i]);
                } else if i == p {
                    // row `k` comes before what stood at its place and after
                    assert(after[j] == before[j - 1]);
                    let at = before[p as int];
                    assert(0 <= at < k);
                    assert(!ranks_before(model, at, k as int));
                    lemma_ranks_before_total(model, at, k as int);
                    if j - 1 > p {
                        lemma_ranks_before_transitive(model, k as int, at, before[j - 1]);
                    }
                } else if i < p {
                    assert(after[i] == before[i] && after[j] == before[j - 1]);
                } else {
                    assert(after[i] == before[i - 1] && after[j] == before[j - 1]);
                }
            }
            assert forall|i: int| 0 <= i < after.len() implies 0 <= #[trigger] after[i] < k + 1 by {
                if i < p {
                    assert(after[i] == before[i]);
                } else if i > p {
                    assert(after[i] == before[i - 1]);
                }
            }
        }
        k += 1;
    }
    order
}

/// A ranking lists every row: each index below the number of rows stands in
/// it, and none stands in it twice.
pub proof fn lemma_ranking_is_permutation(keys: Seq<SortKeyModel>, order: Seq<int>)
    requires
        is_ranking(keys, order),
    ensures
        order.no_duplicates(),
        forall|r: int| 0 <= r < keys.len() ==> order.contains(r),
{
    assert forall|i: int, j: int| 0 <= i < order.len() && 0 <= j < order.len() && i != j implies order[i]
        != order[j] by {
        if order[i] == order[j] {
            if i < j {
                assert(ranks_before(keys, order[i], order[j]));
            } else {
                assert(ranks_before(keys, order[j], order[i]));
            }
            lemma_text_order_total(keys[order[i]].text, keys[order[i]].text);
        }
    }
    // a list of n distinct numbers below n holds each of them
    lemma_distinct_covers(order, keys.len() as int);
}

/// A sequence of `n` distinct numbers from 0 up to `n` holds every such
/// number.
pub proof fn lemma_distinct_covers(order: Seq<int>, n: int)
    requires
        order.len() == n,
        order.no_duplicates(),
        forall|i: int| 0 <= i < order.len() ==> 0 <= #[trigger] order[i] < n,
    ensures
        forall|r: int| 0 <= r < n ==> order.contains(r),
    decreases n,
{
    if n > 0 {
        assert forall|r: int| 0 <= r < n implies order.contains(r) by {
            if !order.contains(r) {
                // every element lies in the n - 1 other numbers: too many
                let set = order.to_set();
                order.unique_seq_to_set();
                let all = Set::new(|x: int| 0 <= x < n);
                vstd::set_lib::lemma_int_range(0, n);
                assert(all =~= vstd::set_lib::set_int_range(0, n));
                assert(set.subset_of(all.remove(r))) by {
                    assert forall|x: int| set.contains(x) implies all.remove(r).contains(x) by {
                        let i = choose|i: int| 0 <= i < order.len() && order[i] == x;
                        assert(0 <= order[i] < n);
                    }
                }
                vstd::set_lib::lemma_len_subset(set, all.remove(r));
            }
        }
    }
}

/// Two rankings of the same rows agree below index `upto`.
proof fn lemma_rankings_agree(keys: Seq<SortKeyModel>, first: Seq<int>, second: Seq<int>, upto: int)
    requires
        is_ranking(keys, first),
        is_ranking(keys, second),
        0 <= upto <= keys.len(),
    ensures
        forall|k: int| 0 <= k < upto ==> first[k] == second[k],
    decreases upto,
{
    if upto > 0 {
        let i = upto - 1;
        lemma_rankings_agree(keys, first, second, i);
        lemma_ranking_is_permutation(keys, first);
        lemma_ranking_is_permutation(keys, second);
        let a = first[i];
        let b = second[i];
        if a != b {
            assert(second.contains(a));
            let j = choose|j: int| 0 <= j < second.len() && second[j] == a;
            if j < i {
                assert(first[j] == second[j]);
            }
            assert(ranks_before(keys, second[i], second[j]));
            assert(first.contains(b));
            let m = choose|m: int| 0 <= m < first.len() && first[m] == b;
            if m < i {
                assert(first[m] == second[m]);
            }
            assert(ranks_before(keys, first[i], first[m]));
            lemma_ranks_before_total(keys, a, b);
        }
    }
}

/// The rows have one ranking.
pub proof fn lemma_ranking_unique(keys: Seq<SortKeyModel>, first: Seq<int>, second: Seq<int>)
    requires
        is_ranking(keys, first),
        is_ranking(keys, second),
    ensures
        first == second,
{
    lemma_rankings_agree(keys, first, second, keys.len() as int);
    assert(first =~= second);
}

/// The ranking of the rows: their indices in the order in which they come
/// out.
pub open spec fn ranking(keys: Seq<SortKeyModel>) -> Seq<int> {
    choose|order: Seq<int>| is_ranking(keys, order)
}

/// The part of `order` that a page shows: `limit` entries at most, after the
/// first `offset`. A negative `limit` shows all that follow the offset; a
/// negative `offset` counts as none.
pub open spec fn page(order: Seq<int>, limit: int, offset: int) -> Seq<int> {
    let start = if offset < 0 {
        0
    } else if offset > order.len() {
        order.len() as int
    } else {
        offset
    };
    let rest = order.skip(start);
    if limit < 0 || limit > rest.len() {
        rest
    } else {
        rest.take(limit)
    }
}

/// The indices of the rows in the order in which they come out.
pub fn ranking_of(keys: &Vec<SortKey>) -> (order: Vec<usize>)
    ensures
        indices(order@) == ranking(key_models(keys@)),
        is_ranking(key_models(keys@), indices(order@)),
{
    let order = rank(keys);
    proof {
        lemma_ranking_unique(
            key_models(keys@),
            indices(order@),
            ranking(key_models(keys@)),
        );
    }
    order
}

/// The entries of `order` that the page with `limit` and `offset` shows.
pub fn page_of(order: &Vec<usize>, limit: i64, offset: i64) -> (r: Vec<usize>)
    ensures
        indices(r@) == page(indices(order@), limit as int, offset as int),
        forall|i: int| 0 <= i < r.len() ==> order@.contains(#[trigger] r@[i]),
{
    let n: usize = order.len();
    let start: usize = if offset < 0 {
        0
    } else if offset as u64 > n as u64 {
        n
    } else {
        offset as usize
    };
    let end: usize = if limit < 0 || limit as u64 > (n - start) as u64 {
        n
    } else {
        start + limit as usize
    };
    let mut r: Vec<usize> = Vec::new();
    let mut i: usize = start;
    while i < end
        invariant
            start <= i <= end <= n,
            n == order.len(),
            r@ == order@.subrange(start as int, i as int),
        decreases end - i,
    {
        r.push(order[i]);
        i += 1;
    }
    proof {
        assert(indices(r@) =~= page(indices(order@), limit as int, offset as int));
        assert forall|i: int| 0 <= i < r.len() implies order@.contains(#[trigger] r@[i]) by {
            assert(r@[i] == order@[start + i]);
        }
    }
    r
}

/// The indices of the rows that `keep` holds of, in the order of the table.
pub open spec fn selected<T>(rows: Seq<T>, keep: spec_fn(T) -> bool) -> Seq<int>
    decreases rows.len(),
{
    if rows.len() == 0 {
        Seq::empty()
    } else if keep(rows.last()) {
        selected(rows.drop_last(), keep).push(rows.len() - 1)
    } else {
        selected(rows.drop_last(), keep)
    }
}

/// What [`selected`] holds: the indices of the rows that `keep` holds of,
/// each once, in rising order.
pub proof fn lemma_selected<T>(rows: Seq<T>, keep: spec_fn(T) -> bool)
    ensures
        forall|k: int|
            0 <= k < selected(rows, keep).len() ==> 0 <= #[trigger] selected(rows, keep)[k]
                < rows.len() && keep(rows[selected(rows, keep)[k]]),
        forall|k: int, m: int|
            0 <= k < m < selected(rows, keep).len() ==> #[trigger] selected(rows, keep)[k]
                < #[trigger] selected(rows, keep)[m],
        forall|i: int| 0 <= i < rows.len() && keep(#[trigger] rows[i]) ==> selected(rows, keep).contains(i),
        selected(rows, keep).len() <= rows.len(),
    decreases rows.len(),
{
    if rows.len() > 0 {
        let front = rows.drop_last();
        lemma_selected(front, keep);
        let s = selected(rows, keep);
        let f = selected(front, keep);
        assert forall|i: int| 0 <= i < rows.len() && keep(#[trigger] rows[i]) implies s.contains(i) by {
            if i < rows.len() - 1 {
                assert(front[i] == rows[i]);
                assert(f.contains(i));
                let k = choose|k: int| 0 <= k < f.len() && f[k] == i;
                assert(s[k] == i);
            } else {
                assert(s[s.len() - 1] == i);
            }
        }
        assert forall|k: int| 0 <= k < s.len() implies 0 <= #[trigger] s[k] < rows.len() && keep(
            rows[s[k]],
        ) by {
            if k < f.len() {
                assert(s[k] == f[k]);
                assert(front[f[k]] == rows[f[k]]);
            }
        }
        assert forall|k: int, m: int| 0 <= k < m < s.len() implies #[trigger] s[k] < #[trigger] s[m] by {
            assert(s[k] == f[k]);
            if m < f.len() {
                assert(s[m] == f[m]);
            }
        }
    }
}

/// The keys of the selected rows, in the order of the table.
pub open spec fn keys_of<T>(rows: Seq<T>, chosen: Seq<int>, key: spec_fn(T) -> SortKeyModel) -> Seq<
    SortKeyModel,
> {
    chosen.map_values(|i: int| key(rows[i]))
}

/// The indices of the rows that a query shows, in the order in which it
/// shows them: the rows that `keep` holds of, ranked by `key`, of which
/// the page with `limit` and `offset` is taken.
pub open spec fn arranged<T>(
    rows: Seq<T>,
    keep: spec_fn(T) -> bool,
    key: spec_fn(T) -> SortKeyModel,
    limit: int,
    offset: int,
) -> Seq<int> {
    let chosen = selected(rows, keep);
    page(ranking(keys_of(rows, chosen, key)), limit, offset).map_values(|k: int| chosen[k])
}

/// The rows `chosen`, ranked by their `keys`, of which the page with `limit`
/// and `offset` is taken.
pub fn arrange(chosen: &Vec<usize>, keys: &Vec<SortKey>, limit: i64, offset: i64) -> (r: Vec<usize>)
    requires
        chosen.len() == keys.len(),
    ensures
        indices(r@) == page(ranking(key_models(keys@)), limit as int, offset as int).map_values(
            |k: int| indices(chosen@)[k],
        ),
        forall|i: int| 0 <= i < r.len() ==> chosen@.contains(#[trigger] r@[i]),
{
    let order = ranking_of(keys);
    let shown = page_of(&order, limit, offset);
    let ghost shown_model = page(ranking(key_models(keys@)), limit as int, offset as int);
    proof {
        assert forall|i: int| 0 <= i < shown.len() implies 0 <= #[trigger] shown@[i] < keys.len() by {
            assert(order@.contains(shown@[i]));
            let k = choose|k: int| 0 <= k < order.len() && order@[k] == shown@[i];
            assert(indices(order@)[k] == order@[k]);
        }
    }
    let mut r: Vec<usize> = Vec::new();
    let mut i: usize = 0;
    while i < shown.len()
        invariant
            i <= shown.len(),
            chosen.len() == keys.len(),
            forall|j: int| 0 <= j < shown.len() ==> 0 <= #[trigger] shown@[j] < keys.len(),
            r.len() == i,
            forall|j: int| 0 <= j < i ==> #[trigger] r@[j] == chosen@[shown@[j] as int],
        decreases shown.len() - i,
    {
        r.push(chosen[shown[i]]);
        i += 1;
    }
    proof {
        let want = shown_model.map_values(|k: int| indices(chosen@)[k]);
        assert(indices(r@).len() == want.len());
        assert forall|j: int| 0 <= j < r.len() implies indices(r@)[j] == want[j] by {
            assert(indices(shown@)[j] == shown@[j]);
        }
        assert(indices(r@) =~= want);
    }
    r
}

/// The first place from `from` on in `order` whose row does not come before
/// row `k`.
proof fn lemma_place(keys: Seq<SortKeyModel>, order: Seq<int>, k: int, from: int) -> (p: int)
    requires
        0 <= from <= order.len(),
    ensures
        from <= p <= order.len(),
        forall|i: int| from <= i < p ==> ranks_before(keys, #[trigger] order[i], k),
        p < order.len() ==> !ranks_before(keys, order[p], k),
    decreases order.len() - from,
{
    if from < order.len() && ranks_before(keys, order[from], k) {
        lemma_place(keys, order, k, from + 1)
    } else {
        from
    }
}

/// The first `count` rows have a ranking.
proof fn lemma_ranks_exist(keys: Seq<SortKeyModel>, count: int) -> (order: Seq<int>)
    requires
        0 <= count <= keys.len(),
    ensures
        ranks(keys, order, count),
    decreases count,
{
    if count == 0 {
        Seq::empty()
    } else {
        let k = count - 1;
        let before = lemma_ranks_exist(keys, k);
        let p = lemma_place(keys, before, k, 0);
        let after = before.insert(p, k);
        assert forall|i: int, j: int| 0 <= i < j < after.len() implies ranks_before(
            keys,
            #[trigger] after[i],
            #[trigger] after[j],
        ) by {
            if j < p {
                assert(after[i] == before[i] && after[j] == before[j]);
            } else if j == p {
                assert(after[i] == before[i]);
            } else if i == p {
                assert(after[j] == before[j - 1]);
                let at = before[p];
                lemma_ranks_before_total(keys, at, k);
                if j - 1 > p {
                    lemma_ranks_before_transitive(keys, k, at, before[j - 1]);
                }
            } else if i < p {
                assert(after[i] == before[i] && after[j] == before[j - 1]);
            } else {
                assert(after[i] == before[i - 1] && after[j] == before[j - 1]);
            }
        }
        assert forall|i: int| 0 <= i < after.len() implies 0 <= #[trigger] after[i] < count by {
            if i < p {
                assert(after[i] == before[i]);
            } else if i > p {
                assert(after[i] == before[i - 1]);
            }
        }
        after
    }
}

/// [`ranking`] is the ranking of the rows.
pub proof fn lemma_ranking(keys: Seq<SortKeyModel>)
    ensures
        is_ranking(keys, ranking(keys)),
{
    let order = lemma_ranks_exist(keys, keys.len() as int);
    assert(is_ranking(keys, order));
}

/// A query without a limit shows each row that `keep` holds of, once, and
/// no other.
pub proof fn lemma_arranged_whole<T>(
    rows: Seq<T>,
    keep: spec_fn(T) -> bool,
    key: spec_fn(T) -> SortKeyModel,
)
    ensures
        arranged(rows, keep, key, -1, 0).no_duplicates(),
        forall|i: int|
            0 <= i < rows.len() ==> (arranged(rows, keep, key, -1, 0).contains(i) <==> keep(
                #[trigger] rows[i],
            )),
        forall|k: int|
            0 <= k < arranged(rows, keep, key, -1, 0).len() ==> 0 <= #[trigger] arranged(
                rows,
                keep,
                key,
                -1,
                0,
            )[k] < rows.len(),
{
    let chosen = selected(rows, keep);
    let keys = keys_of(rows, chosen, key);
    let order = ranking(keys);
    let shown = arranged(rows, keep, key, -1, 0);
    lemma_selected(rows, keep);
    lemma_ranking(keys);
    lemma_ranking_is_permutation(keys, order);
    assert(page(order, -1, 0) =~= order);
    assert(shown.len() == order.len());
    assert forall|k: int| 0 <= k < shown.len() implies 0 <= #[trigger] shown[k] < rows.len() by {
        assert(shown[k] == chosen[order[k]]);
    }
    assert forall|a: int, b: int| 0 <= a < shown.len() && 0 <= b < shown.len() && a != b implies shown[a]
        != shown[b] by {
        assert(shown[a] == chosen[order[a]]);
        assert(shown[b] == chosen[order[b]]);
        assert(order[a] != order[b]);
        if order[a] < order[b] {
            assert(chosen[order[a]] < chosen[order[b]]);
        } else {
            assert(chosen[order[b]] < chosen[order[a]]);
        }
    }
    assert forall|i: int| 0 <= i < rows.len() implies (shown.contains(i) <==> keep(#[trigger] rows[i])) by {
        if keep(rows[i]) {
            assert(chosen.contains(i));
            let c = choose|c: int| 0 <= c < chosen.len() && chosen[c] == i;
            assert(order.contains(c));
            let k = choose|k: int| 0 <= k < order.len() && order[k] == c;
            assert(shown[k] == i);
        }
        if shown.contains(i) {
            let k = choose|k: int| 0 <= k < shown.len() && shown[k] == i;
            assert(shown[k] == chosen[order[k]]);
        }
    }
}

/// The indices of the rows that a query shows, in the order in which it
/// shows them, from what was worked out of each row: whether the query
/// keeps it, and its key.
pub fn arrange_rows<T>(
    Ghost(rows): Ghost<Seq<T>>,
    Ghost(keep): Ghost<spec_fn(T) -> bool>,
    Ghost(key): Ghost<spec_fn(T) -> SortKeyModel>,
    kept: &Vec<bool>,
    keys: &Vec<SortKey>,
    limit: i64,
    offset: i64,
) -> (r: Vec<usize>)
    requires
        kept.len() == rows.len(),
        keys.len() == rows.len(),
        forall|i: int| 0 <= i < rows.len() ==> #[trigger] kept@[i] == keep(rows[i]),
        forall|i: int| 0 <= i < rows.len() ==> (#[trigger] keys@[i])@ == key(rows[i]),
    ensures
        indices(r@) == arranged(rows, keep, key, limit as int, offset as int),
        forall|i: int| 0 <= i < r.len() ==> #[trigger] r@[i] < rows.len(),
{
    let mut chosen: Vec<usize> = Vec::new();
    let mut chosen_keys: Vec<SortKey> = Vec::new();
    let mut i: usize = 0;
    proof {
        assert(rows.take(0) =~= Seq::<T>::empty());
        assert(indices(chosen@) =~= selected(rows.take(0), keep));
        assert(key_models(chosen_keys@) =~= keys_of(rows, indices(chosen@), key));
    }
    while i < kept.len()
        invariant
            i <= kept.len(),
            kept.len() == rows.len(),
            keys.len() == rows.len(),
            forall|j: int| 0 <= j < rows.len() ==> #[trigger] kept@[j] == keep(rows[j]),
            forall|j: int| 0 <= j < rows.len() ==> (#[trigger] keys@[j])@ == key(rows[j]),
            chosen.len() == chosen_keys.len(),
            forall|j: int| 0 <= j < chosen.len() ==> #[trigger] chosen@[j] < i,
            indices(chosen@) == selected(rows.take(i as int), keep),
            key_models(chosen_keys@) == keys_of(rows, indices(chosen@), key),
        decreases kept.len() - i,
    {
        proof {
            assert(rows.take(i + 1).drop_last() =~= rows.take(i as int));
            assert(rows.take(i + 1).last() == rows[i as int]);
        }
        if kept[i] {
            let k = &keys[i];
            let copy = SortKey { major: k.major, minor: k.minor, text: k.text.clone() };
            proof {
                assert(copy@ == k@);
                assert(indices(chosen@.push(i)) =~= indices(chosen@).push(i as int));
                assert(key_models(chosen_keys@.push(copy)) =~= key_models(chosen_keys@).push(copy@));
                assert(keys_of(rows, indices(chosen@).push(i as int), key) =~= keys_of(
                    rows,
                    indices(chosen@),
                    key,
                ).push(key(rows[i as int])));
            }
            chosen.push(i);
            chosen_keys.push(copy);
        }
        i += 1;
    }
    proof {
        assert(rows.take(kept.len() as int) =~= rows);
    }
    let r = arrange(&chosen, &chosen_keys, limit, offset);
    proof {
        assert forall|k: int| 0 <= k < r.len() implies #[trigger] r@[k] < rows.len() by {
            assert(chosen@.contains(r@[k]));
        }
    }
    r
}

} // verus!
