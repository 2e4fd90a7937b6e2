//! Batch lookup by the legacy key `(mcc, mnc, lac, cid)`, with one best row per
//! key when several radios share it.
use vstd::prelude::*;

use crate::cell::{key_lt, Cell, CellLookupKey};
use crate::store::{sorted_keys, CellStore};

verus! {

/// How many distinct keys one request resolves; later keys get no result.
pub const LOOKUP_MAX_KEYS: usize = 50;

/// `candidate` is preferred to `current`: more samples, then a newer update,
/// then a higher radio rank (`Nr > Lte > Umts > Gsm > Cdma`).
pub open spec fn better(candidate: Cell, current: Cell) -> bool {
    if candidate.samples != current.samples {
        candidate.samples > current.samples
    } else if candidate.updated != current.updated {
        candidate.updated > current.updated
    } else {
        candidate.radio.rank_spec() > current.radio.rank_spec()
    }
}

pub fn is_better_lookup_candidate(candidate: &Cell, current: &Cell) -> (r: bool)
    ensures
        r == better(*candidate, *current),
{
    if candidate.samples != current.samples {
        return candidate.samples > current.samples;
    }
    if candidate.updated != current.updated {
        return candidate.updated > current.updated;
    }
    candidate.radio.rank() > current.radio.rank()
}

/// The preference is a strict order, and it is total between rows of
/// different radios: whichever order the rows come in, the same one wins.
pub proof fn lemma_better_order(a: Cell, b: Cell, c: Cell)
    ensures
        !better(a, a),
        !(better(a, b) && better(b, a)),
        (better(a, b) && better(b, c)) ==> better(a, c),
        a.radio != b.radio ==> (better(a, b) || better(b, a)),
        a.samples > b.samples ==> better(a, b),
        a.samples == b.samples && a.updated > b.updated ==> better(a, b),
        a.samples == b.samples && a.updated == b.updated && a.radio.rank_spec()
            > b.radio.rank_spec() ==> better(a, b),
{
}

pub open spec fn has_candidate(rows: Seq<Cell>, k: CellLookupKey) -> bool {
    exists|j: int| 0 <= j < rows.len() && (#[trigger] rows[j]).lookup_key() == k
}

/// `c` is a row for `k` that is preferred to every other row for `k`.
pub open spec fn is_best(rows: Seq<Cell>, k: CellLookupKey, c: Cell) -> bool {
    &&& rows.contains(c)
    &&& c.lookup_key() == k
    &&& forall|j: int|
        0 <= j < rows.len() && (#[trigger] rows[j]).lookup_key() == k && rows[j] != c ==> better(
            c,
            rows[j],
        )
}

/// The best row for a key depends only on which rows exist, not on the order
/// in which they are scanned: there is at most one.
pub proof fn lemma_best_unique(rows: Seq<Cell>, k: CellLookupKey, c1: Cell, c2: Cell)
    requires
        is_best(rows, k, c1),
        is_best(rows, k, c2),
    ensures
        c1 == c2,
{
    if c1 != c2 {
        let m = choose|m: int| 0 <= m < rows.len() && rows[m] == c2;
        let n = choose|n: int| 0 <= n < rows.len() && rows[n] == c1;
        assert(better(c1, rows[m]));
        assert(better(c2, rows[n]));
        lemma_better_order(c1, c2, c1);
    }
}

/// The answer for `k`: the best row, or `None` when no row has that key.
pub open spec fn resolves(rows: Seq<Cell>, k: CellLookupKey, r: Option<Cell>) -> bool {
    match r {
        Some(c) => is_best(rows, k, c),
        None => !has_candidate(rows, k),
    }
}

/// The keys without repeats, in order of first occurrence.
pub open spec fn distinct_spec(keys: Seq<CellLookupKey>) -> Seq<CellLookupKey>
    decreases keys.len(),
{
    if keys.len() == 0 {
        Seq::<CellLookupKey>::empty()
    } else {
        let prev = distinct_spec(keys.drop_last());
        if prev.contains(keys.last()) {
            prev
        } else {
            prev.push(keys.last())
        }
    }
}

/// `k` is among the first `LOOKUP_MAX_KEYS` distinct keys of the request.
pub open spec fn looked_up(keys: Seq<CellLookupKey>, k: CellLookupKey) -> bool {
    exists|u: int|
        0 <= u < LOOKUP_MAX_KEYS && u < distinct_spec(keys).len() && #[trigger] distinct_spec(keys)[u]
            == k
}

/// The keys without repeats, in order of first occurrence.
pub fn distinct_keys(keys: &[CellLookupKey]) -> (r: Vec<CellLookupKey>)
    ensures
        r@ == distinct_spec(keys@),
{
    let mut out: Vec<CellLookupKey> = Vec::new();
    let mut i: usize = 0;
    assert(keys@.take(0) =~= Seq::<CellLookupKey>::empty());
    while i < keys.len()
        invariant
            i <= keys@.len(),
            out@ == distinct_spec(keys@.take(i as int)),
        decreases keys@.len() - i,
    {
        let k = keys[i];
        let mut j: usize = 0;
        let mut seen = false;
        while j < out.len()
            invariant
                j <= out@.len(),
                seen <==> exists|u: int| 0 <= u < j && out@[u] == k,
            decreases out@.len() - j,
        {
            if out[j] == k {
                seen = true;
            }
            j = j + 1;
        }
        assert(keys@.take(i + 1).drop_last() =~= keys@.take(i as int));
        assert(keys@.take(i + 1).last() == k);
        if !seen {
            out.push(k);
        } else {
            let ghost u = choose|u: int| 0 <= u < j && out@[u] == k;
            assert(out@.contains(k));
        }
        i = i + 1;
    }
    assert(keys@.take(keys@.len() as int) =~= keys@);
    out
}

proof fn lemma_take_contains(rows: Seq<Cell>, i: int, c: Cell)
    requires
        0 <= i < rows.len(),
        rows.take(i).contains(c),
    ensures
        rows.take(i + 1).contains(c),
        exists|m: int| 0 <= m < i && rows[m] == c,
{
    let m = choose|m: int| 0 <= m < i && rows.take(i)[m] == c;
    assert(rows.take(i + 1)[m] == c);
    assert(rows[m] == c);
}

proof fn lemma_step_other(rows: Seq<Cell>, i: int, k: CellLookupKey, b: Option<Cell>)
    requires
        0 <= i < rows.len(),
        rows[i].lookup_key() != k,
        resolves(rows.take(i), k, b),
    ensures
        resolves(rows.take(i + 1), k, b),
{
    let t = rows.take(i);
    let t1 = rows.take(i + 1);
    match b {
        Some(c) => {
            lemma_take_contains(rows, i, c);
            assert forall|j: int|
                0 <= j < t1.len() && (#[trigger] t1[j]).lookup_key() == k && t1[j] != c implies better(
                c,
                t1[j],
            ) by {
                assert(j < i);
                assert(t[j] == t1[j]);
            }
        },
        None => {
            if has_candidate(t1, k) {
                let j = choose|j: int| 0 <= j < t1.len() && (#[trigger] t1[j]).lookup_key() == k;
                assert(j < i);
                assert(t[j] == t1[j]);
            }
        },
    }
}

proof fn lemma_step_first(rows: Seq<Cell>, i: int, k: CellLookupKey)
    requires
        0 <= i < rows.len(),
        sorted_keys(rows),
        rows[i].lookup_key() == k,
        !has_candidate(rows.take(i), k),
    ensures
        resolves(rows.take(i + 1), k, Some(rows[i])),
{
    let t = rows.take(i);
    let t1 = rows.take(i + 1);
    assert(t1[i] == rows[i]);
    assert forall|j: int|
        0 <= j < t1.len() && (#[trigger] t1[j]).lookup_key() == k && t1[j] != rows[i] implies better(
        rows[i],
        t1[j],
    ) by {
        assert(j < i);
        assert(t[j] == t1[j]);
    }
}

/// Two rows of a store that share a lookup key differ in radio.
proof fn lemma_same_lookup_key(rows: Seq<Cell>, m: int, i: int)
    requires
        sorted_keys(rows),
        0 <= m < i < rows.len(),
        rows[m].lookup_key() == rows[i].lookup_key(),
    ensures
        rows[m].radio != rows[i].radio,
        rows[m] != rows[i],
{
    assert(key_lt(rows[m].key(), rows[i].key()));
}

proof fn lemma_step_candidate(rows: Seq<Cell>, i: int, k: CellLookupKey, c: Cell)
    requires
        0 <= i < rows.len(),
        sorted_keys(rows),
        rows[i].lookup_key() == k,
        is_best(rows.take(i), k, c),
    ensures
        better(rows[i], c) ==> is_best(rows.take(i + 1), k, rows[i]),
        !better(rows[i], c) ==> is_best(rows.take(i + 1), k, c),
{
    let t = rows.take(i);
    let t1 = rows.take(i + 1);
    let x = rows[i];
    lemma_take_contains(rows, i, c);
    let m = choose|m: int| 0 <= m < i && rows[m] == c;
    lemma_same_lookup_key(rows, m, i);
    lemma_better_order(x, c, x);
    assert(t1[i] == x);
    if better(x, c) {
        assert forall|j: int|
            0 <= j < t1.len() && (#[trigger] t1[j]).lookup_key() == k && t1[j] != x implies better(
            x,
            t1[j],
        ) by {
            assert(j < i);
            assert(t[j] == t1[j]);
            if t1[j] != c {
                lemma_better_order(x, c, t1[j]);
            }
        }
    } else {
        assert forall|j: int|
            0 <= j < t1.len() && (#[trigger] t1[j]).lookup_key() == k && t1[j] != c implies better(
            c,
            t1[j],
        ) by {
            if j < i {
                assert(t[j] == t1[j]);
            }
        }
    }
}

/// Resolves each key to its best row. Keys are deduplicated in order of first
/// occurrence and only the first `LOOKUP_MAX_KEYS` distinct ones are looked
/// up; the answer has one slot per input key, a repeated key gets the answer
/// of its first occurrence, and a key beyond the bound gets `None`. Rows of
/// one key differ in radio, so the best row is unique and does not depend on
/// the order of the scan.
pub fn query_cells_lookup(keys: &[CellLookupKey], store: &CellStore) -> (r: Vec<Option<Cell>>)
    requires
        store.wf(),
    ensures
        r@.len() == keys@.len(),
        forall|i: int|
            0 <= i < r@.len() ==> (if looked_up(keys@, keys@[i]) {
                resolves(store@, keys@[i], #[trigger] r@[i])
            } else {
                r@[i] is None
            }),
        forall|i: int, j: int|
            0 <= i < r@.len() && 0 <= j < r@.len() && keys@[i] == keys@[j] ==> #[trigger] r@[i]
                == #[trigger] r@[j],
{
    let unique = distinct_keys(keys);
    let attempted: usize = if unique.len() < LOOKUP_MAX_KEYS {
        unique.len()
    } else {
        LOOKUP_MAX_KEYS
    };
    let rows = store.rows();
    let mut best: Vec<Option<Cell>> = Vec::new();
    let mut u: usize = 0;
    assert(rows@.take(0) =~= Seq::<Cell>::empty());
    while u < attempted
        invariant
            u <= attempted,
            best@.len() == u,
            forall|v: int| 0 <= v < u ==> #[trigger] best@[v] is None,
        decreases attempted - u,
    {
        best.push(None);
        u = u + 1;
    }
    let mut i: usize = 0;
    while i < rows.len()
        invariant
            rows@ == store@,
            sorted_keys(rows@),
            i <= rows@.len(),
            attempted <= unique@.len(),
            best@.len() == attempted,
            forall|v: int|
                0 <= v < attempted ==> resolves(rows@.take(i as int), unique@[v], #[trigger] best@[v]),
        decreases rows@.len() - i,
    {
        let row = rows[i];
        let mut u: usize = 0;
        while u < attempted
            invariant
                rows@ == store@,
                sorted_keys(rows@),
                i < rows@.len(),
                row == rows@[i as int],
                u <= attempted,
                attempted <= unique@.len(),
                best@.len() == attempted,
                forall|v: int|
                    0 <= v < u ==> resolves(rows@.take(i + 1), unique@[v], #[trigger] best@[v]),
                forall|v: int|
                    u <= v < attempted ==> resolves(rows@.take(i as int), unique@[v], #[trigger] best@[v]),
            decreases attempted - u,
        {
            let k = unique[u];
            let ghost before = best@;
            if row.mcc == k.mcc && row.net == k.mnc && row.area == k.lac && row.cell == k.cid {
                assert(row.lookup_key() == k);
                match best[u] {
                    None => {
                        best.set(u, Some(row));
                        proof {
                            lemma_step_first(rows@, i as int, k);
                        }
                    },
                    Some(cur) => {
                        proof {
                            lemma_step_candidate(rows@, i as int, k, cur);
                        }
                        if is_better_lookup_candidate(&row, &cur) {
                            best.set(u, Some(row));
                        }
                    },
                }
            } else {
                proof {
                    lemma_step_other(rows@, i as int, k, before[u as int]);
                }
            }
            proof {
                assert forall|v: int| 0 <= v < u + 1 implies resolves(
                    rows@.take(i + 1),
                    unique@[v],
                    #[trigger] best@[v],
                ) by {
                    if v < u {
                        assert(best@[v] == before[v]);
                    }
                }
                assert forall|v: int| u + 1 <= v < attempted implies resolves(
                    rows@.take(i as int),
                    unique@[v],
                    #[trigger] best@[v],
                ) by {
                    assert(best@[v] == before[v]);
                }
            }
            u = u + 1;
        }
        i = i + 1;
    }
    assert(rows@.take(rows@.len() as int) =~= rows@);
    let mut out: Vec<Option<Cell>> = Vec::new();
    let mut i: usize = 0;
    while i < keys.len()
        invariant
            i <= keys@.len(),
            out@.len() == i,
            unique@ == distinct_spec(keys@),
            attempted == (if unique@.len() < LOOKUP_MAX_KEYS { unique@.len() } else { LOOKUP_MAX_KEYS as nat }),
            best@.len() == attempted,
            forall|v: int| 0 <= v < attempted ==> resolves(store@, unique@[v], #[trigger] best@[v]),
            forall|x: int|
                0 <= x < i ==> (if looked_up(keys@, keys@[x]) {
                    resolves(store@, keys@[x], #[trigger] out@[x])
                } else {
                    out@[x] is None
                }),
        decreases keys@.len() - i,
    {
        let k = keys[i];
        let mut found: Option<Cell> = None;
        let mut u: usize = 0;
        while u < attempted
            invariant
                u <= attempted,
                attempted <= unique@.len(),
                best@.len() == attempted,
                forall|v: int| 0 <= v < attempted ==> resolves(store@, unique@[v], #[trigger] best@[v]),
                (exists|v: int| 0 <= v < u && unique@[v] == k) ==> resolves(store@, k, found),
                !(exists|v: int| 0 <= v < u && unique@[v] == k) ==> found is None,
            decreases attempted - u,
        {
            if unique[u] == k {
                found = best[u];
                assert(resolves(store@, unique@[u as int], best@[u as int]));
            }
            u = u + 1;
        }
        proof {
            if looked_up(keys@, k) {
                let v = choose|v: int|
                    0 <= v < LOOKUP_MAX_KEYS && v < distinct_spec(keys@).len() && #[trigger] distinct_spec(
                        keys@,
                    )[v] == k;
                assert(unique@[v] == k && v < attempted);
            } else {
                assert forall|v: int| 0 <= v < attempted implies unique@[v] != k by {
                    if unique@[v] == k {
                        assert(distinct_spec(keys@)[v] == k);
                    }
                }
            }
        }
        out.push(found);
        i = i + 1;
    }
    proof {
        assert forall|i: int, j: int|
            0 <= i < out@.len() && 0 <= j < out@.len() && keys@[i] == keys@[j] implies #[trigger] out@[i]
                == #[trigger] out@[j] by {
            let k = keys@[i];
            if looked_up(keys@, k) {
                assert(resolves(store@, k, out@[i]));
                assert(resolves(store@, k, out@[j]));
                lemma_resolves_unique(store@, k, out@[i], out@[j]);
            }
        }
    }
    out
}

/// A key has one answer: two answers that both resolve it are equal.
pub proof fn lemma_resolves_unique(rows: Seq<Cell>, k: CellLookupKey, a: Option<Cell>, b: Option<Cell>)
    requires
        resolves(rows, k, a),
        resolves(rows, k, b),
    ensures
        a == b,
{
    match (a, b) {
        (Some(x), Some(y)) => lemma_best_unique(rows, k, x, y),
        (Some(x), None) => {
            let m = choose|m: int| 0 <= m < rows.len() && rows[m] == x;
            assert(rows[m].lookup_key() == k);
        },
        (None, Some(y)) => {
            let m = choose|m: int| 0 <= m < rows.len() && rows[m] == y;
            assert(rows[m].lookup_key() == k);
        },
        (None, None) => {},
    }
}

} // verus!
