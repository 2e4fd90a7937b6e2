//! Exact lookup and seek-paginated listing over the record store.
use vstd::prelude::*;

use crate::cell::{key_lt, Cell, CellCursor, Coord};
use crate::cursor::{b64url_encode, cursor_raw, parse_cursor};
use crate::radio::Radio;
use crate::store::{sorted_keys, CellStore};

verus! {

/// Page size when the request names none.
pub const DEFAULT_PAGE_SIZE: u32 = 100;

/// Largest page size, whatever the request asks for.
pub const MAX_PAGE_SIZE: u32 = 1000;

/// Exact lookup by the four legacy fields and, optionally, the radio.
#[derive(Clone, Copy, Debug, PartialEq, Eq, Structural)]
pub struct GetCellQuery {
    pub mcc: u16,
    pub net: u16,
    pub area: u32,
    pub cell: u64,
    pub radio: Option<Radio>,
}

pub open spec fn exact_match(q: GetCellQuery, c: Cell) -> bool {
    &&& c.mcc == q.mcc
    &&& c.net == q.net
    &&& c.area == q.area
    &&& c.cell == q.cell
    &&& match q.radio {
        Some(r) => c.radio == r,
        None => true,
    }
}

pub fn exact_matches(q: &GetCellQuery, c: &Cell) -> (r: bool)
    ensures
        r == exact_match(*q, *c),
{
    let radio_ok = match q.radio {
        Some(r) => c.radio == r,
        None => true,
    };
    c.mcc == q.mcc && c.net == q.net && c.area == q.area && c.cell == q.cell && radio_ok
}

/// `r` is the first row of `rows` that matches `q`, or `None` when none does.
pub open spec fn first_exact_match(rows: Seq<Cell>, q: GetCellQuery, r: Option<Cell>) -> bool {
    match r {
        Some(c) => exists|i: int|
            0 <= i < rows.len() && rows[i] == c && exact_match(q, c) && forall|j: int|
                0 <= j < i ==> !exact_match(q, #[trigger] rows[j]),
        None => forall|j: int| 0 <= j < rows.len() ==> !exact_match(q, #[trigger] rows[j]),
    }
}

/// The matching row that comes first in key order, or `None` when no row
/// matches. Without a radio several rows may match; the one with the lowest
/// radio in declaration order is returned. With a radio at most one matches.
pub fn query_cell(query: &GetCellQuery, store: &CellStore) -> (r: Option<Cell>)
    ensures
        first_exact_match(store@, *query, r),
{
    let rows = store.rows();
    let mut i: usize = 0;
    while i < rows.len()
        invariant
            rows@ == store@,
            i <= rows@.len(),
            forall|j: int| 0 <= j < i ==> !exact_match(*query, #[trigger] rows@[j]),
        decreases rows@.len() - i,
    {
        if exact_matches(query, &rows[i]) {
            return Some(rows[i]);
        }
        i = i + 1;
    }
    None
}

/// Exact lookup is deterministic: a store has one answer per query. Among
/// rows that differ only by radio, the answer without a radio is the one whose
/// radio comes first in declaration order; with a radio, it is the row of that
/// radio, the only one that matches.
pub proof fn lemma_exact_lookup_determinism(
    rows: Seq<Cell>,
    q: GetCellQuery,
    r1: Option<Cell>,
    r2: Option<Cell>,
)
    requires
        sorted_keys(rows),
        first_exact_match(rows, q, r1),
        first_exact_match(rows, q, r2),
    ensures
        r1 == r2,
        r1 matches Some(c) ==> forall|j: int|
            0 <= j < rows.len() && exact_match(q, #[trigger] rows[j]) ==> c.radio.order()
                <= rows[j].radio.order(),
        q.radio is Some ==> (r1 matches Some(c) ==> forall|j: int|
            0 <= j < rows.len() && exact_match(q, #[trigger] rows[j]) ==> rows[j] == c),
{
    if let Some(c1) = r1 {
        let i1 = choose|i: int|
            0 <= i < rows.len() && rows[i] == c1 && exact_match(q, c1) && forall|j: int|
                0 <= j < i ==> !exact_match(q, #[trigger] rows[j]);
        if let Some(c2) = r2 {
            let i2 = choose|i: int|
                0 <= i < rows.len() && rows[i] == c2 && exact_match(q, c2) && forall|j: int|
                    0 <= j < i ==> !exact_match(q, #[trigger] rows[j]);
            assert(i1 == i2) by {
                if i1 < i2 {
                    assert(!exact_match(q, rows[i1]));
                } else if i2 < i1 {
                    assert(!exact_match(q, rows[i2]));
                }
            }
        } else {
            assert(!exact_match(q, rows[i1]));
        }
        assert forall|j: int| 0 <= j < rows.len() && exact_match(q, #[trigger] rows[j]) implies c1.radio.order()
            <= rows[j].radio.order() by {
            if j < i1 {
            } else if j > i1 {
                assert(key_lt(rows[i1].key(), rows[j].key()));
            }
        }
        if q.radio is Some {
            assert forall|j: int| 0 <= j < rows.len() && exact_match(q, #[trigger] rows[j]) implies rows[j]
                == c1 by {
                if j > i1 {
                    assert(key_lt(rows[i1].key(), rows[j].key()));
                }
            }
        }
    } else {
        if let Some(c2) = r2 {
            let i2 = choose|i: int| 0 <= i < rows.len() && rows[i] == c2 && exact_match(q, c2);
            assert(!exact_match(q, rows[i2]));
        }
    }
}

/// Filters and pagination of a listing. Coordinates bound `lat` and `lon`
/// inclusively; absent fields impose nothing.
#[derive(Clone, Debug)]
pub struct GetCellsQuery {
    pub mcc: Option<u16>,
    pub mnc: Option<u16>,
    pub min_lat: Option<Coord>,
    pub max_lat: Option<Coord>,
    pub min_lon: Option<Coord>,
    pub max_lon: Option<Coord>,
    pub radio: Option<Radio>,
    pub cursor: Option<String>,
    pub limit: Option<u32>,
}

/// One page of a listing.
#[derive(Clone, Debug)]
pub struct GetCellsResponse {
    pub cells: Vec<Cell>,
    pub next_cursor: Option<String>,
    pub has_more: bool,
}

pub open spec fn at_least(bound: Option<Coord>, v: Coord) -> bool {
    match bound {
        Some(b) => b.le_spec(v),
        None => true,
    }
}

pub open spec fn at_most(bound: Option<Coord>, v: Coord) -> bool {
    match bound {
        Some(b) => v.le_spec(b),
        None => true,
    }
}

pub open spec fn passes_filters(q: GetCellsQuery, c: Cell) -> bool {
    &&& match q.mcc {
        Some(m) => c.mcc == m,
        None => true,
    }
    &&& match q.mnc {
        Some(n) => c.net == n,
        None => true,
    }
    &&& match q.radio {
        Some(r) => c.radio == r,
        None => true,
    }
    &&& at_least(q.min_lat, c.lat)
    &&& at_most(q.max_lat, c.lat)
    &&& at_least(q.min_lon, c.lon)
    &&& at_most(q.max_lon, c.lon)
}

/// The seek predicate: the row's key is strictly after the cursor's.
pub open spec fn beyond(after: Option<CellCursor>, c: Cell) -> bool {
    match after {
        Some(k) => key_lt(k, c.key()),
        None => true,
    }
}

pub open spec fn wanted(q: GetCellsQuery, after: Option<CellCursor>, c: Cell) -> bool {
    passes_filters(q, c) && beyond(after, c)
}

/// The rows of `rows` that pass the filters and lie beyond the cursor, in the
/// order of `rows`.
pub open spec fn selected(rows: Seq<Cell>, q: GetCellsQuery, after: Option<CellCursor>) -> Seq<
    Cell,
>
    decreases rows.len(),
{
    if rows.len() == 0 {
        Seq::<Cell>::empty()
    } else {
        let prev = selected(rows.drop_last(), q, after);
        if wanted(q, after, rows.last()) {
            prev.push(rows.last())
        } else {
            prev
        }
    }
}

/// At most the first `n` items of `s`.
pub open spec fn first_n(s: Seq<Cell>, n: nat) -> Seq<Cell> {
    if s.len() > n {
        s.take(n as int)
    } else {
        s
    }
}

pub open spec fn page_size_spec(limit: Option<u32>) -> nat {
    match limit {
        None => DEFAULT_PAGE_SIZE as nat,
        Some(l) => if l > MAX_PAGE_SIZE {
            MAX_PAGE_SIZE as nat
        } else {
            l as nat
        },
    }
}

/// What the store returns for a page: one row more than the page holds, when
/// there are that many.
pub open spec fn page_fetch(rows: Seq<Cell>, q: GetCellsQuery, after: Option<CellCursor>) -> Seq<
    Cell,
> {
    first_n(selected(rows, q, after), page_size_spec(q.limit) + 1)
}

/// `r` is the page made of `fetched` for page size `size`: a row beyond the
/// page means more follow; the cursor then encodes the page's last key.
pub open spec fn page_of(r: GetCellsResponse, fetched: Seq<Cell>, size: nat) -> bool {
    &&& r.has_more == (fetched.len() > size)
    &&& r.cells@ == first_n(fetched, size)
    &&& match r.next_cursor {
        Some(s) => fetched.len() > size && size > 0 && s@ == b64url_encode(
            cursor_raw(fetched[size - 1].key()),
        ),
        None => !(fetched.len() > size && size > 0),
    }
}

/// Limit clamping: a page never holds more than 1000 rows; without a limit it
/// holds 100 when that many are selected; `has_more` says whether selected
/// rows remain beyond the page.
pub proof fn lemma_limit_clamping(r: GetCellsResponse, rows: Seq<Cell>, q: GetCellsQuery, after: Option<CellCursor>)
    requires
        page_of(r, page_fetch(rows, q, after), page_size_spec(q.limit)),
    ensures
        r.cells@.len() <= MAX_PAGE_SIZE,
        q.limit is None && selected(rows, q, after).len() >= DEFAULT_PAGE_SIZE ==> r.cells@.len()
            == DEFAULT_PAGE_SIZE,
        r.has_more == (selected(rows, q, after).len() > page_size_spec(q.limit)),
        r.cells@.len() == (if selected(rows, q, after).len() > page_size_spec(q.limit) {
            page_size_spec(q.limit)
        } else {
            selected(rows, q, after).len()
        }),
{
}

/// The page size: the request's limit, 100 when absent, never above 1000.
pub fn page_size(limit: Option<u32>) -> (r: u32)
    ensures
        r == page_size_spec(limit),
        r <= MAX_PAGE_SIZE,
{
    match limit {
        None => DEFAULT_PAGE_SIZE,
        Some(l) => if l > MAX_PAGE_SIZE {
            MAX_PAGE_SIZE
        } else {
            l
        },
    }
}

fn at_least_exec(bound: &Option<Coord>, v: &Coord) -> (r: bool)
    ensures
        r == at_least(*bound, *v),
{
    match bound {
        Some(b) => b.le(v),
        None => true,
    }
}

fn at_most_exec(bound: &Option<Coord>, v: &Coord) -> (r: bool)
    ensures
        r == at_most(*bound, *v),
{
    match bound {
        Some(b) => v.le(b),
        None => true,
    }
}

pub fn passes(q: &GetCellsQuery, c: &Cell) -> (r: bool)
    ensures
        r == passes_filters(*q, *c),
{
    let mcc_ok = match q.mcc {
        Some(m) => c.mcc == m,
        None => true,
    };
    let mnc_ok = match q.mnc {
        Some(n) => c.net == n,
        None => true,
    };
    let radio_ok = match q.radio {
        Some(r) => c.radio == r,
        None => true,
    };
    mcc_ok && mnc_ok && radio_ok && at_least_exec(&q.min_lat, &c.lat) && at_most_exec(
        &q.max_lat,
        &c.lat,
    ) && at_least_exec(&q.min_lon, &c.lon) && at_most_exec(&q.max_lon, &c.lon)
}

fn is_beyond(after: &Option<CellCursor>, c: &Cell) -> (r: bool)
    ensures
        r == beyond(*after, *c),
{
    match after {
        Some(k) => crate::cell::key_less(k, &CellCursor::from_cell(c)),
        None => true,
    }
}

/// What is selected from a prefix of the rows is a prefix of what is selected
/// from all of them.
pub proof fn lemma_selected_prefix(
    rows: Seq<Cell>,
    n: int,
    q: GetCellsQuery,
    after: Option<CellCursor>,
)
    requires
        0 <= n <= rows.len(),
    ensures
        selected(rows.take(n), q, after).is_prefix_of(selected(rows, q, after)),
    decreases rows.len(),
{
    if n == rows.len() {
        assert(rows.take(n) =~= rows);
    } else {
        let prev = rows.drop_last();
        lemma_selected_prefix(prev, n, q, after);
        assert(prev.take(n) =~= rows.take(n));
        let a = selected(rows.take(n), q, after);
        let b = selected(prev, q, after);
        let c = selected(rows, q, after);
        assert(b.is_prefix_of(c)) by {
            assert(c.subrange(0, b.len() as int) =~= b);
        }
        assert(c.subrange(0, a.len() as int) =~= b.subrange(0, a.len() as int));
    }
}

/// The store's ordered, filtered scan: the first `limit` rows beyond `after`
/// that pass the filters, in key order.
pub fn scan(store: &CellStore, q: &GetCellsQuery, after: &Option<CellCursor>, limit: usize) -> (r:
    Vec<Cell>)
    ensures
        r@ == first_n(selected(store@, *q, *after), limit as nat),
{
    let rows = store.rows();
    let mut out: Vec<Cell> = Vec::new();
    let mut i: usize = 0;
    assert(rows@.take(0) =~= Seq::<Cell>::empty());
    while i < rows.len() && out.len() < limit
        invariant
            rows@ == store@,
            i <= rows@.len(),
            out@ == selected(rows@.take(i as int), *q, *after),
            out@.len() <= limit,
        decreases rows@.len() - i,
    {
        assert(rows@.take(i + 1).drop_last() =~= rows@.take(i as int));
        assert(rows@.take(i + 1).last() == rows@[i as int]);
        if passes(q, &rows[i]) && is_beyond(after, &rows[i]) {
            out.push(rows[i]);
        }
        i = i + 1;
    }
    proof {
        lemma_selected_prefix(rows@, i as int, *q, *after);
        let all = selected(rows@, *q, *after);
        if i == rows@.len() {
            assert(rows@.take(i as int) =~= rows@);
        } else {
            assert(out@.len() == limit);
            assert(all.take(limit as int) =~= out@);
        }
    }
    out
}

/// Turns what the store returned (at most one row beyond the page) into a
/// page: the extra row only signals that more follow, and the cursor encodes
/// the key of the page's last row.
pub fn finish_page(rows: Vec<Cell>, page: u32) -> (r: GetCellsResponse)
    requires
        rows@.len() <= page + 1,
    ensures
        page_of(r, rows@, page as nat),
{
    let ghost fetched = rows@;
    let mut results = rows;
    let has_more = results.len() > page as usize;
    if has_more {
        results.pop();
        assert(results@ =~= fetched.take(page as int));
    }
    let next_cursor = if has_more && results.len() > 0 {
        let last = results[results.len() - 1];
        Some(CellCursor::from_cell(&last).encode())
    } else {
        None
    };
    GetCellsResponse { cells: results, next_cursor, has_more }
}

/// One page of rows beyond `after` that pass the filters of `query`, in key
/// order; the cursor field of `query` is not read.
pub fn query_cells_after(query: &GetCellsQuery, after: Option<CellCursor>, store: &CellStore) -> (r:
    GetCellsResponse)
    ensures
        page_of(r, page_fetch(store@, *query, after), page_size_spec(query.limit)),
{
    let page = page_size(query.limit);
    let fetched = scan(store, query, &after, page as usize + 1);
    finish_page(fetched, page)
}

/// One page of the listing. A cursor that does not decode counts as no cursor.
pub fn query_cells(query: &GetCellsQuery, store: &CellStore) -> (r: GetCellsResponse)
    ensures
        match query.cursor {
            None => page_of(r, page_fetch(store@, *query, None), page_size_spec(query.limit)),
            Some(s) => {
                &&& forall|b: Seq<u8>| #[trigger]
                    b64url_encode(b) == s@ ==> page_of(
                        r,
                        page_fetch(store@, *query, parse_cursor(b)),
                        page_size_spec(query.limit),
                    )
                &&& (forall|b: Seq<u8>| #[trigger] b64url_encode(b) != s@) ==> page_of(
                    r,
                    page_fetch(store@, *query, None),
                    page_size_spec(query.limit),
                )
            },
        },
{
    let after = match &query.cursor {
        Some(s) => CellCursor::decode(s.as_str()),
        None => None,
    };
    query_cells_after(query, after, store)
}

/// One condition of a listing, for a store to evaluate on each row.
#[derive(Clone, Copy, Debug, PartialEq, Eq, Structural)]
pub enum Constraint {
    MccEquals(u16),
    NetEquals(u16),
    RadioEquals(Radio),
    LatAtLeast(Coord),
    LatAtMost(Coord),
    LonAtLeast(Coord),
    LonAtMost(Coord),
    /// The row's key is strictly after this key (the seek predicate).
    KeyAfter(CellCursor),
}

pub open spec fn holds(k: Constraint, c: Cell) -> bool {
    match k {
        Constraint::MccEquals(m) => c.mcc == m,
        Constraint::NetEquals(n) => c.net == n,
        Constraint::RadioEquals(r) => c.radio == r,
        Constraint::LatAtLeast(b) => b.le_spec(c.lat),
        Constraint::LatAtMost(b) => c.lat.le_spec(b),
        Constraint::LonAtLeast(b) => b.le_spec(c.lon),
        Constraint::LonAtMost(b) => c.lon.le_spec(b),
        Constraint::KeyAfter(k) => key_lt(k, c.key()),
    }
}

pub open spec fn holds_all(ks: Seq<Constraint>, c: Cell) -> bool {
    forall|i: int| 0 <= i < ks.len() ==> holds(#[trigger] ks[i], c)
}

/// What a store is asked for one page of a listing: the rows meeting every
/// constraint, in key order, at most `fetch_limit` of them.
#[derive(Clone, Debug)]
pub struct ListingPlan {
    pub constraints: Vec<Constraint>,
    pub page_size: u32,
    pub fetch_limit: u32,
}

proof fn lemma_holds_push(ks: Seq<Constraint>, k: Constraint)
    ensures
        forall|c: Cell| #[trigger] holds_all(ks.push(k), c) == (holds_all(ks, c) && holds(k, c)),
{
    assert forall|c: Cell| #[trigger] holds_all(ks.push(k), c) == (holds_all(ks, c) && holds(k, c)) by {
        if holds_all(ks, c) && holds(k, c) {
            assert forall|i: int| 0 <= i < ks.push(k).len() implies holds(#[trigger] ks.push(k)[i], c) by {
                if i < ks.len() {
                    assert(ks.push(k)[i] == ks[i]);
                }
            }
        }
        if holds_all(ks.push(k), c) {
            assert(holds(ks.push(k)[ks.len() as int], c));
            assert forall|i: int| 0 <= i < ks.len() implies holds(#[trigger] ks[i], c) by {
                assert(ks.push(k)[i] == ks[i]);
                assert(holds(ks.push(k)[i], c));
            }
        }
    }
}

fn add_constraint(ks: &mut Vec<Constraint>, k: Constraint)
    ensures
        forall|c: Cell| #[trigger] holds_all(final(ks)@, c) == (holds_all(old(ks)@, c) && holds(k, c)),
{
    proof {
        lemma_holds_push(old(ks)@, k);
    }
    ks.push(k);
}

/// The constraints of a listing beyond `after`: a row meets them all exactly
/// when it passes the filters of `query` and its key is after `after`.
pub fn constraints_for(query: &GetCellsQuery, after: Option<CellCursor>) -> (r: Vec<Constraint>)
    ensures
        forall|c: Cell| #[trigger] holds_all(r@, c) == wanted(*query, after, c),
{
    let mut ks: Vec<Constraint> = Vec::new();
    if let Some(m) = query.mcc {
        add_constraint(&mut ks, Constraint::MccEquals(m));
    }
    if let Some(n) = query.mnc {
        add_constraint(&mut ks, Constraint::NetEquals(n));
    }
    if let Some(r) = query.radio {
        add_constraint(&mut ks, Constraint::RadioEquals(r));
    }
    if let Some(b) = query.min_lat {
        add_constraint(&mut ks, Constraint::LatAtLeast(b));
    }
    if let Some(b) = query.max_lat {
        add_constraint(&mut ks, Constraint::LatAtMost(b));
    }
    if let Some(b) = query.min_lon {
        add_constraint(&mut ks, Constraint::LonAtLeast(b));
    }
    if let Some(b) = query.max_lon {
        add_constraint(&mut ks, Constraint::LonAtMost(b));
    }
    if let Some(k) = after {
        add_constraint(&mut ks, Constraint::KeyAfter(k));
    }
    ks
}

/// The store's part of one page: the constraints (the cursor decoded; one
/// that does not decode counts as none), the page size, and the fetch limit,
/// one more than the page.
pub fn plan_listing(query: &GetCellsQuery) -> (r: ListingPlan)
    ensures
        r.page_size == page_size_spec(query.limit),
        r.fetch_limit == r.page_size + 1,
        match query.cursor {
            None => forall|c: Cell| #[trigger] holds_all(r.constraints@, c) == wanted(*query, None, c),
            Some(s) => {
                &&& forall|b: Seq<u8>, c: Cell|
                    #[trigger] b64url_encode(b) == s@ ==> #[trigger] holds_all(r.constraints@, c)
                        == wanted(*query, parse_cursor(b), c)
                &&& (forall|b: Seq<u8>| #[trigger] b64url_encode(b) != s@) ==> forall|c: Cell|
                    #[trigger] holds_all(r.constraints@, c) == wanted(*query, None, c)
            },
        },
{
    let after = match &query.cursor {
        Some(s) => CellCursor::decode(s.as_str()),
        None => None,
    };
    let page = page_size(query.limit);
    ListingPlan { constraints: constraints_for(query, after), page_size: page, fetch_limit: page + 1 }
}

} // verus!
