//! Seek pagination walks every selected row exactly once, in key order.
use vstd::prelude::*;

use crate::cell::{key_lt, lemma_key_order, Cell, CellCursor};
use crate::cursor::{b64url_encode, cursor_raw};
use crate::query::{
    beyond, first_n, page_fetch, page_of, page_size_spec, passes_filters, selected, wanted,
    GetCellsQuery, GetCellsResponse,
};
use crate::store::sorted_keys;

verus! {

/// Every selected row is a row, is wanted, and the selection is in order.
proof fn lemma_selected_members(rows: Seq<Cell>, q: GetCellsQuery, after: Option<CellCursor>)
    requires
        sorted_keys(rows),
    ensures
        sorted_keys(selected(rows, q, after)),
        forall|i: int|
            0 <= i < selected(rows, q, after).len() ==> rows.contains(
                #[trigger] selected(rows, q, after)[i],
            ) && wanted(q, after, selected(rows, q, after)[i]),
        forall|c: Cell| rows.contains(c) && wanted(q, after, c) ==> selected(rows, q, after).contains(c),
    decreases rows.len(),
{
    if rows.len() > 0 {
        let prev = rows.drop_last();
        let x = rows.last();
        assert(sorted_keys(prev)) by {
            assert forall|i: int, j: int| 0 <= i < j < prev.len() implies key_lt(
                #[trigger] prev[i].key(),
                #[trigger] prev[j].key(),
            ) by {
                assert(prev[i] == rows[i] && prev[j] == rows[j]);
            }
        }
        lemma_selected_members(prev, q, after);
        let sp = selected(prev, q, after);
        let s = selected(rows, q, after);
        assert forall|i: int| 0 <= i < sp.len() implies rows.contains(#[trigger] sp[i]) && key_lt(
            sp[i].key(),
            x.key(),
        ) by {
            let m = choose|m: int| 0 <= m < prev.len() && prev[m] == sp[i];
            assert(rows[m] == sp[i]);
            assert(key_lt(rows[m].key(), rows[rows.len() - 1].key()));
        }
        assert(rows[rows.len() - 1] == x);
        assert forall|i: int| 0 <= i < s.len() implies rows.contains(#[trigger] s[i]) && wanted(q, after, s[i]) by {
            if i < sp.len() {
                assert(s[i] == sp[i]);
            }
        }
        assert forall|a: int, b: int| 0 <= a < b < s.len() implies key_lt(
            #[trigger] s[a].key(),
            #[trigger] s[b].key(),
        ) by {
            assert(s[a] == sp[a]);
            if b < sp.len() {
                assert(s[b] == sp[b]);
            }
        }
        assert forall|c: Cell| rows.contains(c) && wanted(q, after, c) implies s.contains(c) by {
            let m = choose|m: int| 0 <= m < rows.len() && rows[m] == c;
            if m < rows.len() - 1 {
                assert(prev[m] == c);
                assert(prev.contains(c));
                assert(sp.contains(c));
                let n = choose|n: int| 0 <= n < sp.len() && sp[n] == c;
                assert(s[n] == c);
            } else {
                assert(s[s.len() - 1] == c);
            }
        }
    }
}

/// `selected` unfolded from the front.
proof fn lemma_selected_front(rows: Seq<Cell>, q: GetCellsQuery, after: Option<CellCursor>)
    requires
        rows.len() > 0,
    ensures
        selected(rows, q, after) == (if wanted(q, after, rows[0]) {
            seq![rows[0]]
        } else {
            Seq::<Cell>::empty()
        }) + selected(rows.drop_first(), q, after),
    decreases rows.len(),
{
    let head = if wanted(q, after, rows[0]) {
        seq![rows[0]]
    } else {
        Seq::<Cell>::empty()
    };
    if rows.len() == 1 {
        assert(rows.drop_last() =~= Seq::<Cell>::empty());
        assert(rows.drop_first() =~= Seq::<Cell>::empty());
        assert(selected(rows.drop_first(), q, after) == Seq::<Cell>::empty());
        assert(selected(rows.drop_last(), q, after) == Seq::<Cell>::empty());
        assert(selected(rows, q, after) =~= head + selected(rows.drop_first(), q, after));
    } else {
        let dl = rows.drop_last();
        let df = rows.drop_first();
        lemma_selected_front(dl, q, after);
        assert(dl[0] == rows[0]);
        assert(dl.drop_first() =~= df.drop_last());
        assert(df.last() == rows.last());
        assert(selected(rows, q, after) =~= head + selected(df, q, after));
    }
}

/// Selections agree when the two predicates agree on every row.
proof fn lemma_selected_agree(
    rows: Seq<Cell>,
    q: GetCellsQuery,
    a1: Option<CellCursor>,
    a2: Option<CellCursor>,
)
    requires
        forall|i: int| 0 <= i < rows.len() ==> wanted(q, a1, #[trigger] rows[i]) == wanted(q, a2, rows[i]),
    ensures
        selected(rows, q, a1) == selected(rows, q, a2),
    decreases rows.len(),
{
    if rows.len() > 0 {
        let dl = rows.drop_last();
        assert forall|i: int| 0 <= i < dl.len() implies wanted(q, a1, #[trigger] dl[i]) == wanted(q, a2, dl[i]) by {
            assert(dl[i] == rows[i]);
        }
        lemma_selected_agree(dl, q, a1, a2);
        assert(rows[rows.len() - 1] == rows.last());
    }
}

proof fn lemma_sorted_drop_first(rows: Seq<Cell>)
    requires
        sorted_keys(rows),
        rows.len() > 0,
    ensures
        sorted_keys(rows.drop_first()),
        forall|j: int| 0 <= j < rows.drop_first().len() ==> key_lt(rows[0].key(), #[trigger] rows.drop_first()[j].key()),
{
    let t = rows.drop_first();
    assert forall|i: int, j: int| 0 <= i < j < t.len() implies key_lt(#[trigger] t[i].key(), #[trigger] t[j].key()) by {
        assert(t[i] == rows[i + 1] && t[j] == rows[j + 1]);
    }
    assert forall|j: int| 0 <= j < t.len() implies key_lt(rows[0].key(), #[trigger] t[j].key()) by {
        assert(t[j] == rows[j + 1]);
    }
}

/// The page after a full page starts right after that page's last row: the
/// rows beyond its key are the ones that follow it in the selection.
pub proof fn lemma_next_page(rows: Seq<Cell>, q: GetCellsQuery, after: Option<CellCursor>, size: nat)
    requires
        sorted_keys(rows),
        size >= 1,
        selected(rows, q, after).len() > size,
    ensures
        selected(rows, q, Some(selected(rows, q, after)[size - 1].key())) == selected(
            rows,
            q,
            after,
        ).skip(size as int),
    decreases rows.len(),
{
    let x = rows[0];
    let rest = rows.drop_first();
    let a = selected(rows, q, after);
    let ar = selected(rest, q, after);
    let k = a[size - 1].key();
    lemma_selected_front(rows, q, after);
    lemma_selected_front(rows, q, Some(k));
    lemma_sorted_drop_first(rows);
    lemma_selected_members(rest, q, after);
    if wanted(q, after, x) {
        assert(a == seq![x] + ar);
        if size == 1 {
            assert(a[0] == x);
            assert(!beyond(Some(k), x));
            assert forall|i: int| 0 <= i < rest.len() implies wanted(q, Some(k), #[trigger] rest[i])
                == wanted(q, after, rest[i]) by {
                assert(key_lt(x.key(), rest[i].key()));
                if let Some(a0) = after {
                    lemma_key_order(a0, x.key(), rest[i].key());
                }
            }
            lemma_selected_agree(rest, q, Some(k), after);
            assert(a.skip(1) =~= ar);
        } else {
            assert(a[size - 1] == ar[size - 2]);
            lemma_next_page(rest, q, after, (size - 1) as nat);
            let m = choose|m: int| 0 <= m < rest.len() && rest[m] == ar[size - 2];
            assert(key_lt(x.key(), rest[m].key()));
            lemma_key_order(x.key(), k, x.key());
            assert(!beyond(Some(k), x));
            assert(a.skip(size as int) =~= ar.skip(size - 1));
        }
    } else {
        assert(a =~= ar);
        lemma_next_page(rest, q, after, size);
        let m = choose|m: int| 0 <= m < rest.len() && rest[m] == ar[size - 1];
        assert(key_lt(x.key(), rest[m].key()));
        lemma_key_order(x.key(), k, x.key());
        assert(!beyond(Some(k), x));
    }
}

/// The rows a client collects by walking pages of `size`: the page beyond
/// `after`, then, while more follow, the pages beyond the key of the previous
/// page's last row (the key its cursor encodes).
pub open spec fn page_walk(rows: Seq<Cell>, q: GetCellsQuery, after: Option<CellCursor>, size: nat) -> Seq<Cell>
    decreases selected(rows, q, after).len(),
    via page_walk_decreases
{
    let a = selected(rows, q, after);
    if sorted_keys(rows) && size >= 1 && a.len() > size {
        a.take(size as int) + page_walk(rows, q, Some(a[size - 1].key()), size)
    } else {
        first_n(a, size)
    }
}

#[via_fn]
proof fn page_walk_decreases(rows: Seq<Cell>, q: GetCellsQuery, after: Option<CellCursor>, size: nat) {
    let a = selected(rows, q, after);
    if sorted_keys(rows) && size >= 1 && a.len() > size {
        lemma_next_page(rows, q, after, size);
    }
}

proof fn lemma_walk_from(rows: Seq<Cell>, q: GetCellsQuery, after: Option<CellCursor>, size: nat)
    requires
        sorted_keys(rows),
        size >= 1,
    ensures
        page_walk(rows, q, after, size) == selected(rows, q, after),
    decreases selected(rows, q, after).len(),
{
    let a = selected(rows, q, after);
    if a.len() > size {
        lemma_next_page(rows, q, after, size);
        lemma_walk_from(rows, q, Some(a[size - 1].key()), size);
        assert(a.take(size as int) + a.skip(size as int) =~= a);
    }
}

/// Pagination is complete: for any page size from 1 to 1000, walking the
/// pages from no cursor until none follows yields exactly the rows that pass
/// the filters, each once, in strictly ascending key order.
pub proof fn lemma_pagination_complete(rows: Seq<Cell>, q: GetCellsQuery, size: nat)
    requires
        sorted_keys(rows),
        1 <= size <= 1000,
    ensures
        page_walk(rows, q, None, size) == selected(rows, q, None),
        sorted_keys(page_walk(rows, q, None, size)),
        forall|c: Cell|
            page_walk(rows, q, None, size).contains(c) <==> rows.contains(c) && passes_filters(q, c),
{
    lemma_walk_from(rows, q, None, size);
    lemma_selected_members(rows, q, None);
    let s = selected(rows, q, None);
    assert forall|c: Cell| s.contains(c) implies rows.contains(c) && passes_filters(q, c) by {
        let n = choose|n: int| 0 <= n < s.len() && s[n] == c;
        assert(rows.contains(s[n]));
    }
}

/// A page answered by `query_cells` is one step of the walk: its rows are the
/// next `size` selected rows, and when more follow its cursor encodes the key
/// from which the walk continues.
pub proof fn lemma_page_is_walk_step(
    r: GetCellsResponse,
    rows: Seq<Cell>,
    q: GetCellsQuery,
    after: Option<CellCursor>,
)
    requires
        page_of(r, page_fetch(rows, q, after), page_size_spec(q.limit)),
        page_size_spec(q.limit) >= 1,
    ensures
        r.cells@ == first_n(selected(rows, q, after), page_size_spec(q.limit)),
        r.has_more == (selected(rows, q, after).len() > page_size_spec(q.limit)),
        r.has_more ==> (r.next_cursor matches Some(s) && s@ == b64url_encode(
            cursor_raw(selected(rows, q, after)[page_size_spec(q.limit) - 1].key()),
        )),
        !r.has_more ==> r.next_cursor is None,
{
    let a = selected(rows, q, after);
    let size = page_size_spec(q.limit);
    let f = first_n(a, size + 1);
    if a.len() > size + 1 {
        assert(f.take(size as int) =~= a.take(size as int));
        assert(f[size - 1] == a[size - 1]);
    }
}

} // verus!
