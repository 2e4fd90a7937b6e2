//! The record store: tower rows ordered by natural key, one row per key.
use vstd::prelude::*;

use crate::cell::{key_less, key_lt, lemma_key_order, Cell, CellCursor};

verus! {

/// Rows in strictly ascending key order; in particular no two share a key.
pub open spec fn sorted_keys(s: Seq<Cell>) -> bool {
    forall|i: int, j: int| 0 <= i < j < s.len() ==> key_lt(#[trigger] s[i].key(), #[trigger] s[j].key())
}

/// A table of cells keyed by `(radio, mcc, net, area, cell)`.
pub struct CellStore {
    rows: Vec<Cell>,
}

impl View for CellStore {
    type V = Seq<Cell>;

    closed spec fn view(&self) -> Seq<Cell> {
        self.rows@
    }
}

impl CellStore {
    pub open spec fn wf(&self) -> bool {
        sorted_keys(self@)
    }

    pub fn new() -> (r: CellStore)
        ensures
            r.wf(),
            r@ == Seq::<Cell>::empty(),
    {
        CellStore { rows: Vec::new() }
    }

    pub fn len(&self) -> (r: usize)
        ensures
            r == self@.len(),
    {
        self.rows.len()
    }

    /// The rows in key order.
    pub fn rows(&self) -> (r: &Vec<Cell>)
        ensures
            r@ == self@,
    {
        &self.rows
    }

    /// Writes `cell` in full: a row with the same key is replaced, otherwise
    /// the row is added at its place in key order.
    pub fn upsert(&mut self, cell: Cell)
        requires
            old(self).wf(),
        ensures
            final(self).wf(),
            forall|c: Cell|
                #[trigger] final(self)@.contains(c) <==> (c == cell || (old(self)@.contains(c)
                    && c.key() != cell.key())),
    {
        let k = CellCursor::from_cell(&cell);
        let mut i: usize = 0;
        while i < self.rows.len() && key_less(&CellCursor::from_cell(&self.rows[i]), &k)
            invariant
                self.wf(),
                self@ == old(self)@,
                i <= self@.len(),
                forall|j: int| 0 <= j < i ==> key_lt(#[trigger] self@[j].key(), k),
            decreases self@.len() - i,
        {
            i = i + 1;
        }
        let ghost s = self@;
        proof {
            assert forall|j: int| i <= j < s.len() implies !key_lt(#[trigger] s[j].key(), k) by {
                if i < s.len() {
                    lemma_key_order(s[i as int].key(), s[j].key(), k);
                    lemma_key_order(s[j].key(), k, s[i as int].key());
                }
            }
        }
        if i < self.rows.len() && CellCursor::from_cell(&self.rows[i]) == k {
            self.rows[i] = cell;
            proof {
                let t = self@;
                assert(t == s.update(i as int, cell));
                assert forall|a: int, b: int| 0 <= a < b < t.len() implies key_lt(
                    #[trigger] t[a].key(),
                    #[trigger] t[b].key(),
                ) by {
                    assert(key_lt(s[a].key(), s[b].key()));
                }
                assert forall|c: Cell| t.contains(c) <==> (c == cell || (s.contains(c) && c.key()
                    != cell.key())) by {
                    if t.contains(c) {
                        let m = choose|m: int| 0 <= m < t.len() && t[m] == c;
                        if m != i {
                            assert(s[m] == c);
                            lemma_key_order(s[m].key(), s[i as int].key(), k);
                        }
                    }
                    if c != cell && s.contains(c) && c.key() != cell.key() {
                        let m = choose|m: int| 0 <= m < s.len() && s[m] == c;
                        assert(m != i);
                        assert(t[m] == c);
                    }
                    if c == cell {
                        assert(t[i as int] == c);
                    }
                }
            }
        } else {
            self.rows.insert(i, cell);
            proof {
                let t = self@;
                assert(t == s.insert(i as int, cell));
                assert forall|j: int| i <= j < s.len() implies key_lt(k, #[trigger] s[j].key()) by {
                    lemma_key_order(s[i as int].key(), s[j].key(), k);
                    if j > i {
                        assert(key_lt(s[i as int].key(), s[j].key()));
                    }
                }
                assert forall|a: int, b: int| 0 <= a < b < t.len() implies key_lt(
                    #[trigger] t[a].key(),
                    #[trigger] t[b].key(),
                ) by {
                    if b < i {
                        assert(key_lt(s[a].key(), s[b].key()));
                    } else if b == i {
                        assert(key_lt(s[a].key(), k));
                    } else if a == i {
                        assert(key_lt(k, s[b - 1].key()));
                    } else if a < i {
                        assert(key_lt(s[a].key(), s[b - 1].key()));
                    } else {
                        assert(key_lt(s[a - 1].key(), s[b - 1].key()));
                    }
                }
                assert forall|c: Cell| t.contains(c) <==> (c == cell || (s.contains(c) && c.key()
                    != cell.key())) by {
                    if t.contains(c) && c != cell {
                        let m = choose|m: int| 0 <= m < t.len() && t[m] == c;
                        if m < i {
                            assert(s[m] == c);
                        } else {
                            assert(s[m - 1] == c);
                            lemma_key_order(k, s[m - 1].key(), k);
                        }
                    }
                    if c != cell && s.contains(c) && c.key() != cell.key() {
                        let m = choose|m: int| 0 <= m < s.len() && s[m] == c;
                        if m < i {
                            assert(t[m] == c);
                        } else {
                            assert(t[m + 1] == c);
                        }
                    }
                    if c == cell {
                        assert(t[i as int] == c);
                    }
                }
            }
        }
    }
}

} // verus!
