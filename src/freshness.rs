//! When each kind of update last succeeded. A kind without a record has never
//! been updated, which reads as the epoch.
use vstd::prelude::*;

use crate::radio::LastUpdatesType;
use crate::schedule::UtcDateTime;

verus! {

/// One record of the freshness table.
#[derive(Clone, Copy, Debug, PartialEq, Eq, Structural)]
pub struct LastUpdates {
    pub value: UtcDateTime,
    pub update_type: LastUpdatesType,
}

/// 1970-01-01T00:00:00Z.
pub open spec fn epoch_spec() -> UtcDateTime {
    UtcDateTime { year: 1970, month: 1, day: 1, hour: 0, minute: 0, second: 0 }
}

/// The latest of the records' times, or the epoch when there is none.
pub open spec fn latest_spec(records: Seq<LastUpdates>) -> UtcDateTime
    decreases records.len(),
{
    if records.len() == 0 {
        epoch_spec()
    } else {
        let rest = latest_spec(records.drop_last());
        let last = records.last().value;
        if records.len() == 1 || last.later_than(rest) {
            last
        } else {
            rest
        }
    }
}

/// The time of the most recent successful update of any kind, or the epoch
/// when none is recorded.
pub fn latest_update(records: &[LastUpdates]) -> (r: UtcDateTime)
    requires
        forall|i: int| 0 <= i < records@.len() ==> (#[trigger] records@[i]).value.wf(),
    ensures
        r == latest_spec(records@),
        r.wf(),
{
    if records.len() == 0 {
        let e = UtcDateTime::epoch();
        assert(e == epoch_spec());
        return e;
    }
    let mut best = records[0].value;
    let mut i: usize = 1;
    assert(records@.take(1).drop_last() =~= Seq::<LastUpdates>::empty());
    while i < records.len()
        invariant
            1 <= i <= records@.len(),
            best == latest_spec(records@.take(i as int)),
            best.wf(),
            forall|j: int| 0 <= j < records@.len() ==> (#[trigger] records@[j]).value.wf(),
        decreases records@.len() - i,
    {
        let v = records[i].value;
        assert(records@.take(i + 1).drop_last() =~= records@.take(i as int));
        if v.is_later_than(&best) {
            best = v;
        }
        i = i + 1;
    }
    assert(records@.take(records@.len() as int) =~= records@);
    best
}

/// The freshness table: at most one record per update kind.
pub struct FreshnessStore {
    full: Option<UtcDateTime>,
    diff: Option<UtcDateTime>,
}

impl FreshnessStore {
    /// When `kind` last succeeded, if ever.
    pub closed spec fn last_of(&self, kind: LastUpdatesType) -> Option<UtcDateTime> {
        match kind {
            LastUpdatesType::Full => self.full,
            LastUpdatesType::Diff => self.diff,
        }
    }

    pub open spec fn wf(&self) -> bool {
        &&& (self.last_of(LastUpdatesType::Full) matches Some(t) ==> t.wf())
        &&& (self.last_of(LastUpdatesType::Diff) matches Some(t) ==> t.wf())
    }

    pub fn new() -> (r: FreshnessStore)
        ensures
            r.wf(),
            r.last_of(LastUpdatesType::Full) is None,
            r.last_of(LastUpdatesType::Diff) is None,
    {
        FreshnessStore { full: None, diff: None }
    }

    /// Records a success of `kind` at `date`, replacing that kind's record.
    pub fn set_last_update(&mut self, kind: LastUpdatesType, date: UtcDateTime)
        requires
            old(self).wf(),
            date.wf(),
        ensures
            final(self).wf(),
            final(self).last_of(kind) == Some(date),
            forall|k: LastUpdatesType| k != kind ==> final(self).last_of(k) == old(self).last_of(k),
    {
        match kind {
            LastUpdatesType::Full => self.full = Some(date),
            LastUpdatesType::Diff => self.diff = Some(date),
        }
    }

    /// When `kind` last succeeded, if ever.
    pub fn get(&self, kind: LastUpdatesType) -> (r: Option<UtcDateTime>)
        ensures
            r == self.last_of(kind),
    {
        match kind {
            LastUpdatesType::Full => self.full,
            LastUpdatesType::Diff => self.diff,
        }
    }

    /// The records, the full one first.
    pub fn records(&self) -> (r: Vec<LastUpdates>)
        requires
            self.wf(),
        ensures
            forall|i: int| 0 <= i < r@.len() ==> (#[trigger] r@[i]).value.wf() && self.last_of(
                r@[i].update_type,
            ) == Some(r@[i].value),
            forall|k: LastUpdatesType|
                #[trigger] self.last_of(k) is Some ==> exists|i: int|
                    0 <= i < r@.len() && r@[i].update_type == k,
            r@.len() <= 2,
    {
        let mut out: Vec<LastUpdates> = Vec::new();
        if let Some(t) = self.full {
            out.push(LastUpdates { value: t, update_type: LastUpdatesType::Full });
        }
        let ghost first = out@;
        if let Some(t) = self.diff {
            out.push(LastUpdates { value: t, update_type: LastUpdatesType::Diff });
        }
        proof {
            assert forall|k: LastUpdatesType| #[trigger] self.last_of(k) is Some implies exists|i: int|
                0 <= i < out@.len() && out@[i].update_type == k by {
                match k {
                    LastUpdatesType::Full => {
                        assert(out@[0].update_type == k);
                    },
                    LastUpdatesType::Diff => {
                        assert(out@[first.len() as int].update_type == k);
                    },
                }
            }
        }
        out
    }

    /// The time of the most recent success of either kind; the epoch when
    /// nothing was ever recorded.
    pub fn get_last_update(&self) -> (r: UtcDateTime)
        requires
            self.wf(),
        ensures
            r.wf(),
            self.last_of(LastUpdatesType::Full) is None && self.last_of(LastUpdatesType::Diff) is None
                ==> r == epoch_spec(),
            self.last_of(LastUpdatesType::Full) is Some || self.last_of(LastUpdatesType::Diff) is Some
                ==> self.last_of(LastUpdatesType::Full) == Some(r) || self.last_of(LastUpdatesType::Diff)
                == Some(r),
            forall|k: LastUpdatesType|
                #[trigger] self.last_of(k) matches Some(t) ==> !t.later_than(r),
    {
        let records = self.records();
        let r = latest_update(records.as_slice());
        proof {
            lemma_latest(records@);
            assert forall|k: LastUpdatesType| #[trigger] self.last_of(k) is Some implies !self.last_of(
                k,
            ).unwrap().later_than(r) by {
                if let Some(t) = self.last_of(k) {
                    let i = choose|i: int| 0 <= i < records@.len() && records@[i].update_type == k;
                    assert(self.last_of(records@[i].update_type) == Some(records@[i].value));
                }
            }
            if records@.len() > 0 {
                let i = choose|i: int| 0 <= i < records@.len() && (#[trigger] records@[i]).value == r;
                assert(self.last_of(records@[i].update_type) == Some(records@[i].value));
            } else {
                if self.last_of(LastUpdatesType::Full) is Some {
                    let i = choose|i: int| 0 <= i < records@.len() && records@[i].update_type == LastUpdatesType::Full;
                }
                if self.last_of(LastUpdatesType::Diff) is Some {
                    let i = choose|i: int| 0 <= i < records@.len() && records@[i].update_type == LastUpdatesType::Diff;
                }
            }
        }
        r
    }
}

/// The latest record is one of them (or the epoch when there is none) and no
/// record is later.
pub proof fn lemma_latest(records: Seq<LastUpdates>)
    ensures
        records.len() == 0 ==> latest_spec(records) == epoch_spec(),
        records.len() > 0 ==> exists|i: int|
            0 <= i < records.len() && (#[trigger] records[i]).value == latest_spec(records),
        forall|i: int|
            0 <= i < records.len() ==> !(#[trigger] records[i]).value.later_than(latest_spec(records)),
    decreases records.len(),
{
    if records.len() > 0 {
        let prev = records.drop_last();
        lemma_latest(prev);
        assert forall|i: int| 0 <= i < records.len() implies !(#[trigger] records[i]).value.later_than(
            latest_spec(records),
        ) by {
            if i < records.len() - 1 {
                assert(records[i] == prev[i]);
            }
        }
        if records.len() > 1 && !records.last().value.later_than(latest_spec(prev)) {
            let i = choose|i: int| 0 <= i < prev.len() && (#[trigger] prev[i]).value == latest_spec(prev);
            assert(records[i] == prev[i]);
        } else {
            assert(records[records.len() - 1] == records.last());
        }
    }
}

/// After recording a success of `kind` at `date`, when the other kind's record
/// (if any) is no later, the last update read back is `date`.
pub proof fn lemma_set_then_latest(s: FreshnessStore, kind: LastUpdatesType, date: UtcDateTime, r: UtcDateTime)
    requires
        s.last_of(kind) == Some(date),
        forall|k: LastUpdatesType| k != kind ==> (#[trigger] s.last_of(k) matches Some(t) ==> !t.later_than(date)),
        s.last_of(LastUpdatesType::Full) == Some(r) || s.last_of(LastUpdatesType::Diff) == Some(r),
        forall|k: LastUpdatesType| #[trigger] s.last_of(k) matches Some(t) ==> !t.later_than(r),
    ensures
        r == date,
{
    assert(!date.later_than(r));
    if s.last_of(kind) != Some(r) {
        let other = if kind == LastUpdatesType::Full { LastUpdatesType::Diff } else { LastUpdatesType::Full };
        assert(s.last_of(other) == Some(r));
        assert(!r.later_than(date));
    }
}

} // verus!
