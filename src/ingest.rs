//! Decisions of the ingestion side: how a download response is handled, what
//! a step of an update cycle leads to, and when the background loop checks.
use vstd::prelude::*;

use crate::radio::LastUpdatesType;

verus! {

/// How many one-second ticks pass between two freshness checks.
pub const CHECK_INTERVAL_TICKS: u32 = 600;

/// What to do with a download response.
#[derive(Clone, Copy, Debug, PartialEq, Eq, Structural)]
pub enum ResponseHandling {
    /// A gzip stream: decompress it to disk.
    Decompress,
    /// A JSON body: read its message and fail with it.
    ReadErrorMessage,
    /// Anything else: fail with the status.
    Unexpected { status: u16 },
}

pub open spec fn is_success_status(status: u16) -> bool {
    200 <= status < 300
}

pub open spec fn handling_spec(content_type: Seq<char>, status: u16) -> ResponseHandling {
    if content_type == "application/json"@ {
        ResponseHandling::ReadErrorMessage
    } else if content_type == "application/gzip"@ && is_success_status(status) {
        ResponseHandling::Decompress
    } else {
        ResponseHandling::Unexpected { status }
    }
}

/// Relies on `str::eq`: two strings are equal when their characters are.
#[verifier::external_body]
fn str_equal(a: &str, b: &str) -> (r: bool)
    ensures
        r == (a@ == b@),
{
    a == b
}

/// Classifies a download response by its `Content-Type` (absent counts as
/// neither JSON nor gzip) and status.
pub fn response_handling(content_type: Option<&str>, status: u16) -> (r: ResponseHandling)
    ensures
        r == (match content_type {
            Some(t) => handling_spec(t@, status),
            None => ResponseHandling::Unexpected { status },
        }),
{
    match content_type {
        Some(t) => {
            if str_equal(t, "application/json") {
                ResponseHandling::ReadErrorMessage
            } else if str_equal(t, "application/gzip") && 200 <= status && status < 300 {
                ResponseHandling::Decompress
            } else {
                ResponseHandling::Unexpected { status }
            }
        },
        None => ResponseHandling::Unexpected { status },
    }
}

/// The steps of one update cycle.
#[derive(Clone, Copy, Debug, PartialEq, Eq, Structural)]
pub enum CycleStep {
    Download,
    Load,
    RecordFreshness,
}

/// What follows a step of an update cycle.
#[derive(Clone, Copy, Debug, PartialEq, Eq, Structural)]
pub enum CycleAction {
    Run(CycleStep),
    /// The cycle is over; the loop goes on.
    Finish,
    /// The cycle failed; the loop goes on and retries at the next check.
    Abort,
}

pub open spec fn after_step_spec(kind: LastUpdatesType, step: CycleStep, succeeded: bool) -> CycleAction {
    if succeeded {
        match step {
            CycleStep::Download => CycleAction::Run(CycleStep::Load),
            CycleStep::Load => CycleAction::Run(CycleStep::RecordFreshness),
            CycleStep::RecordFreshness => CycleAction::Finish,
        }
    } else if step == CycleStep::Download && kind == LastUpdatesType::Full {
        CycleAction::Finish
    } else {
        CycleAction::Abort
    }
}

/// Download, load, then record the time of success. A failed download of a
/// full snapshot ends the cycle quietly; any other failure aborts it.
pub fn after_step(kind: LastUpdatesType, step: CycleStep, succeeded: bool) -> (r: CycleAction)
    ensures
        r == after_step_spec(kind, step, succeeded),
{
    if succeeded {
        match step {
            CycleStep::Download => CycleAction::Run(CycleStep::Load),
            CycleStep::Load => CycleAction::Run(CycleStep::RecordFreshness),
            CycleStep::RecordFreshness => CycleAction::Finish,
        }
    } else {
        match (step, kind) {
            (CycleStep::Download, LastUpdatesType::Full) => CycleAction::Finish,
            _ => CycleAction::Abort,
        }
    }
}

/// What the background loop does on a tick.
#[derive(Clone, Copy, Debug, PartialEq, Eq, Structural)]
pub enum TickAction {
    /// Halt was requested: leave the loop.
    Stop,
    /// Check freshness and run a cycle if one is due, then sleep a tick.
    CheckThenSleep,
    /// Sleep a tick.
    Sleep,
}

/// One tick of the loop, given the ticks counted since the last check (the
/// loop starts at zero) and whether halt was requested; returns the action
/// and the count for the next tick.
pub fn loop_tick(count: u32, halted: bool) -> (r: (TickAction, u32))
    requires
        count <= CHECK_INTERVAL_TICKS,
    ensures
        halted ==> r == (TickAction::Stop, count),
        !halted && count % CHECK_INTERVAL_TICKS == 0 ==> r == (TickAction::CheckThenSleep, 1u32),
        !halted && count % CHECK_INTERVAL_TICKS != 0 ==> r == (TickAction::Sleep, (count + 1) as u32),
        r.1 <= CHECK_INTERVAL_TICKS,
{
    if halted {
        (TickAction::Stop, count)
    } else if count % CHECK_INTERVAL_TICKS == 0 {
        (TickAction::CheckThenSleep, 1)
    } else {
        (TickAction::Sleep, count + 1)
    }
}

} // verus!
