use cell_service::ingest::{after_step, loop_tick, response_handling, CycleAction, CycleStep, ResponseHandling, TickAction};
use cell_service::radio::LastUpdatesType;

#[test]
fn responses_are_handled_by_content_type() {
    assert_eq!(response_handling(Some("application/gzip"), 200), ResponseHandling::Decompress);
    assert_eq!(response_handling(Some("application/json"), 403), ResponseHandling::ReadErrorMessage);
    assert_eq!(response_handling(Some("text/html"), 200), ResponseHandling::Unexpected { status: 200 });
    assert_eq!(response_handling(Some("application/gzip"), 500), ResponseHandling::Unexpected { status: 500 });
    assert_eq!(response_handling(None, 204), ResponseHandling::Unexpected { status: 204 });
}

#[test]
fn a_cycle_downloads_loads_then_records() {
    for kind in [LastUpdatesType::Full, LastUpdatesType::Diff] {
        assert_eq!(after_step(kind, CycleStep::Download, true), CycleAction::Run(CycleStep::Load));
        assert_eq!(after_step(kind, CycleStep::Load, true), CycleAction::Run(CycleStep::RecordFreshness));
        assert_eq!(after_step(kind, CycleStep::RecordFreshness, true), CycleAction::Finish);
        assert_eq!(after_step(kind, CycleStep::Load, false), CycleAction::Abort);
        assert_eq!(after_step(kind, CycleStep::RecordFreshness, false), CycleAction::Abort);
    }
    assert_eq!(after_step(LastUpdatesType::Full, CycleStep::Download, false), CycleAction::Finish);
    assert_eq!(after_step(LastUpdatesType::Diff, CycleStep::Download, false), CycleAction::Abort);
}

#[test]
fn the_loop_checks_every_six_hundred_ticks() {
    assert_eq!(loop_tick(0, false), (TickAction::CheckThenSleep, 1));
    assert_eq!(loop_tick(1, false), (TickAction::Sleep, 2));
    assert_eq!(loop_tick(599, false), (TickAction::Sleep, 600));
    assert_eq!(loop_tick(600, false), (TickAction::CheckThenSleep, 1));
    assert_eq!(loop_tick(37, true), (TickAction::Stop, 37));
    let mut count = 0;
    let mut checks = 0;
    for _ in 0..1800 {
        let (action, next) = loop_tick(count, false);
        if action == TickAction::CheckThenSleep {
            checks += 1;
        }
        count = next;
    }
    assert_eq!(checks, 3);
}
