use cell_service::freshness::{latest_update, FreshnessStore, LastUpdates};
use cell_service::radio::LastUpdatesType;
use cell_service::schedule::UtcDateTime;

fn at(day: u32, hour: u32) -> UtcDateTime {
    UtcDateTime::new(2025, 12, day, hour, 0, 0).unwrap()
}

#[test]
fn never_updated_reads_as_the_epoch() {
    let store = FreshnessStore::new();
    assert_eq!(store.get_last_update(), UtcDateTime::epoch());
    assert_eq!(store.get(LastUpdatesType::Full), None);
    assert!(store.records().is_empty());
}

#[test]
fn each_kind_keeps_one_record_and_the_latest_wins() {
    let mut store = FreshnessStore::new();
    store.set_last_update(LastUpdatesType::Full, at(1, 5));
    store.set_last_update(LastUpdatesType::Diff, at(3, 5));
    store.set_last_update(LastUpdatesType::Full, at(2, 5));
    assert_eq!(store.get(LastUpdatesType::Full), Some(at(2, 5)));
    assert_eq!(store.get(LastUpdatesType::Diff), Some(at(3, 5)));
    assert_eq!(store.records().len(), 2);
    assert_eq!(store.get_last_update(), at(3, 5));
    store.set_last_update(LastUpdatesType::Full, at(4, 5));
    assert_eq!(store.get_last_update(), at(4, 5));
}

#[test]
fn latest_of_table_rows() {
    let rows = [
        LastUpdates { value: at(2, 10), update_type: LastUpdatesType::Diff },
        LastUpdates { value: at(5, 4), update_type: LastUpdatesType::Full },
        LastUpdates { value: at(5, 3), update_type: LastUpdatesType::Diff },
    ];
    assert_eq!(latest_update(&rows), at(5, 4));
    assert_eq!(latest_update(&[]), UtcDateTime::epoch());
    let across_years = [
        LastUpdates { value: UtcDateTime::new(2024, 12, 31, 23, 0, 0).unwrap(), update_type: LastUpdatesType::Full },
        LastUpdates { value: UtcDateTime::new(2025, 1, 1, 0, 0, 0).unwrap(), update_type: LastUpdatesType::Diff },
    ];
    assert_eq!(latest_update(&across_years), across_years[1].value);
}

#[test]
fn a_recorded_success_reads_back_when_the_other_kind_is_no_later() {
    let mut store = FreshnessStore::new();
    store.set_last_update(LastUpdatesType::Full, at(3, 5));
    store.set_last_update(LastUpdatesType::Diff, at(3, 5));
    assert_eq!(store.get_last_update(), at(3, 5));
    store.set_last_update(LastUpdatesType::Diff, at(3, 6));
    assert_eq!(store.get_last_update(), at(3, 6));
    let mut early = FreshnessStore::new();
    let before_1970 = UtcDateTime::new(1960, 1, 1, 0, 0, 0).unwrap();
    early.set_last_update(LastUpdatesType::Full, before_1970);
    assert_eq!(early.get_last_update(), before_1970);
}
