use cell_service::cell::{Cell, CellCursor, Coord};
use cell_service::query::{
    finish_page, page_size, plan_listing, query_cell, query_cells, Constraint, GetCellQuery,
    GetCellsQuery,
};
use cell_service::radio::Radio;
use cell_service::store::CellStore;

const CREATED_2024_01_15_103000: i64 = 1705314600;
const UPDATED_2025_12_20_140000: i64 = 1766239200;

fn coord(v: f32) -> Coord {
    Coord { bits: v.to_bits() }
}

fn sample_cell(mcc: u16, net: u16, area: u32, cell: u64, radio: Radio) -> Cell {
    sample_cell_with_location(mcc, net, area, cell, radio, 52.52, 13.405)
}

fn sample_cell_with_location(
    mcc: u16,
    net: u16,
    area: u32,
    cell: u64,
    radio: Radio,
    lat: f32,
    lon: f32,
) -> Cell {
    Cell {
        radio,
        mcc,
        net,
        area,
        cell,
        unit: Some(1),
        lon: coord(lon),
        lat: coord(lat),
        cell_range: 1000,
        samples: 50,
        changeable: true,
        created: CREATED_2024_01_15_103000,
        updated: UPDATED_2025_12_20_140000,
        average_signal: Some(-85),
    }
}

fn no_filters(limit: Option<u32>, cursor: Option<String>) -> GetCellsQuery {
    GetCellsQuery {
        mcc: None,
        mnc: None,
        min_lat: None,
        max_lat: None,
        min_lon: None,
        max_lon: None,
        radio: None,
        cursor,
        limit,
    }
}

fn store_of(cells: Vec<Cell>) -> CellStore {
    let mut store = CellStore::new();
    for c in cells {
        store.upsert(c);
    }
    store
}

#[test]
fn test_query_cell_returns_matching_cell() {
    let store = store_of(vec![sample_cell(262, 1, 12345, 67890, Radio::Lte)]);
    let query = GetCellQuery { mcc: 262, net: 1, area: 12345, cell: 67890, radio: None };
    let result = query_cell(&query, &store);

    assert!(result.is_some());
    let cell = result.unwrap();
    assert_eq!(cell.mcc, 262);
    assert_eq!(cell.cell, 67890);
    assert!(matches!(cell.radio, Radio::Lte));
}

#[test]
fn test_query_cell_returns_none_when_not_found() {
    let store = CellStore::new();
    let query = GetCellQuery { mcc: 999, net: 999, area: 999, cell: 999, radio: None };
    assert!(query_cell(&query, &store).is_none());
}

#[test]
fn test_query_cell_filters_by_radio_type() {
    let store = store_of(vec![
        sample_cell(262, 1, 100, 200, Radio::Lte),
        sample_cell(262, 1, 100, 201, Radio::Gsm),
    ]);

    let query = GetCellQuery { mcc: 262, net: 1, area: 100, cell: 200, radio: Some(Radio::Lte) };
    let result = query_cell(&query, &store);
    assert!(result.is_some());
    assert!(matches!(result.unwrap().radio, Radio::Lte));

    let query_gsm = GetCellQuery { mcc: 262, net: 1, area: 100, cell: 200, radio: Some(Radio::Gsm) };
    assert!(query_cell(&query_gsm, &store).is_none());
}

#[test]
fn test_query_cell_matches_all_filter_fields() {
    let store = store_of(vec![sample_cell(310, 410, 5000, 6000, Radio::Umts)]);

    let q = |mcc, net, area, cell| GetCellQuery { mcc, net, area, cell, radio: None };
    assert!(query_cell(&q(999, 410, 5000, 6000), &store).is_none());
    assert!(query_cell(&q(310, 999, 5000, 6000), &store).is_none());
    assert!(query_cell(&q(310, 410, 9999, 6000), &store).is_none());
    assert!(query_cell(&q(310, 410, 5000, 9999), &store).is_none());
    assert!(query_cell(&q(310, 410, 5000, 6000), &store).is_some());
}

#[test]
fn exact_lookup_without_radio_takes_the_first_radio_in_key_order() {
    let store = store_of(vec![
        sample_cell(262, 1, 100, 200, Radio::Nr),
        sample_cell(262, 1, 100, 200, Radio::Umts),
        sample_cell(262, 1, 100, 200, Radio::Lte),
    ]);
    let any = GetCellQuery { mcc: 262, net: 1, area: 100, cell: 200, radio: None };
    assert_eq!(query_cell(&any, &store).unwrap().radio, Radio::Umts);
    assert_eq!(query_cell(&any, &store).unwrap().radio, Radio::Umts);
    let nr = GetCellQuery { radio: Some(Radio::Nr), ..any };
    assert_eq!(query_cell(&nr, &store).unwrap().radio, Radio::Nr);
    let lte = GetCellQuery { radio: Some(Radio::Lte), ..any };
    assert_eq!(query_cell(&lte, &store).unwrap().radio, Radio::Lte);
}

#[test]
fn test_query_cells_returns_all_cells_when_no_filters() {
    let store = store_of((1..=5).map(|i| sample_cell_with_location(262, 1, 100, i, Radio::Lte, 52.0, 13.0)).collect());

    let result = query_cells(&no_filters(None, None), &store);

    assert_eq!(result.cells.len(), 5);
    assert!(!result.has_more);
    assert!(result.next_cursor.is_none());
}

#[test]
fn test_query_cells_filters_by_mcc() {
    let store = store_of(vec![
        sample_cell_with_location(262, 1, 100, 1, Radio::Lte, 52.0, 13.0),
        sample_cell_with_location(310, 1, 100, 2, Radio::Lte, 52.0, 13.0),
    ]);
    let query = GetCellsQuery { mcc: Some(262), ..no_filters(None, None) };

    let result = query_cells(&query, &store);

    assert_eq!(result.cells.len(), 1);
    assert_eq!(result.cells[0].mcc, 262);
}

#[test]
fn test_query_cells_filters_by_mnc() {
    let store = store_of(vec![
        sample_cell_with_location(262, 1, 100, 1, Radio::Lte, 52.0, 13.0),
        sample_cell_with_location(262, 2, 100, 2, Radio::Lte, 52.0, 13.0),
    ]);
    let query = GetCellsQuery { mnc: Some(2), ..no_filters(None, None) };

    let result = query_cells(&query, &store);

    assert_eq!(result.cells.len(), 1);
    assert_eq!(result.cells[0].net, 2);
}

#[test]
fn test_query_cells_filters_by_geofence() {
    let store = store_of(vec![
        sample_cell_with_location(262, 1, 100, 1, Radio::Lte, 52.52, 13.405),
        sample_cell_with_location(262, 1, 100, 2, Radio::Lte, 48.137, 11.576),
        sample_cell_with_location(262, 1, 100, 3, Radio::Lte, 53.551, 9.993),
    ]);
    let query = GetCellsQuery {
        min_lat: Some(coord(52.0)),
        max_lat: Some(coord(53.0)),
        min_lon: Some(coord(13.0)),
        max_lon: Some(coord(14.0)),
        ..no_filters(None, None)
    };

    let result = query_cells(&query, &store);

    assert_eq!(result.cells.len(), 1);
    assert_eq!(result.cells[0].cell, 1);
}

#[test]
fn test_query_cells_pagination_with_limit() {
    let store = store_of((1..=10).map(|i| sample_cell_with_location(262, 1, 100, i, Radio::Lte, 52.0, 13.0)).collect());

    let result = query_cells(&no_filters(Some(5), None), &store);

    assert_eq!(result.cells.len(), 5);
    assert!(result.has_more);
    assert!(result.next_cursor.is_some());
}

#[test]
fn test_query_cells_cursor_pagination() {
    let store = store_of((1..=10).map(|i| sample_cell_with_location(262, 1, 100, i, Radio::Lte, 52.0, 13.0)).collect());

    let result1 = query_cells(&no_filters(Some(5), None), &store);
    assert_eq!(result1.cells.len(), 5);
    assert!(result1.has_more);

    let result2 = query_cells(&no_filters(Some(5), result1.next_cursor.clone()), &store);
    assert_eq!(result2.cells.len(), 5);
    assert!(!result2.has_more);
    assert!(result2.next_cursor.is_none());

    let page1_ids: Vec<u64> = result1.cells.iter().map(|c| c.cell).collect();
    let page2_ids: Vec<u64> = result2.cells.iter().map(|c| c.cell).collect();
    for id in &page2_ids {
        assert!(!page1_ids.contains(id));
    }
}

#[test]
fn test_query_cells_filters_by_radio() {
    let store = store_of(vec![
        sample_cell_with_location(262, 1, 100, 1, Radio::Lte, 52.0, 13.0),
        sample_cell_with_location(262, 1, 100, 2, Radio::Gsm, 52.0, 13.0),
    ]);
    let query = GetCellsQuery { radio: Some(Radio::Gsm), ..no_filters(None, None) };

    let result = query_cells(&query, &store);

    assert_eq!(result.cells.len(), 1);
    assert!(matches!(result.cells[0].radio, Radio::Gsm));
}

#[test]
fn test_query_cells_combined_filters() {
    let store = store_of(vec![
        sample_cell_with_location(262, 1, 100, 1, Radio::Lte, 52.52, 13.405),
        sample_cell_with_location(262, 2, 100, 2, Radio::Lte, 52.52, 13.405),
        sample_cell_with_location(310, 1, 100, 3, Radio::Lte, 52.52, 13.405),
        sample_cell_with_location(262, 1, 100, 4, Radio::Lte, 48.137, 11.576),
        sample_cell_with_location(262, 1, 100, 5, Radio::Gsm, 52.52, 13.405),
    ]);
    let query = GetCellsQuery {
        mcc: Some(262),
        mnc: Some(1),
        min_lat: Some(coord(52.0)),
        max_lat: Some(coord(53.0)),
        min_lon: Some(coord(13.0)),
        max_lon: Some(coord(14.0)),
        radio: Some(Radio::Lte),
        cursor: None,
        limit: None,
    };

    let result = query_cells(&query, &store);

    assert_eq!(result.cells.len(), 1);
    assert_eq!(result.cells[0].cell, 1);
}

#[test]
fn test_query_cells_respects_max_limit() {
    let store = store_of((1..=1005).map(|i| sample_cell_with_location(262, 1, 100, i, Radio::Lte, 52.0, 13.0)).collect());

    let result = query_cells(&no_filters(Some(2000), None), &store);

    assert_eq!(result.cells.len(), 1000);
    assert!(result.has_more);
}

#[test]
fn test_query_cells_empty_result() {
    let store = CellStore::new();
    let query = GetCellsQuery { mcc: Some(999), ..no_filters(None, None) };

    let result = query_cells(&query, &store);

    assert!(result.cells.is_empty());
    assert!(!result.has_more);
    assert!(result.next_cursor.is_none());
}

#[test]
fn absent_limit_gives_pages_of_one_hundred() {
    assert_eq!(page_size(None), 100);
    assert_eq!(page_size(Some(2000)), 1000);
    assert_eq!(page_size(Some(1000)), 1000);
    assert_eq!(page_size(Some(7)), 7);
    let store = store_of((1..=150).map(|i| sample_cell(262, 1, 100, i, Radio::Lte)).collect());
    let result = query_cells(&no_filters(None, None), &store);
    assert_eq!(result.cells.len(), 100);
    assert!(result.has_more);
    let last = CellCursor::from_cell(&result.cells[99]);
    assert_eq!(result.next_cursor, Some(last.encode()));
}

#[test]
fn walking_pages_yields_every_row_once_in_key_order() {
    let radios = [Radio::Nr, Radio::Gsm, Radio::Lte, Radio::Cdma, Radio::Umts];
    let mut cells = Vec::new();
    for (n, radio) in radios.iter().enumerate() {
        for i in 0..7u64 {
            cells.push(sample_cell(262 + (i % 2) as u16, 1, 100 + n as u32, 1000 - i, *radio));
        }
    }
    let store = store_of(cells);
    let total = store.len();
    for limit in [1u32, 2, 3, 7, 34, 35, 36, 1000] {
        let mut seen: Vec<CellCursor> = Vec::new();
        let mut cursor = None;
        loop {
            let page = query_cells(&no_filters(Some(limit), cursor.clone()), &store);
            seen.extend(page.cells.iter().map(CellCursor::from_cell));
            if !page.has_more {
                assert!(page.next_cursor.is_none());
                break;
            }
            cursor = page.next_cursor;
        }
        assert_eq!(seen.len(), total);
        for w in seen.windows(2) {
            let a = (w[0].radio.order_index(), w[0].mcc, w[0].net, w[0].area, w[0].cell);
            let b = (w[1].radio.order_index(), w[1].mcc, w[1].net, w[1].area, w[1].cell);
            assert!(a < b);
        }
    }
}

#[test]
fn an_invalid_cursor_counts_as_none() {
    let store = store_of((1..=3).map(|i| sample_cell(262, 1, 100, i, Radio::Lte)).collect());
    let result = query_cells(&no_filters(None, Some(String::from("not a cursor!"))), &store);
    assert_eq!(result.cells.len(), 3);
}

#[test]
fn a_cursor_skips_to_rows_strictly_after_its_key() {
    let store = store_of(vec![
        sample_cell(262, 1, 100, 5, Radio::Gsm),
        sample_cell(262, 1, 100, 6, Radio::Gsm),
        sample_cell(1, 1, 1, 1, Radio::Umts),
    ]);
    let after = CellCursor { radio: Radio::Gsm, mcc: 262, net: 1, area: 100, cell: 5 }.encode();
    let result = query_cells(&no_filters(None, Some(after)), &store);
    let ids: Vec<(Radio, u64)> = result.cells.iter().map(|c| (c.radio, c.cell)).collect();
    assert_eq!(ids, vec![(Radio::Gsm, 6), (Radio::Umts, 1)]);
}

#[test]
fn negative_coordinates_compare_as_floats() {
    let store = store_of(vec![
        sample_cell_with_location(1, 1, 1, 1, Radio::Lte, -33.9, -70.6),
        sample_cell_with_location(1, 1, 1, 2, Radio::Lte, -12.0, -77.0),
        sample_cell_with_location(1, 1, 1, 3, Radio::Lte, 0.0, 0.0),
    ]);
    let query = GetCellsQuery {
        min_lat: Some(coord(-40.0)),
        max_lat: Some(coord(-0.0)),
        min_lon: Some(coord(-71.0)),
        ..no_filters(None, None)
    };
    let ids: Vec<u64> = query_cells(&query, &store).cells.iter().map(|c| c.cell).collect();
    assert_eq!(ids, vec![1, 3]);
    let nan = GetCellsQuery { min_lat: Some(coord(f32::NAN)), ..no_filters(None, None) };
    assert!(query_cells(&nan, &store).cells.is_empty());
}

#[test]
fn a_zero_limit_gives_an_empty_page() {
    let store = store_of(vec![sample_cell(1, 1, 1, 1, Radio::Lte)]);
    let result = query_cells(&no_filters(Some(0), None), &store);
    assert!(result.cells.is_empty());
    assert!(result.has_more);
    assert!(result.next_cursor.is_none());
}

#[test]
fn upsert_replaces_the_row_with_the_same_key() {
    let mut store = store_of(vec![sample_cell(1, 1, 1, 1, Radio::Lte), sample_cell(1, 1, 1, 2, Radio::Lte)]);
    let mut newer = sample_cell(1, 1, 1, 1, Radio::Lte);
    newer.samples = 99;
    newer.unit = None;
    store.upsert(newer);
    assert_eq!(store.len(), 2);
    assert_eq!(store.rows()[0], newer);
}

#[test]
fn finishing_a_store_page_drops_the_extra_row() {
    let rows: Vec<Cell> = (1..=3).map(|i| sample_cell(1, 1, 1, i, Radio::Lte)).collect();
    let page = finish_page(rows.clone(), 2);
    assert_eq!(page.cells, rows[..2].to_vec());
    assert!(page.has_more);
    assert_eq!(page.next_cursor, Some(CellCursor::from_cell(&rows[1]).encode()));
    let page = finish_page(rows.clone(), 3);
    assert_eq!(page.cells.len(), 3);
    assert!(!page.has_more);
    assert!(page.next_cursor.is_none());
}

#[test]
fn a_listing_plan_names_each_present_filter_and_the_cursor() {
    let after = CellCursor { radio: Radio::Gsm, mcc: 262, net: 1, area: 100, cell: 5 };
    let query = GetCellsQuery {
        mcc: Some(262),
        min_lat: Some(coord(52.0)),
        radio: Some(Radio::Lte),
        ..no_filters(Some(5000), Some(after.encode()))
    };
    let plan = plan_listing(&query);
    assert_eq!(plan.page_size, 1000);
    assert_eq!(plan.fetch_limit, 1001);
    assert_eq!(
        plan.constraints,
        vec![
            Constraint::MccEquals(262),
            Constraint::RadioEquals(Radio::Lte),
            Constraint::LatAtLeast(coord(52.0)),
            Constraint::KeyAfter(after),
        ]
    );
    let plain = plan_listing(&no_filters(None, Some(String::from("!!"))));
    assert!(plain.constraints.is_empty());
    assert_eq!(plain.fetch_limit, 101);
}
