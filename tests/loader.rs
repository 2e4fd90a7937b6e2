use cell_service::cell::{Cell, Coord};
use cell_service::loader::{parse_csv_row, parse_snapshot, LoadError};
use cell_service::radio::Radio;
use cell_service::store::CellStore;

const HEADER: &str = "radio,mcc,net,area,cell,unit,lon,lat,range,samples,changeable,created,updated,averageSignal";

fn coord(text: &[u8]) -> Coord {
    let v: f32 = std::str::from_utf8(text).unwrap().parse().unwrap();
    Coord { bits: v.to_bits() }
}

#[test]
fn a_line_with_absent_unit_and_signal() {
    let row = parse_csv_row(b"LTE,262,1,12345,67890,-1,13.405,52.52,1000,50,1,1705314600,1766239200,").unwrap();
    assert_eq!(row.radio, Radio::Lte);
    assert_eq!((row.mcc, row.net, row.area, row.cell), (262, 1, 12345, 67890));
    assert_eq!(row.unit, None);
    assert_eq!(row.lon_text, b"13.405".to_vec());
    assert_eq!(row.lat_text, b"52.52".to_vec());
    assert_eq!((row.cell_range, row.samples, row.changeable), (1000, 50, true));
    assert_eq!((row.created, row.updated), (1705314600, 1766239200));
    assert_eq!(row.average_signal, None);
}

#[test]
fn a_line_with_unit_and_signal() {
    let row = parse_csv_row(b"gsm,310,410,5000,6000,42,-70.6,-33.9,500,3,0,0,10,-85").unwrap();
    assert_eq!(row.radio, Radio::Gsm);
    assert_eq!(row.unit, Some(42));
    assert!(!row.changeable);
    assert_eq!(row.average_signal, Some(-85));
    let cell = row.to_cell(coord(&row.lon_text), coord(&row.lat_text));
    assert_eq!(cell.lon, Coord { bits: (-70.6f32).to_bits() });
    assert_eq!(cell.lat, Coord { bits: (-33.9f32).to_bits() });
    assert_eq!(cell.unit, Some(42));
    assert_eq!(cell.updated, 10);
}

#[test]
fn malformed_lines_are_refused() {
    let bad: [&[u8]; 9] = [
        b"LTE,262,1,12345,67890,-1,13.4,52.5,1000,50,1,1705314600,1766239200",
        b"LTE,262,1,12345,67890,-1,13.4,52.5,1000,50,1,1705314600,1766239200,,",
        b"WIFI,262,1,12345,67890,-1,13.4,52.5,1000,50,1,1705314600,1766239200,",
        b"LTE,70000,1,12345,67890,-1,13.4,52.5,1000,50,1,1705314600,1766239200,",
        b"LTE,262,1,12345,67890,-2,13.4,52.5,1000,50,1,1705314600,1766239200,",
        b"LTE,262,1,12345,67890,-1,13.4,52.5,1000,50,2,1705314600,1766239200,",
        b"LTE,262,1,12345,67890,-1,13.4,52.5,1000,50,1,-5,1766239200,",
        b"LTE,262,1,12345,67890,-1,13.4,52.5,1000,50,1,1705314600,1766239200,-32769",
        b"LTE,262,1,12345,67890,-1,13.4,52.5,1000,50,1,1705314600,1766239200,-+5",
    ];
    for line in bad {
        assert!(parse_csv_row(line).is_none());
    }
    let edge = parse_csv_row(b"NR,0,0,0,0,65535,0,0,0,0,0,0,0,-32768").unwrap();
    assert_eq!(edge.unit, Some(65535));
    assert_eq!(edge.average_signal, Some(-32768));
}

#[test]
fn a_snapshot_skips_its_header_and_final_line_feed() {
    let text = format!(
        "{}\nLTE,262,1,1,1,-1,13.4,52.5,1000,50,1,1,2,\nUMTS,262,1,1,2,7,13.4,52.5,1000,51,0,1,2,-90\n",
        HEADER
    );
    let rows = parse_snapshot(text.as_bytes()).unwrap();
    assert_eq!(rows.len(), 2);
    assert_eq!(rows[1].radio, Radio::Umts);
    assert_eq!(rows[1].average_signal, Some(-90));
    assert_eq!(parse_snapshot(HEADER.as_bytes()).unwrap().len(), 0);
}

#[test]
fn a_malformed_snapshot_line_fails_the_whole_load() {
    let text = format!(
        "{}\nLTE,262,1,1,1,-1,13.4,52.5,1000,50,1,1,2,\nLTE,262,1,1,x,-1,13.4,52.5,1000,50,1,1,2,\nLTE,262,1,1,3,-1,13.4,52.5,1000,50,1,1,2,\n",
        HEADER
    );
    assert_eq!(parse_snapshot(text.as_bytes()).unwrap_err(), LoadError { line: 3 });
}

fn cell(cid: u64, samples: u32) -> Cell {
    Cell {
        radio: Radio::Lte,
        mcc: 262,
        net: 1,
        area: 1,
        cell: cid,
        unit: None,
        lon: Coord { bits: 0 },
        lat: Coord { bits: 0 },
        cell_range: 1,
        samples,
        changeable: false,
        created: 0,
        updated: 0,
        average_signal: None,
    }
}

#[test]
fn loading_replaces_rows_by_key_and_the_last_duplicate_wins() {
    let mut store = CellStore::new();
    store.upsert(cell(1, 1));
    store.upsert(cell(2, 2));
    let written = store.load(&vec![cell(2, 20), cell(3, 30), cell(2, 200)]);
    assert_eq!(written, 3);
    assert_eq!(store.rows().clone(), vec![cell(1, 1), cell(2, 200), cell(3, 30)]);
}
