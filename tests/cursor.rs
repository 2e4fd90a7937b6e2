use base64::engine::general_purpose::URL_SAFE_NO_PAD;
use base64::Engine;
use cell_service::cell::{Cell, CellCursor, Coord};
use cell_service::radio::Radio;

fn encode_raw(raw: &[u8]) -> String {
    URL_SAFE_NO_PAD.encode(raw)
}

#[test]
fn test_encode_decode_roundtrip() {
    let cursor = CellCursor { radio: Radio::Lte, mcc: 262, net: 1, area: 12345, cell: 67890 };

    let encoded = cursor.encode();
    let decoded = CellCursor::decode(&encoded).unwrap();

    assert!(matches!(decoded.radio, Radio::Lte));
    assert_eq!(decoded.mcc, 262);
    assert_eq!(decoded.net, 1);
    assert_eq!(decoded.area, 12345);
    assert_eq!(decoded.cell, 67890);
}

#[test]
fn test_decode_invalid_base64() {
    let result = CellCursor::decode("not-valid-base64!!!");
    assert!(result.is_none());
}

#[test]
fn test_decode_invalid_format() {
    let invalid = encode_raw(b"only:two:parts");
    let result = CellCursor::decode(&invalid);
    assert!(result.is_none());
}

#[test]
fn test_decode_invalid_radio() {
    let invalid = encode_raw(b"INVALID:262:1:100:200");
    let result = CellCursor::decode(&invalid);
    assert!(result.is_none());
}

#[test]
fn test_decode_invalid_numbers() {
    let invalid = encode_raw(b"LTE:abc:1:100:200");
    let result = CellCursor::decode(&invalid);
    assert!(result.is_none());
}

#[test]
fn test_all_radio_types() {
    let radio_types = vec![
        (Radio::Gsm, "GSM"),
        (Radio::Umts, "UMTS"),
        (Radio::Cdma, "CDMA"),
        (Radio::Lte, "LTE"),
        (Radio::Nr, "NR"),
    ];

    for (radio, expected_str) in radio_types {
        let cursor = CellCursor { radio, mcc: 1, net: 2, area: 3, cell: 4 };
        let encoded = cursor.encode();
        let decoded = CellCursor::decode(&encoded).unwrap();

        let raw = String::from_utf8(URL_SAFE_NO_PAD.decode(&encoded).unwrap()).unwrap();
        assert!(raw.starts_with(expected_str));

        assert_eq!(decoded.mcc, 1);
    }
}

#[test]
fn test_from_cell() {
    let cell = Cell {
        radio: Radio::Nr,
        mcc: 310,
        net: 410,
        area: 5000,
        cell: 6000,
        unit: Some(1),
        lon: Coord { bits: 13.0f32.to_bits() },
        lat: Coord { bits: 52.0f32.to_bits() },
        cell_range: 500,
        samples: 10,
        changeable: false,
        created: 0,
        updated: 0,
        average_signal: None,
    };

    let cursor = CellCursor::from_cell(&cell);

    assert!(matches!(cursor.radio, Radio::Nr));
    assert_eq!(cursor.mcc, 310);
    assert_eq!(cursor.net, 410);
    assert_eq!(cursor.area, 5000);
    assert_eq!(cursor.cell, 6000);
}

#[test]
fn encode_is_base64url_of_the_colon_frame() {
    let cursor = CellCursor { radio: Radio::Lte, mcc: 262, net: 1, area: 12345, cell: 67890 };
    assert_eq!(cursor.to_raw(), b"LTE:262:1:12345:67890".to_vec());
    assert_eq!(cursor.encode(), encode_raw(b"LTE:262:1:12345:67890"));
    assert_eq!(cursor.encode(), "TFRFOjI2MjoxOjEyMzQ1OjY3ODkw");
}

#[test]
fn round_trip_at_the_largest_values() {
    let cursor = CellCursor {
        radio: Radio::Nr,
        mcc: u16::MAX,
        net: u16::MAX,
        area: u32::MAX,
        cell: u64::MAX,
    };
    let raw = cursor.to_raw();
    assert_eq!(raw, b"NR:65535:65535:4294967295:18446744073709551615".to_vec());
    assert_eq!(CellCursor::decode(&cursor.encode()), Some(cursor));
    let zero = CellCursor { radio: Radio::Gsm, mcc: 0, net: 0, area: 0, cell: 0 };
    assert_eq!(CellCursor::decode(&zero.encode()), Some(zero));
}

#[test]
fn frame_fields_out_of_range_or_malformed_are_invalid() {
    assert_eq!(CellCursor::from_raw(b"LTE:65536:1:2:3"), None);
    assert_eq!(CellCursor::from_raw(b"LTE:1:1:4294967296:3"), None);
    assert_eq!(CellCursor::from_raw(b"LTE:1:1:2:18446744073709551616"), None);
    assert_eq!(CellCursor::from_raw(b"LTE:1:1:2:-3"), None);
    assert_eq!(CellCursor::from_raw(b"LTE:1:1:2:"), None);
    assert_eq!(CellCursor::from_raw(b"LTE:1:1:2:+"), None);
    assert_eq!(CellCursor::from_raw(b"lte:1:1:2:3"), None);
    assert_eq!(CellCursor::from_raw(b"LTE:1:1:2:3:4"), None);
    assert_eq!(CellCursor::from_raw(b""), None);
}

#[test]
fn frame_accepts_what_unsigned_parse_accepts() {
    let expected = CellCursor { radio: Radio::Umts, mcc: 7, net: 1, area: 2, cell: 3 };
    assert_eq!(CellCursor::from_raw(b"UMTS:+7:001:2:3"), Some(expected));
}

#[test]
fn padded_base64_is_not_a_cursor() {
    let cursor = CellCursor { radio: Radio::Gsm, mcc: 1, net: 2, area: 3, cell: 4 };
    let padded = base64::engine::general_purpose::URL_SAFE.encode(cursor.to_raw());
    assert!(padded.ends_with('='));
    assert_eq!(CellCursor::decode(&padded), None);
}
