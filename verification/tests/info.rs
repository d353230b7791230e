use symbiosis::errors::{CBORParsingError, ExtraValueConversionError, MissingDataError};
use symbiosis::frame::pack;
use symbiosis::info::{Info, ParseError};
use symbiosis::strmap::StrMap;
use symbiosis::value::{CborValue, ExtraValue};

fn text(s: &str) -> CborValue {
    CborValue::Text(s.to_string())
}

fn payload(entries: Vec<(&str, CborValue)>) -> StrMap<CborValue> {
    let mut map = StrMap::new();
    for (k, v) in entries {
        map.insert(k.to_string(), v);
    }
    map
}

fn full_payload() -> StrMap<CborValue> {
    payload(vec![
        ("SC", CborValue::Integer(0)),
        ("SN", text("1234")),
        ("VN", text("Jolla")),
        ("PN", text("TOH")),
        ("VS", text("https://jolla.com/")),
        ("PS", text("https://jolla.com/toh")),
        ("PO", CborValue::Bool(true)),
        ("PI", CborValue::Bool(false)),
        ("color", text("blue")),
        ("count", CborValue::Integer(3)),
        ("offset", CborValue::Integer(-3)),
    ])
}

#[test]
fn from_payload_reads_known_and_extra_keys() {
    let info = Info::from_payload(0x1234, 0x5678, full_payload()).unwrap();
    assert_eq!(info.vendor_id, 0x1234);
    assert_eq!(info.product_id, 0x5678);
    assert_eq!(info.schema_version, Some(0));
    assert_eq!(info.serial_number.as_deref(), Some("1234"));
    assert_eq!(info.vendor_name.as_deref(), Some("Jolla"));
    assert_eq!(info.product_name.as_deref(), Some("TOH"));
    assert_eq!(info.vendor_website.as_deref(), Some("https://jolla.com/"));
    assert_eq!(info.product_website.as_deref(), Some("https://jolla.com/toh"));
    assert_eq!(info.leave_power_on, Some(true));
    assert_eq!(info.power_input_toh, Some(false));
    assert_eq!(info.extra.len(), 3);
    assert_eq!(info.extra.get("color"), Some(&ExtraValue::Text("blue".to_string())));
    assert_eq!(info.extra.get("count"), Some(&ExtraValue::U64(3)));
    assert_eq!(info.extra.get("offset"), Some(&ExtraValue::I64(-3)));
    assert_eq!(info.extra.get("SN"), None);
}

#[test]
fn from_payload_of_empty_payload() {
    let info = Info::from_payload(1, 2, StrMap::new()).unwrap();
    let mut expected = Info::default();
    expected.vendor_id = 1;
    expected.product_id = 2;
    assert_eq!(info, expected);
}

#[test]
fn from_payload_wrong_type_for_text_key() {
    let res = Info::from_payload(1, 2, payload(vec![("VN", CborValue::Integer(5))]));
    assert!(matches!(res, Err(ParseError::PayloadWrongType(CborValue::Integer(5)))));
}

#[test]
fn from_payload_wrong_type_for_flag_key() {
    let res = Info::from_payload(1, 2, payload(vec![("PO", text("yes"))]));
    match res {
        Err(ParseError::PayloadWrongType(CborValue::Text(t))) => assert_eq!(t, "yes"),
        other => panic!("unexpected {other:?}"),
    }
}

#[test]
fn from_payload_schema_version_out_of_bounds() {
    let res = Info::from_payload(1, 2, payload(vec![("SC", CborValue::Integer(256))]));
    assert!(matches!(res, Err(ParseError::PayloadOutOfBoundsInteger(_))));
    let res = Info::from_payload(1, 2, payload(vec![("SC", CborValue::Integer(-1))]));
    assert!(matches!(res, Err(ParseError::PayloadOutOfBoundsInteger(_))));
    let info = Info::from_payload(1, 2, payload(vec![("SC", CborValue::Integer(255))])).unwrap();
    assert_eq!(info.schema_version, Some(255));
}

#[test]
fn from_payload_schema_version_wrong_type() {
    let res = Info::from_payload(1, 2, payload(vec![("SC", CborValue::Bool(true))]));
    assert!(matches!(res, Err(ParseError::PayloadWrongType(CborValue::Bool(true)))));
}

#[test]
fn from_payload_checks_schema_version_before_other_keys() {
    let res = Info::from_payload(
        1,
        2,
        payload(vec![("SC", CborValue::Integer(300)), ("SN", CborValue::Null)]),
    );
    assert!(matches!(res, Err(ParseError::PayloadOutOfBoundsInteger(_))));
}

#[test]
fn from_payload_checks_known_keys_before_extras() {
    let res = Info::from_payload(
        1,
        2,
        payload(vec![
            ("AA", CborValue::Integer(-(1i128 << 64))),
            ("PI", CborValue::Null),
        ]),
    );
    assert!(matches!(res, Err(ParseError::PayloadWrongType(CborValue::Null))));
}

#[test]
fn from_payload_unsupported_extra_integer() {
    let res = Info::from_payload(1, 2, payload(vec![("big", CborValue::Integer(-(1i128 << 64)))]));
    assert!(matches!(
        res,
        Err(ParseError::PayloadUnsupportedValue(ExtraValueConversionError::UnsupportedIntegerType))
    ));
}

#[test]
fn from_payload_extra_map_keys_must_be_strings() {
    let res = Info::from_payload(
        1,
        2,
        payload(vec![(
            "m",
            CborValue::Mapping(vec![(CborValue::Integer(1), CborValue::Null)]),
        )]),
    );
    assert!(matches!(
        res,
        Err(ParseError::PayloadUnsupportedValue(ExtraValueConversionError::MapKeysMustBeStrings))
    ));
}

#[test]
fn from_decoded_reports_decoding_error() {
    let res = Info::from_decoded(1, 2, Err(CBORParsingError::Syntax(7)));
    assert!(matches!(res, Err(ParseError::PayloadParsingError(CBORParsingError::Syntax(7)))));
}

#[test]
fn get_payload_writes_schema_version_with_fields() {
    let mut info = Info::default();
    info.vendor_name = Some("Jolla".to_string());
    info.schema_version = Some(7);
    let p = info.get_payload(true);
    assert_eq!(p.len(), 2);
    assert_eq!(p.get("VN"), Some(&text("Jolla")));
    assert_eq!(p.get("SC"), Some(&CborValue::Integer(0)));
}

#[test]
fn get_payload_of_empty_info_is_empty() {
    let mut info = Info::default();
    info.schema_version = Some(0);
    assert!(info.get_payload(true).is_empty());
}

#[test]
fn get_payload_extras_only_when_asked() {
    let mut info = Info::default();
    info.extra.insert("color".to_string(), ExtraValue::Text("blue".to_string()));
    let with = info.get_payload(true);
    assert_eq!(with.len(), 1);
    assert_eq!(with.get("color"), Some(&text("blue")));
    assert_eq!(with.get("SC"), None);
    assert!(info.get_payload(false).is_empty());
}

#[test]
fn get_payload_extra_replaces_known_key() {
    let mut info = Info::default();
    info.serial_number = Some("1".to_string());
    info.extra.insert("SN".to_string(), ExtraValue::U64(2));
    let p = info.get_payload(true);
    assert_eq!(p.get("SN"), Some(&CborValue::Integer(2)));
    assert_eq!(p.get("SC"), Some(&CborValue::Integer(0)));
}

#[test]
fn payload_roundtrip() {
    let info = Info::from_payload(0x1234, 0x5678, full_payload()).unwrap();
    let p = info.get_payload(true);
    let again = Info::from_payload(info.vendor_id, info.product_id, p).unwrap();
    assert_eq!(again, info);
}

#[test]
fn parse_frame_errors_map_to_parse_errors() {
    let res = Info::parse_frame(&[0u8; 4]);
    assert!(matches!(
        res,
        Err(ParseError::NotEnoughData(MissingDataError { length: 4, expected: 16 }))
    ));
    let mut packed = pack(1, 2, &[]);
    packed[3] = 0;
    assert!(matches!(Info::parse_frame(&packed), Err(ParseError::BadMagic(_))));
    let mut packed = pack(1, 2, &[]);
    packed[9] = 0;
    assert!(matches!(Info::parse_frame(&packed), Err(ParseError::BadChecksum(_))));
    let frame = Info::parse_frame(&pack(3, 4, &[5])).unwrap();
    assert_eq!((frame.vendor_id, frame.product_id, frame.payload), (3, 4, vec![5]));
}

fn to_ciborium(value: &CborValue) -> ciborium::Value {
    match value {
        CborValue::Integer(v) => ciborium::Value::Integer((*v as i64).into()),
        CborValue::Text(t) => ciborium::Value::Text(t.clone()),
        CborValue::Bool(b) => ciborium::Value::Bool(*b),
        CborValue::Null => ciborium::Value::Null,
        other => panic!("not used here: {other:?}"),
    }
}

fn from_ciborium(value: ciborium::Value) -> CborValue {
    match value {
        ciborium::Value::Integer(v) => CborValue::Integer(i128::from(v)),
        ciborium::Value::Text(t) => CborValue::Text(t),
        ciborium::Value::Bool(b) => CborValue::Bool(b),
        ciborium::Value::Null => CborValue::Null,
        other => panic!("not used here: {other:?}"),
    }
}

#[test]
fn chip_content_roundtrip() {
    let info = Info::from_payload(0x1234, 0x5678, full_payload()).unwrap();
    let payload = info.get_payload(true);
    let map: std::collections::BTreeMap<String, ciborium::Value> =
        payload.entries.iter().map(|(k, v)| (k.clone(), to_ciborium(v))).collect();
    let mut bytes = Vec::new();
    ciborium::into_writer(&map, &mut bytes).unwrap();
    let content = pack(info.vendor_id, info.product_id, &bytes);

    let frame = Info::parse_frame(&content).unwrap();
    let decoded: std::collections::BTreeMap<String, ciborium::Value> =
        ciborium::from_reader(&frame.payload[..]).unwrap();
    let mut back = StrMap::new();
    for (k, v) in decoded {
        back.insert(k, from_ciborium(v));
    }
    let again = Info::from_decoded(frame.vendor_id, frame.product_id, Ok(back)).unwrap();
    assert_eq!(again, info);
}

fn encode_small(payload: StrMap<CborValue>) -> Result<Vec<u8>, std::io::Error> {
    let map: std::collections::BTreeMap<String, ciborium::Value> =
        payload.entries.iter().map(|(k, v)| (k.clone(), to_ciborium(v))).collect();
    let mut bytes = Vec::new();
    ciborium::into_writer(&map, &mut bytes).map_err(|e| std::io::Error::other(format!("{e:?}")))?;
    Ok(bytes)
}

#[test]
fn bytes_roundtrip_through_parse_and_into() {
    let info = Info::from_payload(0x1234, 0x5678, full_payload()).unwrap();
    let content = info.into_bytes(encode_small).unwrap();
    let again = Info::parse_from_bytes(&content).unwrap();
    assert_eq!(again, info);
}

#[test]
fn into_bytes_of_empty_info_is_bare_header() {
    let mut info = Info::default();
    info.vendor_id = 7;
    info.product_id = 9;
    let content = info.into_bytes(encode_small).unwrap();
    assert_eq!(content, pack(7, 9, &[]));
    assert_eq!(content.len(), 16);
    let again = Info::parse_from_bytes(&content).unwrap();
    assert_eq!(again, Info { vendor_id: 7, product_id: 9, ..Default::default() });
}

#[test]
fn parse_from_bytes_reports_decoding_error() {
    // Additional information 28 is reserved in CBOR.
    let content = pack(1, 2, &[0x1c]);
    let res = Info::parse_from_bytes(&content);
    assert!(matches!(res, Err(ParseError::PayloadParsingError(CBORParsingError::Syntax(0)))));
}

#[test]
fn parse_from_bytes_reports_truncated_payload() {
    // A map of one entry whose text value is cut short.
    let content = pack(1, 2, &[0xa1, 0x62, b'S', b'N', 0x63, b'a']);
    let res = Info::parse_from_bytes(&content);
    assert!(matches!(res, Err(ParseError::PayloadParsingError(CBORParsingError::Io))));
}

#[test]
fn parse_from_bytes_decodes_payload() {
    // {"SN": "ab", "PO": true, "x": 1.5}
    let payload = [
        0xa3, 0x62, b'S', b'N', 0x62, b'a', b'b', 0x62, b'P', b'O', 0xf5, 0x61, b'x', 0xfb, 0x3f,
        0xf8, 0, 0, 0, 0, 0, 0,
    ];
    let content = pack(0x1234, 0x5678, &payload);
    let info = Info::parse_from_bytes(&content).unwrap();
    assert_eq!(info.vendor_id, 0x1234);
    assert_eq!(info.product_id, 0x5678);
    assert_eq!(info.serial_number, Some("ab".to_string()));
    assert_eq!(info.leave_power_on, Some(true));
    assert_eq!(info.schema_version, None);
    assert_eq!(info.extra.get("x"), Some(&ExtraValue::F64(1.5f64.to_bits())));
}

#[test]
fn parse_from_bytes_reports_wrong_type_of_known_key() {
    // {"PO": "yes"}
    let content = pack(1, 2, &[0xa1, 0x62, b'P', b'O', 0x63, b'y', b'e', b's']);
    let res = Info::parse_from_bytes(&content);
    assert!(matches!(res, Err(ParseError::PayloadWrongType(CborValue::Text(t))) if t == "yes"));
}

#[test]
fn parse_from_bytes_ignores_bytes_after_payload() {
    let info = Info::from_payload(0x1234, 0x5678, full_payload()).unwrap();
    let mut content = info.into_bytes(encode_small).unwrap();
    let exact = Info::parse_from_bytes(&content).unwrap();
    content.extend_from_slice(&[0xff; 40]);
    assert_eq!(Info::parse_from_bytes(&content).unwrap(), exact);
}

#[test]
fn parse_from_bytes_short_content_with_largest_payload_size() {
    let mut content = pack(1, 2, &[]);
    content[14] = 0xff;
    content[15] = 0xff;
    let res = Info::parse_from_bytes(&content);
    assert!(matches!(
        res,
        Err(ParseError::NotEnoughData(MissingDataError { length: 16, expected: 0x1000f }))
    ));
}

#[test]
fn summary_lines() {
    let mut info = Info::default();
    info.vendor_id = 0x12;
    info.product_id = 0xabcd;
    info.product_name = Some("TOH".to_string());
    info.serial_number = Some("42".to_string());
    info.leave_power_on = Some(false);
    assert_eq!(
        info.summary(),
        vec![
            "Vendor: 0x0012".to_string(),
            "Product: TOH (0xabcd)".to_string(),
            "Serial number: 42 ".to_string(),
            "Power out enable: false ".to_string(),
        ]
    );
    assert_eq!(format!("{:#06x}", info.vendor_id), "0x0012");
}

#[test]
fn power_decisions_of_info() {
    let mut info = Info::default();
    assert!(!info.keeps_power_on());
    assert!(info.powers_down_after_loan(None));
    assert!(!info.powers_down_after_loan(Some(true)));
    info.leave_power_on = Some(true);
    assert!(info.keeps_power_on());
    assert!(!info.powers_down_after_loan(None));
    assert!(info.powers_down_after_loan(Some(false)));
}
