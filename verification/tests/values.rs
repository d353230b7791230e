use symbiosis::dbus_value::DbusValue;
use symbiosis::errors::ExtraValueConversionError;
use symbiosis::strmap::StrMap;
use symbiosis::value::{CborValue, ExtraValue};
use symbiosis::yaml::{extra_values_from_yaml, YamlNumber, YamlValue};

fn map(entries: Vec<(&str, ExtraValue)>) -> StrMap<ExtraValue> {
    let mut m = StrMap::new();
    for (k, v) in entries {
        m.insert(k.to_string(), v);
    }
    m
}

#[test]
fn cbor_integers_convert_by_sign() {
    assert_eq!(ExtraValue::try_from_cbor(CborValue::Integer(5)), Ok(ExtraValue::U64(5)));
    assert_eq!(ExtraValue::try_from_cbor(CborValue::Integer(-5)), Ok(ExtraValue::I64(-5)));
    assert_eq!(
        ExtraValue::try_from_cbor(CborValue::Integer(u64::MAX as i128)),
        Ok(ExtraValue::U64(u64::MAX))
    );
    assert_eq!(
        ExtraValue::try_from_cbor(CborValue::Integer(i64::MIN as i128)),
        Ok(ExtraValue::I64(i64::MIN))
    );
    assert_eq!(
        ExtraValue::try_from_cbor(CborValue::Integer(i64::MIN as i128 - 1)),
        Err(ExtraValueConversionError::UnsupportedIntegerType)
    );
}

#[test]
fn cbor_containers_convert() {
    let value = CborValue::Tag(
        1,
        Box::new(CborValue::Array(vec![
            CborValue::Bool(true),
            CborValue::Mapping(vec![
                (CborValue::Text("b".to_string()), CborValue::Null),
                (CborValue::Text("a".to_string()), CborValue::Bytes(vec![1, 2])),
            ]),
        ])),
    );
    let expected = ExtraValue::Tag(
        1,
        Box::new(ExtraValue::Array(vec![
            ExtraValue::Boolean(true),
            ExtraValue::Mapping(map(vec![
                ("a", ExtraValue::Bytes(vec![1, 2])),
                ("b", ExtraValue::Null),
            ])),
        ])),
    );
    assert_eq!(ExtraValue::try_from_cbor(value), Ok(expected));
}

#[test]
fn cbor_other_items_do_not_convert() {
    assert_eq!(
        ExtraValue::try_from_cbor(CborValue::Array(vec![CborValue::Null, CborValue::Other])),
        Err(ExtraValueConversionError::UnsupportedValueType)
    );
}

#[test]
fn cbor_map_keys_must_be_text() {
    let value = CborValue::Mapping(vec![(CborValue::Bool(true), CborValue::Null)]);
    assert_eq!(
        ExtraValue::try_from_cbor(value),
        Err(ExtraValueConversionError::MapKeysMustBeStrings)
    );
}

#[test]
fn extra_to_cbor_and_back() {
    let value = ExtraValue::Mapping(map(vec![
        ("f", ExtraValue::F64(1.5f64.to_bits())),
        ("n", ExtraValue::I64(-1)),
        ("t", ExtraValue::Text("x".to_string())),
        ("u", ExtraValue::U64(7)),
    ]));
    let cbor = value.to_cbor();
    assert_eq!(
        cbor,
        CborValue::Mapping(vec![
            (CborValue::Text("f".to_string()), CborValue::Float(1.5f64.to_bits())),
            (CborValue::Text("n".to_string()), CborValue::Integer(-1)),
            (CborValue::Text("t".to_string()), CborValue::Text("x".to_string())),
            (CborValue::Text("u".to_string()), CborValue::Integer(7)),
        ])
    );
    assert_eq!(ExtraValue::try_from_cbor(cbor), Ok(value));
}

#[test]
fn signed_non_negative_comes_back_unsigned() {
    let cbor = ExtraValue::I64(3).into_cbor();
    assert_eq!(ExtraValue::try_from_cbor(cbor), Ok(ExtraValue::U64(3)));
}

#[test]
fn yaml_values_convert() {
    let value = YamlValue::Mapping(vec![
        (YamlValue::String("n".to_string()), YamlValue::Number(YamlNumber::NegInt(-2))),
        (YamlValue::String("p".to_string()), YamlValue::Number(YamlNumber::PosInt(2))),
        (YamlValue::String("f".to_string()), YamlValue::Number(YamlNumber::Float(0.5f64.to_bits()))),
        (
            YamlValue::String("s".to_string()),
            YamlValue::Sequence(vec![YamlValue::Bool(false), YamlValue::Null]),
        ),
    ]);
    let expected = ExtraValue::Mapping(map(vec![
        ("f", ExtraValue::F64(0.5f64.to_bits())),
        ("n", ExtraValue::I64(-2)),
        ("p", ExtraValue::U64(2)),
        ("s", ExtraValue::Array(vec![ExtraValue::Boolean(false), ExtraValue::Null])),
    ]));
    assert_eq!(ExtraValue::try_from_yaml(value), Ok(expected));
}

#[test]
fn yaml_tagged_and_bad_keys() {
    assert_eq!(
        ExtraValue::try_from_yaml(YamlValue::Tagged),
        Err(ExtraValueConversionError::UnsupportedValueType)
    );
    let value = YamlValue::Mapping(vec![(YamlValue::Null, YamlValue::Null)]);
    assert_eq!(
        ExtraValue::try_from_yaml(value),
        Err(ExtraValueConversionError::MapKeysMustBeStrings)
    );
}

#[test]
fn yaml_override_extras() {
    let extras = extra_values_from_yaml(vec![
        ("some-text".to_string(), YamlValue::String("testing out".to_string())),
        ("a-boolean".to_string(), YamlValue::Bool(false)),
    ])
    .unwrap();
    assert_eq!(extras.get("some-text"), Some(&ExtraValue::Text("testing out".to_string())));
    assert_eq!(extras.get("a-boolean"), Some(&ExtraValue::Boolean(false)));
    let err = extra_values_from_yaml(vec![
        ("ok".to_string(), YamlValue::Null),
        ("bad".to_string(), YamlValue::Tagged),
        ("worse".to_string(), YamlValue::Tagged),
    ]);
    assert_eq!(
        err.map(|m| m.len()),
        Err(("bad".to_string(), ExtraValueConversionError::UnsupportedValueType))
    );
}

#[test]
fn dbus_values_convert() {
    let value = DbusValue::Dict(vec![
        (DbusValue::Str("a".to_string()), DbusValue::U8(1)),
        (DbusValue::Str("b".to_string()), DbusValue::Value(Box::new(DbusValue::I16(-1)))),
        (DbusValue::Str("c".to_string()), DbusValue::Array(vec![DbusValue::U32(4)])),
    ]);
    let expected = ExtraValue::Mapping(map(vec![
        ("a", ExtraValue::U64(1)),
        ("b", ExtraValue::I64(-1)),
        ("c", ExtraValue::Array(vec![ExtraValue::U64(4)])),
    ]));
    assert_eq!(ExtraValue::try_from_dbus(&value), Ok(expected));
    assert_eq!(
        ExtraValue::try_from_dbus(&DbusValue::ByteArray(vec![1, 2])),
        Ok(ExtraValue::Array(vec![ExtraValue::U64(1), ExtraValue::U64(2)]))
    );
    assert_eq!(
        ExtraValue::try_from_dbus(&DbusValue::Other),
        Err(ExtraValueConversionError::UnsupportedValueType)
    );
    assert_eq!(
        ExtraValue::try_from_dbus(&DbusValue::Dict(vec![(DbusValue::U8(1), DbusValue::U8(1))])),
        Err(ExtraValueConversionError::MapKeysMustBeStrings)
    );
}

#[test]
fn dbus_lossy_conversion_drops_nulls_and_tags() {
    let value = ExtraValue::Mapping(map(vec![
        ("bytes", ExtraValue::Bytes(vec![7, 8])),
        ("null", ExtraValue::Null),
        (
            "list",
            ExtraValue::Array(vec![
                ExtraValue::Tag(1, Box::new(ExtraValue::Null)),
                ExtraValue::Text("t".to_string()),
            ]),
        ),
    ]));
    let expected = DbusValue::Dict(vec![
        (DbusValue::Str("bytes".to_string()), DbusValue::ByteArray(vec![7, 8])),
        (DbusValue::Str("list".to_string()), DbusValue::Array(vec![DbusValue::Str("t".to_string())])),
    ]);
    assert_eq!(value.try_into_dbus_lossy().unwrap(), expected);
    let null = ExtraValue::Null;
    let err = null.try_into_dbus_lossy().unwrap_err();
    assert_eq!(*err.0, ExtraValue::Null);
}

#[test]
fn extra_values_from_plain_values() {
    assert_eq!(ExtraValue::from(false), ExtraValue::Boolean(false));
    assert_eq!(ExtraValue::from("testing out".to_string()), ExtraValue::Text("testing out".to_string()));
    assert_eq!(ExtraValue::from(-4i64), ExtraValue::I64(-4));
    assert_eq!(ExtraValue::from(4u64), ExtraValue::U64(4));
    assert_eq!(ExtraValue::from(vec![1u8, 2]), ExtraValue::Bytes(vec![1, 2]));
    assert_eq!(ExtraValue::from(vec![ExtraValue::Null]), ExtraValue::Array(vec![ExtraValue::Null]));
    let m = map(vec![("a", ExtraValue::Null)]);
    assert_eq!(ExtraValue::from(map(vec![("a", ExtraValue::Null)])), ExtraValue::Mapping(m));
}

#[test]
fn floats_compare_as_numbers() {
    assert_eq!(ExtraValue::F64(0.0f64.to_bits()), ExtraValue::F64((-0.0f64).to_bits()));
    assert_ne!(ExtraValue::F64(f64::NAN.to_bits()), ExtraValue::F64(f64::NAN.to_bits()));
    assert_eq!(ExtraValue::F64(1.5f64.to_bits()), ExtraValue::F64(1.5f64.to_bits()));
    assert_ne!(ExtraValue::F64(1.5f64.to_bits()), ExtraValue::F64(2.5f64.to_bits()));
    assert_ne!(
        ExtraValue::Array(vec![ExtraValue::F64(f64::NAN.to_bits())]),
        ExtraValue::Array(vec![ExtraValue::F64(f64::NAN.to_bits())])
    );
    assert_eq!(
        ExtraValue::Array(vec![ExtraValue::Tag(1, Box::new(ExtraValue::F64(0.0f64.to_bits())))]),
        ExtraValue::Array(vec![ExtraValue::Tag(1, Box::new(ExtraValue::F64((-0.0f64).to_bits())))])
    );
    assert_ne!(ExtraValue::I64(-1), ExtraValue::U64(1));
    assert_ne!(ExtraValue::Bytes(vec![1, 2]), ExtraValue::Bytes(vec![1, 3]));
}
