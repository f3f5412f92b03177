use dynschema::deserialize::bincode_read_dynamic;
use dynschema::schema::{Schema, StructSchema};
use dynschema::value::DynamicValue;

fn strukt(name: &str, fields: Vec<(&str, Schema)>) -> Schema {
    Schema::Struct(StructSchema::new(
        name.to_string(),
        fields.into_iter().map(|(n, s)| (n.to_string(), s)).collect(),
    ))
}

fn every_kind() -> Schema {
    strukt(
        "Everything",
        vec![
            ("a", Schema::Str),
            ("b", Schema::Sequence),
            ("c", Schema::Mapping),
            ("d", Schema::I8),
            ("e", Schema::U8),
            ("f", Schema::I16),
            ("g", Schema::U16),
            ("h", Schema::I32),
            ("i", Schema::U32),
            ("j", Schema::I64),
            ("k", Schema::U64),
            ("l", Schema::I128),
            ("m", Schema::U128),
            ("n", Schema::F32),
            ("o", Schema::F64),
            ("p", Schema::Bool),
            ("q", Schema::Char),
            ("r", Schema::Unit),
            ("s", Schema::Bytes),
            ("t", Schema::Option),
            ("u", Schema::ByteBuf),
            ("v", Schema::String),
            ("w", strukt("Inner", vec![("x", Schema::U8), ("y", strukt("Empty", vec![]))])),
        ],
    )
}

fn every_kind_bytes() -> Vec<u8> {
    let mut map = std::collections::BTreeMap::new();
    map.insert("key".to_string(), 4u16);
    let mut bytes = Vec::new();
    bytes.extend(bincode::serialize("text").unwrap());
    bytes.extend(bincode::serialize(&vec![1u16, 2u16]).unwrap());
    bytes.extend(bincode::serialize(&map).unwrap());
    bytes.extend(bincode::serialize(&-8i8).unwrap());
    bytes.extend(bincode::serialize(&8u8).unwrap());
    bytes.extend(bincode::serialize(&-16i16).unwrap());
    bytes.extend(bincode::serialize(&16u16).unwrap());
    bytes.extend(bincode::serialize(&-32i32).unwrap());
    bytes.extend(bincode::serialize(&32u32).unwrap());
    bytes.extend(bincode::serialize(&-64i64).unwrap());
    bytes.extend(bincode::serialize(&64u64).unwrap());
    bytes.extend(bincode::serialize(&-128i128).unwrap());
    bytes.extend(bincode::serialize(&128u128).unwrap());
    bytes.extend(bincode::serialize(&0.5f32).unwrap());
    bytes.extend(bincode::serialize(&-0.25f64).unwrap());
    bytes.extend(bincode::serialize(&true).unwrap());
    bytes.extend(bincode::serialize(&'\u{20ac}').unwrap());
    bytes.extend(bincode::serialize(&()).unwrap());
    bytes.extend(bincode::serialize(&vec![9u8, 8u8]).unwrap());
    bytes.extend(bincode::serialize(&Some(7u16)).unwrap());
    bytes.extend(bincode::serialize(&vec![7u8]).unwrap());
    bytes.extend(bincode::serialize("owned").unwrap());
    bytes.extend(bincode::serialize(&(5u8, ())).unwrap());
    bytes
}

fn every_kind_value() -> DynamicValue {
    DynamicValue::Struct {
        name: "Everything".to_string(),
        fields: vec![
            ("a".to_string(), DynamicValue::Str("text".to_string())),
            (
                "b".to_string(),
                DynamicValue::Sequence(vec![DynamicValue::U16(1), DynamicValue::U16(2)]),
            ),
            (
                "c".to_string(),
                DynamicValue::Mapping(vec![("key".to_string(), DynamicValue::U16(4))]),
            ),
            ("d".to_string(), DynamicValue::I8(-8)),
            ("e".to_string(), DynamicValue::U8(8)),
            ("f".to_string(), DynamicValue::I16(-16)),
            ("g".to_string(), DynamicValue::U16(16)),
            ("h".to_string(), DynamicValue::I32(-32)),
            ("i".to_string(), DynamicValue::U32(32)),
            ("j".to_string(), DynamicValue::I64(-64)),
            ("k".to_string(), DynamicValue::U64(64)),
            ("l".to_string(), DynamicValue::I128(-128)),
            ("m".to_string(), DynamicValue::U128(128)),
            ("n".to_string(), DynamicValue::F32(0.5f32.to_bits())),
            ("o".to_string(), DynamicValue::F64((-0.25f64).to_bits())),
            ("p".to_string(), DynamicValue::Bool(true)),
            ("q".to_string(), DynamicValue::Char('\u{20ac}')),
            ("r".to_string(), DynamicValue::Unit(())),
            ("s".to_string(), DynamicValue::Bytes(vec![9, 8])),
            ("t".to_string(), DynamicValue::Option(Some(Box::new(DynamicValue::U16(7))))),
            ("u".to_string(), DynamicValue::ByteBuf(vec![7])),
            ("v".to_string(), DynamicValue::String("owned".to_string())),
            (
                "w".to_string(),
                DynamicValue::Struct {
                    name: "Inner".to_string(),
                    fields: vec![
                        ("x".to_string(), DynamicValue::U8(5)),
                        (
                            "y".to_string(),
                            DynamicValue::Struct { name: "Empty".to_string(), fields: vec![] },
                        ),
                    ],
                },
            ),
        ],
    }
}

#[test]
fn every_kind_is_decoded_from_what_the_encoder_wrote() {
    let decoded = bincode_read_dynamic(every_kind(), &Schema::U16, &every_kind_bytes());
    assert_eq!(decoded, Ok(every_kind_value()));
}

#[test]
fn decoded_value_has_the_shape_of_its_schema() {
    let decoded = bincode_read_dynamic(every_kind(), &Schema::U16, &every_kind_bytes()).unwrap();
    assert_eq!(decoded.shape(), every_kind());
    assert_eq!(DynamicValue::Option(None).shape(), Schema::Option);
    assert_eq!(DynamicValue::Sequence(vec![DynamicValue::Bool(true)]).shape(), Schema::Sequence);
    assert_eq!(DynamicValue::F64(0).shape(), Schema::F64);
}

#[test]
fn shape_tells_structs_apart_by_name_and_field_names() {
    let value = DynamicValue::Struct {
        name: "P".to_string(),
        fields: vec![("x".to_string(), DynamicValue::U8(1))],
    };
    assert_eq!(value.shape(), strukt("P", vec![("x", Schema::U8)]));
    assert_ne!(value.shape(), strukt("Q", vec![("x", Schema::U8)]));
    assert_ne!(value.shape(), strukt("P", vec![("y", Schema::U8)]));
    assert_ne!(value.shape(), strukt("P", vec![("x", Schema::I8)]));
}

#[test]
fn copies_are_equal_to_what_they_copy() {
    let value = every_kind_value();
    assert_eq!(value.clone(), value);
    let schema = every_kind();
    assert_eq!(schema.clone(), schema);
    let inner = StructSchema::new("S".to_string(), vec![("f".to_string(), Schema::Char)]);
    assert_eq!(inner.clone(), inner);
    assert_eq!(inner.name, "S");
    assert_eq!(inner.fields, vec![("f".to_string(), Schema::Char)]);
}
