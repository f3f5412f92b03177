use dynschema::error::RecorderError;
use dynschema::schema::{Schema, StructSchema};
use dynschema::schema_recorder::{record_schema, Kind, Request};

fn open(name: &str, fields: &[&str]) -> Request {
    Request::Struct {
        name: name.to_string(),
        fields: fields.iter().map(|f| f.to_string()).collect(),
    }
}

fn strukt(name: &str, fields: Vec<(&str, Schema)>) -> Schema {
    Schema::Struct(StructSchema::new(
        name.to_string(),
        fields.into_iter().map(|(n, s)| (n.to_string(), s)).collect(),
    ))
}

#[test]
fn every_supported_kind_has_its_shape() {
    let pairs = [
        (Kind::Bool, Schema::Bool),
        (Kind::I8, Schema::I8),
        (Kind::I16, Schema::I16),
        (Kind::I32, Schema::I32),
        (Kind::I64, Schema::I64),
        (Kind::I128, Schema::I128),
        (Kind::U8, Schema::U8),
        (Kind::U16, Schema::U16),
        (Kind::U32, Schema::U32),
        (Kind::U64, Schema::U64),
        (Kind::U128, Schema::U128),
        (Kind::F32, Schema::F32),
        (Kind::F64, Schema::F64),
        (Kind::Char, Schema::Char),
        (Kind::Str, Schema::Str),
        (Kind::String, Schema::String),
        (Kind::Bytes, Schema::Bytes),
        (Kind::ByteBuf, Schema::ByteBuf),
        (Kind::Option, Schema::Option),
        (Kind::Unit, Schema::Unit),
        (Kind::Sequence, Schema::Sequence),
        (Kind::Mapping, Schema::Mapping),
    ];
    for (kind, schema) in pairs {
        assert_eq!(kind.schema(), Ok(schema.clone()));
        assert_eq!(record_schema(&vec![Request::Value(kind)]), Ok(schema));
    }
}

#[test]
fn every_other_kind_is_refused_by_name() {
    let pairs = [
        (Kind::Any, "any"),
        (Kind::UnitStruct, "unit struct"),
        (Kind::NewtypeStruct, "newtype struct"),
        (Kind::Tuple, "tuple"),
        (Kind::TupleStruct, "tuple struct"),
        (Kind::Enum, "enum"),
        (Kind::Identifier, "identifier"),
        (Kind::IgnoredAny, "ignored any"),
    ];
    for (kind, name) in pairs {
        assert_eq!(kind.schema(), Err(RecorderError::Unsupported(name.to_string())));
        assert_eq!(
            record_schema(&vec![Request::Value(kind)]),
            Err(RecorderError::Unsupported(name.to_string()))
        );
    }
}

#[test]
fn fields_keep_the_order_of_the_requests() {
    let requests = vec![
        open("A", &["a", "b"]),
        Request::Value(Kind::I32),
        open("B", &["c"]),
        Request::Value(Kind::I32),
        Request::EndStruct,
        Request::EndStruct,
    ];
    assert_eq!(
        record_schema(&requests),
        Ok(strukt("A", vec![("a", Schema::I32), ("b", strukt("B", vec![("c", Schema::I32)]))]))
    );
    let requests = vec![
        open("T", &["z", "y", "x"]),
        Request::Value(Kind::U8),
        Request::Value(Kind::String),
        Request::Value(Kind::Sequence),
        Request::EndStruct,
    ];
    assert_eq!(
        record_schema(&requests),
        Ok(strukt("T", vec![("z", Schema::U8), ("y", Schema::String), ("x", Schema::Sequence)]))
    );
}

#[test]
fn recording_twice_gives_the_same_schema() {
    let requests = || {
        vec![
            open("Outer", &["first", "second", "third"]),
            Request::Value(Kind::Bool),
            open("Inner", &["only"]),
            Request::Value(Kind::Mapping),
            Request::EndStruct,
            Request::Value(Kind::Option),
            Request::EndStruct,
        ]
    };
    let once = record_schema(&requests());
    let twice = record_schema(&requests());
    assert_eq!(once, twice);
    assert_eq!(
        once,
        Ok(strukt(
            "Outer",
            vec![
                ("first", Schema::Bool),
                ("second", strukt("Inner", vec![("only", Schema::Mapping)])),
                ("third", Schema::Option),
            ]
        ))
    );
}

#[test]
fn unsupported_kind_inside_a_struct() {
    let requests = vec![
        open("A", &["a", "b"]),
        Request::Value(Kind::I32),
        open("B", &["c"]),
        Request::Value(Kind::Enum),
    ];
    assert_eq!(record_schema(&requests), Err(RecorderError::Unsupported("enum".to_string())));
    let requests = vec![
        open("A", &["a", "b"]),
        Request::Value(Kind::Tuple),
        Request::Value(Kind::Enum),
        Request::EndStruct,
    ];
    assert_eq!(record_schema(&requests), Err(RecorderError::Unsupported("tuple".to_string())));
}

#[test]
fn no_request_is_the_unit() {
    assert_eq!(record_schema(&vec![]), Ok(Schema::Unit));
    assert_eq!(record_schema(&vec![Request::EndStruct]), Ok(Schema::Unit));
}

#[test]
fn only_the_first_shape_counts() {
    let requests = vec![Request::Value(Kind::U8), Request::Value(Kind::Enum)];
    assert_eq!(record_schema(&requests), Ok(Schema::U8));
    let requests = vec![open("S", &[]), Request::EndStruct, Request::Value(Kind::U8)];
    assert_eq!(record_schema(&requests), Ok(strukt("S", vec![])));
}

#[test]
fn struct_left_open_ends_with_the_requests() {
    let requests = vec![open("S", &["a", "b"]), Request::Value(Kind::U8)];
    assert_eq!(record_schema(&requests), Ok(strukt("S", vec![("a", Schema::U8)])));
    let requests = vec![open("S", &["a", "b"]), open("T", &["c"])];
    assert_eq!(
        record_schema(&requests),
        Ok(strukt("S", vec![("a", strukt("T", vec![]))]))
    );
}

#[test]
fn fields_that_were_not_asked_for_are_left_out() {
    let requests = vec![open("S", &["a", "b", "c"]), Request::Value(Kind::U8), Request::EndStruct];
    assert_eq!(record_schema(&requests), Ok(strukt("S", vec![("a", Schema::U8)])));
}

#[test]
fn shapes_without_a_name_are_passed_over() {
    let requests = vec![
        open("S", &["a"]),
        Request::Value(Kind::U8),
        Request::Value(Kind::U16),
        open("T", &["x"]),
        Request::Value(Kind::U32),
        Request::EndStruct,
        Request::EndStruct,
        Request::Value(Kind::U64),
    ];
    assert_eq!(record_schema(&requests), Ok(strukt("S", vec![("a", Schema::U8)])));
}
