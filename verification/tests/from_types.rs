use dynschema::deserialize::bincode_read_dynamic;
use dynschema::error::RecorderError;
use dynschema::schema::{Schema, StructSchema};
use dynschema::schema_recorder::{Kind, Request};
use dynschema::value::DynamicValue;
use serde::de::{self, DeserializeSeed, MapAccess, SeqAccess, Visitor};
use serde::ser::SerializeStruct;
use serde::{Deserialize, Deserializer, Serialize, Serializer};
use std::fmt;

#[derive(Debug)]
struct ProbeError(String);

impl fmt::Display for ProbeError {
    fn fmt(&self, f: &mut fmt::Formatter<'_>) -> fmt::Result {
        f.write_str(&self.0)
    }
}

impl std::error::Error for ProbeError {}

impl de::Error for ProbeError {
    fn custom<T: fmt::Display>(message: T) -> Self {
        ProbeError(message.to_string())
    }
}

struct Probe<'a> {
    requests: &'a mut Vec<Request>,
}

impl<'a> Probe<'a> {
    fn ask(&mut self, kind: Kind) -> Result<(), ProbeError> {
        self.requests.push(Request::Value(kind));
        match kind.schema() {
            Ok(_) => Ok(()),
            Err(RecorderError::Unsupported(name)) => Err(ProbeError(name)),
        }
    }

    fn refuse<T>(mut self, kind: Kind) -> Result<T, ProbeError> {
        self.ask(kind)?;
        Err(ProbeError(String::from("unsupported")))
    }
}

struct Nothing;

impl<'de> SeqAccess<'de> for Nothing {
    type Error = ProbeError;

    fn next_element_seed<T: DeserializeSeed<'de>>(
        &mut self,
        _seed: T,
    ) -> Result<Option<T::Value>, ProbeError> {
        Ok(None)
    }
}

impl<'de> MapAccess<'de> for Nothing {
    type Error = ProbeError;

    fn next_key_seed<K: DeserializeSeed<'de>>(
        &mut self,
        _seed: K,
    ) -> Result<Option<K::Value>, ProbeError> {
        Ok(None)
    }

    fn next_value_seed<V: DeserializeSeed<'de>>(&mut self, _seed: V) -> Result<V::Value, ProbeError> {
        Err(ProbeError(String::from("a map without entries has no value")))
    }
}

struct Fields<'a> {
    requests: &'a mut Vec<Request>,
    left: usize,
}

impl<'de, 'a> SeqAccess<'de> for Fields<'a> {
    type Error = ProbeError;

    fn next_element_seed<T: DeserializeSeed<'de>>(
        &mut self,
        seed: T,
    ) -> Result<Option<T::Value>, ProbeError> {
        if self.left == 0 {
            return Ok(None);
        }
        self.left -= 1;
        seed.deserialize(Probe { requests: &mut *self.requests }).map(Some)
    }
}

impl<'de, 'a> Deserializer<'de> for Probe<'a> {
    type Error = ProbeError;

    fn deserialize_any<V: Visitor<'de>>(self, _visitor: V) -> Result<V::Value, ProbeError> {
        self.refuse(Kind::Any)
    }

    fn deserialize_bool<V: Visitor<'de>>(mut self, visitor: V) -> Result<V::Value, ProbeError> {
        self.ask(Kind::Bool)?;
        visitor.visit_bool(false)
    }

    fn deserialize_i8<V: Visitor<'de>>(mut self, visitor: V) -> Result<V::Value, ProbeError> {
        self.ask(Kind::I8)?;
        visitor.visit_i8(0)
    }

    fn deserialize_i16<V: Visitor<'de>>(mut self, visitor: V) -> Result<V::Value, ProbeError> {
        self.ask(Kind::I16)?;
        visitor.visit_i16(0)
    }

    fn deserialize_i32<V: Visitor<'de>>(mut self, visitor: V) -> Result<V::Value, ProbeError> {
        self.ask(Kind::I32)?;
        visitor.visit_i32(0)
    }

    fn deserialize_i64<V: Visitor<'de>>(mut self, visitor: V) -> Result<V::Value, ProbeError> {
        self.ask(Kind::I64)?;
        visitor.visit_i64(0)
    }

    fn deserialize_i128<V: Visitor<'de>>(mut self, visitor: V) -> Result<V::Value, ProbeError> {
        self.ask(Kind::I128)?;
        visitor.visit_i128(0)
    }

    fn deserialize_u8<V: Visitor<'de>>(mut self, visitor: V) -> Result<V::Value, ProbeError> {
        self.ask(Kind::U8)?;
        visitor.visit_u8(0)
    }

    fn deserialize_u16<V: Visitor<'de>>(mut self, visitor: V) -> Result<V::Value, ProbeError> {
        self.ask(Kind::U16)?;
        visitor.visit_u16(0)
    }

    fn deserialize_u32<V: Visitor<'de>>(mut self, visitor: V) -> Result<V::Value, ProbeError> {
        self.ask(Kind::U32)?;
        visitor.visit_u32(0)
    }

    fn deserialize_u64<V: Visitor<'de>>(mut self, visitor: V) -> Result<V::Value, ProbeError> {
        self.ask(Kind::U64)?;
        visitor.visit_u64(0)
    }

    fn deserialize_u128<V: Visitor<'de>>(mut self, visitor: V) -> Result<V::Value, ProbeError> {
        self.ask(Kind::U128)?;
        visitor.visit_u128(0)
    }

    fn deserialize_f32<V: Visitor<'de>>(mut self, visitor: V) -> Result<V::Value, ProbeError> {
        self.ask(Kind::F32)?;
        visitor.visit_f32(0.0)
    }

    fn deserialize_f64<V: Visitor<'de>>(mut self, visitor: V) -> Result<V::Value, ProbeError> {
        self.ask(Kind::F64)?;
        visitor.visit_f64(0.0)
    }

    fn deserialize_char<V: Visitor<'de>>(mut self, visitor: V) -> Result<V::Value, ProbeError> {
        self.ask(Kind::Char)?;
        visitor.visit_char('\0')
    }

    fn deserialize_str<V: Visitor<'de>>(mut self, visitor: V) -> Result<V::Value, ProbeError> {
        self.ask(Kind::Str)?;
        visitor.visit_borrowed_str("")
    }

    fn deserialize_string<V: Visitor<'de>>(mut self, visitor: V) -> Result<V::Value, ProbeError> {
        self.ask(Kind::String)?;
        visitor.visit_string(String::new())
    }

    fn deserialize_bytes<V: Visitor<'de>>(mut self, visitor: V) -> Result<V::Value, ProbeError> {
        self.ask(Kind::Bytes)?;
        visitor.visit_borrowed_bytes(&[])
    }

    fn deserialize_byte_buf<V: Visitor<'de>>(mut self, visitor: V) -> Result<V::Value, ProbeError> {
        self.ask(Kind::ByteBuf)?;
        visitor.visit_byte_buf(Vec::new())
    }

    fn deserialize_option<V: Visitor<'de>>(mut self, visitor: V) -> Result<V::Value, ProbeError> {
        self.ask(Kind::Option)?;
        visitor.visit_none()
    }

    fn deserialize_unit<V: Visitor<'de>>(mut self, visitor: V) -> Result<V::Value, ProbeError> {
        self.ask(Kind::Unit)?;
        visitor.visit_unit()
    }

    fn deserialize_unit_struct<V: Visitor<'de>>(
        self,
        _name: &'static str,
        _visitor: V,
    ) -> Result<V::Value, ProbeError> {
        self.refuse(Kind::UnitStruct)
    }

    fn deserialize_newtype_struct<V: Visitor<'de>>(
        self,
        _name: &'static str,
        _visitor: V,
    ) -> Result<V::Value, ProbeError> {
        self.refuse(Kind::NewtypeStruct)
    }

    fn deserialize_seq<V: Visitor<'de>>(mut self, visitor: V) -> Result<V::Value, ProbeError> {
        self.ask(Kind::Sequence)?;
        visitor.visit_seq(Nothing)
    }

    fn deserialize_tuple<V: Visitor<'de>>(
        self,
        _len: usize,
        _visitor: V,
    ) -> Result<V::Value, ProbeError> {
        self.refuse(Kind::Tuple)
    }

    fn deserialize_tuple_struct<V: Visitor<'de>>(
        self,
        _name: &'static str,
        _len: usize,
        _visitor: V,
    ) -> Result<V::Value, ProbeError> {
        self.refuse(Kind::TupleStruct)
    }

    fn deserialize_map<V: Visitor<'de>>(mut self, visitor: V) -> Result<V::Value, ProbeError> {
        self.ask(Kind::Mapping)?;
        visitor.visit_map(Nothing)
    }

    fn deserialize_struct<V: Visitor<'de>>(
        self,
        name: &'static str,
        fields: &'static [&'static str],
        visitor: V,
    ) -> Result<V::Value, ProbeError> {
        self.requests.push(Request::Struct {
            name: name.to_string(),
            fields: fields.iter().map(|field| field.to_string()).collect(),
        });
        let value =
            visitor.visit_seq(Fields { requests: &mut *self.requests, left: fields.len() })?;
        self.requests.push(Request::EndStruct);
        Ok(value)
    }

    fn deserialize_enum<V: Visitor<'de>>(
        self,
        _name: &'static str,
        _variants: &'static [&'static str],
        _visitor: V,
    ) -> Result<V::Value, ProbeError> {
        self.refuse(Kind::Enum)
    }

    fn deserialize_identifier<V: Visitor<'de>>(self, _visitor: V) -> Result<V::Value, ProbeError> {
        self.refuse(Kind::Identifier)
    }

    fn deserialize_ignored_any<V: Visitor<'de>>(self, _visitor: V) -> Result<V::Value, ProbeError> {
        self.refuse(Kind::IgnoredAny)
    }

    fn is_human_readable(&self) -> bool {
        false
    }
}

fn requests_of<'de, T: Deserialize<'de>>() -> Vec<Request> {
    let mut requests = Vec::new();
    let _ = T::deserialize(Probe { requests: &mut requests });
    requests
}

fn record_schema<'de, T: Deserialize<'de>>() -> Result<Schema, RecorderError> {
    dynschema::schema_recorder::record_schema(&requests_of::<T>())
}

fn strukt(name: &str, fields: Vec<(&str, Schema)>) -> Schema {
    Schema::Struct(StructSchema::new(
        name.to_string(),
        fields.into_iter().map(|(n, s)| (n.to_string(), s)).collect(),
    ))
}

fn value_struct(name: &str, fields: Vec<(&str, DynamicValue)>) -> DynamicValue {
    DynamicValue::Struct {
        name: name.to_string(),
        fields: fields.into_iter().map(|(n, v)| (n.to_string(), v)).collect(),
    }
}

struct A {
    a: i32,
    b: B,
}

struct B {
    c: i32,
}

impl Serialize for A {
    fn serialize<S: Serializer>(&self, serializer: S) -> Result<S::Ok, S::Error> {
        let mut state = serializer.serialize_struct("A", 2)?;
        state.serialize_field("a", &self.a)?;
        state.serialize_field("b", &self.b)?;
        state.end()
    }
}

impl Serialize for B {
    fn serialize<S: Serializer>(&self, serializer: S) -> Result<S::Ok, S::Error> {
        let mut state = serializer.serialize_struct("B", 1)?;
        state.serialize_field("c", &self.c)?;
        state.end()
    }
}

struct VisitA;

impl<'de> Visitor<'de> for VisitA {
    type Value = A;

    fn expecting(&self, f: &mut fmt::Formatter<'_>) -> fmt::Result {
        f.write_str("struct A")
    }

    fn visit_seq<S: SeqAccess<'de>>(self, mut seq: S) -> Result<A, S::Error> {
        let a = seq.next_element()?.ok_or_else(|| de::Error::invalid_length(0, &self))?;
        let b = seq.next_element()?.ok_or_else(|| de::Error::invalid_length(1, &self))?;
        Ok(A { a, b })
    }
}

impl<'de> Deserialize<'de> for A {
    fn deserialize<D: Deserializer<'de>>(deserializer: D) -> Result<A, D::Error> {
        deserializer.deserialize_struct("A", &["a", "b"], VisitA)
    }
}

struct VisitB;

impl<'de> Visitor<'de> for VisitB {
    type Value = B;

    fn expecting(&self, f: &mut fmt::Formatter<'_>) -> fmt::Result {
        f.write_str("struct B")
    }

    fn visit_seq<S: SeqAccess<'de>>(self, mut seq: S) -> Result<B, S::Error> {
        let c = seq.next_element()?.ok_or_else(|| de::Error::invalid_length(0, &self))?;
        Ok(B { c })
    }
}

impl<'de> Deserialize<'de> for B {
    fn deserialize<D: Deserializer<'de>>(deserializer: D) -> Result<B, D::Error> {
        deserializer.deserialize_struct("B", &["c"], VisitB)
    }
}

#[test]
fn it_works() {
    let schema = record_schema::<A>().unwrap();
    assert_eq!(
        schema,
        strukt("A", vec![("a", Schema::I32), ("b", strukt("B", vec![("c", Schema::I32)]))])
    );

    let instance = A { a: 99, b: B { c: 23480 } };

    let bytes = bincode::serialize(&instance).unwrap();

    let dynamic = bincode_read_dynamic(schema, &Schema::Unit, &bytes).unwrap();

    assert_eq!(
        dynamic,
        value_struct(
            "A",
            vec![
                ("a", DynamicValue::I32(99)),
                ("b", value_struct("B", vec![("c", DynamicValue::I32(23480))])),
            ],
        )
    );
}

#[test]
fn requests_of_a_struct_come_in_field_order() {
    assert_eq!(
        requests_of::<A>(),
        vec![
            Request::Struct {
                name: "A".to_string(),
                fields: vec!["a".to_string(), "b".to_string()]
            },
            Request::Value(Kind::I32),
            Request::Struct { name: "B".to_string(), fields: vec!["c".to_string()] },
            Request::Value(Kind::I32),
            Request::EndStruct,
            Request::EndStruct,
        ]
    );
}

#[test]
fn recording_a_type_twice_gives_the_same_schema() {
    assert_eq!(record_schema::<A>(), record_schema::<A>());
    assert_eq!(
        record_schema::<std::time::Duration>(),
        record_schema::<std::time::Duration>()
    );
}

#[test]
fn primitive_types_record_their_kind() {
    assert_eq!(record_schema::<bool>(), Ok(Schema::Bool));
    assert_eq!(record_schema::<i8>(), Ok(Schema::I8));
    assert_eq!(record_schema::<i16>(), Ok(Schema::I16));
    assert_eq!(record_schema::<i32>(), Ok(Schema::I32));
    assert_eq!(record_schema::<i64>(), Ok(Schema::I64));
    assert_eq!(record_schema::<i128>(), Ok(Schema::I128));
    assert_eq!(record_schema::<u8>(), Ok(Schema::U8));
    assert_eq!(record_schema::<u16>(), Ok(Schema::U16));
    assert_eq!(record_schema::<u32>(), Ok(Schema::U32));
    assert_eq!(record_schema::<u64>(), Ok(Schema::U64));
    assert_eq!(record_schema::<u128>(), Ok(Schema::U128));
    assert_eq!(record_schema::<f32>(), Ok(Schema::F32));
    assert_eq!(record_schema::<f64>(), Ok(Schema::F64));
    assert_eq!(record_schema::<char>(), Ok(Schema::Char));
    assert_eq!(record_schema::<()>(), Ok(Schema::Unit));
    assert_eq!(record_schema::<String>(), Ok(Schema::String));
    assert_eq!(record_schema::<&str>(), Ok(Schema::Str));
    assert_eq!(record_schema::<&[u8]>(), Ok(Schema::Bytes));
}

#[test]
fn containers_record_that_they_are_there() {
    assert_eq!(record_schema::<Vec<u32>>(), Ok(Schema::Sequence));
    assert_eq!(record_schema::<Option<String>>(), Ok(Schema::Option));
    assert_eq!(record_schema::<std::collections::HashMap<String, u8>>(), Ok(Schema::Mapping));
    assert_eq!(record_schema::<std::collections::BTreeMap<String, u8>>(), Ok(Schema::Mapping));
}

#[test]
fn kinds_without_a_shape_are_refused() {
    assert_eq!(
        record_schema::<(u8, u8)>(),
        Err(RecorderError::Unsupported("tuple".to_string()))
    );
    assert_eq!(
        record_schema::<[u8; 4]>(),
        Err(RecorderError::Unsupported("tuple".to_string()))
    );
    assert_eq!(
        record_schema::<Result<u8, u8>>(),
        Err(RecorderError::Unsupported("enum".to_string()))
    );
    assert_eq!(
        record_schema::<std::marker::PhantomData<u8>>(),
        Err(RecorderError::Unsupported("unit struct".to_string()))
    );
    assert_eq!(
        record_schema::<std::num::Wrapping<u8>>(),
        Ok(Schema::U8)
    );
}

#[test]
fn struct_of_the_standard_library_round_trips() {
    let schema = record_schema::<std::time::Duration>().unwrap();
    assert_eq!(schema, strukt("Duration", vec![("secs", Schema::U64), ("nanos", Schema::U32)]));
    let instance = std::time::Duration::new(86_400, 123_456_789);
    let bytes = bincode::serialize(&instance).unwrap();
    assert_eq!(
        bincode_read_dynamic(schema, &Schema::Unit, &bytes),
        Ok(value_struct(
            "Duration",
            vec![("secs", DynamicValue::U64(86_400)), ("nanos", DynamicValue::U32(123_456_789))]
        ))
    );
}
