//! The dynamic value model: what a decode call hands back.

use crate::schema::{fields_view, Schema, SchemaView, StructSchema};
use vstd::prelude::*;
use vstd::slice::slice_to_vec;

verus! {

/// A decoded value, shaped like the [`Schema`](crate::schema::Schema) that
/// guided the decoding and holding the data that was read.
///
/// A floating-point number is held as the bits of its IEEE 754
/// representation. A map is held as its entries, in the order in which they
/// were read; no key occurs twice in it.
#[derive(Debug, PartialEq, Eq)]
pub enum DynamicValue {
    Str(String),
    Sequence(Vec<DynamicValue>),
    Mapping(Vec<(String, DynamicValue)>),
    I8(i8),
    U8(u8),
    I16(i16),
    U16(u16),
    I32(i32),
    U32(u32),
    I64(i64),
    U64(u64),
    I128(i128),
    U128(u128),
    F32(u32),
    F64(u64),
    Bool(bool),
    Char(char),
    Unit(()),
    Bytes(Vec<u8>),
    Option(Option<Box<DynamicValue>>),
    ByteBuf(Vec<u8>),
    String(String),
    Struct { name: String, fields: Vec<(String, DynamicValue)> },
}

/// The mathematical model of a [`DynamicValue`].
pub ghost enum ValueView {
    Str(Seq<char>),
    Sequence(Seq<ValueView>),
    Mapping(Seq<(Seq<char>, ValueView)>),
    I8(int),
    U8(int),
    I16(int),
    U16(int),
    I32(int),
    U32(int),
    I64(int),
    U64(int),
    I128(int),
    U128(int),
    F32(int),
    F64(int),
    Bool(bool),
    Char(char),
    Unit,
    Bytes(Seq<u8>),
    Option(Option<Box<ValueView>>),
    ByteBuf(Seq<u8>),
    String(Seq<char>),
    Struct { name: Seq<char>, fields: Seq<(Seq<char>, ValueView)> },
}

/// The model of a list of values.
pub open spec fn values_view(values: Seq<DynamicValue>) -> Seq<ValueView>
    decreases values,
{
    Seq::new(
        values.len(),
        |i: int|
            if 0 <= i < values.len() {
                value_view(&values[i])
            } else {
                ValueView::Unit
            },
    )
}

/// The model of a list of named values.
pub open spec fn entries_view(entries: Seq<(String, DynamicValue)>) -> Seq<(Seq<char>, ValueView)>
    decreases entries,
{
    Seq::new(
        entries.len(),
        |i: int|
            if 0 <= i < entries.len() {
                (entries[i].0@, value_view(&entries[i].1))
            } else {
                (Seq::empty(), ValueView::Unit)
            },
    )
}

/// The model of a value.
pub open spec fn value_view(value: &DynamicValue) -> ValueView
    decreases value,
{
    match value {
        DynamicValue::Str(s) => ValueView::Str(s@),
        DynamicValue::Sequence(values) => ValueView::Sequence(values_view(values@)),
        DynamicValue::Mapping(entries) => ValueView::Mapping(entries_view(entries@)),
        DynamicValue::I8(v) => ValueView::I8(*v as int),
        DynamicValue::U8(v) => ValueView::U8(*v as int),
        DynamicValue::I16(v) => ValueView::I16(*v as int),
        DynamicValue::U16(v) => ValueView::U16(*v as int),
        DynamicValue::I32(v) => ValueView::I32(*v as int),
        DynamicValue::U32(v) => ValueView::U32(*v as int),
        DynamicValue::I64(v) => ValueView::I64(*v as int),
        DynamicValue::U64(v) => ValueView::U64(*v as int),
        DynamicValue::I128(v) => ValueView::I128(*v as int),
        DynamicValue::U128(v) => ValueView::U128(*v as int),
        DynamicValue::F32(bits) => ValueView::F32(*bits as int),
        DynamicValue::F64(bits) => ValueView::F64(*bits as int),
        DynamicValue::Bool(b) => ValueView::Bool(*b),
        DynamicValue::Char(c) => ValueView::Char(*c),
        DynamicValue::Unit(_) => ValueView::Unit,
        DynamicValue::Bytes(bytes) => ValueView::Bytes(bytes@),
        DynamicValue::Option(None) => ValueView::Option(None),
        DynamicValue::Option(Some(inner)) => ValueView::Option(Some(Box::new(value_view(&**inner)))),
        DynamicValue::ByteBuf(bytes) => ValueView::ByteBuf(bytes@),
        DynamicValue::String(s) => ValueView::String(s@),
        DynamicValue::Struct { name, fields } => ValueView::Struct {
            name: name@,
            fields: entries_view(fields@),
        },
    }
}

impl View for DynamicValue {
    type V = ValueView;

    open spec fn view(&self) -> ValueView {
        value_view(self)
    }
}

/// The shape of a value: its kind, and for a struct its name and the shapes
/// of its fields in order.
pub open spec fn shape_of(value: ValueView) -> SchemaView
    decreases value,
{
    match value {
        ValueView::Str(_) => SchemaView::Str,
        ValueView::Sequence(_) => SchemaView::Sequence,
        ValueView::Mapping(_) => SchemaView::Mapping,
        ValueView::I8(_) => SchemaView::I8,
        ValueView::U8(_) => SchemaView::U8,
        ValueView::I16(_) => SchemaView::I16,
        ValueView::U16(_) => SchemaView::U16,
        ValueView::I32(_) => SchemaView::I32,
        ValueView::U32(_) => SchemaView::U32,
        ValueView::I64(_) => SchemaView::I64,
        ValueView::U64(_) => SchemaView::U64,
        ValueView::I128(_) => SchemaView::I128,
        ValueView::U128(_) => SchemaView::U128,
        ValueView::F32(_) => SchemaView::F32,
        ValueView::F64(_) => SchemaView::F64,
        ValueView::Bool(_) => SchemaView::Bool,
        ValueView::Char(_) => SchemaView::Char,
        ValueView::Unit => SchemaView::Unit,
        ValueView::Bytes(_) => SchemaView::Bytes,
        ValueView::Option(_) => SchemaView::Option,
        ValueView::ByteBuf(_) => SchemaView::ByteBuf,
        ValueView::String(_) => SchemaView::String,
        ValueView::Struct { name, fields } => SchemaView::Struct {
            name,
            fields: entries_shape(fields),
        },
    }
}

/// The shapes of a list of named values, under their names.
pub open spec fn entries_shape(entries: Seq<(Seq<char>, ValueView)>) -> Seq<(Seq<char>, SchemaView)>
    decreases entries,
{
    Seq::new(
        entries.len(),
        |i: int|
            if 0 <= i < entries.len() {
                (entries[i].0, shape_of(entries[i].1))
            } else {
                (Seq::empty(), SchemaView::Unit)
            },
    )
}

/// A copy of a list of values, value by value.
fn clone_values(values: &Vec<DynamicValue>) -> (copy: Vec<DynamicValue>)
    ensures
        values_view(copy@) == values_view(values@),
    decreases values,
{
    let mut copy: Vec<DynamicValue> = Vec::new();
    let mut i: usize = 0;
    while i < values.len()
        invariant
            i <= values.len(),
            copy.len() == i,
            forall|j: int| 0 <= j < i ==> (#[trigger] copy@[j])@ == values@[j]@,
        decreases values.len() - i,
    {
        copy.push(values[i].clone());
        i += 1;
    }
    assert(values_view(copy@) =~= values_view(values@));
    copy
}

/// A copy of a list of named values, entry by entry.
fn clone_entries(entries: &Vec<(String, DynamicValue)>) -> (copy: Vec<(String, DynamicValue)>)
    ensures
        entries_view(copy@) == entries_view(entries@),
    decreases entries,
{
    let mut copy: Vec<(String, DynamicValue)> = Vec::new();
    let mut i: usize = 0;
    while i < entries.len()
        invariant
            i <= entries.len(),
            copy.len() == i,
            forall|j: int|
                0 <= j < i ==> (#[trigger] copy@[j]).0@ == entries@[j].0@ && copy@[j].1@
                    == entries@[j].1@,
        decreases entries.len() - i,
    {
        let entry = &entries[i];
        copy.push((entry.0.clone(), entry.1.clone()));
        i += 1;
    }
    assert(entries_view(copy@) =~= entries_view(entries@));
    copy
}

impl Clone for DynamicValue {
    fn clone(&self) -> (copy: DynamicValue)
        ensures
            copy@ == self@,
        decreases self,
    {
        match self {
            DynamicValue::Str(s) => DynamicValue::Str(s.clone()),
            DynamicValue::Sequence(values) => DynamicValue::Sequence(clone_values(values)),
            DynamicValue::Mapping(entries) => DynamicValue::Mapping(clone_entries(entries)),
            DynamicValue::I8(v) => DynamicValue::I8(*v),
            DynamicValue::U8(v) => DynamicValue::U8(*v),
            DynamicValue::I16(v) => DynamicValue::I16(*v),
            DynamicValue::U16(v) => DynamicValue::U16(*v),
            DynamicValue::I32(v) => DynamicValue::I32(*v),
            DynamicValue::U32(v) => DynamicValue::U32(*v),
            DynamicValue::I64(v) => DynamicValue::I64(*v),
            DynamicValue::U64(v) => DynamicValue::U64(*v),
            DynamicValue::I128(v) => DynamicValue::I128(*v),
            DynamicValue::U128(v) => DynamicValue::U128(*v),
            DynamicValue::F32(bits) => DynamicValue::F32(*bits),
            DynamicValue::F64(bits) => DynamicValue::F64(*bits),
            DynamicValue::Bool(b) => DynamicValue::Bool(*b),
            DynamicValue::Char(c) => DynamicValue::Char(*c),
            DynamicValue::Unit(_) => DynamicValue::Unit(()),
            DynamicValue::Bytes(bytes) => DynamicValue::Bytes(slice_to_vec(bytes.as_slice())),
            DynamicValue::Option(None) => DynamicValue::Option(None),
            DynamicValue::Option(Some(inner)) => {
                let copy: DynamicValue = (**inner).clone();
                DynamicValue::Option(Some(Box::new(copy)))
            },
            DynamicValue::ByteBuf(bytes) => DynamicValue::ByteBuf(slice_to_vec(bytes.as_slice())),
            DynamicValue::String(s) => DynamicValue::String(s.clone()),
            DynamicValue::Struct { name, fields } => DynamicValue::Struct {
                name: name.clone(),
                fields: clone_entries(fields),
            },
        }
    }
}

/// The shapes of the fields of a struct value, under their names.
fn shape_fields(fields: &Vec<(String, DynamicValue)>) -> (shapes: Vec<(String, Schema)>)
    ensures
        fields_view(shapes@) == entries_shape(entries_view(fields@)),
    decreases fields,
{
    let mut shapes: Vec<(String, Schema)> = Vec::new();
    let mut i: usize = 0;
    while i < fields.len()
        invariant
            i <= fields.len(),
            shapes.len() == i,
            forall|j: int|
                0 <= j < i ==> (#[trigger] shapes@[j]).0@ == fields@[j].0@ && shapes@[j].1@
                    == shape_of(fields@[j].1@),
        decreases fields.len() - i,
    {
        let field = &fields[i];
        shapes.push((field.0.clone(), field.1.shape()));
        i += 1;
    }
    assert(fields_view(shapes@) =~= entries_shape(entries_view(fields@)));
    shapes
}

impl DynamicValue {
    /// The shape of this value: its kind, and for a struct its name and the
    /// shapes of its fields under their names, in order.
    pub fn shape(&self) -> (schema: Schema)
        ensures
            schema@ == shape_of(self@),
        decreases self,
    {
        match self {
            DynamicValue::Str(_) => Schema::Str,
            DynamicValue::Sequence(_) => Schema::Sequence,
            DynamicValue::Mapping(_) => Schema::Mapping,
            DynamicValue::I8(_) => Schema::I8,
            DynamicValue::U8(_) => Schema::U8,
            DynamicValue::I16(_) => Schema::I16,
            DynamicValue::U16(_) => Schema::U16,
            DynamicValue::I32(_) => Schema::I32,
            DynamicValue::U32(_) => Schema::U32,
            DynamicValue::I64(_) => Schema::I64,
            DynamicValue::U64(_) => Schema::U64,
            DynamicValue::I128(_) => Schema::I128,
            DynamicValue::U128(_) => Schema::U128,
            DynamicValue::F32(_) => Schema::F32,
            DynamicValue::F64(_) => Schema::F64,
            DynamicValue::Bool(_) => Schema::Bool,
            DynamicValue::Char(_) => Schema::Char,
            DynamicValue::Unit(_) => Schema::Unit,
            DynamicValue::Bytes(_) => Schema::Bytes,
            DynamicValue::Option(_) => Schema::Option,
            DynamicValue::ByteBuf(_) => Schema::ByteBuf,
            DynamicValue::String(_) => Schema::String,
            DynamicValue::Struct { name, fields } => Schema::Struct(
                StructSchema { name: name.clone(), fields: shape_fields(fields) },
            ),
        }
    }
}

} // verus!
