//! The wire encoding of a value, as the model of what an encoder writes, and
//! the values that a schema describes.

use crate::codec::{fits_signed, fits_unsigned, le_bytes, twos_complement_of};
use crate::schema::SchemaView;
use crate::value::ValueView;
use vstd::prelude::*;
use vstd::utf8::*;

verus! {

/// Whether no key occurs twice among the entries of a map.
pub open spec fn distinct_keys(entries: Seq<(Seq<char>, ValueView)>) -> bool {
    forall|i: int, j: int|
        0 <= i < j < entries.len() ==> (#[trigger] entries[i]).0 != (#[trigger] entries[j]).0
}

/// Whether a value is one that `schema` describes, where sequences, maps and
/// options hold values that `nested` describes: it has the kind of the
/// schema, a struct has the name and the fields of the schema in its order, a
/// number fits the width of its kind, a count fits eight bytes, and no key
/// occurs twice in a map.
pub open spec fn conforms(value: ValueView, schema: SchemaView, nested: SchemaView) -> bool
    decreases value,
{
    match value {
        ValueView::Unit => schema is Unit,
        ValueView::U8(n) => schema is U8 && fits_unsigned(n, 1),
        ValueView::U16(n) => schema is U16 && fits_unsigned(n, 2),
        ValueView::U32(n) => schema is U32 && fits_unsigned(n, 4),
        ValueView::U64(n) => schema is U64 && fits_unsigned(n, 8),
        ValueView::U128(n) => schema is U128 && fits_unsigned(n, 16),
        ValueView::I8(n) => schema is I8 && fits_signed(n, 1),
        ValueView::I16(n) => schema is I16 && fits_signed(n, 2),
        ValueView::I32(n) => schema is I32 && fits_signed(n, 4),
        ValueView::I64(n) => schema is I64 && fits_signed(n, 8),
        ValueView::I128(n) => schema is I128 && fits_signed(n, 16),
        ValueView::F32(bits) => schema is F32 && fits_unsigned(bits, 4),
        ValueView::F64(bits) => schema is F64 && fits_unsigned(bits, 8),
        ValueView::Bool(_) => schema is Bool,
        ValueView::Char(_) => schema is Char,
        ValueView::Str(t) => schema is Str && fits_unsigned(encode_utf8(t).len() as int, 8),
        ValueView::String(t) => schema is String && fits_unsigned(encode_utf8(t).len() as int, 8),
        ValueView::Bytes(raw) => schema is Bytes && fits_unsigned(raw.len() as int, 8),
        ValueView::ByteBuf(raw) => schema is ByteBuf && fits_unsigned(raw.len() as int, 8),
        ValueView::Option(None) => schema is Option,
        ValueView::Option(Some(inner)) => schema is Option && conforms(*inner, nested, nested),
        ValueView::Sequence(values) => {
            &&& schema is Sequence
            &&& fits_unsigned(values.len() as int, 8)
            &&& forall|i: int| 0 <= i < values.len() ==> conforms(#[trigger] values[i], nested, nested)
        },
        ValueView::Mapping(entries) => {
            &&& schema is Mapping
            &&& fits_unsigned(entries.len() as int, 8)
            &&& distinct_keys(entries)
            &&& forall|i: int|
                0 <= i < entries.len() ==> fits_unsigned(
                    encode_utf8((#[trigger] entries[i]).0).len() as int,
                    8,
                ) && conforms(entries[i].1, nested, nested)
        },
        ValueView::Struct { name, fields } => {
            &&& schema matches SchemaView::Struct { name: schema_name, fields: shapes }
            &&& name == schema_name
            &&& fields.len() == shapes.len()
            &&& forall|i: int|
                0 <= i < fields.len() ==> (#[trigger] fields[i]).0 == shapes[i].0 && conforms(
                    fields[i].1,
                    shapes[i].1,
                    nested,
                )
        },
    }
}

/// The bytes of a string on the wire: its length in bytes, then its UTF-8
/// encoding.
pub open spec fn text_encoding(t: Seq<char>) -> Seq<u8> {
    le_bytes(encode_utf8(t).len(), 8) + encode_utf8(t)
}

/// The bytes that stand for a value on the wire.
pub open spec fn encoding(value: ValueView) -> Seq<u8>
    decreases value, 0nat,
{
    match value {
        ValueView::Unit => Seq::empty(),
        ValueView::U8(n) => le_bytes(n as nat, 1),
        ValueView::U16(n) => le_bytes(n as nat, 2),
        ValueView::U32(n) => le_bytes(n as nat, 4),
        ValueView::U64(n) => le_bytes(n as nat, 8),
        ValueView::U128(n) => le_bytes(n as nat, 16),
        ValueView::I8(n) => le_bytes(twos_complement_of(n, 1), 1),
        ValueView::I16(n) => le_bytes(twos_complement_of(n, 2), 2),
        ValueView::I32(n) => le_bytes(twos_complement_of(n, 4), 4),
        ValueView::I64(n) => le_bytes(twos_complement_of(n, 8), 8),
        ValueView::I128(n) => le_bytes(twos_complement_of(n, 16), 16),
        ValueView::F32(bits) => le_bytes(bits as nat, 4),
        ValueView::F64(bits) => le_bytes(bits as nat, 8),
        ValueView::Bool(b) => if b {
            seq![1u8]
        } else {
            seq![0u8]
        },
        ValueView::Char(c) => encode_scalar(c as u32),
        ValueView::Str(t) => text_encoding(t),
        ValueView::String(t) => text_encoding(t),
        ValueView::Bytes(raw) => le_bytes(raw.len(), 8) + raw,
        ValueView::ByteBuf(raw) => le_bytes(raw.len(), 8) + raw,
        ValueView::Option(None) => seq![0u8],
        ValueView::Option(Some(inner)) => seq![1u8] + encoding(*inner),
        ValueView::Sequence(values) => le_bytes(values.len(), 8) + elements_encoding(values, 0),
        ValueView::Mapping(entries) => le_bytes(entries.len(), 8) + entries_encoding(entries, 0),
        ValueView::Struct { name, fields } => fields_encoding(fields, 0),
    }
}

/// The bytes of the elements from the `from`-th on, one after another.
pub open spec fn elements_encoding(values: Seq<ValueView>, from: nat) -> Seq<u8>
    decreases values, values.len() - from,
{
    if from >= values.len() {
        Seq::empty()
    } else {
        encoding(values[from as int]) + elements_encoding(values, from + 1)
    }
}

/// The bytes of the entries from the `from`-th on, one after another: each
/// its key, then its value.
pub open spec fn entries_encoding(entries: Seq<(Seq<char>, ValueView)>, from: nat) -> Seq<u8>
    decreases entries, entries.len() - from,
{
    if from >= entries.len() {
        Seq::empty()
    } else {
        text_encoding(entries[from as int].0) + encoding(entries[from as int].1) + entries_encoding(
            entries,
            from + 1,
        )
    }
}

/// The bytes of the fields from the `from`-th on, one after another. The
/// names are not written.
pub open spec fn fields_encoding(fields: Seq<(Seq<char>, ValueView)>, from: nat) -> Seq<u8>
    decreases fields, fields.len() - from,
{
    if from >= fields.len() {
        Seq::empty()
    } else {
        encoding(fields[from as int].1) + fields_encoding(fields, from + 1)
    }
}

} // verus!
