//! The schema-driven decoder: a schema and a byte cursor walked in lock-step.
//!
//! The wire format carries no tags and no names. What the bytes at a position
//! mean follows from the schema alone: a primitive takes the bytes that its
//! kind reserves, a struct is its fields back to back in schema order, a
//! sequence and a map are a count of eight bytes followed by their items, and
//! an option is one byte, 0 or 1, followed by the payload where it is 1.
//!
//! A schema does not say what a sequence, a map or an option holds. The
//! caller supplies that shape with each call, as `nested`: the elements of
//! every sequence, the values of every map and the payload of every option met
//! during the call have it. The keys of a map are strings.

use crate::codec::{
    codec_bool, codec_char, codec_i128, codec_i16, codec_i32, codec_i64, codec_i8, codec_string,
    codec_u128, codec_u16, codec_u32, codec_u64, codec_u8, le_nat, twos_complement, wire_bool,
    wire_char,
};
use crate::error::{DecodeError, IoCause};
use crate::schema::{fields_view, Schema, SchemaView};
use crate::value::{entries_view, values_view, DynamicValue, ValueView};
use vstd::prelude::*;
use vstd::slice::{slice_subrange, slice_to_vec};
use vstd::utf8::*;

verus! {

/// How many bytes the encoding of a character takes, told from its first
/// byte; 0 where no character starts with that byte.
pub open spec fn char_width(lead: u8) -> nat {
    if lead <= 0x7f {
        1
    } else if 0xc2 <= lead <= 0xdf {
        2
    } else if 0xe0 <= lead <= 0xef {
        3
    } else if 0xf0 <= lead <= 0xf4 {
        4
    } else {
        0
    }
}

/// The least number of bytes that a value of this shape takes on the wire.
pub open spec fn min_width(schema: SchemaView) -> nat
    decreases schema,
{
    match schema {
        SchemaView::Unit => 0,
        SchemaView::I8 | SchemaView::U8 | SchemaView::Bool | SchemaView::Char | SchemaView::Option => 1,
        SchemaView::I16 | SchemaView::U16 => 2,
        SchemaView::I32 | SchemaView::U32 | SchemaView::F32 => 4,
        SchemaView::I64 | SchemaView::U64 | SchemaView::F64 => 8,
        SchemaView::I128 | SchemaView::U128 => 16,
        SchemaView::Str | SchemaView::String | SchemaView::Bytes | SchemaView::ByteBuf => 8,
        SchemaView::Sequence | SchemaView::Mapping => 8,
        SchemaView::Struct { name, fields } => fields_min_width(fields, 0),
    }
}

/// The least number of bytes that the fields from the `from`-th on take.
pub open spec fn fields_min_width(fields: Seq<(Seq<char>, SchemaView)>, from: nat) -> nat
    decreases fields, fields.len() - from,
{
    if from >= fields.len() {
        0
    } else {
        min_width(fields[from as int].1) + fields_min_width(fields, from + 1)
    }
}

/// Whether `key` stands at index `i` of the entries and nowhere before it.
pub open spec fn first_at(entries: Seq<(Seq<char>, ValueView)>, key: Seq<char>, i: int) -> bool {
    &&& 0 <= i < entries.len()
    &&& entries[i].0 == key
    &&& forall|j: int| 0 <= j < i ==> (#[trigger] entries[j]).0 != key
}

/// The entries of a map after `key` was given `value`: the entry that had the
/// key holds the new value in its place; where none had it, a new entry
/// stands at the end.
pub open spec fn put(entries: Seq<(Seq<char>, ValueView)>, key: Seq<char>, value: ValueView) -> Seq<
    (Seq<char>, ValueView),
> {
    if exists|i: int| first_at(entries, key, i) {
        entries.update(choose|i: int| first_at(entries, key, i), (key, value))
    } else {
        entries.push((key, value))
    }
}

/// The `width` bytes that stand at `at`.
pub open spec fn window(bytes: Seq<u8>, at: nat, width: nat) -> Seq<u8> {
    bytes.subrange(at as int, (at + width) as int)
}

/// An unsigned integer of `width` bytes at `at`, and where it ends.
pub open spec fn unsigned(bytes: Seq<u8>, at: nat, width: nat) -> Result<(int, nat), DecodeError> {
    if bytes.len() < at + width {
        Err(DecodeError::UnexpectedEof)
    } else {
        Ok((le_nat(window(bytes, at, width)) as int, at + width))
    }
}

/// A signed integer of `width` bytes at `at`, and where it ends.
pub open spec fn signed(bytes: Seq<u8>, at: nat, width: nat) -> Result<(int, nat), DecodeError> {
    if bytes.len() < at + width {
        Err(DecodeError::UnexpectedEof)
    } else {
        Ok((twos_complement(le_nat(window(bytes, at, width)), width), at + width))
    }
}

/// A boolean at `at`, and where it ends.
pub open spec fn boolean(bytes: Seq<u8>, at: nat) -> Result<(bool, nat), DecodeError> {
    if bytes.len() < at + 1 {
        Err(DecodeError::UnexpectedEof)
    } else {
        match wire_bool(window(bytes, at, 1)) {
            Some(b) => Ok((b, at + 1)),
            None => Err(DecodeError::Io(IoCause::InvalidBool)),
        }
    }
}

/// A character at `at`, and where it ends. Its first byte tells how many
/// bytes it takes.
pub open spec fn character(bytes: Seq<u8>, at: nat) -> Result<(char, nat), DecodeError> {
    if bytes.len() < at + 1 {
        Err(DecodeError::UnexpectedEof)
    } else if char_width(bytes[at as int]) == 0 {
        Err(DecodeError::Io(IoCause::InvalidChar))
    } else if bytes.len() < at + char_width(bytes[at as int]) {
        Err(DecodeError::UnexpectedEof)
    } else {
        match wire_char(window(bytes, at, char_width(bytes[at as int]))) {
            Some(c) => Ok((c, at + char_width(bytes[at as int]))),
            None => Err(DecodeError::Io(IoCause::InvalidChar)),
        }
    }
}

/// A count at `at`, of items that take at least `unit` bytes each, and where
/// the count ends. A count that the rest of the bytes cannot hold is refused.
pub open spec fn counted(bytes: Seq<u8>, at: nat, unit: nat) -> Result<(nat, nat), DecodeError> {
    if bytes.len() < at + 8 {
        Err(DecodeError::UnexpectedEof)
    } else if le_nat(window(bytes, at, 8)) * unit > bytes.len() - (at + 8) {
        Err(DecodeError::LengthOverflow)
    } else {
        Ok((le_nat(window(bytes, at, 8)), at + 8))
    }
}

/// A run of raw bytes at `at`: a count, then so many bytes; and where it ends.
pub open spec fn blob(bytes: Seq<u8>, at: nat) -> Result<(Seq<u8>, nat), DecodeError> {
    match counted(bytes, at, 1) {
        Err(e) => Err(e),
        Ok((count, start)) => Ok((window(bytes, start, count), start + count)),
    }
}

/// A string at `at`: a run of raw bytes that is valid UTF-8; and where it
/// ends.
pub open spec fn text(bytes: Seq<u8>, at: nat) -> Result<(Seq<char>, nat), DecodeError> {
    match blob(bytes, at) {
        Err(e) => Err(e),
        Ok((raw, end)) => if valid_utf8(raw) {
            Ok((decode_utf8(raw), end))
        } else {
            Err(DecodeError::Io(IoCause::InvalidUtf8))
        },
    }
}

/// What was read, made into a value.
pub open spec fn lift<A>(
    read: Result<(A, nat), DecodeError>,
    make: spec_fn(A) -> ValueView,
) -> Result<(ValueView, nat), DecodeError> {
    match read {
        Ok((a, end)) => Ok((make(a), end)),
        Err(e) => Err(e),
    }
}

/// The value of shape `schema` that the bytes hold at `at`, and the position
/// at which it ends; or the error that reading it meets first.
///
/// A primitive takes the bytes that its kind reserves. An option is one byte,
/// 0 or 1, and its payload where the byte is 1. A sequence and a map are a
/// count and so many items. A struct is its fields, back to back. Nothing is
/// read in front of `at`.
pub open spec fn decode_value(schema: SchemaView, nested: SchemaView, bytes: Seq<u8>, at: nat) -> Result<
    (ValueView, nat),
    DecodeError,
>
    decreases bytes.len() - at, schema, 0nat,
{
    if at > bytes.len() {
        Err(DecodeError::UnexpectedEof)
    } else {
        match schema {
            SchemaView::Unit => Ok((ValueView::Unit, at)),
            SchemaView::U8 => lift(unsigned(bytes, at, 1), |n: int| ValueView::U8(n)),
            SchemaView::U16 => lift(unsigned(bytes, at, 2), |n: int| ValueView::U16(n)),
            SchemaView::U32 => lift(unsigned(bytes, at, 4), |n: int| ValueView::U32(n)),
            SchemaView::U64 => lift(unsigned(bytes, at, 8), |n: int| ValueView::U64(n)),
            SchemaView::U128 => lift(unsigned(bytes, at, 16), |n: int| ValueView::U128(n)),
            SchemaView::I8 => lift(signed(bytes, at, 1), |n: int| ValueView::I8(n)),
            SchemaView::I16 => lift(signed(bytes, at, 2), |n: int| ValueView::I16(n)),
            SchemaView::I32 => lift(signed(bytes, at, 4), |n: int| ValueView::I32(n)),
            SchemaView::I64 => lift(signed(bytes, at, 8), |n: int| ValueView::I64(n)),
            SchemaView::I128 => lift(signed(bytes, at, 16), |n: int| ValueView::I128(n)),
            SchemaView::F32 => lift(unsigned(bytes, at, 4), |n: int| ValueView::F32(n)),
            SchemaView::F64 => lift(unsigned(bytes, at, 8), |n: int| ValueView::F64(n)),
            SchemaView::Bool => lift(boolean(bytes, at), |b: bool| ValueView::Bool(b)),
            SchemaView::Char => lift(character(bytes, at), |c: char| ValueView::Char(c)),
            SchemaView::Str => lift(text(bytes, at), |t: Seq<char>| ValueView::Str(t)),
            SchemaView::String => lift(text(bytes, at), |t: Seq<char>| ValueView::String(t)),
            SchemaView::Bytes => lift(blob(bytes, at), |raw: Seq<u8>| ValueView::Bytes(raw)),
            SchemaView::ByteBuf => lift(blob(bytes, at), |raw: Seq<u8>| ValueView::ByteBuf(raw)),
            SchemaView::Option => match unsigned(bytes, at, 1) {
                Err(e) => Err(e),
                Ok((tag, start)) => if tag == 0 {
                    Ok((ValueView::Option(None), start))
                } else if tag == 1 {
                    lift(
                        decode_value(nested, nested, bytes, start),
                        |inner: ValueView| ValueView::Option(Some(Box::new(inner))),
                    )
                } else {
                    Err(DecodeError::InvalidDiscriminant)
                },
            },
            SchemaView::Sequence => match counted(bytes, at, min_width(nested)) {
                Err(e) => Err(e),
                Ok((count, start)) => lift(
                    decode_elements(nested, bytes, start, count, Seq::empty()),
                    |values: Seq<ValueView>| ValueView::Sequence(values),
                ),
            },
            SchemaView::Mapping => match counted(bytes, at, 8 + min_width(nested)) {
                Err(e) => Err(e),
                Ok((count, start)) => lift(
                    decode_entries(nested, bytes, start, count, Seq::empty()),
                    |entries: Seq<(Seq<char>, ValueView)>| ValueView::Mapping(entries),
                ),
            },
            SchemaView::Struct { name, fields } => lift(
                decode_fields(fields, nested, bytes, at, 0, Seq::empty()),
                |values: Seq<(Seq<char>, ValueView)>| ValueView::Struct { name, fields: values },
            ),
        }
    }
}

/// The fields from the `from`-th on, read one after another from `at`, each
/// from where the one before it ended, and added to `done` under their names.
///
/// A value ends within the bytes, at or behind the position where it starts,
/// so the test on `end` never fails; the definition needs it to terminate.
pub open spec fn decode_fields(
    fields: Seq<(Seq<char>, SchemaView)>,
    nested: SchemaView,
    bytes: Seq<u8>,
    at: nat,
    from: nat,
    done: Seq<(Seq<char>, ValueView)>,
) -> Result<(Seq<(Seq<char>, ValueView)>, nat), DecodeError>
    decreases bytes.len() - at, fields, fields.len() - from,
{
    if from >= fields.len() {
        Ok((done, at))
    } else {
        match decode_value(fields[from as int].1, nested, bytes, at) {
            Err(e) => Err(e),
            Ok((value, end)) => if at <= end <= bytes.len() {
                decode_fields(
                    fields,
                    nested,
                    bytes,
                    end,
                    from + 1,
                    done.push((fields[from as int].0, value)),
                )
            } else {
                Err(DecodeError::UnexpectedEof)
            },
        }
    }
}

/// `count` elements of shape `nested`, read one after another from `at` and
/// added to `done`. The test on `end` never fails, as for the fields of a
/// struct.
pub open spec fn decode_elements(
    nested: SchemaView,
    bytes: Seq<u8>,
    at: nat,
    count: nat,
    done: Seq<ValueView>,
) -> Result<(Seq<ValueView>, nat), DecodeError>
    decreases bytes.len() - at, nested, count,
{
    if count == 0 {
        Ok((done, at))
    } else {
        match decode_value(nested, nested, bytes, at) {
            Err(e) => Err(e),
            Ok((value, end)) => if at <= end <= bytes.len() {
                decode_elements(nested, bytes, end, (count - 1) as nat, done.push(value))
            } else {
                Err(DecodeError::UnexpectedEof)
            },
        }
    }
}

/// `count` entries of a map, read one after another from `at` and put into
/// `done`: each a string key and a value of shape `nested`. A key that comes
/// again replaces the value that it had. The test on `end` never fails, as
/// for the fields of a struct.
pub open spec fn decode_entries(
    nested: SchemaView,
    bytes: Seq<u8>,
    at: nat,
    count: nat,
    done: Seq<(Seq<char>, ValueView)>,
) -> Result<(Seq<(Seq<char>, ValueView)>, nat), DecodeError>
    decreases bytes.len() - at, nested, count,
{
    if count == 0 {
        Ok((done, at))
    } else {
        match text(bytes, at) {
            Err(e) => Err(e),
            Ok((key, start)) => match decode_value(nested, nested, bytes, start) {
                Err(e) => Err(e),
                Ok((value, end)) => if start <= end <= bytes.len() {
                    decode_entries(nested, bytes, end, (count - 1) as nat, put(done, key, value))
                } else {
                    Err(DecodeError::UnexpectedEof)
                },
            },
        }
    }
}

/// Whether a decode call came out as the model says: the same value ending
/// at the same position, or the same error.
pub open spec fn agrees(
    r: Result<(DynamicValue, usize), DecodeError>,
    model: Result<(ValueView, nat), DecodeError>,
) -> bool {
    match model {
        Ok((value, end)) => r is Ok && r->Ok_0.0@ == value && r->Ok_0.1 == end,
        Err(e) => r is Err && r->Err_0 == e,
    }
}

/// The `width` bytes at `pos`, where so many are left.
fn frame<'a>(bytes: &'a [u8], pos: usize, width: usize) -> (f: Option<&'a [u8]>)
    requires
        pos <= bytes@.len(),
    ensures
        bytes@.len() <= usize::MAX,
        bytes@.len() < pos + width ==> f is None,
        bytes@.len() >= pos + width ==> f is Some && f->Some_0@ == window(
            bytes@,
            pos as nat,
            width as nat,
        ),
{
    if bytes.len() - pos < width {
        None
    } else {
        Some(slice_subrange(bytes, pos, pos + width))
    }
}

/// The number of bytes that a character takes, told from its first byte.
fn char_width_of(lead: u8) -> (w: usize)
    ensures
        w == char_width(lead),
{
    if lead <= 0x7f {
        1
    } else if 0xc2 <= lead && lead <= 0xdf {
        2
    } else if 0xe0 <= lead && lead <= 0xef {
        3
    } else if 0xf0 <= lead && lead <= 0xf4 {
        4
    } else {
        0
    }
}

/// Reads an `u8` at `pos`.
fn read_u8(bytes: &[u8], pos: usize) -> (r: Result<(u8, usize), DecodeError>)
    requires
        pos <= bytes@.len(),
    ensures
        match unsigned(bytes@, pos as nat, 1) {
            Ok((n, end)) => r is Ok && r->Ok_0.0 == n && r->Ok_0.1 == end && end <= bytes@.len(),
            Err(e) => r is Err && r->Err_0 == e,
        },
{
    match frame(bytes, pos, 1) {
        None => Err(DecodeError::UnexpectedEof),
        Some(f) => {
            assert(f@.subrange(0, 1) =~= f@);
            match codec_u8(f) {
                Some(v) => Ok((v, pos + 1)),
                None => Err(DecodeError::UnexpectedEof),
            }
        },
    }
}

/// Reads a `u16` at `pos`.
fn read_u16(bytes: &[u8], pos: usize) -> (r: Result<(u16, usize), DecodeError>)
    requires
        pos <= bytes@.len(),
    ensures
        match unsigned(bytes@, pos as nat, 2) {
            Ok((n, end)) => r is Ok && r->Ok_0.0 == n && r->Ok_0.1 == end && end <= bytes@.len(),
            Err(e) => r is Err && r->Err_0 == e,
        },
{
    match frame(bytes, pos, 2) {
        None => Err(DecodeError::UnexpectedEof),
        Some(f) => {
            assert(f@.subrange(0, 2) =~= f@);
            match codec_u16(f) {
                Some(v) => Ok((v, pos + 2)),
                None => Err(DecodeError::UnexpectedEof),
            }
        },
    }
}

/// Reads a `u32` at `pos`.
fn read_u32(bytes: &[u8], pos: usize) -> (r: Result<(u32, usize), DecodeError>)
    requires
        pos <= bytes@.len(),
    ensures
        match unsigned(bytes@, pos as nat, 4) {
            Ok((n, end)) => r is Ok && r->Ok_0.0 == n && r->Ok_0.1 == end && end <= bytes@.len(),
            Err(e) => r is Err && r->Err_0 == e,
        },
{
    match frame(bytes, pos, 4) {
        None => Err(DecodeError::UnexpectedEof),
        Some(f) => {
            assert(f@.subrange(0, 4) =~= f@);
            match codec_u32(f) {
                Some(v) => Ok((v, pos + 4)),
                None => Err(DecodeError::UnexpectedEof),
            }
        },
    }
}

/// Reads a `u64` at `pos`.
fn read_u64(bytes: &[u8], pos: usize) -> (r: Result<(u64, usize), DecodeError>)
    requires
        pos <= bytes@.len(),
    ensures
        match unsigned(bytes@, pos as nat, 8) {
            Ok((n, end)) => r is Ok && r->Ok_0.0 == n && r->Ok_0.1 == end && end <= bytes@.len(),
            Err(e) => r is Err && r->Err_0 == e,
        },
{
    match frame(bytes, pos, 8) {
        None => Err(DecodeError::UnexpectedEof),
        Some(f) => {
            assert(f@.subrange(0, 8) =~= f@);
            match codec_u64(f) {
                Some(v) => Ok((v, pos + 8)),
                None => Err(DecodeError::UnexpectedEof),
            }
        },
    }
}

/// Reads a `u128` at `pos`.
fn read_u128(bytes: &[u8], pos: usize) -> (r: Result<(u128, usize), DecodeError>)
    requires
        pos <= bytes@.len(),
    ensures
        match unsigned(bytes@, pos as nat, 16) {
            Ok((n, end)) => r is Ok && r->Ok_0.0 == n && r->Ok_0.1 == end && end <= bytes@.len(),
            Err(e) => r is Err && r->Err_0 == e,
        },
{
    match frame(bytes, pos, 16) {
        None => Err(DecodeError::UnexpectedEof),
        Some(f) => {
            assert(f@.subrange(0, 16) =~= f@);
            match codec_u128(f) {
                Some(v) => Ok((v, pos + 16)),
                None => Err(DecodeError::UnexpectedEof),
            }
        },
    }
}

/// Reads an `i8` at `pos`.
fn read_i8(bytes: &[u8], pos: usize) -> (r: Result<(i8, usize), DecodeError>)
    requires
        pos <= bytes@.len(),
    ensures
        match signed(bytes@, pos as nat, 1) {
            Ok((n, end)) => r is Ok && r->Ok_0.0 == n && r->Ok_0.1 == end && end <= bytes@.len(),
            Err(e) => r is Err && r->Err_0 == e,
        },
{
    match frame(bytes, pos, 1) {
        None => Err(DecodeError::UnexpectedEof),
        Some(f) => {
            assert(f@.subrange(0, 1) =~= f@);
            match codec_i8(f) {
                Some(v) => Ok((v, pos + 1)),
                None => Err(DecodeError::UnexpectedEof),
            }
        },
    }
}

/// Reads an `i16` at `pos`.
fn read_i16(bytes: &[u8], pos: usize) -> (r: Result<(i16, usize), DecodeError>)
    requires
        pos <= bytes@.len(),
    ensures
        match signed(bytes@, pos as nat, 2) {
            Ok((n, end)) => r is Ok && r->Ok_0.0 == n && r->Ok_0.1 == end && end <= bytes@.len(),
            Err(e) => r is Err && r->Err_0 == e,
        },
{
    match frame(bytes, pos, 2) {
        None => Err(DecodeError::UnexpectedEof),
        Some(f) => {
            assert(f@.subrange(0, 2) =~= f@);
            match codec_i16(f) {
                Some(v) => Ok((v, pos + 2)),
                None => Err(DecodeError::UnexpectedEof),
            }
        },
    }
}

/// Reads an `i32` at `pos`.
fn read_i32(bytes: &[u8], pos: usize) -> (r: Result<(i32, usize), DecodeError>)
    requires
        pos <= bytes@.len(),
    ensures
        match signed(bytes@, pos as nat, 4) {
            Ok((n, end)) => r is Ok && r->Ok_0.0 == n && r->Ok_0.1 == end && end <= bytes@.len(),
            Err(e) => r is Err && r->Err_0 == e,
        },
{
    match frame(bytes, pos, 4) {
        None => Err(DecodeError::UnexpectedEof),
        Some(f) => {
            assert(f@.subrange(0, 4) =~= f@);
            match codec_i32(f) {
                Some(v) => Ok((v, pos + 4)),
                None => Err(DecodeError::UnexpectedEof),
            }
        },
    }
}

/// Reads an `i64` at `pos`.
fn read_i64(bytes: &[u8], pos: usize) -> (r: Result<(i64, usize), DecodeError>)
    requires
        pos <= bytes@.len(),
    ensures
        match signed(bytes@, pos as nat, 8) {
            Ok((n, end)) => r is Ok && r->Ok_0.0 == n && r->Ok_0.1 == end && end <= bytes@.len(),
            Err(e) => r is Err && r->Err_0 == e,
        },
{
    match frame(bytes, pos, 8) {
        None => Err(DecodeError::UnexpectedEof),
        Some(f) => {
            assert(f@.subrange(0, 8) =~= f@);
            match codec_i64(f) {
                Some(v) => Ok((v, pos + 8)),
                None => Err(DecodeError::UnexpectedEof),
            }
        },
    }
}

/// Reads an `i128` at `pos`.
fn read_i128(bytes: &[u8], pos: usize) -> (r: Result<(i128, usize), DecodeError>)
    requires
        pos <= bytes@.len(),
    ensures
        match signed(bytes@, pos as nat, 16) {
            Ok((n, end)) => r is Ok && r->Ok_0.0 == n && r->Ok_0.1 == end && end <= bytes@.len(),
            Err(e) => r is Err && r->Err_0 == e,
        },
{
    match frame(bytes, pos, 16) {
        None => Err(DecodeError::UnexpectedEof),
        Some(f) => {
            assert(f@.subrange(0, 16) =~= f@);
            match codec_i128(f) {
                Some(v) => Ok((v, pos + 16)),
                None => Err(DecodeError::UnexpectedEof),
            }
        },
    }
}

/// Reads a boolean at `pos`.
fn read_bool(bytes: &[u8], pos: usize) -> (r: Result<(bool, usize), DecodeError>)
    requires
        pos <= bytes@.len(),
    ensures
        match boolean(bytes@, pos as nat) {
            Ok((b, end)) => r is Ok && r->Ok_0.0 == b && r->Ok_0.1 == end && end <= bytes@.len(),
            Err(e) => r is Err && r->Err_0 == e,
        },
{
    match frame(bytes, pos, 1) {
        None => Err(DecodeError::UnexpectedEof),
        Some(f) => match codec_bool(f) {
            Some(b) => Ok((b, pos + 1)),
            None => Err(DecodeError::Io(IoCause::InvalidBool)),
        },
    }
}

/// Reads a character at `pos`.
fn read_char(bytes: &[u8], pos: usize) -> (r: Result<(char, usize), DecodeError>)
    requires
        pos <= bytes@.len(),
    ensures
        match character(bytes@, pos as nat) {
            Ok((c, end)) => r is Ok && r->Ok_0.0 == c && r->Ok_0.1 == end && end <= bytes@.len(),
            Err(e) => r is Err && r->Err_0 == e,
        },
{
    if bytes.len() - pos < 1 {
        return Err(DecodeError::UnexpectedEof);
    }
    let width = char_width_of(bytes[pos]);
    if width == 0 {
        return Err(DecodeError::Io(IoCause::InvalidChar));
    }
    match frame(bytes, pos, width) {
        None => Err(DecodeError::UnexpectedEof),
        Some(f) => match codec_char(f) {
            Some(c) => Ok((c, pos + width)),
            None => Err(DecodeError::Io(IoCause::InvalidChar)),
        },
    }
}

/// Reads a count of items that take at least `unit` bytes each.
fn read_count(bytes: &[u8], pos: usize, unit: u128) -> (r: Result<(u64, usize), DecodeError>)
    requires
        pos <= bytes@.len(),
    ensures
        match counted(bytes@, pos as nat, unit as nat) {
            Ok((count, start)) => r is Ok && r->Ok_0.0 == count && r->Ok_0.1 == start && start
                == pos + 8 && count * unit <= bytes@.len() - start && bytes@.len() <= usize::MAX,
            Err(e) => r is Err && r->Err_0 == e,
        },
{
    match frame(bytes, pos, 8) {
        None => Err(DecodeError::UnexpectedEof),
        Some(prefix) => {
            assert(prefix@.subrange(0, 8) =~= prefix@);
            match codec_u64(prefix) {
                None => Err(DecodeError::UnexpectedEof),
                Some(count) => {
                    let room: usize = bytes.len() - pos - 8;
                    let over: bool = if unit > room as u128 {
                        count > 0
                    } else {
                        assert(count as u128 * unit <= 0xffff_ffff_ffff_ffff
                            * 0xffff_ffff_ffff_ffff) by (nonlinear_arith)
                            requires
                                count <= 0xffff_ffff_ffff_ffff,
                                unit <= 0xffff_ffff_ffff_ffff,
                        ;
                        count as u128 * unit > room as u128
                    };
                    assert(over == (count as nat * unit as nat > room as nat)) by (nonlinear_arith)
                        requires
                            over == if unit > room {
                                count > 0
                            } else {
                                count * unit > room
                            },
                    ;
                    if over {
                        Err(DecodeError::LengthOverflow)
                    } else {
                        Ok((count, pos + 8))
                    }
                },
            }
        },
    }
}

/// Reads a run of raw bytes: a count, then so many bytes.
fn read_blob(bytes: &[u8], pos: usize) -> (r: Result<(Vec<u8>, usize), DecodeError>)
    requires
        pos <= bytes@.len(),
    ensures
        match blob(bytes@, pos as nat) {
            Ok((raw, end)) => r is Ok && r->Ok_0.0@ == raw && r->Ok_0.1 == end && pos + 8 <= end
                <= bytes@.len(),
            Err(e) => r is Err && r->Err_0 == e,
        },
{
    match read_count(bytes, pos, 1) {
        Err(e) => Err(e),
        Ok((count, start)) => {
            let end: usize = start + count as usize;
            let raw = slice_to_vec(slice_subrange(bytes, start, end));
            Ok((raw, end))
        },
    }
}

/// Reads a string: a count, then so many bytes of UTF-8.
fn read_text(bytes: &[u8], pos: usize) -> (r: Result<(String, usize), DecodeError>)
    requires
        pos <= bytes@.len(),
    ensures
        match text(bytes@, pos as nat) {
            Ok((t, end)) => r is Ok && r->Ok_0.0@ == t && r->Ok_0.1 == end && pos + 8 <= end
                <= bytes@.len(),
            Err(e) => r is Err && r->Err_0 == e,
        },
{
    match read_count(bytes, pos, 1) {
        Err(e) => Err(e),
        Ok((count, start)) => {
            let end: usize = start + count as usize;
            let whole = slice_subrange(bytes, pos, end);
            proof {
                assert(whole@.subrange(0, 8) =~= window(bytes@, pos as nat, 8));
                assert(crate::codec::payload(whole@) =~= window(
                    bytes@,
                    start as nat,
                    count as nat,
                ));
            }
            match codec_string(whole) {
                Some(t) => Ok((t, end)),
                None => Err(DecodeError::Io(IoCause::InvalidUtf8)),
            }
        },
    }
}

/// A width, held to what a `u128` can hold.
pub open spec fn capped(width: nat) -> nat {
    if width > u128::MAX {
        u128::MAX as nat
    } else {
        width
    }
}

/// A count is refused for a capped width exactly where it is refused for the
/// width itself: no byte source is as long as the cap.
proof fn lemma_counted_capped(bytes: Seq<u8>, at: nat, unit: nat)
    requires
        bytes.len() <= usize::MAX,
    ensures
        counted(bytes, at, capped(unit)) == counted(bytes, at, unit),
{
    if bytes.len() >= at + 8 && unit > u128::MAX {
        let count = le_nat(window(bytes, at, 8));
        let room = bytes.len() - (at + 8);
        assert((count * capped(unit) > room) == (count * unit > room)) by (nonlinear_arith)
            requires
                capped(unit) > room,
                unit > room,
                room >= 0,
        ;
    }
}

/// The least width of a value of this shape, capped.
fn min_width_capped(schema: &Schema) -> (w: u128)
    ensures
        w == capped(min_width(schema@)),
    decreases schema,
{
    match schema {
        Schema::Unit => 0,
        Schema::I8 | Schema::U8 | Schema::Bool | Schema::Char | Schema::Option => 1,
        Schema::I16 | Schema::U16 => 2,
        Schema::I32 | Schema::U32 | Schema::F32 => 4,
        Schema::I64 | Schema::U64 | Schema::F64 => 8,
        Schema::I128 | Schema::U128 => 16,
        Schema::Str | Schema::String | Schema::Bytes | Schema::ByteBuf => 8,
        Schema::Sequence | Schema::Mapping => 8,
        Schema::Struct(s) => fields_min_width_capped(&s.fields),
    }
}

/// The least width of a run of fields, capped.
fn fields_min_width_capped(fields: &Vec<(String, Schema)>) -> (w: u128)
    ensures
        w == capped(fields_min_width(fields_view(fields@), 0)),
    decreases fields,
{
    let mut w: u128 = 0;
    let mut i: usize = fields.len();
    while i > 0
        invariant
            i <= fields.len(),
            w == capped(fields_min_width(fields_view(fields@), i as nat)),
        decreases i,
    {
        i -= 1;
        let f = min_width_capped(&fields[i].1);
        w = if f > u128::MAX - w {
            u128::MAX
        } else {
            w + f
        };
    }
    w
}

/// Where `key` stands among the entries of a map, if it does.
fn find_key(entries: &Vec<(String, DynamicValue)>, key: &String) -> (found: Option<usize>)
    ensures
        found is Some ==> first_at(entries_view(entries@), key@, found->Some_0 as int),
        found is None ==> forall|i: int| !first_at(entries_view(entries@), key@, i),
{
    let mut i: usize = 0;
    while i < entries.len()
        invariant
            i <= entries.len(),
            forall|j: int| 0 <= j < i ==> (#[trigger] entries_view(entries@)[j]).0 != key@,
        decreases entries.len() - i,
    {
        if entries[i].0 == *key {
            return Some(i);
        }
        i += 1;
    }
    None
}

/// Gives `key` the value `value` among the entries of a map.
fn put_entry(entries: &mut Vec<(String, DynamicValue)>, key: String, value: DynamicValue)
    ensures
        entries_view(final(entries)@) == put(entries_view(old(entries)@), key@, value@),
{
    let ghost before = entries_view(entries@);
    match find_key(entries, &key) {
        Some(i) => {
            proof {
                let chosen = choose|k: int| first_at(before, key@, k);
                assert(chosen == i);
            }
            entries.set(i, (key, value));
            assert(entries_view(entries@) =~= before.update(i as int, (key@, value@)));
        },
        None => {
            entries.push((key, value));
            assert(entries_view(entries@) =~= before.push((key@, value@)));
        },
    }
}

/// Whether a value of this shape holds no other value: all shapes but those
/// of a sequence, a map, an option and a struct.
pub open spec fn is_plain(schema: SchemaView) -> bool {
    !(schema is Sequence || schema is Mapping || schema is Option || schema is Struct)
}

/// Reads a value that holds no other value.
fn read_plain(schema: &Schema, nested: &Schema, bytes: &[u8], pos: usize) -> (r: Result<
    (DynamicValue, usize),
    DecodeError,
>)
    requires
        is_plain(schema@),
        pos <= bytes@.len(),
    ensures
        agrees(r, decode_value(schema@, nested@, bytes@, pos as nat)),
        r is Ok ==> pos <= r->Ok_0.1 <= bytes@.len(),
{
    match schema {
        Schema::Unit => Ok((DynamicValue::Unit(()), pos)),
        Schema::U8 => match read_u8(bytes, pos) {
            Ok((v, end)) => Ok((DynamicValue::U8(v), end)),
            Err(e) => Err(e),
        },
        Schema::U16 => match read_u16(bytes, pos) {
            Ok((v, end)) => Ok((DynamicValue::U16(v), end)),
            Err(e) => Err(e),
        },
        Schema::U32 => match read_u32(bytes, pos) {
            Ok((v, end)) => Ok((DynamicValue::U32(v), end)),
            Err(e) => Err(e),
        },
        Schema::U64 => match read_u64(bytes, pos) {
            Ok((v, end)) => Ok((DynamicValue::U64(v), end)),
            Err(e) => Err(e),
        },
        Schema::U128 => match read_u128(bytes, pos) {
            Ok((v, end)) => Ok((DynamicValue::U128(v), end)),
            Err(e) => Err(e),
        },
        Schema::I8 => match read_i8(bytes, pos) {
            Ok((v, end)) => Ok((DynamicValue::I8(v), end)),
            Err(e) => Err(e),
        },
        Schema::I16 => match read_i16(bytes, pos) {
            Ok((v, end)) => Ok((DynamicValue::I16(v), end)),
            Err(e) => Err(e),
        },
        Schema::I32 => match read_i32(bytes, pos) {
            Ok((v, end)) => Ok((DynamicValue::I32(v), end)),
            Err(e) => Err(e),
        },
        Schema::I64 => match read_i64(bytes, pos) {
            Ok((v, end)) => Ok((DynamicValue::I64(v), end)),
            Err(e) => Err(e),
        },
        Schema::I128 => match read_i128(bytes, pos) {
            Ok((v, end)) => Ok((DynamicValue::I128(v), end)),
            Err(e) => Err(e),
        },
        Schema::F32 => match read_u32(bytes, pos) {
            Ok((bits, end)) => Ok((DynamicValue::F32(bits), end)),
            Err(e) => Err(e),
        },
        Schema::F64 => match read_u64(bytes, pos) {
            Ok((bits, end)) => Ok((DynamicValue::F64(bits), end)),
            Err(e) => Err(e),
        },
        Schema::Bool => match read_bool(bytes, pos) {
            Ok((b, end)) => Ok((DynamicValue::Bool(b), end)),
            Err(e) => Err(e),
        },
        Schema::Char => match read_char(bytes, pos) {
            Ok((c, end)) => Ok((DynamicValue::Char(c), end)),
            Err(e) => Err(e),
        },
        Schema::Str => match read_text(bytes, pos) {
            Ok((t, end)) => Ok((DynamicValue::Str(t), end)),
            Err(e) => Err(e),
        },
        Schema::String => match read_text(bytes, pos) {
            Ok((t, end)) => Ok((DynamicValue::String(t), end)),
            Err(e) => Err(e),
        },
        Schema::Bytes => match read_blob(bytes, pos) {
            Ok((raw, end)) => Ok((DynamicValue::Bytes(raw), end)),
            Err(e) => Err(e),
        },
        Schema::ByteBuf => match read_blob(bytes, pos) {
            Ok((raw, end)) => Ok((DynamicValue::ByteBuf(raw), end)),
            Err(e) => Err(e),
        },
        // the shapes that hold other values are left to the caller
        _ => Err(DecodeError::UnexpectedEof),
    }
}

/// Reads the value of shape `schema` that stands at `pos`, and says where it
/// ends. Sequences, maps and options hold values of shape `nested`.
///
/// The outcome is the one that [`decode_value`] gives for these bytes: the
/// value and the end position on success, and else the error that is met
/// first. Nothing before `pos` and nothing after the end position is read.
pub fn read_dynamic(schema: &Schema, nested: &Schema, bytes: &[u8], pos: usize) -> (r: Result<
    (DynamicValue, usize),
    DecodeError,
>)
    ensures
        agrees(r, decode_value(schema@, nested@, bytes@, pos as nat)),
        r is Ok ==> pos <= r->Ok_0.1 <= bytes@.len(),
    decreases bytes@.len() - pos, schema, 0nat,
{
    if pos > bytes.len() {
        return Err(DecodeError::UnexpectedEof);
    }
    match schema {
        Schema::Option => match read_u8(bytes, pos) {
            Err(e) => Err(e),
            Ok((tag, start)) => if tag == 0 {
                Ok((DynamicValue::Option(None), start))
            } else if tag == 1 {
                match read_dynamic(nested, nested, bytes, start) {
                    Ok((inner, end)) => Ok((DynamicValue::Option(Some(Box::new(inner))), end)),
                    Err(e) => Err(e),
                }
            } else {
                Err(DecodeError::InvalidDiscriminant)
            },
        },
        Schema::Sequence => {
            let unit = min_width_capped(nested);
            proof {
                lemma_counted_capped(bytes@, pos as nat, min_width(nested@));
            }
            match read_count(bytes, pos, unit) {
                Err(e) => Err(e),
                Ok((count, start)) => match read_elements(nested, bytes, start, count) {
                    Ok((values, end)) => Ok((DynamicValue::Sequence(values), end)),
                    Err(e) => Err(e),
                },
            }
        },
        Schema::Mapping => {
            let width = min_width_capped(nested);
            let unit: u128 = if width > u128::MAX - 8 {
                u128::MAX
            } else {
                width + 8
            };
            proof {
                lemma_counted_capped(bytes@, pos as nat, 8 + min_width(nested@));
            }
            match read_count(bytes, pos, unit) {
                Err(e) => Err(e),
                Ok((count, start)) => match read_entries(nested, bytes, start, count) {
                    Ok((entries, end)) => Ok((DynamicValue::Mapping(entries), end)),
                    Err(e) => Err(e),
                },
            }
        },
        Schema::Struct(s) => match read_fields(&s.fields, nested, bytes, pos) {
            Ok((fields, end)) => Ok((DynamicValue::Struct { name: s.name.clone(), fields }, end)),
            Err(e) => Err(e),
        },
        _ => read_plain(schema, nested, bytes, pos),
    }
}

/// Reads the fields of a struct one after another, in schema order.
fn read_fields(fields: &Vec<(String, Schema)>, nested: &Schema, bytes: &[u8], pos: usize) -> (r:
    Result<(Vec<(String, DynamicValue)>, usize), DecodeError>)
    requires
        pos <= bytes@.len(),
    ensures
        match decode_fields(fields_view(fields@), nested@, bytes@, pos as nat, 0, Seq::empty()) {
            Ok((values, end)) => r is Ok && entries_view(r->Ok_0.0@) == values && r->Ok_0.1 == end
                && pos <= end <= bytes@.len(),
            Err(e) => r is Err && r->Err_0 == e,
        },
    decreases bytes@.len() - pos, fields, 0nat,
{
    let mut done: Vec<(String, DynamicValue)> = Vec::new();
    let mut at: usize = pos;
    let mut i: usize = 0;
    assert(entries_view(done@) =~= Seq::empty());
    while i < fields.len()
        invariant
            i <= fields.len(),
            pos <= at <= bytes@.len(),
            decode_fields(fields_view(fields@), nested@, bytes@, pos as nat, 0, Seq::empty())
                == decode_fields(
                fields_view(fields@),
                nested@,
                bytes@,
                at as nat,
                i as nat,
                entries_view(done@),
            ),
        decreases fields.len() - i,
    {
        let ghost before = entries_view(done@);
        match read_dynamic(&fields[i].1, nested, bytes, at) {
            Err(e) => {
                return Err(e);
            },
            Ok((value, end)) => {
                done.push((fields[i].0.clone(), value));
                assert(entries_view(done@) =~= before.push((fields@[i as int].0@, value@)));
                at = end;
                i += 1;
            },
        }
    }
    Ok((done, at))
}

/// Reads `count` elements of a sequence one after another.
fn read_elements(nested: &Schema, bytes: &[u8], pos: usize, count: u64) -> (r: Result<
    (Vec<DynamicValue>, usize),
    DecodeError,
>)
    requires
        pos <= bytes@.len(),
    ensures
        match decode_elements(nested@, bytes@, pos as nat, count as nat, Seq::empty()) {
            Ok((values, end)) => r is Ok && values_view(r->Ok_0.0@) == values && r->Ok_0.1 == end
                && pos <= end <= bytes@.len(),
            Err(e) => r is Err && r->Err_0 == e,
        },
    decreases bytes@.len() - pos, nested, 1nat,
{
    let mut done: Vec<DynamicValue> = Vec::new();
    let mut at: usize = pos;
    let mut i: u64 = 0;
    assert(values_view(done@) =~= Seq::empty());
    while i < count
        invariant
            i <= count,
            pos <= at <= bytes@.len(),
            decode_elements(nested@, bytes@, pos as nat, count as nat, Seq::empty())
                == decode_elements(
                nested@,
                bytes@,
                at as nat,
                (count - i) as nat,
                values_view(done@),
            ),
        decreases count - i,
    {
        let ghost before = values_view(done@);
        match read_dynamic(nested, nested, bytes, at) {
            Err(e) => {
                return Err(e);
            },
            Ok((value, end)) => {
                done.push(value);
                assert(values_view(done@) =~= before.push(value@));
                at = end;
                i += 1;
            },
        }
    }
    Ok((done, at))
}

/// Reads `count` entries of a map one after another.
fn read_entries(nested: &Schema, bytes: &[u8], pos: usize, count: u64) -> (r: Result<
    (Vec<(String, DynamicValue)>, usize),
    DecodeError,
>)
    requires
        pos <= bytes@.len(),
    ensures
        match decode_entries(nested@, bytes@, pos as nat, count as nat, Seq::empty()) {
            Ok((entries, end)) => r is Ok && entries_view(r->Ok_0.0@) == entries && r->Ok_0.1
                == end && pos <= end <= bytes@.len(),
            Err(e) => r is Err && r->Err_0 == e,
        },
    decreases bytes@.len() - pos, nested, 1nat,
{
    let mut done: Vec<(String, DynamicValue)> = Vec::new();
    let mut at: usize = pos;
    let mut i: u64 = 0;
    assert(entries_view(done@) =~= Seq::empty());
    while i < count
        invariant
            i <= count,
            pos <= at <= bytes@.len(),
            decode_entries(nested@, bytes@, pos as nat, count as nat, Seq::empty())
                == decode_entries(
                nested@,
                bytes@,
                at as nat,
                (count - i) as nat,
                entries_view(done@),
            ),
        decreases count - i,
    {
        match read_text(bytes, at) {
            Err(e) => {
                return Err(e);
            },
            Ok((key, start)) => match read_dynamic(nested, nested, bytes, start) {
                Err(e) => {
                    return Err(e);
                },
                Ok((value, end)) => {
                    put_entry(&mut done, key, value);
                    at = end;
                    i += 1;
                },
            },
        }
    }
    Ok((done, at))
}

/// Decodes the value of shape `schema` that the bytes start with. Sequences,
/// maps and options hold values of shape `nested`. Bytes that follow the
/// value are left alone.
///
/// The call succeeds exactly where [`decode_value`] gives a value for these
/// bytes from position 0, and yields that value; it fails with the error that
/// [`decode_value`] gives where it gives one.
pub fn bincode_read_dynamic(schema: Schema, nested: &Schema, bytes: &[u8]) -> (r: Result<
    DynamicValue,
    DecodeError,
>)
    ensures
        match decode_value(schema@, nested@, bytes@, 0) {
            Ok((value, end)) => r is Ok && r->Ok_0@ == value,
            Err(e) => r is Err && r->Err_0 == e,
        },
{
    match read_dynamic(&schema, nested, bytes, 0) {
        Ok((value, end)) => Ok(value),
        Err(e) => Err(e),
    }
}

} // verus!
