//! Decoding undoes encoding: the bytes that stand for a value decode to that
//! value under the schema that describes it.

use crate::codec::{le_bytes, le_nat, lemma_le_bytes, lemma_twos_complement, twos_complement_of};
use crate::deserialize::{
    char_width, decode_elements, decode_entries, decode_fields, decode_value, first_at, put, text,
    window,
};
use crate::encoding::{
    conforms, distinct_keys, elements_encoding, encoding, entries_encoding, fields_encoding,
    text_encoding,
};
use crate::error::DecodeError;
use crate::schema::SchemaView;
use crate::theorems::{lemma_elements_extent, lemma_entries_extent, lemma_le_nat_single};
use crate::value::ValueView;
use vstd::prelude::*;
use vstd::utf8::*;

verus! {

/// Whether the bytes `written` stand in `bytes` at `at`.
pub open spec fn stands_at(bytes: Seq<u8>, at: nat, written: Seq<u8>) -> bool {
    at + written.len() <= bytes.len() && window(bytes, at, written.len()) == written
}

/// Where two runs of bytes stand one after the other, each stands at its
/// place.
pub proof fn lemma_stands_split(bytes: Seq<u8>, at: nat, first: Seq<u8>, second: Seq<u8>)
    requires
        stands_at(bytes, at, first + second),
    ensures
        stands_at(bytes, at, first),
        stands_at(bytes, at + first.len(), second),
{
    let both = first + second;
    assert(window(bytes, at, first.len()) =~= first) by {
        assert forall|i: int| 0 <= i < first.len() implies window(bytes, at, first.len())[i]
            == first[i] by {
            assert(window(bytes, at, both.len())[i] == both[i]);
        }
    }
    assert(window(bytes, at + first.len(), second.len()) =~= second) by {
        assert forall|i: int| 0 <= i < second.len() implies window(
            bytes,
            at + first.len(),
            second.len(),
        )[i] == second[i] by {
            assert(window(bytes, at, both.len())[first.len() + i] == both[first.len() + i]);
        }
    }
}

/// The first byte of a character tells how many bytes its encoding takes.
pub proof fn lemma_char_width(bytes: Seq<u8>)
    requires
        valid_first_scalar(bytes),
    ensures
        char_width(bytes[0]) == length_of_first_scalar(bytes),
        1 <= char_width(bytes[0]) <= bytes.len(),
{
    let b1 = bytes[0];
    if is_leading_byte_width_1(b1) {
    } else if is_leading_byte_width_2(b1) {
        let b2 = bytes[1];
        assert((b1 == 0xc0 || b1 == 0xc1) ==> ((((b1 & 0x1f) as u32) << 6) | ((b2 & 0x3f) as u32))
            < 0x80) by (bit_vector);
    } else if is_leading_byte_width_3(b1) {
    } else {
        let b2 = bytes[1];
        let b3 = bytes[2];
        let b4 = bytes[3];
        assert((0xf5 <= b1 && b1 <= 0xf7) ==> ((((b1 & 0x07) as u32) << 18) | (((b2 & 0x3f) as u32)
            << 12) | (((b3 & 0x3f) as u32) << 6) | ((b4 & 0x3f) as u32)) > 0x10ffff)
            by (bit_vector);
    }
}

/// The encoding of a character is the encoding of one scalar: it is valid,
/// and decodes to the character.
pub proof fn lemma_char_encoding(c: char)
    ensures
        valid_first_scalar(encode_scalar(c as u32)),
        decode_first_scalar(encode_scalar(c as u32)) as char == c,
        length_of_first_scalar(encode_scalar(c as u32)) == encode_scalar(c as u32).len(),
{
    let one = seq![c];
    reveal_with_fuel(encode_utf8, 2);
    assert(one.drop_first() =~= Seq::<char>::empty());
    assert(encode_utf8(one) =~= encode_scalar(c as u32));
    encode_utf8_first_scalar(one);
    char_u32_cast(c, decode_first_scalar(encode_scalar(c as u32)));
}

/// A string that stands at `at` is read back.
pub proof fn lemma_text_round_trip(t: Seq<char>, bytes: Seq<u8>, at: nat)
    requires
        encode_utf8(t).len() < crate::codec::pow256(8),
        stands_at(bytes, at, text_encoding(t)),
    ensures
        text(bytes, at) == Ok::<(Seq<char>, nat), DecodeError>(
            (t, at + text_encoding(t).len()),
        ),
{
    let raw = encode_utf8(t);
    lemma_le_bytes(raw.len(), 8);
    lemma_stands_split(bytes, at, le_bytes(raw.len(), 8), raw);
    assert(le_nat(window(bytes, at, 8)) * 1 == raw.len());
    encode_utf8_valid_utf8(t);
    encode_utf8_decode_utf8(t);
}

/// The bytes that stand for a value decode to that value: where the encoding
/// of a value that `schema` describes stands at `at`, decoding at `at` under
/// `schema` gives the value back and ends where the encoding ends, whatever
/// stands in front of it and whatever follows it.
pub proof fn lemma_round_trip(
    value: ValueView,
    schema: SchemaView,
    nested: SchemaView,
    bytes: Seq<u8>,
    at: nat,
)
    requires
        conforms(value, schema, nested),
        stands_at(bytes, at, encoding(value)),
    ensures
        decode_value(schema, nested, bytes, at) == Ok::<(ValueView, nat), DecodeError>(
            (value, at + encoding(value).len()),
        ),
    decreases value, 0nat,
{
    match value {
        ValueView::Unit => {},
        ValueView::U8(n) => {
            lemma_le_bytes(n as nat, 1);
        },
        ValueView::U16(n) => {
            lemma_le_bytes(n as nat, 2);
        },
        ValueView::U32(n) => {
            lemma_le_bytes(n as nat, 4);
        },
        ValueView::U64(n) => {
            lemma_le_bytes(n as nat, 8);
        },
        ValueView::U128(n) => {
            lemma_le_bytes(n as nat, 16);
        },
        ValueView::F32(n) => {
            lemma_le_bytes(n as nat, 4);
        },
        ValueView::F64(n) => {
            lemma_le_bytes(n as nat, 8);
        },
        ValueView::I8(n) => {
            lemma_twos_complement(0, n, 1);
            lemma_le_bytes(twos_complement_of(n, 1), 1);
        },
        ValueView::I16(n) => {
            lemma_twos_complement(0, n, 2);
            lemma_le_bytes(twos_complement_of(n, 2), 2);
        },
        ValueView::I32(n) => {
            lemma_twos_complement(0, n, 4);
            lemma_le_bytes(twos_complement_of(n, 4), 4);
        },
        ValueView::I64(n) => {
            lemma_twos_complement(0, n, 8);
            lemma_le_bytes(twos_complement_of(n, 8), 8);
        },
        ValueView::I128(n) => {
            lemma_twos_complement(0, n, 16);
            lemma_le_bytes(twos_complement_of(n, 16), 16);
        },
        ValueView::Bool(b) => {
            assert(window(bytes, at, 1)[0] == encoding(value)[0]);
        },
        ValueView::Char(c) => {
            let written = encode_scalar(c as u32);
            lemma_char_encoding(c);
            lemma_char_width(written);
            assert(bytes[at as int] == window(bytes, at, written.len())[0]);
        },
        ValueView::Str(t) => {
            lemma_text_round_trip(t, bytes, at);
        },
        ValueView::String(t) => {
            lemma_text_round_trip(t, bytes, at);
        },
        ValueView::Bytes(raw) => {
            lemma_le_bytes(raw.len(), 8);
            lemma_stands_split(bytes, at, le_bytes(raw.len(), 8), raw);
            assert(le_nat(window(bytes, at, 8)) * 1 == raw.len());
        },
        ValueView::ByteBuf(raw) => {
            lemma_le_bytes(raw.len(), 8);
            lemma_stands_split(bytes, at, le_bytes(raw.len(), 8), raw);
            assert(le_nat(window(bytes, at, 8)) * 1 == raw.len());
        },
        ValueView::Option(None) => {
            lemma_le_nat_single(bytes, at);
            assert(bytes[at as int] == window(bytes, at, 1)[0]);
        },
        ValueView::Option(Some(inner)) => {
            lemma_stands_split(bytes, at, seq![1u8], encoding(*inner));
            lemma_le_nat_single(bytes, at);
            assert(bytes[at as int] == window(bytes, at, 1)[0]);
            lemma_round_trip(*inner, nested, nested, bytes, at + 1);
        },
        ValueView::Sequence(values) => {
            let count = values.len();
            lemma_le_bytes(count, 8);
            lemma_stands_split(bytes, at, le_bytes(count, 8), elements_encoding(values, 0));
            assert(values.subrange(0, 0) =~= Seq::empty());
            lemma_elements_round_trip(values, nested, bytes, at + 8, 0);
            lemma_elements_extent(nested, bytes, at + 8, count, Seq::empty());
        },
        ValueView::Mapping(entries) => {
            let count = entries.len();
            lemma_le_bytes(count, 8);
            lemma_stands_split(bytes, at, le_bytes(count, 8), entries_encoding(entries, 0));
            assert(entries.subrange(0, 0) =~= Seq::empty());
            lemma_entries_round_trip(entries, nested, bytes, at + 8, 0);
            lemma_entries_extent(nested, bytes, at + 8, count, Seq::empty());
        },
        ValueView::Struct { name, fields } => {
            assert(fields.subrange(0, 0) =~= Seq::empty());
            lemma_fields_round_trip(fields, schema->Struct_fields, nested, bytes, at, 0);
        },
    }
}

/// The elements from the `from`-th on are read back after those before them.
pub proof fn lemma_elements_round_trip(
    values: Seq<ValueView>,
    nested: SchemaView,
    bytes: Seq<u8>,
    at: nat,
    from: nat,
)
    requires
        from <= values.len(),
        forall|i: int| 0 <= i < values.len() ==> conforms(#[trigger] values[i], nested, nested),
        stands_at(bytes, at, elements_encoding(values, from)),
    ensures
        decode_elements(
            nested,
            bytes,
            at,
            (values.len() - from) as nat,
            values.subrange(0, from as int),
        ) == Ok::<(Seq<ValueView>, nat), DecodeError>(
            (values, at + elements_encoding(values, from).len()),
        ),
    decreases values, values.len() - from,
{
    if from >= values.len() {
        assert(values.subrange(0, from as int) =~= values);
    } else {
        let first = values[from as int];
        lemma_stands_split(bytes, at, encoding(first), elements_encoding(values, from + 1));
        lemma_round_trip(first, nested, nested, bytes, at);
        assert(values.subrange(0, from as int).push(first) =~= values.subrange(0, (from + 1) as int));
        lemma_elements_round_trip(values, nested, bytes, at + encoding(first).len(), from + 1);
    }
}

/// The entries from the `from`-th on are read back after those before them.
pub proof fn lemma_entries_round_trip(
    entries: Seq<(Seq<char>, ValueView)>,
    nested: SchemaView,
    bytes: Seq<u8>,
    at: nat,
    from: nat,
)
    requires
        from <= entries.len(),
        distinct_keys(entries),
        forall|i: int|
            0 <= i < entries.len() ==> encode_utf8((#[trigger] entries[i]).0).len()
                < crate::codec::pow256(8) && conforms(entries[i].1, nested, nested),
        stands_at(bytes, at, entries_encoding(entries, from)),
    ensures
        decode_entries(
            nested,
            bytes,
            at,
            (entries.len() - from) as nat,
            entries.subrange(0, from as int),
        ) == Ok::<(Seq<(Seq<char>, ValueView)>, nat), DecodeError>(
            (entries, at + entries_encoding(entries, from).len()),
        ),
    decreases entries, entries.len() - from,
{
    if from >= entries.len() {
        assert(entries.subrange(0, from as int) =~= entries);
    } else {
        let (key, value) = entries[from as int];
        let done = entries.subrange(0, from as int);
        let rest = entries_encoding(entries, from + 1);
        assert(entries_encoding(entries, from) =~= text_encoding(key) + (encoding(value) + rest));
        lemma_stands_split(bytes, at, text_encoding(key), encoding(value) + rest);
        let start = at + text_encoding(key).len();
        lemma_stands_split(bytes, start, encoding(value), rest);
        lemma_text_round_trip(key, bytes, at);
        lemma_round_trip(value, nested, nested, bytes, start);
        assert forall|i: int| !first_at(done, key, i) by {
            if 0 <= i < done.len() {
                assert(entries[i].0 != entries[from as int].0);
            }
        }
        assert(put(done, key, value) =~= entries.subrange(0, (from + 1) as int));
        lemma_entries_round_trip(entries, nested, bytes, start + encoding(value).len(), from + 1);
    }
}

/// The fields from the `from`-th on are read back after those before them.
pub proof fn lemma_fields_round_trip(
    fields: Seq<(Seq<char>, ValueView)>,
    shapes: Seq<(Seq<char>, SchemaView)>,
    nested: SchemaView,
    bytes: Seq<u8>,
    at: nat,
    from: nat,
)
    requires
        from <= fields.len(),
        fields.len() == shapes.len(),
        forall|i: int|
            0 <= i < fields.len() ==> (#[trigger] fields[i]).0 == shapes[i].0 && conforms(
                fields[i].1,
                shapes[i].1,
                nested,
            ),
        stands_at(bytes, at, fields_encoding(fields, from)),
    ensures
        decode_fields(shapes, nested, bytes, at, from, fields.subrange(0, from as int)) == Ok::<
            (Seq<(Seq<char>, ValueView)>, nat),
            DecodeError,
        >((fields, at + fields_encoding(fields, from).len())),
    decreases fields, fields.len() - from,
{
    if from >= fields.len() {
        assert(fields.subrange(0, from as int) =~= fields);
    } else {
        let (name, value) = fields[from as int];
        lemma_stands_split(bytes, at, encoding(value), fields_encoding(fields, from + 1));
        lemma_round_trip(value, shapes[from as int].1, nested, bytes, at);
        assert(fields.subrange(0, from as int).push((shapes[from as int].0, value))
            =~= fields.subrange(0, (from + 1) as int));
        lemma_fields_round_trip(
            fields,
            shapes,
            nested,
            bytes,
            at + encoding(value).len(),
            from + 1,
        );
    }
}

} // verus!
