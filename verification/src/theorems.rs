//! What holds of every decode call, proved from the model of the decoder.

use crate::codec::{
    fits_unsigned, le_nat, lemma_le_nat_bound, lemma_twos_complement,
};
use crate::deserialize::{
    char_width, decode_elements, decode_entries, decode_fields, decode_value, fields_min_width,
    first_at, is_plain, min_width, put, text, unsigned, window,
};
use crate::encoding::{conforms, distinct_keys};
use crate::error::DecodeError;
use crate::schema::SchemaView;
use crate::value::{shape_of, ValueView};
use vstd::prelude::*;
use vstd::utf8::*;

verus! {

/// Whether every value of this shape takes the same number of bytes, and at
/// least one: the integers, the floating-point numbers and the booleans.
pub open spec fn is_fixed(schema: SchemaView) -> bool {
    schema is I8 || schema is U8 || schema is I16 || schema is U16 || schema is I32 || schema is U32
        || schema is I64 || schema is U64 || schema is I128 || schema is U128 || schema is F32
        || schema is F64 || schema is Bool
}

/// A primitive of fixed width whose bytes are cut short is never decoded:
/// where fewer bytes are left than its kind reserves, the outcome is
/// `UnexpectedEof`.
pub proof fn lemma_truncated_primitive(
    schema: SchemaView,
    nested: SchemaView,
    bytes: Seq<u8>,
    at: nat,
)
    requires
        is_fixed(schema),
        bytes.len() < at + min_width(schema),
    ensures
        decode_value(schema, nested, bytes, at) == Err::<(ValueView, nat), DecodeError>(
            DecodeError::UnexpectedEof,
        ),
{
}

/// A character whose bytes are cut short is never decoded: where its first
/// byte announces more bytes than are left, the outcome is `UnexpectedEof`.
pub proof fn lemma_truncated_character(nested: SchemaView, bytes: Seq<u8>, at: nat)
    requires
        at >= bytes.len() || bytes.len() < at + char_width(bytes[at as int]),
    ensures
        decode_value(SchemaView::Char, nested, bytes, at) == Err::<(ValueView, nat), DecodeError>(
            DecodeError::UnexpectedEof,
        ),
{
}

/// The byte in front of an optional value is 0 or 1: any other byte there
/// gives `InvalidDiscriminant`, whatever follows it.
pub proof fn lemma_bad_discriminant(nested: SchemaView, bytes: Seq<u8>, at: nat)
    requires
        at < bytes.len(),
        bytes[at as int] != 0,
        bytes[at as int] != 1,
    ensures
        decode_value(SchemaView::Option, nested, bytes, at) == Err::<(ValueView, nat), DecodeError>(
            DecodeError::InvalidDiscriminant,
        ),
{
    lemma_le_nat_single(bytes, at);
}

/// One byte spells itself.
pub proof fn lemma_le_nat_single(bytes: Seq<u8>, at: nat)
    requires
        at < bytes.len(),
    ensures
        le_nat(window(bytes, at, 1)) == bytes[at as int],
{
    let one = window(bytes, at, 1);
    assert(one.drop_first().len() == 0);
    assert(le_nat(one.drop_first()) == 0);
}

/// A value takes at least the bytes that its shape takes at least, and ends
/// within the bytes.
pub proof fn lemma_value_extent(schema: SchemaView, nested: SchemaView, bytes: Seq<u8>, at: nat)
    ensures
        decode_value(schema, nested, bytes, at) matches Ok((value, end)) ==> at + min_width(schema)
            <= end <= bytes.len(),
    decreases bytes.len() - at, schema, 0nat,
{
    if at <= bytes.len() {
        match schema {
            SchemaView::Option => {
                if unsigned(bytes, at, 1) is Ok {
                    lemma_value_extent(nested, nested, bytes, at + 1);
                }
            },
            SchemaView::Sequence => {
                if bytes.len() >= at + 8 {
                    lemma_elements_extent(
                        nested,
                        bytes,
                        at + 8,
                        le_nat(window(bytes, at, 8)),
                        Seq::empty(),
                    );
                }
            },
            SchemaView::Mapping => {
                if bytes.len() >= at + 8 {
                    lemma_entries_extent(
                        nested,
                        bytes,
                        at + 8,
                        le_nat(window(bytes, at, 8)),
                        Seq::empty(),
                    );
                }
            },
            SchemaView::Struct { name, fields } => {
                lemma_fields_extent(fields, nested, bytes, at, 0, Seq::empty());
            },
            _ => {},
        }
    }
}

/// The fields of a struct take at least the bytes that their shapes take at
/// least, and end within the bytes.
pub proof fn lemma_fields_extent(
    fields: Seq<(Seq<char>, SchemaView)>,
    nested: SchemaView,
    bytes: Seq<u8>,
    at: nat,
    from: nat,
    done: Seq<(Seq<char>, ValueView)>,
)
    requires
        at <= bytes.len(),
    ensures
        decode_fields(fields, nested, bytes, at, from, done) matches Ok((values, end)) ==> at
            + fields_min_width(fields, from) <= end <= bytes.len(),
    decreases bytes.len() - at, fields, fields.len() - from,
{
    if from < fields.len() {
        lemma_value_extent(fields[from as int].1, nested, bytes, at);
        match decode_value(fields[from as int].1, nested, bytes, at) {
            Ok((value, end)) => {
                lemma_fields_extent(
                    fields,
                    nested,
                    bytes,
                    end,
                    from + 1,
                    done.push((fields[from as int].0, value)),
                );
            },
            Err(_) => {},
        }
    }
}

/// The elements of a sequence take at least the bytes that so many values of
/// their shape take at least, and end within the bytes.
pub proof fn lemma_elements_extent(
    nested: SchemaView,
    bytes: Seq<u8>,
    at: nat,
    count: nat,
    done: Seq<ValueView>,
)
    requires
        at <= bytes.len(),
    ensures
        decode_elements(nested, bytes, at, count, done) matches Ok((values, end)) ==> at + count
            * min_width(nested) <= end <= bytes.len(),
    decreases bytes.len() - at, nested, count,
{
    if count > 0 {
        lemma_value_extent(nested, nested, bytes, at);
        match decode_value(nested, nested, bytes, at) {
            Ok((value, end)) => {
                lemma_elements_extent(nested, bytes, end, (count - 1) as nat, done.push(value));
                assert(count * min_width(nested) == (count - 1) * min_width(nested) + min_width(
                    nested,
                )) by (nonlinear_arith);
            },
            Err(_) => {},
        }
    }
}

/// The entries of a map take at least the bytes that so many keys and values
/// take at least, and end within the bytes.
pub proof fn lemma_entries_extent(
    nested: SchemaView,
    bytes: Seq<u8>,
    at: nat,
    count: nat,
    done: Seq<(Seq<char>, ValueView)>,
)
    requires
        at <= bytes.len(),
    ensures
        decode_entries(nested, bytes, at, count, done) matches Ok((entries, end)) ==> at + count * (
        8 + min_width(nested)) <= end <= bytes.len(),
    decreases bytes.len() - at, nested, count,
{
    if count > 0 {
        match text(bytes, at) {
            Ok((key, start)) => {
                lemma_value_extent(nested, nested, bytes, start);
                match decode_value(nested, nested, bytes, start) {
                    Ok((value, end)) => {
                        lemma_entries_extent(
                            nested,
                            bytes,
                            end,
                            (count - 1) as nat,
                            put(done, key, value),
                        );
                        assert(count * (8 + min_width(nested)) == (count - 1) * (8 + min_width(
                            nested,
                        )) + (8 + min_width(nested))) by (nonlinear_arith);
                    },
                    Err(_) => {},
                }
            },
            Err(_) => {},
        }
    }
}

/// Whether two runs of bytes hold the same bytes from `from` up to `to`.
pub open spec fn same_window(a: Seq<u8>, b: Seq<u8>, from: nat, to: nat) -> bool {
    &&& to <= a.len()
    &&& to <= b.len()
    &&& forall|i: int| from <= i < to ==> a[i] == b[i]
}

/// Decoding reads nothing but the bytes of the value: bytes that hold the
/// same from the start of a value to its end give the same value, whatever
/// stands in front of it and whatever follows it.
pub proof fn lemma_value_local(
    schema: SchemaView,
    nested: SchemaView,
    a: Seq<u8>,
    b: Seq<u8>,
    at: nat,
)
    requires
        decode_value(schema, nested, a, at) is Ok,
        same_window(a, b, at, decode_value(schema, nested, a, at)->Ok_0.1),
    ensures
        decode_value(schema, nested, b, at) == decode_value(schema, nested, a, at),
    decreases a.len() - at, schema, 0nat,
{
    lemma_value_extent(schema, nested, a, at);
    let end = decode_value(schema, nested, a, at)->Ok_0.1;
    match schema {
        SchemaView::Option => {
            assert(window(b, at, 1) =~= window(a, at, 1));
            if unsigned(a, at, 1)->Ok_0.0 == 1 {
                lemma_value_local(nested, nested, a, b, at + 1);
            }
        },
        SchemaView::Sequence => {
            assert(window(b, at, 8) =~= window(a, at, 8));
            let count = le_nat(window(a, at, 8));
            lemma_elements_extent(nested, a, at + 8, count, Seq::empty());
            lemma_elements_local(nested, a, b, at + 8, count, Seq::empty());
        },
        SchemaView::Mapping => {
            assert(window(b, at, 8) =~= window(a, at, 8));
            let count = le_nat(window(a, at, 8));
            lemma_entries_extent(nested, a, at + 8, count, Seq::empty());
            lemma_entries_local(nested, a, b, at + 8, count, Seq::empty());
        },
        SchemaView::Struct { name, fields } => {
            lemma_fields_local(fields, nested, a, b, at, 0, Seq::empty());
        },
        _ => {
            lemma_plain_local(schema, nested, a, b, at);
        },
    }
}

/// Bytes that hold the same from `at` to the end of a string give the same
/// string.
pub proof fn lemma_text_local(a: Seq<u8>, b: Seq<u8>, at: nat)
    requires
        text(a, at) is Ok,
        same_window(a, b, at, text(a, at)->Ok_0.1),
    ensures
        text(b, at) == text(a, at),
{
    assert(window(b, at, 8) =~= window(a, at, 8));
    let count = le_nat(window(a, at, 8));
    assert(count * 1 == count);
    assert(window(b, at + 8, count) =~= window(a, at + 8, count));
}

/// Bytes that hold the same from `at` to the end of a value that holds no
/// other value give the same value.
pub proof fn lemma_plain_local(
    schema: SchemaView,
    nested: SchemaView,
    a: Seq<u8>,
    b: Seq<u8>,
    at: nat,
)
    requires
        is_plain(schema),
        decode_value(schema, nested, a, at) is Ok,
        same_window(a, b, at, decode_value(schema, nested, a, at)->Ok_0.1),
    ensures
        decode_value(schema, nested, b, at) == decode_value(schema, nested, a, at),
{
    match schema {
        SchemaView::Unit => {},
        SchemaView::U8 | SchemaView::I8 | SchemaView::Bool => {
            assert(window(b, at, 1) =~= window(a, at, 1));
        },
        SchemaView::U16 | SchemaView::I16 => {
            assert(window(b, at, 2) =~= window(a, at, 2));
        },
        SchemaView::U32 | SchemaView::I32 | SchemaView::F32 => {
            assert(window(b, at, 4) =~= window(a, at, 4));
        },
        SchemaView::U64 | SchemaView::I64 | SchemaView::F64 => {
            assert(window(b, at, 8) =~= window(a, at, 8));
        },
        SchemaView::U128 | SchemaView::I128 => {
            assert(window(b, at, 16) =~= window(a, at, 16));
        },
        SchemaView::Char => {
            let width = char_width(a[at as int]);
            assert(window(b, at, width) =~= window(a, at, width));
        },
        SchemaView::Str | SchemaView::String => {
            lemma_text_local(a, b, at);
        },
        _ => {
            assert(window(b, at, 8) =~= window(a, at, 8));
            let count = le_nat(window(a, at, 8));
            assert(count * 1 == count);
            assert(window(b, at + 8, count) =~= window(a, at + 8, count));
        },
    }
}

/// Bytes that hold the same from the first field of a struct to the end of
/// its last give the same fields.
pub proof fn lemma_fields_local(
    fields: Seq<(Seq<char>, SchemaView)>,
    nested: SchemaView,
    a: Seq<u8>,
    b: Seq<u8>,
    at: nat,
    from: nat,
    done: Seq<(Seq<char>, ValueView)>,
)
    requires
        at <= a.len(),
        decode_fields(fields, nested, a, at, from, done) is Ok,
        same_window(a, b, at, decode_fields(fields, nested, a, at, from, done)->Ok_0.1),
    ensures
        decode_fields(fields, nested, b, at, from, done) == decode_fields(
            fields,
            nested,
            a,
            at,
            from,
            done,
        ),
    decreases a.len() - at, fields, fields.len() - from,
{
    lemma_fields_extent(fields, nested, a, at, from, done);
    if from < fields.len() {
        let shape = fields[from as int].1;
        lemma_value_extent(shape, nested, a, at);
        let (value, end) = decode_value(shape, nested, a, at)->Ok_0;
        let more = done.push((fields[from as int].0, value));
        lemma_fields_extent(fields, nested, a, end, from + 1, more);
        lemma_value_local(shape, nested, a, b, at);
        lemma_fields_local(fields, nested, a, b, end, from + 1, more);
    }
}

/// Bytes that hold the same from the first element of a sequence to the end
/// of its last give the same elements.
pub proof fn lemma_elements_local(
    nested: SchemaView,
    a: Seq<u8>,
    b: Seq<u8>,
    at: nat,
    count: nat,
    done: Seq<ValueView>,
)
    requires
        at <= a.len(),
        decode_elements(nested, a, at, count, done) is Ok,
        same_window(a, b, at, decode_elements(nested, a, at, count, done)->Ok_0.1),
    ensures
        decode_elements(nested, b, at, count, done) == decode_elements(nested, a, at, count, done),
    decreases a.len() - at, nested, count,
{
    lemma_elements_extent(nested, a, at, count, done);
    if count > 0 {
        lemma_value_extent(nested, nested, a, at);
        let (value, end) = decode_value(nested, nested, a, at)->Ok_0;
        lemma_elements_extent(nested, a, end, (count - 1) as nat, done.push(value));
        lemma_value_local(nested, nested, a, b, at);
        lemma_elements_local(nested, a, b, end, (count - 1) as nat, done.push(value));
    }
}

/// Bytes that hold the same from the first entry of a map to the end of its
/// last give the same entries.
pub proof fn lemma_entries_local(
    nested: SchemaView,
    a: Seq<u8>,
    b: Seq<u8>,
    at: nat,
    count: nat,
    done: Seq<(Seq<char>, ValueView)>,
)
    requires
        at <= a.len(),
        decode_entries(nested, a, at, count, done) is Ok,
        same_window(a, b, at, decode_entries(nested, a, at, count, done)->Ok_0.1),
    ensures
        decode_entries(nested, b, at, count, done) == decode_entries(nested, a, at, count, done),
    decreases a.len() - at, nested, count,
{
    lemma_entries_extent(nested, a, at, count, done);
    if count > 0 {
        let (key, start) = text(a, at)->Ok_0;
        lemma_value_extent(nested, nested, a, start);
        let (value, end) = decode_value(nested, nested, a, start)->Ok_0;
        lemma_entries_extent(nested, a, end, (count - 1) as nat, put(done, key, value));
        lemma_text_local(a, b, at);
        lemma_value_local(nested, nested, a, b, start);
        lemma_entries_local(nested, a, b, end, (count - 1) as nat, put(done, key, value));
    }
}

/// Giving a key a value keeps the keys of a map distinct; each entry of the
/// map is then the new one or one that was there.
pub proof fn lemma_put(entries: Seq<(Seq<char>, ValueView)>, key: Seq<char>, value: ValueView)
    requires
        distinct_keys(entries),
    ensures
        distinct_keys(put(entries, key, value)),
        put(entries, key, value).len() <= entries.len() + 1,
        forall|i: int|
            0 <= i < put(entries, key, value).len() ==> (#[trigger] put(entries, key, value)[i])
                == (key, value) || (i < entries.len() && put(entries, key, value)[i]
                == entries[i]),
{
    if exists|i: int| first_at(entries, key, i) {
        let at = choose|i: int| first_at(entries, key, i);
        let after = entries.update(at, (key, value));
        assert forall|i: int, j: int| 0 <= i < j < after.len() implies (#[trigger] after[i]).0 != (
        #[trigger] after[j]).0 by {
            assert(entries[i].0 != entries[j].0);
        }
    } else {
        let after = entries.push((key, value));
        assert forall|i: int, j: int| 0 <= i < j < after.len() implies (#[trigger] after[i]).0 != (
        #[trigger] after[j]).0 by {
            if j == entries.len() {
                assert(!first_at(entries, key, i));
                if entries[i].0 == key {
                    lemma_first_exists(entries, key, i);
                }
            } else {
                assert(entries[i].0 != entries[j].0);
            }
        }
    }
}

/// A key that stands among the entries stands somewhere first.
pub proof fn lemma_first_exists(entries: Seq<(Seq<char>, ValueView)>, key: Seq<char>, i: int)
    requires
        0 <= i < entries.len(),
        entries[i].0 == key,
    ensures
        exists|k: int| first_at(entries, key, k),
    decreases i,
{
    if forall|j: int| 0 <= j < i ==> (#[trigger] entries[j]).0 != key {
        assert(first_at(entries, key, i));
    } else {
        let j = choose|j: int| 0 <= j < i && (#[trigger] entries[j]).0 == key;
        lemma_first_exists(entries, key, j);
    }
}

/// A string that was decoded is one that a schema describes: its encoding is
/// the bytes that were read, and their count fits eight bytes.
pub proof fn lemma_text_fits(bytes: Seq<u8>, at: nat)
    ensures
        text(bytes, at) matches Ok((t, end)) ==> fits_unsigned(encode_utf8(t).len() as int, 8)
            && encode_utf8(t) == window(bytes, at + 8, le_nat(window(bytes, at, 8))) && end == at
            + 8 + encode_utf8(t).len(),
{
    if text(bytes, at) is Ok {
        let count = le_nat(window(bytes, at, 8));
        assert(count * 1 == count);
        lemma_le_nat_bound(window(bytes, at, 8));
        decode_utf8_encode_utf8(window(bytes, at + 8, count));
    }
}

/// A decoded value that holds no other value is one that its schema
/// describes.
pub proof fn lemma_plain_conforms(schema: SchemaView, nested: SchemaView, bytes: Seq<u8>, at: nat)
    requires
        is_plain(schema),
    ensures
        decode_value(schema, nested, bytes, at) matches Ok((value, end)) ==> conforms(
            value,
            schema,
            nested,
        ),
{
    if decode_value(schema, nested, bytes, at) is Ok {
        match schema {
            SchemaView::U8 | SchemaView::I8 => {
                lemma_le_nat_bound(window(bytes, at, 1));
                lemma_twos_complement(le_nat(window(bytes, at, 1)), 0, 1);
            },
            SchemaView::U16 | SchemaView::I16 => {
                lemma_le_nat_bound(window(bytes, at, 2));
                lemma_twos_complement(le_nat(window(bytes, at, 2)), 0, 2);
            },
            SchemaView::U32 | SchemaView::I32 | SchemaView::F32 => {
                lemma_le_nat_bound(window(bytes, at, 4));
                lemma_twos_complement(le_nat(window(bytes, at, 4)), 0, 4);
            },
            SchemaView::U64 | SchemaView::I64 | SchemaView::F64 => {
                lemma_le_nat_bound(window(bytes, at, 8));
                lemma_twos_complement(le_nat(window(bytes, at, 8)), 0, 8);
            },
            SchemaView::U128 | SchemaView::I128 => {
                lemma_le_nat_bound(window(bytes, at, 16));
                lemma_twos_complement(le_nat(window(bytes, at, 16)), 0, 16);
            },
            SchemaView::Str | SchemaView::String => {
                lemma_text_fits(bytes, at);
            },
            SchemaView::Bytes | SchemaView::ByteBuf => {
                let count = le_nat(window(bytes, at, 8));
                assert(count * 1 == count);
                lemma_le_nat_bound(window(bytes, at, 8));
            },
            _ => {},
        }
    }
}

/// A decoded value is one that its schema describes: it has the shape of the
/// schema, field names included, and what its sequences, maps and options
/// hold has the nested shape.
pub proof fn lemma_decoded_conforms(schema: SchemaView, nested: SchemaView, bytes: Seq<u8>, at: nat)
    ensures
        decode_value(schema, nested, bytes, at) matches Ok((value, end)) ==> conforms(
            value,
            schema,
            nested,
        ),
    decreases bytes.len() - at, schema, 0nat,
{
    if at <= bytes.len() {
        match schema {
            SchemaView::Option => {
                if unsigned(bytes, at, 1) is Ok {
                    lemma_decoded_conforms(nested, nested, bytes, at + 1);
                }
            },
            SchemaView::Sequence => {
                if bytes.len() >= at + 8 {
                    lemma_le_nat_bound(window(bytes, at, 8));
                    lemma_elements_conform(
                        nested,
                        bytes,
                        at + 8,
                        le_nat(window(bytes, at, 8)),
                        Seq::empty(),
                    );
                }
            },
            SchemaView::Mapping => {
                if bytes.len() >= at + 8 {
                    lemma_le_nat_bound(window(bytes, at, 8));
                    lemma_entries_conform(
                        nested,
                        bytes,
                        at + 8,
                        le_nat(window(bytes, at, 8)),
                        Seq::empty(),
                    );
                }
            },
            SchemaView::Struct { name, fields } => {
                lemma_fields_conform(fields, nested, bytes, at, 0, Seq::empty());
            },
            _ => {
                lemma_plain_conforms(schema, nested, bytes, at);
            },
        }
    }
}

/// The decoded fields of a struct carry the names of the schema in its order,
/// and each is a value that its shape describes.
pub proof fn lemma_fields_conform(
    fields: Seq<(Seq<char>, SchemaView)>,
    nested: SchemaView,
    bytes: Seq<u8>,
    at: nat,
    from: nat,
    done: Seq<(Seq<char>, ValueView)>,
)
    requires
        at <= bytes.len(),
        from <= fields.len(),
        done.len() == from,
        forall|i: int|
            0 <= i < done.len() ==> (#[trigger] done[i]).0 == fields[i].0 && conforms(
                done[i].1,
                fields[i].1,
                nested,
            ),
    ensures
        decode_fields(fields, nested, bytes, at, from, done) matches Ok((values, end))
            ==> values.len() == fields.len() && forall|i: int|
            0 <= i < values.len() ==> (#[trigger] values[i]).0 == fields[i].0 && conforms(
                values[i].1,
                fields[i].1,
                nested,
            ),
    decreases bytes.len() - at, fields, fields.len() - from,
{
    if from < fields.len() {
        lemma_decoded_conforms(fields[from as int].1, nested, bytes, at);
        match decode_value(fields[from as int].1, nested, bytes, at) {
            Ok((value, end)) => {
                if at <= end <= bytes.len() {
                    lemma_fields_conform(
                        fields,
                        nested,
                        bytes,
                        end,
                        from + 1,
                        done.push((fields[from as int].0, value)),
                    );
                }
            },
            Err(_) => {},
        }
    }
}

/// The decoded elements of a sequence are as many as were counted, and each
/// is a value that the nested shape describes.
pub proof fn lemma_elements_conform(
    nested: SchemaView,
    bytes: Seq<u8>,
    at: nat,
    count: nat,
    done: Seq<ValueView>,
)
    requires
        at <= bytes.len(),
        forall|i: int| 0 <= i < done.len() ==> conforms(#[trigger] done[i], nested, nested),
    ensures
        decode_elements(nested, bytes, at, count, done) matches Ok((values, end)) ==> values.len()
            == done.len() + count && forall|i: int|
            0 <= i < values.len() ==> conforms(#[trigger] values[i], nested, nested),
    decreases bytes.len() - at, nested, count,
{
    if count > 0 {
        lemma_decoded_conforms(nested, nested, bytes, at);
        match decode_value(nested, nested, bytes, at) {
            Ok((value, end)) => {
                if at <= end <= bytes.len() {
                    lemma_elements_conform(
                        nested,
                        bytes,
                        end,
                        (count - 1) as nat,
                        done.push(value),
                    );
                }
            },
            Err(_) => {},
        }
    }
}

/// The decoded entries of a map are at most as many as were counted, no key
/// occurs twice among them, and each value is one that the nested shape
/// describes.
pub proof fn lemma_entries_conform(
    nested: SchemaView,
    bytes: Seq<u8>,
    at: nat,
    count: nat,
    done: Seq<(Seq<char>, ValueView)>,
)
    requires
        at <= bytes.len(),
        distinct_keys(done),
        forall|i: int|
            0 <= i < done.len() ==> fits_unsigned(
                encode_utf8((#[trigger] done[i]).0).len() as int,
                8,
            ) && conforms(done[i].1, nested, nested),
    ensures
        decode_entries(nested, bytes, at, count, done) matches Ok((entries, end)) ==> entries.len()
            <= done.len() + count && distinct_keys(entries) && forall|i: int|
            0 <= i < entries.len() ==> fits_unsigned(
                encode_utf8((#[trigger] entries[i]).0).len() as int,
                8,
            ) && conforms(entries[i].1, nested, nested),
    decreases bytes.len() - at, nested, count,
{
    if count > 0 {
        match text(bytes, at) {
            Ok((key, start)) => {
                lemma_text_fits(bytes, at);
                lemma_decoded_conforms(nested, nested, bytes, start);
                match decode_value(nested, nested, bytes, start) {
                    Ok((value, end)) => {
                        if start <= end <= bytes.len() {
                            lemma_put(done, key, value);
                            lemma_entries_conform(
                                nested,
                                bytes,
                                end,
                                (count - 1) as nat,
                                put(done, key, value),
                            );
                        }
                    },
                    Err(_) => {},
                }
            },
            Err(_) => {},
        }
    }
}

/// A value that a schema describes has the shape of that schema: the same
/// kind, and for a struct the same name and the same fields under the same
/// names in the same order.
pub proof fn lemma_conforms_shape(value: ValueView, schema: SchemaView, nested: SchemaView)
    requires
        conforms(value, schema, nested),
    ensures
        shape_of(value) == schema,
    decreases value,
{
    match value {
        ValueView::Struct { name, fields } => {
            let shapes = schema->Struct_fields;
            assert forall|i: int| 0 <= i < fields.len() implies shape_of(fields[i].1)
                == shapes[i].1 by {
                assert(fields[i].0 == shapes[i].0);
                lemma_conforms_shape(fields[i].1, shapes[i].1, nested);
            }
            assert(shape_of(value)->Struct_fields =~= shapes);
        },
        _ => {},
    }
}

/// A decoded value has the shape of the schema that guided the decoding.
pub proof fn lemma_decoded_shape(schema: SchemaView, nested: SchemaView, bytes: Seq<u8>, at: nat)
    ensures
        decode_value(schema, nested, bytes, at) matches Ok((value, end)) ==> shape_of(value)
            == schema,
{
    lemma_decoded_conforms(schema, nested, bytes, at);
    match decode_value(schema, nested, bytes, at) {
        Ok((value, end)) => {
            lemma_conforms_shape(value, schema, nested);
        },
        Err(_) => {},
    }
}

/// The position at which the field of index `index` starts, in a struct that
/// starts at `at`: the first where the struct starts, each other where the
/// one before it ended.
pub open spec fn field_start(
    fields: Seq<(Seq<char>, SchemaView)>,
    nested: SchemaView,
    bytes: Seq<u8>,
    at: nat,
    index: nat,
) -> nat
    decreases index,
{
    if index == 0 {
        at
    } else {
        let before = field_start(fields, nested, bytes, at, (index - 1) as nat);
        match decode_value(fields[index - 1].1, nested, bytes, before) {
            Ok((value, end)) => end,
            Err(_) => before,
        }
    }
}

/// Whether the first `count` of `values` are the fields of the schema in its
/// order, each decoded from where the one before it ended.
pub open spec fn fields_in_order(
    fields: Seq<(Seq<char>, SchemaView)>,
    nested: SchemaView,
    bytes: Seq<u8>,
    at: nat,
    values: Seq<(Seq<char>, ValueView)>,
    count: nat,
) -> bool {
    forall|i: int|
        0 <= i < count ==> {
            &&& (#[trigger] values[i]).0 == fields[i].0
            &&& field_start(fields, nested, bytes, at, i as nat) <= field_start(
                fields,
                nested,
                bytes,
                at,
                (i + 1) as nat,
            )
            &&& decode_value(
                fields[i].1,
                nested,
                bytes,
                field_start(fields, nested, bytes, at, i as nat),
            ) == Ok::<(ValueView, nat), DecodeError>(
                (values[i].1, field_start(fields, nested, bytes, at, (i + 1) as nat)),
            )
        }
}

/// The fields of a struct are read in the order of the schema, each from
/// where the one before it ended, and the struct ends where its last field
/// ends: the bytes of a field are read entirely before a byte of the next.
pub proof fn lemma_struct_order(
    name: Seq<char>,
    fields: Seq<(Seq<char>, SchemaView)>,
    nested: SchemaView,
    bytes: Seq<u8>,
    at: nat,
)
    requires
        decode_value(SchemaView::Struct { name, fields }, nested, bytes, at) is Ok,
    ensures
        ({
            let (value, end) = decode_value(
                SchemaView::Struct { name, fields },
                nested,
                bytes,
                at,
            )->Ok_0;
            &&& value is Struct
            &&& value->Struct_name == name
            &&& value->Struct_fields.len() == fields.len()
            &&& end == field_start(fields, nested, bytes, at, fields.len())
            &&& fields_in_order(fields, nested, bytes, at, value->Struct_fields, fields.len())
        }),
{
    lemma_fields_order(fields, nested, bytes, at, at, 0, Seq::empty());
}

/// The fields from the `from`-th on are read in order after those before
/// them.
pub proof fn lemma_fields_order(
    fields: Seq<(Seq<char>, SchemaView)>,
    nested: SchemaView,
    bytes: Seq<u8>,
    start: nat,
    at: nat,
    from: nat,
    done: Seq<(Seq<char>, ValueView)>,
)
    requires
        from <= fields.len(),
        done.len() == from,
        at == field_start(fields, nested, bytes, start, from),
        fields_in_order(fields, nested, bytes, start, done, from),
        decode_fields(fields, nested, bytes, at, from, done) is Ok,
    ensures
        ({
            let (values, end) = decode_fields(fields, nested, bytes, at, from, done)->Ok_0;
            &&& values.len() == fields.len()
            &&& end == field_start(fields, nested, bytes, start, fields.len())
            &&& fields_in_order(fields, nested, bytes, start, values, fields.len())
        }),
    decreases fields.len() - from,
{
    if from < fields.len() {
        let (value, end) = decode_value(fields[from as int].1, nested, bytes, at)->Ok_0;
        let more = done.push((fields[from as int].0, value));
        assert(field_start(fields, nested, bytes, start, from + 1) == end);
        assert forall|i: int| 0 <= i < from + 1 implies {
            &&& (#[trigger] more[i]).0 == fields[i].0
            &&& field_start(fields, nested, bytes, start, i as nat) <= field_start(
                fields,
                nested,
                bytes,
                start,
                (i + 1) as nat,
            )
            &&& decode_value(
                fields[i].1,
                nested,
                bytes,
                field_start(fields, nested, bytes, start, i as nat),
            ) == Ok::<(ValueView, nat), DecodeError>(
                (more[i].1, field_start(fields, nested, bytes, start, (i + 1) as nat)),
            )
        } by {
            if i < from {
                assert(more[i] == done[i]);
            }
        }
        lemma_fields_order(fields, nested, bytes, start, end, from + 1, more);
    }
}

} // verus!
