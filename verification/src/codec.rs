//! The wire codec: what the bytes of a primitive mean, and the calls that
//! read one.
//!
//! Integers have a fixed width and are written least significant byte first.
//! A boolean is one byte, 0 or 1. A character is its UTF-8 encoding. A string
//! is a length of eight bytes followed by that many bytes of UTF-8.

use bincode::Options;
use vstd::prelude::*;
use vstd::utf8::*;

verus! {

/// The number that a run of bytes spells, least significant byte first.
pub open spec fn le_nat(bytes: Seq<u8>) -> nat
    decreases bytes.len(),
{
    if bytes.len() == 0 {
        0
    } else {
        bytes[0] as nat + 256 * le_nat(bytes.drop_first())
    }
}

/// 256 to the power of `width`: how many values `width` bytes can spell.
pub open spec fn pow256(width: nat) -> nat
    decreases width,
{
    if width == 0 {
        1
    } else {
        256 * pow256((width - 1) as nat)
    }
}

/// The signed number that `n` stands for in two's complement on `width`
/// bytes.
pub open spec fn twos_complement(n: nat, width: nat) -> int {
    if 2 * n < pow256(width) {
        n as int
    } else {
        n - pow256(width)
    }
}

/// The `width` bytes that spell `n`, least significant byte first.
pub open spec fn le_bytes(n: nat, width: nat) -> Seq<u8>
    decreases width,
{
    if width == 0 {
        Seq::empty()
    } else {
        seq![(n % 256) as u8] + le_bytes(n / 256, (width - 1) as nat)
    }
}

/// The number that stands for the signed number `x` in two's complement on
/// `width` bytes.
pub open spec fn twos_complement_of(x: int, width: nat) -> nat {
    if x >= 0 {
        x as nat
    } else {
        (x + pow256(width)) as nat
    }
}

/// Whether `width` bytes can spell `n`.
pub open spec fn fits_unsigned(n: int, width: nat) -> bool {
    0 <= n < pow256(width)
}

/// Whether `width` bytes can spell `x` in two's complement.
pub open spec fn fits_signed(x: int, width: nat) -> bool {
    -pow256(width) <= 2 * x < pow256(width)
}

/// A run of bytes spells a number below 256 to the power of its length.
pub proof fn lemma_le_nat_bound(bytes: Seq<u8>)
    ensures
        le_nat(bytes) < pow256(bytes.len()),
    decreases bytes.len(),
{
    if bytes.len() > 0 {
        lemma_le_nat_bound(bytes.drop_first());
    }
}

/// The bytes that spell a number are as many as were asked for, and spell it
/// where it fits.
pub proof fn lemma_le_bytes(n: nat, width: nat)
    ensures
        le_bytes(n, width).len() == width,
        n < pow256(width) ==> le_nat(le_bytes(n, width)) == n,
    decreases width,
{
    if width > 0 {
        let rest = le_bytes(n / 256, (width - 1) as nat);
        lemma_le_bytes(n / 256, (width - 1) as nat);
        assert(le_bytes(n, width).drop_first() =~= rest);
    }
}

/// Two's complement is undone by its inverse, and gives a number that fits.
pub proof fn lemma_twos_complement(n: nat, x: int, width: nat)
    ensures
        n < pow256(width) ==> fits_signed(twos_complement(n, width), width),
        fits_signed(x, width) ==> twos_complement_of(x, width) < pow256(width) && twos_complement(
            twos_complement_of(x, width),
            width,
        ) == x,
{
}

/// The boolean that the first byte spells, if it spells one.
pub open spec fn wire_bool(bytes: Seq<u8>) -> Option<bool> {
    if bytes.len() >= 1 && bytes[0] == 0 {
        Some(false)
    } else if bytes.len() >= 1 && bytes[0] == 1 {
        Some(true)
    } else {
        None
    }
}

/// The character whose UTF-8 encoding the bytes start with, if they start
/// with one.
pub open spec fn wire_char(bytes: Seq<u8>) -> Option<char> {
    if valid_first_scalar(bytes) {
        Some(decode_first_scalar(bytes) as char)
    } else {
        None
    }
}

/// The length that the first eight bytes spell.
pub open spec fn length_prefix(bytes: Seq<u8>) -> nat {
    le_nat(bytes.subrange(0, 8))
}

/// Whether the bytes start with a length and hold as many bytes after it.
pub open spec fn framed(bytes: Seq<u8>) -> bool {
    bytes.len() >= 8 && length_prefix(bytes) <= bytes.len() - 8
}

/// The bytes that a length prefix announces: those that follow it.
pub open spec fn payload(bytes: Seq<u8>) -> Seq<u8> {
    bytes.subrange(8, 8 + length_prefix(bytes) as int)
}

/// The text of a string on the wire: eight bytes of length, then that many
/// bytes of UTF-8. `None` where the bytes do not start with such a string.
pub open spec fn wire_text(bytes: Seq<u8>) -> Option<Seq<char>> {
    if framed(bytes) && valid_utf8(payload(bytes)) {
        Some(decode_utf8(payload(bytes)))
    } else {
        None
    }
}

/// Reads a `u8` with `bincode::Options::deserialize`, under the fixed-width
/// configuration that allows trailing bytes. The claim: the value is the first
/// byte, and the call fails exactly on an empty input.
#[verifier::external_body]
pub(crate) fn codec_u8(bytes: &[u8]) -> (r: Option<u8>)
    ensures
        bytes@.len() >= 1 ==> r is Some && r->Some_0 as nat == le_nat(bytes@.subrange(0, 1)),
        bytes@.len() < 1 ==> r is None,
{
    bincode::DefaultOptions::new()
        .with_fixint_encoding()
        .allow_trailing_bytes()
        .deserialize::<u8>(bytes)
        .ok()
}

/// Reads a `u16` with `bincode::Options::deserialize`, configured as above.
/// The claim: the value is spelled by the first two bytes, least significant
/// first, and the call fails exactly where fewer are there.
#[verifier::external_body]
pub(crate) fn codec_u16(bytes: &[u8]) -> (r: Option<u16>)
    ensures
        bytes@.len() >= 2 ==> r is Some && r->Some_0 as nat == le_nat(bytes@.subrange(0, 2)),
        bytes@.len() < 2 ==> r is None,
{
    bincode::DefaultOptions::new()
        .with_fixint_encoding()
        .allow_trailing_bytes()
        .deserialize::<u16>(bytes)
        .ok()
}

/// Reads a `u32` with `bincode::Options::deserialize`, configured as above.
/// The claim: the value is spelled by the first four bytes, least significant
/// first, and the call fails exactly where fewer are there.
#[verifier::external_body]
pub(crate) fn codec_u32(bytes: &[u8]) -> (r: Option<u32>)
    ensures
        bytes@.len() >= 4 ==> r is Some && r->Some_0 as nat == le_nat(bytes@.subrange(0, 4)),
        bytes@.len() < 4 ==> r is None,
{
    bincode::DefaultOptions::new()
        .with_fixint_encoding()
        .allow_trailing_bytes()
        .deserialize::<u32>(bytes)
        .ok()
}

/// Reads a `u64` with `bincode::Options::deserialize`, configured as above.
/// The claim: the value is spelled by the first eight bytes, least significant
/// first, and the call fails exactly where fewer are there.
#[verifier::external_body]
pub(crate) fn codec_u64(bytes: &[u8]) -> (r: Option<u64>)
    ensures
        bytes@.len() >= 8 ==> r is Some && r->Some_0 as nat == le_nat(bytes@.subrange(0, 8)),
        bytes@.len() < 8 ==> r is None,
{
    bincode::DefaultOptions::new()
        .with_fixint_encoding()
        .allow_trailing_bytes()
        .deserialize::<u64>(bytes)
        .ok()
}

/// Reads a `u128` with `bincode::Options::deserialize`, configured as above.
/// The claim: the value is spelled by the first sixteen bytes, least
/// significant first, and the call fails exactly where fewer are there.
#[verifier::external_body]
pub(crate) fn codec_u128(bytes: &[u8]) -> (r: Option<u128>)
    ensures
        bytes@.len() >= 16 ==> r is Some && r->Some_0 as nat == le_nat(bytes@.subrange(0, 16)),
        bytes@.len() < 16 ==> r is None,
{
    bincode::DefaultOptions::new()
        .with_fixint_encoding()
        .allow_trailing_bytes()
        .deserialize::<u128>(bytes)
        .ok()
}

/// Reads an `i8` with `bincode::Options::deserialize`, configured as above.
/// The claim: the value is the first byte in two's complement, and the call
/// fails exactly on an empty input.
#[verifier::external_body]
pub(crate) fn codec_i8(bytes: &[u8]) -> (r: Option<i8>)
    ensures
        bytes@.len() >= 1 ==> r is Some && r->Some_0 as int == twos_complement(
            le_nat(bytes@.subrange(0, 1)),
            1,
        ),
        bytes@.len() < 1 ==> r is None,
{
    bincode::DefaultOptions::new()
        .with_fixint_encoding()
        .allow_trailing_bytes()
        .deserialize::<i8>(bytes)
        .ok()
}

/// Reads an `i16` with `bincode::Options::deserialize`, configured as above.
/// The claim: the value is spelled by the first two bytes, least significant
/// first, in two's complement, and the call fails exactly where fewer are
/// there.
#[verifier::external_body]
pub(crate) fn codec_i16(bytes: &[u8]) -> (r: Option<i16>)
    ensures
        bytes@.len() >= 2 ==> r is Some && r->Some_0 as int == twos_complement(
            le_nat(bytes@.subrange(0, 2)),
            2,
        ),
        bytes@.len() < 2 ==> r is None,
{
    bincode::DefaultOptions::new()
        .with_fixint_encoding()
        .allow_trailing_bytes()
        .deserialize::<i16>(bytes)
        .ok()
}

/// Reads an `i32` with `bincode::Options::deserialize`, configured as above.
/// The claim: the value is spelled by the first four bytes, least significant
/// first, in two's complement, and the call fails exactly where fewer are
/// there.
#[verifier::external_body]
pub(crate) fn codec_i32(bytes: &[u8]) -> (r: Option<i32>)
    ensures
        bytes@.len() >= 4 ==> r is Some && r->Some_0 as int == twos_complement(
            le_nat(bytes@.subrange(0, 4)),
            4,
        ),
        bytes@.len() < 4 ==> r is None,
{
    bincode::DefaultOptions::new()
        .with_fixint_encoding()
        .allow_trailing_bytes()
        .deserialize::<i32>(bytes)
        .ok()
}

/// Reads an `i64` with `bincode::Options::deserialize`, configured as above.
/// The claim: the value is spelled by the first eight bytes, least significant
/// first, in two's complement, and the call fails exactly where fewer are
/// there.
#[verifier::external_body]
pub(crate) fn codec_i64(bytes: &[u8]) -> (r: Option<i64>)
    ensures
        bytes@.len() >= 8 ==> r is Some && r->Some_0 as int == twos_complement(
            le_nat(bytes@.subrange(0, 8)),
            8,
        ),
        bytes@.len() < 8 ==> r is None,
{
    bincode::DefaultOptions::new()
        .with_fixint_encoding()
        .allow_trailing_bytes()
        .deserialize::<i64>(bytes)
        .ok()
}

/// Reads an `i128` with `bincode::Options::deserialize`, configured as above.
/// The claim: the value is spelled by the first sixteen bytes, least
/// significant first, in two's complement, and the call fails exactly where
/// fewer are there.
#[verifier::external_body]
pub(crate) fn codec_i128(bytes: &[u8]) -> (r: Option<i128>)
    ensures
        bytes@.len() >= 16 ==> r is Some && r->Some_0 as int == twos_complement(
            le_nat(bytes@.subrange(0, 16)),
            16,
        ),
        bytes@.len() < 16 ==> r is None,
{
    bincode::DefaultOptions::new()
        .with_fixint_encoding()
        .allow_trailing_bytes()
        .deserialize::<i128>(bytes)
        .ok()
}

/// Reads a `bool` with `bincode::Options::deserialize`, configured as above.
/// The claim: a first byte of 0 is `false`, one of 1 is `true`, and the call
/// fails on any other byte and on an empty input.
#[verifier::external_body]
pub(crate) fn codec_bool(bytes: &[u8]) -> (r: Option<bool>)
    ensures
        r == wire_bool(bytes@),
{
    bincode::DefaultOptions::new()
        .with_fixint_encoding()
        .allow_trailing_bytes()
        .deserialize::<bool>(bytes)
        .ok()
}

/// Reads a `char` with `bincode::Options::deserialize`, configured as above.
/// The claim: the value is the character whose UTF-8 encoding the input
/// starts with, and the call fails exactly where it starts with none.
#[verifier::external_body]
pub(crate) fn codec_char(bytes: &[u8]) -> (r: Option<char>)
    ensures
        r == wire_char(bytes@),
{
    bincode::DefaultOptions::new()
        .with_fixint_encoding()
        .allow_trailing_bytes()
        .deserialize::<char>(bytes)
        .ok()
}

/// Reads a `String` with `bincode::Options::deserialize`, configured as
/// above. The claim: the input starts with eight bytes of length, least
/// significant first; the value is the text that the next so many bytes
/// encode in UTF-8; the call fails exactly where fewer bytes are there or
/// they are not valid UTF-8.
#[verifier::external_body]
pub(crate) fn codec_string(bytes: &[u8]) -> (r: Option<String>)
    ensures
        wire_text(bytes@) is Some ==> r is Some && r->Some_0@ == wire_text(bytes@)->Some_0,
        wire_text(bytes@) is None ==> r is None,
{
    bincode::DefaultOptions::new()
        .with_fixint_encoding()
        .allow_trailing_bytes()
        .deserialize::<String>(bytes)
        .ok()
}

} // verus!
