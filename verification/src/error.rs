//! What can go wrong: while decoding, and while recording a shape.

use vstd::prelude::*;

verus! {

/// Why a payload could not be taken from the byte source although its bytes
/// were there: they spell no value of the kind that was asked for.
#[derive(Debug, Clone, Copy, PartialEq, Eq, Structural)]
pub enum IoCause {
    /// The byte of a boolean is neither 0 nor 1.
    InvalidBool,
    /// The bytes of a character are not the UTF-8 encoding of one.
    InvalidChar,
    /// The payload of a string is not valid UTF-8.
    InvalidUtf8,
}

/// Why a decode call failed. A failed call yields no value at all.
#[derive(Debug, Clone, Copy, PartialEq, Eq, Structural)]
pub enum DecodeError {
    /// The source ended before a read was complete.
    UnexpectedEof,
    /// A length prefix asks for more than the rest of the source can hold.
    LengthOverflow,
    /// The byte in front of an optional value is neither 0 nor 1.
    InvalidDiscriminant,
    /// The byte source failed to yield a payload.
    Io(IoCause),
}

/// Why no schema could be recorded.
#[derive(Debug, Clone, PartialEq, Eq)]
pub enum RecorderError {
    /// The type asked for a kind of shape that no schema can express; the
    /// kind is named.
    Unsupported(String),
}

impl View for RecorderError {
    type V = Seq<char>;

    /// The name of the kind that was asked for.
    open spec fn view(&self) -> Seq<char> {
        self->Unsupported_0@
    }
}

} // verus!
