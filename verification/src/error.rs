//! Error types for encoding and decoding.
use vstd::prelude::*;

verus! {

/// An error that occurred while decoding a protobuf message.
#[derive(Clone, Debug, PartialEq, Eq)]
#[non_exhaustive]
pub enum DecodeError {
    /// The buffer ended before a complete value could be read.
    UnexpectedEof,
    /// A varint exceeded the maximum encoded length of 10 bytes.
    VarintTooLong,
    /// The wire type in a tag was not a recognised protobuf wire type; it
    /// carries the raw 3-bit value from the tag.
    InvalidWireType(u32),
    /// The field number decoded from a tag was zero, or the tag varint
    /// overflowed a `u32`.
    InvalidFieldNumber,
    /// The message or sub-message length exceeded the configured size limit.
    MessageTooLarge,
    /// The wire type of an incoming field did not match the type expected for
    /// that field number.
    WireTypeMismatch {
        /// The field's number.
        field_number: u32,
        /// The wire type the field's type needs.
        expected: u8,
        /// The wire type the input had.
        actual: u8,
    },
    /// A `string` field contained bytes that are not valid UTF-8.
    InvalidUtf8,
    /// The message nesting depth exceeded the recursion limit.
    RecursionLimitExceeded,
    /// An end-group tag did not match the open group, or came outside one.
    InvalidEndGroup(u32),
    /// A MessageSet `Item` group was malformed.
    InvalidMessageSet(&'static str),
    /// Decoding met more unknown fields than a caller's limit allows. The
    /// decoder of this crate counts no unknown fields, so it never returns
    /// this error; the variant is kept for callers that do.
    UnknownFieldLimitExceeded,
    /// A custom `string` or `bytes` representation rejected the payload.
    Custom(&'static str),
}

/// An error that occurred while encoding a protobuf message.
#[derive(Clone, Copy, Debug, PartialEq, Eq, Structural)]
#[non_exhaustive]
pub enum EncodeError {
    /// The message's encoded size exceeds the 2 GiB protobuf limit.
    MessageTooLarge,
}

} // verus!
