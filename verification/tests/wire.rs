use buffa::error::DecodeError;
use buffa::table::entry::Entry;
use buffa::table::kind::Kind;
use buffa::table::shape::{
    EnumShape, Enumeration, ImplicitClosed, ImplicitOpen, OptionalOpen, RepeatedClosed,
    RepeatedOpen,
};
use buffa::table::wire::{
    decode_varint, encode_varint, size_enum, size_scalar, take_len_delimited, varint_size,
    write_enum, write_scalar,
};

#[derive(Clone, Copy, Debug, PartialEq, Eq)]
enum Color {
    Red,
    Green,
}

impl Enumeration for Color {
    fn spec_from_i32(value: i32) -> Option<Self> {
        Self::from_i32(value)
    }

    fn spec_to_i32(&self) -> i32 {
        self.to_i32()
    }

    fn from_i32(value: i32) -> Option<Self> {
        match value {
            0 => Some(Self::Red),
            1 => Some(Self::Green),
            _ => None,
        }
    }

    fn to_i32(&self) -> i32 {
        match self {
            Self::Red => 0,
            Self::Green => 1,
        }
    }

    fn numbers() -> &'static [i32] {
        &[0, 1]
    }
}

fn scalar(kind: Kind, number: u32, vals: &[u64]) -> Vec<u8> {
    let e = Entry::new(kind, number, 0, 0);
    let mut out = Vec::new();
    write_scalar(&e, vals, &mut out);
    assert_eq!(size_scalar(&e, vals), out.len() as u64);
    out
}

#[test]
fn varints_encode_seven_bits_at_a_time() {
    let mut out = Vec::new();
    encode_varint(150, &mut out);
    assert_eq!(out, [0x96, 0x01]);
    assert_eq!(varint_size(150), 2);
    assert_eq!(varint_size(0), 1);
    assert_eq!(varint_size(u64::MAX), 10);
    let mut max = Vec::new();
    encode_varint(u64::MAX, &mut max);
    assert_eq!(max, [0xff, 0xff, 0xff, 0xff, 0xff, 0xff, 0xff, 0xff, 0xff, 0x01]);
}

#[test]
fn varints_decode_back() {
    for v in [0u64, 1, 127, 128, 150, 300, u32::MAX as u64, u64::MAX] {
        let mut out = Vec::new();
        encode_varint(v, &mut out);
        let n = out.len();
        out.extend_from_slice(&[7, 7]);
        assert_eq!(decode_varint(&out, 0), Ok((v, n)));
    }
    assert_eq!(decode_varint(&[0x80, 0x80], 0), Err(DecodeError::UnexpectedEof));
    assert_eq!(decode_varint(&[0x96, 0x01], 1), Ok((1, 2)));
    assert_eq!(decode_varint(&[0xff; 11], 0), Err(DecodeError::VarintTooLong));
    assert_eq!(decode_varint(&[], 0), Err(DecodeError::UnexpectedEof));
}

#[test]
fn a_length_delimited_payload_is_taken_whole() {
    let buf = [3, b'a', b'b', b'c', 9];
    let (payload, rest) = take_len_delimited(&buf).unwrap();
    assert_eq!(payload, b"abc");
    assert_eq!(rest, [9]);
    assert_eq!(take_len_delimited(&[4, 1, 2]), Err(DecodeError::UnexpectedEof));
    assert_eq!(take_len_delimited(&[0x80]), Err(DecodeError::UnexpectedEof));
}

#[test]
fn scalar_fields_take_their_kinds_layout() {
    // An implicit field at its default writes nothing.
    assert_eq!(scalar(Kind::Int32Implicit, 1, &[0]), Vec::<u8>::new());
    assert_eq!(scalar(Kind::Int32Implicit, 1, &[150]), [0x08, 0x96, 0x01]);
    // A required one is written even at its default.
    assert_eq!(scalar(Kind::Int32Required, 1, &[0]), [0x08, 0x00]);
    // A negative int32 is sign-extended to ten bytes.
    let minus_one = u64::MAX;
    assert_eq!(scalar(Kind::Int32Implicit, 1, &[minus_one]).len(), 11);
    // Zigzag: -1 is 1, 1 is 2.
    assert_eq!(scalar(Kind::Sint32Implicit, 2, &[minus_one]), [0x10, 0x01]);
    assert_eq!(scalar(Kind::Sint64Implicit, 2, &[1]), [0x10, 0x02]);
    // Fixed-width values are little-endian.
    assert_eq!(scalar(Kind::Fixed32Implicit, 3, &[0x0403_0201]), [0x1d, 1, 2, 3, 4]);
    assert_eq!(scalar(Kind::Sfixed64Optional, 1, &[1]), [0x09, 1, 0, 0, 0, 0, 0, 0, 0]);
    assert_eq!(scalar(Kind::Uint64Optional, 1, &[]), Vec::<u8>::new());
    // Repeated: a tag per value; packed: one tag and a length.
    assert_eq!(scalar(Kind::BoolRepeated, 4, &[1, 0]), [0x20, 0x01, 0x20, 0x00]);
    assert_eq!(scalar(Kind::Int32Packed, 5, &[3, 270]), [0x2a, 0x03, 0x03, 0x8e, 0x02]);
    assert_eq!(scalar(Kind::Int32Packed, 5, &[]), Vec::<u8>::new());
}

#[test]
fn enum_fields_are_written_as_int32() {
    let e = Entry::new(Kind::EnumImplicit, 9, 0, 0);
    let mut out = Vec::new();
    write_enum::<ImplicitOpen<Color>>(&e, &0, &mut out);
    assert!(out.is_empty());
    write_enum::<ImplicitOpen<Color>>(&e, &-2, &mut out);
    assert_eq!(out.len(), 11);
    assert_eq!(size_enum::<ImplicitOpen<Color>>(&e, &-2), 11);

    let e = Entry::new(Kind::EnumImplicit, 10, 0, 0);
    let mut out = Vec::new();
    write_enum::<ImplicitClosed<Color>>(&e, &Color::Green, &mut out);
    assert_eq!(out, [0x50, 0x01]);

    let e = Entry::new(Kind::EnumOptional, 1, 0, 0);
    let mut out = Vec::new();
    write_enum::<OptionalOpen<Color>>(&e, &Some(0), &mut out);
    assert_eq!(out, [0x08, 0x00]);

    let e = Entry::new(Kind::EnumPacked, 11, 0, 0);
    let vals = vec![Color::Green, Color::Red, Color::Green];
    let mut out = Vec::new();
    write_enum::<RepeatedClosed<Color>>(&e, &vals, &mut out);
    assert_eq!(out, [0x5a, 0x03, 0x01, 0x00, 0x01]);
    assert_eq!(size_enum::<RepeatedClosed<Color>>(&e, &vals), 5);

    let e = Entry::new(Kind::EnumRepeated, 1, 0, 0);
    let mut out = Vec::new();
    write_enum::<RepeatedOpen<Color>>(&e, &vec![5, 6], &mut out);
    assert_eq!(out, [0x08, 0x05, 0x08, 0x06]);
    assert_eq!(RepeatedOpen::<Color>::len(&vec![5, 6]), 2);
}
