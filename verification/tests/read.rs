use buffa::error::DecodeError;
use buffa::table::entry::Entry;
use buffa::table::kind::Kind;
use buffa::table::read::merge_kind;
use buffa::table::shape::{EnumVt, Enumeration, ImplicitClosed, ImplicitOpen, RepeatedClosed};
use buffa::table::map_entry::decode_tag;
use buffa::table::write::{write_field, FieldData};

#[derive(Clone, Copy, Debug, PartialEq)]
enum Color {
    Red,
    Green,
}

impl Default for Color {
    fn default() -> Self {
        Color::Red
    }
}

impl Enumeration for Color {
    fn spec_from_i32(value: i32) -> Option<Self> {
        Self::from_i32(value)
    }

    fn spec_to_i32(&self) -> i32 {
        self.to_i32()
    }

    fn from_i32(value: i32) -> Option<Self> {
        match value {
            0 => Some(Self::Red),
            1 => Some(Self::Green),
            _ => None,
        }
    }

    fn to_i32(&self) -> i32 {
        match self {
            Self::Red => 0,
            Self::Green => 1,
        }
    }

    fn numbers() -> &'static [i32] {
        &[0, 1]
    }
}

fn read(kind: Kind, data: &mut FieldData, wire: u32, buf: &[u8]) -> Result<usize, DecodeError> {
    let e = Entry::new(kind, 1, 0, 0);
    let mut unknown = Vec::new();
    merge_kind(None, &e, data, &mut unknown, true, wire, buf, 0, 10)
}

fn numbers(kind: Kind, wire: u32, buf: &[u8]) -> Vec<u64> {
    let mut data = FieldData::Numbers(Vec::new());
    read(kind, &mut data, wire, buf).unwrap();
    match data {
        FieldData::Numbers(v) => v,
        _ => panic!("not numbers"),
    }
}

#[test]
fn a_singular_scalar_takes_its_types_bits() {
    assert_eq!(numbers(Kind::Int32Implicit, 0, &[0x96, 0x01]), vec![150]);
    let minus_one = [0xff, 0xff, 0xff, 0xff, 0xff, 0xff, 0xff, 0xff, 0xff, 0x01];
    assert_eq!(numbers(Kind::Int32Implicit, 0, &minus_one), vec![u64::MAX]);
    assert_eq!(numbers(Kind::Uint32Optional, 0, &[0x85, 0x80, 0x80, 0x80, 0x10]), vec![5]);
    assert_eq!(numbers(Kind::Sint32Required, 0, &[0x03]), vec![u64::MAX - 1]);
    assert_eq!(numbers(Kind::Sint64Implicit, 0, &[0x04]), vec![2]);
    assert_eq!(numbers(Kind::BoolImplicit, 0, &[0x02]), vec![1]);
    assert_eq!(numbers(Kind::Sfixed32Implicit, 5, &[0xff, 0xff, 0xff, 0xff]), vec![u64::MAX]);
    assert_eq!(numbers(Kind::Fixed32Implicit, 5, &[0xff, 0xff, 0xff, 0xff]), vec![0xffff_ffff]);
    assert_eq!(numbers(Kind::FloatImplicit, 5, &[0, 0, 0x80, 0x3f]), vec![u64::from(1.0f32.to_bits())]);
    assert_eq!(numbers(Kind::DoubleImplicit, 1, &1.5f64.to_bits().to_le_bytes()), vec![1.5f64.to_bits()]);
}

#[test]
fn a_singular_scalar_keeps_the_last_value() {
    let mut data = FieldData::Numbers(vec![9]);
    assert_eq!(read(Kind::Int64Implicit, &mut data, 0, &[0x07, 0xaa]), Ok(1));
    assert!(matches!(data, FieldData::Numbers(ref v) if v == &vec![7]));
}

#[test]
fn a_repeated_scalar_takes_packed_and_unpacked_values() {
    let mut data = FieldData::Numbers(vec![9]);
    assert_eq!(read(Kind::Uint32Repeated, &mut data, 2, &[0x03, 1, 2, 3]), Ok(4));
    assert_eq!(read(Kind::Uint32Repeated, &mut data, 0, &[0x07]), Ok(1));
    assert!(matches!(data, FieldData::Numbers(ref v) if v == &vec![9, 1, 2, 3, 7]));
    let got = read(Kind::Uint32Packed, &mut data, 5, &[0, 0, 0, 0]);
    assert_eq!(got, Err(DecodeError::WireTypeMismatch { field_number: 1, expected: 2, actual: 5 }));
    assert!(matches!(data, FieldData::Numbers(ref v) if v == &vec![9, 1, 2, 3, 7]));
    assert_eq!(numbers(Kind::Fixed32Packed, 2, &[0x08, 1, 0, 0, 0, 2, 0, 0, 0]), vec![1, 2]);
    let mut data = FieldData::Numbers(Vec::new());
    assert_eq!(read(Kind::Fixed32Packed, &mut data, 2, &[0x03, 1, 0, 0]), Err(DecodeError::UnexpectedEof));
}

#[test]
fn a_singular_field_with_the_wrong_wire_type_is_refused_and_left_alone() {
    let mut data = FieldData::Numbers(vec![5]);
    let got = read(Kind::Int32Implicit, &mut data, 2, &[0x01, 0x01]);
    assert_eq!(got, Err(DecodeError::WireTypeMismatch { field_number: 1, expected: 0, actual: 2 }));
    assert!(matches!(data, FieldData::Numbers(ref v) if v == &vec![5]));
}

#[test]
fn strings_are_checked_and_bytes_are_not() {
    let mut data = FieldData::Texts(vec![b"old".to_vec()]);
    assert_eq!(read(Kind::StrImplicit, &mut data, 2, &[0x02, b'h', b'i']), Ok(3));
    assert!(matches!(data, FieldData::Texts(ref v) if v == &vec![b"hi".to_vec()]));
    assert_eq!(read(Kind::StrImplicit, &mut data, 2, &[0x01, 0xff]), Err(DecodeError::InvalidUtf8));
    let mut data = FieldData::Texts(vec![b"a".to_vec()]);
    assert_eq!(read(Kind::BytesRepeated, &mut data, 2, &[0x01, 0xff]), Ok(2));
    assert!(matches!(data, FieldData::Texts(ref v) if v == &vec![b"a".to_vec(), vec![0xff]]));
    let got = read(Kind::BytesOptional, &mut data, 0, &[0x01]);
    assert_eq!(got, Err(DecodeError::WireTypeMismatch { field_number: 1, expected: 2, actual: 0 }));
}

#[test]
fn a_closed_enum_sends_numbers_it_does_not_know_to_the_unknown_fields() {
    let e = Entry::new(Kind::EnumImplicit, 1, 0, 0);
    let mut data = FieldData::Numbers(vec![1]);
    let mut unknown = Vec::new();
    let got = merge_kind(Some(EnumVt::new::<ImplicitClosed<Color>>()), &e, &mut data, &mut unknown, true, 0, &[0x07], 0, 10);
    assert_eq!(got, Ok(1));
    assert!(matches!(data, FieldData::Numbers(ref v) if v == &vec![1]));
    assert_eq!(unknown, vec![0x08, 0x07]);
    let got = merge_kind(Some(EnumVt::new::<ImplicitClosed<Color>>()), &e, &mut data, &mut unknown, true, 0, &[0x00], 0, 10);
    assert_eq!(got, Ok(1));
    assert!(matches!(data, FieldData::Numbers(ref v) if v == &vec![0]));
    let minus_one = [0xff, 0xff, 0xff, 0xff, 0x0f];
    let mut dropped = Vec::new();
    let got = merge_kind(Some(EnumVt::new::<ImplicitClosed<Color>>()), &e, &mut data, &mut dropped, false, 0, &minus_one, 0, 10);
    assert_eq!(got, Ok(5));
    assert!(dropped.is_empty());
    let got = merge_kind(Some(EnumVt::new::<ImplicitOpen<Color>>()), &e, &mut data, &mut dropped, false, 0, &minus_one, 0, 10);
    assert_eq!(got, Ok(5));
    assert!(matches!(data, FieldData::Numbers(ref v) if v == &vec![u64::MAX]));
}

#[test]
fn a_packed_closed_enum_keeps_the_numbers_it_knows() {
    let e = Entry::new(Kind::EnumRepeated, 2, 0, 0);
    let mut data = FieldData::Numbers(Vec::new());
    let mut unknown = Vec::new();
    let got = merge_kind(Some(EnumVt::new::<RepeatedClosed<Color>>()), &e, &mut data, &mut unknown, true, 2, &[0x03, 0, 7, 1], 0, 10);
    assert_eq!(got, Ok(4));
    assert!(matches!(data, FieldData::Numbers(ref v) if v == &vec![0, 1]));
    assert_eq!(unknown, vec![0x10, 0x07]);
}

#[test]
fn message_values_merge_into_a_singular_field_and_append_to_a_repeated_one() {
    let mut data = FieldData::Children(vec![vec![0x08, 0x01]]);
    assert_eq!(read(Kind::MsgSingular, &mut data, 2, &[0x02, 0x08, 0x02]), Ok(3));
    assert!(matches!(data, FieldData::Children(ref v) if v == &vec![vec![0x08, 0x01, 0x08, 0x02]]));
    let mut data = FieldData::Children(vec![vec![0x08, 0x01]]);
    assert_eq!(read(Kind::MsgRepeated, &mut data, 2, &[0x00]), Ok(1));
    assert!(matches!(data, FieldData::Children(ref v) if v == &vec![vec![0x08, 0x01], Vec::new()]));
    let e = Entry::new(Kind::MsgSingular, 1, 0, 0);
    let mut unknown = Vec::new();
    let got = merge_kind(None, &e, &mut data, &mut unknown, true, 2, &[0x00], 0, 0);
    assert_eq!(got, Err(DecodeError::RecursionLimitExceeded));
    let got = read(Kind::MsgSingular, &mut data, 0, &[0x00]);
    assert_eq!(got, Err(DecodeError::WireTypeMismatch { field_number: 1, expected: 2, actual: 0 }));
}

#[test]
fn a_written_scalar_field_reads_back() {
    for (kind, x) in [
        (Kind::Uint64Implicit, 300u64),
        (Kind::Int64Required, u64::MAX),
        (Kind::Fixed64Optional, 0x0102_0304_0506_0708),
        (Kind::Fixed32Implicit, 0xdead_beef),
        (Kind::DoubleImplicit, 2.5f64.to_bits()),
    ] {
        let e = Entry::new(kind, 9, 0, 0);
        let mut bytes = Vec::new();
        write_field(&e, &FieldData::Numbers(vec![x]), &mut bytes);
        let (number, wire, at) = decode_tag(&bytes, 0).unwrap();
        assert_eq!(number, 9);
        let mut data = FieldData::Numbers(vec![1, 2]);
        let mut unknown = Vec::new();
        let end = merge_kind(None, &e, &mut data, &mut unknown, true, wire, &bytes, at, 10).unwrap();
        assert_eq!(end, bytes.len());
        assert!(matches!(data, FieldData::Numbers(ref v) if v == &vec![x]));
    }
}
