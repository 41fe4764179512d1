use std::collections::BTreeMap;

use buffa::error::DecodeError;
use buffa::table::kinds::{Fixed32Required, Fixed64Required, StrRequired, Uint64Required};
use buffa::table::map::MapVt;
use buffa::table::map_entry::{decode_tag, merge_entry, skip_field, MapEntryFields, WireValue};
use buffa::table::message::{Table, ABI};
use buffa::table::entry::Entry;
use buffa::table::kind::Kind;
use buffa::table::shape::{DirectMsgVt, Enumeration, ImplicitClosed, ImplicitOpen};

#[derive(Clone, Copy, Debug, PartialEq)]
enum Color {
    Red,
    Green,
}

impl Default for Color {
    fn default() -> Self {
        Color::Red
    }
}

impl Enumeration for Color {
    fn spec_from_i32(value: i32) -> Option<Self> {
        Self::from_i32(value)
    }

    fn spec_to_i32(&self) -> i32 {
        self.to_i32()
    }

    fn from_i32(value: i32) -> Option<Self> {
        match value {
            0 => Some(Self::Red),
            1 => Some(Self::Green),
            _ => None,
        }
    }

    fn to_i32(&self) -> i32 {
        match self {
            Self::Red => 0,
            Self::Green => 1,
        }
    }

    fn numbers() -> &'static [i32] {
        &[0, 1]
    }
}

#[derive(Debug, Default, PartialEq)]
struct Point {
    x: i32,
}

fn u64_map() -> MapVt {
    MapVt::new::<BTreeMap<u64, u64>, Uint64Required, Uint64Required>()
}

fn fields(key: Option<WireValue>, value: Option<WireValue>, known: bool) -> MapEntryFields {
    MapEntryFields { key, value, known }
}

#[test]
fn an_entry_gives_its_key_and_value() {
    let got = merge_entry(&u64_map(), &[0x08, 0x05, 0x10, 0x96, 0x01], 100);
    assert_eq!(got, Ok(fields(Some(WireValue::Varint(5)), Some(WireValue::Varint(150)), true)));
}

#[test]
fn an_empty_entry_has_neither_key_nor_value() {
    assert_eq!(merge_entry(&u64_map(), &[], 100), Ok(fields(None, None, true)));
}

#[test]
fn the_last_key_and_value_of_an_entry_win() {
    let payload = [0x10, 0x02, 0x08, 0x01, 0x08, 0x03, 0x10, 0x04];
    let got = merge_entry(&u64_map(), &payload, 100);
    assert_eq!(got, Ok(fields(Some(WireValue::Varint(3)), Some(WireValue::Varint(4)), true)));
}

#[test]
fn other_fields_of_an_entry_are_skipped() {
    // Field 3 varint, field 4 fixed32, field 5 length-delimited, field 6 a
    // group holding a field 1 varint, then the key.
    let payload = [
        0x18, 0xff, 0x01, 0x25, 1, 2, 3, 4, 0x2a, 0x02, 0xaa, 0xbb, 0x33, 0x08, 0x01, 0x34, 0x08,
        0x09,
    ];
    let got = merge_entry(&u64_map(), &payload, 100);
    assert_eq!(got, Ok(fields(Some(WireValue::Varint(9)), None, true)));
}

#[test]
fn a_group_in_an_entry_takes_a_level_of_nesting() {
    let payload = [0x33, 0x08, 0x01, 0x34];
    assert_eq!(merge_entry(&u64_map(), &payload, 0), Err(DecodeError::RecursionLimitExceeded));
    assert_eq!(merge_entry(&u64_map(), &payload, 1), Ok(fields(None, None, true)));
    let nested = [0x33, 0x3b, 0x3c, 0x34];
    assert_eq!(merge_entry(&u64_map(), &nested, 1), Err(DecodeError::RecursionLimitExceeded));
    assert_eq!(merge_entry(&u64_map(), &nested, 2), Ok(fields(None, None, true)));
}

#[test]
fn a_group_must_close_with_its_own_number() {
    assert_eq!(merge_entry(&u64_map(), &[0x33, 0x3c], 5), Err(DecodeError::InvalidEndGroup(7)));
    assert_eq!(merge_entry(&u64_map(), &[0x1c], 5), Err(DecodeError::InvalidEndGroup(3)));
    assert_eq!(merge_entry(&u64_map(), &[0x33, 0x08], 5), Err(DecodeError::UnexpectedEof));
}

#[test]
fn an_entry_field_with_the_wrong_wire_type_is_refused() {
    let got = merge_entry(&u64_map(), &[0x0a, 0x01, 0x41], 100);
    assert_eq!(got, Err(DecodeError::WireTypeMismatch { field_number: 1, expected: 0, actual: 2 }));
    let got = merge_entry(&u64_map(), &[0x15, 0, 0, 0, 0], 100);
    assert_eq!(got, Err(DecodeError::WireTypeMismatch { field_number: 2, expected: 0, actual: 5 }));
}

#[test]
fn bad_tags_in_an_entry_are_refused() {
    assert_eq!(merge_entry(&u64_map(), &[0x00], 100), Err(DecodeError::InvalidFieldNumber));
    assert_eq!(merge_entry(&u64_map(), &[0x0f], 100), Err(DecodeError::InvalidWireType(7)));
    assert_eq!(merge_entry(&u64_map(), &[0x08], 100), Err(DecodeError::UnexpectedEof));
    let long = [0x80, 0x80, 0x80, 0x80, 0x10];
    assert_eq!(merge_entry(&u64_map(), &long, 100), Err(DecodeError::InvalidFieldNumber));
}

#[test]
fn a_string_key_must_be_utf8() {
    let vt = MapVt::new::<BTreeMap<String, u64>, StrRequired, Uint64Required>();
    let got = merge_entry(&vt, &[0x0a, 0x02, b'h', b'i'], 100);
    assert_eq!(got, Ok(fields(Some(WireValue::Len(b"hi".to_vec())), None, true)));
    assert_eq!(merge_entry(&vt, &[0x0a, 0x01, 0xff], 100), Err(DecodeError::InvalidUtf8));
    assert_eq!(merge_entry(&vt, &[0x0a, 0x05, b'h'], 100), Err(DecodeError::UnexpectedEof));
}

#[test]
fn fixed_width_values_are_little_endian() {
    let vt = MapVt::new::<BTreeMap<u64, u32>, Uint64Required, Fixed32Required>();
    let got = merge_entry(&vt, &[0x15, 1, 2, 3, 4], 100);
    assert_eq!(got, Ok(fields(None, Some(WireValue::Fixed32(0x0403_0201)), true)));
    assert_eq!(merge_entry(&vt, &[0x15, 1, 2, 3], 100), Err(DecodeError::UnexpectedEof));
    let vt = MapVt::new::<BTreeMap<u64, u64>, Uint64Required, Fixed64Required>();
    let got = merge_entry(&vt, &[0x11, 1, 2, 3, 4, 5, 6, 7, 0x80], 100);
    assert_eq!(got, Ok(fields(None, Some(WireValue::Fixed64(0x8007_0605_0403_0201)), true)));
}

#[test]
fn a_closed_enum_value_it_does_not_know_marks_the_entry() {
    let vt = MapVt::with_enum::<BTreeMap<u64, Color>, Uint64Required, ImplicitClosed<Color>>();
    let got = merge_entry(&vt, &[0x08, 0x01, 0x10, 0x07], 100);
    assert_eq!(got, Ok(fields(Some(WireValue::Varint(1)), Some(WireValue::Varint(7)), false)));
    let got = merge_entry(&vt, &[0x10, 0x07, 0x10, 0x01], 100);
    assert_eq!(got, Ok(fields(None, Some(WireValue::Varint(1)), true)));
    let vt = MapVt::with_enum::<BTreeMap<u64, i32>, Uint64Required, ImplicitOpen<Color>>();
    let got = merge_entry(&vt, &[0x10, 0x07], 100);
    assert_eq!(got, Ok(fields(None, Some(WireValue::Varint(7)), true)));
}

#[test]
fn the_payloads_of_a_message_value_are_joined() {
    let entries: &'static [Entry] = Box::leak(vec![Entry::new(Kind::Int32Implicit, 1, 0, 0)].into_boxed_slice());
    let table: &'static Table<Point> =
        Box::leak(Box::new(Table::new(ABI, entries, &[], &[], None)));
    let point: &'static DirectMsgVt<Point> = Box::leak(Box::new(DirectMsgVt::new(table)));
    let vt = MapVt::with_msg::<BTreeMap<u64, Point>, Uint64Required, Point>(point);
    let payload = [0x12, 0x02, 0x08, 0x01, 0x08, 0x04, 0x12, 0x02, 0x08, 0x02];
    let got = merge_entry(&vt, &payload, 100);
    assert_eq!(
        got,
        Ok(fields(Some(WireValue::Varint(4)), Some(WireValue::Len(vec![0x08, 0x01, 0x08, 0x02])), true))
    );
    assert_eq!(merge_entry(&vt, &payload, 0), Err(DecodeError::RecursionLimitExceeded));
    let got = merge_entry(&vt, &[0x10, 0x01], 100);
    assert_eq!(got, Err(DecodeError::WireTypeMismatch { field_number: 2, expected: 2, actual: 0 }));
}

#[test]
fn a_tag_gives_its_field_number_and_wire_type() {
    assert_eq!(decode_tag(&[0x08], 0), Ok((1, 0, 1)));
    assert_eq!(decode_tag(&[0xff, 0x96, 0x01], 1), Err(DecodeError::InvalidWireType(6)));
    assert_eq!(decode_tag(&[0xa2, 0x06], 0), Ok((100, 2, 2)));
    assert_eq!(decode_tag(&[0xff, 0xff, 0xff, 0xff, 0x10], 0), Err(DecodeError::InvalidFieldNumber));
}

#[test]
fn skipping_a_field_ends_where_it_ends() {
    assert_eq!(skip_field(&[0x96, 0x01, 0x00], 0, 3, 0, 10), Ok(2));
    assert_eq!(skip_field(&[1, 2, 3, 4, 5, 6, 7, 8], 0, 3, 1, 10), Ok(8));
    assert_eq!(skip_field(&[1, 2, 3], 0, 3, 5, 10), Err(DecodeError::UnexpectedEof));
    assert_eq!(skip_field(&[0x02, 0xaa, 0xbb, 0xcc], 0, 3, 2, 10), Ok(3));
    assert_eq!(skip_field(&[0x08, 0x01, 0x1c], 0, 3, 3, 10), Ok(3));
    assert_eq!(skip_field(&[], 0, 3, 4, 10), Err(DecodeError::InvalidEndGroup(3)));
}
