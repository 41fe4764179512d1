use std::collections::BTreeMap;

use buffa::table::entry::Entry;
use buffa::table::kind::Kind;
use buffa::table::kinds::Uint64Required;
use buffa::table::map::MapVt;
use buffa::table::map_entry::{merge_entry, MapEntryFields, WireValue};
use buffa::table::message::{Aux, Table, ABI};
use buffa::table::shape::{DirectMsgVt, ImplicitOpen, Enumeration};
use buffa::table::write::{write_field, FieldData};

#[derive(Clone, Copy, Debug, PartialEq)]
enum Color {
    Red,
}

impl Default for Color {
    fn default() -> Self {
        Color::Red
    }
}

impl Enumeration for Color {
    fn spec_from_i32(value: i32) -> Option<Self> {
        Self::from_i32(value)
    }

    fn spec_to_i32(&self) -> i32 {
        self.to_i32()
    }

    fn from_i32(value: i32) -> Option<Self> {
        match value {
            0 => Some(Self::Red),
            _ => None,
        }
    }

    fn to_i32(&self) -> i32 {
        0
    }

    fn numbers() -> &'static [i32] {
        &[0]
    }
}

#[derive(Debug, Default, PartialEq)]
struct Wide {
    words: [u64; 16],
}

#[derive(Debug, Default, PartialEq)]
struct Point {
    x: i32,
}

fn leak<T>(v: Vec<T>) -> &'static [T] {
    Box::leak(v.into_boxed_slice())
}

fn scalars_table() -> Table<Wide> {
    let entries = leak(vec![
        Entry::new(Kind::Int32Implicit, 1, 0, 0),
        Entry::new(Kind::StrImplicit, 2, 0, 0),
        Entry::new(Kind::BytesRepeated, 3, 0, 0),
        Entry::new(Kind::Uint32Packed, 4, 0, 0),
        Entry::new(Kind::Fixed32Implicit, 5, 0, 0),
        Entry::new(Kind::FloatImplicit, 6, 0, 0),
    ]);
    Table::new(ABI, entries, &[], &[], None)
}

#[test]
fn a_message_is_written_field_by_field_in_entry_order() {
    let table = scalars_table();
    let fields = vec![
        FieldData::Numbers(vec![150]),
        FieldData::Texts(vec![b"hi".to_vec()]),
        FieldData::Texts(vec![b"a".to_vec(), Vec::new()]),
        FieldData::Numbers(vec![1, 2, 3]),
        FieldData::Numbers(vec![0x0102_0304]),
        FieldData::Numbers(vec![u64::from(1.0f32.to_bits())]),
    ];
    let mut out = Vec::new();
    table.write_to(&fields, &[0x99], &mut out);
    let want = vec![
        0x08, 0x96, 0x01, 0x12, 0x02, b'h', b'i', 0x1a, 0x01, b'a', 0x1a, 0x00, 0x22, 0x03, 1, 2, 3,
        0x2d, 4, 3, 2, 1, 0x35, 0x00, 0x00, 0x80, 0x3f,
    ];
    assert_eq!(out, want);
    assert_eq!(table.compute_size(&fields, &[0x99]), want.len());
}

#[test]
fn implicit_fields_at_their_default_are_not_written() {
    let table = scalars_table();
    let fields = vec![
        FieldData::Numbers(vec![0]),
        FieldData::Texts(vec![Vec::new()]),
        FieldData::Texts(Vec::new()),
        FieldData::Numbers(Vec::new()),
        FieldData::Numbers(vec![0]),
        FieldData::Numbers(Vec::new()),
    ];
    let mut out = vec![7];
    table.write_to(&fields, &[], &mut out);
    assert_eq!(out, vec![7]);
    assert_eq!(table.compute_size(&fields, &[]), 0);
}

#[test]
fn messages_and_maps_are_written_length_delimited() {
    let inner: &'static [Entry] = leak(vec![Entry::new(Kind::Int32Implicit, 1, 0, 0)]);
    let point_table: &'static Table<Point> = Box::leak(Box::new(Table::new(ABI, inner, &[], &[], None)));
    let point: &'static DirectMsgVt<Point> = Box::leak(Box::new(DirectMsgVt::new(point_table)));
    let map: &'static MapVt = Box::leak(Box::new(MapVt::new::<BTreeMap<u64, u64>, Uint64Required, Uint64Required>()));
    let entries = leak(vec![Entry::new(Kind::MapField, 1, 0, 0), Entry::new(Kind::MsgSingular, 2, 0, 1)]);
    let aux = leak(vec![Aux::MapField(map), Aux::Msg(point.vt())]);
    let table = Table::<Wide>::new(ABI, entries, &[], aux, None);
    let fields = vec![
        FieldData::Entries(vec![(WireValue::Varint(1), WireValue::Varint(2))]),
        FieldData::Children(vec![vec![0x08, 0x01]]),
    ];
    let mut out = Vec::new();
    table.write_to(&fields, &[], &mut out);
    assert_eq!(out, vec![0x0a, 0x04, 0x08, 0x01, 0x10, 0x02, 0x12, 0x02, 0x08, 0x01]);
    assert_eq!(table.compute_size(&fields, &[]), 10);
    // The entry's record reads back as its key and value.
    let got = merge_entry(map, &out[2..6], 100);
    assert_eq!(
        got,
        Ok(MapEntryFields { key: Some(WireValue::Varint(1)), value: Some(WireValue::Varint(2)), known: true })
    );
}

#[test]
fn a_field_of_each_wire_type_is_tagged_by_its_value() {
    let e = Entry::new(Kind::OneofLeader, 3, 0, 0);
    let mut out = Vec::new();
    write_field(&e, &FieldData::Member(Some((7, WireValue::Fixed64(1)))), &mut out);
    assert_eq!(out, vec![0x39, 1, 0, 0, 0, 0, 0, 0, 0]);
    let mut out = Vec::new();
    write_field(&e, &FieldData::Member(Some((7, WireValue::Len(vec![5])))), &mut out);
    assert_eq!(out, vec![0x3a, 0x01, 5]);
    let follower = Entry::new(Kind::OneofFollower, 7, 0, 0);
    let mut out = Vec::new();
    write_field(&follower, &FieldData::Member(Some((7, WireValue::Varint(1)))), &mut out);
    assert!(out.is_empty());
}
