use std::collections::{BTreeMap, HashMap};

use buffa::error::DecodeError;
use buffa::table::decode::merge_message;
use buffa::table::kind::Kind;
use buffa::table::write::FieldData;
use buffa::table::kinds::{Int32Required, StrRequired, Uint64Required};
use buffa::table::map::MapVt;
use buffa::table::message::{Aux, Table, TableError, ABI};
use buffa::table::entry::Entry;
use buffa::table::kinds::{BoolRequired, Int64Required, Sint32Required, Sint64Required, Uint32Required};
use buffa::table::map_entry::WireValue;
use buffa::table::shape::{DirectMsgVt, Enumeration, ImplicitClosed, ImplicitOpen, MsgSlot, MsgVt};

#[derive(Clone, Copy, Debug, PartialEq)]
enum Color {
    Red,
    Green,
    Blue,
}

impl Default for Color {
    fn default() -> Self {
        Color::Red
    }
}

impl Enumeration for Color {
    fn spec_from_i32(value: i32) -> Option<Self> {
        Self::from_i32(value)
    }

    fn spec_to_i32(&self) -> i32 {
        self.to_i32()
    }

    fn from_i32(value: i32) -> Option<Self> {
        match value {
            0 => Some(Self::Red),
            1 => Some(Self::Green),
            2 => Some(Self::Blue),
            _ => None,
        }
    }

    fn to_i32(&self) -> i32 {
        match self {
            Self::Red => 0,
            Self::Green => 1,
            Self::Blue => 2,
        }
    }

    fn numbers() -> &'static [i32] {
        &[0, 1, 2]
    }
}

#[derive(Debug, Default, PartialEq)]
struct Point {
    x: i32,
}

#[test]
fn a_map_descriptor_holds_its_key_and_value() {
    let vt = MapVt::new::<HashMap<String, i32>, StrRequired, Int32Required>();
    assert_eq!((vt.key().kind(), vt.key().number(), vt.key().tag()), (Kind::StrRequired, 1, 10));
    assert_eq!((vt.value().kind(), vt.value().number(), vt.value().tag()), (Kind::Int32Required, 2, 16));
    assert_eq!(vt.footprint(), std::mem::size_of::<String>() + std::mem::size_of::<i32>());
}

#[test]
fn a_map_of_enums_or_messages_takes_a_descriptor() {
    let vt = MapVt::with_enum::<BTreeMap<u64, Color>, Uint64Required, ImplicitClosed<Color>>();
    assert_eq!(vt.value().kind(), Kind::EnumRequired);
    assert_eq!(vt.key().tag(), 8);
    let entries: &'static [Entry] = Box::leak(vec![Entry::new(Kind::Int32Implicit, 1, 0, 0)].into_boxed_slice());
    let table: &'static Table<Point> =
        Box::leak(Box::new(Table::new(ABI, entries, &[], &[], None)));
    let point: &'static DirectMsgVt<Point> = Box::leak(Box::new(DirectMsgVt::new(table)));
    assert!(point.vt().is_direct());
    let vt = MapVt::with_msg::<BTreeMap<String, Point>, StrRequired, Point>(point);
    assert_eq!((vt.value().kind(), vt.value().tag()), (Kind::MsgSingular, 18));
    assert_eq!(vt.footprint(), std::mem::size_of::<String>() + std::mem::size_of::<Point>());
}

#[test]
fn a_map_entry_indexes_a_map_descriptor() {
    let vt: &'static MapVt = Box::leak(Box::new(MapVt::new::<BTreeMap<i32, i32>, Int32Required, Int32Required>()));
    let entries: &'static [Entry] = Box::leak(vec![Entry::new(Kind::MapField, 1, 0, 0)].into_boxed_slice());
    let aux: &'static [Aux] = Box::leak(vec![Aux::MapField(vt)].into_boxed_slice());
    let table = Table::<Point>::new(ABI, entries, &[], aux, None);
    let e = table.raw().find(1).unwrap();
    assert_eq!(e.tag(), (1 << 3) | 2);
    assert_eq!(table.raw().map_vt(e).value().kind(), Kind::Int32Required);
    let wrong: &'static [Aux] = Box::leak(
        vec![Aux::Enum(buffa::table::shape::EnumVt::new::<ImplicitClosed<Color>>())].into_boxed_slice(),
    );
    assert_eq!(
        Table::<Point>::try_new(ABI, entries, &[], wrong, None).err(),
        Some(TableError::AuxWrongVariant)
    );
}

/// `map<string, Tree> children = 1;`
#[derive(Debug, Default, PartialEq)]
struct Tree {
    children: BTreeMap<String, Tree>,
}

fn leak_one<T>(item: T) -> &'static T {
    Box::leak(Box::new(item))
}

fn leak_all<T>(items: Vec<T>) -> &'static [T] {
    Box::leak(items.into_boxed_slice())
}

/// Tables for `Tree` nested `levels` deep, each one's map values decoded
/// through the table below it; the lowest has no fields.
fn tree_chain(levels: usize) -> &'static Table<Tree> {
    let mut table: &'static Table<Tree> = leak_one(Table::new(ABI, &[], &[], &[], None));
    for _ in 0..levels {
        let vt: &'static DirectMsgVt<Tree> = leak_one(DirectMsgVt::new(table));
        let mvt: &'static MapVt = leak_one(MapVt::with_msg::<BTreeMap<String, Tree>, StrRequired, Tree>(vt));
        let entries = leak_all(vec![Entry::new(Kind::MapField, 1, 0, 0)]);
        let aux = leak_all(vec![Aux::MapField(mvt)]);
        table = leak_one(Table::new(ABI, entries, &[], aux, None));
    }
    table
}

fn varint(mut v: u64) -> Vec<u8> {
    let mut out = Vec::new();
    while v >= 0x80 {
        out.push((v as u8) | 0x80);
        v >>= 7;
    }
    out.push(v as u8);
    out
}

/// A length-delimited field `number`.
fn ld(number: u32, payload: &[u8]) -> Vec<u8> {
    let mut out = varint(u64::from(number) << 3 | 2);
    out.extend(varint(payload.len() as u64));
    out.extend_from_slice(payload);
    out
}

fn cat(parts: &[&[u8]]) -> Vec<u8> {
    parts.concat()
}

fn decode_tree(table: &Table<Tree>, wire: &[u8], depth: u32) -> Result<(), DecodeError> {
    let mut fields = vec![FieldData::Entries(Vec::new())];
    let mut unknown = Vec::new();
    merge_message(table.raw(), &mut fields, &mut unknown, wire, depth)
}

#[test]
fn the_recursion_limit_applies_to_message_values() {
    // children (1): key "k", value: the same, `depth` levels deep.
    fn nested(depth: usize) -> Vec<u8> {
        let mut wire = Vec::new();
        for _ in 0..depth {
            wire = ld(1, &cat(&[&ld(1, b"k"), &ld(2, &wire)]));
        }
        wire
    }
    // The default limit is 100 levels.
    let table = tree_chain(200);
    assert!(decode_tree(table, &nested(50), 100).is_ok());
    assert_eq!(decode_tree(table, &nested(150), 100), Err(DecodeError::RecursionLimitExceeded));
    assert_eq!(decode_tree(table, &nested(50), 10), Err(DecodeError::RecursionLimitExceeded));
}

#[test]
fn a_map_message_value_is_checked_through_its_table() {
    // The value's `children` entry has a key that is not UTF-8.
    let table = tree_chain(2);
    let bad_value = ld(1, &ld(1, &[0xff]));
    let wire = ld(1, &cat(&[&ld(1, b"k"), &ld(2, &bad_value)]));
    assert_eq!(decode_tree(table, &wire, 100), Err(DecodeError::InvalidUtf8));
    let good_value = ld(1, &ld(1, b"x"));
    let wire = ld(1, &cat(&[&ld(1, b"k"), &ld(2, &good_value)]));
    assert_eq!(decode_tree(table, &wire, 100), Ok(()));
}

/// `int32 id = 1; string tag = 2; Item child = 3;`
#[derive(Debug, Default, PartialEq)]
struct Item {
    id: i32,
    tag: String,
    child: ItemField,
}

/// A singular message field holding an `Item`.
#[derive(Debug, Default, PartialEq)]
struct ItemField(Option<Box<Item>>);

impl MsgSlot for ItemField {
    type Msg = Item;

    fn place(&mut self) -> &mut Item {
        self.0.get_or_insert_with(Default::default)
    }

    fn get(&self) -> Option<&Item> {
        self.0.as_deref()
    }
}

/// A message with one map of each shape, standing for its layout.
#[allow(dead_code)]
struct Maps([u64; 40]);

fn item_table() -> &'static Table<Item> {
    let entries = leak_all(vec![
        Entry::new(Kind::Int32Implicit, 1, 0, 0),
        Entry::new(Kind::StrImplicit, 2, 0, 0),
        Entry::new(Kind::MsgSingular, 3, 0, 0),
    ]);
    let aux = leak_all(vec![Aux::Msg(leak_one(MsgVt::new_via_message::<ItemField>()))]);
    leak_one(Table::new(ABI, entries, &[], aux, None))
}

/// The numbers of the map fields of `Maps`, in entry order.
const MAP_NUMBERS: [u32; 8] = [1, 2, 3, 4, 6, 8, 9, 300];

/// `by_name` (1): string to int32; `items` (2): int32 to `Item`; `closed`
/// (3): uint64 to a closed enum; `open` (4): bool to an open enum; `names`
/// (6): int64 to string; `zigzag` (8): sint32 to sint64; `fixed` (9): uint32
/// to uint32; `high` (300): string to string. It keeps unknown fields at
/// `unknown` if that is set.
fn maps_with(unknown: Option<usize>) -> Table<Maps> {
    let item: &'static DirectMsgVt<Item> = leak_one(DirectMsgVt::new(item_table()));
    let aux = leak_all(vec![
        Aux::MapField(leak_one(MapVt::new::<HashMap<String, i32>, StrRequired, Int32Required>())),
        Aux::MapField(leak_one(MapVt::with_msg::<BTreeMap<i32, Item>, Int32Required, Item>(item))),
        Aux::MapField(leak_one(MapVt::with_enum::<BTreeMap<u64, Color>, Uint64Required, ImplicitClosed<Color>>())),
        Aux::MapField(leak_one(MapVt::with_enum::<BTreeMap<bool, i32>, BoolRequired, ImplicitOpen<Color>>())),
        Aux::MapField(leak_one(MapVt::new::<BTreeMap<i64, String>, Int64Required, StrRequired>())),
        Aux::MapField(leak_one(MapVt::new::<BTreeMap<i32, i64>, Sint32Required, Sint64Required>())),
        Aux::MapField(leak_one(MapVt::new::<BTreeMap<u32, u32>, Uint32Required, Uint32Required>())),
        Aux::MapField(leak_one(MapVt::new::<BTreeMap<String, String>, StrRequired, StrRequired>())),
    ]);
    let entries: Vec<Entry> =
        MAP_NUMBERS.iter().enumerate().map(|(i, &n)| Entry::new(Kind::MapField, n, 0, i as u16)).collect();
    Table::new(ABI, leak_all(entries), &[], aux, unknown)
}

fn maps() -> Table<Maps> {
    maps_with(Some(0))
}

fn no_maps() -> Vec<FieldData> {
    (0..MAP_NUMBERS.len()).map(|_| FieldData::Entries(Vec::new())).collect()
}

/// A varint field `number`.
fn vf(number: u32, v: u64) -> Vec<u8> {
    cat(&[&varint(u64::from(number) << 3), &varint(v)])
}

fn decode_maps(table: &Table<Maps>, wire: &[u8]) -> Result<(Vec<FieldData>, Vec<u8>), DecodeError> {
    let mut fields = no_maps();
    let mut unknown = Vec::new();
    merge_message(table.raw(), &mut fields, &mut unknown, wire, 100).map(|()| (fields, unknown))
}

fn encode_maps(fields: &[FieldData], unknown: &[u8]) -> Vec<u8> {
    let mut out = Vec::new();
    maps().write_to(fields, unknown, &mut out);
    out
}

fn entries(pairs: Vec<(WireValue, WireValue)>) -> FieldData {
    FieldData::Entries(pairs)
}

fn text(s: &[u8]) -> WireValue {
    WireValue::Len(s.to_vec())
}

fn decode_item(wire: &[u8]) -> Vec<FieldData> {
    let mut fields = vec![FieldData::Numbers(Vec::new()), FieldData::Texts(Vec::new()), FieldData::Children(Vec::new())];
    let mut unknown = Vec::new();
    assert_eq!(merge_message(item_table().raw(), &mut fields, &mut unknown, wire, 100), Ok(()));
    fields
}

#[test]
fn an_empty_map_encodes_to_nothing() {
    assert_eq!(encode_maps(&no_maps(), &[]), Vec::<u8>::new());
    assert_eq!(maps().compute_size(&no_maps(), &[]), 0);
    assert_eq!(decode_maps(&maps(), &[]), Ok((no_maps(), Vec::new())));
}

#[test]
fn known_wire_bytes() {
    let mut fields = no_maps();
    fields[4] = entries(vec![(WireValue::Varint(u64::MAX), text(b"x"))]);
    fields[5] = entries(vec![(WireValue::Varint(1), WireValue::Varint(2))]);
    // names (6): an entry of key = -1 (ten bytes) and value = "x"; zigzag (8):
    // key -1 is 1, value 1 is 2.
    let mut names = vec![0x08];
    names.extend([0xff; 9]);
    names.push(0x01);
    names.extend([0x12, 0x01, b'x']);
    let expected = cat(&[&ld(6, &names), &ld(8, &[0x08, 0x01, 0x10, 0x02])]);
    assert_eq!(encode_maps(&fields, &[]), expected);
    assert_eq!(decode_maps(&maps(), &expected), Ok((fields, Vec::new())));
}

#[test]
fn a_high_field_number_takes_a_two_byte_tag() {
    let mut fields = no_maps();
    fields[7] = entries(vec![(text(b"k"), text(b"v"))]);
    // 300 << 3 | 2 = 2402 = 0xe2 0x12.
    let wire = encode_maps(&fields, &[]);
    assert_eq!(wire, [0xe2, 0x12, 0x06, 0x0a, 0x01, b'k', 0x12, 0x01, b'v']);
    assert_eq!(decode_maps(&maps(), &wire), Ok((fields, Vec::new())));
}

#[test]
fn a_map_of_the_message_itself_round_trips() {
    let table = tree_chain(4);
    let grandchild = ld(1, &cat(&[&ld(1, b"grandchild"), &ld(2, &[])]));
    let tree = vec![entries(vec![(text(b"child"), WireValue::Len(grandchild.clone())), (text(b"empty"), text(b""))])];
    let mut wire = Vec::new();
    table.write_to(&tree, &[], &mut wire);
    let mut back = vec![FieldData::Entries(Vec::new())];
    let mut unknown = Vec::new();
    assert_eq!(merge_message(table.raw(), &mut back, &mut unknown, &wire, 100), Ok(()));
    assert_eq!(back, tree);
}

#[test]
fn a_missing_key_or_value_takes_its_default() {
    // An empty entry of each map: the default key with the default value.
    for (i, &number) in MAP_NUMBERS.iter().enumerate() {
        let (fields, _) = decode_maps(&maps(), &ld(number, &[])).unwrap();
        match &fields[i] {
            FieldData::Entries(es) => assert_eq!(es.len(), 1, "field {number}"),
            other => panic!("field {number}: {other:?}"),
        }
        assert!(!encode_maps(&fields, &[]).is_empty(), "field {number}");
    }
    // Key only, and value only.
    let (fields, _) = decode_maps(&maps(), &ld(1, &[0x0a, 0x01, b'k'])).unwrap();
    assert_eq!(fields[0], entries(vec![(text(b"k"), WireValue::Varint(0))]));
    let (fields, _) = decode_maps(&maps(), &ld(1, &[0x10, 0x07])).unwrap();
    assert_eq!(fields[0], entries(vec![(text(b""), WireValue::Varint(7))]));
}

#[test]
fn the_last_occurrence_of_a_key_or_value_in_an_entry_wins() {
    let entry = cat(&[&ld(1, b"first"), &vf(2, 1), &ld(1, b"second"), &vf(2, 2)]);
    let (fields, _) = decode_maps(&maps(), &ld(1, &entry)).unwrap();
    assert_eq!(fields[0], entries(vec![(text(b"second"), WireValue::Varint(2))]));
}

#[test]
fn the_value_may_precede_the_key() {
    let entry = cat(&[&vf(2, 5), &ld(1, b"k")]);
    let (fields, _) = decode_maps(&maps(), &ld(1, &entry)).unwrap();
    assert_eq!(fields[0], entries(vec![(text(b"k"), WireValue::Varint(5))]));
}

#[test]
fn unknown_fields_in_an_entry_are_skipped() {
    let entry = cat(&[&vf(1000, 3), &ld(1, b"k"), &ld(3, b"ignored"), &vf(2, 8)]);
    let (fields, unknown) = decode_maps(&maps(), &ld(1, &entry)).unwrap();
    assert_eq!(fields[0], entries(vec![(text(b"k"), WireValue::Varint(8))]));
    assert!(unknown.is_empty());
}

#[test]
fn the_same_key_in_two_entries_keeps_the_later_value() {
    let wire = cat(&[&ld(1, &cat(&[&ld(1, b"k"), &vf(2, 1)])), &ld(1, &cat(&[&ld(1, b"k"), &vf(2, 2)]))]);
    let (fields, _) = decode_maps(&maps(), &wire).unwrap();
    assert_eq!(fields[0], entries(vec![(text(b"k"), WireValue::Varint(2))]));
}

#[test]
fn a_message_value_repeated_in_an_entry_merges() {
    let entry = cat(&[&vf(1, 4), &ld(2, &vf(1, 10)), &ld(2, &ld(2, b"tag"))]);
    let (fields, _) = decode_maps(&maps(), &ld(2, &entry)).unwrap();
    let value = cat(&[&vf(1, 10), &ld(2, b"tag")]);
    assert_eq!(fields[1], entries(vec![(WireValue::Varint(4), WireValue::Len(value.clone()))]));
    let item = decode_item(&value);
    assert_eq!(item[0], FieldData::Numbers(vec![10]));
    assert_eq!(item[1], FieldData::Texts(vec![b"tag".to_vec()]));
}

#[test]
fn a_message_value_with_nested_messages_decodes() {
    let value = cat(&[&vf(1, 3), &ld(3, &vf(1, 4))]);
    let (fields, _) = decode_maps(&maps(), &ld(2, &cat(&[&vf(1, 1), &ld(2, &value)]))).unwrap();
    assert_eq!(fields[1], entries(vec![(WireValue::Varint(1), WireValue::Len(value.clone()))]));
    let item = decode_item(&value);
    assert_eq!(item[2], FieldData::Children(vec![vf(1, 4)]));
    assert_eq!(decode_item(&vf(1, 4))[0], FieldData::Numbers(vec![4]));
}

#[test]
fn a_wrong_wire_type_inside_an_entry_is_an_error() {
    // Key of a string map as a varint; value of an int map as length-delimited.
    for entry in [vf(1, 1), ld(2, b"x"), cat(&[&ld(1, b"k"), &ld(2, b"x")])] {
        assert!(decode_maps(&maps(), &ld(1, &entry)).is_err());
    }
    // The entry itself as a varint.
    assert!(decode_maps(&maps(), &vf(1, 1)).is_err());
}

#[test]
fn an_entry_that_runs_past_its_length_is_an_error() {
    // A string of five bytes in an entry of length three.
    let wire = cat(&[&[0x0a, 0x03, 0x0a, 0x05, b'a'], b"bcde"]);
    assert!(decode_maps(&maps(), &wire).is_err());
    // An entry longer than the message.
    assert_eq!(decode_maps(&maps(), &[0x0a, 0x09, 0x0a]), Err(DecodeError::UnexpectedEof));
    // An entry of an impossible length.
    assert!(decode_maps(&maps(), &cat(&[&[0x0a], &varint(u64::MAX)])).is_err());
}

#[test]
fn an_invalid_utf8_key_or_value_is_an_error() {
    assert!(decode_maps(&maps(), &ld(1, &ld(1, &[0xff, 0xfe]))).is_err());
    assert!(decode_maps(&maps(), &ld(6, &ld(2, &[0xc0]))).is_err());
}

#[test]
fn a_closed_enum_value_that_is_not_known_makes_the_entry_unknown() {
    // closed (3): key 5, value 7, which Color does not have.
    let entry = cat(&[&vf(1, 5), &vf(2, 7)]);
    let wire = ld(3, &entry);
    let (fields, unknown) = decode_maps(&maps(), &wire).unwrap();
    assert_eq!(fields[2], entries(Vec::new()));
    // The whole entry is kept, under the map's field number.
    assert_eq!(unknown, wire);
    assert_eq!(encode_maps(&fields, &unknown), wire);

    // A message that keeps no unknown fields drops it.
    let (fields, unknown) = decode_maps(&maps_with(None), &wire).unwrap();
    assert_eq!(fields[2], entries(Vec::new()));
    assert!(unknown.is_empty());
}

#[test]
fn only_the_last_value_in_an_entry_decides_whether_a_closed_enum_is_known() {
    let known_last = cat(&[&vf(1, 5), &vf(2, 7), &vf(2, 2)]);
    let (fields, unknown) = decode_maps(&maps(), &ld(3, &known_last)).unwrap();
    assert_eq!(fields[2], entries(vec![(WireValue::Varint(5), WireValue::Varint(2))]));
    assert!(unknown.is_empty());

    let unknown_last = cat(&[&vf(1, 5), &vf(2, 2), &vf(2, 7)]);
    let (fields, unknown) = decode_maps(&maps(), &ld(3, &unknown_last)).unwrap();
    assert_eq!(fields[2], entries(Vec::new()));
    assert_eq!(unknown, ld(3, &unknown_last));
}

#[test]
fn an_open_enum_value_that_is_not_known_is_kept() {
    let (fields, _) = decode_maps(&maps(), &ld(4, &cat(&[&vf(1, 1), &vf(2, 42)]))).unwrap();
    assert_eq!(fields[3], entries(vec![(WireValue::Varint(1), WireValue::Varint(42))]));
}

#[test]
fn map_tests_every_sink_receives_the_same_bytes() {
    let mut fields = no_maps();
    fields[0] = entries(vec![(text(b"a"), WireValue::Varint(1)), (text(b"b"), WireValue::Varint(u64::MAX))]);
    fields[1] = entries(vec![(WireValue::Varint(7), WireValue::Len(cat(&[&vf(1, 7), &ld(2, b"seven")])))]);
    fields[6] = entries(vec![(WireValue::Varint(1), WireValue::Varint(2))]);
    fields[7] = entries(vec![(text(b"k"), text(b"v"))]);
    let expected = encode_maps(&fields, &[]);
    let mut rope = buffa::encode_sink::Rope::new();
    maps().write_to_rope(&fields, &[], &mut rope);
    assert_eq!(&rope.to_contiguous_bytes()[..], &expected[..]);
    let mut bytes_mut = bytes::BytesMut::new();
    maps().write_to_bytes_mut(&fields, &[], &mut bytes_mut);
    assert_eq!(&bytes_mut[..], &expected[..]);
    let mut vec = vec![0xee];
    maps().write_to(&fields, &[], &mut vec);
    assert_eq!(&vec[1..], &expected[..]);
    assert_eq!(decode_maps(&maps(), &expected), Ok((fields, Vec::new())));
}

#[test]
fn a_failed_message_value_is_not_inserted() {
    // The value's string is invalid UTF-8.
    let entry = cat(&[&vf(1, 1), &ld(2, &ld(2, &[0xff]))]);
    assert!(decode_maps(&maps(), &ld(2, &entry)).is_err());
    let mut fields = no_maps();
    let mut unknown = Vec::new();
    let result = merge_message(maps().raw(), &mut fields, &mut unknown, &ld(2, &entry), 100);
    assert!(result.is_err());
    assert_eq!(fields[1], entries(Vec::new()));
}

#[test]
fn map_tests_a_non_contiguous_buffer_is_gathered() {
    let mut msg = no_maps();
    msg[0] = entries(vec![(text(b"a"), WireValue::Varint(1)), (text(b"b"), WireValue::Varint(2))]);
    msg[1] = entries(vec![(WireValue::Varint(7), WireValue::Len(cat(&[&vf(1, 7), &ld(2, b"seven")])))]);
    msg[4] = entries(vec![(WireValue::Varint(u64::MAX), text(b"x"))]);
    msg[7] = entries(vec![(text(b"k"), text(b"v"))]);
    let wire = encode_maps(&msg, &[]);
    for split in 0..=wire.len() {
        let (head, tail) = wire.split_at(split);
        let mut rope = buffa::encode_sink::Rope::with_min_segment(1);
        rope.put_shared(bytes::Bytes::copy_from_slice(head));
        rope.put_shared(bytes::Bytes::copy_from_slice(tail));
        let mut chained = buffa::encode_sink::RopeBuf::from_rope(rope);
        let mut decoded = no_maps();
        let mut unknown = Vec::new();
        assert_eq!(maps().merge_buf_to_limit(&mut decoded, &mut unknown, &mut chained, 0, 100), Ok(()));
        assert_eq!(decoded, msg, "split at {split}");
    }
}

#[test]
fn a_map_field_decodes_from_a_contiguous_buffer_through_merge_field() {
    let wire = ld(6, &cat(&[&vf(1, 3), &ld(2, b"x")]));
    let (number, wire_type, pos) = buffa::table::map_entry::decode_tag(&wire, 0).unwrap();
    let mut rope = buffa::encode_sink::Rope::with_min_segment(1);
    rope.put_shared(bytes::Bytes::copy_from_slice(&wire[pos..]));
    let mut buf = buffa::encode_sink::RopeBuf::from_rope(rope);
    let mut fields = no_maps();
    let mut unknown = Vec::new();
    assert_eq!(maps().merge_buf_field(&mut fields, &mut unknown, number, wire_type, &mut buf, 100), Ok(()));
    assert_eq!(fields[4], entries(vec![(WireValue::Varint(3), text(b"x"))]));
    assert_eq!(buf.remaining(), 0);
}
