use buffa::error::DecodeError;
use buffa::table::decode::merge_message;
use buffa::table::map_entry::WireValue;
use buffa::table::write::FieldData;
use buffa::table::entry::Entry;
use buffa::table::kind::{AuxKind, Kind, IMPLICIT, OPTIONAL, REPEATED};
use buffa::table::message::{Aux, Table, TableError, ABI, NO_UNKNOWN};
use buffa::table::oneof::{Member, OneofEnum, OneofVt};
use buffa::table::shape::{
    EnumShape, EnumVt, Enumeration, ImplicitClosed, ImplicitOpen, MsgSlot, MsgVt, OptionalClosed, OptionalOpen,
    RepVt, RepeatedClosed, RepeatedOpen,
};
use buffa::unknown::UnknownFields;

fn leak<T>(items: Vec<T>) -> &'static [T] {
    Box::leak(items.into_boxed_slice())
}

fn leak_one<T>(item: T) -> &'static T {
    Box::leak(Box::new(item))
}

#[derive(Clone, Copy, Debug, PartialEq, Eq)]
enum Color {
    Red,
    Green,
}

impl Default for Color {
    fn default() -> Self {
        Color::Red
    }
}

impl Enumeration for Color {
    fn spec_from_i32(value: i32) -> Option<Self> {
        Self::from_i32(value)
    }

    fn spec_to_i32(&self) -> i32 {
        self.to_i32()
    }

    fn from_i32(value: i32) -> Option<Self> {
        match value {
            0 => Some(Self::Red),
            1 => Some(Self::Green),
            _ => None,
        }
    }

    fn to_i32(&self) -> i32 {
        match self {
            Self::Red => 0,
            Self::Green => 1,
        }
    }

    fn numbers() -> &'static [i32] {
        &[0, 1]
    }
}

/// `int32 id = 1; string label = 2; Inner next = 3;`, keeping unknown fields.
#[derive(Debug, Default, PartialEq)]
struct Inner {
    id: i32,
    label: String,
    next: InnerField,
    unknown: UnknownFields,
}

/// A singular message field holding an `Inner`.
#[derive(Debug, Default, PartialEq)]
struct InnerField(Option<Box<Inner>>);

impl MsgSlot for InnerField {
    type Msg = Inner;

    fn place(&mut self) -> &mut Inner {
        self.0.get_or_insert_with(Default::default)
    }

    fn get(&self) -> Option<&Inner> {
        self.0.as_deref()
    }
}

/// A message with as many fields as `Outer` has, standing for its layout.
#[allow(dead_code)]
struct Outer([u64; 48]);

/// A message with the fields of `Holder`, standing for its layout.
#[allow(dead_code)]
struct Holder([u64; 16]);

/// A message with one `i32`.
#[allow(dead_code)]
struct Lossy {
    id: i32,
}

/// The `dense` lookup for entries numbered `numbers`, which are ascending.
fn dense(len: usize, numbers: &[u32]) -> &'static [u8] {
    let mut d = vec![0u8; len];
    for (i, &n) in numbers.iter().enumerate() {
        if (n as usize) < len {
            d[n as usize] = (i + 1) as u8;
        }
    }
    leak(d)
}

fn inner() -> &'static Table<Inner> {
    let entries = leak(vec![
        Entry::new(Kind::Int32Implicit, 1, 0, 0),
        Entry::new(Kind::StrImplicit, 2, 0, 0),
        Entry::new(Kind::MsgSingular, 3, 0, 0),
    ]);
    let aux = leak(vec![Aux::Msg(leak_one(MsgVt::new_via_message::<InnerField>()))]);
    leak_one(Table::new(ABI, entries, dense(4, &[1, 2, 3]), aux, None))
}

fn outer() -> Table<Outer> {
    outer_with(None)
}

/// The `Outer` table, keeping unknown fields at `unknown` if it is set.
fn outer_with(unknown: Option<usize>) -> Table<Outer> {
    let inner = inner();
    let numbers: Vec<u32> = (1..=23).chain([1000]).collect();
    let entries = leak(vec![
        Entry::new(Kind::Int32Implicit, 1, 0, 0),
        Entry::new(Kind::Uint64Optional, 2, 0, 0),
        Entry::new(Kind::StrImplicit, 3, 0, 0),
        Entry::new(Kind::BytesImplicit, 4, 0, 0),
        Entry::new(Kind::Int32Packed, 5, 0, 0),
        Entry::new(Kind::StrRepeated, 6, 0, 0),
        Entry::new(Kind::MsgSingular, 7, 0, 0),
        Entry::new(Kind::MsgRepeated, 8, 0, 1),
        Entry::new(Kind::EnumImplicit, 9, 0, 2),
        Entry::new(Kind::EnumImplicit, 10, 0, 3),
        Entry::new(Kind::EnumPacked, 11, 0, 4),
        Entry::new(Kind::FloatImplicit, 12, 0, 0),
        Entry::new(Kind::DoubleOptional, 13, 0, 0),
        Entry::new(Kind::BoolImplicit, 14, 0, 0),
        Entry::new(Kind::Sfixed64Repeated, 15, 0, 0),
        Entry::new(Kind::Sint32Packed, 16, 0, 0),
        Entry::new(Kind::EnumOptional, 17, 0, 5),
        Entry::new(Kind::BytesOptional, 18, 0, 0),
        Entry::new(Kind::StrOptional, 19, 0, 0),
        Entry::new(Kind::BytesRepeated, 20, 0, 0),
        Entry::new(Kind::Int64Required, 21, 0, 0),
        Entry::new(Kind::Fixed32Packed, 22, 0, 0),
        Entry::new(Kind::MsgSingular, 23, 0, 6),
        Entry::new(Kind::Uint32Implicit, 1000, 0, 0),
    ]);
    let aux = leak(vec![
        Aux::Msg(leak_one(MsgVt::new::<InnerField>(inner))),
        Aux::Rep(leak_one(RepVt::new::<Inner>(inner))),
        Aux::Enum(EnumVt::new::<ImplicitOpen<Color>>()),
        Aux::Enum(EnumVt::new::<ImplicitClosed<Color>>()),
        Aux::Enum(EnumVt::new::<RepeatedClosed<Color>>()),
        Aux::Enum(EnumVt::new::<OptionalOpen<Color>>()),
        Aux::Msg(leak_one(MsgVt::new::<InnerField>(inner))),
    ]);
    Table::new(ABI, entries, dense(24, &numbers), aux, unknown)
}

/// `oneof pick { int32 num = 2; string text = 4; bytes blob = 5;
/// Color open = 7; Color strict = 8; Inner child = 9; }`.
#[derive(Clone, Debug, PartialEq)]
enum Pick {
    Num(i32),
    Text(String),
    Blob(Vec<u8>),
    Open(i32),
    Strict(Color),
    Child(Box<Inner>),
}

impl Clone for Inner {
    fn clone(&self) -> Self {
        Inner {
            id: self.id,
            label: self.label.clone(),
            next: InnerField(None),
            unknown: UnknownFields::new(),
        }
    }
}

impl OneofEnum for Pick {
    fn spec_number(&self) -> u32 {
        self.number()
    }

    fn spec_has_member(number: u32) -> bool {
        Self::with_default(number).is_some()
    }

    fn spec_default(number: u32) -> Self {
        Self::with_default(number).unwrap_or(Self::Num(0))
    }

    fn number(&self) -> u32 {
        match self {
            Self::Num(_) => 2,
            Self::Text(_) => 4,
            Self::Blob(_) => 5,
            Self::Open(_) => 7,
            Self::Strict(_) => 8,
            Self::Child(_) => 9,
        }
    }

    fn with_default(number: u32) -> Option<Self> {
        Some(match number {
            2 => Self::Num(Default::default()),
            4 => Self::Text(Default::default()),
            5 => Self::Blob(Default::default()),
            7 => Self::Open(Default::default()),
            8 => Self::Strict(Default::default()),
            9 => Self::Child(Default::default()),
            _ => return None,
        })
    }
}

fn holder() -> Table<Holder> {
    holder_with(None)
}

/// The `Holder` table, keeping unknown fields at `unknown` if it is set.
fn holder_with(unknown: Option<usize>) -> Table<Holder> {
    let inner = inner();
    let entries = leak(vec![
        Entry::new(Kind::Int32Implicit, 1, 0, 0),
        Entry::oneof_member(Kind::Int32Required, true, 2, 8, 2),
        Entry::new(Kind::Int32Implicit, 3, 0, 0),
        Entry::oneof_member(Kind::StrRequired, false, 4, 8, 3),
        Entry::oneof_member(Kind::BytesRequired, false, 5, 8, 4),
        Entry::oneof_member(Kind::FloatRequired, true, 6, 64, 5),
        Entry::oneof_member(Kind::EnumRequired, false, 7, 8, 6),
        Entry::oneof_member(Kind::EnumRequired, false, 8, 8, 7),
        Entry::oneof_member(Kind::MsgSingular, false, 9, 8, 10),
        Entry::oneof_member(Kind::MsgSingular, false, 10, 64, 12),
    ]);
    let aux = leak(vec![
        Aux::Group(leak_one(OneofVt::with_messages(8, 2))),
        Aux::Group(leak_one(OneofVt::with_messages(64, 6))),
        Aux::Member(Member::new(0, Kind::Int32Required, 0)),
        Aux::Member(Member::new(0, Kind::StrRequired, 0)),
        Aux::Member(Member::new(0, Kind::BytesRequired, 0)),
        Aux::Member(Member::new(1, Kind::FloatRequired, 0)),
        Aux::Member(Member::new(0, Kind::EnumRequired, 8)),
        Aux::Member(Member::new(0, Kind::EnumRequired, 9)),
        Aux::Enum(EnumVt::new::<ImplicitOpen<Color>>()),
        Aux::Enum(EnumVt::new::<ImplicitClosed<Color>>()),
        Aux::Member(Member::new(0, Kind::MsgSingular, 11)),
        Aux::Msg(leak_one(MsgVt::direct(inner))),
        Aux::Member(Member::new(1, Kind::MsgSingular, 11)),
    ]);
    Table::new(ABI, entries, dense(11, &[1, 2, 3, 4, 5, 6, 7, 8, 9, 10]), aux, unknown)
}

#[test]
fn an_entry_records_its_tag_and_the_tag_length() {
    let one = Entry::new(Kind::Int32Implicit, 15, 0, 0);
    assert_eq!((one.tag(), one.tag_len()), (15 << 3, 1));
    let two = Entry::new(Kind::Int32Implicit, 16, 0, 0);
    assert_eq!((two.tag(), two.tag_len()), (16 << 3, 2));
    let packed = Entry::new(Kind::Int32Packed, 1, 0, 0);
    assert_eq!(packed.tag(), (1 << 3) | 2);
    let fixed = Entry::new(Kind::DoubleImplicit, 1, 0, 0);
    assert_eq!(fixed.tag(), (1 << 3) | 1);
    let big = Entry::new(Kind::Int32Implicit, (1 << 29) - 1, 0, 0);
    assert_eq!(big.tag_len(), 5);
}

#[test]
fn find_uses_the_dense_array_and_falls_back_to_search() {
    let table = outer();
    let raw = table.raw();
    assert_eq!(raw.find(1).unwrap().kind(), Kind::Int32Implicit);
    assert_eq!(raw.find(22).unwrap().kind(), Kind::Fixed32Packed);
    assert_eq!(raw.find(23).unwrap().kind(), Kind::MsgSingular);
    assert!(raw.find(24).is_none());
    assert!(raw.find(63).is_none());
    assert_eq!(raw.find(1000).unwrap().kind(), Kind::Uint32Implicit);
    assert!(raw.find(1001).is_none());
}

#[test]
fn find_reaches_every_oneof_member() {
    let table = holder();
    for (number, kind) in [(2, Kind::OneofLeader), (9, Kind::OneofFollower)] {
        assert_eq!(table.raw().find(number).unwrap().kind(), kind);
    }
    let pe = table.raw().payload_entry(0, 4);
    assert_eq!(pe.kind(), Kind::StrRequired);
    assert_eq!(pe.number(), 4);
    let pe = table.raw().payload_entry(0, 9);
    assert_eq!(pe.kind(), Kind::MsgSingular);
    assert_eq!(pe.aux(), 11);
}

#[test]
fn the_accessors_keep_a_member_that_is_set_and_replace_any_other() {
    let vt = OneofVt::new(0, 2);
    let mut slot = Some(Pick::Text("kept".into()));
    let (number, payload) = vt.get(&slot);
    assert_eq!(number, 4);
    assert_eq!(payload, Some(&Pick::Text("kept".into())));
    let payload = vt.place(&mut slot, 4);
    assert_eq!(*payload, Pick::Text("kept".into()));
    let payload = vt.place(&mut slot, 2);
    assert_eq!(*payload, Pick::Num(0));
    *payload = Pick::Num(8);
    assert_eq!(slot, Some(Pick::Num(8)));
    let none: Option<Pick> = None;
    let (number, payload) = vt.get(&none);
    assert_eq!((number, payload.is_none()), (0, true));
}

#[test]
fn place_with_merges_into_the_member_that_is_set_and_replaces_another_only_on_success() {
    let vt = OneofVt::new(0, 2);
    let mut slot = Some(Pick::Text("kept".into()));
    // The member that is set is decoded into where it is, and stays set when
    // the decoding fails part of the way.
    let r = vt.place_with(&mut slot, 4, |p| {
        let p = match p {
            Pick::Text(mut s) => {
                s.push_str("+more");
                Pick::Text(s)
            }
            other => other,
        };
        (p, Err(DecodeError::UnexpectedEof))
    });
    assert_eq!(r, Err(DecodeError::UnexpectedEof));
    assert_eq!(slot, Some(Pick::Text("kept+more".into())));
    // Another member is decoded into a new default one, which a failure
    // discards.
    let r = vt.place_with(&mut slot, 2, |p| {
        assert_eq!(p, Pick::Num(0));
        (Pick::Num(9), Err(DecodeError::UnexpectedEof))
    });
    assert_eq!(r, Err(DecodeError::UnexpectedEof));
    assert_eq!(slot, Some(Pick::Text("kept+more".into())));
    // Success replaces it.
    let r = vt.place_with(&mut slot, 2, |_| (Pick::Num(9), Ok(())));
    assert_eq!(r, Ok(()));
    assert_eq!(slot, Some(Pick::Num(9)));
    // A oneof that is unset stays unset on failure.
    let mut none: Option<Pick> = None;
    let r = vt.place_with(&mut none, 5, |p| (p, Err(DecodeError::UnexpectedEof)));
    assert_eq!(r, Err(DecodeError::UnexpectedEof));
    assert_eq!(none, None);
}

#[test]
fn a_member_keeps_the_value_it_was_placed_with() {
    let vt = OneofVt::with_messages(0, 2);
    assert!(vt.messages());
    let mut slot: Option<Pick> = None;
    let r = vt.place_with(&mut slot, 9, |p| match p {
        Pick::Child(mut c) => {
            c.id = 7;
            (Pick::Child(c), Ok(()))
        }
        other => (other, Ok(())),
    });
    assert_eq!(r, Ok(()));
    assert!(matches!(&slot, Some(Pick::Child(c)) if c.id == 7));
    *vt.place(&mut slot, 5) = Pick::Blob(vec![1, 2]);
    assert_eq!(slot, Some(Pick::Blob(vec![1, 2])));
}

/// `Table::try_new` on a `Lossy`, with no unknown fields.
fn lossy(
    abi: u32,
    entries: Vec<Entry>,
    dense: Vec<u8>,
    aux: Vec<Aux>,
    unknown: Option<usize>,
) -> Result<Table<Lossy>, TableError> {
    Table::try_new(abi, leak(entries), leak(dense), leak(aux), unknown)
}

fn int32(number: u32) -> Entry {
    Entry::new(Kind::Int32Implicit, number, 0, 0)
}

#[test]
fn a_table_is_refused_for_the_first_check_it_fails() {
    let err = |r: Result<Table<Lossy>, TableError>| r.err();
    assert_eq!(err(lossy(ABI + 1, vec![int32(1)], vec![], vec![], None)), Some(TableError::AbiMismatch));
    assert_eq!(
        err(lossy(ABI, vec![int32(2), int32(1)], vec![], vec![], None)),
        Some(TableError::NotIncreasing)
    );
    assert_eq!(
        err(lossy(ABI, vec![int32(1), int32(1)], vec![], vec![], None)),
        Some(TableError::NotIncreasing)
    );
    assert_eq!(
        err(lossy(ABI, vec![Entry::new(Kind::Int32Implicit, 1, 4, 0)], vec![], vec![], None)),
        Some(TableError::OffsetOutside)
    );
    assert_eq!(
        err(lossy(ABI, vec![Entry::new(Kind::EnumImplicit, 1, 0, 0)], vec![], vec![], None)),
        Some(TableError::AuxOutOfRange)
    );
    assert_eq!(
        err(lossy(
            ABI,
            vec![Entry::new(Kind::EnumImplicit, 1, 0, 0)],
            vec![],
            vec![Aux::Member(Member::new(0, Kind::Int32Required, 0))],
            None
        )),
        Some(TableError::AuxWrongVariant)
    );
    assert_eq!(
        err(lossy(
            ABI,
            vec![Entry::new(Kind::EnumRepeated, 1, 0, 0)],
            vec![],
            vec![Aux::Enum(EnumVt::new::<OptionalClosed<Color>>())],
            None
        )),
        Some(TableError::EnumCardinality)
    );
    assert_eq!(
        err(lossy(ABI, vec![int32(1)], vec![], vec![Aux::Group(leak_one(OneofVt::new(0, 2)))], None)),
        Some(TableError::LeaderCount)
    );
    let many: Vec<Entry> = (1..=255).map(int32).collect();
    assert_eq!(err(lossy(ABI, many, vec![0, 1], vec![], None)), Some(TableError::DenseTooLong));
    assert_eq!(
        err(lossy(ABI, vec![int32(1), int32(2)], vec![0, 2], vec![], None)),
        Some(TableError::DenseWrongNumber)
    );
    assert_eq!(
        err(lossy(ABI, vec![int32(1), int32(2)], vec![0, 3], vec![], None)),
        Some(TableError::DenseWrongNumber)
    );
    assert_eq!(
        err(lossy(ABI, vec![int32(1), int32(2)], vec![0, 1, 0], vec![], None)),
        Some(TableError::DenseOmits)
    );
    assert_eq!(
        err(lossy(ABI, vec![int32(1)], vec![0, 1], vec![], Some(2))),
        Some(TableError::UnknownOffset)
    );
    assert!(lossy(ABI, vec![int32(1)], vec![0, 1], vec![], None).is_ok());
    assert_eq!(
        TableError::DenseOmits.message(),
        "buffa table: the dense lookup omits an entry"
    );
}

/// A table of one member of the oneof at aux 0, whose lowest number is 2.
fn one_member(entry: Entry, aux: Vec<Aux>) -> Option<TableError> {
    Table::<Holder>::try_new(ABI, leak(vec![entry]), leak(vec![]), leak(aux), None).err()
}

fn pick_group() -> Aux {
    Aux::Group(leak_one(OneofVt::new(0, 2)))
}

#[test]
fn a_oneof_member_is_checked_against_its_oneof() {
    let member = |kind: Kind, number: u32, aux: u16| {
        Entry::oneof_member(kind, number == 2, number, 0, aux)
    };
    let ints = || vec![pick_group(), Aux::Member(Member::new(0, Kind::Int32Required, 0))];
    assert_eq!(one_member(member(Kind::Int32Required, 2, 1), ints()), None);
    assert_eq!(
        one_member(member(Kind::Int32Required, 2, 1), vec![pick_group(), Aux::Member(Member::new(3, Kind::Int32Required, 0))]),
        Some(TableError::MemberGroupOutOfRange)
    );
    assert_eq!(
        one_member(member(Kind::Int32Required, 2, 0), vec![Aux::Member(Member::new(0, Kind::Int32Required, 0))]),
        Some(TableError::MemberGroupNotOneof)
    );
    assert_eq!(
        one_member(member(Kind::Int32Required, 2, 1), vec![pick_group(), Aux::Member(Member::new(0, Kind::Int32Optional, 0))]),
        Some(TableError::MemberPayloadKind)
    );
    assert_eq!(
        one_member(member(Kind::Int32Required, 2, 1), vec![pick_group(), Aux::Member(Member::new(0, Kind::FloatRequired, 0))]),
        Some(TableError::MemberWireType)
    );
    assert_eq!(
        one_member(member(Kind::MsgSingular, 2, 1), vec![pick_group(), Aux::Member(Member::new(0, Kind::MsgSingular, 5))]),
        Some(TableError::MemberPayloadAuxOutOfRange)
    );
    assert_eq!(
        one_member(
            member(Kind::MsgSingular, 2, 1),
            vec![
                pick_group(),
                Aux::Member(Member::new(0, Kind::MsgSingular, 2)),
                Aux::Enum(EnumVt::new::<ImplicitClosed<Color>>()),
            ]
        ),
        Some(TableError::MemberPayloadAuxWrongVariant)
    );
    assert_eq!(
        one_member(
            member(Kind::MsgSingular, 2, 1),
            vec![
                pick_group(),
                Aux::Member(Member::new(0, Kind::MsgSingular, 2)),
                Aux::Msg(leak_one(MsgVt::new::<InnerField>(inner()))),
            ]
        ),
        Some(TableError::MemberMsgNotDirect)
    );
    assert_eq!(
        one_member(
            member(Kind::EnumRequired, 2, 1),
            vec![
                pick_group(),
                Aux::Member(Member::new(0, Kind::EnumRequired, 2)),
                Aux::Enum(EnumVt::new::<RepeatedClosed<Color>>()),
            ]
        ),
        Some(TableError::MemberEnumNotSingular)
    );
    assert_eq!(
        one_member(Entry::oneof_member(Kind::Int32Required, true, 2, 4, 1), ints()),
        Some(TableError::MemberOffset)
    );
    assert_eq!(one_member(member(Kind::Int32Required, 1, 1), ints()), Some(TableError::MemberBelowFirst));
    assert_eq!(
        one_member(Entry::oneof_member(Kind::Int32Required, false, 2, 0, 1), ints()),
        Some(TableError::MemberLeader)
    );
    assert_eq!(
        one_member(Entry::oneof_member(Kind::Int32Required, true, 3, 0, 1), ints()),
        Some(TableError::MemberLeader)
    );
    assert_eq!(one_member(member(Kind::Int32Required, 3, 1), ints()), Some(TableError::LeaderCount));
}

#[test]
fn a_table_keeps_what_it_was_built_from() {
    let table = lossy(ABI, vec![int32(1)], vec![0, 1], vec![], None).unwrap();
    assert_eq!(table.raw().unknown(), NO_UNKNOWN);
    let kept = Table::<Holder>::new(ABI, leak(vec![]), leak(vec![]), leak(vec![]), Some(8));
    assert_eq!(kept.raw().unknown(), 8);
}

#[test]
fn enum_shapes_have_their_cardinalities() {
    assert_eq!(ImplicitOpen::<Color>::card(), IMPLICIT);
    assert_eq!(ImplicitClosed::<Color>::card(), IMPLICIT);
    assert_eq!(OptionalOpen::<Color>::card(), OPTIONAL);
    assert_eq!(OptionalClosed::<Color>::card(), OPTIONAL);
    assert_eq!(RepeatedOpen::<Color>::card(), REPEATED);
    assert_eq!(RepeatedClosed::<Color>::card(), REPEATED);
    assert_eq!(EnumVt::new::<RepeatedOpen<Color>>().card(), REPEATED);
}

#[test]
fn kinds_have_their_wire_types_and_descriptors() {
    assert_eq!(Kind::Sfixed32Implicit.wire_type(), 5);
    assert_eq!(Kind::Fixed64Optional.wire_type(), 1);
    assert_eq!(Kind::EnumPacked.wire_type(), 2);
    assert_eq!(Kind::EnumRepeated.wire_type(), 0);
    assert_eq!(Kind::MapField.wire_type(), 2);
    assert_eq!(Kind::MsgRepeated.aux_kind(), Some(AuxKind::Rep));
    assert_eq!(Kind::MsgSingular.aux_kind(), Some(AuxKind::Msg));
    assert_eq!(Kind::OneofFollower.aux_kind(), Some(AuxKind::Member));
    assert_eq!(Kind::StrOptional.aux_kind(), None);
    assert_eq!(Kind::Uint64Packed.shape_card(), REPEATED);
    assert_eq!(Kind::BoolRequired.shape_card(), IMPLICIT);
    assert!(Kind::BytesRequired.is_oneof_payload());
    assert!(!Kind::BytesOptional.is_oneof_payload());
    assert!(Kind::MsgSingular.is_oneof_payload());
}

#[test]
fn descriptors_remember_how_they_reach_the_message() {
    let inner = inner();
    assert!(!MsgVt::new::<InnerField>(inner).is_direct());
    assert!(MsgVt::direct(inner).is_direct());
    assert!(MsgVt::direct_via_message::<Inner>().is_direct());
    assert_eq!(RepVt::new_via_message::<u64>().size(), 8);
    let group = OneofVt::new(24, 6);
    assert_eq!((group.offset(), group.first(), group.messages()), (24, 6, false));
    let m = Member::new(1, Kind::EnumRequired, 4);
    assert_eq!((m.group(), m.kind(), m.aux()), (1, Kind::EnumRequired, 4));
    let mut slot = InnerField::default();
    assert!(slot.get().is_none());
    slot.place().id = 3;
    assert_eq!(slot.get().map(|m| m.id), Some(3));
    let e = Entry::new(Kind::Int64Optional, 300, 16, 0);
    assert_eq!((e.number(), e.offset(), e.tag_len(), e.kind()), (300, 16, 2, Kind::Int64Optional));
}

#[test]
fn an_open_enum_stores_any_number_and_a_closed_one_only_its_variants() {
    let mut open = 0i32;
    assert!(ImplicitOpen::<Color>::set(&mut open, 7));
    assert_eq!(ImplicitOpen::<Color>::get(&open, 0), Some(7));
    let mut closed = Color::Red;
    assert!(!ImplicitClosed::<Color>::set(&mut closed, 7));
    assert_eq!(closed, Color::Red);
    assert!(ImplicitClosed::<Color>::set(&mut closed, 1));
    assert_eq!(closed, Color::Green);
    assert_eq!(ImplicitClosed::<Color>::get(&closed, 0), Some(1));
    assert!(ImplicitClosed::<Color>::accepts(0));
    assert!(!ImplicitClosed::<Color>::accepts(2));
    assert!(OptionalOpen::<Color>::accepts(-5));

    let mut opt: Option<Color> = None;
    assert_eq!(OptionalClosed::<Color>::get(&opt, 0), None);
    assert!(!OptionalClosed::<Color>::set(&mut opt, 9));
    assert_eq!(opt, None);
    assert!(OptionalClosed::<Color>::set(&mut opt, 0));
    assert_eq!(OptionalClosed::<Color>::get(&opt, 0), Some(0));
    let mut opt_open: Option<i32> = None;
    assert!(OptionalOpen::<Color>::set(&mut opt_open, 42));
    assert_eq!(opt_open, Some(42));

    let mut rep: Vec<Color> = Vec::new();
    assert!(RepeatedClosed::<Color>::set(&mut rep, 1));
    assert!(!RepeatedClosed::<Color>::set(&mut rep, 3));
    assert!(RepeatedClosed::<Color>::set(&mut rep, 0));
    assert_eq!(RepeatedClosed::<Color>::len(&rep), 2);
    assert_eq!(RepeatedClosed::<Color>::get(&rep, 0), Some(1));
    assert_eq!(RepeatedClosed::<Color>::get(&rep, 2), None);
    let mut rep_open: Vec<i32> = vec![4];
    assert!(RepeatedOpen::<Color>::set(&mut rep_open, -1));
    assert_eq!(RepeatedOpen::<Color>::len(&rep_open), 2);
    assert_eq!(RepeatedOpen::<Color>::get(&rep_open, 1), Some(-1));
    assert_eq!(ImplicitOpen::<Color>::len(&open), 0);
}

#[test]
fn a_message_member_needs_a_oneof_built_for_messages() {
    let member = |kind: Kind, number: u32, aux: u16| Entry::oneof_member(kind, number == 2, number, 0, aux);
    let direct = || Aux::Msg(leak_one(MsgVt::direct(inner())));
    assert_eq!(
        one_member(
            member(Kind::MsgSingular, 2, 1),
            vec![pick_group(), Aux::Member(Member::new(0, Kind::MsgSingular, 2)), direct()]
        ),
        Some(TableError::MemberNeedsMessages)
    );
    assert_eq!(
        TableError::MemberNeedsMessages.message(),
        "buffa table: a oneof with a message member must be built with `OneofVt::with_messages`"
    );
    let group = Aux::Group(leak_one(OneofVt::with_messages(0, 2)));
    assert_eq!(
        one_member(member(Kind::MsgSingular, 2, 1), vec![group, Aux::Member(Member::new(0, Kind::MsgSingular, 2)), direct()]),
        None
    );
}

fn no_fields(n: usize) -> Vec<FieldData> {
    (0..n).map(|_| FieldData::Numbers(Vec::new())).collect()
}

#[test]
fn a_message_decodes_field_by_field_into_its_entries() {
    let table = outer();
    let mut fields = no_fields(24);
    let mut unknown = Vec::new();
    let wire = [
        0x08, 0x96, 0x01, 0x1a, 0x02, b'h', b'i', 0x2a, 0x02, 0x01, 0x02, 0x3a, 0x02, 0x08, 0x01, 0x50,
        0x07, 0xc0, 0x3e, 0x05,
    ];
    assert_eq!(merge_message(table.raw(), &mut fields, &mut unknown, &wire, 100), Ok(()));
    assert_eq!(fields[0], FieldData::Numbers(vec![150]));
    assert_eq!(fields[2], FieldData::Texts(vec![b"hi".to_vec()]));
    assert_eq!(fields[4], FieldData::Numbers(vec![1, 2]));
    assert_eq!(fields[6], FieldData::Children(vec![vec![0x08, 0x01]]));
    // A closed enum's unknown number is dropped: this message keeps no unknown fields.
    assert_eq!(fields[9], FieldData::Numbers(Vec::new()));
    assert_eq!(fields[23], FieldData::Numbers(vec![5]));
    assert!(unknown.is_empty());
}

#[test]
fn a_singular_field_takes_the_last_value_and_message_values_merge() {
    let table = outer();
    let mut fields = no_fields(24);
    let mut unknown = Vec::new();
    let wire = [0x08, 0x01, 0x3a, 0x02, 0x08, 0x01, 0x08, 0x02, 0x3a, 0x02, 0x08, 0x03];
    assert_eq!(merge_message(table.raw(), &mut fields, &mut unknown, &wire, 100), Ok(()));
    assert_eq!(fields[0], FieldData::Numbers(vec![2]));
    assert_eq!(fields[6], FieldData::Children(vec![vec![0x08, 0x01, 0x08, 0x03]]));
}

#[test]
fn a_written_message_reads_back() {
    let table = outer();
    let mut fields = no_fields(24);
    fields[0] = FieldData::Numbers(vec![u64::MAX]);
    fields[2] = FieldData::Texts(vec![b"abc".to_vec()]);
    fields[4] = FieldData::Numbers(vec![1, 300]);
    fields[5] = FieldData::Texts(vec![Vec::new(), b"x".to_vec()]);
    fields[6] = FieldData::Children(vec![vec![0x08, 0x07]]);
    fields[13] = FieldData::Numbers(vec![1]);
    fields[20] = FieldData::Numbers(vec![0]);
    fields[23] = FieldData::Numbers(vec![7]);
    let mut wire = Vec::new();
    table.write_to(&fields, &[], &mut wire);
    let mut back = no_fields(24);
    let mut unknown = Vec::new();
    assert_eq!(merge_message(table.raw(), &mut back, &mut unknown, &wire, 100), Ok(()));
    assert_eq!(back, fields);
}

#[test]
fn decode_errors_name_what_went_wrong() {
    let table = outer();
    let mut fields = no_fields(24);
    let mut unknown = Vec::new();
    // g (7) declares a length of 2^31.
    let wire = [0x3a, 0x80, 0x80, 0x80, 0x80, 0x08];
    assert_eq!(merge_message(table.raw(), &mut fields, &mut unknown, &wire, 100), Err(DecodeError::MessageTooLarge));
    let framed = [0x80, 0x80, 0x80, 0x80, 0x08];
    assert_eq!(table.merge_length_delimited(&mut fields, &mut unknown, &framed, 100), Err(DecodeError::MessageTooLarge));
    assert_eq!(
        merge_message(table.raw(), &mut fields, &mut unknown, &[0x3a, 0x00], 0),
        Err(DecodeError::RecursionLimitExceeded)
    );
    assert_eq!(
        merge_message(table.raw(), &mut fields, &mut unknown, &[0x3a, 0x05, 0x08], 100),
        Err(DecodeError::UnexpectedEof)
    );
    assert_eq!(
        merge_message(table.raw(), &mut fields, &mut unknown, &[0x0a, 0x00], 100),
        Err(DecodeError::WireTypeMismatch { field_number: 1, expected: 0, actual: 2 })
    );
    assert_eq!(
        merge_message(table.raw(), &mut fields, &mut unknown, &[0x1a, 0x01, 0xff], 100),
        Err(DecodeError::InvalidUtf8)
    );
}

#[test]
fn length_delimited_decode_leaves_the_rest_of_the_buffer() {
    let table = outer();
    let mut fields = no_fields(24);
    let mut unknown = Vec::new();
    let buf = [0x03, 0x08, 0x96, 0x01, 0xff, 0xff];
    assert_eq!(table.merge_length_delimited(&mut fields, &mut unknown, &buf, 100), Ok(4));
    assert_eq!(fields[0], FieldData::Numbers(vec![150]));
    assert_eq!(table.merge_length_delimited(&mut fields, &mut unknown, &buf, 0), Err(DecodeError::RecursionLimitExceeded));
    let mut fields = no_fields(24);
    let buf = [0x08, 0x05, 0x08, 0x06];
    assert_eq!(table.merge_to_limit(&mut fields, &mut unknown, &buf, 2, 100), Ok(2));
    assert_eq!(fields[0], FieldData::Numbers(vec![5]));
}

#[test]
fn merge_field_decodes_one_field_after_its_tag() {
    let table = outer();
    let mut fields = no_fields(24);
    let mut unknown = Vec::new();
    let buf = [0x08, 0x2a, 0x08, 0x01];
    assert_eq!(table.merge_field(&mut fields, &mut unknown, 1, 0, &buf, 1, 100), Ok(2));
    assert_eq!(fields[0], FieldData::Numbers(vec![42]));
}

#[test]
fn unknown_fields_are_preserved_or_skipped() {
    let kept = Table::<Holder>::new(ABI, leak(vec![]), leak(vec![]), leak(vec![]), Some(8));
    let wire = [0x48, 0x05, 0x52, 0x01, 0x61, 0x5b, 0x08, 0x01, 0x5c];
    let mut fields = Vec::new();
    let mut unknown = Vec::new();
    assert_eq!(merge_message(kept.raw(), &mut fields, &mut unknown, &wire, 100), Ok(()));
    assert_eq!(unknown, wire.to_vec());
    let dropped = Table::<Holder>::new(ABI, leak(vec![]), leak(vec![]), leak(vec![]), None);
    let mut unknown = Vec::new();
    assert_eq!(merge_message(dropped.raw(), &mut fields, &mut unknown, &wire, 100), Ok(()));
    assert!(unknown.is_empty());
    assert_eq!(
        merge_message(dropped.raw(), &mut fields, &mut unknown, &[0x5b, 0x5b, 0x5c, 0x5c], 1),
        Err(DecodeError::RecursionLimitExceeded)
    );
}

#[test]
fn oneof_members_decode_into_their_oneof() {
    let table = holder();
    let mut fields = no_fields(10);
    let mut unknown = Vec::new();
    assert_eq!(merge_message(table.raw(), &mut fields, &mut unknown, &[0x10, 0x05], 100), Ok(()));
    assert_eq!(fields[1], FieldData::Member(Some((2, WireValue::Varint(5)))));
    assert_eq!(merge_message(table.raw(), &mut fields, &mut unknown, &[0x22, 0x01, b'a'], 100), Ok(()));
    assert_eq!(fields[1], FieldData::Member(Some((4, WireValue::Len(b"a".to_vec())))));
    // A message member that is set is merged into; a closed enum's unknown number changes nothing.
    let wire = [0x4a, 0x02, 0x08, 0x01, 0x4a, 0x02, 0x08, 0x02, 0x40, 0x07];
    assert_eq!(merge_message(table.raw(), &mut fields, &mut unknown, &wire, 100), Ok(()));
    assert_eq!(fields[1], FieldData::Member(Some((9, WireValue::Len(vec![0x08, 0x01, 0x08, 0x02])))));
    assert_eq!(merge_message(table.raw(), &mut fields, &mut unknown, &[0x40, 0x01], 100), Ok(()));
    assert_eq!(fields[1], FieldData::Member(Some((8, WireValue::Varint(1)))));
    // The other oneof is held by its own leading entry.
    assert_eq!(merge_message(table.raw(), &mut fields, &mut unknown, &[0x35, 0, 0, 0x80, 0x3f], 100), Ok(()));
    assert_eq!(fields[5], FieldData::Member(Some((6, WireValue::Fixed32(0x3f80_0000)))));
    assert_eq!(
        merge_message(table.raw(), &mut fields, &mut unknown, &[0x4a, 0x00], 0),
        Err(DecodeError::RecursionLimitExceeded)
    );
    assert!(unknown.is_empty());
}

/// Tables for `Inner` nested `levels` deep: each one's `next` field reaches
/// its messages through the table below it, and the lowest through their
/// own codec.
fn inner_chain(levels: usize) -> &'static Table<Inner> {
    let entries = leak(vec![
        Entry::new(Kind::Int32Implicit, 1, 0, 0),
        Entry::new(Kind::StrImplicit, 2, 0, 0),
        Entry::new(Kind::MsgSingular, 3, 0, 0),
    ]);
    let mut table = inner();
    for _ in 0..levels {
        let aux = leak(vec![Aux::Msg(leak_one(MsgVt::new::<InnerField>(table)))]);
        table = leak_one(Table::new(ABI, entries, dense(4, &[1, 2, 3]), aux, None));
    }
    table
}

/// `next` (3) nested `depth` levels deep, the innermost empty.
fn nested(depth: usize) -> Vec<u8> {
    let mut wire = Vec::new();
    for _ in 0..depth {
        let mut outer = vec![0x1a];
        buffa::table::wire::encode_varint(wire.len() as u64, &mut outer);
        outer.extend_from_slice(&wire);
        wire = outer;
    }
    wire
}

/// Decode `wire` as an `Inner` with `depth` levels of nesting allowed.
fn decode_inner(table: &Table<Inner>, wire: &[u8], depth: u32) -> Result<(), DecodeError> {
    let mut fields = vec![
        FieldData::Numbers(Vec::new()),
        FieldData::Texts(Vec::new()),
        FieldData::Children(Vec::new()),
    ];
    let mut unknown = Vec::new();
    merge_message(table.raw(), &mut fields, &mut unknown, wire, depth)
}

#[test]
fn the_recursion_limit_applies() {
    // The default limit is 100 levels.
    let table = inner_chain(200);
    let deep = nested(150);
    assert!(matches!(decode_inner(table, &deep, 100), Err(DecodeError::RecursionLimitExceeded)));
    assert!(decode_inner(table, &nested(50), 100).is_ok());
    assert!(matches!(
        decode_inner(table, &nested(50), 10),
        Err(DecodeError::RecursionLimitExceeded)
    ));
}

#[test]
fn an_error_inside_a_nested_message_is_the_messages_error() {
    let table = inner_chain(3);
    // next { next { label: [0xff] } }: the innermost label is not UTF-8.
    let wire = vec![0x1a, 0x05, 0x1a, 0x03, 0x12, 0x01, 0xff];
    assert_eq!(decode_inner(table, &wire, 100), Err(DecodeError::InvalidUtf8));
    // Through a message reached by its own codec, the bytes are kept as
    // they are.
    assert_eq!(decode_inner(inner(), &wire, 100), Ok(()));
    // Exactly as many levels as the nesting takes.
    assert_eq!(decode_inner(table, &nested(3), 3), Ok(()));
    assert_eq!(decode_inner(table, &nested(3), 2), Err(DecodeError::RecursionLimitExceeded));
}

#[test]
fn a_message_member_is_checked_through_its_table() {
    let table = holder();
    let mut fields = no_fields(10);
    let mut unknown = Vec::new();
    // child (9) { label: [0xff] }: the member's table finds the bad string.
    assert_eq!(
        merge_message(table.raw(), &mut fields, &mut unknown, &[0x4a, 0x03, 0x12, 0x01, 0xff], 100),
        Err(DecodeError::InvalidUtf8)
    );
    // A good one is held as it came.
    let mut fields = no_fields(10);
    assert_eq!(
        merge_message(table.raw(), &mut fields, &mut unknown, &[0x4a, 0x03, 0x12, 0x01, b'x'], 100),
        Ok(())
    );
    assert_eq!(fields[1], FieldData::Member(Some((9, WireValue::Len(vec![0x12, 0x01, b'x'])))));
    // Its contents take a level of nesting of their own.
    let mut fields = no_fields(10);
    assert_eq!(
        merge_message(table.raw(), &mut fields, &mut unknown, &[0x4a, 0x02, 0x1a, 0x00], 1),
        Err(DecodeError::RecursionLimitExceeded)
    );
}

#[test]
fn signed_and_small_scalars_read_back_as_written() {
    let entries = leak(vec![
        Entry::new(Kind::Int32Implicit, 1, 0, 0),
        Entry::new(Kind::Sint32Implicit, 2, 0, 0),
        Entry::new(Kind::Sint64Implicit, 3, 0, 0),
        Entry::new(Kind::Sfixed32Implicit, 4, 0, 0),
        Entry::new(Kind::BoolImplicit, 5, 0, 0),
        Entry::new(Kind::Uint32Implicit, 6, 0, 0),
        Entry::new(Kind::Sint32Repeated, 7, 0, 0),
    ]);
    let table = Table::<Lossy>::new(ABI, entries, &[], &[], None);
    let minus = |v: i64| v as u64;
    let fields = vec![
        FieldData::Numbers(vec![minus(-5)]),
        FieldData::Numbers(vec![minus(-1)]),
        FieldData::Numbers(vec![minus(i64::MIN)]),
        FieldData::Numbers(vec![minus(-2)]),
        FieldData::Numbers(vec![1]),
        FieldData::Numbers(vec![u64::from(u32::MAX)]),
        FieldData::Numbers(vec![minus(-3), 3, minus(i64::from(i32::MIN))]),
    ];
    let mut wire = Vec::new();
    table.write_to(&fields, &[], &mut wire);
    let mut back = no_fields(7);
    let mut unknown = Vec::new();
    assert_eq!(merge_message(table.raw(), &mut back, &mut unknown, &wire, 100), Ok(()));
    assert_eq!(back, fields);
}

#[test]
fn a_written_oneof_member_reads_back() {
    // A oneof member, written at its oneof's leading entry.
    let table = holder();
    for member in [
        (4, WireValue::Len(b"hi".to_vec())),
        (2, WireValue::Varint(u64::MAX - 6)),
        (9, WireValue::Len(vec![0x08, 0x05])),
    ] {
        let mut fields = no_fields(10);
        fields[1] = FieldData::Member(Some(member));
        let mut wire = Vec::new();
        table.write_to(&fields, &[], &mut wire);
        let mut back = no_fields(10);
        back[1] = FieldData::Member(None);
        let mut unknown = Vec::new();
        assert_eq!(merge_message(table.raw(), &mut back, &mut unknown, &wire, 100), Ok(()));
        assert_eq!(back, fields);
    }
}

#[test]
fn a_repeated_message_element_that_fails_to_decode_is_not_kept() {
    // h (8): one valid element, then one whose string label is not UTF-8.
    let wire = [0x42, 0x02, 0x08, 0x01, 0x42, 0x03, 0x12, 0x01, 0xff];
    let table = outer();
    let mut fields = no_fields(24);
    let mut unknown = Vec::new();
    let result = merge_message(table.raw(), &mut fields, &mut unknown, &wire, 100);
    assert_eq!(result, Err(DecodeError::InvalidUtf8));
    assert_eq!(fields[7], FieldData::Children(vec![vec![0x08, 0x01]]));
}

/// The fields of an `Outer` with every field set.
fn populated() -> Vec<FieldData> {
    vec![
        FieldData::Numbers(vec![(-5i64) as u64]),
        FieldData::Numbers(vec![0]),
        FieldData::Texts(vec![b"hello".to_vec()]),
        FieldData::Texts(vec![vec![0x00, 0xff]]),
        FieldData::Numbers(vec![3, 270, (-1i64) as u64]),
        FieldData::Texts(vec![b"x".to_vec(), Vec::new()]),
        FieldData::Children(vec![vec![0x08, 0x07, 0x12, 0x01, b'a']]),
        FieldData::Children(vec![vec![0x08, 0x01], Vec::new()]),
        FieldData::Numbers(vec![5]),
        FieldData::Numbers(vec![1]),
        FieldData::Numbers(vec![0, 1]),
        FieldData::Numbers(vec![u64::from(1.5f32.to_bits())]),
        FieldData::Numbers(vec![2.25f64.to_bits()]),
        FieldData::Numbers(vec![1]),
        FieldData::Numbers(vec![u64::MAX, 5]),
        FieldData::Numbers(vec![1, 2]),
        FieldData::Numbers(vec![9]),
        FieldData::Texts(vec![Vec::new()]),
        FieldData::Texts(vec![b"s".to_vec()]),
        FieldData::Texts(vec![vec![1], Vec::new()]),
        FieldData::Numbers(vec![0]),
        FieldData::Numbers(vec![7, 0xffff_ffff]),
        FieldData::Children(vec![vec![0x08, 0x02]]),
        FieldData::Numbers(vec![1]),
    ]
}

/// The fields of an `Outer` with nothing set: the required field is
/// always written.
fn empty_outer() -> Vec<FieldData> {
    let mut fields = no_fields(24);
    fields[20] = FieldData::Numbers(vec![0]);
    fields
}

fn encode(table: &Table<Outer>, fields: &[FieldData]) -> Vec<u8> {
    let mut out = Vec::new();
    table.write_to(fields, &[], &mut out);
    out
}

fn round_trip(table: &Table<Outer>, fields: &[FieldData]) -> Vec<FieldData> {
    let wire = encode(table, fields);
    let mut back = no_fields(24);
    let mut unknown = Vec::new();
    assert_eq!(merge_message(table.raw(), &mut back, &mut unknown, &wire, 100), Ok(()));
    assert!(unknown.is_empty());
    back
}

#[test]
fn encodes_known_wire_bytes() {
    let table = outer();
    let mut fields = empty_outer();
    fields[0] = FieldData::Numbers(vec![150]);
    fields[2] = FieldData::Texts(vec![b"hi".to_vec()]);
    fields[4] = FieldData::Numbers(vec![3, 270]);
    fields[7] = FieldData::Children(vec![vec![0x08, 0x01]]);
    fields[23] = FieldData::Numbers(vec![1]);
    // a = 150; c = "hi"; e packed; h submessage {id = 1}; required_int (21) = 0
    // is always written; high (1000) has a two-byte tag.
    let expected: &[u8] = &[
        0x08, 0x96, 0x01, // 1: varint 150
        0x1a, 0x02, b'h', b'i', // 3: "hi"
        0x2a, 0x03, 0x03, 0x8e, 0x02, // 5: packed [3, 270]
        0x42, 0x02, 0x08, 0x01, // 8: {1: 1}
        0xa8, 0x01, 0x00, // 21: varint 0 (required)
        0xc0, 0x3e, 0x01, // 1000: varint 1
    ];
    assert_eq!(encode(&table, &fields), expected);
    assert_eq!(table.compute_size(&fields, &[]), expected.len());
}

#[test]
fn round_trips_every_shape() {
    let table = outer();
    let msg = populated();
    assert_eq!(round_trip(&table, &msg), msg);
    assert_eq!(round_trip(&table, &empty_outer()), empty_outer());
}

#[test]
fn tests_every_sink_receives_the_same_bytes() {
    let table = outer();
    let msg = populated();
    let expected = encode(&table, &msg);

    let mut rope = buffa::encode_sink::Rope::new();
    table.write_to_rope(&msg, &[], &mut rope);
    assert_eq!(&rope.to_contiguous_bytes()[..], &expected[..]);

    let mut bytes_mut = bytes::BytesMut::new();
    table.write_to_bytes_mut(&msg, &[], &mut bytes_mut);
    assert_eq!(&bytes_mut[..], &expected[..]);

    let mut prefixed = vec![0x05];
    table.write_to(&msg, &[], &mut prefixed);
    assert_eq!(prefixed[0], 0x05);
    assert_eq!(&prefixed[1..], &expected[..]);
    assert_eq!(table.compute_size(&msg, &[]), expected.len());
}

#[test]
fn a_large_bytes_field_encodes_into_a_rope() {
    let table = outer();
    let payload = vec![0xab; 64 * 1024];
    let mut fields = empty_outer();
    fields[3] = FieldData::Texts(vec![payload.clone()]);
    let mut rope = buffa::encode_sink::Rope::new();
    table.write_to_rope(&fields, &[], &mut rope);
    assert_eq!(&rope.to_contiguous_bytes()[..], &encode(&table, &fields)[..]);
    assert!(rope.len() > payload.len());
}

fn decode_outer(table: &Table<Outer>, wire: &[u8]) -> Result<(Vec<FieldData>, Vec<u8>), DecodeError> {
    let mut fields = empty_outer();
    let mut unknown = Vec::new();
    merge_message(table.raw(), &mut fields, &mut unknown, wire, 100).map(|()| (fields, unknown))
}

#[test]
fn an_empty_message_encodes_to_only_its_required_fields() {
    assert_eq!(encode(&outer(), &empty_outer()), [0xa8, 0x01, 0x00]);
    let mut out = Vec::new();
    inner().write_to(&no_fields(3), &[], &mut out);
    assert_eq!(out, Vec::<u8>::new());
}

#[test]
fn a_closed_enum_value_it_does_not_know_becomes_an_unknown_field() {
    // closed (10) = 7; packed_closed (11) = 7 unpacked, then packed [1, 7].
    let table = outer_with(Some(0));
    let wire = [0x50, 0x07, 0x58, 0x07, 0x5a, 0x02, 0x01, 0x07];
    let (fields, unknown) = decode_outer(&table, &wire).unwrap();
    assert_eq!(fields[9], FieldData::Numbers(Vec::new()));
    assert_eq!(fields[10], FieldData::Numbers(vec![1]));
    // Each value it does not know is kept as a varint record of its field.
    assert_eq!(unknown, [0x50, 0x07, 0x58, 0x07, 0x58, 0x07]);
    // Known fields are written first, in field order, then the unknown ones.
    let mut out = Vec::new();
    table.write_to(&fields, &unknown, &mut out);
    assert_eq!(out, [0x5a, 0x01, 0x01, 0xa8, 0x01, 0x00, 0x50, 0x07, 0x58, 0x07, 0x58, 0x07]);
}

#[test]
fn a_closed_enum_value_is_dropped_by_a_message_that_drops_unknown_fields() {
    // packed_closed (11) = [1, 7, 0] unpacked; closed (10) = 7.
    let wire = [0x58, 0x01, 0x58, 0x07, 0x58, 0x00, 0x50, 0x07];
    let (fields, unknown) = decode_outer(&outer(), &wire).unwrap();
    assert_eq!(fields[10], FieldData::Numbers(vec![1, 0]));
    assert_eq!(fields[9], FieldData::Numbers(Vec::new()));
    assert!(unknown.is_empty());
}

#[test]
fn an_open_enum_keeps_a_value_it_does_not_know() {
    let (fields, unknown) = decode_outer(&outer_with(Some(0)), &[0x48, 0x09]).unwrap();
    assert_eq!(fields[8], FieldData::Numbers(vec![9]));
    assert!(unknown.is_empty());
}

#[test]
fn repeated_scalars_accept_packed_and_unpacked_forms() {
    // e (5) is packed: [1] unpacked, [2, 3] packed, [4] unpacked.
    let wire = [0x28, 0x01, 0x2a, 0x02, 0x02, 0x03, 0x28, 0x04];
    assert_eq!(decode_outer(&outer(), &wire).unwrap().0[4], FieldData::Numbers(vec![1, 2, 3, 4]));
    // unpacked_sfixed (15) is unpacked: a packed payload is also accepted.
    let mut wire = vec![0x7a, 16];
    wire.extend_from_slice(&5i64.to_le_bytes());
    wire.extend_from_slice(&(-6i64).to_le_bytes());
    assert_eq!(decode_outer(&outer(), &wire).unwrap().0[14], FieldData::Numbers(vec![5, (-6i64) as u64]));
}

#[test]
fn a_singular_field_takes_the_last_value_and_messages_merge() {
    // a = 1, a = 2; g = {id = 5}, g = {label = "l"}
    let wire = [0x08, 0x01, 0x08, 0x02, 0x3a, 0x02, 0x08, 0x05, 0x3a, 0x03, 0x12, 0x01, b'l'];
    let (fields, _) = decode_outer(&outer(), &wire).unwrap();
    assert_eq!(fields[0], FieldData::Numbers(vec![2]));
    assert_eq!(fields[6], FieldData::Children(vec![vec![0x08, 0x05, 0x12, 0x01, b'l']]));
    // The merged child reads back with both values.
    let mut child = no_fields(3);
    let mut unknown = Vec::new();
    assert_eq!(merge_message(inner().raw(), &mut child, &mut unknown, &[0x08, 0x05, 0x12, 0x01, b'l'], 100), Ok(()));
    assert_eq!(child[0], FieldData::Numbers(vec![5]));
    assert_eq!(child[1], FieldData::Texts(vec![b"l".to_vec()]));
}

#[test]
fn a_wire_type_mismatch_is_an_error() {
    // a (varint) sent as length-delimited; c (string) sent as varint.
    assert!(matches!(decode_outer(&outer(), &[0x0a, 0x00]), Err(DecodeError::WireTypeMismatch { .. })));
    assert!(matches!(decode_outer(&outer(), &[0x18, 0x01]), Err(DecodeError::WireTypeMismatch { .. })));
}

#[test]
fn invalid_utf8_in_a_string_is_an_error() {
    assert!(matches!(decode_outer(&outer(), &[0x1a, 0x01, 0xff]), Err(DecodeError::InvalidUtf8)));
}

#[test]
fn a_truncated_message_is_an_error_or_ends_on_a_field_boundary() {
    let table = outer();
    let bytes = encode(&table, &populated());
    let mut ok = 0;
    for end in 0..bytes.len() {
        match decode_outer(&table, &bytes[..end]) {
            Ok(_) => ok += 1,
            Err(e) => assert!(
                matches!(e, DecodeError::UnexpectedEof | DecodeError::VarintTooLong),
                "prefix {end}: {e:?}"
            ),
        }
    }
    // The empty prefix and each top-level field boundary decode; the rest fail.
    assert!(ok > 1 && ok < bytes.len() / 2);
    assert!(decode_outer(&table, &bytes).is_ok());
}

#[test]
fn a_length_that_runs_past_its_message_is_an_error() {
    // g = a submessage of 2 bytes whose label declares 5.
    assert_eq!(
        decode_outer(&outer(), &[0x3a, 0x02, 0x12, 0x05, b'a', b'b', b'c']),
        Err(DecodeError::UnexpectedEof)
    );
}

#[test]
fn merge_field_decodes_one_field_from_a_contiguous_buffer() {
    let wire = [0x08, 0x2a, 0x12, 0x02, b'o', b'k'];
    let mut fields = no_fields(3);
    let mut unknown = Vec::new();
    let (number, wire_type, pos) = buffa::table::map_entry::decode_tag(&wire, 0).unwrap();
    let next = inner().merge_field(&mut fields, &mut unknown, number, wire_type, &wire, pos, 100).unwrap();
    assert_eq!(fields[0], FieldData::Numbers(vec![42]));
    assert_eq!(&wire[next..], &wire[2..]);
}

#[test]
fn a_sub_message_longer_than_the_size_limit_is_an_error() {
    // g (7) declares a length of 2^31.
    let wire = [0x3a, 0x80, 0x80, 0x80, 0x80, 0x08];
    assert_eq!(decode_outer(&outer(), &wire), Err(DecodeError::MessageTooLarge));
    // The same length as the prefix of a length-delimited message.
    let framed = [0x80, 0x80, 0x80, 0x80, 0x08];
    let mut fields = empty_outer();
    let mut unknown = Vec::new();
    assert_eq!(outer().merge_length_delimited(&mut fields, &mut unknown, &framed, 100), Err(DecodeError::MessageTooLarge));
}

/// A message with the fields of `Bridged`, standing for its layout.
#[allow(dead_code)]
struct Bridged([u64; 16]);

/// `Inner`, keeping unknown fields.
fn inner_keeping() -> &'static Table<Inner> {
    let entries = leak(vec![
        Entry::new(Kind::Int32Implicit, 1, 0, 0),
        Entry::new(Kind::StrImplicit, 2, 0, 0),
        Entry::new(Kind::MsgSingular, 3, 0, 0),
    ]);
    let aux = leak(vec![Aux::Msg(leak_one(MsgVt::new_via_message::<InnerField>()))]);
    leak_one(Table::new(ABI, entries, dense(4, &[1, 2, 3]), aux, Some(0)))
}

/// `hand` (1), `hands` (2), `tabled` (3) and `tabled_list` (4) are children
/// reached through their own codec; `direct` (5) through the `Inner` table;
/// `tail` (7) is an `int32`. It keeps unknown fields.
fn bridged_table() -> Table<Bridged> {
    let entries = leak(vec![
        Entry::new(Kind::MsgSingular, 1, 0, 0),
        Entry::new(Kind::MsgRepeated, 2, 0, 1),
        Entry::new(Kind::MsgSingular, 3, 0, 2),
        Entry::new(Kind::MsgRepeated, 4, 0, 3),
        Entry::new(Kind::MsgSingular, 5, 0, 4),
        Entry::new(Kind::Int32Implicit, 7, 0, 0),
    ]);
    let aux = leak(vec![
        Aux::Msg(leak_one(MsgVt::new_via_message::<InnerField>())),
        Aux::Rep(leak_one(RepVt::new_via_message::<Inner>())),
        Aux::Msg(leak_one(MsgVt::new_via_message::<InnerField>())),
        Aux::Rep(leak_one(RepVt::new_via_message::<Inner>())),
        Aux::Msg(leak_one(MsgVt::new::<InnerField>(inner()))),
    ]);
    Table::new(ABI, entries, dense(8, &[1, 2, 3, 4, 5, 7]), aux, Some(0))
}

/// The bytes of a child with `id` (1), `label` (2) and `next` (3), as its
/// own codec writes them.
fn child(id: u64, label: &[u8], next: Option<Vec<u8>>, unknown: &[u8]) -> Vec<u8> {
    let fields = vec![
        FieldData::Numbers(vec![id]),
        FieldData::Texts(vec![label.to_vec()]),
        FieldData::Children(next.into_iter().collect()),
    ];
    let mut out = Vec::new();
    inner_keeping().write_to(&fields, unknown, &mut out);
    out
}

fn no_bridged() -> Vec<FieldData> {
    vec![
        FieldData::Children(Vec::new()),
        FieldData::Children(Vec::new()),
        FieldData::Children(Vec::new()),
        FieldData::Children(Vec::new()),
        FieldData::Children(Vec::new()),
        FieldData::Numbers(vec![0]),
    ]
}

/// A `Bridged` with every field set, `tabled` keeping an unknown field 900.
fn bridged() -> Vec<FieldData> {
    let deep = child(1, b"deep", Some(child(2, b"", None, &[])), &[]);
    vec![
        FieldData::Children(vec![deep]),
        FieldData::Children(vec![child(7, b"a", None, &[]), Vec::new(), child(0, b"c", None, &[])]),
        FieldData::Children(vec![child(9, b"", None, &[0xa0, 0x38, 0x05])]),
        FieldData::Children(vec![child(1, b"", None, &[]), Vec::new()]),
        FieldData::Children(vec![child(0, b"direct", None, &[])]),
        FieldData::Numbers(vec![70]),
    ]
}

fn encode_bridged(fields: &[FieldData]) -> Vec<u8> {
    let mut out = Vec::new();
    bridged_table().write_to(fields, &[], &mut out);
    out
}

fn decode_bridged(wire: &[u8]) -> Result<Vec<FieldData>, DecodeError> {
    let mut fields = no_bridged();
    let mut unknown = Vec::new();
    merge_message(bridged_table().raw(), &mut fields, &mut unknown, wire, 100).map(|()| fields)
}

#[test]
fn a_child_without_a_table_encodes_the_bytes_a_table_child_does() {
    let same = child(5, b"same", None, &[]);
    let mut through_message = no_bridged();
    through_message[2] = FieldData::Children(vec![same.clone()]);
    let mut through_table = no_bridged();
    through_table[4] = FieldData::Children(vec![same]);
    let through_message = encode_bridged(&through_message);
    let through_table = encode_bridged(&through_table);
    // Field 3 against field 5: only the tag differs.
    assert_eq!(through_message[0], 0x1a);
    assert_eq!(through_table[0], 0x2a);
    assert_eq!(through_message[1..], through_table[1..]);

    let mut fields = no_bridged();
    fields[0] = FieldData::Children(vec![child(1, b"a", None, &[])]);
    fields[1] = FieldData::Children(vec![child(2, b"", None, &[])]);
    fields[5] = FieldData::Numbers(vec![3]);
    let expected: &[u8] = &[
        0x0a, 0x05, 0x08, 0x01, 0x12, 0x01, b'a', // 1: {n: 1, s: "a"}
        0x12, 0x02, 0x08, 0x02, // 2: {n: 2}
        0x38, 0x03, // 7: 3
    ];
    assert_eq!(encode_bridged(&fields), expected);
}

#[test]
fn children_without_a_table_round_trip() {
    let msg = bridged();
    let bytes = encode_bridged(&msg);
    assert_eq!(bytes.len(), bridged_table().compute_size(&msg, &[]));
    assert_eq!(decode_bridged(&bytes), Ok(msg));
    assert_eq!(decode_bridged(&encode_bridged(&no_bridged())), Ok(no_bridged()));
}

#[test]
fn a_child_without_a_table_reaches_every_sink() {
    let msg = bridged();
    let expected = encode_bridged(&msg);

    let mut rope = buffa::encode_sink::Rope::new();
    bridged_table().write_to_rope(&msg, &[], &mut rope);
    assert_eq!(&rope.to_contiguous_bytes()[..], &expected[..]);

    let mut bytes_mut = bytes::BytesMut::new();
    bridged_table().write_to_bytes_mut(&msg, &[], &mut bytes_mut);
    assert_eq!(&bytes_mut[..], &expected[..]);

    let mut roomy = Vec::with_capacity(expected.len());
    bridged_table().write_to(&msg, &[], &mut roomy);
    assert_eq!(roomy, expected);
}

#[test]
fn a_singular_child_without_a_table_merges() {
    let mut fields = no_bridged();
    let mut unknown = Vec::new();
    for wire in [
        // hand {n = 1, s = "x"}, then hand {s = "y", next = {n = 2}}.
        &[0x0a, 0x05, 0x08, 0x01, 0x12, 0x01, b'x'][..],
        &[0x0a, 0x07, 0x12, 0x01, b'y', 0x1a, 0x02, 0x08, 0x02][..],
    ] {
        assert_eq!(merge_message(bridged_table().raw(), &mut fields, &mut unknown, wire, 100), Ok(()));
    }
    let hand = match &fields[0] {
        FieldData::Children(c) => c[0].clone(),
        other => panic!("{other:?}"),
    };
    // The child's own codec reads what was merged.
    let mut child_fields = no_fields(3);
    let mut child_unknown = Vec::new();
    assert_eq!(merge_message(inner().raw(), &mut child_fields, &mut child_unknown, &hand, 100), Ok(()));
    assert_eq!(child_fields[0], FieldData::Numbers(vec![1]));
    assert_eq!(child_fields[1], FieldData::Texts(vec![b"y".to_vec()]));
    assert_eq!(child_fields[2], FieldData::Children(vec![vec![0x08, 0x02]]));
}

#[test]
fn unknown_fields_in_a_child_without_a_table_are_kept() {
    let decoded = decode_bridged(&encode_bridged(&bridged())).unwrap();
    let tabled = match &decoded[2] {
        FieldData::Children(c) => c[0].clone(),
        other => panic!("{other:?}"),
    };
    let mut fields = no_fields(3);
    let mut unknown = Vec::new();
    assert_eq!(merge_message(inner_keeping().raw(), &mut fields, &mut unknown, &tabled, 100), Ok(()));
    assert_eq!(unknown, [0xa0, 0x38, 0x05]);
}

#[test]
fn a_truncated_child_without_a_table_is_an_error_or_ends_on_a_field_boundary() {
    let bytes = encode_bridged(&bridged());
    let mut ok = 0;
    for end in 0..bytes.len() {
        match decode_bridged(&bytes[..end]) {
            Ok(_) => ok += 1,
            Err(e) => assert!(
                matches!(e, DecodeError::UnexpectedEof | DecodeError::VarintTooLong),
                "prefix {end}: {e:?}"
            ),
        }
    }
    assert!(ok > 1 && ok < bytes.len() / 2);
    assert!(decode_bridged(&bytes).is_ok());
}

#[test]
fn a_length_that_runs_past_a_child_without_a_table_is_an_error() {
    // `hand` is 2 bytes and its string declares 5.
    assert_eq!(decode_bridged(&[0x0a, 0x02, 0x12, 0x05, b'a', b'b', b'c']), Err(DecodeError::UnexpectedEof));
    // A child longer than the size limit.
    assert_eq!(decode_bridged(&[0x0a, 0x80, 0x80, 0x80, 0x80, 0x08]), Err(DecodeError::MessageTooLarge));
}

/// A `Holder` with nothing set: `a` (1) and `b` (3), then the members of
/// `pick`, held at its leader (2), and of `other`, held at its leader (6).
fn no_holder() -> Vec<FieldData> {
    let mut fields = no_fields(10);
    fields[1] = FieldData::Member(None);
    fields[5] = FieldData::Member(None);
    fields
}

fn pick(number: u32, value: WireValue) -> FieldData {
    FieldData::Member(Some((number, value)))
}

fn holding(p: FieldData) -> Vec<FieldData> {
    let mut fields = no_holder();
    fields[1] = p;
    fields
}

fn encode_holder(fields: &[FieldData]) -> Vec<u8> {
    let mut out = Vec::new();
    holder().write_to(fields, &[], &mut out);
    out
}

/// Merge `wire` into `fields`.
fn merge_holder(fields: &mut Vec<FieldData>, wire: &[u8]) -> Result<(), DecodeError> {
    let mut unknown = Vec::new();
    merge_message(holder().raw(), fields, &mut unknown, wire, 100)
}

fn decode_holder(wire: &[u8]) -> Result<Vec<FieldData>, DecodeError> {
    let mut fields = no_holder();
    merge_holder(&mut fields, wire).map(|()| fields)
}

fn text_pick(s: &[u8]) -> FieldData {
    pick(4, WireValue::Len(s.to_vec()))
}

#[test]
fn a_oneof_is_written_where_its_lowest_member_would_be() {
    // a = 1; the child (9) of `pick`, whose lowest member is 2, comes before b
    // = 7 (3), not after it.
    let mut msg = holding(pick(9, WireValue::Len(vec![0x08, 0x05])));
    msg[0] = FieldData::Numbers(vec![1]);
    msg[2] = FieldData::Numbers(vec![7]);
    let wire = [0x08, 0x01, 0x4a, 0x02, 0x08, 0x05, 0x18, 0x07];
    assert_eq!(encode_holder(&msg), wire);
    assert_eq!(holder().compute_size(&msg, &[]), wire.len());
    assert_eq!(decode_holder(&wire), Ok(msg));

    // The other oneof is written at 6, after b, when it is the one that is set.
    let mut msg = no_holder();
    msg[2] = FieldData::Numbers(vec![7]);
    msg[5] = pick(6, WireValue::Fixed32(1.0f32.to_bits()));
    assert_eq!(encode_holder(&msg), [0x18, 0x07, 0x35, 0x00, 0x00, 0x80, 0x3f]);
}

#[test]
fn every_member_round_trips_and_a_default_value_is_still_written() {
    let picks = [
        (2, WireValue::Varint(0)),
        (2, WireValue::Varint(u64::MAX)),
        (4, WireValue::Len(Vec::new())),
        (4, WireValue::Len("héllo".as_bytes().to_vec())),
        (5, WireValue::Len(Vec::new())),
        (5, WireValue::Len(vec![1, 2, 3])),
        (7, WireValue::Varint(0)),
        (7, WireValue::Varint(9)),
        (8, WireValue::Varint(0)),
        (8, WireValue::Varint(1)),
        (9, WireValue::Len(Vec::new())),
        (9, WireValue::Len(vec![0x08, 0x03])),
    ];
    for (number, value) in picks {
        let msg = holding(pick(number, value));
        let wire = encode_holder(&msg);
        assert!(!wire.is_empty(), "{msg:?} wrote nothing");
        assert_eq!(wire.len(), holder().compute_size(&msg, &[]));
        assert_eq!(decode_holder(&wire), Ok(msg));
    }
    for (number, value) in [
        (6, WireValue::Fixed32(0.0f32.to_bits())),
        (6, WireValue::Fixed32((-2.5f32).to_bits())),
        (10, WireValue::Len(Vec::new())),
        (10, WireValue::Len(vec![0x08, 0x04, 0x12, 0x01, b'y'])),
    ] {
        let mut msg = no_holder();
        msg[5] = pick(number, value);
        let wire = encode_holder(&msg);
        assert!(!wire.is_empty());
        assert_eq!(decode_holder(&wire), Ok(msg));
    }
    assert!(encode_holder(&no_holder()).is_empty());
    assert_eq!(encode_holder(&holding(pick(2, WireValue::Varint(0)))), [0x10, 0x00]);
}

#[test]
fn the_last_member_on_the_wire_wins() {
    // num = 5, then text = "hi".
    let wire = [0x10, 0x05, 0x22, 0x02, b'h', b'i'];
    assert_eq!(decode_holder(&wire).unwrap()[1], text_pick(b"hi"));
    // text, then num, then num again.
    let wire = [0x22, 0x02, b'h', b'i', 0x10, 0x05, 0x10, 0x06];
    assert_eq!(decode_holder(&wire).unwrap()[1], pick(2, WireValue::Varint(6)));
    // The two oneofs are independent.
    let wire = [0x10, 0x05, 0x35, 0x00, 0x00, 0x00, 0x40];
    let msg = decode_holder(&wire).unwrap();
    assert_eq!(msg[1], pick(2, WireValue::Varint(5)));
    assert_eq!(msg[5], pick(6, WireValue::Fixed32(2.0f32.to_bits())));
}

#[test]
fn a_message_member_that_is_set_is_merged_into_and_a_different_one_replaces_it() {
    // child {id = 5}, child {label = "ab"}: merged.
    let wire = [0x4a, 0x02, 0x08, 0x05, 0x4a, 0x04, 0x12, 0x02, b'a', b'b'];
    let merged = decode_holder(&wire).unwrap();
    assert_eq!(merged[1], pick(9, WireValue::Len(vec![0x08, 0x05, 0x12, 0x02, b'a', b'b'])));
    // Then num = 7 replaces the child, and a new child starts from nothing.
    let mut wire = wire.to_vec();
    wire.extend_from_slice(&[0x10, 0x07]);
    assert_eq!(decode_holder(&wire).unwrap()[1], pick(2, WireValue::Varint(7)));
    wire.extend_from_slice(&[0x4a, 0x02, 0x08, 0x01]);
    assert_eq!(decode_holder(&wire).unwrap()[1], pick(9, WireValue::Len(vec![0x08, 0x01])));

    // The same for the inline message of the other oneof.
    let wire = [0x52, 0x02, 0x08, 0x05, 0x52, 0x04, 0x12, 0x02, b'a', b'b'];
    assert_eq!(decode_holder(&wire).unwrap()[5], pick(10, WireValue::Len(vec![0x08, 0x05, 0x12, 0x02, b'a', b'b'])));
}

#[test]
fn merging_into_a_message_keeps_a_member_that_the_input_does_not_set() {
    let mut msg = holding(text_pick(b"keep"));
    merge_holder(&mut msg, &[0x08, 0x02]).unwrap();
    assert_eq!(msg[0], FieldData::Numbers(vec![2]));
    assert_eq!(msg[1], text_pick(b"keep"));
}

#[test]
fn a_closed_enum_value_the_member_does_not_know_leaves_the_oneof_alone() {
    // text = "hi", then strict (8) = 7, which Color has no variant for.
    let table = holder_with(Some(0));
    let wire = [0x22, 0x02, b'h', b'i', 0x40, 0x07];
    let mut fields = no_holder();
    let mut unknown = Vec::new();
    assert_eq!(merge_message(table.raw(), &mut fields, &mut unknown, &wire, 100), Ok(()));
    assert_eq!(fields[1], text_pick(b"hi"));
    // It is kept as an unknown varint field 8.
    assert_eq!(unknown, [0x40, 0x07]);
    // Nothing was set before, and nothing is now.
    assert_eq!(decode_holder(&[0x40, 0x07]).unwrap()[1], FieldData::Member(None));
    // A known value replaces the member, and an open enum keeps any value.
    assert_eq!(decode_holder(&[0x22, 0x00, 0x40, 0x01]).unwrap()[1], pick(8, WireValue::Varint(1)));
    assert_eq!(decode_holder(&[0x22, 0x00, 0x38, 0x09]).unwrap()[1], pick(7, WireValue::Varint(9)));
}

#[test]
fn a_rejected_member_value_leaves_the_oneof_as_it_was() {
    // For every member: a value that is cut short, a string that is not UTF-8,
    // and a wire type the member does not have. Each fails without touching
    // the member that is set, whichever it is, or setting one.
    let failing: [&[u8]; 9] = [
        &[0x10, 0x80],
        &[0x12, 0x00],
        &[0x22, 0x01, 0xff],
        &[0x22, 0x05, b'a'],
        &[0x2a, 0x05, 0x01],
        &[0x38, 0x80],
        &[0x40, 0x80],
        &[0x4a, 0x05, 0x08],
        &[0x4a],
    ];
    let initial = [pick(2, WireValue::Varint(5)), text_pick(b"abc"), FieldData::Member(None)];
    for initial in initial {
        for wire in failing {
            let mut msg = holding(initial.clone());
            assert!(merge_holder(&mut msg, wire).is_err(), "{wire:02x?}");
            assert_eq!(msg[1], initial, "{wire:02x?}");
        }
    }
    // The float member of the other oneof, in the same way.
    for wire in [&[0x35, 0x00][..], &[0x32, 0x00][..]] {
        let mut msg = no_holder();
        msg[5] = pick(10, WireValue::Len(Vec::new()));
        assert!(merge_holder(&mut msg, wire).is_err(), "{wire:02x?}");
        assert_eq!(msg[5], pick(10, WireValue::Len(Vec::new())), "{wire:02x?}");
    }
    assert!(matches!(decode_holder(&[0x22, 0x01, 0xff]), Err(DecodeError::InvalidUtf8)));
}

#[test]
fn a_member_with_the_wrong_wire_type_is_an_error() {
    // num (varint) sent as length-delimited; text sent as a varint; a message
    // sent as a fixed32.
    for wire in [[0x12, 0x00], [0x20, 0x01], [0x4d, 0x00]] {
        assert!(matches!(decode_holder(&wire), Err(DecodeError::WireTypeMismatch { .. })));
    }
}

#[test]
fn a_message_member_that_is_cut_short_is_an_error() {
    let wire = encode_holder(&holding(pick(9, WireValue::Len(vec![0x08, 0x05]))));
    for end in 0..wire.len() {
        // A prefix ends the message at a field boundary or is an error, and
        // never yields a member the input did not hold.
        if let Ok(msg) = decode_holder(&wire[..end]) {
            assert_eq!(msg, no_holder(), "prefix of {end}");
        }
    }
}

#[test]
fn a_message_member_that_fails_leaves_a_different_member_as_it_was() {
    // The child (9) has no length, is longer than the input, or holds a field
    // that does not decode; the oneof keeps the text.
    for wire in [&[0x4a][..], &[0x4a, 0x05, 0x08][..], &[0x4a, 0x02, 0x08, 0x80][..], &[0x4a, 0x03, 0x08, 0x05, 0x10][..]] {
        let mut msg = holding(text_pick(b"abc"));
        assert!(merge_holder(&mut msg, wire).is_err(), "{wire:02x?}");
        assert_eq!(msg[1], text_pick(b"abc"), "{wire:02x?}");
        let mut none = no_holder();
        assert!(merge_holder(&mut none, wire).is_err(), "{wire:02x?}");
        assert_eq!(none[1], FieldData::Member(None), "{wire:02x?}");
    }
}

#[test]
fn a_message_member_past_the_recursion_limit_is_an_error_that_changes_nothing() {
    let mut msg = holding(text_pick(b"abc"));
    let wire = [0x4a, 0x02, 0x08, 0x05];
    let mut unknown = Vec::new();
    let err = merge_message(holder().raw(), &mut msg, &mut unknown, &wire, 0).unwrap_err();
    assert_eq!(err, DecodeError::RecursionLimitExceeded);
    assert_eq!(msg[1], text_pick(b"abc"));
}

#[test]
fn a_message_member_larger_than_the_limit_is_an_error_that_changes_nothing() {
    let mut msg = holding(text_pick(b"abc"));
    // A length of 2 GiB.
    let wire = [0x4a, 0x80, 0x80, 0x80, 0x80, 0x08];
    assert_eq!(merge_holder(&mut msg, &wire), Err(DecodeError::MessageTooLarge));
    assert_eq!(msg[1], text_pick(b"abc"));
}

#[test]
fn oneof_members_encode_into_every_sink() {
    let mut msg = holding(pick(5, WireValue::Len(vec![0xcd; 300])));
    msg[0] = FieldData::Numbers(vec![1]);
    msg[5] = pick(10, WireValue::Len(vec![0x08, 0x03]));
    let mut expected = Vec::new();
    holder().write_to(&msg, &[], &mut expected);
    let mut rope = buffa::encode_sink::Rope::new();
    holder().write_to_rope(&msg, &[], &mut rope);
    assert_eq!(&rope.to_contiguous_bytes()[..], &expected[..]);
    let mut bytes_mut = bytes::BytesMut::new();
    holder().write_to_bytes_mut(&msg, &[], &mut bytes_mut);
    assert_eq!(&bytes_mut[..], &expected[..]);
}

#[test]
fn an_enum_shape_of_the_right_cardinality_is_accepted() {
    let e = Entry::new(Kind::EnumRequired, 1, 0, 0);
    let aux = vec![Aux::Enum(EnumVt::new::<ImplicitClosed<Color>>())];
    assert!(lossy(ABI, vec![e], vec![], aux, None).is_ok());
}

#[test]
fn a_valid_table_is_accepted() {
    let e = Entry::oneof_member(Kind::Int32Required, true, 2, 0, 1);
    let aux = vec![pick_group(), Aux::Member(Member::new(0, Kind::Int32Required, 0))];
    assert_eq!(one_member(e, aux), None);
}

/// A buffer whose bytes arrive as `head`, then `tail`.
fn two_chunks(head: &[u8], tail: &[u8]) -> buffa::encode_sink::RopeBuf {
    let mut rope = buffa::encode_sink::Rope::with_min_segment(1);
    rope.put_shared(bytes::Bytes::copy_from_slice(head));
    rope.put_shared(bytes::Bytes::copy_from_slice(tail));
    buffa::encode_sink::RopeBuf::from_rope(rope)
}

#[test]
fn tests_a_non_contiguous_buffer_is_gathered() {
    let table = outer();
    let msg = populated();
    let bytes = encode(&table, &msg);
    for split in [1, 2, bytes.len() / 2, bytes.len() - 1] {
        let (head, tail) = bytes.split_at(split);
        let mut chained = two_chunks(head, tail);
        let mut decoded = empty_outer();
        let mut unknown = Vec::new();
        assert_eq!(table.merge_buf_to_limit(&mut decoded, &mut unknown, &mut chained, 0, 100), Ok(()));
        assert_eq!(decoded, msg);
        assert_eq!(chained.remaining(), 0);
    }
}

#[test]
fn merge_field_rejects_a_non_contiguous_buffer() {
    let wire = [0x2a, 0x01];
    let mut chained = two_chunks(&wire[..1], &wire[1..]);
    let mut fields = no_fields(3);
    let mut unknown = Vec::new();
    assert_eq!(
        inner().merge_buf_field(&mut fields, &mut unknown, 1, 0, &mut chained, 100),
        Err(DecodeError::UnexpectedEof)
    );
    assert_eq!(chained.remaining(), 2);
    // In one chunk, exactly one field is consumed.
    let b = [0x2a, 0x12, 0x02, b'o', b'k'];
    let mut one = two_chunks(&b, &[]);
    assert_eq!(inner().merge_buf_field(&mut fields, &mut unknown, 1, 0, &mut one, 100), Ok(()));
    assert_eq!(fields[0], FieldData::Numbers(vec![42]));
    assert_eq!(one.remaining(), 4);
    assert_eq!(one.chunk(), &b[1..]);
}

#[test]
fn merge_field_decodes_one_field_from_a_buffer_in_one_chunk() {
    let wire = [0x08, 0x2a, 0x12, 0x02, b'o', b'k'];
    let mut buf = two_chunks(&wire[1..], &[]);
    let mut fields = no_fields(3);
    let mut unknown = Vec::new();
    assert_eq!(inner().merge_buf_field(&mut fields, &mut unknown, 1, 0, &mut buf, 100), Ok(()));
    assert_eq!(fields[0], FieldData::Numbers(vec![42]));
    assert_eq!(buf.chunk(), &wire[2..]);
}

#[test]
fn a_message_split_in_two_chunks_leaves_the_rest_and_reports_errors() {
    let table = outer();
    // a = 150 across the boundary, then two bytes past the limit.
    let mut buf = two_chunks(&[0x08, 0x96], &[0x01, 0xff, 0xff]);
    let mut fields = no_fields(24);
    let mut unknown = Vec::new();
    assert_eq!(table.merge_buf_to_limit(&mut fields, &mut unknown, &mut buf, 2, 100), Ok(()));
    assert_eq!(fields[0], FieldData::Numbers(vec![150]));
    assert_eq!(buf.remaining(), 2);
    // A string that is not UTF-8, gathered from two chunks: the bytes are consumed.
    let mut buf = two_chunks(&[0x1a, 0x01], &[0xff]);
    assert_eq!(table.merge_buf_to_limit(&mut fields, &mut unknown, &mut buf, 0, 100), Err(DecodeError::InvalidUtf8));
    assert_eq!(buf.remaining(), 0);
    // The same in one chunk: the bytes stay.
    let mut buf = two_chunks(&[0x1a, 0x01, 0xff], &[]);
    assert_eq!(table.merge_buf_to_limit(&mut fields, &mut unknown, &mut buf, 0, 100), Err(DecodeError::InvalidUtf8));
    assert_eq!(buf.remaining(), 3);
}

#[test]
fn oneof_members_decode_from_a_buffer_of_two_chunks() {
    let mut msg = holding(text_pick(b"split"));
    msg[0] = FieldData::Numbers(vec![1]);
    msg[2] = FieldData::Numbers(vec![2]);
    msg[5] = pick(10, WireValue::Len(vec![0x08, 0x03, 0x12, 0x02, b'i', b'n']));
    let wire = encode_holder(&msg);
    for split in 0..=wire.len() {
        let (head, tail) = wire.split_at(split);
        let mut chained = two_chunks(head, tail);
        let mut decoded = no_holder();
        let mut unknown = Vec::new();
        assert_eq!(holder().merge_buf_to_limit(&mut decoded, &mut unknown, &mut chained, 0, 100), Ok(()));
        assert_eq!(decoded, msg, "split at {split}");
    }
}

#[test]
fn children_without_a_table_decode_from_a_non_contiguous_buffer() {
    let msg = bridged();
    let bytes = encode_bridged(&msg);
    for split in 1..bytes.len() {
        let (head, tail) = bytes.split_at(split);
        let mut chained = two_chunks(head, tail);
        let mut decoded = no_bridged();
        let mut unknown = Vec::new();
        assert_eq!(bridged_table().merge_buf_to_limit(&mut decoded, &mut unknown, &mut chained, 0, 100), Ok(()));
        assert_eq!(decoded, msg, "split at {split}");
    }
}
