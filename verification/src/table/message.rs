//! A message's table: its entries sorted by field number, the dense lookup
//! by number, and the descriptors that entries index; the checks that make a
//! table consistent, and the lookups that rely on them.
use vstd::prelude::*;
use core::marker::PhantomData;
use super::entry::{Entry, EntryView};
use super::kind::{kind_aux_kind, kind_is_oneof_payload, kind_shape_card, kind_wire_type, AuxKind, Kind, IMPLICIT};
use super::map::MapVt;
use super::oneof::{Member, MemberView, OneofVt};
use super::shape::{EnumVt, MsgVt, RepVt};
use crate::unknown::UnknownFields;

verus! {

/// The version of the contract between generated tables and this module.
pub const ABI: u32 = 1;

/// The `unknown` offset of a message that does not keep unknown fields.
pub const NO_UNKNOWN: u32 = 0xffff_ffff;

/// Per-field data that a kind needs beyond the field's offset.
#[derive(Clone, Copy)]
pub enum Aux {
    /// The descriptor of a singular message field.
    Msg(&'static MsgVt),
    /// The descriptor of a repeated message field.
    Rep(&'static RepVt),
    /// The descriptor of an enum field.
    Enum(EnumVt),
    /// The descriptor of a oneof, which its members refer to by index.
    Group(&'static OneofVt),
    /// One member of a oneof.
    Member(Member),
    /// The descriptor of a map field.
    MapField(&'static MapVt),
}

impl Aux {
    /// Which variant this is.
    pub open spec fn spec_kind(self) -> AuxKind {
        match self {
            Aux::Msg(_) => AuxKind::Msg,
            Aux::Rep(_) => AuxKind::Rep,
            Aux::Enum(_) => AuxKind::Enum,
            Aux::Group(_) => AuxKind::Group,
            Aux::Member(_) => AuxKind::Member,
            Aux::MapField(_) => AuxKind::MapField,
        }
    }

    /// Which variant this is.
    pub fn kind(&self) -> (r: AuxKind)
        ensures
            r == self.spec_kind(),
    {
        match self {
            Aux::Msg(_) => AuxKind::Msg,
            Aux::Rep(_) => AuxKind::Rep,
            Aux::Enum(_) => AuxKind::Enum,
            Aux::Group(_) => AuxKind::Group,
            Aux::Member(_) => AuxKind::Member,
            Aux::MapField(_) => AuxKind::MapField,
        }
    }
}

/// Why a table was refused: the first check it fails, in the order the
/// checks are made.
#[derive(Clone, Copy, PartialEq, Eq, Debug, Structural)]
pub enum TableError {
    /// The table was generated for a different ABI.
    AbiMismatch,
    /// The entries are not in strictly increasing field-number order.
    NotIncreasing,
    /// An entry's offset is outside the message struct.
    OffsetOutside,
    /// An entry's aux index is out of range.
    AuxOutOfRange,
    /// An entry's aux descriptor is the wrong variant for its kind.
    AuxWrongVariant,
    /// An enum entry's descriptor has the wrong cardinality for its kind.
    EnumCardinality,
    /// A oneof member's group index is out of range.
    MemberGroupOutOfRange,
    /// A oneof member's group index is not a oneof descriptor.
    MemberGroupNotOneof,
    /// A oneof member's payload kind is not one a payload can have.
    MemberPayloadKind,
    /// A oneof member's tag does not have its payload kind's wire type.
    MemberWireType,
    /// A oneof member's payload aux index is out of range.
    MemberPayloadAuxOutOfRange,
    /// A oneof member's payload descriptor is the wrong variant for its kind.
    MemberPayloadAuxWrongVariant,
    /// A oneof member's enum descriptor is not for a singular field.
    MemberEnumNotSingular,
    /// A oneof member's message descriptor does not reach the message
    /// directly.
    MemberMsgNotDirect,
    /// A oneof has a message member but its descriptor was not built with
    /// `OneofVt::with_messages`.
    MemberNeedsMessages,
    /// A oneof member's offset differs from its oneof's.
    MemberOffset,
    /// A oneof member is numbered below its oneof's lowest.
    MemberBelowFirst,
    /// The leader of a oneof is not exactly the member with its lowest
    /// number.
    MemberLeader,
    /// Some oneof descriptor does not have exactly one leading member.
    LeaderCount,
    /// The dense lookup is given for 255 entries or more.
    DenseTooLong,
    /// The dense lookup names an entry with the wrong field number.
    DenseWrongNumber,
    /// The dense lookup omits an entry.
    DenseOmits,
    /// The unknown-fields offset does not fit an `UnknownFields` in the
    /// message struct.
    UnknownOffset,
}

/// The description of error `e`.
pub open spec fn table_error_message(e: TableError) -> &'static str {
    match e {
        TableError::AbiMismatch => "buffa table: the generated code is for a different table ABI; regenerate it with the buffa-codegen that matches this buffa",
        TableError::NotIncreasing => "buffa table: entries are not in strictly increasing field-number order",
        TableError::OffsetOutside => "buffa table: an entry's offset is outside the message struct",
        TableError::AuxOutOfRange => "buffa table: an entry's aux index is out of range",
        TableError::AuxWrongVariant => "buffa table: an entry's aux descriptor is the wrong variant for its kind",
        TableError::EnumCardinality => "buffa table: an enum entry's descriptor has the wrong cardinality for its kind",
        TableError::MemberGroupOutOfRange => "buffa table: a oneof member's group index is out of range",
        TableError::MemberGroupNotOneof => "buffa table: a oneof member's group index is not a oneof descriptor",
        TableError::MemberPayloadKind => "buffa table: a oneof member's payload kind is not one a payload can have",
        TableError::MemberWireType => "buffa table: a oneof member's tag does not have its payload kind's wire type",
        TableError::MemberPayloadAuxOutOfRange => "buffa table: a oneof member's payload aux index is out of range",
        TableError::MemberPayloadAuxWrongVariant => "buffa table: a oneof member's payload descriptor is the wrong variant for its kind",
        TableError::MemberEnumNotSingular => "buffa table: a oneof member's enum descriptor must be for a singular field",
        TableError::MemberMsgNotDirect => "buffa table: a oneof member's message descriptor must be a `MsgVt::direct` or `MsgVt::direct_via_message` one",
        TableError::MemberNeedsMessages => "buffa table: a oneof with a message member must be built with `OneofVt::with_messages`",
        TableError::MemberOffset => "buffa table: a oneof member's offset differs from its oneof's",
        TableError::MemberBelowFirst => "buffa table: a oneof member is numbered below its oneof's lowest",
        TableError::MemberLeader => "buffa table: the leader of a oneof must be exactly the member with its lowest number",
        TableError::LeaderCount => "buffa table: every oneof descriptor needs exactly one leading member",
        TableError::DenseTooLong => "buffa table: the dense lookup needs fewer than 255 entries",
        TableError::DenseWrongNumber => "buffa table: the dense lookup names an entry with the wrong field number",
        TableError::DenseOmits => "buffa table: the dense lookup omits an entry",
        TableError::UnknownOffset => "buffa table: the unknown-fields offset does not fit an `UnknownFields` in the message struct",
    }
}

impl TableError {
    /// A description of the error.
    pub fn message(&self) -> (r: &'static str)
        ensures
            r == table_error_message(*self),
    {
        match self {
            TableError::AbiMismatch => "buffa table: the generated code is for a different table ABI; regenerate it with the buffa-codegen that matches this buffa",
            TableError::NotIncreasing => "buffa table: entries are not in strictly increasing field-number order",
            TableError::OffsetOutside => "buffa table: an entry's offset is outside the message struct",
            TableError::AuxOutOfRange => "buffa table: an entry's aux index is out of range",
            TableError::AuxWrongVariant => "buffa table: an entry's aux descriptor is the wrong variant for its kind",
            TableError::EnumCardinality => "buffa table: an enum entry's descriptor has the wrong cardinality for its kind",
            TableError::MemberGroupOutOfRange => "buffa table: a oneof member's group index is out of range",
            TableError::MemberGroupNotOneof => "buffa table: a oneof member's group index is not a oneof descriptor",
            TableError::MemberPayloadKind => "buffa table: a oneof member's payload kind is not one a payload can have",
            TableError::MemberWireType => "buffa table: a oneof member's tag does not have its payload kind's wire type",
            TableError::MemberPayloadAuxOutOfRange => "buffa table: a oneof member's payload aux index is out of range",
            TableError::MemberPayloadAuxWrongVariant => "buffa table: a oneof member's payload descriptor is the wrong variant for its kind",
            TableError::MemberEnumNotSingular => "buffa table: a oneof member's enum descriptor must be for a singular field",
            TableError::MemberMsgNotDirect => "buffa table: a oneof member's message descriptor must be a `MsgVt::direct` or `MsgVt::direct_via_message` one",
            TableError::MemberNeedsMessages => "buffa table: a oneof with a message member must be built with `OneofVt::with_messages`",
            TableError::MemberOffset => "buffa table: a oneof member's offset differs from its oneof's",
            TableError::MemberBelowFirst => "buffa table: a oneof member is numbered below its oneof's lowest",
            TableError::MemberLeader => "buffa table: the leader of a oneof must be exactly the member with its lowest number",
            TableError::LeaderCount => "buffa table: every oneof descriptor needs exactly one leading member",
            TableError::DenseTooLong => "buffa table: the dense lookup needs fewer than 255 entries",
            TableError::DenseWrongNumber => "buffa table: the dense lookup names an entry with the wrong field number",
            TableError::DenseOmits => "buffa table: the dense lookup omits an entry",
            TableError::UnknownOffset => "buffa table: the unknown-fields offset does not fit an `UnknownFields` in the message struct",
        }
    }
}

/// The first check that member `m` of the entry `e` fails against the aux
/// array, if any.
pub open spec fn member_error(e: EntryView, m: MemberView, aux: Seq<Aux>) -> Option<TableError> {
    if m.group >= aux.len() {
        Some(TableError::MemberGroupOutOfRange)
    } else if !(aux[m.group as int] is Group) {
        Some(TableError::MemberGroupNotOneof)
    } else if !kind_is_oneof_payload(m.kind) {
        Some(TableError::MemberPayloadKind)
    } else if e.wire() != kind_wire_type(m.kind)->0 {
        Some(TableError::MemberWireType)
    } else if kind_aux_kind(m.kind) is Some && m.aux >= aux.len() {
        Some(TableError::MemberPayloadAuxOutOfRange)
    } else if kind_aux_kind(m.kind) is Some && aux[m.aux as int].spec_kind() != kind_aux_kind(
        m.kind,
    )->0 {
        Some(TableError::MemberPayloadAuxWrongVariant)
    } else if kind_aux_kind(m.kind) is Some && aux[m.aux as int] is Enum && aux[m.aux as int]->Enum_0.spec_card() != IMPLICIT {
        Some(TableError::MemberEnumNotSingular)
    } else if kind_aux_kind(m.kind) is Some && aux[m.aux as int] is Msg
        && !aux[m.aux as int]->Msg_0.spec_direct() {
        Some(TableError::MemberMsgNotDirect)
    } else if m.kind == Kind::MsgSingular && !aux[m.group as int]->Group_0.spec_messages() {
        Some(TableError::MemberNeedsMessages)
    } else {
        let g = aux[m.group as int]->Group_0;
        if e.offset != g.spec_offset() {
            Some(TableError::MemberOffset)
        } else if e.number() < g.spec_first() {
            Some(TableError::MemberBelowFirst)
        } else if (e.kind == Kind::OneofLeader) != (e.number() == g.spec_first()) {
            Some(TableError::MemberLeader)
        } else {
            None
        }
    }
}

/// The first check of the descriptor that entry `e` indexes that fails, if
/// any.
pub open spec fn entry_aux_error(e: EntryView, aux: Seq<Aux>) -> Option<TableError> {
    match kind_aux_kind(e.kind) {
        None => None,
        Some(want) => if e.aux >= aux.len() {
            Some(TableError::AuxOutOfRange)
        } else if aux[e.aux as int].spec_kind() != want {
            Some(TableError::AuxWrongVariant)
        } else {
            match aux[e.aux as int] {
                Aux::Enum(vt) => if vt.spec_card() != kind_shape_card(e.kind) {
                    Some(TableError::EnumCardinality)
                } else {
                    None
                },
                Aux::Member(m) => member_error(e, m@, aux),
                _ => None,
            }
        },
    }
}

/// The first check that entry `i` of `es` fails, if any, in a message
/// struct of `size` bytes.
pub open spec fn entry_error(es: Seq<Entry>, i: int, aux: Seq<Aux>, size: nat) -> Option<
    TableError,
> {
    if i > 0 && es[i - 1]@.number() >= es[i]@.number() {
        Some(TableError::NotIncreasing)
    } else if es[i]@.offset >= size {
        Some(TableError::OffsetOutside)
    } else {
        entry_aux_error(es[i]@, aux)
    }
}

/// The first check that one of the first `k` entries fails, if any.
pub open spec fn entries_error(es: Seq<Entry>, aux: Seq<Aux>, size: nat, k: int) -> Option<
    TableError,
>
    decreases k,
{
    if k <= 0 {
        None
    } else if entries_error(es, aux, size, k - 1) is Some {
        entries_error(es, aux, size, k - 1)
    } else {
        entry_error(es, k - 1, aux, size)
    }
}

/// The number of leading oneof members among the first `k` entries.
pub open spec fn count_leaders(es: Seq<Entry>, k: int) -> nat
    decreases k,
{
    if k <= 0 {
        0
    } else {
        count_leaders(es, k - 1) + if es[k - 1]@.kind == Kind::OneofLeader {
            1nat
        } else {
            0
        }
    }
}

/// The number of oneof descriptors among the first `k` aux items.
pub open spec fn count_groups(aux: Seq<Aux>, k: int) -> nat
    decreases k,
{
    if k <= 0 {
        0
    } else {
        count_groups(aux, k - 1) + if aux[k - 1] is Group {
            1nat
        } else {
            0
        }
    }
}

/// Whether the dense slot `n` is empty or names the entry numbered `n`.
pub open spec fn dense_slot_ok(es: Seq<Entry>, dense: Seq<u8>, n: int) -> bool {
    dense[n] != 0 ==> dense[n] <= es.len() && es[dense[n] - 1]@.number() == n
}

/// The first of the first `k` dense slots that names a wrong entry, if any.
pub open spec fn dense_error(es: Seq<Entry>, dense: Seq<u8>, k: int) -> Option<TableError>
    decreases k,
{
    if k <= 0 {
        None
    } else if dense_error(es, dense, k - 1) is Some {
        dense_error(es, dense, k - 1)
    } else if !dense_slot_ok(es, dense, k - 1) {
        Some(TableError::DenseWrongNumber)
    } else {
        None
    }
}

/// The number of the first `k` dense slots that name an entry.
pub open spec fn count_named(dense: Seq<u8>, k: int) -> nat
    decreases k,
{
    if k <= 0 {
        0
    } else {
        count_named(dense, k - 1) + if dense[k - 1] != 0 {
            1nat
        } else {
            0
        }
    }
}

/// The number of the first `k` entries numbered below `limit`.
pub open spec fn count_covered(es: Seq<Entry>, limit: nat, k: int) -> nat
    decreases k,
{
    if k <= 0 {
        0
    } else {
        count_covered(es, limit, k - 1) + if es[k - 1]@.number() < limit {
            1nat
        } else {
            0
        }
    }
}

/// Whether `unknown` leaves room for an `UnknownFields` of `unknown_size`
/// bytes, aligned to `unknown_align`, in a message struct of `size` bytes.
pub open spec fn unknown_fits(unknown: Option<usize>, size: nat, unknown_size: nat, unknown_align: nat) -> bool {
    match unknown {
        None => true,
        Some(offset) => offset < NO_UNKNOWN && offset <= size && size - offset >= unknown_size
            && (offset as nat) % unknown_align == 0,
    }
}

/// The first check that a table fails, if any, in the order the checks are
/// made: the ABI, each entry in turn, the leaders of the oneofs, the length
/// of the dense lookup, each of its slots, its coverage of the entries, and
/// the unknown-fields offset. `size` is the size of the message struct, and
/// `unknown_size` and `unknown_align` are those of `UnknownFields`.
pub open spec fn table_error(
    abi: u32,
    es: Seq<Entry>,
    dense: Seq<u8>,
    aux: Seq<Aux>,
    unknown: Option<usize>,
    size: nat,
    unknown_size: nat,
    unknown_align: nat,
) -> Option<TableError> {
    if abi != ABI {
        Some(TableError::AbiMismatch)
    } else if entries_error(es, aux, size, es.len() as int) is Some {
        entries_error(es, aux, size, es.len() as int)
    } else if count_leaders(es, es.len() as int) != count_groups(aux, aux.len() as int) {
        Some(TableError::LeaderCount)
    } else if dense.len() > 0 && es.len() >= 255 {
        Some(TableError::DenseTooLong)
    } else if dense_error(es, dense, dense.len() as int) is Some {
        dense_error(es, dense, dense.len() as int)
    } else if count_named(dense, dense.len() as int) != count_covered(
        es,
        dense.len(),
        es.len() as int,
    ) {
        Some(TableError::DenseOmits)
    } else if !unknown_fits(unknown, size, unknown_size, unknown_align) {
        Some(TableError::UnknownOffset)
    } else {
        None
    }
}

/// Whether the entries are in strictly increasing field-number order.
pub open spec fn numbers_increasing(es: Seq<Entry>) -> bool {
    forall|i: int, j: int| 0 <= i < j < es.len() ==> #[trigger] es[i]@.number() < #[trigger] es[j]@.number()
}

/// Whether every dense slot is empty or names the entry with its number.
pub open spec fn dense_sound(es: Seq<Entry>, dense: Seq<u8>) -> bool {
    forall|n: int| 0 <= n < dense.len() ==> #[trigger] dense_slot_ok(es, dense, n)
}

/// Whether every entry numbered below the dense range has its slot.
pub open spec fn dense_complete(es: Seq<Entry>, dense: Seq<u8>) -> bool {
    forall|i: int|
        0 <= i < es.len() && #[trigger] es[i]@.number() < dense.len() ==> dense[es[i]@.number() as int]
            == i + 1
}

/// Whether every entry's descriptor is of the variant its kind needs.
pub open spec fn aux_consistent(es: Seq<Entry>, aux: Seq<Aux>) -> bool {
    forall|i: int| 0 <= i < es.len() ==> #[trigger] entry_aux_error(es[i]@, aux) is None
}

/// What a table that passed its checks guarantees to lookups.
pub open spec fn well_formed(es: Seq<Entry>, dense: Seq<u8>, aux: Seq<Aux>) -> bool {
    &&& numbers_increasing(es)
    &&& dense_sound(es, dense)
    &&& dense_complete(es, dense)
    &&& aux_consistent(es, aux)
}

/// The entry of `es` numbered `number`, if there is one.
pub open spec fn lookup(es: Seq<Entry>, number: nat) -> Option<Entry> {
    if exists|i: int| 0 <= i < es.len() && #[trigger] es[i]@.number() == number {
        Some(es[choose|i: int| 0 <= i < es.len() && #[trigger] es[i]@.number() == number])
    } else {
        None
    }
}

/// The index of the entry of `es` numbered `number`, if there is one.
pub open spec fn entry_index(es: Seq<Entry>, number: nat) -> Option<int> {
    if exists|i: int| 0 <= i < es.len() && #[trigger] es[i]@.number() == number {
        Some(choose|i: int| 0 <= i < es.len() && #[trigger] es[i]@.number() == number)
    } else {
        None
    }
}

/// Whether the entry numbered `number` is a member of the oneof whose
/// descriptor is at aux index `group`.
pub open spec fn is_member_of(es: Seq<Entry>, aux: Seq<Aux>, group: u16, number: nat) -> bool {
    &&& lookup(es, number) is Some
    &&& (lookup(es, number)->0@.aux as int) < aux.len()
    &&& (lookup(es, number)->0@.kind == Kind::OneofLeader || lookup(es, number)->0@.kind
        == Kind::OneofFollower)
    &&& aux[lookup(es, number)->0@.aux as int] is Member
    &&& aux[lookup(es, number)->0@.aux as int]->Member_0@.group == group
}

/// The entry numbered `number`, with its kind and aux index replaced by those
/// of the payload of the member it indexes.
pub open spec fn payload_view(es: Seq<Entry>, aux: Seq<Aux>, number: nat) -> EntryView {
    let e = lookup(es, number)->0@;
    let m = aux[e.aux as int]->Member_0@;
    EntryView { kind: m.kind, aux: m.aux, ..e }
}

/// The untyped part of a [`Table`], which the interpreters recurse through.
pub struct MessageTable {
    entries: &'static [Entry],
    dense: &'static [u8],
    aux: &'static [Aux],
    unknown: u32,
}

impl MessageTable {
    /// The fields, sorted by number.
    pub closed spec fn spec_entries(&self) -> Seq<Entry> {
        self.entries@
    }

    /// `dense[n]` is one plus the index of the entry numbered `n`, or `0` if
    /// there is none, for the numbers below its length.
    pub closed spec fn spec_dense(&self) -> Seq<u8> {
        self.dense@
    }

    /// The descriptors that entries index.
    pub closed spec fn spec_aux(&self) -> Seq<Aux> {
        self.aux@
    }

    /// The offset of the message's `UnknownFields`, or [`NO_UNKNOWN`].
    pub closed spec fn spec_unknown(&self) -> u32 {
        self.unknown
    }

    #[verifier::type_invariant]
    closed spec fn inv(self) -> bool {
        well_formed(self.entries@, self.dense@, self.aux@)
    }

    /// The descriptors that entries index.
    pub fn aux(&self) -> (r: &'static [Aux])
        ensures
            r@ == self.spec_aux(),
    {
        self.aux
    }

    /// The fields, sorted by number.
    pub fn entries(&self) -> (r: &'static [Entry])
        ensures
            r@ == self.spec_entries(),
    {
        self.entries
    }

    /// The offset of the message's `UnknownFields`, or [`NO_UNKNOWN`].
    pub fn unknown(&self) -> (r: u32)
        ensures
            r == self.spec_unknown(),
    {
        self.unknown
    }

    /// The index of the entry for field `number`, if the message has one:
    /// from the dense lookup for a number below its length, and by binary
    /// search above.
    pub fn find_index(&self, number: u32) -> (r: Option<usize>)
        ensures
            well_formed(self.spec_entries(), self.spec_dense(), self.spec_aux()),
            match r {
                Some(i) => entry_index(self.spec_entries(), number as nat) == Some(i as int)
                    && lookup(self.spec_entries(), number as nat) == Some(self.spec_entries()[i as int]),
                None => entry_index(self.spec_entries(), number as nat) is None
                    && lookup(self.spec_entries(), number as nat) is None,
            },
    {
        proof {
            use_type_invariant(self);
        }
        let ghost es = self.entries@;
        if (number as usize) < self.dense.len() {
            let d = self.dense[number as usize];
            assert(dense_slot_ok(es, self.dense@, number as int));
            if d == 0 {
                assert forall|i: int| 0 <= i < es.len() implies #[trigger] es[i]@.number()
                    != number by {
                    if es[i]@.number() == number {
                        assert(self.dense@[es[i]@.number() as int] == i + 1);
                    }
                };
                return None;
            }
            let idx = (d as usize) - 1;
            if idx < self.entries.len() {
                proof {
                    self.lemma_lookup_at(idx as int, number as nat);
                    self.lemma_index_at(idx as int, number as nat);
                }
                return Some(idx);
            }
            return None;
        }
        let mut lo: usize = 0;
        let mut hi: usize = self.entries.len();
        while lo < hi
            invariant
                es == self.entries@,
                well_formed(self.entries@, self.dense@, self.aux@),
                0 <= lo <= hi <= es.len(),
                forall|i: int| 0 <= i < lo ==> #[trigger] es[i]@.number() < number,
                forall|i: int| hi <= i < es.len() ==> #[trigger] es[i]@.number() > number,
            decreases hi - lo,
        {
            let mid = lo + (hi - lo) / 2;
            let n = self.entries[mid].number();
            if n == number {
                proof {
                    self.lemma_lookup_at(mid as int, number as nat);
                    self.lemma_index_at(mid as int, number as nat);
                }
                return Some(mid);
            } else if n < number {
                lo = mid + 1;
            } else {
                hi = mid;
            }
        }
        None
    }

    /// The entry for field `number`, if the message has one: from the dense
    /// lookup for a number below its length, and by binary search above.
    pub fn find(&self, number: u32) -> (r: Option<&Entry>)
        ensures
            well_formed(self.spec_entries(), self.spec_dense(), self.spec_aux()),
            match r {
                Some(e) => lookup(self.spec_entries(), number as nat) == Some(*e),
                None => lookup(self.spec_entries(), number as nat) is None,
            },
    {
        match self.find_index(number) {
            Some(i) => Some(&self.entries()[i]),
            None => None,
        }
    }

    /// The descriptor of the singular message field `e`.
    pub fn msg_vt(&self, e: &Entry) -> (r: &'static MsgVt)
        requires
            (e@.aux as int) < self.spec_aux().len(),
            self.spec_aux()[e@.aux as int] is Msg,
        ensures
            r == self.spec_aux()[e@.aux as int]->Msg_0,
    {
        match &self.aux[e.aux() as usize] {
            Aux::Msg(vt) => *vt,
            _ => vstd::pervasive::unreached(),
        }
    }

    /// The descriptor of the repeated message field `e`.
    pub fn rep_vt(&self, e: &Entry) -> (r: &'static RepVt)
        requires
            (e@.aux as int) < self.spec_aux().len(),
            self.spec_aux()[e@.aux as int] is Rep,
        ensures
            r == self.spec_aux()[e@.aux as int]->Rep_0,
    {
        match &self.aux[e.aux() as usize] {
            Aux::Rep(vt) => *vt,
            _ => vstd::pervasive::unreached(),
        }
    }

    /// The descriptor of the enum field `e`.
    pub fn enum_vt(&self, e: &Entry) -> (r: EnumVt)
        requires
            (e@.aux as int) < self.spec_aux().len(),
            self.spec_aux()[e@.aux as int] is Enum,
        ensures
            r == self.spec_aux()[e@.aux as int]->Enum_0,
    {
        match &self.aux[e.aux() as usize] {
            Aux::Enum(vt) => *vt,
            _ => vstd::pervasive::unreached(),
        }
    }

    /// The descriptor of the map field `e`.
    pub fn map_vt(&self, e: &Entry) -> (r: &'static MapVt)
        requires
            (e@.aux as int) < self.spec_aux().len(),
            self.spec_aux()[e@.aux as int] is MapField,
        ensures
            r == self.spec_aux()[e@.aux as int]->MapField_0,
    {
        match &self.aux[e.aux() as usize] {
            Aux::MapField(vt) => *vt,
            _ => vstd::pervasive::unreached(),
        }
    }

    /// The member that the oneof entry `e` indexes.
    pub fn member(&self, e: &Entry) -> (r: Member)
        requires
            (e@.aux as int) < self.spec_aux().len(),
            self.spec_aux()[e@.aux as int] is Member,
        ensures
            r == self.spec_aux()[e@.aux as int]->Member_0,
    {
        match &self.aux[e.aux() as usize] {
            Aux::Member(m) => *m,
            _ => vstd::pervasive::unreached(),
        }
    }

    /// The descriptor of the oneof that member `m` belongs to.
    pub fn group(&self, m: Member) -> (r: &'static OneofVt)
        requires
            (m@.group as int) < self.spec_aux().len(),
            self.spec_aux()[m@.group as int] is Group,
        ensures
            r == self.spec_aux()[m@.group as int]->Group_0,
    {
        match &self.aux[m.group() as usize] {
            Aux::Group(g) => *g,
            _ => vstd::pervasive::unreached(),
        }
    }

    /// The entry of the member `number` of the oneof whose descriptor is at
    /// aux index `group`, with its kind and aux index replaced by those of
    /// its payload, which the payload arms of the interpreters take. The
    /// message must have such a member.
    pub fn payload_entry(&self, group: u16, number: u32) -> (r: Entry)
        requires
            is_member_of(self.spec_entries(), self.spec_aux(), group, number as nat),
        ensures
            r@ == payload_view(self.spec_entries(), self.spec_aux(), number as nat),
    {
        proof {
            use_type_invariant(self);
        }
        let e = match self.find(number) {
            Some(e) => e,
            None => vstd::pervasive::unreached(),
        };
        proof {
            let es = self.entries@;
            let i = choose|i: int| 0 <= i < es.len() && #[trigger] es[i]@.number() == number;
            assert(entry_aux_error(es[i]@, self.aux@) is None);
        }
        let m = self.member(e);
        e.with_payload(m.kind(), m.aux())
    }

    /// Entry `i` is the one `lookup` finds for its number.
    proof fn lemma_index_at(&self, i: int, number: nat)
        requires
            well_formed(self.entries@, self.dense@, self.aux@),
            0 <= i < self.entries@.len(),
            self.entries@[i]@.number() == number,
        ensures
            entry_index(self.entries@, number) == Some(i),
    {
        let es = self.entries@;
        let j = choose|j: int| 0 <= j < es.len() && #[trigger] es[j]@.number() == number;
        assert(es[j]@.number() == number);
        if j < i {
            assert(es[j]@.number() < es[i]@.number());
        } else if j > i {
            assert(es[i]@.number() < es[j]@.number());
        }
    }

    proof fn lemma_lookup_at(&self, i: int, number: nat)
        requires
            well_formed(self.entries@, self.dense@, self.aux@),
            0 <= i < self.entries@.len(),
            self.entries@[i]@.number() == number,
        ensures
            lookup(self.entries@, number) == Some(self.entries@[i]),
    {
        let es = self.entries@;
        let j = choose|j: int| 0 <= j < es.len() && #[trigger] es[j]@.number() == number;
        assert(es[j]@.number() == number);
        if j < i {
            assert(es[j]@.number() < es[i]@.number());
        } else if i < j {
            assert(es[i]@.number() < es[j]@.number());
        }
    }
}

/// The number of the first `k` entries numbered `m`.
pub open spec fn count_numbered(es: Seq<Entry>, m: nat, k: int) -> nat
    decreases k,
{
    if k <= 0 {
        0
    } else {
        count_numbered(es, m, k - 1) + if es[k - 1]@.number() == m {
            1nat
        } else {
            0
        }
    }
}

/// An error among the first `k` entries is the error among any more.
proof fn lemma_entries_error_stays(es: Seq<Entry>, aux: Seq<Aux>, size: nat, k: int, k2: int)
    requires
        0 <= k <= k2,
        entries_error(es, aux, size, k) is Some,
    ensures
        entries_error(es, aux, size, k2) == entries_error(es, aux, size, k),
    decreases k2 - k,
{
    if k < k2 {
        lemma_entries_error_stays(es, aux, size, k, k2 - 1);
    }
}

/// An error among the first `k` dense slots is the error among any more.
proof fn lemma_dense_error_stays(es: Seq<Entry>, dense: Seq<u8>, k: int, k2: int)
    requires
        0 <= k <= k2,
        dense_error(es, dense, k) is Some,
    ensures
        dense_error(es, dense, k2) == dense_error(es, dense, k),
    decreases k2 - k,
{
    if k < k2 {
        lemma_dense_error_stays(es, dense, k, k2 - 1);
    }
}

/// With no error among the first `k` entries, none of them fails a check.
pub(crate) proof fn lemma_entries_pass(es: Seq<Entry>, aux: Seq<Aux>, size: nat, k: int)
    requires
        0 <= k <= es.len(),
        entries_error(es, aux, size, k) is None,
    ensures
        forall|i: int| 0 <= i < k ==> #[trigger] entry_error(es, i, aux, size) is None,
    decreases k,
{
    if k > 0 {
        lemma_entries_pass(es, aux, size, k - 1);
    }
}

/// With no error among the first `k` dense slots, each of them is sound.
proof fn lemma_dense_pass(es: Seq<Entry>, dense: Seq<u8>, k: int)
    requires
        0 <= k <= dense.len(),
        dense_error(es, dense, k) is None,
    ensures
        forall|n: int| 0 <= n < k ==> #[trigger] dense_slot_ok(es, dense, n),
    decreases k,
{
    if k > 0 {
        lemma_dense_pass(es, dense, k - 1);
    }
}

/// Numbers that increase from each entry to the next increase over any two.
proof fn lemma_increasing_pair(es: Seq<Entry>, i: int, j: int)
    requires
        forall|k: int| 1 <= k < es.len() ==> #[trigger] es[k - 1]@.number() < es[k]@.number(),
        0 <= i < j < es.len(),
    ensures
        es[i]@.number() < es[j]@.number(),
    decreases j - i,
{
    assert(es[j - 1]@.number() < es[j]@.number());
    if i + 1 < j {
        lemma_increasing_pair(es, i, j - 1);
    }
}

/// Counting the entries below `m + 1` adds those numbered `m` to those
/// below `m`.
proof fn lemma_covered_step(es: Seq<Entry>, m: nat, k: int)
    requires
        0 <= k <= es.len(),
    ensures
        count_covered(es, m + 1, k) == count_covered(es, m, k) + count_numbered(es, m, k),
    decreases k,
{
    if k > 0 {
        lemma_covered_step(es, m, k - 1);
    }
}

/// In increasing entries, at most one is numbered `m`: one exactly when some
/// entry is.
proof fn lemma_numbered_once(es: Seq<Entry>, m: nat, k: int)
    requires
        numbers_increasing(es),
        0 <= k <= es.len(),
    ensures
        count_numbered(es, m, k) == if exists|i: int| 0 <= i < k && #[trigger] es[i]@.number() == m {
            1nat
        } else {
            0
        },
    decreases k,
{
    if k > 0 {
        lemma_numbered_once(es, m, k - 1);
        if es[k - 1]@.number() == m {
            assert forall|i: int| 0 <= i < k - 1 implies #[trigger] es[i]@.number() != m by {
                assert(es[i]@.number() < es[k - 1]@.number());
            };
        } else {
            if exists|i: int| 0 <= i < k && #[trigger] es[i]@.number() == m {
                let i = choose|i: int| 0 <= i < k && #[trigger] es[i]@.number() == m;
                assert(i < k - 1);
            }
        }
    }
}

/// The named slots below `m` are never more than the entries numbered below
/// `m`, and as many only if every number below `m` that has an entry has a
/// slot.
proof fn lemma_named_covered(es: Seq<Entry>, dense: Seq<u8>, m: int)
    requires
        numbers_increasing(es),
        dense_sound(es, dense),
        0 <= m <= dense.len(),
    ensures
        count_named(dense, m) <= count_covered(es, m as nat, es.len() as int),
        count_named(dense, m) == count_covered(es, m as nat, es.len() as int) ==> forall|i: int|
            0 <= i < es.len() && #[trigger] es[i]@.number() < m ==> dense[es[i]@.number() as int] != 0,
    decreases m,
{
    let n = es.len() as int;
    if m > 0 {
        let p = m - 1;
        lemma_named_covered(es, dense, p);
        lemma_covered_step(es, p as nat, n);
        lemma_numbered_once(es, p as nat, n);
        assert(dense_slot_ok(es, dense, p));
        if dense[p] != 0 {
            assert(es[dense[p] - 1]@.number() == p);
        }
        if count_named(dense, m) == count_covered(es, m as nat, n) {
            assert forall|i: int|
                0 <= i < es.len() && #[trigger] es[i]@.number() < m implies dense[es[i]@.number() as int]
                != 0 by {
                if es[i]@.number() == p {
                    assert(exists|j: int| 0 <= j < n && #[trigger] es[j]@.number() == p);
                }
            };
        }
    } else {
        assert(count_covered(es, 0, n) == 0) by {
            lemma_covered_none(es, n);
        }
    }
}

/// No entry is numbered below `0`.
proof fn lemma_covered_none(es: Seq<Entry>, k: int)
    requires
        0 <= k <= es.len(),
    ensures
        count_covered(es, 0, k) == 0,
    decreases k,
{
    if k > 0 {
        lemma_covered_none(es, k - 1);
    }
}

/// A table whose entries and dense lookup pass their checks is well formed.
pub(crate) proof fn lemma_checks_give_well_formed(es: Seq<Entry>, dense: Seq<u8>, aux: Seq<Aux>, size: nat)
    requires
        entries_error(es, aux, size, es.len() as int) is None,
        dense_error(es, dense, dense.len() as int) is None,
        count_named(dense, dense.len() as int) == count_covered(es, dense.len(), es.len() as int),
    ensures
        well_formed(es, dense, aux),
{
    lemma_entries_pass(es, aux, size, es.len() as int);
    assert forall|k: int| 1 <= k < es.len() implies #[trigger] es[k - 1]@.number()
        < es[k]@.number() by {
        assert(entry_error(es, k, aux, size) is None);
    };
    assert forall|i: int, j: int| 0 <= i < j < es.len() implies #[trigger] es[i]@.number()
        < #[trigger] es[j]@.number() by {
        lemma_increasing_pair(es, i, j);
    };
    assert forall|i: int| 0 <= i < es.len() implies #[trigger] entry_aux_error(es[i]@, aux) is None by {
        assert(entry_error(es, i, aux, size) is None);
    };
    lemma_dense_pass(es, dense, dense.len() as int);
    lemma_named_covered(es, dense, dense.len() as int);
    assert forall|i: int|
        0 <= i < es.len() && #[trigger] es[i]@.number() < dense.len() implies dense[es[i]@.number() as int]
        == i + 1 by {
        let m = es[i]@.number() as int;
        assert(dense_slot_ok(es, dense, m));
        let j = dense[m] - 1;
        if j < i {
            assert(es[j]@.number() < es[i]@.number());
        } else if i < j {
            assert(es[i]@.number() < es[j]@.number());
        }
    };
}

/// Check the member `m` of the entry `e` against the aux array, and return
/// whether it is the leader of its oneof.
fn check_member(e: &Entry, m: Member, aux: &[Aux]) -> (r: Result<bool, TableError>)
    ensures
        match r {
            Ok(leader) => member_error(e@, m@, aux@) is None && leader == (e@.kind
                == Kind::OneofLeader),
            Err(x) => member_error(e@, m@, aux@) == Some(x),
        },
{
    let group = m.group();
    if group as usize >= aux.len() {
        return Err(TableError::MemberGroupOutOfRange);
    }
    let g: &OneofVt = match &aux[group as usize] {
        Aux::Group(g) => *g,
        _ => {
            return Err(TableError::MemberGroupNotOneof);
        },
    };
    let kind = m.kind();
    if !kind.is_oneof_payload() {
        return Err(TableError::MemberPayloadKind);
    }
    if e.tag() % 8 != kind.wire_type() {
        return Err(TableError::MemberWireType);
    }
    match kind.aux_kind() {
        Some(want) => {
            let pa = m.aux();
            if pa as usize >= aux.len() {
                return Err(TableError::MemberPayloadAuxOutOfRange);
            }
            let a = &aux[pa as usize];
            if a.kind() != want {
                return Err(TableError::MemberPayloadAuxWrongVariant);
            }
            match a {
                Aux::Enum(vt) => {
                    if vt.card() != IMPLICIT {
                        return Err(TableError::MemberEnumNotSingular);
                    }
                },
                Aux::Msg(vt) => {
                    if !vt.is_direct() {
                        return Err(TableError::MemberMsgNotDirect);
                    }
                },
                _ => {},
            }
        },
        None => {},
    }
    if kind == Kind::MsgSingular && !g.messages() {
        return Err(TableError::MemberNeedsMessages);
    }
    if e.offset() != g.offset() {
        return Err(TableError::MemberOffset);
    }
    let number = e.number();
    if number < g.first() {
        return Err(TableError::MemberBelowFirst);
    }
    let leader = e.kind() == Kind::OneofLeader;
    if leader != (number == g.first()) {
        return Err(TableError::MemberLeader);
    }
    Ok(leader)
}

/// Check entry `i` against the one before it, the message size and the aux
/// array, and return whether it leads a oneof.
fn check_entry(entries: &[Entry], i: usize, aux: &[Aux], size: usize) -> (r: Result<bool, TableError>)
    requires
        i < entries@.len(),
    ensures
        match r {
            Ok(leader) => entry_error(entries@, i as int, aux@, size as nat) is None && leader == (
            entries@[i as int]@.kind == Kind::OneofLeader),
            Err(x) => entry_error(entries@, i as int, aux@, size as nat) == Some(x),
        },
{
    let e = &entries[i];
    if i > 0 && entries[i - 1].number() >= e.number() {
        return Err(TableError::NotIncreasing);
    }
    if e.offset() as usize >= size {
        return Err(TableError::OffsetOutside);
    }
    match e.kind().aux_kind() {
        None => Ok(false),
        Some(want) => {
            let ai = e.aux();
            if ai as usize >= aux.len() {
                return Err(TableError::AuxOutOfRange);
            }
            let a = &aux[ai as usize];
            if a.kind() != want {
                return Err(TableError::AuxWrongVariant);
            }
            match a {
                Aux::Enum(vt) => {
                    if vt.card() != e.kind().shape_card() {
                        return Err(TableError::EnumCardinality);
                    }
                    Ok(false)
                },
                Aux::Member(m) => check_member(e, *m, aux),
                _ => Ok(false),
            }
        },
    }
}

/// The static description of message type `M`, from which the interpreters
/// encode, size and decode an `M`.
pub struct Table<M> {
    raw: MessageTable,
    marker: PhantomData<M>,
}

/// The `unknown` offset a table stores for `unknown`.
pub open spec fn unknown_offset(unknown: Option<usize>) -> u32 {
    match unknown {
        None => NO_UNKNOWN,
        Some(offset) => offset as u32,
    }
}

impl<M> Table<M> {
    /// Describe `M`, from a table that passes every check of
    /// [`table_error`]; [`try_new`](Self::try_new) reports the first check a
    /// table fails.
    ///
    /// `abi` is the [`ABI`] the caller was generated for; `entries` are the
    /// fields sorted by number; `dense[n]` is one plus the index of the entry
    /// numbered `n`, or `0` if there is none, and must be empty if there are
    /// 255 entries or more; `aux` holds the descriptors that entries index;
    /// `unknown` is the offset of the message's `UnknownFields`, if it keeps
    /// any.
    pub fn new(
        abi: u32,
        entries: &'static [Entry],
        dense: &'static [u8],
        aux: &'static [Aux],
        unknown: Option<usize>,
    ) -> (r: Self)
        requires
            table_error(
                abi,
                entries@,
                dense@,
                aux@,
                unknown,
                vstd::layout::size_of::<M>(),
                vstd::layout::size_of::<UnknownFields>(),
                vstd::layout::align_of::<UnknownFields>(),
            ) is None,
        ensures
            r.spec_raw().spec_entries() == entries@,
            r.spec_raw().spec_dense() == dense@,
            r.spec_raw().spec_aux() == aux@,
            r.spec_raw().spec_unknown() == unknown_offset(unknown),
    {
        match Self::try_new(abi, entries, dense, aux, unknown) {
            Ok(t) => t,
            Err(_) => vstd::pervasive::unreached(),
        }
    }

    /// Describe `M`, or report why the table is refused.
    ///
    /// `abi` is the [`ABI`] the caller was generated for; `entries` are the
    /// fields sorted by number; `dense[n]` is one plus the index of the entry
    /// numbered `n`, or `0` if there is none, and must be empty if there are
    /// 255 entries or more; `aux` holds the descriptors that entries index;
    /// `unknown` is the offset of the message's `UnknownFields`, if it keeps
    /// any.
    ///
    /// Returns the first check the table fails, in the order of
    /// [`table_error`]: a different ABI, entries out of order or outside `M`,
    /// an aux index out of range or naming a descriptor of the wrong variant
    /// or cardinality, an inconsistent oneof, a dense lookup that disagrees
    /// with the entries, or an unknown-fields offset that leaves no room for
    /// an `UnknownFields`.
    pub fn try_new(
        abi: u32,
        entries: &'static [Entry],
        dense: &'static [u8],
        aux: &'static [Aux],
        unknown: Option<usize>,
    ) -> (r: Result<Self, TableError>)
        ensures
            match r {
                Ok(t) => {
                    &&& table_error(
                        abi,
                        entries@,
                        dense@,
                        aux@,
                        unknown,
                        vstd::layout::size_of::<M>(),
                        vstd::layout::size_of::<UnknownFields>(),
                        vstd::layout::align_of::<UnknownFields>(),
                    ) is None
                    &&& t.spec_raw().spec_entries() == entries@
                    &&& t.spec_raw().spec_dense() == dense@
                    &&& t.spec_raw().spec_aux() == aux@
                    &&& t.spec_raw().spec_unknown() == unknown_offset(unknown)
                },
                Err(x) => table_error(
                    abi,
                    entries@,
                    dense@,
                    aux@,
                    unknown,
                    vstd::layout::size_of::<M>(),
                    vstd::layout::size_of::<UnknownFields>(),
                    vstd::layout::align_of::<UnknownFields>(),
                ) == Some(x),
            },
    {
        if abi != ABI {
            return Err(TableError::AbiMismatch);
        }
        let ghost es = entries@;
        let size = core::mem::size_of::<M>();
        let mut leaders: usize = 0;
        let mut i: usize = 0;
        while i < entries.len()
            invariant
                es == entries@,
                abi == ABI,
                size == vstd::layout::size_of::<M>(),
                i <= es.len(),
                leaders <= i,
                entries_error(es, aux@, size as nat, i as int) is None,
                leaders == count_leaders(es, i as int),
            decreases es.len() - i,
        {
            match check_entry(entries, i, aux, size) {
                Ok(leader) => {
                    if leader {
                        leaders = leaders + 1;
                    }
                },
                Err(x) => {
                    proof {
                        assert(entries_error(es, aux@, size as nat, i + 1) == Some(x));
                        lemma_entries_error_stays(es, aux@, size as nat, i + 1, es.len() as int);
                        assert(entries_error(es, aux@, size as nat, es.len() as int) == Some(x));
                    }
                    return Err(x);
                },
            }
            i = i + 1;
        }
        let mut groups: usize = 0;
        let mut j: usize = 0;
        while j < aux.len()
            invariant
                j <= aux@.len(),
                groups <= j,
                groups == count_groups(aux@, j as int),
            decreases aux@.len() - j,
        {
            if let Aux::Group(_) = &aux[j] {
                groups = groups + 1;
            }
            j = j + 1;
        }
        if leaders != groups {
            return Err(TableError::LeaderCount);
        }
        if dense.len() > 0 && entries.len() >= 255 {
            return Err(TableError::DenseTooLong);
        }
        let mut named: usize = 0;
        let mut n: usize = 0;
        while n < dense.len()
            invariant
                es == entries@,
                abi == ABI,
                size == vstd::layout::size_of::<M>(),
                entries_error(es, aux@, size as nat, es.len() as int) is None,
                count_leaders(es, es.len() as int) == count_groups(aux@, aux@.len() as int),
                !(dense@.len() > 0 && es.len() >= 255),
                n <= dense@.len(),
                named <= n,
                dense_error(es, dense@, n as int) is None,
                named == count_named(dense@, n as int),
            decreases dense@.len() - n,
        {
            let d = dense[n];
            if d != 0 {
                if !((d as usize) <= entries.len() && entries[(d as usize) - 1].number() as usize
                    == n) {
                    proof {
                        assert(dense_error(es, dense@, n + 1) == Some(TableError::DenseWrongNumber));
                        lemma_dense_error_stays(es, dense@, n + 1, dense@.len() as int);
                    }
                    return Err(TableError::DenseWrongNumber);
                }
                named = named + 1;
            }
            n = n + 1;
        }
        let mut covered: usize = 0;
        let mut k: usize = 0;
        while k < entries.len()
            invariant
                es == entries@,
                k <= es.len(),
                covered <= k,
                covered == count_covered(es, dense@.len(), k as int),
            decreases es.len() - k,
        {
            if (entries[k].number() as usize) < dense.len() {
                covered = covered + 1;
            }
            k = k + 1;
        }
        if named != covered {
            return Err(TableError::DenseOmits);
        }
        let raw_unknown = match unknown {
            None => NO_UNKNOWN,
            Some(offset) => {
                let unknown_size = core::mem::size_of::<UnknownFields>();
                let unknown_align = core::mem::align_of::<UnknownFields>();
                proof {
                    broadcast use vstd::layout::align_nonzero;
                }
                if !(offset < NO_UNKNOWN as usize && offset <= size && size - offset >= unknown_size
                    && offset % unknown_align == 0) {
                    return Err(TableError::UnknownOffset);
                }
                offset as u32
            },
        };
        proof {
            lemma_checks_give_well_formed(es, dense@, aux@, size as nat);
        }
        Ok(
            Table {
                raw: MessageTable { entries, dense, aux, unknown: raw_unknown },
                marker: PhantomData,
            },
        )
    }

    /// The untyped part of the table.
    pub closed spec fn spec_raw(&self) -> &MessageTable {
        &self.raw
    }

    /// The untyped part of the table.
    pub fn raw(&self) -> (r: &MessageTable)
        ensures
            r == self.spec_raw(),
    {
        &self.raw
    }
}

} // verus!
