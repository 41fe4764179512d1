//! The decode pass over a message held as plain values: each field of the
//! input found by its number among the table's entries and read by its kind
//! into what that entry holds; a field the table does not know kept among the
//! unknown fields, or skipped if the message keeps none; a map entry read and
//! inserted; a oneof member read into its oneof.
use vstd::prelude::*;
use vstd::pervasive::VecAdditionalExecFns;
use vstd::utf8::valid_utf8;
use crate::error::DecodeError;
use super::entry::{Entry, EntryView};
use super::kind::{
    kind_card, kind_family, kind_wire_type, scalar_wire, Family, Kind, ScalarType, IMPLICIT, LEADER, OPTIONAL, PACKED, REPEATED, REQUIRED, WIRE_FIXED32, WIRE_FIXED64, WIRE_LEN, WIRE_VARINT,
};
use super::map::MapVt;
use super::map_entry::{
    expected_wire, merge_entry, mismatch, read_field, read_len, read_value, skip_field,
    spec_decode_tag, decode_tag, spec_merge_entry, spec_read_field, spec_read_len, read_sub,
    spec_read_sub,
    spec_read_value, spec_skip, FieldValue, WireValue, MAX_MESSAGE_BYTES, enum_number, opt_view,
    lemma_entry_round_trip, lemma_read_sub_of_len, lemma_read_value_at, lemma_tag_at,
};
use super::message::{
    entry_aux_error, entry_index, lookup, numbers_increasing, well_formed, Aux, MessageTable, Table,
    NO_UNKNOWN,
};
use super::read::{
    bits_kept, lemma_merge_kind_msg, lemma_packed_field_at, lemma_repeated_value_at, lemma_scalar_field_at,
    children_of, lemma_child_at, lemma_enum_field_at, lemma_len_fields_prefix, lemma_packed_enum_at,
    lemma_repeated_enum_at, lemma_repeated_text_at, lemma_value_of, lemma_tagged_prefix, lemma_text_field_at,
    numbers_of, texts_of, merge_kind, merge_kind_covers, raw_enum, rejected_bytes,
    spec_merge_kind,
};
use super::entry::varint_len;
use super::shape::{accepts_number, enum_accepts, Child, EnumVt};
use super::wire::{
    encode_varint, lemma_varint_bytes_len, sign_extend, sign_extend32, tagged_bytes, value_bytes,
    values_bytes, varint_bytes,
};
use super::write::{
    append_bytes, entry_record, entry_records, field_bytes, fields_bytes, len_field_bytes,
    len_fields_bytes, message_bytes, wire_field_bytes, wire_of, wire_value_bytes, write_len_field,
    FieldData,
    FieldDataView,
};

verus! {

/// A length-prefixed message at the front of `s`, read into `ds` and `u`:
/// the prefix takes a level of nesting and is at most
/// [`MAX_MESSAGE_BYTES`](super::map_entry::MAX_MESSAGE_BYTES). Gives where
/// the message ends.
pub open spec fn spec_merge_length_delimited(
    es: Seq<Entry>,
    aux: Seq<Aux>,
    keeps: bool,
    ds: Seq<FieldDataView>,
    u: Seq<u8>,
    s: Seq<u8>,
    depth: nat,
) -> Result<(Seq<FieldDataView>, Seq<u8>, int), DecodeError> {
    if depth == 0 {
        Err(DecodeError::RecursionLimitExceeded)
    } else {
        match spec_read_sub(s, 0) {
            Err(err) => Err(err),
            Ok((p, next)) => match spec_merge_message(es, aux, keeps, ds, u, p, (depth - 1) as nat) {
                Ok((ds2, u2)) => Ok((ds2, u2, next)),
                Err(err) => Err(err),
            },
        }
    }
}

/// What the fields and unknown fields hold after reading a length-prefixed
/// message from the front of `s` up to the first field that fails: nothing
/// changes if the prefix itself fails.
pub open spec fn spec_length_delimited_state(
    es: Seq<Entry>,
    aux: Seq<Aux>,
    keeps: bool,
    ds: Seq<FieldDataView>,
    u: Seq<u8>,
    s: Seq<u8>,
    depth: nat,
) -> (Seq<FieldDataView>, Seq<u8>) {
    if depth == 0 {
        (ds, u)
    } else {
        match spec_read_sub(s, 0) {
            Err(_) => (ds, u),
            Ok((p, _)) => spec_merge_state(es, aux, keeps, ds, u, p, 0, (depth - 1) as nat),
        }
    }
}

/// The descriptor of the enum field `e`, if its aux index names one.
pub open spec fn aux_enum(aux: Seq<Aux>, e: EntryView) -> Option<EnumVt> {
    if (e.aux as int) < aux.len() && aux[e.aux as int] is Enum {
        Some(aux[e.aux as int]->Enum_0)
    } else {
        None
    }
}

/// Whether `e` leads the oneof whose descriptor is at aux index `g`.
pub open spec fn leads(e: EntryView, aux: Seq<Aux>, g: u16) -> bool {
    &&& e.kind == Kind::OneofLeader
    &&& (e.aux as int) < aux.len()
    &&& aux[e.aux as int] is Member
    &&& aux[e.aux as int]->Member_0@.group == g
}

/// The first entry of `es` from `k` on that leads the oneof at aux index `g`.
pub open spec fn leader_from(es: Seq<Entry>, aux: Seq<Aux>, g: u16, k: int) -> Option<int>
    decreases es.len() - k,
{
    if k < 0 || k >= es.len() {
        None
    } else if leads(es[k]@, aux, g) {
        Some(k)
    } else {
        leader_from(es, aux, g, k + 1)
    }
}

/// A leading entry found from `k` on is an entry from `k` on.
proof fn lemma_leader_range(es: Seq<Entry>, aux: Seq<Aux>, g: u16, k: int)
    requires
        0 <= k,
    ensures
        leader_from(es, aux, g, k) matches Some(l) ==> k <= l < es.len(),
    decreases es.len() - k,
{
    if k < es.len() && !leads(es[k]@, aux, g) {
        lemma_leader_range(es, aux, g, k + 1);
    }
}

/// The entry a member of the oneof at aux index `g`, whose own entry is
/// `i`, is held in: the oneof's leading entry, or `i` if there is none.
pub open spec fn member_slot(es: Seq<Entry>, aux: Seq<Aux>, g: u16, i: int) -> int {
    match leader_from(es, aux, g, 0) {
        Some(l) => l,
        None => i,
    }
}

/// Whether `(n, v)`, held at entry `l`, is a member of a oneof held
/// there: the entry numbered `n` is a member whose oneof is held at `l`,
/// and `v` has the wire type of that member's payload.
pub open spec fn member_fits(es: Seq<Entry>, aux: Seq<Aux>, l: int, n: u32, v: FieldValue) -> bool {
    exists|j: int|
        #![trigger es[j]]
        0 <= j < es.len() && {
            let e = es[j]@;
            &&& e.number() == n
            &&& (e.aux as int) < aux.len()
            &&& aux[e.aux as int] is Member
            &&& member_slot(es, aux, aux[e.aux as int]->Member_0@.group, j) == l
            &&& wire_of(v) == expected_wire(EntryView { kind: aux[e.aux as int]->Member_0@.kind, ..e })
        }
}

/// Whether every oneof member held in `ds` is as [`member_fits`] asks: a
/// message holds only members of its own oneofs, each with a value its
/// payload can have.
pub open spec fn members_fit(es: Seq<Entry>, aux: Seq<Aux>, ds: Seq<FieldDataView>) -> bool {
    forall|l: int|
        0 <= l < ds.len() ==> (#[trigger] ds[l] matches FieldDataView::Member(Some((n, v)))
            ==> member_fits(es, aux, l, n, v))
}

/// The value of a key or value field that did not come: its kind's zero.
pub open spec fn default_value(e: EntryView) -> FieldValue {
    if expected_wire(e) == WIRE_FIXED64 {
        FieldValue::Fixed64(0)
    } else if expected_wire(e) == WIRE_FIXED32 {
        FieldValue::Fixed32(0)
    } else if expected_wire(e) == WIRE_LEN {
        FieldValue::Len(Seq::empty())
    } else {
        FieldValue::Varint(0)
    }
}

/// `v`, or the zero of the field `e` if it did not come.
pub open spec fn or_default(v: Option<FieldValue>, e: EntryView) -> FieldValue {
    match v {
        Some(x) => x,
        None => default_value(e),
    }
}

/// The entries a map field holds, if it holds entries.
pub open spec fn entries_of(d: FieldDataView) -> Seq<(FieldValue, FieldValue)> {
    match d {
        FieldDataView::Entries(v) => v,
        _ => Seq::empty(),
    }
}

/// The first position from `j` on of an entry of `es` whose key is `k`.
pub open spec fn key_position(es: Seq<(FieldValue, FieldValue)>, k: FieldValue, j: int) -> Option<
    int,
>
    decreases es.len() - j,
{
    if j < 0 || j >= es.len() {
        None
    } else if es[j].0 == k {
        Some(j)
    } else {
        key_position(es, k, j + 1)
    }
}

/// The entries `es` with `kv` inserted: replacing the value of the entry
/// with its key, if there is one, and appended otherwise.
pub open spec fn map_insert(es: Seq<(FieldValue, FieldValue)>, kv: (FieldValue, FieldValue)) -> Seq<
    (FieldValue, FieldValue),
> {
    match key_position(es, kv.0, 0) {
        Some(j) => es.update(j, kv),
        None => es.push(kv),
    }
}

/// The payload of the member numbered `number` a oneof holds, if it holds
/// that member as a payload.
pub open spec fn held_payload(d: FieldDataView, number: u32) -> Seq<u8> {
    match d {
        FieldDataView::Member(Some((n, FieldValue::Len(b)))) => if n == number {
            b
        } else {
            Seq::empty()
        },
        _ => Seq::empty(),
    }
}

/// The table of the message values of the map `mvt`, where its value
/// descriptor reaches them through one.
pub open spec fn value_table(mvt: MapVt) -> Option<MessageTable> {
    match mvt.spec_value_aux() {
        Some(Aux::Msg(vt)) => match vt.spec_child() {
            Child::Table(t) => Some(*t),
            Child::Message => None,
        },
        _ => None,
    }
}

/// Whether the message value `v` read from an entry of the map `mvt`
/// decodes through the table of the map's values, if it has one, a level of
/// nesting down: its error if not.
#[verifier::opaque]
pub open spec fn value_check(mvt: MapVt, v: Option<FieldValue>, depth: nat) -> Result<(), DecodeError>
    decreases depth, 0int,
{
    if depth > 0 {
        match (value_table(mvt), v) {
            (Some(t), Some(FieldValue::Len(b))) => spec_check_child(t, b, (depth - 1) as nat),
            _ => Ok(()),
        }
    } else {
        Ok(())
    }
}

/// One occurrence of the map field `e`, the entry `i`, whose tag with wire
/// type `wire` ends at `pos`: its entry read and inserted, or, if its value
/// is an enum number the value's descriptor does not store, kept whole among
/// the unknown fields (or dropped if the message keeps none).
pub open spec fn spec_merge_map(
    mvt: MapVt,
    e: EntryView,
    i: int,
    ds: Seq<FieldDataView>,
    u: Seq<u8>,
    keeps: bool,
    wire: u32,
    s: Seq<u8>,
    pos: int,
    depth: nat,
) -> Result<(Seq<FieldDataView>, Seq<u8>, int), DecodeError>
    decreases depth, 1int,
{
    if wire != WIRE_LEN {
        Err(mismatch((e.tag / 8) as u32, WIRE_LEN, wire))
    } else {
        match spec_read_len(s, pos) {
            Err(err) => Err(err),
            Ok((p, next)) => match spec_merge_entry(
                mvt.spec_value_enum(),
                p,
                mvt.spec_key(),
                mvt.spec_value(),
                depth,
            ) {
                Err(err) => Err(err),
                Ok(m) => if m.known {
                    match value_check(mvt, m.value, depth) {
                        Err(err) => Err(err),
                        Ok(()) => Ok(
                            (
                                ds.update(
                                    i,
                                    FieldDataView::Entries(
                                        map_insert(
                                            entries_of(ds[i]),
                                            (
                                                or_default(m.key, mvt.spec_key()),
                                                or_default(m.value, mvt.spec_value()),
                                            ),
                                        ),
                                    ),
                                ),
                                u,
                                next,
                            ),
                        ),
                    }
                } else {
                    Ok(
                        (
                            ds,
                            if keeps {
                                u + len_field_bytes(e.tag, p)
                            } else {
                                u
                            },
                            next,
                        ),
                    )
                },
            },
        }
    }
}

/// One occurrence of the oneof member `e`, the entry `i`, numbered `number`,
/// whose tag with wire type `wire` ends at `pos`, read by its payload kind
/// into the entry that holds its oneof: a message payload merged into the
/// member's if the oneof holds this member, an enum number the payload's
/// descriptor does not store kept among the unknown fields instead (or
/// dropped), and any other value as the wire gives it.
pub open spec fn spec_merge_member(
    es: Seq<Entry>,
    aux: Seq<Aux>,
    i: int,
    ds: Seq<FieldDataView>,
    u: Seq<u8>,
    keeps: bool,
    number: u32,
    wire: u32,
    s: Seq<u8>,
    pos: int,
    depth: nat,
) -> Result<(Seq<FieldDataView>, Seq<u8>, int), DecodeError>
    decreases depth, 0int,
{
    let e = es[i]@;
    let m = aux[e.aux as int]->Member_0@;
    let pe = EntryView { kind: m.kind, aux: m.aux, ..e };
    let slot = member_slot(es, aux, m.group, i);
    match kind_family(m.kind) {
        Family::Enum => if wire != WIRE_VARINT {
            Err(mismatch(number, WIRE_VARINT, wire))
        } else {
            match spec_read_value(s, pos, WIRE_VARINT) {
                Err(err) => Err(err),
                Ok((v, next)) => {
                    let raw = raw_enum(v);
                    if enum_accepts(aux_enum(aux, pe), raw) {
                        Ok(
                            (
                                ds.update(
                                    slot,
                                    FieldDataView::Member(
                                        Some((number, FieldValue::Varint(sign_extend32(raw)))),
                                    ),
                                ),
                                u,
                                next,
                            ),
                        )
                    } else {
                        Ok(
                            (
                                ds,
                                if keeps {
                                    u + rejected_bytes(number, raw)
                                } else {
                                    u
                                },
                                next,
                            ),
                        )
                    }
                },
            }
        },
        Family::Msg => if wire != WIRE_LEN {
            Err(mismatch(number, WIRE_LEN, wire))
        } else if depth == 0 {
            Err(DecodeError::RecursionLimitExceeded)
        } else {
            match spec_read_sub(s, pos) {
                Err(err) => Err(err),
                Ok((b, next)) => match (match child_table(aux, pe) {
                    Some(t) => spec_check_child(t, b, (depth - 1) as nat),
                    None => Ok(()),
                }) {
                    Err(err) => Err(err),
                    Ok(()) => Ok(
                        (
                            ds.update(
                                slot,
                                FieldDataView::Member(
                                    Some((number, FieldValue::Len(held_payload(ds[slot], number) + b))),
                                ),
                            ),
                            u,
                            next,
                        ),
                    ),
                },
            }
        },
        _ => match spec_read_field(s, pos, number, wire, pe) {
            Err(err) => Err(err),
            Ok((v, next)) => Ok(
                (ds.update(slot, FieldDataView::Member(Some((number, v)))), u, next),
            ),
        },
    }
}

/// One field of a message whose entries are `es` and descriptors `aux`,
/// numbered `number`, whose tag with wire type `wire` ends at `pos` of `s`,
/// read into the fields `ds` and the unknown fields `u` (kept only if
/// `keeps`): what they become and where the field ends. A message value
/// whose descriptor reaches it through a table is decoded by that table,
/// a level of nesting down, and its error is the field's.
pub open spec fn spec_merge_field(
    es: Seq<Entry>,
    aux: Seq<Aux>,
    keeps: bool,
    ds: Seq<FieldDataView>,
    u: Seq<u8>,
    number: u32,
    wire: u32,
    s: Seq<u8>,
    pos: int,
    depth: nat,
) -> Result<(Seq<FieldDataView>, Seq<u8>, int), DecodeError>
    decreases depth, 2int,
{
    match entry_index(es, number as nat) {
        None => match spec_skip(s, pos, number, wire, depth) {
            Err(err) => Err(err),
            Ok(next) => Ok(
                (
                    ds,
                    if keeps {
                        u + varint_bytes((number * 8 + wire) as nat) + s.subrange(pos, next)
                    } else {
                        u
                    },
                    next,
                ),
            ),
        },
        Some(i) => {
            let e = es[i]@;
            match kind_family(e.kind) {
                Family::MapField => spec_merge_map(
                    *(aux[e.aux as int]->MapField_0),
                    e,
                    i,
                    ds,
                    u,
                    keeps,
                    wire,
                    s,
                    pos,
                    depth,
                ),
                Family::Oneof => spec_merge_member(
                    es,
                    aux,
                    i,
                    ds,
                    u,
                    keeps,
                    number,
                    wire,
                    s,
                    pos,
                    depth,
                ),
                _ => spec_merge_plain(es, aux, keeps, ds, u, i, wire, s, pos, depth),
            }
        },
    }
}

/// One occurrence of the field of entry `i` that is not a map or a oneof,
/// whose tag with wire type `wire` ends at `pos` of `s`, read by its kind
/// into what the entry holds; a message value whose descriptor reaches it
/// through a table is decoded by that table, a level of nesting down, and
/// its error is the field's.
pub open spec fn spec_merge_plain(
    es: Seq<Entry>,
    aux: Seq<Aux>,
    keeps: bool,
    ds: Seq<FieldDataView>,
    u: Seq<u8>,
    i: int,
    wire: u32,
    s: Seq<u8>,
    pos: int,
    depth: nat,
) -> Result<(Seq<FieldDataView>, Seq<u8>, int), DecodeError>
    decreases depth, 0int,
{
    let e = es[i]@;
    match spec_merge_kind(aux_enum(aux, e), e, ds[i], u, keeps, wire, s, pos, depth) {
        Err(err) => Err(err),
        Ok((d, u2, next)) => {
            let checked = if kind_family(e.kind) == Family::Msg && depth > 0 {
                match (child_table(aux, e), spec_read_sub(s, pos)) {
                    (Some(t), Ok((b, _))) => spec_check_child(t, b, (depth - 1) as nat),
                    _ => Ok(()),
                }
            } else {
                Ok(())
            };
            match checked {
                Err(err) => Err(err),
                Ok(()) => Ok((ds.update(i, d), u2, next)),
            }
        },
    }
}

/// The fields of a message from `pos` of `s` on, read into `ds` and `u`.
pub open spec fn spec_merge_from(
    es: Seq<Entry>,
    aux: Seq<Aux>,
    keeps: bool,
    ds: Seq<FieldDataView>,
    u: Seq<u8>,
    s: Seq<u8>,
    pos: int,
    depth: nat,
) -> Result<(Seq<FieldDataView>, Seq<u8>), DecodeError>
    decreases depth, s.len() - pos + 2,
{
    if pos >= s.len() {
        Ok((ds, u))
    } else {
        match spec_decode_tag(s, pos) {
            Err(err) => Err(err),
            Ok((f, w, p1)) => match spec_merge_field(es, aux, keeps, ds, u, f, w, s, p1, depth) {
                Err(err) => Err(err),
                Ok((ds2, u2, p2)) => if pos < p2 <= s.len() {
                    spec_merge_from(es, aux, keeps, ds2, u2, s, p2, depth)
                } else {
                    Err(DecodeError::UnexpectedEof)
                },
            },
        }
    }
}

/// What the fields `ds` and the unknown fields `u` hold after reading the
/// fields of a message from `pos` of `s` on up to the first that fails: a
/// field that fails changes nothing, and those read before it stay read.
/// Where none fails, the state [`spec_merge_from`] ends in.
pub open spec fn spec_merge_state(
    es: Seq<Entry>,
    aux: Seq<Aux>,
    keeps: bool,
    ds: Seq<FieldDataView>,
    u: Seq<u8>,
    s: Seq<u8>,
    pos: int,
    depth: nat,
) -> (Seq<FieldDataView>, Seq<u8>)
    decreases s.len() - pos,
{
    if pos >= s.len() {
        (ds, u)
    } else {
        match spec_decode_tag(s, pos) {
            Err(_) => (ds, u),
            Ok((f, w, p1)) => match spec_merge_field(es, aux, keeps, ds, u, f, w, s, p1, depth) {
                Err(_) => (ds, u),
                Ok((ds2, u2, p2)) => if pos < p2 <= s.len() {
                    spec_merge_state(es, aux, keeps, ds2, u2, s, p2, depth)
                } else {
                    (ds, u)
                },
            },
        }
    }
}

/// The message `s`, read into the fields `ds` and the unknown fields `u` of a
/// message whose entries are `es`, with `depth` levels of nesting left.
pub open spec fn spec_merge_message(
    es: Seq<Entry>,
    aux: Seq<Aux>,
    keeps: bool,
    ds: Seq<FieldDataView>,
    u: Seq<u8>,
    s: Seq<u8>,
    depth: nat,
) -> Result<(Seq<FieldDataView>, Seq<u8>), DecodeError>
    decreases depth, s.len() + 3,
{
    spec_merge_from(es, aux, keeps, ds, u, s, 0, depth)
}

/// What a field holds before anything is read into it: nothing.
pub open spec fn blank_data(e: EntryView) -> FieldDataView {
    match kind_family(e.kind) {
        Family::Str | Family::Bytes => FieldDataView::Texts(Seq::empty()),
        Family::Msg => FieldDataView::Children(Seq::empty()),
        Family::MapField => FieldDataView::Entries(Seq::empty()),
        Family::Oneof => FieldDataView::Member(None),
        _ => FieldDataView::Numbers(Seq::empty()),
    }
}

/// The fields of a message whose entries are `es` before anything is read
/// into them.
pub open spec fn blank_fields(es: Seq<Entry>) -> Seq<FieldDataView> {
    Seq::new(es.len(), |i: int| blank_data(es[i]@))
}

/// The table of the messages the message field `e` holds, where its
/// descriptor reaches them through one.
pub open spec fn child_table(aux: Seq<Aux>, e: EntryView) -> Option<MessageTable> {
    if (e.aux as int) < aux.len() {
        match aux[e.aux as int] {
            Aux::Msg(vt) => match vt.spec_child() {
                Child::Table(t) => Some(*t),
                Child::Message => None,
            },
            Aux::Rep(vt) => match vt.spec_child() {
                Child::Table(t) => Some(*t),
                Child::Message => None,
            },
            _ => None,
        }
    } else {
        None
    }
}

/// Whether the message `b`, whose table is `t`, decodes with `depth`
/// levels of nesting left: its error if it does not.
pub open spec fn spec_check_child(t: MessageTable, b: Seq<u8>, depth: nat) -> Result<(), DecodeError>
    decreases depth, b.len() + 4,
{
    match spec_merge_message(
        t.spec_entries(),
        t.spec_aux(),
        t.spec_unknown() != NO_UNKNOWN,
        blank_fields(t.spec_entries()),
        Seq::empty(),
        b,
        depth,
    ) {
        Ok(_) => Ok(()),
        Err(err) => Err(err),
    }
}

/// Whether `a` and `b` are the same bytes.
fn same_bytes(a: &Vec<u8>, b: &Vec<u8>) -> (r: bool)
    ensures
        r == (a@ == b@),
{
    if a.len() != b.len() {
        return false;
    }
    let mut i: usize = 0;
    while i < a.len()
        invariant
            a@.len() == b@.len(),
            i <= a@.len(),
            forall|j: int| 0 <= j < i ==> a@[j] == b@[j],
        decreases a@.len() - i,
    {
        if a[i] != b[i] {
            return false;
        }
        i = i + 1;
    }
    assert(a@ =~= b@);
    true
}

/// Whether `a` and `b` are the same value.
fn same_value(a: &WireValue, b: &WireValue) -> (r: bool)
    ensures
        r == (a@ == b@),
{
    match (a, b) {
        (WireValue::Varint(x), WireValue::Varint(y)) => *x == *y,
        (WireValue::Fixed64(x), WireValue::Fixed64(y)) => *x == *y,
        (WireValue::Fixed32(x), WireValue::Fixed32(y)) => *x == *y,
        (WireValue::Len(x), WireValue::Len(y)) => same_bytes(x, y),
        _ => false,
    }
}

/// The views of map entries.
pub open spec fn entry_views(es: Seq<(WireValue, WireValue)>) -> Seq<(FieldValue, FieldValue)> {
    es.map_values(|p: (WireValue, WireValue)| (p.0@, p.1@))
}

/// Insert the entry `kv` into `es`: replace the value of the entry with its
/// key, if there is one, and append it otherwise.
fn insert_entry(es: &mut Vec<(WireValue, WireValue)>, kv: (WireValue, WireValue))
    ensures
        entry_views(final(es)@) == map_insert(entry_views(old(es)@), (kv.0@, kv.1@)),
{
    let ghost views = entry_views(es@);
    let ghost k = kv.0@;
    let mut j: usize = 0;
    while j < es.len()
        invariant
            j <= es@.len(),
            views == entry_views(es@),
            es@ == old(es)@,
            k == kv.0@,
            key_position(views, k, 0) == key_position(views, k, j as int),
        decreases es@.len() - j,
    {
        if same_value(&es[j].0, &kv.0) {
            let ghost kvv = (kv.0@, kv.1@);
            es.set(j, kv);
            assert(entry_views(es@) =~= views.update(j as int, kvv));
            return;
        }
        j = j + 1;
    }
    let ghost kvv = (kv.0@, kv.1@);
    es.push(kv);
    assert(entry_views(es@) =~= views.push(kvv));
}

/// The zero of the field `e`.
fn default_of(e: &Entry) -> (r: WireValue)
    requires
        kind_wire_type(e@.kind) is Some,
    ensures
        r@ == default_value(e@),
{
    let w = e.kind().wire_type();
    if w == WIRE_FIXED64 {
        WireValue::Fixed64(0)
    } else if w == WIRE_FIXED32 {
        WireValue::Fixed32(0)
    } else if w == WIRE_LEN {
        WireValue::Len(Vec::new())
    } else {
        WireValue::Varint(0)
    }
}

/// The descriptor of the enum field `e`, if its aux index names one.
fn enum_of(aux: &[Aux], e: &Entry) -> (r: Option<EnumVt>)
    ensures
        r == aux_enum(aux@, e@),
{
    let a = e.aux() as usize;
    if a < aux.len() {
        match &aux[a] {
            Aux::Enum(v) => Some(*v),
            _ => None,
        }
    } else {
        None
    }
}

/// The index of the entry that leads the oneof at aux index `g`, if any.
fn leader_index(es: &[Entry], aux: &[Aux], g: u16) -> (r: Option<usize>)
    ensures
        match r {
            Some(l) => leader_from(es@, aux@, g, 0) == Some(l as int),
            None => leader_from(es@, aux@, g, 0) is None,
        },
{
    let mut k: usize = 0;
    while k < es.len()
        invariant
            k <= es@.len(),
            leader_from(es@, aux@, g, 0) == leader_from(es@, aux@, g, k as int),
        decreases es@.len() - k,
    {
        let e = &es[k];
        if e.kind() == Kind::OneofLeader && (e.aux() as usize) < aux.len() {
            match &aux[e.aux() as usize] {
                Aux::Member(m) => {
                    if m.group() == g {
                        return Some(k);
                    }
                },
                _ => {},
            }
        }
        k = k + 1;
    }
    None
}

/// The views of the fields of a message.
pub open spec fn field_views(fs: Seq<FieldData>) -> Seq<FieldDataView> {
    fs.map_values(|d: FieldData| d@)
}

/// Read one occurrence of the map field `e`, the entry `i`, described by
/// `mvt`.
#[verifier::rlimit(60)]
#[verifier::spinoff_prover]
fn merge_map_field(
    mvt: &MapVt,
    e: &Entry,
    i: usize,
    fields: &mut Vec<FieldData>,
    unknown: &mut Vec<u8>,
    keeps: bool,
    wire: u32,
    buf: &[u8],
    pos: usize,
    depth: u32,
) -> (r: Result<usize, DecodeError>)
    requires
        i < old(fields)@.len(),
        pos <= buf@.len(),
    ensures
        final(fields)@.len() == old(fields)@.len(),
        match r {
            Ok(next) => spec_merge_map(
                *mvt,
                e@,
                i as int,
                field_views(old(fields)@),
                old(unknown)@,
                keeps,
                wire,
                buf@,
                pos as int,
                depth as nat,
            ) == Ok::<(Seq<FieldDataView>, Seq<u8>, int), DecodeError>(
                (field_views(final(fields)@), final(unknown)@, next as int),
            ) && pos < next <= buf@.len(),
            Err(err) => spec_merge_map(
                *mvt,
                e@,
                i as int,
                field_views(old(fields)@),
                old(unknown)@,
                keeps,
                wire,
                buf@,
                pos as int,
                depth as nat,
            ) == Err::<(Seq<FieldDataView>, Seq<u8>, int), DecodeError>(err)
                && field_views(final(fields)@) == field_views(old(fields)@) && final(unknown)@ == old(unknown)@,
        },
    decreases depth, 1int,
{
    if wire != WIRE_LEN {
        return Err(
            DecodeError::WireTypeMismatch {
                field_number: e.number(),
                expected: WIRE_LEN as u8,
                actual: wire as u8,
            },
        );
    }
    let (p, next) = match read_len(buf, pos) {
        Ok(x) => x,
        Err(err) => {
            return Err(err);
        },
    };
    let m = match merge_entry(mvt, p, depth) {
        Ok(m) => m,
        Err(err) => {
            return Err(err);
        },
    };
    if m.known {
        let checked = check_value(mvt, &m.value, depth);
        assert(m@.value == opt_view(m.value));
        if let Err(err) = checked {
            assert(value_check(*mvt, m@.value, depth as nat) == Err::<(), DecodeError>(err));
            return Err(err);
        }
        let key = match m.key {
            Some(k) => k,
            None => default_of(mvt.key()),
        };
        let value = match m.value {
            Some(v) => v,
            None => default_of(mvt.value()),
        };
        let ghost before = field_views(fields@);
        let mut cur = FieldData::Numbers(Vec::new());
        fields.set_and_swap(i, &mut cur);
        let mut es: Vec<(WireValue, WireValue)> = match cur {
            FieldData::Entries(v) => v,
            _ => Vec::new(),
        };
        assert(entry_views(es@) == entries_of(before[i as int]));
        insert_entry(&mut es, (key, value));
        fields.set(i, FieldData::Entries(es));
        assert(field_views(fields@) =~= before.update(
            i as int,
            FieldDataView::Entries(entry_views(es@)),
        ));
    } else if keeps {
        write_len_field(e.tag(), p, unknown);
    }
    Ok(next)
}

/// Whether the message value `v` read from an entry of the map `mvt`
/// decodes through the table of the map's values, if it has one, a level of
/// nesting down: its error if not.
fn check_value(mvt: &MapVt, v: &Option<WireValue>, depth: u32) -> (r: Result<(), DecodeError>)
    ensures
        r == value_check(*mvt, opt_view(*v), depth as nat),
    decreases depth, 0int,
{
    proof {
        reveal(value_check);
    }
    if depth > 0 {
        if let Some(Aux::Msg(vt)) = mvt.value_aux() {
            if let Child::Table(t) = vt.child() {
                if let Some(WireValue::Len(b)) = v {
                    return check_child(t, b.as_slice(), depth - 1);
                }
            }
        }
    }
    Ok(())
}

/// Read one occurrence of the oneof member that is the entry `i`, numbered
/// `number`.
fn merge_member_field(
    table: &MessageTable,
    i: usize,
    fields: &mut Vec<FieldData>,
    unknown: &mut Vec<u8>,
    keeps: bool,
    number: u32,
    wire: u32,
    buf: &[u8],
    pos: usize,
    depth: u32,
) -> (r: Result<usize, DecodeError>)
    requires
        old(fields)@.len() == table.spec_entries().len(),
        i < table.spec_entries().len(),
        table.spec_entries()[i as int]@.number() == number,
        kind_family(table.spec_entries()[i as int]@.kind) == Family::Oneof,
        well_formed(table.spec_entries(), table.spec_dense(), table.spec_aux()),
        lookup(table.spec_entries(), number as nat) == Some(table.spec_entries()[i as int]),
        pos <= buf@.len(),
    ensures
        final(fields)@.len() == old(fields)@.len(),
        match r {
            Ok(next) => spec_merge_member(
                table.spec_entries(),
                table.spec_aux(),
                i as int,
                field_views(old(fields)@),
                old(unknown)@,
                keeps,
                number,
                wire,
                buf@,
                pos as int,
                depth as nat,
            ) == Ok::<(Seq<FieldDataView>, Seq<u8>, int), DecodeError>(
                (field_views(final(fields)@), final(unknown)@, next as int),
            ) && pos < next <= buf@.len(),
            Err(err) => spec_merge_member(
                table.spec_entries(),
                table.spec_aux(),
                i as int,
                field_views(old(fields)@),
                old(unknown)@,
                keeps,
                number,
                wire,
                buf@,
                pos as int,
                depth as nat,
            ) == Err::<(Seq<FieldDataView>, Seq<u8>, int), DecodeError>(err)
                && field_views(final(fields)@) == field_views(old(fields)@) && final(unknown)@ == old(unknown)@,
        },
    decreases depth, 0int,
{
    let es = table.entries();
    let aux = table.aux();
    let e = &es[i];
    assert(entry_aux_error(es@[i as int]@, aux@) is None);
    let m = table.member(e);
    proof {
        lemma_leader_range(es@, aux@, m@.group, 0);
    }
    let slot = match leader_index(es, aux, m.group()) {
        Some(l) => l,
        None => i,
    };
    let ghost before = field_views(fields@);
    let kind = m.kind();
    match kind.family() {
        Family::Enum => {
            if wire != WIRE_VARINT {
                return Err(
                    DecodeError::WireTypeMismatch {
                        field_number: number,
                        expected: WIRE_VARINT as u8,
                        actual: wire as u8,
                    },
                );
            }
            let (v, next) = match read_value(buf, pos, WIRE_VARINT) {
                Ok(x) => x,
                Err(err) => {
                    return Err(err);
                },
            };
            let raw: i32 = match v {
                WireValue::Varint(x) => #[verifier::truncate] (x as i32),
                _ => 0,
            };
            let pa = m.aux() as usize;
            let ev = if pa < aux.len() {
                match &aux[pa] {
                    Aux::Enum(x) => Some(*x),
                    _ => None,
                }
            } else {
                None
            };
            if accepts_number(ev, raw) {
                fields.set(slot, FieldData::Member(Some((number, WireValue::Varint(sign_extend(raw))))));
                assert(field_views(fields@) =~= before.update(
                    slot as int,
                    FieldDataView::Member(Some((number, FieldValue::Varint(sign_extend32(raw))))),
                ));
            } else if keeps {
                let ghost u0 = unknown@;
                encode_varint(number as u64 * 8, unknown);
                encode_varint(sign_extend(raw), unknown);
                assert(unknown@ =~= u0 + rejected_bytes(number, raw));
            }
            Ok(next)
        },
        Family::Msg => {
            if wire != WIRE_LEN {
                return Err(
                    DecodeError::WireTypeMismatch {
                        field_number: number,
                        expected: WIRE_LEN as u8,
                        actual: wire as u8,
                    },
                );
            }
            if depth == 0 {
                return Err(DecodeError::RecursionLimitExceeded);
            }
            let (b, next) = match read_sub(buf, pos) {
                Ok(x) => x,
                Err(err) => {
                    return Err(err);
                },
            };
            let pa = m.aux() as usize;
            let child = if pa < aux.len() {
                match &aux[pa] {
                    Aux::Msg(vt) => vt.child(),
                    Aux::Rep(vt) => vt.child(),
                    _ => Child::Message,
                }
            } else {
                Child::Message
            };
            if let Child::Table(t) = child {
                if let Err(err) = check_child(t, b, depth - 1) {
                    return Err(err);
                }
            }
            let mut cur = FieldData::Numbers(Vec::new());
            fields.set_and_swap(slot, &mut cur);
            let mut bytes: Vec<u8> = match cur {
                FieldData::Member(Some((n, WireValue::Len(v)))) => if n == number {
                    v
                } else {
                    Vec::new()
                },
                _ => Vec::new(),
            };
            assert(bytes@ == held_payload(before[slot as int], number));
            let ghost held = bytes@;
            let mut more = vstd::slice::slice_to_vec(b);
            bytes.append(&mut more);
            assert(bytes@ =~= held + b@);
            fields.set(slot, FieldData::Member(Some((number, WireValue::Len(bytes)))));
            assert(field_views(fields@) =~= before.update(
                slot as int,
                FieldDataView::Member(Some((number, FieldValue::Len(held + b@)))),
            ));
            Ok(next)
        },
        _ => {
            let pe = table.payload_entry(m.group(), number);
            let (v, next) = match read_field(buf, pos, number, wire, &pe) {
                Ok(x) => x,
                Err(err) => {
                    return Err(err);
                },
            };
            let ghost vv = v@;
            fields.set(slot, FieldData::Member(Some((number, v))));
            assert(field_views(fields@) =~= before.update(
                slot as int,
                FieldDataView::Member(Some((number, vv))),
            ));
            Ok(next)
        },
    }
}

/// When the decode arm fails, so does the field.
proof fn lemma_plain_kind_err(
    es: Seq<Entry>,
    aux: Seq<Aux>,
    keeps: bool,
    ds: Seq<FieldDataView>,
    u: Seq<u8>,
    i: int,
    wire: u32,
    s: Seq<u8>,
    pos: int,
    depth: nat,
    err: DecodeError,
)
    requires
        spec_merge_kind(aux_enum(aux, es[i]@), es[i]@, ds[i], u, keeps, wire, s, pos, depth)
            == Err::<(FieldDataView, Seq<u8>, int), DecodeError>(err),
    ensures
        spec_merge_plain(es, aux, keeps, ds, u, i, wire, s, pos, depth) == Err::<
            (Seq<FieldDataView>, Seq<u8>, int),
            DecodeError,
        >(err),
{
}

/// When the decode arm reads the field and a message value decodes through
/// its table, if it has one, the field reads as the arm says.
proof fn lemma_plain_ok(
    es: Seq<Entry>,
    aux: Seq<Aux>,
    keeps: bool,
    ds: Seq<FieldDataView>,
    u: Seq<u8>,
    i: int,
    wire: u32,
    s: Seq<u8>,
    pos: int,
    depth: nat,
    d: FieldDataView,
    u2: Seq<u8>,
    next: int,
)
    requires
        spec_merge_kind(aux_enum(aux, es[i]@), es[i]@, ds[i], u, keeps, wire, s, pos, depth)
            == Ok::<(FieldDataView, Seq<u8>, int), DecodeError>((d, u2, next)),
        kind_family(es[i]@.kind) == Family::Msg && depth > 0 ==> match (
            child_table(aux, es[i]@),
            spec_read_sub(s, pos),
        ) {
            (Some(t), Ok((b, _))) => spec_check_child(t, b, (depth - 1) as nat) is Ok,
            _ => true,
        },
    ensures
        spec_merge_plain(es, aux, keeps, ds, u, i, wire, s, pos, depth) == Ok::<
            (Seq<FieldDataView>, Seq<u8>, int),
            DecodeError,
        >((ds.update(i, d), u2, next)),
{
}

/// When a message value fails to decode through its table, the field fails
/// with its error.
proof fn lemma_plain_child_err(
    es: Seq<Entry>,
    aux: Seq<Aux>,
    keeps: bool,
    ds: Seq<FieldDataView>,
    u: Seq<u8>,
    i: int,
    wire: u32,
    s: Seq<u8>,
    pos: int,
    depth: nat,
    err: DecodeError,
)
    requires
        kind_family(es[i]@.kind) == Family::Msg,
        wire == WIRE_LEN,
        depth > 0,
        match (child_table(aux, es[i]@), spec_read_sub(s, pos)) {
            (Some(t), Ok((b, _))) => spec_check_child(t, b, (depth - 1) as nat) == Err::<(), DecodeError>(err),
            _ => false,
        },
    ensures
        spec_merge_plain(es, aux, keeps, ds, u, i, wire, s, pos, depth) == Err::<
            (Seq<FieldDataView>, Seq<u8>, int),
            DecodeError,
        >(err),
{
}

/// Read one occurrence of the field of entry `i`, which is not a map or a
/// oneof.
#[verifier::rlimit(100)]
#[verifier::spinoff_prover]
fn merge_plain_field(
    table: &MessageTable,
    i: usize,
    fields: &mut Vec<FieldData>,
    unknown: &mut Vec<u8>,
    keeps: bool,
    wire: u32,
    buf: &[u8],
    pos: usize,
    depth: u32,
) -> (r: Result<usize, DecodeError>)
    requires
        old(fields)@.len() == table.spec_entries().len(),
        i < table.spec_entries().len(),
        entry_aux_error(table.spec_entries()[i as int]@, table.spec_aux()) is None,
        kind_family(table.spec_entries()[i as int]@.kind) != Family::MapField,
        kind_family(table.spec_entries()[i as int]@.kind) != Family::Oneof,
        pos <= buf@.len(),
    ensures
        final(fields)@.len() == old(fields)@.len(),
        match r {
            Ok(next) => spec_merge_plain(
                table.spec_entries(),
                table.spec_aux(),
                keeps,
                field_views(old(fields)@),
                old(unknown)@,
                i as int,
                wire,
                buf@,
                pos as int,
                depth as nat,
            ) == Ok::<(Seq<FieldDataView>, Seq<u8>, int), DecodeError>(
                (field_views(final(fields)@), final(unknown)@, next as int),
            ) && pos < next <= buf@.len(),
            Err(err) => spec_merge_plain(
                table.spec_entries(),
                table.spec_aux(),
                keeps,
                field_views(old(fields)@),
                old(unknown)@,
                i as int,
                wire,
                buf@,
                pos as int,
                depth as nat,
            ) == Err::<(Seq<FieldDataView>, Seq<u8>, int), DecodeError>(err)
                && field_views(final(fields)@) == field_views(old(fields)@) && final(unknown)@ == old(unknown)@,
        },
    decreases depth, 1int,
{
    let es = table.entries();
    let aux = table.aux();
    let e = &es[i];
    let ghost es_v = table.spec_entries();
    let ghost aux_v = table.spec_aux();
    let ghost ds_v = field_views(fields@);
    let ghost u_v = unknown@;
    if let Err(err) = check_field_child(aux, e, wire, buf, pos, depth) {
        proof {
            lemma_plain_child_err(es_v, aux_v, keeps, ds_v, u_v, i as int, wire, buf@, pos as int, depth as nat, err);
        }
        return Err(err);
    }
    let ev = enum_of(aux, e);
    let ghost f0 = fields@;
    let mut cur = FieldData::Numbers(Vec::new());
    fields.set_and_swap(i, &mut cur);
    let r = merge_kind(ev, e, &mut cur, unknown, keeps, wire, buf, pos, depth);
    let ghost decoded = cur;
    fields.set_and_swap(i, &mut cur);
    assert(fields@ =~= f0.update(i as int, decoded));
    assert(field_views(fields@) =~= ds_v.update(i as int, decoded@));
    proof {
        match &r {
            Err(e2) => {
                assert(ds_v.update(i as int, decoded@) =~= ds_v);
                lemma_plain_kind_err(es_v, aux_v, keeps, ds_v, u_v, i as int, wire, buf@, pos as int, depth as nat, *e2);
            },
            Ok(next) => {
                if kind_family(e@.kind) == Family::Msg {
                    lemma_merge_kind_msg(ev, e@, ds_v[i as int], u_v, keeps, wire, buf@, pos as int, depth as nat);
                }
                lemma_plain_ok(es_v, aux_v, keeps, ds_v, u_v, i as int, wire, buf@, pos as int, depth as nat, decoded@, unknown@, *next as int);
            },
        }
    }
    r
}

/// Whether the message value of the field `e` at `pos` of `buf`, when the
/// field is a message field whose descriptor reaches it through a table,
/// decodes through that table a level of nesting down: its error if not.
fn check_field_child(aux: &[Aux], e: &Entry, wire: u32, buf: &[u8], pos: usize, depth: u32) -> (r:
    Result<(), DecodeError>)
    requires
        kind_family(e@.kind) == Family::Msg ==> (e@.aux as int) < aux@.len(),
        pos <= buf@.len(),
    ensures
        (kind_family(e@.kind) == Family::Msg && wire == WIRE_LEN && depth > 0 ==> match (
            child_table(aux@, e@),
            spec_read_sub(buf@, pos as int),
        ) {
            (Some(t), Ok((b, _))) => spec_check_child(t, b, (depth - 1) as nat) == match r {
                Ok(()) => Ok::<(), DecodeError>(()),
                Err(err) => Err::<(), DecodeError>(err),
            },
            _ => r is Ok,
        }),
        !(kind_family(e@.kind) == Family::Msg && wire == WIRE_LEN && depth > 0) ==> r is Ok,
    decreases depth, 0int,
{
    if e.kind().family() == Family::Msg && wire == WIRE_LEN && depth > 0 {
        let child = match &aux[e.aux() as usize] {
            Aux::Msg(vt) => vt.child(),
            Aux::Rep(vt) => vt.child(),
            _ => Child::Message,
        };
        if let Child::Table(t) = child {
            if let Ok((b, _)) = read_sub(buf, pos) {
                return check_child(t, b, depth - 1);
            }
        }
    }
    Ok(())
}

/// Read one field of the message `table` describes, numbered `number`, whose
/// tag with wire type `wire` ends at `pos` of `buf`, into its fields and
/// its unknown fields, with `depth` levels of nesting left. Returns where
/// the field ends; a field that fails changes nothing.
pub fn merge_field(
    table: &MessageTable,
    fields: &mut Vec<FieldData>,
    unknown: &mut Vec<u8>,
    number: u32,
    wire: u32,
    buf: &[u8],
    pos: usize,
    depth: u32,
) -> (r: Result<usize, DecodeError>)
    requires
        old(fields)@.len() == table.spec_entries().len(),
        pos <= buf@.len(),
        wire <= 5,
    ensures
        final(fields)@.len() == old(fields)@.len(),
        match r {
            Ok(next) => spec_merge_field(
                table.spec_entries(),
                table.spec_aux(),
                table.spec_unknown() != NO_UNKNOWN,
                field_views(old(fields)@),
                old(unknown)@,
                number,
                wire,
                buf@,
                pos as int,
                depth as nat,
            ) == Ok::<(Seq<FieldDataView>, Seq<u8>, int), DecodeError>(
                (field_views(final(fields)@), final(unknown)@, next as int),
            ) && pos < next <= buf@.len(),
            Err(err) => spec_merge_field(
                table.spec_entries(),
                table.spec_aux(),
                table.spec_unknown() != NO_UNKNOWN,
                field_views(old(fields)@),
                old(unknown)@,
                number,
                wire,
                buf@,
                pos as int,
                depth as nat,
            ) == Err::<(Seq<FieldDataView>, Seq<u8>, int), DecodeError>(err)
                && field_views(final(fields)@) == field_views(old(fields)@) && final(unknown)@ == old(unknown)@,
        },
    decreases depth, 2int,
{
    let keeps = table.unknown() != NO_UNKNOWN;
    let es = table.entries();
    let aux = table.aux();
    match table.find_index(number) {
        None => {
            let next = match skip_field(buf, pos, number, wire, depth) {
                Ok(n) => n,
                Err(err) => {
                    return Err(err);
                },
            };
            if keeps {
                let ghost u0 = unknown@;
                encode_varint(number as u64 * 8 + wire as u64, unknown);
                append_bytes(vstd::slice::slice_subrange(buf, pos, next), unknown);
                assert(unknown@ =~= u0 + varint_bytes((number * 8 + wire) as nat) + buf@.subrange(
                    pos as int,
                    next as int,
                ));
            }
            Ok(next)
        },
        Some(i) => {
            let e = &es[i];
            assert(entry_aux_error(es@[i as int]@, aux@) is None);
            match e.kind().family() {
                Family::MapField => {
                    let mvt = table.map_vt(e);
                    merge_map_field(mvt, e, i, fields, unknown, keeps, wire, buf, pos, depth)
                },
                Family::Oneof => merge_member_field(
                    table,
                    i,
                    fields,
                    unknown,
                    keeps,
                    number,
                    wire,
                    buf,
                    pos,
                    depth,
                ),
                _ => merge_plain_field(table, i, fields, unknown, keeps, wire, buf, pos, depth),
            }
        },
    }
}

/// The fields of a message that `table` describes, before anything is
/// read into them.
fn blank_fields_of(table: &MessageTable) -> (r: Vec<FieldData>)
    ensures
        field_views(r@) == blank_fields(table.spec_entries()),
        r@.len() == table.spec_entries().len(),
{
    let es = table.entries();
    let mut out: Vec<FieldData> = Vec::new();
    let mut i: usize = 0;
    while i < es.len()
        invariant
            i <= es@.len(),
            es@ == table.spec_entries(),
            out@.len() == i,
            forall|j: int| 0 <= j < i ==> #[trigger] out@[j]@ == blank_data(es@[j]@),
        decreases es@.len() - i,
    {
        let d = match es[i].kind().family() {
            Family::Str | Family::Bytes => FieldData::Texts(Vec::new()),
            Family::Msg => FieldData::Children(Vec::new()),
            Family::MapField => FieldData::Entries(Vec::new()),
            Family::Oneof => FieldData::Member(None),
            _ => FieldData::Numbers(Vec::new()),
        };
        proof {
            let no_items = Seq::<Vec<u8>>::empty();
            assert(no_items.map_values(|b: Vec<u8>| b@) =~= Seq::<Seq<u8>>::empty());
            let no_pairs = Seq::<(WireValue, WireValue)>::empty();
            assert(no_pairs.map_values(|p: (WireValue, WireValue)| (p.0@, p.1@)) =~= Seq::<
                (FieldValue, FieldValue),
            >::empty());
        }
        assert(d@ == blank_data(es@[i as int]@));
        out.push(d);
        i = i + 1;
    }
    assert(field_views(out@) =~= blank_fields(table.spec_entries()));
    out
}

/// Whether the message `b`, whose table is `t`, decodes with `depth`
/// levels of nesting left: its error if it does not.
fn check_child(t: &MessageTable, b: &[u8], depth: u32) -> (r: Result<(), DecodeError>)
    ensures
        r == spec_check_child(*t, b@, depth as nat),
    decreases depth, b@.len() + 4,
{
    let mut fields = blank_fields_of(t);
    let mut unknown: Vec<u8> = Vec::new();
    match merge_message(t, &mut fields, &mut unknown, b, depth) {
        Ok(()) => Ok(()),
        Err(err) => Err(err),
    }
}

/// Read the message `buf` into the fields and the unknown fields of the
/// message `table` describes, one field at a time, with `depth` levels of
/// nesting left for message values and groups. A message value with a
/// table of its own is decoded through it, and held as its bytes. On an
/// error the fields read before the one that failed stay read, and the one
/// that failed changes nothing.
pub fn merge_message(
    table: &MessageTable,
    fields: &mut Vec<FieldData>,
    unknown: &mut Vec<u8>,
    buf: &[u8],
    depth: u32,
) -> (r: Result<(), DecodeError>)
    requires
        old(fields)@.len() == table.spec_entries().len(),
    ensures
        final(fields)@.len() == old(fields)@.len(),
        match r {
            Ok(()) => spec_merge_message(
                table.spec_entries(),
                table.spec_aux(),
                table.spec_unknown() != NO_UNKNOWN,
                field_views(old(fields)@),
                old(unknown)@,
                buf@,
                depth as nat,
            ) == Ok::<(Seq<FieldDataView>, Seq<u8>), DecodeError>(
                (field_views(final(fields)@), final(unknown)@),
            ),
            Err(err) => spec_merge_message(
                table.spec_entries(),
                table.spec_aux(),
                table.spec_unknown() != NO_UNKNOWN,
                field_views(old(fields)@),
                old(unknown)@,
                buf@,
                depth as nat,
            ) == Err::<(Seq<FieldDataView>, Seq<u8>), DecodeError>(err) && (
                field_views(final(fields)@),
                final(unknown)@,
            ) == spec_merge_state(
                table.spec_entries(),
                table.spec_aux(),
                table.spec_unknown() != NO_UNKNOWN,
                field_views(old(fields)@),
                old(unknown)@,
                buf@,
                0,
                depth as nat,
            ),
        },
    decreases depth, buf@.len() + 3,
{
    let mut pos: usize = 0;
    while pos < buf.len()
        invariant
            pos <= buf@.len(),
            fields@.len() == old(fields)@.len(),
            old(fields)@.len() == table.spec_entries().len(),
            spec_merge_message(
                table.spec_entries(),
                table.spec_aux(),
                table.spec_unknown() != NO_UNKNOWN,
                field_views(old(fields)@),
                old(unknown)@,
                buf@,
                depth as nat,
            ) == spec_merge_from(
                table.spec_entries(),
                table.spec_aux(),
                table.spec_unknown() != NO_UNKNOWN,
                field_views(fields@),
                unknown@,
                buf@,
                pos as int,
                depth as nat,
            ),
            spec_merge_state(
                table.spec_entries(),
                table.spec_aux(),
                table.spec_unknown() != NO_UNKNOWN,
                field_views(old(fields)@),
                old(unknown)@,
                buf@,
                0,
                depth as nat,
            ) == spec_merge_state(
                table.spec_entries(),
                table.spec_aux(),
                table.spec_unknown() != NO_UNKNOWN,
                field_views(fields@),
                unknown@,
                buf@,
                pos as int,
                depth as nat,
            ),
        decreases buf@.len() - pos,
    {
        let (f, w, p1) = match decode_tag(buf, pos) {
            Ok(t) => t,
            Err(err) => {
                return Err(err);
            },
        };
        pos = match merge_field(table, fields, unknown, f, w, buf, p1, depth) {
            Ok(n) => n,
            Err(err) => {
                return Err(err);
            },
        };
    }
    Ok(())
}

impl<M> Table<M> {
    /// Read `M`'s fields from the front of `buf` until `limit` bytes are
    /// left (all of it if it is shorter), into `fields`, one per entry, and
    /// `unknown`, with `depth` levels of nesting left. Returns how many bytes
    /// were read. On an error the fields read before the one that failed
    /// stay read, and the one that failed changes nothing.
    pub fn merge_to_limit(
        &self,
        fields: &mut Vec<FieldData>,
        unknown: &mut Vec<u8>,
        buf: &[u8],
        limit: usize,
        depth: u32,
    ) -> (r: Result<usize, DecodeError>)
        requires
            old(fields)@.len() == self.spec_raw().spec_entries().len(),
        ensures
            final(fields)@.len() == old(fields)@.len(),
            ({
                let n = if buf@.len() > limit { buf@.len() - limit } else { 0 };
                match r {
                    Ok(k) => k == n && spec_merge_message(
                        self.spec_raw().spec_entries(),
                        self.spec_raw().spec_aux(),
                        self.spec_raw().spec_unknown() != NO_UNKNOWN,
                        field_views(old(fields)@),
                        old(unknown)@,
                        buf@.subrange(0, n as int),
                        depth as nat,
                    ) == Ok::<(Seq<FieldDataView>, Seq<u8>), DecodeError>(
                        (field_views(final(fields)@), final(unknown)@),
                    ),
                    Err(err) => spec_merge_message(
                        self.spec_raw().spec_entries(),
                        self.spec_raw().spec_aux(),
                        self.spec_raw().spec_unknown() != NO_UNKNOWN,
                        field_views(old(fields)@),
                        old(unknown)@,
                        buf@.subrange(0, n as int),
                        depth as nat,
                    ) == Err::<(Seq<FieldDataView>, Seq<u8>), DecodeError>(err) && (
                        field_views(final(fields)@),
                        final(unknown)@,
                    ) == spec_merge_state(
                        self.spec_raw().spec_entries(),
                        self.spec_raw().spec_aux(),
                        self.spec_raw().spec_unknown() != NO_UNKNOWN,
                        field_views(old(fields)@),
                        old(unknown)@,
                        buf@.subrange(0, n as int),
                        0,
                        depth as nat,
                    ),
                }
            }),
    {
        let n = if buf.len() > limit {
            buf.len() - limit
        } else {
            0
        };
        let payload = vstd::slice::slice_subrange(buf, 0, n);
        match merge_message(self.raw(), fields, unknown, payload, depth) {
            Ok(()) => Ok(n),
            Err(err) => Err(err),
        }
    }

    /// Read a length-prefixed `M` from the front of `buf` into `fields` and
    /// `unknown`: the prefix takes a level of the `depth` left and is at most
    /// [`MAX_MESSAGE_BYTES`](super::map_entry::MAX_MESSAGE_BYTES). Returns
    /// where the message ends. On an error the fields read before the one
    /// that failed stay read, and the one that failed changes nothing.
    pub fn merge_length_delimited(
        &self,
        fields: &mut Vec<FieldData>,
        unknown: &mut Vec<u8>,
        buf: &[u8],
        depth: u32,
    ) -> (r: Result<usize, DecodeError>)
        requires
            old(fields)@.len() == self.spec_raw().spec_entries().len(),
        ensures
            final(fields)@.len() == old(fields)@.len(),
            match r {
                Ok(next) => spec_merge_length_delimited(
                    self.spec_raw().spec_entries(),
                    self.spec_raw().spec_aux(),
                    self.spec_raw().spec_unknown() != NO_UNKNOWN,
                    field_views(old(fields)@),
                    old(unknown)@,
                    buf@,
                    depth as nat,
                ) == Ok::<(Seq<FieldDataView>, Seq<u8>, int), DecodeError>(
                    (field_views(final(fields)@), final(unknown)@, next as int),
                ),
                Err(err) => spec_merge_length_delimited(
                    self.spec_raw().spec_entries(),
                    self.spec_raw().spec_aux(),
                    self.spec_raw().spec_unknown() != NO_UNKNOWN,
                    field_views(old(fields)@),
                    old(unknown)@,
                    buf@,
                    depth as nat,
                ) == Err::<(Seq<FieldDataView>, Seq<u8>, int), DecodeError>(err) && (
                    field_views(final(fields)@),
                    final(unknown)@,
                ) == spec_length_delimited_state(
                    self.spec_raw().spec_entries(),
                    self.spec_raw().spec_aux(),
                    self.spec_raw().spec_unknown() != NO_UNKNOWN,
                    field_views(old(fields)@),
                    old(unknown)@,
                    buf@,
                    depth as nat,
                ),
            },
    {
        if depth == 0 {
            return Err(DecodeError::RecursionLimitExceeded);
        }
        let (p, next) = match read_sub(buf, 0) {
            Ok(x) => x,
            Err(err) => {
                return Err(err);
            },
        };
        match merge_message(self.raw(), fields, unknown, p, depth - 1) {
            Ok(()) => Ok(next),
            Err(err) => Err(err),
        }
    }

    /// Read one field of `M`, numbered `number`, whose tag with wire type
    /// `wire` ends at `pos` of `buf`, into `fields` and `unknown`. Returns
    /// where the field ends; a field that fails changes nothing.
    pub fn merge_field(
        &self,
        fields: &mut Vec<FieldData>,
        unknown: &mut Vec<u8>,
        number: u32,
        wire: u32,
        buf: &[u8],
        pos: usize,
        depth: u32,
    ) -> (r: Result<usize, DecodeError>)
        requires
            old(fields)@.len() == self.spec_raw().spec_entries().len(),
            pos <= buf@.len(),
            wire <= 5,
        ensures
            final(fields)@.len() == old(fields)@.len(),
            match r {
                Ok(next) => spec_merge_field(
                    self.spec_raw().spec_entries(),
                    self.spec_raw().spec_aux(),
                    self.spec_raw().spec_unknown() != NO_UNKNOWN,
                    field_views(old(fields)@),
                    old(unknown)@,
                    number,
                    wire,
                    buf@,
                    pos as int,
                    depth as nat,
                ) == Ok::<(Seq<FieldDataView>, Seq<u8>, int), DecodeError>(
                    (field_views(final(fields)@), final(unknown)@, next as int),
                ) && pos < next <= buf@.len(),
                Err(err) => spec_merge_field(
                    self.spec_raw().spec_entries(),
                    self.spec_raw().spec_aux(),
                    self.spec_raw().spec_unknown() != NO_UNKNOWN,
                    field_views(old(fields)@),
                    old(unknown)@,
                    number,
                    wire,
                    buf@,
                    pos as int,
                    depth as nat,
                ) == Err::<(Seq<FieldDataView>, Seq<u8>, int), DecodeError>(err)
                    && field_views(final(fields)@) == field_views(old(fields)@) && final(unknown)@
                    == old(unknown)@,
            },
    {
        merge_field(self.raw(), fields, unknown, number, wire, buf, pos, depth)
    }
}

/// Whether the field `e` holding `d` is one a message round trip covers: a
/// singular field, tagged with its type's wire type, that is a scalar
/// holding one number the wire gives back unchanged, or a string (UTF-8)
/// or bytes field holding one item, not the zero or empty value of an
/// implicit field; or a packed or repeated scalar field holding one or
/// more such numbers; or a repeated string or bytes field holding one or
/// more items; or a message field holding one value, or one or more if it
/// is repeated; or an enum field, as [`enum_round_trips`] says; or a map
/// field holding one or more entries; or a oneof's leading entry holding a
/// member; or any field that writes nothing.
pub open spec fn round_trips(e: EntryView, d: FieldDataView) -> bool {
    &&& e.number() >= 1
    &&& (kind_card(e.kind) == IMPLICIT || kind_card(e.kind) == REQUIRED || kind_card(e.kind)
        == OPTIONAL) && (scalar_round_trips(e, d) || text_round_trips(e, d)) || packed_round_trips(
        e,
        d,
    ) || repeated_round_trips(e, d) || repeated_text_round_trips(e, d) || msg_round_trips(e, d)
        || enum_round_trips(e, d) || map_round_trips(e, d) || leader_round_trips(e, d)
        || field_bytes(e, d).len() == 0
}

/// The oneof case of [`round_trips`]: the leading entry of a oneof holding a
/// member.
pub open spec fn leader_round_trips(e: EntryView, d: FieldDataView) -> bool {
    &&& kind_family(e.kind) == Family::Oneof
    &&& kind_card(e.kind) == LEADER
    &&& d matches FieldDataView::Member(Some(_))
}

/// Whether the member `(n, v)` held at the leading entry `l` reads back as
/// itself with `depth` levels of nesting left, through the entry `j`
/// numbered `n`: a member of a oneof held at `l`, whose payload takes a
/// value of `v`'s wire type; a string is UTF-8, an enum number is a 32-bit
/// number sign-extended that the payload's descriptor stores, and a message
/// value takes a level, is at most [`MAX_MESSAGE_BYTES`] long and decodes
/// through its table, if it has one.
pub open spec fn member_back_at(
    es: Seq<Entry>,
    aux: Seq<Aux>,
    l: int,
    j: int,
    n: u32,
    v: FieldValue,
    depth: nat,
) -> bool {
    let e = es[j]@;
    let m = aux[e.aux as int]->Member_0@;
    let pe = EntryView { kind: m.kind, aux: m.aux, ..e };
    &&& 0 <= j < es.len()
    &&& e.number() == n && n >= 1
    &&& kind_family(e.kind) == Family::Oneof
    &&& (e.aux as int) < aux.len() && aux[e.aux as int] is Member
    &&& member_slot(es, aux, m.group, j) == l
    &&& wire_of(v) == expected_wire(pe)
    &&& v matches FieldValue::Len(b) ==> b.len() < 0x1_0000_0000_0000_0000 && (kind_family(m.kind)
        == Family::Str ==> valid_utf8(b))
    &&& kind_family(m.kind) == Family::Enum ==> (v matches FieldValue::Varint(x) && bits_kept(
        ScalarType::Int32,
        x,
    ) && enum_accepts(aux_enum(aux, pe), x as i32))
    &&& kind_family(m.kind) == Family::Msg ==> depth > 0 && v->Len_0.len() <= MAX_MESSAGE_BYTES && (
    child_table(aux, pe) matches Some(t) ==> spec_check_child(t, v->Len_0, (depth - 1) as nat) is Ok)
}

/// Whether the member a oneof's leading entry `l` holds in `d` reads back
/// as itself, as [`member_back_at`] says, through the entry numbered as it.
pub open spec fn members_decode(es: Seq<Entry>, aux: Seq<Aux>, l: int, d: FieldDataView, depth: nat) -> bool {
    leader_round_trips(es[l]@, d) ==> (d matches FieldDataView::Member(Some((n, v))) && (entry_index(
        es,
        n as nat,
    ) matches Some(j) && member_back_at(es, aux, l, j, n, v, depth)))
}

/// The map case of [`round_trips`]: one or more entries.
pub open spec fn map_round_trips(e: EntryView, d: FieldDataView) -> bool {
    &&& kind_family(e.kind) == Family::MapField
    &&& d matches FieldDataView::Entries(es) && es.len() > 0
    &&& e.wire() == WIRE_LEN
}

/// Whether the entry `kv` of a map field described by `mvt` reads back as
/// itself with `depth` levels of nesting left: its key and value have the
/// wire types of the map's key and value fields, a string is UTF-8, a
/// message value takes a level, is at most [`MAX_MESSAGE_BYTES`] long and
/// decodes through the table of the map's values, if it has one, an enum
/// value is one the map's descriptor stores, and its record has a length a
/// varint holds.
pub open spec fn entry_reads_back(mvt: MapVt, kv: (FieldValue, FieldValue), depth: nat) -> bool {
    let key = mvt.spec_key();
    let value = mvt.spec_value();
    &&& kind_wire_type(key.kind) == Some(wire_of(kv.0) as u32)
    &&& kind_wire_type(value.kind) == Some(wire_of(kv.1) as u32)
    &&& kv.0 matches FieldValue::Len(b) ==> b.len() < 0x1_0000_0000_0000_0000 && (kind_family(
        key.kind,
    ) == Family::Str ==> valid_utf8(b))
    &&& kv.1 matches FieldValue::Len(b) ==> b.len() < 0x1_0000_0000_0000_0000 && (kind_family(
        value.kind,
    ) == Family::Str ==> valid_utf8(b))
    &&& kind_family(value.kind) == Family::Msg ==> depth > 0 && kv.1->Len_0.len() <= MAX_MESSAGE_BYTES
    &&& kind_family(value.kind) == Family::Enum ==> enum_accepts(mvt.spec_value_enum(), enum_number(kv.1))
    &&& entry_record(kv).len() < 0x1_0000_0000_0000_0000
    &&& value_check(mvt, Some(kv.1), depth) is Ok
}

/// Whether the entries of the map field `e` holding `d` all read back as
/// themselves, with keys that differ.
pub open spec fn maps_decode(aux: Seq<Aux>, e: EntryView, d: FieldDataView, depth: nat) -> bool {
    kind_family(e.kind) == Family::MapField ==> {
        &&& forall|j: int|
            0 <= j < entries_of(d).len() ==> entry_reads_back(
                *(aux[e.aux as int]->MapField_0),
                #[trigger] entries_of(d)[j],
                depth,
            )
        &&& forall|a: int, b: int|
            0 <= a < b < entries_of(d).len() ==> #[trigger] entries_of(d)[a].0 != #[trigger] entries_of(d)[b].0
    }
}

/// The type of the values a scalar or enum field `e` holds: an enum's are
/// `int32` values.
pub open spec fn value_type(e: EntryView) -> ScalarType {
    match kind_family(e.kind) {
        Family::Scalar(t) => t,
        _ => ScalarType::Int32,
    }
}

/// The enum case of [`round_trips`]: 32-bit numbers sign-extended to 64
/// bits, one in a singular field (not zero if it is implicit), one or more
/// in a packed or repeated one.
pub open spec fn enum_round_trips(e: EntryView, d: FieldDataView) -> bool {
    &&& kind_family(e.kind) == Family::Enum
    &&& d matches FieldDataView::Numbers(vs) && vs.len() > 0 && (forall|j: int|
        0 <= j < vs.len() ==> bits_kept(ScalarType::Int32, #[trigger] vs[j])) && (kind_card(e.kind)
        != PACKED && kind_card(e.kind) != REPEATED ==> vs.len() == 1 && (kind_card(e.kind)
        == IMPLICIT ==> vs[0] != 0)) && values_bytes(ScalarType::Int32, vs).len()
        < 0x1_0000_0000_0000_0000
    &&& e.wire() == if kind_card(e.kind) == PACKED {
        WIRE_LEN
    } else {
        WIRE_VARINT
    }
}

/// Whether the numbers of the enum field `e` holding `d` are all ones its
/// descriptor stores.
pub open spec fn enums_accepted(aux: Seq<Aux>, e: EntryView, d: FieldDataView) -> bool {
    kind_family(e.kind) == Family::Enum ==> forall|j: int|
        0 <= j < numbers_of(d).len() ==> enum_accepts(aux_enum(aux, e), #[trigger] numbers_of(d)[j] as i32)
}

/// The cases of [`round_trips`] read one value per occurrence: a repeated
/// scalar or enum field.
pub open spec fn repeated_numbers(e: EntryView, d: FieldDataView) -> bool {
    repeated_round_trips(e, d) || enum_round_trips(e, d) && kind_card(e.kind) == REPEATED
}

/// The message case of [`round_trips`]: one or more values of a repeated
/// message field, or the one value of a singular one.
pub open spec fn msg_round_trips(e: EntryView, d: FieldDataView) -> bool {
    &&& kind_family(e.kind) == Family::Msg
    &&& d matches FieldDataView::Children(cs) && cs.len() > 0 && (kind_card(e.kind) != REPEATED
        ==> cs.len() == 1)
    &&& e.wire() == WIRE_LEN
}

/// Whether the message values of the field `e` holding `d` decode again with
/// `depth` levels of nesting left: each takes a level, is at most
/// [`MAX_MESSAGE_BYTES`] long, and decodes through the table its descriptor
/// reaches it by, if any.
pub open spec fn children_decode(aux: Seq<Aux>, e: EntryView, d: FieldDataView, depth: nat) -> bool {
    kind_family(e.kind) == Family::Msg ==> depth > 0 && forall|i: int|
        0 <= i < children_of(d).len() ==> #[trigger] children_of(d)[i].len() <= MAX_MESSAGE_BYTES
            && (child_table(aux, e) matches Some(t) ==> spec_check_child(
            t,
            children_of(d)[i],
            (depth - 1) as nat,
        ) is Ok)
}

/// The repeated string and bytes case of [`round_trips`].
pub open spec fn repeated_text_round_trips(e: EntryView, d: FieldDataView) -> bool {
    &&& kind_family(e.kind) == Family::Str || kind_family(e.kind) == Family::Bytes
    &&& kind_card(e.kind) == REPEATED
    &&& d matches FieldDataView::Texts(items) && items.len() > 0 && (forall|j: int|
        0 <= j < items.len() ==> #[trigger] items[j].len() < 0x1_0000_0000_0000_0000 && (
        kind_family(e.kind) == Family::Str ==> valid_utf8(items[j])))
    &&& e.wire() == WIRE_LEN
}

/// The repeated (not packed) case of [`round_trips`].
pub open spec fn repeated_round_trips(e: EntryView, d: FieldDataView) -> bool {
    &&& kind_family(e.kind) is Scalar
    &&& kind_card(e.kind) == REPEATED
    &&& d matches FieldDataView::Numbers(vs) && vs.len() > 0 && (forall|j: int|
        0 <= j < vs.len() ==> bits_kept(kind_family(e.kind)->Scalar_0, #[trigger] vs[j]))
    &&& e.wire() == scalar_wire(kind_family(e.kind)->Scalar_0)
}

/// The packed case of [`round_trips`].
pub open spec fn packed_round_trips(e: EntryView, d: FieldDataView) -> bool {
    &&& kind_family(e.kind) is Scalar
    &&& kind_card(e.kind) == PACKED
    &&& d matches FieldDataView::Numbers(vs) && vs.len() > 0 && (forall|j: int|
        0 <= j < vs.len() ==> bits_kept(kind_family(e.kind)->Scalar_0, #[trigger] vs[j]))
        && values_bytes(kind_family(e.kind)->Scalar_0, vs).len() < 0x1_0000_0000_0000_0000
    &&& e.wire() == WIRE_LEN
}

/// Whether `d0`, held by the field `e` before a round trip, leaves room for
/// what the field is read back as: a packed or repeated field's numbers or
/// items, a message field's values and a map field's entries are added to
/// those it holds, so it holds none, and a oneof holds no member.
pub open spec fn fresh_for(e: EntryView, d0: FieldDataView) -> bool {
    &&& kind_card(e.kind) == PACKED || kind_card(e.kind) == REPEATED ==> numbers_of(d0) == Seq::<
        u64,
    >::empty() && texts_of(d0) == Seq::<Seq<u8>>::empty()
    &&& kind_family(e.kind) == Family::Msg ==> children_of(d0) == Seq::<Seq<u8>>::empty()
    &&& kind_family(e.kind) == Family::MapField ==> entries_of(d0) == Seq::<(FieldValue, FieldValue)>::empty()
    &&& kind_family(e.kind) == Family::Oneof && kind_card(e.kind) == LEADER ==> d0
        == FieldDataView::Member(None)
}

/// The fields `ds` before `k`, `dk` at `k` and the fields `ds0` after it.
pub open spec fn fields_at(ds: Seq<FieldDataView>, ds0: Seq<FieldDataView>, k: int, dk: FieldDataView) -> Seq<
    FieldDataView,
> {
    Seq::new(ds.len(), |i: int| if i < k { ds[i] } else if i == k { dk } else { ds0[i] })
}

/// The scalar case of [`round_trips`].
pub open spec fn scalar_round_trips(e: EntryView, d: FieldDataView) -> bool {
    &&& kind_family(e.kind) is Scalar
    &&& d matches FieldDataView::Numbers(vs) && vs.len() == 1 && bits_kept(
        kind_family(e.kind)->Scalar_0,
        vs[0],
    ) && (kind_card(e.kind) == IMPLICIT ==> vs[0] != 0)
    &&& e.wire() == scalar_wire(kind_family(e.kind)->Scalar_0)
}

/// The string and bytes case of [`round_trips`].
pub open spec fn text_round_trips(e: EntryView, d: FieldDataView) -> bool {
    &&& kind_family(e.kind) == Family::Str || kind_family(e.kind) == Family::Bytes
    &&& d matches FieldDataView::Texts(items) && items.len() == 1 && (kind_card(e.kind) == IMPLICIT
        ==> items[0].len() > 0) && (kind_family(e.kind) == Family::Str ==> valid_utf8(items[0]))
        && items[0].len() < 0x1_0000_0000_0000_0000
    &&& e.wire() == WIRE_LEN
}

/// The fields `ds` before `k` and the fields `ds0` from `k` on.
pub open spec fn fields_mixed(ds: Seq<FieldDataView>, ds0: Seq<FieldDataView>, k: int) -> Seq<
    FieldDataView,
> {
    Seq::new(ds.len(), |j: int| if j < k { ds[j] } else { ds0[j] })
}

/// The bytes of the first `k` fields begin the bytes of the first `n`.
proof fn lemma_fields_bytes_prefix(es: Seq<Entry>, ds: Seq<FieldDataView>, k: nat, n: nat)
    requires
        k <= n,
    ensures
        fields_bytes(es, ds, k).len() <= fields_bytes(es, ds, n).len(),
        fields_bytes(es, ds, n).subrange(0, fields_bytes(es, ds, k).len() as int) == fields_bytes(
            es,
            ds,
            k,
        ),
    decreases n - k,
{
    if k < n {
        lemma_fields_bytes_prefix(es, ds, k, (n - 1) as nat);
        let a = fields_bytes(es, ds, (n - 1) as nat);
        let b = field_bytes(es[n - 1]@, ds[n - 1]);
        assert((a + b).subrange(0, fields_bytes(es, ds, k).len() as int) =~= a.subrange(
            0,
            fields_bytes(es, ds, k).len() as int,
        ));
    } else {
        assert(fields_bytes(es, ds, n).subrange(0, fields_bytes(es, ds, n).len() as int)
            =~= fields_bytes(es, ds, n));
    }
}

/// In entries with increasing numbers, entry `k` is the one with its number.
proof fn lemma_entry_index_of(es: Seq<Entry>, k: int)
    requires
        numbers_increasing(es),
        0 <= k < es.len(),
    ensures
        entry_index(es, es[k]@.number()) == Some(k),
{
    let n = es[k]@.number();
    let j = choose|j: int| 0 <= j < es.len() && #[trigger] es[j]@.number() == n;
    assert(es[k]@.number() == n);
    if j < k {
        assert(es[j]@.number() < es[k]@.number());
    } else if j > k {
        assert(es[k]@.number() < es[j]@.number());
    }
}

/// The `k`-th field, when it is read in one occurrence, reads back with
/// its tag's wire type `w`, from where the fields before it end to where it
/// ends.
#[verifier::rlimit(60)]
#[verifier::spinoff_prover]
proof fn lemma_single_field(
    es: Seq<Entry>,
    aux: Seq<Aux>,
    keeps: bool,
    ds: Seq<FieldDataView>,
    ds0: Seq<FieldDataView>,
    u: Seq<u8>,
    depth: nat,
    tail: Seq<u8>,
    k: nat,
) -> (fw: (u32, u32))
    requires
        numbers_increasing(es),
        ds.len() == es.len(),
        ds0.len() == es.len(),
        forall|j: int| 0 <= j < es.len() ==> #[trigger] round_trips(es[j]@, ds[j]),
        forall|j: int| 0 <= j < es.len() ==> #[trigger] fresh_for(es[j]@, ds0[j]),
        forall|j: int| 0 <= j < es.len() ==> #[trigger] children_decode(aux, es[j]@, ds[j], depth),
        forall|j: int| 0 <= j < es.len() ==> #[trigger] enums_accepted(aux, es[j]@, ds[j]),
        forall|j: int| 0 <= j < es.len() ==> #[trigger] maps_decode(aux, es[j]@, ds[j], depth),
        forall|j: int| 0 <= j < es.len() ==> #[trigger] members_decode(es, aux, j, ds[j], depth),
        forall|j: int|
            0 <= j < es.len() && #[trigger] field_bytes(es[j]@, ds[j]).len() == 0 ==> ds0[j] == ds[j],
        k < es.len(),
        !repeated_numbers(es[k as int]@, ds[k as int]),
        !repeated_text_round_trips(es[k as int]@, ds[k as int]),
        !msg_round_trips(es[k as int]@, ds[k as int]),
        !map_round_trips(es[k as int]@, ds[k as int]),
        field_bytes(es[k as int]@, ds[k as int]).len() > 0,
    ensures
        ({
            let s = fields_bytes(es, ds, es.len()) + tail;
            let pre = fields_bytes(es, ds, k);
            &&& pre.len() < fields_bytes(es, ds, (k + 1) as nat).len()
            &&& spec_decode_tag(s, pre.len() as int) matches Ok((f, w, p1)) && f == fw.0 && w == fw.1
                && spec_merge_field(
                es,
                aux,
                keeps,
                fields_mixed(ds, ds0, k as int),
                u,
                f,
                w,
                s,
                p1,
                depth,
            ) == Ok::<(Seq<FieldDataView>, Seq<u8>, int), DecodeError>(
                (fields_mixed(ds, ds0, (k + 1) as int), u, fields_bytes(es, ds, (k + 1) as nat).len() as int),
            )
        }),
{
    let n = es.len();
    let s0 = fields_bytes(es, ds, n);
    let s = s0 + tail;
    let mk = fields_mixed(ds, ds0, k as int);
    let e = es[k as int]@;
    assert(round_trips(e, ds[k as int]));
    let pre = fields_bytes(es, ds, k);
    let fbk = field_bytes(e, ds[k as int]);
    lemma_fields_bytes_prefix(es, ds, (k + 1) as nat, n);
    assert(fields_bytes(es, ds, (k + 1) as nat) == pre + fbk);
    let rest = s.subrange((pre.len() + fbk.len()) as int, s.len() as int);
    assert(s =~= pre + fbk + rest);
    lemma_entry_index_of(es, k as int);
    let tl = varint_len(e.tag as nat);
    let next_ds = mk.update(k as int, ds[k as int]);
    assert(next_ds =~= fields_mixed(ds, ds0, (k + 1) as int));
    if leader_round_trips(e, ds[k as int]) {
        let (n, v) = ds[k as int]->Member_0->Some_0;
        assert(members_decode(es, aux, k as int, ds[k as int], depth));
        let j = entry_index(es, n as nat)->Some_0;
        assert(fresh_for(e, ds0[k as int]));
        assert(mk[k as int] == FieldDataView::Member(None));
        assert(fbk == wire_field_bytes(n as nat, v));
        lemma_member_at(es, aux, keeps, mk, u, depth, k as int, j, n, v, pre, rest);
        assert(mk.update(k as int, FieldDataView::Member(Some((n, v)))) =~= fields_mixed(
            ds,
            ds0,
            (k + 1) as int,
        ));
        return (n, wire_of(v) as u32);
    }
    let w = if enum_round_trips(e, ds[k as int]) && kind_card(e.kind) == PACKED {
        let vs = ds[k as int]->Numbers_0;
        assert(fresh_for(e, ds0[k as int]));
        assert(mk[k as int] == ds0[k as int]);
        assert(enums_accepted(aux, e, ds[k as int]));
        assert forall|j: int| 0 <= j < vs.len() implies enum_accepts(aux_enum(aux, e), #[trigger] vs[j] as i32) by {
            assert(numbers_of(ds[k as int])[j] == vs[j]);
        }
        lemma_packed_enum_at(aux_enum(aux, e), e, vs, mk[k as int], u, keeps, depth, pre, rest);
        assert(numbers_of(mk[k as int]) + vs =~= vs);
        WIRE_LEN
    } else if enum_round_trips(e, ds[k as int]) {
        let x = ds[k as int]->Numbers_0[0];
        assert(ds[k as int]->Numbers_0 =~= seq![x]);
        assert(enums_accepted(aux, e, ds[k as int]));
        assert(numbers_of(ds[k as int])[0] == x);
        lemma_enum_field_at(aux_enum(aux, e), e, x, mk[k as int], u, keeps, depth, pre, rest);
        WIRE_VARINT
    } else if packed_round_trips(e, ds[k as int]) {
        let vs = ds[k as int]->Numbers_0;
        assert(fresh_for(e, ds0[k as int]));
        assert(mk[k as int] == ds0[k as int]);
        lemma_packed_field_at(aux_enum(aux, e), e, vs, mk[k as int], u, keeps, depth, pre, rest);
        assert(numbers_of(mk[k as int]) + vs =~= vs);
        WIRE_LEN
    } else if scalar_round_trips(e, ds[k as int]) {
        let x = ds[k as int]->Numbers_0[0];
        assert(ds[k as int]->Numbers_0 =~= seq![x]);
        lemma_scalar_field_at(aux_enum(aux, e), e, x, mk[k as int], u, keeps, depth, pre, rest);
        scalar_wire(kind_family(e.kind)->Scalar_0)
    } else {
        let b = ds[k as int]->Texts_0[0];
        assert(ds[k as int]->Texts_0 =~= seq![b]);
        lemma_text_field_at(aux_enum(aux, e), e, b, mk[k as int], u, keeps, depth, pre, rest);
        WIRE_LEN
    };
    assert(spec_merge_field(
        es,
        aux,
        keeps,
        mk,
        u,
        e.number() as u32,
        w,
        s,
        (pre.len() + tl) as int,
        depth,
    ) == Ok::<(Seq<FieldDataView>, Seq<u8>, int), DecodeError>(
        (next_ds, u, (pre.len() + fbk.len()) as int),
    ));
    (e.number() as u32, w)
}

/// Reading from the `k`-th field on gives the written fields back.
#[verifier::rlimit(60)]
#[verifier::spinoff_prover]
proof fn lemma_round_trip_from(
    es: Seq<Entry>,
    aux: Seq<Aux>,
    keeps: bool,
    ds: Seq<FieldDataView>,
    ds0: Seq<FieldDataView>,
    u: Seq<u8>,
    depth: nat,
    tail: Seq<u8>,
    after: (Seq<FieldDataView>, Seq<u8>),
    k: nat,
)
    requires
        numbers_increasing(es),
        spec_merge_from(
            es,
            aux,
            keeps,
            ds,
            u,
            fields_bytes(es, ds, es.len()) + tail,
            fields_bytes(es, ds, es.len()).len() as int,
            depth,
        ) == Ok::<(Seq<FieldDataView>, Seq<u8>), DecodeError>(after),
        ds.len() == es.len(),
        ds0.len() == es.len(),
        forall|j: int| 0 <= j < es.len() ==> #[trigger] round_trips(es[j]@, ds[j]),
        forall|j: int| 0 <= j < es.len() ==> #[trigger] fresh_for(es[j]@, ds0[j]),
        forall|j: int| 0 <= j < es.len() ==> #[trigger] children_decode(aux, es[j]@, ds[j], depth),
        forall|j: int| 0 <= j < es.len() ==> #[trigger] enums_accepted(aux, es[j]@, ds[j]),
        forall|j: int| 0 <= j < es.len() ==> #[trigger] maps_decode(aux, es[j]@, ds[j], depth),
        forall|j: int| 0 <= j < es.len() ==> #[trigger] members_decode(es, aux, j, ds[j], depth),
        forall|j: int|
            0 <= j < es.len() && #[trigger] field_bytes(es[j]@, ds[j]).len() == 0 ==> ds0[j] == ds[j],
        k <= es.len(),
    ensures
        spec_merge_from(
            es,
            aux,
            keeps,
            fields_mixed(ds, ds0, k as int),
            u,
            fields_bytes(es, ds, es.len()) + tail,
            fields_bytes(es, ds, k).len() as int,
            depth,
        ) == Ok::<(Seq<FieldDataView>, Seq<u8>), DecodeError>(after),
    decreases es.len() - k, if k < es.len() {
        numbers_of(ds[k as int]).len() + texts_of(ds[k as int]).len() + children_of(
            ds[k as int],
        ).len() + entries_of(ds[k as int]).len() + 1
    } else {
        0
    },
{
    let n = es.len();
    let s0 = fields_bytes(es, ds, n);
    let s = s0 + tail;
    let mk = fields_mixed(ds, ds0, k as int);
    lemma_fields_bytes_prefix(es, ds, k, n);
    if k == n {
        assert(mk =~= ds);
    } else {
        let e = es[k as int]@;
        assert(round_trips(e, ds[k as int]));
        if field_bytes(e, ds[k as int]).len() == 0 {
            lemma_fields_bytes_prefix(es, ds, (k + 1) as nat, n);
            assert(fields_bytes(es, ds, (k + 1) as nat) =~= fields_bytes(es, ds, k));
            assert(ds0[k as int] == ds[k as int]);
            assert(fields_mixed(ds, ds0, (k + 1) as int) =~= mk);
            lemma_round_trip_from(es, aux, keeps, ds, ds0, u, depth, tail, after, (k + 1) as nat);
            return;
        }
        if repeated_numbers(e, ds[k as int]) {
            let vs = ds[k as int]->Numbers_0;
            let t = value_type(e);
            assert(vs.take(0) =~= Seq::<u64>::empty());
            assert(tagged_bytes(e.tag, t, Seq::<u64>::empty()) == Seq::<u8>::empty());
            assert(fields_at(ds, ds0, k as int, ds0[k as int]) =~= mk);
            lemma_repeated_from(es, aux, keeps, ds, ds0, u, depth, tail, after, k, 0);
            return;
        }
        if repeated_text_round_trips(e, ds[k as int]) {
            let items = ds[k as int]->Texts_0;
            assert(items.take(0) =~= Seq::<Seq<u8>>::empty());
            assert(len_fields_bytes(e.tag, Seq::<Seq<u8>>::empty()) == Seq::<u8>::empty());
            assert(fields_at(ds, ds0, k as int, ds0[k as int]) =~= mk);
            lemma_repeated_texts_from(es, aux, keeps, ds, ds0, u, depth, tail, after, k, 0);
            return;
        }
        if msg_round_trips(e, ds[k as int]) {
            let cs = ds[k as int]->Children_0;
            assert(cs.take(0) =~= Seq::<Seq<u8>>::empty());
            assert(len_fields_bytes(e.tag, Seq::<Seq<u8>>::empty()) == Seq::<u8>::empty());
            assert(fields_at(ds, ds0, k as int, ds0[k as int]) =~= mk);
            lemma_children_from(es, aux, keeps, ds, ds0, u, depth, tail, after, k, 0);
            return;
        }
        if map_round_trips(e, ds[k as int]) {
            let ms = ds[k as int]->Entries_0;
            assert(entry_records(ms).take(0) =~= Seq::<Seq<u8>>::empty());
            assert(len_fields_bytes(e.tag, Seq::<Seq<u8>>::empty()) == Seq::<u8>::empty());
            assert(fields_at(ds, ds0, k as int, ds0[k as int]) =~= mk);
            lemma_entries_from(es, aux, keeps, ds, ds0, u, depth, tail, after, k, 0);
            return;
        }
        let fw = lemma_single_field(es, aux, keeps, ds, ds0, u, depth, tail, k);
        lemma_fields_bytes_prefix(es, ds, (k + 1) as nat, n);
        lemma_round_trip_from(es, aux, keeps, ds, ds0, u, depth, tail, after, (k + 1) as nat);
    }
}

/// Where the values of a repeated field at entry `k` stand in the bytes
/// of a message: the first `j` end where the next value, after its tag,
/// begins; all of them end where the field does.
#[verifier::rlimit(40)]
#[verifier::spinoff_prover]
proof fn lemma_repeated_layout(es: Seq<Entry>, ds: Seq<FieldDataView>, k: nat, j: nat)
    requires
        ds.len() == es.len(),
        k < es.len(),
        repeated_numbers(es[k as int]@, ds[k as int]),
        j <= numbers_of(ds[k as int]).len(),
    ensures
        ({
            let e = es[k as int]@;
            let vs = numbers_of(ds[k as int]);
            let t = value_type(e);
            let s = fields_bytes(es, ds, es.len());
            let p = fields_bytes(es, ds, k) + tagged_bytes(e.tag, t, vs.take(j as int));
            &&& p.len() <= s.len()
            &&& j == vs.len() ==> p.len() == fields_bytes(es, ds, (k + 1) as nat).len()
            &&& j < vs.len() ==> {
                let vb = varint_bytes(e.tag as nat) + value_bytes(t, vs[j as int]);
                &&& p.len() + vb.len() <= s.len()
                &&& s == p + vb + s.subrange((p.len() + vb.len()) as int, s.len() as int)
            }
        }),
{
    let n = es.len();
    let e = es[k as int]@;
    let vs = numbers_of(ds[k as int]);
    let t = value_type(e);
    let s = fields_bytes(es, ds, n);
    let pre = fields_bytes(es, ds, k);
    lemma_fields_bytes_prefix(es, ds, (k + 1) as nat, n);
    let fbk = field_bytes(e, ds[k as int]);
    assert(fields_bytes(es, ds, (k + 1) as nat) == pre + fbk);
    assert(fbk == tagged_bytes(e.tag, t, vs));
    lemma_tagged_prefix(e.tag, t, vs, j as int);
    let after = s.subrange((pre.len() + fbk.len()) as int, s.len() as int);
    assert(s =~= pre + fbk + after);
    if j == vs.len() {
        assert(vs.take(j as int) =~= vs);
    } else {
        lemma_tagged_prefix(e.tag, t, vs, j + 1int);
        let x = vs[j as int];
        assert(vs.take(j + 1int).drop_last() =~= vs.take(j as int));
        assert(vs.take(j + 1int).last() == x);
        let tj = tagged_bytes(e.tag, t, vs.take(j as int));
        let vb = varint_bytes(e.tag as nat) + value_bytes(t, x);
        assert(tagged_bytes(e.tag, t, vs.take(j + 1int)) == tj + vb);
        let tail = fbk.subrange((tj.len() + vb.len()) as int, fbk.len() as int);
        assert(fbk =~= tj + vb + tail);
        let p = pre + tj;
        assert(s =~= p + vb + (tail + after));
        assert(s.subrange((p.len() + vb.len()) as int, s.len() as int) =~= tail + after);
    }
}

/// The values of a repeated field at entry `k` read back one occurrence at
/// a time: from the end of the first `j`, with those `j` held at `k`, the
/// rest of the message reads back as `ds`.
#[verifier::rlimit(80)]
#[verifier::spinoff_prover]
proof fn lemma_repeated_from(
    es: Seq<Entry>,
    aux: Seq<Aux>,
    keeps: bool,
    ds: Seq<FieldDataView>,
    ds0: Seq<FieldDataView>,
    u: Seq<u8>,
    depth: nat,
    tail: Seq<u8>,
    after: (Seq<FieldDataView>, Seq<u8>),
    k: nat,
    j: nat,
)
    requires
        numbers_increasing(es),
        spec_merge_from(
            es,
            aux,
            keeps,
            ds,
            u,
            fields_bytes(es, ds, es.len()) + tail,
            fields_bytes(es, ds, es.len()).len() as int,
            depth,
        ) == Ok::<(Seq<FieldDataView>, Seq<u8>), DecodeError>(after),
        ds.len() == es.len(),
        ds0.len() == es.len(),
        forall|i: int| 0 <= i < es.len() ==> #[trigger] round_trips(es[i]@, ds[i]),
        forall|i: int| 0 <= i < es.len() ==> #[trigger] fresh_for(es[i]@, ds0[i]),
        forall|i: int| 0 <= i < es.len() ==> #[trigger] children_decode(aux, es[i]@, ds[i], depth),
        forall|i: int| 0 <= i < es.len() ==> #[trigger] enums_accepted(aux, es[i]@, ds[i]),
        forall|i: int| 0 <= i < es.len() ==> #[trigger] maps_decode(aux, es[i]@, ds[i], depth),
        forall|i: int| 0 <= i < es.len() ==> #[trigger] members_decode(es, aux, i, ds[i], depth),
        forall|i: int|
            0 <= i < es.len() && #[trigger] field_bytes(es[i]@, ds[i]).len() == 0 ==> ds0[i] == ds[i],
        k < es.len(),
        repeated_numbers(es[k as int]@, ds[k as int]),
        j <= numbers_of(ds[k as int]).len(),
    ensures
        ({
            let e = es[k as int]@;
            let vs = numbers_of(ds[k as int]);
            let t = value_type(e);
            let dk = if j == 0 {
                ds0[k as int]
            } else {
                FieldDataView::Numbers(vs.take(j as int))
            };
            spec_merge_from(
                es,
                aux,
                keeps,
                fields_at(ds, ds0, k as int, dk),
                u,
                fields_bytes(es, ds, es.len()) + tail,
                (fields_bytes(es, ds, k).len() + tagged_bytes(e.tag, t, vs.take(j as int)).len()) as int,
                depth,
            ) == Ok::<(Seq<FieldDataView>, Seq<u8>), DecodeError>(after)
        }),
    decreases es.len() - k, numbers_of(ds[k as int]).len() - j,
{
    let e = es[k as int]@;
    assert(round_trips(e, ds[k as int]));
    assert(fresh_for(e, ds0[k as int]));
    let vs = numbers_of(ds[k as int]);
    let t = value_type(e);
    let s0 = fields_bytes(es, ds, es.len());
    let s = s0 + tail;
    let dk = if j == 0 {
        ds0[k as int]
    } else {
        FieldDataView::Numbers(vs.take(j as int))
    };
    let mk = fields_at(ds, ds0, k as int, dk);
    let p = fields_bytes(es, ds, k) + tagged_bytes(e.tag, t, vs.take(j as int));
    lemma_repeated_layout(es, ds, k, j);
    if j == vs.len() {
        assert(vs.take(j as int) =~= vs);
        assert(dk == ds[k as int]);
        assert(mk =~= fields_mixed(ds, ds0, (k + 1) as int));
        lemma_round_trip_from(es, aux, keeps, ds, ds0, u, depth, tail, after, (k + 1) as nat);
    } else {
        let x = vs[j as int];
        assert(bits_kept(t, x));
        let vb = varint_bytes(e.tag as nat) + value_bytes(t, x);
        let rest = s.subrange((p.len() + vb.len()) as int, s.len() as int);
        assert(s =~= p + vb + rest);
        assert(numbers_of(dk) =~= vs.take(j as int));
        if kind_family(e.kind) == Family::Enum {
            assert(enums_accepted(aux, e, ds[k as int]));
            assert(enum_accepts(aux_enum(aux, e), vs[j as int] as i32));
            lemma_repeated_enum_at(aux_enum(aux, e), e, x, dk, u, keeps, depth, p, rest);
        } else {
            lemma_repeated_value_at(aux_enum(aux, e), e, x, dk, u, keeps, depth, p, rest);
        }
        lemma_entry_index_of(es, k as int);
        let tl = varint_len(e.tag as nat);
        let next_dk = FieldDataView::Numbers(vs.take(j + 1int));
        assert(vs.take(j as int).push(x) =~= vs.take(j + 1int));
        assert(mk[k as int] == dk);
        assert(mk.update(k as int, next_dk) =~= fields_at(ds, ds0, k as int, next_dk));
        assert(spec_merge_field(
            es,
            aux,
            keeps,
            mk,
            u,
            e.number() as u32,
            scalar_wire(t),
            s,
            (p.len() + tl) as int,
            depth,
        ) == Ok::<(Seq<FieldDataView>, Seq<u8>, int), DecodeError>(
            (fields_at(ds, ds0, k as int, next_dk), u, (p.len() + vb.len()) as int),
        ));
        lemma_tagged_prefix(e.tag, t, vs, j + 1int);
        assert(vs.take(j + 1int).drop_last() =~= vs.take(j as int));
        assert(tagged_bytes(e.tag, t, vs.take(j + 1int)).len() == tagged_bytes(
            e.tag,
            t,
            vs.take(j as int),
        ).len() + vb.len());
        lemma_repeated_from(es, aux, keeps, ds, ds0, u, depth, tail, after, k, j + 1);
    }
}

/// Where the items of a repeated string or bytes field at entry `k` stand
/// in the bytes of a message: the first `j` end where the next item, after
/// its tag, begins; all of them end where the field does.
#[verifier::rlimit(40)]
#[verifier::spinoff_prover]
proof fn lemma_repeated_texts_layout(es: Seq<Entry>, ds: Seq<FieldDataView>, k: nat, j: nat)
    requires
        ds.len() == es.len(),
        k < es.len(),
        repeated_text_round_trips(es[k as int]@, ds[k as int]),
        j <= texts_of(ds[k as int]).len(),
    ensures
        ({
            let e = es[k as int]@;
            let items = texts_of(ds[k as int]);
            let s = fields_bytes(es, ds, es.len());
            let p = fields_bytes(es, ds, k) + len_fields_bytes(e.tag, items.take(j as int));
            &&& p.len() <= s.len()
            &&& j == items.len() ==> p.len() == fields_bytes(es, ds, (k + 1) as nat).len()
            &&& j < items.len() ==> {
                let fb = len_field_bytes(e.tag, items[j as int]);
                &&& p.len() + fb.len() <= s.len()
                &&& s == p + fb + s.subrange((p.len() + fb.len()) as int, s.len() as int)
            }
        }),
{
    let n = es.len();
    let e = es[k as int]@;
    let items = texts_of(ds[k as int]);
    let s = fields_bytes(es, ds, n);
    let pre = fields_bytes(es, ds, k);
    lemma_fields_bytes_prefix(es, ds, (k + 1) as nat, n);
    let fbk = field_bytes(e, ds[k as int]);
    assert(fields_bytes(es, ds, (k + 1) as nat) == pre + fbk);
    assert(fbk == len_fields_bytes(e.tag, items));
    lemma_len_fields_prefix(e.tag, items, j as int);
    let after = s.subrange((pre.len() + fbk.len()) as int, s.len() as int);
    assert(s =~= pre + fbk + after);
    if j == items.len() {
        assert(items.take(j as int) =~= items);
    } else {
        lemma_len_fields_prefix(e.tag, items, j + 1int);
        let b = items[j as int];
        assert(items.take(j + 1int).drop_last() =~= items.take(j as int));
        assert(items.take(j + 1int).last() == b);
        let tj = len_fields_bytes(e.tag, items.take(j as int));
        let fb = len_field_bytes(e.tag, b);
        assert(len_fields_bytes(e.tag, items.take(j + 1int)) == tj + fb);
        let tail = fbk.subrange((tj.len() + fb.len()) as int, fbk.len() as int);
        assert(fbk =~= tj + fb + tail);
        let p = pre + tj;
        assert(s =~= p + fb + (tail + after));
        assert(s.subrange((p.len() + fb.len()) as int, s.len() as int) =~= tail + after);
    }
}

/// The items of a repeated string or bytes field at entry `k` read back one
/// occurrence at a time: from the end of the first `j`, with those `j` held
/// at `k`, the rest of the message reads back as `ds`.
#[verifier::rlimit(80)]
#[verifier::spinoff_prover]
proof fn lemma_repeated_texts_from(
    es: Seq<Entry>,
    aux: Seq<Aux>,
    keeps: bool,
    ds: Seq<FieldDataView>,
    ds0: Seq<FieldDataView>,
    u: Seq<u8>,
    depth: nat,
    tail: Seq<u8>,
    after: (Seq<FieldDataView>, Seq<u8>),
    k: nat,
    j: nat,
)
    requires
        numbers_increasing(es),
        spec_merge_from(
            es,
            aux,
            keeps,
            ds,
            u,
            fields_bytes(es, ds, es.len()) + tail,
            fields_bytes(es, ds, es.len()).len() as int,
            depth,
        ) == Ok::<(Seq<FieldDataView>, Seq<u8>), DecodeError>(after),
        ds.len() == es.len(),
        ds0.len() == es.len(),
        forall|i: int| 0 <= i < es.len() ==> #[trigger] round_trips(es[i]@, ds[i]),
        forall|i: int| 0 <= i < es.len() ==> #[trigger] fresh_for(es[i]@, ds0[i]),
        forall|i: int| 0 <= i < es.len() ==> #[trigger] children_decode(aux, es[i]@, ds[i], depth),
        forall|i: int| 0 <= i < es.len() ==> #[trigger] enums_accepted(aux, es[i]@, ds[i]),
        forall|i: int| 0 <= i < es.len() ==> #[trigger] maps_decode(aux, es[i]@, ds[i], depth),
        forall|i: int| 0 <= i < es.len() ==> #[trigger] members_decode(es, aux, i, ds[i], depth),
        forall|i: int|
            0 <= i < es.len() && #[trigger] field_bytes(es[i]@, ds[i]).len() == 0 ==> ds0[i] == ds[i],
        k < es.len(),
        repeated_text_round_trips(es[k as int]@, ds[k as int]),
        j <= texts_of(ds[k as int]).len(),
    ensures
        ({
            let e = es[k as int]@;
            let items = texts_of(ds[k as int]);
            let dk = if j == 0 {
                ds0[k as int]
            } else {
                FieldDataView::Texts(items.take(j as int))
            };
            spec_merge_from(
                es,
                aux,
                keeps,
                fields_at(ds, ds0, k as int, dk),
                u,
                fields_bytes(es, ds, es.len()) + tail,
                (fields_bytes(es, ds, k).len() + len_fields_bytes(e.tag, items.take(j as int)).len()) as int,
                depth,
            ) == Ok::<(Seq<FieldDataView>, Seq<u8>), DecodeError>(after)
        }),
    decreases es.len() - k, texts_of(ds[k as int]).len() - j,
{
    let e = es[k as int]@;
    assert(round_trips(e, ds[k as int]));
    assert(fresh_for(e, ds0[k as int]));
    let items = texts_of(ds[k as int]);
    let s0 = fields_bytes(es, ds, es.len());
    let s = s0 + tail;
    let dk = if j == 0 {
        ds0[k as int]
    } else {
        FieldDataView::Texts(items.take(j as int))
    };
    let mk = fields_at(ds, ds0, k as int, dk);
    let p = fields_bytes(es, ds, k) + len_fields_bytes(e.tag, items.take(j as int));
    lemma_repeated_texts_layout(es, ds, k, j);
    if j == items.len() {
        assert(items.take(j as int) =~= items);
        assert(dk == ds[k as int]);
        assert(mk =~= fields_mixed(ds, ds0, (k + 1) as int));
        lemma_round_trip_from(es, aux, keeps, ds, ds0, u, depth, tail, after, (k + 1) as nat);
    } else {
        let b = items[j as int];
        let fb = len_field_bytes(e.tag, b);
        let rest = s.subrange((p.len() + fb.len()) as int, s.len() as int);
        assert(s =~= p + fb + rest);
        assert(texts_of(dk) =~= items.take(j as int));
        lemma_repeated_text_at(aux_enum(aux, e), e, b, dk, u, keeps, depth, p, rest);
        lemma_entry_index_of(es, k as int);
        let tl = varint_len(e.tag as nat);
        let next_dk = FieldDataView::Texts(items.take(j + 1int));
        assert(items.take(j as int).push(b) =~= items.take(j + 1int));
        assert(mk[k as int] == dk);
        assert(mk.update(k as int, next_dk) =~= fields_at(ds, ds0, k as int, next_dk));
        assert(spec_merge_field(
            es,
            aux,
            keeps,
            mk,
            u,
            e.number() as u32,
            WIRE_LEN,
            s,
            (p.len() + tl) as int,
            depth,
        ) == Ok::<(Seq<FieldDataView>, Seq<u8>, int), DecodeError>(
            (fields_at(ds, ds0, k as int, next_dk), u, (p.len() + fb.len()) as int),
        ));
        lemma_len_fields_prefix(e.tag, items, j + 1int);
        assert(items.take(j + 1int).drop_last() =~= items.take(j as int));
        assert(items.take(j + 1int).last() == b);
        assert(len_fields_bytes(e.tag, items.take(j + 1int)).len() == len_fields_bytes(
            e.tag,
            items.take(j as int),
        ).len() + fb.len());
        lemma_repeated_texts_from(es, aux, keeps, ds, ds0, u, depth, tail, after, k, j + 1);
    }
}

/// Where the values of a message field at entry `k` stand in the bytes of
/// a message: the first `j` end where the next item, after
/// its tag, begins; all of them end where the field does.
#[verifier::rlimit(40)]
#[verifier::spinoff_prover]
proof fn lemma_children_layout(es: Seq<Entry>, ds: Seq<FieldDataView>, k: nat, j: nat)
    requires
        ds.len() == es.len(),
        k < es.len(),
        msg_round_trips(es[k as int]@, ds[k as int]),
        j <= children_of(ds[k as int]).len(),
    ensures
        ({
            let e = es[k as int]@;
            let items = children_of(ds[k as int]);
            let s = fields_bytes(es, ds, es.len());
            let p = fields_bytes(es, ds, k) + len_fields_bytes(e.tag, items.take(j as int));
            &&& p.len() <= s.len()
            &&& j == items.len() ==> p.len() == fields_bytes(es, ds, (k + 1) as nat).len()
            &&& j < items.len() ==> {
                let fb = len_field_bytes(e.tag, items[j as int]);
                &&& p.len() + fb.len() <= s.len()
                &&& s == p + fb + s.subrange((p.len() + fb.len()) as int, s.len() as int)
            }
        }),
{
    let n = es.len();
    let e = es[k as int]@;
    let items = children_of(ds[k as int]);
    let s = fields_bytes(es, ds, n);
    let pre = fields_bytes(es, ds, k);
    lemma_fields_bytes_prefix(es, ds, (k + 1) as nat, n);
    let fbk = field_bytes(e, ds[k as int]);
    assert(fields_bytes(es, ds, (k + 1) as nat) == pre + fbk);
    assert(fbk == len_fields_bytes(e.tag, items));
    lemma_len_fields_prefix(e.tag, items, j as int);
    let after = s.subrange((pre.len() + fbk.len()) as int, s.len() as int);
    assert(s =~= pre + fbk + after);
    if j == items.len() {
        assert(items.take(j as int) =~= items);
    } else {
        lemma_len_fields_prefix(e.tag, items, j + 1int);
        let b = items[j as int];
        assert(items.take(j + 1int).drop_last() =~= items.take(j as int));
        assert(items.take(j + 1int).last() == b);
        let tj = len_fields_bytes(e.tag, items.take(j as int));
        let fb = len_field_bytes(e.tag, b);
        assert(len_fields_bytes(e.tag, items.take(j + 1int)) == tj + fb);
        let tail = fbk.subrange((tj.len() + fb.len()) as int, fbk.len() as int);
        assert(fbk =~= tj + fb + tail);
        let p = pre + tj;
        assert(s =~= p + fb + (tail + after));
        assert(s.subrange((p.len() + fb.len()) as int, s.len() as int) =~= tail + after);
    }
}

/// The values of a message field at entry `k` read back one occurrence at
/// a time: from the end of the first `j`, with those `j` held
/// at `k`, the rest of the message reads back as `ds`.
#[verifier::rlimit(80)]
#[verifier::spinoff_prover]
proof fn lemma_children_from(
    es: Seq<Entry>,
    aux: Seq<Aux>,
    keeps: bool,
    ds: Seq<FieldDataView>,
    ds0: Seq<FieldDataView>,
    u: Seq<u8>,
    depth: nat,
    tail: Seq<u8>,
    after: (Seq<FieldDataView>, Seq<u8>),
    k: nat,
    j: nat,
)
    requires
        numbers_increasing(es),
        spec_merge_from(
            es,
            aux,
            keeps,
            ds,
            u,
            fields_bytes(es, ds, es.len()) + tail,
            fields_bytes(es, ds, es.len()).len() as int,
            depth,
        ) == Ok::<(Seq<FieldDataView>, Seq<u8>), DecodeError>(after),
        ds.len() == es.len(),
        ds0.len() == es.len(),
        forall|i: int| 0 <= i < es.len() ==> #[trigger] round_trips(es[i]@, ds[i]),
        forall|i: int| 0 <= i < es.len() ==> #[trigger] fresh_for(es[i]@, ds0[i]),
        forall|i: int| 0 <= i < es.len() ==> #[trigger] children_decode(aux, es[i]@, ds[i], depth),
        forall|i: int| 0 <= i < es.len() ==> #[trigger] enums_accepted(aux, es[i]@, ds[i]),
        forall|i: int| 0 <= i < es.len() ==> #[trigger] maps_decode(aux, es[i]@, ds[i], depth),
        forall|i: int| 0 <= i < es.len() ==> #[trigger] members_decode(es, aux, i, ds[i], depth),
        forall|i: int|
            0 <= i < es.len() && #[trigger] field_bytes(es[i]@, ds[i]).len() == 0 ==> ds0[i] == ds[i],
        k < es.len(),
        msg_round_trips(es[k as int]@, ds[k as int]),
        j <= children_of(ds[k as int]).len(),
    ensures
        ({
            let e = es[k as int]@;
            let items = children_of(ds[k as int]);
            let dk = if j == 0 {
                ds0[k as int]
            } else {
                FieldDataView::Children(items.take(j as int))
            };
            spec_merge_from(
                es,
                aux,
                keeps,
                fields_at(ds, ds0, k as int, dk),
                u,
                fields_bytes(es, ds, es.len()) + tail,
                (fields_bytes(es, ds, k).len() + len_fields_bytes(e.tag, items.take(j as int)).len()) as int,
                depth,
            ) == Ok::<(Seq<FieldDataView>, Seq<u8>), DecodeError>(after)
        }),
    decreases es.len() - k, children_of(ds[k as int]).len() - j,
{
    let e = es[k as int]@;
    assert(round_trips(e, ds[k as int]));
    assert(fresh_for(e, ds0[k as int]));
    let items = children_of(ds[k as int]);
    let s0 = fields_bytes(es, ds, es.len());
    let s = s0 + tail;
    let dk = if j == 0 {
        ds0[k as int]
    } else {
        FieldDataView::Children(items.take(j as int))
    };
    let mk = fields_at(ds, ds0, k as int, dk);
    let p = fields_bytes(es, ds, k) + len_fields_bytes(e.tag, items.take(j as int));
    lemma_children_layout(es, ds, k, j);
    if j == items.len() {
        assert(items.take(j as int) =~= items);
        assert(dk == ds[k as int]);
        assert(mk =~= fields_mixed(ds, ds0, (k + 1) as int));
        lemma_round_trip_from(es, aux, keeps, ds, ds0, u, depth, tail, after, (k + 1) as nat);
    } else {
        let b = items[j as int];
        let fb = len_field_bytes(e.tag, b);
        let rest = s.subrange((p.len() + fb.len()) as int, s.len() as int);
        assert(s =~= p + fb + rest);
        assert(children_of(dk) =~= items.take(j as int));
        assert(children_decode(aux, e, ds[k as int], depth));
        assert(b.len() <= MAX_MESSAGE_BYTES);
        lemma_child_at(aux_enum(aux, e), e, b, dk, u, keeps, depth, p, rest);
        lemma_entry_index_of(es, k as int);
        let tl = varint_len(e.tag as nat);
        let next_dk = FieldDataView::Children(items.take(j + 1int));
        assert(items.take(j as int).push(b) =~= items.take(j + 1int));
        assert(mk[k as int] == dk);
        assert(mk.update(k as int, next_dk) =~= fields_at(ds, ds0, k as int, next_dk));
        assert(spec_merge_field(
            es,
            aux,
            keeps,
            mk,
            u,
            e.number() as u32,
            WIRE_LEN,
            s,
            (p.len() + tl) as int,
            depth,
        ) == Ok::<(Seq<FieldDataView>, Seq<u8>, int), DecodeError>(
            (fields_at(ds, ds0, k as int, next_dk), u, (p.len() + fb.len()) as int),
        ));
        lemma_len_fields_prefix(e.tag, items, j + 1int);
        assert(items.take(j + 1int).drop_last() =~= items.take(j as int));
        assert(items.take(j + 1int).last() == b);
        assert(len_fields_bytes(e.tag, items.take(j + 1int)).len() == len_fields_bytes(
            e.tag,
            items.take(j as int),
        ).len() + fb.len());
        lemma_children_from(es, aux, keeps, ds, ds0, u, depth, tail, after, k, j + 1);
    }
}

/// Where the entries of a map field at entry `k` stand in the bytes of a
/// message: the records of the first `j` end where the next record, after
/// its tag, begins; all of them end where the field does.
#[verifier::rlimit(40)]
#[verifier::spinoff_prover]
proof fn lemma_entries_layout(es: Seq<Entry>, ds: Seq<FieldDataView>, k: nat, j: nat)
    requires
        ds.len() == es.len(),
        k < es.len(),
        map_round_trips(es[k as int]@, ds[k as int]),
        j <= entries_of(ds[k as int]).len(),
    ensures
        ({
            let e = es[k as int]@;
            let items = entry_records(entries_of(ds[k as int]));
            let s = fields_bytes(es, ds, es.len());
            let p = fields_bytes(es, ds, k) + len_fields_bytes(e.tag, items.take(j as int));
            &&& p.len() <= s.len()
            &&& j == items.len() ==> p.len() == fields_bytes(es, ds, (k + 1) as nat).len()
            &&& j < items.len() ==> {
                let fb = len_field_bytes(e.tag, items[j as int]);
                &&& p.len() + fb.len() <= s.len()
                &&& s == p + fb + s.subrange((p.len() + fb.len()) as int, s.len() as int)
            }
        }),
{
    let n = es.len();
    let e = es[k as int]@;
    let items = entry_records(entries_of(ds[k as int]));
    let s = fields_bytes(es, ds, n);
    let pre = fields_bytes(es, ds, k);
    lemma_fields_bytes_prefix(es, ds, (k + 1) as nat, n);
    let fbk = field_bytes(e, ds[k as int]);
    assert(fields_bytes(es, ds, (k + 1) as nat) == pre + fbk);
    assert(fbk == len_fields_bytes(e.tag, items));
    lemma_len_fields_prefix(e.tag, items, j as int);
    let after = s.subrange((pre.len() + fbk.len()) as int, s.len() as int);
    assert(s =~= pre + fbk + after);
    if j == items.len() {
        assert(items.take(j as int) =~= items);
    } else {
        lemma_len_fields_prefix(e.tag, items, j + 1int);
        let b = items[j as int];
        assert(items.take(j + 1int).drop_last() =~= items.take(j as int));
        assert(items.take(j + 1int).last() == b);
        let tj = len_fields_bytes(e.tag, items.take(j as int));
        let fb = len_field_bytes(e.tag, b);
        assert(len_fields_bytes(e.tag, items.take(j + 1int)) == tj + fb);
        let tail = fbk.subrange((tj.len() + fb.len()) as int, fbk.len() as int);
        assert(fbk =~= tj + fb + tail);
        let p = pre + tj;
        assert(s =~= p + fb + (tail + after));
        assert(s.subrange((p.len() + fb.len()) as int, s.len() as int) =~= tail + after);
    }
}

/// The entries of a map field at entry `k` read back one occurrence at a
/// time: from the end of the first `j`, with those `j` held at `k`, the
/// rest of the message reads back as `ds`.
#[verifier::rlimit(80)]
#[verifier::spinoff_prover]
proof fn lemma_entries_from(
    es: Seq<Entry>,
    aux: Seq<Aux>,
    keeps: bool,
    ds: Seq<FieldDataView>,
    ds0: Seq<FieldDataView>,
    u: Seq<u8>,
    depth: nat,
    tail: Seq<u8>,
    after: (Seq<FieldDataView>, Seq<u8>),
    k: nat,
    j: nat,
)
    requires
        numbers_increasing(es),
        spec_merge_from(
            es,
            aux,
            keeps,
            ds,
            u,
            fields_bytes(es, ds, es.len()) + tail,
            fields_bytes(es, ds, es.len()).len() as int,
            depth,
        ) == Ok::<(Seq<FieldDataView>, Seq<u8>), DecodeError>(after),
        ds.len() == es.len(),
        ds0.len() == es.len(),
        forall|i: int| 0 <= i < es.len() ==> #[trigger] round_trips(es[i]@, ds[i]),
        forall|i: int| 0 <= i < es.len() ==> #[trigger] fresh_for(es[i]@, ds0[i]),
        forall|i: int| 0 <= i < es.len() ==> #[trigger] children_decode(aux, es[i]@, ds[i], depth),
        forall|i: int| 0 <= i < es.len() ==> #[trigger] enums_accepted(aux, es[i]@, ds[i]),
        forall|i: int| 0 <= i < es.len() ==> #[trigger] maps_decode(aux, es[i]@, ds[i], depth),
        forall|i: int| 0 <= i < es.len() ==> #[trigger] members_decode(es, aux, i, ds[i], depth),
        forall|i: int|
            0 <= i < es.len() && #[trigger] field_bytes(es[i]@, ds[i]).len() == 0 ==> ds0[i] == ds[i],
        k < es.len(),
        map_round_trips(es[k as int]@, ds[k as int]),
        j <= entries_of(ds[k as int]).len(),
    ensures
        ({
            let e = es[k as int]@;
            let ms = entries_of(ds[k as int]);
            let dk = if j == 0 {
                ds0[k as int]
            } else {
                FieldDataView::Entries(ms.take(j as int))
            };
            spec_merge_from(
                es,
                aux,
                keeps,
                fields_at(ds, ds0, k as int, dk),
                u,
                fields_bytes(es, ds, es.len()) + tail,
                (fields_bytes(es, ds, k).len() + len_fields_bytes(e.tag, entry_records(ms).take(j as int)).len()) as int,
                depth,
            ) == Ok::<(Seq<FieldDataView>, Seq<u8>), DecodeError>(after)
        }),
    decreases es.len() - k, entries_of(ds[k as int]).len() - j,
{
    let e = es[k as int]@;
    assert(round_trips(e, ds[k as int]));
    assert(fresh_for(e, ds0[k as int]));
    assert(maps_decode(aux, e, ds[k as int], depth));
    let ms = entries_of(ds[k as int]);
    let items = entry_records(ms);
    let s0 = fields_bytes(es, ds, es.len());
    let s = s0 + tail;
    let dk = if j == 0 {
        ds0[k as int]
    } else {
        FieldDataView::Entries(ms.take(j as int))
    };
    let mk = fields_at(ds, ds0, k as int, dk);
    let p = fields_bytes(es, ds, k) + len_fields_bytes(e.tag, items.take(j as int));
    lemma_entries_layout(es, ds, k, j);
    if j == ms.len() {
        assert(ms.take(j as int) =~= ms);
        assert(dk == ds[k as int]);
        assert(mk =~= fields_mixed(ds, ds0, (k + 1) as int));
        lemma_round_trip_from(es, aux, keeps, ds, ds0, u, depth, tail, after, (k + 1) as nat);
    } else {
        let kv = ms[j as int];
        let mvt = *(aux[e.aux as int]->MapField_0);
        assert(entry_reads_back(mvt, kv, depth));
        let fb = len_field_bytes(e.tag, entry_record(kv));
        assert(items[j as int] == entry_record(kv));
        let rest = s.subrange((p.len() + fb.len()) as int, s.len() as int);
        assert(s =~= p + fb + rest);
        assert(entries_of(dk) =~= ms.take(j as int));
        assert forall|m: int| 0 <= m < ms.take(j as int).len() implies #[trigger] ms.take(j as int)[m].0
            != kv.0 by {
            assert(ms.take(j as int)[m] == ms[m]);
            assert(ms[m].0 != ms[j as int].0);
        }
        lemma_key_absent(ms.take(j as int), kv.0, 0);
        lemma_map_entry_at(mvt, e, k as int, mk, u, keeps, depth, kv, p, rest);
        lemma_entry_index_of(es, k as int);
        let tl = varint_len(e.tag as nat);
        let next_dk = FieldDataView::Entries(ms.take(j + 1int));
        assert(ms.take(j as int).push(kv) =~= ms.take(j + 1int));
        assert(mk[k as int] == dk);
        assert(mk.update(k as int, next_dk) =~= fields_at(ds, ds0, k as int, next_dk));
        assert(spec_merge_field(
            es,
            aux,
            keeps,
            mk,
            u,
            e.number() as u32,
            WIRE_LEN,
            s,
            (p.len() + tl) as int,
            depth,
        ) == Ok::<(Seq<FieldDataView>, Seq<u8>, int), DecodeError>(
            (fields_at(ds, ds0, k as int, next_dk), u, (p.len() + fb.len()) as int),
        ));
        lemma_len_fields_prefix(e.tag, items, j + 1int);
        assert(items.take(j + 1int).drop_last() =~= items.take(j as int));
        assert(items.take(j + 1int).last() == entry_record(kv));
        assert(len_fields_bytes(e.tag, items.take(j + 1int)).len() == len_fields_bytes(
            e.tag,
            items.take(j as int),
        ).len() + fb.len());
        lemma_entries_from(es, aux, keeps, ds, ds0, u, depth, tail, after, k, j + 1);
    }
}

/// No entry of `s` from `j` on has the key `k`, so none is found.
proof fn lemma_key_absent(s: Seq<(FieldValue, FieldValue)>, k: FieldValue, j: int)
    requires
        0 <= j,
        forall|m: int| j <= m < s.len() ==> #[trigger] s[m].0 != k,
    ensures
        key_position(s, k, j) is None,
    decreases s.len() - j,
{
    if j < s.len() {
        lemma_key_absent(s, k, j + 1);
    }
}

/// The records of the first `j` entries are the first `j` records.
proof fn lemma_records_take(ms: Seq<(FieldValue, FieldValue)>, j: int)
    requires
        0 <= j <= ms.len(),
    ensures
        entry_records(ms.take(j)) == entry_records(ms).take(j),
{
    assert(entry_records(ms.take(j)) =~= entry_records(ms).take(j));
}

/// One entry of a map field the writer lays out, wherever it stands, reads
/// its tag back and then is inserted among the entries the field held,
/// which have another key.
#[verifier::rlimit(80)]
#[verifier::spinoff_prover]
proof fn lemma_map_entry_at(
    mvt: MapVt,
    e: EntryView,
    i: int,
    ds: Seq<FieldDataView>,
    u: Seq<u8>,
    keeps: bool,
    depth: nat,
    kv: (FieldValue, FieldValue),
    p: Seq<u8>,
    rest: Seq<u8>,
)
    requires
        0 <= i < ds.len(),
        e.number() >= 1,
        e.wire() == WIRE_LEN,
        entry_reads_back(mvt, kv, depth),
        key_position(entries_of(ds[i]), kv.0, 0) is None,
    ensures
        ({
            let fb = len_field_bytes(e.tag, entry_record(kv));
            let s = p + fb + rest;
            let tl = varint_len(e.tag as nat);
            &&& fb.len() > 0
            &&& spec_decode_tag(s, p.len() as int) == Ok::<(u32, u32, int), DecodeError>(
                (e.number() as u32, WIRE_LEN, (p.len() + tl) as int),
            )
            &&& spec_merge_map(mvt, e, i, ds, u, keeps, WIRE_LEN, s, (p.len() + tl) as int, depth)
                == Ok::<(Seq<FieldDataView>, Seq<u8>, int), DecodeError>(
                (
                    ds.update(i, FieldDataView::Entries(entries_of(ds[i]).push(kv))),
                    u,
                    (p.len() + fb.len()) as int,
                ),
            )
        }),
{
    let rec = entry_record(kv);
    let fv = FieldValue::Len(rec);
    let number = e.number();
    let fb = len_field_bytes(e.tag, rec);
    assert(e.tag as nat == number * 8 + wire_of(fv));
    let a = varint_bytes(e.tag as nat);
    assert(fb =~= a + wire_value_bytes(fv));
    let s = p + fb + rest;
    assert(s =~= p + a + (wire_value_bytes(fv) + rest));
    lemma_tag_at(p, number, wire_of(fv), wire_value_bytes(fv) + rest);
    lemma_varint_bytes_len(e.tag as nat);
    assert(s =~= (p + a) + wire_value_bytes(fv) + rest);
    lemma_read_value_at(p + a, fv, rest);
    lemma_entry_round_trip(mvt.spec_value_enum(), mvt.spec_key(), mvt.spec_value(), kv, depth);
}

/// The member `(n, v)` the writer lays out at the leading entry `l` of its
/// oneof, wherever it stands, reads its tag back and then is held at `l`
/// again, where nothing was held.
#[verifier::rlimit(80)]
#[verifier::spinoff_prover]
proof fn lemma_member_at(
    es: Seq<Entry>,
    aux: Seq<Aux>,
    keeps: bool,
    ds: Seq<FieldDataView>,
    u: Seq<u8>,
    depth: nat,
    l: int,
    j: int,
    n: u32,
    v: FieldValue,
    p: Seq<u8>,
    rest: Seq<u8>,
)
    requires
        0 <= l < ds.len(),
        ds[l] == FieldDataView::Member(None),
        entry_index(es, n as nat) == Some(j),
        member_back_at(es, aux, l, j, n, v, depth),
    ensures
        ({
            let fb = wire_field_bytes(n as nat, v);
            let s = p + fb + rest;
            let tl = varint_len(n as nat * 8 + wire_of(v));
            &&& fb.len() > 0
            &&& spec_decode_tag(s, p.len() as int) == Ok::<(u32, u32, int), DecodeError>(
                (n, wire_of(v) as u32, (p.len() + tl) as int),
            )
            &&& spec_merge_field(es, aux, keeps, ds, u, n, wire_of(v) as u32, s, (p.len() + tl) as int, depth)
                == Ok::<(Seq<FieldDataView>, Seq<u8>, int), DecodeError>(
                (ds.update(l, FieldDataView::Member(Some((n, v)))), u, (p.len() + fb.len()) as int),
            )
        }),
{
    let e = es[j]@;
    let m = aux[e.aux as int]->Member_0@;
    let pe = EntryView { kind: m.kind, aux: m.aux, ..e };
    let a = varint_bytes(n as nat * 8 + wire_of(v));
    let fb = wire_field_bytes(n as nat, v);
    assert(fb =~= a + wire_value_bytes(v));
    let s = p + fb + rest;
    assert(e.tag < 0x1_0000_0000);
    assert(n < 0x2000_0000);
    assert(s =~= p + a + (wire_value_bytes(v) + rest));
    lemma_tag_at(p, n as nat, wire_of(v), wire_value_bytes(v) + rest);
    lemma_varint_bytes_len(n as nat * 8 + wire_of(v));
    assert(s =~= (p + a) + wire_value_bytes(v) + rest);
    lemma_read_value_at(p + a, v, rest);
    let pos = (p.len() + a.len()) as int;
    if kind_family(m.kind) == Family::Enum {
        let x = v->Varint_0;
        lemma_value_of(ScalarType::Int32, x);
        assert(sign_extend32(x as i32) == x);
        assert(raw_enum(v) == x as i32);
    } else if kind_family(m.kind) == Family::Msg {
        lemma_read_sub_of_len(s, pos);
        assert(held_payload(ds[l], n) + v->Len_0 =~= v->Len_0);
    }
}

/// The unknown fields `recs`, each a field number and a value, laid out
/// one after the other, each after its tag.
pub open spec fn unknown_records(recs: Seq<(u32, FieldValue)>) -> Seq<u8>
    decreases recs.len(),
{
    if recs.len() == 0 {
        Seq::empty()
    } else {
        unknown_records(recs.drop_last()) + wire_field_bytes(recs.last().0 as nat, recs.last().1)
    }
}

/// Whether the unknown field `rec` reads back as itself from a message whose
/// entries are `es`: its number is one protobuf allows and no entry has,
/// and a length-delimited value has a length a varint holds.
pub open spec fn unknown_reads_back(es: Seq<Entry>, rec: (u32, FieldValue)) -> bool {
    &&& 1 <= rec.0 < 0x2000_0000
    &&& entry_index(es, rec.0 as nat) is None
    &&& rec.1 matches FieldValue::Len(b) ==> b.len() < 0x1_0000_0000_0000_0000
}

/// The unknown fields `recs`, after `s0` and from the end of the first
/// `i`, read to the end: the fields stay as they are, and the unknown fields
/// gain the rest of `recs`, as they came, if the message keeps them.
#[verifier::rlimit(40)]
#[verifier::spinoff_prover]
proof fn lemma_unknown_from(
    es: Seq<Entry>,
    aux: Seq<Aux>,
    keeps: bool,
    ds: Seq<FieldDataView>,
    u: Seq<u8>,
    s0: Seq<u8>,
    recs: Seq<(u32, FieldValue)>,
    depth: nat,
    i: nat,
)
    requires
        i <= recs.len(),
        forall|j: int| 0 <= j < recs.len() ==> #[trigger] unknown_reads_back(es, recs[j]),
    ensures
        spec_merge_from(
            es,
            aux,
            keeps,
            ds,
            if keeps {
                u + unknown_records(recs.take(i as int))
            } else {
                u
            },
            s0 + unknown_records(recs),
            (s0.len() + unknown_records(recs.take(i as int)).len()) as int,
            depth,
        ) == Ok::<(Seq<FieldDataView>, Seq<u8>), DecodeError>(
            (
                ds,
                if keeps {
                    u + unknown_records(recs)
                } else {
                    u
                },
            ),
        ),
    decreases recs.len() - i,
{
    let s = s0 + unknown_records(recs);
    lemma_records_prefix(recs, i as int);
    if i == recs.len() {
        assert(recs.take(i as int) =~= recs);
    } else {
        lemma_records_prefix(recs, i + 1int);
        let (n, v) = recs[i as int];
        assert(unknown_reads_back(es, recs[i as int]));
        assert(recs.take(i + 1int).drop_last() =~= recs.take(i as int));
        assert(recs.take(i + 1int).last() == recs[i as int]);
        let ri = unknown_records(recs.take(i as int));
        let fb = wire_field_bytes(n as nat, v);
        assert(unknown_records(recs.take(i + 1int)) == ri + fb);
        let p = s0 + ri;
        let rest = s.subrange((p.len() + fb.len()) as int, s.len() as int);
        assert(unknown_records(recs) == unknown_records(recs.take(i + 1int)) + unknown_records(recs).subrange(
            unknown_records(recs.take(i + 1int)).len() as int,
            unknown_records(recs).len() as int,
        ));
        assert(s =~= p + fb + rest);
        let ui = if keeps { u + ri } else { u };
        lemma_unknown_at(es, aux, keeps, ds, ui, n, v, p, rest, depth);
        if keeps {
            assert(ui + fb =~= u + unknown_records(recs.take(i + 1int)));
        }
        lemma_unknown_from(es, aux, keeps, ds, u, s0, recs, depth, i + 1);
    }
}

/// One unknown field the writer lays out, wherever it stands, reads its
/// tag back, and then is added to the unknown fields as it came if the
/// message keeps them, and skipped if not.
#[verifier::rlimit(40)]
#[verifier::spinoff_prover]
proof fn lemma_unknown_at(
    es: Seq<Entry>,
    aux: Seq<Aux>,
    keeps: bool,
    ds: Seq<FieldDataView>,
    u: Seq<u8>,
    n: u32,
    v: FieldValue,
    p: Seq<u8>,
    rest: Seq<u8>,
    depth: nat,
)
    requires
        unknown_reads_back(es, (n, v)),
    ensures
        ({
            let fb = wire_field_bytes(n as nat, v);
            let s = p + fb + rest;
            let p1 = (p.len() + varint_len(n as nat * 8 + wire_of(v))) as int;
            &&& fb.len() > 0
            &&& spec_decode_tag(s, p.len() as int) == Ok::<(u32, u32, int), DecodeError>(
                (n, wire_of(v) as u32, p1),
            )
            &&& spec_merge_field(es, aux, keeps, ds, u, n, wire_of(v) as u32, s, p1, depth) == Ok::<
                (Seq<FieldDataView>, Seq<u8>, int),
                DecodeError,
            >(
                (
                    ds,
                    if keeps {
                        u + fb
                    } else {
                        u
                    },
                    (p.len() + fb.len()) as int,
                ),
            )
        }),
{
    let fb = wire_field_bytes(n as nat, v);
    let s = p + fb + rest;
    let a = varint_bytes(n as nat * 8 + wire_of(v));
    assert(fb =~= a + wire_value_bytes(v));
    assert(s =~= p + a + (wire_value_bytes(v) + rest));
    lemma_tag_at(p, n as nat, wire_of(v), wire_value_bytes(v) + rest);
    lemma_varint_bytes_len(n as nat * 8 + wire_of(v));
    assert(s =~= (p + a) + wire_value_bytes(v) + rest);
    lemma_read_value_at(p + a, v, rest);
    let p1 = (p.len() + a.len()) as int;
    let next = (p.len() + fb.len()) as int;
    assert(s.subrange(p1, next) =~= wire_value_bytes(v));
    if keeps {
        assert(u + varint_bytes((n * 8 + wire_of(v)) as nat) + s.subrange(p1, next) =~= u + fb);
    }
}

/// The records of the first `k` unknown fields begin those of all of them.
proof fn lemma_records_prefix(recs: Seq<(u32, FieldValue)>, k: int)
    requires
        0 <= k <= recs.len(),
    ensures
        unknown_records(recs) == unknown_records(recs.take(k)) + unknown_records(recs).subrange(
            unknown_records(recs.take(k)).len() as int,
            unknown_records(recs).len() as int,
        ),
        unknown_records(recs.take(k)).len() <= unknown_records(recs).len(),
    decreases recs.len() - k,
{
    if k < recs.len() {
        lemma_records_prefix(recs, k + 1);
        assert(recs.take(k + 1).drop_last() =~= recs.take(k));
        assert(recs.take(k + 1).last() == recs[k]);
    } else {
        assert(recs.take(k) =~= recs);
    }
    assert(unknown_records(recs) =~= unknown_records(recs.take(k)) + unknown_records(recs).subrange(
        unknown_records(recs.take(k)).len() as int,
        unknown_records(recs).len() as int,
    ));
}

/// Reading a message back: the bytes `Table::write_to` lays out for fields
/// that are all scalars the wire gives back unchanged or enum numbers their
/// descriptors store (singular, packed or repeated), strings and bytes
/// (singular or repeated), message values that decode again (singular or
/// repeated), map entries with different keys that read back as themselves,
/// or oneof members that read back as themselves, read as those fields. The
/// fields held before may be anything, but for packed, repeated, message and
/// map fields, which held nothing, oneofs, which held no member, and fields
/// that write nothing, which held what they hold. Unknown fields laid out
/// after them, whose numbers the table does not have, are added to the
/// unknown fields as they came if the message keeps unknown fields, and
/// skipped if not.
pub proof fn lemma_message_round_trip(
    es: Seq<Entry>,
    aux: Seq<Aux>,
    keeps: bool,
    ds: Seq<FieldDataView>,
    ds0: Seq<FieldDataView>,
    u: Seq<u8>,
    recs: Seq<(u32, FieldValue)>,
    depth: nat,
)
    requires
        numbers_increasing(es),
        ds.len() == es.len(),
        ds0.len() == es.len(),
        forall|j: int| 0 <= j < es.len() ==> #[trigger] round_trips(es[j]@, ds[j]),
        forall|j: int| 0 <= j < es.len() ==> #[trigger] fresh_for(es[j]@, ds0[j]),
        forall|j: int| 0 <= j < es.len() ==> #[trigger] children_decode(aux, es[j]@, ds[j], depth),
        forall|j: int| 0 <= j < es.len() ==> #[trigger] enums_accepted(aux, es[j]@, ds[j]),
        forall|j: int| 0 <= j < es.len() ==> #[trigger] maps_decode(aux, es[j]@, ds[j], depth),
        forall|j: int| 0 <= j < es.len() ==> #[trigger] members_decode(es, aux, j, ds[j], depth),
        forall|j: int|
            0 <= j < es.len() && #[trigger] field_bytes(es[j]@, ds[j]).len() == 0 ==> ds0[j] == ds[j],
        forall|j: int| 0 <= j < recs.len() ==> #[trigger] unknown_reads_back(es, recs[j]),
    ensures
        spec_merge_message(
            es,
            aux,
            keeps,
            ds0,
            u,
            message_bytes(es, ds, true, unknown_records(recs)),
            depth,
        ) == Ok::<(Seq<FieldDataView>, Seq<u8>), DecodeError>(
            (
                ds,
                if keeps {
                    u + unknown_records(recs)
                } else {
                    u
                },
            ),
        ),
{
    let s0 = fields_bytes(es, ds, es.len());
    let tail = unknown_records(recs);
    let after = (ds, if keeps { u + tail } else { u });
    lemma_unknown_from(es, aux, keeps, ds, u, s0, recs, depth, 0);
    assert(recs.take(0) =~= Seq::<(u32, FieldValue)>::empty());
    assert(unknown_records(Seq::<(u32, FieldValue)>::empty()) == Seq::<u8>::empty());
    assert(u + Seq::<u8>::empty() =~= u);
    lemma_round_trip_from(es, aux, keeps, ds, ds0, u, depth, tail, after, 0);
    assert(fields_mixed(ds, ds0, 0) =~= ds0);
    assert(message_bytes(es, ds, true, tail) =~= s0 + tail);
}

} // verus!
