//! The write pass over a message held as plain values: each field in the
//! order of the table's entries, laid out as its kind says, then the
//! unknown fields the message keeps.
use vstd::prelude::*;
use bytes::BytesMut;
use crate::encode_sink::{bytes_mut_extend, bytes_mut_view, le_bytes, Rope};
use super::entry::{Entry, EntryView};
use super::kind::{kind_card, kind_family, Family, ScalarType, IMPLICIT, LEADER, OPTIONAL, REQUIRED};
use super::map_entry::{FieldValue, WireValue};
use super::decode::members_fit;
use super::message::{MessageTable, Table, NO_UNKNOWN};
use super::wire::{
    count_fits, encode_le, encode_varint, lemma_le_len, lemma_varint_bytes_len, scalar_field_bytes, size_values,
    varint_bytes, varint_size, write_values,
};

verus! {

/// What one field of a message holds, as plain values.
#[derive(Clone, Debug, PartialEq, Eq)]
pub enum FieldData {
    /// A scalar or enum field's values, as `value_bytes` takes them (an
    /// enum's numbers sign-extended to 64 bits).
    Numbers(Vec<u64>),
    /// A string or bytes field's items.
    Texts(Vec<Vec<u8>>),
    /// A message field's children, each already encoded by its own table.
    Children(Vec<Vec<u8>>),
    /// A map field's entries: a key and a value each.
    Entries(Vec<(WireValue, WireValue)>),
    /// The member a oneof holds, if any: its field number and its value.
    /// The oneof's leading entry writes it.
    Member(Option<(u32, WireValue)>),
}

/// The view of [`FieldData`].
pub enum FieldDataView {
    /// See [`FieldData::Numbers`].
    Numbers(Seq<u64>),
    /// See [`FieldData::Texts`].
    Texts(Seq<Seq<u8>>),
    /// See [`FieldData::Children`].
    Children(Seq<Seq<u8>>),
    /// See [`FieldData::Entries`].
    Entries(Seq<(FieldValue, FieldValue)>),
    /// See [`FieldData::Member`].
    Member(Option<(u32, FieldValue)>),
}

impl View for FieldData {
    type V = FieldDataView;

    open spec fn view(&self) -> FieldDataView {
        match self {
            FieldData::Numbers(v) => FieldDataView::Numbers(v@),
            FieldData::Texts(v) => FieldDataView::Texts(v@.map_values(|b: Vec<u8>| b@)),
            FieldData::Children(v) => FieldDataView::Children(v@.map_values(|b: Vec<u8>| b@)),
            FieldData::Entries(v) => FieldDataView::Entries(
                v@.map_values(|p: (WireValue, WireValue)| (p.0@, p.1@)),
            ),
            FieldData::Member(m) => FieldDataView::Member(
                match m {
                    Some((n, v)) => Some((*n, v@)),
                    None => None,
                },
            ),
        }
    }
}

/// The wire type a value goes on the wire with.
pub open spec fn wire_of(v: FieldValue) -> nat {
    match v {
        FieldValue::Varint(_) => 0,
        FieldValue::Fixed64(_) => 1,
        FieldValue::Len(_) => 2,
        FieldValue::Fixed32(_) => 5,
    }
}

/// The bytes of a value after its tag.
pub open spec fn wire_value_bytes(v: FieldValue) -> Seq<u8> {
    match v {
        FieldValue::Varint(x) => varint_bytes(x as nat),
        FieldValue::Fixed64(x) => le_bytes(x as nat, 8),
        FieldValue::Fixed32(x) => le_bytes(x as nat, 4),
        FieldValue::Len(b) => varint_bytes(b.len()) + b,
    }
}

/// The field `number` holding `v`: its tag, then its value.
pub open spec fn wire_field_bytes(number: nat, v: FieldValue) -> Seq<u8> {
    varint_bytes(number * 8 + wire_of(v)) + wire_value_bytes(v)
}

/// A length-delimited field whose tag is `tag`, holding `b`.
pub open spec fn len_field_bytes(tag: u32, b: Seq<u8>) -> Seq<u8> {
    varint_bytes(tag as nat) + varint_bytes(b.len()) + b
}

/// Each of `items` as a length-delimited field whose tag is `tag`.
pub open spec fn len_fields_bytes(tag: u32, items: Seq<Seq<u8>>) -> Seq<u8>
    decreases items.len(),
{
    if items.len() == 0 {
        Seq::empty()
    } else {
        len_fields_bytes(tag, items.drop_last()) + len_field_bytes(tag, items.last())
    }
}

/// The record of one map entry: its key as field 1, its value as field 2.
pub open spec fn entry_record(kv: (FieldValue, FieldValue)) -> Seq<u8> {
    wire_field_bytes(1, kv.0) + wire_field_bytes(2, kv.1)
}

/// The records of the map entries `es`, as their own values.
pub open spec fn entry_records(es: Seq<(FieldValue, FieldValue)>) -> Seq<Seq<u8>> {
    es.map_values(|kv: (FieldValue, FieldValue)| entry_record(kv))
}

/// A string or bytes field of cardinality `card`: nothing for an implicit
/// one that is empty, and otherwise each item after its tag and length.
pub open spec fn text_field_bytes(tag: u32, card: u8, items: Seq<Seq<u8>>) -> Seq<u8> {
    if card == IMPLICIT && (items.len() == 0 || items[0].len() == 0) {
        Seq::empty()
    } else {
        len_fields_bytes(tag, items)
    }
}

/// The field `e` holding `d`. Data of a shape that does not go with the
/// field's kind writes nothing.
pub open spec fn field_bytes(e: EntryView, d: FieldDataView) -> Seq<u8> {
    let card = kind_card(e.kind);
    match d {
        FieldDataView::Numbers(vs) => match kind_family(e.kind) {
            Family::Scalar(t) => scalar_field_bytes(e.tag, t, card, vs),
            Family::Enum => scalar_field_bytes(e.tag, ScalarType::Int32, card, vs),
            _ => Seq::empty(),
        },
        FieldDataView::Texts(items) => if kind_family(e.kind) == Family::Str || kind_family(e.kind)
            == Family::Bytes {
            text_field_bytes(e.tag, card, items)
        } else {
            Seq::empty()
        },
        FieldDataView::Children(cs) => if kind_family(e.kind) == Family::Msg {
            len_fields_bytes(e.tag, cs)
        } else {
            Seq::empty()
        },
        FieldDataView::Entries(es) => if kind_family(e.kind) == Family::MapField {
            len_fields_bytes(e.tag, entry_records(es))
        } else {
            Seq::empty()
        },
        FieldDataView::Member(m) => match m {
            Some((n, v)) => if kind_family(e.kind) == Family::Oneof && card == LEADER {
                wire_field_bytes(n as nat, v)
            } else {
                Seq::empty()
            },
            None => Seq::empty(),
        },
    }
}

/// Whether the field `e` can hold `d`: a scalar or enum field at most as
/// many numbers as its cardinality allows, a singular string or bytes
/// field at most one item, and a required field, which always has a value,
/// exactly one.
pub open spec fn field_fits(e: EntryView, d: FieldDataView) -> bool {
    let card = kind_card(e.kind);
    &&& d matches FieldDataView::Numbers(vs) ==> count_fits(card, vs.len()) && (card == REQUIRED
        ==> vs.len() == 1)
    &&& d matches FieldDataView::Texts(items) ==> ((card == IMPLICIT || card == REQUIRED || card
        == OPTIONAL) ==> items.len() <= 1) && (card == REQUIRED ==> items.len() == 1)
}

/// The first `n` fields of a message, in entry order.
pub open spec fn fields_bytes(es: Seq<Entry>, ds: Seq<FieldDataView>, n: nat) -> Seq<u8>
    decreases n,
{
    if n == 0 {
        Seq::empty()
    } else {
        fields_bytes(es, ds, (n - 1) as nat) + field_bytes(es[n - 1]@, ds[n - 1])
    }
}

/// A message whose fields are `es`, holding `ds`, on the wire: its fields in
/// entry order, then `unknown`, the unknown fields it keeps, if its table
/// keeps any.
pub open spec fn message_bytes(
    es: Seq<Entry>,
    ds: Seq<FieldDataView>,
    keeps_unknown: bool,
    unknown: Seq<u8>,
) -> Seq<u8> {
    fields_bytes(es, ds, es.len()) + if keeps_unknown {
        unknown
    } else {
        Seq::empty()
    }
}

/// Append the bytes of `b`.
pub(crate) fn append_bytes(b: &[u8], out: &mut Vec<u8>)
    ensures
        final(out)@ == old(out)@ + b@,
{
    let mut i: usize = 0;
    while i < b.len()
        invariant
            i <= b@.len(),
            out@ == old(out)@ + b@.subrange(0, i as int),
        decreases b@.len() - i,
    {
        assert(b@.subrange(0, i + 1) =~= b@.subrange(0, i as int).push(b@[i as int]));
        assert(old(out)@ + b@.subrange(0, i + 1) =~= (old(out)@ + b@.subrange(0, i as int)).push(b@[i as int]));
        out.push(b[i]);
        i = i + 1;
    }
    assert(b@.subrange(0, b@.len() as int) =~= b@);
}

/// Append the field `number` holding `v`.
fn write_wire_field(number: u32, v: &WireValue, out: &mut Vec<u8>)
    ensures
        final(out)@ == old(out)@ + wire_field_bytes(number as nat, v@),
{
    let wire: u64 = match v {
        WireValue::Varint(_) => 0,
        WireValue::Fixed64(_) => 1,
        WireValue::Len(_) => 2,
        WireValue::Fixed32(_) => 5,
    };
    encode_varint(number as u64 * 8 + wire, out);
    let ghost mid = out@;
    write_wire_value(v, out);
    assert(out@ =~= old(out)@ + wire_field_bytes(number as nat, v@));
}

/// Append `b` as a length-delimited field whose tag is `tag`.
pub(crate) fn write_len_field(tag: u32, b: &[u8], out: &mut Vec<u8>)
    ensures
        final(out)@ == old(out)@ + len_field_bytes(tag, b@),
{
    encode_varint(tag as u64, out);
    encode_varint(b.len() as u64, out);
    append_bytes(b, out);
    assert(out@ =~= old(out)@ + len_field_bytes(tag, b@));
}

/// One more item of a run of length-delimited fields.
proof fn lemma_len_fields_step(tag: u32, items: Seq<Seq<u8>>, i: int)
    requires
        0 <= i < items.len(),
    ensures
        len_fields_bytes(tag, items.subrange(0, i + 1)) == len_fields_bytes(
            tag,
            items.subrange(0, i),
        ) + len_field_bytes(tag, items[i]),
{
    assert(items.subrange(0, i + 1).drop_last() =~= items.subrange(0, i));
}

/// Append each of `items` as a length-delimited field whose tag is `tag`.
fn write_len_fields(tag: u32, items: &Vec<Vec<u8>>, out: &mut Vec<u8>)
    ensures
        final(out)@ == old(out)@ + len_fields_bytes(tag, items@.map_values(|b: Vec<u8>| b@)),
{
    let ghost views = items@.map_values(|b: Vec<u8>| b@);
    let mut i: usize = 0;
    assert(views.subrange(0, 0).len() == 0);
    while i < items.len()
        invariant
            i <= items@.len(),
            views == items@.map_values(|b: Vec<u8>| b@),
            out@ == old(out)@ + len_fields_bytes(tag, views.subrange(0, i as int)),
        decreases items@.len() - i,
    {
        proof {
            lemma_len_fields_step(tag, views, i as int);
        }
        write_len_field(tag, items[i].as_slice(), out);
        assert(out@ =~= old(out)@ + len_fields_bytes(tag, views.subrange(0, i + 1)));
        i = i + 1;
    }
    assert(views.subrange(0, items@.len() as int) =~= views);
}

/// Append each of the map entries `es` as a field whose tag is `tag`.
fn write_entries(tag: u32, es: &Vec<(WireValue, WireValue)>, out: &mut Vec<u8>)
    ensures
        final(out)@ == old(out)@ + len_fields_bytes(
            tag,
            entry_records(es@.map_values(|p: (WireValue, WireValue)| (p.0@, p.1@))),
        ),
{
    let ghost views = entry_records(es@.map_values(|p: (WireValue, WireValue)| (p.0@, p.1@)));
    let mut i: usize = 0;
    assert(views.subrange(0, 0).len() == 0);
    while i < es.len()
        invariant
            i <= es@.len(),
            views == entry_records(es@.map_values(|p: (WireValue, WireValue)| (p.0@, p.1@))),
            out@ == old(out)@ + len_fields_bytes(tag, views.subrange(0, i as int)),
        decreases es@.len() - i,
    {
        proof {
            lemma_len_fields_step(tag, views, i as int);
        }
        let mut record: Vec<u8> = Vec::new();
        write_wire_field(1, &es[i].0, &mut record);
        write_wire_field(2, &es[i].1, &mut record);
        assert(record@ =~= views[i as int]);
        write_len_field(tag, record.as_slice(), out);
        assert(out@ =~= old(out)@ + len_fields_bytes(tag, views.subrange(0, i + 1)));
        i = i + 1;
    }
    assert(views.subrange(0, es@.len() as int) =~= views);
}


/// Append the bytes of `v` after its tag.
fn write_wire_value(v: &WireValue, out: &mut Vec<u8>)
    ensures
        final(out)@ == old(out)@ + wire_value_bytes(v@),
{
    match v {
        WireValue::Varint(x) => encode_varint(*x, out),
        WireValue::Fixed64(x) => encode_le(*x, 8, out),
        WireValue::Fixed32(x) => encode_le(*x as u64, 4, out),
        WireValue::Len(b) => {
            encode_varint(b.len() as u64, out);
            append_bytes(b.as_slice(), out);
            assert(out@ =~= old(out)@ + (varint_bytes(b@.len()) + b@));
        },
    }
}

/// Append the field `e` holding `d`.
pub fn write_field(e: &Entry, d: &FieldData, out: &mut Vec<u8>)
    requires
        field_fits(e@, d@),
    ensures
        final(out)@ == old(out)@ + field_bytes(e@, d@),
{
    let family = e.kind().family();
    let card = e.kind().card();
    match d {
        FieldData::Numbers(vs) => match family {
            Family::Scalar(t) => write_values(e.tag(), t, card, vs.as_slice(), out),
            Family::Enum => write_values(e.tag(), ScalarType::Int32, card, vs.as_slice(), out),
            _ => {
                assert(out@ =~= old(out)@ + Seq::<u8>::empty());
            },
        },
        FieldData::Texts(items) => {
            if family == Family::Str || family == Family::Bytes {
                if card == IMPLICIT && (items.len() == 0 || items[0].len() == 0) {
                    assert(out@ =~= old(out)@ + Seq::<u8>::empty());
                } else {
                    write_len_fields(e.tag(), items, out);
                }
            } else {
                assert(out@ =~= old(out)@ + Seq::<u8>::empty());
            }
        },
        FieldData::Children(cs) => {
            if family == Family::Msg {
                write_len_fields(e.tag(), cs, out);
            } else {
                assert(out@ =~= old(out)@ + Seq::<u8>::empty());
            }
        },
        FieldData::Entries(es) => {
            if family == Family::MapField {
                write_entries(e.tag(), es, out);
            } else {
                assert(out@ =~= old(out)@ + Seq::<u8>::empty());
            }
        },
        FieldData::Member(m) => match m {
            Some((n, v)) => {
                if family == Family::Oneof && card == LEADER {
                    write_wire_field(*n, v, out);
                } else {
                    assert(out@ =~= old(out)@ + Seq::<u8>::empty());
                }
            },
            None => {
                assert(out@ =~= old(out)@ + Seq::<u8>::empty());
            },
        },
    }
}

/// Write the message the table describes, whose fields hold `fields`, one
/// per entry, and which keeps the unknown fields `unknown` (already
/// encoded): each field in entry order, then the unknown fields if the
/// table keeps any.
pub fn write_message(table: &MessageTable, fields: &[FieldData], unknown: &[u8], out: &mut Vec<u8>)
    requires
        fields@.len() == table.spec_entries().len(),
        forall|i: int|
            0 <= i < fields@.len() ==> field_fits(table.spec_entries()[i]@, #[trigger] fields@[i]@),
    ensures
        final(out)@ == old(out)@ + message_bytes(
            table.spec_entries(),
            fields@.map_values(|d: FieldData| d@),
            table.spec_unknown() != NO_UNKNOWN,
            unknown@,
        ),
{
    let entries = table.entries();
    let ghost ds = fields@.map_values(|d: FieldData| d@);
    let mut i: usize = 0;
    while i < entries.len()
        invariant
            i <= entries@.len() == fields@.len(),
            entries@ == table.spec_entries(),
            ds == fields@.map_values(|d: FieldData| d@),
            forall|j: int|
                0 <= j < fields@.len() ==> field_fits(entries@[j]@, #[trigger] fields@[j]@),
            out@ == old(out)@ + fields_bytes(entries@, ds, i as nat),
        decreases entries@.len() - i,
    {
        assert(field_fits(entries@[i as int]@, fields@[i as int]@));
        write_field(&entries[i], &fields[i], out);
        assert(out@ =~= old(out)@ + fields_bytes(entries@, ds, (i + 1) as nat));
        i = i + 1;
    }
    if table.unknown() != NO_UNKNOWN {
        append_bytes(unknown, out);
    }
    assert(out@ =~= old(out)@ + message_bytes(
        table.spec_entries(),
        ds,
        table.spec_unknown() != NO_UNKNOWN,
        unknown@,
    ));
}

/// The number of bytes of `v` after its tag.
fn wire_value_size(v: &WireValue) -> (r: usize)
    requires
        wire_value_bytes(v@).len() <= usize::MAX,
    ensures
        r == wire_value_bytes(v@).len(),
{
    match v {
        WireValue::Varint(x) => varint_size(*x) as usize,
        WireValue::Fixed64(x) => {
            proof {
                lemma_le_len(*x as nat, 8);
            }
            8
        },
        WireValue::Fixed32(x) => {
            proof {
                lemma_le_len(*x as nat, 4);
            }
            4
        },
        WireValue::Len(b) => varint_size(b.len() as u64) as usize + b.len(),
    }
}

/// The number of bytes of the field `number` holding `v`.
fn wire_field_size(number: u32, v: &WireValue) -> (r: usize)
    requires
        wire_field_bytes(number as nat, v@).len() <= usize::MAX,
    ensures
        r == wire_field_bytes(number as nat, v@).len(),
{
    let wire: u64 = match v {
        WireValue::Varint(_) => 0,
        WireValue::Fixed64(_) => 1,
        WireValue::Len(_) => 2,
        WireValue::Fixed32(_) => 5,
    };
    varint_size(number as u64 * 8 + wire) as usize + wire_value_size(v)
}

/// A run of length-delimited fields is at least as long as any prefix of it.
proof fn lemma_len_fields_prefix(tag: u32, items: Seq<Seq<u8>>, i: int)
    requires
        0 <= i <= items.len(),
    ensures
        len_fields_bytes(tag, items.subrange(0, i)).len() <= len_fields_bytes(tag, items).len(),
    decreases items.len() - i,
{
    if i < items.len() {
        lemma_len_fields_step(tag, items, i);
        lemma_len_fields_prefix(tag, items, i + 1);
    } else {
        assert(items.subrange(0, i) =~= items);
    }
}

/// The number of bytes of `items` as length-delimited fields whose tag is
/// `tag`.
fn len_fields_size(tag: u32, items: &Vec<Vec<u8>>) -> (r: usize)
    requires
        len_fields_bytes(tag, items@.map_values(|b: Vec<u8>| b@)).len() <= usize::MAX,
    ensures
        r == len_fields_bytes(tag, items@.map_values(|b: Vec<u8>| b@)).len(),
{
    let ghost views = items@.map_values(|b: Vec<u8>| b@);
    let tl = varint_size(tag as u64);
    proof {
        lemma_varint_bytes_len(tag as nat);
    }
    let mut total: usize = 0;
    let mut i: usize = 0;
    while i < items.len()
        invariant
            i <= items@.len(),
            views == items@.map_values(|b: Vec<u8>| b@),
            len_fields_bytes(tag, views).len() <= usize::MAX,
            tl == varint_bytes(tag as nat).len(),
            total == len_fields_bytes(tag, views.subrange(0, i as int)).len(),
        decreases items@.len() - i,
    {
        proof {
            lemma_len_fields_step(tag, views, i as int);
            lemma_len_fields_prefix(tag, views, i + 1);
            lemma_varint_bytes_len(items@[i as int]@.len());
        }
        let n = items[i].len();
        let add = tl as usize + varint_size(n as u64) as usize + n;
        total = total + add;
        i = i + 1;
    }
    assert(views.subrange(0, items@.len() as int) =~= views);
    total
}

/// The number of bytes of the map entries `es` as fields whose tag is
/// `tag`.
fn entries_size(tag: u32, es: &Vec<(WireValue, WireValue)>) -> (r: usize)
    requires
        len_fields_bytes(
            tag,
            entry_records(es@.map_values(|p: (WireValue, WireValue)| (p.0@, p.1@))),
        ).len() <= usize::MAX,
    ensures
        r == len_fields_bytes(
            tag,
            entry_records(es@.map_values(|p: (WireValue, WireValue)| (p.0@, p.1@))),
        ).len(),
{
    let ghost views = entry_records(es@.map_values(|p: (WireValue, WireValue)| (p.0@, p.1@)));
    let tl = varint_size(tag as u64);
    let mut total: usize = 0;
    let mut i: usize = 0;
    while i < es.len()
        invariant
            i <= es@.len(),
            views == entry_records(es@.map_values(|p: (WireValue, WireValue)| (p.0@, p.1@))),
            len_fields_bytes(tag, views).len() <= usize::MAX,
            tl == varint_bytes(tag as nat).len(),
            total == len_fields_bytes(tag, views.subrange(0, i as int)).len(),
        decreases es@.len() - i,
    {
        proof {
            lemma_len_fields_step(tag, views, i as int);
            lemma_len_fields_prefix(tag, views, i + 1);
            lemma_varint_bytes_len(views[i as int].len());
        }
        let ghost kv = (es@[i as int].0@, es@[i as int].1@);
        assert(views[i as int] == entry_record(kv));
        let rec = wire_field_size(1, &es[i].0) + wire_field_size(2, &es[i].1);
        let add = tl as usize + varint_size(rec as u64) as usize + rec;
        total = total + add;
        i = i + 1;
    }
    assert(views.subrange(0, es@.len() as int) =~= views);
    total
}

/// The number of bytes [`write_field`] writes for the field `e` holding `d`.
pub fn field_size(e: &Entry, d: &FieldData) -> (r: usize)
    requires
        field_fits(e@, d@),
        field_bytes(e@, d@).len() <= usize::MAX,
    ensures
        r == field_bytes(e@, d@).len(),
{
    let family = e.kind().family();
    let card = e.kind().card();
    match d {
        FieldData::Numbers(vs) => match family {
            Family::Scalar(t) => size_values(e.tag(), t, card, vs.as_slice()) as usize,
            Family::Enum => size_values(e.tag(), ScalarType::Int32, card, vs.as_slice()) as usize,
            _ => 0,
        },
        FieldData::Texts(items) => {
            if family == Family::Str || family == Family::Bytes {
                if card == IMPLICIT && (items.len() == 0 || items[0].len() == 0) {
                    0
                } else {
                    len_fields_size(e.tag(), items)
                }
            } else {
                0
            }
        },
        FieldData::Children(cs) => {
            if family == Family::Msg {
                len_fields_size(e.tag(), cs)
            } else {
                0
            }
        },
        FieldData::Entries(es) => {
            if family == Family::MapField {
                entries_size(e.tag(), es)
            } else {
                0
            }
        },
        FieldData::Member(m) => match m {
            Some((n, v)) => {
                if family == Family::Oneof && card == LEADER {
                    wire_field_size(*n, v)
                } else {
                    0
                }
            },
            None => 0,
        },
    }
}

/// The first fields of a message are at most as long as all of them.
proof fn lemma_fields_prefix(es: Seq<Entry>, ds: Seq<FieldDataView>, i: nat, n: nat)
    requires
        i <= n,
    ensures
        fields_bytes(es, ds, i).len() <= fields_bytes(es, ds, n).len(),
    decreases n - i,
{
    if i < n {
        lemma_fields_prefix(es, ds, i, (n - 1) as nat);
    }
}

/// The number of bytes [`write_message`] writes for the same message.
pub fn message_size(table: &MessageTable, fields: &[FieldData], unknown: &[u8]) -> (r: usize)
    requires
        fields@.len() == table.spec_entries().len(),
        forall|i: int|
            0 <= i < fields@.len() ==> field_fits(table.spec_entries()[i]@, #[trigger] fields@[i]@),
        message_bytes(
            table.spec_entries(),
            fields@.map_values(|d: FieldData| d@),
            table.spec_unknown() != NO_UNKNOWN,
            unknown@,
        ).len() <= usize::MAX,
    ensures
        r == message_bytes(
            table.spec_entries(),
            fields@.map_values(|d: FieldData| d@),
            table.spec_unknown() != NO_UNKNOWN,
            unknown@,
        ).len(),
{
    let entries = table.entries();
    let ghost ds = fields@.map_values(|d: FieldData| d@);
    let ghost n = entries@.len();
    let ghost whole = message_bytes(
        table.spec_entries(),
        ds,
        table.spec_unknown() != NO_UNKNOWN,
        unknown@,
    ).len();
    let mut total: usize = 0;
    let mut i: usize = 0;
    while i < entries.len()
        invariant
            i <= entries@.len() == fields@.len(),
            n == entries@.len(),
            entries@ == table.spec_entries(),
            ds == fields@.map_values(|d: FieldData| d@),
            forall|j: int|
                0 <= j < fields@.len() ==> field_fits(entries@[j]@, #[trigger] fields@[j]@),
            fields_bytes(entries@, ds, n).len() <= whole <= usize::MAX,
            total == fields_bytes(entries@, ds, i as nat).len(),
        decreases entries@.len() - i,
    {
        proof {
            lemma_fields_prefix(entries@, ds, (i + 1) as nat, n);
        }
        assert(field_fits(entries@[i as int]@, fields@[i as int]@));
        let add = field_size(&entries[i], &fields[i]);
        total = total + add;
        i = i + 1;
    }
    if table.unknown() != NO_UNKNOWN {
        total = total + unknown.len();
    }
    total
}

impl<M> Table<M> {
    /// The number of bytes [`write_to`](Self::write_to) writes for an `M`
    /// whose fields hold `fields`, one per entry, and which keeps the
    /// unknown fields `unknown`. The fields hold what an `M` can: as many
    /// values as each field's cardinality allows, and in each oneof one of
    /// its members, with a value of the member's wire type.
    pub fn compute_size(&self, fields: &[FieldData], unknown: &[u8]) -> (r: usize)
        requires
            members_fit(
                self.spec_raw().spec_entries(),
                self.spec_raw().spec_aux(),
                fields@.map_values(|d: FieldData| d@),
            ),
            fields@.len() == self.spec_raw().spec_entries().len(),
            forall|i: int|
                0 <= i < fields@.len() ==> field_fits(
                    self.spec_raw().spec_entries()[i]@,
                    #[trigger] fields@[i]@,
                ),
            message_bytes(
                self.spec_raw().spec_entries(),
                fields@.map_values(|d: FieldData| d@),
                self.spec_raw().spec_unknown() != NO_UNKNOWN,
                unknown@,
            ).len() <= usize::MAX,
        ensures
            r == message_bytes(
                self.spec_raw().spec_entries(),
                fields@.map_values(|d: FieldData| d@),
                self.spec_raw().spec_unknown() != NO_UNKNOWN,
                unknown@,
            ).len(),
    {
        message_size(self.raw(), fields, unknown)
    }

    /// Write an `M` whose fields hold `fields`, one per entry, and which
    /// keeps the unknown fields `unknown`: each field in entry order, then
    /// the unknown fields if `M` keeps any. The fields hold what an `M`
    /// can, as [`compute_size`](Self::compute_size) says.
    pub fn write_to(&self, fields: &[FieldData], unknown: &[u8], out: &mut Vec<u8>)
        requires
            members_fit(
                self.spec_raw().spec_entries(),
                self.spec_raw().spec_aux(),
                fields@.map_values(|d: FieldData| d@),
            ),
            fields@.len() == self.spec_raw().spec_entries().len(),
            forall|i: int|
                0 <= i < fields@.len() ==> field_fits(
                    self.spec_raw().spec_entries()[i]@,
                    #[trigger] fields@[i]@,
                ),
        ensures
            final(out)@ == old(out)@ + message_bytes(
                self.spec_raw().spec_entries(),
                fields@.map_values(|d: FieldData| d@),
                self.spec_raw().spec_unknown() != NO_UNKNOWN,
                unknown@,
            ),
    {
        write_message(self.raw(), fields, unknown, out)
    }

    /// Write the message into a shared buffer: the same bytes as
    /// [`Table::write_to`], appended after what `out` holds.
    pub fn write_to_bytes_mut(&self, fields: &[FieldData], unknown: &[u8], out: &mut BytesMut)
        requires
            members_fit(
                self.spec_raw().spec_entries(),
                self.spec_raw().spec_aux(),
                fields@.map_values(|d: FieldData| d@),
            ),
            fields@.len() == self.spec_raw().spec_entries().len(),
            forall|i: int|
                0 <= i < fields@.len() ==> field_fits(
                    self.spec_raw().spec_entries()[i]@,
                    #[trigger] fields@[i]@,
                ),
        ensures
            bytes_mut_view(*final(out)) == bytes_mut_view(*old(out)) + message_bytes(
                self.spec_raw().spec_entries(),
                fields@.map_values(|d: FieldData| d@),
                self.spec_raw().spec_unknown() != NO_UNKNOWN,
                unknown@,
            ),
    {
        let mut v: Vec<u8> = Vec::new();
        write_message(self.raw(), fields, unknown, &mut v);
        assert(v@ =~= Seq::<u8>::empty() + v@);
        bytes_mut_extend(out, v.as_slice());
    }

    /// Write the message into a rope: the same bytes as
    /// [`Table::write_to`], appended after what the rope holds. The rope's
    /// finished segments stay as they are.
    pub fn write_to_rope(&self, fields: &[FieldData], unknown: &[u8], out: &mut Rope)
        requires
            old(out).wf(),
            members_fit(
                self.spec_raw().spec_entries(),
                self.spec_raw().spec_aux(),
                fields@.map_values(|d: FieldData| d@),
            ),
            fields@.len() == self.spec_raw().spec_entries().len(),
            forall|i: int|
                0 <= i < fields@.len() ==> field_fits(
                    self.spec_raw().spec_entries()[i]@,
                    #[trigger] fields@[i]@,
                ),
        ensures
            final(out).wf(),
            final(out)@.bytes() == old(out)@.bytes() + message_bytes(
                self.spec_raw().spec_entries(),
                fields@.map_values(|d: FieldData| d@),
                self.spec_raw().spec_unknown() != NO_UNKNOWN,
                unknown@,
            ),
            final(out)@.segments == old(out)@.segments,
            final(out)@.min_segment == old(out)@.min_segment,
    {
        let mut v: Vec<u8> = Vec::new();
        write_message(self.raw(), fields, unknown, &mut v);
        assert(v@ =~= Seq::<u8>::empty() + v@);
        out.put_slice(v.as_slice());
    }
}

} // verus!
