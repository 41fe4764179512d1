//! Reading one entry of a map field off the wire.
//!
//! An entry is a two-field message: the key as field 1 and the value as
//! field 2. Its fields may repeat and come in any order. The last key and
//! the last value win, except that each occurrence of a message value is
//! merged into the one before it, which on the wire is the concatenation of
//! their payloads. Any other field is skipped by its wire type, groups
//! included.
use vstd::prelude::*;
use vstd::utf8::valid_utf8;
use crate::error::DecodeError;
use super::entry::{Entry, EntryView};
use super::kind::{
    kind_family, kind_wire_type, Family, WIRE_FIXED32, WIRE_FIXED64, WIRE_LEN, WIRE_VARINT,
};
use super::map::MapVt;
use super::shape::{accepts_number, enum_accepts, EnumVt};
use super::write::{entry_record, wire_field_bytes, wire_of, wire_value_bytes};
use crate::encode_sink::le_bytes;
use super::entry::varint_len;
use super::wire::{
    decode_varint, lemma_varint_bytes_len, lemma_varint_round_trip, spec_decode_varint, varint_bytes,
    varint_span,
};

verus! {

/// The wire type that opens a group.
pub const WIRE_START_GROUP: u32 = 3;

/// The wire type that closes a group.
pub const WIRE_END_GROUP: u32 = 4;

/// A field's value as the wire gives it, before the field's type is applied.
pub enum FieldValue {
    /// A varint, kept to 64 bits.
    Varint(u64),
    /// Eight little-endian bytes.
    Fixed64(u64),
    /// Four little-endian bytes.
    Fixed32(u32),
    /// A length-delimited payload.
    Len(Seq<u8>),
}

/// A field's value read off the wire.
#[derive(Clone, Debug, PartialEq, Eq)]
pub enum WireValue {
    /// A varint, kept to 64 bits.
    Varint(u64),
    /// Eight little-endian bytes.
    Fixed64(u64),
    /// Four little-endian bytes.
    Fixed32(u32),
    /// A length-delimited payload.
    Len(Vec<u8>),
}

impl View for WireValue {
    type V = FieldValue;

    open spec fn view(&self) -> FieldValue {
        match self {
            WireValue::Varint(v) => FieldValue::Varint(*v),
            WireValue::Fixed64(v) => FieldValue::Fixed64(*v),
            WireValue::Fixed32(v) => FieldValue::Fixed32(*v),
            WireValue::Len(b) => FieldValue::Len(b@),
        }
    }
}

/// What the fields of a map entry gave: the key and the value, if any came,
/// and whether the enum the value is stored as accepts the last value.
pub struct EntryModel {
    /// The last key.
    pub key: Option<FieldValue>,
    /// The last value, or all the payloads of a message value, joined.
    pub value: Option<FieldValue>,
    /// `false` only when the value is an enum that does not accept the
    /// number that came last.
    pub known: bool,
}

/// The fields of a map entry, read off the wire.
#[derive(Clone, Debug, PartialEq, Eq)]
pub struct MapEntryFields {
    /// The last key.
    pub key: Option<WireValue>,
    /// The last value, or all the payloads of a message value, joined.
    pub value: Option<WireValue>,
    /// `false` only when the value is an enum that does not accept the
    /// number that came last.
    pub known: bool,
}

/// The view of an optional value.
pub open spec fn opt_view(v: Option<WireValue>) -> Option<FieldValue> {
    match v {
        Some(x) => Some(x@),
        None => None,
    }
}

impl View for MapEntryFields {
    type V = EntryModel;

    open spec fn view(&self) -> EntryModel {
        EntryModel { key: opt_view(self.key), value: opt_view(self.value), known: self.known }
    }
}

/// The number the bytes of `bs` spell, least significant first.
pub open spec fn le_value(bs: Seq<u8>) -> nat
    decreases bs.len(),
{
    if bs.len() == 0 {
        0
    } else {
        bs[0] as nat + 256 * le_value(bs.drop_first())
    }
}

/// The tag at `pos` of `s`: its field number, its wire type and where it
/// ends. A tag that does not fit 32 bits, or names field 0, is an
/// `InvalidFieldNumber`; a wire type above 5 is an `InvalidWireType`.
pub open spec fn spec_decode_tag(s: Seq<u8>, pos: int) -> Result<(u32, u32, int), DecodeError> {
    match spec_decode_varint(s, pos) {
        Err(e) => Err(e),
        Ok((v, next)) => if v > u32::MAX {
            Err(DecodeError::InvalidFieldNumber)
        } else if v % 8 > 5 {
            Err(DecodeError::InvalidWireType((v % 8) as u32))
        } else if v / 8 == 0 {
            Err(DecodeError::InvalidFieldNumber)
        } else {
            Ok(((v / 8) as u32, (v % 8) as u32, next))
        },
    }
}

/// The value of wire type `wire` (a varint, fixed or length-delimited one)
/// at `pos` of `s`, and where it ends.
pub open spec fn spec_read_value(s: Seq<u8>, pos: int, wire: u32) -> Result<
    (FieldValue, int),
    DecodeError,
> {
    if wire == WIRE_VARINT {
        match spec_decode_varint(s, pos) {
            Ok((v, next)) => Ok((FieldValue::Varint(v), next)),
            Err(e) => Err(e),
        }
    } else if wire == WIRE_FIXED64 {
        if s.len() - pos < 8 {
            Err(DecodeError::UnexpectedEof)
        } else {
            Ok((FieldValue::Fixed64(le_value(s.subrange(pos, pos + 8)) as u64), pos + 8))
        }
    } else if wire == WIRE_FIXED32 {
        if s.len() - pos < 4 {
            Err(DecodeError::UnexpectedEof)
        } else {
            Ok((FieldValue::Fixed32(le_value(s.subrange(pos, pos + 4)) as u32), pos + 4))
        }
    } else {
        match spec_read_len(s, pos) {
            Ok((b, next)) => Ok((FieldValue::Len(b), next)),
            Err(e) => Err(e),
        }
    }
}

/// The length-delimited payload at `pos` of `s`, and where it ends.
pub open spec fn spec_read_len(s: Seq<u8>, pos: int) -> Result<(Seq<u8>, int), DecodeError> {
    match spec_decode_varint(s, pos) {
        Err(e) => Err(e),
        Ok((len, next)) => if s.len() - next < len {
            Err(DecodeError::UnexpectedEof)
        } else {
            Ok((s.subrange(next, next + len), next + len))
        },
    }
}

/// The largest message, in bytes, that decoding accepts: 2 GiB less one.
pub const MAX_MESSAGE_BYTES: u64 = 0x7fff_ffff;

/// The length-delimited message at `pos` of `s`, and where it ends: a
/// length above [`MAX_MESSAGE_BYTES`] is refused before the bytes are
/// looked for.
pub open spec fn spec_read_sub(s: Seq<u8>, pos: int) -> Result<(Seq<u8>, int), DecodeError> {
    match spec_decode_varint(s, pos) {
        Err(e) => Err(e),
        Ok((len, next)) => if len > MAX_MESSAGE_BYTES {
            Err(DecodeError::MessageTooLarge)
        } else if s.len() - next < len {
            Err(DecodeError::UnexpectedEof)
        } else {
            Ok((s.subrange(next, next + len), next + len))
        },
    }
}

/// Whether `wire` is one of the wire types that carry a value of their own.
pub open spec fn is_value_wire(wire: u32) -> bool {
    wire == WIRE_VARINT || wire == WIRE_FIXED64 || wire == WIRE_LEN || wire == WIRE_FIXED32
}

/// Where the field `field` of wire type `wire`, whose tag ends at `pos`,
/// ends. A group runs to its matching end tag; it takes one level of the
/// `depth` levels of nesting that are left.
pub open spec fn spec_skip(s: Seq<u8>, pos: int, field: u32, wire: u32, depth: nat) -> Result<
    int,
    DecodeError,
>
    decreases depth, 0nat, 0int,
{
    if wire == WIRE_START_GROUP {
        if depth == 0 {
            Err(DecodeError::RecursionLimitExceeded)
        } else {
            spec_skip_group(s, pos, field, (depth - 1) as nat)
        }
    } else if wire == WIRE_END_GROUP {
        Err(DecodeError::InvalidEndGroup(field))
    } else {
        match spec_read_value(s, pos, wire) {
            Ok((_, next)) => Ok(next),
            Err(e) => Err(e),
        }
    }
}

/// Where the group `field`, whose fields start at `pos`, ends: after the end
/// tag that carries its number.
pub open spec fn spec_skip_group(s: Seq<u8>, pos: int, field: u32, depth: nat) -> Result<
    int,
    DecodeError,
>
    decreases depth, 1nat, s.len() - pos,
{
    match spec_decode_tag(s, pos) {
        Err(e) => Err(e),
        Ok((f, w, p1)) => if w == WIRE_END_GROUP {
            if f == field {
                Ok(p1)
            } else {
                Err(DecodeError::InvalidEndGroup(f))
            }
        } else {
            match spec_skip(s, p1, f, w, depth) {
                Err(e) => Err(e),
                Ok(p2) => if pos < p2 <= s.len() {
                    spec_skip_group(s, p2, field, depth)
                } else {
                    Err(DecodeError::UnexpectedEof)
                },
            }
        },
    }
}

/// The wire type the entry field `e` takes.
pub open spec fn expected_wire(e: EntryView) -> u32 {
    kind_wire_type(e.kind)->0
}

/// The error of a field `number` whose tag has wire type `wire` where the
/// field takes `expected`.
pub open spec fn mismatch(number: u32, expected: u32, wire: u32) -> DecodeError {
    DecodeError::WireTypeMismatch {
        field_number: number,
        expected: expected as u8,
        actual: wire as u8,
    }
}

/// The key, or a value that is not a message, of the entry field `e`, as
/// the field `number` whose tag with wire type `wire` ends at `pos`: the
/// wire type must be the field's, and a string must be UTF-8.
pub open spec fn spec_read_field(s: Seq<u8>, pos: int, number: u32, wire: u32, e: EntryView) -> Result<
    (FieldValue, int),
    DecodeError,
> {
    if wire != expected_wire(e) {
        Err(mismatch(number, expected_wire(e), wire))
    } else {
        match spec_read_value(s, pos, wire) {
            Err(err) => Err(err),
            Ok((v, next)) => match v {
                FieldValue::Len(b) => if kind_family(e.kind) == Family::Str && !valid_utf8(b) {
                    Err(DecodeError::InvalidUtf8)
                } else {
                    Ok((v, next))
                },
                _ => Ok((v, next)),
            },
        }
    }
}

/// The payloads of a message value read so far, joined.
pub open spec fn joined(v: Option<FieldValue>) -> Seq<u8> {
    match v {
        Some(FieldValue::Len(b)) => b,
        _ => Seq::empty(),
    }
}

/// The enum number a varint value carries: its low 32 bits.
pub open spec fn enum_number(v: FieldValue) -> i32 {
    match v {
        FieldValue::Varint(x) => x as i32,
        _ => 0,
    }
}

/// One field of an entry, `field` with wire type `wire`, whose tag ends at
/// `pos`, read into `acc`: a key replaces the key; a message value's payload
/// is joined to those before it, and takes one level of nesting; any other
/// value replaces the value, and an enum's sets `known` to whether the
/// enum descriptor `ev` accepts it; another field is skipped.
pub open spec fn spec_entry_field(
    ev: Option<EnumVt>,
    s: Seq<u8>,
    pos: int,
    field: u32,
    wire: u32,
    key: EntryView,
    value: EntryView,
    depth: nat,
    acc: EntryModel,
) -> Result<(EntryModel, int), DecodeError> {
    if field == 1 {
        match spec_read_field(s, pos, 1, wire, key) {
            Ok((v, next)) => Ok((EntryModel { key: Some(v), value: acc.value, known: acc.known }, next)),
            Err(e) => Err(e),
        }
    } else if field == 2 && kind_family(value.kind) == Family::Msg {
        if wire != WIRE_LEN {
            Err(mismatch(2, WIRE_LEN, wire))
        } else if depth == 0 {
            Err(DecodeError::RecursionLimitExceeded)
        } else {
            match spec_read_sub(s, pos) {
                Ok((b, next)) => Ok(
                    (
                        EntryModel {
                            key: acc.key,
                            value: Some(FieldValue::Len(joined(acc.value) + b)),
                            known: acc.known,
                        },
                        next,
                    ),
                ),
                Err(e) => Err(e),
            }
        }
    } else if field == 2 {
        match spec_read_field(s, pos, 2, wire, value) {
            Ok((v, next)) => Ok(
                (
                    EntryModel {
                        key: acc.key,
                        value: Some(v),
                        known: if kind_family(value.kind) == Family::Enum {
                            enum_accepts(ev, enum_number(v))
                        } else {
                            acc.known
                        },
                    },
                    next,
                ),
            ),
            Err(e) => Err(e),
        }
    } else {
        match spec_skip(s, pos, field, wire, depth) {
            Ok(next) => Ok((acc, next)),
            Err(e) => Err(e),
        }
    }
}

/// The fields of an entry from `pos` of `s` on, read into `acc`.
pub open spec fn spec_entry_from(
    ev: Option<EnumVt>,
    s: Seq<u8>,
    pos: int,
    key: EntryView,
    value: EntryView,
    depth: nat,
    acc: EntryModel,
) -> Result<EntryModel, DecodeError>
    decreases s.len() - pos,
{
    if pos >= s.len() {
        Ok(acc)
    } else {
        match spec_decode_tag(s, pos) {
            Err(e) => Err(e),
            Ok((f, w, p1)) => match spec_entry_field(ev, s, p1, f, w, key, value, depth, acc) {
                Err(e) => Err(e),
                Ok((next_acc, p2)) => if pos < p2 <= s.len() {
                    spec_entry_from(ev, s, p2, key, value, depth, next_acc)
                } else {
                    Err(DecodeError::UnexpectedEof)
                },
            },
        }
    }
}

/// The entry of a map whose key and value are the fields `key` and `value`,
/// read from its payload `s` with `depth` levels of nesting left, a value
/// that is an enum described by `ev`.
pub open spec fn spec_merge_entry(
    ev: Option<EnumVt>,
    s: Seq<u8>,
    key: EntryView,
    value: EntryView,
    depth: nat,
) -> Result<EntryModel, DecodeError> {
    spec_entry_from(ev, s, 0, key, value, depth, EntryModel { key: None, value: None, known: true })
}

/// Whether `bytes` are well-formed UTF-8, by `std::str::from_utf8`, which
/// fails exactly on ill-formed input.
#[verifier::external_body]
pub(crate) fn is_utf8(bytes: &[u8]) -> (r: bool)
    ensures
        r == valid_utf8(bytes@),
{
    std::str::from_utf8(bytes).is_ok()
}

/// Read the tag at `pos` of `buf`.
pub fn decode_tag(buf: &[u8], pos: usize) -> (r: Result<(u32, u32, usize), DecodeError>)
    requires
        pos <= buf@.len(),
    ensures
        match r {
            Ok((f, w, next)) => spec_decode_tag(buf@, pos as int) == Ok::<
                (u32, u32, int),
                DecodeError,
            >((f, w, next as int)) && pos < next <= buf@.len(),
            Err(e) => spec_decode_tag(buf@, pos as int) == Err::<(u32, u32, int), DecodeError>(e),
        },
{
    let (v, next) = match decode_varint(buf, pos) {
        Ok(x) => x,
        Err(e) => {
            return Err(e);
        },
    };
    if v > 0xffff_ffff {
        return Err(DecodeError::InvalidFieldNumber);
    }
    let wire = (v % 8) as u32;
    if wire > 5 {
        return Err(DecodeError::InvalidWireType(wire));
    }
    if v / 8 == 0 {
        return Err(DecodeError::InvalidFieldNumber);
    }
    Ok(((v / 8) as u32, wire, next))
}

/// One more byte at the low end of a little-endian number.
proof fn lemma_le_value_front(s: Seq<u8>, i: int, end: int)
    requires
        0 <= i < end <= s.len(),
    ensures
        le_value(s.subrange(i, end)) == s[i] as nat + 256 * le_value(s.subrange(i + 1, end)),
{
    assert(s.subrange(i, end).drop_first() =~= s.subrange(i + 1, end));
}

/// `256` to the power `k`.
pub open spec fn pow256(k: nat) -> nat
    decreases k,
{
    if k == 0 {
        1
    } else {
        256 * pow256((k - 1) as nat)
    }
}

/// Read the `n` bytes at `pos` of `buf` as a little-endian number.
fn read_le(buf: &[u8], pos: usize, n: usize) -> (r: u64)
    requires
        n <= 8,
        pos + n <= buf@.len(),
    ensures
        r == le_value(buf@.subrange(pos as int, pos + n)),
{
    let mut acc: u64 = 0;
    let mut i: usize = n;
    let total = buf.len();
    proof {
        assert(buf@.subrange(pos + n, pos + n).len() == 0);
        reveal_with_fuel(pow256, 9);
    }
    while i > 0
        invariant
            i <= n <= 8,
            pos + n <= buf@.len(),
            total == buf@.len(),
            acc == le_value(buf@.subrange(pos + i, pos + n)),
            acc < pow256((n - i) as nat),
            pow256((n - i) as nat) <= pow256(8),
        decreases i,
    {
        proof {
            lemma_le_value_front(buf@, pos + i - 1, pos + n as int);
            reveal_with_fuel(pow256, 9);
            lemma_pow256_step((n - i) as nat);
        }
        acc = acc * 256 + buf[pos + i - 1] as u64;
        i = i - 1;
    }
    acc
}

/// Powers of `256` up to the eighth grow one step at a time, and the eighth
/// is `2^64`.
proof fn lemma_pow256_step(k: nat)
    requires
        k < 8,
    ensures
        pow256(k + 1) == 256 * pow256(k),
        pow256(k + 1) <= pow256(8),
        pow256(8) == 0x1_0000_0000_0000_0000,
{
    reveal_with_fuel(pow256, 9);
}

/// Read the value of wire type `wire` at `pos` of `buf`.
pub(crate) fn read_value(buf: &[u8], pos: usize, wire: u32) -> (r: Result<(WireValue, usize), DecodeError>)
    requires
        pos <= buf@.len(),
        is_value_wire(wire),
    ensures
        match r {
            Ok((v, next)) => spec_read_value(buf@, pos as int, wire) == Ok::<
                (FieldValue, int),
                DecodeError,
            >((v@, next as int)) && pos < next <= buf@.len(),
            Err(e) => spec_read_value(buf@, pos as int, wire) == Err::<(FieldValue, int), DecodeError>(
                e,
            ),
        },
{
    if wire == WIRE_VARINT {
        match decode_varint(buf, pos) {
            Ok((v, next)) => Ok((WireValue::Varint(v), next)),
            Err(e) => Err(e),
        }
    } else if wire == WIRE_FIXED64 {
        if buf.len() - pos < 8 {
            return Err(DecodeError::UnexpectedEof);
        }
        let v = read_le(buf, pos, 8);
        Ok((WireValue::Fixed64(v), pos + 8))
    } else if wire == WIRE_FIXED32 {
        if buf.len() - pos < 4 {
            return Err(DecodeError::UnexpectedEof);
        }
        let v = read_le(buf, pos, 4);
        proof {
            reveal_with_fuel(le_value, 5);
            assert(v < 0x1_0000_0000);
        }
        Ok((WireValue::Fixed32(v as u32), pos + 4))
    } else {
        match read_len(buf, pos) {
            Ok((b, next)) => Ok((WireValue::Len(vstd::slice::slice_to_vec(b)), next)),
            Err(e) => Err(e),
        }
    }
}

/// Read the length-delimited message at `pos` of `buf`.
pub(crate) fn read_sub(buf: &[u8], pos: usize) -> (r: Result<(&[u8], usize), DecodeError>)
    requires
        pos <= buf@.len(),
    ensures
        match r {
            Ok((b, next)) => spec_read_sub(buf@, pos as int) == Ok::<(Seq<u8>, int), DecodeError>(
                (b@, next as int),
            ) && pos < next <= buf@.len(),
            Err(e) => spec_read_sub(buf@, pos as int) == Err::<(Seq<u8>, int), DecodeError>(e),
        },
{
    let (len, next) = match decode_varint(buf, pos) {
        Ok(x) => x,
        Err(e) => {
            return Err(e);
        },
    };
    if len > MAX_MESSAGE_BYTES {
        return Err(DecodeError::MessageTooLarge);
    }
    if ((buf.len() - next) as u64) < len {
        return Err(DecodeError::UnexpectedEof);
    }
    let end = next + len as usize;
    Ok((vstd::slice::slice_subrange(buf, next, end), end))
}

/// Read the length-delimited payload at `pos` of `buf`.
pub(crate) fn read_len(buf: &[u8], pos: usize) -> (r: Result<(&[u8], usize), DecodeError>)
    requires
        pos <= buf@.len(),
    ensures
        match r {
            Ok((b, next)) => spec_read_len(buf@, pos as int) == Ok::<(Seq<u8>, int), DecodeError>(
                (b@, next as int),
            ) && pos < next <= buf@.len(),
            Err(e) => spec_read_len(buf@, pos as int) == Err::<(Seq<u8>, int), DecodeError>(e),
        },
{
    let (len, next) = match decode_varint(buf, pos) {
        Ok(x) => x,
        Err(e) => {
            return Err(e);
        },
    };
    if ((buf.len() - next) as u64) < len {
        return Err(DecodeError::UnexpectedEof);
    }
    let end = next + len as usize;
    Ok((vstd::slice::slice_subrange(buf, next, end), end))
}

/// Skip the field `field` of wire type `wire`, whose tag ends at `pos` of
/// `buf`, with `depth` levels of nesting left. Returns where it ends.
pub fn skip_field(buf: &[u8], pos: usize, field: u32, wire: u32, depth: u32) -> (r: Result<
    usize,
    DecodeError,
>)
    requires
        pos <= buf@.len(),
        wire <= 5,
    ensures
        match r {
            Ok(next) => spec_skip(buf@, pos as int, field, wire, depth as nat) == Ok::<
                int,
                DecodeError,
            >(next as int) && pos < next <= buf@.len(),
            Err(e) => spec_skip(buf@, pos as int, field, wire, depth as nat) == Err::<
                int,
                DecodeError,
            >(e),
        },
    decreases depth, 0nat,
{
    if wire == WIRE_START_GROUP {
        if depth == 0 {
            return Err(DecodeError::RecursionLimitExceeded);
        }
        skip_group(buf, pos, field, depth - 1)
    } else if wire == WIRE_END_GROUP {
        Err(DecodeError::InvalidEndGroup(field))
    } else {
        match read_value(buf, pos, wire) {
            Ok((_, next)) => Ok(next),
            Err(e) => Err(e),
        }
    }
}

/// Skip the rest of the group `field`, whose fields start at `pos` of `buf`:
/// up to and past its end tag. Returns where it ends.
fn skip_group(buf: &[u8], pos: usize, field: u32, depth: u32) -> (r: Result<usize, DecodeError>)
    requires
        pos <= buf@.len(),
    ensures
        match r {
            Ok(next) => spec_skip_group(buf@, pos as int, field, depth as nat) == Ok::<
                int,
                DecodeError,
            >(next as int) && pos < next <= buf@.len(),
            Err(e) => spec_skip_group(buf@, pos as int, field, depth as nat) == Err::<
                int,
                DecodeError,
            >(e),
        },
    decreases depth, 1nat,
{
    let mut at = pos;
    loop
        invariant
            pos <= at <= buf@.len(),
            spec_skip_group(buf@, at as int, field, depth as nat) == spec_skip_group(
                buf@,
                pos as int,
                field,
                depth as nat,
            ),
        decreases buf@.len() - at,
    {
        let (f, w, p1) = match decode_tag(buf, at) {
            Ok(t) => t,
            Err(e) => {
                return Err(e);
            },
        };
        if w == WIRE_END_GROUP {
            if f == field {
                return Ok(p1);
            } else {
                return Err(DecodeError::InvalidEndGroup(f));
            }
        }
        let p2 = match skip_field(buf, p1, f, w, depth) {
            Ok(p) => p,
            Err(e) => {
                return Err(e);
            },
        };
        at = p2;
    }
}

/// Read the key, or a value that is not a message, of the entry field `e`,
/// as the field `number` whose tag with wire type `wire` ends at `pos` of
/// `buf`.
pub(crate) fn read_field(buf: &[u8], pos: usize, number: u32, wire: u32, e: &Entry) -> (r: Result<
    (WireValue, usize),
    DecodeError,
>)
    requires
        pos <= buf@.len(),
        kind_wire_type(e@.kind) is Some,
    ensures
        match r {
            Ok((v, next)) => spec_read_field(buf@, pos as int, number, wire, e@) == Ok::<
                (FieldValue, int),
                DecodeError,
            >((v@, next as int)) && pos < next <= buf@.len(),
            Err(err) => spec_read_field(buf@, pos as int, number, wire, e@) == Err::<
                (FieldValue, int),
                DecodeError,
            >(err),
        },
{
    let expected = e.kind().wire_type();
    if wire != expected {
        return Err(
            DecodeError::WireTypeMismatch {
                field_number: number,
                expected: expected as u8,
                actual: wire as u8,
            },
        );
    }
    let (v, next) = match read_value(buf, pos, wire) {
        Ok(x) => x,
        Err(err) => {
            return Err(err);
        },
    };
    if e.kind().family() == Family::Str {
        if let WireValue::Len(b) = &v {
            if !is_utf8(b.as_slice()) {
                return Err(DecodeError::InvalidUtf8);
            }
        }
    }
    Ok((v, next))
}

/// Read one entry of the map field `vt` describes from its payload, with
/// `depth` levels of nesting left for message values and groups. A value
/// that is an enum is `known` only if its descriptor stores the number.
///
/// A message value's payloads come back joined, for the value's own table
/// to read.
pub fn merge_entry(vt: &MapVt, payload: &[u8], depth: u32) -> (r: Result<
    MapEntryFields,
    DecodeError,
>)
    ensures
        match r {
            Ok(m) => spec_merge_entry(vt.spec_value_enum(), payload@, vt.spec_key(), vt.spec_value(), depth as nat)
                == Ok::<EntryModel, DecodeError>(m@),
            Err(e) => spec_merge_entry(vt.spec_value_enum(), payload@, vt.spec_key(), vt.spec_value(), depth as nat)
                == Err::<EntryModel, DecodeError>(e),
        },
{
    let ev = vt.value_enum();
    let key_e = vt.key();
    let value_e = vt.value();
    let mut key: Option<WireValue> = None;
    let mut value: Option<WireValue> = None;
    let mut known = true;
    let mut pos: usize = 0;
    while pos < payload.len()
        invariant
            pos <= payload@.len(),
            key_e@ == vt.spec_key(),
            value_e@ == vt.spec_value(),
            ev == vt.spec_value_enum(),
            kind_wire_type(key_e@.kind) is Some,
            kind_wire_type(value_e@.kind) is Some,
            spec_merge_entry(ev, payload@, key_e@, value_e@, depth as nat) == spec_entry_from(ev, 
                payload@,
                pos as int,
                key_e@,
                value_e@,
                depth as nat,
                EntryModel { key: opt_view(key), value: opt_view(value), known },
            ),
        decreases payload@.len() - pos,
    {
        let (f, w, p1) = match decode_tag(payload, pos) {
            Ok(t) => t,
            Err(e) => {
                return Err(e);
            },
        };
        if f == 1 {
            let (v, next) = match read_field(payload, p1, 1, w, key_e) {
                Ok(x) => x,
                Err(e) => {
                    return Err(e);
                },
            };
            key = Some(v);
            pos = next;
        } else if f == 2 && value_e.kind().family() == Family::Msg {
            if w != WIRE_LEN {
                return Err(
                    DecodeError::WireTypeMismatch {
                        field_number: 2,
                        expected: WIRE_LEN as u8,
                        actual: w as u8,
                    },
                );
            }
            if depth == 0 {
                return Err(DecodeError::RecursionLimitExceeded);
            }
            let (b, next) = match read_sub(payload, p1) {
                Ok(x) => x,
                Err(e) => {
                    return Err(e);
                },
            };
            let mut bytes: Vec<u8> = match value {
                Some(WireValue::Len(v)) => v,
                _ => Vec::new(),
            };
            let mut more = vstd::slice::slice_to_vec(b);
            bytes.append(&mut more);
            value = Some(WireValue::Len(bytes));
            pos = next;
        } else if f == 2 {
            let (v, next) = match read_field(payload, p1, 2, w, value_e) {
                Ok(x) => x,
                Err(e) => {
                    return Err(e);
                },
            };
            if value_e.kind().family() == Family::Enum {
                let raw: i32 = match v {
                    WireValue::Varint(x) => #[verifier::truncate] (x as i32),
                    _ => 0,
                };
                known = accepts_number(ev, raw);
            }
            value = Some(v);
            pos = next;
        } else {
            pos = match skip_field(payload, p1, f, w, depth) {
                Ok(p) => p,
                Err(e) => {
                    return Err(e);
                },
            };
        }
    }
    Ok(MapEntryFields { key, value, known })
}

/// Where a varint ends does not depend on what comes before it.
proof fn lemma_varint_span_shift(p: Seq<u8>, t: Seq<u8>, i: int)
    requires
        0 <= i <= 10,
    ensures
        varint_span(p + t, p.len() as int, i) == varint_span(t, 0, i),
    decreases 10 - i,
{
    if i < 10 && p.len() + i < (p + t).len() {
        assert((p + t)[p.len() + i] == t[i]);
        lemma_varint_span_shift(p, t, i + 1);
    }
}

/// A varint ends after the byte it is read from and within its sequence.
proof fn lemma_varint_span_bound(s: Seq<u8>, pos: int, i: int)
    requires
        0 <= pos,
        0 <= i <= 10,
    ensures
        varint_span(s, pos, i) matches Ok(n) ==> i < n && pos + n <= s.len(),
    decreases 10 - i,
{
    if i < 10 && pos + i < s.len() && s[pos + i] >= 128 {
        lemma_varint_span_bound(s, pos, i + 1);
    }
}

/// A varint read after some bytes reads as it does on its own.
proof fn lemma_decode_varint_shift(p: Seq<u8>, t: Seq<u8>)
    ensures
        spec_decode_varint(p + t, p.len() as int) == match spec_decode_varint(t, 0) {
            Ok((v, n)) => Ok::<(u64, int), DecodeError>((v, p.len() + n)),
            Err(e) => Err::<(u64, int), DecodeError>(e),
        },
{
    lemma_varint_span_shift(p, t, 0);
    lemma_varint_span_bound(t, 0, 0);
    match varint_span(t, 0, 0) {
        Ok(n) => {
            assert((p + t).subrange(p.len() as int, p.len() + n) =~= t.subrange(0, n));
        },
        Err(_) => {},
    }
}

/// The varint `v` after the bytes `p` and before the bytes `rest`.
proof fn lemma_varint_at(p: Seq<u8>, v: u64, rest: Seq<u8>)
    ensures
        spec_decode_varint(p + varint_bytes(v as nat) + rest, p.len() as int) == Ok::<
            (u64, int),
            DecodeError,
        >((v, (p.len() + varint_len(v as nat)) as int)),
{
    lemma_varint_round_trip(v, rest);
    assert(p + varint_bytes(v as nat) + rest =~= p + (varint_bytes(v as nat) + rest));
    lemma_decode_varint_shift(p, varint_bytes(v as nat) + rest);
}

/// The little-endian bytes of a number read back as the number.
proof fn lemma_le_round_trip(v: nat, k: nat)
    requires
        v < pow256(k),
    ensures
        le_value(le_bytes(v, k)) == v,
        le_bytes(v, k).len() == k,
    decreases k,
{
    if k > 0 {
        let p = pow256((k - 1) as nat);
        assert(v / 256 < p) by (nonlinear_arith)
            requires
                v < 256 * p,
        ;
        lemma_le_round_trip(v / 256, (k - 1) as nat);
        assert(le_bytes(v, k).drop_first() =~= le_bytes(v / 256, (k - 1) as nat));
        assert(v == v % 256 + 256 * (v / 256)) by (nonlinear_arith);
    }
}

/// A value laid out after its tag reads back as itself, wherever it stands.
pub(crate) proof fn lemma_read_value_at(p: Seq<u8>, fv: FieldValue, rest: Seq<u8>)
    requires
        fv matches FieldValue::Len(b) ==> b.len() < 0x1_0000_0000_0000_0000,
    ensures
        spec_read_value(p + wire_value_bytes(fv) + rest, p.len() as int, wire_of(fv) as u32) == Ok::<
            (FieldValue, int),
            DecodeError,
        >((fv, (p.len() + wire_value_bytes(fv).len()) as int)),
{
    let s = p + wire_value_bytes(fv) + rest;
    let pos = p.len() as int;
    match fv {
        FieldValue::Varint(x) => {
            lemma_varint_at(p, x, rest);
            lemma_varint_bytes_len(x as nat);
        },
        FieldValue::Fixed64(x) => {
            lemma_pow256_step(7);
            lemma_le_round_trip(x as nat, 8);
            assert(s.subrange(pos, pos + 8) =~= le_bytes(x as nat, 8));
        },
        FieldValue::Fixed32(x) => {
            reveal_with_fuel(pow256, 5);
            lemma_le_round_trip(x as nat, 4);
            assert(s.subrange(pos, pos + 4) =~= le_bytes(x as nat, 4));
        },
        FieldValue::Len(b) => {
            let n = b.len() as u64;
            assert(s =~= p + varint_bytes(n as nat) + (b + rest));
            lemma_varint_at(p, n, b + rest);
            lemma_varint_bytes_len(n as nat);
            let next = pos + varint_len(n as nat);
            assert(s.subrange(next, next + b.len()) =~= b);
        },
    }
}

/// A tag for a field number that protobuf allows and a wire type up to 5
/// reads back, wherever it stands.
pub(crate) proof fn lemma_tag_at(p: Seq<u8>, number: nat, wire: nat, rest: Seq<u8>)
    requires
        1 <= number < 0x2000_0000,
        wire <= 5,
    ensures
        spec_decode_tag(p + varint_bytes(number * 8 + wire) + rest, p.len() as int) == Ok::<
            (u32, u32, int),
            DecodeError,
        >((number as u32, wire as u32, (p.len() + varint_len(number * 8 + wire)) as int)),
{
    let t = (number * 8 + wire) as u64;
    lemma_varint_at(p, t, rest);
    assert(t / 8 == number && t % 8 == wire);
}

/// Reading a field back: a field the writer lays out, for a field number
/// that protobuf allows, reads as its number, its value's wire type and its
/// value, and ends where its bytes end.
pub proof fn lemma_field_round_trip(number: nat, v: FieldValue, rest: Seq<u8>)
    requires
        1 <= number < 0x2000_0000,
        v matches FieldValue::Len(b) ==> b.len() < 0x1_0000_0000_0000_0000,
    ensures
        ({
            let s = wire_field_bytes(number, v) + rest;
            let tl = varint_len(number * 8 + wire_of(v));
            &&& spec_decode_tag(s, 0) == Ok::<(u32, u32, int), DecodeError>(
                (number as u32, wire_of(v) as u32, tl as int),
            )
            &&& spec_read_value(s, tl as int, wire_of(v) as u32) == Ok::<
                (FieldValue, int),
                DecodeError,
            >((v, wire_field_bytes(number, v).len() as int))
        }),
{
    let a = varint_bytes(number * 8 + wire_of(v));
    let s = wire_field_bytes(number, v) + rest;
    assert(s =~= Seq::<u8>::empty() + a + (wire_value_bytes(v) + rest));
    lemma_tag_at(Seq::<u8>::empty(), number, wire_of(v), wire_value_bytes(v) + rest);
    lemma_varint_bytes_len(number * 8 + wire_of(v));
    assert(s =~= a + wire_value_bytes(v) + rest);
    lemma_read_value_at(a, v, rest);
}

/// Reading an entry back: the record the writer lays out for the key and
/// value `kv` reads as that key and that value, and as known unless the
/// value is an enum that `ev` does not accept. Each value must be of the wire
/// type its field takes; a string must be UTF-8; a message value takes a
/// level of nesting and is at most [`MAX_MESSAGE_BYTES`] long.
#[verifier::rlimit(60)]
#[verifier::spinoff_prover]
pub proof fn lemma_entry_round_trip(
    ev: Option<EnumVt>,
    key: EntryView,
    value: EntryView,
    kv: (FieldValue, FieldValue),
    depth: nat,
)
    requires
        kind_wire_type(key.kind) == Some(wire_of(kv.0) as u32),
        kind_wire_type(value.kind) == Some(wire_of(kv.1) as u32),
        kv.0 matches FieldValue::Len(b) ==> b.len() < 0x1_0000_0000_0000_0000 && (kind_family(
            key.kind,
        ) == Family::Str ==> valid_utf8(b)),
        kv.1 matches FieldValue::Len(b) ==> b.len() < 0x1_0000_0000_0000_0000 && (kind_family(
            value.kind,
        ) == Family::Str ==> valid_utf8(b)),
        kind_family(value.kind) == Family::Msg ==> depth > 0 && kv.1->Len_0.len()
            <= MAX_MESSAGE_BYTES,
    ensures
        spec_merge_entry(ev, entry_record(kv), key, value, depth) == Ok::<EntryModel, DecodeError>(
            EntryModel {
                key: Some(kv.0),
                value: Some(kv.1),
                known: kind_family(value.kind) == Family::Enum ==> enum_accepts(ev, 
                    enum_number(kv.1),
                ),
            },
        ),
{
    let (k, v) = kv;
    let wk = wire_of(k);
    let wv = wire_of(v);
    let a = varint_bytes(8 + wk);
    let b = wire_value_bytes(k);
    let c = varint_bytes(16 + wv);
    let d = wire_value_bytes(v);
    let s = a + b + c + d;
    assert(entry_record(kv) =~= s);
    assert(expected_wire(key) == wk);
    assert(expected_wire(value) == wv);
    // The key's tag and the key.
    assert(s =~= Seq::<u8>::empty() + a + (b + c + d));
    lemma_tag_at(Seq::<u8>::empty(), 1, wk, b + c + d);
    assert(varint_bytes(8 + wk).len() == 1) by {
        lemma_varint_bytes_len(8 + wk);
    }
    assert(s =~= a + b + (c + d));
    lemma_read_value_at(a, k, c + d);
    let p1: int = 1 + b.len() as int;
    let acc0 = EntryModel { key: None, value: None, known: true };
    let acc1 = EntryModel { key: Some(k), value: None, known: true };
    assert(spec_entry_field(ev, s, 1, 1, wk as u32, key, value, depth, acc0) == Ok::<
        (EntryModel, int),
        DecodeError,
    >((acc1, p1)));
    // The value's tag and the value.
    assert(s =~= (a + b) + c + d);
    lemma_tag_at(a + b, 2, wv, d);
    assert(varint_bytes(16 + wv).len() == 1) by {
        lemma_varint_bytes_len(16 + wv);
    }
    assert(s =~= (a + b + c) + d + Seq::<u8>::empty());
    lemma_read_value_at(a + b + c, v, Seq::<u8>::empty());
    let p2: int = p1 + 1 + d.len();
    assert(s.len() == p2);
    let acc2 = EntryModel {
        key: Some(k),
        value: Some(v),
        known: kind_family(value.kind) == Family::Enum ==> enum_accepts(ev, enum_number(v)),
    };
    if kind_family(value.kind) == Family::Msg {
        let bytes = v->Len_0;
        assert(Seq::<u8>::empty() + bytes =~= bytes);
        assert(spec_read_len(s, p1 + 1) == Ok::<(Seq<u8>, int), DecodeError>((bytes, p2)));
        lemma_read_sub_of_len(s, p1 + 1);
    }
    assert(spec_entry_field(ev, s, p1 + 1, 2, wv as u32, key, value, depth, acc1) == Ok::<
        (EntryModel, int),
        DecodeError,
    >((acc2, p2)));
    assert(spec_entry_from(ev, s, p2, key, value, depth, acc2) == Ok::<EntryModel, DecodeError>(
        acc2,
    ));
    assert(spec_entry_from(ev, s, p1, key, value, depth, acc1) == Ok::<EntryModel, DecodeError>(
        acc2,
    ));
}

/// A varint that ends within `s` ends at the same place with more after it.
proof fn lemma_varint_span_prefix(s: Seq<u8>, t: Seq<u8>, pos: int, i: int)
    requires
        0 <= pos,
        0 <= i <= 10,
        varint_span(s, pos, i) is Ok,
    ensures
        varint_span(s + t, pos, i) == varint_span(s, pos, i),
    decreases 10 - i,
{
    assert((s + t)[pos + i] == s[pos + i]);
    if s[pos + i] >= 128 {
        lemma_varint_span_prefix(s, t, pos, i + 1);
    }
}

/// A varint read within `s` reads the same with more after it.
proof fn lemma_decode_varint_prefix(s: Seq<u8>, t: Seq<u8>, pos: int)
    requires
        0 <= pos,
        spec_decode_varint(s, pos) is Ok,
    ensures
        spec_decode_varint(s + t, pos) == spec_decode_varint(s, pos),
        pos < spec_decode_varint(s, pos)->Ok_0.1 <= s.len(),
{
    lemma_varint_span_prefix(s, t, pos, 0);
    lemma_varint_span_bound(s, pos, 0);
    let n = varint_span(s, pos, 0)->Ok_0;
    assert((s + t).subrange(pos, pos + n) =~= s.subrange(pos, pos + n));
}

/// A tag read within `s` reads the same with more after it.
proof fn lemma_decode_tag_prefix(s: Seq<u8>, t: Seq<u8>, pos: int)
    requires
        0 <= pos,
        spec_decode_tag(s, pos) is Ok,
    ensures
        spec_decode_tag(s + t, pos) == spec_decode_tag(s, pos),
        pos < spec_decode_tag(s, pos)->Ok_0.2 <= s.len(),
{
    lemma_decode_varint_prefix(s, t, pos);
}

/// A payload read within `s` reads the same with more after it.
proof fn lemma_read_len_prefix(s: Seq<u8>, t: Seq<u8>, pos: int)
    requires
        0 <= pos,
        spec_read_len(s, pos) is Ok,
    ensures
        spec_read_len(s + t, pos) == spec_read_len(s, pos),
        pos < spec_read_len(s, pos)->Ok_0.1 <= s.len(),
{
    lemma_decode_varint_prefix(s, t, pos);
    let (len, next) = spec_decode_varint(s, pos)->Ok_0;
    assert((s + t).subrange(next, next + len) =~= s.subrange(next, next + len));
}

/// A payload of at most [`MAX_MESSAGE_BYTES`] reads the same as a message.
pub(crate) proof fn lemma_read_sub_of_len(s: Seq<u8>, pos: int)
    requires
        0 <= pos,
        spec_read_len(s, pos) matches Ok((b, _)) && b.len() <= MAX_MESSAGE_BYTES,
    ensures
        spec_read_sub(s, pos) == spec_read_len(s, pos),
{
    lemma_varint_span_bound(s, pos, 0);
    let (len, next) = spec_decode_varint(s, pos)->Ok_0;
    assert(spec_read_len(s, pos)->Ok_0.0.len() == len);
}

/// A message read within `s` reads the same with more after it.
proof fn lemma_read_sub_prefix(s: Seq<u8>, t: Seq<u8>, pos: int)
    requires
        0 <= pos,
        spec_read_sub(s, pos) is Ok,
    ensures
        spec_read_sub(s + t, pos) == spec_read_sub(s, pos),
        pos < spec_read_sub(s, pos)->Ok_0.1 <= s.len(),
{
    lemma_decode_varint_prefix(s, t, pos);
    let (len, next) = spec_decode_varint(s, pos)->Ok_0;
    assert((s + t).subrange(next, next + len) =~= s.subrange(next, next + len));
}

/// A value read within `s` reads the same with more after it.
proof fn lemma_read_value_prefix(s: Seq<u8>, t: Seq<u8>, pos: int, wire: u32)
    requires
        0 <= pos,
        spec_read_value(s, pos, wire) is Ok,
    ensures
        spec_read_value(s + t, pos, wire) == spec_read_value(s, pos, wire),
        pos < spec_read_value(s, pos, wire)->Ok_0.1 <= s.len(),
{
    if wire == WIRE_VARINT {
        lemma_decode_varint_prefix(s, t, pos);
    } else if wire == WIRE_FIXED64 {
        assert((s + t).subrange(pos, pos + 8) =~= s.subrange(pos, pos + 8));
    } else if wire == WIRE_FIXED32 {
        assert((s + t).subrange(pos, pos + 4) =~= s.subrange(pos, pos + 4));
    } else {
        lemma_read_len_prefix(s, t, pos);
    }
}

/// A field skipped within `s` is skipped the same with more after it.
proof fn lemma_skip_prefix(s: Seq<u8>, t: Seq<u8>, pos: int, field: u32, wire: u32, depth: nat)
    requires
        0 <= pos,
        spec_skip(s, pos, field, wire, depth) is Ok,
    ensures
        spec_skip(s + t, pos, field, wire, depth) == spec_skip(s, pos, field, wire, depth),
        pos < spec_skip(s, pos, field, wire, depth)->Ok_0 <= s.len(),
    decreases depth, 0nat, 0int,
{
    if wire == WIRE_START_GROUP {
        lemma_skip_group_prefix(s, t, pos, field, (depth - 1) as nat);
    } else if wire != WIRE_END_GROUP {
        lemma_read_value_prefix(s, t, pos, wire);
    }
}

/// A group skipped within `s` is skipped the same with more after it.
#[verifier::rlimit(60)]
#[verifier::spinoff_prover]
proof fn lemma_skip_group_prefix(s: Seq<u8>, t: Seq<u8>, pos: int, field: u32, depth: nat)
    requires
        0 <= pos,
        spec_skip_group(s, pos, field, depth) is Ok,
    ensures
        spec_skip_group(s + t, pos, field, depth) == spec_skip_group(s, pos, field, depth),
        pos < spec_skip_group(s, pos, field, depth)->Ok_0 <= s.len(),
    decreases depth, 1nat, s.len() - pos,
{
    lemma_decode_tag_prefix(s, t, pos);
    let (f, w, p1) = spec_decode_tag(s, pos)->Ok_0;
    if w != WIRE_END_GROUP {
        lemma_skip_prefix(s, t, p1, f, w, depth);
        let p2 = spec_skip(s, p1, f, w, depth)->Ok_0;
        if pos < p2 <= s.len() {
            lemma_skip_group_prefix(s, t, p2, field, depth);
            assert(pos < p2 <= (s + t).len());
        }
    }
}

/// One field of an entry read within `s` reads the same with more after it.
proof fn lemma_entry_field_prefix(
    ev: Option<EnumVt>,
    s: Seq<u8>,
    t: Seq<u8>,
    pos: int,
    field: u32,
    wire: u32,
    key: EntryView,
    value: EntryView,
    depth: nat,
    acc: EntryModel,
)
    requires
        0 <= pos,
        spec_entry_field(ev, s, pos, field, wire, key, value, depth, acc) is Ok,
    ensures
        spec_entry_field(ev, s + t, pos, field, wire, key, value, depth, acc)
            == spec_entry_field(ev, s, pos, field, wire, key, value, depth, acc),
        pos < spec_entry_field(ev, s, pos, field, wire, key, value, depth, acc)->Ok_0.1 <= s.len(),
{
    if field == 1 {
        lemma_read_value_prefix(s, t, pos, wire);
    } else if field == 2 && kind_family(value.kind) == Family::Msg {
        lemma_read_sub_prefix(s, t, pos);
    } else if field == 2 {
        lemma_read_value_prefix(s, t, pos, wire);
    } else {
        lemma_skip_prefix(s, t, pos, field, wire, depth);
    }
}

/// The fields of an entry read within `s` read the same with more after
/// them, and reading goes on after them from what they gave.
proof fn lemma_entry_from_prefix(
    ev: Option<EnumVt>,
    s: Seq<u8>,
    t: Seq<u8>,
    pos: int,
    key: EntryView,
    value: EntryView,
    depth: nat,
    acc: EntryModel,
)
    requires
        0 <= pos <= s.len(),
        spec_entry_from(ev, s, pos, key, value, depth, acc) is Ok,
    ensures
        spec_entry_from(ev, s + t, pos, key, value, depth, acc) == spec_entry_from(ev, 
            s + t,
            s.len() as int,
            key,
            value,
            depth,
            spec_entry_from(ev, s, pos, key, value, depth, acc)->Ok_0,
        ),
    decreases s.len() - pos,
{
    if pos < s.len() {
        lemma_decode_tag_prefix(s, t, pos);
        let (f, w, p1) = spec_decode_tag(s, pos)->Ok_0;
        lemma_entry_field_prefix(ev, s, t, p1, f, w, key, value, depth, acc);
        let (next_acc, p2) = spec_entry_field(ev, s, p1, f, w, key, value, depth, acc)->Ok_0;
        assert(pos < p2 <= s.len());
        lemma_entry_from_prefix(ev, s, t, p2, key, value, depth, next_acc);
    }
}

/// The last key of an entry wins: a key field after the fields of an entry
/// that reads as `m` replaces `m`'s key and leaves the rest. The key must be
/// of the wire type its field takes, and a string UTF-8.
pub proof fn lemma_entry_last_key_wins(
    ev: Option<EnumVt>,
    s: Seq<u8>,
    key: EntryView,
    value: EntryView,
    depth: nat,
    k: FieldValue,
)
    requires
        spec_merge_entry(ev, s, key, value, depth) is Ok,
        kind_wire_type(key.kind) == Some(wire_of(k) as u32),
        k matches FieldValue::Len(b) ==> b.len() < 0x1_0000_0000_0000_0000 && (kind_family(
            key.kind,
        ) == Family::Str ==> valid_utf8(b)),
    ensures
        ({
            let m = spec_merge_entry(ev, s, key, value, depth)->Ok_0;
            spec_merge_entry(ev, s + wire_field_bytes(1, k), key, value, depth) == Ok::<
                EntryModel,
                DecodeError,
            >(EntryModel { key: Some(k), value: m.value, known: m.known })
        }),
{
    let acc0 = EntryModel { key: None, value: None, known: true };
    let t = wire_field_bytes(1, k);
    let m = spec_merge_entry(ev, s, key, value, depth)->Ok_0;
    lemma_entry_from_prefix(ev, s, t, 0, key, value, depth, acc0);
    let a = varint_bytes(8 + wire_of(k));
    let st = s + t;
    assert(st =~= s + a + (wire_value_bytes(k) + Seq::<u8>::empty()));
    lemma_tag_at(s, 1, wire_of(k), wire_value_bytes(k) + Seq::<u8>::empty());
    lemma_varint_bytes_len(8 + wire_of(k));
    let p1 = s.len() + varint_len(8 + wire_of(k));
    assert(st =~= (s + a) + wire_value_bytes(k) + Seq::<u8>::empty());
    lemma_read_value_at(s + a, k, Seq::<u8>::empty());
    assert(expected_wire(key) == wire_of(k));
    let m2 = EntryModel { key: Some(k), value: m.value, known: m.known };
    assert(spec_entry_field(ev, st, p1 as int, 1, wire_of(k) as u32, key, value, depth, m) == Ok::<
        (EntryModel, int),
        DecodeError,
    >((m2, st.len() as int)));
    assert(spec_entry_from(ev, st, st.len() as int, key, value, depth, m2) == Ok::<
        EntryModel,
        DecodeError,
    >(m2));
}

/// The last value of an entry wins: a value field after the fields of an
/// entry that reads as `m` replaces `m`'s value, or for a message value is
/// joined to it, which merges the two; an enum value sets `known` to whether
/// `ev` accepts it. The value must be of the wire type its field takes, a
/// string UTF-8, and a message value takes a level of nesting and is at
/// most [`MAX_MESSAGE_BYTES`] long.
#[verifier::rlimit(80)]
#[verifier::spinoff_prover]
pub proof fn lemma_entry_last_value_wins(
    ev: Option<EnumVt>,
    s: Seq<u8>,
    key: EntryView,
    value: EntryView,
    depth: nat,
    v: FieldValue,
)
    requires
        spec_merge_entry(ev, s, key, value, depth) is Ok,
        kind_wire_type(value.kind) == Some(wire_of(v) as u32),
        v matches FieldValue::Len(b) ==> b.len() < 0x1_0000_0000_0000_0000 && (kind_family(
            value.kind,
        ) == Family::Str ==> valid_utf8(b)),
        kind_family(value.kind) == Family::Msg ==> depth > 0 && v->Len_0.len()
            <= MAX_MESSAGE_BYTES,
    ensures
        ({
            let m = spec_merge_entry(ev, s, key, value, depth)->Ok_0;
            spec_merge_entry(ev, s + wire_field_bytes(2, v), key, value, depth) == Ok::<
                EntryModel,
                DecodeError,
            >(
                EntryModel {
                    key: m.key,
                    value: if kind_family(value.kind) == Family::Msg {
                        Some(FieldValue::Len(joined(m.value) + v->Len_0))
                    } else {
                        Some(v)
                    },
                    known: if kind_family(value.kind) == Family::Enum {
                        enum_accepts(ev, enum_number(v))
                    } else {
                        m.known
                    },
                },
            )
        }),
{
    let acc0 = EntryModel { key: None, value: None, known: true };
    let t = wire_field_bytes(2, v);
    let m = spec_merge_entry(ev, s, key, value, depth)->Ok_0;
    lemma_entry_from_prefix(ev, s, t, 0, key, value, depth, acc0);
    let a = varint_bytes(16 + wire_of(v));
    let st = s + t;
    assert(st =~= s + a + (wire_value_bytes(v) + Seq::<u8>::empty()));
    lemma_tag_at(s, 2, wire_of(v), wire_value_bytes(v) + Seq::<u8>::empty());
    lemma_varint_bytes_len(16 + wire_of(v));
    let p1 = s.len() + varint_len(16 + wire_of(v));
    assert(st =~= (s + a) + wire_value_bytes(v) + Seq::<u8>::empty());
    lemma_read_value_at(s + a, v, Seq::<u8>::empty());
    if kind_family(value.kind) == Family::Msg {
        lemma_read_sub_of_len(st, p1 as int);
    }
    assert(expected_wire(value) == wire_of(v));
    let m2 = EntryModel {
        key: m.key,
        value: if kind_family(value.kind) == Family::Msg {
            Some(FieldValue::Len(joined(m.value) + v->Len_0))
        } else {
            Some(v)
        },
        known: if kind_family(value.kind) == Family::Enum {
            enum_accepts(ev, enum_number(v))
        } else {
            m.known
        },
    };
    assert(spec_entry_field(ev, st, p1 as int, 2, wire_of(v) as u32, key, value, depth, m) == Ok::<
        (EntryModel, int),
        DecodeError,
    >((m2, st.len() as int)));
    assert(spec_entry_from(ev, st, st.len() as int, key, value, depth, m2) == Ok::<
        EntryModel,
        DecodeError,
    >(m2));
}

} // verus!
