//! The decode arm of one field: a value of a scalar, enum, string, bytes or
//! message field read off the wire into what the field holds, as plain
//! values. A repeated scalar or enum field takes its values one at a time or
//! packed; a number that a closed enum does not know goes to the unknown
//! fields, if the message keeps any.
use vstd::prelude::*;
use vstd::utf8::valid_utf8;
use crate::error::DecodeError;
use super::entry::{Entry, EntryView};
use super::kind::{
    kind_card, kind_family, scalar_wire, Family, ScalarType, IMPLICIT, OPTIONAL, PACKED, REPEATED,
    REQUIRED, WIRE_FIXED32, WIRE_FIXED64, WIRE_LEN, WIRE_VARINT,
};
use super::map_entry::{
    lemma_read_sub_of_len, lemma_read_value_at, lemma_tag_at, MAX_MESSAGE_BYTES, lemma_field_round_trip, spec_decode_tag, is_utf8, is_value_wire, mismatch, read_len, read_sub, read_value, spec_read_len, spec_read_sub, spec_read_value, FieldValue,
    WireValue,
};
use super::shape::{accepts_number, enum_accepts, EnumVt};
use super::wire::{
    lemma_varint_bytes_len, encode_varint, scalar_field_bytes, sign_extend, sign_extend32, tagged_bytes, value_bytes,
    values_bytes, varint_bytes, zigzag32, zigzag64,
};
use super::write::{
    field_bytes, len_field_bytes, len_fields_bytes, text_field_bytes, wire_field_bytes, wire_of,
    wire_value_bytes, FieldData, FieldDataView,
};
use super::entry::varint_len;

verus! {

/// The `sint32` whose zigzag encoding is the low 32 bits of `x`,
/// sign-extended to 64 bits.
pub open spec fn unzigzag32(x: u64) -> u64 {
    let u = x % 0x1_0000_0000;
    if u % 2 == 0 {
        (u / 2) as u64
    } else {
        (0x1_0000_0000_0000_0000 - u / 2 - 1) as u64
    }
}

/// The bits of the `sint64` whose zigzag encoding is `x`.
pub open spec fn unzigzag64(x: u64) -> u64 {
    if x % 2 == 0 {
        (x / 2) as u64
    } else {
        (0x1_0000_0000_0000_0000 - x / 2 - 1) as u64
    }
}

/// The number a field of scalar type `t` holds for the value `v` off the
/// wire, as [`value_bytes`](super::wire::value_bytes) takes it: a 32-bit
/// type keeps the low 32 bits (sign-extended for the signed ones), a
/// `sint` is un-zigzagged, and a `bool` is whether the varint is not zero.
pub open spec fn scalar_bits(t: ScalarType, v: FieldValue) -> u64 {
    match v {
        FieldValue::Varint(x) => match t {
            ScalarType::Int32 => sign_extend32(x as i32),
            ScalarType::Uint32 => (x % 0x1_0000_0000) as u64,
            ScalarType::Sint32 => unzigzag32(x),
            ScalarType::Sint64 => unzigzag64(x),
            ScalarType::Bool => if x == 0 {
                0
            } else {
                1
            },
            _ => x,
        },
        FieldValue::Fixed32(x) => if t == ScalarType::Sfixed32 {
            sign_extend32(x as i32)
        } else {
            x as u64
        },
        FieldValue::Fixed64(x) => x,
        FieldValue::Len(_) => 0,
    }
}

/// The values of wire type `wire` packed in `s` from `pos` on, after `acc`.
pub open spec fn packed_from(s: Seq<u8>, pos: int, wire: u32, acc: Seq<FieldValue>) -> Result<
    Seq<FieldValue>,
    DecodeError,
>
    decreases s.len() - pos,
{
    if pos >= s.len() {
        Ok(acc)
    } else {
        match spec_read_value(s, pos, wire) {
            Err(e) => Err(e),
            Ok((v, next)) => if pos < next <= s.len() {
                packed_from(s, next, wire, acc.push(v))
            } else {
                Err(DecodeError::UnexpectedEof)
            },
        }
    }
}

/// The values of a repeated field of wire type `wire` that come in one
/// occurrence with wire type `tag_wire` at `pos`: a packed run or a single
/// value, and where the occurrence ends; any other wire type is the error of
/// a field `number` that takes a length-delimited run.
pub open spec fn repeated_values(s: Seq<u8>, pos: int, number: u32, wire: u32, tag_wire: u32) -> Result<
    (Seq<FieldValue>, int),
    DecodeError,
> {
    if tag_wire == WIRE_LEN {
        match spec_read_len(s, pos) {
            Err(e) => Err(e),
            Ok((p, next)) => match packed_from(p, 0, wire, Seq::empty()) {
                Ok(vs) => Ok((vs, next)),
                Err(e) => Err(e),
            },
        }
    } else if tag_wire == wire {
        match spec_read_value(s, pos, wire) {
            Ok((v, next)) => Ok((seq![v], next)),
            Err(e) => Err(e),
        }
    } else {
        Err(mismatch(number, WIRE_LEN, tag_wire))
    }
}

/// The numbers a field holds, if it holds numbers.
pub open spec fn numbers_of(d: FieldDataView) -> Seq<u64> {
    match d {
        FieldDataView::Numbers(v) => v,
        _ => Seq::empty(),
    }
}

/// The items a field holds, if it holds strings or bytes.
pub open spec fn texts_of(d: FieldDataView) -> Seq<Seq<u8>> {
    match d {
        FieldDataView::Texts(v) => v,
        _ => Seq::empty(),
    }
}

/// The children a field holds, if it holds messages.
pub open spec fn children_of(d: FieldDataView) -> Seq<Seq<u8>> {
    match d {
        FieldDataView::Children(v) => v,
        _ => Seq::empty(),
    }
}

/// The enum number the varint `v` carries: its low 32 bits.
pub open spec fn raw_enum(v: FieldValue) -> i32 {
    match v {
        FieldValue::Varint(x) => x as i32,
        _ => 0,
    }
}

/// The unknown field `number` holding the enum number `raw`.
pub open spec fn rejected_bytes(number: u32, raw: i32) -> Seq<u8> {
    varint_bytes(number as nat * 8) + varint_bytes(sign_extend32(raw) as nat)
}

/// The enum numbers `vs`, from `i` on, stored into the field's numbers
/// `nums` (appended to them, or replacing them when `replace`), a number
/// that `ev` does not accept going to `unknown` instead, if the message keeps
/// unknown fields.
pub open spec fn store_enums(
    ev: Option<EnumVt>,
    vs: Seq<FieldValue>,
    i: int,
    number: u32,
    replace: bool,
    keeps: bool,
    nums: Seq<u64>,
    unknown: Seq<u8>,
) -> (Seq<u64>, Seq<u8>)
    decreases vs.len() - i,
{
    if i >= vs.len() || i < 0 {
        (nums, unknown)
    } else {
        let raw = raw_enum(vs[i]);
        if enum_accepts(ev, raw) {
            store_enums(ev, 
                vs,
                i + 1,
                number,
                replace,
                keeps,
                if replace {
                    seq![sign_extend32(raw)]
                } else {
                    nums.push(sign_extend32(raw))
                },
                unknown,
            )
        } else {
            store_enums(ev, 
                vs,
                i + 1,
                number,
                replace,
                keeps,
                nums,
                if keeps {
                    unknown + rejected_bytes(number, raw)
                } else {
                    unknown
                },
            )
        }
    }
}

/// One occurrence of the field `e`, whose tag with wire type `wire` ends at
/// `pos` of `s`, read into what the field holds, `d`, and the message's
/// unknown fields, `unknown`: what they become and where the occurrence
/// ends. `keeps` is whether the message keeps unknown fields, `depth` the
/// levels of nesting left, and `ev` the descriptor of an enum field.
pub open spec fn spec_merge_kind(
    ev: Option<EnumVt>,
    e: EntryView,
    d: FieldDataView,
    unknown: Seq<u8>,
    keeps: bool,
    wire: u32,
    s: Seq<u8>,
    pos: int,
    depth: nat,
) -> Result<(FieldDataView, Seq<u8>, int), DecodeError> {
    let number = (e.tag / 8) as u32;
    let card = kind_card(e.kind);
    let repeated = card == REPEATED || card == PACKED;
    match kind_family(e.kind) {
        Family::Scalar(t) => {
            let sw = scalar_wire(t);
            if repeated {
                match repeated_values(s, pos, number, sw, wire) {
                    Ok((vs, next)) => Ok(
                        (
                            FieldDataView::Numbers(
                                numbers_of(d) + vs.map_values(|v: FieldValue| scalar_bits(t, v)),
                            ),
                            unknown,
                            next,
                        ),
                    ),
                    Err(err) => Err(err),
                }
            } else if wire != sw {
                Err(mismatch(number, sw, wire))
            } else {
                match spec_read_value(s, pos, wire) {
                    Ok((v, next)) => Ok(
                        (FieldDataView::Numbers(seq![scalar_bits(t, v)]), unknown, next),
                    ),
                    Err(err) => Err(err),
                }
            }
        },
        Family::Enum => {
            let got = if repeated {
                repeated_values(s, pos, number, WIRE_VARINT, wire)
            } else if wire != WIRE_VARINT {
                Err(mismatch(number, WIRE_VARINT, wire))
            } else {
                match spec_read_value(s, pos, wire) {
                    Ok((v, next)) => Ok((seq![v], next)),
                    Err(err) => Err(err),
                }
            };
            match got {
                Ok((vs, next)) => {
                    let (nums, unk) = store_enums(ev, 
                        vs,
                        0,
                        number,
                        !repeated,
                        keeps,
                        numbers_of(d),
                        unknown,
                    );
                    Ok((FieldDataView::Numbers(nums), unk, next))
                },
                Err(err) => Err(err),
            }
        },
        Family::Str | Family::Bytes => if wire != WIRE_LEN {
            Err(mismatch(number, WIRE_LEN, wire))
        } else {
            match spec_read_len(s, pos) {
                Ok((b, next)) => if kind_family(e.kind) == Family::Str && !valid_utf8(b) {
                    Err(DecodeError::InvalidUtf8)
                } else {
                    Ok(
                        (
                            FieldDataView::Texts(
                                if repeated {
                                    texts_of(d).push(b)
                                } else {
                                    seq![b]
                                },
                            ),
                            unknown,
                            next,
                        ),
                    )
                },
                Err(err) => Err(err),
            }
        },
        _ => if wire != WIRE_LEN {
            Err(mismatch(number, WIRE_LEN, wire))
        } else if depth == 0 {
            Err(DecodeError::RecursionLimitExceeded)
        } else {
            match spec_read_sub(s, pos) {
                Ok((b, next)) => Ok(
                    (
                        FieldDataView::Children(
                            if repeated {
                                children_of(d).push(b)
                            } else if children_of(d).len() > 0 {
                                seq![children_of(d)[0] + b]
                            } else {
                                seq![b]
                            },
                        ),
                        unknown,
                        next,
                    ),
                ),
                Err(err) => Err(err),
            }
        },
    }
}

/// Whether the decode arm of one field covers the kind of `e`: a scalar,
/// enum, string, bytes or message field.
pub open spec fn merge_kind_covers(e: EntryView) -> bool {
    match kind_family(e.kind) {
        Family::Scalar(_) | Family::Enum | Family::Str | Family::Bytes | Family::Msg => true,
        _ => false,
    }
}

/// The wire type a value of scalar type `t` goes on the wire with.
fn scalar_wire_of(t: ScalarType) -> (r: u32)
    ensures
        r == scalar_wire(t),
{
    match t {
        ScalarType::Fixed64 | ScalarType::Sfixed64 | ScalarType::Double => WIRE_FIXED64,
        ScalarType::Fixed32 | ScalarType::Sfixed32 | ScalarType::Float => WIRE_FIXED32,
        _ => WIRE_VARINT,
    }
}

/// The number a field of scalar type `t` holds for the value `v`.
fn bits_of(t: ScalarType, v: &WireValue) -> (r: u64)
    ensures
        r == scalar_bits(t, v@),
{
    match v {
        WireValue::Varint(x) => {
            let x = *x;
            match t {
                ScalarType::Int32 => sign_extend(#[verifier::truncate] (x as i32)),
                ScalarType::Uint32 => x % 0x1_0000_0000,
                ScalarType::Sint32 => {
                    let u = x % 0x1_0000_0000;
                    if u % 2 == 0 {
                        u / 2
                    } else {
                        u64::MAX - u / 2
                    }
                },
                ScalarType::Sint64 => {
                    if x % 2 == 0 {
                        x / 2
                    } else {
                        u64::MAX - x / 2
                    }
                },
                ScalarType::Bool => {
                    if x == 0 {
                        0
                    } else {
                        1
                    }
                },
                _ => x,
            }
        },
        WireValue::Fixed32(x) => {
            if t == ScalarType::Sfixed32 {
                sign_extend(#[verifier::truncate] (*x as i32))
            } else {
                *x as u64
            }
        },
        WireValue::Fixed64(x) => *x,
        WireValue::Len(_) => 0,
    }
}

/// The values of wire type `wire` packed in `p`.
fn read_packed(p: &[u8], wire: u32) -> (r: Result<Vec<WireValue>, DecodeError>)
    requires
        is_value_wire(wire),
    ensures
        match r {
            Ok(vs) => packed_from(p@, 0, wire, Seq::empty()) == Ok::<Seq<FieldValue>, DecodeError>(
                vs@.map_values(|v: WireValue| v@),
            ),
            Err(e) => packed_from(p@, 0, wire, Seq::empty()) == Err::<Seq<FieldValue>, DecodeError>(
                e,
            ),
        },
{
    let mut out: Vec<WireValue> = Vec::new();
    let mut pos: usize = 0;
    assert(out@.map_values(|v: WireValue| v@) =~= Seq::<FieldValue>::empty());
    while pos < p.len()
        invariant
            pos <= p@.len(),
            is_value_wire(wire),
            packed_from(p@, 0, wire, Seq::empty()) == packed_from(
                p@,
                pos as int,
                wire,
                out@.map_values(|v: WireValue| v@),
            ),
        decreases p@.len() - pos,
    {
        let (v, next) = match read_value(p, pos, wire) {
            Ok(x) => x,
            Err(e) => {
                return Err(e);
            },
        };
        let ghost before = out@.map_values(|v: WireValue| v@);
        out.push(v);
        assert(out@.map_values(|v: WireValue| v@) =~= before.push(v@));
        pos = next;
    }
    Ok(out)
}

/// The values of one occurrence of a repeated field of wire type `wire`,
/// numbered `number`, whose tag with wire type `tag_wire` ends at `pos`.
fn read_repeated(buf: &[u8], pos: usize, number: u32, wire: u32, tag_wire: u32) -> (r: Result<
    (Vec<WireValue>, usize),
    DecodeError,
>)
    requires
        pos <= buf@.len(),
        wire == WIRE_VARINT || wire == WIRE_FIXED64 || wire == WIRE_FIXED32,
    ensures
        match r {
            Ok((vs, next)) => repeated_values(buf@, pos as int, number, wire, tag_wire) == Ok::<
                (Seq<FieldValue>, int),
                DecodeError,
            >((vs@.map_values(|v: WireValue| v@), next as int)) && pos < next <= buf@.len(),
            Err(e) => repeated_values(buf@, pos as int, number, wire, tag_wire) == Err::<
                (Seq<FieldValue>, int),
                DecodeError,
            >(e),
        },
{
    if tag_wire == WIRE_LEN {
        let (p, next) = match read_len(buf, pos) {
            Ok(x) => x,
            Err(e) => {
                return Err(e);
            },
        };
        match read_packed(p, wire) {
            Ok(vs) => Ok((vs, next)),
            Err(e) => Err(e),
        }
    } else if tag_wire == wire {
        match read_value(buf, pos, wire) {
            Ok((v, next)) => {
                let mut vs: Vec<WireValue> = Vec::new();
                vs.push(v);
                assert(vs@.map_values(|v: WireValue| v@) =~= seq![v@]);
                Ok((vs, next))
            },
            Err(e) => Err(e),
        }
    } else {
        Err(
            DecodeError::WireTypeMismatch {
                field_number: number,
                expected: WIRE_LEN as u8,
                actual: tag_wire as u8,
            },
        )
    }
}

/// Store the enum numbers `vs` into the field's numbers `nums` (appended,
/// or replacing them when `replace`), a number that `ev` does not accept
/// going to `unknown` if `keeps`.
fn store_enum_values(
    ev: Option<EnumVt>,
    vs: &Vec<WireValue>,
    number: u32,
    replace: bool,
    keeps: bool,
    nums: &mut Vec<u64>,
    unknown: &mut Vec<u8>,
)
    ensures
        (final(nums)@, final(unknown)@) == store_enums(ev, 
            vs@.map_values(|v: WireValue| v@),
            0,
            number,
            replace,
            keeps,
            old(nums)@,
            old(unknown)@,
        ),
{
    let ghost views = vs@.map_values(|v: WireValue| v@);
    let mut i: usize = 0;
    while i < vs.len()
        invariant
            i <= vs@.len(),
            views == vs@.map_values(|v: WireValue| v@),
            store_enums(ev, views, 0, number, replace, keeps, old(nums)@, old(unknown)@)
                == store_enums(ev, views, i as int, number, replace, keeps, nums@, unknown@),
        decreases vs@.len() - i,
    {
        let raw: i32 = match &vs[i] {
            WireValue::Varint(x) => #[verifier::truncate] (*x as i32),
            _ => 0,
        };
        assert(raw == raw_enum(views[i as int]));
        if accepts_number(ev, raw) {
            let bits = sign_extend(raw);
            if replace {
                nums.clear();
            }
            nums.push(bits);
        } else if keeps {
            let ghost before = unknown@;
            encode_varint(number as u64 * 8, unknown);
            encode_varint(sign_extend(raw), unknown);
            assert(unknown@ =~= before + rejected_bytes(number, raw));
        }
        i = i + 1;
    }
}

/// The numbers of `d`, if it holds numbers.
fn take_numbers(d: FieldData) -> (r: Vec<u64>)
    ensures
        r@ == numbers_of(d@),
{
    match d {
        FieldData::Numbers(v) => v,
        _ => Vec::new(),
    }
}

/// Append the numbers a field of scalar type `t` holds for the values `vs`.
fn push_bits(t: ScalarType, vs: &Vec<WireValue>, nums: &mut Vec<u64>)
    ensures
        final(nums)@ == old(nums)@ + vs@.map_values(|v: WireValue| v@).map_values(
            |v: FieldValue| scalar_bits(t, v),
        ),
{
    let ghost want = vs@.map_values(|v: WireValue| v@).map_values(|v: FieldValue| scalar_bits(t, v));
    let mut i: usize = 0;
    while i < vs.len()
        invariant
            i <= vs@.len(),
            want == vs@.map_values(|v: WireValue| v@).map_values(|v: FieldValue| scalar_bits(t, v)),
            nums@ == old(nums)@ + want.subrange(0, i as int),
        decreases vs@.len() - i,
    {
        let b = bits_of(t, &vs[i]);
        nums.push(b);
        assert(nums@ =~= old(nums)@ + want.subrange(0, i + 1));
        i = i + 1;
    }
    assert(want.subrange(0, vs@.len() as int) =~= want);
}

/// Read one occurrence of the field `e`, whose tag with wire type `wire`
/// ends at `pos` of `buf`, into what the field holds, `data`, and the
/// message's unknown fields, `unknown`. `keeps` is whether the message keeps
/// unknown fields, `depth` the levels of nesting left, and `ev` the descriptor
/// of an enum field. Returns where the occurrence ends; on an error,
/// `data` is as it was.
///
/// A string or bytes value replaces a singular field's and is appended to a
/// repeated one's. A message value is joined to a singular field's child,
/// which merges the two, or appended to a repeated one's children; it takes
/// a level of nesting.
#[verifier::rlimit(100)]
#[verifier::spinoff_prover]
pub fn merge_kind(
    ev: Option<EnumVt>,
    e: &Entry,
    data: &mut FieldData,
    unknown: &mut Vec<u8>,
    keeps: bool,
    wire: u32,
    buf: &[u8],
    pos: usize,
    depth: u32,
) -> (r: Result<usize, DecodeError>)
    requires
        pos <= buf@.len(),
        merge_kind_covers(e@),
    ensures
        match r {
            Ok(next) => spec_merge_kind(ev, 
                e@,
                old(data)@,
                old(unknown)@,
                keeps,
                wire,
                buf@,
                pos as int,
                depth as nat,
            ) == Ok::<(FieldDataView, Seq<u8>, int), DecodeError>(
                (final(data)@, final(unknown)@, next as int),
            ) && pos < next <= buf@.len(),
            Err(err) => spec_merge_kind(ev, 
                e@,
                old(data)@,
                old(unknown)@,
                keeps,
                wire,
                buf@,
                pos as int,
                depth as nat,
            ) == Err::<(FieldDataView, Seq<u8>, int), DecodeError>(err) && final(data)@ == old(data)@
                && final(unknown)@ == old(unknown)@,
        },
{
    let number = e.tag() / 8;
    let card = e.kind().card();
    let repeated = card == REPEATED || card == PACKED;
    let mut cur = FieldData::Numbers(Vec::new());
    std::mem::swap(&mut cur, data);
    match e.kind().family() {
        Family::Scalar(t) => {
            let sw = scalar_wire_of(t);
            if repeated {
                let (vs, next) = match read_repeated(buf, pos, number, sw, wire) {
                    Ok(x) => x,
                    Err(err) => {
                        *data = cur;
                        return Err(err);
                    },
                };
                let mut nums = take_numbers(cur);
                push_bits(t, &vs, &mut nums);
                *data = FieldData::Numbers(nums);
                Ok(next)
            } else {
                if wire != sw {
                    *data = cur;
                    return Err(
                        DecodeError::WireTypeMismatch {
                            field_number: number,
                            expected: sw as u8,
                            actual: wire as u8,
                        },
                    );
                }
                let (v, next) = match read_value(buf, pos, wire) {
                    Ok(x) => x,
                    Err(err) => {
                        *data = cur;
                        return Err(err);
                    },
                };
                let mut nums: Vec<u64> = Vec::new();
                nums.push(bits_of(t, &v));
                *data = FieldData::Numbers(nums);
                Ok(next)
            }
        },
        Family::Enum => {
            let got = if repeated {
                read_repeated(buf, pos, number, WIRE_VARINT, wire)
            } else if wire != WIRE_VARINT {
                Err(
                    DecodeError::WireTypeMismatch {
                        field_number: number,
                        expected: WIRE_VARINT as u8,
                        actual: wire as u8,
                    },
                )
            } else {
                match read_value(buf, pos, wire) {
                    Ok((v, next)) => {
                        let mut vs: Vec<WireValue> = Vec::new();
                        vs.push(v);
                        assert(vs@.map_values(|v: WireValue| v@) =~= seq![v@]);
                        Ok((vs, next))
                    },
                    Err(err) => Err(err),
                }
            };
            let (vs, next) = match got {
                Ok(x) => x,
                Err(err) => {
                    *data = cur;
                    return Err(err);
                },
            };
            let mut nums = take_numbers(cur);
            store_enum_values(ev, &vs, number, !repeated, keeps, &mut nums, unknown);
            *data = FieldData::Numbers(nums);
            Ok(next)
        },
        Family::Str | Family::Bytes => {
            if wire != WIRE_LEN {
                *data = cur;
                return Err(
                    DecodeError::WireTypeMismatch {
                        field_number: number,
                        expected: WIRE_LEN as u8,
                        actual: wire as u8,
                    },
                );
            }
            let (b, next) = match read_len(buf, pos) {
                Ok(x) => x,
                Err(err) => {
                    *data = cur;
                    return Err(err);
                },
            };
            if e.kind().family() == Family::Str && !is_utf8(b) {
                *data = cur;
                return Err(DecodeError::InvalidUtf8);
            }
            let item = vstd::slice::slice_to_vec(b);
            let mut items: Vec<Vec<u8>> = match cur {
                FieldData::Texts(v) => if repeated {
                    v
                } else {
                    Vec::new()
                },
                _ => Vec::new(),
            };
            let ghost before = items@.map_values(|x: Vec<u8>| x@);
            proof {
                if repeated {
                    assert(before == texts_of(old(data)@));
                } else {
                    assert(before =~= Seq::<Seq<u8>>::empty());
                }
            }
            items.push(item);
            assert(items@.map_values(|x: Vec<u8>| x@) =~= before.push(b@));
            *data = FieldData::Texts(items);
            Ok(next)
        },
        _ => {
            if wire != WIRE_LEN {
                *data = cur;
                return Err(
                    DecodeError::WireTypeMismatch {
                        field_number: number,
                        expected: WIRE_LEN as u8,
                        actual: wire as u8,
                    },
                );
            }
            if depth == 0 {
                *data = cur;
                return Err(DecodeError::RecursionLimitExceeded);
            }
            let (b, next) = match read_sub(buf, pos) {
                Ok(x) => x,
                Err(err) => {
                    *data = cur;
                    return Err(err);
                },
            };
            let mut children: Vec<Vec<u8>> = match cur {
                FieldData::Children(v) => v,
                _ => Vec::new(),
            };
            let ghost before = children@.map_values(|x: Vec<u8>| x@);
            assert(before == children_of(old(data)@));
            if repeated {
                children.push(vstd::slice::slice_to_vec(b));
                assert(children@.map_values(|x: Vec<u8>| x@) =~= before.push(b@));
            } else if children.len() > 0 {
                let mut first: Vec<u8> = children.swap_remove(0);
                let mut more = vstd::slice::slice_to_vec(b);
                first.append(&mut more);
                let mut one: Vec<Vec<u8>> = Vec::new();
                one.push(first);
                children = one;
                assert(children@.map_values(|x: Vec<u8>| x@) =~= seq![before[0] + b@]);
            } else {
                children.push(vstd::slice::slice_to_vec(b));
                assert(children@.map_values(|x: Vec<u8>| x@) =~= seq![b@]);
            }
            *data = FieldData::Children(children);
            Ok(next)
        },
    }
}

/// Whether a field of scalar type `t` holds `x` as the wire gives it back
/// unchanged: any value of a 64-bit type, a value below 2^32 of an
/// unsigned 32-bit or `float` type, `0` or `1` for a `bool`, and a 32-bit
/// value sign-extended to 64 bits for a signed 32-bit type.
pub open spec fn bits_kept(t: ScalarType, x: u64) -> bool {
    ||| t == ScalarType::Int64
    ||| t == ScalarType::Uint64
    ||| t == ScalarType::Sint64
    ||| t == ScalarType::Fixed64
    ||| t == ScalarType::Sfixed64
    ||| t == ScalarType::Double
    ||| (t == ScalarType::Fixed32 || t == ScalarType::Float || t == ScalarType::Uint32) && x
        < 0x1_0000_0000
    ||| t == ScalarType::Bool && x <= 1
    ||| (t == ScalarType::Int32 || t == ScalarType::Sint32 || t == ScalarType::Sfixed32) && (x
        < 0x8000_0000 || x >= 0xffff_ffff_8000_0000)
}

/// The value the writer lays out for the number `x` of scalar type `t`, as
/// the wire gives it.
pub open spec fn wire_value_of(t: ScalarType, x: u64) -> FieldValue {
    if scalar_wire(t) == WIRE_FIXED64 {
        FieldValue::Fixed64(x)
    } else if scalar_wire(t) == WIRE_FIXED32 {
        FieldValue::Fixed32((x % 0x1_0000_0000) as u32)
    } else if t == ScalarType::Sint32 {
        FieldValue::Varint(zigzag32(x as nat) as u64)
    } else if t == ScalarType::Sint64 {
        FieldValue::Varint(zigzag64(x as nat) as u64)
    } else {
        FieldValue::Varint(x)
    }
}

/// Reading a field back: the bytes the writer lays out for a singular
/// scalar field numbered `number` that holds `x` (not the default of an
/// implicit field) read as a tag for that field and then, through the decode
/// arm, as `x` again, up to their end, whatever the field held before.
#[verifier::rlimit(60)]
#[verifier::spinoff_prover]
pub proof fn lemma_scalar_round_trip(
    ev: Option<EnumVt>,
    e: EntryView,
    number: nat,
    x: u64,
    d: FieldDataView,
    unknown: Seq<u8>,
    keeps: bool,
    depth: nat,
)
    requires
        kind_family(e.kind) matches Family::Scalar(t) && bits_kept(t, x),
        kind_card(e.kind) == IMPLICIT || kind_card(e.kind) == REQUIRED || kind_card(e.kind)
            == OPTIONAL,
        kind_card(e.kind) == IMPLICIT ==> x != 0,
        1 <= number < 0x2000_0000,
        e.tag == number * 8 + scalar_wire(kind_family(e.kind)->Scalar_0),
    ensures
        ({
            let t = kind_family(e.kind)->Scalar_0;
            let s = field_bytes(e, FieldDataView::Numbers(seq![x]));
            let tl = varint_len(e.tag as nat);
            &&& spec_decode_tag(s, 0) == Ok::<(u32, u32, int), DecodeError>(
                (number as u32, scalar_wire(t), tl as int),
            )
            &&& spec_merge_kind(ev, e, d, unknown, keeps, scalar_wire(t), s, tl as int, depth)
                == Ok::<(FieldDataView, Seq<u8>, int), DecodeError>(
                (FieldDataView::Numbers(seq![x]), unknown, s.len() as int),
            )
        }),
{
    let t = kind_family(e.kind)->Scalar_0;
    let fv = wire_value_of(t, x);
    let card = kind_card(e.kind);
    let s = field_bytes(e, FieldDataView::Numbers(seq![x]));
    assert(seq![x].drop_last() =~= Seq::<u64>::empty());
    assert(s == scalar_field_bytes(e.tag, t, card, seq![x]));
    assert(s == tagged_bytes(e.tag, t, seq![x]));
    assert(tagged_bytes(e.tag, t, Seq::<u64>::empty()) == Seq::<u8>::empty());
    assert(seq![x].last() == x);
    assert(tagged_bytes(e.tag, t, seq![x]) == tagged_bytes(e.tag, t, Seq::<u64>::empty())
        + varint_bytes(e.tag as nat) + value_bytes(t, x));
    assert(s =~= varint_bytes(e.tag as nat) + value_bytes(t, x));
    lemma_value_of(t, x);
    assert(s =~= wire_field_bytes(number, fv) + Seq::<u8>::empty());
    lemma_field_round_trip(number, fv, Seq::<u8>::empty());
    assert(e.tag / 8 == number);
}

/// A singular scalar field the writer lays out, wherever it stands between
/// `p` and `rest`, reads as a tag for its entry and then, through the decode
/// arm, as the number it held, up to its end.
#[verifier::rlimit(100)]
#[verifier::spinoff_prover]
pub(crate) proof fn lemma_scalar_field_at(
    ev: Option<EnumVt>,
    e: EntryView,
    x: u64,
    d: FieldDataView,
    unknown: Seq<u8>,
    keeps: bool,
    depth: nat,
    p: Seq<u8>,
    rest: Seq<u8>,
)
    requires
        kind_family(e.kind) matches Family::Scalar(t) && bits_kept(t, x),
        kind_card(e.kind) == IMPLICIT || kind_card(e.kind) == REQUIRED || kind_card(e.kind)
            == OPTIONAL,
        kind_card(e.kind) == IMPLICIT ==> x != 0,
        e.number() >= 1,
        e.wire() == scalar_wire(kind_family(e.kind)->Scalar_0),
    ensures
        ({
            let t = kind_family(e.kind)->Scalar_0;
            let fb = field_bytes(e, FieldDataView::Numbers(seq![x]));
            let s = p + fb + rest;
            let tl = varint_len(e.tag as nat);
            &&& fb.len() > 0
            &&& spec_decode_tag(s, p.len() as int) == Ok::<(u32, u32, int), DecodeError>(
                (e.number() as u32, scalar_wire(t), (p.len() + tl) as int),
            )
            &&& spec_merge_kind(ev, e, d, unknown, keeps, scalar_wire(t), s, (p.len() + tl) as int, depth)
                == Ok::<(FieldDataView, Seq<u8>, int), DecodeError>(
                (FieldDataView::Numbers(seq![x]), unknown, (p.len() + fb.len()) as int),
            )
        }),
{
    let t = kind_family(e.kind)->Scalar_0;
    let fv = wire_value_of(t, x);
    let card = kind_card(e.kind);
    let number = e.number();
    let fb = field_bytes(e, FieldDataView::Numbers(seq![x]));
    assert(seq![x].drop_last() =~= Seq::<u64>::empty());
    assert(fb == scalar_field_bytes(e.tag, t, card, seq![x]));
    assert(fb == tagged_bytes(e.tag, t, seq![x]));
    assert(tagged_bytes(e.tag, t, Seq::<u64>::empty()) == Seq::<u8>::empty());
    assert(seq![x].last() == x);
    assert(tagged_bytes(e.tag, t, seq![x]) == tagged_bytes(e.tag, t, Seq::<u64>::empty())
        + varint_bytes(e.tag as nat) + value_bytes(t, x));
    lemma_value_of(t, x);
    assert(e.tag as nat == number * 8 + wire_of(fv));
    let a = varint_bytes(e.tag as nat);
    assert(fb =~= a + wire_value_bytes(fv));
    let s = p + fb + rest;
    assert(s =~= p + a + (wire_value_bytes(fv) + rest));
    lemma_tag_at(p, number, wire_of(fv), wire_value_bytes(fv) + rest);
    lemma_varint_bytes_len(e.tag as nat);
    assert(s =~= (p + a) + wire_value_bytes(fv) + rest);
    lemma_read_value_at(p + a, fv, rest);
}

/// A singular string or bytes field the writer lays out, wherever it stands,
/// reads its tag back and then decodes to the one item it held.
pub(crate) proof fn lemma_text_field_at(
    ev: Option<EnumVt>,
    e: EntryView,
    b: Seq<u8>,
    d: FieldDataView,
    unknown: Seq<u8>,
    keeps: bool,
    depth: nat,
    p: Seq<u8>,
    rest: Seq<u8>,
)
    requires
        kind_family(e.kind) == Family::Str || kind_family(e.kind) == Family::Bytes,
        kind_card(e.kind) == IMPLICIT || kind_card(e.kind) == REQUIRED || kind_card(e.kind)
            == OPTIONAL,
        kind_card(e.kind) == IMPLICIT ==> b.len() > 0,
        kind_family(e.kind) == Family::Str ==> valid_utf8(b),
        b.len() < 0x1_0000_0000_0000_0000,
        e.number() >= 1,
        e.wire() == WIRE_LEN,
    ensures
        ({
            let fb = field_bytes(e, FieldDataView::Texts(seq![b]));
            let s = p + fb + rest;
            let tl = varint_len(e.tag as nat);
            &&& fb.len() > 0
            &&& spec_decode_tag(s, p.len() as int) == Ok::<(u32, u32, int), DecodeError>(
                (e.number() as u32, WIRE_LEN, (p.len() + tl) as int),
            )
            &&& spec_merge_kind(ev, e, d, unknown, keeps, WIRE_LEN, s, (p.len() + tl) as int, depth)
                == Ok::<(FieldDataView, Seq<u8>, int), DecodeError>(
                (FieldDataView::Texts(seq![b]), unknown, (p.len() + fb.len()) as int),
            )
        }),
{
    let fv = FieldValue::Len(b);
    let number = e.number();
    let fb = field_bytes(e, FieldDataView::Texts(seq![b]));
    assert(seq![b].drop_last() =~= Seq::<Seq<u8>>::empty());
    assert(seq![b].last() == b);
    assert(fb == text_field_bytes(e.tag, kind_card(e.kind), seq![b]));
    assert(fb == len_fields_bytes(e.tag, seq![b]));
    assert(len_fields_bytes(e.tag, Seq::<Seq<u8>>::empty()) == Seq::<u8>::empty());
    assert(fb =~= len_field_bytes(e.tag, b));
    assert(e.tag as nat == number * 8 + wire_of(fv));
    let a = varint_bytes(e.tag as nat);
    assert(fb =~= a + wire_value_bytes(fv));
    let s = p + fb + rest;
    assert(s =~= p + a + (wire_value_bytes(fv) + rest));
    lemma_tag_at(p, number, wire_of(fv), wire_value_bytes(fv) + rest);
    lemma_varint_bytes_len(e.tag as nat);
    assert(s =~= (p + a) + wire_value_bytes(fv) + rest);
    lemma_read_value_at(p + a, fv, rest);
}

/// A number the wire gives back unchanged is laid out as the value it reads
/// back as, and that value holds it.
pub(crate) proof fn lemma_value_of(t: ScalarType, x: u64)
    requires
        bits_kept(t, x),
    ensures
        value_bytes(t, x) == wire_value_bytes(wire_value_of(t, x)),
        wire_of(wire_value_of(t, x)) == scalar_wire(t),
        scalar_bits(t, wire_value_of(t, x)) == x,
{
    if t == ScalarType::Sint64 {
        assert(zigzag64(x as nat) < 0x1_0000_0000_0000_0000);
        let z = zigzag64(x as nat) as u64;
        assert(z as nat == zigzag64(x as nat));
        if x < 0x8000_0000_0000_0000 {
            assert(z % 2 == 0 && z / 2 == x);
        } else {
            assert(z % 2 == 1 && z / 2 == 0xffff_ffff_ffff_ffff - x);
        }
    } else if t == ScalarType::Sint32 {
        let y = x % 0x1_0000_0000;
        if x < 0x8000_0000 {
            assert(y == x);
        } else {
            assert(y == x - 0xffff_ffff_0000_0000);
        }
        assert(zigzag32(x as nat) < 0x1_0000_0000);
        let z = zigzag32(x as nat) as u64;
        assert(z as nat == zigzag32(x as nat));
        assert(z % 0x1_0000_0000 == z);
        if x < 0x8000_0000 {
            assert(z % 2 == 0 && z / 2 == x);
        } else {
            assert(z % 2 == 1 && z / 2 == 0xffff_ffff - y);
        }
    } else if t == ScalarType::Int32 {
        if x < 0x8000_0000 {
            assert((x as i32) == x) by (bit_vector)
                requires
                    x < 0x8000_0000u64,
            ;
        } else {
            assert((x as i32) == x - 0x1_0000_0000_0000_0000) by (bit_vector)
                requires
                    x >= 0xffff_ffff_8000_0000u64,
            ;
        }
    } else if t == ScalarType::Sfixed32 {
        let w = (x % 0x1_0000_0000) as u32;
        if x < 0x8000_0000 {
            assert(w == x);
            assert((w as i32) == w) by (bit_vector)
                requires
                    w < 0x8000_0000u32,
            ;
        } else {
            assert(w == x - 0xffff_ffff_0000_0000);
            assert((w as i32) == w - 0x1_0000_0000) by (bit_vector)
                requires
                    w >= 0x8000_0000u32,
            ;
        }
    } else if scalar_wire(t) == WIRE_FIXED32 {
        assert(x % 0x1_0000_0000 == x);
    }
}

/// The values of the first `k` of `vs` begin the values of all of them.
proof fn lemma_values_prefix(t: ScalarType, vs: Seq<u64>, k: int)
    requires
        0 <= k <= vs.len(),
    ensures
        values_bytes(t, vs) == values_bytes(t, vs.take(k)) + values_bytes(t, vs).subrange(
            values_bytes(t, vs.take(k)).len() as int,
            values_bytes(t, vs).len() as int,
        ),
        values_bytes(t, vs.take(k)).len() <= values_bytes(t, vs).len(),
    decreases vs.len() - k,
{
    if k < vs.len() {
        lemma_values_prefix(t, vs, k + 1);
        assert(vs.take(k + 1).drop_last() =~= vs.take(k));
        assert(vs.take(k + 1).last() == vs[k]);
        assert(values_bytes(t, vs.take(k + 1)) == values_bytes(t, vs.take(k)) + value_bytes(t, vs[k]));
    } else {
        assert(vs.take(k) =~= vs);
    }
    assert(values_bytes(t, vs) =~= values_bytes(t, vs.take(k)) + values_bytes(t, vs).subrange(
        values_bytes(t, vs.take(k)).len() as int,
        values_bytes(t, vs).len() as int,
    ));
}

/// A packed run the writer lays out for `vs` reads back, from the end of its
/// first `k` values, as the values that hold the rest of `vs`, after those
/// of the first `k`.
proof fn lemma_packed_from(t: ScalarType, vs: Seq<u64>, k: int)
    requires
        0 <= k <= vs.len(),
        forall|j: int| 0 <= j < vs.len() ==> bits_kept(t, #[trigger] vs[j]),
    ensures
        packed_from(
            values_bytes(t, vs),
            values_bytes(t, vs.take(k)).len() as int,
            scalar_wire(t),
            vs.take(k).map_values(|x: u64| wire_value_of(t, x)),
        ) == Ok::<Seq<FieldValue>, DecodeError>(vs.map_values(|x: u64| wire_value_of(t, x))),
    decreases vs.len() - k,
{
    let s = values_bytes(t, vs);
    lemma_values_prefix(t, vs, k);
    if k == vs.len() {
        assert(vs.take(k) =~= vs);
    } else {
        lemma_values_prefix(t, vs, k + 1);
        let pre = values_bytes(t, vs.take(k));
        let x = vs[k];
        let fv = wire_value_of(t, x);
        assert(bits_kept(t, x));
        lemma_value_of(t, x);
        assert(vs.take(k + 1).drop_last() =~= vs.take(k));
        assert(vs.take(k + 1).last() == x);
        assert(values_bytes(t, vs.take(k + 1)) == pre + value_bytes(t, x));
        let rest = s.subrange((pre.len() + value_bytes(t, x).len()) as int, s.len() as int);
        assert(s =~= pre + wire_value_bytes(fv) + rest);
        lemma_read_value_at(pre, fv, rest);
        assert(vs.take(k + 1).map_values(|x: u64| wire_value_of(t, x)) =~= vs.take(k).map_values(
            |x: u64| wire_value_of(t, x),
        ).push(fv));
        lemma_packed_from(t, vs, k + 1);
    }
}

/// Values read back from a packed run hold the numbers they were laid out
/// from.
proof fn lemma_packed_bits(t: ScalarType, vs: Seq<u64>)
    requires
        forall|j: int| 0 <= j < vs.len() ==> bits_kept(t, #[trigger] vs[j]),
    ensures
        vs.map_values(|x: u64| wire_value_of(t, x)).map_values(|v: FieldValue| scalar_bits(t, v))
            == vs,
{
    assert forall|j: int| 0 <= j < vs.len() implies vs.map_values(|x: u64| wire_value_of(t, x)).map_values(
        |v: FieldValue| scalar_bits(t, v),
    )[j] == #[trigger] vs[j] by {
        lemma_value_of(t, vs[j]);
    }
    assert(vs.map_values(|x: u64| wire_value_of(t, x)).map_values(|v: FieldValue| scalar_bits(t, v))
        =~= vs);
}

/// A packed scalar field the writer lays out, wherever it stands, reads its
/// tag back and then decodes to the numbers it held, after any the field
/// held before.
pub(crate) proof fn lemma_packed_field_at(
    ev: Option<EnumVt>,
    e: EntryView,
    vs: Seq<u64>,
    d: FieldDataView,
    unknown: Seq<u8>,
    keeps: bool,
    depth: nat,
    p: Seq<u8>,
    rest: Seq<u8>,
)
    requires
        kind_family(e.kind) is Scalar,
        kind_card(e.kind) == PACKED,
        vs.len() > 0,
        forall|j: int| 0 <= j < vs.len() ==> bits_kept(kind_family(e.kind)->Scalar_0, #[trigger] vs[j]),
        values_bytes(kind_family(e.kind)->Scalar_0, vs).len() < 0x1_0000_0000_0000_0000,
        e.number() >= 1,
        e.wire() == WIRE_LEN,
    ensures
        ({
            let fb = field_bytes(e, FieldDataView::Numbers(vs));
            let s = p + fb + rest;
            let tl = varint_len(e.tag as nat);
            &&& fb.len() > 0
            &&& spec_decode_tag(s, p.len() as int) == Ok::<(u32, u32, int), DecodeError>(
                (e.number() as u32, WIRE_LEN, (p.len() + tl) as int),
            )
            &&& spec_merge_kind(ev, e, d, unknown, keeps, WIRE_LEN, s, (p.len() + tl) as int, depth)
                == Ok::<(FieldDataView, Seq<u8>, int), DecodeError>(
                (FieldDataView::Numbers(numbers_of(d) + vs), unknown, (p.len() + fb.len()) as int),
            )
        }),
{
    let t = kind_family(e.kind)->Scalar_0;
    let payload = values_bytes(t, vs);
    let fv = FieldValue::Len(payload);
    let number = e.number();
    let fb = field_bytes(e, FieldDataView::Numbers(vs));
    assert(fb == scalar_field_bytes(e.tag, t, PACKED, vs));
    assert(e.tag as nat == number * 8 + wire_of(fv));
    let a = varint_bytes(e.tag as nat);
    assert(fb =~= a + wire_value_bytes(fv));
    let s = p + fb + rest;
    assert(s =~= p + a + (wire_value_bytes(fv) + rest));
    lemma_tag_at(p, number, wire_of(fv), wire_value_bytes(fv) + rest);
    lemma_varint_bytes_len(e.tag as nat);
    assert(s =~= (p + a) + wire_value_bytes(fv) + rest);
    lemma_read_value_at(p + a, fv, rest);
    lemma_packed_from(t, vs, 0);
    assert(vs.take(0) =~= Seq::<u64>::empty());
    assert(vs.take(0).map_values(|x: u64| wire_value_of(t, x)) =~= Seq::<FieldValue>::empty());
    assert(values_bytes(t, Seq::<u64>::empty()) == Seq::<u8>::empty());
    lemma_packed_bits(t, vs);
}

/// The tagged values of the first `k` of `vs` begin those of all of them.
pub(crate) proof fn lemma_tagged_prefix(tag: u32, t: ScalarType, vs: Seq<u64>, k: int)
    requires
        0 <= k <= vs.len(),
    ensures
        tagged_bytes(tag, t, vs) == tagged_bytes(tag, t, vs.take(k)) + tagged_bytes(tag, t, vs).subrange(
            tagged_bytes(tag, t, vs.take(k)).len() as int,
            tagged_bytes(tag, t, vs).len() as int,
        ),
        tagged_bytes(tag, t, vs.take(k)).len() <= tagged_bytes(tag, t, vs).len(),
    decreases vs.len() - k,
{
    if k < vs.len() {
        lemma_tagged_prefix(tag, t, vs, k + 1);
        assert(vs.take(k + 1).drop_last() =~= vs.take(k));
        assert(vs.take(k + 1).last() == vs[k]);
        assert(tagged_bytes(tag, t, vs.take(k + 1)) == tagged_bytes(tag, t, vs.take(k)) + varint_bytes(
            tag as nat,
        ) + value_bytes(t, vs[k]));
    } else {
        assert(vs.take(k) =~= vs);
    }
    assert(tagged_bytes(tag, t, vs) =~= tagged_bytes(tag, t, vs.take(k)) + tagged_bytes(tag, t, vs).subrange(
        tagged_bytes(tag, t, vs.take(k)).len() as int,
        tagged_bytes(tag, t, vs).len() as int,
    ));
}

/// One value of a repeated scalar field the writer lays out after its own
/// tag, wherever it stands, reads its tag back and then decodes to the
/// number, added after those the field held before.
pub(crate) proof fn lemma_repeated_value_at(
    ev: Option<EnumVt>,
    e: EntryView,
    x: u64,
    d: FieldDataView,
    unknown: Seq<u8>,
    keeps: bool,
    depth: nat,
    p: Seq<u8>,
    rest: Seq<u8>,
)
    requires
        kind_family(e.kind) matches Family::Scalar(t) && bits_kept(t, x),
        kind_card(e.kind) == REPEATED,
        e.number() >= 1,
        e.wire() == scalar_wire(kind_family(e.kind)->Scalar_0),
    ensures
        ({
            let t = kind_family(e.kind)->Scalar_0;
            let vb = varint_bytes(e.tag as nat) + value_bytes(t, x);
            let s = p + vb + rest;
            let tl = varint_len(e.tag as nat);
            &&& vb.len() > 0
            &&& spec_decode_tag(s, p.len() as int) == Ok::<(u32, u32, int), DecodeError>(
                (e.number() as u32, scalar_wire(t), (p.len() + tl) as int),
            )
            &&& spec_merge_kind(ev, e, d, unknown, keeps, scalar_wire(t), s, (p.len() + tl) as int, depth)
                == Ok::<(FieldDataView, Seq<u8>, int), DecodeError>(
                (FieldDataView::Numbers(numbers_of(d).push(x)), unknown, (p.len() + vb.len()) as int),
            )
        }),
{
    let t = kind_family(e.kind)->Scalar_0;
    let fv = wire_value_of(t, x);
    let number = e.number();
    lemma_value_of(t, x);
    assert(e.tag as nat == number * 8 + wire_of(fv));
    let a = varint_bytes(e.tag as nat);
    let vb = a + value_bytes(t, x);
    let s = p + vb + rest;
    assert(s =~= p + a + (wire_value_bytes(fv) + rest));
    lemma_tag_at(p, number, wire_of(fv), wire_value_bytes(fv) + rest);
    lemma_varint_bytes_len(e.tag as nat);
    assert(s =~= (p + a) + wire_value_bytes(fv) + rest);
    lemma_read_value_at(p + a, fv, rest);
    assert(seq![fv].map_values(|v: FieldValue| scalar_bits(t, v)) =~= seq![x]);
    assert(numbers_of(d) + seq![x] =~= numbers_of(d).push(x));
}

/// The fields for the first `k` of `items` begin those for all of them.
pub(crate) proof fn lemma_len_fields_prefix(tag: u32, items: Seq<Seq<u8>>, k: int)
    requires
        0 <= k <= items.len(),
    ensures
        len_fields_bytes(tag, items) == len_fields_bytes(tag, items.take(k)) + len_fields_bytes(
            tag,
            items,
        ).subrange(
            len_fields_bytes(tag, items.take(k)).len() as int,
            len_fields_bytes(tag, items).len() as int,
        ),
        len_fields_bytes(tag, items.take(k)).len() <= len_fields_bytes(tag, items).len(),
    decreases items.len() - k,
{
    if k < items.len() {
        lemma_len_fields_prefix(tag, items, k + 1);
        assert(items.take(k + 1).drop_last() =~= items.take(k));
        assert(items.take(k + 1).last() == items[k]);
        assert(len_fields_bytes(tag, items.take(k + 1)) == len_fields_bytes(tag, items.take(k))
            + len_field_bytes(tag, items[k]));
    } else {
        assert(items.take(k) =~= items);
    }
    assert(len_fields_bytes(tag, items) =~= len_fields_bytes(tag, items.take(k)) + len_fields_bytes(
        tag,
        items,
    ).subrange(
        len_fields_bytes(tag, items.take(k)).len() as int,
        len_fields_bytes(tag, items).len() as int,
    ));
}

/// One item of a repeated string or bytes field the writer lays out after
/// its own tag, wherever it stands, reads its tag back and then decodes to
/// the item, added after those the field held before.
pub(crate) proof fn lemma_repeated_text_at(
    ev: Option<EnumVt>,
    e: EntryView,
    b: Seq<u8>,
    d: FieldDataView,
    unknown: Seq<u8>,
    keeps: bool,
    depth: nat,
    p: Seq<u8>,
    rest: Seq<u8>,
)
    requires
        kind_family(e.kind) == Family::Str || kind_family(e.kind) == Family::Bytes,
        kind_card(e.kind) == REPEATED,
        kind_family(e.kind) == Family::Str ==> valid_utf8(b),
        b.len() < 0x1_0000_0000_0000_0000,
        e.number() >= 1,
        e.wire() == WIRE_LEN,
    ensures
        ({
            let fb = len_field_bytes(e.tag, b);
            let s = p + fb + rest;
            let tl = varint_len(e.tag as nat);
            &&& fb.len() > 0
            &&& spec_decode_tag(s, p.len() as int) == Ok::<(u32, u32, int), DecodeError>(
                (e.number() as u32, WIRE_LEN, (p.len() + tl) as int),
            )
            &&& spec_merge_kind(ev, e, d, unknown, keeps, WIRE_LEN, s, (p.len() + tl) as int, depth)
                == Ok::<(FieldDataView, Seq<u8>, int), DecodeError>(
                (FieldDataView::Texts(texts_of(d).push(b)), unknown, (p.len() + fb.len()) as int),
            )
        }),
{
    let fv = FieldValue::Len(b);
    let number = e.number();
    let fb = len_field_bytes(e.tag, b);
    assert(e.tag as nat == number * 8 + wire_of(fv));
    let a = varint_bytes(e.tag as nat);
    assert(fb =~= a + wire_value_bytes(fv));
    let s = p + fb + rest;
    assert(s =~= p + a + (wire_value_bytes(fv) + rest));
    lemma_tag_at(p, number, wire_of(fv), wire_value_bytes(fv) + rest);
    lemma_varint_bytes_len(e.tag as nat);
    assert(s =~= (p + a) + wire_value_bytes(fv) + rest);
    lemma_read_value_at(p + a, fv, rest);
}

/// One message value the writer lays out after its own tag, wherever it
/// stands, reads its tag back and then decodes, through the decode arm, to
/// the value added after those the field held before (a singular field
/// holding none).
pub(crate) proof fn lemma_child_at(
    ev: Option<EnumVt>,
    e: EntryView,
    b: Seq<u8>,
    d: FieldDataView,
    unknown: Seq<u8>,
    keeps: bool,
    depth: nat,
    p: Seq<u8>,
    rest: Seq<u8>,
)
    requires
        kind_family(e.kind) == Family::Msg,
        kind_card(e.kind) == REPEATED || children_of(d).len() == 0,
        b.len() <= MAX_MESSAGE_BYTES,
        depth > 0,
        e.number() >= 1,
        e.wire() == WIRE_LEN,
    ensures
        ({
            let fb = len_field_bytes(e.tag, b);
            let s = p + fb + rest;
            let tl = varint_len(e.tag as nat);
            &&& fb.len() > 0
            &&& spec_decode_tag(s, p.len() as int) == Ok::<(u32, u32, int), DecodeError>(
                (e.number() as u32, WIRE_LEN, (p.len() + tl) as int),
            )
            &&& spec_read_sub(s, (p.len() + tl) as int) == Ok::<(Seq<u8>, int), DecodeError>(
                (b, (p.len() + fb.len()) as int),
            )
            &&& spec_merge_kind(ev, e, d, unknown, keeps, WIRE_LEN, s, (p.len() + tl) as int, depth)
                == Ok::<(FieldDataView, Seq<u8>, int), DecodeError>(
                (FieldDataView::Children(children_of(d).push(b)), unknown, (p.len() + fb.len()) as int),
            )
        }),
{
    let fv = FieldValue::Len(b);
    let number = e.number();
    let fb = len_field_bytes(e.tag, b);
    assert(e.tag as nat == number * 8 + wire_of(fv));
    let a = varint_bytes(e.tag as nat);
    assert(fb =~= a + wire_value_bytes(fv));
    let s = p + fb + rest;
    assert(s =~= p + a + (wire_value_bytes(fv) + rest));
    lemma_tag_at(p, number, wire_of(fv), wire_value_bytes(fv) + rest);
    lemma_varint_bytes_len(e.tag as nat);
    assert(s =~= (p + a) + wire_value_bytes(fv) + rest);
    lemma_read_value_at(p + a, fv, rest);
    lemma_read_sub_of_len(s, (p.len() + a.len()) as int);
    if kind_card(e.kind) != REPEATED {
        assert(children_of(d).push(b) =~= seq![b]);
    }
}

/// Enum numbers that `ev` accepts are all stored, after those held.
proof fn lemma_store_accepted(
    ev: Option<EnumVt>,
    vs: Seq<FieldValue>,
    i: int,
    number: u32,
    keeps: bool,
    nums: Seq<u64>,
    unknown: Seq<u8>,
)
    requires
        0 <= i <= vs.len(),
        forall|j: int| i <= j < vs.len() ==> enum_accepts(ev, raw_enum(#[trigger] vs[j])),
    ensures
        store_enums(ev, vs, i, number, false, keeps, nums, unknown) == (
            nums + vs.subrange(i, vs.len() as int).map_values(|v: FieldValue| sign_extend32(raw_enum(v))),
            unknown,
        ),
    decreases vs.len() - i,
{
    if i < vs.len() {
        lemma_store_accepted(ev, vs, i + 1, number, keeps, nums.push(sign_extend32(raw_enum(vs[i]))), unknown);
        assert(nums.push(sign_extend32(raw_enum(vs[i]))) + vs.subrange(i + 1, vs.len() as int).map_values(
            |v: FieldValue| sign_extend32(raw_enum(v)),
        ) =~= nums + vs.subrange(i, vs.len() as int).map_values(|v: FieldValue| sign_extend32(raw_enum(v))));
    } else {
        assert(vs.subrange(i, vs.len() as int).map_values(|v: FieldValue| sign_extend32(raw_enum(v)))
            =~= Seq::<u64>::empty());
        assert(nums + Seq::<u64>::empty() =~= nums);
    }
}

/// A singular enum field the writer lays out, wherever it stands, reads its
/// tag back and then decodes to the number it held, which `ev` accepts.
pub(crate) proof fn lemma_enum_field_at(
    ev: Option<EnumVt>,
    e: EntryView,
    x: u64,
    d: FieldDataView,
    unknown: Seq<u8>,
    keeps: bool,
    depth: nat,
    p: Seq<u8>,
    rest: Seq<u8>,
)
    requires
        kind_family(e.kind) == Family::Enum,
        kind_card(e.kind) == IMPLICIT || kind_card(e.kind) == REQUIRED || kind_card(e.kind)
            == OPTIONAL,
        kind_card(e.kind) == IMPLICIT ==> x != 0,
        bits_kept(ScalarType::Int32, x),
        enum_accepts(ev, x as i32),
        e.number() >= 1,
        e.wire() == WIRE_VARINT,
    ensures
        ({
            let fb = field_bytes(e, FieldDataView::Numbers(seq![x]));
            let s = p + fb + rest;
            let tl = varint_len(e.tag as nat);
            &&& fb.len() > 0
            &&& spec_decode_tag(s, p.len() as int) == Ok::<(u32, u32, int), DecodeError>(
                (e.number() as u32, WIRE_VARINT, (p.len() + tl) as int),
            )
            &&& spec_merge_kind(ev, e, d, unknown, keeps, WIRE_VARINT, s, (p.len() + tl) as int, depth)
                == Ok::<(FieldDataView, Seq<u8>, int), DecodeError>(
                (FieldDataView::Numbers(seq![x]), unknown, (p.len() + fb.len()) as int),
            )
        }),
{
    let t = ScalarType::Int32;
    let fv = wire_value_of(t, x);
    let number = e.number();
    let fb = field_bytes(e, FieldDataView::Numbers(seq![x]));
    assert(seq![x].drop_last() =~= Seq::<u64>::empty());
    assert(fb == scalar_field_bytes(e.tag, t, kind_card(e.kind), seq![x]));
    assert(fb == tagged_bytes(e.tag, t, seq![x]));
    assert(tagged_bytes(e.tag, t, Seq::<u64>::empty()) == Seq::<u8>::empty());
    assert(seq![x].last() == x);
    assert(tagged_bytes(e.tag, t, seq![x]) == tagged_bytes(e.tag, t, Seq::<u64>::empty())
        + varint_bytes(e.tag as nat) + value_bytes(t, x));
    lemma_value_of(t, x);
    assert(e.tag as nat == number * 8 + wire_of(fv));
    let a = varint_bytes(e.tag as nat);
    assert(fb =~= a + wire_value_bytes(fv));
    let s = p + fb + rest;
    assert(s =~= p + a + (wire_value_bytes(fv) + rest));
    lemma_tag_at(p, number, wire_of(fv), wire_value_bytes(fv) + rest);
    lemma_varint_bytes_len(e.tag as nat);
    assert(s =~= (p + a) + wire_value_bytes(fv) + rest);
    lemma_read_value_at(p + a, fv, rest);
    assert(raw_enum(fv) == x as i32);
    assert(sign_extend32(x as i32) == x);
    let vs = seq![fv];
    assert(store_enums(ev, vs, 1, number as u32, true, keeps, seq![x], unknown) == (seq![x], unknown));
}

/// One value of a repeated enum field the writer lays out after its own
/// tag, wherever it stands, reads its tag back and then decodes to the
/// number, added after those the field held before.
pub(crate) proof fn lemma_repeated_enum_at(
    ev: Option<EnumVt>,
    e: EntryView,
    x: u64,
    d: FieldDataView,
    unknown: Seq<u8>,
    keeps: bool,
    depth: nat,
    p: Seq<u8>,
    rest: Seq<u8>,
)
    requires
        kind_family(e.kind) == Family::Enum,
        kind_card(e.kind) == REPEATED,
        bits_kept(ScalarType::Int32, x),
        enum_accepts(ev, x as i32),
        e.number() >= 1,
        e.wire() == WIRE_VARINT,
    ensures
        ({
            let vb = varint_bytes(e.tag as nat) + value_bytes(ScalarType::Int32, x);
            let s = p + vb + rest;
            let tl = varint_len(e.tag as nat);
            &&& vb.len() > 0
            &&& spec_decode_tag(s, p.len() as int) == Ok::<(u32, u32, int), DecodeError>(
                (e.number() as u32, WIRE_VARINT, (p.len() + tl) as int),
            )
            &&& spec_merge_kind(ev, e, d, unknown, keeps, WIRE_VARINT, s, (p.len() + tl) as int, depth)
                == Ok::<(FieldDataView, Seq<u8>, int), DecodeError>(
                (FieldDataView::Numbers(numbers_of(d).push(x)), unknown, (p.len() + vb.len()) as int),
            )
        }),
{
    let t = ScalarType::Int32;
    let fv = wire_value_of(t, x);
    let number = e.number();
    lemma_value_of(t, x);
    assert(e.tag as nat == number * 8 + wire_of(fv));
    let a = varint_bytes(e.tag as nat);
    let vb = a + value_bytes(t, x);
    let s = p + vb + rest;
    assert(s =~= p + a + (wire_value_bytes(fv) + rest));
    lemma_tag_at(p, number, wire_of(fv), wire_value_bytes(fv) + rest);
    lemma_varint_bytes_len(e.tag as nat);
    assert(s =~= (p + a) + wire_value_bytes(fv) + rest);
    lemma_read_value_at(p + a, fv, rest);
    assert(raw_enum(fv) == x as i32);
    assert(sign_extend32(x as i32) == x);
    lemma_store_accepted(ev, seq![fv], 0, number as u32, keeps, numbers_of(d), unknown);
    assert(seq![fv].subrange(0, 1).map_values(|v: FieldValue| sign_extend32(raw_enum(v))) =~= seq![x]);
    assert(numbers_of(d) + seq![x] =~= numbers_of(d).push(x));
}

/// A packed enum field the writer lays out, wherever it stands, reads its
/// tag back and then decodes to the numbers it held, which `ev` accepts,
/// after any the field held before.
pub(crate) proof fn lemma_packed_enum_at(
    ev: Option<EnumVt>,
    e: EntryView,
    vs: Seq<u64>,
    d: FieldDataView,
    unknown: Seq<u8>,
    keeps: bool,
    depth: nat,
    p: Seq<u8>,
    rest: Seq<u8>,
)
    requires
        kind_family(e.kind) == Family::Enum,
        kind_card(e.kind) == PACKED,
        vs.len() > 0,
        forall|j: int| 0 <= j < vs.len() ==> bits_kept(ScalarType::Int32, #[trigger] vs[j]),
        forall|j: int| 0 <= j < vs.len() ==> enum_accepts(ev, #[trigger] vs[j] as i32),
        values_bytes(ScalarType::Int32, vs).len() < 0x1_0000_0000_0000_0000,
        e.number() >= 1,
        e.wire() == WIRE_LEN,
    ensures
        ({
            let fb = field_bytes(e, FieldDataView::Numbers(vs));
            let s = p + fb + rest;
            let tl = varint_len(e.tag as nat);
            &&& fb.len() > 0
            &&& spec_decode_tag(s, p.len() as int) == Ok::<(u32, u32, int), DecodeError>(
                (e.number() as u32, WIRE_LEN, (p.len() + tl) as int),
            )
            &&& spec_merge_kind(ev, e, d, unknown, keeps, WIRE_LEN, s, (p.len() + tl) as int, depth)
                == Ok::<(FieldDataView, Seq<u8>, int), DecodeError>(
                (FieldDataView::Numbers(numbers_of(d) + vs), unknown, (p.len() + fb.len()) as int),
            )
        }),
{
    let t = ScalarType::Int32;
    let payload = values_bytes(t, vs);
    let fv = FieldValue::Len(payload);
    let number = e.number();
    let fb = field_bytes(e, FieldDataView::Numbers(vs));
    assert(fb == scalar_field_bytes(e.tag, t, PACKED, vs));
    assert(e.tag as nat == number * 8 + wire_of(fv));
    let a = varint_bytes(e.tag as nat);
    assert(fb =~= a + wire_value_bytes(fv));
    let s = p + fb + rest;
    assert(s =~= p + a + (wire_value_bytes(fv) + rest));
    lemma_tag_at(p, number, wire_of(fv), wire_value_bytes(fv) + rest);
    lemma_varint_bytes_len(e.tag as nat);
    assert(s =~= (p + a) + wire_value_bytes(fv) + rest);
    lemma_read_value_at(p + a, fv, rest);
    lemma_packed_from(t, vs, 0);
    assert(vs.take(0) =~= Seq::<u64>::empty());
    assert(vs.take(0).map_values(|x: u64| wire_value_of(t, x)) =~= Seq::<FieldValue>::empty());
    assert(values_bytes(t, Seq::<u64>::empty()) == Seq::<u8>::empty());
    let fvs = vs.map_values(|x: u64| wire_value_of(t, x));
    assert forall|j: int| 0 <= j < fvs.len() implies enum_accepts(ev, raw_enum(#[trigger] fvs[j])) by {
        assert(fvs[j] == wire_value_of(t, vs[j]));
        assert(enum_accepts(ev, vs[j] as i32));
    }
    lemma_store_accepted(ev, fvs, 0, number as u32, keeps, numbers_of(d), unknown);
    assert forall|j: int| 0 <= j < vs.len() implies fvs.subrange(0, fvs.len() as int).map_values(
        |v: FieldValue| sign_extend32(raw_enum(v)),
    )[j] == #[trigger] vs[j] by {
        lemma_value_of(t, vs[j]);
        assert(fvs[j] == wire_value_of(t, vs[j]));
    }
    assert(fvs.subrange(0, fvs.len() as int).map_values(|v: FieldValue| sign_extend32(raw_enum(v)))
        =~= vs);
}

/// A message value that the decode arm reads came with a length-delimited
/// tag, with a level of nesting left, and as a length-delimited run.
pub(crate) proof fn lemma_merge_kind_msg(
    ev: Option<EnumVt>,
    e: EntryView,
    d: FieldDataView,
    unknown: Seq<u8>,
    keeps: bool,
    wire: u32,
    s: Seq<u8>,
    pos: int,
    depth: nat,
)
    requires
        kind_family(e.kind) == Family::Msg,
        spec_merge_kind(ev, e, d, unknown, keeps, wire, s, pos, depth) is Ok,
    ensures
        wire == WIRE_LEN,
        depth > 0,
        spec_read_sub(s, pos) is Ok,
{
}

} // verus!
