//! The wire format of the fields a table describes: varints, the scalar
//! encodings, and how a field of each cardinality is laid out, with the
//! writers and sizers of the scalar and enum fields that the interpreters
//! run per entry.
use vstd::prelude::*;
use super::entry::{varint_len, Entry, EntryView};
use super::kind::{kind_card, kind_family, kind_shape_card, Family, ScalarType, IMPLICIT, OPTIONAL, PACKED, REPEATED, REQUIRED};
use super::shape::EnumShape;
use crate::encode_sink::le_bytes;
use crate::error::DecodeError;

verus! {

/// The varint encoding of `v`: seven bits per byte, least significant
/// first, with the high bit set on every byte but the last.
pub open spec fn varint_bytes(v: nat) -> Seq<u8>
    decreases v,
{
    if v < 128 {
        seq![v as u8]
    } else {
        seq![(v % 128 + 128) as u8] + varint_bytes(v / 128)
    }
}

/// `128` to the power `k`.
pub open spec fn pow128(k: nat) -> nat
    decreases k,
{
    if k == 0 {
        1
    } else {
        128 * pow128((k - 1) as nat)
    }
}

/// A value below `128^k` takes at most `k` varint bytes.
proof fn lemma_varint_len_le(v: nat, k: nat)
    requires
        k >= 1,
        v < pow128(k),
    ensures
        varint_len(v) <= k,
    decreases k,
{
    if v >= 128 {
        assert(k >= 2) by {
            if k == 1 {
                assert(pow128(1) == 128 * pow128(0));
            }
        }
        assert(v / 128 < pow128((k - 1) as nat)) by (nonlinear_arith)
            requires
                v < pow128(k),
                pow128(k) == 128 * pow128((k - 1) as nat),
        ;
        lemma_varint_len_le(v / 128, (k - 1) as nat);
    }
}

/// A varint takes as many bytes as [`varint_len`] counts, at most ten for
/// a `u64`.
pub proof fn lemma_varint_bytes_len(v: nat)
    ensures
        varint_bytes(v).len() == varint_len(v),
        v < 0x1_0000_0000_0000_0000 ==> varint_len(v) <= 10,
    decreases v,
{
    if v >= 128 {
        lemma_varint_bytes_len(v / 128);
    }
    if v < 0x1_0000_0000_0000_0000 {
        reveal_with_fuel(pow128, 11);
        assert(pow128(10) == 0x40_0000_0000_0000_0000);
        lemma_varint_len_le(v, 10);
    }
}

/// The zigzag encoding of the `sint32` whose bits are the low 32 bits of
/// `x`: `0, -1, 1, -2, ...` become `0, 1, 2, 3, ...`.
pub open spec fn zigzag32(x: nat) -> nat {
    let y = x % 0x1_0000_0000;
    if y < 0x8000_0000 {
        2 * y
    } else {
        (0x2_0000_0000 - 2 * y - 1) as nat
    }
}

/// The zigzag encoding of the `sint64` whose bits are `x`.
pub open spec fn zigzag64(x: nat) -> nat {
    if x < 0x8000_0000_0000_0000 {
        2 * x
    } else {
        (0x2_0000_0000_0000_0000 - 2 * x - 1) as nat
    }
}

/// The bits of a 32-bit signed value `v`, sign-extended to 64 bits, which
/// is how `int32` and enum values go on the wire.
pub open spec fn sign_extend32(v: i32) -> u64 {
    if v >= 0 {
        v as u64
    } else {
        (v + 0x1_0000_0000_0000_0000) as u64
    }
}

/// The bytes of the value `x` of scalar type `t` on the wire. `x` is the
/// value's bits as a `u64`: sign-extended for the signed 32-bit types,
/// zero-extended for the unsigned ones, `0` or `1` for a `bool`, and the
/// IEEE 754 bits of a `float` (in the low 32) or a `double`.
pub open spec fn value_bytes(t: ScalarType, x: u64) -> Seq<u8> {
    match t {
        ScalarType::Sint32 => varint_bytes(zigzag32(x as nat)),
        ScalarType::Sint64 => varint_bytes(zigzag64(x as nat)),
        ScalarType::Fixed32 | ScalarType::Sfixed32 | ScalarType::Float => le_bytes(
            (x % 0x1_0000_0000) as nat,
            4,
        ),
        ScalarType::Fixed64 | ScalarType::Sfixed64 | ScalarType::Double => le_bytes(x as nat, 8),
        _ => varint_bytes(x as nat),
    }
}

/// The values `vals` of type `t`, one after the other.
pub open spec fn values_bytes(t: ScalarType, vals: Seq<u64>) -> Seq<u8>
    decreases vals.len(),
{
    if vals.len() == 0 {
        Seq::empty()
    } else {
        values_bytes(t, vals.drop_last()) + value_bytes(t, vals.last())
    }
}

/// Each value of `vals` after its own tag.
pub open spec fn tagged_bytes(tag: u32, t: ScalarType, vals: Seq<u64>) -> Seq<u8>
    decreases vals.len(),
{
    if vals.len() == 0 {
        Seq::empty()
    } else {
        tagged_bytes(tag, t, vals.drop_last()) + varint_bytes(tag as nat) + value_bytes(t, vals.last())
    }
}

/// A field whose tag is `tag`, of cardinality `card`, holding the values
/// `vals` of type `t`: nothing for an implicit field at its default (`0`)
/// or with no value, one tag and length before all the values of a packed
/// field that has any, and otherwise a tag before each value.
pub open spec fn scalar_field_bytes(tag: u32, t: ScalarType, card: u8, vals: Seq<u64>) -> Seq<u8> {
    if card == PACKED {
        if vals.len() == 0 {
            Seq::empty()
        } else {
            varint_bytes(tag as nat) + varint_bytes(values_bytes(t, vals).len()) + values_bytes(
                t,
                vals,
            )
        }
    } else if card == IMPLICIT && (vals.len() == 0 || vals[0] == 0) {
        Seq::empty()
    } else {
        tagged_bytes(tag, t, vals)
    }
}

/// The numbers an enum field stored as `S` holds: its elements for a
/// repeated shape, and the number it reads at index `0`, if any, for a
/// singular one.
pub open spec fn enum_values<S: EnumShape>(slot: S::Slot) -> Seq<i32> {
    if S::spec_card() == REPEATED {
        Seq::new(S::spec_len(slot), |i: int| S::spec_get(slot, i)->0)
    } else {
        match S::spec_get(slot, 0) {
            Some(v) => seq![v],
            None => Seq::empty(),
        }
    }
}

/// The enum field `e` holding the numbers `vals` on the wire: as `int32`
/// values, in the layout of cardinality `card`.
pub open spec fn enum_field_bytes(e: EntryView, card: u8, vals: Seq<i32>) -> Seq<u8> {
    scalar_field_bytes(e.tag, ScalarType::Int32, card, vals.map_values(|v: i32| sign_extend32(v)))
}

/// Whether `n` values fit the cardinality `card`: at most one for a
/// singular field, and fewer than can be held in memory for any.
pub open spec fn count_fits(card: u8, n: nat) -> bool {
    &&& (card == IMPLICIT || card == REQUIRED || card == OPTIONAL) ==> n <= 1
    &&& n < 0x0100_0000_0000_0000
}

/// Append the varint encoding of `v` to `out`.
pub fn encode_varint(v: u64, out: &mut Vec<u8>)
    ensures
        final(out)@ == old(out)@ + varint_bytes(v as nat),
{
    let mut rest: u64 = v;
    while rest >= 128
        invariant
            out@ + varint_bytes(rest as nat) == old(out)@ + varint_bytes(v as nat),
        decreases rest,
    {
        let b = (rest % 128 + 128) as u8;
        assert(varint_bytes(rest as nat) == seq![b] + varint_bytes((rest / 128) as nat));
        assert(out@.push(b) + varint_bytes((rest / 128) as nat) =~= out@ + (seq![b] + varint_bytes(
            (rest / 128) as nat,
        )));
        out.push(b);
        rest = rest / 128;
    }
    assert(out@.push(rest as u8) =~= out@ + varint_bytes(rest as nat));
    out.push(rest as u8);
}

/// The number of bytes of the varint encoding of `v`.
pub fn varint_size(v: u64) -> (r: u64)
    ensures
        r == varint_len(v as nat),
        r == varint_bytes(v as nat).len(),
        1 <= r <= 10,
{
    proof {
        lemma_varint_bytes_len(v as nat);
    }
    let mut n: u64 = 1;
    let mut rest: u64 = v;
    while rest >= 128
        invariant
            1 <= n,
            n + varint_len(rest as nat) == varint_len(v as nat) + 1,
            varint_len(v as nat) <= 10,
        decreases rest,
    {
        proof {
            lemma_varint_bytes_len(rest as nat);
        }
        n = n + 1;
        rest = rest / 128;
    }
    n
}

/// The zigzag encoding of the `sint32` in the low 32 bits of `x`.
fn zigzag32_exec(x: u64) -> (r: u64)
    ensures
        r == zigzag32(x as nat),
{
    let y: u64 = x % 0x1_0000_0000;
    if y < 0x8000_0000 {
        2 * y
    } else {
        (0xffff_ffff - y) * 2 + 1
    }
}

/// The zigzag encoding of the `sint64` whose bits are `x`.
fn zigzag64_exec(x: u64) -> (r: u64)
    ensures
        r == zigzag64(x as nat),
{
    if x < 0x8000_0000_0000_0000 {
        2 * x
    } else {
        (u64::MAX - x) * 2 + 1
    }
}

/// Append `k` little-endian bytes of `v`.
pub(crate) fn encode_le(v: u64, k: usize, out: &mut Vec<u8>)
    requires
        k <= 8,
    ensures
        final(out)@ == old(out)@ + le_bytes(v as nat, k as nat),
{
    let mut rest: u64 = v;
    let mut i: usize = 0;
    while i < k
        invariant
            i <= k <= 8,
            out@ + le_bytes(rest as nat, (k - i) as nat) == old(out)@ + le_bytes(v as nat, k as nat),
        decreases k - i,
    {
        let b = (rest % 256) as u8;
        assert(le_bytes(rest as nat, (k - i) as nat) == seq![b] + le_bytes(
            (rest / 256) as nat,
            (k - i - 1) as nat,
        ));
        assert(out@.push(b) + le_bytes((rest / 256) as nat, (k - i - 1) as nat) =~= out@ + (seq![b]
            + le_bytes((rest / 256) as nat, (k - i - 1) as nat)));
        out.push(b);
        rest = rest / 256;
        i = i + 1;
    }
    assert(out@ + le_bytes(rest as nat, 0) =~= out@);
}

/// The little-endian bytes of a value are as many as asked for.
pub(crate) proof fn lemma_le_len(v: nat, k: nat)
    ensures
        le_bytes(v, k).len() == k,
    decreases k,
{
    if k > 0 {
        lemma_le_len(v / 256, (k - 1) as nat);
    }
}

/// Append the value `x` of scalar type `t`.
fn encode_value(t: ScalarType, x: u64, out: &mut Vec<u8>)
    ensures
        final(out)@ == old(out)@ + value_bytes(t, x),
{
    match t {
        ScalarType::Sint32 => encode_varint(zigzag32_exec(x), out),
        ScalarType::Sint64 => encode_varint(zigzag64_exec(x), out),
        ScalarType::Fixed32 | ScalarType::Sfixed32 | ScalarType::Float => encode_le(x % 0x1_0000_0000, 4, out),
        ScalarType::Fixed64 | ScalarType::Sfixed64 | ScalarType::Double => encode_le(x, 8, out),
        _ => encode_varint(x, out),
    }
}

/// The number of bytes of the value `x` of scalar type `t`.
fn value_size(t: ScalarType, x: u64) -> (r: u64)
    ensures
        r == value_bytes(t, x).len(),
        1 <= r <= 10,
{
    match t {
        ScalarType::Sint32 => varint_size(zigzag32_exec(x)),
        ScalarType::Sint64 => varint_size(zigzag64_exec(x)),
        ScalarType::Fixed32 | ScalarType::Sfixed32 | ScalarType::Float => {
            proof {
                lemma_le_len((x % 0x1_0000_0000) as nat, 4);
            }
            4
        },
        ScalarType::Fixed64 | ScalarType::Sfixed64 | ScalarType::Double => {
            proof {
                lemma_le_len(x as nat, 8);
            }
            8
        },
        _ => varint_size(x),
    }
}

/// The bytes of the first values are a prefix of those of more.
proof fn lemma_values_step(t: ScalarType, vals: Seq<u64>, i: int)
    requires
        0 <= i < vals.len(),
    ensures
        values_bytes(t, vals.subrange(0, i + 1)) == values_bytes(t, vals.subrange(0, i))
            + value_bytes(t, vals[i]),
        tagged_bytes(0, t, vals.subrange(0, 0)) == Seq::<u8>::empty(),
{
    assert(vals.subrange(0, i + 1).drop_last() =~= vals.subrange(0, i));
}

/// Each value of the first ones after its tag, then one more.
proof fn lemma_tagged_step(tag: u32, t: ScalarType, vals: Seq<u64>, i: int)
    requires
        0 <= i < vals.len(),
    ensures
        tagged_bytes(tag, t, vals.subrange(0, i + 1)) == tagged_bytes(tag, t, vals.subrange(0, i))
            + varint_bytes(tag as nat) + value_bytes(t, vals[i]),
{
    assert(vals.subrange(0, i + 1).drop_last() =~= vals.subrange(0, i));
}

/// The values of a field, each at most ten bytes.
proof fn lemma_values_len(t: ScalarType, vals: Seq<u64>)
    ensures
        values_bytes(t, vals).len() <= 10 * vals.len(),
    decreases vals.len(),
{
    if vals.len() > 0 {
        lemma_values_len(t, vals.drop_last());
        lemma_value_len(t, vals.last());
    }
}

/// Each value with its tag, at most fifteen bytes.
proof fn lemma_tagged_len(tag: u32, t: ScalarType, vals: Seq<u64>)
    ensures
        tagged_bytes(tag, t, vals).len() <= 15 * vals.len(),
    decreases vals.len(),
{
    if vals.len() > 0 {
        lemma_tagged_len(tag, t, vals.drop_last());
        lemma_value_len(t, vals.last());
        lemma_varint_bytes_len(tag as nat);
        reveal_with_fuel(varint_len, 5);
    }
}

/// A value takes between one and ten bytes.
proof fn lemma_value_len(t: ScalarType, x: u64)
    ensures
        1 <= value_bytes(t, x).len() <= 10,
{
    match t {
        ScalarType::Sint32 => {
            lemma_varint_bytes_len(zigzag32(x as nat));
        },
        ScalarType::Sint64 => {
            lemma_varint_bytes_len(zigzag64(x as nat));
        },
        ScalarType::Fixed32 | ScalarType::Sfixed32 | ScalarType::Float => {
            lemma_le_len((x % 0x1_0000_0000) as nat, 4);
        },
        ScalarType::Fixed64 | ScalarType::Sfixed64 | ScalarType::Double => {
            lemma_le_len(x as nat, 8);
        },
        _ => {
            lemma_varint_bytes_len(x as nat);
        },
    }
}

/// Append the field with tag `tag`, cardinality `card` and values `vals` of
/// type `t`.
pub(crate) fn write_values(tag: u32, t: ScalarType, card: u8, vals: &[u64], out: &mut Vec<u8>)
    requires
        count_fits(card, vals@.len()),
    ensures
        final(out)@ == old(out)@ + scalar_field_bytes(tag, t, card, vals@),
{
    let n = vals.len();
    if card == PACKED {
        if n == 0 {
            assert(old(out)@ + Seq::<u8>::empty() =~= old(out)@);
            return;
        }
        let payload = values_size(t, vals);
        encode_varint(tag as u64, out);
        encode_varint(payload, out);
        let ghost start = out@;
        let mut i: usize = 0;
        while i < n
            invariant
                i <= n == vals@.len(),
                out@ == start + values_bytes(t, vals@.subrange(0, i as int)),
            decreases n - i,
        {
            proof {
                lemma_values_step(t, vals@, i as int);
            }
            encode_value(t, vals[i], out);
            i = i + 1;
            assert(out@ =~= start + values_bytes(t, vals@.subrange(0, i as int)));
        }
        assert(vals@.subrange(0, n as int) =~= vals@);
        assert(out@ =~= old(out)@ + scalar_field_bytes(tag, t, card, vals@));
        return;
    }
    if card == IMPLICIT && (n == 0 || vals[0] == 0) {
        assert(old(out)@ + Seq::<u8>::empty() =~= old(out)@);
        return;
    }
    let mut i: usize = 0;
    while i < n
        invariant
            i <= n == vals@.len(),
            out@ == old(out)@ + tagged_bytes(tag, t, vals@.subrange(0, i as int)),
        decreases n - i,
    {
        proof {
            lemma_tagged_step(tag, t, vals@, i as int);
        }
        encode_varint(tag as u64, out);
        encode_value(t, vals[i], out);
        i = i + 1;
        assert(out@ =~= old(out)@ + tagged_bytes(tag, t, vals@.subrange(0, i as int)));
    }
    assert(vals@.subrange(0, n as int) =~= vals@);
}

/// The number of bytes of the values `vals` of type `t`.
fn values_size(t: ScalarType, vals: &[u64]) -> (r: u64)
    requires
        vals@.len() < 0x0100_0000_0000_0000,
    ensures
        r == values_bytes(t, vals@).len(),
{
    let n = vals.len();
    let mut total: u64 = 0;
    let mut i: usize = 0;
    while i < n
        invariant
            i <= n == vals@.len(),
            n < 0x0100_0000_0000_0000,
            total == values_bytes(t, vals@.subrange(0, i as int)).len(),
            total <= 10 * i,
        decreases n - i,
    {
        proof {
            lemma_values_step(t, vals@, i as int);
        }
        let s = value_size(t, vals[i]);
        total = total + s;
        i = i + 1;
    }
    assert(vals@.subrange(0, n as int) =~= vals@);
    total
}

/// The number of bytes of the field with tag `tag`, cardinality `card` and
/// values `vals` of type `t`.
pub(crate) fn size_values(tag: u32, t: ScalarType, card: u8, vals: &[u64]) -> (r: u64)
    requires
        count_fits(card, vals@.len()),
    ensures
        r == scalar_field_bytes(tag, t, card, vals@).len(),
{
    let n = vals.len();
    let tl = varint_size(tag as u64);
    if card == PACKED {
        if n == 0 {
            return 0;
        }
        let payload = values_size(t, vals);
        proof {
            lemma_values_len(t, vals@);
        }
        return tl + varint_size(payload) + payload;
    }
    if card == IMPLICIT && (n == 0 || vals[0] == 0) {
        return 0;
    }
    let mut total: u64 = 0;
    let mut i: usize = 0;
    while i < n
        invariant
            i <= n == vals@.len(),
            n < 0x0100_0000_0000_0000,
            tl == varint_bytes(tag as nat).len(),
            tl <= 10,
            total == tagged_bytes(tag, t, vals@.subrange(0, i as int)).len(),
            total <= 20 * i,
        decreases n - i,
    {
        proof {
            lemma_tagged_step(tag, t, vals@, i as int);
        }
        let s = value_size(t, vals[i]);
        total = total + tl + s;
        i = i + 1;
    }
    assert(vals@.subrange(0, n as int) =~= vals@);
    total
}

/// Write the scalar field `e`, which holds the values `vals` (as
/// [`value_bytes`] reads them), in the layout of its kind's cardinality.
pub fn write_scalar(e: &Entry, vals: &[u64], out: &mut Vec<u8>)
    requires
        kind_family(e@.kind) is Scalar,
        count_fits(kind_card(e@.kind), vals@.len()),
    ensures
        final(out)@ == old(out)@ + scalar_field_bytes(
            e@.tag,
            kind_family(e@.kind)->Scalar_0,
            kind_card(e@.kind),
            vals@,
        ),
{
    let t = match e.kind().family() {
        Family::Scalar(t) => t,
        _ => ScalarType::Int32,
    };
    write_values(e.tag(), t, e.kind().card(), vals, out);
}

/// The number of bytes [`write_scalar`] writes.
pub fn size_scalar(e: &Entry, vals: &[u64]) -> (r: u64)
    requires
        kind_family(e@.kind) is Scalar,
        count_fits(kind_card(e@.kind), vals@.len()),
    ensures
        r == scalar_field_bytes(
            e@.tag,
            kind_family(e@.kind)->Scalar_0,
            kind_card(e@.kind),
            vals@,
        ).len(),
{
    let t = match e.kind().family() {
        Family::Scalar(t) => t,
        _ => ScalarType::Int32,
    };
    size_values(e.tag(), t, e.kind().card(), vals)
}

/// The bits of `v` sign-extended to 64.
pub(crate) fn sign_extend(v: i32) -> (r: u64)
    ensures
        r == sign_extend32(v),
{
    if v >= 0 {
        v as u64
    } else {
        u64::MAX - ((-(v as i64) - 1) as u64)
    }
}

/// The numbers the enum field stored as `S` in `slot` holds, sign-extended.
fn enum_wire_values<S: EnumShape>(slot: &S::Slot) -> (r: Vec<u64>)
    requires
        enum_values::<S>(*slot).len() < 0x0100_0000_0000_0000,
    ensures
        r@ == enum_values::<S>(*slot).map_values(|v: i32| sign_extend32(v)),
{
    let mut out: Vec<u64> = Vec::new();
    let ghost want = enum_values::<S>(*slot).map_values(|v: i32| sign_extend32(v));
    if S::card() == REPEATED {
        let n = S::len(slot);
        let mut i: usize = 0;
        while i < n
            invariant
                i <= n == S::spec_len(*slot),
                S::spec_card() == REPEATED,
                want == enum_values::<S>(*slot).map_values(|v: i32| sign_extend32(v)),
                out@ == want.subrange(0, i as int),
            decreases n - i,
        {
            match S::get(slot, i) {
                Some(v) => {
                    out.push(sign_extend(v));
                },
                None => {},
            }
            i = i + 1;
            assert(out@ =~= want.subrange(0, i as int));
        }
        assert(want.subrange(0, n as int) =~= want);
    } else {
        match S::get(slot, 0) {
            Some(v) => {
                out.push(sign_extend(v));
            },
            None => {},
        }
        assert(out@ =~= want);
    }
    out
}

/// Write the enum field `e`, stored as `S` in `slot`, as `int32` values in
/// the layout of its kind's cardinality.
pub fn write_enum<S: EnumShape>(e: &Entry, slot: &S::Slot, out: &mut Vec<u8>)
    requires
        kind_family(e@.kind) == Family::Enum,
        S::spec_card() == kind_shape_card(e@.kind),
        count_fits(kind_card(e@.kind), enum_values::<S>(*slot).len()),
    ensures
        final(out)@ == old(out)@ + enum_field_bytes(e@, kind_card(e@.kind), enum_values::<S>(*slot)),
{
    let vals = enum_wire_values::<S>(slot);
    write_values(e.tag(), ScalarType::Int32, e.kind().card(), vals.as_slice(), out);
}

/// The number of bytes [`write_enum`] writes.
pub fn size_enum<S: EnumShape>(e: &Entry, slot: &S::Slot) -> (r: u64)
    requires
        kind_family(e@.kind) == Family::Enum,
        S::spec_card() == kind_shape_card(e@.kind),
        count_fits(kind_card(e@.kind), enum_values::<S>(*slot).len()),
    ensures
        r == enum_field_bytes(e@, kind_card(e@.kind), enum_values::<S>(*slot)).len(),
{
    let vals = enum_wire_values::<S>(slot);
    size_values(e.tag(), ScalarType::Int32, e.kind().card(), vals.as_slice())
}

/// The number whose base-128 digits, least significant first, are the low
/// seven bits of the bytes of `bs`.
pub open spec fn varint_value(bs: Seq<u8>) -> nat
    decreases bs.len(),
{
    if bs.len() == 0 {
        0
    } else {
        (bs[0] % 128) as nat + 128 * varint_value(bs.drop_first())
    }
}

/// How many bytes the varint at `pos` of `s` takes, looking at its byte
/// `i` and those after: it ends at the first byte below 128, and a varint
/// runs at most ten bytes.
pub open spec fn varint_span(s: Seq<u8>, pos: int, i: int) -> Result<int, DecodeError>
    decreases 10 - i,
{
    if i >= 10 {
        Err(DecodeError::VarintTooLong)
    } else if pos + i >= s.len() {
        Err(DecodeError::UnexpectedEof)
    } else if s[pos + i] < 128 {
        Ok(i + 1)
    } else {
        varint_span(s, pos, i + 1)
    }
}

/// The varint at `pos` of `s` and the position after it: its value, kept
/// to 64 bits, or the error of a varint that runs past ten bytes or past
/// the end of `s`.
pub open spec fn spec_decode_varint(s: Seq<u8>, pos: int) -> Result<(u64, int), DecodeError> {
    match varint_span(s, pos, 0) {
        Ok(n) => Ok(
            ((varint_value(s.subrange(pos, pos + n)) % 0x1_0000_0000_0000_0000) as u64, pos + n),
        ),
        Err(e) => Err(e),
    }
}

/// The base-128 value of one more byte.
proof fn lemma_varint_value_push(bs: Seq<u8>, b: u8)
    ensures
        varint_value(bs.push(b)) == varint_value(bs) + (b % 128) as nat * pow128(bs.len()),
    decreases bs.len(),
{
    let t = bs.push(b);
    assert(t[0] == if bs.len() == 0 { b } else { bs[0] });
    assert(varint_value(t) == (t[0] % 128) as nat + 128 * varint_value(t.drop_first()));
    if bs.len() == 0 {
        assert(t.drop_first() =~= Seq::<u8>::empty());
        assert(varint_value(Seq::<u8>::empty()) == 0);
        assert(pow128(0) == 1);
    } else {
        assert(t.drop_first() =~= bs.drop_first().push(b));
        lemma_varint_value_push(bs.drop_first(), b);
        assert(pow128(bs.len()) == 128 * pow128((bs.len() - 1) as nat));
        assert(128 * (varint_value(bs.drop_first()) + (b % 128) as nat * pow128(
            bs.drop_first().len(),
        )) == 128 * varint_value(bs.drop_first()) + (b % 128) as nat * (128 * pow128(
            bs.drop_first().len(),
        ))) by (nonlinear_arith);
    }
}

/// Read the varint at `pos` of `buf`.
pub fn decode_varint(buf: &[u8], pos: usize) -> (r: Result<(u64, usize), DecodeError>)
    requires
        pos <= buf@.len(),
    ensures
        r matches Ok((v, next)) ==> pos < next <= buf@.len(),
        match r {
            Ok((v, next)) => spec_decode_varint(buf@, pos as int) == Ok::<(u64, int), DecodeError>(
                (v, next as int),
            ),
            Err(e) => spec_decode_varint(buf@, pos as int) == Err::<(u64, int), DecodeError>(e),
        },
{
    let mut acc: u128 = 0;
    let mut i: usize = 0;
    while i < 10
        invariant
            i <= 10,
            pos <= buf@.len(),
            varint_span(buf@, pos as int, 0) == varint_span(buf@, pos as int, i as int),
            pos + i <= buf@.len(),
            acc == varint_value(buf@.subrange(pos as int, pos + i)),
            acc < pow128(i as nat),
        decreases 10 - i,
    {
        if buf.len() - pos <= i {
            return Err(DecodeError::UnexpectedEof);
        }
        let b = buf[pos + i];
        proof {
            assert(buf@.subrange(pos as int, pos + i + 1) =~= buf@.subrange(pos as int, pos + i).push(b));
            lemma_varint_value_push(buf@.subrange(pos as int, pos + i), b);
            reveal_with_fuel(pow128, 11);
            assert(pow128((i + 1) as nat) == 128 * pow128(i as nat));
            assert(pow128(10) == 0x40_0000_0000_0000_0000);
            lemma_pow128_mono(i as nat, 10);
            lemma_pow128_mono((i + 1) as nat, 10);
            assert((b % 128) as nat * pow128(i as nat) <= 127 * pow128(i as nat)) by (nonlinear_arith)
                requires
                    b % 128 < 128,
                    pow128(i as nat) > 0,
            ;
        }
        let p: u128 = pow128_exec(i);
        acc = acc + ((b % 128) as u128) * p;
        i = i + 1;
        if b < 128 {
            return Ok(((acc % 0x1_0000_0000_0000_0000) as u64, pos + i));
        }
    }
    Err(DecodeError::VarintTooLong)
}

/// Powers of 128 grow.
proof fn lemma_pow128_mono(a: nat, b: nat)
    requires
        a <= b,
    ensures
        pow128(a) <= pow128(b),
        pow128(a) > 0,
    decreases b,
{
    if a < b {
        lemma_pow128_mono(a, (b - 1) as nat);
    } else if a > 0 {
        lemma_pow128_mono((a - 1) as nat, (a - 1) as nat);
    }
}

/// `128` to the power `i`, for `i` up to nine.
fn pow128_exec(i: usize) -> (r: u128)
    requires
        i <= 9,
    ensures
        r == pow128(i as nat),
{
    let mut r: u128 = 1;
    let mut k: usize = 0;
    while k < i
        invariant
            k <= i <= 9,
            r == pow128(k as nat),
        decreases i - k,
    {
        proof {
            reveal_with_fuel(pow128, 11);
            lemma_pow128_mono(k as nat, 8);
            assert(pow128(8) == 0x100_0000_0000_0000);
        }
        r = r * 128;
        k = k + 1;
    }
    r
}

/// Take the length-prefixed payload at the front of `buf`: its varint
/// length, then that many bytes. Returns the payload and what follows it.
pub fn take_len_delimited(buf: &[u8]) -> (r: Result<(&[u8], &[u8]), DecodeError>)
    ensures
        match spec_decode_varint(buf@, 0) {
            Err(e) => r == Err::<(&[u8], &[u8]), DecodeError>(e),
            Ok((len, next)) => if buf@.len() - next < len {
                r == Err::<(&[u8], &[u8]), DecodeError>(DecodeError::UnexpectedEof)
            } else {
                r matches Ok((payload, rest)) && payload@ == buf@.subrange(next, next + len)
                    && rest@ == buf@.subrange(next + len, buf@.len() as int)
            },
        },
{
    let (len, next) = match decode_varint(buf, 0) {
        Ok(x) => x,
        Err(e) => {
            return Err(e);
        },
    };
    if ((buf.len() - next) as u64) < len {
        return Err(DecodeError::UnexpectedEof);
    }
    let end = next + len as usize;
    let payload = vstd::slice::slice_subrange(buf, next, end);
    let rest = vstd::slice::slice_subrange(buf, end, buf.len());
    Ok((payload, rest))
}

/// The value of the base-128 digits of `varint_bytes(v)` is `v`.
proof fn lemma_varint_value_of_bytes(v: nat)
    ensures
        varint_value(varint_bytes(v)) == v,
    decreases v,
{
    let bs = varint_bytes(v);
    if v < 128 {
        assert(bs.drop_first() =~= Seq::<u8>::empty());
        assert(varint_value(Seq::<u8>::empty()) == 0);
        assert(bs[0] == v as u8);
    } else {
        lemma_varint_value_of_bytes(v / 128);
        assert(bs.drop_first() =~= varint_bytes(v / 128));
        assert(bs[0] == (v % 128 + 128) as u8);
        assert((bs[0] % 128) as nat == v % 128);
    }
    assert(varint_value(bs) == (bs[0] % 128) as nat + 128 * varint_value(bs.drop_first()));
}

/// Where the varint encoding of `v` ends, read from its byte `i`.
proof fn lemma_varint_span(v: nat, s: Seq<u8>, i: int)
    requires
        0 <= i < varint_bytes(v).len() <= 10,
        varint_bytes(v).len() <= s.len(),
        s.subrange(0, varint_bytes(v).len() as int) == varint_bytes(v),
    ensures
        varint_span(s, 0, i) == Ok::<int, DecodeError>(varint_bytes(v).len() as int),
    decreases varint_bytes(v).len() - i,
{
    let bs = varint_bytes(v);
    assert(s.subrange(0, bs.len() as int)[i] == s[i]);
    assert(s[i] == bs[i]);
    lemma_varint_bytes_high(v, i);
    if i + 1 < bs.len() {
        lemma_varint_span(v, s, i + 1);
    }
}

/// Every byte of a varint but the last has its high bit set.
proof fn lemma_varint_bytes_high(v: nat, i: int)
    requires
        0 <= i < varint_bytes(v).len(),
    ensures
        (varint_bytes(v)[i] < 128) == (i == varint_bytes(v).len() - 1),
    decreases v,
{
    lemma_varint_bytes_len(v);
    lemma_varint_bytes_len(v / 128);
    if v >= 128 {
        if i > 0 {
            lemma_varint_bytes_high(v / 128, i - 1);
            assert(varint_bytes(v)[i] == varint_bytes(v / 128)[i - 1]);
        } else {
            assert(varint_bytes(v)[0] == (v % 128 + 128) as u8);
        }
    }
}

/// Reading a varint back: the encoding of a `u64` followed by anything
/// decodes to the value, and reading resumes right after it.
pub proof fn lemma_varint_round_trip(v: u64, rest: Seq<u8>)
    ensures
        spec_decode_varint(varint_bytes(v as nat) + rest, 0) == Ok::<(u64, int), DecodeError>(
            (v, varint_len(v as nat) as int),
        ),
{
    let bs = varint_bytes(v as nat);
    let s = bs + rest;
    lemma_varint_bytes_len(v as nat);
    assert(s.subrange(0, bs.len() as int) =~= bs);
    lemma_varint_span(v as nat, s, 0);
    lemma_varint_value_of_bytes(v as nat);
}

} // verus!
