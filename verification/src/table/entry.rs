//! One field of a message table: its wire tag, where it is stored and how it
//! is interpreted.
use vstd::prelude::*;
use super::kind::{kind_family, kind_is_oneof_payload, kind_wire_type, Family, Kind};

verus! {

/// The number of bytes a varint encoding of `v` takes.
pub open spec fn varint_len(v: nat) -> nat
    decreases v,
{
    if v < 128 {
        1
    } else {
        1 + varint_len(v / 128)
    }
}

/// The lowest and highest valid field numbers.
pub open spec fn valid_field_number(number: int) -> bool {
    1 <= number < 0x2000_0000
}

/// What an [`Entry`] holds.
#[derive(Clone, Copy, PartialEq, Eq, Debug, Structural)]
pub struct EntryView {
    /// The full wire tag, `number * 8 + wire_type`.
    pub tag: u32,
    /// The byte offset of the field within the message struct.
    pub offset: u32,
    /// How the field is interpreted.
    pub kind: Kind,
    /// The encoded length of `tag`.
    pub tag_len: u8,
    /// The index into the table's aux array, for kinds that use one.
    pub aux: u16,
}

impl EntryView {
    /// The field number.
    pub open spec fn number(self) -> nat {
        (self.tag / 8) as nat
    }

    /// The wire type written in the tag.
    pub open spec fn wire(self) -> nat {
        (self.tag % 8) as nat
    }
}

/// The entry that `Entry::new` builds for field `number` of kind `kind`.
pub open spec fn new_entry(kind: Kind, number: nat, offset: nat, aux: u16) -> EntryView
    recommends
        kind_wire_type(kind) is Some,
{
    let tag = number * 8 + kind_wire_type(kind)->0;
    EntryView {
        tag: tag as u32,
        offset: offset as u32,
        kind,
        tag_len: varint_len(tag as nat) as u8,
        aux,
    }
}

/// One field of a message.
#[derive(Clone, Copy, Debug)]
pub struct Entry {
    tag: u32,
    offset: u32,
    kind: Kind,
    tag_len: u8,
    aux: u16,
}

impl View for Entry {
    type V = EntryView;

    closed spec fn view(&self) -> EntryView {
        EntryView {
            tag: self.tag,
            offset: self.offset,
            kind: self.kind,
            tag_len: self.tag_len,
            aux: self.aux,
        }
    }
}

proof fn lemma_varint_len_bound(v: nat)
    requires
        v < 0x1_0000_0000,
    ensures
        1 <= varint_len(v) <= 5,
{
    reveal_with_fuel(varint_len, 5);
}

/// The encoded length of a tag, counted one group of seven bits at a time.
fn tag_length(tag: u32) -> (r: u8)
    ensures
        r == varint_len(tag as nat),
{
    proof {
        lemma_varint_len_bound(tag as nat);
    }
    let mut len: u8 = 1;
    let mut rest: u32 = tag / 128;
    while rest != 0
        invariant
            1 <= len <= varint_len(tag as nat) <= 5,
            varint_len(tag as nat) == len + (if rest == 0 {
                0
            } else {
                varint_len(rest as nat)
            }),
        decreases rest,
    {
        len = len + 1;
        rest = rest / 128;
    }
    len
}

impl Entry {
    /// An entry for the field `number` of kind `kind`, stored `offset` bytes
    /// into the message struct, with the aux data at index `aux` if the kind
    /// uses any.
    ///
    /// The field number must be valid and the offset fit in a `u32`. A oneof
    /// member's wire type is its payload kind's, so its entry is built with
    /// [`Entry::oneof_member`].
    pub fn new(kind: Kind, number: u32, offset: usize, aux: u16) -> (r: Self)
        requires
            valid_field_number(number as int),
            offset <= u32::MAX,
            kind_family(kind) != Family::Oneof,
        ensures
            r@ == new_entry(kind, number as nat, offset as nat, aux),
            r@.number() == number,
            r@.wire() == kind_wire_type(kind)->0,
    {
        let wire = kind.wire_type();
        let tag = number * 8 + wire;
        assert(tag / 8 == number && tag % 8 == wire);
        let tag_len = tag_length(tag);
        Entry { tag, offset: offset as u32, kind, tag_len, aux }
    }

    /// An entry for member `number` of a oneof stored `offset` bytes into the
    /// message struct, whose value is of kind `payload`. `aux` is the index of
    /// its member descriptor, and `leader` is whether it is the member with
    /// the lowest number, which sizes and writes the oneof.
    pub fn oneof_member(payload: Kind, leader: bool, number: u32, offset: usize, aux: u16) -> (r:
        Self)
        requires
            kind_is_oneof_payload(payload),
            valid_field_number(number as int),
            offset <= u32::MAX,
        ensures
            r@ == (EntryView {
                kind: if leader {
                    Kind::OneofLeader
                } else {
                    Kind::OneofFollower
                },
                ..new_entry(payload, number as nat, offset as nat, aux)
            }),
            r@.number() == number,
            r@.wire() == kind_wire_type(payload)->0,
    {
        let mut e = Self::new(payload, number, offset, aux);
        e.kind = if leader {
            Kind::OneofLeader
        } else {
            Kind::OneofFollower
        };
        e
    }

    /// This entry with its kind and aux index replaced by those of a oneof
    /// member's payload.
    pub(crate) fn with_payload(&self, kind: Kind, aux: u16) -> (r: Self)
        ensures
            r@ == (EntryView { kind, aux, ..self@ }),
    {
        Entry { kind, aux, ..*self }
    }

    /// The full wire tag, as written on encode.
    pub fn tag(&self) -> (r: u32)
        ensures
            r == self@.tag,
    {
        self.tag
    }

    /// The byte offset of the field within the message struct.
    pub fn offset(&self) -> (r: u32)
        ensures
            r == self@.offset,
    {
        self.offset
    }

    /// How the field is interpreted.
    pub fn kind(&self) -> (r: Kind)
        ensures
            r == self@.kind,
    {
        self.kind
    }

    /// The encoded length of the tag.
    pub fn tag_len(&self) -> (r: u8)
        ensures
            r == self@.tag_len,
    {
        self.tag_len
    }

    /// The index into the table's aux array.
    pub fn aux(&self) -> (r: u16)
        ensures
            r == self@.aux,
    {
        self.aux
    }

    /// The field number.
    pub fn number(&self) -> (r: u32)
        ensures
            r == self@.number(),
    {
        self.tag / 8
    }
}

} // verus!
