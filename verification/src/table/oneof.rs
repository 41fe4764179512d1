//! Oneof fields: the trait generated code implements for a oneof enum, the
//! descriptor the interpreters reach its members through, and the checks
//! that tie a member's entry to its oneof.
use vstd::prelude::*;
use super::entry::valid_field_number;
use super::kind::Kind;
use crate::error::DecodeError;

verus! {

/// How the interpreters reach the members of the oneof enum `Self`, which
/// generated code implements for the enum of every oneof of a table message.
///
/// A oneof is stored as an `Option<E>`, where `E` has one variant per
/// member. The table has one entry per member, and the descriptor of the
/// oneof reads the current member's number and replaces the member through
/// this trait.
///
/// An implementation promises what the `ensures` of its methods say:
/// `number` is the member's number, and `with_default(n)` holds the default
/// value of member `n` exactly when `n` is a member.
pub trait OneofEnum: Sized {
    /// The field number of the member `self` holds.
    spec fn spec_number(&self) -> u32;

    /// Whether `number` is the number of a member.
    spec fn spec_has_member(number: u32) -> bool;

    /// The value holding the default value of member `number`.
    spec fn spec_default(number: u32) -> Self;

    /// The field number of the member `self` holds.
    fn number(&self) -> (r: u32)
        ensures
            r == self.spec_number(),
    ;

    /// A value holding the default value of the member `number`, or `None`
    /// if `Self` has no such member.
    fn with_default(number: u32) -> (r: Option<Self>)
        ensures
            Self::spec_has_member(number) ==> r == Some(Self::spec_default(number)),
            !Self::spec_has_member(number) ==> r is None,
            r matches Some(e) ==> e.spec_number() == number,
    ;
}

/// Descriptor of a oneof: where its `Option<E>` is stored and the lowest
/// number among its members.
#[derive(Debug)]
pub struct OneofVt {
    offset: u32,
    first: u32,
    messages: bool,
}

/// Whether `slot` holds the member numbered `number`.
pub open spec fn holds_member<E: OneofEnum>(slot: Option<E>, number: u32) -> bool {
    slot matches Some(e) && e.spec_number() == number
}

/// The value a member is decoded into: the member `number` if `slot` holds
/// it, and its default otherwise.
pub open spec fn member_input<E: OneofEnum>(slot: Option<E>, number: u32) -> E {
    if holds_member(slot, number) {
        slot->0
    } else {
        E::spec_default(number)
    }
}

impl OneofVt {
    /// The offset of the `Option<E>` in the message struct.
    pub closed spec fn spec_offset(&self) -> u32 {
        self.offset
    }

    /// The lowest field number among the members.
    pub closed spec fn spec_first(&self) -> u32 {
        self.first
    }

    /// Whether the descriptor was built for a oneof with a message member.
    pub closed spec fn spec_messages(&self) -> bool {
        self.messages
    }

    /// Describe the oneof stored at `offset` in the message struct, whose
    /// lowest member number is `first`. The offset must fit in a `u32` and
    /// `first` be a field number.
    pub fn new(offset: usize, first: u32) -> (r: Self)
        requires
            offset <= u32::MAX,
            valid_field_number(first as int),
        ensures
            r.spec_offset() == offset,
            r.spec_first() == first,
            !r.spec_messages(),
    {
        OneofVt { offset: offset as u32, first, messages: false }
    }

    /// As [`new`](Self::new), for a oneof that has a message member.
    pub fn with_messages(offset: usize, first: u32) -> (r: Self)
        requires
            offset <= u32::MAX,
            valid_field_number(first as int),
        ensures
            r.spec_offset() == offset,
            r.spec_first() == first,
            r.spec_messages(),
    {
        let mut vt = Self::new(offset, first);
        vt.messages = true;
        vt
    }

    /// The offset of the `Option<E>` in the message struct.
    pub fn offset(&self) -> (r: u32)
        ensures
            r == self.spec_offset(),
    {
        self.offset
    }

    /// The lowest field number among the members.
    pub fn first(&self) -> (r: u32)
        ensures
            r == self.spec_first(),
    {
        self.first
    }

    /// Whether the descriptor was built for a oneof with a message member.
    pub fn messages(&self) -> (r: bool)
        ensures
            r == self.spec_messages(),
    {
        self.messages
    }

    /// The number of the member that is set, or `0`, and its value.
    pub fn get<'a, E: OneofEnum>(&self, slot: &'a Option<E>) -> (r: (u32, Option<&'a E>))
        ensures
            match slot {
                Some(e) => r.0 == e.spec_number() && r.1 == Some(e),
                None => r.0 == 0 && r.1 is None,
            },
    {
        match slot {
            Some(e) => (e.number(), Some(e)),
            None => (0, None),
        }
    }

    /// Make the member `number` the one that is set, keeping its value if it
    /// already is and holding its default otherwise, and return its value.
    pub fn place<'a, E: OneofEnum>(&self, slot: &'a mut Option<E>, number: u32) -> (r: &'a mut E)
        requires
            E::spec_has_member(number),
        ensures
            holds_member(*old(slot), number) ==> *r == old(slot)->0,
            !holds_member(*old(slot), number) ==> *r == E::spec_default(number),
            *final(slot) == Some(*final(r)),
    {
        let is_set = match slot {
            Some(cur) => cur.number() == number,
            None => false,
        };
        if !is_set {
            *slot = Some(new_member::<E>(number));
        }
        slot.as_mut().unwrap()
    }

    /// Decode a member the way unrolled code does: if the member `number` is
    /// the one that is set, run `f` on its value, which merges into it, and
    /// keep what `f` returns whether it succeeds or not. Otherwise run `f` on
    /// the default value of the member, and make what it returns the member
    /// that is set only if it succeeds, so a failure leaves the oneof as it
    /// was. Returns what `f` returned.
    pub fn place_with<E: OneofEnum, F: FnOnce(E) -> (E, Result<(), DecodeError>)>(
        &self,
        slot: &mut Option<E>,
        number: u32,
        f: F,
    ) -> (r: Result<(), DecodeError>)
        requires
            E::spec_has_member(number),
            forall|e: E| f.requires((e,)),
        ensures
            exists|out: E|
                #![trigger f.ensures((member_input(*old(slot), number),), (out, r))]
                {
                    &&& f.ensures((member_input(*old(slot), number),), (out, r))
                    &&& *final(slot) == if holds_member(*old(slot), number) || r is Ok {
                        Some(out)
                    } else {
                        *old(slot)
                    }
                },
    {
        let is_set = match slot {
            Some(cur) => cur.number() == number,
            None => false,
        };
        if is_set {
            let cur = slot.take().unwrap();
            assert(cur == member_input(*old(slot), number));
            let res = f(cur);
            let ghost out_g = res.0;
            let (out, result) = res;
            *slot = Some(out);
            assert(f.ensures((member_input(*old(slot), number),), (out_g, result)));
            result
        } else {
            let fresh = new_member::<E>(number);
            assert(fresh == member_input(*old(slot), number));
            let res = f(fresh);
            let ghost out_g = res.0;
            let (out, result) = res;
            if result.is_ok() {
                *slot = Some(out);
            }
            assert(f.ensures((member_input(*old(slot), number),), (out_g, result)));
            result
        }
    }
}

/// A value of `E` holding the default of the member `number`.
fn new_member<E: OneofEnum>(number: u32) -> (r: E)
    requires
        E::spec_has_member(number),
    ensures
        r == E::spec_default(number),
        r.spec_number() == number,
{
    E::with_default(number).unwrap()
}

/// What a [`Member`] holds.
#[derive(Clone, Copy, PartialEq, Eq, Debug, Structural)]
pub struct MemberView {
    /// The aux index of the oneof's descriptor.
    pub group: u16,
    /// The aux index of the payload's descriptor, for a payload kind that
    /// has one.
    pub aux: u16,
    /// The kind of the member's value.
    pub kind: Kind,
}

/// One member of a oneof, referred to by the aux index of its entry.
#[derive(Clone, Copy, Debug)]
pub struct Member {
    group: u16,
    aux: u16,
    kind: Kind,
}

impl View for Member {
    type V = MemberView;

    closed spec fn view(&self) -> MemberView {
        MemberView { group: self.group, aux: self.aux, kind: self.kind }
    }
}

impl Member {
    /// A member of the oneof whose group is at aux index `group`, holding a
    /// value of kind `kind`, whose descriptor, if it needs one, is at aux
    /// index `aux`.
    pub fn new(group: u16, kind: Kind, aux: u16) -> (r: Self)
        ensures
            r@ == (MemberView { group, aux, kind }),
    {
        Member { group, aux, kind }
    }

    /// The aux index of the oneof's descriptor.
    pub fn group(&self) -> (r: u16)
        ensures
            r == self@.group,
    {
        self.group
    }

    /// The aux index of the payload's descriptor.
    pub fn aux(&self) -> (r: u16)
        ensures
            r == self@.aux,
    {
        self.aux
    }

    /// The kind of the member's value.
    pub fn kind(&self) -> (r: Kind)
        ensures
            r == self@.kind,
    {
        self.kind
    }
}

} // verus!
