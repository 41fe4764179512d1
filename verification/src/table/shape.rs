//! Descriptors of the field shapes a table entry cannot reach by offset
//! alone: message-typed fields, whose storage is a pointer or an `Option`,
//! and enum-typed fields, whose storage is a number or a closed enum.
use vstd::prelude::*;
use core::marker::PhantomData;
use super::kind::{IMPLICIT, OPTIONAL, REPEATED};
use super::message::{MessageTable, Table};

verus! {

/// Storage of a singular message field.
pub trait MsgSlot {
    /// The message type the field holds.
    type Msg;

    /// The message, creating the default if the field is unset.
    fn place(&mut self) -> &mut Self::Msg;

    /// The message, or `None` if the field is unset.
    fn get(&self) -> Option<&Self::Msg>;
}

/// How the interpreters reach a child message: through its table, or through
/// its own codec when its table is not visible.
#[derive(Clone, Copy)]
pub enum Child {
    /// A message that has a table.
    Table(&'static MessageTable),
    /// A message reached through its own codec.
    Message,
}

impl Child {
    /// A child of type `M` reached through its own codec.
    pub fn of<M>() -> (r: Child)
        ensures
            r == Child::Message,
    {
        Child::Message
    }
}

/// Descriptor of a singular message field: how to reach the child and
/// whether it is reached through a pointer to the message itself.
pub struct MsgVt {
    child: Child,
    direct: bool,
}

impl MsgVt {
    /// How the child is reached.
    pub closed spec fn spec_child(&self) -> Child {
        self.child
    }

    /// Whether the descriptor reaches the message through a pointer to the
    /// message itself, which is what a oneof member needs.
    pub closed spec fn spec_direct(&self) -> bool {
        self.direct
    }

    /// Describe a field of type `F`, whose message is a table message and
    /// `table` is its table.
    pub fn new<F: MsgSlot>(table: &'static Table<F::Msg>) -> (r: Self)
        ensures
            r.spec_child() == Child::Table(table.spec_raw()),
            !r.spec_direct(),
    {
        MsgVt { child: Child::Table(table.raw()), direct: false }
    }

    /// Describe a field of type `F` whose message is reached through its own
    /// codec, for a message whose table is not visible here.
    pub fn new_via_message<F: MsgSlot>() -> (r: Self)
        ensures
            r.spec_child() == Child::Message,
            !r.spec_direct(),
    {
        MsgVt { child: Child::of::<F::Msg>(), direct: false }
    }

    /// Describe a message that is reached through a pointer to the message
    /// itself, which is how a oneof member's payload of message type is
    /// reached. `table` describes the message.
    pub fn direct<M>(table: &'static Table<M>) -> (r: Self)
        ensures
            r.spec_child() == Child::Table(table.spec_raw()),
            r.spec_direct(),
    {
        MsgVt { child: Child::Table(table.raw()), direct: true }
    }

    /// As [`direct`](Self::direct), for a message whose table is not visible
    /// here, which is reached through its own codec.
    pub fn direct_via_message<M>() -> (r: Self)
        ensures
            r.spec_child() == Child::Message,
            r.spec_direct(),
    {
        MsgVt { child: Child::of::<M>(), direct: true }
    }

    /// Whether the descriptor reaches the message directly.
    pub fn is_direct(&self) -> (r: bool)
        ensures
            r == self.spec_direct(),
    {
        self.direct
    }

    /// How the child is reached.
    pub fn child(&self) -> (r: Child)
        ensures
            r == self.spec_child(),
    {
        self.child
    }
}

/// A message descriptor that reaches a message of type `M` directly, whose
/// type ties it to the message it was built for.
pub struct DirectMsgVt<M> {
    vt: MsgVt,
    marker: PhantomData<M>,
}

impl<M> DirectMsgVt<M> {
    /// The descriptor.
    pub closed spec fn spec_vt(&self) -> &MsgVt {
        &self.vt
    }

    /// Describe a message of type `M` that has the table `table`.
    pub fn new(table: &'static Table<M>) -> (r: Self)
        ensures
            r.spec_vt().spec_child() == Child::Table(table.spec_raw()),
            r.spec_vt().spec_direct(),
    {
        DirectMsgVt { vt: MsgVt::direct(table), marker: PhantomData }
    }

    /// Describe a message of type `M` reached through its own codec.
    pub fn via_message() -> (r: Self)
        ensures
            r.spec_vt().spec_child() == Child::Message,
            r.spec_vt().spec_direct(),
    {
        DirectMsgVt { vt: MsgVt::direct_via_message::<M>(), marker: PhantomData }
    }

    /// The descriptor.
    pub fn vt(&self) -> (r: &MsgVt)
        ensures
            r == self.spec_vt(),
    {
        &self.vt
    }
}

/// Descriptor of a repeated message field, a `Vec<T>`.
pub struct RepVt {
    child: Child,
    size: usize,
}

impl RepVt {
    /// How the elements are reached.
    pub closed spec fn spec_child(&self) -> Child {
        self.child
    }

    /// The size in bytes of one element.
    pub closed spec fn spec_size(&self) -> usize {
        self.size
    }

    /// Describe a `Vec<T>` field whose messages are table messages, `table`
    /// being their table.
    pub fn new<T>(table: &'static Table<T>) -> (r: Self)
        ensures
            r.spec_child() == Child::Table(table.spec_raw()),
            r.spec_size() == vstd::layout::size_of::<T>(),
    {
        RepVt { child: Child::Table(table.raw()), size: core::mem::size_of::<T>() }
    }

    /// Describe a `Vec<T>` field whose messages are reached through their own
    /// codec.
    pub fn new_via_message<T>() -> (r: Self)
        ensures
            r.spec_child() == Child::Message,
            r.spec_size() == vstd::layout::size_of::<T>(),
    {
        RepVt { child: Child::of::<T>(), size: core::mem::size_of::<T>() }
    }

    /// How the elements are reached.
    pub fn child(&self) -> (r: Child)
        ensures
            r == self.spec_child(),
    {
        self.child
    }

    /// The size in bytes of one element.
    pub fn size(&self) -> (r: usize)
        ensures
            r == self.spec_size(),
    {
        self.size
    }
}

/// A protobuf enum: the conversion between its variants and their numbers,
/// which generated code implements.
///
/// An implementation promises what the `ensures` of its methods say.
pub trait Enumeration: Sized {
    /// The variant numbered `value`, if the enum has one.
    spec fn spec_from_i32(value: i32) -> Option<Self>;

    /// The number of the variant `self`.
    spec fn spec_to_i32(&self) -> i32;

    /// The variant numbered `value`, if the enum has one.
    fn from_i32(value: i32) -> (r: Option<Self>)
        ensures
            r == Self::spec_from_i32(value),
            r matches Some(e) ==> e.spec_to_i32() == value,
    ;

    /// The number of the variant `self`.
    fn to_i32(&self) -> (r: i32)
        ensures
            r == self.spec_to_i32(),
    ;

    /// The numbers of the variants.
    fn numbers() -> (r: &'static [i32])
        ensures
            forall|v: i32| #[trigger] Self::spec_from_i32(v) is Some <==> r@.contains(v),
    ;
}

/// A way of storing an enum field, implemented by the marker types below.
///
/// [`Slot`](Self::Slot) is the type of the field, and the cardinality is
/// `IMPLICIT` for a singular field with no presence, `OPTIONAL` for
/// `Option<_>`, and `REPEATED` for `Vec<_>`; the table checks it against the
/// entry's kind. An open enum stores any number; a closed enum stores only
/// the numbers of its variants and rejects the others.
pub trait EnumShape {
    /// The type of the field.
    type Slot;

    /// The cardinality of the field.
    spec fn spec_card() -> u8;

    /// Whether the field can store the number `raw`.
    spec fn spec_accepts(raw: i32) -> bool;

    /// Whether `after` is the field `before` once the accepted number `raw`
    /// is stored (appended, for a repeated shape).
    spec fn spec_stores(before: Self::Slot, after: Self::Slot, raw: i32) -> bool;

    /// The number at `idx` (ignored for singular shapes), or `None` if unset.
    spec fn spec_get(slot: Self::Slot, idx: int) -> Option<i32>;

    /// The element count of a repeated shape, `0` otherwise.
    spec fn spec_len(slot: Self::Slot) -> nat;

    /// The cardinality of the field.
    fn card() -> (r: u8)
        ensures
            r == Self::spec_card(),
    ;

    /// Store `raw`, appending it if the shape is repeated. Returns `false`,
    /// and stores nothing, if a closed enum has no variant numbered `raw`.
    fn set(slot: &mut Self::Slot, raw: i32) -> (r: bool)
        ensures
            r == Self::spec_accepts(raw),
            r ==> Self::spec_stores(*old(slot), *final(slot), raw),
            r ==> Self::spec_get(
                *final(slot),
                if Self::spec_card() == REPEATED {
                    Self::spec_len(*old(slot)) as int
                } else {
                    0
                },
            ) == Some(raw),
            !r ==> *final(slot) == *old(slot),
    ;

    /// The number at `idx` (ignored for singular shapes), or `None` if unset.
    fn get(slot: &Self::Slot, idx: usize) -> (r: Option<i32>)
        ensures
            r == Self::spec_get(*slot, idx as int),
            Self::spec_card() == REPEATED ==> (r is Some <==> idx < Self::spec_len(*slot)),
    ;

    /// The element count of a repeated shape, `0` otherwise.
    fn len(slot: &Self::Slot) -> (r: usize)
        ensures
            r == Self::spec_len(*slot),
    ;

    /// Whether [`set`](Self::set) would store `raw`.
    fn accepts(raw: i32) -> (r: bool)
        ensures
            r == Self::spec_accepts(raw),
    ;

    /// The numbers the field stores: `None` for an open enum, which stores
    /// any, and the numbers of the variants for a closed one.
    fn known() -> (r: Option<&'static [i32]>)
        ensures
            r is None ==> forall|raw: i32| #[trigger] Self::spec_accepts(raw),
            r matches Some(k) ==> forall|raw: i32| #[trigger] Self::spec_accepts(raw) <==> k@.contains(raw),
    ;
}

/// An open enum with implicit presence, stored as its number.
pub struct ImplicitOpen<E>(PhantomData<E>);

/// A closed enum with implicit presence: `E`.
pub struct ImplicitClosed<E>(PhantomData<E>);

/// An open enum with explicit presence, stored as `Option` of its number.
pub struct OptionalOpen<E>(PhantomData<E>);

/// A closed enum with explicit presence: `Option<E>`.
pub struct OptionalClosed<E>(PhantomData<E>);

/// A repeated open enum, stored as a `Vec` of numbers.
pub struct RepeatedOpen<E>(PhantomData<E>);

/// A repeated closed enum: `Vec<E>`.
pub struct RepeatedClosed<E>(PhantomData<E>);

/// The numbers of the elements of `v`.
pub open spec fn numbers_of<E: Enumeration>(v: Seq<E>, idx: int) -> Option<i32> {
    if 0 <= idx < v.len() {
        Some(v[idx].spec_to_i32())
    } else {
        None
    }
}

impl<E> EnumShape for ImplicitOpen<E> {
    type Slot = i32;

    open spec fn spec_card() -> u8 {
        IMPLICIT
    }

    open spec fn spec_accepts(raw: i32) -> bool {
        true
    }

    open spec fn spec_stores(before: i32, after: i32, raw: i32) -> bool {
        after == raw
    }

    open spec fn spec_get(slot: i32, idx: int) -> Option<i32> {
        Some(slot)
    }

    open spec fn spec_len(slot: i32) -> nat {
        0
    }

    fn card() -> (r: u8) {
        IMPLICIT
    }

    fn set(slot: &mut i32, raw: i32) -> (r: bool) {
        *slot = raw;
        true
    }

    fn get(slot: &i32, idx: usize) -> (r: Option<i32>) {
        Some(*slot)
    }

    fn len(slot: &i32) -> (r: usize) {
        0
    }

    fn accepts(raw: i32) -> (r: bool) {
        true
    }

    fn known() -> (r: Option<&'static [i32]>) {
        None
    }
}

impl<E: Enumeration> EnumShape for ImplicitClosed<E> {
    type Slot = E;

    open spec fn spec_card() -> u8 {
        IMPLICIT
    }

    open spec fn spec_accepts(raw: i32) -> bool {
        E::spec_from_i32(raw) is Some
    }

    open spec fn spec_stores(before: E, after: E, raw: i32) -> bool {
        E::spec_from_i32(raw) == Some(after)
    }

    open spec fn spec_get(slot: E, idx: int) -> Option<i32> {
        Some(slot.spec_to_i32())
    }

    open spec fn spec_len(slot: E) -> nat {
        0
    }

    fn card() -> (r: u8) {
        IMPLICIT
    }

    fn set(slot: &mut E, raw: i32) -> (r: bool) {
        match E::from_i32(raw) {
            Some(v) => {
                *slot = v;
                true
            },
            None => false,
        }
    }

    fn get(slot: &E, idx: usize) -> (r: Option<i32>) {
        Some(slot.to_i32())
    }

    fn len(slot: &E) -> (r: usize) {
        0
    }

    fn accepts(raw: i32) -> (r: bool) {
        E::from_i32(raw).is_some()
    }

    fn known() -> (r: Option<&'static [i32]>) {
        Some(E::numbers())
    }
}

impl<E> EnumShape for OptionalOpen<E> {
    type Slot = Option<i32>;

    open spec fn spec_card() -> u8 {
        OPTIONAL
    }

    open spec fn spec_accepts(raw: i32) -> bool {
        true
    }

    open spec fn spec_stores(before: Option<i32>, after: Option<i32>, raw: i32) -> bool {
        after == Some(raw)
    }

    open spec fn spec_get(slot: Option<i32>, idx: int) -> Option<i32> {
        slot
    }

    open spec fn spec_len(slot: Option<i32>) -> nat {
        0
    }

    fn card() -> (r: u8) {
        OPTIONAL
    }

    fn set(slot: &mut Option<i32>, raw: i32) -> (r: bool) {
        *slot = Some(raw);
        true
    }

    fn get(slot: &Option<i32>, idx: usize) -> (r: Option<i32>) {
        *slot
    }

    fn len(slot: &Option<i32>) -> (r: usize) {
        0
    }

    fn accepts(raw: i32) -> (r: bool) {
        true
    }

    fn known() -> (r: Option<&'static [i32]>) {
        None
    }
}

impl<E: Enumeration> EnumShape for OptionalClosed<E> {
    type Slot = Option<E>;

    open spec fn spec_card() -> u8 {
        OPTIONAL
    }

    open spec fn spec_accepts(raw: i32) -> bool {
        E::spec_from_i32(raw) is Some
    }

    open spec fn spec_stores(before: Option<E>, after: Option<E>, raw: i32) -> bool {
        after is Some && after == E::spec_from_i32(raw)
    }

    open spec fn spec_get(slot: Option<E>, idx: int) -> Option<i32> {
        match slot {
            Some(v) => Some(v.spec_to_i32()),
            None => None,
        }
    }

    open spec fn spec_len(slot: Option<E>) -> nat {
        0
    }

    fn card() -> (r: u8) {
        OPTIONAL
    }

    fn set(slot: &mut Option<E>, raw: i32) -> (r: bool) {
        match E::from_i32(raw) {
            Some(v) => {
                *slot = Some(v);
                true
            },
            None => false,
        }
    }

    fn get(slot: &Option<E>, idx: usize) -> (r: Option<i32>) {
        match slot {
            Some(v) => Some(v.to_i32()),
            None => None,
        }
    }

    fn len(slot: &Option<E>) -> (r: usize) {
        0
    }

    fn accepts(raw: i32) -> (r: bool) {
        E::from_i32(raw).is_some()
    }

    fn known() -> (r: Option<&'static [i32]>) {
        Some(E::numbers())
    }
}

impl<E> EnumShape for RepeatedOpen<E> {
    type Slot = Vec<i32>;

    open spec fn spec_card() -> u8 {
        REPEATED
    }

    open spec fn spec_accepts(raw: i32) -> bool {
        true
    }

    open spec fn spec_stores(before: Vec<i32>, after: Vec<i32>, raw: i32) -> bool {
        after@ == before@.push(raw)
    }

    open spec fn spec_get(slot: Vec<i32>, idx: int) -> Option<i32> {
        if 0 <= idx < slot@.len() {
            Some(slot@[idx])
        } else {
            None
        }
    }

    open spec fn spec_len(slot: Vec<i32>) -> nat {
        slot@.len()
    }

    fn card() -> (r: u8) {
        REPEATED
    }

    fn set(slot: &mut Vec<i32>, raw: i32) -> (r: bool) {
        slot.push(raw);
        true
    }

    fn get(slot: &Vec<i32>, idx: usize) -> (r: Option<i32>) {
        if idx < slot.len() {
            Some(slot[idx])
        } else {
            None
        }
    }

    fn len(slot: &Vec<i32>) -> (r: usize) {
        slot.len()
    }

    fn accepts(raw: i32) -> (r: bool) {
        true
    }

    fn known() -> (r: Option<&'static [i32]>) {
        None
    }
}

impl<E: Enumeration> EnumShape for RepeatedClosed<E> {
    type Slot = Vec<E>;

    open spec fn spec_card() -> u8 {
        REPEATED
    }

    open spec fn spec_accepts(raw: i32) -> bool {
        E::spec_from_i32(raw) is Some
    }

    open spec fn spec_stores(before: Vec<E>, after: Vec<E>, raw: i32) -> bool {
        E::spec_from_i32(raw) is Some && after@ == before@.push(E::spec_from_i32(raw)->0)
    }

    open spec fn spec_get(slot: Vec<E>, idx: int) -> Option<i32> {
        numbers_of(slot@, idx)
    }

    open spec fn spec_len(slot: Vec<E>) -> nat {
        slot@.len()
    }

    fn card() -> (r: u8) {
        REPEATED
    }

    fn set(slot: &mut Vec<E>, raw: i32) -> (r: bool) {
        match E::from_i32(raw) {
            Some(v) => {
                slot.push(v);
                true
            },
            None => false,
        }
    }

    fn get(slot: &Vec<E>, idx: usize) -> (r: Option<i32>) {
        if idx < slot.len() {
            Some(slot[idx].to_i32())
        } else {
            None
        }
    }

    fn len(slot: &Vec<E>) -> (r: usize) {
        slot.len()
    }

    fn accepts(raw: i32) -> (r: bool) {
        E::from_i32(raw).is_some()
    }

    fn known() -> (r: Option<&'static [i32]>) {
        Some(E::numbers())
    }
}

/// Descriptor of an enum field: the cardinality of its storage and the
/// numbers it stores.
#[derive(Clone, Copy, Debug)]
pub struct EnumVt {
    card: u8,
    known: Option<&'static [i32]>,
}

impl EnumVt {
    /// The cardinality the shape stores: `IMPLICIT`, `OPTIONAL` or
    /// `REPEATED`.
    pub closed spec fn spec_card(&self) -> u8 {
        self.card
    }

    /// Whether the field stores the number `raw`: any number for an open
    /// enum, and the numbers of its variants for a closed one.
    pub closed spec fn spec_accepts(&self, raw: i32) -> bool {
        match self.known {
            None => true,
            Some(k) => k@.contains(raw),
        }
    }

    /// Describe a field stored as `S`.
    pub fn new<S: EnumShape>() -> (r: Self)
        ensures
            r.spec_card() == S::spec_card(),
            forall|raw: i32| #[trigger] r.spec_accepts(raw) == S::spec_accepts(raw),
    {
        EnumVt { card: S::card(), known: S::known() }
    }

    /// The cardinality the shape stores.
    pub fn card(&self) -> (r: u8)
        ensures
            r == self.spec_card(),
    {
        self.card
    }

    /// Whether the field stores the number `raw`.
    pub fn accepts(&self, raw: i32) -> (r: bool)
        ensures
            r == self.spec_accepts(raw),
    {
        match self.known {
            None => true,
            Some(k) => {
                let mut i: usize = 0;
                while i < k.len()
                    invariant
                        self.known == Some(k),
                        i <= k@.len(),
                        forall|j: int| 0 <= j < i ==> k@[j] != raw,
                    decreases k@.len() - i,
                {
                    if k[i] == raw {
                        assert(k@[i as int] == raw);
                        return true;
                    }
                    i = i + 1;
                }
                false
            },
        }
    }
}

/// Whether the enum descriptor `ev` stores the number `raw`; a field with
/// no descriptor stores any.
pub open spec fn enum_accepts(ev: Option<EnumVt>, raw: i32) -> bool {
    match ev {
        Some(v) => v.spec_accepts(raw),
        None => true,
    }
}

/// Whether the enum descriptor `ev` stores the number `raw`.
pub fn accepts_number(ev: Option<EnumVt>, raw: i32) -> (r: bool)
    ensures
        r == enum_accepts(ev, raw),
{
    match ev {
        Some(v) => v.accepts(raw),
        None => true,
    }
}

} // verus!
