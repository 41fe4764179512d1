//! Map fields: `map<K, V>` stored as a [`MapStorage`] collection, written as
//! one record per entry that holds the key as field 1 and the value as
//! field 2. The descriptor gives the kinds of the key and the value as the
//! entries of a two-field message.
use vstd::prelude::*;
use std::collections::{BTreeMap, HashMap};
use super::entry::{new_entry, Entry, EntryView};
use super::kind::{kind_card, kind_wire_type, Kind, IMPLICIT, REQUIRED};
use super::kinds::KindSlot;
use super::message::Aux;
use super::shape::{DirectMsgVt, EnumShape, EnumVt};

verus! {

/// A collection that can store a map field: its key and value types.
pub trait MapStorage {
    /// The type of a key.
    type Key;
    /// The type of a value.
    type Value;
}

impl<K, V> MapStorage for BTreeMap<K, V> {
    type Key = K;
    type Value = V;
}

impl<K, V> MapStorage for HashMap<K, V> {
    type Key = K;
    type Value = V;
}

/// Descriptor of a map field: the kinds of its key and value, and the size
/// of a key and a value together.
pub struct MapVt {
    entries: [Entry; 2],
    value_aux: Option<Aux>,
    footprint: usize,
}

impl MapVt {
    /// The key and the value are fields with a wire type: neither is a
    /// member of a oneof.
    #[verifier::type_invariant]
    closed spec fn inv(self) -> bool {
        &&& kind_wire_type(self.entries@[0]@.kind) is Some
        &&& kind_wire_type(self.entries@[1]@.kind) is Some
    }

    /// The key, as field 1 of an entry.
    pub closed spec fn spec_key(&self) -> EntryView {
        self.entries@[0]@
    }

    /// The value, as field 2 of an entry.
    pub closed spec fn spec_value(&self) -> EntryView {
        self.entries@[1]@
    }

    /// The descriptor of the value, if its kind has one.
    pub closed spec fn spec_value_aux(&self) -> Option<Aux> {
        self.value_aux
    }

    /// The descriptor of an enum value, if the value is an enum.
    pub open spec fn spec_value_enum(&self) -> Option<EnumVt> {
        match self.spec_value_aux() {
            Some(Aux::Enum(ev)) => Some(ev),
            _ => None,
        }
    }

    /// The size in bytes of a key and a value together, which an entry read
    /// from the wire counts towards the element-memory limit.
    pub closed spec fn spec_footprint(&self) -> usize {
        self.footprint
    }

    /// Describe a map of type `Mp` whose keys are of the kind `KK` names and
    /// whose values are of the string, bytes or scalar kind `VK` names. Both
    /// must have required cardinality (`Int32Required`, not `Int32Optional`
    /// or `Int32Repeated`); the collection type decides whether it can be
    /// keyed by the key's type.
    pub fn new<Mp, KK, VK>() -> (r: Self) where
        KK: KindSlot,
        VK: KindSlot,
        Mp: MapStorage<Key = KK::Slot, Value = VK::Slot>,

        requires
            kind_card(KK::spec_kind()) == REQUIRED,
            kind_card(VK::spec_kind()) == REQUIRED,
            vstd::layout::size_of::<KK::Slot>() + vstd::layout::size_of::<VK::Slot>() <= usize::MAX,
        ensures
            r.spec_key() == new_entry(KK::spec_kind(), 1, 0, 0),
            r.spec_value() == new_entry(VK::spec_kind(), 2, 0, 0),
            r.spec_value_aux() is None,
            r.spec_footprint() == vstd::layout::size_of::<KK::Slot>() + vstd::layout::size_of::<
                VK::Slot,
            >(),
    {
        Self::build::<Mp>(KK::kind(), VK::kind(), None)
    }

    /// Describe a map of type `Mp` whose keys are of the kind `KK` names and
    /// whose values are enums stored as `S`, which must have implicit
    /// presence.
    pub fn with_enum<Mp, KK, S>() -> (r: Self) where
        KK: KindSlot,
        S: EnumShape,
        Mp: MapStorage<Key = KK::Slot, Value = S::Slot>,

        requires
            kind_card(KK::spec_kind()) == REQUIRED,
            S::spec_card() == IMPLICIT,
            vstd::layout::size_of::<KK::Slot>() + vstd::layout::size_of::<S::Slot>() <= usize::MAX,
        ensures
            r.spec_key() == new_entry(KK::spec_kind(), 1, 0, 0),
            r.spec_value() == new_entry(Kind::EnumRequired, 2, 0, 0),
            r.spec_value_aux() matches Some(Aux::Enum(vt)) && vt.spec_card() == IMPLICIT,
            r.spec_footprint() == vstd::layout::size_of::<KK::Slot>() + vstd::layout::size_of::<
                S::Slot,
            >(),
    {
        let vt = EnumVt::new::<S>();
        Self::build::<Mp>(KK::kind(), Kind::EnumRequired, Some(Aux::Enum(vt)))
    }

    /// Describe a map of type `Mp` whose keys are of the kind `KK` names and
    /// whose values are messages of type `M`, which `vt` describes.
    pub fn with_msg<Mp, KK, M>(vt: &'static DirectMsgVt<M>) -> (r: Self) where
        KK: KindSlot,
        Mp: MapStorage<Key = KK::Slot, Value = M>,

        requires
            kind_card(KK::spec_kind()) == REQUIRED,
            vstd::layout::size_of::<KK::Slot>() + vstd::layout::size_of::<M>() <= usize::MAX,
        ensures
            r.spec_key() == new_entry(KK::spec_kind(), 1, 0, 0),
            r.spec_value() == new_entry(Kind::MsgSingular, 2, 0, 0),
            r.spec_value_aux() == Some(Aux::Msg(vt.spec_vt())),
            r.spec_footprint() == vstd::layout::size_of::<KK::Slot>() + vstd::layout::size_of::<M>(),
    {
        Self::build::<Mp>(KK::kind(), Kind::MsgSingular, Some(Aux::Msg(vt.vt())))
    }

    fn build<Mp: MapStorage>(key: Kind, value: Kind, value_aux: Option<Aux>) -> (r: Self)
        requires
            kind_card(key) == REQUIRED,
            value == Kind::MsgSingular || kind_card(value) == REQUIRED,
            vstd::layout::size_of::<Mp::Key>() + vstd::layout::size_of::<Mp::Value>() <= usize::MAX,
        ensures
            r.spec_key() == new_entry(key, 1, 0, 0),
            r.spec_value() == new_entry(value, 2, 0, 0),
            r.spec_value_aux() == value_aux,
            r.spec_footprint() == vstd::layout::size_of::<Mp::Key>() + vstd::layout::size_of::<
                Mp::Value,
            >(),
    {
        let k = Entry::new(key, 1, 0, 0);
        let v = Entry::new(value, 2, 0, 0);
        let footprint = core::mem::size_of::<Mp::Key>() + core::mem::size_of::<Mp::Value>();
        MapVt { entries: [k, v], value_aux, footprint }
    }

    /// The key, as field 1 of an entry.
    pub fn key(&self) -> (r: &Entry)
        ensures
            r@ == self.spec_key(),
            kind_wire_type(r@.kind) is Some,
    {
        proof {
            use_type_invariant(self);
        }
        &self.entries[0]
    }

    /// The value, as field 2 of an entry.
    pub fn value(&self) -> (r: &Entry)
        ensures
            r@ == self.spec_value(),
            kind_wire_type(r@.kind) is Some,
    {
        proof {
            use_type_invariant(self);
        }
        &self.entries[1]
    }

    /// The descriptor of an enum value, if the value is an enum.
    pub fn value_enum(&self) -> (r: Option<EnumVt>)
        ensures
            r == self.spec_value_enum(),
    {
        match self.value_aux {
            Some(Aux::Enum(ev)) => Some(ev),
            _ => None,
        }
    }

    /// The descriptor of the value, if its kind has one.
    pub fn value_aux(&self) -> (r: Option<Aux>)
        ensures
            r == self.spec_value_aux(),
    {
        self.value_aux
    }

    /// The size in bytes of a key and a value together.
    pub fn footprint(&self) -> (r: usize)
        ensures
            r == self.spec_footprint(),
    {
        self.footprint
    }
}

} // verus!
