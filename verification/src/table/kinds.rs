//! One type per scalar, string and bytes [`Kind`], named the same, which
//! gives the Rust type of a field of that kind.
//!
//! Enum and message kinds have none, because their field type depends on the
//! enum or message, and the floating-point kinds have none here.
use vstd::prelude::*;
use super::kind::Kind;

verus! {

/// The type of the field that an entry of a [`kinds`](self) type describes.
pub trait KindSlot {
    /// The type of the field.
    type Slot;

    /// The kind this type names.
    spec fn spec_kind() -> Kind;

    /// The kind this type names.
    fn kind() -> (r: Kind)
        ensures
            r == Self::spec_kind(),
    ;
}

/// The type-level name of [`Kind::Int32Implicit`].
pub struct Int32Implicit;

impl KindSlot for Int32Implicit {
    type Slot = i32;

    open spec fn spec_kind() -> Kind {
        Kind::Int32Implicit
    }

    fn kind() -> (r: Kind) {
        Kind::Int32Implicit
    }
}

/// The type-level name of [`Kind::Int32Required`].
pub struct Int32Required;

impl KindSlot for Int32Required {
    type Slot = i32;

    open spec fn spec_kind() -> Kind {
        Kind::Int32Required
    }

    fn kind() -> (r: Kind) {
        Kind::Int32Required
    }
}

/// The type-level name of [`Kind::Int32Optional`].
pub struct Int32Optional;

impl KindSlot for Int32Optional {
    type Slot = Option<i32>;

    open spec fn spec_kind() -> Kind {
        Kind::Int32Optional
    }

    fn kind() -> (r: Kind) {
        Kind::Int32Optional
    }
}

/// The type-level name of [`Kind::Int32Repeated`].
pub struct Int32Repeated;

impl KindSlot for Int32Repeated {
    type Slot = Vec<i32>;

    open spec fn spec_kind() -> Kind {
        Kind::Int32Repeated
    }

    fn kind() -> (r: Kind) {
        Kind::Int32Repeated
    }
}

/// The type-level name of [`Kind::Int32Packed`].
pub struct Int32Packed;

impl KindSlot for Int32Packed {
    type Slot = Vec<i32>;

    open spec fn spec_kind() -> Kind {
        Kind::Int32Packed
    }

    fn kind() -> (r: Kind) {
        Kind::Int32Packed
    }
}

/// The type-level name of [`Kind::Int64Implicit`].
pub struct Int64Implicit;

impl KindSlot for Int64Implicit {
    type Slot = i64;

    open spec fn spec_kind() -> Kind {
        Kind::Int64Implicit
    }

    fn kind() -> (r: Kind) {
        Kind::Int64Implicit
    }
}

/// The type-level name of [`Kind::Int64Required`].
pub struct Int64Required;

impl KindSlot for Int64Required {
    type Slot = i64;

    open spec fn spec_kind() -> Kind {
        Kind::Int64Required
    }

    fn kind() -> (r: Kind) {
        Kind::Int64Required
    }
}

/// The type-level name of [`Kind::Int64Optional`].
pub struct Int64Optional;

impl KindSlot for Int64Optional {
    type Slot = Option<i64>;

    open spec fn spec_kind() -> Kind {
        Kind::Int64Optional
    }

    fn kind() -> (r: Kind) {
        Kind::Int64Optional
    }
}

/// The type-level name of [`Kind::Int64Repeated`].
pub struct Int64Repeated;

impl KindSlot for Int64Repeated {
    type Slot = Vec<i64>;

    open spec fn spec_kind() -> Kind {
        Kind::Int64Repeated
    }

    fn kind() -> (r: Kind) {
        Kind::Int64Repeated
    }
}

/// The type-level name of [`Kind::Int64Packed`].
pub struct Int64Packed;

impl KindSlot for Int64Packed {
    type Slot = Vec<i64>;

    open spec fn spec_kind() -> Kind {
        Kind::Int64Packed
    }

    fn kind() -> (r: Kind) {
        Kind::Int64Packed
    }
}

/// The type-level name of [`Kind::Uint32Implicit`].
pub struct Uint32Implicit;

impl KindSlot for Uint32Implicit {
    type Slot = u32;

    open spec fn spec_kind() -> Kind {
        Kind::Uint32Implicit
    }

    fn kind() -> (r: Kind) {
        Kind::Uint32Implicit
    }
}

/// The type-level name of [`Kind::Uint32Required`].
pub struct Uint32Required;

impl KindSlot for Uint32Required {
    type Slot = u32;

    open spec fn spec_kind() -> Kind {
        Kind::Uint32Required
    }

    fn kind() -> (r: Kind) {
        Kind::Uint32Required
    }
}

/// The type-level name of [`Kind::Uint32Optional`].
pub struct Uint32Optional;

impl KindSlot for Uint32Optional {
    type Slot = Option<u32>;

    open spec fn spec_kind() -> Kind {
        Kind::Uint32Optional
    }

    fn kind() -> (r: Kind) {
        Kind::Uint32Optional
    }
}

/// The type-level name of [`Kind::Uint32Repeated`].
pub struct Uint32Repeated;

impl KindSlot for Uint32Repeated {
    type Slot = Vec<u32>;

    open spec fn spec_kind() -> Kind {
        Kind::Uint32Repeated
    }

    fn kind() -> (r: Kind) {
        Kind::Uint32Repeated
    }
}

/// The type-level name of [`Kind::Uint32Packed`].
pub struct Uint32Packed;

impl KindSlot for Uint32Packed {
    type Slot = Vec<u32>;

    open spec fn spec_kind() -> Kind {
        Kind::Uint32Packed
    }

    fn kind() -> (r: Kind) {
        Kind::Uint32Packed
    }
}

/// The type-level name of [`Kind::Uint64Implicit`].
pub struct Uint64Implicit;

impl KindSlot for Uint64Implicit {
    type Slot = u64;

    open spec fn spec_kind() -> Kind {
        Kind::Uint64Implicit
    }

    fn kind() -> (r: Kind) {
        Kind::Uint64Implicit
    }
}

/// The type-level name of [`Kind::Uint64Required`].
pub struct Uint64Required;

impl KindSlot for Uint64Required {
    type Slot = u64;

    open spec fn spec_kind() -> Kind {
        Kind::Uint64Required
    }

    fn kind() -> (r: Kind) {
        Kind::Uint64Required
    }
}

/// The type-level name of [`Kind::Uint64Optional`].
pub struct Uint64Optional;

impl KindSlot for Uint64Optional {
    type Slot = Option<u64>;

    open spec fn spec_kind() -> Kind {
        Kind::Uint64Optional
    }

    fn kind() -> (r: Kind) {
        Kind::Uint64Optional
    }
}

/// The type-level name of [`Kind::Uint64Repeated`].
pub struct Uint64Repeated;

impl KindSlot for Uint64Repeated {
    type Slot = Vec<u64>;

    open spec fn spec_kind() -> Kind {
        Kind::Uint64Repeated
    }

    fn kind() -> (r: Kind) {
        Kind::Uint64Repeated
    }
}

/// The type-level name of [`Kind::Uint64Packed`].
pub struct Uint64Packed;

impl KindSlot for Uint64Packed {
    type Slot = Vec<u64>;

    open spec fn spec_kind() -> Kind {
        Kind::Uint64Packed
    }

    fn kind() -> (r: Kind) {
        Kind::Uint64Packed
    }
}

/// The type-level name of [`Kind::Sint32Implicit`].
pub struct Sint32Implicit;

impl KindSlot for Sint32Implicit {
    type Slot = i32;

    open spec fn spec_kind() -> Kind {
        Kind::Sint32Implicit
    }

    fn kind() -> (r: Kind) {
        Kind::Sint32Implicit
    }
}

/// The type-level name of [`Kind::Sint32Required`].
pub struct Sint32Required;

impl KindSlot for Sint32Required {
    type Slot = i32;

    open spec fn spec_kind() -> Kind {
        Kind::Sint32Required
    }

    fn kind() -> (r: Kind) {
        Kind::Sint32Required
    }
}

/// The type-level name of [`Kind::Sint32Optional`].
pub struct Sint32Optional;

impl KindSlot for Sint32Optional {
    type Slot = Option<i32>;

    open spec fn spec_kind() -> Kind {
        Kind::Sint32Optional
    }

    fn kind() -> (r: Kind) {
        Kind::Sint32Optional
    }
}

/// The type-level name of [`Kind::Sint32Repeated`].
pub struct Sint32Repeated;

impl KindSlot for Sint32Repeated {
    type Slot = Vec<i32>;

    open spec fn spec_kind() -> Kind {
        Kind::Sint32Repeated
    }

    fn kind() -> (r: Kind) {
        Kind::Sint32Repeated
    }
}

/// The type-level name of [`Kind::Sint32Packed`].
pub struct Sint32Packed;

impl KindSlot for Sint32Packed {
    type Slot = Vec<i32>;

    open spec fn spec_kind() -> Kind {
        Kind::Sint32Packed
    }

    fn kind() -> (r: Kind) {
        Kind::Sint32Packed
    }
}

/// The type-level name of [`Kind::Sint64Implicit`].
pub struct Sint64Implicit;

impl KindSlot for Sint64Implicit {
    type Slot = i64;

    open spec fn spec_kind() -> Kind {
        Kind::Sint64Implicit
    }

    fn kind() -> (r: Kind) {
        Kind::Sint64Implicit
    }
}

/// The type-level name of [`Kind::Sint64Required`].
pub struct Sint64Required;

impl KindSlot for Sint64Required {
    type Slot = i64;

    open spec fn spec_kind() -> Kind {
        Kind::Sint64Required
    }

    fn kind() -> (r: Kind) {
        Kind::Sint64Required
    }
}

/// The type-level name of [`Kind::Sint64Optional`].
pub struct Sint64Optional;

impl KindSlot for Sint64Optional {
    type Slot = Option<i64>;

    open spec fn spec_kind() -> Kind {
        Kind::Sint64Optional
    }

    fn kind() -> (r: Kind) {
        Kind::Sint64Optional
    }
}

/// The type-level name of [`Kind::Sint64Repeated`].
pub struct Sint64Repeated;

impl KindSlot for Sint64Repeated {
    type Slot = Vec<i64>;

    open spec fn spec_kind() -> Kind {
        Kind::Sint64Repeated
    }

    fn kind() -> (r: Kind) {
        Kind::Sint64Repeated
    }
}

/// The type-level name of [`Kind::Sint64Packed`].
pub struct Sint64Packed;

impl KindSlot for Sint64Packed {
    type Slot = Vec<i64>;

    open spec fn spec_kind() -> Kind {
        Kind::Sint64Packed
    }

    fn kind() -> (r: Kind) {
        Kind::Sint64Packed
    }
}

/// The type-level name of [`Kind::BoolImplicit`].
pub struct BoolImplicit;

impl KindSlot for BoolImplicit {
    type Slot = bool;

    open spec fn spec_kind() -> Kind {
        Kind::BoolImplicit
    }

    fn kind() -> (r: Kind) {
        Kind::BoolImplicit
    }
}

/// The type-level name of [`Kind::BoolRequired`].
pub struct BoolRequired;

impl KindSlot for BoolRequired {
    type Slot = bool;

    open spec fn spec_kind() -> Kind {
        Kind::BoolRequired
    }

    fn kind() -> (r: Kind) {
        Kind::BoolRequired
    }
}

/// The type-level name of [`Kind::BoolOptional`].
pub struct BoolOptional;

impl KindSlot for BoolOptional {
    type Slot = Option<bool>;

    open spec fn spec_kind() -> Kind {
        Kind::BoolOptional
    }

    fn kind() -> (r: Kind) {
        Kind::BoolOptional
    }
}

/// The type-level name of [`Kind::BoolRepeated`].
pub struct BoolRepeated;

impl KindSlot for BoolRepeated {
    type Slot = Vec<bool>;

    open spec fn spec_kind() -> Kind {
        Kind::BoolRepeated
    }

    fn kind() -> (r: Kind) {
        Kind::BoolRepeated
    }
}

/// The type-level name of [`Kind::BoolPacked`].
pub struct BoolPacked;

impl KindSlot for BoolPacked {
    type Slot = Vec<bool>;

    open spec fn spec_kind() -> Kind {
        Kind::BoolPacked
    }

    fn kind() -> (r: Kind) {
        Kind::BoolPacked
    }
}

/// The type-level name of [`Kind::Fixed32Implicit`].
pub struct Fixed32Implicit;

impl KindSlot for Fixed32Implicit {
    type Slot = u32;

    open spec fn spec_kind() -> Kind {
        Kind::Fixed32Implicit
    }

    fn kind() -> (r: Kind) {
        Kind::Fixed32Implicit
    }
}

/// The type-level name of [`Kind::Fixed32Required`].
pub struct Fixed32Required;

impl KindSlot for Fixed32Required {
    type Slot = u32;

    open spec fn spec_kind() -> Kind {
        Kind::Fixed32Required
    }

    fn kind() -> (r: Kind) {
        Kind::Fixed32Required
    }
}

/// The type-level name of [`Kind::Fixed32Optional`].
pub struct Fixed32Optional;

impl KindSlot for Fixed32Optional {
    type Slot = Option<u32>;

    open spec fn spec_kind() -> Kind {
        Kind::Fixed32Optional
    }

    fn kind() -> (r: Kind) {
        Kind::Fixed32Optional
    }
}

/// The type-level name of [`Kind::Fixed32Repeated`].
pub struct Fixed32Repeated;

impl KindSlot for Fixed32Repeated {
    type Slot = Vec<u32>;

    open spec fn spec_kind() -> Kind {
        Kind::Fixed32Repeated
    }

    fn kind() -> (r: Kind) {
        Kind::Fixed32Repeated
    }
}

/// The type-level name of [`Kind::Fixed32Packed`].
pub struct Fixed32Packed;

impl KindSlot for Fixed32Packed {
    type Slot = Vec<u32>;

    open spec fn spec_kind() -> Kind {
        Kind::Fixed32Packed
    }

    fn kind() -> (r: Kind) {
        Kind::Fixed32Packed
    }
}

/// The type-level name of [`Kind::Fixed64Implicit`].
pub struct Fixed64Implicit;

impl KindSlot for Fixed64Implicit {
    type Slot = u64;

    open spec fn spec_kind() -> Kind {
        Kind::Fixed64Implicit
    }

    fn kind() -> (r: Kind) {
        Kind::Fixed64Implicit
    }
}

/// The type-level name of [`Kind::Fixed64Required`].
pub struct Fixed64Required;

impl KindSlot for Fixed64Required {
    type Slot = u64;

    open spec fn spec_kind() -> Kind {
        Kind::Fixed64Required
    }

    fn kind() -> (r: Kind) {
        Kind::Fixed64Required
    }
}

/// The type-level name of [`Kind::Fixed64Optional`].
pub struct Fixed64Optional;

impl KindSlot for Fixed64Optional {
    type Slot = Option<u64>;

    open spec fn spec_kind() -> Kind {
        Kind::Fixed64Optional
    }

    fn kind() -> (r: Kind) {
        Kind::Fixed64Optional
    }
}

/// The type-level name of [`Kind::Fixed64Repeated`].
pub struct Fixed64Repeated;

impl KindSlot for Fixed64Repeated {
    type Slot = Vec<u64>;

    open spec fn spec_kind() -> Kind {
        Kind::Fixed64Repeated
    }

    fn kind() -> (r: Kind) {
        Kind::Fixed64Repeated
    }
}

/// The type-level name of [`Kind::Fixed64Packed`].
pub struct Fixed64Packed;

impl KindSlot for Fixed64Packed {
    type Slot = Vec<u64>;

    open spec fn spec_kind() -> Kind {
        Kind::Fixed64Packed
    }

    fn kind() -> (r: Kind) {
        Kind::Fixed64Packed
    }
}

/// The type-level name of [`Kind::Sfixed32Implicit`].
pub struct Sfixed32Implicit;

impl KindSlot for Sfixed32Implicit {
    type Slot = i32;

    open spec fn spec_kind() -> Kind {
        Kind::Sfixed32Implicit
    }

    fn kind() -> (r: Kind) {
        Kind::Sfixed32Implicit
    }
}

/// The type-level name of [`Kind::Sfixed32Required`].
pub struct Sfixed32Required;

impl KindSlot for Sfixed32Required {
    type Slot = i32;

    open spec fn spec_kind() -> Kind {
        Kind::Sfixed32Required
    }

    fn kind() -> (r: Kind) {
        Kind::Sfixed32Required
    }
}

/// The type-level name of [`Kind::Sfixed32Optional`].
pub struct Sfixed32Optional;

impl KindSlot for Sfixed32Optional {
    type Slot = Option<i32>;

    open spec fn spec_kind() -> Kind {
        Kind::Sfixed32Optional
    }

    fn kind() -> (r: Kind) {
        Kind::Sfixed32Optional
    }
}

/// The type-level name of [`Kind::Sfixed32Repeated`].
pub struct Sfixed32Repeated;

impl KindSlot for Sfixed32Repeated {
    type Slot = Vec<i32>;

    open spec fn spec_kind() -> Kind {
        Kind::Sfixed32Repeated
    }

    fn kind() -> (r: Kind) {
        Kind::Sfixed32Repeated
    }
}

/// The type-level name of [`Kind::Sfixed32Packed`].
pub struct Sfixed32Packed;

impl KindSlot for Sfixed32Packed {
    type Slot = Vec<i32>;

    open spec fn spec_kind() -> Kind {
        Kind::Sfixed32Packed
    }

    fn kind() -> (r: Kind) {
        Kind::Sfixed32Packed
    }
}

/// The type-level name of [`Kind::Sfixed64Implicit`].
pub struct Sfixed64Implicit;

impl KindSlot for Sfixed64Implicit {
    type Slot = i64;

    open spec fn spec_kind() -> Kind {
        Kind::Sfixed64Implicit
    }

    fn kind() -> (r: Kind) {
        Kind::Sfixed64Implicit
    }
}

/// The type-level name of [`Kind::Sfixed64Required`].
pub struct Sfixed64Required;

impl KindSlot for Sfixed64Required {
    type Slot = i64;

    open spec fn spec_kind() -> Kind {
        Kind::Sfixed64Required
    }

    fn kind() -> (r: Kind) {
        Kind::Sfixed64Required
    }
}

/// The type-level name of [`Kind::Sfixed64Optional`].
pub struct Sfixed64Optional;

impl KindSlot for Sfixed64Optional {
    type Slot = Option<i64>;

    open spec fn spec_kind() -> Kind {
        Kind::Sfixed64Optional
    }

    fn kind() -> (r: Kind) {
        Kind::Sfixed64Optional
    }
}

/// The type-level name of [`Kind::Sfixed64Repeated`].
pub struct Sfixed64Repeated;

impl KindSlot for Sfixed64Repeated {
    type Slot = Vec<i64>;

    open spec fn spec_kind() -> Kind {
        Kind::Sfixed64Repeated
    }

    fn kind() -> (r: Kind) {
        Kind::Sfixed64Repeated
    }
}

/// The type-level name of [`Kind::Sfixed64Packed`].
pub struct Sfixed64Packed;

impl KindSlot for Sfixed64Packed {
    type Slot = Vec<i64>;

    open spec fn spec_kind() -> Kind {
        Kind::Sfixed64Packed
    }

    fn kind() -> (r: Kind) {
        Kind::Sfixed64Packed
    }
}

/// The type-level name of [`Kind::StrImplicit`].
pub struct StrImplicit;

impl KindSlot for StrImplicit {
    type Slot = String;

    open spec fn spec_kind() -> Kind {
        Kind::StrImplicit
    }

    fn kind() -> (r: Kind) {
        Kind::StrImplicit
    }
}

/// The type-level name of [`Kind::StrRequired`].
pub struct StrRequired;

impl KindSlot for StrRequired {
    type Slot = String;

    open spec fn spec_kind() -> Kind {
        Kind::StrRequired
    }

    fn kind() -> (r: Kind) {
        Kind::StrRequired
    }
}

/// The type-level name of [`Kind::StrOptional`].
pub struct StrOptional;

impl KindSlot for StrOptional {
    type Slot = Option<String>;

    open spec fn spec_kind() -> Kind {
        Kind::StrOptional
    }

    fn kind() -> (r: Kind) {
        Kind::StrOptional
    }
}

/// The type-level name of [`Kind::StrRepeated`].
pub struct StrRepeated;

impl KindSlot for StrRepeated {
    type Slot = Vec<String>;

    open spec fn spec_kind() -> Kind {
        Kind::StrRepeated
    }

    fn kind() -> (r: Kind) {
        Kind::StrRepeated
    }
}

/// The type-level name of [`Kind::BytesImplicit`].
pub struct BytesImplicit;

impl KindSlot for BytesImplicit {
    type Slot = Vec<u8>;

    open spec fn spec_kind() -> Kind {
        Kind::BytesImplicit
    }

    fn kind() -> (r: Kind) {
        Kind::BytesImplicit
    }
}

/// The type-level name of [`Kind::BytesRequired`].
pub struct BytesRequired;

impl KindSlot for BytesRequired {
    type Slot = Vec<u8>;

    open spec fn spec_kind() -> Kind {
        Kind::BytesRequired
    }

    fn kind() -> (r: Kind) {
        Kind::BytesRequired
    }
}

/// The type-level name of [`Kind::BytesOptional`].
pub struct BytesOptional;

impl KindSlot for BytesOptional {
    type Slot = Option<Vec<u8>>;

    open spec fn spec_kind() -> Kind {
        Kind::BytesOptional
    }

    fn kind() -> (r: Kind) {
        Kind::BytesOptional
    }
}

/// The type-level name of [`Kind::BytesRepeated`].
pub struct BytesRepeated;

impl KindSlot for BytesRepeated {
    type Slot = Vec<Vec<u8>>;

    open spec fn spec_kind() -> Kind {
        Kind::BytesRepeated
    }

    fn kind() -> (r: Kind) {
        Kind::BytesRepeated
    }
}

} // verus!
