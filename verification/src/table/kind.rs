//! The type and cardinality of a table entry, and what each kind implies:
//! its wire type, the descriptor it needs and the shape of its storage.
use vstd::prelude::*;

verus! {

/// The cardinality of a field with implicit presence, and of a singular
/// message field.
pub const IMPLICIT: u8 = 0;
/// The cardinality of a field that is written even when it holds its
/// default.
pub const REQUIRED: u8 = 1;
/// The cardinality of a field with explicit presence.
pub const OPTIONAL: u8 = 2;
/// The cardinality of an unpacked repeated field.
pub const REPEATED: u8 = 3;
/// The cardinality of a packed repeated field.
pub const PACKED: u8 = 4;
/// The cardinality token of the member of a oneof that sizes and writes it.
pub const LEADER: u8 = 5;
/// The cardinality token of the other members of a oneof.
pub const FOLLOWER: u8 = 6;

/// The wire type of a varint.
pub const WIRE_VARINT: u32 = 0;
/// The wire type of an eight-byte fixed-width value.
pub const WIRE_FIXED64: u32 = 1;
/// The wire type of a length-delimited value.
pub const WIRE_LEN: u32 = 2;
/// The wire type of a four-byte fixed-width value.
pub const WIRE_FIXED32: u32 = 5;

/// The thirteen numeric and bool protobuf scalar types.
#[derive(Clone, Copy, PartialEq, Eq, Debug, Structural)]
pub enum ScalarType {
    /// The protobuf `int32` type.
    Int32,
    /// The protobuf `int64` type.
    Int64,
    /// The protobuf `uint32` type.
    Uint32,
    /// The protobuf `uint64` type.
    Uint64,
    /// The protobuf `sint32` type.
    Sint32,
    /// The protobuf `sint64` type.
    Sint64,
    /// The protobuf `bool` type.
    Bool,
    /// The protobuf `fixed32` type.
    Fixed32,
    /// The protobuf `fixed64` type.
    Fixed64,
    /// The protobuf `sfixed32` type.
    Sfixed32,
    /// The protobuf `sfixed64` type.
    Sfixed64,
    /// The protobuf `float` type.
    Float,
    /// The protobuf `double` type.
    Double,
}

/// The family of a kind: what its field holds.
#[derive(Clone, Copy, PartialEq, Eq, Debug, Structural)]
pub enum Family {
    /// A numeric or bool scalar of the given type.
    Scalar(ScalarType),
    /// A `string`.
    Str,
    /// A `bytes`.
    Bytes,
    /// An enum.
    Enum,
    /// A message.
    Msg,
    /// A member of a oneof.
    Oneof,
    /// A map.
    MapField,
}

/// Which [`Aux`](super::Aux) variant a kind needs.
#[derive(Clone, Copy, PartialEq, Eq, Debug, Structural)]
pub enum AuxKind {
    /// A [`MsgVt`](super::MsgVt).
    Msg,
    /// A [`RepVt`](super::RepVt).
    Rep,
    /// An [`EnumVt`](super::EnumVt).
    Enum,
    /// A [`OneofVt`](super::OneofVt).
    Group,
    /// A [`Member`](super::Member).
    Member,
    /// A [`MapVt`](super::MapVt).
    MapField,
}

/// The type and cardinality of a field: one interpreter arm each.
#[derive(Clone, Copy, PartialEq, Eq, Debug, Structural)]
pub enum Kind {
    #[allow(missing_docs)]
    Int32Implicit,
    #[allow(missing_docs)]
    Int32Required,
    #[allow(missing_docs)]
    Int32Optional,
    #[allow(missing_docs)]
    Int32Repeated,
    #[allow(missing_docs)]
    Int32Packed,
    #[allow(missing_docs)]
    Int64Implicit,
    #[allow(missing_docs)]
    Int64Required,
    #[allow(missing_docs)]
    Int64Optional,
    #[allow(missing_docs)]
    Int64Repeated,
    #[allow(missing_docs)]
    Int64Packed,
    #[allow(missing_docs)]
    Uint32Implicit,
    #[allow(missing_docs)]
    Uint32Required,
    #[allow(missing_docs)]
    Uint32Optional,
    #[allow(missing_docs)]
    Uint32Repeated,
    #[allow(missing_docs)]
    Uint32Packed,
    #[allow(missing_docs)]
    Uint64Implicit,
    #[allow(missing_docs)]
    Uint64Required,
    #[allow(missing_docs)]
    Uint64Optional,
    #[allow(missing_docs)]
    Uint64Repeated,
    #[allow(missing_docs)]
    Uint64Packed,
    #[allow(missing_docs)]
    Sint32Implicit,
    #[allow(missing_docs)]
    Sint32Required,
    #[allow(missing_docs)]
    Sint32Optional,
    #[allow(missing_docs)]
    Sint32Repeated,
    #[allow(missing_docs)]
    Sint32Packed,
    #[allow(missing_docs)]
    Sint64Implicit,
    #[allow(missing_docs)]
    Sint64Required,
    #[allow(missing_docs)]
    Sint64Optional,
    #[allow(missing_docs)]
    Sint64Repeated,
    #[allow(missing_docs)]
    Sint64Packed,
    #[allow(missing_docs)]
    BoolImplicit,
    #[allow(missing_docs)]
    BoolRequired,
    #[allow(missing_docs)]
    BoolOptional,
    #[allow(missing_docs)]
    BoolRepeated,
    #[allow(missing_docs)]
    BoolPacked,
    #[allow(missing_docs)]
    Fixed32Implicit,
    #[allow(missing_docs)]
    Fixed32Required,
    #[allow(missing_docs)]
    Fixed32Optional,
    #[allow(missing_docs)]
    Fixed32Repeated,
    #[allow(missing_docs)]
    Fixed32Packed,
    #[allow(missing_docs)]
    Fixed64Implicit,
    #[allow(missing_docs)]
    Fixed64Required,
    #[allow(missing_docs)]
    Fixed64Optional,
    #[allow(missing_docs)]
    Fixed64Repeated,
    #[allow(missing_docs)]
    Fixed64Packed,
    #[allow(missing_docs)]
    Sfixed32Implicit,
    #[allow(missing_docs)]
    Sfixed32Required,
    #[allow(missing_docs)]
    Sfixed32Optional,
    #[allow(missing_docs)]
    Sfixed32Repeated,
    #[allow(missing_docs)]
    Sfixed32Packed,
    #[allow(missing_docs)]
    Sfixed64Implicit,
    #[allow(missing_docs)]
    Sfixed64Required,
    #[allow(missing_docs)]
    Sfixed64Optional,
    #[allow(missing_docs)]
    Sfixed64Repeated,
    #[allow(missing_docs)]
    Sfixed64Packed,
    #[allow(missing_docs)]
    FloatImplicit,
    #[allow(missing_docs)]
    FloatRequired,
    #[allow(missing_docs)]
    FloatOptional,
    #[allow(missing_docs)]
    FloatRepeated,
    #[allow(missing_docs)]
    FloatPacked,
    #[allow(missing_docs)]
    DoubleImplicit,
    #[allow(missing_docs)]
    DoubleRequired,
    #[allow(missing_docs)]
    DoubleOptional,
    #[allow(missing_docs)]
    DoubleRepeated,
    #[allow(missing_docs)]
    DoublePacked,
    #[allow(missing_docs)]
    StrImplicit,
    #[allow(missing_docs)]
    StrRequired,
    #[allow(missing_docs)]
    StrOptional,
    #[allow(missing_docs)]
    StrRepeated,
    #[allow(missing_docs)]
    BytesImplicit,
    #[allow(missing_docs)]
    BytesRequired,
    #[allow(missing_docs)]
    BytesOptional,
    #[allow(missing_docs)]
    BytesRepeated,
    #[allow(missing_docs)]
    EnumImplicit,
    #[allow(missing_docs)]
    EnumRequired,
    #[allow(missing_docs)]
    EnumOptional,
    #[allow(missing_docs)]
    EnumRepeated,
    #[allow(missing_docs)]
    EnumPacked,
    #[allow(missing_docs)]
    MsgSingular,
    #[allow(missing_docs)]
    MsgRepeated,
    #[allow(missing_docs)]
    OneofLeader,
    #[allow(missing_docs)]
    OneofFollower,
    #[allow(missing_docs)]
    MapField,
}

/// The family of kind `k`.
pub open spec fn kind_family(k: Kind) -> Family {
    match k {
        Kind::Int32Implicit => Family::Scalar(ScalarType::Int32),
        Kind::Int32Required => Family::Scalar(ScalarType::Int32),
        Kind::Int32Optional => Family::Scalar(ScalarType::Int32),
        Kind::Int32Repeated => Family::Scalar(ScalarType::Int32),
        Kind::Int32Packed => Family::Scalar(ScalarType::Int32),
        Kind::Int64Implicit => Family::Scalar(ScalarType::Int64),
        Kind::Int64Required => Family::Scalar(ScalarType::Int64),
        Kind::Int64Optional => Family::Scalar(ScalarType::Int64),
        Kind::Int64Repeated => Family::Scalar(ScalarType::Int64),
        Kind::Int64Packed => Family::Scalar(ScalarType::Int64),
        Kind::Uint32Implicit => Family::Scalar(ScalarType::Uint32),
        Kind::Uint32Required => Family::Scalar(ScalarType::Uint32),
        Kind::Uint32Optional => Family::Scalar(ScalarType::Uint32),
        Kind::Uint32Repeated => Family::Scalar(ScalarType::Uint32),
        Kind::Uint32Packed => Family::Scalar(ScalarType::Uint32),
        Kind::Uint64Implicit => Family::Scalar(ScalarType::Uint64),
        Kind::Uint64Required => Family::Scalar(ScalarType::Uint64),
        Kind::Uint64Optional => Family::Scalar(ScalarType::Uint64),
        Kind::Uint64Repeated => Family::Scalar(ScalarType::Uint64),
        Kind::Uint64Packed => Family::Scalar(ScalarType::Uint64),
        Kind::Sint32Implicit => Family::Scalar(ScalarType::Sint32),
        Kind::Sint32Required => Family::Scalar(ScalarType::Sint32),
        Kind::Sint32Optional => Family::Scalar(ScalarType::Sint32),
        Kind::Sint32Repeated => Family::Scalar(ScalarType::Sint32),
        Kind::Sint32Packed => Family::Scalar(ScalarType::Sint32),
        Kind::Sint64Implicit => Family::Scalar(ScalarType::Sint64),
        Kind::Sint64Required => Family::Scalar(ScalarType::Sint64),
        Kind::Sint64Optional => Family::Scalar(ScalarType::Sint64),
        Kind::Sint64Repeated => Family::Scalar(ScalarType::Sint64),
        Kind::Sint64Packed => Family::Scalar(ScalarType::Sint64),
        Kind::BoolImplicit => Family::Scalar(ScalarType::Bool),
        Kind::BoolRequired => Family::Scalar(ScalarType::Bool),
        Kind::BoolOptional => Family::Scalar(ScalarType::Bool),
        Kind::BoolRepeated => Family::Scalar(ScalarType::Bool),
        Kind::BoolPacked => Family::Scalar(ScalarType::Bool),
        Kind::Fixed32Implicit => Family::Scalar(ScalarType::Fixed32),
        Kind::Fixed32Required => Family::Scalar(ScalarType::Fixed32),
        Kind::Fixed32Optional => Family::Scalar(ScalarType::Fixed32),
        Kind::Fixed32Repeated => Family::Scalar(ScalarType::Fixed32),
        Kind::Fixed32Packed => Family::Scalar(ScalarType::Fixed32),
        Kind::Fixed64Implicit => Family::Scalar(ScalarType::Fixed64),
        Kind::Fixed64Required => Family::Scalar(ScalarType::Fixed64),
        Kind::Fixed64Optional => Family::Scalar(ScalarType::Fixed64),
        Kind::Fixed64Repeated => Family::Scalar(ScalarType::Fixed64),
        Kind::Fixed64Packed => Family::Scalar(ScalarType::Fixed64),
        Kind::Sfixed32Implicit => Family::Scalar(ScalarType::Sfixed32),
        Kind::Sfixed32Required => Family::Scalar(ScalarType::Sfixed32),
        Kind::Sfixed32Optional => Family::Scalar(ScalarType::Sfixed32),
        Kind::Sfixed32Repeated => Family::Scalar(ScalarType::Sfixed32),
        Kind::Sfixed32Packed => Family::Scalar(ScalarType::Sfixed32),
        Kind::Sfixed64Implicit => Family::Scalar(ScalarType::Sfixed64),
        Kind::Sfixed64Required => Family::Scalar(ScalarType::Sfixed64),
        Kind::Sfixed64Optional => Family::Scalar(ScalarType::Sfixed64),
        Kind::Sfixed64Repeated => Family::Scalar(ScalarType::Sfixed64),
        Kind::Sfixed64Packed => Family::Scalar(ScalarType::Sfixed64),
        Kind::FloatImplicit => Family::Scalar(ScalarType::Float),
        Kind::FloatRequired => Family::Scalar(ScalarType::Float),
        Kind::FloatOptional => Family::Scalar(ScalarType::Float),
        Kind::FloatRepeated => Family::Scalar(ScalarType::Float),
        Kind::FloatPacked => Family::Scalar(ScalarType::Float),
        Kind::DoubleImplicit => Family::Scalar(ScalarType::Double),
        Kind::DoubleRequired => Family::Scalar(ScalarType::Double),
        Kind::DoubleOptional => Family::Scalar(ScalarType::Double),
        Kind::DoubleRepeated => Family::Scalar(ScalarType::Double),
        Kind::DoublePacked => Family::Scalar(ScalarType::Double),
        Kind::StrImplicit => Family::Str,
        Kind::StrRequired => Family::Str,
        Kind::StrOptional => Family::Str,
        Kind::StrRepeated => Family::Str,
        Kind::BytesImplicit => Family::Bytes,
        Kind::BytesRequired => Family::Bytes,
        Kind::BytesOptional => Family::Bytes,
        Kind::BytesRepeated => Family::Bytes,
        Kind::EnumImplicit => Family::Enum,
        Kind::EnumRequired => Family::Enum,
        Kind::EnumOptional => Family::Enum,
        Kind::EnumRepeated => Family::Enum,
        Kind::EnumPacked => Family::Enum,
        Kind::MsgSingular => Family::Msg,
        Kind::MsgRepeated => Family::Msg,
        Kind::OneofLeader => Family::Oneof,
        Kind::OneofFollower => Family::Oneof,
        Kind::MapField => Family::MapField,
    }
}

/// The cardinality of kind `k`.
pub open spec fn kind_card(k: Kind) -> u8 {
    match k {
        Kind::Int32Implicit => IMPLICIT,
        Kind::Int32Required => REQUIRED,
        Kind::Int32Optional => OPTIONAL,
        Kind::Int32Repeated => REPEATED,
        Kind::Int32Packed => PACKED,
        Kind::Int64Implicit => IMPLICIT,
        Kind::Int64Required => REQUIRED,
        Kind::Int64Optional => OPTIONAL,
        Kind::Int64Repeated => REPEATED,
        Kind::Int64Packed => PACKED,
        Kind::Uint32Implicit => IMPLICIT,
        Kind::Uint32Required => REQUIRED,
        Kind::Uint32Optional => OPTIONAL,
        Kind::Uint32Repeated => REPEATED,
        Kind::Uint32Packed => PACKED,
        Kind::Uint64Implicit => IMPLICIT,
        Kind::Uint64Required => REQUIRED,
        Kind::Uint64Optional => OPTIONAL,
        Kind::Uint64Repeated => REPEATED,
        Kind::Uint64Packed => PACKED,
        Kind::Sint32Implicit => IMPLICIT,
        Kind::Sint32Required => REQUIRED,
        Kind::Sint32Optional => OPTIONAL,
        Kind::Sint32Repeated => REPEATED,
        Kind::Sint32Packed => PACKED,
        Kind::Sint64Implicit => IMPLICIT,
        Kind::Sint64Required => REQUIRED,
        Kind::Sint64Optional => OPTIONAL,
        Kind::Sint64Repeated => REPEATED,
        Kind::Sint64Packed => PACKED,
        Kind::BoolImplicit => IMPLICIT,
        Kind::BoolRequired => REQUIRED,
        Kind::BoolOptional => OPTIONAL,
        Kind::BoolRepeated => REPEATED,
        Kind::BoolPacked => PACKED,
        Kind::Fixed32Implicit => IMPLICIT,
        Kind::Fixed32Required => REQUIRED,
        Kind::Fixed32Optional => OPTIONAL,
        Kind::Fixed32Repeated => REPEATED,
        Kind::Fixed32Packed => PACKED,
        Kind::Fixed64Implicit => IMPLICIT,
        Kind::Fixed64Required => REQUIRED,
        Kind::Fixed64Optional => OPTIONAL,
        Kind::Fixed64Repeated => REPEATED,
        Kind::Fixed64Packed => PACKED,
        Kind::Sfixed32Implicit => IMPLICIT,
        Kind::Sfixed32Required => REQUIRED,
        Kind::Sfixed32Optional => OPTIONAL,
        Kind::Sfixed32Repeated => REPEATED,
        Kind::Sfixed32Packed => PACKED,
        Kind::Sfixed64Implicit => IMPLICIT,
        Kind::Sfixed64Required => REQUIRED,
        Kind::Sfixed64Optional => OPTIONAL,
        Kind::Sfixed64Repeated => REPEATED,
        Kind::Sfixed64Packed => PACKED,
        Kind::FloatImplicit => IMPLICIT,
        Kind::FloatRequired => REQUIRED,
        Kind::FloatOptional => OPTIONAL,
        Kind::FloatRepeated => REPEATED,
        Kind::FloatPacked => PACKED,
        Kind::DoubleImplicit => IMPLICIT,
        Kind::DoubleRequired => REQUIRED,
        Kind::DoubleOptional => OPTIONAL,
        Kind::DoubleRepeated => REPEATED,
        Kind::DoublePacked => PACKED,
        Kind::StrImplicit => IMPLICIT,
        Kind::StrRequired => REQUIRED,
        Kind::StrOptional => OPTIONAL,
        Kind::StrRepeated => REPEATED,
        Kind::BytesImplicit => IMPLICIT,
        Kind::BytesRequired => REQUIRED,
        Kind::BytesOptional => OPTIONAL,
        Kind::BytesRepeated => REPEATED,
        Kind::EnumImplicit => IMPLICIT,
        Kind::EnumRequired => REQUIRED,
        Kind::EnumOptional => OPTIONAL,
        Kind::EnumRepeated => REPEATED,
        Kind::EnumPacked => PACKED,
        Kind::MsgSingular => IMPLICIT,
        Kind::MsgRepeated => REPEATED,
        Kind::OneofLeader => LEADER,
        Kind::OneofFollower => FOLLOWER,
        Kind::MapField => REPEATED,
    }
}

/// The wire type of a single value of scalar type `t`.
pub open spec fn scalar_wire(t: ScalarType) -> u32 {
    match t {
        ScalarType::Fixed64 | ScalarType::Sfixed64 | ScalarType::Double => WIRE_FIXED64,
        ScalarType::Fixed32 | ScalarType::Sfixed32 | ScalarType::Float => WIRE_FIXED32,
        _ => WIRE_VARINT,
    }
}

/// The wire type of the tag of a field of kind `k`, or `None` for a oneof
/// member, whose wire type is its payload kind's.
pub open spec fn kind_wire_type(k: Kind) -> Option<u32> {
    match kind_family(k) {
        Family::Scalar(t) => if kind_card(k) == PACKED {
            Some(WIRE_LEN)
        } else {
            Some(scalar_wire(t))
        },
        Family::Enum => if kind_card(k) == PACKED {
            Some(WIRE_LEN)
        } else {
            Some(WIRE_VARINT)
        },
        Family::Oneof => None,
        _ => Some(WIRE_LEN),
    }
}

/// The descriptor that an entry of kind `k` carries an index to, if any.
pub open spec fn kind_aux_kind(k: Kind) -> Option<AuxKind> {
    match kind_family(k) {
        Family::Enum => Some(AuxKind::Enum),
        Family::Oneof => Some(AuxKind::Member),
        Family::Msg => if kind_card(k) == REPEATED {
            Some(AuxKind::Rep)
        } else {
            Some(AuxKind::Msg)
        },
        Family::MapField => Some(AuxKind::MapField),
        _ => None,
    }
}

/// The cardinality a field of kind `k` has in an enum shape: `IMPLICIT`
/// (also for a required field and a oneof member), `OPTIONAL` or
/// `REPEATED` (also for a packed field).
pub open spec fn kind_shape_card(k: Kind) -> u8 {
    let c = kind_card(k);
    if c == OPTIONAL {
        OPTIONAL
    } else if c == REPEATED || c == PACKED {
        REPEATED
    } else {
        IMPLICIT
    }
}

/// Whether a oneof member's payload can be of kind `k`: a value written
/// whenever the member is set, so a `Required` scalar, string, bytes or enum
/// kind, or a singular message.
pub open spec fn kind_is_oneof_payload(k: Kind) -> bool {
    k == Kind::MsgSingular || (kind_card(k) == REQUIRED && match kind_family(k) {
        Family::Scalar(_) | Family::Str | Family::Bytes | Family::Enum => true,
        _ => false,
    })
}

impl Kind {
    /// The family of this kind.
    pub fn family(self) -> (r: Family)
        ensures
            r == kind_family(self),
    {
        match self {
            Kind::Int32Implicit => Family::Scalar(ScalarType::Int32),
            Kind::Int32Required => Family::Scalar(ScalarType::Int32),
            Kind::Int32Optional => Family::Scalar(ScalarType::Int32),
            Kind::Int32Repeated => Family::Scalar(ScalarType::Int32),
            Kind::Int32Packed => Family::Scalar(ScalarType::Int32),
            Kind::Int64Implicit => Family::Scalar(ScalarType::Int64),
            Kind::Int64Required => Family::Scalar(ScalarType::Int64),
            Kind::Int64Optional => Family::Scalar(ScalarType::Int64),
            Kind::Int64Repeated => Family::Scalar(ScalarType::Int64),
            Kind::Int64Packed => Family::Scalar(ScalarType::Int64),
            Kind::Uint32Implicit => Family::Scalar(ScalarType::Uint32),
            Kind::Uint32Required => Family::Scalar(ScalarType::Uint32),
            Kind::Uint32Optional => Family::Scalar(ScalarType::Uint32),
            Kind::Uint32Repeated => Family::Scalar(ScalarType::Uint32),
            Kind::Uint32Packed => Family::Scalar(ScalarType::Uint32),
            Kind::Uint64Implicit => Family::Scalar(ScalarType::Uint64),
            Kind::Uint64Required => Family::Scalar(ScalarType::Uint64),
            Kind::Uint64Optional => Family::Scalar(ScalarType::Uint64),
            Kind::Uint64Repeated => Family::Scalar(ScalarType::Uint64),
            Kind::Uint64Packed => Family::Scalar(ScalarType::Uint64),
            Kind::Sint32Implicit => Family::Scalar(ScalarType::Sint32),
            Kind::Sint32Required => Family::Scalar(ScalarType::Sint32),
            Kind::Sint32Optional => Family::Scalar(ScalarType::Sint32),
            Kind::Sint32Repeated => Family::Scalar(ScalarType::Sint32),
            Kind::Sint32Packed => Family::Scalar(ScalarType::Sint32),
            Kind::Sint64Implicit => Family::Scalar(ScalarType::Sint64),
            Kind::Sint64Required => Family::Scalar(ScalarType::Sint64),
            Kind::Sint64Optional => Family::Scalar(ScalarType::Sint64),
            Kind::Sint64Repeated => Family::Scalar(ScalarType::Sint64),
            Kind::Sint64Packed => Family::Scalar(ScalarType::Sint64),
            Kind::BoolImplicit => Family::Scalar(ScalarType::Bool),
            Kind::BoolRequired => Family::Scalar(ScalarType::Bool),
            Kind::BoolOptional => Family::Scalar(ScalarType::Bool),
            Kind::BoolRepeated => Family::Scalar(ScalarType::Bool),
            Kind::BoolPacked => Family::Scalar(ScalarType::Bool),
            Kind::Fixed32Implicit => Family::Scalar(ScalarType::Fixed32),
            Kind::Fixed32Required => Family::Scalar(ScalarType::Fixed32),
            Kind::Fixed32Optional => Family::Scalar(ScalarType::Fixed32),
            Kind::Fixed32Repeated => Family::Scalar(ScalarType::Fixed32),
            Kind::Fixed32Packed => Family::Scalar(ScalarType::Fixed32),
            Kind::Fixed64Implicit => Family::Scalar(ScalarType::Fixed64),
            Kind::Fixed64Required => Family::Scalar(ScalarType::Fixed64),
            Kind::Fixed64Optional => Family::Scalar(ScalarType::Fixed64),
            Kind::Fixed64Repeated => Family::Scalar(ScalarType::Fixed64),
            Kind::Fixed64Packed => Family::Scalar(ScalarType::Fixed64),
            Kind::Sfixed32Implicit => Family::Scalar(ScalarType::Sfixed32),
            Kind::Sfixed32Required => Family::Scalar(ScalarType::Sfixed32),
            Kind::Sfixed32Optional => Family::Scalar(ScalarType::Sfixed32),
            Kind::Sfixed32Repeated => Family::Scalar(ScalarType::Sfixed32),
            Kind::Sfixed32Packed => Family::Scalar(ScalarType::Sfixed32),
            Kind::Sfixed64Implicit => Family::Scalar(ScalarType::Sfixed64),
            Kind::Sfixed64Required => Family::Scalar(ScalarType::Sfixed64),
            Kind::Sfixed64Optional => Family::Scalar(ScalarType::Sfixed64),
            Kind::Sfixed64Repeated => Family::Scalar(ScalarType::Sfixed64),
            Kind::Sfixed64Packed => Family::Scalar(ScalarType::Sfixed64),
            Kind::FloatImplicit => Family::Scalar(ScalarType::Float),
            Kind::FloatRequired => Family::Scalar(ScalarType::Float),
            Kind::FloatOptional => Family::Scalar(ScalarType::Float),
            Kind::FloatRepeated => Family::Scalar(ScalarType::Float),
            Kind::FloatPacked => Family::Scalar(ScalarType::Float),
            Kind::DoubleImplicit => Family::Scalar(ScalarType::Double),
            Kind::DoubleRequired => Family::Scalar(ScalarType::Double),
            Kind::DoubleOptional => Family::Scalar(ScalarType::Double),
            Kind::DoubleRepeated => Family::Scalar(ScalarType::Double),
            Kind::DoublePacked => Family::Scalar(ScalarType::Double),
            Kind::StrImplicit => Family::Str,
            Kind::StrRequired => Family::Str,
            Kind::StrOptional => Family::Str,
            Kind::StrRepeated => Family::Str,
            Kind::BytesImplicit => Family::Bytes,
            Kind::BytesRequired => Family::Bytes,
            Kind::BytesOptional => Family::Bytes,
            Kind::BytesRepeated => Family::Bytes,
            Kind::EnumImplicit => Family::Enum,
            Kind::EnumRequired => Family::Enum,
            Kind::EnumOptional => Family::Enum,
            Kind::EnumRepeated => Family::Enum,
            Kind::EnumPacked => Family::Enum,
            Kind::MsgSingular => Family::Msg,
            Kind::MsgRepeated => Family::Msg,
            Kind::OneofLeader => Family::Oneof,
            Kind::OneofFollower => Family::Oneof,
            Kind::MapField => Family::MapField,
        }
    }

    /// The cardinality of this kind.
    pub fn card(self) -> (r: u8)
        ensures
            r == kind_card(self),
    {
        match self {
            Kind::Int32Implicit => IMPLICIT,
            Kind::Int32Required => REQUIRED,
            Kind::Int32Optional => OPTIONAL,
            Kind::Int32Repeated => REPEATED,
            Kind::Int32Packed => PACKED,
            Kind::Int64Implicit => IMPLICIT,
            Kind::Int64Required => REQUIRED,
            Kind::Int64Optional => OPTIONAL,
            Kind::Int64Repeated => REPEATED,
            Kind::Int64Packed => PACKED,
            Kind::Uint32Implicit => IMPLICIT,
            Kind::Uint32Required => REQUIRED,
            Kind::Uint32Optional => OPTIONAL,
            Kind::Uint32Repeated => REPEATED,
            Kind::Uint32Packed => PACKED,
            Kind::Uint64Implicit => IMPLICIT,
            Kind::Uint64Required => REQUIRED,
            Kind::Uint64Optional => OPTIONAL,
            Kind::Uint64Repeated => REPEATED,
            Kind::Uint64Packed => PACKED,
            Kind::Sint32Implicit => IMPLICIT,
            Kind::Sint32Required => REQUIRED,
            Kind::Sint32Optional => OPTIONAL,
            Kind::Sint32Repeated => REPEATED,
            Kind::Sint32Packed => PACKED,
            Kind::Sint64Implicit => IMPLICIT,
            Kind::Sint64Required => REQUIRED,
            Kind::Sint64Optional => OPTIONAL,
            Kind::Sint64Repeated => REPEATED,
            Kind::Sint64Packed => PACKED,
            Kind::BoolImplicit => IMPLICIT,
            Kind::BoolRequired => REQUIRED,
            Kind::BoolOptional => OPTIONAL,
            Kind::BoolRepeated => REPEATED,
            Kind::BoolPacked => PACKED,
            Kind::Fixed32Implicit => IMPLICIT,
            Kind::Fixed32Required => REQUIRED,
            Kind::Fixed32Optional => OPTIONAL,
            Kind::Fixed32Repeated => REPEATED,
            Kind::Fixed32Packed => PACKED,
            Kind::Fixed64Implicit => IMPLICIT,
            Kind::Fixed64Required => REQUIRED,
            Kind::Fixed64Optional => OPTIONAL,
            Kind::Fixed64Repeated => REPEATED,
            Kind::Fixed64Packed => PACKED,
            Kind::Sfixed32Implicit => IMPLICIT,
            Kind::Sfixed32Required => REQUIRED,
            Kind::Sfixed32Optional => OPTIONAL,
            Kind::Sfixed32Repeated => REPEATED,
            Kind::Sfixed32Packed => PACKED,
            Kind::Sfixed64Implicit => IMPLICIT,
            Kind::Sfixed64Required => REQUIRED,
            Kind::Sfixed64Optional => OPTIONAL,
            Kind::Sfixed64Repeated => REPEATED,
            Kind::Sfixed64Packed => PACKED,
            Kind::FloatImplicit => IMPLICIT,
            Kind::FloatRequired => REQUIRED,
            Kind::FloatOptional => OPTIONAL,
            Kind::FloatRepeated => REPEATED,
            Kind::FloatPacked => PACKED,
            Kind::DoubleImplicit => IMPLICIT,
            Kind::DoubleRequired => REQUIRED,
            Kind::DoubleOptional => OPTIONAL,
            Kind::DoubleRepeated => REPEATED,
            Kind::DoublePacked => PACKED,
            Kind::StrImplicit => IMPLICIT,
            Kind::StrRequired => REQUIRED,
            Kind::StrOptional => OPTIONAL,
            Kind::StrRepeated => REPEATED,
            Kind::BytesImplicit => IMPLICIT,
            Kind::BytesRequired => REQUIRED,
            Kind::BytesOptional => OPTIONAL,
            Kind::BytesRepeated => REPEATED,
            Kind::EnumImplicit => IMPLICIT,
            Kind::EnumRequired => REQUIRED,
            Kind::EnumOptional => OPTIONAL,
            Kind::EnumRepeated => REPEATED,
            Kind::EnumPacked => PACKED,
            Kind::MsgSingular => IMPLICIT,
            Kind::MsgRepeated => REPEATED,
            Kind::OneofLeader => LEADER,
            Kind::OneofFollower => FOLLOWER,
            Kind::MapField => REPEATED,
        }
    }

    /// The wire type of the field's tag, as a number.
    ///
    /// A oneof member's wire type is its payload kind's, so a oneof kind has
    /// none.
    pub fn wire_type(self) -> (r: u32)
        requires
            kind_family(self) != Family::Oneof,
        ensures
            kind_wire_type(self) == Some(r),
    {
        let card = self.card();
        match self.family() {
            Family::Scalar(t) => {
                if card == PACKED {
                    WIRE_LEN
                } else {
                    match t {
                        ScalarType::Fixed64 | ScalarType::Sfixed64 | ScalarType::Double => {
                            WIRE_FIXED64
                        },
                        ScalarType::Fixed32 | ScalarType::Sfixed32 | ScalarType::Float => {
                            WIRE_FIXED32
                        },
                        _ => WIRE_VARINT,
                    }
                }
            },
            Family::Enum => {
                if card == PACKED {
                    WIRE_LEN
                } else {
                    WIRE_VARINT
                }
            },
            _ => WIRE_LEN,
        }
    }

    /// Whether the entry carries an index into the table's aux array, and of
    /// which descriptor.
    pub fn aux_kind(self) -> (r: Option<AuxKind>)
        ensures
            r == kind_aux_kind(self),
    {
        let card = self.card();
        match self.family() {
            Family::Enum => Some(AuxKind::Enum),
            Family::Oneof => Some(AuxKind::Member),
            Family::Msg => {
                if card == REPEATED {
                    Some(AuxKind::Rep)
                } else {
                    Some(AuxKind::Msg)
                }
            },
            Family::MapField => Some(AuxKind::MapField),
            _ => None,
        }
    }

    /// The cardinality a field of this kind has in an enum shape.
    pub fn shape_card(self) -> (r: u8)
        ensures
            r == kind_shape_card(self),
    {
        let c = self.card();
        if c == OPTIONAL {
            OPTIONAL
        } else if c == REPEATED || c == PACKED {
            REPEATED
        } else {
            IMPLICIT
        }
    }

    /// Whether a oneof member's payload can be of this kind.
    pub fn is_oneof_payload(self) -> (r: bool)
        ensures
            r == kind_is_oneof_payload(self),
    {
        if self == Kind::MsgSingular {
            return true;
        }
        if self.card() != REQUIRED {
            return false;
        }
        match self.family() {
            Family::Scalar(_) | Family::Str | Family::Bytes | Family::Enum => true,
            _ => false,
        }
    }
}

} // verus!
