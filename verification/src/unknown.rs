//! The fields of a message that its schema does not know, kept so that they
//! can be written back.
use vstd::prelude::*;

verus! {

/// The payload of an unknown field, by wire type.
#[derive(Debug, PartialEq)]
pub enum UnknownFieldData {
    /// A varint.
    Varint(u64),
    /// An eight-byte fixed-width value.
    Fixed64(u64),
    /// A four-byte fixed-width value.
    Fixed32(u32),
    /// A length-delimited value.
    LengthDelimited(Vec<u8>),
    /// A group, with the fields it holds.
    Group(UnknownFields),
}

/// One field that the schema does not know.
#[derive(Debug, PartialEq)]
pub struct UnknownField {
    /// The field number.
    pub number: u32,
    /// What the field holds.
    pub data: UnknownFieldData,
}

/// The unknown fields of a message, in the order they were read.
#[derive(Debug, Default, PartialEq)]
pub struct UnknownFields {
    fields: Vec<UnknownField>,
}

impl View for UnknownFields {
    type V = Seq<UnknownField>;

    closed spec fn view(&self) -> Seq<UnknownField> {
        self.fields@
    }
}

impl UnknownFields {
    /// No unknown fields.
    pub fn new() -> (r: Self)
        ensures
            r@ == Seq::<UnknownField>::empty(),
    {
        UnknownFields { fields: Vec::new() }
    }

    /// Keep `field` after the others.
    pub fn push(&mut self, field: UnknownField)
        ensures
            final(self)@ == old(self)@.push(field),
    {
        self.fields.push(field);
    }

    /// The number of fields kept.
    pub fn len(&self) -> (r: usize)
        ensures
            r == self@.len(),
    {
        self.fields.len()
    }

    /// Whether no field is kept.
    pub fn is_empty(&self) -> (r: bool)
        ensures
            r == (self@.len() == 0),
    {
        self.fields.len() == 0
    }
}

} // verus!
