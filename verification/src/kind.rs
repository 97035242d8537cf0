//! Syntax, cardinality and field types.
use vstd::prelude::*;

verus! {

/// The syntax of a proto file.
#[derive(Copy, Clone, PartialEq, Eq, Structural, Debug, Hash)]
pub enum Syntax {
    /// The `proto2` syntax.
    Proto2,
    /// The `proto3` syntax.
    Proto3,
}

/// Cardinality determines whether a field is optional, required, or repeated.
#[derive(Copy, Clone, PartialEq, Eq, Structural, Debug, Hash)]
pub enum Cardinality {
    /// The field appears zero or one times.
    Optional,
    /// The field appears exactly one time. This cardinality is invalid with Proto3.
    Required,
    /// The field appears zero or more times.
    Repeated,
}

/// How a value is laid out on the wire.
#[derive(Copy, Clone, PartialEq, Eq, Structural, Debug)]
pub enum WireType {
    Varint,
    SixtyFourBit,
    LengthDelimited,
    StartGroup,
    EndGroup,
    ThirtyTwoBit,
}

/// The type of a field, with message and enum types given by their index in the pool.
#[derive(Copy, Clone, PartialEq, Eq, Structural, Debug)]
pub enum KindIndex {
    Double,
    Float,
    Int32,
    Int64,
    Uint32,
    Uint64,
    Sint32,
    Sint64,
    Fixed32,
    Fixed64,
    Sfixed32,
    Sfixed64,
    Bool,
    String,
    Bytes,
    Message(u32),
    Enum(u32),
    Group(u32),
}

impl KindIndex {
    /// Whether repeated fields of this type can use the packed encoding: all
    /// scalar numeric types, `bool` and enums.
    pub open spec fn spec_is_packable(self) -> bool {
        !(self is String || self is Bytes || self is Message || self is Group)
    }

    /// Whether values of this type are messages (including groups).
    pub open spec fn spec_is_message(self) -> bool {
        self is Message || self is Group
    }

    /// Whether repeated fields of this type can use the packed encoding.
    pub fn is_packable(&self) -> (r: bool)
        ensures
            r == self.spec_is_packable(),
    {
        match self {
            KindIndex::Double | KindIndex::Float | KindIndex::Int32 | KindIndex::Int64
            | KindIndex::Uint32 | KindIndex::Uint64 | KindIndex::Sint32 | KindIndex::Sint64
            | KindIndex::Fixed32 | KindIndex::Fixed64 | KindIndex::Sfixed32 | KindIndex::Sfixed64
            | KindIndex::Bool | KindIndex::Enum(_) => true,
            KindIndex::String | KindIndex::Bytes | KindIndex::Message(_) | KindIndex::Group(
                _,
            ) => false,
        }
    }

    /// Whether values of this type are messages (including groups).
    pub fn is_message(&self) -> (r: bool)
        ensures
            r == self.spec_is_message(),
    {
        match self {
            KindIndex::Message(_) | KindIndex::Group(_) => true,
            _ => false,
        }
    }

    /// The wire type used to encode values of this type; groups are encoded
    /// as length-delimited messages.
    pub open spec fn spec_wire_type(self) -> WireType {
        match self {
            KindIndex::Double | KindIndex::Fixed64 | KindIndex::Sfixed64 => WireType::SixtyFourBit,
            KindIndex::Float | KindIndex::Fixed32 | KindIndex::Sfixed32 => WireType::ThirtyTwoBit,
            KindIndex::Enum(_) | KindIndex::Int32 | KindIndex::Int64 | KindIndex::Uint32
            | KindIndex::Uint64 | KindIndex::Sint32 | KindIndex::Sint64
            | KindIndex::Bool => WireType::Varint,
            _ => WireType::LengthDelimited,
        }
    }

    /// The protobuf name of this type, as written in error messages.
    pub open spec fn spec_type_name(self) -> Seq<char> {
        match self {
            KindIndex::Double => "double"@,
            KindIndex::Float => "float"@,
            KindIndex::Int32 => "int32"@,
            KindIndex::Int64 => "int64"@,
            KindIndex::Uint32 => "uint32"@,
            KindIndex::Uint64 => "uint64"@,
            KindIndex::Sint32 => "sint32"@,
            KindIndex::Sint64 => "sint64"@,
            KindIndex::Fixed32 => "fixed32"@,
            KindIndex::Fixed64 => "fixed64"@,
            KindIndex::Sfixed32 => "sfixed32"@,
            KindIndex::Sfixed64 => "sfixed64"@,
            KindIndex::Bool => "bool"@,
            KindIndex::String => "string"@,
            KindIndex::Bytes => "bytes"@,
            KindIndex::Message(_) | KindIndex::Group(_) => "message"@,
            KindIndex::Enum(_) => "enum"@,
        }
    }

    /// The wire type used to encode values of this type.
    pub fn wire_type(&self) -> (r: WireType)
        ensures
            r == self.spec_wire_type(),
    {
        match self {
            KindIndex::Double | KindIndex::Fixed64 | KindIndex::Sfixed64 => WireType::SixtyFourBit,
            KindIndex::Float | KindIndex::Fixed32 | KindIndex::Sfixed32 => WireType::ThirtyTwoBit,
            KindIndex::Enum(_) | KindIndex::Int32 | KindIndex::Int64 | KindIndex::Uint32
            | KindIndex::Uint64 | KindIndex::Sint32 | KindIndex::Sint64
            | KindIndex::Bool => WireType::Varint,
            _ => WireType::LengthDelimited,
        }
    }
}

/// A type can use the packed encoding exactly when its values are not
/// length-delimited on the wire.
pub proof fn lemma_packable_iff_not_length_delimited(kind: KindIndex)
    ensures
        kind.spec_is_packable() <==> kind.spec_wire_type() != WireType::LengthDelimited,
{
}

} // verus!

verus! {

impl Syntax {
    /// The name of this syntax as a proto file declares it.
    pub fn name(&self) -> (r: &'static str)
        ensures
            r@ == match *self {
                Syntax::Proto2 => "proto2"@,
                Syntax::Proto3 => "proto3"@,
            },
    {
        match self {
            Syntax::Proto2 => "proto2",
            Syntax::Proto3 => "proto3",
        }
    }
}

} // verus!

verus! {

impl KindIndex {
    /// The protobuf name of this type, as written in error messages.
    pub fn type_keyword(&self) -> (r: &'static str)
        ensures
            r@ == self.spec_type_name(),
    {
        match self {
            KindIndex::Double => "double",
            KindIndex::Float => "float",
            KindIndex::Int32 => "int32",
            KindIndex::Int64 => "int64",
            KindIndex::Uint32 => "uint32",
            KindIndex::Uint64 => "uint64",
            KindIndex::Sint32 => "sint32",
            KindIndex::Sint64 => "sint64",
            KindIndex::Fixed32 => "fixed32",
            KindIndex::Fixed64 => "fixed64",
            KindIndex::Sfixed32 => "sfixed32",
            KindIndex::Sfixed64 => "sfixed64",
            KindIndex::Bool => "bool",
            KindIndex::String => "string",
            KindIndex::Bytes => "bytes",
            KindIndex::Message(_) | KindIndex::Group(_) => "message",
            KindIndex::Enum(_) => "enum",
        }
    }
}

} // verus!
