//! The data held by a descriptor pool.
use vstd::prelude::*;
use crate::definition::NameEntry;
use crate::kind::{Cardinality, KindIndex, Syntax};
use crate::types::FileDescriptorProto;

verus! {

/// The name of a definition, its full name and where it is defined.
pub struct Identity {
    pub file: u32,
    pub path: Vec<i32>,
    pub full_name: String,
    pub name: String,
}

impl Identity {
    /// Creates the identity of a definition.
    pub fn new(file: u32, path: Vec<i32>, full_name: String, name: String) -> (r: Identity)
        ensures
            r.file == file,
            r.path@ == path@,
            r.full_name@ == full_name@,
            r.name@ == name@,
    {
        Identity { file, path, full_name, name }
    }

    /// The full name, e.g. `my.package.MyMessage`.
    pub fn full_name(&self) -> (r: &str)
        ensures
            r@ == self.full_name@,
    {
        self.full_name.as_str()
    }

    /// The short name, e.g. `MyMessage`.
    pub fn name(&self) -> (r: &str)
        ensures
            r@ == self.name@,
    {
        self.name.as_str()
    }
}

/// A file of the pool.
pub struct FileDescriptorInner {
    pub syntax: Syntax,
    pub raw: FileDescriptorProto,
    /// The indices of the imported files, in import order.
    pub dependencies: Vec<u32>,
    /// The file itself and every file it imports, directly or not.
    pub transitive_dependencies: Vec<u32>,
}

/// A message type of the pool.
pub struct MessageDescriptorInner {
    pub id: Identity,
    pub parent: Option<u32>,
    /// The extensions of this message defined anywhere in the pool.
    pub extensions: Vec<u32>,
    pub fields: Vec<FieldDescriptorInner>,
    /// Each field number with the index of its field, ordered by number.
    pub field_numbers: Vec<(u32, u32)>,
    pub oneofs: Vec<OneofDescriptorInner>,
}

/// A oneof of a message.
pub struct OneofDescriptorInner {
    pub id: Identity,
    pub fields: Vec<u32>,
}

/// A field of a message.
pub struct FieldDescriptorInner {
    pub id: Identity,
    pub number: u32,
    pub json_name: String,
    pub kind: KindIndex,
    pub oneof: Option<u32>,
    pub is_packed: bool,
    pub supports_presence: bool,
    pub cardinality: Cardinality,
}

/// An extension field.
pub struct ExtensionDescriptorInner {
    pub id: Identity,
    pub parent: Option<u32>,
    pub number: u32,
    pub json_name: String,
    pub extendee: u32,
    pub kind: KindIndex,
    pub is_packed: bool,
    pub cardinality: Cardinality,
}

/// An enum type of the pool.
pub struct EnumDescriptorInner {
    pub id: Identity,
    pub parent: Option<u32>,
    pub values: Vec<EnumValueDescriptorInner>,
    /// Each value number with the index of its value, ordered by number.
    pub value_numbers: Vec<(i32, u32)>,
    pub allow_alias: bool,
}

/// A value of an enum type.
pub struct EnumValueDescriptorInner {
    pub id: Identity,
    pub number: i32,
}

/// A service of the pool.
pub struct ServiceDescriptorInner {
    pub id: Identity,
    pub methods: Vec<MethodDescriptorInner>,
}

/// A method of a service.
pub struct MethodDescriptorInner {
    pub id: Identity,
    pub input: u32,
    pub output: u32,
}

/// Everything a pool holds.
pub struct DescriptorPoolInner {
    pub names: Vec<NameEntry>,
    pub files: Vec<FileDescriptorInner>,
    pub messages: Vec<MessageDescriptorInner>,
    pub enums: Vec<EnumDescriptorInner>,
    pub extensions: Vec<ExtensionDescriptorInner>,
    pub services: Vec<ServiceDescriptorInner>,
}

} // verus!
