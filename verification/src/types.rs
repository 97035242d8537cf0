//! The descriptor messages of `descriptor.proto`, as plain data.
//!
//! Only the parts that the pool reads are modelled. Options keep their
//! encoded bytes next to the few values that validation looks at.
use vstd::prelude::*;
use crate::text::{opt_str, opt_str_or_empty};

verus! {

/// A set of file descriptors, as produced by `protoc --descriptor_set_out`.
pub struct FileDescriptorSet {
    pub file: Vec<FileDescriptorProto>,
}

/// The options attached to a descriptor.
pub struct Options {
    /// The options message exactly as it was encoded.
    pub encoded: Vec<u8>,
    /// `EnumOptions.allow_alias`.
    pub allow_alias: Option<bool>,
    /// `MessageOptions.map_entry`.
    pub map_entry: Option<bool>,
    /// `FieldOptions.packed`.
    pub packed: Option<bool>,
    /// Options written in the source that were not resolved by the compiler.
    pub uninterpreted_option: Vec<UninterpretedOption>,
}

/// One component of the name of an uninterpreted option.
pub struct NamePart {
    pub name_part: String,
    pub is_extension: bool,
}

/// An option that protoc has not interpreted, as written in the source.
pub struct UninterpretedOption {
    pub name: Vec<NamePart>,
    pub identifier_value: Option<String>,
    pub positive_int_value: Option<u64>,
    pub negative_int_value: Option<i64>,
    /// The decimal text of a floating-point value.
    pub double_value: Option<String>,
    pub string_value: Option<Vec<u8>>,
    pub aggregate_value: Option<String>,
}

/// A location in a source file.
pub struct Location {
    pub path: Vec<i32>,
    pub span: Vec<i32>,
}

/// Source locations of the definitions of a file.
pub struct SourceCodeInfo {
    pub location: Vec<Location>,
}

/// A `.proto` file.
pub struct FileDescriptorProto {
    pub name: Option<String>,
    pub package: Option<String>,
    pub dependency: Vec<String>,
    pub public_dependency: Vec<i32>,
    pub weak_dependency: Vec<i32>,
    pub message_type: Vec<DescriptorProto>,
    pub enum_type: Vec<EnumDescriptorProto>,
    pub service: Vec<ServiceDescriptorProto>,
    pub extension: Vec<FieldDescriptorProto>,
    pub options: Option<Options>,
    pub source_code_info: Option<SourceCodeInfo>,
    pub syntax: Option<String>,
}

/// A message type.
pub struct DescriptorProto {
    pub name: Option<String>,
    pub field: Vec<FieldDescriptorProto>,
    pub extension: Vec<FieldDescriptorProto>,
    pub nested_type: Vec<DescriptorProto>,
    pub enum_type: Vec<EnumDescriptorProto>,
    pub extension_range: Vec<ExtensionRange>,
    pub oneof_decl: Vec<OneofDescriptorProto>,
    pub options: Option<Options>,
    pub reserved_range: Vec<ReservedRange>,
    pub reserved_name: Vec<String>,
}

/// A range of field numbers reserved for extensions (`end` exclusive).
pub struct ExtensionRange {
    pub start: Option<i32>,
    pub end: Option<i32>,
    pub options: Option<Options>,
}

/// A range of reserved field numbers (`end` exclusive).
pub struct ReservedRange {
    pub start: Option<i32>,
    pub end: Option<i32>,
}

/// A field of a message, or an extension.
pub struct FieldDescriptorProto {
    pub name: Option<String>,
    pub number: Option<i32>,
    pub label: Option<i32>,
    /// The `type` of the field.
    pub field_type: Option<i32>,
    pub named_type: Option<String>,
    pub extendee: Option<String>,
    pub default_value: Option<String>,
    pub oneof_index: Option<i32>,
    pub json_name: Option<String>,
    pub options: Option<Options>,
    pub proto3_optional: Option<bool>,
}

/// A oneof of a message.
pub struct OneofDescriptorProto {
    pub name: Option<String>,
    pub options: Option<Options>,
}

/// An enum type.
pub struct EnumDescriptorProto {
    pub name: Option<String>,
    pub value: Vec<EnumValueDescriptorProto>,
    pub options: Option<Options>,
    pub reserved_range: Vec<EnumReservedRange>,
    pub reserved_name: Vec<String>,
}

/// A range of reserved enum numbers (`end` inclusive).
pub struct EnumReservedRange {
    pub start: Option<i32>,
    pub end: Option<i32>,
}

/// A value of an enum type.
pub struct EnumValueDescriptorProto {
    pub name: Option<String>,
    pub number: Option<i32>,
    pub options: Option<Options>,
}

/// A service.
pub struct ServiceDescriptorProto {
    pub name: Option<String>,
    pub method: Vec<MethodDescriptorProto>,
    pub options: Option<Options>,
}

/// A method of a service.
pub struct MethodDescriptorProto {
    pub name: Option<String>,
    pub input_type: Option<String>,
    pub output_type: Option<String>,
    pub options: Option<Options>,
    pub client_streaming: Option<bool>,
    pub server_streaming: Option<bool>,
}

/// `FieldDescriptorProto.Label.LABEL_OPTIONAL`.
pub const LABEL_OPTIONAL: i32 = 1;
/// `FieldDescriptorProto.Label.LABEL_REQUIRED`.
pub const LABEL_REQUIRED: i32 = 2;
/// `FieldDescriptorProto.Label.LABEL_REPEATED`.
pub const LABEL_REPEATED: i32 = 3;

/// `FieldDescriptorProto.Type.TYPE_DOUBLE`.
pub const TYPE_DOUBLE: i32 = 1;
/// `FieldDescriptorProto.Type.TYPE_FLOAT`.
pub const TYPE_FLOAT: i32 = 2;
/// `FieldDescriptorProto.Type.TYPE_INT64`.
pub const TYPE_INT64: i32 = 3;
/// `FieldDescriptorProto.Type.TYPE_UINT64`.
pub const TYPE_UINT64: i32 = 4;
/// `FieldDescriptorProto.Type.TYPE_INT32`.
pub const TYPE_INT32: i32 = 5;
/// `FieldDescriptorProto.Type.TYPE_FIXED64`.
pub const TYPE_FIXED64: i32 = 6;
/// `FieldDescriptorProto.Type.TYPE_FIXED32`.
pub const TYPE_FIXED32: i32 = 7;
/// `FieldDescriptorProto.Type.TYPE_BOOL`.
pub const TYPE_BOOL: i32 = 8;
/// `FieldDescriptorProto.Type.TYPE_STRING`.
pub const TYPE_STRING: i32 = 9;
/// `FieldDescriptorProto.Type.TYPE_GROUP`.
pub const TYPE_GROUP: i32 = 10;
/// `FieldDescriptorProto.Type.TYPE_MESSAGE`.
pub const TYPE_MESSAGE: i32 = 11;
/// `FieldDescriptorProto.Type.TYPE_BYTES`.
pub const TYPE_BYTES: i32 = 12;
/// `FieldDescriptorProto.Type.TYPE_UINT32`.
pub const TYPE_UINT32: i32 = 13;
/// `FieldDescriptorProto.Type.TYPE_ENUM`.
pub const TYPE_ENUM: i32 = 14;
/// `FieldDescriptorProto.Type.TYPE_SFIXED32`.
pub const TYPE_SFIXED32: i32 = 15;
/// `FieldDescriptorProto.Type.TYPE_SFIXED64`.
pub const TYPE_SFIXED64: i32 = 16;
/// `FieldDescriptorProto.Type.TYPE_SINT32`.
pub const TYPE_SINT32: i32 = 17;
/// `FieldDescriptorProto.Type.TYPE_SINT64`.
pub const TYPE_SINT64: i32 = 18;

/// The value of an optional integer field, or zero.
pub open spec fn opt_i32(v: Option<i32>) -> i32 {
    match v {
        Some(v) => v,
        None => 0,
    }
}

/// The value of an optional flag, or `false`.
pub open spec fn opt_bool(v: Option<bool>) -> bool {
    match v {
        Some(v) => v,
        None => false,
    }
}

impl FileDescriptorProto {
    /// The file name, or the empty string.
    pub fn name(&self) -> (r: &str)
        ensures
            r@ == opt_str(self.name),
    {
        opt_str_or_empty(&self.name)
    }

    /// The package, or the empty string.
    pub fn package(&self) -> (r: &str)
        ensures
            r@ == opt_str(self.package),
    {
        opt_str_or_empty(&self.package)
    }
}

impl DescriptorProto {
    /// The message name, or the empty string.
    pub fn name(&self) -> (r: &str)
        ensures
            r@ == opt_str(self.name),
    {
        opt_str_or_empty(&self.name)
    }
}

impl FieldDescriptorProto {
    /// The field name, or the empty string.
    pub fn name(&self) -> (r: &str)
        ensures
            r@ == opt_str(self.name),
    {
        opt_str_or_empty(&self.name)
    }

    /// The field number, or zero.
    pub fn number(&self) -> (r: i32)
        ensures
            r == opt_i32(self.number),
    {
        match self.number {
            Some(n) => n,
            None => 0,
        }
    }

    /// The type name, or the empty string.
    pub fn named_type(&self) -> (r: &str)
        ensures
            r@ == opt_str(self.named_type),
    {
        opt_str_or_empty(&self.named_type)
    }

    /// The extendee, or the empty string.
    pub fn extendee(&self) -> (r: &str)
        ensures
            r@ == opt_str(self.extendee),
    {
        opt_str_or_empty(&self.extendee)
    }

    /// Whether the field is a proto3 `optional` field.
    pub fn proto3_optional(&self) -> (r: bool)
        ensures
            r == opt_bool(self.proto3_optional),
    {
        match self.proto3_optional {
            Some(b) => b,
            None => false,
        }
    }
}

impl OneofDescriptorProto {
    /// The oneof name, or the empty string.
    pub fn name(&self) -> (r: &str)
        ensures
            r@ == opt_str(self.name),
    {
        opt_str_or_empty(&self.name)
    }
}

impl EnumDescriptorProto {
    /// The enum name, or the empty string.
    pub fn name(&self) -> (r: &str)
        ensures
            r@ == opt_str(self.name),
    {
        opt_str_or_empty(&self.name)
    }
}

impl EnumValueDescriptorProto {
    /// The value name, or the empty string.
    pub fn name(&self) -> (r: &str)
        ensures
            r@ == opt_str(self.name),
    {
        opt_str_or_empty(&self.name)
    }

    /// The value number, or zero.
    pub fn number(&self) -> (r: i32)
        ensures
            r == opt_i32(self.number),
    {
        match self.number {
            Some(n) => n,
            None => 0,
        }
    }
}

impl ServiceDescriptorProto {
    /// The service name, or the empty string.
    pub fn name(&self) -> (r: &str)
        ensures
            r@ == opt_str(self.name),
    {
        opt_str_or_empty(&self.name)
    }
}

impl MethodDescriptorProto {
    /// The method name, or the empty string.
    pub fn name(&self) -> (r: &str)
        ensures
            r@ == opt_str(self.name),
    {
        opt_str_or_empty(&self.name)
    }

    /// The input type name, or the empty string.
    pub fn input_type(&self) -> (r: &str)
        ensures
            r@ == opt_str(self.input_type),
    {
        opt_str_or_empty(&self.input_type)
    }

    /// The output type name, or the empty string.
    pub fn output_type(&self) -> (r: &str)
        ensures
            r@ == opt_str(self.output_type),
    {
        opt_str_or_empty(&self.output_type)
    }

    /// Whether the client streams, `false` when unset.
    pub fn client_streaming(&self) -> (r: bool)
        ensures
            r == opt_bool(self.client_streaming),
    {
        match self.client_streaming {
            Some(b) => b,
            None => false,
        }
    }

    /// Whether the server streams, `false` when unset.
    pub fn server_streaming(&self) -> (r: bool)
        ensures
            r == opt_bool(self.server_streaming),
    {
        match self.server_streaming {
            Some(b) => b,
            None => false,
        }
    }
}

impl Default for FileDescriptorSet {
    fn default() -> (r: Self)
        ensures
            r.file@.len() == 0,
    {
        FileDescriptorSet { file: Vec::new() }
    }
}

impl Default for FileDescriptorProto {
    fn default() -> (r: Self)
        ensures
            r.name is None && r.package is None && r.dependency@.len() == 0
                && r.public_dependency@.len() == 0 && r.weak_dependency@.len() == 0
                && r.message_type@.len() == 0 && r.enum_type@.len() == 0 && r.service@.len() == 0
                && r.extension@.len() == 0 && r.options is None && r.source_code_info is None
                && r.syntax is None,
    {
        FileDescriptorProto {
            name: None,
            package: None,
            dependency: Vec::new(),
            public_dependency: Vec::new(),
            weak_dependency: Vec::new(),
            message_type: Vec::new(),
            enum_type: Vec::new(),
            service: Vec::new(),
            extension: Vec::new(),
            options: None,
            source_code_info: None,
            syntax: None,
        }
    }
}

impl Default for DescriptorProto {
    fn default() -> (r: Self)
        ensures
            r.name is None && r.field@.len() == 0 && r.extension@.len() == 0
                && r.nested_type@.len() == 0 && r.enum_type@.len() == 0
                && r.extension_range@.len() == 0 && r.oneof_decl@.len() == 0
                && r.options is None && r.reserved_range@.len() == 0
                && r.reserved_name@.len() == 0,
    {
        DescriptorProto {
            name: None,
            field: Vec::new(),
            extension: Vec::new(),
            nested_type: Vec::new(),
            enum_type: Vec::new(),
            extension_range: Vec::new(),
            oneof_decl: Vec::new(),
            options: None,
            reserved_range: Vec::new(),
            reserved_name: Vec::new(),
        }
    }
}

impl Default for FieldDescriptorProto {
    fn default() -> (r: Self)
        ensures
            r.name is None && r.number is None && r.label is None && r.field_type is None
                && r.named_type is None && r.extendee is None && r.default_value is None
                && r.oneof_index is None && r.json_name is None && r.options is None
                && r.proto3_optional is None,
    {
        FieldDescriptorProto {
            name: None,
            number: None,
            label: None,
            field_type: None,
            named_type: None,
            extendee: None,
            default_value: None,
            oneof_index: None,
            json_name: None,
            options: None,
            proto3_optional: None,
        }
    }
}

impl Default for OneofDescriptorProto {
    fn default() -> (r: Self)
        ensures
            r.name is None && r.options is None,
    {
        OneofDescriptorProto { name: None, options: None }
    }
}

impl Default for EnumDescriptorProto {
    fn default() -> (r: Self)
        ensures
            r.name is None && r.value@.len() == 0 && r.options is None
                && r.reserved_range@.len() == 0 && r.reserved_name@.len() == 0,
    {
        EnumDescriptorProto {
            name: None,
            value: Vec::new(),
            options: None,
            reserved_range: Vec::new(),
            reserved_name: Vec::new(),
        }
    }
}

impl Default for EnumValueDescriptorProto {
    fn default() -> (r: Self)
        ensures
            r.name is None && r.number is None && r.options is None,
    {
        EnumValueDescriptorProto { name: None, number: None, options: None }
    }
}

impl Default for ServiceDescriptorProto {
    fn default() -> (r: Self)
        ensures
            r.name is None && r.method@.len() == 0 && r.options is None,
    {
        ServiceDescriptorProto { name: None, method: Vec::new(), options: None }
    }
}

impl Default for MethodDescriptorProto {
    fn default() -> (r: Self)
        ensures
            r.name is None && r.input_type is None && r.output_type is None && r.options is None
                && r.client_streaming is None && r.server_streaming is None,
    {
        MethodDescriptorProto {
            name: None,
            input_type: None,
            output_type: None,
            options: None,
            client_streaming: None,
            server_streaming: None,
        }
    }
}

impl Default for Options {
    fn default() -> (r: Self)
        ensures
            r.encoded@.len() == 0 && r.allow_alias is None && r.map_entry is None
                && r.packed is None && r.uninterpreted_option@.len() == 0,
    {
        Options {
            encoded: Vec::new(),
            allow_alias: None,
            map_entry: None,
            packed: None,
            uninterpreted_option: Vec::new(),
        }
    }
}

impl Default for UninterpretedOption {
    fn default() -> (r: Self)
        ensures
            r.name@.len() == 0 && r.identifier_value is None && r.positive_int_value is None
                && r.negative_int_value is None && r.double_value is None
                && r.string_value is None && r.aggregate_value is None,
    {
        UninterpretedOption {
            name: Vec::new(),
            identifier_value: None,
            positive_int_value: None,
            negative_int_value: None,
            double_value: None,
            string_value: None,
            aggregate_value: None,
        }
    }
}

} // verus!
