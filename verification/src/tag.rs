//! Field numbers of the descriptor messages, used to build source paths.
use vstd::prelude::*;

verus! {

/// `uninterpreted_option` in every options message.
pub const UNINTERPRETED_OPTION: i32 = 999;

/// `FileDescriptorProto.package`.
pub const FILE_PACKAGE: i32 = 2;
/// `FileDescriptorProto.dependency`.
pub const FILE_DEPENDENCY: i32 = 3;
/// `FileDescriptorProto.public_dependency`.
pub const FILE_PUBLIC_DEPENDENCY: i32 = 10;
/// `FileDescriptorProto.message_type`.
pub const FILE_MESSAGE_TYPE: i32 = 4;
/// `FileDescriptorProto.enum_type`.
pub const FILE_ENUM_TYPE: i32 = 5;
/// `FileDescriptorProto.service`.
pub const FILE_SERVICE: i32 = 6;
/// `FileDescriptorProto.extension`.
pub const FILE_EXTENSION: i32 = 7;
/// `FileDescriptorProto.options`.
pub const FILE_OPTIONS: i32 = 8;
/// `FileDescriptorProto.syntax`.
pub const FILE_SYNTAX: i32 = 12;

/// `DescriptorProto.name`.
pub const MESSAGE_NAME: i32 = 1;
/// `DescriptorProto.field`.
pub const MESSAGE_FIELD: i32 = 2;
/// `DescriptorProto.nested_type`.
pub const MESSAGE_NESTED_TYPE: i32 = 3;
/// `DescriptorProto.enum_type`.
pub const MESSAGE_ENUM_TYPE: i32 = 4;
/// `DescriptorProto.extension_range`.
pub const MESSAGE_EXTENSION_RANGE: i32 = 5;
/// `DescriptorProto.extension`.
pub const MESSAGE_EXTENSION: i32 = 6;
/// `DescriptorProto.options`.
pub const MESSAGE_OPTIONS: i32 = 7;
/// `DescriptorProto.oneof_decl`.
pub const MESSAGE_ONEOF_DECL: i32 = 8;
/// `DescriptorProto.reserved_range`.
pub const MESSAGE_RESERVED_RANGE: i32 = 9;
/// `DescriptorProto.reserved_name`.
pub const MESSAGE_RESERVED_NAME: i32 = 10;

/// `FieldDescriptorProto.name`.
pub const FIELD_NAME: i32 = 1;
/// `FieldDescriptorProto.extendee`.
pub const FIELD_EXTENDEE: i32 = 2;
/// `FieldDescriptorProto.number`.
pub const FIELD_NUMBER: i32 = 3;
/// `FieldDescriptorProto.label`.
pub const FIELD_LABEL: i32 = 4;
/// `FieldDescriptorProto.type`.
pub const FIELD_TYPE: i32 = 5;
/// `FieldDescriptorProto.type_name`.
pub const FIELD_TYPE_NAME: i32 = 6;
/// `FieldDescriptorProto.default_value`.
pub const FIELD_DEFAULT_VALUE: i32 = 7;
/// `FieldDescriptorProto.options`.
pub const FIELD_OPTIONS: i32 = 8;
/// `FieldDescriptorProto.oneof_index`.
pub const FIELD_ONEOF_INDEX: i32 = 9;
/// `FieldDescriptorProto.json_name`.
pub const FIELD_JSON_NAME: i32 = 10;

/// `OneofDescriptorProto.name`.
pub const ONEOF_NAME: i32 = 1;
/// `OneofDescriptorProto.options`.
pub const ONEOF_OPTIONS: i32 = 2;

/// `EnumDescriptorProto.name`.
pub const ENUM_NAME: i32 = 1;
/// `EnumDescriptorProto.value`.
pub const ENUM_VALUE: i32 = 2;
/// `EnumDescriptorProto.options`.
pub const ENUM_OPTIONS: i32 = 3;
/// `EnumDescriptorProto.reserved_range`.
pub const ENUM_RESERVED_RANGE: i32 = 4;

/// `EnumValueDescriptorProto.name`.
pub const ENUM_VALUE_NAME: i32 = 1;
/// `EnumValueDescriptorProto.number`.
pub const ENUM_VALUE_NUMBER: i32 = 2;

/// `ServiceDescriptorProto.name`.
pub const SERVICE_NAME: i32 = 1;
/// `ServiceDescriptorProto.method`.
pub const SERVICE_METHOD: i32 = 2;

/// `MethodDescriptorProto.name`.
pub const METHOD_NAME: i32 = 1;
/// `MethodDescriptorProto.input_type`.
pub const METHOD_INPUT_TYPE: i32 = 2;
/// `MethodDescriptorProto.output_type`.
pub const METHOD_OUTPUT_TYPE: i32 = 3;

} // verus!
