use prost_reflect::api::DescriptorPool;
use prost_reflect::builder::Builder;
use prost_reflect::descriptor::Kind;
use prost_reflect::error::{DescriptorError, DescriptorErrorKind, Label, Span};
use prost_reflect::kind::{Cardinality, Syntax, WireType};
use prost_reflect::names::to_json_name;
use prost_reflect::ty::{Scalar, Type, TypeKind, TypeMap};
use prost_reflect::types::{
    DescriptorProto, EnumDescriptorProto, EnumValueDescriptorProto, FieldDescriptorProto, FileDescriptorProto,
    FileDescriptorSet, MethodDescriptorProto, OneofDescriptorProto, Options, ServiceDescriptorProto,
};

const LABEL_OPTIONAL: i32 = 1;
const LABEL_REPEATED: i32 = 3;
const TYPE_INT32: i32 = 5;
const TYPE_STRING: i32 = 9;
const TYPE_MESSAGE: i32 = 11;
const TYPE_ENUM: i32 = 14;

fn s(v: &str) -> Option<String> {
    Some(v.to_owned())
}

fn label(file: &str, path: Vec<i32>, span: Option<Span>) -> Label {
    Label { file: file.to_owned(), path, span }
}

fn scalar_field(name: &str, number: i32, field_type: i32) -> FieldDescriptorProto {
    FieldDescriptorProto {
        name: s(name),
        number: Some(number),
        label: Some(LABEL_OPTIONAL),
        field_type: Some(field_type),
        ..Default::default()
    }
}

fn typed_field(name: &str, number: i32, field_type: i32, named: &str) -> FieldDescriptorProto {
    FieldDescriptorProto {
        name: s(name),
        number: Some(number),
        label: Some(LABEL_OPTIONAL),
        field_type: Some(field_type),
        named_type: s(named),
        ..Default::default()
    }
}

fn sample_file() -> FileDescriptorProto {
    FileDescriptorProto {
        name: s("sample.proto"),
        package: s("my.package"),
        syntax: s("proto3"),
        message_type: vec![
            DescriptorProto {
                name: s("Outer"),
                field: vec![
                    scalar_field("second_field", 2, TYPE_STRING),
                    scalar_field("first_field", 1, TYPE_INT32),
                    typed_field("inner", 3, TYPE_MESSAGE, "Inner"),
                    typed_field("color", 4, TYPE_ENUM, ".my.package.Color"),
                    FieldDescriptorProto {
                        name: s("choice_a"),
                        number: Some(5),
                        label: Some(LABEL_OPTIONAL),
                        field_type: Some(TYPE_INT32),
                        oneof_index: Some(0),
                        ..Default::default()
                    },
                    FieldDescriptorProto {
                        name: s("tags"),
                        number: Some(6),
                        label: Some(LABEL_REPEATED),
                        field_type: Some(TYPE_MESSAGE),
                        named_type: s("TagsEntry"),
                        ..Default::default()
                    },
                ],
                nested_type: vec![
                    DescriptorProto { name: s("Inner"), ..Default::default() },
                    DescriptorProto {
                        name: s("TagsEntry"),
                        field: vec![scalar_field("key", 1, TYPE_STRING), scalar_field("value", 2, TYPE_STRING)],
                        options: Some(Options { map_entry: Some(true), ..Default::default() }),
                        ..Default::default()
                    },
                ],
                oneof_decl: vec![OneofDescriptorProto { name: s("choice"), ..Default::default() }],
                ..Default::default()
            },
        ],
        enum_type: vec![EnumDescriptorProto {
            name: s("Color"),
            value: vec![
                EnumValueDescriptorProto { name: s("RED"), number: Some(0), ..Default::default() },
                EnumValueDescriptorProto { name: s("GREEN"), number: Some(2), ..Default::default() },
                EnumValueDescriptorProto { name: s("BLUE"), number: Some(1), ..Default::default() },
            ],
            ..Default::default()
        }],
        service: vec![ServiceDescriptorProto {
            name: s("Greeter"),
            method: vec![MethodDescriptorProto {
                name: s("Greet"),
                input_type: s("Outer"),
                output_type: s(".my.package.Outer.Inner"),
                server_streaming: Some(true),
                ..Default::default()
            }],
            ..Default::default()
        }],
        ..Default::default()
    }
}

fn sample_pool() -> DescriptorPool {
    let set = FileDescriptorSet { file: vec![sample_file()] };
    DescriptorPool::from_file_descriptor_set(set).unwrap()
}

#[test]
fn error_messages_name_their_subject() {
    let e = DescriptorErrorKind::NameNotFound {
        name: "Foo".to_owned(),
        found: label("a.proto", vec![4, 0], None),
        help: None,
    };
    assert_eq!(e.message(), "name 'Foo' is not defined");
    let same = DescriptorErrorKind::DuplicateName {
        name: "pkg.Foo".to_owned(),
        first: label("a.proto", vec![4, 0, 1], None),
        second: label("a.proto", vec![4, 1, 1], None),
    };
    assert_eq!(same.message(), "name 'pkg.Foo' is defined twice");
    let other = DescriptorErrorKind::DuplicateName {
        name: "pkg.Foo".to_owned(),
        first: label("a.proto", vec![4, 0, 1], None),
        second: label("b.proto", vec![4, 1, 1], None),
    };
    assert_eq!(other.message(), "name 'pkg.Foo' is already defined in file 'a.proto'");
    let missing = DescriptorErrorKind::MissingRequiredField { label: label("a.proto", vec![4, 0, 2, 1], None) };
    assert_eq!(missing.message(), "missing required field at [4, 0, 2, 1]");
    let reserved = DescriptorErrorKind::FieldNumberInReservedRange {
        number: 5,
        range_start: 4,
        range_end: 10,
        defined: label("a.proto", vec![4, 0, 9, 0], None),
        found: label("a.proto", vec![4, 0, 2, 0], None),
    };
    assert_eq!(reserved.message(), "field number '5' conflicts with reserved range '4 to 9'");
    let enum_reserved = DescriptorErrorKind::EnumNumberInReservedRange {
        number: -3,
        range_start: -5,
        range_end: -1,
        defined: label("a.proto", vec![5, 0, 4, 0], None),
        found: label("a.proto", vec![5, 0, 2, 0], None),
    };
    assert_eq!(enum_reserved.message(), "enum number '-3' conflicts with reserved range '-5 to -1'");
    let last = DescriptorErrorKind::InvalidOptionType {
        name: "packed".to_owned(),
        ty: "bool".to_owned(),
        value: "3".to_owned(),
        is_last: true,
        found: label("a.proto", vec![], None),
    };
    assert_eq!(last.message(), "expected a value of type 'bool' for option 'packed', but found '3'");
    let not_last = DescriptorErrorKind::InvalidOptionType {
        name: "packed".to_owned(),
        ty: "bool".to_owned(),
        value: "3".to_owned(),
        is_last: false,
        found: label("a.proto", vec![], None),
    };
    assert_eq!(not_last.message(), "cannot set field for option 'packed' value of type 'bool'");
    assert_eq!(DescriptorErrorKind::InvalidImportIndex.message(), "invalid import index");
    assert_eq!(
        DescriptorErrorKind::DecodeFileDescriptorSet { message: "eof".to_owned() }.message(),
        "failed to decode file descriptor set"
    );
}

#[test]
fn error_help_for_field_numbers() {
    let invalid = |number: i32| DescriptorErrorKind::InvalidFieldNumber {
        number,
        found: label("a.proto", vec![4, 0, 2, 0, 3], None),
    };
    assert_eq!(invalid(0).help(), Some("message numbers must be between 1 and 536870911".to_owned()));
    assert_eq!(invalid(536870912).help(), Some("message numbers must be between 1 and 536870911".to_owned()));
    assert_eq!(invalid(19500).help(), Some("message numbers 19000 to 19999 are reserved".to_owned()));
    assert_eq!(invalid(7).help(), None);
    assert_eq!(invalid(0).message(), "invalid field number '0'");
    let dup = DescriptorErrorKind::DuplicateEnumNumber {
        number: 1,
        first: label("a.proto", vec![], None),
        second: label("a.proto", vec![], None),
    };
    assert_eq!(dup.help(), Some("set the 'allow_alias' option allow re-using enum numbers".to_owned()));
    assert_eq!(dup.message(), "enum number '1' has already been used");
}

#[test]
fn error_position_is_one_based() {
    let span = Span { start_line: 4, start_column: 2, end_line: 4, end_column: 9 };
    let err = DescriptorError::new(vec![
        DescriptorErrorKind::NameNotFound {
            name: "Foo".to_owned(),
            found: label("a.proto", vec![4, 0, 2, 0, 6], Some(span)),
            help: None,
        },
        DescriptorErrorKind::InvalidOneofIndex,
    ]);
    assert_eq!(err.to_string(), "name 'Foo' is not defined");
    assert_eq!(err.file(), Some("a.proto"));
    assert_eq!(err.line(), Some(5));
    assert_eq!(err.column(), Some(3));
    assert_eq!(err.path(), Some(&[4, 0, 2, 0, 6][..]));
    assert_eq!(err.errors().len(), 2);
    let plain = DescriptorError::new(vec![DescriptorErrorKind::DuplicateFileName { name: "a.proto".to_owned() }]);
    assert_eq!(plain.to_string(), "a different file named 'a.proto' has already been added");
    assert_eq!(plain.file(), None);
    assert_eq!(plain.line(), None);
    assert_eq!(plain.path(), None);
}

#[test]
fn json_names_are_camel_case() {
    assert_eq!(to_json_name("foo_bar_baz"), "fooBarBaz");
    assert_eq!(to_json_name("foo"), "foo");
    assert_eq!(to_json_name("_leading"), "Leading");
}

#[test]
fn builder_paths_and_attributes() {
    let b = Builder::new(Some("/out"));
    assert_eq!(b.get_file_descriptor_set_path(), "/out/file_descriptor_set.bin");
    let b = Builder::new(Some("/out/"));
    assert_eq!(b.get_file_descriptor_set_path(), "/out/file_descriptor_set.bin");
    let mut b = Builder::new(None);
    assert_eq!(b.get_file_descriptor_set_path(), "./file_descriptor_set.bin");
    assert_eq!(
        b.pool_attribute(),
        Err("either 'descriptor_pool' or 'file_descriptor_set_bytes' must be set".to_owned())
    );
    b.file_descriptor_set_bytes("crate::BYTES".to_owned());
    assert_eq!(b.pool_attribute(), Ok("#[prost_reflect(file_descriptor_set_bytes = \"crate::BYTES\")]".to_owned()));
    b.descriptor_pool("crate::DESCRIPTOR_POOL".to_owned()).file_descriptor_set_path("x.bin".to_owned());
    assert_eq!(b.get_file_descriptor_set_path(), "x.bin");
    let pool_attr = "#[prost_reflect(descriptor_pool = \"crate::DESCRIPTOR_POOL\")]".to_owned();
    assert_eq!(b.pool_attribute(), Ok(pool_attr.clone()));

    let pool = sample_pool();
    let attrs = b.message_attributes(&pool).unwrap();
    assert_eq!(attrs.len(), 9);
    assert_eq!(attrs[0], ("my.package.Outer".to_owned(), "#[derive(::prost_reflect::ReflectMessage)]".to_owned()));
    assert_eq!(
        attrs[1],
        ("my.package.Outer".to_owned(), "#[prost_reflect(message_name = \"my.package.Outer\")]".to_owned())
    );
    assert_eq!(attrs[2], ("my.package.Outer".to_owned(), pool_attr));
    assert_eq!(attrs[3].0, "my.package.Outer.Inner");
    assert_eq!(attrs[6].0, "my.package.Outer.TagsEntry");
}

#[test]
fn pool_lists_files_and_definitions() {
    let pool = sample_pool();
    assert_eq!(pool.files().len(), 1);
    let file = pool.get_file_by_name("sample.proto").unwrap();
    assert_eq!(file.name(), "sample.proto");
    assert_eq!(file.package_name(), "my.package");
    assert_eq!(file.syntax(), Syntax::Proto3);
    assert_eq!(file.index(), 0);
    assert!(pool.get_file_by_name("other.proto").is_none());
    let names: Vec<String> = pool.all_messages().iter().map(|m| m.full_name().to_owned()).collect();
    assert_eq!(names, vec!["my.package.Outer", "my.package.Outer.Inner", "my.package.Outer.TagsEntry"]);
    let top: Vec<String> = file.messages().iter().map(|m| m.name().to_owned()).collect();
    assert_eq!(top, vec!["Outer"]);
    assert_eq!(file.enums().len(), 1);
    assert_eq!(file.services().len(), 1);
    assert_eq!(pool.all_enums()[0].full_name(), "my.package.Color");
    assert!(pool.get_enum_by_name("my.package.Color").is_some());
    assert!(pool.get_message_by_name("my.package.Color").is_none());
    assert!(pool.get_service_by_name("my.package.Greeter").is_some());
    assert!(pool.get_extension_by_name("my.package.Outer").is_none());
}

#[test]
fn message_fields_oneofs_and_maps() {
    let pool = sample_pool();
    let outer = pool.get_message_by_name("my.package.Outer").unwrap();
    assert_eq!(outer.name(), "Outer");
    assert_eq!(outer.package_name(), "my.package");
    assert_eq!(outer.path(), &[4, 0][..]);
    assert!(outer.parent_message().is_none());
    let numbers: Vec<u32> = outer.fields().iter().map(|f| f.number()).collect();
    assert_eq!(numbers, vec![1, 2, 3, 4, 5, 6]);
    let second = outer.get_field(2).unwrap();
    assert_eq!(second.name(), "second_field");
    assert_eq!(second.full_name(), "my.package.Outer.second_field");
    assert_eq!(second.json_name(), "secondField");
    assert_eq!(second.path(), &[4, 0, 2, 0][..]);
    assert!(matches!(second.kind(), Kind::String));
    assert_eq!(second.kind().wire_type(), WireType::LengthDelimited);
    assert_eq!(second.cardinality(), Cardinality::Optional);
    assert!(outer.get_field(99).is_none());
    assert!(outer.get_field_by_json_name("firstField").is_some());
    let inner = outer.get_field_by_name("inner").unwrap();
    assert_eq!(inner.kind().as_message().unwrap().full_name(), "my.package.Outer.Inner");
    assert!(!inner.is_list());
    assert!(!inner.is_map());
    let color = outer.get_field_by_name("color").unwrap();
    assert_eq!(color.kind().as_enum().unwrap().full_name(), "my.package.Color");
    assert_eq!(color.kind().wire_type(), WireType::Varint);
    let choice = outer.get_field_by_name("choice_a").unwrap();
    let oneof = choice.containing_oneof().unwrap();
    assert_eq!(oneof.name(), "choice");
    assert_eq!(oneof.full_name(), "my.package.Outer.choice");
    assert_eq!(oneof.fields().len(), 1);
    assert_eq!(outer.oneofs().len(), 1);
    let tags = outer.get_field_by_name("tags").unwrap();
    assert!(tags.is_map());
    assert!(!tags.is_list());
    let entry = tags.kind().as_message().unwrap().clone();
    assert!(entry.is_map_entry());
    assert_eq!(entry.map_entry_key_field().name(), "key");
    assert_eq!(entry.map_entry_value_field().name(), "value");
    assert_eq!(entry.parent_message().unwrap().full_name(), "my.package.Outer");
    let children: Vec<String> = outer.child_messages().iter().map(|m| m.name().to_owned()).collect();
    assert_eq!(children, vec!["Inner", "TagsEntry"]);
    assert_eq!(outer.descriptor_proto().unwrap().name.as_deref(), Some("Outer"));
    let nested = pool.get_message_by_name("my.package.Outer.Inner").unwrap();
    assert_eq!(nested.descriptor_proto().unwrap().name.as_deref(), Some("Inner"));
}

#[test]
fn enum_values_and_services() {
    let pool = sample_pool();
    let color = pool.get_enum_by_name("my.package.Color").unwrap();
    let numbers: Vec<i32> = color.values().iter().map(|v| v.number()).collect();
    assert_eq!(numbers, vec![0, 1, 2]);
    assert_eq!(color.default_value().name(), "RED");
    assert_eq!(color.get_value(2).unwrap().name(), "GREEN");
    assert_eq!(color.get_value_by_name("BLUE").unwrap().number(), 1);
    assert_eq!(color.get_value_by_name("BLUE").unwrap().full_name(), "my.package.BLUE");
    assert!(color.get_value(7).is_none());
    assert_eq!(color.enum_descriptor_proto().unwrap().name.as_deref(), Some("Color"));
    assert_eq!(color.enum_descriptor_proto().unwrap().value.len(), 3);
    let service = pool.get_service_by_name("my.package.Greeter").unwrap();
    assert_eq!(service.full_name(), "my.package.Greeter");
    let methods = service.methods();
    assert_eq!(methods.len(), 1);
    assert_eq!(methods[0].full_name(), "my.package.Greeter.Greet");
    assert_eq!(methods[0].input().full_name(), "my.package.Outer");
    assert_eq!(methods[0].output().full_name(), "my.package.Outer.Inner");
    assert!(methods[0].is_server_streaming());
    assert!(!methods[0].is_client_streaming());
}

#[test]
fn failed_add_leaves_pool_unchanged() {
    let mut pool = sample_pool();
    let bad = FileDescriptorSet {
        file: vec![FileDescriptorProto {
            name: s("bad.proto"),
            package: s("bad"),
            syntax: s("proto3"),
            message_type: vec![DescriptorProto {
                name: s("Broken"),
                field: vec![typed_field("missing", 1, TYPE_MESSAGE, ".bad.Nope")],
                ..Default::default()
            }],
            ..Default::default()
        }],
    };
    let err = pool.add_file_descriptor_set(bad).unwrap_err();
    assert_eq!(err.to_string(), "name '.bad.Nope' is not defined");
    assert_eq!(err.file(), Some("bad.proto"));
    assert_eq!(pool.file_descriptor_protos().len(), 1);
    assert!(pool.get_message_by_name("bad.Broken").is_none());
    assert_eq!(pool.all_messages().len(), 3);
}

#[test]
fn duplicate_names_are_reported() {
    let set = FileDescriptorSet {
        file: vec![FileDescriptorProto {
            name: s("dup.proto"),
            package: s("dup"),
            message_type: vec![
                DescriptorProto { name: s("Same"), ..Default::default() },
                DescriptorProto { name: s("Same"), ..Default::default() },
            ],
            ..Default::default()
        }],
    };
    let err = DescriptorPool::from_file_descriptor_set(set).err().unwrap();
    assert_eq!(err.to_string(), "name 'dup.Same' is defined twice");
    assert_eq!(err.path(), Some(&[4, 1, 1][..]));
}

#[test]
fn imported_types_resolve_and_unimported_ones_do_not() {
    let dep = FileDescriptorProto {
        name: s("dep.proto"),
        package: s("dep"),
        message_type: vec![DescriptorProto { name: s("Shared"), ..Default::default() }],
        ..Default::default()
    };
    let user = |deps: Vec<String>| FileDescriptorProto {
        name: s("user.proto"),
        package: s("user"),
        dependency: deps,
        message_type: vec![DescriptorProto {
            name: s("User"),
            field: vec![typed_field("shared", 1, TYPE_MESSAGE, ".dep.Shared")],
            ..Default::default()
        }],
        ..Default::default()
    };
    let mut pool = DescriptorPool::new();
    assert!(pool.add_file_descriptor_proto(dep).is_ok());
    let err = pool.add_file_descriptor_proto(user(vec![])).unwrap_err();
    assert_eq!(err.to_string(), "name 'dep.Shared' is not defined");
    assert_eq!(
        err.help(),
        Some("'dep.Shared' is defined in 'dep.proto', which is not imported by 'user.proto'".to_owned())
    );
    assert!(pool.add_file_descriptor_proto(user(vec!["dep.proto".to_owned()])).is_ok());
    let field = pool.get_message_by_name("user.User").unwrap().get_field(1).unwrap();
    assert_eq!(field.kind().as_message().unwrap().full_name(), "dep.Shared");
    let file = pool.get_file_by_name("user.proto").unwrap();
    assert_eq!(file.dependencies()[0].name(), "dep.proto");
    assert_eq!(file.syntax(), Syntax::Proto2);
}

#[test]
fn batches_that_fit_can_be_added() {
    let pool = DescriptorPool::new();
    assert!(pool.can_add(&vec![sample_file()]));
    let unknown = FileDescriptorProto { name: s("x.proto"), syntax: s("proto4"), ..Default::default() };
    assert!(pool.can_add(&vec![unknown]));
}

#[test]
fn unknown_syntax_is_an_error_and_leaves_the_pool_unchanged() {
    let mut pool = DescriptorPool::new();
    pool.add_file_descriptor_proto(sample_file()).unwrap();
    let count = pool.files().len();
    let unknown = FileDescriptorProto { name: s("x.proto"), syntax: s("proto4"), ..Default::default() };
    let err = pool.add_file_descriptor_proto(unknown).unwrap_err();
    assert_eq!(err.errors().len(), 1);
    assert!(matches!(err.first(), DescriptorErrorKind::UnknownSyntax { .. }));
    assert_eq!(err.to_string(), "unknown syntax 'proto4'");
    assert_eq!(pool.files().len(), count);
    assert!(pool.get_file_by_name("x.proto").is_none());
}

#[test]
fn type_map_finds_names() {
    let mut map = TypeMap::new();
    assert!(map.messages().is_empty());
    assert!(map.enums().is_empty());
    assert!(map.try_get_by_name("my.Type").is_none());
    let err = map.get_by_name("my.Type").unwrap_err();
    assert_eq!(err.to_string(), "the message or enum type 'my.Type' was not found");
    let id = map.get_scalar(Scalar::Int32);
    map.add_name("my.Alias", id);
    assert!(map.try_get_by_name(".my.Alias").is_some());
    assert!(map.get_by_name("my.Alias").is_ok());
    map.shrink_to_fit();
    let t = map.get(id);
    assert!(!t.is_message());
    assert!(!t.is_enum());
    assert!(matches!(t, Type::Scalar(Scalar::Int32)));
    assert!(matches!(id.0, TypeKind::Scalar));
}

#[test]
fn names_with_a_leading_dot_are_found() {
    let pool = sample_pool();
    let m = pool.get_message_by_name(".my.package.Outer").unwrap();
    assert_eq!(m.full_name(), "my.package.Outer");
    assert!(pool.get_enum_by_name(".my.package.Color").is_some());
    assert!(pool.get_service_by_name(".my.package.Greeter").is_some());
    assert!(pool.get_message_by_name("..my.package.Outer").is_none());
}

#[test]
fn an_empty_enum_fails_the_add() {
    let mut pool = DescriptorPool::new();
    let file = FileDescriptorProto {
        name: s("empty.proto"),
        package: s("e"),
        syntax: s("proto3"),
        enum_type: vec![EnumDescriptorProto { name: s("Nothing"), ..Default::default() }],
        ..Default::default()
    };
    let err = pool.add_file_descriptor_proto(file).unwrap_err();
    assert_eq!(err.errors().len(), 1);
    assert!(matches!(err.first(), DescriptorErrorKind::EmptyEnum { .. }));
    assert!(pool.get_file_by_name("empty.proto").is_none());
}

#[test]
fn enum_values_are_named_in_the_scope_around_their_enum() {
    let pool = sample_pool();
    let color = pool.get_enum_by_name("my.package.Color").unwrap();
    let names: Vec<String> = color.values().iter().map(|v| v.full_name().to_owned()).collect();
    assert_eq!(names, vec!["my.package.RED", "my.package.BLUE", "my.package.GREEN"]);
}

#[test]
fn files_that_define_nothing_are_added() {
    let mut pool = DescriptorPool::new();
    let a = FileDescriptorProto { name: s("a.proto"), syntax: s("proto3"), ..Default::default() };
    let b = FileDescriptorProto { name: s("b.proto"), ..Default::default() };
    assert!(pool.add_file_descriptor_protos(vec![a, b]).is_ok());
    assert_eq!(pool.files().len(), 2);
    assert_eq!(pool.get_file_by_name("b.proto").unwrap().syntax(), Syntax::Proto2);
}

#[test]
fn files_with_packages_and_imports_only_are_added() {
    let base = FileDescriptorProto { name: s("base.proto"), package: s("a.b"), ..Default::default() };
    let user = FileDescriptorProto {
        name: s("user.proto"),
        package: s("a.c"),
        dependency: vec!["base.proto".to_owned()],
        public_dependency: vec![0],
        ..Default::default()
    };
    let mut pool = DescriptorPool::new();
    assert!(pool.add_file_descriptor_protos(vec![base, user]).is_ok());
    assert_eq!(pool.files().len(), 2);
    let file = pool.get_file_by_name("user.proto").unwrap();
    assert_eq!(file.dependencies()[0].name(), "base.proto");

    let missing = FileDescriptorProto {
        name: s("lost.proto"),
        dependency: vec!["nowhere.proto".to_owned()],
        ..Default::default()
    };
    let err = pool.add_file_descriptor_proto(missing).unwrap_err();
    assert_eq!(err.errors().len(), 1);
    assert!(matches!(err.errors()[0], DescriptorErrorKind::FileNotFound { .. }));
    assert_eq!(pool.files().len(), 2);

    let bad_index = FileDescriptorProto {
        name: s("index.proto"),
        dependency: vec!["base.proto".to_owned()],
        weak_dependency: vec![1],
        ..Default::default()
    };
    let err = pool.add_file_descriptor_proto(bad_index).unwrap_err();
    assert_eq!(err.errors().len(), 1);
    assert!(matches!(err.errors()[0], DescriptorErrorKind::InvalidImportIndex));
    assert_eq!(pool.files().len(), 2);
}

#[test]
fn messages_without_fields_and_services_are_added() {
    let base = FileDescriptorProto { name: s("shapes.proto"), package: s("geo"), ..Default::default() };
    let user = FileDescriptorProto {
        name: s("plane.proto"),
        package: s("geo.plane"),
        dependency: vec!["shapes.proto".to_owned()],
        message_type: vec![DescriptorProto {
            name: s("Point"),
            nested_type: vec![DescriptorProto { name: s("Origin"), ..Default::default() }],
            ..Default::default()
        }],
        service: vec![ServiceDescriptorProto { name: s("Plotter"), ..Default::default() }],
        ..Default::default()
    };
    let mut pool = DescriptorPool::new();
    assert!(pool.add_file_descriptor_protos(vec![base, user]).is_ok());
    assert!(pool.get_message_by_name("geo.plane.Point").is_some());
    assert!(pool.get_message_by_name(".geo.plane.Point.Origin").is_some());
    assert_eq!(pool.services().len(), 1);

    let clash = FileDescriptorProto {
        name: s("again.proto"),
        package: s("geo.plane"),
        message_type: vec![DescriptorProto { name: s("Point"), ..Default::default() }],
        ..Default::default()
    };
    let err = pool.add_file_descriptor_proto(clash).unwrap_err();
    assert_eq!(err.to_string(), "name 'geo.plane.Point' is already defined in file 'plane.proto'");
    assert_eq!(pool.files().len(), 2);
}
