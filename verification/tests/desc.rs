use prost_reflect::api::DescriptorPool;
use prost_reflect::kind::Syntax;
use prost_reflect::types::{
    DescriptorProto, EnumDescriptorProto, EnumReservedRange, EnumValueDescriptorProto, ExtensionRange,
    FieldDescriptorProto, FileDescriptorProto, FileDescriptorSet, MethodDescriptorProto, Options, ReservedRange,
    ServiceDescriptorProto,
};

const LABEL_OPTIONAL: i32 = 1;
const TYPE_INT32: i32 = 5;
const TYPE_STRING: i32 = 9;

fn s(v: &str) -> Option<String> {
    Some(v.to_owned())
}

fn field(name: &str, number: i32) -> FieldDescriptorProto {
    FieldDescriptorProto {
        name: s(name),
        number: Some(number),
        label: Some(LABEL_OPTIONAL),
        field_type: Some(TYPE_STRING),
        ..Default::default()
    }
}

fn extension(name: &str, number: i32, extendee: &str) -> FieldDescriptorProto {
    FieldDescriptorProto {
        name: s(name),
        number: Some(number),
        label: Some(LABEL_OPTIONAL),
        field_type: Some(TYPE_INT32),
        extendee: s(extendee),
        ..Default::default()
    }
}

fn value(name: &str, number: i32) -> EnumValueDescriptorProto {
    EnumValueDescriptorProto { name: s(name), number: Some(number), ..Default::default() }
}

/// `desc.proto`, or the same definitions without a package.
fn desc_file(name: &str, package: Option<&str>) -> FileDescriptorProto {
    FileDescriptorProto {
        name: s(name),
        package: package.map(|p| p.to_owned()),
        syntax: s("proto3"),
        message_type: vec![DescriptorProto {
            name: s("MyMessage"),
            field: vec![field("my_field", 1)],
            nested_type: vec![DescriptorProto { name: s("MyNestedMessage"), ..Default::default() }],
            enum_type: vec![EnumDescriptorProto {
                name: s("MyNestedEnum"),
                value: vec![value("MY_NESTED_VALUE", 0)],
                ..Default::default()
            }],
            reserved_range: vec![
                ReservedRange { start: Some(2), end: Some(3) },
                ReservedRange { start: Some(15), end: Some(16) },
                ReservedRange { start: Some(9), end: Some(12) },
            ],
            reserved_name: vec!["foo".to_owned(), "bar".to_owned()],
            ..Default::default()
        }],
        enum_type: vec![EnumDescriptorProto {
            name: s("MyEnum"),
            value: vec![value("MY_VALUE", 0)],
            reserved_range: vec![
                EnumReservedRange { start: Some(-2), end: Some(-2) },
                EnumReservedRange { start: Some(15), end: Some(15) },
                EnumReservedRange { start: Some(9), end: Some(11) },
            ],
            reserved_name: vec!["FOO".to_owned(), "BAR".to_owned()],
            ..Default::default()
        }],
        service: vec![ServiceDescriptorProto {
            name: s("MyService"),
            method: vec![MethodDescriptorProto {
                name: s("MyMethod"),
                input_type: s("MyMessage"),
                output_type: s("MyMessage"),
                ..Default::default()
            }],
            ..Default::default()
        }],
        ..Default::default()
    }
}

/// `desc2.proto`: proto2, with extension ranges and extensions.
fn desc2_file() -> FileDescriptorProto {
    FileDescriptorProto {
        name: s("desc2.proto"),
        package: s("my.package2"),
        syntax: s("proto2"),
        message_type: vec![
            DescriptorProto {
                name: s("MyMessage"),
                extension_range: vec![
                    ExtensionRange { start: Some(100), end: Some(101), options: None },
                    ExtensionRange { start: Some(110), end: Some(116), options: None },
                ],
                extension: vec![extension("in_extendee", 100, ".my.package2.MyMessage")],
                ..Default::default()
            },
            DescriptorProto {
                name: s("OtherMessage"),
                extension: vec![extension("in_other", 110, ".my.package2.MyMessage")],
                ..Default::default()
            },
        ],
        extension: vec![extension("in_file", 111, ".my.package2.MyMessage")],
        ..Default::default()
    }
}

/// `test.proto`: an enum whose values share numbers.
fn alias_file() -> FileDescriptorProto {
    FileDescriptorProto {
        name: s("test.proto"),
        package: s("test"),
        syntax: s("proto3"),
        enum_type: vec![EnumDescriptorProto {
            name: s("EnumWithAlias"),
            value: vec![value("FOO", 0), value("BAR", 0), value("A", 1), value("B", 1), value("C", 1), value("TWO", 2)],
            options: Some(Options { allow_alias: Some(true), ..Default::default() }),
            ..Default::default()
        }],
        ..Default::default()
    }
}

fn test_files() -> Vec<FileDescriptorProto> {
    vec![desc_file("desc.proto", Some("my.package")), desc2_file(), desc_file("desc_no_package.proto", None), alias_file()]
}

fn test_file_descriptor() -> DescriptorPool {
    DescriptorPool::from_file_descriptor_set(FileDescriptorSet { file: test_files() }).unwrap()
}

#[test]
fn test_descriptor_methods() {
    let pool = test_file_descriptor();
    let file_desc = pool.get_file_by_name("desc.proto").unwrap();
    assert_eq!(file_desc.name(), "desc.proto");
    assert_eq!(file_desc.package_name(), "my.package");
    assert_eq!(file_desc.syntax(), Syntax::Proto3);

    let message_desc = pool.get_message_by_name("my.package.MyMessage").unwrap();
    assert_eq!(message_desc.name(), "MyMessage");
    assert_eq!(message_desc.full_name(), "my.package.MyMessage");
    assert_eq!(message_desc.parent_file().index(), file_desc.index());
    assert!(message_desc.parent_message().is_none());
    assert_eq!(message_desc.package_name(), "my.package");
    assert_eq!(message_desc.reserved_ranges().into_iter().flatten().collect::<Vec<_>>(), vec![2, 15, 9, 10, 11]);
    assert_eq!(message_desc.reserved_names(), vec!["foo", "bar"]);
    assert_eq!(message_desc.extension_ranges().len(), 0);

    let field_desc = message_desc.get_field_by_name("my_field").unwrap();
    assert_eq!(field_desc.name(), "my_field");
    assert_eq!(field_desc.full_name(), "my.package.MyMessage.my_field");

    let nested_message_desc = pool.get_message_by_name("my.package.MyMessage.MyNestedMessage").unwrap();
    assert_eq!(nested_message_desc.name(), "MyNestedMessage");
    assert_eq!(nested_message_desc.full_name(), "my.package.MyMessage.MyNestedMessage");
    assert_eq!(nested_message_desc.parent_message().unwrap().full_name(), message_desc.full_name());
    assert_eq!(nested_message_desc.package_name(), "my.package");

    let enum_desc = pool.get_enum_by_name("my.package.MyEnum").unwrap();
    assert_eq!(enum_desc.name(), "MyEnum");
    assert_eq!(enum_desc.full_name(), "my.package.MyEnum");
    assert!(enum_desc.parent_message().is_none());
    assert_eq!(enum_desc.package_name(), "my.package");
    assert_eq!(enum_desc.reserved_ranges().into_iter().flatten().collect::<Vec<_>>(), vec![-2, 15, 9, 10, 11]);
    assert_eq!(enum_desc.reserved_names(), vec!["FOO", "BAR"]);

    let enum_value_desc = enum_desc.get_value_by_name("MY_VALUE").unwrap();
    assert_eq!(enum_value_desc.name(), "MY_VALUE");
    assert_eq!(enum_value_desc.full_name(), "my.package.MY_VALUE");

    let nested_enum_desc = pool.get_enum_by_name("my.package.MyMessage.MyNestedEnum").unwrap();
    assert_eq!(nested_enum_desc.name(), "MyNestedEnum");
    assert_eq!(nested_enum_desc.full_name(), "my.package.MyMessage.MyNestedEnum");
    assert_eq!(nested_enum_desc.parent_message().unwrap().full_name(), message_desc.full_name());
    assert_eq!(nested_enum_desc.package_name(), "my.package");

    let services = pool.services();
    let service_desc = services.iter().find(|s| s.full_name() == "my.package.MyService").unwrap();
    assert_eq!(service_desc.name(), "MyService");
    assert_eq!(service_desc.full_name(), "my.package.MyService");
    assert_eq!(service_desc.package_name(), "my.package");

    let methods = service_desc.methods();
    let method_desc = methods.iter().find(|m| m.name() == "MyMethod").unwrap();
    assert_eq!(method_desc.name(), "MyMethod");
    assert_eq!(method_desc.full_name(), "my.package.MyService.MyMethod");
}

#[test]
fn test_descriptor_methods_proto2() {
    let pool = test_file_descriptor();
    let file_desc = pool.get_file_by_name("desc2.proto").unwrap();
    assert_eq!(file_desc.name(), "desc2.proto");
    assert_eq!(file_desc.package_name(), "my.package2");
    assert_eq!(file_desc.syntax(), Syntax::Proto2);

    let message_desc = pool.get_message_by_name("my.package2.MyMessage").unwrap();
    assert_eq!(message_desc.name(), "MyMessage");
    assert_eq!(message_desc.full_name(), "my.package2.MyMessage");
    assert_eq!(message_desc.parent_file().index(), file_desc.index());
    assert!(message_desc.parent_message().is_none());
    assert_eq!(message_desc.package_name(), "my.package2");
    assert_eq!(
        message_desc.extension_ranges().into_iter().flatten().collect::<Vec<_>>(),
        vec![100, 110, 111, 112, 113, 114, 115],
    );

    let mut extensions: Vec<_> =
        pool.all_extensions().into_iter().filter(|ext| ext.parent_file().index() == file_desc.index()).collect();
    extensions.sort_by_key(|e| e.full_name().to_owned());
    assert_eq!(extensions.len(), 3);

    assert_eq!(extensions[0].full_name(), "my.package2.MyMessage.in_extendee");
    assert_eq!(extensions[0].parent_message().unwrap().full_name(), "my.package2.MyMessage");
    assert_eq!(extensions[0].parent_file().index(), file_desc.index());
    assert_eq!(extensions[0].containing_message().full_name(), "my.package2.MyMessage");
    assert_eq!(extensions[0].json_name(), "[my.package2.MyMessage.in_extendee]");

    assert_eq!(extensions[1].full_name(), "my.package2.OtherMessage.in_other");
    assert_eq!(extensions[1].parent_message().unwrap().full_name(), "my.package2.OtherMessage");
    assert_eq!(extensions[1].parent_file().index(), file_desc.index());
    assert_eq!(extensions[1].containing_message().full_name(), "my.package2.MyMessage");
    assert_eq!(extensions[1].json_name(), "[my.package2.OtherMessage.in_other]");

    assert_eq!(extensions[2].full_name(), "my.package2.in_file");
    assert!(extensions[2].parent_message().is_none());
    assert_eq!(extensions[2].parent_file().index(), file_desc.index());
    assert_eq!(extensions[2].containing_message().full_name(), "my.package2.MyMessage");
    assert_eq!(extensions[2].json_name(), "[my.package2.in_file]");
}

#[test]
fn test_descriptor_names_no_package() {
    let pool = test_file_descriptor();
    let message_desc = pool.get_message_by_name("MyMessage").unwrap();
    assert_eq!(message_desc.name(), "MyMessage");
    assert_eq!(message_desc.full_name(), "MyMessage");
    assert!(message_desc.parent_message().is_none());
    assert_eq!(message_desc.package_name(), "");

    let field_desc = message_desc.get_field_by_name("my_field").unwrap();
    assert_eq!(field_desc.name(), "my_field");
    assert_eq!(field_desc.full_name(), "MyMessage.my_field");

    let nested_message_desc = pool.get_message_by_name("MyMessage.MyNestedMessage").unwrap();
    assert_eq!(nested_message_desc.name(), "MyNestedMessage");
    assert_eq!(nested_message_desc.full_name(), "MyMessage.MyNestedMessage");
    assert_eq!(nested_message_desc.parent_message().unwrap().full_name(), message_desc.full_name());
    assert_eq!(nested_message_desc.package_name(), "");

    let enum_desc = pool.get_enum_by_name("MyEnum").unwrap();
    assert_eq!(enum_desc.name(), "MyEnum");
    assert_eq!(enum_desc.full_name(), "MyEnum");
    assert!(enum_desc.parent_message().is_none());
    assert_eq!(enum_desc.package_name(), "");

    let enum_value_desc = enum_desc.get_value_by_name("MY_VALUE").unwrap();
    assert_eq!(enum_value_desc.name(), "MY_VALUE");
    assert_eq!(enum_value_desc.full_name(), "MY_VALUE");

    let nested_enum_desc = pool.get_enum_by_name("MyMessage.MyNestedEnum").unwrap();
    assert_eq!(nested_enum_desc.name(), "MyNestedEnum");
    assert_eq!(nested_enum_desc.full_name(), "MyMessage.MyNestedEnum");
    assert_eq!(nested_enum_desc.parent_message().unwrap().full_name(), message_desc.full_name());
    assert_eq!(nested_enum_desc.package_name(), "");

    let services = pool.services();
    let service_desc = services.iter().find(|s| s.full_name() == "MyService").unwrap();
    assert_eq!(service_desc.name(), "MyService");
    assert_eq!(service_desc.full_name(), "MyService");
    assert_eq!(service_desc.package_name(), "");

    let methods = service_desc.methods();
    let method_desc = methods.iter().find(|m| m.name() == "MyMethod").unwrap();
    assert_eq!(method_desc.name(), "MyMethod");
    assert_eq!(method_desc.full_name(), "MyService.MyMethod");
}

fn names<T>(items: &[T], name: impl Fn(&T) -> String) -> Vec<String> {
    items.iter().map(name).collect()
}

#[test]
fn test_raw_getters() {
    let pool = test_file_descriptor();
    for file in pool.files() {
        assert_eq!(file.file_descriptor_proto().name(), file.name());
        let top_messages: Vec<_> = pool
            .all_messages()
            .into_iter()
            .filter(|m| m.parent_message().is_none() && m.parent_file().index() == file.index())
            .collect();
        assert_eq!(names(&file.messages(), |m| m.full_name().to_owned()), names(&top_messages, |m| m.full_name().to_owned()));
        let top_enums: Vec<_> = pool
            .all_enums()
            .into_iter()
            .filter(|e| e.parent_message().is_none() && e.parent_file().index() == file.index())
            .collect();
        assert_eq!(names(&file.enums(), |e| e.full_name().to_owned()), names(&top_enums, |e| e.full_name().to_owned()));
        let top_extensions: Vec<_> = pool
            .all_extensions()
            .into_iter()
            .filter(|e| e.parent_message().is_none() && e.parent_file().index() == file.index())
            .collect();
        assert_eq!(
            names(&file.extensions(), |e| e.full_name().to_owned()),
            names(&top_extensions, |e| e.full_name().to_owned())
        );
        let services: Vec<_> = pool.services().into_iter().filter(|s| s.parent_file().index() == file.index()).collect();
        assert_eq!(names(&file.services(), |s| s.full_name().to_owned()), names(&services, |s| s.full_name().to_owned()));
    }

    for service in pool.services() {
        assert_eq!(service.service_descriptor_proto().unwrap().name(), service.name());
        for method in service.methods() {
            assert_eq!(method.method_descriptor_proto().unwrap().name(), method.name());
        }
    }

    for message in pool.all_messages() {
        assert_eq!(message.descriptor_proto().unwrap().name(), message.name());
        for field in message.fields() {
            assert_eq!(field.field_descriptor_proto().unwrap().name(), field.name());
        }
        for oneof in message.oneofs() {
            assert_eq!(oneof.oneof_descriptor_proto().unwrap().name(), oneof.name());
        }
        let extending: Vec<_> = pool
            .all_extensions()
            .into_iter()
            .filter(|e| e.containing_message().full_name() == message.full_name())
            .collect();
        assert_eq!(names(&message.extensions(), |e| e.full_name().to_owned()), names(&extending, |e| e.full_name().to_owned()));
        let children: Vec<_> = pool
            .all_messages()
            .into_iter()
            .filter(|m| m.parent_message().map(|p| p.full_name() == message.full_name()).unwrap_or(false))
            .collect();
        assert_eq!(names(&message.child_messages(), |m| m.full_name().to_owned()), names(&children, |m| m.full_name().to_owned()));
        let child_enums: Vec<_> = pool
            .all_enums()
            .into_iter()
            .filter(|e| e.parent_message().map(|p| p.full_name() == message.full_name()).unwrap_or(false))
            .collect();
        assert_eq!(names(&message.child_enums(), |e| e.full_name().to_owned()), names(&child_enums, |e| e.full_name().to_owned()));
        let child_extensions: Vec<_> = pool
            .all_extensions()
            .into_iter()
            .filter(|e| e.parent_message().map(|p| p.full_name() == message.full_name()).unwrap_or(false))
            .collect();
        assert_eq!(
            names(&message.child_extensions(), |e| e.full_name().to_owned()),
            names(&child_extensions, |e| e.full_name().to_owned())
        );
    }

    for enum_ in pool.all_enums() {
        assert_eq!(enum_.enum_descriptor_proto().unwrap().name(), enum_.name());
        for value in enum_.values() {
            assert_eq!(value.enum_value_descriptor_proto().unwrap().name(), value.name());
        }
    }

    for extension in pool.all_extensions() {
        assert_eq!(extension.field_descriptor_proto().unwrap().name(), extension.name());
    }
}

#[test]
fn descriptor_pool_add_individual_files() {
    let original = test_file_descriptor();

    let mut roundtripped = DescriptorPool::new();
    for file in test_files() {
        roundtripped.add_file_descriptor_proto(file).unwrap();
    }

    let original_names: Vec<String> = original.all_messages().iter().map(|m| m.full_name().to_owned()).collect();
    let roundtripped_names: Vec<String> =
        roundtripped.all_messages().iter().map(|m| m.full_name().to_owned()).collect();
    assert_eq!(original_names, roundtripped_names);
    let message_desc = roundtripped.get_message_by_name("my.package.MyMessage").unwrap();
    assert_eq!(message_desc.name(), "MyMessage");
    assert_eq!(message_desc.full_name(), "my.package.MyMessage");
    assert!(std::ptr::eq(message_desc.parent_pool(), &roundtripped));
    assert!(message_desc.parent_message().is_none());
    assert_eq!(message_desc.package_name(), "my.package");
}

#[test]
fn test_enum_alias() {
    let pool = test_file_descriptor();
    let enum_desc = pool.get_enum_by_name("test.EnumWithAlias").unwrap();
    assert_eq!(enum_desc.name(), "EnumWithAlias");
    assert_eq!(enum_desc.full_name(), "test.EnumWithAlias");
    assert!(enum_desc.parent_message().is_none());
    assert_eq!(enum_desc.package_name(), "test");

    assert_eq!(enum_desc.get_value_by_name("FOO").unwrap().number(), 0);
    assert_eq!(enum_desc.get_value_by_name("BAR").unwrap().number(), 0);
    assert_eq!(enum_desc.get_value_by_name("A").unwrap().number(), 1);
    assert_eq!(enum_desc.get_value_by_name("B").unwrap().number(), 1);
    assert_eq!(enum_desc.get_value_by_name("C").unwrap().number(), 1);
    assert_eq!(enum_desc.get_value_by_name("TWO").unwrap().number(), 2);

    assert_eq!(enum_desc.get_value(0).unwrap().number(), 0);
    assert!(matches!(enum_desc.get_value(0).unwrap().name(), "FOO" | "BAR"));
    assert_eq!(enum_desc.get_value(1).unwrap().number(), 1);
    assert!(matches!(enum_desc.get_value(1).unwrap().name(), "A" | "B" | "C"));
    assert_eq!(enum_desc.get_value(2).unwrap().number(), 2);
    assert_eq!(enum_desc.get_value(2).unwrap().name(), "TWO");
    assert!(enum_desc.get_value(3).is_none());
}
