use prost_reflect::api::DescriptorPool;
use prost_reflect::types::{
    DescriptorProto, FieldDescriptorProto, FileDescriptorProto, FileDescriptorSet, MethodDescriptorProto,
    ServiceDescriptorProto,
};

const LABEL_OPTIONAL: i32 = 1;
const TYPE_MESSAGE: i32 = 11;

fn s(v: &str) -> Option<String> {
    Some(v.to_owned())
}

#[test]
fn resolve_service_name() {
    let file_descriptor_set = FileDescriptorSet {
        file: vec![FileDescriptorProto {
            name: s("myfile.proto"),
            package: s("my.package"),
            syntax: s("proto3"),
            service: vec![ServiceDescriptorProto {
                name: s("MyService"),
                method: vec![MethodDescriptorProto {
                    name: s("my_method"),
                    input_type: s("MyMessage"),
                    output_type: s(".my.package.MyMessage"),
                    ..Default::default()
                }],
                ..Default::default()
            }],
            message_type: vec![DescriptorProto { name: s("MyMessage"), ..Default::default() }],
            ..Default::default()
        }],
    };

    let descriptor_pool = DescriptorPool::from_file_descriptor_set(file_descriptor_set).unwrap();
    let service = descriptor_pool.services().into_iter().next().unwrap();
    let method = service.methods().into_iter().next().unwrap();
    assert_eq!(method.input().full_name(), "my.package.MyMessage");
    assert_eq!(method.output().full_name(), "my.package.MyMessage");
}

fn field(name: &str, field_type: Option<i32>, named: &str) -> FieldDescriptorProto {
    FieldDescriptorProto {
        name: s(name),
        number: Some(1),
        label: Some(LABEL_OPTIONAL),
        field_type,
        named_type: s(named),
        json_name: s("myfield"),
        ..Default::default()
    }
}

#[test]
fn resolve_message_name() {
    let file_descriptor_set = FileDescriptorSet {
        file: vec![FileDescriptorProto {
            name: s("myfile.proto"),
            package: s("my.package"),
            syntax: s("proto3"),
            message_type: vec![
                DescriptorProto { name: s("MyFieldMessage"), ..Default::default() },
                DescriptorProto {
                    name: s("MyMessage"),
                    field: vec![field("my_field", Some(TYPE_MESSAGE), "MyFieldMessage")],
                    ..Default::default()
                },
            ],
            ..Default::default()
        }],
    };

    let descriptor_pool = DescriptorPool::from_file_descriptor_set(file_descriptor_set).unwrap();
    let message = descriptor_pool.get_message_by_name("my.package.MyMessage").unwrap();
    let field = message.get_field_by_name("my_field").unwrap();
    assert_eq!(field.kind().as_message().unwrap().full_name(), "my.package.MyFieldMessage");
}

#[test]
fn resolve_message_name_nested() {
    let file_descriptor_set = FileDescriptorSet {
        file: vec![FileDescriptorProto {
            name: s("myfile.proto"),
            package: s("my.package"),
            syntax: s("proto3"),
            message_type: vec![DescriptorProto {
                name: s("MyMessage"),
                field: vec![field("my_field", Some(TYPE_MESSAGE), "MyFieldMessage")],
                nested_type: vec![DescriptorProto { name: s("MyFieldMessage"), ..Default::default() }],
                ..Default::default()
            }],
            ..Default::default()
        }],
    };

    let descriptor_pool = DescriptorPool::from_file_descriptor_set(file_descriptor_set).unwrap();
    let message = descriptor_pool.get_message_by_name("my.package.MyMessage").unwrap();
    let field = message.get_field_by_name("my_field").unwrap();
    assert_eq!(field.kind().as_message().unwrap().full_name(), "my.package.MyMessage.MyFieldMessage");
}

#[test]
fn message_field_type_not_set() {
    let file_descriptor_set = FileDescriptorSet {
        file: vec![FileDescriptorProto {
            name: s("myfile.proto"),
            package: s("my.package"),
            syntax: s("proto3"),
            message_type: vec![
                DescriptorProto { name: s("MyFieldMessage"), ..Default::default() },
                DescriptorProto {
                    name: s("MyMessage"),
                    field: vec![field("my_field", None, ".my.package.MyFieldMessage")],
                    ..Default::default()
                },
            ],
            ..Default::default()
        }],
    };

    let descriptor_pool = DescriptorPool::from_file_descriptor_set(file_descriptor_set).unwrap();
    let message = descriptor_pool.get_message_by_name("my.package.MyMessage").unwrap();
    let field = message.get_field_by_name("my_field").unwrap();
    assert_eq!(field.kind().as_message().unwrap().full_name(), "my.package.MyFieldMessage");
}

fn one_message_set(file: &str, message: &str) -> FileDescriptorSet {
    FileDescriptorSet {
        file: vec![FileDescriptorProto {
            name: s(file),
            package: s("my.package"),
            syntax: s("proto3"),
            message_type: vec![DescriptorProto { name: s(message), ..Default::default() }],
            ..Default::default()
        }],
    }
}

#[test]
fn add_duplicate_file() {
    let mut pool = DescriptorPool::new();
    assert!(pool.add_file_descriptor_set(one_message_set("myfile.proto", "MyMessage")).is_ok());
    assert!(pool.add_file_descriptor_set(one_message_set("myfile.proto", "MyMessage")).is_ok());

    assert_eq!(pool.file_descriptor_protos().len(), 1);
}
