use prost_reflect::api::DescriptorPool;
use prost_reflect::error::{DescriptorErrorKind, Label};
use prost_reflect::kind::{KindIndex, Syntax};
use prost_reflect::options::{
    fmt_option_name, option_to_bool, option_to_bytes, option_to_enum, option_to_string, relocate_locations,
};
use prost_reflect::types::{
    DescriptorProto, EnumDescriptorProto, EnumValueDescriptorProto, ExtensionRange, FieldDescriptorProto,
    FileDescriptorProto, FileDescriptorSet, Location, NamePart, SourceCodeInfo, UninterpretedOption,
};

fn s(v: &str) -> Option<String> {
    Some(v.to_owned())
}

fn ext(name: &str, number: i32, extendee: &str) -> FieldDescriptorProto {
    FieldDescriptorProto {
        name: s(name),
        number: Some(number),
        label: Some(1),
        field_type: Some(5),
        extendee: s(extendee),
        ..Default::default()
    }
}

fn pool_with_extensions() -> DescriptorPool {
    let file = FileDescriptorProto {
        name: s("ext.proto"),
        package: s("pkg"),
        message_type: vec![DescriptorProto {
            name: s("Base"),
            extension_range: vec![ExtensionRange { start: Some(100), end: Some(200), options: None }],
            extension: vec![ext("nested_ext", 101, ".pkg.Base")],
            enum_type: vec![EnumDescriptorProto {
                name: s("Mode"),
                value: vec![EnumValueDescriptorProto { name: s("OFF"), number: Some(0), ..Default::default() }],
                ..Default::default()
            }],
            ..Default::default()
        }],
        extension: vec![ext("top_ext", 100, "Base")],
        ..Default::default()
    };
    DescriptorPool::from_file_descriptor_set(FileDescriptorSet { file: vec![file] }).unwrap()
}

#[test]
fn extensions_are_found_from_the_message_they_extend() {
    let pool = pool_with_extensions();
    assert_eq!(pool.all_extensions().len(), 2);
    let base = pool.get_message_by_name("pkg.Base").unwrap();
    let numbers: Vec<u32> = base.extensions().iter().map(|x| x.number()).collect();
    assert_eq!(numbers.len(), 2);
    assert!(numbers.contains(&100) && numbers.contains(&101));
    let top = base.get_extension(100).unwrap();
    assert_eq!(top.full_name(), "pkg.top_ext");
    assert_eq!(top.json_name(), "[pkg.top_ext]");
    assert_eq!(top.containing_message().full_name(), "pkg.Base");
    assert!(top.parent_message().is_none());
    assert!(top.supports_presence());
    assert_eq!(top.kind().proto_name(), "int32");
    assert!(base.get_extension(7).is_none());
    let nested = base.get_extension_by_full_name("pkg.Base.nested_ext").unwrap();
    assert_eq!(nested.number(), 101);
    assert_eq!(nested.parent_message().unwrap().full_name(), "pkg.Base");
    assert!(base.get_extension_by_json_name("[pkg.top_ext]").is_some());
    assert_eq!(base.child_extensions().len(), 1);
    assert_eq!(base.child_enums()[0].full_name(), "pkg.Base.Mode");
    let ranges = base.extension_ranges();
    assert_eq!(ranges.len(), 1);
    assert_eq!(ranges[0], 100..200);
    let file = pool.get_file_by_name("ext.proto").unwrap();
    assert_eq!(file.extensions().len(), 1);
    assert_eq!(file.extensions()[0].name(), "top_ext");
    assert!(pool.get_extension_by_name("pkg.top_ext").is_some());
    assert_eq!(file.syntax().name(), "proto2");
    assert_eq!(Syntax::Proto3.name(), "proto3");
}

fn option(parts: &[(&str, bool)]) -> UninterpretedOption {
    UninterpretedOption {
        name: parts.iter().map(|(n, e)| NamePart { name_part: n.to_string(), is_extension: *e }).collect(),
        identifier_value: None,
        positive_int_value: None,
        negative_int_value: None,
        double_value: None,
        string_value: None,
        aggregate_value: None,
    }
}

#[test]
fn option_names_and_values() {
    let o = option(&[("my.ext", true), ("field", false)]);
    assert_eq!(fmt_option_name(&o.name), "(my.ext).field");
    assert_eq!(fmt_option_name(&option(&[("packed", false)]).name), "packed");
    let mut b = option(&[("deprecated", false)]);
    assert_eq!(option_to_bool(&b), Err(()));
    b.identifier_value = s("true");
    assert_eq!(option_to_bool(&b), Ok(true));
    assert_eq!(option_to_bytes(&b), Err(()));
    b.string_value = Some(vec![1, 2, 3]);
    assert_eq!(option_to_bytes(&b), Ok(vec![1, 2, 3]));

    let pool = pool_with_extensions();
    let mode = pool.get_enum_by_name("pkg.Base.Mode").unwrap();
    let mut e = option(&[("mode", false)]);
    e.identifier_value = s("OFF");
    assert_eq!(option_to_enum(&e, &mode), Ok(0));
    e.identifier_value = s("ON");
    assert_eq!(option_to_enum(&e, &mode), Err(()));
}

#[test]
fn locations_move_to_resolved_paths() {
    let mut info = SourceCodeInfo {
        location: vec![
            Location { path: vec![4, 0, 7, 999, 0], span: vec![1, 2, 3] },
            Location { path: vec![4, 0, 7], span: vec![4, 5, 6] },
            Location { path: vec![5, 0], span: vec![7, 8, 9] },
        ],
    };
    relocate_locations(&mut info, &vec![4, 0, 7, 999, 0], &vec![4, 0, 7, 1000]);
    assert_eq!(info.location[0].path, vec![4, 0, 7, 1000]);
    assert_eq!(info.location[0].span, vec![1, 2, 3]);
    assert_eq!(info.location[1].path, vec![4, 0, 7]);
    assert_eq!(info.location[2].path, vec![5, 0]);
}

#[test]
fn labels_follow_the_error() {
    let l = |file: &str| Label { file: file.to_owned(), path: vec![], span: None };
    let e = DescriptorErrorKind::InvalidType {
        name: "a".to_owned(),
        expected: "a message type".to_owned(),
        found: l("found.proto"),
        defined: l("defined.proto"),
    };
    assert_eq!(e.message(), "'a' is not a message type");
    let labels = e.labels();
    assert_eq!(labels.len(), 2);
    assert_eq!(labels[0].file, "found.proto");
    assert_eq!(labels[1].file, "defined.proto");
    assert_eq!(e.label().unwrap().file, "found.proto");
    assert!(DescriptorErrorKind::InvalidImportIndex.labels().is_empty());
    assert_eq!(KindIndex::Group(3).type_keyword(), "message");
    assert_eq!(KindIndex::Sfixed64.type_keyword(), "sfixed64");
}

#[test]
fn failed_add_leaves_no_extension_behind() {
    let base = FileDescriptorProto {
        name: s("base.proto"),
        package: s("pkg"),
        message_type: vec![
            DescriptorProto { name: s("A"), ..Default::default() },
            DescriptorProto { name: s("B"), ..Default::default() },
        ],
        ..Default::default()
    };
    let mut pool = DescriptorPool::from_file_descriptor_set(FileDescriptorSet { file: vec![base] }).unwrap();
    let bad = FileDescriptorProto {
        name: s("bad.proto"),
        package: s("pkg"),
        dependency: vec!["base.proto".to_owned()],
        extension: vec![ext("extra", 5, ".pkg.A")],
        message_type: vec![DescriptorProto {
            name: s("C"),
            field: vec![FieldDescriptorProto {
                name: s("broken"),
                number: Some(1),
                label: Some(1),
                field_type: Some(11),
                named_type: s(".pkg.Missing"),
                ..Default::default()
            }],
            ..Default::default()
        }],
        ..Default::default()
    };
    assert!(pool.add_file_descriptor_proto(bad).is_err());
    assert_eq!(pool.all_extensions().len(), 0);
    let a = pool.get_message_by_name("pkg.A").unwrap();
    assert!(a.extensions().is_empty());
    assert!(a.get_extension(5).is_none());
}

#[test]
fn string_options_decode_utf8() {
    let mut o = option(&[("name", false)]);
    assert_eq!(option_to_string(&o), Err(()));
    o.string_value = Some("h\u{e9}llo".as_bytes().to_vec());
    assert_eq!(option_to_string(&o), Ok("h\u{e9}llo".to_owned()));
    o.string_value = Some(vec![0xff, 0x41]);
    assert_eq!(option_to_string(&o), Err(()));
    o.string_value = Some(Vec::new());
    assert_eq!(option_to_string(&o), Ok(String::new()));
}
