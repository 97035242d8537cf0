use prost_reflect::api::DescriptorPool;
use prost_reflect::codec::{encode_file_descriptor_set, push_varint};
use prost_reflect::error::DescriptorErrorKind;
use prost_reflect::types::{DescriptorProto, FileDescriptorProto, FileDescriptorSet};

fn s(v: &str) -> Option<String> {
    Some(v.to_owned())
}

#[test]
fn sets_are_framed_file_by_file() {
    let files = vec![vec![1u8, 2], vec![]];
    assert_eq!(encode_file_descriptor_set(&files), vec![0x0a, 2, 1, 2, 0x0a, 0]);
    let long = vec![7u8; 200];
    let framed = encode_file_descriptor_set(&vec![long.clone()]);
    assert_eq!(&framed[..3], &[0x0a, 0xc8, 0x01]);
    assert_eq!(&framed[3..], &long[..]);
    assert!(encode_file_descriptor_set(&vec![]).is_empty());
}

#[test]
fn varints_take_seven_bits_per_byte() {
    let mut out = Vec::new();
    push_varint(&mut out, 300);
    assert_eq!(out, vec![0xac, 0x02]);
    let mut out = Vec::new();
    push_varint(&mut out, 0);
    assert_eq!(out, vec![0]);
}

#[test]
fn undecodable_bytes_give_one_decode_error() {
    let err = DescriptorPool::decode(Err("invalid wire type".to_owned())).err().unwrap();
    assert_eq!(err.errors().len(), 1);
    match err.first() {
        DescriptorErrorKind::DecodeFileDescriptorSet { message } => assert_eq!(message, "invalid wire type"),
        _ => panic!("expected a decode error"),
    }
    let mut pool = DescriptorPool::new();
    assert!(pool.decode_file_descriptor_set(Err("truncated".to_owned())).is_err());
    assert!(pool.decode_file_descriptor_proto(Err("truncated".to_owned())).is_err());
    assert!(pool.files().is_empty());
}

#[test]
fn decoded_sets_build_pools() {
    let file = FileDescriptorProto {
        name: s("a.proto"),
        package: s("pkg"),
        syntax: s("proto3"),
        message_type: vec![DescriptorProto { name: s("M"), ..Default::default() }],
        ..Default::default()
    };
    let pool = DescriptorPool::decode(Ok(FileDescriptorSet { file: vec![file] })).unwrap();
    assert!(pool.get_message_by_name("pkg.M").is_some());
}
