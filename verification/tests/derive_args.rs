use prost_reflect::derive::{reflect_message_impl, Args, DescriptorSource, DeriveAttr, ItemKind, Lit, MetaItem};

fn item(path: &str, lit: Lit) -> MetaItem {
    MetaItem::NameValue { path: path.to_owned(), lit }
}

fn reflect(items: Vec<MetaItem>) -> DeriveAttr {
    DeriveAttr { is_prost_reflect: true, list: Some(items) }
}

fn string(s: &str) -> Lit {
    Lit::Str(s.to_owned())
}

#[test]
fn basic_struct_gives_pool_and_name() {
    let attrs = vec![reflect(vec![item("descriptor_pool", string("DESCRIPTOR_POOL")), item("message_name", string("msg"))])];
    match reflect_message_impl(ItemKind::Struct, &attrs) {
        Ok(Some((DescriptorSource::Pool(pool), Lit::Str(name)))) => {
            assert_eq!(pool, "DESCRIPTOR_POOL");
            assert_eq!(name, "msg");
        },
        _ => panic!("expected a pool and a name"),
    }
}

#[test]
fn enums_derive_nothing() {
    let attrs = vec![reflect(vec![item("descriptor_pool", string("DESCRIPTOR_POOL")), item("message_name", string("msg"))])];
    assert!(matches!(reflect_message_impl(ItemKind::Enum, &attrs), Ok(None)));
    assert!(matches!(reflect_message_impl(ItemKind::Union, &vec![]), Ok(None)));
}

#[test]
fn arguments_may_span_several_attributes() {
    let attrs = vec![
        DeriveAttr { is_prost_reflect: false, list: None },
        reflect(vec![item("descriptor_pool", string("A"))]),
        reflect(vec![item("message_name", string("m")), item("descriptor_pool", string("B"))]),
    ];
    match reflect_message_impl(ItemKind::Struct, &attrs) {
        Ok(Some((DescriptorSource::Pool(pool), Lit::Str(name)))) => {
            assert_eq!(pool, "B");
            assert_eq!(name, "m");
        },
        _ => panic!("expected a pool and a name"),
    }
}

#[test]
fn derive_errors() {
    let err = |attrs: Vec<DeriveAttr>| reflect_message_impl(ItemKind::Struct, &attrs).err().unwrap();
    assert_eq!(err(vec![]), "missing #[prost_reflect] attribute");
    assert_eq!(
        err(vec![reflect(vec![item("descriptor_pool", string("DESCRIPTOR_POOL"))])]),
        "missing required argument 'message_name'"
    );
    assert_eq!(
        err(vec![reflect(vec![item("foo", Lit::Other("123".to_owned()))])]),
        "unknown argument (expected 'descriptor_pool' or 'message_name')"
    );
    assert_eq!(
        err(vec![reflect(vec![item("file_descriptor", string("FILE_DESCRIPTOR")), item("message_name", string("msg"))])]),
        "unknown argument (expected 'descriptor_pool' or 'message_name')"
    );
    assert_eq!(err(vec![reflect(vec![MetaItem::Other])]), "unexpected attribute");
    assert_eq!(
        err(vec![reflect(vec![MetaItem::Other]), DeriveAttr { is_prost_reflect: true, list: None }]),
        "expected list of attributes"
    );
    assert_eq!(err(vec![reflect(vec![item("message_name", string("msg"))])]), "missing required argument 'descriptor_pool'");
    assert_eq!(
        err(vec![reflect(vec![item("message_name", string("msg")), item("descriptor_pool", Lit::Other("3".to_owned()))])]),
        "'file_descriptor_set' must be a string literal"
    );
    let parsed = Args::parse(&vec![reflect(vec![item("message_name", string("x"))])]).unwrap();
    assert!(parsed.descriptor_pool.is_none());
}

#[test]
fn file_descriptor_set_bytes_gives_the_descriptors() {
    let attrs = vec![
        reflect(vec![item("file_descriptor_set_bytes", string("FILE_DESCRIPTOR_SET_BYTES"))]),
        reflect(vec![item("message_name", string("package.MyMessage"))]),
    ];
    match reflect_message_impl(ItemKind::Struct, &attrs) {
        Ok(Some((DescriptorSource::FileDescriptorSetBytes(bytes), Lit::Str(name)))) => {
            assert_eq!(bytes, "FILE_DESCRIPTOR_SET_BYTES");
            assert_eq!(name, "package.MyMessage");
        },
        _ => panic!("expected the bytes expression and a name"),
    }
    let parsed = Args::parse(&attrs).unwrap();
    assert!(parsed.file_descriptor_set_bytes.is_some());
    let err = reflect_message_impl(
        ItemKind::Struct,
        &vec![reflect(vec![item("file_descriptor_set_bytes", Lit::Other("1".to_owned())), item("message_name", string("m"))])],
    )
    .err()
    .unwrap();
    assert_eq!(err, "'file_descriptor_set_bytes' must be a string literal");
}
