use java_class_parser::constant_pool::parser::{
    parse_attribute_info, parse_constant_pool, parse_constant_pool_info, parse_field_info,
    parse_method_info,
};
use java_class_parser::constant_pool::values::Utf8;
use java_class_parser::constant_pool::UTF8_TAG;
use java_class_parser::{ConstantPool, ConstantPoolInfo, ErrorKind};

#[test]
fn parse_utf8_constant_pool_info() {
    const CONSTANT: [u8; 6] = [UTF8_TAG, 0, 3, b'a', b'b', b'c'];
    let (parsed, rest) = parse_constant_pool_info(&CONSTANT, 0).expect("should be able to parse");
    assert_eq!(rest, CONSTANT.len());
    let utf8 = match parsed {
        ConstantPoolInfo::Utf8(x) => Some(x),
        _ => None,
    }
    .expect("should be a ut8 expression with no extra bytes");
    assert_eq!(utf8.to_string(), "abc");
}

#[test]
fn every_tag_decodes_to_its_entry() {
    let (info, next) = parse_constant_pool_info(&[7, 0x01, 0x02], 0).unwrap();
    assert!(matches!(info, ConstantPoolInfo::Class(c) if c.name_index == 0x0102));
    assert_eq!(next, 3);
    let (info, next) = parse_constant_pool_info(&[9, 0, 1, 0, 2], 0).unwrap();
    assert!(matches!(info, ConstantPoolInfo::FieldRef(r) if r.class_index == 1 && r.name_and_type_index == 2));
    assert_eq!(next, 5);
    let (info, _) = parse_constant_pool_info(&[10, 0, 3, 0, 4], 0).unwrap();
    assert!(matches!(info, ConstantPoolInfo::MethodRef(r) if r.class_index == 3 && r.name_and_type_index == 4));
    let (info, _) = parse_constant_pool_info(&[11, 0, 5, 0, 6], 0).unwrap();
    assert!(matches!(info, ConstantPoolInfo::InterfaceMethodRef(r) if r.class_index == 5 && r.name_and_type_index == 6));
    let (info, next) = parse_constant_pool_info(&[8, 0x12, 0x34], 0).unwrap();
    assert!(matches!(info, ConstantPoolInfo::String(s) if s.string_index == 0x1234));
    assert_eq!(next, 3);
    let (info, next) = parse_constant_pool_info(&[3, 0x01, 0x02, 0x03, 0x04], 0).unwrap();
    assert!(matches!(info, ConstantPoolInfo::Integer(i) if i.value == 0x01020304));
    assert_eq!(next, 5);
    let (info, _) = parse_constant_pool_info(&[4, 0x3f, 0x80, 0x00, 0x00], 0).unwrap();
    assert!(matches!(info, ConstantPoolInfo::Float(f) if f32::from_bits(f.bits) == 1.0));
    let (info, next) =
        parse_constant_pool_info(&[5, 0x01, 0x02, 0x03, 0x04, 0x05, 0x06, 0x07, 0x08], 0).unwrap();
    assert!(matches!(info, ConstantPoolInfo::Long(l) if l.long == 0x0102030405060708));
    assert_eq!(next, 9);
    let (info, _) =
        parse_constant_pool_info(&[6, 0x40, 0x00, 0x00, 0x00, 0x00, 0x00, 0x00, 0x00], 0).unwrap();
    assert!(matches!(info, ConstantPoolInfo::Double(d) if f64::from_bits(d.bits) == 2.0));
    let (info, _) = parse_constant_pool_info(&[12, 0, 7, 0, 8], 0).unwrap();
    assert!(matches!(info, ConstantPoolInfo::NameAndType(n) if n.name_index == 7 && n.descriptor_index == 8));
    let (info, next) = parse_constant_pool_info(&[15, 6, 0, 9], 0).unwrap();
    assert!(matches!(info, ConstantPoolInfo::MethodHandle(h) if h.reference_kind == 6 && h.reference_index == 9));
    assert_eq!(next, 4);
    let (info, _) = parse_constant_pool_info(&[16, 0, 10], 0).unwrap();
    assert!(matches!(info, ConstantPoolInfo::MethodType(t) if t.descriptor_index == 10));
    let (info, _) = parse_constant_pool_info(&[18, 0, 11, 0, 12], 0).unwrap();
    assert!(matches!(info, ConstantPoolInfo::InvokeDynamic(d) if d.bootstrap_method_attr_index == 11 && d.name_and_type_index == 12));
}

#[test]
fn entries_are_read_at_their_offset() {
    let bytes = [0xff, 0xff, 1, 0, 1, b'x', 7, 0, 1];
    let (info, next) = parse_constant_pool_info(&bytes, 2).unwrap();
    assert!(matches!(info, ConstantPoolInfo::Utf8(ref u) if u.bytes == b"x"));
    assert_eq!(next, 6);
    let (pool, next) = parse_constant_pool(&bytes, 2, 2).unwrap();
    assert_eq!(pool.len(), 2);
    assert_eq!(next, 9);
    assert!(matches!(pool.get(2), Some(ConstantPoolInfo::Class(c)) if c.name_index == 1));
}

#[test]
fn unknown_tags_and_short_input_fail() {
    let e = parse_constant_pool_info(&[2, 0, 0], 0).unwrap_err();
    assert!(matches!(e.kind(), ErrorKind::UnknownConstantPoolInfoTag(2)));
    let e = parse_constant_pool_info(&[0], 0).unwrap_err();
    assert!(matches!(e.kind(), ErrorKind::UnknownConstantPoolInfoTag(0)));
    let e = parse_constant_pool_info(&[], 0).unwrap_err();
    assert!(matches!(e.kind(), ErrorKind::MissingBytes(0)));
    let e = parse_constant_pool_info(&[7, 0], 0).unwrap_err();
    assert!(matches!(e.kind(), ErrorKind::MissingBytes(1)));
    let e = parse_constant_pool_info(&[1, 0, 4, b'a'], 0).unwrap_err();
    assert!(matches!(e.kind(), ErrorKind::MissingBytes(3)));
    let e = parse_constant_pool_info(&[10, 0, 1, 0], 0).unwrap_err();
    assert!(matches!(e.kind(), ErrorKind::MissingBytes(3)));
    let e = parse_constant_pool_info(&[7, 0, 1], 9).unwrap_err();
    assert!(matches!(e.kind(), ErrorKind::MissingBytes(9)));
    let e = parse_constant_pool(&[7, 0, 1, 7, 0, 2, 99], 0, 3).unwrap_err();
    assert!(matches!(e.kind(), ErrorKind::UnknownConstantPoolInfoTag(99)));
    let e = parse_constant_pool(&[7, 0, 1], 0, 2).unwrap_err();
    assert!(matches!(e.kind(), ErrorKind::MissingBytes(3)));
}

#[test]
fn pool_is_indexed_from_one() {
    let (pool, _) = parse_constant_pool(&[7, 0, 2, 1, 0, 1, b'A', 8, 0, 2], 0, 3).unwrap();
    assert!(pool.get(0).is_none());
    assert!(matches!(pool.get(1), Some(ConstantPoolInfo::Class(c)) if c.name_index == 2));
    assert!(matches!(pool.get(2), Some(ConstantPoolInfo::Utf8(_))));
    assert!(matches!(pool.get(3), Some(ConstantPoolInfo::String(s)) if s.string_index == 2));
    assert!(pool.get(4).is_none());
    assert!(pool.get(u16::MAX).is_none());
    let empty = ConstantPool::new(vec![]);
    assert_eq!(empty.len(), 0);
    assert!(empty.get(0).is_none());
    assert!(empty.get(1).is_none());
}

#[test]
fn text_is_lossy_only_for_display() {
    let valid = Utf8 { bytes: "h\u{e9}llo".as_bytes().to_vec() };
    assert_eq!(valid.as_str(), Some("h\u{e9}llo"));
    assert_eq!(valid.to_string(), "h\u{e9}llo");
    let invalid = Utf8 { bytes: vec![b'a', 0xff, b'b'] };
    assert_eq!(invalid.as_str(), None);
    assert_eq!(invalid.to_string(), "a\u{fffd}b");
}

#[test]
fn raw_records_are_read_with_their_payload() {
    let bytes = [0, 5, 0, 0, 0, 3, 1, 2, 3, 9];
    let (attribute, next) = parse_attribute_info(&bytes, 0).unwrap();
    assert_eq!(attribute.attribute_name_index, 5);
    assert_eq!(attribute.attribute_length, 3);
    assert_eq!(attribute.info, vec![1, 2, 3]);
    assert_eq!(next, 9);
    let e = parse_attribute_info(&[0, 5, 0, 0, 0, 3, 1, 2], 0).unwrap_err();
    assert!(matches!(e.kind(), ErrorKind::MissingBytes(6)));
    let e = parse_attribute_info(&[0, 5, 0xff, 0xff, 0xff, 0xff], 0).unwrap_err();
    assert!(matches!(e.kind(), ErrorKind::MissingBytes(6)));

    let member = [0, 1, 0, 2, 0, 3, 0, 2, 0, 5, 0, 0, 0, 1, 7, 0, 6, 0, 0, 0, 0];
    let (field, next) = parse_field_info(&member, 0).unwrap();
    assert_eq!(
        (field.access_flags, field.name_index, field.descriptor_index, field.attributes_count),
        (1, 2, 3, 2)
    );
    assert_eq!(field.attributes.len(), 2);
    assert_eq!(field.attributes[0].info, vec![7]);
    assert_eq!(field.attributes[1].attribute_name_index, 6);
    assert_eq!(next, member.len());
    let (method, next) = parse_method_info(&member, 0).unwrap();
    assert_eq!((method.name_index, method.attributes.len(), next), (2, 2, member.len()));
    let e = parse_method_info(&member[..member.len() - 1], 0).unwrap_err();
    assert!(matches!(e.kind(), ErrorKind::MissingBytes(17)));
}
