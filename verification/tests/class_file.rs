use java_class_parser::bytes::{be_bytes, be_u16, be_u32, be_u64, be_u8};
use java_class_parser::{
    parse_bytes, parse_class_file_bytes, AttributeKind, ErrorKind, HasAttributes, JavaClass,
    LineNumberTable, ResolveAttributeError, Signature,
};

struct Pool {
    entries: Vec<Vec<u8>>,
}

impl Pool {
    fn new() -> Self {
        Pool { entries: vec![] }
    }

    fn add(&mut self, entry: Vec<u8>) -> u16 {
        self.entries.push(entry);
        self.entries.len() as u16
    }

    fn utf8(&mut self, text: &str) -> u16 {
        let mut entry = vec![1];
        entry.extend_from_slice(&(text.len() as u16).to_be_bytes());
        entry.extend_from_slice(text.as_bytes());
        self.add(entry)
    }

    fn class(&mut self, name: &str) -> u16 {
        let name = self.utf8(name);
        let mut entry = vec![7];
        entry.extend_from_slice(&name.to_be_bytes());
        self.add(entry)
    }

    fn string(&mut self, text: &str) -> u16 {
        let text = self.utf8(text);
        let mut entry = vec![8];
        entry.extend_from_slice(&text.to_be_bytes());
        self.add(entry)
    }
}

fn attribute(name: u16, payload: &[u8]) -> Vec<u8> {
    let mut out = name.to_be_bytes().to_vec();
    out.extend_from_slice(&(payload.len() as u32).to_be_bytes());
    out.extend_from_slice(payload);
    out
}

fn counted(items: &[Vec<u8>]) -> Vec<u8> {
    let mut out = (items.len() as u16).to_be_bytes().to_vec();
    for item in items {
        out.extend_from_slice(item);
    }
    out
}

fn member(access: u16, name: u16, descriptor: u16, attributes: &[Vec<u8>]) -> Vec<u8> {
    let mut out = access.to_be_bytes().to_vec();
    out.extend_from_slice(&name.to_be_bytes());
    out.extend_from_slice(&descriptor.to_be_bytes());
    out.extend_from_slice(&counted(attributes));
    out
}

fn assemble(
    pool: &Pool,
    this: u16,
    parent: u16,
    interfaces: &[u16],
    fields: &[Vec<u8>],
    methods: &[Vec<u8>],
    attributes: &[Vec<u8>],
) -> Vec<u8> {
    let mut out = vec![0xca, 0xfe, 0xba, 0xbe, 0x00, 0x03, 0x00, 0x34];
    out.extend_from_slice(&(pool.entries.len() as u16 + 1).to_be_bytes());
    for entry in &pool.entries {
        out.extend_from_slice(entry);
    }
    out.extend_from_slice(&[0x00, 0x21]);
    out.extend_from_slice(&this.to_be_bytes());
    out.extend_from_slice(&parent.to_be_bytes());
    out.extend_from_slice(&(interfaces.len() as u16).to_be_bytes());
    for index in interfaces {
        out.extend_from_slice(&index.to_be_bytes());
    }
    out.extend_from_slice(&counted(fields));
    out.extend_from_slice(&counted(methods));
    out.extend_from_slice(&counted(attributes));
    out
}

fn code_payload(pool: &mut Pool, catch_type: u16) -> Vec<u8> {
    let lines = pool.utf8("LineNumberTable");
    let mut out = vec![0, 2, 0, 1];
    out.extend_from_slice(&[0, 0, 0, 3, 0x2a, 0xb4, 0xb1]);
    out.extend_from_slice(&[0, 2]);
    out.extend_from_slice(&[0, 0, 0, 2, 0, 2, 0, 0]);
    out.extend_from_slice(&[0, 1, 0, 3, 0, 3]);
    out.extend_from_slice(&catch_type.to_be_bytes());
    out.extend_from_slice(&counted(&[attribute(lines, &[0, 2, 0, 0, 0, 10, 0, 5, 0, 11])]));
    out
}

fn square() -> Vec<u8> {
    let mut pool = Pool::new();
    let this = pool.class("com/example/Square");
    let parent = pool.class("com/example/Rectangle");
    let shape = pool.class("com/example/Shape");
    let source_file = pool.utf8("SourceFile");
    let source = pool.utf8("Square.java");
    let side = pool.utf8("side");
    let int = pool.utf8("I");
    let area = pool.utf8("area");
    let area_type = pool.utf8("(ZI)Ljava/lang/Object;");
    let code = pool.utf8("Code");
    let deprecated = pool.utf8("Deprecated");
    let custom = pool.utf8("Custom");
    let signature = pool.utf8("Signature");
    let generic = pool.string("Ljava/util/List;");
    let failure = pool.class("java/lang/Exception");
    let code_bytes = code_payload(&mut pool, failure);
    assemble(
        &pool,
        this,
        parent,
        &[shape],
        &[member(2, side, int, &[attribute(deprecated, &[])])],
        &[member(
            1,
            area,
            area_type,
            &[attribute(code, &code_bytes), attribute(signature, &generic.to_be_bytes())],
        )],
        &[attribute(source_file, &source.to_be_bytes()), attribute(custom, &[1, 2, 3])],
    )
}

#[test]
fn numbers_are_read_big_endian() {
    let bytes = [0x01, 0x02, 0x03, 0x04, 0x05, 0x06, 0x07, 0x08, 0x09];
    assert_eq!(be_u8(&bytes, 8).unwrap(), (0x09, 9));
    assert_eq!(be_u16(&bytes, 0).unwrap(), (0x0102, 2));
    assert_eq!(be_u16(&bytes, 7).unwrap(), (0x0809, 9));
    assert_eq!(be_u32(&bytes, 1).unwrap(), (0x02030405, 5));
    assert_eq!(be_u64(&bytes, 1).unwrap(), (0x0203040506070809, 9));
    assert_eq!(be_bytes(&bytes, 2, 3).unwrap(), (&bytes[2..5], 5));
    assert_eq!(be_bytes(&bytes, 9, 0).unwrap(), (&bytes[9..], 9));
    assert!(matches!(be_u8(&bytes, 9).unwrap_err().kind(), ErrorKind::MissingBytes(9)));
    assert!(matches!(be_u16(&bytes, 8).unwrap_err().kind(), ErrorKind::MissingBytes(8)));
    assert!(matches!(be_u32(&bytes, 6).unwrap_err().kind(), ErrorKind::MissingBytes(6)));
    assert!(matches!(be_u64(&bytes, 2).unwrap_err().kind(), ErrorKind::MissingBytes(2)));
    assert!(matches!(be_bytes(&bytes, 10, 0).unwrap_err().kind(), ErrorKind::MissingBytes(10)));
    assert!(matches!(
        be_bytes(&bytes, 1, usize::MAX).unwrap_err().kind(),
        ErrorKind::MissingBytes(1)
    ));
}

#[test]
fn class_file_decodes_into_its_records() {
    let bytes = square();
    let raw = parse_class_file_bytes(&bytes).expect("a class file");
    assert_eq!(raw.magic, 0xcafebabe);
    assert_eq!(raw.major, 3);
    assert_eq!(raw.minor, 0x34);
    assert_eq!(raw.constant_pool.len() + 1, raw.constant_pool_count as usize);
    assert_eq!(raw.access_flags, 0x21);
    assert_eq!(raw.this_class, 2);
    assert_eq!(raw.super_class, 4);
    assert_eq!(raw.interfaces, vec![6]);
    assert_eq!((raw.interfaces_count, raw.fields_count, raw.methods_count), (1, 1, 1));
    assert_eq!(raw.attributes_count, 2);
    assert_eq!(raw.fields[0].access_flags, 2);
    assert_eq!(raw.methods[0].attributes.len(), 2);
    assert_eq!(raw.attributes[1].info, vec![1, 2, 3]);
}

#[test]
fn class_resolves_its_names() {
    let class = parse_bytes(&square()).expect("a class file");
    assert_eq!(class.this().unwrap(), "com/example/Square");
    assert_eq!(class.super_name().unwrap(), "com/example/Rectangle");
    assert_eq!(class.interfaces().unwrap(), vec!["com/example/Shape"]);
    assert_eq!(class.get_string(1), Some("com/example/Square"));
    assert_eq!(class.get_string(2), None);
    assert_eq!(class.get_string(0), None);
    assert_eq!(class.get_utf8(17), Some("Ljava/util/List;"));
    assert_eq!(class.get_string(18), Some("Ljava/util/List;"));
    assert_eq!(class.get_utf8(18), None);
    assert_eq!(class.get_class_info(2).map(|c| c.name_index), Some(1));
    assert!(class.get_class_info(1).is_none());
    assert_eq!(class.get_class_name(6).unwrap(), "com/example/Shape");
    assert!(class.get_at_index(200).is_none());
    assert_eq!(class.raw_constant_pool().len(), class.raw().constant_pool.len());
}

#[test]
fn members_have_names_and_signatures() {
    let class = parse_bytes(&square()).expect("a class file");
    let fields = class.fields().expect("fields");
    assert_eq!(fields.len(), 1);
    assert_eq!(fields[0].name(), "side");
    assert_eq!(*fields[0].signature(), Signature::Int);
    let attributes = fields[0].attributes().expect("attributes");
    assert_eq!(attributes.len(), 1);
    assert_eq!(attributes[0].attribute_name(), "Deprecated");
    assert!(matches!(attributes[0].kind(), AttributeKind::Deprecated));

    let methods = class.methods().expect("methods");
    assert_eq!(methods.len(), 1);
    assert_eq!(methods[0].name(), "area");
    assert_eq!(
        *methods[0].signature(),
        Signature::Method {
            args: vec![Signature::Boolean, Signature::Int],
            ret_type: Box::new(Signature::FullyQualifiedClass("java/lang/Object"))
        }
    );
    let generic = methods[0].get_attribute("Signature").unwrap().expect("a generic signature");
    assert!(matches!(
        generic.kind(),
        AttributeKind::Signature(Signature::FullyQualifiedClass("java/util/List"))
    ));
    assert!(methods[0].get_attribute("SourceFile").unwrap().is_none());
}

#[test]
fn code_is_decoded_with_its_tables() {
    let class = parse_bytes(&square()).expect("a class file");
    let methods = class.methods().expect("methods");
    let attribute = methods[0].get_attribute("Code").unwrap().expect("code");
    let code = match attribute.kind() {
        AttributeKind::Code(code) => code,
        other => panic!("not code: {:?}", other),
    };
    assert_eq!(code.max_stack(), 2);
    assert_eq!(code.max_locals(), 1);
    assert_eq!(code.code(), &[0x2a, 0xb4, 0xb1]);
    let handlers = code.exception_table();
    assert_eq!(handlers.len(), 2);
    assert_eq!(
        (handlers[0].start_pc(), handlers[0].end_pc(), handlers[0].handler_pc()),
        (0, 2, 2)
    );
    assert!(handlers[0].catch_type().is_none());
    assert_eq!(
        (handlers[1].start_pc(), handlers[1].end_pc(), handlers[1].handler_pc()),
        (1, 3, 3)
    );
    assert_eq!(handlers[1].catch_type().expect("a type"), "java/lang/Exception");

    let nested = code.attributes().expect("nested attributes");
    assert_eq!(nested.len(), 1);
    assert!(code.get_attribute("LineNumberTable").unwrap().is_some());
    assert!(code.get_attribute("Code").unwrap().is_none());
    let table = match nested[0].kind() {
        AttributeKind::LineNumberTable(table) => table,
        other => panic!("not a table: {:?}", other),
    };
    assert_eq!(table.entries(), &vec![(0, 10), (5, 11)]);
    assert_eq!(table.pc_to_line(3), Some(10));
    assert_eq!(table.pc_to_line(5), Some(11));
}

#[test]
fn line_numbers_follow_the_latest_start() {
    let table = LineNumberTable::new(vec![(0, 10), (5, 11)]);
    assert_eq!(table.pc_to_line(0), Some(10));
    assert_eq!(table.pc_to_line(3), Some(10));
    assert_eq!(table.pc_to_line(4), Some(10));
    assert_eq!(table.pc_to_line(5), Some(11));
    assert_eq!(table.pc_to_line(u16::MAX), Some(11));
    let late = LineNumberTable::new(vec![(4, 7), (9, 8)]);
    assert_eq!(late.pc_to_line(3), None);
    assert_eq!(late.pc_to_line(4), Some(7));
    assert_eq!(LineNumberTable::new(vec![]).pc_to_line(0), None);
    let mixed = LineNumberTable::new(vec![(6, 1), (2, 2), (6, 3), (4, 4)]);
    assert_eq!(mixed.pc_to_line(5), Some(4));
    assert_eq!(mixed.pc_to_line(6), Some(1));
    assert_eq!(mixed.pc_to_line(3), Some(2));
    assert_eq!(mixed.pc_to_line(1), None);
}

#[test]
fn class_attributes_resolve_by_name() {
    let class = parse_bytes(&square()).expect("a class file");
    let attributes = class.attributes().expect("attributes");
    assert_eq!(attributes.len(), 2);
    assert_eq!(attributes[0].attribute_name(), "SourceFile");
    assert!(matches!(attributes[0].kind(), AttributeKind::SourceFile("Square.java")));
    let source = class.get_attribute("SourceFile").unwrap().expect("a source file");
    assert!(matches!(source.kind(), AttributeKind::SourceFile("Square.java")));
    assert!(class.get_attribute("Code").unwrap().is_none());
}

#[test]
fn unknown_attributes_keep_their_bytes() {
    let class = parse_bytes(&square()).expect("a class file");
    let custom = class.get_attribute("Custom").unwrap().expect("an unknown attribute");
    assert_eq!(custom.attribute_name(), "Custom");
    assert!(matches!(custom.kind(), AttributeKind::Unknown(&[1, 2, 3])));
    let empty = class.create_attribute(12, &[]).expect("never an error");
    assert!(matches!(empty.kind(), AttributeKind::Unknown(&[])));
    let odd = class.create_attribute(1, &[0xff; 5]).expect("never an error");
    assert_eq!(odd.attribute_name(), "com/example/Square");
    assert!(matches!(odd.kind(), AttributeKind::Unknown(&[0xff, 0xff, 0xff, 0xff, 0xff])));
}

fn failure_of(result: Result<Vec<java_class_parser::Attribute<'_>>, ResolveAttributeError>) -> String {
    match result {
        Ok(list) => panic!("resolved: {:?}", list),
        Err(e) => e.attribute_name().to_string(),
    }
}

fn failure(result: Result<java_class_parser::Attribute<'_>, ResolveAttributeError>) -> String {
    match result {
        Ok(a) => panic!("resolved: {:?}", a),
        Err(e) => e.attribute_name().to_string(),
    }
}

#[test]
fn known_attributes_fail_on_bad_payloads() {
    let class = parse_bytes(&square()).expect("a class file");
    assert_eq!(failure(class.create_attribute(7, &[0, 2])), "SourceFile");
    assert_eq!(failure(class.create_attribute(7, &[0])), "SourceFile");
    assert_eq!(failure(class.create_attribute(7, &[0, 0])), "SourceFile");
    assert_eq!(failure(class.create_attribute(16, &[0, 8])), "Signature");
    assert_eq!(failure(class.create_attribute(16, &[9, 9])), "Signature");
    assert_eq!(failure(class.create_attribute(13, &[0, 1, 0, 1, 0, 0, 0, 9])), "Code");
    assert_eq!(
        failure(class.create_attribute(13, &[0, 1, 0, 1, 0, 0, 0, 0, 0, 1, 0, 0, 0, 0, 0, 0, 0, 18, 0, 0])),
        "Code"
    );
    assert_eq!(failure(class.create_attribute(21, &[0, 1, 0, 0])), "LineNumberTable");
    assert_eq!(failure(class.create_attribute(2, &[])), "<unknown>");
    assert_eq!(failure(class.create_attribute(0, &[])), "<unknown>");
    let error = ResolveAttributeError::new("Code");
    assert_eq!(error.to_string(), "An error occurred while resolving attribute Code");
    let deprecated = class.create_attribute(14, &[1, 2]).expect("no payload is read");
    assert!(matches!(deprecated.kind(), AttributeKind::Deprecated));
    let source = class.create_attribute(7, &[0, 8, 9, 9]).expect("two bytes are read");
    assert!(matches!(source.kind(), AttributeKind::SourceFile("Square.java")));
    let catch_by_text = class
        .create_attribute(13, &[0, 1, 0, 1, 0, 0, 0, 0, 0, 1, 0, 0, 0, 0, 0, 0, 0, 8, 0, 0])
        .expect("a text entry names a type too");
    match catch_by_text.kind() {
        AttributeKind::Code(code) => {
            assert_eq!(code.exception_table()[0].catch_type().expect("a type"), "Square.java")
        }
        other => panic!("not code: {:?}", other),
    }
}

#[test]
fn broken_buffers_are_rejected() {
    let bytes = square();
    let e = parse_class_file_bytes(&[]).unwrap_err();
    assert!(matches!(e.kind(), ErrorKind::MissingBytes(0)));
    let e = parse_class_file_bytes(&bytes[..9]).unwrap_err();
    assert!(matches!(e.kind(), ErrorKind::MissingBytes(8)));
    let e = parse_class_file_bytes(&bytes[..bytes.len() - 1]).unwrap_err();
    assert!(matches!(e.kind(), ErrorKind::MissingBytes(_)));
    let mut longer = bytes.clone();
    longer.push(0);
    let e = parse_class_file_bytes(&longer).unwrap_err();
    assert!(matches!(e.kind(), ErrorKind::TrailingBytes(n) if *n == bytes.len()));
    let mut unknown = bytes.clone();
    unknown[10] = 2;
    let e = parse_bytes(&unknown).unwrap_err();
    assert!(matches!(e.kind(), ErrorKind::UnknownConstantPoolInfoTag(2)));
    let none = [0xca, 0xfe, 0xba, 0xbe, 0, 0, 0, 52, 0, 0, 0, 0x21, 0, 0, 0, 0, 0, 0, 0, 0, 0, 0, 0, 0];
    let e = parse_class_file_bytes(&none).unwrap_err();
    assert!(matches!(e.kind(), ErrorKind::InvalidConstantPoolCount(8)));
    let mut one = none;
    one[9] = 1;
    let raw = parse_class_file_bytes(&one).expect("a count of 1 announces no entry");
    assert_eq!(raw.constant_pool_count, 1);
    assert_eq!(raw.constant_pool.len(), 0);
    let e = parse_class_file_bytes(&one[..one.len() - 2]).unwrap_err();
    assert!(matches!(e.kind(), ErrorKind::MissingBytes(22)));
}

fn broken_references() -> JavaClass {
    let mut pool = Pool::new();
    let text = pool.utf8("not a descriptor");
    let name = pool.utf8("field");
    let code = pool.utf8("Code");
    let valid = pool.utf8("I");
    let bytes = assemble(
        &pool,
        text,
        9,
        &[0],
        &[member(0, name, text, &[]), member(0, name, valid, &[])],
        &[member(0, text + 40, valid, &[]), member(0, name, valid, &[attribute(code, &[])])],
        &[attribute(code, &[]), attribute(name, &[7])],
    );
    parse_bytes(&bytes).expect("the layout is sound")
}

#[test]
fn references_that_do_not_resolve_are_errors() {
    let class = broken_references();
    assert!(matches!(class.this().unwrap_err().kind(), ErrorKind::InvalidReference(1)));
    assert!(matches!(class.super_name().unwrap_err().kind(), ErrorKind::InvalidReference(9)));
    assert!(matches!(class.interfaces().unwrap_err().kind(), ErrorKind::InvalidReference(0)));
    assert!(matches!(
        class.fields().unwrap_err().kind(),
        ErrorKind::InvalidDescriptor(text) if text == "not a descriptor"
    ));
    assert!(matches!(class.methods().unwrap_err().kind(), ErrorKind::InvalidReference(41)));
    assert!(matches!(class.get_descriptor(9).unwrap_err().kind(), ErrorKind::InvalidReference(9)));
    assert_eq!(class.get_descriptor(4).unwrap(), Signature::Int);
    assert_eq!(failure_of(class.attributes()), "Code");
    assert_eq!(failure_of(class.get_attribute("field").map(|found| found.into_iter().collect())), "Code");
    let raw = class.raw();
    let e = java_class_parser::Method::new(&raw.methods[1], &class).unwrap_err();
    assert!(matches!(e.kind(), ErrorKind::InvalidAttribute(name) if name == "Code"));
    let field = java_class_parser::Field::new(&raw.fields[1], &class).expect("a sound field");
    assert_eq!(field.name(), "field");
}
