use java_class_parser::text::{decimal, owned, str_eq};
use java_class_parser::{Error, ErrorKind, FQName};

#[test]
fn numbers_are_written_in_decimal() {
    assert_eq!(decimal(0), "0");
    assert_eq!(decimal(7), "7");
    assert_eq!(decimal(10), "10");
    assert_eq!(decimal(255), "255");
    assert_eq!(decimal(65_535), "65535");
    assert_eq!(decimal(1_002_003), "1002003");
    assert_eq!(decimal(usize::MAX), usize::MAX.to_string());
}

#[test]
fn strings_compare_by_their_characters() {
    assert!(str_eq("", ""));
    assert!(str_eq("Code", "Code"));
    assert!(!str_eq("Code", "code"));
    assert!(!str_eq("Code", "Cod"));
    assert!(!str_eq("Cod", "Code"));
    assert!(str_eq("\u{e9}t\u{e9}", "\u{e9}t\u{e9}"));
    assert!(!str_eq("\u{e9}", "e"));
    assert_eq!(owned("abc"), "abc");
}

#[test]
fn errors_have_messages() {
    let name = || FQName::new("com/example/Square").to_owned();
    assert_eq!(
        Error::new(ErrorKind::NoClassFound(name())).to_string(),
        "No class found for path com/example/Square"
    );
    assert_eq!(
        ErrorKind::UnsupportedEntry("notes.txt".to_string()).to_string(),
        "Unsupported entry in classpath: notes.txt"
    );
    assert_eq!(
        ErrorKind::UnknownConstantPoolInfoTag(19).to_string(),
        "19 is not a known constant pool tag"
    );
    assert_eq!(
        ErrorKind::InvalidConstantPoolCount(8).to_string(),
        "Constant pool count 0 at offset 8"
    );
    assert_eq!(ErrorKind::MissingBytes(1024).to_string(), "Missing bytes at offset 1024");
    assert_eq!(ErrorKind::TrailingBytes(0).to_string(), "Trailing bytes at offset 0");
    assert_eq!(
        ErrorKind::InvalidReference(65_535).to_string(),
        "Constant pool index 65535 does not resolve"
    );
    assert_eq!(ErrorKind::InvalidDescriptor("(I".to_string()).to_string(), "(I is not a descriptor");
    assert_eq!(
        ErrorKind::InvalidAttribute("Code".to_string()).to_string(),
        "An error occurred while resolving attribute Code"
    );
    assert_eq!(ErrorKind::Io("disk is gone".to_string()).to_string(), "disk is gone");
    assert_eq!(
        ErrorKind::AddingInheritanceFailed(name()).to_string(),
        "adding inheritance of com/example/Square failed"
    );
}

#[test]
fn errors_hand_out_their_kind() {
    let error = Error::new(ErrorKind::MissingBytes(3));
    assert!(matches!(error.kind(), ErrorKind::MissingBytes(3)));
    assert!(!error.is_not_found());
    assert!(matches!(error.into_kind(), ErrorKind::MissingBytes(3)));
    assert!(Error::new(ErrorKind::NoClassFound(FQName::new("A").to_owned())).is_not_found());
}
