use java_class_parser::{AsFullyQualifiedName, FQName, FQNameBuf, FullyQualifiedName};
use std::path::PathBuf;

#[test]
fn fcq_ref_must_be_valid() {
    let fcq = {
        let string = String::from("Test");
        FQName::new(&string).to_fqname_buf()
    };
    assert_eq!(fcq, "Test");
}

#[test]
fn safe_usage() {
    let string = "java/lang/Object";
    let fcq = FQName::new(string);
    assert_eq!(fcq, string);
    assert_eq!(
        fcq.as_path(),
        PathBuf::from_iter(["java", "lang", "Object"])
    );

    let mut string = string.to_string();
    let cloned = string.clone();
    let fcq = FQName::new(&cloned);
    assert_eq!(fcq, string);
    assert_eq!(
        fcq.as_path(),
        PathBuf::from_iter(["java", "lang", "Object"])
    );

    string.push('j');
    assert_ne!(fcq, string); // should no longer be equal
}

#[test]
fn borrowed_and_owned_names_compare_by_text() {
    let owned: FQNameBuf = FQName::new("com/example/Square").to_owned();
    let borrowed = FQName::new("com/example/Square");
    assert_eq!(owned, borrowed);
    assert_eq!(owned.as_fq_name(), borrowed);
    assert_eq!(owned, owned.duplicate());
    assert_eq!(owned.as_str(), "com/example/Square");
    assert_ne!(owned, FQName::new("com/example/Shape"));
    assert_ne!(owned, "com.example.Square");
    assert_eq!(owned, String::from("com/example/Square"));
}

#[test]
fn names_are_read_from_strings_and_buffers() {
    let text = "java/util/List";
    assert_eq!(text.as_fcq(), FQName::new(text));
    let buf = FQName::new(text).to_fqname_buf();
    assert_eq!(buf.as_fcq().as_str(), text);
    assert_eq!(FQName::new(text).as_fcq().as_str(), text);
    assert_eq!(buf.as_path(), PathBuf::from("java/util/List"));
}

#[test]
fn plain_name_splits_into_path_components() {
    let name = FullyQualifiedName::new("java/lang/Object");
    assert_eq!(name, "java/lang/Object");
    assert_eq!(name.as_str(), "java/lang/Object");
    assert_eq!(
        name.components(),
        vec!["java".to_string(), "lang".to_string(), "Object".to_string()]
    );
    assert_eq!(name.as_path(), PathBuf::from_iter(["java", "lang", "Object"]));
    assert_eq!(name, FullyQualifiedName::new("java/lang/Object"));
}
