use java_class_parser::{Signature, SignatureError};

#[test]
fn parse_jni_signature() {
    let jni = "(ZI)Ljava/lang/Object;";
    let parsed = Signature::from_str(jni).expect("couldn't parse");
    assert_eq!(
        parsed,
        Signature::Method {
            args: vec![Signature::Boolean, Signature::Int],
            ret_type: Box::new(Signature::FullyQualifiedClass("java/lang/Object"))
        }
    );
    assert_eq!(parsed.jni(), jni);
    assert_eq!(parsed.to_string(), "java/lang/Object (boolean, int)")
}

#[test]
fn every_primitive_parses() {
    let cases = [
        ("Z", Signature::Boolean, "boolean"),
        ("B", Signature::Byte, "byte"),
        ("C", Signature::Char, "char"),
        ("S", Signature::Short, "short"),
        ("I", Signature::Int, "int"),
        ("J", Signature::Long, "long"),
        ("F", Signature::Float, "float"),
        ("D", Signature::Double, "double"),
        ("V", Signature::Void, "void"),
    ];
    for (text, expected, shown) in cases {
        let parsed = Signature::new(text).expect("a primitive");
        assert_eq!(parsed, expected);
        assert_eq!(parsed.jni(), text);
        assert_eq!(parsed.to_string(), shown);
    }
}

#[test]
fn arrays_and_methods_nest() {
    let parsed = Signature::from_str("[[Ljava/lang/String;").expect("an array");
    assert_eq!(
        parsed,
        Signature::Array(Box::new(Signature::Array(Box::new(
            Signature::FullyQualifiedClass("java/lang/String")
        ))))
    );
    assert_eq!(parsed.to_string(), "java/lang/String[][]");
    assert_eq!(parsed.jni(), "[[Ljava/lang/String;");

    let parsed = Signature::from_str("()V").expect("a method");
    assert_eq!(
        parsed,
        Signature::Method { args: vec![], ret_type: Box::new(Signature::Void) }
    );
    assert_eq!(parsed.to_string(), "void ()");

    let parsed = Signature::from_str("([IL\u{e9}t\u{e9};D)[J").expect("a method");
    assert_eq!(
        parsed,
        Signature::Method {
            args: vec![
                Signature::Array(Box::new(Signature::Int)),
                Signature::FullyQualifiedClass("\u{e9}t\u{e9}"),
                Signature::Double
            ],
            ret_type: Box::new(Signature::Array(Box::new(Signature::Long)))
        }
    );
    assert_eq!(parsed.to_string(), "long[] (int[], \u{e9}t\u{e9}, double)");
    assert_eq!(parsed.jni(), "([IL\u{e9}t\u{e9};D)[J");
    assert_eq!(Signature::from_str("L;").expect("an empty name"), Signature::FullyQualifiedClass(""));
}

#[test]
fn round_trip_holds_on_valid_descriptors() {
    for text in ["I", "[B", "Ljava/util/List;", "(JJ)Z", "((I)V[[C)Ljava/lang/Object;", "()()V"] {
        assert_eq!(Signature::from_str(text).expect("valid").jni(), text);
    }
}

#[test]
fn malformed_descriptors_are_rejected() {
    assert_eq!(Signature::from_str(""), Err(SignatureError::Empty));
    assert_eq!(Signature::from_str("X"), Err(SignatureError::Malformed(0)));
    assert_eq!(Signature::from_str("["), Err(SignatureError::Malformed(1)));
    assert_eq!(Signature::from_str("(I"), Err(SignatureError::Malformed(2)));
    assert_eq!(Signature::from_str("(I)"), Err(SignatureError::Malformed(3)));
    assert_eq!(Signature::from_str("(Q)V"), Err(SignatureError::Malformed(1)));
    assert_eq!(Signature::from_str("Ljava/lang/Object"), Err(SignatureError::Unterminated(0)));
    assert_eq!(Signature::from_str("(Lfoo)V"), Err(SignatureError::Unterminated(1)));
    assert_eq!(Signature::from_str("II"), Err(SignatureError::Trailing(1)));
    assert_eq!(Signature::from_str("Lfoo;;"), Err(SignatureError::Trailing(5)));
    assert_eq!(Signature::new(")"), Err(SignatureError::Malformed(0)));
}
