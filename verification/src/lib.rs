//! Decodes compiled JVM class files into a structured, queryable model and
//! resolves superclass and interface chains across a class path.
//!
//! The decoder, the constant pool, the descriptor grammar, the attribute
//! resolver and the inheritance graph are verified: every public function
//! states what it returns over a mathematical model of its input.

pub mod bytes;
pub mod class_parser;
pub mod classpath;
pub mod constant_pool;
pub mod error;
pub mod inheritance;
pub mod layout;
pub mod raw_java_class;
pub mod structures;
pub mod text;

pub use class_parser::{parse_bytes, Answer, JavaClassParser, Lookup};
pub use classpath::{Classpath, CLASSPATH_SEPARATOR};
pub use constant_pool::{ConstantPool, ConstantPoolInfo};
pub use error::{Error, ErrorKind};
pub use inheritance::{InheritKind, InheritanceGraph, Inspection};
pub use raw_java_class::{
    parse_class_file_bytes, RawAttributeInfo, RawFieldInfo, RawJavaClass, RawMethodInfo,
};
pub use structures::attributes::{
    Attribute, AttributeKind, Code, Exception, LineNumberTable, ResolveAttributeError,
};
pub use structures::class::JavaClass;
pub use structures::class_entries::{Field, Method};
pub use structures::fully_qualified_name::{
    AsFullyQualifiedName, FQName, FQNameBuf, FullyQualifiedName,
};
pub use structures::signatures::{Signature, SignatureError};
pub use structures::HasAttributes;
