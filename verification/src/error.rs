//! The error type of the library.

use crate::structures::fully_qualified_name::FQNameBuf;
use crate::text::{decimal, decimal_of, owned};
use vstd::string::*;
use vstd::prelude::*;

verus! {

/// What went wrong.
#[derive(Debug)]
pub enum ErrorKind {
    /// No class could be found for a fully qualified name.
    NoClassFound(FQNameBuf),
    /// A class path entry is neither a directory, an archive nor a class file.
    UnsupportedEntry(String),
    /// The count of the constant pool is 0, where it is one more than the
    /// number of entries; holds the offset at which the count stands.
    InvalidConstantPoolCount(usize),
    /// A constant pool entry starts with a tag that is not known.
    UnknownConstantPoolInfoTag(u8),
    /// The input ended while more bytes were needed; holds the offset of the
    /// read that could not be completed.
    MissingBytes(usize),
    /// Bytes are left after the declared structure; holds the offset of the
    /// first of them.
    TrailingBytes(usize),
    /// A constant pool index does not lead to an entry of the expected kind.
    InvalidReference(u16),
    /// Text that should be a type descriptor is not one.
    InvalidDescriptor(String),
    /// An attribute with a known name could not be decoded; holds the name.
    InvalidAttribute(String),
    /// Reading a resource failed; holds the report of the failure.
    Io(String),
    /// A class is inherited twice in the same way.
    AddingInheritanceFailed(FQNameBuf),
}

/// The message of an error kind.
pub open spec fn message_of(kind: ErrorKind) -> Seq<char> {
    match kind {
        ErrorKind::NoClassFound(name) => "No class found for path "@ + name@,
        ErrorKind::UnsupportedEntry(path) => "Unsupported entry in classpath: "@ + path@,
        ErrorKind::InvalidConstantPoolCount(offset) => "Constant pool count 0 at offset "@
            + decimal_of(offset as nat),
        ErrorKind::UnknownConstantPoolInfoTag(tag) => decimal_of(tag as nat)
            + " is not a known constant pool tag"@,
        ErrorKind::MissingBytes(offset) => "Missing bytes at offset "@ + decimal_of(offset as nat),
        ErrorKind::TrailingBytes(offset) => "Trailing bytes at offset "@ + decimal_of(
            offset as nat,
        ),
        ErrorKind::InvalidReference(index) => "Constant pool index "@ + decimal_of(index as nat)
            + " does not resolve"@,
        ErrorKind::InvalidDescriptor(text) => text@ + " is not a descriptor"@,
        ErrorKind::InvalidAttribute(name) => "An error occurred while resolving attribute "@
            + name@,
        ErrorKind::Io(report) => report@,
        ErrorKind::AddingInheritanceFailed(name) => "adding inheritance of "@ + name@
            + " failed"@,
    }
}

impl ErrorKind {
    /// The message of the error kind.
    pub fn to_string(&self) -> (r: String)
        ensures
            r@ == message_of(*self),
    {
        match self {
            ErrorKind::NoClassFound(name) => {
                let mut out = owned("No class found for path ");
                out.append(name.as_str());
                out
            },
            ErrorKind::UnsupportedEntry(path) => {
                let mut out = owned("Unsupported entry in classpath: ");
                out.append(path.as_str());
                out
            },
            ErrorKind::InvalidConstantPoolCount(offset) => {
                let mut out = owned("Constant pool count 0 at offset ");
                out.append(decimal(*offset).as_str());
                out
            },
            ErrorKind::UnknownConstantPoolInfoTag(tag) => {
                let mut out = decimal(*tag as usize);
                out.append(" is not a known constant pool tag");
                out
            },
            ErrorKind::MissingBytes(offset) => {
                let mut out = owned("Missing bytes at offset ");
                out.append(decimal(*offset).as_str());
                out
            },
            ErrorKind::TrailingBytes(offset) => {
                let mut out = owned("Trailing bytes at offset ");
                out.append(decimal(*offset).as_str());
                out
            },
            ErrorKind::InvalidReference(index) => {
                let mut out = owned("Constant pool index ");
                out.append(decimal(*index as usize).as_str());
                out.append(" does not resolve");
                out
            },
            ErrorKind::InvalidDescriptor(text) => {
                let mut out = owned(text.as_str());
                out.append(" is not a descriptor");
                out
            },
            ErrorKind::InvalidAttribute(name) => {
                let mut out = owned("An error occurred while resolving attribute ");
                out.append(name.as_str());
                out
            },
            ErrorKind::Io(report) => owned(report.as_str()),
            ErrorKind::AddingInheritanceFailed(name) => {
                let mut out = owned("adding inheritance of ");
                out.append(name.as_str());
                out.append(" failed");
                out
            },
        }
    }
}

/// The error type.
#[derive(Debug)]
pub struct Error {
    kind: ErrorKind,
}

impl View for Error {
    type V = ErrorKind;

    closed spec fn view(&self) -> ErrorKind {
        self.kind
    }
}

impl Error {
    /// Creates an error from an error kind.
    pub fn new(kind: ErrorKind) -> (r: Error)
        ensures
            r@ == kind,
    {
        Error { kind }
    }

    /// Gets the error kind.
    pub fn kind(&self) -> (r: &ErrorKind)
        ensures
            *r == self@,
    {
        &self.kind
    }

    /// Takes the error kind out of the error.
    pub fn into_kind(self) -> (r: ErrorKind)
        ensures
            r == self@,
    {
        self.kind
    }

    /// The message of the error.
    pub fn to_string(&self) -> (r: String)
        ensures
            r@ == message_of(self@),
    {
        self.kind.to_string()
    }

    /// Tells whether the error says that a class was not found.
    pub fn is_not_found(&self) -> (r: bool)
        ensures
            r == (self@ is NoClassFound),
    {
        match &self.kind {
            ErrorKind::NoClassFound(_) => true,
            _ => false,
        }
    }
}

} // verus!
