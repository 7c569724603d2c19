//! What the entries of the constant pool hold.

use vstd::prelude::*;
use vstd::string::*;
use vstd::utf8::*;

verus! {

/// A reference to a class: the index of its name.
#[derive(Debug, Clone, Copy)]
pub struct Class {
    pub name_index: u16,
}

/// A reference to a field of a class.
#[derive(Debug, Clone, Copy)]
pub struct FieldRef {
    pub class_index: u16,
    pub name_and_type_index: u16,
}

/// A reference to a method of a class.
#[derive(Debug, Clone, Copy)]
pub struct MethodRef {
    pub class_index: u16,
    pub name_and_type_index: u16,
}

/// A reference to a method of an interface.
#[derive(Debug, Clone, Copy)]
pub struct InterfaceMethodRef {
    pub class_index: u16,
    pub name_and_type_index: u16,
}

/// A string constant: the index of its text.
#[derive(Debug, Clone, Copy)]
pub struct StringValue {
    pub string_index: u16,
}

/// A 32-bit integer constant.
#[derive(Debug, Clone, Copy)]
pub struct Integer {
    pub value: u32,
}

/// A 32-bit floating point constant, held as its bits.
#[derive(Debug, Clone, Copy)]
pub struct Float {
    pub bits: u32,
}

/// A 64-bit integer constant.
#[derive(Debug, Clone, Copy)]
pub struct Long {
    pub long: u64,
}

/// A 64-bit floating point constant, held as its bits.
#[derive(Debug, Clone, Copy)]
pub struct Double {
    pub bits: u64,
}

/// A name together with its type descriptor.
#[derive(Debug, Clone, Copy)]
pub struct NameAndType {
    pub name_index: u16,
    pub descriptor_index: u16,
}

/// Text, held as the bytes that were decoded.
#[derive(Debug, Clone)]
pub struct Utf8 {
    pub bytes: Vec<u8>,
}

/// A method handle.
#[derive(Debug, Clone, Copy)]
pub struct MethodHandle {
    pub reference_kind: u8,
    pub reference_index: u16,
}

/// A method type: the index of its descriptor.
#[derive(Debug, Clone, Copy)]
pub struct MethodType {
    pub descriptor_index: u16,
}

/// A dynamic call site.
#[derive(Debug, Clone, Copy)]
pub struct InvokeDynamic {
    pub bootstrap_method_attr_index: u16,
    pub name_and_type_index: u16,
}

/// The text that bytes stand for where they are valid UTF-8.
pub open spec fn text_of(bytes: Seq<u8>) -> Option<Seq<char>> {
    if valid_utf8(bytes) {
        Some(decode_utf8(bytes))
    } else {
        None
    }
}

/// The text that `String::from_utf8_lossy` makes of bytes: each invalid
/// sequence is replaced by the replacement character.
pub uninterp spec fn lossy_text(bytes: Seq<u8>) -> Seq<char>;

/// Reads bytes as text with `std::str::from_utf8`, which succeeds exactly on
/// valid UTF-8 and then borrows the same bytes.
#[verifier::external_body]
fn str_from_utf8<'a>(bytes: &'a [u8]) -> (r: Option<&'a str>)
    ensures
        r is Some <==> valid_utf8(bytes@),
        r matches Some(s) ==> s.spec_bytes() == bytes@,
{
    std::str::from_utf8(bytes).ok()
}

/// Reads bytes as text with `String::from_utf8_lossy`, which never fails and
/// gives valid UTF-8 back unchanged.
#[verifier::external_body]
fn string_from_utf8_lossy(bytes: &[u8]) -> (r: String)
    ensures
        r@ == lossy_text(bytes@),
        valid_utf8(bytes@) ==> r@ == decode_utf8(bytes@),
{
    String::from_utf8_lossy(bytes).into_owned()
}

impl Utf8 {
    /// The text, if the bytes are valid UTF-8.
    pub fn as_str(&self) -> (r: Option<&str>)
        ensures
            match r {
                Some(s) => text_of(self.bytes@) == Some(s@),
                None => text_of(self.bytes@) is None,
            },
    {
        let r = str_from_utf8(self.bytes.as_slice());
        proof {
            if let Some(s) = r {
                encode_utf8_decode_utf8(s@);
            }
        }
        r
    }

    /// The text for display: invalid sequences are replaced, never fatal.
    pub fn to_string(&self) -> (r: String)
        ensures
            r@ == lossy_text(self.bytes@),
            text_of(self.bytes@) matches Some(text) ==> r@ == text,
    {
        string_from_utf8_lossy(self.bytes.as_slice())
    }
}

} // verus!
