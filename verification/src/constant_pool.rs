//! The constant pool: a class file's table of literals and symbolic
//! references, indexed from 1.

pub mod parser;
pub mod values;

use crate::bytes::views;
use values::{
    Class, Double, FieldRef, Float, Integer, InterfaceMethodRef, InvokeDynamic, Long,
    MethodHandle, MethodRef, MethodType, NameAndType, StringValue, Utf8,
};
use vstd::prelude::*;

verus! {

/// The tag byte of a class reference.
pub const CLASS_TAG: u8 = 7;

/// The tag byte of a field reference.
pub const FIELD_REF_TAG: u8 = 9;

/// The tag byte of a method reference.
pub const METHOD_REF_TAG: u8 = 10;

/// The tag byte of an interface method reference.
pub const INTERFACE_METHOD_REF_TAG: u8 = 11;

/// The tag byte of a string constant.
pub const STRING_TAG: u8 = 8;

/// The tag byte of a 32-bit integer constant.
pub const INTEGER_TAG: u8 = 3;

/// The tag byte of a 32-bit floating point constant.
pub const FLOAT_TAG: u8 = 4;

/// The tag byte of a 64-bit integer constant.
pub const LONG_TAG: u8 = 5;

/// The tag byte of a 64-bit floating point constant.
pub const DOUBLE_TAG: u8 = 6;

/// The tag byte of a name with its type.
pub const NAME_AND_TYPE_TAG: u8 = 12;

/// The tag byte of text.
pub const UTF8_TAG: u8 = 1;

/// The tag byte of a method handle.
pub const METHOD_HANDLE_TAG: u8 = 15;

/// The tag byte of a method type.
pub const METHOD_TYPE_TAG: u8 = 16;

/// The tag byte of a dynamic call site.
pub const INVOKE_DYNAMIC_TAG: u8 = 18;

/// One entry of the constant pool.
#[derive(Debug, Clone)]
pub enum ConstantPoolInfo {
    Class(Class),
    FieldRef(FieldRef),
    MethodRef(MethodRef),
    InterfaceMethodRef(InterfaceMethodRef),
    String(StringValue),
    Integer(Integer),
    Float(Float),
    Long(Long),
    Double(Double),
    NameAndType(NameAndType),
    Utf8(Utf8),
    MethodHandle(MethodHandle),
    MethodType(MethodType),
    InvokeDynamic(InvokeDynamic),
}

/// What an entry of the constant pool holds. Text is held as its bytes.
pub enum Constant {
    Class(Class),
    FieldRef(FieldRef),
    MethodRef(MethodRef),
    InterfaceMethodRef(InterfaceMethodRef),
    String(StringValue),
    Integer(Integer),
    Float(Float),
    Long(Long),
    Double(Double),
    NameAndType(NameAndType),
    Utf8(Seq<u8>),
    MethodHandle(MethodHandle),
    MethodType(MethodType),
    InvokeDynamic(InvokeDynamic),
}

impl View for ConstantPoolInfo {
    type V = Constant;

    open spec fn view(&self) -> Constant {
        match *self {
            ConstantPoolInfo::Class(v) => Constant::Class(v),
            ConstantPoolInfo::FieldRef(v) => Constant::FieldRef(v),
            ConstantPoolInfo::MethodRef(v) => Constant::MethodRef(v),
            ConstantPoolInfo::InterfaceMethodRef(v) => Constant::InterfaceMethodRef(v),
            ConstantPoolInfo::String(v) => Constant::String(v),
            ConstantPoolInfo::Integer(v) => Constant::Integer(v),
            ConstantPoolInfo::Float(v) => Constant::Float(v),
            ConstantPoolInfo::Long(v) => Constant::Long(v),
            ConstantPoolInfo::Double(v) => Constant::Double(v),
            ConstantPoolInfo::NameAndType(v) => Constant::NameAndType(v),
            ConstantPoolInfo::Utf8(v) => Constant::Utf8(v.bytes@),
            ConstantPoolInfo::MethodHandle(v) => Constant::MethodHandle(v),
            ConstantPoolInfo::MethodType(v) => Constant::MethodType(v),
            ConstantPoolInfo::InvokeDynamic(v) => Constant::InvokeDynamic(v),
        }
    }
}

/// The entry that a 1-based index names in a pool, if there is one: index 0
/// names none, nor does an index behind the last entry.
pub open spec fn entry_at(pool: Seq<Constant>, index: u16) -> Option<Constant> {
    if 1 <= index <= pool.len() {
        Some(pool[index - 1])
    } else {
        None
    }
}

/// The constant pool of one class: its entries in the order in which they
/// were decoded.
#[derive(Debug, Clone)]
pub struct ConstantPool {
    pool: Vec<ConstantPoolInfo>,
}

impl View for ConstantPool {
    type V = Seq<Constant>;

    closed spec fn view(&self) -> Seq<Constant> {
        views(self.pool@)
    }
}

impl ConstantPool {
    /// The entries themselves, in order.
    pub closed spec fn entries(&self) -> Seq<ConstantPoolInfo> {
        self.pool@
    }

    /// The model of a pool is made of the models of its entries.
    pub proof fn lemma_view(&self)
        ensures
            self@ == views(self.entries()),
            self@.len() == self.entries().len(),
    {
    }

    /// Creates a constant pool from its entries.
    pub fn new(pool: Vec<ConstantPoolInfo>) -> (r: ConstantPool)
        ensures
            r.entries() == pool@,
            r@ == views(pool@),
    {
        ConstantPool { pool }
    }

    /// The number of entries.
    pub fn len(&self) -> (r: usize)
        ensures
            r == self@.len(),
    {
        self.pool.len()
    }

    /// Looks an entry up by its 1-based index.
    pub fn get(&self, index: u16) -> (r: Option<&ConstantPoolInfo>)
        ensures
            match r {
                Some(info) => entry_at(self@, index) == Some(info@) && 1 <= index
                    <= self.entries().len() && *info == self.entries()[index - 1],
                None => entry_at(self@, index) is None,
            },
    {
        if index == 0 {
            return None;
        }
        let i: usize = (index - 1) as usize;
        if i < self.pool.len() {
            Some(&self.pool[i])
        } else {
            None
        }
    }
}

} // verus!
