//! The raw class file: the record tree as it is laid out in the bytes, with
//! nothing resolved.

use crate::bytes::{
    be_u16, be_u16_pair, be_u16s, be_u32, counted, lemma_repeat_length, repeat, take_u16,
    take_u16_pair, take_u32, u16_item, views, Decoded,
};
use crate::constant_pool::parser::{
    attribute_item, constant_item, member_item, parse_attributes, parse_constant_pool,
    parse_fields, parse_methods,
};
use crate::constant_pool::{entry_at, Constant, ConstantPool};
use crate::error::{Error, ErrorKind};
use crate::layout::{class_layout, lemma_decodes_only_layouts};
use vstd::prelude::*;

verus! {

/// A raw attribute: the index of its name and its undecoded payload.
#[derive(Debug, Default, Clone)]
pub struct RawAttributeInfo {
    pub attribute_name_index: u16,
    pub attribute_length: u32,
    pub info: Vec<u8>,
}

/// What a raw attribute holds.
pub struct AttributeRecord {
    pub name_index: u16,
    pub length: u32,
    pub info: Seq<u8>,
}

impl View for RawAttributeInfo {
    type V = AttributeRecord;

    open spec fn view(&self) -> AttributeRecord {
        AttributeRecord {
            name_index: self.attribute_name_index,
            length: self.attribute_length,
            info: self.info@,
        }
    }
}

/// What a raw field or method holds.
pub struct MemberRecord {
    pub access_flags: u16,
    pub name_index: u16,
    pub descriptor_index: u16,
    pub attributes_count: u16,
    pub attributes: Seq<AttributeRecord>,
}

/// A raw field.
#[derive(Debug, Default, Clone)]
pub struct RawFieldInfo {
    pub access_flags: u16,
    pub name_index: u16,
    pub descriptor_index: u16,
    pub attributes_count: u16,
    pub attributes: Vec<RawAttributeInfo>,
}

impl View for RawFieldInfo {
    type V = MemberRecord;

    open spec fn view(&self) -> MemberRecord {
        MemberRecord {
            access_flags: self.access_flags,
            name_index: self.name_index,
            descriptor_index: self.descriptor_index,
            attributes_count: self.attributes_count,
            attributes: views(self.attributes@),
        }
    }
}

/// A raw method.
#[derive(Debug, Default, Clone)]
pub struct RawMethodInfo {
    pub access_flags: u16,
    pub name_index: u16,
    pub descriptor_index: u16,
    pub attributes_count: u16,
    pub attributes: Vec<RawAttributeInfo>,
}

impl View for RawMethodInfo {
    type V = MemberRecord;

    open spec fn view(&self) -> MemberRecord {
        MemberRecord {
            access_flags: self.access_flags,
            name_index: self.name_index,
            descriptor_index: self.descriptor_index,
            attributes_count: self.attributes_count,
            attributes: views(self.attributes@),
        }
    }
}

/// A raw class file. The two version words are named in the order in which
/// they are stored.
#[derive(Debug, Clone)]
pub struct RawJavaClass {
    pub magic: u32,
    pub major: u16,
    pub minor: u16,
    pub constant_pool_count: u16,
    pub constant_pool: ConstantPool,
    pub access_flags: u16,
    pub this_class: u16,
    pub super_class: u16,
    pub interfaces_count: u16,
    pub interfaces: Vec<u16>,
    pub fields_count: u16,
    pub fields: Vec<RawFieldInfo>,
    pub methods_count: u16,
    pub methods: Vec<RawMethodInfo>,
    pub attributes_count: u16,
    pub attributes: Vec<RawAttributeInfo>,
}

/// What a raw class file holds.
pub struct ClassRecord {
    pub magic: u32,
    pub major: u16,
    pub minor: u16,
    pub constant_pool_count: u16,
    pub constant_pool: Seq<Constant>,
    pub access_flags: u16,
    pub this_class: u16,
    pub super_class: u16,
    pub interfaces: Seq<u16>,
    pub fields: Seq<MemberRecord>,
    pub methods: Seq<MemberRecord>,
    pub attributes: Seq<AttributeRecord>,
}

impl View for RawJavaClass {
    type V = ClassRecord;

    open spec fn view(&self) -> ClassRecord {
        ClassRecord {
            magic: self.magic,
            major: self.major,
            minor: self.minor,
            constant_pool_count: self.constant_pool_count,
            constant_pool: self.constant_pool@,
            access_flags: self.access_flags,
            this_class: self.this_class,
            super_class: self.super_class,
            interfaces: self.interfaces@,
            fields: views(self.fields@),
            methods: views(self.methods@),
            attributes: views(self.attributes@),
        }
    }
}

/// The class file that starts `s`, with the offset behind it: magic number,
/// the two version words, the count of the constant pool and its entries,
/// access flags, the indices of this class and of its super class, then the
/// counted interfaces, fields, methods and attributes.
///
/// The constant pool has one entry less than its count says, for index 0 is
/// reserved. A count of 0 is therefore the count of no pool: the decoding
/// fails on it with the offset at which the count stands.
pub open spec fn class_at_start(s: Seq<u8>) -> Decoded<ClassRecord> {
    match take_u32(s, 0) {
        Err(e) => Err(e),
        Ok((magic, at1)) => match take_u16_pair(s, at1) {
            Err(e) => Err(e),
            Ok(((major, minor), at2)) => match take_u16(s, at2) {
                Err(e) => Err(e),
                Ok((constant_pool_count, at3)) => if constant_pool_count == 0 {
                    Err(ErrorKind::InvalidConstantPoolCount(at2 as usize))
                } else {
                    match repeat(constant_item(), s, at3, (constant_pool_count - 1) as nat) {
                        Err(e) => Err(e),
                        Ok((constant_pool, at4)) => match take_u16_pair(s, at4) {
                            Err(e) => Err(e),
                            Ok(((access_flags, this_class), at5)) => match take_u16(s, at5) {
                                Err(e) => Err(e),
                                Ok((super_class, at6)) => match class_lists_of(s, at6) {
                                    Err(e) => Err(e),
                                    Ok((lists, end)) => Ok(
                                        (
                                            ClassRecord {
                                                magic,
                                                major,
                                                minor,
                                                constant_pool_count,
                                                constant_pool,
                                                access_flags,
                                                this_class,
                                                super_class,
                                                interfaces: lists.0,
                                                fields: lists.1,
                                                methods: lists.2,
                                                attributes: lists.3,
                                            },
                                            end,
                                        ),
                                    ),
                                },
                            },
                        },
                    }
                },
            },
        },
    }
}

/// The class file laid out in `s`. The layout must take up all of `s`: bytes
/// that are left behind it are an error.
pub open spec fn class_of(s: Seq<u8>) -> Result<ClassRecord, ErrorKind> {
    match class_at_start(s) {
        Err(e) => Err(e),
        Ok((class, end)) => if end == s.len() {
            Ok(class)
        } else {
            Err(ErrorKind::TrailingBytes(end as usize))
        },
    }
}

/// The four counted lists that end a class file, from `at` on: interfaces,
/// fields, methods, attributes.
pub open spec fn class_lists_of(s: Seq<u8>, at: int) -> Result<
    ((Seq<u16>, Seq<MemberRecord>, Seq<MemberRecord>, Seq<AttributeRecord>), int),
    ErrorKind,
> {
    match counted(u16_item(), s, at) {
        Err(e) => Err(e),
        Ok(((interfaces_count, interfaces), at1)) => match counted(member_item(), s, at1) {
            Err(e) => Err(e),
            Ok(((fields_count, fields), at2)) => match counted(member_item(), s, at2) {
                Err(e) => Err(e),
                Ok(((methods_count, methods), at3)) => match counted(attribute_item(), s, at3) {
                    Err(e) => Err(e),
                    Ok(((attributes_count, attributes), end)) => Ok(
                        ((interfaces, fields, methods, attributes), end),
                    ),
                },
            },
        },
    }
}

/// Decodes a whole buffer into a raw class file: the class file that is laid
/// out in exactly these bytes.
///
/// Fails with [`ErrorKind::MissingBytes`] where the buffer ends too early,
/// with [`ErrorKind::InvalidConstantPoolCount`] where the count of the
/// constant pool is 0, with [`ErrorKind::UnknownConstantPoolInfoTag`] on an
/// unknown tag in the constant pool, and with [`ErrorKind::TrailingBytes`]
/// where bytes are left.
pub fn parse_class_file_bytes(bytes: &[u8]) -> (r: Result<RawJavaClass, Error>)
    ensures
        match r {
            Ok(class) => class_of(bytes@) == Ok::<ClassRecord, ErrorKind>(class@)
                && class.well_counted() && class_layout(class@) == bytes@,
            Err(e) => class_of(bytes@) == Err::<ClassRecord, ErrorKind>(e@),
        },
{
    let (magic, at1) = be_u32(bytes, 0)?;
    let ((major, minor), at2) = be_u16_pair(bytes, at1)?;
    let (constant_pool_count, at3) = be_u16(bytes, at2)?;
    if constant_pool_count == 0 {
        return Err(Error::new(ErrorKind::InvalidConstantPoolCount(at2)));
    }
    let (constant_pool, at4) = parse_constant_pool(bytes, at3, constant_pool_count - 1)?;
    let ((access_flags, this_class), at5) = be_u16_pair(bytes, at4)?;
    let (super_class, at6) = be_u16(bytes, at5)?;
    let (interfaces_count, at7) = be_u16(bytes, at6)?;
    let (interfaces, at8) = be_u16s(bytes, at7, interfaces_count)?;
    let (fields_count, at9) = be_u16(bytes, at8)?;
    let (fields, at10) = parse_fields(bytes, at9, fields_count)?;
    let (methods_count, at11) = be_u16(bytes, at10)?;
    let (methods, at12) = parse_methods(bytes, at11, methods_count)?;
    let (attributes_count, at13) = be_u16(bytes, at12)?;
    let (attributes, end) = parse_attributes(bytes, at13, attributes_count)?;
    if end != bytes.len() {
        return Err(Error::new(ErrorKind::TrailingBytes(end)));
    }
    proof {
        lemma_decodes_only_layouts(bytes@);
        lemma_repeat_length(u16_item(), bytes@, at7 as int, interfaces_count as nat);
        lemma_repeat_length(member_item(), bytes@, at9 as int, fields_count as nat);
        lemma_repeat_length(member_item(), bytes@, at11 as int, methods_count as nat);
        lemma_repeat_length(attribute_item(), bytes@, at13 as int, attributes_count as nat);
        lemma_repeat_length(
            constant_item(),
            bytes@,
            at3 as int,
            (constant_pool_count - 1) as nat,
        );
    }
    Ok(
        RawJavaClass {
            magic,
            major,
            minor,
            constant_pool_count,
            constant_pool,
            access_flags,
            this_class,
            super_class,
            interfaces_count,
            interfaces,
            fields_count,
            fields,
            methods_count,
            methods,
            attributes_count,
            attributes,
        },
    )
}

/// The constant pool of a class file is indexed from 1: index 0 names no
/// entry, each index from 1 up to the count less one names the entry that
/// was decoded at that position, where the entries stand one behind the
/// other from offset 10 on, and an index from the count on names none.
pub proof fn lemma_pool_indexing(s: Seq<u8>, index: u16)
    ensures
        class_of(s) matches Ok(class) ==> {
            let decoded = repeat(
                constant_item(),
                s,
                10,
                (class.constant_pool_count - 1) as nat,
            );
            &&& class.constant_pool_count >= 1
            &&& class.constant_pool.len() == class.constant_pool_count - 1
            &&& decoded matches Ok((entries, end)) && entries == class.constant_pool
            &&& entry_at(class.constant_pool, 0) is None
            &&& 1 <= index < class.constant_pool_count ==> entry_at(class.constant_pool, index)
                == Some(decoded->Ok_0.0[index - 1])
            &&& index >= class.constant_pool_count ==> entry_at(class.constant_pool, index) is None
        },
{
    if let Ok(class) = class_of(s) {
        lemma_repeat_length(constant_item(), s, 10, (class.constant_pool_count - 1) as nat);
    }
}

impl RawJavaClass {
    /// Whether each count field holds the length of its list.
    pub open spec fn well_counted(&self) -> bool {
        &&& self.constant_pool@.len() == self.constant_pool_count - 1
        &&& self.interfaces@.len() == self.interfaces_count
        &&& self.fields@.len() == self.fields_count
        &&& self.methods@.len() == self.methods_count
        &&& self.attributes@.len() == self.attributes_count
    }
}

} // verus!
