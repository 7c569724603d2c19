//! Decoders of the records of a class file: constant pool entries, fields,
//! methods and raw attributes.
//!
//! Each decoder reads at an offset of the whole buffer and returns the record
//! with the offset behind it. What it returns is stated by a function of the
//! bytes of the same shape: [`constant_at`], [`attribute_at`], [`member_at`].

use crate::bytes::{
    be_bytes, be_u16, be_u16_pair, be_u32, be_u64, be_u8, counted, lemma_repeat_failure_stays,
    lemma_views_empty, lemma_views_push, repeat, take_bytes, take_u16, take_u16_pair, take_u32,
    take_u64, take_u8, views, Decoded,
};
use crate::constant_pool::values::{
    Class, Double, FieldRef, Float, Integer, InterfaceMethodRef, InvokeDynamic, Long,
    MethodHandle, MethodRef, MethodType, NameAndType, StringValue, Utf8,
};
use crate::constant_pool::{
    Constant, ConstantPool, ConstantPoolInfo, CLASS_TAG, DOUBLE_TAG, FIELD_REF_TAG, FLOAT_TAG,
    INTEGER_TAG, INTERFACE_METHOD_REF_TAG, INVOKE_DYNAMIC_TAG, LONG_TAG, METHOD_HANDLE_TAG,
    METHOD_REF_TAG, METHOD_TYPE_TAG, NAME_AND_TYPE_TAG, STRING_TAG, UTF8_TAG,
};
use crate::error::{Error, ErrorKind};
use crate::raw_java_class::{
    AttributeRecord, MemberRecord, RawAttributeInfo, RawFieldInfo, RawMethodInfo,
};
use vstd::prelude::*;
use vstd::slice::slice_to_vec;

verus! {

/// The raw attribute laid out at `at`: the index of its name, the length of
/// its payload as a 32-bit number, and that many bytes of payload.
pub open spec fn attribute_at(s: Seq<u8>, at: int) -> Decoded<AttributeRecord> {
    match take_u16(s, at) {
        Err(e) => Err(e),
        Ok((name_index, at1)) => match take_u32(s, at1) {
            Err(e) => Err(e),
            Ok((length, at2)) => match take_bytes(s, at2, length as int) {
                Err(e) => Err(e),
                Ok((info, end)) => Ok((AttributeRecord { name_index, length, info }, end)),
            },
        },
    }
}

/// [`attribute_at`] as a value, for [`repeat`].
pub open spec fn attribute_item() -> spec_fn(Seq<u8>, int) -> Decoded<AttributeRecord> {
    |s: Seq<u8>, at: int| attribute_at(s, at)
}

/// The field or method laid out at `at`: access flags, the index of the
/// name, the index of the descriptor, the number of attributes, and that many
/// raw attributes.
pub open spec fn member_at(s: Seq<u8>, at: int) -> Decoded<MemberRecord> {
    match take_u16_pair(s, at) {
        Err(e) => Err(e),
        Ok(((access_flags, name_index), at1)) => match take_u16(s, at1) {
            Err(e) => Err(e),
            Ok((descriptor_index, at2)) => match counted(attribute_item(), s, at2) {
                Err(e) => Err(e),
                Ok(((attributes_count, attributes), end)) => Ok(
                    (
                        MemberRecord {
                            access_flags,
                            name_index,
                            descriptor_index,
                            attributes_count,
                            attributes,
                        },
                        end,
                    ),
                ),
            },
        },
    }
}

/// [`member_at`] as a value, for [`repeat`].
pub open spec fn member_item() -> spec_fn(Seq<u8>, int) -> Decoded<MemberRecord> {
    |s: Seq<u8>, at: int| member_at(s, at)
}

/// The constant pool entry laid out at `at`: a tag byte, then what the tag
/// calls for. Every entry takes one index of the pool. A tag that is not
/// known fails at once, for the layout of all that follows hangs on it.
pub open spec fn constant_at(s: Seq<u8>, at: int) -> Decoded<Constant> {
    match take_u8(s, at) {
        Err(e) => Err(e),
        Ok((tag, p)) => if tag == CLASS_TAG {
            match take_u16(s, p) {
                Err(e) => Err(e),
                Ok((name_index, end)) => Ok((Constant::Class(Class { name_index }), end)),
            }
        } else if tag == FIELD_REF_TAG {
            match take_u16_pair(s, p) {
                Err(e) => Err(e),
                Ok(((class_index, name_and_type_index), end)) => Ok(
                    (Constant::FieldRef(FieldRef { class_index, name_and_type_index }), end),
                ),
            }
        } else if tag == METHOD_REF_TAG {
            match take_u16_pair(s, p) {
                Err(e) => Err(e),
                Ok(((class_index, name_and_type_index), end)) => Ok(
                    (Constant::MethodRef(MethodRef { class_index, name_and_type_index }), end),
                ),
            }
        } else if tag == INTERFACE_METHOD_REF_TAG {
            match take_u16_pair(s, p) {
                Err(e) => Err(e),
                Ok(((class_index, name_and_type_index), end)) => Ok(
                    (
                        Constant::InterfaceMethodRef(
                            InterfaceMethodRef { class_index, name_and_type_index },
                        ),
                        end,
                    ),
                ),
            }
        } else if tag == STRING_TAG {
            match take_u16(s, p) {
                Err(e) => Err(e),
                Ok((string_index, end)) => Ok(
                    (Constant::String(StringValue { string_index }), end),
                ),
            }
        } else if tag == INTEGER_TAG {
            match take_u32(s, p) {
                Err(e) => Err(e),
                Ok((value, end)) => Ok((Constant::Integer(Integer { value }), end)),
            }
        } else if tag == FLOAT_TAG {
            match take_u32(s, p) {
                Err(e) => Err(e),
                Ok((bits, end)) => Ok((Constant::Float(Float { bits }), end)),
            }
        } else if tag == LONG_TAG {
            match take_u64(s, p) {
                Err(e) => Err(e),
                Ok((long, end)) => Ok((Constant::Long(Long { long }), end)),
            }
        } else if tag == DOUBLE_TAG {
            match take_u64(s, p) {
                Err(e) => Err(e),
                Ok((bits, end)) => Ok((Constant::Double(Double { bits }), end)),
            }
        } else if tag == NAME_AND_TYPE_TAG {
            match take_u16_pair(s, p) {
                Err(e) => Err(e),
                Ok(((name_index, descriptor_index), end)) => Ok(
                    (Constant::NameAndType(NameAndType { name_index, descriptor_index }), end),
                ),
            }
        } else if tag == UTF8_TAG {
            match take_u16(s, p) {
                Err(e) => Err(e),
                Ok((length, at1)) => match take_bytes(s, at1, length as int) {
                    Err(e) => Err(e),
                    Ok((bytes, end)) => Ok((Constant::Utf8(bytes), end)),
                },
            }
        } else if tag == METHOD_HANDLE_TAG {
            match take_u8(s, p) {
                Err(e) => Err(e),
                Ok((reference_kind, at1)) => match take_u16(s, at1) {
                    Err(e) => Err(e),
                    Ok((reference_index, end)) => Ok(
                        (
                            Constant::MethodHandle(
                                MethodHandle { reference_kind, reference_index },
                            ),
                            end,
                        ),
                    ),
                },
            }
        } else if tag == METHOD_TYPE_TAG {
            match take_u16(s, p) {
                Err(e) => Err(e),
                Ok((descriptor_index, end)) => Ok(
                    (Constant::MethodType(MethodType { descriptor_index }), end),
                ),
            }
        } else if tag == INVOKE_DYNAMIC_TAG {
            match take_u16_pair(s, p) {
                Err(e) => Err(e),
                Ok(((bootstrap_method_attr_index, name_and_type_index), end)) => Ok(
                    (
                        Constant::InvokeDynamic(
                            InvokeDynamic { bootstrap_method_attr_index, name_and_type_index },
                        ),
                        end,
                    ),
                ),
            }
        } else {
            Err(ErrorKind::UnknownConstantPoolInfoTag(tag))
        },
    }
}

/// [`constant_at`] as a value, for [`repeat`].
pub open spec fn constant_item() -> spec_fn(Seq<u8>, int) -> Decoded<Constant> {
    |s: Seq<u8>, at: int| constant_at(s, at)
}

/// Whether a decoder returned the record, by its model, and the offset that
/// the model function gives, or an error of the same kind.
pub open spec fn decodes<T: View>(r: Result<(T, usize), Error>, expected: Decoded<T::V>) -> bool {
    match r {
        Ok((item, next)) => expected == Ok::<(T::V, int), ErrorKind>((item@, next as int)),
        Err(e) => expected == Err::<(T::V, int), ErrorKind>(e@),
    }
}

/// Whether a decoder returned the records, by their models, and the offset
/// that the model function gives, or an error of the same kind.
pub open spec fn decodes_all<T: View>(
    r: Result<(Vec<T>, usize), Error>,
    expected: Decoded<Seq<T::V>>,
) -> bool {
    match r {
        Ok((items, next)) => expected == Ok::<(Seq<T::V>, int), ErrorKind>(
            (views(items@), next as int),
        ),
        Err(e) => expected == Err::<(Seq<T::V>, int), ErrorKind>(e@),
    }
}

/// Decodes one raw attribute at `at`.
pub fn parse_attribute_info(bytes: &[u8], at: usize) -> (r: Result<(RawAttributeInfo, usize), Error>)
    ensures
        decodes(r, attribute_at(bytes@, at as int)),
{
    let (name_index, at1) = be_u16(bytes, at)?;
    let (length, at2) = be_u32(bytes, at1)?;
    let (info, end) = be_bytes(bytes, at2, length as usize)?;
    Ok(
        (
            RawAttributeInfo {
                attribute_name_index: name_index,
                attribute_length: length,
                info: slice_to_vec(info),
            },
            end,
        ),
    )
}

/// Decodes `count` raw attributes, one behind the other, from `at` on.
pub fn parse_attributes(bytes: &[u8], at: usize, count: u16) -> (r: Result<
    (Vec<RawAttributeInfo>, usize),
    Error,
>)
    ensures
        decodes_all(r, repeat(attribute_item(), bytes@, at as int, count as nat)),
{
    let mut items: Vec<RawAttributeInfo> = Vec::new();
    let mut pos: usize = at;
    let mut i: u16 = 0;
    proof {
        lemma_views_empty::<RawAttributeInfo>();
    }
    while i < count
        invariant
            i <= count,
            repeat(attribute_item(), bytes@, at as int, i as nat) == Ok::<
                (Seq<AttributeRecord>, int),
                ErrorKind,
            >((views(items@), pos as int)),
        decreases count - i,
    {
        match parse_attribute_info(bytes, pos) {
            Ok((item, next)) => {
                proof {
                    lemma_views_push(items@, item);
                }
                items.push(item);
                pos = next;
            },
            Err(e) => {
                proof {
                    lemma_repeat_failure_stays(
                        attribute_item(),
                        bytes@,
                        at as int,
                        (i + 1) as nat,
                        count as nat,
                    );
                }
                return Err(e);
            },
        }
        i += 1;
    }
    Ok((items, pos))
}

/// Decodes what a field and a method have in common: access flags, the index
/// of the name, the index of the descriptor, and the counted attributes.
fn parse_data_info(bytes: &[u8], at: usize) -> (r: Result<
    ((u16, u16, u16, u16, Vec<RawAttributeInfo>), usize),
    Error,
>)
    ensures
        match r {
            Ok(((access_flags, name_index, descriptor_index, attributes_count, attributes), next)) =>
                member_at(bytes@, at as int) == Ok::<(MemberRecord, int), ErrorKind>(
                    (
                        MemberRecord {
                            access_flags,
                            name_index,
                            descriptor_index,
                            attributes_count,
                            attributes: views(attributes@),
                        },
                        next as int,
                    ),
                ),
            Err(e) => member_at(bytes@, at as int) == Err::<(MemberRecord, int), ErrorKind>(e@),
        },
{
    let ((access_flags, name_index), at1) = be_u16_pair(bytes, at)?;
    let (descriptor_index, at2) = be_u16(bytes, at1)?;
    let (attributes_count, at3) = be_u16(bytes, at2)?;
    let (attributes, end) = parse_attributes(bytes, at3, attributes_count)?;
    Ok(((access_flags, name_index, descriptor_index, attributes_count, attributes), end))
}

/// Decodes one raw field at `at`.
pub fn parse_field_info(bytes: &[u8], at: usize) -> (r: Result<(RawFieldInfo, usize), Error>)
    ensures
        decodes(r, member_at(bytes@, at as int)),
{
    let ((access_flags, name_index, descriptor_index, attributes_count, attributes), end) =
        parse_data_info(bytes, at)?;
    Ok(
        (
            RawFieldInfo { access_flags, name_index, descriptor_index, attributes_count, attributes },
            end,
        ),
    )
}

/// Decodes one raw method at `at`.
pub fn parse_method_info(bytes: &[u8], at: usize) -> (r: Result<(RawMethodInfo, usize), Error>)
    ensures
        decodes(r, member_at(bytes@, at as int)),
{
    let ((access_flags, name_index, descriptor_index, attributes_count, attributes), end) =
        parse_data_info(bytes, at)?;
    Ok(
        (
            RawMethodInfo {
                access_flags,
                name_index,
                descriptor_index,
                attributes_count,
                attributes,
            },
            end,
        ),
    )
}

/// Decodes `count` raw fields, one behind the other, from `at` on.
pub fn parse_fields(bytes: &[u8], at: usize, count: u16) -> (r: Result<
    (Vec<RawFieldInfo>, usize),
    Error,
>)
    ensures
        decodes_all(r, repeat(member_item(), bytes@, at as int, count as nat)),
{
    let mut items: Vec<RawFieldInfo> = Vec::new();
    let mut pos: usize = at;
    let mut i: u16 = 0;
    proof {
        lemma_views_empty::<RawFieldInfo>();
    }
    while i < count
        invariant
            i <= count,
            repeat(member_item(), bytes@, at as int, i as nat) == Ok::<
                (Seq<MemberRecord>, int),
                ErrorKind,
            >((views(items@), pos as int)),
        decreases count - i,
    {
        match parse_field_info(bytes, pos) {
            Ok((item, next)) => {
                proof {
                    lemma_views_push(items@, item);
                }
                items.push(item);
                pos = next;
            },
            Err(e) => {
                proof {
                    lemma_repeat_failure_stays(
                        member_item(),
                        bytes@,
                        at as int,
                        (i + 1) as nat,
                        count as nat,
                    );
                }
                return Err(e);
            },
        }
        i += 1;
    }
    Ok((items, pos))
}

/// Decodes `count` raw methods, one behind the other, from `at` on.
pub fn parse_methods(bytes: &[u8], at: usize, count: u16) -> (r: Result<
    (Vec<RawMethodInfo>, usize),
    Error,
>)
    ensures
        decodes_all(r, repeat(member_item(), bytes@, at as int, count as nat)),
{
    let mut items: Vec<RawMethodInfo> = Vec::new();
    let mut pos: usize = at;
    let mut i: u16 = 0;
    proof {
        lemma_views_empty::<RawMethodInfo>();
    }
    while i < count
        invariant
            i <= count,
            repeat(member_item(), bytes@, at as int, i as nat) == Ok::<
                (Seq<MemberRecord>, int),
                ErrorKind,
            >((views(items@), pos as int)),
        decreases count - i,
    {
        match parse_method_info(bytes, pos) {
            Ok((item, next)) => {
                proof {
                    lemma_views_push(items@, item);
                }
                items.push(item);
                pos = next;
            },
            Err(e) => {
                proof {
                    lemma_repeat_failure_stays(
                        member_item(),
                        bytes@,
                        at as int,
                        (i + 1) as nat,
                        count as nat,
                    );
                }
                return Err(e);
            },
        }
        i += 1;
    }
    Ok((items, pos))
}

/// Decodes one constant pool entry at `at`.
pub fn parse_constant_pool_info(bytes: &[u8], at: usize) -> (r: Result<
    (ConstantPoolInfo, usize),
    Error,
>)
    ensures
        decodes(r, constant_at(bytes@, at as int)),
{
    let (tag, p) = be_u8(bytes, at)?;
    if tag == CLASS_TAG {
        let (name_index, end) = be_u16(bytes, p)?;
        Ok((ConstantPoolInfo::Class(Class { name_index }), end))
    } else if tag == FIELD_REF_TAG {
        let ((class_index, name_and_type_index), end) = be_u16_pair(bytes, p)?;
        Ok((ConstantPoolInfo::FieldRef(FieldRef { class_index, name_and_type_index }), end))
    } else if tag == METHOD_REF_TAG {
        let ((class_index, name_and_type_index), end) = be_u16_pair(bytes, p)?;
        Ok((ConstantPoolInfo::MethodRef(MethodRef { class_index, name_and_type_index }), end))
    } else if tag == INTERFACE_METHOD_REF_TAG {
        let ((class_index, name_and_type_index), end) = be_u16_pair(bytes, p)?;
        Ok(
            (
                ConstantPoolInfo::InterfaceMethodRef(
                    InterfaceMethodRef { class_index, name_and_type_index },
                ),
                end,
            ),
        )
    } else if tag == STRING_TAG {
        let (string_index, end) = be_u16(bytes, p)?;
        Ok((ConstantPoolInfo::String(StringValue { string_index }), end))
    } else if tag == INTEGER_TAG {
        let (value, end) = be_u32(bytes, p)?;
        Ok((ConstantPoolInfo::Integer(Integer { value }), end))
    } else if tag == FLOAT_TAG {
        let (bits, end) = be_u32(bytes, p)?;
        Ok((ConstantPoolInfo::Float(Float { bits }), end))
    } else if tag == LONG_TAG {
        let (long, end) = be_u64(bytes, p)?;
        Ok((ConstantPoolInfo::Long(Long { long }), end))
    } else if tag == DOUBLE_TAG {
        let (bits, end) = be_u64(bytes, p)?;
        Ok((ConstantPoolInfo::Double(Double { bits }), end))
    } else if tag == NAME_AND_TYPE_TAG {
        let ((name_index, descriptor_index), end) = be_u16_pair(bytes, p)?;
        Ok((ConstantPoolInfo::NameAndType(NameAndType { name_index, descriptor_index }), end))
    } else if tag == UTF8_TAG {
        let (length, at1) = be_u16(bytes, p)?;
        let (text, end) = be_bytes(bytes, at1, length as usize)?;
        Ok((ConstantPoolInfo::Utf8(Utf8 { bytes: slice_to_vec(text) }), end))
    } else if tag == METHOD_HANDLE_TAG {
        let (reference_kind, at1) = be_u8(bytes, p)?;
        let (reference_index, end) = be_u16(bytes, at1)?;
        Ok((ConstantPoolInfo::MethodHandle(MethodHandle { reference_kind, reference_index }), end))
    } else if tag == METHOD_TYPE_TAG {
        let (descriptor_index, end) = be_u16(bytes, p)?;
        Ok((ConstantPoolInfo::MethodType(MethodType { descriptor_index }), end))
    } else if tag == INVOKE_DYNAMIC_TAG {
        let ((bootstrap_method_attr_index, name_and_type_index), end) = be_u16_pair(bytes, p)?;
        Ok(
            (
                ConstantPoolInfo::InvokeDynamic(
                    InvokeDynamic { bootstrap_method_attr_index, name_and_type_index },
                ),
                end,
            ),
        )
    } else {
        Err(Error::new(ErrorKind::UnknownConstantPoolInfoTag(tag)))
    }
}

/// Decodes a constant pool of `length` entries, one behind the other, from
/// `at` on.
pub fn parse_constant_pool(bytes: &[u8], at: usize, length: u16) -> (r: Result<
    (ConstantPool, usize),
    Error,
>)
    ensures
        decodes(r, repeat(constant_item(), bytes@, at as int, length as nat)),
{
    let mut items: Vec<ConstantPoolInfo> = Vec::new();
    let mut pos: usize = at;
    let mut i: u16 = 0;
    proof {
        lemma_views_empty::<ConstantPoolInfo>();
    }
    while i < length
        invariant
            i <= length,
            repeat(constant_item(), bytes@, at as int, i as nat) == Ok::<
                (Seq<Constant>, int),
                ErrorKind,
            >((views(items@), pos as int)),
        decreases length - i,
    {
        match parse_constant_pool_info(bytes, pos) {
            Ok((item, next)) => {
                proof {
                    lemma_views_push(items@, item);
                }
                items.push(item);
                pos = next;
            },
            Err(e) => {
                proof {
                    lemma_repeat_failure_stays(
                        constant_item(),
                        bytes@,
                        at as int,
                        (i + 1) as nat,
                        length as nat,
                    );
                }
                return Err(e);
            },
        }
        i += 1;
    }
    Ok((ConstantPool::new(items), pos))
}

} // verus!
