//! The layout of a class file, written down from the record to the bytes.
//!
//! The decoders of this library are stated as functions of the bytes. This
//! module states the layout the other way round, as the bytes of each record,
//! and proves that the two agree: what is laid out is decoded to what it was.

use crate::bytes::{
    counted, repeat, take_bytes, take_u16, take_u16_pair, take_u32, take_u64, take_u8, u16_item,
    Decoded,
};
use crate::constant_pool::parser::{
    attribute_at, attribute_item, constant_at, constant_item, member_at, member_item,
};
use crate::constant_pool::{
    Constant, CLASS_TAG, DOUBLE_TAG, FIELD_REF_TAG, FLOAT_TAG, INTEGER_TAG,
    INTERFACE_METHOD_REF_TAG, INVOKE_DYNAMIC_TAG, LONG_TAG, METHOD_HANDLE_TAG, METHOD_REF_TAG,
    METHOD_TYPE_TAG, NAME_AND_TYPE_TAG, STRING_TAG, UTF8_TAG,
};
use crate::error::ErrorKind;
use crate::raw_java_class::{
    class_at_start, class_lists_of, class_of, AttributeRecord, ClassRecord, MemberRecord,
};
use vstd::prelude::*;

verus! {

/// The two bytes of a 16-bit number, the high byte first.
pub open spec fn bytes_of_u16(v: u16) -> Seq<u8> {
    seq![(v / 0x100) as u8, (v % 0x100) as u8]
}

/// The four bytes of a 32-bit number, the highest byte first.
pub open spec fn bytes_of_u32(v: u32) -> Seq<u8> {
    seq![
        (v / 0x100_0000) as u8,
        ((v / 0x1_0000) % 0x100) as u8,
        ((v / 0x100) % 0x100) as u8,
        (v % 0x100) as u8,
    ]
}

/// The eight bytes of a 64-bit number, the highest byte first.
pub open spec fn bytes_of_u64(v: u64) -> Seq<u8> {
    bytes_of_u32((v / 0x1_0000_0000) as u32) + bytes_of_u32((v % 0x1_0000_0000) as u32)
}

/// Whether the bytes `part` stand in `s` at the offset `at`.
pub open spec fn stands_at(s: Seq<u8>, at: int, part: Seq<u8>) -> bool {
    0 <= at && at + part.len() <= s.len() && s.subrange(at, at + part.len()) == part
}

/// Where two parts stand one behind the other, each stands at its offset.
proof fn lemma_stands_apart(s: Seq<u8>, at: int, first: Seq<u8>, second: Seq<u8>)
    requires
        stands_at(s, at, first + second),
    ensures
        stands_at(s, at, first),
        stands_at(s, at + first.len(), second),
{
    let both = first + second;
    let whole = s.subrange(at, at + both.len());
    assert(s.subrange(at, at + first.len()) =~= first) by {
        assert forall|i: int| 0 <= i < first.len() implies s[at + i] == first[i] by {
            assert(whole[i] == both[i]);
        }
    }
    assert(s.subrange(at + first.len(), at + first.len() + second.len()) =~= second) by {
        assert forall|i: int| 0 <= i < second.len() implies s[at + first.len() + i]
            == second[i] by {
            assert(whole[first.len() + i] == both[first.len() + i]);
        }
    }
}

/// A byte that stands at an offset is read there.
proof fn lemma_reads_u8(s: Seq<u8>, at: int, v: u8)
    requires
        stands_at(s, at, seq![v]),
    ensures
        take_u8(s, at) == Ok::<(u8, int), ErrorKind>((v, at + 1)),
{
    assert(s.subrange(at, at + 1)[0] == v);
}

/// A 16-bit number that stands at an offset is read there.
proof fn lemma_reads_u16(s: Seq<u8>, at: int, v: u16)
    requires
        stands_at(s, at, bytes_of_u16(v)),
    ensures
        take_u16(s, at) == Ok::<(u16, int), ErrorKind>((v, at + 2)),
{
    let part = s.subrange(at, at + 2);
    assert(part[0] == s[at] && part[1] == s[at + 1]);
}

/// A 32-bit number that stands at an offset is read there.
proof fn lemma_reads_u32(s: Seq<u8>, at: int, v: u32)
    requires
        stands_at(s, at, bytes_of_u32(v)),
    ensures
        take_u32(s, at) == Ok::<(u32, int), ErrorKind>((v, at + 4)),
{
    let part = s.subrange(at, at + 4);
    assert(part[0] == s[at] && part[1] == s[at + 1] && part[2] == s[at + 2] && part[3] == s[at
        + 3]);
}

/// A 64-bit number that stands at an offset is read there.
proof fn lemma_reads_u64(s: Seq<u8>, at: int, v: u64)
    requires
        stands_at(s, at, bytes_of_u64(v)),
    ensures
        take_u64(s, at) == Ok::<(u64, int), ErrorKind>((v, at + 8)),
{
    let high = (v / 0x1_0000_0000) as u32;
    let low = (v % 0x1_0000_0000) as u32;
    lemma_stands_apart(s, at, bytes_of_u32(high), bytes_of_u32(low));
    lemma_reads_u32(s, at, high);
    lemma_reads_u32(s, at + 4, low);
}

/// Two 16-bit numbers that stand one behind the other are read as a pair.
proof fn lemma_reads_u16_pair(s: Seq<u8>, at: int, first: u16, second: u16)
    requires
        stands_at(s, at, bytes_of_u16(first) + bytes_of_u16(second)),
    ensures
        take_u16_pair(s, at) == Ok::<((u16, u16), int), ErrorKind>(((first, second), at + 4)),
{
    lemma_stands_apart(s, at, bytes_of_u16(first), bytes_of_u16(second));
    lemma_reads_u16(s, at, first);
    lemma_reads_u16(s, at + 2, second);
}

/// Bytes that stand at an offset are read there.
proof fn lemma_reads_bytes(s: Seq<u8>, at: int, part: Seq<u8>)
    requires
        stands_at(s, at, part),
    ensures
        take_bytes(s, at, part.len() as int) == Ok::<(Seq<u8>, int), ErrorKind>(
            (part, at + part.len()),
        ),
{
}

/// The items of a list laid out one behind the other, each by `layout`.
pub open spec fn layout_all<T>(layout: spec_fn(T) -> Seq<u8>, items: Seq<T>) -> Seq<u8>
    decreases items.len(),
{
    if items.len() == 0 {
        Seq::empty()
    } else {
        layout_all(layout, items.drop_last()) + layout(items.last())
    }
}

/// Whether a decoder reads back what a layout writes: each sound item that
/// stands at an offset is decoded there, with the offset behind it.
pub open spec fn reads_back<T>(
    item: spec_fn(Seq<u8>, int) -> Decoded<T>,
    layout: spec_fn(T) -> Seq<u8>,
    sound: spec_fn(T) -> bool,
) -> bool {
    forall|s: Seq<u8>, at: int, x: T|
        sound(x) && #[trigger] stands_at(s, at, layout(x)) ==> item(s, at) == Ok::<
            (T, int),
            ErrorKind,
        >((x, at + layout(x).len()))
}

/// Sound items that stand one behind the other are decoded as a list.
proof fn lemma_reads_all<T>(
    item: spec_fn(Seq<u8>, int) -> Decoded<T>,
    layout: spec_fn(T) -> Seq<u8>,
    sound: spec_fn(T) -> bool,
    s: Seq<u8>,
    at: int,
    items: Seq<T>,
)
    requires
        reads_back(item, layout, sound),
        forall|i: int| 0 <= i < items.len() ==> sound(#[trigger] items[i]),
        stands_at(s, at, layout_all(layout, items)),
    ensures
        repeat(item, s, at, items.len()) == Ok::<(Seq<T>, int), ErrorKind>(
            (items, at + layout_all(layout, items).len()),
        ),
    decreases items.len(),
{
    if items.len() == 0 {
        assert(items =~= Seq::<T>::empty());
    } else {
        let front = items.drop_last();
        let last = items.last();
        lemma_stands_apart(s, at, layout_all(layout, front), layout(last));
        assert forall|i: int| 0 <= i < front.len() implies sound(#[trigger] front[i]) by {
            assert(front[i] == items[i]);
        }
        lemma_reads_all(item, layout, sound, s, at, front);
        let mid = at + layout_all(layout, front).len();
        assert(sound(items[items.len() - 1]));
        assert(stands_at(s, mid, layout(last)));
        assert(front.push(last) =~= items);
    }
}

/// A count, and behind it the items of a list laid out one behind the other.
pub open spec fn counted_layout<T>(layout: spec_fn(T) -> Seq<u8>, items: Seq<T>) -> Seq<u8> {
    bytes_of_u16(items.len() as u16) + layout_all(layout, items)
}

/// A counted list of sound items that stands at an offset is decoded there.
proof fn lemma_reads_counted<T>(
    item: spec_fn(Seq<u8>, int) -> Decoded<T>,
    layout: spec_fn(T) -> Seq<u8>,
    sound: spec_fn(T) -> bool,
    s: Seq<u8>,
    at: int,
    items: Seq<T>,
)
    requires
        reads_back(item, layout, sound),
        forall|i: int| 0 <= i < items.len() ==> sound(#[trigger] items[i]),
        items.len() <= 0xffff,
        stands_at(s, at, counted_layout(layout, items)),
    ensures
        counted(item, s, at) == Ok::<((u16, Seq<T>), int), ErrorKind>(
            ((items.len() as u16, items), at + counted_layout(layout, items).len()),
        ),
{
    lemma_stands_apart(s, at, bytes_of_u16(items.len() as u16), layout_all(layout, items));
    lemma_reads_u16(s, at, items.len() as u16);
    lemma_reads_all(item, layout, sound, s, at + 2, items);
}

/// The bytes of a raw attribute.
pub open spec fn attribute_layout(a: AttributeRecord) -> Seq<u8> {
    bytes_of_u16(a.name_index) + bytes_of_u32(a.length) + a.info
}

/// Whether a raw attribute is sound: its length is that of its payload.
pub open spec fn attribute_sound(a: AttributeRecord) -> bool {
    a.length == a.info.len()
}

/// [`attribute_layout`] as a value.
pub open spec fn attribute_layouts() -> spec_fn(AttributeRecord) -> Seq<u8> {
    |a: AttributeRecord| attribute_layout(a)
}

/// [`attribute_sound`] as a value.
pub open spec fn attributes_sound() -> spec_fn(AttributeRecord) -> bool {
    |a: AttributeRecord| attribute_sound(a)
}

/// A sound raw attribute that stands at an offset is decoded there.
proof fn lemma_reads_attribute(s: Seq<u8>, at: int, a: AttributeRecord)
    requires
        attribute_sound(a),
        stands_at(s, at, attribute_layout(a)),
    ensures
        attribute_at(s, at) == Ok::<(AttributeRecord, int), ErrorKind>(
            (a, at + attribute_layout(a).len()),
        ),
{
    lemma_stands_apart(s, at, bytes_of_u16(a.name_index) + bytes_of_u32(a.length), a.info);
    lemma_stands_apart(s, at, bytes_of_u16(a.name_index), bytes_of_u32(a.length));
    lemma_reads_u16(s, at, a.name_index);
    lemma_reads_u32(s, at + 2, a.length);
    lemma_reads_bytes(s, at + 6, a.info);
}

/// Raw attributes are read back.
proof fn lemma_attributes_read_back()
    ensures
        reads_back(attribute_item(), attribute_layouts(), attributes_sound()),
{
    assert forall|s: Seq<u8>, at: int, a: AttributeRecord|
        attributes_sound()(a) && #[trigger] stands_at(
            s,
            at,
            attribute_layouts()(a),
        ) implies attribute_item()(s, at) == Ok::<(AttributeRecord, int), ErrorKind>(
        (a, at + attribute_layouts()(a).len()),
    ) by {
        lemma_reads_attribute(s, at, a);
    }
}

/// Whether every item of a list is sound.
pub open spec fn all_sound<T>(sound: spec_fn(T) -> bool, items: Seq<T>) -> bool {
    forall|i: int| 0 <= i < items.len() ==> sound(#[trigger] items[i])
}

/// The bytes of a raw field or method.
pub open spec fn member_layout(m: MemberRecord) -> Seq<u8> {
    bytes_of_u16(m.access_flags) + bytes_of_u16(m.name_index) + bytes_of_u16(m.descriptor_index)
        + counted_layout(attribute_layouts(), m.attributes)
}

/// Whether a raw field or method is sound: its count is that of its
/// attributes, and each of them is sound.
pub open spec fn member_sound(m: MemberRecord) -> bool {
    m.attributes_count == m.attributes.len() && all_sound(attributes_sound(), m.attributes)
}

/// [`member_layout`] as a value.
pub open spec fn member_layouts() -> spec_fn(MemberRecord) -> Seq<u8> {
    |m: MemberRecord| member_layout(m)
}

/// [`member_sound`] as a value.
pub open spec fn members_sound() -> spec_fn(MemberRecord) -> bool {
    |m: MemberRecord| member_sound(m)
}

/// A sound raw field or method that stands at an offset is decoded there.
proof fn lemma_reads_member(s: Seq<u8>, at: int, m: MemberRecord)
    requires
        member_sound(m),
        stands_at(s, at, member_layout(m)),
    ensures
        member_at(s, at) == Ok::<(MemberRecord, int), ErrorKind>((m, at + member_layout(m).len())),
{
    let access = bytes_of_u16(m.access_flags);
    let name = bytes_of_u16(m.name_index);
    let descriptor = bytes_of_u16(m.descriptor_index);
    let attributes = counted_layout(attribute_layouts(), m.attributes);
    lemma_stands_apart(s, at, access + name + descriptor, attributes);
    lemma_stands_apart(s, at, access + name, descriptor);
    lemma_reads_u16_pair(s, at, m.access_flags, m.name_index);
    lemma_reads_u16(s, at + 4, m.descriptor_index);
    lemma_attributes_read_back();
    lemma_reads_counted(
        attribute_item(),
        attribute_layouts(),
        attributes_sound(),
        s,
        at + 6,
        m.attributes,
    );
}

/// Raw fields and methods are read back.
proof fn lemma_members_read_back()
    ensures
        reads_back(member_item(), member_layouts(), members_sound()),
{
    assert forall|s: Seq<u8>, at: int, m: MemberRecord|
        members_sound()(m) && #[trigger] stands_at(s, at, member_layouts()(m)) implies member_item()(
        s,
        at,
    ) == Ok::<(MemberRecord, int), ErrorKind>((m, at + member_layouts()(m).len())) by {
        lemma_reads_member(s, at, m);
    }
}

/// The bytes of an entry of the constant pool: its tag, and what the tag
/// calls for.
pub open spec fn constant_layout(c: Constant) -> Seq<u8> {
    match c {
        Constant::Class(v) => seq![CLASS_TAG] + bytes_of_u16(v.name_index),
        Constant::FieldRef(v) => seq![FIELD_REF_TAG] + (bytes_of_u16(v.class_index)
            + bytes_of_u16(v.name_and_type_index)),
        Constant::MethodRef(v) => seq![METHOD_REF_TAG] + (bytes_of_u16(v.class_index)
            + bytes_of_u16(v.name_and_type_index)),
        Constant::InterfaceMethodRef(v) => seq![INTERFACE_METHOD_REF_TAG] + (bytes_of_u16(
            v.class_index,
        ) + bytes_of_u16(v.name_and_type_index)),
        Constant::String(v) => seq![STRING_TAG] + bytes_of_u16(v.string_index),
        Constant::Integer(v) => seq![INTEGER_TAG] + bytes_of_u32(v.value),
        Constant::Float(v) => seq![FLOAT_TAG] + bytes_of_u32(v.bits),
        Constant::Long(v) => seq![LONG_TAG] + bytes_of_u64(v.long),
        Constant::Double(v) => seq![DOUBLE_TAG] + bytes_of_u64(v.bits),
        Constant::NameAndType(v) => seq![NAME_AND_TYPE_TAG] + (bytes_of_u16(v.name_index)
            + bytes_of_u16(v.descriptor_index)),
        Constant::Utf8(bytes) => seq![UTF8_TAG] + (bytes_of_u16(bytes.len() as u16) + bytes),
        Constant::MethodHandle(v) => seq![METHOD_HANDLE_TAG] + (seq![v.reference_kind]
            + bytes_of_u16(v.reference_index)),
        Constant::MethodType(v) => seq![METHOD_TYPE_TAG] + bytes_of_u16(v.descriptor_index),
        Constant::InvokeDynamic(v) => seq![INVOKE_DYNAMIC_TAG] + (bytes_of_u16(
            v.bootstrap_method_attr_index,
        ) + bytes_of_u16(v.name_and_type_index)),
    }
}

/// Whether an entry of the constant pool is sound: a text has a length that
/// 16 bits can hold.
pub open spec fn constant_sound(c: Constant) -> bool {
    c matches Constant::Utf8(bytes) ==> bytes.len() <= 0xffff
}

/// [`constant_layout`] as a value.
pub open spec fn constant_layouts() -> spec_fn(Constant) -> Seq<u8> {
    |c: Constant| constant_layout(c)
}

/// [`constant_sound`] as a value.
pub open spec fn constants_sound() -> spec_fn(Constant) -> bool {
    |c: Constant| constant_sound(c)
}

/// A sound entry of the constant pool that stands at an offset is decoded
/// there.
proof fn lemma_reads_constant(s: Seq<u8>, at: int, c: Constant)
    requires
        constant_sound(c),
        stands_at(s, at, constant_layout(c)),
    ensures
        constant_at(s, at) == Ok::<(Constant, int), ErrorKind>((c, at + constant_layout(c).len())),
{
    match c {
        Constant::Class(v) => {
            lemma_stands_apart(s, at, seq![CLASS_TAG], bytes_of_u16(v.name_index));
            lemma_reads_u8(s, at, CLASS_TAG);
            lemma_reads_u16(s, at + 1, v.name_index);
        },
        Constant::FieldRef(v) => {
            lemma_stands_apart(
                s,
                at,
                seq![FIELD_REF_TAG],
                bytes_of_u16(v.class_index) + bytes_of_u16(v.name_and_type_index),
            );
            lemma_reads_u8(s, at, FIELD_REF_TAG);
            lemma_reads_u16_pair(s, at + 1, v.class_index, v.name_and_type_index);
        },
        Constant::MethodRef(v) => {
            lemma_stands_apart(
                s,
                at,
                seq![METHOD_REF_TAG],
                bytes_of_u16(v.class_index) + bytes_of_u16(v.name_and_type_index),
            );
            lemma_reads_u8(s, at, METHOD_REF_TAG);
            lemma_reads_u16_pair(s, at + 1, v.class_index, v.name_and_type_index);
        },
        Constant::InterfaceMethodRef(v) => {
            lemma_stands_apart(
                s,
                at,
                seq![INTERFACE_METHOD_REF_TAG],
                bytes_of_u16(v.class_index) + bytes_of_u16(v.name_and_type_index),
            );
            lemma_reads_u8(s, at, INTERFACE_METHOD_REF_TAG);
            lemma_reads_u16_pair(s, at + 1, v.class_index, v.name_and_type_index);
        },
        Constant::String(v) => {
            lemma_stands_apart(s, at, seq![STRING_TAG], bytes_of_u16(v.string_index));
            lemma_reads_u8(s, at, STRING_TAG);
            lemma_reads_u16(s, at + 1, v.string_index);
        },
        Constant::Integer(v) => {
            lemma_stands_apart(s, at, seq![INTEGER_TAG], bytes_of_u32(v.value));
            lemma_reads_u8(s, at, INTEGER_TAG);
            lemma_reads_u32(s, at + 1, v.value);
        },
        Constant::Float(v) => {
            lemma_stands_apart(s, at, seq![FLOAT_TAG], bytes_of_u32(v.bits));
            lemma_reads_u8(s, at, FLOAT_TAG);
            lemma_reads_u32(s, at + 1, v.bits);
        },
        Constant::Long(v) => {
            lemma_stands_apart(s, at, seq![LONG_TAG], bytes_of_u64(v.long));
            lemma_reads_u8(s, at, LONG_TAG);
            lemma_reads_u64(s, at + 1, v.long);
        },
        Constant::Double(v) => {
            lemma_stands_apart(s, at, seq![DOUBLE_TAG], bytes_of_u64(v.bits));
            lemma_reads_u8(s, at, DOUBLE_TAG);
            lemma_reads_u64(s, at + 1, v.bits);
        },
        Constant::NameAndType(v) => {
            lemma_stands_apart(
                s,
                at,
                seq![NAME_AND_TYPE_TAG],
                bytes_of_u16(v.name_index) + bytes_of_u16(v.descriptor_index),
            );
            lemma_reads_u8(s, at, NAME_AND_TYPE_TAG);
            lemma_reads_u16_pair(s, at + 1, v.name_index, v.descriptor_index);
        },
        Constant::Utf8(bytes) => {
            lemma_stands_apart(s, at, seq![UTF8_TAG], bytes_of_u16(bytes.len() as u16) + bytes);
            lemma_stands_apart(s, at + 1, bytes_of_u16(bytes.len() as u16), bytes);
            lemma_reads_u8(s, at, UTF8_TAG);
            lemma_reads_u16(s, at + 1, bytes.len() as u16);
            lemma_reads_bytes(s, at + 3, bytes);
        },
        Constant::MethodHandle(v) => {
            lemma_stands_apart(
                s,
                at,
                seq![METHOD_HANDLE_TAG],
                seq![v.reference_kind] + bytes_of_u16(v.reference_index),
            );
            lemma_stands_apart(s, at + 1, seq![v.reference_kind], bytes_of_u16(v.reference_index));
            lemma_reads_u8(s, at, METHOD_HANDLE_TAG);
            lemma_reads_u8(s, at + 1, v.reference_kind);
            lemma_reads_u16(s, at + 2, v.reference_index);
        },
        Constant::MethodType(v) => {
            lemma_stands_apart(s, at, seq![METHOD_TYPE_TAG], bytes_of_u16(v.descriptor_index));
            lemma_reads_u8(s, at, METHOD_TYPE_TAG);
            lemma_reads_u16(s, at + 1, v.descriptor_index);
        },
        Constant::InvokeDynamic(v) => {
            lemma_stands_apart(
                s,
                at,
                seq![INVOKE_DYNAMIC_TAG],
                bytes_of_u16(v.bootstrap_method_attr_index) + bytes_of_u16(v.name_and_type_index),
            );
            lemma_reads_u8(s, at, INVOKE_DYNAMIC_TAG);
            lemma_reads_u16_pair(s, at + 1, v.bootstrap_method_attr_index, v.name_and_type_index);
        },
    }
}

/// Entries of the constant pool are read back.
proof fn lemma_constants_read_back()
    ensures
        reads_back(constant_item(), constant_layouts(), constants_sound()),
{
    assert forall|s: Seq<u8>, at: int, c: Constant|
        constants_sound()(c) && #[trigger] stands_at(
            s,
            at,
            constant_layouts()(c),
        ) implies constant_item()(s, at) == Ok::<(Constant, int), ErrorKind>(
        (c, at + constant_layouts()(c).len()),
    ) by {
        lemma_reads_constant(s, at, c);
    }
}

/// [`bytes_of_u16`] as a value.
pub open spec fn u16_layouts() -> spec_fn(u16) -> Seq<u8> {
    |v: u16| bytes_of_u16(v)
}

/// Every 16-bit number is sound.
pub open spec fn u16s_sound() -> spec_fn(u16) -> bool {
    |v: u16| true
}

/// 16-bit numbers are read back.
proof fn lemma_u16s_read_back()
    ensures
        reads_back(u16_item(), u16_layouts(), u16s_sound()),
{
    assert forall|s: Seq<u8>, at: int, v: u16|
        u16s_sound()(v) && #[trigger] stands_at(s, at, u16_layouts()(v)) implies u16_item()(s, at)
        == Ok::<(u16, int), ErrorKind>((v, at + u16_layouts()(v).len())) by {
        lemma_reads_u16(s, at, v);
    }
}

/// The bytes that a class file starts with: the magic number, the two
/// version words and the count of the constant pool.
pub open spec fn head_layout(c: ClassRecord) -> Seq<u8> {
    bytes_of_u32(c.magic) + bytes_of_u16(c.major) + bytes_of_u16(c.minor) + bytes_of_u16(
        c.constant_pool_count,
    )
}

/// The bytes behind the constant pool: access flags and the indices of this
/// class and of its super class.
pub open spec fn middle_layout(c: ClassRecord) -> Seq<u8> {
    bytes_of_u16(c.access_flags) + bytes_of_u16(c.this_class) + bytes_of_u16(c.super_class)
}

/// The bytes that a class file ends with: the counted interfaces, fields,
/// methods and attributes.
pub open spec fn lists_layout(c: ClassRecord) -> Seq<u8> {
    counted_layout(u16_layouts(), c.interfaces) + counted_layout(member_layouts(), c.fields)
        + counted_layout(member_layouts(), c.methods) + counted_layout(
        attribute_layouts(),
        c.attributes,
    )
}

/// The bytes of a class file.
pub open spec fn class_layout(c: ClassRecord) -> Seq<u8> {
    head_layout(c) + layout_all(constant_layouts(), c.constant_pool) + middle_layout(c)
        + lists_layout(c)
}

/// Whether the record of a class file is sound: the count of the constant
/// pool is one more than the number of its entries; each list is short
/// enough for its 16-bit count; and every entry, field, method and attribute
/// is sound.
pub open spec fn class_sound(c: ClassRecord) -> bool {
    &&& c.constant_pool.len() == c.constant_pool_count - 1
    &&& all_sound(constants_sound(), c.constant_pool)
    &&& c.interfaces.len() <= 0xffff
    &&& c.fields.len() <= 0xffff
    &&& all_sound(members_sound(), c.fields)
    &&& c.methods.len() <= 0xffff
    &&& all_sound(members_sound(), c.methods)
    &&& c.attributes.len() <= 0xffff
    &&& all_sound(attributes_sound(), c.attributes)
}

/// The lists that end a sound class file are decoded where they stand.
proof fn lemma_reads_lists(s: Seq<u8>, at: int, c: ClassRecord)
    requires
        class_sound(c),
        stands_at(s, at, lists_layout(c)),
    ensures
        class_lists_of(s, at) == Ok::<
            ((Seq<u16>, Seq<MemberRecord>, Seq<MemberRecord>, Seq<AttributeRecord>), int),
            ErrorKind,
        >(((c.interfaces, c.fields, c.methods, c.attributes), at + lists_layout(c).len())),
{
    let interfaces = counted_layout(u16_layouts(), c.interfaces);
    let fields = counted_layout(member_layouts(), c.fields);
    let methods = counted_layout(member_layouts(), c.methods);
    let attributes = counted_layout(attribute_layouts(), c.attributes);
    lemma_stands_apart(s, at, interfaces + fields + methods, attributes);
    lemma_stands_apart(s, at, interfaces + fields, methods);
    lemma_stands_apart(s, at, interfaces, fields);
    lemma_u16s_read_back();
    lemma_members_read_back();
    lemma_attributes_read_back();
    lemma_reads_counted(u16_item(), u16_layouts(), u16s_sound(), s, at, c.interfaces);
    let at1 = at + interfaces.len();
    lemma_reads_counted(member_item(), member_layouts(), members_sound(), s, at1, c.fields);
    let at2 = at1 + fields.len();
    lemma_reads_counted(member_item(), member_layouts(), members_sound(), s, at2, c.methods);
    let at3 = at2 + methods.len();
    lemma_reads_counted(
        attribute_item(),
        attribute_layouts(),
        attributes_sound(),
        s,
        at3,
        c.attributes,
    );
}

/// The start of a class file is read where it stands.
proof fn lemma_reads_head(s: Seq<u8>, at: int, c: ClassRecord)
    requires
        stands_at(s, at, head_layout(c)),
    ensures
        head_layout(c).len() == 10,
        take_u32(s, at) == Ok::<(u32, int), ErrorKind>((c.magic, at + 4)),
        take_u16_pair(s, at + 4) == Ok::<((u16, u16), int), ErrorKind>(
            ((c.major, c.minor), at + 8),
        ),
        take_u16(s, at + 8) == Ok::<(u16, int), ErrorKind>((c.constant_pool_count, at + 10)),
{
    let magic = bytes_of_u32(c.magic);
    let versions = bytes_of_u16(c.major) + bytes_of_u16(c.minor);
    let count = bytes_of_u16(c.constant_pool_count);
    assert(head_layout(c) =~= magic + versions + count);
    lemma_stands_apart(s, at, magic + versions, count);
    lemma_stands_apart(s, at, magic, versions);
    lemma_reads_u32(s, at, c.magic);
    lemma_reads_u16_pair(s, at + 4, c.major, c.minor);
    lemma_reads_u16(s, at + 8, c.constant_pool_count);
}

/// What stands behind the constant pool is read where it stands.
proof fn lemma_reads_middle(s: Seq<u8>, at: int, c: ClassRecord)
    requires
        stands_at(s, at, middle_layout(c)),
    ensures
        middle_layout(c).len() == 6,
        take_u16_pair(s, at) == Ok::<((u16, u16), int), ErrorKind>(
            ((c.access_flags, c.this_class), at + 4),
        ),
        take_u16(s, at + 4) == Ok::<(u16, int), ErrorKind>((c.super_class, at + 6)),
{
    lemma_stands_apart(
        s,
        at,
        bytes_of_u16(c.access_flags) + bytes_of_u16(c.this_class),
        bytes_of_u16(c.super_class),
    );
    lemma_reads_u16_pair(s, at, c.access_flags, c.this_class);
    lemma_reads_u16(s, at + 4, c.super_class);
}

/// Each part of a class file stands where the parts before it end.
proof fn lemma_class_parts(s: Seq<u8>, c: ClassRecord)
    requires
        stands_at(s, 0, class_layout(c)),
    ensures
        stands_at(s, 0, head_layout(c)),
        stands_at(s, 10, layout_all(constant_layouts(), c.constant_pool)),
        stands_at(
            s,
            (10 + layout_all(constant_layouts(), c.constant_pool).len()) as int,
            middle_layout(c),
        ),
        stands_at(
            s,
            (16 + layout_all(constant_layouts(), c.constant_pool).len()) as int,
            lists_layout(c),
        ),
        class_layout(c).len() == 16 + layout_all(constant_layouts(), c.constant_pool).len()
            + lists_layout(c).len(),
{
    let head = head_layout(c);
    let pool = layout_all(constant_layouts(), c.constant_pool);
    let middle = middle_layout(c);
    let lists = lists_layout(c);
    lemma_stands_apart(s, 0, head + pool + middle, lists);
    lemma_stands_apart(s, 0, head + pool, middle);
    lemma_stands_apart(s, 0, head, pool);
    lemma_reads_head(s, 0, c);
    lemma_reads_middle(s, (10 + pool.len()) as int, c);
}

/// The start of a buffer is decoded to what its parts are decoded to.
proof fn lemma_class_assembles(s: Seq<u8>, c: ClassRecord, behind_pool: int, end: int)
    requires
        c.constant_pool_count >= 1,
        take_u32(s, 0) == Ok::<(u32, int), ErrorKind>((c.magic, 4)),
        take_u16_pair(s, 4) == Ok::<((u16, u16), int), ErrorKind>(((c.major, c.minor), 8)),
        take_u16(s, 8) == Ok::<(u16, int), ErrorKind>((c.constant_pool_count, 10)),
        repeat(constant_item(), s, 10, (c.constant_pool_count - 1) as nat) == Ok::<
            (Seq<Constant>, int),
            ErrorKind,
        >((c.constant_pool, behind_pool)),
        take_u16_pair(s, behind_pool) == Ok::<((u16, u16), int), ErrorKind>(
            ((c.access_flags, c.this_class), behind_pool + 4),
        ),
        take_u16(s, behind_pool + 4) == Ok::<(u16, int), ErrorKind>(
            (c.super_class, behind_pool + 6),
        ),
        class_lists_of(s, behind_pool + 6) == Ok::<
            ((Seq<u16>, Seq<MemberRecord>, Seq<MemberRecord>, Seq<AttributeRecord>), int),
            ErrorKind,
        >(((c.interfaces, c.fields, c.methods, c.attributes), end)),
    ensures
        class_at_start(s) == Ok::<(ClassRecord, int), ErrorKind>((c, end)),
{
}

/// A sound class file that stands at the start of a buffer is decoded there,
/// whatever stands behind it.
pub proof fn lemma_reads_class_at_start(s: Seq<u8>, c: ClassRecord)
    requires
        class_sound(c),
        stands_at(s, 0, class_layout(c)),
    ensures
        class_at_start(s) == Ok::<(ClassRecord, int), ErrorKind>(
            (c, class_layout(c).len() as int),
        ),
{
    let behind_pool = (10 + layout_all(constant_layouts(), c.constant_pool).len()) as int;
    lemma_class_parts(s, c);
    lemma_reads_head(s, 0, c);
    lemma_constants_read_back();
    lemma_reads_all(constant_item(), constant_layouts(), constants_sound(), s, 10, c.constant_pool);
    lemma_reads_middle(s, behind_pool, c);
    lemma_reads_lists(s, behind_pool + 6, c);
    lemma_class_assembles(s, c, behind_pool, class_layout(c).len() as int);
}

/// Decoding is the inverse of the layout: the bytes of a sound class file
/// are decoded to the record that they were laid out from.
pub proof fn lemma_reads_class(c: ClassRecord)
    requires
        class_sound(c),
    ensures
        class_of(class_layout(c)) == Ok::<ClassRecord, ErrorKind>(c),
{
    let s = class_layout(c);
    assert(s.subrange(0, s.len() as int) =~= s);
    lemma_reads_class_at_start(s, c);
}

/// A class file with anything behind it is no class file: it fails with the
/// offset of the first byte that is left. So no proper prefix of a class file
/// is a class file either.
pub proof fn lemma_proper_prefix_fails(s: Seq<u8>, n: int)
    requires
        0 <= n < s.len(),
        class_of(s.take(n)) is Ok,
    ensures
        class_of(s) == Err::<ClassRecord, ErrorKind>(ErrorKind::TrailingBytes(n as usize)),
{
    let prefix = s.take(n);
    let c = class_of(prefix)->Ok_0;
    lemma_decodes_only_layouts(prefix);
    assert(s.subrange(0, n) =~= prefix);
    lemma_reads_class_at_start(s, c);
}

/// Two classes that are laid out in the same bytes are the same class: the
/// layout is unambiguous.
pub proof fn lemma_layout_is_unambiguous(first: ClassRecord, second: ClassRecord)
    requires
        class_sound(first),
        class_sound(second),
        class_layout(first) == class_layout(second),
    ensures
        first == second,
{
    lemma_reads_class(first);
    lemma_reads_class(second);
}

/// Where two parts stand one behind the other, they stand there as one.
proof fn lemma_stands_together(s: Seq<u8>, at: int, first: Seq<u8>, second: Seq<u8>)
    requires
        stands_at(s, at, first),
        stands_at(s, at + first.len(), second),
    ensures
        stands_at(s, at, first + second),
{
    assert(s.subrange(at, at + (first + second).len()) =~= first + second) by {
        assert forall|i: int| 0 <= i < (first + second).len() implies s[at + i] == (first
            + second)[i] by {
            if i < first.len() {
                assert(s.subrange(at, at + first.len())[i] == first[i]);
            } else {
                let j = i - first.len();
                assert(s.subrange(at + first.len(), at + first.len() + second.len())[j]
                    == second[j]);
            }
        }
    }
}

/// The byte that is read at an offset stands there.
proof fn lemma_writes_u8(s: Seq<u8>, at: int)
    ensures
        take_u8(s, at) matches Ok((v, end)) ==> end == at + 1 && stands_at(s, at, seq![v]),
{
    if let Ok((v, end)) = take_u8(s, at) {
        assert(s.subrange(at, at + 1) =~= seq![v]);
    }
}

/// The 16-bit number that is read at an offset stands there.
proof fn lemma_writes_u16(s: Seq<u8>, at: int)
    ensures
        take_u16(s, at) matches Ok((v, end)) ==> end == at + 2 && stands_at(
            s,
            at,
            bytes_of_u16(v),
        ),
{
    if let Ok((v, end)) = take_u16(s, at) {
        assert(s.subrange(at, at + 2) =~= bytes_of_u16(v));
    }
}

/// The 32-bit number that is read at an offset stands there.
proof fn lemma_writes_u32(s: Seq<u8>, at: int)
    ensures
        take_u32(s, at) matches Ok((v, end)) ==> end == at + 4 && stands_at(
            s,
            at,
            bytes_of_u32(v),
        ),
{
    if let Ok((v, end)) = take_u32(s, at) {
        lemma_u32_digits(s[at], s[at + 1], s[at + 2], s[at + 3]);
        assert(s.subrange(at, at + 4) =~= bytes_of_u32(v));
    }
}

/// The four bytes of a 32-bit number are its digits to the base 256.
proof fn lemma_u32_digits(b0: u8, b1: u8, b2: u8, b3: u8)
    by (bit_vector)
    ensures
        ({
            let v = (b0 * 0x100_0000 + b1 * 0x1_0000 + b2 * 0x100 + b3) as u32;
            &&& (v / 0x100_0000) as u8 == b0
            &&& ((v / 0x1_0000) % 0x100) as u8 == b1
            &&& ((v / 0x100) % 0x100) as u8 == b2
            &&& (v % 0x100) as u8 == b3
        }),
{
}

/// The 64-bit number that is read at an offset stands there.
proof fn lemma_writes_u64(s: Seq<u8>, at: int)
    ensures
        take_u64(s, at) matches Ok((v, end)) ==> end == at + 8 && stands_at(
            s,
            at,
            bytes_of_u64(v),
        ),
{
    if let Ok((v, end)) = take_u64(s, at) {
        lemma_writes_u32(s, at);
        lemma_writes_u32(s, at + 4);
        let high = take_u32(s, at)->Ok_0.0;
        let low = take_u32(s, at + 4)->Ok_0.0;
        assert((v / 0x1_0000_0000) as u32 == high);
        assert((v % 0x1_0000_0000) as u32 == low);
        lemma_stands_together(s, at, bytes_of_u32(high), bytes_of_u32(low));
    }
}

/// The two 16-bit numbers that are read at an offset stand there.
proof fn lemma_writes_u16_pair(s: Seq<u8>, at: int)
    ensures
        take_u16_pair(s, at) matches Ok(((first, second), end)) ==> end == at + 4 && stands_at(
            s,
            at,
            bytes_of_u16(first) + bytes_of_u16(second),
        ),
{
    if let Ok(((first, second), end)) = take_u16_pair(s, at) {
        lemma_writes_u16(s, at);
        lemma_writes_u16(s, at + 2);
        lemma_stands_together(s, at, bytes_of_u16(first), bytes_of_u16(second));
    }
}

/// Whether a decoder reads nothing but what a layout writes: whatever it
/// decodes at an offset is sound, and stands there as the layout writes it.
pub open spec fn writes_back<T>(
    item: spec_fn(Seq<u8>, int) -> Decoded<T>,
    layout: spec_fn(T) -> Seq<u8>,
    sound: spec_fn(T) -> bool,
) -> bool {
    forall|s: Seq<u8>, at: int|
        0 <= at ==> (#[trigger] item(s, at) matches Ok((x, end)) ==> sound(x) && end == at
            + layout(x).len() && stands_at(s, at, layout(x)))
}

/// The items that are decoded as a list are sound and stand there one behind
/// the other.
proof fn lemma_writes_all<T>(
    item: spec_fn(Seq<u8>, int) -> Decoded<T>,
    layout: spec_fn(T) -> Seq<u8>,
    sound: spec_fn(T) -> bool,
    s: Seq<u8>,
    at: int,
    n: nat,
)
    requires
        writes_back(item, layout, sound),
        0 <= at <= s.len(),
    ensures
        repeat(item, s, at, n) matches Ok((items, end)) ==> items.len() == n && all_sound(
            sound,
            items,
        ) && end == at + layout_all(layout, items).len() && stands_at(
            s,
            at,
            layout_all(layout, items),
        ),
    decreases n,
{
    if let Ok((items, end)) = repeat(item, s, at, n) {
        if n == 0 {
            assert(s.subrange(at, at) =~= Seq::<u8>::empty());
        } else {
            lemma_writes_all(item, layout, sound, s, at, (n - 1) as nat);
            let (front, mid) = repeat(item, s, at, (n - 1) as nat)->Ok_0;
            let (last, last_end) = item(s, mid)->Ok_0;
            assert(items.drop_last() =~= front);
            assert(items.last() == last);
            lemma_stands_together(s, at, layout_all(layout, front), layout(last));
            assert forall|i: int| 0 <= i < items.len() implies sound(#[trigger] items[i]) by {
                if i < front.len() {
                    assert(items[i] == front[i]);
                }
            }
        }
    }
}

/// The counted list that is decoded at an offset stands there.
proof fn lemma_writes_counted<T>(
    item: spec_fn(Seq<u8>, int) -> Decoded<T>,
    layout: spec_fn(T) -> Seq<u8>,
    sound: spec_fn(T) -> bool,
    s: Seq<u8>,
    at: int,
)
    requires
        writes_back(item, layout, sound),
        0 <= at,
    ensures
        counted(item, s, at) matches Ok(((count, items), end)) ==> items.len() == count
            && all_sound(sound, items) && end == at + counted_layout(layout, items).len()
            && stands_at(s, at, counted_layout(layout, items)),
{
    if let Ok(((count, items), end)) = counted(item, s, at) {
        lemma_writes_u16(s, at);
        lemma_writes_all(item, layout, sound, s, at + 2, count as nat);
        lemma_stands_together(s, at, bytes_of_u16(count), layout_all(layout, items));
    }
}

/// The raw attribute that is decoded at an offset is sound and stands there.
proof fn lemma_writes_attribute(s: Seq<u8>, at: int)
    requires
        0 <= at,
    ensures
        attribute_at(s, at) matches Ok((a, end)) ==> attribute_sound(a) && end == at
            + attribute_layout(a).len() && stands_at(s, at, attribute_layout(a)),
{
    if let Ok((a, end)) = attribute_at(s, at) {
        lemma_writes_u16(s, at);
        lemma_writes_u32(s, at + 2);
        lemma_stands_together(s, at, bytes_of_u16(a.name_index), bytes_of_u32(a.length));
        lemma_stands_together(
            s,
            at,
            bytes_of_u16(a.name_index) + bytes_of_u32(a.length),
            a.info,
        );
    }
}

/// Raw attributes are decoded from nothing but their layout.
proof fn lemma_attributes_write_back()
    ensures
        writes_back(attribute_item(), attribute_layouts(), attributes_sound()),
{
    assert forall|s: Seq<u8>, at: int| 0 <= at implies (#[trigger] attribute_item()(
        s,
        at,
    ) matches Ok((x, end)) ==> attributes_sound()(x) && end == at + attribute_layouts()(x).len()
        && stands_at(s, at, attribute_layouts()(x))) by {
        lemma_writes_attribute(s, at);
    }
}

/// The raw field or method that is decoded at an offset is sound and stands
/// there.
proof fn lemma_writes_member(s: Seq<u8>, at: int)
    requires
        0 <= at,
    ensures
        member_at(s, at) matches Ok((m, end)) ==> member_sound(m) && end == at + member_layout(
            m,
        ).len() && stands_at(s, at, member_layout(m)),
{
    if let Ok((m, end)) = member_at(s, at) {
        lemma_writes_u16_pair(s, at);
        lemma_writes_u16(s, at + 4);
        lemma_attributes_write_back();
        lemma_writes_counted(attribute_item(), attribute_layouts(), attributes_sound(), s, at + 6);
        let access = bytes_of_u16(m.access_flags);
        let name = bytes_of_u16(m.name_index);
        let descriptor = bytes_of_u16(m.descriptor_index);
        let attributes = counted_layout(attribute_layouts(), m.attributes);
        lemma_stands_together(s, at, access + name, descriptor);
        lemma_stands_together(s, at, access + name + descriptor, attributes);
    }
}

/// Raw fields and methods are decoded from nothing but their layout.
proof fn lemma_members_write_back()
    ensures
        writes_back(member_item(), member_layouts(), members_sound()),
{
    assert forall|s: Seq<u8>, at: int| 0 <= at implies (#[trigger] member_item()(s, at) matches Ok(
        (x, end),
    ) ==> members_sound()(x) && end == at + member_layouts()(x).len() && stands_at(
        s,
        at,
        member_layouts()(x),
    )) by {
        lemma_writes_member(s, at);
    }
}

/// 16-bit numbers are decoded from nothing but their layout.
proof fn lemma_u16s_write_back()
    ensures
        writes_back(u16_item(), u16_layouts(), u16s_sound()),
{
    assert forall|s: Seq<u8>, at: int| 0 <= at implies (#[trigger] u16_item()(s, at) matches Ok(
        (x, end),
    ) ==> u16s_sound()(x) && end == at + u16_layouts()(x).len() && stands_at(
        s,
        at,
        u16_layouts()(x),
    )) by {
        lemma_writes_u16(s, at);
    }
}

/// The entry of the constant pool that is decoded at an offset is sound and
/// stands there.
proof fn lemma_writes_constant(s: Seq<u8>, at: int)
    requires
        0 <= at,
    ensures
        constant_at(s, at) matches Ok((c, end)) ==> constant_sound(c) && end == at
            + constant_layout(c).len() && stands_at(s, at, constant_layout(c)),
{
    if let Ok((c, end)) = constant_at(s, at) {
        let tag = take_u8(s, at)->Ok_0.0;
        lemma_writes_u8(s, at);
        lemma_writes_u8(s, at + 1);
        lemma_writes_u16(s, at + 1);
        lemma_writes_u16(s, at + 2);
        lemma_writes_u16_pair(s, at + 1);
        lemma_writes_u32(s, at + 1);
        lemma_writes_u64(s, at + 1);
        match c {
            Constant::Class(v) => {
                lemma_stands_together(s, at, seq![tag], bytes_of_u16(v.name_index));
            },
            Constant::FieldRef(v) => {
                lemma_stands_together(
                    s,
                    at,
                    seq![tag],
                    bytes_of_u16(v.class_index) + bytes_of_u16(v.name_and_type_index),
                );
            },
            Constant::MethodRef(v) => {
                lemma_stands_together(
                    s,
                    at,
                    seq![tag],
                    bytes_of_u16(v.class_index) + bytes_of_u16(v.name_and_type_index),
                );
            },
            Constant::InterfaceMethodRef(v) => {
                lemma_stands_together(
                    s,
                    at,
                    seq![tag],
                    bytes_of_u16(v.class_index) + bytes_of_u16(v.name_and_type_index),
                );
            },
            Constant::String(v) => {
                lemma_stands_together(s, at, seq![tag], bytes_of_u16(v.string_index));
            },
            Constant::Integer(v) => {
                lemma_stands_together(s, at, seq![tag], bytes_of_u32(v.value));
            },
            Constant::Float(v) => {
                lemma_stands_together(s, at, seq![tag], bytes_of_u32(v.bits));
            },
            Constant::Long(v) => {
                lemma_stands_together(s, at, seq![tag], bytes_of_u64(v.long));
            },
            Constant::Double(v) => {
                lemma_stands_together(s, at, seq![tag], bytes_of_u64(v.bits));
            },
            Constant::NameAndType(v) => {
                lemma_stands_together(
                    s,
                    at,
                    seq![tag],
                    bytes_of_u16(v.name_index) + bytes_of_u16(v.descriptor_index),
                );
            },
            Constant::Utf8(bytes) => {
                lemma_stands_together(s, at + 1, bytes_of_u16(bytes.len() as u16), bytes);
                lemma_stands_together(
                    s,
                    at,
                    seq![tag],
                    bytes_of_u16(bytes.len() as u16) + bytes,
                );
            },
            Constant::MethodHandle(v) => {
                lemma_stands_together(
                    s,
                    at + 1,
                    seq![v.reference_kind],
                    bytes_of_u16(v.reference_index),
                );
                lemma_stands_together(
                    s,
                    at,
                    seq![tag],
                    seq![v.reference_kind] + bytes_of_u16(v.reference_index),
                );
            },
            Constant::MethodType(v) => {
                lemma_stands_together(s, at, seq![tag], bytes_of_u16(v.descriptor_index));
            },
            Constant::InvokeDynamic(v) => {
                lemma_stands_together(
                    s,
                    at,
                    seq![tag],
                    bytes_of_u16(v.bootstrap_method_attr_index) + bytes_of_u16(
                        v.name_and_type_index,
                    ),
                );
            },
        }
    }
}

/// Entries of the constant pool are decoded from nothing but their layout.
proof fn lemma_constants_write_back()
    ensures
        writes_back(constant_item(), constant_layouts(), constants_sound()),
{
    assert forall|s: Seq<u8>, at: int| 0 <= at implies (#[trigger] constant_item()(
        s,
        at,
    ) matches Ok((x, end)) ==> constants_sound()(x) && end == at + constant_layouts()(x).len()
        && stands_at(s, at, constant_layouts()(x))) by {
        lemma_writes_constant(s, at);
    }
}

/// The lists that are decoded at the end of a class file are sound and stand
/// there.
proof fn lemma_writes_lists(s: Seq<u8>, at: int, c: ClassRecord)
    requires
        0 <= at,
        class_lists_of(s, at) matches Ok((lists, end)) && lists == (
            c.interfaces,
            c.fields,
            c.methods,
            c.attributes,
        ),
    ensures
        c.interfaces.len() <= 0xffff,
        c.fields.len() <= 0xffff,
        all_sound(members_sound(), c.fields),
        c.methods.len() <= 0xffff,
        all_sound(members_sound(), c.methods),
        c.attributes.len() <= 0xffff,
        all_sound(attributes_sound(), c.attributes),
        stands_at(s, at, lists_layout(c)),
        class_lists_of(s, at)->Ok_0.1 == at + lists_layout(c).len(),
{
    lemma_u16s_write_back();
    lemma_members_write_back();
    lemma_attributes_write_back();
    let interfaces = counted_layout(u16_layouts(), c.interfaces);
    let fields = counted_layout(member_layouts(), c.fields);
    let methods = counted_layout(member_layouts(), c.methods);
    let attributes = counted_layout(attribute_layouts(), c.attributes);
    lemma_writes_counted(u16_item(), u16_layouts(), u16s_sound(), s, at);
    let at1 = at + interfaces.len();
    lemma_writes_counted(member_item(), member_layouts(), members_sound(), s, at1);
    let at2 = at1 + fields.len();
    lemma_writes_counted(member_item(), member_layouts(), members_sound(), s, at2);
    let at3 = at2 + methods.len();
    lemma_writes_counted(attribute_item(), attribute_layouts(), attributes_sound(), s, at3);
    lemma_stands_together(s, at, interfaces, fields);
    lemma_stands_together(s, at, interfaces + fields, methods);
    lemma_stands_together(s, at, interfaces + fields + methods, attributes);
}

/// What a class file is decoded to is decoded from its parts.
proof fn lemma_class_disassembles(s: Seq<u8>, c: ClassRecord)
    requires
        class_of(s) == Ok::<ClassRecord, ErrorKind>(c),
    ensures
        take_u32(s, 0) == Ok::<(u32, int), ErrorKind>((c.magic, 4)),
        take_u16_pair(s, 4) == Ok::<((u16, u16), int), ErrorKind>(((c.major, c.minor), 8)),
        take_u16(s, 8) == Ok::<(u16, int), ErrorKind>((c.constant_pool_count, 10)),
        c.constant_pool_count >= 1,
        repeat(constant_item(), s, 10, (c.constant_pool_count - 1) as nat) matches Ok(
            (pool, behind_pool),
        ) && pool == c.constant_pool && take_u16_pair(s, behind_pool) == Ok::<
            ((u16, u16), int),
            ErrorKind,
        >(((c.access_flags, c.this_class), behind_pool + 4)) && take_u16(s, behind_pool + 4)
            == Ok::<(u16, int), ErrorKind>((c.super_class, behind_pool + 6)) && class_lists_of(
            s,
            behind_pool + 6,
        ) == Ok::<
            ((Seq<u16>, Seq<MemberRecord>, Seq<MemberRecord>, Seq<AttributeRecord>), int),
            ErrorKind,
        >(((c.interfaces, c.fields, c.methods, c.attributes), s.len() as int)),
{
}

/// The decoder reads nothing but layouts: a buffer that is decoded to a class
/// holds a sound class, and is the very layout of that class.
pub proof fn lemma_decodes_only_layouts(s: Seq<u8>)
    ensures
        class_of(s) matches Ok(c) ==> class_sound(c) && class_layout(c) == s,
{
    if let Ok(c) = class_of(s) {
        lemma_class_disassembles(s, c);
        lemma_writes_u32(s, 0);
        lemma_writes_u16_pair(s, 4);
        lemma_writes_u16(s, 8);
        lemma_constants_write_back();
        lemma_writes_all(
            constant_item(),
            constant_layouts(),
            constants_sound(),
            s,
            10,
            (c.constant_pool_count - 1) as nat,
        );
        let pool = layout_all(constant_layouts(), c.constant_pool);
        let behind_pool = (10 + pool.len()) as int;
        lemma_writes_u16_pair(s, behind_pool);
        lemma_writes_u16(s, behind_pool + 4);
        lemma_writes_lists(s, behind_pool + 6, c);
        lemma_class_joins(s, c);
    }
}

/// The parts of a class file that stand one behind the other from the start
/// to the end of a buffer are the buffer.
proof fn lemma_class_joins(s: Seq<u8>, c: ClassRecord)
    requires
        stands_at(s, 0, bytes_of_u32(c.magic)),
        stands_at(s, 4, bytes_of_u16(c.major) + bytes_of_u16(c.minor)),
        stands_at(s, 8, bytes_of_u16(c.constant_pool_count)),
        stands_at(s, 10, layout_all(constant_layouts(), c.constant_pool)),
        stands_at(
            s,
            (10 + layout_all(constant_layouts(), c.constant_pool).len()) as int,
            bytes_of_u16(c.access_flags) + bytes_of_u16(c.this_class),
        ),
        stands_at(
            s,
            (14 + layout_all(constant_layouts(), c.constant_pool).len()) as int,
            bytes_of_u16(c.super_class),
        ),
        stands_at(
            s,
            (16 + layout_all(constant_layouts(), c.constant_pool).len()) as int,
            lists_layout(c),
        ),
        s.len() == 16 + layout_all(constant_layouts(), c.constant_pool).len() + lists_layout(
            c,
        ).len(),
    ensures
        class_layout(c) == s,
{
    let magic = bytes_of_u32(c.magic);
    let versions = bytes_of_u16(c.major) + bytes_of_u16(c.minor);
    let count = bytes_of_u16(c.constant_pool_count);
    let pool = layout_all(constant_layouts(), c.constant_pool);
    let behind_pool = (10 + pool.len()) as int;
    lemma_stands_together(s, 0, magic, versions);
    lemma_stands_together(s, 0, magic + versions, count);
    assert(head_layout(c) =~= magic + versions + count);
    lemma_stands_together(s, 0, head_layout(c), pool);
    lemma_stands_together(
        s,
        behind_pool,
        bytes_of_u16(c.access_flags) + bytes_of_u16(c.this_class),
        bytes_of_u16(c.super_class),
    );
    lemma_stands_together(s, 0, head_layout(c) + pool, middle_layout(c));
    lemma_stands_together(s, 0, head_layout(c) + pool + middle_layout(c), lists_layout(c));
    assert(s.subrange(0, s.len() as int) =~= s);
}

} // verus!
