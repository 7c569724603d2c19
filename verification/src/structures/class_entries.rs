//! The members of a class: fields and methods, each with its name, its
//! signature and its attributes.

use crate::bytes::{lemma_views_empty, lemma_views_push, views};
use crate::constant_pool::Constant;
use crate::error::{Error, ErrorKind};
use crate::raw_java_class::{
    AttributeRecord, MemberRecord, RawAttributeInfo, RawFieldInfo, RawMethodInfo,
};
use crate::structures::attributes::{
    all_resolve, attributes_of, failing_name, first_unresolved, resolve_all, resolved_as, ResolveAttributeError,
    Attribute, AttributeModel,
};
use crate::structures::class::{descriptor_at_index, utf8_at, JavaClass};
use crate::structures::signatures::{Descriptor, Signature};
use crate::structures::HasAttributes;
use crate::text::owned;
use vstd::prelude::*;

verus! {

/// What a field or a method holds.
pub struct MemberModel {
    pub name: Seq<char>,
    pub signature: Descriptor,
    pub attributes: Seq<AttributeModel>,
}

/// What a raw field or method resolves to: its name is the text entry at its
/// name index, its signature the descriptor in the text entry at its
/// descriptor index, and each of its attributes resolves. Nothing where any
/// of these fails.
pub open spec fn member_of(pool: Seq<Constant>, record: MemberRecord) -> Option<MemberModel> {
    member_from(pool, record.name_index, record.descriptor_index, record.attributes)
}

/// What a name index, a descriptor index and raw attributes resolve to as a
/// member.
pub open spec fn member_from(
    pool: Seq<Constant>,
    name_index: u16,
    descriptor_index: u16,
    attributes: Seq<AttributeRecord>,
) -> Option<MemberModel> {
    match utf8_at(pool, name_index) {
        None => None,
        Some(name) => match descriptor_at_index(pool, descriptor_index) {
            None => None,
            Some(signature) => if all_resolve(pool, attributes) {
                Some(MemberModel { name, signature, attributes: attributes_of(pool, attributes) })
            } else {
                None
            },
        },
    }
}

/// What raw fields or methods resolve to, in their order. Nothing where one
/// of them does not resolve.
pub open spec fn members_of(pool: Seq<Constant>, records: Seq<MemberRecord>) -> Option<
    Seq<MemberModel>,
>
    decreases records.len(),
{
    if records.len() == 0 {
        Some(Seq::empty())
    } else {
        match members_of(pool, records.drop_last()) {
            None => None,
            Some(before) => match member_of(pool, records.last()) {
                None => None,
                Some(last) => Some(before.push(last)),
            },
        }
    }
}

/// Once one member does not resolve, the whole list does not.
pub proof fn lemma_members_failure_stays(pool: Seq<Constant>, records: Seq<MemberRecord>, k: int)
    requires
        0 <= k <= records.len(),
        members_of(pool, records.take(k)) is None,
    ensures
        members_of(pool, records) is None,
    decreases records.len(),
{
    if k < records.len() {
        assert(records.drop_last().take(k) =~= records.take(k));
        lemma_members_failure_stays(pool, records.drop_last(), k);
    } else {
        assert(records.take(k) =~= records);
    }
}

/// What a field and a method have in common.
#[derive(Debug)]
struct Entry<'a> {
    class: &'a JavaClass,
    name: &'a str,
    signature: Signature<'a>,
    attributes: &'a Vec<RawAttributeInfo>,
}

impl<'a> Entry<'a> {
    /// A member is kept only with attributes that resolve.
    #[verifier::type_invariant]
    spec fn attributes_resolve(&self) -> bool {
        all_resolve(self.class@.constant_pool, views(self.attributes@))
    }

    spec fn model(&self) -> MemberModel {
        MemberModel {
            name: self.name@,
            signature: self.signature@,
            attributes: attributes_of(self.class@.constant_pool, views(self.attributes@)),
        }
    }

    /// Resolves the name, the descriptor and the attributes of a member.
    fn new(
        java_class: &'a JavaClass,
        name_index: u16,
        descriptor_index: u16,
        attributes: &'a Vec<RawAttributeInfo>,
    ) -> (r: Result<Entry<'a>, Error>)
        ensures
            match r {
                Ok(entry) => member_from(
                    java_class@.constant_pool,
                    name_index,
                    descriptor_index,
                    views(attributes@),
                ) == Some(entry.model()),
                Err(e) => member_from(
                    java_class@.constant_pool,
                    name_index,
                    descriptor_index,
                    views(attributes@),
                ) is None && member_failure(
                    java_class@.constant_pool,
                    name_index,
                    descriptor_index,
                    views(attributes@),
                    e@,
                ),
            },
    {
        let name = match java_class.get_utf8(name_index) {
            Some(name) => name,
            None => {
                return Err(Error::new(ErrorKind::InvalidReference(name_index)));
            },
        };
        let signature = java_class.get_descriptor(descriptor_index)?;
        match resolve_all(java_class, attributes) {
            Ok(_) => {},
            Err(e) => {
                return Err(Error::new(ErrorKind::InvalidAttribute(owned(e.attribute_name()))));
            },
        }
        Ok(Entry { class: java_class, name, signature, attributes })
    }
}

/// Whether an error is the one that a member fails with: the first of its
/// name, its descriptor and its attributes that does not resolve decides.
pub open spec fn member_failure(
    pool: Seq<Constant>,
    name_index: u16,
    descriptor_index: u16,
    attributes: Seq<AttributeRecord>,
    e: ErrorKind,
) -> bool {
    if utf8_at(pool, name_index) is None {
        e == ErrorKind::InvalidReference(name_index)
    } else if descriptor_at_index(pool, descriptor_index) is None {
        match utf8_at(pool, descriptor_index) {
            None => e == ErrorKind::InvalidReference(descriptor_index),
            Some(text) => e matches ErrorKind::InvalidDescriptor(t) && t@ == text,
        }
    } else {
        !all_resolve(pool, attributes) && exists|i: int|
            #[trigger] first_unresolved(pool, attributes, i) && (e matches ErrorKind::InvalidAttribute(
                name,
            ) && name@ == failing_name(pool, attributes[i].name_index))
    }
}

/// Whether the `i`-th raw member is the first that does not resolve.
pub open spec fn first_broken(pool: Seq<Constant>, records: Seq<MemberRecord>, i: int) -> bool {
    &&& 0 <= i < records.len()
    &&& members_of(pool, records.take(i)) is Some
    &&& member_of(pool, records[i]) is None
}

/// Whether an error is the one that a list of members fails with: that of
/// the first member that does not resolve.
pub open spec fn members_failure(pool: Seq<Constant>, records: Seq<MemberRecord>, e: ErrorKind) -> bool {
    exists|i: int|
        #[trigger] first_broken(pool, records, i) && member_failure(
            pool,
            records[i].name_index,
            records[i].descriptor_index,
            records[i].attributes,
            e,
        )
}

/// A field of a class.
#[derive(Debug)]
pub struct Field<'a> {
    entry: Entry<'a>,
}

impl<'a> View for Field<'a> {
    type V = MemberModel;

    closed spec fn view(&self) -> MemberModel {
        self.entry.model()
    }
}

impl<'a> Field<'a> {
    /// Resolves a raw field of a class.
    pub fn new(field_info: &'a RawFieldInfo, java_class: &'a JavaClass) -> (r: Result<
        Field<'a>,
        Error,
    >)
        ensures
            match r {
                Ok(field) => member_of(java_class@.constant_pool, field_info@) == Some(field@),
                Err(e) => member_of(java_class@.constant_pool, field_info@) is None
                    && member_failure(
                    java_class@.constant_pool,
                    field_info@.name_index,
                    field_info@.descriptor_index,
                    field_info@.attributes,
                    e@,
                ),
            },
    {
        let entry = Entry::new(
            java_class,
            field_info.name_index,
            field_info.descriptor_index,
            &field_info.attributes,
        )?;
        Ok(Field { entry })
    }

    /// The name of the field.
    pub fn name(&self) -> (r: &'a str)
        ensures
            r@ == self@.name,
    {
        self.entry.name
    }

    /// The signature of the field.
    pub fn signature(&self) -> (r: &Signature<'a>)
        ensures
            r@ == self@.signature,
    {
        &self.entry.signature
    }
}

impl<'a> HasAttributes for Field<'a> {
    closed spec fn attribute_pool(&self) -> Seq<Constant> {
        self.entry.class@.constant_pool
    }

    closed spec fn attribute_records(&self) -> Seq<AttributeRecord> {
        views(self.entry.attributes@)
    }

    fn attributes(&self) -> (r: Result<Vec<Attribute<'_>>, ResolveAttributeError>)
        ensures
            r is Ok,
    {
        proof {
            use_type_invariant(&self.entry);
        }
        resolve_all(self.entry.class, self.entry.attributes)
    }
}

/// A method of a class.
#[derive(Debug)]
pub struct Method<'a> {
    entry: Entry<'a>,
}

impl<'a> View for Method<'a> {
    type V = MemberModel;

    closed spec fn view(&self) -> MemberModel {
        self.entry.model()
    }
}

impl<'a> Method<'a> {
    /// Resolves a raw method of a class.
    pub fn new(method_info: &'a RawMethodInfo, java_class: &'a JavaClass) -> (r: Result<
        Method<'a>,
        Error,
    >)
        ensures
            match r {
                Ok(method) => member_of(java_class@.constant_pool, method_info@) == Some(method@),
                Err(e) => member_of(java_class@.constant_pool, method_info@) is None
                    && member_failure(
                    java_class@.constant_pool,
                    method_info@.name_index,
                    method_info@.descriptor_index,
                    method_info@.attributes,
                    e@,
                ),
            },
    {
        let entry = Entry::new(
            java_class,
            method_info.name_index,
            method_info.descriptor_index,
            &method_info.attributes,
        )?;
        Ok(Method { entry })
    }

    /// The name of the method.
    pub fn name(&self) -> (r: &'a str)
        ensures
            r@ == self@.name,
    {
        self.entry.name
    }

    /// The signature of the method.
    pub fn signature(&self) -> (r: &Signature<'a>)
        ensures
            r@ == self@.signature,
    {
        &self.entry.signature
    }
}

impl<'a> HasAttributes for Method<'a> {
    closed spec fn attribute_pool(&self) -> Seq<Constant> {
        self.entry.class@.constant_pool
    }

    closed spec fn attribute_records(&self) -> Seq<AttributeRecord> {
        views(self.entry.attributes@)
    }

    fn attributes(&self) -> (r: Result<Vec<Attribute<'_>>, ResolveAttributeError>)
        ensures
            r is Ok,
    {
        proof {
            use_type_invariant(&self.entry);
        }
        resolve_all(self.entry.class, self.entry.attributes)
    }
}

impl<'a> Field<'a> {
    /// The attributes of a field are those of its model.
    pub proof fn lemma_attributes(&self)
        ensures
            attributes_of(self.attribute_pool(), self.attribute_records()) == self@.attributes,
    {
    }
}

impl<'a> Method<'a> {
    /// The attributes of a method are those of its model.
    pub proof fn lemma_attributes(&self)
        ensures
            attributes_of(self.attribute_pool(), self.attribute_records()) == self@.attributes,
    {
    }
}

impl JavaClass {
    /// The fields that this class declares, in the order of the class file.
    /// The first field that does not resolve makes the whole fail.
    pub fn fields(&self) -> (r: Result<Vec<Field<'_>>, Error>)
        ensures
            match r {
                Ok(list) => members_of(self@.constant_pool, self@.fields) == Some(views(list@)),
                Err(e) => members_of(self@.constant_pool, self@.fields) is None && members_failure(
                    self@.constant_pool,
                    self@.fields,
                    e@,
                ),
            },
    {
        let raw = self.raw();
        let mut list: Vec<Field<'_>> = Vec::new();
        let mut i: usize = 0;
        let ghost pool = self@.constant_pool;
        let ghost all = self@.fields;
        proof {
            lemma_views_empty::<Field<'_>>();
            assert(all.take(0) =~= Seq::<MemberRecord>::empty());
        }
        while i < raw.fields.len()
            invariant
                i <= raw.fields@.len(),
                raw@ == self@,
                pool == self@.constant_pool,
                all == views(raw.fields@),
                all == self@.fields,
                members_of(pool, all.take(i as int)) == Some(views(list@)),
            decreases raw.fields@.len() - i,
        {
            let ghost next = all.take(i + 1);
            proof {
                assert(next.drop_last() =~= all.take(i as int));
                assert(next.last() == raw.fields@[i as int]@);
            }
            match Field::new(&raw.fields[i], self) {
                Ok(field) => {
                    proof {
                        lemma_views_push(list@, field);
                    }
                    list.push(field);
                },
                Err(e) => {
                    proof {
                        lemma_members_failure_stays(pool, all, i + 1);
                        assert(first_broken(pool, all, i as int));
                    }
                    return Err(e);
                },
            }
            i += 1;
        }
        proof {
            assert(all.take(i as int) =~= all);
        }
        Ok(list)
    }

    /// The methods that this class declares, in the order of the class file.
    /// The first method that does not resolve makes the whole fail.
    pub fn methods(&self) -> (r: Result<Vec<Method<'_>>, Error>)
        ensures
            match r {
                Ok(list) => members_of(self@.constant_pool, self@.methods) == Some(views(list@)),
                Err(e) => members_of(self@.constant_pool, self@.methods) is None
                    && members_failure(self@.constant_pool, self@.methods, e@),
            },
    {
        let raw = self.raw();
        let mut list: Vec<Method<'_>> = Vec::new();
        let mut i: usize = 0;
        let ghost pool = self@.constant_pool;
        let ghost all = self@.methods;
        proof {
            lemma_views_empty::<Method<'_>>();
            assert(all.take(0) =~= Seq::<MemberRecord>::empty());
        }
        while i < raw.methods.len()
            invariant
                i <= raw.methods@.len(),
                raw@ == self@,
                pool == self@.constant_pool,
                all == views(raw.methods@),
                all == self@.methods,
                members_of(pool, all.take(i as int)) == Some(views(list@)),
            decreases raw.methods@.len() - i,
        {
            let ghost next = all.take(i + 1);
            proof {
                assert(next.drop_last() =~= all.take(i as int));
                assert(next.last() == raw.methods@[i as int]@);
            }
            match Method::new(&raw.methods[i], self) {
                Ok(method) => {
                    proof {
                        lemma_views_push(list@, method);
                    }
                    list.push(method);
                },
                Err(e) => {
                    proof {
                        lemma_members_failure_stays(pool, all, i + 1);
                        assert(first_broken(pool, all, i as int));
                    }
                    return Err(e);
                },
            }
            i += 1;
        }
        proof {
            assert(all.take(i as int) =~= all);
        }
        Ok(list)
    }
}

impl HasAttributes for JavaClass {
    open spec fn attribute_pool(&self) -> Seq<Constant> {
        self@.constant_pool
    }

    open spec fn attribute_records(&self) -> Seq<AttributeRecord> {
        self@.attributes
    }

    fn attributes(&self) -> (r: Result<Vec<Attribute<'_>>, ResolveAttributeError>) {
        resolve_all(self, &self.raw().attributes)
    }
}

} // verus!
