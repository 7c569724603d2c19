//! The class facade: a read-only view of a decoded class file that resolves
//! names through the constant pool.

use crate::bytes::{lemma_views_empty, lemma_views_push, views};
use crate::constant_pool::values::{text_of, Class};
use crate::constant_pool::{entry_at, Constant, ConstantPool, ConstantPoolInfo};
use crate::error::{Error, ErrorKind};
use crate::raw_java_class::{ClassRecord, RawJavaClass};
use crate::structures::attributes::{
    attribute_of, failing_name, Attribute, ResolveAttributeError,
};
use crate::structures::fully_qualified_name::FQName;
use crate::structures::signatures::{parsed, Descriptor, Signature};
use crate::text::owned;
use vstd::prelude::*;

verus! {

/// The text of the text entry that an index names.
pub open spec fn utf8_at(pool: Seq<Constant>, index: u16) -> Option<Seq<char>> {
    match entry_at(pool, index) {
        Some(Constant::Utf8(bytes)) => text_of(bytes),
        _ => None,
    }
}

/// The text that an index leads to: that of a text entry, or that of the
/// text entry behind a string constant. Only this one step is followed.
pub open spec fn string_at(pool: Seq<Constant>, index: u16) -> Option<Seq<char>> {
    match entry_at(pool, index) {
        Some(Constant::String(v)) => utf8_at(pool, v.string_index),
        _ => utf8_at(pool, index),
    }
}

/// The name of the class reference that an index names.
pub open spec fn class_name_at(pool: Seq<Constant>, index: u16) -> Option<Seq<char>> {
    match entry_at(pool, index) {
        Some(Constant::Class(c)) => string_at(pool, c.name_index),
        _ => None,
    }
}

/// The names of the class references that the indices name, as far as every
/// index before resolves: the first that does not makes the whole fail with
/// that index.
pub open spec fn class_names_at(pool: Seq<Constant>, indices: Seq<u16>) -> Result<
    Seq<Seq<char>>,
    ErrorKind,
>
    decreases indices.len(),
{
    if indices.len() == 0 {
        Ok(Seq::empty())
    } else {
        match class_names_at(pool, indices.drop_last()) {
            Err(e) => Err(e),
            Ok(names) => match class_name_at(pool, indices.last()) {
                None => Err(ErrorKind::InvalidReference(indices.last())),
                Some(name) => Ok(names.push(name)),
            },
        }
    }
}

/// The descriptor that the text entry at an index holds, if the index names
/// a text entry and the text is a descriptor.
pub open spec fn descriptor_at_index(pool: Seq<Constant>, index: u16) -> Option<Descriptor> {
    match utf8_at(pool, index) {
        None => None,
        Some(text) => match parsed(text) {
            Ok(d) => Some(d),
            Err(_) => None,
        },
    }
}

/// A decoded class.
#[derive(Debug, Clone)]
pub struct JavaClass(RawJavaClass);

impl View for JavaClass {
    type V = ClassRecord;

    closed spec fn view(&self) -> ClassRecord {
        self.0@
    }
}

impl JavaClass {
    /// Wraps a raw class file.
    pub fn new(class: RawJavaClass) -> (r: JavaClass)
        ensures
            r@ == class@,
    {
        JavaClass(class)
    }

    /// The raw class file.
    pub fn raw(&self) -> (r: &RawJavaClass)
        ensures
            r@ == self@,
    {
        &self.0
    }

    /// The constant pool of the class.
    pub fn raw_constant_pool(&self) -> (r: &ConstantPool)
        ensures
            r@ == self@.constant_pool,
    {
        &self.0.constant_pool
    }

    /// Gets the entry at an index of the constant pool.
    pub fn get_at_index(&self, index: u16) -> (r: Option<&ConstantPoolInfo>)
        ensures
            match r {
                Some(info) => entry_at(self@.constant_pool, index) == Some(info@),
                None => entry_at(self@.constant_pool, index) is None,
            },
    {
        self.0.constant_pool.get(index)
    }

    /// Gets the text of the text entry at an index.
    pub fn get_utf8(&self, index: u16) -> (r: Option<&str>)
        ensures
            match r {
                Some(s) => utf8_at(self@.constant_pool, index) == Some(s@),
                None => utf8_at(self@.constant_pool, index) is None,
            },
    {
        match self.0.constant_pool.get(index) {
            Some(ConstantPoolInfo::Utf8(text)) => text.as_str(),
            _ => None,
        }
    }

    /// Gets the text at an index, following a string constant to its text.
    pub fn get_string(&self, index: u16) -> (r: Option<&str>)
        ensures
            match r {
                Some(s) => string_at(self@.constant_pool, index) == Some(s@),
                None => string_at(self@.constant_pool, index) is None,
            },
    {
        match self.0.constant_pool.get(index) {
            Some(ConstantPoolInfo::String(v)) => self.get_utf8(v.string_index),
            Some(ConstantPoolInfo::Utf8(text)) => text.as_str(),
            _ => None,
        }
    }

    /// Gets the class reference at an index.
    pub fn get_class_info(&self, index: u16) -> (r: Option<&Class>)
        ensures
            match r {
                Some(c) => entry_at(self@.constant_pool, index) == Some(Constant::Class(*c)),
                None => !(entry_at(self@.constant_pool, index) is Some && entry_at(
                    self@.constant_pool,
                    index,
                )->Some_0 is Class),
            },
    {
        match self.0.constant_pool.get(index) {
            Some(ConstantPoolInfo::Class(class)) => Some(class),
            _ => None,
        }
    }

    /// Gets the name of the class reference at an index.
    pub fn get_class_name(&self, index: u16) -> (r: Result<FQName<'_>, Error>)
        ensures
            match r {
                Ok(name) => class_name_at(self@.constant_pool, index) == Some(name@),
                Err(e) => class_name_at(self@.constant_pool, index) is None && e@
                    == ErrorKind::InvalidReference(index),
            },
    {
        match self.get_class_info(index) {
            Some(class) => match self.get_string(class.name_index) {
                Some(name) => Ok(FQName::new(name)),
                None => Err(Error::new(ErrorKind::InvalidReference(index))),
            },
            None => Err(Error::new(ErrorKind::InvalidReference(index))),
        }
    }

    /// Gets the descriptor that the text entry at an index holds.
    ///
    /// Fails with [`ErrorKind::InvalidReference`] where the index names no
    /// text entry, and with [`ErrorKind::InvalidDescriptor`] and the text
    /// where the text is no descriptor.
    pub fn get_descriptor(&self, index: u16) -> (r: Result<Signature<'_>, Error>)
        ensures
            match r {
                Ok(sig) => descriptor_at_index(self@.constant_pool, index) == Some(sig@),
                Err(e) => descriptor_at_index(self@.constant_pool, index) is None && (match utf8_at(
                    self@.constant_pool,
                    index,
                ) {
                    None => e@ == ErrorKind::InvalidReference(index),
                    Some(text) => e@ matches ErrorKind::InvalidDescriptor(t) && t@ == text,
                }),
            },
    {
        match self.get_utf8(index) {
            None => Err(Error::new(ErrorKind::InvalidReference(index))),
            Some(text) => match Signature::from_str(text) {
                Ok(sig) => Ok(sig),
                Err(_) => Err(Error::new(ErrorKind::InvalidDescriptor(owned(text)))),
            },
        }
    }

    /// Resolves a raw attribute of this class: its name through the constant
    /// pool, its payload by its name.
    pub fn create_attribute<'a>(&'a self, name_index: u16, info: &'a [u8]) -> (r: Result<
        Attribute<'a>,
        ResolveAttributeError,
    >)
        ensures
            match r {
                Ok(a) => attribute_of(self@.constant_pool, name_index, info@) == Some(a@),
                Err(e) => attribute_of(self@.constant_pool, name_index, info@) is None && e@
                    == failing_name(self@.constant_pool, name_index),
            },
    {
        match self.get_string(name_index) {
            None => Err(ResolveAttributeError::new("<unknown>")),
            Some(name) => Attribute::new(self, name, info),
        }
    }

    /// The name of this class.
    pub fn this(&self) -> (r: Result<FQName<'_>, Error>)
        ensures
            match r {
                Ok(name) => class_name_at(self@.constant_pool, self@.this_class) == Some(name@),
                Err(e) => class_name_at(self@.constant_pool, self@.this_class) is None && e@
                    == ErrorKind::InvalidReference(self@.this_class),
            },
    {
        self.get_class_name(self.0.this_class)
    }

    /// The name of the super class of this class.
    pub fn super_name(&self) -> (r: Result<FQName<'_>, Error>)
        ensures
            match r {
                Ok(name) => class_name_at(self@.constant_pool, self@.super_class) == Some(name@),
                Err(e) => class_name_at(self@.constant_pool, self@.super_class) is None && e@
                    == ErrorKind::InvalidReference(self@.super_class),
            },
    {
        self.get_class_name(self.0.super_class)
    }

    /// The names of the interfaces that this class implements, in the order
    /// in which the class file lists them.
    pub fn interfaces(&self) -> (r: Result<Vec<FQName<'_>>, Error>)
        ensures
            match r {
                Ok(names) => class_names_at(self@.constant_pool, self@.interfaces) == Ok::<
                    Seq<Seq<char>>,
                    ErrorKind,
                >(views(names@)),
                Err(e) => class_names_at(self@.constant_pool, self@.interfaces) == Err::<
                    Seq<Seq<char>>,
                    ErrorKind,
                >(e@),
            },
    {
        let mut names: Vec<FQName<'_>> = Vec::new();
        let mut i: usize = 0;
        proof {
            lemma_views_empty::<FQName<'_>>();
            assert(self@.interfaces.take(0) =~= Seq::<u16>::empty());
        }
        while i < self.0.interfaces.len()
            invariant
                i <= self.0.interfaces@.len(),
                self.0.interfaces@ == self@.interfaces,
                class_names_at(self@.constant_pool, self@.interfaces.take(i as int)) == Ok::<
                    Seq<Seq<char>>,
                    ErrorKind,
                >(views(names@)),
            decreases self.0.interfaces@.len() - i,
        {
            let ghost next = self@.interfaces.take(i + 1);
            proof {
                assert(next.drop_last() =~= self@.interfaces.take(i as int));
                assert(next.last() == self@.interfaces[i as int]);
            }
            match self.get_class_name(self.0.interfaces[i]) {
                Ok(name) => {
                    proof {
                        lemma_views_push(names@, name);
                    }
                    names.push(name);
                },
                Err(e) => {
                    proof {
                        lemma_class_names_failure_stays(
                            self@.constant_pool,
                            self@.interfaces,
                            i + 1,
                        );
                    }
                    return Err(e);
                },
            }
            i += 1;
        }
        proof {
            assert(self@.interfaces.take(i as int) =~= self@.interfaces);
        }
        Ok(names)
    }
}

/// Once the first `k` indices fail to resolve, the whole list fails in the
/// same way.
pub proof fn lemma_class_names_failure_stays(pool: Seq<Constant>, indices: Seq<u16>, k: int)
    requires
        0 <= k <= indices.len(),
        class_names_at(pool, indices.take(k)) is Err,
    ensures
        class_names_at(pool, indices) == class_names_at(pool, indices.take(k)),
    decreases indices.len(),
{
    if k < indices.len() {
        assert(indices.drop_last().take(k) =~= indices.take(k));
        lemma_class_names_failure_stays(pool, indices.drop_last(), k);
    } else {
        assert(indices.take(k) =~= indices);
    }
}

} // verus!
