//! The typed view of a decoded class: names, signatures, attributes, members.

pub mod attributes;
pub mod class;
pub mod class_entries;
pub mod fully_qualified_name;
pub mod signatures;

use crate::bytes::views;
use crate::text::str_eq;
use crate::constant_pool::Constant;
use crate::raw_java_class::AttributeRecord;
use attributes::{
    all_resolve, attributes_of, resolved_as, unresolved_as, Attribute, AttributeModel,
    ResolveAttributeError,
};
use vstd::prelude::*;

verus! {

/// The first attribute of a given name in a list, if there is one.
pub open spec fn first_named(list: Seq<AttributeModel>, name: Seq<char>) -> Option<AttributeModel>
    decreases list.len(),
{
    if list.len() == 0 {
        None
    } else if list[0].name == name {
        Some(list[0])
    } else {
        first_named(list.drop_first(), name)
    }
}

/// What carries attributes can be asked for them. The attributes resolve
/// against the constant pool of the class that they belong to; where one of
/// them does not resolve, asking fails with the first that does not.
pub trait HasAttributes {
    /// The constant pool against which the attributes resolve.
    spec fn attribute_pool(&self) -> Seq<Constant>;

    /// The raw attributes of the value, in their order.
    spec fn attribute_records(&self) -> Seq<AttributeRecord>;

    /// Gets the attributes of the value, resolved, in their order.
    fn attributes(&self) -> (r: Result<Vec<Attribute<'_>>, ResolveAttributeError>)
        ensures
            resolved_as(r, self.attribute_pool(), self.attribute_records()),
    ;

    /// Gets the first attribute of a given name.
    fn get_attribute(&self, name: &str) -> (r: Result<
        Option<Attribute<'_>>,
        ResolveAttributeError,
    >)
        ensures
            match r {
                Ok(found) => all_resolve(self.attribute_pool(), self.attribute_records())
                    && (match found {
                    Some(a) => first_named(
                        attributes_of(self.attribute_pool(), self.attribute_records()),
                        name@,
                    ) == Some(a@),
                    None => first_named(
                        attributes_of(self.attribute_pool(), self.attribute_records()),
                        name@,
                    ) is None,
                }),
                Err(e) => unresolved_as(e@, self.attribute_pool(), self.attribute_records()),
            },
    {
        let mut list = self.attributes()?;
        let ghost all = views(list@);
        let mut i: usize = 0;
        proof {
            assert(all.skip(0) =~= all);
        }
        while i < list.len()
            invariant
                i <= list@.len(),
                all == views(list@),
                all == attributes_of(self.attribute_pool(), self.attribute_records()),
                all_resolve(self.attribute_pool(), self.attribute_records()),
                first_named(all, name@) == first_named(all.skip(i as int), name@),
            decreases list@.len() - i,
        {
            proof {
                assert(all.skip(i as int)[0] == list@[i as int]@);
                assert(all.skip(i as int).drop_first() =~= all.skip(i + 1));
            }
            if str_eq(list[i].attribute_name(), name) {
                return Ok(Some(list.swap_remove(i)));
            }
            i += 1;
        }
        Ok(None)
    }
}

} // verus!
