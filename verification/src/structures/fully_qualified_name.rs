//! Fully qualified names: identifier paths delimited by `/` or `.`.
//!
//! A name exists in two forms that compare by their text: [`FQName`] borrows
//! the text, [`FQNameBuf`] owns it.

use crate::classpath::{split, split_text};
use crate::bytes::views;
use crate::text::{owned, str_eq};
use std::path::PathBuf;
use vstd::prelude::*;
use vstd::std_specs::cmp::PartialEqSpecImpl;

verus! {

/// `std::path::PathBuf`, taken as it is: the library makes paths and hands
/// them out, and reads nothing inside them.
#[verifier::external_type_specification]
#[verifier::external_body]
pub struct ExPathBuf(PathBuf);

/// The file-system path that `std::path::PathBuf::from` makes of a text.
pub uninterp spec fn path_of_text(text: Seq<char>) -> PathBuf;

/// The file-system path that `PathBuf::from_iter` makes of components.
pub uninterp spec fn path_of_components(parts: Seq<Seq<char>>) -> PathBuf;

/// Makes a file-system path of a string slice with `std::path::PathBuf::from`,
/// which copies the text unchanged. The verifier sees nothing inside a path:
/// the result is only named.
#[verifier::external_body]
fn path_of(text: &str) -> (r: PathBuf)
    ensures
        r == path_of_text(text@),
{
    PathBuf::from(text)
}

/// Makes a file-system path of its components with `PathBuf::from_iter`,
/// which pushes one component behind the other. The verifier sees nothing
/// inside a path: the result is only named.
#[verifier::external_body]
fn path_of_parts(parts: &Vec<String>) -> (r: PathBuf)
    ensures
        r == path_of_components(views(parts@)),
{
    PathBuf::from_iter(parts.iter())
}

/// A fully qualified name over a string slice, as a set of identifiers
/// separated by `/`.
#[derive(Clone, Copy, Debug, Hash, Default)]
pub struct FullyQualifiedName<'a> {
    fcq: &'a str,
}

impl<'a> View for FullyQualifiedName<'a> {
    type V = Seq<char>;

    closed spec fn view(&self) -> Seq<char> {
        self.fcq@
    }
}

impl<'a> FullyQualifiedName<'a> {
    /// Creates a fully qualified name from a string.
    pub fn new(fcq: &'a str) -> (r: FullyQualifiedName<'a>)
        ensures
            r@ == fcq@,
    {
        FullyQualifiedName { fcq }
    }

    /// The text of the name.
    pub fn as_str(&self) -> (r: &'a str)
        ensures
            r@ == self@,
    {
        self.fcq
    }

    /// The identifiers of the name: the pieces between its `/`.
    pub fn components(&self) -> (r: Vec<String>)
        ensures
            views(r@) == split(self@, '/'),
    {
        split_text(self.fcq, '/')
    }

    /// Gets the fully qualified name as a path, one component for each
    /// identifier.
    pub fn as_path(&self) -> (r: PathBuf)
        ensures
            r == path_of_components(split(self@, '/')),
    {
        let parts = self.components();
        path_of_parts(&parts)
    }
}

impl<'a, 'b> PartialEq<FullyQualifiedName<'b>> for FullyQualifiedName<'a> {
    fn eq(&self, other: &FullyQualifiedName<'b>) -> (r: bool) {
        str_eq(self.fcq, other.fcq)
    }
}

impl<'a, 'b> PartialEqSpecImpl<FullyQualifiedName<'b>> for FullyQualifiedName<'a> {
    open spec fn obeys_eq_spec() -> bool {
        true
    }

    open spec fn eq_spec(&self, other: &FullyQualifiedName<'b>) -> bool {
        self@ == other@
    }
}

impl<'a> Eq for FullyQualifiedName<'a> {}

impl<'a, 'b> PartialEq<&'b str> for FullyQualifiedName<'a> {
    fn eq(&self, other: &&'b str) -> (r: bool) {
        str_eq(self.fcq, *other)
    }
}

impl<'a, 'b> PartialEqSpecImpl<&'b str> for FullyQualifiedName<'a> {
    open spec fn obeys_eq_spec() -> bool {
        true
    }

    open spec fn eq_spec(&self, other: &&'b str) -> bool {
        self@ == other@
    }
}

/// A value that can be read as a fully qualified name.
pub trait AsFullyQualifiedName {
    /// The text of the name.
    spec fn name_text(&self) -> Seq<char>;

    /// Borrows the value as a fully qualified name.
    fn as_fcq(&self) -> (r: FQName<'_>)
        ensures
            r@ == self.name_text(),
    ;
}

impl AsFullyQualifiedName for str {
    open spec fn name_text(&self) -> Seq<char> {
        self@
    }

    fn as_fcq(&self) -> (r: FQName<'_>) {
        FQName::new(self)
    }
}

/// A borrowed fully qualified name.
#[derive(Clone, Copy, Debug, Hash)]
pub struct FQName<'a> {
    fcq: &'a str,
}

impl<'a> View for FQName<'a> {
    type V = Seq<char>;

    closed spec fn view(&self) -> Seq<char> {
        self.fcq@
    }
}

impl<'a> FQName<'a> {
    /// Creates a fully qualified name over a string slice.
    pub fn new(fcq: &'a str) -> (r: FQName<'a>)
        ensures
            r@ == fcq@,
    {
        FQName { fcq }
    }

    /// The text of the name.
    pub fn as_str(&self) -> (r: &'a str)
        ensures
            r@ == self@,
    {
        self.fcq
    }

    /// The name as a relative file-system path.
    pub fn as_path(&self) -> (r: PathBuf)
        ensures
            r == path_of_text(self@),
    {
        path_of(self.fcq)
    }

    /// Copies the name into an owned buffer.
    pub fn to_fqname_buf(&self) -> (r: FQNameBuf)
        ensures
            r@ == self@,
    {
        FQNameBuf { buf: owned(self.fcq) }
    }

    /// Copies the name into an owned buffer.
    pub fn to_owned(&self) -> (r: FQNameBuf)
        ensures
            r@ == self@,
    {
        self.to_fqname_buf()
    }
}

impl<'a, 'b> PartialEq<FQName<'b>> for FQName<'a> {
    fn eq(&self, other: &FQName<'b>) -> (r: bool) {
        str_eq(self.fcq, other.fcq)
    }
}

impl<'a, 'b> PartialEqSpecImpl<FQName<'b>> for FQName<'a> {
    open spec fn obeys_eq_spec() -> bool {
        true
    }

    open spec fn eq_spec(&self, other: &FQName<'b>) -> bool {
        self@ == other@
    }
}

impl<'a> Eq for FQName<'a> {}

impl<'a> PartialEq<FQNameBuf> for FQName<'a> {
    fn eq(&self, other: &FQNameBuf) -> (r: bool) {
        str_eq(self.fcq, other.as_str())
    }
}

impl<'a> PartialEqSpecImpl<FQNameBuf> for FQName<'a> {
    open spec fn obeys_eq_spec() -> bool {
        true
    }

    open spec fn eq_spec(&self, other: &FQNameBuf) -> bool {
        self@ == other@
    }
}

impl<'a> PartialEq<str> for FQName<'a> {
    fn eq(&self, other: &str) -> (r: bool) {
        str_eq(self.fcq, other)
    }
}

impl<'a> PartialEqSpecImpl<str> for FQName<'a> {
    open spec fn obeys_eq_spec() -> bool {
        true
    }

    open spec fn eq_spec(&self, other: &str) -> bool {
        self@ == other@
    }
}

impl<'a, 'b> PartialEq<&'b str> for FQName<'a> {
    fn eq(&self, other: &&'b str) -> (r: bool) {
        str_eq(self.fcq, *other)
    }
}

impl<'a, 'b> PartialEqSpecImpl<&'b str> for FQName<'a> {
    open spec fn obeys_eq_spec() -> bool {
        true
    }

    open spec fn eq_spec(&self, other: &&'b str) -> bool {
        self@ == other@
    }
}

impl<'a> PartialEq<String> for FQName<'a> {
    fn eq(&self, other: &String) -> (r: bool) {
        str_eq(self.fcq, other.as_str())
    }
}

impl<'a> PartialEqSpecImpl<String> for FQName<'a> {
    open spec fn obeys_eq_spec() -> bool {
        true
    }

    open spec fn eq_spec(&self, other: &String) -> bool {
        self@ == other@
    }
}

impl<'a> AsFullyQualifiedName for FQName<'a> {
    open spec fn name_text(&self) -> Seq<char> {
        self@
    }

    fn as_fcq(&self) -> (r: FQName<'_>) {
        *self
    }
}

/// An owned fully qualified name.
#[derive(Clone, Debug, Hash)]
pub struct FQNameBuf {
    buf: String,
}

impl View for FQNameBuf {
    type V = Seq<char>;

    closed spec fn view(&self) -> Seq<char> {
        self.buf@
    }
}

impl FQNameBuf {
    /// Borrows the owned name.
    pub fn as_fq_name(&self) -> (r: FQName<'_>)
        ensures
            r@ == self@,
    {
        FQName::new(self.buf.as_str())
    }

    /// The text of the name.
    pub fn as_str(&self) -> (r: &str)
        ensures
            r@ == self@,
    {
        self.buf.as_str()
    }

    /// The name as a relative file-system path.
    pub fn as_path(&self) -> (r: PathBuf)
        ensures
            r == path_of_text(self@),
    {
        path_of(self.buf.as_str())
    }

    /// Copies the name.
    pub fn duplicate(&self) -> (r: FQNameBuf)
        ensures
            r@ == self@,
    {
        FQNameBuf { buf: owned(self.buf.as_str()) }
    }
}

impl PartialEq<FQNameBuf> for FQNameBuf {
    fn eq(&self, other: &FQNameBuf) -> (r: bool) {
        str_eq(self.buf.as_str(), other.buf.as_str())
    }
}

impl PartialEqSpecImpl<FQNameBuf> for FQNameBuf {
    open spec fn obeys_eq_spec() -> bool {
        true
    }

    open spec fn eq_spec(&self, other: &FQNameBuf) -> bool {
        self@ == other@
    }
}

impl Eq for FQNameBuf {}

impl<'a> PartialEq<FQName<'a>> for FQNameBuf {
    fn eq(&self, other: &FQName<'a>) -> (r: bool) {
        str_eq(self.buf.as_str(), other.as_str())
    }
}

impl<'a> PartialEqSpecImpl<FQName<'a>> for FQNameBuf {
    open spec fn obeys_eq_spec() -> bool {
        true
    }

    open spec fn eq_spec(&self, other: &FQName<'a>) -> bool {
        self@ == other@
    }
}

impl PartialEq<str> for FQNameBuf {
    fn eq(&self, other: &str) -> (r: bool) {
        str_eq(self.buf.as_str(), other)
    }
}

impl PartialEqSpecImpl<str> for FQNameBuf {
    open spec fn obeys_eq_spec() -> bool {
        true
    }

    open spec fn eq_spec(&self, other: &str) -> bool {
        self@ == other@
    }
}

impl<'b> PartialEq<&'b str> for FQNameBuf {
    fn eq(&self, other: &&'b str) -> (r: bool) {
        str_eq(self.buf.as_str(), *other)
    }
}

impl<'b> PartialEqSpecImpl<&'b str> for FQNameBuf {
    open spec fn obeys_eq_spec() -> bool {
        true
    }

    open spec fn eq_spec(&self, other: &&'b str) -> bool {
        self@ == other@
    }
}

impl PartialEq<String> for FQNameBuf {
    fn eq(&self, other: &String) -> (r: bool) {
        str_eq(self.buf.as_str(), other.as_str())
    }
}

impl PartialEqSpecImpl<String> for FQNameBuf {
    open spec fn obeys_eq_spec() -> bool {
        true
    }

    open spec fn eq_spec(&self, other: &String) -> bool {
        self@ == other@
    }
}

impl AsFullyQualifiedName for FQNameBuf {
    open spec fn name_text(&self) -> Seq<char> {
        self@
    }

    fn as_fcq(&self) -> (r: FQName<'_>) {
        self.as_fq_name()
    }
}

/// Equality does not depend on the form of a name: if a borrowed and an
/// owned name hold the same text, either can stand for the other on either
/// side of a comparison.
pub proof fn lemma_name_forms_agree(a: FQName, b: FQNameBuf, c: FQName, d: FQNameBuf)
    requires
        a@ == b@,
        c@ == d@,
    ensures
        vstd::std_specs::cmp::PartialEqSpec::eq_spec(&a, &c)
            == vstd::std_specs::cmp::PartialEqSpec::eq_spec(&b, &d),
        vstd::std_specs::cmp::PartialEqSpec::eq_spec(&b, &c)
            == vstd::std_specs::cmp::PartialEqSpec::eq_spec(&a, &c),
        vstd::std_specs::cmp::PartialEqSpec::eq_spec(&b, &a),
        vstd::std_specs::cmp::PartialEqSpec::eq_spec(&a, &b),
{
}

} // verus!
