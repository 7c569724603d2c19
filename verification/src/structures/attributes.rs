//! Attributes: named blocks of metadata attached to a class, a field, a
//! method or a block of code.
//!
//! An attribute is resolved by its name. A name that is not known is never
//! an error: the attribute then holds its raw bytes.

use crate::bytes::{
    be_bytes, be_u16, be_u16_pair, be_u32, counted, lemma_repeat_failure_stays, lemma_views_empty,
    lemma_views_push, repeat, take_bytes, take_u16, take_u16_pair, take_u32, views, Decoded,
};
use crate::constant_pool::parser::{attribute_item, parse_attributes};
use crate::constant_pool::{entry_at, Constant, ConstantPoolInfo};
use crate::error::{Error, ErrorKind};
use crate::raw_java_class::{AttributeRecord, RawAttributeInfo};
use crate::structures::class::{string_at, utf8_at, JavaClass};
use crate::structures::fully_qualified_name::FQName;
use crate::structures::signatures::{parsed, Descriptor, Signature};
use crate::structures::HasAttributes;
use crate::text::{owned, str_eq};
use vstd::prelude::*;
use vstd::string::*;

verus! {

/// What an exception handler holds.
pub struct ExceptionModel {
    pub start_pc: u16,
    pub end_pc: u16,
    pub handler_pc: u16,
    pub catch_type: Option<Seq<char>>,
}

/// What a block of code holds. It keeps the constant pool of the class that
/// it belongs to: its nested attributes resolve against that pool.
pub struct CodeModel {
    pub pool: Seq<Constant>,
    pub max_stack: u16,
    pub max_locals: u16,
    pub code: Seq<u8>,
    pub exception_table: Seq<ExceptionModel>,
    pub attributes: Seq<AttributeRecord>,
}

/// What the payload of an attribute holds.
pub enum AttributeKindModel {
    SourceFile(Seq<char>),
    Signature(Descriptor),
    Code(CodeModel),
    LineNumberTable(Seq<(u16, u16)>),
    Deprecated,
    Unknown(Seq<u8>),
}

/// What an attribute holds.
pub struct AttributeModel {
    pub name: Seq<char>,
    pub kind: AttributeKindModel,
}

/// The name that an index leads to: the text of a text entry, or the text
/// behind a class reference.
pub open spec fn name_at(pool: Seq<Constant>, index: u16) -> Option<Seq<char>> {
    match entry_at(pool, index) {
        Some(Constant::Class(c)) => utf8_at(pool, c.name_index),
        _ => utf8_at(pool, index),
    }
}

/// The type that an exception handler catches: none for index 0, which
/// catches all, else the name that the index leads to.
pub open spec fn catch_type_at(pool: Seq<Constant>, index: u16) -> Result<
    Option<Seq<char>>,
    ErrorKind,
> {
    if index == 0 {
        Ok(None)
    } else {
        match name_at(pool, index) {
            Some(name) => Ok(Some(name)),
            None => Err(ErrorKind::InvalidReference(index)),
        }
    }
}

/// The exception handler laid out at `at`: the first and the last offset of
/// the code that it guards, the offset of the handler, and the index of the
/// type that it catches.
pub open spec fn exception_at(pool: Seq<Constant>, s: Seq<u8>, at: int) -> Decoded<ExceptionModel> {
    match take_u16_pair(s, at) {
        Err(e) => Err(e),
        Ok(((start_pc, end_pc), at1)) => match take_u16_pair(s, at1) {
            Err(e) => Err(e),
            Ok(((handler_pc, catch_index), end)) => match catch_type_at(pool, catch_index) {
                Err(e) => Err(e),
                Ok(catch_type) => Ok(
                    (ExceptionModel { start_pc, end_pc, handler_pc, catch_type }, end),
                ),
            },
        },
    }
}

/// [`exception_at`] as a value, for [`repeat`].
pub open spec fn exception_item(pool: Seq<Constant>) -> spec_fn(Seq<u8>, int) -> Decoded<
    ExceptionModel,
> {
    |s: Seq<u8>, at: int| exception_at(pool, s, at)
}

/// The block of code laid out in `s`: the greatest depth of the operand
/// stack, the number of local variables, the length of the bytecode as a
/// 32-bit number and the bytecode, then the counted exception handlers and
/// the counted raw attributes. Bytes behind the layout are not read. The
/// code belongs to the class whose constant pool it was decoded against.
pub open spec fn code_of(pool: Seq<Constant>, s: Seq<u8>) -> Result<CodeModel, ErrorKind> {
    match take_u16_pair(s, 0) {
        Err(e) => Err(e),
        Ok(((max_stack, max_locals), at1)) => match take_u32(s, at1) {
            Err(e) => Err(e),
            Ok((code_length, at2)) => match take_bytes(s, at2, code_length as int) {
                Err(e) => Err(e),
                Ok((code, at3)) => match counted(exception_item(pool), s, at3) {
                    Err(e) => Err(e),
                    Ok(((exception_count, exception_table), at4)) => match counted(
                        attribute_item(),
                        s,
                        at4,
                    ) {
                        Err(e) => Err(e),
                        Ok(((attributes_count, attributes), end)) => Ok(
                            CodeModel {
                                pool,
                                max_stack,
                                max_locals,
                                code,
                                exception_table,
                                attributes,
                            },
                        ),
                    },
                },
            },
        },
    }
}

/// [`take_u16_pair`] as a value, for [`repeat`].
pub open spec fn line_item() -> spec_fn(Seq<u8>, int) -> Decoded<(u16, u16)> {
    |s: Seq<u8>, at: int| take_u16_pair(s, at)
}

/// The line number table laid out in `s`: a count, and that many pairs of
/// the offset at which a line starts and the number of the line. Bytes behind
/// the layout are not read.
pub open spec fn line_numbers_of(s: Seq<u8>) -> Result<Seq<(u16, u16)>, ErrorKind> {
    match counted(line_item(), s, 0) {
        Err(e) => Err(e),
        Ok(((count, lines), end)) => Ok(lines),
    }
}

/// What the payload of an attribute with a given name holds, or nothing
/// where a name that is known has a payload that does not resolve.
///
/// `SourceFile` and `Signature` hold the index of their text in their first
/// two bytes; `Code` and `LineNumberTable` hold their own layout;
/// `Deprecated` holds nothing. Whatever goes by another name holds its bytes
/// as they are.
pub open spec fn kind_of(pool: Seq<Constant>, name: Seq<char>, bytes: Seq<u8>) -> Option<
    AttributeKindModel,
> {
    if name == "SourceFile"@ {
        match take_u16(bytes, 0) {
            Err(_) => None,
            Ok((index, _)) => match string_at(pool, index) {
                None => None,
                Some(path) => Some(AttributeKindModel::SourceFile(path)),
            },
        }
    } else if name == "Signature"@ {
        match take_u16(bytes, 0) {
            Err(_) => None,
            Ok((index, _)) => match string_at(pool, index) {
                None => None,
                Some(text) => match parsed(text) {
                    Err(_) => None,
                    Ok(d) => Some(AttributeKindModel::Signature(d)),
                },
            },
        }
    } else if name == "Code"@ {
        match code_of(pool, bytes) {
            Err(_) => None,
            Ok(code) => Some(AttributeKindModel::Code(code)),
        }
    } else if name == "LineNumberTable"@ {
        match line_numbers_of(bytes) {
            Err(_) => None,
            Ok(lines) => Some(AttributeKindModel::LineNumberTable(lines)),
        }
    } else if name == "Deprecated"@ {
        Some(AttributeKindModel::Deprecated)
    } else {
        Some(AttributeKindModel::Unknown(bytes))
    }
}

/// Whether attributes of this name have a layout that the library decodes.
pub open spec fn is_known_name(name: Seq<char>) -> bool {
    ||| name == "SourceFile"@
    ||| name == "Signature"@
    ||| name == "Code"@
    ||| name == "LineNumberTable"@
    ||| name == "Deprecated"@
}

/// An attribute whose name is not known never fails to resolve: it comes
/// out as unknown, with its bytes as they were.
pub proof fn lemma_unknown_attribute_is_kept(pool: Seq<Constant>, name: Seq<char>, bytes: Seq<u8>)
    requires
        !is_known_name(name),
    ensures
        kind_of(pool, name, bytes) == Some(AttributeKindModel::Unknown(bytes)),
{
}

/// What a raw attribute resolves to: its name is the text at its name index,
/// its payload is read by that name. Nothing where either fails.
pub open spec fn attribute_of(pool: Seq<Constant>, name_index: u16, info: Seq<u8>) -> Option<
    AttributeModel,
> {
    match string_at(pool, name_index) {
        None => None,
        Some(name) => match kind_of(pool, name, info) {
            None => None,
            Some(kind) => Some(AttributeModel { name, kind }),
        },
    }
}

/// The raw attributes that resolve, resolved, in their order.
pub open spec fn attributes_of(pool: Seq<Constant>, records: Seq<AttributeRecord>) -> Seq<
    AttributeModel,
>
    decreases records.len(),
{
    if records.len() == 0 {
        Seq::empty()
    } else {
        let before = attributes_of(pool, records.drop_last());
        match attribute_of(pool, records.last().name_index, records.last().info) {
            Some(a) => before.push(a),
            None => before,
        }
    }
}

/// The name under which a raw attribute fails: its own, or `<unknown>`
/// where not even its name resolves.
pub open spec fn failing_name(pool: Seq<Constant>, name_index: u16) -> Seq<char> {
    match string_at(pool, name_index) {
        Some(name) => name,
        None => "<unknown>"@,
    }
}

/// Whether the `i`-th raw attribute is the first that does not resolve.
pub open spec fn first_unresolved(pool: Seq<Constant>, records: Seq<AttributeRecord>, i: int) -> bool {
    &&& 0 <= i < records.len()
    &&& all_resolve(pool, records.take(i))
    &&& attribute_of(pool, records[i].name_index, records[i].info) is None
}

/// Whether an error is the one that resolving a list of raw attributes fails
/// with: the failing name of the first that does not resolve.
pub open spec fn unresolved_as(
    e: Seq<char>,
    pool: Seq<Constant>,
    records: Seq<AttributeRecord>,
) -> bool {
    &&& !all_resolve(pool, records)
    &&& exists|i: int|
        #[trigger] first_unresolved(pool, records, i) && e == failing_name(
            pool,
            records[i].name_index,
        )
}

/// Whether a list of raw attributes was resolved as it must be: each of them
/// in its order where all resolve, else the error of the first that does
/// not.
pub open spec fn resolved_as(
    r: Result<Vec<Attribute<'_>>, ResolveAttributeError>,
    pool: Seq<Constant>,
    records: Seq<AttributeRecord>,
) -> bool {
    match r {
        Ok(list) => all_resolve(pool, records) && views(list@) == attributes_of(pool, records),
        Err(e) => unresolved_as(e@, pool, records),
    }
}

/// Whether every raw attribute resolves.
pub open spec fn all_resolve(pool: Seq<Constant>, records: Seq<AttributeRecord>) -> bool {
    forall|i: int|
        0 <= i < records.len() ==> (#[trigger] attribute_of(
            pool,
            records[i].name_index,
            records[i].info,
        )) is Some
}

/// An attribute: its name and what its payload holds.
#[derive(Debug)]
pub struct Attribute<'a> {
    attribute_name: &'a str,
    kind: AttributeKind<'a>,
}

/// The kind of an attribute, with what it holds.
#[derive(Debug)]
pub enum AttributeKind<'a> {
    /// The path of the source file.
    SourceFile(&'a str),
    /// A signature.
    Signature(Signature<'a>),
    /// Bytecode.
    Code(Code<'a>),
    /// A table that maps offsets of the bytecode to lines of the source.
    LineNumberTable(LineNumberTable),
    /// A marker of deprecation.
    Deprecated,
    /// An attribute whose name is not known, with its raw bytes.
    Unknown(&'a [u8]),
}

impl<'a> View for AttributeKind<'a> {
    type V = AttributeKindModel;

    open spec fn view(&self) -> AttributeKindModel {
        match *self {
            AttributeKind::SourceFile(path) => AttributeKindModel::SourceFile(path@),
            AttributeKind::Signature(sig) => AttributeKindModel::Signature(sig@),
            AttributeKind::Code(code) => AttributeKindModel::Code(code@),
            AttributeKind::LineNumberTable(table) => AttributeKindModel::LineNumberTable(table@),
            AttributeKind::Deprecated => AttributeKindModel::Deprecated,
            AttributeKind::Unknown(bytes) => AttributeKindModel::Unknown(bytes@),
        }
    }
}

impl<'a> View for Attribute<'a> {
    type V = AttributeModel;

    closed spec fn view(&self) -> AttributeModel {
        AttributeModel { name: self.attribute_name@, kind: self.kind@ }
    }
}

impl<'a> Attribute<'a> {
    /// Resolves the payload of an attribute by its name, against the
    /// constant pool of its class.
    ///
    /// Fails only where the name is known and the payload does not resolve;
    /// the error then holds the name.
    pub fn new(class: &'a JavaClass, attribute_name: &'a str, bytes: &'a [u8]) -> (r: Result<
        Attribute<'a>,
        ResolveAttributeError,
    >)
        ensures
            match r {
                Ok(a) => kind_of(class@.constant_pool, attribute_name@, bytes@) == Some(a@.kind)
                    && a@.name == attribute_name@,
                Err(e) => kind_of(class@.constant_pool, attribute_name@, bytes@) is None && e@
                    == attribute_name@,
            },
            !is_known_name(attribute_name@) ==> r is Ok,
    {
        let kind = if str_eq(attribute_name, "SourceFile") {
            match be_u16(bytes, 0) {
                Err(_) => {
                    return Err(ResolveAttributeError::new(attribute_name));
                },
                Ok((index, _)) => match class.get_string(index) {
                    None => {
                        return Err(ResolveAttributeError::new(attribute_name));
                    },
                    Some(path) => AttributeKind::SourceFile(path),
                },
            }
        } else if str_eq(attribute_name, "Signature") {
            match be_u16(bytes, 0) {
                Err(_) => {
                    return Err(ResolveAttributeError::new(attribute_name));
                },
                Ok((index, _)) => match class.get_string(index) {
                    None => {
                        return Err(ResolveAttributeError::new(attribute_name));
                    },
                    Some(text) => match Signature::new(text) {
                        Err(_) => {
                            return Err(ResolveAttributeError::new(attribute_name));
                        },
                        Ok(sig) => AttributeKind::Signature(sig),
                    },
                },
            }
        } else if str_eq(attribute_name, "Code") {
            match parse_code_attr(bytes, class) {
                Err(_) => {
                    return Err(ResolveAttributeError::new(attribute_name));
                },
                Ok(code) => AttributeKind::Code(code),
            }
        } else if str_eq(attribute_name, "LineNumberTable") {
            match parse_line_numbers(bytes) {
                Err(_) => {
                    return Err(ResolveAttributeError::new(attribute_name));
                },
                Ok(table) => AttributeKind::LineNumberTable(table),
            }
        } else if str_eq(attribute_name, "Deprecated") {
            AttributeKind::Deprecated
        } else {
            AttributeKind::Unknown(bytes)
        };
        Ok(Attribute { attribute_name, kind })
    }

    /// Gets the name of the attribute.
    pub fn attribute_name(&self) -> (r: &'a str)
        ensures
            r@ == self@.name,
    {
        self.attribute_name
    }

    /// Gets the kind of the attribute, with what it holds. An attribute whose
    /// name is not known is of the kind [`AttributeKind::Unknown`].
    pub fn kind(&self) -> (r: &AttributeKind<'a>)
        ensures
            r@ == self@.kind,
    {
        &self.kind
    }
}

/// The error of an attribute that could not be resolved: it holds the name
/// of the attribute.
#[derive(Debug)]
pub struct ResolveAttributeError(String);

impl View for ResolveAttributeError {
    type V = Seq<char>;

    closed spec fn view(&self) -> Seq<char> {
        self.0@
    }
}

impl ResolveAttributeError {
    /// Creates the error for the attribute of a given name.
    pub fn new(name: &str) -> (r: ResolveAttributeError)
        ensures
            r@ == name@,
    {
        ResolveAttributeError(owned(name))
    }

    /// The name of the attribute that could not be resolved.
    pub fn attribute_name(&self) -> (r: &str)
        ensures
            r@ == self@,
    {
        self.0.as_str()
    }

    /// The message of the error.
    pub fn to_string(&self) -> (r: String)
        ensures
            r@ == "An error occurred while resolving attribute "@ + self@,
    {
        let mut out = owned("An error occurred while resolving attribute ");
        out.append(self.0.as_str());
        out
    }
}

/// The code attribute: the bytecode of a method with what belongs to it.
#[derive(Debug)]
pub struct Code<'a> {
    class: &'a JavaClass,
    max_stack: u16,
    max_locals: u16,
    code: &'a [u8],
    exception_table: Vec<Exception<'a>>,
    attributes: Vec<RawAttributeInfo>,
}

impl<'a> View for Code<'a> {
    type V = CodeModel;

    closed spec fn view(&self) -> CodeModel {
        CodeModel {
            pool: self.class@.constant_pool,
            max_stack: self.max_stack,
            max_locals: self.max_locals,
            code: self.code@,
            exception_table: views(self.exception_table@),
            attributes: views(self.attributes@),
        }
    }
}

impl<'a> Code<'a> {
    /// The handlers themselves, in order.
    pub closed spec fn handlers(&self) -> Seq<Exception<'a>> {
        self.exception_table@
    }

    /// The greatest depth of the operand stack.
    pub fn max_stack(&self) -> (r: u16)
        ensures
            r == self@.max_stack,
    {
        self.max_stack
    }

    /// The number of local variables.
    pub fn max_locals(&self) -> (r: u16)
        ensures
            r == self@.max_locals,
    {
        self.max_locals
    }

    /// The bytecode.
    pub fn code(&self) -> (r: &'a [u8])
        ensures
            r@ == self@.code,
    {
        self.code
    }

    /// The exception handlers of the code, in order.
    pub fn exception_table(&self) -> (r: &[Exception<'a>])
        ensures
            views(r@) == self@.exception_table,
    {
        self.exception_table.as_slice()
    }
}

impl<'a> HasAttributes for Code<'a> {
    closed spec fn attribute_pool(&self) -> Seq<Constant> {
        self.class@.constant_pool
    }

    closed spec fn attribute_records(&self) -> Seq<AttributeRecord> {
        views(self.attributes@)
    }

    /// The nested attributes, each resolved on demand through the class of
    /// the code.
    fn attributes(&self) -> (r: Result<Vec<Attribute<'_>>, ResolveAttributeError>) {
        resolve_all(self.class, &self.attributes)
    }
}

impl<'a> Code<'a> {
    /// The nested attributes resolve against the pool that the model of the
    /// code keeps, which is that of its class, and are those of the model.
    pub proof fn lemma_attributes(&self)
        ensures
            self.attribute_pool() == self@.pool,
            self.attribute_records() == self@.attributes,
    {
    }
}

/// Resolves every raw attribute of a list; the first that does not resolve
/// makes the whole fail.
pub fn resolve_all<'a>(class: &'a JavaClass, records: &'a Vec<RawAttributeInfo>) -> (r: Result<
    Vec<Attribute<'a>>,
    ResolveAttributeError,
>)
    ensures
        resolved_as(r, class@.constant_pool, views(records@)),
{
    let mut list: Vec<Attribute<'a>> = Vec::new();
    let mut i: usize = 0;
    let ghost pool = class@.constant_pool;
    let ghost all = views(records@);
    proof {
        lemma_views_empty::<Attribute<'a>>();
        assert(all.take(0) =~= Seq::<AttributeRecord>::empty());
    }
    while i < records.len()
        invariant
            i <= records@.len(),
            pool == class@.constant_pool,
            all == views(records@),
            all_resolve(pool, all.take(i as int)),
            views(list@) == attributes_of(pool, all.take(i as int)),
        decreases records@.len() - i,
    {
        let ghost next = all.take(i + 1);
        proof {
            assert(next.drop_last() =~= all.take(i as int));
            assert(next.last() == all[i as int]);
            assert(all[i as int] == records@[i as int]@);
        }
        match class.create_attribute(records[i].attribute_name_index, records[i].info.as_slice()) {
            Ok(a) => {
                proof {
                    lemma_views_push(list@, a);
                    assert forall|j: int| 0 <= j < next.len() implies (#[trigger] attribute_of(
                        pool,
                        next[j].name_index,
                        next[j].info,
                    )) is Some by {
                        if j < i {
                            assert(next[j] == all.take(i as int)[j]);
                        }
                    }
                }
                list.push(a);
            },
            Err(e) => {
                proof {
                    assert(attribute_of(pool, all[i as int].name_index, all[i as int].info) is None);
                    assert(first_unresolved(pool, all, i as int));
                }
                return Err(e);
            },
        }
        i += 1;
    }
    proof {
        assert(all.take(i as int) =~= all);
    }
    Ok(list)
}

/// One exception handler in a block of code.
#[derive(Debug, Clone, Copy)]
pub struct Exception<'a> {
    start_pc: u16,
    end_pc: u16,
    handler_pc: u16,
    catch_type: Option<FQName<'a>>,
}

impl<'a> View for Exception<'a> {
    type V = ExceptionModel;

    closed spec fn view(&self) -> ExceptionModel {
        ExceptionModel {
            start_pc: self.start_pc,
            end_pc: self.end_pc,
            handler_pc: self.handler_pc,
            catch_type: match self.catch_type {
                Some(name) => Some(name@),
                None => None,
            },
        }
    }
}

impl<'a> Exception<'a> {
    /// The first offset of the code that the handler guards.
    pub fn start_pc(&self) -> (r: u16)
        ensures
            r == self@.start_pc,
    {
        self.start_pc
    }

    /// The offset behind the code that the handler guards.
    pub fn end_pc(&self) -> (r: u16)
        ensures
            r == self@.end_pc,
    {
        self.end_pc
    }

    /// The offset of the handler itself.
    pub fn handler_pc(&self) -> (r: u16)
        ensures
            r == self@.handler_pc,
    {
        self.handler_pc
    }

    /// The type of exception that the handler catches; none where it catches
    /// all.
    pub fn catch_type(&self) -> (r: Option<FQName<'a>>)
        ensures
            match r {
                Some(name) => self@.catch_type == Some(name@),
                None => self@.catch_type is None,
            },
    {
        self.catch_type
    }
}

/// Resolves the index of the type that an exception handler catches.
fn parse_catch_type<'a>(class: &'a JavaClass, index: u16) -> (r: Result<Option<FQName<'a>>, Error>)
    ensures
        match r {
            Ok(Some(name)) => catch_type_at(class@.constant_pool, index) == Ok::<
                Option<Seq<char>>,
                ErrorKind,
            >(Some(name@)),
            Ok(None) => catch_type_at(class@.constant_pool, index) == Ok::<
                Option<Seq<char>>,
                ErrorKind,
            >(None),
            Err(e) => catch_type_at(class@.constant_pool, index) == Err::<
                Option<Seq<char>>,
                ErrorKind,
            >(e@),
        },
{
    if index == 0 {
        return Ok(None);
    }
    let name = match class.get_at_index(index) {
        Some(ConstantPoolInfo::Class(c)) => class.get_utf8(c.name_index),
        _ => class.get_utf8(index),
    };
    match name {
        Some(text) => Ok(Some(FQName::new(text))),
        None => Err(Error::new(ErrorKind::InvalidReference(index))),
    }
}

/// Decodes one exception handler at `at`.
fn parse_exception<'a>(bytes: &[u8], at: usize, class: &'a JavaClass) -> (r: Result<
    (Exception<'a>, usize),
    Error,
>)
    ensures
        match r {
            Ok((item, next)) => exception_at(class@.constant_pool, bytes@, at as int) == Ok::<
                (ExceptionModel, int),
                ErrorKind,
            >((item@, next as int)),
            Err(e) => exception_at(class@.constant_pool, bytes@, at as int) == Err::<
                (ExceptionModel, int),
                ErrorKind,
            >(e@),
        },
{
    let ((start_pc, end_pc), at1) = be_u16_pair(bytes, at)?;
    let ((handler_pc, catch_index), end) = be_u16_pair(bytes, at1)?;
    let catch_type = parse_catch_type(class, catch_index)?;
    Ok((Exception { start_pc, end_pc, handler_pc, catch_type }, end))
}

/// Decodes `count` exception handlers, one behind the other, from `at` on.
fn parse_exceptions<'a>(bytes: &[u8], at: usize, count: u16, class: &'a JavaClass) -> (r: Result<
    (Vec<Exception<'a>>, usize),
    Error,
>)
    ensures
        match r {
            Ok((items, next)) => repeat(
                exception_item(class@.constant_pool),
                bytes@,
                at as int,
                count as nat,
            ) == Ok::<(Seq<ExceptionModel>, int), ErrorKind>((views(items@), next as int)),
            Err(e) => repeat(
                exception_item(class@.constant_pool),
                bytes@,
                at as int,
                count as nat,
            ) == Err::<(Seq<ExceptionModel>, int), ErrorKind>(e@),
        },
{
    let mut items: Vec<Exception<'a>> = Vec::new();
    let mut pos: usize = at;
    let mut i: u16 = 0;
    let ghost item = exception_item(class@.constant_pool);
    proof {
        lemma_views_empty::<Exception<'a>>();
    }
    while i < count
        invariant
            i <= count,
            item == exception_item(class@.constant_pool),
            repeat(item, bytes@, at as int, i as nat) == Ok::<
                (Seq<ExceptionModel>, int),
                ErrorKind,
            >((views(items@), pos as int)),
        decreases count - i,
    {
        match parse_exception(bytes, pos, class) {
            Ok((one, next)) => {
                proof {
                    lemma_views_push(items@, one);
                }
                items.push(one);
                pos = next;
            },
            Err(e) => {
                proof {
                    lemma_repeat_failure_stays(
                        item,
                        bytes@,
                        at as int,
                        (i + 1) as nat,
                        count as nat,
                    );
                }
                return Err(e);
            },
        }
        i += 1;
    }
    Ok((items, pos))
}

/// Decodes the payload of a code attribute.
fn parse_code_attr<'a>(info: &'a [u8], class: &'a JavaClass) -> (r: Result<Code<'a>, Error>)
    ensures
        match r {
            Ok(code) => code_of(class@.constant_pool, info@) == Ok::<CodeModel, ErrorKind>(code@),
            Err(e) => code_of(class@.constant_pool, info@) == Err::<CodeModel, ErrorKind>(e@),
        },
{
    let ((max_stack, max_locals), at1) = be_u16_pair(info, 0)?;
    let (code_length, at2) = be_u32(info, at1)?;
    let (code, at3) = be_bytes(info, at2, code_length as usize)?;
    let (exception_count, at4) = be_u16(info, at3)?;
    let (exception_table, at5) = parse_exceptions(info, at4, exception_count, class)?;
    let (attributes_count, at6) = be_u16(info, at5)?;
    let (attributes, _) = parse_attributes(info, at6, attributes_count)?;
    Ok(Code { class, max_stack, max_locals, code, exception_table, attributes })
}

/// A table that maps offsets of the bytecode to lines of the source: pairs
/// of the offset at which a line starts and the number of the line.
#[derive(Debug, Clone)]
pub struct LineNumberTable {
    line_number_table: Vec<(u16, u16)>,
}

impl View for LineNumberTable {
    type V = Seq<(u16, u16)>;

    closed spec fn view(&self) -> Seq<(u16, u16)> {
        self.line_number_table@
    }
}

/// Among the first `n` entries of a table, the first of those that start
/// latest without starting behind `pc`; none where all start behind it.
pub open spec fn entry_for(table: Seq<(u16, u16)>, pc: u16, n: nat) -> Option<int>
    decreases n,
{
    if n == 0 {
        None
    } else {
        let before = entry_for(table, pc, (n - 1) as nat);
        let last = n - 1;
        if table[last].0 <= pc && (before matches Some(k) ==> table[k].0 < table[last].0) {
            Some(last)
        } else {
            before
        }
    }
}

/// The line that an offset of the bytecode belongs to: the line of the entry
/// that starts latest without starting behind the offset.
pub open spec fn line_of(table: Seq<(u16, u16)>, pc: u16) -> Option<u16> {
    match entry_for(table, pc, table.len()) {
        Some(k) => Some(table[k].1),
        None => None,
    }
}

/// The entry that is chosen starts at or before the offset, and no entry
/// that does so starts later; none is chosen only where every entry starts
/// behind the offset.
pub proof fn lemma_entry_for(table: Seq<(u16, u16)>, pc: u16, n: nat)
    requires
        n <= table.len(),
    ensures
        match entry_for(table, pc, n) {
            Some(k) => 0 <= k < n && table[k].0 <= pc && (forall|i: int|
                0 <= i < n && table[i].0 <= pc ==> table[i].0 <= table[k].0) && (forall|i: int|
                0 <= i < k ==> table[i].0 != table[k].0),
            None => forall|i: int| 0 <= i < n ==> table[i].0 > pc,
        },
    decreases n,
{
    if n > 0 {
        lemma_entry_for(table, pc, (n - 1) as nat);
    }
}

impl LineNumberTable {
    /// Creates a table from its entries.
    pub fn new(line_number_table: Vec<(u16, u16)>) -> (r: LineNumberTable)
        ensures
            r@ == line_number_table@,
    {
        LineNumberTable { line_number_table }
    }

    /// The entries of the table, in order.
    pub fn entries(&self) -> (r: &Vec<(u16, u16)>)
        ensures
            r@ == self@,
    {
        &self.line_number_table
    }

    /// Converts an offset of the bytecode to the number of its line: that of
    /// the entry that starts latest without starting behind the offset.
    pub fn pc_to_line(&self, pc: u16) -> (r: Option<u16>)
        ensures
            r == line_of(self@, pc),
            r is None <==> (forall|i: int| 0 <= i < self@.len() ==> self@[i].0 > pc),
            r matches Some(line) ==> exists|k: int|
                0 <= k < self@.len() && self@[k].1 == line && self@[k].0 <= pc && (forall|i: int|
                    0 <= i < self@.len() && self@[i].0 <= pc ==> self@[i].0 <= self@[k].0),
    {
        let mut best: Option<usize> = None;
        let mut i: usize = 0;
        while i < self.line_number_table.len()
            invariant
                i <= self@.len(),
                self@ == self.line_number_table@,
                match best {
                    Some(k) => entry_for(self@, pc, i as nat) == Some(k as int) && k < i,
                    None => entry_for(self@, pc, i as nat) is None,
                },
            decreases self@.len() - i,
        {
            let start: u16 = self.line_number_table[i].0;
            if start <= pc {
                match best {
                    Some(k) => {
                        if self.line_number_table[k].0 < start {
                            best = Some(i);
                        }
                    },
                    None => {
                        best = Some(i);
                    },
                }
            }
            i += 1;
        }
        proof {
            lemma_entry_for(self@, pc, self@.len());
        }
        match best {
            Some(k) => Some(self.line_number_table[k].1),
            None => None,
        }
    }
}

/// Decodes the payload of a line number table.
fn parse_line_numbers(bytes: &[u8]) -> (r: Result<LineNumberTable, Error>)
    ensures
        match r {
            Ok(table) => line_numbers_of(bytes@) == Ok::<Seq<(u16, u16)>, ErrorKind>(table@),
            Err(e) => line_numbers_of(bytes@) == Err::<Seq<(u16, u16)>, ErrorKind>(e@),
        },
{
    let (count, first) = be_u16(bytes, 0)?;
    let mut lines: Vec<(u16, u16)> = Vec::new();
    let mut pos: usize = first;
    let mut i: u16 = 0;
    while i < count
        invariant
            i <= count,
            take_u16(bytes@, 0) == Ok::<(u16, int), ErrorKind>((count, first as int)),
            repeat(line_item(), bytes@, first as int, i as nat) == Ok::<
                (Seq<(u16, u16)>, int),
                ErrorKind,
            >((lines@, pos as int)),
        decreases count - i,
    {
        match be_u16_pair(bytes, pos) {
            Ok((line, next)) => {
                lines.push(line);
                pos = next;
            },
            Err(e) => {
                proof {
                    lemma_repeat_failure_stays(
                        line_item(),
                        bytes@,
                        first as int,
                        (i + 1) as nat,
                        count as nat,
                    );
                }
                return Err(e);
            },
        }
        i += 1;
    }
    Ok(LineNumberTable { line_number_table: lines })
}

} // verus!
