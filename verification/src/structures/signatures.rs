//! Type descriptors: the compact text form of a type or of the shape of a
//! method, such as `(ZI)Ljava/lang/Object;`.
//!
//! The grammar: a primitive is one of `Z B C S I J F D V`; an object is `L`,
//! a path and `;`; an array is `[` and a descriptor; a method is `(`, any
//! number of descriptors, `)` and a descriptor.

use crate::bytes::{lemma_views_push, views};
use crate::text::owned;
use vstd::prelude::*;
use vstd::string::*;

verus! {

/// A signature: a type, or the arguments and the return type of a method.
#[derive(Debug, PartialEq)]
pub enum Signature<'a> {
    Boolean,
    Byte,
    Char,
    Short,
    Int,
    Long,
    Float,
    Double,
    Void,
    FullyQualifiedClass(&'a str),
    Array(Box<Signature<'a>>),
    Method { args: Vec<Signature<'a>>, ret_type: Box<Signature<'a>> },
}

/// What a signature stands for.
pub enum Descriptor {
    Boolean,
    Byte,
    Char,
    Short,
    Int,
    Long,
    Float,
    Double,
    Void,
    Object(Seq<char>),
    Array(Box<Descriptor>),
    Method { args: Seq<Descriptor>, ret: Box<Descriptor> },
}

/// Why text is not a descriptor. Each offset counts characters.
#[derive(Debug, Clone, Copy, PartialEq, Eq, Structural)]
pub enum SignatureError {
    /// The text is empty.
    Empty,
    /// A descriptor was expected at the offset, where something else stands or
    /// the text ends.
    Malformed(usize),
    /// The object reference that starts at the offset has no closing `;`.
    Unterminated(usize),
    /// A descriptor ends at the offset and characters follow it.
    Trailing(usize),
}

/// What a signature stands for.
pub open spec fn descriptor_of(sig: Signature) -> Descriptor
    decreases sig,
{
    match sig {
        Signature::Boolean => Descriptor::Boolean,
        Signature::Byte => Descriptor::Byte,
        Signature::Char => Descriptor::Char,
        Signature::Short => Descriptor::Short,
        Signature::Int => Descriptor::Int,
        Signature::Long => Descriptor::Long,
        Signature::Float => Descriptor::Float,
        Signature::Double => Descriptor::Double,
        Signature::Void => Descriptor::Void,
        Signature::FullyQualifiedClass(name) => Descriptor::Object(name@),
        Signature::Array(inner) => Descriptor::Array(Box::new(descriptor_of(*inner))),
        Signature::Method { args, ret_type } => Descriptor::Method {
            args: Seq::new(
                args@.len(),
                |i: int|
                    if 0 <= i < args@.len() {
                        descriptor_of(args@[i])
                    } else {
                        Descriptor::Void
                    },
            ),
            ret: Box::new(descriptor_of(*ret_type)),
        },
    }
}

impl<'a> View for Signature<'a> {
    type V = Descriptor;

    open spec fn view(&self) -> Descriptor {
        descriptor_of(*self)
    }
}

/// The model of a method signature is made of the models of its parts.
pub proof fn lemma_method_view(args: Vec<Signature>, ret_type: Box<Signature>)
    ensures
        (Signature::Method { args, ret_type })@ == (Descriptor::Method {
            args: views(args@),
            ret: Box::new((*ret_type)@),
        }),
{
    let built = descriptor_of(Signature::Method { args, ret_type });
    assert(built->Method_args =~= views(args@));
}

/// The compact text form of a descriptor.
pub open spec fn encoding(d: Descriptor) -> Seq<char>
    decreases d, 0int,
{
    match d {
        Descriptor::Boolean => seq!['Z'],
        Descriptor::Byte => seq!['B'],
        Descriptor::Char => seq!['C'],
        Descriptor::Short => seq!['S'],
        Descriptor::Int => seq!['I'],
        Descriptor::Long => seq!['J'],
        Descriptor::Float => seq!['F'],
        Descriptor::Double => seq!['D'],
        Descriptor::Void => seq!['V'],
        Descriptor::Object(name) => seq!['L'] + name + seq![';'],
        Descriptor::Array(inner) => seq!['['] + encoding(*inner),
        Descriptor::Method { args, ret } => seq!['('] + encoding_from(args, 0) + seq![')']
            + encoding(*ret),
    }
}

/// The compact text forms of the descriptors from the `i`-th on, one behind
/// the other.
pub open spec fn encoding_from(args: Seq<Descriptor>, i: int) -> Seq<char>
    decreases args, args.len() - i,
{
    if 0 <= i < args.len() {
        encoding(args[i]) + encoding_from(args, i + 1)
    } else {
        Seq::empty()
    }
}

/// The offset of the first `;` at or behind `from`, or the length of the
/// text where there is none.
pub open spec fn semicolon_from(s: Seq<char>, from: int) -> int
    decreases s.len() - from,
{
    if from < 0 || from >= s.len() {
        s.len() as int
    } else if s[from] == ';' {
        from
    } else {
        semicolon_from(s, from + 1)
    }
}

/// The descriptor that starts at `at`, with the offset behind it.
pub open spec fn descriptor_at(s: Seq<char>, at: int) -> Result<(Descriptor, int), SignatureError>
    decreases s.len() - at, 0int,
{
    if at < 0 || at >= s.len() {
        Err(SignatureError::Malformed(at as usize))
    } else if s[at] == 'Z' {
        Ok((Descriptor::Boolean, at + 1))
    } else if s[at] == 'B' {
        Ok((Descriptor::Byte, at + 1))
    } else if s[at] == 'C' {
        Ok((Descriptor::Char, at + 1))
    } else if s[at] == 'S' {
        Ok((Descriptor::Short, at + 1))
    } else if s[at] == 'I' {
        Ok((Descriptor::Int, at + 1))
    } else if s[at] == 'J' {
        Ok((Descriptor::Long, at + 1))
    } else if s[at] == 'F' {
        Ok((Descriptor::Float, at + 1))
    } else if s[at] == 'D' {
        Ok((Descriptor::Double, at + 1))
    } else if s[at] == 'V' {
        Ok((Descriptor::Void, at + 1))
    } else if s[at] == 'L' {
        let end = semicolon_from(s, at + 1);
        if end < s.len() {
            Ok((Descriptor::Object(s.subrange(at + 1, end)), end + 1))
        } else {
            Err(SignatureError::Unterminated(at as usize))
        }
    } else if s[at] == '[' {
        match descriptor_at(s, at + 1) {
            Err(e) => Err(e),
            Ok((inner, end)) => Ok((Descriptor::Array(Box::new(inner)), end)),
        }
    } else if s[at] == '(' {
        match arguments_at(s, at + 1) {
            Err(e) => Err(e),
            Ok((args, close)) => if at < close < s.len() {
                match descriptor_at(s, close + 1) {
                    Err(e) => Err(e),
                    Ok((ret, end)) => Ok((Descriptor::Method { args, ret: Box::new(ret) }, end)),
                }
            } else {
                Err(SignatureError::Malformed(at as usize))
            },
        }
    } else {
        Err(SignatureError::Malformed(at as usize))
    }
}

/// The descriptors that stand one behind the other from `at` up to the
/// closing `)`, with the offset of that `)`.
pub open spec fn arguments_at(s: Seq<char>, at: int) -> Result<
    (Seq<Descriptor>, int),
    SignatureError,
>
    decreases s.len() - at, 1int,
{
    if at < 0 || at >= s.len() {
        Err(SignatureError::Malformed(at as usize))
    } else if s[at] == ')' {
        Ok((Seq::empty(), at))
    } else {
        match descriptor_at(s, at) {
            Err(e) => Err(e),
            Ok((first, next)) => if at < next <= s.len() {
                match arguments_at(s, next) {
                    Err(e) => Err(e),
                    Ok((rest, close)) => Ok((seq![first] + rest, close)),
                }
            } else {
                Err(SignatureError::Malformed(at as usize))
            },
        }
    }
}

/// The descriptor that a whole text is, or why it is none.
pub open spec fn parsed(s: Seq<char>) -> Result<Descriptor, SignatureError> {
    if s.len() == 0 {
        Err(SignatureError::Empty)
    } else {
        match descriptor_at(s, 0) {
            Err(e) => Err(e),
            Ok((d, end)) => if end == s.len() {
                Ok(d)
            } else {
                Err(SignatureError::Trailing(end as usize))
            },
        }
    }
}

/// The readable form of a descriptor: the name of a primitive or of a class,
/// `[]` behind the element type of an array, and for a method the return type
/// with the arguments in brackets behind it.
pub open spec fn display(d: Descriptor) -> Seq<char>
    decreases d, 0int,
{
    match d {
        Descriptor::Boolean => "boolean"@,
        Descriptor::Byte => "byte"@,
        Descriptor::Char => "char"@,
        Descriptor::Short => "short"@,
        Descriptor::Int => "int"@,
        Descriptor::Long => "long"@,
        Descriptor::Float => "float"@,
        Descriptor::Double => "double"@,
        Descriptor::Void => "void"@,
        Descriptor::Object(name) => name,
        Descriptor::Array(inner) => display(*inner) + "[]"@,
        Descriptor::Method { args, ret } => display(*ret) + " ("@ + display_from(args, 0) + ")"@,
    }
}

/// The readable forms of the descriptors from the `i`-th on, with `, `
/// between two of them.
pub open spec fn display_from(args: Seq<Descriptor>, i: int) -> Seq<char>
    decreases args, args.len() - i,
{
    if 0 <= i < args.len() {
        (if i > 0 {
            ", "@
        } else {
            Seq::empty()
        }) + display(args[i]) + display_from(args, i + 1)
    } else {
        Seq::empty()
    }
}

/// Where the search for a `;` ends: not before its start, not behind the
/// text, and on a `;` if inside the text, with no `;` before it.
pub proof fn lemma_semicolon_from(s: Seq<char>, from: int)
    requires
        0 <= from <= s.len(),
    ensures
        from <= semicolon_from(s, from) <= s.len(),
        semicolon_from(s, from) < s.len() ==> s[semicolon_from(s, from)] == ';',
        forall|i: int| from <= i < semicolon_from(s, from) ==> s[i] != ';',
    decreases s.len() - from,
{
    if from < s.len() && s[from] != ';' {
        lemma_semicolon_from(s, from + 1);
    }
}

/// A descriptor that is found takes up at least one character and ends
/// inside the text.
pub proof fn lemma_descriptor_bounds(s: Seq<char>, at: int)
    ensures
        descriptor_at(s, at) matches Ok((d, end)) ==> 0 <= at < end <= s.len(),
    decreases s.len() - at, 0int,
{
    if 0 <= at < s.len() {
        if s[at] == 'L' {
            lemma_semicolon_from(s, at + 1);
        } else if s[at] == '[' {
            lemma_descriptor_bounds(s, at + 1);
        } else if s[at] == '(' {
            lemma_arguments_bounds(s, at + 1);
            if let Ok((args, close)) = arguments_at(s, at + 1) {
                lemma_descriptor_bounds(s, close + 1);
            }
        }
    }
}

/// Arguments that are found end on a `)` inside the text.
pub proof fn lemma_arguments_bounds(s: Seq<char>, at: int)
    ensures
        arguments_at(s, at) matches Ok((args, close)) ==> 0 <= at <= close < s.len() && s[close]
            == ')',
    decreases s.len() - at, 1int,
{
    if 0 <= at < s.len() && s[at] != ')' {
        lemma_descriptor_bounds(s, at);
        if let Ok((first, next)) = descriptor_at(s, at) {
            lemma_arguments_bounds(s, next);
        }
    }
}

/// The text forms of a list behind its first element are those of the rest.
proof fn lemma_encoding_from_shift(first: Descriptor, rest: Seq<Descriptor>, i: int)
    requires
        0 <= i,
    ensures
        encoding_from(seq![first] + rest, i + 1) == encoding_from(rest, i),
    decreases rest.len() - i,
{
    let all = seq![first] + rest;
    if i < rest.len() {
        assert(all[i + 1] == rest[i]);
        lemma_encoding_from_shift(first, rest, i + 1);
    }
}

/// A descriptor that is found encodes to the very characters that it was
/// found in.
pub proof fn lemma_descriptor_round_trip(s: Seq<char>, at: int)
    ensures
        descriptor_at(s, at) matches Ok((d, end)) ==> encoding(d) == s.subrange(at, end),
    decreases s.len() - at, 0int,
{
    lemma_descriptor_bounds(s, at);
    if let Ok((d, end)) = descriptor_at(s, at) {
        if s[at] == 'L' {
            lemma_semicolon_from(s, at + 1);
            assert(encoding(d) =~= s.subrange(at, end));
        } else if s[at] == '[' {
            lemma_descriptor_round_trip(s, at + 1);
            lemma_descriptor_bounds(s, at + 1);
            assert(encoding(d) =~= s.subrange(at, end));
        } else if s[at] == '(' {
            lemma_arguments_round_trip(s, at + 1);
            lemma_arguments_bounds(s, at + 1);
            let (args, close) = arguments_at(s, at + 1)->Ok_0;
            lemma_descriptor_round_trip(s, close + 1);
            lemma_descriptor_bounds(s, close + 1);
            assert(encoding(d) =~= s.subrange(at, end));
        } else {
            assert(encoding(d) =~= s.subrange(at, end));
        }
    }
}

/// Arguments that are found encode to the very characters that they were
/// found in.
pub proof fn lemma_arguments_round_trip(s: Seq<char>, at: int)
    ensures
        arguments_at(s, at) matches Ok((args, close)) ==> encoding_from(args, 0) == s.subrange(
            at,
            close,
        ),
    decreases s.len() - at, 1int,
{
    lemma_arguments_bounds(s, at);
    if let Ok((args, close)) = arguments_at(s, at) {
        if s[at] == ')' {
            assert(encoding_from(args, 0) =~= s.subrange(at, close));
        } else {
            lemma_descriptor_bounds(s, at);
            lemma_descriptor_round_trip(s, at);
            let (first, next) = descriptor_at(s, at)->Ok_0;
            lemma_arguments_bounds(s, next);
            lemma_arguments_round_trip(s, next);
            let (rest, end) = arguments_at(s, next)->Ok_0;
            lemma_encoding_from_shift(first, rest, 0);
            assert(args[0] == first);
            assert(encoding_from(args, 0) =~= s.subrange(at, close));
        }
    }
}

/// Parsing and encoding are inverse: every text that is a descriptor is the
/// encoding of what it parses to.
pub proof fn lemma_round_trip(s: Seq<char>)
    ensures
        parsed(s) matches Ok(d) ==> encoding(d) == s,
{
    lemma_descriptor_round_trip(s, 0);
    if let Ok(d) = parsed(s) {
        assert(s.subrange(0, s.len() as int) =~= s);
    }
}

/// Whether a descriptor can be written down and read again: no name of a
/// class in it holds a `;`, which would end the name too early.
pub open spec fn well_formed(d: Descriptor) -> bool
    decreases d, 0int,
{
    match d {
        Descriptor::Object(name) => !name.contains(';'),
        Descriptor::Array(inner) => well_formed(*inner),
        Descriptor::Method { args, ret } => all_well_formed(args, 0) && well_formed(*ret),
        _ => true,
    }
}

/// Whether the descriptors from the `i`-th on are well formed.
pub open spec fn all_well_formed(args: Seq<Descriptor>, i: int) -> bool
    decreases args, args.len() - i,
{
    if 0 <= i < args.len() {
        well_formed(args[i]) && all_well_formed(args, i + 1)
    } else {
        true
    }
}

/// The search for a `;` ends on the first `;`.
proof fn lemma_semicolon_found(s: Seq<char>, from: int, at: int)
    requires
        0 <= from <= at < s.len(),
        s[at] == ';',
        forall|i: int| from <= i < at ==> s[i] != ';',
    ensures
        semicolon_from(s, from) == at,
    decreases at - from,
{
    if from < at {
        lemma_semicolon_found(s, from + 1, at);
    }
}

/// The text form of a descriptor is not empty and does not start with `)`.
proof fn lemma_encoding_starts(d: Descriptor)
    ensures
        encoding(d).len() >= 1,
        encoding(d)[0] != ')',
{
    match d {
        Descriptor::Object(name) => {
            assert(encoding(d)[0] == 'L');
        },
        Descriptor::Array(inner) => {
            assert(encoding(d)[0] == '[');
        },
        Descriptor::Method { args, ret } => {
            assert(encoding(d)[0] == '(');
        },
        _ => {},
    }
}

/// A well-formed descriptor is read back from its text form, wherever the
/// text form stands.
proof fn lemma_parse_encoded(before: Seq<char>, d: Descriptor, behind: Seq<char>)
    requires
        well_formed(d),
    ensures
        descriptor_at(before + encoding(d) + behind, before.len() as int) == Ok::<
            (Descriptor, int),
            SignatureError,
        >((d, (before.len() + encoding(d).len()) as int)),
    decreases d, 0int,
{
    let s = before + encoding(d) + behind;
    let at = before.len() as int;
    lemma_encoding_starts(d);
    assert(s[at] == encoding(d)[0]);
    match d {
        Descriptor::Object(name) => {
            let end = at + 1 + name.len();
            assert(s[end] == ';');
            assert forall|i: int| at + 1 <= i < end implies s[i] != ';' by {
                assert(s[i] == name[i - at - 1]);
            }
            lemma_semicolon_found(s, at + 1, end);
            assert(s.subrange(at + 1, end) =~= name);
        },
        Descriptor::Array(inner) => {
            let first = before + seq!['['];
            assert(s =~= first + encoding(*inner) + behind);
            lemma_parse_encoded(first, *inner, behind);
        },
        Descriptor::Method { args, ret } => {
            let first = before + seq!['('];
            let tail = encoding(*ret) + behind;
            assert(s =~= first + encoding_from(args, 0) + seq![')'] + tail);
            lemma_parse_encoded_arguments(first, args, 0, tail);
            assert(args.skip(0) =~= args);
            let second = first + encoding_from(args, 0) + seq![')'];
            assert(s =~= second + encoding(*ret) + behind);
            lemma_parse_encoded(second, *ret, behind);
            lemma_encoding_starts(*ret);
        },
        _ => {},
    }
}

/// Well-formed arguments are read back from their text forms up to the
/// closing `)`.
proof fn lemma_parse_encoded_arguments(
    before: Seq<char>,
    args: Seq<Descriptor>,
    i: int,
    behind: Seq<char>,
)
    requires
        0 <= i <= args.len(),
        all_well_formed(args, i),
    ensures
        arguments_at(
            before + encoding_from(args, i) + seq![')'] + behind,
            before.len() as int,
        ) == Ok::<(Seq<Descriptor>, int), SignatureError>(
            (args.skip(i), (before.len() + encoding_from(args, i).len()) as int),
        ),
    decreases args, args.len() - i,
{
    let s = before + encoding_from(args, i) + seq![')'] + behind;
    let at = before.len() as int;
    if i == args.len() {
        assert(s[at] == ')');
        assert(args.skip(i) =~= Seq::<Descriptor>::empty());
    } else {
        let one = encoding(args[i]);
        let more = encoding_from(args, i + 1);
        lemma_encoding_starts(args[i]);
        assert(s[at] == one[0]);
        let tail = more + seq![')'] + behind;
        assert(s =~= before + one + tail);
        lemma_parse_encoded(before, args[i], tail);
        let first = before + one;
        assert(s =~= first + more + seq![')'] + behind);
        lemma_parse_encoded_arguments(first, args, i + 1, behind);
        assert(seq![args[i]] + args.skip(i + 1) =~= args.skip(i));
    }
}

/// Encoding and parsing are inverse: the text form of a well-formed
/// descriptor parses to that descriptor.
pub proof fn lemma_parse_of_encoding(d: Descriptor)
    requires
        well_formed(d),
    ensures
        parsed(encoding(d)) == Ok::<Descriptor, SignatureError>(d),
{
    let none = Seq::<char>::empty();
    lemma_parse_encoded(none, d, none);
    lemma_encoding_starts(d);
    assert(none + encoding(d) + none =~= encoding(d));
}

/// What parses is well formed: no name of a class that was read out of a
/// text holds a `;`.
pub proof fn lemma_parsed_is_well_formed(s: Seq<char>, at: int)
    ensures
        descriptor_at(s, at) matches Ok((d, end)) ==> well_formed(d),
    decreases s.len() - at, 0int,
{
    if let Ok((d, end)) = descriptor_at(s, at) {
        if s[at] == 'L' {
            lemma_semicolon_from(s, at + 1);
            let name = s.subrange(at + 1, semicolon_from(s, at + 1));
            if name.contains(';') {
                let i = choose|i: int| 0 <= i < name.len() && name[i] == ';';
                assert(s[at + 1 + i] == ';');
            }
        } else if s[at] == '[' {
            lemma_parsed_is_well_formed(s, at + 1);
        } else if s[at] == '(' {
            lemma_parsed_arguments_are_well_formed(s, at + 1);
            let (args, close) = arguments_at(s, at + 1)->Ok_0;
            lemma_parsed_is_well_formed(s, close + 1);
        }
    }
}

/// The arguments that parse are well formed.
pub proof fn lemma_parsed_arguments_are_well_formed(s: Seq<char>, at: int)
    ensures
        arguments_at(s, at) matches Ok((args, close)) ==> all_well_formed(args, 0),
    decreases s.len() - at, 1int,
{
    if let Ok((args, close)) = arguments_at(s, at) {
        if s[at] != ')' {
            lemma_parsed_is_well_formed(s, at);
            let (first, next) = descriptor_at(s, at)->Ok_0;
            lemma_parsed_arguments_are_well_formed(s, next);
            let (rest, end) = arguments_at(s, next)->Ok_0;
            lemma_all_well_formed_shift(first, rest, 0);
            assert(args[0] == first);
        }
    }
}

/// A list is well formed behind its first element where the rest is.
proof fn lemma_all_well_formed_shift(first: Descriptor, rest: Seq<Descriptor>, i: int)
    requires
        0 <= i,
    ensures
        all_well_formed(seq![first] + rest, i + 1) == all_well_formed(rest, i),
    decreases rest.len() - i,
{
    let all = seq![first] + rest;
    if i < rest.len() {
        assert(all[i + 1] == rest[i]);
        lemma_all_well_formed_shift(first, rest, i + 1);
    }
}

/// What is found behind arguments that were found already.
pub open spec fn arguments_behind(
    found: Seq<Descriptor>,
    rest: Result<(Seq<Descriptor>, int), SignatureError>,
) -> Result<(Seq<Descriptor>, int), SignatureError> {
    match rest {
        Err(e) => Err(e),
        Ok((more, close)) => Ok((found + more, close)),
    }
}

/// Parses the descriptor that starts at the `at`-th character of `s`.
fn parse_signature<'a>(s: &'a str, at: usize, len: usize) -> (r: Result<
    (Signature<'a>, usize),
    SignatureError,
>)
    requires
        len == s@.len(),
    ensures
        match r {
            Ok((sig, end)) => descriptor_at(s@, at as int) == Ok::<
                (Descriptor, int),
                SignatureError,
            >((sig@, end as int)) && at < end <= len,
            Err(e) => descriptor_at(s@, at as int) == Err::<(Descriptor, int), SignatureError>(e),
        },
    decreases len - at,
{
    if at >= len {
        return Err(SignatureError::Malformed(at));
    }
    let c = s.get_char(at);
    if c == 'Z' {
        Ok((Signature::Boolean, at + 1))
    } else if c == 'B' {
        Ok((Signature::Byte, at + 1))
    } else if c == 'C' {
        Ok((Signature::Char, at + 1))
    } else if c == 'S' {
        Ok((Signature::Short, at + 1))
    } else if c == 'I' {
        Ok((Signature::Int, at + 1))
    } else if c == 'J' {
        Ok((Signature::Long, at + 1))
    } else if c == 'F' {
        Ok((Signature::Float, at + 1))
    } else if c == 'D' {
        Ok((Signature::Double, at + 1))
    } else if c == 'V' {
        Ok((Signature::Void, at + 1))
    } else if c == 'L' {
        let mut end: usize = at + 1;
        while end < len && s.get_char(end) != ';'
            invariant
                at < end <= len,
                len == s@.len(),
                semicolon_from(s@, at + 1) == semicolon_from(s@, end as int),
            decreases len - end,
        {
            end += 1;
        }
        if end < len {
            let name = s.substring_char(at + 1, end);
            Ok((Signature::FullyQualifiedClass(name), end + 1))
        } else {
            Err(SignatureError::Unterminated(at))
        }
    } else if c == '[' {
        let (inner, end) = parse_signature(s, at + 1, len)?;
        Ok((Signature::Array(Box::new(inner)), end))
    } else if c == '(' {
        let mut args: Vec<Signature<'a>> = Vec::new();
        let mut pos: usize = at + 1;
        proof {
            crate::bytes::lemma_views_empty::<Signature<'a>>();
            assert(arguments_behind(Seq::empty(), arguments_at(s@, pos as int)) =~= arguments_at(
                s@,
                pos as int,
            )) by {
                if let Ok((more, close)) = arguments_at(s@, pos as int) {
                    assert(Seq::<Descriptor>::empty() + more =~= more);
                }
            }
        }
        loop
            invariant
                at < pos <= len,
                len == s@.len(),
                s@[at as int] == '(',
                arguments_at(s@, at + 1) == arguments_behind(
                    views(args@),
                    arguments_at(s@, pos as int),
                ),
            ensures
                pos < len,
                arguments_at(s@, pos as int) == Ok::<(Seq<Descriptor>, int), SignatureError>(
                    (Seq::empty(), pos as int),
                ),
            decreases len - pos,
        {
            if pos >= len {
                return Err(SignatureError::Malformed(pos));
            }
            if s.get_char(pos) == ')' {
                break ;
            }
            match parse_signature(s, pos, len) {
                Err(e) => {
                    return Err(e);
                },
                Ok((arg, next)) => {
                    proof {
                        lemma_views_push(args@, arg);
                        if let Ok((more, close)) = arguments_at(s@, next as int) {
                            assert(views(args@) + (seq![arg@] + more) =~= views(args@).push(arg@)
                                + more);
                        }
                    }
                    args.push(arg);
                    pos = next;
                },
            }
        }
        proof {
            assert(views(args@) + Seq::<Descriptor>::empty() =~= views(args@));
        }
        let (ret, end) = parse_signature(s, pos + 1, len)?;
        let ret_type = Box::new(ret);
        proof {
            lemma_method_view(args, ret_type);
        }
        Ok((Signature::Method { args, ret_type }, end))
    } else {
        Err(SignatureError::Malformed(at))
    }
}

impl<'a> Signature<'a> {
    /// Parses a whole descriptor. The text must be one descriptor and nothing
    /// more.
    pub fn from_str(s: &'a str) -> (r: Result<Signature<'a>, SignatureError>)
        ensures
            match r {
                Ok(sig) => parsed(s@) == Ok::<Descriptor, SignatureError>(sig@) && encoding(sig@)
                    == s@,
                Err(e) => parsed(s@) == Err::<Descriptor, SignatureError>(e),
            },
    {
        let len: usize = s.unicode_len();
        if len == 0 {
            return Err(SignatureError::Empty);
        }
        let (sig, end) = parse_signature(s, 0, len)?;
        if end != len {
            return Err(SignatureError::Trailing(end));
        }
        proof {
            lemma_round_trip(s@);
        }
        Ok(sig)
    }

    /// Emits the signature in its compact text form.
    pub fn jni(&self) -> (r: String)
        ensures
            r@ == encoding(self@),
        decreases self,
    {
        proof {
            reveal_strlit("Z");
            reveal_strlit("B");
            reveal_strlit("C");
            reveal_strlit("S");
            reveal_strlit("I");
            reveal_strlit("J");
            reveal_strlit("F");
            reveal_strlit("D");
            reveal_strlit("V");
            reveal_strlit("L");
            reveal_strlit(";");
            reveal_strlit("[");
            reveal_strlit("(");
            reveal_strlit(")");
        }
        match self {
            Signature::Boolean => {
                assert("Z"@ =~= seq!['Z']);
                owned("Z")
            },
            Signature::Byte => {
                assert("B"@ =~= seq!['B']);
                owned("B")
            },
            Signature::Char => {
                assert("C"@ =~= seq!['C']);
                owned("C")
            },
            Signature::Short => {
                assert("S"@ =~= seq!['S']);
                owned("S")
            },
            Signature::Int => {
                assert("I"@ =~= seq!['I']);
                owned("I")
            },
            Signature::Long => {
                assert("J"@ =~= seq!['J']);
                owned("J")
            },
            Signature::Float => {
                assert("F"@ =~= seq!['F']);
                owned("F")
            },
            Signature::Double => {
                assert("D"@ =~= seq!['D']);
                owned("D")
            },
            Signature::Void => {
                assert("V"@ =~= seq!['V']);
                owned("V")
            },
            Signature::FullyQualifiedClass(name) => {
                let mut out = owned("L");
                out.append(name);
                out.append(";");
                assert("L"@ =~= seq!['L'] && ";"@ =~= seq![';']);
                out
            },
            Signature::Array(inner) => {
                let mut out = owned("[");
                let rest = inner.jni();
                out.append(rest.as_str());
                assert("["@ =~= seq!['[']);
                out
            },
            Signature::Method { args, ret_type } => {
                let mut out = owned("(");
                let ghost all = views(args@);
                proof {
                    lemma_method_view(*args, *ret_type);
                    assert("("@ =~= seq!['('] && ")"@ =~= seq![')']);
                }
                let mut i: usize = 0;
                while i < args.len()
                    invariant
                        i <= args.len(),
                        all == views(args@),
                        out@ + encoding_from(all, i as int) == seq!['('] + encoding_from(all, 0),
                        forall|j: int| 0 <= j < args.len() ==> decreases_to!(self => args@[j]),
                    decreases args.len() - i,
                {
                    let part = args[i].jni();
                    proof {
                        assert(all[i as int] == args@[i as int]@);
                        assert((out@ + part@) + encoding_from(all, i + 1) =~= out@ + encoding_from(
                            all,
                            i as int,
                        ));
                    }
                    out.append(part.as_str());
                    i += 1;
                }
                proof {
                    assert(out@ =~= seq!['('] + encoding_from(all, 0));
                }
                out.append(")");
                let rest = ret_type.jni();
                out.append(rest.as_str());
                out
            },
        }
    }

    /// The signature in readable form: the return type of a method stands
    /// before its arguments.
    pub fn to_string(&self) -> (r: String)
        ensures
            r@ == display(self@),
        decreases self,
    {
        match self {
            Signature::Boolean => owned("boolean"),
            Signature::Byte => owned("byte"),
            Signature::Char => owned("char"),
            Signature::Short => owned("short"),
            Signature::Int => owned("int"),
            Signature::Long => owned("long"),
            Signature::Float => owned("float"),
            Signature::Double => owned("double"),
            Signature::Void => owned("void"),
            Signature::FullyQualifiedClass(name) => owned(name),
            Signature::Array(inner) => {
                let mut out = inner.to_string();
                out.append("[]");
                out
            },
            Signature::Method { args, ret_type } => {
                let mut out = ret_type.to_string();
                out.append(" (");
                let ghost all = views(args@);
                let ghost head = out@;
                proof {
                    lemma_method_view(*args, *ret_type);
                }
                let mut i: usize = 0;
                while i < args.len()
                    invariant
                        i <= args.len(),
                        all == views(args@),
                        out@ + display_from(all, i as int) == head + display_from(all, 0),
                        forall|j: int| 0 <= j < args.len() ==> decreases_to!(self => args@[j]),
                    decreases args.len() - i,
                {
                    let ghost before = out@;
                    if i > 0 {
                        out.append(", ");
                    }
                    let part = args[i].to_string();
                    proof {
                        assert(all[i as int] == args@[i as int]@);
                        assert((out@ + part@) + display_from(all, i + 1) =~= before + display_from(
                            all,
                            i as int,
                        ));
                    }
                    out.append(part.as_str());
                    i += 1;
                }
                proof {
                    assert(out@ =~= head + display_from(all, 0));
                }
                out.append(")");
                out
            },
        }
    }

    /// Parses a whole descriptor, as [`Signature::from_str`] does.
    pub fn new(s: &'a str) -> (r: Result<Signature<'a>, SignatureError>)
        ensures
            match r {
                Ok(sig) => parsed(s@) == Ok::<Descriptor, SignatureError>(sig@) && encoding(sig@)
                    == s@,
                Err(e) => parsed(s@) == Err::<Descriptor, SignatureError>(e),
            },
    {
        Signature::from_str(s)
    }
}

} // verus!
