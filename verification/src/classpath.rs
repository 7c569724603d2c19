//! Class paths: ordered lists of places in which classes are looked for.
//!
//! The order of the entries is the order of the search: the first entry that
//! holds a resource wins, and the entries behind it are not consulted. The
//! library decides where to look and what a finding means; reading
//! directories and archives is left to the caller, who reports what each
//! probe gave.

use crate::bytes::{lemma_views_empty, lemma_views_push, views};
use crate::text::{owned, str_eq};
use std::collections::VecDeque;
use std::str::FromStr;
use vstd::prelude::*;
use vstd::std_specs::convert::FromSpecImpl;
use vstd::std_specs::ops::AddSpecImpl;
use vstd::string::*;

verus! {

/// The character between two entries of a class path that is written as
/// one text.
pub const CLASSPATH_SEPARATOR: char = ':';

/// The pieces of the first `n` characters of a text that a separator cuts it
/// into. A text without separator is one piece; each separator ends a piece
/// and starts the next, which may be empty.
pub open spec fn split_prefix(s: Seq<char>, separator: char, n: nat) -> Seq<Seq<char>>
    decreases n,
{
    if n == 0 {
        seq![Seq::empty()]
    } else {
        let before = split_prefix(s, separator, (n - 1) as nat);
        if s[n - 1] == separator {
            before.push(Seq::empty())
        } else {
            before.update(before.len() - 1, before.last().push(s[n - 1]))
        }
    }
}

/// The pieces that a separator cuts a text into.
pub open spec fn split(s: Seq<char>, separator: char) -> Seq<Seq<char>> {
    split_prefix(s, separator, s.len())
}

/// The first `n` entries written as one text, with the separator between
/// two entries. Nothing is put before an entry while the text is still
/// empty.
pub open spec fn joined_prefix(entries: Seq<Seq<char>>, n: nat) -> Seq<char>
    decreases n,
{
    if n == 0 {
        Seq::empty()
    } else {
        let before = joined_prefix(entries, (n - 1) as nat);
        if before.len() == 0 {
            entries[n - 1]
        } else {
            before + seq![CLASSPATH_SEPARATOR] + entries[n - 1]
        }
    }
}

/// A class path.
#[derive(Debug, PartialEq, Eq, Hash, Clone)]
pub struct Classpath {
    paths: VecDeque<String>,
}

impl View for Classpath {
    type V = Seq<Seq<char>>;

    closed spec fn view(&self) -> Seq<Seq<char>> {
        views(self.paths@)
    }
}

/// Cuts a text into owned pieces at each separator.
pub fn split_text(s: &str, separator: char) -> (r: Vec<String>)
    ensures
        views(r@) == split(s@, separator),
{
    let len: usize = s.unicode_len();
    let mut pieces: Vec<String> = Vec::new();
    let mut start: usize = 0;
    let mut i: usize = 0;
    proof {
        lemma_views_empty::<String>();
        assert(split_prefix(s@, separator, 0) =~~= views(pieces@).push(s@.subrange(0, 0)));
    }
    while i < len
        invariant
            start <= i <= len,
            len == s@.len(),
            split_prefix(s@, separator, i as nat) == views(pieces@).push(
                s@.subrange(start as int, i as int),
            ),
        decreases len - i,
    {
        let ghost before = split_prefix(s@, separator, i as nat);
        if s.get_char(i) == separator {
            let piece = owned(s.substring_char(start, i));
            proof {
                lemma_views_push(pieces@, piece);
                assert(before.push(Seq::empty()) =~~= views(pieces@.push(piece)).push(
                    s@.subrange(i + 1, i + 1),
                ));
            }
            pieces.push(piece);
            start = i + 1;
        } else {
            proof {
                assert(s@.subrange(start as int, i as int).push(s@[i as int]) =~= s@.subrange(
                    start as int,
                    i + 1,
                ));
                assert(before.update(before.len() - 1, before.last().push(s@[i as int]))
                    =~~= views(pieces@).push(s@.subrange(start as int, i + 1)));
            }
        }
        i += 1;
    }
    let last = owned(s.substring_char(start, len));
    proof {
        lemma_views_push(pieces@, last);
    }
    pieces.push(last);
    pieces
}

impl Classpath {
    /// Creates an empty class path.
    pub fn new() -> (r: Classpath)
        ensures
            r@ == Seq::<Seq<char>>::empty(),
    {
        proof {
            lemma_views_empty::<String>();
        }
        Classpath { paths: VecDeque::new() }
    }

    /// Checks whether the class path has no entry.
    pub fn is_empty(&self) -> (r: bool)
        ensures
            r == (self@.len() == 0),
    {
        self.paths.len() == 0
    }

    /// The number of entries of the class path.
    pub fn len(&self) -> (r: usize)
        ensures
            r == self@.len(),
    {
        self.paths.len()
    }

    /// The `i`-th entry of the class path.
    pub fn entry(&self, i: usize) -> (r: Option<&str>)
        ensures
            match r {
                Some(path) => i < self@.len() && path@ == self@[i as int],
                None => i >= self@.len(),
            },
    {
        if i < self.paths.len() {
            Some(self.paths[i].as_str())
        } else {
            None
        }
    }

    /// Puts a new entry before all others.
    pub fn push_front(&mut self, path: &str)
        ensures
            final(self)@ == seq![path@] + old(self)@,
    {
        let entry = owned(path);
        proof {
            assert(views(seq![entry] + self.paths@) =~= seq![path@] + views(self.paths@));
        }
        self.paths.push_front(entry);
    }

    /// Puts a new entry behind all others.
    pub fn push_back(&mut self, path: &str)
        ensures
            final(self)@ == old(self)@.push(path@),
    {
        let entry = owned(path);
        proof {
            lemma_views_push(self.paths@, entry);
        }
        self.paths.push_back(entry);
    }

    /// Joins two class paths: the entries of `self` come first, those of
    /// `other` behind them.
    pub fn join(self, other: Classpath) -> (r: Classpath)
        ensures
            r@ == self@ + other@,
    {
        let mut paths = self.paths;
        let mut rest = other.paths;
        proof {
            assert(views(paths@ + rest@) =~= views(paths@) + views(rest@));
        }
        paths.append(&mut rest);
        Classpath { paths }
    }

    /// Puts the entries of `other` behind those of `self`.
    pub fn extend(&mut self, other: Classpath)
        ensures
            final(self)@ == old(self)@ + other@,
    {
        let mut rest = other.paths;
        proof {
            assert(views(self.paths@ + rest@) =~= views(self.paths@) + views(rest@));
        }
        self.paths.append(&mut rest);
    }

    /// Creates a class path of the given entries, in their order.
    pub fn from_iter<const N: usize>(entries: [&str; N]) -> (r: Classpath)
        ensures
            r@.len() == N,
            forall|i: int| 0 <= i < N ==> r@[i] == entries@[i]@,
    {
        let mut out = Classpath::new();
        let mut i: usize = 0;
        while i < N
            invariant
                i <= N,
                entries@.len() == N,
                out@.len() == i,
                forall|j: int| 0 <= j < i ==> out@[j] == entries@[j]@,
            decreases N - i,
        {
            out.push_back(entries[i]);
            i += 1;
        }
        out
    }

    /// Creates a class path of the given entries, in their order.
    pub fn from_entries(entries: Vec<String>) -> (r: Classpath)
        ensures
            r@ == views(entries@),
    {
        let mut out = Classpath::new();
        let mut i: usize = 0;
        proof {
            assert(views(entries@).take(0) =~= Seq::<Seq<char>>::empty());
        }
        while i < entries.len()
            invariant
                i <= entries@.len(),
                out@ == views(entries@).take(i as int),
            decreases entries@.len() - i,
        {
            proof {
                assert(views(entries@).take(i as int).push(entries@[i as int]@) =~= views(
                    entries@,
                ).take(i + 1));
            }
            out.push_back(entries[i].as_str());
            i += 1;
        }
        proof {
            assert(views(entries@).take(i as int) =~= views(entries@));
        }
        out
    }

    /// Reads a class path that is written as one text, with `separator`
    /// between two entries.
    pub fn parse_with(s: &str, separator: char) -> (r: Classpath)
        ensures
            r@ == split(s@, separator),
    {
        Classpath::from_entries(split_text(s, separator))
    }

    /// Writes the class path as one text, with [`CLASSPATH_SEPARATOR`]
    /// between two entries.
    pub fn joined(&self) -> (r: String)
        ensures
            r@ == joined_prefix(self@, self@.len()),
    {
        let mut out = String::new();
        let mut i: usize = 0;
        proof {
            reveal_strlit(":");
            assert(":"@ =~= seq![CLASSPATH_SEPARATOR]);
        }
        while i < self.paths.len()
            invariant
                i <= self.paths@.len(),
                self@ == views(self.paths@),
                out@ == joined_prefix(self@, i as nat),
                ":"@ == seq![CLASSPATH_SEPARATOR],
            decreases self.paths@.len() - i,
        {
            proof {
                assert(self@[i as int] == self.paths@[i as int]@);
                assert(Seq::<char>::empty() + self@[i as int] =~= self@[i as int]);
            }
            if out.as_str().unicode_len() != 0 {
                out.append(":");
            }
            out.append(self.paths[i].as_str());
            i += 1;
        }
        out
    }
}

impl Default for Classpath {
    fn default() -> (r: Classpath)
        ensures
            r@ == Seq::<Seq<char>>::empty(),
    {
        Classpath::new()
    }
}

impl<'a> From<&'a str> for Classpath {
    /// Creates a class path with the given path as its single entry.
    fn from(path: &'a str) -> (r: Classpath)
        ensures
            r@ == seq![path@],
    {
        let mut out = Classpath::new();
        out.push_back(path);
        out
    }
}

impl<'a> FromSpecImpl<&'a str> for Classpath {
    open spec fn obeys_from_spec() -> bool {
        false
    }

    open spec fn from_spec(v: &'a str) -> Classpath {
        arbitrary()
    }
}

impl From<String> for Classpath {
    /// Creates a class path with the given path as its single entry.
    fn from(path: String) -> (r: Classpath)
        ensures
            r@ == seq![path@],
    {
        let mut out = Classpath::new();
        out.push_back(path.as_str());
        out
    }
}

impl FromSpecImpl<String> for Classpath {
    open spec fn obeys_from_spec() -> bool {
        false
    }

    open spec fn from_spec(v: String) -> Classpath {
        arbitrary()
    }
}

impl From<Vec<String>> for Classpath {
    /// Creates a class path of the given entries, in their order.
    fn from(entries: Vec<String>) -> (r: Classpath)
        ensures
            r@ == views(entries@),
    {
        Classpath::from_entries(entries)
    }
}

impl FromSpecImpl<Vec<String>> for Classpath {
    open spec fn obeys_from_spec() -> bool {
        false
    }

    open spec fn from_spec(v: Vec<String>) -> Classpath {
        arbitrary()
    }
}

impl FromStr for Classpath {
    type Err = core::convert::Infallible;

    /// Reads a class path whose entries are separated by
    /// [`CLASSPATH_SEPARATOR`].
    fn from_str(s: &str) -> (r: Result<Classpath, core::convert::Infallible>)
        ensures
            r matches Ok(path) && path@ == split(s@, CLASSPATH_SEPARATOR),
    {
        Ok(Classpath::parse_with(s, CLASSPATH_SEPARATOR))
    }
}

impl std::ops::Add for Classpath {
    type Output = Classpath;

    fn add(self, rhs: Classpath) -> (r: Classpath)
        ensures
            r@ == self@ + rhs@,
    {
        self.join(rhs)
    }
}

impl AddSpecImpl for Classpath {
    open spec fn obeys_add_spec() -> bool {
        false
    }

    open spec fn add_req(self, rhs: Classpath) -> bool {
        true
    }

    open spec fn add_spec(self, rhs: Classpath) -> Classpath {
        self
    }
}

impl std::ops::AddAssign for Classpath {
    fn add_assign(&mut self, rhs: Classpath)
        ensures
            final(self)@ == old(self)@ + rhs@,
    {
        self.extend(rhs)
    }
}

/// A text that is cut behind a separator is cut into the pieces of what
/// stands before the separator and the pieces of what stands behind it.
proof fn lemma_split_at_separator(a: Seq<char>, b: Seq<char>, separator: char, n: nat)
    requires
        n <= b.len(),
    ensures
        split_prefix(a + seq![separator] + b, separator, a.len() + 1 + n) == split(a, separator)
            + split_prefix(b, separator, n),
    decreases n,
{
    let s = a + seq![separator] + b;
    if n == 0 {
        lemma_split_of_prefix(s, a, separator, a.len());
        assert(s[a.len() as int] == separator);
        assert(split(a, separator).push(Seq::empty()) =~= split(a, separator) + split_prefix(
            b,
            separator,
            0,
        ));
    } else {
        lemma_split_at_separator(a, b, separator, (n - 1) as nat);
        lemma_split_is_not_empty(b, separator, (n - 1) as nat);
        let left = split(a, separator);
        let right = split_prefix(b, separator, (n - 1) as nat);
        assert(s[(a.len() + n) as int] == b[n - 1]);
        if b[n - 1] == separator {
            assert((left + right).push(Seq::empty()) =~= left + right.push(Seq::empty()));
        } else {
            let both = left + right;
            assert(both.last() == right.last());
            assert(both.update(both.len() - 1, both.last().push(b[n - 1])) =~= left + right.update(
                right.len() - 1,
                right.last().push(b[n - 1]),
            ));
        }
    }
}

/// The pieces of the start of a text depend on that start alone.
proof fn lemma_split_of_prefix(s: Seq<char>, a: Seq<char>, separator: char, n: nat)
    requires
        n <= a.len() <= s.len(),
        forall|i: int| 0 <= i < a.len() ==> s[i] == a[i],
    ensures
        split_prefix(s, separator, n) == split_prefix(a, separator, n),
    decreases n,
{
    if n > 0 {
        lemma_split_of_prefix(s, a, separator, (n - 1) as nat);
    }
}

/// A text is cut into at least one piece.
proof fn lemma_split_is_not_empty(s: Seq<char>, separator: char, n: nat)
    ensures
        split_prefix(s, separator, n).len() >= 1,
    decreases n,
{
    if n > 0 {
        lemma_split_is_not_empty(s, separator, (n - 1) as nat);
    }
}

/// A text without separator is one piece.
proof fn lemma_split_without_separator(s: Seq<char>, separator: char, n: nat)
    requires
        n <= s.len(),
        !s.contains(separator),
    ensures
        split_prefix(s, separator, n) == seq![s.take(n as int)],
    decreases n,
{
    if n == 0 {
        assert(split_prefix(s, separator, n) =~~= seq![s.take(n as int)]);
    } else {
        lemma_split_without_separator(s, separator, (n - 1) as nat);
        assert(s[n - 1] != separator);
        assert(s.take(n - 1).push(s[n - 1]) =~= s.take(n as int));
        assert(split_prefix(s, separator, n) =~~= seq![s.take(n as int)]);
    }
}

/// Whether a class path can be written as one text and read again: it has an
/// entry, and no entry is empty or holds the separator.
pub open spec fn writable(entries: Seq<Seq<char>>) -> bool {
    &&& entries.len() >= 1
    &&& forall|i: int|
        0 <= i < entries.len() ==> (#[trigger] entries[i]).len() > 0 && !entries[i].contains(
            CLASSPATH_SEPARATOR,
        )
}

/// Writing and reading are inverse: a class path that is written as one text
/// is read back from that text as it was.
pub proof fn lemma_split_of_joined(entries: Seq<Seq<char>>, n: nat)
    requires
        writable(entries),
        1 <= n <= entries.len(),
    ensures
        joined_prefix(entries, n).len() > 0,
        split(joined_prefix(entries, n), CLASSPATH_SEPARATOR) == entries.take(n as int),
    decreases n,
{
    let last = entries[n - 1];
    lemma_split_without_separator(last, CLASSPATH_SEPARATOR, last.len());
    assert(last.take(last.len() as int) =~= last);
    if n == 1 {
        assert(joined_prefix(entries, 0).len() == 0);
        assert(entries.take(1) =~= seq![last]);
    } else {
        lemma_split_of_joined(entries, (n - 1) as nat);
        let before = joined_prefix(entries, (n - 1) as nat);
        lemma_split_at_separator(before, last, CLASSPATH_SEPARATOR, last.len());
        assert((before + seq![CLASSPATH_SEPARATOR] + last).len() == before.len() + 1 + last.len());
        assert(entries.take(n - 1) + seq![last] =~= entries.take(n as int));
    }
}

/// The greatest offset below `n` at which a character stands in a text, or
/// -1 where it stands at none.
pub open spec fn last_index_of(s: Seq<char>, c: char, n: nat) -> int
    decreases n,
{
    if n == 0 {
        -1
    } else if s[n - 1] == c {
        n - 1
    } else {
        last_index_of(s, c, (n - 1) as nat)
    }
}

/// The last component of the first `n` characters of a path, as the offsets
/// at which it starts and ends. The components of a path are what stands
/// between its `/`; an empty component and the component `.` say nothing and
/// are passed over. There is no last component where none is left, nor where
/// the path ends in the component `..`.
pub open spec fn file_name_in(path: Seq<char>, n: nat) -> Option<(int, int)>
    decreases n,
{
    let start = last_index_of(path, '/', n) + 1;
    if n == 0 || start < 0 || start > n {
        None
    } else if n - start == 0 || (n - start == 1 && path[start] == '.') {
        if start == 0 {
            None
        } else {
            file_name_in(path, (start - 1) as nat)
        }
    } else if n - start == 2 && path[start] == '.' && path[start + 1] == '.' {
        None
    } else {
        Some((start, n as int))
    }
}

/// The extension of the last component of the first `n` characters of a
/// path: what stands behind the last `.` of that component, where that `.`
/// is not its first character.
pub open spec fn extension_in(path: Seq<char>, n: nat) -> Option<Seq<char>> {
    match file_name_in(path, n) {
        None => None,
        Some((start, end)) => {
            let dot = last_index_of(path, '.', end as nat);
            if dot > start {
                Some(path.subrange(dot + 1, end))
            } else {
                None
            }
        },
    }
}

/// The extension of a path: what stands behind the last `.` of its last
/// component, where that `.` is not the first character of the component. A
/// path without a last component has no extension.
pub open spec fn extension_of(path: Seq<char>) -> Option<Seq<char>> {
    extension_in(path, path.len())
}

/// Finds the greatest offset below `n` at which a character stands in a text.
fn find_last(s: &str, c: char, n: usize, len: usize) -> (r: Option<usize>)
    requires
        n <= len,
        len == s@.len(),
    ensures
        match r {
            Some(i) => last_index_of(s@, c, n as nat) == i && i < n,
            None => last_index_of(s@, c, n as nat) == -1,
        },
{
    let mut k: usize = n;
    while k > 0
        invariant
            k <= n <= len,
            len == s@.len(),
            last_index_of(s@, c, n as nat) == last_index_of(s@, c, k as nat),
        decreases k,
    {
        if s.get_char(k - 1) == c {
            return Some(k - 1);
        }
        k -= 1;
    }
    None
}

/// The extension of a path, if it has one.
pub fn extension(path: &str) -> (r: Option<&str>)
    ensures
        match r {
            Some(ext) => extension_of(path@) == Some(ext@),
            None => extension_of(path@) is None,
        },
{
    let len: usize = path.unicode_len();
    let mut n: usize = len;
    while n > 0
        invariant
            n <= len,
            len == path@.len(),
            extension_of(path@) == extension_in(path@, n as nat),
        decreases n,
    {
        let start: usize = match find_last(path, '/', n, len) {
            Some(i) => i + 1,
            None => 0,
        };
        let size: usize = n - start;
        if size == 0 || (size == 1 && path.get_char(start) == '.') {
            if start == 0 {
                return None;
            }
            n = start - 1;
        } else if size == 2 && path.get_char(start) == '.' && path.get_char(start + 1) == '.' {
            return None;
        } else {
            return match find_last(path, '.', n, len) {
                Some(dot) => if dot > start {
                    Some(path.substring_char(dot + 1, n))
                } else {
                    None
                },
                None => None,
            };
        }
    }
    None
}

/// What an entry of a class path is.
#[derive(Debug, Clone, Copy, PartialEq, Eq, Structural)]
pub enum EntryKind {
    /// A directory: a resource is a file below it.
    Directory,
    /// An archive, by its extension `jar` or `zip`: a resource is an entry of
    /// it, by its exact name.
    Archive,
    /// A single class file, by its extension `class`: it holds the one class
    /// that it declares.
    ClassFile,
    /// Anything else. Such an entry is a fault of the configuration.
    Unsupported,
}

/// What an entry is, given its path and whether a directory stands there.
pub open spec fn kind_of_entry(path: Seq<char>, is_dir: bool) -> EntryKind {
    if is_dir {
        EntryKind::Directory
    } else if extension_of(path) == Some("jar"@) || extension_of(path) == Some("zip"@) {
        EntryKind::Archive
    } else if extension_of(path) == Some("class"@) {
        EntryKind::ClassFile
    } else {
        EntryKind::Unsupported
    }
}

/// Tells what an entry is, given its path and whether a directory stands
/// there.
pub fn entry_kind(path: &str, is_dir: bool) -> (r: EntryKind)
    ensures
        r == kind_of_entry(path@, is_dir),
{
    if is_dir {
        return EntryKind::Directory;
    }
    match extension(path) {
        Some(ext) => if str_eq(ext, "jar") || str_eq(ext, "zip") {
            EntryKind::Archive
        } else if str_eq(ext, "class") {
            EntryKind::ClassFile
        } else {
            EntryKind::Unsupported
        },
        None => EntryKind::Unsupported,
    }
}

/// The number of `/` that a text starts with.
pub open spec fn leading_slashes(s: Seq<char>, from: int) -> int
    decreases s.len() - from,
{
    if 0 <= from < s.len() && s[from] == '/' {
        leading_slashes(s, from + 1)
    } else {
        from
    }
}

/// The name under which a resource is looked for: the path without the `/`
/// that it starts with.
pub open spec fn resource_name_of(path: Seq<char>) -> Seq<char> {
    path.subrange(leading_slashes(path, 0), path.len() as int)
}

/// The name under which a resource is looked for: the path without the `/`
/// that it starts with.
pub fn resource_name(path: &str) -> (r: &str)
    ensures
        r@ == resource_name_of(path@),
{
    let len: usize = path.unicode_len();
    let mut i: usize = 0;
    while i < len && path.get_char(i) == '/'
        invariant
            i <= len,
            len == path@.len(),
            leading_slashes(path@, 0) == leading_slashes(path@, i as int),
        decreases len - i,
    {
        i += 1;
    }
    path.substring_char(i, len)
}

/// The path of a resource below a directory: the directory, a `/` where it
/// does not end in one, and the name of the resource.
pub open spec fn path_below(directory: Seq<char>, name: Seq<char>) -> Seq<char> {
    if directory.len() == 0 || directory.last() == '/' {
        directory + name
    } else {
        directory + seq!['/'] + name
    }
}

/// The path of a resource below a directory.
pub fn file_below(directory: &str, name: &str) -> (r: String)
    ensures
        r@ == path_below(directory@, name@),
{
    let len: usize = directory.unicode_len();
    let mut out = owned(directory);
    if len != 0 && directory.get_char(len - 1) != '/' {
        proof {
            reveal_strlit("/");
            assert("/"@ =~= seq!['/']);
        }
        out.append("/");
    }
    out.append(name);
    out
}

/// What probing one entry for a resource gave.
#[derive(Debug, Clone, Copy, PartialEq, Eq, Structural)]
pub enum Probed {
    /// The entry holds the resource.
    Found,
    /// The entry does not hold the resource.
    Missing,
    /// The entry could not be read.
    Failed,
    /// The entry is of no kind that can hold resources.
    Unsupported,
}

/// How the search for a resource ends.
#[derive(Debug, Clone, Copy, PartialEq, Eq, Structural)]
pub enum Resolution {
    /// The entry of this index holds the resource.
    Found(usize),
    /// No entry holds the resource.
    NotFound,
    /// The entry of this index could not be read.
    Failed(usize),
    /// The entry of this index is of no kind that can hold resources.
    Unsupported(usize),
}

/// What to do next in the search for a resource.
#[derive(Debug, Clone, Copy, PartialEq, Eq, Structural)]
pub enum Next {
    /// Probe the entry of this index.
    Probe(usize),
    /// The search is over.
    Done(Resolution),
}

/// How the search ends that starts at the entry `from`, where `outcomes`
/// holds for each entry what probing it gives: the first entry that is not
/// missing the resource decides, and no entry behind it is looked at.
pub open spec fn resolution(outcomes: Seq<Probed>, from: int) -> Resolution
    decreases outcomes.len() - from,
{
    if from < 0 || from >= outcomes.len() {
        Resolution::NotFound
    } else {
        match outcomes[from] {
            Probed::Found => Resolution::Found(from as usize),
            Probed::Failed => Resolution::Failed(from as usize),
            Probed::Unsupported => Resolution::Unsupported(from as usize),
            Probed::Missing => resolution(outcomes, from + 1),
        }
    }
}

/// Whether a step of the search is right whatever the entries behind the
/// probed ones would give: it either ends the search as a full search from
/// `from` ends, or goes on to an entry from which a full search ends the
/// same.
pub open spec fn step_agrees(next: Next, outcomes: Seq<Probed>, from: int) -> bool {
    match next {
        Next::Probe(entry) => from <= entry < outcomes.len() && resolution(outcomes, from)
            == resolution(outcomes, entry as int),
        Next::Done(end) => resolution(outcomes, from) == end,
    }
}

impl Classpath {
    /// Starts the search for a resource: the first entry is probed first.
    pub fn begin_search(&self) -> (r: Next)
        ensures
            r == (if self@.len() == 0 {
                Next::Done(Resolution::NotFound)
            } else {
                Next::Probe(0)
            }),
            forall|outcomes: Seq<Probed>|
                outcomes.len() == self@.len() ==> #[trigger] step_agrees(r, outcomes, 0),
    {
        assert(self@.len() == self.paths@.len());
        if self.paths.len() == 0 {
            Next::Done(Resolution::NotFound)
        } else {
            Next::Probe(0)
        }
    }

    /// Goes on with the search after the entry `probed` gave `outcome`: a
    /// finding or a failure ends the search at that entry, a miss leads to
    /// the next entry or, behind the last, to the end. An index behind the
    /// last entry ends the search with nothing found.
    pub fn continue_search(&self, probed: usize, outcome: Probed) -> (r: Next)
        ensures
            r == (if probed >= self@.len() {
                Next::Done(Resolution::NotFound)
            } else {
                match outcome {
                    Probed::Found => Next::Done(Resolution::Found(probed)),
                    Probed::Failed => Next::Done(Resolution::Failed(probed)),
                    Probed::Unsupported => Next::Done(Resolution::Unsupported(probed)),
                    Probed::Missing => if probed + 1 < self@.len() {
                        Next::Probe((probed + 1) as usize)
                    } else {
                        Next::Done(Resolution::NotFound)
                    },
                }
            }),
            forall|outcomes: Seq<Probed>|
                outcomes.len() == self@.len() && probed < self@.len() && outcomes[probed as int]
                    == outcome ==> #[trigger] step_agrees(r, outcomes, probed as int),
    {
        assert(self@.len() == self.paths@.len());
        let count: usize = self.paths.len();
        if probed >= count {
            return Next::Done(Resolution::NotFound);
        }
        let r = match outcome {
            Probed::Found => Next::Done(Resolution::Found(probed)),
            Probed::Failed => Next::Done(Resolution::Failed(probed)),
            Probed::Unsupported => Next::Done(Resolution::Unsupported(probed)),
            Probed::Missing => if count - probed > 1 {
                Next::Probe(probed + 1)
            } else {
                Next::Done(Resolution::NotFound)
            },
        };
        proof {
            assert forall|outcomes: Seq<Probed>|
                outcomes.len() == self@.len() && probed < self@.len() && outcomes[probed as int]
                    == outcome implies #[trigger] step_agrees(r, outcomes, probed as int) by {
                assert(resolution(outcomes, probed as int) == match outcome {
                    Probed::Found => Resolution::Found(probed),
                    Probed::Failed => Resolution::Failed(probed),
                    Probed::Unsupported => Resolution::Unsupported(probed),
                    Probed::Missing => resolution(outcomes, probed + 1),
                });
            }
        }
        r
    }
}

/// The first entry that holds a resource wins: where every entry before
/// `winner` misses the resource and `winner` holds it, the search ends at
/// `winner`, whatever the entries behind it hold.
pub proof fn lemma_first_match_wins(outcomes: Seq<Probed>, winner: int)
    requires
        0 <= winner < outcomes.len(),
        outcomes[winner] == Probed::Found,
        forall|i: int| 0 <= i < winner ==> outcomes[i] == Probed::Missing,
    ensures
        resolution(outcomes, 0) == Resolution::Found(winner as usize),
{
    lemma_resolution_skips_misses(outcomes, 0, winner);
}

/// A search passes over entries that miss the resource.
pub proof fn lemma_resolution_skips_misses(outcomes: Seq<Probed>, from: int, to: int)
    requires
        0 <= from <= to <= outcomes.len(),
        forall|i: int| from <= i < to ==> outcomes[i] == Probed::Missing,
    ensures
        resolution(outcomes, from) == resolution(outcomes, to),
    decreases to - from,
{
    if from < to {
        lemma_resolution_skips_misses(outcomes, from + 1, to);
    }
}

/// What stands behind the entry that decides does not matter: two class
/// paths that agree up to and with the first entry that is not missing the
/// resource end the search in the same way.
pub proof fn lemma_later_entries_are_not_consulted(a: Seq<Probed>, b: Seq<Probed>, decisive: int)
    requires
        0 <= decisive < a.len(),
        decisive < b.len(),
        a[decisive] != Probed::Missing,
        forall|i: int| 0 <= i <= decisive ==> a[i] == b[i],
        forall|i: int| 0 <= i < decisive ==> a[i] == Probed::Missing,
    ensures
        resolution(a, 0) == resolution(b, 0),
{
    lemma_resolution_skips_misses(a, 0, decisive);
    lemma_resolution_skips_misses(b, 0, decisive);
}

} // verus!
