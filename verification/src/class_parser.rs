//! The class parser: finds classes by their fully qualified names and keeps
//! what it has decoded.
//!
//! The parser decides; reading is left to the caller. Asked for a class, it
//! answers from its cache or names the resource that has to be read. Handed
//! what the reading gave, it decodes the bytes and keeps the class, so that
//! the same name is never read twice.

use crate::classpath::Classpath;
use crate::error::{Error, ErrorKind};
use crate::raw_java_class::{class_of, parse_class_file_bytes, ClassRecord};
use crate::structures::class::{class_name_at, JavaClass};
use crate::structures::fully_qualified_name::{FQName, FQNameBuf};
use crate::text::{owned, str_eq};
use vstd::prelude::*;
use vstd::string::*;

verus! {

/// The class that a list of named classes holds for a name: that of the
/// first entry of that name.
pub open spec fn lookup(entries: Seq<(Seq<char>, ClassRecord)>, name: Seq<char>) -> Option<
    ClassRecord,
>
    decreases entries.len(),
{
    if entries.len() == 0 {
        None
    } else {
        match lookup(entries.drop_last(), name) {
            Some(class) => Some(class),
            None => if entries.last().0 == name {
                Some(entries.last().1)
            } else {
                None
            },
        }
    }
}

/// A class that is found among the first entries is the class that is found.
pub proof fn lemma_lookup_found_stays(
    entries: Seq<(Seq<char>, ClassRecord)>,
    name: Seq<char>,
    k: int,
)
    requires
        0 <= k <= entries.len(),
        lookup(entries.take(k), name) is Some,
    ensures
        lookup(entries, name) == lookup(entries.take(k), name),
    decreases entries.len(),
{
    if k < entries.len() {
        assert(entries.drop_last().take(k) =~= entries.take(k));
        lemma_lookup_found_stays(entries.drop_last(), name, k);
    } else {
        assert(entries.take(k) =~= entries);
    }
}

/// Whether no name stands twice in a list of named classes.
pub open spec fn names_apart(entries: Seq<(Seq<char>, ClassRecord)>) -> bool {
    forall|i: int, j: int|
        0 <= i < j < entries.len() ==> (#[trigger] entries[i]).0 != (#[trigger] entries[j]).0
}

/// No class is found for a name exactly where no entry has the name.
pub proof fn lemma_lookup_none(entries: Seq<(Seq<char>, ClassRecord)>, name: Seq<char>)
    ensures
        lookup(entries, name) is None <==> forall|i: int|
            0 <= i < entries.len() ==> (#[trigger] entries[i]).0 != name,
    decreases entries.len(),
{
    if entries.len() > 0 {
        let before = entries.drop_last();
        lemma_lookup_none(before, name);
        if lookup(entries, name) is None {
            assert forall|i: int| 0 <= i < entries.len() implies (#[trigger] entries[i]).0
                != name by {
                if i < before.len() {
                    assert(before[i] == entries[i]);
                }
            }
        } else if lookup(before, name) is Some {
            let i = choose|i: int| 0 <= i < before.len() && (#[trigger] before[i]).0 == name;
            assert(entries[i].0 == name);
        } else {
            assert(entries[entries.len() - 1].0 == name);
        }
    }
}

/// Keeping a class under a name that is not kept yet leaves no name twice.
pub proof fn lemma_keeping_keeps_names_apart(
    entries: Seq<(Seq<char>, ClassRecord)>,
    name: Seq<char>,
    class: ClassRecord,
)
    requires
        names_apart(entries),
        lookup(entries, name) is None,
    ensures
        names_apart(entries.push((name, class))),
{
    lemma_lookup_none(entries, name);
    let after = entries.push((name, class));
    assert forall|i: int, j: int| 0 <= i < j < after.len() implies (#[trigger] after[i]).0 != (
    #[trigger] after[j]).0 by {
        assert(after[i] == entries[i]);
        if j < entries.len() {
            assert(after[j] == entries[j]);
        }
    }
}

/// The resource that holds the class of a name: the name and `.class`.
pub open spec fn resource_of(name: Seq<char>) -> Seq<char> {
    name + ".class"@
}

/// One class that the parser keeps, under the name by which it was asked
/// for.
#[derive(Debug, Clone)]
struct Kept {
    name: FQNameBuf,
    class: JavaClass,
}

impl View for Kept {
    type V = (Seq<char>, ClassRecord);

    closed spec fn view(&self) -> (Seq<char>, ClassRecord) {
        (self.name@, self.class@)
    }
}

/// What the search of the class path for a resource gave.
#[derive(Debug)]
pub enum Lookup {
    /// The resource was read: these are its bytes.
    Found(Vec<u8>),
    /// No entry of the class path holds the resource.
    Missing,
    /// The resource or an entry could not be read; holds the report.
    Failed(String),
    /// An entry of the class path is of no kind that can hold resources;
    /// holds the entry.
    Unsupported(String),
}

/// The answer of the parser to a request for a class.
#[derive(Debug)]
pub enum Answer<'a> {
    /// The class was decoded before: here it is.
    Cached(&'a JavaClass),
    /// The class is not known yet: the resource of this name has to be read
    /// from the class path.
    Read(String),
}

/// Decodes the bytes of a class file into a class.
pub fn parse_bytes(bytes: &[u8]) -> (r: Result<JavaClass, Error>)
    ensures
        match r {
            Ok(class) => class_of(bytes@) == Ok::<ClassRecord, ErrorKind>(class@),
            Err(e) => class_of(bytes@) == Err::<ClassRecord, ErrorKind>(e@),
        },
{
    match parse_class_file_bytes(bytes) {
        Ok(raw) => Ok(JavaClass::new(raw)),
        Err(e) => Err(e),
    }
}

/// Finds classes on a class path and keeps what it has decoded.
#[derive(Debug)]
pub struct JavaClassParser {
    class_path: Classpath,
    cache: Vec<Kept>,
}

impl JavaClassParser {
    /// The parser keeps at most one class under a name.
    #[verifier::type_invariant]
    spec fn keeps_names_apart(&self) -> bool {
        names_apart(crate::bytes::views(self.cache@))
    }

    /// The classes that the parser keeps, each under its name, in the order
    /// in which they were decoded.
    pub closed spec fn kept(&self) -> Seq<(Seq<char>, ClassRecord)> {
        crate::bytes::views(self.cache@)
    }

    /// The entries of the class path of the parser.
    pub closed spec fn entries(&self) -> Seq<Seq<char>> {
        self.class_path@
    }

    /// Creates a parser for a class path that is written as one text, with
    /// `;` between two entries.
    pub fn new(classpath: &str) -> (r: JavaClassParser)
        ensures
            r.entries() == crate::classpath::split(classpath@, ';'),
            r.kept() == Seq::<(Seq<char>, ClassRecord)>::empty(),
            names_apart(r.kept()),
    {
        proof {
            crate::bytes::lemma_views_empty::<Kept>();
        }
        JavaClassParser { class_path: Classpath::parse_with(classpath, ';'), cache: Vec::new() }
    }

    /// Creates a parser for a class path.
    pub fn with_classpath(classpath: Classpath) -> (r: JavaClassParser)
        ensures
            r.entries() == classpath@,
            r.kept() == Seq::<(Seq<char>, ClassRecord)>::empty(),
            names_apart(r.kept()),
    {
        proof {
            crate::bytes::lemma_views_empty::<Kept>();
        }
        JavaClassParser { class_path: classpath, cache: Vec::new() }
    }

    /// Gets the class path of the parser.
    pub fn classpath(&self) -> (r: &Classpath)
        ensures
            r@ == self.entries(),
    {
        &self.class_path
    }

    /// Gets the class that the parser keeps under a name.
    pub fn cached(&self, name: FQName) -> (r: Option<&JavaClass>)
        ensures
            names_apart(self.kept()),
            match r {
                Some(class) => lookup(self.kept(), name@) == Some(class@),
                None => lookup(self.kept(), name@) is None,
            },
    {
        let mut i: usize = 0;
        let ghost all = self.kept();
        proof {
            use_type_invariant(&*self);
            assert(all.take(0) =~= Seq::<(Seq<char>, ClassRecord)>::empty());
        }
        while i < self.cache.len()
            invariant
                i <= self.cache@.len(),
                all == self.kept(),
                all == crate::bytes::views(self.cache@),
                names_apart(all),
                lookup(all.take(i as int), name@) is None,
            decreases self.cache@.len() - i,
        {
            let ghost next = all.take(i + 1);
            proof {
                assert(next.drop_last() =~= all.take(i as int));
                assert(next.last() == self.cache@[i as int]@);
            }
            if str_eq(self.cache[i].name.as_str(), name.as_str()) {
                proof {
                    lemma_lookup_found_stays(all, name@, i + 1);
                }
                return Some(&self.cache[i].class);
            }
            i += 1;
        }
        proof {
            assert(all.take(i as int) =~= all);
        }
        None
    }

    /// The name of the resource that holds the class of a name.
    pub fn resource_path(name: FQName) -> (r: String)
        ensures
            r@ == resource_of(name@),
    {
        let mut out = owned(name.as_str());
        out.append(".class");
        out
    }

    /// Answers a request for a class: from the cache where the class was
    /// decoded before, else with the name of the resource to read. A class
    /// that is kept is never asked for again.
    pub fn find(&self, name: FQName) -> (r: Answer<'_>)
        ensures
            names_apart(self.kept()),
            match r {
                Answer::Cached(class) => lookup(self.kept(), name@) == Some(class@),
                Answer::Read(path) => lookup(self.kept(), name@) is None && path@ == resource_of(
                    name@,
                ),
            },
    {
        match self.cached(name) {
            Some(class) => Answer::Cached(class),
            None => Answer::Read(JavaClassParser::resource_path(name)),
        }
    }

    /// Takes what the search for the resource of a class gave. Bytes are
    /// decoded and the class is kept under the name; a class that is kept
    /// under the name already stays.
    ///
    /// Fails with [`ErrorKind::NoClassFound`] and the name where the resource
    /// is missing, with [`ErrorKind::Io`] and the report where reading
    /// failed, with [`ErrorKind::UnsupportedEntry`] and the entry where the
    /// class path holds an entry of no supported kind, and as
    /// [`parse_bytes`] does where the bytes are no class file.
    /// The cache is then left as it was.
    pub fn settle(&mut self, name: FQName, found: Lookup) -> (r: Result<(), Error>)
        ensures
            final(self).entries() == old(self).entries(),
            names_apart(old(self).kept()),
            names_apart(final(self).kept()),
            match r {
                Ok(()) => found matches Lookup::Found(bytes) && class_of(bytes@) matches Ok(class)
                    && final(self).kept() == (if lookup(old(self).kept(), name@) is Some {
                    old(self).kept()
                } else {
                    old(self).kept().push((name@, class))
                }),
                Err(e) => final(self).kept() == old(self).kept() && (match found {
                    Lookup::Found(bytes) => class_of(bytes@) == Err::<ClassRecord, ErrorKind>(e@),
                    Lookup::Missing => e@ matches ErrorKind::NoClassFound(n) && n@ == name@,
                    Lookup::Failed(report) => e@ matches ErrorKind::Io(text) && text@ == report@,
                    Lookup::Unsupported(entry) => e@ matches ErrorKind::UnsupportedEntry(path)
                        && path@ == entry@,
                }),
            },
            r is Ok ==> lookup(final(self).kept(), name@) is Some,
    {
        proof {
            use_type_invariant(&*self);
        }
        match found {
            Lookup::Found(bytes) => {
                let class = parse_bytes(bytes.as_slice())?;
                if self.cached(name).is_none() {
                    let kept = Kept { name: name.to_fqname_buf(), class };
                    proof {
                        crate::bytes::lemma_views_push(self.cache@, kept);
                        let after = self.kept().push(kept@);
                        assert(after.drop_last() =~= self.kept());
                        lemma_keeping_keeps_names_apart(self.kept(), name@, class@);
                    }
                    let mut cache: Vec<Kept> = Vec::new();
                    proof {
                        crate::bytes::lemma_views_empty::<Kept>();
                    }
                    std::mem::swap(&mut cache, &mut self.cache);
                    cache.push(kept);
                    self.cache = cache;
                }
                Ok(())
            },
            Lookup::Missing => Err(Error::new(ErrorKind::NoClassFound(name.to_fqname_buf()))),
            Lookup::Failed(report) => Err(Error::new(ErrorKind::Io(report))),
            Lookup::Unsupported(entry) => Err(Error::new(ErrorKind::UnsupportedEntry(entry))),
        }
    }
}

/// Tells whether a class is what a resource of a given name holds: a class
/// file that stands on the class path by itself matches only the resource of
/// the name that the class declares.
pub fn is_resource_of(class: &JavaClass, resource: &str) -> (r: bool)
    ensures
        r == match class_name_at(class@.constant_pool, class@.this_class) {
            Some(name) => resource_of(name) == resource@,
            None => false,
        },
{
    match class.this() {
        Ok(name) => {
            let expected = JavaClassParser::resource_path(name);
            str_eq(expected.as_str(), resource)
        },
        Err(_) => false,
    }
}

/// Decides what a lookup of an interface means for the list of interfaces
/// that are available: a class that was found is kept, an interface that is
/// not on the class path is passed over in silence, and any other error ends
/// the listing.
pub fn keep_available(found: Result<JavaClass, Error>) -> (r: Result<Option<JavaClass>, Error>)
    ensures
        match found {
            Ok(class) => r == Ok::<Option<JavaClass>, Error>(Some(class)),
            Err(e) => if e@ is NoClassFound {
                r == Ok::<Option<JavaClass>, Error>(None)
            } else {
                r == Err::<Option<JavaClass>, Error>(e)
            },
        },
{
    match found {
        Ok(class) => Ok(Some(class)),
        Err(e) => if e.is_not_found() {
            Ok(None)
        } else {
            Err(e)
        },
    }
}

/// A class that was kept is found again: once a name is settled, the parser
/// answers for it from its cache, with the class that was decoded then, and
/// what is kept later under other names does not change that.
pub proof fn lemma_kept_is_found(
    kept: Seq<(Seq<char>, ClassRecord)>,
    name: Seq<char>,
    class: ClassRecord,
    later: Seq<(Seq<char>, ClassRecord)>,
)
    requires
        lookup(kept, name) is None,
    ensures
        lookup(kept.push((name, class)) + later, name) == Some(class),
    decreases later.len(),
{
    let first = kept.push((name, class));
    assert(first.drop_last() =~= kept);
    if later.len() == 0 {
        assert(first + later =~= first);
    } else {
        lemma_kept_is_found(kept, name, class, later.drop_last());
        assert((first + later).drop_last() =~= first + later.drop_last());
    }
}

} // verus!
