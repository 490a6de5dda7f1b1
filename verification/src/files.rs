//! Names, paths and source positions.
//!
//! Strings and paths are interned by the [`Database`](crate::database::Database):
//! a [`Str`] or a [`Path`] is a small handle that can be copied and compared
//! cheaply, and two handles of one database are equal exactly when the text or
//! the segments they stand for are equal.

use vstd::prelude::*;
use vstd::string::StringExecFns;
use crate::database::Database;
use crate::text::{decimal, joined, lemma_decimal_injective, write_decimal};

verus! {

/// A span of code in a given source file, as a range of bytes.
#[derive(Clone, Copy, Debug, PartialEq, Eq, Structural, PartialOrd, Ord, Hash)]
pub struct Span {
    /// The lower bound of the span (inclusive).
    pub start: usize,
    /// The upper bound of the span (exclusive).
    pub end: usize,
}

impl Default for Span {
    /// The default span is `0..0`.
    fn default() -> (r: Span)
        ensures
            r == (Span { start: 0, end: 0 }),
    {
        Span { start: 0, end: 0 }
    }
}

impl Span {
    /// The span from `start` up to `end`.
    pub fn new(start: usize, end: usize) -> (r: Span)
        ensures
            r == (Span { start, end }),
    {
        Span { start, end }
    }

    /// The span as text: its bounds with two dots between them.
    pub open spec fn text(self) -> Seq<char> {
        decimal(self.start as nat) + ".."@ + decimal(self.end as nat)
    }

    /// The span as text: its bounds with two dots between them.
    pub fn to_string(&self) -> (r: String)
        ensures
            r@ == self.text(),
    {
        let mut out = String::new();
        write_decimal(&mut out, self.start as u64);
        out.append("..");
        write_decimal(&mut out, self.end as u64);
        assert(out@ =~= self.text());
        out
    }

    /// The number of bytes covered; a span that ends before it starts
    /// covers none.
    pub fn len(self) -> (r: usize)
        ensures
            r == if self.start <= self.end {
                self.end - self.start
            } else {
                0
            },
    {
        if self.start <= self.end {
            self.end - self.start
        } else {
            0
        }
    }
}

impl From<core::ops::Range<usize>> for Span {
    fn from(value: core::ops::Range<usize>) -> (r: Span) {
        Span { start: value.start, end: value.end }
    }
}

impl vstd::std_specs::convert::FromSpecImpl<core::ops::Range<usize>> for Span {
    open spec fn obeys_from_spec() -> bool {
        true
    }

    open spec fn from_spec(value: core::ops::Range<usize>) -> Span {
        Span { start: value.start, end: value.end }
    }
}

impl From<Span> for core::ops::Range<usize> {
    fn from(value: Span) -> (r: core::ops::Range<usize>) {
        value.start..value.end
    }
}

impl vstd::std_specs::convert::FromSpecImpl<Span> for core::ops::Range<usize> {
    open spec fn obeys_from_spec() -> bool {
        true
    }

    open spec fn from_spec(value: Span) -> core::ops::Range<usize> {
        core::ops::Range { start: value.start, end: value.end }
    }
}

/// Anything that knows where in the source it came from.
pub trait Spanned {
    /// The span of source code that this value was read from.
    fn span(&self) -> Span;
}

impl Spanned for Span {
    fn span(&self) -> (r: Span)
        ensures
            r == *self,
    {
        *self
    }
}

/// An interned string.
/// Can be safely copied and compared cheaply.
#[derive(Clone, Copy, Debug, PartialEq, Eq, Structural, Hash)]
pub struct Str {
    pub(crate) id: usize,
}

/// A fully qualified path.
/// Can be used, for example, as a qualified name for a definition or for a source file.
/// Can be safely copied and compared cheaply.
#[derive(Clone, Copy, Debug, PartialEq, Eq, Structural, Hash)]
pub struct Path {
    pub(crate) id: usize,
}

/// Used to deduce the file extension of a [`Source`].
#[derive(Clone, Copy, Debug, PartialEq, Eq, Structural, PartialOrd, Ord, Hash)]
pub enum SourceType {
    /// A feather source file, encoded as UTF-8.
    Feather,
    /// A quill source file, encoded as UTF-8.
    Quill,
}

impl SourceType {
    /// The file extension of source files of this type, without a dot.
    pub open spec fn extension_text(self) -> Seq<char> {
        match self {
            SourceType::Feather => seq!['f', 't', 'r'],
            SourceType::Quill => seq!['q', 'l', 'l'],
        }
    }

    /// The file extension of source files of this type, without a dot.
    pub fn extension(self) -> (r: &'static str)
        ensures
            r@ == self.extension_text(),
    {
        match self {
            SourceType::Feather => {
                proof {
                    reveal_strlit("ftr");
                    assert("ftr"@ =~= SourceType::Feather.extension_text());
                }
                "ftr"
            },
            SourceType::Quill => {
                proof {
                    reveal_strlit("qll");
                    assert("qll"@ =~= SourceType::Quill.extension_text());
                }
                "qll"
            },
        }
    }
}

/// Uniquely identifies a source file.
#[derive(Clone, Copy, Debug, PartialEq, Eq, Structural, Hash)]
pub struct Source {
    /// The relative path from the project root to this source file.
    /// File extensions are *not* appended to this path.
    pub path: Path,
    /// The type of the file.
    /// This is used to deduce the file extension.
    pub ty: SourceType,
}

impl Source {
    /// The source file of the given type at `path`.
    pub fn new(path: Path, ty: SourceType) -> (r: Source)
        ensures
            r == (Source { path, ty }),
    {
        Source { path, ty }
    }
}

/// A span of code in a particular source file.
/// See also [`Span`].
#[derive(Clone, Copy, Debug, PartialEq, Eq, Structural, Hash)]
pub struct SourceSpan {
    pub source: Source,
    pub span: Span,
}

impl SourceSpan {
    /// The given span of the given source file.
    pub fn new(source: Source, span: Span) -> (r: SourceSpan)
        ensures
            r == (SourceSpan { source, span }),
    {
        SourceSpan { source, span }
    }
}

/// Attaches provenance data to a type: the origin of some data, if known.
/// If no origin is given, we say that the provenance is "synthetic".
#[derive(Clone, Copy, Debug, PartialEq, Eq, Hash)]
pub struct WithProvenance<T> {
    /// The origin of the value.
    pub provenance: Option<SourceSpan>,
    /// The actual value.
    pub contents: T,
}

impl<T> WithProvenance<T> {
    /// Attaches the given origin to `contents`.
    pub fn new(provenance: Option<SourceSpan>, contents: T) -> (r: Self)
        ensures
            r.provenance == provenance,
            r.contents == contents,
    {
        WithProvenance { provenance, contents }
    }
}

/// The origin of some data, if known.
/// If no data is provided, we say that the provenance is "synthetic".
pub type Provenance = Option<SourceSpan>;

/// The texts of the strings `strs`.
pub open spec fn texts(db: &Database, strs: Seq<Str>) -> Seq<Seq<char>> {
    Seq::new(strs.len(), |i: int| db.text(strs[i]))
}

/// What separates the segments of a path when it is written out.
pub open spec fn separator() -> Seq<char> {
    seq![':', ':']
}

/// The path `p` written out: its segments with `::` between them.
pub open spec fn path_text(db: &Database, p: Path) -> Seq<char> {
    joined(texts(db, db.segments(p)), separator())
}

impl Str {
    /// The string with the given text: the one that the database holds
    /// already, or a new one.
    pub fn new(db: &mut Database, text: &str) -> (s: Str)
        requires
            old(db).wf(),
        ensures
            final(db).wf(),
            final(db).extends(old(db)),
            final(db).contains_str(s),
            final(db).text(s) == text@,
    {
        db.intern_str(text)
    }

    /// The text of this string.
    pub fn text(self, db: &Database) -> (r: &String)
        requires
            db.contains_str(self),
        ensures
            r@ == db.text(self),
    {
        db.str_text(self)
    }
}

impl Path {
    /// The path with the given segments: the one that the database holds
    /// already, or a new one.
    pub fn new(db: &mut Database, segments: Vec<Str>) -> (p: Path)
        requires
            old(db).wf(),
            forall|k: int| 0 <= k < segments@.len() ==> old(db).contains_str(#[trigger] segments@[k]),
        ensures
            final(db).wf(),
            final(db).extends(old(db)),
            final(db).contains_path(p),
            final(db).segments(p) == segments@,
    {
        db.intern_path(segments)
    }

    /// The segments of this path.
    pub fn segments(self, db: &Database) -> (r: &Vec<Str>)
        requires
            db.contains_path(self),
        ensures
            r@ == db.segments(self),
    {
        db.path_segments(self)
    }

    /// The path written out, with `::` between its segments.
    pub fn display(self, db: &Database) -> (r: String)
        requires
            db.wf(),
            db.contains_path(self),
        ensures
            r@ == path_text(db, self),
    {
        let segments = db.path_segments(self);
        proof {
            db.lemma_segments(self);
            reveal_strlit("::");
            assert("::"@ =~= separator());
        }
        let ghost parts = texts(db, segments@);
        let mut out = String::new();
        let n = segments.len();
        let mut i: usize = 0;
        assert(parts.take(0) =~= Seq::empty());
        assert(out@ =~= joined(parts.take(0), separator()));
        while i < n
            invariant
                db.wf(),
                db.contains_path(self),
                segments@ == db.segments(self),
                parts == texts(db, segments@),
                n == segments@.len(),
                i <= n,
                "::"@ == separator(),
                forall|k: int| 0 <= k < segments@.len() ==> db.contains_str(#[trigger] segments@[k]),
                out@ == joined(parts.take(i as int), separator()),
            decreases n - i,
        {
            if i > 0 {
                out.append("::");
            }
            out.append(db.str_text(segments[i]).as_str());
            proof {
                let taken = parts.take(i + 1);
                assert(taken.drop_last() =~= parts.take(i as int));
                assert(taken.last() == db.text(segments@[i as int]));
                if i == 0 {
                    assert(taken[0] == taken.last());
                    assert(out@ =~= joined(taken, separator()));
                } else {
                    assert(out@ =~= joined(taken, separator()));
                }
            }
            i += 1;
        }
        assert(parts.take(n as int) =~= parts);
        out
    }

    /// The path written out, with `::` between its segments.
    pub fn to_string(&self, db: &Database) -> (r: String)
        requires
            db.wf(),
            db.contains_path(*self),
        ensures
            r@ == path_text(db, *self),
    {
        self.display(db)
    }

    /// Split the last element off a path and return the resulting components.
    /// If a path was `[a, b, c]`, this function returns `([a, b], c)`.
    /// Typically this is used for extracting the name of the source file and the item inside that module from a qualified name.
    ///
    /// The path must have at least one segment.
    pub fn split_last(&self, db: &mut Database) -> (r: (Path, Str))
        requires
            old(db).wf(),
            old(db).contains_path(*self),
            old(db).segments(*self).len() > 0,
        ensures
            final(db).wf(),
            final(db).extends(old(db)),
            final(db).contains_path(r.0),
            final(db).segments(r.0) == old(db).segments(*self).drop_last(),
            r.1 == old(db).segments(*self).last(),
    {
        proof {
            db.lemma_segments(*self);
        }
        let segments = db.path_segments(*self);
        let n = segments.len() - 1;
        let last_element = segments[n];
        let mut source_file: Vec<Str> = Vec::new();
        let mut i: usize = 0;
        while i < n
            invariant
                segments@ == db.segments(*self),
                n + 1 == segments@.len(),
                i <= n,
                source_file@ == segments@.take(i as int),
            decreases n - i,
        {
            source_file.push(segments[i]);
            assert(segments@.take(i + 1) =~= segments@.take(i as int).push(segments@[i as int]));
            i += 1;
        }
        assert(segments@.take(n as int) =~= segments@.drop_last());
        (db.intern_path(source_file), last_element)
    }

    /// This path with one more segment at its end.
    pub fn with(self, db: &mut Database, segment: Str) -> (r: Path)
        requires
            old(db).wf(),
            old(db).contains_path(self),
            old(db).contains_str(segment),
        ensures
            final(db).wf(),
            final(db).extends(old(db)),
            final(db).contains_path(r),
            final(db).segments(r) == old(db).segments(self).push(segment),
    {
        let mut more: Vec<Str> = Vec::new();
        more.push(segment);
        assert(old(db).segments(self) + more@ =~= old(db).segments(self).push(segment));
        self.append(db, more)
    }

    /// This path with more segments at its end.
    pub fn append(self, db: &mut Database, segments: Vec<Str>) -> (r: Path)
        requires
            old(db).wf(),
            old(db).contains_path(self),
            forall|k: int| 0 <= k < segments@.len() ==> old(db).contains_str(#[trigger] segments@[k]),
        ensures
            final(db).wf(),
            final(db).extends(old(db)),
            final(db).contains_path(r),
            final(db).segments(r) == old(db).segments(self) + segments@,
    {
        proof {
            db.lemma_segments(self);
        }
        let own = db.path_segments(self);
        let mut joined_segments: Vec<Str> = Vec::new();
        let n = own.len();
        let mut i: usize = 0;
        while i < n
            invariant
                own@ == db.segments(self),
                n == own@.len(),
                i <= n,
                joined_segments@ == own@.take(i as int),
            decreases n - i,
        {
            joined_segments.push(own[i]);
            assert(own@.take(i + 1) =~= own@.take(i as int).push(own@[i as int]));
            i += 1;
        }
        assert(own@.take(n as int) =~= own@);
        let m = segments.len();
        let mut j: usize = 0;
        while j < m
            invariant
                m == segments@.len(),
                j <= m,
                joined_segments@ == db.segments(self) + segments@.take(j as int),
            decreases m - j,
        {
            joined_segments.push(segments[j]);
            assert(segments@.take(j + 1) =~= segments@.take(j as int).push(segments@[j as int]));
            assert(joined_segments@ =~= db.segments(self) + segments@.take(j + 1));
            j += 1;
        }
        assert(segments@.take(m as int) =~= segments@);
        db.intern_path(joined_segments)
    }
}

/// The `counter`-th string that a generator with the given prefix makes: the
/// prefix itself first, and then the prefix, an underscore and the number.
pub open spec fn generated_text(prefix: Seq<char>, counter: nat) -> Seq<char> {
    if counter == 0 {
        prefix
    } else {
        (prefix + seq!['_']) + decimal(counter)
    }
}

/// The strings that one generator makes are all different.
pub proof fn lemma_generated_distinct(prefix: Seq<char>, i: nat, j: nat)
    requires
        i != j,
    ensures
        generated_text(prefix, i) != generated_text(prefix, j),
{
    let head = prefix + seq!['_'];
    if i != 0 && j != 0 {
        if generated_text(prefix, i) == generated_text(prefix, j) {
            let a = head + decimal(i);
            let b = head + decimal(j);
            assert(a.subrange(head.len() as int, a.len() as int) =~= decimal(i));
            assert(b.subrange(head.len() as int, b.len() as int) =~= decimal(j));
            lemma_decimal_injective(i, j);
        }
    } else if i == 0 {
        assert(generated_text(prefix, j).len() > prefix.len());
    } else {
        assert(generated_text(prefix, i).len() > prefix.len());
    }
}

/// Generates a sequence of distinct strings with a given prefix.
pub struct StrGenerator {
    prefix: String,
    counter: u64,
}

impl StrGenerator {
    /// The prefix of the strings that this generator makes.
    pub closed spec fn prefix(&self) -> Seq<char> {
        self.prefix@
    }

    /// The number of strings that this generator has made.
    pub closed spec fn count(&self) -> nat {
        self.counter as nat
    }

    /// A generator of strings that start with `prefix`.
    pub fn new(prefix: &str) -> (r: Self)
        ensures
            r.prefix() == prefix@,
            r.count() == 0,
    {
        Self { prefix: prefix.to_owned(), counter: 0 }
    }

    /// Whether this generator can make another string: it makes at most
    /// `u64::MAX` of them.
    pub fn has_next(&self) -> (r: bool)
        ensures
            r == (self.count() < u64::MAX),
    {
        self.counter < u64::MAX
    }

    /// The next string: one that this generator has not made before.
    pub fn generate(&mut self, db: &mut Database) -> (r: Str)
        requires
            old(db).wf(),
            old(self).count() < u64::MAX,
        ensures
            final(db).wf(),
            final(db).extends(old(db)),
            final(db).contains_str(r),
            final(db).text(r) == generated_text(old(self).prefix(), old(self).count()),
            final(self).prefix() == old(self).prefix(),
            final(self).count() == old(self).count() + 1,
    {
        let mut text = self.prefix.clone();
        if self.counter != 0 {
            proof {
                reveal_strlit("_");
                assert("_"@ =~= seq!['_']);
            }
            text.append("_");
            write_decimal(&mut text, self.counter);
        }
        let result = db.intern_str(text.as_str());
        self.counter += 1;
        result
    }
}

} // verus!
