//! Section paths: where in a document a record was found.

use vstd::prelude::*;
use vstd::string::StringExecFns;
use crate::text::{same_text, starts_with};

verus! {

/// The section text of a record found outside every named section.
pub open spec fn unknown_section() -> Seq<char> {
    "unknown"@
}

/// The segments of `path` joined by single dots.
pub open spec fn joined(path: Seq<Seq<char>>) -> Seq<char>
    decreases path.len(),
{
    if path.len() == 0 {
        Seq::empty()
    } else if path.len() == 1 {
        path[0]
    } else {
        joined(path.drop_last()) + seq!['.'] + path.last()
    }
}

/// The section text of `path`: its segments joined by dots, or `unknown`
/// for the empty path.
pub open spec fn section_text(path: Seq<Seq<char>>) -> Seq<char> {
    if path.len() == 0 {
        unknown_section()
    } else {
        joined(path)
    }
}

/// `path` with its last segment replaced by `segment`; the empty path stays
/// empty.
pub open spec fn with_last_replaced(path: Seq<Seq<char>>, segment: Seq<char>) -> Seq<Seq<char>> {
    if path.len() == 0 {
        path
    } else {
        path.drop_last().push(segment)
    }
}

/// An ordered list of segments naming the sections above a place in a
/// document. A path is never changed: each step down makes a new one.
#[derive(Debug, PartialEq, Eq)]
pub struct SectionPath {
    segments: Vec<String>,
}

impl View for SectionPath {
    type V = Seq<Seq<char>>;

    closed spec fn view(&self) -> Seq<Seq<char>> {
        Seq::new(self.segments.len() as nat, |i: int| self.segments[i]@)
    }
}

impl SectionPath {
    /// The empty path, as at the root of a document.
    pub fn new() -> (path: SectionPath)
        ensures
            path@ == Seq::<Seq<char>>::empty(),
    {
        let path = SectionPath { segments: Vec::new() };
        assert(path@ =~= Seq::<Seq<char>>::empty());
        path
    }

    /// A copy of the first `count` segments.
    fn copy_of_first(&self, count: usize) -> (copy: SectionPath)
        requires
            count <= self@.len(),
        ensures
            copy@ == self@.take(count as int),
    {
        let mut segments: Vec<String> = Vec::new();
        let mut i: usize = 0;
        while i < count
            invariant
                i <= count <= self.segments.len(),
                segments.len() == i,
                forall|j: int| 0 <= j < i ==> segments[j]@ == self.segments[j]@,
            decreases count - i,
        {
            segments.push(self.segments[i].clone());
            i += 1;
        }
        let copy = SectionPath { segments };
        assert(copy@ =~= self@.take(count as int));
        copy
    }

    /// A new path: this one followed by `segment`.
    pub fn extended(&self, segment: &str) -> (path: SectionPath)
        ensures
            path@ == self@.push(segment@),
    {
        let mut path = self.copy_of_first(self.segments.len());
        let ghost copied = path@;
        assert(copied =~= self@);
        path.segments.push(String::from_str(segment));
        assert(path@ =~= copied.push(segment@));
        path
    }

    /// A new path: this one with its last segment replaced by `segment`.
    /// The empty path has no segment to replace and is copied as it is.
    pub fn with_last(&self, segment: &str) -> (path: SectionPath)
        ensures
            path@ == with_last_replaced(self@, segment@),
    {
        if self.segments.len() == 0 {
            let path = self.copy_of_first(0);
            assert(path@ =~= self@);
            path
        } else {
            let mut path = self.copy_of_first(self.segments.len() - 1);
            let ghost copied = path@;
            assert(copied =~= self@.drop_last());
            path.segments.push(String::from_str(segment));
            assert(path@ =~= copied.push(segment@));
            path
        }
    }

    /// Whether the last segment is exactly `segment`.
    pub fn last_is(&self, segment: &str) -> (r: bool)
        ensures
            r == (self@.len() > 0 && self@.last() == segment@),
    {
        let n = self.segments.len();
        n > 0 && same_text(self.segments[n - 1].as_str(), segment)
    }

    /// Whether the last segment begins with `prefix`.
    pub fn last_starts_with(&self, prefix: &str) -> (r: bool)
        ensures
            r == (self@.len() > 0 && prefix@.is_prefix_of(self@.last())),
    {
        let n = self.segments.len();
        n > 0 && starts_with(self.segments[n - 1].as_str(), prefix)
    }

    /// The section text: the segments joined by dots, or `unknown` for the
    /// empty path.
    pub fn section(&self) -> (text: String)
        ensures
            text@ == section_text(self@),
    {
        let n = self.segments.len();
        if n == 0 {
            return String::from_str("unknown");
        }
        let mut text = self.segments[0].clone();
        assert(self@.take(1) =~= seq![self@[0]]);
        let mut i: usize = 1;
        while i < n
            invariant
                1 <= i <= n,
                n == self.segments.len(),
                text@ == joined(self@.take(i as int)),
            decreases n - i,
        {
            text.append(".");
            text.append(self.segments[i].as_str());
            proof {
                reveal_strlit(".");
                let upto = self@.take(i + 1);
                assert(upto.drop_last() =~= self@.take(i as int));
                assert(upto.last() == self.segments[i as int]@);
                assert("."@ =~= seq!['.']);
            }
            i += 1;
        }
        assert(self@.take(n as int) =~= self@);
        text
    }
}

} // verus!
