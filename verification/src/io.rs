use crate::text::{join_lines, join_strings, lines_of, split_lines, string_from_chars, strings_view};
use std::path::PathBuf;
use vstd::prelude::*;

verus! {

/// `std::path::PathBuf`, of which nothing is known but that it is a value.
#[verifier::external_type_specification]
#[verifier::external_body]
pub struct ExPathBuf(PathBuf);

/// `PathBuf::clone` returns a path equal to the one it is called on.
pub assume_specification[ <PathBuf as Clone>::clone ](p: &PathBuf) -> (res: PathBuf)
    ensures
        res == *p,
;

/// The path that a text spells out.
pub uninterp spec fn path_of_text(text: Seq<char>) -> PathBuf;

/// `PathBuf::from` turns a string slice into the path that it spells out.
#[verifier::external_body]
pub(crate) fn path_from_str(text: &str) -> (path: PathBuf)
    ensures
        path == path_of_text(text@),
{
    PathBuf::from(text)
}

/// The text of a path, in which what is no Unicode is replaced.
pub uninterp spec fn path_text(path: PathBuf) -> Seq<char>;

/// `Path::to_string_lossy` yields the text of the path, with the replacement
/// character in place of what is no Unicode.
#[verifier::external_body]
pub(crate) fn path_to_text(path: &PathBuf) -> (text: String)
    ensures
        text@ == path_text(*path),
{
    path.to_string_lossy().into_owned()
}

/// The parts of a path, as `Path::iter` yields them, each as a path of its own.
pub uninterp spec fn path_parts(path: PathBuf) -> Seq<PathBuf>;

/// The path that is collected from the given parts.
pub uninterp spec fn path_of_parts(parts: Seq<PathBuf>) -> PathBuf;

/// `Path::iter` yields the parts of the path one after the other; each is
/// handed out as a path of its own.
#[verifier::external_body]
fn parts_of(path: &PathBuf) -> (parts: Vec<PathBuf>)
    ensures
        parts@ == path_parts(*path),
{
    path.iter().map(PathBuf::from).collect()
}

/// `PathBuf::from_iter`, by which paths are collected into one, yields the
/// path that is made of the given parts.
#[verifier::external_body]
fn path_from_parts(parts: &Vec<PathBuf>) -> (path: PathBuf)
    ensures
        path == path_of_parts(parts@),
{
    parts.iter().collect()
}

/// The given parts without the first `strip` of them; none is left if there
/// are no more than `strip`.
pub open spec fn parts_after(parts: Seq<PathBuf>, strip: usize) -> Seq<PathBuf> {
    if strip <= parts.len() {
        parts.skip(strip as int)
    } else {
        Seq::empty()
    }
}

/// Stripping a path removes its first parts: if the path `mpatch/src/io.rs`
/// is stripped by `2` the result is `io.rs`.
pub trait StrippedPath {
    /// Skips the first `strip` parts of the path and returns the remaining
    /// parts as a new path.
    fn strip_cloned(&self, strip: usize) -> PathBuf;
}

impl StrippedPath for PathBuf {
    fn strip_cloned(&self, strip: usize) -> (stripped: PathBuf)
        ensures
            stripped == path_of_parts(parts_after(path_parts(*self), strip)),
    {
        let parts = parts_of(self);
        let mut rest: Vec<PathBuf> = Vec::new();
        if strip > parts.len() {
            return path_from_parts(&rest);
        }
        let mut i: usize = strip;
        assert(rest@ =~= parts@.subrange(strip as int, i as int));
        while i < parts.len()
            invariant
                strip <= i <= parts@.len(),
                rest@ == parts@.subrange(strip as int, i as int),
            decreases parts@.len() - i,
        {
            rest.push(parts[i].clone());
            i += 1;
            assert(rest@ =~= parts@.subrange(strip as int, i as int));
        }
        assert(rest@ =~= parts@.skip(strip as int));
        path_from_parts(&rest)
    }
}

/// The mathematical content of a [`FileArtifact`]: its path and its lines.
pub struct FileArtifactView {
    pub path: PathBuf,
    pub lines: Seq<Seq<char>>,
}

/// A file held in memory: the path it belongs to and its content as lines.
/// No line holds its line ending; when the file is rendered, consecutive
/// lines are separated by a single line feed.
#[derive(Debug, Clone, PartialEq, Eq)]
pub struct FileArtifact {
    path: PathBuf,
    lines: Vec<String>,
}

impl View for FileArtifact {
    type V = FileArtifactView;

    closed spec fn view(&self) -> FileArtifactView {
        FileArtifactView { path: self.path, lines: strings_view(self.lines@) }
    }
}

impl FileArtifact {
    /// Creates a new empty file artifact with the given path.
    pub fn new(path: PathBuf) -> (file: FileArtifact)
        ensures
            file@.path == path,
            file@.lines == Seq::<Seq<char>>::empty(),
    {
        let file = FileArtifact { path, lines: Vec::new() };
        assert(file@.lines =~= Seq::<Seq<char>>::empty());
        file
    }

    /// Creates a new file artifact with the given path and lines.
    pub fn from_lines(path: PathBuf, lines: Vec<String>) -> (file: FileArtifact)
        ensures
            file@.path == path,
            file@.lines == strings_view(lines@),
    {
        FileArtifact { path, lines }
    }

    /// Creates a new file artifact from the given path and the text of a file.
    pub fn parse_content(path: PathBuf, file_content: &str) -> (file: FileArtifact)
        ensures
            file@.path == path,
            file@.lines == lines_of(file_content@),
    {
        FileArtifact { path, lines: split_lines(file_content) }
    }

    /// Returns the number of lines in this file artifact.
    pub fn len(&self) -> (n: usize)
        ensures
            n == self@.lines.len(),
    {
        self.lines.len()
    }

    /// Returns true if this file artifact has no lines.
    #[must_use]
    pub fn is_empty(&self) -> (b: bool)
        ensures
            b == (self@.lines.len() == 0),
    {
        self.lines.len() == 0
    }

    /// Returns a reference to the lines of this file artifact.
    pub fn lines(&self) -> (lines: &[String])
        ensures
            strings_view(lines@) == self@.lines,
    {
        self.lines.as_slice()
    }

    /// Consumes this file artifact and returns its lines.
    pub fn into_lines(self) -> (lines: Vec<String>)
        ensures
            strings_view(lines@) == self@.lines,
    {
        self.lines
    }

    /// Destructures this file artifact into its path and its lines.
    pub fn into_path_and_lines(self) -> (parts: (PathBuf, Vec<String>))
        ensures
            parts.0 == self@.path,
            strings_view(parts.1@) == self@.lines,
    {
        (self.path, self.lines)
    }

    /// Returns a reference to the path of this file artifact.
    pub fn path(&self) -> (p: &PathBuf)
        ensures
            *p == self@.path,
    {
        &self.path
    }

    /// Returns the content of this file: its lines joined by line feeds.
    pub fn to_string(&self) -> (s: String)
        ensures
            s@ == join_lines(self@.lines),
    {
        let chars = join_strings(&self.lines);
        string_from_chars(&chars)
    }
}

} // verus!
