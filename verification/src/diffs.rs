use crate::error::{Error, ErrorKind, ErrorView};
use crate::io::{path_from_str, path_of_text};
use crate::text::{
    chars_equal, chars_of, decimal, find_char, first_index, has_prefix, has_suffix, parse_number,
    push_number, push_str, read_number, skip_spaces, skip_word, space_len, string_from_chars,
    string_of, strings_view, word_len,
};
use std::path::PathBuf;
use vstd::prelude::*;
use vstd::string::StringExecFns;

verus! {

/// The error that the parser reports for text that is no unified diff.
pub open spec fn parse_error(message: Seq<char>) -> ErrorView {
    ErrorView { message, kind: ErrorKind::DiffParseError }
}

/// Returns the parse error whose message is `prefix` followed by `detail`.
fn parse_failure(prefix: &str, detail: &str) -> (e: Error)
    ensures
        e@ == parse_error(prefix@ + detail@),
{
    let message = String::from_str(prefix).concat(detail);
    Error::new(message.as_str(), ErrorKind::DiffParseError)
}

/// The type of a line in a hunk.
#[derive(PartialEq, Eq, PartialOrd, Ord, Debug, Clone, Copy, Structural)]
pub enum LineType {
    /// A line that starts with a space: it is the same in the source and in
    /// the target file.
    Context,
    /// A line that starts with `+`: it exists in the target file only.
    Add,
    /// A line that starts with `-`: it exists in the source file only.
    Remove,
    /// The line that marks a missing line ending: `\ No newline at end of file`.
    EOF,
}

/// The line that marks the line before it as one without a line ending.
pub open spec fn eof_marker() -> Seq<char> {
    "\\ No newline at end of file"@
}

/// The type of a hunk line, which its first character decides, unless the
/// line is the marker of a missing line ending. Other lines have no type.
pub open spec fn line_type_of(line: Seq<char>) -> Option<LineType> {
    if line == eof_marker() {
        Some(LineType::EOF)
    } else if line.len() == 0 {
        None
    } else if line[0] == '+' {
        Some(LineType::Add)
    } else if line[0] == '-' {
        Some(LineType::Remove)
    } else if line[0] == ' ' {
        Some(LineType::Context)
    } else {
        None
    }
}

impl LineType {
    /// Determines the type of the given hunk line.
    pub fn determine_type(line: &str) -> (result: Result<LineType, Error>)
        ensures
            match result {
                Ok(t) => line_type_of(line@) == Some(t),
                Err(e) => line_type_of(line@) is None && e@ == parse_error(
                    "invalid hunk line: "@ + line@,
                ),
            },
    {
        let chars = chars_of(line);
        if chars_equal(&chars, "\\ No newline at end of file") {
            return Ok(LineType::EOF);
        }
        if chars.len() > 0 {
            let marker = chars[0];
            if marker == '+' {
                return Ok(LineType::Add);
            } else if marker == '-' {
                return Ok(LineType::Remove);
            } else if marker == ' ' {
                return Ok(LineType::Context);
            }
        }
        Err(parse_failure("invalid hunk line: ", line))
    }
}

/// Where a hunk line stands in a file. A line is at a real location if it
/// exists in the file at that line number. It is at a change location if it
/// does not exist in the file, but was removed from that place or will be
/// added there. The marker of a missing line ending has no location.
#[derive(Debug, Copy, Clone, PartialEq, Eq, Structural)]
pub enum LineLocation {
    RealLocation(usize),
    ChangeLocation(usize),
    NoLocation,
}

impl LineLocation {
    /// Returns the line number of a real location. The location must be one.
    pub fn real_location(&self) -> (n: usize)
        requires
            self is RealLocation,
        ensures
            *self == LineLocation::RealLocation(n),
    {
        match self {
            LineLocation::RealLocation(value) => *value,
            _ => 0,
        }
    }

    /// Returns the line number of a change location. The location must be
    /// one.
    pub fn change_location(&self) -> (n: usize)
        requires
            self is ChangeLocation,
        ensures
            *self == LineLocation::ChangeLocation(n),
    {
        match self {
            LineLocation::ChangeLocation(value) => *value,
            _ => 0,
        }
    }
}

/// The location of a hunk in a file: the number of its first line and the
/// number of lines it spans there. A hunk that starts at line zero with zero
/// lines is absent from the file.
#[derive(Clone, Copy, Debug, PartialEq, PartialOrd, Eq, Ord, Structural)]
pub struct HunkLocation {
    pub hunk_start: usize,
    pub hunk_length: usize,
}

/// The text of a hunk location inside a hunk header. A location that starts
/// at line one and spans one line is written as `1`; any other location is
/// written as its start, a comma, and its length.
pub open spec fn location_text(start: usize, length: usize) -> Seq<char> {
    if start == 1 && length == 1 {
        seq!['1']
    } else {
        decimal(start as nat) + seq![','] + decimal(length as nat)
    }
}

/// The start and the length that a token of a hunk header denotes. The token
/// is a sign, `-` or `+`, followed by the start and, optionally, a comma and
/// the length. The length of a location that is given without one is one.
pub open spec fn location_of(token: Seq<char>) -> Option<(usize, usize)> {
    if token.len() == 0 || (token[0] != '-' && token[0] != '+') {
        None
    } else {
        let body = token.skip(1);
        let comma = first_index(body, ',') as int;
        if comma >= body.len() {
            match parse_number(body) {
                Some(start) => Some((start, 1usize)),
                None => None,
            }
        } else {
            match (parse_number(body.take(comma)), parse_number(body.skip(comma + 1))) {
                (Some(start), Some(length)) => Some((start, length)),
                _ => None,
            }
        }
    }
}

/// Reads the hunk location that `chars[from..to]` denotes.
fn read_location(chars: &Vec<char>, from: usize, to: usize) -> (result: Option<HunkLocation>)
    requires
        from <= to <= chars@.len(),
    ensures
        match result {
            Some(location) => location_of(chars@.subrange(from as int, to as int)) == Some(
                (location.hunk_start, location.hunk_length),
            ),
            None => location_of(chars@.subrange(from as int, to as int)) is None,
        },
{
    let ghost token = chars@.subrange(from as int, to as int);
    if from == to {
        return None;
    }
    assert(token[0] == chars@[from as int]);
    if chars[from] != '-' && chars[from] != '+' {
        return None;
    }
    let ghost body = token.skip(1);
    assert(body =~= chars@.subrange(from + 1, to as int));
    let comma = find_char(chars, from + 1, to, ',');
    if comma >= to {
        assert(chars@.subrange(from + 1, to as int) == body);
        match read_number(chars, from + 1, to) {
            Some(start) => Some(HunkLocation { hunk_start: start, hunk_length: 1 }),
            None => None,
        }
    } else {
        assert(body.take(comma - from - 1) =~= chars@.subrange(from + 1, comma as int));
        assert(body.skip(comma - from - 1 + 1) =~= chars@.subrange(comma + 1, to as int));
        match (read_number(chars, from + 1, comma), read_number(chars, comma + 1, to)) {
            (Some(start), Some(length)) => Some(
                HunkLocation { hunk_start: start, hunk_length: length },
            ),
            _ => None,
        }
    }
}

impl HunkLocation {
    /// Creates the location of a hunk that starts at line `hunk_start` and
    /// spans `hunk_length` lines.
    pub fn new(hunk_start: usize, hunk_length: usize) -> (location: HunkLocation)
        ensures
            location == (HunkLocation { hunk_start, hunk_length }),
    {
        HunkLocation { hunk_start, hunk_length }
    }

    /// Returns the number of the first line of this hunk. The first line of a
    /// file has the number one.
    pub fn hunk_start(&self) -> (n: usize)
        ensures
            n == self.hunk_start,
    {
        self.hunk_start
    }

    /// Returns the number of lines that this hunk spans.
    pub fn hunk_length(&self) -> (n: usize)
        ensures
            n == self.hunk_length,
    {
        self.hunk_length
    }

    /// Returns the text of this location as it stands in a hunk header.
    pub fn to_string(&self) -> (s: String)
        ensures
            s@ == location_text(self.hunk_start, self.hunk_length),
    {
        let mut out: Vec<char> = Vec::new();
        self.render_into(&mut out);
        string_from_chars(&out)
    }

    fn render_into(&self, out: &mut Vec<char>)
        ensures
            final(out)@ == old(out)@ + location_text(self.hunk_start, self.hunk_length),
    {
        if self.hunk_start == 1 && self.hunk_length == 1 {
            out.push('1');
            assert(out@ =~= old(out)@ + seq!['1']);
        } else {
            push_number(out, self.hunk_start);
            out.push(',');
            push_number(out, self.hunk_length);
            assert(out@ =~= old(out)@ + (decimal(self.hunk_start as nat) + seq![','] + decimal(
                self.hunk_length as nat,
            )));
        }
    }

    /// Reads a hunk location from a token of a hunk header, such as `-12,7`.
    pub fn try_from(value: &str) -> (result: Result<HunkLocation, Error>)
        ensures
            match result {
                Ok(location) => location_of(value@) == Some(
                    (location.hunk_start, location.hunk_length),
                ),
                Err(e) => location_of(value@) is None && e@ == parse_error(
                    "invalid hunk location: "@ + value@,
                ),
            },
    {
        let chars = chars_of(value);
        assert(chars@.subrange(0, chars@.len() as int) =~= chars@);
        match read_location(&chars, 0, chars.len()) {
            Some(location) => Ok(location),
            None => Err(parse_failure("invalid hunk location: ", value)),
        }
    }
}


/// The mathematical content of a [`HunkLine`].
pub struct HunkLineView {
    pub line: Seq<char>,
    pub source_line: LineLocation,
    pub target_line: LineLocation,
    pub line_type: LineType,
}

/// A line of a hunk: its text, which starts with the character that marks its
/// type, its location in the source file, its location in the target file,
/// and its type.
#[derive(Debug, PartialEq, Eq)]
pub struct HunkLine {
    line: String,
    source_line: LineLocation,
    target_line: LineLocation,
    line_type: LineType,
}

impl View for HunkLine {
    type V = HunkLineView;

    closed spec fn view(&self) -> HunkLineView {
        HunkLineView {
            line: self.line@,
            source_line: self.source_line,
            target_line: self.target_line,
            line_type: self.line_type,
        }
    }
}

impl Clone for HunkLine {
    fn clone(&self) -> (res: HunkLine)
        ensures
            res@ == self@,
    {
        HunkLine {
            line: self.line.clone(),
            source_line: self.source_line,
            target_line: self.target_line,
            line_type: self.line_type,
        }
    }
}

/// The views of a sequence of hunk lines.
pub open spec fn hunk_lines_view(lines: Seq<HunkLine>) -> Seq<HunkLineView> {
    lines.map_values(|l: HunkLine| l@)
}

/// The text of a line without its first character.
pub open spec fn without_marker(line: Seq<char>) -> Seq<char> {
    if line.len() == 0 {
        line
    } else {
        line.skip(1)
    }
}

impl HunkLine {
    /// Constructs a new hunk line from the given locations, type, and text.
    pub fn new(
        source_line: LineLocation,
        target_line: LineLocation,
        line_type: LineType,
        line: String,
    ) -> (result: Result<HunkLine, Error>)
        ensures
            result is Ok,
            result.unwrap()@ == (HunkLineView {
                line: line@,
                source_line,
                target_line,
                line_type,
            }),
    {
        Ok(HunkLine { line, source_line, target_line, line_type })
    }

    /// Returns the text of this line, with the character that marks its type.
    pub fn content(&self) -> (s: &str)
        ensures
            s@ == self@.line,
    {
        self.line.as_str()
    }

    /// Returns the type of this line.
    pub fn line_type(&self) -> (t: LineType)
        ensures
            t == self@.line_type,
    {
        self.line_type
    }

    /// Returns the location of this line in the source file.
    pub fn source_line(&self) -> (l: LineLocation)
        ensures
            l == self@.source_line,
    {
        self.source_line
    }

    /// Returns the location of this line in the target file.
    pub fn target_line(&self) -> (l: LineLocation)
        ensures
            l == self@.target_line,
    {
        self.target_line
    }

    /// Returns the text of this line after the character that marks its type.
    pub fn into_original_text(self) -> (s: String)
        ensures
            s@ == without_marker(self@.line),
    {
        let chars = chars_of(self.line.as_str());
        if chars.len() == 0 {
            self.line
        } else {
            let s = string_of(&chars, 1, chars.len());
            assert(chars@.subrange(1, chars@.len() as int) =~= chars@.skip(1));
            s
        }
    }

    /// Returns the text of this line.
    pub fn to_string(&self) -> (s: String)
        ensures
            s@ == self@.line,
    {
        self.line.clone()
    }
}

/// The mathematical content of a file header: the path of the file and the
/// time at which it was read for the diff.
pub struct FileHeaderView {
    pub path: Seq<char>,
    pub timestamp: Seq<char>,
}

/// The position at which the word at or after `from` starts.
pub open spec fn word_start(line: Seq<char>, from: int) -> int {
    from + space_len(line.skip(from))
}

/// The position at which the word that starts at `start` ends.
pub open spec fn word_end(line: Seq<char>, start: int) -> int {
    start + word_len(line.skip(start))
}

/// The path and the timestamp of a file header line. The first word of the
/// line is its marker and the second word is the path. The timestamp is
/// everything from the third word to the end of the line. A line that has no
/// third word has neither.
#[verifier::opaque]
pub open spec fn file_metainfo(line: Seq<char>) -> Option<FileHeaderView> {
    let marker_end = word_end(line, word_start(line, 0));
    let path_start = word_start(line, marker_end);
    let path_end = word_end(line, path_start);
    let time_start = word_start(line, path_end);
    if time_start < line.len() {
        Some(
            FileHeaderView { path: line.subrange(path_start, path_end), timestamp: line.skip(time_start) },
        )
    } else {
        None
    }
}

/// Splits a file header line into the path of the file and the timestamp.
pub fn split_file_metainfo(input: &str) -> (result: Result<(String, String), Error>)
    ensures
        match result {
            Ok(parts) => file_metainfo(input@) == Some(
                FileHeaderView { path: parts.0@, timestamp: parts.1@ },
            ),
            Err(e) => file_metainfo(input@) is None && e@ == parse_error(
                "invalid format: file header without path or timestamp: "@ + input@,
            ),
        },
{
    proof {
        reveal(file_metainfo);
    }
    let chars = chars_of(input);
    let marker_start = skip_spaces(&chars, 0);
    let marker_end = skip_word(&chars, marker_start);
    let path_start = skip_spaces(&chars, marker_end);
    let path_end = skip_word(&chars, path_start);
    let time_start = skip_spaces(&chars, path_end);
    if time_start < chars.len() {
        let path = string_of(&chars, path_start, path_end);
        let timestamp = string_of(&chars, time_start, chars.len());
        assert(chars@.subrange(time_start as int, chars@.len() as int) =~= chars@.skip(
            time_start as int,
        ));
        Ok((path, timestamp))
    } else {
        Err(parse_failure("invalid format: file header without path or timestamp: ", input))
    }
}

/// The header that a line which starts with the given marker stands for.
pub open spec fn file_header_of(line: Seq<char>, marker: Seq<char>, complaint: Seq<char>) -> Result<
    FileHeaderView,
    ErrorView,
> {
    if !marker.is_prefix_of(line) {
        Err(parse_error(complaint))
    } else {
        match file_metainfo(line) {
            Some(header) => Ok(header),
            None => Err(
                parse_error("invalid format: file header without path or timestamp: "@ + line),
            ),
        }
    }
}

/// The header of the source file that a line stands for. The line starts with
/// `--- `, followed by the path of the file and the timestamp.
pub open spec fn source_header_of(line: Seq<char>) -> Result<FileHeaderView, ErrorView> {
    file_header_of(line, "--- "@, "invalid format: line does not start with '--- '"@)
}

/// The header of the target file that a line stands for. The line starts with
/// `+++ `, followed by the path of the file and the timestamp.
pub open spec fn target_header_of(line: Seq<char>) -> Result<FileHeaderView, ErrorView> {
    file_header_of(line, "+++ "@, "invalid format: line does not start with '+++ '"@)
}

/// The text of a file header line.
pub open spec fn file_header_text(marker: Seq<char>, header: FileHeaderView) -> Seq<char> {
    marker + header.path + seq!['\t'] + header.timestamp
}

/// The path of the source file of a diff and the time at which it was read.
#[derive(Debug, PartialEq, Eq)]
pub struct SourceFileHeader {
    path: String,
    timestamp: String,
}

impl View for SourceFileHeader {
    type V = FileHeaderView;

    closed spec fn view(&self) -> FileHeaderView {
        FileHeaderView { path: self.path@, timestamp: self.timestamp@ }
    }
}

impl Clone for SourceFileHeader {
    fn clone(&self) -> (res: SourceFileHeader)
        ensures
            res@ == self@,
    {
        SourceFileHeader { path: self.path.clone(), timestamp: self.timestamp.clone() }
    }
}

impl SourceFileHeader {
    /// Returns the path to the source file.
    pub fn path_str(&self) -> (s: &str)
        ensures
            s@ == self@.path,
    {
        self.path.as_str()
    }

    /// Returns the path to the source file as an owned `PathBuf`.
    pub fn path(&self) -> (p: PathBuf)
        ensures
            p == path_of_text(self@.path),
    {
        path_from_str(self.path.as_str())
    }

    /// Returns the text of the time at which the file was read for the diff.
    pub fn timestamp(&self) -> (s: &str)
        ensures
            s@ == self@.timestamp,
    {
        self.timestamp.as_str()
    }

    /// Reads the header of the source file from its line in a diff.
    pub fn try_from(line: &str) -> (result: Result<SourceFileHeader, Error>)
        ensures
            match result {
                Ok(header) => source_header_of(line@) == Ok::<FileHeaderView, ErrorView>(header@),
                Err(e) => source_header_of(line@) == Err::<FileHeaderView, ErrorView>(e@),
            },
    {
        let chars = chars_of(line);
        if !has_prefix(&chars, "--- ") {
            return Err(
                Error::new(
                    "invalid format: line does not start with '--- '",
                    ErrorKind::DiffParseError,
                ),
            );
        }
        match split_file_metainfo(line) {
            Ok((path, timestamp)) => Ok(SourceFileHeader { path, timestamp }),
            Err(e) => Err(e),
        }
    }
}

/// The path of the target file of a diff and the time at which it was read.
#[derive(Debug, PartialEq, Eq)]
pub struct TargetFileHeader {
    path: String,
    timestamp: String,
}

impl View for TargetFileHeader {
    type V = FileHeaderView;

    closed spec fn view(&self) -> FileHeaderView {
        FileHeaderView { path: self.path@, timestamp: self.timestamp@ }
    }
}

impl Clone for TargetFileHeader {
    fn clone(&self) -> (res: TargetFileHeader)
        ensures
            res@ == self@,
    {
        TargetFileHeader { path: self.path.clone(), timestamp: self.timestamp.clone() }
    }
}

impl TargetFileHeader {
    /// Returns the path to the target file.
    pub fn path_str(&self) -> (s: &str)
        ensures
            s@ == self@.path,
    {
        self.path.as_str()
    }

    /// Returns the path to the target file as an owned `PathBuf`.
    pub fn path(&self) -> (p: PathBuf)
        ensures
            p == path_of_text(self@.path),
    {
        path_from_str(self.path.as_str())
    }

    /// Returns the text of the time at which the file was read for the diff.
    pub fn timestamp(&self) -> (s: &str)
        ensures
            s@ == self@.timestamp,
    {
        self.timestamp.as_str()
    }

    /// Reads the header of the target file from its line in a diff.
    pub fn try_from(line: &str) -> (result: Result<TargetFileHeader, Error>)
        ensures
            match result {
                Ok(header) => target_header_of(line@) == Ok::<FileHeaderView, ErrorView>(header@),
                Err(e) => target_header_of(line@) == Err::<FileHeaderView, ErrorView>(e@),
            },
    {
        let chars = chars_of(line);
        if !has_prefix(&chars, "+++ ") {
            return Err(
                Error::new(
                    "invalid format: line does not start with '+++ '",
                    ErrorKind::DiffParseError,
                ),
            );
        }
        match split_file_metainfo(line) {
            Ok((path, timestamp)) => Ok(TargetFileHeader { path, timestamp }),
            Err(e) => Err(e),
        }
    }
}

/// The command that produced a file diff: the first line of the file diff,
/// such as `diff -Naur old/file new/file`.
#[derive(Debug, Eq, PartialEq)]
pub struct DiffCommand(pub String);

impl View for DiffCommand {
    type V = Seq<char>;

    open spec fn view(&self) -> Seq<char> {
        self.0@
    }
}

impl Clone for DiffCommand {
    fn clone(&self) -> (res: DiffCommand)
        ensures
            res@ == self@,
    {
        DiffCommand(self.0.clone())
    }
}

impl DiffCommand {
    /// Returns the text of the command.
    pub fn to_string(&self) -> (s: String)
        ensures
            s@ == self@,
    {
        self.0.clone()
    }
}


/// The two locations that the header line of a hunk denotes: that of the hunk
/// in the source file and that of the hunk in the target file, each as start
/// and length.
///
/// The line starts with `@@ ` and ends with ` @@`. It has four words: `@@`,
/// the source location with the sign `-`, the target location with the sign
/// `+`, and `@@`.
#[verifier::opaque]
pub open spec fn location_line_of(line: Seq<char>) -> Option<((usize, usize), (usize, usize))> {
    let open_end = word_end(line, word_start(line, 0));
    let source_start = word_start(line, open_end);
    let source_end = word_end(line, source_start);
    let target_start = word_start(line, source_end);
    let target_end = word_end(line, target_start);
    let close_start = word_start(line, target_end);
    let close_end = word_end(line, close_start);
    if "@@ "@.is_prefix_of(line) && " @@"@.is_suffix_of(line) && close_start < close_end
        == line.len() && line[source_start] == '-' && line[target_start] == '+' {
        match (
            location_of(line.subrange(source_start, source_end)),
            location_of(line.subrange(target_start, target_end)),
        ) {
            (Some(source), Some(target)) => Some((source, target)),
            _ => None,
        }
    } else {
        None
    }
}

/// The text of the header line of a hunk.
pub open spec fn location_line_text(source: HunkLocation, target: HunkLocation) -> Seq<char> {
    "@@ -"@ + location_text(source.hunk_start, source.hunk_length) + " +"@ + location_text(
        target.hunk_start,
        target.hunk_length,
    ) + " @@"@
}

/// By how many lines a hunk line of the given type advances in the source file.
pub open spec fn source_step(t: LineType) -> nat {
    match t {
        LineType::Context | LineType::Remove => 1,
        _ => 0,
    }
}

/// By how many lines a hunk line of the given type advances in the target file.
pub open spec fn target_step(t: LineType) -> nat {
    match t {
        LineType::Context | LineType::Add => 1,
        _ => 0,
    }
}

/// The number of the given lines that exist in the source file: the context
/// lines and the removed lines.
pub open spec fn source_advance(lines: Seq<Seq<char>>) -> nat
    decreases lines.len(),
{
    if lines.len() == 0 {
        0
    } else {
        source_advance(lines.drop_last()) + match line_type_of(lines.last()) {
            Some(t) => source_step(t),
            None => 0,
        }
    }
}

/// The number of the given lines that exist in the target file: the context
/// lines and the added lines.
pub open spec fn target_advance(lines: Seq<Seq<char>>) -> nat
    decreases lines.len(),
{
    if lines.len() == 0 {
        0
    } else {
        target_advance(lines.drop_last()) + match line_type_of(lines.last()) {
            Some(t) => target_step(t),
            None => 0,
        }
    }
}

/// A hunk line of the given type at the point of its hunk where the source
/// file has reached line `source` and the target file line `target`.
///
/// A context line is at a real location in both files. An added line is at a
/// real location in the target file and at a change location in the source
/// file; for a removed line it is the other way round. The marker of a
/// missing line ending has no location.
pub open spec fn located(line: Seq<char>, t: LineType, source: usize, target: usize)
    -> HunkLineView {
    match t {
        LineType::Context => HunkLineView {
            line,
            source_line: LineLocation::RealLocation(source),
            target_line: LineLocation::RealLocation(target),
            line_type: t,
        },
        LineType::Add => HunkLineView {
            line,
            source_line: LineLocation::ChangeLocation(source),
            target_line: LineLocation::RealLocation(target),
            line_type: t,
        },
        LineType::Remove => HunkLineView {
            line,
            source_line: LineLocation::RealLocation(source),
            target_line: LineLocation::ChangeLocation(target),
            line_type: t,
        },
        LineType::EOF => HunkLineView {
            line,
            source_line: LineLocation::NoLocation,
            target_line: LineLocation::NoLocation,
            line_type: t,
        },
    }
}

/// The lines of a hunk that starts at the given lines of the source and the
/// target file. Each line gets the line numbers that the two files have
/// reached after the lines before it. A line without a type is an error, and
/// so is a line after which a line number no longer fits into a `usize`.
pub open spec fn hunk_body(lines: Seq<Seq<char>>, source_start: usize, target_start: usize)
    -> Result<Seq<HunkLineView>, ErrorView>
    decreases lines.len(),
{
    if lines.len() == 0 {
        Ok(Seq::empty())
    } else {
        let line = lines.last();
        match hunk_body(lines.drop_last(), source_start, target_start) {
            Err(e) => Err(e),
            Ok(before) => match line_type_of(line) {
                None => Err(parse_error("invalid hunk line: "@ + line)),
                Some(t) => {
                    let source = source_start + source_advance(lines.drop_last());
                    let target = target_start + target_advance(lines.drop_last());
                    if source + source_step(t) > usize::MAX || target + target_step(t)
                        > usize::MAX {
                        Err(parse_error("invalid hunk line: line number out of range: "@ + line))
                    } else {
                        Ok(before.push(located(line, t, source as usize, target as usize)))
                    }
                },
            },
        }
    }
}

/// The mathematical content of a [`Hunk`].
pub struct HunkView {
    pub source_location: HunkLocation,
    pub target_location: HunkLocation,
    pub lines: Seq<HunkLineView>,
}

/// The hunk that the given lines stand for: a header line with the two
/// locations of the hunk, followed by the lines of the hunk.
pub open spec fn hunk_of(lines: Seq<Seq<char>>) -> Result<HunkView, ErrorView> {
    let header = if lines.len() == 0 {
        Seq::empty()
    } else {
        lines[0]
    };
    match location_line_of(header) {
        None => Err(parse_error("invalid hunk location: "@ + header)),
        Some((source, target)) => match hunk_body(lines.skip(1), source.0, target.0) {
            Err(e) => Err(e),
            Ok(body) => Ok(
                HunkView {
                    source_location: HunkLocation { hunk_start: source.0, hunk_length: source.1 },
                    target_location: HunkLocation { hunk_start: target.0, hunk_length: target.1 },
                    lines: body,
                },
            ),
        },
    }
}

/// A contiguous group of changes to a file, with unchanged lines around them.
/// A hunk has its location in the source file, its location in the target
/// file, and its lines.
#[derive(Debug, PartialEq, Eq)]
pub struct Hunk {
    source_location: HunkLocation,
    target_location: HunkLocation,
    lines: Vec<HunkLine>,
}

impl View for Hunk {
    type V = HunkView;

    closed spec fn view(&self) -> HunkView {
        HunkView {
            source_location: self.source_location,
            target_location: self.target_location,
            lines: hunk_lines_view(self.lines@),
        }
    }
}

/// Returns a copy of the given hunk lines.
fn clone_hunk_lines(lines: &Vec<HunkLine>) -> (res: Vec<HunkLine>)
    ensures
        hunk_lines_view(res@) == hunk_lines_view(lines@),
{
    let mut res: Vec<HunkLine> = Vec::new();
    let mut i: usize = 0;
    while i < lines.len()
        invariant
            i <= lines@.len(),
            hunk_lines_view(res@) == hunk_lines_view(lines@).take(i as int),
        decreases lines@.len() - i,
    {
        let ghost before = hunk_lines_view(res@);
        let l = lines[i].clone();
        res.push(l);
        assert(hunk_lines_view(res@) =~= before.push(lines@[i as int]@));
        i += 1;
        assert(hunk_lines_view(res@) =~= hunk_lines_view(lines@).take(i as int));
    }
    assert(hunk_lines_view(lines@).take(lines@.len() as int) =~= hunk_lines_view(lines@));
    res
}

impl Clone for Hunk {
    fn clone(&self) -> (res: Hunk)
        ensures
            res@ == self@,
    {
        Hunk {
            source_location: self.source_location,
            target_location: self.target_location,
            lines: clone_hunk_lines(&self.lines),
        }
    }
}

impl Hunk {
    /// Reads the header line of a hunk, which has the form
    /// `@@ -SOURCE_START,SOURCE_LENGTH +TARGET_START,TARGET_LENGTH @@`, into
    /// the location of the hunk in the source file and its location in the
    /// target file.
    pub fn parse_location_line(line: &str) -> (result: Result<(HunkLocation, HunkLocation), Error>)
        ensures
            match result {
                Ok(locations) => location_line_of(line@) == Some(
                    (
                        (locations.0.hunk_start, locations.0.hunk_length),
                        (locations.1.hunk_start, locations.1.hunk_length),
                    ),
                ),
                Err(e) => location_line_of(line@) is None && e@ == parse_error(
                    "invalid hunk location: "@ + line@,
                ),
            },
    {
        proof {
            reveal(location_line_of);
        }
        let chars = chars_of(line);
        if !has_prefix(&chars, "@@ ") || !has_suffix(&chars, " @@") {
            return Err(parse_failure("invalid hunk location: ", line));
        }
        let open_start = skip_spaces(&chars, 0);
        let open_end = skip_word(&chars, open_start);
        let source_start = skip_spaces(&chars, open_end);
        let source_end = skip_word(&chars, source_start);
        let target_start = skip_spaces(&chars, source_end);
        let target_end = skip_word(&chars, target_start);
        let close_start = skip_spaces(&chars, target_end);
        let close_end = skip_word(&chars, close_start);
        if !(close_start < close_end && close_end == chars.len()) {
            return Err(parse_failure("invalid hunk location: ", line));
        }
        if chars[source_start] != '-' || chars[target_start] != '+' {
            return Err(parse_failure("invalid hunk location: ", line));
        }
        match (
            read_location(&chars, source_start, source_end),
            read_location(&chars, target_start, target_end),
        ) {
            (Some(source), Some(target)) => Ok((source, target)),
            _ => Err(parse_failure("invalid hunk location: ", line)),
        }
    }

    /// Returns the location of this hunk in the source file.
    pub fn source_location(&self) -> (location: HunkLocation)
        ensures
            location == self@.source_location,
    {
        self.source_location
    }

    /// Returns the location of this hunk in the target file.
    pub fn target_location(&self) -> (location: HunkLocation)
        ensures
            location == self@.target_location,
    {
        self.target_location
    }

    /// Returns a reference to the lines of this hunk.
    pub fn lines(&self) -> (lines: &[HunkLine])
        ensures
            hunk_lines_view(lines@) == self@.lines,
    {
        self.lines.as_slice()
    }

    /// Reads a hunk from its lines: the header line, then the lines of the hunk.
    pub fn try_from(lines: Vec<String>) -> (result: Result<Hunk, Error>)
        ensures
            match result {
                Ok(hunk) => hunk_of(strings_view(lines@)) == Ok::<HunkView, ErrorView>(hunk@),
                Err(e) => hunk_of(strings_view(lines@)) == Err::<HunkView, ErrorView>(e@),
            },
    {
        let ghost all = strings_view(lines@);
        let locations = if lines.len() == 0 {
            Hunk::parse_location_line("")
        } else {
            Hunk::parse_location_line(lines[0].as_str())
        };
        proof {
            reveal_strlit("");
            assert(""@ =~= Seq::<char>::empty());
            if lines@.len() == 0 {
                reveal(location_line_of);
                assert(location_line_of(Seq::<char>::empty()) is None);
            }
        }
        let (source_location, target_location) = match locations {
            Ok(locations) => locations,
            Err(e) => {
                return Err(e);
            },
        };
        let ghost body = all.skip(1);
        let mut hunk_lines: Vec<HunkLine> = Vec::new();
        let mut source_id: usize = source_location.hunk_start;
        let mut target_id: usize = target_location.hunk_start;
        let mut k: usize = 1;
        assert(body.take(0) =~= Seq::<Seq<char>>::empty());
        assert(hunk_lines_view(hunk_lines@) =~= Seq::<HunkLineView>::empty());
        let ghost header = if all.len() == 0 {
            Seq::<char>::empty()
        } else {
            all[0]
        };
        while k < lines.len()
            invariant
                1 <= k <= lines@.len(),
                all == strings_view(lines@),
                body == all.skip(1),
                header == all[0],
                location_line_of(header) == Some(
                    (
                        (source_location.hunk_start, source_location.hunk_length),
                        (target_location.hunk_start, target_location.hunk_length),
                    ),
                ),
                hunk_body(
                    body.take(k - 1),
                    source_location.hunk_start,
                    target_location.hunk_start,
                ) == Ok::<Seq<HunkLineView>, ErrorView>(hunk_lines_view(hunk_lines@)),
                source_id == source_location.hunk_start + source_advance(body.take(k - 1)),
                target_id == target_location.hunk_start + target_advance(body.take(k - 1)),
            decreases lines@.len() - k,
        {
            let ghost before = body.take(k - 1);
            let ghost next = body.take(k as int);
            let ghost parsed = hunk_lines_view(hunk_lines@);
            assert(next.drop_last() =~= before);
            assert(next.last() == lines@[k as int]@);
            let line = lines[k].clone();
            let line_type = match LineType::determine_type(line.as_str()) {
                Ok(t) => t,
                Err(e) => {
                    proof {
                        assert(hunk_body(
                            next,
                            source_location.hunk_start,
                            target_location.hunk_start,
                        ) == Err::<Seq<HunkLineView>, ErrorView>(e@));
                        lemma_hunk_body_error(
                            body,
                            k as int,
                            source_location.hunk_start,
                            target_location.hunk_start,
                        );
                    }
                    return Err(e);
                },
            };
            let source_fits = match line_type {
                LineType::Context | LineType::Remove => source_id < usize::MAX,
                _ => true,
            };
            let target_fits = match line_type {
                LineType::Context | LineType::Add => target_id < usize::MAX,
                _ => true,
            };
            if !source_fits || !target_fits {
                proof {
                    assert(hunk_body(
                        next,
                        source_location.hunk_start,
                        target_location.hunk_start,
                    ) is Err);
                    lemma_hunk_body_error(
                        body,
                        k as int,
                        source_location.hunk_start,
                        target_location.hunk_start,
                    );
                }
                return Err(
                    parse_failure("invalid hunk line: line number out of range: ", line.as_str()),
                );
            }
            let source_line;
            let target_line;
            let ghost expected = located(line@, line_type, source_id, target_id);
            match line_type {
                LineType::Context => {
                    source_line = LineLocation::RealLocation(source_id);
                    source_id += 1;
                    target_line = LineLocation::RealLocation(target_id);
                    target_id += 1;
                },
                LineType::Add => {
                    source_line = LineLocation::ChangeLocation(source_id);
                    target_line = LineLocation::RealLocation(target_id);
                    target_id += 1;
                },
                LineType::Remove => {
                    source_line = LineLocation::RealLocation(source_id);
                    source_id += 1;
                    target_line = LineLocation::ChangeLocation(target_id);
                },
                LineType::EOF => {
                    source_line = LineLocation::NoLocation;
                    target_line = LineLocation::NoLocation;
                },
            }
            let hunk_line = HunkLine { line, source_line, target_line, line_type };
            assert(hunk_line@ == expected);
            hunk_lines.push(hunk_line);
            assert(hunk_lines_view(hunk_lines@) =~= parsed.push(expected));
            k += 1;
        }
        assert(body.take(k - 1) =~= body);
        Ok(Hunk { source_location, target_location, lines: hunk_lines })
    }
}

/// How the lines of a hunk are numbered. Where the lines of a hunk can be
/// read, there is one hunk line for each of them, and each has a type. The
/// hunk line stands where the two files have got to after the lines before
/// it: the source file at the start of the hunk plus the number of context
/// lines and removed lines before it, the target file at the start of the
/// hunk plus the number of context lines and added lines before it.
///
/// Hence a context line is at a real location in both files, and the target
/// line number exceeds the source line number by the difference of the two
/// hunk starts plus the number of added lines before it minus the number of
/// removed lines before it. An added line is at a change location in the
/// source file and at a real location in the target file, a removed line the
/// other way round, and the marker of a missing line ending has no location.
pub proof fn lemma_line_locations(lines: Seq<Seq<char>>, source_start: usize, target_start: usize)
    requires
        hunk_body(lines, source_start, target_start) is Ok,
    ensures
        hunk_body(lines, source_start, target_start)->Ok_0.len() == lines.len(),
        forall|k: int|
            0 <= k < lines.len() ==> {
                let source = source_start + source_advance(lines.take(k));
                let target = target_start + target_advance(lines.take(k));
                &&& line_type_of(#[trigger] lines[k]) is Some
                &&& source + source_step(line_type_of(lines[k]).unwrap()) <= usize::MAX
                &&& target + target_step(line_type_of(lines[k]).unwrap()) <= usize::MAX
                &&& hunk_body(lines, source_start, target_start)->Ok_0[k] == located(
                    lines[k],
                    line_type_of(lines[k]).unwrap(),
                    source as usize,
                    target as usize,
                )
            },
    decreases lines.len(),
{
    if lines.len() > 0 {
        let before = lines.drop_last();
        lemma_line_locations(before, source_start, target_start);
        let body = hunk_body(lines, source_start, target_start)->Ok_0;
        assert forall|k: int| 0 <= k < lines.len() implies {
            let source = source_start + source_advance(lines.take(k));
            let target = target_start + target_advance(lines.take(k));
            &&& line_type_of(#[trigger] lines[k]) is Some
            &&& source + source_step(line_type_of(lines[k]).unwrap()) <= usize::MAX
            &&& target + target_step(line_type_of(lines[k]).unwrap()) <= usize::MAX
            &&& body[k] == located(
                lines[k],
                line_type_of(lines[k]).unwrap(),
                source as usize,
                target as usize,
            )
        } by {
            if k < lines.len() - 1 {
                assert(lines[k] == before[k]);
                assert(lines.take(k) =~= before.take(k));
            } else {
                assert(lines.take(k) =~= before);
            }
        }
    }
}

/// An error among the first lines of a hunk is the error of the hunk.
pub proof fn lemma_hunk_body_error(
    lines: Seq<Seq<char>>,
    k: int,
    source_start: usize,
    target_start: usize,
)
    requires
        0 <= k <= lines.len(),
        hunk_body(lines.take(k), source_start, target_start) is Err,
    ensures
        hunk_body(lines, source_start, target_start) == hunk_body(
            lines.take(k),
            source_start,
            target_start,
        ),
    decreases lines.len() - k,
{
    if k < lines.len() {
        assert(lines.take(k + 1).drop_last() =~= lines.take(k));
        lemma_hunk_body_error(lines, k + 1, source_start, target_start);
    } else {
        assert(lines.take(k) =~= lines);
    }
}


/// The given lines in groups. A group starts at each line that starts with
/// `marker` and reaches to the line before the next such line. The lines
/// before the first line that starts with `marker` are a group of their own.
pub open spec fn groups(lines: Seq<Seq<char>>, marker: Seq<char>) -> Seq<Seq<Seq<char>>>
    decreases lines.len(),
{
    if lines.len() == 0 {
        Seq::empty()
    } else {
        let before = groups(lines.drop_last(), marker);
        if before.len() == 0 || marker.is_prefix_of(lines.last()) {
            before.push(seq![lines.last()])
        } else {
            before.update(before.len() - 1, before.last().push(lines.last()))
        }
    }
}

/// The views of a vector of groups of lines.
pub open spec fn groups_view(groups: Seq<Vec<String>>) -> Seq<Seq<Seq<char>>> {
    groups.map_values(|g: Vec<String>| strings_view(g@))
}

/// Splits the lines from index `from` on into groups that start at the lines
/// with the given marker.
fn split_groups(lines: &Vec<String>, from: usize, marker: &str) -> (result: Vec<Vec<String>>)
    requires
        from <= lines@.len(),
    ensures
        groups_view(result@) == groups(strings_view(lines@).skip(from as int), marker@),
{
    let ghost rest = strings_view(lines@).skip(from as int);
    let mut done: Vec<Vec<String>> = Vec::new();
    let mut current: Vec<String> = Vec::new();
    let mut i: usize = from;
    assert(rest.take(0) =~= Seq::<Seq<char>>::empty());
    assert(groups_view(done@) =~= Seq::<Seq<Seq<char>>>::empty());
    while i < lines.len()
        invariant
            from <= i <= lines@.len(),
            rest == strings_view(lines@).skip(from as int),
            current@.len() == 0 ==> i == from && groups_view(done@).len() == 0,
            current@.len() > 0 ==> groups(rest.take(i - from), marker@) == groups_view(done@).push(
                strings_view(current@),
            ),
        decreases lines@.len() - i,
    {
        let ghost before = rest.take(i - from);
        let ghost next = rest.take(i + 1 - from);
        let ghost finished = groups_view(done@);
        let ghost open = strings_view(current@);
        assert(next.drop_last() =~= before);
        assert(next.last() == lines@[i as int]@);
        let line = lines[i].clone();
        let chars = chars_of(line.as_str());
        if current.len() == 0 {
            assert(before =~= Seq::<Seq<char>>::empty());
            assert(groups(before, marker@).len() == 0);
            current.push(line);
            assert(strings_view(current@) =~= seq![next.last()]);
            assert(finished =~= Seq::<Seq<Seq<char>>>::empty());
            assert(groups(next, marker@) == groups(before, marker@).push(seq![next.last()]));
            assert(groups(next, marker@) =~= finished.push(strings_view(current@)));
        } else if has_prefix(&chars, marker) {
            done.push(current);
            assert(groups_view(done@) =~= finished.push(open));
            current = Vec::new();
            current.push(line);
            assert(strings_view(current@) =~= seq![next.last()]);
        } else {
            current.push(line);
            assert(strings_view(current@) =~= open.push(next.last()));
            assert(groups(before, marker@).last() == open);
            assert(groups(next, marker@) == groups(before, marker@).update(
                groups(before, marker@).len() - 1,
                open.push(next.last()),
            ));
            assert(groups(next, marker@) =~= finished.push(strings_view(current@)));
        }
        i += 1;
    }
    assert(rest.take(i - from) =~= rest);
    if current.len() > 0 {
        let ghost finished = groups_view(done@);
        let ghost open = strings_view(current@);
        done.push(current);
        assert(groups_view(done@) =~= finished.push(open));
    }
    done
}

/// The hunks that the given groups of lines stand for. The first group that
/// is no hunk decides the error.
pub open spec fn hunks_of(groups: Seq<Seq<Seq<char>>>) -> Result<Seq<HunkView>, ErrorView>
    decreases groups.len(),
{
    if groups.len() == 0 {
        Ok(Seq::empty())
    } else {
        match hunks_of(groups.drop_last()) {
            Err(e) => Err(e),
            Ok(before) => match hunk_of(groups.last()) {
                Err(e) => Err(e),
                Ok(hunk) => Ok(before.push(hunk)),
            },
        }
    }
}

/// An error among the first hunks is the error of all hunks.
pub proof fn lemma_hunks_error(groups: Seq<Seq<Seq<char>>>, k: int)
    requires
        0 <= k <= groups.len(),
        hunks_of(groups.take(k)) is Err,
    ensures
        hunks_of(groups) == hunks_of(groups.take(k)),
    decreases groups.len() - k,
{
    if k < groups.len() {
        assert(groups.take(k + 1).drop_last() =~= groups.take(k));
        lemma_hunks_error(groups, k + 1);
    } else {
        assert(groups.take(k) =~= groups);
    }
}

/// The mathematical content of a [`FileDiff`].
pub struct FileDiffView {
    pub diff_command: Seq<char>,
    pub source_file_header: FileHeaderView,
    pub target_file_header: FileHeaderView,
    pub hunks: Seq<HunkView>,
}

/// The line at the given index, or the empty line where there is none.
pub open spec fn line_at(lines: Seq<Seq<char>>, index: int) -> Seq<char> {
    if 0 <= index < lines.len() {
        lines[index]
    } else {
        Seq::empty()
    }
}

/// The file diff that the given lines stand for: the line of the diff command,
/// which starts with `diff `, the header of the source file, the header of
/// the target file, and one or more hunks, each of which starts at a line
/// that starts with `@@ `.
pub open spec fn file_diff_of(lines: Seq<Seq<char>>) -> Result<FileDiffView, ErrorView> {
    let command = line_at(lines, 0);
    if !"diff "@.is_prefix_of(command) {
        Err(parse_error("invalid file diff start: "@ + command))
    } else {
        match source_header_of(line_at(lines, 1)) {
            Err(e) => Err(e),
            Ok(source) => match target_header_of(line_at(lines, 2)) {
                Err(e) => Err(e),
                Ok(target) => {
                    let hunk_groups = groups(lines.skip(3), "@@ "@);
                    if lines.len() <= 3 {
                        Err(parse_error("invalid format: file diff without hunk: "@ + command))
                    } else {
                        match hunks_of(hunk_groups) {
                            Err(e) => Err(e),
                            Ok(hunks) => Ok(
                                FileDiffView {
                                    diff_command: command,
                                    source_file_header: source,
                                    target_file_header: target,
                                    hunks,
                                },
                            ),
                        }
                    }
                },
            },
        }
    }
}

/// The diff between two versions of a file: the command that produced it,
/// the headers of the source and of the target file, and one or more hunks.
#[derive(Debug, PartialEq, Eq)]
pub struct FileDiff {
    diff_command: DiffCommand,
    source_file_header: SourceFileHeader,
    target_file_header: TargetFileHeader,
    hunks: Vec<Hunk>,
}

/// The views of a sequence of hunks.
pub open spec fn hunks_view(hunks: Seq<Hunk>) -> Seq<HunkView> {
    hunks.map_values(|h: Hunk| h@)
}

impl View for FileDiff {
    type V = FileDiffView;

    closed spec fn view(&self) -> FileDiffView {
        FileDiffView {
            diff_command: self.diff_command@,
            source_file_header: self.source_file_header@,
            target_file_header: self.target_file_header@,
            hunks: hunks_view(self.hunks@),
        }
    }
}

/// Returns a copy of the given hunks.
fn clone_hunks(hunks: &Vec<Hunk>) -> (res: Vec<Hunk>)
    ensures
        hunks_view(res@) == hunks_view(hunks@),
{
    let mut res: Vec<Hunk> = Vec::new();
    let mut i: usize = 0;
    while i < hunks.len()
        invariant
            i <= hunks@.len(),
            hunks_view(res@) == hunks_view(hunks@).take(i as int),
        decreases hunks@.len() - i,
    {
        let ghost before = hunks_view(res@);
        let h = hunks[i].clone();
        res.push(h);
        assert(hunks_view(res@) =~= before.push(hunks@[i as int]@));
        i += 1;
        assert(hunks_view(res@) =~= hunks_view(hunks@).take(i as int));
    }
    assert(hunks_view(hunks@).take(hunks@.len() as int) =~= hunks_view(hunks@));
    res
}

impl Clone for FileDiff {
    fn clone(&self) -> (res: FileDiff)
        ensures
            res@ == self@,
    {
        proof {
            use_type_invariant(self);
        }
        let hunks = clone_hunks(&self.hunks);
        assert(hunks@.len() == hunks_view(hunks@).len());
        assert(self.hunks@.len() == hunks_view(self.hunks@).len());
        FileDiff {
            diff_command: self.diff_command.clone(),
            source_file_header: self.source_file_header.clone(),
            target_file_header: self.target_file_header.clone(),
            hunks,
        }
    }
}

/// Returns a copy of the line at the given index, or the empty line where
/// there is none.
fn line_or_empty(lines: &Vec<String>, index: usize) -> (line: String)
    ensures
        line@ == line_at(strings_view(lines@), index as int),
{
    if index < lines.len() {
        lines[index].clone()
    } else {
        String::new()
    }
}

impl FileDiff {
    #[verifier::type_invariant]
    closed spec fn has_hunks(&self) -> bool {
        self.hunks@.len() > 0
    }

    /// Reads a file diff from its lines.
    pub fn try_from(lines: Vec<String>) -> (result: Result<FileDiff, Error>)
        ensures
            match result {
                Ok(diff) => file_diff_of(strings_view(lines@)) == Ok::<FileDiffView, ErrorView>(
                    diff@,
                ),
                Err(e) => file_diff_of(strings_view(lines@)) == Err::<FileDiffView, ErrorView>(e@),
            },
    {
        let ghost all = strings_view(lines@);
        let command = line_or_empty(&lines, 0);
        let command_chars = chars_of(command.as_str());
        if !has_prefix(&command_chars, "diff ") {
            return Err(parse_failure("invalid file diff start: ", command.as_str()));
        }
        let source_line = line_or_empty(&lines, 1);
        let source_file_header = match SourceFileHeader::try_from(source_line.as_str()) {
            Ok(header) => header,
            Err(e) => {
                return Err(e);
            },
        };
        let target_line = line_or_empty(&lines, 2);
        let target_file_header = match TargetFileHeader::try_from(target_line.as_str()) {
            Ok(header) => header,
            Err(e) => {
                return Err(e);
            },
        };
        if lines.len() <= 3 {
            return Err(parse_failure("invalid format: file diff without hunk: ", command.as_str()));
        }
        let hunk_groups = split_groups(&lines, 3, "@@ ");
        let ghost all_groups = groups_view(hunk_groups@);
        let mut hunks: Vec<Hunk> = Vec::new();
        assert(hunks_view(hunks@) =~= Seq::<HunkView>::empty());
        assert(all_groups.take(0) =~= Seq::<Seq<Seq<char>>>::empty());
        assert(all_groups.len() > 0) by {
            let rest = all.skip(3);
            assert(rest.len() > 0);
            assert(groups(rest, "@@ "@).len() > 0);
        }
        for group in it: hunk_groups
            invariant
                all_groups == groups_view(it.seq()),
                all_groups.len() > 0,
                hunks@.len() == it.index@,
                hunks_of(all_groups.take(it.index@)) == Ok::<Seq<HunkView>, ErrorView>(
                    hunks_view(hunks@),
                ),
                all == strings_view(lines@),
                all_groups == groups(all.skip(3), "@@ "@),
                all.len() > 3,
                "diff "@.is_prefix_of(line_at(all, 0)),
                command@ == line_at(all, 0),
                source_header_of(line_at(all, 1)) == Ok::<FileHeaderView, ErrorView>(
                    source_file_header@,
                ),
                target_header_of(line_at(all, 2)) == Ok::<FileHeaderView, ErrorView>(
                    target_file_header@,
                ),
        {
            let ghost k = it.index@;
            let ghost parsed = hunks_view(hunks@);
            assert(all_groups.take(k + 1).drop_last() =~= all_groups.take(k));
            assert(all_groups.take(k + 1).last() == strings_view(group@));
            match Hunk::try_from(group) {
                Ok(hunk) => {
                    hunks.push(hunk);
                    assert(hunks_view(hunks@) =~= parsed.push(hunk@));
                },
                Err(e) => {
                    proof {
                        assert(hunks_of(all_groups.take(k + 1)) == Err::<Seq<HunkView>, ErrorView>(
                            e@,
                        ));
                        lemma_hunks_error(all_groups, k + 1);
                    }
                    return Err(e);
                },
            }
        }
        assert(all_groups.take(all_groups.len() as int) =~= all_groups);
        Ok(
            FileDiff {
                diff_command: DiffCommand(command),
                source_file_header,
                target_file_header,
                hunks,
            },
        )
    }

    /// Returns the command that produced this file diff.
    pub fn diff_command(&self) -> (command: &DiffCommand)
        ensures
            command@ == self@.diff_command,
    {
        &self.diff_command
    }

    /// Returns the header of the source file: the file that is assumed to be
    /// the older version.
    pub fn source_file_header(&self) -> (header: &SourceFileHeader)
        ensures
            header@ == self@.source_file_header,
    {
        &self.source_file_header
    }

    /// Returns the header of the target file: the file that is assumed to be
    /// the newer version.
    pub fn target_file_header(&self) -> (header: &TargetFileHeader)
        ensures
            header@ == self@.target_file_header,
    {
        &self.target_file_header
    }

    /// Returns a reference to the hunks of this file diff, of which there is
    /// at least one.
    pub fn hunks(&self) -> (hunks: &[Hunk])
        ensures
            hunks_view(hunks@) == self@.hunks,
            hunks@.len() > 0,
    {
        proof {
            use_type_invariant(self);
        }
        self.hunks.as_slice()
    }
}


/// The file diffs that the given groups of lines stand for. The first group
/// that is no file diff decides the error.
pub open spec fn file_diffs_of(groups: Seq<Seq<Seq<char>>>) -> Result<Seq<FileDiffView>, ErrorView>
    decreases groups.len(),
{
    if groups.len() == 0 {
        Ok(Seq::empty())
    } else {
        match file_diffs_of(groups.drop_last()) {
            Err(e) => Err(e),
            Ok(before) => match file_diff_of(groups.last()) {
                Err(e) => Err(e),
                Ok(diff) => Ok(before.push(diff)),
            },
        }
    }
}

/// An error among the first file diffs is the error of all file diffs.
pub proof fn lemma_file_diffs_error(groups: Seq<Seq<Seq<char>>>, k: int)
    requires
        0 <= k <= groups.len(),
        file_diffs_of(groups.take(k)) is Err,
    ensures
        file_diffs_of(groups) == file_diffs_of(groups.take(k)),
    decreases groups.len() - k,
{
    if k < groups.len() {
        assert(groups.take(k + 1).drop_last() =~= groups.take(k));
        lemma_file_diffs_error(groups, k + 1);
    } else {
        assert(groups.take(k) =~= groups);
    }
}

/// The file diffs that a text stands for. The text is split into lines, and
/// the lines into groups that start at the lines that start with `diff `.
/// Each group is a file diff. A text without lines is an error.
pub open spec fn version_diff_of(text: Seq<char>) -> Result<Seq<FileDiffView>, ErrorView> {
    let blocks = groups(crate::text::lines_of(text), "diff "@);
    match file_diffs_of(blocks) {
        Err(e) => Err(e),
        Ok(diffs) => if diffs.len() == 0 {
            Err(parse_error("the given diff is empty"@))
        } else {
            Ok(diffs)
        },
    }
}

/// The diff between two versions of a project: one or more file diffs.
#[derive(Debug)]
pub struct VersionDiff {
    file_diffs: Vec<FileDiff>,
}

/// The views of a sequence of file diffs.
pub open spec fn file_diffs_view(diffs: Seq<FileDiff>) -> Seq<FileDiffView> {
    diffs.map_values(|d: FileDiff| d@)
}

impl View for VersionDiff {
    type V = Seq<FileDiffView>;

    closed spec fn view(&self) -> Seq<FileDiffView> {
        file_diffs_view(self.file_diffs@)
    }
}

impl Clone for VersionDiff {
    fn clone(&self) -> (res: VersionDiff)
        ensures
            res@ == self@,
    {
        let mut file_diffs: Vec<FileDiff> = Vec::new();
        let mut i: usize = 0;
        while i < self.file_diffs.len()
            invariant
                i <= self.file_diffs@.len(),
                file_diffs_view(file_diffs@) == file_diffs_view(self.file_diffs@).take(i as int),
            decreases self.file_diffs@.len() - i,
        {
            let ghost before = file_diffs_view(file_diffs@);
            let d = self.file_diffs[i].clone();
            file_diffs.push(d);
            assert(file_diffs_view(file_diffs@) =~= before.push(self.file_diffs@[i as int]@));
            i += 1;
            assert(file_diffs_view(file_diffs@) =~= file_diffs_view(self.file_diffs@).take(
                i as int,
            ));
        }
        assert(file_diffs_view(self.file_diffs@).take(self.file_diffs@.len() as int)
            =~= file_diffs_view(self.file_diffs@));
        VersionDiff { file_diffs }
    }
}

impl VersionDiff {
    /// Reads a version diff from the text of a diff.
    ///
    /// ## Error
    /// Returns a `DiffParseError` if the text is no unified diff.
    pub fn try_from(content: String) -> (result: Result<VersionDiff, Error>)
        ensures
            match result {
                Ok(diff) => version_diff_of(content@) == Ok::<Seq<FileDiffView>, ErrorView>(diff@),
                Err(e) => version_diff_of(content@) == Err::<Seq<FileDiffView>, ErrorView>(e@),
            },
    {
        let lines = crate::text::split_lines(content.as_str());
        assert(strings_view(lines@).skip(0) =~= strings_view(lines@));
        let blocks = split_groups(&lines, 0, "diff ");
        let ghost all_blocks = groups_view(blocks@);
        let mut file_diffs: Vec<FileDiff> = Vec::new();
        assert(file_diffs_view(file_diffs@) =~= Seq::<FileDiffView>::empty());
        assert(all_blocks.take(0) =~= Seq::<Seq<Seq<char>>>::empty());
        for block in it: blocks
            invariant
                all_blocks == groups_view(it.seq()),
                all_blocks == groups(crate::text::lines_of(content@), "diff "@),
                file_diffs_of(all_blocks.take(it.index@)) == Ok::<Seq<FileDiffView>, ErrorView>(
                    file_diffs_view(file_diffs@),
                ),
        {
            let ghost k = it.index@;
            let ghost parsed = file_diffs_view(file_diffs@);
            assert(all_blocks.take(k + 1).drop_last() =~= all_blocks.take(k));
            assert(all_blocks.take(k + 1).last() == strings_view(block@));
            match FileDiff::try_from(block) {
                Ok(diff) => {
                    file_diffs.push(diff);
                    assert(file_diffs_view(file_diffs@) =~= parsed.push(diff@));
                },
                Err(e) => {
                    proof {
                        assert(file_diffs_of(all_blocks.take(k + 1)) == Err::<
                            Seq<FileDiffView>,
                            ErrorView,
                        >(e@));
                        lemma_file_diffs_error(all_blocks, k + 1);
                    }
                    return Err(e);
                },
            }
        }
        assert(all_blocks.take(all_blocks.len() as int) =~= all_blocks);
        if file_diffs.len() == 0 {
            Err(Error::new("the given diff is empty", ErrorKind::DiffParseError))
        } else {
            Ok(VersionDiff { file_diffs })
        }
    }

    /// Returns a reference to the file diffs in this version diff.
    pub fn file_diffs(&self) -> (diffs: &[FileDiff])
        ensures
            file_diffs_view(diffs@) == self@,
    {
        self.file_diffs.as_slice()
    }

    /// Consumes this version diff and returns its file diffs.
    pub fn into_file_diffs(self) -> (diffs: Vec<FileDiff>)
        ensures
            file_diffs_view(diffs@) == self@,
    {
        self.file_diffs
    }

    /// Returns the number of file diffs in this version diff.
    pub fn len(&self) -> (n: usize)
        ensures
            n == self@.len(),
    {
        self.file_diffs.len()
    }

    /// Returns true if this version diff contains no file diffs.
    pub fn is_empty(&self) -> (b: bool)
        ensures
            b == (self@.len() == 0),
    {
        self.file_diffs.len() == 0
    }
}


/// The texts of the given hunk lines.
pub open spec fn hunk_line_texts(lines: Seq<HunkLineView>) -> Seq<Seq<char>> {
    lines.map_values(|l: HunkLineView| l.line)
}

/// The lines of the text of a hunk: its header line, then its lines.
pub open spec fn hunk_lines_of(hunk: HunkView) -> Seq<Seq<char>> {
    seq![location_line_text(hunk.source_location, hunk.target_location)] + hunk_line_texts(
        hunk.lines,
    )
}

/// The lines of the texts of the given hunks, one hunk after the other.
pub open spec fn hunks_lines(hunks: Seq<HunkView>) -> Seq<Seq<char>>
    decreases hunks.len(),
{
    if hunks.len() == 0 {
        Seq::empty()
    } else {
        hunks_lines(hunks.drop_last()) + hunk_lines_of(hunks.last())
    }
}

/// The three lines of the header of a file diff: the diff command, the header
/// of the source file, and the header of the target file.
pub open spec fn header_lines(diff: FileDiffView) -> Seq<Seq<char>> {
    seq![
        diff.diff_command,
        file_header_text("--- "@, diff.source_file_header),
        file_header_text("+++ "@, diff.target_file_header),
    ]
}

/// The lines of the text of a file diff: its header, then its hunks.
pub open spec fn file_diff_lines(diff: FileDiffView) -> Seq<Seq<char>> {
    header_lines(diff) + hunks_lines(diff.hunks)
}

/// The lines of the texts of the given file diffs, one file diff after the other.
pub open spec fn version_diff_lines(diffs: Seq<FileDiffView>) -> Seq<Seq<char>>
    decreases diffs.len(),
{
    if diffs.len() == 0 {
        Seq::empty()
    } else {
        version_diff_lines(diffs.drop_last()) + file_diff_lines(diffs.last())
    }
}

/// Tells whether a hunk line of the given type changes the file.
pub open spec fn is_change(t: LineType) -> bool {
    t == LineType::Add || t == LineType::Remove
}

/// The given hunk lines without the context lines and the markers of a
/// missing line ending.
pub open spec fn changed(lines: Seq<HunkLineView>) -> Seq<HunkLineView>
    decreases lines.len(),
{
    if lines.len() == 0 {
        Seq::empty()
    } else if is_change(lines.last().line_type) {
        changed(lines.drop_last()).push(lines.last())
    } else {
        changed(lines.drop_last())
    }
}

/// The lines of the given hunks that change the file, in the order of the diff.
pub open spec fn changed_lines(hunks: Seq<HunkView>) -> Seq<HunkLineView>
    decreases hunks.len(),
{
    if hunks.len() == 0 {
        Seq::empty()
    } else {
        changed_lines(hunks.drop_last()) + changed(hunks.last().lines)
    }
}

/// Returns the text that the characters of `out` spell.
fn finish(out: Vec<char>) -> (s: String)
    ensures
        s@ == out@,
{
    string_from_chars(&out)
}

/// Returns the text of a file header line.
fn render_file_header(marker: &str, path: &str, timestamp: &str) -> (s: String)
    ensures
        s@ == file_header_text(marker@, FileHeaderView { path: path@, timestamp: timestamp@ }),
{
    let mut out: Vec<char> = Vec::new();
    push_str(&mut out, marker);
    push_str(&mut out, path);
    out.push('\t');
    push_str(&mut out, timestamp);
    assert(out@ =~= marker@ + path@ + seq!['\t'] + timestamp@);
    finish(out)
}

impl Hunk {
    /// Returns the header line of this hunk.
    fn location_line(&self) -> (s: String)
        ensures
            s@ == location_line_text(self@.source_location, self@.target_location),
    {
        let mut out: Vec<char> = Vec::new();
        push_str(&mut out, "@@ -");
        self.source_location.render_into(&mut out);
        push_str(&mut out, " +");
        self.target_location.render_into(&mut out);
        push_str(&mut out, " @@");
        assert(out@ =~= location_line_text(self@.source_location, self@.target_location));
        finish(out)
    }

    /// Appends the lines of the text of this hunk to `out`.
    fn push_lines(&self, out: &mut Vec<String>)
        ensures
            strings_view(final(out)@) == strings_view(old(out)@) + hunk_lines_of(self@),
    {
        let ghost start = strings_view(old(out)@);
        let header = self.location_line();
        out.push(header);
        assert(strings_view(out@) =~= start + seq![header@]);
        let mut i: usize = 0;
        while i < self.lines.len()
            invariant
                i <= self.lines@.len(),
                strings_view(out@) == start + seq![header@] + hunk_line_texts(self@.lines).take(
                    i as int,
                ),
            decreases self.lines@.len() - i,
        {
            let ghost before = strings_view(out@);
            out.push(self.lines[i].line.clone());
            assert(strings_view(out@) =~= before.push(self@.lines[i as int].line));
            i += 1;
            assert(strings_view(out@) =~= start + seq![header@] + hunk_line_texts(
                self@.lines,
            ).take(i as int));
        }
        assert(hunk_line_texts(self@.lines).take(i as int) =~= hunk_line_texts(self@.lines));
        assert(strings_view(out@) =~= start + hunk_lines_of(self@));
    }

    /// Returns the text of this hunk: its lines, joined by line feeds.
    pub fn to_string(&self) -> (s: String)
        ensures
            s@ == crate::text::join_lines(hunk_lines_of(self@)),
    {
        let mut lines: Vec<String> = Vec::new();
        assert(strings_view(lines@) =~= Seq::<Seq<char>>::empty());
        self.push_lines(&mut lines);
        assert(strings_view(lines@) =~= hunk_lines_of(self@));
        finish(crate::text::join_strings(&lines))
    }
}

/// The changed lines of a file diff, one after the other, by reference.
pub struct ChangedLines<'a> {
    // The lines are held from the last to the first, so that the next line
    // is the one at the end.
    changes: Vec<&'a HunkLine>,
}

impl<'a> ChangedLines<'a> {
    /// The lines that are still to come, the next one first.
    pub closed spec fn remaining(&self) -> Seq<HunkLineView> {
        self.changes@.map_values(|l: &HunkLine| l@).reverse()
    }

    /// Returns the next changed line, or `None` when there is none left.
    pub fn next(&mut self) -> (line: Option<&'a HunkLine>)
        ensures
            match line {
                Some(l) => old(self).remaining().len() > 0 && l@ == old(self).remaining()[0]
                    && final(self).remaining() == old(self).remaining().skip(1),
                None => old(self).remaining().len() == 0 && final(self).remaining() == old(
                    self,
                ).remaining(),
            },
    {
        let line = self.changes.pop();
        proof {
            if line is Some {
                assert(self.remaining() =~= old(self).remaining().skip(1));
            }
        }
        line
    }
}

/// The changed lines of a file diff, one after the other, by value.
pub struct IntoChangedLines {
    // The lines are held from the last to the first, so that the next line
    // is the one at the end.
    changes: Vec<HunkLine>,
}

impl IntoChangedLines {
    /// The lines that are still to come, the next one first.
    pub closed spec fn remaining(&self) -> Seq<HunkLineView> {
        hunk_lines_view(self.changes@).reverse()
    }

    /// Returns the next changed line, or `None` when there is none left.
    pub fn next(&mut self) -> (line: Option<HunkLine>)
        ensures
            match line {
                Some(l) => old(self).remaining().len() > 0 && l@ == old(self).remaining()[0]
                    && final(self).remaining() == old(self).remaining().skip(1),
                None => old(self).remaining().len() == 0 && final(self).remaining() == old(
                    self,
                ).remaining(),
            },
    {
        let line = self.changes.pop();
        proof {
            if line is Some {
                assert(self.remaining() =~= old(self).remaining().skip(1));
            }
        }
        line
    }
}

impl FileDiff {
    /// Appends the lines of the text of this file diff to `out`.
    fn push_lines(&self, out: &mut Vec<String>)
        ensures
            strings_view(final(out)@) == strings_view(old(out)@) + file_diff_lines(self@),
    {
        let ghost start = strings_view(old(out)@);
        out.push(self.diff_command.0.clone());
        out.push(
            render_file_header(
                "--- ",
                self.source_file_header.path.as_str(),
                self.source_file_header.timestamp.as_str(),
            ),
        );
        out.push(
            render_file_header(
                "+++ ",
                self.target_file_header.path.as_str(),
                self.target_file_header.timestamp.as_str(),
            ),
        );
        assert(strings_view(out@) =~= start + header_lines(self@));
        let mut i: usize = 0;
        assert(hunks_view(self.hunks@).take(0) =~= Seq::<HunkView>::empty());
        while i < self.hunks.len()
            invariant
                i <= self.hunks@.len(),
                strings_view(out@) == start + header_lines(self@) + hunks_lines(
                    self@.hunks.take(i as int),
                ),
            decreases self.hunks@.len() - i,
        {
            let ghost before = strings_view(out@);
            assert(self@.hunks.take(i + 1).drop_last() =~= self@.hunks.take(i as int));
            assert(self@.hunks.take(i + 1).last() == self.hunks@[i as int]@);
            self.hunks[i].push_lines(out);
            i += 1;
            assert(strings_view(out@) =~= start + header_lines(self@) + hunks_lines(
                self@.hunks.take(i as int),
            ));
        }
        assert(self@.hunks.take(i as int) =~= self@.hunks);
        assert(strings_view(out@) =~= start + file_diff_lines(self@));
    }

    /// Returns the text of this file diff: its lines, joined by line feeds.
    pub fn to_string(&self) -> (s: String)
        ensures
            s@ == crate::text::join_lines(file_diff_lines(self@)),
    {
        let mut lines: Vec<String> = Vec::new();
        assert(strings_view(lines@) =~= Seq::<Seq<char>>::empty());
        self.push_lines(&mut lines);
        assert(strings_view(lines@) =~= file_diff_lines(self@));
        finish(crate::text::join_strings(&lines))
    }

    /// Returns the header of this file diff: the diff command, the header of
    /// the source file, and the header of the target file, joined by line feeds.
    pub fn header(&self) -> (s: String)
        ensures
            s@ == crate::text::join_lines(header_lines(self@)),
    {
        let mut lines: Vec<String> = Vec::new();
        lines.push(self.diff_command.0.clone());
        lines.push(
            render_file_header(
                "--- ",
                self.source_file_header.path.as_str(),
                self.source_file_header.timestamp.as_str(),
            ),
        );
        lines.push(
            render_file_header(
                "+++ ",
                self.target_file_header.path.as_str(),
                self.target_file_header.timestamp.as_str(),
            ),
        );
        assert(strings_view(lines@) =~= header_lines(self@));
        finish(crate::text::join_strings(&lines))
    }

    /// Collects the changed lines of this file diff in the order of the diff.
    fn collect_changes(&self) -> (changes: Vec<&HunkLine>)
        ensures
            changes@.map_values(|l: &HunkLine| l@) == changed_lines(self@.hunks),
    {
        let mut changes: Vec<&HunkLine> = Vec::new();
        let mut i: usize = 0;
        assert(self@.hunks.take(0) =~= Seq::<HunkView>::empty());
        assert(changes@.map_values(|l: &HunkLine| l@) =~= Seq::<HunkLineView>::empty());
        while i < self.hunks.len()
            invariant
                i <= self.hunks@.len(),
                changes@.map_values(|l: &HunkLine| l@) == changed_lines(self@.hunks.take(i as int)),
            decreases self.hunks@.len() - i,
        {
            let hunk = &self.hunks[i];
            let ghost done = changes@.map_values(|l: &HunkLine| l@);
            assert(self@.hunks.take(i + 1).drop_last() =~= self@.hunks.take(i as int));
            assert(self@.hunks.take(i + 1).last() == hunk@);
            let mut j: usize = 0;
            assert(hunk@.lines.take(0) =~= Seq::<HunkLineView>::empty());
            assert(done + changed(hunk@.lines.take(0)) =~= done);
            while j < hunk.lines.len()
                invariant
                    j <= hunk.lines@.len(),
                    changes@.map_values(|l: &HunkLine| l@) == done + changed(
                        hunk@.lines.take(j as int),
                    ),
                decreases hunk.lines@.len() - j,
            {
                let line = &hunk.lines[j];
                let ghost before = changes@.map_values(|l: &HunkLine| l@);
                assert(hunk@.lines.take(j + 1).drop_last() =~= hunk@.lines.take(j as int));
                assert(hunk@.lines.take(j + 1).last() == line@);
                match line.line_type {
                    LineType::Add | LineType::Remove => {
                        changes.push(line);
                        assert(changes@.map_values(|l: &HunkLine| l@) =~= before.push(line@));
                    },
                    _ => {},
                }
                j += 1;
                assert(changes@.map_values(|l: &HunkLine| l@) =~= done + changed(
                    hunk@.lines.take(j as int),
                ));
            }
            assert(hunk@.lines.take(j as int) =~= hunk@.lines);
            i += 1;
        }
        assert(self@.hunks.take(i as int) =~= self@.hunks);
        changes
    }

    /// Collects all changed lines of this file diff, that is its added and
    /// its removed lines, and returns them one after the other, by reference.
    pub fn changes(&self) -> (lines: ChangedLines<'_>)
        ensures
            lines.remaining() == changed_lines(self@.hunks),
    {
        let mut collected = self.collect_changes();
        let ghost all = collected@.map_values(|l: &HunkLine| l@);
        let mut changes: Vec<&HunkLine> = Vec::new();
        while collected.len() > 0
            invariant
                collected@.len() <= all.len(),
                collected@.map_values(|l: &HunkLine| l@) == all.take(collected@.len() as int),
                changes@.map_values(|l: &HunkLine| l@) == all.skip(
                    collected@.len() as int,
                ).reverse(),
            decreases collected@.len(),
        {
            let ghost k = collected@.len() as int;
            let ghost before = changes@.map_values(|l: &HunkLine| l@);
            let ghost pending = collected@.map_values(|l: &HunkLine| l@);
            let line = collected.pop().unwrap();
            assert(line@ == pending[k - 1]);
            changes.push(line);
            assert(collected@.map_values(|l: &HunkLine| l@) =~= all.take(k - 1));
            assert(changes@.map_values(|l: &HunkLine| l@) =~= before.push(line@));
            assert(before.push(all[k - 1]) =~= all.skip(k - 1).reverse());
        }
        assert(all.skip(0) =~= all);
        assert(all.reverse().reverse() =~= all);
        ChangedLines { changes }
    }

    /// Collects all changed lines of this file diff, that is its added and
    /// its removed lines, and returns them one after the other, by value.
    pub fn into_changes(self) -> (lines: IntoChangedLines)
        ensures
            lines.remaining() == changed_lines(self@.hunks),
    {
        let mut collected = self.collect_changes();
        let ghost all = collected@.map_values(|l: &HunkLine| l@);
        let mut changes: Vec<HunkLine> = Vec::new();
        while collected.len() > 0
            invariant
                collected@.len() <= all.len(),
                collected@.map_values(|l: &HunkLine| l@) == all.take(collected@.len() as int),
                hunk_lines_view(changes@) == all.skip(collected@.len() as int).reverse(),
            decreases collected@.len(),
        {
            let ghost k = collected@.len() as int;
            let ghost before = hunk_lines_view(changes@);
            let ghost pending = collected@.map_values(|l: &HunkLine| l@);
            let line = collected.pop().unwrap();
            assert(line@ == pending[k - 1]);
            let owned = line.clone();
            changes.push(owned);
            assert(collected@.map_values(|l: &HunkLine| l@) =~= all.take(k - 1));
            assert(hunk_lines_view(changes@) =~= before.push(line@));
            assert(before.push(all[k - 1]) =~= all.skip(k - 1).reverse());
        }
        assert(all.skip(0) =~= all);
        assert(all.reverse().reverse() =~= all);
        IntoChangedLines { changes }
    }
}

impl VersionDiff {
    /// Returns the text of this version diff: the lines of its file diffs,
    /// joined by line feeds.
    pub fn to_string(&self) -> (s: String)
        ensures
            s@ == crate::text::join_lines(version_diff_lines(self@)),
    {
        let mut lines: Vec<String> = Vec::new();
        assert(strings_view(lines@) =~= Seq::<Seq<char>>::empty());
        let mut i: usize = 0;
        assert(self@.take(0) =~= Seq::<FileDiffView>::empty());
        while i < self.file_diffs.len()
            invariant
                i <= self.file_diffs@.len(),
                strings_view(lines@) == version_diff_lines(self@.take(i as int)),
            decreases self.file_diffs@.len() - i,
        {
            assert(self@.take(i + 1).drop_last() =~= self@.take(i as int));
            assert(self@.take(i + 1).last() == self.file_diffs@[i as int]@);
            self.file_diffs[i].push_lines(&mut lines);
            i += 1;
        }
        assert(self@.take(i as int) =~= self@);
        finish(crate::text::join_strings(&lines))
    }
}

} // verus!
