use crate::io::{FileArtifact, FileArtifactView};
use similar::TextDiff;
use vstd::prelude::*;
use vstd::string::StrSliceExecFns;

verus! {

/// The match of a line: the number of its counterpart in the other file, or
/// `None` where it has no counterpart.
pub type MatchId = Option<usize>;

/// The distance between a line and the matched line that was found for it by
/// a fuzzy search.
#[derive(Debug, PartialEq, Eq, Clone, Copy, Structural)]
pub struct MatchOffset(pub usize);

/// The mathematical content of a [`Matching`]. For each line of one file, in
/// order, the two maps hold the number of the line it is matched to in the
/// other file. Lines are numbered from one.
pub struct MatchingView {
    pub source: FileArtifactView,
    pub target: FileArtifactView,
    pub source_to_target: Seq<Option<usize>>,
    pub target_to_source: Seq<Option<usize>>,
}

/// A matching holds which lines of a source file and a target file have been
/// matched to each other. It owns both files, so that they cannot change while
/// the matching is in use.
pub struct Matching {
    source: FileArtifact,
    target: FileArtifact,
    source_to_target: Vec<MatchId>,
    target_to_source: Vec<MatchId>,
}

/// Tells whether each line number of a map leaves room for the number of the
/// line after it.
pub open spec fn line_numbers_fit(map: Seq<Option<usize>>) -> bool {
    forall|i: int|
        0 <= i < map.len() ==> match #[trigger] map[i] {
            Some(line) => line + 1 <= usize::MAX,
            None => true,
        }
}

/// The line number that an index stands for: indices count from zero, line
/// numbers from one.
pub open spec fn line_number_of(index: Option<usize>) -> Option<usize> {
    match index {
        Some(index) => Some((index + 1) as usize),
        None => None,
    }
}

/// The line numbers that the given indices stand for.
pub open spec fn line_numbers(indices: Seq<Option<usize>>) -> Seq<Option<usize>> {
    indices.map_values(|index: Option<usize>| line_number_of(index))
}

/// What a map says of the line with the given number: `None` if the map has
/// no entry for the line, else the match of the line.
pub open spec fn lookup(map: Seq<Option<usize>>, line: int) -> Option<Option<usize>> {
    if 1 <= line <= map.len() {
        Some(map[line - 1])
    } else {
        None
    }
}

/// Tells whether the map matches the line with the given number to a line.
pub open spec fn is_matched(map: Seq<Option<usize>>, line: int) -> bool {
    1 <= line <= map.len() && map[line - 1] is Some
}

/// The number of the nearest matched line at or above the given line, or zero
/// if there is none.
pub open spec fn anchor_above(map: Seq<Option<usize>>, line: nat) -> nat
    decreases line,
{
    if line == 0 || is_matched(map, line as int) {
        line
    } else {
        anchor_above(map, (line - 1) as nat)
    }
}

/// The fuzzy match of a line and its distance from the line. The match of the
/// line itself is taken where it has one. Otherwise the nearest matched line
/// above decides, and the result is the line after its match. Without
/// a matched line above there is no match.
pub open spec fn fuzzy_match(map: Seq<Option<usize>>, line: usize) -> (Option<usize>, usize) {
    let anchor = anchor_above(map, line as nat);
    let offset = (line - anchor) as usize;
    if anchor == 0 {
        (None, offset)
    } else if offset == 0 {
        (map[anchor - 1], offset)
    } else {
        (Some((map[anchor - 1].unwrap() + 1) as usize), offset)
    }
}

/// Tells whether the two maps of a matching agree: a source line is matched to
/// a target line exactly if that target line is matched to the source line.
pub open spec fn is_symmetric(m: MatchingView) -> bool {
    forall|i: int, j: int|
        1 <= i <= usize::MAX && 1 <= j <= usize::MAX ==> (#[trigger] lookup(m.source_to_target, i)
            == Some(Some(j as usize)) <==> #[trigger] lookup(m.target_to_source, j) == Some(
            Some(i as usize),
        ))
}

impl View for Matching {
    type V = MatchingView;

    closed spec fn view(&self) -> MatchingView {
        MatchingView {
            source: self.source@,
            target: self.target@,
            source_to_target: self.source_to_target@,
            target_to_source: self.target_to_source@,
        }
    }
}

impl Matching {
    #[verifier::type_invariant]
    closed spec fn line_numbers_leave_room(&self) -> bool {
        line_numbers_fit(self.source_to_target@) && line_numbers_fit(self.target_to_source@)
    }

    /// Creates a new matching from the given source and target files and the
    /// matches of their lines.
    ///
    /// Each vector holds one entry per line that the matcher has processed, in
    /// the order of the lines: the entry at index zero belongs to line one.
    /// The entry of a line is the line number of its counterpart in the other
    /// file, counted from one: if the first lines of both files match, both
    /// vectors start with `Some(1)`. The getters of the matching return what
    /// the vectors hold.
    pub fn new(
        source: FileArtifact,
        target: FileArtifact,
        source_to_target: Vec<MatchId>,
        target_to_source: Vec<MatchId>,
    ) -> (matching: Matching)
        requires
            line_numbers_fit(source_to_target@),
            line_numbers_fit(target_to_source@),
        ensures
            matching@ == (MatchingView {
                source: source@,
                target: target@,
                source_to_target: source_to_target@,
                target_to_source: target_to_source@,
            }),
    {
        Matching { source, target, source_to_target, target_to_source }
    }

    /// The number of lines that either map of a matching speaks of fits into
    /// a `usize`.
    pub proof fn lemma_maps_fit(&self)
        ensures
            self@.source_to_target.len() <= usize::MAX,
            self@.target_to_source.len() <= usize::MAX,
    {
        assert(self.source_to_target.len() == self.source_to_target@.len());
        assert(self.target_to_source.len() == self.target_to_source@.len());
    }

    /// Returns the match in the target file for a line number of the source file.
    ///
    /// Returns `None` if the matcher has not processed the source line, and
    /// `Some` of its match if it has. The match is `Some` line number if there
    /// is a counterpart in the target file; otherwise, it is `None`.
    pub fn target_index(&self, source_index: usize) -> (result: Option<MatchId>)
        ensures
            result == lookup(self@.source_to_target, source_index as int),
    {
        proof {
            use_type_invariant(self);
        }
        if source_index == 0 || source_index > self.source_to_target.len() {
            None
        } else {
            Some(self.source_to_target[source_index - 1])
        }
    }

    /// Returns the match in the source file for a line number of the target file.
    ///
    /// Returns `None` if the matcher has not processed the target line, and
    /// `Some` of its match if it has. The match is `Some` line number if there
    /// is a counterpart in the source file; otherwise, it is `None`.
    pub fn source_index(&self, target_index: usize) -> (result: Option<MatchId>)
        ensures
            result == lookup(self@.target_to_source, target_index as int),
    {
        proof {
            use_type_invariant(self);
        }
        if target_index == 0 || target_index > self.target_to_source.len() {
            None
        } else {
            Some(self.target_to_source[target_index - 1])
        }
    }

    /// Returns a reference to the source file.
    pub fn source(&self) -> (file: &FileArtifact)
        ensures
            file@ == self@.source,
    {
        &self.source
    }

    /// Returns a reference to the target file.
    pub fn target(&self) -> (file: &FileArtifact)
        ensures
            file@ == self@.target,
    {
        &self.target
    }

    /// Consumes this matching and returns ownership of the source file.
    pub fn into_source(self) -> (file: FileArtifact)
        ensures
            file@ == self@.source,
    {
        self.source
    }

    /// Consumes this matching and returns ownership of the target file.
    pub fn into_target(self) -> (file: FileArtifact)
        ensures
            file@ == self@.target,
    {
        self.target
    }

    /// Searches for the closest line at or above the given source line that
    /// has a match in the target file.
    ///
    /// If the given line has a match itself, this match is returned with an
    /// offset of zero. If a line above it has a match, the number of the line
    /// after that match is returned, with the distance between the two source
    /// lines as offset: what is added there lands just below the matched
    /// line. If there is no matched line at or above the given line, `None` is
    /// returned with the given line number as offset.
    pub fn target_index_fuzzy(&self, line_number: usize) -> (result: (MatchId, MatchOffset))
        ensures
            result.0 == fuzzy_match(self@.source_to_target, line_number).0,
            result.1.0 == fuzzy_match(self@.source_to_target, line_number).1,
    {
        proof {
            use_type_invariant(self);
        }
        let ghost map = self@.source_to_target;
        let mut line: usize = line_number;
        while line > 0 && !(line <= self.source_to_target.len() && self.source_to_target[line
            - 1].is_some())
            invariant
                line <= line_number,
                map == self.source_to_target@,
                anchor_above(map, line as nat) == anchor_above(map, line_number as nat),
            decreases line,
        {
            line -= 1;
        }
        let match_offset = MatchOffset(line_number - line);
        if line == 0 {
            (None, match_offset)
        } else {
            let target_line = self.source_to_target[line - 1].unwrap();
            if line < line_number {
                (Some(target_line + 1), match_offset)
            } else {
                (Some(target_line), match_offset)
            }
        }
    }
}


/// A common interface for matchers that match lines between two files.
///
/// The matching that a matcher returns decides where the changes of a patch
/// are applied in the target file.
pub trait Matcher {
    /// Determines the matching between the two given files. The matching takes
    /// ownership of the files, so that they stay as they were matched.
    fn match_files(&mut self, source: FileArtifact, target: FileArtifact) -> (matching: Matching)
        ensures
            matching@.source == source@,
            matching@.target == target@,
    ;
}

/// One step of a line-by-line comparison of an old and a new text: a line
/// that both texts have, a line that only the old text has, or a line that
/// only the new text has.
#[derive(Debug, PartialEq, Eq, Clone, Copy, Structural)]
pub struct LineChange {
    /// The index of the line in the old text, counted from zero.
    pub old_index: Option<usize>,
    /// The index of the line in the new text, counted from zero.
    pub new_index: Option<usize>,
    /// Whether the line lacks a line ending, as only the last line of a text can.
    pub missing_newline: bool,
}

/// The steps by which `similar` gets from the lines of the text `old` to the
/// lines of the text `new`.
pub uninterp spec fn lcs_changes(old: Seq<char>, new: Seq<char>) -> Seq<LineChange>;

/// Tells whether two texts are short enough to be compared: `similar`
/// numbers the distinct lines of long texts with 32 bits.
pub open spec fn are_comparable(old: Seq<char>, new: Seq<char>) -> bool {
    old.len() + new.len() <= u32::MAX
}

/// Compares two texts line by line with `similar::TextDiff::from_lines`, and
/// returns every change that `iter_all_changes` yields for the comparison, in
/// order, with its two indices and whether its line lacks a line ending. The
/// comparison runs without a deadline, so that the texts alone decide it.
#[verifier::external_body]
fn line_changes(old: &str, new: &str) -> (changes: Vec<LineChange>)
    requires
        are_comparable(old@, new@),
    ensures
        changes@ == lcs_changes(old@, new@),
{
    TextDiff::from_lines(old, new).iter_all_changes().map(
        |c| LineChange {
            old_index: c.old_index(),
            new_index: c.new_index(),
            missing_newline: c.missing_newline(),
        },
    ).collect()
}

/// For each change that has a line of the old text, in order, the index of
/// its line in the new text.
pub open spec fn source_map(changes: Seq<LineChange>) -> Seq<Option<usize>>
    decreases changes.len(),
{
    if changes.len() == 0 {
        Seq::empty()
    } else if changes.last().old_index is Some {
        source_map(changes.drop_last()).push(changes.last().new_index)
    } else {
        source_map(changes.drop_last())
    }
}

/// For each change that has a line of the new text, in order, the index of
/// its line in the old text.
pub open spec fn target_map(changes: Seq<LineChange>) -> Seq<Option<usize>>
    decreases changes.len(),
{
    if changes.len() == 0 {
        Seq::empty()
    } else if changes.last().new_index is Some {
        target_map(changes.drop_last()).push(changes.last().old_index)
    } else {
        target_map(changes.drop_last())
    }
}

/// Tells whether the last line of the old text ends with a line ending: the
/// last change that has a line of the old text says so.
pub open spec fn source_ends_with_newline(changes: Seq<LineChange>) -> bool
    decreases changes.len(),
{
    if changes.len() == 0 {
        false
    } else if changes.last().old_index is Some {
        !changes.last().missing_newline
    } else {
        source_ends_with_newline(changes.drop_last())
    }
}

/// Tells whether the last line of the new text ends with a line ending: the
/// last change that has a line of the new text says so.
pub open spec fn target_ends_with_newline(changes: Seq<LineChange>) -> bool
    decreases changes.len(),
{
    if changes.len() == 0 {
        false
    } else if changes.last().new_index is Some {
        !changes.last().missing_newline
    } else {
        target_ends_with_newline(changes.drop_last())
    }
}

/// Tells whether the changes count the lines of both texts in sequence: each
/// change that has a line of the old text has the index that follows the one
/// before it, starting at zero, and likewise for the new text. Also, the
/// changes are few enough that every line number fits into a `usize`.
pub open spec fn in_sequence(changes: Seq<LineChange>) -> bool
    decreases changes.len(),
{
    if changes.len() == 0 {
        true
    } else {
        let before = changes.drop_last();
        &&& in_sequence(before)
        &&& changes.len() + 2 <= usize::MAX
        &&& changes.last().old_index is Some ==> changes.last().old_index.unwrap() == source_map(
            before,
        ).len()
        &&& changes.last().new_index is Some ==> changes.last().new_index.unwrap() == target_map(
            before,
        ).len()
    }
}

/// The indices that a matching is made of, for changes that are in sequence:
/// one entry for each line of either text, and one more for the empty line
/// after a last line that ends with a line ending. Where both texts have that
/// empty line, the two are matched to each other.
pub open spec fn matched_indices(changes: Seq<LineChange>) -> (
    Seq<Option<usize>>,
    Seq<Option<usize>>,
) {
    let source = source_map(changes);
    let target = target_map(changes);
    if source_ends_with_newline(changes) && target_ends_with_newline(changes) {
        (source.push(Some(target.len() as usize)), target.push(Some(source.len() as usize)))
    } else if source_ends_with_newline(changes) {
        (source.push(None), target)
    } else if target_ends_with_newline(changes) {
        (source, target.push(None))
    } else {
        (source, target)
    }
}

/// The matching of two files of which no line has been processed.
pub open spec fn unprocessed(source: FileArtifactView, target: FileArtifactView) -> MatchingView {
    MatchingView { source, target, source_to_target: Seq::empty(), target_to_source: Seq::empty() }
}

/// The matching of two files that follows from the changes between them. If
/// the changes are not in sequence, no line counts as processed.
pub open spec fn matching_of(
    source: FileArtifactView,
    target: FileArtifactView,
    changes: Seq<LineChange>,
) -> MatchingView {
    if in_sequence(changes) {
        MatchingView {
            source,
            target,
            source_to_target: line_numbers(matched_indices(changes).0),
            target_to_source: line_numbers(matched_indices(changes).1),
        }
    } else {
        unprocessed(source, target)
    }
}

/// The matching of two files by the lines that their texts have in common.
/// It follows from the changes between the two texts. If the texts are too
/// long to be compared, no line counts as processed.
pub open spec fn lcs_matching(source: FileArtifactView, target: FileArtifactView) -> MatchingView {
    let old = crate::text::join_lines(source.lines);
    let new = crate::text::join_lines(target.lines);
    if are_comparable(old, new) {
        matching_of(source, target, lcs_changes(old, new))
    } else {
        unprocessed(source, target)
    }
}

/// The two maps of changes that are in sequence agree, and they hold no
/// more entries than there are changes.
pub proof fn lemma_maps_bounded(changes: Seq<LineChange>)
    requires
        in_sequence(changes),
    ensures
        source_map(changes).len() <= changes.len(),
        target_map(changes).len() <= changes.len(),
        changes.len() > 0 ==> changes.len() + 2 <= usize::MAX,
        forall|i: int|
            0 <= i < source_map(changes).len() ==> match #[trigger] source_map(changes)[i] {
                Some(j) => j < target_map(changes).len() && target_map(changes)[j as int] == Some(
                    i as usize,
                ),
                None => true,
            },
        forall|j: int|
            0 <= j < target_map(changes).len() ==> match #[trigger] target_map(changes)[j] {
                Some(i) => i < source_map(changes).len() && source_map(changes)[i as int] == Some(
                    j as usize,
                ),
                None => true,
            },
    decreases changes.len(),
{
    if changes.len() > 0 {
        lemma_maps_bounded(changes.drop_last());
    }
}

/// Returns the line number that an index stands for.
fn to_line_number(index: Option<usize>) -> (line: Option<usize>)
    requires
        index is Some ==> index.unwrap() < usize::MAX,
    ensures
        line == line_number_of(index),
{
    match index {
        Some(index) => Some(index + 1),
        None => None,
    }
}

/// Builds the matching of two files from the changes between them. The
/// indices of the changes count from zero; the matching holds the line
/// numbers that they stand for.
pub fn matching_from_changes(
    source: FileArtifact,
    target: FileArtifact,
    changes: &Vec<LineChange>,
) -> (matching: Matching)
    ensures
        matching@ == matching_of(source@, target@, changes@),
{
    let mut source_to_target: Vec<MatchId> = Vec::new();
    let mut target_to_source: Vec<MatchId> = Vec::new();
    // Whether the last line of either file is known to end with a line ending.
    let mut source_newline = false;
    let mut target_newline = false;
    if changes.len() > usize::MAX - 2 {
        return Matching::new(source, target, source_to_target, target_to_source);
    }
    let mut k: usize = 0;
    assert(changes@.take(0) =~= Seq::<LineChange>::empty());
    assert(source_to_target@ =~= line_numbers(source_map(changes@.take(0))));
    assert(target_to_source@ =~= line_numbers(target_map(changes@.take(0))));
    while k < changes.len()
        invariant
            k <= changes@.len(),
            changes@.len() + 2 <= usize::MAX,
            in_sequence(changes@.take(k as int)),
            source_to_target@ == line_numbers(source_map(changes@.take(k as int))),
            target_to_source@ == line_numbers(target_map(changes@.take(k as int))),
            source_newline == source_ends_with_newline(changes@.take(k as int)),
            target_newline == target_ends_with_newline(changes@.take(k as int)),
        decreases changes@.len() - k,
    {
        let c = changes[k];
        let ghost before = changes@.take(k as int);
        let ghost next = changes@.take(k + 1);
        let ghost source_before = source_to_target@;
        let ghost target_before = target_to_source@;
        assert(next.drop_last() =~= before);
        assert(next.last() == c);
        proof {
            lemma_maps_bounded(before);
        }
        assert(source_to_target@.len() == source_map(before).len());
        assert(target_to_source@.len() == target_map(before).len());
        let source_fits = match c.old_index {
            Some(index) => index == source_to_target.len(),
            None => true,
        };
        let target_fits = match c.new_index {
            Some(index) => index == target_to_source.len(),
            None => true,
        };
        if !source_fits || !target_fits {
            proof {
                assert(!in_sequence(next));
                lemma_not_in_sequence(changes@, k + 1);
            }
            return Matching::new(source, target, Vec::new(), Vec::new());
        }
        if c.old_index.is_some() {
            source_to_target.push(to_line_number(c.new_index));
            source_newline = !c.missing_newline;
            assert(source_to_target@ =~= line_numbers(source_map(next))) by {
                assert(source_map(next) == source_map(before).push(c.new_index));
                assert(line_numbers(source_map(before).push(c.new_index)) =~= source_before.push(
                    line_number_of(c.new_index),
                ));
            }
        }
        if c.new_index.is_some() {
            target_to_source.push(to_line_number(c.old_index));
            target_newline = !c.missing_newline;
            assert(target_to_source@ =~= line_numbers(target_map(next))) by {
                assert(target_map(next) == target_map(before).push(c.old_index));
                assert(line_numbers(target_map(before).push(c.old_index)) =~= target_before.push(
                    line_number_of(c.old_index),
                ));
            }
        }
        k += 1;
    }
    assert(changes@.take(k as int) =~= changes@);
    proof {
        lemma_maps_bounded(changes@);
    }
    let ghost source_indices = source_map(changes@);
    let ghost target_indices = target_map(changes@);
    assert(source_to_target@.len() == source_indices.len());
    assert(target_to_source@.len() == target_indices.len());
    if source_newline && target_newline {
        // The empty lines after the last line endings are matched to each other.
        let source_lines = source_to_target.len();
        let target_lines = target_to_source.len();
        source_to_target.push(Some(target_lines + 1));
        target_to_source.push(Some(source_lines + 1));
        assert(source_to_target@ =~= line_numbers(
            source_indices.push(Some(target_indices.len() as usize)),
        ));
        assert(target_to_source@ =~= line_numbers(
            target_indices.push(Some(source_indices.len() as usize)),
        ));
    } else if source_newline {
        source_to_target.push(None);
        assert(source_to_target@ =~= line_numbers(source_indices.push(None)));
    } else if target_newline {
        target_to_source.push(None);
        assert(target_to_source@ =~= line_numbers(target_indices.push(None)));
    }
    assert(source_to_target@ == line_numbers(matched_indices(changes@).0));
    assert(target_to_source@ == line_numbers(matched_indices(changes@).1));
    assert(line_numbers_fit(source_to_target@)) by {
        assert forall|i: int| 0 <= i < source_to_target@.len() implies match #[trigger] source_to_target@[i] {
            Some(line) => line + 1 <= usize::MAX,
            None => true,
        } by {
            if i < source_indices.len() {
                assert(source_to_target@[i] == line_number_of(source_indices[i]));
            }
        }
    }
    assert(line_numbers_fit(target_to_source@)) by {
        assert forall|i: int| 0 <= i < target_to_source@.len() implies match #[trigger] target_to_source@[i] {
            Some(line) => line + 1 <= usize::MAX,
            None => true,
        } by {
            if i < target_indices.len() {
                assert(target_to_source@[i] == line_number_of(target_indices[i]));
            }
        }
    }
    Matching::new(source, target, source_to_target, target_to_source)
}

/// Changes whose first changes are not in sequence are not in sequence.
pub proof fn lemma_not_in_sequence(changes: Seq<LineChange>, k: int)
    requires
        0 <= k <= changes.len(),
        !in_sequence(changes.take(k)),
    ensures
        !in_sequence(changes),
    decreases changes.len() - k,
{
    if k < changes.len() {
        assert(changes.take(k + 1).drop_last() =~= changes.take(k));
        lemma_not_in_sequence(changes, k + 1);
    } else {
        assert(changes.take(k) =~= changes);
    }
}

/// A matcher that compares the two files line by line with the `similar`
/// crate and matches the lines of their longest common subsequence.
pub struct LCSMatcher;

impl LCSMatcher {
    /// Creates a new LCSMatcher.
    pub fn new() -> Self {
        LCSMatcher
    }
}

impl Default for LCSMatcher {
    fn default() -> Self {
        LCSMatcher
    }
}

impl Matcher for LCSMatcher {
    /// Matches the lines of the two files. The result is the matching that
    /// follows from the changes between the texts of the two files, and its
    /// two maps agree.
    fn match_files(&mut self, source: FileArtifact, target: FileArtifact) -> (matching: Matching)
        ensures
            matching@ == lcs_matching(source@, target@),
            is_symmetric(matching@),
    {
        let source_text = source.to_string();
        let target_text = target.to_string();
        let source_len = source_text.as_str().unicode_len();
        let target_len = target_text.as_str().unicode_len();
        let limit: usize = if usize::BITS > 32 {
            0xFFFF_FFFF
        } else {
            usize::MAX
        };
        if source_len > limit || target_len > limit - source_len {
            return Matching::new(source, target, Vec::new(), Vec::new());
        }
        let changes = line_changes(source_text.as_str(), target_text.as_str());
        proof {
            lemma_matching_symmetric(source@, target@, changes@);
        }
        matching_from_changes(source, target, &changes)
    }
}

/// Whatever the changes between two files are, the two maps of the matching
/// that follows from them agree: a source line is matched to a target line
/// exactly if that target line is matched to the source line.
pub proof fn lemma_matching_symmetric(
    source: FileArtifactView,
    target: FileArtifactView,
    changes: Seq<LineChange>,
)
    ensures
        is_symmetric(matching_of(source, target, changes)),
{
    let m = matching_of(source, target, changes);
    if in_sequence(changes) {
        lemma_maps_bounded(changes);
        let (s, t) = matched_indices(changes);
        assert forall|i: int, j: int| 1 <= i <= usize::MAX && 1 <= j <= usize::MAX implies (
        #[trigger] lookup(m.source_to_target, i) == Some(Some(j as usize)) <==> #[trigger] lookup(
            m.target_to_source,
            j,
        ) == Some(Some(i as usize))) by {
            if 1 <= i <= s.len() {
                assert(m.source_to_target[i - 1] == line_number_of(s[i - 1]));
                if i - 1 < source_map(changes).len() {
                    assert(s[i - 1] == source_map(changes)[i - 1]);
                }
            }
            if 1 <= j <= t.len() {
                assert(m.target_to_source[j - 1] == line_number_of(t[j - 1]));
                if j - 1 < target_map(changes).len() {
                    assert(t[j - 1] == target_map(changes)[j - 1]);
                }
            }
        }
    }
}


/// The changes between two texts of `count` lines each that are equal line
/// by line: each line of the old text is the line of the new text with the
/// same index. Only the last line may lack its line ending.
pub open spec fn equal_lines(count: nat, ends_with_newline: bool) -> Seq<LineChange> {
    Seq::new(
        count,
        |k: int|
            LineChange {
                old_index: Some(k as usize),
                new_index: Some(k as usize),
                missing_newline: k == count - 1 && !ends_with_newline,
            },
    )
}

/// The first changes between two equal texts are in sequence and map each
/// line to itself.
proof fn lemma_equal_lines_prefix(count: nat, ends_with_newline: bool, k: int)
    requires
        0 <= k <= count,
        count + 2 <= usize::MAX,
    ensures
        in_sequence(equal_lines(count, ends_with_newline).take(k)),
        source_map(equal_lines(count, ends_with_newline).take(k)) == Seq::new(
            k as nat,
            |i: int| Some(i as usize),
        ),
        target_map(equal_lines(count, ends_with_newline).take(k)) == Seq::new(
            k as nat,
            |i: int| Some(i as usize),
        ),
        k > 0 ==> source_ends_with_newline(equal_lines(count, ends_with_newline).take(k)) == !(k
            == count && !ends_with_newline),
        k > 0 ==> target_ends_with_newline(equal_lines(count, ends_with_newline).take(k)) == !(k
            == count && !ends_with_newline),
    decreases k,
{
    let all = equal_lines(count, ends_with_newline);
    if k > 0 {
        lemma_equal_lines_prefix(count, ends_with_newline, k - 1);
        assert(all.take(k).drop_last() =~= all.take(k - 1));
        assert(all.take(k).last() == all[k - 1]);
        assert(source_map(all.take(k)) =~= Seq::new(k as nat, |i: int| Some(i as usize)));
        assert(target_map(all.take(k)) =~= Seq::new(k as nat, |i: int| Some(i as usize)));
    } else {
        assert(source_map(all.take(k)) =~= Seq::new(k as nat, |i: int| Some(i as usize)));
        assert(target_map(all.take(k)) =~= Seq::new(k as nat, |i: int| Some(i as usize)));
    }
}

/// Where the changes between a file and itself say that it is equal to
/// itself line by line, the matching maps each line to itself, in both
/// directions. If the file ends with a line ending, this holds of the empty
/// line after it as well. No other line is spoken of.
pub proof fn lemma_equal_lines_match_themselves(
    file: FileArtifactView,
    count: nat,
    ends_with_newline: bool,
)
    requires
        count + 2 <= usize::MAX,
    ensures
        ({
            let m = matching_of(file, file, equal_lines(count, ends_with_newline));
            let lines = if count > 0 && ends_with_newline {
                count + 1
            } else {
                count
            };
            &&& m.source_to_target.len() == lines
            &&& m.target_to_source.len() == lines
            &&& forall|i: int|
                1 <= i <= lines ==> #[trigger] lookup(m.source_to_target, i) == Some(
                    Some(i as usize),
                )
            &&& forall|i: int|
                1 <= i <= lines ==> #[trigger] lookup(m.target_to_source, i) == Some(
                    Some(i as usize),
                )
        }),
{
    let all = equal_lines(count, ends_with_newline);
    lemma_equal_lines_prefix(count, ends_with_newline, count as int);
    assert(all.take(count as int) =~= all);
    let m = matching_of(file, file, all);
    let (s, t) = matched_indices(all);
    let lines = if count > 0 && ends_with_newline {
        count + 1
    } else {
        count
    };
    assert forall|i: int| 1 <= i <= lines implies #[trigger] lookup(m.source_to_target, i) == Some(
        Some(i as usize),
    ) by {
        assert(m.source_to_target[i - 1] == line_number_of(s[i - 1]));
    }
    assert forall|i: int| 1 <= i <= lines implies #[trigger] lookup(m.target_to_source, i) == Some(
        Some(i as usize),
    ) by {
        assert(m.target_to_source[i - 1] == line_number_of(t[i - 1]));
    }
}

} // verus!
