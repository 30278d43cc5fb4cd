use crate::diffs::{
    changed, changed_lines, without_marker, FileDiff, FileDiffView, HunkLineView, LineLocation,
    LineType,
};
use crate::error::Error;
use crate::io::{FileArtifact, FileArtifactView};
use vstd::prelude::*;

/// Re-anchoring the changes of a patch to the lines of a target file.
pub mod alignment;
/// Applying an aligned patch to its target file.
pub mod application;
/// Filters that reject changes whose anchor is too uncertain.
pub mod filtering;
/// Line-by-line matchings between two files.
pub mod matching;

verus! {

/// The two kinds of change to a line. A removal is ordered before an
/// addition, so that at one anchor the old content leaves before the new
/// content arrives.
#[derive(Debug, PartialEq, Eq, Clone, Copy, PartialOrd, Ord, Structural)]
pub enum LineChangeType {
    Remove,
    Add,
}

/// The three kinds of change to a file.
#[derive(Debug, PartialEq, Eq, Clone, Copy, Structural)]
pub enum FileChangeType {
    Create,
    Remove,
    Modify,
}

/// The mathematical content of a [`Change`].
pub struct ChangeView {
    pub line_number: usize,
    pub change_type: LineChangeType,
    pub change_id: usize,
    pub line: Seq<char>,
}

/// A change to a single line: adding it or removing it.
///
/// A change has the content of the line, a change type, the number of the
/// line it is anchored to, and an id. The id is the position of the change
/// among all changes of the diff it was taken from, counted from zero.
///
/// Changes are ordered by line number, then by change type with removals
/// first, then by id; the content decides last.
#[derive(Debug, PartialEq, Eq, PartialOrd, Ord)]
pub struct Change {
    line_number: usize,
    change_type: LineChangeType,
    change_id: usize,
    line: String,
}

impl View for Change {
    type V = ChangeView;

    closed spec fn view(&self) -> ChangeView {
        ChangeView {
            line_number: self.line_number,
            change_type: self.change_type,
            change_id: self.change_id,
            line: self.line@,
        }
    }
}

impl Clone for Change {
    fn clone(&self) -> (res: Change)
        ensures
            res@ == self@,
    {
        Change {
            line_number: self.line_number,
            change_type: self.change_type,
            change_id: self.change_id,
            line: self.line.clone(),
        }
    }
}

/// The views of a sequence of changes.
pub open spec fn changes_view(changes: Seq<Change>) -> Seq<ChangeView> {
    changes.map_values(|c: Change| c@)
}

/// The printed form of a change: a `+` or a `-`, the content of the line, and
/// a line feed.
pub open spec fn change_text(c: ChangeView) -> Seq<char> {
    match c.change_type {
        LineChangeType::Add => seq!['+'] + c.line + seq!['\n'],
        LineChangeType::Remove => seq!['-'] + c.line + seq!['\n'],
    }
}

impl Change {
    /// Creates a change of the given type with the given content, anchored at
    /// `line_number`.
    pub fn new(
        line: String,
        change_type: LineChangeType,
        line_number: usize,
        change_id: usize,
    ) -> (change: Change)
        ensures
            change@ == (ChangeView { line_number, change_type, change_id, line: line@ }),
    {
        Change { line_number, change_type, change_id, line }
    }

    /// Returns a reference to the content of this change.
    pub fn line(&self) -> (line: &str)
        ensures
            line@ == self@.line,
    {
        self.line.as_str()
    }

    /// Returns the change type.
    pub fn change_type(&self) -> (t: LineChangeType)
        ensures
            t == self@.change_type,
    {
        self.change_type
    }

    /// Returns the number of the line to which this change is anchored.
    pub fn line_number(&self) -> (n: usize)
        ensures
            n == self@.line_number,
    {
        self.line_number
    }

    /// Returns the id of the change with respect to the diff it was taken from.
    pub fn change_id(&self) -> (id: usize)
        ensures
            id == self@.change_id,
    {
        self.change_id
    }

    /// Returns the printed form of this change.
    pub fn to_string(&self) -> (s: String)
        ensures
            s@ == change_text(self@),
    {
        let mut s = String::new();
        match self.change_type {
            LineChangeType::Add => s.push('+'),
            LineChangeType::Remove => s.push('-'),
        }
        let ghost sign = s@;
        s.append(self.line.as_str());
        s.push('\n');
        assert(s@ =~= change_text(self@));
        s
    }
}

/// The name under which a kind of file change is printed.
pub open spec fn file_change_name(t: FileChangeType) -> Seq<char> {
    match t {
        FileChangeType::Create => "Create"@,
        FileChangeType::Remove => "Remove"@,
        FileChangeType::Modify => "Modify"@,
    }
}

impl FileChangeType {
    /// Returns the name of this kind of file change.
    pub fn to_string(&self) -> (s: String)
        ensures
            s@ == file_change_name(*self),
    {
        match self {
            FileChangeType::Create => String::from_str("Create"),
            FileChangeType::Remove => String::from_str("Remove"),
            FileChangeType::Modify => String::from_str("Modify"),
        }
    }
}

/// The mathematical content of a [`FilePatch`].
pub struct FilePatchView {
    pub changes: Seq<ChangeView>,
    pub change_type: FileChangeType,
}

/// The changes to one file, taken from a file diff and anchored in the line
/// numbers of the diff's source file, together with the kind of change that
/// the file as a whole undergoes.
#[derive(Debug, PartialEq, Eq)]
pub struct FilePatch {
    changes: Vec<Change>,
    change_type: FileChangeType,
}

impl View for FilePatch {
    type V = FilePatchView;

    closed spec fn view(&self) -> FilePatchView {
        FilePatchView { changes: changes_view(self.changes@), change_type: self.change_type }
    }
}

/// Returns a copy of the given changes.
pub fn clone_changes(changes: &Vec<Change>) -> (res: Vec<Change>)
    ensures
        changes_view(res@) == changes_view(changes@),
{
    let mut res: Vec<Change> = Vec::new();
    let mut i: usize = 0;
    while i < changes.len()
        invariant
            i <= changes@.len(),
            changes_view(res@) == changes_view(changes@).take(i as int),
        decreases changes@.len() - i,
    {
        let ghost before = changes_view(res@);
        let c = changes[i].clone();
        res.push(c);
        assert(changes_view(res@) =~= before.push(changes@[i as int]@));
        i += 1;
        assert(changes_view(res@) =~= changes_view(changes@).take(i as int));
    }
    assert(changes_view(changes@).take(changes@.len() as int) =~= changes_view(changes@));
    res
}

impl Clone for FilePatch {
    fn clone(&self) -> (res: FilePatch)
        ensures
            res@ == self@,
    {
        FilePatch { changes: clone_changes(&self.changes), change_type: self.change_type }
    }
}

impl FilePatch {
    /// Creates a patch of the given kind from the given changes.
    pub fn new(changes: Vec<Change>, change_type: FileChangeType) -> (patch: FilePatch)
        ensures
            patch@ == (FilePatchView { changes: changes_view(changes@), change_type }),
    {
        FilePatch { changes, change_type }
    }

    /// Returns a reference to the changes in this patch.
    pub fn changes(&self) -> (changes: &[Change])
        ensures
            changes_view(changes@) == self@.changes,
    {
        self.changes.as_slice()
    }

    /// Returns the kind of change that the file undergoes.
    pub fn change_type(&self) -> (t: FileChangeType)
        ensures
            t == self@.change_type,
    {
        self.change_type
    }
}

/// The mathematical content of an [`AlignedPatch`].
pub struct AlignedPatchView {
    pub changes: Seq<ChangeView>,
    pub rejected_changes: Seq<ChangeView>,
    pub target: FileArtifactView,
    pub change_type: FileChangeType,
}

/// A patch whose changes are anchored in the line numbers of a target file,
/// together with the changes that found no anchor and the target file itself.
/// Applying the patch consumes it, so that one patch is not applied twice to
/// the same file.
#[derive(Debug, Clone, PartialEq, Eq)]
pub struct AlignedPatch {
    changes: Vec<Change>,
    rejected_changes: Vec<Change>,
    target: FileArtifact,
    change_type: FileChangeType,
}

impl View for AlignedPatch {
    type V = AlignedPatchView;

    closed spec fn view(&self) -> AlignedPatchView {
        AlignedPatchView {
            changes: changes_view(self.changes@),
            rejected_changes: changes_view(self.rejected_changes@),
            target: self.target@,
            change_type: self.change_type,
        }
    }
}

impl AlignedPatch {
    /// Creates an aligned patch from its parts.
    pub fn new(
        changes: Vec<Change>,
        rejected_changes: Vec<Change>,
        target: FileArtifact,
        change_type: FileChangeType,
    ) -> (patch: AlignedPatch)
        ensures
            patch@ == (AlignedPatchView {
                changes: changes_view(changes@),
                rejected_changes: changes_view(rejected_changes@),
                target: target@,
                change_type,
            }),
    {
        AlignedPatch { changes, rejected_changes, target, change_type }
    }

    /// Returns a reference to the aligned changes of this patch.
    pub fn changes(&self) -> (changes: &[Change])
        ensures
            changes_view(changes@) == self@.changes,
    {
        self.changes.as_slice()
    }

    /// Returns a reference to the changes that found no anchor.
    pub fn rejected_changes(&self) -> (changes: &[Change])
        ensures
            changes_view(changes@) == self@.rejected_changes,
    {
        self.rejected_changes.as_slice()
    }

    /// Returns a reference to the target file artifact of this patch.
    pub fn target(&self) -> (target: &FileArtifact)
        ensures
            target@ == self@.target,
    {
        &self.target
    }

    /// Returns the kind of change that the target file undergoes.
    pub fn change_type(&self) -> (t: FileChangeType)
        ensures
            t == self@.change_type,
    {
        self.change_type
    }
}

/// The mathematical content of a [`PatchOutcome`].
pub struct PatchOutcomeView {
    pub patched_file: FileArtifactView,
    pub rejected_changes: Seq<ChangeView>,
    pub change_type: FileChangeType,
}

/// What the application of a patch has led to: the patched file, the changes
/// that were rejected, and the kind of change that the file underwent.
#[derive(Debug, PartialEq, Eq)]
pub struct PatchOutcome {
    patched_file: FileArtifact,
    rejected_changes: Vec<Change>,
    change_type: FileChangeType,
}

impl View for PatchOutcome {
    type V = PatchOutcomeView;

    closed spec fn view(&self) -> PatchOutcomeView {
        PatchOutcomeView {
            patched_file: self.patched_file@,
            rejected_changes: changes_view(self.rejected_changes@),
            change_type: self.change_type,
        }
    }
}

impl PatchOutcome {
    /// Returns a reference to the patched file artifact.
    pub fn patched_file(&self) -> (file: &FileArtifact)
        ensures
            file@ == self@.patched_file,
    {
        &self.patched_file
    }

    /// Returns a reference to the rejected changes.
    pub fn rejected_changes(&self) -> (changes: &[Change])
        ensures
            changes_view(changes@) == self@.rejected_changes,
    {
        self.rejected_changes.as_slice()
    }

    /// Returns the change type of the applied patch.
    pub fn change_type(&self) -> (t: FileChangeType)
        ensures
            t == self@.change_type,
    {
        self.change_type
    }
}


/// The keys by which changes are put in order.
#[derive(Debug, PartialEq, Eq, Clone, Copy, Structural)]
pub enum SortKey {
    /// The line number alone.
    Line,
    /// The line number, then the change type with removals first, then the
    /// change id.
    LineTypeId,
}

/// Tells whether `a` comes strictly before `b` under the given key.
pub open spec fn precedes(a: ChangeView, b: ChangeView, key: SortKey) -> bool {
    match key {
        SortKey::Line => a.line_number < b.line_number,
        SortKey::LineTypeId => {
            ||| a.line_number < b.line_number
            ||| (a.line_number == b.line_number && a.change_type == LineChangeType::Remove
                && b.change_type == LineChangeType::Add)
            ||| (a.line_number == b.line_number && a.change_type == b.change_type && a.change_id
                < b.change_id)
        },
    }
}

/// Tells whether no change of the sequence comes strictly before an earlier one.
pub open spec fn is_sorted(changes: Seq<ChangeView>, key: SortKey) -> bool {
    forall|i: int, j: int| 0 <= i < j < changes.len() ==> !precedes(changes[j], changes[i], key)
}

/// The place at which `c` enters a sequence: behind the last change that does
/// not come strictly after it.
pub open spec fn insert_point(changes: Seq<ChangeView>, c: ChangeView, key: SortKey) -> nat
    decreases changes.len(),
{
    if changes.len() == 0 || !precedes(c, changes.last(), key) {
        changes.len()
    } else {
        insert_point(changes.drop_last(), c, key)
    }
}

/// The changes put in order under the given key. Changes that the key does not
/// tell apart keep the order in which they came.
pub open spec fn sorted_changes(changes: Seq<ChangeView>, key: SortKey) -> Seq<ChangeView>
    decreases changes.len(),
{
    if changes.len() == 0 {
        Seq::empty()
    } else {
        let before = sorted_changes(changes.drop_last(), key);
        before.insert(insert_point(before, changes.last(), key) as int, changes.last())
    }
}

/// A change enters a sequence behind the changes that do not come strictly
/// after it and ahead of those that do.
pub proof fn lemma_insert_point(changes: Seq<ChangeView>, c: ChangeView, key: SortKey)
    ensures
        insert_point(changes, c, key) <= changes.len(),
        forall|i: int|
            insert_point(changes, c, key) <= i < changes.len() ==> precedes(
                c,
                #[trigger] changes[i],
                key,
            ),
        insert_point(changes, c, key) > 0 ==> !precedes(
            c,
            changes[insert_point(changes, c, key) - 1],
            key,
        ),
    decreases changes.len(),
{
    if changes.len() == 0 || !precedes(c, changes.last(), key) {
    } else {
        lemma_insert_point(changes.drop_last(), c, key);
        assert forall|i: int| insert_point(changes, c, key) <= i < changes.len() implies precedes(
            c,
            #[trigger] changes[i],
            key,
        ) by {
            if i < changes.len() - 1 {
                assert(changes[i] == changes.drop_last()[i]);
            }
        }
    }
}

/// Putting changes in order yields a sequence that is in order and holds the
/// same changes, each as often as before.
pub proof fn lemma_sorted_changes(changes: Seq<ChangeView>, key: SortKey)
    ensures
        is_sorted(sorted_changes(changes, key), key),
        sorted_changes(changes, key).len() == changes.len(),
        sorted_changes(changes, key).to_multiset() == changes.to_multiset(),
    decreases changes.len(),
{
    broadcast use vstd::seq_lib::group_to_multiset_ensures;

    if changes.len() == 0 {
        assert(changes =~= Seq::empty());
    } else {
        let c = changes.last();
        let before = sorted_changes(changes.drop_last(), key);
        let p = insert_point(before, c, key) as int;
        let after = before.insert(p, c);
        lemma_sorted_changes(changes.drop_last(), key);
        lemma_insert_point(before, c, key);
        assert forall|i: int, j: int| 0 <= i < j < after.len() implies !precedes(
            after[j],
            after[i],
            key,
        ) by {
            if j < p {
                assert(after[i] == before[i] && after[j] == before[j]);
            } else if j == p {
                assert(after[i] == before[i]);
                if p > 0 {
                    assert(!precedes(c, before[p - 1], key));
                    if i < p - 1 {
                        assert(!precedes(before[p - 1], before[i], key));
                    }
                }
            } else if i < p {
                assert(after[i] == before[i] && after[j] == before[j - 1]);
            } else if i == p {
                assert(after[j] == before[j - 1]);
                assert(precedes(c, before[j - 1], key));
            } else {
                assert(after[i] == before[i - 1] && after[j] == before[j - 1]);
            }
        }
        vstd::seq_lib::to_multiset_insert(before, p, c);
        assert(changes =~= changes.drop_last().push(c));
    }
}

/// Returns the place at which `c` enters `changes`.
fn find_insert_point(changes: &Vec<Change>, c: &Change, key: SortKey) -> (p: usize)
    ensures
        p == insert_point(changes_view(changes@), c@, key),
{
    let mut p: usize = changes.len();
    let ghost all = changes_view(changes@);
    assert(all.take(p as int) =~= all);
    while p > 0 && change_precedes(c, &changes[p - 1], key)
        invariant
            p <= changes@.len(),
            all == changes_view(changes@),
            insert_point(all.take(p as int), c@, key) == insert_point(all, c@, key),
        decreases p,
    {
        assert(all.take(p as int).drop_last() =~= all.take(p - 1));
        p -= 1;
    }
    p
}

/// Tells whether `a` comes strictly before `b` under the given key.
pub fn change_precedes(a: &Change, b: &Change, key: SortKey) -> (r: bool)
    ensures
        r == precedes(a@, b@, key),
{
    match key {
        SortKey::Line => a.line_number < b.line_number,
        SortKey::LineTypeId => {
            a.line_number < b.line_number || (a.line_number == b.line_number && match (
                a.change_type,
                b.change_type,
            ) {
                (LineChangeType::Remove, LineChangeType::Add) => true,
                (LineChangeType::Add, LineChangeType::Remove) => false,
                _ => a.change_id < b.change_id,
            })
        },
    }
}

/// Puts the given changes in order under the given key.
pub fn sort_changes(changes: Vec<Change>, key: SortKey) -> (sorted: Vec<Change>)
    ensures
        changes_view(sorted@) == sorted_changes(changes_view(changes@), key),
{
    let ghost all = changes_view(changes@);
    let mut sorted: Vec<Change> = Vec::new();
    for c in it: changes
        invariant
            all == changes_view(it.seq()),
            changes_view(sorted@) == sorted_changes(all.take(it.index@), key),
    {
        let ghost before = changes_view(sorted@);
        let ghost k = it.index@;
        assert(all.take(k + 1).drop_last() =~= all.take(k));
        assert(all.take(k + 1).last() == c@);
        let p = find_insert_point(&sorted, &c, key);
        proof {
            lemma_insert_point(before, c@, key);
        }
        sorted.insert(p, c);
        assert(changes_view(sorted@) =~= before.insert(p as int, c@));
    }
    assert(all.take(all.len() as int) =~= all);
    sorted
}


/// The kind of change that a file diff makes to its file. A first hunk that
/// starts at line zero of the source file creates the file, and one that
/// starts at line zero of the target file removes it.
pub open spec fn file_change_type_of(diff: FileDiffView) -> FileChangeType {
    if diff.hunks[0].source_location.hunk_start == 0 {
        FileChangeType::Create
    } else if diff.hunks[0].target_location.hunk_start == 0 {
        FileChangeType::Remove
    } else {
        FileChangeType::Modify
    }
}

/// The line number that a line location holds, or zero where it holds none.
pub open spec fn location_number(location: LineLocation) -> usize {
    match location {
        LineLocation::RealLocation(n) => n,
        LineLocation::ChangeLocation(n) => n,
        LineLocation::NoLocation => 0,
    }
}

/// The change that a changed hunk line stands for. The change has the text of
/// the line without the character that marks its type, and it is anchored at
/// the location of the line in the source file.
pub open spec fn change_of(line: HunkLineView, change_id: usize) -> ChangeView {
    ChangeView {
        line_number: location_number(line.source_line),
        change_type: if line.line_type == LineType::Add {
            LineChangeType::Add
        } else {
            LineChangeType::Remove
        },
        change_id,
        line: without_marker(line.line),
    }
}

/// The changes that the given changed hunk lines stand for. Each change has
/// its position among them as id.
pub open spec fn changes_of(lines: Seq<HunkLineView>) -> Seq<ChangeView> {
    Seq::new(lines.len(), |i: int| change_of(lines[i], i as usize))
}

/// The patch that a file diff stands for: a change for each added and each
/// removed line, in the order of the diff.
pub open spec fn patch_of(diff: FileDiffView) -> FilePatchView {
    FilePatchView {
        changes: changes_of(changed_lines(diff.hunks)),
        change_type: file_change_type_of(diff),
    }
}

impl FilePatch {
    /// Extracts the patch of a file from its diff.
    pub fn from(file_diff: FileDiff) -> (patch: FilePatch)
        ensures
            patch@ == patch_of(file_diff@),
    {
        let hunks = file_diff.hunks();
        let first_hunk = &hunks[0];
        assert(first_hunk@ == file_diff@.hunks[0]);
        // A hunk start of zero tells that the file does not exist on that side.
        let change_type = if first_hunk.source_location().hunk_start() == 0 {
            FileChangeType::Create
        } else if first_hunk.target_location().hunk_start() == 0 {
            FileChangeType::Remove
        } else {
            FileChangeType::Modify
        };
        let ghost all = file_diff@.hunks;
        let mut changes: Vec<Change> = Vec::new();
        let mut i: usize = 0;
        assert(all.take(0) =~= Seq::<crate::diffs::HunkView>::empty());
        assert(changes_view(changes@) =~= changes_of(changed_lines(all.take(0))));
        while i < hunks.len()
            invariant
                i <= hunks@.len(),
                all == crate::diffs::hunks_view(hunks@),
                changes_view(changes@) == changes_of(changed_lines(all.take(i as int))),
            decreases hunks@.len() - i,
        {
            let lines = hunks[i].lines();
            let ghost done = changed_lines(all.take(i as int));
            let ghost hunk_lines = all[i as int].lines;
            assert(all.take(i + 1).drop_last() =~= all.take(i as int));
            assert(all.take(i + 1).last() == all[i as int]);
            let mut j: usize = 0;
            assert(hunk_lines.take(0) =~= Seq::<HunkLineView>::empty());
            assert(done + changed(hunk_lines.take(0)) =~= done);
            while j < lines.len()
                invariant
                    j <= lines@.len(),
                    hunk_lines == crate::diffs::hunk_lines_view(lines@),
                    changes_view(changes@) == changes_of(done + changed(hunk_lines.take(j as int))),
                decreases lines@.len() - j,
            {
                let line = &lines[j];
                let ghost before = done + changed(hunk_lines.take(j as int));
                let ghost so_far = changes_view(changes@);
                assert(hunk_lines.take(j + 1).drop_last() =~= hunk_lines.take(j as int));
                assert(hunk_lines.take(j + 1).last() == line@);
                let kind = match line.line_type() {
                    LineType::Add => Some(LineChangeType::Add),
                    LineType::Remove => Some(LineChangeType::Remove),
                    _ => None,
                };
                if let Some(kind) = kind {
                    assert(so_far.len() == changes@.len());
                    assert(changes_of(before).len() == before.len());
                    let line_number = match line.source_line() {
                        LineLocation::RealLocation(n) => n,
                        LineLocation::ChangeLocation(n) => n,
                        LineLocation::NoLocation => 0,
                    };
                    let change = Change {
                        line_number,
                        change_type: kind,
                        change_id: changes.len(),
                        line: line.clone().into_original_text(),
                    };
                    assert(change@ == change_of(line@, before.len() as usize));
                    changes.push(change);
                    assert(done + changed(hunk_lines.take(j + 1)) =~= before.push(line@));
                    assert(changes_view(changes@) =~= so_far.push(change@));
                    assert(changes_of(before.push(line@)) =~= changes_of(before).push(
                        change_of(line@, before.len() as usize),
                    ));
                }
                j += 1;
            }
            assert(hunk_lines.take(j as int) =~= hunk_lines);
            i += 1;
        }
        assert(all.take(i as int) =~= all);
        FilePatch { changes, change_type }
    }
}

/// The mathematical content of a [`FilteredPatch`].
pub struct FilteredPatchView {
    pub changes: Seq<ChangeView>,
    pub rejected_changes: Seq<ChangeView>,
    pub change_type: FileChangeType,
}

/// A patch that has passed a filter: the changes that the filter has kept,
/// the changes that it has rejected, and the kind of change that the file
/// undergoes.
#[derive(Debug, Clone, PartialEq, Eq)]
pub struct FilteredPatch {
    changes: Vec<Change>,
    rejected_changes: Vec<Change>,
    change_type: FileChangeType,
}

impl View for FilteredPatch {
    type V = FilteredPatchView;

    closed spec fn view(&self) -> FilteredPatchView {
        FilteredPatchView {
            changes: changes_view(self.changes@),
            rejected_changes: changes_view(self.rejected_changes@),
            change_type: self.change_type,
        }
    }
}

impl FilteredPatch {
    /// Creates a filtered patch from its parts.
    pub fn new(changes: Vec<Change>, rejected_changes: Vec<Change>, change_type: FileChangeType) -> (patch:
        FilteredPatch)
        ensures
            patch@ == (FilteredPatchView {
                changes: changes_view(changes@),
                rejected_changes: changes_view(rejected_changes@),
                change_type,
            }),
    {
        FilteredPatch { changes, rejected_changes, change_type }
    }

    /// Returns a reference to the changes that the filter has kept.
    pub fn changes(&self) -> (changes: &[Change])
        ensures
            changes_view(changes@) == self@.changes,
    {
        self.changes.as_slice()
    }

    /// Returns a reference to the changes that the filter has rejected.
    pub fn rejected_changes(&self) -> (changes: &[Change])
        ensures
            changes_view(changes@) == self@.rejected_changes,
    {
        self.rejected_changes.as_slice()
    }

    /// Returns the kind of change that the file undergoes.
    pub fn change_type(&self) -> (t: FileChangeType)
        ensures
            t == self@.change_type,
    {
        self.change_type
    }
}

/// The printed form of an aligned patch: the kind of change that the target
/// file undergoes, a space, and the path of the target file.
pub open spec fn aligned_patch_text(patch: AlignedPatchView) -> Seq<char> {
    file_change_name(patch.change_type) + seq![' '] + crate::io::path_text(patch.target.path)
}

impl AlignedPatch {
    /// Returns the printed form of this patch, such as `Modify src/main.c`.
    pub fn to_string(&self) -> (s: String)
        ensures
            s@ == aligned_patch_text(self@),
    {
        let mut s = self.change_type.to_string();
        s.push(' ');
        let path = crate::io::path_to_text(self.target.path());
        s.append(path.as_str());
        s
    }

    /// Consumes and applies this patch to its target file artifact, as
    /// [`application::apply_patch`] does.
    pub fn apply(self, target_exists: bool) -> (result: Result<PatchOutcome, Error>)
        ensures
            match result {
                Ok(outcome) => application::applied(self@, target_exists) == Some(outcome@),
                Err(e) => application::applied(self@, target_exists) is None && e@.kind
                    == crate::error::ErrorKind::PatchError && e@.message
                    == "there were unprocessed changes in the patch"@,
            },
    {
        application::apply_patch(self, target_exists)
    }

    /// Rejects all changes in this patch, as [`application::reject_all`] does.
    pub fn reject_all(&mut self)
        ensures
            final(self)@ == (AlignedPatchView {
                changes: Seq::empty(),
                rejected_changes: application::all_rejected(old(self)@),
                ..old(self)@
            }),
    {
        application::reject_all(self)
    }
}


/// The lines that report the given rejects: for each reject its id, a colon
/// and a space, and its printed form.
pub open spec fn reject_lines(rejects: Seq<ChangeView>) -> Seq<char>
    decreases rejects.len(),
{
    if rejects.len() == 0 {
        Seq::empty()
    } else {
        reject_lines(rejects.drop_last()) + crate::text::decimal(rejects.last().change_id as nat)
            + seq![':', ' '] + change_text(rejects.last())
    }
}

/// The report of the rejects of a file diff: the header of the file diff and
/// a line feed, then a line for each reject.
pub open spec fn rejects_report(diff_header: Seq<char>, rejects: Seq<ChangeView>) -> Seq<char> {
    diff_header + seq!['\n'] + reject_lines(rejects)
}

/// Returns the report of the given rejects of a file diff with the given
/// header, as it is printed or written to a rejects file.
pub fn format_rejects(diff_header: &str, rejects: &[Change]) -> (report: String)
    ensures
        report@ == rejects_report(diff_header@, changes_view(rejects@)),
{
    let ghost all = changes_view(rejects@);
    let mut out: Vec<char> = Vec::new();
    crate::text::push_str(&mut out, diff_header);
    out.push('\n');
    let mut i: usize = 0;
    assert(all.take(0) =~= Seq::<ChangeView>::empty());
    assert(out@ =~= diff_header@ + seq!['\n'] + reject_lines(all.take(0)));
    while i < rejects.len()
        invariant
            i <= rejects@.len(),
            all == changes_view(rejects@),
            out@ == diff_header@ + seq!['\n'] + reject_lines(all.take(i as int)),
        decreases rejects@.len() - i,
    {
        let ghost before = out@;
        let reject = &rejects[i];
        assert(all.take(i + 1).drop_last() =~= all.take(i as int));
        assert(all.take(i + 1).last() == reject@);
        crate::text::push_number(&mut out, reject.change_id);
        out.push(':');
        out.push(' ');
        let text = reject.to_string();
        crate::text::push_str(&mut out, text.as_str());
        assert(out@ =~= before + crate::text::decimal(reject@.change_id as nat) + seq![':', ' ']
            + change_text(reject@));
        i += 1;
        assert(out@ =~= diff_header@ + seq!['\n'] + reject_lines(all.take(i as int)));
    }
    assert(all.take(i as int) =~= all);
    crate::text::string_from_chars(&out)
}

} // verus!
