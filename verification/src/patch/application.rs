use crate::error::{Error, ErrorKind};
use crate::io::{FileArtifact, FileArtifactView};
use crate::patch::{
    changes_view, is_sorted, lemma_sorted_changes, precedes, sort_changes, sorted_changes,
    AlignedPatch, AlignedPatchView, Change, ChangeView, FileChangeType, LineChangeType,
    PatchOutcome, PatchOutcomeView, SortKey,
};
use crate::text::strings_view;
use vstd::prelude::*;

verus! {

/// Tells whether a pending change is due when the walk over the target file
/// stands at line `n`: an addition is due at and after its anchor, a removal
/// at its anchor only.
pub open spec fn is_due(c: ChangeView, n: int) -> bool {
    match c.change_type {
        LineChangeType::Add => c.line_number <= n,
        LineChangeType::Remove => c.line_number == n,
    }
}

/// The walk over the lines of a file whose first line has number `n`, with
/// the given changes pending. While the first pending change is due, an
/// addition puts its content out and a removal drops the line at hand; when
/// none is due the line at hand is put out. The result is the lines put out
/// and the changes still pending when the file is exhausted.
pub open spec fn walk(lines: Seq<Seq<char>>, changes: Seq<ChangeView>, n: int) -> (
    Seq<Seq<char>>,
    Seq<ChangeView>,
)
    decreases lines.len(), changes.len(),
{
    if lines.len() == 0 {
        (Seq::empty(), changes)
    } else if changes.len() > 0 && is_due(changes[0], n) {
        match changes[0].change_type {
            LineChangeType::Add => {
                let (out, rest) = walk(lines, changes.skip(1), n);
                (seq![changes[0].line] + out, rest)
            },
            LineChangeType::Remove => walk(lines.skip(1), changes.skip(1), n + 1),
        }
    } else {
        let (out, rest) = walk(lines.skip(1), changes, n + 1);
        (seq![lines[0]] + out, rest)
    }
}

/// Tells whether a removal is among the given changes.
pub open spec fn has_removal(changes: Seq<ChangeView>) -> bool {
    exists|i: int|
        0 <= i < changes.len() && (#[trigger] changes[i]).change_type == LineChangeType::Remove
}

/// The contents of the given changes, in order.
pub open spec fn contents(changes: Seq<ChangeView>) -> Seq<Seq<char>> {
    changes.map_values(|c: ChangeView| c.line)
}

/// The lines of a file after the given changes were applied to it: the lines
/// that the walk puts out, followed by the contents of the changes that are
/// pending at the end of the file. There is no result when a removal is
/// among those, since the line that it removes does not exist.
pub open spec fn modified_lines(lines: Seq<Seq<char>>, changes: Seq<ChangeView>) -> Option<
    Seq<Seq<char>>,
> {
    let (out, rest) = walk(lines, changes, 1);
    if has_removal(rest) {
        None
    } else {
        Some(out + contents(rest))
    }
}

/// Tells whether a patch of the given kind must be rejected as a whole: a
/// file that is to be created must not exist, a file that is to be modified
/// or removed must.
pub open spec fn must_reject(change_type: FileChangeType, target_exists: bool) -> bool {
    if change_type == FileChangeType::Create {
        target_exists
    } else {
        !target_exists
    }
}

/// All changes of a patch as rejects: its changes from the last to the first,
/// then its rejects from the last to the first, put in order by line number.
pub open spec fn all_rejected(patch: AlignedPatchView) -> Seq<ChangeView> {
    sorted_changes(patch.changes.reverse() + patch.rejected_changes.reverse(), SortKey::Line)
}

/// The outcome of applying a patch, given whether its target file exists.
/// There is no outcome when a removal is left over at the end of a file that
/// is modified.
pub open spec fn applied(patch: AlignedPatchView, target_exists: bool) -> Option<
    PatchOutcomeView,
> {
    if must_reject(patch.change_type, target_exists) {
        Some(
            PatchOutcomeView {
                patched_file: patch.target,
                rejected_changes: all_rejected(patch),
                change_type: patch.change_type,
            },
        )
    } else {
        let lines = match patch.change_type {
            FileChangeType::Create => Some(contents(patch.changes)),
            FileChangeType::Remove => Some(Seq::empty()),
            FileChangeType::Modify => modified_lines(patch.target.lines, patch.changes),
        };
        match lines {
            Some(lines) => Some(
                PatchOutcomeView {
                    patched_file: FileArtifactView { path: patch.target.path, lines },
                    rejected_changes: patch.rejected_changes,
                    change_type: patch.change_type,
                },
            ),
            None => None,
        }
    }
}

/// What is to be done to the file on disk once a patch has been applied in
/// memory.
#[derive(Debug, PartialEq, Eq, Clone, Copy, Structural)]
pub enum FileAction {
    /// The file on disk stays as it is.
    Keep,
    /// The patched content is written to the path of the target, after the
    /// directories above it were created where they are missing.
    Write,
    /// The file is deleted.
    Delete,
}

/// Tells what is to be done to the target file on disk. Nothing is done in a
/// dry run, nor when the patch is rejected as a whole. Otherwise a created or
/// modified file is written and a removed file is deleted.
pub fn file_action(change_type: FileChangeType, target_exists: bool, dryrun: bool) -> (action:
    FileAction)
    ensures
        action == if dryrun || must_reject(change_type, target_exists) {
            FileAction::Keep
        } else if change_type == FileChangeType::Remove {
            FileAction::Delete
        } else {
            FileAction::Write
        },
{
    let reject = match change_type {
        FileChangeType::Create => target_exists,
        _ => !target_exists,
    };
    if dryrun || reject {
        FileAction::Keep
    } else {
        match change_type {
            FileChangeType::Remove => FileAction::Delete,
            _ => FileAction::Write,
        }
    }
}

/// Consumes and applies the patch to its target file artifact.
///
/// `target_exists` tells whether the target file is present on disk. A patch
/// that creates a file is rejected when the file exists; a patch that
/// modifies or removes a file is rejected when it does not. A rejected patch
/// leaves the target as it is and turns all its changes into rejects.
///
/// Otherwise, a creation yields a file that holds the contents of all changes
/// in order, a removal yields an empty file, and a modification walks the
/// lines of the target and applies the changes at their anchors.
///
/// ## Error
/// Returns a `PatchError` if a modification leaves a removal pending at the
/// end of the file.
pub fn apply_patch(patch: AlignedPatch, target_exists: bool) -> (result: Result<
    PatchOutcome,
    Error,
>)
    ensures
        match result {
            Ok(outcome) => applied(patch@, target_exists) == Some(outcome@),
            Err(e) => applied(patch@, target_exists) is None && e@.kind == ErrorKind::PatchError
                && e@.message == "there were unprocessed changes in the patch"@,
        },
{
    let mut patch = patch;
    let reject_patch = match patch.change_type {
        FileChangeType::Create => target_exists,
        _ => !target_exists,
    };
    if reject_patch {
        reject_all(&mut patch);
        return Ok(
            PatchOutcome {
                patched_file: patch.target,
                rejected_changes: patch.rejected_changes,
                change_type: patch.change_type,
            },
        );
    }
    match patch.change_type {
        FileChangeType::Create => Ok(apply_file_creation(patch)),
        FileChangeType::Remove => Ok(apply_file_removal(patch)),
        FileChangeType::Modify => apply_file_modification(patch),
    }
}

/// Rejects all changes in the patch: afterwards it has no changes, and its
/// rejects are all its former changes and rejects in order of line number.
pub fn reject_all(patch: &mut AlignedPatch)
    ensures
        final(patch)@ == (AlignedPatchView {
            changes: Seq::empty(),
            rejected_changes: all_rejected(old(patch)@),
            ..old(patch)@
        }),
{
    let ghost changes = old(patch)@.changes;
    let ghost rejected = old(patch)@.rejected_changes;
    let mut rejects: Vec<Change> = Vec::new();
    while patch.changes.len() > 0
        invariant
            patch.changes@.len() <= changes.len(),
            changes_view(patch.changes@) == changes.take(patch.changes@.len() as int),
            changes_view(rejects@) == changes.skip(patch.changes@.len() as int).reverse(),
            patch.rejected_changes == old(patch).rejected_changes,
            patch.target == old(patch).target,
            patch.change_type == old(patch).change_type,
        decreases patch.changes@.len(),
    {
        let ghost before = changes_view(rejects@);
        let ghost k = patch.changes@.len() as int;
        let ghost pending = patch.changes@;
        let change = patch.changes.pop().unwrap();
        rejects.push(change);
        assert(change@ == changes_view(pending)[k - 1]);
        assert(changes_view(patch.changes@) =~= changes.take(k - 1));
        assert(changes_view(rejects@) =~= before.push(change@));
        assert(before.push(changes[k - 1]) =~= changes.skip(k - 1).reverse());
    }
    assert(changes.skip(0) =~= changes);
    while patch.rejected_changes.len() > 0
        invariant
            patch.changes@.len() == 0,
            patch.rejected_changes@.len() <= rejected.len(),
            changes_view(patch.rejected_changes@) == rejected.take(
                patch.rejected_changes@.len() as int,
            ),
            changes_view(rejects@) == changes.reverse() + rejected.skip(
                patch.rejected_changes@.len() as int,
            ).reverse(),
            patch.target == old(patch).target,
            patch.change_type == old(patch).change_type,
        decreases patch.rejected_changes@.len(),
    {
        let ghost before = changes_view(rejects@);
        let ghost k = patch.rejected_changes@.len() as int;
        let ghost pending = patch.rejected_changes@;
        let reject = patch.rejected_changes.pop().unwrap();
        rejects.push(reject);
        assert(reject@ == changes_view(pending)[k - 1]);
        assert(changes_view(patch.rejected_changes@) =~= rejected.take(k - 1));
        assert(changes_view(rejects@) =~= before.push(reject@));
        assert(rejected.skip(k).reverse().push(rejected[k - 1]) =~= rejected.skip(k - 1).reverse());
        assert(before.push(reject@) =~= changes.reverse() + rejected.skip(k - 1).reverse());
    }
    assert(rejected.skip(0) =~= rejected);
    patch.rejected_changes = sort_changes(rejects, SortKey::Line);
    assert(changes_view(patch.changes@) =~= Seq::<ChangeView>::empty());
}

/// Applies a modification patch.
fn apply_file_modification(patch: AlignedPatch) -> (result: Result<PatchOutcome, Error>)
    requires
        patch@.change_type == FileChangeType::Modify,
    ensures
        match result {
            Ok(outcome) => modified_lines(patch@.target.lines, patch@.changes) == Some(
                outcome@.patched_file.lines,
            ) && outcome@.patched_file.path == patch@.target.path && outcome@.rejected_changes
                == patch@.rejected_changes && outcome@.change_type == patch@.change_type,
            Err(e) => modified_lines(patch@.target.lines, patch@.changes) is None && e@.kind
                == ErrorKind::PatchError && e@.message
                == "there were unprocessed changes in the patch"@,
        },
{
    let AlignedPatch { changes, rejected_changes, target, change_type } = patch;
    let (path, lines) = target.into_path_and_lines();
    let ghost all_lines = strings_view(lines@);
    let ghost all_changes = changes_view(changes@);
    let ghost total = walk(all_lines, all_changes, 1);

    let mut patched_lines: Vec<String> = Vec::new();
    // The position of the next line of the target and of the next pending change.
    let mut i: usize = 0;
    let mut j: usize = 0;
    assert(all_lines.skip(0) =~= all_lines);
    assert(all_changes.skip(0) =~= all_changes);
    while i < lines.len()
        invariant
            i <= lines@.len(),
            j <= changes@.len(),
            all_lines == strings_view(lines@),
            all_changes == changes_view(changes@),
            total == walk(all_lines, all_changes, 1),
            strings_view(patched_lines@) + walk(
                all_lines.skip(i as int),
                all_changes.skip(j as int),
                i + 1,
            ).0 == total.0,
            walk(all_lines.skip(i as int), all_changes.skip(j as int), i + 1).1 == total.1,
        decreases lines@.len() - i, changes@.len() - j,
    {
        let ghost out = strings_view(patched_lines@);
        let ghost rest_lines = all_lines.skip(i as int);
        let ghost rest_changes = all_changes.skip(j as int);
        assert(rest_lines.skip(1) =~= all_lines.skip(i + 1));
        assert(rest_changes.len() > 0 ==> rest_changes.skip(1) =~= all_changes.skip(j + 1));
        let target_line_number: usize = i + 1;
        let due = j < changes.len() && match changes[j].change_type {
            LineChangeType::Add => changes[j].line_number <= target_line_number,
            LineChangeType::Remove => changes[j].line_number == target_line_number,
        };
        assert(due == (rest_changes.len() > 0 && is_due(rest_changes[0], i + 1)));
        if due {
            match changes[j].change_type {
                LineChangeType::Add => {
                    patched_lines.push(changes[j].line.clone());
                    assert(strings_view(patched_lines@) =~= out + seq![rest_changes[0].line]);
                    j += 1;
                },
                LineChangeType::Remove => {
                    i += 1;
                    j += 1;
                },
            }
        } else {
            patched_lines.push(lines[i].clone());
            assert(strings_view(patched_lines@) =~= out + seq![rest_lines[0]]);
            i += 1;
        }
    }
    assert(strings_view(patched_lines@) =~= total.0);
    assert(all_changes.skip(j as int) == total.1);

    // The changes that are left are appended, unless one of them is a removal.
    let ghost walked = strings_view(patched_lines@);
    let ghost pending = all_changes.skip(j as int);
    let ghost first = j;
    while j < changes.len()
        invariant
            first <= j <= changes@.len(),
            all_changes == changes_view(changes@),
            pending == all_changes.skip(first as int),
            total == walk(patch@.target.lines, patch@.changes, 1),
            walked == total.0,
            pending == total.1,
            strings_view(patched_lines@) == walked + contents(pending.take(j - first)),
            !has_removal(pending.take(j - first)),
        decreases changes@.len() - j,
    {
        let ghost out = strings_view(patched_lines@);
        match changes[j].change_type {
            LineChangeType::Add => {
                patched_lines.push(changes[j].line.clone());
                assert(strings_view(patched_lines@) =~= out.push(pending[j - first].line));
                assert(pending.take(j + 1 - first) =~= pending.take(j - first).push(
                    pending[j - first],
                ));
                assert(contents(pending.take(j + 1 - first)) =~= contents(
                    pending.take(j - first),
                ).push(pending[j - first].line));
            },
            LineChangeType::Remove => {
                assert(pending[j - first].change_type == LineChangeType::Remove);
                return Err(
                    Error::new(
                        "there were unprocessed changes in the patch",
                        ErrorKind::PatchError,
                    ),
                );
            },
        }
        j += 1;
    }
    assert(pending.take(j - first) =~= pending);

    let patched_file = FileArtifact::from_lines(path, patched_lines);
    Ok(PatchOutcome { patched_file, rejected_changes, change_type })
}

/// Applies the creation of a new file.
fn apply_file_creation(patch: AlignedPatch) -> (outcome: PatchOutcome)
    ensures
        outcome@ == (PatchOutcomeView {
            patched_file: FileArtifactView {
                path: patch@.target.path,
                lines: contents(patch@.changes),
            },
            rejected_changes: patch@.rejected_changes,
            change_type: patch@.change_type,
        }),
{
    let AlignedPatch { changes, rejected_changes, target, change_type } = patch;
    let (path, _) = target.into_path_and_lines();
    let mut lines: Vec<String> = Vec::new();
    let mut i: usize = 0;
    while i < changes.len()
        invariant
            i <= changes@.len(),
            strings_view(lines@) == contents(changes_view(changes@)).take(i as int),
        decreases changes@.len() - i,
    {
        let ghost before = strings_view(lines@);
        lines.push(changes[i].line.clone());
        assert(strings_view(lines@) =~= before.push(changes@[i as int]@.line));
        i += 1;
        assert(strings_view(lines@) =~= contents(changes_view(changes@)).take(i as int));
    }
    assert(contents(changes_view(changes@)).take(i as int) =~= contents(changes_view(changes@)));
    let patched_file = FileArtifact::from_lines(path, lines);
    PatchOutcome { patched_file, rejected_changes, change_type }
}

/// Applies the removal of an existing file.
fn apply_file_removal(patch: AlignedPatch) -> (outcome: PatchOutcome)
    ensures
        outcome@ == (PatchOutcomeView {
            patched_file: FileArtifactView { path: patch@.target.path, lines: Seq::empty() },
            rejected_changes: patch@.rejected_changes,
            change_type: patch@.change_type,
        }),
{
    let AlignedPatch { changes: _, rejected_changes, target, change_type } = patch;
    let (path, _) = target.into_path_and_lines();
    let patched_file = FileArtifact::from_lines(path, Vec::new());
    assert(patched_file@.lines =~= Seq::<Seq<char>>::empty());
    PatchOutcome { patched_file, rejected_changes, change_type }
}


/// A patch that must be rejected leaves its target as it is and rejects all
/// its changes. This holds of a patch that creates a file which exists, and
/// of a patch that modifies or removes a file which does not. The rejects of
/// the outcome are the changes and the rejects of the patch, each as often
/// as it occurs there, in order of line number.
pub proof fn lemma_rejected_as_a_whole(patch: AlignedPatchView, target_exists: bool)
    requires
        must_reject(patch.change_type, target_exists),
    ensures
        applied(patch, target_exists) is Some,
        applied(patch, target_exists).unwrap().patched_file == patch.target,
        applied(patch, target_exists).unwrap().change_type == patch.change_type,
        applied(patch, target_exists).unwrap().rejected_changes.to_multiset()
            == patch.changes.to_multiset().add(patch.rejected_changes.to_multiset()),
        is_sorted(applied(patch, target_exists).unwrap().rejected_changes, SortKey::Line),
{
    let collected = patch.changes.reverse() + patch.rejected_changes.reverse();
    lemma_sorted_changes(collected, SortKey::Line);
    vstd::seq_lib::lemma_multiset_commutative(
        patch.changes.reverse(),
        patch.rejected_changes.reverse(),
    );
    patch.changes.lemma_reverse_to_multiset();
    patch.rejected_changes.lemma_reverse_to_multiset();
}


/// Without changes, the walk over a file puts out the file and leaves
/// nothing pending.
pub proof fn lemma_walk_without_changes(lines: Seq<Seq<char>>, n: int)
    ensures
        walk(lines, Seq::empty(), n) == (lines, Seq::<ChangeView>::empty()),
    decreases lines.len(),
{
    if lines.len() > 0 {
        lemma_walk_without_changes(lines.skip(1), n + 1);
        assert(seq![lines[0]] + lines.skip(1) =~= lines);
    } else {
        assert(lines =~= Seq::<Seq<char>>::empty());
    }
}

/// A modification without changes leaves the file as it is.
pub proof fn lemma_no_changes_no_difference(lines: Seq<Seq<char>>)
    ensures
        modified_lines(lines, Seq::empty()) == Some(lines),
{
    lemma_walk_without_changes(lines, 1);
    assert(lines + contents(Seq::<ChangeView>::empty()) =~= lines);
}


/// Tells whether each removal among the changes is anchored at one of the
/// `count` lines from line `first` on, and no two removals at the same line.
pub open spec fn removals_fit(changes: Seq<ChangeView>, first: int, count: int) -> bool {
    &&& forall|i: int|
        0 <= i < changes.len() && (#[trigger] changes[i]).change_type == LineChangeType::Remove
            ==> first <= changes[i].line_number < first + count
    &&& forall|i: int, j: int|
        0 <= i < j < changes.len() && (#[trigger] changes[i]).change_type
            == LineChangeType::Remove && (#[trigger] changes[j]).change_type
            == LineChangeType::Remove ==> changes[i].line_number != changes[j].line_number
}

/// Changes that are in order are in order of their line numbers, whatever
/// the key.
proof fn lemma_sorted_by_line(changes: Seq<ChangeView>, key: SortKey, i: int, j: int)
    requires
        is_sorted(changes, key),
        0 <= i < j < changes.len(),
    ensures
        changes[i].line_number <= changes[j].line_number,
{
    assert(!precedes(changes[j], changes[i], key));
}

/// The walk applies every removal, if the changes are in order and their
/// removals are anchored at lines of the file, each at a line of its own: no
/// removal is pending when the file is exhausted.
pub proof fn lemma_walk_applies_removals(
    lines: Seq<Seq<char>>,
    changes: Seq<ChangeView>,
    n: int,
    key: SortKey,
)
    requires
        is_sorted(changes, key),
        removals_fit(changes, n, lines.len() as int),
    ensures
        !has_removal(walk(lines, changes, n).1),
    decreases lines.len(), changes.len(),
{
    if lines.len() == 0 {
        // No removal fits into an empty file.
    } else if changes.len() > 0 && is_due(changes[0], n) {
        let rest = changes.skip(1);
        assert forall|i: int, j: int| 0 <= i < j < rest.len() implies !precedes(
            rest[j],
            rest[i],
            key,
        ) by {
            assert(rest[i] == changes[i + 1] && rest[j] == changes[j + 1]);
        }
        match changes[0].change_type {
            LineChangeType::Add => {
                assert(removals_fit(rest, n, lines.len() as int)) by {
                    assert forall|i: int|
                        0 <= i < rest.len() && (#[trigger] rest[i]).change_type
                            == LineChangeType::Remove implies n <= rest[i].line_number < n
                        + lines.len() by {
                        assert(rest[i] == changes[i + 1]);
                    }
                    assert forall|i: int, j: int|
                        0 <= i < j < rest.len() && (#[trigger] rest[i]).change_type
                            == LineChangeType::Remove && (#[trigger] rest[j]).change_type
                            == LineChangeType::Remove implies rest[i].line_number
                        != rest[j].line_number by {
                        assert(rest[i] == changes[i + 1] && rest[j] == changes[j + 1]);
                    }
                }
                lemma_walk_applies_removals(lines, rest, n, key);
            },
            LineChangeType::Remove => {
                assert(removals_fit(rest, n + 1, lines.skip(1).len() as int)) by {
                    assert forall|i: int|
                        0 <= i < rest.len() && (#[trigger] rest[i]).change_type
                            == LineChangeType::Remove implies n + 1 <= rest[i].line_number < n
                        + 1 + lines.skip(1).len() by {
                        assert(rest[i] == changes[i + 1]);
                        lemma_sorted_by_line(changes, key, 0, i + 1);
                    }
                    assert forall|i: int, j: int|
                        0 <= i < j < rest.len() && (#[trigger] rest[i]).change_type
                            == LineChangeType::Remove && (#[trigger] rest[j]).change_type
                            == LineChangeType::Remove implies rest[i].line_number
                        != rest[j].line_number by {
                        assert(rest[i] == changes[i + 1] && rest[j] == changes[j + 1]);
                    }
                }
                lemma_walk_applies_removals(lines.skip(1), rest, n + 1, key);
            },
        }
    } else {
        assert(removals_fit(changes, n + 1, lines.skip(1).len() as int)) by {
            assert forall|i: int|
                0 <= i < changes.len() && (#[trigger] changes[i]).change_type
                    == LineChangeType::Remove implies n + 1 <= changes[i].line_number < n + 1
                + lines.skip(1).len() by {
                if i > 0 {
                    lemma_sorted_by_line(changes, key, 0, i);
                }
            }
        }
        lemma_walk_applies_removals(lines.skip(1), changes, n + 1, key);
    }
}

/// A modification with changes that are in order succeeds, if the target
/// file exists and the removals are anchored at lines of the file, each at a
/// line of its own. The changes that were rejected before do not make it
/// fail: they pass through as they are. The lines of the patched file are
/// those that the walk puts out, followed by the contents of the additions
/// that are pending at the end of the file.
pub proof fn lemma_anchored_changes_apply(patch: AlignedPatchView, key: SortKey)
    requires
        patch.change_type == FileChangeType::Modify,
        is_sorted(patch.changes, key),
        removals_fit(patch.changes, 1, patch.target.lines.len() as int),
    ensures
        applied(patch, true) == Some(
            PatchOutcomeView {
                patched_file: FileArtifactView {
                    path: patch.target.path,
                    lines: walk(patch.target.lines, patch.changes, 1).0 + contents(
                        walk(patch.target.lines, patch.changes, 1).1,
                    ),
                },
                rejected_changes: patch.rejected_changes,
                change_type: patch.change_type,
            },
        ),
        !has_removal(walk(patch.target.lines, patch.changes, 1).1),
{
    lemma_walk_applies_removals(patch.target.lines, patch.changes, 1, key);
}

} // verus!
