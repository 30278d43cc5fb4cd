use crate::patch::matching::{fuzzy_match, is_matched, lookup, Matching, MatchingView};
use crate::patch::{
    changes_view, is_sorted, lemma_sorted_changes, sort_changes, sorted_changes, AlignedPatch,
    AlignedPatchView, Change, ChangeView, FileChangeType, FilePatch, FilteredPatch,
    LineChangeType, SortKey,
};
use vstd::prelude::*;

verus! {

/// The line of the target file at which a change takes place, given how the
/// lines of the source file are matched to it.
///
/// A removal takes place at the match of the line that it removes; it has no
/// place if that line has no match. An addition takes place at the fuzzy
/// match of its line, and at line zero, that is before the first line, if
/// there is none.
pub open spec fn target_line(c: ChangeView, map: Seq<Option<usize>>) -> Option<usize> {
    match c.change_type {
        LineChangeType::Add => match fuzzy_match(map, c.line_number).0 {
            Some(n) => Some(n),
            None => Some(0usize),
        },
        LineChangeType::Remove => match lookup(map, c.line_number as int) {
            Some(Some(n)) => Some(n),
            _ => None,
        },
    }
}

/// The given change, anchored at the given line.
pub open spec fn moved_to(c: ChangeView, line_number: usize) -> ChangeView {
    ChangeView { line_number, ..c }
}

/// The changes that have a place in the target file, each anchored at its
/// place, in the order in which they came.
pub open spec fn placed(changes: Seq<ChangeView>, map: Seq<Option<usize>>) -> Seq<ChangeView>
    decreases changes.len(),
{
    if changes.len() == 0 {
        Seq::empty()
    } else {
        match target_line(changes.last(), map) {
            Some(n) => placed(changes.drop_last(), map).push(moved_to(changes.last(), n)),
            None => placed(changes.drop_last(), map),
        }
    }
}

/// The changes that have no place in the target file, as they came.
pub open spec fn unplaced(changes: Seq<ChangeView>, map: Seq<Option<usize>>) -> Seq<ChangeView>
    decreases changes.len(),
{
    if changes.len() == 0 {
        Seq::empty()
    } else {
        match target_line(changes.last(), map) {
            Some(n) => unplaced(changes.drop_last(), map),
            None => unplaced(changes.drop_last(), map).push(changes.last()),
        }
    }
}

/// The alignment of changes to the target of a matching, given the changes
/// that were rejected before.
///
/// The changes of a file that is created are aligned as they are. Otherwise
/// the changes that have a place in the target file are anchored there and
/// put in order by line number, by change type with removals first, and by
/// id; those without a place join the rejected changes.
pub open spec fn aligned(
    changes: Seq<ChangeView>,
    rejected_before: Seq<ChangeView>,
    change_type: FileChangeType,
    matching: MatchingView,
) -> AlignedPatchView {
    if change_type == FileChangeType::Create {
        AlignedPatchView {
            changes,
            rejected_changes: rejected_before,
            target: matching.target,
            change_type,
        }
    } else {
        AlignedPatchView {
            changes: sorted_changes(
                placed(changes, matching.source_to_target),
                SortKey::LineTypeId,
            ),
            rejected_changes: rejected_before + unplaced(changes, matching.source_to_target),
            target: matching.target,
            change_type,
        }
    }
}

/// Aligns the given changes to the target of the matching.
fn align_changes(
    changes: Vec<Change>,
    rejected_before: Vec<Change>,
    change_type: FileChangeType,
    target_matching: Matching,
) -> (patch: AlignedPatch)
    ensures
        patch@ == aligned(
            changes_view(changes@),
            changes_view(rejected_before@),
            change_type,
            target_matching@,
        ),
{
    if let FileChangeType::Create = change_type {
        // Files that are to be created are aligned by definition.
        return AlignedPatch {
            changes,
            rejected_changes: rejected_before,
            target: target_matching.into_target(),
            change_type,
        };
    }
    let ghost all = changes_view(changes@);
    let ghost map = target_matching@.source_to_target;
    let ghost earlier = changes_view(rejected_before@);
    let mut aligned_changes: Vec<Change> = Vec::new();
    let mut rejected_changes = rejected_before;
    assert(changes_view(aligned_changes@) =~= placed(all.take(0), map));
    assert(changes_view(rejected_changes@) =~= earlier + unplaced(all.take(0), map));
    for change in it: changes
        invariant
            all == changes_view(it.seq()),
            map == target_matching@.source_to_target,
            changes_view(aligned_changes@) == placed(all.take(it.index@), map),
            changes_view(rejected_changes@) == earlier + unplaced(all.take(it.index@), map),
    {
        let ghost k = it.index@;
        let ghost placed_before = changes_view(aligned_changes@);
        let ghost rejected_now = changes_view(rejected_changes@);
        assert(all.take(k + 1).drop_last() =~= all.take(k));
        assert(all.take(k + 1).last() == change@);
        let mut change = change;
        // Determine the best target line for the change.
        let target_line_number = match change.change_type {
            LineChangeType::Add => match target_matching.target_index_fuzzy(change.line_number).0 {
                Some(n) => Some(n),
                // Additions without a match are anchored before the first line.
                None => Some(0),
            },
            LineChangeType::Remove => match target_matching.target_index(change.line_number) {
                Some(Some(n)) => Some(n),
                // Removals without a match are rejected.
                _ => None,
            },
        };
        assert(target_line_number == target_line(change@, map));
        if let Some(target_line_number) = target_line_number {
            let ghost unmoved = change@;
            change.line_number = target_line_number;
            assert(change@ == moved_to(unmoved, target_line_number));
            aligned_changes.push(change);
            assert(changes_view(aligned_changes@) =~= placed_before.push(
                moved_to(unmoved, target_line_number),
            ));
        } else {
            rejected_changes.push(change);
            assert(changes_view(rejected_changes@) =~= rejected_now.push(change@));
            assert(rejected_now.push(change@) =~= earlier + unplaced(all.take(k), map).push(
                change@,
            ));
        }
    }
    assert(all.take(all.len() as int) =~= all);
    // The changes may have switched their order where parts of the target
    // file have. They are applied in the order of their line numbers.
    let sorted = sort_changes(aligned_changes, SortKey::LineTypeId);
    AlignedPatch {
        changes: sorted,
        rejected_changes,
        target: target_matching.into_target(),
        change_type,
    }
}

/// Consumes and aligns the patch to the target file of the matching.
///
/// The source file of the matching must be the file that the patch was made
/// for, in the version before the changes of the patch.
///
/// In the aligned patch, each change that removes a line is anchored at the
/// line of the target file that is matched to the removed line; if there is
/// no such line, the change is rejected. Each change that adds a line is
/// anchored just below the match of the closest matched line above it. The
/// aligned changes are in order by line number, by change type with removals
/// first, and by id.
pub fn align_to_target(patch: FilePatch, target_matching: Matching) -> (aligned_patch:
    AlignedPatch)
    ensures
        aligned_patch@ == aligned(
            patch@.changes,
            Seq::empty(),
            patch@.change_type,
            target_matching@,
        ),
        patch@.change_type != FileChangeType::Create ==> is_sorted(
            aligned_patch@.changes,
            SortKey::LineTypeId,
        ),
{
    let FilePatch { changes, change_type } = patch;
    let rejected: Vec<Change> = Vec::new();
    assert(changes_view(rejected@) =~= Seq::<ChangeView>::empty());
    proof {
        lemma_sorted_changes(
            placed(changes_view(changes@), target_matching@.source_to_target),
            SortKey::LineTypeId,
        );
    }
    align_changes(changes, rejected, change_type, target_matching)
}

/// Consumes and aligns a filtered patch to the target file of the matching,
/// as [`align_to_target`] does with the changes that the filter has kept. The
/// changes that the filter has rejected stay rejected, ahead of those that
/// find no place in the target file.
pub fn align_filtered_to_target(patch: FilteredPatch, target_matching: Matching) -> (aligned_patch:
    AlignedPatch)
    ensures
        aligned_patch@ == aligned(
            patch@.changes,
            patch@.rejected_changes,
            patch@.change_type,
            target_matching@,
        ),
        patch@.change_type != FileChangeType::Create ==> is_sorted(
            aligned_patch@.changes,
            SortKey::LineTypeId,
        ),
{
    let FilteredPatch { changes, rejected_changes, change_type } = patch;
    proof {
        lemma_sorted_changes(
            placed(changes_view(changes@), target_matching@.source_to_target),
            SortKey::LineTypeId,
        );
    }
    align_changes(changes, rejected_changes, change_type, target_matching)
}

/// Aligns a copy of the patch to the target of each of the given matchings,
/// as [`align_to_target`] does, and returns the aligned patches in the order
/// of the matchings.
pub fn align_to_multiple_targets(patch: &FilePatch, target_matchings: Vec<Matching>) -> (patches:
    Vec<AlignedPatch>)
    ensures
        patches@.len() == target_matchings@.len(),
        forall|i: int|
            0 <= i < patches@.len() ==> (#[trigger] patches@[i])@ == aligned(
                patch@.changes,
                Seq::empty(),
                patch@.change_type,
                target_matchings@[i]@,
            ),
{
    let mut aligned_patches: Vec<AlignedPatch> = Vec::new();
    for matching in it: target_matchings
        invariant
            aligned_patches@.len() == it.index@,
            it.seq() == target_matchings@,
            forall|i: int|
                0 <= i < aligned_patches@.len() ==> (#[trigger] aligned_patches@[i])@ == aligned(
                    patch@.changes,
                    Seq::empty(),
                    patch@.change_type,
                    target_matchings@[i]@,
                ),
    {
        let aligned_patch = align_to_target(patch.clone(), matching);
        aligned_patches.push(aligned_patch);
    }
    aligned_patches
}


/// No change is lost: each of the given changes either has a place in the
/// target file or has none.
pub proof fn lemma_placed_or_unplaced(changes: Seq<ChangeView>, map: Seq<Option<usize>>)
    ensures
        placed(changes, map).len() + unplaced(changes, map).len() == changes.len(),
    decreases changes.len(),
{
    if changes.len() > 0 {
        lemma_placed_or_unplaced(changes.drop_last(), map);
    }
}

/// Each change that has a place stems from one of the given changes, which
/// has that place in the target file.
pub proof fn lemma_placed_origin(changes: Seq<ChangeView>, map: Seq<Option<usize>>, k: int)
    requires
        0 <= k < placed(changes, map).len(),
    ensures
        exists|i: int|
            0 <= i < changes.len() && target_line(#[trigger] changes[i], map) == Some(
                placed(changes, map)[k].line_number,
            ) && placed(changes, map)[k] == moved_to(
                changes[i],
                placed(changes, map)[k].line_number,
            ),
    decreases changes.len(),
{
    let before = changes.drop_last();
    let last = changes.len() - 1;
    if target_line(changes.last(), map) is Some && k == placed(before, map).len() {
        assert(changes[last] == changes.last());
    } else {
        lemma_placed_origin(before, map, k);
        let i = choose|i: int|
            0 <= i < before.len() && target_line(#[trigger] before[i], map) == Some(
                placed(before, map)[k].line_number,
            ) && placed(before, map)[k] == moved_to(before[i], placed(before, map)[k].line_number);
        assert(changes[i] == before[i]);
    }
}

/// Each change that has no place is among the changes without a place.
pub proof fn lemma_unplaced_member(changes: Seq<ChangeView>, map: Seq<Option<usize>>, i: int)
    requires
        0 <= i < changes.len(),
        target_line(changes[i], map) is None,
    ensures
        unplaced(changes, map).contains(changes[i]),
    decreases changes.len(),
{
    let before = changes.drop_last();
    if i == changes.len() - 1 {
        assert(unplaced(changes, map).last() == changes[i]);
    } else {
        lemma_unplaced_member(before, map, i);
        assert(before[i] == changes[i]);
        let j = choose|j: int|
            0 <= j < unplaced(before, map).len() && unplaced(before, map)[j] == changes[i];
        assert(unplaced(changes, map)[j] == changes[i]);
    }
}

/// An alignment neither loses nor invents a change: the aligned changes and
/// the rejected changes are as many as the changes that were given and the
/// changes that were rejected before.
pub proof fn lemma_alignment_keeps_all(
    changes: Seq<ChangeView>,
    rejected_before: Seq<ChangeView>,
    change_type: FileChangeType,
    matching: MatchingView,
)
    ensures
        aligned(changes, rejected_before, change_type, matching).changes.len() + aligned(
            changes,
            rejected_before,
            change_type,
            matching,
        ).rejected_changes.len() == changes.len() + rejected_before.len(),
{
    lemma_placed_or_unplaced(changes, matching.source_to_target);
    lemma_sorted_changes(placed(changes, matching.source_to_target), SortKey::LineTypeId);
}

/// Removals are strict. If a patch does not create its file, a change of it
/// that removes a line which is not matched in the target file is rejected.
/// Each aligned change that removes a line stems from a change of the patch
/// whose line is matched to exactly the line at which the aligned change is
/// anchored: no removal is anchored by a fuzzy match.
pub proof fn lemma_removal_strictness(
    changes: Seq<ChangeView>,
    rejected_before: Seq<ChangeView>,
    change_type: FileChangeType,
    matching: MatchingView,
)
    requires
        change_type != FileChangeType::Create,
    ensures
        forall|i: int|
            0 <= i < changes.len() && (#[trigger] changes[i]).change_type == LineChangeType::Remove
                && !is_matched(matching.source_to_target, changes[i].line_number as int)
                ==> aligned(changes, rejected_before, change_type, matching).rejected_changes.contains(
                changes[i],
            ),
        forall|k: int|
            #![trigger aligned(changes, rejected_before, change_type, matching).changes[k]]
            0 <= k < aligned(changes, rejected_before, change_type, matching).changes.len()
                && aligned(changes, rejected_before, change_type, matching).changes[k].change_type
                == LineChangeType::Remove ==> exists|i: int|
                0 <= i < changes.len() && (#[trigger] changes[i]).change_type
                    == LineChangeType::Remove && lookup(
                    matching.source_to_target,
                    changes[i].line_number as int,
                ) == Some(
                    Some(
                        aligned(changes, rejected_before, change_type, matching).changes[k].line_number,
                    ),
                ) && aligned(changes, rejected_before, change_type, matching).changes[k]
                    == moved_to(
                    changes[i],
                    aligned(changes, rejected_before, change_type, matching).changes[k].line_number,
                ),
{
    broadcast use vstd::seq_lib::group_to_multiset_ensures;

    let map = matching.source_to_target;
    let result = aligned(changes, rejected_before, change_type, matching);
    assert forall|i: int|
        0 <= i < changes.len() && (#[trigger] changes[i]).change_type == LineChangeType::Remove
            && !is_matched(map, changes[i].line_number as int) implies result.rejected_changes.contains(
        changes[i],
    ) by {
        lemma_unplaced_member(changes, map, i);
        let j = choose|j: int|
            0 <= j < unplaced(changes, map).len() && unplaced(changes, map)[j] == changes[i];
        assert(result.rejected_changes[rejected_before.len() + j] == changes[i]);
    }
    let all_placed = placed(changes, map);
    lemma_sorted_changes(all_placed, SortKey::LineTypeId);
    assert forall|k: int|
        #![trigger result.changes[k]]
        0 <= k < result.changes.len() && result.changes[k].change_type
            == LineChangeType::Remove implies exists|i: int|
        0 <= i < changes.len() && (#[trigger] changes[i]).change_type == LineChangeType::Remove
            && lookup(map, changes[i].line_number as int) == Some(
            Some(result.changes[k].line_number),
        ) && result.changes[k] == moved_to(changes[i], result.changes[k].line_number) by {
        let c = result.changes[k];
        assert(result.changes.contains(c));
        assert(result.changes.to_multiset().count(c) > 0);
        assert(all_placed.to_multiset().count(c) > 0);
        assert(all_placed.contains(c));
        let p = choose|p: int| 0 <= p < all_placed.len() && all_placed[p] == c;
        lemma_placed_origin(changes, map, p);
        let i = choose|i: int|
            0 <= i < changes.len() && target_line(#[trigger] changes[i], map) == Some(
                all_placed[p].line_number,
            ) && all_placed[p] == moved_to(changes[i], all_placed[p].line_number);
        assert(changes[i].change_type == LineChangeType::Remove);
    }
}

} // verus!
