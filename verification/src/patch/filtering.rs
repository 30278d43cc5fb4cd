use crate::patch::matching::{fuzzy_match, is_matched, Matching};
use crate::patch::{
    changes_view, Change, ChangeView, FilePatch, FilePatchView, FilteredPatch, FilteredPatchView,
    LineChangeType,
};
use vstd::prelude::*;

verus! {

/// The changes that the given rule keeps, in the order in which they came.
pub open spec fn kept_by(changes: Seq<ChangeView>, keep: spec_fn(ChangeView) -> bool) -> Seq<
    ChangeView,
>
    decreases changes.len(),
{
    if changes.len() == 0 {
        Seq::empty()
    } else if keep(changes.last()) {
        kept_by(changes.drop_last(), keep).push(changes.last())
    } else {
        kept_by(changes.drop_last(), keep)
    }
}

/// The changes that the given rule does not keep, in the order in which they
/// came.
pub open spec fn dropped_by(changes: Seq<ChangeView>, keep: spec_fn(ChangeView) -> bool) -> Seq<
    ChangeView,
>
    decreases changes.len(),
{
    if changes.len() == 0 {
        Seq::empty()
    } else if keep(changes.last()) {
        dropped_by(changes.drop_last(), keep)
    } else {
        dropped_by(changes.drop_last(), keep).push(changes.last())
    }
}

/// The patch after a filter with the given rule: the changes that the rule
/// keeps, and the others as rejects.
pub open spec fn filtered_by(patch: FilePatchView, keep: spec_fn(ChangeView) -> bool)
    -> FilteredPatchView {
    FilteredPatchView {
        changes: kept_by(patch.changes, keep),
        rejected_changes: dropped_by(patch.changes, keep),
        change_type: patch.change_type,
    }
}

/// Tells whether a filter has neither lost nor invented a change: the changes
/// that it has kept and those that it has rejected are, taken together, the
/// changes of the patch.
pub open spec fn is_split_of(filtered: FilteredPatchView, patch: FilePatchView) -> bool {
    &&& filtered.change_type == patch.change_type
    &&& filtered.changes.to_multiset().add(filtered.rejected_changes.to_multiset())
        == patch.changes.to_multiset()
}

/// A filter by a rule neither loses nor invents a change.
pub proof fn lemma_filtered_is_split(patch: FilePatchView, keep: spec_fn(ChangeView) -> bool)
    ensures
        is_split_of(filtered_by(patch, keep), patch),
    decreases patch.changes.len(),
{
    broadcast use vstd::seq_lib::group_to_multiset_ensures;

    let changes = patch.changes;
    if changes.len() == 0 {
        assert(kept_by(changes, keep).to_multiset().add(dropped_by(changes, keep).to_multiset())
            =~= changes.to_multiset());
    } else {
        let shorter = FilePatchView { changes: changes.drop_last(), change_type: patch.change_type };
        lemma_filtered_is_split(shorter, keep);
        assert(changes =~= changes.drop_last().push(changes.last()));
        assert(kept_by(changes, keep).to_multiset().add(dropped_by(changes, keep).to_multiset())
            =~= changes.drop_last().to_multiset().insert(changes.last()));
    }
}

/// A filter decides which changes of a patch are worth to be aligned. The
/// changes that it rejects are kept as rejects.
pub trait Filter {
    /// Splits the changes of the patch into those that are kept and those
    /// that are rejected.
    fn apply_filter(&mut self, patch: FilePatch, matching: &Matching) -> (filtered: FilteredPatch)
        ensures
            is_split_of(filtered@, patch@),
    ;
}

/// The rule of a [`DistanceFilter`]: a removal is always kept, and an
/// addition is kept if the distance to the matched line that anchors it is
/// less than `max_distance`.
pub open spec fn within_distance(c: ChangeView, map: Seq<Option<usize>>, max_distance: usize)
    -> bool {
    c.change_type == LineChangeType::Remove || fuzzy_match(map, c.line_number).1 < max_distance
}

/// A filter that rejects each addition whose closest matched line above is
/// too far away.
#[derive(Debug, PartialEq, Eq, PartialOrd, Ord)]
pub struct DistanceFilter(usize);

impl DistanceFilter {
    /// Creates a filter that keeps the additions whose distance to the
    /// closest matched line at or above them is less than `max_distance`.
    pub fn new(max_distance: usize) -> (filter: DistanceFilter)
        ensures
            filter.max_distance() == max_distance,
    {
        DistanceFilter(max_distance)
    }

    /// The distance from which on an addition is rejected.
    pub closed spec fn max_distance(&self) -> usize {
        self.0
    }

    /// Tells whether this filter keeps the given change.
    pub fn keep_change(&self, change: &Change, matching: &Matching) -> (keep: bool)
        ensures
            keep == within_distance(change@, matching@.source_to_target, self.max_distance()),
    {
        if let LineChangeType::Remove = change.change_type {
            // Removals are filtered by the alignment in any case.
            return true;
        }
        let (_, match_offset) = matching.target_index_fuzzy(change.line_number);
        match_offset.0 < self.0
    }
}

impl Filter for DistanceFilter {
    fn apply_filter(&mut self, patch: FilePatch, matching: &Matching) -> (filtered: FilteredPatch)
        ensures
            filtered@ == filtered_by(
                patch@,
                |c: ChangeView|
                    within_distance(c, matching@.source_to_target, old(self).max_distance()),
            ),
            final(self).max_distance() == old(self).max_distance(),
    {
        let ghost keep = |c: ChangeView|
            within_distance(c, matching@.source_to_target, self.max_distance());
        let FilePatch { changes: all_changes, change_type } = patch;
        let ghost all = changes_view(all_changes@);
        let mut changes: Vec<Change> = Vec::new();
        let mut rejected_changes: Vec<Change> = Vec::new();
        assert(changes_view(changes@) =~= kept_by(all.take(0), keep));
        assert(changes_view(rejected_changes@) =~= dropped_by(all.take(0), keep));
        for c in it: all_changes
            invariant
                all == changes_view(it.seq()),
                self.max_distance() == old(self).max_distance(),
                keep == |c: ChangeView|
                    within_distance(c, matching@.source_to_target, self.max_distance()),
                changes_view(changes@) == kept_by(all.take(it.index@), keep),
                changes_view(rejected_changes@) == dropped_by(all.take(it.index@), keep),
        {
            let ghost k = it.index@;
            let ghost kept = changes_view(changes@);
            let ghost dropped = changes_view(rejected_changes@);
            assert(all.take(k + 1).drop_last() =~= all.take(k));
            assert(all.take(k + 1).last() == c@);
            if self.keep_change(&c, matching) {
                assert(keep(c@));
                changes.push(c);
                assert(changes_view(changes@) =~= kept.push(c@));
            } else {
                assert(!keep(c@));
                rejected_changes.push(c);
                assert(changes_view(rejected_changes@) =~= dropped.push(c@));
            }
        }
        assert(all.take(all.len() as int) =~= all);
        proof {
            lemma_filtered_is_split(patch@, keep);
        }
        FilteredPatch { change_type, changes, rejected_changes }
    }
}

/// The rule of an [`InsideMatchFilter`]: a removal is kept if the line that
/// it removes is matched. An addition that is anchored at line `n` is kept if
/// the `depth` lines above line `n` and the `depth` lines below it are all
/// matched, that is the lines `n - i` and `n + i` for each `i` from one to
/// `depth`. Line `n` itself is not asked.
pub open spec fn inside_match(c: ChangeView, map: Seq<Option<usize>>, depth: usize) -> bool {
    match c.change_type {
        LineChangeType::Remove => is_matched(map, c.line_number as int),
        LineChangeType::Add => forall|i: int|
            1 <= i <= depth ==> #[trigger] is_matched(map, c.line_number - i) && is_matched(
                map,
                c.line_number + i,
            ),
    }
}

/// A filter that rejects each change that does not lie deep enough inside a
/// run of matched lines.
#[derive(Debug, PartialEq, Eq, PartialOrd, Ord)]
pub struct InsideMatchFilter(usize);

impl InsideMatchFilter {
    /// Creates a filter that keeps the additions that have `min_deepness`
    /// matched lines above their anchor line and as many below it.
    pub fn new(min_deepness: usize) -> (filter: InsideMatchFilter)
        ensures
            filter.min_deepness() == min_deepness,
    {
        InsideMatchFilter(min_deepness)
    }

    /// The number of matched lines that an addition needs on either side.
    pub closed spec fn min_deepness(&self) -> usize {
        self.0
    }

    /// Tells whether this filter keeps the given change.
    pub fn keep_change(&self, change: &Change, matching: &Matching) -> (keep: bool)
        ensures
            keep == inside_match(change@, matching@.source_to_target, self.min_deepness()),
    {
        let ghost map = matching@.source_to_target;
        let line_number = change.line_number;
        if let LineChangeType::Remove = change.change_type {
            return line_matched(matching, line_number);
        }
        // The number of lines on either side that are known to be matched.
        let mut i: usize = 0;
        while i < self.0
            invariant
                i <= self.0,
                map == matching@.source_to_target,
                line_number == change@.line_number,
                change@.change_type == LineChangeType::Add,
                forall|k: int|
                    1 <= k <= i ==> #[trigger] is_matched(map, line_number - k) && is_matched(
                        map,
                        line_number + k,
                    ),
            decreases self.0 - i,
        {
            let distance: usize = i + 1;
            if line_number < distance || !line_matched(matching, line_number - distance) {
                assert(!is_matched(map, line_number - distance));
                return false;
            }
            if line_number > usize::MAX - distance || !line_matched(
                matching,
                line_number + distance,
            ) {
                proof {
                    matching.lemma_maps_fit();
                }
                assert(!is_matched(map, line_number + distance));
                return false;
            }
            i += 1;
        }
        true
    }
}

/// Tells whether the given line of the source file is matched.
fn line_matched(matching: &Matching, line_number: usize) -> (matched: bool)
    ensures
        matched == is_matched(matching@.source_to_target, line_number as int),
{
    match matching.target_index(line_number) {
        Some(Some(_)) => true,
        _ => false,
    }
}

impl Filter for InsideMatchFilter {
    fn apply_filter(&mut self, patch: FilePatch, matching: &Matching) -> (filtered: FilteredPatch)
        ensures
            filtered@ == filtered_by(
                patch@,
                |c: ChangeView|
                    inside_match(c, matching@.source_to_target, old(self).min_deepness()),
            ),
            final(self).min_deepness() == old(self).min_deepness(),
    {
        let ghost keep = |c: ChangeView|
            inside_match(c, matching@.source_to_target, self.min_deepness());
        let FilePatch { changes: all_changes, change_type } = patch;
        let ghost all = changes_view(all_changes@);
        let mut changes: Vec<Change> = Vec::new();
        let mut rejected_changes: Vec<Change> = Vec::new();
        assert(changes_view(changes@) =~= kept_by(all.take(0), keep));
        assert(changes_view(rejected_changes@) =~= dropped_by(all.take(0), keep));
        for c in it: all_changes
            invariant
                all == changes_view(it.seq()),
                self.min_deepness() == old(self).min_deepness(),
                keep == |c: ChangeView|
                    inside_match(c, matching@.source_to_target, self.min_deepness()),
                changes_view(changes@) == kept_by(all.take(it.index@), keep),
                changes_view(rejected_changes@) == dropped_by(all.take(it.index@), keep),
        {
            let ghost k = it.index@;
            let ghost kept = changes_view(changes@);
            let ghost dropped = changes_view(rejected_changes@);
            assert(all.take(k + 1).drop_last() =~= all.take(k));
            assert(all.take(k + 1).last() == c@);
            if self.keep_change(&c, matching) {
                assert(keep(c@));
                changes.push(c);
                assert(changes_view(changes@) =~= kept.push(c@));
            } else {
                assert(!keep(c@));
                rejected_changes.push(c);
                assert(changes_view(rejected_changes@) =~= dropped.push(c@));
            }
        }
        assert(all.take(all.len() as int) =~= all);
        proof {
            lemma_filtered_is_split(patch@, keep);
        }
        FilteredPatch { change_type, changes, rejected_changes }
    }
}

/// A filter that keeps every change.
#[derive(Debug)]
pub struct KeepAllFilter;

impl Filter for KeepAllFilter {
    fn apply_filter(&mut self, patch: FilePatch, matching: &Matching) -> (filtered: FilteredPatch)
        ensures
            filtered@ == (FilteredPatchView {
                changes: patch@.changes,
                rejected_changes: Seq::empty(),
                change_type: patch@.change_type,
            }),
    {
        let FilePatch { changes, change_type } = patch;
        let rejected_changes: Vec<Change> = Vec::new();
        assert(changes_view(rejected_changes@) =~= Seq::<ChangeView>::empty());
        proof {
            assert(patch@.changes.to_multiset().add(Seq::<ChangeView>::empty().to_multiset())
                =~= patch@.changes.to_multiset()) by {
                broadcast use vstd::seq_lib::group_to_multiset_ensures;

            }
        }
        FilteredPatch { changes, change_type, rejected_changes }
    }
}

} // verus!
