use std::path::PathBuf;

use mpatch::alignment::{align_filtered_to_target, align_to_multiple_targets, align_to_target};
use mpatch::application::apply_patch;
use mpatch::filtering::{DistanceFilter, Filter, InsideMatchFilter, KeepAllFilter};
use mpatch::patch::{FileChangeType, LineChangeType, PatchOutcome};
use mpatch::{AlignedPatch, FileArtifact, FilePatch, LCSMatcher, Matcher, VersionDiff};

fn artifact(path: &str, lines: &[&str]) -> FileArtifact {
    FileArtifact::from_lines(
        PathBuf::from(path),
        lines.iter().map(|l| l.to_string()).collect(),
    )
}

fn diff_text(source_location: &str, target_location: &str, body: &[&str]) -> String {
    let mut text = String::from("diff -Naur a/file.c b/file.c\n");
    text.push_str("--- a/file.c\t2024-01-01 10:00:00.000000000 +0100\n");
    text.push_str("+++ b/file.c\t2024-01-02 10:00:00.000000000 +0100\n");
    text.push_str(&format!("@@ -{source_location} +{target_location} @@\n"));
    for line in body {
        text.push_str(line);
        text.push('\n');
    }
    text
}

fn patch_of(text: String) -> FilePatch {
    let diff = VersionDiff::try_from(text).unwrap();
    assert_eq!(1, diff.len());
    FilePatch::from(diff.file_diffs()[0].clone())
}

fn aligned(source: &[&str], target: &[&str], patch: FilePatch) -> AlignedPatch {
    let mut matcher = LCSMatcher::new();
    let matching = matcher.match_files(artifact("a/file.c", source), artifact("file.c", target));
    align_to_target(patch, matching)
}

fn run(source: &[&str], target: &[&str], text: String, target_exists: bool) -> PatchOutcome {
    apply_patch(aligned(source, target, patch_of(text)), target_exists).unwrap()
}

const CONTEXT: [&str; 7] = ["one", "two", "three", "REMOVED", "five", "six", "seven"];

fn substitution() -> String {
    diff_text(
        "1,7",
        "1,7",
        &[" one", " two", " three", "-REMOVED", "+ADDED", " five", " six", " seven"],
    )
}

#[test]
fn pure_substitution() {
    let outcome = run(&CONTEXT, &CONTEXT, substitution(), true);
    assert_eq!(
        vec!["one", "two", "three", "ADDED", "five", "six", "seven"],
        outcome.patched_file().lines()
    );
    assert!(outcome.rejected_changes().is_empty());
    assert_eq!(FileChangeType::Modify, outcome.change_type());
    assert_eq!(&PathBuf::from("file.c"), outcome.patched_file().path());
}

#[test]
fn pure_substitution_aligns_in_order() {
    let patch = aligned(&CONTEXT, &CONTEXT, patch_of(substitution()));
    let changes = patch.changes();
    assert_eq!(2, changes.len());
    assert_eq!(LineChangeType::Remove, changes[0].change_type());
    assert_eq!(4, changes[0].line_number());
    assert_eq!("REMOVED", changes[0].line());
    assert_eq!(LineChangeType::Add, changes[1].change_type());
    // The addition follows the removed line, which is matched to line 4:
    // it is anchored just below the match of line 4.
    assert_eq!(5, changes[1].line_number());
    assert_eq!("ADDED", changes[1].line());
    assert_eq!(patch.target(), &artifact("file.c", &CONTEXT));
}

#[test]
fn drifted_context() {
    // The source has three lines on top that the target lacks.
    let source = ["x", "y", "z", "REMOVED", "a", "b"];
    let target = ["REMOVED", "a", "b"];
    let text = diff_text("1,6", "1,5", &[" x", " y", " z", "-REMOVED", " a", " b"]);

    let patch = aligned(&source, &target, patch_of(text.clone()));
    assert_eq!(1, patch.changes().len());
    assert_eq!(1, patch.changes()[0].line_number());
    assert!(patch.rejected_changes().is_empty());

    let outcome = run(&source, &target, text, true);
    assert_eq!(vec!["a", "b"], outcome.patched_file().lines());
    assert!(outcome.rejected_changes().is_empty());
}

#[test]
fn append_at_end_of_file() {
    let text = diff_text("1", "1,3", &[" first line", "+second line", "+third line"]);
    let outcome = run(&["first line"], &["first line"], text, true);
    assert_eq!(
        vec!["first line", "second line", "third line"],
        outcome.patched_file().lines()
    );
    assert!(outcome.rejected_changes().is_empty());
}

#[test]
fn unanchorable_removal() {
    // The target has lost the line that the diff removes.
    let target = ["one", "two", "three", "five", "six", "seven"];
    let outcome = run(&CONTEXT, &target, substitution(), true);
    assert_eq!(
        vec!["one", "two", "three", "ADDED", "five", "six", "seven"],
        outcome.patched_file().lines()
    );
    let rejects = outcome.rejected_changes();
    assert_eq!(1, rejects.len());
    assert_eq!(LineChangeType::Remove, rejects[0].change_type());
    assert_eq!("REMOVED", rejects[0].line());
    assert_eq!(0, rejects[0].change_id());
    // The reject keeps its place in the source file.
    assert_eq!(4, rejects[0].line_number());
}

fn creation() -> String {
    diff_text("0,0", "1,3", &["+first", "+second", "+third"])
}

#[test]
fn file_creation() {
    let patch = patch_of(creation());
    assert_eq!(FileChangeType::Create, patch.change_type());
    let outcome = run(&[], &[], creation(), false);
    assert_eq!(vec!["first", "second", "third"], outcome.patched_file().lines());
    assert!(outcome.rejected_changes().is_empty());
    assert_eq!(FileChangeType::Create, outcome.change_type());
}

#[test]
fn file_creation_on_preexisting_file() {
    let existing = ["already", "here"];
    let outcome = run(&[], &existing, creation(), true);
    assert_eq!(&artifact("file.c", &existing), outcome.patched_file());
    let rejects = outcome.rejected_changes();
    assert_eq!(3, rejects.len());
    // All changes are anchored at line zero of the absent source file. They
    // are collected from the last to the first and keep that order.
    let contents: Vec<&str> = rejects.iter().map(|c| c.line()).collect();
    assert_eq!(vec!["third", "second", "first"], contents);
    assert!(rejects.iter().all(|c| c.line_number() == 0));
    assert_eq!(FileChangeType::Create, outcome.change_type());
}

#[test]
fn file_removal() {
    let text = diff_text("1,2", "0,0", &["-first", "-second"]);
    let patch = patch_of(text.clone());
    assert_eq!(FileChangeType::Remove, patch.change_type());
    let outcome = run(&["first", "second"], &["first", "second"], text.clone(), true);
    assert!(outcome.patched_file().is_empty());
    assert!(outcome.rejected_changes().is_empty());
    // The file is removed whatever it holds; the last line of the source
    // has no line ending, the same line of the target has one, so that the
    // two are not matched and the removal of the line is rejected.
    let outcome = run(&["first", "second"], &["first", "second", "more"], text, true);
    assert!(outcome.patched_file().is_empty());
    assert_eq!(1, outcome.rejected_changes().len());
    assert_eq!("second", outcome.rejected_changes()[0].line());
    assert_eq!(FileChangeType::Remove, outcome.change_type());
}

// The source lines 2 to 8 have no match in the target, so that an addition
// at source line 6 finds its nearest matched line five lines above.
const FAR_SOURCE: [&str; 8] = ["anchor", "s2", "s3", "s4", "s5", "s6", "old", "end"];
const FAR_TARGET: [&str; 3] = ["anchor", "t2", "t3"];

fn far_addition() -> FilePatch {
    patch_of(diff_text("4,3", "4,4", &[" s4", " s5", "+NEW", " s6"]))
}

fn distance_filtered(max_distance: usize) -> AlignedPatch {
    let mut matcher = LCSMatcher::new();
    let matching =
        matcher.match_files(artifact("a/file.c", &FAR_SOURCE), artifact("file.c", &FAR_TARGET));
    let mut filter = DistanceFilter::new(max_distance);
    let filtered = filter.apply_filter(far_addition(), &matching);
    align_filtered_to_target(filtered, matching)
}

#[test]
fn distance_filter_rejects_a_far_addition() {
    let patch = far_addition();
    assert_eq!(1, patch.changes().len());
    assert_eq!(6, patch.changes()[0].line_number());

    let aligned = distance_filtered(3);
    assert!(aligned.changes().is_empty());
    assert_eq!(1, aligned.rejected_changes().len());
    assert_eq!("NEW", aligned.rejected_changes()[0].line());
    let outcome = apply_patch(aligned, true).unwrap();
    assert_eq!(FAR_TARGET.to_vec(), outcome.patched_file().lines());
    assert_eq!(1, outcome.rejected_changes().len());

    // A distance of five is still too far: the offset must be less.
    assert!(distance_filtered(5).changes().is_empty());
}

#[test]
fn distance_filter_keeps_a_near_enough_addition() {
    let aligned = distance_filtered(10);
    assert!(aligned.rejected_changes().is_empty());
    assert_eq!(1, aligned.changes().len());
    // The anchor is matched to target line 1: the addition lands below it.
    assert_eq!(2, aligned.changes()[0].line_number());
    let outcome = apply_patch(aligned, true).unwrap();
    assert_eq!(vec!["anchor", "NEW", "t2", "t3"], outcome.patched_file().lines());
    assert!(outcome.rejected_changes().is_empty());

    assert_eq!(1, distance_filtered(6).changes().len());
}

#[test]
fn distance_filter_always_keeps_removals() {
    let mut matcher = LCSMatcher::new();
    let matching =
        matcher.match_files(artifact("a/file.c", &FAR_SOURCE), artifact("file.c", &FAR_TARGET));
    let patch = patch_of(diff_text("4,3", "4,2", &[" s4", "-s5", " s6"]));
    let mut filter = DistanceFilter::new(0);
    let filtered = filter.apply_filter(patch, &matching);
    assert_eq!(1, filtered.changes().len());
    assert!(filtered.rejected_changes().is_empty());
    assert_eq!(FileChangeType::Modify, filtered.change_type());
    // The alignment rejects it, since the removed line has no match.
    let aligned = align_filtered_to_target(filtered, matching);
    assert!(aligned.changes().is_empty());
    assert_eq!(1, aligned.rejected_changes().len());
}

#[test]
fn distance_zero_rejects_every_addition() {
    let mut matcher = LCSMatcher::new();
    let matching = matcher.match_files(artifact("a", &CONTEXT), artifact("b", &CONTEXT));
    let mut filter = DistanceFilter::new(0);
    let filtered = filter.apply_filter(patch_of(substitution()), &matching);
    assert_eq!(1, filtered.changes().len());
    assert_eq!(LineChangeType::Remove, filtered.changes()[0].change_type());
    assert_eq!(1, filtered.rejected_changes().len());
    assert_eq!(LineChangeType::Add, filtered.rejected_changes()[0].change_type());
}

#[test]
fn inside_match_filter_wants_matched_lines_on_both_sides() {
    let source = ["a", "b", "c", "d", "e"];
    let target = ["a", "b", "c", "d", "x"];
    let patch = || patch_of(diff_text("2,3", "2,4", &[" b", "+NEW", " c", " d"]));
    let keep = |depth: usize| {
        let mut matcher = LCSMatcher::new();
        let matching = matcher.match_files(artifact("a", &source), artifact("b", &target));
        let mut filter = InsideMatchFilter::new(depth);
        let filtered = filter.apply_filter(patch(), &matching);
        filtered.changes().len()
    };
    // The addition is anchored at source line 3. Lines 1 to 4 are matched,
    // line 5 is not: one line on either side of line 3 is matched, two are
    // not.
    assert_eq!(1, keep(0));
    assert_eq!(1, keep(1));
    assert_eq!(0, keep(2));
    assert_eq!(0, keep(3));
    assert_eq!(0, keep(100));
    assert_eq!(0, keep(usize::MAX));
}

#[test]
fn inside_match_filter_keeps_a_removal_of_a_matched_line_only() {
    let source = ["a", "b", "c"];
    let target = ["a", "c"];
    let mut matcher = LCSMatcher::new();
    let matching = matcher.match_files(artifact("a", &source), artifact("b", &target));
    let patch = patch_of(diff_text("1,3", "1", &[" a", "-b", "-c"]));
    let mut filter = InsideMatchFilter::new(5);
    let filtered = filter.apply_filter(patch, &matching);
    assert_eq!(1, filtered.changes().len());
    assert_eq!("c", filtered.changes()[0].line());
    assert_eq!(1, filtered.rejected_changes().len());
    assert_eq!("b", filtered.rejected_changes()[0].line());
}

#[test]
fn keep_all_filter_keeps_all() {
    let mut matcher = LCSMatcher::new();
    let matching = matcher.match_files(artifact("a", &CONTEXT), artifact("b", &[]));
    let mut filter = KeepAllFilter;
    let filtered = filter.apply_filter(patch_of(substitution()), &matching);
    assert_eq!(2, filtered.changes().len());
    assert!(filtered.rejected_changes().is_empty());
}

#[test]
fn additions_without_a_match_above_are_prepended() {
    let source = ["s1", "s2"];
    let target = ["t1", "t2"];
    let text = diff_text("1,2", "1,3", &[" s1", "+NEW", " s2"]);
    let patch = aligned(&source, &target, patch_of(text.clone()));
    assert_eq!(0, patch.changes()[0].line_number());
    let outcome = run(&source, &target, text, true);
    assert_eq!(vec!["NEW", "t1", "t2"], outcome.patched_file().lines());
}

#[test]
fn alignment_is_the_same_for_the_same_input() {
    let target = ["zero", "one", "two", "three", "REMOVED", "five", "six", "seven"];
    let first = aligned(&CONTEXT, &target, patch_of(substitution()));
    let second = aligned(&CONTEXT, &target, patch_of(substitution()));
    assert_eq!(first, second);
    assert_eq!(5, first.changes()[0].line_number());
    assert_eq!(6, first.changes()[1].line_number());
}

#[test]
fn alignment_to_multiple_targets() {
    let patch = patch_of(substitution());
    let mut matcher = LCSMatcher::new();
    let first = matcher.match_files(artifact("a", &CONTEXT), artifact("b", &CONTEXT));
    let second = matcher.match_files(artifact("a", &CONTEXT), artifact("c", &["REMOVED", "x"]));
    let patches = align_to_multiple_targets(&patch, vec![first, second]);
    assert_eq!(2, patches.len());
    assert_eq!(4, patches[0].changes()[0].line_number());
    assert_eq!(1, patches[1].changes()[0].line_number());
    assert_eq!(&artifact("c", &["REMOVED", "x"]), patches[1].target());
}

#[test]
fn inside_match_filter_does_not_ask_the_anchor_line_itself() {
    // The addition is anchored at source line 2, which has no match; the
    // lines above and below it have one.
    let source = ["a", "old", "c"];
    let target = ["a", "new", "c"];
    let patch = || patch_of(diff_text("1,3", "1,4", &[" a", "+NEW", " old", " c"]));
    assert_eq!(2, patch().changes()[0].line_number());
    let keep = |depth: usize| {
        let mut matcher = LCSMatcher::new();
        let matching = matcher.match_files(artifact("a", &source), artifact("b", &target));
        assert_eq!(Some(None), matching.target_index(2));
        let mut filter = InsideMatchFilter::new(depth);
        let filtered = filter.apply_filter(patch(), &matching);
        filtered.changes().len()
    };
    assert_eq!(1, keep(1));
    // There is no line above line one.
    assert_eq!(0, keep(2));
}

#[test]
fn an_aligned_patch_prints_its_kind_and_its_target() {
    let patch = aligned(&CONTEXT, &CONTEXT, patch_of(substitution()));
    assert_eq!("Modify file.c", patch.to_string());
    let patch = aligned(&[], &[], patch_of(creation()));
    assert_eq!("Create file.c", patch.to_string());
}
