use std::cmp::Ordering;
use std::path::PathBuf;

use mpatch::application::{apply_patch, file_action, reject_all, FileAction};
use mpatch::patch::{sort_changes, Change, FileChangeType, LineChangeType, SortKey};
use mpatch::{AlignedPatch, ErrorKind, FileArtifact, FilePatch, VersionDiff};

const SIMPLE_DIFF: &str = "diff -Naur version-A/long.txt version-B/long.txt
--- version-A/long.txt\t2023-11-03 16:26:28.701847364 +0100
+++ version-B/long.txt\t2023-11-03 16:26:37.168563729 +0100
@@ -1,7 +1,7 @@
 context 1
 context 2
 context 3
-REMOVED
+ADDED
 context 4
 context 5
 context 6
@@ -23,7 +23,7 @@
 context 1
 context 2
 context 3
-REMOVED
+ADDED
 context 4
 context 5
 context 6
";

fn change(line: &str, change_type: LineChangeType, line_number: usize, change_id: usize) -> Change {
    Change::new(line.to_string(), change_type, line_number, change_id)
}

fn simple_patch() -> FilePatch {
    let file_diff = VersionDiff::try_from(SIMPLE_DIFF.to_string()).unwrap();
    let file_diff = file_diff.file_diffs().first().unwrap().clone();
    FilePatch::from(file_diff)
}

#[test]
fn patch_from_diff() {
    let expected_changes = [
        change("REMOVED", LineChangeType::Remove, 4, 0),
        change("ADDED", LineChangeType::Add, 5, 1),
        change("REMOVED", LineChangeType::Remove, 26, 2),
        change("ADDED", LineChangeType::Add, 27, 3),
    ];

    let patch = simple_patch();
    assert_eq!(FileChangeType::Modify, patch.change_type());
    assert_eq!(expected_changes.len(), patch.changes().len());
    for (change, expected_change) in patch.changes().iter().zip(expected_changes.iter()) {
        assert_eq!(change, expected_change);
    }
}

#[test]
fn patch_reject_all() {
    let patch = simple_patch();
    let mut patch = AlignedPatch::new(
        patch.changes().to_vec(),
        vec![change("additional reject", LineChangeType::Add, 99, 4)],
        FileArtifact::new(PathBuf::from("empty")),
        FileChangeType::Modify,
    );

    patch.reject_all();
    assert_eq!(5, patch.rejected_changes().len());
}

#[test]
fn application_reject_all() {
    let patch = simple_patch();
    let mut patch = AlignedPatch::new(
        patch.changes().to_vec(),
        vec![change("additional reject", LineChangeType::Add, 99, 4)],
        FileArtifact::new(PathBuf::from("empty")),
        FileChangeType::Modify,
    );

    reject_all(&mut patch);
    assert_eq!(5, patch.rejected_changes().len());
    assert!(patch.changes().is_empty());
    let ids: Vec<usize> = patch.rejected_changes().iter().map(|c| c.change_id()).collect();
    assert_eq!(vec![0, 1, 2, 3, 4], ids);
}

#[test]
fn reject_all_orders_by_line_number_and_keeps_ties_as_they_come() {
    // The changes are taken from the last to the first, then the rejects
    // likewise; ties keep that order.
    let mut patch = AlignedPatch::new(
        vec![
            change("a", LineChangeType::Add, 7, 0),
            change("b", LineChangeType::Remove, 3, 1),
            change("c", LineChangeType::Add, 7, 2),
        ],
        vec![
            change("d", LineChangeType::Add, 3, 3),
            change("e", LineChangeType::Add, 1, 4),
        ],
        FileArtifact::new(PathBuf::from("empty")),
        FileChangeType::Modify,
    );
    reject_all(&mut patch);
    let ids: Vec<usize> = patch.rejected_changes().iter().map(|c| c.change_id()).collect();
    assert_eq!(vec![4, 1, 3, 2, 0], ids);
}

#[test]
fn patch_add_lines_at_end() {
    let artifact = FileArtifact::from_lines(
        PathBuf::from("tests/samples/target_variant/version-0/main.c"),
        vec!["first line".to_string()],
    );
    let changes = vec![
        change("second line", LineChangeType::Add, 2, 0),
        change("third line", LineChangeType::Add, 2, 1),
    ];

    let patch = AlignedPatch::new(changes, vec![], artifact, FileChangeType::Modify);

    let patch_outcome = patch.apply(true).unwrap();
    assert!(patch_outcome.rejected_changes().is_empty());

    let patched_file = patch_outcome.patched_file();
    assert_eq!(3, patched_file.len());
    assert_eq!("first line", patched_file.lines()[0]);
    assert_eq!("second line", patched_file.lines()[1]);
    assert_eq!("third line", patched_file.lines()[2]);
}

#[test]
fn application_add_lines_at_end() {
    let artifact = FileArtifact::from_lines(
        PathBuf::from("tests/samples/target_variant/version-0/main.c"),
        vec!["first line".to_string()],
    );
    let changes = vec![
        change("second line", LineChangeType::Add, 2, 0),
        change("third line", LineChangeType::Add, 2, 1),
    ];

    let patch = AlignedPatch::new(changes, vec![], artifact, FileChangeType::Modify);

    let patch_outcome = apply_patch(patch, true).unwrap();
    assert!(patch_outcome.rejected_changes().is_empty());

    let patched_file = patch_outcome.patched_file();
    assert_eq!(3, patched_file.len());
    assert_eq!("first line", patched_file.lines()[0]);
    assert_eq!("second line", patched_file.lines()[1]);
    assert_eq!("third line", patched_file.lines()[2]);
}

#[test]
fn removing_lines_after_the_end_is_a_patch_error() {
    let artifact = FileArtifact::from_lines(
        PathBuf::from("tests/samples/target_variant/version-0/main.c"),
        vec!["first line".to_string()],
    );
    let changes = vec![change("second line", LineChangeType::Remove, 2, 0)];

    let patch = AlignedPatch::new(changes, vec![], artifact, FileChangeType::Modify);

    let error = apply_patch(patch, true).unwrap_err();
    assert_eq!(ErrorKind::PatchError, *error.kind());
    assert_eq!("there were unprocessed changes in the patch", error.message());
}

#[test]
fn order_changes_by_id_as_last_resort() {
    let mut changes = [
        change("second line", LineChangeType::Add, 1, 1),
        change("first line", LineChangeType::Add, 1, 0),
    ];

    changes.sort();

    assert_eq!(0, changes[0].change_id());
    assert_eq!(1, changes[1].change_id());
}

#[test]
fn line_change_type_ordering() {
    assert_eq!(
        Ordering::Less,
        LineChangeType::Remove
            .partial_cmp(&LineChangeType::Add)
            .unwrap()
    );
    assert_eq!(
        Ordering::Equal,
        LineChangeType::Remove
            .partial_cmp(&LineChangeType::Remove)
            .unwrap()
    );
    assert_eq!(
        Ordering::Equal,
        LineChangeType::Add
            .partial_cmp(&LineChangeType::Add)
            .unwrap()
    );
    assert_eq!(
        Ordering::Greater,
        LineChangeType::Add
            .partial_cmp(&LineChangeType::Remove)
            .unwrap()
    );
}

#[test]
fn sort_changes_orders_by_line_then_type_then_id() {
    let changes = vec![
        change("e", LineChangeType::Add, 4, 4),
        change("d", LineChangeType::Add, 4, 1),
        change("c", LineChangeType::Remove, 4, 9),
        change("b", LineChangeType::Add, 2, 7),
        change("a", LineChangeType::Remove, 9, 0),
    ];
    let mut expected = changes.clone();
    expected.sort();
    let sorted = sort_changes(changes.clone(), SortKey::LineTypeId);
    assert_eq!(expected, sorted);
    let ids: Vec<usize> = sorted.iter().map(|c| c.change_id()).collect();
    assert_eq!(vec![7, 9, 1, 4, 0], ids);

    let by_line = sort_changes(changes, SortKey::Line);
    let ids: Vec<usize> = by_line.iter().map(|c| c.change_id()).collect();
    assert_eq!(vec![7, 4, 1, 9, 0], ids);
}

#[test]
fn change_prints_with_its_sign() {
    assert_eq!("+new\n", change("new", LineChangeType::Add, 1, 0).to_string());
    assert_eq!("-old\n", change("old", LineChangeType::Remove, 1, 0).to_string());
    assert_eq!("Create", FileChangeType::Create.to_string());
    assert_eq!("Remove", FileChangeType::Remove.to_string());
    assert_eq!("Modify", FileChangeType::Modify.to_string());
}

#[test]
fn modification_interleaves_additions_and_removals() {
    let artifact = FileArtifact::from_lines(
        PathBuf::from("f"),
        vec!["1", "2", "3", "4"].into_iter().map(String::from).collect(),
    );
    let changes = vec![
        change("zero", LineChangeType::Add, 0, 0),
        change("2", LineChangeType::Remove, 2, 1),
        change("two", LineChangeType::Add, 2, 2),
        change("4", LineChangeType::Remove, 4, 3),
        change("five", LineChangeType::Add, 9, 4),
    ];
    let patch = AlignedPatch::new(changes, vec![], artifact, FileChangeType::Modify);
    let outcome = apply_patch(patch, true).unwrap();
    assert_eq!(
        vec!["zero", "1", "two", "3", "five"],
        outcome.patched_file().lines()
    );
    assert_eq!(FileChangeType::Modify, outcome.change_type());
}

#[test]
fn an_addition_after_a_removal_at_the_same_line_lands_before_the_next_line() {
    // The addition is anchored at the removed line: it is due as soon as
    // the walk has reached that line, and the removal comes first.
    let artifact = FileArtifact::from_lines(
        PathBuf::from("f"),
        vec!["a", "b"].into_iter().map(String::from).collect(),
    );
    let changes = vec![
        change("a", LineChangeType::Remove, 1, 0),
        change("A", LineChangeType::Add, 1, 1),
    ];
    let patch = AlignedPatch::new(changes, vec![], artifact, FileChangeType::Modify);
    let outcome = apply_patch(patch, true).unwrap();
    assert_eq!(vec!["A", "b"], outcome.patched_file().lines());
}

#[test]
fn creation_holds_the_changes_in_order() {
    let changes = vec![
        change("first", LineChangeType::Add, 1, 0),
        change("second", LineChangeType::Add, 2, 1),
    ];
    let patch = AlignedPatch::new(
        changes,
        vec![],
        FileArtifact::new(PathBuf::from("new/file")),
        FileChangeType::Create,
    );
    let outcome = apply_patch(patch, false).unwrap();
    assert_eq!(vec!["first", "second"], outcome.patched_file().lines());
    assert_eq!(&PathBuf::from("new/file"), outcome.patched_file().path());
    assert!(outcome.rejected_changes().is_empty());
    assert_eq!(FileChangeType::Create, outcome.change_type());
}

#[test]
fn removal_empties_the_file() {
    let artifact = FileArtifact::from_lines(
        PathBuf::from("f"),
        vec!["a".to_string(), "b".to_string()],
    );
    let patch = AlignedPatch::new(
        vec![change("a", LineChangeType::Remove, 1, 0)],
        vec![],
        artifact,
        FileChangeType::Remove,
    );
    let outcome = apply_patch(patch, true).unwrap();
    assert!(outcome.patched_file().is_empty());
    assert_eq!(FileChangeType::Remove, outcome.change_type());
}

#[test]
fn a_missing_target_rejects_a_modification() {
    let artifact = FileArtifact::new(PathBuf::from("missing"));
    let patch = AlignedPatch::new(
        vec![change("a", LineChangeType::Add, 1, 0)],
        vec![],
        artifact.clone(),
        FileChangeType::Modify,
    );
    let outcome = apply_patch(patch, false).unwrap();
    assert_eq!(&artifact, outcome.patched_file());
    assert_eq!(1, outcome.rejected_changes().len());
}

#[test]
fn file_actions() {
    let create = FileChangeType::Create;
    let modify = FileChangeType::Modify;
    let remove = FileChangeType::Remove;
    assert_eq!(FileAction::Write, file_action(create, false, false));
    assert_eq!(FileAction::Keep, file_action(create, true, false));
    assert_eq!(FileAction::Keep, file_action(create, false, true));
    assert_eq!(FileAction::Write, file_action(modify, true, false));
    assert_eq!(FileAction::Keep, file_action(modify, false, false));
    assert_eq!(FileAction::Keep, file_action(modify, true, true));
    assert_eq!(FileAction::Delete, file_action(remove, true, false));
    assert_eq!(FileAction::Keep, file_action(remove, false, false));
    assert_eq!(FileAction::Keep, file_action(remove, true, true));
}

#[test]
fn two_removals_at_one_line_leave_one_pending() {
    let artifact = FileArtifact::from_lines(
        PathBuf::from("f"),
        vec!["a".to_string(), "b".to_string()],
    );
    let changes = vec![
        change("a", LineChangeType::Remove, 1, 0),
        change("a", LineChangeType::Remove, 1, 1),
    ];
    let patch = AlignedPatch::new(changes, vec![], artifact, FileChangeType::Modify);
    let error = apply_patch(patch, true).unwrap_err();
    assert_eq!(ErrorKind::PatchError, *error.kind());
}

#[test]
fn rejects_pass_through_a_modification() {
    let artifact = FileArtifact::from_lines(
        PathBuf::from("f"),
        vec!["a", "b", "c"].into_iter().map(String::from).collect(),
    );
    let reject = change("gone", LineChangeType::Remove, 9, 0);
    let changes = vec![
        change("a", LineChangeType::Remove, 1, 1),
        change("A", LineChangeType::Add, 2, 2),
        change("c", LineChangeType::Remove, 3, 3),
    ];
    let patch = AlignedPatch::new(changes, vec![reject.clone()], artifact, FileChangeType::Modify);
    let outcome = apply_patch(patch, true).unwrap();
    assert_eq!(vec!["A", "b"], outcome.patched_file().lines());
    assert_eq!(&[reject], outcome.rejected_changes());
}
