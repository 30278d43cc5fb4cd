use mpatch::diffs::LineLocation::{ChangeLocation, RealLocation};
use mpatch::diffs::{
    FileDiff, Hunk, HunkLine, HunkLocation, LineLocation, LineType, SourceFileHeader,
    TargetFileHeader, VersionDiff,
};
use mpatch::ErrorKind;

fn check_line_parsing(line: &str, expected_type: LineType) {
    let line_type = LineType::determine_type(line).unwrap();
    assert_eq!(line_type, expected_type);
}

fn prepare_diff_vec(input: &str) -> Vec<String> {
    input
        .lines()
        .map(|s| s.trim())
        .map(|s| {
            // Add back the space for context lines
            if s.starts_with(|c| c != '-' && c != '+' && c != '\\' && c != '@') {
                format!(" {s}")
            } else {
                s.to_string()
            }
        })
        .filter(|s| !s.is_empty())
        .collect()
}

#[test]
fn diffs_parse_context_line() {
    let line = " unchanged code";
    check_line_parsing(line, LineType::Context);
}

#[test]
fn diffs_parse_add_line() {
    let line = "+added code";
    check_line_parsing(line, LineType::Add);
}

#[test]
fn diffs_parse_remove_line() {
    let line = "-removed code";
    check_line_parsing(line, LineType::Remove);
}

#[test]
fn diffs_parse_eof_line() {
    let line = "\\ No newline at end of file";
    check_line_parsing(line, LineType::EOF);
}

#[test]
fn diffs_recognize_invalid_line() {
    let line = "Not a valid format";
    assert!(LineType::determine_type(line).is_err());
}

#[test]
fn diffs_recognize_invalid_line_eof() {
    let line = "\\Not a valid line";
    assert!(LineType::determine_type(line).is_err());
}

#[test]
fn diffs_recognize_invalid_empty_line() {
    let line = "";
    assert!(LineType::determine_type(line).is_err());
}

#[test]
fn diffs_parse_valid_location_line() {
    let location_line = "@@ -1,7 +1,7 @@";
    let (source_location, target_location) = Hunk::parse_location_line(location_line).unwrap();
    assert_eq!(source_location.hunk_start(), 1);
    assert_eq!(source_location.hunk_length(), 7);
    assert_eq!(target_location.hunk_start(), 1);
    assert_eq!(source_location.hunk_length(), 7);
}

#[test]
fn diffs_recognize_invalid_location_line_start() {
    let location_line = "@ -1,7 +1,7 @@";
    assert!(Hunk::parse_location_line(location_line).is_err());
}

#[test]
fn diffs_recognize_invalid_location_line_end() {
    let location_line = "@@ -1,7 +1,7 @";
    assert!(Hunk::parse_location_line(location_line).is_err());
}

#[test]
fn diffs_recognize_invalid_location_line_number() {
    let location_line = "@@ -1,7 1,7 @@";
    assert!(Hunk::parse_location_line(location_line).is_err());
}

#[test]
fn diffs_recognize_invalid_location_line_comma() {
    let location_line = "@@ -1,7 +1;7 @@";
    assert!(Hunk::parse_location_line(location_line).is_err());
}

#[test]
fn diffs_parse_valid_source_file() {
    let line = "--- version-A/double_end.txt	2023-11-03 16:39:35.953263076 +0100";
    let source = SourceFileHeader::try_from(line).unwrap();
    assert_eq!("version-A/double_end.txt", source.path_str());
    assert_eq!("2023-11-03 16:39:35.953263076 +0100", source.timestamp());
}

#[test]
fn diffs_parse_valid_target_file() {
    let line = "+++ version-B/double_end.txt	2023-11-03 16:40:12.500153951 +0100";
    let source = TargetFileHeader::try_from(line).unwrap();
    assert_eq!("version-B/double_end.txt", source.path_str());
    assert_eq!("2023-11-03 16:40:12.500153951 +0100", source.timestamp());
}

#[test]
fn diffs_recognize_invalid_source_file() {
    let line = "+++ version-A/double_end.txt	2023-11-03 16:39:35.953263076 +0100";
    assert!(SourceFileHeader::try_from(line).is_err());
}

#[test]
fn diffs_recognize_invalid_target_file() {
    let line = "--- version-A/double_end.txt	2023-11-03 16:39:35.953263076 +0100";
    assert!(TargetFileHeader::try_from(line).is_err());
}

#[test]
fn diffs_parse_valid_hunk() {
    let input = "@@ -1,7 +2,5 @@
                     context 1
                     context 2
                     context 3
                    -REMOVED
                    +ADDED
                     context 4
                     context 5
                     context 6
                    ";
    let input = prepare_diff_vec(input);
    let hunk = Hunk::try_from(input.clone()).unwrap();
    assert_eq!(hunk.source_location().hunk_start(), 1);
    assert_eq!(hunk.source_location().hunk_length(), 7);
    assert_eq!(hunk.target_location().hunk_start(), 2);
    assert_eq!(hunk.target_location().hunk_length(), 5);

    let expected_lines = [
        HunkLine::new(
            RealLocation(1),
            RealLocation(2),
            LineType::Context,
            " context 1".to_string(),
        )
        .unwrap(),
        HunkLine::new(
            RealLocation(2),
            RealLocation(3),
            LineType::Context,
            " context 2".to_string(),
        )
        .unwrap(),
        HunkLine::new(
            RealLocation(3),
            RealLocation(4),
            LineType::Context,
            " context 3".to_string(),
        )
        .unwrap(),
        HunkLine::new(
            RealLocation(4),
            ChangeLocation(5),
            LineType::Remove,
            "-REMOVED".to_string(),
        )
        .unwrap(),
        HunkLine::new(
            ChangeLocation(5),
            RealLocation(5),
            LineType::Add,
            "+ADDED".to_string(),
        )
        .unwrap(),
        HunkLine::new(
            RealLocation(5),
            RealLocation(6),
            LineType::Context,
            " context 4".to_string(),
        )
        .unwrap(),
        HunkLine::new(
            RealLocation(6),
            RealLocation(7),
            LineType::Context,
            " context 5".to_string(),
        )
        .unwrap(),
        HunkLine::new(
            RealLocation(7),
            RealLocation(8),
            LineType::Context,
            " context 6".to_string(),
        )
        .unwrap(),
    ];

    assert_eq!(hunk.lines().len(), expected_lines.len());
    for (id, line) in expected_lines.into_iter().enumerate() {
        assert_eq!(hunk.lines().get(id), Some(&line));
    }
}

#[test]
fn diffs_parse_valid_hunk_with_eofs() {
    let input = "@@ -1,4 +1,3 @@
                     Line A
                     Line B
                    -Line C
                    -Line D
                    \\ No newline at end of file
                    +Line C
                    \\ No newline at end of file
                    ";
    let input = prepare_diff_vec(input);
    let hunk = Hunk::try_from(input.clone()).unwrap();
    assert_eq!(hunk.source_location().hunk_start(), 1);
    assert_eq!(hunk.source_location().hunk_length(), 4);
    assert_eq!(hunk.target_location().hunk_start(), 1);
    assert_eq!(hunk.target_location().hunk_length(), 3);

    let expected_types = [
        LineType::Context,
        LineType::Context,
        LineType::Remove,
        LineType::Remove,
        LineType::EOF,
        LineType::Add,
        LineType::EOF,
    ];

    for (id, line_type) in expected_types.into_iter().enumerate() {
        assert_eq!(hunk.lines().get(id).unwrap().line_type(), line_type);
    }
}

#[test]
fn diffs_parse_file_diff_with_multiple_hunks() {
    let content = "diff -Naur version-A/long.txt version-B/long.txt
                       --- version-A/long.txt	2023-11-03 16:26:28.701847364 +0100
                       +++ version-B/long.txt	2023-11-03 16:26:37.168563729 +0100
                       @@ -1,7 +1,7 @@
                        context 1
                        context 2
                        context 3
                       -REMOVED
                       +ADDED
                        context 4
                        context 5
                        context 6
                       @@ -23,7 +23,7 @@
                        context 1
                        context 2
                        context 3
                       -REMOVED
                       +ADDED
                        context 4
                        context 5
                        context 6
                       ";
    let mut content = prepare_diff_vec(content);
    content[0] = content[0].trim().to_string();
    let file_diff = FileDiff::try_from(content.clone()).unwrap();
    assert_eq!(file_diff.diff_command().0, content[0]);
    assert_eq!(
        file_diff.source_file_header().path_str(),
        "version-A/long.txt".to_string()
    );
    assert_eq!(
        file_diff.target_file_header().path_str(),
        "version-B/long.txt".to_string()
    );
    assert_eq!(
        file_diff.source_file_header().timestamp(),
        "2023-11-03 16:26:28.701847364 +0100".to_string()
    );
    assert_eq!(
        file_diff.target_file_header().timestamp(),
        "2023-11-03 16:26:37.168563729 +0100".to_string()
    );
    assert_eq!(file_diff.hunks().len(), 2);
}

#[test]
fn identify_line_locations() {
    let input = "@@ -4,7 +10,5 @@
                     context 1
                     context 2
                     context 3
                    -REMOVED
                    +ADDED
                     context 4
                     context 5
                     context 6
                    ";
    let input = prepare_diff_vec(input);
    let hunk = Hunk::try_from(input.clone()).unwrap();

    let offset_old = 3;
    let offset_new = 9;

    let expected_lines = [
        (RealLocation(1), RealLocation(1)),
        (RealLocation(2), RealLocation(2)),
        (RealLocation(3), RealLocation(3)),
        (RealLocation(4), ChangeLocation(4)),
        (ChangeLocation(5), RealLocation(4)),
        (RealLocation(5), RealLocation(5)),
        (RealLocation(6), RealLocation(6)),
        (RealLocation(7), RealLocation(7)),
    ];

    assert_eq!(hunk.lines().len(), expected_lines.len());
    for (i, line) in hunk.lines().iter().enumerate() {
        let (mut old_id, mut new_id) = expected_lines[i];
        println!("{line:?}");
        match old_id {
            RealLocation(v) => old_id = RealLocation(v + offset_old),
            ChangeLocation(v) => old_id = ChangeLocation(v + offset_old),
            LineLocation::NoLocation => (),
        }
        match new_id {
            RealLocation(v) => new_id = RealLocation(v + offset_new),
            ChangeLocation(v) => new_id = ChangeLocation(v + offset_new),
            LineLocation::NoLocation => (),
        }
        assert_eq!(line.source_line(), old_id);
        assert_eq!(line.target_line(), new_id);
    }
}

#[test]
fn correctly_parse_version_diff() {
    let content = "
diff -Naur version-A/A.txt version-B/A.txt
--- version-A/A.txt	2023-11-03 16:26:28.701847364 +0100
+++ version-B/A.txt	2023-11-03 16:26:37.168563729 +0100
@@ -1,7 +1,7 @@
 context 1
 context 2
 context 3
-REMOVED
+ADDED
 context 4
 context 5
 context 6
diff -Naur version-A/B.txt version-B/B.txt
--- version-A/B.txt	2023-11-03 16:26:28.701847364 +0100
+++ version-B/B.txt	2023-11-03 16:26:37.168563729 +0100
@@ -1,7 +1,7 @@
 context 1
 context 2
 context 3
-REMOVED
+ADDED
 context 4
 context 5
 context 6";
    let version_diff = VersionDiff::try_from(content.trim_start().to_string()).unwrap();
    assert!(!version_diff.is_empty());
    assert_eq!(2, version_diff.len());
}

#[test]
fn empty_diff() {
    let content = "";
    let result = VersionDiff::try_from(content.trim_start().to_string());
    let result = result.unwrap_err();
    assert_eq!(ErrorKind::DiffParseError, *result.kind());
    assert!(result.message().starts_with("the given diff is empty"));
}

#[test]
fn invalid_file_diff_start() {
    let content = "
di -Naur version-A/B.txt version-B/B.txt
--- version-A/B.txt	2023-11-03 16:26:28.701847364 +0100
+++ version-B/B.txt	2023-11-03 16:26:37.168563729 +0100
@@ -1,7 +1,7 @@
 context 1
 context 2
 context 3
-REMOVED
+ADDED
 context 4
 context 5
 context 6";
    let mut content = prepare_diff_vec(content);
    content[0] = content[0].trim().to_string();
    let result = FileDiff::try_from(content.clone());

    let result = result.unwrap_err();
    assert_eq!(ErrorKind::DiffParseError, *result.kind());
    assert!(result.message().starts_with("invalid file diff start"));
}

#[test]
fn invalid_empty_hunk_location() {
    let content = "";
    let result = HunkLocation::try_from(content).unwrap_err();
    assert_eq!(ErrorKind::DiffParseError, *result.kind());
    assert!(result.message().starts_with("invalid hunk location: "));
}
