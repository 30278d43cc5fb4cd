use mpatch::diffs::{
    FileDiff, Hunk, HunkLine, LineLocation, LineType, SourceFileHeader, TargetFileHeader,
};

fn hunk_line(line: &str) -> Option<HunkLine> {
    let line_type = LineType::determine_type(line).ok()?;
    HunkLine::new(
        LineLocation::NoLocation,
        LineLocation::NoLocation,
        line_type,
        line.to_string(),
    )
    .ok()
}

fn check_hunk_line(line: &str, expected_type: LineType) {
    let hunk_line = hunk_line(line).unwrap();
    assert_eq!(hunk_line.content(), line);
    assert_eq!(hunk_line.line_type(), expected_type);
}

fn prepare_lines(input: &str) -> Vec<String> {
    input
        .lines()
        .map(|s| s.trim())
        .map(|s| {
            // Add back the space for context lines
            if s.starts_with(|c| c != '-' && c != '+' && c != '\\' && c != '@') {
                format!(" {s}")
            } else {
                s.to_string()
            }
        })
        .filter(|s| !s.is_empty())
        .collect()
}

#[test]
fn diff_parse_context_line() {
    let line = " unchanged code";
    check_hunk_line(line, LineType::Context);
}

#[test]
fn diff_parse_add_line() {
    let line = "+added code";
    check_hunk_line(line, LineType::Add);
}

#[test]
fn diff_parse_remove_line() {
    let line = "-removed code";
    check_hunk_line(line, LineType::Remove);
}

#[test]
fn diff_parse_eof_line() {
    let line = "\\ No newline at end of file";
    check_hunk_line(line, LineType::EOF);
}

#[test]
fn diff_recognize_invalid_line() {
    let line = "Not a valid format";
    assert!(hunk_line(line).is_none());
}

#[test]
fn diff_recognize_invalid_line_eof() {
    let line = "\\Not a valid line";
    assert!(hunk_line(line).is_none());
}

#[test]
fn diff_recognize_invalid_empty_line() {
    let line = "";
    assert!(hunk_line(line).is_none());
}

#[test]
fn diff_parse_valid_location_line() {
    let location_line = "@@ -1,7 +1,7 @@";
    let (source_location, target_location) = Hunk::parse_location_line(location_line).unwrap();
    assert_eq!(source_location.hunk_start(), 1);
    assert_eq!(source_location.hunk_length(), 7);
    assert_eq!(target_location.hunk_start(), 1);
    assert_eq!(source_location.hunk_length(), 7);
}

#[test]
fn diff_recognize_invalid_location_line_start() {
    let location_line = "@ -1,7 +1,7 @@";
    assert!(Hunk::parse_location_line(location_line).is_err());
}

#[test]
fn diff_recognize_invalid_location_line_end() {
    let location_line = "@@ -1,7 +1,7 @";
    assert!(Hunk::parse_location_line(location_line).is_err());
}

#[test]
fn diff_recognize_invalid_location_line_number() {
    let location_line = "@@ -1,7 1,7 @@";
    assert!(Hunk::parse_location_line(location_line).is_err());
}

#[test]
fn diff_recognize_invalid_location_line_comma() {
    let location_line = "@@ -1,7 +1;7 @@";
    assert!(Hunk::parse_location_line(location_line).is_err());
}

#[test]
fn diff_parse_valid_source_file() {
    let line = "--- version-A/double_end.txt	2023-11-03 16:39:35.953263076 +0100";
    let source = SourceFileHeader::try_from(line).unwrap();
    assert_eq!("version-A/double_end.txt", source.path_str());
    assert_eq!("2023-11-03 16:39:35.953263076 +0100", source.timestamp());
}

#[test]
fn diff_parse_valid_target_file() {
    let line = "+++ version-B/double_end.txt	2023-11-03 16:40:12.500153951 +0100";
    let source = TargetFileHeader::try_from(line).unwrap();
    assert_eq!("version-B/double_end.txt", source.path_str());
    assert_eq!("2023-11-03 16:40:12.500153951 +0100", source.timestamp());
}

#[test]
fn diff_recognize_invalid_source_file() {
    let line = "+++ version-A/double_end.txt	2023-11-03 16:39:35.953263076 +0100";
    assert!(SourceFileHeader::try_from(line).is_err());
}

#[test]
fn diff_recognize_invalid_target_file() {
    let line = "--- version-A/double_end.txt	2023-11-03 16:39:35.953263076 +0100";
    assert!(TargetFileHeader::try_from(line).is_err());
}

#[test]
fn diff_parse_valid_hunk() {
    let input = "@@ -1,7 +2,5 @@
                     context 1
                     context 2
                     context 3
                    -REMOVED
                    +ADDED
                     context 4
                     context 5
                     context 6
                    ";
    let input = prepare_lines(input);
    let hunk = Hunk::try_from(input.clone()).unwrap();
    assert_eq!(hunk.source_location().hunk_start(), 1);
    assert_eq!(hunk.source_location().hunk_length(), 7);
    assert_eq!(hunk.target_location().hunk_start(), 2);
    assert_eq!(hunk.target_location().hunk_length(), 5);

    assert_eq!(hunk.lines().len(), input.len() - 1);
    for (id, line) in input.into_iter().skip(1).enumerate() {
        let line = hunk_line(&line).unwrap();
        let parsed = hunk.lines().get(id).unwrap();
        assert_eq!(parsed.content(), line.content());
        assert_eq!(parsed.line_type(), line.line_type());
    }
}

#[test]
fn diff_parse_valid_hunk_with_eofs() {
    let input = "@@ -1,4 +1,3 @@
                     Line A
                     Line B
                    -Line C
                    -Line D
                    \\ No newline at end of file
                    +Line C
                    \\ No newline at end of file
                    ";
    let input = prepare_lines(input);
    let hunk = Hunk::try_from(input.clone()).unwrap();
    assert_eq!(hunk.source_location().hunk_start(), 1);
    assert_eq!(hunk.source_location().hunk_length(), 4);
    assert_eq!(hunk.target_location().hunk_start(), 1);
    assert_eq!(hunk.target_location().hunk_length(), 3);

    assert_eq!(hunk.lines().len(), input.len() - 1);
    for (id, line) in input.into_iter().skip(1).enumerate() {
        let line = hunk_line(&line).unwrap();
        let parsed = hunk.lines().get(id).unwrap();
        assert_eq!(parsed.content(), line.content());
        assert_eq!(parsed.line_type(), line.line_type());
    }
}

#[test]
fn diff_parse_file_diff_with_multiple_hunks() {
    let content = "diff -Naur version-A/long.txt version-B/long.txt
                       --- version-A/long.txt	2023-11-03 16:26:28.701847364 +0100
                       +++ version-B/long.txt	2023-11-03 16:26:37.168563729 +0100
                       @@ -1,7 +1,7 @@
                        context 1
                        context 2
                        context 3
                       -REMOVED
                       +ADDED
                        context 4
                        context 5
                        context 6
                       @@ -23,7 +23,7 @@
                        context 1
                        context 2
                        context 3
                       -REMOVED
                       +ADDED
                        context 4
                        context 5
                        context 6
                       ";
    let mut content = prepare_lines(content);
    content[0] = content[0].trim().to_string();
    let file_diff = FileDiff::try_from(content.clone()).unwrap();
    assert_eq!(file_diff.diff_command().0, content[0]);
    assert_eq!(
        file_diff.source_file_header().path_str(),
        "version-A/long.txt".to_string()
    );
    assert_eq!(
        file_diff.target_file_header().path_str(),
        "version-B/long.txt".to_string()
    );
    assert_eq!(
        file_diff.source_file_header().timestamp(),
        "2023-11-03 16:26:28.701847364 +0100".to_string()
    );
    assert_eq!(
        file_diff.target_file_header().timestamp(),
        "2023-11-03 16:26:37.168563729 +0100".to_string()
    );
    assert_eq!(file_diff.hunks().len(), 2);
}
