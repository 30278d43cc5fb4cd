use std::{path::PathBuf, str::FromStr};

use mpatch::matching::{matching_from_changes, LineChange, MatchOffset};
use mpatch::{FileArtifact, LCSMatcher, Matcher, Matching};

fn artifact(path: &str, lines: &[&str]) -> FileArtifact {
    FileArtifact::from_lines(
        PathBuf::from(path),
        lines.iter().map(|l| l.to_string()).collect(),
    )
}

#[test]
fn simple_matching() {
    // Initialze some simple FileArtifacts
    let file_a = FileArtifact::from_lines(
        PathBuf::from_str("file_a").unwrap(),
        vec![
            "SAME LINE".to_string(),
            "ANOTHER LINE".to_string(),
            "".to_string(),
        ],
    );
    let file_b = FileArtifact::from_lines(
        PathBuf::from_str("file_b").unwrap(),
        vec![
            "SAME LINE".to_string(),
            "ANOTHER LINE".to_string(),
            "".to_string(),
        ],
    );

    let mut matcher = LCSMatcher::new();
    let matching = matcher.match_files(file_a.clone(), file_b.clone());
    assert_eq!(matching.source(), &file_a);
    assert_eq!(matching.target(), &file_b);
    assert_eq!(Some(1), matching.target_index(1).unwrap());
    assert_eq!(Some(1), matching.source_index(1).unwrap());
    assert_eq!(Some(2), matching.target_index(2).unwrap());
    assert_eq!(Some(2), matching.source_index(2).unwrap());
}

#[test]
fn no_source_line_and_target_with_newline() {
    // Initialze some simple FileArtifacts
    let file_a = FileArtifact::from_lines(PathBuf::from_str("file_a").unwrap(), vec![]);
    let file_b = FileArtifact::from_lines(
        PathBuf::from_str("file_b").unwrap(),
        vec!["SAME LINE".to_string(), "".to_string()],
    );
    let mut matcher = LCSMatcher::new();
    let matching = matcher.match_files(file_a.clone(), file_b.clone());
    assert_eq!(None, matching.target_index(1));
    assert_eq!(Some(None), matching.source_index(1));
    assert_eq!(Some(None), matching.source_index(2));
}

#[test]
fn no_source_line_and_target_without_newline() {
    // Initialze some simple FileArtifacts
    let file_a = FileArtifact::from_lines(PathBuf::from_str("file_a").unwrap(), vec![]);
    let file_b = FileArtifact::from_lines(
        PathBuf::from_str("file_b").unwrap(),
        vec!["SAME LINE".to_string()],
    );
    let mut matcher = LCSMatcher::new();
    let matching = matcher.match_files(file_a.clone(), file_b.clone());
    assert_eq!(None, matching.target_index(1));
    assert_eq!(Some(None), matching.source_index(1));
    assert_eq!(None, matching.source_index(2));
}

#[test]
fn no_target_line_and_source_with_newline() {
    // Initialze some simple FileArtifacts
    let file_a = FileArtifact::from_lines(
        PathBuf::from_str("file_b").unwrap(),
        vec!["SAME LINE".to_string(), "".to_string()],
    );

    let file_b = FileArtifact::from_lines(PathBuf::from_str("file_a").unwrap(), vec![]);
    let mut matcher = LCSMatcher::new();
    let matching = matcher.match_files(file_a.clone(), file_b.clone());
    assert_eq!(Some(None), matching.target_index(1));
    assert_eq!(Some(None), matching.target_index(2));
    assert_eq!(None, matching.source_index(1));
}

#[test]
fn no_target_line_and_source_without_newline() {
    // Initialze some simple FileArtifacts
    let file_a = FileArtifact::from_lines(
        PathBuf::from_str("file_b").unwrap(),
        vec!["SAME LINE".to_string()],
    );

    let file_b = FileArtifact::from_lines(PathBuf::from_str("file_a").unwrap(), vec![]);
    let mut matcher = LCSMatcher::new();
    let matching = matcher.match_files(file_a.clone(), file_b.clone());
    assert_eq!(Some(None), matching.target_index(1));
    assert_eq!(None, matching.target_index(2));
    assert_eq!(None, matching.source_index(1));
}

#[test]
fn target_with_newline() {
    // Initialze some simple FileArtifacts
    let file_a = FileArtifact::from_lines(
        PathBuf::from_str("file_a").unwrap(),
        vec!["SAME LINE".to_string()],
    );
    let file_b = FileArtifact::from_lines(
        PathBuf::from_str("file_b").unwrap(),
        vec![
            "SAME LINE".to_string(),
            "ANOTHER LINE".to_string(),
            "".to_string(),
        ],
    );
    let mut matcher = LCSMatcher::new();
    let matching = matcher.match_files(file_a.clone(), file_b.clone());
    assert_eq!(None, matching.target_index(2));
    assert_eq!(Some(None), matching.source_index(3));
}

#[test]
fn source_with_newline() {
    // Initialze some simple FileArtifacts
    let file_a = FileArtifact::from_lines(
        PathBuf::from_str("file_a").unwrap(),
        vec!["SAME LINE".to_string(), "".to_string()],
    );
    let file_b = FileArtifact::from_lines(
        PathBuf::from_str("file_b").unwrap(),
        vec!["SAME LINE".to_string(), "ANOTHER LINE".to_string()],
    );
    let mut matcher = LCSMatcher::new();
    let matching = matcher.match_files(file_a.clone(), file_b.clone());
    assert_eq!(Some(None), matching.target_index(2));
    assert_eq!(None, matching.source_index(3));
}

#[test]
fn source_and_target_with_newline() {
    // Initialze some simple FileArtifacts
    let file_a = FileArtifact::from_lines(
        PathBuf::from_str("file_a").unwrap(),
        vec!["SOURCE LINE".to_string(), "".to_string()],
    );
    let file_b = FileArtifact::from_lines(
        PathBuf::from_str("file_b").unwrap(),
        vec!["TARGET LINE".to_string(), "".to_string()],
    );
    let mut matcher = LCSMatcher::new();
    let matching = matcher.match_files(file_a.clone(), file_b.clone());
    assert_eq!(Some(None), matching.target_index(1));
    assert_eq!(Some(None), matching.source_index(1));
    assert_eq!(Some(Some(2)), matching.target_index(2));
    assert_eq!(Some(Some(2)), matching.source_index(2));
}

#[test]
fn file_matches_itself() {
    let lines = ["int main() {", "  return 0;", "}", "", "// end", ""];
    let file_a = artifact("main.c", &lines);
    let file_b = artifact("main.c", &lines);

    let mut matcher = LCSMatcher::default();
    let matching = matcher.match_files(file_a, file_b);
    // The last line is empty: the text ends with a line ending, and the
    // empty line after it is matched as well.
    for index in 1..=lines.len() {
        assert_eq!(Some(Some(index)), matching.target_index(index));
        assert_eq!(Some(Some(index)), matching.source_index(index));
    }
    assert_eq!(None, matching.target_index(lines.len() + 1));
    assert_eq!(None, matching.source_index(lines.len() + 1));
    assert_eq!(None, matching.target_index(0));
    assert_eq!(None, matching.source_index(0));
}

#[test]
fn matching_is_symmetric_on_drifted_files() {
    let source = artifact("a", &["one", "two", "three", "four", "five"]);
    let target = artifact("b", &["zero", "one", "three", "3.5", "four", "six", "five"]);
    let mut matcher = LCSMatcher::new();
    let matching = matcher.match_files(source, target);
    let expected = [Some(2), None, Some(3), Some(5), Some(7)];
    for (i, e) in expected.iter().enumerate() {
        assert_eq!(Some(*e), matching.target_index(i + 1));
    }
    for i in 1..=5 {
        if let Some(Some(j)) = matching.target_index(i) {
            assert_eq!(Some(Some(i)), matching.source_index(j));
        }
    }
    for j in 1..=7 {
        if let Some(Some(i)) = matching.source_index(j) {
            assert_eq!(Some(Some(j)), matching.target_index(i));
        }
    }
}

#[test]
fn matching_is_built_from_the_changes() {
    let change = |old, new, missing_newline| LineChange {
        old_index: old,
        new_index: new,
        missing_newline,
    };
    let changes = vec![
        change(Some(0), Some(0), false),
        change(Some(1), None, false),
        change(None, Some(1), false),
        change(Some(2), Some(2), true),
    ];
    let matching = matching_from_changes(artifact("a", &[]), artifact("b", &[]), &changes);
    assert_eq!(Some(Some(1)), matching.target_index(1));
    assert_eq!(Some(None), matching.target_index(2));
    assert_eq!(Some(Some(3)), matching.target_index(3));
    assert_eq!(None, matching.target_index(4));
    assert_eq!(Some(Some(1)), matching.source_index(1));
    assert_eq!(Some(None), matching.source_index(2));
    assert_eq!(Some(Some(3)), matching.source_index(3));
    assert_eq!(None, matching.source_index(4));
}

#[test]
fn changes_out_of_sequence_match_nothing() {
    let changes = vec![
        LineChange {
            old_index: Some(0),
            new_index: Some(0),
            missing_newline: false,
        },
        LineChange {
            old_index: Some(5),
            new_index: Some(1),
            missing_newline: false,
        },
    ];
    let matching = matching_from_changes(artifact("a", &[]), artifact("b", &[]), &changes);
    assert_eq!(None, matching.target_index(1));
    assert_eq!(None, matching.source_index(1));
}

#[test]
fn fuzzy_lookup_anchors_below_the_nearest_match_above() {
    // Source lines 1 and 2 are matched to target lines 4 and 5; the source
    // lines 3 to 7 have no match.
    let matching = Matching::new(
        artifact("a", &[]),
        artifact("b", &[]),
        vec![Some(4), Some(5), None, None, None, None, None],
        vec![None, None, None, Some(1), Some(2)],
    );
    let fuzzy = |line| {
        let (id, MatchOffset(offset)) = matching.target_index_fuzzy(line);
        (id, offset)
    };
    assert_eq!((Some(4), 0), fuzzy(1));
    assert_eq!((Some(5), 0), fuzzy(2));
    assert_eq!((Some(6), 1), fuzzy(3));
    assert_eq!((Some(6), 5), fuzzy(7));
    // Lines past the end of the matching are anchored in the same way.
    assert_eq!((Some(6), 8), fuzzy(10));
    assert_eq!((None, 0), fuzzy(0));

    let unmatched = Matching::new(
        artifact("a", &[]),
        artifact("b", &[]),
        vec![None, None, None],
        vec![],
    );
    let (id, MatchOffset(offset)) = unmatched.target_index_fuzzy(3);
    assert_eq!((None, 3), (id, offset));
    assert_eq!(Some(None), unmatched.target_index(3));
    assert_eq!(None, unmatched.target_index(4));
}

#[test]
fn matching_hands_its_files_back() {
    let source = artifact("a", &["x"]);
    let target = artifact("b", &["y"]);
    let matching = Matching::new(source.clone(), target.clone(), vec![None], vec![None]);
    assert_eq!(&source, matching.source());
    assert_eq!(&target, matching.target());
    let other = Matching::new(source.clone(), target.clone(), vec![None], vec![None]);
    assert_eq!(source, matching.into_source());
    assert_eq!(target, other.into_target());
}

struct NaiveMatcher;

impl Matcher for NaiveMatcher {
    fn match_files(&mut self, source: FileArtifact, target: FileArtifact) -> Matching {
        let mut source_to_target = Vec::with_capacity(source.len());
        let mut target_to_source = Vec::with_capacity(target.len());

        // Each line is matched to the line with the same number if the two
        // have the same content. The first line has the number one.
        for (index, (source_line, target_line)) in
            source.lines().iter().zip(target.lines()).enumerate()
        {
            if source_line == target_line {
                source_to_target.push(Some(index + 1));
                target_to_source.push(Some(index + 1));
            } else {
                source_to_target.push(None);
                target_to_source.push(None);
            }
        }
        Matching::new(source, target, source_to_target, target_to_source)
    }
}

#[test]
fn a_matcher_of_ones_own() {
    let file_a = artifact("file_a", &["SAME LINE", "DIFFERENT LINE"]);
    let file_b = artifact("file_b", &["SAME LINE", "DIFFERENT    LINE"]);

    let mut matcher = NaiveMatcher;
    let matching = matcher.match_files(file_a, file_b);

    // The first line matches
    assert_eq!(matching.target_index(1).unwrap(), Some(1));
    assert_eq!(matching.source_index(1).unwrap(), Some(1));

    // The second line does not match; there is no matching for source and target
    assert_eq!(matching.target_index(2).unwrap(), None);
    assert_eq!(matching.source_index(2).unwrap(), None);

    // There is no matching for a third line, because there was no third line in both files
    assert!(matching.target_index(3).is_none());
    assert!(matching.source_index(3).is_none());
}

#[test]
fn a_matching_holds_line_numbers() {
    let lines = ["one", "two"];
    let matching = Matching::new(
        artifact("a", &lines),
        artifact("b", &lines),
        vec![Some(1), None],
        vec![Some(1), None],
    );
    assert_eq!(Some(Some(1)), matching.target_index(1));
    assert_eq!(Some(Some(1)), matching.source_index(1));
    assert_eq!(Some(None), matching.target_index(2));
    assert_eq!(None, matching.target_index(3));
    let (id, MatchOffset(offset)) = matching.target_index_fuzzy(2);
    assert_eq!((Some(2), 1), (id, offset));
}
