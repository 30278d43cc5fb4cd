use std::path::PathBuf;
use std::str::FromStr;

use mpatch::io::StrippedPath;
use mpatch::FileArtifact;

const TEST_CONTENT: &str = r"hello
        oh beautiful
        world!

        ";

#[test]
// Assure that the content of a file is not manipulated by pure read and write operations
fn io_read_write_equality() {
    let test_content = TEST_CONTENT.to_string();

    let artifact = FileArtifact::parse_content(PathBuf::from("UNUSED PATH"), &test_content);

    assert_eq!(test_content, artifact.to_string());
    assert!(!artifact.is_empty());
    assert_eq!(5, artifact.len());
}

#[test]
fn files_read_write_equality() {
    let test_content = TEST_CONTENT.to_string();

    let artifact = FileArtifact::parse_content(PathBuf::from("UNUSED PATH"), &test_content);

    assert_eq!(test_content, artifact.to_string());
}

#[test]
fn new_artifact_is_empty() {
    let artifact = FileArtifact::new(PathBuf::from("some/file"));
    assert!(artifact.is_empty());
    assert_eq!(0, artifact.len());
    assert_eq!("", artifact.to_string());
    assert_eq!(&PathBuf::from("some/file"), artifact.path());
}

#[test]
fn artifact_from_lines_keeps_lines_and_path() {
    let lines = vec!["a".to_string(), "".to_string(), "b".to_string()];
    let artifact = FileArtifact::from_lines(PathBuf::from("x"), lines.clone());
    assert_eq!(3, artifact.len());
    assert_eq!(lines.as_slice(), artifact.lines());
    assert_eq!("a\n\nb", artifact.to_string());
    let (path, into) = artifact.clone().into_path_and_lines();
    assert_eq!(PathBuf::from("x"), path);
    assert_eq!(lines, into);
    assert_eq!(lines, artifact.into_lines());
}

#[test]
fn parse_content_splits_like_lines() {
    let parse = |text: &str| {
        FileArtifact::parse_content(PathBuf::from("p"), text).into_lines()
    };
    assert_eq!(Vec::<String>::new(), parse(""));
    assert_eq!(vec!["a"], parse("a"));
    assert_eq!(vec!["a"], parse("a\n"));
    assert_eq!(vec!["a", ""], parse("a\n\n"));
    assert_eq!(vec!["a", "b"], parse("a\r\nb\r\n"));
    assert_eq!(vec!["a\rb", "c\r"], parse("a\rb\nc\r"));
    assert_eq!(vec![""], parse("\n"));
    assert_eq!(vec!["\u{e4}\u{20ac}", "x"], parse("\u{e4}\u{20ac}\nx"));
}

#[test]
fn io_path_strip_single() {
    let path = PathBuf::from_str("hello/world").unwrap();
    assert_eq!(path.strip_cloned(1).to_str().unwrap(), "world");
    assert_eq!(path.strip_cloned(2).to_str().unwrap(), "");
}

#[test]
fn io_path_strip_multiple() {
    let path = PathBuf::from_str("hello/world/you//are/beautiful").unwrap();
    assert_eq!(path.strip_cloned(2).to_str().unwrap(), "you/are/beautiful");
    assert_eq!(path.strip_cloned(5).to_str().unwrap(), "");
}

#[test]
fn io_from_stripped() {
    let path = PathBuf::from_str("hello/world").unwrap();
    let stripped = PathBuf::strip_cloned(&path, 1);
    assert_eq!(stripped.to_str().unwrap(), "world");
    let stripped = PathBuf::strip_cloned(&path, 2);
    assert_eq!(stripped.to_str().unwrap(), "");
}

#[test]
fn files_path_strip_single() {
    let path = PathBuf::from_str("hello/world").unwrap();
    let path = path.strip_cloned(1);
    assert_eq!(path.to_str().unwrap(), "world");
    let path = path.strip_cloned(1);
    assert_eq!(path.to_str().unwrap(), "");
}

#[test]
fn files_path_strip_multiple() {
    let path = PathBuf::from_str("hello/world/you//are/beautiful").unwrap();
    let path = path.strip_cloned(2);
    assert_eq!(path.to_str().unwrap(), "you/are/beautiful");
    let path = path.strip_cloned(3);
    assert_eq!(path.to_str().unwrap(), "");
}

#[test]
fn files_from_stripped() {
    let path = PathBuf::from_str("hello/world").unwrap();
    let stripped = path.strip_cloned(1);
    assert_eq!(stripped.to_str().unwrap(), "world");
    let stripped = path.strip_cloned(2);
    assert_eq!(stripped.to_str().unwrap(), "");
}

#[test]
fn stripping_keeps_the_parts_in_order() {
    let path = PathBuf::from("/usr/./local//lib/");
    assert_eq!(PathBuf::from("/usr/local/lib"), path.strip_cloned(0));
    assert_eq!(PathBuf::from("usr/local/lib"), path.strip_cloned(1));
    assert_eq!(PathBuf::from("lib"), path.strip_cloned(3));
    assert_eq!(PathBuf::from(""), path.strip_cloned(4));
    assert_eq!(PathBuf::from(""), path.strip_cloned(usize::MAX));
}
