use aos_realm::grep::{GREP_MAX_MATCHES, grep_content};

#[test]
fn basic_match() {
    let mut matches = Vec::new();
    grep_content(
        "test.rs",
        "hello foo bar\nbaz\nfoo again",
        "foo",
        &mut matches,
    );
    assert_eq!(matches.len(), 2);
    assert_eq!(matches[0], "test.rs:1:hello foo bar");
    assert_eq!(matches[1], "test.rs:3:foo again");
}

#[test]
fn no_match() {
    let mut matches = Vec::new();
    grep_content("test.rs", "hello\nworld\n", "xyz", &mut matches);
    assert!(matches.is_empty());
}

#[test]
fn first_and_last_line() {
    let mut matches = Vec::new();
    grep_content("f.txt", "hit first\nmiss\nhit last", "hit", &mut matches);
    assert_eq!(matches.len(), 2);
    assert_eq!(matches[0], "f.txt:1:hit first");
    assert_eq!(matches[1], "f.txt:3:hit last");
}

#[test]
fn respects_max_matches() {
    let mut matches = Vec::new();
    for i in 0..GREP_MAX_MATCHES - 1 {
        matches.push(format!("pre:{i}:filler"));
    }
    grep_content("f.txt", "x\nx\nx\n", "x", &mut matches);
    assert_eq!(matches.len(), GREP_MAX_MATCHES);
    assert_eq!(matches[GREP_MAX_MATCHES - 1], "f.txt:1:x");
}

#[test]
fn literal_regex_chars() {
    let mut matches = Vec::new();
    grep_content("f.txt", "literal .* here\nno match", ".*", &mut matches);
    assert_eq!(matches.len(), 1);
    assert_eq!(matches[0], "f.txt:1:literal .* here");
}

#[test]
fn dot_is_literal() {
    let mut matches = Vec::new();
    grep_content("f.txt", "has a dot.\nno dot here? yes", ".", &mut matches);
    assert_eq!(matches.len(), 1);
    assert_eq!(matches[0], "f.txt:1:has a dot.");
}

#[test]
fn empty_content() {
    let mut matches = Vec::new();
    grep_content("f.txt", "", "x", &mut matches);
    assert!(matches.is_empty());
}

#[test]
fn single_line_no_newline() {
    let mut matches = Vec::new();
    grep_content("f.txt", "hello world", "hello", &mut matches);
    assert_eq!(matches.len(), 1);
    assert_eq!(matches[0], "f.txt:1:hello world");
}

#[test]
fn earlier_matches_stay_in_front() {
    let mut matches = vec!["a:1:x".to_string()];
    grep_content("f.txt", "no\nan x\r\nno", "x", &mut matches);
    assert_eq!(matches, ["a:1:x", "f.txt:2:an x"]);
}
