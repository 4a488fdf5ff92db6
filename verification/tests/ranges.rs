use difftastic_nvim::command::CommandOutput;
use difftastic_nvim::range::{
    jj_revisions, jj_stats_range, jj_to_git_commit, merge_base_operands, parse_commit_id,
    parse_git_range, parse_jj_range,
};

const COMMIT: &str = "0123456789abcdefABCDEF0123456789abcdef01";

fn text(s: &str) -> String {
    s.to_string()
}

#[test]
fn test_parse_git_range_single_commit() {
    let (old, new) = parse_git_range("abc123", None);
    assert_eq!(old, "abc123^");
    assert_eq!(new, "abc123");
}

#[test]
fn test_parse_git_range_double_dot() {
    let (old, new) = parse_git_range("main..feature", None);
    assert_eq!(old, "main");
    assert_eq!(new, "feature");
}

#[test]
fn test_parse_git_range_empty_left() {
    let (old, new) = parse_git_range("..HEAD", None);
    assert_eq!(old, "");
    assert_eq!(new, "HEAD");
}

#[test]
fn three_dots_start_at_the_merge_base() {
    assert_eq!(parse_git_range("a...b", Some(text("base"))), (text("base"), text("b")));
    assert_eq!(parse_git_range("a...b", None), (text("a^"), text("b")));
    assert_eq!(merge_base_operands("a...b"), Some((text("a"), text("b"))));
    assert_eq!(merge_base_operands("a..b"), None);
}

#[test]
fn the_merge_base_does_not_matter_elsewhere() {
    assert_eq!(parse_git_range("a..b", Some(text("base"))), (text("a"), text("b")));
    assert_eq!(parse_git_range("a", Some(text("base"))), (text("a^"), text("a")));
}

#[test]
fn only_the_first_dots_split() {
    assert_eq!(parse_git_range("a..b..c", None), (text("a"), text("b..c")));
    assert_eq!(parse_git_range("a....b", None), (text("a^"), text(".b")));
}

#[test]
fn test_parse_jj_range_double_dot() {
    let (old, new) = parse_jj_range("main@origin..@").unwrap();
    assert_eq!(old, "main@origin");
    assert_eq!(new, "@");
}

#[test]
fn test_parse_jj_range_non_range() {
    assert!(parse_jj_range("@").is_none());
}

#[test]
fn jj_ranges_need_both_ends() {
    assert_eq!(parse_jj_range("..@"), None);
    assert_eq!(parse_jj_range("main.."), None);
}

#[test]
fn jj_revsets_start_before_their_roots() {
    assert_eq!(jj_revisions("a..b"), (text("a"), text("b")));
    assert_eq!(jj_revisions("@"), (text("roots(@)-"), text("heads(@)")));
    assert_eq!(jj_revisions("..@"), (text("roots(..@)-"), text("heads(..@)")));
}

#[test]
fn lines_are_counted_between_the_commits() {
    let (a, b) = (Some(text("a1")), Some(text("b2")));
    assert_eq!(jj_stats_range("@", a.clone(), b.clone()), Some(text("a1..b2")));
    assert_eq!(jj_stats_range("@", None, b.clone()), Some(text("b2^..b2")));
    assert_eq!(jj_stats_range("x..y", None, b.clone()), None);
    assert_eq!(jj_stats_range("x..y", a.clone(), b), Some(text("a1..b2")));
    assert_eq!(jj_stats_range("@", a, None), None);
}

#[test]
fn a_commit_id_is_read_back() {
    assert_eq!(parse_commit_id(COMMIT), Some(text(COMMIT)));
    assert_eq!(parse_commit_id(&format!("\n  {COMMIT} \r\n\n")), Some(text(COMMIT)));
}

#[test]
fn anything_but_one_commit_id_is_none() {
    assert_eq!(parse_commit_id(""), None);
    assert_eq!(parse_commit_id(&format!("{COMMIT}\n{COMMIT}\n")), None);
    assert_eq!(parse_commit_id(&COMMIT[1..]), None);
    assert_eq!(parse_commit_id(&format!("{COMMIT}0")), None);
    assert_eq!(parse_commit_id(&format!("g{}", &COMMIT[1..])), None);
}

#[test]
fn a_commit_comes_from_a_command_that_succeeded() {
    let output = |code: i32| {
        Some(CommandOutput {
            code: Some(code),
            stdout: COMMIT.as_bytes().to_vec(),
            stderr: Vec::new(),
        })
    };
    assert_eq!(jj_to_git_commit(&output(0)), Some(text(COMMIT)));
    assert_eq!(jj_to_git_commit(&output(1)), None);
    assert_eq!(jj_to_git_commit(&None), None);
}
