use difftastic_nvim::command::CommandOutput;
use difftastic_nvim::display_path::split_display_path;
use difftastic_nvim::renames::{
    git_rename_map, jj_rename_map, parse_git_name_status_rename, parse_git_name_status_renames,
    parse_jj_summary_rename, parse_jj_summary_renames,
};

fn split(path: &str) -> (String, String) {
    split_display_path(path)
}

fn pair(a: &str, b: &str) -> (String, String) {
    (a.to_string(), b.to_string())
}

#[test]
fn test_split_display_path_plain() {
    let (old, new) = split_display_path("src/lib.rs");
    assert_eq!(old, "src/lib.rs");
    assert_eq!(new, "src/lib.rs");
}

#[test]
fn test_split_display_path_arrow() {
    let (old, new) = split_display_path("src/old.rs => src/new.rs");
    assert_eq!(old, "src/old.rs");
    assert_eq!(new, "src/new.rs");
}

#[test]
fn test_split_display_path_brace() {
    let (old, new) = split_display_path("src/{old => new}.rs");
    assert_eq!(old, "src/old.rs");
    assert_eq!(new, "src/new.rs");
}

#[test]
fn single_arrows_split_too() {
    assert_eq!(split("a.rs -> b.rs"), pair("a.rs", "b.rs"));
    assert_eq!(split("x/{a -> b}/y"), pair("x/a/y", "x/b/y"));
}

#[test]
fn double_arrows_come_first() {
    assert_eq!(split("a -> b => c"), pair("a -> b", "c"));
    assert_eq!(split(" -> b => c"), pair("-> b", "c"));
}

#[test]
fn sides_that_are_blank_do_not_count() {
    assert_eq!(split("  => b"), pair("  => b", "  => b"));
    assert_eq!(split("{ => new}.rs"), pair("{", "new}.rs"));
    assert_eq!(split("src/{ => new}/x"), pair("src/{", "new}/x"));
}

#[test]
fn whitespace_around_the_sides_is_dropped() {
    assert_eq!(split("\u{3000}a =>  b\t"), pair("a", "b"));
}

#[test]
fn braces_are_the_first_and_the_last() {
    assert_eq!(split("a{b{c => d}e}f"), pair("ab{cf", "ad}ef"));
    assert_eq!(split("}a => b{"), pair("}a", "b{"));
    assert_eq!(split("{plain}"), pair("{plain}", "{plain}"));
}

#[test]
fn names_beyond_ascii_are_kept_whole() {
    assert_eq!(split("über/{älter => neuer}.rs"), pair("über/älter.rs", "über/neuer.rs"));
}

#[test]
fn test_parse_jj_summary_rename_simple() {
    let parsed = parse_jj_summary_rename("R src/old.rs => src/new.rs").unwrap();
    assert_eq!(parsed.0, "src/old.rs");
    assert_eq!(parsed.1, "src/new.rs");
}

#[test]
fn test_parse_jj_summary_rename_brace() {
    let parsed = parse_jj_summary_rename("R src/{old => new}.rs").unwrap();
    assert_eq!(parsed.0, "src/old.rs");
    assert_eq!(parsed.1, "src/new.rs");
}

#[test]
fn test_parse_jj_summary_renames_map() {
    let renames = parse_jj_summary_renames("R a.txt => b.txt\nA c.txt\n");
    assert_eq!(renames.get("b.txt"), Some(&"a.txt".to_string()));
    assert!(!renames.contains("c.txt"));
}

#[test]
fn jj_lines_without_a_move_are_no_renames() {
    assert_eq!(parse_jj_summary_rename("M a => b"), None);
    assert_eq!(parse_jj_summary_rename("R a.txt"), None);
    assert_eq!(parse_jj_summary_rename("R a/b => a//b/"), None);
    assert_eq!(parse_jj_summary_rename("  R a => b  "), Some(pair("a", "b")));
}

#[test]
fn test_parse_git_name_status_rename() {
    let parsed = parse_git_name_status_rename("R100\tsrc/old.rs\tsrc/new.rs").unwrap();
    assert_eq!(parsed.0, "src/old.rs");
    assert_eq!(parsed.1, "src/new.rs");
}

#[test]
fn test_parse_git_name_status_renames_map() {
    let renames = parse_git_name_status_renames("R090\ta.txt\tb.txt\nM c.txt\n");
    assert_eq!(renames.get("b.txt"), Some(&"a.txt".to_string()));
    assert!(!renames.contains("c.txt"));
}

#[test]
fn git_lines_that_are_no_renames() {
    assert_eq!(parse_git_name_status_rename(""), None);
    assert_eq!(parse_git_name_status_rename("R100\ta"), None);
    assert_eq!(parse_git_name_status_rename("C100\ta\tb"), None);
    assert_eq!(parse_git_name_status_rename("R100\t \tb"), None);
    assert_eq!(parse_git_name_status_rename("R100\ta\tb\tc"), Some(pair("a", "b")));
}

#[test]
fn the_last_rename_to_a_path_counts() {
    let renames = parse_git_name_status_renames("R1\ta\tx\nR1\tb\tx/\n");
    assert_eq!(renames.get("./x"), None);
    assert_eq!(renames.get("x"), Some(&"b".to_string()));
    assert_eq!(renames.entries.len(), 1);
}

#[test]
fn renames_come_from_commands_that_succeeded() {
    let output = |code: i32, stdout: &str| {
        Some(CommandOutput {
            code: Some(code),
            stdout: stdout.as_bytes().to_vec(),
            stderr: Vec::new(),
        })
    };
    assert!(git_rename_map(&output(0, "R1\ta\tb\n")).contains("b"));
    assert!(jj_rename_map(&output(0, "R a => b\n")).contains("b"));
    assert!(git_rename_map(&output(1, "R1\ta\tb\n")).entries.is_empty());
    assert!(jj_rename_map(&None).entries.is_empty());
}
