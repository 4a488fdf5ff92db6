use std::path::PathBuf;

use difftastic_nvim::number::{parse_u32, write_decimal, write_signed};
use difftastic_nvim::path::{components, extension, file_name, paths_equal};
use difftastic_nvim::path_order::{path_precedes, sort_paths};
use difftastic_nvim::table::PathTable;

fn list(paths: &[&str]) -> Vec<String> {
    paths.iter().map(|p| p.to_string()).collect()
}

#[test]
fn components_leave_out_what_does_not_count() {
    assert_eq!(components("/a//./b/../c/"), list(&["/", "a", "b", "..", "c"]));
    assert_eq!(components("./a/."), list(&[".", "a"]));
    assert_eq!(components(""), list(&[]));
}

#[test]
fn paths_are_equal_by_their_components() {
    assert!(paths_equal("a/b", "a//b/"));
    assert!(paths_equal("a/./b", "a/b"));
    assert!(!paths_equal("./a", "a"));
    assert!(!paths_equal("/a", "a"));
    assert!(!paths_equal("a/b", "a/b/c"));
}

#[test]
fn names_and_extensions() {
    assert_eq!(file_name("src/lib.rs"), Some("lib.rs".to_string()));
    assert_eq!(file_name("src/"), Some("src".to_string()));
    assert_eq!(file_name("src/.."), None);
    assert_eq!(file_name("/"), None);
    assert_eq!(file_name("."), None);
    assert_eq!(extension("src/lib.rs"), Some("rs".to_string()));
    assert_eq!(extension("a.tar.gz"), Some("gz".to_string()));
    assert_eq!(extension("a."), Some(String::new()));
    assert_eq!(extension(".profile"), None);
    assert_eq!(extension("Makefile"), None);
}

#[test]
fn paths_are_sorted_as_std_sorts_them() {
    let given = list(&["b", "a/b", "a.b", "a", "/a", "../a", "./a", "a/a", "a//b", "ab", "Z"]);
    let mut expected: Vec<PathBuf> = given.iter().map(PathBuf::from).collect();
    expected.sort();
    expected.dedup();
    let sorted = sort_paths(&given);
    let sorted: Vec<PathBuf> = sorted.iter().map(PathBuf::from).collect();
    assert_eq!(sorted, expected);
    assert!(path_precedes("a/b", "a.b"));
    assert!(!path_precedes("a", "a"));
}

#[test]
fn numbers_are_written_and_read() {
    assert_eq!(write_decimal(0), "0");
    assert_eq!(write_decimal(u64::MAX), "18446744073709551615");
    assert_eq!(write_signed(-1), "-1");
    assert_eq!(write_signed(i32::MIN), "-2147483648");
    assert_eq!(parse_u32("0012"), Some(12));
    assert_eq!(parse_u32("+5"), Some(5));
    assert_eq!(parse_u32(""), None);
    assert_eq!(parse_u32("+"), None);
    assert_eq!(parse_u32("1a"), None);
}

#[test]
fn tables_keep_one_entry_for_a_path() {
    let mut table: PathTable<u32> = PathTable::new();
    table.insert("a/b".to_string(), 1);
    table.insert("c".to_string(), 2);
    table.insert("a//b".to_string(), 3);
    assert_eq!(table.get("a/b/"), Some(&3));
    assert_eq!(table.get("c"), Some(&2));
    assert_eq!(table.get("d"), None);
    assert_eq!(table.find("c"), Some(1));
    assert_eq!(table.paths(), list(&["a/b", "c"]));
    assert!(table.contains("c") && !table.contains("d"));
}
