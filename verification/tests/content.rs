use difftastic_nvim::command::CommandOutput;
use difftastic_nvim::content::into_lines;
use difftastic_nvim::difft::Status;
use difftastic_nvim::language::language_from_ext;
use difftastic_nvim::stats::{git_diff_stats, parse_numstat};
use difftastic_nvim::text::{fields, join, split_once, strip_prefix, trim};
use difftastic_nvim::untracked::{git_untracked_files, untracked_command, untracked_file};

fn output(code: i32, stdout: &str) -> Option<CommandOutput> {
    Some(CommandOutput {
        code: Some(code),
        stdout: stdout.as_bytes().to_vec(),
        stderr: Vec::new(),
    })
}

#[test]
fn test_into_lines_with_content() {
    let lines = into_lines(Some("line1\nline2\nline3".to_string()));
    assert_eq!(lines, vec!["line1", "line2", "line3"]);
}

#[test]
fn test_into_lines_empty() {
    let lines = into_lines(None);
    assert!(lines.is_empty());
}

#[test]
fn test_into_lines_single_line() {
    let lines = into_lines(Some("single".to_string()));
    assert_eq!(lines, vec!["single"]);
}

#[test]
fn line_ends_do_not_belong_to_lines() {
    assert_eq!(into_lines(Some("a\r\n\r\nb\n".to_string())), vec!["a", "", "b"]);
    assert_eq!(into_lines(Some("a\rb\r".to_string())), vec!["a\rb\r"]);
    assert_eq!(into_lines(Some("\n".to_string())), vec![""]);
    assert!(into_lines(Some(String::new())).is_empty());
}

#[test]
fn text_is_split_and_joined() {
    assert_eq!(fields("a\t\tb", '\t'), vec!["a", "", "b"]);
    assert_eq!(fields("", '\t'), vec![""]);
    assert_eq!(split_once("aXXXb", "XX"), Some(("a".to_string(), "Xb".to_string())));
    assert_eq!(strip_prefix("R x", "R "), Some("x".to_string()));
    assert_eq!(strip_prefix("R", "R "), None);
    assert_eq!(trim("\u{a0}\u{2003} é \u{85}\n"), "é");
    assert_eq!(trim(" \t"), "");
    let parts = vec!["a".to_string(), String::new(), "ü".to_string()];
    assert_eq!(join(&parts, ", "), "a, , ü");
    assert_eq!(join(&Vec::new(), ", "), "");
}

#[test]
fn numstat_lines_are_read() {
    let stats = parse_numstat("3\t4\tsrc/a.rs\n-\t-\timage.png\n0\t+7\tb\textra\nx\n1\t2\n");
    assert_eq!(stats.get("src/a.rs"), Some(&(3, 4)));
    assert_eq!(stats.get("image.png"), None);
    assert_eq!(stats.get("b"), Some(&(0, 7)));
    assert_eq!(stats.entries.len(), 2);
}

#[test]
fn numstat_counts_fit_in_32_bits() {
    assert_eq!(parse_numstat("4294967295\t0\ta").get("a"), Some(&(4294967295, 0)));
    assert_eq!(parse_numstat("4294967296\t0\ta").get("a"), None);
    assert_eq!(parse_numstat("-1\t0\ta").get("a"), None);
}

#[test]
fn stats_come_from_a_command_that_succeeded() {
    assert_eq!(git_diff_stats(&output(0, "1\t2\ta\n")).get("a"), Some(&(1, 2)));
    assert!(git_diff_stats(&output(128, "1\t2\ta\n")).entries.is_empty());
    assert!(git_diff_stats(&None).entries.is_empty());
}

#[test]
fn untracked_files_are_listed_one_to_a_line() {
    assert_eq!(git_untracked_files(&output(0, "a.rs\n\nb c.txt\n")), vec!["a.rs", "b c.txt"]);
    assert!(git_untracked_files(&output(1, "a.rs\n")).is_empty());
    assert!(git_untracked_files(&None).is_empty());
}

#[test]
fn only_git_has_untracked_files() {
    let command = untracked_command("git").unwrap();
    assert_eq!(command.program, "git");
    assert_eq!(
        command.args,
        vec!["ls-files", "--others", "--exclude-standard", "--full-name", ":/"]
    );
    assert!(!command.json_output);
    assert!(untracked_command("jj").is_none());
}

#[test]
fn untracked_files_are_created() {
    let shown = untracked_file("src/a.py".to_string(), Some("x\ny\n".to_string())).unwrap();
    assert_eq!(shown.file.path, "src/a.py");
    assert_eq!(shown.file.language, "Python");
    assert_eq!(shown.file.status, Status::Created);
    assert!(shown.file.aligned_lines.is_empty() && shown.file.chunks.is_empty());
    assert_eq!(shown.new_lines, vec!["x", "y"]);
    assert_eq!((shown.added, shown.deleted), (2, 0));
    assert!(untracked_file("a".to_string(), None).is_none());
}

#[test]
fn languages_go_by_extension() {
    let cases = [
        ("a.rs", "Rust"),
        ("x/y.lua", "Lua"),
        ("Cargo.toml", "TOML"),
        ("a.json", "JSON"),
        ("a.js", "JavaScript"),
        ("a.mjs", "JavaScript"),
        ("a.cjs", "JavaScript"),
        ("a.ts", "TypeScript"),
        ("a.mts", "TypeScript"),
        ("a.cts", "TypeScript"),
        ("a.py", "Python"),
        ("a.go", "Go"),
        ("a.c", "C"),
        ("a.h", "C"),
        ("a.cpp", "C++"),
        ("a.cc", "C++"),
        ("a.cxx", "C++"),
        ("a.hpp", "C++"),
        ("a.java", "Java"),
        ("a.rb", "Ruby"),
        ("a.sh", "Shell"),
        ("a.bash", "Shell"),
        ("a.zsh", "Shell"),
        ("a.md", "Markdown"),
        ("a.yml", "YAML"),
        ("a.yaml", "YAML"),
        ("a.html", "HTML"),
        ("a.htm", "HTML"),
        ("a.css", "CSS"),
        ("a.clj", "Clojure"),
        ("a.cljs", "Clojure"),
        ("a.RS", "Text"),
        ("Makefile", "Text"),
        (".rs", "Text"),
        ("a.tar.rs", "Rust"),
        ("a.rs/", "Rust"),
        ("dir.rs/file", "Text"),
        ("..", "Text"),
        ("", "Text"),
    ];
    for (path, language) in cases {
        assert_eq!(language_from_ext(path), language, "{path}");
    }
}
