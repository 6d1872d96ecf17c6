use witch::exact::{display_path, file_name_of, find_exact, skip_dir, ExactSearch, Match};
use witch::path::{absolute, join_path, starts_with};

fn dirs(list: &[&str]) -> Vec<String> {
    list.iter().map(|d| d.to_string()).collect()
}

#[test]
fn returns_first_match_when_not_all() {
    let d = dirs(&["/tmp/witch-a", "/tmp/witch-b"]);
    let got = find_exact(&d, "grep", false, false, false, None, &[true, true]);
    assert_eq!(got.len(), 1);
    assert_eq!(got[0].path, "/tmp/witch-a/grep");
}

#[test]
fn all_returns_every_instance_including_duplicate_path_entries() {
    // Same dir twice in PATH -> two matches, like BSD `which -a`.
    let d = dirs(&["/tmp/witch-a", "/tmp/witch-a"]);
    let got = find_exact(&d, "ls", true, false, false, None, &[true, true]);
    assert_eq!(got.len(), 2);
    assert_eq!(got[0].path, "/tmp/witch-a/ls");
    assert_eq!(got[1].path, "/tmp/witch-a/ls");
}

#[test]
fn no_match_returns_empty() {
    let d = dirs(&["/tmp/witch-a"]);
    let got = find_exact(&d, "grep", true, false, false, None, &[false]);
    assert!(got.is_empty());
}

#[test]
fn skip_dot_drops_dot_relative_entries() {
    let got = find_exact(&dirs(&["./bin"]), "grep", true, true, false, None, &[true]);
    assert!(got.is_empty());
}

#[test]
fn skip_tilde_drops_entries_under_home() {
    let d = dirs(&["/tmp/witch-home/bin"]);
    let got = find_exact(&d, "grep", true, false, true, Some("/tmp/witch-home"), &[true]);
    assert!(got.is_empty());
}

#[test]
fn first_match_skips_entries_without_the_file() {
    let d = dirs(&["/usr/local/bin", "/usr/bin", "/bin"]);
    let got = find_exact(&d, "grep", false, false, false, None, &[false, true, true]);
    assert_eq!(got, vec![Match { path: "/usr/bin/grep".to_string(), dir: "/usr/bin".to_string() }]);
}

#[test]
fn skipped_entries_yield_nothing_even_when_executable() {
    let d = dirs(&["./bin", "~/bin", "/home/u/bin", "/usr/bin"]);
    let got = find_exact(&d, "ls", true, true, true, Some("/home/u"), &[true, true, true, true]);
    assert_eq!(got.len(), 1);
    assert_eq!(got[0].dir, "/usr/bin");
}

#[test]
fn skip_dir_cases() {
    assert!(skip_dir(".", true, false, None));
    assert!(!skip_dir(".", false, false, None));
    assert!(skip_dir("~/bin", false, true, None));
    assert!(!skip_dir("~/bin", true, false, None));
    // equal to home, under home, and only sharing a text prefix
    assert!(skip_dir("/home/u", false, true, Some("/home/u")));
    assert!(skip_dir("/home/u//bin/", false, true, Some("/home/u/")));
    assert!(!skip_dir("/home/u2/bin", false, true, Some("/home/u")));
    assert!(!skip_dir("/usr/bin", false, false, Some("/usr")));
}

#[test]
fn search_steps_through_path() {
    let d = dirs(&["./x", "/a", "/b"]);
    let mut s = ExactSearch::new();
    let p = s.advance(&d, "cat", true, false, None);
    assert_eq!(p.as_deref(), Some("/a/cat"));
    assert_eq!(s.next, 1);
    s.answer(&d, "cat", false, false);
    let p = s.advance(&d, "cat", true, false, None);
    assert_eq!(p.as_deref(), Some("/b/cat"));
    s.answer(&d, "cat", false, true);
    assert!(s.finished);
    assert_eq!(s.advance(&d, "cat", true, false, None), None);
    assert_eq!(s.found.len(), 1);
    assert_eq!(s.found[0].path, "/b/cat");
}

#[test]
fn join_follows_path_join() {
    assert_eq!(join_path("/usr/bin", "ls"), "/usr/bin/ls");
    assert_eq!(join_path("/usr/bin/", "ls"), "/usr/bin/ls");
    assert_eq!(join_path("", "ls"), "ls");
    assert_eq!(join_path("/usr/bin", "/bin/ls"), "/bin/ls");
}

#[test]
fn starts_with_goes_by_components() {
    assert!(starts_with("/usr/bin", "/usr"));
    assert!(starts_with("/usr/./bin", "/usr/"));
    assert!(!starts_with("/usrx/bin", "/usr"));
    assert!(!starts_with("usr/bin", "/usr"));
    assert!(starts_with("./bin", "."));
    assert!(starts_with("/x", ""));
}

#[test]
fn absolute_drops_leading_dot() {
    assert_eq!(absolute("./bin/grep", "/home/u"), "/home/u/bin/grep");
    assert_eq!(absolute("../bin/grep", "/home/u"), "/home/u/../bin/grep");
    assert_eq!(absolute("/bin/grep", "/home/u"), "/bin/grep");
}

#[test]
fn file_name_is_the_last_component() {
    assert_eq!(file_name_of("/usr/bin/grep").as_deref(), Some("grep"));
    assert_eq!(file_name_of("/usr/bin/"), Some("bin".to_string()));
    assert_eq!(file_name_of("/usr/.."), None);
    assert_eq!(file_name_of("/"), None);
}

#[test]
fn display_variants() {
    let dot = Match { path: "./bin/grep".to_string(), dir: "./bin".to_string() };
    assert_eq!(display_path(&dot, true, false, None, Some("/w")), "./grep");
    assert_eq!(display_path(&dot, false, false, None, Some("/w")), "/w/bin/grep");
    assert_eq!(display_path(&dot, false, false, None, None), "./bin/grep");
    let home = Match { path: "/home/u/bin/grep".to_string(), dir: "/home/u/bin".to_string() };
    assert_eq!(display_path(&home, false, true, Some("/home/u"), None), "~/bin/grep");
    assert_eq!(display_path(&home, false, false, Some("/home/u"), None), "/home/u/bin/grep");
    assert_eq!(display_path(&home, false, true, Some("/home/v"), None), "/home/u/bin/grep");
}

#[test]
fn first_match_is_the_first_of_all_matches() {
    let d = dirs(&["/a", "/b", "/c", "/b"]);
    let e = [false, true, true, true];
    let every = find_exact(&d, "vi", true, false, false, None, &e);
    let first = find_exact(&d, "vi", false, false, false, None, &e);
    assert_eq!(every.len(), 3);
    assert_eq!(first, every[..1].to_vec());
}
