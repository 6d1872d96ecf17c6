use witch::path_scan::{contains_name, scan, sort_by_name, Candidate};

fn cand(dir: &str, name: &str) -> Candidate {
    Candidate { name: name.to_string(), path: format!("{dir}/{name}") }
}

#[test]
fn finds_executables_and_skips_plain_files() {
    // The listing holds what the directory read kept: `grep` is executable,
    // `README` is a plain file and was left out.
    let got = scan(vec![vec![cand("/tmp/witch", "grep")]]);
    assert_eq!(got.len(), 1);
    assert_eq!(got[0].name, "grep");
    assert_eq!(got[0].path, "/tmp/witch/grep");
}

#[test]
fn first_dir_in_path_shadows_later_dirs() {
    let got = scan(vec![vec![cand("/tmp/a", "grep")], vec![cand("/tmp/b", "grep")]]);
    assert_eq!(got.len(), 1);
    assert_eq!(got[0].path, "/tmp/a/grep");
}

#[test]
fn missing_dirs_are_skipped() {
    // A directory that cannot be read lists nothing.
    let got = scan(vec![vec![], vec![cand("/tmp/witch", "ls")]]);
    assert_eq!(got.len(), 1);
    assert_eq!(got[0].name, "ls");
}

#[test]
fn names_within_a_dir_are_sorted() {
    let got = scan(vec![vec![cand("/tmp/witch", "zsh"), cand("/tmp/witch", "bash")]]);
    let names: Vec<_> = got.iter().map(|c| c.name.as_str()).collect();
    assert_eq!(names, vec!["bash", "zsh"]);
}

#[test]
fn directories_keep_path_order_and_sort_within() {
    let got = scan(vec![
        vec![cand("/b", "zz"), cand("/b", "aa")],
        vec![cand("/a", "mm"), cand("/a", "aa"), cand("/a", "bb")],
    ]);
    let paths: Vec<_> = got.iter().map(|c| c.path.as_str()).collect();
    assert_eq!(paths, vec!["/b/aa", "/b/zz", "/a/bb", "/a/mm"]);
}

#[test]
fn sort_orders_by_code_point() {
    let got = sort_by_name(vec![cand("/x", "b"), cand("/x", "B"), cand("/x", "ab"), cand("/x", "a")]);
    let names: Vec<_> = got.iter().map(|c| c.name.as_str()).collect();
    assert_eq!(names, vec!["B", "a", "ab", "b"]);
}

#[test]
fn contains_name_looks_at_names() {
    let v = vec![cand("/x", "ls"), cand("/x", "cat")];
    assert!(contains_name(&v, "cat"));
    assert!(!contains_name(&v, "/x/cat"));
}
