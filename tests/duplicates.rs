use dupfind::fingerprint::fingerprint;
use dupfind::grouping::{retain_duplicates, DuplicateFinder, DuplicateGroup};
use dupfind::report::{parse_output_mode, render_report, OutputMode};

const HELLO_SHA256: &str = "2cf24dba5fb0a30e26e83b2ac5b9e29e1b161e5c1fa7425e73043362938b9824";
const EMPTY_SHA256: &str = "e3b0c44298fc1c149afbf4c8996fb92427ae41e4649b934ca495991b7852b855";

fn scan(files: &[(&str, &str)]) -> Vec<DuplicateGroup> {
    let mut finder = DuplicateFinder::new();
    for (path, content) in files {
        finder.add_file(path.to_string(), content.as_bytes());
    }
    finder.into_duplicates()
}

fn members(groups: &[DuplicateGroup]) -> Vec<Vec<String>> {
    let mut out: Vec<Vec<String>> = groups
        .iter()
        .map(|g| {
            let mut p = g.paths.clone();
            p.sort();
            p
        })
        .collect();
    out.sort();
    out
}

#[test]
fn fingerprint_is_sha256_lowercase_hex() {
    assert_eq!(fingerprint(b"hello"), HELLO_SHA256);
    assert_eq!(fingerprint(b""), EMPTY_SHA256);
    assert_eq!(fingerprint(b"hello").len(), 64);
}

#[test]
fn two_equal_and_one_different() {
    let groups = scan(&[("a.txt", "hello"), ("b.txt", "hello"), ("c.txt", "world")]);
    assert_eq!(groups.len(), 1);
    assert_eq!(groups[0].fingerprint, HELLO_SHA256);
    assert_eq!(groups[0].paths, vec!["a.txt".to_string(), "b.txt".to_string()]);
    assert!(!groups[0].paths.contains(&"c.txt".to_string()));
}

#[test]
fn three_equal_files() {
    let groups = scan(&[("a.txt", "hello"), ("b.txt", "hello"), ("c.txt", "hello")]);
    assert_eq!(groups.len(), 1);
    assert_eq!(
        groups[0].paths,
        vec!["a.txt".to_string(), "b.txt".to_string(), "c.txt".to_string()]
    );
}

#[test]
fn empty_scan_reports_no_duplicates() {
    let groups = scan(&[]);
    assert!(groups.is_empty());
    assert_eq!(render_report(&groups), "No duplicates found.\n");
}

#[test]
fn all_unique_reports_no_duplicates() {
    let groups = scan(&[("a", "1"), ("b", "2"), ("c", "3")]);
    assert!(groups.is_empty());
    assert_eq!(render_report(&groups), "No duplicates found.\n");
}

#[test]
fn report_lists_paths_then_separator() {
    let groups = scan(&[
        ("a.txt", "hello"),
        ("x/y.txt", "other"),
        ("b.txt", "hello"),
        ("z.txt", "other"),
        ("u.txt", "unique"),
    ]);
    assert_eq!(
        render_report(&groups),
        "a.txt\nb.txt\n---\nx/y.txt\nz.txt\n---\n"
    );
}

#[test]
fn repeated_scans_agree() {
    let files = [("a", "hello"), ("b", "world"), ("c", "hello"), ("d", "world"), ("e", "!")];
    let first = scan(&files);
    let second = scan(&files);
    assert_eq!(members(&first), members(&second));
    assert_eq!(render_report(&first), render_report(&second));
}

#[test]
fn membership_does_not_depend_on_order() {
    let files = [("a", "hello"), ("b", "world"), ("c", "hello"), ("d", "world"), ("e", "!")];
    let mut reversed = files.to_vec();
    reversed.reverse();
    assert_eq!(members(&scan(&files)), members(&scan(&reversed)));
}

#[test]
fn same_content_same_group_different_content_apart() {
    let groups = scan(&[("p", "abc"), ("q", "abd"), ("r", "abc"), ("s", "abd")]);
    assert_eq!(groups.len(), 2);
    assert_eq!(groups[0].paths, vec!["p".to_string(), "r".to_string()]);
    assert_eq!(groups[1].paths, vec!["q".to_string(), "s".to_string()]);
    assert_ne!(groups[0].fingerprint, groups[1].fingerprint);
}

#[test]
fn unreadable_file_left_out_keeps_other_groups() {
    let mut finder = DuplicateFinder::new();
    finder.add_file("a.txt".to_string(), b"hello");
    // "locked.txt" could not be read: it is never added.
    finder.add_file("b.txt".to_string(), b"hello");
    finder.add_file("c.txt".to_string(), b"world");
    let groups = finder.into_duplicates();
    assert_eq!(groups.len(), 1);
    assert_eq!(groups[0].paths, vec!["a.txt".to_string(), "b.txt".to_string()]);
}

#[test]
fn empty_files_are_duplicates_of_each_other() {
    let groups = scan(&[("e1", ""), ("e2", "")]);
    assert_eq!(groups.len(), 1);
    assert_eq!(groups[0].fingerprint, EMPTY_SHA256);
}

#[test]
fn known_fingerprints_group_in_first_seen_order() {
    let mut finder = DuplicateFinder::new();
    finder.add_fingerprint("1".to_string(), "ff".to_string());
    finder.add_fingerprint("2".to_string(), "aa".to_string());
    finder.add_fingerprint("3".to_string(), "aa".to_string());
    finder.add_fingerprint("4".to_string(), "ff".to_string());
    finder.add_fingerprint("5".to_string(), "bb".to_string());
    let groups = finder.into_duplicates();
    assert_eq!(groups.len(), 2);
    assert_eq!(groups[0].fingerprint, "ff");
    assert_eq!(groups[0].paths, vec!["1".to_string(), "4".to_string()]);
    assert_eq!(groups[1].fingerprint, "aa");
    assert_eq!(groups[1].paths, vec!["2".to_string(), "3".to_string()]);
}

#[test]
fn retain_keeps_groups_of_two_or_more() {
    let g = |fp: &str, paths: &[&str]| DuplicateGroup {
        fingerprint: fp.to_string(),
        paths: paths.iter().map(|p| p.to_string()).collect(),
    };
    let kept = retain_duplicates(vec![g("a", &["x"]), g("b", &["y", "z"]), g("c", &[]), g("d", &["1", "2", "3"])]);
    assert_eq!(kept.len(), 2);
    assert_eq!(kept[0].fingerprint, "b");
    assert_eq!(kept[1].fingerprint, "d");
    assert_eq!(kept[1].paths.len(), 3);
}

#[test]
fn output_mode_selector() {
    assert_eq!(parse_output_mode("1"), Some(OutputMode::Console));
    assert_eq!(parse_output_mode("2"), Some(OutputMode::File));
    assert_eq!(parse_output_mode("3"), None);
    assert_eq!(parse_output_mode(""), None);
    assert_eq!(parse_output_mode("12"), None);
}
