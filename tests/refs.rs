use rgit::error::GitError;
use rgit::refs::{ListedEntry, RefStep, MAX_REF_DEPTH};
use rgit::repo::Repo;
use std::collections::HashMap;

const ADDR: &str = "0123456789abcdef0123456789abcdef01234567";

fn repo() -> Repo {
    Repo::new("/w".to_string())
}

/// Drives a walk over files keyed by path; returns the outcome and how many
/// files were read.
fn run(files: &HashMap<String, String>, name: &str) -> (Result<String, GitError>, usize) {
    let r = repo();
    let mut walk = if name == "HEAD" { r.head_ref() } else { r.get_ref(name.to_string()) };
    let mut path = walk.path();
    let mut reads = 0;
    loop {
        reads += 1;
        assert!(reads <= MAX_REF_DEPTH + 1, "walk did not stop");
        let content = files.get(&path).map(|s| s.clone().into_bytes());
        match walk.feed(content) {
            RefStep::Read(p) => path = p,
            RefStep::Resolved(a) => return (Ok(a), reads),
            RefStep::Failed(e) => return (Err(e), reads),
        }
    }
}

fn files(v: &[(&str, String)]) -> HashMap<String, String> {
    v.iter().map(|(k, c)| (format!("/w/.git/{}", k), c.clone())).collect()
}

#[test]
fn head_through_branch_to_address() {
    let f = files(&[
        ("HEAD", "ref: refs/heads/main\n".to_string()),
        ("refs/heads/main", format!("{}\n", ADDR)),
    ]);
    assert_eq!(run(&f, "HEAD"), (Ok(ADDR.to_string()), 2));
}

#[test]
fn three_levels_of_indirection_resolve() {
    let f = files(&[
        ("HEAD", "ref: refs/heads/alias\n".to_string()),
        ("refs/heads/alias", "ref: refs/heads/main  \n".to_string()),
        ("refs/heads/main", format!("{}\r\n", ADDR)),
    ]);
    assert_eq!(run(&f, "HEAD"), (Ok(ADDR.to_string()), 3));
}

#[test]
fn self_loop_fails_with_ref_loop() {
    let f = files(&[("refs/heads/a", "ref: refs/heads/a\n".to_string())]);
    assert_eq!(run(&f, "refs/heads/a"), (Err(GitError::RefLoop), MAX_REF_DEPTH + 1));
}

#[test]
fn two_cycle_fails_with_ref_loop() {
    let f = files(&[
        ("HEAD", "ref: refs/heads/a\n".to_string()),
        ("refs/heads/a", "ref: refs/heads/b\n".to_string()),
        ("refs/heads/b", "ref: refs/heads/a\n".to_string()),
    ]);
    assert_eq!(run(&f, "HEAD").0, Err(GitError::RefLoop));
}

#[test]
fn head_to_missing_branch_is_not_found() {
    let f = files(&[("HEAD", "ref: refs/heads/main\n".to_string())]);
    assert_eq!(run(&f, "HEAD"), (Err(GitError::NotFound), 2));
}

#[test]
fn missing_head_is_not_found() {
    assert_eq!(run(&HashMap::new(), "HEAD"), (Err(GitError::NotFound), 1));
}

#[test]
fn direct_head_is_trimmed() {
    let f = files(&[("HEAD", format!("{} \t\n\n", ADDR))]);
    assert_eq!(run(&f, "HEAD"), (Ok(ADDR.to_string()), 1));
}

#[test]
fn walk_paths_are_under_the_store_root() {
    let r = repo();
    assert_eq!(r.head_ref().path(), "/w/.git/HEAD");
    let mut w = r.head_ref();
    match w.feed(Some(b"ref: refs/heads/dev\n".to_vec())) {
        RefStep::Read(p) => assert_eq!(p, "/w/.git/refs/heads/dev"),
        _ => panic!("expected a read"),
    }
    assert_eq!(w.path(), "/w/.git/refs/heads/dev");
}

fn entry(name: &str, is_dir: bool, is_file: bool) -> ListedEntry {
    ListedEntry { name: name.to_string(), is_dir, is_file }
}

#[test]
fn scan_lists_every_reference_file() {
    let r = repo();
    let mut scan = r.all_refs();
    assert_eq!(scan.next_dir(), Some("refs".to_string()));
    scan.add_entries("refs", &vec![entry("heads", true, false), entry("tags", true, false), entry("stash", false, true), entry("sock", false, false)]);
    assert_eq!(scan.next_dir(), Some("refs/tags".to_string()));
    scan.add_entries("refs/tags", &vec![entry("v1", false, true)]);
    assert_eq!(scan.next_dir(), Some("refs/heads".to_string()));
    scan.add_entries("refs/heads", &vec![entry("main", false, true), entry("dev", false, true)]);
    assert_eq!(scan.next_dir(), None);
    assert_eq!(
        scan.refs(),
        vec!["refs/stash".to_string(), "refs/tags/v1".to_string(), "refs/heads/main".to_string(), "refs/heads/dev".to_string()]
    );
}
