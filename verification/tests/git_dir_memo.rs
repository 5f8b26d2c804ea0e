use std::cell::Cell;

use starship_daemon::git_dir::{memo_key, GitDirMemo};

#[test]
fn empty_cwd_is_remembered_as_dot() {
    assert_eq!(memo_key(""), ".");
    assert_eq!(memo_key("C:\\w"), "C:\\w");
}

#[test]
fn second_lookup_is_served_from_the_memo() {
    let calls = Cell::new(0u32);
    let mut m = GitDirMemo::new();
    let find = |p: &str| {
        calls.set(calls.get() + 1);
        Some(format!("{p}\\.git"))
    };
    assert_eq!(m.find_git_dir("C:\\r", find), Some("C:\\r\\.git".to_string()));
    assert_eq!(m.find_git_dir("C:\\r", find), Some("C:\\r\\.git".to_string()));
    assert_eq!(calls.get(), 1);
}

#[test]
fn missing_repository_is_remembered_too() {
    let calls = Cell::new(0u32);
    let mut m = GitDirMemo::new();
    let find = |_: &str| {
        calls.set(calls.get() + 1);
        None
    };
    assert_eq!(m.find_git_dir("C:\\plain", find), None);
    assert_eq!(m.find_git_dir("C:\\plain", find), None);
    assert_eq!(calls.get(), 1);
}

#[test]
fn empty_cwd_is_looked_up_as_dot() {
    let mut m = GitDirMemo::new();
    let seen = Cell::new(String::new());
    let r = m.find_git_dir("", |p: &str| {
        seen.set(p.to_string());
        Some("repo\\.git".to_string())
    });
    assert_eq!(seen.take(), ".");
    assert_eq!(r, Some("repo\\.git".to_string()));
    assert_eq!(m.lookup("."), Some(Some("repo\\.git".to_string())));
}

#[test]
fn memo_forgets_the_least_recently_used_directory() {
    let mut m = GitDirMemo::new();
    for i in 0..64 {
        m.remember(&format!("d{i}"), None);
    }
    assert_eq!(m.lookup("d0"), Some(None));
    m.remember("d64", Some("g".to_string()));
    assert_eq!(m.lookup("d1"), None);
    assert_eq!(m.lookup("d0"), Some(None));
    assert_eq!(m.lookup("d64"), Some(Some("g".to_string())));
}

#[test]
fn another_spelling_of_the_same_directory_hits_the_memo() {
    let calls = Cell::new(0u32);
    let mut m = GitDirMemo::new();
    let find = |p: &str| {
        calls.set(calls.get() + 1);
        Some(format!("{p}\\.git"))
    };
    assert_eq!(m.find_git_dir("C:\\r", find), Some("C:\\r\\.git".to_string()));
    assert_eq!(m.find_git_dir("C:\\r\\", find), Some("C:\\r\\.git".to_string()));
    assert_eq!(m.find_git_dir("C:/r/.", find), Some("C:\\r\\.git".to_string()));
    assert_eq!(calls.get(), 1);
    assert_eq!(m.find_git_dir("C:\\s", find), Some("C:\\s\\.git".to_string()));
    assert_eq!(calls.get(), 2);
}
