use starship_daemon::gitignore::parse_gitignore;
use starship_daemon::watch::{needs_gitignore_reload, EnsureStep, WatcherState, MAX_WATCHED_REPOS};

/// Watches `root` the way the daemon does, with a watch that starts (or fails) as `arms`
/// says and the repository's `.gitignore` text.
fn ensure(w: &mut WatcherState, root: &str, arms: bool, gitignore: &str) -> EnsureStep {
    let step = w.ensure(root);
    match step {
        EnsureStep::Ready(_) => {}
        EnsureStep::Rearm(i) => w.rearm_result(i, arms),
        EnsureStep::Open(_) => w.add_entry(root.to_string(), parse_gitignore(gitignore), arms),
    }
    step
}

/// A completed watch of `root` that saw `paths`.
fn complete(w: &mut WatcherState, root: &str, paths: &[&str]) {
    let idx = (0..w.num_entries()).find(|&i| w.entries[i].repo_root == root).unwrap();
    let paths: Vec<(String, u32)> = paths.iter().map(|p| (p.to_string(), 3)).collect();
    let reload = needs_gitignore_reload(&paths);
    let changed = w.completion_changed(idx, true, 100, &paths, reload);
    w.record_completion(idx, changed, true);
}

#[test]
fn unknown_repo_returns_zero_version() {
    let w = WatcherState::new();
    assert_eq!(w.version("__nonexistent__"), 0);
}

#[test]
fn ensure_creates_watcher_entry() {
    let mut w = WatcherState::new();
    assert_eq!(ensure(&mut w, "C:\\r", true, ""), EnsureStep::Open(None));
    assert_eq!(w.num_entries(), 1);
    assert_eq!(w.version("C:\\r"), 1);
}

#[test]
fn ensure_is_idempotent() {
    let mut w = WatcherState::new();
    ensure(&mut w, "C:\\r", true, "");
    assert_eq!(ensure(&mut w, "C:\\r", true, ""), EnsureStep::Ready(0));
    assert_eq!(w.num_entries(), 1);
}

#[test]
fn burst_coalesces_into_one_bump() {
    let mut w = WatcherState::new();
    ensure(&mut w, "C:\\r", true, "");
    w.flush();
    let v0 = w.version("C:\\r");
    complete(&mut w, "C:\\r", &["a.txt"]);
    complete(&mut w, "C:\\r", &["b.txt", "c.txt"]);
    w.flush();
    assert_eq!(w.version("C:\\r") - v0, 1, "burst must produce exactly 1 version bump");
}

#[test]
fn flush_clears_pending_so_idle_poll_does_not_bump() {
    let mut w = WatcherState::new();
    ensure(&mut w, "C:\\r", true, "");
    w.flush();
    let v0 = w.version("C:\\r");
    w.entries[0].pending = true;
    w.flush();
    let bumped = w.version("C:\\r");
    assert!(bumped > v0, "pending flag must flush into a bump");
    w.flush();
    assert_eq!(w.version("C:\\r"), bumped, "idle poll must not bump again");
}

#[test]
fn ensure_on_initial_arm_failure_bumps_once() {
    let mut w = WatcherState::new();
    ensure(&mut w, "C:\\f.txt", false, "");
    assert!(w.entries[0].pending, "failed initial arm must set pending");
    let v0 = w.version("C:\\f.txt");
    w.flush();
    let v1 = w.version("C:\\f.txt");
    assert!(v1 > v0);
    w.flush();
    assert_eq!(w.version("C:\\f.txt"), v1, "second poll must not bump again");
}

#[test]
fn ensure_rearms_a_dead_entry() {
    let mut w = WatcherState::new();
    ensure(&mut w, "C:\\f.txt", false, "");
    assert!(!w.entries[0].armed);
    w.flush();
    assert_eq!(ensure(&mut w, "C:\\f.txt", false, ""), EnsureStep::Rearm(0));
    assert!(!w.entries[0].armed, "re-arm on a regular file must still fail");
    assert!(w.entries[0].pending, "re-arm attempt must set pending");
    let v0 = w.version("C:\\f.txt");
    w.flush();
    assert!(w.version("C:\\f.txt") > v0);
}

#[test]
fn lru_eviction_caps_entries() {
    let mut w = WatcherState::new();
    for i in 0..49 {
        ensure(&mut w, &format!("C:\\r{i}"), true, "");
    }
    assert_eq!(w.num_entries(), MAX_WATCHED_REPOS);
    assert_eq!(w.version("C:\\r0"), 0, "oldest repo must be evicted at the cap");
    ensure(&mut w, "C:\\r0", true, "");
    assert!(w.version("C:\\r0") > 0, "re-ensured repo must get a fresh version");
}

#[test]
fn recently_used_repo_survives_eviction() {
    let mut w = WatcherState::new();
    for i in 0..MAX_WATCHED_REPOS {
        ensure(&mut w, &format!("C:\\r{i}"), true, "");
    }
    ensure(&mut w, "C:\\r0", true, "");
    assert_eq!(ensure(&mut w, "C:\\new", true, ""), EnsureStep::Open(Some(1)));
    assert!(w.version("C:\\r0") > 0);
    assert_eq!(w.version("C:\\r1"), 0);
}

#[test]
fn reensure_version_exceeds_all_prior_versions() {
    let mut w = WatcherState::new();
    ensure(&mut w, "C:\\a", true, "");
    for _ in 0..60 {
        w.entries[0].pending = true;
        w.flush();
    }
    let pre = w.version("C:\\a");
    assert!(pre > 60);
    for i in 0..MAX_WATCHED_REPOS {
        ensure(&mut w, &format!("C:\\r{i}"), true, "");
    }
    assert_eq!(w.version("C:\\a"), 0, "repo must be evicted after MAX_WATCHED_REPOS more repos");
    ensure(&mut w, "C:\\a", true, "");
    assert!(w.version("C:\\a") > pre, "re-ensured version must exceed every prior version");
}

#[test]
fn boxed_arm_filters_ignored_writes() {
    let mut w = WatcherState::new();
    ensure(&mut w, "C:\\r", true, "a/**/b\n");
    w.flush();
    let v0 = w.version("C:\\r");
    complete(&mut w, "C:\\r", &["a/x/b"]);
    w.flush();
    assert_eq!(w.version("C:\\r"), v0, "a/x/b must match anchored a/**/b and not bump");
    complete(&mut w, "C:\\r", &["visible.txt"]);
    w.flush();
    assert!(w.version("C:\\r") > v0);
}

#[test]
fn trailing_doublestar_does_not_ignore_bare_component() {
    let mut w = WatcherState::new();
    ensure(&mut w, "C:\\r", true, "a/**\n");
    w.flush();
    let v0 = w.version("C:\\r");
    complete(&mut w, "C:\\r", &["a"]);
    w.flush();
    assert!(w.version("C:\\r") > v0);
}

#[test]
fn git_internal_writes_do_not_bump() {
    let mut w = WatcherState::new();
    ensure(&mut w, "C:\\r", true, "");
    w.flush();
    let v0 = w.version("C:\\r");
    complete(&mut w, "C:\\r", &[".git/objects/ab/cd", ".git/logs/HEAD"]);
    w.flush();
    assert_eq!(w.version("C:\\r"), v0);
    complete(&mut w, "C:\\r", &[".git/index"]);
    w.flush();
    assert!(w.version("C:\\r") > v0);
}

#[test]
fn gitignore_edit_counts_as_change_even_when_self_ignored() {
    let mut w = WatcherState::new();
    ensure(&mut w, "C:\\r", true, "*\n");
    w.flush();
    let v0 = w.version("C:\\r");
    let paths = vec![(".gitignore".to_string(), 3u32)];
    assert!(needs_gitignore_reload(&paths));
    assert!(w.completion_changed(0, true, 10, &paths, true));
    assert!(!w.completion_changed(0, true, 10, &paths, false), "the file itself is ignored by `*`");
    w.set_ignore(0, parse_gitignore("*\n"));
    w.record_completion(0, true, true);
    w.flush();
    assert!(w.version("C:\\r") > v0);
}

#[test]
fn failed_or_overflowing_read_counts_as_change() {
    let w = {
        let mut w = WatcherState::new();
        ensure(&mut w, "C:\\r", true, "*\n");
        w
    };
    let none: Vec<(String, u32)> = Vec::new();
    assert!(w.completion_changed(0, false, 10, &none, false));
    assert!(w.completion_changed(0, true, 0, &none, false));
    assert!(!w.completion_changed(0, true, 10, &none, false));
}

#[test]
fn dropped_counts_split_internal_and_ignored() {
    let mut w = WatcherState::new();
    ensure(&mut w, "C:\\r", true, "target/\n*.log\n");
    let paths: Vec<(String, u32)> = [".git/objects/x", "target/a", "b.log", "src/main.rs", ".git/index"]
        .iter()
        .map(|p| (p.to_string(), 3))
        .collect();
    assert_eq!(w.count_dropped(0, &paths), (1, 2));
}

#[test]
fn repositories_are_compared_as_paths() {
    let mut w = WatcherState::new();
    ensure(&mut w, "C:\\r", true, "");
    let v = w.version("C:\\r");
    assert!(v > 0);
    assert_eq!(w.version("C:\\r\\"), v);
    assert_eq!(w.version("C:/r"), v);
    assert_eq!(ensure(&mut w, "C:\\r\\", true, ""), EnsureStep::Ready(0));
    assert_eq!(w.num_entries(), 1);
}

#[test]
fn ensure_on_a_watched_repo_keeps_entries_and_versions() {
    let mut w = WatcherState::new();
    ensure(&mut w, "C:\\a", true, "");
    ensure(&mut w, "C:\\b", true, "");
    let (va, vb, e) = (w.version("C:\\a"), w.version("C:\\b"), w.epoch());
    assert_eq!(w.ensure("C:\\a"), EnsureStep::Ready(0));
    assert_eq!(w.num_entries(), 2);
    assert_eq!((w.version("C:\\a"), w.version("C:\\b"), w.epoch()), (va, vb, e));
}
