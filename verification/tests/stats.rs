use starship_daemon::stats::{drain_stats, repo_stats, WatcherStats, MAX_REPO_STATS};

#[test]
fn repo_stats_accumulates_per_repo() {
    let mut s = WatcherStats::new();
    repo_stats(&mut s, "C:\\a", 3, 1, 1);
    repo_stats(&mut s, "C:\\b", 2, 0, 0);
    repo_stats(&mut s, "C:\\a", 4, 2, 0);
    assert_eq!(s.per_repo.len(), 2);
    assert_eq!(s.per_repo[0].repo, "C:\\a");
    assert_eq!(s.per_repo[0].completions, 7);
    assert_eq!(s.per_repo[0].dropped_git_internal, 3);
    assert_eq!(s.per_repo[0].dropped_gitignored, 1);
    assert_eq!(s.per_repo[1].completions, 2);
}

#[test]
fn repo_stats_keeps_the_newest_repos() {
    let mut s = WatcherStats::new();
    for i in 0..(MAX_REPO_STATS + 3) {
        repo_stats(&mut s, &format!("r{i}"), 1, 0, 0);
    }
    assert_eq!(s.per_repo.len(), MAX_REPO_STATS);
    assert_eq!(s.per_repo[0].repo, "r3");
    assert_eq!(s.per_repo[MAX_REPO_STATS - 1].repo, format!("r{}", MAX_REPO_STATS + 2));
}

#[test]
fn dropped_samples_are_capped() {
    let mut s = WatcherStats::new();
    for i in 0..8 {
        s.record_dropped_sample(format!("p{i}"));
    }
    assert_eq!(s.dropped_samples, vec!["p0", "p1", "p2", "p3", "p4"]);
}

#[test]
fn drain_stats_reports_and_resets() {
    let mut s = WatcherStats::new();
    s.wakes = 2;
    s.bumps = 1;
    repo_stats(&mut s, "C:\\a", 3, 1, 2);
    s.record_dropped_sample("target/x".to_string());
    let quoted = vec!["\"C:\\\\a\"".to_string()];
    let out = drain_stats(&mut s, "us: sweep=0.0\n", &quoted);
    assert_eq!(
        out,
        "counters: wakes=2 sweep_checks=0 completions=0 records=0 reloads=0 rearms=0 bumps=1 ensures=0 evictions=0\nus: sweep=0.0\n  repo \"C:\\\\a\": completions=3 dropped_internal=1 dropped_ignored=2\n  dropped: target/x\n"
    );
    assert_eq!(s.wakes, 0);
    assert!(s.per_repo.is_empty());
    assert!(s.dropped_samples.is_empty());
}

#[test]
fn repo_stats_compares_repositories_as_paths() {
    let mut s = WatcherStats::new();
    repo_stats(&mut s, "C:\\a", 3, 1, 1);
    repo_stats(&mut s, "C:\\a\\", 4, 0, 2);
    assert_eq!(s.per_repo.len(), 1);
    assert_eq!(s.per_repo[0].repo, "C:\\a");
    assert_eq!(s.per_repo[0].completions, 7);
    assert_eq!(s.per_repo[0].dropped_gitignored, 3);
}
