use std::collections::hash_map::RandomState;
use std::num::NonZeroUsize;

use lru::LruCache;
use starship_daemon::cache::{compute_cache_key, current_minute, CacheKey};
use starship_daemon::lru_cache::{render_cache, CachedValue};
use starship_daemon::render::{
    bust_dir_path, bust_for_version, clear_repo_cache, fresh_bust_version, render_cached,
    render_cached_at, repocache_clear, repocache_is_empty, repocache_state, save_repo_cache,
    take_repo_ctx, trim_prompt, BustDir, RenderContext, RepoCache,
};

const GIT_DIR: &str = "C:\\work\\repo\\.git";

fn ctx(cwd: &str, status: i32) -> RenderContext {
    RenderContext {
        cwd: cwd.to_string(),
        terminal_width: 120,
        status_code: status,
        keymap: "".to_string(),
    }
}

fn cfg() -> toml::Table {
    let mut t = toml::Table::new();
    t.insert("format".to_string(), toml::Value::String("$character".to_string()));
    t
}

/// Renders what the character module shows for the context's exit status.
fn character(c: &RenderContext, _cfg: &toml::Table, _bust: BustDir) -> String {
    if c.status_code == 0 {
        "C-OK".to_string()
    } else {
        "C-ERR".to_string()
    }
}

fn make_bust_dir(git_dir: &str, kind: BustDir, counter: &mut u64) -> String {
    let n = match kind {
        BustDir::Fresh => fresh_bust_version(counter),
        BustDir::Reuse { .. } => 0,
    };
    bust_dir_path(git_dir, kind, n)
}

fn seeded(key: &CacheKey, bucket: u64) -> LruCache<CacheKey, CachedValue, RandomState> {
    let mut lru = LruCache::with_hasher(NonZeroUsize::new(256).unwrap(), RandomState::new());
    lru.put(
        key.clone(),
        CachedValue {
            rendered: "SEEDED".to_string(),
            time_bucket: bucket,
            status_code: 0,
        },
    );
    lru
}

fn check_bust_for_version() {
    assert_eq!(bust_for_version(0, 7), BustDir::Fresh);
    assert_eq!(bust_for_version(3, 0), BustDir::Reuse { version: 3, config_mtime: 0 });
    assert_eq!(bust_for_version(3, 7), BustDir::Reuse { version: 3, config_mtime: 7 });
}

#[test]
fn prompt_bust_for_version_zero_degrades_to_fresh() {
    check_bust_for_version();
}

#[test]
fn mod_bust_for_version_zero_degrades_to_fresh() {
    check_bust_for_version();
}

fn check_version_keyed() {
    let mut counter = 0u64;
    let a1 = make_bust_dir(GIT_DIR, BustDir::Reuse { version: 3, config_mtime: 7 }, &mut counter);
    let a2 = make_bust_dir(GIT_DIR, BustDir::Reuse { version: 3, config_mtime: 7 }, &mut counter);
    assert_eq!(a1, a2, "same version+mtime must yield the same bust path");
    assert_eq!(
        a1, "C:\\work\\repo\\.git\\bust\\3\\7",
        "path must be <git_dir>/bust/<version>/<config_mtime>"
    );
    let b = make_bust_dir(GIT_DIR, BustDir::Reuse { version: 4, config_mtime: 7 }, &mut counter);
    assert_ne!(a1, b, "different version must yield a different bust path");
    let c = make_bust_dir(GIT_DIR, BustDir::Reuse { version: 3, config_mtime: 8 }, &mut counter);
    assert_ne!(a1, c, "different config_mtime must yield a different bust path");
}

#[test]
fn mod_make_bust_dir_is_version_keyed() {
    check_version_keyed();
}

#[test]
fn prompt_make_bust_dir_is_version_keyed() {
    check_version_keyed();
}

fn check_fresh_never_collides() {
    let mut counter = 0u64;
    let w = make_bust_dir(GIT_DIR, BustDir::Reuse { version: 3, config_mtime: 7 }, &mut counter);
    let mut seen = Vec::new();
    for _ in 0..5 {
        let f = make_bust_dir(GIT_DIR, BustDir::Fresh, &mut counter);
        assert_ne!(f, w, "fresh bust must not equal a reuse bust path");
        assert!(
            f.starts_with("C:\\work\\repo\\.git\\bust\\disable"),
            "fresh bust must live under bust/disable, got {f:?}"
        );
        assert!(!seen.contains(&f), "every fresh bust is new");
        seen.push(f);
    }
}

#[test]
fn mod_make_bust_dir_fresh_never_collides_with_reuse() {
    check_fresh_never_collides();
}

#[test]
fn prompt_make_bust_dir_fresh_never_collides_with_reuse() {
    check_fresh_never_collides();
}

#[test]
fn bust_dir_path_joins_like_windows() {
    assert_eq!(bust_dir_path("C:\\g\\", BustDir::Fresh, 12), "C:\\g\\bust\\disable\\12");
    assert_eq!(
        bust_dir_path("x", BustDir::Reuse { version: 18446744073709551615, config_mtime: 0 }, 9),
        "x\\bust\\18446744073709551615\\0"
    );
}

#[test]
fn fresh_bust_version_counts_and_wraps() {
    let mut c = 5u64;
    assert_eq!(fresh_bust_version(&mut c), 5);
    assert_eq!(c, 6);
    let mut m = u64::MAX;
    assert_eq!(fresh_bust_version(&mut m), u64::MAX);
    assert_eq!(m, 0);
}

#[test]
fn trim_prompt_strips_trailing_newlines_only() {
    assert_eq!(trim_prompt("> \n\n"), "> ");
    assert_eq!(trim_prompt("\na\nb"), "\na\nb");
    assert_eq!(trim_prompt("\n\n"), "");
    assert_eq!(trim_prompt("x \r\n"), "x \r");
}

fn check_hit_serves_cached() {
    let key = compute_cache_key("C:\\w", "", 120, 0, 0);
    let mut lru = seeded(&key, current_minute());
    let r = render_cached(&ctx("C:\\w", 0), &cfg(), &key, &mut lru, character);
    assert_eq!(r, "SEEDED", "same minute + status must serve the cache, not re-render");
}

#[test]
fn stock_hit_serves_cached_rendered_without_rerender() {
    check_hit_serves_cached();
}

#[test]
fn prompt_hit_serves_cached_rendered_without_rerender() {
    check_hit_serves_cached();
}

fn check_status_change() {
    let key = compute_cache_key("C:\\w", "", 120, 0, 0);
    let mut lru = seeded(&key, current_minute());
    let r = render_cached(&ctx("C:\\w", 1), &cfg(), &key, &mut lru, character);
    assert_ne!(r, "SEEDED", "status change must miss the cache");
    assert!(r.contains("C-ERR"), "status 1 must render the error symbol, got: {r}");
    let (_, e) = lru.pop_entry(&key).unwrap();
    assert_eq!(e.status_code, 1, "cached status must be refreshed");
}

#[test]
fn stock_status_change_misses_and_refreshes() {
    check_status_change();
}

#[test]
fn prompt_status_change_misses_and_refreshes() {
    check_status_change();
}

fn check_minute_rollover() {
    let key = compute_cache_key("C:\\w", "", 120, 0, 0);
    let mut lru = seeded(&key, current_minute() - 1);
    let r = render_cached(&ctx("C:\\w", 0), &cfg(), &key, &mut lru, character);
    assert_ne!(r, "SEEDED", "stale time bucket must miss the cache");
    let (_, e) = lru.pop_entry(&key).unwrap();
    assert_eq!(e.time_bucket, current_minute(), "bucket must refresh");
}

#[test]
fn stock_minute_rollover_misses_and_refreshes_bucket() {
    check_minute_rollover();
}

#[test]
fn prompt_minute_rollover_misses_and_refreshes_bucket() {
    check_minute_rollover();
}

#[test]
fn render_cached_at_stores_then_hits() {
    let key = compute_cache_key("C:\\w", "vi", 120, 4, 9);
    let mut lru = render_cache(2);
    let mut calls = 0;
    let r1 = render_cached_at(&ctx("C:\\w", 0), &cfg(), &key, &mut lru, 100, |c, f, b| {
        calls += 1;
        assert_eq!(b, BustDir::Reuse { version: 9, config_mtime: 4 });
        character(c, f, b)
    });
    assert_eq!(r1, "C-OK");
    assert_eq!(calls, 1);
    assert_eq!(lru.len(), 1);
    let r2 = render_cached_at(&ctx("C:\\w", 0), &cfg(), &key, &mut lru, 100, |_, _, _| {
        panic!("a hit must not render")
    });
    assert_eq!(r2, "C-OK");
    assert_eq!(lru.len(), 1);
    let r3 = render_cached_at(&ctx("C:\\w", 0), &cfg(), &key, &mut lru, 101, |_, _, _| "again".to_string());
    assert_eq!(r3, "again", "the next minute misses");
}

#[test]
fn render_cached_at_unwatched_repo_renders_fresh() {
    let key = compute_cache_key("C:\\w", "vi", 120, 4, 0);
    let mut lru = render_cache(4);
    let r = render_cached_at(&ctx("C:\\w", 0), &cfg(), &key, &mut lru, 1, |_, _, b| {
        assert_eq!(b, BustDir::Fresh);
        "fresh".to_string()
    });
    assert_eq!(r, "fresh");
}

#[test]
fn full_render_cache_drops_least_recently_used() {
    let mut lru = render_cache(2);
    let ka = compute_cache_key("a", "vi", 120, 0, 0);
    let kb = compute_cache_key("b", "vi", 120, 0, 0);
    let kc = compute_cache_key("c", "vi", 120, 0, 0);
    let c0 = ctx("x", 0);
    render_cached_at(&c0, &cfg(), &ka, &mut lru, 1, |_, _, _| "A".to_string());
    render_cached_at(&c0, &cfg(), &kb, &mut lru, 1, |_, _, _| "B".to_string());
    assert_eq!(render_cached_at(&c0, &cfg(), &ka, &mut lru, 1, character), "A");
    render_cached_at(&c0, &cfg(), &kc, &mut lru, 1, |_, _, _| "C".to_string());
    assert_eq!(lru.len(), 2);
    assert!(lru.peek(&ka).is_some(), "promoted entry must survive the eviction");
    assert!(lru.peek(&kb).is_none(), "least recently used entry is dropped");
}

#[test]
fn repo_cache_hands_context_back_once() {
    let mut cache: Option<RepoCache<u32>> = None;
    assert!(repocache_is_empty(&cache));
    assert_eq!(take_repo_ctx(&mut cache, GIT_DIR, 5), None);
    save_repo_cache(&mut cache, GIT_DIR.to_string(), 5, 42u32);
    assert!(!repocache_is_empty(&cache));
    assert_eq!(repocache_state(&cache), Some((GIT_DIR.to_string(), 5)));
    assert_eq!(take_repo_ctx(&mut cache, GIT_DIR, 6), None, "a changed index misses");
    assert_eq!(take_repo_ctx(&mut cache, "C:\\other\\.git", 5), None, "another repo misses");
    assert_eq!(take_repo_ctx(&mut cache, GIT_DIR, 5), Some(42));
    assert_eq!(take_repo_ctx(&mut cache, GIT_DIR, 5), None, "a context is handed out once");
    assert!(!repocache_is_empty(&cache));
    repocache_clear(&mut cache);
    assert!(repocache_is_empty(&cache));
    save_repo_cache(&mut cache, GIT_DIR.to_string(), 1, 1u32);
    clear_repo_cache(&mut cache);
    assert_eq!(repocache_state(&cache), None);
}
