use starship_daemon::cache::{compute_cache_key, current_minute};
use starship_daemon::daemon::{plan_request, ConfigStep, DaemonError, DaemonState, PromptPlan};
use starship_daemon::lru_cache::render_cache;
use starship_daemon::render::{BustDir, RenderContext};
use starship_daemon::watch::WatcherState;
use starship_daemon::{encode_request, RequestKind, REQ_PROMPT, REQ_TIMINGS};

const CFG: &str = "C:\\cfg\\starship.toml";

fn frame(cwd: &str, status: i32, keymap: &str, width: u32, config: Option<&str>, disable: bool) -> Vec<u8> {
    encode_request(REQ_PROMPT, cwd, status, keymap, width, config, disable)
}

fn char_config(symbol: &str) -> toml::Table {
    let mut character = toml::Table::new();
    character.insert("format".to_string(), toml::Value::String(symbol.to_string()));
    let mut t = toml::Table::new();
    t.insert("format".to_string(), toml::Value::String("$character".to_string()));
    t.insert("character".to_string(), toml::Value::Table(character));
    t
}

/// What the character module renders under `cfg`.
fn render(_ctx: &RenderContext, cfg: &toml::Table, _bust: BustDir) -> String {
    cfg.get("character")
        .and_then(|c| c.get("format"))
        .and_then(|f| f.as_str())
        .unwrap_or("")
        .to_string()
}

fn daemon(symbol: &str) -> DaemonState {
    DaemonState::new(CFG.to_string(), true, char_config(symbol), 7).unwrap()
}

fn context(p: &PromptPlan) -> RenderContext {
    RenderContext {
        cwd: p.cwd.clone(),
        terminal_width: p.terminal_width,
        status_code: p.status_code,
        keymap: p.keymap.clone(),
    }
}

/// Serves a prompt frame the way the daemon does, with a config file that never changes
/// and no watched repository; `requested_is_file` says whether a requested config exists.
fn handle(d: &mut DaemonState, f: &[u8], requested_is_file: bool) -> Result<String, DaemonError> {
    let plan = plan_request(f)?;
    let mut mtime = d.last_cfg_mtime;
    if let ConfigStep::Switch(p) = d.config_step(plan.starship_config.as_deref(), requested_is_file) {
        d.switch_config(p, char_config("x"), 9);
        mtime = d.last_cfg_mtime;
    }
    let ctx = context(&plan);
    Ok(d.render_prompt(&ctx, plan.disable_cache, mtime, 0, render))
}

#[test]
fn new_missing_config_is_error() {
    assert!(matches!(
        DaemonState::new("__nonexistent__".to_string(), false, toml::Table::new(), 0),
        Err(DaemonError::ConfigNotFound)
    ));
}

#[test]
fn bad_frame_is_error() {
    let mut d = daemon(">");
    assert!(matches!(handle(&mut d, &[0u8; 16], false), Err(DaemonError::BadFrame)));
    assert!(matches!(handle(&mut d, b"garbage", false), Err(DaemonError::BadFrame)));
}

#[test]
fn renders_and_cache_hits_on_identical_frame() {
    let mut d = daemon(">");
    let req = frame("C:\\work", 0, "", 120, None, false);
    let out1 = handle(&mut d, &req, false).unwrap();
    assert_eq!(out1, ">");
    let before = d.lru.len();
    let out2 = handle(&mut d, &req, false).unwrap();
    assert_eq!(out2, ">");
    assert_eq!(d.lru.len(), before, "identical frame must be a cache hit");
}

#[test]
fn disable_cache_renders_fresh() {
    let mut d = daemon(">");
    let req = frame("C:\\work", 0, "", 120, None, true);
    assert_eq!(handle(&mut d, &req, false).unwrap(), ">");
    assert_eq!(d.lru.len(), 0, "disable_cache must bypass the render cache");
}

#[test]
fn lru_capacity_evicts_and_hit_promotes() {
    let mut d = DaemonState {
        config_path: CFG.to_string(),
        cached_config: char_config(">"),
        last_cfg_mtime: 7,
        lru: render_cache(2),
        watcher: WatcherState::new(),
    };
    let fa = frame("C:\\t\\a", 0, "", 120, None, false);
    let fb = frame("C:\\t\\b", 0, "", 120, None, false);
    let fc = frame("C:\\t\\c", 0, "", 120, None, false);

    assert_eq!(handle(&mut d, &fa, false).unwrap(), ">");
    assert_eq!(handle(&mut d, &fb, false).unwrap(), ">");
    assert_eq!(d.lru.len(), 2);

    assert_eq!(handle(&mut d, &fa, false).unwrap(), ">");
    assert_eq!(handle(&mut d, &fc, false).unwrap(), ">");
    assert_eq!(d.lru.len(), 2);

    let key_a = compute_cache_key("C:\\t\\a", "vi", 120, d.last_cfg_mtime, 0);
    assert!(d.lru.peek(&key_a).is_some(), "promoted entry must survive the eviction");
    let key_b = compute_cache_key("C:\\t\\b", "vi", 120, d.last_cfg_mtime, 0);
    assert!(d.lru.peek(&key_b).is_none(), "least recently used entry is evicted");
    assert_eq!(handle(&mut d, &fb, false).unwrap(), ">", "evicted cwd must re-render correctly");
}

#[test]
fn reload_config_clears_lru() {
    let mut d = daemon(">");
    let req = frame("C:\\work", 0, "", 120, None, false);
    assert_eq!(handle(&mut d, &req, false).unwrap(), ">");
    assert_eq!(d.lru.len(), 1);
    d.reload_config(char_config(">"), 8);
    assert!(d.lru.is_empty(), "reload_config must clear the render cache");
    assert_eq!(d.last_cfg_mtime, 8);
}

#[test]
fn warm_up_seeds_exactly_the_default_key() {
    let mut d = DaemonState {
        config_path: CFG.to_string(),
        cached_config: char_config(">"),
        last_cfg_mtime: 7,
        lru: render_cache(4),
        watcher: WatcherState::new(),
    };
    d.warm_up(render);
    assert_eq!(d.lru.len(), 1);
    let expected = compute_cache_key(".", "vi", 120, 0, 0);
    assert!(d.lru.contains(&expected), "warm_up must seed exactly the default-frame key");
}

#[test]
fn disable_cache_leaves_existing_entries_intact() {
    let mut d = daemon(">");
    let req = frame("C:\\work", 0, "", 120, None, false);
    assert_eq!(handle(&mut d, &req, false).unwrap(), ">");
    assert_eq!(d.lru.len(), 1);
    let off = frame("C:\\work", 0, "", 120, None, true);
    assert_eq!(handle(&mut d, &off, false).unwrap(), ">");
    assert_eq!(d.lru.len(), 1, "disable path must not touch the LRU");
    assert_eq!(handle(&mut d, &req, false).unwrap(), ">");
    assert_eq!(d.lru.len(), 1, "original entry must still be served");
}

#[test]
fn timings_report_reports_miss_then_hit() {
    let mut d = daemon(">");
    let cwd = "C:\\work";
    let key = compute_cache_key(cwd, "vi", 120, d.last_cfg_mtime, 0);
    assert!(!d.is_cache_hit(&key, 0, current_minute()), "fresh state must report MISS");
    let req = frame(cwd, 0, "", 120, None, false);
    assert_eq!(handle(&mut d, &req, false).unwrap(), ">", "prompt render populates the entry");
    assert!(d.is_cache_hit(&key, 0, current_minute()), "populated state must report HIT");
    assert!(!d.is_cache_hit(&key, 1, current_minute()), "another exit status misses");
}

#[test]
fn missing_explicit_config_falls_back_to_mtime() {
    let mut d = daemon(">");
    let req = frame("C:\\work", 0, "", 120, Some("C:\\tmp\\bogus.toml"), false);
    assert_eq!(handle(&mut d, &req, false).unwrap(), ">");
    assert_eq!(d.config_path, CFG, "unloadable explicit config must keep the current one");
}

#[test]
fn explicit_config_change_switches_and_reloads() {
    let mut d = daemon(">");
    let req = frame("C:\\work", 0, "", 120, Some("C:\\cfg\\other.toml"), false);
    assert_eq!(handle(&mut d, &req, true).unwrap(), "x");
    assert_eq!(d.config_path, "C:\\cfg\\other.toml");
    assert!(d.config_switch_candidate(Some("C:\\cfg\\other.toml")).is_none());
}

#[test]
fn config_mtime_edit_is_detected() {
    let d = daemon(">");
    assert!(!d.config_changed(7));
    assert!(d.config_changed(8));
    assert_eq!(d.cached_prompts(), 0);
}

#[test]
fn plan_fills_defaults() {
    let p = plan_request(&frame("", -1, "", 80, None, true)).unwrap();
    assert_eq!(p.kind, RequestKind::Prompt);
    assert_eq!(p.cwd, ".");
    assert_eq!(p.keymap, "vi");
    assert_eq!(p.status_code, -1);
    assert_eq!(p.terminal_width, 80);
    assert_eq!(p.starship_config, None);
    assert!(p.disable_cache);
    let mut t = frame("C:\\x", 0, "emacs", 1, Some("c.toml"), false);
    t[0] = REQ_TIMINGS;
    let p = plan_request(&t).unwrap();
    assert_eq!(p.kind, RequestKind::Timings);
    assert_eq!(p.keymap, "emacs");
    assert_eq!(p.starship_config.as_deref(), Some("c.toml"));
}

#[test]
fn config_paths_are_compared_as_paths() {
    let d = daemon(">");
    assert!(d.config_switch_candidate(Some("C:\\cfg\\starship.toml\\")).is_none());
    assert!(d.config_switch_candidate(Some("C:/cfg/./starship.toml")).is_none());
    assert_eq!(
        d.config_switch_candidate(Some("C:\\cfg\\other.toml")),
        Some("C:\\cfg\\other.toml".to_string())
    );
    assert!(matches!(d.config_step(Some("C:\\cfg\\starship.toml\\"), true), ConfigStep::CheckMtime));
}

#[test]
fn spellings_of_one_directory_share_a_cache_entry() {
    let mut d = daemon(">");
    for cwd in ["C:\\work", "C:/work\\", "C:\\work\\.\\"] {
        assert_eq!(handle(&mut d, &frame(cwd, 0, "", 120, None, false), false).unwrap(), ">");
    }
    assert_eq!(d.lru.len(), 1, "the same directory spelled otherwise must hit the cache");
    assert_eq!(handle(&mut d, &frame("C:\\other", 0, "", 120, None, false), false).unwrap(), ">");
    assert_eq!(d.lru.len(), 2);
}
