use starship_daemon::cache::{
    compute_cache_key, config_path_from_env, current_minute, load_config, minute_of, CacheKey,
};

#[test]
fn load_config_returns_none_for_missing() {
    let p = "__nonexistent__";
    assert!(load_config(p, std::path::Path::new(p).is_file()).is_none());
}

#[test]
fn load_config_returns_path_for_file() {
    assert_eq!(load_config("C:\\cfg\\starship.toml", true), Some("C:\\cfg\\starship.toml".to_string()));
    assert_eq!(load_config("C:\\cfg", false), None);
}

#[test]
fn config_path_from_env_uses_config_var() {
    assert_eq!(
        config_path_from_env(Some("C:\\custom\\starship.toml".to_string()), None),
        "C:\\custom\\starship.toml"
    );
}

#[test]
fn config_path_from_env_config_var_wins_over_home_dir() {
    let cfg = Some("C:\\custom\\starship.toml".to_string());
    let home = Some("C:\\Users\\me".to_string());
    assert_eq!(config_path_from_env(cfg, home), "C:\\custom\\starship.toml");
}

#[test]
fn config_path_from_env_uses_home_dir_fallback() {
    assert_eq!(
        config_path_from_env(None, Some("C:\\Users\\me".to_string())),
        "C:\\Users\\me\\.config\\starship.toml"
    );
}

#[test]
fn config_path_from_env_defaults_to_relative() {
    assert_eq!(config_path_from_env(None, None), ".config/starship.toml");
}

#[test]
fn config_path_joins_without_doubling_separators() {
    assert_eq!(
        config_path_from_env(None, Some("C:\\Users\\me\\".to_string())),
        "C:\\Users\\me\\.config\\starship.toml"
    );
    assert_eq!(config_path_from_env(None, Some("D:".to_string())), "D:.config\\starship.toml");
    assert_eq!(config_path_from_env(None, Some(String::new())), ".config\\starship.toml");
}

#[test]
fn compute_cache_key_all_fields() {
    let k = compute_cache_key("/home/user", "emacs", 100, 7, 3);
    let expected = CacheKey {
        cwd: "/home/user".to_string(),
        keymap: "emacs".into(),
        terminal_width: 100,
        config_mtime: 7,
        watcher_version: 3,
    };
    assert_eq!(k, expected, "struct comparison catches swapped-field bugs");
}

#[test]
fn compute_cache_key_different_watcher_version_differentiates() {
    let k1 = compute_cache_key("/a", "vi", 120, 0, 0);
    let k2 = compute_cache_key("/a", "vi", 120, 0, 5);
    assert_ne!(k1, k2);
}

#[test]
fn cache_key_fields_each_differentiate() {
    let base = compute_cache_key("/a", "vi", 120, 1, 1);
    assert_ne!(base, compute_cache_key("/b", "vi", 120, 1, 1));
    assert_ne!(base, compute_cache_key("/a", "emacs", 120, 1, 1));
    assert_ne!(base, compute_cache_key("/a", "vi", 80, 1, 1));
    assert_ne!(base, compute_cache_key("/a", "vi", 120, 2, 1));
    assert_eq!(base, base.duplicate());
}

#[test]
fn minute_of_divides_by_sixty() {
    assert_eq!(minute_of(0), 0);
    assert_eq!(minute_of(59), 0);
    assert_eq!(minute_of(60), 1);
    assert_eq!(minute_of(3600), 60);
    let m = current_minute();
    assert!(m > 0);
}

#[test]
fn compute_cache_key_compares_the_directory_as_a_path() {
    let k = compute_cache_key("C:\\x", "vi", 120, 1, 1);
    assert_eq!(k, compute_cache_key("C:/x", "vi", 120, 1, 1));
    assert_eq!(k, compute_cache_key("C:\\x\\", "vi", 120, 1, 1));
    assert_ne!(k, compute_cache_key("C:\\y", "vi", 120, 1, 1));
}
