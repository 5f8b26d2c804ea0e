use starship_daemon::cache::config_from_text;

#[test]
fn read_config_returns_table_for_valid_toml() {
    let t = config_from_text(Some("format = 'test'\nsymbol = '$'\n".to_string()));
    assert_eq!(t.get("format").and_then(|v| v.as_str()), Some("test"));
    assert_eq!(t.get("symbol").and_then(|v| v.as_str()), Some("$"));
    assert_eq!(t.len(), 2);
}

#[test]
fn unreadable_config_gives_an_empty_table() {
    assert!(config_from_text(None).is_empty());
}

#[test]
fn invalid_toml_gives_an_empty_table() {
    assert!(config_from_text(Some("format = [unclosed".to_string())).is_empty());
}

#[test]
fn nested_tables_keep_their_top_level_keys() {
    let t = config_from_text(Some("[character]\nformat = '>'\n[git_status]\ndisabled = true\n".to_string()));
    let mut keys: Vec<&String> = t.keys().collect();
    keys.sort();
    assert_eq!(keys, vec!["character", "git_status"]);
}
