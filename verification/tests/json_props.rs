use starship_daemon::json_props::{parse_i32, parse_usize, ClientProps};

fn chars(s: &str) -> Vec<char> {
    s.chars().collect()
}

#[test]
fn parses_the_simple_payload() {
    let p = ClientProps::parse_json(br#"{"status_code":0,"keymap":"viins","terminal_width":120}"#).unwrap();
    assert_eq!(p.status_code, Some(0));
    assert_eq!(p.keymap.as_deref(), Some("viins"));
    assert_eq!(p.terminal_width, Some(120));
    assert_eq!(p.starship_config, None);
}

#[test]
fn parses_the_full_payload() {
    let p = ClientProps::parse_json(
        br#"{"status_code":1,"keymap":"vi","terminal_width":80,"starship_config":"C:/Users/user/.config/starship.toml"}"#,
    )
    .unwrap();
    assert_eq!(p.status_code, Some(1));
    assert_eq!(p.keymap.as_deref(), Some("vi"));
    assert_eq!(p.terminal_width, Some(80));
    assert_eq!(p.starship_config.as_deref(), Some("C:/Users/user/.config/starship.toml"));
}

#[test]
fn null_values_leave_fields_unset() {
    let p = ClientProps::parse_json(br#"{"status_code":null,"keymap":"viins","terminal_width":null}"#).unwrap();
    assert_eq!(p.status_code, None);
    assert_eq!(p.keymap.as_deref(), Some("viins"));
    assert_eq!(p.terminal_width, None);
}

#[test]
fn spaces_signs_and_bad_numbers() {
    let p = ClientProps::parse_json(b"  { \"status_code\" :\t-3 , \"terminal_width\": +7 }\n").unwrap();
    assert_eq!(p.status_code, Some(-3));
    assert_eq!(p.terminal_width, Some(7));
    let p = ClientProps::parse_json(br#"{"status_code":2147483648,"terminal_width":-1}"#).unwrap();
    assert_eq!(p.status_code, None, "out of range");
    assert_eq!(p.terminal_width, None, "no sign for a width");
    let p = ClientProps::parse_json(br#"{"unknown":"x", oops "keymap":"vi"}"#).unwrap();
    assert_eq!(p.keymap, None, "reading stops at the first thing that is not a pair");
    assert!(ClientProps::parse_json(&[0xff, 0xfe]).is_none(), "not UTF-8");
    let p = ClientProps::parse_json(b"").unwrap();
    assert_eq!(p.status_code, None);
}

#[test]
fn integer_parsing_matches_std() {
    for s in ["0", "-0", "+5", "-2147483648", "2147483647", "2147483648", "", "-", "+", "1a", " 1", "007"] {
        assert_eq!(parse_i32(&chars(s)), s.parse::<i32>().ok(), "{s:?}");
    }
    for s in ["0", "+5", "-5", "18446744073709551615", "18446744073709551616", "", "+", "12x"] {
        assert_eq!(parse_usize(&chars(s)), s.parse::<usize>().ok(), "{s:?}");
    }
}
