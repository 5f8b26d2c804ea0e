use starship_daemon::{
    encode_request, parse_request, ParsedRequest, RequestKind, HEADER_LEN, MAX_CONFIG_LEN,
    MAX_CWD_LEN, MAX_KEYMAP_LEN, MAX_TOTAL_LEN, REQ_PROMPT, REQ_TIMINGS,
};


const FIXED_BODY_LEN: usize = 17;

fn encode_body(
    cwd: &str,
    status: i32,
    keymap: Option<&str>,
    width: u32,
    config: Option<&str>,
    disable: bool,
) -> Vec<u8> {
    let cwd_b = cwd.as_bytes();
    let keymap_b = keymap.map(|s| s.as_bytes()).unwrap_or_default();
    let config_b = config.map(|s| s.as_bytes()).unwrap_or_default();
    let mut body = Vec::new();
    body.extend_from_slice(&(cwd_b.len() as u32).to_le_bytes());
    body.extend_from_slice(cwd_b);
    body.extend_from_slice(&status.to_le_bytes());
    body.extend_from_slice(&(keymap_b.len() as u16).to_le_bytes());
    body.extend_from_slice(keymap_b);
    body.extend_from_slice(&width.to_le_bytes());
    body.extend_from_slice(&(config_b.len() as u16).to_le_bytes());
    body.extend_from_slice(config_b);
    body.push(if disable { 1 } else { 0 });
    body
}

fn encode_request_v1(
    cwd: &str,
    status: i32,
    keymap: Option<&str>,
    width: u32,
    config: Option<&str>,
    disable: bool,
) -> Vec<u8> {
    let body = encode_body(cwd, status, keymap, width, config, disable);
    let mut data = vec![REQ_PROMPT];
    data.extend_from_slice(&(body.len() as u32).to_le_bytes());
    data.extend_from_slice(&body);
    data
}

fn decode(req: &ParsedRequest) -> (i32, Option<String>, usize, Option<String>, bool) {
    (
        req.props.status_code,
        req.props.keymap.clone(),
        req.props.terminal_width,
        req.props.starship_config.clone(),
        req.props.disable_cache,
    )
}

#[test]
fn parse_request_valid_full() {
    let data = encode_request_v1(
        "/home/user/project",
        139,
        Some("vi"),
        120,
        Some(r"C:\config.toml"),
        true,
    );
    let r = parse_request(&data);
    assert!(r.is_some());
    let req = r.unwrap();
    assert_eq!(req.cwd, "/home/user/project");
    assert_eq!(
        decode(&req),
        (
            139,
            Some("vi".to_string()),
            120,
            Some(r"C:\config.toml".to_string()),
            true
        )
    );
}

#[test]
fn parse_request_minimal() {
    let data = encode_request_v1("", 0, None, 0, None, false);
    assert_eq!(data.len(), HEADER_LEN + FIXED_BODY_LEN);
    let r = parse_request(&data);
    assert!(r.is_some());
    let req = r.unwrap();
    assert_eq!(req.cwd, "");
    assert_eq!(decode(&req), (0, None, 0, None, false));
}

#[test]
fn parse_request_empty_keymap_is_none() {
    let data = encode_request_v1(".", 0, None, 0, None, false);
    let req = parse_request(&data).unwrap();
    assert_eq!(req.props.keymap, None);
}

#[test]
fn parse_request_empty_data() {
    assert!(parse_request(&[]).is_none());
    assert!(parse_request(&[0u8; 5]).is_none());
    assert!(parse_request(&[REQ_PROMPT, 0, 0, 0, 0]).is_none());
}

#[test]
fn parse_request_truncated() {
    let mut data = encode_request_v1("hello", 0, None, 0, None, false);
    data.truncate(data.len() - 1);
    assert!(parse_request(&data).is_none());
}

#[test]
fn parse_request_bad_type() {
    let mut data = encode_request_v1(".", 0, None, 0, None, false);
    data[0] = 0xFF;
    assert!(parse_request(&data).is_none());
    let mut data = encode_request_v1(".", 0, None, 0, None, false);
    data[0] = 0;
    assert!(parse_request(&data).is_none());
}

#[test]
fn parse_request_timings_type() {
    let mut data = encode_request_v1("/repo", 7, Some("vi"), 120, None, false);
    data[0] = REQ_TIMINGS;
    let r = parse_request(&data);
    assert!(r.is_some());
    let req = r.unwrap();
    assert_eq!(req.kind, RequestKind::Timings);
    assert_eq!(req.cwd, "/repo");
    assert_eq!(decode(&req), (7, Some("vi".to_string()), 120, None, false));
}

#[test]
fn parse_request_total_len_over_cap() {
    let mut data = vec![REQ_PROMPT];
    data.extend_from_slice(&(MAX_TOTAL_LEN as u32 + 1).to_le_bytes());
    assert!(parse_request(&data).is_none());
}

#[test]
fn parse_request_total_len_exact_cap_missing_body() {
    let mut data = vec![REQ_PROMPT];
    data.extend_from_slice(&(MAX_TOTAL_LEN as u32).to_le_bytes());
    assert!(parse_request(&data).is_none());
}

#[test]
fn parse_request_trailing_bytes_tolerated() {
    let mut data = encode_request_v1(".", 0, Some("vi"), 120, None, true);
    data.push(0);
    data.push(0xde);
    let req = parse_request(&data);
    assert!(req.is_some(), "trailing body bytes must be tolerated");
    let req = req.unwrap();
    assert_eq!(decode(&req), (0, Some("vi".to_string()), 120, None, true));
}

#[test]
fn parse_request_disable_nonzero_is_true() {
    let mut data = encode_request_v1(".", 0, None, 0, None, false);
    let last = data.len() - 1;
    data[last] = 0xff;
    let req = parse_request(&data).unwrap();
    assert!(
        req.props.disable_cache,
        "disable byte 0xff must decode to disable_cache = true"
    );
}

#[test]
fn parse_request_cwd_len_overrun() {
    let mut data = vec![REQ_PROMPT];
    data.extend_from_slice(&(FIXED_BODY_LEN as u32).to_le_bytes());
    data.extend_from_slice(&100u32.to_le_bytes());
    data.extend_from_slice(&0i32.to_le_bytes());
    data.extend_from_slice(&0u16.to_le_bytes());
    data.extend_from_slice(&0u32.to_le_bytes());
    data.extend_from_slice(&0u16.to_le_bytes());
    data.push(0);
    assert!(parse_request(&data).is_none());
}

#[test]
fn parse_request_cwd_len_too_big() {
    let body_len = FIXED_BODY_LEN + MAX_CWD_LEN + 1;
    let mut data = vec![REQ_PROMPT];
    data.extend_from_slice(&(body_len as u32).to_le_bytes());
    data.extend_from_slice(&((MAX_CWD_LEN + 1) as u32).to_le_bytes());
    data.resize(HEADER_LEN + body_len, 0);
    assert!(parse_request(&data).is_none());
}

#[test]
fn parse_request_keymap_overrun() {
    let mut data = vec![REQ_PROMPT];
    data.extend_from_slice(&(FIXED_BODY_LEN as u32).to_le_bytes());
    data.extend_from_slice(&0u32.to_le_bytes());
    data.extend_from_slice(&0i32.to_le_bytes());
    data.extend_from_slice(&100u16.to_le_bytes());
    data.extend_from_slice(&0u32.to_le_bytes());
    data.extend_from_slice(&0u16.to_le_bytes());
    data.push(0);
    assert!(parse_request(&data).is_none());
}

#[test]
fn parse_request_config_overrun() {
    let mut data = vec![REQ_PROMPT];
    data.extend_from_slice(&(FIXED_BODY_LEN as u32).to_le_bytes());
    data.extend_from_slice(&0u32.to_le_bytes());
    data.extend_from_slice(&0i32.to_le_bytes());
    data.extend_from_slice(&0u16.to_le_bytes());
    data.extend_from_slice(&0u32.to_le_bytes());
    data.extend_from_slice(&100u16.to_le_bytes());
    data.push(0);
    assert!(parse_request(&data).is_none());
}

#[test]
fn parse_request_cwd_eats_tail_never_panics() {
    for cwd_len in 1..=13usize {
        let mut data = vec![REQ_PROMPT];
        data.extend_from_slice(&(FIXED_BODY_LEN as u32).to_le_bytes());
        data.extend_from_slice(&(cwd_len as u32).to_le_bytes());
        data.resize(HEADER_LEN + FIXED_BODY_LEN, 0);
        assert!(
            parse_request(&data).is_none(),
            "cwd_len={cwd_len} must be rejected"
        );
    }

    let mut data = vec![REQ_PROMPT];
    data.extend_from_slice(&(FIXED_BODY_LEN as u32).to_le_bytes());
    data.extend_from_slice(&0u32.to_le_bytes());
    data.extend_from_slice(&0i32.to_le_bytes());
    data.extend_from_slice(&3u16.to_le_bytes());
    data.resize(HEADER_LEN + FIXED_BODY_LEN, 0);
    assert!(parse_request(&data).is_none());

    let mut data = vec![REQ_PROMPT];
    data.extend_from_slice(&19u32.to_le_bytes());
    data.extend_from_slice(&0u32.to_le_bytes());
    data.extend_from_slice(&0i32.to_le_bytes());
    data.extend_from_slice(&0u16.to_le_bytes());
    data.extend_from_slice(&0u32.to_le_bytes());
    data.extend_from_slice(&3u16.to_le_bytes());
    data.resize(HEADER_LEN + 19, 0);
    assert!(parse_request(&data).is_none());
}

#[test]
fn parse_request_exact_boundary_caps() {
    let ok = encode_request_v1(&"a".repeat(MAX_CWD_LEN), 0, None, 0, None, false);
    assert!(
        parse_request(&ok).is_some(),
        "cwd_len == MAX_CWD_LEN must fit"
    );
    let over = encode_request_v1(&"a".repeat(MAX_CWD_LEN + 1), 0, None, 0, None, false);
    assert!(
        parse_request(&over).is_none(),
        "cwd_len == MAX_CWD_LEN + 1 must be rejected"
    );

    let ok = encode_request_v1(".", 0, Some(&"k".repeat(MAX_KEYMAP_LEN)), 0, None, false);
    assert!(
        parse_request(&ok).is_some(),
        "keymap_len == MAX_KEYMAP_LEN must fit"
    );
    let over = encode_request_v1(
        ".",
        0,
        Some(&"k".repeat(MAX_KEYMAP_LEN + 1)),
        0,
        None,
        false,
    );
    assert!(
        parse_request(&over).is_none(),
        "keymap_len == MAX_KEYMAP_LEN + 1 must be rejected"
    );

    let ok = encode_request_v1(".", 0, None, 0, Some(&"c".repeat(MAX_CONFIG_LEN)), false);
    assert!(
        parse_request(&ok).is_some(),
        "config_len == MAX_CONFIG_LEN must fit"
    );
    let over = encode_request_v1(
        ".",
        0,
        None,
        0,
        Some(&"c".repeat(MAX_CONFIG_LEN + 1)),
        false,
    );
    assert!(
        parse_request(&over).is_none(),
        "config_len == MAX_CONFIG_LEN + 1 must be rejected"
    );
}

#[test]
fn parse_request_non_utf8_cwd_is_lossy() {
    let mut data = encode_request_v1(".", 0, None, 0, None, false);

    data[HEADER_LEN + 4] = 0xff;
    let req = parse_request(&data);
    assert!(req.is_some());

    assert!(!req.unwrap().cwd.is_empty());
}

#[test]
fn parse_request_non_utf8_keymap_and_config_are_lossy() {
    let keymap_b = [0xffu8, 0xfe];
    let config_b = [0x80u8, 0x81];
    let body_len = FIXED_BODY_LEN + keymap_b.len() + config_b.len();
    let mut data = vec![REQ_PROMPT];
    data.extend_from_slice(&(body_len as u32).to_le_bytes());
    data.extend_from_slice(&0u32.to_le_bytes());
    data.extend_from_slice(&0i32.to_le_bytes());
    data.extend_from_slice(&(keymap_b.len() as u16).to_le_bytes());
    data.extend_from_slice(&keymap_b);
    data.extend_from_slice(&0u32.to_le_bytes());
    data.extend_from_slice(&(config_b.len() as u16).to_le_bytes());
    data.extend_from_slice(&config_b);
    data.push(0);
    let req = parse_request(&data).unwrap();
    assert!(req.props.keymap.is_some());
    assert!(req.props.starship_config.is_some());
}

#[test]
fn encode_request_matches_reference_and_roundtrips() {
    assert_eq!(
        encode_request(REQ_PROMPT, "/repo", -3, "vi", 120, Some("cfg"), true),
        encode_request_v1("/repo", -3, Some("vi"), 120, Some("cfg"), true)
    );
    assert_eq!(
        encode_request(REQ_PROMPT, "", 0, "", 0, None, false),
        encode_request_v1("", 0, None, 0, None, false)
    );
    assert_eq!(
        encode_request(REQ_PROMPT, "/repo/日本語", 0, "", 0, None, false),
        encode_request_v1("/repo/日本語", 0, None, 0, None, false)
    );

    for (kind, expected) in [
        (REQ_PROMPT, RequestKind::Prompt),
        (REQ_TIMINGS, RequestKind::Timings),
    ] {
        let built = encode_request(kind, "/repo/日本語", -3, "vi", 120, Some("cfg"), true);
        assert_eq!(built[0], kind);
        let req = parse_request(&built).unwrap();
        assert_eq!(req.kind, expected);
        assert_eq!(req.cwd, "/repo/日本語");
        assert_eq!(
            decode(&req),
            (
                -3,
                Some("vi".to_string()),
                120,
                Some("cfg".to_string()),
                true
            )
        );
    }
}
