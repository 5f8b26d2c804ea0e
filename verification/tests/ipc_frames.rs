use starship_daemon::daemon::{plan_request, DaemonError};
use starship_daemon::protocol::frame_len;
use starship_daemon::session::{FrameReader, ReadStep};
use starship_daemon::{encode_request, HEADER_LEN, MAX_CONFIG_LEN, MAX_KEYMAP_LEN, MAX_TOTAL_LEN, REQ_PROMPT};

/// How a session takes a whole frame: `Ok(frame length)` where the header is accepted and
/// the frame parses, `Err` where the session drops the client.
fn session_takes(frame: &[u8]) -> Result<usize, &'static str> {
    let mut r = FrameReader::new();
    let mut got = 0usize;
    loop {
        match r.advance(&frame[..got]) {
            ReadStep::Read { offset, count } => {
                let n = count.min(frame.len() - offset);
                if n == 0 {
                    return Err("client sent too little");
                }
                r.received(n);
                got += n;
            }
            ReadStep::BodyNext => {}
            ReadStep::Malformed => return Err("malformed header"),
            ReadStep::Complete(len) => {
                return match plan_request(&frame[..len]) {
                    Ok(_) => Ok(len),
                    Err(DaemonError::BadFrame) => Err("bad frame"),
                    Err(DaemonError::ConfigNotFound) => Err("no config"),
                };
            }
        }
    }
}

fn valid_body(cwd: &str) -> Vec<u8> {
    let f = encode_request(REQ_PROMPT, cwd, 0, "", 120, None, false);
    f[HEADER_LEN..].to_vec()
}

fn framed(body: &[u8]) -> Vec<u8> {
    let mut frame = vec![REQ_PROMPT];
    frame.extend_from_slice(&(body.len() as u32).to_le_bytes());
    frame.extend_from_slice(body);
    frame
}

fn serves_next() {
    let f = encode_request(REQ_PROMPT, ".", 0, "", 120, None, false);
    assert_eq!(session_takes(&f), Ok(f.len()));
}

#[test]
fn ipc_tail_eating_cwd_disconnects_then_serves() {
    let mut body = Vec::new();
    body.extend_from_slice(&13u32.to_le_bytes());
    body.resize(17, 0);
    assert!(session_takes(&framed(&body)).is_err());
    serves_next();
}

#[test]
fn ipc_total_len_over_cap_disconnects_then_serves() {
    let mut frame = vec![REQ_PROMPT];
    frame.extend_from_slice(&(MAX_TOTAL_LEN as u32 + 1).to_le_bytes());
    assert_eq!(frame_len(&frame), None);
    assert_eq!(session_takes(&frame), Err("malformed header"));
    serves_next();
}

#[test]
fn ipc_trailing_body_bytes_tolerated() {
    let mut body = valid_body(".");
    body.extend_from_slice(b"future-field");
    let frame = framed(&body);
    assert_eq!(session_takes(&frame), Ok(frame.len()));
}

#[test]
fn ipc_keymap_over_cap_disconnects_then_serves() {
    let keymap = "k".repeat(MAX_KEYMAP_LEN + 1);
    let mut body = Vec::new();
    body.extend_from_slice(&1u32.to_le_bytes());
    body.push(b'.');
    body.extend_from_slice(&0i32.to_le_bytes());
    body.extend_from_slice(&(keymap.len() as u16).to_le_bytes());
    body.extend_from_slice(keymap.as_bytes());
    body.extend_from_slice(&0u32.to_le_bytes());
    body.extend_from_slice(&0u16.to_le_bytes());
    body.push(0);
    assert_eq!(session_takes(&framed(&body)), Err("bad frame"));
    serves_next();
}

#[test]
fn ipc_config_over_cap_disconnects_then_serves() {
    let config = "c".repeat(MAX_CONFIG_LEN + 1);
    let mut body = Vec::new();
    body.extend_from_slice(&1u32.to_le_bytes());
    body.push(b'.');
    body.extend_from_slice(&0i32.to_le_bytes());
    body.extend_from_slice(&0u16.to_le_bytes());
    body.extend_from_slice(&0u32.to_le_bytes());
    body.extend_from_slice(&(config.len() as u16).to_le_bytes());
    body.extend_from_slice(config.as_bytes());
    body.push(0);
    assert_eq!(session_takes(&framed(&body)), Err("bad frame"));
    serves_next();
}

#[test]
fn ipc_bad_type_disconnects_then_serves() {
    let mut frame = encode_request(REQ_PROMPT, ".", 0, "", 120, None, false);
    frame[0] = 0xFF;
    assert_eq!(session_takes(&frame), Err("malformed header"));
    serves_next();
}
