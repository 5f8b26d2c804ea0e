use starship_daemon::protocol::{encode_response, frame_len, pipe_name_from, PIPE_NAME};
use starship_daemon::session::{
    completion_result, consume_op, pending_check, session_to_evict, yields_after,
    DisconnectReason, FrameReader, OpOutcome, ReadStage, ReadStep, SessionOp, MAX_SESSIONS,
};
use starship_daemon::{encode_request, HEADER_LEN, MAX_TOTAL_LEN, REQ_PROMPT};

#[test]
fn frame_len_checks_type_and_cap() {
    let f = encode_request(REQ_PROMPT, "C:\\x", 0, "", 120, None, false);
    assert_eq!(frame_len(&f[..HEADER_LEN]), Some(f.len()));
    let mut bad = f.clone();
    bad[0] = 9;
    assert_eq!(frame_len(&bad[..HEADER_LEN]), None);
    let mut over = vec![REQ_PROMPT];
    over.extend_from_slice(&((MAX_TOTAL_LEN as u32) + 1).to_le_bytes());
    assert_eq!(frame_len(&over), None, "total_len over the cap disconnects");
    let mut exact = vec![REQ_PROMPT];
    exact.extend_from_slice(&(MAX_TOTAL_LEN as u32).to_le_bytes());
    assert_eq!(frame_len(&exact), Some(65536));
}

#[test]
fn response_is_length_prefixed() {
    assert_eq!(encode_response(""), vec![0, 0, 0, 0]);
    assert_eq!(encode_response("> "), vec![2, 0, 0, 0, b'>', b' ']);
    let r = encode_response("\u{e9}");
    assert_eq!(r, vec![2, 0, 0, 0, 0xc3, 0xa9]);
}

#[test]
fn pipe_name_honours_the_override() {
    assert_eq!(pipe_name_from(None), PIPE_NAME);
    assert_eq!(PIPE_NAME, r"\\.\pipe\starship-daemon");
    assert_eq!(pipe_name_from(Some("mine".to_string())), r"\\.\pipe\mine");
    assert_eq!(pipe_name_from(Some(r"\\.\pipe\full".to_string())), r"\\.\pipe\full");
}

#[test]
fn reader_reads_header_then_body() {
    let f = encode_request(REQ_PROMPT, "C:\\x", 0, "vi", 120, None, false);
    let mut r = FrameReader::new();
    assert_eq!(r.advance(&f[..0]), ReadStep::Read { offset: 0, count: HEADER_LEN });
    r.received(3);
    assert_eq!(r.advance(&f[..3]), ReadStep::Read { offset: 3, count: 2 });
    r.received(2);
    assert_eq!(r.advance(&f[..5]), ReadStep::BodyNext);
    assert_eq!(r.stage, ReadStage::Body);
    assert_eq!(r.want, f.len());
    assert_eq!(r.advance(&f[..5]), ReadStep::Read { offset: 5, count: f.len() - 5 });
    r.received(f.len() - 5);
    assert_eq!(r.advance(&f), ReadStep::Complete(f.len()));
    r.reset();
    assert_eq!(r.got, 0);
    assert_eq!(r.stage, ReadStage::Header);
}

#[test]
fn reader_rejects_bad_header() {
    let mut r = FrameReader::new();
    r.received(5);
    assert_eq!(r.advance(&[7, 0, 0, 0, 0]), ReadStep::Malformed);
}

#[test]
fn evicts_least_recently_active_when_full() {
    let connected = vec![true; MAX_SESSIONS];
    let mut last: Vec<u64> = (0..MAX_SESSIONS as u64).map(|i| 100 - i).collect();
    assert_eq!(session_to_evict(&connected, &last), Some(MAX_SESSIONS - 1));
    last[2] = 1;
    last[5] = 1;
    assert_eq!(session_to_evict(&connected, &last), Some(2), "the first of equals");
    let mut some = connected.clone();
    some[0] = false;
    assert_eq!(session_to_evict(&some, &last), None, "a free session means no eviction");
}

#[test]
fn fired_operations_are_settled() {
    assert_eq!(consume_op(SessionOp::Connect, None), OpOutcome::Connected);
    assert_eq!(consume_op(SessionOp::ReadPending, Some(0)), OpOutcome::Disconnect(DisconnectReason::ClientClosed));
    assert_eq!(consume_op(SessionOp::ReadPending, Some(5)), OpOutcome::Read(5));
    assert_eq!(consume_op(SessionOp::ReadPending, None), OpOutcome::Park);
    assert_eq!(consume_op(SessionOp::ReadBuffered(3), None), OpOutcome::Read(3));
    assert_eq!(consume_op(SessionOp::WritePending, Some(9)), OpOutcome::Wrote);
    assert_eq!(consume_op(SessionOp::WritePending, Some(0)), OpOutcome::Disconnect(DisconnectReason::ClientClosed));
    assert_eq!(consume_op(SessionOp::Idle, None), OpOutcome::Disconnect(DisconnectReason::IdleDefensive));
    assert_eq!(pending_check(SessionOp::ReadPending, 7), Some(None));
    assert_eq!(pending_check(SessionOp::WritePending, 7), Some(Some(7)));
    assert_eq!(pending_check(SessionOp::Connect, 7), None);
    assert_eq!(completion_result(true, 4, Some(4), false), Some(4));
    assert_eq!(completion_result(true, 3, Some(4), false), Some(0), "a short write counts as closed");
    assert_eq!(completion_result(true, 3, None, false), Some(3));
    assert_eq!(completion_result(false, 0, None, true), None);
    assert_eq!(completion_result(false, 0, None, false), Some(0));
    assert!(!yields_after(7));
    assert!(yields_after(8));
}
