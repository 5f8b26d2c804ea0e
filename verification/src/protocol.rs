//! The binary wire protocol between the shell client and the daemon.
//!
//! REQUEST  `[u8 request type][u32 LE total_len][body]`, at most `MAX_FRAME_LEN` bytes;
//!          type 1 asks for the prompt, type 2 for a timings report; both share the body.
//! body     `[u32 cwd_len][cwd]` (cwd_len <= `MAX_CWD_LEN`)
//!          `[i32 status][u16 keymap_len][keymap]` (<= `MAX_KEYMAP_LEN`, empty means none)
//!          `[u32 width][u16 config_len][config]` (<= `MAX_CONFIG_LEN`, empty means none)
//!          `[u8 disable cache]` (non-zero means true)
//! RESPONSE `[u32 LE len][utf8 payload]`
//!
//! Text fields are decoded lossily. An unknown request type, an over-cap length, or a field
//! reading past the body rejects the frame; bytes after the last field are tolerated.
use vstd::bytes::{
    lemma_auto_spec_u16_to_from_le_bytes, lemma_auto_spec_u32_to_from_le_bytes,
    spec_u16_from_le_bytes, spec_u16_to_le_bytes, spec_u32_from_le_bytes, spec_u32_to_le_bytes,
    u16_from_le_bytes, u16_to_le_bytes, u32_from_le_bytes, u32_to_le_bytes,
};
use vstd::prelude::*;
use vstd::string::StringSliceAdditionalSpecFns;
use vstd::utf8::{decode_utf8, encode_utf8, encode_utf8_decode_utf8, encode_utf8_valid_utf8, valid_utf8};

use crate::text::{lossy_string, utf8_lossy};

verus! {

/// Request type byte of a prompt request.
pub const REQ_PROMPT: u8 = 1;

/// Request type byte of a timings-report request.
pub const REQ_TIMINGS: u8 = 2;

/// Length of the frame header: the type byte and the little-endian body length.
pub const HEADER_LEN: usize = 5;

/// Largest frame the daemon reads.
pub const MAX_FRAME_LEN: usize = 65536;

/// Largest body length a header may announce.
pub const MAX_TOTAL_LEN: usize = MAX_FRAME_LEN - HEADER_LEN;

/// Largest working-directory field, in bytes.
pub const MAX_CWD_LEN: usize = 32768;

/// Largest keymap field, in bytes.
pub const MAX_KEYMAP_LEN: usize = 256;

/// Largest config-path field, in bytes.
pub const MAX_CONFIG_LEN: usize = 4096;

/// What a request asks for.
#[derive(Debug, Clone, Copy, PartialEq, Eq, Structural)]
pub enum RequestKind {
    Prompt,
    Timings,
}

/// The client's shell state that a request carries.
#[derive(Debug, Clone)]
pub struct ClientProps {
    pub status_code: i32,
    pub keymap: Option<String>,
    pub terminal_width: usize,
    pub starship_config: Option<String>,
    pub disable_cache: bool,
}

/// A decoded request.
#[derive(Debug, Clone)]
pub struct ParsedRequest {
    pub kind: RequestKind,
    pub cwd: String,
    pub props: ClientProps,
}

/// The fields of a well-formed request frame, text fields as raw bytes.
pub struct FrameFields {
    pub kind: RequestKind,
    pub cwd: Seq<u8>,
    pub status: i32,
    pub keymap: Option<Seq<u8>>,
    pub width: u32,
    pub config: Option<Seq<u8>>,
    pub disable: bool,
}

/// The little-endian `u32` stored at `off` in `s`.
pub open spec fn le_u32_at(s: Seq<u8>, off: int) -> u32 {
    spec_u32_from_le_bytes(s.subrange(off, off + 4))
}

/// The little-endian `u16` stored at `off` in `s`.
pub open spec fn le_u16_at(s: Seq<u8>, off: int) -> u16 {
    spec_u16_from_le_bytes(s.subrange(off, off + 2))
}

/// The request kind a type byte names.
pub open spec fn kind_of_byte(b: u8) -> RequestKind {
    if b == REQ_PROMPT {
        RequestKind::Prompt
    } else {
        RequestKind::Timings
    }
}

/// The fields of a request body, or `None` where the body is malformed.
pub open spec fn spec_parse_body(kind: RequestKind, b: Seq<u8>) -> Option<FrameFields> {
    let n = b.len() as int;
    if n < 4 {
        None
    } else {
        let cwd_len = le_u32_at(b, 0) as int;
        let o1 = 4 + cwd_len;
        if cwd_len > MAX_CWD_LEN || o1 + 4 + 2 > n {
            None
        } else {
            let o2 = o1 + 4;
            let klen = le_u16_at(b, o2) as int;
            let o3 = o2 + 2;
            if klen > MAX_KEYMAP_LEN || o3 + klen + 4 + 2 > n {
                None
            } else {
                let o4 = o3 + klen;
                let o5 = o4 + 4;
                let clen = le_u16_at(b, o5) as int;
                let o6 = o5 + 2;
                if clen > MAX_CONFIG_LEN || o6 + clen + 1 > n {
                    None
                } else {
                    Some(
                        FrameFields {
                            kind,
                            cwd: b.subrange(4, o1),
                            status: le_u32_at(b, o1) as i32,
                            keymap: if klen == 0 {
                                None
                            } else {
                                Some(b.subrange(o3, o3 + klen))
                            },
                            width: le_u32_at(b, o4),
                            config: if clen == 0 {
                                None
                            } else {
                                Some(b.subrange(o6, o6 + clen))
                            },
                            disable: b[o6 + clen] != 0,
                        },
                    )
                }
            }
        }
    }
}

/// The fields of a request frame, or `None` where the frame is rejected.
pub open spec fn spec_parse_request(data: Seq<u8>) -> Option<FrameFields> {
    if data.len() < HEADER_LEN {
        None
    } else if data[0] != REQ_PROMPT && data[0] != REQ_TIMINGS {
        None
    } else {
        let total = le_u32_at(data, 1) as int;
        if total > MAX_TOTAL_LEN || HEADER_LEN + total > data.len() {
            None
        } else {
            spec_parse_body(kind_of_byte(data[0]), data.subrange(HEADER_LEN as int, HEADER_LEN + total))
        }
    }
}

/// A decoded optional text field as the lossy decoding of its bytes, which for valid
/// UTF-8 is the plain decoding.
pub open spec fn text_field_matches(s: Option<String>, b: Option<Seq<u8>>) -> bool {
    match (s, b) {
        (None, None) => true,
        (Some(s), Some(b)) => s@ == utf8_lossy(b) && (valid_utf8(b) ==> s@ == decode_utf8(b)),
        _ => false,
    }
}

/// `r` is the decoded form of the frame fields `f`.
pub open spec fn request_matches(r: ParsedRequest, f: FrameFields) -> bool {
    &&& r.kind == f.kind
    &&& r.cwd@ == utf8_lossy(f.cwd)
    &&& valid_utf8(f.cwd) ==> r.cwd@ == decode_utf8(f.cwd)
    &&& r.props.status_code == f.status
    &&& text_field_matches(r.props.keymap, f.keymap)
    &&& r.props.terminal_width == f.width as usize
    &&& text_field_matches(r.props.starship_config, f.config)
    &&& r.props.disable_cache == f.disable
}

/// The body of a request for the given fields, lengths written as the low bits of the
/// byte counts.
pub open spec fn spec_encode_body(
    cwd: Seq<u8>,
    status: i32,
    keymap: Seq<u8>,
    width: u32,
    config: Option<Seq<u8>>,
    disable: bool,
) -> Seq<u8> {
    spec_u32_to_le_bytes(cwd.len() as u32) + cwd + spec_u32_to_le_bytes(status as u32)
        + spec_u16_to_le_bytes(keymap.len() as u16) + keymap + spec_u32_to_le_bytes(width) + (
    match config {
        Some(c) => spec_u16_to_le_bytes(c.len() as u16) + c,
        None => spec_u16_to_le_bytes(0),
    }) + seq![if disable { 1u8 } else { 0u8 }]
}

/// A whole request frame for the given fields.
pub open spec fn spec_encode_request(
    kind: u8,
    cwd: Seq<u8>,
    status: i32,
    keymap: Seq<u8>,
    width: u32,
    config: Option<Seq<u8>>,
    disable: bool,
) -> Seq<u8> {
    let body = spec_encode_body(cwd, status, keymap, width, config, disable);
    seq![kind] + spec_u32_to_le_bytes(body.len() as u32) + body
}

/// The UTF-8 bytes of an optional text field.
pub open spec fn opt_bytes(s: Option<&str>) -> Option<Seq<u8>> {
    match s {
        Some(s) => Some(s.spec_bytes()),
        None => None,
    }
}

/// Whether `b` is a request type byte that the daemon answers.
pub fn valid_request_type(b: u8) -> (r: bool)
    ensures
        r == (b == REQ_PROMPT || b == REQ_TIMINGS),
{
    b == REQ_PROMPT || b == REQ_TIMINGS
}

/// The length of the whole frame that a header announces: `None` where the request type is
/// unknown or the body length is over the cap, and the connection is dropped.
pub open spec fn spec_frame_len(header: Seq<u8>) -> Option<int> {
    if header[0] != REQ_PROMPT && header[0] != REQ_TIMINGS {
        None
    } else if le_u32_at(header, 1) > MAX_TOTAL_LEN {
        None
    } else {
        Some(HEADER_LEN + le_u32_at(header, 1))
    }
}

/// The length of the frame that `header` announces, as `spec_frame_len` states; at most
/// `MAX_FRAME_LEN`.
pub fn frame_len(header: &[u8]) -> (r: Option<usize>)
    requires
        header@.len() >= HEADER_LEN,
    ensures
        match r {
            Some(n) => spec_frame_len(header@) == Some(n as int) && HEADER_LEN <= n <= MAX_FRAME_LEN,
            None => spec_frame_len(header@) is None,
        },
{
    if !valid_request_type(header[0]) {
        return None;
    }
    let total = u32_from_le_bytes(&header[1..HEADER_LEN]) as usize;
    assert(header@.subrange(1, 5) =~= header@.subrange(1, 1int + 4));
    if total > MAX_TOTAL_LEN {
        return None;
    }
    Some(HEADER_LEN + total)
}

/// A response frame: the payload's length in bytes, little-endian in four bytes, then the
/// payload's UTF-8 bytes.
pub open spec fn spec_encode_response(payload: Seq<char>) -> Seq<u8> {
    spec_u32_to_le_bytes(encode_utf8(payload).len() as u32) + encode_utf8(payload)
}

/// The response frame carrying `output`.
pub fn encode_response(output: &str) -> (r: Vec<u8>)
    requires
        encode_utf8(output@).len() <= u32::MAX,
    ensures
        r@ == spec_encode_response(output@),
{
    let bytes = output.as_bytes();
    let len = u32_to_le_bytes(bytes.len() as u32);
    let mut out: Vec<u8> = Vec::new();
    push_bytes(&mut out, len.as_slice());
    push_bytes(&mut out, bytes);
    assert(out@ =~= spec_encode_response(output@));
    out
}

/// The name of the pipe the daemon serves on, unless configured otherwise.
pub const PIPE_NAME: &'static str = "\\\\.\\pipe\\starship-daemon";

/// The prefix of every pipe name.
pub open spec fn pipe_prefix() -> Seq<char> {
    "\\\\.\\pipe\\"@
}

/// The pipe to serve on for the `STARSHIP_DAEMON_PIPE` value `var`: a full pipe name as is,
/// a bare name under the pipe prefix, and `PIPE_NAME` when unset.
pub open spec fn spec_pipe_name(var: Option<Seq<char>>) -> Seq<char> {
    match var {
        Some(n) => if crate::text::starts_with(n, pipe_prefix()) {
            n
        } else {
            pipe_prefix() + n
        },
        None => PIPE_NAME@,
    }
}

/// The pipe name for the `STARSHIP_DAEMON_PIPE` value `var`, as `spec_pipe_name` states.
pub fn pipe_name_from(var: Option<String>) -> (r: String)
    ensures
        r@ == spec_pipe_name(crate::text::opt_chars(var)),
{
    match var {
        Some(n) => {
            let prefix = "\\\\.\\pipe\\";
            let chars = crate::text::str_chars(n.as_str());
            let pchars = crate::text::str_chars(prefix);
            if crate::text::starts_with_at(&chars, 0, &pchars) {
                assert(chars@.subrange(0, chars@.len() as int) =~= chars@);
                n
            } else {
                assert(chars@.subrange(0, chars@.len() as int) =~= chars@);
                let mut r = prefix.to_owned();
                crate::text::push_str(&mut r, n.as_str());
                r
            }
        },
        None => PIPE_NAME.to_owned(),
    }
}

/// The next `n` bytes of `body` from `*off`, advancing `*off` past them; `None`, with
/// `*off` unchanged, where fewer than `n` bytes remain.
fn read_slice<'a>(body: &'a [u8], off: &mut usize, n: usize) -> (r: Option<&'a [u8]>)
    requires
        *old(off) <= body@.len(),
    ensures
        match r {
            Some(s) => {
                &&& old(off) + n <= body@.len()
                &&& s@ == body@.subrange(*old(off) as int, old(off) + n)
                &&& *final(off) == old(off) + n
            },
            None => old(off) + n > body@.len() && *final(off) == *old(off),
        },
{
    if n > body.len() - *off {
        return None;
    }
    let s = &body[*off..*off + n];
    *off = *off + n;
    Some(s)
}

fn read_u32(body: &[u8], off: &mut usize) -> (r: Option<u32>)
    requires
        *old(off) <= body@.len(),
    ensures
        match r {
            Some(v) => {
                &&& old(off) + 4 <= body@.len()
                &&& v == le_u32_at(body@, *old(off) as int)
                &&& *final(off) == old(off) + 4
            },
            None => old(off) + 4 > body@.len(),
        },
{
    match read_slice(body, off, 4) {
        Some(s) => Some(u32_from_le_bytes(s)),
        None => None,
    }
}

fn read_i32(body: &[u8], off: &mut usize) -> (r: Option<i32>)
    requires
        *old(off) <= body@.len(),
    ensures
        match r {
            Some(v) => {
                &&& old(off) + 4 <= body@.len()
                &&& v == le_u32_at(body@, *old(off) as int) as i32
                &&& *final(off) == old(off) + 4
            },
            None => old(off) + 4 > body@.len(),
        },
{
    match read_u32(body, off) {
        Some(v) => Some(v as i32),
        None => None,
    }
}

fn read_u16(body: &[u8], off: &mut usize) -> (r: Option<u16>)
    requires
        *old(off) <= body@.len(),
    ensures
        match r {
            Some(v) => {
                &&& old(off) + 2 <= body@.len()
                &&& v == le_u16_at(body@, *old(off) as int)
                &&& *final(off) == old(off) + 2
            },
            None => old(off) + 2 > body@.len(),
        },
{
    match read_slice(body, off, 2) {
        Some(s) => Some(u16_from_le_bytes(s)),
        None => None,
    }
}

/// Decodes a request frame; `None` where the frame is rejected (see the module
/// documentation), exactly as `spec_parse_request` describes.
pub fn parse_request(data: &[u8]) -> (r: Option<ParsedRequest>)
    ensures
        r is Some <==> spec_parse_request(data@) is Some,
        r is Some ==> request_matches(r->0, spec_parse_request(data@)->0),
{
    if data.len() < HEADER_LEN {
        return None;
    }
    let kind = if data[0] == REQ_PROMPT {
        RequestKind::Prompt
    } else if data[0] == REQ_TIMINGS {
        RequestKind::Timings
    } else {
        return None;
    };
    let total_len = u32_from_le_bytes(&data[1..HEADER_LEN]) as usize;
    if total_len > MAX_TOTAL_LEN {
        return None;
    }
    if HEADER_LEN + total_len > data.len() {
        return None;
    }
    let body = &data[HEADER_LEN..HEADER_LEN + total_len];
    let ghost b = body@;
    assert(b == data@.subrange(HEADER_LEN as int, HEADER_LEN + total_len));
    let mut off: usize = 0;

    let cwd_len = match read_u32(body, &mut off) {
        Some(v) => v as usize,
        None => return None,
    };
    if cwd_len > MAX_CWD_LEN {
        return None;
    }
    let cwd = match read_slice(body, &mut off, cwd_len) {
        Some(s) => lossy_string(s),
        None => return None,
    };
    let status_code = match read_i32(body, &mut off) {
        Some(v) => v,
        None => return None,
    };
    let keymap_len = match read_u16(body, &mut off) {
        Some(v) => v as usize,
        None => return None,
    };
    let keymap = if keymap_len == 0 {
        None
    } else {
        if keymap_len > MAX_KEYMAP_LEN {
            return None;
        }
        match read_slice(body, &mut off, keymap_len) {
            Some(s) => Some(lossy_string(s)),
            None => return None,
        }
    };
    let terminal_width = match read_u32(body, &mut off) {
        Some(v) => v as usize,
        None => return None,
    };
    let config_len = match read_u16(body, &mut off) {
        Some(v) => v as usize,
        None => return None,
    };
    let starship_config = if config_len == 0 {
        None
    } else {
        if config_len > MAX_CONFIG_LEN {
            return None;
        }
        match read_slice(body, &mut off, config_len) {
            Some(s) => Some(lossy_string(s)),
            None => return None,
        }
    };
    let disable = match read_slice(body, &mut off, 1) {
        Some(s) => s[0],
        None => return None,
    };
    Some(
        ParsedRequest {
            kind,
            cwd,
            props: ClientProps {
                status_code,
                keymap,
                terminal_width,
                starship_config,
                disable_cache: disable != 0,
            },
        },
    )
}

/// Appends `bytes` to `out`.
fn push_bytes(out: &mut Vec<u8>, bytes: &[u8])
    ensures
        final(out)@ == old(out)@ + bytes@,
{
    let ghost start = out@;
    let mut i: usize = 0;
    while i < bytes.len()
        invariant
            i <= bytes@.len(),
            out@ == start + bytes@.subrange(0, i as int),
        decreases bytes@.len() - i,
    {
        out.push(bytes[i]);
        i = i + 1;
        assert(out@ =~= start + bytes@.subrange(0, i as int));
    }
    assert(bytes@.subrange(0, i as int) =~= bytes@);
}

/// Builds the request frame that a client sends; length fields hold the low bits of the
/// byte counts, and `config` is written as an empty field when absent.
pub fn encode_request(
    kind: u8,
    cwd: &str,
    status: i32,
    keymap: &str,
    width: u32,
    config: Option<&str>,
    disable: bool,
) -> (r: Vec<u8>)
    ensures
        r@ == spec_encode_request(
            kind,
            cwd.spec_bytes(),
            status,
            keymap.spec_bytes(),
            width,
            opt_bytes(config),
            disable,
        ),
{
    let mut body: Vec<u8> = Vec::new();
    let cwd_b = cwd.as_bytes();
    let cwd_len = u32_to_le_bytes(cwd_b.len() as u32);
    push_bytes(&mut body, cwd_len.as_slice());
    push_bytes(&mut body, cwd_b);
    let status_b = u32_to_le_bytes(status as u32);
    push_bytes(&mut body, status_b.as_slice());
    let keymap_b = keymap.as_bytes();
    let keymap_len = u16_to_le_bytes(keymap_b.len() as u16);
    push_bytes(&mut body, keymap_len.as_slice());
    push_bytes(&mut body, keymap_b);
    let width_b = u32_to_le_bytes(width);
    push_bytes(&mut body, width_b.as_slice());
    match config {
        Some(c) => {
            let config_b = c.as_bytes();
            let config_len = u16_to_le_bytes(config_b.len() as u16);
            push_bytes(&mut body, config_len.as_slice());
            push_bytes(&mut body, config_b);
        },
        None => {
            let zero = u16_to_le_bytes(0);
            push_bytes(&mut body, zero.as_slice());
        },
    }
    body.push(if disable { 1u8 } else { 0u8 });
    assert(body@ =~= spec_encode_body(
        cwd.spec_bytes(),
        status,
        keymap.spec_bytes(),
        width,
        opt_bytes(config),
        disable,
    ));

    let mut out: Vec<u8> = Vec::new();
    out.push(kind);
    let body_len = u32_to_le_bytes(body.len() as u32);
    push_bytes(&mut out, body_len.as_slice());
    push_bytes(&mut out, body.as_slice());
    out
}

/// Decoding an encoded request gives back its fields: the kind, the working directory, the
/// status, the width and the disable flag unchanged, and the keymap and config as given,
/// an empty one read back as absent. It holds whenever the fields are within the caps.
#[verifier::spinoff_prover]
#[verifier::rlimit(40)]
pub proof fn lemma_request_roundtrip(
    kind: u8,
    cwd: Seq<u8>,
    status: i32,
    keymap: Seq<u8>,
    width: u32,
    config: Option<Seq<u8>>,
    disable: bool,
)
    requires
        kind == REQ_PROMPT || kind == REQ_TIMINGS,
        cwd.len() <= MAX_CWD_LEN,
        keymap.len() <= MAX_KEYMAP_LEN,
        config is Some ==> config->0.len() <= MAX_CONFIG_LEN,
    ensures
        spec_parse_request(spec_encode_request(kind, cwd, status, keymap, width, config, disable))
            == Some(
            FrameFields {
                kind: kind_of_byte(kind),
                cwd,
                status,
                keymap: if keymap.len() == 0 {
                    None
                } else {
                    Some(keymap)
                },
                width,
                config: match config {
                    Some(c) => if c.len() == 0 {
                        None
                    } else {
                        Some(c)
                    },
                    None => None,
                },
                disable,
            },
        ),
{
    lemma_auto_spec_u32_to_from_le_bytes();
    lemma_auto_spec_u16_to_from_le_bytes();
    let cfg_part = match config {
        Some(c) => spec_u16_to_le_bytes(c.len() as u16) + c,
        None => spec_u16_to_le_bytes(0),
    };
    let clen: int = match config {
        Some(c) => c.len() as int,
        None => 0,
    };
    let flag = seq![if disable { 1u8 } else { 0u8 }];
    let body = spec_encode_body(cwd, status, keymap, width, config, disable);
    let data = spec_encode_request(kind, cwd, status, keymap, width, config, disable);
    let c = cwd.len() as int;
    let k = keymap.len() as int;
    assert(cfg_part.len() == 2 + clen);
    assert(body.len() == 17 + c + k + clen);
    assert(data.subrange(1, 5) =~= spec_u32_to_le_bytes(body.len() as u32));
    assert(data.subrange(5, 5 + body.len() as int) =~= body);
    assert(body.subrange(0, 4) =~= spec_u32_to_le_bytes(cwd.len() as u32));
    assert(body.subrange(4, 4 + c) =~= cwd);
    assert(body.subrange(4 + c, 8 + c) =~= spec_u32_to_le_bytes(status as u32));
    assert(body.subrange(8 + c, 10 + c) =~= spec_u16_to_le_bytes(keymap.len() as u16));
    assert(body.subrange(10 + c, 10 + c + k) =~= keymap);
    assert(body.subrange(10 + c + k, 14 + c + k) =~= spec_u32_to_le_bytes(width));
    match config {
        Some(cf) => {
            assert(body.subrange(14 + c + k, 16 + c + k) =~= spec_u16_to_le_bytes(cf.len() as u16));
            assert(body.subrange(16 + c + k, 16 + c + k + clen) =~= cf);
        },
        None => {
            assert(body.subrange(14 + c + k, 16 + c + k) =~= spec_u16_to_le_bytes(0));
        },
    }
    assert(body[16 + c + k + clen] == flag[0]);
    assert((status as u32) as i32 == status) by (bit_vector);
}

} // verus!
