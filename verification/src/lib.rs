use vstd::prelude::*;


pub mod cache;
pub mod daemon;
pub mod ffi;
pub mod git_dir;
pub mod gitignore;
pub mod gitignore_laws;
pub mod json_props;
pub mod lru_cache;
pub mod modules;
pub mod path;
pub mod protocol;
pub mod render;
pub mod session;
pub mod stats;
pub mod text;
pub mod timings;
pub mod watch;
pub mod watch_runs;

pub use protocol::{
    encode_request, parse_request, valid_request_type, ClientProps, ParsedRequest, RequestKind,
    HEADER_LEN, MAX_CONFIG_LEN, MAX_CWD_LEN, MAX_FRAME_LEN, MAX_KEYMAP_LEN, MAX_TOTAL_LEN,
    REQ_PROMPT, REQ_TIMINGS,
};
