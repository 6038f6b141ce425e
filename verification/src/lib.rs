//! Core logic of an HLS (HTTP Live Streaming) single-variant VOD downloader:
//! playlist parsing, key resolution policy, segment fetch/retry/decrypt
//! decisions, ordered assembly, remux-tool provisioning and pipeline
//! orchestration. All I/O is driven by a thin unverified shell through the
//! decision functions and state machines defined here.

pub mod text;
pub mod hls_parser;
pub mod crypto;
pub mod segment_io;
pub mod util;
pub mod ffmpeg_embed;
pub mod pipeline;
