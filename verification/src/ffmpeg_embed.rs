//! Tool provisioner: guarantees a working external remux executable from an
//! embedded zstd-compressed payload, cached under a checksum-named directory
//! so that a changed payload never reuses a stale binary.
//!
//! All file-system and process effects are performed by the unverified
//! shell; `EnsureMachine` decides each step. Its transitions are stated by
//! `spec_ensure_next`, over which the idempotence and self-healing laws are
//! proved: a cached executable that passes its probe is returned without
//! re-extraction, and a cached executable that fails its probe forces
//! re-extraction, which must be probed again before its path is returned.

use vstd::prelude::*;

use sha2::Digest;

use crate::text::{hex_encode_bytes, spec_hex_encode};

verus! {

/// What the SHA-256 digest of a byte string is: a function of the bytes
/// alone, 32 bytes long.
pub uninterp spec fn sha256_of(data: Seq<u8>) -> Seq<u8>;

/// Relies on sha2::Sha256 (the Digest::digest method): the SHA-256 digest
/// depends on the input bytes alone and is exactly 32 bytes.
#[verifier::external_body]
fn sha256(data: &[u8]) -> (r: Vec<u8>)
    ensures
        r@ == sha256_of(data@),
        r@.len() == 32,
{
    sha2::Sha256::digest(data).to_vec()
}

/// What zstd decompression of a byte string yields: a function of the
/// compressed bytes alone; nothing exactly when they are not a valid zstd
/// stream.
pub uninterp spec fn zstd_decode_of(data: Seq<u8>) -> Option<Seq<u8>>;

/// Relies on zstd::stream::decode_all: deterministic in the compressed
/// bytes, failing exactly on invalid input.
#[verifier::external_body]
pub(crate) fn zstd_decompress(data: &[u8]) -> (r: Option<Vec<u8>>)
    ensures
        r is Some <==> zstd_decode_of(data@) is Some,
        r is Some ==> r.unwrap()@ == zstd_decode_of(data@).unwrap(),
{
    match zstd::stream::decode_all(data) {
        Ok(v) => Some(v),
        Err(_) => None,
    }
}

/// Hex-encoded SHA-256 checksum of the embedded compressed payload.
pub open spec fn spec_compressed_checksum(payload: Seq<u8>) -> Seq<char> {
    spec_hex_encode(sha256_of(payload))
}

pub fn compressed_checksum(payload: &[u8]) -> (r: String)
    ensures
        r@ == spec_compressed_checksum(payload@),
        r@.len() == 64,
{
    let digest = sha256(payload);
    hex_encode_bytes(digest.as_slice())
}

/// The checksum-named cache directory under the platform cache root.
pub open spec fn spec_ffmpeg_cache_dir(root: Seq<char>, payload: Seq<u8>) -> Seq<char> {
    root + "/hls-downloader/embedded-ffmpeg/"@ + spec_compressed_checksum(payload)
}

/// The cached executable's full path. The executable file name is the
/// platform's (`ffmpeg`, or `ffmpeg.exe` on Windows); the shell picks it.
pub open spec fn spec_ffmpeg_exec_path(root: Seq<char>, payload: Seq<u8>, exe: Seq<char>) -> Seq<
    char,
> {
    spec_ffmpeg_cache_dir(root, payload) + "/"@ + exe
}

pub fn ffmpeg_exec_path(root: &str, payload: &[u8], exe_name: &str) -> (r: String)
    ensures
        r@ == spec_ffmpeg_exec_path(root@, payload@, exe_name@),
{
    let checksum = compressed_checksum(payload);
    let mut out = root.to_owned();
    out.append("/hls-downloader/embedded-ffmpeg/");
    out.append(checksum.as_str());
    out.append("/");
    out.append(exe_name);
    proof {
        assert(out@ =~= spec_ffmpeg_exec_path(root@, payload@, exe_name@));
    }
    out
}

/// Resolved handle to a verified remux executable.
#[derive(Debug, Clone, PartialEq)]
pub struct FFmpegHandle {
    pub exec_path: String,
}

impl FFmpegHandle {
    /// Path of the verified executable.
    pub fn path(&self) -> (r: &String)
        ensures
            r@ == self.exec_path@,
    {
        &self.exec_path
    }
}

/// Why provisioning failed.
#[derive(Debug, Clone, PartialEq)]
pub enum ToolProvisionError {
    /// The platform names no cache directory.
    NoCacheRoot,
    /// The embedded payload is not a valid zstd stream.
    BadPayload,
    /// The extracted bytes could not be written (the error text).
    WriteFailed(String),
    /// The freshly extracted executable failed its probe; the shell removes
    /// the corrupt file.
    ProbeFailed,
}

pub enum SpecToolProvisionError {
    NoCacheRoot,
    BadPayload,
    WriteFailed(Seq<char>),
    ProbeFailed,
}

impl View for ToolProvisionError {
    type V = SpecToolProvisionError;

    open spec fn view(&self) -> SpecToolProvisionError {
        match self {
            ToolProvisionError::NoCacheRoot => SpecToolProvisionError::NoCacheRoot,
            ToolProvisionError::BadPayload => SpecToolProvisionError::BadPayload,
            ToolProvisionError::WriteFailed(t) => SpecToolProvisionError::WriteFailed(t@),
            ToolProvisionError::ProbeFailed => SpecToolProvisionError::ProbeFailed,
        }
    }
}

#[derive(Clone, Copy, PartialEq, Eq, Structural, Debug)]
pub enum EnsureState {
    /// Waiting to hear whether a cached file exists.
    CheckExists,
    /// Probing an already cached executable.
    ProbeCached,
    /// Waiting for the extracted bytes to be written.
    AwaitWrite,
    /// Probing a freshly extracted executable.
    ProbeFresh,
    /// A verified path was returned.
    Done,
    /// Terminal failure.
    Failed,
}

/// What the shell reports back to the machine.
#[derive(Debug)]
pub enum EnsureEvent {
    /// Whether a file exists at the cache path.
    Exists(bool),
    /// Whether the probe (`<path> -version`) exited successfully.
    Probe(bool),
    /// Whether writing the extracted bytes (and setting the executable bit)
    /// succeeded; the error text otherwise.
    Written(Result<(), String>),
}

pub enum SpecEnsureEvent {
    Exists(bool),
    Probe(bool),
    Written(Result<(), Seq<char>>),
}

impl View for EnsureEvent {
    type V = SpecEnsureEvent;

    open spec fn view(&self) -> SpecEnsureEvent {
        match self {
            EnsureEvent::Exists(b) => SpecEnsureEvent::Exists(*b),
            EnsureEvent::Probe(b) => SpecEnsureEvent::Probe(*b),
            EnsureEvent::Written(r) => SpecEnsureEvent::Written(
                match r {
                    Ok(_) => Ok(()),
                    Err(t) => Err(t@),
                },
            ),
        }
    }
}

/// What the shell must do next.
#[derive(Debug, PartialEq)]
pub enum EnsureAction {
    /// Report whether a file exists at this path.
    CheckFile(String),
    /// Run `<path> -version` and report whether it exited 0.
    RunProbe(String),
    /// Remove whatever stands at the path, write these bytes there, set the
    /// executable bit, and report the outcome.
    WriteExtracted(String, Vec<u8>),
    /// Provisioning succeeded: the executable at this handle has passed its
    /// probe in this run.
    ReturnPath(FFmpegHandle),
    /// Provisioning failed.
    Fail(ToolProvisionError),
}

pub enum SpecEnsureAction {
    CheckFile(Seq<char>),
    RunProbe(Seq<char>),
    WriteExtracted(Seq<char>, Seq<u8>),
    ReturnPath(Seq<char>),
    Fail(SpecToolProvisionError),
}

impl View for EnsureAction {
    type V = SpecEnsureAction;

    open spec fn view(&self) -> SpecEnsureAction {
        match self {
            EnsureAction::CheckFile(p) => SpecEnsureAction::CheckFile(p@),
            EnsureAction::RunProbe(p) => SpecEnsureAction::RunProbe(p@),
            EnsureAction::WriteExtracted(p, b) => SpecEnsureAction::WriteExtracted(p@, b@),
            EnsureAction::ReturnPath(h) => SpecEnsureAction::ReturnPath(h.exec_path@),
            EnsureAction::Fail(e) => SpecEnsureAction::Fail(e@),
        }
    }
}

/// The provisioning transition relation: from a state and an event to the
/// next state and the action the shell performs.
pub open spec fn spec_ensure_next(
    state: EnsureState,
    ev: SpecEnsureEvent,
    payload: Seq<u8>,
    path: Seq<char>,
) -> (EnsureState, SpecEnsureAction) {
    match (state, ev) {
        (EnsureState::CheckExists, SpecEnsureEvent::Exists(true)) => (
            EnsureState::ProbeCached,
            SpecEnsureAction::RunProbe(path),
        ),
        (EnsureState::CheckExists, SpecEnsureEvent::Exists(false)) => {
            match zstd_decode_of(payload) {
                Some(bytes) => (
                    EnsureState::AwaitWrite,
                    SpecEnsureAction::WriteExtracted(path, bytes),
                ),
                None => (
                    EnsureState::Failed,
                    SpecEnsureAction::Fail(SpecToolProvisionError::BadPayload),
                ),
            }
        },
        (EnsureState::ProbeCached, SpecEnsureEvent::Probe(true)) => (
            EnsureState::Done,
            SpecEnsureAction::ReturnPath(path),
        ),
        (EnsureState::ProbeCached, SpecEnsureEvent::Probe(false)) => {
            match zstd_decode_of(payload) {
                Some(bytes) => (
                    EnsureState::AwaitWrite,
                    SpecEnsureAction::WriteExtracted(path, bytes),
                ),
                None => (
                    EnsureState::Failed,
                    SpecEnsureAction::Fail(SpecToolProvisionError::BadPayload),
                ),
            }
        },
        (EnsureState::AwaitWrite, SpecEnsureEvent::Written(Ok(_))) => (
            EnsureState::ProbeFresh,
            SpecEnsureAction::RunProbe(path),
        ),
        (EnsureState::AwaitWrite, SpecEnsureEvent::Written(Err(t))) => (
            EnsureState::Failed,
            SpecEnsureAction::Fail(SpecToolProvisionError::WriteFailed(t)),
        ),
        (EnsureState::ProbeFresh, SpecEnsureEvent::Probe(true)) => (
            EnsureState::Done,
            SpecEnsureAction::ReturnPath(path),
        ),
        (EnsureState::ProbeFresh, SpecEnsureEvent::Probe(false)) => (
            EnsureState::Failed,
            SpecEnsureAction::Fail(SpecToolProvisionError::ProbeFailed),
        ),
        _ => (EnsureState::Failed, SpecEnsureAction::Fail(SpecToolProvisionError::ProbeFailed)),
    }
}

/// Whether an event fits the state, so that the catch-all arm of the
/// transition relation is never exercised.
pub open spec fn ensure_event_fits(state: EnsureState, ev: SpecEnsureEvent) -> bool {
    match (state, ev) {
        (EnsureState::CheckExists, SpecEnsureEvent::Exists(_)) => true,
        (EnsureState::ProbeCached, SpecEnsureEvent::Probe(_)) => true,
        (EnsureState::AwaitWrite, SpecEnsureEvent::Written(_)) => true,
        (EnsureState::ProbeFresh, SpecEnsureEvent::Probe(_)) => true,
        _ => false,
    }
}

/// The provisioning machine: its state, and the cache path it works on.
pub struct EnsureMachine {
    pub state: EnsureState,
    pub exec_path: String,
}

impl EnsureMachine {
    /// Begin provisioning. With no cache root the machine fails at once;
    /// otherwise the shell is asked whether the checksum-named cache path is
    /// already populated.
    pub fn ensure_start(cache_root: Option<String>, payload: &[u8], exe_name: &str) -> (r: (
        EnsureMachine,
        EnsureAction,
    ))
        ensures
            match cache_root {
                None => r.0.state is Failed && r.1@ == SpecEnsureAction::Fail(
                    SpecToolProvisionError::NoCacheRoot,
                ),
                Some(root) => {
                    &&& r.0.state is CheckExists
                    &&& r.0.exec_path@ == spec_ffmpeg_exec_path(root@, payload@, exe_name@)
                    &&& r.1@ == SpecEnsureAction::CheckFile(
                        spec_ffmpeg_exec_path(root@, payload@, exe_name@),
                    )
                },
            },
    {
        match cache_root {
            None => (
                EnsureMachine { state: EnsureState::Failed, exec_path: String::new() },
                EnsureAction::Fail(ToolProvisionError::NoCacheRoot),
            ),
            Some(root) => {
                let path = ffmpeg_exec_path(root.as_str(), payload, exe_name);
                let copy = path.clone();
                (
                    EnsureMachine { state: EnsureState::CheckExists, exec_path: path },
                    EnsureAction::CheckFile(copy),
                )
            },
        }
    }

    /// Feed the shell's report in and get the next action, exactly as
    /// `spec_ensure_next` states it.
    pub fn step(&mut self, ev: EnsureEvent, payload: &[u8]) -> (a: EnsureAction)
        requires
            ensure_event_fits(old(self).state, ev@),
        ensures
            final(self).exec_path@ == old(self).exec_path@,
            (final(self).state, a@) == spec_ensure_next(
                old(self).state,
                ev@,
                payload@,
                old(self).exec_path@,
            ),
    {
        match (self.state, ev) {
            (EnsureState::CheckExists, EnsureEvent::Exists(true)) => {
                self.state = EnsureState::ProbeCached;
                EnsureAction::RunProbe(self.exec_path.clone())
            },
            (EnsureState::CheckExists, EnsureEvent::Exists(false)) => {
                match zstd_decompress(payload) {
                    Some(bytes) => {
                        self.state = EnsureState::AwaitWrite;
                        EnsureAction::WriteExtracted(self.exec_path.clone(), bytes)
                    },
                    None => {
                        self.state = EnsureState::Failed;
                        EnsureAction::Fail(ToolProvisionError::BadPayload)
                    },
                }
            },
            (EnsureState::ProbeCached, EnsureEvent::Probe(true)) => {
                self.state = EnsureState::Done;
                EnsureAction::ReturnPath(FFmpegHandle { exec_path: self.exec_path.clone() })
            },
            (EnsureState::ProbeCached, EnsureEvent::Probe(false)) => {
                match zstd_decompress(payload) {
                    Some(bytes) => {
                        self.state = EnsureState::AwaitWrite;
                        EnsureAction::WriteExtracted(self.exec_path.clone(), bytes)
                    },
                    None => {
                        self.state = EnsureState::Failed;
                        EnsureAction::Fail(ToolProvisionError::BadPayload)
                    },
                }
            },
            (EnsureState::AwaitWrite, EnsureEvent::Written(res)) => {
                match res {
                    Ok(_) => {
                        self.state = EnsureState::ProbeFresh;
                        EnsureAction::RunProbe(self.exec_path.clone())
                    },
                    Err(t) => {
                        self.state = EnsureState::Failed;
                        EnsureAction::Fail(ToolProvisionError::WriteFailed(t))
                    },
                }
            },
            (EnsureState::ProbeFresh, EnsureEvent::Probe(ok)) => {
                if ok {
                    self.state = EnsureState::Done;
                    EnsureAction::ReturnPath(FFmpegHandle { exec_path: self.exec_path.clone() })
                } else {
                    self.state = EnsureState::Failed;
                    EnsureAction::Fail(ToolProvisionError::ProbeFailed)
                }
            },
            _ => {
                proof {
                    assert(false);
                }
                self.state = EnsureState::Failed;
                EnsureAction::Fail(ToolProvisionError::ProbeFailed)
            },
        }
    }
}

/// Provisioning is idempotent: when a cached executable is present and its
/// probe succeeds, the machine returns that path at once — no extraction is
/// ever issued on this trace.
pub proof fn lemma_ensure_cached_short_circuit(payload: Seq<u8>, path: Seq<char>)
    ensures
        ({
            let (s1, a1) = spec_ensure_next(
                EnsureState::CheckExists,
                SpecEnsureEvent::Exists(true),
                payload,
                path,
            );
            let (s2, a2) = spec_ensure_next(s1, SpecEnsureEvent::Probe(true), payload, path);
            &&& a1 == SpecEnsureAction::RunProbe(path)
            &&& !(a1 is WriteExtracted)
            &&& s2 is Done
            &&& a2 == SpecEnsureAction::ReturnPath(path)
            &&& !(a2 is WriteExtracted)
        }),
{
}

/// Provisioning is self-healing: when the cached executable fails its
/// probe, the machine orders a re-extraction of the (valid) payload, and
/// returns the path only after the fresh executable passes the probe in
/// turn.
pub proof fn lemma_ensure_reextracts_on_probe_failure(payload: Seq<u8>, path: Seq<char>)
    requires
        zstd_decode_of(payload) is Some,
    ensures
        ({
            let (s1, a1) = spec_ensure_next(
                EnsureState::CheckExists,
                SpecEnsureEvent::Exists(true),
                payload,
                path,
            );
            let (s2, a2) = spec_ensure_next(s1, SpecEnsureEvent::Probe(false), payload, path);
            let (s3, a3) = spec_ensure_next(s2, SpecEnsureEvent::Written(Ok(())), payload, path);
            let (s4, a4) = spec_ensure_next(s3, SpecEnsureEvent::Probe(true), payload, path);
            &&& a2 == SpecEnsureAction::WriteExtracted(path, zstd_decode_of(payload).unwrap())
            &&& a3 == SpecEnsureAction::RunProbe(path)
            &&& s4 is Done
            &&& a4 == SpecEnsureAction::ReturnPath(path)
        }),
{
}

/// A path is only ever returned by a probe that succeeded in this run: no
/// trace step yields `ReturnPath` except out of a probing state on a
/// successful probe.
pub proof fn lemma_ensure_path_only_after_probe(
    state: EnsureState,
    ev: SpecEnsureEvent,
    payload: Seq<u8>,
    path: Seq<char>,
)
    ensures
        ({
            let (s2, a) = spec_ensure_next(state, ev, payload, path);
            a is ReturnPath ==> (state is ProbeCached || state is ProbeFresh)
                && ev == SpecEnsureEvent::Probe(true)
        }),
{
}

/// Command-line arguments of the remux invocation: stream-copy both codecs
/// into the requested container, with the fast-start flag, overwriting the
/// output.
pub open spec fn spec_remux_args(input: Seq<char>, output: Seq<char>) -> Seq<Seq<char>> {
    seq!["-i"@, input, "-c"@, "copy"@, "-movflags"@, "+faststart"@, "-y"@, output]
}

pub fn remux_args(input: &str, output: &str) -> (r: Vec<String>)
    ensures
        r@.map_values(|s: String| s@) == spec_remux_args(input@, output@),
{
    let mut v: Vec<String> = Vec::new();
    v.push(("-i").to_owned());
    v.push(input.to_owned());
    v.push(("-c").to_owned());
    v.push(("copy").to_owned());
    v.push(("-movflags").to_owned());
    v.push(("+faststart").to_owned());
    v.push(("-y").to_owned());
    v.push(output.to_owned());
    proof {
        assert(v@.map_values(|s: String| s@) =~= spec_remux_args(input@, output@));
    }
    v
}

} // verus!
