use hls_downloader::ffmpeg_embed::{
    compressed_checksum, ffmpeg_exec_path, remux_args, EnsureAction, EnsureEvent, EnsureMachine,
    ToolProvisionError,
};

#[test]
fn checksum_is_sha256_hex() {
    // SHA-256 of the empty byte string
    assert_eq!(
        compressed_checksum(b""),
        "e3b0c44298fc1c149afbf4c8996fb92427ae41e4649b934ca495991b7852b855"
    );
}

#[test]
fn cache_path_embeds_the_checksum() {
    let path = ffmpeg_exec_path("/home/u/.cache", b"", "ffmpeg");
    assert_eq!(
        path,
        "/home/u/.cache/hls-downloader/embedded-ffmpeg/e3b0c44298fc1c149afbf4c8996fb92427ae41e4649b934ca495991b7852b855/ffmpeg"
    );
}

fn payload() -> Vec<u8> {
    zstd::stream::encode_all(&b"fake ffmpeg binary"[..], 3).unwrap()
}

#[test]
fn cached_executable_with_good_probe_short_circuits() {
    let payload = payload();
    let (mut m, first) = EnsureMachine::ensure_start(Some("/cache".to_string()), &payload, "ffmpeg");
    let expected_path = ffmpeg_exec_path("/cache", &payload, "ffmpeg");
    assert_eq!(first, EnsureAction::CheckFile(expected_path.clone()));
    let a = m.step(EnsureEvent::Exists(true), &payload);
    assert_eq!(a, EnsureAction::RunProbe(expected_path.clone()));
    let a = m.step(EnsureEvent::Probe(true), &payload);
    match a {
        EnsureAction::ReturnPath(handle) => assert_eq!(handle.path(), &expected_path),
        other => panic!("expected the cached path back, got {:?}", other),
    }
}

#[test]
fn failing_probe_forces_reextraction_and_a_fresh_probe() {
    let payload = payload();
    let (mut m, _) = EnsureMachine::ensure_start(Some("/cache".to_string()), &payload, "ffmpeg");
    let expected_path = ffmpeg_exec_path("/cache", &payload, "ffmpeg");
    m.step(EnsureEvent::Exists(true), &payload);
    // the cached binary is broken (say its permission was corrupted)
    let a = m.step(EnsureEvent::Probe(false), &payload);
    match a {
        EnsureAction::WriteExtracted(path, bytes) => {
            assert_eq!(path, expected_path);
            assert_eq!(bytes, b"fake ffmpeg binary");
        },
        other => panic!("expected re-extraction, got {:?}", other),
    }
    let a = m.step(EnsureEvent::Written(Ok(())), &payload);
    assert_eq!(a, EnsureAction::RunProbe(expected_path.clone()));
    let a = m.step(EnsureEvent::Probe(true), &payload);
    match a {
        EnsureAction::ReturnPath(handle) => assert_eq!(handle.path(), &expected_path),
        other => panic!("expected a working path, got {:?}", other),
    }
}

#[test]
fn first_run_extracts_then_probes() {
    let payload = payload();
    let (mut m, _) = EnsureMachine::ensure_start(Some("/cache".to_string()), &payload, "ffmpeg");
    let a = m.step(EnsureEvent::Exists(false), &payload);
    assert!(matches!(a, EnsureAction::WriteExtracted(_, _)));
    let a = m.step(EnsureEvent::Written(Ok(())), &payload);
    assert!(matches!(a, EnsureAction::RunProbe(_)));
}

#[test]
fn post_extraction_probe_failure_is_terminal() {
    let payload = payload();
    let (mut m, _) = EnsureMachine::ensure_start(Some("/cache".to_string()), &payload, "ffmpeg");
    m.step(EnsureEvent::Exists(false), &payload);
    m.step(EnsureEvent::Written(Ok(())), &payload);
    let a = m.step(EnsureEvent::Probe(false), &payload);
    assert_eq!(a, EnsureAction::Fail(ToolProvisionError::ProbeFailed));
}

#[test]
fn corrupt_payload_is_terminal() {
    let bad = b"not zstd".to_vec();
    let (mut m, _) = EnsureMachine::ensure_start(Some("/cache".to_string()), &bad, "ffmpeg");
    let a = m.step(EnsureEvent::Exists(false), &bad);
    assert_eq!(a, EnsureAction::Fail(ToolProvisionError::BadPayload));
}

#[test]
fn missing_cache_root_is_terminal() {
    let payload = payload();
    let (_, a) = EnsureMachine::ensure_start(None, &payload, "ffmpeg");
    assert_eq!(a, EnsureAction::Fail(ToolProvisionError::NoCacheRoot));
}

#[test]
fn remux_invocation_is_copy_codec_with_faststart() {
    let args = remux_args("/tmp/in.ts", "/out/movie.mp4");
    assert_eq!(
        args,
        vec!["-i", "/tmp/in.ts", "-c", "copy", "-movflags", "+faststart", "-y", "/out/movie.mp4"]
    );
}

#[test]
fn write_failure_is_terminal() {
    let payload = payload();
    let (mut m, _) = EnsureMachine::ensure_start(Some("/cache".to_string()), &payload, "ffmpeg");
    m.step(EnsureEvent::Exists(false), &payload);
    let a = m.step(EnsureEvent::Written(Err("disk full".to_string())), &payload);
    assert_eq!(
        a,
        EnsureAction::Fail(ToolProvisionError::WriteFailed("disk full".to_string()))
    );
}

#[test]
fn executable_name_is_the_callers_choice() {
    let path = ffmpeg_exec_path("/home/u/.cache", b"", "ffmpeg.exe");
    assert!(path.ends_with("/ffmpeg.exe"));
}
