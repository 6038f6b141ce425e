use hls_downloader::pipeline::{
    check_playlist_url, make_plan, output_file_name, DownloadOutcome, Pipeline, PipelineAction,
    PipelineError,
};
use hls_downloader::segment_io::SegmentError;

#[test]
fn requesting_mp4_rewrites_a_ts_extension() {
    assert_eq!(output_file_name("movie.ts", "mp4"), "movie.mp4");
}

#[test]
fn requesting_ts_appends_the_ts_extension() {
    assert_eq!(output_file_name("movie", "ts"), "movie.ts");
}

#[test]
fn matching_extension_is_kept_case_insensitively() {
    assert_eq!(output_file_name("movie.MKV", "mkv"), "movie.MKV");
}

#[test]
fn format_is_lowercased_into_the_name() {
    assert_eq!(output_file_name("movie.ts", "MP4"), "movie.mp4");
}

#[test]
fn dotted_names_lose_only_the_last_extension() {
    assert_eq!(output_file_name("archive.tar.gz", "mp4"), "archive.tar.mp4");
}

#[test]
fn plan_joins_location_and_rewritten_name() {
    let plan = make_plan("/videos", "movie.ts", "mp4");
    assert_eq!(plan.final_output_path, "/videos/movie.mp4");
    assert!(plan.needs_remux);
    assert_eq!(plan.output_format, "mp4");
    let plan = make_plan("/videos", "movie", "ts");
    assert_eq!(plan.final_output_path, "/videos/movie.ts");
    assert!(!plan.needs_remux);
}

#[test]
fn happy_path_without_remux_renames_the_merged_file() {
    let plan = make_plan("/videos", "movie", "ts");
    let mut p = Pipeline::new(plan, "/tmp/scratch");
    assert_eq!(p.on_playlist(Ok(None)), PipelineAction::FetchSegments);
    assert_eq!(p.on_segments(Ok(())), PipelineAction::Assemble);
    assert_eq!(
        p.on_assembled(Ok(())),
        PipelineAction::Rename {
            from: "/tmp/scratch/final_merge.ts.tmp".to_string(),
            to: "/videos/movie.ts".to_string(),
        }
    );
    assert_eq!(
        p.on_renamed(Ok(())),
        PipelineAction::Finish(DownloadOutcome::Success { path: "/videos/movie.ts".to_string() })
    );
}

#[test]
fn encrypted_playlist_resolves_the_key_first() {
    let plan = make_plan("/videos", "movie", "ts");
    let mut p = Pipeline::new(plan, "/tmp/scratch");
    assert_eq!(
        p.on_playlist(Ok(Some("https://keys.example.com/a.key".to_string()))),
        PipelineAction::ResolveKey("https://keys.example.com/a.key".to_string())
    );
    assert_eq!(p.on_key(Ok(())), PipelineAction::FetchSegments);
}

#[test]
fn segment_failure_aborts_before_assembly() {
    let plan = make_plan("/videos", "movie", "ts");
    let mut p = Pipeline::new(plan, "/tmp/scratch");
    p.on_playlist(Ok(None));
    let err = SegmentError::Status { index: 3, status: 503 };
    let action = p.on_segments(Err(err.clone()));
    assert_eq!(
        action,
        PipelineAction::Finish(DownloadOutcome::Failure {
            error: PipelineError::Segment(err),
        })
    );
}

#[test]
fn remux_failure_keeps_the_merged_file_and_reports_it() {
    let plan = make_plan("/videos", "movie", "mp4");
    let mut p = Pipeline::new(plan, "/tmp/scratch");
    p.on_playlist(Ok(None));
    p.on_segments(Ok(()));
    assert_eq!(
        p.on_assembled(Ok(())),
        PipelineAction::Remux {
            input: "/tmp/scratch/final_merge.ts.tmp".to_string(),
            output: "/videos/movie.mp4".to_string(),
        }
    );
    let action = p.on_remux(Err("tool exited with status 1".to_string()));
    assert_eq!(
        action,
        PipelineAction::Finish(DownloadOutcome::PartialSuccess {
            merged_path: "/tmp/scratch/final_merge.ts.tmp".to_string(),
            error: "tool exited with status 1".to_string(),
        })
    );
}

#[test]
fn key_failure_is_terminal() {
    let plan = make_plan("/videos", "movie", "ts");
    let mut p = Pipeline::new(plan, "/tmp/scratch");
    p.on_playlist(Ok(Some("https://keys.example.com/a.key".to_string())));
    let err = hls_downloader::segment_io::KeyError::BadLength(20);
    assert_eq!(
        p.on_key(Err(err)),
        PipelineAction::Finish(DownloadOutcome::Failure {
            error: PipelineError::Key(hls_downloader::segment_io::KeyError::BadLength(20)),
        })
    );
}

#[test]
fn assembly_failure_is_terminal() {
    let plan = make_plan("/videos", "movie", "ts");
    let mut p = Pipeline::new(plan, "/tmp/scratch");
    p.on_playlist(Ok(None));
    p.on_segments(Ok(()));
    assert_eq!(
        p.on_assembled(Err("no space".to_string())),
        PipelineAction::Finish(DownloadOutcome::Failure {
            error: PipelineError::Io("no space".to_string()),
        })
    );
}

#[test]
fn rename_failure_is_terminal() {
    let plan = make_plan("/videos", "movie", "ts");
    let mut p = Pipeline::new(plan, "/tmp/scratch");
    p.on_playlist(Ok(None));
    p.on_segments(Ok(()));
    p.on_assembled(Ok(()));
    assert_eq!(
        p.on_renamed(Err("cross-device".to_string())),
        PipelineAction::Finish(DownloadOutcome::Failure {
            error: PipelineError::Io("cross-device".to_string()),
        })
    );
}

#[test]
fn invalid_playlist_url_fails_before_any_work() {
    assert_eq!(
        check_playlist_url("not a url at all"),
        Err(PipelineError::InvalidUrl("not a url at all".to_string()))
    );
    assert_eq!(check_playlist_url("https://cdn.example.com/a/p.m3u8"), Ok(()));
}
