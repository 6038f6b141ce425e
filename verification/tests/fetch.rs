use hls_downloader::segment_io::{
    collect_results, concatenate_segments, key_fetch_step, progress_message, progress_permille,
    segment_fetch_step, should_emit_log, temp_segment_name, HttpOutcome, KeyError, KeyStep,
    SegmentError, SegmentFile, SegmentStep,
};

#[test]
fn key_success_needs_exactly_sixteen_bytes() {
    let body = vec![9u8; 16];
    assert_eq!(
        key_fetch_step(0, HttpOutcome::Success(body.clone())),
        KeyStep::Done(body)
    );
    assert_eq!(
        key_fetch_step(0, HttpOutcome::Success(vec![9u8; 15])),
        KeyStep::Fail(KeyError::BadLength(15))
    );
    assert_eq!(
        key_fetch_step(0, HttpOutcome::Success(vec![9u8; 17])),
        KeyStep::Fail(KeyError::BadLength(17))
    );
}

#[test]
fn key_429_backs_off_exponentially_then_fails() {
    assert_eq!(key_fetch_step(0, HttpOutcome::HttpStatus(429)), KeyStep::RetryAfter(1));
    assert_eq!(key_fetch_step(1, HttpOutcome::HttpStatus(429)), KeyStep::RetryAfter(2));
    assert_eq!(key_fetch_step(3, HttpOutcome::HttpStatus(429)), KeyStep::RetryAfter(8));
    assert_eq!(
        key_fetch_step(4, HttpOutcome::HttpStatus(429)),
        KeyStep::Fail(KeyError::Status(429))
    );
}

#[test]
fn key_other_status_is_terminal_at_once() {
    assert_eq!(
        key_fetch_step(0, HttpOutcome::HttpStatus(404)),
        KeyStep::Fail(KeyError::Status(404))
    );
}

#[test]
fn key_transport_error_retries_then_fails() {
    assert_eq!(
        key_fetch_step(2, HttpOutcome::Transport("refused".into())),
        KeyStep::RetryAfter(4)
    );
    assert_eq!(
        key_fetch_step(4, HttpOutcome::Transport("refused".into())),
        KeyStep::Fail(KeyError::Connection("refused".into()))
    );
}

#[test]
fn segment_backoff_has_a_three_second_floor() {
    assert_eq!(
        segment_fetch_step(0, HttpOutcome::HttpStatus(503), &None, &None, 1),
        SegmentStep::RetryAfter(3)
    );
    assert_eq!(
        segment_fetch_step(1, HttpOutcome::HttpStatus(429), &None, &None, 1),
        SegmentStep::RetryAfter(3)
    );
    assert_eq!(
        segment_fetch_step(3, HttpOutcome::HttpStatus(500), &None, &None, 1),
        SegmentStep::RetryAfter(8)
    );
}

#[test]
fn segment_retries_exhaust_into_failure() {
    assert_eq!(
        segment_fetch_step(4, HttpOutcome::HttpStatus(503), &None, &None, 7),
        SegmentStep::Fail(SegmentError::Status { index: 7, status: 503 })
    );
}

#[test]
fn segment_client_error_is_terminal_at_once() {
    assert_eq!(
        segment_fetch_step(0, HttpOutcome::HttpStatus(403), &None, &None, 2),
        SegmentStep::Fail(SegmentError::Status { index: 2, status: 403 })
    );
}

#[test]
fn segment_success_without_key_hands_bytes_through() {
    let body = vec![1u8, 2, 3];
    assert_eq!(
        segment_fetch_step(0, HttpOutcome::Success(body.clone()), &None, &None, 0),
        SegmentStep::Done(body)
    );
}

#[test]
fn segment_decrypt_failure_is_terminal() {
    let enc = hls_downloader::hls_parser::EncryptionInfo {
        key_url: "https://example.com/k".into(),
        method: "AES-128".into(),
        key_bytes: None,
        iv_bytes: None,
    };
    // three bytes are no block multiple, so decryption must fail
    assert_eq!(
        segment_fetch_step(
            0,
            HttpOutcome::Success(vec![1, 2, 3]),
            &Some(vec![0u8; 16]),
            &Some(enc),
            11
        ),
        SegmentStep::Fail(SegmentError::Decrypt { index: 11 })
    );
}

#[test]
fn temp_names_zero_pad_to_eight_digits() {
    assert_eq!(temp_segment_name(7), "temp_segment_00000007.ts");
    assert_eq!(temp_segment_name(0), "temp_segment_00000000.ts");
    assert_eq!(temp_segment_name(123_456_789), "temp_segment_123456789.ts");
}

fn file(index: usize) -> SegmentFile {
    SegmentFile { index, path: format!("temp_segment_{:08}.ts", index) }
}

#[test]
fn reverse_completion_order_is_sorted_ascending() {
    let results: Vec<Result<SegmentFile, SegmentError>> =
        (0..5).rev().map(|i| Ok(file(i))).collect();
    let sorted = collect_results(results, 5).unwrap();
    let indices: Vec<usize> = sorted.iter().map(|f| f.index).collect();
    assert_eq!(indices, vec![0, 1, 2, 3, 4]);
}

#[test]
fn first_error_aborts_collection() {
    let results: Vec<Result<SegmentFile, SegmentError>> = vec![
        Ok(file(0)),
        Err(SegmentError::Status { index: 1, status: 500 }),
        Err(SegmentError::Decrypt { index: 2 }),
    ];
    assert_eq!(
        collect_results(results, 3).unwrap_err(),
        SegmentError::Status { index: 1, status: 500 }
    );
}

#[test]
fn cardinality_mismatch_fails_even_without_errors() {
    let results: Vec<Result<SegmentFile, SegmentError>> = vec![Ok(file(0)), Ok(file(1))];
    assert_eq!(
        collect_results(results, 3).unwrap_err(),
        SegmentError::Cardinality { got: 2, expected: 3 }
    );
}

#[test]
fn assembly_matches_reference_concatenation_regardless_of_order() {
    // bytes per segment, as if fetches completed in reverse order
    let parts_in_completion_order: Vec<(usize, Vec<u8>)> = vec![
        (2, vec![7, 8, 9]),
        (1, vec![4, 5, 6]),
        (0, vec![1, 2, 3]),
    ];
    let results: Vec<Result<SegmentFile, SegmentError>> = parts_in_completion_order
        .iter()
        .map(|(i, _)| Ok(file(*i)))
        .collect();
    let sorted = collect_results(results, 3).unwrap();
    let bytes_by_index: Vec<Vec<u8>> = sorted
        .iter()
        .map(|f| {
            parts_in_completion_order
                .iter()
                .find(|(i, _)| *i == f.index)
                .unwrap()
                .1
                .clone()
        })
        .collect();
    let assembled = concatenate_segments(&bytes_by_index);
    assert_eq!(assembled, vec![1, 2, 3, 4, 5, 6, 7, 8, 9]);
}

#[test]
fn concatenation_is_plain_sequential_bytes() {
    let parts = vec![vec![1u8, 2], vec![], vec![3u8]];
    assert_eq!(concatenate_segments(&parts), vec![1, 2, 3]);
    let empty: Vec<Vec<u8>> = Vec::new();
    assert_eq!(concatenate_segments(&empty), Vec::<u8>::new());
}

#[test]
fn progress_fraction_is_capped_below_one() {
    assert_eq!(progress_permille(0, 10), 0);
    assert_eq!(progress_permille(5, 10), 495);
    assert_eq!(progress_permille(10, 10), 990);
}

#[test]
fn progress_log_lines_are_deduplicated() {
    let a = progress_message(3, 10);
    assert_eq!(a, "Segment progress: 3/10");
    let b = progress_message(3, 10);
    assert!(!should_emit_log(&a, &b));
    let c = progress_message(4, 10);
    assert!(should_emit_log(&b, &c));
}

#[test]
fn unreadable_bodies_are_terminal() {
    assert_eq!(
        key_fetch_step(0, HttpOutcome::BodyFailed("reset".into())),
        KeyStep::Fail(KeyError::BodyRead("reset".into()))
    );
    assert_eq!(
        segment_fetch_step(0, HttpOutcome::BodyFailed("reset".into()), &None, &None, 4),
        SegmentStep::Fail(SegmentError::BodyRead { index: 4, text: "reset".into() })
    );
}

#[test]
fn segment_transport_error_retries_then_fails() {
    assert_eq!(
        segment_fetch_step(0, HttpOutcome::Transport("refused".into()), &None, &None, 4),
        SegmentStep::RetryAfter(3)
    );
    assert_eq!(
        segment_fetch_step(4, HttpOutcome::Transport("refused".into()), &None, &None, 4),
        SegmentStep::Fail(SegmentError::Connection { index: 4, text: "refused".into() })
    );
}
