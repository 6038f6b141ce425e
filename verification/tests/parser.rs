use hls_downloader::hls_parser::{parse_playlist, ParseError, ParseWarning};

const BASE: &str = "https://cdn.example.com/stream/playlist.m3u8";

#[test]
fn basic_playlist_counts_and_indices() {
    let text = "#EXTM3U\n#EXT-X-MEDIA-SEQUENCE:5\n#EXTINF:4.0,\nseg_a.ts\n#EXTINF:4.0,\nseg_b.ts\n#EXTINF:4.0,\nseg_c.ts\n";
    let (segments, enc, warns) = parse_playlist(text, BASE).unwrap();
    assert_eq!(segments.len(), 3);
    assert_eq!(segments[0].path, "seg_a.ts");
    assert_eq!(segments[0].index, 5);
    assert_eq!(segments[1].index, 6);
    assert_eq!(segments[2].index, 7);
    assert!(enc.is_none());
    assert!(warns.is_empty());
}

#[test]
fn media_sequence_defaults_to_zero() {
    let text = "#EXTM3U\none.ts\ntwo.ts\n";
    let (segments, _, _) = parse_playlist(text, BASE).unwrap();
    assert_eq!(segments[0].index, 0);
    assert_eq!(segments[1].index, 1);
}

#[test]
fn comments_and_blank_lines_are_skipped() {
    let text = "#EXTM3U\n\n   \n# just a comment\nonly.ts\n";
    let (segments, _, _) = parse_playlist(text, BASE).unwrap();
    assert_eq!(segments.len(), 1);
    assert_eq!(segments[0].path, "only.ts");
}

#[test]
fn lines_are_trimmed() {
    let text = "#EXTM3U\n  padded.ts \r\n";
    let (segments, _, _) = parse_playlist(text, BASE).unwrap();
    assert_eq!(segments[0].path, "padded.ts");
}

#[test]
fn empty_playlist_fails() {
    assert_eq!(
        parse_playlist("#EXTM3U\n# nothing here\n", BASE).unwrap_err(),
        ParseError::NoSegments
    );
}

#[test]
fn sample_aes_is_a_hard_failure() {
    let text = "#EXTM3U\n#EXT-X-KEY:METHOD=SAMPLE-AES,URI=\"k.key\"\nseg.ts\n";
    assert_eq!(
        parse_playlist(text, BASE).unwrap_err(),
        ParseError::UnsupportedMethod("SAMPLE-AES".to_string())
    );
}

#[test]
fn aes128_key_tag_is_parsed_and_uri_resolved() {
    let text = "#EXTM3U\n#EXT-X-KEY:METHOD=AES-128,URI=\"k.key\",IV=0x000102030405060708090a0b0c0d0e0f\nseg.ts\n";
    let (_, enc, warns) = parse_playlist(text, BASE).unwrap();
    let enc = enc.unwrap();
    assert_eq!(enc.method, "AES-128");
    // resolved against the playlist URL, not handed back verbatim
    assert_eq!(enc.key_url, "https://cdn.example.com/stream/k.key");
    assert!(enc.key_bytes.is_none());
    let expected = hex::decode("000102030405060708090a0b0c0d0e0f").unwrap();
    assert_eq!(enc.iv_bytes.unwrap(), expected);
    assert!(warns.is_empty());
}

#[test]
fn uppercase_iv_hex_decodes_like_hex_crate() {
    let text = "#EXTM3U\n#EXT-X-KEY:METHOD=AES-128,URI=\"k.key\",IV=0xDEADBEEFDEADBEEFDEADBEEFDEADBEEF\nseg.ts\n";
    let (_, enc, _) = parse_playlist(text, BASE).unwrap();
    let expected = hex::decode("DEADBEEFDEADBEEFDEADBEEFDEADBEEF").unwrap();
    assert_eq!(enc.unwrap().iv_bytes.unwrap(), expected);
}

#[test]
fn short_iv_degrades_to_absent_iv() {
    let text = "#EXTM3U\n#EXT-X-KEY:METHOD=AES-128,URI=\"k.key\",IV=0xABC\nseg.ts\n";
    let (_, enc, warns) = parse_playlist(text, BASE).unwrap();
    let enc = enc.unwrap();
    assert!(enc.iv_bytes.is_none());
    assert_eq!(warns, vec![ParseWarning::InvalidIvFormat]);
}

#[test]
fn non_hex_iv_degrades_to_absent_iv() {
    let text = "#EXTM3U\n#EXT-X-KEY:METHOD=AES-128,URI=\"k.key\",IV=0xzz0102030405060708090a0b0c0d0e0f\nseg.ts\n";
    let (_, enc, warns) = parse_playlist(text, BASE).unwrap();
    assert!(enc.unwrap().iv_bytes.is_none());
    assert_eq!(warns, vec![ParseWarning::InvalidIvBytes]);
}

#[test]
fn key_tag_without_uri_is_skipped_with_warning() {
    let text = "#EXTM3U\n#EXT-X-KEY:METHOD=AES-128\nseg.ts\n";
    let (_, enc, warns) = parse_playlist(text, BASE).unwrap();
    assert!(enc.is_none());
    assert_eq!(warns, vec![ParseWarning::MissingKeyAttributes]);
}

#[test]
fn last_key_tag_wins() {
    let text = "#EXTM3U\n#EXT-X-KEY:METHOD=AES-128,URI=\"first.key\"\nseg1.ts\n#EXT-X-KEY:METHOD=AES-128,URI=\"second.key\"\nseg2.ts\n";
    let (_, enc, _) = parse_playlist(text, BASE).unwrap();
    assert_eq!(enc.unwrap().key_url, "https://cdn.example.com/stream/second.key");
}

#[test]
fn absolute_key_uri_is_kept() {
    let text = "#EXTM3U\n#EXT-X-KEY:METHOD=AES-128,URI=\"https://keys.example.com/a.key\"\nseg.ts\n";
    let (_, enc, _) = parse_playlist(text, BASE).unwrap();
    assert_eq!(enc.unwrap().key_url, "https://keys.example.com/a.key");
}

#[test]
fn media_sequence_tag_with_garbage_is_ignored() {
    let text = "#EXTM3U\n#EXT-X-MEDIA-SEQUENCE:abc\nseg.ts\n";
    let (segments, _, _) = parse_playlist(text, BASE).unwrap();
    assert_eq!(segments[0].index, 0);
}

#[test]
fn unresolvable_key_uri_is_a_hard_failure() {
    let text = "#EXTM3U\n#EXT-X-KEY:METHOD=AES-128,URI=\"k.key\"\nseg.ts\n";
    assert_eq!(
        parse_playlist(text, "not a url at all").unwrap_err(),
        ParseError::InvalidKeyUri
    );
}

#[test]
fn index_overflow_is_a_hard_failure() {
    let text = format!("#EXT-X-MEDIA-SEQUENCE:{}\na.ts\nb.ts\n", usize::MAX);
    assert_eq!(parse_playlist(&text, BASE).unwrap_err(), ParseError::IndexOverflow);
}

#[test]
fn sample_aes_without_uri_is_still_a_hard_failure() {
    // no silent fallback to plaintext even when the URI is missing
    let text = "#EXTM3U\n#EXT-X-KEY:METHOD=SAMPLE-AES\nseg.ts\n";
    assert_eq!(
        parse_playlist(text, BASE).unwrap_err(),
        ParseError::UnsupportedMethod("SAMPLE-AES".to_string())
    );
}
