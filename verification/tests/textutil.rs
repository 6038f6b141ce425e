use hls_downloader::text::{
    eq_ignore_case, hex_decode_str, hex_encode_bytes, parse_usize_str, split_str, to_lower_str,
    trim_str, usize_to_string, zero_pad_str,
};
use hls_downloader::util::{extension_str, file_stem_str, PathStringLossy};

#[test]
fn trimming_strips_line_whitespace() {
    assert_eq!(trim_str("  seg.ts \r"), "seg.ts");
    assert_eq!(trim_str("\t\t"), "");
    assert_eq!(trim_str("plain"), "plain");
}

#[test]
fn splitting_keeps_empty_pieces() {
    assert_eq!(split_str("a,b,,c", ','), vec!["a", "b", "", "c"]);
    assert_eq!(split_str("", ','), vec![""]);
    assert_eq!(split_str("one", ','), vec!["one"]);
}

#[test]
fn integer_parsing_matches_std() {
    assert_eq!(parse_usize_str("0"), Some(0));
    assert_eq!(parse_usize_str("007"), Some(7));
    assert_eq!(parse_usize_str("+5"), Some(5));
    assert_eq!(parse_usize_str(""), None);
    assert_eq!(parse_usize_str("+"), None);
    assert_eq!(parse_usize_str("12a"), None);
    assert_eq!(parse_usize_str("999999999999999999999999999999"), None);
    assert_eq!(parse_usize_str("18446744073709551615"), Some(usize::MAX));
}

#[test]
fn integer_formatting_and_padding() {
    assert_eq!(usize_to_string(0), "0");
    assert_eq!(usize_to_string(90210), "90210");
    assert_eq!(zero_pad_str("7", 8), "00000007");
    assert_eq!(zero_pad_str("123456789", 8), "123456789");
}

#[test]
fn hex_decoding_matches_hex_crate() {
    let ours = hex_decode_str("00ff10Ab").unwrap();
    assert_eq!(ours, hex::decode("00ff10Ab").unwrap());
    assert!(hex_decode_str("0g").is_none());
    assert!(hex_decode_str("abc").is_none());
    assert_eq!(hex_decode_str("").unwrap(), Vec::<u8>::new());
}

#[test]
fn hex_encoding_matches_hex_crate() {
    let bytes = [0u8, 255, 16, 171];
    assert_eq!(hex_encode_bytes(&bytes), hex::encode(bytes));
}

#[test]
fn case_folding_is_ascii_only() {
    assert_eq!(to_lower_str("MP4"), "mp4");
    assert_eq!(to_lower_str("MiXeD-128"), "mixed-128");
    assert!(eq_ignore_case("TS", "ts"));
    assert!(!eq_ignore_case("mp4", "mkv"));
}

#[test]
fn stems_and_extensions_split_at_the_last_dot() {
    assert_eq!(file_stem_str("movie.ts"), "movie");
    assert_eq!(file_stem_str("archive.tar.gz"), "archive.tar");
    assert_eq!(file_stem_str("movie"), "movie");
    assert_eq!(file_stem_str(".hidden"), ".hidden");
    assert_eq!(extension_str("movie.ts"), Some("ts"));
    assert_eq!(extension_str("movie"), None);
    assert_eq!(extension_str(".hidden"), None);
}

#[test]
fn file_string_lossy_yields_the_stem() {
    assert_eq!("movie.ts".to_string().file_string_lossy(), "movie");
    assert_eq!("a.b.c".to_string().file_string_lossy(), "a.b");
}
