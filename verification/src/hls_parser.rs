//! The playlist parser: turns raw playlist text into an ordered segment list
//! plus an optional encryption descriptor.
//!
//! The grammar consumed is the single-variant VOD subset of an HLS media
//! playlist: `#EXT-X-MEDIA-SEQUENCE:<n>` resets the running segment index,
//! `#EXT-X-KEY:` carries a comma-separated attribute list with `METHOD`,
//! a double-quoted `URI` resolved against the playlist URL, and an optional
//! 32-hex-digit `IV`; every other non-blank, non-comment line is a media
//! segment reference. Only the most recently seen encryption descriptor is
//! kept. The whole parse is specified by `spec_parse_playlist`.

use vstd::prelude::*;

use crate::text::{
    has_prefix, spec_hex_decode, spec_parse_usize, spec_split, spec_strip_prefix_rep, spec_trim,
    spec_trim_char,
};

verus! {

/// Length in bytes of an AES-128 key, and of an initialization vector.
pub const KEY_LEN: usize = 16;

/// Attempt ceiling shared by the key resolver and the segment fetcher.
pub const MAX_RETRIES: usize = 5;

/// One media segment reference: its (possibly relative) URI and its position
/// in presentation order. The index seeds the derived IV and decides final
/// assembly order.
#[derive(Debug)]
pub struct Segment {
    pub path: String,
    pub index: usize,
}

pub struct SpecSegment {
    pub path: Seq<char>,
    pub index: int,
}

impl View for Segment {
    type V = SpecSegment;

    open spec fn view(&self) -> SpecSegment {
        SpecSegment { path: self.path@, index: self.index as int }
    }
}

/// The encryption descriptor of a playlist: resolved key URI, method (always
/// `AES-128` once parsing has accepted it), key bytes once the key resolver
/// has filled them in, and the explicit IV if the playlist carried one.
#[derive(Debug, Clone)]
pub struct EncryptionInfo {
    pub key_url: String,
    pub method: String,
    pub key_bytes: Option<Vec<u8>>,
    pub iv_bytes: Option<Vec<u8>>,
}

pub struct SpecEncryptionInfo {
    pub key_url: Seq<char>,
    pub method: Seq<char>,
    pub key_bytes: Option<Seq<u8>>,
    pub iv_bytes: Option<Seq<u8>>,
}

pub open spec fn opt_bytes_view(o: Option<Vec<u8>>) -> Option<Seq<u8>> {
    match o {
        Some(v) => Some(v@),
        None => None,
    }
}

impl View for EncryptionInfo {
    type V = SpecEncryptionInfo;

    open spec fn view(&self) -> SpecEncryptionInfo {
        SpecEncryptionInfo {
            key_url: self.key_url@,
            method: self.method@,
            key_bytes: opt_bytes_view(self.key_bytes),
            iv_bytes: opt_bytes_view(self.iv_bytes),
        }
    }
}

pub open spec fn opt_enc_view(o: Option<EncryptionInfo>) -> Option<SpecEncryptionInfo> {
    match o {
        Some(e) => Some(e@),
        None => None,
    }
}

impl SpecEncryptionInfo {
    /// Well-formedness of a descriptor: key material, where present, has the
    /// AES-128 length. The parser establishes it and the key resolver
    /// preserves it; the decrypt path relies on it.
    pub open spec fn wf(self) -> bool {
        &&& (self.iv_bytes matches Some(v) ==> v.len() == KEY_LEN)
        &&& (self.key_bytes matches Some(k) ==> k.len() == KEY_LEN)
    }
}

/// A diagnostic that degrades an `#EXT-X-KEY` instruction without failing the
/// parse.
#[derive(Clone, Copy, PartialEq, Eq, Structural, Debug)]
pub enum ParseWarning {
    /// The `IV=` attribute was not 32 hex-prefixed characters long.
    InvalidIvFormat,
    /// The `IV=` attribute had the right length but held a non-hex character.
    InvalidIvBytes,
    /// A key tag without both `URI` and `METHOD`; encryption is skipped.
    MissingKeyAttributes,
}

/// Hard parse failures.
#[derive(Debug, Clone, PartialEq)]
pub enum ParseError {
    /// The playlist holds no media segment line at all.
    NoSegments,
    /// An encryption method other than `AES-128`; never silently treated as
    /// plaintext.
    UnsupportedMethod(String),
    /// A key `URI` that cannot be resolved against the playlist URL.
    InvalidKeyUri,
    /// More segments than an index can number.
    IndexOverflow,
}

pub enum SpecParseError {
    NoSegments,
    UnsupportedMethod(Seq<char>),
    InvalidKeyUri,
    IndexOverflow,
}

impl View for ParseError {
    type V = SpecParseError;

    open spec fn view(&self) -> SpecParseError {
        match self {
            ParseError::NoSegments => SpecParseError::NoSegments,
            ParseError::UnsupportedMethod(m) => SpecParseError::UnsupportedMethod(m@),
            ParseError::InvalidKeyUri => SpecParseError::InvalidKeyUri,
            ParseError::IndexOverflow => SpecParseError::IndexOverflow,
        }
    }
}

/// Whether a string parses as an absolute URL, and its normalized
/// serialization when it does; a function of the string alone.
pub uninterp spec fn url_parse_of(s: Seq<char>) -> Option<Seq<char>>;

/// Relies on url::Url::parse: validity and normalization of a URL string
/// depend on the string alone; it fails exactly on strings that are not
/// absolute URLs.
#[verifier::external_body]
pub(crate) fn url_parse(s: &str) -> (r: Option<String>)
    ensures
        r is Some <==> url_parse_of(s@) is Some,
        r is Some ==> r.unwrap()@ == url_parse_of(s@).unwrap(),
{
    match url::Url::parse(s) {
        Ok(u) => Some(String::from(u)),
        Err(_) => None,
    }
}

/// What resolving a relative URI reference against an absolute base URL
/// yields; a function of the two strings alone.
pub uninterp spec fn url_join_of(base: Seq<char>, rel: Seq<char>) -> Option<Seq<char>>;

/// Relies on url::Url::parse and url::Url::join: the resolution of `rel`
/// against `base` depends on the two strings alone; it yields nothing exactly
/// when `base` is not an absolute URL or the join is invalid for it.
#[verifier::external_body]
pub(crate) fn url_join(base: &str, rel: &str) -> (r: Option<String>)
    ensures
        r is Some <==> url_join_of(base@, rel@) is Some,
        r is Some ==> r.unwrap()@ == url_join_of(base@, rel@).unwrap(),
{
    match url::Url::parse(base) {
        Ok(b) => match b.join(rel) {
            Ok(u) => Some(String::from(u)),
            Err(_) => None,
        },
        Err(_) => None,
    }
}

/// Resolve a segment's (possibly relative) URI against the playlist URL;
/// nothing when the base does not parse or the reference is invalid for it.
pub fn segment_url(base: &str, segment: &Segment) -> (r: Option<String>)
    ensures
        r is Some <==> url_join_of(base@, segment.path@) is Some,
        r is Some ==> r.unwrap()@ == url_join_of(base@, segment.path@).unwrap(),
{
    url_join(base, segment.path.as_str())
}

/// Accumulator for one `#EXT-X-KEY` attribute list.
pub struct SpecKeyAttrs {
    pub url: Option<Seq<char>>,
    pub method: Option<Seq<char>>,
    pub iv: Option<Seq<u8>>,
    pub warns: Seq<ParseWarning>,
}

pub open spec fn empty_key_attrs() -> SpecKeyAttrs {
    SpecKeyAttrs { url: None, method: None, iv: None, warns: Seq::empty() }
}

/// Effect of one comma-separated attribute part on the accumulator. An
/// unresolvable `URI` aborts the parse; the error carries the warnings
/// already accumulated.
pub open spec fn spec_key_part(acc: SpecKeyAttrs, part_raw: Seq<char>, base: Seq<char>) -> Result<
    SpecKeyAttrs,
    Seq<ParseWarning>,
> {
    let part = spec_trim(part_raw);
    if has_prefix(part, "METHOD="@) {
        Ok(SpecKeyAttrs { method: Some(spec_strip_prefix_rep(part, "METHOD="@)), ..acc })
    } else if has_prefix(part, "URI="@) {
        let uri = spec_trim_char(spec_strip_prefix_rep(part, "URI="@), '"');
        match url_join_of(base, uri) {
            Some(u) => Ok(SpecKeyAttrs { url: Some(u), ..acc }),
            None => Err(acc.warns),
        }
    } else if has_prefix(part, "IV="@) {
        let hex = spec_strip_prefix_rep(spec_strip_prefix_rep(part, "IV="@), "0x"@);
        if hex.len() == 2 * KEY_LEN {
            match spec_hex_decode(hex) {
                Some(b) => Ok(SpecKeyAttrs { iv: Some(b), ..acc }),
                None => Ok(
                    SpecKeyAttrs { warns: acc.warns.push(ParseWarning::InvalidIvBytes), ..acc },
                ),
            }
        } else {
            Ok(SpecKeyAttrs { warns: acc.warns.push(ParseWarning::InvalidIvFormat), ..acc })
        }
    } else {
        Ok(acc)
    }
}

pub open spec fn spec_key_parts(
    parts: Seq<Seq<char>>,
    base: Seq<char>,
    acc: SpecKeyAttrs,
) -> Result<SpecKeyAttrs, Seq<ParseWarning>>
    decreases parts.len(),
{
    if parts.len() == 0 {
        Ok(acc)
    } else {
        match spec_key_part(acc, parts[0], base) {
            Ok(a) => spec_key_parts(parts.drop_first(), base, a),
            Err(w) => Err(w),
        }
    }
}

pub enum SpecKeyLineResult {
    /// The key `URI` did not resolve: a hard parse failure.
    HardUri { warns: Seq<ParseWarning> },
    /// A method other than `AES-128`: a hard parse failure.
    HardMethod { method: Seq<char>, warns: Seq<ParseWarning> },
    /// A complete descriptor replacing any earlier one.
    NewDescriptor { desc: SpecEncryptionInfo, warns: Seq<ParseWarning> },
    /// `URI` or `METHOD` missing: the instruction is skipped.
    Skipped { warns: Seq<ParseWarning> },
}

/// Outcome of one (already trimmed) `#EXT-X-KEY` line.
pub open spec fn spec_key_line(line: Seq<char>, base: Seq<char>) -> SpecKeyLineResult {
    let content = spec_trim(spec_strip_prefix_rep(line, "#EXT-X-KEY:"@));
    let parts = spec_split(content, ',');
    match spec_key_parts(parts, base, empty_key_attrs()) {
        Err(w) => SpecKeyLineResult::HardUri { warns: w },
        Ok(a) => {
            // an unsupported method is a hard failure whether or not the
            // URI is there: encrypted content must never silently degrade
            // to plaintext
            if a.method is Some && a.method.unwrap() != "AES-128"@ {
                SpecKeyLineResult::HardMethod { method: a.method.unwrap(), warns: a.warns }
            } else if a.url is Some && a.method is Some {
                SpecKeyLineResult::NewDescriptor {
                    desc: SpecEncryptionInfo {
                        key_url: a.url.unwrap(),
                        method: a.method.unwrap(),
                        key_bytes: None,
                        iv_bytes: a.iv,
                    },
                    warns: a.warns,
                }
            } else {
                SpecKeyLineResult::Skipped {
                    warns: a.warns.push(ParseWarning::MissingKeyAttributes),
                }
            }
        },
    }
}

/// Value carried by an (already trimmed) `#EXT-X-MEDIA-SEQUENCE:` line, if
/// the part after the first colon parses as an integer.
pub open spec fn spec_media_seq_value(line: Seq<char>) -> Option<usize> {
    let parts = spec_split(line, ':');
    if parts.len() > 1 {
        spec_parse_usize(parts[1])
    } else {
        None
    }
}

pub struct SpecParseOutput {
    pub segments: Seq<SpecSegment>,
    pub enc: Option<SpecEncryptionInfo>,
    pub warns: Seq<ParseWarning>,
}

/// The whole parse, one line at a time. `ctr` is the running segment index;
/// `enc` the most recently seen encryption descriptor.
pub open spec fn spec_parse_lines(
    lines: Seq<Seq<char>>,
    ctr: int,
    enc: Option<SpecEncryptionInfo>,
    base: Seq<char>,
) -> Result<SpecParseOutput, SpecParseError>
    decreases lines.len(),
{
    if lines.len() == 0 {
        Ok(SpecParseOutput { segments: Seq::empty(), enc, warns: Seq::empty() })
    } else {
        let l = spec_trim(lines[0]);
        let rest = lines.drop_first();
        if has_prefix(l, "#EXT-X-MEDIA-SEQUENCE:"@) {
            match spec_media_seq_value(l) {
                Some(v) => spec_parse_lines(rest, v as int, enc, base),
                None => spec_parse_lines(rest, ctr, enc, base),
            }
        } else if has_prefix(l, "#EXT-X-KEY"@) {
            match spec_key_line(l, base) {
                SpecKeyLineResult::HardUri { warns } => Err(SpecParseError::InvalidKeyUri),
                SpecKeyLineResult::HardMethod { method, warns } => Err(
                    SpecParseError::UnsupportedMethod(method),
                ),
                SpecKeyLineResult::NewDescriptor { desc, warns } => {
                    match spec_parse_lines(rest, ctr, Some(desc), base) {
                        Ok(o) => Ok(SpecParseOutput { warns: warns + o.warns, ..o }),
                        Err(e) => Err(e),
                    }
                },
                SpecKeyLineResult::Skipped { warns } => {
                    match spec_parse_lines(rest, ctr, enc, base) {
                        Ok(o) => Ok(SpecParseOutput { warns: warns + o.warns, ..o }),
                        Err(e) => Err(e),
                    }
                },
            }
        } else if l.len() > 0 && l[0] != '#' {
            if ctr > usize::MAX {
                Err(SpecParseError::IndexOverflow)
            } else {
                match spec_parse_lines(rest, ctr + 1, enc, base) {
                    Ok(o) => Ok(
                        SpecParseOutput {
                            segments: seq![SpecSegment { path: l, index: ctr }] + o.segments,
                            ..o
                        },
                    ),
                    Err(e) => Err(e),
                }
            }
        } else {
            spec_parse_lines(rest, ctr, enc, base)
        }
    }
}

/// What the parser returns for a playlist text and its base URL: the segment
/// list in presentation order, the last encryption descriptor, and the
/// diagnostics; or the first hard failure. An empty segment list is itself a
/// hard failure.
pub open spec fn spec_parse_playlist(text: Seq<char>, base: Seq<char>) -> Result<
    SpecParseOutput,
    SpecParseError,
> {
    match spec_parse_lines(spec_split(text, '\n'), 0, None, base) {
        Ok(o) => {
            if o.segments.len() == 0 {
                Err(SpecParseError::NoSegments)
            } else {
                Ok(o)
            }
        },
        Err(e) => Err(e),
    }
}

fn parse_media_seq(line: &str) -> (r: Option<usize>)
    ensures
        r == spec_media_seq_value(line@),
{
    let parts = crate::text::split_str(line, ':');
    proof {
        assert(parts@.map_values(|t: String| t@).len() == parts@.len());
    }
    if parts.len() > 1 {
        proof {
            assert(parts@.map_values(|t: String| t@)[1] == parts@[1]@);
        }
        crate::text::parse_usize_str(parts[1].as_str())
    } else {
        None
    }
}

/// Outcome of one `#EXT-X-KEY` line, executable side.
pub enum KeyLineResult {
    HardUri,
    HardMethod(String),
    NewDescriptor(EncryptionInfo),
    Skipped,
}

fn parse_key_line(line: &str, base: &str) -> (r: (KeyLineResult, Vec<ParseWarning>))
    ensures
        match spec_key_line(line@, base@) {
            SpecKeyLineResult::HardUri { warns } => r.0 is HardUri && r.1@ == warns,
            SpecKeyLineResult::HardMethod { method, warns } => (r.0 matches KeyLineResult::HardMethod(m)
                && m@ == method) && r.1@ == warns,
            SpecKeyLineResult::NewDescriptor { desc, warns } => (r.0 matches KeyLineResult::NewDescriptor(e)
                && e@ == desc) && r.1@ == warns,
            SpecKeyLineResult::Skipped { warns } => r.0 is Skipped && r.1@ == warns,
        },
{
    proof {
        reveal_strlit("#EXT-X-KEY:");
        reveal_strlit("METHOD=");
        reveal_strlit("URI=");
        reveal_strlit("IV=");
        reveal_strlit("0x");
    }
    let content = crate::text::trim_str(crate::text::strip_prefix_rep(line, "#EXT-X-KEY:"));
    let parts = crate::text::split_str(content, ',');
    let ghost parts_spec = spec_split(content@, ',');
    let n: usize = parts.len();
    let mut url: Option<String> = None;
    let mut method: Option<String> = None;
    let mut iv: Option<Vec<u8>> = None;
    let mut warns: Vec<ParseWarning> = Vec::new();
    let ghost acc0 = empty_key_attrs();
    let mut i: usize = 0;
    proof {
        assert(warns@ =~= acc0.warns);
        assert(parts_spec.skip(0) =~= parts_spec);
    }
    while i < n
        invariant
            0 <= i <= n,
            n == parts@.len(),
            parts@.map_values(|t: String| t@) == parts_spec,
            parts_spec == spec_split(
                spec_trim(spec_strip_prefix_rep(line@, "#EXT-X-KEY:"@)),
                ',',
            ),
            spec_key_parts(parts_spec, base@, empty_key_attrs()) == spec_key_parts(
                parts_spec.skip(i as int),
                base@,
                SpecKeyAttrs {
                    url: match url {
                        Some(u) => Some(u@),
                        None => None,
                    },
                    method: match method {
                        Some(m) => Some(m@),
                        None => None,
                    },
                    iv: opt_bytes_view(iv),
                    warns: warns@,
                },
            ),
        decreases n - i,
    {
        proof {
            reveal_strlit("METHOD=");
            reveal_strlit("URI=");
            reveal_strlit("IV=");
            reveal_strlit("0x");
            assert(parts_spec.skip(i as int).drop_first() =~= parts_spec.skip(i + 1));
            assert(parts_spec.skip(i as int)[0] == parts_spec[i as int]);
            assert(parts@.map_values(|t: String| t@)[i as int] == parts@[i as int]@);
        }
        let part = crate::text::trim_str(parts[i].as_str());
        if crate::text::starts_with_str(part, "METHOD=") {
            method = Some(crate::text::strip_prefix_rep(part, "METHOD=").to_owned());
        } else if crate::text::starts_with_str(part, "URI=") {
            let uri = crate::text::trim_char_str(
                crate::text::strip_prefix_rep(part, "URI="),
                '"',
            );
            match url_join(base, uri) {
                Some(u) => {
                    url = Some(u);
                },
                None => {
                    return (KeyLineResult::HardUri, warns);
                },
            }
        } else if crate::text::starts_with_str(part, "IV=") {
            let hex = crate::text::strip_prefix_rep(
                crate::text::strip_prefix_rep(part, "IV="),
                "0x",
            );
            if hex.unicode_len() == 2 * KEY_LEN {
                match crate::text::hex_decode_str(hex) {
                    Some(b) => {
                        iv = Some(b);
                    },
                    None => {
                        warns.push(ParseWarning::InvalidIvBytes);
                    },
                }
            } else {
                warns.push(ParseWarning::InvalidIvFormat);
            }
        }
        i = i + 1;
    }
    proof {
        assert(parts_spec.skip(n as int) =~= Seq::<Seq<char>>::empty());
    }
    match (url, method) {
        (u, Some(m)) => {
            if !crate::text::str_eq(m.as_str(), "AES-128") {
                (KeyLineResult::HardMethod(m), warns)
            } else if let Some(u) = u {
                (
                    KeyLineResult::NewDescriptor(
                        EncryptionInfo { key_url: u, method: m, key_bytes: None, iv_bytes: iv },
                    ),
                    warns,
                )
            } else {
                warns.push(ParseWarning::MissingKeyAttributes);
                (KeyLineResult::Skipped, warns)
            }
        },
        _ => {
            warns.push(ParseWarning::MissingKeyAttributes);
            (KeyLineResult::Skipped, warns)
        },
    }
}

fn extend_warns(dst: &mut Vec<ParseWarning>, src: &Vec<ParseWarning>)
    ensures
        final(dst)@ == old(dst)@ + src@,
{
    let n: usize = src.len();
    let mut i: usize = 0;
    proof {
        assert(dst@ =~= old(dst)@ + src@.take(0));
    }
    while i < n
        invariant
            0 <= i <= n,
            n == src@.len(),
            dst@ == old(dst)@ + src@.take(i as int),
        decreases n - i,
    {
        dst.push(src[i]);
        proof {
            assert(dst@ =~= old(dst)@ + src@.take(i + 1));
        }
        i = i + 1;
    }
    proof {
        assert(old(dst)@ + src@.take(n as int) =~= old(dst)@ + src@);
    }
}

/// Parse a playlist text against its base URL. Yields the segments in
/// presentation order, the last encryption descriptor seen (key bytes not
/// yet resolved), and the degradation diagnostics; or the first hard
/// failure, exactly as `spec_parse_playlist` states it.
pub fn parse_playlist(text: &str, base_url: &str) -> (r: Result<
    (Vec<Segment>, Option<EncryptionInfo>, Vec<ParseWarning>),
    ParseError,
>)
    ensures
        match spec_parse_playlist(text@, base_url@) {
            Ok(o) => r matches Ok((segs, enc, warns)) && segs@.map_values(|s: Segment| s@)
                == o.segments && opt_enc_view(enc) == o.enc && warns@ == o.warns,
            Err(e) => r matches Err(pe) && pe@ == e,
        },
{
    let lines = crate::text::split_str(text, '\n');
    let ghost lines_spec = spec_split(text@, '\n');
    let n: usize = lines.len();
    let mut segments: Vec<Segment> = Vec::new();
    let mut enc: Option<EncryptionInfo> = None;
    let mut warns: Vec<ParseWarning> = Vec::new();
    let mut ctr: usize = 0;
    let mut ctr_over: bool = false;
    let ghost whole = spec_parse_lines(lines_spec, 0, None, base_url@);
    let mut j: usize = 0;
    proof {
        assert(lines_spec.skip(0) =~= lines_spec);
        assert(segments@.map_values(|s: Segment| s@) =~= Seq::<SpecSegment>::empty());
        assert(warns@ =~= Seq::<ParseWarning>::empty());
    }
    while j < n
        invariant
            0 <= j <= n,
            n == lines@.len(),
            lines@.map_values(|t: String| t@) == lines_spec,
            lines_spec == spec_split(text@, '\n'),
            whole == spec_parse_lines(lines_spec, 0, None, base_url@),
            !ctr_over ==> ctr <= usize::MAX,
            ({
                let here = spec_parse_lines(
                    lines_spec.skip(j as int),
                    if ctr_over {
                        usize::MAX as int + 1
                    } else {
                        ctr as int
                    },
                    opt_enc_view(enc),
                    base_url@,
                );
                match here {
                    Ok(o) => whole == Ok::<SpecParseOutput, SpecParseError>(
                        SpecParseOutput {
                            segments: segments@.map_values(|s: Segment| s@) + o.segments,
                            enc: o.enc,
                            warns: warns@ + o.warns,
                        },
                    ),
                    Err(e) => whole == Err::<SpecParseOutput, SpecParseError>(e),
                }
            }),
        decreases n - j,
    {
        proof {
            reveal_strlit("#EXT-X-MEDIA-SEQUENCE:");
            reveal_strlit("#EXT-X-KEY");
            assert(lines_spec.skip(j as int).drop_first() =~= lines_spec.skip(j + 1));
            assert(lines_spec.skip(j as int)[0] == lines_spec[j as int]);
            assert(lines@.map_values(|t: String| t@)[j as int] == lines@[j as int]@);
        }
        let line = crate::text::trim_str(lines[j].as_str());
        if crate::text::starts_with_str(line, "#EXT-X-MEDIA-SEQUENCE:") {
            match parse_media_seq(line) {
                Some(v) => {
                    ctr = v;
                    ctr_over = false;
                },
                None => {},
            }
        } else if crate::text::starts_with_str(line, "#EXT-X-KEY") {
            let (res, w) = parse_key_line(line, base_url);
            match res {
                KeyLineResult::HardUri => {
                    return Err(ParseError::InvalidKeyUri);
                },
                KeyLineResult::HardMethod(m) => {
                    return Err(ParseError::UnsupportedMethod(m));
                },
                KeyLineResult::NewDescriptor(d) => {
                    let ghost pre_warns = warns@;
                    extend_warns(&mut warns, &w);
                    enc = Some(d);
                    proof {
                        let rest_res = spec_parse_lines(
                            lines_spec.skip(j + 1),
                            if ctr_over {
                                usize::MAX as int + 1
                            } else {
                                ctr as int
                            },
                            opt_enc_view(enc),
                            base_url@,
                        );
                        if let Ok(o) = rest_res {
                            lemma_concat_assoc(pre_warns, w@, o.warns);
                        }
                    }
                },
                KeyLineResult::Skipped => {
                    let ghost pre_warns = warns@;
                    extend_warns(&mut warns, &w);
                    proof {
                        let rest_res = spec_parse_lines(
                            lines_spec.skip(j + 1),
                            if ctr_over {
                                usize::MAX as int + 1
                            } else {
                                ctr as int
                            },
                            opt_enc_view(enc),
                            base_url@,
                        );
                        if let Ok(o) = rest_res {
                            lemma_concat_assoc(pre_warns, w@, o.warns);
                        }
                    }
                },
            }
        } else if line.unicode_len() > 0 && line.get_char(0) != '#' {
            if ctr_over {
                return Err(ParseError::IndexOverflow);
            }
            let ghost pre_segs = segments@.map_values(|s: Segment| s@);
            segments.push(Segment { path: line.to_owned(), index: ctr });
            proof {
                assert(segments@.map_values(|s: Segment| s@) =~= pre_segs.push(
                    SpecSegment { path: line@, index: ctr as int },
                ));
            }
            let ghost here_ctr = ctr as int;
            if ctr == usize::MAX {
                ctr_over = true;
            } else {
                ctr = ctr + 1;
            }
            proof {
                let rest_res = spec_parse_lines(
                    lines_spec.skip(j + 1),
                    here_ctr + 1,
                    opt_enc_view(enc),
                    base_url@,
                );
                if let Ok(o) = rest_res {
                    let one = seq![SpecSegment { path: line@, index: here_ctr }];
                    lemma_concat_assoc(pre_segs, one, o.segments);
                    assert(pre_segs + one =~= pre_segs.push(
                        SpecSegment { path: line@, index: here_ctr },
                    ));
                }
            }
        }
        j = j + 1;
    }
    proof {
        assert(lines_spec.skip(n as int) =~= Seq::<Seq<char>>::empty());
    }
    if segments.len() == 0 {
        return Err(ParseError::NoSegments);
    }
    Ok((segments, enc, warns))
}

proof fn lemma_concat_assoc<A>(a: Seq<A>, b: Seq<A>, c: Seq<A>)
    ensures
        (a + b) + c == a + (b + c),
{
    assert((a + b) + c =~= a + (b + c));
}

/// A raw line that the parser counts as a media segment reference.
pub open spec fn is_media_line(l: Seq<char>) -> bool {
    let t = spec_trim(l);
    t.len() > 0 && t[0] != '#'
}

/// A raw line that resets the running segment index.
pub open spec fn is_seq_tag(l: Seq<char>) -> bool {
    let t = spec_trim(l);
    has_prefix(t, "#EXT-X-MEDIA-SEQUENCE:"@) && spec_media_seq_value(t) is Some
}

pub open spec fn seq_tag_value(l: Seq<char>) -> int {
    spec_media_seq_value(spec_trim(l)).unwrap() as int
}

pub open spec fn media_count(lines: Seq<Seq<char>>) -> int
    decreases lines.len(),
{
    if lines.len() == 0 {
        0
    } else {
        (if is_media_line(lines[0]) {
            1int
        } else {
            0int
        }) + media_count(lines.drop_first())
    }
}

/// The trimmed media lines, in file order: what the segment paths must be.
pub open spec fn media_paths(lines: Seq<Seq<char>>) -> Seq<Seq<char>>
    decreases lines.len(),
{
    if lines.len() == 0 {
        Seq::empty()
    } else {
        (if is_media_line(lines[0]) {
            seq![spec_trim(lines[0])]
        } else {
            Seq::empty()
        }) + media_paths(lines.drop_first())
    }
}

/// Every media-sequence tag stands before every media line.
pub open spec fn tags_precede_media(lines: Seq<Seq<char>>) -> bool {
    forall|i: int, k: int|
        0 <= i < k < lines.len() && is_media_line(lines[i]) ==> !is_seq_tag(lines[k])
}

/// The index the first segment will carry: the value of the last
/// media-sequence tag, or the default.
pub open spec fn start_index(lines: Seq<Seq<char>>, dflt: int) -> int
    decreases lines.len(),
{
    if lines.len() == 0 {
        dflt
    } else {
        start_index(
            lines.drop_first(),
            if is_seq_tag(lines[0]) {
                seq_tag_value(lines[0])
            } else {
                dflt
            },
        )
    }
}

proof fn lemma_no_tags_start_index(lines: Seq<Seq<char>>, d: int)
    requires
        forall|k: int| 0 <= k < lines.len() ==> !is_seq_tag(lines[k]),
    ensures
        start_index(lines, d) == d,
    decreases lines.len(),
{
    if lines.len() > 0 {
        assert(forall|k: int|
            0 <= k < lines.drop_first().len() ==> lines.drop_first()[k] == lines[k + 1]);
        lemma_no_tags_start_index(lines.drop_first(), d);
    }
}

/// The two tag prefixes and the comment mark pin down which branch of the
/// parse a line takes.
proof fn lemma_prefix_shapes(t: Seq<char>)
    ensures
        has_prefix(t, "#EXT-X-MEDIA-SEQUENCE:"@) ==> t.len() > 0 && t[0] == '#',
        has_prefix(t, "#EXT-X-KEY"@) ==> t.len() > 0 && t[0] == '#',
        !(has_prefix(t, "#EXT-X-MEDIA-SEQUENCE:"@) && has_prefix(t, "#EXT-X-KEY"@)),
{
    reveal_strlit("#EXT-X-MEDIA-SEQUENCE:");
    reveal_strlit("#EXT-X-KEY");
    if has_prefix(t, "#EXT-X-MEDIA-SEQUENCE:"@) {
        assert(t[0] == t.subrange(0, 22)[0]);
    }
    if has_prefix(t, "#EXT-X-KEY"@) {
        assert(t[0] == t.subrange(0, 10)[0]);
    }
    if has_prefix(t, "#EXT-X-MEDIA-SEQUENCE:"@) && has_prefix(t, "#EXT-X-KEY"@) {
        assert(t.subrange(0, 22)[7] == 'M');
        assert(t.subrange(0, 10)[7] == 'K');
        assert(t[7] == 'M' && t[7] == 'K');
    }
}

proof fn lemma_parse_lines_count(
    lines: Seq<Seq<char>>,
    ctr: int,
    enc: Option<SpecEncryptionInfo>,
    base: Seq<char>,
)
    requires
        spec_parse_lines(lines, ctr, enc, base) is Ok,
    ensures
        spec_parse_lines(lines, ctr, enc, base)->Ok_0.segments.len() == media_count(lines),
        spec_parse_lines(lines, ctr, enc, base)->Ok_0.segments.map_values(
            |s: SpecSegment| s.path,
        ) == media_paths(lines),
    decreases lines.len(),
{
    if lines.len() == 0 {
        assert(Seq::<SpecSegment>::empty().map_values(|s: SpecSegment| s.path)
            =~= Seq::<Seq<char>>::empty());
    } else {
        let l = spec_trim(lines[0]);
        let rest = lines.drop_first();
        lemma_prefix_shapes(l);
        if has_prefix(l, "#EXT-X-MEDIA-SEQUENCE:"@) {
            match spec_media_seq_value(l) {
                Some(v) => lemma_parse_lines_count(rest, v as int, enc, base),
                None => lemma_parse_lines_count(rest, ctr, enc, base),
            }
            assert(Seq::<Seq<char>>::empty() + media_paths(rest) =~= media_paths(rest));
        } else if has_prefix(l, "#EXT-X-KEY"@) {
            match spec_key_line(l, base) {
                SpecKeyLineResult::NewDescriptor { desc, warns } => {
                    lemma_parse_lines_count(rest, ctr, Some(desc), base);
                },
                SpecKeyLineResult::Skipped { warns } => {
                    lemma_parse_lines_count(rest, ctr, enc, base);
                },
                _ => {},
            }
            assert(Seq::<Seq<char>>::empty() + media_paths(rest) =~= media_paths(rest));
        } else if l.len() > 0 && l[0] != '#' {
            if ctr <= usize::MAX {
                lemma_parse_lines_count(rest, ctr + 1, enc, base);
                let o = spec_parse_lines(rest, ctr + 1, enc, base)->Ok_0;
                assert((seq![SpecSegment { path: l, index: ctr }] + o.segments).map_values(
                    |s: SpecSegment| s.path,
                ) =~= seq![l] + o.segments.map_values(|s: SpecSegment| s.path));
            }
        } else {
            lemma_parse_lines_count(rest, ctr, enc, base);
            assert(Seq::<Seq<char>>::empty() + media_paths(rest) =~= media_paths(rest));
        }
    }
}

proof fn lemma_media_count_nonneg(lines: Seq<Seq<char>>)
    ensures
        media_count(lines) >= 0,
    decreases lines.len(),
{
    if lines.len() > 0 {
        lemma_media_count_nonneg(lines.drop_first());
    }
}

proof fn lemma_parse_lines_ok(
    lines: Seq<Seq<char>>,
    ctr: int,
    enc: Option<SpecEncryptionInfo>,
    base: Seq<char>,
)
    requires
        forall|i: int|
            0 <= i < lines.len() ==> !has_prefix(#[trigger] spec_trim(lines[i]), "#EXT-X-KEY"@),
        tags_precede_media(lines),
        0 <= ctr,
        start_index(lines, ctr) + media_count(lines) <= usize::MAX + 1,
    ensures
        spec_parse_lines(lines, ctr, enc, base) is Ok,
    decreases lines.len(),
{
    if lines.len() > 0 {
        let l = spec_trim(lines[0]);
        let rest = lines.drop_first();
        lemma_prefix_shapes(l);
        lemma_media_count_nonneg(rest);
        assert(forall|k: int| 0 <= k < rest.len() ==> rest[k] == lines[k + 1]);
        assert(forall|i: int|
            0 <= i < rest.len() ==> !has_prefix(#[trigger] spec_trim(rest[i]), "#EXT-X-KEY"@));
        assert(tags_precede_media(rest)) by {
            assert forall|i: int, k: int|
                0 <= i < k < rest.len() && is_media_line(rest[i]) implies !is_seq_tag(
                rest[k],
            ) by {
                assert(rest[i] == lines[i + 1]);
                assert(rest[k] == lines[k + 1]);
                assert(is_media_line(lines[i + 1]));
            }
        }
        if has_prefix(l, "#EXT-X-MEDIA-SEQUENCE:"@) {
            match spec_media_seq_value(l) {
                Some(v) => {
                    assert(is_seq_tag(lines[0]) && seq_tag_value(lines[0]) == v as int);
                    lemma_parse_lines_ok(rest, v as int, enc, base);
                },
                None => {
                    assert(!is_seq_tag(lines[0]));
                    lemma_parse_lines_ok(rest, ctr, enc, base);
                },
            }
        } else if l.len() > 0 && l[0] != '#' {
            assert(is_media_line(lines[0]));
            assert(!is_seq_tag(lines[0]));
            assert(forall|k: int| 0 <= k < rest.len() ==> !is_seq_tag(rest[k])) by {
                assert forall|k: int| 0 <= k < rest.len() implies !is_seq_tag(rest[k]) by {
                    assert(rest[k] == lines[k + 1]);
                    assert(is_media_line(lines[0]));
                }
            }
            lemma_no_tags_start_index(rest, ctr);
            lemma_no_tags_start_index(rest, ctr + 1);
            assert(start_index(lines, ctr) == ctr);
            assert(media_count(lines) >= 1);
            assert(ctr <= usize::MAX);
            lemma_parse_lines_ok(rest, ctr + 1, enc, base);
        } else {
            assert(!is_seq_tag(lines[0]));
            lemma_parse_lines_ok(rest, ctr, enc, base);
        }
    }
}

/// A playlist without key tags, whose media-sequence tags stand before its
/// media lines, parses successfully whenever it holds at least one media
/// line and its indices fit the machine word — so the count and contiguity
/// laws above apply to it outright.
pub proof fn lemma_parser_succeeds_without_key_tags(text: Seq<char>, base: Seq<char>)
    requires
        forall|i: int|
            0 <= i < spec_split(text, '\n').len() ==> !has_prefix(
                #[trigger] spec_trim(spec_split(text, '\n')[i]),
                "#EXT-X-KEY"@,
            ),
        tags_precede_media(spec_split(text, '\n')),
        media_count(spec_split(text, '\n')) >= 1,
        start_index(spec_split(text, '\n'), 0) + media_count(spec_split(text, '\n'))
            <= usize::MAX + 1,
    ensures
        spec_parse_playlist(text, base) is Ok,
{
    let lines = spec_split(text, '\n');
    lemma_parse_lines_ok(lines, 0, None, base);
    lemma_parse_lines_count(lines, 0, None, base);
}

/// Whatever a playlist holds, a successful parse yields exactly one segment
/// per non-blank, non-comment line — none dropped, none invented — and the
/// segment paths are exactly those lines, trimmed, in file order.
pub proof fn lemma_parser_counts_media_lines(text: Seq<char>, base: Seq<char>)
    requires
        spec_parse_playlist(text, base) is Ok,
    ensures
        spec_parse_playlist(text, base)->Ok_0.segments.len() == media_count(
            spec_split(text, '\n'),
        ),
        spec_parse_playlist(text, base)->Ok_0.segments.map_values(|s: SpecSegment| s.path)
            == media_paths(spec_split(text, '\n')),
{
    lemma_parse_lines_count(spec_split(text, '\n'), 0, None, base);
}

proof fn lemma_parse_lines_shape(
    lines: Seq<Seq<char>>,
    ctr: int,
    enc: Option<SpecEncryptionInfo>,
    base: Seq<char>,
)
    requires
        tags_precede_media(lines),
        spec_parse_lines(lines, ctr, enc, base) is Ok,
    ensures
        ({
            let segs = spec_parse_lines(lines, ctr, enc, base)->Ok_0.segments;
            &&& segs.len() == media_count(lines)
            &&& forall|k: int|
                0 <= k < segs.len() ==> #[trigger] segs[k].index == start_index(lines, ctr) + k
        }),
    decreases lines.len(),
{
    if lines.len() > 0 {
        let l = spec_trim(lines[0]);
        let rest = lines.drop_first();
        lemma_prefix_shapes(l);
        assert(forall|k: int| 0 <= k < rest.len() ==> rest[k] == lines[k + 1]);
        assert(tags_precede_media(rest)) by {
            assert forall|i: int, k: int|
                0 <= i < k < rest.len() && is_media_line(rest[i]) implies !is_seq_tag(
                rest[k],
            ) by {
                assert(rest[i] == lines[i + 1]);
                assert(rest[k] == lines[k + 1]);
                assert(is_media_line(lines[i + 1]));
            }
        }
        if has_prefix(l, "#EXT-X-MEDIA-SEQUENCE:"@) {
            match spec_media_seq_value(l) {
                Some(v) => {
                    lemma_parse_lines_shape(rest, v as int, enc, base);
                },
                None => {
                    lemma_parse_lines_shape(rest, ctr, enc, base);
                },
            }
        } else if has_prefix(l, "#EXT-X-KEY"@) {
            match spec_key_line(l, base) {
                SpecKeyLineResult::NewDescriptor { desc, warns } => {
                    lemma_parse_lines_shape(rest, ctr, Some(desc), base);
                },
                SpecKeyLineResult::Skipped { warns } => {
                    lemma_parse_lines_shape(rest, ctr, enc, base);
                },
                _ => {},
            }
        } else if l.len() > 0 && l[0] != '#' {
            assert(is_media_line(lines[0]));
            assert(forall|k: int| 0 <= k < rest.len() ==> !is_seq_tag(rest[k])) by {
                assert forall|k: int| 0 <= k < rest.len() implies !is_seq_tag(rest[k]) by {
                    assert(rest[k] == lines[k + 1]);
                    assert(is_media_line(lines[0]));
                }
            }
            lemma_no_tags_start_index(rest, ctr + 1);
            lemma_parse_lines_shape(rest, ctr + 1, enc, base);
            lemma_no_tags_start_index(lines, ctr);
        } else {
            lemma_parse_lines_shape(rest, ctr, enc, base);
        }
    }
}

/// For a playlist whose media-sequence tags all stand before its media
/// lines, a successful parse yields exactly one segment per non-comment,
/// non-blank media line, and their indices are the contiguous range that
/// starts at the value of the last media-sequence tag (default 0).
pub proof fn lemma_parser_counts_and_indices(text: Seq<char>, base: Seq<char>)
    requires
        tags_precede_media(spec_split(text, '\n')),
        spec_parse_playlist(text, base) is Ok,
    ensures
        ({
            let lines = spec_split(text, '\n');
            let segs = spec_parse_playlist(text, base)->Ok_0.segments;
            &&& segs.len() == media_count(lines)
            &&& forall|k: int|
                0 <= k < segs.len() ==> #[trigger] segs[k].index == start_index(lines, 0) + k
        }),
{
    lemma_parse_lines_shape(spec_split(text, '\n'), 0, None, base);
}

/// Corollary: under the same condition the parsed indices are pairwise
/// distinct — one file per index, which is what makes the assembled order
/// independent of fetch completion order.
pub proof fn lemma_parser_indices_distinct(text: Seq<char>, base: Seq<char>)
    requires
        tags_precede_media(spec_split(text, '\n')),
        spec_parse_playlist(text, base) is Ok,
    ensures
        ({
            let segs = spec_parse_playlist(text, base)->Ok_0.segments;
            forall|k1: int, k2: int|
                0 <= k1 < k2 < segs.len() ==> #[trigger] segs[k1].index != #[trigger] segs[k2].index
        }),
{
    lemma_parser_counts_and_indices(text, base);
}

proof fn lemma_parse_lines_hard_key(
    lines: Seq<Seq<char>>,
    ctr: int,
    enc: Option<SpecEncryptionInfo>,
    base: Seq<char>,
    i: int,
)
    requires
        0 <= i < lines.len(),
        has_prefix(spec_trim(lines[i]), "#EXT-X-KEY"@),
        spec_key_line(spec_trim(lines[i]), base) is HardMethod || spec_key_line(
            spec_trim(lines[i]),
            base,
        ) is HardUri,
    ensures
        spec_parse_lines(lines, ctr, enc, base) is Err,
    decreases lines.len(),
{
    let l = spec_trim(lines[0]);
    let rest = lines.drop_first();
    lemma_prefix_shapes(l);
    if i == 0 {
    } else {
        assert(rest[i - 1] == lines[i]);
        if has_prefix(l, "#EXT-X-MEDIA-SEQUENCE:"@) {
            match spec_media_seq_value(l) {
                Some(v) => {
                    lemma_parse_lines_hard_key(rest, v as int, enc, base, i - 1);
                },
                None => {
                    lemma_parse_lines_hard_key(rest, ctr, enc, base, i - 1);
                },
            }
        } else if has_prefix(l, "#EXT-X-KEY"@) {
            match spec_key_line(l, base) {
                SpecKeyLineResult::NewDescriptor { desc, warns } => {
                    lemma_parse_lines_hard_key(rest, ctr, Some(desc), base, i - 1);
                },
                SpecKeyLineResult::Skipped { warns } => {
                    lemma_parse_lines_hard_key(rest, ctr, enc, base, i - 1);
                },
                _ => {},
            }
        } else if l.len() > 0 && l[0] != '#' {
            if ctr <= usize::MAX {
                lemma_parse_lines_hard_key(rest, ctr + 1, enc, base, i - 1);
            }
        } else {
            lemma_parse_lines_hard_key(rest, ctr, enc, base, i - 1);
        }
    }
}

/// A key tag whose method is anything but `AES-128` (or whose URI cannot be
/// resolved) makes the whole parse fail: content is never silently treated
/// as unencrypted.
pub proof fn lemma_unsupported_method_fails(text: Seq<char>, base: Seq<char>, i: int)
    requires
        0 <= i < spec_split(text, '\n').len(),
        has_prefix(spec_trim(spec_split(text, '\n')[i]), "#EXT-X-KEY"@),
        spec_key_line(spec_trim(spec_split(text, '\n')[i]), base) is HardMethod || spec_key_line(
            spec_trim(spec_split(text, '\n')[i]),
            base,
        ) is HardUri,
    ensures
        spec_parse_playlist(text, base) is Err,
{
    lemma_parse_lines_hard_key(spec_split(text, '\n'), 0, None, base, i);
}

proof fn lemma_key_parts_wf_iv(parts: Seq<Seq<char>>, base: Seq<char>, acc: SpecKeyAttrs)
    requires
        acc.iv matches Some(v) ==> v.len() == KEY_LEN,
        spec_key_parts(parts, base, acc) is Ok,
    ensures
        spec_key_parts(parts, base, acc)->Ok_0.iv matches Some(v) ==> v.len() == KEY_LEN,
    decreases parts.len(),
{
    if parts.len() > 0 {
        if let Ok(a) = spec_key_part(acc, parts[0], base) {
            lemma_key_parts_wf_iv(parts.drop_first(), base, a);
        }
    }
}

proof fn lemma_key_line_wf(line: Seq<char>, base: Seq<char>)
    ensures
        spec_key_line(line, base) matches SpecKeyLineResult::NewDescriptor { desc, warns }
            ==> desc.wf() && desc.key_bytes is None,
{
    let content = spec_trim(spec_strip_prefix_rep(line, "#EXT-X-KEY:"@));
    let parts = spec_split(content, ',');
    if spec_key_parts(parts, base, empty_key_attrs()) is Ok {
        lemma_key_parts_wf_iv(parts, base, empty_key_attrs());
    }
}

proof fn lemma_parse_lines_wf(
    lines: Seq<Seq<char>>,
    ctr: int,
    enc: Option<SpecEncryptionInfo>,
    base: Seq<char>,
)
    requires
        enc matches Some(e) ==> e.wf() && e.key_bytes is None,
        spec_parse_lines(lines, ctr, enc, base) is Ok,
    ensures
        spec_parse_lines(lines, ctr, enc, base)->Ok_0.enc matches Some(e) ==> e.wf()
            && e.key_bytes is None,
    decreases lines.len(),
{
    if lines.len() > 0 {
        let l = spec_trim(lines[0]);
        let rest = lines.drop_first();
        if has_prefix(l, "#EXT-X-MEDIA-SEQUENCE:"@) {
            match spec_media_seq_value(l) {
                Some(v) => lemma_parse_lines_wf(rest, v as int, enc, base),
                None => lemma_parse_lines_wf(rest, ctr, enc, base),
            }
        } else if has_prefix(l, "#EXT-X-KEY"@) {
            lemma_key_line_wf(l, base);
            match spec_key_line(l, base) {
                SpecKeyLineResult::NewDescriptor { desc, warns } => {
                    lemma_parse_lines_wf(rest, ctr, Some(desc), base);
                },
                SpecKeyLineResult::Skipped { warns } => {
                    lemma_parse_lines_wf(rest, ctr, enc, base);
                },
                _ => {},
            }
        } else if l.len() > 0 && l[0] != '#' {
            if ctr <= usize::MAX {
                lemma_parse_lines_wf(rest, ctr + 1, enc, base);
            }
        } else {
            lemma_parse_lines_wf(rest, ctr, enc, base);
        }
    }
}

/// Every descriptor a successful parse hands out is well formed: its
/// explicit IV, if any, is exactly 16 bytes, and its key bytes are not yet
/// resolved — so the decrypt path's length preconditions hold of it once
/// the 16-byte key is filled in.
pub proof fn lemma_parser_descriptor_wf(text: Seq<char>, base: Seq<char>)
    requires
        spec_parse_playlist(text, base) is Ok,
    ensures
        spec_parse_playlist(text, base)->Ok_0.enc matches Some(e) ==> e.wf() && e.key_bytes
            is None,
{
    lemma_parse_lines_wf(spec_split(text, '\n'), 0, None, base);
}

/// Whether one comma-separated attribute part sets the descriptor's IV: an
/// `IV=` attribute of exactly 32 well-formed hex digits after the optional
/// `0x` prefix.
pub open spec fn sets_iv(part_raw: Seq<char>) -> bool {
    let part = spec_trim(part_raw);
    &&& !has_prefix(part, "METHOD="@)
    &&& !has_prefix(part, "URI="@)
    &&& has_prefix(part, "IV="@)
    &&& ({
        let hex = spec_strip_prefix_rep(spec_strip_prefix_rep(part, "IV="@), "0x"@);
        hex.len() == 2 * KEY_LEN && spec_hex_decode(hex) is Some
    })
}

proof fn lemma_key_parts_iv_unset(parts: Seq<Seq<char>>, base: Seq<char>, acc: SpecKeyAttrs)
    requires
        forall|i: int| 0 <= i < parts.len() ==> !sets_iv(#[trigger] parts[i]),
        spec_key_parts(parts, base, acc) is Ok,
    ensures
        spec_key_parts(parts, base, acc)->Ok_0.iv == acc.iv,
    decreases parts.len(),
{
    if parts.len() > 0 {
        if let Ok(a) = spec_key_part(acc, parts[0], base) {
            assert(a.iv == acc.iv);
            assert(forall|i: int|
                0 <= i < parts.drop_first().len() ==> parts.drop_first()[i] == parts[i + 1]);
            lemma_key_parts_iv_unset(parts.drop_first(), base, a);
        }
    }
}

/// A key line none of whose `IV=` attributes decodes (wrong length or
/// non-hex characters) yields, if it yields a descriptor at all, one with
/// no IV: decryption then falls back to the index-derived IV. A malformed
/// IV is never itself a hard failure.
pub proof fn lemma_malformed_iv_leaves_iv_absent(line: Seq<char>, base: Seq<char>)
    requires
        ({
            let parts = spec_split(spec_trim(spec_strip_prefix_rep(line, "#EXT-X-KEY:"@)), ',');
            forall|i: int| 0 <= i < parts.len() ==> !sets_iv(#[trigger] parts[i])
        }),
    ensures
        spec_key_line(line, base) matches SpecKeyLineResult::NewDescriptor { desc, warns }
            ==> desc.iv_bytes is None,
{
    let parts = spec_split(spec_trim(spec_strip_prefix_rep(line, "#EXT-X-KEY:"@)), ',');
    if spec_key_parts(parts, base, empty_key_attrs()) is Ok {
        lemma_key_parts_iv_unset(parts, base, empty_key_attrs());
    }
}

/// An `IV=` attribute never fails the parse: 32 hex digits (after the
/// optional `0x` prefix) set the accumulator's IV to exactly the decoded
/// bytes; anything malformed leaves the IV as it was and only adds a
/// diagnostic.
pub proof fn lemma_iv_attribute(acc: SpecKeyAttrs, part_raw: Seq<char>, base: Seq<char>)
    requires
        has_prefix(spec_trim(part_raw), "IV="@),
        !has_prefix(spec_trim(part_raw), "METHOD="@),
        !has_prefix(spec_trim(part_raw), "URI="@),
    ensures
        spec_key_part(acc, part_raw, base) is Ok,
        ({
            let hex = spec_strip_prefix_rep(
                spec_strip_prefix_rep(spec_trim(part_raw), "IV="@),
                "0x"@,
            );
            let r = spec_key_part(acc, part_raw, base)->Ok_0;
            if hex.len() == 2 * KEY_LEN && spec_hex_decode(hex) is Some {
                r == SpecKeyAttrs { iv: Some(spec_hex_decode(hex).unwrap()), ..acc }
            } else {
                r.iv == acc.iv && r.url == acc.url && r.method == acc.method && r.warns.len()
                    == acc.warns.len() + 1
            }
        }),
{
}

} // verus!
