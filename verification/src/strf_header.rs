//! The header of a strf `.bin` spectrum block.
//!
//! Every spectrum in a strf `.bin` file is preceded by a 256-byte text header:
//!
//! ```text
//! HEADER
//! UTC_START    2024-01-01T00:00:00.000
//! FREQ         437000000 Hz
//! BW           100000 Hz
//! LENGTH       1 s
//! NCHAN        16
//! NSUB         10
//! END
//! ```
//!
//! padded with NUL bytes. The `NSUB` line is optional. Its grammar, in regular-expression terms,
//! is `HEADER\s+UTC_START\s+(\S+)\s+FREQ\s+([0-9.]+)\s+Hz\s+BW\s+([0-9.]+)\s+Hz\s+LENGTH\s+([0-9.]+)\s+s\s+NCHAN\s+(\d+)\s+(?:NSUB\s+\d+\s+)?END`,
//! searched for anywhere in the header text. Every run in the grammar is followed by a character
//! outside its class, so a greedy match is the only one; this module states that match directly.
use vstd::prelude::*;
use crate::text::{is_ws, is_whitespace, chars_of, ascii_digits_value, digits_value_bounded};

verus! {

/// One element of the header grammar.
#[derive(Clone, Copy)]
pub enum Token {
    /// The literal text.
    Word(&'static str),
    /// One or more whitespace characters (`\s+`).
    Space,
    /// One or more non-whitespace characters (`\S+`).
    NonSpace,
    /// One or more ASCII digits or dots (`[0-9.]+`).
    Number,
    /// One or more decimal digits (`\d+`).
    Digits,
}

/// Membership of a non-ASCII character in the Unicode decimal digit class `\d` (general category
/// Nd) of the regex crate.
pub uninterp spec fn unicode_decimal_digit(c: char) -> bool;

/// The class `\d`: ASCII digits, and for other characters Unicode general category Nd.
pub open spec fn is_decimal_digit(c: char) -> bool {
    if (c as u32) < 0x80 {
        '0' <= c <= '9'
    } else {
        unicode_decimal_digit(c)
    }
}

/// Whether a non-ASCII character is in the regex class `\d`.
///
/// Trusted: compiles the regex `\A\d\z` with the `regex` crate and matches it against the
/// character. The contract names the result `unicode_decimal_digit(c)`; which characters the
/// crate's Unicode tables place in Nd is not stated.
#[verifier::external_body]
fn regex_decimal_digit(c: char) -> (r: bool)
    ensures
        r == unicode_decimal_digit(c),
{
    let mut buf = [0u8; 4];
    match regex::Regex::new(r"\A\d\z") {
        Ok(re) => re.is_match(c.encode_utf8(&mut buf)),
        Err(_) => false,
    }
}

/// Whether `c` is in the class `\d`.
pub fn decimal_digit(c: char) -> (r: bool)
    ensures
        r == is_decimal_digit(c),
{
    if (c as u32) < 0x80 {
        '0' <= c && c <= '9'
    } else {
        regex_decimal_digit(c)
    }
}

/// Whether `c` belongs to the character class of a run token.
pub open spec fn in_class(tok: Token, c: char) -> bool {
    match tok {
        Token::Word(_) => false,
        Token::Space => is_ws(c),
        Token::NonSpace => !is_ws(c),
        Token::Number => ('0' <= c <= '9') || c == '.',
        Token::Digits => is_decimal_digit(c),
    }
}

/// The end of the longest run of `tok`'s class that starts at `i`.
pub open spec fn run_end(t: Seq<char>, i: int, tok: Token) -> int
    decreases t.len() - i,
{
    if 0 <= i < t.len() && in_class(tok, t[i]) {
        run_end(t, i + 1, tok)
    } else {
        i
    }
}

/// Where `tok` ends when it starts at `i`, if it matches there.
pub open spec fn token_end(t: Seq<char>, i: int, tok: Token) -> Option<int> {
    match tok {
        Token::Word(w) => if 0 <= i && i + w@.len() <= t.len() && t.subrange(i, i + w@.len())
            == w@ {
            Some(i + w@.len())
        } else {
            None
        },
        _ => {
            let e = run_end(t, i, tok);
            if e > i {
                Some(e)
            } else {
                None
            }
        },
    }
}

/// The match of `toks[k..]` starting at `i`: the span of every token, in order.
pub open spec fn match_from(t: Seq<char>, i: int, toks: Seq<Token>, k: int) -> Option<
    Seq<(int, int)>,
>
    decreases toks.len() - k,
{
    if k < 0 || k >= toks.len() {
        Some(seq![])
    } else {
        match token_end(t, i, toks[k]) {
            None => None,
            Some(e) => match match_from(t, e, toks, k + 1) {
                None => None,
                Some(rest) => Some(seq![(i, e)] + rest),
            },
        }
    }
}

/// The header grammar up to the optional `NSUB` line.
pub open spec fn main_tokens() -> Seq<Token> {
    seq![
        Token::Word("HEADER"),
        Token::Space,
        Token::Word("UTC_START"),
        Token::Space,
        Token::NonSpace,
        Token::Space,
        Token::Word("FREQ"),
        Token::Space,
        Token::Number,
        Token::Space,
        Token::Word("Hz"),
        Token::Space,
        Token::Word("BW"),
        Token::Space,
        Token::Number,
        Token::Space,
        Token::Word("Hz"),
        Token::Space,
        Token::Word("LENGTH"),
        Token::Space,
        Token::Number,
        Token::Space,
        Token::Word("s"),
        Token::Space,
        Token::Word("NCHAN"),
        Token::Space,
        Token::Digits,
        Token::Space,
    ]
}

/// The grammar's ending with the `NSUB` line.
pub open spec fn nsub_tail() -> Seq<Token> {
    seq![Token::Word("NSUB"), Token::Space, Token::Digits, Token::Space, Token::Word("END")]
}

/// The grammar's ending without the `NSUB` line.
pub open spec fn end_tail() -> Seq<Token> {
    seq![Token::Word("END")]
}

/// Token position of the `UTC_START` field.
pub open spec fn utc_start_token() -> int {
    4
}

/// Token position of the `FREQ` field.
pub open spec fn freq_token() -> int {
    8
}

/// Token position of the `BW` field.
pub open spec fn bw_token() -> int {
    14
}

/// Token position of the `LENGTH` field.
pub open spec fn length_token() -> int {
    20
}

/// Token position of the `NCHAN` field.
pub open spec fn nchan_token() -> int {
    26
}

/// The match of the header grammar starting at `p`; the `NSUB` form is preferred.
pub open spec fn match_at(t: Seq<char>, p: int) -> Option<Seq<(int, int)>> {
    match match_from(t, p, main_tokens() + nsub_tail(), 0) {
        Some(spans) => Some(spans),
        None => match_from(t, p, main_tokens() + end_tail(), 0),
    }
}

/// The leftmost match of the header grammar at or after `p`.
pub open spec fn first_match_from(t: Seq<char>, p: int) -> Option<Seq<(int, int)>>
    decreases t.len() + 1 - p,
{
    if p < 0 || p > t.len() {
        None
    } else {
        match match_at(t, p) {
            Some(spans) => Some(spans),
            None => first_match_from(t, p + 1),
        }
    }
}

/// The leftmost match of the header grammar in `t`.
pub open spec fn header_match(t: Seq<char>) -> Option<Seq<(int, int)>> {
    first_match_from(t, 0)
}

/// What `str::parse::<usize>` gives for a non-empty run of decimal digits: the value if every
/// digit is ASCII and it fits, otherwise nothing.
pub open spec fn parse_usize_digits(s: Seq<char>) -> Option<usize> {
    match ascii_digits_value(s) {
        Some(v) if v <= usize::MAX => Some(v as usize),
        _ => None,
    }
}

/// The instant an RFC 3339 timestamp text stands for, as seconds since the Unix epoch and
/// nanoseconds into that second, if chrono reads the text as one.
pub uninterp spec fn rfc3339_instant(text: Seq<char>) -> Option<(i64, u32)>;

/// Reads an RFC 3339 timestamp.
///
/// Trusted: calls `chrono::DateTime::parse_from_rfc3339` and takes `timestamp()` and
/// `timestamp_subsec_nanos()` of the result. The contract names the result
/// `rfc3339_instant(text@)`; the grammar chrono accepts is not stated.
#[verifier::external_body]
fn parse_rfc3339(text: &str) -> (r: Option<(i64, u32)>)
    ensures
        r == rfc3339_instant(text@),
{
    chrono::DateTime::parse_from_rfc3339(text).ok().map(|t| (t.timestamp(), t.timestamp_subsec_nanos()))
}

/// The fields of a header: the start time as text and as the instant it stands for (it is
/// written without a zone and is UTC), the frequency, bandwidth and length as text, and the
/// channel count if it is a `usize`.
#[derive(Debug, Clone, PartialEq, Eq)]
pub struct HeaderFields {
    pub utc_start: String,
    /// The start time in seconds since the Unix epoch.
    pub start_secs: i64,
    /// Nanoseconds into that second.
    pub start_nanos: u32,
    pub freq: String,
    pub bw: String,
    pub length: String,
    /// `None` when the channel count is not a `usize` (non-ASCII digits, or too large); the
    /// caller reports that after checking the numeric fields, as the header is read in field
    /// order.
    pub nchan: Option<usize>,
}

/// Why a header could not be read.
#[derive(Debug, Clone, PartialEq, Eq, Structural)]
pub enum HeaderError {
    /// The header bytes are not UTF-8.
    InvalidUtf8,
    /// The header text does not follow the grammar.
    IncorrectFormat,
    /// The start time is not an RFC 3339 timestamp once read as UTC.
    InvalidStartTime,
}

pub open spec fn span_text(t: Seq<char>, span: (int, int)) -> Seq<char> {
    t.subrange(span.0, span.1)
}

/// Whether `r` is the result of reading header text `t`.
pub open spec fn header_result_matches(t: Seq<char>, r: Result<HeaderFields, HeaderError>) -> bool {
    match header_match(t) {
        None => r == Err::<HeaderFields, HeaderError>(HeaderError::IncorrectFormat),
        Some(spans) => match rfc3339_instant(span_text(t, spans[utc_start_token()]) + "Z"@) {
            None => r == Err::<HeaderFields, HeaderError>(HeaderError::InvalidStartTime),
            Some(start) => match r {
                Ok(f) => {
                    &&& f.utc_start@ == span_text(t, spans[utc_start_token()])
                    &&& f.start_secs == start.0
                    &&& f.start_nanos == start.1
                    &&& f.freq@ == span_text(t, spans[freq_token()])
                    &&& f.bw@ == span_text(t, spans[bw_token()])
                    &&& f.length@ == span_text(t, spans[length_token()])
                    &&& f.nchan == parse_usize_digits(span_text(t, spans[nchan_token()]))
                },
                Err(_) => false,
            },
        },
    }
}

/// The spans with positions as integers.
pub open spec fn spans_view(v: Seq<(usize, usize)>) -> Seq<(int, int)> {
    v.map_values(|p: (usize, usize)| (p.0 as int, p.1 as int))
}

/// Whether `c` belongs to the character class of a run token.
fn in_class_exec(tok: Token, c: char) -> (r: bool)
    ensures
        r == in_class(tok, c),
{
    match tok {
        Token::Word(_) => false,
        Token::Space => is_whitespace(c),
        Token::NonSpace => !is_whitespace(c),
        Token::Number => ('0' <= c && c <= '9') || c == '.',
        Token::Digits => decimal_digit(c),
    }
}

/// The end of the longest run of `tok`'s class that starts at `i`.
fn run_end_exec(t: &Vec<char>, i: usize, tok: Token) -> (r: usize)
    requires
        i <= t@.len(),
    ensures
        r == run_end(t@, i as int, tok),
        i <= r <= t@.len(),
{
    let mut j = i;
    while j < t.len() && in_class_exec(tok, t[j])
        invariant
            i <= j <= t@.len(),
            run_end(t@, j as int, tok) == run_end(t@, i as int, tok),
        decreases t@.len() - j,
    {
        j = j + 1;
    }
    j
}

/// Whether the word `w` stands in `t` at `i`.
fn word_at(t: &Vec<char>, i: usize, w: &str) -> (r: bool)
    requires
        i <= t@.len(),
    ensures
        r == (i + w@.len() <= t@.len() && t@.subrange(i as int, i + w@.len()) == w@),
{
    let n = w.unicode_len();
    if n > t.len() - i {
        return false;
    }
    let mut k: usize = 0;
    while k < n
        invariant
            n == w@.len(),
            i + n <= t.len(),
            k <= n,
            forall|j: int| 0 <= j < k ==> t@[i + j] == w@[j],
        decreases n - k,
    {
        if t[i + k] != w.get_char(k) {
            proof {
                assert(t@.subrange(i as int, i + n)[k as int] != w@[k as int]);
            }
            return false;
        }
        k = k + 1;
    }
    assert(t@.subrange(i as int, i + n) =~= w@);
    true
}

/// Where `tok` ends when it starts at `i`, if it matches there.
fn token_end_exec(t: &Vec<char>, i: usize, tok: Token) -> (r: Option<usize>)
    requires
        i <= t@.len(),
    ensures
        r matches Some(e) ==> token_end(t@, i as int, tok) == Some(e as int) && i <= e <= t@.len(),
        r is None ==> token_end(t@, i as int, tok) is None,
{
    match tok {
        Token::Word(w) => {
            let n = w.unicode_len();
            let len = t.len();
            if word_at(t, i, w) {
                Some(i + n)
            } else {
                None
            }
        },
        _ => {
            let e = run_end_exec(t, i, tok);
            if e > i {
                Some(e)
            } else {
                None
            }
        },
    }
}

/// Prepends known spans to the match of the remaining tokens.
pub open spec fn prepend(spans: Seq<(int, int)>, rest: Option<Seq<(int, int)>>) -> Option<
    Seq<(int, int)>,
> {
    match rest {
        None => None,
        Some(r) => Some(spans + r),
    }
}

/// The match of `toks` starting at `i`.
fn match_tokens(t: &Vec<char>, i: usize, toks: &Vec<Token>) -> (r: Option<Vec<(usize, usize)>>)
    requires
        i <= t@.len(),
    ensures
        r matches Some(v) ==> match_from(t@, i as int, toks@, 0) == Some(spans_view(v@)),
        r matches Some(v) ==> v@.len() == toks@.len(),
        r matches Some(v) ==> forall|j: int| 0 <= j < v@.len() ==> #[trigger] v@[j].0 <= v@[j].1 <= t@.len(),
        r is None ==> match_from(t@, i as int, toks@, 0) is None,
{
    let mut spans: Vec<(usize, usize)> = Vec::new();
    let mut pos = i;
    let mut k: usize = 0;
    while k < toks.len()
        invariant
            pos <= t@.len(),
            k <= toks@.len(),
            match_from(t@, i as int, toks@, 0) == prepend(
                spans_view(spans@),
                match_from(t@, pos as int, toks@, k as int),
            ),
            spans@.len() == k,
            forall|j: int| 0 <= j < spans@.len() ==> #[trigger] spans@[j].0 <= spans@[j].1 <= t@.len(),
        decreases toks@.len() - k,
    {
        match token_end_exec(t, pos, toks[k]) {
            None => {
                return None;
            },
            Some(e) => {
                let ghost old_spans = spans@;
                spans.push((pos, e));
                proof {
                    assert(spans_view(spans@) =~= spans_view(old_spans) + seq![(pos as int, e as int)]);
                    match match_from(t@, e as int, toks@, k + 1) {
                        None => {},
                        Some(rest) => {
                            assert(spans_view(old_spans) + (seq![(pos as int, e as int)] + rest)
                                =~= spans_view(spans@) + rest);
                        },
                    }
                }
                pos = e;
            },
        }
        k = k + 1;
    }
    assert(spans_view(spans@) + seq![] =~= spans_view(spans@));
    Some(spans)
}

/// The header grammar up to the optional `NSUB` line, followed by `tail`.
fn header_tokens(with_nsub: bool) -> (r: Vec<Token>)
    ensures
        r@ == main_tokens() + if with_nsub {
            nsub_tail()
        } else {
            end_tail()
        },
{
    let mut v = vec![
        Token::Word("HEADER"),
        Token::Space,
        Token::Word("UTC_START"),
        Token::Space,
        Token::NonSpace,
        Token::Space,
        Token::Word("FREQ"),
        Token::Space,
        Token::Number,
        Token::Space,
        Token::Word("Hz"),
        Token::Space,
        Token::Word("BW"),
        Token::Space,
        Token::Number,
        Token::Space,
        Token::Word("Hz"),
        Token::Space,
        Token::Word("LENGTH"),
        Token::Space,
        Token::Number,
        Token::Space,
        Token::Word("s"),
        Token::Space,
        Token::Word("NCHAN"),
        Token::Space,
        Token::Digits,
        Token::Space,
    ];
    if with_nsub {
        v.push(Token::Word("NSUB"));
        v.push(Token::Space);
        v.push(Token::Digits);
        v.push(Token::Space);
        v.push(Token::Word("END"));
    } else {
        v.push(Token::Word("END"));
    }
    assert(v@ =~= main_tokens() + if with_nsub {
        nsub_tail()
    } else {
        end_tail()
    });
    v
}

/// The leftmost match of the header grammar in `t`.
fn find_header(t: &Vec<char>) -> (r: Option<Vec<(usize, usize)>>)
    ensures
        r matches Some(v) ==> header_match(t@) == Some(spans_view(v@)),
        r matches Some(v) ==> v@.len() > 27,
        r matches Some(v) ==> forall|j: int| 0 <= j < v@.len() ==> #[trigger] v@[j].0 <= v@[j].1 <= t@.len(),
        r is None ==> header_match(t@) is None,
{
    let with_nsub = header_tokens(true);
    let without_nsub = header_tokens(false);
    let mut p: usize = 0;
    loop
        invariant
            p <= t@.len(),
            with_nsub@ == main_tokens() + nsub_tail(),
            without_nsub@ == main_tokens() + end_tail(),
            header_match(t@) == first_match_from(t@, p as int),
        decreases t@.len() + 1 - p,
    {
        match match_tokens(t, p, &with_nsub) {
            Some(v) => {
                return Some(v);
            },
            None => {},
        }
        match match_tokens(t, p, &without_nsub) {
            Some(v) => {
                return Some(v);
            },
            None => {},
        }
        if p == t.len() {
            assert(first_match_from(t@, p + 1) is None);
            return None;
        }
        p = p + 1;
    }
}


/// Parses a run of decimal digits as `str::parse::<usize>` does.
fn parse_usize_span(t: &Vec<char>, a: usize, b: usize) -> (r: Option<usize>)
    requires
        a <= b <= t@.len(),
    ensures
        r == parse_usize_digits(t@.subrange(a as int, b as int)),
{
    match digits_value_bounded(t, a, b, usize::MAX as u64) {
        Some(v) => Some(v as usize),
        None => None,
    }
}

/// The header fields of the decoded header text, as the leftmost match of the grammar gives
/// them.
pub fn parse_header_text(text: &str) -> (r: Result<HeaderFields, HeaderError>)
    ensures
        header_result_matches(text@, r),
{
    let t = chars_of(text);
    match find_header(&t) {
        None => Err(HeaderError::IncorrectFormat),
        Some(spans) => {
            let (ua, ub) = spans[4];
            let utc_start = text.substring_char(ua, ub).to_owned();
            let mut stamp = utc_start.clone();
            stamp.append("Z");
            match parse_rfc3339(stamp.as_str()) {
                None => Err(HeaderError::InvalidStartTime),
                Some((start_secs, start_nanos)) => {
                    let (na, nb) = spans[26];
                    assert(spans_view(spans@)[nchan_token()] == (na as int, nb as int));
                    let nchan = parse_usize_span(&t, na, nb);
                    let (fa, fb) = spans[8];
                    let (ba, bb) = spans[14];
                    let (la, lb) = spans[20];
                    Ok(
                        HeaderFields {
                            utc_start,
                            start_secs,
                            start_nanos,
                            freq: text.substring_char(fa, fb).to_owned(),
                            bw: text.substring_char(ba, bb).to_owned(),
                            length: text.substring_char(la, lb).to_owned(),
                            nchan,
                        },
                    )
                },
            }
        },
    }
}


/// Size in bytes of the header in front of every spectrum.
pub const HEADER_SIZE: usize = 256;

/// Decodes UTF-8.
///
/// Trusted: calls `std::str::from_utf8`, which is documented to succeed exactly on valid UTF-8
/// and to return the decoded text.
#[verifier::external_body]
fn str_from_utf8(bytes: &[u8]) -> (r: Option<&str>)
    ensures
        r is Some <==> vstd::utf8::valid_utf8(bytes@),
        r matches Some(s) ==> s@ == vstd::utf8::decode_utf8(bytes@),
{
    std::str::from_utf8(bytes).ok()
}

/// Whether `r` is the result of reading the header bytes `bytes`.
pub open spec fn header_bytes_result(bytes: Seq<u8>, r: Result<HeaderFields, HeaderError>) -> bool {
    if !vstd::utf8::valid_utf8(bytes) {
        r == Err::<HeaderFields, HeaderError>(HeaderError::InvalidUtf8)
    } else {
        header_result_matches(vstd::utf8::decode_utf8(bytes), r)
    }
}

/// Reads the fields of a header from its bytes. The NUL padding and surrounding whitespace need
/// no trimming: the grammar starts and ends with letters, so they never take part in a match.
pub fn parse_header(bytes: &[u8]) -> (r: Result<HeaderFields, HeaderError>)
    ensures
        header_bytes_result(bytes@, r),
{
    match str_from_utf8(bytes) {
        None => Err(HeaderError::InvalidUtf8),
        Some(text) => parse_header_text(text),
    }
}

/// Size in bytes of one spectrum block of a file with `nchan` channels: the header and one
/// 4-byte sample per channel.
pub open spec fn block_size_spec(nchan: nat) -> nat {
    HEADER_SIZE as nat + 4 * nchan
}

/// The number of whole spectrum blocks in a file of `file_size` bytes with `nchan` channels.
pub fn block_count(file_size: usize, nchan: usize) -> (r: usize)
    requires
        block_size_spec(nchan as nat) <= usize::MAX,
    ensures
        r == file_size as nat / block_size_spec(nchan as nat),
{
    file_size / (nchan * 4 + HEADER_SIZE)
}

/// The part of each spectrum that is read when only channels `start..end` of `total` are kept.
#[derive(Debug, Clone, Copy, PartialEq, Eq, Structural)]
pub struct ChannelWindow {
    /// Channels kept.
    pub nchan: usize,
    /// Bytes skipped before the kept channels of each spectrum.
    pub skip_before: usize,
    /// Bytes skipped after them.
    pub skip_after: usize,
}

/// The bytes to read and skip for the channels `start..end` of a spectrum of `total` channels;
/// an empty or reversed range keeps no channel.
pub fn channel_window(total: usize, start: usize, end: usize) -> (r: ChannelWindow)
    requires
        start <= total,
        end <= total,
        4 * total <= usize::MAX,
    ensures
        r.nchan == if start <= end {
            end - start
        } else {
            0
        },
        r.skip_before == 4 * start,
        r.skip_after == 4 * (total - end),
        r.skip_before + 4 * r.nchan + r.skip_after == 4 * total || end < start,
{
    ChannelWindow {
        nchan: end.saturating_sub(start),
        skip_before: start * 4,
        skip_after: (total - end) * 4,
    }
}

} // verus!
