//! Writing the header of a strf spectrum block, and what reading it back gives.
//!
//! A header is written as
//!
//! ```text
//! HEADER
//! UTC_START    <start>
//! FREQ         <freq> Hz
//! BW           <bw> Hz
//! LENGTH       <length> s
//! NCHAN        <nchan>
//! NSUB         <nsub>
//! END
//! ```
//!
//! padded with spaces to 256 characters. The floating-point fields arrive as their decimal text.
use vstd::prelude::*;
use crate::text::{is_ws, ascii_digits_value};
use crate::strf_header::{
    Token, in_class, run_end, token_end, match_from, main_tokens, nsub_tail, header_match,
    match_at, first_match_from, header_result_matches, span_text, parse_usize_digits, HeaderFields,
    HeaderError, rfc3339_instant,
};

verus! {

/// The ASCII digit for `d < 10`.
pub open spec fn digit_char(d: nat) -> char {
    (48 + d) as char
}

/// The decimal digits of `n`, without leading zeros (`"0"` for zero).
pub open spec fn decimal(n: nat) -> Seq<char>
    decreases n,
{
    if n < 10 {
        seq![digit_char(n)]
    } else {
        decimal(n / 10).push(digit_char(n % 10))
    }
}

/// The decimal text of `n` is a non-empty run of ASCII digits whose value is `n`.
pub proof fn lemma_decimal_value(n: nat)
    ensures
        decimal(n).len() > 0,
        forall|i: int| 0 <= i < decimal(n).len() ==> '0' <= #[trigger] decimal(n)[i] <= '9',
        ascii_digits_value(decimal(n)) == Some(n),
    decreases n,
{
    if n >= 10 {
        lemma_decimal_value(n / 10);
        let s = decimal(n);
        assert(s.drop_last() =~= decimal(n / 10));
    }
}

/// The one-character text of the digit `d`.
fn digit_str(d: usize) -> (r: &'static str)
    requires
        d < 10,
    ensures
        r@ == seq![digit_char(d as nat)],
{
    proof {
        reveal_strlit("0");
        reveal_strlit("1");
        reveal_strlit("2");
        reveal_strlit("3");
        reveal_strlit("4");
        reveal_strlit("5");
        reveal_strlit("6");
        reveal_strlit("7");
        reveal_strlit("8");
        reveal_strlit("9");
    }
    if d == 0 {
        "0"
    } else if d == 1 {
        "1"
    } else if d == 2 {
        "2"
    } else if d == 3 {
        "3"
    } else if d == 4 {
        "4"
    } else if d == 5 {
        "5"
    } else if d == 6 {
        "6"
    } else if d == 7 {
        "7"
    } else if d == 8 {
        "8"
    } else {
        "9"
    }
}

/// Appends the decimal text of `n`.
pub(crate) fn append_decimal(out: &mut String, n: usize)
    ensures
        final(out)@ == old(out)@ + decimal(n as nat),
    decreases n,
{
    if n >= 10 {
        append_decimal(out, n / 10);
    }
    let ghost before = out@;
    out.append(digit_str(n % 10));
    proof {
        if n >= 10 {
            assert(out@ =~= old(out)@ + decimal(n as nat));
        } else {
            assert(out@ =~= old(out)@ + decimal(n as nat));
        }
    }
}

/// The decimal text of `n`, as `n.to_string()` gives it.
pub fn decimal_string(n: usize) -> (r: String)
    ensures
        r@ == decimal(n as nat),
{
    let mut out = String::new();
    append_decimal(&mut out, n);
    assert(out@ =~= decimal(n as nat));
    out
}

/// The segments laid end to end.
pub open spec fn flat(segs: Seq<Seq<char>>) -> Seq<char>
    decreases segs.len(),
{
    if segs.len() == 0 {
        seq![]
    } else {
        flat(segs.drop_last()) + segs.last()
    }
}

/// Where segment `j` starts in `flat(segs)`.
pub open spec fn seg_start(segs: Seq<Seq<char>>, j: int) -> int {
    flat(segs.take(j)).len() as int
}

proof fn lemma_flat_take(segs: Seq<Seq<char>>, j: int)
    requires
        0 <= j < segs.len(),
    ensures
        flat(segs.take(j + 1)) == flat(segs.take(j)) + segs[j],
{
    assert(segs.take(j + 1).drop_last() =~= segs.take(j));
}

/// Segment `j` stands in `flat(segs)` from `seg_start(segs, j)` on, and the next one starts
/// right after it.
proof fn lemma_flat_segment(segs: Seq<Seq<char>>, j: int)
    requires
        0 <= j < segs.len(),
    ensures
        seg_start(segs, j + 1) == seg_start(segs, j) + segs[j].len(),
        seg_start(segs, j + 1) <= flat(segs).len(),
        forall|x: int|
            0 <= x < segs[j].len() ==> flat(segs)[seg_start(segs, j) + x] == #[trigger] segs[j][x],
    decreases segs.len(),
{
    lemma_flat_take(segs, j);
    let n = segs.len();
    if j < n - 1 {
        let d = segs.drop_last();
        lemma_flat_segment(d, j);
        assert(d.take(j) =~= segs.take(j));
        assert(d.take(j + 1) =~= segs.take(j + 1));
        assert(flat(segs) == flat(d) + segs.last());
    } else {
        assert(segs.take(j + 1) =~= segs);
        assert(segs.take(j) =~= segs.drop_last());
    }
}

/// The segments of a header, one per token of the grammar with the `NSUB` line.
pub open spec fn header_segments(
    start: Seq<char>,
    freq: Seq<char>,
    bw: Seq<char>,
    length: Seq<char>,
    nchan: nat,
    nsub: nat,
) -> Seq<Seq<char>> {
    seq![
        "HEADER"@,
        "\n"@,
        "UTC_START"@,
        "    "@,
        start,
        "\n"@,
        "FREQ"@,
        "         "@,
        freq,
        " "@,
        "Hz"@,
        "\n"@,
        "BW"@,
        "           "@,
        bw,
        " "@,
        "Hz"@,
        "\n"@,
        "LENGTH"@,
        "       "@,
        length,
        " "@,
        "s"@,
        "\n"@,
        "NCHAN"@,
        "        "@,
        decimal(nchan),
        "\n"@,
        "NSUB"@,
        "         "@,
        decimal(nsub),
        "\n"@,
        "END"@,
    ]
}

/// The header text before padding: the segments and a final line break.
pub open spec fn header_body(
    start: Seq<char>,
    freq: Seq<char>,
    bw: Seq<char>,
    length: Seq<char>,
    nchan: nat,
    nsub: nat,
) -> Seq<char> {
    flat(header_segments(start, freq, bw, length, nchan, nsub)) + "\n"@
}

/// `n` spaces.
pub open spec fn spaces(n: nat) -> Seq<char> {
    Seq::new(n, |i: int| ' ')
}

/// The header text: the body, padded with spaces to 256 characters if it is shorter.
pub open spec fn header_text_spec(
    start: Seq<char>,
    freq: Seq<char>,
    bw: Seq<char>,
    length: Seq<char>,
    nchan: nat,
    nsub: nat,
) -> Seq<char> {
    let b = header_body(start, freq, bw, length, nchan, nsub);
    if b.len() < 256 {
        b + spaces((256 - b.len()) as nat)
    } else {
        b
    }
}

/// The header text of a spectrum block: start time, centre frequency, bandwidth and length as
/// written, the channel count and the number of spectra in the file.
pub fn format_header(
    start: &str,
    freq: &str,
    bw: &str,
    length: &str,
    nchan: usize,
    nsub: usize,
) -> (r: String)
    ensures
        r@ == header_text_spec(start@, freq@, bw@, length@, nchan as nat, nsub as nat),
{
    let nchan_text = decimal_string(nchan);
    let nsub_text = decimal_string(nsub);
    let pieces: Vec<&str> = vec![
        "HEADER",
        "\n",
        "UTC_START",
        "    ",
        start,
        "\n",
        "FREQ",
        "         ",
        freq,
        " ",
        "Hz",
        "\n",
        "BW",
        "           ",
        bw,
        " ",
        "Hz",
        "\n",
        "LENGTH",
        "       ",
        length,
        " ",
        "s",
        "\n",
        "NCHAN",
        "        ",
        nchan_text.as_str(),
        "\n",
        "NSUB",
        "         ",
        nsub_text.as_str(),
        "\n",
        "END",
    ];
    let ghost segs = header_segments(start@, freq@, bw@, length@, nchan as nat, nsub as nat);
    assert(pieces@.map_values(|p: &str| p@) =~= segs);
    let mut out = String::new();
    let mut i: usize = 0;
    while i < pieces.len()
        invariant
            i <= pieces@.len(),
            pieces@.map_values(|p: &str| p@) == segs,
            out@ == flat(segs.take(i as int)),
        decreases pieces@.len() - i,
    {
        proof {
            lemma_flat_take(segs, i as int);
            assert(pieces@.map_values(|p: &str| p@)[i as int] == pieces@[i as int]@);
        }
        out.append(pieces[i]);
        i = i + 1;
    }
    assert(segs.take(segs.len() as int) =~= segs);
    out.append("\n");
    let n = out.as_str().unicode_len();
    if n < 256 {
        let ghost body = out@;
        let mut k: usize = n;
        while k < 256
            invariant
                n <= k <= 256,
                n == body.len(),
                out@ == body + spaces((k - n) as nat),
            decreases 256 - k,
        {
            out.append(" ");
            proof {
                reveal_strlit(" ");
                assert(out@ =~= body + spaces((k + 1 - n) as nat));
            }
            k = k + 1;
        }
    }
    out
}

/// A start time as the header grammar reads it: non-empty, without whitespace.
pub open spec fn start_text(s: Seq<char>) -> bool {
    &&& s.len() > 0
    &&& forall|i: int| 0 <= i < s.len() ==> !is_ws(#[trigger] s[i])
}

/// A number as the header grammar reads it: non-empty, of ASCII digits and dots.
pub open spec fn number_text(s: Seq<char>) -> bool {
    &&& s.len() > 0
    &&& forall|i: int| 0 <= i < s.len() ==> ('0' <= #[trigger] s[i] <= '9' || s[i] == '.')
}

/// The first character after segment `k`: that of the next segment, or the final line break.
spec fn next_first(segs: Seq<Seq<char>>, k: int) -> char {
    if k + 1 < segs.len() {
        segs[k + 1][0]
    } else {
        '\n'
    }
}

/// Whether token `tok` matches exactly the segment `seg` when `next` follows it.
spec fn seg_fits(tok: Token, seg: Seq<char>, next: char) -> bool {
    match tok {
        Token::Word(w) => seg == w@,
        _ => {
            &&& seg.len() > 0
            &&& forall|x: int| 0 <= x < seg.len() ==> in_class(tok, #[trigger] seg[x])
            &&& !in_class(tok, next)
        },
    }
}

proof fn lemma_run_end(t: Seq<char>, i: int, j: int, tok: Token)
    requires
        0 <= i <= j <= t.len(),
        forall|x: int| i <= x < j ==> in_class(tok, #[trigger] t[x]),
        j == t.len() || !in_class(tok, t[j]),
    ensures
        run_end(t, i, tok) == j,
    decreases j - i,
{
    if i < j {
        lemma_run_end(t, i + 1, j, tok);
    }
}

proof fn lemma_match_chain(t: Seq<char>, toks: Seq<Token>, o: Seq<int>, k: int)
    requires
        o.len() == toks.len() + 1,
        0 <= k <= toks.len(),
        forall|j: int| k <= j < toks.len() ==> token_end(t, o[j], #[trigger] toks[j]) == Some(o[j + 1]),
    ensures
        match_from(t, o[k], toks, k) == Some(
            Seq::new((toks.len() - k) as nat, |i: int| (o[k + i], o[k + i + 1])),
        ),
    decreases toks.len() - k,
{
    if k < toks.len() {
        lemma_match_chain(t, toks, o, k + 1);
        let rest = Seq::new((toks.len() - k - 1) as nat, |i: int| (o[k + 1 + i], o[k + 1 + i + 1]));
        assert(seq![(o[k], o[k + 1])] + rest =~= Seq::new(
            (toks.len() - k) as nat,
            |i: int| (o[k + i], o[k + i + 1]),
        ));
    } else {
        assert(Seq::<(int, int)>::empty() =~= Seq::new(
            (toks.len() - k) as nat,
            |i: int| (o[k + i], o[k + i + 1]),
        ));
    }
}

/// A token that fits its segment matches it exactly, in the text made of the segments followed
/// by a line break.
proof fn lemma_segment_token(
    t: Seq<char>,
    segs: Seq<Seq<char>>,
    rest: Seq<char>,
    toks: Seq<Token>,
    k: int,
)
    requires
        t == flat(segs) + rest,
        rest.len() > 0,
        rest[0] == '\n',
        0 <= k < segs.len(),
        toks.len() == segs.len(),
        seg_fits(toks[k], segs[k], next_first(segs, k)),
        k + 1 < segs.len() ==> segs[k + 1].len() > 0,
    ensures
        token_end(t, seg_start(segs, k), toks[k]) == Some(seg_start(segs, k + 1)),
        t.subrange(seg_start(segs, k), seg_start(segs, k + 1)) == segs[k],
{
    lemma_flat_segment(segs, k);
    let a = seg_start(segs, k);
    let b = seg_start(segs, k + 1);
    assert(0 <= a);
    assert forall|x: int| 0 <= x < segs[k].len() implies t[a + x] == #[trigger] segs[k][x] by {
        assert(flat(segs)[a + x] == segs[k][x]);
    }
    assert(t.subrange(a, b) =~= segs[k]);
    match toks[k] {
        Token::Word(w) => {},
        _ => {
            if k + 1 < segs.len() {
                lemma_flat_segment(segs, k + 1);
                assert(flat(segs)[b + 0] == segs[k + 1][0]);
                assert(t[b] == segs[k + 1][0]);
            } else {
                assert(segs.take(k + 1) =~= segs);
                assert(t[b] == rest[0]);
            }
            assert forall|x: int| a <= x < b implies in_class(toks[k], #[trigger] t[x]) by {
                assert(t[a + (x - a)] == segs[k][x - a]);
            }
            lemma_run_end(t, a, b, toks[k]);
        },
    }
}

/// Reading back a written header gives the fields it was written with: when the start time has
/// no whitespace and the frequency, bandwidth and length are numbers of digits and dots, the
/// header text of those fields reads as exactly those fields, with the instant the start time
/// stands for; a start time that is no timestamp is reported as such.
pub proof fn lemma_header_round_trip(
    start: Seq<char>,
    freq: Seq<char>,
    bw: Seq<char>,
    length: Seq<char>,
    nchan: usize,
    nsub: usize,
    r: Result<HeaderFields, HeaderError>,
)
    requires
        start_text(start),
        number_text(freq),
        number_text(bw),
        number_text(length),
        header_result_matches(
            header_text_spec(start, freq, bw, length, nchan as nat, nsub as nat),
            r,
        ),
    ensures
        rfc3339_instant(start + "Z"@) is None ==> r == Err::<HeaderFields, HeaderError>(
            HeaderError::InvalidStartTime,
        ),
        rfc3339_instant(start + "Z"@) matches Some(instant) ==> r matches Ok(f) && f.utc_start@
            == start && f.start_secs == instant.0 && f.start_nanos == instant.1 && f.freq@ == freq
            && f.bw@ == bw && f.length@ == length && f.nchan == Some(nchan),
{
    let segs = header_segments(start, freq, bw, length, nchan as nat, nsub as nat);
    let t = header_text_spec(start, freq, bw, length, nchan as nat, nsub as nat);
    let rest = t.subrange(flat(segs).len() as int, t.len() as int);
    reveal_strlit("HEADER");
    reveal_strlit("\n");
    reveal_strlit("UTC_START");
    reveal_strlit("    ");
    reveal_strlit("FREQ");
    reveal_strlit("         ");
    reveal_strlit(" ");
    reveal_strlit("Hz");
    reveal_strlit("BW");
    reveal_strlit("           ");
    reveal_strlit("LENGTH");
    reveal_strlit("       ");
    reveal_strlit("s");
    reveal_strlit("NCHAN");
    reveal_strlit("        ");
    reveal_strlit("NSUB");
    reveal_strlit("END");
    assert(t =~= flat(segs) + rest);
    assert(rest[0] == '\n');
    lemma_decimal_value(nchan as nat);
    lemma_decimal_value(nsub as nat);
    let toks = main_tokens() + nsub_tail();
    assert(toks.len() == 33);
    assert(segs.len() == 33);
    assert forall|k: int| 0 <= k < 33 implies seg_fits(toks[k], segs[k], next_first(segs, k)) && (k
        + 1 < segs.len() ==> segs[k + 1].len() > 0) by {
        if k == 0 {
        }
        else if k == 1 {
        }
        else if k == 2 {
        }
        else if k == 3 {
        }
        else if k == 4 {
        }
        else if k == 5 {
        }
        else if k == 6 {
        }
        else if k == 7 {
        }
        else if k == 8 {
        }
        else if k == 9 {
        }
        else if k == 10 {
        }
        else if k == 11 {
        }
        else if k == 12 {
        }
        else if k == 13 {
        }
        else if k == 14 {
        }
        else if k == 15 {
        }
        else if k == 16 {
        }
        else if k == 17 {
        }
        else if k == 18 {
        }
        else if k == 19 {
        }
        else if k == 20 {
        }
        else if k == 21 {
        }
        else if k == 22 {
        }
        else if k == 23 {
        }
        else if k == 24 {
        }
        else if k == 25 {
        }
        else if k == 26 {
        }
        else if k == 27 {
        }
        else if k == 28 {
        }
        else if k == 29 {
        }
        else if k == 30 {
        }
        else if k == 31 {
        }
        else if k == 32 {
        }
    }
    assert forall|k: int| 0 <= k < 33 implies token_end(t, seg_start(segs, k), #[trigger] toks[k])
        == Some(seg_start(segs, k + 1)) && t.subrange(seg_start(segs, k), seg_start(segs, k + 1))
        == segs[k] by {
        lemma_segment_token(t, segs, rest, toks, k);
    }
    let o = Seq::new(34, |j: int| seg_start(segs, j));
    assert forall|j: int| 0 <= j < toks.len() implies token_end(t, o[j], #[trigger] toks[j]) == Some(
        o[j + 1],
    ) by {
        assert(token_end(t, seg_start(segs, j), toks[j]) == Some(seg_start(segs, j + 1)));
    }
    lemma_match_chain(t, toks, o, 0);
    assert(segs.take(0) =~= Seq::<Seq<char>>::empty());
    assert(o[0] == 0);
    let spans = Seq::new(33, |i: int| (o[i], o[i + 1]));
    assert(match_at(t, 0) == Some(spans));
    assert(header_match(t) == Some(spans));
    assert(t.subrange(seg_start(segs, 4), seg_start(segs, 5)) == segs[4]) by {
        assert(token_end(t, seg_start(segs, 4), toks[4]) == Some(seg_start(segs, 5)));
    }
    assert(span_text(t, spans[4]) == start);
    assert(t.subrange(seg_start(segs, 8), seg_start(segs, 9)) == segs[8]) by {
        assert(token_end(t, seg_start(segs, 8), toks[8]) == Some(seg_start(segs, 9)));
    }
    assert(span_text(t, spans[8]) == freq);
    assert(t.subrange(seg_start(segs, 14), seg_start(segs, 15)) == segs[14]) by {
        assert(token_end(t, seg_start(segs, 14), toks[14]) == Some(seg_start(segs, 15)));
    }
    assert(span_text(t, spans[14]) == bw);
    assert(t.subrange(seg_start(segs, 20), seg_start(segs, 21)) == segs[20]) by {
        assert(token_end(t, seg_start(segs, 20), toks[20]) == Some(seg_start(segs, 21)));
    }
    assert(span_text(t, spans[20]) == length);
    assert(t.subrange(seg_start(segs, 26), seg_start(segs, 27)) == segs[26]) by {
        assert(token_end(t, seg_start(segs, 26), toks[26]) == Some(seg_start(segs, 27)));
    }
    assert(span_text(t, spans[26]) == decimal(nchan as nat));
    assert(parse_usize_digits(decimal(nchan as nat)) == Some(nchan));
}

/// The RFC 3339 text, to milliseconds and with a `Z` zone, of the instant `secs` seconds and
/// `nanos` nanoseconds after the Unix epoch, if chrono can represent that instant.
pub uninterp spec fn rfc3339_millis_text(secs: i64, nanos: u32) -> Option<Seq<char>>;

/// Writes an instant as RFC 3339 text.
///
/// Trusted: calls `chrono::DateTime::from_timestamp` and, on success, `to_rfc3339_opts` with
/// millisecond precision and a `Z` zone. The contract names the result
/// `rfc3339_millis_text(secs, nanos)`; chrono's range and its date formatting are not stated.
#[verifier::external_body]
fn rfc3339_millis(secs: i64, nanos: u32) -> (r: Option<String>)
    ensures
        match (r, rfc3339_millis_text(secs, nanos)) {
            (Some(s), Some(t)) => s@ == t,
            (None, None) => true,
            _ => false,
        },
{
    chrono::DateTime::from_timestamp(secs, nanos).map(
        |t| t.to_rfc3339_opts(chrono::SecondsFormat::Millis, true),
    )
}

/// The start-time field of a header from the RFC 3339 text of the instant: the text without its
/// last character, the `Z` zone, since the header's start time carries no zone.
pub fn header_start_from_rfc3339(text: &str) -> (r: String)
    ensures
        r@ == if text@.len() > 0 {
            text@.drop_last()
        } else {
            text@
        },
{
    let n = text.unicode_len();
    if n > 0 {
        let r = text.substring_char(0, n - 1).to_owned();
        assert(r@ =~= text@.drop_last());
        r
    } else {
        text.to_owned()
    }
}

/// The start-time field of a header for the instant `secs` seconds and `nanos` nanoseconds after
/// the Unix epoch, or `None` if chrono cannot represent it.
pub fn header_start_text(secs: i64, nanos: u32) -> (r: Option<String>)
    ensures
        match (r, rfc3339_millis_text(secs, nanos)) {
            (Some(s), Some(t)) => s@ == if t.len() > 0 {
                t.drop_last()
            } else {
                t
            },
            (None, None) => true,
            _ => false,
        },
{
    match rfc3339_millis(secs, nanos) {
        Some(text) => Some(header_start_from_rfc3339(text.as_str())),
        None => None,
    }
}

} // verus!
