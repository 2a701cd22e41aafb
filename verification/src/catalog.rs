//! Lines of a strf-style `frequencies.txt`: a NORAD catalog id and a transmitter frequency in
//! MHz per line. Blank lines and lines starting with `#` are ignored.
use vstd::prelude::*;
use crate::text::{
    ascii_digits_value, chars_of, digits_value_bounded, trim, trim_bounds, word_spans, words,
};

verus! {

/// What `str::parse::<u64>` gives: an optional `+` followed by ASCII digits whose value fits.
pub open spec fn parse_u64_spec(s: Seq<char>) -> Option<u64> {
    let digits = if s.len() > 0 && s[0] == '+' {
        s.subrange(1, s.len() as int)
    } else {
        s
    };
    match ascii_digits_value(digits) {
        Some(v) if v <= u64::MAX => Some(v as u64),
        _ => None,
    }
}

/// Why a line of the frequencies file was refused.
#[derive(Debug, Clone, PartialEq, Eq, Structural)]
pub enum FrequencyLineError {
    /// The line does not have exactly two columns; holds the number it has.
    ColumnCount(usize),
    /// The first column is not a catalog id.
    InvalidNoradId,
}

/// A catalog id and the text of its frequency column.
#[derive(Debug, Clone, PartialEq, Eq)]
pub struct FrequencyEntry {
    pub norad_id: u64,
    pub freq_mhz: String,
}

/// Whether `r` is the outcome for `line`: `Ok(None)` for a blank or comment line, the id and the
/// frequency text for a two-column line with a valid id, and the error otherwise.
pub open spec fn frequency_line_result(line: Seq<char>, r: Result<Option<FrequencyEntry>, FrequencyLineError>) -> bool {
    let t = trim(line);
    if t.len() == 0 || t[0] == '#' {
        r == Ok::<Option<FrequencyEntry>, FrequencyLineError>(None)
    } else if words(t).len() != 2 {
        r == Err::<Option<FrequencyEntry>, FrequencyLineError>(
            FrequencyLineError::ColumnCount(words(t).len() as usize),
        )
    } else {
        match parse_u64_spec(words(t)[0]) {
            None => r == Err::<Option<FrequencyEntry>, FrequencyLineError>(
                FrequencyLineError::InvalidNoradId,
            ),
            Some(id) => match r {
                Ok(Some(e)) => e.norad_id == id && e.freq_mhz@ == words(t)[1],
                _ => false,
            },
        }
    }
}

/// The characters `s[a..b]`.
fn copy_span(s: &Vec<char>, a: usize, b: usize) -> (r: Vec<char>)
    requires
        a <= b <= s@.len(),
    ensures
        r@ == s@.subrange(a as int, b as int),
{
    let mut out: Vec<char> = Vec::new();
    let mut i = a;
    while i < b
        invariant
            a <= i <= b <= s@.len(),
            out@ == s@.subrange(a as int, i as int),
        decreases b - i,
    {
        out.push(s[i]);
        i = i + 1;
        assert(out@ =~= s@.subrange(a as int, i as int));
    }
    out
}

/// Parses `s[a..b]` as `str::parse::<u64>` does.
fn parse_u64_span(s: &Vec<char>, a: usize, b: usize) -> (r: Option<u64>)
    requires
        a <= b <= s@.len(),
    ensures
        r == parse_u64_spec(s@.subrange(a as int, b as int)),
{
    if a < b && s[a] == '+' {
        assert(s@.subrange(a as int, b as int).subrange(1, (b - a) as int) =~= s@.subrange(
            a + 1,
            b as int,
        ));
        digits_value_bounded(s, a + 1, b, u64::MAX)
    } else {
        digits_value_bounded(s, a, b, u64::MAX)
    }
}

/// Reads one line of the frequencies file. The frequency column is returned as text; it is in
/// MHz.
pub fn parse_frequency_line(line: &str) -> (r: Result<Option<FrequencyEntry>, FrequencyLineError>)
    ensures
        frequency_line_result(line@, r),
{
    let all = chars_of(line);
    let (a, b) = trim_bounds(&all);
    let t = copy_span(&all, a, b);
    if t.len() == 0 || t[0] == '#' {
        return Ok(None);
    }
    let spans = word_spans(&t);
    if spans.len() != 2 {
        return Err(FrequencyLineError::ColumnCount(spans.len()));
    }
    let (ia, ib) = spans[0];
    let (fa, fb) = spans[1];
    match parse_u64_span(&t, ia, ib) {
        None => Err(FrequencyLineError::InvalidNoradId),
        Some(id) => {
            assert(t@.subrange(fa as int, fb as int) =~= line@.subrange(a + fa, a + fb));
            let freq_mhz = line.substring_char(a + fa, a + fb).to_owned();
            Ok(Some(FrequencyEntry { norad_id: id, freq_mhz }))
        },
    }
}

} // verus!
