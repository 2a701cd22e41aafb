//! Character-level helpers shared by the text formats: Unicode whitespace, trimming and
//! whitespace-separated tokens.
use vstd::prelude::*;

verus! {

/// Unicode `White_Space`, the set that `char::is_whitespace`, `str::trim`,
/// `str::split_whitespace` and the regex class `\s` use.
pub open spec fn is_ws(c: char) -> bool {
    let u = c as u32;
    ||| 0x09 <= u <= 0x0d
    ||| u == 0x20
    ||| u == 0x85
    ||| u == 0xa0
    ||| u == 0x1680
    ||| 0x2000 <= u <= 0x200a
    ||| u == 0x2028
    ||| u == 0x2029
    ||| u == 0x202f
    ||| u == 0x205f
    ||| u == 0x3000
}

/// Whether `c` is Unicode whitespace.
pub fn is_whitespace(c: char) -> (r: bool)
    ensures
        r == is_ws(c),
{
    let u = c as u32;
    (0x09 <= u && u <= 0x0d) || u == 0x20 || u == 0x85 || u == 0xa0 || u == 0x1680 || (0x2000
        <= u && u <= 0x200a) || u == 0x2028 || u == 0x2029 || u == 0x202f || u == 0x205f || u
        == 0x3000
}

/// The characters of `s`.
pub fn chars_of(s: &str) -> (v: Vec<char>)
    ensures
        v@ == s@,
{
    let mut v: Vec<char> = Vec::new();
    for c in it: s.chars()
        invariant
            v@ == it.seq().take(it.index() as int),
    {
        v.push(c);
    }
    v
}


/// The first position at or after `i` that is not whitespace (or the end).
pub open spec fn skip_ws(s: Seq<char>, i: int) -> int
    decreases s.len() - i,
{
    if 0 <= i < s.len() && is_ws(s[i]) {
        skip_ws(s, i + 1)
    } else {
        i
    }
}

/// The first position at or after `i` that is whitespace (or the end).
pub open spec fn skip_non_ws(s: Seq<char>, i: int) -> int
    decreases s.len() - i,
{
    if 0 <= i < s.len() && !is_ws(s[i]) {
        skip_non_ws(s, i + 1)
    } else {
        i
    }
}

/// The whitespace-separated words of `s[i..]`, as `str::split_whitespace` yields them.
pub open spec fn words_from(s: Seq<char>, i: int) -> Seq<Seq<char>>
    decreases s.len() - i,
{
    let j = skip_ws(s, i);
    if j < 0 || j >= s.len() {
        seq![]
    } else {
        let k = skip_non_ws(s, j);
        proof {
            lemma_skip_ws_ge(s, i);
            lemma_skip_non_ws_le(s, j);
        }
        if k <= j {
            seq![]
        } else {
            seq![s.subrange(j, k)] + words_from(s, k)
        }
    }
}

/// The whitespace-separated words of `s`.
pub open spec fn words(s: Seq<char>) -> Seq<Seq<char>> {
    words_from(s, 0)
}

/// The end of the last non-whitespace character before `j` (or `i` if there is none).
pub open spec fn trim_end_pos(s: Seq<char>, i: int, j: int) -> int
    decreases j - i,
{
    if i < j && is_ws(s[j - 1]) {
        trim_end_pos(s, i, j - 1)
    } else {
        j
    }
}

/// `s` without leading and trailing whitespace, as `str::trim` gives it.
pub open spec fn trim(s: Seq<char>) -> Seq<char> {
    let a = skip_ws(s, 0);
    s.subrange(a, trim_end_pos(s, a, s.len() as int))
}

pub proof fn lemma_skip_ws_ge(s: Seq<char>, i: int)
    ensures
        skip_ws(s, i) >= i,
        0 <= skip_ws(s, i) < s.len() ==> !is_ws(s[skip_ws(s, i)]),
    decreases s.len() - i,
{
    if 0 <= i < s.len() && is_ws(s[i]) {
        lemma_skip_ws_ge(s, i + 1);
    }
}

pub proof fn lemma_skip_non_ws_le(s: Seq<char>, i: int)
    requires
        0 <= i <= s.len(),
    ensures
        i <= skip_non_ws(s, i) <= s.len(),
    decreases s.len() - i,
{
    if i < s.len() && !is_ws(s[i]) {
        lemma_skip_non_ws_le(s, i + 1);
    }
}

pub proof fn lemma_skip_ws_bounds(s: Seq<char>, i: int)
    requires
        0 <= i <= s.len(),
    ensures
        i <= skip_ws(s, i) <= s.len(),
    decreases s.len() - i,
{
    if i < s.len() && is_ws(s[i]) {
        lemma_skip_ws_bounds(s, i + 1);
    }
}

pub proof fn lemma_trim_end_bounds(s: Seq<char>, i: int, j: int)
    requires
        0 <= i <= j <= s.len(),
    ensures
        i <= trim_end_pos(s, i, j) <= j,
    decreases j - i,
{
    if i < j && is_ws(s[j - 1]) {
        lemma_trim_end_bounds(s, i, j - 1);
    }
}

/// The first position at or after `i` that is not whitespace (or the end).
pub fn skip_ws_exec(s: &Vec<char>, i: usize) -> (r: usize)
    requires
        i <= s@.len(),
    ensures
        r == skip_ws(s@, i as int),
        i <= r <= s@.len(),
{
    let mut j = i;
    while j < s.len() && is_whitespace(s[j])
        invariant
            i <= j <= s@.len(),
            skip_ws(s@, j as int) == skip_ws(s@, i as int),
        decreases s@.len() - j,
    {
        j = j + 1;
    }
    j
}

/// The first position at or after `i` that is whitespace (or the end).
pub fn skip_non_ws_exec(s: &Vec<char>, i: usize) -> (r: usize)
    requires
        i <= s@.len(),
    ensures
        r == skip_non_ws(s@, i as int),
        i <= r <= s@.len(),
{
    let mut j = i;
    while j < s.len() && !is_whitespace(s[j])
        invariant
            i <= j <= s@.len(),
            skip_non_ws(s@, j as int) == skip_non_ws(s@, i as int),
        decreases s@.len() - j,
    {
        j = j + 1;
    }
    j
}

/// The bounds of `trim(s)` within `s`.
pub fn trim_bounds(s: &Vec<char>) -> (r: (usize, usize))
    ensures
        r.0 <= r.1 <= s@.len(),
        s@.subrange(r.0 as int, r.1 as int) == trim(s@),
{
    let a = skip_ws_exec(s, 0);
    let mut b = s.len();
    while a < b && is_whitespace(s[b - 1])
        invariant
            a <= b <= s@.len(),
            a == skip_ws(s@, 0),
            trim_end_pos(s@, a as int, b as int) == trim_end_pos(s@, a as int, s@.len() as int),
        decreases b,
    {
        b = b - 1;
    }
    (a, b)
}

/// The spans of the whitespace-separated words of `s`.
pub fn word_spans(s: &Vec<char>) -> (r: Vec<(usize, usize)>)
    ensures
        r@.len() == words(s@).len(),
        forall|i: int|
            0 <= i < r@.len() ==> #[trigger] r@[i].0 <= r@[i].1 <= s@.len() && s@.subrange(
                r@[i].0 as int,
                r@[i].1 as int,
            ) == words(s@)[i],
{
    let mut out: Vec<(usize, usize)> = Vec::new();
    let mut pos: usize = 0;
    loop
        invariant
            pos <= s@.len(),
            words(s@) == out@.map_values(|p: (usize, usize)| s@.subrange(p.0 as int, p.1 as int))
                + words_from(s@, pos as int),
            forall|i: int| 0 <= i < out@.len() ==> #[trigger] out@[i].0 <= out@[i].1 <= s@.len(),
        decreases s@.len() - pos,
    {
        let j = skip_ws_exec(s, pos);
        if j >= s.len() {
            proof {
                let f = |p: (usize, usize)| s@.subrange(p.0 as int, p.1 as int);
                assert(words_from(s@, pos as int) =~= seq![]);
                assert(words(s@) =~= out@.map_values(f));
                assert forall|i: int| 0 <= i < out@.len() implies #[trigger] s@.subrange(
                    out@[i].0 as int,
                    out@[i].1 as int,
                ) == words(s@)[i] by {
                    assert(words(s@)[i] == out@.map_values(f)[i]);
                }
            }
            return out;
        }
        let k = skip_non_ws_exec(s, j);
        proof {
            assert(k > j) by {
                lemma_skip_ws_ge(s@, pos as int);
                lemma_skip_non_ws_le(s@, j + 1);
            }
            let old = out@;
            let f = |p: (usize, usize)| s@.subrange(p.0 as int, p.1 as int);
            assert(old.push((j, k)).map_values(f) =~= old.map_values(f) + seq![s@.subrange(j as int, k as int)]);
            assert(words_from(s@, pos as int) == seq![s@.subrange(j as int, k as int)] + words_from(s@, k as int));
        }
        out.push((j, k));
        pos = k;
    }
}

/// Value of a string of ASCII digits, if it is one.
pub open spec fn ascii_digits_value(s: Seq<char>) -> Option<nat>
    decreases s.len(),
{
    if s.len() == 0 {
        None
    } else {
        let last = s.last();
        if !('0' <= last <= '9') {
            None
        } else {
            let d = (last as u32 - '0' as u32) as nat;
            if s.len() == 1 {
                Some(d)
            } else {
                match ascii_digits_value(s.drop_last()) {
                    None => None,
                    Some(v) => Some(10 * v + d),
                }
            }
        }
    }
}

pub proof fn lemma_digits_prefix(s: Seq<char>, k: int)
    requires
        1 <= k <= s.len(),
        ascii_digits_value(s) is Some,
    ensures
        ascii_digits_value(s.take(k)) is Some,
        ascii_digits_value(s.take(k))->0 <= ascii_digits_value(s)->0,
    decreases s.len(),
{
    if k == s.len() {
        assert(s.take(k) =~= s);
    } else {
        assert(s.drop_last().take(k) =~= s.take(k));
        lemma_digits_prefix(s.drop_last(), k);
    }
}

/// The value of the ASCII digits `t[a..b]` if it is at most `max`.
pub fn digits_value_bounded(t: &Vec<char>, a: usize, b: usize, max: u64) -> (r: Option<u64>)
    requires
        a <= b <= t@.len(),
    ensures
        r == match ascii_digits_value(t@.subrange(a as int, b as int)) {
            Some(v) if v <= max => Some(v as u64),
            _ => None::<u64>,
        },
{
    let ghost s = t@.subrange(a as int, b as int);
    if a == b {
        return None;
    }
    let mut v: u64 = 0;
    let mut k: usize = a;
    while k < b
        invariant
            a < b,
            a <= k <= b,
            b <= t@.len(),
            s == t@.subrange(a as int, b as int),
            v <= max,
            k > a ==> ascii_digits_value(s.take(k - a)) == Some(v as nat),
            k == a ==> v == 0,
        decreases b - k,
    {
        let c = t[k];
        proof {
            let p = s.take(k - a + 1);
            assert(p.last() == c);
            assert(p.drop_last() =~= s.take(k - a));
        }
        if !('0' <= c && c <= '9') {
            proof {
                if ascii_digits_value(s) is Some {
                    lemma_digits_prefix(s, k - a + 1);
                }
            }
            return None;
        }
        let d = (c as u32 - '0' as u32) as u64;
        if d > max || v > (max - d) / 10 {
            proof {
                if ascii_digits_value(s) is Some {
                    lemma_digits_prefix(s, k - a + 1);
                }
            }
            return None;
        }
        v = 10 * v + d;
        k = k + 1;
    }
    assert(s.take(b - a) =~= s);
    Some(v)
}

} // verus!
