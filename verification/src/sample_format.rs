//! Sample formats of raw complex I/Q recordings.
use vstd::prelude::*;

verus! {

/// Sample format of a raw complex I/Q recording: signed integers of 8 to 64 bits or IEEE floats
/// of 32 or 64 bits, one value for I and one for Q.
#[derive(Debug, Clone, Copy, PartialEq, Eq, Hash, Structural)]
pub enum SampleFormat {
    CS8,
    CS16,
    CS32,
    CS64,
    CF32,
    CF64,
}

/// `c` lowered if it is an ASCII capital letter.
pub open spec fn ascii_lower(c: char) -> char {
    if 'A' <= c && c <= 'Z' {
        ((c as u32) + 32) as char
    } else {
        c
    }
}

/// `s` equals the lowercase ASCII `name` once its ASCII capitals are lowered. For a lowercase
/// ASCII `name` of digits and the letters c, s, f this is exactly "the Unicode lowercase form of
/// `s` equals `name`": no other character lowercases to one of those characters.
pub open spec fn lowers_to(s: Seq<char>, name: Seq<char>) -> bool {
    &&& s.len() == name.len()
    &&& forall|i: int| 0 <= i < s.len() ==> ascii_lower(#[trigger] s[i]) == name[i]
}

pub open spec fn from_extension_spec(ext: Seq<char>) -> Option<SampleFormat> {
    if lowers_to(ext, seq!['c', 's', '8']) {
        Some(SampleFormat::CS8)
    } else if lowers_to(ext, seq!['c', 's', '1', '6']) {
        Some(SampleFormat::CS16)
    } else if lowers_to(ext, seq!['c', 's', '3', '2']) {
        Some(SampleFormat::CS32)
    } else if lowers_to(ext, seq!['c', 's', '6', '4']) {
        Some(SampleFormat::CS64)
    } else if lowers_to(ext, seq!['c', 'f', '3', '2']) {
        Some(SampleFormat::CF32)
    } else if lowers_to(ext, seq!['c', 'f', '6', '4']) {
        Some(SampleFormat::CF64)
    } else {
        None
    }
}

fn lower_char(c: char) -> (r: char)
    ensures
        r == ascii_lower(c),
{
    if 'A' <= c && c <= 'Z' {
        let code = (c as u32) + 32;
        assert(code <= 0x7f);
        char_from_ascii(code)
    } else {
        c
    }
}

/// The character with ASCII code `code`.
fn char_from_ascii(code: u32) -> (r: char)
    requires
        code <= 0x7f,
    ensures
        r == code as char,
{
    let b = code as u8;
    b as char
}

/// Whether `s` lowers to `name` (see `lowers_to`).
pub fn matches_lowercase(s: &str, name: &str) -> (r: bool)
    ensures
        r == lowers_to(s@, name@),
{
    let n = s.unicode_len();
    if n != name.unicode_len() {
        return false;
    }
    let mut i: usize = 0;
    while i < n
        invariant
            n == s@.len(),
            n == name@.len(),
            i <= n,
            forall|j: int| 0 <= j < i ==> ascii_lower(#[trigger] s@[j]) == name@[j],
        decreases n - i,
    {
        if lower_char(s.get_char(i)) != name.get_char(i) {
            return false;
        }
        i = i + 1;
    }
    true
}

impl SampleFormat {
    /// The format named by a file extension, compared case-insensitively.
    pub fn from_extension(ext: &str) -> (r: Option<Self>)
        ensures
            r == from_extension_spec(ext@),
    {
        proof {
            reveal_strlit("cs8");
            reveal_strlit("cs16");
            reveal_strlit("cs32");
            reveal_strlit("cs64");
            reveal_strlit("cf32");
            reveal_strlit("cf64");
            assert("cs8"@ =~= seq!['c', 's', '8']);
            assert("cs16"@ =~= seq!['c', 's', '1', '6']);
            assert("cs32"@ =~= seq!['c', 's', '3', '2']);
            assert("cs64"@ =~= seq!['c', 's', '6', '4']);
            assert("cf32"@ =~= seq!['c', 'f', '3', '2']);
            assert("cf64"@ =~= seq!['c', 'f', '6', '4']);
        }
        if matches_lowercase(ext, "cs8") {
            Some(SampleFormat::CS8)
        } else if matches_lowercase(ext, "cs16") {
            Some(SampleFormat::CS16)
        } else if matches_lowercase(ext, "cs32") {
            Some(SampleFormat::CS32)
        } else if matches_lowercase(ext, "cs64") {
            Some(SampleFormat::CS64)
        } else if matches_lowercase(ext, "cf32") {
            Some(SampleFormat::CF32)
        } else if matches_lowercase(ext, "cf64") {
            Some(SampleFormat::CF64)
        } else {
            None
        }
    }

    /// Bytes of one complex sample: I and Q together.
    pub fn sample_size(&self) -> (r: usize)
        ensures
            r == match *self {
                SampleFormat::CS8 => 2usize,
                SampleFormat::CS16 => 4usize,
                SampleFormat::CS32 | SampleFormat::CF32 => 8usize,
                SampleFormat::CS64 | SampleFormat::CF64 => 16usize,
            },
    {
        match self {
            SampleFormat::CS8 => 2,
            SampleFormat::CS16 => 4,
            SampleFormat::CS32 | SampleFormat::CF32 => 8,
            SampleFormat::CS64 | SampleFormat::CF64 => 16,
        }
    }

    /// The variant's name, as displayed in the format picker.
    pub fn name(&self) -> (r: &'static str)
        ensures
            r@ == match *self {
                SampleFormat::CS8 => "CS8"@,
                SampleFormat::CS16 => "CS16"@,
                SampleFormat::CS32 => "CS32"@,
                SampleFormat::CS64 => "CS64"@,
                SampleFormat::CF32 => "CF32"@,
                SampleFormat::CF64 => "CF64"@,
            },
    {
        match self {
            SampleFormat::CS8 => "CS8",
            SampleFormat::CS16 => "CS16",
            SampleFormat::CS32 => "CS32",
            SampleFormat::CS64 => "CS64",
            SampleFormat::CF32 => "CF32",
            SampleFormat::CF64 => "CF64",
        }
    }

    /// Every format, in declaration order.
    pub fn variants() -> (r: Vec<Self>)
        ensures
            r@ == seq![
                SampleFormat::CS8,
                SampleFormat::CS16,
                SampleFormat::CS32,
                SampleFormat::CS64,
                SampleFormat::CF32,
                SampleFormat::CF64,
            ],
    {
        vec![
            SampleFormat::CS8,
            SampleFormat::CS16,
            SampleFormat::CS32,
            SampleFormat::CS64,
            SampleFormat::CF32,
            SampleFormat::CF64,
        ]
    }
}

} // verus!
