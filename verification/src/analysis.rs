use vstd::prelude::*;
use crate::error::Error;
use crate::util::{Version, take_version, write_version, version_bytes};

verus! {

/// Represents the `Serato Analysis` tag: the version of the analysis
/// that Serato performed on the track.
#[derive(Clone, Copy, Debug, PartialEq, Eq, Structural)]
pub struct Analysis {
    /// The analysis version.
    pub version: Version,
}

/// Reads the two-byte version record of an `Analysis` payload at `from`.
pub fn take_analysis(input: &[u8], from: usize) -> (r: Result<(Analysis, usize), Error>)
    requires
        from <= input@.len(),
    ensures
        match r {
            Ok((a, j)) => {
                &&& from + 2 <= input@.len()
                &&& a.version == (Version { major: input@[from as int], minor: input@[from + 1] })
                &&& j == from + 2
            },
            Err(e) => from + 2 > input@.len() && e == Error::ParseError,
        },
{
    match take_version(input, from) {
        Ok((version, j)) => Ok((Analysis { version }, j)),
        Err(e) => Err(e),
    }
}

// ---------------------------------------------------------------------------
// ASCII decimal numbers (the Ogg envelope stores the version as text)
// ---------------------------------------------------------------------------

/// True of an ASCII decimal digit.
pub open spec fn is_ascii_digit(b: u8) -> bool {
    0x30 <= b <= 0x39
}

/// The first index at or after `i` that does not hold a digit.
pub open spec fn digits_end(s: Seq<u8>, i: int) -> int
    decreases s.len() - i,
{
    if i < 0 || i >= s.len() || !is_ascii_digit(s[i]) {
        i
    } else {
        digits_end(s, i + 1)
    }
}

/// A digit run that ends at a non-digit (or at the end) is what
/// `digits_end` finds.
pub proof fn lemma_digits_end_at(s: Seq<u8>, i: int, j: int)
    requires
        0 <= i <= j <= s.len(),
        forall|k: int| i <= k < j ==> is_ascii_digit(s[k]),
        j == s.len() || !is_ascii_digit(s[j]),
    ensures
        digits_end(s, i) == j,
    decreases j - i,
{
    if i < j {
        lemma_digits_end_at(s, i + 1, j);
    }
}

/// The value of the decimal digits of `s` in `[i, j)`.
pub open spec fn dec_value(s: Seq<u8>, i: int, j: int) -> int
    decreases j - i,
{
    if j <= i {
        0
    } else {
        dec_value(s, i, j - 1) * 10 + (s[j - 1] - 0x30)
    }
}

/// What an ASCII decimal `u8` at `i` parses to: the value of the digit
/// run, if the run is non-empty and the value fits in a `u8`.
pub open spec fn sp_take_ascii_u8(s: Seq<u8>, i: int) -> Option<(u8, int)> {
    let j = digits_end(s, i);
    if j == i {
        None
    } else if dec_value(s, i, j) <= 255 {
        Some((dec_value(s, i, j) as u8, j))
    } else {
        None
    }
}

/// Reads a non-empty run of ASCII digits at `from` as a `u8`. Fails
/// when no digit stands at `from` or the value exceeds 255.
pub fn take_ascii_u8(input: &[u8], from: usize) -> (r: Result<(u8, usize), Error>)
    requires
        from <= input@.len(),
    ensures
        match r {
            Ok((n, j)) => {
                &&& sp_take_ascii_u8(input@, from as int) == Some((n, j as int))
                &&& from < j <= input@.len()
            },
            Err(e) => sp_take_ascii_u8(input@, from as int) is None && e == Error::ParseError,
        },
{
    let n = input.len();
    let mut j: usize = from;
    let mut acc: u32 = 0;
    while j < n && 0x30 <= input[j] && input[j] <= 0x39
        invariant
            from <= j <= n,
            n == input@.len(),
            forall|k: int| from <= k < j ==> is_ascii_digit(input@[k]),
            acc <= 2559,
            dec_value(input@, from as int, j as int) <= 255 ==> acc == dec_value(
                input@,
                from as int,
                j as int,
            ),
            dec_value(input@, from as int, j as int) > 255 ==> acc > 255,
        decreases n - j,
    {
        let d = input[j] - 0x30;
        acc = if acc > 255 {
            256
        } else {
            acc * 10 + (d as u32)
        };
        j = j + 1;
    }
    proof {
        lemma_digits_end_at(input@, from as int, j as int);
    }
    if j == from {
        Err(Error::ParseError)
    } else if acc > 255 {
        Err(Error::ParseError)
    } else {
        Ok((acc as u8, j))
    }
}

/// The ASCII decimal digits of `n`, without leading zeros.
pub open spec fn dec_bytes(n: u8) -> Seq<u8> {
    if n < 10 {
        seq![(0x30 + n) as u8]
    } else if n < 100 {
        seq![(0x30 + n / 10) as u8, (0x30 + n % 10) as u8]
    } else {
        seq![(0x30 + n / 100) as u8, (0x30 + (n / 10) % 10) as u8, (0x30 + n % 10) as u8]
    }
}

/// Appends the ASCII decimal digits of `n`.
pub fn write_dec_u8(out: &mut Vec<u8>, n: u8)
    ensures
        final(out)@ == old(out)@ + dec_bytes(n),
{
    if n < 10 {
        out.push(0x30 + n);
    } else if n < 100 {
        out.push(0x30 + n / 10);
        out.push(0x30 + n % 10);
    } else {
        out.push(0x30 + n / 100);
        out.push(0x30 + (n / 10) % 10);
        out.push(0x30 + n % 10);
    }
    proof {
        assert(out@ =~= old(out)@ + dec_bytes(n));
    }
}

// ---------------------------------------------------------------------------
// Whole payloads
// ---------------------------------------------------------------------------

/// What an ASCII `"<major>.<minor>"` record at `i` parses to, and
/// where it ends.
pub open spec fn sp_take_analysis_ogg(s: Seq<u8>, i: int) -> Option<(Analysis, int)> {
    match sp_take_ascii_u8(s, i) {
        None => None,
        Some((major, j)) => if j < s.len() && s[j] == 0x2e {
            match sp_take_ascii_u8(s, j + 1) {
                None => None,
                Some((minor, k)) => Some((Analysis { version: Version { major, minor } }, k)),
            }
        } else {
            None
        },
    }
}

/// What an Ogg `Analysis` payload parses to: `"<major>.<minor>"` in
/// ASCII, both numbers fitting a `u8`, with nothing after them.
pub open spec fn sp_analysis_ogg(s: Seq<u8>) -> Option<Analysis> {
    match sp_take_analysis_ogg(s, 0) {
        Some((a, k)) => if k == s.len() {
            Some(a)
        } else {
            None
        },
        None => None,
    }
}

/// Reads an ASCII `"<major>.<minor>"` version record at `from`.
pub fn take_analysis_ogg(input: &[u8], from: usize) -> (r: Result<(Analysis, usize), Error>)
    requires
        from <= input@.len(),
    ensures
        match r {
            Ok((a, j)) => {
                &&& sp_take_analysis_ogg(input@, from as int) == Some((a, j as int))
                &&& from <= j <= input@.len()
            },
            Err(e) => sp_take_analysis_ogg(input@, from as int) is None && e == Error::ParseError,
        },
{
    let (major, j) = match take_ascii_u8(input, from) {
        Ok(p) => p,
        Err(e) => {
            return Err(e);
        },
    };
    if j < input.len() && input[j] == 0x2e {
        match take_ascii_u8(input, j + 1) {
            Ok((minor, k)) => Ok((Analysis { version: Version { major, minor } }, k)),
            Err(e) => Err(e),
        }
    } else {
        Err(Error::ParseError)
    }
}

impl Analysis {
    /// Parses a raw (ID3, FLAC-decoded or MP4) payload: exactly a
    /// two-byte version record.
    pub fn parse(input: &[u8]) -> (r: Result<Analysis, Error>)
        ensures
            match r {
                Ok(a) => {
                    &&& input@.len() == 2
                    &&& a.version == (Version { major: input@[0], minor: input@[1] })
                },
                Err(e) => input@.len() != 2 && e == Error::ParseError,
            },
    {
        match take_analysis(input, 0) {
            Ok((a, j)) => {
                if j == input.len() {
                    Ok(a)
                } else {
                    Err(Error::ParseError)
                }
            },
            Err(e) => Err(e),
        }
    }

    /// Serialises the raw payload form: the two version bytes.
    pub fn write(&self) -> (r: Vec<u8>)
        ensures
            r@ == version_bytes(self.version),
    {
        let mut out: Vec<u8> = Vec::new();
        write_version(&mut out, &self.version);
        out
    }

    /// Parses the Ogg payload form, ASCII `"<major>.<minor>"`, and
    /// succeeds exactly where that grammar consumes the whole input.
    pub fn parse_ogg(input: &[u8]) -> (r: Result<Analysis, Error>)
        ensures
            match r {
                Ok(a) => sp_analysis_ogg(input@) == Some(a),
                Err(e) => sp_analysis_ogg(input@) is None && e == Error::ParseError,
            },
    {
        match take_analysis_ogg(input, 0) {
            Ok((a, j)) => {
                if j == input.len() {
                    Ok(a)
                } else {
                    Err(Error::ParseError)
                }
            },
            Err(e) => Err(e),
        }
    }

    /// Serialises the Ogg payload form: the two version numbers as
    /// ASCII decimal, separated by `.`.
    pub fn write_ogg(&self) -> (r: Vec<u8>)
        ensures
            r@ == dec_bytes(self.version.major) + seq![0x2eu8] + dec_bytes(self.version.minor),
    {
        let mut out: Vec<u8> = Vec::new();
        write_dec_u8(&mut out, self.version.major);
        out.push(0x2e);
        write_dec_u8(&mut out, self.version.minor);
        proof {
            assert(out@ =~= dec_bytes(self.version.major) + seq![0x2eu8] + dec_bytes(
                self.version.minor,
            ));
        }
        out
    }
}

/// The digits written for `n` are between one and three ASCII digits.
proof fn lemma_dec_bytes_digits(n: u8)
    ensures
        1 <= dec_bytes(n).len() <= 3,
        forall|k: int| 0 <= k < dec_bytes(n).len() ==> is_ascii_digit(#[trigger] dec_bytes(n)[k]),
{
}

/// Parsing the digits written for `n`, standing before a non-digit or
/// the end of the payload, yields `n` back.
proof fn lemma_dec_parse(n: u8, s: Seq<u8>, i: int)
    requires
        0 <= i,
        i + dec_bytes(n).len() <= s.len(),
        s.subrange(i, i + dec_bytes(n).len()) == dec_bytes(n),
        i + dec_bytes(n).len() == s.len() || !is_ascii_digit(s[i + dec_bytes(n).len()]),
    ensures
        sp_take_ascii_u8(s, i) == Some((n, i + dec_bytes(n).len())),
{
    let d = dec_bytes(n);
    let dl = d.len() as int;
    lemma_dec_bytes_digits(n);
    assert forall|k: int| 0 <= k < dl implies s[i + k] == d[k] by {
        assert(s.subrange(i, i + dl)[k] == s[i + k]);
    }
    assert forall|t: int| i <= t < i + dl implies is_ascii_digit(s[t]) by {
        assert(s[i + (t - i)] == d[t - i]);
    }
    lemma_digits_end_at(s, i, i + dl);
    let ni = n as int;
    assert(dec_value(s, i, i) == 0);
    if n < 10 {
        assert(s[i + 0] == d[0]);
        assert(dec_value(s, i, i + 1) == dec_value(s, i, i) * 10 + (s[i + 0] - 0x30));
        assert(dec_value(s, i, i + 1) == ni);
    } else if n < 100 {
        assert(s[i + 0] == d[0] && s[i + 1] == d[1]);
        assert(dec_value(s, i, i + 1) == dec_value(s, i, i) * 10 + (s[i + 0] - 0x30));
        assert(dec_value(s, i, i + 1) == ni / 10);
        assert(dec_value(s, i, i + 2) == (ni / 10) * 10 + (ni % 10));
        assert((ni / 10) * 10 + (ni % 10) == ni);
    } else {
        assert(s[i + 0] == d[0] && s[i + 1] == d[1] && s[i + 2] == d[2]);
        assert(dec_value(s, i, i + 1) == dec_value(s, i, i) * 10 + (s[i + 0] - 0x30));
        assert(dec_value(s, i, i + 1) == ni / 100);
        assert(dec_value(s, i, i + 2) == (ni / 100) * 10 + ((ni / 10) % 10));
        assert(dec_value(s, i, i + 3) == ((ni / 100) * 10 + ((ni / 10) % 10)) * 10 + (ni % 10));
        assert(ni / 100 == (ni / 10) / 10) by {
            if ni < 200 {
                assert(ni / 100 == 1);
                assert(10 <= ni / 10 < 20);
            } else {
                assert(ni / 100 == 2);
                assert(20 <= ni / 10 < 26);
            }
        }
        assert((ni / 10) == ((ni / 10) / 10) * 10 + ((ni / 10) % 10));
        assert(ni == (ni / 10) * 10 + (ni % 10));
        assert(((ni / 100) * 10 + ((ni / 10) % 10)) * 10 + (ni % 10) == ni);
    }
    assert(dec_value(s, i, i + dl) == ni);
}

/// Writing a version in the Ogg ASCII form and parsing it back yields
/// the same value: the Ogg `Analysis` payload round-trips for every
/// version.
pub proof fn lemma_analysis_ogg_roundtrip(a: Analysis)
    ensures
        sp_analysis_ogg(
            dec_bytes(a.version.major) + seq![0x2eu8] + dec_bytes(a.version.minor),
        ) == Some(a),
{
    let d1 = dec_bytes(a.version.major);
    let d2 = dec_bytes(a.version.minor);
    let l1 = d1.len() as int;
    let l2 = d2.len() as int;
    let s = d1 + seq![0x2eu8] + d2;
    lemma_dec_bytes_digits(a.version.major);
    lemma_dec_bytes_digits(a.version.minor);
    assert forall|k: int| 0 <= k < l1 implies s.subrange(0, l1)[k] == d1[k] by {
        assert(s.subrange(0, l1)[k] == s[k]);
        assert(s[k] == d1[k]);
    }
    assert(s.subrange(0, l1) =~= d1);
    assert(s[l1] == 0x2e);
    assert(!is_ascii_digit(s[l1]));
    lemma_dec_parse(a.version.major, s, 0);
    assert forall|k: int| 0 <= k < l2 implies s.subrange(l1 + 1, s.len() as int)[k] == d2[k] by {
        assert(s.subrange(l1 + 1, s.len() as int)[k] == s[l1 + 1 + k]);
        assert(s[l1 + 1 + k] == d2[k]);
    }
    assert(s.subrange(l1 + 1, s.len() as int) =~= d2);
    lemma_dec_parse(a.version.minor, s, l1 + 1);
    assert(sp_analysis_ogg(s) == Some(a));
}

} // verus!
