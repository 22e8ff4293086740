use vstd::prelude::*;
use crate::error::Error;

verus! {

// ---------------------------------------------------------------------------
// Version records
// ---------------------------------------------------------------------------

/// A two-byte version record: the first byte is the major version, the
/// second the minor version.
#[derive(Clone, Copy, Debug, PartialEq, Eq, Structural)]
pub struct Version {
    pub major: u8,
    pub minor: u8,
}

/// The two bytes that serialise a version record.
pub open spec fn version_bytes(v: Version) -> Seq<u8> {
    seq![v.major, v.minor]
}

/// Reads a two-byte version record at `from`.
pub fn take_version(input: &[u8], from: usize) -> (r: Result<(Version, usize), Error>)
    requires
        from <= input@.len(),
    ensures
        match r {
            Ok((v, j)) => {
                &&& from + 2 <= input@.len()
                &&& v == (Version { major: input@[from as int], minor: input@[from + 1] })
                &&& j == from + 2
            },
            Err(e) => from + 2 > input@.len() && e == Error::ParseError,
        },
{
    if input.len() - from >= 2 {
        let v = Version { major: input[from], minor: input[from + 1] };
        Ok((v, from + 2))
    } else {
        Err(Error::ParseError)
    }
}

/// Appends the two bytes of a version record.
pub fn write_version(out: &mut Vec<u8>, v: &Version)
    ensures
        final(out)@ == old(out)@ + version_bytes(*v),
{
    out.push(v.major);
    out.push(v.minor);
    proof {
        assert(out@ =~= old(out)@ + version_bytes(*v));
    }
}

// ---------------------------------------------------------------------------
// Booleans
// ---------------------------------------------------------------------------

/// The byte that serialises a boolean.
pub open spec fn bool_byte(b: bool) -> u8 {
    if b {
        1
    } else {
        0
    }
}

/// Reads one byte as a boolean: any non-zero value is `true`.
pub fn take_bool(input: &[u8], from: usize) -> (r: Result<(bool, usize), Error>)
    requires
        from <= input@.len(),
    ensures
        match r {
            Ok((b, j)) => {
                &&& from + 1 <= input@.len()
                &&& b == (input@[from as int] != 0)
                &&& j == from + 1
            },
            Err(e) => from + 1 > input@.len() && e == Error::ParseError,
        },
{
    if input.len() - from >= 1 {
        Ok((input[from] != 0, from + 1))
    } else {
        Err(Error::ParseError)
    }
}

/// Appends one byte encoding a boolean: `1` for `true`, `0` for `false`.
pub fn write_bool(out: &mut Vec<u8>, value: bool)
    ensures
        final(out)@ == old(out)@ + seq![bool_byte(value)],
{
    let byte: u8 = if value {
        1
    } else {
        0
    };
    out.push(byte);
    proof {
        assert(out@ =~= old(out)@ + seq![bool_byte(value)]);
    }
}

// ---------------------------------------------------------------------------
// Big-endian unsigned integers
// ---------------------------------------------------------------------------

/// The value of four bytes read as a big-endian `u32`.
pub open spec fn be_u32_of(b0: u8, b1: u8, b2: u8, b3: u8) -> u32 {
    ((b0 as u32) << 24u32) | ((b1 as u32) << 16u32) | ((b2 as u32) << 8u32) | (b3 as u32)
}

/// The four bytes that serialise a `u32` big-endian.
pub open spec fn be_u32_bytes(n: u32) -> Seq<u8> {
    seq![
        ((n >> 24u32) & 0xffu32) as u8,
        ((n >> 16u32) & 0xffu32) as u8,
        ((n >> 8u32) & 0xffu32) as u8,
        (n & 0xffu32) as u8,
    ]
}

/// Reading back the four bytes written for `n` yields `n` again.
pub proof fn lemma_be_u32_roundtrip(n: u32)
    ensures
        be_u32_of(
            be_u32_bytes(n)[0],
            be_u32_bytes(n)[1],
            be_u32_bytes(n)[2],
            be_u32_bytes(n)[3],
        ) == n,
{
    assert(((((n >> 24u32) & 0xffu32) as u8 as u32) << 24u32) | ((((n >> 16u32) & 0xffu32) as u8
        as u32) << 16u32) | ((((n >> 8u32) & 0xffu32) as u8 as u32) << 8u32) | ((n
        & 0xffu32) as u8 as u32) == n) by (bit_vector);
}

/// Reads a big-endian `u32` at `from`.
pub fn take_be_u32(input: &[u8], from: usize) -> (r: Result<(u32, usize), Error>)
    requires
        from <= input@.len(),
    ensures
        match r {
            Ok((n, j)) => {
                &&& from + 4 <= input@.len()
                &&& n == be_u32_of(
                    input@[from as int],
                    input@[from + 1],
                    input@[from + 2],
                    input@[from + 3],
                )
                &&& j == from + 4
            },
            Err(e) => from + 4 > input@.len() && e == Error::ParseError,
        },
{
    if input.len() - from >= 4 {
        let n = ((input[from] as u32) << 24u32) | ((input[from + 1] as u32) << 16u32) | ((input[from
            + 2] as u32) << 8u32) | (input[from + 3] as u32);
        Ok((n, from + 4))
    } else {
        Err(Error::ParseError)
    }
}

/// Appends the four big-endian bytes of `n`.
pub fn write_be_u32(out: &mut Vec<u8>, n: u32)
    ensures
        final(out)@ == old(out)@ + be_u32_bytes(n),
{
    out.push(((n >> 24u32) & 0xffu32) as u8);
    out.push(((n >> 16u32) & 0xffu32) as u8);
    out.push(((n >> 8u32) & 0xffu32) as u8);
    out.push((n & 0xffu32) as u8);
    proof {
        assert(out@ =~= old(out)@ + be_u32_bytes(n));
    }
}

/// The value of eight bytes read as a big-endian `u64`.
pub open spec fn be_u64_of(
    b0: u8,
    b1: u8,
    b2: u8,
    b3: u8,
    b4: u8,
    b5: u8,
    b6: u8,
    b7: u8,
) -> u64 {
    ((b0 as u64) << 56u64) | ((b1 as u64) << 48u64) | ((b2 as u64) << 40u64) | ((b3 as u64)
        << 32u64) | ((b4 as u64) << 24u64) | ((b5 as u64) << 16u64) | ((b6 as u64) << 8u64) | (
    b7 as u64)
}

/// The eight bytes that serialise a `u64` big-endian.
pub open spec fn be_u64_bytes(n: u64) -> Seq<u8> {
    seq![
        ((n >> 56u64) & 0xffu64) as u8,
        ((n >> 48u64) & 0xffu64) as u8,
        ((n >> 40u64) & 0xffu64) as u8,
        ((n >> 32u64) & 0xffu64) as u8,
        ((n >> 24u64) & 0xffu64) as u8,
        ((n >> 16u64) & 0xffu64) as u8,
        ((n >> 8u64) & 0xffu64) as u8,
        (n & 0xffu64) as u8,
    ]
}

/// Reading back the eight bytes written for `n` yields `n` again.
pub proof fn lemma_be_u64_roundtrip(n: u64)
    ensures
        be_u64_of(
            be_u64_bytes(n)[0],
            be_u64_bytes(n)[1],
            be_u64_bytes(n)[2],
            be_u64_bytes(n)[3],
            be_u64_bytes(n)[4],
            be_u64_bytes(n)[5],
            be_u64_bytes(n)[6],
            be_u64_bytes(n)[7],
        ) == n,
{
    assert(((((n >> 56u64) & 0xffu64) as u8 as u64) << 56u64) | ((((n >> 48u64) & 0xffu64) as u8
        as u64) << 48u64) | ((((n >> 40u64) & 0xffu64) as u8 as u64) << 40u64) | ((((n >> 32u64)
        & 0xffu64) as u8 as u64) << 32u64) | ((((n >> 24u64) & 0xffu64) as u8 as u64) << 24u64) | ((((n
        >> 16u64) & 0xffu64) as u8 as u64) << 16u64) | ((((n >> 8u64) & 0xffu64) as u8 as u64)
        << 8u64) | ((n & 0xffu64) as u8 as u64) == n) by (bit_vector);
}

/// Reads a big-endian `u64` at `from`.
pub fn take_be_u64(input: &[u8], from: usize) -> (r: Result<(u64, usize), Error>)
    requires
        from <= input@.len(),
    ensures
        match r {
            Ok((n, j)) => {
                &&& from + 8 <= input@.len()
                &&& n == be_u64_of(
                    input@[from as int],
                    input@[from + 1],
                    input@[from + 2],
                    input@[from + 3],
                    input@[from + 4],
                    input@[from + 5],
                    input@[from + 6],
                    input@[from + 7],
                )
                &&& j == from + 8
            },
            Err(e) => from + 8 > input@.len() && e == Error::ParseError,
        },
{
    if input.len() - from >= 8 {
        let n = ((input[from] as u64) << 56u64) | ((input[from + 1] as u64) << 48u64) | ((input[from
            + 2] as u64) << 40u64) | ((input[from + 3] as u64) << 32u64) | ((input[from + 4] as u64)
            << 24u64) | ((input[from + 5] as u64) << 16u64) | ((input[from + 6] as u64) << 8u64) | (
        input[from + 7] as u64);
        Ok((n, from + 8))
    } else {
        Err(Error::ParseError)
    }
}

/// Appends the eight big-endian bytes of `n`.
pub fn write_be_u64(out: &mut Vec<u8>, n: u64)
    ensures
        final(out)@ == old(out)@ + be_u64_bytes(n),
{
    out.push(((n >> 56u64) & 0xffu64) as u8);
    out.push(((n >> 48u64) & 0xffu64) as u8);
    out.push(((n >> 40u64) & 0xffu64) as u8);
    out.push(((n >> 32u64) & 0xffu64) as u8);
    out.push(((n >> 24u64) & 0xffu64) as u8);
    out.push(((n >> 16u64) & 0xffu64) as u8);
    out.push(((n >> 8u64) & 0xffu64) as u8);
    out.push((n & 0xffu64) as u8);
    proof {
        assert(out@ =~= old(out)@ + be_u64_bytes(n));
    }
}

// ---------------------------------------------------------------------------
// Null-terminated UTF-8 strings
// ---------------------------------------------------------------------------

/// The index of the first `0x00` byte at or after `i`, if any.
pub open spec fn first_nul_from(s: Seq<u8>, i: int) -> Option<int>
    decreases s.len() - i,
{
    if i < 0 || i >= s.len() {
        None
    } else if s[i] == 0 {
        Some(i)
    } else {
        first_nul_from(s, i + 1)
    }
}

/// What `first_nul_from` returns: the first `0x00` at or after `i`,
/// or nothing when no `0x00` follows.
pub proof fn lemma_first_nul_from(s: Seq<u8>, i: int)
    requires
        0 <= i <= s.len(),
    ensures
        match first_nul_from(s, i) {
            Some(j) => i <= j < s.len() && s[j] == 0 && (forall|k: int| i <= k < j ==> s[k] != 0),
            None => forall|k: int| i <= k < s.len() ==> s[k] != 0,
        },
    decreases s.len() - i,
{
    if i < s.len() && s[i] != 0 {
        lemma_first_nul_from(s, i + 1);
    }
}

/// A position that holds `0x00` with no earlier `0x00` is what
/// `first_nul_from` finds.
pub proof fn lemma_first_nul_at(s: Seq<u8>, i: int, j: int)
    requires
        0 <= i <= j < s.len(),
        s[j] == 0,
        forall|k: int| i <= k < j ==> s[k] != 0,
    ensures
        first_nul_from(s, i) == Some(j),
    decreases j - i,
{
    if i < j {
        lemma_first_nul_at(s, i + 1, j);
    }
}

/// True of a byte that continues a multi-byte UTF-8 sequence.
pub open spec fn is_utf8_cont(b: u8) -> bool {
    0x80 <= b <= 0xbf
}

/// True when the bytes of `s` from `i` on are well-formed UTF-8.
pub open spec fn utf8_from(s: Seq<u8>, i: int) -> bool
    decreases s.len() - i,
{
    if i < 0 || i >= s.len() {
        true
    } else {
        let b = s[i];
        if b <= 0x7f {
            utf8_from(s, i + 1)
        } else if 0xc2 <= b <= 0xdf {
            i + 2 <= s.len() && is_utf8_cont(s[i + 1]) && utf8_from(s, i + 2)
        } else if b == 0xe0 {
            i + 3 <= s.len() && 0xa0 <= s[i + 1] <= 0xbf && is_utf8_cont(s[i + 2]) && utf8_from(
                s,
                i + 3,
            )
        } else if 0xe1 <= b <= 0xec || b == 0xee || b == 0xef {
            i + 3 <= s.len() && is_utf8_cont(s[i + 1]) && is_utf8_cont(s[i + 2]) && utf8_from(
                s,
                i + 3,
            )
        } else if b == 0xed {
            i + 3 <= s.len() && 0x80 <= s[i + 1] <= 0x9f && is_utf8_cont(s[i + 2]) && utf8_from(
                s,
                i + 3,
            )
        } else if b == 0xf0 {
            i + 4 <= s.len() && 0x90 <= s[i + 1] <= 0xbf && is_utf8_cont(s[i + 2]) && is_utf8_cont(
                s[i + 3],
            ) && utf8_from(s, i + 4)
        } else if 0xf1 <= b <= 0xf3 {
            i + 4 <= s.len() && is_utf8_cont(s[i + 1]) && is_utf8_cont(s[i + 2]) && is_utf8_cont(
                s[i + 3],
            ) && utf8_from(s, i + 4)
        } else if b == 0xf4 {
            i + 4 <= s.len() && 0x80 <= s[i + 1] <= 0x8f && is_utf8_cont(s[i + 2]) && is_utf8_cont(
                s[i + 3],
            ) && utf8_from(s, i + 4)
        } else {
            false
        }
    }
}

/// True when `s` is well-formed UTF-8.
pub open spec fn is_utf8(s: Seq<u8>) -> bool {
    utf8_from(s, 0)
}

/// A sequence of ASCII bytes is well-formed UTF-8.
pub proof fn lemma_ascii_is_utf8(s: Seq<u8>)
    requires
        forall|k: int| 0 <= k < s.len() ==> s[k] <= 0x7f,
    ensures
        is_utf8(s),
{
    lemma_ascii_utf8_from(s, 0);
}

proof fn lemma_ascii_utf8_from(s: Seq<u8>, i: int)
    requires
        0 <= i <= s.len(),
        forall|k: int| i <= k < s.len() ==> s[k] <= 0x7f,
    ensures
        utf8_from(s, i),
    decreases s.len() - i,
{
    if i < s.len() {
        lemma_ascii_utf8_from(s, i + 1);
    }
}

/// Checks that a whole byte slice is well-formed UTF-8.
pub fn check_utf8(s: &[u8]) -> (r: bool)
    ensures
        r == is_utf8(s@),
{
    let n = s.len();
    let mut i: usize = 0;
    while i < n
        invariant
            0 <= i <= n,
            n == s@.len(),
            is_utf8(s@) == utf8_from(s@, i as int),
        decreases n - i,
    {
        let b = s[i];
        if b <= 0x7f {
            i = i + 1;
        } else if 0xc2 <= b && b <= 0xdf {
            if n - i >= 2 && 0x80 <= s[i + 1] && s[i + 1] <= 0xbf {
                i = i + 2;
            } else {
                return false;
            }
        } else if b == 0xe0 {
            if n - i >= 3 && 0xa0 <= s[i + 1] && s[i + 1] <= 0xbf && 0x80 <= s[i + 2] && s[i + 2]
                <= 0xbf {
                i = i + 3;
            } else {
                return false;
            }
        } else if (0xe1 <= b && b <= 0xec) || b == 0xee || b == 0xef {
            if n - i >= 3 && 0x80 <= s[i + 1] && s[i + 1] <= 0xbf && 0x80 <= s[i + 2] && s[i + 2]
                <= 0xbf {
                i = i + 3;
            } else {
                return false;
            }
        } else if b == 0xed {
            if n - i >= 3 && 0x80 <= s[i + 1] && s[i + 1] <= 0x9f && 0x80 <= s[i + 2] && s[i + 2]
                <= 0xbf {
                i = i + 3;
            } else {
                return false;
            }
        } else if b == 0xf0 {
            if n - i >= 4 && 0x90 <= s[i + 1] && s[i + 1] <= 0xbf && 0x80 <= s[i + 2] && s[i + 2]
                <= 0xbf && 0x80 <= s[i + 3] && s[i + 3] <= 0xbf {
                i = i + 4;
            } else {
                return false;
            }
        } else if 0xf1 <= b && b <= 0xf3 {
            if n - i >= 4 && 0x80 <= s[i + 1] && s[i + 1] <= 0xbf && 0x80 <= s[i + 2] && s[i + 2]
                <= 0xbf && 0x80 <= s[i + 3] && s[i + 3] <= 0xbf {
                i = i + 4;
            } else {
                return false;
            }
        } else if b == 0xf4 {
            if n - i >= 4 && 0x80 <= s[i + 1] && s[i + 1] <= 0x8f && 0x80 <= s[i + 2] && s[i + 2]
                <= 0xbf && 0x80 <= s[i + 3] && s[i + 3] <= 0xbf {
                i = i + 4;
            } else {
                return false;
            }
        } else {
            return false;
        }
    }
    true
}

/// True of label bytes that can stand before a `0x00` terminator:
/// well-formed UTF-8 and free of `0x00`.
pub open spec fn label_wf(l: Seq<u8>) -> bool {
    is_utf8(l) && (forall|k: int| 0 <= k < l.len() ==> l[k] != 0)
}

/// What a null-terminated UTF-8 string at `i` parses to: the bytes
/// before the first `0x00`, and the position after that terminator.
/// Nothing when no terminator follows or the bytes are not UTF-8.
pub open spec fn sp_take_utf8(s: Seq<u8>, i: int) -> Option<(Seq<u8>, int)> {
    match first_nul_from(s, i) {
        Some(j) => if is_utf8(s.subrange(i, j)) {
            Some((s.subrange(i, j), j + 1))
        } else {
            None
        },
        None => None,
    }
}

/// Reads bytes until (and consuming) a `0x00` terminator; the bytes
/// before it must be well-formed UTF-8.
pub fn take_utf8(input: &[u8], from: usize) -> (r: Result<(Vec<u8>, usize), Error>)
    requires
        from <= input@.len(),
    ensures
        match r {
            Ok((l, j)) => {
                &&& sp_take_utf8(input@, from as int) == Some((l@, j as int))
                &&& label_wf(l@)
                &&& from < j <= input@.len()
            },
            Err(e) => sp_take_utf8(input@, from as int) is None && e == Error::ParseError,
        },
{
    let n = input.len();
    let mut j: usize = from;
    while j < n && input[j] != 0
        invariant
            from <= j <= n,
            n == input@.len(),
            forall|k: int| from <= k < j ==> input@[k] != 0,
        decreases n - j,
    {
        j = j + 1;
    }
    if j == n {
        proof {
            lemma_first_nul_from(input@, from as int);
        }
        return Err(Error::ParseError);
    }
    proof {
        lemma_first_nul_at(input@, from as int, j as int);
    }
    let lab = vstd::slice::slice_to_vec(vstd::slice::slice_subrange(input, from, j));
    if check_utf8(lab.as_slice()) {
        proof {
            assert(lab@ == input@.subrange(from as int, j as int));
        }
        Ok((lab, j + 1))
    } else {
        Err(Error::ParseError)
    }
}


/// A byte vector's deep view is its view.
pub broadcast proof fn lemma_bytes_deep_view(v: Vec<u8>)
    ensures
        #[trigger] v.deep_view() == v@,
{
    assert(v.deep_view() =~= v@);
}

} // verus!
