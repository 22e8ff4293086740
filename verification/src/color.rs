use vstd::prelude::*;
use crate::error::Error;

verus! {

/// A 24-bit RGB colour as the `Serato Markers2` payloads store it:
/// three bytes, red then green then blue.
#[derive(Clone, Copy, Debug, PartialEq, Eq, Structural)]
pub struct Color {
    pub red: u8,
    pub green: u8,
    pub blue: u8,
}

/// The three bytes that serialise a colour.
pub open spec fn color_bytes(c: Color) -> Seq<u8> {
    seq![c.red, c.green, c.blue]
}

/// The colour read from three bytes of `s` starting at `i`.
pub open spec fn sp_color_at(s: Seq<u8>, i: int) -> Color {
    Color { red: s[i], green: s[i + 1], blue: s[i + 2] }
}

/// Reads a three-byte colour at `from`.
pub fn take_color(input: &[u8], from: usize) -> (r: Result<(Color, usize), Error>)
    requires
        from <= input@.len(),
    ensures
        match r {
            Ok((c, j)) => {
                &&& from + 3 <= input@.len()
                &&& c == sp_color_at(input@, from as int)
                &&& j == from + 3
            },
            Err(e) => from + 3 > input@.len() && e == Error::ParseError,
        },
{
    if input.len() - from >= 3 {
        let c = Color { red: input[from], green: input[from + 1], blue: input[from + 2] };
        Ok((c, from + 3))
    } else {
        Err(Error::ParseError)
    }
}

/// Appends the three bytes of a colour.
pub fn write_color(out: &mut Vec<u8>, c: &Color)
    ensures
        final(out)@ == old(out)@ + color_bytes(*c),
{
    out.push(c.red);
    out.push(c.green);
    out.push(c.blue);
    proof {
        assert(out@ =~= old(out)@ + color_bytes(*c));
    }
}

/// Parsing three colour bytes and writing the colour back yields the
/// same three bytes, for every 24-bit value; and writing a colour and
/// parsing the bytes yields the same colour. The two maps are a
/// bijection between colours and three-byte sequences.
pub proof fn lemma_color_bijection(b0: u8, b1: u8, b2: u8, c: Color)
    ensures
        color_bytes(sp_color_at(seq![b0, b1, b2], 0)) == seq![b0, b1, b2],
        sp_color_at(color_bytes(c), 0) == c,
{
    assert(color_bytes(sp_color_at(seq![b0, b1, b2], 0)) =~= seq![b0, b1, b2]);
}

} // verus!
