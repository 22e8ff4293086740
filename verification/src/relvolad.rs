use vstd::prelude::*;
use crate::error::Error;
use crate::util::{Version, take_version, write_version, version_bytes};

verus! {

/// Represents the `Serato RelVolAd` tag.
///
/// Only the leading version record is understood; the three bytes that
/// follow it are constrained to the literal `01 00 00`.
#[derive(Clone, Copy, Debug, PartialEq, Eq, Structural)]
pub struct RelVolAd {
    /// The `RelVolAd` version.
    pub version: Version,
}

/// The five bytes that serialise a `RelVolAd` value.
pub open spec fn relvolad_bytes(r: RelVolAd) -> Seq<u8> {
    version_bytes(r.version) + seq![1u8, 0u8, 0u8]
}

/// True when `s` holds a `RelVolAd` record at `from`: a version and
/// the fixed bytes `01 00 00`.
pub open spec fn sp_relvolad_at(s: Seq<u8>, from: int) -> bool {
    &&& from + 5 <= s.len()
    &&& s[from + 2] == 1
    &&& s[from + 3] == 0
    &&& s[from + 4] == 0
}

/// Reads a `RelVolAd` record at `from`: a two-byte version followed by
/// the literal bytes `01 00 00`.
pub fn take_relvolad(input: &[u8], from: usize) -> (r: Result<(RelVolAd, usize), Error>)
    requires
        from <= input@.len(),
    ensures
        match r {
            Ok((v, j)) => {
                &&& sp_relvolad_at(input@, from as int)
                &&& v.version == (Version {
                    major: input@[from as int],
                    minor: input@[from + 1],
                })
                &&& j == from + 5
            },
            Err(e) => !sp_relvolad_at(input@, from as int) && e == Error::ParseError,
        },
{
    let (version, j) = match take_version(input, from) {
        Ok(p) => p,
        Err(e) => {
            return Err(e);
        },
    };
    if input.len() - j >= 3 && input[j] == 1 && input[j + 1] == 0 && input[j + 2] == 0 {
        Ok((RelVolAd { version }, j + 3))
    } else {
        Err(Error::ParseError)
    }
}

impl RelVolAd {
    /// Parses a whole decoded payload. It succeeds exactly on five
    /// bytes whose tail is the literal `01 00 00`, and then consumes
    /// the entire input.
    pub fn parse(input: &[u8]) -> (r: Result<RelVolAd, Error>)
        ensures
            match r {
                Ok(v) => {
                    &&& input@.len() == 5
                    &&& sp_relvolad_at(input@, 0)
                    &&& v.version == (Version { major: input@[0], minor: input@[1] })
                    &&& relvolad_bytes(v) == input@
                },
                Err(e) => {
                    &&& !(input@.len() == 5 && sp_relvolad_at(input@, 0))
                    &&& e == Error::ParseError
                },
            },
    {
        match take_relvolad(input, 0) {
            Ok((v, j)) => {
                if j == input.len() {
                    proof {
                        assert(relvolad_bytes(v) =~= input@);
                    }
                    Ok(v)
                } else {
                    Err(Error::ParseError)
                }
            },
            Err(e) => Err(e),
        }
    }

    /// Serialises the value: the version followed by `01 00 00`.
    pub fn write(&self) -> (r: Vec<u8>)
        ensures
            r@ == relvolad_bytes(*self),
    {
        let mut out: Vec<u8> = Vec::new();
        write_version(&mut out, &self.version);
        out.push(1);
        out.push(0);
        out.push(0);
        proof {
            assert(out@ =~= relvolad_bytes(*self));
        }
        out
    }
}


/// Writing a `RelVolAd` value and parsing the bytes yields the value
/// back: the payload round-trips for every value.
pub proof fn lemma_relvolad_roundtrip(v: RelVolAd)
    ensures
        relvolad_bytes(v).len() == 5,
        sp_relvolad_at(relvolad_bytes(v), 0),
        relvolad_bytes(v)[0] == v.version.major,
        relvolad_bytes(v)[1] == v.version.minor,
{
    let s = relvolad_bytes(v);
    assert(s =~= seq![v.version.major, v.version.minor, 1u8, 0u8, 0u8]);
}

} // verus!
