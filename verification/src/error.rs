use vstd::prelude::*;

verus! {

/// The error taxonomy shared by every codec layer.
///
/// `ParseError` reports a violated byte grammar (truncation, bad UTF-8, a
/// wrong fixed byte, a length mismatch). `Base64Error` reports chunk data
/// that does not decode even after the one-character retry. `IoError` is
/// reserved for callers whose sink fails while serialising. `Unsupported`
/// is reserved for envelope variants a tag does not ship in.
#[derive(Clone, Copy, Debug, PartialEq, Eq, Structural)]
pub enum Error {
    ParseError,
    Base64Error,
    IoError,
    Unsupported,
}

} // verus!
