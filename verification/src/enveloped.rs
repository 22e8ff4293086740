use vstd::prelude::*;

verus! {

/// True of a byte of the padding-free standard base64 alphabet:
/// ASCII letters, digits, `+` and `/`.
pub open spec fn is_b64_byte(b: u8) -> bool {
    (0x41 <= b <= 0x5a) || (0x61 <= b <= 0x7a) || (0x30 <= b <= 0x39) || b == 0x2b || b == 0x2f
}

/// The unpadded standard-alphabet base64 encoding of `data`, as
/// `base64::encode_config` with `STANDARD_NO_PAD` produces it.
pub uninterp spec fn b64_of(data: Seq<u8>) -> Seq<u8>;

/// What `base64::decode_config` with the `STANDARD` configuration
/// returns for `text`: the decoded bytes, or nothing where it rejects
/// the input.
pub uninterp spec fn b64_decode_of(text: Seq<u8>) -> Option<Seq<u8>>;

/// Relies on `base64::encode_config` with `STANDARD_NO_PAD`: the
/// encoding of `n` bytes has `4n/3` bytes rounded up (no `=` padding),
/// every byte lies in the standard alphabet, and `base64::decode_config`
/// with `STANDARD` — for which padding is optional — inverts it.
#[verifier::external_body]
pub(crate) fn b64_encode(data: &[u8]) -> (r: Vec<u8>)
    requires
        data@.len() < usize::MAX / 8,
    ensures
        r@ == b64_of(data@),
        r@.len() == (data@.len() * 4 + 2) / 3,
        forall|k: int| 0 <= k < r@.len() ==> is_b64_byte(r@[k]),
        b64_decode_of(r@) == Some(data@),
{
    base64::encode_config(data, base64::STANDARD_NO_PAD).into_bytes()
}

/// Relies on `base64::decode_config` with `STANDARD`: returns the
/// decoded bytes, or nothing for text it rejects.
#[verifier::external_body]
pub(crate) fn b64_decode(text: &[u8]) -> (r: Option<Vec<u8>>)
    requires
        text@.len() < usize::MAX / 8,
    ensures
        r is Some <==> b64_decode_of(text@) is Some,
        r matches Some(v) ==> b64_decode_of(text@) == Some(v@),
{
    match base64::decode_config(text, base64::STANDARD) {
        Ok(v) => Some(v),
        Err(_) => None,
    }
}

} // verus!
