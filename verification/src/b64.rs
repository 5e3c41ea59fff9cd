use vstd::prelude::*;

use base64::engine::general_purpose;
use base64::Engine;

verus! {

/// The canonical, padded, standard-alphabet base64 encoding of a byte string,
/// as produced by base64's `STANDARD` engine.
pub uninterp spec fn b64_of(b: Seq<u8>) -> Seq<char>;

/// Relies on base64's `STANDARD.encode`: canonical padded encoding whose
/// length is `4 * ceil(n / 3)` for `n` input bytes.
#[verifier::external_body]
pub fn b64_encode(b: &[u8]) -> (r: String)
    requires
        b@.len() * 4 + 4 <= usize::MAX,
    ensures
        r@ == b64_of(b@),
        r@.len() == ((b@.len() + 2) / 3) * 4,
{
    general_purpose::STANDARD.encode(b)
}

/// Relies on base64's `STANDARD.decode`: it succeeds exactly on canonical
/// padded encodings and returns the unique byte string that encodes to the
/// input.
#[verifier::external_body]
pub fn b64_decode(s: &str) -> (r: Option<Vec<u8>>)
    ensures
        r matches Some(v) ==> s@ == b64_of(v@),
        r matches Some(v) ==> forall|b: Seq<u8>| s@ == b64_of(b) ==> b == v@,
        (exists|b: Seq<u8>| s@ == b64_of(b)) ==> r is Some,
{
    general_purpose::STANDARD.decode(s).ok()
}

} // verus!
