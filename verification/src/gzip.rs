//! Gzip inflation for the ADZ container.

use vstd::prelude::*;

verus! {

/// Makes `std::io::Error`, the error of the gzip decoder, known as an
/// opaque type. Nothing is claimed of its values.
#[verifier::external_type_specification]
#[verifier::external_body]
pub struct ExIoError(std::io::Error);

/// What the first gzip member of `compressed` inflates to, or `None` where
/// the bytes are not a well-formed gzip member.
pub uninterp spec fn gzip_member_contents(compressed: Seq<u8>) -> Option<Seq<u8>>;

/// Inflates the first gzip member of `compressed` with
/// `flate2::read::GzDecoder`, read to its end.
///
/// Trusted: the decoder's output depends on the compressed bytes alone. On
/// success the bytes returned are the member's contents; on failure (a bad
/// header, a broken deflate stream, a wrong CRC or length trailer, early end
/// of input) the decoder's error is handed on.
#[verifier::external_body]
pub(crate) fn inflate_gzip(compressed: &[u8]) -> (r: Result<Vec<u8>, std::io::Error>)
    ensures
        match r {
            Ok(bytes) => gzip_member_contents(compressed@) == Some(bytes@),
            Err(_) => gzip_member_contents(compressed@) is None,
        },
{
    let mut bytes = Vec::new();
    let mut decoder = flate2::read::GzDecoder::new(compressed);
    match std::io::Read::read_to_end(&mut decoder, &mut bytes) {
        Ok(_) => Ok(bytes),
        Err(e) => Err(e),
    }
}

} // verus!
