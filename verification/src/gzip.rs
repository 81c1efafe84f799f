//! The gzip compressor, behind a trusted wrapper around flate2.

use vstd::prelude::*;

verus! {

/// What flate2's gzip encoder produces for a byte sequence at the default
/// compression level.
pub uninterp spec fn gzip_of(data: Seq<u8>) -> Seq<u8>;

/// Relies on flate2's `write::GzEncoder` at the default compression level:
/// with the default header (zero timestamp, operating-system byte fixed for
/// reproducibility) the output is a function of the input bytes alone, and
/// every stream begins with the two magic bytes 0x1f, 0x8b. Writing into a
/// `Vec` cannot fail, so the two unwraps never fire.
#[verifier::external_body]
pub fn gzip_compress(data: &[u8]) -> (r: Vec<u8>)
    ensures
        r@ == gzip_of(data@),
        r@.len() >= 2,
        r@[0] == 0x1f,
        r@[1] == 0x8b,
{
    let mut enc = flate2::write::GzEncoder::new(Vec::new(), flate2::Compression::default());
    std::io::Write::write_all(&mut enc, data).unwrap();
    enc.finish().unwrap()
}

} // verus!
