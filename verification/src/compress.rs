use std::io::Write;

use vstd::prelude::*;

verus! {

/// The xz stream that compressing a byte sequence at preset 6 produces.
pub uninterp spec fn xz_of(data: Seq<u8>) -> Seq<u8>;

/// The bytes an xz stream decompresses to.
pub uninterp spec fn unxz_of(data: Seq<u8>) -> Seq<u8>;

/// Relies on `xz2::write::XzEncoder` at preset 6: the encoded stream is
/// a function of the input bytes alone, and decompressing it yields the
/// input back (xz compression is lossless). Encoding into a memory
/// buffer cannot fail — the encoder only reports errors of the
/// underlying writer, and writes to a `Vec` never error — so the result
/// is always present.
#[verifier::external_body]
pub fn xz_compress(data: &Vec<u8>) -> (r: Option<Vec<u8>>)
    ensures
        r is Some,
        match r {
            Some(v) => v@ == xz_of(data@) && unxz_of(v@) == data@,
            None => true,
        },
{
    let mut enc = xz2::write::XzEncoder::new(Vec::new(), 6);
    if enc.write_all(data.as_slice()).is_err() {
        return None;
    }
    enc.finish().ok()
}

/// Relies on `xz2::write::XzDecoder`: decompression of an xz stream is
/// a function of the stream alone; a malformed or truncated stream is
/// rejected, while every stream the encoder produced decodes.
#[verifier::external_body]
pub fn xz_decompress(data: &Vec<u8>) -> (r: Option<Vec<u8>>)
    ensures
        (exists|x: Seq<u8>| data@ == xz_of(x)) ==> r is Some,
        match r {
            Some(v) => v@ == unxz_of(data@),
            None => true,
        },
{
    let mut dec = xz2::write::XzDecoder::new(Vec::new());
    if dec.write_all(data.as_slice()).is_err() {
        return None;
    }
    dec.finish().ok()
}

} // verus!
