//! The compression layer: a raw identity transform and zlib.

use vstd::prelude::*;
use vstd::slice::slice_to_vec;
use crate::errors::KeyLogError;

verus! {

/// How serialized bytes are transformed before persistence: kept as
/// they are, or compressed with zlib.
#[derive(Copy, Clone, Debug, PartialEq, Eq, Structural)]
pub enum KeyLogCompressionMethod {
    Raw,
    Zlib,
}

impl Default for KeyLogCompressionMethod {
    /// The default compression method is the raw identity transform.
    fn default() -> (r: Self)
        ensures
            r == KeyLogCompressionMethod::Raw,
    {
        KeyLogCompressionMethod::Raw
    }
}

/// The bytes that zlib compression — streaming deflate at the default
/// level inside zlib framing — produces from `data`: a function of the
/// input alone.
pub uninterp spec fn spec_zlib(data: Seq<u8>) -> Seq<u8>;

/// Relies on flate2's `ZlibEncoder` writing into a `Vec` at the
/// default compression level: a `Vec` writer cannot fail and the
/// deflate compressor reports no error for the parameters the default
/// constructor sets, so the encoder always returns — and what it
/// returns is the compressed image of the input, a function of the
/// input bytes alone.
#[verifier::external_body]
fn zlib_compress(data: &[u8]) -> (r: Option<Vec<u8>>)
    ensures
        r is Some,
        r matches Some(v) ==> v@ == spec_zlib(data@),
{
    let mut encoder = flate2::write::ZlibEncoder::new(Vec::new(), flate2::Compression::default());
    if std::io::Write::write_all(&mut encoder, data).is_err() {
        return None;
    }
    encoder.finish().ok()
}

/// Relies on flate2's `ZlibDecoder` writing into a `Vec`: zlib is
/// lossless, so feeding it the compressed image of any bytes finishes
/// successfully with exactly those bytes. Of its behaviour on other
/// input nothing is assumed.
#[verifier::external_body]
fn zlib_decompress(data: &[u8]) -> (r: Option<Vec<u8>>)
    ensures
        match r {
            Some(v) => forall|orig: Seq<u8>| data@ == #[trigger] spec_zlib(orig) ==> v@ == orig,
            None => forall|orig: Seq<u8>| data@ != #[trigger] spec_zlib(orig),
        },
{
    let mut decoder = flate2::write::ZlibDecoder::new(Vec::new());
    if std::io::Write::write_all(&mut decoder, data).is_err() {
        return None;
    }
    decoder.finish().ok()
}

/// The bytes persisted for `data` under `method`: raw keeps them,
/// zlib maps them to their compressed image.
pub open spec fn spec_compress(data: Seq<u8>, method: KeyLogCompressionMethod) -> Seq<u8> {
    match method {
        KeyLogCompressionMethod::Raw => data,
        KeyLogCompressionMethod::Zlib => spec_zlib(data),
    }
}

/// Applies the compression transform; compressing into memory never
/// fails. Raw returns the input unchanged, zlib the compressed image
/// of the input.
pub fn compress_data(data: &[u8], method: KeyLogCompressionMethod) -> (r: Result<
    Vec<u8>,
    KeyLogError,
>)
    ensures
        r matches Ok(v) && v@ == spec_compress(data@, method),
{
    match method {
        KeyLogCompressionMethod::Raw => Ok(slice_to_vec(data)),
        KeyLogCompressionMethod::Zlib => match zlib_compress(data) {
            Some(v) => Ok(v),
            None => Err(KeyLogError::CompressionError),
        },
    }
}

/// Undoes the compression transform. Raw returns the input unchanged.
/// Zlib recovers exactly the bytes whose compressed image the input
/// is — decompression is owed success on every such input — and
/// reports `CompressionError` where the decoder fails.
pub fn decompress_data(data: &[u8], method: KeyLogCompressionMethod) -> (r: Result<
    Vec<u8>,
    KeyLogError,
>)
    ensures
        method == KeyLogCompressionMethod::Raw ==> (r matches Ok(v) && v@ == data@),
        forall|orig: Seq<u8>| data@ == spec_compress(orig, method) ==> (r matches Ok(v) && v@
            == orig),
        r matches Err(e) ==> e == KeyLogError::CompressionError && method
            == KeyLogCompressionMethod::Zlib,
{
    match method {
        KeyLogCompressionMethod::Raw => Ok(slice_to_vec(data)),
        KeyLogCompressionMethod::Zlib => match zlib_decompress(data) {
            Some(v) => Ok(v),
            None => {
                proof {
                    assert forall|orig: Seq<u8>| data@ == spec_compress(
                        orig,
                        KeyLogCompressionMethod::Zlib,
                    ) implies false by {
                        assert(data@ == spec_zlib(orig));
                    }
                }
                Err(KeyLogError::CompressionError)
            },
        },
    }
}

} // verus!
