//! The compression adapter: one function from a compression tag and a
//! compressed body to the decompressed bytes.

use vstd::prelude::*;

verus! {

use crate::chunk::ChunkParseError;

/// What gzip decompression yields on a byte string, or `None` when the
/// stream is truncated or corrupt. Deterministic in the input bytes.
pub uninterp spec fn gzip_inflate(s: Seq<u8>) -> Option<Seq<u8>>;

/// What zlib decompression yields on a byte string, or `None` when the
/// stream is truncated or corrupt. Deterministic in the input bytes.
pub uninterp spec fn zlib_inflate(s: Seq<u8>) -> Option<Seq<u8>>;

/// The decompressed payload for a tagged body: tag 1 is a gzip stream,
/// tag 2 a zlib stream, tag 3 an uncompressed body returned unchanged;
/// every other tag is unsupported.
pub open spec fn spec_inflate(tag: u8, body: Seq<u8>) -> Option<Seq<u8>> {
    if tag == 1 {
        gzip_inflate(body)
    } else if tag == 2 {
        zlib_inflate(body)
    } else if tag == 3 {
        Some(body)
    } else {
        None
    }
}

/// Relies on flate2::read::GzDecoder and std::io::Read::read_to_end: decodes
/// a gzip-framed stream; the result (or the failure) is a function of the
/// input bytes alone.
#[verifier::external_body]
fn gzip_decompress(input: &[u8]) -> (r: Result<Vec<u8>, String>)
    ensures
        r is Ok <==> gzip_inflate(input@) is Some,
        r matches Ok(v) ==> Some(v@) == gzip_inflate(input@),
{
    let mut decoder = flate2::read::GzDecoder::new(input);
    let mut out = Vec::new();
    match std::io::Read::read_to_end(&mut decoder, &mut out) {
        Ok(_) => Ok(out),
        Err(e) => Err(format!("{e}")),
    }
}

/// Relies on flate2::read::ZlibDecoder and std::io::Read::read_to_end:
/// decodes a zlib-framed stream; the result (or the failure) is a function
/// of the input bytes alone.
#[verifier::external_body]
fn zlib_decompress(input: &[u8]) -> (r: Result<Vec<u8>, String>)
    ensures
        r is Ok <==> zlib_inflate(input@) is Some,
        r matches Ok(v) ==> Some(v@) == zlib_inflate(input@),
{
    let mut decoder = flate2::read::ZlibDecoder::new(input);
    let mut out = Vec::new();
    match std::io::Read::read_to_end(&mut decoder, &mut out) {
        Ok(_) => Ok(out),
        Err(e) => Err(format!("{e}")),
    }
}

/// Decompresses `input` according to the compression tag. Succeeds exactly
/// when the tag is supported and the stream decodes; a failure is
/// `UnsupportedCompression` for an unknown tag and `DecompressionFailed`
/// for a broken stream. All-or-nothing: no partial output.
pub fn decompress(tag: u8, input: &[u8]) -> (r: Result<Vec<u8>, ChunkParseError>)
    ensures
        r is Ok <==> spec_inflate(tag, input@) is Some,
        r matches Ok(v) ==> Some(v@) == spec_inflate(tag, input@),
        r matches Err(e) ==> if tag == 1 || tag == 2 {
            e matches ChunkParseError::DecompressionFailed(_)
        } else {
            e == ChunkParseError::UnsupportedCompression
        },
{
    if tag == 1 {
        match gzip_decompress(input) {
            Ok(v) => Ok(v),
            Err(cause) => Err(ChunkParseError::DecompressionFailed(cause)),
        }
    } else if tag == 2 {
        match zlib_decompress(input) {
            Ok(v) => Ok(v),
            Err(cause) => Err(ChunkParseError::DecompressionFailed(cause)),
        }
    } else if tag == 3 {
        let mut out: Vec<u8> = Vec::new();
        let mut i: usize = 0;
        while i < input.len()
            invariant
                i <= input@.len(),
                out@ == input@.subrange(0, i as int),
            decreases input@.len() - i,
        {
            out.push(input[i]);
            i = i + 1;
        }
        proof {
            assert(out@ =~= input@);
        }
        Ok(out)
    } else {
        Err(ChunkParseError::UnsupportedCompression)
    }
}

} // verus!
