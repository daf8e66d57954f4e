//! The compressed representation of loose object files.
use crate::error::GitError;
use vstd::prelude::*;

verus! {

/// The zlib stream that flate2's encoder writes for `data` at the default level.
pub uninterp spec fn zlib_of(data: Seq<u8>) -> Seq<u8>;

/// What flate2's zlib decoder reads out of the stream `data`: the inflated
/// bytes, or `None` when it reports the stream as unreadable.
pub uninterp spec fn inflate_of(data: Seq<u8>) -> Option<Seq<u8>>;

/// Compresses `data` into a zlib stream.
///
/// Relies on `flate2::write::ZlibEncoder` over a `Vec` at the default
/// compression level, whose output depends on the input alone. It fails only
/// when its sink fails, which a `Vec` does not, or on stream errors that a
/// fresh encoder does not reach. Its zlib stream inflates back to `data`
/// through `flate2::read::ZlibDecoder`.
#[verifier::external_body]
pub(crate) fn compress(data: &[u8]) -> (r: Result<Vec<u8>, GitError>)
    ensures
        r is Ok,
        r is Ok ==> r->Ok_0@ == zlib_of(data@),
        r is Ok ==> inflate_of(r->Ok_0@) == Some(data@),
{
    let mut enc = flate2::write::ZlibEncoder::new(Vec::new(), flate2::Compression::default());
    match std::io::Write::write_all(&mut enc, data) {
        Ok(()) => {},
        Err(_) => return Err(GitError::IoError),
    }
    match enc.finish() {
        Ok(z) => Ok(z),
        Err(_) => Err(GitError::IoError),
    }
}

/// Inflates a zlib stream.
///
/// Relies on `flate2::read::ZlibDecoder` read to its end; a stream it cannot
/// read (bad header, bad checksum, truncated) is reported as an error.
#[verifier::external_body]
pub(crate) fn decompress(data: &[u8]) -> (r: Result<Vec<u8>, GitError>)
    ensures
        match inflate_of(data@) {
            Some(v) => r matches Ok(w) && w@ == v,
            None => r matches Err(e) && e == GitError::CorruptStream,
        },
{
    let mut out = Vec::new();
    match std::io::Read::read_to_end(&mut flate2::read::ZlibDecoder::new(data), &mut out) {
        Ok(_) => Ok(out),
        Err(_) => Err(GitError::CorruptStream),
    }
}

} // verus!
