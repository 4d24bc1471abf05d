//! Content hashes and compressed binary deltas, as the outside crates compute
//! them.

use vstd::prelude::*;

verus! {

/// The SHA-256 digest of `bytes` in lower-case hexadecimal.
pub uninterp spec fn sha256_hex(bytes: Seq<u8>) -> Seq<char>;

/// What a zstd frame decompresses to, if it is one.
pub uninterp spec fn zstd_decoded(data: Seq<u8>) -> Option<Seq<u8>>;

/// The frame that a sequence of bytes is compressed to at a level, if it is
/// compressed.
pub uninterp spec fn zstd_compressed(data: Seq<u8>, level: int) -> Option<Seq<u8>>;

/// The binary patch that is computed from an older to a newer text with the
/// given number of sort partitions and the newer text scanned in one piece,
/// if one is written.
pub uninterp spec fn bidiff_patch(older: Seq<u8>, newer: Seq<u8>, sort_partitions: int) -> Option<
    Seq<u8>,
>;

/// What a binary patch turns `base` into, if it applies.
pub uninterp spec fn bipatch_applied(patch: Seq<u8>, base: Seq<u8>) -> Option<Seq<u8>>;

/// What a compressed patch turns `base` into: the patch is decompressed and
/// then applied.
pub open spec fn patched(compressed_patch: Seq<u8>, base: Seq<u8>) -> Option<Seq<u8>> {
    match zstd_decoded(compressed_patch) {
        Some(patch) => bipatch_applied(patch, base),
        None => None,
    }
}

/// `sha256::digest` on a byte slice: the digest in lower-case hexadecimal,
/// two characters for each of its 32 bytes.
#[verifier::external_body]
pub(crate) fn sha256_digest(bytes: &[u8]) -> (hash: String)
    ensures
        hash@ == sha256_hex(bytes@),
        hash@.len() == 64,
{
    sha256::digest(bytes)
}

/// `zstd::stream::copy_decode` from a slice into a fresh vector: the
/// decompressed bytes, or nothing if `data` is not a zstd frame.
#[verifier::external_body]
pub(crate) fn zstd_decode(data: &[u8]) -> (decoded: Option<Vec<u8>>)
    ensures
        match decoded {
            Some(raw) => zstd_decoded(data@) == Some(raw@),
            None => zstd_decoded(data@) is None,
        },
{
    let mut raw = Vec::new();
    match zstd::stream::copy_decode(std::io::Cursor::new(data), &mut raw) {
        Ok(()) => Some(raw),
        Err(_) => None,
    }
}

/// `zstd::bulk::compress` at the given level: the frame that the bytes are
/// compressed to, or nothing if the compression fails.
#[verifier::external_body]
pub(crate) fn zstd_compress(data: &[u8], level: i32) -> (compressed: Option<Vec<u8>>)
    ensures
        match compressed {
            Some(frame) => zstd_compressed(data@, level as int) == Some(frame@),
            None => zstd_compressed(data@, level as int) is None,
        },
{
    zstd::bulk::compress(data, level).ok()
}

/// `bipatch::Reader::new` over a patch and a base, read to its end: the
/// patched bytes, or nothing if the patch is malformed or does not fit the
/// base.
#[verifier::external_body]
pub(crate) fn bipatch_apply(patch: &[u8], base: &[u8]) -> (applied: Option<Vec<u8>>)
    ensures
        match applied {
            Some(bytes) => bipatch_applied(patch@, base@) == Some(bytes@),
            None => bipatch_applied(patch@, base@) is None,
        },
{
    let patch = std::io::Cursor::new(patch);
    let mut reader = match bipatch::Reader::new(patch, std::io::Cursor::new(base)) {
        Ok(reader) => reader,
        Err(_) => return None,
    };
    let mut bytes = Vec::new();
    match std::io::copy(&mut reader, &mut bytes) {
        Ok(_) => Some(bytes),
        Err(_) => None,
    }
}

/// `bidiff::simple_diff_with_params` into a fresh vector, with the
/// parameters that `bidiff::DiffParams::new` makes of the number of sort
/// partitions and no scan chunk size: the patch that is computed from the
/// two texts, or nothing if the parameters are refused or the patch cannot
/// be written. The suffix sort asserts that the older text is shorter than
/// `i32::MAX`, and the search expects it not to be empty.
#[verifier::external_body]
pub(crate) fn bidiff_simple_diff(older: &[u8], newer: &[u8], sort_partitions: usize) -> (patch:
    Option<Vec<u8>>)
    requires
        0 < older@.len() < 0x7fff_fffe,
    ensures
        match patch {
            Some(bytes) => bidiff_patch(older@, newer@, sort_partitions as int) == Some(bytes@),
            None => bidiff_patch(older@, newer@, sort_partitions as int) is None,
        },
{
    let params = bidiff::DiffParams::new(sort_partitions, None).ok()?;
    let mut patch = Vec::new();
    match bidiff::simple_diff_with_params(older, newer, &mut patch, &params) {
        Ok(()) => Some(patch),
        Err(_) => None,
    }
}

} // verus!
