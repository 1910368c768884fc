//! The calls into std and into outside crates that this library makes without proving them.

use vstd::prelude::*;

verus! {

/// What `str::to_lowercase` gives for a text: its Unicode lowercase mapping, which
/// depends on the text alone (no locale is consulted).
pub uninterp spec fn lowercase_of(s: Seq<char>) -> Seq<char>;

/// Calls `str::to_lowercase`. Claimed: the result's text is `lowercase_of` the argument's
/// text. Nothing is claimed of what that mapping does to any character.
#[verifier::external_body]
pub(crate) fn to_lowercase(s: &str) -> (r: String)
    ensures
        r@ == lowercase_of(s@),
{
    s.to_lowercase()
}

/// What a `flate2::write::GzEncoder` made with `GzEncoder::new(Vec::new(), Compression::default())`
/// writes for `data` once `finish` is called: a gzip member (fixed header, no time stamp,
/// operating system byte 255) holding `data` deflated at the default level.
pub uninterp spec fn gzip_of(data: Seq<u8>) -> Seq<u8>;

/// Compresses `data` with flate2: `GzEncoder::new` over an empty `Vec`, `write_all` of `data`,
/// then `finish`. Claimed: the bytes are `gzip_of(data)`, and the calls succeed. In flate2's
/// source the only errors of these calls come from writing to the inner writer, which is a
/// `Vec` whose writes never fail, or from the compressor rejecting an out-of-order flush, which
/// this sequence of calls never makes.
#[verifier::external_body]
pub(crate) fn gzip(data: &[u8]) -> (r: Vec<u8>)
    ensures
        r@ == gzip_of(data@),
{
    let mut encoder = flate2::write::GzEncoder::new(Vec::new(), flate2::Compression::default());
    std::io::Write::write_all(&mut encoder, data).unwrap();
    encoder.finish().unwrap()
}

/// What `mime_guess::from_path(path).first_or_octet_stream().essence_str()` gives: the media
/// type (without parameters) that mime_guess's table lists first for the extension of `path`,
/// or `application/octet-stream` where it lists none. It depends on `path` alone.
pub uninterp spec fn mime_essence_of(path: Seq<char>) -> Seq<char>;

/// Guesses a media type from a file path with mime_guess. Claimed: the result's text is
/// `mime_essence_of(path)`. Nothing is claimed of the table's contents.
#[verifier::external_body]
pub(crate) fn guess_mime(path: &str) -> (r: String)
    ensures
        r@ == mime_essence_of(path@),
{
    mime_guess::from_path(path).first_or_octet_stream().essence_str().to_string()
}

} // verus!
