use crate::cover::{detected_format, format_of_path, CoverFormat};
use crate::text::{append_chars, chars_of, string_of};
use base64::Engine;
use vstd::prelude::*;

verus! {

/// The text that the standard base64 alphabet, with padding, gives for
/// `bytes`, as the `base64` crate's `STANDARD` engine encodes them.
pub uninterp spec fn base64_standard(bytes: Seq<u8>) -> Seq<char>;

/// Calls `Engine::encode` of `base64::engine::general_purpose::STANDARD`. The
/// contract only names the result. The call panics where the length of the
/// encoded text does not fit; no vector is that long.
#[verifier::external_body]
fn encode_base64(content: &Vec<u8>) -> (r: String)
    requires
        content@.len() <= isize::MAX,
    ensures
        r@ == base64_standard(content@),
{
    base64::engine::general_purpose::STANDARD.encode(content)
}

/// The media type of an image of the given format; an image of unknown format
/// is taken for a JPEG.
pub open spec fn mime_of_format(format: Option<CoverFormat>) -> Seq<char> {
    match format {
        Some(CoverFormat::JPG) => "image/jpeg"@,
        Some(CoverFormat::PNG) => "image/png"@,
        Some(CoverFormat::BMP) => "image/bmp"@,
        Some(CoverFormat::WebP) => "image/webp"@,
        None => "image/jpeg"@,
    }
}

/// The data URL of content of the media type `mime` whose base64 text is
/// `encoded`.
pub open spec fn data_url(mime: Seq<char>, encoded: Seq<char>) -> Seq<char> {
    "data:"@ + mime + ";base64,"@ + encoded
}

/// The media type of the image at `path`, told by its extension.
pub fn mime_type_of(path: &str) -> (r: String)
    ensures
        r@ == mime_of_format(detected_format(path@)),
{
    match format_of_path(path) {
        Some(CoverFormat::JPG) => "image/jpeg".to_string(),
        Some(CoverFormat::PNG) => "image/png".to_string(),
        Some(CoverFormat::BMP) => "image/bmp".to_string(),
        Some(CoverFormat::WebP) => "image/webp".to_string(),
        None => "image/jpeg".to_string(),
    }
}

/// The data URL of content of the media type `mime` whose base64 text is
/// `encoded`.
pub fn assemble_data_url(mime: &str, encoded: &str) -> (r: String)
    ensures
        r@ == data_url(mime@, encoded@),
{
    let mut out = chars_of("data:");
    append_chars(&mut out, &chars_of(mime));
    append_chars(&mut out, &chars_of(";base64,"));
    append_chars(&mut out, &chars_of(encoded));
    string_of(&out)
}

/// The data URL of the image at `path` with the bytes `content`.
pub fn image_data_url(path: &str, content: &Vec<u8>) -> (r: String)
    requires
        content@.len() <= isize::MAX,
    ensures
        r@ == data_url(mime_of_format(detected_format(path@)), base64_standard(content@)),
{
    let mime = mime_type_of(path);
    let encoded = encode_base64(content);
    assemble_data_url(mime.as_str(), encoded.as_str())
}

} // verus!
