//! The album-art thumbnail cache: content-addressed file names (the BLAKE3
//! hash of the image bytes in lowercase hex, plus `.png`) under a cache
//! directory, and the thumbnail itself (decoded, scaled to fit 256×256 and
//! encoded as PNG by the `image` crate).
//!
//! Whether the file already exists, and writing it, happen around these
//! functions.

use vstd::prelude::*;
use crate::paths::{join_spec, path_join};

verus! {

#[verifier::external_type_specification]
#[verifier::external_body]
pub struct ExImageError(image::ImageError);

/// The BLAKE3 digest of some bytes (32 bytes).
pub uninterp spec fn spec_blake3(data: Seq<u8>) -> Seq<u8>;

/// `blake3::hash`: the 32-byte BLAKE3 digest of `data`, a function of the
/// bytes alone.
#[verifier::external_body]
fn blake3_digest(data: &[u8]) -> (r: Vec<u8>)
    ensures
        r@ == spec_blake3(data@),
        r@.len() == 32,
{
    blake3::hash(data).as_bytes().to_vec()
}

/// Whether `image::load_from_memory` decodes these bytes (a function of the
/// bytes alone: the format is guessed from them and decoded with fixed
/// settings).
pub uninterp spec fn spec_image_decodes(bytes: Seq<u8>) -> bool;

/// The PNG file that `DynamicImage::thumbnail(max_w, max_h)` followed by
/// `write_to(.., ImageFormat::Png)` gives for the image these bytes decode
/// to, or `None` where encoding fails (a function of the bytes and bounds
/// alone).
pub uninterp spec fn spec_thumbnail_png(bytes: Seq<u8>, max_w: u32, max_h: u32) -> Option<Seq<u8>>;

/// `image::load_from_memory`, then `DynamicImage::thumbnail` and
/// `DynamicImage::write_to` with the PNG format into a byte buffer. The outer
/// `Err` is the decoding error, the inner result is the encoding. The claims
/// are only that decoding succeeds exactly where `spec_image_decodes` holds,
/// and that the encoded bytes, or the failure to encode, are what
/// `spec_thumbnail_png` names for the bytes and bounds; nothing is stated
/// of the pixels (scaled with floating point, keeping the aspect ratio) or
/// of the errors.
#[verifier::external_body]
fn thumbnail_png(bytes: &[u8], max_w: u32, max_h: u32) -> (r: Result<
    Result<Vec<u8>, image::ImageError>,
    image::ImageError,
>)
    ensures
        r is Ok <==> spec_image_decodes(bytes@),
        r matches Ok(Ok(png)) ==> spec_thumbnail_png(bytes@, max_w, max_h) == Some(png@),
        r matches Ok(Err(_)) ==> spec_thumbnail_png(bytes@, max_w, max_h) is None,
{
    match image::load_from_memory(bytes) {
        Ok(img) => {
            let mut buf = std::io::Cursor::new(Vec::new());
            match img.thumbnail(max_w, max_h).write_to(&mut buf, image::ImageFormat::Png) {
                Ok(()) => Ok(Ok(buf.into_inner())),
                Err(e) => Ok(Err(e)),
            }
        },
        Err(e) => Err(e),
    }
}

/// Largest thumbnail width and height.
pub const THUMB_SIZE: u32 = 256;

/// The lowercase hexadecimal digit for `n < 16`.
pub open spec fn hex_digit_spec(n: u8) -> char {
    if n < 10 {
        (48 + n) as char
    } else {
        (87 + n) as char
    }
}

/// Bytes in lowercase hexadecimal, two digits per byte, high nibble first.
pub open spec fn hex_lower(b: Seq<u8>) -> Seq<char>
    decreases b.len(),
{
    if b.len() == 0 {
        Seq::empty()
    } else {
        hex_lower(b.drop_last()) + seq![
            hex_digit_spec(b.last() / 16),
            hex_digit_spec(b.last() % 16),
        ]
    }
}

fn hex_digit(n: u8) -> (c: char)
    requires
        n < 16,
    ensures
        c == hex_digit_spec(n),
{
    if n < 10 {
        (48 + n) as char
    } else {
        (87 + n) as char
    }
}

/// Lowercase hexadecimal text of some bytes.
pub fn to_hex(bytes: &[u8]) -> (s: String)
    ensures
        s@ == hex_lower(bytes@),
{
    let mut s = String::new();
    let mut i: usize = 0;
    while i < bytes.len()
        invariant
            i <= bytes@.len(),
            s@ == hex_lower(bytes@.take(i as int)),
        decreases bytes@.len() - i,
    {
        let b = bytes[i];
        let hi = hex_digit(b / 16);
        let lo = hex_digit(b % 16);
        crate::text::push_char(&mut s, hi);
        crate::text::push_char(&mut s, lo);
        proof {
            assert(bytes@.take(i + 1).drop_last() =~= bytes@.take(i as int));
            assert(s@ =~= hex_lower(bytes@.take(i + 1)));
        }
        i = i + 1;
    }
    proof {
        assert(bytes@.take(bytes@.len() as int) =~= bytes@);
    }
    s
}

/// The cache file name for an image: its BLAKE3 hash in hex, then `.png`.
pub open spec fn thumb_file_name_spec(image_bytes: Seq<u8>) -> Seq<char> {
    hex_lower(spec_blake3(image_bytes)) + ".png"@
}

/// The cache file name for the image bytes.
pub fn thumb_file_name(image_bytes: &[u8]) -> (r: String)
    ensures
        r@ == thumb_file_name_spec(image_bytes@),
{
    let digest = blake3_digest(image_bytes);
    let mut name = to_hex(digest.as_slice());
    name.append(".png");
    name
}

/// Why a thumbnail could not be made.
#[derive(Debug)]
pub enum ArtError {
    /// The bytes could not be decoded as an image.
    Decode(image::ImageError),
    /// The thumbnail could not be encoded.
    Encode(image::ImageError),
}

/// Decode the image, scale it to fit 256×256 keeping its aspect ratio, and
/// encode the result as PNG. A decoding failure is reported as `Decode`, an
/// encoding failure as `Encode`; otherwise the PNG bytes are returned.
pub fn make_thumbnail_png(image_bytes: &[u8]) -> (r: Result<Vec<u8>, ArtError>)
    ensures
        (r matches Err(ArtError::Decode(_))) <==> !spec_image_decodes(image_bytes@),
        (r matches Err(ArtError::Encode(_))) <==> spec_image_decodes(image_bytes@)
            && spec_thumbnail_png(image_bytes@, THUMB_SIZE, THUMB_SIZE) is None,
        r matches Ok(png) ==> spec_thumbnail_png(image_bytes@, THUMB_SIZE, THUMB_SIZE) == Some(png@),
{
    match thumbnail_png(image_bytes, THUMB_SIZE, THUMB_SIZE) {
        Err(e) => Err(ArtError::Decode(e)),
        Ok(Err(e)) => Err(ArtError::Encode(e)),
        Ok(Ok(png)) => Ok(png),
    }
}

/// Content-addressed on-disk thumbnail cache for album art.
#[derive(Debug, Clone)]
pub struct ArtCache {
    dir: String,
}

impl ArtCache {
    /// The cache directory.
    pub closed spec fn dir_view(&self) -> Seq<char> {
        self.dir@
    }

    /// A cache rooted at `dir`.
    pub fn new(dir: String) -> (c: Self)
        ensures
            c.dir_view() == dir@,
    {
        ArtCache { dir }
    }

    /// The cache directory.
    pub fn dir(&self) -> (d: &str)
        ensures
            d@ == self.dir_view(),
    {
        self.dir.as_str()
    }

    /// Where the thumbnail of these image bytes is stored:
    /// `<dir>/<blake3-hex>.png`. Equal bytes always map to the same file.
    pub fn thumb_path(&self, image_bytes: &[u8]) -> (p: String)
        ensures
            p@ == join_spec(self.dir_view(), thumb_file_name_spec(image_bytes@)),
    {
        let name = thumb_file_name(image_bytes);
        path_join(self.dir.as_str(), name.as_str())
    }
}

/// Hex text is two digits per byte.
pub proof fn lemma_hex_len(b: Seq<u8>)
    ensures
        hex_lower(b).len() == 2 * b.len(),
    decreases b.len(),
{
    if b.len() > 0 {
        lemma_hex_len(b.drop_last());
    }
}

/// The cache is content-addressed: the same bytes give the same file, and
/// the file name is two hex digits per digest byte followed by `.png`.
pub proof fn lemma_thumb_name_shape(a: Seq<u8>, b: Seq<u8>)
    ensures
        a == b ==> thumb_file_name_spec(a) == thumb_file_name_spec(b),
        thumb_file_name_spec(a).len() == 2 * spec_blake3(a).len() + 4,
{
    lemma_hex_len(spec_blake3(a));
    reveal_strlit(".png");
}

} // verus!
