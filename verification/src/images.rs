//! Local WebP copies of remote images: which downloads are kept, where they go, and the
//! transcoding itself.
use vstd::prelude::*;
use crate::text::{append_text, chars_of, push_char};

verus! {

/// The largest image body, in bytes, that is transcoded.
pub const MAX_IMAGE_BYTES: usize = 5 * 1024 * 1024;

/// The WebP encoding of the image that `bytes` hold, when they decode as an image of a
/// format the decoder recognises.
pub uninterp spec fn webp_transcode(bytes: Seq<u8>) -> Option<Seq<u8>>;

pub open spec fn opt_bytes(r: Option<Vec<u8>>) -> Option<Seq<u8>> {
    match r {
        Some(v) => Some(v@),
        None => None,
    }
}

/// `image::load_from_memory` (format guessed from the bytes, then decoded) followed by
/// `DynamicImage::write_to` in `ImageFormat::WebP` into memory. The claim is that the result
/// is a function of the bytes alone, named `webp_transcode`; `None` when either call fails.
#[verifier::external_body]
fn transcode_webp(bytes: &[u8]) -> (r: Option<Vec<u8>>)
    ensures
        opt_bytes(r) == webp_transcode(bytes@),
{
    let img = match image::load_from_memory(bytes) {
        Ok(img) => img,
        Err(_) => return None,
    };
    let mut out = std::io::Cursor::new(Vec::new());
    match img.write_to(&mut out, image::ImageFormat::WebP) {
        Ok(()) => Some(out.into_inner()),
        Err(_) => None,
    }
}

/// A downloaded body is transcoded only up to `MAX_IMAGE_BYTES`.
pub fn image_body_accepted(len: usize) -> (r: bool)
    ensures
        r == (len <= 5 * 1024 * 1024),
{
    len <= MAX_IMAGE_BYTES
}

/// `s` with every `:` replaced by `_`.
pub open spec fn colons_to_underscores(s: Seq<char>) -> Seq<char> {
    s.map_values(|c: char| if c == ':' { '_' } else { c })
}

/// The file of the cached image `cache_key` (`"123"` for a character, `"s:123"` for a
/// subject) in directory `dir`.
pub fn cached_image_file_name(dir: &str, cache_key: &str) -> (r: String)
    ensures
        r@ == dir@ + "/"@ + colons_to_underscores(cache_key@) + ".webp"@,
{
    let mut out = String::new();
    append_text(&mut out, dir);
    append_text(&mut out, "/");
    let ghost head = out@;
    let cs = chars_of(cache_key);
    let mut i: usize = 0;
    while i < cs.len()
        invariant
            i <= cs@.len(),
            cs@ == cache_key@,
            out@ == head + colons_to_underscores(cs@.take(i as int)),
        decreases cs@.len() - i,
    {
        let c = cs[i];
        push_char(&mut out, if c == ':' { '_' } else { c });
        assert(colons_to_underscores(cs@.take(i + 1)) =~= colons_to_underscores(cs@.take(i as int)).push(
            if c == ':' { '_' } else { c },
        ));
        i = i + 1;
    }
    assert(cs@.take(cs@.len() as int) =~= cs@);
    append_text(&mut out, ".webp");
    out
}

/// What is written for the downloaded image `cache_key`: the file in `dir` and its WebP
/// bytes. `None` for a body over the size limit or one that does not decode.
pub fn webp_cache_entry(dir: &str, cache_key: &str, bytes: &[u8]) -> (r: Option<(String, Vec<u8>)>)
    ensures
        match r {
            Some((path, webp)) => bytes@.len() <= 5 * 1024 * 1024
                && webp_transcode(bytes@) == Some(webp@)
                && path@ == dir@ + "/"@ + colons_to_underscores(cache_key@) + ".webp"@,
            None => bytes@.len() > 5 * 1024 * 1024 || webp_transcode(bytes@) is None,
        },
{
    if !image_body_accepted(bytes.len()) {
        return None;
    }
    match transcode_webp(bytes) {
        Some(webp) => Some((cached_image_file_name(dir, cache_key), webp)),
        None => None,
    }
}

} // verus!
