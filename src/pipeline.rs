//! Decoding into the cache, and the Lanczos resize pipeline that turns an
//! RGBA8 buffer into a PNG data URI of the requested size.
use crate::cache::{
    get_step, lemma_rgba_len_fits, put_step, rgba_len_ok, CachedImage, ImageCache, ImageView,
};
use std::sync::Arc;
use base64::Engine;
use std::io::Cursor;
use vstd::prelude::*;
use vstd::string::StringExecFns;

verus! {

/// Why a decode or a resize failed. `Io` is for the host that reads files;
/// the others come with the outside library's message where there is one.
pub enum ImageFailure {
    /// The file could not be opened or read.
    Io(String),
    /// The bytes are not an image in a recognised format, or a pixel buffer
    /// does not match its dimensions.
    Decode(String),
    /// The resampled image could not be serialised.
    Encode(String),
    /// The requested dimensions do not fit in this machine's memory model.
    TooLarge,
}

/// An image as it is sent to the frontend: its size and a copy of its pixels.
pub struct DecodedImage {
    pub width: u32,
    pub height: u32,
    pub data: Vec<u8>,
}

/// The result of a resize: the size asked for, and the image as a PNG data URI.
pub struct ResizedImage {
    pub width: u32,
    pub height: u32,
    pub data: String,
}

/// What `image::load_from_memory` followed by `to_rgba8` makes of `bytes`:
/// `None` when they are not an image it can decode.
pub uninterp spec fn rgba_decoding_of(bytes: Seq<u8>) -> Option<ImageView>;

/// The PNG encoding of `img`: `None` when the encoder refuses it.
pub uninterp spec fn png_encoding_of(img: ImageView) -> Option<Seq<u8>>;

/// The character of the standard base64 alphabet for a six-bit value.
pub open spec fn base64_digit(v: int) -> char {
    if v < 26 {
        ((65 + v) as u8) as char
    } else if v < 52 {
        ((97 + v - 26) as u8) as char
    } else if v < 62 {
        ((48 + v - 52) as u8) as char
    } else if v == 62 {
        '+'
    } else {
        '/'
    }
}

/// The standard, padded base64 encoding of `bytes`: each group of three
/// bytes becomes four characters; a final group of one or two bytes is
/// padded with `=`.
pub open spec fn base64_of(bytes: Seq<u8>) -> Seq<char>
    decreases bytes.len(),
{
    if bytes.len() == 0 {
        Seq::empty()
    } else if bytes.len() == 1 {
        let x = bytes[0] as int;
        seq![base64_digit(x / 4), base64_digit((x % 4) * 16), '=', '=']
    } else if bytes.len() == 2 {
        let x = bytes[0] as int;
        let y = bytes[1] as int;
        seq![base64_digit(x / 4), base64_digit((x % 4) * 16 + y / 16), base64_digit((y % 16) * 4), '=']
    } else {
        let x = bytes[0] as int;
        let y = bytes[1] as int;
        let z = bytes[2] as int;
        seq![
            base64_digit(x / 4),
            base64_digit((x % 4) * 16 + y / 16),
            base64_digit((y % 16) * 4 + z / 64),
            base64_digit(z % 64),
        ] + base64_of(bytes.subrange(3, bytes.len() as int))
    }
}

/// Relies on `image::load_from_memory` and `DynamicImage::to_rgba8`: the
/// format is guessed from the bytes, and the result, which depends on the
/// bytes alone, holds four bytes per pixel.
#[verifier::external_body]
fn load_rgba(bytes: &[u8]) -> (r: Result<(u32, u32, Vec<u8>), String>)
    ensures
        match r {
            Ok((w, h, px)) => rgba_decoding_of(bytes@) == Some(
                ImageView { width: w, height: h, pixels: px@ },
            ) && px@.len() == 4 * (w as int) * (h as int),
            Err(_) => rgba_decoding_of(bytes@) is None,
        },
{
    match image::load_from_memory(bytes) {
        Ok(img) => {
            let rgba = img.to_rgba8();
            let (w, h) = rgba.dimensions();
            Ok((w, h, rgba.into_raw()))
        },
        Err(e) => Err(e.to_string()),
    }
}

/// Relies on `image::imageops::resize` with `FilterType::Lanczos3`: the output
/// buffer has exactly the target dimensions. Its pixel values come from
/// floating-point arithmetic whose precision std leaves unspecified, so
/// nothing is said of them. `resize` allocates a buffer of
/// `width * target_height` and one of `target_width * target_height` pixels,
/// and panics when a length overflows.
#[verifier::external_body]
fn resample_lanczos3(pixels: &Vec<u8>, width: u32, height: u32, tw: u32, th: u32) -> (r: Vec<u8>)
    requires
        pixels@.len() == 4 * (width as int) * (height as int),
        4 * (width as int) * (th as int) <= usize::MAX,
        4 * (tw as int) * (th as int) <= usize::MAX,
    ensures
        r@.len() == 4 * (tw as int) * (th as int),
{
    let src = image::ImageBuffer::<image::Rgba<u8>, &[u8]>::from_raw(width, height, pixels.as_slice())
        .unwrap();
    image::imageops::resize(&src, tw, th, image::imageops::FilterType::Lanczos3).into_raw()
}

/// Relies on `ImageBuffer::write_to` with `ImageFormat::Png`, writing into
/// memory: the bytes depend on the image alone. The png encoder refuses a
/// zero width or height and nothing else for RGBA8; it starts its output with
/// the PNG signature. A `Vec` holds at most `isize::MAX` bytes.
#[verifier::external_body]
fn write_png(pixels: &Vec<u8>, width: u32, height: u32) -> (r: Result<Vec<u8>, String>)
    requires
        pixels@.len() == 4 * (width as int) * (height as int),
    ensures
        match r {
            Ok(b) => png_encoding_of(ImageView { width, height, pixels: pixels@ }) == Some(b@),
            Err(_) => png_encoding_of(ImageView { width, height, pixels: pixels@ }) is None,
        },
        r.is_ok() == (width > 0 && height > 0),
        r matches Ok(b) ==> 0 < b@.len() <= isize::MAX,
{
    let img = image::ImageBuffer::<image::Rgba<u8>, &[u8]>::from_raw(width, height, pixels.as_slice())
        .unwrap();
    let mut buffer = Cursor::new(Vec::new());
    match img.write_to(&mut buffer, image::ImageFormat::Png) {
        Ok(()) => Ok(buffer.into_inner()),
        Err(e) => Err(e.to_string()),
    }
}

/// Whether the padded base64 encoding of `n` bytes has a length that fits.
pub open spec fn base64_fits(n: nat) -> bool {
    4 * ((n + 2) / 3) <= usize::MAX
}

/// Relies on `base64::Engine::encode` with the `STANDARD` engine: padded
/// output, four characters for every three bytes or part of three. It panics
/// when that length overflows.
#[verifier::external_body]
fn encode_base64(bytes: &Vec<u8>) -> (r: String)
    requires
        base64_fits(bytes@.len()),
    ensures
        r@ == base64_of(bytes@),
        r@.len() == 4 * ((bytes@.len() + 2) / 3),
{
    base64::engine::general_purpose::STANDARD.encode(bytes)
}

/// The data URI that carries PNG bytes.
pub open spec fn data_uri_of(png: Seq<u8>) -> Seq<char> {
    "data:image/png;base64,"@ + base64_of(png)
}

/// What serialising `img` yields: its data URI, or `None` when it cannot be
/// serialised.
pub open spec fn encode_outcome(img: ImageView) -> Option<Seq<char>> {
    match png_encoding_of(img) {
        Some(png) => if base64_fits(png.len()) {
            Some(data_uri_of(png))
        } else {
            None
        },
        None => None,
    }
}

/// Serialises an RGBA8 image as a PNG data URI.
pub fn image_to_base64(pixels: &Vec<u8>, width: u32, height: u32) -> (r: Result<String, ImageFailure>)
    requires
        pixels@.len() == 4 * (width as int) * (height as int),
    ensures
        match r {
            Ok(s) => encode_outcome(ImageView { width, height, pixels: pixels@ }) == Some(s@),
            Err(e) => e is Encode && encode_outcome(
                ImageView { width, height, pixels: pixels@ },
            ) is None,
        },
        r is Ok <==> width > 0 && height > 0,
        r matches Ok(s) ==> s@.len() > "data:image/png;base64,"@.len(),
{
    let png = match write_png(pixels, width, height) {
        Ok(b) => b,
        Err(msg) => {
            return Err(ImageFailure::Encode(msg));
        },
    };
    proof {
        assert(base64_fits(png@.len())) by {
            assert(png@.len() <= isize::MAX);
        }
    }
    let b64 = encode_base64(&png);
    let mut out = String::from_str("data:image/png;base64,");
    out.append(b64.as_str());
    Ok(out)
}

/// Whether the buffers of a resize from `width` by `height` to `tw` by `th`
/// have lengths that fit.
pub open spec fn resize_fits(width: u32, height: u32, tw: u32, th: u32) -> bool {
    4 * (width as int) * (th as int) <= usize::MAX && 4 * (tw as int) * (th as int) <= usize::MAX
}

/// Whether `data` is the serialisation of some `tw` by `th` RGBA8 image:
/// a data URI with a non-empty payload.
pub open spec fn encodes_some_image(tw: u32, th: u32, data: Seq<char>) -> bool {
    &&& exists|buf: Seq<u8>|
        buf.len() == 4 * (tw as int) * (th as int) && #[trigger] encode_outcome(
            ImageView { width: tw, height: th, pixels: buf },
        ) == Some(data)
    &&& data.len() > "data:image/png;base64,"@.len()
}

/// What a resize of `src` to `tw` by `th` returns: an error when the buffer
/// does not match its dimensions or the buffers would not fit, an encoding
/// error for an empty target; otherwise a result of exactly the target size,
/// whatever the source's aspect ratio, holding the serialisation of a
/// `tw` by `th` image.
pub open spec fn resize_meets(
    src: ImageView,
    tw: u32,
    th: u32,
    r: Result<ResizedImage, ImageFailure>,
) -> bool {
    if !rgba_len_ok(src) {
        r matches Err(ImageFailure::Decode(_))
    } else if !resize_fits(src.width, src.height, tw, th) {
        r matches Err(ImageFailure::TooLarge)
    } else if tw == 0 || th == 0 {
        r matches Err(ImageFailure::Encode(_))
    } else {
        r matches Ok(o) && o.width == tw && o.height == th && encodes_some_image(tw, th, o.data@)
    }
}

/// The serialising half of a resize: wraps a resampled `tw` by `th` buffer
/// as the result sent to the frontend.
pub fn encode_resized(buf: &Vec<u8>, tw: u32, th: u32) -> (r: Result<ResizedImage, ImageFailure>)
    requires
        buf@.len() == 4 * (tw as int) * (th as int),
    ensures
        match r {
            Ok(o) => o.width == tw && o.height == th && encode_outcome(
                ImageView { width: tw, height: th, pixels: buf@ },
            ) == Some(o.data@),
            Err(e) => e is Encode && encode_outcome(
                ImageView { width: tw, height: th, pixels: buf@ },
            ) is None,
        },
        r is Ok <==> tw > 0 && th > 0,
        r matches Ok(o) ==> o.data@.len() > "data:image/png;base64,"@.len(),
{
    match image_to_base64(buf, tw, th) {
        Ok(data) => Ok(ResizedImage { width: tw, height: th, data }),
        Err(e) => Err(e),
    }
}

/// Resamples an RGBA8 buffer of `width` by `height` pixels to `target_width`
/// by `target_height` with a Lanczos filter, and serialises the result.
pub fn resize_rgba(
    pixels: &Vec<u8>,
    width: u32,
    height: u32,
    target_width: u32,
    target_height: u32,
) -> (r: Result<ResizedImage, ImageFailure>)
    ensures
        resize_meets(ImageView { width, height, pixels: pixels@ }, target_width, target_height, r),
        r matches Ok(o) ==> o.width == target_width && o.height == target_height,
{
    proof {
        lemma_rgba_len_fits(width, height);
        lemma_rgba_len_fits(width, target_height);
        lemma_rgba_len_fits(target_width, target_height);
    }
    let src_len: u128 = 4u128 * (width as u128) * (height as u128);
    if pixels.len() as u128 != src_len {
        return Err(
            ImageFailure::Decode(String::from_str("pixel buffer does not match its dimensions")),
        );
    }
    let mid_len: u128 = 4u128 * (width as u128) * (target_height as u128);
    let out_len: u128 = 4u128 * (target_width as u128) * (target_height as u128);
    if mid_len > usize::MAX as u128 || out_len > usize::MAX as u128 {
        return Err(ImageFailure::TooLarge);
    }
    let resized = resample_lanczos3(pixels, width, height, target_width, target_height);
    let r = encode_resized(&resized, target_width, target_height);
    proof {
        if r is Ok {
            let w = ImageView { width: target_width, height: target_height, pixels: resized@ };
            assert(encode_outcome(w) == Some(r->Ok_0.data@));
        }
    }
    r
}

/// Decodes the bytes of an image file, in any format the decoder recognises,
/// into an RGBA8 image.
pub fn decode_bytes(bytes: &[u8]) -> (r: Result<CachedImage, ImageFailure>)
    ensures
        match rgba_decoding_of(bytes@) {
            Some(v) => r matches Ok(img) && img@ == v && rgba_len_ok(v),
            None => r matches Err(ImageFailure::Decode(_)),
        },
{
    match load_rgba(bytes) {
        Ok((w, h, px)) => Ok(CachedImage { width: w, height: h, pixels: Arc::new(px) }),
        Err(msg) => Err(ImageFailure::Decode(msg)),
    }
}

/// The decode service on a cache miss: decodes the bytes read from `path`
/// and, on success, stores the image in the cache under `path` (evicting as
/// the cache's policy says) and returns a shared handle on it. On failure
/// the cache is left untouched.
pub fn decode_image(cache: &mut ImageCache, path: &str, file_bytes: &[u8]) -> (r: Result<
    CachedImage,
    ImageFailure,
>)
    ensures
        match rgba_decoding_of(file_bytes@) {
            Some(v) => r matches Ok(img) && img@ == v && rgba_len_ok(v) && final(cache)@ == put_step(
                old(cache)@,
                path@,
                v,
            ),
            None => r matches Err(ImageFailure::Decode(_)) && final(cache)@ == old(cache)@,
        },
{
    match decode_bytes(file_bytes) {
        Ok(img) => {
            let stored = img.share();
            cache.put(path, stored);
            Ok(img)
        },
        Err(e) => Err(e),
    }
}

/// The decode service on a lookup: a hit returns a copy of the cached pixels
/// for the frontend, marks the entry most recently used, and reads no file.
pub fn lookup_decoded(cache: &mut ImageCache, path: &str) -> (r: Option<DecodedImage>)
    ensures
        final(cache)@ == get_step(old(cache)@, path@).0,
        match get_step(old(cache)@, path@).1 {
            Some(v) => r matches Some(d) && d.width == v.width && d.height == v.height && d.data@
                == v.pixels,
            None => r is None,
        },
{
    match cache.get(path) {
        Some(img) => Some(DecodedImage::from_cached(&img)),
        None => None,
    }
}

impl DecodedImage {
    /// A copy of a cached image, for sending away.
    pub fn from_cached(img: &CachedImage) -> (r: DecodedImage)
        ensures
            r.width == img.width,
            r.height == img.height,
            r.data@ == img.pixels@,
    {
        let src: &Vec<u8> = &*img.pixels;
        let mut data: Vec<u8> = Vec::new();
        let mut i: usize = 0;
        while i < src.len()
            invariant
                i <= src@.len(),
                data@ == src@.subrange(0, i as int),
            decreases src@.len() - i,
        {
            data.push(src[i]);
            i = i + 1;
            assert(data@ =~= src@.subrange(0, i as int));
        }
        assert(src@.subrange(0, src@.len() as int) =~= src@);
        DecodedImage { width: img.width, height: img.height, data }
    }
}

/// The resize pipeline from the bytes of an image file: decode, then
/// resample and serialise as `resize_rgba` does.
pub fn resize_image(file_bytes: &[u8], target_width: u32, target_height: u32) -> (r: Result<
    ResizedImage,
    ImageFailure,
>)
    ensures
        match rgba_decoding_of(file_bytes@) {
            None => r matches Err(ImageFailure::Decode(_)),
            Some(v) => rgba_len_ok(v) && resize_meets(v, target_width, target_height, r),
        },
        r matches Ok(o) ==> o.width == target_width && o.height == target_height,
{
    match load_rgba(file_bytes) {
        Ok((w, h, px)) => resize_rgba(&px, w, h, target_width, target_height),
        Err(msg) => Err(ImageFailure::Decode(msg)),
    }
}

} // verus!
