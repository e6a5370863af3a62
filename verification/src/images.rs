//! Images attached to messages: shrinking them before they are sent to a
//! model, and what can be told about one. The decoding and encoding are the
//! `base64` and `image` crates'; what is done with their results is decided
//! here.
use vstd::prelude::*;

use base64::engine::general_purpose::STANDARD;
use base64::Engine;
use std::io::Cursor;

use crate::text::{owned, push_str, str_eq};

verus! {

broadcast use vstd::string::group_string_axioms;

/// How far images are shrunk: the largest width and height kept, and the
/// JPEG quality images are written with.
#[derive(Debug, Clone)]
pub struct ImageCompressConfig {
    pub max_width: u32,
    pub max_height: u32,
    pub jpeg_quality: u8,
}

impl Default for ImageCompressConfig {
    fn default() -> (r: Self)
        ensures
            r.max_width == 2048,
            r.max_height == 2048,
            r.jpeg_quality == 80,
    {
        ImageCompressConfig { max_width: 2048, max_height: 2048, jpeg_quality: 80 }
    }
}

/// An image after compression: its base64 data and type, its size before
/// and after in bytes, and whether it was rewritten.
#[derive(Debug, Clone)]
pub struct ImageCompressResult {
    pub data: String,
    pub mime_type: String,
    pub original_size: usize,
    pub compressed_size: usize,
    pub was_compressed: bool,
}

/// What can be told about an image: its size in pixels, its color layout,
/// and its size in bytes.
#[derive(Debug, Clone)]
pub struct ImageInfo {
    pub width: u32,
    pub height: u32,
    pub format: String,
    pub size_bytes: usize,
}

/// The formats an image is decoded from.
#[derive(Debug, Clone, Copy, PartialEq, Eq, Structural)]
pub enum ImageKind {
    Png,
    Jpeg,
    Gif,
    WebP,
    Bmp,
    Tiff,
}

/// The color layouts an image can have.
#[derive(Debug, Clone, Copy, PartialEq, Eq, Structural)]
pub enum ColorKind {
    Luma8,
    LumaA8,
    Rgb8,
    Rgba8,
    Luma16,
    LumaA16,
    Rgb16,
    Rgba16,
    Rgb32F,
    Rgba32F,
    Other,
}

/// Whether a MIME type is JPEG.
pub open spec fn is_jpeg(mime: Seq<char>) -> bool {
    mime == "image/jpeg"@ || mime == "image/jpg"@
}

/// The format an image of this MIME type is decoded as; PNG for a type
/// not known.
pub open spec fn kind_of(mime: Seq<char>) -> ImageKind {
    if mime == "image/png"@ {
        ImageKind::Png
    } else if is_jpeg(mime) {
        ImageKind::Jpeg
    } else if mime == "image/gif"@ {
        ImageKind::Gif
    } else if mime == "image/webp"@ {
        ImageKind::WebP
    } else if mime == "image/bmp"@ {
        ImageKind::Bmp
    } else if mime == "image/tiff"@ {
        ImageKind::Tiff
    } else {
        ImageKind::Png
    }
}

/// The name of a color layout.
pub open spec fn color_name(k: ColorKind) -> Seq<char> {
    match k {
        ColorKind::Luma8 => "grayscale"@,
        ColorKind::LumaA8 => "grayscale-alpha"@,
        ColorKind::Rgb8 => "rgb"@,
        ColorKind::Rgba8 => "rgba"@,
        ColorKind::Luma16 => "grayscale16"@,
        ColorKind::LumaA16 => "grayscale-alpha16"@,
        ColorKind::Rgb16 => "rgb16"@,
        ColorKind::Rgba16 => "rgba16"@,
        ColorKind::Rgb32F => "rgb32f"@,
        ColorKind::Rgba32F => "rgba32f"@,
        ColorKind::Other => "unknown"@,
    }
}

/// Images smaller than this many bytes are sent as they are.
pub open spec fn small_image_limit() -> nat {
    50 * 1024
}

/// The format an image of this MIME type is decoded as.
pub fn kind_of_mime_type(mime: &str) -> (r: ImageKind)
    ensures
        r == kind_of(mime@),
{
    if str_eq(mime, "image/png") {
        ImageKind::Png
    } else if str_eq(mime, "image/jpeg") || str_eq(mime, "image/jpg") {
        ImageKind::Jpeg
    } else if str_eq(mime, "image/gif") {
        ImageKind::Gif
    } else if str_eq(mime, "image/webp") {
        ImageKind::WebP
    } else if str_eq(mime, "image/bmp") {
        ImageKind::Bmp
    } else if str_eq(mime, "image/tiff") {
        ImageKind::Tiff
    } else {
        ImageKind::Png
    }
}

/// The name of a color layout.
pub fn color_format_name(k: ColorKind) -> (r: String)
    ensures
        r@ == color_name(k),
{
    match k {
        ColorKind::Luma8 => owned("grayscale"),
        ColorKind::LumaA8 => owned("grayscale-alpha"),
        ColorKind::Rgb8 => owned("rgb"),
        ColorKind::Rgba8 => owned("rgba"),
        ColorKind::Luma16 => owned("grayscale16"),
        ColorKind::LumaA16 => owned("grayscale-alpha16"),
        ColorKind::Rgb16 => owned("rgb16"),
        ColorKind::Rgba16 => owned("rgba16"),
        ColorKind::Rgb32F => owned("rgb32f"),
        ColorKind::Rgba32F => owned("rgba32f"),
        ColorKind::Other => owned("unknown"),
    }
}

/// `image::DynamicImage`, carried between the calls below.
#[verifier::external_type_specification]
#[verifier::external_body]
pub struct ExDynamicImage(image::DynamicImage);

/// The name of what `base64`'s standard engine reads from a text: the
/// bytes, or the text of its error.
pub uninterp spec fn base64_decoded(text: Seq<char>) -> Result<Seq<u8>, Seq<char>>;

/// The name of the text `base64`'s standard engine writes for bytes.
pub uninterp spec fn base64_encoded(bytes: Seq<u8>) -> Seq<char>;

/// The name of the size in pixels that `image::ImageReader` reads from
/// bytes, its format guessed from their start; on failure, whether the
/// guess failed (`true`) or reading the size did, and the error's text.
pub uninterp spec fn probed_dimensions(bytes: Seq<u8>) -> Result<(u32, u32), (bool, Seq<char>)>;

/// `STANDARD.decode`: the bytes a base64 text stands for, or the text of
/// the error; claimed to be `base64_decoded` of the text.
#[verifier::external_body]
fn decode_base64(text: &str) -> (r: Result<Vec<u8>, String>)
    ensures
        match base64_decoded(text@) {
            Ok(b) => r matches Ok(v) && v@ == b,
            Err(e) => r matches Err(m) && m@ == e,
        },
{
    STANDARD.decode(text).map_err(|e| e.to_string())
}

/// `STANDARD.encode`: the base64 text of bytes; claimed to be
/// `base64_encoded` of them.
#[verifier::external_body]
fn encode_base64(bytes: &[u8]) -> (r: String)
    ensures
        r@ == base64_encoded(bytes@),
{
    STANDARD.encode(bytes)
}

/// `ImageReader::new(..).with_guessed_format()` then `into_dimensions()`:
/// the size of the image in `bytes`; claimed to be `probed_dimensions` of
/// them. The guess reads only the bytes (no format hooks are registered
/// here).
#[verifier::external_body]
fn probe_dimensions(bytes: &[u8]) -> (r: Result<(u32, u32), (bool, String)>)
    ensures
        match probed_dimensions(bytes@) {
            Ok(d) => r == Ok::<(u32, u32), (bool, String)>(d),
            Err((stage, e)) => r matches Err((s, m)) && s == stage && m@ == e,
        },
{
    match image::ImageReader::new(Cursor::new(bytes)).with_guessed_format() {
        Ok(reader) => reader.into_dimensions().map_err(|e| (false, e.to_string())),
        Err(e) => Err((true, e.to_string())),
    }
}

/// The name of what `image::load_from_memory_with_format` decodes from
/// bytes as a format: the image, or the text of the error.
pub uninterp spec fn image_loaded_as(bytes: Seq<u8>, kind: ImageKind) -> Result<image::DynamicImage, Seq<char>>;

/// The name of what `image::load_from_memory` decodes from bytes, its
/// format guessed from them: the image, or the text of the error.
pub uninterp spec fn image_loaded(bytes: Seq<u8>) -> Result<image::DynamicImage, Seq<char>>;

/// The name of the image `DynamicImage::resize` with the Catmull-Rom
/// filter gives for these bounds.
pub uninterp spec fn image_resized(img: image::DynamicImage, max_width: u32, max_height: u32) -> image::DynamicImage;

/// The name of what a `JpegEncoder` of this quality writes for an image:
/// the bytes, or the text of the error.
pub uninterp spec fn jpeg_encoded(img: image::DynamicImage, quality: u8) -> Result<Seq<u8>, Seq<char>>;

/// The name of an image's width and height.
pub uninterp spec fn image_size(img: image::DynamicImage) -> (u32, u32);

/// The name of an image's color layout, by the variant of `DynamicImage`.
pub uninterp spec fn image_color(img: image::DynamicImage) -> ColorKind;

/// `image::load_from_memory_with_format`: the image decoded from `bytes`
/// as `kind`, or the text of the error; claimed to be `image_loaded_as` of
/// them.
#[verifier::external_body]
fn load_image_as(bytes: &[u8], kind: ImageKind) -> (r: Result<image::DynamicImage, String>)
    ensures
        match image_loaded_as(bytes@, kind) {
            Ok(i) => r matches Ok(x) && x == i,
            Err(e) => r matches Err(m) && m@ == e,
        },
{
    let format = match kind {
        ImageKind::Png => image::ImageFormat::Png,
        ImageKind::Jpeg => image::ImageFormat::Jpeg,
        ImageKind::Gif => image::ImageFormat::Gif,
        ImageKind::WebP => image::ImageFormat::WebP,
        ImageKind::Bmp => image::ImageFormat::Bmp,
        ImageKind::Tiff => image::ImageFormat::Tiff,
    };
    image::load_from_memory_with_format(bytes, format).map_err(|e| e.to_string())
}

/// `image::load_from_memory`: the image decoded from `bytes`, its format
/// guessed, or the text of the error; claimed to be `image_loaded` of them.
/// The guess reads only the bytes (no format hooks are registered here).
#[verifier::external_body]
fn load_image(bytes: &[u8]) -> (r: Result<image::DynamicImage, String>)
    ensures
        match image_loaded(bytes@) {
            Ok(i) => r matches Ok(x) && x == i,
            Err(e) => r matches Err(m) && m@ == e,
        },
{
    image::load_from_memory(bytes).map_err(|e| e.to_string())
}

/// `DynamicImage::resize` with the Catmull-Rom filter: the image scaled to
/// fit `max_width` by `max_height`, its aspect kept; claimed to be
/// `image_resized` of them.
#[verifier::external_body]
fn resize_image(img: &image::DynamicImage, max_width: u32, max_height: u32) -> (r: image::DynamicImage)
    ensures
        r == image_resized(*img, max_width, max_height),
{
    img.resize(max_width, max_height, image::imageops::FilterType::CatmullRom)
}

/// `DynamicImage::write_with_encoder` with a `JpegEncoder` of this quality:
/// the JPEG bytes, or the text of the error; claimed to be `jpeg_encoded`
/// of them.
#[verifier::external_body]
fn encode_jpeg(img: &image::DynamicImage, quality: u8) -> (r: Result<Vec<u8>, String>)
    ensures
        match jpeg_encoded(*img, quality) {
            Ok(b) => r matches Ok(v) && v@ == b,
            Err(e) => r matches Err(m) && m@ == e,
        },
{
    let mut out = Cursor::new(Vec::new());
    let encoder = image::codecs::jpeg::JpegEncoder::new_with_quality(&mut out, quality);
    match img.write_with_encoder(encoder) {
        Ok(()) => Ok(out.into_inner()),
        Err(e) => Err(e.to_string()),
    }
}

/// `GenericImageView::dimensions`: the image's width and height; claimed
/// to be `image_size` of it.
#[verifier::external_body]
fn image_dimensions(img: &image::DynamicImage) -> (r: (u32, u32))
    ensures
        r == image_size(*img),
{
    image::GenericImageView::dimensions(img)
}

/// The color layout of an image, by the variant of `DynamicImage`; claimed
/// to be `image_color` of it.
#[verifier::external_body]
fn color_kind(img: &image::DynamicImage) -> (r: ColorKind)
    ensures
        r == image_color(*img),
{
    match img {
        image::DynamicImage::ImageLuma8(_) => ColorKind::Luma8,
        image::DynamicImage::ImageLumaA8(_) => ColorKind::LumaA8,
        image::DynamicImage::ImageRgb8(_) => ColorKind::Rgb8,
        image::DynamicImage::ImageRgba8(_) => ColorKind::Rgba8,
        image::DynamicImage::ImageLuma16(_) => ColorKind::Luma16,
        image::DynamicImage::ImageLumaA16(_) => ColorKind::LumaA16,
        image::DynamicImage::ImageRgb16(_) => ColorKind::Rgb16,
        image::DynamicImage::ImageRgba16(_) => ColorKind::Rgba16,
        image::DynamicImage::ImageRgb32F(_) => ColorKind::Rgb32F,
        image::DynamicImage::ImageRgba32F(_) => ColorKind::Rgba32F,
        _ => ColorKind::Other,
    }
}

/// An image handed back as it came.
pub open spec fn kept(res: ImageCompressResult, data: Seq<char>, mime_type: Seq<char>, size: nat) -> bool {
    &&& res.data@ == data
    &&& res.mime_type@ == mime_type
    &&& res.original_size == size
    &&& res.compressed_size == size
    &&& !res.was_compressed
}

fn keep(data: String, mime_type: String, size: usize) -> (r: ImageCompressResult)
    ensures
        kept(r, data@, mime_type@, size as nat),
{
    ImageCompressResult { data, mime_type, original_size: size, compressed_size: size, was_compressed: false }
}

fn prefixed(prefix: &str, e: &str) -> (r: String)
    ensures
        r@ == prefix@ + e@,
{
    let mut out = owned(prefix);
    push_str(&mut out, e);
    out
}

/// Shrinks an image before it is sent: one under 50 KiB stays as it is;
/// otherwise its size is read, and a JPEG that fits the limits stays as
/// it is too; any other is decoded by its MIME type, scaled down where it
/// does not fit, and written as JPEG of the configured quality, unless that
/// is no smaller, when the original stays.
pub fn compress_image(base64_data: String, mime_type: String, config: Option<ImageCompressConfig>) -> (r: Result<
    ImageCompressResult,
    String,
>)
    ensures
        match base64_decoded(base64_data@) {
            Err(e) => r matches Err(m) && m@ == "Failed to decode base64: "@ + e,
            Ok(bytes) => if bytes.len() < small_image_limit() {
                r matches Ok(res) && kept(res, base64_data@, mime_type@, bytes.len())
            } else {
                match probed_dimensions(bytes) {
                    Err((true, e)) => r matches Err(m) && m@ == "Failed to read image format: "@ + e,
                    Err((false, e)) => r matches Err(m) && m@ == "Failed to read image dimensions: "@ + e,
                    Ok((w, h)) => {
                        let (mw, mh) = match config {
                            Some(c) => (c.max_width, c.max_height),
                            None => (2048u32, 2048u32),
                        };
                        let fits = w <= mw && h <= mh;
                        let quality = match config {
                            Some(c) => c.jpeg_quality,
                            None => 80u8,
                        };
                        if fits && is_jpeg(mime_type@) {
                            r matches Ok(res) && kept(res, base64_data@, mime_type@, bytes.len())
                        } else {
                            match image_loaded_as(bytes, kind_of(mime_type@)) {
                                Err(e) => r matches Err(m) && m@ == "Failed to load image: "@ + e,
                                Ok(img) => {
                                    let shown = if fits {
                                        img
                                    } else {
                                        image_resized(img, mw, mh)
                                    };
                                    match jpeg_encoded(shown, quality) {
                                        Err(e) => r matches Err(m) && m@ == "Failed to encode JPEG: "@ + e,
                                        Ok(out) => if out.len() >= bytes.len() {
                                            r matches Ok(res) && kept(res, base64_data@, mime_type@, bytes.len())
                                        } else {
                                            r matches Ok(res) && {
                                                &&& res.was_compressed
                                                &&& res.data@ == base64_encoded(out)
                                                &&& res.mime_type@ == "image/jpeg"@
                                                &&& res.original_size == bytes.len()
                                                &&& res.compressed_size == out.len()
                                            }
                                        },
                                    }
                                },
                            }
                        }
                    },
                }
            },
        },
{
    let config = match config {
        Some(c) => c,
        None => ImageCompressConfig::default(),
    };
    let input_bytes = match decode_base64(base64_data.as_str()) {
        Ok(b) => b,
        Err(e) => return Err(prefixed("Failed to decode base64: ", e.as_str())),
    };
    let original_size = input_bytes.len();
    if original_size < 50 * 1024 {
        return Ok(keep(base64_data, mime_type, original_size));
    }
    let jpeg = str_eq(mime_type.as_str(), "image/jpeg") || str_eq(mime_type.as_str(), "image/jpg");
    let (width, height) = match probe_dimensions(input_bytes.as_slice()) {
        Ok(d) => d,
        Err((true, e)) => return Err(prefixed("Failed to read image format: ", e.as_str())),
        Err((false, e)) => return Err(prefixed("Failed to read image dimensions: ", e.as_str())),
    };
    let needs_resize = width > config.max_width || height > config.max_height;
    if !needs_resize && jpeg {
        return Ok(keep(base64_data, mime_type, original_size));
    }
    let kind = kind_of_mime_type(mime_type.as_str());
    let img = match load_image_as(input_bytes.as_slice(), kind) {
        Ok(i) => i,
        Err(e) => {
            let m = prefixed("Failed to load image: ", e.as_str());
            assert(m@ == "Failed to load image: "@ + e@);
            return Err(m);
        },
    };
    let processed = if needs_resize {
        resize_image(&img, config.max_width, config.max_height)
    } else {
        img
    };
    let output = match encode_jpeg(&processed, config.jpeg_quality) {
        Ok(o) => o,
        Err(e) => {
            let m = prefixed("Failed to encode JPEG: ", e.as_str());
            assert(m@ == "Failed to encode JPEG: "@ + e@);
            return Err(m);
        },
    };
    let compressed_size = output.len();
    if compressed_size >= original_size {
        return Ok(keep(base64_data, mime_type, original_size));
    }
    let data = encode_base64(output.as_slice());
    Ok(ImageCompressResult {
        data,
        mime_type: owned("image/jpeg"),
        original_size,
        compressed_size,
        was_compressed: true,
    })
}

/// What can be told about a base64 image: its size in pixels and color
/// layout as decoded, and its size in bytes.
pub fn get_image_info(base64_data: String) -> (r: Result<ImageInfo, String>)
    ensures
        match base64_decoded(base64_data@) {
            Err(e) => r matches Err(m) && m@ == "Failed to decode base64: "@ + e,
            Ok(bytes) => match image_loaded(bytes) {
                Err(e) => r matches Err(m) && m@ == "Failed to load image: "@ + e,
                Ok(img) => r matches Ok(info) && (info.width, info.height) == image_size(img) && info.format@ == color_name(
                    image_color(img),
                ) && info.size_bytes == bytes.len(),
            },
        },
{
    let input_bytes = match decode_base64(base64_data.as_str()) {
        Ok(b) => b,
        Err(e) => return Err(prefixed("Failed to decode base64: ", e.as_str())),
    };
    let img = match load_image(input_bytes.as_slice()) {
        Ok(i) => i,
        Err(e) => {
            let m = prefixed("Failed to load image: ", e.as_str());
            assert(m@ == "Failed to load image: "@ + e@);
            return Err(m);
        },
    };
    let (width, height) = image_dimensions(&img);
    let kind = color_kind(&img);
    let format = color_format_name(kind);
    Ok(ImageInfo { width, height, format, size_bytes: input_bytes.len() })
}

} // verus!
