//! Image decoding, encoding and resizing, and the pipeline that caches what it
//! decodes.
use vstd::prelude::*;
use image::{ColorType, DynamicImage, ImageError, ImageFormat};
use crate::cache::{
    CacheIndexEntry, EntryView, ImageCache, LookupView, evicted_view, indexed_size, lookup_outcome, put_post_from,
};
use crate::panel::{GrayImage, GutterDetector, PanelRect, numbered_from, page_cells, panel_within};
use crate::text::owned;

verus! {

/// A decoded image of the `image` crate.
#[verifier::external_type_specification]
#[verifier::external_body]
pub struct ExDynamicImage(DynamicImage);

/// The color type of an image of the `image` crate.
#[verifier::external_type_specification]
#[verifier::external_body]
pub struct ExColorType(ColorType);

/// An error of the `image` crate.
#[verifier::external_type_specification]
#[verifier::external_body]
pub struct ExImageError(ImageError);

/// The image that `image::load_from_memory` decodes from `bytes`, or `None` where
/// decoding fails.
pub uninterp spec fn decoded_image(bytes: Seq<u8>) -> Option<DynamicImage>;

/// The width and height of an image (`DynamicImage::width`, `DynamicImage::height`).
pub uninterp spec fn image_size(img: DynamicImage) -> (u32, u32);

/// The color type of an image (`DynamicImage::color`).
pub uninterp spec fn image_color(img: DynamicImage) -> ColorType;

/// The luma pixel buffer of an image (`DynamicImage::to_luma8`, row by row).
pub uninterp spec fn luma_of(img: DynamicImage) -> Seq<u8>;

/// The PNG encoding of an image (`DynamicImage::write_to` with `ImageFormat::Png`),
/// or `None` where the encoder refuses it.
pub uninterp spec fn png_encoding(img: DynamicImage) -> Option<Seq<u8>>;

/// The lossless WebP encoding of an image (`DynamicImage::write_to` with
/// `ImageFormat::WebP`), or `None` where the encoder refuses it.
pub uninterp spec fn webp_encoding(img: DynamicImage) -> Option<Seq<u8>>;

/// The JPEG encoding of an image at a quality (`JpegEncoder::new_with_quality`),
/// or `None` where the encoder refuses it.
pub uninterp spec fn jpeg_encoding(img: DynamicImage, quality: u8) -> Option<Seq<u8>>;

/// The width and height of the image decoded from `bytes`, or `None` where
/// decoding fails.
pub open spec fn decoded_size(bytes: Seq<u8>) -> Option<(u32, u32)> {
    match decoded_image(bytes) {
        Some(img) => Some(image_size(img)),
        None => None,
    }
}

/// The name (the `Debug` form of `image::ImageFormat`) of the format that
/// `image::guess_format` recognizes by the leading bytes of `bytes`, or `None`
/// where it recognizes none.
pub uninterp spec fn guessed_format(bytes: Seq<u8>) -> Option<Seq<char>>;

/// `image::load_from_memory`: decodes `bytes`, guessing the format from their
/// content, and gives the image with its width and height. Whether decoding
/// succeeds, and the size, depend on the bytes alone.
#[verifier::external_body]
fn load_image(bytes: &[u8]) -> (r: Result<(DynamicImage, u32, u32), ImageError>)
    ensures
        match r {
            Ok((img, w, h)) => decoded_image(bytes@) == Some(img) && image_size(img) == (w, h),
            Err(_) => decoded_image(bytes@) is None,
        },
{
    match image::load_from_memory(bytes) {
        Ok(img) => {
            let (w, h) = (img.width(), img.height());
            Ok((img, w, h))
        },
        Err(e) => Err(e),
    }
}

/// `image::guess_format`: the format recognized by the leading bytes, by name.
#[verifier::external_body]
fn guess_format_name(bytes: &[u8]) -> (r: Option<String>)
    ensures
        match r {
            Some(n) => guessed_format(bytes@) == Some(n@),
            None => guessed_format(bytes@) is None,
        },
{
    match image::guess_format(bytes) {
        Ok(f) => Some(format!("{:?}", f)),
        Err(_) => None,
    }
}

/// The lossless formats the library encodes to with `write_to`.
enum EncodeFormat {
    Png,
    WebP,
}

/// A PNG stream: it starts with the eight-byte PNG signature.
pub open spec fn is_png_stream(b: Seq<u8>) -> bool {
    b.len() >= 8 && b.take(8) == seq![137u8, 80u8, 78u8, 71u8, 13u8, 10u8, 26u8, 10u8]
}

/// A JPEG stream: it starts with the start-of-image marker `FF D8`.
pub open spec fn is_jpeg_stream(b: Seq<u8>) -> bool {
    b.len() >= 2 && b[0] == 0xFFu8 && b[1] == 0xD8u8
}

/// A WebP stream: a RIFF container (`RIFF`, four size bytes) of type `WEBP`.
pub open spec fn is_webp_stream(b: Seq<u8>) -> bool {
    &&& b.len() >= 12
    &&& b.take(4) == seq![82u8, 73u8, 70u8, 70u8]
    &&& b.subrange(8, 12) == seq![87u8, 69u8, 66u8, 80u8]
}

/// `DynamicImage::write_to` into an empty in-memory buffer: the image's PNG or
/// lossless WebP encoding, which depends on the image alone. The PNG encoder
/// starts with the PNG signature, the WebP encoder with its RIFF/WEBP header.
#[verifier::external_body]
fn write_image(img: &DynamicImage, format: EncodeFormat) -> (r: Result<Vec<u8>, ImageError>)
    ensures
        match format {
            EncodeFormat::Png => match r {
                Ok(buf) => png_encoding(*img) == Some(buf@) && is_png_stream(buf@),
                Err(_) => png_encoding(*img) is None,
            },
            EncodeFormat::WebP => match r {
                Ok(buf) => webp_encoding(*img) == Some(buf@) && is_webp_stream(buf@),
                Err(_) => webp_encoding(*img) is None,
            },
        },
{
    let f = match format {
        EncodeFormat::Png => ImageFormat::Png,
        EncodeFormat::WebP => ImageFormat::WebP,
    };
    let mut buf: Vec<u8> = Vec::new();
    match img.write_to(&mut std::io::Cursor::new(&mut buf), f) {
        Ok(()) => Ok(buf),
        Err(e) => Err(e),
    }
}

/// `JpegEncoder::new_with_quality` used through `DynamicImage::write_with_encoder`
/// into an empty buffer: the image's JPEG encoding at `quality`, which depends on
/// the image and the quality alone; it starts with the start-of-image marker.
#[verifier::external_body]
fn write_jpeg(img: &DynamicImage, quality: u8) -> (r: Result<Vec<u8>, ImageError>)
    ensures
        match r {
            Ok(buf) => jpeg_encoding(*img, quality) == Some(buf@) && is_jpeg_stream(buf@),
            Err(_) => jpeg_encoding(*img, quality) is None,
        },
{
    let mut buf: Vec<u8> = Vec::new();
    let encoder = image::codecs::jpeg::JpegEncoder::new_with_quality(&mut buf, quality);
    match img.write_with_encoder(encoder) {
        Ok(()) => Ok(buf),
        Err(e) => Err(e),
    }
}

/// `DynamicImage::to_luma8`, as its width, height and pixel buffer; the buffer of an
/// image buffer holds at least `width * height` pixels.
#[verifier::external_body]
fn luma_pixels(img: &DynamicImage) -> (r: (u32, u32, Vec<u8>))
    ensures
        (r.0, r.1) == image_size(*img),
        r.2@ == luma_of(*img),
        r.2@.len() >= r.0 * r.1,
{
    let g = img.to_luma8();
    let (w, h) = g.dimensions();
    (w, h, g.into_raw())
}

/// The size `DynamicImage::resize` gives an image of size `size` fitted into
/// `max_width` x `max_height`: both sides scaled by the smaller of the two ratios
/// and rounded in floating point, each at least 1.
pub uninterp spec fn fitted_size(size: (u32, u32), max_width: u32, max_height: u32) -> (u32, u32);

/// Resize an image to fit within `max_width` x `max_height` while maintaining
/// aspect ratio (`DynamicImage::resize` with the Lanczos3 filter). An image of
/// exactly that size comes back as it is; otherwise the size is the fitted one,
/// each side at least 1 and, for a non-empty image and bounds, within the bounds
/// with one side reaching its bound; the color type is the source's. The resized pixels are the
/// resampler's and are not stated.
#[verifier::external_body]
pub fn resize_to_fit(img: &DynamicImage, max_width: u32, max_height: u32) -> (r: DynamicImage)
    ensures
        image_size(r) == if image_size(*img) == (max_width, max_height) {
            image_size(*img)
        } else {
            fitted_size(image_size(*img), max_width, max_height)
        },
        image_size(*img) != (max_width, max_height) ==> image_size(r).0 >= 1 && image_size(r).1 >= 1,
        image_size(*img) != (max_width, max_height) && image_size(*img).0 >= 1 && image_size(*img).1 >= 1
            && max_width >= 1 && max_height >= 1 ==> {
            &&& image_size(r).0 <= max_width
            &&& image_size(r).1 <= max_height
            &&& (image_size(r).0 == max_width || image_size(r).1 == max_height)
        },
        image_color(r) == image_color(*img),
{
    img.resize(max_width, max_height, image::imageops::FilterType::Lanczos3)
}

/// Resize an image to exact dimensions, stretching if necessary
/// (`DynamicImage::resize_exact` with the Lanczos3 filter): the result is `width` by
/// `height`, of the source's color type; its pixels are the resampler's and are not
/// stated.
#[verifier::external_body]
pub fn resize_exact(img: &DynamicImage, width: u32, height: u32) -> (r: DynamicImage)
    ensures
        image_size(r) == (width, height),
        image_color(r) == image_color(*img),
{
    img.resize_exact(width, height, image::imageops::FilterType::Lanczos3)
}

/// Decode an image from raw bytes (JPEG, PNG, WebP, GIF, BMP, TIFF, ...), guessing
/// the format from the content.
pub fn decode_from_bytes(bytes: &[u8]) -> (r: Result<DynamicImage, String>)
    ensures
        match r {
            Ok(img) => decoded_image(bytes@) == Some(img),
            Err(e) => decoded_image(bytes@) is None && e@ == "Failed to decode image from bytes"@,
        },
{
    match load_image(bytes) {
        Ok((img, _, _)) => Ok(img),
        Err(_) => Err(owned("Failed to decode image from bytes")),
    }
}

/// The image that `image::open` decodes from a file at `path` holding `bytes`: the
/// format is the one `path`'s extension names (`ImageFormat::from_path`), or `None`
/// where there is no such format or decoding fails.
pub uninterp spec fn decoded_as(path: Seq<char>, bytes: Seq<u8>) -> Option<DynamicImage>;

/// `ImageReader::with_format` over an in-memory reader of `bytes`, with the format
/// `ImageFormat::from_path` names for `path`, then `ImageReader::decode`: what
/// `image::open` does with the file's bytes.
#[verifier::external_body]
fn open_image(path: &str, bytes: &[u8]) -> (r: Result<DynamicImage, ImageError>)
    ensures
        match r {
            Ok(img) => decoded_as(path@, bytes@) == Some(img),
            Err(_) => decoded_as(path@, bytes@) is None,
        },
{
    match ImageFormat::from_path(path) {
        Ok(f) => image::ImageReader::with_format(std::io::Cursor::new(bytes), f).decode(),
        Err(e) => Err(e),
    }
}

/// Decode an image from a file: `bytes` are what the file at `path` holds, and the
/// format is the one the path's extension names.
pub fn decode_from_path(path: &str, bytes: &[u8]) -> (r: Result<DynamicImage, String>)
    ensures
        match r {
            Ok(img) => decoded_as(path@, bytes@) == Some(img),
            Err(e) => decoded_as(path@, bytes@) is None && e@ == "Failed to decode image from path"@,
        },
{
    match open_image(path, bytes) {
        Ok(img) => Ok(img),
        Err(_) => Err(owned("Failed to decode image from path")),
    }
}

/// The region of `img` at `(x, y)` of `width` by `height` pixels
/// (`DynamicImage::crop_imm`).
pub uninterp spec fn cropped(img: DynamicImage, x: u32, y: u32, width: u32, height: u32) -> DynamicImage;

/// `DynamicImage::width` and `DynamicImage::height`.
#[verifier::external_body]
fn image_dimensions(img: &DynamicImage) -> (r: (u32, u32))
    ensures
        r == image_size(*img),
{
    (img.width(), img.height())
}

/// `DynamicImage::crop_imm`: the region at `(x, y)` of `width` by `height`; a region
/// within the image comes out at that size and of the image's color type.
#[verifier::external_body]
fn crop_region(img: &DynamicImage, x: u32, y: u32, width: u32, height: u32) -> (r: DynamicImage)
    ensures
        r == cropped(*img, x, y, width, height),
        x + width <= image_size(*img).0 && y + height <= image_size(*img).1 ==> {
            &&& image_size(r) == (width, height)
            &&& image_color(r) == image_color(*img)
        },
{
    img.crop_imm(x, y, width, height)
}

/// Cut a panel out of its page: `None` where the panel does not lie within the page.
pub fn crop_panel(img: &DynamicImage, panel: &PanelRect) -> (c: Option<DynamicImage>)
    ensures
        c is Some <==> panel.x + panel.width <= image_size(*img).0 && panel.y + panel.height <= image_size(*img).1,
        c is Some ==> {
            &&& c->0 == cropped(*img, panel.x, panel.y, panel.width, panel.height)
            &&& image_size(c->0) == (panel.width, panel.height)
            &&& image_color(c->0) == image_color(*img)
        },
{
    let (w, h) = image_dimensions(img);
    if panel.fits_page(w, h) {
        Some(crop_region(img, panel.x, panel.y, panel.width, panel.height))
    } else {
        None
    }
}

/// The JPEG quality actually used for a requested one: clamped to 1–100.
pub open spec fn clamped_quality(quality: u8) -> u8 {
    if quality > 100 { 100 } else if quality < 1 { 1 } else { quality }
}

/// Encode an image to JPEG bytes at the given quality (1–100; a quality outside
/// that range is clamped to it).
pub fn encode_jpeg(img: &DynamicImage, quality: u8) -> (r: Result<Vec<u8>, String>)
    ensures
        match r {
            Ok(buf) => jpeg_encoding(*img, clamped_quality(quality)) == Some(buf@) && is_jpeg_stream(buf@),
            Err(e) => jpeg_encoding(*img, clamped_quality(quality)) is None && e@ == "Failed to encode JPEG"@,
        },
{
    let q: u8 = if quality > 100 { 100 } else if quality < 1 { 1 } else { quality };
    match write_jpeg(img, q) {
        Ok(buf) => Ok(buf),
        Err(_) => Err(owned("Failed to encode JPEG")),
    }
}

/// Encode an image to PNG bytes: the image's PNG encoding.
pub fn encode_png(img: &DynamicImage) -> (r: Result<Vec<u8>, String>)
    ensures
        match r {
            Ok(buf) => png_encoding(*img) == Some(buf@) && is_png_stream(buf@),
            Err(e) => png_encoding(*img) is None && e@ == "Failed to encode PNG"@,
        },
{
    match write_image(img, EncodeFormat::Png) {
        Ok(buf) => Ok(buf),
        Err(_) => Err(owned("Failed to encode PNG")),
    }
}

/// Encode an image to WebP bytes (lossless): the image's WebP encoding.
pub fn encode_webp(img: &DynamicImage) -> (r: Result<Vec<u8>, String>)
    ensures
        match r {
            Ok(buf) => webp_encoding(*img) == Some(buf@) && is_webp_stream(buf@),
            Err(e) => webp_encoding(*img) is None && e@ == "Failed to encode WebP"@,
        },
{
    match write_image(img, EncodeFormat::WebP) {
        Ok(buf) => Ok(buf),
        Err(_) => Err(owned("Failed to encode WebP")),
    }
}

/// The grayscale (luma) form of an image, one byte per pixel, row by row.
pub fn to_grayscale(img: &DynamicImage) -> (g: GrayImage)
    ensures
        g.wf(),
        (g.width, g.height) == image_size(*img),
        g.pixels@ == luma_of(*img).take(g.width * g.height),
{
    let (w, h, raw) = luma_pixels(img);
    assert(raw@.len() == raw.len());
    assert((w as usize) * (h as usize) == w * h);
    let n: usize = (w as usize) * (h as usize);
    let mut pixels: Vec<u8> = Vec::new();
    let mut i: usize = 0;
    while i < n
        invariant
            n == w * h,
            n <= raw@.len(),
            i <= n,
            pixels@ == raw@.take(i as int),
        decreases n - i,
    {
        pixels.push(raw[i]);
        i = i + 1;
        assert(pixels@ =~= raw@.take(i as int));
    }
    GrayImage { width: w, height: h, pixels }
}

/// Once the pipeline has stored fresh bytes under a key, a lookup of that key finds
/// them in memory, unless the eviction that followed evicted that very key.
pub proof fn law_stored_image_is_found(
    index: Map<Seq<char>, EntryView>,
    total: nat,
    hot: Map<Seq<char>, Seq<u8>>,
    counter: u64,
    before: ImageCache,
    after: ImageCache,
    key: Seq<char>,
    written: Seq<u8>,
    evicted: Seq<(Seq<char>, EntryView)>,
)
    requires
        put_post_from(index, total, hot, counter, before, after, key, written, evicted),
        !crate::cache::evicted_keys(evicted).contains(key),
    ensures
        lookup_outcome(after.hot(), after.index_map(), key) == LookupView::Hot(written),
{
}

/// Information about a decoded image.
#[derive(Debug, Clone)]
pub struct ImageInfo {
    pub width: u32,
    pub height: u32,
    pub format: String,
    pub size_bytes: usize,
}

/// The information about an image of `size_bytes` bytes whose format was
/// recognized as `format` (or not) and which decoded to `size` (or failed to).
pub fn image_info_of(format: Option<String>, size: Option<(u32, u32)>, size_bytes: usize) -> (r: Result<ImageInfo, String>)
    ensures
        match size {
            None => r is Err && r->Err_0@ == "Failed to decode image for info"@,
            Some((w, h)) => {
                &&& r is Ok
                &&& r->Ok_0.width == w
                &&& r->Ok_0.height == h
                &&& r->Ok_0.size_bytes == size_bytes
                &&& r->Ok_0.format@ == match format {
                    Some(f) => f@,
                    None => "unknown"@,
                }
            },
        },
{
    match size {
        None => Err(owned("Failed to decode image for info")),
        Some((width, height)) => {
            let format = match format {
                Some(f) => f,
                None => owned("unknown"),
            };
            Ok(ImageInfo { width, height, format, size_bytes })
        },
    }
}

/// Get the format, size and byte count of an image.
pub fn image_info_from_bytes(bytes: &[u8]) -> (r: Result<ImageInfo, String>)
    ensures
        match decoded_size(bytes@) {
            None => r is Err && r->Err_0@ == "Failed to decode image for info"@,
            Some((w, h)) => {
                &&& r is Ok
                &&& r->Ok_0.width == w
                &&& r->Ok_0.height == h
                &&& r->Ok_0.size_bytes == bytes@.len()
                &&& r->Ok_0.format@ == match guessed_format(bytes@) {
                    Some(f) => f,
                    None => "unknown"@,
                }
            },
        },
{
    let format = guess_format_name(bytes);
    let size = match load_image(bytes) {
        Ok((_, w, h)) => Some((w, h)),
        Err(_) => None,
    };
    image_info_of(format, size, bytes.len())
}

/// The panels detected on a page, with the page's size and the detector's name.
pub struct PageDetection {
    pub panels: Vec<PanelRect>,
    pub page_width: u32,
    pub page_height: u32,
    pub detector: String,
}

impl GutterDetector {
    /// Detect the panels of a page image: the page's luma pixels are split as
    /// [`GutterDetector::detect_layout`] splits them, and the result names the page's
    /// size and the detector (`"gutter"`).
    pub fn detect_image(&self, page: &DynamicImage, min_h_gap: usize, min_v_gap: usize, min_panel_w: u32, min_panel_h: u32) -> (r: PageDetection)
        ensures
            (r.page_width, r.page_height) == image_size(*page),
            r.detector@ == "gutter"@,
            numbered_from(
                r.panels@,
                page_cells(luma_of(*page).take(r.page_width * r.page_height), r.page_width, r.page_height,
                    self.threshold, self.gutter_continuity_gap as usize, min_h_gap, min_v_gap, min_panel_w, min_panel_h),
                0,
            ),
            forall|k: int| 0 <= k < r.panels@.len()
                ==> panel_within(#[trigger] r.panels@[k], r.page_width, r.page_height, min_panel_w, min_panel_h),
            forall|k: int, l: int| 0 <= k < l < r.panels@.len()
                ==> crate::panel::reads_before(#[trigger] r.panels@[k], #[trigger] r.panels@[l]),
    {
        let gray = to_grayscale(page);
        let panels = self.detect_layout(&gray, min_h_gap, min_v_gap, min_panel_w, min_panel_h);
        PageDetection { panels, page_width: gray.width, page_height: gray.height, detector: owned("gutter") }
    }
}

/// The bytes the pipeline decodes for `key`: those held in memory, else those read
/// from the key's cache file (`stored`, where the file was there), else the fresh
/// `bytes`.
pub open spec fn decode_source(
    hot: Map<Seq<char>, Seq<u8>>,
    index: Map<Seq<char>, EntryView>,
    key: Seq<char>,
    stored: Option<Seq<u8>>,
    bytes: Seq<u8>,
) -> Seq<u8> {
    match lookup_outcome(hot, index, key) {
        LookupView::Hot(d) => d,
        LookupView::OnDisk(_) => match stored {
            Some(d) => d,
            None => bytes,
        },
        LookupView::Miss => bytes,
    }
}

/// The key's cached bytes are used: the cache's entries, sizes and counter are as
/// before, or (for bytes read from the cache file) the key's entry has the next access
/// count and its bytes are in memory.
pub open spec fn served_from_cache(before: ImageCache, after: ImageCache, key: Seq<char>, stored: Option<Seq<u8>>) -> bool {
    match lookup_outcome(before.hot(), before.index_map(), key) {
        LookupView::Hot(_) => {
            &&& after.hot() == before.hot()
            &&& after.index_map() == before.index_map()
            &&& after.total() == before.total()
            &&& after.counter() == before.counter()
        },
        _ => {
            &&& after.counter() == before.counter() + 1
            &&& after.index_map() == before.index_map().insert(key, EntryView {
                access_count: after.counter(), ..before.index_map()[key]
            })
            &&& after.total() == before.total()
            &&& after.hot().contains_key(key)
            &&& after.hot()[key] == stored->0
            &&& forall|k: Seq<char>| #[trigger] after.hot().contains_key(k) && k != key
                ==> before.hot().contains_key(k) && after.hot()[k] == before.hot()[k]
        },
    }
}

/// The cache before the fresh bytes are stored: `before` without the key's entry
/// (whose file, if any, went missing).
pub open spec fn without_entry(before: ImageCache, after: ImageCache, key: Seq<char>) -> bool {
    &&& after.index_map() == before.index_map().remove(key)
    &&& after.total() == before.total() - indexed_size(before.index_map(), key)
    &&& after.hot() == before.hot()
    &&& after.counter() == before.counter()
}

/// The bytes read from the cache file, as values.
pub open spec fn stored_view(stored: Option<Vec<u8>>) -> Option<Seq<u8>> {
    match stored {
        Some(d) => Some(d@),
        None => None,
    }
}

/// The outcome of a decode, as values: the image, the bytes written under the key,
/// and the entries evicted; or the error message.
pub open spec fn decoded_view(r: Result<Decoded, String>) -> Result<(DynamicImage, Option<Seq<u8>>, Seq<(Seq<char>, EntryView)>), Seq<char>> {
    match r {
        Ok(d) => Ok((d.image, match d.written { Some(w) => Some(w@), None => None }, evicted_view(d.evicted@))),
        Err(e) => Err(e@),
    }
}

/// What decoding `key` through the cache does, from `before` to `after`, with the
/// fresh `bytes` and the bytes `stored` read from the key's cache file: the source
/// of the image is the key's cached bytes where there are any (see
/// [`decode_source`]); a hit leaves the cache as [`served_from_cache`] says and
/// writes nothing; a miss drops the key's stale entry and, where the fresh bytes
/// decode, puts their PNG encoding (or the bytes themselves, where encoding fails)
/// under the key.
pub open spec fn decode_post(
    before: ImageCache,
    after: ImageCache,
    key: Seq<char>,
    bytes: Seq<u8>,
    stored: Option<Seq<u8>>,
    r: Result<(DynamicImage, Option<Seq<u8>>, Seq<(Seq<char>, EntryView)>), Seq<char>>,
) -> bool {
    let source = decode_source(before.hot(), before.index_map(), key, stored, bytes);
    let outcome = lookup_outcome(before.hot(), before.index_map(), key);
    &&& r is Ok <==> decoded_image(source) is Some
    &&& r is Err ==> r->Err_0 == "Failed to decode image from bytes"@
    &&& r is Ok ==> decoded_image(source) == Some(r->Ok_0.0)
    &&& r is Ok && r->Ok_0.1 is Some ==> r->Ok_0.1->0 == match png_encoding(r->Ok_0.0) {
        Some(png) => png,
        None => bytes,
    }
    &&& if outcome is Hot || (outcome is OnDisk && stored is Some) {
        &&& served_from_cache(before, after, key, stored)
        &&& r is Ok ==> r->Ok_0.1 is None && r->Ok_0.2.len() == 0
    } else {
        let index = before.index_map().remove(key);
        let total = (before.total() - indexed_size(before.index_map(), key)) as nat;
        match r {
            Ok((_, written, evicted)) => match written {
                Some(w) => {
                    &&& put_post_from(index, total, before.hot(), before.counter(), before, after, key, w, evicted)
                    &&& after.total() <= after.max()
                },
                None => without_entry(before, after, key) && evicted.len() == 0,
            },
            Err(_) => without_entry(before, after, key),
        }
    }
}

/// The key's cached bytes: those held in memory, else those read from its cache
/// file where the index names one and it was there.
pub open spec fn cached_bytes(before: ImageCache, key: Seq<char>, stored: Option<Seq<u8>>) -> Option<Seq<u8>> {
    match lookup_outcome(before.hot(), before.index_map(), key) {
        LookupView::Hot(d) => Some(d),
        LookupView::OnDisk(_) => stored,
        LookupView::Miss => None,
    }
}

/// Decoding through the cache: where the key has cached bytes, the image is their
/// decoding, the fresh bytes are ignored and nothing is written; otherwise the image
/// is the decoding of the fresh bytes, what is written under the key is their PNG
/// encoding (or the bytes themselves, where encoding fails), and, unless the
/// eviction that followed evicted the key, a lookup of the key then finds it in
/// memory.
pub proof fn law_cached_decode(
    before: ImageCache,
    after: ImageCache,
    key: Seq<char>,
    bytes: Seq<u8>,
    stored: Option<Seq<u8>>,
    r: Result<(DynamicImage, Option<Seq<u8>>, Seq<(Seq<char>, EntryView)>), Seq<char>>,
)
    requires
        decode_post(before, after, key, bytes, stored, r),
    ensures
        match cached_bytes(before, key, stored) {
            Some(c) => {
                &&& r is Ok <==> decoded_image(c) is Some
                &&& r is Ok ==> decoded_image(c) == Some(r->Ok_0.0) && r->Ok_0.1 is None
            },
            None => {
                &&& r is Ok <==> decoded_image(bytes) is Some
                &&& r is Ok ==> decoded_image(bytes) == Some(r->Ok_0.0)
                &&& r is Ok && r->Ok_0.1 is Some ==> {
                    let w = r->Ok_0.1->0;
                    &&& w == match png_encoding(r->Ok_0.0) {
                        Some(png) => png,
                        None => bytes,
                    }
                    &&& !crate::cache::evicted_keys(r->Ok_0.2).contains(key)
                        ==> lookup_outcome(after.hot(), after.index_map(), key) == LookupView::Hot(w)
                }
            },
        },
{
}

/// Fresh bytes decoded through the cache are read back: where the key has no cached
/// bytes, what the decode writes under the key (the PNG encoding of the image, or the
/// bytes themselves where encoding fails), when it is no larger than the eviction
/// target and no entry was used later than the access counter says, is what a
/// lookup of the key then finds in memory.
pub proof fn law_fresh_decode_is_read_back(
    before: ImageCache,
    after: ImageCache,
    key: Seq<char>,
    bytes: Seq<u8>,
    stored: Option<Seq<u8>>,
    r: Result<(DynamicImage, Option<Seq<u8>>, Seq<(Seq<char>, EntryView)>), Seq<char>>,
)
    requires
        decode_post(before, after, key, bytes, stored, r),
        before.wf(),
        after.wf(),
        cached_bytes(before, key, stored) is None,
        r is Ok,
        r->Ok_0.1 is Some,
        r->Ok_0.1->0.len() <= before.target(),
        forall|k: Seq<char>| #[trigger] before.index_map().contains_key(k)
            ==> before.index_map()[k].access_count <= before.counter(),
    ensures
        r->Ok_0.1->0 == match png_encoding(r->Ok_0.0) {
            Some(png) => png,
            None => bytes,
        },
        lookup_outcome(after.hot(), after.index_map(), key) == LookupView::Hot(r->Ok_0.1->0),
{
    before.lemma_hot_keys_indexed();
    let index = before.index_map().remove(key);
    assert forall|k: Seq<char>| #[trigger] index.contains_key(k) implies index[k].access_count <= before.counter() by {
        assert(before.index_map().contains_key(k));
    }
    crate::cache::lemma_small_put_kept_from(index, (before.total() - indexed_size(before.index_map(), key)) as nat,
        before.hot(), before.counter(), before, after, key, r->Ok_0.1->0, r->Ok_0.2);
}

/// A decoded image, with what decoding it did to the cache: the bytes written
/// under the key (to go to its cache file) and the entries evicted (whose files are
/// to be deleted).
pub struct Decoded {
    pub image: DynamicImage,
    pub written: Option<Vec<u8>>,
    pub evicted: Vec<(String, CacheIndexEntry)>,
}

/// The image processing pipeline: decode, then cache.
pub struct ImagePipeline {
    cache: ImageCache,
}

impl ImagePipeline {
    /// The pipeline's cache.
    pub closed spec fn cache_state(&self) -> ImageCache {
        self.cache
    }

    /// Create a new image pipeline with the given cache backend.
    pub fn new(cache: ImageCache) -> (p: ImagePipeline)
        ensures
            p.cache_state() == cache,
    {
        ImagePipeline { cache }
    }

    /// The pipeline's cache.
    pub fn cache(&self) -> (r: &ImageCache)
        ensures
            *r == self.cache_state(),
    {
        &self.cache
    }

    /// The cache file that holds `key`'s bytes, if the index has an entry for it.
    pub fn stored_file(&self, key: &str) -> (r: Option<String>)
        requires
            self.cache_state().wf(),
        ensures
            r is Some <==> self.cache_state().index_map().contains_key(key@),
            r is Some ==> r->0@ == self.cache_state().index_map()[key@].file_path,
    {
        match self.cache.lookup_file(key) {
            Some(p) => Some(p),
            None => None,
        }
    }

    /// Get the decoded image for `key`. The bytes held in memory are decoded; else
    /// those read from the key's cache file (`stored`, which the caller reads from
    /// the file [`ImagePipeline::stored_file`] names, `None` where it is missing, in
    /// which case the entry is dropped); else the fresh `bytes`, which are then
    /// cached as their PNG encoding (or as they are, where encoding fails).
    /// Where the cache's total size could not count the new entry, the image is
    /// returned without being cached.
    pub fn get_or_decode(&mut self, key: &str, bytes: &[u8], stored: Option<Vec<u8>>) -> (r: Result<Decoded, String>)
        requires
            old(self).cache_state().wf(),
            old(self).cache_state().counter() < u64::MAX,
        ensures
            final(self).cache_state().wf(),
            final(self).cache_state().same_config(&old(self).cache_state()),
            decode_post(old(self).cache_state(), final(self).cache_state(), key@, bytes@,
                stored_view(stored), decoded_view(r)),
    {
        let ghost before = self.cache;
        match self.cache.lookup(key) {
            crate::cache::CacheLookup::Hot(data) => {
                let image = decode_from_bytes(data.as_slice())?;
                return Ok(Decoded { image, written: None, evicted: Vec::new() });
            },
            crate::cache::CacheLookup::OnDisk(_) => {
                match stored {
                    Some(data) => {
                        let r = decode_from_bytes(data.as_slice());
                        self.cache.promote(key, data);
                        let image = r?;
                        return Ok(Decoded { image, written: None, evicted: Vec::new() });
                    },
                    None => {
                        assert(before.hot().remove(key@) =~= before.hot());
                        self.cache.forget(key);
                    },
                }
            },
            crate::cache::CacheLookup::Miss => {
                assert(before.index_map().remove(key@) =~= before.index_map());
            },
        }
        let image = decode_from_bytes(bytes)?;
        let encoded = match encode_png(&image) {
            Ok(png) => png,
            Err(_) => vstd::slice::slice_to_vec(bytes),
        };
        let total = self.cache.total_size();
        if encoded.len() as u64 > u64::MAX - total {
            return Ok(Decoded { image, written: None, evicted: Vec::new() });
        }
        let evicted = self.cache.put(key, encoded.as_slice());
        Ok(Decoded { image, written: Some(encoded), evicted })
    }

    /// Invalidate a cached image by key: its entry leaves the index and the memory.
    /// Returns the removed entry, whose file is to be deleted.
    pub fn invalidate(&mut self, key: &str) -> (r: Option<CacheIndexEntry>)
        requires
            old(self).cache_state().wf(),
        ensures
            final(self).cache_state().wf(),
            crate::cache::remove_post(old(self).cache_state(), final(self).cache_state(), key@),
            lookup_outcome(final(self).cache_state().hot(), final(self).cache_state().index_map(), key@) == LookupView::Miss,
            match r {
                Some(e) => old(self).cache_state().index_map().contains_key(key@)
                    && e.view_entry() == old(self).cache_state().index_map()[key@],
                None => !old(self).cache_state().index_map().contains_key(key@),
            },
    {
        self.cache.remove(key)
    }
}

} // verus!
