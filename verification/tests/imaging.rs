use manga_reader_engine::cache::{CacheIndex, ImageCache};
use manga_reader_engine::imaging::{
    crop_panel, decode_from_bytes, decode_from_path, encode_jpeg, encode_png, encode_webp, image_info_from_bytes, image_info_of, resize_exact, resize_to_fit, to_grayscale,
    ImagePipeline,
};

fn png_bytes() -> Vec<u8> {
    // A 1x1 RGB page, encoded by the library.
    encode_png(&image::DynamicImage::new_rgb8(1, 1)).unwrap()
}

#[test]
fn test_decode_small_png() {
    // A 1x1 PNG.
    let png_bytes = png_bytes();

    let img = decode_from_bytes(&png_bytes).unwrap();
    assert_eq!(img.width(), 1);
    assert_eq!(img.height(), 1);

    let info = image_info_from_bytes(&png_bytes).unwrap();
    assert_eq!(info.width, 1);
    assert_eq!(info.height, 1);
}

#[test]
fn image_info_names_format_and_size() {
    let bytes = png_bytes();
    let info = image_info_from_bytes(&bytes).unwrap();
    assert_eq!(info.format, "Png");
    assert_eq!(info.size_bytes, bytes.len());
}

#[test]
fn undecodable_bytes_are_refused() {
    assert_eq!(decode_from_bytes(b"not an image").unwrap_err(), "Failed to decode image from bytes");
    assert_eq!(image_info_from_bytes(b"not an image").unwrap_err(), "Failed to decode image for info");
}

#[test]
fn image_info_from_parts() {
    let info = image_info_of(None, Some((3, 4)), 10).unwrap();
    assert_eq!((info.width, info.height, info.size_bytes), (3, 4, 10));
    assert_eq!(info.format, "unknown");
    assert_eq!(image_info_of(Some("Gif".to_string()), None, 10).unwrap_err(), "Failed to decode image for info");
}

#[test]
fn png_round_trip_and_resize() {
    let img = image::DynamicImage::new_rgb8(8, 4);
    let png = encode_png(&img).unwrap();
    let back = decode_from_bytes(&png).unwrap();
    assert_eq!((back.width(), back.height()), (8, 4));
    let fit = resize_to_fit(&img, 4, 4);
    assert_eq!((fit.width(), fit.height()), (4, 2));
    let exact = resize_exact(&img, 3, 3);
    assert_eq!((exact.width(), exact.height()), (3, 3));
    let gray = to_grayscale(&img);
    assert_eq!((gray.width, gray.height, gray.pixels.len()), (8, 4, 32));
}

#[test]
fn pipeline_caches_what_it_decodes() {
    let cache = ImageCache::new("pipeline_test", 1 << 20, 1 << 19, CacheIndex::new());
    let mut pipeline = ImagePipeline::new(cache);
    let bytes = png_bytes();
    let first = pipeline.get_or_decode("page_1", &bytes, None).unwrap();
    assert!(first.written.is_some());
    assert!(first.evicted.is_empty());
    assert_eq!(pipeline.stored_file("page_1"), Some("page_1".to_string()));
    assert_eq!(pipeline.cache().entry_count(), 1);
    let again = pipeline.get_or_decode("page_1", b"ignored", None).unwrap();
    assert!(again.written.is_none());
    assert_eq!((again.image.width(), again.image.height()), (1, 1));
    let removed = pipeline.invalidate("page_1").unwrap();
    assert_eq!(removed.file_path, "page_1");
    assert!(pipeline.stored_file("page_1").is_none());
}

#[test]
fn pipeline_reads_the_stored_file_or_drops_a_missing_one() {
    let mut index = CacheIndex::new();
    let bytes = png_bytes();
    index.insert(
        "p".to_string(),
        manga_reader_engine::cache::CacheIndexEntry { file_path: "p".to_string(), size: bytes.len() as u64, access_count: 1 },
    );
    let mut pipeline = ImagePipeline::new(ImageCache::new("pipeline_test2", 1 << 20, 1 << 19, index));
    let from_disk = pipeline.get_or_decode("p", b"fresh but unused", Some(bytes.clone())).unwrap();
    assert!(from_disk.written.is_none());
    assert_eq!(pipeline.cache().access_counter(), 1);

    let mut index = CacheIndex::new();
    index.insert(
        "q".to_string(),
        manga_reader_engine::cache::CacheIndexEntry { file_path: "q".to_string(), size: 99, access_count: 1 },
    );
    let mut pipeline = ImagePipeline::new(ImageCache::new("pipeline_test3", 1 << 20, 1 << 19, index));
    assert!(pipeline.get_or_decode("q", b"garbage", None).is_err());
    assert!(pipeline.stored_file("q").is_none());
    assert_eq!(pipeline.cache().total_size(), 0);
}

#[test]
fn encoders_write_their_formats() {
    let img = image::DynamicImage::new_rgb8(4, 3);
    let png = encode_png(&img).unwrap();
    assert_eq!(&png[..8], &[137, 80, 78, 71, 13, 10, 26, 10]);
    let jpeg = encode_jpeg(&img, 150).unwrap();
    assert_eq!(&jpeg[..2], &[0xFF, 0xD8]);
    let webp = encode_webp(&img).unwrap();
    assert_eq!(&webp[..4], b"RIFF");
    assert_eq!(&webp[8..12], b"WEBP");
    let back = decode_from_bytes(&webp).unwrap();
    assert_eq!((back.width(), back.height()), (4, 3));
}

#[test]
fn jpeg_quality_is_clamped_and_used() {
    // A noisy page, so that the quality shows in the size of the stream.
    let mut buf = image::RgbImage::new(32, 32);
    for y in 0..32u32 {
        for x in 0..32u32 {
            buf.put_pixel(x, y, image::Rgb([(x * 7 + y * 13) as u8, (x * x + y) as u8, (x ^ y) as u8 * 8]));
        }
    }
    let img = image::DynamicImage::ImageRgb8(buf);
    assert_eq!(encode_jpeg(&img, 0).unwrap(), encode_jpeg(&img, 1).unwrap());
    assert_eq!(encode_jpeg(&img, 200).unwrap(), encode_jpeg(&img, 100).unwrap());
    assert!(encode_jpeg(&img, 5).unwrap().len() < encode_jpeg(&img, 100).unwrap().len());
}

#[test]
fn grayscale_holds_the_page_luma() {
    let mut buf = image::GrayImage::new(3, 2);
    buf.put_pixel(2, 1, image::Luma([77]));
    let gray = to_grayscale(&image::DynamicImage::ImageLuma8(buf));
    assert_eq!((gray.width, gray.height), (3, 2));
    assert_eq!(gray.pixels, vec![0, 0, 0, 0, 0, 77]);
}

#[test]
fn pipeline_caches_the_png_encoding() {
    let cache = ImageCache::new("pipeline_test4", 1 << 20, 1 << 19, CacheIndex::new());
    let mut pipeline = ImagePipeline::new(cache);
    let img = image::DynamicImage::new_rgb8(2, 2);
    let webp = encode_webp(&img).unwrap();
    let got = pipeline.get_or_decode("w", &webp, None).unwrap();
    assert_eq!((got.image.width(), got.image.height()), (2, 2));
    assert_eq!(got.written.unwrap(), encode_png(&got.image).unwrap());
}

#[test]
fn png_with_corrupt_data_is_refused() {
    // A 1x1 PNG stream whose IDAT chunk does not hold a valid zlib stream.
    let png_bytes: Vec<u8> = vec![
        0x89, 0x50, 0x4E, 0x47, 0x0D, 0x0A, 0x1A, 0x0A, 0x00, 0x00, 0x00, 0x0D, 0x49, 0x48, 0x44, 0x52, 0x00, 0x00,
        0x00, 0x01, 0x00, 0x00, 0x00, 0x01, 0x08, 0x02, 0x00, 0x00, 0x00, 0x90, 0x77, 0x53, 0xDE, 0x00, 0x00, 0x00,
        0x0C, 0x49, 0x44, 0x41, 0x54, 0x08, 0xD7, 0x63, 0xF8, 0xCF, 0xC0, 0x00, 0x00, 0x00, 0x03, 0x00, 0x01, 0x36,
        0x28, 0x19, 0x00, 0x00, 0x00, 0x00, 0x49, 0x45, 0x4E, 0x44, 0xAE, 0x42, 0x60, 0x82,
    ];
    assert_eq!(decode_from_bytes(&png_bytes).unwrap_err(), "Failed to decode image from bytes");
    assert_eq!(image_info_from_bytes(&png_bytes).unwrap_err(), "Failed to decode image for info");
}

#[test]
fn resizing_keeps_the_color_type() {
    let img = image::DynamicImage::new_rgb8(200, 100);
    let exact = resize_exact(&img, 30, 40);
    assert_eq!((exact.width(), exact.height()), (30, 40));
    assert_eq!(exact.color(), image::ColorType::Rgb8);
    let gray = image::DynamicImage::new_luma8(10, 10);
    let fit = resize_to_fit(&gray, 5, 8);
    assert_eq!((fit.width(), fit.height()), (5, 5));
    assert_eq!(fit.color(), image::ColorType::L8);
}

#[test]
fn decode_from_path_uses_the_extension() {
    let png = encode_png(&image::DynamicImage::new_rgb8(3, 2)).unwrap();
    let img = decode_from_path("pages/p1.png", &png).unwrap();
    assert_eq!((img.width(), img.height()), (3, 2));
    // The extension names the format: PNG bytes under a JPEG name do not decode.
    assert_eq!(decode_from_path("pages/p1.jpg", &png).unwrap_err(), "Failed to decode image from path");
    assert_eq!(decode_from_path("pages/p1", &png).unwrap_err(), "Failed to decode image from path");
}

#[test]
fn crop_panel_cuts_within_the_page() {
    let mut buf = image::GrayImage::new(10, 6);
    buf.put_pixel(3, 2, image::Luma([9]));
    let page = image::DynamicImage::ImageLuma8(buf);
    let rect = manga_reader_engine::panel::PanelRect { id: 0, x: 3, y: 2, width: 4, height: 3 };
    let cut = crop_panel(&page, &rect).unwrap();
    assert_eq!((cut.width(), cut.height()), (4, 3));
    assert_eq!(cut.color(), image::ColorType::L8);
    assert_eq!(cut.to_luma8().get_pixel(0, 0)[0], 9);
    let outside = manga_reader_engine::panel::PanelRect { id: 1, x: 8, y: 0, width: 3, height: 1 };
    assert!(crop_panel(&page, &outside).is_none());
}

#[test]
fn fitted_size_stays_within_the_bounds() {
    let img = image::DynamicImage::new_rgb8(300, 100);
    let fit = resize_to_fit(&img, 60, 60);
    assert_eq!((fit.width(), fit.height()), (60, 20));
    let tall = resize_to_fit(&image::DynamicImage::new_rgb8(10, 40), 100, 20);
    assert_eq!((tall.width(), tall.height()), (5, 20));
}
