use manga_reader_engine::archive::order_pages;
use manga_reader_engine::cbz::extract_cbz;
use std::io::Write;
use zip::write::SimpleFileOptions;

fn create_minimal_zip() -> Vec<u8> {
    // Build a minimal valid ZIP file with no files
    let mut buf = std::io::Cursor::new(Vec::new());
    let zip = zip::ZipWriter::new(&mut buf);
    zip.finish().unwrap();
    buf.into_inner()
}

fn zip_with(files: &[(&str, &[u8])], dirs: &[&str]) -> Vec<u8> {
    let mut buf = std::io::Cursor::new(Vec::new());
    let mut zip = zip::ZipWriter::new(&mut buf);
    for d in dirs {
        zip.add_directory(*d, SimpleFileOptions::default()).unwrap();
    }
    for (name, data) in files {
        zip.start_file(*name, SimpleFileOptions::default()).unwrap();
        zip.write_all(data).unwrap();
    }
    zip.finish().unwrap();
    buf.into_inner()
}

#[test]
fn test_extract_empty_cbz() {
    let zip_data = create_minimal_zip();
    let entries = extract_cbz(zip_data).unwrap();
    assert!(entries.is_empty());
}

#[test]
fn cbz_keeps_image_files_in_archive_order() {
    let bytes = zip_with(&[("b.jpg", b"BBB"), ("notes.txt", b"n"), ("a/1.PNG", b"A1")], &["a/"]);
    let entries = extract_cbz(bytes).unwrap();
    let names: Vec<&str> = entries.iter().map(|e| e.0.as_str()).collect();
    assert_eq!(names, vec!["b.jpg", "a/1.PNG"]);
    assert_eq!(entries[0].1, b"BBB".to_vec());
    let pages = order_pages(entries);
    assert_eq!(pages[0].path, "a/1.PNG");
    assert_eq!(pages[1].page_index, 1);
}

#[test]
fn non_zip_bytes_are_refused() {
    assert_eq!(extract_cbz(b"not a zip".to_vec()).unwrap_err(), "Failed to read CBZ as ZIP archive");
}

fn stored_zip(files: &[(&str, &[u8])]) -> Vec<u8> {
    let mut buf = std::io::Cursor::new(Vec::new());
    let mut zip = zip::ZipWriter::new(&mut buf);
    let options = SimpleFileOptions::default().compression_method(zip::CompressionMethod::Stored);
    for (name, data) in files {
        zip.start_file(*name, options).unwrap();
        zip.write_all(data).unwrap();
    }
    zip.finish().unwrap();
    buf.into_inner()
}

fn find(haystack: &[u8], needle: &[u8]) -> usize {
    haystack.windows(needle.len()).position(|w| w == needle).unwrap()
}

#[test]
fn unreadable_image_is_reported_by_name() {
    let mut bytes = stored_zip(&[("a.jpg", b"hello image")]);
    let at = find(&bytes, b"hello image");
    bytes[at] ^= 0xff;
    assert_eq!(extract_cbz(bytes).unwrap_err(), "Failed to read a.jpg from CBZ");
}

#[test]
fn unopenable_member_is_reported_by_index() {
    let mut bytes = stored_zip(&[("x.txt", b"x"), ("b.png", b"png bytes")]);
    // Break the local header of the second member.
    let first = find(&bytes, b"PK\x03\x04");
    let second = first + 4 + find(&bytes[first + 4..], b"PK\x03\x04");
    bytes[second] = b'X';
    assert_eq!(extract_cbz(bytes).unwrap_err(), "Failed to access file index 1 in CBZ");
}
