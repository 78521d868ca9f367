use manga_reader_engine::archive::ArchiveType;
use manga_reader_engine::cbt::extract_cbt;

/// A tar header block for a member.
fn header(name: &str, size: usize, kind: u8, prefix: &str) -> Vec<u8> {
    let mut h = vec![0u8; 512];
    h[..name.len()].copy_from_slice(name.as_bytes());
    let size_field = format!("{:011o}\0", size);
    h[124..136].copy_from_slice(size_field.as_bytes());
    h[156] = kind;
    h[257..263].copy_from_slice(b"ustar\0");
    h[345..345 + prefix.len()].copy_from_slice(prefix.as_bytes());
    h
}

fn tar(members: &[(&str, &[u8], u8, &str)]) -> Vec<u8> {
    let mut out = Vec::new();
    for (name, data, kind, prefix) in members {
        out.extend(header(name, data.len(), *kind, prefix));
        out.extend_from_slice(data);
        let pad = (512 - data.len() % 512) % 512;
        out.extend(std::iter::repeat(0u8).take(pad));
    }
    out.extend(vec![0u8; 1024]);
    out
}

#[test]
fn cbt_is_detected_by_extension() {
    assert_eq!(ArchiveType::from_path("book.cbt"), Some(ArchiveType::Cbt));
    assert_eq!(ArchiveType::from_path("book.TAR"), Some(ArchiveType::Cbt));
}

#[test]
fn cbt_pages_are_its_image_files() {
    let big = vec![7u8; 700];
    let bytes = tar(&[
        ("p2.png", b"two", b'0', ""),
        ("notes.txt", b"text", b'0', ""),
        ("art", b"", b'5', ""),
        ("p1.JPG", &big, 0, "vol1"),
    ]);
    let pages = extract_cbt(bytes).unwrap();
    assert_eq!(pages.len(), 2);
    assert_eq!(pages[0], ("p2.png".to_string(), b"two".to_vec()));
    assert_eq!(pages[1].0, "vol1/p1.JPG");
    assert_eq!(pages[1].1, big);
}

#[test]
fn cbt_with_space_padded_size_is_read() {
    let mut h = header("a.png", 0, b'0', "");
    h[124..136].copy_from_slice(b"     3 \0\0\0\0\0");
    let mut bytes = h;
    bytes.extend_from_slice(b"abc");
    bytes.extend(vec![0u8; 509]);
    let pages = extract_cbt(bytes).unwrap();
    assert_eq!(pages, vec![("a.png".to_string(), b"abc".to_vec())]);
}

#[test]
fn cbt_errors() {
    assert_eq!(extract_cbt(vec![1u8; 100]).unwrap_err(), "Failed to read CBT archive");
    let mut bad = header("a.png", 0, b'0', "");
    bad[124..136].copy_from_slice(b"12x45\0\0\0\0\0\0\0");
    assert_eq!(extract_cbt(bad).unwrap_err(), "Failed to read CBT archive");
    // The data runs past the end of the bytes.
    let short = header("a.png", 600, b'0', "");
    assert_eq!(extract_cbt(short).unwrap_err(), "Failed to read CBT archive");
    assert!(extract_cbt(Vec::new()).unwrap().is_empty());
}
