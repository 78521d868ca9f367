use manga_reader_engine::cb7::{extract_cb7, is_wanted, page_names};
use sevenz_rust::{Password, SevenZArchiveEntry, SevenZReader, SevenZWriter};
use std::io::{Cursor, Read};

/// The pages of a 7z archive held as `bytes`: it is listed and decoded by the
/// `sevenz_rust` reader, the library choosing what comes out.
fn cb7_pages(bytes: Vec<u8>) -> Result<Vec<(String, Vec<u8>)>, String> {
    let len = bytes.len() as u64;
    let opened = SevenZReader::new(Cursor::new(bytes), len, Password::empty()).map_err(|e| e.to_string());
    let listing = match &opened {
        Ok(reader) => Ok(reader.archive().files.iter().map(|f| (f.name().to_string(), f.is_directory())).collect()),
        Err(e) => Err(e.clone()),
    };
    extract_cb7(listing, move |wanted| {
        let mut reader = opened?;
        let mut entries = Vec::new();
        reader
            .for_each_entries(|entry, entry_reader| {
                if is_wanted(wanted, entry.name()) {
                    let mut data = Vec::new();
                    entry_reader.read_to_end(&mut data).map_err(sevenz_rust::Error::from)?;
                    entries.push((entry.name().to_string(), data));
                }
                Ok(true)
            })
            .map_err(|e| e.to_string())?;
        Ok(entries)
    })
}

fn seven_zip(files: &[(&str, &[u8])], dirs: &[&str]) -> Vec<u8> {
    let mut writer = SevenZWriter::new(Cursor::new(Vec::new())).unwrap();
    for d in dirs {
        let mut entry = SevenZArchiveEntry::new();
        entry.name = d.to_string();
        entry.is_directory = true;
        writer.push_archive_entry::<&[u8]>(entry, None).unwrap();
    }
    for (name, data) in files {
        let mut entry = SevenZArchiveEntry::new();
        entry.name = name.to_string();
        entry.has_stream = true;
        writer.push_archive_entry(entry, Some(*data)).unwrap();
    }
    writer.finish().unwrap().into_inner()
}

#[test]
fn cb7_pages_are_its_image_files() {
    let bytes = seven_zip(&[("p2.png", b"two"), ("notes.txt", b"text"), ("p1.JPG", b"one")], &["art.png"]);
    let pages = cb7_pages(bytes).unwrap();
    let names: Vec<&str> = pages.iter().map(|(n, _)| n.as_str()).collect();
    assert_eq!(names, vec!["p2.png", "p1.JPG"]);
    assert_eq!(pages[0].1, b"two".to_vec());
    assert_eq!(pages[1].1, b"one".to_vec());
}

#[test]
fn cb7_of_other_bytes_is_refused() {
    let err = cb7_pages(b"not a 7z archive".to_vec()).unwrap_err();
    assert!(err.starts_with("Failed to read CB7 archive: "));
}

#[test]
fn cb7_without_pages_is_empty() {
    let bytes = seven_zip(&[("readme.txt", b"hello")], &[]);
    assert!(cb7_pages(bytes).unwrap().is_empty());
}

#[test]
fn test_extract_nonexistent_cb7() {
    // A file that is not there has no bytes, and no bytes are no 7z archive.
    let result = cb7_pages(Vec::new());
    assert!(result.is_err());
}

#[test]
fn cb7_listing_and_read_errors() {
    let r = extract_cb7(Err("BadSignature".to_string()), |_| Ok(Vec::new()));
    assert_eq!(r.unwrap_err(), "Failed to read CB7 archive: BadSignature");
    let files = vec![("a.png".to_string(), false)];
    let r = extract_cb7(Ok(files), |_| Err("ChecksumVerificationFailed".to_string()));
    assert_eq!(r.unwrap_err(), "Failed to read entries from CB7 archive: ChecksumVerificationFailed");
}

#[test]
fn cb7_keeps_only_listed_pages() {
    let files = vec![("b.png".to_string(), false), ("dir.png".to_string(), true), ("x.txt".to_string(), false)];
    assert_eq!(page_names(files.clone()), vec!["b.png".to_string()]);
    let r = extract_cb7(Ok(files), |wanted| {
        assert_eq!(wanted, &vec!["b.png".to_string()]);
        Ok(vec![("x.txt".to_string(), vec![1]), ("b.png".to_string(), vec![2])])
    });
    assert_eq!(r.unwrap(), vec![("b.png".to_string(), vec![2])]);
}
