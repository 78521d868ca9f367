use manga_reader_engine::archive::{
    extract, is_image_extension, is_image_filename, is_page_entry, order_pages, ArchiveEntry, ArchiveType,
};

#[test]
fn test_detect_archive_type() {
    assert_eq!(ArchiveType::from_path("test.cbz"), Some(ArchiveType::Cbz));
    assert_eq!(ArchiveType::from_path("test.cbr"), Some(ArchiveType::Cbr));
    assert_eq!(ArchiveType::from_path("test.cb7"), Some(ArchiveType::Cb7));
    assert_eq!(ArchiveType::from_path("test.zip"), Some(ArchiveType::Cbz));
    assert_eq!(ArchiveType::from_path("test.rar"), Some(ArchiveType::Cbr));
    assert_eq!(ArchiveType::from_path("test.7z"), Some(ArchiveType::Cb7));
    assert_eq!(ArchiveType::from_path("/some/dir"), Some(ArchiveType::Folder));
    assert_eq!(ArchiveType::from_path("test.txt"), None);
}

#[test]
fn test_is_image_extension() {
    assert!(is_image_filename("page001.jpg"));
    assert!(is_image_filename("cover.png"));
    assert!(is_image_filename("scan.webp"));
    assert!(!is_image_filename("metadata.xml"));
    assert!(!is_image_filename("thumbnail.db"));
}

#[test]
fn archive_type_ignores_case_and_reads_last_component() {
    assert_eq!(ArchiveType::from_path("Vol.01.CBZ"), Some(ArchiveType::Cbz));
    assert_eq!(ArchiveType::from_path("/library/One.Piece/ch1.Rar"), Some(ArchiveType::Cbr));
    assert_eq!(ArchiveType::from_path("/library/book.epub"), None);
    assert_eq!(ArchiveType::from_path("/library/.hidden"), Some(ArchiveType::Folder));
}

#[test]
fn directory_on_disk_is_a_folder() {
    assert_eq!(ArchiveType::from_path_on_disk("/library/odd.zip", true), Some(ArchiveType::Folder));
    assert_eq!(ArchiveType::from_path_on_disk("/library/odd.zip", false), Some(ArchiveType::Cbz));
    assert_eq!(ArchiveType::from_path_on_disk("notes.txt", false), None);
    assert_eq!(ArchiveType::from_path_on_disk("/library/README", false), None);
    assert_eq!(ArchiveType::from_path_on_disk("/library/series", true), Some(ArchiveType::Folder));
}

#[test]
fn image_extension_of_paths() {
    assert!(is_image_extension("chapter/01.JPEG"));
    assert!(is_image_extension("scan.tif"));
    assert!(!is_image_extension("scan.tiff.bak"));
    assert!(!is_image_extension("dir.png/readme"));
    assert!(!is_image_extension(".png"));
    assert!(is_image_filename("PAGE.GIF"));
    assert!(!is_image_filename("jpg"));
}

#[test]
fn page_entries_are_image_files() {
    assert!(is_page_entry("p/01.png", false));
    assert!(!is_page_entry("images.png", true));
    assert!(!is_page_entry("ComicInfo.xml", false));
}

fn raw(path: &str, byte: u8) -> (String, Vec<u8>) {
    (path.to_string(), vec![byte])
}

fn paths(pages: &[ArchiveEntry]) -> Vec<&str> {
    pages.iter().map(|p| p.path.as_str()).collect()
}

#[test]
fn pages_sort_by_path_components() {
    let pages = order_pages(vec![raw("b/1.jpg", 1), raw("a-b.jpg", 2), raw("a/2.jpg", 3), raw("a/10.jpg", 4)]);
    assert_eq!(paths(&pages), vec!["a/10.jpg", "a/2.jpg", "a-b.jpg", "b/1.jpg"]);
    for (i, p) in pages.iter().enumerate() {
        assert_eq!(p.page_index, i);
    }
    assert_eq!(pages[0].data, vec![4]);
    assert_eq!(pages[3].data, vec![1]);
}

#[test]
fn equal_paths_keep_their_order() {
    let pages = order_pages(vec![raw("x.jpg", 1), raw("a.jpg", 9), raw("x.jpg", 2), raw("./x.jpg", 3)]);
    assert_eq!(paths(&pages), vec!["./x.jpg", "a.jpg", "x.jpg", "x.jpg"]);
    assert_eq!(pages[2].data, vec![1]);
    assert_eq!(pages[3].data, vec![2]);
}

#[test]
fn redundant_separators_do_not_change_order() {
    let pages = order_pages(vec![raw("a//b.jpg", 1), raw("a/./a.jpg", 2), raw("/z.jpg", 3)]);
    assert_eq!(paths(&pages), vec!["/z.jpg", "a/./a.jpg", "a//b.jpg"]);
}

#[test]
fn extract_orders_what_is_read() {
    let r = extract("vol1.cbz", false, |t| {
        assert_eq!(t, ArchiveType::Cbz);
        Ok(vec![raw("p2.png", 2), raw("p1.png", 1)])
    });
    let pages = r.unwrap();
    assert_eq!(paths(&pages), vec!["p1.png", "p2.png"]);
    assert_eq!(pages[1].page_index, 1);
}

#[test]
fn extract_rejects_unknown_type() {
    let r = extract("notes.txt", false, |_| Ok(Vec::new()));
    assert_eq!(r.unwrap_err(), "Unsupported archive type: notes.txt");
}

#[test]
fn extract_passes_read_errors_on() {
    let r = extract("/manga/series", true, |t| {
        assert_eq!(t, ArchiveType::Folder);
        Err("Failed to read directory".to_string())
    });
    assert_eq!(r.unwrap_err(), "Failed to read directory");
}

#[test]
fn empty_archive_has_no_pages() {
    assert!(order_pages(Vec::new()).is_empty());
}

#[test]
fn extract_keeps_only_image_entries() {
    let r = extract("vol2.cbz", false, |_| Ok(vec![raw("notes.txt", 9), raw("b.PNG", 2), raw("a.jpeg", 1), raw("dir/", 3)]));
    let pages = r.unwrap();
    assert_eq!(paths(&pages), vec!["a.jpeg", "b.PNG"]);
    assert_eq!((pages[0].page_index, pages[1].page_index), (0, 1));
}

#[test]
fn pdf_is_an_unsupported_archive_type() {
    assert_eq!(ArchiveType::from_path("book.pdf"), None);
    let r = extract("book.pdf", false, |_| Ok(vec![raw("p1.png", 1)]));
    assert_eq!(r.unwrap_err(), "Unsupported archive type: book.pdf");
}
