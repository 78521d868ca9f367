use manga_reader_engine::gui::{
    cover_candidates, delete_series, find_cover_image, find_page, find_series, library_stats, mime_for_path, page_data_url,
    scanned_series, search_series, update_series_status, LibraryStats, MangaSeries, PageInfo,
};

fn series(id: &str, title: &str, author: &str, genres: &[&str], status: &str, chapters: u32) -> MangaSeries {
    MangaSeries {
        id: id.to_string(),
        title: title.to_string(),
        author: author.to_string(),
        cover_path: String::new(),
        total_chapters: chapters,
        genre: genres.iter().map(|g| g.to_string()).collect(),
        status: status.to_string(),
    }
}

fn library() -> Vec<MangaSeries> {
    vec![
        series("1", "One Piece", "Eiichiro Oda", &["Adventure", "Shonen"], "Reading", 1100),
        series("2", "Naruto", "Masashi Kishimoto", &["Ninja", "Shonen"], "Completed", 700),
        series("3", "Piece of Cake", "Someone", &["Comedy"], "Plan to Read", 5),
        series("4", "Berserk", "Kentaro Miura", &["Dark Fantasy"], "Reading", 364),
    ]
}

#[test]
fn stats_count_statuses_and_chapters() {
    let stats = library_stats(&library());
    assert_eq!(
        stats,
        LibraryStats {
            total_series: 4,
            total_chapters: 2169,
            total_pages: 0,
            reading_count: 2,
            completed_count: 1,
            plan_to_read_count: 1,
        }
    );
}

#[test]
fn update_status_of_known_and_unknown_series() {
    let mut lib = library();
    assert!(update_series_status(&mut lib, "2", "Dropped".to_string()).is_ok());
    assert_eq!(lib[1].status, "Dropped");
    assert_eq!(lib.len(), 4);
    assert_eq!(update_series_status(&mut lib, "9", "Reading".to_string()).unwrap_err(), "Series '9' not found");
}

#[test]
fn delete_removes_the_series() {
    let mut lib = library();
    delete_series(&mut lib, "3");
    assert_eq!(lib.len(), 3);
    assert!(find_series(&lib, "3").is_none());
    assert_eq!(find_series(&lib, "4"), Some(2));
    delete_series(&mut lib, "nope");
    assert_eq!(lib.len(), 3);
}

#[test]
fn search_ranks_title_prefix_then_title_author_genre() {
    let lib = library();
    let results = search_series(&lib, "PIECE");
    let ids: Vec<&str> = results.iter().map(|r| r.series_id.as_str()).collect();
    assert_eq!(ids, vec!["3", "1"]);
    assert_eq!(results[0].score_tenths, 10);
    assert_eq!(results[0].match_type, "title");
    assert_eq!(results[1].score_tenths, 8);

    let by_author = search_series(&lib, "miura");
    assert_eq!(by_author.len(), 1);
    assert_eq!(by_author[0].match_type, "author");
    assert_eq!(by_author[0].score_tenths, 6);

    let by_genre = search_series(&lib, "shonen");
    assert_eq!(by_genre.iter().map(|r| r.series_id.as_str()).collect::<Vec<_>>(), vec!["1", "2"]);
    assert!(by_genre.iter().all(|r| r.match_type == "genre" && r.score_tenths == 4));

    assert!(search_series(&lib, "zzz").is_empty());
}

#[test]
fn mime_types_by_extension() {
    assert_eq!(mime_for_path("a/b.PNG"), "image/png");
    assert_eq!(mime_for_path("x.webp"), "image/webp");
    assert_eq!(mime_for_path("x.gif"), "image/gif");
    assert_eq!(mime_for_path("x.jpeg"), "image/jpeg");
    assert_eq!(mime_for_path("noext"), "image/jpeg");
}

#[test]
fn data_url_is_base64() {
    assert_eq!(page_data_url("p.png", &[1, 2, 3]), "data:image/png;base64,AQID");
    assert_eq!(page_data_url("p.jpg", b"Man"), "data:image/jpeg;base64,TWFu");
    assert_eq!(page_data_url("p.gif", b"Ma"), "data:image/gif;base64,TWE=");
    assert_eq!(page_data_url("p.gif", b""), "data:image/gif;base64,");
}

#[test]
fn pages_are_found_by_index() {
    let pages = vec![
        PageInfo { index: 0, path: "0.jpg".to_string(), width: 1, height: 1 },
        PageInfo { index: 2, path: "2.jpg".to_string(), width: 1, height: 1 },
    ];
    assert_eq!(find_page(&pages, 2), Some(1));
    assert_eq!(find_page(&pages, 1), None);
}

fn entries(list: &[(&str, bool)]) -> Vec<(String, bool)> {
    list.iter().map(|(n, f)| (n.to_string(), *f)).collect()
}

fn present(names: &[&str]) -> Vec<bool> {
    cover_candidates().iter().map(|c| names.contains(&c.as_str())).collect()
}

#[test]
fn cover_names_come_first() {
    let e = entries(&[("001.jpg", true), ("folder.png", true), ("Cover.jpg", true)]);
    assert_eq!(find_cover_image(&present(&["folder.png", "Cover.jpg"]), &e), Some("Cover.jpg".to_string()));
    // A name the file system reports present counts, whatever the listing shows.
    assert_eq!(find_cover_image(&present(&["cover.jpg"]), &e), Some("cover.jpg".to_string()));
}

#[test]
fn first_image_file_is_the_fallback_cover() {
    let e = entries(&[("notes.txt", true), ("ch1.PNG", false), ("p2.JPEG", true), ("p1.jpg", true)]);
    assert_eq!(find_cover_image(&present(&[]), &e), Some("p2.JPEG".to_string()));
    assert_eq!(find_cover_image(&Vec::new(), &entries(&[("a.gif", true)])), None);
    assert_eq!(cover_candidates().len(), 14);
}

#[test]
fn scanned_directories_become_series() {
    let found = scanned_series(vec![
        ("Berserk".to_string(), Some("/m/Berserk/cover.jpg".to_string()), 3),
        ("Akira".to_string(), None, 0),
    ]);
    assert_eq!(found.len(), 2);
    assert_eq!(found[0].title, "Berserk");
    assert_eq!(found[0].cover_path, "/m/Berserk/cover.jpg");
    assert_eq!(found[0].total_chapters, 3);
    assert_eq!(found[1].cover_path, "");
    assert_eq!(found[1].author, "Unknown");
    assert_eq!(found[1].status, "Plan to Read");
    assert!(found[1].genre.is_empty());
    assert_eq!(found[0].id.len(), 36);
    assert_ne!(found[0].id, found[1].id);
    for series in &found {
        let id: Vec<char> = series.id.chars().collect();
        for (i, c) in id.iter().enumerate() {
            if [8, 13, 18, 23].contains(&i) {
                assert_eq!(*c, '-');
            } else {
                assert!(c.is_ascii_digit() || ('a'..='f').contains(c));
            }
        }
        assert_eq!(id[14], '4');
        assert!(['8', '9', 'a', 'b'].contains(&id[19]));
    }
}

#[test]
fn directory_names_sort_by_code_point() {
    let names: Vec<String> = ["b", "a-b", "Z", "a", "é", "a"].iter().map(|s| s.to_string()).collect();
    let sorted = manga_reader_engine::gui::sort_names(names.clone());
    assert_eq!(sorted, vec!["Z", "a", "a", "a-b", "b", "é"]);
    let mut expected = names;
    expected.sort();
    assert_eq!(sorted, expected);
}

#[test]
fn pages_are_located_by_chapter_and_index() {
    let page = |i: u32| PageInfo { index: i, path: format!("{}.jpg", i), width: 1, height: 1 };
    let chapters = vec![
        ("c1".to_string(), vec![page(0), page(1)]),
        ("c2".to_string(), vec![page(0), page(5)]),
    ];
    assert_eq!(manga_reader_engine::gui::locate_page(&chapters, "c2", 5), Ok((1, 1)));
    assert_eq!(manga_reader_engine::gui::locate_page(&chapters, "c3", 0).unwrap_err(), "Chapter 'c3' not found");
    assert_eq!(manga_reader_engine::gui::locate_page(&chapters, "c1", 42).unwrap_err(), "Page 42 not found in chapter");
}
