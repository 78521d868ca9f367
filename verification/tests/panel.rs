use manga_reader_engine::panel::{GrayImage, GutterDetector, PanelRect};

fn detector() -> GutterDetector {
    GutterDetector { threshold: 200, gutter_continuity_gap: 3 }
}

#[test]
fn test_gap_detection() {
    let proj = vec![
        100u32, 100, 100, // top ink
        0, 0, 0, // gap
        100, 100, 100, // middle ink
        0, 0, 0, 0, // gap
        100, 100, // bottom ink
    ];

    let gaps = GutterDetector::detect_gaps(&proj, 10, 2, 1);
    assert_eq!(gaps.len(), 2);
    assert_eq!(gaps[0], (3, 5));
    assert_eq!(gaps[1], (9, 12));
}

#[test]
fn test_midpoints() {
    let gaps = vec![(3usize, 5usize), (9usize, 12usize)];
    let mids = GutterDetector::midpoints(&gaps, 15);
    assert_eq!(mids, vec![0, 4, 10, 14]);
}

#[test]
fn test_empty_page() {
    let page = image::DynamicImage::new_luma8(100, 100);
    let detector = detector();
    // The fractional settings of the default configuration, scaled to a 100×100 page.
    let result = detector.detect_image(&page, 1, 1, 3, 3);
    let panels = result.panels;
    assert!(panels.is_empty() || panels.len() <= 1);
}

#[test]
fn detect_image_reports_page_and_detector() {
    let page = image::DynamicImage::new_luma8(100, 60);
    let result = detector().detect_image(&page, 1, 1, 3, 3);
    assert_eq!(result.page_width, 100);
    assert_eq!(result.page_height, 60);
    assert_eq!(result.detector, "gutter");
    // The page's own luma pixels are what is split.
    let gray = GrayImage { width: 100, height: 60, pixels: vec![0u8; 6000] };
    let expected = detector().detect_layout(&gray, 1, 1, 3, 3);
    assert_eq!(result.panels, expected);
}

#[test]
fn detect_image_splits_two_panels_of_a_page() {
    // Two dark panels side by side with a white gutter between them.
    let mut buf = image::GrayImage::new(100, 60);
    for y in 0..60u32 {
        for x in 0..100u32 {
            let ink = (5..55).contains(&y) && ((5..45).contains(&x) || (55..95).contains(&x));
            buf.put_pixel(x, y, image::Luma([if ink { 0 } else { 255 }]));
        }
    }
    let page = image::DynamicImage::ImageLuma8(buf.clone());
    let result = detector().detect_image(&page, 1, 1, 3, 3);
    let gray = GrayImage { width: 100, height: 60, pixels: buf.into_raw() };
    let expected = detector().detect_layout(&gray, 1, 1, 3, 3);
    assert_eq!(result.panels, expected);
    assert_eq!(result.panels.len(), 2);
}

#[test]
fn close_gaps_merge() {
    let proj = vec![50u32, 0, 0, 50, 0, 0, 50, 50, 50, 50, 0, 0];
    let apart = GutterDetector::detect_gaps(&proj, 10, 2, 1);
    assert_eq!(apart, vec![(1, 2), (4, 5), (10, 11)]);
    let gaps = GutterDetector::detect_gaps(&proj, 10, 2, 2);
    assert_eq!(gaps, vec![(1, 5), (10, 11)]);
    let short = GutterDetector::detect_gaps(&proj, 10, 3, 1);
    assert!(short.is_empty());
}

#[test]
fn midpoints_are_sorted_and_unique() {
    let mids = GutterDetector::midpoints(&[(0, 0), (4, 6), (4, 7), (9, 9)], 10);
    assert_eq!(mids, vec![0, 5, 9]);
    assert_eq!(GutterDetector::midpoints(&[], 0), vec![0]);
}

#[test]
fn panels_from_splits() {
    let panels = GutterDetector::extract_panels(&[0, 50, 100], &[0, 40, 100], 10, 10);
    assert_eq!(panels.len(), 4);
    assert_eq!(panels[1], PanelRect { id: 1, x: 40, y: 0, width: 60, height: 50 });
    let small = GutterDetector::extract_panels(&[0, 5, 100], &[0, 100], 10, 10);
    assert_eq!(small, vec![PanelRect { id: 0, x: 0, y: 5, width: 100, height: 95 }]);
}

#[test]
fn projections_count_ink() {
    let img = GrayImage { width: 3, height: 2, pixels: vec![0, 255, 10, 250, 0, 0] };
    let bin = GutterDetector::threshold_image(&img, 200);
    assert_eq!(bin.pixels, vec![0, 255, 0, 255, 0, 0]);
    assert_eq!(GutterDetector::horizontal_projection(&bin), vec![2, 2]);
    assert_eq!(GutterDetector::vertical_projection(&bin), vec![1, 1, 2]);
}

#[test]
fn a_white_gutter_splits_the_page() {
    let (w, h) = (20u32, 20u32);
    let mut pixels = vec![0u8; (w * h) as usize];
    for y in 9..11 {
        for x in 0..w {
            pixels[(y * w + x) as usize] = 255;
        }
    }
    let page = GrayImage { width: w, height: h, pixels };
    let panels = detector().detect_layout(&page, 1, 1, 0, 0);
    assert_eq!(
        panels,
        vec![
            PanelRect { id: 0, x: 0, y: 0, width: 19, height: 9 },
            PanelRect { id: 1, x: 0, y: 9, width: 19, height: 10 },
        ]
    );
}

#[test]
fn panel_fits_within_its_page() {
    let p = PanelRect { id: 0, x: 10, y: 5, width: 90, height: 50 };
    assert!(p.fits_page(100, 55));
    assert!(!p.fits_page(99, 55));
    assert!(!p.fits_page(100, 54));
    let huge = PanelRect { id: 1, x: u32::MAX, y: 0, width: 1, height: 1 };
    assert!(!huge.fits_page(u32::MAX, 1));
}
