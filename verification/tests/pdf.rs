use fluxtex::pdf::{
    bgra_to_rgba, check_page_count, page_error, page_from_bitmap, pdfium_candidates, render_pages,
    Bitmap,
    NO_PAGES_ERROR,
};

#[test]
fn bgra_swap_exchanges_blue_and_red() {
    let mut bytes = vec![1, 2, 3, 4, 5, 6, 7, 8, 9];
    bgra_to_rgba(&mut bytes);
    assert_eq!(bytes, vec![3, 2, 1, 4, 7, 6, 5, 8, 9]);
}

#[test]
fn bgra_swap_twice_is_identity() {
    let original: Vec<u8> = (0u8..23).collect();
    let mut bytes = original.clone();
    bgra_to_rgba(&mut bytes);
    assert_ne!(bytes, original);
    bgra_to_rgba(&mut bytes);
    assert_eq!(bytes, original);
}

#[test]
fn page_from_bitmap_encodes_png() {
    let page = page_from_bitmap(0, 1, 1, vec![10, 20, 30, 255]).expect("png");
    assert_eq!(page.width, 1);
    assert_eq!(page.height, 1);
    assert_eq!(&page.png[..8], &[137, 80, 78, 71, 13, 10, 26, 10]);
    let decoded = image::load_from_memory(&page.png).expect("decode").to_rgba8();
    assert_eq!(decoded.get_pixel(0, 0).0, [30, 20, 10, 255]);
}

#[test]
fn page_from_short_bitmap_fails() {
    match page_from_bitmap(4, 2, 2, vec![0; 15]) {
        Err(e) => assert_eq!(e, "Failed to create ImageBuffer for page 4"),
        Ok(_) => panic!("expected an error"),
    }
}

#[test]
fn page_errors_and_page_count() {
    assert_eq!(page_error("render", 2, "oom"), "Failed to render page 2: oom");
    assert_eq!(check_page_count(0), Err(NO_PAGES_ERROR.to_string()));
    assert_eq!(NO_PAGES_ERROR, "PDF has no pages");
    assert_eq!(check_page_count(3), Ok(()));
}

#[test]
fn render_pages_in_order_or_first_error() {
    assert!(matches!(render_pages(Vec::new()), Err(e) if e == "PDF has no pages"));
    let ok = render_pages(vec![
        Ok(Bitmap { width: 1, height: 1, bgra: vec![1, 2, 3, 255] }),
        Ok(Bitmap { width: 1, height: 2, bgra: vec![0; 8] }),
    ])
    .expect("pages");
    assert_eq!(ok.len(), 2);
    assert_eq!((ok[1].width, ok[1].height), (1, 2));
    let bad = render_pages(vec![
        Ok(Bitmap { width: 1, height: 1, bgra: vec![1, 2, 3, 255] }),
        Ok(Bitmap { width: 2, height: 2, bgra: vec![0; 3] }),
        Err("Failed to render page 2: x".to_string()),
    ]);
    assert!(matches!(bad, Err(e) if e == "Failed to create ImageBuffer for page 1"));
    let render_err = render_pages(vec![Err("Failed to get page 0: y".to_string())]);
    assert!(matches!(render_err, Err(e) if e == "Failed to get page 0: y"));
}

#[test]
fn pdfium_candidates_follow_lookup_order() {
    let dirs: Vec<String> = vec!["/a/b/c".to_string(), "/a/b".to_string(), "/a".to_string(), "/".to_string()];
    let got = pdfium_candidates(&dirs, "libpdfium.so");
    let want: Vec<String> = vec![
        "/a/b/c/libpdfium.so".to_string(),
        "/a/b/c/../Frameworks/libpdfium.so".to_string(),
        "/a/b/c/vendor/pdfium/lib/libpdfium.so".to_string(),
        "/a/b/vendor/pdfium/lib/libpdfium.so".to_string(),
        "/a/vendor/pdfium/lib/libpdfium.so".to_string(),
        "/vendor/pdfium/lib/libpdfium.so".to_string(),
    ];
    assert_eq!(got, want);
    assert!(pdfium_candidates(&Vec::new(), "libpdfium.so").is_empty());
}

#[test]
fn pdfium_candidates_stop_after_six_directories() {
    let dirs: Vec<String> = (0..9).map(|i| format!("/d{}", i)).collect();
    let got = pdfium_candidates(&dirs, "libpdfium.so");
    assert_eq!(got.len(), 8);
    assert_eq!(got[7], "/d5/vendor/pdfium/lib/libpdfium.so");
}
