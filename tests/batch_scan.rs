use copycolors::batch::{GaugeApp, GaugeAppState, KeyPress, ProgressState, ScanResult};
use copycolors::color::Color;
use copycolors::image::{DecodedImage, ImageColorType};
use copycolors::batch::ScanEntry;
use copycolors::image_file::{extract_entry, get_extracted_colors, ImageFile, OpenError};
use copycolors::scan::{
    get_matching_files, select_image_files, DirError, FilePattern, ScanError, WalkEntry,
};

fn file(path: &str, name: &str) -> WalkEntry {
    WalkEntry { path: path.to_string(), file_name: Some(name.to_string()), is_file: true }
}

fn listing() -> Vec<WalkEntry> {
    vec![
        WalkEntry { path: "dir".to_string(), file_name: Some("dir".to_string()), is_file: false },
        file("dir/a.png", "a.png"),
        file("dir/b.txt", "b.txt"),
        file("dir/c.JPG", "c.JPG"),
    ]
}

#[test]
fn scan_selects_images_case_insensitively() {
    let r = get_matching_files(None, &Ok(listing()));
    assert_eq!(r, Ok(vec!["dir/a.png".to_string(), "dir/c.JPG".to_string()]));
}

#[test]
fn scan_with_pattern() {
    let r = get_matching_files(Some("^c"), &Ok(listing()));
    assert_eq!(r, Ok(vec!["dir/c.JPG".to_string()]));
    let r = get_matching_files(Some(""), &Ok(listing()));
    assert_eq!(r, Ok(vec!["dir/a.png".to_string(), "dir/c.JPG".to_string()]));
    let p = FilePattern::new("a|b").unwrap();
    assert!(p.is_match("xay"));
    assert!(!p.is_match("xyz"));
    let images = FilePattern::images().unwrap();
    assert_eq!(select_image_files(&listing(), &images, Some(&p)), vec!["dir/a.png".to_string()]);
}

#[test]
fn scan_errors_are_distinct() {
    assert_eq!(get_matching_files(Some("a("), &Ok(listing())), Err(ScanError::InvalidPattern));
    assert_eq!(get_matching_files(Some("a("), &Err(DirError::NotFound)), Err(ScanError::InvalidPattern));
    assert_eq!(get_matching_files(None, &Err(DirError::NotFound)), Err(ScanError::NotFound));
    assert_eq!(
        get_matching_files(Some(".*"), &Err(DirError::PermissionDenied)),
        Err(ScanError::PermissionDenied)
    );
    assert_eq!(get_matching_files(None, &Err(DirError::Other)), Err(ScanError::Unreadable));
}

#[test]
fn scan_empty_match_is_not_an_error() {
    let entries = vec![file("d/notes.txt", "notes.txt")];
    assert_eq!(get_matching_files(None, &Ok(entries)), Ok(vec![]));
    assert_eq!(get_matching_files(None, &Ok(vec![])), Ok(vec![]));
}

#[test]
fn image_extensions() {
    let images = FilePattern::images().unwrap();
    for name in ["a.png", "b.jpeg", "c.Jpg", "d.GIF", "e.bmp", "f.ico", "g.tiff", "h.webp",
        "i.avif", "j.pnm", "k.dds", "l.TGA", "archive.png.txt", "m.dd\u{17f}"] {
        assert!(images.is_match(name), "{name}");
    }
    for name in ["png", "a.txt", "a_png", "a.pn", "", "tga."] {
        assert!(!images.is_match(name), "{name}");
    }
    let unnamed = WalkEntry { path: "d/x.png".to_string(), file_name: None, is_file: true };
    assert_eq!(select_image_files(&vec![unnamed], &images, None), Vec::<String>::new());
}

fn striped(n: u8) -> DecodedImage {
    let mut bytes = Vec::new();
    for k in 0..300u32 {
        let v = (k as u8).wrapping_mul(n);
        bytes.extend([v, 255 - v, v / 2]);
    }
    DecodedImage { bytes, color: ImageColorType::Rgb8 }
}

#[test]
fn batch_with_corrupt_file_keeps_going() {
    let files = vec![
        ImageFile::new("d/1.png".to_string(), Ok(striped(3))),
        ImageFile::new("d/2.png".to_string(), Err(OpenError::Unreadable)),
        ImageFile::new("d/3.png".to_string(), Ok(striped(7))),
    ];
    let mut progress = ProgressState::new(3);
    let mut result = ScanResult::new();
    // Workers finish in any order.
    for k in [2usize, 0, 1] {
        let f = &files[k];
        let colors = get_extracted_colors(f, 4, &vec![], None);
        progress.record(f.file_path.clone());
        result.insert(f.file_path.clone(), colors);
    }
    assert_eq!(progress.percent(), 100);
    assert_eq!(result.len(), 3);
    let sorted = result.into_sorted();
    let paths: Vec<&str> = sorted.iter().map(|e| e.path.as_str()).collect();
    assert_eq!(paths, vec!["d/1.png", "d/2.png", "d/3.png"]);
    assert_eq!(sorted[1].colors, Err("Error while opening the file!".to_string()));
    for k in [0, 2] {
        let p = sorted[k].colors.as_ref().unwrap();
        assert!(!p.is_empty() && p.len() <= 4);
    }
}

#[test]
fn scan_result_first_write_wins() {
    let mut result = ScanResult::new();
    let red = Color { r: 255, g: 0, b: 0 };
    result.insert("b".to_string(), Ok(vec![red]));
    result.insert("a".to_string(), Err("x".to_string()));
    result.insert("b".to_string(), Err("late".to_string()));
    assert_eq!(result.len(), 2);
    assert!(result.contains_path(&"a".to_string()));
    assert!(!result.contains_path(&"c".to_string()));
    let sorted = result.into_sorted();
    assert_eq!(sorted[0].path, "a");
    assert_eq!(sorted[1].path, "b");
    assert_eq!(sorted[1].colors, Ok(vec![red]));
}

#[test]
fn scan_result_sorts_bytewise() {
    let mut result = ScanResult::new();
    for p in ["b", "B", "a/z", "a", "\u{e9}", "ab"] {
        result.insert(p.to_string(), Ok(vec![]));
    }
    let sorted: Vec<String> = result.into_sorted().into_iter().map(|e| e.path).collect();
    let mut expected: Vec<String> = ["b", "B", "a/z", "a", "\u{e9}", "ab"].iter().map(|s| s.to_string()).collect();
    expected.sort();
    assert_eq!(sorted, expected);
}

#[test]
fn progress_reaches_exactly_hundred() {
    let n: u64 = 7;
    let mut p = ProgressState::new(n);
    assert_eq!(p.percent(), 0);
    let mut last = 0;
    for k in 0..n {
        p.record(format!("f{k}"));
        let now = p.percent();
        assert!(now >= last && now <= 100);
        last = now;
    }
    assert_eq!(p.percent(), 100);
    assert_eq!(p.current_file, "f6");
    p.record("extra".to_string());
    assert_eq!(p.percent(), 100);
    let mut q = ProgressState::new(3);
    q.record("x".to_string());
    assert_eq!(q.percent(), 33);
    q.record("y".to_string());
    assert_eq!(q.percent(), 66);
    assert_eq!(ProgressState::new(0).percent(), 100);
}

#[test]
fn gauge_state_machine() {
    let mut g = GaugeApp::new();
    g.update(50, "ignored".to_string());
    assert_eq!(g.progress, 0);
    assert_eq!(g.state, GaugeAppState::Running);
    g.start();
    g.update(40, "a.png".to_string());
    assert_eq!(g.progress, 40);
    assert_eq!(g.current_file, "a.png");
    assert!(!g.is_quitting());
    g.update(120, "b.png".to_string());
    assert_eq!(g.progress, 100);
    assert!(g.is_quitting());
    let mut h = GaugeApp::new();
    h.handle_key(KeyPress::Char('x'), false);
    assert_eq!(h.state, GaugeAppState::Started);
    h.handle_key(KeyPress::Char('c'), false);
    assert_eq!(h.state, GaugeAppState::Started);
    h.handle_key(KeyPress::Char('C'), true);
    assert!(h.is_quitting());
    let mut k = GaugeApp::new();
    k.handle_key(KeyPress::Esc, false);
    assert!(k.is_quitting());
    k.handle_key(KeyPress::Down, false);
    k.quit();
    assert!(k.is_quitting());
}

#[test]
fn batch_collects_one_entry_per_file() {
    let files = vec![
        ImageFile::new("d/1.png".to_string(), Ok(striped(3))),
        ImageFile::new("d/2.png".to_string(), Err(OpenError::Unreadable)),
        ImageFile::new("d/3.png".to_string(), Ok(striped(7))),
    ];
    let entries: Vec<ScanEntry> = files.into_iter().map(|f| extract_entry(f, 3, &vec![], None)).collect();
    let result = ScanResult::collect(entries);
    assert_eq!(result.len(), 3);
    let sorted = result.into_sorted();
    assert!(sorted[0].colors.is_ok());
    assert_eq!(sorted[1].path, "d/2.png");
    assert_eq!(sorted[1].colors, Err("Error while opening the file!".to_string()));
    assert!(sorted[2].colors.is_ok());
    let dup = vec![
        ScanEntry { path: "a".to_string(), colors: Ok(vec![]) },
        ScanEntry { path: "a".to_string(), colors: Err("second".to_string()) },
    ];
    let result = ScanResult::collect(dup);
    assert_eq!(result.len(), 1);
    assert_eq!(result.into_sorted()[0].colors, Ok(vec![]));
}
