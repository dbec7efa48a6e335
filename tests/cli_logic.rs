use copycolors::browse::{
    decrement_nb_extracted_colors, increment_nb_extracted_colors, next_index, previous_index,
    valid_color_count,
};
use copycolors::scan::image_link;

#[test]
fn image_link_cuts_after_last_extension() {
    assert_eq!(image_link("photo.png"), Some("photo.png".to_string()));
    assert_eq!(
        image_link("https://x.org/a/img.JPEG?size=2"),
        Some("https://x.org/a/img.JPEG".to_string())
    );
    assert_eq!(image_link("a.png.b.gif.txt"), Some("a.png.b.gif".to_string()));
    assert_eq!(image_link("dir/file.pngx"), Some("dir/file.png".to_string()));
    assert_eq!(image_link("notes.txt"), None);
    assert_eq!(image_link(""), None);
}

#[test]
fn image_link_stays_on_one_line() {
    // The match starts on the line of the first extension and does not cross a line break.
    assert_eq!(image_link("x\ny.png\nz.gif"), Some("y.png".to_string()));
    assert_eq!(image_link("a\nb.bmp c.ico"), Some("b.bmp c.ico".to_string()));
}

#[test]
fn list_selection_wraps() {
    assert_eq!(next_index(None, 3), Some(0));
    assert_eq!(next_index(Some(0), 3), Some(1));
    assert_eq!(next_index(Some(2), 3), Some(0));
    assert_eq!(next_index(Some(1), 0), None);
    assert_eq!(previous_index(None, 3), Some(0));
    assert_eq!(previous_index(Some(0), 3), Some(2));
    assert_eq!(previous_index(Some(2), 3), Some(1));
    assert_eq!(previous_index(Some(0), 0), None);
}

#[test]
fn color_count_bounds() {
    assert_eq!(increment_nb_extracted_colors(5), 6);
    assert_eq!(increment_nb_extracted_colors(10), 10);
    assert_eq!(decrement_nb_extracted_colors(5), 4);
    assert_eq!(decrement_nb_extracted_colors(2), 2);
    assert!(valid_color_count(2) && valid_color_count(10));
    assert!(!valid_color_count(1) && !valid_color_count(11) && !valid_color_count(0));
}

