use copycolors::color::{Color, PixelFormat};
use copycolors::image::{DecodedImage, ImageColorType};
use copycolors::image_file::{get_extracted_colors, ImageFile, OpenError};
use copycolors::palette::{
    dedup_colors, extract_palette, finish_palette, sort_by_contrast, ExtractionError,
};

fn rgb(r: u8, g: u8, b: u8) -> Color {
    Color { r, g, b }
}

const RED: Color = Color { r: 255, g: 0, b: 0 };
const BLUE: Color = Color { r: 0, g: 0, b: 255 };

/// An RGB buffer with blocks of several distinct colors.
fn striped_pixels() -> Vec<u8> {
    let mut v = Vec::new();
    for c in [rgb(200, 30, 30), rgb(30, 200, 30), rgb(30, 30, 200), rgb(20, 20, 20)] {
        for _ in 0..400 {
            v.extend([c.r, c.g, c.b]);
        }
    }
    v
}

#[test]
fn dedup_keeps_first_occurrences() {
    assert_eq!(finish_palette(&vec![RED, RED, BLUE], None), vec![RED, BLUE]);
    assert_eq!(dedup_colors(&vec![BLUE, RED, BLUE, RED]), vec![BLUE, RED]);
    assert_eq!(dedup_colors(&vec![]), vec![]);
}

#[test]
fn contrast_ordering_against_white() {
    let gray = rgb(128, 128, 128);
    let black = rgb(0, 0, 0);
    let white = rgb(255, 255, 255);
    assert_eq!(finish_palette(&vec![gray, black, white], Some(white)), vec![black, gray, white]);
    // Against black the order reverses.
    assert_eq!(sort_by_contrast(&vec![gray, black, white], black), vec![white, gray, black]);
}

#[test]
fn contrast_ordering_is_stable() {
    // Both have brightness 5870: they keep their input order.
    let a = rgb(0, 10, 0);
    let b = rgb(4, 0, 41);
    let bright = rgb(200, 200, 200);
    let black = rgb(0, 0, 0);
    assert_eq!(sort_by_contrast(&vec![a, bright, b], black), vec![bright, a, b]);
    assert_eq!(sort_by_contrast(&vec![b, bright, a], black), vec![bright, b, a]);
}

#[test]
fn extract_real_quantizer_bounds_and_dedup() {
    let pixels = striped_pixels();
    for count in 2u8..=10 {
        let palette = extract_palette(&pixels, PixelFormat::Rgb, &[], count, None).unwrap();
        assert!(!palette.is_empty());
        assert!(palette.len() <= count as usize);
        for i in 0..palette.len() {
            for j in 0..i {
                assert_ne!(palette[i], palette[j]);
            }
        }
    }
}

#[test]
fn extract_orders_by_contrast_with_reference() {
    let pixels = striped_pixels();
    let white = rgb(255, 255, 255);
    let palette = extract_palette(&pixels, PixelFormat::Rgb, &[], 5, Some(white)).unwrap();
    for w in palette.windows(2) {
        assert!(w[0].contrast_with(white) >= w[1].contrast_with(white));
    }
}

#[test]
fn extract_no_data_when_everything_is_excluded() {
    let pixels: Vec<u8> = [10u8, 10, 10].repeat(30);
    let r = extract_palette(&pixels, PixelFormat::Rgb, &[rgb(10, 10, 10)], 3, None);
    assert_eq!(r, Err(ExtractionError::NoData));
    let r = extract_palette(&vec![], PixelFormat::Rgba, &[], 3, None);
    assert_eq!(r, Err(ExtractionError::NoData));
}

#[test]
fn extract_stride_mismatch() {
    let r = extract_palette(&vec![1, 2, 3, 4, 5], PixelFormat::Rgba, &[RED], 3, None);
    assert_eq!(r, Err(ExtractionError::StrideMismatch));
    // Also without excluded colors.
    let r = extract_palette(&vec![1, 2, 3, 4], PixelFormat::Rgb, &[], 3, None);
    assert_eq!(r, Err(ExtractionError::StrideMismatch));
}

#[test]
fn extract_excluded_color_leaves_palette() {
    let pixels = striped_pixels();
    let excluded = [rgb(20, 20, 20)];
    let palette = extract_palette(&pixels, PixelFormat::Rgb, &excluded, 6, None).unwrap();
    for c in &palette {
        assert!(c.delta_rgb(excluded[0]) > 0);
    }
}

#[test]
fn image_file_messages() {
    let missing = ImageFile::new("x.png".to_string(), Err(OpenError::NotFound));
    assert_eq!(
        get_extracted_colors(&missing, 3, &vec![], None),
        Err("File not found.\nPlease be sure you provide the correct path!".to_string())
    );
    let corrupt = ImageFile::new("y.png".to_string(), Err(OpenError::Unreadable));
    assert_eq!(
        get_extracted_colors(&corrupt, 3, &vec![], None),
        Err("Error while opening the file!".to_string())
    );
    let gray = ImageFile::new(
        "z.png".to_string(),
        Ok(DecodedImage { bytes: vec![1, 2], color: ImageColorType::La8 }),
    );
    assert_eq!(
        get_extracted_colors(&gray, 3, &vec![], None),
        Err("Sorry, images with La8 color type pixels are not supported.".to_string())
    );
    let ok = ImageFile::new(
        "w.png".to_string(),
        Ok(DecodedImage { bytes: striped_pixels(), color: ImageColorType::Rgb8 }),
    );
    assert_eq!(ok.file_path, "w.png");
    let colors = ok.get_colors_from_images(4, &vec![], None).unwrap();
    assert!(!colors.is_empty() && colors.len() <= 4);
}
