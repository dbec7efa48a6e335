use copycolors::color::{Color, PixelFormat};
use copycolors::image::{
    filter_pixels, DecodedImage, FilterError, ImageColorType, ImageTrait,
    DEFAULT_THRESHOLD_PERMILLE,
};

fn rgb(r: u8, g: u8, b: u8) -> Color {
    Color { r, g, b }
}

#[test]
fn empty_exclusion_returns_buffer_untouched() {
    let pixels: Vec<u8> = vec![1, 2, 3, 4, 5, 6, 7, 8, 9, 10, 11];
    let out = filter_pixels(&pixels, PixelFormat::Rgba, &[], DEFAULT_THRESHOLD_PERMILLE);
    assert_eq!(out, Ok(pixels.clone()));
}

#[test]
fn uniform_image_with_its_color_excluded_is_empty() {
    let pixels: Vec<u8> = [200u8, 10, 30].repeat(50);
    let out = filter_pixels(&pixels, PixelFormat::Rgb, &[rgb(200, 10, 30)], DEFAULT_THRESHOLD_PERMILLE);
    assert_eq!(out, Ok(vec![]));
}

#[test]
fn filter_keeps_far_pixels_as_rgb() {
    // Two RGBA pixels: black and white; exclude near-black.
    let pixels: Vec<u8> = vec![0, 0, 0, 255, 255, 255, 255, 255];
    let out = filter_pixels(&pixels, PixelFormat::Rgba, &[rgb(5, 5, 5)], DEFAULT_THRESHOLD_PERMILLE);
    assert_eq!(out, Ok(vec![255, 255, 255]));
    // BGR input is written back in RGB order.
    let out = filter_pixels(&vec![3, 2, 1], PixelFormat::Bgr, &[rgb(255, 255, 255)], 50);
    assert_eq!(out, Ok(vec![1, 2, 3]));
}

#[test]
fn filter_threshold_boundary() {
    // Distance of (0,0,0) to (0,40,0), scaled: 512 * 4 * 1600 = 3_276_800,
    // which is 1600*4/585225 of the largest distance, about 1.09%.
    let pixels: Vec<u8> = vec![0, 0, 0];
    let ex = [rgb(0, 40, 0)];
    assert_eq!(filter_pixels(&pixels, PixelFormat::Rgb, &ex, 10), Ok(vec![0, 0, 0]));
    assert_eq!(filter_pixels(&pixels, PixelFormat::Rgb, &ex, 11), Ok(vec![]));
}

#[test]
fn filter_rejects_partial_pixels() {
    let pixels: Vec<u8> = vec![1, 2, 3, 4];
    let out = filter_pixels(&pixels, PixelFormat::Rgb, &[rgb(0, 0, 0)], 50);
    assert_eq!(out, Err(FilterError::StrideMismatch));
}

#[test]
fn image_trait_formats() {
    let img = DecodedImage { bytes: vec![9, 9, 9, 9], color: ImageColorType::Rgba8 };
    assert_eq!(img.color_format(), Ok(PixelFormat::Rgba));
    assert_eq!(img.color_size(), 4);
    let img = DecodedImage { bytes: vec![9, 9, 9], color: ImageColorType::Rgb8 };
    assert_eq!(img.color_size(), 3);
    let img = DecodedImage { bytes: vec![], color: ImageColorType::L16 };
    assert_eq!(
        img.color_format(),
        Err("Sorry, images with L16 color type pixels are not supported.".to_string())
    );
    assert_eq!(img.color_size(), 4);
    assert!(img.filtered_image_bytes(&[rgb(0, 0, 0)]).is_err());
}

#[test]
fn image_trait_filters_pixels() {
    let img = DecodedImage { bytes: vec![0, 0, 0, 9, 250, 250, 250, 9], color: ImageColorType::Rgba8 };
    assert_eq!(img.filtered_image_bytes(&[rgb(0, 0, 0)]), Ok(vec![250, 250, 250]));
}
