use copycolors::color::{Color, ColorError, PixelFormat};

fn rgb(r: u8, g: u8, b: u8) -> Color {
    Color { r, g, b }
}

#[test]
fn distance_to_self_is_zero() {
    for c in [rgb(0, 0, 0), rgb(255, 255, 255), rgb(12, 200, 77), rgb(255, 0, 128)] {
        assert_eq!(c.delta_rgb(c), 0);
    }
}

#[test]
fn distance_exact_formula() {
    // 512 * (2*100^2 + 4*0 + 3*50^2) + (110 + 10) * (100^2 - 50^2)
    let a = rgb(110, 20, 80);
    let b = rgb(10, 20, 30);
    assert_eq!(a.delta_rgb(b), 512 * (20000 + 7500) + 120 * (10000 - 2500));
    // 512 * 9 * 65025 for black against white
    assert_eq!(rgb(0, 0, 0).delta_rgb(rgb(255, 255, 255)), 299_635_200);
}

#[test]
fn distance_is_not_symmetric_under_channel_swap() {
    let a = rgb(200, 0, 0);
    let b = rgb(0, 0, 200);
    let c = rgb(0, 0, 0);
    assert_ne!(a.delta_rgb(c), b.delta_rgb(c));
    // dr = 200, db = 0, r1 + r2 = 200: 512 * 2 * 40000 + 200 * 40000
    assert_eq!(a.delta_rgb(c), 512 * 80000 + 200 * 40000);
    // dr = 0, db = 200, r1 + r2 = 0: 512 * 3 * 40000
    assert_eq!(b.delta_rgb(c), 512 * 120000);
}

#[test]
fn contrast_is_symmetric() {
    let pairs = [(rgb(0, 0, 0), rgb(255, 255, 255)), (rgb(10, 20, 30), rgb(200, 100, 50))];
    for (a, b) in pairs {
        assert_eq!(a.contrast_with(b), b.contrast_with(a));
    }
}

#[test]
fn brightness_values() {
    assert_eq!(rgb(255, 255, 255).color_brightness(), 255_000);
    assert_eq!(rgb(1, 1, 1).color_brightness(), 1000);
    assert_eq!(rgb(10, 0, 0).color_brightness(), 2990);
    assert_eq!(rgb(0, 0, 0).contrast_with(rgb(0, 10, 0)), 5870);
}

#[test]
fn best_contrast_picks_first_maximum() {
    let black = rgb(0, 0, 0);
    let white = rgb(255, 255, 255);
    assert_eq!(rgb(10, 10, 10).best_contrast(&[black, white]), white);
    assert_eq!(rgb(240, 240, 240).best_contrast(&[black, white]), black);
    let gray = rgb(128, 128, 128);
    // Equal distance either way: the first one wins.
    assert_eq!(gray.best_contrast(&[rgb(28, 28, 28), rgb(228, 228, 228)]), rgb(28, 28, 28));
    // The best of three is not the last one.
    assert_eq!(black.best_contrast(&[gray, white, gray]), white);
}

#[test]
fn hex_and_rgb_text() {
    assert_eq!(rgb(255, 0, 171).hexadecimal_str(), "#FF00AB");
    assert_eq!(rgb(1, 2, 3).hexadecimal_str(), "#010203");
    assert_eq!(rgb(255, 0, 171).rgb_str(), "RGB(255,0,171)");
    assert_eq!(rgb(9, 10, 99).rgb_str(), "RGB(9,10,99)");
    assert_eq!(rgb(7, 8, 9).to_slice(), [7, 8, 9]);
}

#[test]
fn hex_round_trip() {
    for c in [rgb(0, 0, 0), rgb(255, 255, 255), rgb(18, 52, 86), rgb(171, 205, 239)] {
        assert_eq!(Color::hex_to_rgb(&c.hexadecimal_str()), Ok(c));
    }
    assert_eq!(Color::hex_to_rgb("#abcdef"), Ok(rgb(0xab, 0xcd, 0xef)));
    assert_eq!(Color::hex_to_rgb("#AbCdEf"), Ok(rgb(0xab, 0xcd, 0xef)));
}

#[test]
fn hex_rejects_malformed_input() {
    for bad in ["#GGGGGG", "#FFF", "FFFFFF", "", "#FFFFFFF", " #FFFFFF", "#FFFFF\u{e9}"] {
        assert_eq!(Color::hex_to_rgb(bad), Err(ColorError::InvalidFormat), "{bad:?}");
    }
}

#[test]
fn decode_pixel_layouts() {
    assert_eq!(Color::pixels_to_rbg(&[1, 2, 3], PixelFormat::Rgb), rgb(1, 2, 3));
    assert_eq!(Color::pixels_to_rbg(&[1, 2, 3, 4], PixelFormat::Rgba), rgb(1, 2, 3));
    assert_eq!(Color::pixels_to_rbg(&[1, 2, 3, 4], PixelFormat::Argb), rgb(2, 3, 4));
    assert_eq!(Color::pixels_to_rbg(&[1, 2, 3], PixelFormat::Bgr), rgb(3, 2, 1));
    assert_eq!(Color::pixels_to_rbg(&[1, 2, 3, 4], PixelFormat::Bgra), rgb(3, 2, 1));
    assert_eq!(Color::pixels_to_rbg(&[1, 2, 3, 4, 5, 6], PixelFormat::Rgb), rgb(1, 2, 3));
    assert_eq!(PixelFormat::Bgr.stride(), 3);
    assert_eq!(PixelFormat::Argb.stride(), 4);
}
