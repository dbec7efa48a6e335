//! Colors and the metrics on them.
//!
//! Brightness, contrast and distance are computed exactly on integers:
//! brightness is kept in thousandths and distance is kept scaled by 512,
//! so that no rounding enters the comparisons that rest on them.

use vstd::prelude::*;

verus! {

/// A color with three 8-bit channels.
#[derive(Clone, Copy, Debug, PartialEq, Eq, Structural, Hash)]
pub struct Color {
    pub r: u8,
    pub g: u8,
    pub b: u8,
}

/// Channel layout of a raw pixel buffer.
#[derive(Clone, Copy, Debug, PartialEq, Eq, Structural, Hash)]
pub enum PixelFormat {
    Rgb,
    Rgba,
    Argb,
    Bgr,
    Bgra,
}

/// Number of bytes of one pixel in the given layout.
pub open spec fn stride_spec(format: PixelFormat) -> nat {
    match format {
        PixelFormat::Rgb => 3,
        PixelFormat::Bgr => 3,
        PixelFormat::Rgba => 4,
        PixelFormat::Argb => 4,
        PixelFormat::Bgra => 4,
    }
}

/// The color of the pixel that starts at `pos` in `bytes`.
pub open spec fn pixel_at(bytes: Seq<u8>, pos: int, format: PixelFormat) -> Color {
    match format {
        PixelFormat::Rgb | PixelFormat::Rgba => Color {
            r: bytes[pos],
            g: bytes[pos + 1],
            b: bytes[pos + 2],
        },
        PixelFormat::Argb => Color { r: bytes[pos + 1], g: bytes[pos + 2], b: bytes[pos + 3] },
        PixelFormat::Bgr | PixelFormat::Bgra => Color {
            r: bytes[pos + 2],
            g: bytes[pos + 1],
            b: bytes[pos],
        },
    }
}

/// Brightness in thousandths: 299 r + 587 g + 114 b (so 0 ..= 255000).
pub open spec fn brightness_spec(c: Color) -> int {
    299 * c.r + 587 * c.g + 114 * c.b
}

/// Contrast in thousandths: the absolute difference of the brightnesses.
pub open spec fn contrast_spec(c1: Color, c2: Color) -> int {
    let d = brightness_spec(c1) - brightness_spec(c2);
    if d < 0 {
        -d
    } else {
        d
    }
}

/// The perceptual distance scaled by 512:
/// 512 (2 dr^2 + 4 dg^2 + 3 db^2) + (r1 + r2) (dr^2 - db^2),
/// which is 512 times 2 dr^2 + 4 dg^2 + 3 db^2 + ((r1 + r2) / 2) (dr^2 - db^2) / 256.
pub open spec fn distance_spec(c1: Color, c2: Color) -> int {
    let dr: int = c1.r - c2.r;
    let dg: int = c1.g - c2.g;
    let db: int = c1.b - c2.b;
    let dr_sq: int = dr * dr;
    let dg_sq: int = dg * dg;
    let db_sq: int = db * db;
    512 * (2 * dr_sq + 4 * dg_sq + 3 * db_sq) + (c1.r + c2.r) * (dr_sq - db_sq)
}

/// The largest distance of two 8-bit colors, 585225, scaled by 512 as `distance_spec` is.
pub const MAX_DISTANCE_SCALED: u64 = 299635200;

impl PixelFormat {
    /// Number of bytes of one pixel: 3 for RGB and BGR, 4 otherwise.
    pub fn stride(&self) -> (r: usize)
        ensures
            r == stride_spec(*self),
    {
        match self {
            PixelFormat::Rgb | PixelFormat::Bgr => 3,
            _ => 4,
        }
    }
}

proof fn lemma_square_bounds(d: int)
    requires
        -255 <= d <= 255,
    ensures
        0 <= d * d <= 65025,
{
    assert(0 <= d * d <= 65025) by (nonlinear_arith)
        requires
            -255 <= d <= 255,
    ;
}

/// The scaled distance is never negative and never exceeds `MAX_DISTANCE_SCALED`.
pub proof fn lemma_distance_bounds(c1: Color, c2: Color)
    ensures
        0 <= distance_spec(c1, c2) <= MAX_DISTANCE_SCALED,
{
    let dr: int = c1.r - c2.r;
    let dg: int = c1.g - c2.g;
    let db: int = c1.b - c2.b;
    lemma_square_bounds(dr);
    lemma_square_bounds(dg);
    lemma_square_bounds(db);
    let s: int = c1.r + c2.r;
    let x: int = dr * dr;
    let y: int = dg * dg;
    let z: int = db * db;
    assert(distance_spec(c1, c2) == 512 * (2 * x + 4 * y + 3 * z) + s * (x - z));
    assert((1024 + s) * x <= (1024 + s) * 65025) by (nonlinear_arith)
        requires
            0 <= x <= 65025,
            0 <= s,
    ;
    assert((1536 - s) * z <= (1536 - s) * 65025) by (nonlinear_arith)
        requires
            0 <= z <= 65025,
            s <= 510,
    ;
    assert(0 <= 512 * (2 * x + 4 * y + 3 * z) + s * (x - z) <= 299635200) by (nonlinear_arith)
        requires
            0 <= x <= 65025,
            0 <= y <= 65025,
            0 <= z <= 65025,
            0 <= s <= 510,
            (1024 + s) * x <= (1024 + s) * 65025,
            (1536 - s) * z <= (1536 - s) * 65025,
    ;
}

/// Black and white are at the largest distance.
pub proof fn lemma_max_distance_reached()
    ensures
        distance_spec(Color { r: 0, g: 0, b: 0 }, Color { r: 255, g: 255, b: 255 })
            == MAX_DISTANCE_SCALED,
{
    let c1 = Color { r: 0, g: 0, b: 0 };
    let c2 = Color { r: 255, g: 255, b: 255 };
    let d: int = c1.r - c2.r;
    assert(d == -255);
    assert(d * d == 65025) by (nonlinear_arith)
        requires
            d == -255,
    ;
    assert((c1.g - c2.g) * (c1.g - c2.g) == 65025);
    assert((c1.b - c2.b) * (c1.b - c2.b) == 65025);
    assert(distance_spec(c1, c2) == 512 * (2 * 65025 + 4 * 65025 + 3 * 65025) + 255 * (65025
        - 65025));
}

impl Color {
    /// Brightness in thousandths of the usual luma: 299 r + 587 g + 114 b.
    pub fn color_brightness(&self) -> (r: u32)
        ensures
            r == brightness_spec(*self),
            r <= 255000,
    {
        299 * (self.r as u32) + 587 * (self.g as u32) + 114 * (self.b as u32)
    }

    /// Contrast with `col`, in thousandths: the absolute difference of brightness.
    pub fn contrast_with(&self, col: Color) -> (r: u32)
        ensures
            r == contrast_spec(*self, col),
    {
        let a: u32 = self.color_brightness();
        let b: u32 = col.color_brightness();
        if a >= b {
            a - b
        } else {
            b - a
        }
    }

    /// The perceptual distance from `self` to `col2`, scaled by 512 (exact).
    pub fn delta_rgb(&self, col2: Color) -> (r: u32)
        ensures
            r == distance_spec(*self, col2),
    {
        proof {
            lemma_distance_bounds(*self, col2);
            lemma_square_bounds(self.r - col2.r);
            lemma_square_bounds(self.g - col2.g);
            lemma_square_bounds(self.b - col2.b);
        }
        let dr: i64 = self.r as i64 - col2.r as i64;
        let dg: i64 = self.g as i64 - col2.g as i64;
        let db: i64 = self.b as i64 - col2.b as i64;
        let dr_sq: i64 = dr * dr;
        let dg_sq: i64 = dg * dg;
        let db_sq: i64 = db * db;
        let s: i64 = self.r as i64 + col2.r as i64;
        proof {
            assert(-33162750 <= s * (dr_sq - db_sq) <= 33162750) by (nonlinear_arith)
                requires
                    0 <= s <= 510,
                    0 <= dr_sq <= 65025,
                    0 <= db_sq <= 65025,
            ;
        }
        let d: i64 = 512 * (2 * dr_sq + 4 * dg_sq + 3 * db_sq) + s * (dr_sq - db_sq);
        d as u32
    }

    /// The channels as bytes in RGB order.
    pub fn to_slice(&self) -> (r: [u8; 3])
        ensures
            r@ == seq![self.r, self.g, self.b],
    {
        [self.r, self.g, self.b]
    }

    /// Decodes the pixel at the start of `arr`, laid out as `color_format`
    /// says; bytes after the first pixel are ignored.
    pub fn pixels_to_rbg(arr: &[u8], color_format: PixelFormat) -> (r: Color)
        requires
            arr@.len() >= stride_spec(color_format),
        ensures
            r == pixel_at(arr@, 0, color_format),
    {
        match color_format {
            PixelFormat::Rgb | PixelFormat::Rgba => Color { r: arr[0], g: arr[1], b: arr[2] },
            PixelFormat::Argb => Color { r: arr[1], g: arr[2], b: arr[3] },
            PixelFormat::Bgr | PixelFormat::Bgra => Color { r: arr[2], g: arr[1], b: arr[0] },
        }
    }
}

/// Decodes the pixel that starts at `pos`.
pub fn pixel_at_pos(bytes: &[u8], pos: usize, format: PixelFormat) -> (r: Color)
    requires
        pos + stride_spec(format) <= bytes@.len(),
    ensures
        r == pixel_at(bytes@, pos as int, format),
{
    match format {
        PixelFormat::Rgb => Color { r: bytes[pos], g: bytes[pos + 1], b: bytes[pos + 2] },
        PixelFormat::Rgba => Color { r: bytes[pos], g: bytes[pos + 1], b: bytes[pos + 2] },
        PixelFormat::Argb => Color { r: bytes[pos + 1], g: bytes[pos + 2], b: bytes[pos + 3] },
        PixelFormat::Bgr => Color { r: bytes[pos + 2], g: bytes[pos + 1], b: bytes[pos] },
        PixelFormat::Bgra => Color { r: bytes[pos + 2], g: bytes[pos + 1], b: bytes[pos] },
    }
}

/// Error of `Color::hex_to_rgb`: the text is not `#` followed by six hex digits.
#[derive(Clone, Copy, Debug, PartialEq, Eq, Structural)]
pub enum ColorError {
    InvalidFormat,
}

/// `i` is the first index of `s` whose contrast with `c` is the largest.
pub open spec fn is_best_contrast(c: Color, s: Seq<Color>, i: int) -> bool {
    &&& 0 <= i < s.len()
    &&& forall|j: int| 0 <= j < s.len() ==> contrast_spec(c, s[j]) <= contrast_spec(c, s[i])
    &&& forall|j: int| 0 <= j < i ==> contrast_spec(c, s[j]) < contrast_spec(c, s[i])
}

/// The sixteen hex digits, upper case.
pub open spec fn hex_digit_chars() -> Seq<char> {
    seq!['0', '1', '2', '3', '4', '5', '6', '7', '8', '9', 'A', 'B', 'C', 'D', 'E', 'F']
}

/// Two upper-case hex digits for a byte.
pub open spec fn hex_byte_spec(x: u8) -> Seq<char> {
    seq![hex_digit_chars()[(x / 16) as int], hex_digit_chars()[(x % 16) as int]]
}

/// `#RRGGBB` with upper-case digits.
pub open spec fn hex_spec(c: Color) -> Seq<char> {
    seq!['#'] + hex_byte_spec(c.r) + hex_byte_spec(c.g) + hex_byte_spec(c.b)
}

/// Decimal digits of a byte, without leading zeros.
pub open spec fn decimal_spec(x: u8) -> Seq<char> {
    let d = hex_digit_chars();
    if x >= 100 {
        seq![d[(x / 100) as int], d[((x / 10) % 10) as int], d[(x % 10) as int]]
    } else if x >= 10 {
        seq![d[(x / 10) as int], d[(x % 10) as int]]
    } else {
        seq![d[x as int]]
    }
}

/// `RGB(r,g,b)` with decimal channels.
pub open spec fn rgb_text_spec(c: Color) -> Seq<char> {
    seq!['R', 'G', 'B', '('] + decimal_spec(c.r) + seq![','] + decimal_spec(c.g) + seq![',']
        + decimal_spec(c.b) + seq![')']
}

/// The value of a hex digit of either case.
pub open spec fn hex_value(ch: char) -> Option<u8> {
    if '0' <= ch <= '9' {
        Some((ch as u32 - 48) as u8)
    } else if 'a' <= ch <= 'f' {
        Some((ch as u32 - 87) as u8)
    } else if 'A' <= ch <= 'F' {
        Some((ch as u32 - 55) as u8)
    } else {
        None
    }
}

/// `s` is `#` followed by exactly six hex digits.
pub open spec fn is_hex_code(s: Seq<char>) -> bool {
    &&& s.len() == 7
    &&& s[0] == '#'
    &&& forall|i: int| 1 <= i < 7 ==> hex_value(#[trigger] s[i]) is Some
}

/// The byte written by the two hex digits at `i` and `i + 1`.
pub open spec fn hex_pair(s: Seq<char>, i: int) -> u8 {
    (16 * hex_value(s[i])->0 + hex_value(s[i + 1])->0) as u8
}

/// The color that a hex code denotes, or `None` for any other text.
pub open spec fn parse_hex_spec(s: Seq<char>) -> Option<Color> {
    if is_hex_code(s) {
        Some(Color { r: hex_pair(s, 1), g: hex_pair(s, 3), b: hex_pair(s, 5) })
    } else {
        None
    }
}

/// Appends the character `n` of `digits`, for `digits` the hex digit string.
fn append_digit(out: &mut String, digits: &str, n: u8)
    requires
        digits@ == hex_digit_chars(),
        n < 16,
    ensures
        final(out)@ == old(out)@ + seq![hex_digit_chars()[n as int]],
{
    assert(digits.is_ascii()) by {
        assert forall|i: int| 0 <= i < digits@.len() implies '\0' <= #[trigger] digits@[i]
            <= '\u{7f}' by {
            assert(0 <= i < 16);
        }
    }
    let k: usize = n as usize;
    let piece = digits.substring_ascii(k, k + 1);
    assert(piece@ =~= seq![hex_digit_chars()[n as int]]);
    out.append(piece);
}

/// The string of the sixteen upper-case hex digits.
fn hex_digit_str() -> (r: &'static str)
    ensures
        r@ == hex_digit_chars(),
{
    let digits = "0123456789ABCDEF";
    proof {
        reveal_strlit("0123456789ABCDEF");
    }
    assert(digits@ =~= hex_digit_chars());
    digits
}

/// Appends the decimal digits of `x`.
fn append_decimal(out: &mut String, digits: &str, x: u8)
    requires
        digits@ == hex_digit_chars(),
    ensures
        final(out)@ == old(out)@ + decimal_spec(x),
{
    let ghost start = out@;
    if x >= 100 {
        append_digit(out, digits, x / 100);
        append_digit(out, digits, (x / 10) % 10);
        append_digit(out, digits, x % 10);
    } else if x >= 10 {
        append_digit(out, digits, x / 10);
        append_digit(out, digits, x % 10);
    } else {
        append_digit(out, digits, x);
    }
    assert(out@ =~= start + decimal_spec(x));
}

/// Appends the two hex digits of `x`.
fn append_hex_byte(out: &mut String, digits: &str, x: u8)
    requires
        digits@ == hex_digit_chars(),
    ensures
        final(out)@ == old(out)@ + hex_byte_spec(x),
{
    let ghost start = out@;
    append_digit(out, digits, x / 16);
    append_digit(out, digits, x % 16);
    assert(out@ =~= start + hex_byte_spec(x));
}

/// The value of one hex digit.
fn hex_digit_value(ch: char) -> (r: Option<u8>)
    ensures
        r == hex_value(ch),
{
    if '0' <= ch && ch <= '9' {
        Some((ch as u32 - 48) as u8)
    } else if 'a' <= ch && ch <= 'f' {
        Some((ch as u32 - 87) as u8)
    } else if 'A' <= ch && ch <= 'F' {
        Some((ch as u32 - 55) as u8)
    } else {
        None
    }
}

impl Color {
    /// Among `text_colors`, the first one whose contrast with `self` is the largest.
    pub fn best_contrast(&self, text_colors: &[Color]) -> (r: Color)
        requires
            text_colors@.len() >= 2,
        ensures
            exists|i: int| is_best_contrast(*self, text_colors@, i) && r == text_colors@[i],
    {
        let mut best: usize = 0;
        let mut best_contrast: u32 = self.contrast_with(text_colors[0]);
        let mut k: usize = 1;
        while k < text_colors.len()
            invariant
                1 <= k <= text_colors@.len(),
                best < k,
                best_contrast == contrast_spec(*self, text_colors@[best as int]),
                forall|j: int|
                    0 <= j < k ==> contrast_spec(*self, text_colors@[j]) <= best_contrast,
                forall|j: int| 0 <= j < best ==> contrast_spec(*self, text_colors@[j]) < best_contrast,
            decreases text_colors@.len() - k,
        {
            let c: u32 = self.contrast_with(text_colors[k]);
            if c > best_contrast {
                best = k;
                best_contrast = c;
            }
            k = k + 1;
        }
        assert(is_best_contrast(*self, text_colors@, best as int));
        text_colors[best]
    }

    /// `#RRGGBB` with upper-case hex digits.
    pub fn hexadecimal_str(&self) -> (r: String)
        ensures
            r@ == hex_spec(*self),
    {
        let digits = hex_digit_str();
        let mut out = String::from_str("#");
        proof {
            reveal_strlit("#");
        }
        append_hex_byte(&mut out, digits, self.r);
        append_hex_byte(&mut out, digits, self.g);
        append_hex_byte(&mut out, digits, self.b);
        out
    }

    /// `RGB(r,g,b)` with decimal channels.
    pub fn rgb_str(&self) -> (r: String)
        ensures
            r@ == rgb_text_spec(*self),
    {
        let digits = hex_digit_str();
        let mut out = String::from_str("RGB(");
        proof {
            reveal_strlit("RGB(");
            reveal_strlit(",");
            reveal_strlit(")");
        }
        append_decimal(&mut out, digits, self.r);
        out.append(",");
        append_decimal(&mut out, digits, self.g);
        out.append(",");
        append_decimal(&mut out, digits, self.b);
        out.append(")");
        out
    }

    /// Reads `#` followed by exactly six hex digits of either case.
    pub fn hex_to_rgb(hex_code: &str) -> (r: Result<Color, ColorError>)
        ensures
            r == match parse_hex_spec(hex_code@) {
                Some(c) => Ok::<Color, ColorError>(c),
                None => Err(ColorError::InvalidFormat),
            },
    {
        let n: usize = hex_code.unicode_len();
        if n != 7 {
            return Err(ColorError::InvalidFormat);
        }
        if hex_code.get_char(0) != '#' {
            return Err(ColorError::InvalidFormat);
        }
        let mut values: Vec<u8> = Vec::new();
        let mut i: usize = 1;
        while i < 7
            invariant
                1 <= i <= 7,
                hex_code@.len() == 7,
                values@.len() == i - 1,
                forall|j: int| 1 <= j < i ==> hex_value(#[trigger] hex_code@[j]) is Some,
                forall|j: int| 1 <= j < i ==> values@[j - 1] == hex_value(#[trigger] hex_code@[j])->0,
            decreases 7 - i,
        {
            match hex_digit_value(hex_code.get_char(i)) {
                Some(v) => values.push(v),
                None => {
                    return Err(ColorError::InvalidFormat);
                },
            }
            i = i + 1;
        }
        assert(values@[0] == hex_value(hex_code@[1])->0);
        assert(values@[1] == hex_value(hex_code@[2])->0);
        assert(values@[2] == hex_value(hex_code@[3])->0);
        assert(values@[3] == hex_value(hex_code@[4])->0);
        assert(values@[4] == hex_value(hex_code@[5])->0);
        assert(values@[5] == hex_value(hex_code@[6])->0);
        Ok(Color {
            r: 16 * values[0] + values[1],
            g: 16 * values[2] + values[3],
            b: 16 * values[4] + values[5],
        })
    }
}

/// Each upper-case hex digit reads back as its own position.
proof fn lemma_hex_digit_value(n: int)
    requires
        0 <= n < 16,
    ensures
        hex_value(hex_digit_chars()[n]) == Some(n as u8),
{
    if n == 0 { assert(hex_digit_chars()[n] == '0'); }
    else if n == 1 { assert(hex_digit_chars()[n] == '1'); }
    else if n == 2 { assert(hex_digit_chars()[n] == '2'); }
    else if n == 3 { assert(hex_digit_chars()[n] == '3'); }
    else if n == 4 { assert(hex_digit_chars()[n] == '4'); }
    else if n == 5 { assert(hex_digit_chars()[n] == '5'); }
    else if n == 6 { assert(hex_digit_chars()[n] == '6'); }
    else if n == 7 { assert(hex_digit_chars()[n] == '7'); }
    else if n == 8 { assert(hex_digit_chars()[n] == '8'); }
    else if n == 9 { assert(hex_digit_chars()[n] == '9'); }
    else if n == 10 { assert(hex_digit_chars()[n] == 'A'); }
    else if n == 11 { assert(hex_digit_chars()[n] == 'B'); }
    else if n == 12 { assert(hex_digit_chars()[n] == 'C'); }
    else if n == 13 { assert(hex_digit_chars()[n] == 'D'); }
    else if n == 14 { assert(hex_digit_chars()[n] == 'E'); }
    else { assert(hex_digit_chars()[n] == 'F'); }
}

/// Reading back the hex code of a color gives the color.
pub proof fn lemma_hex_round_trip(c: Color)
    ensures
        parse_hex_spec(hex_spec(c)) == Some(c),
{
    let s = hex_spec(c);
    assert(s.len() == 7);
    lemma_hex_digit_value((c.r / 16) as int);
    lemma_hex_digit_value((c.r % 16) as int);
    lemma_hex_digit_value((c.g / 16) as int);
    lemma_hex_digit_value((c.g % 16) as int);
    lemma_hex_digit_value((c.b / 16) as int);
    lemma_hex_digit_value((c.b % 16) as int);
    assert(s[1] == hex_digit_chars()[(c.r / 16) as int]);
    assert(s[2] == hex_digit_chars()[(c.r % 16) as int]);
    assert(s[3] == hex_digit_chars()[(c.g / 16) as int]);
    assert(s[4] == hex_digit_chars()[(c.g % 16) as int]);
    assert(s[5] == hex_digit_chars()[(c.b / 16) as int]);
    assert(s[6] == hex_digit_chars()[(c.b % 16) as int]);
    assert(is_hex_code(s));
    assert(hex_pair(s, 1) == c.r);
    assert(hex_pair(s, 3) == c.g);
    assert(hex_pair(s, 5) == c.b);
}

/// A color is at distance zero from itself.
pub proof fn lemma_distance_to_self(c: Color)
    ensures
        distance_spec(c, c) == 0,
{
    let z: int = c.r - c.r;
    assert(z == 0);
    assert(z * z == 0);
    assert((c.g - c.g) * (c.g - c.g) == 0);
    assert((c.b - c.b) * (c.b - c.b) == 0);
}

/// Contrast is symmetric.
pub proof fn lemma_contrast_symmetric(c1: Color, c2: Color)
    ensures
        contrast_spec(c1, c2) == contrast_spec(c2, c1),
{
}

} // verus!
