//! Decoded images and the exclusion filter applied to their pixels.

use vstd::prelude::*;
use crate::color::{distance_spec, lemma_distance_to_self, pixel_at, pixel_at_pos, stride_spec, Color, PixelFormat, MAX_DISTANCE_SCALED};

verus! {

/// Pixel type of a decoded image, as the decoder reports it.
#[derive(Clone, Copy, Debug, PartialEq, Eq, Structural, Hash)]
pub enum ImageColorType {
    L8,
    La8,
    Rgb8,
    Rgba8,
    L16,
    La16,
    Rgb16,
    Rgba16,
    Rgb32F,
    Rgba32F,
    Unknown,
}

/// A decoded image: its raw bytes and the pixel type that lays them out.
#[derive(Clone, Debug)]
pub struct DecodedImage {
    pub bytes: Vec<u8>,
    pub color: ImageColorType,
}

/// Error of the exclusion filter.
#[derive(Clone, Copy, Debug, PartialEq, Eq, Structural)]
pub enum FilterError {
    /// The buffer's length is not a whole number of pixels of its format.
    StrideMismatch,
}

/// Share of the largest distance, in thousandths, under which a pixel counts
/// as a near match of an excluded color (5%).
pub const DEFAULT_THRESHOLD_PERMILLE: u32 = 50;

/// The pixel layouts that extraction supports.
pub open spec fn format_of(t: ImageColorType) -> Option<PixelFormat> {
    match t {
        ImageColorType::Rgb8 => Some(PixelFormat::Rgb),
        ImageColorType::Rgba8 => Some(PixelFormat::Rgba),
        _ => None,
    }
}

/// The name of a pixel type.
pub open spec fn color_type_name_spec(t: ImageColorType) -> Seq<char> {
    match t {
        ImageColorType::L8 => "L8"@,
        ImageColorType::La8 => "La8"@,
        ImageColorType::Rgb8 => "Rgb8"@,
        ImageColorType::Rgba8 => "Rgba8"@,
        ImageColorType::L16 => "L16"@,
        ImageColorType::La16 => "La16"@,
        ImageColorType::Rgb16 => "Rgb16"@,
        ImageColorType::Rgba16 => "Rgba16"@,
        ImageColorType::Rgb32F => "Rgb32F"@,
        ImageColorType::Rgba32F => "Rgba32F"@,
        ImageColorType::Unknown => "Unknown"@,
    }
}

/// The message for a pixel type that extraction does not support.
pub open spec fn unsupported_message(t: ImageColorType) -> Seq<char> {
    "Sorry, images with "@ + color_type_name_spec(t) + " color type pixels are not supported."@
}

/// The message for a buffer that is not a whole number of pixels.
pub open spec fn stride_message() -> Seq<char> {
    "The image data does not hold a whole number of pixels."@
}

/// A pixel is kept when its distance from every excluded color, as a share
/// of the largest distance, is at least `threshold_permille` thousandths.
pub open spec fn keeps_pixel(c: Color, excluded: Seq<Color>, threshold_permille: nat) -> bool {
    forall|k: int|
        0 <= k < excluded.len() ==> distance_spec(c, #[trigger] excluded[k]) * 1000
            >= threshold_permille * MAX_DISTANCE_SCALED
}

/// RGB bytes of the kept pixels among the first `n` pixels.
pub open spec fn filtered_prefix(
    pixels: Seq<u8>,
    format: PixelFormat,
    excluded: Seq<Color>,
    threshold_permille: nat,
    n: nat,
) -> Seq<u8>
    decreases n,
{
    if n == 0 {
        seq![]
    } else {
        let prev = filtered_prefix(pixels, format, excluded, threshold_permille, (n - 1) as nat);
        let c = pixel_at(pixels, (n - 1) * stride_spec(format), format);
        if keeps_pixel(c, excluded, threshold_permille) {
            prev + seq![c.r, c.g, c.b]
        } else {
            prev
        }
    }
}

/// What the exclusion filter gives: the buffer itself when nothing is
/// excluded, `None` when the buffer is not a whole number of pixels, and
/// otherwise the RGB bytes of the kept pixels in order.
pub open spec fn filter_spec(
    pixels: Seq<u8>,
    format: PixelFormat,
    excluded: Seq<Color>,
    threshold_permille: nat,
) -> Option<Seq<u8>> {
    if excluded.len() == 0 {
        Some(pixels)
    } else if pixels.len() % stride_spec(format) != 0 {
        None
    } else {
        Some(
            filtered_prefix(
                pixels,
                format,
                excluded,
                threshold_permille,
                pixels.len() / stride_spec(format),
            ),
        )
    }
}

proof fn lemma_next_pixel_fits(k: int, n: int, stride: int)
    requires
        0 <= k < n,
        stride > 0,
    ensures
        (k + 1) * stride <= n * stride,
        k * stride + stride == (k + 1) * stride,
{
    assert((k + 1) * stride <= n * stride) by (nonlinear_arith)
        requires
            0 <= k < n,
            stride > 0,
    ;
    assert(k * stride + stride == (k + 1) * stride) by (nonlinear_arith);
}

proof fn lemma_exact_division(len: int, stride: int)
    requires
        len >= 0,
        stride > 0,
        len % stride == 0,
    ensures
        (len / stride) * stride == len,
{
    vstd::arithmetic::div_mod::lemma_fundamental_div_mod(len, stride);
    assert((len / stride) * stride == stride * (len / stride)) by (nonlinear_arith);
}

/// Whether `c` is far enough from every excluded color.
fn keep_pixel(c: Color, excluded: &[Color], threshold_permille: u32) -> (r: bool)
    ensures
        r == keeps_pixel(c, excluded@, threshold_permille as nat),
{
    let limit: u64 = threshold_permille as u64 * MAX_DISTANCE_SCALED;
    let mut k: usize = 0;
    while k < excluded.len()
        invariant
            k <= excluded@.len(),
            limit == threshold_permille * MAX_DISTANCE_SCALED,
            forall|j: int|
                0 <= j < k ==> distance_spec(c, #[trigger] excluded@[j]) * 1000 >= limit,
        decreases excluded@.len() - k,
    {
        let d: u32 = c.delta_rgb(excluded[k]);
        if (d as u64) * 1000 < limit {
            return false;
        }
        k = k + 1;
    }
    true
}

/// Keeps the pixels whose distance from every excluded color, as a share of
/// the largest distance, reaches `threshold_permille` thousandths, and writes
/// them as RGB bytes. With nothing excluded the buffer is returned as it is.
pub fn filter_pixels(
    pixels: &Vec<u8>,
    format: PixelFormat,
    excluded: &[Color],
    threshold_permille: u32,
) -> (r: Result<Vec<u8>, FilterError>)
    ensures
        match filter_spec(pixels@, format, excluded@, threshold_permille as nat) {
            Some(bytes) => r is Ok && r->Ok_0@ == bytes,
            None => r == Err::<Vec<u8>, FilterError>(FilterError::StrideMismatch),
        },
{
    if excluded.len() == 0 {
        return Ok(pixels.clone());
    }
    let stride: usize = format.stride();
    if pixels.len() % stride != 0 {
        return Err(FilterError::StrideMismatch);
    }
    let len: usize = pixels.len();
    let n: usize = len / stride;
    proof {
        lemma_exact_division(pixels@.len() as int, stride as int);
    }
    let mut out: Vec<u8> = Vec::new();
    let mut k: usize = 0;
    let mut pos: usize = 0;
    while k < n
        invariant
            k <= n,
            n * stride == pixels@.len(),
            len == pixels@.len(),
            stride == stride_spec(format),
            pos == k * stride,
            out@ == filtered_prefix(pixels@, format, excluded@, threshold_permille as nat, k as nat),
        decreases n - k,
    {
        proof {
            lemma_next_pixel_fits(k as int, n as int, stride as int);
        }
        let c: Color = pixel_at_pos(pixels.as_slice(), pos, format);
        if keep_pixel(c, excluded, threshold_permille) {
            out.push(c.r);
            out.push(c.g);
            out.push(c.b);
        }
        assert(pos + stride <= pixels@.len());
        pos = pos + stride;
        k = k + 1;
    }
    Ok(out)
}

/// The name of a pixel type.
fn color_type_name(t: ImageColorType) -> (r: &'static str)
    ensures
        r@ == color_type_name_spec(t),
{
    match t {
        ImageColorType::L8 => "L8",
        ImageColorType::La8 => "La8",
        ImageColorType::Rgb8 => "Rgb8",
        ImageColorType::Rgba8 => "Rgba8",
        ImageColorType::L16 => "L16",
        ImageColorType::La16 => "La16",
        ImageColorType::Rgb16 => "Rgb16",
        ImageColorType::Rgba16 => "Rgba16",
        ImageColorType::Rgb32F => "Rgb32F",
        ImageColorType::Rgba32F => "Rgba32F",
        ImageColorType::Unknown => "Unknown",
    }
}

/// Access to a decoded image's pixels for palette extraction.
pub trait ImageTrait {
    /// The pixel type of the image.
    spec fn spec_color_type(&self) -> ImageColorType;

    /// The raw bytes of the image.
    spec fn spec_bytes(&self) -> Seq<u8>;

    /// The pixel layout, or a message when extraction does not support it.
    fn color_format(&self) -> (r: Result<PixelFormat, String>)
        ensures
            match format_of(self.spec_color_type()) {
                Some(f) => r == Ok::<PixelFormat, String>(f),
                None => r is Err && r->Err_0@ == unsupported_message(self.spec_color_type()),
            },
    ;

    /// Bytes per pixel: 3 for an RGB layout, 4 otherwise.
    fn color_size(&self) -> (r: usize)
        ensures
            r == match format_of(self.spec_color_type()) {
                Some(f) => stride_spec(f),
                None => 4,
            },
    ;

    /// The image's pixels with the near matches of `excluded` removed, at the
    /// default threshold.
    fn filtered_image_bytes(&self, excluded: &[Color]) -> (r: Result<Vec<u8>, String>)
        ensures
            match format_of(self.spec_color_type()) {
                None => r is Err && r->Err_0@ == unsupported_message(self.spec_color_type()),
                Some(f) => match filter_spec(
                    self.spec_bytes(),
                    f,
                    excluded@,
                    DEFAULT_THRESHOLD_PERMILLE as nat,
                ) {
                    Some(bytes) => r is Ok && r->Ok_0@ == bytes,
                    None => r is Err && r->Err_0@ == stride_message(),
                },
            },
    ;
}

impl ImageTrait for DecodedImage {
    open spec fn spec_color_type(&self) -> ImageColorType {
        self.color
    }

    open spec fn spec_bytes(&self) -> Seq<u8> {
        self.bytes@
    }

    fn color_format(&self) -> (r: Result<PixelFormat, String>) {
        match self.color {
            ImageColorType::Rgb8 => Ok(PixelFormat::Rgb),
            ImageColorType::Rgba8 => Ok(PixelFormat::Rgba),
            other => {
                let mut message = String::from_str("Sorry, images with ");
                message.append(color_type_name(other));
                message.append(" color type pixels are not supported.");
                Err(message)
            },
        }
    }

    fn color_size(&self) -> (r: usize) {
        match self.color_format() {
            Ok(f) => f.stride(),
            Err(_) => 4,
        }
    }

    fn filtered_image_bytes(&self, excluded: &[Color]) -> (r: Result<Vec<u8>, String>) {
        match self.color_format() {
            Err(message) => Err(message),
            Ok(format) => match filter_pixels(
                &self.bytes,
                format,
                excluded,
                DEFAULT_THRESHOLD_PERMILLE,
            ) {
                Ok(bytes) => Ok(bytes),
                Err(_) => Err(String::from_str(
                    "The image data does not hold a whole number of pixels.",
                )),
            },
        }
    }
}

/// With nothing excluded the filter hands back the buffer unchanged.
pub proof fn lemma_filter_without_exclusions(
    pixels: Seq<u8>,
    format: PixelFormat,
    threshold_permille: nat,
)
    ensures
        filter_spec(pixels, format, seq![], threshold_permille) == Some(pixels),
{
}

proof fn lemma_uniform_prefix_empty(
    pixels: Seq<u8>,
    format: PixelFormat,
    c: Color,
    threshold_permille: nat,
    n: nat,
)
    requires
        threshold_permille > 0,
        forall|k: int|
            0 <= k < n ==> #[trigger] pixel_at(pixels, k * stride_spec(format), format) == c,
    ensures
        filtered_prefix(pixels, format, seq![c], threshold_permille, n) == Seq::<u8>::empty(),
    decreases n,
{
    if n > 0 {
        lemma_uniform_prefix_empty(pixels, format, c, threshold_permille, (n - 1) as nat);
        lemma_distance_to_self(c);
        let p = pixel_at(pixels, (n - 1) * stride_spec(format), format);
        assert(p == c);
        assert(seq![c][0] == c);
        assert(threshold_permille * MAX_DISTANCE_SCALED > 0) by (nonlinear_arith)
            requires
                threshold_permille > 0,
        ;
        assert(!keeps_pixel(p, seq![c], threshold_permille));
    }
}

/// Excluding the one color of a uniform image removes every pixel.
pub proof fn lemma_filter_uniform_image(
    pixels: Seq<u8>,
    format: PixelFormat,
    c: Color,
    threshold_permille: nat,
)
    requires
        threshold_permille > 0,
        pixels.len() % stride_spec(format) == 0,
        forall|k: int|
            0 <= k < pixels.len() / stride_spec(format) ==> #[trigger] pixel_at(
                pixels,
                k * stride_spec(format),
                format,
            ) == c,
    ensures
        filter_spec(pixels, format, seq![c], threshold_permille) == Some(Seq::<u8>::empty()),
{
    lemma_uniform_prefix_empty(
        pixels,
        format,
        c,
        threshold_permille,
        pixels.len() / stride_spec(format),
    );
}

} // verus!
