//! Palette extraction: the exclusion filter, the color quantizer of the
//! `color_thief` crate, then deduplication and ordering by contrast.

use vstd::prelude::*;
use crate::color::{contrast_spec, stride_spec, Color, PixelFormat};
use crate::image::{filter_pixels, filter_spec, FilterError, DEFAULT_THRESHOLD_PERMILLE};

verus! {

/// Sampling step handed to the quantizer: every tenth pixel is read.
pub const QUALITY: u8 = 10;

/// The largest buffer, in bytes, that is handed to the quantizer.
pub const MAX_PIXEL_BYTES: usize = 700_000_000;

#[verifier::external_type_specification]
#[verifier::external_body]
pub struct ExQuantizeError(color_thief::Error);

/// The palette that `color_thief::get_palette` computes for a buffer, a
/// layout, a sampling step and a number of colors; `None` when it fails.
pub uninterp spec fn quantized_palette(
    pixels: Seq<u8>,
    format: PixelFormat,
    quality: u8,
    max_colors: u8,
) -> Option<Seq<Color>>;

/// Relies on `color_thief::get_palette`: a deterministic median-cut
/// quantization that returns at most `max_colors` colors, and panics unless
/// `quality` is in 1..=10 and `max_colors` is at least 2. It samples about
/// one pixel in `3 * quality` and sums up to 252 per sample in an `i32`; at
/// most `70_000_000 * quality` bytes keep that sum under `i32::MAX`.
#[verifier::external_body]
fn get_palette(pixels: &[u8], format: PixelFormat, quality: u8, max_colors: u8) -> (r: Result<
    Vec<Color>,
    color_thief::Error,
>)
    requires
        1 <= quality <= 10,
        max_colors >= 2,
        pixels@.len() <= 70_000_000 * quality,
    ensures
        r is Ok <==> quantized_palette(pixels@, format, quality, max_colors) is Some,
        r is Ok ==> r->Ok_0@ == quantized_palette(pixels@, format, quality, max_colors)->0,
        r is Ok ==> r->Ok_0@.len() <= max_colors,
{
    let f = match format {
        PixelFormat::Rgb => color_thief::ColorFormat::Rgb,
        PixelFormat::Rgba => color_thief::ColorFormat::Rgba,
        PixelFormat::Argb => color_thief::ColorFormat::Argb,
        PixelFormat::Bgr => color_thief::ColorFormat::Bgr,
        PixelFormat::Bgra => color_thief::ColorFormat::Bgra,
    };
    color_thief::get_palette(pixels, f, quality, max_colors).map(
        |v| v.into_iter().map(|c| Color { r: c.r, g: c.g, b: c.b }).collect(),
    )
}

/// Error of palette extraction.
#[derive(Clone, Copy, Debug, PartialEq, Eq, Structural)]
pub enum ExtractionError {
    /// The buffer is not a whole number of pixels of its layout.
    StrideMismatch,
    /// No pixel is left to quantize.
    NoData,
    /// The quantizer failed.
    QuantizationFailed,
    /// The buffer is larger than the quantizer can take (`MAX_PIXEL_BYTES`).
    TooLarge,
}

/// `s` with every color after its first occurrence removed.
pub open spec fn dedup_spec(s: Seq<Color>) -> Seq<Color>
    decreases s.len(),
{
    if s.len() == 0 {
        s
    } else {
        let d = dedup_spec(s.drop_last());
        if d.contains(s.last()) {
            d
        } else {
            d.push(s.last())
        }
    }
}

/// Puts `c` into `s` after every color whose contrast with `reference` is at
/// least that of `c`.
pub open spec fn insert_by_contrast(s: Seq<Color>, c: Color, reference: Color) -> Seq<Color>
    decreases s.len(),
{
    if s.len() == 0 {
        seq![c]
    } else if contrast_spec(s[0], reference) >= contrast_spec(c, reference) {
        seq![s[0]] + insert_by_contrast(s.drop_first(), c, reference)
    } else {
        seq![c] + s
    }
}

/// `s` sorted by decreasing contrast with `reference`; colors of equal
/// contrast keep their order.
pub open spec fn sort_by_contrast_spec(s: Seq<Color>, reference: Color) -> Seq<Color>
    decreases s.len(),
{
    if s.len() == 0 {
        s
    } else {
        insert_by_contrast(sort_by_contrast_spec(s.drop_last(), reference), s.last(), reference)
    }
}

/// The palette made from the quantizer's candidates: deduplicated, then
/// ordered by contrast when a reference color is given.
pub open spec fn finish_palette_spec(candidates: Seq<Color>, reference: Option<Color>) -> Seq<
    Color,
> {
    match reference {
        None => dedup_spec(candidates),
        Some(c) => sort_by_contrast_spec(dedup_spec(candidates), c),
    }
}

/// The buffer and layout that the quantizer reads: the filtered RGB bytes
/// when colors are excluded, else the buffer itself; `None` when the buffer
/// is not a whole number of pixels.
pub open spec fn quantizer_input(pixels: Seq<u8>, format: PixelFormat, excluded: Seq<Color>) -> Option<
    (Seq<u8>, PixelFormat),
> {
    if pixels.len() % stride_spec(format) != 0 {
        None
    } else if excluded.len() == 0 {
        Some((pixels, format))
    } else {
        match filter_spec(pixels, format, excluded, DEFAULT_THRESHOLD_PERMILLE as nat) {
            Some(bytes) => Some((bytes, PixelFormat::Rgb)),
            None => None,
        }
    }
}

/// What palette extraction gives.
pub open spec fn extract_spec(
    pixels: Seq<u8>,
    format: PixelFormat,
    excluded: Seq<Color>,
    count: u8,
    reference: Option<Color>,
) -> Result<Seq<Color>, ExtractionError> {
    match quantizer_input(pixels, format, excluded) {
        None => Err(ExtractionError::StrideMismatch),
        Some((bytes, f)) => if bytes.len() < stride_spec(f) {
            Err(ExtractionError::NoData)
        } else if bytes.len() > MAX_PIXEL_BYTES {
            Err(ExtractionError::TooLarge)
        } else {
            match quantized_palette(bytes, f, QUALITY, count) {
                None => Err(ExtractionError::QuantizationFailed),
                Some(candidates) => Ok(finish_palette_spec(candidates, reference)),
            }
        },
    }
}

/// Whether `v` holds `c`.
fn contains_color(v: &Vec<Color>, c: Color) -> (r: bool)
    ensures
        r == v@.contains(c),
{
    let mut i: usize = 0;
    while i < v.len()
        invariant
            i <= v@.len(),
            forall|j: int| 0 <= j < i ==> v@[j] != c,
        decreases v@.len() - i,
    {
        if v[i] == c {
            assert(v@[i as int] == c);
            return true;
        }
        i = i + 1;
    }
    false
}

/// The colors of `colors` in order, each kept at its first occurrence only.
pub fn dedup_colors(colors: &Vec<Color>) -> (r: Vec<Color>)
    ensures
        r@ == dedup_spec(colors@),
{
    let mut out: Vec<Color> = Vec::new();
    let mut i: usize = 0;
    while i < colors.len()
        invariant
            i <= colors@.len(),
            out@ == dedup_spec(colors@.subrange(0, i as int)),
        decreases colors@.len() - i,
    {
        let c = colors[i];
        assert(colors@.subrange(0, i + 1).drop_last() =~= colors@.subrange(0, i as int));
        if !contains_color(&out, c) {
            out.push(c);
        }
        i = i + 1;
    }
    assert(colors@.subrange(0, colors@.len() as int) =~= colors@);
    out
}

proof fn lemma_insert_at(s: Seq<Color>, c: Color, reference: Color, p: int)
    requires
        0 <= p <= s.len(),
        forall|j: int| 0 <= j < p ==> contrast_spec(#[trigger] s[j], reference) >= contrast_spec(c, reference),
        p < s.len() ==> contrast_spec(s[p], reference) < contrast_spec(c, reference),
    ensures
        insert_by_contrast(s, c, reference) == s.insert(p, c),
    decreases s.len(),
{
    if p == 0 {
        assert(s.insert(0, c) =~= seq![c] + s);
    } else {
        let t = s.drop_first();
        assert forall|j: int| 0 <= j < p - 1 implies contrast_spec(#[trigger] t[j], reference)
            >= contrast_spec(c, reference) by {
            assert(t[j] == s[j + 1]);
        }
        lemma_insert_at(t, c, reference, p - 1);
        assert(s.insert(p, c) =~= seq![s[0]] + t.insert(p - 1, c));
    }
}

/// `colors` sorted by decreasing contrast with `reference`, stable.
pub fn sort_by_contrast(colors: &Vec<Color>, reference: Color) -> (r: Vec<Color>)
    ensures
        r@ == sort_by_contrast_spec(colors@, reference),
{
    let mut out: Vec<Color> = Vec::new();
    let mut i: usize = 0;
    while i < colors.len()
        invariant
            i <= colors@.len(),
            out@ == sort_by_contrast_spec(colors@.subrange(0, i as int), reference),
            out@.len() == i,
        decreases colors@.len() - i,
    {
        let c = colors[i];
        let key: u32 = c.contrast_with(reference);
        let mut p: usize = 0;
        while p < out.len() && out[p].contrast_with(reference) >= key
            invariant
                p <= out@.len(),
                key == contrast_spec(c, reference),
                forall|j: int| 0 <= j < p ==> contrast_spec(#[trigger] out@[j], reference) >= key,
            decreases out@.len() - p,
        {
            p = p + 1;
        }
        proof {
            lemma_insert_at(out@, c, reference, p as int);
            assert(colors@.subrange(0, i + 1).drop_last() =~= colors@.subrange(0, i as int));
        }
        out.insert(p, c);
        i = i + 1;
    }
    assert(colors@.subrange(0, colors@.len() as int) =~= colors@);
    out
}

/// Turns the quantizer's candidates into the palette: duplicates removed,
/// then ordered by decreasing contrast with `reference` when one is given.
pub fn finish_palette(candidates: &Vec<Color>, reference: Option<Color>) -> (r: Vec<Color>)
    ensures
        r@ == finish_palette_spec(candidates@, reference),
{
    let distinct = dedup_colors(candidates);
    match reference {
        None => distinct,
        Some(c) => sort_by_contrast(&distinct, c),
    }
}

/// Quantizes `bytes` and finishes the palette.
fn quantize_and_finish(bytes: &Vec<u8>, format: PixelFormat, count: u8, reference: Option<Color>) -> (r:
    Result<Vec<Color>, ExtractionError>)
    requires
        2 <= count <= 10,
    ensures
        bytes@.len() < stride_spec(format) ==> r == Err::<Vec<Color>, ExtractionError>(
            ExtractionError::NoData,
        ),
        bytes@.len() >= stride_spec(format) && bytes@.len() > MAX_PIXEL_BYTES ==> r == Err::<
            Vec<Color>,
            ExtractionError,
        >(ExtractionError::TooLarge),
        bytes@.len() >= stride_spec(format) && bytes@.len() <= MAX_PIXEL_BYTES ==> match quantized_palette(
            bytes@,
            format,
            QUALITY,
            count,
        ) {
            None => r == Err::<Vec<Color>, ExtractionError>(ExtractionError::QuantizationFailed),
            Some(candidates) => r is Ok && r->Ok_0@ == finish_palette_spec(candidates, reference),
        },
{
    if bytes.len() < format.stride() {
        return Err(ExtractionError::NoData);
    }
    if bytes.len() > MAX_PIXEL_BYTES {
        return Err(ExtractionError::TooLarge);
    }
    match get_palette(bytes.as_slice(), format, QUALITY, count) {
        Ok(candidates) => Ok(finish_palette(&candidates, reference)),
        Err(_) => Err(ExtractionError::QuantizationFailed),
    }
}

/// Extracts a palette of at most `count` colors from a pixel buffer: removes
/// the near matches of `excluded` (the result is then RGB), quantizes,
/// deduplicates, and orders by contrast with `reference` when one is given.
pub fn extract_palette(
    pixels: &Vec<u8>,
    format: PixelFormat,
    excluded: &[Color],
    count: u8,
    reference: Option<Color>,
) -> (r: Result<Vec<Color>, ExtractionError>)
    requires
        2 <= count <= 10,
    ensures
        match extract_spec(pixels@, format, excluded@, count, reference) {
            Ok(palette) => r is Ok && r->Ok_0@ == palette,
            Err(e) => r == Err::<Vec<Color>, ExtractionError>(e),
        },
{
    if pixels.len() % format.stride() != 0 {
        return Err(ExtractionError::StrideMismatch);
    }
    if excluded.len() == 0 {
        quantize_and_finish(pixels, format, count, reference)
    } else {
        match filter_pixels(pixels, format, excluded, DEFAULT_THRESHOLD_PERMILLE) {
            Ok(filtered) => quantize_and_finish(&filtered, PixelFormat::Rgb, count, reference),
            Err(FilterError::StrideMismatch) => Err(ExtractionError::StrideMismatch),
        }
    }
}

/// No color occurs twice in `s`.
pub open spec fn distinct_colors(s: Seq<Color>) -> bool {
    forall|i: int, j: int| 0 <= i < j < s.len() ==> s[i] != s[j]
}

/// `s` is ordered by decreasing contrast with `reference`.
pub open spec fn sorted_by_contrast(s: Seq<Color>, reference: Color) -> bool {
    forall|i: int, j: int|
        0 <= i < j < s.len() ==> contrast_spec(s[i], reference) >= contrast_spec(s[j], reference)
}

proof fn lemma_dedup(s: Seq<Color>)
    ensures
        distinct_colors(dedup_spec(s)),
        forall|c: Color| dedup_spec(s).contains(c) <==> s.contains(c),
    decreases s.len(),
{
    if s.len() > 0 {
        let t = s.drop_last();
        lemma_dedup(t);
        let d = dedup_spec(t);
        assert forall|c: Color| s.contains(c) <==> (t.contains(c) || c == s.last()) by {
            if s.contains(c) {
                let i = choose|i: int| 0 <= i < s.len() && s[i] == c;
                if i < s.len() - 1 {
                    assert(t[i] == c);
                }
            }
            if t.contains(c) {
                let i = choose|i: int| 0 <= i < t.len() && t[i] == c;
                assert(s[i] == c);
            }
            if c == s.last() {
                assert(s[s.len() - 1] == c);
            }
        }
        if !d.contains(s.last()) {
            let e = d.push(s.last());
            assert forall|c: Color| e.contains(c) <==> (d.contains(c) || c == s.last()) by {
                if e.contains(c) {
                    let i = choose|i: int| 0 <= i < e.len() && e[i] == c;
                    if i < d.len() {
                        assert(d[i] == c);
                    }
                }
                if d.contains(c) {
                    let i = choose|i: int| 0 <= i < d.len() && d[i] == c;
                    assert(e[i] == c);
                }
                if c == s.last() {
                    assert(e[e.len() - 1] == c);
                }
            }
            assert forall|i: int, j: int| 0 <= i < j < e.len() implies e[i] != e[j] by {
                if j == e.len() - 1 {
                    assert(d[i] == e[i]);
                }
            }
        }
    }
}

proof fn lemma_split_point(s: Seq<Color>, c: Color, reference: Color) -> (p: int)
    requires
        sorted_by_contrast(s, reference),
    ensures
        0 <= p <= s.len(),
        forall|j: int| 0 <= j < p ==> contrast_spec(#[trigger] s[j], reference) >= contrast_spec(c, reference),
        forall|j: int| p <= j < s.len() ==> contrast_spec(#[trigger] s[j], reference) < contrast_spec(c, reference),
    decreases s.len(),
{
    if s.len() == 0 {
        0
    } else if contrast_spec(s[0], reference) >= contrast_spec(c, reference) {
        let t = s.drop_first();
        assert(sorted_by_contrast(t, reference)) by {
            assert forall|i: int, j: int| 0 <= i < j < t.len() implies contrast_spec(t[i], reference)
                >= contrast_spec(t[j], reference) by {
                assert(t[i] == s[i + 1] && t[j] == s[j + 1]);
            }
        }
        let q = lemma_split_point(t, c, reference);
        assert forall|j: int| 0 <= j < q + 1 implies contrast_spec(#[trigger] s[j], reference)
            >= contrast_spec(c, reference) by {
            if j > 0 {
                assert(s[j] == t[j - 1]);
            }
        }
        assert forall|j: int| q + 1 <= j < s.len() implies contrast_spec(#[trigger] s[j], reference)
            < contrast_spec(c, reference) by {
            assert(s[j] == t[j - 1]);
        }
        q + 1
    } else {
        assert forall|j: int| 0 <= j < s.len() implies contrast_spec(#[trigger] s[j], reference)
            < contrast_spec(c, reference) by {
            if j > 0 {
                assert(contrast_spec(s[0], reference) >= contrast_spec(s[j], reference));
            }
        }
        0
    }
}

proof fn lemma_insert_sorted(s: Seq<Color>, c: Color, reference: Color)
    requires
        sorted_by_contrast(s, reference),
    ensures
        sorted_by_contrast(insert_by_contrast(s, c, reference), reference),
        insert_by_contrast(s, c, reference).len() == s.len() + 1,
        forall|x: Color|
            insert_by_contrast(s, c, reference).contains(x) <==> (s.contains(x) || x == c),
        distinct_colors(s) && !s.contains(c) ==> distinct_colors(insert_by_contrast(s, c, reference)),
{
    let p = lemma_split_point(s, c, reference);
    if p < s.len() {
        assert(contrast_spec(s[p], reference) < contrast_spec(c, reference));
    }
    lemma_insert_at(s, c, reference, p);
    s.insert_ensures(p, c);
    let r = s.insert(p, c);
    assert forall|i: int| 0 <= i < r.len() implies #[trigger] r[i] == if i < p {
        s[i]
    } else if i == p {
        c
    } else {
        s[i - 1]
    } by {
        if i > p {
            assert(r[(i - 1) + 1] == s[i - 1]);
        }
    }
    assert forall|x: Color| r.contains(x) <==> (s.contains(x) || x == c) by {
        if r.contains(x) {
            let i = choose|i: int| 0 <= i < r.len() && r[i] == x;
            if i < p {
                assert(s[i] == x);
            } else if i > p {
                assert(s[i - 1] == x);
            }
        }
        if s.contains(x) {
            let i = choose|i: int| 0 <= i < s.len() && s[i] == x;
            if i < p {
                assert(r[i] == x);
            } else {
                assert(r[i + 1] == x);
            }
        }
        if x == c {
            assert(r[p] == x);
        }
    }
    assert forall|i: int, j: int| 0 <= i < j < r.len() implies contrast_spec(r[i], reference)
        >= contrast_spec(r[j], reference) by {
        if j < p {
            assert(r[i] == s[i] && r[j] == s[j]);
        } else if j == p {
            assert(r[i] == s[i]);
        } else if i < p {
            assert(r[i] == s[i] && r[j] == s[j - 1]);
        } else if i == p {
            assert(r[j] == s[j - 1]);
        } else {
            assert(r[i] == s[i - 1] && r[j] == s[j - 1]);
        }
    }
    if distinct_colors(s) && !s.contains(c) {
        assert forall|i: int, j: int| 0 <= i < j < r.len() implies r[i] != r[j] by {
            if j < p {
                assert(r[i] == s[i] && r[j] == s[j]);
            } else if j == p {
                assert(r[i] == s[i]);
            } else if i < p {
                assert(r[i] == s[i] && r[j] == s[j - 1]);
            } else if i == p {
                assert(r[j] == s[j - 1]);
            } else {
                assert(r[i] == s[i - 1] && r[j] == s[j - 1]);
            }
        }
    }
}

proof fn lemma_sort_sorted(s: Seq<Color>, reference: Color)
    ensures
        sorted_by_contrast(sort_by_contrast_spec(s, reference), reference),
        sort_by_contrast_spec(s, reference).len() == s.len(),
        forall|x: Color| sort_by_contrast_spec(s, reference).contains(x) <==> s.contains(x),
        distinct_colors(s) ==> distinct_colors(sort_by_contrast_spec(s, reference)),
    decreases s.len(),
{
    if s.len() > 0 {
        let t = s.drop_last();
        lemma_sort_sorted(t, reference);
        lemma_insert_sorted(sort_by_contrast_spec(t, reference), s.last(), reference);
        assert forall|x: Color| s.contains(x) <==> (t.contains(x) || x == s.last()) by {
            if s.contains(x) {
                let i = choose|i: int| 0 <= i < s.len() && s[i] == x;
                if i < s.len() - 1 {
                    assert(t[i] == x);
                }
            }
            if t.contains(x) {
                let i = choose|i: int| 0 <= i < t.len() && t[i] == x;
                assert(s[i] == x);
            }
            if x == s.last() {
                assert(s[s.len() - 1] == x);
            }
        }
        if distinct_colors(s) {
            assert(distinct_colors(t)) by {
                assert forall|i: int, j: int| 0 <= i < j < t.len() implies t[i] != t[j] by {
                    assert(t[i] == s[i] && t[j] == s[j]);
                }
            }
            assert(!t.contains(s.last())) by {
                if t.contains(s.last()) {
                    let k = choose|k: int| 0 <= k < t.len() && t[k] == s.last();
                    assert(s[k] == s[s.len() - 1]);
                }
            }
        }
    }
}

/// A palette holds no color twice and exactly the colors among the
/// quantizer's candidates; with a reference color it is ordered by
/// decreasing contrast with it and has as many colors as without one.
pub proof fn lemma_palette_well_formed(candidates: Seq<Color>, reference: Option<Color>)
    ensures
        distinct_colors(finish_palette_spec(candidates, reference)),
        forall|c: Color|
            finish_palette_spec(candidates, reference).contains(c) <==> candidates.contains(c),
        finish_palette_spec(candidates, reference).len() == dedup_spec(candidates).len(),
        reference is Some ==> sorted_by_contrast(
            finish_palette_spec(candidates, reference),
            reference->0,
        ),
{
    lemma_dedup(candidates);
    let d = dedup_spec(candidates);
    if let Some(rc) = reference {
        lemma_sort_sorted(d, rc);
    }
}

} // verus!
