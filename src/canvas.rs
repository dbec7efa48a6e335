//! The extracted colors laid out as styled text: a single line of labels,
//! or a grid of colored squares, for a terminal to print.

use vstd::prelude::*;
use crate::color::{
    contrast_spec, decimal_spec, hex_spec, is_best_contrast, rgb_text_spec, Color,
};

verus! {

/// How a piece of text is shown.
#[derive(Clone, Copy, Debug, PartialEq, Eq, Structural)]
pub enum Style {
    /// As the terminal shows text by default.
    Plain,
    /// In bold.
    Bold,
    /// With these colors, in bold when `bold` is set.
    Colored { fg: Color, bg: Color, bold: bool },
}

/// A piece of text and its style.
#[derive(Clone, Debug)]
pub struct Segment {
    pub text: String,
    pub style: Style,
}

/// The colors of one image, ready to be shown.
pub struct ColorsCanvas {
    pub colors: Vec<Color>,
    pub show_canvas: bool,
    pub with_rgb: bool,
    pub clip_colors: bool,
}

/// What a segment shows.
pub open spec fn segment_view(s: Segment) -> (Seq<char>, Style) {
    (s.text@, s.style)
}

/// What a sequence of segments shows.
pub open spec fn segments_view(s: Seq<Segment>) -> Seq<(Seq<char>, Style)> {
    s.map_values(|x: Segment| segment_view(x))
}

/// `n` spaces.
pub open spec fn spaces(n: nat) -> Seq<char> {
    Seq::new(n, |i: int| ' ')
}

/// The label of a color: `RGB(r,g,b)` or `#RRGGBB`.
pub open spec fn label_spec(c: Color, with_rgb: bool) -> Seq<char> {
    if with_rgb {
        rgb_text_spec(c)
    } else {
        hex_spec(c)
    }
}

/// Black and white, the text colors a label is written in.
pub open spec fn text_colors() -> Seq<Color> {
    seq![Color { r: 0, g: 0, b: 0 }, Color { r: 255, g: 255, b: 255 }]
}

/// The text color of a label on `c`: white when it contrasts more with `c`
/// than black does, else black.
pub open spec fn text_color_spec(c: Color) -> Color {
    if contrast_spec(c, Color { r: 255, g: 255, b: 255 }) > contrast_spec(c, Color { r: 0, g: 0, b: 0 }) {
        Color { r: 255, g: 255, b: 255 }
    } else {
        Color { r: 0, g: 0, b: 0 }
    }
}

/// How the label on `c` is shown: bold, on `c`, in its text color.
pub open spec fn label_style(c: Color) -> Style {
    Style::Colored { fg: text_color_spec(c), bg: c, bold: true }
}

/// The labels of the first `k` colors, joined by commas.
pub open spec fn joined_labels(colors: Seq<Color>, with_rgb: bool, k: nat) -> Seq<char>
    decreases k,
{
    if k == 0 {
        seq![]
    } else if k == 1 {
        label_spec(colors[0], with_rgb)
    } else {
        joined_labels(colors, with_rgb, (k - 1) as nat) + seq![','] + label_spec(
            colors[k - 1],
            with_rgb,
        )
    }
}

/// Half the width of a square, in columns: 8 with RGB labels, 4 with hex.
pub open spec fn square_spec(with_rgb: bool) -> nat {
    if with_rgb {
        8
    } else {
        4
    }
}

/// The number of squares per row for a terminal `width` columns wide (at least one).
pub open spec fn columns_spec(width: nat, with_rgb: bool) -> nat {
    let c = width / (2 * square_spec(with_rgb) + 2);
    if c == 0 {
        1
    } else {
        c
    }
}

/// The number of squares on row `row` of a grid of `n` squares.
pub open spec fn row_count_spec(n: nat, cols: nat, row: nat) -> nat {
    if (row + 1) * cols <= n {
        cols
    } else {
        (n - row * cols) as nat
    }
}

/// Line `line` of the band of the square at `index`: a blank line, the
/// label line, or a line of the square itself.
pub open spec fn cell_spec(c: Color, with_rgb: bool, line: nat) -> Seq<(Seq<char>, Style)> {
    let sq = square_spec(with_rgb);
    if line == 0 {
        seq![(spaces(2 * sq + 2), Style::Plain)]
    } else if line == 1 {
        let label = label_spec(c, with_rgb);
        seq![(spaces(2) + label + spaces((2 * sq - label.len()) as nat), Style::Bold)]
    } else {
        seq![(spaces(2), Style::Plain), (spaces(2 * sq), Style::Colored { fg: c, bg: c, bold: false })]
    }
}

/// The first `k` cells of line `line` of grid row `row`.
pub open spec fn cells_spec(
    colors: Seq<Color>,
    with_rgb: bool,
    cols: nat,
    row: nat,
    line: nat,
    k: nat,
) -> Seq<(Seq<char>, Style)>
    decreases k,
{
    if k == 0 {
        seq![]
    } else {
        cells_spec(colors, with_rgb, cols, row, line, (k - 1) as nat) + cell_spec(
            colors[row * cols + k - 1],
            with_rgb,
            line,
        )
    }
}

/// One line of the grid: an indent that centres a short last row, the cells,
/// and the line break.
pub open spec fn grid_line_spec(colors: Seq<Color>, with_rgb: bool, cols: nat, i: nat) -> Seq<
    (Seq<char>, Style),
> {
    let band = square_spec(with_rgb) + 2;
    let row = i / band;
    let count = row_count_spec(colors.len(), cols, row);
    let indent = ((cols - count) * (2 * square_spec(with_rgb) + 2) / 2) as nat;
    seq![(spaces(indent), Style::Plain)] + cells_spec(colors, with_rgb, cols, row, i % band, count)
        + seq![(seq!['\n'], Style::Plain)]
}

/// The first `k` lines of the grid.
pub open spec fn grid_lines_spec(colors: Seq<Color>, with_rgb: bool, cols: nat, k: nat) -> Seq<
    (Seq<char>, Style),
>
    decreases k,
{
    if k == 0 {
        seq![]
    } else {
        grid_lines_spec(colors, with_rgb, cols, (k - 1) as nat) + grid_line_spec(
            colors,
            with_rgb,
            cols,
            (k - 1) as nat,
        )
    }
}

/// The number of rows of a grid of `n` squares, `cols` per row.
pub open spec fn rows_spec(n: nat, cols: nat) -> nat {
    if cols == 0 {
        0
    } else {
        ((n + cols - 1) as nat / cols) as nat
    }
}

/// The grid of squares for a terminal `width` columns wide, and a blank line.
pub open spec fn grid_spec(colors: Seq<Color>, with_rgb: bool, width: nat) -> Seq<
    (Seq<char>, Style),
> {
    let cols = columns_spec(width, with_rgb);
    let lines = rows_spec(colors.len(), cols) * (square_spec(with_rgb) + 2);
    grid_lines_spec(colors, with_rgb, cols, lines) + seq![(seq!['\n'], Style::Plain)]
}

/// The labels of the first `k` colors on their own colors, separated by commas.
pub open spec fn line_labels_spec(colors: Seq<Color>, with_rgb: bool, k: nat) -> Seq<
    (Seq<char>, Style),
>
    decreases k,
{
    if k == 0 {
        seq![]
    } else {
        let prev = line_labels_spec(colors, with_rgb, (k - 1) as nat);
        let sep = if k >= 2 {
            seq![(seq![','], Style::Plain)]
        } else {
            seq![]
        };
        prev + sep + seq![(label_spec(colors[k - 1], with_rgb), label_style(colors[k - 1]))]
    }
}

/// The first of black and white with the largest contrast is the text color.
proof fn lemma_text_color(c: Color, fg: Color)
    requires
        exists|i: int| is_best_contrast(c, text_colors(), i) && fg == text_colors()[i],
    ensures
        fg == text_color_spec(c),
{
    let i = choose|i: int| is_best_contrast(c, text_colors(), i) && fg == text_colors()[i];
    assert(text_colors()[0] == Color { r: 0, g: 0, b: 0 });
    assert(text_colors()[1] == Color { r: 255, g: 255, b: 255 });
    if i == 0 {
        assert(contrast_spec(c, text_colors()[1]) <= contrast_spec(c, text_colors()[0]));
    } else {
        assert(contrast_spec(c, text_colors()[0]) < contrast_spec(c, text_colors()[1]));
    }
}

proof fn lemma_decimal_len(x: u8)
    ensures
        1 <= decimal_spec(x).len() <= 3,
{
}

proof fn lemma_label_len(c: Color, with_rgb: bool)
    ensures
        label_spec(c, with_rgb).len() <= 2 * square_spec(with_rgb),
{
    lemma_decimal_len(c.r);
    lemma_decimal_len(c.g);
    lemma_decimal_len(c.b);
}

/// `n` spaces.
fn spaces_string(n: usize) -> (r: String)
    ensures
        r@ == spaces(n as nat),
{
    let mut s = String::new();
    let mut i: usize = 0;
    while i < n
        invariant
            i <= n,
            s@ == spaces(i as nat),
        decreases n - i,
    {
        s.append(" ");
        proof {
            reveal_strlit(" ");
        }
        assert(s@ =~= spaces((i + 1) as nat));
        i = i + 1;
    }
    s
}

/// One character as a string.
fn text_of(c: char) -> (r: String)
    requires
        c == ',' || c == '\n',
    ensures
        r@ == seq![c],
{
    if c == ',' {
        let s = String::from_str(",");
        proof {
            reveal_strlit(",");
        }
        s
    } else {
        let s = String::from_str("\n");
        proof {
            reveal_strlit("\n");
        }
        s
    }
}

proof fn lemma_rows_bound(n: nat, cols: nat)
    requires
        cols >= 1,
    ensures
        rows_spec(n, cols) <= n,
        rows_spec(n, cols) * cols >= n,
        rows_spec(n, cols) == 0 || (rows_spec(n, cols) - 1) * cols < n,
        rows_spec(n, cols) * cols <= n + cols - 1,
{
    let r = rows_spec(n, cols);
    assert(r == (n + cols - 1) as nat / cols);
    assert(r <= n && r * cols >= n && (r == 0 || (r - 1) * cols < n) && r * cols <= n + cols - 1) by (nonlinear_arith)
        requires
            cols >= 1,
            r == (n + cols - 1) as nat / cols,
    ;
}

proof fn lemma_row_in_grid(i: nat, band: nat, rows: nat, n: nat, cols: nat)
    requires
        band >= 1,
        cols >= 1,
        i < rows * band,
        rows == rows_spec(n, cols),
        rows * cols >= n,
        rows == 0 || (rows - 1) * cols < n,
        rows * cols <= n + cols - 1,
        cols <= 65535,
        n <= usize::MAX / 16,
    ensures
        row_count_spec(n, cols, i / band) <= cols,
        i / band < rows,
        (i / band) * cols < n,
        (i / band + 1) * cols <= n + cols,
        (i / band + 1) * cols <= usize::MAX,
        (i / band + 1) * cols > n ==> row_count_spec(n, cols, i / band) == n - (i / band) * cols,
        (i / band + 1) * cols <= n ==> row_count_spec(n, cols, i / band) == cols,
        (i / band) * cols + row_count_spec(n, cols, i / band) <= n,
{
    let row = i / band;
    assert(row < rows) by (nonlinear_arith)
        requires
            band >= 1,
            i < rows * band,
            row == i / band,
    ;
    assert(row * cols <= (rows - 1) * cols) by (nonlinear_arith)
        requires
            row < rows,
            cols >= 1,
    ;
    assert((row + 1) * cols == row * cols + cols) by (nonlinear_arith);
    assert((rows - 1) * cols + cols == rows * cols) by (nonlinear_arith);
}

impl ColorsCanvas {
    /// A canvas of `colors`; `sc` draws squares, `wrgb` writes RGB labels
    /// instead of hex, `clip_colors` offers the labels to the clipboard.
    pub fn new(colors: Vec<Color>, sc: bool, wrgb: bool, clip_colors: bool) -> (r: ColorsCanvas)
        ensures
            r.colors@ == colors@,
            r.show_canvas == sc,
            r.with_rgb == wrgb,
            r.clip_colors == clip_colors,
    {
        ColorsCanvas { colors, show_canvas: sc, with_rgb: wrgb, clip_colors }
    }

    /// The label of a color.
    fn label(&self, c: Color) -> (r: String)
        ensures
            r@ == label_spec(c, self.with_rgb),
    {
        if self.with_rgb {
            c.rgb_str()
        } else {
            c.hexadecimal_str()
        }
    }

    /// The labels of the colors joined by commas, when the canvas offers them
    /// to the clipboard.
    pub fn colors_clipboarded(&self) -> (r: Option<String>)
        ensures
            self.clip_colors ==> r is Some && r->0@ == joined_labels(
                self.colors@,
                self.with_rgb,
                self.colors@.len(),
            ),
            !self.clip_colors ==> r is None,
    {
        if !self.clip_colors {
            return None;
        }
        let mut text = String::new();
        let mut i: usize = 0;
        while i < self.colors.len()
            invariant
                i <= self.colors@.len(),
                text@ == joined_labels(self.colors@, self.with_rgb, i as nat),
            decreases self.colors@.len() - i,
        {
            if i > 0 {
                text.append(",");
                proof {
                    reveal_strlit(",");
                }
            }
            let label = self.label(self.colors[i]);
            text.append(label.as_str());
            i = i + 1;
        }
        Some(text)
    }

    /// The labels on one line, each in bold on its own color, separated by
    /// commas.
    pub fn print_tui(&self) -> (r: Vec<Segment>)
        ensures
            segments_view(r@) == line_labels_spec(self.colors@, self.with_rgb, self.colors@.len()),
    {
        let mut out: Vec<Segment> = Vec::new();
        let black = Color { r: 0, g: 0, b: 0 };
        let white = Color { r: 255, g: 255, b: 255 };
        let t_colors = [black, white];
        assert(t_colors@ =~= text_colors());
        let mut i: usize = 0;
        while i < self.colors.len()
            invariant
                i <= self.colors@.len(),
                t_colors@ == text_colors(),
                segments_view(out@) == line_labels_spec(self.colors@, self.with_rgb, i as nat),
            decreases self.colors@.len() - i,
        {
            let ghost before = out@;
            let col = self.colors[i];
            if i > 0 {
                out.push(Segment { text: text_of(','), style: Style::Plain });
            }
            let fg = col.best_contrast(t_colors.as_slice());
            proof {
                lemma_text_color(col, fg);
            }
            out.push(Segment { text: self.label(col), style: Style::Colored { fg, bg: col, bold: true } });
            assert(segments_view(out@) =~= line_labels_spec(self.colors@, self.with_rgb, (i + 1) as nat));
            i = i + 1;
        }
        out
    }

    /// The labels on one line as `print_tui` gives them, then a line break.
    fn print(&self) -> (r: Vec<Segment>)
        ensures
            segments_view(r@) == line_labels_spec(self.colors@, self.with_rgb, self.colors@.len())
                + seq![(seq!['\n'], Style::Plain)],
    {
        let mut out = self.print_tui();
        let ghost before = out@;
        out.push(Segment { text: text_of('\n'), style: Style::Plain });
        assert(segments_view(out@) =~= segments_view(before) + seq![(seq!['\n'], Style::Plain)]);
        out
    }

    /// Appends line `line` of the band of a square of color `c`.
    fn push_cell(&self, out: &mut Vec<Segment>, c: Color, line: usize)
        ensures
            segments_view(final(out)@) == segments_view(old(out)@) + cell_spec(
                c,
                self.with_rgb,
                line as nat,
            ),
    {
        let ghost before = out@;
        let sq: usize = if self.with_rgb {
            8
        } else {
            4
        };
        if line == 0 {
            out.push(Segment { text: spaces_string(2 * sq + 2), style: Style::Plain });
        } else if line == 1 {
            let label = self.label(c);
            proof {
                lemma_label_len(c, self.with_rgb);
            }
            let mut text = spaces_string(2);
            text.append(label.as_str());
            let pad = spaces_string(2 * sq - label.as_str().unicode_len());
            text.append(pad.as_str());
            out.push(Segment { text, style: Style::Bold });
        } else {
            out.push(Segment { text: spaces_string(2), style: Style::Plain });
            out.push(
                Segment {
                    text: spaces_string(2 * sq),
                    style: Style::Colored { fg: c, bg: c, bold: false },
                },
            );
        }
        assert(segments_view(out@) =~= segments_view(before) + cell_spec(
            c,
            self.with_rgb,
            line as nat,
        ));
    }

    /// The colors as a grid of squares, each with its label above it, for a
    /// terminal `term_width` columns wide; a short last row is centred.
    fn draw(&self, term_width: u16) -> (r: Vec<Segment>)
        requires
            self.colors@.len() <= usize::MAX / 16,
        ensures
            segments_view(r@) == grid_spec(self.colors@, self.with_rgb, term_width as nat),
    {
        let sq: usize = if self.with_rgb {
            8
        } else {
            4
        };
        let cw: usize = 2 * sq + 2;
        let band: usize = sq + 2;
        let mut cols: usize = term_width as usize / cw;
        if cols == 0 {
            cols = 1;
        }
        let n: usize = self.colors.len();
        let rows: usize = (n + cols - 1) / cols;
        proof {
            lemma_rows_bound(n as nat, cols as nat);
        }
        proof {
            assert(rows * band <= n * 10) by (nonlinear_arith)
                requires
                    rows <= n,
                    band <= 10,
            ;
        }
        let lines: usize = rows * band;
        let ghost colors = self.colors@;
        let mut out: Vec<Segment> = Vec::new();
        let mut i: usize = 0;
        while i < lines
            invariant
                i <= lines,
                colors == self.colors@,
                n == colors.len(),
                n <= usize::MAX / 16,
                1 <= cols,
                cols == columns_spec(term_width as nat, self.with_rgb),
                sq == square_spec(self.with_rgb),
                cw == 2 * sq + 2,
                band == sq + 2,
                rows == rows_spec(n as nat, cols as nat),
                rows <= n,
                rows * cols >= n,
                rows == 0 || (rows - 1) * cols < n,
                rows * cols <= n + cols - 1,
                cols <= 65535,
                lines == rows * band,
                segments_view(out@) == grid_lines_spec(colors, self.with_rgb, cols as nat, i as nat),
            decreases lines - i,
        {
            let row: usize = i / band;
            let line: usize = i % band;
            proof {
                lemma_row_in_grid(i as nat, band as nat, rows as nat, n as nat, cols as nat);
            }
            let count: usize = if (row + 1) * cols <= n {
                cols
            } else {
                n - row * cols
            };
            proof {
                let d: int = cols - count;
                assert(d * cw <= 65535 * 18) by (nonlinear_arith)
                    requires
                        0 <= d <= 65535,
                        cw <= 18,
                ;
            }
            let indent: usize = (cols - count) * cw / 2;
            let ghost start = segments_view(out@);
            out.push(Segment { text: spaces_string(indent), style: Style::Plain });
            let mut k: usize = 0;
            while k < count
                invariant
                    k <= count,
                    count == row_count_spec(n as nat, cols as nat, row as nat),
                    row * cols + count <= n,
                    n == colors.len(),
                    colors == self.colors@,
                    line == i % band,
                    segments_view(out@) == start + seq![(spaces(indent as nat), Style::Plain)]
                        + cells_spec(colors, self.with_rgb, cols as nat, row as nat, line as nat, k as nat),
                decreases count - k,
            {
                self.push_cell(&mut out, self.colors[row * cols + k], line);
                k = k + 1;
            }
            let ghost mid = out@;
            out.push(Segment { text: text_of('\n'), style: Style::Plain });
            assert(segments_view(out@) =~= segments_view(mid) + seq![(seq!['\n'], Style::Plain)]);
            assert(segments_view(out@) =~= grid_lines_spec(colors, self.with_rgb, cols as nat, (i + 1) as nat));
            i = i + 1;
        }
        let ghost last = out@;
        out.push(Segment { text: text_of('\n'), style: Style::Plain });
        assert(segments_view(out@) =~= segments_view(last) + seq![(seq!['\n'], Style::Plain)]);
        out
    }

    /// What showing the canvas prints: the grid of squares when `show_canvas`
    /// is set, else the labels on one line, each on its own color.
    pub fn display(&self, term_width: u16) -> (r: Vec<Segment>)
        requires
            self.colors@.len() <= usize::MAX / 16,
        ensures
            self.show_canvas ==> segments_view(r@) == grid_spec(
                self.colors@,
                self.with_rgb,
                term_width as nat,
            ),
            !self.show_canvas ==> segments_view(r@) == line_labels_spec(
                self.colors@,
                self.with_rgb,
                self.colors@.len(),
            ) + seq![(seq!['\n'], Style::Plain)],
    {
        if self.show_canvas {
            self.draw(term_width)
        } else {
            self.print()
        }
    }
}

} // verus!
