//! The cell grid and its renderer.
//!
//! A `TextImage` is a fixed grid of character cells, one per sampled pixel,
//! built once from row-major RGB samples and rendered any number of times.
//! Rendering walks the grid row by row; every cell becomes an independently
//! reset styled run (color escapes around the glyph as its colors demand),
//! and every row ends with a carriage-return + line-feed pair.

use vstd::prelude::*;
use vstd::string::StringExecFns;

use crate::escape::bg_escape;
use crate::escape::cr_free;
use crate::escape::fg_escape;
use crate::escape::lemma_color_escape_cr_free;
use crate::escape::push_bg;
use crate::escape::push_char;
use crate::escape::push_fg;
use crate::escape::push_reset;
use crate::escape::reset_escape;
use crate::palette::get_char;
use crate::palette::luminance;
use crate::palette::spec_get_char;
use crate::palette::spec_luminance;

verus! {

/// Target cell-grid dimensions: the grid always has exactly
/// `width * height` cells.
#[derive(Debug, Clone, Copy)]
pub struct Options {
    pub width: u32,
    pub height: u32,
}

/// Foreground color policy of the compositor.
///
/// In `BackgroundOnly` mode (the default) the foreground is absent and the
/// glyph is forced to the space character: a glyph drawn in no foreground
/// color is visually inert, so the cell shows as a solid color block. In
/// `Full` mode the foreground equals the sampled color and the glyph is the
/// luminance-derived palette character.
#[derive(Debug, Clone, Copy, PartialEq, Eq, Structural)]
pub enum ColorMode {
    BackgroundOnly,
    Full,
}

/// One character cell: a glyph with an optional background and an optional
/// foreground color. A cell with both colors absent renders as the bare
/// glyph; either color present triggers ANSI coloring.
#[derive(Debug, Clone, Copy, PartialEq, Eq)]
pub struct Pixel {
    pub glyph: char,
    pub background: Option<(u8, u8, u8)>,
    pub foreground: Option<(u8, u8, u8)>,
}

/// A grid of `width * height` cells in row-major order, immutable once
/// constructed.
pub struct TextImage {
    width: u32,
    height: u32,
    cells: Vec<Pixel>,
}

/// The cell that the compositor builds from one sampled color: the sample
/// becomes the background; the mode decides glyph and foreground.
pub open spec fn spec_compose(color: (u8, u8, u8), mode: ColorMode) -> Pixel {
    match mode {
        ColorMode::BackgroundOnly => Pixel {
            glyph: ' ',
            background: Some(color),
            foreground: None,
        },
        ColorMode::Full => Pixel {
            glyph: spec_get_char(spec_luminance(color)),
            background: Some(color),
            foreground: Some(color),
        },
    }
}

/// Whether a cell is one the compositor can produce in the given mode.
pub open spec fn composed_in_mode(p: Pixel, mode: ColorMode) -> bool {
    exists|c: (u8, u8, u8)| p == spec_compose(c, mode)
}

/// Map one sample to its cell.
pub fn compose(color: (u8, u8, u8), mode: ColorMode) -> (p: Pixel)
    ensures
        p == spec_compose(color, mode),
{
    match mode {
        ColorMode::BackgroundOnly => Pixel {
            glyph: ' ',
            background: Some(color),
            foreground: None,
        },
        ColorMode::Full => Pixel {
            glyph: get_char(luminance(color)),
            background: Some(color),
            foreground: Some(color),
        },
    }
}

/// The characters one cell renders to, by the four-way branch on color
/// presence.
pub open spec fn cell_chars(p: Pixel) -> Seq<char> {
    match (p.foreground, p.background) {
        (Some(f), Some(b)) => fg_escape(f) + bg_escape(b) + seq![p.glyph] + reset_escape(),
        (Some(f), None) => fg_escape(f) + seq![p.glyph] + reset_escape(),
        (None, Some(b)) => bg_escape(b) + seq![p.glyph] + reset_escape(),
        (None, None) => seq![p.glyph],
    }
}

/// The characters of the first `n` cells of `s`, concatenated.
pub open spec fn cells_chars_prefix(s: Seq<Pixel>, n: int) -> Seq<char>
    decreases n,
{
    if n <= 0 {
        Seq::empty()
    } else {
        cells_chars_prefix(s, n - 1) + cell_chars(s[n - 1])
    }
}

/// The row terminator: carriage return then line feed.
pub open spec fn crlf() -> Seq<char> {
    seq!['\r', '\n']
}

/// The characters of row `y` of a width-`w` grid: its `w` cells, then CRLF.
pub open spec fn row_chars(cells: Seq<Pixel>, w: int, y: int) -> Seq<char> {
    cells_chars_prefix(cells.subrange(y * w, (y + 1) * w), w) + crlf()
}

/// The characters of the first `n` rows, concatenated.
pub open spec fn rows_chars_prefix(cells: Seq<Pixel>, w: int, n: int) -> Seq<char>
    decreases n,
{
    if n <= 0 {
        Seq::empty()
    } else {
        rows_chars_prefix(cells, w, n - 1) + row_chars(cells, w, n - 1)
    }
}

/// Everything a `TextImage` renders to.
pub open spec fn render_chars(ti: TextImage) -> Seq<char> {
    rows_chars_prefix(ti.spec_cells(), ti.spec_width() as int, ti.spec_height() as int)
}

impl TextImage {
    /// The grid width, in cells.
    pub closed spec fn spec_width(self) -> u32 {
        self.width
    }

    /// The grid height, in cells.
    pub closed spec fn spec_height(self) -> u32 {
        self.height
    }

    /// The cells, row-major.
    pub closed spec fn spec_cells(self) -> Seq<Pixel> {
        self.cells@
    }

    /// Well-formedness: exactly `width * height` cells.
    pub open spec fn wf(self) -> bool {
        self.spec_cells().len() == (self.spec_width() as int) * (self.spec_height() as int)
    }

    pub fn width(&self) -> (w: u32)
        ensures
            w == self.spec_width(),
    {
        self.width
    }

    pub fn height(&self) -> (h: u32)
        ensures
            h == self.spec_height(),
    {
        self.height
    }

    pub fn cell_count(&self) -> (n: usize)
        ensures
            n == self.spec_cells().len(),
    {
        self.cells.len()
    }

    /// The cell at a row-major index.
    pub fn cell_at(&self, i: usize) -> (p: Pixel)
        requires
            i < self.spec_cells().len(),
        ensures
            p == self.spec_cells()[i as int],
    {
        self.cells[i]
    }

    /// Build a grid directly from its cells.
    pub fn new(width: u32, height: u32, cells: Vec<Pixel>) -> (ti: TextImage)
        requires
            cells@.len() == (width as int) * (height as int),
        ensures
            ti.spec_width() == width,
            ti.spec_height() == height,
            ti.spec_cells() == cells@,
            ti.wf(),
    {
        TextImage { width, height, cells }
    }

    /// Build a grid by compositing one cell per row-major sample.
    pub fn from_samples(opts: Options, samples: &Vec<(u8, u8, u8)>, mode: ColorMode) -> (ti:
        TextImage)
        requires
            samples@.len() == (opts.width as int) * (opts.height as int),
        ensures
            ti.spec_width() == opts.width,
            ti.spec_height() == opts.height,
            ti.wf(),
            ti.spec_cells().len() == (opts.width as int) * (opts.height as int),
            forall|i: int|
                0 <= i < samples@.len() ==> ti.spec_cells()[i] == spec_compose(
                    samples@[i],
                    mode,
                ),
    {
        let mut cells: Vec<Pixel> = Vec::new();
        let mut i: usize = 0;
        while i < samples.len()
            invariant
                i <= samples@.len(),
                samples@.len() == (opts.width as int) * (opts.height as int),
                cells@.len() == i,
                forall|j: int| 0 <= j < i ==> cells@[j] == spec_compose(samples@[j], mode),
            decreases samples@.len() - i,
        {
            cells.push(compose(samples[i], mode));
            i = i + 1;
        }
        TextImage { width: opts.width, height: opts.height, cells }
    }

    /// Build a grid from a decoded image: the image is downsampled to
    /// exactly `opts.width * opts.height` samples and composited in the
    /// default color mode, which is background-only (solid color blocks,
    /// every glyph a space).
    pub fn from_image(image: image::DynamicImage, opts: Options) -> (ti: TextImage)
        requires
            opts.width > 0,
            opts.height > 0,
            (opts.width as int) * (opts.height as int) <= usize::MAX as int,
        ensures
            ti.spec_width() == opts.width,
            ti.spec_height() == opts.height,
            ti.wf(),
            forall|i: int|
                0 <= i < ti.spec_cells().len() ==> composed_in_mode(
                    #[trigger] ti.spec_cells()[i],
                    ColorMode::BackgroundOnly,
                ),
    {
        Self::from_image_with(image, opts, ColorMode::BackgroundOnly)
    }

    /// Build a grid from a decoded image with an explicit color mode: every
    /// cell is the compositor's output for one sample of the downsampled
    /// image.
    pub fn from_image_with(image: image::DynamicImage, opts: Options, mode: ColorMode) -> (ti:
        TextImage)
        requires
            opts.width > 0,
            opts.height > 0,
            (opts.width as int) * (opts.height as int) <= usize::MAX as int,
        ensures
            ti.spec_width() == opts.width,
            ti.spec_height() == opts.height,
            ti.wf(),
            forall|i: int|
                0 <= i < ti.spec_cells().len() ==> composed_in_mode(
                    #[trigger] ti.spec_cells()[i],
                    mode,
                ),
    {
        let samples = crate::raster::resample_rgb(&image, opts.width, opts.height);
        let ti = Self::from_samples(opts, &samples, mode);
        proof {
            assert forall|i: int| 0 <= i < ti.spec_cells().len() implies composed_in_mode(
                ti.spec_cells()[i],
                mode,
            ) by {
                assert(ti.spec_cells()[i] == spec_compose(samples@[i], mode));
            }
        }
        ti
    }

    /// Serialize the grid, row by row, appending to `buffer`. Each cell is
    /// an independently reset styled run; each row ends with CRLF.
    pub fn to_buffer(&self, buffer: &mut String)
        requires
            self.wf(),
        ensures
            final(buffer)@ == old(buffer)@ + render_chars(*self),
    {
        let w = self.width;
        let h = self.height;
        let mut y: u32 = 0;
        while y < h
            invariant
                self.wf(),
                w == self.spec_width(),
                h == self.spec_height(),
                y <= h,
                buffer@ == old(buffer)@ + rows_chars_prefix(self.spec_cells(), w as int, y as int),
            decreases h - y,
        {
            let ghost row_start = buffer@;
            let mut x: u32 = 0;
            while x < w
                invariant
                    self.wf(),
                    w == self.spec_width(),
                    h == self.spec_height(),
                    y < h,
                    x <= w,
                    buffer@ == row_start + cells_chars_prefix(
                        self.spec_cells().subrange((y as int) * (w as int), (y as int + 1) * (
                        w as int)),
                        x as int,
                    ),
                decreases w - x,
            {
                let n_cells = self.cells.len();
                proof {
                    assert((y as int) * (w as int) + (x as int) < (h as int) * (w as int) && (
                    y as int) * (w as int) + (x as int) >= 0 && (y as int) * (w as int) + (w as int)
                        <= (h as int) * (w as int) && ((y as int) + 1) * (w as int) == (y as int) * (
                    w as int) + (w as int) && (h as int) * (w as int) == (w as int) * (h as int))
                        by (nonlinear_arith)
                        requires
                            (y as int) < (h as int),
                            (x as int) < (w as int),
                            0 <= (y as int),
                            0 <= (x as int),
                    ;
                    assert(n_cells as int == (w as int) * (h as int));
                }
                let idx: usize = (y as usize) * (w as usize) + (x as usize);
                let p = self.cells[idx];
                let ghost row = self.spec_cells().subrange(
                    (y as int) * (w as int),
                    (y as int + 1) * (w as int),
                );
                proof {
                    assert(row[x as int] == self.spec_cells()[(y as int) * (w as int) + (x as int)]);
                }
                match (p.foreground, p.background) {
                    (Some(f), Some(b)) => {
                        push_fg(buffer, f);
                        push_bg(buffer, b);
                        push_char(buffer, p.glyph);
                        push_reset(buffer);
                    },
                    (Some(f), None) => {
                        push_fg(buffer, f);
                        push_char(buffer, p.glyph);
                        push_reset(buffer);
                    },
                    (None, Some(b)) => {
                        push_bg(buffer, b);
                        push_char(buffer, p.glyph);
                        push_reset(buffer);
                    },
                    (None, None) => {
                        push_char(buffer, p.glyph);
                    },
                }
                proof {
                    assert(cells_chars_prefix(row, x as int + 1) == cells_chars_prefix(
                        row,
                        x as int,
                    ) + cell_chars(row[x as int]));
                    assert(buffer@ =~= row_start + cells_chars_prefix(row, x as int + 1));
                }
                x = x + 1;
            }
            buffer.append("\r\n");
            proof {
                reveal_strlit("\r\n");
                assert("\r\n"@ =~= crlf());
                let cs = self.spec_cells();
                assert(rows_chars_prefix(cs, w as int, y as int + 1) == rows_chars_prefix(
                    cs,
                    w as int,
                    y as int,
                ) + row_chars(cs, w as int, y as int));
                assert(buffer@ =~= old(buffer)@ + rows_chars_prefix(cs, w as int, y as int + 1));
            }
            y = y + 1;
        }
    }
}

/// Number of CRLF occurrences in `s`: positions `i` with `s[i] == '\r'` and
/// `s[i + 1] == '\n'`.
pub open spec fn count_crlf(s: Seq<char>) -> int
    decreases s.len(),
{
    if s.len() < 2 {
        0
    } else {
        (if s[0] == '\r' && s[1] == '\n' {
            1int
        } else {
            0int
        }) + count_crlf(s.drop_first())
    }
}

proof fn lemma_cr_free_concat(a: Seq<char>, b: Seq<char>)
    requires
        cr_free(a),
        cr_free(b),
    ensures
        cr_free(a + b),
{
    assert forall|i: int| 0 <= i < (a + b).len() implies (a + b)[i] != '\r' by {
        if i < a.len() {
            assert((a + b)[i] == a[i]);
        } else {
            assert((a + b)[i] == b[i - a.len()]);
        }
    }
}

proof fn lemma_count_crlf_skip(a: Seq<char>, b: Seq<char>)
    requires
        cr_free(a),
    ensures
        count_crlf(a + b) == count_crlf(b),
    decreases a.len(),
{
    if a.len() == 0 {
        assert(a + b =~= b);
    } else {
        assert((a + b).drop_first() =~= a.drop_first() + b);
        assert(cr_free(a.drop_first())) by {
            assert forall|i: int| 0 <= i < a.drop_first().len() implies a.drop_first()[i] != '\r' by {
                assert(a.drop_first()[i] == a[i + 1]);
            }
        }
        lemma_count_crlf_skip(a.drop_first(), b);
        assert((a + b)[0] == a[0]);
    }
}

proof fn lemma_count_crlf_block(a: Seq<char>, b: Seq<char>)
    requires
        cr_free(a),
    ensures
        count_crlf(a + crlf() + b) == 1 + count_crlf(b),
{
    let s = crlf() + b;
    assert(a + crlf() + b =~= a + s);
    lemma_count_crlf_skip(a, s);
    assert(s[0] == '\r' && s[1] == '\n');
    assert(s.drop_first() =~= seq!['\n'] + b);
    assert(cr_free(seq!['\n']));
    lemma_count_crlf_skip(seq!['\n'], b);
}

proof fn lemma_cell_chars_cr_free(p: Pixel)
    requires
        p.glyph != '\r',
    ensures
        cr_free(cell_chars(p)),
{
    assert(cr_free(seq![p.glyph]));
    match (p.foreground, p.background) {
        (Some(f), Some(b)) => {
            lemma_color_escape_cr_free(f);
            lemma_color_escape_cr_free(b);
            lemma_cr_free_concat(fg_escape(f), bg_escape(b));
            lemma_cr_free_concat(fg_escape(f) + bg_escape(b), seq![p.glyph]);
            lemma_cr_free_concat(fg_escape(f) + bg_escape(b) + seq![p.glyph], reset_escape());
        },
        (Some(f), None) => {
            lemma_color_escape_cr_free(f);
            lemma_cr_free_concat(fg_escape(f), seq![p.glyph]);
            lemma_cr_free_concat(fg_escape(f) + seq![p.glyph], reset_escape());
        },
        (None, Some(b)) => {
            lemma_color_escape_cr_free(b);
            lemma_cr_free_concat(bg_escape(b), seq![p.glyph]);
            lemma_cr_free_concat(bg_escape(b) + seq![p.glyph], reset_escape());
        },
        (None, None) => {},
    }
}

proof fn lemma_cells_prefix_cr_free(s: Seq<Pixel>, n: int)
    requires
        n <= s.len(),
        forall|i: int| 0 <= i < s.len() ==> (#[trigger] s[i]).glyph != '\r',
    ensures
        cr_free(cells_chars_prefix(s, n)),
    decreases n,
{
    if n > 0 {
        lemma_cells_prefix_cr_free(s, n - 1);
        lemma_cell_chars_cr_free(s[n - 1]);
        lemma_cr_free_concat(cells_chars_prefix(s, n - 1), cell_chars(s[n - 1]));
    }
}

/// The rows from `y` (inclusive) to `h` (exclusive), concatenated.
spec fn rows_chars_from(cells: Seq<Pixel>, w: int, y: int, h: int) -> Seq<char>
    decreases h - y,
{
    if y >= h {
        Seq::empty()
    } else {
        row_chars(cells, w, y) + rows_chars_from(cells, w, y + 1, h)
    }
}

proof fn lemma_rows_from_snoc(cells: Seq<Pixel>, w: int, y: int, n: int)
    requires
        0 <= y <= n,
    ensures
        rows_chars_from(cells, w, y, n + 1) == rows_chars_from(cells, w, y, n) + row_chars(
            cells,
            w,
            n,
        ),
    decreases n - y,
{
    if y == n {
        assert(rows_chars_from(cells, w, y, n + 1) =~= rows_chars_from(cells, w, y, n)
            + row_chars(cells, w, n));
    } else {
        lemma_rows_from_snoc(cells, w, y + 1, n);
        assert(rows_chars_from(cells, w, y, n + 1) == row_chars(cells, w, y) + rows_chars_from(
            cells,
            w,
            y + 1,
            n + 1,
        ));
        assert(rows_chars_from(cells, w, y, n) == row_chars(cells, w, y) + rows_chars_from(
            cells,
            w,
            y + 1,
            n,
        ));
        assert(rows_chars_from(cells, w, y, n + 1) =~= rows_chars_from(cells, w, y, n)
            + row_chars(cells, w, n));
    }
}

proof fn lemma_rows_prefix_eq_from(cells: Seq<Pixel>, w: int, n: int)
    requires
        n >= 0,
    ensures
        rows_chars_prefix(cells, w, n) == rows_chars_from(cells, w, 0, n),
    decreases n,
{
    if n > 0 {
        lemma_rows_prefix_eq_from(cells, w, n - 1);
        lemma_rows_from_snoc(cells, w, 0, n - 1);
    }
}

proof fn lemma_rows_from_count(cells: Seq<Pixel>, w: int, y: int, h: int)
    requires
        0 <= w,
        0 <= y <= h,
        h * w <= cells.len(),
        forall|i: int| 0 <= i < cells.len() ==> (#[trigger] cells[i]).glyph != '\r',
    ensures
        count_crlf(rows_chars_from(cells, w, y, h)) == h - y,
    decreases h - y,
{
    if y < h {
        assert(0 <= y * w && (y + 1) * w == y * w + w && (y + 1) * w <= h * w) by (nonlinear_arith)
            requires
                0 <= y,
                y < h,
                0 <= w,
        ;
        let rowcells = cells.subrange(y * w, (y + 1) * w);
        assert(forall|i: int| 0 <= i < rowcells.len() ==> (#[trigger] rowcells[i]).glyph != '\r')
            by {
            assert(forall|i: int|
                0 <= i < rowcells.len() ==> rowcells[i] == cells[y * w + i]);
        }
        lemma_cells_prefix_cr_free(rowcells, w);
        lemma_rows_from_count(cells, w, y + 1, h);
        lemma_count_crlf_block(
            cells_chars_prefix(rowcells, w),
            rows_chars_from(cells, w, y + 1, h),
        );
        assert(rows_chars_from(cells, w, y, h) =~= cells_chars_prefix(rowcells, w) + crlf()
            + rows_chars_from(cells, w, y + 1, h));
    }
}

/// Row separation: the rendered buffer holds exactly `height` CRLF
/// terminators, one closing each row of `width` rendered cells. The premise
/// keeps a carriage return out of the glyphs themselves: a cell whose glyph
/// were itself `'\r'` could forge an extra terminator, and the compositor
/// never produces one (see `lemma_composed_glyph_not_cr`).
pub proof fn lemma_row_separation(ti: TextImage)
    requires
        ti.wf(),
        forall|i: int|
            0 <= i < ti.spec_cells().len() ==> (#[trigger] ti.spec_cells()[i]).glyph != '\r',
    ensures
        count_crlf(render_chars(ti)) == ti.spec_height() as int,
{
    let cells = ti.spec_cells();
    let w = ti.spec_width() as int;
    let h = ti.spec_height() as int;
    lemma_rows_prefix_eq_from(cells, w, h);
    assert(h * w == w * h) by (nonlinear_arith);
    lemma_rows_from_count(cells, w, 0, h);
}

/// The compositor never emits a carriage-return glyph: in background-only
/// mode the glyph is a space, in full mode it is a palette entry.
pub proof fn lemma_composed_glyph_not_cr(p: Pixel, mode: ColorMode)
    requires
        composed_in_mode(p, mode),
    ensures
        p.glyph != '\r',
{
    let c = choose|c: (u8, u8, u8)| p == spec_compose(c, mode);
    match mode {
        ColorMode::BackgroundOnly => {},
        ColorMode::Full => {
            crate::palette::lemma_palette_no_control(
                crate::palette::spec_bucket(spec_luminance(c)),
            );
        },
    }
}

/// Rendering is deterministic: the text a render appends is a function of
/// the image alone, so two renders of one `TextImage` append byte-identical
/// text.
pub proof fn lemma_render_deterministic(ti: TextImage, out1: Seq<char>, out2: Seq<char>)
    requires
        out1 == render_chars(ti),
        out2 == render_chars(ti),
    ensures
        out1 == out2,
{
}

} // verus!
