//! Sixel graphics decoding and placement.
//!
//! The data of a sixel image is a stream of characters: each one in `?`..=`~`
//! paints one column of six stacked pixels (its value minus `0x3f`, the
//! least significant bit the topmost pixel); `$` returns to the first column,
//! `-` moves down one band of six rows; `#` selects or defines a color
//! register, `"` declares the raster size and `!` repeats a sixel character.
use crate::color::Rgb;
use crate::text::chars_of;
use std::sync::Arc;
use vstd::prelude::*;

verus! {

/// A pixel: red, green, blue and opacity.
#[derive(Debug, Copy, Clone, PartialEq, Eq, Structural)]
pub struct Rgba {
    pub r: u8,
    pub g: u8,
    pub b: u8,
    pub a: u8,
}

/// The most pixels a decoded image may have; a raster declaration asking
/// for more is refused rather than allocated.
pub const MAX_PIXELS: usize = 16000000;

/// A decoded sixel image: a row-major, tightly packed RGBA pixel buffer.
#[derive(Debug, PartialEq)]
pub struct Sixel {
    pub width: usize,
    pub height: usize,
    pub pixels: Vec<Rgba>,
}

/// A decoded sixel image anchored to a terminal cell (`col`, `row`). When
/// the cell size is known, the image also has a footprint of `cols` x
/// `rows` cells, with a mark for each cell that later content drew over.
#[derive(Debug, Clone, PartialEq)]
pub struct Image {
    pub col: usize,
    pub row: usize,
    data: Arc<Sixel>,
    cols: usize,
    rows: usize,
    occluded: Vec<bool>,
}

/// The pixel no sixel was drawn on.
pub open spec fn transparent() -> Rgba {
    Rgba { r: 0, g: 0, b: 0, a: 0 }
}

/// The pixel a sixel draws in the color `c`.
pub open spec fn opaque(c: Rgb) -> Rgba {
    Rgba { r: c.r, g: c.g, b: c.b, a: 255 }
}

impl Image {
    /// `new` is this image after `occlude(col, row)`: the same image and
    /// footprint, with the footprint cell under (`col`, `row`) marked if
    /// there is one.
    pub open spec fn occluded_at(&self, new: &Image, col: usize, row: usize) -> bool {
        &&& new.wf()
        &&& new.spec_col() == self.spec_col()
        &&& new.spec_row() == self.spec_row()
        &&& new.spec_data() == self.spec_data()
        &&& new.spec_cols() == self.spec_cols()
        &&& new.spec_rows() == self.spec_rows()
        &&& new.spec_occluded() == if self.spec_col() <= col < self.spec_col() + self.spec_cols()
            && self.spec_row() <= row < self.spec_row() + self.spec_rows() {
            self.spec_occluded().update(
                (row - self.spec_row()) * self.spec_cols() + (col - self.spec_col()),
                true,
            )
        } else {
            self.spec_occluded()
        }
    }
}

/// The call `occlude(hit.0, hit.1)` names the terminal cell (`col`, `row`).
pub open spec fn hit_at(hit: (usize, usize), col: int, row: int) -> bool {
    hit.0 == col && hit.1 == row
}

/// Two cells of a footprint `cols` wide have the same index only when they
/// are the same cell.
proof fn lemma_cell_index_unique(c1: int, r1: int, c2: int, r2: int, cols: int)
    requires
        0 <= c1 < cols,
        0 <= c2 < cols,
        0 <= r1,
        0 <= r2,
        r1 * cols + c1 == r2 * cols + c2,
    ensures
        c1 == c2 && r1 == r2,
{
    assert(c1 == c2 && r1 == r2) by (nonlinear_arith)
        requires
            0 <= c1 < cols,
            0 <= c2 < cols,
            0 <= r1,
            0 <= r2,
            r1 * cols + c1 == r2 * cols + c2,
    ;
}

/// After a run of `occlude` calls at the cells `hits`, a footprint cell is
/// marked exactly when it was marked before or one of the calls hit the
/// terminal cell it covers; outside the footprint nothing is marked.
pub proof fn lemma_occlusion_history(imgs: Seq<Image>, hits: Seq<(usize, usize)>, dc: int, dr: int)
    requires
        imgs.len() == hits.len() + 1,
        imgs[0].wf(),
        forall|i: int| 0 <= i < hits.len() ==> #[trigger] imgs[i].occluded_at(&imgs[i + 1], hits[i].0, hits[i].1),
    ensures
        imgs.last().spec_is_occluded(dc, dr) <==> (0 <= dc < imgs[0].spec_cols() && 0 <= dr < imgs[0].spec_rows()
            && (imgs[0].spec_is_occluded(dc, dr) || exists|i: int| 0 <= i < hits.len()
                && #[trigger] hit_at(hits[i], imgs[0].spec_col() + dc, imgs[0].spec_row() + dr))),
    decreases hits.len(),
{
    let n = hits.len() as int;
    if n > 0 {
        let imgs1 = imgs.drop_last();
        let hits1 = hits.drop_last();
        assert forall|i: int| 0 <= i < hits1.len() implies #[trigger] imgs1[i].occluded_at(&imgs1[i + 1], hits1[i].0, hits1[i].1) by {
            assert(imgs[i].occluded_at(&imgs[i + 1], hits[i].0, hits[i].1));
        }
        lemma_occlusion_history(imgs1, hits1, dc, dr);
        lemma_same_frame(imgs, hits, n - 1);
        let j = n - 1;
        assert(imgs[j].occluded_at(&imgs[j + 1], hits[j].0, hits[j].1));
        let a = imgs[j];
        let b = imgs[n];
        assert(imgs1.last() == a);
        assert(imgs.last() == b);
        let tc = imgs[0].spec_col() + dc;
        let tr = imgs[0].spec_row() + dr;
        let (col, row) = hits[j];
        if a.spec_col() <= col < a.spec_col() + a.spec_cols() && a.spec_row() <= row < a.spec_row() + a.spec_rows() {
            let hc = col - a.spec_col();
            let hr = row - a.spec_row();
            lemma_cell_index(hc, hr, a.spec_cols() as int, a.spec_rows() as int);
            if 0 <= dc < a.spec_cols() && 0 <= dr < a.spec_rows() {
                lemma_cell_index(dc, dr, a.spec_cols() as int, a.spec_rows() as int);
                if hr * a.spec_cols() + hc == dr * a.spec_cols() + dc {
                    lemma_cell_index_unique(hc, hr, dc, dr, a.spec_cols() as int);
                    assert(hit_at(hits[j], tc, tr));
                } else {
                    if hit_at(hits[j], tc, tr) {
                        assert(hc == dc && hr == dr);
                    }
                }
            }
        }
        let ex = exists|i: int| 0 <= i < hits.len() && #[trigger] hit_at(hits[i], tc, tr);
        let ex1 = exists|i: int| 0 <= i < hits1.len() && #[trigger] hit_at(hits1[i], tc, tr);
        assert(ex == (ex1 || hit_at(hits[j], tc, tr))) by {
            if hit_at(hits[j], tc, tr) {
                assert(hit_at(hits[j], tc, tr));
            }
            if ex1 {
                let i = choose|i: int| 0 <= i < hits1.len() && #[trigger] hit_at(hits1[i], tc, tr);
                assert(hits[i] == hits1[i]);
                assert(hit_at(hits[i], tc, tr));
            }
            if ex && !hit_at(hits[j], tc, tr) {
                let i = choose|i: int| 0 <= i < hits.len() && #[trigger] hit_at(hits[i], tc, tr);
                assert(i != j);
                assert(hits1[i] == hits[i]);
                assert(hit_at(hits1[i], tc, tr));
            }
        }
        assert(a.wf()) by {
            if j > 0 {
                let k = j - 1;
                assert(imgs[k].occluded_at(&imgs[k + 1], hits[k].0, hits[k].1));
            }
        }
        if 0 <= dc < a.spec_cols() && 0 <= dr < a.spec_rows() {
            lemma_cell_index(dc, dr, a.spec_cols() as int, a.spec_rows() as int);
            let it = dr * a.spec_cols() + dc;
            if hit_at(hits[j], tc, tr) {
                assert(b.spec_occluded()[it]);
            } else {
                assert(b.spec_occluded()[it] == a.spec_occluded()[it]);
            }
        }
    }
}

/// For an image with no cell marked, as `Image::new` and
/// `Image::from_sixel` make it, followed by a run of `occlude` calls at
/// the cells `hits`: a footprint cell (`dc`, `dr`) is marked exactly when
/// it lies in the footprint and one of the calls named the terminal cell
/// it covers; with no footprint (as from `Image::new`, or without a cell
/// size) no cell is ever marked.
pub proof fn lemma_occlusion_from_clear(imgs: Seq<Image>, hits: Seq<(usize, usize)>, dc: int, dr: int)
    requires
        imgs.len() == hits.len() + 1,
        imgs[0].wf(),
        forall|i: int| 0 <= i < imgs[0].spec_occluded().len() ==> !#[trigger] imgs[0].spec_occluded()[i],
        forall|i: int| 0 <= i < hits.len() ==> #[trigger] imgs[i].occluded_at(&imgs[i + 1], hits[i].0, hits[i].1),
    ensures
        imgs.last().spec_is_occluded(dc, dr) <==> (0 <= dc < imgs[0].spec_cols() && 0 <= dr < imgs[0].spec_rows()
            && exists|i: int| 0 <= i < hits.len()
                && #[trigger] hit_at(hits[i], imgs[0].spec_col() + dc, imgs[0].spec_row() + dr)),
        imgs[0].spec_cols() == 0 ==> !imgs.last().spec_is_occluded(dc, dr),
{
    lemma_occlusion_history(imgs, hits, dc, dr);
    if 0 <= dc < imgs[0].spec_cols() && 0 <= dr < imgs[0].spec_rows() {
        lemma_cell_index(dc, dr, imgs[0].spec_cols() as int, imgs[0].spec_rows() as int);
        assert(!imgs[0].spec_occluded()[dr * imgs[0].spec_cols() + dc]);
    }
}

/// Along a run of `occlude` calls, the image, its anchor and its footprint
/// stay.
proof fn lemma_same_frame(imgs: Seq<Image>, hits: Seq<(usize, usize)>, n: int)
    requires
        imgs.len() == hits.len() + 1,
        0 <= n <= hits.len(),
        forall|i: int| 0 <= i < hits.len() ==> #[trigger] imgs[i].occluded_at(&imgs[i + 1], hits[i].0, hits[i].1),
    ensures
        imgs[n].spec_col() == imgs[0].spec_col(),
        imgs[n].spec_row() == imgs[0].spec_row(),
        imgs[n].spec_cols() == imgs[0].spec_cols(),
        imgs[n].spec_rows() == imgs[0].spec_rows(),
    decreases n,
{
    if n > 0 {
        lemma_same_frame(imgs, hits, n - 1);
        let j = n - 1;
        assert(imgs[j].occluded_at(&imgs[j + 1], hits[j].0, hits[j].1));
    }
}

/// The number of cells `n` pixels take in cells `size` pixels wide.
pub open spec fn cells_for(n: int, size: int) -> int {
    (n + size - 1) / size
}

impl Image {
    /// The column of the anchor cell.
    pub closed spec fn spec_col(&self) -> usize {
        self.col
    }

    /// The row of the anchor cell.
    pub closed spec fn spec_row(&self) -> usize {
        self.row
    }

    /// The pixels of the image.
    pub closed spec fn spec_data(&self) -> Sixel {
        *self.data
    }

    /// The width of the footprint in cells, `0` when the cell size is unknown.
    pub closed spec fn spec_cols(&self) -> nat {
        self.cols as nat
    }

    /// The height of the footprint in cells, `0` when the cell size is unknown.
    pub closed spec fn spec_rows(&self) -> nat {
        self.rows as nat
    }

    /// The marks of the footprint cells, row by row.
    pub closed spec fn spec_occluded(&self) -> Seq<bool> {
        self.occluded@
    }

    /// One mark for each footprint cell.
    pub closed spec fn wf(&self) -> bool {
        self.occluded@.len() == self.cols * self.rows
    }

    /// Whether the footprint cell at (`dcol`, `drow`) from the anchor is
    /// marked.
    pub open spec fn spec_is_occluded(&self, dcol: int, drow: int) -> bool {
        0 <= dcol < self.spec_cols() && 0 <= drow < self.spec_rows()
            && self.spec_occluded()[drow * self.spec_cols() + dcol]
    }

    /// An image anchored at (`col`, `row`) from a row-major buffer of
    /// `width * height` pixels, with no footprint.
    pub fn new(col: usize, row: usize, width: usize, height: usize, pixels: Vec<Rgba>) -> (img: Self)
        ensures
            img.wf(),
            img.spec_col() == col,
            img.spec_row() == row,
            img.spec_data() == (Sixel { width, height, pixels }),
            img.spec_cols() == 0,
            img.spec_rows() == 0,
    {
        Image {
            col,
            row,
            data: Arc::new(Sixel { width, height, pixels }),
            cols: 0,
            rows: 0,
            occluded: Vec::new(),
        }
    }

    /// An image anchored at (`col`, `row`) from a decoded sixel; with a
    /// known cell size (`cw` x `ch` pixels, both positive), its footprint
    /// covers the cells its pixels reach, none of them marked.
    pub fn from_sixel(col: usize, row: usize, sixel: Sixel, cell_size: Option<(usize, usize)>) -> (img: Self)
        requires
            sixel.width * sixel.height <= usize::MAX,
        ensures
            img.wf(),
            img.spec_col() == col,
            img.spec_row() == row,
            img.spec_data() == sixel,
            match cell_size {
                Some((cw, ch)) if cw > 0 && ch > 0 => {
                    &&& img.spec_cols() == cells_for(sixel.width as int, cw as int)
                    &&& img.spec_rows() == cells_for(sixel.height as int, ch as int)
                },
                _ => img.spec_cols() == 0 && img.spec_rows() == 0,
            },
            forall|i: int| 0 <= i < img.spec_occluded().len() ==> !#[trigger] img.spec_occluded()[i],
    {
        let (cols, rows) = match cell_size {
            Some((cw, ch)) => {
                if cw > 0 && ch > 0 {
                    (div_ceil(sixel.width, cw), div_ceil(sixel.height, ch))
                } else {
                    (0, 0)
                }
            },
            None => (0, 0),
        };
        proof {
            lemma_footprint(sixel.width as int, sixel.height as int, cols as int, rows as int);
        }
        let mut occluded: Vec<bool> = Vec::new();
        let n = cols * rows;
        let mut i: usize = 0;
        while i < n
            invariant
                i <= n,
                occluded@.len() == i,
                forall|k: int| 0 <= k < i ==> !#[trigger] occluded@[k],
            decreases n - i,
        {
            occluded.push(false);
            i += 1;
        }
        Image { col, row, data: Arc::new(sixel), cols, rows, occluded }
    }

    /// Image width in pixels.
    pub fn width(&self) -> (w: usize)
        ensures
            w == self.spec_data().width,
    {
        self.data.width
    }

    /// Image height in pixels.
    pub fn height(&self) -> (h: usize)
        ensures
            h == self.spec_data().height,
    {
        self.data.height
    }

    /// The row-major pixel buffer.
    pub fn pixels(&self) -> (p: &[Rgba])
        ensures
            p@ == self.spec_data().pixels@,
    {
        self.data.pixels.as_slice()
    }

    /// The footprint width in cells, `0` when the cell size is unknown.
    pub fn cols(&self) -> (n: usize)
        ensures
            n == self.spec_cols(),
    {
        self.cols
    }

    /// The footprint height in cells, `0` when the cell size is unknown.
    pub fn rows(&self) -> (n: usize)
        ensures
            n == self.spec_rows(),
    {
        self.rows
    }

    /// Whether the footprint cell at (`dcol`, `drow`) from the anchor was
    /// drawn over; always `false` when the cell size is unknown.
    pub fn is_occluded(&self, dcol: usize, drow: usize) -> (b: bool)
        requires
            self.wf(),
        ensures
            b == self.spec_is_occluded(dcol as int, drow as int),
    {
        if dcol < self.cols && drow < self.rows {
            let n = self.occluded.len();
            proof {
                lemma_cell_index(dcol as int, drow as int, self.cols as int, self.rows as int);
            }
            self.occluded[drow * self.cols + dcol]
        } else {
            false
        }
    }

    /// Marks the footprint cell that holds the view position (`col`,
    /// `row`), which content was drawn on after the image was placed.
    pub fn occlude(&mut self, col: usize, row: usize)
        requires
            old(self).wf(),
        ensures
            final(self).wf(),
            final(self).spec_col() == old(self).spec_col(),
            final(self).spec_row() == old(self).spec_row(),
            final(self).spec_data() == old(self).spec_data(),
            final(self).spec_cols() == old(self).spec_cols(),
            final(self).spec_rows() == old(self).spec_rows(),
            final(self).spec_occluded() == if old(self).spec_col() <= col < old(self).spec_col() + old(self).spec_cols()
                && old(self).spec_row() <= row < old(self).spec_row() + old(self).spec_rows() {
                old(self).spec_occluded().update(
                    (row - old(self).spec_row()) * old(self).spec_cols() + (col - old(self).spec_col()),
                    true,
                )
            } else {
                old(self).spec_occluded()
            },
            old(self).occluded_at(final(self), col, row),
    {
        if self.cols == 0 || col < self.col || row < self.row || col - self.col >= self.cols || row - self.row >= self.rows {
            return;
        }
        let dcol = col - self.col;
        let drow = row - self.row;
        let n = self.occluded.len();
        proof {
            lemma_cell_index(dcol as int, drow as int, self.cols as int, self.rows as int);
        }
        self.occluded.set(drow * self.cols + dcol, true);
    }
}

/// The number of cells `n` pixels take in cells `size` pixels wide.
fn div_ceil(n: usize, size: usize) -> (c: usize)
    requires
        size > 0,
    ensures
        c == cells_for(n as int, size as int),
        c <= n,
{
    let q = n / size;
    proof {
        assert(n == size * q + n % size) by (nonlinear_arith)
            requires
                size > 0,
                q == n / size,
        ;
        assert(q <= n) by (nonlinear_arith)
            requires
                size > 0,
                q == n / size,
        ;
        assert(n % size != 0 ==> q < n) by (nonlinear_arith)
            requires
                size > 0,
                n == size * q + n % size,
                0 <= n % size,
        ;
        assert((n + size - 1) / (size as int) == if n % size == 0 { q as int } else { q + 1 }) by (nonlinear_arith)
            requires
                size > 0,
                n == size * q + n % size,
                0 <= n % size < size,
        ;
    }
    if n % size == 0 { q } else { q + 1 }
}

/// A footprint no larger than the image in pixels fits in `usize`.
proof fn lemma_footprint(w: int, h: int, cols: int, rows: int)
    requires
        0 <= cols <= w,
        0 <= rows <= h,
        w * h <= usize::MAX,
    ensures
        cols * rows <= usize::MAX,
{
    assert(cols * rows <= w * h) by (nonlinear_arith)
        requires
            0 <= cols <= w,
            0 <= rows <= h,
    ;
}

/// The cell (`dcol`, `drow`) of a footprint `cols` wide lies within it.
proof fn lemma_cell_index(dcol: int, drow: int, cols: int, rows: int)
    requires
        0 <= dcol < cols,
        0 <= drow < rows,
    ensures
        0 <= drow * cols + dcol < cols * rows,
{
    assert(drow * cols + dcol < cols * rows) by (nonlinear_arith)
        requires
            0 <= dcol < cols,
            0 <= drow < rows,
    ;
    assert(0 <= drow * cols) by (nonlinear_arith)
        requires
            0 <= drow,
            0 <= cols,
    ;
}

/// Whether `c` is a decimal digit.
pub open spec fn is_digit(c: char) -> bool {
    '0' <= c <= '9'
}

/// The number `acc` followed by the digit `d`, saturating at `usize::MAX`.
pub open spec fn push_digit(acc: usize, d: int) -> usize {
    let m: int = if acc > usize::MAX / 10 { usize::MAX as int } else { acc * 10 };
    if m + d > usize::MAX { usize::MAX } else { (m + d) as usize }
}

/// The number written by the digits of `chars` from `i` on, after the
/// number `acc`, and the index past those digits.
pub open spec fn number_at(chars: Seq<char>, i: int, acc: usize) -> (usize, int)
    decreases chars.len() - i,
{
    if 0 <= i < chars.len() && is_digit(chars[i]) {
        number_at(chars, i + 1, push_digit(acc, chars[i] as int - '0' as int))
    } else {
        (acc, i)
    }
}

/// The parameter after a `;` at `i` (`0` when there is none), and the
/// index past it.
pub open spec fn param_at(chars: Seq<char>, i: int) -> (usize, int) {
    if 0 <= i < chars.len() && chars[i] == ';' { number_at(chars, i + 1, 0) } else { (0, i) }
}

/// A percentage (at most 100) scaled to 0..=255, rounded.
pub open spec fn percent_level(v: usize) -> u8 {
    (((if v < 100 { v as int } else { 100 }) * 255 + 50) / 100) as u8
}

/// The color of the percentages `r`, `g`, `b`.
pub open spec fn percent_color(r: usize, g: usize, b: usize) -> Rgb {
    Rgb { r: percent_level(r), g: percent_level(g), b: percent_level(b) }
}

/// The percentages of the VT340's default color register `i`.
pub open spec fn vt340_percent(i: int) -> (usize, usize, usize) {
    if i == 0 { (0, 0, 0) }
    else if i == 1 { (20, 20, 80) }
    else if i == 2 { (80, 13, 13) }
    else if i == 3 { (20, 80, 20) }
    else if i == 4 { (80, 20, 80) }
    else if i == 5 { (20, 80, 80) }
    else if i == 6 { (80, 80, 20) }
    else if i == 7 { (53, 53, 53) }
    else if i == 8 { (26, 26, 26) }
    else if i == 9 { (33, 33, 60) }
    else if i == 10 { (60, 26, 26) }
    else if i == 11 { (33, 60, 33) }
    else if i == 12 { (60, 33, 60) }
    else if i == 13 { (33, 60, 60) }
    else if i == 14 { (60, 60, 33) }
    else { (80, 80, 80) }
}

/// The 256 color registers at the start: the VT340's 16 default colors,
/// the others black.
pub open spec fn initial_palette() -> Seq<Rgb> {
    Seq::new(256, |i: int| if i < 16 {
        percent_color(vt340_percent(i).0, vt340_percent(i).1, vt340_percent(i).2)
    } else {
        Rgb { r: 0, g: 0, b: 0 }
    })
}

/// The color registers a decoder starts with are the VT340's defaults:
/// black, blue, red, green, magenta, cyan, yellow, gray 50%, gray 25%,
/// then the less saturated blue, red, green, magenta, cyan, yellow, and
/// gray 75% (DEC's percentages scaled to 0..=255); all other registers are
/// black.
pub proof fn lemma_vt340_palette()
    ensures
        initial_palette().len() == 256,
        initial_palette()[0] == (Rgb { r: 0, g: 0, b: 0 }),
        initial_palette()[1] == (Rgb { r: 51, g: 51, b: 204 }),
        initial_palette()[2] == (Rgb { r: 204, g: 33, b: 33 }),
        initial_palette()[3] == (Rgb { r: 51, g: 204, b: 51 }),
        initial_palette()[4] == (Rgb { r: 204, g: 51, b: 204 }),
        initial_palette()[5] == (Rgb { r: 51, g: 204, b: 204 }),
        initial_palette()[6] == (Rgb { r: 204, g: 204, b: 51 }),
        initial_palette()[7] == (Rgb { r: 135, g: 135, b: 135 }),
        initial_palette()[8] == (Rgb { r: 66, g: 66, b: 66 }),
        initial_palette()[9] == (Rgb { r: 84, g: 84, b: 153 }),
        initial_palette()[10] == (Rgb { r: 153, g: 66, b: 66 }),
        initial_palette()[11] == (Rgb { r: 84, g: 153, b: 84 }),
        initial_palette()[12] == (Rgb { r: 153, g: 84, b: 153 }),
        initial_palette()[13] == (Rgb { r: 84, g: 153, b: 153 }),
        initial_palette()[14] == (Rgb { r: 153, g: 153, b: 84 }),
        initial_palette()[15] == (Rgb { r: 204, g: 204, b: 204 }),
        forall|i: int| 16 <= i < 256 ==> #[trigger] initial_palette()[i] == (Rgb { r: 0, g: 0, b: 0 }),
{
    assert(initial_palette()[0] == percent_color(vt340_percent(0).0, vt340_percent(0).1, vt340_percent(0).2));
    assert(initial_palette()[1] == percent_color(vt340_percent(1).0, vt340_percent(1).1, vt340_percent(1).2));
    assert(initial_palette()[2] == percent_color(vt340_percent(2).0, vt340_percent(2).1, vt340_percent(2).2));
    assert(initial_palette()[3] == percent_color(vt340_percent(3).0, vt340_percent(3).1, vt340_percent(3).2));
    assert(initial_palette()[4] == percent_color(vt340_percent(4).0, vt340_percent(4).1, vt340_percent(4).2));
    assert(initial_palette()[5] == percent_color(vt340_percent(5).0, vt340_percent(5).1, vt340_percent(5).2));
    assert(initial_palette()[6] == percent_color(vt340_percent(6).0, vt340_percent(6).1, vt340_percent(6).2));
    assert(initial_palette()[7] == percent_color(vt340_percent(7).0, vt340_percent(7).1, vt340_percent(7).2));
    assert(initial_palette()[8] == percent_color(vt340_percent(8).0, vt340_percent(8).1, vt340_percent(8).2));
    assert(initial_palette()[9] == percent_color(vt340_percent(9).0, vt340_percent(9).1, vt340_percent(9).2));
    assert(initial_palette()[10] == percent_color(vt340_percent(10).0, vt340_percent(10).1, vt340_percent(10).2));
    assert(initial_palette()[11] == percent_color(vt340_percent(11).0, vt340_percent(11).1, vt340_percent(11).2));
    assert(initial_palette()[12] == percent_color(vt340_percent(12).0, vt340_percent(12).1, vt340_percent(12).2));
    assert(initial_palette()[13] == percent_color(vt340_percent(13).0, vt340_percent(13).1, vt340_percent(13).2));
    assert(initial_palette()[14] == percent_color(vt340_percent(14).0, vt340_percent(14).1, vt340_percent(14).2));
    assert(initial_palette()[15] == percent_color(vt340_percent(15).0, vt340_percent(15).1, vt340_percent(15).2));
}

/// The state of a decoder: the color registers, the current color, the
/// column and the top row of the band of the next sixel, the pixels drawn
/// (by column and row), the extent drawn, and the declared raster size.
pub struct DecoderModel {
    pub palette: Seq<Rgb>,
    pub color: Rgb,
    pub x: nat,
    pub band: nat,
    pub canvas: Map<(int, int), Rgba>,
    pub max_width: nat,
    pub max_height: nat,
    pub declared_width: nat,
    pub declared_height: nat,
}

/// The state before any data.
pub open spec fn initial_model() -> DecoderModel {
    DecoderModel {
        palette: initial_palette(),
        color: initial_palette()[0],
        x: 0,
        band: 0,
        canvas: Map::empty(),
        max_width: 0,
        max_height: 0,
        declared_width: 0,
        declared_height: 0,
    }
}

/// Whether bit `bit` of the sixel `value` is set.
pub open spec fn bit_set(value: u8, bit: u8) -> bool {
    value & (1u8 << bit) != 0
}

/// The pixels drawn from bit `bit` on of the sixel `value`, at column `x`
/// of the band whose top row is `band`, in the pixel `px`.
pub open spec fn paint_bits(canvas: Map<(int, int), Rgba>, x: int, band: int, value: u8, bit: nat, px: Rgba) -> Map<(int, int), Rgba>
    decreases 6 - bit,
{
    if bit >= 6 {
        canvas
    } else {
        paint_bits(
            if bit_set(value, bit as u8) { canvas.insert((x, band + bit), px) } else { canvas },
            x, band, value, bit + 1, px,
        )
    }
}

/// `count` columns painted from the sixel `value`, from the current column
/// on, each moving the column and the extent one to the right.
pub open spec fn put_columns(m: DecoderModel, value: u8, count: nat) -> DecoderModel
    decreases count,
{
    if count == 0 {
        m
    } else {
        let canvas = paint_bits(m.canvas, m.x as int, m.band as int, value, 0, opaque(m.color));
        let x = m.x + 1;
        put_columns(DecoderModel {
            canvas,
            x,
            max_width: if m.max_width < x { x } else { m.max_width },
            ..m
        }, value, (count - 1) as nat)
    }
}

/// The sixel `value` painted `count` times; the band counts as drawn down
/// to its last row.
pub open spec fn put_model(m: DecoderModel, value: u8, count: nat) -> DecoderModel {
    let p = put_columns(m, value, count);
    DecoderModel { max_height: if p.max_height < m.band + 6 { m.band + 6 } else { p.max_height }, ..p }
}

/// A color command from `start` (after the `#`): `Pc` selects a register;
/// `Pc;Pu;Px;Py;Pz` defines it in HLS (`Pu` 1, through `hls`) or in RGB
/// percentages and selects it. With the index past it.
pub open spec fn color_cmd(chars: Seq<char>, start: int, m: DecoderModel, hls: spec_fn(usize, usize, usize) -> Rgb) -> (DecoderModel, int) {
    let (pc, i) = number_at(chars, start, 0);
    if !(0 <= i < chars.len() && chars[i] == ';') {
        (DecoderModel { color: if pc < m.palette.len() { m.palette[pc as int] } else { m.palette[0] }, ..m }, i)
    } else {
        let (pu, i1) = number_at(chars, i + 1, 0);
        let (px, i2) = param_at(chars, i1);
        let (py, i3) = param_at(chars, i2);
        let (pz, i4) = param_at(chars, i3);
        let color = if pu == 1 { hls(px, py, pz) } else { percent_color(px, py, pz) };
        (DecoderModel {
            palette: if pc < m.palette.len() { m.palette.update(pc as int, color) } else { m.palette },
            color,
            ..m
        }, i4)
    }
}

/// A raster command from `start` (after the `"`): `Pan;Pad;Ph;Pv`, of which
/// the width `Ph` and height `Pv` raise the declared size.
pub open spec fn raster_cmd(chars: Seq<char>, start: int, m: DecoderModel) -> (DecoderModel, int) {
    let (pan, i1) = number_at(chars, start, 0);
    let (pad, i2) = param_at(chars, i1);
    let (ph, i3) = param_at(chars, i2);
    let (pv, i4) = param_at(chars, i3);
    (DecoderModel {
        declared_width: if m.declared_width < ph { ph as nat } else { m.declared_width },
        declared_height: if m.declared_height < pv { pv as nat } else { m.declared_height },
        ..m
    }, i4)
}

/// Whether `c` is a sixel data character.
pub open spec fn is_sixel(c: char) -> bool {
    '?' <= c <= '~'
}

/// The six bits of the sixel character `c`.
pub open spec fn sixel_value(c: char) -> u8 {
    (c as int - 0x3f) as u8
}

/// A repeat command from `start` (after the `!`): `Pn` and a sixel
/// character painted `Pn` times (at least once).
pub open spec fn repeat_cmd(chars: Seq<char>, start: int, m: DecoderModel) -> (DecoderModel, int) {
    let (count, i) = number_at(chars, start, 0);
    if 0 <= i < chars.len() && is_sixel(chars[i]) {
        (put_model(m, sixel_value(chars[i]), if count < 1 { 1 } else { count as nat }), i + 1)
    } else {
        (m, i)
    }
}

/// The command at `i`, with the index past it.
pub open spec fn step(chars: Seq<char>, i: int, m: DecoderModel, hls: spec_fn(usize, usize, usize) -> Rgb) -> (DecoderModel, int) {
    let c = chars[i];
    if c == '#' {
        color_cmd(chars, i + 1, m, hls)
    } else if c == '"' {
        raster_cmd(chars, i + 1, m)
    } else if c == '!' {
        repeat_cmd(chars, i + 1, m)
    } else if c == '$' {
        (DecoderModel { x: 0, ..m }, i + 1)
    } else if c == '-' {
        (DecoderModel { x: 0, band: m.band + 6, ..m }, i + 1)
    } else if is_sixel(c) {
        (put_model(m, sixel_value(c), 1), i + 1)
    } else {
        (m, i + 1)
    }
}

/// The state after the commands of `chars` from `i` on.
pub open spec fn run_from(chars: Seq<char>, i: int, m: DecoderModel, hls: spec_fn(usize, usize, usize) -> Rgb) -> DecoderModel
    decreases chars.len() - i,
{
    if 0 <= i < chars.len() {
        let (n, j) = step(chars, i, m, hls);
        if i < j <= chars.len() { run_from(chars, j, n, hls) } else { m }
    } else {
        m
    }
}

/// The pixel drawn at (`x`, `y`), if any.
pub open spec fn pixel_at(canvas: Map<(int, int), Rgba>, x: int, y: int) -> Rgba {
    if canvas.dom().contains((x, y)) { canvas[(x, y)] } else { transparent() }
}

/// The image of a state: its size is the extent drawn or the declared
/// size, whichever is larger; none when it is empty or has more than
/// `MAX_PIXELS` pixels.
pub open spec fn image_of(m: DecoderModel) -> Option<(usize, usize, Seq<Rgba>)> {
    let w = if m.max_width < m.declared_width { m.declared_width } else { m.max_width };
    let h = if m.max_height < m.declared_height { m.declared_height } else { m.max_height };
    if w == 0 || h == 0 || w * h > MAX_PIXELS {
        None
    } else {
        Some((w as usize, h as usize, Seq::new(w * h, |k: int| pixel_at(m.canvas, k % (w as int), k / (w as int)))))
    }
}

/// The image the sixel data `chars` decodes to, with HLS colors converted
/// by `hls`: its width, height and pixels, row by row.
pub open spec fn decoded(chars: Seq<char>, hls: spec_fn(usize, usize, usize) -> Rgb) -> Option<(usize, usize, Seq<Rgba>)> {
    image_of(run_from(chars, 0, initial_model(), hls))
}

/// `f` returns what `hls` says of its arguments.
pub open spec fn computes<F: Fn(usize, usize, usize) -> Rgb>(f: F, hls: spec_fn(usize, usize, usize) -> Rgb) -> bool {
    forall|h: usize, l: usize, s: usize, c: Rgb| #[trigger] f.ensures((h, l, s), c) ==> c == hls(h, l, s)
}

/// A state whose drawn extent alone has more than `MAX_PIXELS` pixels:
/// its image, and that of every state after it, is refused.
pub open spec fn poisoned(m: DecoderModel) -> bool {
    m.max_width * m.max_height > MAX_PIXELS
}

/// Parses the digits at `start` as a decimal number (`0` when there are
/// none), saturating at `usize::MAX`; returns it and the index past them.
fn parse_number(chars: &[char], start: usize) -> (r: (usize, usize))
    ensures
        (r.0, r.1 as int) == number_at(chars@, start as int, 0),
        start <= r.1,
        start <= chars@.len() ==> r.1 <= chars@.len(),
        start >= chars@.len() ==> r == (0usize, start),
{
    let mut value: usize = 0;
    let mut i = start;
    while i < chars.len() && '0' <= chars[i] && chars[i] <= '9'
        invariant
            start <= i,
            i <= chars@.len() || (i == start && value == 0),
            number_at(chars@, start as int, 0) == number_at(chars@, i as int, value),
        decreases chars@.len() - i,
    {
        let d = chars[i] as u32 - 48;
        let m: usize = if value > usize::MAX / 10 { usize::MAX } else { value * 10 };
        value = m.saturating_add(d as usize);
        i += 1;
    }
    (value, i)
}

/// Parses a parameter after a `;` at `i` (`0` when there is none); returns
/// it and the index past it.
fn parse_param(chars: &[char], i: usize) -> (r: (usize, usize))
    requires
        i <= chars@.len(),
    ensures
        (r.0, r.1 as int) == param_at(chars@, i as int),
        i <= r.1 <= chars@.len(),
{
    if i < chars.len() && chars[i] == ';' {
        parse_number(chars, i + 1)
    } else {
        (0, i)
    }
}

/// A percentage (at most 100) scaled to 0..=255, rounded.
fn percent_to_u8(v: usize) -> (n: u8)
    ensures
        n == percent_level(v),
{
    let p: usize = if v < 100 { v } else { 100 };
    ((p * 255 + 50) / 100) as u8
}

/// The color of the percentages `r`, `g`, `b`.
fn rgb_from_percent(r: usize, g: usize, b: usize) -> (c: Rgb)
    ensures
        c == percent_color(r, g, b),
{
    Rgb { r: percent_to_u8(r), g: percent_to_u8(g), b: percent_to_u8(b) }
}

/// The percentages of the VT340's default color register `i`.
fn vt340_default(i: usize) -> (c: (usize, usize, usize))
    requires
        i < 16,
    ensures
        c == vt340_percent(i as int),
{
    match i {
        0 => (0, 0, 0),
        1 => (20, 20, 80),
        2 => (80, 13, 13),
        3 => (20, 80, 20),
        4 => (80, 20, 80),
        5 => (20, 80, 80),
        6 => (80, 80, 20),
        7 => (53, 53, 53),
        8 => (26, 26, 26),
        9 => (33, 33, 60),
        10 => (60, 26, 26),
        11 => (33, 60, 33),
        12 => (60, 33, 60),
        13 => (33, 60, 60),
        14 => (60, 60, 33),
        _ => (80, 80, 80),
    }

}

/// The VT340 default 16-color palette, with the remaining registers black.
fn default_palette() -> (p: Vec<Rgb>)
    ensures
        p@ == initial_palette(),
{
    let mut palette: Vec<Rgb> = Vec::new();
    let mut i: usize = 0;
    while i < 256
        invariant
            i <= 256,
            palette@.len() == i,
            forall|k: int| 0 <= k < i ==> #[trigger] palette@[k] == initial_palette()[k],
        decreases 256 - i,
    {
        if i < 16 {
            let (r, g, b) = vt340_default(i);
            palette.push(rgb_from_percent(r, g, b));
        } else {
            palette.push(Rgb { r: 0, g: 0, b: 0 });
        }
        i += 1;
    }
    assert(palette@ =~= initial_palette());
    palette
}

/// A sixel decoder: the color registers, the current color, the position
/// of the next sixel, the pixels drawn (row by row, each row as long as its
/// last pixel drawn), the extent drawn and the declared size.
struct Decoder {
    palette: Vec<Rgb>,
    color: Rgb,
    x: usize,
    band: usize,
    rows: Vec<Vec<Rgba>>,
    max_width: usize,
    max_height: usize,
    declared_width: usize,
    declared_height: usize,
    canvas: Ghost<Map<(int, int), Rgba>>,
}

impl Decoder {
    spec fn model(&self) -> DecoderModel {
        DecoderModel {
            palette: self.palette@,
            color: self.color,
            x: self.x as nat,
            band: self.band as nat,
            canvas: self.canvas@,
            max_width: self.max_width as nat,
            max_height: self.max_height as nat,
            declared_width: self.declared_width as nat,
            declared_height: self.declared_height as nat,
        }
    }

    /// The rows hold exactly the pixels drawn, transparent elsewhere.
    spec fn wf(&self) -> bool {
        &&& self.palette@.len() == 256
        &&& forall|y: int, x: int| 0 <= y < self.rows@.len() && 0 <= x < self.rows@[y]@.len()
            ==> #[trigger] self.rows@[y]@[x] == pixel_at(self.canvas@, x, y)
        &&& forall|p: (int, int)| #[trigger] self.canvas@.dom().contains(p)
            ==> 0 <= p.1 < self.rows@.len() && 0 <= p.0 < self.rows@[p.1]@.len()
    }

    fn new() -> (d: Self)
        ensures
            d.wf(),
            d.model() == initial_model(),
    {
        let palette = default_palette();
        let color = palette[0];
        Decoder {
            palette,
            color,
            x: 0,
            band: 0,
            rows: Vec::new(),
            max_width: 0,
            max_height: 0,
            declared_width: 0,
            declared_height: 0,
            canvas: Ghost(Map::empty()),
        }
    }

    /// Draws the pixel (`x`, `y`) in the current color.
    fn plot(&mut self, x: usize, y: usize)
        requires
            old(self).wf(),
            x < usize::MAX,
            y < usize::MAX,
        ensures
            final(self).wf(),
            final(self).model() == (DecoderModel {
                canvas: old(self).model().canvas.insert((x as int, y as int), opaque(old(self).color)),
                ..old(self).model()
            }),
    {
        while self.rows.len() <= y
            invariant
                self.wf(),
                self.model() == old(self).model(),
                self.color == old(self).color,
                y < usize::MAX,
            decreases y + 1 - self.rows@.len(),
        {
            let ghost r0 = self.rows@;
            self.rows.push(Vec::new());
            assert forall|p: (int, int)| #[trigger] self.canvas@.dom().contains(p)
                implies 0 <= p.1 < self.rows@.len() && 0 <= p.0 < self.rows@[p.1]@.len() by {
                assert(self.rows@[p.1] == r0[p.1]);
            }
            assert forall|yy: int, xx: int| 0 <= yy < self.rows@.len() && 0 <= xx < self.rows@[yy]@.len()
                implies #[trigger] self.rows@[yy]@[xx] == pixel_at(self.canvas@, xx, yy) by {
                assert(yy < r0.len());
                assert(self.rows@[yy] == r0[yy]);
            }
        }
        let px = Rgba { r: self.color.r, g: self.color.g, b: self.color.b, a: 255 };
        let ghost r0 = self.rows@;
        let ghost c0 = self.canvas@;
        let ghost old_row = self.rows@[y as int]@;
        let row = &mut self.rows[y];
        if row.len() <= x {
            row.resize(x + 1, Rgba { r: 0, g: 0, b: 0, a: 0 });
        }
        row.set(x, px);
        self.canvas = Ghost(c0.insert((x as int, y as int), px));
        proof {
            assert(self.rows@ == r0.update(y as int, self.rows@[y as int]));
            assert forall|p: (int, int)| #[trigger] self.canvas@.dom().contains(p)
                implies 0 <= p.1 < self.rows@.len() && 0 <= p.0 < self.rows@[p.1]@.len() by {
                if p != (x as int, y as int) {
                    assert(c0.dom().contains(p));
                }
            }
            assert forall|yy: int, xx: int| 0 <= yy < self.rows@.len() && 0 <= xx < self.rows@[yy]@.len()
                implies #[trigger] self.rows@[yy]@[xx] == pixel_at(self.canvas@, xx, yy) by {
                if yy != y {
                    assert(self.rows@[yy] == r0[yy]);
                    assert(r0[yy]@[xx] == pixel_at(c0, xx, yy));
                } else if xx == x {
                } else if xx < old_row.len() {
                    assert(r0[yy]@[xx] == pixel_at(c0, xx, yy));
                } else {
                    assert(!c0.dom().contains((xx, yy)));
                }
            }
        }
    }

    /// Paints `count` columns from the sixel `value`, from the current
    /// column on. Once the extent is past what an image may hold, no more
    /// pixels are drawn: the image will be refused anyway.
    fn put_sixel(&mut self, value: u8, count: usize)
        requires
            old(self).wf(),
            old(self).band + 6 <= usize::MAX,
        ensures
            final(self).wf(),
            final(self).palette@ == old(self).palette@,
            final(self).band == old(self).band,
            final(self).model() == put_model(old(self).model(), value, count as nat)
                || (poisoned(final(self).model()) && poisoned(put_model(old(self).model(), value, count as nat))),
    {
        let ghost m0 = self.model();
        let mut k: usize = 0;
        let mut skipped = false;
        while k < count && !skipped
            invariant
                self.wf(),
                k <= count,
                self.palette@ == old(self).palette@,
                self.band == old(self).band,
                old(self).band + 6 <= usize::MAX,
                m0 == old(self).model(),
                !skipped ==> self.model() == put_columns(m0, value, k as nat),
                skipped ==> self.max_width * (self.band + 6) > MAX_PIXELS,
                skipped ==> put_columns(m0, value, count as nat).max_width * (m0.band + 6) > MAX_PIXELS,
                self.max_height == m0.max_height,
            decreases count - k + if skipped { 0int } else { 1int },
        {
            if self.x >= MAX_PIXELS || self.band >= MAX_PIXELS {
                proof {
                    lemma_put_columns_split(m0, value, k as nat, count as nat);
                    lemma_put_columns(put_columns(m0, value, k as nat), value, (count - k) as nat);
                    lemma_poisoned_extent(self.x as int, self.band as int, put_columns(m0, value, count as nat).max_width as int);
                }
                let ghost xk = self.x;
                self.x = self.x.saturating_add(count - k);
                if self.max_width < self.x {
                    self.max_width = self.x;
                }
                proof {
                    lemma_poisoned_extent(xk as int, self.band as int, self.max_width as int);
                }
                skipped = true;
            } else {
                let ghost mk = self.model();
                let px = Rgba { r: self.color.r, g: self.color.g, b: self.color.b, a: 255 };
                let mut bit: u8 = 0;
                while bit < 6
                    invariant
                        self.wf(),
                        bit <= 6,
                        self.x < MAX_PIXELS,
                        self.band < MAX_PIXELS,
                        px == opaque(mk.color),
                        self.model() == (DecoderModel { canvas: self.canvas@, ..mk }),
                        paint_bits(mk.canvas, mk.x as int, mk.band as int, value, 0, px)
                            == paint_bits(self.canvas@, mk.x as int, mk.band as int, value, bit as nat, px),
                    decreases 6 - bit,
                {
                    if value & (1u8 << bit) != 0 {
                        self.plot(self.x, self.band + bit as usize);
                    }
                    bit += 1;
                }
                self.x = self.x + 1;
                if self.max_width < self.x {
                    self.max_width = self.x;
                }
                proof {
                    lemma_put_columns_step(m0, value, k as nat);
                    let canvas = paint_bits(mk.canvas, mk.x as int, mk.band as int, value, 0, opaque(mk.color));
                    let x = mk.x + 1;
                    let next = DecoderModel { canvas, x, max_width: if mk.max_width < x { x } else { mk.max_width }, ..mk };
                    assert(put_columns(next, value, 0) == next);
                    assert(put_columns(mk, value, 1) == put_columns(next, value, 0));
                    assert(self.model() == next);
                }
                k += 1;
            }
        }
        if self.max_height < self.band + 6 {
            self.max_height = self.band + 6;
        }
        proof {
            lemma_put_columns(m0, value, count as nat);
            if skipped {
                lemma_poisoned_height(self.max_width as int, self.band as int + 6, self.max_height as int);
                lemma_poisoned_height(put_columns(m0, value, count as nat).max_width as int, m0.band as int + 6,
                    put_model(m0, value, count as nat).max_height as int);
            }
        }
    }

    /// Handles a color command from `start` (after the `#`); returns the
    /// index past it.
    fn handle_color<F: Fn(usize, usize, usize) -> Rgb>(&mut self, chars: &[char], start: usize, hls: &F) -> (next: usize)
        requires
            old(self).wf(),
            start <= chars@.len(),
            forall|h: usize, l: usize, s: usize| hls.requires((h, l, s)),
        ensures
            final(self).wf(),
            final(self).band == old(self).band,
            start <= next <= chars@.len(),
            forall|conv: spec_fn(usize, usize, usize) -> Rgb| #[trigger] computes(*hls, conv)
                ==> (final(self).model(), next as int) == color_cmd(chars@, start as int, old(self).model(), conv),
    {
        let (pc, i) = parse_number(chars, start);
        if !(i < chars.len() && chars[i] == ';') {
            self.color = if pc < self.palette.len() { self.palette[pc] } else { self.palette[0] };
            return i;
        }
        let (pu, i1) = parse_number(chars, i + 1);
        let (px, i2) = parse_param(chars, i1);
        let (py, i3) = parse_param(chars, i2);
        let (pz, i4) = parse_param(chars, i3);
        let color = if pu == 1 { hls(px, py, pz) } else { rgb_from_percent(px, py, pz) };
        if pc < self.palette.len() {
            self.palette.set(pc, color);
        }
        self.color = color;
        proof {
            assert forall|conv: spec_fn(usize, usize, usize) -> Rgb| #[trigger] computes(*hls, conv)
                implies (self.model(), i4 as int) == color_cmd(chars@, start as int, old(self).model(), conv) by {
                if pu == 1 {
                    assert(hls.ensures((px, py, pz), color));
                }
            }
        }
        i4
    }

    /// Handles a raster command from `start` (after the `"`); returns the
    /// index past it.
    fn handle_raster(&mut self, chars: &[char], start: usize) -> (next: usize)
        requires
            old(self).wf(),
            start <= chars@.len(),
        ensures
            final(self).wf(),
            final(self).band == old(self).band,
            start <= next <= chars@.len(),
            (final(self).model(), next as int) == raster_cmd(chars@, start as int, old(self).model()),
    {
        let (_pan, i1) = parse_number(chars, start);
        let (_pad, i2) = parse_param(chars, i1);
        let (ph, i3) = parse_param(chars, i2);
        let (pv, i4) = parse_param(chars, i3);
        if self.declared_width < ph {
            self.declared_width = ph;
        }
        if self.declared_height < pv {
            self.declared_height = pv;
        }
        i4
    }

    /// Handles a repeat command from `start` (after the `!`); returns the
    /// index past it.
    fn handle_repeat(&mut self, chars: &[char], start: usize) -> (next: usize)
        requires
            old(self).wf(),
            start <= chars@.len(),
            old(self).band + 6 <= usize::MAX,
        ensures
            final(self).wf(),
            final(self).band == old(self).band,
            start <= next <= chars@.len(),
            next == repeat_cmd(chars@, start as int, old(self).model()).1,
            final(self).model() == repeat_cmd(chars@, start as int, old(self).model()).0
                || (poisoned(final(self).model()) && poisoned(repeat_cmd(chars@, start as int, old(self).model()).0)),
    {
        let (count, i) = parse_number(chars, start);
        if i < chars.len() && '?' <= chars[i] && chars[i] <= '~' {
            let value = (chars[i] as u32 - 63) as u8;
            self.put_sixel(value, if count < 1 { 1 } else { count });
            i + 1
        } else {
            i
        }
    }

    /// Reads the sixel data `chars`, with HLS colors converted by `hls`.
    fn run<F: Fn(usize, usize, usize) -> Rgb>(&mut self, chars: &[char], hls: &F)
        requires
            old(self).wf(),
            old(self).model() == initial_model(),
            chars@.len() < usize::MAX / 8,
            forall|h: usize, l: usize, s: usize| hls.requires((h, l, s)),
        ensures
            final(self).wf(),
            forall|conv: spec_fn(usize, usize, usize) -> Rgb| #[trigger] computes(*hls, conv)
                ==> image_of(final(self).model()) == decoded(chars@, conv),
    {
        let mut i: usize = 0;
        while i < chars.len()
            invariant
                self.wf(),
                i <= chars@.len(),
                chars@.len() < usize::MAX / 8,
                self.band <= 6 * i,
                forall|h: usize, l: usize, s: usize| hls.requires((h, l, s)),
                forall|conv: spec_fn(usize, usize, usize) -> Rgb| #[trigger] computes(*hls, conv)
                    ==> decoded(chars@, conv) == image_of(run_from(chars@, i as int, self.model(), conv)),
            decreases chars@.len() - i,
        {
            let c = chars[i];
            let ghost m = self.model();
            let next = if c == '#' {
                self.handle_color(chars, i + 1, hls)
            } else if c == '"' {
                self.handle_raster(chars, i + 1)
            } else if c == '!' {
                self.handle_repeat(chars, i + 1)
            } else if c == '$' {
                self.x = 0;
                i + 1
            } else if c == '-' {
                self.x = 0;
                self.band = self.band + 6;
                i + 1
            } else if '?' <= c && c <= '~' {
                self.put_sixel((c as u32 - 63) as u8, 1);
                i + 1
            } else {
                i + 1
            };
            proof {
                assert forall|conv: spec_fn(usize, usize, usize) -> Rgb| #[trigger] computes(*hls, conv)
                    implies decoded(chars@, conv) == image_of(run_from(chars@, next as int, self.model(), conv)) by {
                    let (n, j) = step(chars@, i as int, m, conv);
                    assert(j == next);
                    assert(run_from(chars@, i as int, m, conv) == run_from(chars@, j, n, conv));
                    if self.model() != n {
                        lemma_poisoned_run(chars@, j, self.model(), conv);
                        lemma_poisoned_run(chars@, j, n, conv);
                    }
                }
            }
            i = next;
        }
    }

    /// The image drawn: none when it is empty or too large.
    fn into_sixel(self) -> (r: Option<Sixel>)
        requires
            self.wf(),
        ensures
            match image_of(self.model()) {
                None => r is None,
                Some((w, h, px)) => r matches Some(s) && s.width == w && s.height == h && s.pixels@ == px,
            },
    {
        let width = if self.max_width < self.declared_width { self.declared_width } else { self.max_width };
        let height = if self.max_height < self.declared_height { self.declared_height } else { self.max_height };
        if width == 0 || height == 0 {
            return None;
        }
        if width > MAX_PIXELS / height {
            proof {
                assert(width * height > MAX_PIXELS) by (nonlinear_arith)
                    requires
                        width > MAX_PIXELS / height,
                        height > 0,
                ;
            }
            return None;
        }
        proof {
            assert(width * height <= MAX_PIXELS) by (nonlinear_arith)
                requires
                    width <= MAX_PIXELS / height,
                    height > 0,
            ;
        }
        let area = width * height;
        let mut pixels: Vec<Rgba> = Vec::new();
        let mut k: usize = 0;
        while k < area
            invariant
                self.wf(),
                k <= area,
                width > 0,
                pixels@.len() == k,
                forall|j: int| 0 <= j < k ==> #[trigger] pixels@[j] == pixel_at(self.canvas@, j % (width as int), j / (width as int)),
            decreases area - k,
        {
            let y = k / width;
            let x = k % width;
            let px = if y < self.rows.len() && x < self.rows[y].len() {
                self.rows[y][x]
            } else {
                proof {
                    assert(!self.canvas@.dom().contains((x as int, y as int)));
                }
                Rgba { r: 0, g: 0, b: 0, a: 0 }
            };
            pixels.push(px);
            k += 1;
        }
        let ghost img = image_of(self.model());
        proof {
            assert(pixels@ =~= img.unwrap().2);
        }
        Some(Sixel { width, height, pixels })
    }
}
/// Painting columns moves the column by their number, widens the extent
/// to it, and leaves the rest of the state but the pixels as it was.
proof fn lemma_put_columns(m: DecoderModel, value: u8, count: nat)
    ensures
        put_columns(m, value, count).x == m.x + count,
        put_columns(m, value, count).band == m.band,
        put_columns(m, value, count).palette == m.palette,
        put_columns(m, value, count).color == m.color,
        put_columns(m, value, count).max_height == m.max_height,
        put_columns(m, value, count).declared_width == m.declared_width,
        put_columns(m, value, count).declared_height == m.declared_height,
        put_columns(m, value, count).max_width >= m.max_width,
        count > 0 ==> put_columns(m, value, count).max_width >= m.x + count,
    decreases count,
{
    if count > 0 {
        let canvas = paint_bits(m.canvas, m.x as int, m.band as int, value, 0, opaque(m.color));
        let x = m.x + 1;
        let m1 = DecoderModel { canvas, x, max_width: if m.max_width < x { x } else { m.max_width }, ..m };
        lemma_put_columns(m1, value, (count - 1) as nat);
    }
}

/// Painting `c` columns is painting `k` of them, then the rest.
proof fn lemma_put_columns_split(m: DecoderModel, value: u8, k: nat, c: nat)
    requires
        k <= c,
    ensures
        put_columns(m, value, c) == put_columns(put_columns(m, value, k), value, (c - k) as nat),
    decreases k,
{
    if k > 0 {
        let canvas = paint_bits(m.canvas, m.x as int, m.band as int, value, 0, opaque(m.color));
        let x = m.x + 1;
        let m1 = DecoderModel { canvas, x, max_width: if m.max_width < x { x } else { m.max_width }, ..m };
        lemma_put_columns_split(m1, value, (k - 1) as nat, (c - 1) as nat);
    }
}

/// Painting `k + 1` columns is painting `k`, then one more.
proof fn lemma_put_columns_step(m: DecoderModel, value: u8, k: nat)
    ensures
        put_columns(m, value, k + 1) == put_columns(put_columns(m, value, k), value, 1),
{
    lemma_put_columns_split(m, value, k, k + 1);
}

/// A column at or past `MAX_PIXELS`, or a band that low, makes the extent
/// too large for an image.
proof fn lemma_poisoned_extent(x: int, band: int, width: int)
    requires
        x >= MAX_PIXELS || band >= MAX_PIXELS,
        0 <= x,
        0 <= band,
        width >= x,
        width >= 1,
    ensures
        width * (band + 6) > MAX_PIXELS,
{
    assert(width * (band + 6) > MAX_PIXELS) by (nonlinear_arith)
        requires
            x >= MAX_PIXELS || band >= MAX_PIXELS,
            0 <= x,
            0 <= band,
            width >= x,
            width >= 1,
    ;
}

/// An extent too large stays so when it grows taller.
proof fn lemma_poisoned_height(width: int, h: int, height: int)
    requires
        width * h > MAX_PIXELS,
        0 <= h <= height,
        0 <= width,
    ensures
        width * height > MAX_PIXELS,
{
    assert(width * height >= width * h) by (nonlinear_arith)
        requires
            0 <= h <= height,
            0 <= width,
    ;
}

/// A command never narrows the extent drawn.
proof fn lemma_step_grows(chars: Seq<char>, i: int, m: DecoderModel, hls: spec_fn(usize, usize, usize) -> Rgb)
    requires
        0 <= i < chars.len(),
    ensures
        step(chars, i, m, hls).0.max_width >= m.max_width,
        step(chars, i, m, hls).0.max_height >= m.max_height,
{
    let c = chars[i];
    if c == '!' {
        let (count, k) = number_at(chars, i + 1, 0);
        if 0 <= k < chars.len() && is_sixel(chars[k]) {
            lemma_put_columns(m, sixel_value(chars[k]), if count < 1 { 1 } else { count as nat });
        }
    } else if is_sixel(c) && c != '#' && c != '"' && c != '$' && c != '-' {
        lemma_put_columns(m, sixel_value(c), 1);
    }
}

/// The image of a state whose extent is too large is refused.
proof fn lemma_poisoned_image(m: DecoderModel)
    requires
        poisoned(m),
    ensures
        image_of(m) is None,
{
    let w = if m.max_width < m.declared_width { m.declared_width } else { m.max_width };
    let h = if m.max_height < m.declared_height { m.declared_height } else { m.max_height };
    assert(w * h >= m.max_width * m.max_height) by (nonlinear_arith)
        requires
            w >= m.max_width,
            h >= m.max_height,
    ;
}

/// Once the extent is too large, the image in the end is refused.
proof fn lemma_poisoned_run(chars: Seq<char>, i: int, m: DecoderModel, hls: spec_fn(usize, usize, usize) -> Rgb)
    requires
        poisoned(m),
    ensures
        image_of(run_from(chars, i, m, hls)) is None,
    decreases chars.len() - i,
{
    if 0 <= i < chars.len() {
        let (n, j) = step(chars, i, m, hls);
        if i < j <= chars.len() {
            lemma_step_grows(chars, i, m, hls);
            assert(n.max_width * n.max_height >= m.max_width * m.max_height) by (nonlinear_arith)
                requires
                    n.max_width >= m.max_width,
                    n.max_height >= m.max_height,
            ;
            lemma_poisoned_run(chars, j, n, hls);
        } else {
            lemma_poisoned_image(m);
        }
    } else {
        lemma_poisoned_image(m);
    }
}

/// Decodes the sixel data `data` (what follows the `q` of a sixel device
/// control string, without the string terminator), converting the colors
/// defined in HLS with `hls`. Returns no image when it is empty or has
/// more than `MAX_PIXELS` pixels.
pub fn decode<F: Fn(usize, usize, usize) -> Rgb>(data: &str, hls: F) -> (r: Option<Sixel>)
    requires
        data@.len() < usize::MAX / 8,
        forall|h: usize, l: usize, s: usize| hls.requires((h, l, s)),
    ensures
        forall|conv: spec_fn(usize, usize, usize) -> Rgb| #[trigger] computes(hls, conv) ==> match decoded(data@, conv) {
            None => r is None,
            Some((w, h, px)) => r matches Some(s) && s.width == w && s.height == h && s.pixels@ == px,
        },
{
    let chars = chars_of(data);
    let mut decoder = Decoder::new();
    decoder.run(chars.as_slice(), &hls);
    decoder.into_sixel()
}

} // verus!
