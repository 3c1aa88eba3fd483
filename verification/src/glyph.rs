//! Rasterized glyphs and what stamping them on a canvas does.

use vstd::prelude::*;
use crate::blend::composited;
use crate::window::CanvasView;
use crate::window::lemma_index_shown;
use crate::window::lemma_shown_index;

verus! {

/// The mathematical model of a rasterized glyph: a coverage bitmap of
/// `width × height` cells, row after row, and the metrics that place it.
pub struct GlyphView {
    pub width: nat,
    pub height: nat,
    pub ymin: int,
    pub advance_width: nat,
    pub coverage: Seq<u8>,
}

impl GlyphView {
    /// The bitmap has one cell for each coordinate.
    pub open spec fn wf(self) -> bool {
        self.coverage.len() == self.width * self.height
    }

    /// The coverage of the cell in column `col` of row `row`.
    pub open spec fn coverage_at(self, col: int, row: int) -> u8 {
        self.coverage[row * self.width + col]
    }

    /// Whether `(col, row)` is a cell of the bitmap with coverage above zero.
    pub open spec fn marks(self, col: int, row: int) -> bool {
        0 <= col < self.width && 0 <= row < self.height && self.coverage_at(col, row) > 0
    }

    /// The canvas row on which the first row of the bitmap falls when the
    /// glyph is anchored at `y`: `y - (height + ymin)`.
    pub open spec fn top(self, y: int) -> int {
        y - (self.height + self.ymin)
    }
}

/// A glyph as a rasterizer hands it out: the coverage bitmap with its width
/// and height, the lowest row relative to the baseline, and the distance to
/// the next glyph.
pub struct Glyph {
    width: u32,
    height: u32,
    ymin: i32,
    advance_width: u32,
    coverage: Vec<u8>,
}

impl View for Glyph {
    type V = GlyphView;

    closed spec fn view(&self) -> GlyphView {
        GlyphView {
            width: self.width as nat,
            height: self.height as nat,
            ymin: self.ymin as int,
            advance_width: self.advance_width as nat,
            coverage: self.coverage@,
        }
    }
}

impl Glyph {
    #[verifier::type_invariant]
    spec fn inv(self) -> bool {
        self@.wf()
    }

    /// A glyph from its bitmap and metrics, or `None` where the bitmap does
    /// not hold exactly `width × height` cells.
    pub fn new(width: u32, height: u32, ymin: i32, advance_width: u32, coverage: Vec<u8>) -> (glyph:
        Option<Glyph>)
        ensures
            glyph.is_some() <==> coverage@.len() == width * height,
            glyph matches Some(g) ==> g@ == (GlyphView {
                width: width as nat,
                height: height as nat,
                ymin: ymin as int,
                advance_width: advance_width as nat,
                coverage: coverage@,
            }),
    {
        proof {
            assert(0 <= width * height <= 0xffff_ffff * 0xffff_ffff) by (nonlinear_arith)
                requires
                    0 <= width <= 0xffff_ffff,
                    0 <= height <= 0xffff_ffff,
            ;
        }
        let cells: u64 = width as u64 * height as u64;
        if coverage.len() as u64 == cells {
            Some(Glyph { width, height, ymin, advance_width, coverage })
        } else {
            None
        }
    }

    /// The width of the bitmap, in cells.
    pub fn width(&self) -> (w: u32)
        ensures
            w == self@.width,
    {
        self.width
    }

    /// The height of the bitmap, in cells.
    pub fn height(&self) -> (h: u32)
        ensures
            h == self@.height,
    {
        self.height
    }

    /// The lowest row of the glyph relative to the baseline.
    pub fn ymin(&self) -> (ymin: i32)
        ensures
            ymin == self@.ymin,
    {
        self.ymin
    }

    /// The distance from this glyph's origin to the next one's.
    pub fn advance_width(&self) -> (advance: u32)
        ensures
            advance == self@.advance_width,
    {
        self.advance_width
    }

    /// The coverage of the cell in column `col` of row `row`, or `None`
    /// outside the bitmap.
    pub fn coverage_at(&self, col: u32, row: u32) -> (coverage: Option<u8>)
        ensures
            self@.wf(),
            coverage == if col < self@.width && row < self@.height {
                Some(self@.coverage_at(col as int, row as int))
            } else {
                None
            },
    {
        proof {
            use_type_invariant(self);
        }
        let cells: usize = self.coverage.len();
        if col < self.width && row < self.height {
            proof {
                assert(0 <= row * self.width && row * self.width + col < self.width * self.height)
                    by (nonlinear_arith)
                    requires
                        0 <= col < self.width,
                        0 <= row < self.height,
                ;
            }
            let i: usize = row as usize * self.width as usize + col as usize;
            Some(self.coverage[i])
        } else {
            None
        }
    }
}

/// The canvas after the cells of `glyph` that are in `cells` have been
/// stamped on it in `color`, the glyph anchored with its left edge at column
/// `x` and its baseline at row `y`. Each visible pixel under a cell with
/// coverage above zero becomes the composite of `color` over what was there;
/// nothing else changes.
pub open spec fn stamped_cells(
    c: CanvasView,
    glyph: GlyphView,
    x: int,
    y: int,
    color: u32,
    cells: Set<(int, int)>,
) -> CanvasView {
    CanvasView {
        buffer: Seq::new(
            c.buffer.len(),
            |i: int|
                {
                    let col = c.col_of(i) - x;
                    let row = c.row_of(i) - glyph.top(y);
                    if c.shows(i) && glyph.marks(col, row) && cells.contains((col, row)) {
                        composited(color, c.buffer[i], glyph.coverage_at(col, row) as u32)
                    } else {
                        c.buffer[i]
                    }
                },
        ),
        ..c
    }
}

/// The canvas after `glyph` has been drawn on it in `color`, anchored with
/// its left edge at column `x` and its baseline at row `y`.
pub open spec fn stamped(c: CanvasView, glyph: GlyphView, x: int, y: int, color: u32) -> CanvasView {
    stamped_cells(c, glyph, x, y, color, Set::full())
}

/// The sum of the advance widths of a run of glyphs.
pub open spec fn advance_sum(glyphs: Seq<GlyphView>) -> int
    decreases glyphs.len(),
{
    if glyphs.len() == 0 {
        0
    } else {
        advance_sum(glyphs.drop_last()) + glyphs.last().advance_width
    }
}

/// The canvas after a run of glyphs has been drawn on it from column `x` on,
/// all on the baseline `y`: each glyph is stamped where the advance widths
/// of those before it put it.
pub open spec fn typeset(c: CanvasView, glyphs: Seq<GlyphView>, x: int, y: int, color: u32) -> CanvasView
    decreases glyphs.len(),
{
    if glyphs.len() == 0 {
        c
    } else {
        stamped(
            typeset(c, glyphs.drop_last(), x, y, color),
            glyphs.last(),
            x + advance_sum(glyphs.drop_last()),
            y,
            color,
        )
    }
}

/// The models of a run of glyphs.
pub open spec fn views(glyphs: Seq<Glyph>) -> Seq<GlyphView> {
    Seq::new(glyphs.len(), |i: int| glyphs[i]@)
}

/// Stamping leaves the geometry alone and touches only visible cells.
pub proof fn lemma_stamped_frame(
    c: CanvasView,
    glyph: GlyphView,
    x: int,
    y: int,
    color: u32,
    cells: Set<(int, int)>,
)
    ensures
        stamped_cells(c, glyph, x, y, color, cells).same_outside(c),
        c.wf() ==> stamped_cells(c, glyph, x, y, color, cells).wf(),
{
}

/// Typesetting leaves the geometry alone and touches only visible cells.
pub proof fn lemma_typeset_frame(c: CanvasView, glyphs: Seq<GlyphView>, x: int, y: int, color: u32)
    ensures
        typeset(c, glyphs, x, y, color).same_outside(c),
        c.wf() ==> typeset(c, glyphs, x, y, color).wf(),
    decreases glyphs.len(),
{
    if glyphs.len() > 0 {
        let rest = typeset(c, glyphs.drop_last(), x, y, color);
        lemma_typeset_frame(c, glyphs.drop_last(), x, y, color);
        lemma_stamped_frame(
            rest,
            glyphs.last(),
            x + advance_sum(glyphs.drop_last()),
            y,
            color,
            Set::full(),
        );
        let done = typeset(c, glyphs, x, y, color);
        assert forall|i: int| 0 <= i < c.buffer.len() && !c.shows(i) implies done.buffer[i]
            == #[trigger] c.buffer[i] by {
            assert(!rest.shows(i));
            assert(done.buffer[i] == rest.buffer[i]);
        }
    }
}

/// What stamping does to each visible pixel.
pub proof fn lemma_stamped_pixel(
    c: CanvasView,
    glyph: GlyphView,
    x: int,
    y: int,
    color: u32,
    px: int,
    py: int,
)
    requires
        c.wf(),
        c.contains(px, py),
    ensures
        stamped(c, glyph, x, y, color).pixel(px, py) == if glyph.marks(px - x, py - glyph.top(y)) {
            composited(
                color,
                c.pixel(px, py),
                glyph.coverage_at(px - x, py - glyph.top(y)) as u32,
            )
        } else {
            c.pixel(px, py)
        },
{
    lemma_index_shown(c, px, py);
}

/// Stamping no cell changes nothing.
pub proof fn lemma_stamped_none(c: CanvasView, glyph: GlyphView, x: int, y: int, color: u32)
    ensures
        stamped_cells(c, glyph, x, y, color, Set::empty()) == c,
{
    assert(stamped_cells(c, glyph, x, y, color, Set::empty()).buffer =~= c.buffer);
}

/// Sets of cells that agree on the bitmap stamp alike.
pub proof fn lemma_stamped_agree(
    c: CanvasView,
    glyph: GlyphView,
    x: int,
    y: int,
    color: u32,
    first: Set<(int, int)>,
    second: Set<(int, int)>,
)
    requires
        forall|col: int, row: int|
            0 <= col < glyph.width && 0 <= row < glyph.height ==> (first.contains((col, row))
                <==> second.contains((col, row))),
    ensures
        stamped_cells(c, glyph, x, y, color, first) == stamped_cells(c, glyph, x, y, color, second),
{
    assert(stamped_cells(c, glyph, x, y, color, first).buffer =~= stamped_cells(
        c,
        glyph,
        x,
        y,
        color,
        second,
    ).buffer);
}

/// Stamping one more cell: the pixel under it, if it is visible and the
/// cell has coverage, still shows what the canvas showed at first, and
/// becomes the composite; otherwise nothing changes.
pub proof fn lemma_stamped_cell(
    c: CanvasView,
    glyph: GlyphView,
    x: int,
    y: int,
    color: u32,
    cells: Set<(int, int)>,
    col: int,
    row: int,
)
    requires
        c.wf(),
        !cells.contains((col, row)),
    ensures
        ({
            let now = stamped_cells(c, glyph, x, y, color, cells);
            let next = stamped_cells(c, glyph, x, y, color, cells.insert((col, row)));
            let px = x + col;
            let py = glyph.top(y) + row;
            if c.contains(px, py) && glyph.marks(col, row) {
                &&& now.pixel(px, py) == c.pixel(px, py)
                &&& next == now.put(
                    px,
                    py,
                    composited(color, c.pixel(px, py), glyph.coverage_at(col, row) as u32),
                )
            } else {
                next == now
            }
        }),
{
    let now = stamped_cells(c, glyph, x, y, color, cells);
    let next = stamped_cells(c, glyph, x, y, color, cells.insert((col, row)));
    let px = x + col;
    let py = glyph.top(y) + row;
    if c.contains(px, py) && glyph.marks(col, row) {
        lemma_index_shown(c, px, py);
        let value = composited(color, c.pixel(px, py), glyph.coverage_at(col, row) as u32);
        assert forall|i: int| 0 <= i < c.buffer.len() implies now.put(px, py, value).buffer[i]
            == next.buffer[i] by {
            if c.shows(i) {
                lemma_shown_index(c, i);
            }
        }
        assert(now.put(px, py, value).buffer =~= next.buffer);
    } else {
        assert forall|i: int| 0 <= i < c.buffer.len() implies now.buffer[i] == next.buffer[i] by {
            if c.shows(i) {
                lemma_shown_index(c, i);
            }
        }
        assert(now.buffer =~= next.buffer);
    }
}

/// A glyph anchored at or beyond the right edge of the window leaves no
/// mark.
pub proof fn lemma_stamped_beyond(c: CanvasView, glyph: GlyphView, x: int, y: int, color: u32)
    requires
        x >= c.width,
    ensures
        stamped(c, glyph, x, y, color) == c,
{
    assert(stamped(c, glyph, x, y, color).buffer =~= c.buffer);
}

} // verus!
