//! Glyphs and runs of glyphs, composited onto the canvas.

use vstd::prelude::*;
use crate::blend::blend;
use crate::blend::blended;
use crate::blend::combined_weight;
use crate::blend::composite;
use crate::canvas::Canvas;
use crate::glyph::Glyph;
use crate::glyph::advance_sum;
use crate::glyph::lemma_stamped_agree;
use crate::glyph::lemma_stamped_beyond;
use crate::glyph::lemma_stamped_cell;
use crate::glyph::lemma_stamped_frame;
use crate::glyph::lemma_stamped_none;
use crate::glyph::lemma_typeset_frame;
use crate::glyph::stamped;
use crate::glyph::stamped_cells;
use crate::glyph::typeset;
use crate::glyph::views;
use crate::shapes::scanned;

verus! {

impl Canvas {
    /// Composites `foreground` over `background` under the coverage `alpha`
    /// of a glyph cell. The blend is defined where the two colors are not
    /// both fully transparent under that coverage.
    pub fn blend_pixel(&self, foreground: u32, background: u32, alpha: u32) -> (color: u32)
        requires
            alpha <= 255,
            combined_weight(foreground, background, alpha) > 0,
        ensures
            color == blended(foreground, background, alpha),
    {
        blend(foreground, background, alpha)
    }

    /// Stamps `glyph` in `color` with its left edge at column `x` and its
    /// baseline at row `y`, both given in wide integers.
    fn stamp(&mut self, x: i64, y: i64, glyph: &Glyph, color: u32)
        requires
            0 <= x <= 0x2_0000_0000,
            0 <= y <= 0x2_0000_0000,
        ensures
            final(self)@ == stamped(old(self)@, glyph@, x as int, y as int, color),
    {
        proof {
            use_type_invariant(&*self);
        }
        let w: u32 = glyph.width();
        let h: u32 = glyph.height();
        let top: i64 = y - (h as i64 + glyph.ymin() as i64);
        let ghost start = self@;
        let ghost g = glyph@;
        proof {
            lemma_stamped_none(start, g, x as int, y as int, color);
            assert(scanned(0, w as int, 0, 0, 0) =~= Set::empty());
        }
        let mut row: u32 = 0;
        while row < h
            invariant
                start.wf(),
                g == glyph@,
                w == g.width,
                h == g.height,
                top == g.top(y as int),
                -0x2_0000_0000 <= top <= 0x3_0000_0000,
                0 <= x <= 0x2_0000_0000,
                0 <= y <= 0x2_0000_0000,
                row <= h,
                self@ == stamped_cells(
                    start,
                    g,
                    x as int,
                    y as int,
                    color,
                    scanned(0, w as int, 0, row as int, 0),
                ),
            decreases h - row,
        {
            let mut col: u32 = 0;
            while col < w
                invariant
                    start.wf(),
                    g == glyph@,
                    w == g.width,
                    h == g.height,
                    top == g.top(y as int),
                    -0x2_0000_0000 <= top <= 0x3_0000_0000,
                -0x2_0000_0000 <= top <= 0x3_0000_0000,
                    0 <= x <= 0x2_0000_0000,
                    0 <= y <= 0x2_0000_0000,
                    row < h,
                    col <= w,
                    self@ == stamped_cells(
                        start,
                        g,
                        x as int,
                        y as int,
                        color,
                        scanned(0, w as int, 0, row as int, col as int),
                    ),
                decreases w - col,
            {
                let px: i64 = x + col as i64;
                let py: i64 = top + row as i64;
                let ghost cells = scanned(0, w as int, 0, row as int, col as int);
                proof {
                    lemma_stamped_cell(
                        start,
                        g,
                        x as int,
                        y as int,
                        color,
                        cells,
                        col as int,
                        row as int,
                    );
                    assert(cells.insert((col as int, row as int)) =~= scanned(
                        0,
                        w as int,
                        0,
                        row as int,
                        col + 1,
                    ));
                }
                if 0 <= py && px < self.width as i64 && py < self.height as i64 {
                    let coverage: u8 = match glyph.coverage_at(col, row) {
                        Some(value) => value,
                        None => 0,
                    };
                    if coverage > 0 {
                        let under: u32 = match self.get_pixel(px as u32, py as u32) {
                            Some(value) => value,
                            None => 0,
                        };
                        self.set_pixel(px as u32, py as u32, composite(color, under, coverage));
                    }
                }
                col = col + 1;
            }
            proof {
                assert(scanned(0, w as int, 0, row as int, col as int) =~= scanned(
                    0,
                    w as int,
                    0,
                    row + 1,
                    0,
                ));
            }
            row = row + 1;
        }
        proof {
            lemma_stamped_agree(
                start,
                g,
                x as int,
                y as int,
                color,
                scanned(0, w as int, 0, row as int, 0),
                Set::full(),
            );
        }
    }

    /// Draws one glyph in `color`, its left edge at column `x` and its
    /// baseline at row `y`: the first row of its bitmap falls on row
    /// `y - (height + ymin)`. Every visible pixel under a cell with coverage
    /// above zero becomes `color` composited over what was there.
    pub fn draw_char(&mut self, x: u32, y: u32, glyph: &Glyph, color: u32)
        ensures
            final(self)@ == stamped(old(self)@, glyph@, x as int, y as int, color),
            final(self)@.same_outside(old(self)@),
    {
        self.stamp(x as i64, y as i64, glyph, color);
        proof {
            lemma_stamped_frame(old(self)@, glyph@, x as int, y as int, color, Set::full());
        }
    }

    /// Draws a run of glyphs in `color` on the baseline `y`, the first with
    /// its left edge at column `x` and each next one further right by the
    /// advance width of the one before it. A single line: no kerning, no
    /// wrapping.
    pub fn draw_string(&mut self, x: u32, y: u32, glyphs: &Vec<Glyph>, color: u32)
        ensures
            final(self)@ == typeset(old(self)@, views(glyphs@), x as int, y as int, color),
            final(self)@.same_outside(old(self)@),
    {
        proof {
            use_type_invariant(&*self);
            lemma_typeset_frame(self@, views(glyphs@), x as int, y as int, color);
        }
        let ghost start = self@;
        let ghost all = views(glyphs@);
        let mut cursor: i64 = x as i64;
        let mut k: usize = 0;
        proof {
            assert(all.take(0) =~= Seq::empty());
        }
        while k < glyphs.len()
            invariant
                all == views(glyphs@),
                k <= glyphs.len(),
                0 <= cursor <= 0x2_0000_0000,
                self@.width == start.width,
                cursor <= 0xffff_ffff ==> cursor == x + advance_sum(all.take(k as int)),
                cursor > 0xffff_ffff ==> x + advance_sum(all.take(k as int)) > 0xffff_ffff,
                self@ == typeset(start, all.take(k as int), x as int, y as int, color),
            decreases glyphs.len() - k,
        {
            let glyph: &Glyph = &glyphs[k];
            proof {
                assert(all.take(k + 1).drop_last() =~= all.take(k as int));
                assert(all.take(k + 1).last() == glyph@);
            }
            if cursor <= 0xffff_ffff {
                self.stamp(cursor, y as i64, glyph, color);
                cursor = cursor + glyph.advance_width() as i64;
            } else {
                proof {
                    lemma_stamped_beyond(
                        self@,
                        glyph@,
                        x + advance_sum(all.take(k as int)),
                        y as int,
                        color,
                    );
                }
            }
            k = k + 1;
        }
        proof {
            assert(all.take(k as int) =~= all);
        }
    }
}

} // verus!
