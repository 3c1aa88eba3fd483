//! Ovals: solid, and the ring of exact boundary points.

use vstd::prelude::*;
use crate::canvas::Canvas;
use crate::canvas::lemma_product_bound;
use crate::shapes::ellipse_excess;
use crate::shapes::oval;
use crate::shapes::ring;
use crate::shapes::scanned;
use crate::window::lemma_painted_agree;
use crate::window::lemma_painted_empty;
use crate::window::lemma_painted_frame;
use crate::window::lemma_painted_put;

verus! {

impl Canvas {
    /// Scans the visible part of the `w × h` bounding box at `(x, y)` and
    /// paints the coordinates of the inscribed ellipse: all that lie inside
    /// or on it where `solid`, only those exactly on it otherwise.
    pub(super) fn scan_oval(&mut self, x: i64, y: i64, w: i64, h: i64, solid: bool, color: u32)
        requires
            -0x4_0000_0000 <= x <= 0x4_0000_0000,
            -0x4_0000_0000 <= y <= 0x4_0000_0000,
            0 <= w <= 0xffff_ffff,
            0 <= h <= 0xffff_ffff,
        ensures
            final(self)@ == old(self)@.painted(
                if solid {
                    oval(x as int, y as int, w as int, h as int)
                } else {
                    ring(x as int, y as int, w as int, h as int)
                },
                color,
            ),
    {
        proof {
            use_type_invariant(&*self);
        }
        let rx: i64 = w / 2;
        let ry: i64 = h / 2;
        let x_lo: i64 = if x < 0 { 0 } else { x };
        let y_lo: i64 = if y < 0 { 0 } else { y };
        let x_hi: i64 = if x + w < self.width as i64 { x + w } else { self.width as i64 };
        let y_hi: i64 = if y + h < self.height as i64 { y + h } else { self.height as i64 };
        let ghost start = self@;
        let ghost region = if solid {
            oval(x as int, y as int, w as int, h as int)
        } else {
            ring(x as int, y as int, w as int, h as int)
        };
        proof {
            lemma_painted_empty(start, color);
            assert(region.intersect(
                scanned(x_lo as int, x_hi as int, y_lo as int, y_lo as int, x_lo as int),
            ) =~= Set::empty());
        }
        let mut j: i64 = y_lo;
        while j < y_hi
            invariant
                start.wf(),
                rx == w / 2,
                ry == h / 2,
                0 <= w <= 0xffff_ffff,
                0 <= h <= 0xffff_ffff,
                region == if solid {
                    oval(x as int, y as int, w as int, h as int)
                } else {
                    ring(x as int, y as int, w as int, h as int)
                },
                0 <= y_lo <= j,
                x <= x_lo,
                y <= y_lo,
                x_hi <= x + w,
                y_hi <= y + h,
                j <= y_hi || j == y_lo,
                0 <= x_lo,
                x_hi <= self@.width,
                y_hi <= self@.height,
                self@ == start.painted(
                    region.intersect(
                        scanned(x_lo as int, x_hi as int, y_lo as int, j as int, x_lo as int),
                    ),
                    color,
                ),
            decreases y_hi - j,
        {
            let mut i: i64 = x_lo;
            while i < x_hi
                invariant
                    start.wf(),
                    rx == w / 2,
                    ry == h / 2,
                    0 <= w <= 0xffff_ffff,
                    0 <= h <= 0xffff_ffff,
                    region == if solid {
                        oval(x as int, y as int, w as int, h as int)
                    } else {
                        ring(x as int, y as int, w as int, h as int)
                    },
                    0 <= y_lo <= j < y_hi,
                    0 <= x_lo <= i,
                    x <= x_lo,
                    y <= y_lo,
                    x_hi <= x + w,
                    y_hi <= y + h,
                    x_hi <= self@.width,
                    y_hi <= self@.height,
                    self@ == start.painted(
                        region.intersect(
                            scanned(x_lo as int, x_hi as int, y_lo as int, j as int, i as int),
                        ),
                        color,
                    ),
                decreases x_hi - i,
            {
                let excess: i128 = ellipse_excess_of(i - x - rx, j - y - ry, rx, ry);
                let ghost done = region.intersect(
                    scanned(x_lo as int, x_hi as int, y_lo as int, j as int, i as int),
                );
                let ghost next = region.intersect(
                    scanned(x_lo as int, x_hi as int, y_lo as int, j as int, i + 1),
                );
                if excess == 0 || (solid && excess < 0) {
                    self.plot(i, j, color);
                    proof {
                        lemma_painted_put(start, done, color, i as int, j as int);
                        assert(region.contains((i as int, j as int)));
                        assert(done.insert((i as int, j as int)) =~= next);
                    }
                } else {
                    proof {
                        assert(!region.contains((i as int, j as int)));
                        assert(done =~= next);
                    }
                }
                i = i + 1;
            }
            proof {
                assert(region.intersect(
                    scanned(x_lo as int, x_hi as int, y_lo as int, j as int, i as int),
                ) =~= region.intersect(
                    scanned(x_lo as int, x_hi as int, y_lo as int, j + 1, x_lo as int),
                ));
            }
            j = j + 1;
        }
        proof {
            let done = region.intersect(
                scanned(x_lo as int, x_hi as int, y_lo as int, j as int, x_lo as int),
            );
            assert forall|px: int, py: int| start.contains(px, py) implies (done.contains((px, py))
                <==> region.contains((px, py))) by {}
            lemma_painted_agree(start, done, region, color);
        }
    }

    /// Paints the solid oval inscribed in the `width × height` bounding box
    /// whose top-left corner is `(cx, cy)`; the part outside the window is
    /// clipped.
    pub fn fill_oval(&mut self, cx: u32, cy: u32, width: u32, height: u32, color: u32)
        ensures
            final(self)@ == old(self)@.painted(
                oval(cx as int, cy as int, width as int, height as int),
                color,
            ),
            final(self)@.same_outside(old(self)@),
    {
        self.scan_oval(cx as i64, cy as i64, width as i64, height as i64, true, color);
        proof {
            lemma_painted_frame(old(self)@, oval(cx as int, cy as int, width as int, height as int), color);
        }
    }

    /// Paints the coordinates that lie exactly on the ellipse inscribed in
    /// the `width × height` bounding box whose top-left corner is `(cx, cy)`.
    /// Where few integer points meet the ellipse the ring is dotted.
    pub fn draw_oval(&mut self, cx: u32, cy: u32, width: u32, height: u32, color: u32)
        ensures
            final(self)@ == old(self)@.painted(
                ring(cx as int, cy as int, width as int, height as int),
                color,
            ),
            final(self)@.same_outside(old(self)@),
    {
        self.scan_oval(cx as i64, cy as i64, width as i64, height as i64, false, color);
        proof {
            lemma_painted_frame(old(self)@, ring(cx as int, cy as int, width as int, height as int), color);
        }
    }
}

/// Computes the ellipse relation for an offset inside the bounding box.
fn ellipse_excess_of(dx: i64, dy: i64, rx: i64, ry: i64) -> (excess: i128)
    requires
        0 <= rx <= 0x7fff_ffff,
        0 <= ry <= 0x7fff_ffff,
        -rx <= dx <= rx,
        -ry <= dy <= ry,
    ensures
        excess == ellipse_excess(dx as int, dy as int, rx as int, ry as int),
{
    proof {
        lemma_square_bound(dx as int);
        lemma_square_bound(dy as int);
        lemma_square_bound(rx as int);
        lemma_square_bound(ry as int);
        lemma_product_bound(rx as int, ry as int, 0x7fff_ffff);
    }
    let dx2: i128 = (dx as i128) * (dx as i128);
    let dy2: i128 = (dy as i128) * (dy as i128);
    let rx2: i128 = (rx as i128) * (rx as i128);
    let ry2: i128 = (ry as i128) * (ry as i128);
    let rxy: i128 = (rx as i128) * (ry as i128);
    proof {
        lemma_product_bound(dx2 as int, ry2 as int, 0x3fff_ffff_0000_0001);
        lemma_product_bound(dy2 as int, rx2 as int, 0x3fff_ffff_0000_0001);
        lemma_product_bound(rxy as int, rxy as int, 0x3fff_ffff_0000_0001);
    }
    dx2 * ry2 + dy2 * rx2 - rxy * rxy
}

/// The square of a number of at most 31 bits has at most 62 bits.
proof fn lemma_square_bound(v: int)
    requires
        -0x7fff_ffff <= v <= 0x7fff_ffff,
    ensures
        0 <= v * v <= 0x3fff_ffff_0000_0001,
{
    assert(0 <= v * v <= 0x7fff_ffff * 0x7fff_ffff) by (nonlinear_arith)
        requires
            -0x7fff_ffff <= v <= 0x7fff_ffff,
    ;
}

} // verus!
