//! Rectangles: filled, outlined and rounded.

use vstd::prelude::*;
use crate::canvas::Canvas;
use crate::shapes::corner_radius;
use crate::shapes::outline;
use crate::shapes::oval;
use crate::shapes::rect;
use crate::shapes::rounded;
use crate::shapes::scanned;
use crate::window::lemma_painted_agree;
use crate::window::lemma_painted_empty;
use crate::window::lemma_painted_frame;
use crate::window::lemma_painted_pixel;
use crate::window::lemma_painted_put;
use crate::window::lemma_painted_union;

verus! {

impl Canvas {
    /// Paints the part of the `w × h` rectangle at `(x, y)` that the window
    /// shows, walking only the visible part.
    pub(super) fn fill_span(&mut self, x: i64, y: i64, w: i64, h: i64, color: u32)
        requires
            -0x4_0000_0000 <= x <= 0x4_0000_0000,
            -0x4_0000_0000 <= y <= 0x4_0000_0000,
            0 <= w <= 0x4_0000_0000,
            0 <= h <= 0x4_0000_0000,
        ensures
            final(self)@ == old(self)@.painted(rect(x as int, y as int, w as int, h as int), color),
    {
        proof {
            use_type_invariant(&*self);
        }
        let x_lo: i64 = if x < 0 { 0 } else { x };
        let y_lo: i64 = if y < 0 { 0 } else { y };
        let x_hi: i64 = if x + w < self.width as i64 { x + w } else { self.width as i64 };
        let y_hi: i64 = if y + h < self.height as i64 { y + h } else { self.height as i64 };
        let ghost start = self@;
        let ghost region = rect(x as int, y as int, w as int, h as int);
        proof {
            lemma_painted_empty(start, color);
            assert(scanned(x_lo as int, x_hi as int, y_lo as int, y_lo as int, x_lo as int)
                =~= Set::empty());
        }
        let mut j: i64 = y_lo;
        while j < y_hi
            invariant
                start.wf(),
                0 <= y_lo <= j,
                j <= y_hi || j == y_lo,
                0 <= x_lo,
                x_hi <= self@.width,
                y_hi <= self@.height,
                self@ == start.painted(
                    scanned(x_lo as int, x_hi as int, y_lo as int, j as int, x_lo as int),
                    color,
                ),
            decreases y_hi - j,
        {
            let mut i: i64 = x_lo;
            while i < x_hi
                invariant
                    start.wf(),
                    0 <= y_lo <= j < y_hi,
                    0 <= x_lo <= i,
                    x_hi <= self@.width,
                    y_hi <= self@.height,
                    self@ == start.painted(
                        scanned(x_lo as int, x_hi as int, y_lo as int, j as int, i as int),
                        color,
                    ),
                decreases x_hi - i,
            {
                self.plot(i, j, color);
                proof {
                    let done = scanned(x_lo as int, x_hi as int, y_lo as int, j as int, i as int);
                    lemma_painted_put(start, done, color, i as int, j as int);
                    assert(done.insert((i as int, j as int)) =~= scanned(
                        x_lo as int,
                        x_hi as int,
                        y_lo as int,
                        j as int,
                        i + 1,
                    ));
                }
                i = i + 1;
            }
            proof {
                assert(scanned(x_lo as int, x_hi as int, y_lo as int, j as int, i as int)
                    =~= scanned(x_lo as int, x_hi as int, y_lo as int, j + 1, x_lo as int));
            }
            j = j + 1;
        }
        proof {
            let done = scanned(x_lo as int, x_hi as int, y_lo as int, j as int, x_lo as int);
            assert forall|px: int, py: int| start.contains(px, py) implies (done.contains((px, py))
                <==> region.contains((px, py))) by {}
            lemma_painted_agree(start, done, region, color);
        }
    }

    /// Sets every pixel of the `width × height` rectangle at `(x, y)` to
    /// `color`. The part of the rectangle outside the window is clipped.
    pub fn fill_rect(&mut self, x: u32, y: u32, width: u32, height: u32, color: u32)
        ensures
            final(self)@ == old(self)@.painted(
                rect(x as int, y as int, width as int, height as int),
                color,
            ),
            forall|px: int, py: int| #[trigger]
                old(self)@.contains(px, py) ==> final(self)@.pixel(px, py) == if rect(
                    x as int,
                    y as int,
                    width as int,
                    height as int,
                ).contains((px, py)) {
                    color
                } else {
                    old(self)@.pixel(px, py)
                },
            final(self)@.same_outside(old(self)@),
    {
        proof {
            use_type_invariant(&*self);
        }
        self.fill_span(x as i64, y as i64, width as i64, height as i64, color);
        proof {
            let region = rect(x as int, y as int, width as int, height as int);
            lemma_painted_frame(old(self)@, region, color);
            assert forall|px: int, py: int| #[trigger]
                old(self)@.contains(px, py) implies self@.pixel(px, py) == if region.contains(
                (px, py),
            ) {
                color
            } else {
                old(self)@.pixel(px, py)
            } by {
                lemma_painted_pixel(old(self)@, region, color, px, py);
            }
        }
    }

    /// Sets every pixel of the window to `color`.
    pub fn fill(&mut self, color: u32)
        ensures
            final(self)@ == old(self)@.painted(Set::full(), color),
            forall|px: int, py: int| #[trigger]
                old(self)@.contains(px, py) ==> final(self)@.pixel(px, py) == color,
            final(self)@.same_outside(old(self)@),
    {
        proof {
            use_type_invariant(&*self);
        }
        let w: u32 = self.width;
        let h: u32 = self.height;
        self.fill_rect(0, 0, w, h, color);
        proof {
            lemma_painted_agree(
                old(self)@,
                rect(0, 0, w as int, h as int),
                Set::full(),
                color,
            );
        }
    }

    /// Paints the border of the `width × height` rectangle at `(x, y)`: its
    /// first and last row and its first and last column. An empty rectangle
    /// has no border.
    pub fn draw_rect(&mut self, x: u32, y: u32, width: u32, height: u32, color: u32)
        ensures
            final(self)@ == old(self)@.painted(
                outline(x as int, y as int, width as int, height as int),
                color,
            ),
            final(self)@.same_outside(old(self)@),
    {
        proof {
            use_type_invariant(&*self);
            lemma_painted_frame(
                self@,
                outline(x as int, y as int, width as int, height as int),
                color,
            );
        }
        let ghost start = self@;
        let ghost border = outline(x as int, y as int, width as int, height as int);
        if width == 0 || height == 0 {
            proof {
                assert(border =~= Set::empty());
                lemma_painted_empty(start, color);
            }
            return ;
        }
        let x0: i64 = x as i64;
        let y0: i64 = y as i64;
        let w: i64 = width as i64;
        let h: i64 = height as i64;
        let ghost top = rect(x0 as int, y0 as int, w as int, 1);
        let ghost bottom = rect(x0 as int, y0 + h - 1, w as int, 1);
        let ghost left = rect(x0 as int, y0 as int, 1, h as int);
        let ghost right = rect(x0 + w - 1, y0 as int, 1, h as int);
        self.fill_span(x0, y0, w, 1, color);
        self.fill_span(x0, y0 + h - 1, w, 1, color);
        self.fill_span(x0, y0, 1, h, color);
        self.fill_span(x0 + w - 1, y0, 1, h, color);
        proof {
            lemma_painted_union(start, top, bottom, color);
            lemma_painted_union(start, top.union(bottom), left, color);
            lemma_painted_union(start, top.union(bottom).union(left), right, color);
            assert(top.union(bottom).union(left).union(right) =~= border);
        }
    }

    /// Paints the filled rounded rectangle of `width × height` pixels at
    /// `(x, y)`. A radius of zero gives the plain rectangle; any other radius
    /// is held to half the width and half the height.
    pub fn fill_rounded_rect(
        &mut self,
        x: u32,
        y: u32,
        width: u32,
        height: u32,
        radius: u32,
        color: u32,
    )
        ensures
            final(self)@ == old(self)@.painted(
                rounded(x as int, y as int, width as int, height as int, radius as int),
                color,
            ),
            radius == 0 ==> final(self)@ == old(self)@.painted(
                rect(x as int, y as int, width as int, height as int),
                color,
            ),
            final(self)@.same_outside(old(self)@),
    {
        proof {
            lemma_painted_frame(
                self@,
                rounded(x as int, y as int, width as int, height as int, radius as int),
                color,
            );
        }
        if radius == 0 {
            self.fill_rect(x, y, width, height, color);
            return ;
        }
        let ghost start = self@;
        let half_w: u32 = width / 2;
        let half_h: u32 = height / 2;
        let clamped: u32 = if radius <= half_w && radius <= half_h {
            radius
        } else if half_w <= half_h {
            half_w
        } else {
            half_h
        };
        let x0: i64 = x as i64;
        let y0: i64 = y as i64;
        let w: i64 = width as i64;
        let h: i64 = height as i64;
        let r: i64 = clamped as i64;
        let d: i64 = 2 * r;
        assert(r == corner_radius(width as int, height as int, radius as int));
        let ghost a1 = oval(x0 as int, y0 as int, d as int, d as int);
        let ghost a2 = a1.union(oval(x0 + w - d, y0 as int, d as int, d as int));
        let ghost a3 = a2.union(oval(x0 as int, y0 + h - d, d as int, d as int));
        let ghost a4 = a3.union(oval(x0 + w - d, y0 + h - d, d as int, d as int));
        let ghost a5 = a4.union(rect(x0 + r, y0 as int, w - d, r as int));
        let ghost a6 = a5.union(rect(x0 + r, y0 + h - r, w - d, r as int));
        let ghost a7 = a6.union(rect(x0 as int, y0 + r, r as int, h - d));
        let ghost a8 = a7.union(rect(x0 + w - r, y0 + r, r as int, h - d));
        let ghost a9 = a8.union(rect(x0 + r, y0 + r, w - d, h - d));
        self.scan_oval(x0, y0, d, d, true, color);
        self.scan_oval(x0 + w - d, y0, d, d, true, color);
        proof {
            lemma_painted_union(start, a1, oval(x0 + w - d, y0 as int, d as int, d as int), color);
        }
        self.scan_oval(x0, y0 + h - d, d, d, true, color);
        proof {
            lemma_painted_union(start, a2, oval(x0 as int, y0 + h - d, d as int, d as int), color);
        }
        self.scan_oval(x0 + w - d, y0 + h - d, d, d, true, color);
        proof {
            lemma_painted_union(start, a3, oval(x0 + w - d, y0 + h - d, d as int, d as int), color);
        }
        self.fill_span(x0 + r, y0, w - d, r, color);
        proof {
            lemma_painted_union(start, a4, rect(x0 + r, y0 as int, w - d, r as int), color);
        }
        self.fill_span(x0 + r, y0 + h - r, w - d, r, color);
        proof {
            lemma_painted_union(start, a5, rect(x0 + r, y0 + h - r, w - d, r as int), color);
        }
        self.fill_span(x0, y0 + r, r, h - d, color);
        proof {
            lemma_painted_union(start, a6, rect(x0 as int, y0 + r, r as int, h - d), color);
        }
        self.fill_span(x0 + w - r, y0 + r, r, h - d, color);
        proof {
            lemma_painted_union(start, a7, rect(x0 + w - r, y0 + r, r as int, h - d), color);
        }
        self.fill_span(x0 + r, y0 + r, w - d, h - d, color);
        proof {
            lemma_painted_union(start, a8, rect(x0 + r, y0 + r, w - d, h - d), color);
            assert(a9 == rounded(x as int, y as int, width as int, height as int, radius as int));
        }
    }
}

} // verus!
