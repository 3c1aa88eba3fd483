//! Lines, and the outline of a rounded rectangle made of them.

use vstd::prelude::*;
use crate::canvas::Canvas;
use crate::canvas::lemma_product_bound;
use crate::shapes::along;
use crate::shapes::lemma_walk_step;
use crate::shapes::line;
use crate::shapes::line_error;
use crate::shapes::rounded_outline;
use crate::shapes::span;
use crate::shapes::walk;
use crate::window::lemma_painted_empty;
use crate::window::lemma_painted_frame;
use crate::window::lemma_painted_put;
use crate::window::lemma_painted_union;

verus! {

impl Canvas {
    /// Walks the integer line from `(x0, y0)` towards `(x1, y1)` and paints
    /// every position it visits before the end; the end itself stays as it
    /// was.
    fn trace_line(&mut self, x0: i64, y0: i64, x1: i64, y1: i64, color: u32)
        requires
            -0x4_0000_0000 <= x0 <= 0x4_0000_0000,
            -0x4_0000_0000 <= y0 <= 0x4_0000_0000,
            -0x4_0000_0000 <= x1 <= 0x4_0000_0000,
            -0x4_0000_0000 <= y1 <= 0x4_0000_0000,
        ensures
            final(self)@ == old(self)@.painted(
                line(x0 as int, y0 as int, x1 as int, y1 as int),
                color,
            ),
    {
        proof {
            use_type_invariant(&*self);
        }
        let a: i64 = if x0 < x1 { x1 - x0 } else { x0 - x1 };
        let b: i64 = if y0 < y1 { y1 - y0 } else { y0 - y1 };
        let mut err: i128 = a as i128 - b as i128;
        let mut x: i64 = x0;
        let mut y: i64 = y0;
        let ghost start = self@;
        let ghost mut i: int = 0;
        let ghost mut j: int = 0;
        let ghost mut seen: Set<(int, int)> = Set::empty();
        proof {
            lemma_painted_empty(start, color);
            assert(along(x0 as int, y0 as int, x1 as int, y1 as int, seen) =~= Set::empty());
            assert(walk(a as int, b as int, 0, 0) =~= seen.union(walk(a as int, b as int, i, j)));
            assert(a * (1 + 0) == a) by (nonlinear_arith);
            assert(b * (1 + 0) == b) by (nonlinear_arith);
        }
        while x != x1 || y != y1
            invariant
                start.wf(),
                a == span(x0 as int, x1 as int),
                b == span(y0 as int, y1 as int),
                0 <= a <= 0x8_0000_0000,
                0 <= b <= 0x8_0000_0000,
                0 <= i <= a,
                0 <= j <= b,
                x == if x0 < x1 {
                    x0 + i
                } else {
                    x0 - i
                },
                y == if y0 < y1 {
                    y0 + j
                } else {
                    y0 - j
                },
                err == line_error(a as int, b as int, i, j),
                walk(a as int, b as int, 0, 0) == seen.union(walk(a as int, b as int, i, j)),
                self@ == start.painted(
                    along(x0 as int, y0 as int, x1 as int, y1 as int, seen),
                    color,
                ),
            decreases a - i + b - j,
        {
            proof {
                lemma_walk_step(a as int, b as int, i, j);
                lemma_error_bound(a as int, b as int, i, j);
                lemma_painted_put(
                    start,
                    along(x0 as int, y0 as int, x1 as int, y1 as int, seen),
                    color,
                    x as int,
                    y as int,
                );
                assert(along(x0 as int, y0 as int, x1 as int, y1 as int, seen).insert(
                    (x as int, y as int),
                ) =~= along(x0 as int, y0 as int, x1 as int, y1 as int, seen.insert((i, j))));
            }
            self.plot(x, y, color);
            let twice: i128 = 2 * err;
            let ghost next_i = if twice >= -b { i + 1 } else { i };
            let ghost next_j = if twice <= a { j + 1 } else { j };
            proof {
                assert(seen.union(walk(a as int, b as int, i, j)) =~= seen.insert((i, j)).union(
                    walk(a as int, b as int, next_i, next_j),
                ));
                seen = seen.insert((i, j));
            }
            if twice >= -(b as i128) {
                err = err - b as i128;
                x = if x0 < x1 { x + 1 } else { x - 1 };
            }
            if twice <= a as i128 {
                err = err + a as i128;
                y = if y0 < y1 { y + 1 } else { y - 1 };
            }
            proof {
                i = next_i;
                j = next_j;
            }
        }
        proof {
            assert(seen.union(walk(a as int, b as int, i, j)) =~= seen);
        }
    }

    /// Draws the integer line from `(x0, y0)` towards `(x1, y1)`. Every
    /// position that the walk visits before it reaches the end is colored;
    /// the end point `(x1, y1)` itself is not. A line whose two ends coincide
    /// colors nothing.
    pub fn draw_line(&mut self, x0: u32, y0: u32, x1: u32, y1: u32, color: u32)
        ensures
            final(self)@ == old(self)@.painted(
                line(x0 as int, y0 as int, x1 as int, y1 as int),
                color,
            ),
            final(self)@.same_outside(old(self)@),
    {
        self.trace_line(x0 as i64, y0 as i64, x1 as i64, y1 as i64, color);
        proof {
            lemma_painted_frame(old(self)@, line(x0 as int, y0 as int, x1 as int, y1 as int), color);
        }
    }

    /// Draws the approximate outline of a rounded rectangle: four straight
    /// edges inset by the arc dimensions and a single marker pixel in each
    /// corner. Coordinates are taken as integers, so whatever falls left of
    /// or above the window is clipped like everything else outside it.
    pub fn draw_rounded_rect(
        &mut self,
        x: u32,
        y: u32,
        width: u32,
        height: u32,
        arc_width: u32,
        arc_height: u32,
        color: u32,
    )
        ensures
            final(self)@ == old(self)@.painted(
                rounded_outline(
                    x as int,
                    y as int,
                    width as int,
                    height as int,
                    arc_width as int,
                    arc_height as int,
                ),
                color,
            ),
            final(self)@.same_outside(old(self)@),
    {
        proof {
            use_type_invariant(&*self);
            lemma_painted_frame(
                self@,
                rounded_outline(
                    x as int,
                    y as int,
                    width as int,
                    height as int,
                    arc_width as int,
                    arc_height as int,
                ),
                color,
            );
        }
        let ghost start = self@;
        let x0: i64 = x as i64;
        let y0: i64 = y as i64;
        let w: i64 = width as i64;
        let h: i64 = height as i64;
        let aw: i64 = arc_width as i64;
        let ah: i64 = arc_height as i64;
        let ghost top = line(x0 + aw, y0 as int, x0 + w - aw, y0 as int);
        let ghost bottom = line(x0 + aw, y0 + h - 1, x0 + w - aw, y0 + h - 1);
        let ghost left = line(x0 as int, y0 + ah, x0 as int, y0 + h - ah);
        let ghost right = line(x0 + w - 1, y0 + ah, x0 + w - 1, y0 + h - ah);
        let ghost edges = top.union(bottom).union(left).union(right);
        self.trace_line(x0 + aw, y0, x0 + w - aw, y0, color);
        self.trace_line(x0 + aw, y0 + h - 1, x0 + w - aw, y0 + h - 1, color);
        self.trace_line(x0, y0 + ah, x0, y0 + h - ah, color);
        self.trace_line(x0 + w - 1, y0 + ah, x0 + w - 1, y0 + h - ah, color);
        proof {
            lemma_painted_union(start, top, bottom, color);
            lemma_painted_union(start, top.union(bottom), left, color);
            lemma_painted_union(start, top.union(bottom).union(left), right, color);
        }
        self.plot(x0 + aw - 1, y0 + ah - 1, color);
        self.plot(x0 + w - aw, y0 + ah - 1, color);
        self.plot(x0 + aw - 1, y0 + h - ah, color);
        self.plot(x0 + w - aw, y0 + h - ah, color);
        proof {
            let m1 = edges.insert((x0 + aw - 1, y0 + ah - 1));
            let m2 = m1.insert((x0 + w - aw, y0 + ah - 1));
            let m3 = m2.insert((x0 + aw - 1, y0 + h - ah));
            lemma_painted_put(start, edges, color, x0 + aw - 1, y0 + ah - 1);
            lemma_painted_put(start, m1, color, x0 + w - aw, y0 + ah - 1);
            lemma_painted_put(start, m2, color, x0 + aw - 1, y0 + h - ah);
            lemma_painted_put(start, m3, color, x0 + w - aw, y0 + h - ah);
        }
    }
}

/// The error term of a line walk inside its box stays far from the limits
/// of a 128-bit integer.
proof fn lemma_error_bound(a: int, b: int, i: int, j: int)
    requires
        0 <= i <= a <= 0x8_0000_0000,
        0 <= j <= b <= 0x8_0000_0000,
    ensures
        -0x1_0000_0000_0000_0000_0000 <= line_error(a, b, i, j) <= 0x1_0000_0000_0000_0000_0000,
{
    lemma_product_bound(a, 1 + j, 0x8_0000_0001);
    lemma_product_bound(b, 1 + i, 0x8_0000_0001);
}

} // verus!
