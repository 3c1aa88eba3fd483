//! The regions of the plane that the drawing primitives paint, as sets of
//! integer coordinates.

use vstd::prelude::*;

verus! {

/// The `w × h` rectangle whose top-left corner is `(x, y)`.
pub open spec fn rect(x: int, y: int, w: int, h: int) -> Set<(int, int)> {
    Set::new(|p: (int, int)| x <= p.0 < x + w && y <= p.1 < y + h)
}

/// The border of the `w × h` rectangle at `(x, y)`: its first and last
/// column and its first and last row.
pub open spec fn outline(x: int, y: int, w: int, h: int) -> Set<(int, int)> {
    Set::new(
        |p: (int, int)|
            rect(x, y, w, h).contains(p) && (p.0 == x || p.0 == x + w - 1 || p.1 == y || p.1 == y
                + h - 1),
    )
}

/// How far the offset `(dx, dy)` from the center of an ellipse with radii
/// `rx` and `ry` lies outside it, by the integer relation
/// `dx²·ry² + dy²·rx² − (rx·ry)²`: negative inside, zero on the boundary.
pub open spec fn ellipse_excess(dx: int, dy: int, rx: int, ry: int) -> int {
    (dx * dx) * (ry * ry) + (dy * dy) * (rx * rx) - (rx * ry) * (rx * ry)
}

/// The solid oval inscribed in the `w × h` bounding box at `(x, y)`: the
/// coordinates of the box that lie inside or on the ellipse with radii
/// `w / 2` and `h / 2` centered at `(x + w / 2, y + h / 2)`.
pub open spec fn oval(x: int, y: int, w: int, h: int) -> Set<(int, int)> {
    Set::new(
        |p: (int, int)|
            rect(x, y, w, h).contains(p) && ellipse_excess(
                p.0 - x - w / 2,
                p.1 - y - h / 2,
                w / 2,
                h / 2,
            ) <= 0,
    )
}

/// The coordinates of the `w × h` bounding box at `(x, y)` that lie exactly
/// on the ellipse. For many radii only a few integer points do.
pub open spec fn ring(x: int, y: int, w: int, h: int) -> Set<(int, int)> {
    Set::new(
        |p: (int, int)|
            rect(x, y, w, h).contains(p) && ellipse_excess(
                p.0 - x - w / 2,
                p.1 - y - h / 2,
                w / 2,
                h / 2,
            ) == 0,
    )
}

/// The corner radius that a rounded rectangle of `w × h` pixels really gets:
/// the requested one, held to half the width and half the height.
pub open spec fn corner_radius(w: int, h: int, radius: int) -> int {
    let half_w = w / 2;
    let half_h = h / 2;
    if radius <= half_w && radius <= half_h {
        radius
    } else if half_w <= half_h {
        half_w
    } else {
        half_h
    }
}

/// The filled rounded rectangle of `w × h` pixels at `(x, y)`. With radius
/// zero it is the plain rectangle. Otherwise it is the union of four disks
/// of the clamped radius, one in each corner, the strips between them along
/// the four sides, and the rectangle in the middle.
pub open spec fn rounded(x: int, y: int, w: int, h: int, radius: int) -> Set<(int, int)> {
    if radius == 0 {
        rect(x, y, w, h)
    } else {
        let r = corner_radius(w, h, radius);
        oval(x, y, 2 * r, 2 * r).union(oval(x + w - 2 * r, y, 2 * r, 2 * r)).union(
            oval(x, y + h - 2 * r, 2 * r, 2 * r),
        ).union(oval(x + w - 2 * r, y + h - 2 * r, 2 * r, 2 * r)).union(
            rect(x + r, y, w - 2 * r, r),
        ).union(rect(x + r, y + h - r, w - 2 * r, r)).union(rect(x, y + r, r, h - 2 * r)).union(
            rect(x + w - r, y + r, r, h - 2 * r),
        ).union(rect(x + r, y + r, w - 2 * r, h - 2 * r))
    }
}

/// The error term of the line walk after `i` steps along x and `j` steps
/// along y, for a line that spans `a` columns and `b` rows. It starts at
/// `a - b`, loses `b` with each step along x and gains `a` with each step
/// along y.
pub open spec fn line_error(a: int, b: int, i: int, j: int) -> int {
    a * (1 + j) - b * (1 + i)
}

/// The positions that the integer line walk visits from `(i, j)` on, before
/// it arrives at `(a, b)`, as steps taken from the start along each axis.
/// At each position the walk steps along x if twice the error is at least
/// `-b`, and along y if twice the error is at most `a`. The position
/// `(a, b)` itself is never visited.
pub open spec fn walk(a: int, b: int, i: int, j: int) -> Set<(int, int)>
    decreases a - i + b - j + 1,
{
    if 0 <= i <= a && 0 <= j <= b && !(i == a && j == b) {
        let twice = 2 * line_error(a, b, i, j);
        walk(
            a,
            b,
            if twice >= -b {
                i + 1
            } else {
                i
            },
            if twice <= a {
                j + 1
            } else {
                j
            },
        ).insert((i, j))
    } else {
        Set::empty()
    }
}

/// The distance between two integers.
pub open spec fn span(from: int, to: int) -> int {
    if from < to {
        to - from
    } else {
        from - to
    }
}

/// The coordinates whose steps from `(x0, y0)` towards `(x1, y1)`, counted
/// along each axis, are in `steps`.
pub open spec fn along(x0: int, y0: int, x1: int, y1: int, steps: Set<(int, int)>) -> Set<
    (int, int),
> {
    Set::new(
        |p: (int, int)|
            steps.contains(
                (
                    if x0 < x1 {
                        p.0 - x0
                    } else {
                        x0 - p.0
                    },
                    if y0 < y1 {
                        p.1 - y0
                    } else {
                        y0 - p.1
                    },
                ),
            ),
    )
}

/// The coordinates that a line from `(x0, y0)` to `(x1, y1)` colors: every
/// point of the walk from the start towards the end, the end excluded.
pub open spec fn line(x0: int, y0: int, x1: int, y1: int) -> Set<(int, int)> {
    along(x0, y0, x1, y1, walk(span(x0, x1), span(y0, y1), 0, 0))
}

/// One step of the line walk: the walk always moves, never leaves the box
/// spanned by start and end, and the error term follows the steps.
pub proof fn lemma_walk_step(a: int, b: int, i: int, j: int)
    requires
        0 <= i <= a,
        0 <= j <= b,
        !(i == a && j == b),
    ensures
        2 * line_error(a, b, i, j) >= -b || 2 * line_error(a, b, i, j) <= a,
        2 * line_error(a, b, i, j) >= -b ==> i < a,
        2 * line_error(a, b, i, j) <= a ==> j < b,
        line_error(a, b, i + 1, j) == line_error(a, b, i, j) - b,
        line_error(a, b, i, j + 1) == line_error(a, b, i, j) + a,
        line_error(a, b, i + 1, j + 1) == line_error(a, b, i, j) - b + a,
{
    assert(a * (1 + (j + 1)) == a * (1 + j) + a) by (nonlinear_arith);
    assert(b * (1 + (i + 1)) == b * (1 + i) + b) by (nonlinear_arith);
    if i == a {
        assert(a * (1 + j) <= a * b) by (nonlinear_arith)
            requires
                0 <= a,
                1 + j <= b,
        ;
        assert(b * (1 + a) == b + a * b) by (nonlinear_arith);
    }
    if j == b {
        assert(b * (1 + i) <= b * a) by (nonlinear_arith)
            requires
                0 <= b,
                1 + i <= a,
        ;
        assert(a * (1 + b) == a + b * a) by (nonlinear_arith);
    }
}

/// The approximate outline of a rounded rectangle of `w × h` pixels at
/// `(x, y)` with corner arcs of `arc_w × arc_h`: the four straight edges, each
/// inset by the arc at both ends, and one marker pixel in each corner where
/// an arc would run. The edges are lines, so each misses its far end.
pub open spec fn rounded_outline(x: int, y: int, w: int, h: int, arc_w: int, arc_h: int) -> Set<
    (int, int),
> {
    line(x + arc_w, y, x + w - arc_w, y).union(
        line(x + arc_w, y + h - 1, x + w - arc_w, y + h - 1),
    ).union(line(x, y + arc_h, x, y + h - arc_h)).union(
        line(x + w - 1, y + arc_h, x + w - 1, y + h - arc_h),
    ).insert((x + arc_w - 1, y + arc_h - 1)).insert((x + w - arc_w, y + arc_h - 1)).insert(
        (x + arc_w - 1, y + h - arc_h),
    ).insert((x + w - arc_w, y + h - arc_h))
}

/// The part of the columns `x_lo..x_hi` that a row-by-row scan starting at
/// row `y_lo` has passed when it stands at column `i` of row `j`.
pub open spec fn scanned(x_lo: int, x_hi: int, y_lo: int, j: int, i: int) -> Set<(int, int)> {
    Set::new(|p: (int, int)| x_lo <= p.0 < x_hi && (y_lo <= p.1 < j || (p.1 == j && p.0 < i)))
}

/// A rounded rectangle with radius zero is the plain rectangle.
pub proof fn lemma_rounded_sharp(x: int, y: int, w: int, h: int)
    ensures
        rounded(x, y, w, h, 0) == rect(x, y, w, h),
{
}

/// A rounded rectangle never leaves the rectangle it rounds off.
pub proof fn lemma_rounded_within(x: int, y: int, w: int, h: int, radius: int)
    requires
        0 <= w,
        0 <= h,
        0 <= radius,
    ensures
        rounded(x, y, w, h, radius).subset_of(rect(x, y, w, h)),
{
}

/// An oval in a bounding box of odd width and odd height is symmetric under
/// a half turn about its center: a coordinate belongs to it exactly if its
/// mirror image through the center `(x + w / 2, y + h / 2)` does. A disk of
/// radius `r` is the oval of the box of `2r + 1` by `2r + 1`.
pub proof fn lemma_oval_symmetric(x: int, y: int, w: int, h: int, px: int, py: int)
    requires
        0 <= w,
        0 <= h,
        w % 2 == 1,
        h % 2 == 1,
    ensures
        oval(x, y, w, h).contains((px, py)) <==> oval(x, y, w, h).contains(
            (2 * (x + w / 2) - px, 2 * (y + h / 2) - py),
        ),
{
    let dx = px - x - w / 2;
    let dy = py - y - h / 2;
    assert((-dx) * (-dx) == dx * dx) by (nonlinear_arith);
    assert((-dy) * (-dy) == dy * dy) by (nonlinear_arith);
    assert(2 * (x + w / 2) - px - x - w / 2 == -dx);
    assert(2 * (y + h / 2) - py - y - h / 2 == -dy);
}

/// A disk is what its name says: the oval of the box of `2r + 1` by
/// `2r + 1` around `(cx, cy)` holds exactly the coordinates whose distance
/// from the center is at most `r`.
pub proof fn lemma_oval_is_disk(cx: int, cy: int, r: int, px: int, py: int)
    requires
        r > 0,
    ensures
        oval(cx - r, cy - r, 2 * r + 1, 2 * r + 1).contains((px, py)) <==> (px - cx) * (px - cx)
            + (py - cy) * (py - cy) <= r * r,
{
    let dx = px - cx;
    let dy = py - cy;
    assert((2 * r + 1) / 2 == r);
    assert(px - (cx - r) - r == dx);
    assert(py - (cy - r) - r == dy);
    assert(ellipse_excess(dx, dy, r, r) == (r * r) * (dx * dx + dy * dy - r * r))
        by (nonlinear_arith);
    assert(r * r > 0) by (nonlinear_arith)
        requires
            r > 0,
    ;
    assert(ellipse_excess(dx, dy, r, r) <= 0 <==> dx * dx + dy * dy <= r * r) by (nonlinear_arith)
        requires
            ellipse_excess(dx, dy, r, r) == (r * r) * (dx * dx + dy * dy - r * r),
            r * r > 0,
    ;
    if dx * dx + dy * dy <= r * r {
        assert(-r <= dx <= r) by (nonlinear_arith)
            requires
                dx * dx + dy * dy <= r * r,
                r > 0,
        ;
        assert(-r <= dy <= r) by (nonlinear_arith)
            requires
                dx * dx + dy * dy <= r * r,
                r > 0,
        ;
    }
}

/// The walk never visits the position at which it ends.
pub proof fn lemma_walk_stops_short(a: int, b: int, i: int, j: int)
    ensures
        !walk(a, b, i, j).contains((a, b)),
    decreases a - i + b - j + 1,
{
    if 0 <= i <= a && 0 <= j <= b && !(i == a && j == b) {
        let twice = 2 * line_error(a, b, i, j);
        lemma_walk_stops_short(
            a,
            b,
            if twice >= -b {
                i + 1
            } else {
                i
            },
            if twice <= a {
                j + 1
            } else {
                j
            },
        );
    }
}

/// A line never colors its end point.
pub proof fn lemma_line_excludes_end(x0: int, y0: int, x1: int, y1: int)
    ensures
        !line(x0, y0, x1, y1).contains((x1, y1)),
{
    lemma_walk_stops_short(span(x0, x1), span(y0, y1), 0, 0);
}

/// A line whose ends differ colors its start point.
pub proof fn lemma_line_includes_start(x0: int, y0: int, x1: int, y1: int)
    requires
        x0 != x1 || y0 != y1,
    ensures
        line(x0, y0, x1, y1).contains((x0, y0)),
{
}

/// Along a level stretch the walk visits every column from where it stands
/// up to the last but one.
pub proof fn lemma_walk_level(a: int, i: int)
    requires
        0 <= i <= a,
    ensures
        walk(a, 0, i, 0) == Set::new(|p: (int, int)| i <= p.0 < a && p.1 == 0),
    decreases a - i,
{
    if i < a {
        assert(line_error(a, 0, i, 0) == a) by (nonlinear_arith);
        lemma_walk_level(a, i + 1);
        assert(walk(a, 0, i, 0) == walk(a, 0, i + 1, 0).insert((i, 0)));
    }
    assert(walk(a, 0, i, 0) =~= Set::new(|p: (int, int)| i <= p.0 < a && p.1 == 0));
}

/// Along an upright stretch the walk visits every row from where it stands
/// up to the last but one.
pub proof fn lemma_walk_upright(b: int, j: int)
    requires
        0 <= j <= b,
    ensures
        walk(0, b, 0, j) == Set::new(|p: (int, int)| p.0 == 0 && j <= p.1 < b),
    decreases b - j,
{
    if j < b {
        assert(line_error(0, b, 0, j) == -b) by (nonlinear_arith);
        lemma_walk_upright(b, j + 1);
        assert(walk(0, b, 0, j) == walk(0, b, 0, j + 1).insert((0, j)));
    }
    assert(walk(0, b, 0, j) =~= Set::new(|p: (int, int)| p.0 == 0 && j <= p.1 < b));
}

/// A vertical line colors the rows from its start towards its end, the
/// start included and the end excluded, in its own column and nowhere else.
pub proof fn lemma_line_vertical(x: int, y0: int, y1: int)
    ensures
        line(x, y0, x, y1) == Set::new(
            |p: (int, int)|
                p.0 == x && if y0 < y1 {
                    y0 <= p.1 < y1
                } else {
                    y1 < p.1 <= y0
                },
        ),
{
    lemma_walk_upright(span(y0, y1), 0);
    assert(line(x, y0, x, y1) =~= Set::new(
        |p: (int, int)|
            p.0 == x && if y0 < y1 {
                y0 <= p.1 < y1
            } else {
                y1 < p.1 <= y0
            },
    ));
}

/// A horizontal line colors the columns from its start towards its end, the
/// start included and the end excluded, on its own row and nowhere else.
pub proof fn lemma_line_horizontal(x0: int, x1: int, y: int)
    ensures
        line(x0, y, x1, y) == Set::new(
            |p: (int, int)|
                p.1 == y && if x0 < x1 {
                    x0 <= p.0 < x1
                } else {
                    x1 < p.0 <= x0
                },
        ),
{
    lemma_walk_level(span(x0, x1), 0);
    assert(line(x0, y, x1, y) =~= Set::new(
        |p: (int, int)|
            p.1 == y && if x0 < x1 {
                x0 <= p.0 < x1
            } else {
                x1 < p.0 <= x0
            },
    ));
}

} // verus!
