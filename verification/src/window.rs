//! The mathematical model of a canvas and the algebra of painting on it.

use vstd::prelude::*;
use vstd::arithmetic::div_mod::lemma_fundamental_div_mod_converse;
use vstd::arithmetic::div_mod::lemma_fundamental_div_mod;

verus! {

/// A window of `width × height` pixels over a flat buffer of packed ARGB
/// values. Pixel `(x, y)` of the window lives at buffer index
/// `offset + x + y * stride`; all four quantities count pixels, not bytes.
pub struct CanvasView {
    pub width: nat,
    pub height: nat,
    pub offset: nat,
    pub stride: nat,
    pub buffer: Seq<u32>,
    pub background: u32,
}

impl CanvasView {
    /// The window fits a row (`width <= stride`) and its last pixel lies
    /// inside the buffer.
    pub open spec fn wf(self) -> bool {
        &&& self.width <= self.stride
        &&& (self.width > 0 && self.height > 0) ==> self.offset + (self.height - 1) * self.stride
            + self.width <= self.buffer.len()
    }

    /// Whether `(x, y)` is a coordinate of the window.
    pub open spec fn contains(self, x: int, y: int) -> bool {
        0 <= x < self.width && 0 <= y < self.height
    }

    /// The buffer index of window coordinate `(x, y)`.
    pub open spec fn index_of(self, x: int, y: int) -> int {
        self.offset + x + y * self.stride
    }

    /// The pixel seen through the window at `(x, y)`.
    pub open spec fn pixel(self, x: int, y: int) -> u32 {
        self.buffer[self.index_of(x, y)]
    }

    /// The window column that buffer index `i` would fall in.
    pub open spec fn col_of(self, i: int) -> int {
        (i - self.offset) % (self.stride as int)
    }

    /// The window row that buffer index `i` would fall in.
    pub open spec fn row_of(self, i: int) -> int {
        (i - self.offset) / (self.stride as int)
    }

    /// Whether buffer index `i` is visible through the window.
    pub open spec fn shows(self, i: int) -> bool {
        &&& self.stride > 0
        &&& i >= self.offset
        &&& self.contains(self.col_of(i), self.row_of(i))
    }

    /// The canvas after every visible pixel whose coordinate lies in `region`
    /// has been set to `color`. Nothing else changes.
    pub open spec fn painted(self, region: Set<(int, int)>, color: u32) -> CanvasView {
        CanvasView {
            buffer: Seq::new(
                self.buffer.len(),
                |i: int|
                    if self.shows(i) && region.contains((self.col_of(i), self.row_of(i))) {
                        color
                    } else {
                        self.buffer[i]
                    },
            ),
            ..self
        }
    }

    /// The canvas after a single clipped pixel write.
    pub open spec fn put(self, x: int, y: int, color: u32) -> CanvasView {
        if self.contains(x, y) {
            CanvasView { buffer: self.buffer.update(self.index_of(x, y), color), ..self }
        } else {
            self
        }
    }

    /// The viewport of `w × h` pixels whose top-left corner is `(x, y)` of
    /// this window. It shares the buffer and keeps the stride.
    pub open spec fn view_at(self, x: int, y: int, w: int, h: int) -> CanvasView {
        CanvasView {
            width: w as nat,
            height: h as nat,
            offset: (self.offset + x + y * self.stride) as nat,
            ..self
        }
    }

    /// Whether the `w × h` rectangle at `(x, y)` lies inside this window.
    pub open spec fn encloses(self, x: int, y: int, w: int, h: int) -> bool {
        0 <= x && 0 <= y && 0 <= w && 0 <= h && x + w <= self.width && y + h <= self.height
    }

    /// This canvas with the buffer of another one seen through it.
    pub open spec fn over(self, buffer: Seq<u32>) -> CanvasView {
        CanvasView { buffer, ..self }
    }

    /// What is visible through the window, by coordinate.
    pub open spec fn visible(self) -> Map<(int, int), u32> {
        Map::new(|p: (int, int)| self.contains(p.0, p.1), |p: (int, int)| self.pixel(p.0, p.1))
    }

    /// Same window geometry, same buffer length, same background.
    pub open spec fn same_shape(self, other: CanvasView) -> bool {
        &&& self.width == other.width
        &&& self.height == other.height
        &&& self.offset == other.offset
        &&& self.stride == other.stride
        &&& self.background == other.background
        &&& self.buffer.len() == other.buffer.len()
    }

    /// `self` differs from `before` at most in pixels visible through the
    /// window: every buffer cell outside the window is as it was.
    pub open spec fn same_outside(self, before: CanvasView) -> bool {
        &&& self.same_shape(before)
        &&& forall|i: int|
            0 <= i < before.buffer.len() && !before.shows(i) ==> self.buffer[i]
                == #[trigger] before.buffer[i]
    }
}

/// A visible coordinate maps to a buffer index inside the buffer, and that
/// index maps back to the same coordinate.
pub proof fn lemma_index_shown(c: CanvasView, x: int, y: int)
    requires
        c.wf(),
        c.contains(x, y),
    ensures
        0 <= c.index_of(x, y) < c.buffer.len(),
        c.shows(c.index_of(x, y)),
        c.col_of(c.index_of(x, y)) == x,
        c.row_of(c.index_of(x, y)) == y,
{
    let s = c.stride as int;
    assert(y * s <= (c.height - 1) * s) by (nonlinear_arith)
        requires
            y <= c.height - 1,
            s >= 0,
    ;
    assert(y * s >= 0) by (nonlinear_arith)
        requires
            y >= 0,
            s >= 0,
    ;
    assert(x + y * s == y * s + x);
    lemma_fundamental_div_mod_converse(x + y * s, s, y, x);
}

/// A shown buffer index is the index of its own column and row.
pub proof fn lemma_shown_index(c: CanvasView, i: int)
    requires
        c.shows(i),
    ensures
        c.contains(c.col_of(i), c.row_of(i)),
        c.index_of(c.col_of(i), c.row_of(i)) == i,
{
    let s = c.stride as int;
    lemma_fundamental_div_mod(i - c.offset, s);
    assert(s * ((i - c.offset) / s) == ((i - c.offset) / s) * s) by (nonlinear_arith);
}

/// A clipped pixel write leaves the geometry alone and touches only a
/// visible cell.
pub proof fn lemma_put_frame(c: CanvasView, x: int, y: int, color: u32)
    requires
        c.wf(),
    ensures
        c.put(x, y, color).same_outside(c),
        c.put(x, y, color).wf(),
{
    if c.contains(x, y) {
        lemma_index_shown(c, x, y);
    }
}

/// Painting leaves the geometry alone and touches only visible cells.
pub proof fn lemma_painted_frame(c: CanvasView, region: Set<(int, int)>, color: u32)
    ensures
        c.painted(region, color).same_outside(c),
        c.wf() ==> c.painted(region, color).wf(),
{
}

/// What painting does to each visible pixel: those of the region take the
/// color, the others keep theirs.
pub proof fn lemma_painted_pixel(c: CanvasView, region: Set<(int, int)>, color: u32, x: int, y: int)
    requires
        c.wf(),
        c.contains(x, y),
    ensures
        c.painted(region, color).pixel(x, y) == if region.contains((x, y)) {
            color
        } else {
            c.pixel(x, y)
        },
{
    lemma_index_shown(c, x, y);
}

/// Regions that agree on every coordinate of the window paint alike.
pub proof fn lemma_painted_agree(
    c: CanvasView,
    first: Set<(int, int)>,
    second: Set<(int, int)>,
    color: u32,
)
    requires
        forall|x: int, y: int|
            c.contains(x, y) ==> (first.contains((x, y)) <==> second.contains((x, y))),
    ensures
        c.painted(first, color) == c.painted(second, color),
{
    assert(c.painted(first, color).buffer =~= c.painted(second, color).buffer);
}

/// Painting nothing changes nothing.
pub proof fn lemma_painted_empty(c: CanvasView, color: u32)
    ensures
        c.painted(Set::empty(), color) == c,
{
    assert(c.painted(Set::empty(), color).buffer =~= c.buffer);
}

/// Painting two regions in turn with one color paints their union.
pub proof fn lemma_painted_union(
    c: CanvasView,
    first: Set<(int, int)>,
    second: Set<(int, int)>,
    color: u32,
)
    ensures
        c.painted(first, color).painted(second, color) == c.painted(first.union(second), color),
{
    assert(c.painted(first, color).painted(second, color).buffer =~= c.painted(
        first.union(second),
        color,
    ).buffer);
}

/// A clipped pixel write after painting a region paints the region with that
/// coordinate added.
pub proof fn lemma_painted_put(c: CanvasView, region: Set<(int, int)>, color: u32, x: int, y: int)
    requires
        c.wf(),
    ensures
        c.painted(region, color).put(x, y, color) == c.painted(region.insert((x, y)), color),
{
    let before = c.painted(region, color);
    let after = c.painted(region.insert((x, y)), color);
    if c.contains(x, y) {
        lemma_index_shown(c, x, y);
        assert forall|i: int| 0 <= i < c.buffer.len() implies before.put(x, y, color).buffer[i]
            == after.buffer[i] by {
            if c.shows(i) {
                lemma_shown_index(c, i);
            }
        }
        assert(before.put(x, y, color).buffer =~= after.buffer);
    } else {
        assert forall|i: int| 0 <= i < c.buffer.len() implies before.buffer[i]
            == after.buffer[i] by {
            if c.shows(i) {
                lemma_shown_index(c, i);
            }
        }
        assert(before.buffer =~= after.buffer);
    }
}

/// Whether two rectangles have no coordinate in common.
pub open spec fn apart(
    x1: int,
    y1: int,
    w1: int,
    h1: int,
    x2: int,
    y2: int,
    w2: int,
    h2: int,
) -> bool {
    x1 + w1 <= x2 || x2 + w2 <= x1 || y1 + h1 <= y2 || y2 + h2 <= y1
}

/// A viewport inside the window is itself well formed, and addresses the
/// same buffer cells as the window does at the shifted coordinates.
pub proof fn lemma_view_at(c: CanvasView, x: int, y: int, w: int, h: int)
    requires
        c.wf(),
        c.encloses(x, y, w, h),
    ensures
        c.view_at(x, y, w, h).wf(),
        forall|qx: int, qy: int| #[trigger]
            c.view_at(x, y, w, h).index_of(qx, qy) == c.index_of(x + qx, y + qy),
        forall|qx: int, qy: int| #[trigger]
            c.view_at(x, y, w, h).pixel(qx, qy) == c.pixel(x + qx, y + qy),
{
    let v = c.view_at(x, y, w, h);
    let s = c.stride as int;
    assert(y * s >= 0) by (nonlinear_arith)
        requires
            y >= 0,
            s >= 0,
    ;
    assert forall|qx: int, qy: int| #[trigger] v.index_of(qx, qy) == c.index_of(x + qx, y + qy) by {
        assert((y + qy) * s == y * s + qy * s) by (nonlinear_arith);
    }
    if w > 0 && h > 0 {
        assert((y + (h - 1)) * s == y * s + (h - 1) * s) by (nonlinear_arith);
        assert((y + (h - 1)) * s <= (c.height - 1) * s) by (nonlinear_arith)
            requires
                y + (h - 1) <= c.height - 1,
                s >= 0,
        ;
    }
}

/// Of the cells that the window shows, a viewport inside it shows exactly
/// those whose coordinate lies in the viewport's rectangle.
pub proof fn lemma_view_shows(c: CanvasView, x: int, y: int, w: int, h: int, px: int, py: int)
    requires
        c.wf(),
        c.encloses(x, y, w, h),
        c.contains(px, py),
    ensures
        c.view_at(x, y, w, h).shows(c.index_of(px, py)) <==> (x <= px < x + w && y <= py < y + h),
{
    let v = c.view_at(x, y, w, h);
    let i = c.index_of(px, py);
    lemma_view_at(c, x, y, w, h);
    lemma_index_shown(c, px, py);
    if x <= px < x + w && y <= py < y + h {
        assert(v.index_of(px - x, py - y) == c.index_of(x + (px - x), y + (py - y)));
        lemma_index_shown(v, px - x, py - y);
    }
    if v.shows(i) {
        lemma_shown_index(v, i);
        let qx = v.col_of(i);
        let qy = v.row_of(i);
        assert(v.index_of(qx, qy) == c.index_of(x + qx, y + qy));
        lemma_index_shown(c, x + qx, y + qy);
    }
}

/// A viewport inside the window shows only cells that the window shows.
pub proof fn lemma_view_within(c: CanvasView, x: int, y: int, w: int, h: int, i: int)
    requires
        c.wf(),
        c.encloses(x, y, w, h),
        c.view_at(x, y, w, h).shows(i),
    ensures
        c.shows(i),
{
    let v = c.view_at(x, y, w, h);
    lemma_view_at(c, x, y, w, h);
    lemma_shown_index(v, i);
    let qx = v.col_of(i);
    let qy = v.row_of(i);
    assert(v.index_of(qx, qy) == c.index_of(x + qx, y + qy));
    lemma_index_shown(c, x + qx, y + qy);
}

/// Writing through a viewport, seen from the window it was taken from: the
/// window keeps its shape, shows the viewport's new content inside the
/// viewport's rectangle, and is unchanged everywhere else.
pub proof fn lemma_view_written(c: CanvasView, x: int, y: int, w: int, h: int, after: CanvasView)
    requires
        c.wf(),
        c.encloses(x, y, w, h),
        after.same_outside(c.view_at(x, y, w, h)),
    ensures
        c.over(after.buffer).wf(),
        c.over(after.buffer).same_outside(c),
        c.over(after.buffer).view_at(x, y, w, h) == after,
        forall|px: int, py: int|
            c.contains(px, py) && !(x <= px < x + w && y <= py < y + h) ==> #[trigger] c.over(
                after.buffer,
            ).pixel(px, py) == c.pixel(px, py),
{
    let v = c.view_at(x, y, w, h);
    let c2 = c.over(after.buffer);
    assert forall|i: int| 0 <= i < c.buffer.len() && !c.shows(i) implies c2.buffer[i]
        == #[trigger] c.buffer[i] by {
        if v.shows(i) {
            lemma_view_within(c, x, y, w, h, i);
        }
    }
    assert forall|px: int, py: int|
        c.contains(px, py) && !(x <= px < x + w && y <= py < y + h) implies #[trigger] c2.pixel(
        px,
        py,
    ) == c.pixel(px, py) by {
        lemma_index_shown(c, px, py);
        lemma_view_shows(c, x, y, w, h, px, py);
    }
}

/// Viewport isolation. Take two viewports of one canvas, both inside its
/// window and with no coordinate in common. Whatever is written through the
/// first, changing at most what the first shows, every pixel visible through
/// the second stays as it was.
pub proof fn lemma_viewport_isolation(
    c: CanvasView,
    x1: int,
    y1: int,
    w1: int,
    h1: int,
    x2: int,
    y2: int,
    w2: int,
    h2: int,
    after: CanvasView,
)
    requires
        c.wf(),
        c.encloses(x1, y1, w1, h1),
        c.encloses(x2, y2, w2, h2),
        apart(x1, y1, w1, h1, x2, y2, w2, h2),
        after.same_outside(c.view_at(x1, y1, w1, h1)),
    ensures
        c.over(after.buffer).view_at(x2, y2, w2, h2).visible() == c.view_at(
            x2,
            y2,
            w2,
            h2,
        ).visible(),
{
    let first = c.view_at(x1, y1, w1, h1);
    let second = c.view_at(x2, y2, w2, h2);
    let second_after = c.over(after.buffer).view_at(x2, y2, w2, h2);
    lemma_view_at(c, x2, y2, w2, h2);
    assert forall|qx: int, qy: int| second.contains(qx, qy) implies second_after.pixel(qx, qy)
        == second.pixel(qx, qy) by {
        lemma_index_shown(c, x2 + qx, y2 + qy);
        lemma_view_shows(c, x1, y1, w1, h1, x2 + qx, y2 + qy);
        assert(second.index_of(qx, qy) == c.index_of(x2 + qx, y2 + qy));
    }
    assert(second_after.visible() =~= second.visible());
}

} // verus!
