//! Module layout: one viewport for each module, side by side.

use vstd::prelude::*;
use crate::canvas::Canvas;
use crate::canvas::CanvasError;
use crate::modules::Module;
use crate::modules::ModulePosition;
use crate::modules::Modules;
use crate::modules::lemma_widths_grow;
use crate::modules::total_width;
use crate::modules::viewport_of;
use crate::modules::widths_before;
use crate::window::CanvasView;
use crate::window::lemma_view_at;
use crate::window::lemma_view_written;
use crate::window::lemma_viewport_isolation;

verus! {

impl Canvas {
    /// Narrows the canvas to the viewport of `width × height` pixels whose
    /// top-left corner is `(x, y)` of the window. The viewport addresses the
    /// same buffer with the same stride; its offset is the buffer index of
    /// `(x, y)`.
    fn subcanvas(&mut self, x: u32, y: u32, width: u32, height: u32)
        requires
            old(self)@.encloses(x as int, y as int, width as int, height as int),
        ensures
            final(self)@ == old(self)@.view_at(x as int, y as int, width as int, height as int),
    {
        proof {
            use_type_invariant(&*self);
            lemma_view_at(self@, x as int, y as int, width as int, height as int);
            let s = self.stride as int;
            assert(0 <= y * s && y * s + height * s <= self.height * s) by (nonlinear_arith)
                requires
                    0 <= y,
                    0 <= height,
                    y + height <= self.height,
                    0 <= s,
            ;
            assert(height > 0 ==> (height - 1) * s <= (self.height - 1) * s) by (nonlinear_arith)
                requires
                    height <= self.height,
                    0 <= s,
            ;
        }
        let down: u64 = y as u64 * self.stride as u64;
        self.width = width;
        self.height = height;
        self.offset = self.offset + x as u64 + down;
    }

    /// Widens a viewport back to the window it was taken from, which began
    /// at buffer index `offset` and was `width × height` pixels large.
    fn restore(&mut self, offset: u64, width: u32, height: u32)
        requires
            old(self)@.width <= width,
            old(self)@.height <= height,
            offset <= old(self)@.offset,
            offset + height * old(self)@.stride + width <= 0x2_0000_0000,
            (CanvasView {
                offset: offset as nat,
                width: width as nat,
                height: height as nat,
                ..old(self)@
            }).wf(),
        ensures
            final(self)@ == (CanvasView {
                offset: offset as nat,
                width: width as nat,
                height: height as nat,
                ..old(self)@
            }),
    {
        proof {
            use_type_invariant(&*self);
            let s = self.stride as int;
            assert(self.height * s <= height * s) by (nonlinear_arith)
                requires
                    self.height <= height,
                    0 <= s,
            ;
            assert(self.height > 0 ==> (self.height - 1) * s <= (height - 1) * s)
                by (nonlinear_arith)
                requires
                    self.height <= height,
                    0 <= s,
            ;
        }
        self.offset = offset;
        self.width = width;
        self.height = height;
    }

    /// Lays a run of modules out from the left edge and draws each on its
    /// own viewport: module `k` gets the full height of the canvas and the
    /// columns from the end of module `k - 1` to its own width further on.
    ///
    /// Only `ModulePosition::Left` is implemented; any other position is
    /// turned down with `UnsupportedLayout`. A run wider than the canvas is
    /// turned down with `InvalidGeometry`. A request turned down leaves the
    /// canvas untouched.
    pub fn draw_modules<M: Module>(&mut self, modules: &Modules<M>, position: ModulePosition) -> (result:
        Result<(), CanvasError>)
        ensures
            match result {
                Ok(()) => {
                    &&& position == ModulePosition::Left
                    &&& total_width(modules@) <= old(self)@.width
                    &&& final(self)@.same_outside(old(self)@)
                    &&& forall|k: int|
                        0 <= k < modules@.len() ==> (#[trigger] modules@[k]).draws(
                            viewport_of(old(self)@, modules@, k).visible(),
                            viewport_of(final(self)@, modules@, k).visible(),
                        )
                    &&& forall|px: int, py: int|
                        old(self)@.contains(px, py) && px >= total_width(modules@)
                            ==> #[trigger] final(self)@.pixel(px, py) == old(self)@.pixel(px, py)
                },
                Err(CanvasError::UnsupportedLayout) => {
                    &&& position != ModulePosition::Left
                    &&& final(self)@ == old(self)@
                },
                Err(CanvasError::InvalidGeometry) => {
                    &&& position == ModulePosition::Left
                    &&& total_width(modules@) > old(self)@.width
                    &&& final(self)@ == old(self)@
                },
            },
    {
        proof {
            use_type_invariant(&*self);
        }
        match position {
            ModulePosition::Left => {},
            _ => {
                return Err(CanvasError::UnsupportedLayout);
            },
        }
        if !modules.fits(self.width) {
            return Err(CanvasError::InvalidGeometry);
        }
        let ghost start = self@;
        let ghost run = modules@;
        let parent_width: u32 = self.width;
        let parent_offset: u64 = self.offset;
        let parent_height: u32 = self.height;
        let mut cursor: u32 = 0;
        let mut k: usize = 0;
        while k < modules.len()
            invariant
                start.wf(),
                run == modules@,
                total_width(run) <= start.width,
                k <= run.len(),
                cursor == widths_before(run, k as int),
                parent_width == start.width,
                parent_offset == start.offset,
                parent_height == start.height,
                self@.same_outside(start),
                forall|i: int|
                    0 <= i < k ==> (#[trigger] run[i]).draws(
                        viewport_of(start, run, i).visible(),
                        viewport_of(self@, run, i).visible(),
                    ),
                forall|px: int, py: int|
                    start.contains(px, py) && px >= cursor ==> #[trigger] self@.pixel(px, py)
                        == start.pixel(px, py),
            decreases run.len() - k,
        {
            let module: &M = match modules.get(k) {
                Some(module) => module,
                None => {
                    return Ok(());
                },
            };
            let width: u32 = module.get_width();
            let ghost whole = self@;
            let ghost h = start.height as int;
            proof {
                use_type_invariant(&*self);
                lemma_widths_grow(run, k + 1, run.len() as int);
                lemma_view_at(whole, cursor as int, 0, width as int, h);
            }
            self.subcanvas(cursor, 0, width, parent_height);
            let ghost narrow = self@;
            module.draw(self);
            let ghost after = self@;
            proof {
                lemma_view_written(whole, cursor as int, 0, width as int, h, after);
            }
            self.restore(parent_offset, parent_width, parent_height);
            proof {
                let merged = whole.over(after.buffer);
                assert(self@ == merged);
                assert(narrow.visible() =~= viewport_of(start, run, k as int).visible());
                assert(viewport_of(merged, run, k as int) == after);
                assert forall|i: int| 0 <= i < k implies (#[trigger] run[i]).draws(
                    viewport_of(start, run, i).visible(),
                    viewport_of(merged, run, i).visible(),
                ) by {
                    lemma_widths_grow(run, 0, i);
                    lemma_widths_grow(run, i + 1, k as int);
                    lemma_viewport_isolation(
                        whole,
                        cursor as int,
                        0,
                        width as int,
                        h,
                        widths_before(run, i),
                        0,
                        run[i].width() as int,
                        h,
                        after,
                    );
                }
            }
            cursor = cursor + width;
            k = k + 1;
        }
        Ok(())
    }
}

} // verus!
