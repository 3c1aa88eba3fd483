//! Modules: fixed-width drawing units that a bar lays out side by side.

use vstd::prelude::*;
use crate::canvas::Canvas;
use crate::window::CanvasView;

verus! {

/// A drawing unit of fixed width. The bar hands it a canvas narrowed to the
/// module's own viewport.
///
/// An implementation draws only through the canvas it is given: it may not
/// replace the canvas by another one. What it may leave in its viewport is
/// stated by [`Module::draws`], over what the viewport showed before.
pub trait Module {
    /// The width of the module, in pixels. An implementation states it; one
    /// that does not has some width that nothing is known of.
    open spec fn width(&self) -> u32 {
        arbitrary()
    }

    /// Whether drawing this module may turn a viewport that shows `before`
    /// into one that shows `after`. Both map the coordinates of the viewport
    /// to pixels. An implementation that states nothing may draw anything.
    open spec fn draws(&self, before: Map<(int, int), u32>, after: Map<(int, int), u32>) -> bool {
        true
    }

    /// The width of the module, in pixels.
    fn get_width(&self) -> (width: u32)
        ensures
            width == self.width(),
    ;

    /// Draws the module on its viewport. Nothing outside the viewport
    /// changes.
    fn draw(&self, canvas: &mut Canvas)
        requires
            old(canvas)@.wf(),
        ensures
            final(canvas)@.same_outside(old(canvas)@),
            self.draws(old(canvas)@.visible(), final(canvas)@.visible()),
    ;
}

/// Where in the bar a run of modules is laid out.
#[derive(Clone, Copy, Debug, PartialEq, Eq, Structural)]
pub enum ModulePosition {
    Left,
    Center,
    Right,
}

/// An ordered run of modules. The order of insertion is the order of
/// painting and the order on screen, left to right.
pub struct Modules<M: Module> {
    modules: Vec<M>,
}

impl<M: Module> View for Modules<M> {
    type V = Seq<M>;

    closed spec fn view(&self) -> Seq<M> {
        self.modules@
    }
}

/// The sum of the widths of the first `count` modules: the column at which
/// module number `count` starts.
pub open spec fn widths_before<M: Module>(modules: Seq<M>, count: int) -> int
    decreases count,
{
    if count <= 0 {
        0
    } else {
        widths_before(modules, count - 1) + modules[count - 1].width()
    }
}

/// The width that a run of modules takes up.
pub open spec fn total_width<M: Module>(modules: Seq<M>) -> int {
    widths_before(modules, modules.len() as int)
}

/// The viewport that module number `index` of a run is drawn on: as high as
/// the canvas, as wide as the module, and starting at the column where the
/// module before it ends.
pub open spec fn viewport_of<M: Module>(c: CanvasView, modules: Seq<M>, index: int) -> CanvasView {
    c.view_at(widths_before(modules, index), 0, modules[index].width() as int, c.height as int)
}

impl<M: Module> Modules<M> {
    /// An empty run.
    pub fn new() -> (modules: Self)
        ensures
            modules@ == Seq::<M>::empty(),
    {
        Modules { modules: Vec::new() }
    }

    /// The run with `module` appended on the right.
    pub fn add(self, module: M) -> (modules: Self)
        ensures
            modules@ == self@.push(module),
    {
        let mut modules = self;
        modules.modules.push(module);
        modules
    }

    /// The number of modules in the run.
    pub fn len(&self) -> (count: usize)
        ensures
            count == self@.len(),
    {
        self.modules.len()
    }

    /// The module at position `index`, counted from the left.
    pub fn get(&self, index: usize) -> (module: Option<&M>)
        ensures
            module == if index < self@.len() {
                Some(&self@[index as int])
            } else {
                None
            },
    {
        if index < self.modules.len() {
            Some(&self.modules[index])
        } else {
            None
        }
    }

    /// Whether the run fits a bar of `limit` pixels: whether its total
    /// width is at most `limit`.
    pub fn fits(&self, limit: u32) -> (fits: bool)
        ensures
            fits == (total_width(self@) <= limit),
    {
        let mut taken: u64 = 0;
        let mut k: usize = 0;
        while k < self.modules.len()
            invariant
                k <= self.modules.len(),
                taken == widths_before(self@, k as int),
                taken <= limit,
            decreases self.modules.len() - k,
        {
            let width: u32 = self.modules[k].get_width();
            taken = taken + width as u64;
            k = k + 1;
            if taken > limit as u64 {
                proof {
                    lemma_widths_grow(self@, k as int, self@.len() as int);
                }
                return false;
            }
        }
        true
    }
}

/// Each module starts where the one before it ends, so the starting columns
/// never decrease along the run.
pub proof fn lemma_widths_grow<M: Module>(modules: Seq<M>, from: int, to: int)
    requires
        0 <= from <= to,
    ensures
        0 <= widths_before(modules, from) <= widths_before(modules, to),
    decreases to,
{
    if from < to {
        lemma_widths_grow(modules, from, to - 1);
    } else if from > 0 {
        lemma_widths_grow(modules, from - 1, to - 1);
    }
}

/// The viewports of a run tile the bar from its left edge: each starts in
/// the column where the one before it ends, so no two overlap and no column
/// is left out between them, and the last ends at the total width.
pub proof fn lemma_layout_tiles<M: Module>(modules: Seq<M>, first: int, second: int)
    requires
        0 <= first < second < modules.len(),
    ensures
        widths_before(modules, 0) == 0,
        widths_before(modules, first + 1) == widths_before(modules, first)
            + modules[first].width(),
        widths_before(modules, first) + modules[first].width() <= widths_before(modules, second),
        widths_before(modules, second) + modules[second].width() <= total_width(modules),
{
    lemma_widths_grow(modules, first + 1, second);
    lemma_widths_grow(modules, second + 1, modules.len() as int);
}

/// A module that takes up room and draws nothing.
pub struct SpacingModule {
    pub width: u32,
}

impl Module for SpacingModule {
    open spec fn width(&self) -> u32 {
        self.width
    }

    /// The viewport stays as it was.
    open spec fn draws(&self, before: Map<(int, int), u32>, after: Map<(int, int), u32>) -> bool {
        after == before
    }

    fn get_width(&self) -> (width: u32) {
        self.width
    }

    fn draw(&self, _canvas: &mut Canvas) {
    }
}

/// A module that fills its viewport with one color.
pub struct ColorModule {
    pub width: u32,
    pub color: u32,
}

impl Module for ColorModule {
    open spec fn width(&self) -> u32 {
        self.width
    }

    /// Every pixel of the viewport has the module's color.
    open spec fn draws(&self, before: Map<(int, int), u32>, after: Map<(int, int), u32>) -> bool {
        after == Map::new(|p: (int, int)| before.dom().contains(p), |p: (int, int)| self.color)
    }

    fn get_width(&self) -> (width: u32) {
        self.width
    }

    fn draw(&self, canvas: &mut Canvas) {
        canvas.fill(self.color);
        proof {
            assert(canvas@.visible() =~= Map::new(
                |p: (int, int)| old(canvas)@.visible().dom().contains(p),
                |p: (int, int)| self.color,
            ));
        }
    }
}

} // verus!
