//! The pixel canvas: its buffer, its window, and single pixels.

use vstd::prelude::*;
use crate::window::CanvasView;
use crate::window::lemma_index_shown;
use crate::window::lemma_put_frame;

mod fill;
mod layout;
mod lines;
mod ovals;
mod text;

verus! {

/// Why a drawing request was turned down.
#[derive(Clone, Copy, Debug, PartialEq, Eq, Structural)]
pub enum CanvasError {
    /// The requested module alignment is not implemented.
    UnsupportedLayout,
    /// The modules are wider than the canvas they are to be laid out on.
    InvalidGeometry,
}

/// A window onto a buffer of packed 32-bit ARGB pixels.
///
/// The canvas made by [`Canvas::new`] covers its whole buffer. While a module
/// is drawn the canvas is narrowed to the module's viewport, which addresses
/// the same buffer through an offset and the unchanged stride; no pixel is
/// ever copied.
pub struct Canvas {
    width: u32,
    height: u32,
    offset: u64,
    stride: u32,
    pixels: Vec<u32>,
    background_color: u32,
}

impl View for Canvas {
    type V = CanvasView;

    closed spec fn view(&self) -> CanvasView {
        CanvasView {
            width: self.width as nat,
            height: self.height as nat,
            offset: self.offset as nat,
            stride: self.stride as nat,
            buffer: self.pixels@,
            background: self.background_color,
        }
    }
}

impl Canvas {
    #[verifier::type_invariant]
    spec fn inv(self) -> bool {
        &&& self@.wf()
        &&& self.pixels@.len() <= u32::MAX
        &&& self.offset + self.height * self.stride + self.width <= 0x2_0000_0000
    }

    /// A canvas of `width × height` pixels, all of them `background_color`,
    /// that covers its whole buffer.
    pub fn new(width: u32, height: u32, background_color: u32) -> (canvas: Canvas)
        requires
            width * height <= u32::MAX,
        ensures
            canvas@.width == width,
            canvas@.height == height,
            canvas@.offset == 0,
            canvas@.stride == width,
            canvas@.background == background_color,
            canvas@.buffer == Seq::new((width * height) as nat, |i: int| background_color),
            canvas@.wf(),
    {
        let n: u32 = width * height;
        let pixels: Vec<u32> = vec![background_color; n as usize];
        assert(pixels@ =~= Seq::new((width * height) as nat, |i: int| background_color));
        assert(width > 0 && height > 0 ==> (height - 1) * width + width == height * width)
            by (nonlinear_arith);
        assert(height * width == width * height) by (nonlinear_arith);
        Canvas { width, height, offset: 0, stride: width, pixels, background_color }
    }

    /// The width of the window, in pixels. Every canvas is well formed.
    pub fn width(&self) -> (w: u32)
        ensures
            w == self@.width,
            self@.wf(),
    {
        proof {
            use_type_invariant(self);
        }
        self.width
    }

    /// The height of the window, in pixels.
    pub fn height(&self) -> (h: u32)
        ensures
            h == self@.height,
            self@.wf(),
    {
        proof {
            use_type_invariant(self);
        }
        self.height
    }

    /// The color the canvas was created with.
    pub fn background_color(&self) -> (color: u32)
        ensures
            color == self@.background,
    {
        self.background_color
    }

    /// The whole underlying buffer, row after row.
    pub fn pixels(&self) -> (buffer: &Vec<u32>)
        ensures
            buffer@ == self@.buffer,
            self@.wf(),
    {
        proof {
            use_type_invariant(self);
        }
        &self.pixels
    }

    /// The pixel at `(x, y)` of the window, or `None` outside it.
    pub fn get_pixel(&self, x: u32, y: u32) -> (pixel: Option<u32>)
        ensures
            pixel == if self@.contains(x as int, y as int) {
                Some(self@.pixel(x as int, y as int))
            } else {
                None
            },
    {
        if x < self.width && y < self.height {
            let i: usize = self.locate(x, y);
            Some(self.pixels[i])
        } else {
            None
        }
    }

    /// The buffer index of a visible coordinate.
    fn locate(&self, x: u32, y: u32) -> (i: usize)
        requires
            self@.contains(x as int, y as int),
        ensures
            i == self@.index_of(x as int, y as int),
            i < self@.buffer.len(),
    {
        proof {
            use_type_invariant(self);
            lemma_index_shown(self@, x as int, y as int);
            assert(0 <= y * self.stride <= self@.index_of(x as int, y as int)) by (nonlinear_arith)
                requires
                    self@.index_of(x as int, y as int) == self.offset + x + y * self.stride,
            ;
        }
        let row: u64 = y as u64 * self.stride as u64;
        (self.offset + x as u64 + row) as usize
    }

    /// Writes `color` at `(x, y)`. A coordinate outside the window is
    /// silently clipped: nothing changes.
    pub fn set_pixel(&mut self, x: u32, y: u32, color: u32)
        ensures
            final(self)@ == old(self)@.put(x as int, y as int, color),
            (x >= old(self)@.width || y >= old(self)@.height) ==> final(self)@ == old(self)@,
            final(self)@.same_outside(old(self)@),
    {
        proof {
            use_type_invariant(&*self);
            lemma_put_frame(self@, x as int, y as int, color);
        }
        if x < self.width && y < self.height {
            let i: usize = self.locate(x, y);
            self.pixels[i] = color;
        }
    }

    /// Writes `color` at a coordinate given in wide integers; anything outside
    /// the window, negative coordinates included, is clipped.
    pub(crate) fn plot(&mut self, x: i64, y: i64, color: u32)
        ensures
            final(self)@ == old(self)@.put(x as int, y as int, color),
    {
        if 0 <= x && x < self.width as i64 && 0 <= y && y < self.height as i64 {
            self.set_pixel(x as u32, y as u32, color);
        }
    }
}

/// The product of two numbers between zero and `limit` lies between zero and
/// the square of `limit`.
pub(crate) proof fn lemma_product_bound(a: int, b: int, limit: int)
    requires
        0 <= a <= limit,
        0 <= b <= limit,
    ensures
        0 <= a * b <= limit * limit,
{
    assert(0 <= a * b <= limit * limit) by (nonlinear_arith)
        requires
            0 <= a <= limit,
            0 <= b <= limit,
    ;
}

} // verus!
