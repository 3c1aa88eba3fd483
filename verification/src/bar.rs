//! The frame lifecycle of one bar: from unbound to bound on the first frame
//! after the surface was configured, and the same canvas for every frame
//! after that.

use vstd::prelude::*;
use crate::canvas::Canvas;
use crate::window::CanvasView;
use crate::wire::encodes;
use crate::wire::pixel_bytes;

verus! {

/// The screen edge that a bar is anchored to.
#[derive(Clone, Copy, Debug, PartialEq, Eq, Structural)]
pub enum BarPosition {
    Top,
    Bottom,
}

/// The color of a fresh bar canvas: opaque black.
pub const BACKGROUND: u32 = 0xff00_0000;

/// The bytes that one pixel takes up in a frame.
pub const BYTES_PER_PIXEL: u32 = 4;

/// Why no frame was started.
#[derive(Clone, Copy, Debug, PartialEq, Eq, Structural)]
pub enum FrameError {
    /// The surface has not been configured yet.
    NotConfigured,
    /// The host has not bound the shared-memory capability yet.
    CapabilityUnavailable,
    /// A frame of the requested size cannot be addressed.
    InvalidGeometry,
}

/// What the host has to provide for a frame: a single plane of packed
/// 32-bit ARGB pixels, rows of `stride` bytes without padding, `size` bytes
/// in all.
#[derive(Clone, Copy, Debug, PartialEq, Eq, Structural)]
pub struct FramePlan {
    /// Whether this is the first frame of the bar, for which the host has to
    /// create the backing storage, the pool and the presentation buffer.
    pub first: bool,
    pub width: u32,
    pub height: u32,
    pub stride: u32,
    pub size: u32,
}

/// The mathematical model of a bar.
pub struct BarView {
    pub height: nat,
    pub position: BarPosition,
    pub canvas: Option<CanvasView>,
}

/// The part of a bar that does not depend on the display host.
pub struct Bar {
    height: u32,
    position: BarPosition,
    canvas: Option<Canvas>,
}

impl View for Bar {
    type V = BarView;

    closed spec fn view(&self) -> BarView {
        BarView {
            height: self.height as nat,
            position: self.position,
            canvas: match self.canvas {
                Some(canvas) => Some(canvas@),
                None => None,
            },
        }
    }
}

impl Bar {
    /// An unbound bar of the given height at the given edge.
    pub fn new(position: BarPosition, height: u32) -> (bar: Bar)
        ensures
            bar@ == (BarView { height: height as nat, position, canvas: None }),
    {
        Bar { height, position, canvas: None }
    }

    /// The height of the bar, in pixels.
    pub fn height(&self) -> (height: u32)
        ensures
            height == self@.height,
    {
        self.height
    }

    /// The screen edge that the bar is anchored to.
    pub fn position(&self) -> (position: BarPosition)
        ensures
            position == self@.position,
    {
        self.position
    }

    /// Whether the bar has its canvas, that is, whether a frame was started
    /// before.
    pub fn is_bound(&self) -> (bound: bool)
        ensures
            bound == self@.canvas.is_some(),
    {
        self.canvas.is_some()
    }

    /// Starts a frame. The frame is turned down while the surface is not
    /// configured or the shared-memory capability is missing, and where its
    /// pixels could not be addressed. On the first frame that is not turned
    /// down the bar gets its canvas, `width` pixels wide and filled with
    /// opaque black; from then on the canvas stays, with whatever was drawn
    /// on it, and `width` is ignored. The plan tells the host what to
    /// provide.
    pub fn begin_frame(&mut self, configured: bool, capability: bool, width: u32) -> (result: Result<
        FramePlan,
        FrameError,
    >)
        ensures
            match result {
                Ok(plan) => {
                    &&& configured
                    &&& capability
                    &&& match old(self)@.canvas {
                        Some(canvas) => {
                            &&& addressable(canvas.width as int, canvas.height as int)
                            &&& final(self)@ == old(self)@
                            &&& plan == plan_for(false, canvas.width as int, canvas.height as int)
                        },
                        None => {
                            &&& addressable(width as int, old(self)@.height as int)
                            &&& final(self)@ == (BarView {
                                canvas: Some(fresh(width as int, old(self)@.height as int)),
                                ..old(self)@
                            })
                            &&& plan == plan_for(true, width as int, old(self)@.height as int)
                        },
                    }
                },
                Err(FrameError::NotConfigured) => !configured && final(self)@ == old(self)@,
                Err(FrameError::CapabilityUnavailable) => {
                    &&& configured
                    &&& !capability
                    &&& final(self)@ == old(self)@
                },
                Err(FrameError::InvalidGeometry) => {
                    &&& configured
                    &&& capability
                    &&& final(self)@ == old(self)@
                    &&& match old(self)@.canvas {
                        Some(canvas) => !addressable(canvas.width as int, canvas.height as int),
                        None => !addressable(width as int, old(self)@.height as int),
                    }
                },
            },
    {
        if !configured {
            return Err(FrameError::NotConfigured);
        }
        if !capability {
            return Err(FrameError::CapabilityUnavailable);
        }
        match &self.canvas {
            Some(canvas) => {
                let w: u32 = canvas.width();
                let h: u32 = canvas.height();
                match plan(false, w, h) {
                    Some(plan) => Ok(plan),
                    None => Err(FrameError::InvalidGeometry),
                }
            },
            None => {
                let h: u32 = self.height;
                match plan(true, width, h) {
                    Some(plan) => {
                        self.canvas = Some(Canvas::new(width, h, BACKGROUND));
                        Ok(plan)
                    },
                    None => Err(FrameError::InvalidGeometry),
                }
            },
        }
    }

    /// The canvas of a bound bar, to draw the next frame on. Whatever the
    /// caller leaves on it is what the bar holds afterwards.
    pub fn canvas_mut(&mut self) -> (canvas: Option<&mut Canvas>)
        ensures
            match old(self)@.canvas {
                None => canvas.is_none() && final(self)@ == old(self)@,
                Some(before) => {
                    &&& canvas.is_some()
                    &&& canvas.unwrap()@ == before
                    &&& final(self)@ == (BarView {
                        canvas: Some(final(canvas.unwrap())@),
                        ..old(self)@
                    })
                },
            },
    {
        self.canvas.as_mut()
    }

    /// The frame as the host has to store it: the whole pixel array of the
    /// canvas, four bytes for each pixel in the byte order of the machine.
    /// An unbound bar has no frame.
    pub fn frame_bytes(&self) -> (bytes: Option<Vec<u8>>)
        ensures
            match self@.canvas {
                Some(canvas) => bytes.is_some() && encodes(bytes.unwrap()@, canvas.buffer),
                None => bytes.is_none(),
            },
    {
        match &self.canvas {
            Some(canvas) => Some(pixel_bytes(canvas.pixels())),
            None => None,
        }
    }
}

/// Whether a frame of `width × height` pixels can be handed to the host,
/// which counts the bytes of a row and of the whole frame in signed 32-bit
/// integers.
pub open spec fn addressable(width: int, height: int) -> bool {
    width * 4 <= i32::MAX && width * height * 4 <= i32::MAX
}

/// The plan for a frame of `width × height` pixels: rows of `4 · width`
/// bytes, `4 · width · height` bytes in all.
pub open spec fn plan_for(first: bool, width: int, height: int) -> FramePlan {
    FramePlan {
        first,
        width: width as u32,
        height: height as u32,
        stride: (width * 4) as u32,
        size: (width * height * 4) as u32,
    }
}

/// The canvas of a bar before anything was drawn on it.
pub open spec fn fresh(width: int, height: int) -> CanvasView {
    CanvasView {
        width: width as nat,
        height: height as nat,
        offset: 0,
        stride: width as nat,
        buffer: Seq::new((width * height) as nat, |i: int| BACKGROUND),
        background: BACKGROUND,
    }
}

/// The plan for a frame, where its bytes can be addressed.
pub fn plan(first: bool, width: u32, height: u32) -> (plan: Option<FramePlan>)
    ensures
        plan == if addressable(width as int, height as int) {
            Some(plan_for(first, width as int, height as int))
        } else {
            None
        },
{
    proof {
        assert(0 <= width * height <= 0xffff_ffff * 0xffff_ffff) by (nonlinear_arith)
            requires
                0 <= width <= 0xffff_ffff,
                0 <= height <= 0xffff_ffff,
        ;
    }
    let pixels: u64 = width as u64 * height as u64;
    if width <= 0x1fff_ffff && pixels <= 0x1fff_ffff {
        Some(FramePlan { first, width, height, stride: width * 4, size: (pixels * 4) as u32 })
    } else {
        None
    }
}

} // verus!
