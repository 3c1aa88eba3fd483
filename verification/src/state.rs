//! The state of the render driver: whether it goes on, and whether the
//! surface has been configured.

use vstd::prelude::*;

verus! {

/// What the surface host reports about a bar's surface.
#[derive(Clone, Copy, Debug, PartialEq, Eq, Structural)]
pub enum SurfaceEvent {
    /// The host has settled the size of the surface and waits for the
    /// acknowledgment of `serial`.
    Configure { serial: u32, width: u32, height: u32 },
    /// The host has closed the surface.
    Closed,
    /// Anything else.
    Other,
}

/// The flags of the driver loop. They change only when an event is handled.
#[derive(Clone, Copy, Debug, PartialEq, Eq, Structural)]
pub struct State {
    pub running: bool,
    pub configured: bool,
}

impl State {
    /// The state in which the driver starts: running, with no surface
    /// configured yet.
    pub fn new() -> (state: State)
        ensures
            state == (State { running: true, configured: false }),
    {
        State { running: true, configured: false }
    }

    /// Takes one event in. `Closed` ends the loop; `Configure` marks the
    /// surface as configured and hands back the serial to acknowledge;
    /// anything else changes nothing.
    pub fn handle(&mut self, event: SurfaceEvent) -> (acknowledge: Option<u32>)
        ensures
            match event {
                SurfaceEvent::Configure { serial, .. } => {
                    &&& acknowledge == Some(serial)
                    &&& *final(self) == (State { configured: true, ..*old(self) })
                },
                SurfaceEvent::Closed => {
                    &&& acknowledge.is_none()
                    &&& *final(self) == (State { running: false, ..*old(self) })
                },
                SurfaceEvent::Other => acknowledge.is_none() && *final(self) == *old(self),
            },
    {
        match event {
            SurfaceEvent::Configure { serial, .. } => {
                self.configured = true;
                Some(serial)
            },
            SurfaceEvent::Closed => {
                self.running = false;
                None
            },
            SurfaceEvent::Other => None,
        }
    }
}

impl Default for State {
    /// Both flags down.
    fn default() -> (state: State)
        ensures
            state == (State { running: false, configured: false }),
    {
        State { running: false, configured: false }
    }
}

} // verus!
