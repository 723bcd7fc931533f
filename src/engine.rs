use vstd::prelude::*;
use crate::backend::{rendered, PixelsBackend};
use crate::config::Config;
use crate::graphics::Graphics;
use crate::input::{end_step, logical_mouse, Input};
use crate::scheduler::FrameScheduler;

verus! {

/// Everything one window's frame loop owns: the command buffer, the input
/// state, the pixel buffer and the pacing. A tick is `scheduler.poll`
/// answering `Tick`, then `begin_tick`, the client's drawing, and
/// `finish_tick`.
pub struct Engine {
    pub graphics: Graphics,
    pub input: Input,
    pub backend: PixelsBackend,
    pub scheduler: FrameScheduler,
}

/// Whether a window resize to `size` is taken into account: one to a window
/// of no area is ignored.
pub open spec fn resize_accepted(size: (u32, u32)) -> bool {
    size.0 > 0 && size.1 > 0
}

impl Engine {
    /// The pixel buffer matches the canvas.
    pub open spec fn wf(&self) -> bool {
        &&& self.backend.wf()
        &&& self.graphics.logical() == (self.backend.width() as u32, self.backend.height() as u32)
    }

    /// The state for a window configured by `config`, before its first tick;
    /// `None` when the pixel buffer of the logical size cannot be addressed.
    pub fn new(config: &Config) -> (r: Option<Engine>)
        ensures
            r is None <==> config.logical_width * config.logical_height * 4 > usize::MAX,
            r matches Some(e) ==> {
                &&& e.wf()
                &&& e.graphics@ == Seq::<crate::graphics::DrawCommand>::empty()
                &&& e.graphics.logical() == (config.logical_width, config.logical_height)
                &&& e.graphics.window() == (config.window_width, config.window_height)
                &&& e.backend.width() == config.logical_width
                &&& e.backend.height() == config.logical_height
                &&& e.scheduler == FrameScheduler::spec_new(config.target_fps)
            },
    {
        let lw = config.logical_width;
        let lh = config.logical_height;
        proof {
            assert((lw as int) * (lh as int) <= 0xffff_ffff * 0xffff_ffff) by (nonlinear_arith)
                requires
                    lw <= 0xffff_ffff,
                    lh <= 0xffff_ffff,
            ;
        }
        let bytes: u128 = (lw as u128) * (lh as u128) * 4;
        if bytes > usize::MAX as u128 {
            return None;
        }
        Some(
            Engine {
                graphics: Graphics::new((lw, lh), (config.window_width, config.window_height)),
                input: Input::new(),
                backend: PixelsBackend::new(lw, lh),
                scheduler: FrameScheduler::new(config.target_fps),
            },
        )
    }

    /// Starts a tick: maps the latest cursor sample to the canvas and empties
    /// the command buffer for the client's drawing.
    pub fn begin_tick(&mut self)
        requires
            old(self).wf(),
        ensures
            final(self).wf(),
            final(self).graphics@ == Seq::<crate::graphics::DrawCommand>::empty(),
            final(self).graphics.logical() == old(self).graphics.logical(),
            final(self).graphics.window() == old(self).graphics.window(),
            final(self).input.mouse() == logical_mouse(
                old(self).input.cursor(),
                old(self).graphics.logical(),
                old(self).graphics.window(),
            ),
            final(self).input.keys() == old(self).input.keys(),
            final(self).input.buttons() == old(self).input.buttons(),
            final(self).input.resized() == old(self).input.resized(),
            final(self).input.close() == old(self).input.close(),
            final(self).backend == old(self).backend,
            final(self).scheduler == old(self).scheduler,
    {
        self.input.update_mouse_mapping(&self.graphics);
        self.graphics.begin_frame();
    }

    /// Ends a tick: rasterizes the recorded commands in order and forgets
    /// this tick's input edges and window events. The buffer is then ready to
    /// be presented.
    pub fn finish_tick(&mut self)
        requires
            old(self).wf(),
        ensures
            final(self).wf(),
            final(self).backend@ == rendered(
                old(self).backend@,
                old(self).backend.width(),
                old(self).graphics@,
            ),
            final(self).graphics@ == old(self).graphics@,
            final(self).input.keys() == end_step(old(self).input.keys()),
            final(self).input.buttons() == end_step(old(self).input.buttons()),
            final(self).input.resized() is None,
            !final(self).input.close(),
            final(self).input.cursor() == old(self).input.cursor(),
            final(self).input.mouse() == old(self).input.mouse(),
            final(self).graphics.logical() == old(self).graphics.logical(),
            final(self).graphics.window() == old(self).graphics.window(),
            final(self).scheduler == old(self).scheduler,
    {
        self.backend.render(self.graphics.commands());
        self.input.end_step();
    }

    /// Takes in a resize of the window to `size`, unless the window has no
    /// area; tells whether the presentation surface should follow. The pixel
    /// buffer keeps its logical size either way.
    pub fn window_resized(&mut self, size: (u32, u32)) -> (r: bool)
        requires
            old(self).wf(),
        ensures
            final(self).wf(),
            r == resize_accepted(size),
            r ==> final(self).graphics.window() == size && final(self).input.resized() == Some(size),
            !r ==> *final(self) == *old(self),
            final(self).input.keys() == old(self).input.keys(),
            final(self).input.buttons() == old(self).input.buttons(),
            final(self).input.cursor() == old(self).input.cursor(),
            final(self).input.mouse() == old(self).input.mouse(),
            final(self).input.close() == old(self).input.close(),
            final(self).scheduler == old(self).scheduler,
            final(self).graphics@ == old(self).graphics@,
            final(self).graphics.logical() == old(self).graphics.logical(),
            final(self).backend == old(self).backend,
    {
        if size.0 == 0 || size.1 == 0 {
            return false;
        }
        self.graphics.set_window_size(size);
        self.input.resize_event(size);
        true
    }

    /// Takes in a request to close the window: the tick in progress, if any,
    /// completes, and no tick follows.
    pub fn close_requested(&mut self)
        requires
            old(self).wf(),
        ensures
            final(self).wf(),
            final(self).scheduler.closed,
            final(self).input.close(),
            final(self).input.keys() == old(self).input.keys(),
            final(self).input.buttons() == old(self).input.buttons(),
            final(self).input.cursor() == old(self).input.cursor(),
            final(self).input.mouse() == old(self).input.mouse(),
            final(self).input.resized() == old(self).input.resized(),
            final(self).scheduler.interval_ns == old(self).scheduler.interval_ns,
            final(self).scheduler.capped == old(self).scheduler.capped,
            final(self).scheduler.last_tick_ns == old(self).scheduler.last_tick_ns,
            final(self).backend == old(self).backend,
            final(self).graphics == old(self).graphics,
    {
        self.scheduler.request_close();
        self.input.close_event();
    }
}

} // verus!
