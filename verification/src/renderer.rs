//! The frame renderer: owns the pixel-buffer extent and the exit flag, and
//! performs the per-frame work that does not touch the windowing library —
//! refreshing the pixel buffer and computing the destination rectangle.

use crate::events::{requests_exit, AppEvent, ESCAPE_KEYCODE};
use crate::pattern::{cell_written, fill_pattern, filled_at};
use crate::scale::{
    spec_dst_height, spec_dst_width, spec_dst_x, spec_dst_y, letterbox, ConfigError, DstRect,
};
use vstd::pervasive::unreached;
use vstd::prelude::*;

verus! {

/// State of the frame loop: the fixed pixel-buffer extent and whether exit
/// was requested. The buffer extent is validated once, at construction, so
/// the scaling ratio is always defined.
#[derive(Clone, Copy, Debug)]
pub struct FrameRenderer {
    pub width: u32,
    pub height: u32,
    pub should_quit: bool,
}

impl FrameRenderer {
    /// The pixel buffer has a nonzero extent on both axes.
    pub open spec fn wf(&self) -> bool {
        self.width >= 1 && self.height >= 1
    }

    /// Create a renderer for a `width x height` pixel buffer. A zero extent
    /// on either axis is a fatal configuration error, and nothing else is.
    pub fn new(width: u32, height: u32) -> (r: Result<FrameRenderer, ConfigError>)
        ensures
            r is Err <==> (width == 0 || height == 0),
            r matches Ok(renderer) ==> {
                &&& renderer.wf()
                &&& renderer.width == width
                &&& renderer.height == height
                &&& !renderer.should_quit
            },
    {
        if width == 0 || height == 0 {
            return Err(ConfigError::ZeroBufferDimension);
        }
        Ok(
            FrameRenderer {
                width,
                height,
                should_quit: false,
            },
        )
    }

    /// Record a key press: only the exit key requests exit; the flag, once
    /// set, stays set.
    pub fn handle_key(&mut self, keycode: i32)
        ensures
            final(self).width == old(self).width,
            final(self).height == old(self).height,
            final(self).should_quit == (old(self).should_quit || keycode == ESCAPE_KEYCODE),
    {
        if keycode == ESCAPE_KEYCODE {
            self.should_quit = true;
        }
    }

    /// Dispatch one event: a window-close request or a press of the exit
    /// key requests exit; everything else is ignored.
    pub fn handle_event(&mut self, event: &AppEvent)
        ensures
            final(self).width == old(self).width,
            final(self).height == old(self).height,
            final(self).should_quit == (old(self).should_quit || requests_exit(*event)),
    {
        match event {
            AppEvent::Quit => {
                self.should_quit = true;
            },
            AppEvent::KeyPressed(keycode) => {
                self.handle_key(*keycode);
            },
            AppEvent::Other => {},
        }
    }

    /// Per-frame work: overwrite the pixel buffer `data` with the pattern
    /// and return the destination rectangle for the current surface extent.
    /// `data` is the backing store of a `width x height` grid whose rows are
    /// `pitch` bytes apart; padding bytes and bytes beyond the grid keep
    /// their values.
    pub fn draw_frame(&self, data: &mut Vec<u8>, pitch: usize, win_w: u32, win_h: u32) -> (r:
        DstRect)
        requires
            self.wf(),
            4 * self.width <= pitch,
            pitch * self.height <= old(data).len(),
        ensures
            final(data).len() == old(data).len(),
            forall|x: int, y: int|
                0 <= x < self.width && 0 <= y < self.height ==> filled_at(
                    final(data)@,
                    pitch as int,
                    x,
                    y,
                ),
            forall|i: int|
                0 <= i < final(data).len() && !cell_written(
                    pitch as int,
                    self.width as int,
                    self.height as int,
                    i,
                ) ==> final(data)[i] == old(data)[i],
            r.x == spec_dst_x(self.width as int, self.height as int, win_w as int, win_h as int),
            r.y == spec_dst_y(self.width as int, self.height as int, win_w as int, win_h as int),
            r.width == spec_dst_width(
                self.width as int,
                self.height as int,
                win_w as int,
                win_h as int,
            ),
            r.height == spec_dst_height(
                self.width as int,
                self.height as int,
                win_w as int,
                win_h as int,
            ),
            r.x + r.width <= win_w,
            r.y + r.height <= win_h,
    {
        fill_pattern(data, pitch, self.width as usize, self.height as usize);
        match letterbox(self.width, self.height, win_w, win_h) {
            Ok(rect) => rect,
            Err(_) => unreached(),
        }
    }
}

} // verus!
