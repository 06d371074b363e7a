//! What the host presentation loop needs from the emulator: its settings,
//! the interface of a frame producer, and the frame-rate counter that
//! decides when the window title shows a new rate.

use vstd::prelude::*;

verus! {

/// Settings of the host window and frame pacing.
pub struct OutputConfig {
    pub window_title: String,
    pub width: isize,
    pub height: isize,
    pub fps: isize,
    pub enforce_speed: bool,
}

/// Something that renders frames for the host, typically the emulated
/// machine running on a thread of its own.
pub trait OutputProducer {
    /// Renders the next frame into `screen`: `width * height` pixels, row
    /// by row, four bytes each (red, green, blue, unused).
    fn render_frame(&mut self, screen: &mut Vec<u8>);

    /// Called once the host stops asking for frames.
    fn finish(&mut self);
}

/// Frames shown since the rate was last reported.
pub struct FpsCounter {
    pub frames: isize,
}

impl FpsCounter {
    pub fn new() -> (r: FpsCounter)
        ensures
            r.frames == 0,
    {
        FpsCounter { frames: 0 }
    }

    /// Counts a shown frame. When a second has passed since the last report
    /// (`second_elapsed`), returns the frames of that second and starts
    /// counting anew; otherwise returns `None`.
    pub fn frame(&mut self, second_elapsed: bool) -> (r: Option<isize>)
        requires
            old(self).frames < isize::MAX,
        ensures
            second_elapsed ==> r == Some((old(self).frames + 1) as isize) && final(self).frames
                == 0,
            !second_elapsed ==> r is None && final(self).frames == old(self).frames + 1,
    {
        self.frames = self.frames + 1;
        if second_elapsed {
            let n = self.frames;
            self.frames = 0;
            Some(n)
        } else {
            None
        }
    }
}

} // verus!
