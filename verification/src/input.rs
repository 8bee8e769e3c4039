//! Key-independent input command state: press/hold tracking and the
//! first-press / delay / repeat policy.

use vstd::prelude::*;

verus! {

/// The state of an arbitrary input command.
///
/// Key independent: the caller maps whatever raw input it reads onto
/// `set_pressed`, once per frame, and then calls `update`.
#[derive(Clone, Copy, Debug, PartialEq, Eq, Structural)]
pub struct InputState {
    pub pressed_frames: u16,
    pub pressed_this_frame: bool,
}

impl Default for InputState {
    /// The idle state: not pressed, held for zero frames.
    fn default() -> (s: Self)
        ensures
            s.pressed_frames == 0,
            !s.pressed_this_frame,
    {
        InputState { pressed_frames: 0, pressed_this_frame: false }
    }
}

impl InputState {
    /// Records whether the command's key is down this frame.
    pub fn set_pressed(&mut self, pressed: bool)
        ensures
            final(self).pressed_this_frame == pressed,
            final(self).pressed_frames == old(self).pressed_frames,
    {
        self.pressed_this_frame = pressed;
    }

    /// Advances to the next frame: a pressed frame extends the held count,
    /// a released frame resets it.
    pub fn update(&mut self)
        requires
            old(self).pressed_frames < u16::MAX,
        ensures
            !final(self).pressed_this_frame,
            final(self).pressed_frames == if old(self).pressed_this_frame {
                old(self).pressed_frames + 1
            } else {
                0
            },
    {
        if self.pressed_this_frame {
            self.pressed_this_frame = false;
            self.pressed_frames = self.pressed_frames + 1;
        } else {
            self.pressed_frames = 0;
        }
    }

    /// True while the raw press of the current frame has not been consumed
    /// by `update` yet.
    pub fn pressed(self) -> (r: bool)
        ensures
            r == self.pressed_this_frame,
    {
        self.pressed_this_frame
    }

    /// True once the key has been down for more than one frame.
    pub fn held(self) -> (r: bool)
        ensures
            r == (self.pressed_frames > 1),
    {
        self.pressed_frames > 1
    }

    /// The press/hold/repeat policy: fires on the first frame of a press,
    /// then every `interval` frames once `delay` frames have passed.
    pub fn repeated(self, delay: u16, interval: u16) -> (r: bool)
        requires
            interval > 0,
        ensures
            r == (self.pressed_frames == 1 || (self.pressed_frames > delay && self.pressed_frames
                % interval == 0)),
    {
        self.pressed_frames == 1 || (self.pressed_frames > delay && self.pressed_frames % interval
            == 0)
    }
}

/// The discrete commands the engine understands.
#[derive(Clone, Copy, Debug, PartialEq, Eq, Hash, Structural)]
pub enum InputAction {
    Spin,
    SoftDrop,
    HardDrop,
    MoveLeft,
    MoveRight,
    Cache,
}

} // verus!
