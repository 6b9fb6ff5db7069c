use crate::hex::in_i32;
use vstd::prelude::*;

verus! {

/// A mouse button.
#[derive(PartialEq, Eq, Structural, Clone, Copy, Debug)]
pub enum MouseButton {
    Primary,
    Auxiliary,
    Secondary,
}

impl MouseButton {
    /// The bit of this button in a pointer event's `buttons` mask.
    pub open spec fn bit(self) -> u16 {
        match self {
            MouseButton::Primary => 1,
            MouseButton::Secondary => 2,
            MouseButton::Auxiliary => 4,
        }
    }

    /// The bit of this button in a pointer event's `buttons` mask: 1 for the
    /// primary, 2 for the secondary and 4 for the auxiliary button.
    pub fn to_bit(&self) -> (b: u16)
        ensures
            b == self.bit(),
    {
        match self {
            MouseButton::Primary => 1,
            MouseButton::Secondary => 2,
            MouseButton::Auxiliary => 4,
        }
    }

    /// The button of a pointer event's `button` number: 0 is the primary, 1
    /// the auxiliary and 2 the secondary button.
    pub fn from_num(val: i16) -> (b: Self)
        requires
            0 <= val <= 2,
        ensures
            val == 0 ==> b == MouseButton::Primary,
            val == 1 ==> b == MouseButton::Auxiliary,
            val == 2 ==> b == MouseButton::Secondary,
    {
        if val == 0 {
            MouseButton::Primary
        } else if val == 1 {
            MouseButton::Auxiliary
        } else {
            MouseButton::Secondary
        }
    }
}

/// Pointer state: position and the mask of pressed buttons.
#[derive(Debug, Default)]
pub struct InputSystem {
    pub mouse_pos: (i32, i32),
    pub using_touch: bool,
    pub mouse_buttons: u16,
}

impl InputSystem {
    /// Whether `button` is down.
    pub fn mouse_down(&self, button: MouseButton) -> (d: bool)
        ensures
            d == (self.mouse_buttons & button.bit() != 0),
    {
        (self.mouse_buttons & button.to_bit()) != 0
    }

    /// Records a new pointer position and button mask; returns how far the
    /// pointer moved.
    pub fn update_mouse(&mut self, x: i32, y: i32, buttons: u16) -> (delta: (i32, i32))
        requires
            in_i32(x - old(self).mouse_pos.0),
            in_i32(y - old(self).mouse_pos.1),
        ensures
            delta.0 == x - old(self).mouse_pos.0,
            delta.1 == y - old(self).mouse_pos.1,
            final(self).mouse_pos == (x, y),
            final(self).mouse_buttons == buttons,
            final(self).using_touch == old(self).using_touch,
    {
        let delta = (x - self.mouse_pos.0, y - self.mouse_pos.1);
        self.mouse_pos = (x, y);
        self.mouse_buttons = buttons;
        delta
    }
}

} // verus!
