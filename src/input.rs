//! Input decisions that do not depend on pointer coordinates.
use vstd::prelude::*;

verus! {

/// A mouse button.
#[derive(Clone, Copy, Debug, PartialEq, Eq)]
pub enum Button {
    MouseLeft,
    MouseRight,
    MouseMiddle,
}

/// What the platform layer is asked to do in answer to an event.
#[derive(Clone, Copy, Debug, PartialEq, Eq)]
pub enum Response {
    /// Grab (or release) the mouse pointer.
    GrabMouse(bool),
}

impl Button {
    /// The answer to this button being pressed or released: the right button
    /// grabs the mouse while it is held; the others ask for nothing.
    pub fn response(self, pressed: bool) -> (r: Option<Response>)
        ensures
            self == Button::MouseRight ==> r == Some(Response::GrabMouse(pressed)),
            self != Button::MouseRight ==> r is None,
    {
        match self {
            Button::MouseRight => Some(Response::GrabMouse(pressed)),
            _ => None,
        }
    }
}

} // verus!
