//! Events that the decoder hands to the mapping processor.

use vstd::prelude::*;

verus! {

/// One edge of a device key, by the key's configured name.
#[derive(Debug, Clone, PartialEq, Eq)]
pub enum InputEvent {
    KeyPressed(String),
    KeyReleased(String),
}

/// An `InputEvent` with its key name as a character sequence.
pub ghost enum InputEventView {
    KeyPressed(Seq<char>),
    KeyReleased(Seq<char>),
}

impl InputEventView {
    /// The device key that the event is about.
    pub open spec fn key(self) -> Seq<char> {
        match self {
            InputEventView::KeyPressed(k) => k,
            InputEventView::KeyReleased(k) => k,
        }
    }

    /// Whether the event is a press.
    pub open spec fn is_press(self) -> bool {
        self is KeyPressed
    }
}

impl View for InputEvent {
    type V = InputEventView;

    open spec fn view(&self) -> InputEventView {
        match self {
            InputEvent::KeyPressed(k) => InputEventView::KeyPressed(k@),
            InputEvent::KeyReleased(k) => InputEventView::KeyReleased(k@),
        }
    }
}

} // verus!
