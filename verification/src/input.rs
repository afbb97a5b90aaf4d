//! Which input events are clicks.
//!
//! Clicks are read from the input devices directly; every device delivers
//! a stream of events. Only the press of a mouse button counts as a click
//! (not its release or auto-repeat); reading the devices is the caller's part.

use vstd::prelude::*;
use crate::model::{button_for_code, Button, Click};

verus! {

/// The click an event stands for: a key event with value 1 (pressed) whose
/// code names a mouse button.
pub open spec fn event_click(is_key: bool, code: u16, value: i32) -> Option<Click> {
    if is_key && value == 1 {
        match button_for_code(code) {
            Some(b) => Some(Click { button: b }),
            None => None,
        }
    } else {
        None
    }
}

/// The click that an input event reports, if it reports one.
pub fn click_for_event(is_key: bool, code: u16, value: i32) -> (res: Option<Click>)
    ensures
        res == event_click(is_key, code, value),
{
    if is_key && value == 1 {
        match Button::from_evdev_code(code) {
            Some(button) => Some(Click { button }),
            None => None,
        }
    } else {
        None
    }
}

} // verus!
