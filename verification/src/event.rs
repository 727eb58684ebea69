//! Key events and the coordinates they carry.

use vstd::prelude::*;

verus! {

/// Position of a switch on the whole keyboard, both halves counted.
#[derive(Clone, Copy, Debug, PartialEq, Eq, Structural)]
pub struct LogicalCoordinate {
    pub row: u8,
    pub col: u8,
}

/// A debounced change of one key, numbered in the order of its arrival.
#[derive(Clone, Copy, Debug, PartialEq, Eq, Structural)]
pub struct KeyEvent {
    pub coordinate: LogicalCoordinate,
    pub pressed: bool,
    pub sequence: u64,
}

/// What the resolver asks the HID reporter to send.
#[derive(Clone, Copy, Debug, PartialEq, Eq, Structural)]
pub enum HidReport {
    /// The key went down, with the modifiers held at that moment.
    Press(u16, crate::action::ModifierSet),
    /// The key went up.
    Release(u16),
}

} // verus!
