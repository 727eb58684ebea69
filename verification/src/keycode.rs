//! USB HID keyboard usage codes, as carried by `KeyAction::Key`.

use vstd::prelude::*;

verus! {

pub const NO: u16 = 0x00;
pub const ERROR_UNDEFINED: u16 = 0x03;
pub const A: u16 = 0x04;
pub const B: u16 = 0x05;
pub const C: u16 = 0x06;
pub const D: u16 = 0x07;
pub const E: u16 = 0x08;
pub const F: u16 = 0x09;
pub const G: u16 = 0x0A;
pub const H: u16 = 0x0B;
pub const I: u16 = 0x0C;
pub const J: u16 = 0x0D;
pub const K: u16 = 0x0E;
pub const L: u16 = 0x0F;
pub const M: u16 = 0x10;
pub const N: u16 = 0x11;
pub const O: u16 = 0x12;
pub const P: u16 = 0x13;
pub const Q: u16 = 0x14;
pub const R: u16 = 0x15;
pub const S: u16 = 0x16;
pub const T: u16 = 0x17;
pub const U: u16 = 0x18;
pub const V: u16 = 0x19;
pub const W: u16 = 0x1A;
pub const X: u16 = 0x1B;
pub const Y: u16 = 0x1C;
pub const Z: u16 = 0x1D;
pub const KC1: u16 = 0x1E;
pub const KC2: u16 = 0x1F;
pub const KC3: u16 = 0x20;
pub const KC4: u16 = 0x21;
pub const KC5: u16 = 0x22;
pub const KC6: u16 = 0x23;
pub const KC7: u16 = 0x24;
pub const KC8: u16 = 0x25;
pub const KC9: u16 = 0x26;
pub const KC0: u16 = 0x27;
pub const ENTER: u16 = 0x28;
pub const ESCAPE: u16 = 0x29;
pub const BACKSPACE: u16 = 0x2A;
pub const TAB: u16 = 0x2B;
pub const SPACE: u16 = 0x2C;
pub const MINUS: u16 = 0x2D;
pub const EQUAL: u16 = 0x2E;
pub const LEFT_BRACKET: u16 = 0x2F;
pub const RIGHT_BRACKET: u16 = 0x30;
pub const BACKSLASH: u16 = 0x31;
pub const NONUS_HASH: u16 = 0x32;
pub const SEMICOLON: u16 = 0x33;
pub const QUOTE: u16 = 0x34;
pub const GRAVE: u16 = 0x35;
pub const COMMA: u16 = 0x36;
pub const DOT: u16 = 0x37;
pub const SLASH: u16 = 0x38;
pub const F1: u16 = 0x3A;
pub const F2: u16 = 0x3B;
pub const F3: u16 = 0x3C;
pub const F4: u16 = 0x3D;
pub const F5: u16 = 0x3E;
pub const PRINT_SCREEN: u16 = 0x46;
pub const INSERT: u16 = 0x49;
pub const DELETE: u16 = 0x4C;
pub const RIGHT: u16 = 0x4F;
pub const LEFT: u16 = 0x50;
pub const DOWN: u16 = 0x51;
pub const UP: u16 = 0x52;
pub const NONUS_BACKSLASH: u16 = 0x64;
pub const LCTRL: u16 = 0xE0;
pub const LSHIFT: u16 = 0xE1;
pub const LALT: u16 = 0xE2;
pub const LGUI: u16 = 0xE3;
pub const RCTRL: u16 = 0xE4;
pub const RSHIFT: u16 = 0xE5;
pub const RALT: u16 = 0xE6;
pub const RGUI: u16 = 0xE7;

} // verus!
