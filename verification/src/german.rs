//! The German layout as a lookup table: where each character of the
//! German keyboard sits on the keys that the host sees, and with which
//! modifiers it is typed.

use vstd::prelude::*;
use crate::action::{KeyAction, ModifierSet, MOD_SHIFT, algr, shifted};
use crate::keycode;

verus! {

pub const CIRCUMFLEX: u16 = keycode::GRAVE;
pub const SHARP_S: u16 = keycode::MINUS;
pub const ACUTE: u16 = keycode::EQUAL;
pub const UDIA: u16 = keycode::LEFT_BRACKET;
pub const PLUS: u16 = keycode::RIGHT_BRACKET;
pub const ODIA: u16 = keycode::SEMICOLON;
pub const ADIA: u16 = keycode::QUOTE;
pub const HASH: u16 = keycode::NONUS_HASH;
pub const LEFT_ANGLE_BRACKET: u16 = keycode::NONUS_BACKSLASH;
pub const Y: u16 = keycode::Z;
pub const Z: u16 = keycode::Y;
pub const COMMA: u16 = keycode::COMMA;
pub const DOT: u16 = keycode::DOT;
pub const MINUS: u16 = keycode::SLASH;

/// The modifier bits of the right-hand `Alt`.
pub const ALGR_BITS: u8 = 0x14;

/// A character that the German layout types with a modifier.
#[derive(Clone, Copy, Debug, PartialEq, Eq, Structural)]
pub enum Symbol {
    Degree,
    Exclamation,
    DoubleQuote,
    Section,
    Dollar,
    Percent,
    Ampersand,
    Slash,
    LeftParenthesis,
    RightParenthesis,
    Equal,
    QuestionMark,
    GraveAccent,
    Asterisk,
    SingleQuote,
    RightAngleBracket,
    Semicolon,
    Colon,
    Underscore,
    LeftCurlyBracket,
    LeftBracket,
    RightBracket,
    RightCurlyBracket,
    Backslash,
    Tilde,
    Pipe,
    Micro,
}

/// The key on which the character sits.
pub open spec fn symbol_key(sym: Symbol) -> u16 {
    match sym {
        Symbol::Degree => CIRCUMFLEX,
        Symbol::Exclamation => keycode::KC1,
        Symbol::DoubleQuote => keycode::KC2,
        Symbol::Section => keycode::KC3,
        Symbol::Dollar => keycode::KC4,
        Symbol::Percent => keycode::KC5,
        Symbol::Ampersand => keycode::KC6,
        Symbol::Slash => keycode::KC7,
        Symbol::LeftParenthesis => keycode::KC8,
        Symbol::RightParenthesis => keycode::KC9,
        Symbol::Equal => keycode::KC0,
        Symbol::QuestionMark => SHARP_S,
        Symbol::GraveAccent => ACUTE,
        Symbol::Asterisk => PLUS,
        Symbol::SingleQuote => HASH,
        Symbol::RightAngleBracket => LEFT_ANGLE_BRACKET,
        Symbol::Semicolon => COMMA,
        Symbol::Colon => DOT,
        Symbol::Underscore => MINUS,
        Symbol::LeftCurlyBracket => keycode::KC7,
        Symbol::LeftBracket => keycode::KC8,
        Symbol::RightBracket => keycode::KC9,
        Symbol::RightCurlyBracket => keycode::KC0,
        Symbol::Backslash => SHARP_S,
        Symbol::Tilde => PLUS,
        Symbol::Pipe => LEFT_ANGLE_BRACKET,
        Symbol::Micro => keycode::M,
    }
}

/// Whether the character is typed with the right-hand `Alt`; the others are
/// typed with `Shift`.
pub open spec fn symbol_uses_algr(sym: Symbol) -> bool {
    match sym {
        Symbol::LeftCurlyBracket => true,
        Symbol::LeftBracket => true,
        Symbol::RightBracket => true,
        Symbol::RightCurlyBracket => true,
        Symbol::Backslash => true,
        Symbol::Tilde => true,
        Symbol::Pipe => true,
        Symbol::Micro => true,
        _ => false,
    }
}

/// The action that types the character.
pub open spec fn symbol_action(sym: Symbol) -> KeyAction {
    KeyAction::KeyWithModifiers(
        symbol_key(sym),
        ModifierSet { bits: if symbol_uses_algr(sym) { ALGR_BITS } else { MOD_SHIFT } },
    )
}

/// The action that types the character.
pub fn symbol(sym: Symbol) -> (res: KeyAction)
    ensures
        res == symbol_action(sym),
{
    match sym {
        Symbol::Degree => shifted(CIRCUMFLEX),
        Symbol::Exclamation => shifted(keycode::KC1),
        Symbol::DoubleQuote => shifted(keycode::KC2),
        Symbol::Section => shifted(keycode::KC3),
        Symbol::Dollar => shifted(keycode::KC4),
        Symbol::Percent => shifted(keycode::KC5),
        Symbol::Ampersand => shifted(keycode::KC6),
        Symbol::Slash => shifted(keycode::KC7),
        Symbol::LeftParenthesis => shifted(keycode::KC8),
        Symbol::RightParenthesis => shifted(keycode::KC9),
        Symbol::Equal => shifted(keycode::KC0),
        Symbol::QuestionMark => shifted(SHARP_S),
        Symbol::GraveAccent => shifted(ACUTE),
        Symbol::Asterisk => shifted(PLUS),
        Symbol::SingleQuote => shifted(HASH),
        Symbol::RightAngleBracket => shifted(LEFT_ANGLE_BRACKET),
        Symbol::Semicolon => shifted(COMMA),
        Symbol::Colon => shifted(DOT),
        Symbol::Underscore => shifted(MINUS),
        Symbol::LeftCurlyBracket => algr(keycode::KC7),
        Symbol::LeftBracket => algr(keycode::KC8),
        Symbol::RightBracket => algr(keycode::KC9),
        Symbol::RightCurlyBracket => algr(keycode::KC0),
        Symbol::Backslash => algr(SHARP_S),
        Symbol::Tilde => algr(PLUS),
        Symbol::Pipe => algr(LEFT_ANGLE_BRACKET),
        Symbol::Micro => algr(keycode::M),
    }
}

} // verus!
