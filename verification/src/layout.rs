//! The keyboard that this firmware is for: two halves of five rows and eight
//! columns, and the default keymap of four layers.

use vstd::prelude::*;
use crate::action::{KeyAction, key, layer_momentary, nokey};
use crate::config::HalfConfig;
use crate::german;
use crate::german::{Symbol, symbol, symbol_action};
use crate::keycode as kc;
use crate::keymap::{Keymap, grid_at, layer_ref_ok};
use crate::storage::Shape;

verus! {

pub const LEFT_COL: usize = 8;
pub const LEFT_ROW: usize = 5;
pub const LEFT_COL_OFFSET: usize = 0;
pub const LEFT_ROW_OFFSET: usize = 0;
pub const RIGHT_COL: usize = 8;
pub const RIGHT_ROW: usize = 5;
pub const RIGHT_COL_OFFSET: usize = 8;
pub const RIGHT_ROW_OFFSET: usize = 0;
pub const NUM_LAYER: usize = 4;
pub const TOTAL_COL: usize = 16;
pub const TOTAL_ROW: usize = 5;

/// The layer of the function keys.
pub const LAYER_CONTROL: u8 = 1;
/// The layer of digits, umlauts and arrows.
pub const LAYER_SPECIAL: u8 = 2;
/// The layer of the characters of program text.
pub const LAYER_PROG: u8 = 3;

/// The dimensions of the keyboard.
pub fn shape() -> (res: Shape)
    ensures
        res == (Shape { layers: 4, rows: 5, cols: 16 }),
{
    Shape { layers: 4, rows: 5, cols: 16 }
}

/// The left half, which is the central one.
pub fn left_half() -> (res: HalfConfig)
    ensures
        res == (HalfConfig { row_offset: 0, col_offset: 0, rows: 5, cols: 8 }),
        res.wf(),
        res.fits(5, 16),
{
    HalfConfig { row_offset: 0, col_offset: 0, rows: 5, cols: 8 }
}

/// The right half, which is the peripheral one: its columns follow those of
/// the left half.
pub fn right_half() -> (res: HalfConfig)
    ensures
        res == (HalfConfig { row_offset: 0, col_offset: 8, rows: 5, cols: 8 }),
        res.wf(),
        res.fits(5, 16),
        !res.overlaps(HalfConfig { row_offset: 0, col_offset: 0, rows: 5, cols: 8 }),
{
    HalfConfig { row_offset: 0, col_offset: 8, rows: 5, cols: 8 }
}

/// Whether the position of the grid has no switch.
pub open spec fn absent(row: int, col: int) -> bool {
    if row == 0 || row == 1 {
        col == 7 || col == 8
    } else if row == 2 {
        6 <= col <= 9
    } else if row == 3 {
        col == 0 || col == 2 || col == 3 || col == 12 || col == 13 || col == 15
    } else {
        col <= 5 || col >= 10
    }
}

/// The action of a position without a switch.
pub open spec fn nokey_action() -> KeyAction {
    KeyAction::Key(kc::ERROR_UNDEFINED)
}

/// The base layer, row by row.
pub open spec fn base_layer() -> Seq<Seq<KeyAction>> {
    let x = nokey_action();
    let n = KeyAction::NoOp;
    seq![
        seq![
            KeyAction::Key(kc::BACKSPACE), KeyAction::Key(kc::DELETE), KeyAction::Key(kc::W),
            KeyAction::Key(kc::E), KeyAction::Key(kc::R), KeyAction::Key(kc::T), n, x,
            x, KeyAction::Key(kc::KC0), KeyAction::Key(german::Z), KeyAction::Key(kc::U),
            KeyAction::Key(kc::I), KeyAction::Key(kc::O), n, n,
        ],
        seq![
            KeyAction::Key(kc::ESCAPE), KeyAction::Key(kc::Q), KeyAction::Key(kc::S),
            KeyAction::Key(kc::D), KeyAction::Key(kc::F), KeyAction::Key(kc::G),
            KeyAction::LayerMomentary(LAYER_CONTROL), x,
            x, n, KeyAction::Key(kc::H), KeyAction::Key(kc::J),
            KeyAction::Key(kc::K), KeyAction::Key(kc::L), KeyAction::Key(kc::P), n,
        ],
        seq![
            KeyAction::Key(kc::LSHIFT), KeyAction::Key(kc::A), KeyAction::Key(kc::X),
            KeyAction::Key(kc::C), KeyAction::Key(kc::V), KeyAction::Key(kc::B), x, x,
            x, x, KeyAction::Key(kc::N), KeyAction::Key(kc::M),
            KeyAction::Key(german::COMMA), KeyAction::Key(german::DOT),
            KeyAction::Key(kc::ENTER), KeyAction::Key(kc::TAB),
        ],
        seq![
            x, KeyAction::Key(german::Y), x, x,
            KeyAction::Key(kc::LGUI), KeyAction::LayerMomentary(LAYER_PROG),
            KeyAction::Key(kc::SPACE), KeyAction::Key(kc::LALT),
            n, KeyAction::LayerMomentary(LAYER_CONTROL), KeyAction::LayerMomentary(LAYER_SPECIAL), n,
            x, x, KeyAction::Key(german::MINUS), x,
        ],
        seq![
            x, x, x, x, x, x, KeyAction::Key(kc::LCTRL), KeyAction::Key(kc::RALT),
            n, n, x, x, x, x, x, x,
        ],
    ]
}

/// What the layer of the function keys puts over the layers below it.
pub open spec fn control_overlay(row: int, col: int) -> Option<KeyAction> {
    if row == 0 && col == 2 {
        Some(KeyAction::Key(kc::F2))
    } else if row == 0 && col == 3 {
        Some(KeyAction::Key(kc::F3))
    } else if row == 0 && col == 4 {
        Some(KeyAction::Key(kc::F4))
    } else if row == 0 && col == 5 {
        Some(KeyAction::Key(kc::F5))
    } else if row == 0 && col == 9 {
        Some(KeyAction::Key(kc::KC1))
    } else if row == 1 && col == 1 {
        Some(KeyAction::Key(kc::F1))
    } else if row == 1 && col == 2 {
        Some(KeyAction::Key(kc::PRINT_SCREEN))
    } else if row == 3 && col == 5 {
        Some(KeyAction::Key(kc::INSERT))
    } else if row == 4 && col == 7 {
        Some(nokey_action())
    } else {
        None
    }
}

/// What the layer of digits, umlauts and arrows puts over the layers below
/// it.
pub open spec fn special_overlay(row: int, col: int) -> Option<KeyAction> {
    if row == 0 && 2 <= col <= 5 {
        Some(KeyAction::Key((kc::KC2 + (col - 2)) as u16))
    } else if row == 0 && 10 <= col <= 13 {
        Some(KeyAction::Key((kc::KC6 + (col - 10)) as u16))
    } else if row == 1 && col == 1 {
        Some(KeyAction::Key(kc::KC1))
    } else if row == 1 && col == 2 {
        Some(KeyAction::Key(kc::BACKSPACE))
    } else if row == 1 && col == 3 {
        Some(KeyAction::Key(german::UDIA))
    } else if row == 1 && col == 4 {
        Some(KeyAction::Key(german::ODIA))
    } else if row == 1 && col == 5 {
        Some(KeyAction::Key(kc::DELETE))
    } else if row == 1 && col == 10 {
        Some(KeyAction::Key(kc::LEFT))
    } else if row == 1 && col == 11 {
        Some(KeyAction::Key(kc::DOWN))
    } else if row == 1 && col == 12 {
        Some(KeyAction::Key(kc::UP))
    } else if row == 1 && col == 13 {
        Some(KeyAction::Key(kc::RIGHT))
    } else if row == 1 && col == 14 {
        Some(KeyAction::Key(kc::KC0))
    } else if row == 1 && col == 15 {
        Some(KeyAction::Key(german::ACUTE))
    } else if row == 2 && col == 1 {
        Some(KeyAction::Key(german::ADIA))
    } else if row == 3 && col == 1 {
        Some(KeyAction::Key(german::CIRCUMFLEX))
    } else {
        None
    }
}

/// What the layer of the characters of program text puts over the layers
/// below it.
pub open spec fn prog_overlay(row: int, col: int) -> Option<KeyAction> {
    if row == 0 && col == 2 {
        Some(symbol_action(Symbol::DoubleQuote))
    } else if row == 0 && col == 4 {
        Some(symbol_action(Symbol::Dollar))
    } else if row == 0 && col == 5 {
        Some(symbol_action(Symbol::Tilde))
    } else if row == 0 && col == 10 {
        Some(symbol_action(Symbol::Ampersand))
    } else if row == 0 && col == 11 {
        Some(symbol_action(Symbol::LeftCurlyBracket))
    } else if row == 0 && col == 12 {
        Some(symbol_action(Symbol::LeftBracket))
    } else if row == 0 && col == 13 {
        Some(symbol_action(Symbol::RightBracket))
    } else if row == 1 && col == 0 {
        Some(KeyAction::Key(german::CIRCUMFLEX))
    } else if row == 1 && col == 1 {
        Some(symbol_action(Symbol::Exclamation))
    } else if row == 1 && col == 2 {
        Some(KeyAction::Key(german::LEFT_ANGLE_BRACKET))
    } else if row == 1 && col == 3 {
        Some(symbol_action(Symbol::RightAngleBracket))
    } else if row == 1 && col == 4 {
        Some(KeyAction::Key(german::PLUS))
    } else if row == 1 && col == 5 {
        Some(KeyAction::Key(german::HASH))
    } else if row == 1 && col == 10 {
        Some(symbol_action(Symbol::Slash))
    } else if row == 1 && col == 12 {
        Some(symbol_action(Symbol::LeftParenthesis))
    } else if row == 1 && col == 13 {
        Some(symbol_action(Symbol::RightParenthesis))
    } else if row == 1 && col == 14 {
        Some(symbol_action(Symbol::RightCurlyBracket))
    } else if row == 2 && col == 14 {
        Some(symbol_action(Symbol::Equal))
    } else {
        None
    }
}

/// What a layer above the base layer puts over the layers below it.
pub open spec fn overlay(layer: int, row: int, col: int) -> Option<KeyAction> {
    if layer == 1 {
        control_overlay(row, col)
    } else if layer == 2 {
        special_overlay(row, col)
    } else {
        prog_overlay(row, col)
    }
}

/// The cell of the default keymap. The base layer is a table. A layer above
/// it names the cells that it puts over the lower layers and is transparent
/// elsewhere, but for the positions without a switch, which are the same on
/// every layer.
pub open spec fn default_action(layer: int, row: int, col: int) -> KeyAction {
    if layer == 0 {
        base_layer()[row][col]
    } else {
        match overlay(layer, row, col) {
            Some(a) => a,
            None => if absent(row, col) {
                nokey_action()
            } else {
                KeyAction::Transparent
            },
        }
    }
}

/// The default keymap, layer by layer and row by row.
pub fn get_default_keymap() -> (res: [[[KeyAction; TOTAL_COL]; TOTAL_ROW]; NUM_LAYER])
    ensures
        forall|l: int, r: int, c: int|
            0 <= l < 4 && 0 <= r < 5 && 0 <= c < 16 ==> #[trigger] grid_at(&res, l, r, c)
                == default_action(l, r, c),
{
    let t = KeyAction::Transparent;
    let n = KeyAction::NoOp;
    let x = nokey();
    let control = layer_momentary(LAYER_CONTROL);
    let special = layer_momentary(LAYER_SPECIAL);
    let prog = layer_momentary(LAYER_PROG);
    let base: [[KeyAction; TOTAL_COL]; TOTAL_ROW] = [
        [key(kc::BACKSPACE), key(kc::DELETE), key(kc::W), key(kc::E), key(kc::R), key(kc::T), n, x,
            x, key(kc::KC0), key(german::Z), key(kc::U), key(kc::I), key(kc::O), n, n],
        [key(kc::ESCAPE), key(kc::Q), key(kc::S), key(kc::D), key(kc::F), key(kc::G), control, x,
            x, n, key(kc::H), key(kc::J), key(kc::K), key(kc::L), key(kc::P), n],
        [key(kc::LSHIFT), key(kc::A), key(kc::X), key(kc::C), key(kc::V), key(kc::B), x, x,
            x, x, key(kc::N), key(kc::M), key(german::COMMA), key(german::DOT), key(kc::ENTER), key(kc::TAB)],
        [x, key(german::Y), x, x, key(kc::LGUI), prog, key(kc::SPACE), key(kc::LALT),
            n, control, special, n, x, x, key(german::MINUS), x],
        [x, x, x, x, x, x, key(kc::LCTRL), key(kc::RALT),
            n, n, x, x, x, x, x, x],
    ];
    let control_layer: [[KeyAction; TOTAL_COL]; TOTAL_ROW] = [
        [t, t, key(kc::F2), key(kc::F3), key(kc::F4), key(kc::F5), t, x,
            x, key(kc::KC1), t, t, t, t, t, t],
        [t, key(kc::F1), key(kc::PRINT_SCREEN), t, t, t, t, x,
            x, t, t, t, t, t, t, t],
        [t, t, t, t, t, t, x, x,
            x, x, t, t, t, t, t, t],
        [x, t, x, x, t, key(kc::INSERT), t, t,
            t, t, t, t, x, x, t, x],
        [x, x, x, x, x, x, t, x,
            t, t, x, x, x, x, x, x],
    ];
    let special_layer: [[KeyAction; TOTAL_COL]; TOTAL_ROW] = [
        [t, t, key(kc::KC2), key(kc::KC3), key(kc::KC4), key(kc::KC5), t, x,
            x, t, key(kc::KC6), key(kc::KC7), key(kc::KC8), key(kc::KC9), t, t],
        [t, key(kc::KC1), key(kc::BACKSPACE), key(german::UDIA), key(german::ODIA), key(kc::DELETE), t, x,
            x, t, key(kc::LEFT), key(kc::DOWN), key(kc::UP), key(kc::RIGHT), key(kc::KC0), key(german::ACUTE)],
        [t, key(german::ADIA), t, t, t, t, x, x,
            x, x, t, t, t, t, t, t],
        [x, key(german::CIRCUMFLEX), x, x, t, t, t, t,
            t, t, t, t, x, x, t, x],
        [x, x, x, x, x, x, t, t,
            t, t, x, x, x, x, x, x],
    ];
    let prog_layer: [[KeyAction; TOTAL_COL]; TOTAL_ROW] = [
        [t, t, symbol(Symbol::DoubleQuote), t, symbol(Symbol::Dollar), symbol(Symbol::Tilde), t, x,
            x, t, symbol(Symbol::Ampersand), symbol(Symbol::LeftCurlyBracket), symbol(Symbol::LeftBracket), symbol(Symbol::RightBracket), t, t],
        [key(german::CIRCUMFLEX), symbol(Symbol::Exclamation), key(german::LEFT_ANGLE_BRACKET), symbol(Symbol::RightAngleBracket), key(german::PLUS), key(german::HASH), t, x,
            x, t, symbol(Symbol::Slash), t, symbol(Symbol::LeftParenthesis), symbol(Symbol::RightParenthesis), symbol(Symbol::RightCurlyBracket), t],
        [t, t, t, t, t, t, x, x,
            x, x, t, t, t, t, symbol(Symbol::Equal), t],
        [x, t, x, x, t, t, t, t,
            t, t, t, t, x, x, t, x],
        [x, x, x, x, x, x, t, t,
            t, t, x, x, x, x, x, x],
    ];
    let res = [base, control_layer, special_layer, prog_layer];
    res
}

/// Every layer key of the default keymap names one of its four layers.
pub proof fn lemma_default_layers_exist(layer: int, row: int, col: int)
    requires
        0 <= layer < 4,
        0 <= row < 5,
        0 <= col < 16,
    ensures
        layer_ref_ok(default_action(layer, row, col), 4),
{
}

/// The default keymap as a keymap.
pub fn default_keymap() -> (res: Keymap)
    ensures
        res@.wf(),
        res@.layers == 4 && res@.rows == 5 && res@.cols == 16,
        forall|l: int, r: int, c: int|
            0 <= l < 4 && 0 <= r < 5 && 0 <= c < 16 ==> #[trigger] res@.action_at(l, r, c)
                == default_action(l, r, c),
{
    let grid = get_default_keymap();
    match Keymap::from_grid(&grid) {
        Ok(km) => {
            assert forall|l: int, r: int, c: int|
                0 <= l < 4 && 0 <= r < 5 && 0 <= c < 16 implies #[trigger] km@.action_at(l, r, c)
                == default_action(l, r, c) by {
                assert(km@.action_at(l, r, c) == grid_at(&grid, l, r, c));
            }
            km
        },
        Err(e) => {
            proof {
                let (l, r, c) = choose|l: int, r: int, c: int|
                    0 <= l < 4 && 0 <= r < 5 && 0 <= c < 16 && !layer_ref_ok(
                        #[trigger] grid_at(&grid, l, r, c),
                        4,
                    );
                lemma_default_layers_exist(l, r, c);
                assert(false);
            }
            vstd::pervasive::unreached()
        },
    }
}

} // verus!
