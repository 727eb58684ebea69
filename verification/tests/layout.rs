use split_keyboard::action::{KeyAction, ModifierSet};
use split_keyboard::event::{HidReport, KeyEvent, LogicalCoordinate};
use split_keyboard::german::{symbol, Symbol};
use split_keyboard::keycode;
use split_keyboard::keymap::Keymap;
use split_keyboard::layout::{
    default_keymap, get_default_keymap, NUM_LAYER, RIGHT_COL_OFFSET, TOTAL_COL, TOTAL_ROW,
};
use split_keyboard::resolver::Resolver;

#[test]
fn default_keymap_has_four_layers_of_five_by_sixteen() {
    let grid = get_default_keymap();
    assert_eq!((grid.len(), grid[0].len(), grid[0][0].len()), (4, 5, 16));
    assert_eq!((NUM_LAYER, TOTAL_ROW, TOTAL_COL, RIGHT_COL_OFFSET), (4, 5, 16, 8));
    let km = default_keymap();
    assert_eq!((km.layers(), km.rows(), km.cols()), (4, 5, 16));
    let again = Keymap::from_grid(&grid).unwrap();
    assert_eq!(again.cells(), km.cells());
}

#[test]
fn default_base_layer_cells() {
    let grid = get_default_keymap();
    assert_eq!(grid[0][0][0], KeyAction::Key(keycode::BACKSPACE));
    assert_eq!(grid[0][0][6], KeyAction::NoOp);
    assert_eq!(grid[0][0][7], KeyAction::Key(keycode::ERROR_UNDEFINED));
    assert_eq!(grid[0][0][10], KeyAction::Key(keycode::Y));
    assert_eq!(grid[0][1][6], KeyAction::LayerMomentary(1));
    assert_eq!(grid[0][2][15], KeyAction::Key(keycode::TAB));
    assert_eq!(grid[0][3][1], KeyAction::Key(keycode::Z));
    assert_eq!(grid[0][3][5], KeyAction::LayerMomentary(3));
    assert_eq!(grid[0][3][9], KeyAction::LayerMomentary(1));
    assert_eq!(grid[0][3][10], KeyAction::LayerMomentary(2));
    assert_eq!(grid[0][3][14], KeyAction::Key(keycode::SLASH));
    assert_eq!(grid[0][4][6], KeyAction::Key(keycode::LCTRL));
    assert_eq!(grid[0][4][7], KeyAction::Key(keycode::RALT));
}

#[test]
fn default_upper_layer_cells() {
    let grid = get_default_keymap();
    assert_eq!(grid[1][0][2], KeyAction::Key(keycode::F2));
    assert_eq!(grid[1][0][0], KeyAction::Transparent);
    assert_eq!(grid[1][3][5], KeyAction::Key(keycode::INSERT));
    assert_eq!(grid[1][4][7], KeyAction::Key(keycode::ERROR_UNDEFINED));
    assert_eq!(grid[2][4][7], KeyAction::Transparent);
    assert_eq!(grid[2][0][13], KeyAction::Key(keycode::KC9));
    assert_eq!(grid[2][1][3], KeyAction::Key(keycode::LEFT_BRACKET));
    assert_eq!(grid[2][1][15], KeyAction::Key(keycode::EQUAL));
    assert_eq!(grid[2][3][1], KeyAction::Key(keycode::GRAVE));
    assert_eq!(
        grid[3][0][2],
        KeyAction::KeyWithModifiers(keycode::KC2, ModifierSet::from_bits(0x02))
    );
    assert_eq!(
        grid[3][0][5],
        KeyAction::KeyWithModifiers(keycode::RIGHT_BRACKET, ModifierSet::from_bits(0x14))
    );
    assert_eq!(grid[3][1][2], KeyAction::Key(keycode::NONUS_BACKSLASH));
    assert_eq!(
        grid[3][2][14],
        KeyAction::KeyWithModifiers(keycode::KC0, ModifierSet::from_bits(0x02))
    );
}

#[test]
fn positions_without_a_switch_are_the_same_on_every_layer() {
    let grid = get_default_keymap();
    let x = KeyAction::Key(keycode::ERROR_UNDEFINED);
    for layer in 0..4 {
        for (row, col) in [(0, 7), (0, 8), (1, 8), (2, 6), (2, 9), (3, 0), (3, 15), (4, 0), (4, 15)] {
            assert_eq!(grid[layer][row][col], x);
        }
    }
}

#[test]
fn german_symbols_name_key_and_modifier() {
    assert_eq!(
        symbol(Symbol::Pipe),
        KeyAction::KeyWithModifiers(keycode::NONUS_BACKSLASH, ModifierSet::from_bits(0x14))
    );
    assert_eq!(
        symbol(Symbol::Underscore),
        KeyAction::KeyWithModifiers(keycode::SLASH, ModifierSet::from_bits(0x02))
    );
    assert_eq!(
        symbol(Symbol::QuestionMark),
        KeyAction::KeyWithModifiers(keycode::MINUS, ModifierSet::from_bits(0x02))
    );
    assert_eq!(
        symbol(Symbol::Micro),
        KeyAction::KeyWithModifiers(keycode::M, ModifierSet::from_bits(0x14))
    );
}

#[test]
fn default_keymap_types_a_brace_on_the_prog_layer() {
    let km = default_keymap();
    let mut r = Resolver::new();
    let at = |row: u8, col: u8, pressed: bool| KeyEvent {
        coordinate: LogicalCoordinate { row, col },
        pressed,
        sequence: 0,
    };
    assert_eq!(r.process(&km, at(3, 5, true)), None);
    assert_eq!(
        r.process(&km, at(0, 11, true)),
        Some(HidReport::Press(keycode::KC7, ModifierSet::from_bits(0x14)))
    );
    assert_eq!(r.process(&km, at(0, 11, false)), Some(HidReport::Release(keycode::KC7)));
    assert_eq!(
        r.process(&km, at(0, 3, true)),
        Some(HidReport::Press(keycode::E, ModifierSet::empty()))
    );
    assert_eq!(r.process(&km, at(3, 5, false)), None);
    assert_eq!(r.active_layers(), &vec![0u8]);
}

#[test]
fn default_keymap_is_reached_through_the_keymap_module() {
    let a = split_keyboard::keymap::get_default_keymap();
    let b = get_default_keymap();
    assert_eq!(a, b);
    assert_eq!(split_keyboard::keymap::TOTAL_COL, split_keyboard::keymap::LEFT_COL + split_keyboard::keymap::RIGHT_COL);
}
