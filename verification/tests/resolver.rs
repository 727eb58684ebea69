use split_keyboard::action::{
    key, layer_momentary, layer_toggle, with_modifiers, KeyAction, ModifierSet, MOD_CTRL, MOD_SHIFT,
};
use split_keyboard::event::{HidReport, KeyEvent, LogicalCoordinate};
use split_keyboard::keycode;
use split_keyboard::keymap::{Keymap, KeymapError};
use split_keyboard::layers::LayerStack;
use split_keyboard::resolver::{contributed_modifiers, HeldKey, Resolver};

fn ev(row: u8, col: u8, pressed: bool, sequence: u64) -> KeyEvent {
    KeyEvent { coordinate: LogicalCoordinate { row, col }, pressed, sequence }
}

fn two_layers() -> Keymap {
    let t = KeyAction::Transparent;
    let grid = [
        [
            [key(keycode::A), key(keycode::Q), layer_momentary(1)],
            [
                with_modifiers(keycode::KC1, ModifierSet::from_bits(MOD_SHIFT)),
                with_modifiers(keycode::KC2, ModifierSet::from_bits(MOD_CTRL)),
                layer_toggle(1),
            ],
        ],
        [[t, key(keycode::F1), t], [t, t, t]],
    ];
    Keymap::from_grid(&grid).unwrap()
}

#[test]
fn base_layer_press_and_release() {
    let km = two_layers();
    let mut r = Resolver::new();
    assert_eq!(
        r.process(&km, ev(0, 0, true, 0)),
        Some(HidReport::Press(keycode::A, ModifierSet::empty()))
    );
    assert_eq!(r.process(&km, ev(0, 0, false, 1)), Some(HidReport::Release(keycode::A)));
    assert!(r.held_keys().is_empty());
}

#[test]
fn momentary_layer_and_press_time_memory() {
    let km = two_layers();
    let mut r = Resolver::new();
    assert_eq!(r.process(&km, ev(0, 2, true, 0)), None);
    assert_eq!(r.active_layers(), &vec![0u8, 1u8]);
    assert_eq!(
        r.process(&km, ev(0, 1, true, 1)),
        Some(HidReport::Press(keycode::F1, ModifierSet::empty()))
    );
    assert_eq!(r.process(&km, ev(0, 2, false, 2)), None);
    assert_eq!(r.active_layers(), &vec![0u8]);
    assert_eq!(r.process(&km, ev(0, 1, false, 3)), Some(HidReport::Release(keycode::F1)));
    assert_eq!(
        r.process(&km, ev(0, 1, true, 4)),
        Some(HidReport::Press(keycode::Q, ModifierSet::empty()))
    );
}

#[test]
fn modifiers_merge_and_drop_back() {
    let km = two_layers();
    let mut r = Resolver::new();
    assert_eq!(
        r.process(&km, ev(1, 0, true, 0)),
        Some(HidReport::Press(keycode::KC1, ModifierSet::from_bits(MOD_SHIFT)))
    );
    assert_eq!(
        r.process(&km, ev(1, 1, true, 1)),
        Some(HidReport::Press(keycode::KC2, ModifierSet::from_bits(MOD_SHIFT | MOD_CTRL)))
    );
    assert_eq!(r.active_modifiers(), ModifierSet::from_bits(0x03));
    assert_eq!(
        r.process(&km, ev(0, 0, true, 2)),
        Some(HidReport::Press(keycode::A, ModifierSet::from_bits(0x03)))
    );
    assert_eq!(r.process(&km, ev(1, 1, false, 3)), Some(HidReport::Release(keycode::KC2)));
    assert_eq!(r.active_modifiers(), ModifierSet::from_bits(MOD_SHIFT));
    assert_eq!(r.process(&km, ev(0, 0, false, 4)), Some(HidReport::Release(keycode::A)));
    assert_eq!(
        r.process(&km, ev(0, 1, true, 5)),
        Some(HidReport::Press(keycode::Q, ModifierSet::from_bits(MOD_SHIFT)))
    );
    assert_eq!(r.process(&km, ev(1, 0, false, 6)), Some(HidReport::Release(keycode::KC1)));
    assert!(r.active_modifiers().is_empty());
}

#[test]
fn toggle_stays_after_release_and_flips_back() {
    let km = two_layers();
    let mut r = Resolver::new();
    assert_eq!(r.process(&km, ev(1, 2, true, 0)), None);
    assert_eq!(r.process(&km, ev(1, 2, false, 1)), None);
    assert_eq!(r.active_layers(), &vec![0u8, 1u8]);
    assert_eq!(
        r.process(&km, ev(0, 1, true, 2)),
        Some(HidReport::Press(keycode::F1, ModifierSet::empty()))
    );
    assert_eq!(r.process(&km, ev(0, 1, false, 3)), Some(HidReport::Release(keycode::F1)));
    assert_eq!(r.process(&km, ev(1, 2, true, 4)), None);
    assert_eq!(r.active_layers(), &vec![0u8]);
}

#[test]
fn repeated_press_and_stray_release_change_nothing() {
    let km = two_layers();
    let mut r = Resolver::new();
    assert_eq!(r.process(&km, ev(0, 1, false, 0)), None);
    assert!(r.process(&km, ev(0, 1, true, 1)).is_some());
    assert_eq!(r.process(&km, ev(0, 1, true, 2)), None);
    assert_eq!(
        r.held_keys(),
        &vec![HeldKey { row: 0, col: 1, action: KeyAction::Key(keycode::Q) }]
    );
}

#[test]
fn coordinate_outside_the_keymap_is_noop() {
    let km = two_layers();
    let mut r = Resolver::new();
    assert_eq!(r.process(&km, ev(9, 9, true, 0)), None);
    assert_eq!(r.process(&km, ev(9, 9, false, 1)), None);
    assert_eq!(km.resolve(&vec![0, 1], 9, 9), KeyAction::NoOp);
}

#[test]
fn all_transparent_resolves_to_noop() {
    let t = KeyAction::Transparent;
    let km = Keymap::new(3, 1, 2, vec![t, key(keycode::B), t, t, t, key(keycode::C)]).unwrap();
    for stack in [vec![0u8], vec![0, 1], vec![0, 2], vec![0, 1, 2], vec![0, 2, 1]] {
        assert_eq!(km.resolve(&stack, 0, 0), KeyAction::NoOp);
    }
    assert_eq!(km.resolve(&vec![0, 1], 0, 1), KeyAction::Key(keycode::B));
    assert_eq!(km.resolve(&vec![0, 1, 2], 0, 1), KeyAction::Key(keycode::C));
    assert_eq!(km.resolve(&vec![0, 2, 1], 0, 1), KeyAction::Key(keycode::C));
    assert_eq!(km.resolve(&vec![], 0, 1), KeyAction::NoOp);
}

#[test]
fn resolving_twice_gives_the_same_action() {
    let km = two_layers();
    let stack = vec![0u8, 1u8];
    for row in 0..2u8 {
        for col in 0..3u8 {
            assert_eq!(km.resolve(&stack, row, col), km.resolve(&stack, row, col));
        }
    }
    assert_eq!(km.resolve(&stack, 0, 0), KeyAction::Key(keycode::A));
    assert_eq!(km.resolve(&stack, 0, 1), KeyAction::Key(keycode::F1));
}

#[test]
fn keymap_refuses_bad_shapes() {
    assert_eq!(Keymap::new(0, 1, 1, vec![]).unwrap_err(), KeymapError::BadShape);
    assert_eq!(Keymap::new(1, 0, 1, vec![]).unwrap_err(), KeymapError::BadShape);
    assert_eq!(Keymap::new(1, 1, 0, vec![]).unwrap_err(), KeymapError::BadShape);
    assert_eq!(Keymap::new(1, 2, 2, vec![KeyAction::NoOp; 3]).unwrap_err(), KeymapError::BadShape);
    let empty: [[[KeyAction; 2]; 0]; 1] = [[]];
    assert_eq!(Keymap::from_grid(&empty).unwrap_err(), KeymapError::BadShape);
}

#[test]
fn keymap_refuses_unknown_layers() {
    assert_eq!(
        Keymap::new(2, 1, 1, vec![KeyAction::NoOp, layer_momentary(2)]).unwrap_err(),
        KeymapError::UnknownLayer
    );
    assert_eq!(
        Keymap::from_grid(&[[[layer_toggle(1)]]]).unwrap_err(),
        KeymapError::UnknownLayer
    );
    assert!(Keymap::new(2, 1, 1, vec![layer_toggle(1), layer_momentary(0)]).is_ok());
}

#[test]
fn keymap_cells_lie_layer_by_layer_and_row_by_row() {
    let km = two_layers();
    assert_eq!((km.layers(), km.rows(), km.cols()), (2, 2, 3));
    assert_eq!(km.cells().len(), 12);
    assert_eq!(km.cells()[7], KeyAction::Key(keycode::F1));
    assert_eq!(km.action(1, 0, 1), KeyAction::Key(keycode::F1));
    assert_eq!(km.action(0, 1, 2), KeyAction::LayerToggle(1));
    assert_eq!(km.action(2, 0, 0), KeyAction::Transparent);
    assert_eq!(km.action(0, 2, 0), KeyAction::Transparent);
    assert_eq!(km.action(0, 0, 3), KeyAction::Transparent);
}

#[test]
fn layer_stack_keeps_the_base_and_the_order() {
    let mut s = LayerStack::new();
    assert_eq!(s.as_vec(), &vec![0u8]);
    s.activate(2);
    s.activate(1);
    s.activate(2);
    assert_eq!(s.as_vec(), &vec![0u8, 2, 1]);
    assert_eq!(s.top(), 1);
    assert!(s.is_active(2));
    assert!(!s.is_active(3));
    s.deactivate(0);
    s.toggle(0);
    s.activate(0);
    assert_eq!(s.as_vec(), &vec![0u8, 2, 1]);
    s.deactivate(2);
    assert_eq!(s.as_vec(), &vec![0u8, 1]);
    s.deactivate(3);
    assert_eq!(s.as_vec(), &vec![0u8, 1]);
    s.toggle(3);
    assert_eq!(s.as_vec(), &vec![0u8, 1, 3]);
    s.toggle(1);
    assert_eq!(s.as_vec(), &vec![0u8, 3]);
}

#[test]
fn modifier_sets_are_built_from_flags() {
    assert_eq!(ModifierSet::new_from(false, false, false, true, false).bits, 0x02);
    assert_eq!(ModifierSet::new_from(true, false, true, false, false).bits, 0x14);
    assert_eq!(ModifierSet::new_from(true, true, true, true, true).bits, 0x1F);
    assert_eq!(ModifierSet::new_from(false, false, false, false, false), ModifierSet::empty());
    let m = ModifierSet::from_bits(MOD_SHIFT).union(ModifierSet::from_bits(MOD_CTRL));
    assert_eq!(m.bits, 3);
    assert!(m.contains(MOD_SHIFT) && m.contains(MOD_CTRL));
    assert!(!m.contains(0x04));
}

#[test]
fn modifier_keys_contribute_their_modifier() {
    let km = Keymap::from_grid(&[[[key(keycode::LSHIFT), key(keycode::RALT), key(keycode::A)]]])
        .unwrap();
    let mut r = Resolver::new();
    assert_eq!(
        r.process(&km, ev(0, 0, true, 0)),
        Some(HidReport::Press(keycode::LSHIFT, ModifierSet::from_bits(0x02)))
    );
    assert_eq!(
        r.process(&km, ev(0, 2, true, 1)),
        Some(HidReport::Press(keycode::A, ModifierSet::from_bits(0x02)))
    );
    assert_eq!(r.process(&km, ev(0, 2, false, 2)), Some(HidReport::Release(keycode::A)));
    assert_eq!(
        r.process(&km, ev(0, 1, true, 3)),
        Some(HidReport::Press(keycode::RALT, ModifierSet::from_bits(0x16)))
    );
    assert_eq!(r.process(&km, ev(0, 0, false, 4)), Some(HidReport::Release(keycode::LSHIFT)));
    assert_eq!(r.active_modifiers(), ModifierSet::from_bits(0x14));
    assert_eq!(r.process(&km, ev(0, 1, false, 5)), Some(HidReport::Release(keycode::RALT)));
    assert!(r.active_modifiers().is_empty());
}

#[test]
fn contributed_modifiers_of_each_action() {
    assert_eq!(contributed_modifiers(key(keycode::LCTRL)).bits, 0x01);
    assert_eq!(contributed_modifiers(key(keycode::LSHIFT)).bits, 0x02);
    assert_eq!(contributed_modifiers(key(keycode::LALT)).bits, 0x04);
    assert_eq!(contributed_modifiers(key(keycode::LGUI)).bits, 0x08);
    assert_eq!(contributed_modifiers(key(keycode::RCTRL)).bits, 0x11);
    assert_eq!(contributed_modifiers(key(keycode::RSHIFT)).bits, 0x12);
    assert_eq!(contributed_modifiers(key(keycode::RALT)).bits, 0x14);
    assert_eq!(contributed_modifiers(key(keycode::RGUI)).bits, 0x18);
    assert_eq!(contributed_modifiers(key(keycode::A)).bits, 0);
    assert_eq!(contributed_modifiers(layer_momentary(1)).bits, 0);
    assert_eq!(contributed_modifiers(with_modifiers(keycode::A, ModifierSet::from_bits(9))).bits, 9);
}
