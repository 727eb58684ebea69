//! Key actions and the modifier sets they carry.

use vstd::prelude::*;

verus! {

/// Bit of the `Ctrl` modifier in a `ModifierSet`.
pub const MOD_CTRL: u8 = 0x01;
/// Bit of the `Shift` modifier.
pub const MOD_SHIFT: u8 = 0x02;
/// Bit of the `Alt` modifier.
pub const MOD_ALT: u8 = 0x04;
/// Bit of the `Gui` modifier.
pub const MOD_GUI: u8 = 0x08;
/// Bit that selects the right-hand variants of the modifiers in the set.
pub const MOD_RIGHT: u8 = 0x10;

/// A set of modifiers, one bit each: `Ctrl`, `Shift`, `Alt`, `Gui`, and the
/// bit that selects the right-hand variants.
#[derive(Clone, Copy, Debug, PartialEq, Eq, Structural)]
pub struct ModifierSet {
    pub bits: u8,
}

/// What a cell of the keymap does.
#[derive(Clone, Copy, Debug, PartialEq, Eq, Structural)]
pub enum KeyAction {
    /// A plain key stroke.
    Key(u16),
    /// A key stroke sent together with a set of modifiers.
    KeyWithModifiers(u16, ModifierSet),
    /// The layer is active while the key is held.
    LayerMomentary(u8),
    /// Each press flips whether the layer is active.
    LayerToggle(u8),
    /// The cell defers to the next lower active layer.
    Transparent,
    /// The cell does nothing.
    NoOp,
}

/// The value of one flag as a bit.
pub open spec fn flag(on: bool, bit: u8) -> u8 {
    if on { bit } else { 0u8 }
}

impl ModifierSet {
    /// The set without any modifier.
    pub fn empty() -> (res: ModifierSet)
        ensures
            res.bits == 0,
    {
        ModifierSet { bits: 0 }
    }

    /// The set with exactly the given bits.
    pub fn from_bits(bits: u8) -> (res: ModifierSet)
        ensures
            res.bits == bits,
    {
        ModifierSet { bits }
    }

    /// The set made of the named flags: each flag that is `true` contributes
    /// its bit and nothing else is set.
    pub fn new_from(right: bool, gui: bool, alt: bool, shift: bool, ctrl: bool) -> (res: ModifierSet)
        ensures
            res.bits == flag(ctrl, MOD_CTRL) + flag(shift, MOD_SHIFT) + flag(alt, MOD_ALT) + flag(
                gui,
                MOD_GUI,
            ) + flag(right, MOD_RIGHT),
            res.has(MOD_CTRL) == ctrl,
            res.has(MOD_SHIFT) == shift,
            res.has(MOD_ALT) == alt,
            res.has(MOD_GUI) == gui,
            res.has(MOD_RIGHT) == right,
    {
        let c: u8 = if ctrl { MOD_CTRL } else { 0 };
        let s: u8 = if shift { MOD_SHIFT } else { 0 };
        let a: u8 = if alt { MOD_ALT } else { 0 };
        let g: u8 = if gui { MOD_GUI } else { 0 };
        let r: u8 = if right { MOD_RIGHT } else { 0 };
        let bits: u8 = c | s | a | g | r;
        proof {
            assert(bits == c + s + a + g + r && (bits & 0x01u8 != 0) == ctrl && (bits & 0x02u8 != 0) == shift && (bits & 0x04u8
                != 0) == alt && (bits & 0x08u8 != 0) == gui && (bits & 0x10u8 != 0) == right)
                by (bit_vector)
                requires
                    c == 0u8 || c == 0x01u8,
                    s == 0u8 || s == 0x02u8,
                    a == 0u8 || a == 0x04u8,
                    g == 0u8 || g == 0x08u8,
                    r == 0u8 || r == 0x10u8,
                    (c == 0x01u8) == ctrl,
                    (s == 0x02u8) == shift,
                    (a == 0x04u8) == alt,
                    (g == 0x08u8) == gui,
                    (r == 0x10u8) == right,
                    bits == c | s | a | g | r,
            ;
        }
        ModifierSet { bits }
    }

    /// Whether the set holds the modifier bit.
    pub open spec fn has(self, bit: u8) -> bool {
        self.bits & bit != 0
    }

    /// Whether the set holds the modifier bit.
    pub fn contains(self, bit: u8) -> (res: bool)
        ensures
            res == self.has(bit),
    {
        self.bits & bit != 0
    }

    /// The union of two sets.
    pub open spec fn union_spec(self, other: ModifierSet) -> ModifierSet {
        ModifierSet { bits: self.bits | other.bits }
    }

    /// The union of two sets.
    pub fn union(self, other: ModifierSet) -> (res: ModifierSet)
        ensures
            res == self.union_spec(other),
    {
        ModifierSet { bits: self.bits | other.bits }
    }

    /// Whether the set is empty.
    pub fn is_empty(self) -> (res: bool)
        ensures
            res == (self.bits == 0),
    {
        self.bits == 0
    }
}

/// A modifier is in a union exactly when it is in one of the two sets, and
/// the union is commutative, idempotent and has the empty set as its unit.
pub proof fn lemma_union_is_set_union(a: ModifierSet, b: ModifierSet, bit: u8)
    ensures
        a.union_spec(b).has(bit) == (a.has(bit) || b.has(bit)),
        a.union_spec(b) == b.union_spec(a),
        a.union_spec(a) == a,
        a.union_spec(ModifierSet { bits: 0 }) == a,
{
    let x = a.bits;
    let y = b.bits;
    assert(((x | y) & bit != 0) == ((x & bit != 0) || (y & bit != 0))) by (bit_vector);
    assert(x | y == y | x) by (bit_vector);
    assert(x | x == x) by (bit_vector);
    assert(x | 0u8 == x) by (bit_vector);
}

/// A plain key stroke of the given usage code.
pub fn key(code: u16) -> (res: KeyAction)
    ensures
        res == KeyAction::Key(code),
{
    KeyAction::Key(code)
}

/// A key stroke sent together with the given modifiers.
pub fn with_modifiers(code: u16, modifiers: ModifierSet) -> (res: KeyAction)
    ensures
        res == KeyAction::KeyWithModifiers(code, modifiers),
{
    KeyAction::KeyWithModifiers(code, modifiers)
}

/// The key stroke with `Shift` held.
pub fn shifted(code: u16) -> (res: KeyAction)
    ensures
        res == KeyAction::KeyWithModifiers(code, ModifierSet { bits: MOD_SHIFT }),
{
    with_modifiers(code, ModifierSet::new_from(false, false, false, true, false))
}

/// The key stroke with the right-hand `Alt` (AltGr) held.
pub fn algr(code: u16) -> (res: KeyAction)
    ensures
        res == KeyAction::KeyWithModifiers(code, ModifierSet { bits: 0x14 }),
{
    with_modifiers(code, ModifierSet::new_from(true, false, true, false, false))
}

/// A key that keeps the layer active while it is held.
pub fn layer_momentary(layer: u8) -> (res: KeyAction)
    ensures
        res == KeyAction::LayerMomentary(layer),
{
    KeyAction::LayerMomentary(layer)
}

/// A key that flips whether the layer is active.
pub fn layer_toggle(layer: u8) -> (res: KeyAction)
    ensures
        res == KeyAction::LayerToggle(layer),
{
    KeyAction::LayerToggle(layer)
}

/// The cell that stands for a position without a switch: the key stroke of
/// the reserved usage code `ERROR_UNDEFINED`.
pub fn nokey() -> (res: KeyAction)
    ensures
        res == KeyAction::Key(crate::keycode::ERROR_UNDEFINED),
{
    KeyAction::Key(crate::keycode::ERROR_UNDEFINED)
}

} // verus!
