//! The resolver: a state machine over the stack of active layers, driven by
//! key events taken strictly in their order of arrival.
//!
//! On a press the resolver resolves the coordinate against the active layers
//! and remembers the action until the release: the stack may change in
//! between, and the release has to undo what the press did.

use vstd::prelude::*;
use crate::action::{KeyAction, ModifierSet, MOD_ALT, MOD_CTRL, MOD_GUI, MOD_RIGHT, MOD_SHIFT};
use crate::keycode;
use crate::event::{HidReport, KeyEvent};
use crate::keymap::{Keymap, KeymapView, resolve_spec};
use crate::layers::{LayerStack, activated, deactivated, stack_wf, toggled};

verus! {

/// A key that is down, with the action that its press resolved to.
#[derive(Clone, Copy, Debug, PartialEq, Eq, Structural)]
pub struct HeldKey {
    pub row: u8,
    pub col: u8,
    pub action: KeyAction,
}

/// The mathematical content of the resolver's state.
pub struct ResolverView {
    /// The active layers, lowest precedence first.
    pub stack: Seq<u8>,
    /// The keys that are down, in the order of their presses.
    pub held: Seq<HeldKey>,
}

/// The modifier that a key code stands for, if it is the code of a modifier
/// key, and else no bit.
pub open spec fn keycode_modifier_bits(code: u16) -> u8 {
    if code == keycode::LCTRL {
        MOD_CTRL
    } else if code == keycode::LSHIFT {
        MOD_SHIFT
    } else if code == keycode::LALT {
        MOD_ALT
    } else if code == keycode::LGUI {
        MOD_GUI
    } else if code == keycode::RCTRL {
        MOD_RIGHT | MOD_CTRL
    } else if code == keycode::RSHIFT {
        MOD_RIGHT | MOD_SHIFT
    } else if code == keycode::RALT {
        MOD_RIGHT | MOD_ALT
    } else if code == keycode::RGUI {
        MOD_RIGHT | MOD_GUI
    } else {
        0u8
    }
}

/// The modifier bits that an action contributes while its key is down: the
/// set of a key with modifiers, and the modifier of a modifier key.
pub open spec fn modifier_bits(a: KeyAction) -> u8 {
    match a {
        KeyAction::KeyWithModifiers(_, m) => m.bits,
        KeyAction::Key(code) => keycode_modifier_bits(code),
        _ => 0u8,
    }
}

/// The modifier bits that an action contributes while its key is down.
pub fn contributed_modifiers(a: KeyAction) -> (res: ModifierSet)
    ensures
        res.bits == modifier_bits(a),
{
    match a {
        KeyAction::KeyWithModifiers(_, m) => m,
        KeyAction::Key(code) => {
            let bits: u8 = if code == keycode::LCTRL {
                MOD_CTRL
            } else if code == keycode::LSHIFT {
                MOD_SHIFT
            } else if code == keycode::LALT {
                MOD_ALT
            } else if code == keycode::LGUI {
                MOD_GUI
            } else if code == keycode::RCTRL {
                MOD_RIGHT | MOD_CTRL
            } else if code == keycode::RSHIFT {
                MOD_RIGHT | MOD_SHIFT
            } else if code == keycode::RALT {
                MOD_RIGHT | MOD_ALT
            } else if code == keycode::RGUI {
                MOD_RIGHT | MOD_GUI
            } else {
                0
            };
            ModifierSet { bits }
        },
        _ => ModifierSet { bits: 0 },
    }
}

/// The union of the modifiers that the held keys contribute.
pub open spec fn merged_bits(held: Seq<HeldKey>) -> u8
    decreases held.len(),
{
    if held.len() == 0 {
        0u8
    } else {
        merged_bits(held.drop_last()) | modifier_bits(held.last().action)
    }
}

/// Index of the held key at the coordinate (the latest, should there be
/// several), or -1 if the coordinate is not held.
pub open spec fn held_index(held: Seq<HeldKey>, row: u8, col: u8) -> int
    decreases held.len(),
{
    if held.len() == 0 {
        -1
    } else if held.last().row == row && held.last().col == col {
        held.len() - 1
    } else {
        held_index(held.drop_last(), row, col)
    }
}

/// The state after a press of a coordinate that is not held.
pub open spec fn press_state(v: ResolverView, km: KeymapView, row: u8, col: u8) -> ResolverView {
    let a = resolve_spec(km, v.stack, row as int, col as int);
    let held = v.held.push(HeldKey { row, col, action: a });
    match a {
        KeyAction::LayerMomentary(n) => ResolverView { stack: activated(v.stack, n), held },
        KeyAction::LayerToggle(n) => ResolverView { stack: toggled(v.stack, n), held },
        _ => ResolverView { stack: v.stack, held },
    }
}

/// The report that a press of a coordinate that is not held emits.
pub open spec fn press_report(v: ResolverView, km: KeymapView, row: u8, col: u8) -> Option<
    HidReport,
> {
    let a = resolve_spec(km, v.stack, row as int, col as int);
    let held = v.held.push(HeldKey { row, col, action: a });
    match a {
        KeyAction::Key(k) => Some(HidReport::Press(k, ModifierSet { bits: merged_bits(held) })),
        KeyAction::KeyWithModifiers(k, _) => Some(
            HidReport::Press(k, ModifierSet { bits: merged_bits(held) }),
        ),
        _ => None,
    }
}

/// The state after the release of the held key at index `i`.
pub open spec fn release_state(v: ResolverView, i: int) -> ResolverView {
    let held = v.held.remove(i);
    match v.held[i].action {
        KeyAction::LayerMomentary(n) => ResolverView { stack: deactivated(v.stack, n), held },
        _ => ResolverView { stack: v.stack, held },
    }
}

/// The report that undoes the press of an action.
pub open spec fn release_of(a: KeyAction) -> Option<HidReport> {
    match a {
        KeyAction::Key(k) => Some(HidReport::Release(k)),
        KeyAction::KeyWithModifiers(k, _) => Some(HidReport::Release(k)),
        _ => None,
    }
}

/// The report that the release of the held key at index `i` emits.
pub open spec fn release_report(v: ResolverView, i: int) -> Option<HidReport> {
    release_of(v.held[i].action)
}

/// The action remembered for the coordinate, if the coordinate is held.
pub open spec fn held_action(held: Seq<HeldKey>, row: u8, col: u8) -> Option<KeyAction>
    decreases held.len(),
{
    if held.len() == 0 {
        None
    } else if held.last().row == row && held.last().col == col {
        Some(held.last().action)
    } else {
        held_action(held.drop_last(), row, col)
    }
}

/// The state after an event. A press of a coordinate that is held, and a
/// release of one that is not, change nothing.
pub open spec fn step_state(v: ResolverView, km: KeymapView, ev: KeyEvent) -> ResolverView {
    let i = held_index(v.held, ev.coordinate.row, ev.coordinate.col);
    if ev.pressed {
        if i >= 0 {
            v
        } else {
            press_state(v, km, ev.coordinate.row, ev.coordinate.col)
        }
    } else {
        if i >= 0 {
            release_state(v, i)
        } else {
            v
        }
    }
}

/// The report that an event emits, if any.
pub open spec fn step_report(v: ResolverView, km: KeymapView, ev: KeyEvent) -> Option<HidReport> {
    let i = held_index(v.held, ev.coordinate.row, ev.coordinate.col);
    if ev.pressed {
        if i >= 0 {
            None
        } else {
            press_report(v, km, ev.coordinate.row, ev.coordinate.col)
        }
    } else {
        if i >= 0 {
            release_report(v, i)
        } else {
            None
        }
    }
}

/// The state after a sequence of events, taken in order.
pub open spec fn run_state(v: ResolverView, km: KeymapView, events: Seq<KeyEvent>) -> ResolverView
    decreases events.len(),
{
    if events.len() == 0 {
        v
    } else {
        step_state(run_state(v, km, events.drop_last()), km, events.last())
    }
}

/// The reports that a sequence of events emits, in order.
pub open spec fn run_reports(v: ResolverView, km: KeymapView, events: Seq<KeyEvent>) -> Seq<
    HidReport,
>
    decreases events.len(),
{
    if events.len() == 0 {
        Seq::empty()
    } else {
        let before = run_reports(v, km, events.drop_last());
        match step_report(run_state(v, km, events.drop_last()), km, events.last()) {
            Some(r) => before.push(r),
            None => before,
        }
    }
}

/// The index that `held_index` gives is that of a held key at the
/// coordinate, and no later held key is at the coordinate.
pub proof fn lemma_held_index(held: Seq<HeldKey>, row: u8, col: u8)
    ensures
        -1 <= held_index(held, row, col) < held.len(),
        held_index(held, row, col) >= 0 ==> held[held_index(held, row, col)].row == row
            && held[held_index(held, row, col)].col == col,
        forall|j: int|
            held_index(held, row, col) < j < held.len() ==> !((#[trigger] held[j]).row == row
                && held[j].col == col),
    decreases held.len(),
{
    if held.len() > 0 {
        let p = held.drop_last();
        lemma_held_index(p, row, col);
        if !(held.last().row == row && held.last().col == col) {
            assert forall|j: int| held_index(held, row, col) < j < held.len() implies !((
            #[trigger] held[j]).row == row && held[j].col == col) by {
                if j < p.len() {
                    assert(p[j] == held[j]);
                }
            }
            if held_index(p, row, col) >= 0 {
                assert(p[held_index(p, row, col)] == held[held_index(p, row, col)]);
            }
        }
    }
}

/// The action remembered for a coordinate is that of the held key that
/// `held_index` finds.
pub proof fn lemma_held_action(held: Seq<HeldKey>, row: u8, col: u8)
    ensures
        held_index(held, row, col) >= 0 <==> held_action(held, row, col) is Some,
        held_index(held, row, col) >= 0 ==> held_action(held, row, col) == Some(
            held[held_index(held, row, col)].action,
        ),
    decreases held.len(),
{
    if held.len() > 0 {
        let p = held.drop_last();
        lemma_held_action(p, row, col);
        lemma_held_index(p, row, col);
        if held_index(p, row, col) >= 0 {
            assert(p[held_index(p, row, col)] == held[held_index(p, row, col)]);
        }
    }
}

/// Taking the held key of another coordinate away leaves what is remembered
/// for this one.
proof fn lemma_remove_other(held: Seq<HeldKey>, j: int, row: u8, col: u8)
    requires
        0 <= j < held.len(),
        !(held[j].row == row && held[j].col == col),
    ensures
        held_action(held.remove(j), row, col) == held_action(held, row, col),
    decreases held.len(),
{
    let p = held.drop_last();
    if j == held.len() - 1 {
        assert(held.remove(j) =~= p);
    } else {
        let r = held.remove(j);
        assert(r.last() == held.last());
        assert(r.drop_last() =~= p.remove(j));
        if !(held.last().row == row && held.last().col == col) {
            assert(p[j] == held[j]);
            lemma_remove_other(p, j, row, col);
        }
    }
}

/// An event at another coordinate leaves what is remembered for this one.
proof fn lemma_step_keeps_other_keys(v: ResolverView, km: KeymapView, ev: KeyEvent, row: u8, col: u8)
    requires
        !(ev.coordinate.row == row && ev.coordinate.col == col),
    ensures
        held_action(step_state(v, km, ev).held, row, col) == held_action(v.held, row, col),
{
    let i = held_index(v.held, ev.coordinate.row, ev.coordinate.col);
    lemma_held_index(v.held, ev.coordinate.row, ev.coordinate.col);
    if ev.pressed {
        if i < 0 {
            let a = resolve_spec(km, v.stack, ev.coordinate.row as int, ev.coordinate.col as int);
            let key = HeldKey { row: ev.coordinate.row, col: ev.coordinate.col, action: a };
            let held = v.held.push(key);
            assert(step_state(v, km, ev).held == held);
            assert(held.last() == key);
            assert(held.drop_last() =~= v.held);
        }
    } else {
        if i >= 0 {
            assert(step_state(v, km, ev).held == v.held.remove(i));
            lemma_remove_other(v.held, i, row, col);
        }
    }
}

/// Events at other coordinates leave what is remembered for this one.
proof fn lemma_run_keeps_other_keys(
    v: ResolverView,
    km: KeymapView,
    events: Seq<KeyEvent>,
    row: u8,
    col: u8,
)
    requires
        forall|i: int|
            0 <= i < events.len() ==> !((#[trigger] events[i]).coordinate.row == row
                && events[i].coordinate.col == col),
    ensures
        held_action(run_state(v, km, events).held, row, col) == held_action(v.held, row, col),
    decreases events.len(),
{
    if events.len() > 0 {
        let rest = events.drop_last();
        assert forall|i: int| 0 <= i < rest.len() implies !((#[trigger] rest[i]).coordinate.row
            == row && rest[i].coordinate.col == col) by {
            assert(rest[i] == events[i]);
        }
        lemma_run_keeps_other_keys(v, km, rest, row, col);
        lemma_step_keeps_other_keys(run_state(v, km, rest), km, events.last(), row, col);
    }
}

/// The release of a key undoes its press, whatever happened in between: a
/// key is pressed, any events of other keys follow (layers may come and go,
/// and the keymap in force at the release may be another), and the release
/// then emits the release of the very action that the press resolved to.
pub proof fn lemma_press_is_remembered(
    v: ResolverView,
    km: KeymapView,
    press: KeyEvent,
    between: Seq<KeyEvent>,
    release: KeyEvent,
    later: KeymapView,
)
    requires
        press.pressed,
        !release.pressed,
        release.coordinate == press.coordinate,
        held_index(v.held, press.coordinate.row, press.coordinate.col) < 0,
        forall|i: int|
            0 <= i < between.len() ==> !((#[trigger] between[i]).coordinate.row
                == press.coordinate.row && between[i].coordinate.col == press.coordinate.col),
    ensures
        step_report(run_state(step_state(v, km, press), km, between), later, release) == release_of(
            resolve_spec(km, v.stack, press.coordinate.row as int, press.coordinate.col as int),
        ),
{
    let row = press.coordinate.row;
    let col = press.coordinate.col;
    let a = resolve_spec(km, v.stack, row as int, col as int);
    let pressed = step_state(v, km, press);
    let key = HeldKey { row, col, action: a };
    assert(pressed.held == v.held.push(key));
    assert(pressed.held.last() == key);
    assert(held_action(pressed.held, row, col) == Some(a));
    lemma_run_keeps_other_keys(pressed, km, between, row, col);
    let at_release = run_state(pressed, km, between);
    lemma_held_action(at_release.held, row, col);
}

/// A modifier is in the merged set exactly while a held key contributes it:
/// the set loses the modifier only when every key that contributes it has
/// been released.
pub proof fn lemma_merged_bits_is_union(held: Seq<HeldKey>, bit: u8)
    ensures
        (merged_bits(held) & bit != 0) <==> exists|i: int|
            0 <= i < held.len() && modifier_bits((#[trigger] held[i]).action) & bit != 0,
    decreases held.len(),
{
    if held.len() == 0 {
        assert(0u8 & bit == 0) by (bit_vector);
    } else {
        let p = held.drop_last();
        let x = merged_bits(p);
        let y = modifier_bits(held.last().action);
        lemma_merged_bits_is_union(p, bit);
        assert(((x | y) & bit != 0) == ((x & bit != 0) || (y & bit != 0))) by (bit_vector);
        if merged_bits(held) & bit != 0 {
            if x & bit != 0 {
                let i = choose|i: int|
                    0 <= i < p.len() && modifier_bits((#[trigger] p[i]).action) & bit != 0;
                assert(held[i] == p[i]);
            } else {
                assert(modifier_bits(held[held.len() - 1].action) & bit != 0);
            }
        }
        if exists|i: int|
            0 <= i < held.len() && modifier_bits((#[trigger] held[i]).action) & bit != 0 {
            let i = choose|i: int|
                0 <= i < held.len() && modifier_bits((#[trigger] held[i]).action) & bit != 0;
            if i < p.len() {
                assert(p[i] == held[i]);
            }
        }
    }
}

/// The keymap resolver.
#[derive(Debug)]
pub struct Resolver {
    stack: LayerStack,
    held: Vec<HeldKey>,
}

impl Resolver {
    /// The mathematical content of the state.
    pub closed spec fn view(&self) -> ResolverView {
        ResolverView { stack: self.stack@, held: self.held@ }
    }

    /// A valid state: the stack of layers is valid.
    pub open spec fn wf(&self) -> bool {
        stack_wf(self@.stack)
    }

    /// The resolver at rest: only the base layer is active, no key is held.
    pub fn new() -> (res: Resolver)
        ensures
            res.wf(),
            res@.stack == seq![0u8],
            res@.held == Seq::<HeldKey>::empty(),
    {
        Resolver { stack: LayerStack::new(), held: Vec::new() }
    }

    /// The active layers, lowest precedence first.
    pub fn active_layers(&self) -> (res: &Vec<u8>)
        ensures
            res@ == self@.stack,
    {
        self.stack.as_vec()
    }

    /// The keys that are down, in the order of their presses.
    pub fn held_keys(&self) -> (res: &Vec<HeldKey>)
        ensures
            res@ == self@.held,
    {
        &self.held
    }

    /// The union of the modifiers that the held keys contribute.
    pub fn active_modifiers(&self) -> (res: ModifierSet)
        ensures
            res.bits == merged_bits(self@.held),
    {
        let mut bits: u8 = 0;
        let mut i: usize = 0;
        while i < self.held.len()
            invariant
                0 <= i <= self.held@.len(),
                bits == merged_bits(self.held@.take(i as int)),
            decreases self.held@.len() - i,
        {
            proof {
                let next = self.held@.take(i + 1);
                assert(next.last() == self.held@[i as int]);
                assert(next.drop_last() =~= self.held@.take(i as int));
            }
            let m = contributed_modifiers(self.held[i].action);
            bits = bits | m.bits;
            i = i + 1;
        }
        assert(self.held@.take(i as int) =~= self.held@);
        ModifierSet { bits }
    }

    /// Index of the held key at the coordinate, if it is held.
    fn find_held(&self, row: u8, col: u8) -> (res: Option<usize>)
        ensures
            match res {
                Some(i) => i == held_index(self@.held, row, col),
                None => held_index(self@.held, row, col) < 0,
            },
    {
        let mut found: Option<usize> = None;
        let mut i: usize = 0;
        while i < self.held.len()
            invariant
                0 <= i <= self.held@.len(),
                match found {
                    Some(k) => k == held_index(self.held@.take(i as int), row, col),
                    None => held_index(self.held@.take(i as int), row, col) < 0,
                },
            decreases self.held@.len() - i,
        {
            proof {
                let next = self.held@.take(i + 1);
                assert(next.last() == self.held@[i as int]);
                assert(next.drop_last() =~= self.held@.take(i as int));
            }
            if self.held[i].row == row && self.held[i].col == col {
                found = Some(i);
            }
            i = i + 1;
        }
        assert(self.held@.take(i as int) =~= self.held@);
        found
    }

    /// Takes the events strictly in their order and returns the reports to
    /// send, in that order.
    pub fn process_all(&mut self, keymap: &Keymap, events: &Vec<KeyEvent>) -> (res: Vec<HidReport>)
        requires
            old(self).wf(),
            keymap@.wf(),
        ensures
            final(self).wf(),
            final(self)@ == run_state(old(self)@, keymap@, events@),
            res@ == run_reports(old(self)@, keymap@, events@),
    {
        let mut out: Vec<HidReport> = Vec::new();
        let mut i: usize = 0;
        assert(events@.take(0) =~= Seq::<KeyEvent>::empty());
        while i < events.len()
            invariant
                0 <= i <= events@.len(),
                keymap@.wf(),
                self.wf(),
                self@ == run_state(old(self)@, keymap@, events@.take(i as int)),
                out@ == run_reports(old(self)@, keymap@, events@.take(i as int)),
            decreases events@.len() - i,
        {
            proof {
                let next = events@.take(i + 1);
                assert(next.last() == events@[i as int]);
                assert(next.drop_last() =~= events@.take(i as int));
            }
            match self.process(keymap, events[i]) {
                Some(r) => {
                    out.push(r);
                },
                None => {},
            }
            i = i + 1;
        }
        assert(events@.take(i as int) =~= events@);
        out
    }

    /// Takes one event and returns the report to send, if the event calls
    /// for one.
    pub fn process(&mut self, keymap: &Keymap, event: KeyEvent) -> (res: Option<HidReport>)
        requires
            old(self).wf(),
            keymap@.wf(),
        ensures
            final(self).wf(),
            final(self)@ == step_state(old(self)@, keymap@, event),
            res == step_report(old(self)@, keymap@, event),
    {
        let row = event.coordinate.row;
        let col = event.coordinate.col;
        let found = self.find_held(row, col);
        proof {
            lemma_held_index(self@.held, row, col);
        }
        if event.pressed {
            if found.is_some() {
                return None;
            }
            let action = keymap.resolve(self.stack.as_vec(), row, col);
            self.held.push(HeldKey { row, col, action });
            match action {
                KeyAction::Key(k) => Some(HidReport::Press(k, self.active_modifiers())),
                KeyAction::KeyWithModifiers(k, _) => Some(
                    HidReport::Press(k, self.active_modifiers()),
                ),
                KeyAction::LayerMomentary(n) => {
                    self.stack.activate(n);
                    None
                },
                KeyAction::LayerToggle(n) => {
                    self.stack.toggle(n);
                    None
                },
                _ => None,
            }
        } else {
            match found {
                None => None,
                Some(i) => {
                    let key = self.held.remove(i);
                    match key.action {
                        KeyAction::Key(k) => Some(HidReport::Release(k)),
                        KeyAction::KeyWithModifiers(k, _) => Some(HidReport::Release(k)),
                        KeyAction::LayerMomentary(n) => {
                            self.stack.deactivate(n);
                            None
                        },
                        _ => None,
                    }
                },
            }
        }
    }
}

} // verus!
