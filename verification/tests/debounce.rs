use split_keyboard::debounce::{DebounceState, Debouncer, Transition};

fn run(st: &mut DebounceState, samples: &[bool], threshold: u32) -> Vec<bool> {
    let mut out = Vec::new();
    for s in samples {
        if let Some(level) = st.sample(*s, threshold) {
            out.push(level);
        }
    }
    out
}

#[test]
fn new_key_is_released_and_at_rest() {
    let st = DebounceState::new();
    assert_eq!(st, DebounceState { stable: false, counter: 0, last_raw: false });
}

#[test]
fn oscillation_below_threshold_emits_nothing() {
    let mut st = DebounceState::new();
    let out = run(&mut st, &[true, false, true, true, false, true, false, false, true, true], 3);
    assert_eq!(out, Vec::<bool>::new());
    assert!(!st.stable);
    assert_eq!(st.counter, 2);
    assert!(st.last_raw);
}

#[test]
fn burst_shorter_than_threshold_emits_nothing() {
    let mut st = DebounceState::new();
    let out = run(&mut st, &[true, true, true, true], 5);
    assert_eq!(out, Vec::<bool>::new());
    assert_eq!(st, DebounceState { stable: false, counter: 4, last_raw: true });
}

#[test]
fn held_level_emits_exactly_one_press() {
    let mut st = DebounceState::new();
    let out = run(&mut st, &[true; 12], 5);
    assert_eq!(out, vec![true]);
    assert_eq!(st, DebounceState { stable: true, counter: 0, last_raw: true });
}

#[test]
fn transition_comes_on_the_threshold_sample() {
    let mut st = DebounceState::new();
    assert_eq!(st.sample(true, 3), None);
    assert_eq!(st.counter, 1);
    assert_eq!(st.sample(true, 3), None);
    assert_eq!(st.counter, 2);
    assert_eq!(st.sample(true, 3), Some(true));
    assert_eq!(st.counter, 0);
    assert_eq!(st.sample(true, 3), None);
}

#[test]
fn press_then_release_emits_both_once() {
    let mut st = DebounceState::new();
    let out = run(&mut st, &[true, true, true, false, false, true, false, false, false, false], 3);
    assert_eq!(out, vec![true, false]);
    assert!(!st.stable);
}

#[test]
fn threshold_one_follows_every_change() {
    let mut st = DebounceState::new();
    let out = run(&mut st, &[true, false, false, true], 1);
    assert_eq!(out, vec![true, false, true]);
}

#[test]
fn agreement_resets_the_counter() {
    let mut st = DebounceState::new();
    st.sample(true, 4);
    st.sample(true, 4);
    assert_eq!(st.counter, 2);
    st.sample(false, 4);
    assert_eq!(st.counter, 0);
    assert!(!st.last_raw);
}

#[test]
fn debouncer_refuses_empty_sizes_and_zero_threshold() {
    assert!(Debouncer::new(0, 3, 2).is_none());
    assert!(Debouncer::new(3, 0, 2).is_none());
    assert!(Debouncer::new(3, 3, 0).is_none());
    let d = Debouncer::new(5, 8, 2).unwrap();
    assert_eq!((d.rows(), d.cols(), d.threshold()), (5, 8, 2));
}

#[test]
fn debouncer_samples_one_key_only() {
    let mut d = Debouncer::new(2, 3, 2).unwrap();
    assert_eq!(d.sample(1, 2, true), None);
    assert_eq!(d.sample(1, 2, true), Some(true));
    assert!(d.is_pressed(1, 2));
    assert!(!d.is_pressed(0, 2));
    assert!(!d.is_pressed(1, 1));
}

#[test]
fn debouncer_ignores_coordinates_outside() {
    let mut d = Debouncer::new(2, 3, 1).unwrap();
    assert_eq!(d.sample(2, 0, true), None);
    assert_eq!(d.sample(0, 3, true), None);
    assert!(!d.is_pressed(2, 0));
    assert!(!d.is_pressed(0, 0));
}

#[test]
fn sweep_reports_transitions_row_by_row() {
    let mut d = Debouncer::new(2, 3, 2).unwrap();
    let raw = vec![false, true, false, true, false, true];
    assert_eq!(d.sweep(&raw), Some(vec![]));
    assert_eq!(
        d.sweep(&raw),
        Some(vec![
            Transition { row: 0, col: 1, pressed: true },
            Transition { row: 1, col: 0, pressed: true },
            Transition { row: 1, col: 2, pressed: true },
        ])
    );
    assert_eq!(d.sweep(&raw), Some(vec![]));
    let up = vec![false; 6];
    assert_eq!(d.sweep(&up), Some(vec![]));
    assert_eq!(
        d.sweep(&up),
        Some(vec![
            Transition { row: 0, col: 1, pressed: false },
            Transition { row: 1, col: 0, pressed: false },
            Transition { row: 1, col: 2, pressed: false },
        ])
    );
}

#[test]
fn sweep_refuses_a_wrong_number_of_samples() {
    let mut d = Debouncer::new(2, 3, 1).unwrap();
    assert_eq!(d.sweep(&vec![true; 5]), None);
    assert_eq!(d.sweep(&vec![true; 7]), None);
    assert!(!d.is_pressed(0, 0));
    assert_eq!(d.sweep(&vec![true; 6]).unwrap().len(), 6);
}

#[test]
fn stuck_line_is_a_stable_press() {
    let mut d = Debouncer::new(1, 1, 3).unwrap();
    let mut count = 0;
    for _ in 0..50 {
        count += d.sweep(&vec![true]).unwrap().len();
    }
    assert_eq!(count, 1);
    assert!(d.is_pressed(0, 0));
}
