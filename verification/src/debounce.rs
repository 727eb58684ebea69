//! Per-key debouncing and the debounced sweep over one half's matrix.
//!
//! A key's logical state flips only after `threshold` consecutive scan ticks
//! on which the raw sample disagrees with it. Time is counted in ticks, so the
//! behaviour is a function of the sample history alone.

use vstd::prelude::*;

verus! {

/// State of one physical key.
#[derive(Clone, Copy, Debug, PartialEq, Eq, Structural)]
pub struct DebounceState {
    /// The debounced level: `true` is pressed.
    pub stable: bool,
    /// Number of consecutive samples so far that disagree with `stable`.
    pub counter: u32,
    /// The raw sample of the last tick.
    pub last_raw: bool,
}

/// A debounced change of one key of the half's matrix.
#[derive(Clone, Copy, Debug, PartialEq, Eq, Structural)]
pub struct Transition {
    pub row: u8,
    pub col: u8,
    pub pressed: bool,
}

/// State of a key after one raw sample.
pub open spec fn step_state(st: DebounceState, raw: bool, threshold: u32) -> DebounceState {
    if raw == st.stable {
        DebounceState { stable: st.stable, counter: 0, last_raw: raw }
    } else if st.counter + 1 >= threshold {
        DebounceState { stable: raw, counter: 0, last_raw: raw }
    } else {
        DebounceState { stable: st.stable, counter: (st.counter + 1) as u32, last_raw: raw }
    }
}

/// The transition that one raw sample yields, if any.
pub open spec fn step_output(st: DebounceState, raw: bool, threshold: u32) -> Option<bool> {
    if raw != st.stable && st.counter + 1 >= threshold {
        Some(raw)
    } else {
        None
    }
}

/// State of a key after a sequence of raw samples, oldest first.
pub open spec fn run_state(st: DebounceState, samples: Seq<bool>, threshold: u32) -> DebounceState
    decreases samples.len(),
{
    if samples.len() == 0 {
        st
    } else {
        step_state(run_state(st, samples.drop_last(), threshold), samples.last(), threshold)
    }
}

/// The transitions that a sequence of raw samples yields, in order.
pub open spec fn run_output(st: DebounceState, samples: Seq<bool>, threshold: u32) -> Seq<bool>
    decreases samples.len(),
{
    if samples.len() == 0 {
        Seq::empty()
    } else {
        let before = run_output(st, samples.drop_last(), threshold);
        match step_output(run_state(st, samples.drop_last(), threshold), samples.last(), threshold) {
            Some(level) => before.push(level),
            None => before,
        }
    }
}

impl DebounceState {
    /// A key is valid for a threshold when its counter is below it.
    pub open spec fn wf(self, threshold: u32) -> bool {
        self.counter < threshold
    }

    /// The state of a released key at rest, as every key is after a restart.
    pub fn new() -> (res: DebounceState)
        ensures
            res == (DebounceState { stable: false, counter: 0, last_raw: false }),
    {
        DebounceState { stable: false, counter: 0, last_raw: false }
    }

    /// Takes one raw sample and reports the transition it completes, if any.
    pub fn sample(&mut self, raw: bool, threshold: u32) -> (res: Option<bool>)
        requires
            old(self).wf(threshold),
        ensures
            *final(self) == step_state(*old(self), raw, threshold),
            res == step_output(*old(self), raw, threshold),
            final(self).wf(threshold),
    {
        self.last_raw = raw;
        if raw == self.stable {
            self.counter = 0;
            None
        } else if self.counter + 1 >= threshold {
            self.stable = raw;
            self.counter = 0;
            Some(raw)
        } else {
            self.counter = self.counter + 1;
            None
        }
    }
}

/// Samples that all disagree with the stable level: below the threshold they
/// only count up, and from the threshold on they have flipped the key once.
pub proof fn lemma_run_constant(st: DebounceState, samples: Seq<bool>, threshold: u32, level: bool)
    requires
        st.wf(threshold),
        st.stable != level,
        forall|i: int| 0 <= i < samples.len() ==> samples[i] == level,
    ensures
        st.counter + samples.len() < threshold ==> run_output(st, samples, threshold) == Seq::<
            bool,
        >::empty() && run_state(st, samples, threshold).stable == st.stable && run_state(
            st,
            samples,
            threshold,
        ).counter == st.counter + samples.len(),
        st.counter + samples.len() >= threshold ==> run_output(st, samples, threshold) == seq![
            level,
        ] && run_state(st, samples, threshold).stable == level && run_state(
            st,
            samples,
            threshold,
        ).counter == 0,
    decreases samples.len(),
{
    if samples.len() > 0 {
        lemma_run_constant(st, samples.drop_last(), threshold, level);
        if st.counter + samples.len() == threshold {
            assert(Seq::<bool>::empty().push(level) == seq![level]);
        }
    }
}

/// The state after any samples is valid again.
pub proof fn lemma_run_wf(st: DebounceState, samples: Seq<bool>, threshold: u32)
    requires
        st.wf(threshold),
    ensures
        run_state(st, samples, threshold).wf(threshold),
    decreases samples.len(),
{
    if samples.len() > 0 {
        lemma_run_wf(st, samples.drop_last(), threshold);
    }
}

/// Noise shorter than the threshold never surfaces: samples that are too few
/// to fill the counter yield no transition and leave the level as it was,
/// whatever they are.
pub proof fn lemma_short_burst_is_silent(st: DebounceState, samples: Seq<bool>, threshold: u32)
    requires
        st.wf(threshold),
        st.counter + samples.len() < threshold,
    ensures
        run_output(st, samples, threshold) == Seq::<bool>::empty(),
        run_state(st, samples, threshold).stable == st.stable,
        run_state(st, samples, threshold).counter <= st.counter + samples.len(),
    decreases samples.len(),
{
    if samples.len() > 0 {
        lemma_short_burst_is_silent(st, samples.drop_last(), threshold);
    }
}

/// Whether every window of `threshold` consecutive samples holds at least one
/// sample equal to `level`.
pub open spec fn returns_within(samples: Seq<bool>, level: bool, threshold: u32) -> bool {
    forall|i: int|
        0 <= i && i + threshold <= samples.len() ==> #[trigger] window_holds(
            samples,
            i,
            level,
            threshold,
        )
}

/// Whether one of the `threshold` samples from index `start` on equals
/// `level`.
pub open spec fn window_holds(samples: Seq<bool>, start: int, level: bool, threshold: u32) -> bool {
    exists|j: int| start <= j < start + threshold && #[trigger] samples[j] == level
}

/// Length of the run of samples different from `level` that ends the
/// sequence.
pub open spec fn trailing_run(samples: Seq<bool>, level: bool) -> nat
    decreases samples.len(),
{
    if samples.len() == 0 || samples.last() == level {
        0
    } else {
        1 + trailing_run(samples.drop_last(), level)
    }
}

proof fn lemma_trailing_run_bound(samples: Seq<bool>, level: bool)
    ensures
        trailing_run(samples, level) <= samples.len(),
        forall|j: int|
            samples.len() - trailing_run(samples, level) <= j < samples.len() ==> samples[j]
                != level,
    decreases samples.len(),
{
    if samples.len() > 0 && samples.last() != level {
        let prefix = samples.drop_last();
        lemma_trailing_run_bound(prefix, level);
        assert forall|j: int|
            samples.len() - trailing_run(samples, level) <= j < samples.len() implies samples[j]
            != level by {
            if j < prefix.len() {
                assert(prefix[j] == samples[j]);
            }
        }
    }
}

/// Oscillation never surfaces: as long as the raw level returns to the stable
/// level within every window of `threshold` ticks, a key at rest yields no
/// transition, however long the samples go on.
pub proof fn lemma_oscillation_is_silent(st: DebounceState, samples: Seq<bool>, threshold: u32)
    requires
        st.wf(threshold),
        st.counter == 0,
        returns_within(samples, st.stable, threshold),
    ensures
        run_output(st, samples, threshold) == Seq::<bool>::empty(),
        run_state(st, samples, threshold).stable == st.stable,
        run_state(st, samples, threshold).counter == trailing_run(samples, st.stable),
        trailing_run(samples, st.stable) < threshold,
    decreases samples.len(),
{
    if samples.len() > 0 {
        let prefix = samples.drop_last();
        assert forall|i: int| 0 <= i && i + threshold <= prefix.len() implies #[trigger] window_holds(
            prefix,
            i,
            st.stable,
            threshold,
        ) by {
            assert(window_holds(samples, i, st.stable, threshold));
            let j = choose|j: int| i <= j < i + threshold && #[trigger] samples[j] == st.stable;
            assert(prefix[j] == samples[j]);
        }
        lemma_oscillation_is_silent(st, prefix, threshold);
        lemma_trailing_run_bound(samples, st.stable);
        let run = trailing_run(samples, st.stable);
        if run >= threshold {
            let i = samples.len() - threshold;
            assert(window_holds(samples, i, st.stable, threshold));
            let j = choose|j: int| i <= j < i + threshold && #[trigger] samples[j] == st.stable;
            assert(false);
        }
    }
}

/// A level held for at least the threshold surfaces exactly once: from a key
/// whose stable level differs from `level`, samples that all equal `level`, at
/// least `threshold` of them, yield the single transition `level` and leave the
/// key stable at `level`.
pub proof fn lemma_held_level_flips_once(
    st: DebounceState,
    samples: Seq<bool>,
    threshold: u32,
    level: bool,
)
    requires
        st.wf(threshold),
        st.stable != level,
        samples.len() >= threshold,
        forall|i: int| 0 <= i < samples.len() ==> samples[i] == level,
    ensures
        run_output(st, samples, threshold) == seq![level],
        run_state(st, samples, threshold).stable == level,
        run_state(st, samples, threshold).counter == 0,
{
    lemma_run_constant(st, samples, threshold, level);
}

/// The mathematical content of a half's debouncer.
pub struct DebouncerView {
    pub rows: nat,
    pub cols: nat,
    pub threshold: u32,
    /// The keys' states, row by row.
    pub states: Seq<DebounceState>,
}

impl DebouncerView {
    /// A valid debouncer has a positive size and threshold, one state for
    /// each key, and every state is valid for the threshold.
    pub open spec fn wf(self) -> bool {
        &&& self.rows >= 1 && self.cols >= 1 && self.threshold >= 1
        &&& self.rows <= 255 && self.cols <= 255
        &&& self.states.len() == self.rows * self.cols
        &&& forall|i: int| 0 <= i < self.states.len() ==> (#[trigger] self.states[i]).wf(self.threshold)
    }

    /// The content after the key at position `at` took a raw sample.
    pub open spec fn sampled(self, at: int, raw: bool) -> DebouncerView {
        DebouncerView {
            states: self.states.update(at, step_state(self.states[at], raw, self.threshold)),
            ..self
        }
    }

    /// The content after every key took its raw sample of one sweep.
    pub open spec fn swept(self, raw: Seq<bool>) -> DebouncerView {
        DebouncerView {
            states: Seq::new(
                self.states.len(),
                |i: int| step_state(self.states[i], raw[i], self.threshold),
            ),
            ..self
        }
    }

    /// The transitions that the first `n` keys yield in one sweep, row by
    /// row.
    pub open spec fn sweep_output(self, raw: Seq<bool>, n: nat) -> Seq<Transition>
        decreases n,
    {
        if n == 0 {
            Seq::empty()
        } else {
            let at = n - 1;
            let before = self.sweep_output(raw, at as nat);
            match step_output(self.states[at], raw[at], self.threshold) {
                Some(pressed) => before.push(
                    Transition {
                        row: (at / self.cols as int) as u8,
                        col: (at % self.cols as int) as u8,
                        pressed,
                    },
                ),
                None => before,
            }
        }
    }
}

/// The debouncer of one half: one state for each key of its matrix.
#[derive(Debug)]
pub struct Debouncer {
    rows: u8,
    cols: u8,
    threshold: u32,
    states: Vec<DebounceState>,
}

impl Debouncer {
    /// The mathematical content of the debouncer.
    pub closed spec fn view(&self) -> DebouncerView {
        DebouncerView {
            rows: self.rows as nat,
            cols: self.cols as nat,
            threshold: self.threshold,
            states: self.states@,
        }
    }

    /// A debouncer with every key released and at rest. The size and the
    /// threshold have to be positive.
    pub fn new(rows: u8, cols: u8, threshold: u32) -> (res: Option<Debouncer>)
        ensures
            res is Some <==> rows >= 1 && cols >= 1 && threshold >= 1,
            res is Some ==> res.unwrap()@.wf() && res.unwrap()@ == (DebouncerView {
                rows: rows as nat,
                cols: cols as nat,
                threshold,
                states: Seq::new(
                    rows as nat * cols as nat,
                    |i: int| DebounceState { stable: false, counter: 0, last_raw: false },
                ),
            }),
    {
        if rows == 0 || cols == 0 || threshold == 0 {
            return None;
        }
        assert(0 <= rows * cols <= 255 * 255) by (nonlinear_arith)
            requires
                0 <= rows <= 255,
                0 <= cols <= 255,
        ;
        let total: usize = (rows as usize) * (cols as usize);
        let mut states: Vec<DebounceState> = Vec::new();
        let mut i: usize = 0;
        while i < total
            invariant
                0 <= i <= total,
                states@.len() == i,
                forall|j: int|
                    0 <= j < i ==> states@[j] == (DebounceState {
                        stable: false,
                        counter: 0,
                        last_raw: false,
                    }),
            decreases total - i,
        {
            states.push(DebounceState::new());
            i = i + 1;
        }
        let res = Debouncer { rows, cols, threshold, states };
        assert(res@.states =~= Seq::new(
            rows as nat * cols as nat,
            |i: int| DebounceState { stable: false, counter: 0, last_raw: false },
        ));
        Some(res)
    }

    /// Number of rows.
    pub fn rows(&self) -> (res: u8)
        ensures
            res == self@.rows,
    {
        self.rows
    }

    /// Number of columns.
    pub fn cols(&self) -> (res: u8)
        ensures
            res == self@.cols,
    {
        self.cols
    }

    /// Number of consecutive disagreeing samples that flip a key.
    pub fn threshold(&self) -> (res: u32)
        ensures
            res == self@.threshold,
    {
        self.threshold
    }

    /// The debounced level of a key: `true` is pressed. A coordinate outside
    /// the matrix reads as released.
    pub fn is_pressed(&self, row: u8, col: u8) -> (res: bool)
        requires
            self@.wf(),
        ensures
            res == (row < self@.rows && col < self@.cols && self@.states[row * self@.cols
                + col].stable),
    {
        if row < self.rows && col < self.cols {
            proof {
                lemma_position_in_range(self@.rows, self@.cols, row as int, col as int);
            }
            let at: usize = (row as usize) * (self.cols as usize) + (col as usize);
            self.states[at].stable
        } else {
            false
        }
    }

    /// Takes the raw sample of the key at position `at`.
    fn sample_at(&mut self, at: usize, raw: bool) -> (res: Option<bool>)
        requires
            old(self)@.wf(),
            at < old(self)@.states.len(),
        ensures
            final(self)@.wf(),
            final(self)@ == old(self)@.sampled(at as int, raw),
            res == step_output(old(self)@.states[at as int], raw, old(self)@.threshold),
    {
        let mut st = self.states[at];
        let res = st.sample(raw, self.threshold);
        self.states.set(at, st);
        res
    }

    /// Takes one raw sample of a key and reports the transition that it
    /// completes, if any. A coordinate outside the matrix has no key: the
    /// sample is ignored.
    pub fn sample(&mut self, row: u8, col: u8, raw: bool) -> (res: Option<bool>)
        requires
            old(self)@.wf(),
        ensures
            final(self)@.wf(),
            row < old(self)@.rows && col < old(self)@.cols ==> final(self)@ == old(self)@.sampled(
                row * old(self)@.cols + col,
                raw,
            ) && res == step_output(
                old(self)@.states[row * old(self)@.cols + col],
                raw,
                old(self)@.threshold,
            ),
            !(row < old(self)@.rows && col < old(self)@.cols) ==> final(self)@ == old(self)@
                && res is None,
    {
        if row < self.rows && col < self.cols {
            proof {
                lemma_position_in_range(self@.rows, self@.cols, row as int, col as int);
            }
            let at: usize = (row as usize) * (self.cols as usize) + (col as usize);
            self.sample_at(at, raw)
        } else {
            None
        }
    }

    /// Takes one sweep of raw samples, one for each key and row by row, and
    /// returns the transitions that they complete, in that order. Samples
    /// that are not one for each key are refused, and nothing changes.
    pub fn sweep(&mut self, raw: &Vec<bool>) -> (res: Option<Vec<Transition>>)
        requires
            old(self)@.wf(),
        ensures
            final(self)@.wf(),
            res is Some <==> raw@.len() == old(self)@.states.len(),
            res is Some ==> final(self)@ == old(self)@.swept(raw@)
                && res.unwrap()@ == old(self)@.sweep_output(raw@, raw@.len()),
            res is None ==> final(self)@ == old(self)@,
    {
        if raw.len() != self.states.len() {
            return None;
        }
        let mut out: Vec<Transition> = Vec::new();
        let mut i: usize = 0;
        while i < raw.len()
            invariant
                0 <= i <= raw@.len(),
                raw@.len() == old(self)@.states.len(),
                old(self)@.wf(),
                self@.wf(),
                self@.rows == old(self)@.rows,
                self@.cols == old(self)@.cols,
                self@.threshold == old(self)@.threshold,
                self@.states.len() == old(self)@.states.len(),
                forall|j: int|
                    0 <= j < i ==> self@.states[j] == step_state(
                        old(self)@.states[j],
                        raw@[j],
                        self@.threshold,
                    ),
                forall|j: int| i <= j < raw@.len() ==> self@.states[j] == old(self)@.states[j],
                out@ == old(self)@.sweep_output(raw@, i as nat),
            decreases raw@.len() - i,
        {
            proof {
                let cols = self@.cols as int;
                let rows = self@.rows as int;
                assert(cols * rows == rows * cols) by (nonlinear_arith);
                vstd::arithmetic::div_mod::lemma_multiply_divide_lt(i as int, cols, rows);
                vstd::arithmetic::div_mod::lemma_div_pos_is_pos(i as int, cols);
            }
            let row: u8 = (i / (self.cols as usize)) as u8;
            let col: u8 = (i % (self.cols as usize)) as u8;
            match self.sample_at(i, raw[i]) {
                Some(pressed) => {
                    out.push(Transition { row, col, pressed });
                },
                None => {},
            }
            i = i + 1;
        }
        assert(self@.states =~= old(self)@.swept(raw@).states);
        Some(out)
    }
}

/// The position of a key inside the matrix is inside the states.
pub proof fn lemma_position_in_range(rows: nat, cols: nat, row: int, col: int)
    requires
        0 <= row < rows,
        0 <= col < cols,
        rows <= 255,
        cols <= 255,
    ensures
        0 <= row * cols + col < rows * cols,
        0 <= row * cols <= 255 * 255,
        rows * cols <= 255 * 255,
{
    assert(0 <= row * cols && row * cols + col < rows * cols && rows * cols <= 255 * 255 && row
        * cols <= 255 * 255) by (nonlinear_arith)
        requires
            0 <= row < rows,
            0 <= col < cols,
            rows <= 255,
            cols <= 255,
    ;
}

} // verus!
