//! The order in which a half's matrix is scanned.
//!
//! The scanner drives one output line at a time: it names the line to
//! assert, takes the levels of all input lines once they have settled, and
//! names the line to deassert before it goes on to the next. After the last
//! line one sweep of raw samples is complete. The pins themselves belong to
//! the caller, who does what the scanner names.

use vstd::prelude::*;

verus! {

/// The mathematical content of a scanner.
pub struct ScannerView {
    /// Number of input (sensed) lines: the rows of the matrix.
    pub inputs: nat,
    /// Number of output (driven) lines: the columns of the matrix.
    pub outputs: nat,
    /// The output line that is asserted, or is the next to be.
    pub line: nat,
    /// Whether the output line `line` is asserted now.
    pub asserted: bool,
    /// Whether every output line has been sampled since the last sweep was
    /// taken.
    pub complete: bool,
    /// The last raw sample of every key, row by row.
    pub raw: Seq<bool>,
}

impl ScannerView {
    /// A valid scanner has lines of both kinds, a sample for each key, and
    /// its current line is one of its output lines.
    pub open spec fn wf(self) -> bool {
        &&& 1 <= self.inputs <= 255 && 1 <= self.outputs <= 255
        &&& self.line < self.outputs
        &&& self.raw.len() == self.inputs * self.outputs
    }

    /// The raw samples after the levels of the input lines were taken while
    /// output line `line` was asserted: the keys of that column have the new
    /// levels, the others keep theirs.
    pub open spec fn recorded(self, levels: Seq<bool>) -> Seq<bool> {
        Seq::new(
            self.raw.len(),
            |k: int|
                if k % self.outputs as int == self.line {
                    levels[k / self.outputs as int]
                } else {
                    self.raw[k]
                },
        )
    }

    /// The scanner after output line `line` was asserted.
    pub open spec fn begun(self) -> ScannerView {
        ScannerView { asserted: true, ..self }
    }

    /// The scanner after the levels were taken and the line was deasserted.
    pub open spec fn ended(self, levels: Seq<bool>) -> ScannerView {
        ScannerView {
            raw: self.recorded(levels),
            asserted: false,
            line: if self.line + 1 == self.outputs {
                0
            } else {
                self.line + 1
            },
            complete: self.complete || self.line + 1 == self.outputs,
            ..self
        }
    }
}

/// The scanner of one half.
#[derive(Debug)]
pub struct MatrixScanner {
    inputs: u8,
    outputs: u8,
    line: u8,
    asserted: bool,
    complete: bool,
    raw: Vec<bool>,
}

impl MatrixScanner {
    /// The mathematical content of the scanner.
    pub closed spec fn view(&self) -> ScannerView {
        ScannerView {
            inputs: self.inputs as nat,
            outputs: self.outputs as nat,
            line: self.line as nat,
            asserted: self.asserted,
            complete: self.complete,
            raw: self.raw@,
        }
    }

    /// A scanner before its first sweep: no line asserted, every key
    /// released. It needs at least one line of each kind.
    pub fn new(inputs: u8, outputs: u8) -> (res: Option<MatrixScanner>)
        ensures
            res is Some <==> inputs >= 1 && outputs >= 1,
            res is Some ==> res.unwrap()@.wf() && res.unwrap()@ == (ScannerView {
                inputs: inputs as nat,
                outputs: outputs as nat,
                line: 0,
                asserted: false,
                complete: false,
                raw: Seq::new(inputs as nat * outputs as nat, |k: int| false),
            }),
    {
        if inputs == 0 || outputs == 0 {
            return None;
        }
        assert(0 <= inputs * outputs <= 255 * 255) by (nonlinear_arith)
            requires
                0 <= inputs <= 255,
                0 <= outputs <= 255,
        ;
        let total: usize = (inputs as usize) * (outputs as usize);
        let mut raw: Vec<bool> = Vec::new();
        let mut i: usize = 0;
        while i < total
            invariant
                0 <= i <= total,
                raw@.len() == i,
                forall|j: int| 0 <= j < i ==> !raw@[j],
            decreases total - i,
        {
            raw.push(false);
            i = i + 1;
        }
        assert(raw@ =~= Seq::new(inputs as nat * outputs as nat, |k: int| false));
        Some(MatrixScanner { inputs, outputs, line: 0, asserted: false, complete: false, raw })
    }

    /// Whether an output line is asserted now.
    pub fn is_asserted(&self) -> (res: bool)
        ensures
            res == self@.asserted,
    {
        self.asserted
    }

    /// The output line that is asserted, or is the next to be.
    pub fn line(&self) -> (res: u8)
        ensures
            res == self@.line,
    {
        self.line
    }

    /// Names the output line to assert now. While a line is asserted no
    /// other is named, so that no two are ever active together.
    pub fn begin_line(&mut self) -> (res: Option<u8>)
        requires
            old(self)@.wf(),
        ensures
            final(self)@.wf(),
            old(self)@.asserted ==> res is None && final(self)@ == old(self)@,
            !old(self)@.asserted ==> res == Some(old(self)@.line as u8) && final(self)@ == old(
                self,
            )@.begun(),
    {
        if self.asserted {
            None
        } else {
            self.asserted = true;
            Some(self.line)
        }
    }

    /// Takes the settled levels of all input lines and names the output line
    /// to deassert. Levels that come while no line is asserted, or that are
    /// not one for each input line, are refused, and nothing changes.
    pub fn end_line(&mut self, levels: &Vec<bool>) -> (res: Option<u8>)
        requires
            old(self)@.wf(),
        ensures
            final(self)@.wf(),
            res is Some <==> old(self)@.asserted && levels@.len() == old(self)@.inputs,
            res is Some ==> res == Some(old(self)@.line as u8) && final(self)@ == old(self)@.ended(
                levels@,
            ),
            res is None ==> final(self)@ == old(self)@,
    {
        if !self.asserted || levels.len() != self.inputs as usize {
            return None;
        }
        let line = self.line;
        let outputs: usize = self.outputs as usize;
        let mut i: usize = 0;
        while i < levels.len()
            invariant
                0 <= i <= levels@.len(),
                levels@.len() == old(self)@.inputs,
                old(self)@.wf(),
                outputs == old(self)@.outputs,
                line == old(self)@.line,
                self.inputs == old(self).inputs,
                self.outputs == old(self).outputs,
                self.line == old(self).line,
                self.asserted == old(self).asserted,
                self.complete == old(self).complete,
                self.raw@.len() == old(self).raw@.len(),
                forall|k: int|
                    0 <= k < self.raw@.len() ==> #[trigger] self.raw@[k] == if k % (outputs as int)
                        == line && k / (outputs as int) < i {
                        levels@[k / (outputs as int)]
                    } else {
                        old(self).raw@[k]
                    },
            decreases levels@.len() - i,
        {
            let ghost before = self.raw@;
            proof {
                lemma_key_position(old(self)@.inputs as int, outputs as int, i as int, line as int);
            }
            let at: usize = i * outputs + (line as usize);
            self.raw.set(at, levels[i]);
            proof {
                assert forall|k: int| 0 <= k < self.raw@.len() implies #[trigger] self.raw@[k] == if k
                    % (outputs as int) == line && k / (outputs as int) < i + 1 {
                    levels@[k / (outputs as int)]
                } else {
                    old(self).raw@[k]
                } by {
                    if k != at {
                        assert(self.raw@[k] == before[k]);
                        if k % (outputs as int) == line && k / (outputs as int) == i {
                            vstd::arithmetic::div_mod::lemma_fundamental_div_mod(k, outputs as int);
                            assert(k == at) by (nonlinear_arith)
                                requires
                                    k == outputs * (k / (outputs as int)) + k % (outputs as int),
                                    k % (outputs as int) == line,
                                    k / (outputs as int) == i,
                                    at == i * outputs + line,
                            ;
                        }
                    }
                }
            }
            i = i + 1;
        }
        proof {
            assert forall|k: int| 0 <= k < self.raw@.len() implies self.raw@[k] == old(
                self,
            )@.recorded(levels@)[k] by {
                if k % (outputs as int) == line {
                    let inputs = old(self)@.inputs as int;
                    assert(inputs * outputs == outputs * inputs) by (nonlinear_arith);
                    vstd::arithmetic::div_mod::lemma_multiply_divide_lt(
                        k,
                        outputs as int,
                        old(self)@.inputs as int,
                    );
                }
            }
            assert(self.raw@ =~= old(self)@.recorded(levels@));
        }
        self.asserted = false;
        if self.line + 1 == self.outputs {
            self.line = 0;
            self.complete = true;
        } else {
            self.line = self.line + 1;
        }
        Some(line)
    }

    /// The raw samples of a whole sweep, one for each key and row by row,
    /// once every output line has been sampled since the last sweep was
    /// taken.
    pub fn take_sweep(&mut self) -> (res: Option<Vec<bool>>)
        requires
            old(self)@.wf(),
        ensures
            final(self)@.wf(),
            res is Some <==> old(self)@.complete,
            res is Some ==> res.unwrap()@ == old(self)@.raw,
            final(self)@ == (ScannerView { complete: false, ..old(self)@ }),
    {
        if !self.complete {
            return None;
        }
        let mut out: Vec<bool> = Vec::new();
        let mut i: usize = 0;
        while i < self.raw.len()
            invariant
                0 <= i <= self.raw@.len(),
                out@ == self.raw@.take(i as int),
            decreases self.raw@.len() - i,
        {
            out.push(self.raw[i]);
            assert(self.raw@.take(i + 1) =~= self.raw@.take(i as int).push(self.raw@[i as int]));
            i = i + 1;
        }
        assert(self.raw@.take(i as int) =~= self.raw@);
        self.complete = false;
        Some(out)
    }
}

/// The position of the key on input line `input` and output line `output`
/// lies inside the samples, and gives both lines back.
pub proof fn lemma_key_position(inputs: int, outputs: int, input: int, output: int)
    requires
        0 <= input < inputs <= 255,
        0 <= output < outputs <= 255,
    ensures
        0 <= input * outputs + output < inputs * outputs <= 255 * 255,
        0 <= input * outputs <= 255 * 255,
        (input * outputs + output) % outputs == output,
        (input * outputs + output) / outputs == input,
{
    assert(0 <= input * outputs && input * outputs + output < inputs * outputs && inputs * outputs
        <= 255 * 255 && input * outputs <= 255 * 255) by (nonlinear_arith)
        requires
            0 <= input < inputs <= 255,
            0 <= output < outputs <= 255,
    ;
    vstd::arithmetic::div_mod::lemma_fundamental_div_mod_converse(
        input * outputs + output,
        outputs,
        input,
        output,
    );
}

/// No two output lines are ever active together: while a line is asserted,
/// asking for the next line names none, and it is named only once the
/// asserted line has been sampled and deasserted.
pub proof fn lemma_one_line_at_a_time(v: ScannerView, levels: Seq<bool>)
    requires
        v.wf(),
        !v.asserted,
    ensures
        v.begun().asserted,
        v.begun().line == v.line,
        !v.begun().ended(levels).asserted,
        v.begun().ended(levels).line == ((v.line + 1) as int) % (v.outputs as int),
{
    if v.line + 1 == v.outputs {
        vstd::arithmetic::div_mod::lemma_mod_self_0(v.outputs as int);
    } else {
        vstd::arithmetic::div_mod::lemma_small_mod((v.line + 1) as nat, v.outputs);
    }
}

} // verus!
