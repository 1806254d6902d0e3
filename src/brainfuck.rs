//! The tape-language interpreter: a static bracket check, a one-instruction
//! step function over a machine state, and a run loop gated by a step
//! ceiling and a wall-clock ceiling.
use vstd::prelude::*;
use crate::text::{byte_char, byte_to_char, chars_of, decimal, decimal_string, string_of};
use vstd::string::StringExecFns;

verus! {

/// Number of cells on the tape.
pub const TAPE_LEN: usize = 30000;

/// Largest number of instructions one run may execute.
pub const MAX_STEPS: u64 = 5000000;

/// Longest wall-clock time one run may take, in nanoseconds.
pub const MAX_RUNTIME_NANOS: u128 = 5000000000;

/// Why a run stopped before the code pointer passed the end of the program.
#[derive(Clone, Copy, Debug, PartialEq, Eq, Structural)]
pub enum BfError {
    /// A `[` that no `]` closes.
    UnmatchedOpeningBracket { position: usize },
    /// A `]` that no `[` opens.
    UnmatchedClosingBracket { position: usize },
    /// `,` ran with no input left.
    InsufficientInput,
    /// The step ceiling was reached.
    StepLimitExceeded,
    /// The wall-clock ceiling was crossed.
    TimeLimitExceeded,
}

// ---------------------------------------------------------------------------
// The static bracket check
// ---------------------------------------------------------------------------

/// Scans the first `i` characters of `code`, keeping the positions of the
/// open brackets not closed yet; fails at the first `]` that closes nothing.
pub open spec fn scan(code: Seq<char>, i: nat) -> Result<Seq<usize>, BfError>
    decreases i,
{
    if i == 0 {
        Ok(Seq::empty())
    } else {
        let k = (i - 1) as nat;
        match scan(code, k) {
            Err(e) => Err(e),
            Ok(open) => if code[k as int] == '[' {
                Ok(open.push(k as usize))
            } else if code[k as int] == ']' {
                if open.len() == 0 {
                    Err(BfError::UnmatchedClosingBracket { position: k as usize })
                } else {
                    Ok(open.drop_last())
                }
            } else {
                Ok(open)
            },
        }
    }
}

/// The outcome of the bracket check on a whole program: the first `]` that
/// closes nothing, else the innermost `[` left open, else success.
pub open spec fn validation(code: Seq<char>) -> Result<(), BfError> {
    match scan(code, code.len()) {
        Err(e) => Err(e),
        Ok(open) => if open.len() == 0 {
            Ok(())
        } else {
            Err(BfError::UnmatchedOpeningBracket { position: open.last() })
        },
    }
}

/// Checks that every bracket of `code` has a partner.
pub fn validate(code: &Vec<char>) -> (r: Result<(), BfError>)
    ensures
        r == validation(code@),
{
    let mut open: Vec<usize> = Vec::new();
    let mut i: usize = 0;
    while i < code.len()
        invariant
            i <= code@.len(),
            scan(code@, i as nat) == Ok::<Seq<usize>, BfError>(open@),
        decreases code@.len() - i,
    {
        let c = code[i];
        if c == '[' {
            open.push(i);
        } else if c == ']' {
            if open.len() == 0 {
                proof {
                    lemma_scan_error_persists(code@, (i + 1) as nat, code@.len());
                }
                return Err(BfError::UnmatchedClosingBracket { position: i });
            }
            open.pop();
        }
        i = i + 1;
    }
    if open.len() == 0 {
        Ok(())
    } else {
        Err(BfError::UnmatchedOpeningBracket { position: open[open.len() - 1] })
    }
}

/// Once the scan has failed it stays failed, with the same error.
pub proof fn lemma_scan_error_persists(code: Seq<char>, i: nat, j: nat)
    requires
        i <= j,
        scan(code, i) is Err,
    ensures
        scan(code, j) == scan(code, i),
    decreases j - i,
{
    if i < j {
        lemma_scan_error_persists(code, i, (j - 1) as nat);
    }
}

// ---------------------------------------------------------------------------
// The machine and one step of it
// ---------------------------------------------------------------------------

/// The mathematical state of a run: tape, data pointer, code pointer, the
/// input not read yet, the output so far, and the positions of the loops
/// entered and not left.
pub struct State {
    pub tape: Seq<u8>,
    pub ptr: nat,
    pub pc: nat,
    pub input: Seq<u8>,
    pub output: Seq<char>,
    pub loops: Seq<usize>,
}

/// The state a run starts from: a zeroed tape and both pointers at zero.
pub open spec fn initial_state(inputs: Seq<u8>) -> State {
    State {
        tape: Seq::new(TAPE_LEN as nat, |i: int| 0u8),
        ptr: 0,
        pc: 0,
        input: inputs,
        output: Seq::empty(),
        loops: Seq::empty(),
    }
}

/// A cell value plus one, wrapping from 255 to 0.
pub open spec fn cell_inc(v: u8) -> u8 {
    if v == 255 {
        0
    } else {
        (v + 1) as u8
    }
}

/// A cell value minus one, wrapping from 0 to 255.
pub open spec fn cell_dec(v: u8) -> u8 {
    if v == 0 {
        255
    } else {
        (v - 1) as u8
    }
}

/// The position of the `]` that brings the bracket depth from `depth` to
/// zero, scanning forward from `j`; `None` when the program ends first.
pub open spec fn matching_close(code: Seq<char>, j: nat, depth: nat) -> Option<nat>
    decreases code.len() - j,
{
    if j >= code.len() {
        None
    } else if code[j as int] == '[' {
        matching_close(code, j + 1, depth + 1)
    } else if code[j as int] == ']' {
        if depth <= 1 {
            Some(j)
        } else {
            matching_close(code, j + 1, (depth - 1) as nat)
        }
    } else {
        matching_close(code, j + 1, depth)
    }
}

/// Executes the instruction under the code pointer.
pub open spec fn step(code: Seq<char>, s: State) -> Result<State, BfError> {
    let c = code[s.pc as int];
    let cell = s.tape[s.ptr as int];
    let next = State { pc: s.pc + 1, ..s };
    if c == '>' {
        Ok(State { ptr: (s.ptr + 1) % (TAPE_LEN as nat), ..next })
    } else if c == '<' {
        Ok(State { ptr: ((s.ptr + TAPE_LEN - 1) % (TAPE_LEN as int)) as nat, ..next })
    } else if c == '+' {
        Ok(State { tape: s.tape.update(s.ptr as int, cell_inc(cell)), ..next })
    } else if c == '-' {
        Ok(State { tape: s.tape.update(s.ptr as int, cell_dec(cell)), ..next })
    } else if c == '.' {
        Ok(State { output: s.output.push(byte_char(cell)), ..next })
    } else if c == ',' {
        if s.input.len() == 0 {
            Err(BfError::InsufficientInput)
        } else {
            Ok(State { tape: s.tape.update(s.ptr as int, s.input[0]), input: s.input.drop_first(), ..next })
        }
    } else if c == '[' {
        if cell == 0 {
            match matching_close(code, s.pc + 1, 1) {
                None => Err(BfError::UnmatchedOpeningBracket { position: s.pc as usize }),
                Some(j) => Ok(State { pc: j + 1, ..s }),
            }
        } else {
            Ok(State { loops: s.loops.push(s.pc as usize), ..next })
        }
    } else if c == ']' {
        if cell != 0 {
            if s.loops.len() == 0 {
                Err(BfError::UnmatchedClosingBracket { position: s.pc as usize })
            } else {
                Ok(State { pc: (s.loops.last() + 1) as nat, ..s })
            }
        } else if s.loops.len() == 0 {
            Ok(next)
        } else {
            Ok(State { loops: s.loops.drop_last(), ..next })
        }
    } else {
        Ok(next)
    }
}

/// The executable machine: one run's exclusively owned tape, pointers,
/// input queue, output and loop stack.
pub struct Machine {
    pub tape: Vec<u8>,
    pub ptr: usize,
    pub pc: usize,
    pub input: Vec<u8>,
    pub consumed: usize,
    pub output: Vec<char>,
    pub loops: Vec<usize>,
}

impl View for Machine {
    type V = State;

    open spec fn view(&self) -> State {
        State {
            tape: self.tape@,
            ptr: self.ptr as nat,
            pc: self.pc as nat,
            input: self.input@.skip(self.consumed as int),
            output: self.output@,
            loops: self.loops@,
        }
    }
}

impl Machine {
    /// The tape has its fixed length, the data pointer is on it, and no more
    /// input has been consumed than was given.
    pub open spec fn wf(&self) -> bool {
        &&& self.tape@.len() == TAPE_LEN
        &&& self.ptr < TAPE_LEN
        &&& self.consumed <= self.input@.len()
    }

    /// Every position the machine holds lies within `code`.
    pub open spec fn within(&self, code: Seq<char>) -> bool {
        &&& code.len() <= usize::MAX
        &&& self.pc <= code.len()
        &&& forall|k: int| 0 <= k < self.loops@.len() ==> self.loops@[k] < code.len()
    }

    /// A fresh machine that will read `inputs`, in order.
    pub fn new(inputs: Vec<u8>) -> (m: Machine)
        ensures
            m.wf(),
            m@ == initial_state(inputs@),
    {
        let mut tape: Vec<u8> = Vec::new();
        while tape.len() < TAPE_LEN
            invariant
                tape@.len() <= TAPE_LEN,
                forall|i: int| 0 <= i < tape@.len() ==> tape@[i] == 0u8,
            decreases TAPE_LEN - tape@.len(),
        {
            tape.push(0u8);
        }
        let m = Machine {
            tape,
            ptr: 0,
            pc: 0,
            input: inputs,
            consumed: 0,
            output: Vec::new(),
            loops: Vec::new(),
        };
        assert(m@.tape =~= initial_state(inputs@).tape);
        assert(m@.input =~= inputs@);
        m
    }

    /// Executes the instruction under the code pointer. On an error the
    /// machine is left as it was.
    pub fn step(&mut self, code: &Vec<char>) -> (r: Result<(), BfError>)
        requires
            old(self).wf(),
            old(self).within(code@),
            old(self).pc < code@.len(),
        ensures
            final(self).wf(),
            final(self).within(code@),
            match step(code@, old(self)@) {
                Ok(n) => r == Ok::<(), BfError>(()) && final(self)@ == n,
                Err(e) => r == Err::<(), BfError>(e) && final(self)@ == old(self)@,
            },
    {
        let c = code[self.pc];
        let ptr = self.ptr;
        let cell = self.tape[ptr];
        if c == '>' {
            self.ptr = if ptr + 1 == TAPE_LEN { 0 } else { ptr + 1 };
            self.pc = self.pc + 1;
        } else if c == '<' {
            self.ptr = if ptr == 0 { TAPE_LEN - 1 } else { ptr - 1 };
            self.pc = self.pc + 1;
        } else if c == '+' {
            self.tape.set(ptr, cell.wrapping_add(1));
            self.pc = self.pc + 1;
        } else if c == '-' {
            self.tape.set(ptr, cell.wrapping_sub(1));
            self.pc = self.pc + 1;
        } else if c == '.' {
            self.output.push(byte_to_char(cell));
            self.pc = self.pc + 1;
        } else if c == ',' {
            if self.consumed >= self.input.len() {
                return Err(BfError::InsufficientInput);
            }
            let b = self.input[self.consumed];
            self.tape.set(ptr, b);
            self.consumed = self.consumed + 1;
            self.pc = self.pc + 1;
            assert(self@.input =~= old(self)@.input.drop_first());
        } else if c == '[' {
            if cell == 0 {
                match skip_loop(code, self.pc) {
                    None => {
                        return Err(BfError::UnmatchedOpeningBracket { position: self.pc });
                    },
                    Some(j) => {
                        self.pc = j + 1;
                    },
                }
            } else {
                self.loops.push(self.pc);
                self.pc = self.pc + 1;
            }
        } else if c == ']' {
            if cell != 0 {
                if self.loops.len() == 0 {
                    return Err(BfError::UnmatchedClosingBracket { position: self.pc });
                }
                self.pc = self.loops[self.loops.len() - 1] + 1;
            } else {
                if self.loops.len() > 0 {
                    self.loops.pop();
                }
                self.pc = self.pc + 1;
            }
        } else {
            self.pc = self.pc + 1;
        }
        Ok(())
    }
}

/// Finds the `]` that closes the `[` at `open`.
fn skip_loop(code: &Vec<char>, open: usize) -> (r: Option<usize>)
    requires
        open < code@.len(),
        code@.len() <= usize::MAX,
    ensures
        match r {
            Some(j) => j < code@.len() && matching_close(code@, open as nat + 1, 1) == Some(j as nat),
            None => matching_close(code@, open as nat + 1, 1) is None,
        },
{
    let mut j: usize = open + 1;
    let mut depth: usize = 1;
    while j < code.len()
        invariant
            open < j <= code@.len(),
            code@.len() <= usize::MAX,
            1 <= depth <= j - open,
            matching_close(code@, open as nat + 1, 1) == matching_close(code@, j as nat, depth as nat),
        decreases code@.len() - j,
    {
        let c = code[j];
        if c == '[' {
            depth = depth + 1;
        } else if c == ']' {
            if depth == 1 {
                return Some(j);
            }
            depth = depth - 1;
        }
        j = j + 1;
    }
    None
}

// ---------------------------------------------------------------------------
// Whole runs under the step and wall-clock ceilings
// ---------------------------------------------------------------------------

/// The result of a run as values: the output, or the error with the output
/// produced before it.
pub type Outcome = Result<Seq<char>, (BfError, Seq<char>)>;

/// Runs from `s`, which has already executed `steps` instructions. Before
/// each instruction the clock is consulted, then the step ceiling.
/// `clock_trip` is the step count at which the clock is first seen past its
/// ceiling (`None`: never).
pub open spec fn run(code: Seq<char>, s: State, steps: nat, clock_trip: Option<nat>) -> Outcome
    decreases MAX_STEPS - steps,
{
    if s.pc >= code.len() {
        Ok(s.output)
    } else if clock_trip == Some(steps) {
        Err((BfError::TimeLimitExceeded, s.output))
    } else if steps >= MAX_STEPS {
        Err((BfError::StepLimitExceeded, s.output))
    } else {
        match step(code, s) {
            Err(e) => Err((e, s.output)),
            Ok(n) => run(code, n, steps + 1, clock_trip),
        }
    }
}

/// The bracket check, then a run from a fresh machine.
pub open spec fn interpretation(code: Seq<char>, inputs: Seq<u8>, clock_trip: Option<nat>) -> Outcome {
    match validation(code) {
        Err(e) => Err((e, Seq::empty())),
        Ok(_) => run(code, initial_state(inputs), 0, clock_trip),
    }
}

/// The value of an executable result.
pub open spec fn outcome_of(r: Result<String, (BfError, String)>) -> Outcome {
    match r {
        Ok(out) => Ok(out@),
        Err((e, out)) => Err((e, out@)),
    }
}

/// A result that stopped at the wall-clock ceiling.
pub open spec fn timed_out(r: Outcome) -> bool {
    r matches Err((BfError::TimeLimitExceeded, _))
}

/// What a run whose clock readings are not known in advance may return: the
/// outcome of the run that never sees the clock past its ceiling, or a stop
/// at the wall-clock ceiling after some number of steps.
pub open spec fn possible_outcome(r: Outcome, code: Seq<char>, inputs: Seq<u8>) -> bool {
    ||| r == interpretation(code, inputs, None)
    ||| timed_out(r) && exists|k: nat| r == #[trigger] interpretation(code, inputs, Some(k))
}

#[verifier::external_type_specification]
#[verifier::external_body]
pub struct ExInstant(std::time::Instant);

/// Relies on `Instant::now`, to mark when a run began; nothing is assumed of
/// the value.
pub assume_specification[ std::time::Instant::now ]() -> std::time::Instant;

/// Relies on `Instant::elapsed`, to measure how long a run has taken; nothing
/// is assumed of the value.
pub assume_specification[ std::time::Instant::elapsed ](i: &std::time::Instant) -> core::time::Duration;

/// Relies on `Duration::as_nanos`, to compare an elapsed time with the
/// ceiling; nothing is assumed of the value.
pub assume_specification[ core::time::Duration::as_nanos ](d: &core::time::Duration) -> u128;

/// Whether an elapsed time, in nanoseconds, is past the wall-clock ceiling.
pub fn past_deadline(elapsed_nanos: u128) -> (r: bool)
    ensures
        r == (elapsed_nanos > MAX_RUNTIME_NANOS),
{
    elapsed_nanos > MAX_RUNTIME_NANOS
}

/// Runs `code` from a fresh machine, checking the clock and the step ceiling
/// before each instruction.
fn execute(code: &Vec<char>, inputs: Vec<u8>) -> (r: Result<String, (BfError, String)>)
    ensures
        outcome_of(r) == run(code@, initial_state(inputs@), 0, None) || (timed_out(outcome_of(r))
            && exists|k: nat| outcome_of(r) == #[trigger] run(code@, initial_state(inputs@), 0, Some(k))),
{
    let n = code.len();
    let mut m = Machine::new(inputs);
    let ghost s0 = m@;
    let start = std::time::Instant::now();
    let mut steps: u64 = 0;
    while m.pc < n
        invariant
            n == code@.len(),
            m.wf(),
            m.within(code@),
            steps <= MAX_STEPS,
            s0 == initial_state(inputs@),
            forall|t: Option<nat>|
                (t is None || t->0 >= steps) ==> #[trigger] run(code@, s0, 0, t) == run(
                    code@,
                    m@,
                    steps as nat,
                    t,
                ),
        decreases MAX_STEPS - steps,
    {
        if past_deadline(start.elapsed().as_nanos()) {
            let r = Err((BfError::TimeLimitExceeded, string_of(&m.output)));
            assert(outcome_of(r) == run(code@, s0, 0, Some(steps as nat)));
            return r;
        }
        if steps >= MAX_STEPS {
            let r = Err((BfError::StepLimitExceeded, string_of(&m.output)));
            assert(outcome_of(r) == run(code@, s0, 0, None));
            return r;
        }
        match m.step(code) {
            Err(e) => {
                let r = Err((e, string_of(&m.output)));
                assert(outcome_of(r) == run(code@, s0, 0, None));
                return r;
            },
            Ok(()) => {},
        }
        steps = steps + 1;
    }
    let r = Ok(string_of(&m.output));
    assert(outcome_of(r) == run(code@, s0, 0, None));
    r
}

/// Checks the brackets of `code`, then runs it on `inputs`. Apart from a
/// stop at the wall-clock ceiling, the outcome is fixed by the program and
/// its input.
pub fn run_program(code: &Vec<char>, inputs: Vec<u8>) -> (r: Result<String, (BfError, String)>)
    ensures
        possible_outcome(outcome_of(r), code@, inputs@),
{
    match validate(code) {
        Err(e) => {
            let r = Err((e, string_of(&Vec::new())));
            assert(outcome_of(r) == interpretation(code@, inputs@, None));
            r
        },
        Ok(()) => {
            let ghost given = inputs@;
            let r = execute(code, inputs);
            proof {
                if outcome_of(r) != run(code@, initial_state(given), 0, None) {
                    let k = choose|k: nat|
                        outcome_of(r) == #[trigger] run(code@, initial_state(given), 0, Some(k));
                    assert(outcome_of(r) == interpretation(code@, given, Some(k)));
                }
            }
            r
        },
    }
}

// ---------------------------------------------------------------------------
// Errors as text
// ---------------------------------------------------------------------------

/// The human-readable description of an error.
pub open spec fn error_text(e: BfError) -> Seq<char> {
    match e {
        BfError::UnmatchedOpeningBracket { position } => "Unmatched opening bracket at position "@
            + decimal(position as nat),
        BfError::UnmatchedClosingBracket { position } => "Unmatched closing bracket at position "@
            + decimal(position as nat),
        BfError::InsufficientInput => "Not enough input values provided"@,
        BfError::StepLimitExceeded => "Instruction limit exceeded"@,
        BfError::TimeLimitExceeded => "Execution time limit exceeded"@,
    }
}

impl BfError {
    /// The human-readable description of this error.
    pub fn message(&self) -> (r: String)
        ensures
            r@ == error_text(*self),
    {
        match *self {
            BfError::UnmatchedOpeningBracket { position } => {
                let mut r = String::from_str("Unmatched opening bracket at position ");
                r.append(decimal_string(position).as_str());
                r
            },
            BfError::UnmatchedClosingBracket { position } => {
                let mut r = String::from_str("Unmatched closing bracket at position ");
                r.append(decimal_string(position).as_str());
                r
            },
            BfError::InsufficientInput => String::from_str("Not enough input values provided"),
            BfError::StepLimitExceeded => String::from_str("Instruction limit exceeded"),
            BfError::TimeLimitExceeded => String::from_str("Execution time limit exceeded"),
        }
    }
}

/// The value of a result whose error is given as text.
pub open spec fn text_outcome_of(r: Result<String, (String, String)>) -> Result<Seq<char>, (Seq<char>, Seq<char>)> {
    match r {
        Ok(out) => Ok(out@),
        Err((msg, out)) => Err((msg@, out@)),
    }
}

/// An outcome with its error replaced by the error's description.
pub open spec fn described(r: Outcome) -> Result<Seq<char>, (Seq<char>, Seq<char>)> {
    match r {
        Ok(out) => Ok(out),
        Err((e, out)) => Err((error_text(e), out)),
    }
}

/// Runs the program `code` on the bytes `inputs`: the full output, or the
/// description of what stopped it with the output produced before that.
pub fn interpret_brainfuck(code: String, inputs: Vec<u8>) -> (r: Result<String, (String, String)>)
    ensures
        text_outcome_of(r) == described(interpretation(code@, inputs@, None)) || exists|k: nat|
            timed_out(#[trigger] interpretation(code@, inputs@, Some(k))) && text_outcome_of(r)
                == described(interpretation(code@, inputs@, Some(k))),
{
    let ghost given = inputs@;
    let chars = chars_of(code.as_str());
    let r = run_program(&chars, inputs);
    let ghost o = outcome_of(r);
    let t = match r {
        Ok(out) => Ok(out),
        Err((e, out)) => Err((e.message(), out)),
    };
    assert(text_outcome_of(t) == described(o));
    proof {
        if o != interpretation(code@, given, None) {
            let k = choose|k: nat| o == #[trigger] interpretation(code@, given, Some(k));
            assert(timed_out(interpretation(code@, given, Some(k))));
        }
    }
    t
}

// ---------------------------------------------------------------------------
// Facts about runs
// ---------------------------------------------------------------------------

/// A clock reading can only cut a run short: with the clock tripping at any
/// step, the run either stops at the wall-clock ceiling or ends exactly as
/// the run that never sees the clock trip.
pub proof fn lemma_run_clock_only_cuts(code: Seq<char>, s: State, steps: nat, k: nat)
    ensures
        timed_out(run(code, s, steps, Some(k))) || run(code, s, steps, Some(k)) == run(
            code,
            s,
            steps,
            None,
        ),
    decreases MAX_STEPS - steps,
{
    if s.pc < code.len() && Some(k) != Some(steps) && steps < MAX_STEPS {
        if let Ok(n) = step(code, s) {
            lemma_run_clock_only_cuts(code, n, steps + 1, k);
        }
    }
}

/// Determinism: a program's outcome on given input is fixed. Whatever the
/// clock does, the result is either a stop at the wall-clock ceiling or the
/// one outcome of the run that is never stopped by the clock.
pub proof fn lemma_outcome_is_fixed(code: Seq<char>, inputs: Seq<u8>, k: nat)
    ensures
        timed_out(interpretation(code, inputs, Some(k))) || interpretation(code, inputs, Some(k))
            == interpretation(code, inputs, None),
{
    if validation(code) is Ok {
        lemma_run_clock_only_cuts(code, initial_state(inputs), 0, k);
    }
}

/// Moving left from the first cell lands on the last one, and moving right
/// from the last cell lands on the first; neither is an error.
pub proof fn lemma_pointer_wraps(code: Seq<char>, s: State)
    requires
        s.pc < code.len(),
    ensures
        code[s.pc as int] == '<' && s.ptr == 0 ==> step(code, s) == Ok::<State, BfError>(
            State { ptr: (TAPE_LEN - 1) as nat, pc: s.pc + 1, ..s },
        ),
        code[s.pc as int] == '>' && s.ptr == TAPE_LEN - 1 ==> step(code, s) == Ok::<
            State,
            BfError,
        >(State { ptr: 0, pc: s.pc + 1, ..s }),
{
}

/// Incrementing a cell that holds 255 leaves 0 there, and decrementing a
/// cell that holds 0 leaves 255.
pub proof fn lemma_cell_wraps(code: Seq<char>, s: State)
    requires
        s.pc < code.len(),
        s.ptr < s.tape.len(),
    ensures
        code[s.pc as int] == '+' && s.tape[s.ptr as int] == 255 ==> step(code, s) == Ok::<
            State,
            BfError,
        >(State { tape: s.tape.update(s.ptr as int, 0), pc: s.pc + 1, ..s }),
        code[s.pc as int] == '-' && s.tape[s.ptr as int] == 0 ==> step(code, s) == Ok::<
            State,
            BfError,
        >(State { tape: s.tape.update(s.ptr as int, 255), pc: s.pc + 1, ..s }),
{
}

/// A `]` that finds no unclosed `[` before it fails the program at its own
/// position, before anything runs and so with empty output.
pub proof fn lemma_unmatched_close(code: Seq<char>, inputs: Seq<u8>, i: nat, clock_trip: Option<nat>)
    requires
        i < code.len(),
        code[i as int] == ']',
        scan(code, i) == Ok::<Seq<usize>, BfError>(Seq::empty()),
    ensures
        interpretation(code, inputs, clock_trip) == Err::<Seq<char>, (BfError, Seq<char>)>(
            (BfError::UnmatchedClosingBracket { position: i as usize }, Seq::empty()),
        ),
{
    assert(scan(code, i + 1) == Err::<Seq<usize>, BfError>(
        BfError::UnmatchedClosingBracket { position: i as usize },
    ));
    lemma_scan_error_persists(code, i + 1, code.len());
}

/// Every position on the scan's stack holds a `[` before the scanned prefix's end.
pub proof fn lemma_scan_holds_open_brackets(code: Seq<char>, i: nat)
    requires
        i <= code.len(),
        code.len() <= usize::MAX,
        scan(code, i) is Ok,
    ensures
        forall|j: int|
            0 <= j < scan(code, i)->Ok_0.len() ==> {
                let p = #[trigger] scan(code, i)->Ok_0[j];
                p < i && code[p as int] == '['
            },
    decreases i,
{
    if i > 0 {
        lemma_scan_holds_open_brackets(code, (i - 1) as nat);
    }
}

/// A program whose scan leaves brackets open fails, before anything runs,
/// at the innermost `[` still open.
pub proof fn lemma_unmatched_open(code: Seq<char>, inputs: Seq<u8>, clock_trip: Option<nat>)
    requires
        code.len() <= usize::MAX,
        scan(code, code.len()) is Ok,
        scan(code, code.len())->Ok_0.len() > 0,
    ensures
        ({
            let p = scan(code, code.len())->Ok_0.last();
            &&& code[p as int] == '['
            &&& interpretation(code, inputs, clock_trip) == Err::<Seq<char>, (BfError, Seq<char>)>(
                (BfError::UnmatchedOpeningBracket { position: p }, Seq::empty()),
            )
        }),
{
    lemma_scan_holds_open_brackets(code, code.len());
    let open = scan(code, code.len())->Ok_0;
    assert(open.last() == open[open.len() - 1]);
}

/// A run that reaches the step ceiling with instructions left stops there,
/// with the output produced so far (unless the clock trips at that moment).
pub proof fn lemma_step_ceiling(code: Seq<char>, s: State, clock_trip: Option<nat>)
    requires
        s.pc < code.len(),
        clock_trip != Some(MAX_STEPS as nat),
    ensures
        run(code, s, MAX_STEPS as nat, clock_trip) == Err::<Seq<char>, (BfError, Seq<char>)>(
            (BfError::StepLimitExceeded, s.output),
        ),
{
}

/// A read with no input left stops the run with `InsufficientInput`, and
/// the output returned is exactly what had been emitted before the read.
pub proof fn lemma_read_past_input(code: Seq<char>, s: State, steps: nat, clock_trip: Option<nat>)
    requires
        s.pc < code.len(),
        code[s.pc as int] == ',',
        s.input.len() == 0,
        steps < MAX_STEPS,
        clock_trip != Some(steps),
    ensures
        run(code, s, steps, clock_trip) == Err::<Seq<char>, (BfError, Seq<char>)>(
            (BfError::InsufficientInput, s.output),
        ),
{
}

/// A state that one step leaves unchanged spins until the step ceiling.
pub proof fn lemma_fixed_point_spins(code: Seq<char>, s: State, steps: nat)
    requires
        s.pc < code.len(),
        steps <= MAX_STEPS,
        step(code, s) == Ok::<State, BfError>(s),
    ensures
        run(code, s, steps, None) == Err::<Seq<char>, (BfError, Seq<char>)>(
            (BfError::StepLimitExceeded, s.output),
        ),
    decreases MAX_STEPS - steps,
{
    if steps < MAX_STEPS {
        lemma_fixed_point_spins(code, s, steps + 1);
    }
}

/// The program `+[]` sets a cell to one and then loops on it forever: unless
/// the clock stops it first, it ends at the step ceiling with no output.
pub proof fn lemma_endless_loop_hits_ceiling(inputs: Seq<u8>)
    ensures
        interpretation(seq!['+', '[', ']'], inputs, None) == Err::<Seq<char>, (BfError, Seq<char>)>(
            (BfError::StepLimitExceeded, Seq::empty()),
        ),
{
    let code = seq!['+', '[', ']'];
    assert(code[0] == '+' && code[1] == '[' && code[2] == ']');
    assert(scan(code, 0) == Ok::<Seq<usize>, BfError>(Seq::empty()));
    assert(scan(code, 1) == Ok::<Seq<usize>, BfError>(Seq::empty()));
    assert(scan(code, 2) == Ok::<Seq<usize>, BfError>(seq![1usize]));
    assert(seq![1usize].drop_last() =~= Seq::<usize>::empty());
    assert(scan(code, 3) == Ok::<Seq<usize>, BfError>(Seq::empty()));
    assert(validation(code) is Ok);
    let s0 = initial_state(inputs);
    let s1 = State { tape: s0.tape.update(0, 1), pc: 1, ..s0 };
    assert(step(code, s0) == Ok::<State, BfError>(s1));
    let s2 = State { loops: seq![1usize], pc: 2, ..s1 };
    assert(Seq::<usize>::empty().push(1usize) =~= seq![1usize]);
    assert(step(code, s1) == Ok::<State, BfError>(s2));
    assert(step(code, s2) == Ok::<State, BfError>(s2));
    lemma_fixed_point_spins(code, s2, 2);
    assert(run(code, s1, 1, None) == run(code, s2, 2, None));
    assert(run(code, s0, 0, None) == run(code, s1, 1, None));
}

// ---------------------------------------------------------------------------
// Checked programs never stop at run time for a bracket
// ---------------------------------------------------------------------------

/// The scan of a prefix of a program that passes the bracket check succeeds.
proof fn lemma_scan_ok_everywhere(code: Seq<char>, i: nat)
    requires
        i <= code.len(),
        validation(code) is Ok,
    ensures
        scan(code, i) is Ok,
{
    if scan(code, i) is Err {
        lemma_scan_error_persists(code, i, code.len());
    }
}

/// Jumping back from inside a loop: the stack at the position just after
/// the innermost open `[` is the stack seen now.
proof fn lemma_scan_after_innermost_open(code: Seq<char>, p: nat)
    requires
        p <= code.len(),
        code.len() <= usize::MAX,
        validation(code) is Ok,
        scan(code, p)->Ok_0.len() > 0,
    ensures
        scan(code, p)->Ok_0.last() < p,
        scan(code, (scan(code, p)->Ok_0.last() + 1) as nat) == scan(code, p),
    decreases p,
{
    lemma_scan_ok_everywhere(code, p);
    lemma_scan_holds_open_brackets(code, p);
    let st = scan(code, p)->Ok_0;
    assert(st.last() == st[st.len() - 1]);
    if p > 0 {
        let k = (p - 1) as nat;
        lemma_scan_ok_everywhere(code, k);
        let prev = scan(code, k)->Ok_0;
        if code[k as int] == '[' {
        } else if code[k as int] == ']' {
            assert(prev.len() >= 2);
            lemma_scan_after_innermost_open(code, k);
            let q1 = prev.last();
            lemma_scan_ok_everywhere(code, q1 as nat);
            lemma_scan_holds_open_brackets(code, k);
            assert(prev.last() == prev[prev.len() - 1]);
            assert(code[q1 as int] == '[');
            assert(scan(code, q1 as nat)->Ok_0 =~= prev.drop_last());
            lemma_scan_after_innermost_open(code, q1 as nat);
        } else {
            lemma_scan_after_innermost_open(code, k);
        }
    }
}

/// Skipping a loop: from inside it, the forward scan finds the `]` that
/// closes it, and the stack just past that `]` is the one before the loop.
proof fn lemma_skip_lands_after_loop(code: Seq<char>, p: nat, i: nat, extra: Seq<usize>)
    requires
        p < i <= code.len(),
        code.len() <= usize::MAX,
        validation(code) is Ok,
        scan(code, i) == Ok::<Seq<usize>, BfError>(
            scan(code, p)->Ok_0.push(p as usize) + extra,
        ),
    ensures
        matching_close(code, i, extra.len() + 1) matches Some(j) && j < code.len() && scan(
            code,
            j + 1,
        ) == scan(code, p),
    decreases code.len() - i,
{
    lemma_scan_ok_everywhere(code, p);
    let base = scan(code, p)->Ok_0.push(p as usize);
    if i == code.len() {
        assert((base + extra).len() > 0);
    } else if code[i as int] == '[' {
        assert((base + extra).push(i as usize) =~= base + extra.push(i as usize));
        lemma_skip_lands_after_loop(code, p, i + 1, extra.push(i as usize));
    } else if code[i as int] == ']' {
        if extra.len() == 0 {
            assert((base + extra).drop_last() =~= scan(code, p)->Ok_0);
        } else {
            assert((base + extra).drop_last() =~= base + extra.drop_last());
            lemma_skip_lands_after_loop(code, p, i + 1, extra.drop_last());
        }
    } else {
        lemma_skip_lands_after_loop(code, p, i + 1, extra);
    }
}

/// The loop stack of a run of a checked program is the scan's stack at the
/// code pointer.
pub open spec fn loops_follow_code(code: Seq<char>, s: State) -> bool {
    &&& s.pc <= code.len()
    &&& scan(code, s.pc) == Ok::<Seq<usize>, BfError>(s.loops)
}

/// One step of a checked program keeps the loop stack in line with the code
/// and fails, if at all, only for want of input.
proof fn lemma_step_keeps_loops(code: Seq<char>, s: State)
    requires
        code.len() <= usize::MAX,
        validation(code) is Ok,
        loops_follow_code(code, s),
        s.pc < code.len(),
    ensures
        match step(code, s) {
            Ok(n) => loops_follow_code(code, n),
            Err(e) => e == BfError::InsufficientInput,
        },
{
    let c = code[s.pc as int];
    let cell = s.tape[s.ptr as int];
    lemma_scan_ok_everywhere(code, s.pc + 1);
    if c == '[' {
        if cell == 0 {
            assert(scan(code, s.pc + 1) == Ok::<Seq<usize>, BfError>(
                s.loops.push(s.pc as usize) + Seq::<usize>::empty(),
            )) by {
                assert(s.loops.push(s.pc as usize) + Seq::<usize>::empty() =~= s.loops.push(
                    s.pc as usize,
                ));
            }
            lemma_skip_lands_after_loop(code, s.pc, s.pc + 1, Seq::empty());
        }
    } else if c == ']' {
        if cell != 0 {
            lemma_scan_after_innermost_open(code, s.pc);
        }
    }
}

/// From a state whose loop stack follows the code, a run of a checked
/// program never stops for a bracket.
proof fn lemma_run_without_bracket_errors(code: Seq<char>, s: State, steps: nat, clock_trip: Option<nat>)
    requires
        code.len() <= usize::MAX,
        validation(code) is Ok,
        loops_follow_code(code, s),
    ensures
        !(run(code, s, steps, clock_trip) matches Err((BfError::UnmatchedOpeningBracket { .. }, _))),
        !(run(code, s, steps, clock_trip) matches Err((BfError::UnmatchedClosingBracket { .. }, _))),
    decreases MAX_STEPS - steps,
{
    if s.pc < code.len() && clock_trip != Some(steps) && steps < MAX_STEPS {
        lemma_step_keeps_loops(code, s);
        if let Ok(n) = step(code, s) {
            lemma_run_without_bracket_errors(code, n, steps + 1, clock_trip);
        }
    }
}

/// A program that passes the bracket check never stops for an unmatched
/// bracket at run time: its bracket errors all come from the check.
pub proof fn lemma_checked_program_has_no_runtime_bracket_error(
    code: Seq<char>,
    inputs: Seq<u8>,
    clock_trip: Option<nat>,
)
    requires
        code.len() <= usize::MAX,
        validation(code) is Ok,
    ensures
        !(interpretation(code, inputs, clock_trip) matches Err(
            (BfError::UnmatchedOpeningBracket { .. }, _),
        )),
        !(interpretation(code, inputs, clock_trip) matches Err(
            (BfError::UnmatchedClosingBracket { .. }, _),
        )),
{
    assert(scan(code, 0) == Ok::<Seq<usize>, BfError>(Seq::empty()));
    lemma_run_without_bracket_errors(code, initial_state(inputs), 0, clock_trip);
}

} // verus!
