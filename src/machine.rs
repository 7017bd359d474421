use vstd::prelude::*;

use crate::instruction::Instruction;
use crate::loader::{LoadError, command_chars, commands, has_unmatched_close, resolve, resolved};

verus! {

/// Number of cells on the tape.
pub const TAPE_SIZE: usize = 30000;

/// A fatal condition met while running a program.
#[derive(Clone, Copy, Debug, PartialEq, Eq, Structural)]
pub enum RuntimeError {
    /// An input instruction ran with no byte left to read.
    InputExhausted,
    /// The data pointer moved below the first cell or past the last one.
    PointerOutOfBounds,
}

/// The machine as a mathematical value.
pub struct MachineView {
    /// The resolved program; it never changes while running.
    pub program: Seq<Instruction>,
    /// The cells.
    pub tape: Seq<u8>,
    /// The data pointer.
    pub d: int,
    /// The program counter: the index of the next instruction.
    pub p: int,
    /// Set for good once the machine stops.
    pub halt: bool,
    /// Debug mode; it changes how a caller presents the run, not the run itself.
    pub debug: bool,
}

/// What one step does: the next machine, the byte it emits, the error it stops on.
pub struct Transition {
    pub next: MachineView,
    pub output: Option<u8>,
    pub error: Option<RuntimeError>,
}

/// Every jump target of `prog` is an index of `prog`.
pub open spec fn targets_in_range(prog: Seq<Instruction>) -> bool {
    forall|k: int|
        0 <= k < prog.len() ==> match #[trigger] prog[k] {
            Instruction::LoopStart(t) => t < prog.len(),
            Instruction::LoopEnd(t) => t < prog.len(),
            _ => true,
        }
}

/// The cell value after an increment: 255 wraps to 0.
pub open spec fn inc_cell(v: u8) -> u8 {
    ((v + 1) % 256) as u8
}

/// The cell value after a decrement: 0 wraps to 255.
pub open spec fn dec_cell(v: u8) -> u8 {
    ((v + 255) % 256) as u8
}

/// A tape of zeroed cells.
pub open spec fn zero_tape() -> Seq<u8> {
    Seq::new(TAPE_SIZE as nat, |i: int| 0u8)
}

impl MachineView {
    /// The tape has its fixed size, the pointer is on it, the counter is at
    /// most one past the end and every jump stays inside the program.
    pub open spec fn wf(self) -> bool {
        &&& self.tape.len() == TAPE_SIZE
        &&& 0 <= self.d < TAPE_SIZE
        &&& 0 <= self.p <= self.program.len()
        &&& targets_in_range(self.program)
    }

    /// The machine is about to run an input instruction.
    pub open spec fn reads_input(self) -> bool {
        &&& !self.halt
        &&& 0 <= self.p < self.program.len()
        &&& self.program[self.p] is Input
    }

    /// A freshly loaded machine for the command characters `cs`: the resolved
    /// program, a zeroed tape, both counters at 0, running, not in debug mode.
    pub open spec fn is_initial(self, cs: Seq<char>) -> bool {
        &&& resolved(cs, self.program)
        &&& self.tape == zero_tape()
        &&& self.d == 0
        &&& self.p == 0
        &&& !self.halt
        &&& !self.debug
    }

    /// The current cell.
    pub open spec fn cell(self) -> u8 {
        self.tape[self.d]
    }
}

/// A step that succeeds with `next` and emits nothing.
pub open spec fn moved(next: MachineView) -> Transition {
    Transition { next, output: None, error: None }
}

/// A step that fails with `e` once the counter has moved to `p`: the machine halts.
pub open spec fn failed(m: MachineView, p: int, e: RuntimeError) -> Transition {
    Transition { next: MachineView { p, halt: true, ..m }, output: None, error: Some(e) }
}

/// The step before the end-of-program check: the fetched instruction's effect,
/// with the counter already past it.
pub open spec fn apply(m: MachineView, input: Option<u8>) -> Transition {
    let p1 = m.p + 1;
    match m.program[m.p] {
        Instruction::MoveRight => if m.d + 1 < TAPE_SIZE {
            moved(MachineView { d: m.d + 1, p: p1, ..m })
        } else {
            failed(m, p1, RuntimeError::PointerOutOfBounds)
        },
        Instruction::MoveLeft => if m.d > 0 {
            moved(MachineView { d: m.d - 1, p: p1, ..m })
        } else {
            failed(m, p1, RuntimeError::PointerOutOfBounds)
        },
        Instruction::Increment => moved(
            MachineView { tape: m.tape.update(m.d, inc_cell(m.cell())), p: p1, ..m },
        ),
        Instruction::Decrement => moved(
            MachineView { tape: m.tape.update(m.d, dec_cell(m.cell())), p: p1, ..m },
        ),
        Instruction::Output => Transition {
            next: MachineView { p: p1, ..m },
            output: Some(m.cell()),
            error: None,
        },
        Instruction::Input => match input {
            Some(b) => moved(MachineView { tape: m.tape.update(m.d, b), p: p1, ..m }),
            None => failed(m, p1, RuntimeError::InputExhausted),
        },
        Instruction::LoopStart(t) => moved(
            MachineView {
                p: if m.cell() == 0 {
                    t + 1
                } else {
                    p1
                },
                ..m
            },
        ),
        Instruction::LoopEnd(t) => moved(MachineView { p: t as int, ..m }),
        Instruction::Halt => moved(MachineView { p: p1, halt: true, ..m }),
    }
}

/// One step of the machine from `m`, with `input` the next byte available to read.
/// A halted machine stays as it is; a machine whose counter ran past the end halts.
pub open spec fn step(m: MachineView, input: Option<u8>) -> Transition {
    if m.halt {
        moved(m)
    } else if m.p >= m.program.len() {
        moved(MachineView { halt: true, ..m })
    } else {
        let t = apply(m, input);
        if t.next.p >= m.program.len() {
            Transition { next: MachineView { halt: true, ..t.next }, ..t }
        } else {
            t
        }
    }
}

impl Transition {
    /// What `tick` returns for this step.
    pub open spec fn result(self) -> Result<Option<u8>, RuntimeError> {
        match self.error {
            Some(e) => Err(e),
            None => Ok(self.output),
        }
    }
}

/// The next byte of `input`, if any.
pub open spec fn first(input: Seq<u8>) -> Option<u8> {
    if input.len() > 0 {
        Some(input[0])
    } else {
        None
    }
}

/// The bytes an optional output stands for.
pub open spec fn out_seq(o: Option<u8>) -> Seq<u8> {
    match o {
        Some(b) => seq![b],
        None => Seq::empty(),
    }
}

/// What a run of several steps does: the machine it ends in, the bytes it
/// emits, how many input bytes it reads and the error it stops on.
pub struct RunView {
    pub machine: MachineView,
    pub output: Seq<u8>,
    pub consumed: nat,
    pub error: Option<RuntimeError>,
}

/// `rest`, preceded by steps that emitted `output`, read `consumed` bytes and
/// stopped on `error`, if any.
pub open spec fn after(
    output: Seq<u8>,
    consumed: nat,
    error: Option<RuntimeError>,
    rest: RunView,
) -> RunView {
    RunView {
        machine: rest.machine,
        output: output + rest.output,
        consumed: consumed + rest.consumed,
        error: if error is Some {
            error
        } else {
            rest.error
        },
    }
}

/// Runs `m` for at most `steps` steps, reading from `input`; stops early when
/// the machine halts (which it does on an error too).
pub open spec fn run(m: MachineView, input: Seq<u8>, steps: nat) -> RunView
    decreases steps,
{
    if steps == 0 || m.halt {
        RunView { machine: m, output: Seq::empty(), consumed: 0, error: None }
    } else {
        let t = step(m, first(input));
        let used: nat = if t.error is None && m.reads_input() {
            1
        } else {
            0
        };
        after(out_seq(t.output), used, t.error, run(t.next, input.skip(used as int), (steps - 1) as nat))
    }
}

/// The result of a bounded run.
pub struct Run {
    /// The bytes emitted, in order.
    pub output: Vec<u8>,
    /// How many bytes of the input were read.
    pub consumed: usize,
    /// The error that stopped the machine, if one did.
    pub error: Option<RuntimeError>,
}

/// The tape-based machine: a loaded program, its tape and its counters.
pub struct Boof {
    program: Vec<Instruction>,
    debug: bool,
    halt: bool,
    tape: Vec<u8>,
    d: usize,
    p: usize,
}

impl View for Boof {
    type V = MachineView;

    closed spec fn view(&self) -> MachineView {
        MachineView {
            program: self.program@,
            tape: self.tape@,
            d: self.d as int,
            p: self.p as int,
            halt: self.halt,
            debug: self.debug,
        }
    }
}

/// The loader's result keeps every jump target inside the program.
proof fn lemma_resolved_targets(cs: Seq<char>, prog: Seq<Instruction>)
    requires
        resolved(cs, prog),
    ensures
        targets_in_range(prog),
{
    assert forall|k: int| 0 <= k < prog.len() implies match #[trigger] prog[k] {
        Instruction::LoopStart(t) => t < prog.len(),
        Instruction::LoopEnd(t) => t < prog.len(),
        _ => true,
    } by {
        assert(crate::loader::resolved_at(cs, prog, k));
    }
}

impl Default for Boof {
    /// A machine with no program: a zeroed tape, both counters at 0, running,
    /// not in debug mode. Its first step halts it.
    fn default() -> (r: Boof)
        ensures
            r.wf(),
            r@.program.len() == 0,
            r@.tape == zero_tape(),
            r@.d == 0,
            r@.p == 0,
            !r@.halt,
            !r@.debug,
    {
        let tape: Vec<u8> = vec![0u8; TAPE_SIZE];
        let b = Boof { program: Vec::new(), debug: false, halt: false, tape, d: 0, p: 0 };
        assert(b@.tape =~= zero_tape());
        b
    }
}

impl Boof {
    /// The machine is well formed; every machine this library builds is.
    pub open spec fn wf(&self) -> bool {
        self@.wf()
    }

    /// Loads `code`: drops every character outside the command alphabet and
    /// resolves each loop to its jump targets. The machine starts on a zeroed
    /// tape with both counters at 0.
    pub fn program(code: String) -> (r: Result<Boof, LoadError>)
        ensures
            r is Err <==> has_unmatched_close(commands(code@)),
            r is Err ==> r == Err::<Boof, LoadError>(LoadError::UnmatchedClose),
            r matches Ok(b) ==> b.wf() && b@.is_initial(commands(code@)),
    {
        let cs = command_chars(code.as_str());
        match resolve(&cs) {
            Err(e) => Err(e),
            Ok(program) => {
                proof {
                    lemma_resolved_targets(cs@, program@);
                }
                Ok(Boof { program, ..Boof::default() })
            },
        }
    }

    /// Switches the debug mode on or off; nothing else changes.
    pub fn debug(&mut self, value: bool) -> (r: &mut Self)
        ensures
            r@ == (MachineView { debug: value, ..old(self)@ }),
            final(self)@ == final(r)@,
    {
        self.debug = value;
        self
    }

    /// Runs one step: fetches the instruction at the counter, moves the counter
    /// past it and applies it. `input` is the byte an input instruction reads;
    /// other instructions ignore it. Returns the byte an output instruction emits.
    pub fn tick(&mut self, input: Option<u8>) -> (r: Result<Option<u8>, RuntimeError>)
        requires
            old(self).wf(),
        ensures
            final(self).wf(),
            final(self)@ == step(old(self)@, input).next,
            r == step(old(self)@, input).result(),
    {
        if self.halt {
            return Ok(None);
        }
        if self.p >= self.program.len() {
            self.halt = true;
            return Ok(None);
        }
        let instr = self.program[self.p];
        self.p = self.p + 1;
        let mut out: Option<u8> = None;
        match instr {
            Instruction::MoveRight => {
                if self.d + 1 < TAPE_SIZE {
                    self.d = self.d + 1;
                } else {
                    self.halt = true;
                    return Err(RuntimeError::PointerOutOfBounds);
                }
            },
            Instruction::MoveLeft => {
                if self.d > 0 {
                    self.d = self.d - 1;
                } else {
                    self.halt = true;
                    return Err(RuntimeError::PointerOutOfBounds);
                }
            },
            Instruction::Increment => {
                let v = self.tape[self.d].wrapping_add(1);
                self.tape.set(self.d, v);
            },
            Instruction::Decrement => {
                let v = self.tape[self.d].wrapping_sub(1);
                self.tape.set(self.d, v);
            },
            Instruction::Output => {
                out = Some(self.tape[self.d]);
            },
            Instruction::Input => {
                match input {
                    Some(b) => {
                        self.tape.set(self.d, b);
                    },
                    None => {
                        self.halt = true;
                        return Err(RuntimeError::InputExhausted);
                    },
                }
            },
            Instruction::LoopStart(t) => {
                if self.tape[self.d] == 0 {
                    self.p = t + 1;
                }
            },
            Instruction::LoopEnd(t) => {
                self.p = t;
            },
            Instruction::Halt => {
                self.halt = true;
            },
        }
        if self.p >= self.program.len() {
            self.halt = true;
        }
        Ok(out)
    }

    /// Runs the machine until it halts or `steps` steps have been taken,
    /// reading input bytes from `input` in order and collecting what it emits.
    pub fn start(&mut self, input: &Vec<u8>, steps: usize) -> (r: Run)
        requires
            old(self).wf(),
        ensures
            final(self).wf(),
            final(self)@ == run(old(self)@, input@, steps as nat).machine,
            r.output@ == run(old(self)@, input@, steps as nat).output,
            r.consumed == run(old(self)@, input@, steps as nat).consumed,
            r.error == run(old(self)@, input@, steps as nat).error,
    {
        let ghost total = run(self@, input@, steps as nat);
        let mut output: Vec<u8> = Vec::new();
        let mut consumed: usize = 0;
        let mut error: Option<RuntimeError> = None;
        let mut k: usize = 0;
        assert(input@.skip(0) =~= input@);
        assert(output@ + total.output =~= total.output);
        while k < steps && !self.halt
            invariant
                self.wf(),
                k <= steps,
                consumed <= input.len(),
                error is Some ==> self@.halt,
                total == after(
                    output@,
                    consumed as nat,
                    error,
                    run(self@, input@.skip(consumed as int), (steps - k) as nat),
                ),
            decreases steps - k,
        {
            let ghost m = self@;
            let ghost rest = input@.skip(consumed as int);
            let reads = self.wants_input();
            let byte = if consumed < input.len() {
                Some(input[consumed])
            } else {
                None
            };
            assert(byte == first(rest));
            let ghost t = step(m, first(rest));
            let ghost used: nat = if t.error is None && m.reads_input() {
                1
            } else {
                0
            };
            let ghost out0 = output@;
            let ghost c0 = consumed as nat;
            match self.tick(byte) {
                Ok(o) => {
                    if reads {
                        consumed = consumed + 1;
                    }
                    match o {
                        Some(b) => output.push(b),
                        None => {},
                    }
                    assert(output@ =~= out0 + out_seq(t.output));
                },
                Err(e) => {
                    error = Some(e);
                },
            }
            k = k + 1;
            proof {
                assert(rest.skip(used as int) =~= input@.skip(consumed as int));
                let tail = run(t.next, rest.skip(used as int), (steps - k) as nat);
                assert(out0 + (out_seq(t.output) + tail.output) =~= (out0 + out_seq(t.output))
                    + tail.output);
            }
        }
        Run { output, consumed, error }
    }

    /// Whether the next step runs an input instruction, and so reads a byte.
    pub fn wants_input(&self) -> (r: bool)
        ensures
            r == self@.reads_input(),
    {
        !self.halt && self.p < self.program.len() && matches!(self.program[self.p], Instruction::Input)
    }

    /// The loaded program.
    pub fn instructions(&self) -> (r: &Vec<Instruction>)
        ensures
            r@ == self@.program,
    {
        &self.program
    }

    /// Whether the machine has stopped for good.
    pub fn is_halted(&self) -> (r: bool)
        ensures
            r == self@.halt,
    {
        self.halt
    }

    /// Whether debug mode is on.
    pub fn is_debug(&self) -> (r: bool)
        ensures
            r == self@.debug,
    {
        self.debug
    }

    /// The data pointer.
    pub fn data_pointer(&self) -> (r: usize)
        ensures
            r == self@.d,
    {
        self.d
    }

    /// The program counter.
    pub fn counter(&self) -> (r: usize)
        ensures
            r == self@.p,
    {
        self.p
    }

    /// The cell at index `i` of the tape.
    pub fn cell(&self, i: usize) -> (r: u8)
        requires
            self.wf(),
            i < TAPE_SIZE,
        ensures
            r == self@.tape[i as int],
    {
        self.tape[i]
    }

    /// The instruction at the counter, if the counter is inside the program.
    pub fn current(&self) -> (r: Option<Instruction>)
        ensures
            r == (if 0 <= self@.p < self@.program.len() {
                Some(self@.program[self@.p])
            } else {
                None::<Instruction>
            }),
    {
        if self.p < self.program.len() {
            Some(self.program[self.p])
        } else {
            None
        }
    }
}

} // verus!
