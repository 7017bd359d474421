use vstd::prelude::*;

use crate::instruction::{Instruction, is_command};
use crate::loader::{
    closed_by,
    commands,
    depth,
    has_unmatched_close,
    lemma_match_unique_open,
    resolved,
    resolved_at,
    well_bracketed,
};
use crate::machine::{MachineView, RuntimeError, first, out_seq, run, step};

verus! {

/// Inserting a character outside the command alphabet anywhere in a program
/// text leaves its command characters, and so its loading, unchanged.
pub proof fn lemma_comments_ignored(t: Seq<char>, k: int, c: char)
    requires
        !is_command(c),
        0 <= k <= t.len(),
    ensures
        commands(t.insert(k, c)) == commands(t),
        has_unmatched_close(commands(t.insert(k, c))) == has_unmatched_close(commands(t)),
        forall|prog: Seq<Instruction>|
            resolved(commands(t.insert(k, c)), prog) == resolved(commands(t), prog),
    decreases t.len(),
{
    let u = t.insert(k, c);
    if k == t.len() {
        assert(u.drop_last() =~= t);
    } else {
        assert(u.drop_last() =~= t.drop_last().insert(k, c));
        assert(u.last() == t.last());
        lemma_comments_ignored(t.drop_last(), k, c);
    }
}

/// Past a loop-open character at `i`, the depth cannot come back to its level
/// before `i` without a matching close in between.
proof fn lemma_close_exists(cs: Seq<char>, i: int, n: int)
    requires
        0 <= i < n <= cs.len(),
        cs[i] == '[',
        depth(cs, n) <= depth(cs, i),
    ensures
        exists|j: int| closed_by(cs, i, j),
    decreases n,
{
    assert(depth(cs, i + 1) == depth(cs, i) + 1);
    if forall|k: int| i < k <= n - 1 ==> #[trigger] depth(cs, k) > depth(cs, i) {
        assert(n - 1 > i);
        assert(depth(cs, n) == depth(cs, n - 1) + if cs[n - 1] == '[' {
            1int
        } else if cs[n - 1] == ']' {
            -1int
        } else {
            0int
        });
        assert(closed_by(cs, i, n - 1));
    } else {
        let k = choose|k: int| i < k <= n - 1 && !(#[trigger] depth(cs, k) > depth(cs, i));
        lemma_close_exists(cs, i, k);
    }
}

/// In a well-bracketed program every loop start and loop end are paired with
/// each other: a loop start at `i` holding `t` has at `t` a loop end holding
/// `i`, and the other way round.
pub proof fn lemma_loops_paired(cs: Seq<char>, prog: Seq<Instruction>)
    requires
        well_bracketed(cs),
        resolved(cs, prog),
    ensures
        forall|i: int|
            0 <= i < prog.len() && #[trigger] prog[i] is LoopStart ==> {
                let t = prog[i]->LoopStart_0 as int;
                &&& i < t < prog.len()
                &&& prog[t] is LoopEnd
                &&& prog[t]->LoopEnd_0 == i
            },
        forall|j: int|
            0 <= j < prog.len() && #[trigger] prog[j] is LoopEnd ==> {
                let b = prog[j]->LoopEnd_0 as int;
                &&& 0 <= b < j
                &&& prog[b] is LoopStart
                &&& prog[b]->LoopStart_0 == j
            },
{
    assert forall|i: int| 0 <= i < prog.len() && #[trigger] prog[i] is LoopStart implies {
        let t = prog[i]->LoopStart_0 as int;
        &&& i < t < prog.len()
        &&& prog[t] is LoopEnd
        &&& prog[t]->LoopEnd_0 == i
    } by {
        assert(resolved_at(cs, prog, i));
        assert(depth(cs, i) >= 0);
        lemma_close_exists(cs, i, cs.len() as int);
        let j = choose|j: int| closed_by(cs, i, j);
        assert(prog[i]->LoopStart_0 == j);
        assert(resolved_at(cs, prog, j));
        lemma_match_unique_open(cs, i, prog[j]->LoopEnd_0 as int, j);
    }
    assert forall|j: int| 0 <= j < prog.len() && #[trigger] prog[j] is LoopEnd implies {
        let b = prog[j]->LoopEnd_0 as int;
        &&& 0 <= b < j
        &&& prog[b] is LoopStart
        &&& prog[b]->LoopStart_0 == j
    } by {
        assert(resolved_at(cs, prog, j));
        let b = prog[j]->LoopEnd_0 as int;
        assert(resolved_at(cs, prog, b));
    }
}

/// A running machine about to execute the instruction `ins`.
pub open spec fn about_to_run(m: MachineView, ins: Instruction) -> bool {
    &&& m.wf()
    &&& !m.halt
    &&& m.p < m.program.len()
    &&& m.program[m.p] == ins
}

/// Cell arithmetic wraps: incrementing 255 gives 0 and decrementing 0 gives 255.
pub proof fn lemma_cells_wrap(m: MachineView, input: Option<u8>)
    ensures
        about_to_run(m, Instruction::Increment) && m.cell() == 255 ==> step(m, input).next.tape[m.d]
            == 0,
        about_to_run(m, Instruction::Decrement) && m.cell() == 0 ==> step(m, input).next.tape[m.d]
            == 255,
{
}

/// A loop whose condition cell is zero on entry runs no iteration: the step
/// at its start moves the counter just past its end and changes nothing else.
pub proof fn lemma_loop_skipped(m: MachineView, t: usize, input: Option<u8>)
    requires
        about_to_run(m, Instruction::LoopStart(t)),
        m.cell() == 0,
    ensures
        step(m, input).next.p == t + 1,
        step(m, input).next.tape == m.tape,
        step(m, input).next.d == m.d,
        step(m, input).output is None,
        step(m, input).error is None,
{
}

/// At the end of a loop whose start at `b` is paired with it, two steps jump
/// back and test the condition cell: when it is zero the loop is left (the
/// counter lands just past the end), otherwise the body runs again (the
/// counter lands just past the start). The tape is not touched.
pub proof fn lemma_loop_iterates(m: MachineView, b: usize, i1: Option<u8>, i2: Option<u8>)
    requires
        about_to_run(m, Instruction::LoopEnd(b)),
        m.program[b as int] is LoopStart,
        m.program[b as int]->LoopStart_0 == m.p,
    ensures
        ({
            let m2 = step(step(m, i1).next, i2).next;
            &&& m2.tape == m.tape
            &&& m2.d == m.d
            &&& m2.p == if m.cell() == 0 {
                m.p + 1
            } else {
                b + 1
            }
        }),
{
    assert(m.program[m.p] == Instruction::LoopEnd(b));
    assert(b < m.program.len());
}

/// One silent step that reads nothing: the run from `m` is the run from the
/// machine that step leads to, one step shorter.
proof fn lemma_run_silent_step(m: MachineView, input: Seq<u8>, n: nat)
    requires
        n > 0,
        !m.halt,
        !m.reads_input(),
        step(m, first(input)).error is None,
        step(m, first(input)).output is None,
    ensures
        run(m, input, n) == run(step(m, first(input)).next, input, (n - 1) as nat),
{
    assert(input.skip(0) =~= input);
    let r = run(step(m, first(input)).next, input, (n - 1) as nat);
    assert(out_seq(None) + r.output =~= r.output);
}

/// A loop whose body only decrements its condition cell, entered with the
/// cell at `v`, runs exactly `v` iterations of three steps each: after
/// `3 * v` steps it is back at its start, and one more step leaves it with
/// the cell at zero, nothing emitted and nothing read.
pub proof fn lemma_clearing_loop_iterations(m: MachineView, input: Seq<u8>, v: nat)
    requires
        m.wf(),
        !m.halt,
        m.p + 2 < m.program.len(),
        m.program[m.p] is LoopStart,
        m.program[m.p]->LoopStart_0 == m.p + 2,
        m.program[m.p + 1] == Instruction::Decrement,
        m.program[m.p + 2] is LoopEnd,
        m.program[m.p + 2]->LoopEnd_0 == m.p,
        m.cell() == v,
    ensures
        run(m, input, 3 * v).machine.p == m.p,
        run(m, input, 3 * v + 1).machine.p == m.p + 3,
        run(m, input, 3 * v + 1).machine.tape == m.tape.update(m.d, 0),
        run(m, input, 3 * v + 1).output == Seq::<u8>::empty(),
        run(m, input, 3 * v + 1).consumed == 0,
        run(m, input, 3 * v + 1).error is None,
    decreases v,
{
    let i = first(input);
    if v == 0 {
        lemma_run_silent_step(m, input, 1);
        assert(m.tape.update(m.d, 0) =~= m.tape);
    } else {
        let m1 = step(m, i).next;
        let m2 = step(m1, i).next;
        let m3 = step(m2, i).next;
        assert(m3.tape == m.tape.update(m.d, (v - 1) as u8));
        assert(m3.p == m.p);
        lemma_run_silent_step(m, input, 3 * v);
        lemma_run_silent_step(m1, input, (3 * v - 1) as nat);
        lemma_run_silent_step(m2, input, (3 * v - 2) as nat);
        lemma_run_silent_step(m, input, 3 * v + 1);
        lemma_run_silent_step(m1, input, 3 * v);
        lemma_run_silent_step(m2, input, (3 * v - 1) as nat);
        lemma_clearing_loop_iterations(m3, input, (v - 1) as nat);
        assert(3 * v - 3 == 3 * (v - 1));
        assert(m3.tape.update(m.d, 0) =~= m.tape.update(m.d, 0));
    }
}

/// An input instruction with no byte left to read fails with
/// `InputExhausted` and emits nothing; it never reads a zero instead. A run
/// that reaches it with the input used up stops there with that error.
pub proof fn lemma_input_exhausted(m: MachineView, steps: nat)
    requires
        about_to_run(m, Instruction::Input),
    ensures
        step(m, None).error == Some(RuntimeError::InputExhausted),
        step(m, None).output is None,
        step(m, None).next.tape == m.tape,
        step(m, None).next.halt,
        steps > 0 ==> run(m, Seq::empty(), steps).error == Some(RuntimeError::InputExhausted),
        steps > 0 ==> run(m, Seq::empty(), steps).output == Seq::<u8>::empty(),
        steps > 0 ==> run(m, Seq::empty(), steps).consumed == 0,
{
    if steps > 0 {
        let none = Seq::<u8>::empty();
        assert(first(none) is None);
        let tail = run(step(m, None).next, none.skip(0), (steps - 1) as nat);
        assert(tail.output == none && tail.consumed == 0);
        assert(out_seq(None) + tail.output =~= none);
    }
}

} // verus!
