use vstd::prelude::*;

use crate::instruction::{Instruction, is_command, is_command_char};

verus! {

/// Why a program text could not be loaded.
#[derive(Clone, Copy, Debug, PartialEq, Eq, Structural)]
pub enum LoadError {
    /// A loop-close character with no open loop before it.
    UnmatchedClose,
}

/// The command characters of `s`, in order; comments dropped.
pub open spec fn commands(s: Seq<char>) -> Seq<char>
    decreases s.len(),
{
    if s.len() == 0 {
        Seq::empty()
    } else {
        let rest = commands(s.drop_last());
        if is_command(s.last()) {
            rest.push(s.last())
        } else {
            rest
        }
    }
}

/// Loop nesting depth after the first `n` characters of `cs`: opens minus closes.
pub open spec fn depth(cs: Seq<char>, n: int) -> int
    decreases n,
{
    if n <= 0 {
        0
    } else {
        depth(cs, n - 1) + if cs[n - 1] == '[' {
            1int
        } else if cs[n - 1] == ']' {
            -1int
        } else {
            0int
        }
    }
}

/// Some loop-close character in `cs` has no open loop to close.
pub open spec fn has_unmatched_close(cs: Seq<char>) -> bool {
    exists|n: int| 0 <= n <= cs.len() && #[trigger] depth(cs, n) < 0
}

/// Every loop-open character of `cs` is closed, and every close has an open.
pub open spec fn well_bracketed(cs: Seq<char>) -> bool {
    !has_unmatched_close(cs) && depth(cs, cs.len() as int) == 0
}

/// The loop-open character at `i` is closed by the loop-close character at `j`:
/// the depth returns to its level before `i` first right after `j`.
pub open spec fn closed_by(cs: Seq<char>, i: int, j: int) -> bool {
    &&& 0 <= i < j < cs.len()
    &&& cs[i] == '['
    &&& cs[j] == ']'
    &&& depth(cs, j + 1) == depth(cs, i)
    &&& forall|k: int| i < k <= j ==> #[trigger] depth(cs, k) > depth(cs, i)
}

/// The instruction of a command character other than a bracket.
pub open spec fn plain_instruction(c: char) -> Instruction {
    if c == '>' {
        Instruction::MoveRight
    } else if c == '<' {
        Instruction::MoveLeft
    } else if c == '+' {
        Instruction::Increment
    } else if c == '-' {
        Instruction::Decrement
    } else if c == '.' {
        Instruction::Output
    } else if c == ',' {
        Instruction::Input
    } else {
        Instruction::Halt
    }
}

/// `prog` is the resolved instruction for the command character at `k` of `cs`:
/// a loop start holds the index of its matching close (0 when there is none),
/// a loop end holds the index of its matching open.
pub open spec fn resolved_at(cs: Seq<char>, prog: Seq<Instruction>, k: int) -> bool {
    if cs[k] == '[' {
        &&& prog[k] is LoopStart
        &&& (forall|j: int| closed_by(cs, k, j) ==> prog[k]->LoopStart_0 == j)
        &&& ((forall|j: int| !closed_by(cs, k, j)) ==> prog[k]->LoopStart_0 == 0)
    } else if cs[k] == ']' {
        &&& prog[k] is LoopEnd
        &&& closed_by(cs, prog[k]->LoopEnd_0 as int, k)
    } else {
        prog[k] == plain_instruction(cs[k])
    }
}

/// `prog` is the resolved program of the command characters `cs`.
pub open spec fn resolved(cs: Seq<char>, prog: Seq<Instruction>) -> bool {
    &&& prog.len() == cs.len()
    &&& forall|k: int| 0 <= k < cs.len() ==> #[trigger] resolved_at(cs, prog, k)
}

/// Keeps the command characters of `code`, in order.
pub fn command_chars(code: &str) -> (r: Vec<char>)
    ensures
        r@ == commands(code@),
{
    let mut r: Vec<char> = Vec::new();
    for c in it: code.chars()
        invariant
            it.seq() == code@,
            r@ == commands(code@.take(it.index() as int)),
    {
        proof {
            let n = it.index() as int;
            assert(code@.take(n + 1).drop_last() =~= code@.take(n));
        }
        if is_command_char(c) {
            r.push(c);
        }
    }
    assert(code@.take(code@.len() as int) =~= code@);
    r
}

/// The loop-open character at `k` is still open on the stack `stack`.
pub open spec fn on_stack(stack: Seq<usize>, k: int) -> bool {
    exists|m: int| 0 <= m < stack.len() && stack[m] == k
}

/// What holds of the first `i` resolved instructions while the scan is at `i`,
/// with `stack` the loop-open characters not yet closed.
pub open spec fn scan_state(cs: Seq<char>, prog: Seq<Instruction>, stack: Seq<usize>, i: int) -> bool {
    &&& 0 <= i <= cs.len()
    &&& prog.len() == i
    &&& forall|k: int| 0 <= k <= i ==> #[trigger] depth(cs, k) >= 0
    &&& stack.len() == depth(cs, i)
    &&& forall|m1: int, m2: int| 0 <= m1 < m2 < stack.len() ==> stack[m1] < stack[m2]
    &&& forall|m: int|
        #![trigger stack[m]]
        0 <= m < stack.len() ==> {
            &&& stack[m] < i
            &&& cs[stack[m] as int] == '['
            &&& depth(cs, stack[m] as int) == m
            &&& prog[stack[m] as int] == Instruction::LoopStart(0)
            &&& forall|k: int| stack[m] < k <= i ==> #[trigger] depth(cs, k) > m
        }
    &&& forall|k: int|
        #![trigger prog[k]]
        0 <= k < i ==> if cs[k] == '[' {
            &&& prog[k] is LoopStart
            &&& (on_stack(stack, k) || (prog[k]->LoopStart_0 < i && closed_by(
                cs,
                k,
                prog[k]->LoopStart_0 as int,
            )))
        } else if cs[k] == ']' {
            &&& prog[k] is LoopEnd
            &&& closed_by(cs, prog[k]->LoopEnd_0 as int, k)
        } else {
            prog[k] == plain_instruction(cs[k])
        }
}

/// A loop-open character has at most one matching close.
pub proof fn lemma_match_unique(cs: Seq<char>, i: int, j1: int, j2: int)
    requires
        closed_by(cs, i, j1),
        closed_by(cs, i, j2),
    ensures
        j1 == j2,
{
    if j1 < j2 {
        assert(depth(cs, j1 + 1) > depth(cs, i));
    } else if j2 < j1 {
        assert(depth(cs, j2 + 1) > depth(cs, i));
    }
}

/// A loop-close character has at most one matching open.
pub proof fn lemma_match_unique_open(cs: Seq<char>, i1: int, i2: int, j: int)
    requires
        closed_by(cs, i1, j),
        closed_by(cs, i2, j),
    ensures
        i1 == i2,
{
    if i1 < i2 {
        assert(depth(cs, i2) > depth(cs, i1));
    } else if i2 < i1 {
        assert(depth(cs, i1) > depth(cs, i2));
    }
}

/// The resolved program of a sequence of command characters is unique.
pub proof fn lemma_resolution_unique(cs: Seq<char>, p1: Seq<Instruction>, p2: Seq<Instruction>)
    requires
        resolved(cs, p1),
        resolved(cs, p2),
    ensures
        p1 == p2,
{
    assert forall|k: int| 0 <= k < p1.len() implies p1[k] == p2[k] by {
        assert(resolved_at(cs, p1, k));
        assert(resolved_at(cs, p2, k));
        if cs[k] == '[' {
            if exists|j: int| closed_by(cs, k, j) {
                let j = choose|j: int| closed_by(cs, k, j);
                assert(p1[k]->LoopStart_0 == p2[k]->LoopStart_0);
            }
        } else if cs[k] == ']' {
            lemma_match_unique_open(cs, p1[k]->LoopEnd_0 as int, p2[k]->LoopEnd_0 as int, k);
        }
    }
    assert(p1 =~= p2);
}

/// Resolves the command characters `cs` into instructions, pairing each loop
/// close with the nearest open loop before it.
pub fn resolve(cs: &Vec<char>) -> (r: Result<Vec<Instruction>, LoadError>)
    ensures
        r is Err <==> has_unmatched_close(cs@),
        r is Err ==> r == Err::<Vec<Instruction>, LoadError>(LoadError::UnmatchedClose),
        r matches Ok(prog) ==> resolved(cs@, prog@),
{
    let n = cs.len();
    let mut prog: Vec<Instruction> = Vec::new();
    let mut stack: Vec<usize> = Vec::new();
    let mut i: usize = 0;
    while i < n
        invariant
            n == cs.len(),
            scan_state(cs@, prog@, stack@, i as int),
        decreases n - i,
    {
        let c = cs[i];
        let ghost old_prog = prog@;
        let ghost old_stack = stack@;
        assert(depth(cs@, i + 1) == depth(cs@, i as int) + if c == '[' {
            1int
        } else if c == ']' {
            -1int
        } else {
            0int
        });
        if c == '[' {
            stack.push(i);
            prog.push(Instruction::LoopStart(0));
            assert forall|k: int| 0 <= k < i + 1 && cs@[k] == '[' && on_stack(old_stack, k) implies on_stack(stack@, k) by {
                let m = choose|m: int| 0 <= m < old_stack.len() && old_stack[m] == k;
                assert(stack@[m] == k);
            }
            assert(stack@[old_stack.len() as int] == i);
            assert(on_stack(stack@, i as int));
        } else if c == ']' {
            if stack.len() == 0 {
                assert(depth(cs@, i + 1) < 0);
                return Err(LoadError::UnmatchedClose);
            }
            let b = stack.pop().unwrap();
            let ghost m = stack.len() as int;
            assert(old_stack[m] == b);
            assert(closed_by(cs@, b as int, i as int));
            prog.set(b, Instruction::LoopStart(i));
            prog.push(Instruction::LoopEnd(b));
            assert forall|k: int| 0 <= k < i && cs@[k] == '[' && on_stack(old_stack, k) && k != b implies on_stack(stack@, k) by {
                let m2 = choose|m2: int| 0 <= m2 < old_stack.len() && old_stack[m2] == k;
                assert(m2 < m);
                assert(stack@[m2] == k);
            }
            assert forall|m2: int| 0 <= m2 < stack@.len() implies stack@[m2] != b by {
                assert(old_stack[m2] < old_stack[m]);
            }
        } else {
            let ins = if c == '>' {
                Instruction::MoveRight
            } else if c == '<' {
                Instruction::MoveLeft
            } else if c == '+' {
                Instruction::Increment
            } else if c == '-' {
                Instruction::Decrement
            } else if c == '.' {
                Instruction::Output
            } else if c == ',' {
                Instruction::Input
            } else {
                Instruction::Halt
            };
            prog.push(ins);
            assert forall|k: int| 0 <= k < i && cs@[k] == '[' && on_stack(old_stack, k) implies on_stack(stack@, k) by {
                let m = choose|m: int| 0 <= m < old_stack.len() && old_stack[m] == k;
                assert(stack@[m] == k);
            }
        }
        i = i + 1;
    }
    proof {
        assert forall|k: int| 0 <= k < cs@.len() implies #[trigger] resolved_at(cs@, prog@, k) by {
            if cs@[k] == '[' {
                if on_stack(stack@, k) {
                    let m = choose|m: int| 0 <= m < stack@.len() && stack@[m] == k;
                    assert forall|j: int| !closed_by(cs@, k, j) by {
                        if closed_by(cs@, k, j) {
                            assert(depth(cs@, j + 1) > m);
                        }
                    }
                } else {
                    let t = prog@[k]->LoopStart_0 as int;
                    assert forall|j: int| closed_by(cs@, k, j) implies prog@[k]->LoopStart_0 == j by {
                        lemma_match_unique(cs@, k, j, t);
                    }
                }
            }
        }
        assert forall|n2: int| 0 <= n2 <= cs@.len() implies !(#[trigger] depth(cs@, n2) < 0) by {}
    }
    Ok(prog)
}

} // verus!
