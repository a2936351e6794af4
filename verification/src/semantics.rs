//! Mathematical model of the bytecode virtual machine: a deterministic
//! small-step transition over a machine state, and the well-formedness
//! condition on instruction sequences that keeps the program counter in
//! bounds.

use vstd::prelude::*;

use crate::common::Instruction;

verus! {

/// The state of one run: program counter, pointer, circular tape, the input
/// bytes not yet consumed, and the output bytes produced so far.
#[verifier::ext_equal]
pub struct MState {
    pub pc: nat,
    pub ptr: nat,
    pub tape: Seq<u8>,
    pub input: Seq<u8>,
    pub output: Seq<u8>,
}

/// 8-bit wrapping addition: cell arithmetic is modulo 256.
pub open spec fn add8(a: u8, b: u8) -> u8 {
    ((a + b) % 256) as u8
}

/// The index reached from `i` on a tape of `size` cells, wrapping in both
/// directions (Euclidean remainder, so negative `i` wraps to the high end).
pub open spec fn wrap(i: int, size: int) -> int {
    i % size
}

/// The byte under the pointer.
pub open spec fn cell(s: MState) -> u8 {
    s.tape[s.ptr as int]
}

/// The tape after zeroing `n` consecutive cells rightward from `p`.
pub open spec fn zero_fwd(t: Seq<u8>, p: int, n: nat) -> Seq<u8>
    decreases n,
{
    if n == 0 || t.len() == 0 {
        t
    } else {
        zero_fwd(t.update(p, 0), wrap(p + 1, t.len() as int), (n - 1) as nat)
    }
}

/// The tape after zeroing `n` consecutive cells leftward from `p`.
pub open spec fn zero_bwd(t: Seq<u8>, p: int, n: nat) -> Seq<u8>
    decreases n,
{
    if n == 0 || t.len() == 0 {
        t
    } else {
        zero_bwd(t.update(p, 0), wrap(p - 1, t.len() as int), (n - 1) as nat)
    }
}

/// Whether the state sits on a `Halt` instruction.
pub open spec fn halted(prog: Seq<Instruction>, s: MState) -> bool {
    s.pc < prog.len() && prog[s.pc as int] is Halt
}

/// One small step of the machine. Fused looping instructions (`SearchLeft`,
/// `SearchRight`, `Mandel`) perform one iteration per step and leave the
/// program counter in place until their controlling cell reaches zero, so a
/// non-terminating run is an infinite chain of steps rather than an undefined
/// value. A state that is halted, out of bounds, or on an empty tape stutters.
pub open spec fn small_step(prog: Seq<Instruction>, s: MState) -> MState {
    if s.pc >= prog.len() || s.tape.len() == 0 || s.ptr >= s.tape.len() {
        s
    } else {
        let size = s.tape.len() as int;
        match prog[s.pc as int] {
            Instruction::Halt => s,
            Instruction::Add(a) => MState {
                pc: s.pc + 1,
                tape: s.tape.update(s.ptr as int, add8(cell(s), a)),
                ..s
            },
            Instruction::Jez(d) => MState {
                pc: if cell(s) == 0 { (s.pc + d + 1) as nat } else { s.pc + 1 },
                ..s
            },
            Instruction::Jnz(d) => MState {
                pc: if cell(s) != 0 {
                    if d <= s.pc { (s.pc - d + 1) as nat } else { 0 }
                } else {
                    s.pc + 1
                },
                ..s
            },
            Instruction::Right(a) => MState {
                pc: s.pc + 1,
                ptr: wrap(s.ptr + a, size) as nat,
                ..s
            },
            Instruction::Left(a) => MState {
                pc: s.pc + 1,
                ptr: wrap(s.ptr - a, size) as nat,
                ..s
            },
            Instruction::Zero => MState {
                pc: s.pc + 1,
                tape: s.tape.update(s.ptr as int, 0),
                ..s
            },
            Instruction::SearchRight(n) => if cell(s) == 0 {
                MState { pc: s.pc + 1, ..s }
            } else {
                MState { ptr: wrap(s.ptr + n, size) as nat, ..s }
            },
            Instruction::SearchLeft(n) => if cell(s) == 0 {
                MState { pc: s.pc + 1, ..s }
            } else {
                MState { ptr: wrap(s.ptr - n, size) as nat, ..s }
            },
            Instruction::AddMoveRight(n) => {
                let t = wrap(s.ptr + n, size);
                MState {
                    pc: s.pc + 1,
                    tape: s.tape.update(t, add8(s.tape[t], cell(s))).update(s.ptr as int, 0),
                    ..s
                }
            },
            Instruction::AddMoveLeft(n) => {
                let t = wrap(s.ptr - n, size);
                MState {
                    pc: s.pc + 1,
                    tape: s.tape.update(t, add8(s.tape[t], cell(s))).update(s.ptr as int, 0),
                    ..s
                }
            },
            Instruction::ZeroRight(n) => MState {
                pc: s.pc + 1,
                ptr: wrap(s.ptr + n, size) as nat,
                tape: zero_fwd(s.tape, s.ptr as int, n as nat),
                ..s
            },
            Instruction::ZeroLeft(n) => MState {
                pc: s.pc + 1,
                ptr: wrap(s.ptr - n, size) as nat,
                tape: zero_bwd(s.tape, s.ptr as int, n as nat),
                ..s
            },
            Instruction::Mandel(x, n) => if cell(s) == 0 {
                MState { pc: s.pc + 1, ..s }
            } else {
                let xi = wrap(s.ptr + x, size);
                let ti = wrap(s.ptr + x + n, size);
                MState {
                    tape: s.tape.update(ti, add8(s.tape[ti], s.tape[xi])).update(xi, 0),
                    ptr: wrap(s.ptr - n, size) as nat,
                    ..s
                }
            },
            Instruction::Write => MState {
                pc: s.pc + 1,
                output: s.output.push(cell(s)),
                ..s
            },
            Instruction::Read => MState {
                pc: s.pc + 1,
                tape: if s.input.len() > 0 {
                    s.tape.update(s.ptr as int, s.input[0])
                } else {
                    s.tape
                },
                input: if s.input.len() > 0 { s.input.drop_first() } else { s.input },
                ..s
            },
        }
    }
}

/// The state after `n` small steps.
pub open spec fn steps(prog: Seq<Instruction>, s: MState, n: nat) -> MState
    decreases n,
{
    if n == 0 {
        s
    } else {
        steps(prog, small_step(prog, s), (n - 1) as nat)
    }
}

/// The state `s1` is reachable from `s0` by running the program.
pub open spec fn reaches(prog: Seq<Instruction>, s0: MState, s1: MState) -> bool {
    exists|n: nat| steps(prog, s0, n) == s1
}

/// Well-formedness of an instruction sequence: nonempty, ending in `Halt`,
/// with every forward jump landing strictly inside the sequence and every
/// backward jump staying at or after the start. Running such a sequence never
/// moves the program counter out of bounds.
pub open spec fn flat_wf(prog: Seq<Instruction>) -> bool {
    &&& prog.len() >= 1
    &&& prog[prog.len() - 1] is Halt
    &&& forall|i: int|
        0 <= i < prog.len() ==> (#[trigger] prog[i] matches Instruction::Jez(d) ==> i + d + 1
            < prog.len())
    &&& forall|i: int|
        0 <= i < prog.len() ==> (#[trigger] prog[i] matches Instruction::Jnz(d) ==> d <= i)
}

/// Taking `m + k` steps is taking `m` steps and then `k` more.
pub proof fn lemma_steps_add(prog: Seq<Instruction>, s: MState, m: nat, k: nat)
    ensures
        steps(prog, s, m + k) == steps(prog, steps(prog, s, m), k),
    decreases m,
{
    if m > 0 {
        lemma_steps_add(prog, small_step(prog, s), (m - 1) as nat, k);
    }
}

/// The step after `n` steps is one small step applied to the `n`-step state.
pub proof fn lemma_steps_succ(prog: Seq<Instruction>, s: MState, n: nat)
    ensures
        steps(prog, s, n + 1) == small_step(prog, steps(prog, s, n)),
    decreases n,
{
    if n > 0 {
        lemma_steps_succ(prog, small_step(prog, s), (n - 1) as nat);
    } else {
        assert(steps(prog, s, 1) == steps(prog, small_step(prog, s), 0));
    }
}

/// A halted state stutters: further steps change nothing.
pub proof fn lemma_halted_stutters(prog: Seq<Instruction>, s: MState, n: nat)
    requires
        halted(prog, s),
    ensures
        steps(prog, s, n) == s,
    decreases n,
{
    if n > 0 {
        assert(small_step(prog, s) == s);
        lemma_halted_stutters(prog, s, (n - 1) as nat);
    }
}

/// The machine is deterministic, so at most one halted state is reachable
/// from a given start state.
pub proof fn lemma_halted_unique(prog: Seq<Instruction>, s0: MState, a: MState, b: MState)
    requires
        reaches(prog, s0, a),
        reaches(prog, s0, b),
        halted(prog, a),
        halted(prog, b),
    ensures
        a == b,
{
    let na = choose|n: nat| steps(prog, s0, n) == a;
    let nb = choose|n: nat| steps(prog, s0, n) == b;
    if na <= nb {
        lemma_steps_add(prog, s0, na, (nb - na) as nat);
        lemma_halted_stutters(prog, a, (nb - na) as nat);
    } else {
        lemma_steps_add(prog, s0, nb, (na - nb) as nat);
        lemma_halted_stutters(prog, b, (na - nb) as nat);
    }
}

/// One small step is a reachability step.
pub proof fn lemma_reaches_step(prog: Seq<Instruction>, s: MState)
    ensures
        reaches(prog, s, small_step(prog, s)),
{
    assert(steps(prog, s, 1) == steps(prog, small_step(prog, s), 0));
}

/// Reachability is transitive.
pub proof fn lemma_reaches_trans(prog: Seq<Instruction>, a: MState, b: MState, c: MState)
    requires
        reaches(prog, a, b),
        reaches(prog, b, c),
    ensures
        reaches(prog, a, c),
{
    let m = choose|m: nat| steps(prog, a, m) == b;
    let k = choose|k: nat| steps(prog, b, k) == c;
    lemma_steps_add(prog, a, m, k);
    assert(steps(prog, a, m + k) == c);
}

/// Under `flat_wf`, one step from an in-bounds state stays in bounds.
pub proof fn lemma_step_in_bounds(prog: Seq<Instruction>, s: MState)
    requires
        flat_wf(prog),
        s.pc < prog.len(),
    ensures
        small_step(prog, s).pc < prog.len(),
{
    if !(prog[s.pc as int] is Halt) {
        assert(prog[prog.len() - 1] is Halt);
        assert(s.pc != prog.len() - 1);
    }
}

} // verus!
