//! The bytecode virtual machine. It executes an instruction sequence against
//! a fixed-size circular byte tape, taking its input bytes from an in-memory
//! buffer and collecting its output bytes into another, and is verified to
//! follow the small-step semantics of `semantics` exactly.

use vstd::prelude::*;
use vstd::pervasive::VecAdditionalExecFns;
use vstd::arithmetic::div_mod::{
    lemma_add_mod_noop, lemma_add_mod_noop_right, lemma_mod_add_multiples_vanish, lemma_small_mod,
    lemma_sub_mod_noop,
};

use crate::common::Instruction;
use crate::semantics::{
    flat_wf, halted, lemma_steps_succ, small_step, steps, wrap, zero_bwd, zero_fwd, MState,
};

verus! {

/// Why a run stopped without reaching `Halt`: the step budget ran out. The
/// tape and program counter are left as they are, so the run can be resumed
/// with a fresh budget.
#[derive(Clone, Copy, Debug, PartialEq, Eq, Structural)]
pub enum RuntimeError {
    OutOfFuel,
}

/// One run of a compiled program: the instruction sequence, the program
/// counter, the circular tape, and the two byte boundaries.
pub struct Interpreter {
    instructions: Vec<Instruction>,
    pc: usize,
    memory: Vec<u8>,
    memory_size: usize,
    mem_idx: usize,
    input: Vec<u8>,
    input_pos: usize,
    output: Vec<u8>,
}

impl View for Interpreter {
    type V = MState;

    closed spec fn view(&self) -> MState {
        MState {
            pc: self.pc as nat,
            ptr: self.mem_idx as nat,
            tape: self.memory@,
            input: self.input@.skip(self.input_pos as int),
            output: self.output@,
        }
    }
}

impl Interpreter {
    /// The program this interpreter executes.
    pub closed spec fn code(&self) -> Seq<Instruction> {
        self.instructions@
    }

    /// Internal consistency: the tape has its declared size, the pointer is
    /// on the tape, and the input cursor is within the input.
    pub closed spec fn wf(&self) -> bool {
        &&& self.memory@.len() == self.memory_size
        &&& self.memory_size > 0
        &&& self.mem_idx < self.memory_size
        &&& self.input_pos <= self.input@.len()
    }

    /// Ready to execute: consistent, with a well-formed program and the
    /// program counter inside it.
    pub open spec fn ready(&self) -> bool {
        &&& self.wf()
        &&& flat_wf(self.code())
        &&& self@.pc < self.code().len()
    }

    /// A fresh interpreter over the conventional 30000-cell tape.
    pub fn new(instructions: Vec<Instruction>, input: Vec<u8>) -> (r: Interpreter)
        ensures
            r.wf(),
            r.code() == instructions@,
            r@ == (MState {
                pc: 0,
                ptr: 0,
                tape: Seq::new(30000nat, |i: int| 0u8),
                input: input@,
                output: Seq::empty(),
            }),
    {
        Self::with_capacity(instructions, input, 30000)
    }

    /// A fresh interpreter over a tape of `capacity` zeroed cells.
    pub fn with_capacity(instructions: Vec<Instruction>, input: Vec<u8>, capacity: usize) -> (r:
        Interpreter)
        requires
            capacity > 0,
        ensures
            r.wf(),
            r.code() == instructions@,
            r@ == (MState {
                pc: 0,
                ptr: 0,
                tape: Seq::new(capacity as nat, |i: int| 0u8),
                input: input@,
                output: Seq::empty(),
            }),
    {
        let memory = zeroed_tape(capacity);
        let r = Interpreter {
            instructions,
            pc: 0,
            memory,
            memory_size: capacity,
            mem_idx: 0,
            input,
            input_pos: 0,
            output: Vec::new(),
        };
        proof {
            assert(r@.tape =~= Seq::new(capacity as nat, |i: int| 0u8));
            assert(r@.input =~= r.input@);
            assert(r@ =~= (MState {
                pc: 0,
                ptr: 0,
                tape: Seq::new(capacity as nat, |i: int| 0u8),
                input: r.input@,
                output: Seq::empty(),
            }));
        }
        r
    }

    /// The bytes written so far.
    pub fn output(&self) -> (r: &Vec<u8>)
        ensures
            r@ == self@.output,
    {
        &self.output
    }
}

/// A vector of `n` zero bytes.
pub(crate) fn zeroed_tape(n: usize) -> (r: Vec<u8>)
    ensures
        r@ == Seq::new(n as nat, |i: int| 0u8),
{
    let mut r: Vec<u8> = Vec::new();
    let mut i: usize = 0;
    while i < n
        invariant
            i <= n,
            r@ =~= Seq::new(i as nat, |j: int| 0u8),
        decreases n - i,
    {
        r.push(0);
        i += 1;
    }
    proof {
        assert(r@ =~= Seq::new(n as nat, |i: int| 0u8));
    }
    r
}

/// The pointer moved `k` cells to the right on a circular tape of `size`
/// cells.
fn wrap_fwd(p: usize, k: usize, size: usize) -> (r: usize)
    requires
        p < size,
    ensures
        r < size,
        r as int == wrap(p + k, size as int),
{
    let kr = k % size;
    let r = if p < size - kr {
        p + kr
    } else {
        p - (size - kr)
    };
    proof {
        lemma_add_mod_noop(p as int, k as int, size as int);
        lemma_small_mod(p as nat, size as nat);
        if p < size - kr {
            lemma_small_mod((p + kr) as nat, size as nat);
        } else {
            lemma_mod_add_multiples_vanish((p + kr - size) as int, size as int);
            lemma_small_mod((p + kr - size) as nat, size as nat);
        }
    }
    r
}

/// The pointer moved `k` cells to the left on a circular tape of `size`
/// cells.
fn wrap_back(p: usize, k: usize, size: usize) -> (r: usize)
    requires
        p < size,
    ensures
        r < size,
        r as int == wrap(p - k, size as int),
{
    let kr = k % size;
    let r = if kr <= p {
        p - kr
    } else {
        p + (size - kr)
    };
    proof {
        lemma_sub_mod_noop(p as int, k as int, size as int);
        lemma_small_mod(p as nat, size as nat);
        lemma_small_mod(kr as nat, size as nat);
        if kr <= p {
            lemma_small_mod((p - kr) as nat, size as nat);
        } else {
            lemma_mod_add_multiples_vanish((p - kr) as int, size as int);
            lemma_small_mod((p - kr + size) as nat, size as nat);
        }
    }
    r
}

/// Zero `n` consecutive cells rightward from `idx`, returning the pointer's
/// final position.
#[verifier::loop_isolation(false)]
fn zero_right_run(memory: &mut Vec<u8>, idx: usize, n: u16, size: usize) -> (r: usize)
    requires
        old(memory)@.len() == size,
        size > 0,
        idx < size,
    ensures
        final(memory)@ == zero_fwd(old(memory)@, idx as int, n as nat),
        final(memory)@.len() == size,
        r < size,
        r as int == wrap(idx + n, size as int),
{
    let ghost t0 = memory@;
    let mut p = idx;
    let mut j: u16 = 0;
    proof {
        lemma_small_mod(idx as nat, size as nat);
    }
    while j < n
        invariant
            j <= n,
            p < size,
            memory@.len() == size,
            p as int == wrap(idx + j, size as int),
            zero_fwd(t0, idx as int, n as nat) == zero_fwd(memory@, p as int, (n - j) as nat),
        decreases n - j,
    {
        memory.set(p, 0);
        p = wrap_fwd(p, 1, size);
        j += 1;
        proof {
            lemma_add_mod_noop_right(1, idx + j - 1, size as int);
        }
    }
    p
}

/// Zero `n` consecutive cells leftward from `idx`, returning the pointer's
/// final position.
#[verifier::loop_isolation(false)]
fn zero_left_run(memory: &mut Vec<u8>, idx: usize, n: u16, size: usize) -> (r: usize)
    requires
        old(memory)@.len() == size,
        size > 0,
        idx < size,
    ensures
        final(memory)@ == zero_bwd(old(memory)@, idx as int, n as nat),
        final(memory)@.len() == size,
        r < size,
        r as int == wrap(idx - n, size as int),
{
    let ghost t0 = memory@;
    let mut p = idx;
    let mut j: u16 = 0;
    proof {
        lemma_small_mod(idx as nat, size as nat);
    }
    while j < n
        invariant
            j <= n,
            p < size,
            memory@.len() == size,
            p as int == wrap(idx - j, size as int),
            zero_bwd(t0, idx as int, n as nat) == zero_bwd(memory@, p as int, (n - j) as nat),
        decreases n - j,
    {
        memory.set(p, 0);
        p = wrap_back(p, 1, size);
        j += 1;
        proof {
            lemma_add_mod_noop_right(-1, idx - j + 1, size as int);
        }
    }
    p
}

/// Whether an instruction sequence is well formed in the sense of
/// `semantics::flat_wf`: nonempty, `Halt`-terminated, all jumps in bounds.
/// An embedding caller can test this before asking for a run.
pub fn is_well_formed(instrs: &Vec<Instruction>) -> (r: bool)
    ensures
        r == flat_wf(instrs@),
{
    let len = instrs.len();
    if len == 0 {
        return false;
    }
    if !(matches!(instrs[len - 1], Instruction::Halt)) {
        return false;
    }
    let mut i: usize = 0;
    while i < len
        invariant
            i <= len,
            len == instrs@.len(),
            forall|j: int|
                0 <= j < i ==> (#[trigger] instrs@[j] matches Instruction::Jez(d) ==> j + d + 1
                    < len),
            forall|j: int|
                0 <= j < i ==> (#[trigger] instrs@[j] matches Instruction::Jnz(d) ==> d <= j),
        decreases len - i,
    {
        match instrs[i] {
            Instruction::Jez(d) => {
                if !((d as usize) < len - i - 1) {
                    return false;
                }
            },
            Instruction::Jnz(d) => {
                if !((d as usize) <= i) {
                    return false;
                }
            },
            _ => {},
        }
        i += 1;
    }
    true
}

impl Interpreter {
    /// Execute exactly one small step; the current instruction must not be
    /// `Halt`.
    #[verifier::rlimit(100)]
    fn step_once(&mut self)
        requires
            old(self).ready(),
            !(old(self).code()[old(self)@.pc as int] is Halt),
        ensures
            final(self).wf(),
            final(self).code() == old(self).code(),
            final(self)@ == small_step(old(self).code(), old(self)@),
    {
        let ghost prog = self.code();
        let ghost pre = self@;
        let len = self.instructions.len();
        let inst = self.instructions[self.pc];
        proof {
            crate::semantics::lemma_step_in_bounds(prog, pre);
        }
        match inst {
            Instruction::Halt => {
                proof {
                    assert(false);
                }
            },
            Instruction::Add(amt) => {
                let c = self.memory[self.mem_idx];
                self.memory.set(self.mem_idx, c.wrapping_add(amt));
                self.pc = self.pc + 1;
                proof {
                    assert(self@ =~= small_step(prog, pre));
                }
            },
            Instruction::Jez(d) => {
                proof {
                    assert(prog[pre.pc as int] matches Instruction::Jez(dd) && dd == d);
                }
                if self.memory[self.mem_idx] == 0 {
                    self.pc = self.pc + (d as usize) + 1;
                } else {
                    self.pc = self.pc + 1;
                }
                proof {
                    assert(self@ =~= small_step(prog, pre));
                }
            },
            Instruction::Jnz(d) => {
                proof {
                    assert(prog[pre.pc as int] matches Instruction::Jnz(dd) && dd == d);
                }
                if self.memory[self.mem_idx] != 0 {
                    self.pc = self.pc - (d as usize) + 1;
                } else {
                    self.pc = self.pc + 1;
                }
                proof {
                    assert(self@ =~= small_step(prog, pre));
                }
            },
            Instruction::Right(amt) => {
                self.mem_idx = wrap_fwd(self.mem_idx, amt as usize, self.memory_size);
                self.pc = self.pc + 1;
                proof {
                    assert(self@ =~= small_step(prog, pre));
                }
            },
            Instruction::Left(amt) => {
                self.mem_idx = wrap_back(self.mem_idx, amt as usize, self.memory_size);
                self.pc = self.pc + 1;
                proof {
                    assert(self@ =~= small_step(prog, pre));
                }
            },
            Instruction::Zero => {
                self.memory.set(self.mem_idx, 0);
                self.pc = self.pc + 1;
                proof {
                    assert(self@ =~= small_step(prog, pre));
                }
            },
            Instruction::SearchRight(n) => {
                if self.memory[self.mem_idx] != 0 {
                    self.mem_idx = wrap_fwd(self.mem_idx, n as usize, self.memory_size);
                } else {
                    self.pc = self.pc + 1;
                }
                proof {
                    assert(self@ =~= small_step(prog, pre));
                }
            },
            Instruction::SearchLeft(n) => {
                if self.memory[self.mem_idx] != 0 {
                    self.mem_idx = wrap_back(self.mem_idx, n as usize, self.memory_size);
                } else {
                    self.pc = self.pc + 1;
                }
                proof {
                    assert(self@ =~= small_step(prog, pre));
                }
            },
            Instruction::AddMoveRight(n) => {
                let t = wrap_fwd(self.mem_idx, n as usize, self.memory_size);
                let sum = self.memory[t].wrapping_add(self.memory[self.mem_idx]);
                self.memory.set(t, sum);
                self.memory.set(self.mem_idx, 0);
                self.pc = self.pc + 1;
                proof {
                    assert(self@ =~= small_step(prog, pre));
                }
            },
            Instruction::AddMoveLeft(n) => {
                let t = wrap_back(self.mem_idx, n as usize, self.memory_size);
                let sum = self.memory[t].wrapping_add(self.memory[self.mem_idx]);
                self.memory.set(t, sum);
                self.memory.set(self.mem_idx, 0);
                self.pc = self.pc + 1;
                proof {
                    assert(self@ =~= small_step(prog, pre));
                }
            },
            Instruction::ZeroRight(n) => {
                self.mem_idx = zero_right_run(&mut self.memory, self.mem_idx, n,
                    self.memory_size);
                self.pc = self.pc + 1;
                proof {
                    assert(self@ =~= small_step(prog, pre));
                }
            },
            Instruction::ZeroLeft(n) => {
                self.mem_idx = zero_left_run(&mut self.memory, self.mem_idx, n,
                    self.memory_size);
                self.pc = self.pc + 1;
                proof {
                    assert(self@ =~= small_step(prog, pre));
                }
            },
            Instruction::Mandel(x, n) => {
                if self.memory[self.mem_idx] != 0 {
                    let xi = wrap_fwd(self.mem_idx, x as usize, self.memory_size);
                    let ti = wrap_fwd(self.mem_idx, (x as usize) + (n as usize),
                        self.memory_size);
                    let sum = self.memory[ti].wrapping_add(self.memory[xi]);
                    self.memory.set(ti, sum);
                    self.memory.set(xi, 0);
                    self.mem_idx = wrap_back(self.mem_idx, n as usize, self.memory_size);
                } else {
                    self.pc = self.pc + 1;
                }
                proof {
                    assert(self@ =~= small_step(prog, pre));
                }
            },
            Instruction::Write => {
                let b = self.memory[self.mem_idx];
                self.output.push(b);
                self.pc = self.pc + 1;
                proof {
                    assert(self@ =~= small_step(prog, pre));
                }
            },
            Instruction::Read => {
                if self.input_pos < self.input.len() {
                    let b = self.input[self.input_pos];
                    self.memory.set(self.mem_idx, b);
                    self.input_pos = self.input_pos + 1;
                }
                self.pc = self.pc + 1;
                proof {
                    assert(self@.input =~= pre.input.skip(if pre.input.len() > 0 {
                        1int
                    } else {
                        0int
                    }));
                    assert(self@ =~= small_step(prog, pre));
                }
            },
        }
    }

    /// Execute up to `fuel` small steps. Returns `Ok(())` exactly when the
    /// run reached a `Halt` instruction within the budget; otherwise the
    /// machine is left at the state after `fuel` steps and the run may be
    /// resumed. The final state is the unique one the small-step semantics
    /// prescribes.
    #[verifier::loop_isolation(false)]
    #[verifier::rlimit(50)]
    pub fn run(&mut self, fuel: u64) -> (r: Result<(), RuntimeError>)
        requires
            old(self).ready(),
        ensures
            final(self).ready(),
            final(self).code() == old(self).code(),
            exists|n: nat|
                #![auto]
                n <= fuel && final(self)@ == steps(old(self).code(), old(self)@, n) && (r is Err
                    ==> n == fuel),
            r is Ok <==> halted(old(self).code(), final(self)@),
    {
        let ghost prog = self.code();
        let ghost s0 = self@;
        let mut i: u64 = 0;
        while i < fuel
            invariant
                self.wf(),
                flat_wf(prog),
                self.code() == prog,
                self@.pc < prog.len(),
                i <= fuel,
                self@ == steps(prog, s0, i as nat),
            decreases fuel - i,
        {
            proof {
                lemma_steps_succ(prog, s0, i as nat);
            }
            let halting = matches!(self.instructions[self.pc], Instruction::Halt);
            if halting {
                proof {
                    assert(halted(prog, self@));
                }
                return Ok(());
            }
            self.step_once();
            proof {
                crate::semantics::lemma_step_in_bounds(prog, steps(prog, s0, i as nat));
            }
            i += 1;
        }
        let halting = matches!(self.instructions[self.pc], Instruction::Halt);
        if halting {
            Ok(())
        } else {
            Err(RuntimeError::OutOfFuel)
        }
    }
}

} // verus!
