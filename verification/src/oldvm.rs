//! The direct token interpreter: an earlier stage of the design that
//! executes the token stream itself, matching brackets at run time with a
//! stack, with no code generation or optimization. It is verified against a
//! small-step semantics over token machine states.

use vstd::prelude::*;
use vstd::pervasive::VecAdditionalExecFns;

use crate::common::Token;
use crate::semantics::add8;

verus! {

/// Why a token-level run stopped without reaching the end marker.
#[derive(Clone, Copy, Debug, PartialEq, Eq, Structural)]
pub enum TokenRunError {
    /// The program counter ran past the end of the token stream.
    TokenExhausted,
    /// A loop opening had no matching closing bracket ahead of it.
    UnmatchedOpen,
    /// A closing bracket arrived with no loop open.
    UnmatchedClose,
    /// The step budget ran out; the run can be resumed.
    OutOfFuel,
}

/// The state of a token-level run.
#[verifier::ext_equal]
pub struct TokState {
    pub pc: nat,
    pub ptr: nat,
    pub tape: Seq<u8>,
    pub stack: Seq<nat>,
    pub input: Seq<u8>,
    pub output: Seq<u8>,
}

/// What the machine would do at this state: keep running, finish at the end
/// marker, or fail.
pub enum TokStatus {
    Running,
    Finished,
    Failed(TokenRunError),
}

/// The index of the closing bracket that matches an opening one, scanning
/// from `i` with `count` brackets currently open; `None` when the stream
/// ends, or its end marker arrives, first.
pub open spec fn find_matching(toks: Seq<Token>, i: int, count: nat) -> Option<int>
    decreases toks.len() - i,
{
    if i < 0 || i >= toks.len() {
        None
    } else {
        match toks[i] {
            Token::EOF => None,
            Token::LeftLoop => find_matching(toks, i + 1, count + 1),
            Token::RightLoop => if count <= 1 {
                Some(i)
            } else {
                find_matching(toks, i + 1, (count - 1) as nat)
            },
            _ => find_matching(toks, i + 1, count),
        }
    }
}

/// The status of a state: finished exactly at the end marker, failed on an
/// exhausted stream or an unmatched bracket, running otherwise.
pub open spec fn tok_status(toks: Seq<Token>, s: TokState) -> TokStatus {
    if s.pc >= toks.len() {
        TokStatus::Failed(TokenRunError::TokenExhausted)
    } else {
        match toks[s.pc as int] {
            Token::EOF => TokStatus::Finished,
            Token::RightLoop => if s.stack.len() == 0 {
                TokStatus::Failed(TokenRunError::UnmatchedClose)
            } else {
                TokStatus::Running
            },
            Token::LeftLoop => if s.tape[s.ptr as int] == 0 && find_matching(
                toks,
                s.pc as int + 1,
                1,
            ) is None {
                TokStatus::Failed(TokenRunError::UnmatchedOpen)
            } else {
                TokStatus::Running
            },
            _ => TokStatus::Running,
        }
    }
}

/// One small step of the token machine; a state that is not running
/// stutters.
pub open spec fn tok_step(toks: Seq<Token>, s: TokState) -> TokState {
    if !(tok_status(toks, s) is Running) || s.tape.len() == 0 || s.ptr >= s.tape.len() {
        s
    } else {
        match toks[s.pc as int] {
            Token::MoveRight => TokState {
                pc: s.pc + 1,
                ptr: if s.ptr + 1 == s.tape.len() {
                    0
                } else {
                    s.ptr + 1
                },
                ..s
            },
            Token::MoveLeft => TokState {
                pc: s.pc + 1,
                ptr: if s.ptr == 0 {
                    (s.tape.len() - 1) as nat
                } else {
                    (s.ptr - 1) as nat
                },
                ..s
            },
            Token::Increment => TokState {
                pc: s.pc + 1,
                tape: s.tape.update(s.ptr as int, add8(s.tape[s.ptr as int], 1)),
                ..s
            },
            Token::Decrement => TokState {
                pc: s.pc + 1,
                tape: s.tape.update(s.ptr as int, add8(s.tape[s.ptr as int], 255)),
                ..s
            },
            Token::Output => TokState {
                pc: s.pc + 1,
                output: s.output.push(s.tape[s.ptr as int]),
                ..s
            },
            Token::Input => TokState {
                pc: s.pc + 1,
                tape: if s.input.len() > 0 {
                    s.tape.update(s.ptr as int, s.input[0])
                } else {
                    s.tape
                },
                input: if s.input.len() > 0 {
                    s.input.drop_first()
                } else {
                    s.input
                },
                ..s
            },
            Token::LeftLoop => if s.tape[s.ptr as int] == 0 {
                TokState {
                    pc: (find_matching(toks, s.pc as int + 1, 1)->Some_0 + 1) as nat,
                    ..s
                }
            } else {
                TokState { pc: s.pc + 1, stack: s.stack.push(s.pc), ..s }
            },
            Token::RightLoop => if s.tape[s.ptr as int] != 0 {
                TokState { pc: (s.stack.last() + 1) as nat, ..s }
            } else {
                TokState { pc: s.pc + 1, stack: s.stack.drop_last(), ..s }
            },
            Token::EOF => s,
        }
    }
}

/// The state after `n` token steps.
pub open spec fn tok_steps(toks: Seq<Token>, s: TokState, n: nat) -> TokState
    decreases n,
{
    if n == 0 {
        s
    } else {
        tok_steps(toks, tok_step(toks, s), (n - 1) as nat)
    }
}

/// The step after `n` steps is one step applied to the `n`-step state.
pub proof fn lemma_tok_steps_succ(toks: Seq<Token>, s: TokState, n: nat)
    ensures
        tok_steps(toks, s, n + 1) == tok_step(toks, tok_steps(toks, s, n)),
    decreases n,
{
    if n > 0 {
        lemma_tok_steps_succ(toks, tok_step(toks, s), (n - 1) as nat);
    } else {
        assert(tok_steps(toks, s, 1) == tok_steps(toks, tok_step(toks, s), 0));
    }
}

/// The matching closing bracket for the opening at `start - 1`, found by the
/// same scan the semantics uses.
#[verifier::loop_isolation(false)]
fn scan_matching(tokens: &Vec<Token>, start: usize) -> (r: Option<usize>)
    requires
        1 <= start <= tokens@.len(),
    ensures
        match r {
            Some(j) => find_matching(tokens@, start as int, 1) == Some(j as int) && start <= j
                && (j as int) < tokens@.len(),
            None => find_matching(tokens@, start as int, 1) is None,
        },
{
    let len = tokens.len();
    let mut j = start;
    let mut count: usize = 1;
    while j < len
        invariant
            start <= j <= len,
            len == tokens@.len(),
            1 <= count <= j - start + 1,
            find_matching(tokens@, start as int, 1) == find_matching(
                tokens@,
                j as int,
                count as nat,
            ),
        decreases len - j,
    {
        match tokens[j] {
            Token::EOF => {
                return None;
            },
            Token::LeftLoop => {
                count += 1;
                j += 1;
            },
            Token::RightLoop => {
                if count == 1 {
                    return Some(j);
                }
                count -= 1;
                j += 1;
            },
            _ => {
                j += 1;
            },
        }
    }
    None
}

/// Interprets the token stream directly, with run-time bracket matching.
pub struct BFInterpreter {
    tokens: Vec<Token>,
    pc: usize,
    memory: Vec<u8>,
    memory_size: usize,
    mem_idx: usize,
    stack: Vec<usize>,
    input: Vec<u8>,
    input_pos: usize,
    output: Vec<u8>,
}

impl View for BFInterpreter {
    type V = TokState;

    closed spec fn view(&self) -> TokState {
        TokState {
            pc: self.pc as nat,
            ptr: self.mem_idx as nat,
            tape: self.memory@,
            stack: self.stack@.map_values(|v: usize| v as nat),
            input: self.input@.skip(self.input_pos as int),
            output: self.output@,
        }
    }
}

impl BFInterpreter {
    /// The tokens this interpreter executes.
    pub closed spec fn toks(&self) -> Seq<Token> {
        self.tokens@
    }

    /// Internal consistency: the tape has its declared size, the pointer is
    /// on the tape, the input cursor is within the input, and every stacked
    /// loop opening lies inside the stream.
    pub closed spec fn wf(&self) -> bool {
        &&& self.memory@.len() == self.memory_size
        &&& self.memory_size > 0
        &&& self.mem_idx < self.memory_size
        &&& self.input_pos <= self.input@.len()
        &&& forall|k: int|
            0 <= k < self.stack@.len() ==> (#[trigger] self.stack@[k]) < self.tokens@.len()
    }

    /// A fresh interpreter over the conventional 30000-cell tape.
    pub fn new(src: Vec<Token>, input: Vec<u8>) -> (r: BFInterpreter)
        ensures
            r.wf(),
            r.toks() == src@,
            r@ == (TokState {
                pc: 0,
                ptr: 0,
                tape: Seq::new(30000nat, |i: int| 0u8),
                stack: Seq::empty(),
                input: input@,
                output: Seq::empty(),
            }),
    {
        Self::with_capacity(src, input, 30000)
    }

    /// A fresh interpreter over a tape of `capacity` zeroed cells.
    pub fn with_capacity(src: Vec<Token>, input: Vec<u8>, capacity: usize) -> (r: BFInterpreter)
        requires
            capacity > 0,
        ensures
            r.wf(),
            r.toks() == src@,
            r@ == (TokState {
                pc: 0,
                ptr: 0,
                tape: Seq::new(capacity as nat, |i: int| 0u8),
                stack: Seq::empty(),
                input: input@,
                output: Seq::empty(),
            }),
    {
        let memory = crate::vm::zeroed_tape(capacity);
        let r = BFInterpreter {
            tokens: src,
            pc: 0,
            memory,
            memory_size: capacity,
            mem_idx: 0,
            stack: Vec::new(),
            input,
            input_pos: 0,
            output: Vec::new(),
        };
        proof {
            assert(r@ =~= (TokState {
                pc: 0,
                ptr: 0,
                tape: Seq::new(capacity as nat, |i: int| 0u8),
                stack: Seq::empty(),
                input: r.input@,
                output: Seq::empty(),
            }));
        }
        r
    }

    /// The token at `idx`, or the error that stopping there reports.
    pub fn get_token(&self, idx: usize) -> (r: Result<Token, TokenRunError>)
        ensures
            idx < self.toks().len() ==> r == Ok::<Token, TokenRunError>(self.toks()[idx as int]),
            idx >= self.toks().len() ==> r == Err::<Token, TokenRunError>(
                TokenRunError::TokenExhausted,
            ),
    {
        if idx < self.tokens.len() {
            Ok(self.tokens[idx])
        } else {
            Err(TokenRunError::TokenExhausted)
        }
    }

    /// The bytes written so far.
    pub fn output(&self) -> (r: &Vec<u8>)
        ensures
            r@ == self@.output,
    {
        &self.output
    }

    /// Execute up to `fuel` token steps. `Ok(())` exactly when the run
    /// reached the end marker; a bracket failure or an exhausted stream is
    /// reported as itself; `OutOfFuel` only once the whole budget is spent,
    /// and the run may then be resumed.
    #[verifier::loop_isolation(false)]
    #[verifier::rlimit(100)]
    pub fn run(&mut self, fuel: u64) -> (r: Result<(), TokenRunError>)
        requires
            old(self).wf(),
        ensures
            final(self).wf(),
            final(self).toks() == old(self).toks(),
            exists|n: nat|
                #![auto]
                n <= fuel && final(self)@ == tok_steps(old(self).toks(), old(self)@, n) && (r
                    == Err::<(), TokenRunError>(TokenRunError::OutOfFuel) ==> n == fuel),
            r is Ok <==> tok_status(old(self).toks(), final(self)@) is Finished,
            r == Err::<(), TokenRunError>(TokenRunError::TokenExhausted) ==> tok_status(
                old(self).toks(),
                final(self)@,
            ) == TokStatus::Failed(TokenRunError::TokenExhausted),
            r == Err::<(), TokenRunError>(TokenRunError::UnmatchedClose) ==> tok_status(
                old(self).toks(),
                final(self)@,
            ) == TokStatus::Failed(TokenRunError::UnmatchedClose),
            r == Err::<(), TokenRunError>(TokenRunError::UnmatchedOpen) ==> tok_status(
                old(self).toks(),
                final(self)@,
            ) == TokStatus::Failed(TokenRunError::UnmatchedOpen),
    {
        let ghost toks = self.toks();
        let ghost s0 = self@;
        let mut i: u64 = 0;
        while i <= fuel
            invariant
                self.wf(),
                self.toks() == toks,
                i <= fuel,
                self@ == tok_steps(toks, s0, i as nat),
            decreases fuel - i,
        {
            let ghost pre = self@;
            proof {
                lemma_tok_steps_succ(toks, s0, i as nat);
            }
            let len = self.tokens.len();
            if self.pc >= len {
                return Err(TokenRunError::TokenExhausted);
            }
            let t = self.tokens[self.pc];
            match t {
                Token::EOF => {
                    return Ok(());
                },
                Token::RightLoop => {
                    if self.stack.len() == 0 {
                        return Err(TokenRunError::UnmatchedClose);
                    }
                    if i == fuel {
                        return Err(TokenRunError::OutOfFuel);
                    }
                    if self.memory[self.mem_idx] != 0 {
                        self.pc = self.stack[self.stack.len() - 1] + 1;
                    } else {
                        let _ = self.stack.pop();
                        self.pc = self.pc + 1;
                        proof {
                            assert(self@.stack =~= pre.stack.drop_last());
                        }
                    }
                    proof {
                        assert(self@ =~= tok_step(toks, pre));
                    }
                },
                Token::LeftLoop => {
                    if self.memory[self.mem_idx] == 0 {
                        match scan_matching(&self.tokens, self.pc + 1) {
                            Some(j) => {
                                if i == fuel {
                                    return Err(TokenRunError::OutOfFuel);
                                }
                                self.pc = j + 1;
                                proof {
                                    assert(self@ =~= tok_step(toks, pre));
                                }
                            },
                            None => {
                                return Err(TokenRunError::UnmatchedOpen);
                            },
                        }
                    } else {
                        if i == fuel {
                            return Err(TokenRunError::OutOfFuel);
                        }
                        self.stack.push(self.pc);
                        self.pc = self.pc + 1;
                        proof {
                            assert(self@.stack =~= pre.stack.push(pre.pc));
                            assert(self@ =~= tok_step(toks, pre));
                        }
                    }
                },
                Token::MoveRight => {
                    if i == fuel {
                        return Err(TokenRunError::OutOfFuel);
                    }
                    if self.mem_idx == self.memory_size - 1 {
                        self.mem_idx = 0;
                    } else {
                        self.mem_idx = self.mem_idx + 1;
                    }
                    self.pc = self.pc + 1;
                    proof {
                        assert(self@ =~= tok_step(toks, pre));
                    }
                },
                Token::MoveLeft => {
                    if i == fuel {
                        return Err(TokenRunError::OutOfFuel);
                    }
                    if self.mem_idx == 0 {
                        self.mem_idx = self.memory_size - 1;
                    } else {
                        self.mem_idx = self.mem_idx - 1;
                    }
                    self.pc = self.pc + 1;
                    proof {
                        assert(self@ =~= tok_step(toks, pre));
                    }
                },
                Token::Increment => {
                    if i == fuel {
                        return Err(TokenRunError::OutOfFuel);
                    }
                    let c = self.memory[self.mem_idx];
                    self.memory.set(self.mem_idx, c.wrapping_add(1));
                    self.pc = self.pc + 1;
                    proof {
                        assert(self@ =~= tok_step(toks, pre));
                    }
                },
                Token::Decrement => {
                    if i == fuel {
                        return Err(TokenRunError::OutOfFuel);
                    }
                    let c = self.memory[self.mem_idx];
                    self.memory.set(self.mem_idx, c.wrapping_sub(1));
                    self.pc = self.pc + 1;
                    proof {
                        assert(self@ =~= tok_step(toks, pre));
                    }
                },
                Token::Output => {
                    if i == fuel {
                        return Err(TokenRunError::OutOfFuel);
                    }
                    let b = self.memory[self.mem_idx];
                    self.output.push(b);
                    self.pc = self.pc + 1;
                    proof {
                        assert(self@ =~= tok_step(toks, pre));
                    }
                },
                Token::Input => {
                    if i == fuel {
                        return Err(TokenRunError::OutOfFuel);
                    }
                    if self.input_pos < self.input.len() {
                        let b = self.input[self.input_pos];
                        self.memory.set(self.mem_idx, b);
                        self.input_pos = self.input_pos + 1;
                    }
                    self.pc = self.pc + 1;
                    proof {
                        assert(self@.input =~= pre.input.skip(if pre.input.len() > 0 {
                            1int
                        } else {
                            0int
                        }));
                        assert(self@ =~= tok_step(toks, pre));
                    }
                },
            }
            i += 1;
        }
        proof {
            assert(false);
        }
        Err(TokenRunError::OutOfFuel)
    }
}

} // verus!
