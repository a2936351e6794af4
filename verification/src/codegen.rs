//! Code generation: the operation tree is traversed in source order, runs of
//! increments/decrements and of pointer moves are folded into single
//! instructions, and every loop body is generated and optimized before the
//! jump pair that brackets it is emitted, so the jump distances are computed
//! from the body's final length and are never stale.

use vstd::prelude::*;

use crate::common::{Instruction, Node};
use crate::peephole::{opt_chain, optimize_instruction_chain};
use crate::semantics::add8;

verus! {

/// An increment or decrement leaf.
pub open spec fn is_math_node(n: Node) -> bool {
    n is Increment || n is Decrement
}

/// A pointer-move leaf.
pub open spec fn is_move_node(n: Node) -> bool {
    n is MoveRight || n is MoveLeft
}

/// The length of the maximal arithmetic run at the head of `s`.
pub open spec fn math_run(s: Seq<Node>) -> nat
    decreases s.len(),
{
    if s.len() > 0 && is_math_node(s[0]) {
        1 + math_run(s.skip(1))
    } else {
        0
    }
}

/// The folded 8-bit delta of the arithmetic run at the head of `s`, starting
/// from `acc` and wrapping modulo 256.
pub open spec fn math_acc(s: Seq<Node>, acc: u8) -> u8
    decreases s.len(),
{
    if s.len() > 0 && is_math_node(s[0]) {
        math_acc(s.skip(1), if s[0] is Increment { add8(acc, 1) } else { add8(acc, 255) })
    } else {
        acc
    }
}

/// The length of the maximal pointer-move run at the head of `s`.
pub open spec fn move_run(s: Seq<Node>) -> nat
    decreases s.len(),
{
    if s.len() > 0 && is_move_node(s[0]) {
        1 + move_run(s.skip(1))
    } else {
        0
    }
}

/// The net signed displacement of the pointer-move run at the head of `s`:
/// rights count +1, lefts count -1.
pub open spec fn move_net(s: Seq<Node>) -> int
    decreases s.len(),
{
    if s.len() > 0 && is_move_node(s[0]) {
        (if s[0] is MoveRight {
            1int
        } else {
            -1int
        }) + move_net(s.skip(1))
    } else {
        0
    }
}

/// The single shift instruction for a net displacement: positive goes right,
/// zero or negative goes left (a net of zero becomes `Left(0)`, a no-op).
pub open spec fn shift_of(net: int) -> Instruction {
    if net > 0 {
        Instruction::Right(net as u16)
    } else {
        Instruction::Left((-net) as u16)
    }
}

/// The jump distance bracketing an optimized body: its length plus one, at
/// the 16-bit payload width.
pub open spec fn jump_dist(body_len: nat) -> u16 {
    if (body_len as u16) == 0xFFFFu16 {
        0u16
    } else {
        ((body_len as u16) + 1) as u16
    }
}

/// The instruction sequence generated for `s`: leaves map one to one,
/// arithmetic and move runs fold, and each `Loop` becomes a `Jez`/`Jnz` pair
/// around its recursively generated and optimized body.
pub open spec fn gen(s: Seq<Node>) -> Seq<Instruction>
    decreases s,
    via gen_decreases
{
    if s.len() == 0 {
        Seq::empty()
    } else if is_math_node(s[0]) {
        seq![Instruction::Add(math_acc(s, 0))] + gen(s.skip(math_run(s) as int))
    } else if is_move_node(s[0]) {
        seq![shift_of(move_net(s))] + gen(s.skip(move_run(s) as int))
    } else {
        match s[0] {
            Node::Loop(body) => {
                let ob = opt_chain(gen(body@));
                let d = jump_dist(ob.len());
                seq![Instruction::Jez(d)] + ob + seq![Instruction::Jnz(d)] + gen(s.skip(1))
            },
            Node::Output => seq![Instruction::Write] + gen(s.skip(1)),
            Node::Input => seq![Instruction::Read] + gen(s.skip(1)),
            _ => seq![Instruction::Halt] + gen(s.skip(1)),
        }
    }
}

/// The arithmetic run is at least one node long when it starts, and never
/// longer than the sequence.
pub proof fn lemma_math_run_le(s: Seq<Node>)
    ensures
        math_run(s) <= s.len(),
    decreases s.len(),
{
    if s.len() > 0 && is_math_node(s[0]) {
        lemma_math_run_le(s.skip(1));
    }
}

/// The move run is never longer than the sequence, and its net displacement
/// is bounded by its length.
pub proof fn lemma_move_run_le(s: Seq<Node>)
    ensures
        move_run(s) <= s.len(),
        -(move_run(s) as int) <= move_net(s) <= move_run(s) as int,
    decreases s.len(),
{
    if s.len() > 0 && is_move_node(s[0]) {
        lemma_move_run_le(s.skip(1));
    }
}

#[via_fn]
proof fn gen_decreases(s: Seq<Node>) {
    if s.len() > 0 {
        lemma_math_run_le(s);
        lemma_move_run_le(s);
        if is_math_node(s[0]) {
            let k = math_run(s) as int;
            assert(s.skip(k) =~= s.subrange(k, s.len() as int));
            assert(decreases_to!(s => s.subrange(k, s.len() as int)));
        } else if is_move_node(s[0]) {
            let k = move_run(s) as int;
            assert(s.skip(k) =~= s.subrange(k, s.len() as int));
            assert(decreases_to!(s => s.subrange(k, s.len() as int)));
        } else {
            assert(s.skip(1) =~= s.subrange(1, s.len() as int));
            assert(decreases_to!(s => s.subrange(1, s.len() as int)));
            if s[0] is Loop {
                assert(decreases_to!(s => s[0]));
                assert(decreases_to!(s[0] => s[0]->Loop_0));
                assert(decreases_to!(s[0]->Loop_0 => s[0]->Loop_0@));
            }
        }
    }
}

/// Whether the node at `i` is an arithmetic leaf; `None` otherwise, with the
/// direction of the toggle when it is.
fn math_kind_at(nodes: &Vec<Node>, i: usize) -> (r: Option<bool>)
    ensures
        r is Some <==> i < nodes@.len() && is_math_node(nodes@[i as int]),
        r == Some(true) <==> i < nodes@.len() && nodes@[i as int] is Increment,
        r == Some(false) <==> i < nodes@.len() && nodes@[i as int] is Decrement,
{
    if i < nodes.len() {
        match &nodes[i] {
            Node::Increment => Some(true),
            Node::Decrement => Some(false),
            _ => None,
        }
    } else {
        None
    }
}

/// Whether the node at `i` is a pointer-move leaf; `None` otherwise, with
/// the direction of the move when it is.
fn move_kind_at(nodes: &Vec<Node>, i: usize) -> (r: Option<bool>)
    ensures
        r is Some <==> i < nodes@.len() && is_move_node(nodes@[i as int]),
        r == Some(true) <==> i < nodes@.len() && nodes@[i as int] is MoveRight,
        r == Some(false) <==> i < nodes@.len() && nodes@[i as int] is MoveLeft,
{
    if i < nodes.len() {
        match &nodes[i] {
            Node::MoveRight => Some(true),
            Node::MoveLeft => Some(false),
            _ => None,
        }
    } else {
        None
    }
}

/// Fold the maximal run of increments and decrements starting at `*pos` into
/// one wrapped 8-bit delta, advancing the cursor past the run.
#[verifier::loop_isolation(false)]
pub fn optimize_math(start: u8, nodes: &Vec<Node>, pos: &mut usize) -> (acc: u8)
    requires
        *old(pos) <= nodes@.len(),
    ensures
        acc == math_acc(nodes@.skip(*old(pos) as int), start),
        *final(pos) == *old(pos) + math_run(nodes@.skip(*old(pos) as int)),
{
    let ghost p0 = *pos as int;
    let len = nodes.len();
    let mut acc = start;
    let mut going = math_kind_at(nodes, *pos);
    while going.is_some()
        invariant
            p0 <= *pos <= nodes@.len(),
            going == math_kind_at_spec(nodes@, *pos as int),
            math_acc(nodes@.skip(p0), start) == math_acc(nodes@.skip(*pos as int), acc),
            math_run(nodes@.skip(p0)) == (*pos - p0) + math_run(nodes@.skip(*pos as int)),
        decreases nodes@.len() - *pos,
    {
        let ghost i = *pos as int;
        proof {
            assert(nodes@.skip(i)[0] == nodes@[i]);
            assert(nodes@.skip(i).skip(1) =~= nodes@.skip(i + 1));
        }
        if going == Some(true) {
            acc = acc.wrapping_add(1);
        } else {
            acc = acc.wrapping_sub(1);
        }
        *pos = *pos + 1;
        going = math_kind_at(nodes, *pos);
    }
    proof {
        assert(math_acc(nodes@.skip(*pos as int), acc) == acc);
        assert(math_run(nodes@.skip(*pos as int)) == 0);
    }
    acc
}

/// What `math_kind_at` reports, as a spec value.
pub open spec fn math_kind_at_spec(s: Seq<Node>, i: int) -> Option<bool> {
    if 0 <= i < s.len() && s[i] is Increment {
        Some(true)
    } else if 0 <= i < s.len() && s[i] is Decrement {
        Some(false)
    } else {
        None
    }
}

/// What `move_kind_at` reports, as a spec value.
pub open spec fn move_kind_at_spec(s: Seq<Node>, i: int) -> Option<bool> {
    if 0 <= i < s.len() && s[i] is MoveRight {
        Some(true)
    } else if 0 <= i < s.len() && s[i] is MoveLeft {
        Some(false)
    } else {
        None
    }
}

/// Fold the maximal run of pointer moves starting at `*pos` into one shift
/// instruction carrying the net displacement, advancing the cursor past the
/// run.
#[verifier::loop_isolation(false)]
pub fn optimize_ptr(nodes: &Vec<Node>, pos: &mut usize) -> (r: Instruction)
    requires
        *old(pos) <= nodes@.len(),
    ensures
        r == shift_of(move_net(nodes@.skip(*old(pos) as int))),
        *final(pos) == *old(pos) + move_run(nodes@.skip(*old(pos) as int)),
{
    let ghost p0 = *pos as int;
    let len = nodes.len();
    let mut rights: usize = 0;
    let mut lefts: usize = 0;
    let mut going = move_kind_at(nodes, *pos);
    while going.is_some()
        invariant
            p0 <= *pos <= nodes@.len(),
            going == move_kind_at_spec(nodes@, *pos as int),
            rights + lefts == *pos - p0,
            move_net(nodes@.skip(p0)) == rights - lefts + move_net(nodes@.skip(*pos as int)),
            move_run(nodes@.skip(p0)) == (*pos - p0) + move_run(nodes@.skip(*pos as int)),
        decreases nodes@.len() - *pos,
    {
        let ghost i = *pos as int;
        proof {
            assert(nodes@.skip(i)[0] == nodes@[i]);
            assert(nodes@.skip(i).skip(1) =~= nodes@.skip(i + 1));
        }
        if going == Some(true) {
            rights = rights + 1;
        } else {
            lefts = lefts + 1;
        }
        *pos = *pos + 1;
        going = move_kind_at(nodes, *pos);
    }
    proof {
        assert(move_net(nodes@.skip(*pos as int)) == 0);
        assert(move_run(nodes@.skip(*pos as int)) == 0);
    }
    if rights > lefts {
        Instruction::Right(#[verifier::truncate] ((rights - lefts) as u16))
    } else {
        Instruction::Left(#[verifier::truncate] ((lefts - rights) as u16))
    }
}

/// Generate the raw (per-body optimized, top level unoptimized) instruction
/// sequence for an operation sequence, in source order.
#[verifier::loop_isolation(false)]
#[verifier::rlimit(50)]
pub fn generate_raw_code(nodes: &Vec<Node>) -> (r: Vec<Instruction>)
    ensures
        r@ == gen(nodes@),
    decreases nodes@,
{
    let mut out: Vec<Instruction> = Vec::new();
    let mut i: usize = 0;
    proof {
        assert(nodes@.skip(0) =~= nodes@);
        assert(out@ + gen(nodes@.skip(0)) =~= gen(nodes@));
    }
    while i < nodes.len()
        invariant
            i <= nodes@.len(),
            gen(nodes@) == out@ + gen(nodes@.skip(i as int)),
        decreases nodes@.len() - i,
    {
        let ghost i0 = i as int;
        let ghost s = nodes@.skip(i0);
        proof {
            assert(s[0] == nodes@[i0]);
            assert(s.skip(1) =~= nodes@.skip(i0 + 1));
        }
        let ghost out0 = out@;
        match &nodes[i] {
            Node::Loop(body) => {
                proof {
                    assert(decreases_to!(nodes@ => nodes@[i0]));
                    assert(decreases_to!(nodes@[i0] => nodes@[i0]->Loop_0));
                    assert(decreases_to!(nodes@[i0]->Loop_0 => nodes@[i0]->Loop_0@));
                    assert(body@ == nodes@[i0]->Loop_0@);
                }
                let inner_raw = generate_raw_code(body);
                let inner = optimize_instruction_chain(&inner_raw);
                let inner_size = inner.len();
                let d = (#[verifier::truncate] (inner_size as u16)).wrapping_add(1);
                proof {
                    assert(d == jump_dist(opt_chain(gen(body@)).len()));
                }
                out.push(Instruction::Jez(d));
                let mut k: usize = 0;
                while k < inner.len()
                    invariant
                        k <= inner@.len(),
                        out@ =~= out0 + seq![Instruction::Jez(d)] + inner@.take(k as int),
                    decreases inner@.len() - k,
                {
                    out.push(inner[k]);
                    k += 1;
                }
                out.push(Instruction::Jnz(d));
                i += 1;
                proof {
                    assert(gen(s) == seq![Instruction::Jez(d)] + opt_chain(gen(body@))
                        + seq![Instruction::Jnz(d)] + gen(s.skip(1)));
                    assert(out@ =~= out0 + seq![Instruction::Jez(d)] + inner@
                        + seq![Instruction::Jnz(d)]);
                    assert(out@ + gen(nodes@.skip(i as int)) =~= out0 + gen(s));
                }
            },
            Node::Increment | Node::Decrement => {
                let acc = optimize_math(0, nodes, &mut i);
                out.push(Instruction::Add(acc));
                proof {
                    lemma_math_run_le(s);
                    assert(gen(s) == seq![Instruction::Add(math_acc(s, 0))] + gen(
                        s.skip(math_run(s) as int),
                    ));
                    assert(s.skip(math_run(s) as int) =~= nodes@.skip(i as int));
                    assert(out@ + gen(nodes@.skip(i as int)) =~= out0 + gen(s));
                }
            },
            Node::MoveRight | Node::MoveLeft => {
                let ins = optimize_ptr(nodes, &mut i);
                out.push(ins);
                proof {
                    lemma_move_run_le(s);
                    assert(gen(s) == seq![shift_of(move_net(s))] + gen(
                        s.skip(move_run(s) as int),
                    ));
                    assert(s.skip(move_run(s) as int) =~= nodes@.skip(i as int));
                    assert(out@ + gen(nodes@.skip(i as int)) =~= out0 + gen(s));
                }
            },
            Node::Output => {
                out.push(Instruction::Write);
                i += 1;
                proof {
                    assert(out@ + gen(nodes@.skip(i as int)) =~= out0 + gen(s));
                }
            },
            Node::Input => {
                out.push(Instruction::Read);
                i += 1;
                proof {
                    assert(out@ + gen(nodes@.skip(i as int)) =~= out0 + gen(s));
                }
            },
            Node::Halt => {
                out.push(Instruction::Halt);
                i += 1;
                proof {
                    assert(out@ + gen(nodes@.skip(i as int)) =~= out0 + gen(s));
                }
            },
        }
    }
    proof {
        assert(nodes@.skip(i as int) =~= Seq::<Node>::empty());
        assert(gen(nodes@.skip(i as int)) =~= Seq::<Instruction>::empty());
        assert(out@ =~= out@ + gen(nodes@.skip(i as int)));
    }
    out
}

/// Compile an operation sequence: raw generation in source order, then the
/// peephole passes over the top-level sequence. Loop bodies are optimized
/// during generation, before their bracketing jumps are emitted.
pub fn generate_code(nodes: Vec<Node>) -> (r: Vec<Instruction>)
    ensures
        r@ == opt_chain(gen(nodes@)),
{
    let code = generate_raw_code(&nodes);
    let code = optimize_instruction_chain(&code);
    code
}

} // verus!
