//! The library's laws: proofs that the folds the code generator and the
//! peephole optimizer perform, and the fused instructions the virtual
//! machine executes, agree with the loops they replace.

use vstd::prelude::*;
use vstd::arithmetic::div_mod::{
    lemma_add_mod_noop_right, lemma_mod_add_multiples_vanish, lemma_small_mod,
};

use crate::codegen::{
    gen, is_math_node, is_move_node, math_acc, math_run, move_net, move_run, shift_of,
};
use crate::common::{Instruction, Node};
use crate::peephole::{
    dedup_zero_match, dedup_zero_pass, mandel_match, mandel_pass, move_cell_match, move_cell_pass,
    opt_chain, search_match, search_pass, zero_area_match, zero_area_pass, zero_match, zero_pass,
};
use crate::semantics::{
    add8, halted, lemma_reaches_step, lemma_reaches_trans, reaches, small_step, wrap, MState,
};

verus! {

/// How many of the nodes are `MoveRight`.
pub open spec fn count_rights(s: Seq<Node>) -> nat
    decreases s.len(),
{
    if s.len() == 0 {
        0
    } else {
        (if s[0] is MoveRight {
            1nat
        } else {
            0nat
        }) + count_rights(s.skip(1))
    }
}

/// How many of the nodes are `MoveLeft`.
pub open spec fn count_lefts(s: Seq<Node>) -> nat
    decreases s.len(),
{
    if s.len() == 0 {
        0
    } else {
        (if s[0] is MoveLeft {
            1nat
        } else {
            0nat
        }) + count_lefts(s.skip(1))
    }
}

proof fn lemma_math_acc_run(s: Seq<Node>, a: u8)
    requires
        forall|i: int| 0 <= i < s.len() ==> #[trigger] s[i] is Increment || s[i] is Decrement,
    ensures
        math_run(s) == s.len(),
        math_acc(s, a) as int == (a + count_incs(s) - count_decs(s)) % 256,
    decreases s.len(),
{
    if s.len() > 0 {
        assert(s[0] is Increment || s[0] is Decrement);
        let t = s.skip(1);
        assert(forall|i: int| 0 <= i < t.len() ==> #[trigger] t[i] is Increment || t[i]
            is Decrement) by {
            assert(forall|i: int| 0 <= i < t.len() ==> t[i] == s[i + 1]);
        }
        let a2 = if s[0] is Increment {
            crate::semantics::add8(a, 1)
        } else {
            crate::semantics::add8(a, 255)
        };
        lemma_math_acc_run(t, a2);
        if s[0] is Increment {
            assert(a2 as int == (a + 1) % 256);
            lemma_add_mod_noop_right(
                count_incs(t) - count_decs(t),
                a + 1,
                256,
            );
        } else {
            assert(a2 as int == (a + 255) % 256);
            lemma_mod_add_multiples_vanish(a - 1, 256);
            assert(a2 as int == (a - 1) % 256);
            lemma_add_mod_noop_right(
                count_incs(t) - count_decs(t),
                a - 1,
                256,
            );
        }
    } else {
        lemma_small_mod(a as nat, 256);
    }
}

/// How many of the nodes are `Increment`.
pub open spec fn count_incs(s: Seq<Node>) -> nat
    decreases s.len(),
{
    if s.len() == 0 {
        0
    } else {
        (if s[0] is Increment {
            1nat
        } else {
            0nat
        }) + count_incs(s.skip(1))
    }
}

/// How many of the nodes are `Decrement`.
pub open spec fn count_decs(s: Seq<Node>) -> nat
    decreases s.len(),
{
    if s.len() == 0 {
        0
    } else {
        (if s[0] is Decrement {
            1nat
        } else {
            0nat
        }) + count_decs(s.skip(1))
    }
}

proof fn lemma_counts_of_incs_decs(n: nat, m: nat)
    ensures
        count_incs(Seq::new(n, |i: int| Node::Increment) + Seq::new(
            m,
            |i: int| Node::Decrement,
        )) == n,
        count_decs(Seq::new(n, |i: int| Node::Increment) + Seq::new(
            m,
            |i: int| Node::Decrement,
        )) == m,
    decreases n + m,
{
    let s = Seq::new(n, |i: int| Node::Increment) + Seq::new(m, |i: int| Node::Decrement);
    if n > 0 {
        lemma_counts_of_incs_decs((n - 1) as nat, m);
        assert(s.skip(1) =~= Seq::new((n - 1) as nat, |i: int| Node::Increment) + Seq::new(
            m,
            |i: int| Node::Decrement,
        ));
    } else if m > 0 {
        lemma_counts_of_incs_decs(0, (m - 1) as nat);
        assert(s.skip(1) =~= Seq::new(0, |i: int| Node::Increment) + Seq::new(
            (m - 1) as nat,
            |i: int| Node::Decrement,
        ));
    }
}

/// Fold correctness: a standalone sequence of `n_inc` increments followed by
/// `m_dec` decrements compiles to a single `Add` whose payload is the net
/// delta modulo 256, and the optimizer leaves that single instruction alone.
pub proof fn lemma_fold_correctness(n_inc: nat, m_dec: nat)
    requires
        n_inc + m_dec > 0,
    ensures
        ({
            let nodes = Seq::new(n_inc, |i: int| Node::Increment) + Seq::new(
                m_dec,
                |i: int| Node::Decrement,
            );
            let payload = ((n_inc - m_dec) % 256) as u8;
            gen(nodes) == seq![Instruction::Add(payload)] && opt_chain(gen(nodes)) == seq![
                Instruction::Add(payload),
            ]
        }),
{
    let nodes = Seq::new(n_inc, |i: int| Node::Increment) + Seq::new(
        m_dec,
        |i: int| Node::Decrement,
    );
    assert(forall|i: int|
        0 <= i < nodes.len() ==> #[trigger] nodes[i] is Increment || nodes[i] is Decrement);
    lemma_math_acc_run(nodes, 0);
    lemma_counts_of_incs_decs(n_inc, m_dec);
    let payload = ((n_inc - m_dec) % 256) as u8;
    assert(math_acc(nodes, 0) == payload);
    assert(is_math_node(nodes[0]));
    assert(nodes.skip(nodes.len() as int) =~= Seq::<Node>::empty());
    assert(gen(nodes) == seq![Instruction::Add(payload)] + gen(Seq::<Node>::empty()));
    assert(gen(nodes) =~= seq![Instruction::Add(payload)]);
    lemma_singleton_fixpoint(Instruction::Add(payload));
}

/// Shift correctness: any interleaving of rights and lefts compiles to one
/// shift whose direction and magnitude are the net signed displacement,
/// rights counting +1 and lefts -1 (a net of zero becomes `Left(0)`).
pub proof fn lemma_shift_correctness(moves: Seq<Node>)
    requires
        moves.len() > 0,
        moves.len() <= 0xFFFF,
        forall|i: int| 0 <= i < moves.len() ==> is_move_node(#[trigger] moves[i]),
    ensures
        ({
            let net = count_rights(moves) - count_lefts(moves);
            &&& gen(moves) == seq![shift_of(net)]
            &&& (net > 0 ==> shift_of(net) == Instruction::Right(net as u16) && net as u16
                == net)
            &&& (net <= 0 ==> shift_of(net) == Instruction::Left((-net) as u16) && (-net) as u16
                == -net)
        }),
{
    lemma_move_net_counts(moves);
    let net = count_rights(moves) - count_lefts(moves);
    assert(move_net(moves) == net);
    assert(is_move_node(moves[0]));
    assert(moves.skip(moves.len() as int) =~= Seq::<Node>::empty());
    assert(gen(moves) == seq![shift_of(move_net(moves))] + gen(Seq::<Node>::empty()));
    assert(gen(moves) =~= seq![shift_of(net)]);
    lemma_count_bounds(moves);
}

proof fn lemma_move_net_counts(s: Seq<Node>)
    requires
        forall|i: int| 0 <= i < s.len() ==> is_move_node(#[trigger] s[i]),
    ensures
        move_run(s) == s.len(),
        move_net(s) == count_rights(s) - count_lefts(s),
    decreases s.len(),
{
    if s.len() > 0 {
        assert(is_move_node(s[0]));
        let t = s.skip(1);
        assert(forall|i: int| 0 <= i < t.len() ==> is_move_node(#[trigger] t[i])) by {
            assert(forall|i: int| 0 <= i < t.len() ==> t[i] == s[i + 1]);
        }
        lemma_move_net_counts(t);
    }
}

proof fn lemma_count_bounds(s: Seq<Node>)
    ensures
        count_rights(s) <= s.len(),
        count_lefts(s) <= s.len(),
    decreases s.len(),
{
    if s.len() > 0 {
        lemma_count_bounds(s.skip(1));
    }
}

/// No window of the clear-cell shape anywhere in the sequence.
pub open spec fn no_zero_windows(s: Seq<Instruction>) -> bool {
    forall|i: int|
        0 <= i && i + 3 <= s.len() ==> !zero_match(#[trigger] s[i], s[i + 1], s[i + 2])
}

/// No adjacent `Zero, Zero` anywhere in the sequence.
pub open spec fn no_dedup_zero_windows(s: Seq<Instruction>) -> bool {
    forall|i: int| 0 <= i && i + 2 <= s.len() ==> !dedup_zero_match(#[trigger] s[i], s[i + 1])
}

/// No window of the search-loop shape anywhere in the sequence.
pub open spec fn no_search_windows(s: Seq<Instruction>) -> bool {
    forall|i: int|
        0 <= i && i + 3 <= s.len() ==> !search_match(#[trigger] s[i], s[i + 1], s[i + 2])
}

/// No window of the move-cell shape anywhere in the sequence.
pub open spec fn no_move_cell_windows(s: Seq<Instruction>) -> bool {
    forall|i: int|
        0 <= i && i + 6 <= s.len() ==> !move_cell_match(
            #[trigger] s[i],
            s[i + 1],
            s[i + 2],
            s[i + 3],
            s[i + 4],
            s[i + 5],
        )
}

/// No window of the clear-area shape anywhere in the sequence.
pub open spec fn no_zero_area_windows(s: Seq<Instruction>) -> bool {
    forall|i: int| 0 <= i && i + 2 <= s.len() ==> !zero_area_match(#[trigger] s[i], s[i + 1])
}

/// No window of the diffusion shape anywhere in the sequence.
pub open spec fn no_mandel_windows(s: Seq<Instruction>) -> bool {
    forall|i: int|
        0 <= i && i + 5 <= s.len() ==> !mandel_match(
            #[trigger] s[i],
            s[i + 1],
            s[i + 2],
            s[i + 3],
            s[i + 4],
        )
}

/// A sequence none of whose windows matches any pass.
pub open spec fn irreducible(s: Seq<Instruction>) -> bool {
    &&& no_zero_windows(s)
    &&& no_dedup_zero_windows(s)
    &&& no_search_windows(s)
    &&& no_move_cell_windows(s)
    &&& no_zero_area_windows(s)
    &&& no_mandel_windows(s)
}

proof fn lemma_zero_pass_fixpoint(s: Seq<Instruction>)
    requires
        no_zero_windows(s),
    ensures
        zero_pass(s) == s,
    decreases s.len(),
{
    if s.len() >= 3 {
        assert(!zero_match(s[0], s[1], s[2]));
        let t = s.skip(1);
        assert(forall|i: int| 0 <= i < t.len() ==> t[i] == s[i + 1]);
        lemma_zero_pass_fixpoint(t);
        assert(seq![s[0]] + t =~= s);
    }
}

proof fn lemma_dedup_zero_pass_fixpoint(s: Seq<Instruction>)
    requires
        no_dedup_zero_windows(s),
    ensures
        dedup_zero_pass(s) == s,
    decreases s.len(),
{
    if s.len() >= 2 {
        assert(!dedup_zero_match(s[0], s[1]));
        let t = s.skip(1);
        assert(forall|i: int| 0 <= i < t.len() ==> t[i] == s[i + 1]);
        lemma_dedup_zero_pass_fixpoint(t);
        assert(seq![s[0]] + t =~= s);
    }
}

proof fn lemma_search_pass_fixpoint(s: Seq<Instruction>)
    requires
        no_search_windows(s),
    ensures
        search_pass(s) == s,
    decreases s.len(),
{
    if s.len() >= 3 {
        assert(!search_match(s[0], s[1], s[2]));
        let t = s.skip(1);
        assert(forall|i: int| 0 <= i < t.len() ==> t[i] == s[i + 1]);
        lemma_search_pass_fixpoint(t);
        assert(seq![s[0]] + t =~= s);
    }
}

proof fn lemma_move_cell_pass_fixpoint(s: Seq<Instruction>)
    requires
        no_move_cell_windows(s),
    ensures
        move_cell_pass(s) == s,
    decreases s.len(),
{
    if s.len() >= 6 {
        assert(!move_cell_match(s[0], s[1], s[2], s[3], s[4], s[5]));
        let t = s.skip(1);
        assert(forall|i: int| 0 <= i < t.len() ==> t[i] == s[i + 1]);
        lemma_move_cell_pass_fixpoint(t);
        assert(seq![s[0]] + t =~= s);
    }
}

proof fn lemma_zero_area_pass_fixpoint(s: Seq<Instruction>)
    requires
        no_zero_area_windows(s),
    ensures
        zero_area_pass(s) == s,
    decreases s.len(),
{
    if s.len() >= 2 {
        assert(!zero_area_match(s[0], s[1]));
        let t = s.skip(1);
        assert(forall|i: int| 0 <= i < t.len() ==> t[i] == s[i + 1]);
        lemma_zero_area_pass_fixpoint(t);
        assert(seq![s[0]] + t =~= s);
    }
}

proof fn lemma_mandel_pass_fixpoint(s: Seq<Instruction>)
    requires
        no_mandel_windows(s),
    ensures
        mandel_pass(s) == s,
    decreases s.len(),
{
    if s.len() >= 5 {
        assert(!mandel_match(s[0], s[1], s[2], s[3], s[4]));
        let t = s.skip(1);
        assert(forall|i: int| 0 <= i < t.len() ==> t[i] == s[i + 1]);
        lemma_mandel_pass_fixpoint(t);
        assert(seq![s[0]] + t =~= s);
    }
}

/// Optimization stability: a sequence in which no pass finds a window is a
/// fixed point of the whole optimizer, so running the optimizer again over
/// such an already-optimized sequence changes nothing.
pub proof fn lemma_optimize_fixpoint(s: Seq<Instruction>)
    requires
        irreducible(s),
    ensures
        opt_chain(s) == s,
{
    lemma_zero_pass_fixpoint(s);
    lemma_dedup_zero_pass_fixpoint(s);
    lemma_search_pass_fixpoint(s);
    lemma_move_cell_pass_fixpoint(s);
    lemma_zero_area_pass_fixpoint(s);
    lemma_mandel_pass_fixpoint(s);
}

/// A single instruction has no windows at all, so the optimizer leaves it
/// alone.
pub proof fn lemma_singleton_fixpoint(x: Instruction)
    ensures
        opt_chain(seq![x]) == seq![x],
{
    lemma_optimize_fixpoint(seq![x]);
}


/// The compiled form of the clear loop `[-]`.
pub open spec fn clear_loop_prog() -> Seq<Instruction> {
    seq![
        Instruction::Jez(2u16),
        Instruction::Add(255u8),
        Instruction::Jnz(2u16),
        Instruction::Halt,
    ]
}

/// The fused form of the clear loop.
pub open spec fn fused_clear_prog() -> Seq<Instruction> {
    seq![Instruction::Zero, Instruction::Halt]
}

proof fn lemma_clear_body(s: MState)
    requires
        s.pc == 1,
        s.tape.len() > 0,
        s.ptr < s.tape.len(),
        s.tape[s.ptr as int] != 0,
    ensures
        reaches(
            clear_loop_prog(),
            s,
            MState { pc: 3, tape: s.tape.update(s.ptr as int, 0), ..s },
        ),
    decreases s.tape[s.ptr as int],
{
    let prog = clear_loop_prog();
    let p = s.ptr as int;
    let v = s.tape[p];
    let s1 = small_step(prog, s);
    lemma_reaches_step(prog, s);
    lemma_mod_add_multiples_vanish(v - 1, 256);
    lemma_small_mod((v - 1) as nat, 256);
    assert(s1.tape[p] == (v - 1) as u8);
    assert(s1.pc == 2);
    let s2 = small_step(prog, s1);
    lemma_reaches_step(prog, s1);
    if v == 1 {
        assert(s2 =~= (MState { pc: 3, tape: s.tape.update(p, 0), ..s })) by {
            assert(s1.tape =~= s.tape.update(p, 0));
        }
        lemma_reaches_trans(prog, s, s1, s2);
    } else {
        assert(s2.pc == 1);
        assert(s2.tape[p] == (v - 1) as u8);
        lemma_clear_body(s2);
        let fin = MState { pc: 3, tape: s2.tape.update(p, 0), ..s2 };
        assert(fin =~= (MState { pc: 3, tape: s.tape.update(p, 0), ..s })) by {
            assert(s2.tape.update(p, 0) =~= s.tape.update(p, 0));
        }
        lemma_reaches_trans(prog, s, s1, s2);
        lemma_reaches_trans(prog, s, s2, fin);
    }
}

/// Clear-loop equivalence: from any starting cell value, the compiled loop
/// `Jez(2), Add(255), Jnz(2)` and the fused `Zero` instruction both halt
/// with the current cell at zero and everything else unchanged.
pub proof fn lemma_clear_loop_equiv(s: MState)
    requires
        s.pc == 0,
        s.tape.len() > 0,
        s.ptr < s.tape.len(),
    ensures
        ({
            let target_tape = s.tape.update(s.ptr as int, 0);
            &&& reaches(clear_loop_prog(), s, MState { pc: 3, tape: target_tape, ..s })
            &&& halted(clear_loop_prog(), MState { pc: 3, tape: target_tape, ..s })
            &&& reaches(fused_clear_prog(), s, MState { pc: 1, tape: target_tape, ..s })
            &&& halted(fused_clear_prog(), MState { pc: 1, tape: target_tape, ..s })
        }),
{
    let prog = clear_loop_prog();
    let fprog = fused_clear_prog();
    let p = s.ptr as int;
    let target_tape = s.tape.update(p, 0);
    let s1 = small_step(prog, s);
    lemma_reaches_step(prog, s);
    if s.tape[p] == 0 {
        assert(s1 =~= (MState { pc: 3, tape: target_tape, ..s })) by {
            assert(target_tape =~= s.tape);
        }
    } else {
        assert(s1 =~= (MState { pc: 1, ..s }));
        lemma_clear_body(s1);
        lemma_reaches_trans(
            prog,
            s,
            s1,
            MState { pc: 3, tape: target_tape, ..s },
        );
    }
    let f1 = small_step(fprog, s);
    lemma_reaches_step(fprog, s);
    assert(f1 =~= (MState { pc: 1, tape: target_tape, ..s }));
}

/// The compiled form of the rightward search loop `[>]`.
pub open spec fn search_loop_prog() -> Seq<Instruction> {
    seq![
        Instruction::Jez(2u16),
        Instruction::Right(1u16),
        Instruction::Jnz(2u16),
        Instruction::Halt,
    ]
}

/// The fused form of the rightward search loop.
pub open spec fn fused_search_prog() -> Seq<Instruction> {
    seq![Instruction::SearchRight(1u16), Instruction::Halt]
}

/// The cell `j` places to the right of the pointer, wrapping.
pub open spec fn cell_at(tape: Seq<u8>, ptr: nat, j: int) -> u8 {
    tape[wrap(ptr as int + j, tape.len() as int)]
}

/// A run of `k` nonzero cells rightward from the pointer, bounded by a zero.
pub open spec fn nonzero_run(tape: Seq<u8>, ptr: nat, k: nat) -> bool {
    &&& forall|j: int| 0 <= j < k ==> #[trigger] cell_at(tape, ptr, j) != 0
    &&& cell_at(tape, ptr, k as int) == 0
}

proof fn lemma_search_body(s: MState, r: nat)
    requires
        s.pc == 1,
        s.tape.len() > 0,
        s.ptr < s.tape.len(),
        r >= 1,
        forall|j: int| 1 <= j < r ==> #[trigger] cell_at(s.tape, s.ptr, j) != 0,
        cell_at(s.tape, s.ptr, r as int) == 0,
    ensures
        reaches(
            search_loop_prog(),
            s,
            MState { pc: 3, ptr: wrap(s.ptr as int + r, s.tape.len() as int) as nat, ..s },
        ),
    decreases r,
{
    let prog = search_loop_prog();
    let m = s.tape.len() as int;
    let s1 = small_step(prog, s);
    lemma_reaches_step(prog, s);
    assert(s1.pc == 2 && s1.ptr == wrap(s.ptr as int + 1, m));
    let s2 = small_step(prog, s1);
    lemma_reaches_step(prog, s1);
    if r == 1 {
        assert(s1.tape[s1.ptr as int] == cell_at(s.tape, s.ptr, 1));
        assert(s2 =~= (MState { pc: 3, ptr: wrap(s.ptr as int + r, m) as nat, ..s }));
        lemma_reaches_trans(prog, s, s1, s2);
    } else {
        assert(cell_at(s.tape, s.ptr, 1) != 0);
        assert(s1.tape[s1.ptr as int] == cell_at(s.tape, s.ptr, 1));
        assert(s2 =~= (MState { pc: 1, ptr: wrap(s.ptr as int + 1, m) as nat, ..s }));
        assert forall|j: int| 1 <= j < r - 1 implies #[trigger] cell_at(
            s2.tape,
            s2.ptr,
            j,
        ) != 0 by {
            lemma_add_mod_noop_right(j, s.ptr as int + 1, m);
            assert(cell_at(s.tape, s.ptr, 1 + j) != 0);
        }
        assert(cell_at(s2.tape, s2.ptr, r - 1) == 0) by {
            lemma_add_mod_noop_right(r - 1, s.ptr as int + 1, m);
            assert(cell_at(s.tape, s.ptr, r as int) == 0);
        }
        lemma_search_body(s2, (r - 1) as nat);
        assert(wrap(s2.ptr as int + (r - 1), m) == wrap(s.ptr as int + r, m)) by {
            lemma_add_mod_noop_right(r - 1, s.ptr as int + 1, m);
        }
        let fin = MState { pc: 3, ptr: wrap(s.ptr as int + r, m) as nat, ..s };
        lemma_reaches_trans(prog, s, s1, s2);
        lemma_reaches_trans(prog, s, s2, fin);
    }
}

proof fn lemma_search_fused(s: MState, k: nat)
    requires
        s.pc == 0,
        s.tape.len() > 0,
        s.ptr < s.tape.len(),
        nonzero_run(s.tape, s.ptr, k),
    ensures
        reaches(
            fused_search_prog(),
            s,
            MState { pc: 1, ptr: wrap(s.ptr as int + k, s.tape.len() as int) as nat, ..s },
        ),
    decreases k,
{
    let prog = fused_search_prog();
    let m = s.tape.len() as int;
    let s1 = small_step(prog, s);
    lemma_reaches_step(prog, s);
    lemma_small_mod(s.ptr, s.tape.len() as nat);
    if k == 0 {
        assert(cell_at(s.tape, s.ptr, 0) == 0);
        assert(s.tape[s.ptr as int] == 0);
        assert(s1 =~= (MState { pc: 1, ptr: wrap(s.ptr as int + k, m) as nat, ..s }));
    } else {
        assert(cell_at(s.tape, s.ptr, 0) != 0);
        assert(s.tape[s.ptr as int] != 0);
        assert(s1 =~= (MState { ptr: wrap(s.ptr as int + 1, m) as nat, ..s }));
        assert(nonzero_run(s1.tape, s1.ptr, (k - 1) as nat)) by {
            assert forall|j: int| 0 <= j < k - 1 implies #[trigger] cell_at(
                s1.tape,
                s1.ptr,
                j,
            ) != 0 by {
                lemma_add_mod_noop_right(j, s.ptr as int + 1, m);
                assert(cell_at(s.tape, s.ptr, 1 + j) != 0);
            }
            lemma_add_mod_noop_right(k - 1, s.ptr as int + 1, m);
            assert(cell_at(s.tape, s.ptr, k as int) == 0);
        }
        lemma_search_fused(s1, (k - 1) as nat);
        assert(wrap(s1.ptr as int + (k - 1), m) == wrap(s.ptr as int + k, m)) by {
            lemma_add_mod_noop_right(k - 1, s.ptr as int + 1, m);
        }
        lemma_reaches_trans(
            prog,
            s,
            s1,
            MState { pc: 1, ptr: wrap(s.ptr as int + k, m) as nat, ..s },
        );
    }
}

/// Search-loop equivalence: from a tape holding a run of `k` nonzero cells
/// and then a zero, the compiled loop `Jez(2), Right(1), Jnz(2)` and the
/// fused `SearchRight(1)` both halt with the pointer exactly `k` cells to
/// the right (wrapping), and the tape unchanged.
pub proof fn lemma_search_loop_equiv(s: MState, k: nat)
    requires
        s.pc == 0,
        s.tape.len() > 0,
        s.ptr < s.tape.len(),
        nonzero_run(s.tape, s.ptr, k),
    ensures
        ({
            let dest = wrap(s.ptr as int + k, s.tape.len() as int) as nat;
            &&& reaches(search_loop_prog(), s, MState { pc: 3, ptr: dest, ..s })
            &&& halted(search_loop_prog(), MState { pc: 3, ptr: dest, ..s })
            &&& reaches(fused_search_prog(), s, MState { pc: 1, ptr: dest, ..s })
            &&& halted(fused_search_prog(), MState { pc: 1, ptr: dest, ..s })
        }),
{
    let prog = search_loop_prog();
    let m = s.tape.len() as int;
    let dest = wrap(s.ptr as int + k, m) as nat;
    let s1 = small_step(prog, s);
    lemma_reaches_step(prog, s);
    lemma_small_mod(s.ptr, s.tape.len() as nat);
    if k == 0 {
        assert(cell_at(s.tape, s.ptr, 0) == 0);
        assert(s.tape[s.ptr as int] == 0);
        assert(s1 =~= (MState { pc: 3, ptr: dest, ..s }));
    } else {
        assert(cell_at(s.tape, s.ptr, 0) != 0);
        assert(s.tape[s.ptr as int] != 0);
        assert(s1 =~= (MState { pc: 1, ..s }));
        assert forall|j: int| 1 <= j < k implies #[trigger] cell_at(s1.tape, s1.ptr, j) != 0 by {
            assert(cell_at(s.tape, s.ptr, j) != 0);
        }
        assert(cell_at(s1.tape, s1.ptr, k as int) == 0);
        lemma_search_body(s1, k);
        lemma_reaches_trans(prog, s, s1, MState { pc: 3, ptr: dest, ..s });
    }
    lemma_search_fused(s, k);
}


/// The compiled form of the move-cell loop `[->>>+<<<]`.
pub open spec fn move_loop_prog() -> Seq<Instruction> {
    seq![
        Instruction::Jez(5u16),
        Instruction::Add(255u8),
        Instruction::Right(3u16),
        Instruction::Add(1u8),
        Instruction::Left(3u16),
        Instruction::Jnz(5u16),
        Instruction::Halt,
    ]
}

/// The fused form of the move-cell loop.
pub open spec fn fused_move_prog() -> Seq<Instruction> {
    seq![Instruction::AddMoveRight(3u16), Instruction::Halt]
}

proof fn lemma_move_body(s: MState)
    requires
        s.pc == 1,
        s.tape.len() > 0,
        s.ptr < s.tape.len(),
        wrap(s.ptr as int + 3, s.tape.len() as int) != s.ptr as int,
        s.tape[s.ptr as int] != 0,
    ensures
        ({
            let m = s.tape.len() as int;
            let tgt = wrap(s.ptr as int + 3, m);
            reaches(
                move_loop_prog(),
                s,
                MState {
                    pc: 6,
                    tape: s.tape.update(tgt, add8(s.tape[tgt], s.tape[s.ptr as int])).update(
                        s.ptr as int,
                        0,
                    ),
                    ..s
                },
            )
        }),
    decreases s.tape[s.ptr as int],
{
    let prog = move_loop_prog();
    let m = s.tape.len() as int;
    let p = s.ptr as int;
    let tgt = wrap(p + 3, m);
    let c = s.tape[p];
    let t0 = s.tape[tgt];
    let s1 = small_step(prog, s);
    lemma_reaches_step(prog, s);
    lemma_mod_add_multiples_vanish(c - 1, 256);
    lemma_small_mod((c - 1) as nat, 256);
    assert(s1.pc == 2 && s1.tape =~= s.tape.update(p, (c - 1) as u8));
    let s2 = small_step(prog, s1);
    lemma_reaches_step(prog, s1);
    assert(s2.pc == 3 && s2.ptr == tgt);
    let s3 = small_step(prog, s2);
    lemma_reaches_step(prog, s2);
    assert(s3.pc == 4);
    assert(s3.tape =~= s.tape.update(p, (c - 1) as u8).update(tgt, add8(t0, 1)));
    let s4 = small_step(prog, s3);
    lemma_reaches_step(prog, s3);
    assert(wrap(tgt - 3, m) == p) by {
        lemma_add_mod_noop_right(-3, p + 3, m);
        lemma_small_mod(s.ptr, s.tape.len() as nat);
    }
    assert(s4.pc == 5 && s4.ptr == s.ptr);
    let s5 = small_step(prog, s4);
    lemma_reaches_step(prog, s4);
    lemma_reaches_trans(prog, s, s1, s2);
    lemma_reaches_trans(prog, s, s2, s3);
    lemma_reaches_trans(prog, s, s3, s4);
    lemma_reaches_trans(prog, s, s4, s5);
    if c == 1 {
        assert(s5.pc == 6);
        assert(s5 =~= (MState {
            pc: 6,
            tape: s.tape.update(tgt, add8(t0, c)).update(p, 0),
            ..s
        })) by {
            assert(s4.tape.update(p, 0) =~= s.tape.update(tgt, add8(t0, 1)).update(p, 0));
            assert(s4.tape[p] == 0);
            assert(s4.tape =~= s4.tape.update(p, 0)) by {
                assert(s4.tape.update(p, 0) =~= s4.tape);
            }
            assert(s4.tape =~= s.tape.update(tgt, add8(t0, c)).update(p, 0));
        }
    } else {
        assert(s5.pc == 1);
        assert(s5.tape[p] == (c - 1) as u8);
        assert(s5.ptr == s.ptr);
        assert(s5.tape[tgt] == add8(t0, 1));
        lemma_move_body(s5);
        let fin = MState {
            pc: 6,
            tape: s5.tape.update(tgt, add8(s5.tape[tgt], s5.tape[p])).update(p, 0),
            ..s5
        };
        lemma_reaches_trans(prog, s, s5, fin);
        assert(add8(add8(t0, 1), (c - 1) as u8) == add8(t0, c)) by {
            lemma_add_mod_noop_right(c - 1, t0 + 1, 256);
            lemma_small_mod(add8(t0, c) as nat, 256);
        }
        assert(fin.tape =~= s.tape.update(tgt, add8(t0, c)).update(p, 0));
        assert(fin =~= (MState {
            pc: 6,
            tape: s.tape.update(tgt, add8(t0, c)).update(p, 0),
            ..s
        }));
    }
}

/// Move-cell equivalence: with the target three cells away and distinct from
/// the source, the compiled loop `Jez(5), Add(255), Right(3), Add(1),
/// Left(3), Jnz(5)` and the fused `AddMoveRight(3)` both halt with the
/// source cell zeroed and the target holding source + target modulo 256.
pub proof fn lemma_move_cell_equiv(s: MState)
    requires
        s.pc == 0,
        s.tape.len() > 0,
        s.ptr < s.tape.len(),
        wrap(s.ptr as int + 3, s.tape.len() as int) != s.ptr as int,
    ensures
        ({
            let m = s.tape.len() as int;
            let tgt = wrap(s.ptr as int + 3, m);
            let final_tape = s.tape.update(
                tgt,
                add8(s.tape[tgt], s.tape[s.ptr as int]),
            ).update(s.ptr as int, 0);
            &&& reaches(move_loop_prog(), s, MState { pc: 6, tape: final_tape, ..s })
            &&& halted(move_loop_prog(), MState { pc: 6, tape: final_tape, ..s })
            &&& reaches(fused_move_prog(), s, MState { pc: 1, tape: final_tape, ..s })
            &&& halted(fused_move_prog(), MState { pc: 1, tape: final_tape, ..s })
        }),
{
    let prog = move_loop_prog();
    let fprog = fused_move_prog();
    let m = s.tape.len() as int;
    let p = s.ptr as int;
    let tgt = wrap(p + 3, m);
    let final_tape = s.tape.update(tgt, add8(s.tape[tgt], s.tape[p])).update(p, 0);
    let s1 = small_step(prog, s);
    lemma_reaches_step(prog, s);
    if s.tape[p] == 0 {
        assert(s1.pc == 6);
        lemma_small_mod(s.tape[tgt] as nat, 256);
        assert(add8(s.tape[tgt], 0) == s.tape[tgt]);
        assert(final_tape =~= s.tape);
        assert(s1 =~= (MState { pc: 6, tape: final_tape, ..s }));
    } else {
        assert(s1 =~= (MState { pc: 1, ..s }));
        lemma_move_body(s1);
        lemma_reaches_trans(prog, s, s1, MState { pc: 6, tape: final_tape, ..s });
    }
    let f1 = small_step(fprog, s);
    lemma_reaches_step(fprog, s);
    assert(f1 =~= (MState { pc: 1, tape: final_tape, ..s }));
}

} // verus!
