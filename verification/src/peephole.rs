//! Peephole optimization over instruction sequences: a fixed order of
//! window-matching passes, each a single left-to-right scan that splices a
//! one-instruction replacement over each matched window. A replacement is
//! re-examined as the start of a new window, but the scan never backtracks
//! into positions it has already passed.

use vstd::prelude::*;

use crate::common::Instruction;

verus! {

/// A clear-cell loop: a loop whose whole body toggles the current cell by
/// one, or zeroes it, which always leaves the cell at zero.
pub open spec fn zero_match(a: Instruction, b: Instruction, c: Instruction) -> bool {
    &&& a == Instruction::Jez(2u16)
    &&& (b == Instruction::Add(1u8) || b == Instruction::Add(255u8) || b == Instruction::Zero)
    &&& c == Instruction::Jnz(2u16)
}

/// The clear-cell fold: `Jez(2), Add(1)/Add(255)/Zero, Jnz(2)` becomes `Zero`.
pub open spec fn zero_pass(s: Seq<Instruction>) -> Seq<Instruction>
    decreases s.len(),
{
    if s.len() < 3 {
        s
    } else if zero_match(s[0], s[1], s[2]) {
        zero_pass(seq![Instruction::Zero] + s.skip(3))
    } else {
        seq![s[0]] + zero_pass(s.skip(1))
    }
}

/// Adjacent `Zero, Zero` collapses to one `Zero`.
pub open spec fn dedup_zero_match(a: Instruction, b: Instruction) -> bool {
    a == Instruction::Zero && b == Instruction::Zero
}

/// The zero-dedup fold.
pub open spec fn dedup_zero_pass(s: Seq<Instruction>) -> Seq<Instruction>
    decreases s.len(),
{
    if s.len() < 2 {
        s
    } else if dedup_zero_match(s[0], s[1]) {
        dedup_zero_pass(seq![Instruction::Zero] + s.skip(2))
    } else {
        seq![s[0]] + dedup_zero_pass(s.skip(1))
    }
}

/// A search loop: a loop whose whole body is one unconditional shift.
pub open spec fn search_match(a: Instruction, b: Instruction, c: Instruction) -> bool {
    &&& a == Instruction::Jez(2u16)
    &&& (b is Left || b is Right)
    &&& c == Instruction::Jnz(2u16)
}

/// The fused form of a search loop.
pub open spec fn search_repl(b: Instruction) -> Instruction {
    match b {
        Instruction::Left(n) => Instruction::SearchLeft(n),
        Instruction::Right(n) => Instruction::SearchRight(n),
        _ => b,
    }
}

/// The search fold: `Jez(2), Left(n)/Right(n), Jnz(2)` becomes
/// `SearchLeft(n)`/`SearchRight(n)`.
pub open spec fn search_pass(s: Seq<Instruction>) -> Seq<Instruction>
    decreases s.len(),
{
    if s.len() < 3 {
        s
    } else if search_match(s[0], s[1], s[2]) {
        search_pass(seq![search_repl(s[1])] + s.skip(3))
    } else {
        seq![s[0]] + search_pass(s.skip(1))
    }
}

/// A move-cell loop: decrement here, step over, increment there, step back,
/// with matching shift magnitudes in either order.
pub open spec fn move_cell_match(
    a: Instruction,
    b: Instruction,
    c: Instruction,
    d: Instruction,
    e: Instruction,
    f: Instruction,
) -> bool {
    &&& a is Jez
    &&& b == Instruction::Add(255u8)
    &&& d == Instruction::Add(1u8)
    &&& f is Jnz
    &&& {
        ||| (c matches Instruction::Right(r) && e matches Instruction::Left(l) && r == l)
        ||| (c matches Instruction::Left(l) && e matches Instruction::Right(r) && r == l)
    }
}

/// The fused form of a move-cell loop, directed by its first shift.
pub open spec fn move_cell_repl(c: Instruction) -> Instruction {
    match c {
        Instruction::Right(r) => Instruction::AddMoveRight(r),
        Instruction::Left(l) => Instruction::AddMoveLeft(l),
        _ => c,
    }
}

/// The move-cell fold over six-instruction windows.
pub open spec fn move_cell_pass(s: Seq<Instruction>) -> Seq<Instruction>
    decreases s.len(),
{
    if s.len() < 6 {
        s
    } else if move_cell_match(s[0], s[1], s[2], s[3], s[4], s[5]) {
        move_cell_pass(seq![move_cell_repl(s[2])] + s.skip(6))
    } else {
        seq![s[0]] + move_cell_pass(s.skip(1))
    }
}

/// A clear-then-step pair, or two adjacent fused clear runs of the same
/// direction.
pub open spec fn zero_area_match(a: Instruction, b: Instruction) -> bool {
    ||| (a == Instruction::Zero && b == Instruction::Right(1u16))
    ||| (a is ZeroRight && b is ZeroRight)
    ||| (a == Instruction::Zero && b == Instruction::Left(1u16))
    ||| (a is ZeroLeft && b is ZeroLeft)
}

/// The fused form of a clear-area window. Adjacent runs merge; the count
/// wraps at the payload width.
pub open spec fn zero_area_repl(a: Instruction, b: Instruction) -> Instruction {
    if a == Instruction::Zero && b == Instruction::Right(1u16) {
        Instruction::ZeroRight(1u16)
    } else if a is ZeroRight && b is ZeroRight {
        Instruction::ZeroRight((a->ZeroRight_0 + b->ZeroRight_0) as u16)
    } else if a == Instruction::Zero && b == Instruction::Left(1u16) {
        Instruction::ZeroLeft(1u16)
    } else {
        Instruction::ZeroLeft((a->ZeroLeft_0 + b->ZeroLeft_0) as u16)
    }
}

/// The zero-area fold over two-instruction windows.
pub open spec fn zero_area_pass(s: Seq<Instruction>) -> Seq<Instruction>
    decreases s.len(),
{
    if s.len() < 2 {
        s
    } else if zero_area_match(s[0], s[1]) {
        zero_area_pass(seq![zero_area_repl(s[0], s[1])] + s.skip(2))
    } else {
        seq![s[0]] + zero_area_pass(s.skip(1))
    }
}

/// The diffusion idiom: while the current cell is nonzero, step right by x,
/// transfer that cell n further right, and return, with x + n equal to the
/// return shift.
pub open spec fn mandel_match(
    a: Instruction,
    b: Instruction,
    c: Instruction,
    d: Instruction,
    e: Instruction,
) -> bool {
    &&& a == Instruction::Jez(4u16)
    &&& b is Right
    &&& c is AddMoveRight
    &&& d is Left
    &&& e == Instruction::Jnz(4u16)
    &&& b->Right_0 + c->AddMoveRight_0 == d->Left_0
}

/// The diffusion fold over five-instruction windows.
pub open spec fn mandel_pass(s: Seq<Instruction>) -> Seq<Instruction>
    decreases s.len(),
{
    if s.len() < 5 {
        s
    } else if mandel_match(s[0], s[1], s[2], s[3], s[4]) {
        mandel_pass(seq![Instruction::Mandel(s[1]->Right_0, s[2]->AddMoveRight_0)] + s.skip(5))
    } else {
        seq![s[0]] + mandel_pass(s.skip(1))
    }
}

/// The whole optimizer: the passes in their fixed order, with the zero-area
/// pass applied twice so that longer clear chains merge completely.
pub open spec fn opt_chain(s: Seq<Instruction>) -> Seq<Instruction> {
    mandel_pass(
        zero_area_pass(
            zero_area_pass(move_cell_pass(search_pass(dedup_zero_pass(zero_pass(s))))),
        ),
    )
}

/// A copy of `v` with the `w` instructions at `idx` replaced by `rep`.
fn splice(v: &Vec<Instruction>, idx: usize, w: usize, rep: Instruction) -> (r: Vec<Instruction>)
    requires
        idx + w <= v@.len(),
    ensures
        r@ == v@.take(idx as int) + seq![rep] + v@.skip((idx + w) as int),
{
    let mut r: Vec<Instruction> = Vec::new();
    let mut i: usize = 0;
    while i < idx
        invariant
            i <= idx,
            idx + w <= v@.len(),
            r@ =~= v@.take(i as int),
        decreases idx - i,
    {
        r.push(v[i]);
        i += 1;
    }
    r.push(rep);
    let vlen = v.len();
    let mut j: usize = idx + w;
    while j < v.len()
        invariant
            idx + w <= j <= v@.len(),
            r@ =~= v@.take(idx as int) + seq![rep] + v@.subrange((idx + w) as int, j as int),
        decreases v@.len() - j,
    {
        r.push(v[j]);
        j += 1;
    }
    proof {
        assert(r@ =~= v@.take(idx as int) + seq![rep] + v@.skip((idx + w) as int));
    }
    r
}

/// The clear-cell fold as executable code.
#[verifier::loop_isolation(false)]
pub fn zero(instrs: &mut Vec<Instruction>)
    ensures
        final(instrs)@ == zero_pass(old(instrs)@),
{
    let ghost orig = instrs@;
    let mut idx: usize = 0;
    proof {
        assert(instrs@.skip(0) =~= orig);
        assert(instrs@.take(0) + zero_pass(instrs@.skip(0)) =~= zero_pass(orig));
    }
    while idx < instrs.len() && instrs.len() - idx >= 3
        invariant
            idx <= instrs@.len(),
            zero_pass(orig) == instrs@.take(idx as int) + zero_pass(instrs@.skip(idx as int)),
        decreases 2 * instrs@.len() - idx,
    {
        let ghost prev = instrs@;
        let a = instrs[idx];
        let b = instrs[idx + 1];
        let c = instrs[idx + 2];
        proof {
            assert(prev.skip(idx as int)[0] == a);
            assert(prev.skip(idx as int)[1] == b);
            assert(prev.skip(idx as int)[2] == c);
        }
        if a == Instruction::Jez(2) && (b == Instruction::Add(1) || b == Instruction::Add(255)
            || b == Instruction::Zero) && c == Instruction::Jnz(2) {
            let replaced = splice(instrs, idx, 3, Instruction::Zero);
            *instrs = replaced;
            proof {
                assert(prev.skip(idx as int).skip(3) =~= prev.skip(idx + 3));
                assert(instrs@.skip(idx as int) =~= seq![Instruction::Zero] + prev.skip(idx + 3));
                assert(instrs@.take(idx as int) =~= prev.take(idx as int));
                assert(zero_pass(prev.skip(idx as int)) == zero_pass(
                    instrs@.skip(idx as int),
                ));
            }
        } else {
            proof {
                assert(!zero_match(a, b, c));
                assert(prev.skip(idx as int).skip(1) =~= prev.skip(idx + 1));
                assert(zero_pass(prev.skip(idx as int)) == seq![a] + zero_pass(
                    prev.skip(idx + 1),
                ));
                assert(prev.take(idx + 1) =~= prev.take(idx as int) + seq![a]);
                assert(prev.take(idx as int) + (seq![a] + zero_pass(prev.skip(idx + 1)))
                    =~= prev.take(idx + 1) + zero_pass(prev.skip(idx + 1)));
            }
            idx += 1;
        }
    }
    proof {
        assert(zero_pass(instrs@.skip(idx as int)) == instrs@.skip(idx as int));
        assert(instrs@.take(idx as int) + instrs@.skip(idx as int) =~= instrs@);
    }
}

/// The zero-dedup fold as executable code.
#[verifier::loop_isolation(false)]
pub fn dedup_zero(instrs: &mut Vec<Instruction>)
    ensures
        final(instrs)@ == dedup_zero_pass(old(instrs)@),
{
    let ghost orig = instrs@;
    let mut idx: usize = 0;
    proof {
        assert(instrs@.skip(0) =~= orig);
        assert(instrs@.take(0) + dedup_zero_pass(instrs@.skip(0)) =~= dedup_zero_pass(orig));
    }
    while idx < instrs.len() && instrs.len() - idx >= 2
        invariant
            idx <= instrs@.len(),
            dedup_zero_pass(orig) == instrs@.take(idx as int) + dedup_zero_pass(
                instrs@.skip(idx as int),
            ),
        decreases 2 * instrs@.len() - idx,
    {
        let ghost prev = instrs@;
        let a = instrs[idx];
        let b = instrs[idx + 1];
        proof {
            assert(prev.skip(idx as int)[0] == a);
            assert(prev.skip(idx as int)[1] == b);
        }
        if a == Instruction::Zero && b == Instruction::Zero {
            let replaced = splice(instrs, idx, 2, Instruction::Zero);
            *instrs = replaced;
            proof {
                assert(prev.skip(idx as int).skip(2) =~= prev.skip(idx + 2));
                assert(instrs@.skip(idx as int) =~= seq![Instruction::Zero] + prev.skip(idx + 2));
                assert(instrs@.take(idx as int) =~= prev.take(idx as int));
                assert(dedup_zero_pass(prev.skip(idx as int)) == dedup_zero_pass(
                    instrs@.skip(idx as int),
                ));
            }
        } else {
            proof {
                assert(!dedup_zero_match(a, b));
                assert(prev.skip(idx as int).skip(1) =~= prev.skip(idx + 1));
                assert(dedup_zero_pass(prev.skip(idx as int)) == seq![a] + dedup_zero_pass(
                    prev.skip(idx + 1),
                ));
                assert(prev.take(idx + 1) =~= prev.take(idx as int) + seq![a]);
                assert(prev.take(idx as int) + (seq![a] + dedup_zero_pass(prev.skip(idx + 1)))
                    =~= prev.take(idx + 1) + dedup_zero_pass(prev.skip(idx + 1)));
            }
            idx += 1;
        }
    }
    proof {
        assert(dedup_zero_pass(instrs@.skip(idx as int)) == instrs@.skip(idx as int));
        assert(instrs@.take(idx as int) + instrs@.skip(idx as int) =~= instrs@);
    }
}

/// The search fold as executable code.
#[verifier::loop_isolation(false)]
pub fn search(instrs: &mut Vec<Instruction>)
    ensures
        final(instrs)@ == search_pass(old(instrs)@),
{
    let ghost orig = instrs@;
    let mut idx: usize = 0;
    proof {
        assert(instrs@.skip(0) =~= orig);
        assert(instrs@.take(0) + search_pass(instrs@.skip(0)) =~= search_pass(orig));
    }
    while idx < instrs.len() && instrs.len() - idx >= 3
        invariant
            idx <= instrs@.len(),
            search_pass(orig) == instrs@.take(idx as int) + search_pass(instrs@.skip(idx as int)),
        decreases 2 * instrs@.len() - idx,
    {
        let ghost prev = instrs@;
        let a = instrs[idx];
        let b = instrs[idx + 1];
        let c = instrs[idx + 2];
        proof {
            assert(prev.skip(idx as int)[0] == a);
            assert(prev.skip(idx as int)[1] == b);
            assert(prev.skip(idx as int)[2] == c);
        }
        let rep: Option<Instruction> = if a == Instruction::Jez(2) && c == Instruction::Jnz(2) {
            match b {
                Instruction::Left(n) => Some(Instruction::SearchLeft(n)),
                Instruction::Right(n) => Some(Instruction::SearchRight(n)),
                _ => None,
            }
        } else {
            None
        };
        match rep {
            Some(fused) => {
                proof {
                    assert(search_match(a, b, c));
                    assert(fused == search_repl(b));
                }
                let replaced = splice(instrs, idx, 3, fused);
                *instrs = replaced;
                proof {
                    assert(prev.skip(idx as int).skip(3) =~= prev.skip(idx + 3));
                    assert(instrs@.skip(idx as int) =~= seq![fused] + prev.skip(idx + 3));
                    assert(instrs@.take(idx as int) =~= prev.take(idx as int));
                    assert(search_pass(prev.skip(idx as int)) == search_pass(
                        instrs@.skip(idx as int),
                    ));
                }
            },
            None => {
                proof {
                    assert(!search_match(a, b, c));
                    assert(prev.skip(idx as int).skip(1) =~= prev.skip(idx + 1));
                    assert(search_pass(prev.skip(idx as int)) == seq![a] + search_pass(
                        prev.skip(idx + 1),
                    ));
                    assert(prev.take(idx + 1) =~= prev.take(idx as int) + seq![a]);
                    assert(prev.take(idx as int) + (seq![a] + search_pass(prev.skip(idx + 1)))
                        =~= prev.take(idx + 1) + search_pass(prev.skip(idx + 1)));
                }
                idx += 1;
            },
        }
    }
    proof {
        assert(search_pass(instrs@.skip(idx as int)) == instrs@.skip(idx as int));
        assert(instrs@.take(idx as int) + instrs@.skip(idx as int) =~= instrs@);
    }
}

/// The move-cell fold as executable code.
#[verifier::loop_isolation(false)]
pub fn move_cell(instrs: &mut Vec<Instruction>)
    ensures
        final(instrs)@ == move_cell_pass(old(instrs)@),
{
    let ghost orig = instrs@;
    let mut idx: usize = 0;
    proof {
        assert(instrs@.skip(0) =~= orig);
        assert(instrs@.take(0) + move_cell_pass(instrs@.skip(0)) =~= move_cell_pass(orig));
    }
    while idx < instrs.len() && instrs.len() - idx >= 6
        invariant
            idx <= instrs@.len(),
            move_cell_pass(orig) == instrs@.take(idx as int) + move_cell_pass(
                instrs@.skip(idx as int),
            ),
        decreases 2 * instrs@.len() - idx,
    {
        let ghost prev = instrs@;
        let a = instrs[idx];
        let b = instrs[idx + 1];
        let c = instrs[idx + 2];
        let d = instrs[idx + 3];
        let e = instrs[idx + 4];
        let f = instrs[idx + 5];
        proof {
            assert(prev.skip(idx as int)[0] == a);
            assert(prev.skip(idx as int)[1] == b);
            assert(prev.skip(idx as int)[2] == c);
            assert(prev.skip(idx as int)[3] == d);
            assert(prev.skip(idx as int)[4] == e);
            assert(prev.skip(idx as int)[5] == f);
        }
        let rep: Option<Instruction> = if matches!(a, Instruction::Jez(_)) && matches!(
            f,
            Instruction::Jnz(_),
        ) && b == Instruction::Add(255) && d == Instruction::Add(1) {
            match (c, e) {
                (Instruction::Right(r), Instruction::Left(l)) => if r == l {
                    Some(Instruction::AddMoveRight(r))
                } else {
                    None
                },
                (Instruction::Left(l), Instruction::Right(r)) => if r == l {
                    Some(Instruction::AddMoveLeft(l))
                } else {
                    None
                },
                _ => None,
            }
        } else {
            None
        };
        match rep {
            Some(fused) => {
                proof {
                    assert(move_cell_match(a, b, c, d, e, f));
                    assert(fused == move_cell_repl(c));
                }
                let replaced = splice(instrs, idx, 6, fused);
                *instrs = replaced;
                proof {
                    assert(prev.skip(idx as int).skip(6) =~= prev.skip(idx + 6));
                    assert(instrs@.skip(idx as int) =~= seq![fused] + prev.skip(idx + 6));
                    assert(instrs@.take(idx as int) =~= prev.take(idx as int));
                    assert(move_cell_pass(prev.skip(idx as int)) == move_cell_pass(
                        instrs@.skip(idx as int),
                    ));
                }
            },
            None => {
                proof {
                    assert(!move_cell_match(a, b, c, d, e, f));
                    assert(prev.skip(idx as int).skip(1) =~= prev.skip(idx + 1));
                    assert(move_cell_pass(prev.skip(idx as int)) == seq![a] + move_cell_pass(
                        prev.skip(idx + 1),
                    ));
                    assert(prev.take(idx + 1) =~= prev.take(idx as int) + seq![a]);
                    assert(prev.take(idx as int) + (seq![a] + move_cell_pass(prev.skip(idx + 1)))
                        =~= prev.take(idx + 1) + move_cell_pass(prev.skip(idx + 1)));
                }
                idx += 1;
            },
        }
    }
    proof {
        assert(move_cell_pass(instrs@.skip(idx as int)) == instrs@.skip(idx as int));
        assert(instrs@.take(idx as int) + instrs@.skip(idx as int) =~= instrs@);
    }
}

/// The zero-area fold as executable code.
#[verifier::loop_isolation(false)]
pub fn zero_area(instrs: &mut Vec<Instruction>)
    ensures
        final(instrs)@ == zero_area_pass(old(instrs)@),
{
    let ghost orig = instrs@;
    let mut idx: usize = 0;
    proof {
        assert(instrs@.skip(0) =~= orig);
        assert(instrs@.take(0) + zero_area_pass(instrs@.skip(0)) =~= zero_area_pass(orig));
    }
    while idx < instrs.len() && instrs.len() - idx >= 2
        invariant
            idx <= instrs@.len(),
            zero_area_pass(orig) == instrs@.take(idx as int) + zero_area_pass(
                instrs@.skip(idx as int),
            ),
        decreases 2 * instrs@.len() - idx,
    {
        let ghost prev = instrs@;
        let a = instrs[idx];
        let b = instrs[idx + 1];
        proof {
            assert(prev.skip(idx as int)[0] == a);
            assert(prev.skip(idx as int)[1] == b);
        }
        let rep: Option<Instruction> = match (a, b) {
            (Instruction::Zero, Instruction::Right(n)) => if n == 1 {
                Some(Instruction::ZeroRight(1))
            } else {
                None
            },
            (Instruction::ZeroRight(n), Instruction::ZeroRight(m)) => {
                let sum = (n as u32) + (m as u32);
                Some(Instruction::ZeroRight(#[verifier::truncate] (sum as u16)))
            },
            (Instruction::Zero, Instruction::Left(n)) => if n == 1 {
                Some(Instruction::ZeroLeft(1))
            } else {
                None
            },
            (Instruction::ZeroLeft(n), Instruction::ZeroLeft(m)) => {
                let sum = (n as u32) + (m as u32);
                Some(Instruction::ZeroLeft(#[verifier::truncate] (sum as u16)))
            },
            _ => None,
        };
        match rep {
            Some(fused) => {
                proof {
                    assert(zero_area_match(a, b));
                    assert(fused == zero_area_repl(a, b));
                }
                let replaced = splice(instrs, idx, 2, fused);
                *instrs = replaced;
                proof {
                    assert(prev.skip(idx as int).skip(2) =~= prev.skip(idx + 2));
                    assert(instrs@.skip(idx as int) =~= seq![fused] + prev.skip(idx + 2));
                    assert(instrs@.take(idx as int) =~= prev.take(idx as int));
                    assert(zero_area_pass(prev.skip(idx as int)) == zero_area_pass(
                        instrs@.skip(idx as int),
                    ));
                }
            },
            None => {
                proof {
                    assert(!zero_area_match(a, b));
                    assert(prev.skip(idx as int).skip(1) =~= prev.skip(idx + 1));
                    assert(zero_area_pass(prev.skip(idx as int)) == seq![a] + zero_area_pass(
                        prev.skip(idx + 1),
                    ));
                    assert(prev.take(idx + 1) =~= prev.take(idx as int) + seq![a]);
                    assert(prev.take(idx as int) + (seq![a] + zero_area_pass(prev.skip(idx + 1)))
                        =~= prev.take(idx + 1) + zero_area_pass(prev.skip(idx + 1)));
                }
                idx += 1;
            },
        }
    }
    proof {
        assert(zero_area_pass(instrs@.skip(idx as int)) == instrs@.skip(idx as int));
        assert(instrs@.take(idx as int) + instrs@.skip(idx as int) =~= instrs@);
    }
}

/// The diffusion fold as executable code.
#[verifier::loop_isolation(false)]
pub fn mandel(instrs: &mut Vec<Instruction>)
    ensures
        final(instrs)@ == mandel_pass(old(instrs)@),
{
    let ghost orig = instrs@;
    let mut idx: usize = 0;
    proof {
        assert(instrs@.skip(0) =~= orig);
        assert(instrs@.take(0) + mandel_pass(instrs@.skip(0)) =~= mandel_pass(orig));
    }
    while idx < instrs.len() && instrs.len() - idx >= 5
        invariant
            idx <= instrs@.len(),
            mandel_pass(orig) == instrs@.take(idx as int) + mandel_pass(instrs@.skip(idx as int)),
        decreases 2 * instrs@.len() - idx,
    {
        let ghost prev = instrs@;
        let a = instrs[idx];
        let b = instrs[idx + 1];
        let c = instrs[idx + 2];
        let d = instrs[idx + 3];
        let e = instrs[idx + 4];
        proof {
            assert(prev.skip(idx as int)[0] == a);
            assert(prev.skip(idx as int)[1] == b);
            assert(prev.skip(idx as int)[2] == c);
            assert(prev.skip(idx as int)[3] == d);
            assert(prev.skip(idx as int)[4] == e);
        }
        let rep: Option<Instruction> = if a == Instruction::Jez(4) && e == Instruction::Jnz(4) {
            match (b, c, d) {
                (Instruction::Right(x), Instruction::AddMoveRight(n), Instruction::Left(q)) => if (
                x as u32) + (n as u32) == (q as u32) {
                    Some(Instruction::Mandel(x, n))
                } else {
                    None
                },
                _ => None,
            }
        } else {
            None
        };
        match rep {
            Some(fused) => {
                proof {
                    assert(mandel_match(a, b, c, d, e));
                    assert(fused == Instruction::Mandel(b->Right_0, c->AddMoveRight_0));
                }
                let replaced = splice(instrs, idx, 5, fused);
                *instrs = replaced;
                proof {
                    assert(prev.skip(idx as int).skip(5) =~= prev.skip(idx + 5));
                    assert(instrs@.skip(idx as int) =~= seq![fused] + prev.skip(idx + 5));
                    assert(instrs@.take(idx as int) =~= prev.take(idx as int));
                    assert(mandel_pass(prev.skip(idx as int)) == mandel_pass(
                        instrs@.skip(idx as int),
                    ));
                }
            },
            None => {
                proof {
                    assert(!mandel_match(a, b, c, d, e));
                    assert(prev.skip(idx as int).skip(1) =~= prev.skip(idx + 1));
                    assert(mandel_pass(prev.skip(idx as int)) == seq![a] + mandel_pass(
                        prev.skip(idx + 1),
                    ));
                    assert(prev.take(idx + 1) =~= prev.take(idx as int) + seq![a]);
                    assert(prev.take(idx as int) + (seq![a] + mandel_pass(prev.skip(idx + 1)))
                        =~= prev.take(idx + 1) + mandel_pass(prev.skip(idx + 1)));
                }
                idx += 1;
            },
        }
    }
    proof {
        assert(mandel_pass(instrs@.skip(idx as int)) == instrs@.skip(idx as int));
        assert(instrs@.take(idx as int) + instrs@.skip(idx as int) =~= instrs@);
    }
}

/// The whole optimizer as executable code: every pass in its fixed order,
/// zero-area twice.
pub fn optimize_instruction_chain(instrs: &Vec<Instruction>) -> (r: Vec<Instruction>)
    ensures
        r@ == opt_chain(instrs@),
{
    let mut v: Vec<Instruction> = Vec::new();
    let mut i: usize = 0;
    while i < instrs.len()
        invariant
            i <= instrs@.len(),
            v@ =~= instrs@.take(i as int),
        decreases instrs@.len() - i,
    {
        v.push(instrs[i]);
        i += 1;
    }
    proof {
        assert(v@ =~= instrs@);
    }
    zero(&mut v);
    dedup_zero(&mut v);
    search(&mut v);
    move_cell(&mut v);
    zero_area(&mut v);
    zero_area(&mut v);
    mandel(&mut v);
    v
}

} // verus!
