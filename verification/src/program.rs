//! The stack discipline of the two postfix programs.
//!
//! A boolean program is followed on a stack of flags, one per set, that say
//! whether the set is full or negated. A score program is followed by the
//! depth of its stack alone.

use vstd::prelude::*;
use crate::query::BooleanOp;
use crate::query::ScoreOp;

verus! {

/// The flags after one instruction, or `None` where the stack is too short.
/// An intersection is full or negated when both operands are, a union when
/// either is, and an exclusion when the lower operand is and the upper is
/// not; what is pushed from storage is plain.
pub open spec fn shape_step(op: BooleanOp, s: Seq<bool>) -> Option<Seq<bool>> {
    match op {
        BooleanOp::PushEmpty => Some(s.push(false)),
        BooleanOp::PushFull => Some(s.push(true)),
        BooleanOp::LoadPostings(_, _) => Some(s.push(false)),
        BooleanOp::LoadDeletions => Some(s.push(false)),
        BooleanOp::And => if s.len() >= 2 {
            Some(s.take(s.len() - 2).push(s[s.len() - 2] && s[s.len() - 1]))
        } else {
            None
        },
        BooleanOp::Or => if s.len() >= 2 {
            Some(s.take(s.len() - 2).push(s[s.len() - 2] || s[s.len() - 1]))
        } else {
            None
        },
        BooleanOp::AndNot => if s.len() >= 2 {
            Some(s.take(s.len() - 2).push(s[s.len() - 2] && !s[s.len() - 1]))
        } else {
            None
        },
    }
}

/// The flags after a whole program run from the flags `start`, or `None`
/// where some instruction finds the stack too short.
pub open spec fn shape_after(ops: Seq<BooleanOp>, start: Seq<bool>) -> Option<Seq<bool>>
    decreases ops.len(),
{
    if ops.len() == 0 {
        Some(start)
    } else {
        match shape_after(ops.drop_last(), start) {
            Some(s) => shape_step(ops.last(), s),
            None => None,
        }
    }
}

/// Run on an empty stack, the program never underflows and leaves one set.
pub open spec fn boolean_well_formed(ops: Seq<BooleanOp>) -> bool {
    match shape_after(ops, Seq::empty()) {
        Some(s) => s.len() == 1,
        None => false,
    }
}

/// The flag of the one set that a well-formed program leaves.
pub open spec fn result_flag(ops: Seq<BooleanOp>) -> bool {
    match shape_after(ops, Seq::empty()) {
        Some(s) => s.len() == 1 && s[0],
        None => false,
    }
}

/// The stack depth after one score instruction, or `None` on underflow.
pub open spec fn depth_step(op: ScoreOp, depth: nat) -> Option<nat> {
    match op {
        ScoreOp::Literal(_) => Some(depth + 1),
        ScoreOp::TermScore(_, _, _) => Some(depth + 1),
        ScoreOp::Combine(arity, _) => if depth >= arity {
            Some((depth - arity + 1) as nat)
        } else {
            None
        },
    }
}

/// The stack depth after a whole score program, or `None` on underflow.
pub open spec fn depth_after(ops: Seq<ScoreOp>, start: nat) -> Option<nat>
    decreases ops.len(),
{
    if ops.len() == 0 {
        Some(start)
    } else {
        match depth_after(ops.drop_last(), start) {
            Some(d) => depth_step(ops.last(), d),
            None => None,
        }
    }
}

/// Run on an empty stack, the program never underflows and leaves one score.
pub open spec fn score_well_formed(ops: Seq<ScoreOp>) -> bool {
    depth_after(ops, 0) == Some(1nat)
}

/// Running `a` and then `b` is running their concatenation.
pub proof fn lemma_shape_concat(a: Seq<BooleanOp>, b: Seq<BooleanOp>, start: Seq<bool>)
    ensures
        shape_after(a + b, start) == match shape_after(a, start) {
            Some(s) => shape_after(b, s),
            None => None,
        },
    decreases b.len(),
{
    if b.len() == 0 {
        assert(a + b =~= a);
    } else {
        assert((a + b).drop_last() =~= a + b.drop_last());
        assert((a + b).last() == b.last());
        lemma_shape_concat(a, b.drop_last(), start);
    }
}

/// A program of one instruction does what the instruction does.
pub proof fn lemma_shape_single(op: BooleanOp, start: Seq<bool>)
    ensures
        shape_after(seq![op], start) == shape_step(op, start),
{
    let ops = seq![op];
    assert(ops.drop_last() =~= Seq::<BooleanOp>::empty());
    assert(shape_after(ops.drop_last(), start) == Some(start));
    assert(ops.last() == op);
}

/// Running `a` and then `b` is running their concatenation.
pub proof fn lemma_depth_concat(a: Seq<ScoreOp>, b: Seq<ScoreOp>, start: nat)
    ensures
        depth_after(a + b, start) == match depth_after(a, start) {
            Some(d) => depth_after(b, d),
            None => None,
        },
    decreases b.len(),
{
    if b.len() == 0 {
        assert(a + b =~= a);
    } else {
        assert((a + b).drop_last() =~= a + b.drop_last());
        assert((a + b).last() == b.last());
        lemma_depth_concat(a, b.drop_last(), start);
    }
}

/// A program of one instruction does what the instruction does.
pub proof fn lemma_depth_single(op: ScoreOp, start: nat)
    ensures
        depth_after(seq![op], start) == depth_step(op, start),
{
    let ops = seq![op];
    assert(ops.drop_last() =~= Seq::<ScoreOp>::empty());
    assert(depth_after(ops.drop_last(), start) == Some(start));
    assert(ops.last() == op);
}

/// Follows a boolean program on a stack of flags. `Some(flag)` says that the
/// program is well formed and gives the flag of its result.
pub fn check_boolean_program(ops: &Vec<BooleanOp>) -> (verdict: Option<bool>)
    ensures
        verdict.is_some() == boolean_well_formed(ops@),
        verdict.is_some() ==> verdict.unwrap() == result_flag(ops@),
{
    let mut flags: Vec<bool> = Vec::new();
    let mut k: usize = 0;
    assert(ops@.take(0) =~= Seq::<BooleanOp>::empty());
    while k < ops.len()
        invariant
            k <= ops.len(),
            shape_after(ops@.take(k as int), Seq::empty()) == Some(flags@),
        decreases ops.len() - k,
    {
        proof {
            assert(ops@.take(k + 1).drop_last() =~= ops@.take(k as int));
            assert(ops@.take(k + 1).last() == ops@[k as int]);
        }
        let ghost before = flags@;
        match ops[k] {
            BooleanOp::PushEmpty => {
                flags.push(false);
            },
            BooleanOp::PushFull => {
                flags.push(true);
            },
            BooleanOp::LoadPostings(_, _) => {
                flags.push(false);
            },
            BooleanOp::LoadDeletions => {
                flags.push(false);
            },
            BooleanOp::And => {
                if flags.len() < 2 {
                    proof {
                        lemma_shape_stuck(ops@, k as int);
                    }
                    return None;
                }
                let b: bool = flags.pop().unwrap();
                let a: bool = flags.pop().unwrap();
                flags.push(a && b);
                assert(flags@ =~= shape_step(BooleanOp::And, before).unwrap());
            },
            BooleanOp::Or => {
                if flags.len() < 2 {
                    proof {
                        lemma_shape_stuck(ops@, k as int);
                    }
                    return None;
                }
                let b: bool = flags.pop().unwrap();
                let a: bool = flags.pop().unwrap();
                flags.push(a || b);
                assert(flags@ =~= shape_step(BooleanOp::Or, before).unwrap());
            },
            BooleanOp::AndNot => {
                if flags.len() < 2 {
                    proof {
                        lemma_shape_stuck(ops@, k as int);
                    }
                    return None;
                }
                let b: bool = flags.pop().unwrap();
                let a: bool = flags.pop().unwrap();
                flags.push(a && !b);
                assert(flags@ =~= shape_step(BooleanOp::AndNot, before).unwrap());
            },
        }
        k += 1;
    }
    assert(ops@.take(k as int) =~= ops@);
    if flags.len() == 1 {
        Some(flags[0])
    } else {
        None
    }
}

/// Once a prefix of a program underflows, the whole program does.
pub proof fn lemma_shape_stuck(ops: Seq<BooleanOp>, k: int)
    requires
        0 <= k < ops.len(),
        shape_after(ops.take(k + 1), Seq::empty()).is_none(),
    ensures
        shape_after(ops, Seq::empty()).is_none(),
{
    assert(ops =~= ops.take(k + 1) + ops.skip(k + 1));
    lemma_shape_concat(ops.take(k + 1), ops.skip(k + 1), Seq::empty());
}

/// Once a prefix of a score program underflows, the whole program does.
pub proof fn lemma_depth_stuck(ops: Seq<ScoreOp>, k: int)
    requires
        0 <= k < ops.len(),
        depth_after(ops.take(k + 1), 0).is_none(),
    ensures
        depth_after(ops, 0).is_none(),
{
    assert(ops =~= ops.take(k + 1) + ops.skip(k + 1));
    lemma_depth_concat(ops.take(k + 1), ops.skip(k + 1), 0);
}

/// Follows a score program by the depth of its stack and tells whether it
/// is well formed.
pub fn check_score_program(ops: &Vec<ScoreOp>) -> (ok: bool)
    ensures
        ok == score_well_formed(ops@),
{
    let mut depth: usize = 0;
    let mut k: usize = 0;
    assert(ops@.take(0) =~= Seq::<ScoreOp>::empty());
    while k < ops.len()
        invariant
            k <= ops.len(),
            depth <= k,
            depth_after(ops@.take(k as int), 0) == Some(depth as nat),
        decreases ops.len() - k,
    {
        proof {
            assert(ops@.take(k + 1).drop_last() =~= ops@.take(k as int));
            assert(ops@.take(k + 1).last() == ops@[k as int]);
        }
        match ops[k] {
            ScoreOp::Literal(_) => {
                depth += 1;
            },
            ScoreOp::TermScore(_, _, _) => {
                depth += 1;
            },
            ScoreOp::Combine(arity, _) => {
                if depth < arity as usize {
                    proof {
                        lemma_depth_stuck(ops@, k as int);
                    }
                    return false;
                }
                depth = depth - arity as usize + 1;
            },
        }
        k += 1;
    }
    assert(ops@.take(k as int) =~= ops@);
    depth == 1
}

} // verus!
