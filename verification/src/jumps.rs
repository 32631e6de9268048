//! Bracket validation: matching every `[` with its `]`.
//!
//! A single left-to-right scan with a stack of pending openers either
//! produces the complete set of jump pairs or rejects the program. The
//! laws at the end of this module characterize the scan: it accepts
//! exactly the balanced programs, records one pair per opener, and
//! rejects any program with an excess closer.

use crate::lexer::Op;
use vstd::prelude::*;

verus! {

/// The positions, within one instruction sequence, of a matching
/// `[` (start) and `]` (end) pair.
#[derive(Clone, Copy, PartialEq, Eq, Structural, Debug)]
pub struct JumpPosition {
    pub start: usize,
    pub end: usize,
}

/// How many times `t` occurs in `s`.
pub open spec fn count_op(s: Seq<Op>, t: Op) -> int
    decreases s.len(),
{
    if s.len() == 0 {
        0
    } else {
        count_op(s.drop_last(), t) + (if s.last() == t {
            1int
        } else {
            0int
        })
    }
}

/// Openers minus closers in `s`.
pub open spec fn surplus(s: Seq<Op>) -> int {
    count_op(s, Op::JumpForward) - count_op(s, Op::JumpBackward)
}

/// A program is balanced when no prefix has more closers than openers
/// and the whole sequence has equally many of each.
pub open spec fn balanced(s: Seq<Op>) -> bool {
    &&& forall|i: int| 0 <= i <= s.len() ==> surplus(#[trigger] s.take(i)) >= 0
    &&& surplus(s) == 0
}

/// One jump pair is well formed for `prog`: an opener strictly before
/// its closer, both in range.
pub open spec fn pair_ok(prog: Seq<Op>, p: JumpPosition) -> bool {
    &&& p.start < p.end < prog.len()
    &&& prog[p.start as int] == Op::JumpForward
    &&& prog[p.end as int] == Op::JumpBackward
}

/// Every recorded jump pair is well formed for `prog`.
pub open spec fn pairs_ok(prog: Seq<Op>, ps: Seq<JumpPosition>) -> bool {
    forall|m: int| 0 <= m < ps.len() ==> pair_ok(prog, #[trigger] ps[m])
}

/// No two recorded pairs share a start, and no two share an end.
pub open spec fn pairs_distinct(ps: Seq<JumpPosition>) -> bool {
    forall|a: int, b: int|
        0 <= a < b < ps.len() ==> (#[trigger] ps[a]).start != (#[trigger] ps[b]).start && ps[a].end
            != ps[b].end
}

/// Every opener of `prog` is the start of some recorded pair, and every
/// closer the end of one: with `pairs_distinct`, the pair set is a
/// bijection between the opener and closer positions.
pub open spec fn pairs_complete(prog: Seq<Op>, ps: Seq<JumpPosition>) -> bool {
    &&& forall|j: int|
        0 <= j < prog.len() && #[trigger] prog[j] == Op::JumpForward ==> exists|m: int|
            0 <= m < ps.len() && (#[trigger] ps[m]).start == j
    &&& forall|j: int|
        0 <= j < prog.len() && #[trigger] prog[j] == Op::JumpBackward ==> exists|m: int|
            0 <= m < ps.len() && (#[trigger] ps[m]).end == j
}

/// The validating scan, from position `i` onward, with `stack` holding
/// the positions of the pending openers and `acc` the pairs recorded so
/// far. Returns the complete pair set on success, `None` on a closer
/// with no pending opener or on leftover openers at the end.
pub open spec fn validate_from(
    prog: Seq<Op>,
    i: int,
    stack: Seq<usize>,
    acc: Seq<JumpPosition>,
) -> Option<Seq<JumpPosition>>
    decreases prog.len() - i,
{
    if i < 0 || i >= prog.len() {
        if stack.len() == 0 {
            Some(acc)
        } else {
            None
        }
    } else {
        match prog[i] {
            Op::JumpForward => validate_from(prog, i + 1, stack.push(i as usize), acc),
            Op::JumpBackward => {
                if stack.len() == 0 {
                    None
                } else {
                    validate_from(
                        prog,
                        i + 1,
                        stack.drop_last(),
                        acc.push(JumpPosition { start: stack.last(), end: i as usize }),
                    )
                }
            },
            _ => validate_from(prog, i + 1, stack, acc),
        }
    }
}

/// The outcome of validating a whole program.
pub open spec fn spec_validate(prog: Seq<Op>) -> Option<Seq<JumpPosition>> {
    validate_from(prog, 0, Seq::empty(), Seq::empty())
}

proof fn lemma_count_take_succ(s: Seq<Op>, t: Op, i: int)
    requires
        0 <= i < s.len(),
    ensures
        count_op(s.take(i + 1), t) == count_op(s.take(i), t) + (if s[i] == t {
            1int
        } else {
            0int
        }),
{
    assert(s.take(i + 1).drop_last() =~= s.take(i));
    assert(s.take(i + 1).last() == s[i]);
}

proof fn lemma_surplus_take_succ(s: Seq<Op>, i: int)
    requires
        0 <= i < s.len(),
    ensures
        surplus(s.take(i + 1)) == surplus(s.take(i)) + (if s[i] == Op::JumpForward {
            1int
        } else if s[i] == Op::JumpBackward {
            -1int
        } else {
            0int
        }),
{
    lemma_count_take_succ(s, Op::JumpForward, i);
    lemma_count_take_succ(s, Op::JumpBackward, i);
}

proof fn lemma_validate_from_ok(prog: Seq<Op>, i: int, stack: Seq<usize>, acc: Seq<JumpPosition>)
    requires
        prog.len() <= usize::MAX,
        0 <= i <= prog.len(),
        stack.len() == surplus(prog.take(i)),
        forall|k: int| i <= k <= prog.len() ==> surplus(#[trigger] prog.take(k)) >= 0,
        surplus(prog) == 0,
        acc.len() == count_op(prog.take(i), Op::JumpBackward),
        pairs_ok(prog, acc),
        pairs_distinct(acc),
        forall|m: int| 0 <= m < acc.len() ==> (#[trigger] acc[m]).end < i,
        forall|m: int|
            0 <= m < stack.len() ==> (#[trigger] stack[m]) < i && prog[stack[m] as int]
                == Op::JumpForward,
        forall|a: int, b: int| 0 <= a < b < stack.len() ==> (#[trigger] stack[a]) < (#[trigger] stack[b]),
        forall|m: int, m2: int|
            0 <= m < acc.len() && 0 <= m2 < stack.len() ==> (#[trigger] acc[m]).start != (
            #[trigger] stack[m2]),
        forall|j: int|
            0 <= j < i && #[trigger] prog[j] == Op::JumpForward ==> (exists|m: int|
                0 <= m < acc.len() && (#[trigger] acc[m]).start == j) || (exists|m: int|
                0 <= m < stack.len() && (#[trigger] stack[m]) == j),
        forall|j: int|
            0 <= j < i && #[trigger] prog[j] == Op::JumpBackward ==> exists|m: int|
                0 <= m < acc.len() && (#[trigger] acc[m]).end == j,
    ensures
        validate_from(prog, i, stack, acc) matches Some(ps) && ps.len() == count_op(
            prog,
            Op::JumpForward,
        ) && pairs_ok(prog, ps) && pairs_distinct(ps) && pairs_complete(prog, ps),
    decreases prog.len() - i,
{
    assert(prog.take(prog.len() as int) =~= prog);
    if i == prog.len() {
        assert(stack.len() == 0);
        assert(count_op(prog, Op::JumpBackward) == count_op(prog, Op::JumpForward));
    } else {
        lemma_surplus_take_succ(prog, i);
        lemma_count_take_succ(prog, Op::JumpBackward, i);
        match prog[i] {
            Op::JumpForward => {
                let stack2 = stack.push(i as usize);
                assert(forall|m: int|
                    0 <= m < stack2.len() ==> (#[trigger] stack2[m]) < i + 1 && prog[stack2[m] as int]
                        == Op::JumpForward);
                assert forall|a: int, b: int| 0 <= a < b < stack2.len() implies (
                #[trigger] stack2[a]) < (#[trigger] stack2[b]) by {
                    if b == stack.len() {
                        assert(stack2[a] == stack[a]);
                        assert(stack[a] < i);
                    }
                }
                assert forall|j: int|
                    0 <= j < i + 1 && #[trigger] prog[j] == Op::JumpForward implies (exists|m: int|
                    0 <= m < acc.len() && (#[trigger] acc[m]).start == j) || (exists|m: int|
                    0 <= m < stack2.len() && (#[trigger] stack2[m]) == j) by {
                    if j == i {
                        assert(stack2[stack.len() as int] == i as usize);
                    } else {
                        if exists|m: int| 0 <= m < stack.len() && (#[trigger] stack[m]) == j {
                            let m = choose|m: int| 0 <= m < stack.len() && (#[trigger] stack[m]) == j;
                            assert(stack2[m] == j);
                        }
                    }
                }
                lemma_validate_from_ok(prog, i + 1, stack2, acc);
            },
            Op::JumpBackward => {
                assert(surplus(prog.take(i + 1)) >= 0);
                assert(stack.len() >= 1);
                let s = stack.last();
                let p = JumpPosition { start: s, end: i as usize };
                assert(pair_ok(prog, p));
                let acc2 = acc.push(p);
                let stack2 = stack.drop_last();
                assert(forall|m: int| 0 <= m < acc2.len() ==> pair_ok(prog, #[trigger] acc2[m]));
                assert forall|a: int, b: int| 0 <= a < b < acc2.len() implies (
                #[trigger] acc2[a]).start != (#[trigger] acc2[b]).start && acc2[a].end
                    != acc2[b].end by {
                    if b == acc.len() {
                        assert(acc[a].start != stack[stack.len() - 1]);
                        assert(acc[a].end < i);
                    }
                }
                assert forall|m: int, m2: int|
                    0 <= m < acc2.len() && 0 <= m2 < stack2.len() implies (
                #[trigger] acc2[m]).start != (#[trigger] stack2[m2]) by {
                    if m == acc.len() {
                        assert(stack2[m2] == stack[m2]);
                        assert(stack[m2] < stack[stack.len() - 1]);
                    } else {
                        assert(acc2[m] == acc[m]);
                        assert(stack2[m2] == stack[m2]);
                    }
                }
                assert forall|j: int|
                    0 <= j < i + 1 && #[trigger] prog[j] == Op::JumpForward implies (exists|m: int|
                    0 <= m < acc2.len() && (#[trigger] acc2[m]).start == j) || (exists|m: int|
                    0 <= m < stack2.len() && (#[trigger] stack2[m]) == j) by {
                    assert(j < i);
                    if exists|m: int| 0 <= m < acc.len() && (#[trigger] acc[m]).start == j {
                        let m = choose|m: int| 0 <= m < acc.len() && (#[trigger] acc[m]).start == j;
                        assert(acc2[m].start == j);
                    } else {
                        let m = choose|m: int| 0 <= m < stack.len() && (#[trigger] stack[m]) == j;
                        if m == stack.len() - 1 {
                            assert(acc2[acc.len() as int].start == j);
                        } else {
                            assert(stack2[m] == j);
                        }
                    }
                }
                assert forall|j: int|
                    0 <= j < i + 1 && #[trigger] prog[j] == Op::JumpBackward implies exists|m: int|
                    0 <= m < acc2.len() && (#[trigger] acc2[m]).end == j by {
                    if j == i {
                        assert(acc2[acc.len() as int].end == j);
                    } else {
                        let m = choose|m: int| 0 <= m < acc.len() && (#[trigger] acc[m]).end == j;
                        assert(acc2[m].end == j);
                    }
                }
                lemma_validate_from_ok(prog, i + 1, stack2, acc2);
            },
            _ => {
                lemma_validate_from_ok(prog, i + 1, stack, acc);
            },
        }
    }
}

proof fn lemma_validate_from_neg(prog: Seq<Op>, i: int, stack: Seq<usize>, acc: Seq<JumpPosition>)
    requires
        prog.len() <= usize::MAX,
        0 <= i <= prog.len(),
        stack.len() == surplus(prog.take(i)),
        exists|k: int| i <= k <= prog.len() && surplus(#[trigger] prog.take(k)) < 0,
    ensures
        validate_from(prog, i, stack, acc) is None,
    decreases prog.len() - i,
{
    let k = choose|k: int| i <= k <= prog.len() && surplus(#[trigger] prog.take(k)) < 0;
    assert(surplus(prog.take(i)) == stack.len());
    assert(k > i);
    lemma_surplus_take_succ(prog, i);
    match prog[i] {
        Op::JumpForward => {
            assert(i + 1 <= k <= prog.len() && surplus(prog.take(k)) < 0);
            lemma_validate_from_neg(prog, i + 1, stack.push(i as usize), acc);
        },
        Op::JumpBackward => {
            if stack.len() > 0 {
                assert(i + 1 <= k <= prog.len() && surplus(prog.take(k)) < 0);
                lemma_validate_from_neg(
                    prog,
                    i + 1,
                    stack.drop_last(),
                    acc.push(JumpPosition { start: stack.last(), end: i as usize }),
                );
            }
        },
        _ => {
            assert(i + 1 <= k <= prog.len() && surplus(prog.take(k)) < 0);
            lemma_validate_from_neg(prog, i + 1, stack, acc);
        },
    }
}

proof fn lemma_validate_from_pos(prog: Seq<Op>, i: int, stack: Seq<usize>, acc: Seq<JumpPosition>)
    requires
        prog.len() <= usize::MAX,
        0 <= i <= prog.len(),
        stack.len() == surplus(prog.take(i)),
        forall|k: int| i <= k <= prog.len() ==> surplus(#[trigger] prog.take(k)) >= 0,
        surplus(prog) > 0,
    ensures
        validate_from(prog, i, stack, acc) is None,
    decreases prog.len() - i,
{
    assert(prog.take(prog.len() as int) =~= prog);
    if i == prog.len() {
        assert(stack.len() > 0);
    } else {
        lemma_surplus_take_succ(prog, i);
        match prog[i] {
            Op::JumpForward => {
                lemma_validate_from_pos(prog, i + 1, stack.push(i as usize), acc);
            },
            Op::JumpBackward => {
                assert(surplus(prog.take(i + 1)) >= 0);
                assert(stack.len() >= 1);
                lemma_validate_from_pos(
                    prog,
                    i + 1,
                    stack.drop_last(),
                    acc.push(JumpPosition { start: stack.last(), end: i as usize }),
                );
            },
            _ => {
                lemma_validate_from_pos(prog, i + 1, stack, acc);
            },
        }
    }
}

/// Law: every balanced program passes validation, and the validator
/// records exactly one jump pair per opener, each pair placing its `[`
/// strictly before its `]`. The recorded pairs are a bijection between
/// the opener and closer positions: no start or end repeats, and every
/// opener and every closer belongs to exactly one pair.
pub proof fn lemma_balanced_accepted(prog: Seq<Op>)
    requires
        prog.len() <= usize::MAX,
        balanced(prog),
    ensures
        spec_validate(prog) matches Some(ps) && ps.len() == count_op(prog, Op::JumpForward)
            && pairs_ok(prog, ps) && pairs_distinct(ps) && pairs_complete(prog, ps),
{
    assert(prog.take(0) =~= Seq::<Op>::empty());
    lemma_validate_from_ok(prog, 0, Seq::empty(), Seq::empty());
}

/// Law: a program with an excess closer — some prefix holding more
/// closers than openers — is rejected by validation.
pub proof fn lemma_excess_closer_rejected(prog: Seq<Op>)
    requires
        prog.len() <= usize::MAX,
        exists|k: int|
            0 <= k <= prog.len() && count_op(#[trigger] prog.take(k), Op::JumpBackward) > count_op(
                prog.take(k),
                Op::JumpForward,
            ),
    ensures
        spec_validate(prog) is None,
{
    let k = choose|k: int|
        0 <= k <= prog.len() && count_op(#[trigger] prog.take(k), Op::JumpBackward) > count_op(
            prog.take(k),
            Op::JumpForward,
        );
    assert(prog.take(0) =~= Seq::<Op>::empty());
    assert(0 <= k <= prog.len() && surplus(prog.take(k)) < 0);
    lemma_validate_from_neg(prog, 0, Seq::empty(), Seq::empty());
}

/// The validator accepts exactly the balanced programs.
pub proof fn lemma_validation_iff_balanced(prog: Seq<Op>)
    requires
        prog.len() <= usize::MAX,
    ensures
        spec_validate(prog) is Some <==> balanced(prog),
{
    assert(prog.take(0) =~= Seq::<Op>::empty());
    assert(prog.take(prog.len() as int) =~= prog);
    if balanced(prog) {
        lemma_balanced_accepted(prog);
    } else {
        if exists|k: int| 0 <= k <= prog.len() && surplus(#[trigger] prog.take(k)) < 0 {
            lemma_validate_from_neg(prog, 0, Seq::empty(), Seq::empty());
        } else {
            assert(surplus(prog) != 0);
            assert(surplus(prog.take(prog.len() as int)) >= 0);
            lemma_validate_from_pos(prog, 0, Seq::empty(), Seq::empty());
        }
    }
}

} // verus!
