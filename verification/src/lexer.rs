//! Lexing and filtering of raw source text.
//!
//! Every byte of the source either names one of the eight operations or is
//! a comment character with no meaning; lexing keeps the operations in
//! source order and drops everything else.

use vstd::prelude::*;

verus! {

/// The eight operations of the language, one per recognized source symbol.
#[derive(Clone, Copy, PartialEq, Eq, Structural, Debug)]
pub enum Op {
    /// `>`: move the data cursor one cell to the right.
    IncrementDp,
    /// `<`: move the data cursor one cell to the left.
    DecrementDp,
    /// `+`: increment the current cell, wrapping 127 to -128.
    IncrementDpValue,
    /// `-`: decrement the current cell, wrapping -128 to 127.
    DecrementDpValue,
    /// `.`: emit the numeric value of the current cell.
    OutputDp,
    /// `,`: store one character of input into the current cell.
    InputDp,
    /// `[`: jump past the matching `]` when the current cell is zero.
    JumpForward,
    /// `]`: jump back past the matching `[` when the current cell is non-zero.
    JumpBackward,
}

/// The operation named by one source byte, or `None` for a comment byte.
pub open spec fn op_of_byte(b: u8) -> Option<Op> {
    if b == 62 {
        Some(Op::IncrementDp)
    } else if b == 60 {
        Some(Op::DecrementDp)
    } else if b == 43 {
        Some(Op::IncrementDpValue)
    } else if b == 45 {
        Some(Op::DecrementDpValue)
    } else if b == 46 {
        Some(Op::OutputDp)
    } else if b == 44 {
        Some(Op::InputDp)
    } else if b == 91 {
        Some(Op::JumpForward)
    } else if b == 93 {
        Some(Op::JumpBackward)
    } else {
        None
    }
}

/// The instruction sequence of a source text: its recognized bytes,
/// in order, with everything else dropped.
pub open spec fn spec_lex(s: Seq<u8>) -> Seq<Op>
    decreases s.len(),
{
    if s.len() == 0 {
        Seq::empty()
    } else {
        let rest = spec_lex(s.drop_last());
        match op_of_byte(s.last()) {
            Some(op) => rest.push(op),
            None => rest,
        }
    }
}

/// Executable counterpart of [`op_of_byte`].
fn byte_to_op(b: u8) -> (r: Option<Op>)
    ensures
        r == op_of_byte(b),
{
    if b == 62 {
        // '>'
        Some(Op::IncrementDp)
    } else if b == 60 {
        // '<'
        Some(Op::DecrementDp)
    } else if b == 43 {
        // '+'
        Some(Op::IncrementDpValue)
    } else if b == 45 {
        // '-'
        Some(Op::DecrementDpValue)
    } else if b == 46 {
        // '.'
        Some(Op::OutputDp)
    } else if b == 44 {
        // ','
        Some(Op::InputDp)
    } else if b == 91 {
        // '['
        Some(Op::JumpForward)
    } else if b == 93 {
        // ']'
        Some(Op::JumpBackward)
    } else {
        None
    }
}

/// Scan a source text and collect its instruction sequence, keeping the
/// recognized symbols in source order and silently dropping every other
/// byte. This stage cannot fail.
pub fn lex(code: &[u8]) -> (r: Vec<Op>)
    ensures
        r@ == spec_lex(code@),
{
    let mut r: Vec<Op> = Vec::new();
    let mut i: usize = 0;
    while i < code.len()
        invariant
            i <= code.len(),
            r@ == spec_lex(code@.take(i as int)),
        decreases code.len() - i,
    {
        proof {
            assert(code@.take(i + 1).drop_last() =~= code@.take(i as int));
            assert(code@.take(i + 1).last() == code@[i as int]);
        }
        match byte_to_op(code[i]) {
            Some(op) => r.push(op),
            None => (),
        }
        i = i + 1;
    }
    proof {
        assert(code@.take(code@.len() as int) =~= code@);
    }
    r
}

/// The recognized subsequence of a source text: its symbol bytes, in
/// order, with every comment byte removed.
pub open spec fn strip_comments(s: Seq<u8>) -> Seq<u8>
    decreases s.len(),
{
    if s.len() == 0 {
        Seq::empty()
    } else {
        let rest = strip_comments(s.drop_last());
        if op_of_byte(s.last()) is Some {
            rest.push(s.last())
        } else {
            rest
        }
    }
}

/// Filtering is idempotent and order-preserving on the recognized
/// subset: lexing a source text and lexing just its recognized
/// subsequence give the same instruction sequence.
pub proof fn lemma_lex_filter_idempotent(s: Seq<u8>)
    ensures
        spec_lex(strip_comments(s)) == spec_lex(s),
    decreases s.len(),
{
    if s.len() == 0 {
    } else {
        lemma_lex_filter_idempotent(s.drop_last());
        if op_of_byte(s.last()) is Some {
            assert(strip_comments(s) == strip_comments(s.drop_last()).push(s.last()));
            assert(strip_comments(s).drop_last() =~= strip_comments(s.drop_last()));
            assert(strip_comments(s).last() == s.last());
        }
    }
}

/// Bytes outside the eight-symbol alphabet have no effect on the
/// instruction sequence: inserting an unrecognized byte anywhere in a
/// source text leaves its lexing unchanged.
pub proof fn lemma_lex_ignores_unrecognized(pre: Seq<u8>, b: u8, post: Seq<u8>)
    requires
        op_of_byte(b) is None,
    ensures
        spec_lex(pre + seq![b] + post) == spec_lex(pre + post),
    decreases post.len(),
{
    if post.len() == 0 {
        assert(pre + seq![b] + post =~= pre.push(b));
        assert(pre + post =~= pre);
        assert(pre.push(b).drop_last() =~= pre);
        assert(pre.push(b).last() == b);
    } else {
        let x = post.last();
        let shorter = post.drop_last();
        assert((pre + seq![b] + post).drop_last() =~= pre + seq![b] + shorter);
        assert((pre + seq![b] + post).last() == x);
        assert((pre + post).drop_last() =~= pre + shorter);
        assert((pre + post).last() == x);
        lemma_lex_ignores_unrecognized(pre, b, shorter);
    }
}

} // verus!
