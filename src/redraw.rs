use vstd::prelude::*;

use crate::text::{chars_of, push_range, text_of};

verus! {

/// One terminal control action.
#[derive(Clone, Copy, Debug, PartialEq, Eq, Structural)]
pub enum TermOp {
    /// Move the cursor to the start of its line.
    LineStart,
    /// Erase the line under the cursor.
    ClearLine,
    /// Move the cursor up one line.
    Up,
}

/// The actions that erase a streamed transcript of `n` newlines: the current line, and for
/// each newline one line above it.
pub open spec fn clear_ops(n: nat) -> Seq<TermOp>
    decreases n,
{
    if n == 0 {
        seq![TermOp::LineStart, TermOp::ClearLine, TermOp::LineStart]
    } else {
        seq![TermOp::LineStart] + up_clears(n) + seq![TermOp::ClearLine, TermOp::LineStart]
    }
}

/// `n` repetitions of clearing a line and moving up.
pub open spec fn up_clears(n: nat) -> Seq<TermOp>
    decreases n,
{
    if n == 0 {
        Seq::empty()
    } else {
        up_clears((n - 1) as nat) + seq![TermOp::ClearLine, TermOp::Up]
    }
}

/// The number of occurrences of `op` in `ops`.
pub open spec fn count_op(ops: Seq<TermOp>, op: TermOp) -> nat
    decreases ops.len(),
{
    if ops.len() == 0 {
        0
    } else {
        count_op(ops.drop_last(), op) + if ops.last() == op { 1nat } else { 0nat }
    }
}

/// The ANSI control text of one action.
pub open spec fn op_text(op: TermOp) -> Seq<char> {
    match op {
        TermOp::LineStart => seq!['\r'],
        TermOp::ClearLine => seq!['\u{1b}', '[', '2', 'K'],
        TermOp::Up => seq!['\u{1b}', '[', '1', 'A'],
    }
}

/// The ANSI control text of a sequence of actions.
pub open spec fn ops_text(ops: Seq<TermOp>) -> Seq<char>
    decreases ops.len(),
{
    if ops.len() == 0 {
        Seq::empty()
    } else {
        ops_text(ops.drop_last()) + op_text(ops.last())
    }
}

proof fn lemma_count_concat(a: Seq<TermOp>, b: Seq<TermOp>, op: TermOp)
    ensures
        count_op(a + b, op) == count_op(a, op) + count_op(b, op),
    decreases b.len(),
{
    if b.len() == 0 {
        assert(a + b =~= a);
    } else {
        assert((a + b).drop_last() =~= a + b.drop_last());
        lemma_count_concat(a, b.drop_last(), op);
    }
}

proof fn lemma_up_clears_counts(n: nat)
    ensures
        count_op(up_clears(n), TermOp::ClearLine) == n,
        count_op(up_clears(n), TermOp::Up) == n,
        count_op(up_clears(n), TermOp::LineStart) == 0,
    decreases n,
{
    if n > 0 {
        let pair = seq![TermOp::ClearLine, TermOp::Up];
        lemma_up_clears_counts((n - 1) as nat);
        lemma_count_concat(up_clears((n - 1) as nat), pair, TermOp::ClearLine);
        lemma_count_concat(up_clears((n - 1) as nat), pair, TermOp::Up);
        lemma_count_concat(up_clears((n - 1) as nat), pair, TermOp::LineStart);
        assert(pair.drop_last() =~= seq![TermOp::ClearLine]);
        assert(pair.drop_last().drop_last() =~= Seq::<TermOp>::empty());
        reveal_with_fuel(count_op, 3);
    }
}

/// Erasing a transcript of `n` newlines clears exactly `n + 1` lines (a single line when
/// `n` is zero) and moves up exactly `n` lines.
pub proof fn lemma_clears_n_plus_one(n: nat)
    ensures
        count_op(clear_ops(n), TermOp::ClearLine) == n + 1,
        count_op(clear_ops(n), TermOp::Up) == n,
{
    let tail = seq![TermOp::ClearLine, TermOp::LineStart];
    let head = seq![TermOp::LineStart];
    assert(tail.drop_last() =~= seq![TermOp::ClearLine]);
    assert(tail.drop_last().drop_last() =~= Seq::<TermOp>::empty());
    assert(head.drop_last() =~= Seq::<TermOp>::empty());
    reveal_with_fuel(count_op, 4);
    if n == 0 {
        let ops = seq![TermOp::LineStart, TermOp::ClearLine, TermOp::LineStart];
        assert(ops.drop_last() =~= seq![TermOp::LineStart, TermOp::ClearLine]);
        assert(ops.drop_last().drop_last() =~= head);
    } else {
        lemma_up_clears_counts(n);
        lemma_count_concat(head, up_clears(n), TermOp::ClearLine);
        lemma_count_concat(head + up_clears(n), tail, TermOp::ClearLine);
        lemma_count_concat(head, up_clears(n), TermOp::Up);
        lemma_count_concat(head + up_clears(n), tail, TermOp::Up);
    }
}

/// The actions that erase a transcript of `line_count` newlines.
pub fn clear_actions(line_count: usize) -> (r: Vec<TermOp>)
    ensures
        r@ == clear_ops(line_count as nat),
{
    let mut ops: Vec<TermOp> = Vec::new();
    ops.push(TermOp::LineStart);
    if line_count == 0 {
        ops.push(TermOp::ClearLine);
        ops.push(TermOp::LineStart);
        assert(ops@ =~= clear_ops(0));
        return ops;
    }
    let mut i: usize = 0;
    while i < line_count
        invariant
            i <= line_count,
            ops@ == seq![TermOp::LineStart] + up_clears(i as nat),
        decreases line_count - i,
    {
        ops.push(TermOp::ClearLine);
        ops.push(TermOp::Up);
        assert(up_clears((i + 1) as nat) == up_clears(i as nat) + seq![TermOp::ClearLine, TermOp::Up]);
        assert(ops@ =~= seq![TermOp::LineStart] + up_clears((i + 1) as nat));
        i += 1;
    }
    ops.push(TermOp::ClearLine);
    ops.push(TermOp::LineStart);
    assert(ops@ =~= clear_ops(line_count as nat));
    ops
}

/// The ANSI control text that erases a transcript of `line_count` newlines and leaves the
/// cursor at the start of a clean line.
pub fn clear_sequence(line_count: usize) -> (r: String)
    ensures
        r@ == ops_text(clear_ops(line_count as nat)),
{
    let ops = clear_actions(line_count);
    let mut out: Vec<char> = Vec::new();
    let mut i: usize = 0;
    assert(ops@.take(0) =~= Seq::<TermOp>::empty());
    while i < ops.len()
        invariant
            i <= ops@.len(),
            out@ == ops_text(ops@.take(i as int)),
        decreases ops@.len() - i,
    {
        let text = match ops[i] {
            TermOp::LineStart => chars_of("\r"),
            TermOp::ClearLine => chars_of("\u{1b}[2K"),
            TermOp::Up => chars_of("\u{1b}[1A"),
        };
        proof {
            reveal_strlit("\r");
            reveal_strlit("\u{1b}[2K");
            reveal_strlit("\u{1b}[1A");
            assert(text@ =~= op_text(ops@[i as int]));
            assert(ops@.take(i + 1).drop_last() =~= ops@.take(i as int));
        }
        push_range(&mut out, &text, 0, text.len());
        assert(text@.subrange(0, text@.len() as int) =~= text@);
        i += 1;
    }
    assert(ops@.take(ops@.len() as int) =~= ops@);
    text_of(out.as_slice())
}

} // verus!
