use vstd::prelude::*;
use crate::instruction::{LOOP_CLOSE, LOOP_OPEN};

verus! {

/// What a byte adds to the nesting depth.
pub open spec fn delta(b: u8) -> int {
    if b == LOOP_OPEN {
        1
    } else if b == LOOP_CLOSE {
        -1
    } else {
        0
    }
}

/// The number of loop-opens less the number of loop-closes among the first
/// `i` bytes of `code`.
pub open spec fn depth(code: Seq<u8>, i: int) -> int
    decreases i,
{
    if i <= 0 {
        0
    } else {
        depth(code, i - 1) + delta(code[i - 1])
    }
}

/// No prefix of `code` closes more loops than it has opened, and the whole of
/// it closes them all.
pub open spec fn balanced(code: Seq<u8>) -> bool {
    &&& forall|i: int| 0 <= i <= code.len() ==> #[trigger] depth(code, i) >= 0
    &&& depth(code, code.len() as int) == 0
}

/// The loop-open at `open` and the loop-close at `close` delimit one loop:
/// the depth after the close is back at the depth before the open, and was
/// above it everywhere between.
pub open spec fn is_pair(code: Seq<u8>, open: int, close: int) -> bool {
    &&& 0 <= open < close < code.len()
    &&& code[open] == LOOP_OPEN
    &&& code[close] == LOOP_CLOSE
    &&& depth(code, close + 1) == depth(code, open)
    &&& forall|k: int| open < k <= close ==> #[trigger] depth(code, k) > depth(code, open)
}

/// The position of the bracket that the bracket at `p` is paired with.
pub open spec fn partner(code: Seq<u8>, p: int) -> int {
    if code[p] == LOOP_OPEN {
        choose|close: int| is_pair(code, p, close)
    } else {
        choose|open: int| is_pair(code, open, p)
    }
}

/// Where execution continues when the branch of the bracket at `p` is taken:
/// just past its partner.
pub open spec fn target(code: Seq<u8>, p: int) -> int {
    partner(code, p) + 1
}

/// `jumps` has an entry for each bracket of `code` and for nothing else, and
/// each entry is the position just past the bracket's partner.
pub open spec fn jumps_wf(code: Seq<u8>, jumps: Map<usize, usize>) -> bool {
    &&& forall|p: usize| #[trigger]
        jumps.contains_key(p) <==> p < code.len() && delta(code[p as int]) != 0
    &&& forall|p: usize|
        p < code.len() && code[p as int] == LOOP_OPEN ==> is_pair(
            code,
            p as int,
            (#[trigger] jumps[p]) - 1,
        )
    &&& forall|p: usize|
        p < code.len() && code[p as int] == LOOP_CLOSE ==> is_pair(
            code,
            (#[trigger] jumps[p]) - 1,
            p as int,
        )
}

/// The loop-open at `open` is still waiting for its close after the first
/// `done` bytes: it is the `slot`-th of the loops that are open there.
pub open spec fn pending(code: Seq<u8>, open: int, slot: int, done: int) -> bool {
    &&& 0 <= open < done
    &&& code[open] == LOOP_OPEN
    &&& depth(code, open) == slot
    &&& forall|k: int| open < k <= done ==> #[trigger] depth(code, k) > slot
}

/// After the first `done` bytes, the bracket at `p`, if there is one, either
/// has its entry in `jumps` or waits in `stack` at the place of its depth.
pub open spec fn settled(
    code: Seq<u8>,
    jumps: Map<usize, usize>,
    stack: Seq<usize>,
    p: int,
    done: int,
) -> bool {
    &&& code[p] == LOOP_CLOSE ==> jumps.contains_key(p as usize) && is_pair(
        code,
        jumps[p as usize] - 1,
        p,
    )
    &&& code[p] == LOOP_OPEN ==> {
        ||| jumps.contains_key(p as usize) && jumps[p as usize] - 1 < done && is_pair(
            code,
            p,
            jumps[p as usize] - 1,
        )
        ||| 0 <= depth(code, p) < stack.len() && stack[depth(code, p)] == p
    }
}

/// A loop-open is paired with one loop-close only.
pub proof fn lemma_close_unique(code: Seq<u8>, open: int, c1: int, c2: int)
    requires
        is_pair(code, open, c1),
        is_pair(code, open, c2),
    ensures
        c1 == c2,
{
    if c1 < c2 {
        assert(depth(code, c1 + 1) > depth(code, open));
    } else if c2 < c1 {
        assert(depth(code, c2 + 1) > depth(code, open));
    }
}

/// A loop-close is paired with one loop-open only.
pub proof fn lemma_open_unique(code: Seq<u8>, o1: int, o2: int, close: int)
    requires
        is_pair(code, o1, close),
        is_pair(code, o2, close),
    ensures
        o1 == o2,
{
    if o1 < o2 {
        assert(depth(code, o2) > depth(code, o1));
    } else if o2 < o1 {
        assert(depth(code, o1) > depth(code, o2));
    }
}

/// Each bracket of a pair is the other's partner.
pub proof fn lemma_partner(code: Seq<u8>, open: int, close: int)
    requires
        is_pair(code, open, close),
    ensures
        partner(code, open) == close,
        partner(code, close) == open,
        target(code, open) == close + 1,
        target(code, close) == open + 1,
{
    let c = choose|c: int| is_pair(code, open, c);
    lemma_close_unique(code, open, c, close);
    let o = choose|o: int| is_pair(code, o, close);
    lemma_open_unique(code, o, open, close);
}

/// Searches rightwards from `k` for the close of the loop opened at `open`,
/// given that the depth stays above that of `open` up to `k` and is back at
/// it, or below, by the end.
proof fn lemma_find_close(code: Seq<u8>, open: int, k: int) -> (close: int)
    requires
        0 <= open < k <= code.len(),
        code[open] == LOOP_OPEN,
        depth(code, code.len() as int) <= depth(code, open),
        forall|m: int| open < m <= k ==> #[trigger] depth(code, m) > depth(code, open),
    ensures
        is_pair(code, open, close),
    decreases code.len() - k,
{
    assert(depth(code, k) > depth(code, open));
    if depth(code, k + 1) > depth(code, open) {
        lemma_find_close(code, open, k + 1)
    } else {
        k
    }
}

/// Searches leftwards from `k` for the open of the loop closed at `close`,
/// given that the depth stays above the depth after `close` from `k` on.
proof fn lemma_find_open(code: Seq<u8>, k: int, close: int) -> (open: int)
    requires
        0 <= k <= close < code.len(),
        code[close] == LOOP_CLOSE,
        0 <= depth(code, close + 1),
        forall|m: int| k <= m <= close ==> #[trigger] depth(code, m) > depth(code, close + 1),
    ensures
        is_pair(code, open, close),
    decreases k,
{
    assert(depth(code, k) > depth(code, close + 1));
    assert(depth(code, 0) == 0);
    if depth(code, k - 1) > depth(code, close + 1) {
        lemma_find_open(code, k - 1, close)
    } else {
        k - 1
    }
}

/// In a balanced program every bracket has its partner.
pub proof fn lemma_partner_exists(code: Seq<u8>, p: int)
    requires
        balanced(code),
        0 <= p < code.len(),
        delta(code[p]) != 0,
    ensures
        code[p] == LOOP_OPEN ==> is_pair(code, p, partner(code, p)),
        code[p] == LOOP_CLOSE ==> is_pair(code, partner(code, p), p),
{
    assert(depth(code, p) >= 0);
    assert(depth(code, p + 1) >= 0);
    if code[p] == LOOP_OPEN {
        let close = lemma_find_close(code, p, p + 1);
        lemma_partner(code, p, close);
    } else {
        let open = lemma_find_open(code, p, p);
        lemma_partner(code, open, p);
    }
}

/// In a balanced program the jump targets of a pair answer each other: the
/// byte just before a bracket's target is a bracket of the other kind, and
/// the byte just before that one's target is the first bracket again.
pub proof fn lemma_targets_involutive(code: Seq<u8>, p: int)
    requires
        balanced(code),
        0 <= p < code.len(),
        delta(code[p]) != 0,
    ensures
        1 <= target(code, p) <= code.len(),
        delta(code[target(code, p) - 1]) == -delta(code[p]),
        code[p] == LOOP_OPEN ==> p < target(code, p) - 1,
        code[p] == LOOP_CLOSE ==> target(code, p) - 1 < p,
        target(code, target(code, p) - 1) == p + 1,
{
    lemma_partner_exists(code, p);
    if code[p] == LOOP_OPEN {
        lemma_partner(code, p, partner(code, p));
    } else {
        lemma_partner(code, partner(code, p), p);
    }
}

/// In a table of jump targets, the targets of a pair answer each other: from
/// a bracket, the bracket just before its target is its partner, and the
/// bracket just before the partner's target is the bracket itself.
pub proof fn lemma_jumps_involutive(code: Seq<u8>, jumps: Map<usize, usize>, p: usize)
    requires
        jumps_wf(code, jumps),
        jumps.contains_key(p),
    ensures
        jumps[p] >= 1,
        jumps.contains_key((jumps[p] - 1) as usize),
        jumps[(jumps[p] - 1) as usize] == p + 1,
        jumps[p] == target(code, p as int),
        code[p as int] == LOOP_OPEN ==> p < jumps[p] - 1 && code[jumps[p] - 1] == LOOP_CLOSE,
        code[p as int] == LOOP_CLOSE ==> jumps[p] - 1 < p && code[jumps[p] - 1] == LOOP_OPEN,
{
    let q = (jumps[p] - 1) as usize;
    if code[p as int] == LOOP_OPEN {
        assert(is_pair(code, p as int, jumps[p] - 1));
        assert(is_pair(code, jumps[q] - 1, q as int));
        lemma_open_unique(code, p as int, jumps[q] - 1, q as int);
        lemma_partner(code, p as int, q as int);
    } else {
        assert(is_pair(code, jumps[p] - 1, p as int));
        assert(is_pair(code, q as int, jumps[q] - 1));
        lemma_close_unique(code, q as int, p as int, jumps[q] - 1);
        lemma_partner(code, q as int, p as int);
    }
}

/// A program has one table of jump targets at most.
pub proof fn lemma_jumps_unique(code: Seq<u8>, a: Map<usize, usize>, b: Map<usize, usize>)
    requires
        jumps_wf(code, a),
        jumps_wf(code, b),
    ensures
        a == b,
{
    assert forall|p: usize| a.contains_key(p) implies #[trigger] a[p] == b[p] by {
        lemma_jumps_involutive(code, a, p);
        lemma_jumps_involutive(code, b, p);
    }
    assert(a =~= b);
}

} // verus!
