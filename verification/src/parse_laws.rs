//! What parsing guarantees: a bracket-balanced symbol sequence parses, and
//! the loop nesting depth of its tree equals the bracket nesting depth of
//! the source; a close bracket at depth zero fails the parse at its own
//! position; a single unmatched open bracket fails the parse at that
//! bracket's position.

use vstd::prelude::*;
use vstd::math::max;
use crate::debug::DebugV;
use crate::symbol::SymV;
use crate::symbol::sym_debug;
use crate::node::NodeV;
use crate::parse::FrameV;
use crate::parse::parse_run;
use crate::parse::parsed;

verus! {

/// How one symbol moves the bracket depth.
pub open spec fn depth_delta(s: SymV) -> int {
    if s is OpenBlock {
        1
    } else if s is CloseBlock {
        -1
    } else {
        0
    }
}

/// The bracket depth after the first `j` symbols.
pub open spec fn depth_at(syms: Seq<SymV>, j: int) -> int
    decreases j,
{
    if j <= 0 {
        0
    } else {
        depth_at(syms, j - 1) + depth_delta(syms[j - 1])
    }
}

/// Bracket-balanced: the depth never dips below zero and ends at zero.
pub open spec fn balanced(syms: Seq<SymV>) -> bool {
    &&& forall|j: int| 0 <= j <= syms.len() ==> #[trigger] depth_at(syms, j) >= 0
    &&& depth_at(syms, syms.len() as int) == 0
}

/// The highest bracket depth reached from position `i` on, relative to the
/// depth at `i`; never negative.
pub open spec fn peak_from(syms: Seq<SymV>, i: int) -> int
    decreases syms.len() - i,
{
    if i < 0 || i >= syms.len() {
        0
    } else {
        max(0, depth_delta(syms[i]) + peak_from(syms, i + 1))
    }
}

/// The bracket nesting depth of a whole symbol sequence.
pub open spec fn bracket_depth(syms: Seq<SymV>) -> int {
    peak_from(syms, 0)
}

/// The loop nesting depth of one node: leaves are flat, a loop is one
/// deeper than its body.
pub open spec fn node_depth(n: NodeV) -> nat
    decreases n,
    via node_depth_decreases
{
    match n {
        NodeV::Loop(body, _) => (1 + seq_depth(body)) as nat,
        _ => 0,
    }
}

#[via_fn]
proof fn node_depth_decreases(n: NodeV) {
    match n {
        NodeV::Loop(body, _) => {
            assert(decreases_to!(n => body));
        }
        _ => {}
    }
}

/// The loop nesting depth of an instruction sequence.
pub open spec fn seq_depth(s: Seq<NodeV>) -> nat
    decreases s,
{
    if s.len() == 0 {
        0
    } else {
        max(node_depth(s[0]) as int, seq_depth(s.drop_first()) as int) as nat
    }
}

/// Appending a node caps the depth at the deeper of the two.
proof fn lemma_seq_depth_push(s: Seq<NodeV>, x: NodeV)
    ensures
        seq_depth(s.push(x)) == max(seq_depth(s) as int, node_depth(x) as int),
    decreases s.len(),
{
    if s.len() == 0 {
        assert(s.push(x)[0] == x);
        assert(s.push(x).drop_first() =~= Seq::<NodeV>::empty());
        assert(seq_depth(Seq::<NodeV>::empty()) == 0);
        assert(seq_depth(s.push(x)) == max(node_depth(x) as int, 0));
    } else {
        assert(s.push(x)[0] == s[0]);
        assert(s.push(x).drop_first() =~= s.drop_first().push(x));
        lemma_seq_depth_push(s.drop_first(), x);
        assert(seq_depth(s.push(x)) == max(
            node_depth(s[0]) as int,
            seq_depth(s.drop_first().push(x)) as int,
        ));
        assert(seq_depth(s) == max(node_depth(s[0]) as int, seq_depth(s.drop_first()) as int));
    }
}

/// The depth the suspended frames will contribute once each is closed:
/// frame `k` holds nodes that will stand at nesting level `k`.
pub open spec fn frames_depth(stack: Seq<FrameV>) -> int
    decreases stack.len(),
{
    if stack.len() == 0 {
        0
    } else {
        max(
            frames_depth(stack.drop_last()),
            stack.len() - 1 + seq_depth(stack.last().nodes) as int,
        )
    }
}

/// The depth the finished tree will have, seen from the middle of a run:
/// the deepest of what the frames hold, what the current level holds, and
/// what the remaining symbols will still nest.
pub open spec fn run_peak(syms: Seq<SymV>, i: int, stack: Seq<FrameV>, acc: Seq<NodeV>) -> int {
    max(
        frames_depth(stack),
        max(stack.len() + seq_depth(acc) as int, stack.len() + peak_from(syms, i)),
    )
}

/// The closing conditions under which a run from the middle succeeds:
/// every remaining close bracket finds a frame, and the input ends with
/// every frame closed.
pub open spec fn closes_cleanly(syms: Seq<SymV>, i: int, frames: int) -> bool {
    &&& forall|j: int|
        i <= j < syms.len() && (#[trigger] syms[j]) is CloseBlock ==> frames + depth_at(syms, j)
            - depth_at(syms, i) >= 1
    &&& frames + depth_at(syms, syms.len() as int) - depth_at(syms, i) == 0
}

/// A run whose remaining symbols close cleanly returns a tree of exactly
/// the predicted depth.
proof fn lemma_parse_run_depth(syms: Seq<SymV>, i: nat, stack: Seq<FrameV>, acc: Seq<NodeV>)
    requires
        i <= syms.len(),
        closes_cleanly(syms, i as int, stack.len() as int),
    ensures
        parse_run(syms, i, stack, acc) matches Ok(ns) && seq_depth(ns) as int == run_peak(
            syms,
            i as int,
            stack,
            acc,
        ),
    decreases syms.len() - i,
{
    let len = syms.len() as int;
    if i == syms.len() {
        assert(depth_at(syms, i as int) == depth_at(syms, len));
        assert(stack.len() == 0);
        assert(peak_from(syms, i as int) == 0);
    } else {
        let s0 = syms[i as int];
        assert(depth_at(syms, i as int + 1) == depth_at(syms, i as int) + depth_delta(s0));
        match s0 {
            SymV::OpenBlock(d) => {
                let stack1 = stack.push(FrameV { nodes: acc, open: d });
                assert(closes_cleanly(syms, i as int + 1, stack1.len() as int));
                lemma_parse_run_depth(syms, i + 1, stack1, Seq::empty());
                assert(stack1.drop_last() =~= stack);
                assert(frames_depth(stack1) == max(
                    frames_depth(stack),
                    stack.len() + seq_depth(acc) as int,
                ));
                assert(peak_from(syms, i as int) == max(0, 1 + peak_from(syms, i as int + 1)));
                assert(seq_depth(Seq::<NodeV>::empty()) == 0);
            }
            SymV::CloseBlock(d) => {
                assert(stack.len() + depth_at(syms, i as int) - depth_at(syms, i as int) >= 1);
                let last = stack.last();
                let stack1 = stack.drop_last();
                let acc1 = last.nodes.push(NodeV::Loop(acc, last.open));
                assert(closes_cleanly(syms, i as int + 1, stack1.len() as int));
                lemma_parse_run_depth(syms, i + 1, stack1, acc1);
                lemma_seq_depth_push(last.nodes, NodeV::Loop(acc, last.open));
                assert(node_depth(NodeV::Loop(acc, last.open)) == 1 + seq_depth(acc));
                assert(frames_depth(stack) == max(
                    frames_depth(stack1),
                    stack.len() - 1 + seq_depth(last.nodes) as int,
                ));
                assert(peak_from(syms, i as int) == max(0, -1 + peak_from(syms, i as int + 1)));
            }
            _ => {
                let x = crate::parse::leaf_node_of(s0);
                let acc1 = acc.push(x);
                assert(closes_cleanly(syms, i as int + 1, stack.len() as int));
                lemma_parse_run_depth(syms, i + 1, stack, acc1);
                lemma_seq_depth_push(acc, x);
                assert(node_depth(x) == 0);
                assert(peak_from(syms, i as int) == max(0, 0 + peak_from(syms, i as int + 1)));
            },
        }
    }
}

/// Every bracket-balanced source parses, and its tree's loop nesting depth
/// equals the source's bracket nesting depth.
pub proof fn lemma_balanced_parses(syms: Seq<SymV>)
    requires
        balanced(syms),
    ensures
        parsed(syms) matches Ok(ns) && seq_depth(ns) as int == bracket_depth(syms),
{
    let len = syms.len() as int;
    assert forall|j: int| 0 <= j < len && (#[trigger] syms[j]) is CloseBlock implies depth_at(
        syms,
        j,
    ) >= 1 by {
        assert(depth_at(syms, j + 1) == depth_at(syms, j) + depth_delta(syms[j]));
        assert(depth_at(syms, j + 1) >= 0);
    }
    assert(depth_at(syms, 0) == 0);
    lemma_parse_run_depth(syms, 0, Seq::empty(), Seq::empty());
    assert(frames_depth(Seq::<FrameV>::empty()) == 0);
    assert(seq_depth(Seq::<NodeV>::empty()) == 0);
    assert(peak_from(syms, 0) >= 0) by {
        lemma_peak_from_nonneg(syms, 0);
    }
}

/// The relative peak is never negative.
proof fn lemma_peak_from_nonneg(syms: Seq<SymV>, i: int)
    ensures
        peak_from(syms, i) >= 0,
    decreases syms.len() - i,
{
    if 0 <= i && i < syms.len() {
        lemma_peak_from_nonneg(syms, i + 1);
    }
}

/// Marching toward the first close bracket at depth zero: the run fails
/// at exactly that bracket.
proof fn lemma_run_to_stray(syms: Seq<SymV>, i: nat, j: int, stack: Seq<FrameV>, acc: Seq<NodeV>)
    requires
        i as int <= j < syms.len(),
        stack.len() as int == depth_at(syms, i as int),
        syms[j] is CloseBlock,
        depth_at(syms, j) == 0,
        forall|k: int| 0 <= k <= j ==> #[trigger] depth_at(syms, k) >= 0,
    ensures
        parse_run(syms, i, stack, acc) == Err::<Seq<NodeV>, DebugV>(sym_debug(syms[j])),
    decreases j - i,
{
    if i as int == j {
        assert(stack.len() == 0);
    } else {
        let s0 = syms[i as int];
        assert(depth_at(syms, i as int + 1) == depth_at(syms, i as int) + depth_delta(s0));
        match s0 {
            SymV::OpenBlock(d) => {
                lemma_run_to_stray(
                    syms,
                    i + 1,
                    j,
                    stack.push(FrameV { nodes: acc, open: d }),
                    Seq::empty(),
                );
            }
            SymV::CloseBlock(d) => {
                assert(depth_at(syms, i as int + 1) >= 0);
                assert(stack.len() >= 1);
                lemma_run_to_stray(
                    syms,
                    i + 1,
                    j,
                    stack.drop_last(),
                    stack.last().nodes.push(NodeV::Loop(acc, stack.last().open)),
                );
            }
            _ => {
                lemma_run_to_stray(syms, i + 1, j, stack, acc.push(crate::parse::leaf_node_of(s0)));
            },
        }
    }
}

/// A close bracket that stands at bracket depth zero, every position
/// before it nonnegative, fails the whole parse at its own position.
pub proof fn lemma_stray_close(syms: Seq<SymV>, j: int)
    requires
        0 <= j < syms.len(),
        syms[j] is CloseBlock,
        depth_at(syms, j) == 0,
        forall|k: int| 0 <= k <= j ==> #[trigger] depth_at(syms, k) >= 0,
    ensures
        parsed(syms) == Err::<Seq<NodeV>, DebugV>(sym_debug(syms[j])),
{
    lemma_run_to_stray(syms, 0, j, Seq::empty(), Seq::empty());
}

/// Once the one unmatched open bracket's frame sits at the bottom of the
/// stack and the depth never returns to zero, the run ends reporting it.
proof fn lemma_run_after_open(syms: Seq<SymV>, i: nat, stack: Seq<FrameV>, acc: Seq<NodeV>, dv: DebugV)
    requires
        i <= syms.len(),
        stack.len() as int == depth_at(syms, i as int),
        stack.len() >= 1,
        stack[0].open == dv,
        forall|k: int| i as int <= k <= syms.len() ==> #[trigger] depth_at(syms, k) >= 1,
        depth_at(syms, syms.len() as int) == 1,
    ensures
        parse_run(syms, i, stack, acc) == Err::<Seq<NodeV>, DebugV>(dv),
    decreases syms.len() - i,
{
    if i == syms.len() {
        assert(stack.len() == 1);
        assert(stack.last() == stack[0]);
    } else {
        let s0 = syms[i as int];
        assert(depth_at(syms, i as int + 1) == depth_at(syms, i as int) + depth_delta(s0));
        match s0 {
            SymV::OpenBlock(d) => {
                let stack1 = stack.push(FrameV { nodes: acc, open: d });
                assert(stack1[0] == stack[0]);
                lemma_run_after_open(syms, i + 1, stack1, Seq::empty(), dv);
            }
            SymV::CloseBlock(d) => {
                assert(depth_at(syms, i as int + 1) >= 1);
                assert(stack.len() >= 2);
                let stack1 = stack.drop_last();
                assert(stack1[0] == stack[0]);
                lemma_run_after_open(
                    syms,
                    i + 1,
                    stack1,
                    stack.last().nodes.push(NodeV::Loop(acc, stack.last().open)),
                    dv,
                );
            }
            _ => {
                lemma_run_after_open(
                    syms,
                    i + 1,
                    stack,
                    acc.push(crate::parse::leaf_node_of(s0)),
                    dv,
                );
            },
        }
    }
}

/// Marching toward the one unmatched open bracket.
proof fn lemma_run_to_open(syms: Seq<SymV>, i: nat, p: int, stack: Seq<FrameV>, acc: Seq<NodeV>)
    requires
        i as int <= p < syms.len(),
        stack.len() as int == depth_at(syms, i as int),
        syms[p] is OpenBlock,
        depth_at(syms, p) == 0,
        forall|k: int| 0 <= k <= p ==> #[trigger] depth_at(syms, k) >= 0,
        forall|k: int| p < k <= syms.len() ==> #[trigger] depth_at(syms, k) >= 1,
        depth_at(syms, syms.len() as int) == 1,
    ensures
        parse_run(syms, i, stack, acc) == Err::<Seq<NodeV>, DebugV>(sym_debug(syms[p])),
    decreases p - i,
{
    let s0 = syms[i as int];
    assert(depth_at(syms, i as int + 1) == depth_at(syms, i as int) + depth_delta(s0));
    if i as int == p {
        assert(stack.len() == 0);
        let frame = FrameV { nodes: acc, open: sym_debug(s0) };
        let stack1 = stack.push(frame);
        assert(stack1[0] == frame);
        lemma_run_after_open(syms, i + 1, stack1, Seq::empty(), sym_debug(s0));
    } else {
        match s0 {
            SymV::OpenBlock(d) => {
                lemma_run_to_open(
                    syms,
                    i + 1,
                    p,
                    stack.push(FrameV { nodes: acc, open: d }),
                    Seq::empty(),
                );
            }
            SymV::CloseBlock(d) => {
                assert(depth_at(syms, i as int + 1) >= 0);
                assert(stack.len() >= 1);
                lemma_run_to_open(
                    syms,
                    i + 1,
                    p,
                    stack.drop_last(),
                    stack.last().nodes.push(NodeV::Loop(acc, stack.last().open)),
                );
            }
            _ => {
                lemma_run_to_open(
                    syms,
                    i + 1,
                    p,
                    stack,
                    acc.push(crate::parse::leaf_node_of(s0)),
                );
            },
        }
    }
}

/// A source with exactly one extra open bracket fails the whole parse at
/// that bracket's position: the depth never dips below zero, ends at one,
/// and from the extra bracket on never returns to zero.
pub proof fn lemma_one_extra_open(syms: Seq<SymV>, p: int)
    requires
        0 <= p < syms.len(),
        syms[p] is OpenBlock,
        depth_at(syms, p) == 0,
        forall|k: int| 0 <= k <= syms.len() ==> #[trigger] depth_at(syms, k) >= 0,
        forall|k: int| p < k <= syms.len() ==> #[trigger] depth_at(syms, k) >= 1,
        depth_at(syms, syms.len() as int) == 1,
    ensures
        parsed(syms) == Err::<Seq<NodeV>, DebugV>(sym_debug(syms[p])),
{
    lemma_run_to_open(syms, 0, p, Seq::empty(), Seq::empty());
}

} // verus!
