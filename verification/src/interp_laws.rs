//! What the interpreter guarantees: memory-touching instructions fault
//! out of bounds with their own position, input is consumed before the
//! bounds check, the cell-clearing loop terminates and zeroes its cell,
//! and a larger loop budget never changes an answer already reached.

use vstd::prelude::*;
use crate::debug::DebugV;
use crate::node::NodeV;
use crate::node::debug_of;
use crate::interp::StateV;
use crate::interp::RunOut;
use crate::interp::read_in;
use crate::interp::run_node;
use crate::interp::run_seq;

verus! {

/// Whether an instruction touches memory, and so makes the bounds test.
/// Pointer motion alone never does.
pub open spec fn touches_memory(n: NodeV) -> bool {
    !(n is IncPtr) && !(n is DecPtr)
}

/// Any memory-touching instruction run with the cursor at or beyond the
/// configured size faults, carrying that instruction's own position.
pub proof fn lemma_oob_faults(n: NodeV, st: StateV, fuel: nat)
    requires
        st.ptr >= st.mem_size,
        touches_memory(n),
    ensures
        run_node(n, st, fuel) matches RunOut::Fault(d, _) && d == debug_of(n),
{
    match n {
        NodeV::Input(_) => {
            assert(read_in(st).1.ptr == st.ptr);
            assert(read_in(st).1.mem_size == st.mem_size);
        }
        _ => {}
    }
}

/// An input instruction at or beyond the boundary still consumes one input
/// byte: the faulting state's input cursor has moved past it whenever a
/// byte was left to read.
pub proof fn lemma_input_consumed_at_boundary(d: DebugV, st: StateV, fuel: nat)
    requires
        st.ptr >= st.mem_size,
    ensures
        run_node(NodeV::Input(d), st, fuel) == RunOut::Fault(d, read_in(st).1),
        st.input_pos < st.input.len() ==> read_in(st).1.input_pos == st.input_pos + 1,
{
}

/// The cell-clearing loop, one unit decrement repeated while the cell is
/// nonzero, terminates within as many iterations as the cell's value and
/// leaves exactly that cell at zero.
pub proof fn lemma_clear_loop(st: StateV, dl: DebugV, db: DebugV, fuel: nat)
    requires
        st.wf(),
        st.ptr < st.mem_size,
        fuel >= st.mem[st.ptr as int],
    ensures
        run_node(NodeV::Loop(seq![NodeV::Decrement(1, db)], dl), st, fuel) == RunOut::Done(
            StateV { mem: st.mem.update(st.ptr as int, 0), ..st },
        ),
    decreases st.mem[st.ptr as int],
{
    let n = NodeV::Loop(seq![NodeV::Decrement(1, db)], dl);
    let v = st.mem[st.ptr as int];
    if v == 0 {
        assert(st.mem.update(st.ptr as int, 0) =~= st.mem);
        assert((StateV { mem: st.mem.update(st.ptr as int, 0), ..st }) =~= st);
    } else {
        let body = seq![NodeV::Decrement(1, db)];
        let st1 = StateV { mem: st.mem.update(st.ptr as int, st.mem[st.ptr as int].wrapping_sub(1)), ..st };
        assert(run_node(body[0], st, (fuel - 1) as nat) == RunOut::Done(st1));
        assert(body.drop_first() =~= Seq::<NodeV>::empty());
        assert(run_seq(Seq::<NodeV>::empty(), st1, (fuel - 1) as nat) == RunOut::Done(st1));
        assert(run_seq(body, st, (fuel - 1) as nat) == RunOut::Done(st1));
        assert(st1.mem[st.ptr as int] == v - 1);
        lemma_clear_loop(st1, dl, db, (fuel - 1) as nat);
        assert(st1.mem.update(st1.ptr as int, 0) =~= st.mem.update(st.ptr as int, 0));
        assert((StateV { mem: st1.mem.update(st1.ptr as int, 0), ..st1 }) =~= (StateV {
            mem: st.mem.update(st.ptr as int, 0),
            ..st
        }));
        assert(run_node(n, st, fuel) == run_node(n, st1, (fuel - 1) as nat));
    }
}

/// A larger loop budget never changes an instruction's answer: once a run
/// ends in an answer or a fault, every larger budget ends the same way.
pub proof fn lemma_run_node_mono(n: NodeV, st: StateV, f1: nat, f2: nat)
    requires
        f1 <= f2,
        !(run_node(n, st, f1) is OutOfFuel),
    ensures
        run_node(n, st, f2) == run_node(n, st, f1),
    decreases f1, n,
{
    match n {
        NodeV::Loop(body, d) => {
            if st.ptr >= st.mem_size {
            } else if st.mem[st.ptr as int] == 0 {
            } else {
                assert(f1 > 0);
                match run_seq(body, st, (f1 - 1) as nat) {
                    RunOut::Done(st1) => {
                        lemma_run_seq_mono(body, st, (f1 - 1) as nat, (f2 - 1) as nat);
                        lemma_run_node_mono(n, st1, (f1 - 1) as nat, (f2 - 1) as nat);
                    }
                    RunOut::Fault(_, _) => {
                        lemma_run_seq_mono(body, st, (f1 - 1) as nat, (f2 - 1) as nat);
                    }
                    RunOut::OutOfFuel => {}
                }
            }
        }
        _ => {}
    }
}

/// A larger loop budget never changes a sequence's answer.
pub proof fn lemma_run_seq_mono(nodes: Seq<NodeV>, st: StateV, f1: nat, f2: nat)
    requires
        f1 <= f2,
        !(run_seq(nodes, st, f1) is OutOfFuel),
    ensures
        run_seq(nodes, st, f2) == run_seq(nodes, st, f1),
    decreases f1, nodes,
{
    if nodes.len() == 0 {
    } else {
        match run_node(nodes[0], st, f1) {
            RunOut::Done(st1) => {
                lemma_run_node_mono(nodes[0], st, f1, f2);
                lemma_run_seq_mono(nodes.drop_first(), st1, f1, f2);
            }
            RunOut::Fault(_, _) => {
                lemma_run_node_mono(nodes[0], st, f1, f2);
            }
            RunOut::OutOfFuel => {}
        }
    }
}

} // verus!
