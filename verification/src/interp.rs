//! The tree-walking interpreter: a bounded byte memory, one cursor, and a
//! loop-iteration budget.
//!
//! The specification `run_seq` executes an instruction sequence against a
//! `StateV`. Pointer motion wraps at the index width and is never checked;
//! every memory-touching instruction first tests `ptr >= mem_size` and
//! faults with its own position. Reading input consumes one byte *before*
//! the bounds check, and yields the byte 255 once the input is exhausted.
//! The `fuel` argument bounds how many times each loop may iterate along a
//! nesting path; a run that would iterate longer ends in `OutOfFuel`
//! instead of an answer, and a larger budget can only turn `OutOfFuel`
//! into an answer, never change one.

use vstd::prelude::*;
use crate::debug::DebugInfo;
use crate::debug::DebugV;
use crate::node::Node;
use crate::node::NodeV;
use crate::node::nodes_view;
use crate::node::lemma_nodes_view;
use crate::node::Ast;

verus! {

broadcast use lemma_nodes_view;

/// The memory cells the interpreter starts with, in the mature design.
pub const DEFAULT_MEM_SIZE: usize = 100000;

/// The mathematical interpreter state: cursor, memory, configured size,
/// the input not yet consumed, and the output produced so far.
#[verifier::ext_equal]
pub struct StateV {
    pub ptr: usize,
    pub mem: Seq<u8>,
    pub mem_size: usize,
    pub input: Seq<u8>,
    pub input_pos: nat,
    pub output: Seq<u8>,
}

impl StateV {
    /// The memory matches the configured size and the input cursor has not
    /// run past the input.
    pub open spec fn wf(self) -> bool {
        &&& self.mem.len() == self.mem_size
        &&& self.input_pos <= self.input.len()
    }
}

/// How one execution ended: normally, at the first out-of-bounds fault
/// (carrying the faulting instruction's position), or with the iteration
/// budget exhausted.
pub enum RunOut {
    Done(StateV),
    Fault(DebugV, StateV),
    OutOfFuel,
}

/// Consuming one input byte: the next byte and the state after it, or the
/// byte 255 with the state unchanged once the input is exhausted.
pub open spec fn read_in(st: StateV) -> (u8, StateV) {
    if st.input_pos < st.input.len() {
        (st.input[st.input_pos as int], StateV { input_pos: st.input_pos + 1, ..st })
    } else {
        (255u8, st)
    }
}

/// Running one instruction with the given loop budget.
pub open spec fn run_node(n: NodeV, st: StateV, fuel: nat) -> RunOut
    decreases fuel, n,
{
    match n {
        NodeV::IncPtr(v, _) => RunOut::Done(StateV { ptr: st.ptr.wrapping_add(v), ..st }),
        NodeV::DecPtr(v, _) => RunOut::Done(StateV { ptr: st.ptr.wrapping_sub(v), ..st }),
        NodeV::Increment(v, d) => if st.ptr >= st.mem_size {
            RunOut::Fault(d, st)
        } else {
            RunOut::Done(
                StateV {
                    mem: st.mem.update(st.ptr as int, st.mem[st.ptr as int].wrapping_add(v)),
                    ..st
                },
            )
        },
        NodeV::Decrement(v, d) => if st.ptr >= st.mem_size {
            RunOut::Fault(d, st)
        } else {
            RunOut::Done(
                StateV {
                    mem: st.mem.update(st.ptr as int, st.mem[st.ptr as int].wrapping_sub(v)),
                    ..st
                },
            )
        },
        NodeV::Output(d) => if st.ptr >= st.mem_size {
            RunOut::Fault(d, st)
        } else {
            RunOut::Done(StateV { output: st.output.push(st.mem[st.ptr as int]), ..st })
        },
        NodeV::Input(d) => {
            let (b, st1) = read_in(st);
            if st1.ptr >= st1.mem_size {
                RunOut::Fault(d, st1)
            } else {
                RunOut::Done(StateV { mem: st1.mem.update(st1.ptr as int, b), ..st1 })
            }
        },
        NodeV::Loop(body, d) => {
            if st.ptr >= st.mem_size {
                RunOut::Fault(d, st)
            } else if st.mem[st.ptr as int] == 0 {
                RunOut::Done(st)
            } else if fuel == 0 {
                RunOut::OutOfFuel
            } else {
                match run_seq(body, st, (fuel - 1) as nat) {
                    RunOut::Done(st1) => run_node(n, st1, (fuel - 1) as nat),
                    r => r,
                }
            }
        },
    }
}

/// Running an instruction sequence in order, stopping at the first fault
/// or exhausted budget.
pub open spec fn run_seq(nodes: Seq<NodeV>, st: StateV, fuel: nat) -> RunOut
    decreases fuel, nodes,
{
    if nodes.len() == 0 {
        RunOut::Done(st)
    } else {
        match run_node(nodes[0], st, fuel) {
            RunOut::Done(st1) => run_seq(nodes.drop_first(), st1, fuel),
            r => r,
        }
    }
}

/// The state a fresh execution starts from: zeroed memory of the configured
/// size, the cursor centered, the whole input ahead, no output.
pub open spec fn init_state(mem_size: usize, input: Seq<u8>) -> StateV {
    StateV {
        ptr: mem_size / 2,
        mem: Seq::new(mem_size as nat, |i: int| 0u8),
        mem_size: mem_size,
        input: input,
        input_pos: 0,
        output: Seq::empty(),
    }
}

/// The sole execution-time fault: the cursor stood at or beyond the
/// configured size when an instruction touched memory.
#[derive(Debug, PartialEq, Eq)]
pub enum ExecError {
    OutOfBounds(DebugInfo),
}

/// How the interpreter reports a specified outcome: `Some(Ok)` for a normal
/// finish, `Some(Err)` for a fault at the recorded position, `None` when
/// the loop budget ran out.
pub open spec fn reflects(status: Option<Result<(), ExecError>>, st: StateV, out: RunOut) -> bool {
    match out {
        RunOut::Done(s) => status == Some(Result::<(), ExecError>::Ok(())) && st == s,
        RunOut::Fault(d, s) => match status {
            Some(Result::Err(ExecError::OutOfBounds(e))) => e@ == d && st == s,
            _ => false,
        },
        RunOut::OutOfFuel => status is None,
    }
}

/// The interpreter's mutable state: cursor, memory, size, input and output.
pub struct ProgramState {
    pub ptr: usize,
    pub mem: Vec<u8>,
    pub mem_size: usize,
    pub input: Vec<u8>,
    pub input_pos: usize,
    pub output: Vec<u8>,
}

impl View for ProgramState {
    type V = StateV;

    open spec fn view(&self) -> StateV {
        StateV {
            ptr: self.ptr,
            mem: self.mem@,
            mem_size: self.mem_size,
            input: self.input@,
            input_pos: self.input_pos as nat,
            output: self.output@,
        }
    }
}

impl ProgramState {
    /// A fresh state over `mem_size` zeroed cells with the cursor centered,
    /// ready to consume `input`.
    #[verifier::loop_isolation(false)]
    pub fn new(mem_size: usize, input: Vec<u8>) -> (st: ProgramState)
        ensures
            st@ == init_state(mem_size, input@),
            st@.wf(),
    {
        let mut mem: Vec<u8> = Vec::with_capacity(mem_size);
        while mem.len() < mem_size
            invariant
                mem@.len() <= mem_size,
                forall|i: int| 0 <= i < mem@.len() ==> mem@[i] == 0u8,
            decreases mem_size - mem@.len(),
        {
            mem.push(0);
        }
        let st = ProgramState {
            ptr: mem_size / 2,
            mem: mem,
            mem_size: mem_size,
            input: input,
            input_pos: 0,
            output: Vec::new(),
        };
        proof {
            assert(st@ =~= init_state(mem_size, st.input@));
        }
        st
    }

    /// Whether the cursor stands at or beyond the configured size: the one
    /// bounds test every memory touch makes.
    pub fn is_oob(&self) -> (r: bool)
        ensures
            r == (self@.ptr >= self@.mem_size),
    {
        self.ptr >= self.mem_size
    }
}

/// An instruction tree fixed for execution, with its configured memory size.
pub struct Program {
    pub ast: Ast,
    pub mem_size: usize,
}

impl Program {
    /// Fixes a tree and a memory size for execution.
    pub fn new(ast: Ast, mem_size: usize) -> (p: Program)
        ensures
            p.ast@ == ast@,
            p.mem_size == mem_size,
    {
        Program { ast: ast, mem_size: mem_size }
    }

    /// Runs one instruction against `state`.
    #[verifier::loop_isolation(false)]
    fn exec_node(state: &mut ProgramState, node: &Node, fuel: u64) -> (r: Option<
        Result<(), ExecError>,
    >)
        requires
            old(state)@.wf(),
        ensures
            final(state)@.wf(),
            reflects(r, final(state)@, run_node(node@, old(state)@, fuel as nat)),
        decreases node,
    {
        match node {
            Node::IncPtr(v, _) => {
                state.ptr = state.ptr.wrapping_add(*v);
                proof {
                    assert(state@ =~= (StateV { ptr: old(state)@.ptr.wrapping_add(*v), ..old(state)@ }));
                }
                Some(Ok(()))
            }
            Node::DecPtr(v, _) => {
                state.ptr = state.ptr.wrapping_sub(*v);
                proof {
                    assert(state@ =~= (StateV { ptr: old(state)@.ptr.wrapping_sub(*v), ..old(state)@ }));
                }
                Some(Ok(()))
            }
            Node::Increment(v, d) => {
                if state.is_oob() {
                    return Some(Err(ExecError::OutOfBounds(d.clone())));
                }
                let val = state.mem[state.ptr].wrapping_add(*v);
                state.mem[state.ptr] = val;
                proof {
                    assert(state@ =~= (StateV {
                        mem: old(state)@.mem.update(
                            old(state)@.ptr as int,
                            old(state)@.mem[old(state)@.ptr as int].wrapping_add(*v),
                        ),
                        ..old(state)@
                    }));
                }
                Some(Ok(()))
            }
            Node::Decrement(v, d) => {
                if state.is_oob() {
                    return Some(Err(ExecError::OutOfBounds(d.clone())));
                }
                let val = state.mem[state.ptr].wrapping_sub(*v);
                state.mem[state.ptr] = val;
                proof {
                    assert(state@ =~= (StateV {
                        mem: old(state)@.mem.update(
                            old(state)@.ptr as int,
                            old(state)@.mem[old(state)@.ptr as int].wrapping_sub(*v),
                        ),
                        ..old(state)@
                    }));
                }
                Some(Ok(()))
            }
            Node::Output(d) => {
                if state.is_oob() {
                    return Some(Err(ExecError::OutOfBounds(d.clone())));
                }
                let b = state.mem[state.ptr];
                state.output.push(b);
                proof {
                    assert(state@ =~= (StateV {
                        output: old(state)@.output.push(old(state)@.mem[old(state)@.ptr as int]),
                        ..old(state)@
                    }));
                }
                Some(Ok(()))
            }
            Node::Input(d) => {
                let b: u8;
                if state.input_pos < state.input.len() {
                    b = state.input[state.input_pos];
                    state.input_pos = state.input_pos + 1;
                } else {
                    b = 255;
                }
                proof {
                    assert((b, state@) == read_in(old(state)@));
                }
                if state.is_oob() {
                    return Some(Err(ExecError::OutOfBounds(d.clone())));
                }
                let ghost st1 = state@;
                state.mem[state.ptr] = b;
                proof {
                    assert(state@ =~= (StateV { mem: st1.mem.update(st1.ptr as int, b), ..st1 }));
                }
                Some(Ok(()))
            }
            Node::Loop(body, d) => {
                let ghost nv = node@;
                proof {
                    assert(nv == NodeV::Loop(nodes_view(body@), d@));
                }
                let mut f = fuel;
                loop
                    invariant
                        state@.wf(),
                        f <= fuel,
                        run_node(nv, old(state)@, fuel as nat) == run_node(nv, state@, f as nat),
                    decreases f,
                {
                    if state.is_oob() {
                        return Some(Err(ExecError::OutOfBounds(d.clone())));
                    }
                    if state.mem[state.ptr] == 0 {
                        return Some(Ok(()));
                    }
                    if f == 0 {
                        return None;
                    }
                    let ghost pre = state@;
                    proof {
                        assert(decreases_to!(node => node->Loop_0));
                    }
                    let r = Program::exec_nodes(state, body, f - 1);
                    proof {
                        assert(run_node(nv, pre, f as nat) == (match run_seq(
                            nodes_view(body@),
                            pre,
                            (f - 1) as nat,
                        ) {
                            RunOut::Done(st1) => run_node(nv, st1, (f - 1) as nat),
                            r2 => r2,
                        }));
                    }
                    match r {
                        Some(Ok(())) => {
                            f = f - 1;
                        }
                        Some(Err(e)) => {
                            return Some(Err(e));
                        }
                        None => {
                            return None;
                        }
                    }
                }
            }
        }
    }

    /// Runs an instruction sequence against `state`, reporting what the
    /// specification `run_seq` assigns to it.
    #[verifier::loop_isolation(false)]
    pub fn exec_nodes(state: &mut ProgramState, nodes: &Vec<Node>, fuel: u64) -> (r: Option<
        Result<(), ExecError>,
    >)
        requires
            old(state)@.wf(),
        ensures
            final(state)@.wf(),
            reflects(r, final(state)@, run_seq(nodes_view(nodes@), old(state)@, fuel as nat)),
        decreases nodes,
    {
        let ghost dn = nodes_view(nodes@);
        let mut i: usize = 0;
        proof {
            assert(dn.skip(0) =~= dn);
        }
        while i < nodes.len()
            invariant
                i <= nodes@.len(),
                state@.wf(),
                run_seq(dn, old(state)@, fuel as nat) == run_seq(
                    dn.skip(i as int),
                    state@,
                    fuel as nat,
                ),
            decreases nodes@.len() - i,
        {
            let ghost pre = state@;
            proof {
                assert(dn.skip(i as int)[0] == dn[i as int]);
                assert(dn.skip(i as int).drop_first() =~= dn.skip(i as int + 1));
                assert(decreases_to!(nodes => nodes[i as int]));
            }
            let r = Program::exec_node(state, &nodes[i], fuel);
            match r {
                Some(Ok(())) => {
                    i = i + 1;
                }
                Some(Err(e)) => {
                    return Some(Err(e));
                }
                None => {
                    return None;
                }
            }
        }
        proof {
            assert(dn.skip(dn.len() as int) =~= Seq::<NodeV>::empty());
        }
        Some(Ok(()))
    }

    /// Runs the whole program on `input` from a fresh state, handing back
    /// both the report and the final state.
    pub fn exec(&self, input: Vec<u8>, fuel: u64) -> (r: (
        Option<Result<(), ExecError>>,
        ProgramState,
    ))
        ensures
            r.1@.wf(),
            reflects(r.0, r.1@, run_seq(self.ast@, init_state(self.mem_size, input@), fuel as nat)),
    {
        let mut state = ProgramState::new(self.mem_size, input);
        let status = Program::exec_nodes(&mut state, &self.ast.nodes, fuel);
        (status, state)
    }
}

} // verus!
