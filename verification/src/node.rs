//! The instruction tree built by the parser and rewritten by the optimizer.

use vstd::prelude::*;
use crate::debug::DebugInfo;
use crate::debug::DebugV;

verus! {

/// One instruction. Delta instructions carry a coalesced repeat count:
/// a pointer delta counts in cursor steps (index width), a cell delta in
/// byte increments (byte width). A loop owns its body.
#[derive(Debug, PartialEq, Eq)]
pub enum Node {
    Loop(Vec<Node>, DebugInfo),
    IncPtr(usize, DebugInfo),
    DecPtr(usize, DebugInfo),
    Increment(u8, DebugInfo),
    Decrement(u8, DebugInfo),
    Output(DebugInfo),
    Input(DebugInfo),
}

/// The mathematical image of a `Node`.
pub enum NodeV {
    Loop(Seq<NodeV>, DebugV),
    IncPtr(usize, DebugV),
    DecPtr(usize, DebugV),
    Increment(u8, DebugV),
    Decrement(u8, DebugV),
    Output(DebugV),
    Input(DebugV),
}

/// The image of one node; loop bodies are mirrored recursively.
pub open spec fn node_image(n: Node) -> NodeV
    decreases n,
    via node_image_decreases
{
    match n {
        Node::Loop(body, d) => NodeV::Loop(nodes_view(body@), d@),
        Node::IncPtr(v, d) => NodeV::IncPtr(v, d@),
        Node::DecPtr(v, d) => NodeV::DecPtr(v, d@),
        Node::Increment(v, d) => NodeV::Increment(v, d@),
        Node::Decrement(v, d) => NodeV::Decrement(v, d@),
        Node::Output(d) => NodeV::Output(d@),
        Node::Input(d) => NodeV::Input(d@),
    }
}

#[via_fn]
proof fn node_image_decreases(n: Node) {
    match n {
        Node::Loop(body, d) => {
            assert(decreases_to!(n => body));
            assert(decreases_to!(body => body@));
        }
        _ => {}
    }
}

/// The image of a node sequence, element by element.
pub open spec fn nodes_view(s: Seq<Node>) -> Seq<NodeV>
    decreases s,
{
    if s.len() == 0 {
        Seq::empty()
    } else {
        seq![node_image(s[0])] + nodes_view(s.drop_first())
    }
}

/// `nodes_view` maps `node_image` over its argument.
pub broadcast proof fn lemma_nodes_view(s: Seq<Node>)
    ensures
        (#[trigger] nodes_view(s)).len() == s.len(),
        forall|i: int| 0 <= i < s.len() ==> nodes_view(s)[i] == node_image(s[i]),
    decreases s.len(),
{
    if s.len() > 0 {
        lemma_nodes_view(s.drop_first());
        assert forall|i: int| 0 <= i < s.len() implies nodes_view(s)[i] == node_image(s[i]) by {
            if i > 0 {
                assert(nodes_view(s)[i] == nodes_view(s.drop_first())[i - 1]);
                assert(s.drop_first()[i - 1] == s[i]);
            }
        }
    }
}

impl View for Node {
    type V = NodeV;

    open spec fn view(&self) -> NodeV {
        node_image(*self)
    }
}

/// How many nodes a tree holds, the node itself included.
pub open spec fn node_size(n: NodeV) -> nat
    decreases n,
    via node_size_decreases
{
    match n {
        NodeV::Loop(body, _) => 1 + seq_size(body),
        _ => 1,
    }
}

#[via_fn]
proof fn node_size_decreases(n: NodeV) {
    match n {
        NodeV::Loop(body, _) => {
            assert(decreases_to!(n => body));
        }
        _ => {}
    }
}

/// How many nodes a sequence of trees holds in all.
pub open spec fn seq_size(s: Seq<NodeV>) -> nat
    decreases s,
{
    if s.len() == 0 {
        0
    } else {
        node_size(s[0]) + seq_size(s.drop_first())
    }
}

/// Every tree holds at least its own node.
pub broadcast proof fn lemma_node_size_pos(n: NodeV)
    ensures
        #[trigger] node_size(n) >= 1,
{
}


/// The position a node carries.
pub open spec fn debug_of(n: NodeV) -> DebugV {
    match n {
        NodeV::Loop(_, d) => d,
        NodeV::IncPtr(_, d) => d,
        NodeV::DecPtr(_, d) => d,
        NodeV::Increment(_, d) => d,
        NodeV::Decrement(_, d) => d,
        NodeV::Output(d) => d,
        NodeV::Input(d) => d,
    }
}

/// The top-level instruction sequence of a program.
#[derive(Debug, PartialEq, Eq)]
pub struct Ast {
    pub nodes: Vec<Node>,
}

impl View for Ast {
    type V = Seq<NodeV>;

    open spec fn view(&self) -> Seq<NodeV> {
        nodes_view(self.nodes@)
    }
}

} // verus!
