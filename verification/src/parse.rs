//! Recursive-descent construction of the instruction tree from the symbol
//! sequence.
//!
//! The specification `parse_run` walks the symbols once, left to right,
//! keeping a stack of suspended loop bodies: an open bracket pushes the
//! nodes collected so far, a close bracket pops the stack and wraps the
//! collected body in a loop node. A close bracket with an empty stack is
//! reported at its own position; exhausting the input with a non-empty
//! stack is reported at the innermost open bracket still unmatched.

use vstd::prelude::*;
use crate::debug::DebugInfo;
use crate::debug::DebugV;
use crate::symbol::Symbol;
use crate::symbol::SymV;
use crate::symbol::syms_view;
use crate::node::Node;
use crate::node::NodeV;
use crate::node::node_image;
use crate::node::nodes_view;
use crate::node::lemma_nodes_view;
use crate::node::Ast;

verus! {

broadcast use lemma_nodes_view;

/// The only way a parse fails: a bracket with no partner, at the position
/// the specification `parse_run` assigns to it.
#[derive(Debug, PartialEq, Eq)]
pub enum ParseError {
    UnmatchedLoop(DebugInfo),
}

/// What one step of the descent reported to its caller.
enum ParseResult {
    UnmatchedLoop(DebugInfo),
    CloseLoop(DebugInfo),
    Parsed,
    Eof,
}

/// A loop suspended while its body is collected: the nodes gathered before
/// its open bracket, and that bracket's position.
pub struct FrameV {
    pub nodes: Seq<NodeV>,
    pub open: DebugV,
}

/// The parse of `syms` from position `i` onward, with `stack` the suspended
/// enclosing loops and `acc` the nodes collected at the current depth.
pub open spec fn parse_run(syms: Seq<SymV>, i: nat, stack: Seq<FrameV>, acc: Seq<NodeV>) -> Result<
    Seq<NodeV>,
    DebugV,
>
    decreases syms.len() - i,
{
    if i >= syms.len() {
        if stack.len() == 0 {
            Ok(acc)
        } else {
            Err(stack.last().open)
        }
    } else {
        match syms[i as int] {
            SymV::OpenBlock(d) => parse_run(
                syms,
                i + 1,
                stack.push(FrameV { nodes: acc, open: d }),
                Seq::empty(),
            ),
            SymV::CloseBlock(d) => if stack.len() == 0 {
                Err(d)
            } else {
                parse_run(
                    syms,
                    i + 1,
                    stack.drop_last(),
                    stack.last().nodes.push(NodeV::Loop(acc, stack.last().open)),
                )
            },
            SymV::IncPtr(d) => parse_run(syms, i + 1, stack, acc.push(NodeV::IncPtr(1, d))),
            SymV::DecPtr(d) => parse_run(syms, i + 1, stack, acc.push(NodeV::DecPtr(1, d))),
            SymV::Increment(d) => parse_run(syms, i + 1, stack, acc.push(NodeV::Increment(1, d))),
            SymV::Decrement(d) => parse_run(syms, i + 1, stack, acc.push(NodeV::Decrement(1, d))),
            SymV::Output(d) => parse_run(syms, i + 1, stack, acc.push(NodeV::Output(d))),
            SymV::Input(d) => parse_run(syms, i + 1, stack, acc.push(NodeV::Input(d))),
        }
    }
}

/// The parse of a whole symbol sequence.
pub open spec fn parsed(syms: Seq<SymV>) -> Result<Seq<NodeV>, DebugV> {
    parse_run(syms, 0, Seq::empty(), Seq::empty())
}

impl Ast {
    /// Consumes one symbol, or one whole loop when that symbol is an open
    /// bracket, appending the produced node to `nodes`.
    #[verifier::loop_isolation(false)]
    fn add_node(nodes: &mut Vec<Node>, symbols: &Vec<Symbol>, pos: &mut usize) -> (r: ParseResult)
        requires
            *old(pos) <= symbols@.len(),
        ensures
            *final(pos) >= *old(pos),
            *final(pos) <= symbols@.len(),
            match r {
                ParseResult::Parsed => {
                    &&& *final(pos) > *old(pos)
                    &&& final(nodes)@.len() == old(nodes)@.len() + 1
                    &&& nodes_view(final(nodes)@) == nodes_view(old(nodes)@).push(
                        node_image(final(nodes)@.last()),
                    )
                    &&& forall|stack: Seq<FrameV>, acc: Seq<NodeV>|
                        #[trigger] parse_run(syms_view(symbols@), *old(pos) as nat, stack, acc)
                            == parse_run(
                            syms_view(symbols@),
                            *final(pos) as nat,
                            stack,
                            acc.push(node_image(final(nodes)@.last())),
                        )
                },
                ParseResult::Eof => {
                    &&& *final(pos) == *old(pos)
                    &&& *old(pos) == symbols@.len()
                    &&& final(nodes)@ == old(nodes)@
                },
                ParseResult::CloseLoop(d) => {
                    &&& *old(pos) < symbols@.len()
                    &&& syms_view(symbols@)[*old(pos) as int] == SymV::CloseBlock(d@)
                    &&& *final(pos) == *old(pos) + 1
                    &&& final(nodes)@ == old(nodes)@
                },
                ParseResult::UnmatchedLoop(d) => forall|stack: Seq<FrameV>, acc: Seq<NodeV>|
                    #[trigger] parse_run(syms_view(symbols@), *old(pos) as nat, stack, acc) == Err::<
                        Seq<NodeV>,
                        DebugV,
                    >(d@),
            },
        decreases symbols@.len() - *old(pos),
    {
        let ghost s = syms_view(symbols@);
        let ghost p0 = *pos as nat;
        if *pos >= symbols.len() {
            return ParseResult::Eof;
        }
        let sym = &symbols[*pos];
        *pos = *pos + 1;
        proof {
            assert(s[p0 as int] == symbols@[p0 as int]@);
        }
        match sym {
            Symbol::IncPtr(d) => {
                nodes.push(Node::IncPtr(1, d.clone()));
                proof {
                    lemma_leaf_step(s, p0, nodes@, old(nodes)@);
                }
                ParseResult::Parsed
            }
            Symbol::DecPtr(d) => {
                nodes.push(Node::DecPtr(1, d.clone()));
                proof {
                    lemma_leaf_step(s, p0, nodes@, old(nodes)@);
                }
                ParseResult::Parsed
            }
            Symbol::Increment(d) => {
                nodes.push(Node::Increment(1, d.clone()));
                proof {
                    lemma_leaf_step(s, p0, nodes@, old(nodes)@);
                }
                ParseResult::Parsed
            }
            Symbol::Decrement(d) => {
                nodes.push(Node::Decrement(1, d.clone()));
                proof {
                    lemma_leaf_step(s, p0, nodes@, old(nodes)@);
                }
                ParseResult::Parsed
            }
            Symbol::Output(d) => {
                nodes.push(Node::Output(d.clone()));
                proof {
                    lemma_leaf_step(s, p0, nodes@, old(nodes)@);
                }
                ParseResult::Parsed
            }
            Symbol::Input(d) => {
                nodes.push(Node::Input(d.clone()));
                proof {
                    lemma_leaf_step(s, p0, nodes@, old(nodes)@);
                }
                ParseResult::Parsed
            }
            Symbol::CloseBlock(d) => ParseResult::CloseLoop(d.clone()),
            Symbol::OpenBlock(d) => {
                let open_debug = d.clone();
                let ghost dv = open_debug@;
                let mut loop_body: Vec<Node> = Vec::new();
                proof {
                    assert(nodes_view(loop_body@) =~= Seq::<NodeV>::empty());
                }
                let mut closed = false;
                while !closed
                    invariant
                        *pos <= symbols@.len(),
                        *pos > p0,
                        !closed ==> invariant_equation(s, p0, *pos as nat, dv, nodes_view(loop_body@)),
                        closed ==> forall|stack: Seq<FrameV>, acc: Seq<NodeV>|
                            #[trigger] parse_run(s, p0, stack, acc) == parse_run(
                                s,
                                *pos as nat,
                                stack,
                                acc.push(NodeV::Loop(nodes_view(loop_body@), dv)),
                            ),
                    decreases symbols@.len() - *pos,
                {
                    let ghost p_pre = *pos as nat;
                    let ghost body_pre = nodes_view(loop_body@);
                    match Ast::add_node(&mut loop_body, symbols, pos) {
                        ParseResult::UnmatchedLoop(d2) => {
                            proof {
                                assert forall|stack: Seq<FrameV>, acc: Seq<NodeV>|
                                    #[trigger] parse_run(s, p0, stack, acc) == Err::<
                                        Seq<NodeV>,
                                        DebugV,
                                    >(d2@) by {
                                    let frame = FrameV { nodes: acc, open: dv };
                                    assert(parse_run(s, p_pre, stack.push(frame), body_pre) == Err::<
                                        Seq<NodeV>,
                                        DebugV,
                                    >(d2@));
                                }
                            }
                            return ParseResult::UnmatchedLoop(d2);
                        }
                        ParseResult::CloseLoop(_) => {
                            proof {
                                assert forall|stack: Seq<FrameV>, acc: Seq<NodeV>|
                                    #[trigger] parse_run(s, p0, stack, acc) == parse_run(
                                        s,
                                        *pos as nat,
                                        stack,
                                        acc.push(NodeV::Loop(nodes_view(loop_body@), dv)),
                                    ) by {
                                    let frame = FrameV { nodes: acc, open: dv };
                                    assert(parse_run(s, p0, stack, acc) == parse_run(
                                        s,
                                        p_pre,
                                        stack.push(frame),
                                        body_pre,
                                    ));
                                    assert(stack.push(frame).drop_last() =~= stack);
                                    assert(parse_run(s, p_pre, stack.push(frame), body_pre)
                                        == parse_run(
                                        s,
                                        p_pre + 1,
                                        stack,
                                        acc.push(NodeV::Loop(body_pre, dv)),
                                    ));
                                }
                            }
                            closed = true;
                        }
                        ParseResult::Parsed => {
                            proof {
                                let nv = node_image(loop_body@.last());
                                assert forall|stack: Seq<FrameV>, acc: Seq<NodeV>|
                                    #[trigger] parse_run(s, p0, stack, acc) == parse_run(
                                        s,
                                        *pos as nat,
                                        stack.push(FrameV { nodes: acc, open: dv }),
                                        nodes_view(loop_body@),
                                    ) by {
                                    let frame = FrameV { nodes: acc, open: dv };
                                    assert(parse_run(s, p0, stack, acc) == parse_run(
                                        s,
                                        p_pre,
                                        stack.push(frame),
                                        body_pre,
                                    ));
                                    assert(parse_run(s, p_pre, stack.push(frame), body_pre)
                                        == parse_run(
                                        s,
                                        *pos as nat,
                                        stack.push(frame),
                                        body_pre.push(nv),
                                    ));
                                    assert(nodes_view(loop_body@) =~= body_pre.push(nv));
                                }
                            }
                        }
                        ParseResult::Eof => {
                            proof {
                                assert forall|stack: Seq<FrameV>, acc: Seq<NodeV>|
                                    #[trigger] parse_run(s, p0, stack, acc) == Err::<
                                        Seq<NodeV>,
                                        DebugV,
                                    >(dv) by {
                                    let frame = FrameV { nodes: acc, open: dv };
                                    assert(parse_run(s, p0, stack, acc) == parse_run(
                                        s,
                                        p_pre,
                                        stack.push(frame),
                                        body_pre,
                                    ));
                                    assert(parse_run(s, p_pre, stack.push(frame), body_pre) == Err::<
                                        Seq<NodeV>,
                                        DebugV,
                                    >(stack.push(frame).last().open));
                                }
                            }
                            return ParseResult::UnmatchedLoop(open_debug);
                        }
                    }
                }
                let ghost body_final = nodes_view(loop_body@);
                nodes.push(Node::Loop(loop_body, open_debug));
                proof {
                    assert(nodes_view(nodes@) =~= nodes_view(old(nodes)@).push(
                        NodeV::Loop(body_final, dv),
                    ));
                    assert(node_image(nodes@.last()) == NodeV::Loop(body_final, dv));
                }
                ParseResult::Parsed
            }
        }
    }

    /// Builds the instruction tree the specification `parsed` assigns to the
    /// symbols, or reports the offending bracket.
    #[verifier::loop_isolation(false)]
    pub fn parse(symbols: Vec<Symbol>) -> (r: Result<Ast, ParseError>)
        ensures
            match r {
                Ok(ast) => parsed(syms_view(symbols@)) == Ok::<Seq<NodeV>, DebugV>(ast@),
                Err(e) => {
                    &&& e matches ParseError::UnmatchedLoop(d)
                    &&& parsed(syms_view(symbols@)) == Err::<Seq<NodeV>, DebugV>(d@)
                },
            },
    {
        let ghost s = syms_view(symbols@);
        let mut nodes: Vec<Node> = Vec::new();
        let mut pos: usize = 0;
        proof {
            assert(nodes_view(nodes@) =~= Seq::<NodeV>::empty());
        }
        loop
            invariant
                pos <= symbols@.len(),
                symbols@.len() == s.len(),
                parsed(s) == parse_run(s, pos as nat, Seq::empty(), nodes_view(nodes@)),
            decreases symbols@.len() - pos,
        {
            let ghost p_pre = pos as nat;
            let ghost acc_pre = nodes_view(nodes@);
            match Ast::add_node(&mut nodes, &symbols, &mut pos) {
                ParseResult::Parsed => {
                    proof {
                        let nv = node_image(nodes@.last());
                        assert(parse_run(s, p_pre, Seq::empty(), acc_pre) == parse_run(
                            s,
                            pos as nat,
                            Seq::empty(),
                            acc_pre.push(nv),
                        ));
                        assert(nodes_view(nodes@) =~= acc_pre.push(nv));
                    }
                }
                ParseResult::UnmatchedLoop(d) => {
                    proof {
                        assert(parse_run(s, p_pre, Seq::empty(), acc_pre) == Err::<
                            Seq<NodeV>,
                            DebugV,
                        >(d@));
                    }
                    return Err(ParseError::UnmatchedLoop(d));
                }
                ParseResult::CloseLoop(d) => {
                    proof {
                        assert(parse_run(s, p_pre, Seq::empty(), acc_pre) == Err::<
                            Seq<NodeV>,
                            DebugV,
                        >(d@));
                    }
                    return Err(ParseError::UnmatchedLoop(d));
                }
                ParseResult::Eof => {
                    return Ok(Ast { nodes });
                }
            }
        }
    }
}

/// The step equation maintained while a loop body is collected: parsing from
/// the open bracket equals parsing from `here` with the bracket's frame
/// pushed and `body` collected so far.
spec fn invariant_equation(
    s: Seq<SymV>,
    p0: nat,
    here: nat,
    dv: DebugV,
    body: Seq<NodeV>,
) -> bool {
    forall|stack: Seq<FrameV>, acc: Seq<NodeV>|
        #[trigger] parse_run(s, p0, stack, acc) == parse_run(
            s,
            here,
            stack.push(FrameV { nodes: acc, open: dv }),
            body,
        )
}

/// One leaf symbol appends one unit node and moves one symbol ahead.
proof fn lemma_leaf_step(s: Seq<SymV>, p0: nat, nodes_post: Seq<Node>, nodes_pre: Seq<Node>)
    requires
        p0 < s.len(),
        !(s[p0 as int] is OpenBlock),
        !(s[p0 as int] is CloseBlock),
        nodes_post.len() == nodes_pre.len() + 1,
        nodes_post.drop_last() =~= nodes_pre,
        node_image(nodes_post.last()) == leaf_node_of(s[p0 as int]),
    ensures
        nodes_view(nodes_post) == nodes_view(nodes_pre).push(node_image(nodes_post.last())),
        forall|stack: Seq<FrameV>, acc: Seq<NodeV>|
            #[trigger] parse_run(s, p0, stack, acc) == parse_run(
                s,
                p0 + 1,
                stack,
                acc.push(node_image(nodes_post.last())),
            ),
{
    assert(nodes_view(nodes_post) =~= nodes_view(nodes_pre).push(node_image(nodes_post.last())));
}

/// The unit node a leaf symbol parses to. Bracket symbols parse to no
/// node of their own; their arms here are arbitrary and never relied on.
pub open spec fn leaf_node_of(sym: SymV) -> NodeV {
    match sym {
        SymV::IncPtr(d) => NodeV::IncPtr(1, d),
        SymV::DecPtr(d) => NodeV::DecPtr(1, d),
        SymV::Increment(d) => NodeV::Increment(1, d),
        SymV::Decrement(d) => NodeV::Decrement(1, d),
        SymV::Output(d) => NodeV::Output(d),
        SymV::Input(d) => NodeV::Input(d),
        SymV::OpenBlock(d) => NodeV::Output(d),
        SymV::CloseBlock(d) => NodeV::Output(d),
    }
}

} // verus!
