//! Run-length coalescing of adjacent identical delta instructions.
//!
//! The specification `coalesce` merges neighboring pointer or cell deltas of
//! one kind into a single node whose count is the wrapping sum of the run,
//! keeps every output and input node as it stands, and rewrites loop bodies
//! recursively before the loop is re-emitted.

use vstd::prelude::*;
use crate::node::Node;
use crate::node::NodeV;
use crate::node::nodes_view;
use crate::node::lemma_nodes_view;
use crate::node::node_size;
use crate::node::seq_size;
use crate::node::lemma_node_size_pos;
use crate::node::Ast;

verus! {

broadcast use lemma_nodes_view, lemma_node_size_pos;

/// The shape of an instruction, which alone decides what coalesces.
pub enum OpTag {
    KLoop,
    KIncPtr,
    KDecPtr,
    KIncrement,
    KDecrement,
    KOutput,
    KInput,
}

/// The shape of a node.
pub open spec fn tag_of(n: NodeV) -> OpTag {
    match n {
        NodeV::Loop(_, _) => OpTag::KLoop,
        NodeV::IncPtr(_, _) => OpTag::KIncPtr,
        NodeV::DecPtr(_, _) => OpTag::KDecPtr,
        NodeV::Increment(_, _) => OpTag::KIncrement,
        NodeV::Decrement(_, _) => OpTag::KDecrement,
        NodeV::Output(_) => OpTag::KOutput,
        NodeV::Input(_) => OpTag::KInput,
    }
}

/// Two neighbors coalesce exactly when they are delta instructions of one
/// kind; output and input nodes never coalesce.
pub open spec fn mergeable(a: NodeV, b: NodeV) -> bool {
    tag_of(a) == tag_of(b) && match tag_of(a) {
        OpTag::KIncPtr => true,
        OpTag::KDecPtr => true,
        OpTag::KIncrement => true,
        OpTag::KDecrement => true,
        _ => false,
    }
}

/// The single node a mergeable pair collapses to: the first node's kind and
/// position, the counts added with wraparound at their natural width.
pub open spec fn merged(a: NodeV, b: NodeV) -> NodeV {
    match (a, b) {
        (NodeV::IncPtr(v, d), NodeV::IncPtr(w, _)) => NodeV::IncPtr(v.wrapping_add(w), d),
        (NodeV::DecPtr(v, d), NodeV::DecPtr(w, _)) => NodeV::DecPtr(v.wrapping_add(w), d),
        (NodeV::Increment(v, d), NodeV::Increment(w, _)) => NodeV::Increment(v.wrapping_add(w), d),
        (NodeV::Decrement(v, d), NodeV::Decrement(w, _)) => NodeV::Decrement(v.wrapping_add(w), d),
        _ => a,
    }
}

/// The coalesced form of an instruction sequence.
pub open spec fn coalesce(s: Seq<NodeV>) -> Seq<NodeV>
    decreases seq_size(s),
    via coalesce_decreases
{
    if s.len() == 0 {
        Seq::empty()
    } else {
        match s[0] {
            NodeV::Loop(body, d) => seq![NodeV::Loop(coalesce(body), d)] + coalesce(s.drop_first()),
            _ => {
                if s.len() >= 2 && mergeable(s[0], s[1]) {
                    coalesce(seq![merged(s[0], s[1])] + s.skip(2))
                } else {
                    seq![s[0]] + coalesce(s.drop_first())
                }
            },
        }
    }
}

#[via_fn]
proof fn coalesce_decreases(s: Seq<NodeV>) {
    if s.len() > 0 {
        assert(seq_size(s) == node_size(s[0]) + seq_size(s.drop_first()));
        match s[0] {
            NodeV::Loop(_, _) => {}
            _ => {
                if s.len() >= 2 && mergeable(s[0], s[1]) {
                    let m = seq![merged(s[0], s[1])] + s.skip(2);
                    assert(s.drop_first()[0] == s[1]);
                    assert(s.drop_first().drop_first() =~= s.skip(2));
                    assert(seq_size(s.drop_first()) == node_size(s[1]) + seq_size(s.skip(2)));
                    assert(m[0] == merged(s[0], s[1]));
                    assert(m.drop_first() =~= s.skip(2));
                    assert(seq_size(m) == node_size(m[0]) + seq_size(s.skip(2)));
                    assert(node_size(m[0]) == 1);
                }
            },
        }
    }
}

/// Splitting off the head of a suffix leaves the coalesced form unchanged.
proof fn lemma_cons_skip(dn: Seq<NodeV>, i: int)
    requires
        0 <= i < dn.len(),
    ensures
        coalesce(dn.skip(i)) == coalesce(seq![dn[i]] + dn.skip(i + 1)),
{
    assert(dn.skip(i) =~= seq![dn[i]] + dn.skip(i + 1));
}

/// Absorbing the next node of a run into the accumulator.
proof fn lemma_absorb_step(dn: Seq<NodeV>, j: int, cur: NodeV)
    requires
        0 <= j < dn.len(),
        mergeable(cur, dn[j]),
        !(cur is Loop),
    ensures
        coalesce(seq![cur] + dn.skip(j)) == coalesce(seq![merged(cur, dn[j])] + dn.skip(j + 1)),
{
    let sp = seq![cur] + dn.skip(j);
    assert(sp[0] == cur);
    assert(sp[1] == dn[j]);
    assert(sp.len() >= 2);
    assert(sp.skip(2) =~= dn.skip(j + 1));
    assert(coalesce(sp) == coalesce(seq![merged(sp[0], sp[1])] + sp.skip(2)));
    assert(seq![merged(sp[0], sp[1])] + sp.skip(2) =~= seq![merged(cur, dn[j])] + dn.skip(j + 1));
}

/// A run ends where the input ends or the next node does not merge.
proof fn lemma_run_exit(dn: Seq<NodeV>, j: int, cur: NodeV)
    requires
        0 <= j <= dn.len(),
        !(cur is Loop),
        j < dn.len() ==> !mergeable(cur, dn[j]),
    ensures
        coalesce(seq![cur] + dn.skip(j)) == seq![cur] + coalesce(dn.skip(j)),
{
    let sp = seq![cur] + dn.skip(j);
    assert(sp[0] == cur);
    if j < dn.len() {
        assert(sp[1] == dn[j]);
    }
    assert(sp.drop_first() =~= dn.skip(j));
}

impl Ast {
    /// Appends to `opt_nodes` the coalesced form of `nodes`.
    #[verifier::loop_isolation(false)]
    #[verifier::rlimit(100)]
    #[verifier::spinoff_prover]
    pub fn optimize_nodes(opt_nodes: &mut Vec<Node>, nodes: &Vec<Node>)
        ensures
            nodes_view(final(opt_nodes)@) == nodes_view(old(opt_nodes)@) + coalesce(
                nodes_view(nodes@),
            ),
        decreases nodes,
    {
        let ghost dn = nodes_view(nodes@);
        let mut i: usize = 0;
        proof {
            assert(dn.skip(0) =~= dn);
        }
        while i < nodes.len()
            invariant
                i <= nodes@.len(),
                nodes_view(opt_nodes@) + coalesce(dn.skip(i as int)) == nodes_view(
                    old(opt_nodes)@,
                ) + coalesce(dn),
            decreases nodes@.len() - i,
        {
            let ghost out_pre = nodes_view(opt_nodes@);
            proof {
                assert(dn.skip(i as int)[0] == dn[i as int]);
                assert(dn.skip(i as int).drop_first() =~= dn.skip(i as int + 1));
            }
            match &nodes[i] {
                Node::Loop(body, d) => {
                    let mut inner: Vec<Node> = Vec::new();
                    proof {
                        assert(decreases_to!(nodes => nodes[i as int]));
                        assert(decreases_to!(nodes[i as int] => nodes[i as int]->Loop_0));
                    }
                    Ast::optimize_nodes(&mut inner, body);
                    opt_nodes.push(Node::Loop(inner, d.clone()));
                    proof {
                        let lv = NodeV::Loop(coalesce(nodes_view(body@)), d@);
                        assert(nodes_view(inner@) =~= coalesce(nodes_view(body@)));
                        assert(nodes_view(opt_nodes@) =~= out_pre.push(lv));
                        assert(coalesce(dn.skip(i as int)) == seq![lv] + coalesce(
                            dn.skip(i as int + 1),
                        ));
                        assert(out_pre.push(lv) + coalesce(dn.skip(i as int + 1)) =~= out_pre + (
                        seq![lv] + coalesce(dn.skip(i as int + 1))));
                    }
                    i = i + 1;
                }
                Node::IncPtr(v, d) => {
                    let d0 = d.clone();
                    let ghost dv = d0@;
                    let mut value: usize = *v;
                    let mut j = i + 1;
                    proof {
                        lemma_cons_skip(dn, i as int);
                    }
                    let mut more = true;
                    while more
                        invariant
                            i < j <= nodes@.len(),
                            coalesce(dn.skip(i as int)) == coalesce(
                                seq![NodeV::IncPtr(value, dv)] + dn.skip(j as int),
                            ),
                            !more ==> (j == nodes@.len() || !mergeable(
                                NodeV::IncPtr(value, dv),
                                dn[j as int],
                            )),
                        decreases nodes@.len() - j + (if more {
                            1int
                        } else {
                            0int
                        }),
                    {
                        if j < nodes.len() {
                            match &nodes[j] {
                                Node::IncPtr(w, _) => {
                                    proof {
                                        lemma_absorb_step(
                                            dn,
                                            j as int,
                                            NodeV::IncPtr(value, dv),
                                        );
                                        assert(merged(NodeV::IncPtr(value, dv), dn[j as int])
                                            == NodeV::IncPtr(value.wrapping_add(*w), dv));
                                    }
                                    value = value.wrapping_add(*w);
                                    j = j + 1;
                                }
                                _ => {
                                    more = false;
                                }
                            }
                        } else {
                            more = false;
                        }
                    }
                    proof {
                        lemma_run_exit(dn, j as int, NodeV::IncPtr(value, dv));
                    }
                    opt_nodes.push(Node::IncPtr(value, d0));
                    proof {
                        let cur = NodeV::IncPtr(value, dv);
                        assert(nodes_view(opt_nodes@) =~= out_pre.push(cur));
                        assert(out_pre.push(cur) + coalesce(dn.skip(j as int)) =~= out_pre + (
                        seq![cur] + coalesce(dn.skip(j as int))));
                    }
                    i = j;
                }
                Node::DecPtr(v, d) => {
                    let d0 = d.clone();
                    let ghost dv = d0@;
                    let mut value: usize = *v;
                    let mut j = i + 1;
                    proof {
                        lemma_cons_skip(dn, i as int);
                    }
                    let mut more = true;
                    while more
                        invariant
                            i < j <= nodes@.len(),
                            coalesce(dn.skip(i as int)) == coalesce(
                                seq![NodeV::DecPtr(value, dv)] + dn.skip(j as int),
                            ),
                            !more ==> (j == nodes@.len() || !mergeable(
                                NodeV::DecPtr(value, dv),
                                dn[j as int],
                            )),
                        decreases nodes@.len() - j + (if more {
                            1int
                        } else {
                            0int
                        }),
                    {
                        if j < nodes.len() {
                            match &nodes[j] {
                                Node::DecPtr(w, _) => {
                                    proof {
                                        lemma_absorb_step(
                                            dn,
                                            j as int,
                                            NodeV::DecPtr(value, dv),
                                        );
                                        assert(merged(NodeV::DecPtr(value, dv), dn[j as int])
                                            == NodeV::DecPtr(value.wrapping_add(*w), dv));
                                    }
                                    value = value.wrapping_add(*w);
                                    j = j + 1;
                                }
                                _ => {
                                    more = false;
                                }
                            }
                        } else {
                            more = false;
                        }
                    }
                    proof {
                        lemma_run_exit(dn, j as int, NodeV::DecPtr(value, dv));
                    }
                    opt_nodes.push(Node::DecPtr(value, d0));
                    proof {
                        let cur = NodeV::DecPtr(value, dv);
                        assert(nodes_view(opt_nodes@) =~= out_pre.push(cur));
                        assert(out_pre.push(cur) + coalesce(dn.skip(j as int)) =~= out_pre + (
                        seq![cur] + coalesce(dn.skip(j as int))));
                    }
                    i = j;
                }
                Node::Increment(v, d) => {
                    let d0 = d.clone();
                    let ghost dv = d0@;
                    let mut value: u8 = *v;
                    let mut j = i + 1;
                    proof {
                        lemma_cons_skip(dn, i as int);
                    }
                    let mut more = true;
                    while more
                        invariant
                            i < j <= nodes@.len(),
                            coalesce(dn.skip(i as int)) == coalesce(
                                seq![NodeV::Increment(value, dv)] + dn.skip(j as int),
                            ),
                            !more ==> (j == nodes@.len() || !mergeable(
                                NodeV::Increment(value, dv),
                                dn[j as int],
                            )),
                        decreases nodes@.len() - j + (if more {
                            1int
                        } else {
                            0int
                        }),
                    {
                        if j < nodes.len() {
                            match &nodes[j] {
                                Node::Increment(w, _) => {
                                    proof {
                                        lemma_absorb_step(
                                            dn,
                                            j as int,
                                            NodeV::Increment(value, dv),
                                        );
                                        assert(merged(NodeV::Increment(value, dv), dn[j as int])
                                            == NodeV::Increment(value.wrapping_add(*w), dv));
                                    }
                                    value = value.wrapping_add(*w);
                                    j = j + 1;
                                }
                                _ => {
                                    more = false;
                                }
                            }
                        } else {
                            more = false;
                        }
                    }
                    proof {
                        lemma_run_exit(dn, j as int, NodeV::Increment(value, dv));
                    }
                    opt_nodes.push(Node::Increment(value, d0));
                    proof {
                        let cur = NodeV::Increment(value, dv);
                        assert(nodes_view(opt_nodes@) =~= out_pre.push(cur));
                        assert(out_pre.push(cur) + coalesce(dn.skip(j as int)) =~= out_pre + (
                        seq![cur] + coalesce(dn.skip(j as int))));
                    }
                    i = j;
                }
                Node::Decrement(v, d) => {
                    let d0 = d.clone();
                    let ghost dv = d0@;
                    let mut value: u8 = *v;
                    let mut j = i + 1;
                    proof {
                        lemma_cons_skip(dn, i as int);
                    }
                    let mut more = true;
                    while more
                        invariant
                            i < j <= nodes@.len(),
                            coalesce(dn.skip(i as int)) == coalesce(
                                seq![NodeV::Decrement(value, dv)] + dn.skip(j as int),
                            ),
                            !more ==> (j == nodes@.len() || !mergeable(
                                NodeV::Decrement(value, dv),
                                dn[j as int],
                            )),
                        decreases nodes@.len() - j + (if more {
                            1int
                        } else {
                            0int
                        }),
                    {
                        if j < nodes.len() {
                            match &nodes[j] {
                                Node::Decrement(w, _) => {
                                    proof {
                                        lemma_absorb_step(
                                            dn,
                                            j as int,
                                            NodeV::Decrement(value, dv),
                                        );
                                        assert(merged(NodeV::Decrement(value, dv), dn[j as int])
                                            == NodeV::Decrement(value.wrapping_add(*w), dv));
                                    }
                                    value = value.wrapping_add(*w);
                                    j = j + 1;
                                }
                                _ => {
                                    more = false;
                                }
                            }
                        } else {
                            more = false;
                        }
                    }
                    proof {
                        lemma_run_exit(dn, j as int, NodeV::Decrement(value, dv));
                    }
                    opt_nodes.push(Node::Decrement(value, d0));
                    proof {
                        let cur = NodeV::Decrement(value, dv);
                        assert(nodes_view(opt_nodes@) =~= out_pre.push(cur));
                        assert(out_pre.push(cur) + coalesce(dn.skip(j as int)) =~= out_pre + (
                        seq![cur] + coalesce(dn.skip(j as int))));
                    }
                    i = j;
                }
                Node::Output(d) => {
                    opt_nodes.push(Node::Output(d.clone()));
                    proof {
                        let cur = dn[i as int];
                        lemma_cons_skip(dn, i as int);
                        lemma_run_exit(dn, i as int + 1, cur);
                        assert(nodes_view(opt_nodes@) =~= out_pre.push(cur));
                        assert(out_pre.push(cur) + coalesce(dn.skip(i as int + 1)) =~= out_pre + (
                        seq![cur] + coalesce(dn.skip(i as int + 1))));
                    }
                    i = i + 1;
                }
                Node::Input(d) => {
                    opt_nodes.push(Node::Input(d.clone()));
                    proof {
                        let cur = dn[i as int];
                        lemma_cons_skip(dn, i as int);
                        lemma_run_exit(dn, i as int + 1, cur);
                        assert(nodes_view(opt_nodes@) =~= out_pre.push(cur));
                        assert(out_pre.push(cur) + coalesce(dn.skip(i as int + 1)) =~= out_pre + (
                        seq![cur] + coalesce(dn.skip(i as int + 1))));
                    }
                    i = i + 1;
                }
            }
        }
        proof {
            assert(dn.skip(dn.len() as int) =~= Seq::<NodeV>::empty());
            assert(coalesce(Seq::<NodeV>::empty()) =~= Seq::<NodeV>::empty());
            assert(nodes_view(opt_nodes@) + Seq::<NodeV>::empty() =~= nodes_view(opt_nodes@));
        }
    }

    /// Replaces the tree with its coalesced form.
    pub fn optimize(&mut self)
        ensures
            final(self)@ == coalesce(old(self)@),
    {
        let mut opt_nodes: Vec<Node> = Vec::new();
        Ast::optimize_nodes(&mut opt_nodes, &self.nodes);
        proof {
            assert(nodes_view(opt_nodes@) =~= Seq::<NodeV>::empty() + coalesce(
                nodes_view(self.nodes@),
            ));
            assert(Seq::<NodeV>::empty() + coalesce(nodes_view(self.nodes@)) =~= coalesce(
                nodes_view(self.nodes@),
            ));
        }
        self.nodes = opt_nodes;
    }
}

} // verus!
