//! What coalescing guarantees: applying it twice changes nothing, and a run
//! of identical unit deltas collapses to a single node carrying the run
//! length, wrapped at the width of its count.

use vstd::prelude::*;
use vstd::arithmetic::div_mod::lemma_mod_multiples_vanish;
use crate::debug::DebugV;
use crate::node::NodeV;
use crate::node::node_size;
use crate::node::seq_size;
use crate::node::lemma_node_size_pos;
use crate::symbol::SymV;
use crate::parse::parse_run;
use crate::parse::parsed;
use crate::parse::leaf_node_of;
use crate::optimize::tag_of;
use crate::optimize::mergeable;
use crate::optimize::merged;
use crate::optimize::coalesce;

verus! {

broadcast use lemma_node_size_pos;

/// No two neighbors coalesce, at any depth: the shape coalescing produces.
pub open spec fn tidy(s: Seq<NodeV>) -> bool
    decreases seq_size(s),
    via tidy_decreases
{
    if s.len() == 0 {
        true
    } else {
        &&& match s[0] {
            NodeV::Loop(body, _) => tidy(body),
            _ => true,
        }
        &&& (s.len() >= 2 ==> !mergeable(s[0], s[1]))
        &&& tidy(s.drop_first())
    }
}

#[via_fn]
proof fn tidy_decreases(s: Seq<NodeV>) {
    if s.len() > 0 {
        assert(seq_size(s) == node_size(s[0]) + seq_size(s.drop_first()));
    }
}

/// Coalescing keeps the input's head shape and never empties a non-empty
/// sequence.
proof fn lemma_coalesce_head(s: Seq<NodeV>)
    requires
        s.len() > 0,
    ensures
        coalesce(s).len() > 0,
        tag_of(coalesce(s)[0]) == tag_of(s[0]),
    decreases seq_size(s),
{
    match s[0] {
        NodeV::Loop(_, _) => {}
        _ => {
            if s.len() >= 2 && mergeable(s[0], s[1]) {
                let m = seq![merged(s[0], s[1])] + s.skip(2);
                assert(s.drop_first()[0] == s[1]);
                assert(s.drop_first().drop_first() =~= s.skip(2));
                assert(seq_size(s.drop_first()) == node_size(s[1]) + seq_size(s.skip(2)));
                assert(seq_size(s) == node_size(s[0]) + seq_size(s.drop_first()));
                assert(m.drop_first() =~= s.skip(2));
                assert(seq_size(m) == node_size(m[0]) + seq_size(s.skip(2)));
                assert(node_size(m[0]) == 1);
                lemma_coalesce_head(m);
                assert(tag_of(m[0]) == tag_of(s[0]));
            }
        },
    }
}

/// What coalescing produces is tidy.
pub proof fn lemma_coalesce_tidy(s: Seq<NodeV>)
    ensures
        tidy(coalesce(s)),
    decreases seq_size(s),
{
    if s.len() == 0 {
    } else {
        assert(seq_size(s) == node_size(s[0]) + seq_size(s.drop_first()));
        match s[0] {
            NodeV::Loop(body, d) => {
                lemma_coalesce_tidy(body);
                lemma_coalesce_tidy(s.drop_first());
                let c = seq![NodeV::Loop(coalesce(body), d)] + coalesce(s.drop_first());
                assert(c.drop_first() =~= coalesce(s.drop_first()));
                if c.len() >= 2 {
                    assert(s.drop_first().len() > 0) by {
                        if s.drop_first().len() == 0 {
                            assert(coalesce(s.drop_first()) =~= Seq::<NodeV>::empty());
                        }
                    }
                    lemma_coalesce_head(s.drop_first());
                    assert(c[1] == coalesce(s.drop_first())[0]);
                    assert(!mergeable(c[0], c[1]));
                }
                assert(tidy(c));
            }
            _ => {
                if s.len() >= 2 && mergeable(s[0], s[1]) {
                    let m = seq![merged(s[0], s[1])] + s.skip(2);
                    assert(s.drop_first()[0] == s[1]);
                    assert(s.drop_first().drop_first() =~= s.skip(2));
                    assert(seq_size(s.drop_first()) == node_size(s[1]) + seq_size(s.skip(2)));
                    assert(m.drop_first() =~= s.skip(2));
                    assert(seq_size(m) == node_size(m[0]) + seq_size(s.skip(2)));
                    assert(node_size(m[0]) == 1);
                    lemma_coalesce_tidy(m);
                } else {
                    lemma_coalesce_tidy(s.drop_first());
                    let c = seq![s[0]] + coalesce(s.drop_first());
                    assert(c.drop_first() =~= coalesce(s.drop_first()));
                    if c.len() >= 2 {
                        assert(s.drop_first().len() > 0) by {
                            if s.drop_first().len() == 0 {
                                assert(coalesce(s.drop_first()) =~= Seq::<NodeV>::empty());
                            }
                        }
                        lemma_coalesce_head(s.drop_first());
                        assert(c[1] == coalesce(s.drop_first())[0]);
                        assert(tag_of(c[1]) == tag_of(s.drop_first()[0]));
                        assert(s.drop_first()[0] == s[1]);
                        assert(!mergeable(c[0], c[1]));
                    }
                    assert(tidy(c));
                }
            },
        }
    }
}

/// Coalescing leaves a tidy sequence exactly as it stands.
pub proof fn lemma_coalesce_fixed(s: Seq<NodeV>)
    requires
        tidy(s),
    ensures
        coalesce(s) == s,
    decreases seq_size(s),
{
    if s.len() == 0 {
        assert(coalesce(s) =~= s);
    } else {
        assert(seq_size(s) == node_size(s[0]) + seq_size(s.drop_first()));
        match s[0] {
            NodeV::Loop(body, d) => {
                lemma_coalesce_fixed(body);
                lemma_coalesce_fixed(s.drop_first());
                assert(seq![NodeV::Loop(coalesce(body), d)] + coalesce(s.drop_first()) =~= s);
            }
            _ => {
                assert(!(s.len() >= 2 && mergeable(s[0], s[1])));
                lemma_coalesce_fixed(s.drop_first());
                assert(seq![s[0]] + coalesce(s.drop_first()) =~= s);
            },
        }
    }
}

/// Coalescing an already-coalesced tree is a no-op.
pub proof fn lemma_coalesce_idempotent(s: Seq<NodeV>)
    ensures
        coalesce(coalesce(s)) == coalesce(s),
{
    lemma_coalesce_tidy(s);
    lemma_coalesce_fixed(coalesce(s));
}

/// Parsing symbols that are all leaves appends one unit node per symbol.
proof fn lemma_parse_leaves(syms: Seq<SymV>, k: nat, acc: Seq<NodeV>)
    requires
        k <= syms.len(),
        forall|j: int|
            k <= j < syms.len() ==> !((#[trigger] syms[j]) is OpenBlock) && !(syms[j] is CloseBlock),
    ensures
        parse_run(syms, k, Seq::empty(), acc) == Ok::<Seq<NodeV>, DebugV>(
            acc + Seq::new((syms.len() - k) as nat, |t: int| leaf_node_of(syms[k + t])),
        ),
    decreases syms.len() - k,
{
    let tail = Seq::new((syms.len() - k) as nat, |t: int| leaf_node_of(syms[k + t]));
    if k == syms.len() {
        assert(acc + tail =~= acc);
    } else {
        lemma_parse_leaves(syms, k + 1, acc.push(leaf_node_of(syms[k as int])));
        let tail1 = Seq::new((syms.len() - (k + 1)) as nat, |t: int| leaf_node_of(syms[k + 1 + t]));
        assert(acc.push(leaf_node_of(syms[k as int])) + tail1 =~= acc + tail);
    }
}

/// Absorbing a run of unit pointer increments into an accumulated count.
proof fn lemma_absorb_inc_ptr(c: usize, d: DebugV, rest: Seq<NodeV>)
    requires
        c + rest.len() <= usize::MAX,
        forall|j: int|
            0 <= j < rest.len() ==> (#[trigger] rest[j]) is IncPtr && rest[j]->IncPtr_0 == 1,
    ensures
        coalesce(seq![NodeV::IncPtr(c, d)] + rest) == seq![
            NodeV::IncPtr((c + rest.len()) as usize, d),
        ],
    decreases rest.len(),
{
    let cur = NodeV::IncPtr(c, d);
    let s = seq![cur] + rest;
    if rest.len() == 0 {
        assert(s.drop_first() =~= Seq::<NodeV>::empty());
        assert(coalesce(s.drop_first()) =~= Seq::<NodeV>::empty());
        assert(seq![cur] + coalesce(s.drop_first()) =~= seq![cur]);
    } else {
        assert(s[1] == rest[0]);
        assert(mergeable(s[0], s[1]));
        let m = merged(s[0], s[1]);
        assert(m == NodeV::IncPtr((c + 1) as usize, d));
        assert(seq![m] + s.skip(2) =~= seq![m] + rest.drop_first());
        lemma_absorb_inc_ptr((c + 1) as usize, d, rest.drop_first());
    }
}

/// Absorbing a run of unit pointer decrements into an accumulated count.
proof fn lemma_absorb_dec_ptr(c: usize, d: DebugV, rest: Seq<NodeV>)
    requires
        c + rest.len() <= usize::MAX,
        forall|j: int|
            0 <= j < rest.len() ==> (#[trigger] rest[j]) is DecPtr && rest[j]->DecPtr_0 == 1,
    ensures
        coalesce(seq![NodeV::DecPtr(c, d)] + rest) == seq![
            NodeV::DecPtr((c + rest.len()) as usize, d),
        ],
    decreases rest.len(),
{
    let cur = NodeV::DecPtr(c, d);
    let s = seq![cur] + rest;
    if rest.len() == 0 {
        assert(s.drop_first() =~= Seq::<NodeV>::empty());
        assert(coalesce(s.drop_first()) =~= Seq::<NodeV>::empty());
        assert(seq![cur] + coalesce(s.drop_first()) =~= seq![cur]);
    } else {
        assert(s[1] == rest[0]);
        assert(mergeable(s[0], s[1]));
        let m = merged(s[0], s[1]);
        assert(m == NodeV::DecPtr((c + 1) as usize, d));
        assert(seq![m] + s.skip(2) =~= seq![m] + rest.drop_first());
        lemma_absorb_dec_ptr((c + 1) as usize, d, rest.drop_first());
    }
}

/// Absorbing a run of unit cell increments, wrapping at the byte width.
proof fn lemma_absorb_increment(c: u8, d: DebugV, rest: Seq<NodeV>)
    requires
        forall|j: int|
            0 <= j < rest.len() ==> (#[trigger] rest[j]) is Increment && rest[j]->Increment_0 == 1,
    ensures
        coalesce(seq![NodeV::Increment(c, d)] + rest) == seq![
            NodeV::Increment(((c + rest.len()) % 256) as u8, d),
        ],
    decreases rest.len(),
{
    let cur = NodeV::Increment(c, d);
    let s = seq![cur] + rest;
    if rest.len() == 0 {
        assert(s.drop_first() =~= Seq::<NodeV>::empty());
        assert(coalesce(s.drop_first()) =~= Seq::<NodeV>::empty());
        assert(seq![cur] + coalesce(s.drop_first()) =~= seq![cur]);
        assert((c + 0) % 256 == c);
    } else {
        assert(s[1] == rest[0]);
        assert(mergeable(s[0], s[1]));
        let m = merged(s[0], s[1]);
        let c1 = c.wrapping_add(1);
        assert(m == NodeV::Increment(c1, d));
        assert(seq![m] + s.skip(2) =~= seq![m] + rest.drop_first());
        lemma_absorb_increment(c1, d, rest.drop_first());
        let n1 = rest.drop_first().len();
        if c == 255 {
            assert(c1 == 0);
            lemma_mod_multiples_vanish(1, n1 as int, 256);
            assert((256 + n1) % 256 == n1 % 256);
            assert((c1 + n1) % 256 == (c + rest.len()) % 256);
        } else {
            assert((c1 + n1) % 256 == (c + rest.len()) % 256);
        }
    }
}

/// Absorbing a run of unit cell decrements, wrapping at the byte width.
proof fn lemma_absorb_decrement(c: u8, d: DebugV, rest: Seq<NodeV>)
    requires
        forall|j: int|
            0 <= j < rest.len() ==> (#[trigger] rest[j]) is Decrement && rest[j]->Decrement_0 == 1,
    ensures
        coalesce(seq![NodeV::Decrement(c, d)] + rest) == seq![
            NodeV::Decrement(((c + rest.len()) % 256) as u8, d),
        ],
    decreases rest.len(),
{
    let cur = NodeV::Decrement(c, d);
    let s = seq![cur] + rest;
    if rest.len() == 0 {
        assert(s.drop_first() =~= Seq::<NodeV>::empty());
        assert(coalesce(s.drop_first()) =~= Seq::<NodeV>::empty());
        assert(seq![cur] + coalesce(s.drop_first()) =~= seq![cur]);
        assert((c + 0) % 256 == c);
    } else {
        assert(s[1] == rest[0]);
        assert(mergeable(s[0], s[1]));
        let m = merged(s[0], s[1]);
        let c1 = c.wrapping_add(1);
        assert(m == NodeV::Decrement(c1, d));
        assert(seq![m] + s.skip(2) =~= seq![m] + rest.drop_first());
        lemma_absorb_decrement(c1, d, rest.drop_first());
        let n1 = rest.drop_first().len();
        if c == 255 {
            assert(c1 == 0);
            lemma_mod_multiples_vanish(1, n1 as int, 256);
            assert((256 + n1) % 256 == n1 % 256);
            assert((c1 + n1) % 256 == (c + rest.len()) % 256);
        } else {
            assert((c1 + n1) % 256 == (c + rest.len()) % 256);
        }
    }
}

/// A run of pointer-increment symbols parses and coalesces to one node
/// carrying the literal run length.
pub proof fn lemma_run_of_inc_ptr(syms: Seq<SymV>)
    requires
        1 <= syms.len() <= 300,
        forall|j: int| 0 <= j < syms.len() ==> (#[trigger] syms[j]) is IncPtr,
    ensures
        parsed(syms) is Ok,
        coalesce(parsed(syms)->Ok_0) == seq![
            NodeV::IncPtr(syms.len() as usize, syms[0]->IncPtr_0),
        ],
{
    lemma_parse_leaves(syms, 0, Seq::empty());
    let units = Seq::new(syms.len(), |t: int| leaf_node_of(syms[t]));
    assert(parsed(syms)->Ok_0 =~= units);
    assert(units[0] == NodeV::IncPtr(1, syms[0]->IncPtr_0));
    lemma_absorb_inc_ptr(1, syms[0]->IncPtr_0, units.drop_first());
    assert(seq![units[0]] + units.drop_first() =~= units);
}

/// A run of pointer-decrement symbols parses and coalesces to one node
/// carrying the literal run length.
pub proof fn lemma_run_of_dec_ptr(syms: Seq<SymV>)
    requires
        1 <= syms.len() <= 300,
        forall|j: int| 0 <= j < syms.len() ==> (#[trigger] syms[j]) is DecPtr,
    ensures
        parsed(syms) is Ok,
        coalesce(parsed(syms)->Ok_0) == seq![
            NodeV::DecPtr(syms.len() as usize, syms[0]->DecPtr_0),
        ],
{
    lemma_parse_leaves(syms, 0, Seq::empty());
    let units = Seq::new(syms.len(), |t: int| leaf_node_of(syms[t]));
    assert(parsed(syms)->Ok_0 =~= units);
    assert(units[0] == NodeV::DecPtr(1, syms[0]->DecPtr_0));
    lemma_absorb_dec_ptr(1, syms[0]->DecPtr_0, units.drop_first());
    assert(seq![units[0]] + units.drop_first() =~= units);
}

/// A run of cell-increment symbols parses and coalesces to one node whose
/// count is the run length taken modulo the byte width.
pub proof fn lemma_run_of_increment(syms: Seq<SymV>)
    requires
        1 <= syms.len() <= 300,
        forall|j: int| 0 <= j < syms.len() ==> (#[trigger] syms[j]) is Increment,
    ensures
        parsed(syms) is Ok,
        coalesce(parsed(syms)->Ok_0) == seq![
            NodeV::Increment((syms.len() % 256) as u8, syms[0]->Increment_0),
        ],
{
    lemma_parse_leaves(syms, 0, Seq::empty());
    let units = Seq::new(syms.len(), |t: int| leaf_node_of(syms[t]));
    assert(parsed(syms)->Ok_0 =~= units);
    assert(units[0] == NodeV::Increment(1, syms[0]->Increment_0));
    lemma_absorb_increment(1, syms[0]->Increment_0, units.drop_first());
    assert(seq![units[0]] + units.drop_first() =~= units);
    assert((1 + units.drop_first().len()) % 256 == syms.len() % 256);
}

/// A run of cell-decrement symbols parses and coalesces to one node whose
/// count is the run length taken modulo the byte width.
pub proof fn lemma_run_of_decrement(syms: Seq<SymV>)
    requires
        1 <= syms.len() <= 300,
        forall|j: int| 0 <= j < syms.len() ==> (#[trigger] syms[j]) is Decrement,
    ensures
        parsed(syms) is Ok,
        coalesce(parsed(syms)->Ok_0) == seq![
            NodeV::Decrement((syms.len() % 256) as u8, syms[0]->Decrement_0),
        ],
{
    lemma_parse_leaves(syms, 0, Seq::empty());
    let units = Seq::new(syms.len(), |t: int| leaf_node_of(syms[t]));
    assert(parsed(syms)->Ok_0 =~= units);
    assert(units[0] == NodeV::Decrement(1, syms[0]->Decrement_0));
    lemma_absorb_decrement(1, syms[0]->Decrement_0, units.drop_first());
    assert(seq![units[0]] + units.drop_first() =~= units);
    assert((1 + units.drop_first().len()) % 256 == syms.len() % 256);
}

} // verus!
