//! What the emitter guarantees about its block labels: the three labels a
//! loop mints are pairwise distinct, and two loops whose counter ranges do
//! not overlap share none. Since `gen_ir_nodes` advances the counter by
//! exactly `idents_of_node` per node, a sibling loop's base lies at least
//! seven names past the previous loop's, so its labels are always fresh.

use vstd::prelude::*;
use crate::ir::label_name;
use crate::ir::lemma_label_name_injective;

verus! {

/// The header, body and end labels of a loop whose names are minted from
/// counter base `c` are three distinct names.
pub proof fn lemma_loop_labels_distinct(c: nat)
    ensures
        label_name(c + 5) != label_name(c + 6),
        label_name(c + 5) != label_name(c + 7),
        label_name(c + 6) != label_name(c + 7),
{
    lemma_label_name_injective(c + 5, c + 6);
    lemma_label_name_injective(c + 5, c + 7);
    lemma_label_name_injective(c + 6, c + 7);
}

/// Two loops whose counter bases lie at least seven names apart, as any
/// loop and a later sibling do, share no label.
pub proof fn lemma_sibling_labels_disjoint(c1: nat, c2: nat)
    requires
        c1 + 7 <= c2,
    ensures
        forall|a: nat, b: nat|
            c1 + 5 <= a <= c1 + 7 && c2 + 5 <= b <= c2 + 7 ==> #[trigger] label_name(a)
                != #[trigger] label_name(b),
{
    assert forall|a: nat, b: nat|
        c1 + 5 <= a <= c1 + 7 && c2 + 5 <= b <= c2 + 7 implies #[trigger] label_name(a)
        != #[trigger] label_name(b) by {
        lemma_label_name_injective(a, b);
    }
}

} // verus!
