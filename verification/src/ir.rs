//! Emission of the low-level IR text: freshly numbered identifiers and
//! labels from one monotonic counter, and the deterministic text template
//! each instruction lowers to.

use vstd::prelude::*;
use vstd::string::StringExecFns;
use crate::node::Node;
use crate::node::NodeV;
use crate::node::nodes_view;
use crate::node::lemma_nodes_view;
use crate::interp::Program;

verus! {

broadcast use lemma_nodes_view;

/// The decimal digit characters.
pub open spec fn digit_char(n: nat) -> char {
    if n == 0 {
        '0'
    } else if n == 1 {
        '1'
    } else if n == 2 {
        '2'
    } else if n == 3 {
        '3'
    } else if n == 4 {
        '4'
    } else if n == 5 {
        '5'
    } else if n == 6 {
        '6'
    } else if n == 7 {
        '7'
    } else if n == 8 {
        '8'
    } else {
        '9'
    }
}

/// The decimal rendering of a number, most significant digit first.
pub open spec fn dec_str(n: nat) -> Seq<char>
    decreases n,
{
    if n < 10 {
        seq![digit_char(n)]
    } else {
        dec_str(n / 10).push(digit_char(n % 10))
    }
}

/// Decimal renderings of distinct numbers differ.
pub proof fn lemma_dec_str_injective(a: nat, b: nat)
    requires
        dec_str(a) == dec_str(b),
    ensures
        a == b,
    decreases a,
{
    if a < 10 && b < 10 {
        assert(dec_str(a)[0] == digit_char(a));
        assert(dec_str(b)[0] == digit_char(b));
    } else if a < 10 {
        assert(dec_str(a).len() == 1);
        assert(dec_str(b).len() == dec_str(b / 10).len() + 1);
        assert(dec_str(b / 10).len() >= 1) by {
            lemma_dec_str_len(b / 10);
        }
    } else if b < 10 {
        assert(dec_str(b).len() == 1);
        assert(dec_str(a).len() == dec_str(a / 10).len() + 1);
        assert(dec_str(a / 10).len() >= 1) by {
            lemma_dec_str_len(a / 10);
        }
    } else {
        assert(dec_str(a).last() == digit_char(a % 10));
        assert(dec_str(b).last() == digit_char(b % 10));
        assert(a % 10 == b % 10);
        assert(dec_str(a).drop_last() =~= dec_str(a / 10));
        assert(dec_str(b).drop_last() =~= dec_str(b / 10));
        lemma_dec_str_injective(a / 10, b / 10);
    }
}

/// A decimal rendering holds at least one character.
pub proof fn lemma_dec_str_len(n: nat)
    ensures
        dec_str(n).len() >= 1,
    decreases n,
{
    if n >= 10 {
        lemma_dec_str_len(n / 10);
    }
}

/// The name of the `k`-th minted intermediate value.
pub open spec fn ident_name(k: nat) -> Seq<char> {
    "%i"@ + dec_str(k)
}

/// The name of the `k`-th minted block label.
pub open spec fn label_name(k: nat) -> Seq<char> {
    "l"@ + dec_str(k)
}

/// Labels minted from distinct counter values have distinct names.
pub proof fn lemma_label_name_injective(a: nat, b: nat)
    requires
        a != b,
    ensures
        label_name(a) != label_name(b),
{
    reveal_strlit("l");
    if label_name(a) == label_name(b) {
        assert(label_name(a).len() == 1 + dec_str(a).len());
        assert(dec_str(a) =~= label_name(a).skip(1));
        assert(dec_str(b) =~= label_name(b).skip(1));
        lemma_dec_str_injective(a, b);
    }
}

/// Appends the decimal rendering of `n`.
fn push_dec(out: &mut String, n: u64)
    ensures
        final(out)@ == old(out)@ + dec_str(n as nat),
    decreases n,
{
    let ghost mid = old(out)@;
    if n >= 10 {
        push_dec(out, n / 10);
        proof {
            assert(out@ == mid + dec_str((n / 10) as nat));
        }
    }
    let digit = n % 10;
    let piece: &str = if digit == 0 {
        "0"
    } else if digit == 1 {
        "1"
    } else if digit == 2 {
        "2"
    } else if digit == 3 {
        "3"
    } else if digit == 4 {
        "4"
    } else if digit == 5 {
        "5"
    } else if digit == 6 {
        "6"
    } else if digit == 7 {
        "7"
    } else if digit == 8 {
        "8"
    } else {
        "9"
    };
    proof {
        reveal_strlit("0");
        reveal_strlit("1");
        reveal_strlit("2");
        reveal_strlit("3");
        reveal_strlit("4");
        reveal_strlit("5");
        reveal_strlit("6");
        reveal_strlit("7");
        reveal_strlit("8");
        reveal_strlit("9");
        assert(piece@ =~= seq![digit_char((n % 10) as nat)]);
    }
    out.append(piece);
    proof {
        if n < 10 {
            assert(out@ =~= mid + dec_str(n as nat));
        } else {
            assert(out@ =~= mid + dec_str(n as nat));
        }
    }
}

/// The monotonically increasing counter every identifier and label is
/// minted from; it is never reset or reused within one emission.
pub struct IrState {
    pub next_label: u64,
}

impl IrState {
    /// A fresh counter, starting before the first name.
    pub fn new() -> (s: IrState)
        ensures
            s.next_label == 0,
    {
        IrState { next_label: 0 }
    }

    /// Mints the next intermediate-value name.
    pub fn ident(&mut self) -> (r: String)
        requires
            old(self).next_label < u64::MAX,
        ensures
            final(self).next_label == old(self).next_label + 1,
            r@ == ident_name((old(self).next_label + 1) as nat),
    {
        self.next_label = self.next_label + 1;
        let mut s = String::from_str("%i");
        push_dec(&mut s, self.next_label);
        s
    }

    /// Mints the next block-label name.
    pub fn label(&mut self) -> (r: String)
        requires
            old(self).next_label < u64::MAX,
        ensures
            final(self).next_label == old(self).next_label + 1,
            r@ == label_name((old(self).next_label + 1) as nat),
    {
        self.next_label = self.next_label + 1;
        let mut s = String::from_str("l");
        push_dec(&mut s, self.next_label);
        s
    }
}

/// How many fresh names one instruction mints: two for a pointer delta,
/// four for a cell delta, two for output or input, and seven for a loop
/// (four values and three labels) besides its body's.
pub open spec fn idents_of_node(n: NodeV) -> nat
    decreases n,
    via idents_of_node_decreases
{
    match n {
        NodeV::Loop(body, _) => 7 + idents_of_seq(body),
        NodeV::IncPtr(_, _) => 2,
        NodeV::DecPtr(_, _) => 2,
        NodeV::Increment(_, _) => 4,
        NodeV::Decrement(_, _) => 4,
        NodeV::Output(_) => 2,
        NodeV::Input(_) => 2,
    }
}

#[via_fn]
proof fn idents_of_node_decreases(n: NodeV) {
    match n {
        NodeV::Loop(body, _) => {
            assert(decreases_to!(n => body));
        }
        _ => {}
    }
}

/// How many fresh names an instruction sequence mints in all.
pub open spec fn idents_of_seq(s: Seq<NodeV>) -> nat
    decreases s,
{
    if s.len() == 0 {
        0
    } else {
        idents_of_node(s[0]) + idents_of_seq(s.drop_first())
    }
}

/// The text a pointer increment lowers to, its names minted from `c`.
pub open spec fn ir_inc_ptr_text(c: nat, v: usize) -> Seq<char> {
    "\n    "@ + ident_name(c + 1)
        + " = load atomic i64, i64* %ptr monotonic, align 1 ; Increment Pointer\n    "@ + ident_name(
        c + 2,
    ) + " = add i64 "@ + ident_name(c + 1) + ", "@ + dec_str(v as nat)
        + "\n    store atomic i64 "@ + ident_name(c + 2) + ", i64* %ptr monotonic, align 1"@
}

/// The text a pointer decrement lowers to.
pub open spec fn ir_dec_ptr_text(c: nat, v: usize) -> Seq<char> {
    "\n    "@ + ident_name(c + 1)
        + " = load atomic i64, i64* %ptr monotonic, align 1 ; Decrement Pointer\n    "@ + ident_name(
        c + 2,
    ) + " = sub i64 "@ + ident_name(c + 1) + ", "@ + dec_str(v as nat)
        + "\n    store atomic i64 "@ + ident_name(c + 2) + ", i64* %ptr monotonic, align 1"@
}

/// The text a cell increment lowers to: load the cursor, address the cell,
/// load, add the count, store.
pub open spec fn ir_increment_text(c: nat, v: u8, cells: nat) -> Seq<char> {
    "\n    "@ + ident_name(c + 1)
        + " = load atomic i64, i64* %ptr monotonic, align 1 ; Increment\n    "@ + ident_name(c + 2)
        + " = getelementptr ["@ + dec_str(cells) + " x i8], ["@ + dec_str(cells)
        + " x i8]* @mem, i64 0, i64 "@ + ident_name(c + 1) + "\n    "@ + ident_name(c + 3)
        + " = load atomic volatile i8, i8* "@ + ident_name(c + 2) + " monotonic, align 1\n    "@
        + ident_name(c + 4) + " = add i8 "@ + ident_name(c + 3) + ", "@ + dec_str(v as nat)
        + "\n    store atomic volatile i8 "@ + ident_name(c + 4) + ", i8* "@ + ident_name(c + 2)
        + " monotonic, align 1"@
}

/// The text a cell decrement lowers to.
pub open spec fn ir_decrement_text(c: nat, v: u8, cells: nat) -> Seq<char> {
    "\n    "@ + ident_name(c + 1)
        + " = load atomic i64, i64* %ptr monotonic, align 1 ; Decrement\n    "@ + ident_name(c + 2)
        + " = getelementptr ["@ + dec_str(cells) + " x i8], ["@ + dec_str(cells)
        + " x i8]* @mem, i64 0, i64 "@ + ident_name(c + 1) + "\n    "@ + ident_name(c + 3)
        + " = load atomic volatile i8, i8* "@ + ident_name(c + 2) + " monotonic, align 1\n    "@
        + ident_name(c + 4) + " = sub i8 "@ + ident_name(c + 3) + ", "@ + dec_str(v as nat)
        + "\n    store atomic volatile i8 "@ + ident_name(c + 4) + ", i8* "@ + ident_name(c + 2)
        + " monotonic, align 1"@
}

/// The text an output instruction lowers to: address the cell, then a
/// direct write syscall on descriptor one.
pub open spec fn ir_output_text(c: nat, cells: nat) -> Seq<char> {
    "\n    "@ + ident_name(c + 1)
        + " = load atomic i64, i64* %ptr monotonic, align 1 ; Output\n    "@ + ident_name(c + 2)
        + " = getelementptr ["@ + dec_str(cells) + " x i8], ["@ + dec_str(cells)
        + " x i8]* @mem, i64 0, i64 "@ + ident_name(c + 1)
        + "\n    call i64 asm sideeffect \"syscall\", \"=r,{rax},{rdi},{rsi},{rdx}\"(i64 1, i64 1, i8* "@
        + ident_name(c + 2) + ", i64 1)"@
}

/// The text an input instruction lowers to: address the cell, then a
/// direct read syscall on descriptor zero.
pub open spec fn ir_input_text(c: nat, cells: nat) -> Seq<char> {
    "\n    "@ + ident_name(c + 1)
        + " = load atomic i64, i64* %ptr monotonic, align 1 ; Input\n    "@ + ident_name(c + 2)
        + " = getelementptr ["@ + dec_str(cells) + " x i8], ["@ + dec_str(cells)
        + " x i8]* @mem, i64 0, i64 "@ + ident_name(c + 1)
        + "\n    call i64 asm sideeffect \"syscall\", \"=r,{rax},{rdi},{rsi},{rdx}\"(i64 0, i64 0, i8* "@
        + ident_name(c + 2) + ", i64 1)"@
}

/// The opening of a loop: a branch to the header block, which loads the
/// cell, tests it against zero and branches to the body or the end block.
/// The header, body and end labels are the loop's three block labels.
pub open spec fn ir_loop_head_text(c: nat, cells: nat) -> Seq<char> {
    "\n    br label %"@ + label_name(c + 5) + " ; Loop\n"@ + label_name(c + 5) + ":\n    "@
        + ident_name(c + 1) + " = load atomic i64, i64* %ptr monotonic, align 1\n    "@
        + ident_name(c + 2) + " = getelementptr ["@ + dec_str(cells) + " x i8], ["@ + dec_str(
        cells,
    ) + " x i8]* @mem, i64 0, i64 "@ + ident_name(c + 1) + "\n    "@ + ident_name(c + 3)
        + " = load atomic volatile i8, i8* "@ + ident_name(c + 2) + " monotonic, align 1\n    "@
        + ident_name(c + 4) + " = icmp eq i8 0, "@ + ident_name(c + 3) + "\n    br i1 "@
        + ident_name(c + 4) + ", label %"@ + label_name(c + 7) + ", label %"@ + label_name(c + 6)
        + "\n"@ + label_name(c + 6) + ":"@
}

/// The close of a loop: a branch back to its header, then its end block.
pub open spec fn ir_loop_tail_text(c: nat) -> Seq<char> {
    "\n    br label %"@ + label_name(c + 5) + "\n"@ + label_name(c + 7) + ":"@
}

/// The text one instruction lowers to, with `c` the counter before it.
pub open spec fn ir_node_text(n: NodeV, c: nat, cells: nat) -> Seq<char>
    decreases n,
    via ir_node_text_decreases
{
    match n {
        NodeV::IncPtr(v, _) => ir_inc_ptr_text(c, v),
        NodeV::DecPtr(v, _) => ir_dec_ptr_text(c, v),
        NodeV::Increment(v, _) => ir_increment_text(c, v, cells),
        NodeV::Decrement(v, _) => ir_decrement_text(c, v, cells),
        NodeV::Output(_) => ir_output_text(c, cells),
        NodeV::Input(_) => ir_input_text(c, cells),
        NodeV::Loop(body, _) => ir_loop_head_text(c, cells) + ir_seq_text(body, c + 7, cells)
            + ir_loop_tail_text(c),
    }
}

#[via_fn]
proof fn ir_node_text_decreases(n: NodeV, c: nat, cells: nat) {
    match n {
        NodeV::Loop(body, _) => {
            assert(decreases_to!(n => body));
        }
        _ => {}
    }
}

/// The text an instruction sequence lowers to, each node minting its names
/// after all of its predecessors'.
pub open spec fn ir_seq_text(s: Seq<NodeV>, c: nat, cells: nat) -> Seq<char>
    decreases s,
{
    if s.len() == 0 {
        Seq::empty()
    } else {
        ir_node_text(s[0], c, cells) + ir_seq_text(s.drop_first(), c + idents_of_node(s[0]), cells)
    }
}

/// The fixed prelude: the memory buffer of the configured size and the
/// cursor cell initialized to its midpoint.
pub open spec fn ir_prelude(cells: nat) -> Seq<char> {
    "\n@mem = private global ["@ + dec_str(cells)
        + " x i8] zeroinitializer\ndefine void @_start() {\n    %ptr = alloca i64\n    store atomic volatile i64 "@
        + dec_str(cells / 2) + ", i64* %ptr monotonic, align 1"@
}

/// The fixed epilogue: a direct process-exit syscall.
pub open spec fn ir_epilogue() -> Seq<char> {
    "\n    call i64 asm sideeffect \"syscall\", \"=r,{rax},{rdi}\"(i64 60, i64 0)\n    ret void\n}"@
}

/// The whole emitted program: prelude, the lowered tree with the counter
/// starting at zero, and the epilogue.
pub open spec fn ir_program_text(ast: Seq<NodeV>, cells: nat) -> Seq<char> {
    ir_prelude(cells) + ir_seq_text(ast, 0, cells) + ir_epilogue()
}


/// Emits the lowering of one pointer increment.
fn emit_inc_ptr(ir: &mut String, state: &mut IrState, v: usize)
    requires
        old(state).next_label + 2 <= u64::MAX,
    ensures
        final(state).next_label == old(state).next_label + 2,
        final(ir)@ == old(ir)@ + ir_inc_ptr_text(old(state).next_label as nat, v),
{
    let ghost c = state.next_label as nat;
    let ghost pre = ir@;
    let i0 = state.ident();
    let i1 = state.ident();
    ir.append("\n    ");
    ir.append(i0.as_str());
    ir.append(" = load atomic i64, i64* %ptr monotonic, align 1 ; Increment Pointer\n    ");
    ir.append(i1.as_str());
    ir.append(" = add i64 ");
    ir.append(i0.as_str());
    ir.append(", ");
    push_dec(ir, v as u64);
    ir.append("\n    store atomic i64 ");
    ir.append(i1.as_str());
    ir.append(", i64* %ptr monotonic, align 1");
    proof {
        assert((v as u64) as nat == v as nat);
        assert(ir@ =~= pre + ir_inc_ptr_text(c, v));
    }
}

/// Emits the lowering of one pointer decrement.
fn emit_dec_ptr(ir: &mut String, state: &mut IrState, v: usize)
    requires
        old(state).next_label + 2 <= u64::MAX,
    ensures
        final(state).next_label == old(state).next_label + 2,
        final(ir)@ == old(ir)@ + ir_dec_ptr_text(old(state).next_label as nat, v),
{
    let ghost c = state.next_label as nat;
    let ghost pre = ir@;
    let i0 = state.ident();
    let i1 = state.ident();
    ir.append("\n    ");
    ir.append(i0.as_str());
    ir.append(" = load atomic i64, i64* %ptr monotonic, align 1 ; Decrement Pointer\n    ");
    ir.append(i1.as_str());
    ir.append(" = sub i64 ");
    ir.append(i0.as_str());
    ir.append(", ");
    push_dec(ir, v as u64);
    ir.append("\n    store atomic i64 ");
    ir.append(i1.as_str());
    ir.append(", i64* %ptr monotonic, align 1");
    proof {
        assert((v as u64) as nat == v as nat);
        assert(ir@ =~= pre + ir_dec_ptr_text(c, v));
    }
}

/// Emits the lowering of one cell increment.
#[verifier::rlimit(100)]
#[verifier::spinoff_prover]
fn emit_increment(ir: &mut String, state: &mut IrState, v: u8, mem_size: usize)
    requires
        old(state).next_label + 4 <= u64::MAX,
    ensures
        final(state).next_label == old(state).next_label + 4,
        final(ir)@ == old(ir)@ + ir_increment_text(
            old(state).next_label as nat,
            v,
            mem_size as nat,
        ),
{
    let ghost c = state.next_label as nat;
    let ghost pre = ir@;
    let i0 = state.ident();
    let i1 = state.ident();
    let i2 = state.ident();
    let i3 = state.ident();
    ir.append("\n    ");
    ir.append(i0.as_str());
    ir.append(" = load atomic i64, i64* %ptr monotonic, align 1 ; Increment\n    ");
    ir.append(i1.as_str());
    proof {
        assert(ir@ =~= pre + ("\n    "@ + ident_name(c + 1)
            + " = load atomic i64, i64* %ptr monotonic, align 1 ; Increment\n    "@ + ident_name(
            c + 2,
        )));
    }
    ir.append(" = getelementptr [");
    push_dec(ir, mem_size as u64);
    ir.append(" x i8], [");
    push_dec(ir, mem_size as u64);
    ir.append(" x i8]* @mem, i64 0, i64 ");
    ir.append(i0.as_str());
    ir.append("\n    ");
    ir.append(i2.as_str());
    ir.append(" = load atomic volatile i8, i8* ");
    ir.append(i1.as_str());
    ir.append(" monotonic, align 1\n    ");
    ir.append(i3.as_str());
    ir.append(" = add i8 ");
    ir.append(i2.as_str());
    ir.append(", ");
    push_dec(ir, v as u64);
    ir.append("\n    store atomic volatile i8 ");
    ir.append(i3.as_str());
    ir.append(", i8* ");
    ir.append(i1.as_str());
    ir.append(" monotonic, align 1");
    proof {
        assert((v as u64) as nat == v as nat);
        assert((mem_size as u64) as nat == mem_size as nat);
        assert(ir@ =~= pre + ir_increment_text(c, v, mem_size as nat));
    }
}

/// Emits the lowering of one cell decrement.
#[verifier::rlimit(100)]
#[verifier::spinoff_prover]
fn emit_decrement(ir: &mut String, state: &mut IrState, v: u8, mem_size: usize)
    requires
        old(state).next_label + 4 <= u64::MAX,
    ensures
        final(state).next_label == old(state).next_label + 4,
        final(ir)@ == old(ir)@ + ir_decrement_text(
            old(state).next_label as nat,
            v,
            mem_size as nat,
        ),
{
    let ghost c = state.next_label as nat;
    let ghost pre = ir@;
    let i0 = state.ident();
    let i1 = state.ident();
    let i2 = state.ident();
    let i3 = state.ident();
    ir.append("\n    ");
    ir.append(i0.as_str());
    ir.append(" = load atomic i64, i64* %ptr monotonic, align 1 ; Decrement\n    ");
    ir.append(i1.as_str());
    proof {
        assert(ir@ =~= pre + ("\n    "@ + ident_name(c + 1)
            + " = load atomic i64, i64* %ptr monotonic, align 1 ; Decrement\n    "@ + ident_name(
            c + 2,
        )));
    }
    ir.append(" = getelementptr [");
    push_dec(ir, mem_size as u64);
    ir.append(" x i8], [");
    push_dec(ir, mem_size as u64);
    ir.append(" x i8]* @mem, i64 0, i64 ");
    ir.append(i0.as_str());
    proof {
        assert((mem_size as u64) as nat == mem_size as nat);
        assert(ir@ =~= pre + ("\n    "@ + ident_name(c + 1)
            + " = load atomic i64, i64* %ptr monotonic, align 1 ; Decrement\n    "@ + ident_name(
            c + 2,
        ) + " = getelementptr ["@ + dec_str(mem_size as nat) + " x i8], ["@ + dec_str(
            mem_size as nat,
        ) + " x i8]* @mem, i64 0, i64 "@ + ident_name(c + 1)));
    }
    ir.append("\n    ");
    ir.append(i2.as_str());
    ir.append(" = load atomic volatile i8, i8* ");
    ir.append(i1.as_str());
    ir.append(" monotonic, align 1\n    ");
    ir.append(i3.as_str());
    ir.append(" = sub i8 ");
    ir.append(i2.as_str());
    proof {
        assert(ir@ =~= pre + ("\n    "@ + ident_name(c + 1)
            + " = load atomic i64, i64* %ptr monotonic, align 1 ; Decrement\n    "@ + ident_name(
            c + 2,
        ) + " = getelementptr ["@ + dec_str(mem_size as nat) + " x i8], ["@ + dec_str(
            mem_size as nat,
        ) + " x i8]* @mem, i64 0, i64 "@ + ident_name(c + 1) + "\n    "@ + ident_name(c + 3)
            + " = load atomic volatile i8, i8* "@ + ident_name(c + 2)
            + " monotonic, align 1\n    "@ + ident_name(c + 4) + " = sub i8 "@ + ident_name(
            c + 3,
        )));
    }
    ir.append(", ");
    push_dec(ir, v as u64);
    ir.append("\n    store atomic volatile i8 ");
    ir.append(i3.as_str());
    ir.append(", i8* ");
    ir.append(i1.as_str());
    ir.append(" monotonic, align 1");
    proof {
        assert((v as u64) as nat == v as nat);
        assert(ir@ =~= pre + ir_decrement_text(c, v, mem_size as nat));
    }
}

/// Emits the lowering of one output instruction.
fn emit_output(ir: &mut String, state: &mut IrState, mem_size: usize)
    requires
        old(state).next_label + 2 <= u64::MAX,
    ensures
        final(state).next_label == old(state).next_label + 2,
        final(ir)@ == old(ir)@ + ir_output_text(old(state).next_label as nat, mem_size as nat),
{
    let ghost c = state.next_label as nat;
    let ghost pre = ir@;
    let i0 = state.ident();
    let i1 = state.ident();
    ir.append("\n    ");
    ir.append(i0.as_str());
    ir.append(" = load atomic i64, i64* %ptr monotonic, align 1 ; Output\n    ");
    ir.append(i1.as_str());
    ir.append(" = getelementptr [");
    push_dec(ir, mem_size as u64);
    ir.append(" x i8], [");
    push_dec(ir, mem_size as u64);
    ir.append(" x i8]* @mem, i64 0, i64 ");
    ir.append(i0.as_str());
    ir.append(
        "\n    call i64 asm sideeffect \"syscall\", \"=r,{rax},{rdi},{rsi},{rdx}\"(i64 1, i64 1, i8* ",
    );
    ir.append(i1.as_str());
    ir.append(", i64 1)");
    proof {
        assert((mem_size as u64) as nat == mem_size as nat);
        assert(ir@ =~= pre + ir_output_text(c, mem_size as nat));
    }
}

/// Emits the lowering of one input instruction.
fn emit_input(ir: &mut String, state: &mut IrState, mem_size: usize)
    requires
        old(state).next_label + 2 <= u64::MAX,
    ensures
        final(state).next_label == old(state).next_label + 2,
        final(ir)@ == old(ir)@ + ir_input_text(old(state).next_label as nat, mem_size as nat),
{
    let ghost c = state.next_label as nat;
    let ghost pre = ir@;
    let i0 = state.ident();
    let i1 = state.ident();
    ir.append("\n    ");
    ir.append(i0.as_str());
    ir.append(" = load atomic i64, i64* %ptr monotonic, align 1 ; Input\n    ");
    ir.append(i1.as_str());
    ir.append(" = getelementptr [");
    push_dec(ir, mem_size as u64);
    ir.append(" x i8], [");
    push_dec(ir, mem_size as u64);
    ir.append(" x i8]* @mem, i64 0, i64 ");
    ir.append(i0.as_str());
    ir.append(
        "\n    call i64 asm sideeffect \"syscall\", \"=r,{rax},{rdi},{rsi},{rdx}\"(i64 0, i64 0, i8* ",
    );
    ir.append(i1.as_str());
    ir.append(", i64 1)");
    proof {
        assert((mem_size as u64) as nat == mem_size as nat);
        assert(ir@ =~= pre + ir_input_text(c, mem_size as nat));
    }
}

/// Emits a loop's opening blocks and mints its three labels, handing back
/// the header and end label names for the close.
#[verifier::rlimit(100)]
#[verifier::spinoff_prover]
fn emit_loop_head(ir: &mut String, state: &mut IrState, mem_size: usize) -> (labels: (
    String,
    String,
))
    requires
        old(state).next_label + 7 <= u64::MAX,
    ensures
        final(state).next_label == old(state).next_label + 7,
        final(ir)@ == old(ir)@ + ir_loop_head_text(old(state).next_label as nat, mem_size as nat),
        labels.0@ == label_name((old(state).next_label + 5) as nat),
        labels.1@ == label_name((old(state).next_label + 7) as nat),
{
    let ghost c = state.next_label as nat;
    let ghost pre = ir@;
    let i0 = state.ident();
    let i1 = state.ident();
    let i2 = state.ident();
    let i3 = state.ident();
    let header = state.label();
    let body = state.label();
    let end = state.label();
    ir.append("\n    br label %");
    ir.append(header.as_str());
    ir.append(" ; Loop\n");
    ir.append(header.as_str());
    ir.append(":\n    ");
    ir.append(i0.as_str());
    ir.append(" = load atomic i64, i64* %ptr monotonic, align 1\n    ");
    ir.append(i1.as_str());
    ir.append(" = getelementptr [");
    push_dec(ir, mem_size as u64);
    ir.append(" x i8], [");
    push_dec(ir, mem_size as u64);
    ir.append(" x i8]* @mem, i64 0, i64 ");
    ir.append(i0.as_str());
    ir.append("\n    ");
    ir.append(i2.as_str());
    ir.append(" = load atomic volatile i8, i8* ");
    ir.append(i1.as_str());
    ir.append(" monotonic, align 1\n    ");
    ir.append(i3.as_str());
    ir.append(" = icmp eq i8 0, ");
    ir.append(i2.as_str());
    ir.append("\n    br i1 ");
    ir.append(i3.as_str());
    ir.append(", label %");
    ir.append(end.as_str());
    ir.append(", label %");
    ir.append(body.as_str());
    ir.append("\n");
    ir.append(body.as_str());
    ir.append(":");
    proof {
        assert((mem_size as u64) as nat == mem_size as nat);
        assert(ir@ =~= pre + ir_loop_head_text(c, mem_size as nat));
    }
    (header, end)
}

/// Emits a loop's closing blocks from its header and end label names.
fn emit_loop_tail(ir: &mut String, header: &String, end: &String, Ghost(c): Ghost<nat>)
    requires
        header@ == label_name(c + 5),
        end@ == label_name(c + 7),
    ensures
        final(ir)@ == old(ir)@ + ir_loop_tail_text(c),
{
    let ghost pre = ir@;
    ir.append("\n    br label %");
    ir.append(header.as_str());
    ir.append("\n");
    ir.append(end.as_str());
    ir.append(":");
    proof {
        assert(ir@ =~= pre + ir_loop_tail_text(c));
    }
}

impl Program {
    /// Emits the lowering of an instruction sequence, each node minting its
    /// fresh names from the shared counter.
    #[verifier::loop_isolation(false)]
    pub fn gen_ir_nodes(&self, ir: &mut String, state: &mut IrState, nodes: &Vec<Node>)
        requires
            old(state).next_label + idents_of_seq(nodes_view(nodes@)) <= u64::MAX,
        ensures
            final(state).next_label == old(state).next_label + idents_of_seq(nodes_view(nodes@)),
            final(ir)@ == old(ir)@ + ir_seq_text(
                nodes_view(nodes@),
                old(state).next_label as nat,
                self.mem_size as nat,
            ),
        decreases nodes,
    {
        let ghost dn = nodes_view(nodes@);
        let ghost c0 = old(state).next_label as nat;
        let ghost cells = self.mem_size as nat;
        let mut i: usize = 0;
        proof {
            assert(dn.skip(0) =~= dn);
        }
        while i < nodes.len()
            invariant
                i <= nodes@.len(),
                state.next_label as nat + idents_of_seq(dn.skip(i as int)) == c0 + idents_of_seq(
                    dn,
                ),
                ir@ + ir_seq_text(dn.skip(i as int), state.next_label as nat, cells) == old(ir)@
                    + ir_seq_text(dn, c0, cells),
            decreases nodes@.len() - i,
        {
            let ghost c = state.next_label as nat;
            let ghost pre = ir@;
            proof {
                assert(dn.skip(i as int)[0] == dn[i as int]);
                assert(dn.skip(i as int).drop_first() =~= dn.skip(i as int + 1));
                assert(idents_of_seq(dn.skip(i as int)) == idents_of_node(dn[i as int])
                    + idents_of_seq(dn.skip(i as int + 1)));
                assert(ir_seq_text(dn.skip(i as int), c, cells) == ir_node_text(
                    dn[i as int],
                    c,
                    cells,
                ) + ir_seq_text(dn.skip(i as int + 1), c + idents_of_node(dn[i as int]), cells));
            }
            match &nodes[i] {
                Node::IncPtr(v, _) => {
                    emit_inc_ptr(ir, state, *v);
                    proof {
                        assert((pre + ir_inc_ptr_text(c, *v)) + ir_seq_text(
                            dn.skip(i as int + 1),
                            c + 2,
                            cells,
                        ) =~= pre + (ir_inc_ptr_text(c, *v) + ir_seq_text(
                            dn.skip(i as int + 1),
                            c + 2,
                            cells,
                        )));
                    }
                }
                Node::DecPtr(v, _) => {
                    emit_dec_ptr(ir, state, *v);
                    proof {
                        assert((pre + ir_dec_ptr_text(c, *v)) + ir_seq_text(
                            dn.skip(i as int + 1),
                            c + 2,
                            cells,
                        ) =~= pre + (ir_dec_ptr_text(c, *v) + ir_seq_text(
                            dn.skip(i as int + 1),
                            c + 2,
                            cells,
                        )));
                    }
                }
                Node::Increment(v, _) => {
                    emit_increment(ir, state, *v, self.mem_size);
                    proof {
                        assert((pre + ir_increment_text(c, *v, cells)) + ir_seq_text(
                            dn.skip(i as int + 1),
                            c + 4,
                            cells,
                        ) =~= pre + (ir_increment_text(c, *v, cells) + ir_seq_text(
                            dn.skip(i as int + 1),
                            c + 4,
                            cells,
                        )));
                    }
                }
                Node::Decrement(v, _) => {
                    emit_decrement(ir, state, *v, self.mem_size);
                    proof {
                        assert((pre + ir_decrement_text(c, *v, cells)) + ir_seq_text(
                            dn.skip(i as int + 1),
                            c + 4,
                            cells,
                        ) =~= pre + (ir_decrement_text(c, *v, cells) + ir_seq_text(
                            dn.skip(i as int + 1),
                            c + 4,
                            cells,
                        )));
                    }
                }
                Node::Output(_) => {
                    emit_output(ir, state, self.mem_size);
                    proof {
                        assert((pre + ir_output_text(c, cells)) + ir_seq_text(
                            dn.skip(i as int + 1),
                            c + 2,
                            cells,
                        ) =~= pre + (ir_output_text(c, cells) + ir_seq_text(
                            dn.skip(i as int + 1),
                            c + 2,
                            cells,
                        )));
                    }
                }
                Node::Input(_) => {
                    emit_input(ir, state, self.mem_size);
                    proof {
                        assert((pre + ir_input_text(c, cells)) + ir_seq_text(
                            dn.skip(i as int + 1),
                            c + 2,
                            cells,
                        ) =~= pre + (ir_input_text(c, cells) + ir_seq_text(
                            dn.skip(i as int + 1),
                            c + 2,
                            cells,
                        )));
                    }
                }
                Node::Loop(body, _) => {
                    proof {
                        assert(decreases_to!(nodes => nodes[i as int]));
                        assert(decreases_to!(nodes[i as int] => nodes[i as int]->Loop_0));
                        assert(idents_of_node(dn[i as int]) == 7 + idents_of_seq(
                            nodes_view(body@),
                        ));
                    }
                    let (header, end) = emit_loop_head(ir, state, self.mem_size);
                    self.gen_ir_nodes(ir, state, body);
                    emit_loop_tail(ir, &header, &end, Ghost(c));
                    proof {
                        let bt = ir_seq_text(nodes_view(body@), c + 7, cells);
                        assert(ir_node_text(dn[i as int], c, cells) == ir_loop_head_text(c, cells)
                            + bt + ir_loop_tail_text(c));
                        assert(ir@ =~= pre + ir_node_text(dn[i as int], c, cells));
                        assert(pre + ir_node_text(dn[i as int], c, cells) + ir_seq_text(
                            dn.skip(i as int + 1),
                            c + idents_of_node(dn[i as int]),
                            cells,
                        ) =~= pre + (ir_node_text(dn[i as int], c, cells) + ir_seq_text(
                            dn.skip(i as int + 1),
                            c + idents_of_node(dn[i as int]),
                            cells,
                        )));
                    }
                }
            }
            i = i + 1;
        }
        proof {
            assert(dn.skip(dn.len() as int) =~= Seq::<NodeV>::empty());
            assert(ir@ + Seq::<char>::empty() =~= ir@);
        }
    }

    /// Emits the whole program: prelude, body, epilogue. Never fails; the
    /// bound on the name budget is a machine limit no real tree reaches.
    pub fn gen_ir(&self) -> (ir: String)
        requires
            idents_of_seq(self.ast@) <= u64::MAX,
        ensures
            ir@ == ir_program_text(self.ast@, self.mem_size as nat),
    {
        let ghost cells = self.mem_size as nat;
        let mut ir = String::new();
        let mut ir_state = IrState::new();
        ir.append("\n@mem = private global [");
        push_dec(&mut ir, self.mem_size as u64);
        ir.append(
            " x i8] zeroinitializer\ndefine void @_start() {\n    %ptr = alloca i64\n    store atomic volatile i64 ",
        );
        push_dec(&mut ir, (self.mem_size / 2) as u64);
        ir.append(", i64* %ptr monotonic, align 1");
        proof {
            assert((self.mem_size as u64) as nat == cells);
            assert(((self.mem_size / 2) as u64) as nat == cells / 2);
            assert(ir@ =~= ir_prelude(cells));
        }
        let ghost after_prelude = ir@;
        self.gen_ir_nodes(&mut ir, &mut ir_state, &self.ast.nodes);
        ir.append(
            "\n    call i64 asm sideeffect \"syscall\", \"=r,{rax},{rdi}\"(i64 60, i64 0)\n    ret void\n}",
        );
        proof {
            assert(ir@ =~= (after_prelude + ir_seq_text(self.ast@, 0, cells)) + ir_epilogue());
            assert((ir_prelude(cells) + ir_seq_text(self.ast@, 0, cells)) + ir_epilogue()
                =~= ir_program_text(self.ast@, cells));
        }
        ir
    }

    /// Whether the tree's name budget fits the counter, so that `gen_ir`'s
    /// bound is met; false only for trees beyond any real machine.
    pub fn can_gen_ir(&self) -> (r: bool)
        ensures
            r ==> idents_of_seq(self.ast@) <= u64::MAX,
    {
        count_idents(&self.ast.nodes) < u64::MAX
    }
}

/// Counts the fresh names a tree will mint, saturating at the counter's
/// ceiling.
#[verifier::loop_isolation(false)]
fn count_idents(nodes: &Vec<Node>) -> (r: u64)
    ensures
        r as nat == idents_of_seq(nodes_view(nodes@)) || (r == u64::MAX && idents_of_seq(
            nodes_view(nodes@),
        ) >= u64::MAX),
    decreases nodes,
{
    let ghost dn = nodes_view(nodes@);
    let mut total: u64 = 0;
    let mut i: usize = 0;
    proof {
        assert(dn.skip(0) =~= dn);
    }
    while i < nodes.len()
        invariant
            i <= nodes@.len(),
            total as nat + idents_of_seq(dn.skip(i as int)) == idents_of_seq(dn) || (total
                == u64::MAX && idents_of_seq(dn) >= u64::MAX),
        decreases nodes@.len() - i,
    {
        proof {
            assert(dn.skip(i as int)[0] == dn[i as int]);
            assert(dn.skip(i as int).drop_first() =~= dn.skip(i as int + 1));
            assert(idents_of_seq(dn.skip(i as int)) == idents_of_node(dn[i as int])
                + idents_of_seq(dn.skip(i as int + 1)));
        }
        let step: u64 = match &nodes[i] {
            Node::Loop(body, _) => {
                proof {
                    assert(decreases_to!(nodes => nodes[i as int]));
                    assert(decreases_to!(nodes[i as int] => nodes[i as int]->Loop_0));
                }
                let b = count_idents(body);
                if b >= u64::MAX - 7 {
                    u64::MAX
                } else {
                    b + 7
                }
            }
            Node::IncPtr(_, _) => 2,
            Node::DecPtr(_, _) => 2,
            Node::Increment(_, _) => 4,
            Node::Decrement(_, _) => 4,
            Node::Output(_) => 2,
            Node::Input(_) => 2,
        };
        let ghost step_exact = idents_of_node(dn[i as int]);
        proof {
            assert(step as nat == step_exact || (step == u64::MAX && step_exact >= u64::MAX - 7));
        }
        if step > u64::MAX - total {
            total = u64::MAX;
        } else {
            total = total + step;
        }
        i = i + 1;
    }
    proof {
        assert(dn.skip(dn.len() as int) =~= Seq::<NodeV>::empty());
    }
    total
}

} // verus!
