//! IR emission: name minting, instruction templates, loop labels.

use brainfuck::node::Ast;
use brainfuck::symbol::scan;
use brainfuck::interp::Program;
use brainfuck::ir::IrState;
use brainfuck::Brainfuck;

fn program(source: &[u8], mem_size: usize) -> Program {
    let bytes = source.to_vec();
    let syms = scan(&bytes, "prog.bf", "dir");
    let mut ast = Ast::parse(syms).expect("source must parse");
    ast.optimize();
    Program::new(ast, mem_size)
}

fn count(haystack: &str, needle: &str) -> usize {
    let mut n = 0;
    let mut rest = haystack;
    while let Some(k) = rest.find(needle) {
        n += 1;
        rest = &rest[k + needle.len()..];
    }
    n
}

#[test]
fn counter_mints_sequential_names() {
    let mut s = IrState::new();
    assert_eq!(s.ident().as_str(), "%i1");
    assert_eq!(s.label().as_str(), "l2");
    assert_eq!(s.ident().as_str(), "%i3");
    assert_eq!(s.next_label, 3);
}

#[test]
fn empty_program_is_prelude_and_epilogue() {
    let bytes = Vec::new();
    let bf = Brainfuck::parse(&bytes, "prog.bf", "dir").expect("empty source must parse");
    assert!(bf.can_gen_ir());
    let ir = bf.gen_ir();
    let expected = "\n@mem = private global [100000 x i8] zeroinitializer\ndefine void @_start() {\n    %ptr = alloca i64\n    store atomic volatile i64 50000, i64* %ptr monotonic, align 1\n    call i64 asm sideeffect \"syscall\", \"=r,{rax},{rdi}\"(i64 60, i64 0)\n    ret void\n}";
    assert_eq!(ir.as_str(), expected);
}

#[test]
fn pointer_increment_lowers_to_load_add_store() {
    let p = program(b">", 4);
    let ir = p.gen_ir();
    let body = "\n    %i1 = load atomic i64, i64* %ptr monotonic, align 1 ; Increment Pointer\n    %i2 = add i64 %i1, 1\n    store atomic i64 %i2, i64* %ptr monotonic, align 1";
    assert!(ir.contains(body));
}

#[test]
fn coalesced_increment_two_is_one_byte_sequence() {
    let p = program(b"++", 9);
    let ir = p.gen_ir();
    let mut expected = String::new();
    expected.push_str("\n@mem = private global [9 x i8] zeroinitializer");
    expected.push_str("\ndefine void @_start() {");
    expected.push_str("\n    %ptr = alloca i64");
    expected.push_str("\n    store atomic volatile i64 4, i64* %ptr monotonic, align 1");
    expected.push_str("\n    %i1 = load atomic i64, i64* %ptr monotonic, align 1 ; Increment");
    expected.push_str("\n    %i2 = getelementptr [9 x i8], [9 x i8]* @mem, i64 0, i64 %i1");
    expected.push_str("\n    %i3 = load atomic volatile i8, i8* %i2 monotonic, align 1");
    expected.push_str("\n    %i4 = add i8 %i3, 2");
    expected.push_str("\n    store atomic volatile i8 %i4, i8* %i2 monotonic, align 1");
    expected.push_str("\n    call i64 asm sideeffect \"syscall\", \"=r,{rax},{rdi}\"(i64 60, i64 0)");
    expected.push_str("\n    ret void\n}");
    assert_eq!(ir.as_str(), expected.as_str());
    assert_eq!(count(&ir, " = add i8 "), 1);
    assert_eq!(count(&ir, "load atomic volatile i8"), 1);
    assert_eq!(count(&ir, "store atomic volatile i8"), 1);
}

#[test]
fn loop_emits_three_distinct_labels() {
    let p = program(b"[->+<]", 16);
    let ir = p.gen_ir();
    assert!(ir.contains("\n    br label %l5 ; Loop\nl5:"));
    assert!(ir.contains(", label %l7, label %l6\nl6:"));
    assert!(ir.contains("\n    br label %l5\nl7:"));
    assert_eq!(count(&ir, "l5:"), 1);
    assert_eq!(count(&ir, "l6:"), 1);
    assert_eq!(count(&ir, "l7:"), 1);
}

#[test]
fn sibling_loops_never_reuse_labels() {
    let p = program(b"[-][-]", 16);
    let ir = p.gen_ir();
    assert!(ir.contains("br label %l5 ; Loop\nl5:"));
    assert!(ir.contains("br label %l16 ; Loop\nl16:"));
    assert!(ir.contains("\n    br label %l5\nl7:"));
    assert!(ir.contains("\n    br label %l16\nl18:"));
    assert_eq!(count(&ir, "l5:"), 1);
    assert_eq!(count(&ir, "l16:"), 1);
}

#[test]
fn output_and_input_lower_to_syscalls() {
    let p = program(b".,", 5);
    let ir = p.gen_ir();
    assert!(ir.contains("\"=r,{rax},{rdi},{rsi},{rdx}\"(i64 1, i64 1, i8* %i2, i64 1)"));
    assert!(ir.contains("\"=r,{rax},{rdi},{rsi},{rdx}\"(i64 0, i64 0, i8* %i4, i64 1)"));
}

#[test]
fn emission_counts_every_minted_name() {
    let p = program(b"[-]", 6);
    let ir = p.gen_ir();
    assert!(ir.contains("%i11"));
    assert!(!ir.contains("%i12"));
}
