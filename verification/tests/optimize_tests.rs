//! Run-length coalescing behavior.

use brainfuck::node::Node;
use brainfuck::node::Ast;
use brainfuck::symbol::scan;

fn optimized(source: &[u8]) -> Ast {
    let bytes = source.to_vec();
    let syms = scan(&bytes, "prog.bf", "dir");
    let mut ast = Ast::parse(syms).expect("source must parse");
    ast.optimize();
    ast
}

#[test]
fn run_of_five_increments_is_one_node() {
    let ast = optimized(b"+++++");
    assert_eq!(ast.nodes.len(), 1);
    match &ast.nodes[0] {
        Node::Increment(v, _) => assert_eq!(*v, 5),
        other => panic!("unexpected node {:?}", other),
    }
}

#[test]
fn run_of_three_hundred_cell_deltas_wraps_at_byte_width() {
    let bytes: Vec<u8> = std::iter::repeat(b'+').take(300).collect();
    let ast = optimized(&bytes);
    assert_eq!(ast.nodes.len(), 1);
    match &ast.nodes[0] {
        Node::Increment(v, _) => assert_eq!(*v, 44),
        other => panic!("unexpected node {:?}", other),
    }
}

#[test]
fn run_of_three_hundred_pointer_deltas_keeps_the_count() {
    let bytes: Vec<u8> = std::iter::repeat(b'>').take(300).collect();
    let ast = optimized(&bytes);
    assert_eq!(ast.nodes.len(), 1);
    match &ast.nodes[0] {
        Node::IncPtr(v, _) => assert_eq!(*v, 300),
        other => panic!("unexpected node {:?}", other),
    }
}

#[test]
fn output_and_input_never_merge() {
    let ast = optimized(b"..,,");
    assert_eq!(ast.nodes.len(), 4);
    assert!(matches!(ast.nodes[0], Node::Output(_)));
    assert!(matches!(ast.nodes[1], Node::Output(_)));
    assert!(matches!(ast.nodes[2], Node::Input(_)));
    assert!(matches!(ast.nodes[3], Node::Input(_)));
}

#[test]
fn different_delta_kinds_never_merge() {
    let ast = optimized(b"+-");
    assert_eq!(ast.nodes.len(), 2);
    assert!(matches!(ast.nodes[0], Node::Increment(1, _)));
    assert!(matches!(ast.nodes[1], Node::Decrement(1, _)));
}

#[test]
fn loop_bodies_are_coalesced() {
    let ast = optimized(b"[++<<]");
    assert_eq!(ast.nodes.len(), 1);
    match &ast.nodes[0] {
        Node::Loop(body, _) => {
            assert_eq!(body.len(), 2);
            assert!(matches!(body[0], Node::Increment(2, _)));
            assert!(matches!(body[1], Node::DecPtr(2, _)));
        }
        other => panic!("unexpected node {:?}", other),
    }
}

#[test]
fn coalesced_node_keeps_first_position() {
    let ast = optimized(b"+++");
    match &ast.nodes[0] {
        Node::Increment(_, d) => {
            assert_eq!(d.line, 1);
            assert_eq!(d.column, 1);
        }
        other => panic!("unexpected node {:?}", other),
    }
}

#[test]
fn optimizing_twice_changes_nothing() {
    let bytes = b"++>><<--[++[>>]]..".to_vec();
    let syms = scan(&bytes, "prog.bf", "dir");
    let mut once = Ast::parse(syms).expect("source must parse");
    once.optimize();
    let syms2 = scan(&bytes, "prog.bf", "dir");
    let mut twice = Ast::parse(syms2).expect("source must parse");
    twice.optimize();
    twice.optimize();
    assert_eq!(once, twice);
}
