//! Scanner positions and parse errors.

use brainfuck::node::Node;
use brainfuck::node::Ast;
use brainfuck::symbol::Symbol;
use brainfuck::symbol::scan;
use brainfuck::Brainfuck;
use brainfuck::ParseError;

fn parse_err(source: &[u8]) -> brainfuck::DebugInfo {
    let bytes = source.to_vec();
    match Brainfuck::parse(&bytes, "prog.bf", "dir") {
        Ok(_) => panic!("expected a parse error"),
        Err(ParseError::UnmatchedLoop(d)) => d,
    }
}

#[test]
fn scan_tracks_line_and_column() {
    let bytes = b"+\n >".to_vec();
    let syms = scan(&bytes, "prog.bf", "dir");
    assert_eq!(syms.len(), 2);
    match &syms[0] {
        Symbol::Increment(d) => {
            assert_eq!(d.line, 1);
            assert_eq!(d.column, 1);
            assert_eq!(d.file.as_str(), "prog.bf");
            assert_eq!(d.directory.as_str(), "dir");
        }
        other => panic!("unexpected symbol {:?}", other),
    }
    match &syms[1] {
        Symbol::IncPtr(d) => {
            assert_eq!(d.line, 2);
            assert_eq!(d.column, 2);
        }
        other => panic!("unexpected symbol {:?}", other),
    }
}

#[test]
fn scan_ignores_unrecognized_bytes() {
    let bytes = b"a+b".to_vec();
    let syms = scan(&bytes, "prog.bf", "dir");
    assert_eq!(syms.len(), 1);
    match &syms[0] {
        Symbol::Increment(d) => assert_eq!(d.column, 2),
        other => panic!("unexpected symbol {:?}", other),
    }
}

#[test]
fn parse_balanced_nesting_depth() {
    let bytes = b"[[]]".to_vec();
    let syms = scan(&bytes, "prog.bf", "dir");
    let ast = Ast::parse(syms).expect("balanced source must parse");
    assert_eq!(ast.nodes.len(), 1);
    match &ast.nodes[0] {
        Node::Loop(body, _) => {
            assert_eq!(body.len(), 1);
            match &body[0] {
                Node::Loop(inner, _) => assert_eq!(inner.len(), 0),
                other => panic!("unexpected node {:?}", other),
            }
        }
        other => panic!("unexpected node {:?}", other),
    }
}

#[test]
fn parse_empty_source_ok() {
    let bytes = Vec::new();
    let syms = scan(&bytes, "prog.bf", "dir");
    let ast = Ast::parse(syms).expect("empty source must parse");
    assert_eq!(ast.nodes.len(), 0);
}

#[test]
fn stray_close_reports_its_own_position() {
    let d = parse_err(b"abc]");
    assert_eq!(d.line, 1);
    assert_eq!(d.column, 4);
    assert_eq!(d.file.as_str(), "prog.bf");
}

#[test]
fn stray_close_on_second_line() {
    let d = parse_err(b"+\n+]");
    assert_eq!(d.line, 2);
    assert_eq!(d.column, 2);
}

#[test]
fn extra_open_reports_the_open_bracket() {
    let d = parse_err(b"+[");
    assert_eq!(d.line, 1);
    assert_eq!(d.column, 2);
}

#[test]
fn unmatched_outer_open_reported() {
    let d = parse_err(b"[[]");
    assert_eq!(d.line, 1);
    assert_eq!(d.column, 1);
}

#[test]
fn innermost_unmatched_open_reported() {
    let d = parse_err(b"[[");
    assert_eq!(d.line, 1);
    assert_eq!(d.column, 2);
}

#[test]
fn close_before_open_reports_the_close() {
    let d = parse_err(b"][");
    assert_eq!(d.line, 1);
    assert_eq!(d.column, 1);
}
