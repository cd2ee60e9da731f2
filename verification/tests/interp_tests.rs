//! Interpreter behavior: outputs, faults, input consumption, budgets.

use brainfuck::node::Ast;
use brainfuck::symbol::scan;
use brainfuck::interp::Program;
use brainfuck::interp::ProgramState;
use brainfuck::Brainfuck;
use brainfuck::ExecError;

fn program(source: &[u8], mem_size: usize) -> Program {
    let bytes = source.to_vec();
    let syms = scan(&bytes, "prog.bf", "dir");
    let mut ast = Ast::parse(syms).expect("source must parse");
    ast.optimize();
    Program::new(ast, mem_size)
}

fn fault_position(status: Option<Result<(), ExecError>>) -> brainfuck::DebugInfo {
    match status {
        Some(Err(ExecError::OutOfBounds(d))) => d,
        other => panic!("expected an out-of-bounds fault, got {:?}", other),
    }
}

#[test]
fn three_increments_output_three() {
    let bytes = b"+++.".to_vec();
    let bf = Brainfuck::parse(&bytes, "prog.bf", "dir").expect("source must parse");
    let (status, output) = bf.exec(Vec::new(), 10);
    assert_eq!(status, Some(Ok(())));
    assert_eq!(output, vec![3u8]);
}

#[test]
fn clear_loop_terminates_and_zeroes_the_cell() {
    let p = program(b"+++[-]", 11);
    let (status, state) = p.exec(Vec::new(), 10);
    assert_eq!(status, Some(Ok(())));
    assert_eq!(state.ptr, 5);
    assert_eq!(state.mem[5], 0);
    for cell in &state.mem {
        assert_eq!(*cell, 0);
    }
}

#[test]
fn oob_fault_carries_the_instruction_position() {
    let p = program(b">>>+", 2);
    let (status, _) = p.exec(Vec::new(), 10);
    let d = fault_position(status);
    assert_eq!(d.line, 1);
    assert_eq!(d.column, 4);
    assert_eq!(d.file.as_str(), "prog.bf");
}

#[test]
fn pointer_underflow_wraps_and_faults_on_touch() {
    let p = program(b"<<+", 2);
    let (status, _) = p.exec(Vec::new(), 10);
    let d = fault_position(status);
    assert_eq!(d.column, 3);
}

#[test]
fn input_at_boundary_still_consumes_a_byte() {
    let p = program(b",", 0);
    let (status, state) = p.exec(vec![65u8], 10);
    let d = fault_position(status);
    assert_eq!(d.column, 1);
    assert_eq!(state.input_pos, 1);
}

#[test]
fn input_past_end_reads_byte_255() {
    let p = program(b",.", 3);
    let (status, state) = p.exec(Vec::new(), 10);
    assert_eq!(status, Some(Ok(())));
    assert_eq!(state.output, vec![255u8]);
}

#[test]
fn input_byte_is_stored_and_echoed() {
    let p = program(b",.", 3);
    let (status, state) = p.exec(vec![7u8], 10);
    assert_eq!(status, Some(Ok(())));
    assert_eq!(state.output, vec![7u8]);
    assert_eq!(state.input_pos, 1);
}

#[test]
fn exhausted_budget_reports_no_answer() {
    let bytes = b"+[]".to_vec();
    let bf = Brainfuck::parse(&bytes, "prog.bf", "dir").expect("source must parse");
    let (status, _) = bf.exec(Vec::new(), 5);
    assert_eq!(status, None);
}

#[test]
fn loop_transfers_a_value() {
    let bytes = b"++[>+<-]>.".to_vec();
    let bf = Brainfuck::parse(&bytes, "prog.bf", "dir").expect("source must parse");
    let (status, output) = bf.exec(Vec::new(), 100);
    assert_eq!(status, Some(Ok(())));
    assert_eq!(output, vec![2u8]);
}

#[test]
fn output_written_before_a_fault_is_kept() {
    let p = program(b"..>>>.", 2);
    let (status, state) = p.exec(Vec::new(), 10);
    let d = fault_position(status);
    assert_eq!(d.column, 6);
    assert_eq!(state.output, vec![0u8, 0u8]);
}

#[test]
fn empty_program_finishes_untouched() {
    let bytes = Vec::new();
    let bf = Brainfuck::parse(&bytes, "prog.bf", "dir").expect("empty source must parse");
    let (status, output) = bf.exec(Vec::new(), 1);
    assert_eq!(status, Some(Ok(())));
    assert_eq!(output, Vec::<u8>::new());
}

#[test]
fn eight_by_eight_loop_outputs_sixty_five() {
    let bytes = b"++++++++[>++++++++<-]>+.".to_vec();
    let bf = Brainfuck::parse(&bytes, "prog.bf", "dir").expect("source must parse");
    let (status, output) = bf.exec(Vec::new(), 1000);
    assert_eq!(status, Some(Ok(())));
    assert_eq!(output, vec![65u8]);
}

#[test]
fn fresh_state_is_centered_and_zeroed() {
    let state = ProgramState::new(8, vec![1u8, 2u8]);
    assert_eq!(state.ptr, 4);
    assert_eq!(state.mem.len(), 8);
    assert_eq!(state.mem_size, 8);
    assert_eq!(state.input_pos, 0);
    assert!(state.output.is_empty());
    assert!(!state.is_oob());
}
