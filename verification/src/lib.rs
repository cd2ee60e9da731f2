//! A verified pipeline for a minimal eight-symbol cell-and-cursor language:
//! scanning, nested-loop parsing, run-length coalescing, a bounds-checked
//! interpreter, and a textual IR emitter.

use vstd::prelude::*;

pub mod debug;
pub mod symbol;
pub mod node;
pub mod parse;
pub mod parse_laws;
pub mod optimize;
pub mod optimize_laws;
pub mod interp;
pub mod interp_laws;
pub mod ir;
pub mod ir_laws;

pub use debug::DebugInfo;
pub use debug::DebugV;
pub use parse::ParseError;
pub use interp::ExecError;

use crate::symbol::scan;
use crate::symbol::scanned;
use crate::node::Ast;
use crate::node::NodeV;
use crate::parse::parsed;
use crate::optimize::coalesce;
use crate::interp::Program;
use crate::interp::RunOut;
use crate::interp::run_seq;
use crate::interp::init_state;
use crate::interp::DEFAULT_MEM_SIZE;
use crate::ir::idents_of_seq;
use crate::ir::ir_program_text;

verus! {

/// A parsed and coalesced program, fixed to the default memory size.
pub struct Brainfuck {
    pub program: Program,
}

impl Brainfuck {
    /// Scans `source`, parses it, coalesces the tree, and fixes the default
    /// memory size; fails exactly where the specification `parsed` fails,
    /// with the offending bracket's position.
    pub fn parse(source: &Vec<u8>, file_name: &str, directory: &str) -> (r: Result<
        Brainfuck,
        ParseError,
    >)
        ensures
            ({
                let p = parsed(scanned(source@, file_name@, directory@));
                match r {
                    Ok(bf) => {
                        &&& p is Ok
                        &&& bf.program.ast@ == coalesce(p->Ok_0)
                        &&& bf.program.mem_size == DEFAULT_MEM_SIZE
                    },
                    Err(e) => {
                        &&& e matches ParseError::UnmatchedLoop(d)
                        &&& p == Err::<Seq<NodeV>, DebugV>(d@)
                    },
                }
            }),
    {
        let symbols = scan(source, file_name, directory);
        match Ast::parse(symbols) {
            Ok(mut ast) => {
                ast.optimize();
                Ok(Brainfuck { program: Program::new(ast, DEFAULT_MEM_SIZE) })
            }
            Err(e) => Err(e),
        }
    }

    /// Runs the program on `input` with the given loop budget, handing back
    /// the report and every byte the run wrote before it ended.
    pub fn exec(&self, input: Vec<u8>, fuel: u64) -> (r: (
        Option<Result<(), ExecError>>,
        Vec<u8>,
    ))
        ensures
            ({
                let out = run_seq(
                    self.program.ast@,
                    init_state(self.program.mem_size, input@),
                    fuel as nat,
                );
                match out {
                    RunOut::Done(s) => r.0 == Some(Result::<(), ExecError>::Ok(())) && r.1@
                        == s.output,
                    RunOut::Fault(d, s) => match r.0 {
                        Some(Result::<(), ExecError>::Err(ExecError::OutOfBounds(e))) => e@ == d
                            && r.1@ == s.output,
                        _ => false,
                    },
                    RunOut::OutOfFuel => r.0 is None,
                }
            }),
    {
        let (status, state) = self.program.exec(input, fuel);
        (status, state.output)
    }

    /// Emits the whole IR text for the program.
    pub fn gen_ir(&self) -> (ir: String)
        requires
            idents_of_seq(self.program.ast@) <= u64::MAX,
        ensures
            ir@ == ir_program_text(self.program.ast@, self.program.mem_size as nat),
    {
        self.program.gen_ir()
    }

    /// Whether the tree's name budget fits `gen_ir`'s counter; false only
    /// for trees beyond any real machine.
    pub fn can_gen_ir(&self) -> (r: bool)
        ensures
            r ==> idents_of_seq(self.program.ast@) <= u64::MAX,
    {
        self.program.can_gen_ir()
    }
}

} // verus!
