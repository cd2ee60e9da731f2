//! Tagged symbols and the scanner that produces them from raw bytes.

use vstd::prelude::*;
use crate::debug::DebugInfo;
use crate::debug::DebugV;

verus! {

/// The recognized source bytes: `> < + - . , [ ]`, and the newline that
/// advances the line count.
pub const BYTE_INC_PTR: u8 = 62;
pub const BYTE_DEC_PTR: u8 = 60;
pub const BYTE_INCREMENT: u8 = 43;
pub const BYTE_DECREMENT: u8 = 45;
pub const BYTE_OUTPUT: u8 = 46;
pub const BYTE_INPUT: u8 = 44;
pub const BYTE_OPEN: u8 = 91;
pub const BYTE_CLOSE: u8 = 93;
pub const BYTE_NEWLINE: u8 = 10;

/// One recognized source byte, tagged with the position it came from.
#[derive(Debug, PartialEq, Eq)]
pub enum Symbol {
    IncPtr(DebugInfo),
    DecPtr(DebugInfo),
    Increment(DebugInfo),
    Decrement(DebugInfo),
    Output(DebugInfo),
    Input(DebugInfo),
    OpenBlock(DebugInfo),
    CloseBlock(DebugInfo),
}

/// The mathematical image of a `Symbol`.
pub enum SymV {
    IncPtr(DebugV),
    DecPtr(DebugV),
    Increment(DebugV),
    Decrement(DebugV),
    Output(DebugV),
    Input(DebugV),
    OpenBlock(DebugV),
    CloseBlock(DebugV),
}

impl View for Symbol {
    type V = SymV;

    open spec fn view(&self) -> SymV {
        match self {
            Symbol::IncPtr(d) => SymV::IncPtr(d@),
            Symbol::DecPtr(d) => SymV::DecPtr(d@),
            Symbol::Increment(d) => SymV::Increment(d@),
            Symbol::Decrement(d) => SymV::Decrement(d@),
            Symbol::Output(d) => SymV::Output(d@),
            Symbol::Input(d) => SymV::Input(d@),
            Symbol::OpenBlock(d) => SymV::OpenBlock(d@),
            Symbol::CloseBlock(d) => SymV::CloseBlock(d@),
        }
    }
}

/// The position a symbol carries.
pub open spec fn sym_debug(s: SymV) -> DebugV {
    match s {
        SymV::IncPtr(d) => d,
        SymV::DecPtr(d) => d,
        SymV::Increment(d) => d,
        SymV::Decrement(d) => d,
        SymV::Output(d) => d,
        SymV::Input(d) => d,
        SymV::OpenBlock(d) => d,
        SymV::CloseBlock(d) => d,
    }
}

/// The image of a symbol vector, element by element.
pub open spec fn syms_view(s: Seq<Symbol>) -> Seq<SymV> {
    s.map_values(|sym: Symbol| sym@)
}

/// The symbol a recognized byte scans to at position `d`; `None` for every
/// other byte.
pub open spec fn sym_of_byte(b: u8, d: DebugV) -> Option<SymV> {
    if b == BYTE_INC_PTR {
        Some(SymV::IncPtr(d))
    } else if b == BYTE_DEC_PTR {
        Some(SymV::DecPtr(d))
    } else if b == BYTE_INCREMENT {
        Some(SymV::Increment(d))
    } else if b == BYTE_DECREMENT {
        Some(SymV::Decrement(d))
    } else if b == BYTE_OUTPUT {
        Some(SymV::Output(d))
    } else if b == BYTE_INPUT {
        Some(SymV::Input(d))
    } else if b == BYTE_OPEN {
        Some(SymV::OpenBlock(d))
    } else if b == BYTE_CLOSE {
        Some(SymV::CloseBlock(d))
    } else {
        None
    }
}

/// The symbols scanned from `src`, starting at position (`line`, `col`).
/// A newline moves to column 1 of the next line; every other byte, recognized
/// or not, advances the column; line and column wrap at the `u32` boundary.
pub open spec fn scan_from(src: Seq<u8>, file: Seq<char>, dir: Seq<char>, line: u32, col: u32) -> Seq<SymV>
    decreases src.len(),
{
    if src.len() == 0 {
        Seq::empty()
    } else {
        let b = src[0];
        let d = DebugV { directory: dir, file: file, line: line, column: col };
        if b == BYTE_NEWLINE {
            scan_from(src.drop_first(), file, dir, line.wrapping_add(1), 1)
        } else {
            match sym_of_byte(b, d) {
                Some(s) => seq![s] + scan_from(src.drop_first(), file, dir, line, col.wrapping_add(1)),
                None => scan_from(src.drop_first(), file, dir, line, col.wrapping_add(1)),
            }
        }
    }
}

/// The symbols of a whole source text, which starts at line 1, column 1.
pub open spec fn scanned(src: Seq<u8>, file: Seq<char>, dir: Seq<char>) -> Seq<SymV> {
    scan_from(src, file, dir, 1, 1)
}

/// Converts raw source bytes into the symbol sequence `scanned` describes.
pub fn scan(source: &Vec<u8>, file_name: &str, directory: &str) -> (syms: Vec<Symbol>)
    ensures
        syms_view(syms@) == scanned(source@, file_name@, directory@),
{
    let mut syms: Vec<Symbol> = Vec::new();
    let mut line: u32 = 1;
    let mut column: u32 = 1;
    let mut i: usize = 0;
    proof {
        assert(source@.skip(0) =~= source@);
        assert(syms_view(syms@) + scan_from(source@, file_name@, directory@, 1, 1)
            =~= scan_from(source@, file_name@, directory@, 1, 1));
    }
    while i < source.len()
        invariant
            i <= source@.len(),
            scanned(source@, file_name@, directory@) == syms_view(syms@)
                + scan_from(source@.skip(i as int), file_name@, directory@, line, column),
        decreases source@.len() - i,
    {
        let ghost rest = source@.skip(i as int);
        let ghost pre = syms_view(syms@);
        proof {
            assert(rest[0] == source@[i as int]);
            assert(rest.drop_first() =~= source@.skip(i as int + 1));
        }
        let b = source[i];
        let debug = DebugInfo::at(directory, file_name, line, column);
        let ghost dv = debug@;
        match b {
            BYTE_INC_PTR => syms.push(Symbol::IncPtr(debug)),
            BYTE_DEC_PTR => syms.push(Symbol::DecPtr(debug)),
            BYTE_INCREMENT => syms.push(Symbol::Increment(debug)),
            BYTE_DECREMENT => syms.push(Symbol::Decrement(debug)),
            BYTE_OUTPUT => syms.push(Symbol::Output(debug)),
            BYTE_INPUT => syms.push(Symbol::Input(debug)),
            BYTE_OPEN => syms.push(Symbol::OpenBlock(debug)),
            BYTE_CLOSE => syms.push(Symbol::CloseBlock(debug)),
            BYTE_NEWLINE => {
                line = line.wrapping_add(1);
                column = 0;
            }
            _ => (),
        }
        column = column.wrapping_add(1);
        proof {
            if b != BYTE_NEWLINE {
                match sym_of_byte(b, dv) {
                    Some(s) => {
                        assert(syms_view(syms@) =~= pre.push(s));
                        assert(pre.push(s) + scan_from(source@.skip(i as int + 1), file_name@, directory@, line, column)
                            =~= pre + (seq![s] + scan_from(source@.skip(i as int + 1), file_name@, directory@, line, column)));
                    }
                    None => {}
                }
            }
        }
        i = i + 1;
    }
    proof {
        assert(source@.skip(source@.len() as int) =~= Seq::<u8>::empty());
        assert(syms_view(syms@) + Seq::<SymV>::empty() =~= syms_view(syms@));
    }
    syms
}

} // verus!
