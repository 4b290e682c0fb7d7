//! The mid-level instructions that call lowering produces.

use vstd::prelude::*;

verus! {

/// A mid-level instruction: a plain move, a move of a linear value, or a call.
#[derive(Debug, Clone)]
pub enum Instruction {
    Move { dest: String, src: String },
    LinearMove { dest: String, src: String },
    Call { dest: String, func: String, args: Vec<String> },
}

/// The abstract content of an instruction.
pub enum InstrView {
    Move { dest: Seq<char>, src: Seq<char> },
    LinearMove { dest: Seq<char>, src: Seq<char> },
    Call { dest: Seq<char>, func: Seq<char>, args: Seq<Seq<char>> },
}

pub open spec fn strings_view(v: Seq<String>) -> Seq<Seq<char>> {
    Seq::new(v.len(), |i: int| v[i]@)
}

impl View for Instruction {
    type V = InstrView;

    open spec fn view(&self) -> InstrView {
        match self {
            Instruction::Move { dest, src } => InstrView::Move { dest: dest@, src: src@ },
            Instruction::LinearMove { dest, src } => InstrView::LinearMove { dest: dest@, src: src@ },
            Instruction::Call { dest, func, args } => InstrView::Call { dest: dest@, func: func@, args: strings_view(args@) },
        }
    }
}

/// A lowered module: its instructions in order.
#[derive(Debug, Clone)]
pub struct MirModule {
    pub instructions: Vec<Instruction>,
}

pub open spec fn instrs_view(v: Seq<Instruction>) -> Seq<InstrView> {
    Seq::new(v.len(), |i: int| v[i]@)
}

} // verus!
