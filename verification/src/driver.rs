//! The stages at which the compiler can stop.

use vstd::prelude::*;

verus! {

/// How far to run the compiler: stop after lexing, parsing, lowering to
/// the intermediate form, or code generation, or run in full (emit the
/// assembly, then assemble and link it).
#[derive(Debug, Clone, Copy, PartialEq, Eq, Structural)]
pub enum Stage {
    Lex,
    Parse,
    Tacky,
    Codegen,
    Full,
}

/// A pass of the compiler, in the order they run.
#[derive(Debug, Clone, Copy, PartialEq, Eq, Structural)]
pub enum Pass {
    Lex,
    Parse,
    Tacky,
    Codegen,
    Emit,
}

/// The position of a pass in the pipeline.
pub open spec fn pass_rank(p: Pass) -> nat {
    match p {
        Pass::Lex => 0,
        Pass::Parse => 1,
        Pass::Tacky => 2,
        Pass::Codegen => 3,
        Pass::Emit => 4,
    }
}

/// The last pass that a stage runs.
pub open spec fn last_pass(s: Stage) -> Pass {
    match s {
        Stage::Lex => Pass::Lex,
        Stage::Parse => Pass::Parse,
        Stage::Tacky => Pass::Tacky,
        Stage::Codegen => Pass::Codegen,
        Stage::Full => Pass::Emit,
    }
}

impl Stage {
    /// Whether the compiler, run to this stage, goes on after `pass`.
    pub fn continues_after(&self, pass: Pass) -> (b: bool)
        ensures
            b == (pass_rank(pass) < pass_rank(last_pass(*self))),
    {
        let last: u8 = match self {
            Stage::Lex => 0,
            Stage::Parse => 1,
            Stage::Tacky => 2,
            Stage::Codegen => 3,
            Stage::Full => 4,
        };
        let rank: u8 = match pass {
            Pass::Lex => 0,
            Pass::Parse => 1,
            Pass::Tacky => 2,
            Pass::Codegen => 3,
            Pass::Emit => 4,
        };
        rank < last
    }
}

} // verus!
