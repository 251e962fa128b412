//! What can go wrong when a file is compiled or a proof is checked.

use vstd::prelude::*;
use crate::compiling::types::{pieces, PartiallyCompiled, Piece};

verus! {

/// Why a library, a file or a formula was refused.
#[derive(Debug, PartialEq)]
pub enum CompileError {
    /// The order file is missing.
    OrderFileNotFound,
    /// A heading of the order file is unknown or out of order: the line and
    /// its number.
    InvalidOrderLine(String, usize),
    /// A file named in the order file could not be read: what went wrong, the
    /// line that names the file, and the line's number.
    IOError(String, String, usize),
    /// A file named in the order file is no source file: the line that names
    /// it and the line's number.
    UnparsableFile(String, usize),
    /// The file is of another kind than the one asked for.
    IncorrectFileType,
    /// The new syntax holds a syntax of the library or is held by one.
    AmbiguousSyntax(String),
    /// The library already has a definition, an axiom or a theorem of this
    /// name.
    DuplicateName(String),
    /// The proof line that should have this number has another.
    MissingProofLine(usize),
    /// A proof line uses another number of steps than what it cites has
    /// hypotheses: the number used, the number due, and the line.
    IncorrectNumberOfHypothesis(usize, usize, usize),
    /// The formula of this proof line does not follow from what it cites.
    IncorrectResultingFormula(usize),
    /// A proof line cites what the library does not hold: the name, and the
    /// line.
    UnknownTheorem(String, usize),
    /// The name index holds a reference that its makers never put there.
    WeirdReference,
    /// A proof line uses a step that is not before it: the step, and the line.
    InaccessibleHypothesis(usize, usize),
    /// No proof line arrives at the assertion with this index.
    AssertionNotProven(usize),
    /// A syntax rule of the table is broken: it matched, and yet it leaves a
    /// slot without a value or cannot shorten the formula.
    ShouldNotBeReached,
    /// No syntax applies any more and what is left is not one formula.
    UncompilableFormula(Vec<PartiallyCompiled>),
    /// The repetition marker stands where a formula is to be compiled.
    RepetitionCharacterNotCompilable,
}

/// The model of a `CompileError`.
pub enum CompileErrorModel {
    OrderFileNotFound,
    InvalidOrderLine(Seq<char>, usize),
    IOError(Seq<char>, Seq<char>, usize),
    UnparsableFile(Seq<char>, usize),
    IncorrectFileType,
    AmbiguousSyntax(Seq<char>),
    DuplicateName(Seq<char>),
    MissingProofLine(usize),
    IncorrectNumberOfHypothesis(usize, usize, usize),
    IncorrectResultingFormula(usize),
    UnknownTheorem(Seq<char>, usize),
    WeirdReference,
    InaccessibleHypothesis(usize, usize),
    AssertionNotProven(usize),
    ShouldNotBeReached,
    UncompilableFormula(Seq<Piece>),
    RepetitionCharacterNotCompilable,
}

impl View for CompileError {
    type V = CompileErrorModel;

    open spec fn view(&self) -> CompileErrorModel {
        match self {
            CompileError::OrderFileNotFound => CompileErrorModel::OrderFileNotFound,
            CompileError::InvalidOrderLine(l, n) => CompileErrorModel::InvalidOrderLine(l@, *n),
            CompileError::IOError(e, l, n) => CompileErrorModel::IOError(e@, l@, *n),
            CompileError::UnparsableFile(l, n) => CompileErrorModel::UnparsableFile(l@, *n),
            CompileError::IncorrectFileType => CompileErrorModel::IncorrectFileType,
            CompileError::AmbiguousSyntax(s) => CompileErrorModel::AmbiguousSyntax(s@),
            CompileError::DuplicateName(s) => CompileErrorModel::DuplicateName(s@),
            CompileError::MissingProofLine(n) => CompileErrorModel::MissingProofLine(*n),
            CompileError::IncorrectNumberOfHypothesis(a, b, c) => {
                CompileErrorModel::IncorrectNumberOfHypothesis(*a, *b, *c)
            },
            CompileError::IncorrectResultingFormula(n) => CompileErrorModel::IncorrectResultingFormula(
                *n,
            ),
            CompileError::UnknownTheorem(s, n) => CompileErrorModel::UnknownTheorem(s@, *n),
            CompileError::WeirdReference => CompileErrorModel::WeirdReference,
            CompileError::InaccessibleHypothesis(a, b) => CompileErrorModel::InaccessibleHypothesis(
                *a,
                *b,
            ),
            CompileError::AssertionNotProven(n) => CompileErrorModel::AssertionNotProven(*n),
            CompileError::ShouldNotBeReached => CompileErrorModel::ShouldNotBeReached,
            CompileError::UncompilableFormula(w) => CompileErrorModel::UncompilableFormula(pieces(w@)),
            CompileError::RepetitionCharacterNotCompilable => {
                CompileErrorModel::RepetitionCharacterNotCompilable
            },
        }
    }
}

} // verus!
