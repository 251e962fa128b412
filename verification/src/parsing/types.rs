use vstd::prelude::*;

verus! {

/// One atom of a formula as written: a literal character, a placeholder for a
/// formula or for an object with the id that its letter gives it, or the
/// repetition marker.
#[derive(Debug, Clone, Copy, PartialEq, Eq, Structural)]
pub enum FormulaChar {
    Char(char),
    Wff(usize),
    Object(usize),
    RepetitionChar,
}

/// A formula as written: its atoms in order.
pub type Formula = Vec<FormulaChar>;

/// A proof line as written: its number, the numbers of the steps it uses, the
/// name it cites, and its formula.
pub type ProofLine = (usize, Vec<usize>, String, Formula);

/// The four kinds of source file.
#[derive(Debug, Clone, Copy, PartialEq, Eq, Structural)]
pub enum FileType {
    FormulaSyntaxDefinition,
    ObjectSyntaxDefinition,
    Axiom,
    Theorem,
}

/// The sections that a source file can hold; `NoSection` stands for the lines
/// before the first heading.
#[derive(Debug, Clone, Copy, PartialEq, Eq, Structural)]
pub enum FileSection {
    Syntax,
    Definition,
    HypothesisList,
    AssertionList,
    Proof,
    NoSection,
}

/// Whether a syntax definition declares a formula or an object.
#[derive(Debug, Clone, Copy, PartialEq, Eq, Structural)]
pub enum DefinitionType {
    Formula,
    Object,
}

/// A source file, read but not compiled.
#[derive(Debug, PartialEq)]
#[allow(inconsistent_fields)]
pub enum MathFile {
    SyntaxDefinition {
        name: String,
        definition_type: DefinitionType,
        syntax: Formula,
        definition: Option<Formula>,
    },
    Axiom { name: String, hypotheses: Vec<Formula>, assertions: Vec<Formula> },
    Theorem {
        name: String,
        hypotheses: Vec<(String, Formula)>,
        assertions: Vec<Formula>,
        proof: Vec<ProofLine>,
    },
}

/// What each element of a run holds.
pub open spec fn views<T: View>(v: Seq<T>) -> Seq<T::V> {
    v.map_values(|x: T| x@)
}

/// The model of a named hypothesis as written: its name and its atoms.
pub open spec fn named_view(h: (String, Formula)) -> (Seq<char>, Seq<FormulaChar>) {
    (h.0@, h.1@)
}

/// The model of a proof line as written.
pub open spec fn line_view(l: ProofLine) -> (usize, Seq<usize>, Seq<char>, Seq<FormulaChar>) {
    (l.0, l.1@, l.2@, l.3@)
}

/// The model of a source file.
#[allow(inconsistent_fields)]
pub enum MathFileModel {
    SyntaxDefinition {
        name: Seq<char>,
        definition_type: DefinitionType,
        syntax: Seq<FormulaChar>,
        definition: Option<Seq<FormulaChar>>,
    },
    Axiom { name: Seq<char>, hypotheses: Seq<Seq<FormulaChar>>, assertions: Seq<Seq<FormulaChar>> },
    Theorem {
        name: Seq<char>,
        hypotheses: Seq<(Seq<char>, Seq<FormulaChar>)>,
        assertions: Seq<Seq<FormulaChar>>,
        proof: Seq<(usize, Seq<usize>, Seq<char>, Seq<FormulaChar>)>,
    },
}

impl View for MathFile {
    type V = MathFileModel;

    open spec fn view(&self) -> MathFileModel {
        match self {
            MathFile::SyntaxDefinition { name, definition_type, syntax, definition } => {
                MathFileModel::SyntaxDefinition {
                    name: name@,
                    definition_type: *definition_type,
                    syntax: syntax@,
                    definition: match definition {
                        Some(d) => Some(d@),
                        None => None,
                    },
                }
            },
            MathFile::Axiom { name, hypotheses, assertions } => MathFileModel::Axiom {
                name: name@,
                hypotheses: views(hypotheses@),
                assertions: views(assertions@),
            },
            MathFile::Theorem { name, hypotheses, assertions, proof } => MathFileModel::Theorem {
                name: name@,
                hypotheses: hypotheses@.map_values(|h: (String, Formula)| named_view(h)),
                assertions: views(assertions@),
                proof: proof@.map_values(|l: ProofLine| line_view(l)),
            },
        }
    }
}

} // verus!
