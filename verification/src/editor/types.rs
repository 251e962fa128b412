//! What the editor shows of a source file: its lines, each with what was
//! found in it, and formulas with a colour for each character.

use vstd::prelude::*;
use crate::text::texts;

verus! {

/// The kind of a source file as its title says, or `Unknown`.
#[derive(Debug, Clone, Copy, PartialEq, Eq, Structural)]
pub enum FileType {
    SyntaxDefinitionFormula,
    SyntaxDefinitionObject,
    Axiom,
    Theorem,
    Unknown,
}

/// The colours of the terminal.
#[derive(Debug, Clone, Copy, PartialEq, Eq, Structural)]
pub enum Color {
    Normal,
    Black,
    Red,
    Green,
    Yellow,
    Blue,
    Magenta,
    Cyan,
    White,
}

impl Color {
    /// The number that selects the colour in an escape sequence.
    pub open spec fn code(self) -> u8 {
        match self {
            Color::Normal => 0,
            Color::Black => 30,
            Color::Red => 31,
            Color::Green => 32,
            Color::Yellow => 33,
            Color::Blue => 34,
            Color::Magenta => 35,
            Color::Cyan => 36,
            Color::White => 37,
        }
    }

    /// The number that selects the colour in an escape sequence.
    pub fn number(self) -> (n: u8)
        ensures
            n == self.code(),
    {
        match self {
            Color::Normal => 0,
            Color::Black => 30,
            Color::Red => 31,
            Color::Green => 32,
            Color::Yellow => 33,
            Color::Blue => 34,
            Color::Magenta => 35,
            Color::Cyan => 36,
            Color::White => 37,
        }
    }
}

/// Whether an assertion is proven, as far as the editor knows.
#[derive(Debug, Clone, Copy, PartialEq, Eq, Structural)]
pub enum ProvenState {
    NotProven,
    Proven,
    Assumed,
    NoState,
}

/// A text with a colour for each of its characters.
#[derive(Debug, PartialEq)]
pub struct ColoredString {
    pub characters: Vec<char>,
    pub colors: Vec<Color>,
}

/// The model of a coloured text.
pub struct ColoredModel {
    pub characters: Seq<char>,
    pub colors: Seq<Color>,
}

impl View for ColoredString {
    type V = ColoredModel;

    open spec fn view(&self) -> ColoredModel {
        ColoredModel { characters: self.characters@, colors: self.colors@ }
    }
}

impl ColoredModel {
    /// The text without characters.
    pub open spec fn empty() -> ColoredModel {
        ColoredModel { characters: Seq::empty(), colors: Seq::empty() }
    }

    /// A text in one colour.
    pub open spec fn plain(text: Seq<char>, color: Color) -> ColoredModel {
        ColoredModel { characters: text, colors: Seq::new(text.len(), |i: int| color) }
    }

    /// One text after the other.
    pub open spec fn join(self, other: ColoredModel) -> ColoredModel {
        ColoredModel {
            characters: self.characters + other.characters,
            colors: self.colors + other.colors,
        }
    }
}

/// The widths of the columns of a proof as shown.
#[derive(Debug, Clone, Copy, PartialEq, Eq, Structural)]
pub struct IndentInfo {
    pub line_number_indent: usize,
    pub used_hypotheses_indent: usize,
    pub theorem_reference_indent: usize,
}

/// A line of a source file as the editor shows it.
#[derive(Debug, PartialEq)]
#[allow(inconsistent_fields)]
pub enum FileLine {
    Raw(String),
    Title { title: String, name: String, title_good: bool, name_good: bool },
    Section { name: String, is_valid: bool },
    Hypothesis { name: String, hypot: ColoredString },
    Assertion { assertion: ColoredString, is_proven: ProvenState },
    ProofLine {
        line_no: String,
        line_index: usize,
        used_hypots: Vec<String>,
        theo_ref: String,
        theo_ref_exists: bool,
        formula: ColoredString,
    },
    UnexpectedLine(String),
}

/// The model of a line as shown.
#[allow(inconsistent_fields)]
pub enum FileLineModel {
    Raw(Seq<char>),
    Title { title: Seq<char>, name: Seq<char>, title_good: bool, name_good: bool },
    Section { name: Seq<char>, is_valid: bool },
    Hypothesis { name: Seq<char>, hypot: ColoredModel },
    Assertion { assertion: ColoredModel, is_proven: ProvenState },
    ProofLine {
        line_no: Seq<char>,
        line_index: usize,
        used_hypots: Seq<Seq<char>>,
        theo_ref: Seq<char>,
        theo_ref_exists: bool,
        formula: ColoredModel,
    },
    UnexpectedLine(Seq<char>),
}

impl View for FileLine {
    type V = FileLineModel;

    open spec fn view(&self) -> FileLineModel {
        match self {
            FileLine::Raw(text) => FileLineModel::Raw(text@),
            FileLine::Title { title, name, title_good, name_good } => FileLineModel::Title {
                title: title@,
                name: name@,
                title_good: *title_good,
                name_good: *name_good,
            },
            FileLine::Section { name, is_valid } => FileLineModel::Section {
                name: name@,
                is_valid: *is_valid,
            },
            FileLine::Hypothesis { name, hypot } => FileLineModel::Hypothesis {
                name: name@,
                hypot: hypot@,
            },
            FileLine::Assertion { assertion, is_proven } => FileLineModel::Assertion {
                assertion: assertion@,
                is_proven: *is_proven,
            },
            FileLine::ProofLine {
                line_no,
                line_index,
                used_hypots,
                theo_ref,
                theo_ref_exists,
                formula,
            } => FileLineModel::ProofLine {
                line_no: line_no@,
                line_index: *line_index,
                used_hypots: texts(used_hypots@),
                theo_ref: theo_ref@,
                theo_ref_exists: *theo_ref_exists,
                formula: formula@,
            },
            FileLine::UnexpectedLine(text) => FileLineModel::UnexpectedLine(text@),
        }
    }
}

/// The models of a run of lines.
pub open spec fn line_models(v: Seq<FileLine>) -> Seq<FileLineModel> {
    v.map_values(|l: FileLine| l@)
}

} // verus!
