//! The file parser: from the text of a source file to a `MathFile`.

use vstd::prelude::*;
use crate::parsing::formula::{
    atoms_of, lex, named_formula, proof_line, read_named_formula, read_proof_line,
};
use crate::parsing::types::{
    line_view, named_view, views, DefinitionType, FileSection, FileType, Formula, FormulaChar,
    MathFile, MathFileModel, ProofLine,
};
use crate::text::{chars_of, is_text, lines, rows, slice_of, split, split_at_char, split_lines, string_of};

verus! {

/// Why a text is not a source file.
#[derive(Debug, PartialEq)]
pub enum ParseError {
    InvalidHeader(String),
    EmptyFile,
    InvalidSection(String, FileType),
    FileWithoutSection,
    UncorrelatedSection(FileSection, FileType),
    MultilineSection(FileSection),
    EmptySection(FileSection),
    InvalidSectionOrder,
    InvalidNamedHypothesis,
    InvalidProofLine,
    InvalidName(String),
}

/// The model of a `ParseError`.
pub enum ParseErrorModel {
    InvalidHeader(Seq<char>),
    EmptyFile,
    InvalidSection(Seq<char>, FileType),
    FileWithoutSection,
    UncorrelatedSection(FileSection, FileType),
    MultilineSection(FileSection),
    EmptySection(FileSection),
    InvalidSectionOrder,
    InvalidNamedHypothesis,
    InvalidProofLine,
    InvalidName(Seq<char>),
}

impl View for ParseError {
    type V = ParseErrorModel;

    open spec fn view(&self) -> ParseErrorModel {
        match self {
            ParseError::InvalidHeader(s) => ParseErrorModel::InvalidHeader(s@),
            ParseError::EmptyFile => ParseErrorModel::EmptyFile,
            ParseError::InvalidSection(s, t) => ParseErrorModel::InvalidSection(s@, *t),
            ParseError::FileWithoutSection => ParseErrorModel::FileWithoutSection,
            ParseError::UncorrelatedSection(s, t) => ParseErrorModel::UncorrelatedSection(*s, *t),
            ParseError::MultilineSection(s) => ParseErrorModel::MultilineSection(*s),
            ParseError::EmptySection(s) => ParseErrorModel::EmptySection(*s),
            ParseError::InvalidSectionOrder => ParseErrorModel::InvalidSectionOrder,
            ParseError::InvalidNamedHypothesis => ParseErrorModel::InvalidNamedHypothesis,
            ParseError::InvalidProofLine => ParseErrorModel::InvalidProofLine,
            ParseError::InvalidName(s) => ParseErrorModel::InvalidName(s@),
        }
    }
}

/// Whether `c` is an ASCII letter or digit.
pub open spec fn is_name_char(c: char) -> bool {
    ('a' <= c <= 'z') || ('A' <= c <= 'Z') || ('0' <= c <= '9')
}

/// A name is made of ASCII letters and digits, at least one.
pub open spec fn is_name(s: Seq<char>) -> bool {
    s.len() > 0 && forall|i: int| 0 <= i < s.len() ==> is_name_char(#[trigger] s[i])
}

/// Whether the characters make a name.
pub fn check_name(v: &Vec<char>) -> (r: bool)
    ensures
        r == is_name(v@),
{
    if v.len() == 0 {
        return false;
    }
    let mut i: usize = 0;
    while i < v.len()
        invariant
            i <= v.len(),
            forall|j: int| 0 <= j < i ==> is_name_char(#[trigger] v@[j]),
        decreases v.len() - i,
    {
        let c = v[i];
        if !(('a' <= c && c <= 'z') || ('A' <= c && c <= 'Z') || ('0' <= c && c <= '9')) {
            assert(!is_name_char(v@[i as int]));
            return false;
        }
        i += 1;
    }
    true
}

/// The kind of file that the words of a first line announce, and the word
/// that names it: `## Syntax Definition (formula) NAME`,
/// `## Syntax Definition (object) NAME`, `## Axiom NAME` or `## Theorem NAME`,
/// with one space between the words.
pub open spec fn header_words(words: Seq<Seq<char>>) -> Option<(FileType, Seq<char>)> {
    if words.len() == 5 && words[0] == "##"@ && words[1] == "Syntax"@ && words[2] == "Definition"@
        && words[3] == "(formula)"@ {
        Some((FileType::FormulaSyntaxDefinition, words[4]))
    } else if words.len() == 5 && words[0] == "##"@ && words[1] == "Syntax"@ && words[2]
        == "Definition"@ && words[3] == "(object)"@ {
        Some((FileType::ObjectSyntaxDefinition, words[4]))
    } else if words.len() == 3 && words[0] == "##"@ && words[1] == "Axiom"@ {
        Some((FileType::Axiom, words[2]))
    } else if words.len() == 3 && words[0] == "##"@ && words[1] == "Theorem"@ {
        Some((FileType::Theorem, words[2]))
    } else {
        None
    }
}

/// What a first line announces: a kind of file and a name, or the error that
/// the line gives.
pub open spec fn header_of(line: Seq<char>) -> Result<(FileType, Seq<char>), ParseErrorModel> {
    match header_words(split(line, ' ')) {
        None => Err(ParseErrorModel::InvalidHeader(line)),
        Some((file_type, name)) => if is_name(name) {
            Ok((file_type, name))
        } else {
            Err(ParseErrorModel::InvalidName(name))
        },
    }
}

/// Reads the first line of a file.
pub fn read_header(line: &Vec<char>) -> (r: Result<(FileType, String), ParseError>)
    ensures
        match r {
            Ok((file_type, name)) => header_of(line@) == Ok::<_, ParseErrorModel>((file_type, name@)),
            Err(e) => header_of(line@) == Err::<(FileType, Seq<char>), _>(e@),
        },
{
    let words = split_at_char(line, ' ');
    let n = words.len();
    let found: Option<(FileType, usize)> = if n == 5 && is_text(&words[0], "##") && is_text(
        &words[1],
        "Syntax",
    ) && is_text(&words[2], "Definition") && is_text(&words[3], "(formula)") {
        Some((FileType::FormulaSyntaxDefinition, 4))
    } else if n == 5 && is_text(&words[0], "##") && is_text(&words[1], "Syntax") && is_text(
        &words[2],
        "Definition",
    ) && is_text(&words[3], "(object)") {
        Some((FileType::ObjectSyntaxDefinition, 4))
    } else if n == 3 && is_text(&words[0], "##") && is_text(&words[1], "Axiom") {
        Some((FileType::Axiom, 2))
    } else if n == 3 && is_text(&words[0], "##") && is_text(&words[1], "Theorem") {
        Some((FileType::Theorem, 2))
    } else {
        None
    };
    assert(forall|i: int| 0 <= i < n ==> rows(words@)[i] == (#[trigger] words@[i])@);
    match found {
        None => Err(ParseError::InvalidHeader(string_of(line))),
        Some((file_type, at)) => {
            if check_name(&words[at]) {
                Ok((file_type, string_of(&words[at])))
            } else {
                Err(ParseError::InvalidName(string_of(&words[at])))
            }
        },
    }
}

/// The section that a heading line opens, if it is one of the headings.
pub open spec fn heading_of(line: Seq<char>) -> Option<FileSection> {
    if line == "# Syntax"@ {
        Some(FileSection::Syntax)
    } else if line == "# Definition"@ {
        Some(FileSection::Definition)
    } else if line == "# Hypothesis"@ || line == "# Hypotheses"@ {
        Some(FileSection::HypothesisList)
    } else if line == "# Assertion"@ || line == "# Assertions"@ {
        Some(FileSection::AssertionList)
    } else if line == "# Proof"@ {
        Some(FileSection::Proof)
    } else {
        None
    }
}

/// Reads a heading line.
pub fn read_heading(line: &Vec<char>) -> (r: Option<FileSection>)
    ensures
        r == heading_of(line@),
{
    if is_text(line, "# Syntax") {
        Some(FileSection::Syntax)
    } else if is_text(line, "# Definition") {
        Some(FileSection::Definition)
    } else if is_text(line, "# Hypothesis") || is_text(line, "# Hypotheses") {
        Some(FileSection::HypothesisList)
    } else if is_text(line, "# Assertion") || is_text(line, "# Assertions") {
        Some(FileSection::AssertionList)
    } else if is_text(line, "# Proof") {
        Some(FileSection::Proof)
    } else {
        None
    }
}

/// The sections read so far: those that are complete, the one that is open
/// with its lines, and the first line that looked like a heading and was none.
pub struct Scan {
    pub closed: Seq<(FileSection, Seq<Seq<char>>)>,
    pub current: FileSection,
    pub lines: Seq<Seq<char>>,
    pub bad: Option<Seq<char>>,
}

/// The complete sections once the open one is closed. What stands before the
/// first heading belongs to no section.
pub open spec fn close(st: Scan) -> Seq<(FileSection, Seq<Seq<char>>)> {
    if st.current == FileSection::NoSection {
        st.closed
    } else {
        st.closed.push((st.current, st.lines))
    }
}

/// What one more line does: an empty line nothing; a line that starts with
/// `#` opens the section it names, or is the bad line; any other line joins
/// the open section. After a bad line nothing changes.
pub open spec fn scan_line(st: Scan, line: Seq<char>) -> Scan {
    if st.bad is Some || line.len() == 0 {
        st
    } else if line[0] == '#' {
        match heading_of(line) {
            Some(kind) => Scan { closed: close(st), current: kind, lines: Seq::empty(), bad: None },
            None => Scan { bad: Some(line), ..st },
        }
    } else {
        Scan { lines: st.lines.push(line), ..st }
    }
}

/// The sections after the given lines.
pub open spec fn scan(body: Seq<Seq<char>>) -> Scan
    decreases body.len(),
{
    if body.len() == 0 {
        Scan { closed: Seq::empty(), current: FileSection::NoSection, lines: Seq::empty(), bad: None }
    } else {
        scan_line(scan(body.drop_last()), body.last())
    }
}

/// The model of the sections as the parser holds them.
pub open spec fn section_views(v: Seq<(FileSection, Vec<Vec<char>>)>) -> Seq<
    (FileSection, Seq<Seq<char>>),
> {
    v.map_values(|s: (FileSection, Vec<Vec<char>>)| (s.0, rows(s.1@)))
}

/// Reads the sections of a file from the lines below its first line.
pub fn read_sections(all: &Vec<Vec<char>>, file_type: FileType) -> (r: Result<
    Vec<(FileSection, Vec<Vec<char>>)>,
    ParseError,
>)
    requires
        all.len() >= 1,
    ensures
        match r {
            Ok(sections) => scan(rows(all@).skip(1)).bad is None && section_views(sections@)
                == close(scan(rows(all@).skip(1))),
            Err(e) => scan(rows(all@).skip(1)).bad is Some && e@ == ParseErrorModel::InvalidSection(
                scan(rows(all@).skip(1)).bad->0,
                file_type,
            ),
        },
{
    let ghost body = rows(all@).skip(1);
    let mut closed: Vec<(FileSection, Vec<Vec<char>>)> = Vec::new();
    let mut current = FileSection::NoSection;
    let mut content: Vec<Vec<char>> = Vec::new();
    let mut i: usize = 1;
    assert(section_views(closed@) =~= Seq::empty());
    assert(rows(content@) =~= Seq::empty());
    assert(body.take(0) =~= Seq::empty());
    while i < all.len()
        invariant
            1 <= i <= all.len(),
            body == rows(all@).skip(1),
            scan(body.take(i - 1)) == (Scan {
                closed: section_views(closed@),
                current,
                lines: rows(content@),
                bad: None,
            }),
        decreases all.len() - i,
    {
        let line = &all[i];
        let ghost before = scan(body.take(i - 1));
        proof {
            let next = body.take(i as int);
            assert(next.drop_last() == body.take(i - 1));
            assert(next.last() == line@);
            assert(scan(next) == scan_line(scan(next.drop_last()), next.last()));
        }
        if line.len() == 0 {
        } else if line[0] == '#' {
            match read_heading(line) {
                Some(kind) => {
                    match current {
                        FileSection::NoSection => {},
                        _ => {
                            let ghost old_closed = section_views(closed@);
                            closed.push((current, content));
                            assert(section_views(closed@) =~= old_closed.push(
                                (before.current, before.lines),
                            ));
                        },
                    }
                    content = Vec::new();
                    current = kind;
                    assert(rows(content@) =~= Seq::empty());
                },
                None => {
                    proof {
                        lemma_scan_stays_bad(body, i as int);
                    }
                    return Err(ParseError::InvalidSection(string_of(line), file_type));
                },
            }
        } else {
            let ghost old_rows = rows(content@);
            content.push(slice_of(line, 0, line.len()));
            assert(line@.subrange(0, line@.len() as int) == line@);
            assert(rows(content@) =~= old_rows.push(line@));
        }
        i += 1;
    }
    assert(body.take(all.len() - 1) == body);
    let ghost last = scan(body);
    match current {
        FileSection::NoSection => {},
        _ => {
            let ghost old_closed = section_views(closed@);
            closed.push((current, content));
            assert(section_views(closed@) =~= old_closed.push((last.current, last.lines)));
        },
    }
    Ok(closed)
}

/// After a bad line the scan keeps it, whatever follows.
pub proof fn lemma_scan_stays_bad(body: Seq<Seq<char>>, n: int)
    requires
        0 <= n <= body.len(),
        scan(body.take(n)).bad is Some,
    ensures
        scan(body) == scan(body.take(n)),
    decreases body.len(),
{
    if n < body.len() {
        assert(body.drop_last().take(n) == body.take(n));
        lemma_scan_stays_bad(body.drop_last(), n);
        assert(scan(body) == scan_line(scan(body.drop_last()), body.last()));
    } else {
        assert(body.take(n) == body);
    }
}

/// The one line of a section that must hold exactly one.
pub open spec fn one_line(kind: FileSection, content: Seq<Seq<char>>) -> Result<
    Seq<char>,
    ParseErrorModel,
> {
    if content.len() == 0 {
        Err(ParseErrorModel::EmptySection(kind))
    } else if content.len() == 1 {
        Ok(content[0])
    } else {
        Err(ParseErrorModel::MultilineSection(kind))
    }
}

/// No two of the hypotheses have one name.
pub open spec fn names_apart(hypotheses: Seq<(Seq<char>, Seq<FormulaChar>)>) -> bool {
    forall|i: int, j: int|
        0 <= i < j < hypotheses.len() ==> (#[trigger] hypotheses[i]).0 != (#[trigger] hypotheses[j]).0
}

/// The named hypotheses that the lines hold, if each line holds one and no
/// two of them have one name.
pub open spec fn named_formulas(content: Seq<Seq<char>>) -> Option<
    Seq<(Seq<char>, Seq<FormulaChar>)>,
> {
    if (forall|i: int| 0 <= i < content.len() ==> named_formula(#[trigger] content[i]) is Some)
        && names_apart(content.map_values(|l: Seq<char>| named_formula(l)->0)) {
        Some(content.map_values(|l: Seq<char>| named_formula(l)->0))
    } else {
        None
    }
}

/// The proof lines that the lines hold, if each line holds one.
pub open spec fn proof_lines(content: Seq<Seq<char>>) -> Option<
    Seq<(usize, Seq<usize>, Seq<char>, Seq<FormulaChar>)>,
> {
    if forall|i: int| 0 <= i < content.len() ==> proof_line(#[trigger] content[i]) is Some {
        Some(content.map_values(|l: Seq<char>| proof_line(l)->0))
    } else {
        None
    }
}

/// The formulas that the lines hold, one per line.
pub open spec fn formulas_of(content: Seq<Seq<char>>) -> Seq<Seq<FormulaChar>> {
    content.map_values(|l: Seq<char>| atoms_of(l))
}

/// The syntax definition that the sections make: a `Syntax` section of one
/// line, and after it at most a `Definition` section of one line.
pub open spec fn syntax_file(
    kind: DefinitionType,
    name: Seq<char>,
    sections: Seq<(FileSection, Seq<Seq<char>>)>,
) -> Result<MathFileModel, ParseErrorModel> {
    if sections.len() == 1 && sections[0].0 == FileSection::Syntax {
        match one_line(FileSection::Syntax, sections[0].1) {
            Err(e) => Err(e),
            Ok(l) => Ok(
                MathFileModel::SyntaxDefinition {
                    name,
                    definition_type: kind,
                    syntax: atoms_of(l),
                    definition: None,
                },
            ),
        }
    } else if sections.len() == 2 && sections[0].0 == FileSection::Syntax && sections[1].0
        == FileSection::Definition {
        match one_line(FileSection::Syntax, sections[0].1) {
            Err(e) => Err(e),
            Ok(l) => match one_line(FileSection::Definition, sections[1].1) {
                Err(e) => Err(e),
                Ok(d) => Ok(
                    MathFileModel::SyntaxDefinition {
                        name,
                        definition_type: kind,
                        syntax: atoms_of(l),
                        definition: Some(atoms_of(d)),
                    },
                ),
            },
        }
    } else {
        Err(ParseErrorModel::InvalidSectionOrder)
    }
}

/// The file that the sections make, for a file of the given kind and name.
/// An axiom has its hypotheses, then at least one assertion. A theorem has
/// its named hypotheses, no two of them under one name, its assertions and
/// its proof.
pub open spec fn file_from(
    file_type: FileType,
    name: Seq<char>,
    sections: Seq<(FileSection, Seq<Seq<char>>)>,
) -> Result<MathFileModel, ParseErrorModel> {
    match file_type {
        FileType::FormulaSyntaxDefinition => syntax_file(DefinitionType::Formula, name, sections),
        FileType::ObjectSyntaxDefinition => syntax_file(DefinitionType::Object, name, sections),
        FileType::Axiom => {
            if sections.len() == 2 && sections[0].0 == FileSection::HypothesisList && sections[1].0
                == FileSection::AssertionList {
                if sections[1].1.len() == 0 {
                    Err(ParseErrorModel::EmptySection(FileSection::AssertionList))
                } else {
                    Ok(
                        MathFileModel::Axiom {
                            name,
                            hypotheses: formulas_of(sections[0].1),
                            assertions: formulas_of(sections[1].1),
                        },
                    )
                }
            } else {
                Err(ParseErrorModel::InvalidSectionOrder)
            }
        },
        FileType::Theorem => {
            if sections.len() == 3 && sections[0].0 == FileSection::HypothesisList && sections[1].0
                == FileSection::AssertionList && sections[2].0 == FileSection::Proof {
                match named_formulas(sections[0].1) {
                    None => Err(ParseErrorModel::InvalidNamedHypothesis),
                    Some(hypotheses) => match proof_lines(sections[2].1) {
                        None => Err(ParseErrorModel::InvalidProofLine),
                        Some(proof) => Ok(
                            MathFileModel::Theorem {
                                name,
                                hypotheses,
                                assertions: formulas_of(sections[1].1),
                                proof,
                            },
                        ),
                    },
                }
            } else {
                Err(ParseErrorModel::InvalidSectionOrder)
            }
        },
    }
}

/// The file that a text holds: its first line says what it is, and the lines
/// below it are its sections.
pub open spec fn file_of(content: Seq<char>) -> Result<MathFileModel, ParseErrorModel> {
    let all = lines(content);
    if all.len() == 0 {
        Err(ParseErrorModel::EmptyFile)
    } else {
        match header_of(all[0]) {
            Err(e) => Err(e),
            Ok((file_type, name)) => {
                let st = scan(all.skip(1));
                match st.bad {
                    Some(line) => Err(ParseErrorModel::InvalidSection(line, file_type)),
                    None => file_from(file_type, name, close(st)),
                }
            },
        }
    }
}

/// Reads the formulas of a section, one per line.
pub fn read_formulas(content: &Vec<Vec<char>>) -> (r: Vec<Formula>)
    ensures
        views(r@) == formulas_of(rows(content@)),
{
    let mut r: Vec<Formula> = Vec::new();
    let mut i: usize = 0;
    while i < content.len()
        invariant
            i <= content.len(),
            r.len() == i,
            forall|j: int| 0 <= j < i ==> (#[trigger] r@[j])@ == atoms_of(content@[j]@),
        decreases content.len() - i,
    {
        r.push(lex(&content[i]));
        i += 1;
    }
    assert(views(r@) =~= formulas_of(rows(content@)));
    r
}

/// Whether one of the hypotheses has the name.
pub fn name_among(hypotheses: &Vec<(String, Formula)>, name: &String) -> (r: bool)
    ensures
        r == exists|j: int| 0 <= j < hypotheses@.len() && (#[trigger] hypotheses@[j]).0@ == name@,
{
    let wanted = chars_of(name.as_str());
    let mut j: usize = 0;
    while j < hypotheses.len()
        invariant
            j <= hypotheses.len(),
            wanted@ == name@,
            forall|k: int| 0 <= k < j ==> (#[trigger] hypotheses@[k]).0@ != name@,
        decreases hypotheses.len() - j,
    {
        if is_text(&wanted, hypotheses[j].0.as_str()) {
            return true;
        }
        j += 1;
    }
    false
}

/// Reads the named hypotheses of a section, one per line. A section in
/// which a name comes twice is refused.
pub fn read_named_formulas(content: &Vec<Vec<char>>) -> (r: Option<Vec<(String, Formula)>>)
    ensures
        match r {
            Some(hs) => named_formulas(rows(content@)) == Some(
                hs@.map_values(|h: (String, Formula)| named_view(h)),
            ),
            None => named_formulas(rows(content@)) is None,
        },
{
    let mut r: Vec<(String, Formula)> = Vec::new();
    let mut i: usize = 0;
    while i < content.len()
        invariant
            i <= content.len(),
            r.len() == i,
            forall|j: int|
                0 <= j < i ==> named_formula(content@[j]@) == Some(named_view(#[trigger] r@[j])),
            forall|a: int, b: int| 0 <= a < b < i ==> (#[trigger] r@[a]).0@ != (#[trigger] r@[b]).0@,
        decreases content.len() - i,
    {
        match read_named_formula(&content[i]) {
            Ok(h) => {
                if name_among(&r, &h.0) {
                    proof {
                        let all = rows(content@).map_values(|l: Seq<char>| named_formula(l)->0);
                        let j = choose|j: int| 0 <= j < r@.len() && (#[trigger] r@[j]).0@ == h.0@;
                        assert(named_formula(content@[j]@) == Some(named_view(r@[j])));
                        assert(all[j] == named_view(r@[j]));
                        assert(all[i as int] == named_view(h));
                        assert(!names_apart(all));
                    }
                    return None;
                }
                r.push(h);
            },
            Err(_) => {
                assert(named_formula(rows(content@)[i as int]) is None);
                return None;
            },
        }
        i += 1;
    }
    assert forall|j: int| 0 <= j < content.len() implies named_formula(
        #[trigger] rows(content@)[j],
    ) is Some by {
        assert(named_formula(content@[j]@) == Some(named_view(r@[j])));
    }
    assert(rows(content@).map_values(|l: Seq<char>| named_formula(l)->0) =~= r@.map_values(
        |h: (String, Formula)| named_view(h),
    ));
    assert(names_apart(r@.map_values(|h: (String, Formula)| named_view(h)))) by {
        let hs = r@.map_values(|h: (String, Formula)| named_view(h));
        assert forall|a: int, b: int| 0 <= a < b < hs.len() implies (#[trigger] hs[a]).0 != (
        #[trigger] hs[b]).0 by {
            assert(hs[a] == named_view(r@[a]) && hs[b] == named_view(r@[b]));
        }
    }
    Some(r)
}

/// Reads the proof lines of a section, one per line.
pub fn read_proof_lines(content: &Vec<Vec<char>>) -> (r: Option<Vec<ProofLine>>)
    ensures
        match r {
            Some(ps) => proof_lines(rows(content@)) == Some(
                ps@.map_values(|l: ProofLine| line_view(l)),
            ),
            None => proof_lines(rows(content@)) is None,
        },
{
    let mut r: Vec<ProofLine> = Vec::new();
    let mut i: usize = 0;
    while i < content.len()
        invariant
            i <= content.len(),
            r.len() == i,
            forall|j: int|
                0 <= j < i ==> proof_line(content@[j]@) == Some(line_view(#[trigger] r@[j])),
        decreases content.len() - i,
    {
        match read_proof_line(&content[i]) {
            Ok(l) => r.push(l),
            Err(_) => {
                assert(proof_line(rows(content@)[i as int]) is None);
                return None;
            },
        }
        i += 1;
    }
    assert forall|j: int| 0 <= j < content.len() implies proof_line(
        #[trigger] rows(content@)[j],
    ) is Some by {
        assert(proof_line(content@[j]@) == Some(line_view(r@[j])));
    }
    assert(rows(content@).map_values(|l: Seq<char>| proof_line(l)->0) =~= r@.map_values(
        |l: ProofLine| line_view(l),
    ));
    Some(r)
}

/// Reads the one line of a section that must hold exactly one.
pub fn read_one_line(kind: FileSection, content: &Vec<Vec<char>>) -> (r: Result<Formula, ParseError>)
    ensures
        match r {
            Ok(f) => one_line(kind, rows(content@)) is Ok && f@ == atoms_of(
                one_line(kind, rows(content@))->Ok_0,
            ),
            Err(e) => one_line(kind, rows(content@)) == Err::<Seq<char>, _>(e@),
        },
{
    if content.len() == 0 {
        Err(ParseError::EmptySection(kind))
    } else if content.len() == 1 {
        Ok(lex(&content[0]))
    } else {
        Err(ParseError::MultilineSection(kind))
    }
}

/// Builds a syntax definition from its sections.
pub fn build_syntax_file(
    kind: DefinitionType,
    name: String,
    sections: &Vec<(FileSection, Vec<Vec<char>>)>,
) -> (r: Result<MathFile, ParseError>)
    ensures
        match r {
            Ok(f) => syntax_file(kind, name@, section_views(sections@)) == Ok::<_, ParseErrorModel>(f@),
            Err(e) => syntax_file(kind, name@, section_views(sections@)) == Err::<MathFileModel, _>(
                e@,
            ),
        },
{
    let n = sections.len();
    if n == 1 && sections[0].0 == FileSection::Syntax {
        match read_one_line(FileSection::Syntax, &sections[0].1) {
            Err(e) => Err(e),
            Ok(syntax) => Ok(
                MathFile::SyntaxDefinition { name, definition_type: kind, syntax, definition: None },
            ),
        }
    } else if n == 2 && sections[0].0 == FileSection::Syntax && sections[1].0
        == FileSection::Definition {
        match read_one_line(FileSection::Syntax, &sections[0].1) {
            Err(e) => Err(e),
            Ok(syntax) => match read_one_line(FileSection::Definition, &sections[1].1) {
                Err(e) => Err(e),
                Ok(definition) => Ok(
                    MathFile::SyntaxDefinition {
                        name,
                        definition_type: kind,
                        syntax,
                        definition: Some(definition),
                    },
                ),
            },
        }
    } else {
        Err(ParseError::InvalidSectionOrder)
    }
}

/// Builds a file of the given kind and name from its sections.
pub fn build_file(
    file_type: FileType,
    name: String,
    sections: &Vec<(FileSection, Vec<Vec<char>>)>,
) -> (r: Result<MathFile, ParseError>)
    ensures
        match r {
            Ok(f) => file_from(file_type, name@, section_views(sections@)) == Ok::<_, ParseErrorModel>(
                f@,
            ),
            Err(e) => file_from(file_type, name@, section_views(sections@)) == Err::<
                MathFileModel,
                _,
            >(e@),
        },
{
    let n = sections.len();
    match file_type {
        FileType::FormulaSyntaxDefinition => build_syntax_file(DefinitionType::Formula, name, sections),
        FileType::ObjectSyntaxDefinition => build_syntax_file(DefinitionType::Object, name, sections),
        FileType::Axiom => {
            if n == 2 && sections[0].0 == FileSection::HypothesisList && sections[1].0
                == FileSection::AssertionList {
                if sections[1].1.len() == 0 {
                    Err(ParseError::EmptySection(FileSection::AssertionList))
                } else {
                    let hypotheses = read_formulas(&sections[0].1);
                    let assertions = read_formulas(&sections[1].1);
                    Ok(MathFile::Axiom { name, hypotheses, assertions })
                }
            } else {
                Err(ParseError::InvalidSectionOrder)
            }
        },
        FileType::Theorem => {
            if n == 3 && sections[0].0 == FileSection::HypothesisList && sections[1].0
                == FileSection::AssertionList && sections[2].0 == FileSection::Proof {
                let hypotheses = match read_named_formulas(&sections[0].1) {
                    Some(hypotheses) => hypotheses,
                    None => {
                        return Err(ParseError::InvalidNamedHypothesis);
                    },
                };
                let assertions = read_formulas(&sections[1].1);
                let proof = match read_proof_lines(&sections[2].1) {
                    Some(proof) => proof,
                    None => {
                        return Err(ParseError::InvalidProofLine);
                    },
                };
                Ok(MathFile::Theorem { name, hypotheses, assertions, proof })
            } else {
                Err(ParseError::InvalidSectionOrder)
            }
        },
    }
}

/// Reads a source file. The result is the file that the text holds, or the
/// first error that reading it meets; no formula is compiled.
pub fn parse_file(content: String) -> (r: Result<MathFile, ParseError>)
    ensures
        match r {
            Ok(f) => file_of(content@) == Ok::<_, ParseErrorModel>(f@),
            Err(e) => file_of(content@) == Err::<MathFileModel, _>(e@),
        },
{
    let all = split_lines(&chars_of(content.as_str()));
    if all.len() == 0 {
        return Err(ParseError::EmptyFile);
    }
    assert(rows(all@)[0] == all@[0]@);
    let (file_type, name) = match read_header(&all[0]) {
        Ok(header) => header,
        Err(e) => {
            return Err(e);
        },
    };
    let sections = match read_sections(&all, file_type) {
        Ok(sections) => sections,
        Err(e) => {
            return Err(e);
        },
    };
    build_file(file_type, name, &sections)
}

} // verus!
