use math_lib::parsing::formula::{parse_named_formula, parse_proof_line};
use math_lib::parsing::read_file::{parse_file, ParseError};
use math_lib::parsing::types::{DefinitionType, FileSection, FileType, FormulaChar, MathFile};

fn read(text: &str) -> Result<MathFile, ParseError> {
    parse_file(text.to_string())
}

#[test]
fn named_formula_is_split_at_first_colon() {
    assert_eq!(
        parse_named_formula("  h1 : a:b"),
        Ok((
            "h1".to_string(),
            vec![FormulaChar::Char('a'), FormulaChar::Char(':'), FormulaChar::Char('b')]
        ))
    );
    assert_eq!(parse_named_formula("no colon"), Err(()));
}

#[test]
fn proof_line_is_split_at_three_semicolons() {
    assert_eq!(
        parse_proof_line(" 3 ; 1, 2 ,, ; MP.0 ; x;y"),
        Ok((
            3,
            vec![1, 2],
            "MP.0".to_string(),
            vec![FormulaChar::Char('x'), FormulaChar::Char(';'), FormulaChar::Char('y')]
        ))
    );
    assert_eq!(parse_proof_line("1;;a;"), Ok((1, vec![], "a".to_string(), vec![])));
    assert_eq!(parse_proof_line("+7;;a;"), Ok((7, vec![], "a".to_string(), vec![])));
}

#[test]
fn proof_line_with_bad_parts_is_refused() {
    assert_eq!(parse_proof_line("1;2;a"), Err(()));
    assert_eq!(parse_proof_line("x;;a;b"), Err(()));
    assert_eq!(parse_proof_line(";;a;b"), Err(()));
    assert_eq!(parse_proof_line("1;1,x;a;b"), Err(()));
    assert_eq!(parse_proof_line("-1;;a;b"), Err(()));
    assert_eq!(parse_proof_line("99999999999999999999999999;;a;b"), Err(()));
}

#[test]
fn syntax_definition_file() {
    assert_eq!(
        read("## Syntax Definition (formula) Top\n\n# Syntax\nT\n"),
        Ok(MathFile::SyntaxDefinition {
            name: "Top".to_string(),
            definition_type: DefinitionType::Formula,
            syntax: vec![FormulaChar::Char('T')],
            definition: None,
        })
    );
    assert_eq!(
        read("## Syntax Definition (object) Zero\r\n# Syntax\r\n0\r\n# Definition\r\n\u{1D44E}"),
        Ok(MathFile::SyntaxDefinition {
            name: "Zero".to_string(),
            definition_type: DefinitionType::Object,
            syntax: vec![FormulaChar::Char('0')],
            definition: Some(vec![FormulaChar::Object(0)]),
        })
    );
}

#[test]
fn axiom_file() {
    assert_eq!(
        read("## Axiom A1\n# Hypothesis\n# Assertion\nx\ny\n"),
        Ok(MathFile::Axiom {
            name: "A1".to_string(),
            hypotheses: vec![],
            assertions: vec![vec![FormulaChar::Char('x')], vec![FormulaChar::Char('y')]],
        })
    );
}

#[test]
fn theorem_file() {
    assert_eq!(
        read("## Theorem T\n# Hypotheses\nh: x\n# Assertions\nx\n# Proof\n1;;h;x\n"),
        Ok(MathFile::Theorem {
            name: "T".to_string(),
            hypotheses: vec![("h".to_string(), vec![FormulaChar::Char('x')])],
            assertions: vec![vec![FormulaChar::Char('x')]],
            proof: vec![(1, vec![], "h".to_string(), vec![FormulaChar::Char('x')])],
        })
    );
}

#[test]
fn header_errors() {
    assert_eq!(read(""), Err(ParseError::EmptyFile));
    assert_eq!(
        read("# Axiom A\n"),
        Err(ParseError::InvalidHeader("# Axiom A".to_string()))
    );
    assert_eq!(
        read("## Axiom  A\n"),
        Err(ParseError::InvalidHeader("## Axiom  A".to_string()))
    );
    assert_eq!(
        read("## Syntax Definition (setvar) A\n"),
        Err(ParseError::InvalidHeader("## Syntax Definition (setvar) A".to_string()))
    );
    assert_eq!(read("## Axiom A-1\n"), Err(ParseError::InvalidName("A-1".to_string())));
    assert_eq!(read("## Axiom \n"), Err(ParseError::InvalidName("".to_string())));
}

#[test]
fn section_errors() {
    assert_eq!(
        read("## Axiom A\n# Hypotheses \n"),
        Err(ParseError::InvalidSection("# Hypotheses ".to_string(), FileType::Axiom))
    );
    assert_eq!(read("## Axiom A\n# Assertions\nx\n"), Err(ParseError::InvalidSectionOrder));
    assert_eq!(
        read("## Axiom A\n# Assertions\nx\n# Hypotheses\n"),
        Err(ParseError::InvalidSectionOrder)
    );
    assert_eq!(
        read("## Axiom A\n# Hypotheses\n# Assertions\n"),
        Err(ParseError::EmptySection(FileSection::AssertionList))
    );
    assert_eq!(
        read("## Syntax Definition (formula) S\n# Syntax\n"),
        Err(ParseError::EmptySection(FileSection::Syntax))
    );
    assert_eq!(
        read("## Syntax Definition (formula) S\n# Syntax\na\nb\n"),
        Err(ParseError::MultilineSection(FileSection::Syntax))
    );
    assert_eq!(
        read("## Syntax Definition (formula) S\n# Syntax\na\n# Definition\nb\nc\n"),
        Err(ParseError::MultilineSection(FileSection::Definition))
    );
    assert_eq!(
        read("## Syntax Definition (formula) S\n# Syntax\na\n# Syntax\nb\n"),
        Err(ParseError::InvalidSectionOrder)
    );
    assert_eq!(read("## Theorem T\nstray\n"), Err(ParseError::InvalidSectionOrder));
}

#[test]
fn theorem_line_errors() {
    assert_eq!(
        read("## Theorem T\n# Hypotheses\nx\n# Assertions\nx\n# Proof\n"),
        Err(ParseError::InvalidNamedHypothesis)
    );
    assert_eq!(
        read("## Theorem T\n# Hypotheses\nh:x\n# Assertions\nx\n# Proof\n1;h;x\n"),
        Err(ParseError::InvalidProofLine)
    );
}

#[test]
fn lines_before_the_first_heading_are_dropped() {
    assert_eq!(
        read("## Axiom A\nstray\n# Hypotheses\n# Assertions\nx"),
        Ok(MathFile::Axiom {
            name: "A".to_string(),
            hypotheses: vec![],
            assertions: vec![vec![FormulaChar::Char('x')]],
        })
    );
}
