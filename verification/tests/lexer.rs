use math_lib::parsing::formula::parse_formula;
use math_lib::parsing::types::FormulaChar;

#[test]
fn spaces_are_dropped() {
    assert_eq!(
        parse_formula(" a  b "),
        vec![FormulaChar::Char('a'), FormulaChar::Char('b')]
    );
}

#[test]
fn italic_letters_are_placeholders() {
    assert_eq!(
        parse_formula("\u{1D44E}\u{1D467}\u{1D6FC}\u{1D714}\u{2026}("),
        vec![
            FormulaChar::Object(0),
            FormulaChar::Object(25),
            FormulaChar::Wff(0),
            FormulaChar::Wff(24),
            FormulaChar::RepetitionChar,
            FormulaChar::Char('('),
        ]
    );
}
