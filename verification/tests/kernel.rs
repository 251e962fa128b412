use math_lib::compiling::compiler::{
    add_axiom_to_lib, add_syndef_to_lib, add_theo_to_lib, verify_theo,
};
use math_lib::compiling::error::CompileError;
use math_lib::compiling::formula::compile_formula;
use math_lib::compiling::types::{
    Library, LogicStep, NameIndex, Reference, SyntaxType, WellFormedFormula,
};
use math_lib::parsing::formula::parse_formula;
use math_lib::parsing::read_file::parse_file;
use math_lib::parsing::types::MathFile;
use math_lib::serializing::read_write::{read_file, write_lib};
use std::collections::HashMap;

fn file(text: &str) -> MathFile {
    parse_file(text.to_string()).unwrap()
}

fn empty_library() -> (Library, NameIndex) {
    (
        Library {
            syntaxes: Vec::new(),
            definitions: Vec::new(),
            axioms: Vec::new(),
            theorems: Vec::new(),
        },
        NameIndex::new(),
    )
}

const IMP: &str = "## Syntax Definition (formula) Imp\n# Syntax\n( 𝛼 → 𝛽 )\n";
const BOT: &str = "## Syntax Definition (formula) Bot\n# Syntax\n⊥\n";
const NEG: &str = "## Syntax Definition (formula) Neg\n# Syntax\n¬ 𝛼\n# Definition\n( 𝛼 → ⊥ )\n";
const MP: &str = "## Axiom MP\n# Hypotheses\n𝛼\n( 𝛼 → 𝛽 )\n# Assertions\n𝛽\n";
const THEOREM: &str = "## Theorem First\n# Hypotheses\na: 𝛼\nb: ( 𝛼 → 𝛽 )\n# Assertions\n𝛽\n# Proof\n1; ; a ; 𝛼\n2; ; b ; ( 𝛼 → 𝛽 )\n3; 1,2 ; MP ; 𝛽\n";

fn logic() -> (Library, NameIndex) {
    let (mut lib, mut index) = empty_library();
    add_syndef_to_lib(file(IMP), &mut lib, &mut index).unwrap();
    add_syndef_to_lib(file(BOT), &mut lib, &mut index).unwrap();
    add_syndef_to_lib(file(NEG), &mut lib, &mut index).unwrap();
    add_axiom_to_lib(file(MP), &mut lib, &mut index).unwrap();
    (lib, index)
}

fn atom(id: usize) -> WellFormedFormula {
    WellFormedFormula::Atomic(id)
}

fn node(rule: usize, formulas: Vec<WellFormedFormula>) -> WellFormedFormula {
    WellFormedFormula::SyntaxComposite {
        syntax_ref: rule,
        wff_parameters: formulas,
        object_parameters: vec![],
    }
}

#[test]
fn syntax_and_definition_are_admitted() {
    let (lib, index) = logic();
    assert_eq!(lib.syntaxes.len(), 3);
    assert_eq!(lib.syntaxes[0].syntax_type, SyntaxType::Formula);
    assert_eq!(lib.syntaxes[0].distinct_wff_count, 2);
    assert_eq!(lib.syntaxes[0].distinct_object_count, 0);
    assert_eq!(lib.syntaxes[2].distinct_wff_count, 1);
    assert_eq!(lib.definitions.len(), 1);
    assert_eq!(lib.definitions[0].name, "Neg");
    assert_eq!(
        lib.definitions[0].definition,
        node(0, vec![atom(0), node(1, vec![])])
    );
    assert_eq!(lib.definitions[0].distinct_wff_count, 1);
    assert_eq!(index.get("Neg"), Some(Reference::DefinitionReference(0)));
    assert_eq!(index.get("Imp"), None);
}

#[test]
fn negation_compiles_to_its_rule() {
    let (lib, _) = logic();
    let mut wffs = HashMap::new();
    let mut objects = HashMap::new();
    let compiled = compile_formula(parse_formula("¬ 𝜑"), &lib.syntaxes, &mut wffs, &mut objects);
    assert_eq!(compiled, Ok(node(2, vec![atom(0)])));
    assert_eq!(wffs.len(), 1);
    assert_eq!(objects.len(), 0);
}

#[test]
fn longer_pattern_that_holds_a_rule_is_ambiguous() {
    let (mut lib, mut index) = empty_library();
    add_syndef_to_lib(
        file("## Syntax Definition (formula) Arrow\n# Syntax\n𝛼 → 𝛽\n"),
        &mut lib,
        &mut index,
    )
    .unwrap();
    let refused = add_syndef_to_lib(
        file("## Syntax Definition (formula) Chain\n# Syntax\n𝛼 → 𝛽 → 𝛾\n"),
        &mut lib,
        &mut index,
    );
    assert_eq!(refused, Err(CompileError::AmbiguousSyntax("Chain".to_string())));
    assert_eq!(lib.syntaxes.len(), 1);
}

#[test]
fn shorter_pattern_that_is_held_is_ambiguous() {
    let (mut lib, mut index) = empty_library();
    add_syndef_to_lib(
        file("## Syntax Definition (formula) Chain\n# Syntax\n𝛼 → 𝛽 → 𝛾\n"),
        &mut lib,
        &mut index,
    )
    .unwrap();
    let refused = add_syndef_to_lib(
        file("## Syntax Definition (formula) Arrow\n# Syntax\n𝛾 → 𝛼\n"),
        &mut lib,
        &mut index,
    );
    assert_eq!(refused, Err(CompileError::AmbiguousSyntax("Arrow".to_string())));
}

#[test]
fn modus_ponens_proof_is_accepted() {
    let (mut lib, mut index) = logic();
    assert_eq!(verify_theo(file(THEOREM), &mut lib, &mut index), Ok(()));
    assert_eq!(lib.theorems.len(), 0);
    assert_eq!(add_theo_to_lib(file(THEOREM), &mut lib, &mut index), Ok(()));
    assert_eq!(lib.theorems.len(), 1);
    let theorem = &lib.theorems[0];
    assert_eq!(theorem.name, "First");
    assert_eq!(theorem.hypotheses, vec![atom(0), node(0, vec![atom(0), atom(1)])]);
    assert_eq!(theorem.assertions, vec![atom(1)]);
    assert_eq!(theorem.distinct_wff_count, 2);
    assert_eq!(theorem.distinct_object_count, 0);
    assert_eq!(
        theorem.proof,
        vec![
            LogicStep {
                used_hypotheses: vec![],
                theorem_ref: Reference::HypothesisReference(0),
                resulting_formula: atom(0),
            },
            LogicStep {
                used_hypotheses: vec![],
                theorem_ref: Reference::HypothesisReference(1),
                resulting_formula: node(0, vec![atom(0), atom(1)]),
            },
            LogicStep {
                used_hypotheses: vec![0, 1],
                theorem_ref: Reference::AxiomReference(0, 0),
                resulting_formula: atom(1),
            },
        ]
    );
    assert_eq!(index.get("First"), Some(Reference::TheoremReference(0, 0)));
}

#[test]
fn citation_of_a_missing_assertion_is_unknown() {
    let (mut lib, mut index) = logic();
    let mutated = THEOREM.replace("; MP ;", "; MP.1 ;");
    assert_eq!(
        verify_theo(file(&mutated), &mut lib, &mut index),
        Err(CompileError::UnknownTheorem("MP.1".to_string(), 3))
    );
}

#[test]
fn step_zero_is_inaccessible() {
    let (mut lib, mut index) = logic();
    add_axiom_to_lib(
        file("## Axiom Ax\n# Hypotheses\n𝛼\n# Assertions\n𝛼\n"),
        &mut lib,
        &mut index,
    )
    .unwrap();
    let text = "## Theorem T\n# Hypotheses\na: 𝛼\n# Assertions\n𝛼\n# Proof\n1; ; a ; 𝛼\n2; 0 ; Ax ; 𝛼\n";
    assert_eq!(
        verify_theo(file(text), &mut lib, &mut index),
        Err(CompileError::InaccessibleHypothesis(0, 2))
    );
}

#[test]
fn archive_round_trip() {
    let (mut lib, mut index) = logic();
    add_theo_to_lib(file(THEOREM), &mut lib, &mut index).unwrap();
    let (expected, expected_index) = {
        let (mut lib, mut index) = logic();
        add_theo_to_lib(file(THEOREM), &mut lib, &mut index).unwrap();
        (lib, index)
    };
    let data = write_lib(lib);
    assert_eq!(data[0], 0xf0);
    assert_eq!(*data.last().unwrap(), 0xf4);
    let (read_back, read_index) = read_file(&data);
    assert_eq!(read_back, expected);
    assert_eq!(read_index, expected_index);
    assert_eq!(read_back.syntaxes.len(), 3);
    assert_eq!(read_back.definitions.len(), 1);
    assert_eq!(read_back.axioms.len(), 1);
    assert_eq!(read_back.theorems.len(), 1);
}

#[test]
fn stray_byte_before_the_end_is_passed_over() {
    let (mut lib, mut index) = logic();
    add_theo_to_lib(file(THEOREM), &mut lib, &mut index).unwrap();
    let mut data = write_lib(lib);
    let (expected, expected_index) = read_file(&data);
    let end = data.pop().unwrap();
    assert_eq!(end, 0xf4);
    data.push(0x7a);
    data.push(0xf4);
    let (read_back, read_index) = read_file(&data);
    assert_eq!(read_back, expected);
    assert_eq!(read_index, expected_index);
    assert_eq!(read_back.theorems.len(), 1);
}
