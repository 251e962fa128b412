use math_lib::compiling::compiler::{
    add_axiom_to_lib, add_syndef_to_lib, add_theo_to_lib, verify_theo,
};
use math_lib::compiling::error::CompileError;
use math_lib::compiling::theorem::compile_theorem;
use math_lib::compiling::types::{
    Library, NameIndex, PartiallyCompiled, Reference, WellFormedFormula,
};
use math_lib::parsing::read_file::{parse_file, ParseError};
use math_lib::parsing::types::{FormulaChar, MathFile};

fn file(text: &str) -> MathFile {
    parse_file(text.to_string()).unwrap()
}

fn logic() -> (Library, NameIndex) {
    let mut lib =
        Library { syntaxes: vec![], definitions: vec![], axioms: vec![], theorems: vec![] };
    let mut index = NameIndex::new();
    for text in [
        "## Syntax Definition (formula) Imp\n# Syntax\n( \u{1D6FC} > \u{1D6FD} )\n",
        "## Syntax Definition (formula) Bot\n# Syntax\n_|_\n",
        "## Syntax Definition (formula) Neg\n# Syntax\n~ \u{1D6FC}\n# Definition\n( \u{1D6FC} > _|_ )\n",
    ] {
        add_syndef_to_lib(file(text), &mut lib, &mut index).unwrap();
    }
    for text in [
        "## Axiom MP\n# Hypotheses\n\u{1D6FC}\n( \u{1D6FC} > \u{1D6FD} )\n# Assertions\n\u{1D6FD}\n",
        "## Axiom K\n# Hypotheses\n# Assertions\n( \u{1D6FC} > ( \u{1D6FD} > \u{1D6FC} ) )\n( \u{1D6FC} > \u{1D6FC} )\n",
    ] {
        add_axiom_to_lib(file(text), &mut lib, &mut index).unwrap();
    }
    (lib, index)
}

fn theorem(hypotheses: &str, assertions: &str, proof: &str) -> MathFile {
    file(&format!(
        "## Theorem T\n# Hypotheses\n{hypotheses}# Assertions\n{assertions}# Proof\n{proof}"
    ))
}

fn check(hypotheses: &str, assertions: &str, proof: &str) -> Result<(), CompileError> {
    let (mut lib, mut index) = logic();
    verify_theo(theorem(hypotheses, assertions, proof), &mut lib, &mut index)
}

const A: &str = "\u{1D6FC}";
const B: &str = "\u{1D6FD}";

#[test]
fn axiom_without_hypotheses_is_cited() {
    assert_eq!(
        check("", &format!("({A}>({B}>{A}))\n"), &format!("1;;K;({A}>({B}>{A}))\n")),
        Ok(())
    );
    assert_eq!(check("", &format!("({B}>{B})\n"), &format!("1;;K.1;({B}>{B})\n")), Ok(()));
    assert_eq!(
        check("", &format!("({B}>{B})\n"), &format!("1;;K.0;({B}>{B})\n")),
        Err(CompileError::IncorrectResultingFormula(1))
    );
}

#[test]
fn definition_is_cited() {
    assert_eq!(
        check("", &format!("(({A}>{B})>_|_)\n"), &format!("1;;Neg;(({A}>{B})>_|_)\n")),
        Ok(())
    );
    assert_eq!(
        check("", &format!("({A}>{B})\n"), &format!("1;;Neg;({A}>{B})\n")),
        Err(CompileError::IncorrectResultingFormula(1))
    );
    assert_eq!(
        check("", &format!("({A}>_|_)\n"), &format!("1;;Neg.1;({A}>_|_)\n")),
        Err(CompileError::UnknownTheorem("Neg.1".to_string(), 1))
    );
    assert_eq!(
        check("", &format!("({A}>_|_)\n"), &format!("1;1;Neg;({A}>_|_)\n")),
        Err(CompileError::IncorrectNumberOfHypothesis(1, 0, 1))
    );
}

#[test]
fn proof_lines_are_numbered_from_one() {
    assert_eq!(
        check(&format!("a:{A}\n"), &format!("{A}\n"), &format!("2;;a;{A}\n")),
        Err(CompileError::MissingProofLine(1))
    );
    assert_eq!(
        check(&format!("a:{A}\n"), &format!("{A}\n"), &format!("1;;a;{A}\n1;;a;{A}\n")),
        Err(CompileError::MissingProofLine(2))
    );
}

#[test]
fn hypothesis_lines() {
    assert_eq!(check(&format!("a:{A}\n"), &format!("{A}\n"), &format!("1;;a;{A}\n")), Ok(()));
    assert_eq!(
        check(&format!("a:{A}\n"), &format!("{A}\n"), &format!("1;;a;{B}\n")),
        Err(CompileError::IncorrectResultingFormula(1))
    );
    assert_eq!(
        check(&format!("a:{A}\n"), &format!("{A}\n"), &format!("1;1;a;{A}\n")),
        Err(CompileError::IncorrectNumberOfHypothesis(1, 0, 1))
    );
    assert_eq!(
        parse_file(format!(
            "## Theorem T\n# Hypotheses\na:{A}\na:{B}\n# Assertions\n{B}\n# Proof\n1;;a;{B}\n"
        )),
        Err(ParseError::InvalidNamedHypothesis)
    );
    assert_eq!(
        check(&format!("a:{A}\nb:{B}\n"), &format!("{B}\n"), &format!("1;;b;{B}\n")),
        Ok(())
    );
    assert_eq!(
        check(&format!("MP:{A}\n"), &format!("{A}\n"), &format!("1;;MP;{A}\n")),
        Ok(())
    );
}

#[test]
fn unknown_citations() {
    assert_eq!(
        check("", &format!("{A}\n"), &format!("1;;Nope;{A}\n")),
        Err(CompileError::UnknownTheorem("Nope".to_string(), 1))
    );
    assert_eq!(
        check("", &format!("{A}\n"), &format!("1;;Nope.3;{A}\n")),
        Err(CompileError::UnknownTheorem("Nope".to_string(), 1))
    );
    assert_eq!(
        check("", &format!("{A}\n"), &format!("1;;MP.x;{A}\n")),
        Err(CompileError::UnknownTheorem("MP.x".to_string(), 1))
    );
    assert_eq!(
        check("", &format!("{A}\n"), &format!("1;;K.2;{A}\n")),
        Err(CompileError::UnknownTheorem("K.2".to_string(), 1))
    );
    assert_eq!(
        check("", &format!("{A}\n"), &format!("1;;K.10;{A}\n")),
        Err(CompileError::UnknownTheorem("K.10".to_string(), 1))
    );
}

#[test]
fn used_steps_must_be_earlier_steps() {
    let hyps = format!("a:{A}\nb:({A}>{B})\n");
    let start = format!("1;;a;{A}\n2;;b;({A}>{B})\n");
    assert_eq!(check(&hyps, &format!("{B}\n"), &format!("{start}3;1,2;MP;{B}\n")), Ok(()));
    assert_eq!(
        check(&hyps, &format!("{B}\n"), &format!("{start}3;1;MP;{B}\n")),
        Err(CompileError::IncorrectNumberOfHypothesis(1, 2, 3))
    );
    assert_eq!(
        check(&hyps, &format!("{B}\n"), &format!("{start}3;1,3;MP;{B}\n")),
        Err(CompileError::InaccessibleHypothesis(3, 3))
    );
    assert_eq!(
        check(&hyps, &format!("{B}\n"), &format!("{start}3;9,0;MP;{B}\n")),
        Err(CompileError::InaccessibleHypothesis(0, 3))
    );
    assert_eq!(
        check(&hyps, &format!("{B}\n"), &format!("{start}3;7,8;MP;{B}\n")),
        Err(CompileError::InaccessibleHypothesis(7, 3))
    );
    assert_eq!(
        check(&hyps, &format!("{B}\n"), &format!("{start}3;2,1;MP;{B}\n")),
        Err(CompileError::IncorrectResultingFormula(3))
    );
    assert_eq!(
        check(&hyps, &format!("{B}\n"), &format!("{start}3;1,2;MP;{A}\n")),
        Err(CompileError::IncorrectResultingFormula(3))
    );
}

#[test]
fn every_assertion_must_be_arrived_at() {
    let hyps = format!("a:{A}\nb:({A}>{B})\n");
    let proof = format!("1;;a;{A}\n2;;b;({A}>{B})\n");
    assert_eq!(
        check(&hyps, &format!("{A}\n{B}\n"), &proof),
        Err(CompileError::AssertionNotProven(1))
    );
    assert_eq!(
        check(&hyps, &format!("{B}\n{A}\n"), &proof),
        Err(CompileError::AssertionNotProven(0))
    );
    assert_eq!(check(&hyps, "", &proof), Ok(()));
    assert_eq!(check("", &format!("{A}\n"), ""), Err(CompileError::AssertionNotProven(0)));
}

#[test]
fn formulas_that_do_not_compile_end_the_check() {
    assert_eq!(
        check(&format!("a:{A}?\n"), &format!("{A}\n"), ""),
        Err(CompileError::UncompilableFormula(vec![
            PartiallyCompiled::CompiledFormula(WellFormedFormula::Atomic(0)),
            PartiallyCompiled::NotCompiled(FormulaChar::Char('?')),
        ]))
    );
    assert_eq!(
        check("", &format!("{A}\u{2026}\n"), ""),
        Err(CompileError::RepetitionCharacterNotCompilable)
    );
    assert_eq!(
        check(&format!("a:{A}\n"), &format!("{A}\n"), "1;;a;??\n"),
        Err(CompileError::UncompilableFormula(vec![
            PartiallyCompiled::NotCompiled(FormulaChar::Char('?')),
            PartiallyCompiled::NotCompiled(FormulaChar::Char('?')),
        ]))
    );
}

#[test]
fn other_files_are_no_theorem() {
    let (mut lib, mut index) = logic();
    assert_eq!(
        verify_theo(
            file("## Axiom A\n# Hypotheses\n# Assertions\nx\n"),
            &mut lib,
            &mut index
        ),
        Err(CompileError::IncorrectFileType)
    );
}

#[test]
fn references_that_the_library_does_not_hold_are_weird() {
    let (lib, _) = logic();
    let mut index = NameIndex::new();
    index.insert("H".to_string(), Reference::HypothesisReference(0));
    index.insert("D".to_string(), Reference::DefinitionReference(5));
    index.insert("A".to_string(), Reference::AxiomReference(0, 1));
    index.insert("B".to_string(), Reference::AxiomReference(9, 0));
    index.insert("T".to_string(), Reference::TheoremReference(0, 0));
    for name in ["H", "D", "A", "B", "T"] {
        let t = theorem("", &format!("{A}\n"), &format!("1;;{name};{A}\n"));
        assert_eq!(
            compile_theorem(t, &lib.syntaxes, &lib.definitions, &lib.axioms, &lib.theorems, &index)
                .map(|_| ()),
            Err(CompileError::WeirdReference)
        );
    }
}

#[test]
fn admitted_theorem_can_be_cited() {
    let (mut lib, mut index) = logic();
    let first = format!(
        "## Theorem First\n# Hypotheses\na:{A}\n# Assertions\n({B}>{A})\n# Proof\n1;;a;{A}\n2;;K;({A}>({B}>{A}))\n3;1,2;MP;({B}>{A})\n"
    );
    assert_eq!(add_theo_to_lib(file(&first), &mut lib, &mut index), Ok(()));
    let second = format!(
        "## Theorem Second\n# Hypotheses\nh:({A}>{A})\n# Assertions\n({B}>({A}>{A}))\n# Proof\n1;;h;({A}>{A})\n2;1;First;({B}>({A}>{A}))\n"
    );
    assert_eq!(add_theo_to_lib(file(&second), &mut lib, &mut index), Ok(()));
    assert_eq!(lib.theorems.len(), 2);
    assert_eq!(lib.theorems[1].proof[1].theorem_ref, Reference::TheoremReference(0, 0));
    assert_eq!(lib.theorems[1].proof[1].used_hypotheses, vec![0]);
    let failing = format!(
        "## Theorem Third\n# Hypotheses\n# Assertions\n{A}\n# Proof\n1;;Second;{A}\n"
    );
    assert_eq!(
        add_theo_to_lib(file(&failing), &mut lib, &mut index),
        Err(CompileError::IncorrectNumberOfHypothesis(0, 1, 1))
    );
    assert_eq!(lib.theorems.len(), 2);
    assert_eq!(index.get("Third"), None);
}

#[test]
fn a_name_stands_for_one_entry() {
    let (mut lib, mut index) = logic();
    let held = (lib.axioms.len(), lib.definitions.len(), lib.syntaxes.len());
    let axiom_again = format!("## Axiom MP\n# Hypotheses\n# Assertions\n({A}>{A})\n");
    assert_eq!(
        add_axiom_to_lib(file(&axiom_again), &mut lib, &mut index),
        Err(CompileError::DuplicateName("MP".to_string()))
    );
    let axiom_as_definition = format!("## Axiom Neg\n# Hypotheses\n# Assertions\n({A}>{A})\n");
    assert_eq!(
        add_axiom_to_lib(file(&axiom_as_definition), &mut lib, &mut index),
        Err(CompileError::DuplicateName("Neg".to_string()))
    );
    let theorem_as_axiom = format!(
        "## Theorem K\n# Hypotheses\n# Assertions\n({A}>{A})\n# Proof\n1;;K.1;({A}>{A})\n"
    );
    assert_eq!(verify_theo(file(&theorem_as_axiom), &mut lib, &mut index), Ok(()));
    assert_eq!(
        add_theo_to_lib(file(&theorem_as_axiom), &mut lib, &mut index),
        Err(CompileError::DuplicateName("K".to_string()))
    );
    let definition_as_axiom = format!(
        "## Syntax Definition (formula) MP\n# Syntax\n! {A}\n# Definition\n( {A} > {A} )\n"
    );
    assert_eq!(
        add_syndef_to_lib(file(&definition_as_axiom), &mut lib, &mut index),
        Err(CompileError::DuplicateName("MP".to_string()))
    );
    assert_eq!((lib.axioms.len(), lib.definitions.len(), lib.syntaxes.len()), held);
    assert_eq!(lib.theorems.len(), 0);
    assert_eq!(index.get("MP"), Some(Reference::AxiomReference(0, 0)));
    assert_eq!(index.get("K"), Some(Reference::AxiomReference(1, 0)));
    assert_eq!(index.get("Neg"), Some(Reference::DefinitionReference(0)));
    let rule_only = format!("## Syntax Definition (formula) MP\n# Syntax\n! {A}\n");
    assert_eq!(add_syndef_to_lib(file(&rule_only), &mut lib, &mut index), Ok(()));
    assert_eq!(lib.syntaxes.len(), held.2 + 1);
    let renamed = theorem_as_axiom.replace("Theorem K", "Theorem KK");
    assert_eq!(add_theo_to_lib(file(&renamed), &mut lib, &mut index), Ok(()));
    assert_eq!(index.get("KK"), Some(Reference::TheoremReference(0, 0)));
    assert_eq!(
        add_theo_to_lib(file(&renamed), &mut lib, &mut index),
        Err(CompileError::DuplicateName("KK".to_string()))
    );
    assert_eq!(lib.theorems.len(), 1);
}

#[test]
fn accepted_theorem_is_the_same_in_a_longer_library() {
    let (mut lib, mut index) = logic();
    let text = format!(
        "## Theorem First\n# Hypotheses\na:{A}\n# Assertions\n({B}>{A})\n# Proof\n1;;a;{A}\n2;;K;({A}>({B}>{A}))\n3;1,2;MP;({B}>{A})\n"
    );
    let before =
        compile_theorem(file(&text), &lib.syntaxes, &lib.definitions, &lib.axioms, &lib.theorems, &index)
            .unwrap();
    let more = format!("## Axiom Id\n# Hypotheses\n# Assertions\n({A}>{A})\n");
    assert_eq!(add_axiom_to_lib(file(&more), &mut lib, &mut index), Ok(()));
    let other = text.replace("First", "Other");
    assert_eq!(add_theo_to_lib(file(&other), &mut lib, &mut index), Ok(()));
    let after =
        compile_theorem(file(&text), &lib.syntaxes, &lib.definitions, &lib.axioms, &lib.theorems, &index)
            .unwrap();
    assert_eq!(after, before);
    assert_eq!(index.get("MP"), Some(Reference::AxiomReference(0, 0)));
    assert_eq!(index.get("K"), Some(Reference::AxiomReference(1, 0)));
}
