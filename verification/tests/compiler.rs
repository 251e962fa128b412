use math_lib::compiling::compiler::{add_syndef_to_lib, compile_directory};
use math_lib::compiling::error::CompileError;
use math_lib::compiling::formula::compile_formula;
use math_lib::compiling::math_file::{compile_axiom, compile_definition, compile_syntax};
use math_lib::compiling::types::{
    Library, NameIndex, Object, PartiallyCompiled, Placeholder, Reference, Syntax, SyntaxType,
    WellFormedFormula,
};
use math_lib::compiling::verification::{
    equal_placeholders, formula_is_contained, formula_is_substitution,
};
use math_lib::parsing::formula::parse_formula;
use math_lib::parsing::read_file::parse_file;
use math_lib::parsing::types::{FormulaChar, MathFile};
use std::collections::HashMap;

fn file(text: &str) -> MathFile {
    parse_file(text.to_string()).unwrap()
}

fn rule(kind: SyntaxType, text: &str) -> Syntax {
    let header = match kind {
        SyntaxType::Formula => "## Syntax Definition (formula) R\n# Syntax\n",
        SyntaxType::Object => "## Syntax Definition (object) R\n# Syntax\n",
    };
    compile_syntax(file(&format!("{header}{text}\n")), &vec![]).unwrap().0
}

fn compile(text: &str, table: &Vec<Syntax>) -> Result<WellFormedFormula, CompileError> {
    compile_formula(parse_formula(text), table, &mut HashMap::new(), &mut HashMap::new())
}

fn atom(id: usize) -> WellFormedFormula {
    WellFormedFormula::Atomic(id)
}

fn node(rule: usize, formulas: Vec<WellFormedFormula>, objects: Vec<Object>) -> WellFormedFormula {
    WellFormedFormula::SyntaxComposite {
        syntax_ref: rule,
        wff_parameters: formulas,
        object_parameters: objects,
    }
}

#[test]
fn placeholders_are_alike_by_kind() {
    assert!(equal_placeholders(&Placeholder::LiteralChar('a'), &Placeholder::LiteralChar('a')));
    assert!(!equal_placeholders(&Placeholder::LiteralChar('a'), &Placeholder::LiteralChar('b')));
    assert!(equal_placeholders(&Placeholder::WellFormedFormula(0), &Placeholder::WellFormedFormula(5)));
    assert!(equal_placeholders(&Placeholder::Object(1), &Placeholder::Object(2)));
    assert!(equal_placeholders(&Placeholder::Repetition, &Placeholder::Repetition));
    assert!(!equal_placeholders(&Placeholder::WellFormedFormula(0), &Placeholder::Object(0)));
    assert!(!equal_placeholders(&Placeholder::Repetition, &Placeholder::LiteralChar('a')));
}

#[test]
fn containment_of_patterns() {
    let short = vec![Placeholder::WellFormedFormula(0), Placeholder::LiteralChar('+')];
    let long = vec![Placeholder::LiteralChar('('), Placeholder::WellFormedFormula(3), Placeholder::LiteralChar('+'), Placeholder::Object(0)];
    assert!(formula_is_contained(&short, &long));
    assert!(!formula_is_contained(&long, &short));
    assert!(formula_is_contained(&vec![], &long));
    assert!(formula_is_contained(&vec![], &vec![]));
    assert!(formula_is_contained(&long, &long));
    assert!(!formula_is_contained(&vec![Placeholder::Object(0), Placeholder::LiteralChar('+')], &long));
    assert!(formula_is_contained(&vec![Placeholder::Object(7)], &long));
}

#[test]
fn syntax_line_is_renamed_in_order_of_first_occurrence() {
    let r = rule(SyntaxType::Object, "\u{1D6FD}\u{1D467}+\u{1D6FC}\u{1D6FD}\u{1D44E}\u{1D467}\u{2026}");
    assert_eq!(r.syntax_type, SyntaxType::Object);
    assert_eq!(
        r.formula,
        vec![
            Placeholder::WellFormedFormula(0),
            Placeholder::Object(0),
            Placeholder::LiteralChar('+'),
            Placeholder::WellFormedFormula(1),
            Placeholder::WellFormedFormula(0),
            Placeholder::Object(1),
            Placeholder::Object(0),
            Placeholder::Repetition,
        ]
    );
    assert_eq!(r.distinct_wff_count, 2);
    assert_eq!(r.distinct_object_count, 2);
}

#[test]
fn other_files_are_no_syntax() {
    assert_eq!(
        compile_syntax(file("## Axiom A\n# Hypotheses\n# Assertions\nx\n"), &vec![]).map(|_| ()),
        Err(CompileError::IncorrectFileType)
    );
    assert_eq!(
        compile_axiom(file("## Syntax Definition (formula) S\n# Syntax\nx\n"), &vec![]).map(|_| ()),
        Err(CompileError::IncorrectFileType)
    );
}

#[test]
fn first_rule_in_table_order_is_applied_first() {
    let table = vec![
        rule(SyntaxType::Formula, "T"),
        rule(SyntaxType::Formula, "( \u{1D6FC} + \u{1D6FD} )"),
        rule(SyntaxType::Object, "0"),
        rule(SyntaxType::Formula, "\u{1D44E} = \u{1D44F}"),
    ];
    assert_eq!(
        compile("T", &table),
        Err(CompileError::UncompilableFormula(vec![PartiallyCompiled::NotCompiled(
            FormulaChar::Char('T')
        )]))
    );
    assert_eq!(
        compile("(T+\u{1D6FC})", &table),
        Ok(node(1, vec![node(0, vec![], vec![]), atom(0)], vec![]))
    );
    assert_eq!(
        compile("( 0 = \u{1D465} + \u{1D6FC} )", &table),
        Ok(node(
            1,
            vec![
                node(3, vec![], vec![Object::SyntaxComposite {
                    syntax_ref: 2,
                    wff_parameters: vec![],
                    object_parameters: vec![],
                }, Object::Atomic(0)]),
                atom(0)
            ],
            vec![]
        ))
    );
}

#[test]
fn repeated_slot_must_repeat_the_tree() {
    let table = vec![rule(SyntaxType::Formula, "\u{1D6FC} & \u{1D6FC}")];
    assert_eq!(
        compile("\u{1D6FC} & \u{1D6FC}", &table),
        Ok(node(0, vec![atom(0)], vec![]))
    );
    assert_eq!(
        compile("\u{1D6FC} & \u{1D6FD}", &table),
        Err(CompileError::UncompilableFormula(vec![
            PartiallyCompiled::CompiledFormula(atom(0)),
            PartiallyCompiled::NotCompiled(FormulaChar::Char('&')),
            PartiallyCompiled::CompiledFormula(atom(1)),
        ]))
    );
}

#[test]
fn what_is_left_is_uncompilable() {
    let table = vec![rule(SyntaxType::Object, "0")];
    assert_eq!(compile("", &table), Err(CompileError::UncompilableFormula(vec![])));
    assert_eq!(
        compile("x", &table),
        Err(CompileError::UncompilableFormula(vec![PartiallyCompiled::NotCompiled(
            FormulaChar::Char('x')
        )]))
    );
    assert_eq!(
        compile("\u{1D44E}", &table),
        Err(CompileError::UncompilableFormula(vec![PartiallyCompiled::CompiledObject(
            Object::Atomic(0)
        )]))
    );
    assert_eq!(compile("\u{1D6FC}", &table), Ok(atom(0)));
    assert_eq!(
        compile("\u{1D6FC}\u{2026}", &table),
        Err(CompileError::RepetitionCharacterNotCompilable)
    );
}

#[test]
fn rules_that_make_no_progress_end_the_compiling() {
    let table = vec![rule(SyntaxType::Formula, "\u{1D6FC}")];
    assert_eq!(compile("\u{1D6FC}", &table), Ok(atom(0)));
    assert_eq!(compile("\u{1D6FC}x", &table), Err(CompileError::ShouldNotBeReached));
    let broken = vec![Syntax {
        syntax_type: SyntaxType::Formula,
        formula: vec![Placeholder::LiteralChar('a'), Placeholder::LiteralChar('b')],
        distinct_wff_count: 1,
        distinct_object_count: 0,
    }];
    assert_eq!(compile("ab", &broken), Err(CompileError::ShouldNotBeReached));
}

#[test]
fn placeholders_share_leaves_across_formulas() {
    let table = vec![rule(SyntaxType::Formula, "( \u{1D6FC} + \u{1D6FD} )")];
    let mut wffs = HashMap::new();
    let mut objects = HashMap::new();
    let first = compile_formula(parse_formula("\u{1D6FD}"), &table, &mut wffs, &mut objects);
    assert_eq!(first, Ok(atom(0)));
    let second =
        compile_formula(parse_formula("(\u{1D6FC}+\u{1D6FD})"), &table, &mut wffs, &mut objects);
    assert_eq!(second, Ok(node(0, vec![atom(1), atom(0)], vec![])));
    assert_eq!(wffs.len(), 2);
    assert_eq!(wffs.get(&1), Some(&atom(0)));
    assert_eq!(wffs.get(&0), Some(&atom(1)));
}

#[test]
fn definition_counts_its_leaves() {
    let table = vec![rule(SyntaxType::Formula, "\u{1D44E} = \u{1D44F}")];
    let d = compile_definition("Eq".to_string(), parse_formula("\u{1D465} = \u{1D465}"), &table)
        .unwrap();
    assert_eq!(d.name, "Eq");
    assert_eq!(d.distinct_wff_count, 0);
    assert_eq!(d.distinct_object_count, 1);
    assert_eq!(d.definition, node(0, vec![], vec![Object::Atomic(0), Object::Atomic(0)]));
}

#[test]
fn substitution_instances() {
    let imp = |a, b| node(0, vec![a, b], vec![]);
    let schema_hyps = vec![atom(0), imp(atom(0), atom(1))];
    let schema_assertion = atom(1);
    let p = imp(atom(3), atom(3));
    let q = atom(7);
    let used = vec![p.clone(), imp(p.clone(), q.clone())];
    assert!(formula_is_substitution(&q, &used, &schema_hyps, &schema_assertion, 2, 0));
    assert!(!formula_is_substitution(&p, &used, &schema_hyps, &schema_assertion, 2, 0));
    assert!(!formula_is_substitution(&q, &used, &schema_hyps, &schema_assertion, 1, 0));
    let wrong = vec![p.clone(), imp(q.clone(), q.clone())];
    assert!(!formula_is_substitution(&q, &wrong, &schema_hyps, &schema_assertion, 2, 0));
    assert!(!formula_is_substitution(&q, &vec![p.clone()], &schema_hyps, &schema_assertion, 2, 0));
    assert!(formula_is_substitution(&q, &vec![], &vec![], &atom(0), 1, 0));
    assert!(!formula_is_substitution(&q, &vec![], &vec![], &imp(atom(0), atom(0)), 1, 0));
}

#[test]
fn failed_definition_leaves_the_library_as_it_was() {
    let mut lib = Library {
        syntaxes: Vec::new(),
        definitions: Vec::new(),
        axioms: Vec::new(),
        theorems: Vec::new(),
    };
    let mut index = NameIndex::new();
    let refused = add_syndef_to_lib(
        file("## Syntax Definition (formula) Neg\n# Syntax\n~\u{1D6FC}\n# Definition\n?\n"),
        &mut lib,
        &mut index,
    );
    assert_eq!(
        refused,
        Err(CompileError::UncompilableFormula(vec![PartiallyCompiled::NotCompiled(
            FormulaChar::Char('?')
        )]))
    );
    assert_eq!(lib.syntaxes.len(), 0);
    assert_eq!(lib.definitions.len(), 0);
    assert_eq!(index, NameIndex::new());
}

fn sources() -> Vec<(String, Result<String, String>)> {
    vec![
        (
            "/s/imp.txt".to_string(),
            Ok("## Syntax Definition (formula) Imp\n# Syntax\n( \u{1D6FC} > \u{1D6FD} )\n".to_string()),
        ),
        (
            "/a/mp.txt".to_string(),
            Ok("## Axiom MP\n# Hypotheses\n\u{1D6FC}\n( \u{1D6FC} > \u{1D6FD} )\n# Assertions\n\u{1D6FD}\n"
                .to_string()),
        ),
        (
            "/t/first.txt".to_string(),
            Ok("## Theorem First\n# Hypotheses\na: \u{1D6FC}\nb: ( \u{1D6FC} > \u{1D6FD} )\n# Assertions\n\u{1D6FD}\n# Proof\n1;;a;\u{1D6FC}\n2;;b;(\u{1D6FC}>\u{1D6FD})\n3;1,2;MP;\u{1D6FD}\n"
                .to_string()),
        ),
        ("/gone.txt".to_string(), Err("NotFound".to_string())),
        ("/bad.txt".to_string(), Ok("nothing".to_string())),
    ]
}

#[test]
fn directory_is_compiled_in_order() {
    let order = "# Syntax Definitions\n/s/imp.txt\n\n# Axioms\n/a/mp.txt\n# Theorems\n/t/first.txt\n";
    let lib = compile_directory(Some(order.to_string()), &sources()).unwrap();
    assert_eq!(lib.syntaxes.len(), 1);
    assert_eq!(lib.axioms.len(), 1);
    assert_eq!(lib.theorems.len(), 1);
    assert_eq!(lib.theorems[0].proof[2].theorem_ref, Reference::AxiomReference(0, 0));
}

#[test]
fn directory_errors() {
    assert_eq!(compile_directory(None, &sources()), Err(CompileError::OrderFileNotFound));
    assert_eq!(
        compile_directory(Some("# Axioms\n".to_string()), &sources()),
        Err(CompileError::InvalidOrderLine("# Axioms".to_string(), 1))
    );
    assert_eq!(
        compile_directory(
            Some("# Syntax Definitions\n# Axioms\n# Theorems\n# Theorems\n".to_string()),
            &sources()
        ),
        Err(CompileError::InvalidOrderLine("# Theorems".to_string(), 4))
    );
    assert_eq!(
        compile_directory(Some("# Syntax Definitions\n/gone.txt\n".to_string()), &sources()),
        Err(CompileError::IOError("NotFound".to_string(), "/gone.txt".to_string(), 2))
    );
    assert_eq!(
        compile_directory(Some("# Syntax Definitions\n\n/none.txt\n".to_string()), &sources()),
        Err(CompileError::IOError("".to_string(), "/none.txt".to_string(), 3))
    );
    assert_eq!(
        compile_directory(Some("/bad.txt\n".to_string()), &sources()),
        Err(CompileError::UnparsableFile("/bad.txt".to_string(), 1))
    );
    assert_eq!(
        compile_directory(Some("# Syntax Definitions\n/a/mp.txt\n".to_string()), &sources()),
        Err(CompileError::IncorrectFileType)
    );
    assert_eq!(
        compile_directory(Some("/s/imp.txt\n".to_string()), &sources()).map(|l| l.syntaxes.len()),
        Ok(0)
    );
}
