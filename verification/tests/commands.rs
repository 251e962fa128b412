use math_lib::commands::{
    add_axiom, add_syndef, add_theo, compile, order_paths, verify, CommandError,
};
use math_lib::compiling::compiler::compile_directory;
use math_lib::compiling::error::CompileError;
use math_lib::compiling::types::{Library, Reference, WellFormedFormula};
use math_lib::compiling::verification::{find_all_wff_substitutions, find_wff_substitutions};
use math_lib::parsing::read_file::ParseError;
use math_lib::serializing::read_write::{read_file, write_lib};

const IMP: &str = "## Syntax Definition (formula) Imp\n# Syntax\n( 𝛼 → 𝛽 )\n";
const MP: &str = "## Axiom MP\n# Hypotheses\n𝛼\n( 𝛼 → 𝛽 )\n# Assertions\n𝛽\n";
const FIRST: &str = "## Theorem First\n# Hypotheses\na: 𝛼\nb: ( 𝛼 → 𝛽 )\n# Assertions\n𝛽\n# Proof\n1; ; a ; 𝛼\n2; ; b ; ( 𝛼 → 𝛽 )\n3; 1,2 ; MP ; 𝛽\n";
const WRONG: &str = "## Theorem Wrong\n# Hypotheses\na: 𝛼\n# Assertions\n𝛽\n# Proof\n1; ; a ; 𝛼\n";

fn empty_archive() -> Vec<u8> {
    write_lib(Library {
        syntaxes: Vec::new(),
        definitions: Vec::new(),
        axioms: Vec::new(),
        theorems: Vec::new(),
    })
}

fn logic_archive() -> Vec<u8> {
    let with_rule = add_syndef(IMP.to_string(), &empty_archive()).unwrap();
    add_axiom(MP.to_string(), &with_rule).unwrap()
}

#[test]
fn order_paths_are_the_lines_that_name_files() {
    assert_eq!(
        order_paths("# Syntax Definitions\n/s/imp.txt\n\n# Axioms\n/a/mp.txt\r\n#x\n x"),
        vec!["/s/imp.txt".to_string(), "/a/mp.txt".to_string(), " x".to_string()]
    );
    assert_eq!(order_paths(""), Vec::<String>::new());
    assert_eq!(order_paths("# Theorems\n\n"), Vec::<String>::new());
}

#[test]
fn compile_gives_the_archive_of_the_directory() {
    let files = vec![
        ("/s/imp.txt".to_string(), Ok(IMP.to_string())),
        ("/a/mp.txt".to_string(), Ok(MP.to_string())),
        ("/t/first.txt".to_string(), Ok(FIRST.to_string())),
    ];
    let order = "# Syntax Definitions\n/s/imp.txt\n# Axioms\n/a/mp.txt\n# Theorems\n/t/first.txt\n";
    let data = compile(Some(order.to_string()), &files).unwrap();
    let lib = compile_directory(Some(order.to_string()), &files).unwrap();
    assert_eq!(data, write_lib(lib));
    let (read, index) = read_file(&data);
    assert_eq!(read.syntaxes.len(), 1);
    assert_eq!(read.axioms.len(), 1);
    assert_eq!(read.theorems.len(), 1);
    assert_eq!(index.get("First"), Some(Reference::TheoremReference(0, 0)));
    assert_eq!(compile(None, &files), Err(CompileError::OrderFileNotFound));
    assert_eq!(
        compile(Some("# Syntax Definitions\n/none.txt\n".to_string()), &files),
        Err(CompileError::IOError("".to_string(), "/none.txt".to_string(), 2))
    );
}

#[test]
fn files_join_the_archive_one_by_one() {
    let with_rule = add_syndef(IMP.to_string(), &empty_archive()).unwrap();
    assert_eq!(read_file(&with_rule).0.syntaxes.len(), 1);
    let with_axiom = add_axiom(MP.to_string(), &with_rule).unwrap();
    let (lib, index) = read_file(&with_axiom);
    assert_eq!(lib.syntaxes.len(), 1);
    assert_eq!(lib.axioms.len(), 1);
    assert_eq!(index.get("MP"), Some(Reference::AxiomReference(0, 0)));
    let with_theorem = add_theo(FIRST.to_string(), &with_axiom).unwrap();
    let (grown, index) = read_file(&with_theorem);
    assert_eq!(grown.syntaxes, lib.syntaxes);
    assert_eq!(grown.axioms, lib.axioms);
    assert_eq!(grown.theorems.len(), 1);
    assert_eq!(grown.theorems[0].name, "First");
    assert_eq!(index.get("First"), Some(Reference::TheoremReference(0, 0)));
    assert_eq!(index.get("MP"), Some(Reference::AxiomReference(0, 0)));
}

#[test]
fn commands_say_why_a_file_is_refused() {
    let archive = logic_archive();
    assert_eq!(
        add_syndef("".to_string(), &archive),
        Err(CommandError::Parse(ParseError::EmptyFile))
    );
    assert_eq!(
        add_axiom("## Axiom\n".to_string(), &archive),
        Err(CommandError::Parse(ParseError::InvalidHeader("## Axiom".to_string())))
    );
    assert_eq!(
        add_syndef(IMP.to_string(), &archive),
        Err(CommandError::Compile(CompileError::AmbiguousSyntax("Imp".to_string())))
    );
    assert_eq!(
        add_axiom(IMP.to_string(), &archive),
        Err(CommandError::Compile(CompileError::IncorrectFileType))
    );
    assert_eq!(
        add_theo(MP.to_string(), &archive),
        Err(CommandError::Compile(CompileError::IncorrectFileType))
    );
    assert_eq!(
        add_theo(WRONG.to_string(), &archive),
        Err(CommandError::Compile(CompileError::AssertionNotProven(0)))
    );
}

#[test]
fn verify_gives_a_verdict_and_admits_nothing() {
    let archive = logic_archive();
    assert_eq!(verify(FIRST.to_string(), &archive), Ok("Theorem is valid".to_string()));
    assert_eq!(
        verify(WRONG.to_string(), &archive),
        Err(CommandError::Compile(CompileError::AssertionNotProven(0)))
    );
    assert_eq!(
        verify("## Theorem".to_string(), &archive),
        Err(CommandError::Parse(ParseError::InvalidHeader("## Theorem".to_string())))
    );
    assert!(matches!(
        verify(FIRST.to_string(), &empty_archive()),
        Err(CommandError::Compile(CompileError::UncompilableFormula(_)))
    ));
}

#[test]
fn admitting_a_file_keeps_what_the_library_held() {
    let before = read_file(&logic_archive()).0;
    let after = read_file(&add_theo(FIRST.to_string(), &logic_archive()).unwrap()).0;
    assert_eq!(after.syntaxes, before.syntaxes);
    assert_eq!(after.definitions, before.definitions);
    assert_eq!(after.axioms, before.axioms);
    assert_eq!(&after.theorems[..before.theorems.len()], &before.theorems[..]);
    assert_eq!(after.theorems.len(), before.theorems.len() + 1);
    let again = read_file(&add_theo(
        FIRST.replace("First", "Second"),
        &add_theo(FIRST.to_string(), &logic_archive()).unwrap(),
    ).unwrap()).0;
    assert_eq!(again.theorems[0], after.theorems[0]);
    assert_eq!(again.theorems.len(), 2);
}

#[test]
fn matching_again_changes_no_binding() {
    let imp = |a, b| WellFormedFormula::SyntaxComposite {
        syntax_ref: 0,
        wff_parameters: vec![a, b],
        object_parameters: vec![],
    };
    let pattern = imp(WellFormedFormula::Atomic(0), imp(WellFormedFormula::Atomic(1), WellFormedFormula::Atomic(0)));
    let p = imp(WellFormedFormula::Atomic(4), WellFormedFormula::Atomic(5));
    let q = WellFormedFormula::Atomic(9);
    let instance = imp(p.clone(), imp(q.clone(), p.clone()));
    let mut formulas = vec![None, None];
    let mut objects = vec![];
    assert_eq!(find_wff_substitutions(&pattern, &instance, &mut formulas, &mut objects), Ok(()));
    assert_eq!(formulas, vec![Some(&p), Some(&q)]);
    let found = formulas.clone();
    assert_eq!(find_wff_substitutions(&pattern, &instance, &mut formulas, &mut objects), Ok(()));
    assert_eq!(formulas, found);
    let patterns = vec![pattern.clone(), WellFormedFormula::Atomic(1)];
    let instances = vec![instance.clone(), q.clone()];
    assert_eq!(find_all_wff_substitutions(&patterns, &instances, &mut formulas, &mut objects), Ok(()));
    assert_eq!(formulas, found);
    let other = vec![instance.clone(), p.clone()];
    assert_eq!(find_all_wff_substitutions(&patterns, &other, &mut formulas, &mut objects), Err(()));
}
