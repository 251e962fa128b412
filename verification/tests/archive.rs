use math_lib::compiling::types::{
    Axiom, Definition, Library, LogicStep, NameIndex, Object, Placeholder, Reference, Syntax,
    SyntaxType, Theorem, WellFormedFormula,
};
use math_lib::serializing::binary_conversion::{
    transpose_3vec, transpose_steps, vector_from_binary, vector_to_binary, vectors_from_binary,
    vectors_to_binary,
};
use math_lib::serializing::read_write::{read_file, write_lib};
use math_lib::serializing::rpn::{rpn_to_wff, wff_to_rpn, RpnBlock};
use math_lib::serializing::traits::{BinaryConvert, Vectorizable};

fn rule(kind: SyntaxType, formula: Vec<Placeholder>, wffs: usize, objects: usize) -> Syntax {
    Syntax { syntax_type: kind, formula, distinct_wff_count: wffs, distinct_object_count: objects }
}

fn table() -> Vec<Syntax> {
    vec![
        rule(
            SyntaxType::Formula,
            vec![
                Placeholder::WellFormedFormula(0),
                Placeholder::LiteralChar('>'),
                Placeholder::WellFormedFormula(1),
            ],
            2,
            0,
        ),
        rule(SyntaxType::Object, vec![Placeholder::LiteralChar('0')], 0, 0),
        rule(
            SyntaxType::Formula,
            vec![Placeholder::Object(0), Placeholder::LiteralChar('='), Placeholder::Object(1)],
            0,
            2,
        ),
    ]
}

fn zero() -> Object {
    Object::SyntaxComposite { syntax_ref: 1, wff_parameters: vec![], object_parameters: vec![] }
}

fn sample() -> WellFormedFormula {
    WellFormedFormula::SyntaxComposite {
        syntax_ref: 0,
        wff_parameters: vec![
            WellFormedFormula::Atomic(4),
            WellFormedFormula::SyntaxComposite {
                syntax_ref: 2,
                wff_parameters: vec![],
                object_parameters: vec![zero(), Object::Atomic(1)],
            },
        ],
        object_parameters: vec![],
    }
}

#[test]
fn formula_in_postfix_order() {
    assert_eq!(
        wff_to_rpn(sample()),
        vec![
            RpnBlock::WffAtomic(4),
            RpnBlock::ObjectComposite(1),
            RpnBlock::ObjectAtomic(1),
            RpnBlock::WffComposite(2),
            RpnBlock::WffComposite(0),
        ]
    );
    assert_eq!(rpn_to_wff(wff_to_rpn(sample()), &table()), Some(sample()));
}

#[test]
fn postfix_that_writes_no_formula() {
    let t = table();
    assert_eq!(rpn_to_wff(vec![], &t), None);
    assert_eq!(rpn_to_wff(vec![RpnBlock::ObjectAtomic(0)], &t), None);
    assert_eq!(rpn_to_wff(vec![RpnBlock::WffAtomic(0), RpnBlock::WffAtomic(1)], &t), None);
    assert_eq!(rpn_to_wff(vec![RpnBlock::WffAtomic(0), RpnBlock::ObjectAtomic(0)], &t), None);
    assert_eq!(rpn_to_wff(vec![RpnBlock::WffAtomic(0), RpnBlock::WffComposite(0)], &t), None);
    assert_eq!(rpn_to_wff(vec![RpnBlock::WffAtomic(0), RpnBlock::WffComposite(9)], &t), None);
    assert_eq!(
        rpn_to_wff(vec![RpnBlock::WffAtomic(0), RpnBlock::ObjectComposite(1)], &t),
        None
    );
    assert_eq!(rpn_to_wff(vec![RpnBlock::WffAtomic(3)], &t), Some(WellFormedFormula::Atomic(3)));
}

#[test]
fn frames_of_values() {
    assert_eq!(258usize.to_binary_in_vec(), vec![0, 2, 1, 0, 0]);
    assert_eq!(usize::from_binary_in_vec(&vec![9, 2, 1, 0, 0]), Some(258));
    assert_eq!(Placeholder::LiteralChar('A').to_binary_in_vec(), vec![0, 65, 0, 0, 0]);
    assert_eq!(Placeholder::WellFormedFormula(1).to_binary_in_vec(), vec![1, 1, 0, 0, 0]);
    assert_eq!(Placeholder::Object(256).to_binary_in_vec(), vec![2, 0, 1, 0, 0]);
    assert_eq!(Placeholder::Repetition.to_binary_in_vec(), vec![3, 0, 0, 0, 0]);
    assert_eq!(
        Placeholder::from_binary_in_vec(&vec![0, 0xfc, 0xd6, 1, 0]),
        Some(Placeholder::LiteralChar('\u{1D6FC}'))
    );
    assert_eq!(Placeholder::from_binary_in_vec(&vec![0, 0, 0xd8, 0, 0]), None);
    assert_eq!(Placeholder::from_binary_in_vec(&vec![0, 0, 0, 0x11, 0]), None);
    assert_eq!(Placeholder::from_binary_in_vec(&vec![3, 7, 7, 7, 7]), Some(Placeholder::Repetition));
    assert_eq!(Placeholder::from_binary_in_vec(&vec![4, 0, 0, 0, 0]), None);
    assert_eq!(RpnBlock::WffAtomic(1).to_binary_in_vec(), vec![0, 1, 0, 0, 0]);
    assert_eq!(RpnBlock::WffComposite(2).to_binary_in_vec(), vec![1, 2, 0, 0, 0]);
    assert_eq!(RpnBlock::ObjectAtomic(3).to_binary_in_vec(), vec![2, 3, 0, 0, 0]);
    assert_eq!(RpnBlock::ObjectComposite(0x01020304).to_binary_in_vec(), vec![3, 4, 3, 2, 1]);
    assert_eq!(
        RpnBlock::from_binary_in_vec(&vec![3, 4, 3, 2, 1]),
        Some(RpnBlock::ObjectComposite(0x01020304))
    );
    assert_eq!(RpnBlock::from_binary_in_vec(&vec![0xfe, 0, 0, 0, 0]), None);
    assert_eq!(
        Reference::AxiomReference(1, 2).to_binary_in_vec(),
        vec![2, 1, 0, 0, 0, 2, 0, 0, 0]
    );
    assert_eq!(
        Reference::HypothesisReference(7).to_binary_in_vec(),
        vec![0, 7, 0, 0, 0, 0, 0, 0, 0]
    );
    assert_eq!(
        Reference::from_binary_in_vec(&vec![3, 1, 0, 0, 0, 0, 1, 0, 0]),
        Some(Reference::TheoremReference(1, 256))
    );
    assert_eq!(
        Reference::from_binary_in_vec(&vec![1, 5, 0, 0, 0, 9, 9, 9, 9]),
        Some(Reference::DefinitionReference(5))
    );
    assert_eq!(Reference::from_binary_in_vec(&vec![4, 0, 0, 0, 0, 0, 0, 0, 0]), None);
}

#[test]
fn runs_of_values() {
    let v: Vec<usize> = vec![1, 2];
    let written = vector_to_binary(&v);
    assert_eq!(written, vec![0, 1, 0, 0, 0, 0, 2, 0, 0, 0, 0xfe, 0xfe, 0xfe, 0xfe, 0xfe]);
    assert_eq!(vector_from_binary::<usize>(&written, 0), Some((v, 15)));
    assert_eq!(vector_from_binary::<usize>(&written, 5), Some((vec![2], 15)));
    assert_eq!(vector_from_binary::<usize>(&written[..14].to_vec(), 0), None);
    assert_eq!(vector_from_binary::<usize>(&written, 16), None);
    let vv: Vec<Vec<usize>> = vec![vec![1], vec![], vec![2, 3]];
    let written = vectors_to_binary(&vv);
    assert_eq!(written.len(), 5 * (3 + 3 + 1));
    assert_eq!(written[written.len() - 5..], [0xff; 5]);
    assert_eq!(vectors_from_binary::<usize>(&written, 0), Some((vv, 35)));
    let mut dangling = vec![0, 1, 0, 0, 0];
    dangling.extend([0xff; 5]);
    assert_eq!(vectors_from_binary::<usize>(&dangling, 0), Some((vec![], 10)));
    assert_eq!(vectors_from_binary::<RpnBlock>(&vec![7, 0, 0, 0, 0], 0), None);
}

#[test]
fn entries_are_written_and_read_back() {
    assert_eq!(7u8.to_binary(), vec![7]);
    assert_eq!(u8::from_binary(&vec![1, 2], 1), Some((2, 2)));
    assert_eq!(u8::from_binary(&vec![1, 2], 2), None);
    assert_eq!(0x01020304usize.to_binary(), vec![4, 3, 2, 1]);
    assert_eq!(usize::from_binary(&vec![9, 4, 3, 2, 1], 1), Some((0x01020304, 5)));
    assert_eq!(usize::from_binary(&vec![9, 4, 3, 2, 1], 2), None);
    assert_eq!("a\u{e9}".to_string().to_binary(), vec![0x61, 0xc3, 0xa9, 0]);
    assert_eq!(String::from_binary(&vec![0x61, 0xc3, 0xa9, 0, 5], 0), Some(("a\u{e9}".to_string(), 4)));
    assert_eq!(String::from_binary(&vec![0x61, 0x62], 1), Some(("b".to_string(), 2)));
    assert_eq!(String::from_binary(&vec![0x61, 0xc3, 0], 0), None);
    let t = table();
    let written = rule(
        SyntaxType::Object,
        vec![Placeholder::LiteralChar('0')],
        0,
        0,
    )
    .to_binary();
    assert_eq!(
        written,
        vec![1, 0, 0, 0, 0, 0, 0, 0, 0, 0, 0x30, 0, 0, 0, 0xfe, 0xfe, 0xfe, 0xfe, 0xfe]
    );
    assert_eq!(
        Syntax::from_binary(&written, 0),
        Some((rule(SyntaxType::Object, vec![Placeholder::LiteralChar('0')], 0, 0), 19))
    );
    assert_eq!(Syntax::from_binary(&vec![2, 0, 0, 0, 0, 0, 0, 0, 0, 0xfe, 0xfe, 0xfe, 0xfe, 0xfe], 0), None);
    let d = Definition {
        name: "D".to_string(),
        definition: sample(),
        distinct_wff_count: 5,
        distinct_object_count: 2,
    };
    let written = Definition {
        name: "D".to_string(),
        definition: sample(),
        distinct_wff_count: 5,
        distinct_object_count: 2,
    }
    .to_binary();
    assert_eq!(written[..10], [0x44, 0, 5, 0, 0, 0, 2, 0, 0, 0]);
    let end = written.len();
    assert_eq!(Definition::from_binary_syntaxes(&written, 0, &t), Some((d, end)));
    assert_eq!(Definition::from_binary(&written, 0), None);
    assert_eq!(Definition::from_binary_syntaxes(&written, 0, &vec![]), None);
    let a = || Axiom {
        name: "A".to_string(),
        hypotheses: vec![sample(), WellFormedFormula::Atomic(0)],
        assertions: vec![WellFormedFormula::Atomic(1)],
        distinct_wff_count: 5,
        distinct_object_count: 2,
    };
    let written = a().to_binary();
    let end = written.len();
    assert_eq!(Axiom::from_binary_syntaxes(&written, 0, &t), Some((a(), end)));
    assert_eq!(Axiom::from_binary(&written, 0), None);
}

fn steps() -> Vec<LogicStep> {
    vec![
        LogicStep {
            used_hypotheses: vec![],
            theorem_ref: Reference::HypothesisReference(0),
            resulting_formula: WellFormedFormula::Atomic(0),
        },
        LogicStep {
            used_hypotheses: vec![0, 0],
            theorem_ref: Reference::AxiomReference(3, 1),
            resulting_formula: sample(),
        },
    ]
}

#[test]
fn proofs_are_written_as_three_rows() {
    let (used, cited, formulas) = transpose_steps(&steps());
    assert_eq!(used, vec![vec![], vec![0, 0]]);
    assert_eq!(cited, vec![Reference::HypothesisReference(0), Reference::AxiomReference(3, 1)]);
    assert_eq!(formulas, vec![vec![RpnBlock::WffAtomic(0)], wff_to_rpn(sample())]);
    assert_eq!(transpose_3vec(&used, &cited, &formulas, &table()), Some(steps()));
    assert_eq!(transpose_3vec(&used, &cited, &formulas, &vec![]), None);
    assert_eq!(transpose_3vec(&vec![vec![]], &cited, &formulas, &table()), None);
    assert_eq!(transpose_3vec(&used, &cited, &vec![vec![RpnBlock::WffAtomic(0)]], &table()), None);
}

fn library() -> Library {
    Library {
        syntaxes: table(),
        definitions: vec![Definition {
            name: "D".to_string(),
            definition: sample(),
            distinct_wff_count: 5,
            distinct_object_count: 2,
        }],
        axioms: vec![Axiom {
            name: "A".to_string(),
            hypotheses: vec![WellFormedFormula::Atomic(0)],
            assertions: vec![WellFormedFormula::Atomic(0), sample()],
            distinct_wff_count: 5,
            distinct_object_count: 2,
        }],
        theorems: vec![Theorem {
            name: "T".to_string(),
            hypotheses: vec![WellFormedFormula::Atomic(0)],
            assertions: vec![sample()],
            proof: steps(),
            distinct_wff_count: 5,
            distinct_object_count: 2,
        }],
    }
}

#[test]
fn library_is_written_and_read_back() {
    let data = write_lib(library());
    let (lib, index) = read_file(&data);
    assert_eq!(lib, library());
    assert_eq!(index.get("D"), Some(Reference::DefinitionReference(0)));
    assert_eq!(index.get("A"), Some(Reference::AxiomReference(0, 0)));
    assert_eq!(index.get("T"), Some(Reference::TheoremReference(0, 0)));
    assert_eq!(index.get("X"), None);
    assert_eq!(index.entries.len(), 3);
}

#[test]
fn empty_library_is_one_byte() {
    let empty = || Library { syntaxes: vec![], definitions: vec![], axioms: vec![], theorems: vec![] };
    assert_eq!(write_lib(empty()), vec![0xf4]);
    assert_eq!(read_file(&vec![0xf4]), (empty(), NameIndex::new()));
    assert_eq!(read_file(&vec![]), (empty(), NameIndex::new()));
}

#[test]
fn records_that_cannot_be_read_are_passed_over() {
    let mut data = vec![0xf1, 0x44, 0];
    data.extend(write_lib(library()));
    let (lib, _) = read_file(&data);
    assert_eq!(lib, library());
    let whole = write_lib(library());
    let (cut, _) = read_file(&whole[..whole.len() - 3].to_vec());
    assert_eq!(cut.syntaxes.len(), 3);
    assert_eq!(cut.definitions.len(), 1);
    assert_eq!(cut.axioms.len(), 1);
    assert_eq!(cut.theorems.len(), 0);
    let mut after_end = write_lib(library());
    after_end.extend(write_lib(library()));
    let (lib, _) = read_file(&after_end);
    assert_eq!(lib, library());
}

#[test]
fn a_name_is_entered_once() {
    let mut index = NameIndex::new();
    assert!(index.insert("A".to_string(), Reference::AxiomReference(0, 0)));
    assert!(index.insert("B".to_string(), Reference::AxiomReference(1, 0)));
    assert!(!index.insert("A".to_string(), Reference::TheoremReference(0, 0)));
    assert_eq!(index.entries.len(), 2);
    assert_eq!(index.get("A"), Some(Reference::AxiomReference(0, 0)));
    assert_eq!(index.get("B"), Some(Reference::AxiomReference(1, 0)));
    assert_eq!(index.get(""), None);
}

#[test]
fn a_name_is_read_once() {
    let once = write_lib(library());
    let mut twice = once[..once.len() - 1].to_vec();
    twice.extend(write_lib(library()));
    let (lib, index) = read_file(&twice);
    let (expected, expected_index) = read_file(&once);
    assert_eq!(lib.definitions, expected.definitions);
    assert_eq!(lib.axioms, expected.axioms);
    assert_eq!(lib.theorems, expected.theorems);
    assert_eq!(lib.syntaxes.len(), 2 * expected.syntaxes.len());
    assert_eq!(index, expected_index);
}
