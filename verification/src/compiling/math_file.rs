//! Compiling source files: syntax rules, definitions and axioms.

use std::collections::HashMap;
use vstd::prelude::*;
use crate::compiling::error::{CompileError, CompileErrorModel};
use crate::compiling::formula::{compile_atoms, compiled, leaves_fit, lift, lemma_compiled_fits_table};
use crate::compiling::types::{
    formula_terms, rules, Axiom, Definition, Object, Placeholder, Syntax, SyntaxModel,
    SyntaxType, Term, WellFormedFormula,
};
use crate::compiling::verification::{contained, formula_is_contained};
use crate::parsing::types::{views, DefinitionType, Formula, FormulaChar, MathFile, MathFileModel};

verus! {

/// The placeholder id of an atom, if it is a placeholder of the given kind.
pub open spec fn hole_of(a: FormulaChar, kind: SyntaxType) -> Option<usize> {
    match (a, kind) {
        (FormulaChar::Wff(h), SyntaxType::Formula) => Some(h),
        (FormulaChar::Object(h), SyntaxType::Object) => Some(h),
        _ => None,
    }
}

/// The distinct placeholders of one kind among the atoms, in the order in
/// which they first occur.
pub open spec fn seen_holes(atoms: Seq<FormulaChar>, kind: SyntaxType) -> Seq<usize>
    decreases atoms.len(),
{
    if atoms.len() == 0 {
        Seq::empty()
    } else {
        let before = seen_holes(atoms.drop_last(), kind);
        match hole_of(atoms.last(), kind) {
            Some(h) => if before.contains(h) {
                before
            } else {
                before.push(h)
            },
            None => before,
        }
    }
}

/// The pattern that a syntax line declares: each character and the
/// repetition marker as they are, and each placeholder as the slot whose id
/// is its rank among the distinct placeholders of its kind, in the order in
/// which they first occur.
pub open spec fn renamed(atoms: Seq<FormulaChar>) -> Seq<Placeholder> {
    Seq::new(
        atoms.len(),
        |i: int|
            match atoms[i] {
                FormulaChar::Char(c) => Placeholder::LiteralChar(c),
                FormulaChar::RepetitionChar => Placeholder::Repetition,
                FormulaChar::Wff(h) => Placeholder::WellFormedFormula(
                    seen_holes(atoms, SyntaxType::Formula).index_of(h) as usize,
                ),
                FormulaChar::Object(h) => Placeholder::Object(
                    seen_holes(atoms, SyntaxType::Object).index_of(h) as usize,
                ),
            },
    )
}

/// The pattern and a rule of the table hold one another: one of them is a
/// run of consecutive elements of the other, up to likeness.
pub open spec fn ambiguous_with(pattern: Seq<Placeholder>, table: Seq<SyntaxModel>) -> bool {
    exists|k: int|
        0 <= k < table.len() && (contained(pattern, (#[trigger] table[k]).formula) || contained(
            table[k].formula,
            pattern,
        ))
}

/// No rule of the table holds another.
pub open spec fn unambiguous(table: Seq<SyntaxModel>) -> bool {
    forall|i: int, j: int|
        0 <= i < table.len() && 0 <= j < table.len() && i != j ==> !contained(
            (#[trigger] table[i]).formula,
            (#[trigger] table[j]).formula,
        )
}

/// Ambiguity symmetry. Two rules that are admitted together are apart: when
/// a rule is not ambiguous with a table in which no rule holds another, then
/// in the table with the new rule no rule holds another either, whichever of
/// the two is the new one.
pub proof fn lemma_admitted_rules_are_apart(table: Seq<SyntaxModel>, rule: SyntaxModel)
    requires
        unambiguous(table),
        !ambiguous_with(rule.formula, table),
    ensures
        unambiguous(table.push(rule)),
        forall|k: int|
            0 <= k < table.len() ==> !contained(rule.formula, (#[trigger] table[k]).formula)
                && !contained(table[k].formula, rule.formula),
{
    let after = table.push(rule);
    assert forall|k: int| 0 <= k < table.len() implies !contained(
        rule.formula,
        (#[trigger] table[k]).formula,
    ) && !contained(table[k].formula, rule.formula) by {}
    assert forall|i: int, j: int| 0 <= i < after.len() && 0 <= j < after.len() && i != j implies !contained(
        (#[trigger] after[i]).formula,
        (#[trigger] after[j]).formula,
    ) by {
        if i < table.len() && j < table.len() {
            assert(after[i] == table[i] && after[j] == table[j]);
        } else if i < table.len() {
            assert(after[i] == table[i]);
        } else {
            assert(after[j] == table[j]);
        }
    }
}

/// Whether `p` is what the atom becomes when the placeholders seen so far
/// are those given.
pub open spec fn renames(a: FormulaChar, p: Placeholder, wffs: Seq<usize>, objects: Seq<usize>) -> bool {
    match a {
        FormulaChar::Char(c) => p == Placeholder::LiteralChar(c),
        FormulaChar::RepetitionChar => p == Placeholder::Repetition,
        FormulaChar::Wff(h) => p matches Placeholder::WellFormedFormula(k) && k < wffs.len()
            && wffs[k as int] == h,
        FormulaChar::Object(h) => p matches Placeholder::Object(k) && k < objects.len()
            && objects[k as int] == h,
    }
}

/// The rank of a placeholder among those seen; a new one joins them.
pub fn rank_of(seen: &mut Vec<usize>, h: usize) -> (k: usize)
    requires
        old(seen)@.no_duplicates(),
    ensures
        final(seen)@ == if old(seen)@.contains(h) {
            old(seen)@
        } else {
            old(seen)@.push(h)
        },
        final(seen)@.no_duplicates(),
        k < final(seen)@.len(),
        final(seen)@[k as int] == h,
{
    let mut k: usize = 0;
    while k < seen.len()
        invariant
            k <= seen.len(),
            seen@ == old(seen)@,
            seen@.no_duplicates(),
            forall|j: int| 0 <= j < k ==> seen@[j] != h,
        decreases seen.len() - k,
    {
        if seen[k] == h {
            assert(seen@.contains(h));
            return k;
        }
        k += 1;
    }
    assert(!seen@.contains(h));
    seen.push(h);
    assert(seen@.no_duplicates()) by {
        assert forall|a: int, b: int| 0 <= a < seen@.len() && 0 <= b < seen@.len() && a != b implies seen@[a]
            != seen@[b] by {
            if a < k && b < k {
                assert(old(seen)@[a] != old(seen)@[b]);
            }
        }
    }
    k
}

/// The rule that a syntax line declares for the given kind of tree: the
/// pattern is the line with its placeholders renamed to slots, and the
/// arities are the numbers of distinct placeholders of each kind.
pub open spec fn declared_rule(kind: SyntaxType, atoms: Seq<FormulaChar>) -> SyntaxModel {
    SyntaxModel {
        syntax_type: kind,
        formula: renamed(atoms),
        distinct_wff_count: seen_holes(atoms, SyntaxType::Formula).len() as usize,
        distinct_object_count: seen_holes(atoms, SyntaxType::Object).len() as usize,
    }
}

/// Builds the rule that a syntax line declares. The rule has a slot id for
/// each distinct placeholder, and every slot id below its arities occurs in
/// its pattern.
pub fn rule_of_line(syntax_type: SyntaxType, syntax: &Vec<FormulaChar>) -> (rule: Syntax)
    ensures
        rule@ == declared_rule(syntax_type, syntax@),
        rule.distinct_wff_count == seen_holes(syntax@, SyntaxType::Formula).len(),
        rule.distinct_object_count == seen_holes(syntax@, SyntaxType::Object).len(),
        rule.well_formed(),
{
    let ghost atoms = syntax@;
    let mut wffs: Vec<usize> = Vec::new();
    let mut objects: Vec<usize> = Vec::new();
    let mut formula: Vec<Placeholder> = Vec::new();
    let mut i: usize = 0;
    assert(seen_holes(atoms.take(0), SyntaxType::Formula) == Seq::<usize>::empty());
    assert(seen_holes(atoms.take(0), SyntaxType::Object) == Seq::<usize>::empty());
    while i < syntax.len()
        invariant
            i <= syntax.len(),
            atoms == syntax@,
            formula@.len() == i,
            wffs@ == seen_holes(atoms.take(i as int), SyntaxType::Formula),
            objects@ == seen_holes(atoms.take(i as int), SyntaxType::Object),
            wffs@.no_duplicates(),
            objects@.no_duplicates(),
            forall|j: int| 0 <= j < i ==> renames(atoms[j], #[trigger] formula@[j], wffs@, objects@),
            forall|n: usize|
                n < wffs@.len() ==> #[trigger] formula@.contains(Placeholder::WellFormedFormula(n)),
            forall|n: usize| n < objects@.len() ==> #[trigger] formula@.contains(Placeholder::Object(n)),
        decreases syntax.len() - i,
    {
        let ghost next = atoms.take(i + 1);
        let ghost old_formula = formula@;
        let ghost old_wffs = wffs@;
        let ghost old_objects = objects@;
        proof {
            assert(next.drop_last() == atoms.take(i as int));
            assert(next.last() == atoms[i as int]);
            assert(seen_holes(next, SyntaxType::Formula) == match hole_of(
                next.last(),
                SyntaxType::Formula,
            ) {
                Some(h) => if old_wffs.contains(h) {
                    old_wffs
                } else {
                    old_wffs.push(h)
                },
                None => old_wffs,
            });
            assert(seen_holes(next, SyntaxType::Object) == match hole_of(
                next.last(),
                SyntaxType::Object,
            ) {
                Some(h) => if old_objects.contains(h) {
                    old_objects
                } else {
                    old_objects.push(h)
                },
                None => old_objects,
            });
        }
        let p = match syntax[i] {
            FormulaChar::Char(c) => Placeholder::LiteralChar(c),
            FormulaChar::RepetitionChar => Placeholder::Repetition,
            FormulaChar::Wff(h) => Placeholder::WellFormedFormula(rank_of(&mut wffs, h)),
            FormulaChar::Object(h) => Placeholder::Object(rank_of(&mut objects, h)),
        };
        formula.push(p);
        proof {
            assert forall|j: int| 0 <= j < i + 1 implies renames(
                atoms[j],
                #[trigger] formula@[j],
                wffs@,
                objects@,
            ) by {
                if j < i {
                    assert(formula@[j] == old_formula[j]);
                    assert(renames(atoms[j], old_formula[j], old_wffs, old_objects));
                }
            }
            assert forall|n: usize| n < wffs@.len() implies #[trigger] formula@.contains(
                Placeholder::WellFormedFormula(n),
            ) by {
                if n < old_wffs.len() {
                    assert(old_formula.contains(Placeholder::WellFormedFormula(n)));
                    let j = choose|j: int|
                        0 <= j < old_formula.len() && old_formula[j] == Placeholder::WellFormedFormula(
                            n,
                        );
                    assert(formula@[j] == Placeholder::WellFormedFormula(n));
                } else {
                    assert(formula@[i as int] == Placeholder::WellFormedFormula(n));
                }
            }
            assert forall|n: usize| n < objects@.len() implies #[trigger] formula@.contains(
                Placeholder::Object(n),
            ) by {
                if n < old_objects.len() {
                    assert(old_formula.contains(Placeholder::Object(n)));
                    let j = choose|j: int|
                        0 <= j < old_formula.len() && old_formula[j] == Placeholder::Object(n);
                    assert(formula@[j] == Placeholder::Object(n));
                } else {
                    assert(formula@[i as int] == Placeholder::Object(n));
                }
            }
        }
        i += 1;
    }
    proof {
        assert(atoms.take(i as int) == atoms);
        assert forall|j: int| 0 <= j < atoms.len() implies formula@[j] == renamed(atoms)[j] by {
            assert(renames(atoms[j], formula@[j], wffs@, objects@));
            match atoms[j] {
                FormulaChar::Wff(h) => {
                    let k = formula@[j]->WellFormedFormula_0;
                    assert(wffs@[k as int] == h);
                    let c = wffs@.index_of(h);
                    assert(0 <= c < wffs@.len() && wffs@[c] == h);
                },
                FormulaChar::Object(h) => {
                    let k = formula@[j]->Object_0;
                    assert(objects@[k as int] == h);
                    let c = objects@.index_of(h);
                    assert(0 <= c < objects@.len() && objects@[c] == h);
                },
                _ => {},
            }
        }
        assert(formula@ =~= renamed(atoms));
    }
    let rule = Syntax {
        syntax_type,
        formula,
        distinct_wff_count: wffs.len(),
        distinct_object_count: objects.len(),
    };
    assert(rule.slots_in_range()) by {
        assert forall|j: int| 0 <= j < rule.formula@.len() implies match #[trigger] rule.formula@[j] {
            Placeholder::WellFormedFormula(n) => n < rule.distinct_wff_count,
            Placeholder::Object(n) => n < rule.distinct_object_count,
            _ => true,
        } by {
            assert(renames(atoms[j], rule.formula@[j], wffs@, objects@));
        }
    }
    assert(rule@.formula =~= renamed(atoms));
    rule
}

/// Compiles the syntax line of a syntax definition into a rule, and checks
/// the rule against the rules of the table. The rule is admitted unless it
/// holds a rule of the table or is held by one. Its pattern is the line with
/// the placeholders renamed to slots, and its arities are the numbers of
/// distinct placeholders of each kind. With the rule comes the definition
/// line, if the file has one, under the file's name. A file of another kind
/// is refused.
#[verifier::loop_isolation(false)]
pub fn compile_syntax(file: MathFile, syntaxes: &Vec<Syntax>) -> (r: Result<
    (Syntax, Option<(String, Vec<FormulaChar>)>),
    CompileError,
>)
    ensures
        match file@ {
            MathFileModel::SyntaxDefinition { name, definition_type, syntax, definition } => {
                if ambiguous_with(renamed(syntax), rules(syntaxes@)) {
                    r matches Err(e) && e@ == CompileErrorModel::AmbiguousSyntax(name)
                } else {
                    &&& r matches Ok((rule, named))
                    &&& rule.syntax_type == match definition_type {
                        DefinitionType::Formula => SyntaxType::Formula,
                        DefinitionType::Object => SyntaxType::Object,
                    }
                    &&& rule.formula@ == renamed(syntax)
                    &&& rule.distinct_wff_count == seen_holes(syntax, SyntaxType::Formula).len()
                    &&& rule.distinct_object_count == seen_holes(syntax, SyntaxType::Object).len()
                    &&& rule.well_formed()
                    &&& match definition {
                        None => named is None,
                        Some(d) => named matches Some((n, atoms)) && n@ == name && atoms@ == d,
                    }
                }
            },
            _ => r matches Err(e) && e@ == CompileErrorModel::IncorrectFileType,
        },
{
    let (name, definition_type, syntax, definition) = match file {
        MathFile::SyntaxDefinition { name, definition_type, syntax, definition } => (
            name,
            definition_type,
            syntax,
            definition,
        ),
        _ => {
            return Err(CompileError::IncorrectFileType);
        },
    };
    let syntax_type = match definition_type {
        DefinitionType::Formula => SyntaxType::Formula,
        DefinitionType::Object => SyntaxType::Object,
    };
    let rule = rule_of_line(syntax_type, &syntax);
    let ghost atoms = syntax@;
    let mut k: usize = 0;
    while k < syntaxes.len()
        invariant
            k <= syntaxes.len(),
            forall|q: int|
                0 <= q < k ==> !contained(rule.formula@, (#[trigger] rules(syntaxes@)[q]).formula) && !contained(
                    rules(syntaxes@)[q].formula,
                    rule.formula@,
                ),
        decreases syntaxes.len() - k,
    {
        assert(rules(syntaxes@)[k as int].formula == syntaxes@[k as int].formula@);
        if formula_is_contained(&rule.formula, &syntaxes[k].formula) {
            return Err(CompileError::AmbiguousSyntax(name));
        }
        if formula_is_contained(&syntaxes[k].formula, &rule.formula) {
            return Err(CompileError::AmbiguousSyntax(name));
        }
        k += 1;
    }
    let named = match definition {
        Some(d) => Some((name, d)),
        None => None,
    };
    Ok((rule, named))
}

/// Compiles the definition line of a syntax definition. The leaves of the
/// formula are numbered from 0 in the order in which its placeholders first
/// occur, and the definition records how many there are of each kind.
pub fn compile_definition(name: String, def: Vec<FormulaChar>, syntaxes: &Vec<Syntax>) -> (r: Result<
    Definition,
    CompileError,
>)
    ensures
        match compiled(lift(def@, Map::empty(), Map::empty()), rules(syntaxes@)) {
            Ok(t) => {
                &&& r matches Ok(d)
                &&& d.name@ == name@
                &&& d.definition@ == t
                &&& d.distinct_wff_count == lift(def@, Map::empty(), Map::empty()).formulas.len()
                &&& d.distinct_object_count == lift(def@, Map::empty(), Map::empty()).objects.len()
                &&& d.definition@.fits_table(rules(syntaxes@))
            },
            Err(e) => r matches Err(e2) && e2@ == e,
        },
{
    let mut wffs = HashMap::<usize, WellFormedFormula>::new();
    let mut objects = HashMap::<usize, Object>::new();
    let definition = match compile_atoms(&def, syntaxes, &mut wffs, &mut objects) {
        Ok(definition) => definition,
        Err(e) => {
            return Err(e);
        },
    };
    Ok(
        Definition {
            name,
            definition,
            distinct_wff_count: wffs.len(),
            distinct_object_count: objects.len(),
        },
    )
}

/// What compiling a run of formulas one after the other gives: the formulas
/// compiled so far, the leaves given to placeholders so far, and the first
/// error, after which nothing changes.
pub struct Batch {
    pub terms: Seq<Term>,
    pub formulas: Map<usize, WellFormedFormula>,
    pub objects: Map<usize, Object>,
    pub error: Option<CompileErrorModel>,
}

/// Compiling a run of formulas, each with the leaves that the formulas before
/// it were given.
pub open spec fn compile_all(
    list: Seq<Seq<FormulaChar>>,
    formulas: Map<usize, WellFormedFormula>,
    objects: Map<usize, Object>,
    table: Seq<SyntaxModel>,
) -> Batch
    decreases list.len(),
{
    if list.len() == 0 {
        Batch { terms: Seq::empty(), formulas, objects, error: None }
    } else {
        let before = compile_all(list.drop_last(), formulas, objects, table);
        if before.error is Some {
            before
        } else {
            let lifted = lift(list.last(), before.formulas, before.objects);
            match compiled(lifted, table) {
                Ok(t) => Batch {
                    terms: before.terms.push(t),
                    formulas: lifted.formulas,
                    objects: lifted.objects,
                    error: None,
                },
                Err(e) => Batch {
                    formulas: lifted.formulas,
                    objects: lifted.objects,
                    error: Some(e),
                    ..before
                },
            }
        }
    }
}

/// After an error the batch stays as it is.
pub proof fn lemma_compile_all_stops(
    list: Seq<Seq<FormulaChar>>,
    formulas: Map<usize, WellFormedFormula>,
    objects: Map<usize, Object>,
    table: Seq<SyntaxModel>,
    n: int,
)
    requires
        0 <= n <= list.len(),
        compile_all(list.take(n), formulas, objects, table).error is Some,
    ensures
        compile_all(list, formulas, objects, table) == compile_all(
            list.take(n),
            formulas,
            objects,
            table,
        ),
    decreases list.len(),
{
    if n < list.len() {
        assert(list.drop_last().take(n) == list.take(n));
        lemma_compile_all_stops(list.drop_last(), formulas, objects, table, n);
        assert(compile_all(list, formulas, objects, table) == compile_all(
            list.drop_last(),
            formulas,
            objects,
            table,
        ));
    } else {
        assert(list.take(n) == list);
    }
}

/// A batch keeps to the table: if the leaves known before fit it, so do the
/// formulas compiled and the leaves known after.
pub proof fn lemma_compile_all_fits(
    list: Seq<Seq<FormulaChar>>,
    formulas: Map<usize, WellFormedFormula>,
    objects: Map<usize, Object>,
    table: Seq<SyntaxModel>,
)
    requires
        table.len() <= usize::MAX,
        leaves_fit(formulas, objects, table),
    ensures
        leaves_fit(
            compile_all(list, formulas, objects, table).formulas,
            compile_all(list, formulas, objects, table).objects,
            table,
        ),
        forall|i: int|
            0 <= i < compile_all(list, formulas, objects, table).terms.len() ==> (
            #[trigger] compile_all(list, formulas, objects, table).terms[i]).fits_table(table),
    decreases list.len(),
{
    if list.len() > 0 {
        lemma_compile_all_fits(list.drop_last(), formulas, objects, table);
        let before = compile_all(list.drop_last(), formulas, objects, table);
        if before.error is None {
            lemma_compiled_fits_table(list.last(), before.formulas, before.objects, table);
        }
        let after = compile_all(list, formulas, objects, table);
        assert forall|i: int| 0 <= i < after.terms.len() implies (#[trigger] after.terms[i]).fits_table(
            table,
        ) by {
            if i < before.terms.len() {
                assert(after.terms[i] == before.terms[i]);
            }
        }
    } else {
        assert(compile_all(list, formulas, objects, table).terms =~= Seq::<Term>::empty());
    }
}

/// Compiles a run of formulas one after the other, and stops at the first
/// that fails.
pub fn compile_formulas(
    list: &Vec<Formula>,
    syntaxes: &Vec<Syntax>,
    wffs: &mut HashMap<usize, WellFormedFormula>,
    objects: &mut HashMap<usize, Object>,
) -> (r: Result<Vec<WellFormedFormula>, CompileError>)
    ensures
        final(wffs)@ == compile_all(views(list@), old(wffs)@, old(objects)@, rules(syntaxes@)).formulas,
        final(objects)@ == compile_all(views(list@), old(wffs)@, old(objects)@, rules(syntaxes@)).objects,
        match r {
            Ok(compiled) => compile_all(views(list@), old(wffs)@, old(objects)@, rules(syntaxes@)).error
                is None && formula_terms(compiled@) == compile_all(
                views(list@),
                old(wffs)@,
                old(objects)@,
                rules(syntaxes@),
            ).terms,
            Err(e) => compile_all(views(list@), old(wffs)@, old(objects)@, rules(syntaxes@)).error == Some(
                e@,
            ),
        },
{
    let ghost all = views(list@);
    let mut done: Vec<WellFormedFormula> = Vec::new();
    let mut i: usize = 0;
    assert(formula_terms(done@) =~= Seq::<Term>::empty());
    assert(all.take(0) =~= Seq::<Seq<FormulaChar>>::empty());
    while i < list.len()
        invariant
            i <= list.len(),
            all == views(list@),
            compile_all(all.take(i as int), old(wffs)@, old(objects)@, rules(syntaxes@)) == (Batch {
                terms: formula_terms(done@),
                formulas: wffs@,
                objects: objects@,
                error: None,
            }),
        decreases list.len() - i,
    {
        let ghost before = formula_terms(done@);
        proof {
            let next = all.take(i + 1);
            assert(next.drop_last() == all.take(i as int));
            assert(next.last() == list@[i as int]@);
            let b = compile_all(next.drop_last(), old(wffs)@, old(objects)@, rules(syntaxes@));
            assert(compile_all(next, old(wffs)@, old(objects)@, rules(syntaxes@)) == {
                let lifted = lift(next.last(), b.formulas, b.objects);
                match compiled(lifted, rules(syntaxes@)) {
                    Ok(t) => Batch {
                        terms: b.terms.push(t),
                        formulas: lifted.formulas,
                        objects: lifted.objects,
                        error: None,
                    },
                    Err(e) => Batch {
                        formulas: lifted.formulas,
                        objects: lifted.objects,
                        error: Some(e),
                        ..b
                    },
                }
            });
        }
        match compile_atoms(&list[i], syntaxes, wffs, objects) {
            Ok(wff) => {
                let ghost t = wff@;
                done.push(wff);
                assert(formula_terms(done@) =~= before.push(t));
            },
            Err(e) => {
                proof {
                    lemma_compile_all_stops(all, old(wffs)@, old(objects)@, rules(syntaxes@), i + 1);
                }
                return Err(e);
            },
        }
        i += 1;
    }
    assert(all.take(i as int) == all);
    Ok(done)
}

/// Compiles an axiom: its hypotheses, then its assertions, with one
/// numbering of leaves for them all. A file of another kind is refused, and
/// the first formula that does not compile gives the error.
pub fn compile_axiom(file: MathFile, syntaxes: &Vec<Syntax>) -> (r: Result<Axiom, CompileError>)
    ensures
        match file@ {
            MathFileModel::Axiom { name, hypotheses, assertions } => {
                let h = compile_all(hypotheses, Map::empty(), Map::empty(), rules(syntaxes@));
                let a = compile_all(assertions, h.formulas, h.objects, rules(syntaxes@));
                if h.error is Some {
                    r matches Err(e) && Some(e@) == h.error
                } else if a.error is Some {
                    r matches Err(e) && Some(e@) == a.error
                } else {
                    &&& r matches Ok(ax)
                    &&& ax.name@ == name
                    &&& formula_terms(ax.hypotheses@) == h.terms
                    &&& formula_terms(ax.assertions@) == a.terms
                    &&& ax.distinct_wff_count == a.formulas.len()
                    &&& ax.distinct_object_count == a.objects.len()
                }
            },
            _ => r matches Err(e) && e@ == CompileErrorModel::IncorrectFileType,
        },
{
    let mut wffs = HashMap::<usize, WellFormedFormula>::new();
    let mut objects = HashMap::<usize, Object>::new();
    let (name, hypotheses, assertions) = match file {
        MathFile::Axiom { name, hypotheses, assertions } => (name, hypotheses, assertions),
        _ => {
            return Err(CompileError::IncorrectFileType);
        },
    };
    let compiled_hypotheses = match compile_formulas(&hypotheses, syntaxes, &mut wffs, &mut objects) {
        Ok(compiled) => compiled,
        Err(e) => {
            return Err(e);
        },
    };
    let compiled_assertions = match compile_formulas(&assertions, syntaxes, &mut wffs, &mut objects) {
        Ok(compiled) => compiled,
        Err(e) => {
            return Err(e);
        },
    };
    Ok(
        Axiom {
            name,
            hypotheses: compiled_hypotheses,
            assertions: compiled_assertions,
            distinct_wff_count: wffs.len(),
            distinct_object_count: objects.len(),
        },
    )
}

} // verus!
