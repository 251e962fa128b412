//! The proof verifier: compiling a theorem and checking each line of its
//! proof against what the line cites.

use std::collections::HashMap;
use vstd::prelude::*;
use crate::compiling::error::{CompileError, CompileErrorModel};
use crate::compiling::formula::{compile_atoms, compiled, lift};
use crate::compiling::math_file::{compile_all, compile_formulas};
use crate::compiling::types::{
    axiom_models, definition_models, formula_terms, lookup, rules, step_views, theorem_models,
    Axiom, AxiomModel, Definition, DefinitionModel, LogicStep, NameIndex, Object, Reference,
    StepModel, Syntax, SyntaxModel, Term, Theorem, TheoremModel, WellFormedFormula,
};
use crate::compiling::verification::{formula_is_substitution, is_instance};
use crate::parsing::types::{
    line_view, named_view, views, Formula, FormulaChar, MathFile, MathFileModel, ProofLine,
};
use crate::text::{
    chars_of, decimal, decimal_of, find_char, first_index, number_value, parse_number, rows,
    same_chars, slice_of, string_of,
};

verus! {

/// The index of the hypothesis of that name, if there is one. The parser
/// gives no theorem two hypotheses of one name; of names that come twice all
/// the same, the last is meant.
pub open spec fn last_named(names: Seq<Seq<char>>, name: Seq<char>) -> Option<int>
    decreases names.len(),
{
    if names.len() == 0 {
        None
    } else if names.last() == name {
        Some(names.len() - 1)
    } else {
        last_named(names.drop_last(), name)
    }
}

/// What `last_named` finds is the index of a name that is `name`.
pub proof fn lemma_last_named_in_range(names: Seq<Seq<char>>, name: Seq<char>)
    ensures
        last_named(names, name) matches Some(k) ==> 0 <= k < names.len() && names[k] == name,
    decreases names.len(),
{
    if names.len() > 0 && names.last() != name {
        lemma_last_named_in_range(names.drop_last(), name);
    }
}

/// The index of the hypothesis of that name.
pub fn find_hypothesis(names: &Vec<Vec<char>>, name: &Vec<char>) -> (r: Option<usize>)
    ensures
        match r {
            Some(k) => last_named(rows(names@), name@) == Some(k as int),
            None => last_named(rows(names@), name@) is None,
        },
{
    let ghost all = rows(names@);
    let mut i: usize = names.len();
    assert(all.take(i as int) == all);
    while i > 0
        invariant
            i <= names.len(),
            all == rows(names@),
            last_named(all, name@) == last_named(all.take(i as int), name@),
        decreases i,
    {
        let ghost part = all.take(i as int);
        assert(part.last() == names@[i - 1]@);
        assert(part.drop_last() == all.take(i - 1));
        assert(last_named(part, name@) == if part.last() == name@ {
            Some(part.len() - 1)
        } else {
            last_named(part.drop_last(), name@)
        });
        if same_chars(&names[i - 1], name) {
            return Some(i - 1);
        }
        i -= 1;
    }
    assert(last_named(all.take(0), name@) is None);
    None
}

/// What a citation names: the name of a schema, and after a dot the index of
/// one of its assertions, which is 0 where no dot stands. Nothing if what
/// follows the first dot is no number.
pub open spec fn citation(name: Seq<char>) -> Option<(Seq<char>, usize)> {
    let n = first_index(name, '.');
    if 0 <= n < name.len() {
        match number_value(name.skip(n + 1)) {
            Some(s) => Some((name.take(n), s)),
            None => None,
        }
    } else {
        Some((name, 0))
    }
}

/// Reads a citation.
pub fn read_citation(name: &Vec<char>) -> (r: Option<(Vec<char>, usize)>)
    ensures
        match r {
            Some((base, s)) => citation(name@) == Some((base@, s)),
            None => citation(name@) is None,
        },
{
    let n = find_char(name, 0, '.');
    assert(name@.skip(0) == name@);
    if n == name.len() {
        let base = slice_of(name, 0, n);
        assert(name@.subrange(0, n as int) == name@);
        return Some((base, 0));
    }
    assert(name@.subrange(0, n as int) == name@.take(n as int));
    assert(name@.subrange(n + 1, name@.len() as int) == name@.skip(n + 1));
    match parse_number(&slice_of(name, n + 1, name.len())) {
        Some(s) => Some((slice_of(name, 0, n), s)),
        None => None,
    }
}

/// A name with the index of an assertion after a dot.
pub open spec fn with_sub(base: Seq<char>, s: usize) -> Seq<char> {
    base.push('.') + decimal(s as nat)
}

/// Writes a name with the index of an assertion after a dot.
pub fn name_with_sub(base: &Vec<char>, s: usize) -> (r: String)
    ensures
        r@ == with_sub(base@, s),
{
    let mut full = slice_of(base, 0, base.len());
    assert(base@.subrange(0, base@.len() as int) == base@);
    full.push('.');
    let mut digits = decimal_of(s);
    full.append(&mut digits);
    string_of(&full)
}

/// A schema: from the hypotheses, the assertion; its leaves have ids below
/// the two counts.
pub struct Schema {
    pub hypotheses: Seq<Term>,
    pub assertion: Term,
    pub wff_count: usize,
    pub object_count: usize,
}

/// The schema that a reference stands for in the library: a definition, with
/// no hypothesis and the defined formula as its assertion, or one assertion
/// of an axiom or of a theorem. Nothing if the library holds no such thing.
pub open spec fn schema_of(
    cited: Reference,
    definitions: Seq<DefinitionModel>,
    axioms: Seq<AxiomModel>,
    theorems: Seq<TheoremModel>,
) -> Option<Schema> {
    match cited {
        Reference::HypothesisReference(_) => None,
        Reference::DefinitionReference(d) => if d < definitions.len() {
            Some(
                Schema {
                    hypotheses: Seq::empty(),
                    assertion: definitions[d as int].definition,
                    wff_count: definitions[d as int].distinct_wff_count,
                    object_count: definitions[d as int].distinct_object_count,
                },
            )
        } else {
            None
        },
        Reference::AxiomReference(a, s) => if a < axioms.len() && s < axioms[a as int].assertions.len() {
            Some(
                Schema {
                    hypotheses: axioms[a as int].hypotheses,
                    assertion: axioms[a as int].assertions[s as int],
                    wff_count: axioms[a as int].distinct_wff_count,
                    object_count: axioms[a as int].distinct_object_count,
                },
            )
        } else {
            None
        },
        Reference::TheoremReference(t, s) => if t < theorems.len() && s
            < theorems[t as int].assertions.len() {
            Some(
                Schema {
                    hypotheses: theorems[t as int].hypotheses,
                    assertion: theorems[t as int].assertions[s as int],
                    wff_count: theorems[t as int].distinct_wff_count,
                    object_count: theorems[t as int].distinct_object_count,
                },
            )
        } else {
            None
        },
    }
}

/// What a proof is checked against: the names and the formulas of the
/// theorem's hypotheses, the syntax table, the library, and its name index.
pub struct Context {
    pub names: Seq<Seq<char>>,
    pub hypotheses: Seq<Term>,
    pub table: Seq<SyntaxModel>,
    pub definitions: Seq<DefinitionModel>,
    pub axioms: Seq<AxiomModel>,
    pub theorems: Seq<TheoremModel>,
    pub index: Seq<(Seq<char>, Reference)>,
}

/// What the line with the given number cites under `name`. The name index
/// says where the schema stands; the index of the assertion must be 0 for a
/// definition and below the number of assertions for an axiom or a theorem.
pub open spec fn cited_by(ctx: Context, name: Seq<char>, number: usize) -> Result<
    Reference,
    CompileErrorModel,
> {
    cited_in(ctx.definitions, ctx.axioms, ctx.theorems, ctx.index, name, number)
}

/// What the line with the given number cites under `name` in the library
/// with the given name index.
pub open spec fn cited_in(
    definitions: Seq<DefinitionModel>,
    axioms: Seq<AxiomModel>,
    theorems: Seq<TheoremModel>,
    index: Seq<(Seq<char>, Reference)>,
    name: Seq<char>,
    number: usize,
) -> Result<Reference, CompileErrorModel> {
    match citation(name) {
        None => Err(CompileErrorModel::UnknownTheorem(name, number)),
        Some((base, s)) => match lookup(index, base) {
            None => Err(CompileErrorModel::UnknownTheorem(base, number)),
            Some(Reference::DefinitionReference(d)) => if d >= definitions.len() {
                Err(CompileErrorModel::WeirdReference)
            } else if s != 0 {
                Err(CompileErrorModel::UnknownTheorem(with_sub(base, s), number))
            } else {
                Ok(Reference::DefinitionReference(d))
            },
            Some(Reference::AxiomReference(a, sub)) => if sub != 0 || a >= axioms.len() {
                Err(CompileErrorModel::WeirdReference)
            } else if s >= axioms[a as int].assertions.len() {
                Err(CompileErrorModel::UnknownTheorem(with_sub(base, s), number))
            } else {
                Ok(Reference::AxiomReference(a, s))
            },
            Some(Reference::TheoremReference(t, sub)) => if sub != 0 || t >= theorems.len() {
                Err(CompileErrorModel::WeirdReference)
            } else if s >= theorems[t as int].assertions.len() {
                Err(CompileErrorModel::UnknownTheorem(with_sub(base, s), number))
            } else {
                Ok(Reference::TheoremReference(t, s))
            },
            Some(Reference::HypothesisReference(_)) => Err(CompileErrorModel::WeirdReference),
        },
    }
}

/// Finds what a line cites.
pub fn resolve_citation(
    name: &Vec<char>,
    number: usize,
    definitions: &Vec<Definition>,
    axioms: &Vec<Axiom>,
    theorems: &Vec<Theorem>,
    references: &NameIndex,
) -> (r: Result<Reference, CompileError>)
    ensures
        match r {
            Ok(cited) => cited_in(
                definition_models(definitions@),
                axiom_models(axioms@),
                theorem_models(theorems@),
                references@,
                name@,
                number,
            ) == Ok::<_, CompileErrorModel>(cited) && schema_of(
                cited,
                definition_models(definitions@),
                axiom_models(axioms@),
                theorem_models(theorems@),
            ) is Some,
            Err(e) => cited_in(
                definition_models(definitions@),
                axiom_models(axioms@),
                theorem_models(theorems@),
                references@,
                name@,
                number,
            ) == Err::<Reference, _>(e@),
        },
{
    let (base, s) = match read_citation(name) {
        Some(found) => found,
        None => {
            return Err(CompileError::UnknownTheorem(string_of(name), number));
        },
    };
    match references.find(&base) {
        None => Err(CompileError::UnknownTheorem(string_of(&base), number)),
        Some(Reference::DefinitionReference(d)) => {
            if d >= definitions.len() {
                Err(CompileError::WeirdReference)
            } else if s != 0 {
                Err(CompileError::UnknownTheorem(name_with_sub(&base, s), number))
            } else {
                Ok(Reference::DefinitionReference(d))
            }
        },
        Some(Reference::AxiomReference(a, sub)) => {
            if sub != 0 || a >= axioms.len() {
                Err(CompileError::WeirdReference)
            } else if s >= axioms[a].assertions.len() {
                Err(CompileError::UnknownTheorem(name_with_sub(&base, s), number))
            } else {
                Ok(Reference::AxiomReference(a, s))
            }
        },
        Some(Reference::TheoremReference(t, sub)) => {
            if sub != 0 || t >= theorems.len() {
                Err(CompileError::WeirdReference)
            } else if s >= theorems[t].assertions.len() {
                Err(CompileError::UnknownTheorem(name_with_sub(&base, s), number))
            } else {
                Ok(Reference::TheoremReference(t, s))
            }
        },
        Some(Reference::HypothesisReference(_)) => Err(CompileError::WeirdReference),
    }
}

/// The place of the first used step that is beyond the steps done.
pub open spec fn is_first_beyond(used: Seq<usize>, done: nat, j: int) -> bool {
    &&& 0 <= j < used.len()
    &&& used[j] > done
    &&& forall|k: int| 0 <= k < j ==> used[k] <= done
}

/// What is wrong with the steps that a line uses, if anything: a step 0,
/// wherever it stands, or else the first step that is not before the line.
pub open spec fn bad_use(used: Seq<usize>, done: nat) -> Option<usize> {
    if used.contains(0) {
        Some(0)
    } else if exists|j: int| is_first_beyond(used, done, j) {
        Some(used[choose|j: int| is_first_beyond(used, done, j)])
    } else {
        None
    }
}

/// Checks the steps that a line uses.
pub fn check_uses(used: &Vec<usize>, done: usize) -> (r: Option<usize>)
    ensures
        r == bad_use(used@, done as nat),
        r is None ==> forall|j: int| 0 <= j < used@.len() ==> 1 <= #[trigger] used@[j] <= done,
{
    let mut j: usize = 0;
    while j < used.len()
        invariant
            j <= used.len(),
            forall|k: int| 0 <= k < j ==> used@[k] != 0,
        decreases used.len() - j,
    {
        if used[j] == 0 {
            assert(used@.contains(0));
            return Some(0);
        }
        j += 1;
    }
    assert(!used@.contains(0));
    let mut j: usize = 0;
    while j < used.len()
        invariant
            j <= used.len(),
            !used@.contains(0),
            forall|k: int| 0 <= k < used@.len() ==> used@[k] != 0,
            forall|k: int| 0 <= k < j ==> used@[k] <= done,
        decreases used.len() - j,
    {
        if used[j] > done {
            proof {
                assert(is_first_beyond(used@, done as nat, j as int));
                let c = choose|c: int| is_first_beyond(used@, done as nat, c);
                assert(is_first_beyond(used@, done as nat, c));
                if c < j {
                    assert(used@[c] <= done);
                } else if j < c {
                    assert(used@[j as int] <= done);
                }
            }
            return Some(used[j]);
        }
        j += 1;
    }
    assert forall|c: int| !is_first_beyond(used@, done as nat, c) by {
        if 0 <= c < used@.len() {
            assert(used@[c] <= done);
        }
    }
    None
}

/// The formulas that the used steps arrived at, in the order of their use.
pub open spec fn results_of(steps: Seq<StepModel>, used: Seq<usize>) -> Seq<Term> {
    Seq::new(used.len(), |j: int| steps[used[j] - 1].result)
}

/// The used steps counted from 0.
pub open spec fn lowered(used: Seq<usize>) -> Seq<usize> {
    used.map_values(|n: usize| (n - 1) as usize)
}

/// Gathers the formulas of the used steps, and counts the steps from 0.
pub fn gather(steps: &Vec<LogicStep>, used: &Vec<usize>) -> (r: (Vec<WellFormedFormula>, Vec<usize>))
    requires
        forall|j: int| 0 <= j < used@.len() ==> 1 <= #[trigger] used@[j] <= steps@.len(),
    ensures
        formula_terms(r.0@) == results_of(step_views(steps@), used@),
        r.1@ == lowered(used@),
{
    let mut formulas: Vec<WellFormedFormula> = Vec::new();
    let mut indices: Vec<usize> = Vec::new();
    let mut j: usize = 0;
    while j < used.len()
        invariant
            j <= used.len(),
            forall|k: int| 0 <= k < used@.len() ==> 1 <= #[trigger] used@[k] <= steps@.len(),
            formulas@.len() == j,
            indices@.len() == j,
            forall|k: int| 0 <= k < j ==> (#[trigger] formulas@[k])@ == steps@[used@[k] - 1]@.result,
            forall|k: int| 0 <= k < j ==> #[trigger] indices@[k] == (used@[k] - 1) as usize,
        decreases used.len() - j,
    {
        let n = used[j];
        assert(1 <= used@[j as int] <= steps@.len());
        formulas.push(steps[n - 1].resulting_formula.clone());
        indices.push(n - 1);
        j += 1;
    }
    assert(formula_terms(formulas@) =~= results_of(step_views(steps@), used@));
    assert(indices@ =~= lowered(used@));
    (formulas, indices)
}

/// Whether `formula` follows from the formulas of the used steps by the
/// schema that the reference stands for.
pub open spec fn follows(schema: Schema, formula: Term, used: Seq<Term>) -> bool {
    is_instance(
        formula,
        used,
        schema.hypotheses,
        schema.assertion,
        schema.wff_count as nat,
        schema.object_count as nat,
    )
}

/// How many hypotheses the cited schema has.
pub fn hypotheses_of(
    cited: Reference,
    definitions: &Vec<Definition>,
    axioms: &Vec<Axiom>,
    theorems: &Vec<Theorem>,
) -> (n: usize)
    requires
        schema_of(cited, definition_models(definitions@), axiom_models(axioms@), theorem_models(theorems@)) is Some,
    ensures
        n == schema_of(cited, definition_models(definitions@), axiom_models(axioms@), theorem_models(theorems@))->0.hypotheses.len(),
{
    match cited {
        Reference::AxiomReference(a, _) => axioms[a].hypotheses.len(),
        Reference::TheoremReference(t, _) => theorems[t].hypotheses.len(),
        _ => 0,
    }
}

/// Whether the formula follows from the formulas of the used steps by the
/// cited schema.
pub fn check_instance(
    cited: Reference,
    formula: &WellFormedFormula,
    used: &Vec<WellFormedFormula>,
    definitions: &Vec<Definition>,
    axioms: &Vec<Axiom>,
    theorems: &Vec<Theorem>,
) -> (r: bool)
    requires
        schema_of(cited, definition_models(definitions@), axiom_models(axioms@), theorem_models(theorems@)) is Some,
    ensures
        r == follows(
            schema_of(cited, definition_models(definitions@), axiom_models(axioms@), theorem_models(theorems@))->0,
            formula@,
            formula_terms(used@),
        ),
{
    match cited {
        Reference::DefinitionReference(d) => {
            let none: Vec<WellFormedFormula> = Vec::new();
            assert(formula_terms(none@) =~= Seq::<Term>::empty());
            formula_is_substitution(
                formula,
                used,
                &none,
                &definitions[d].definition,
                definitions[d].distinct_wff_count,
                definitions[d].distinct_object_count,
            )
        },
        Reference::AxiomReference(a, s) => formula_is_substitution(
            formula,
            used,
            &axioms[a].hypotheses,
            &axioms[a].assertions[s],
            axioms[a].distinct_wff_count,
            axioms[a].distinct_object_count,
        ),
        Reference::TheoremReference(t, s) => formula_is_substitution(
            formula,
            used,
            &theorems[t].hypotheses,
            &theorems[t].assertions[s],
            theorems[t].distinct_wff_count,
            theorems[t].distinct_object_count,
        ),
        Reference::HypothesisReference(_) => false,
    }
}

/// The checking of a proof so far: the steps accepted, the leaves given to
/// placeholders, and the first error, after which nothing changes.
pub struct Checking {
    pub steps: Seq<StepModel>,
    pub formulas: Map<usize, WellFormedFormula>,
    pub objects: Map<usize, Object>,
    pub error: Option<CompileErrorModel>,
}

impl Checking {
    /// The checking stopped by an error.
    pub open spec fn fail(self, e: CompileErrorModel) -> Checking {
        Checking { error: Some(e), ..self }
    }
}

/// Checking one more line. Its number must be the next. If it cites a
/// hypothesis of the theorem by name, it uses no step and its formula is
/// that hypothesis. Otherwise it cites a schema of the library: it uses as
/// many steps as the schema has hypotheses, each of them before the line,
/// and its formula follows from their formulas by the schema. The line's
/// formula is compiled with the leaves known so far.
#[verifier::opaque]
pub open spec fn check_line(
    ctx: Context,
    st: Checking,
    line: (usize, Seq<usize>, Seq<char>, Seq<FormulaChar>),
) -> Checking {
    let number = line.0;
    let used = line.1;
    let name = line.2;
    let lifted = lift(line.3, st.formulas, st.objects);
    if number != st.steps.len() + 1 {
        st.fail(CompileErrorModel::MissingProofLine((st.steps.len() + 1) as usize))
    } else {
        match last_named(ctx.names, name) {
            Some(k) => {
                if used.len() != 0 {
                    st.fail(
                        CompileErrorModel::IncorrectNumberOfHypothesis(used.len() as usize, 0, number),
                    )
                } else {
                    match compiled(lifted, ctx.table) {
                        Err(e) => st.fail(e),
                        Ok(t) => if t != ctx.hypotheses[k] {
                            st.fail(CompileErrorModel::IncorrectResultingFormula(number))
                        } else {
                            Checking {
                                steps: st.steps.push(
                                    StepModel {
                                        used,
                                        cited: Reference::HypothesisReference(k as usize),
                                        result: t,
                                    },
                                ),
                                formulas: lifted.formulas,
                                objects: lifted.objects,
                                error: None,
                            }
                        },
                    }
                }
            },
            None => match cited_by(ctx, name, number) {
                Err(e) => st.fail(e),
                Ok(cited) => {
                    let schema = schema_of(cited, ctx.definitions, ctx.axioms, ctx.theorems)->0;
                    if used.len() != schema.hypotheses.len() {
                        st.fail(
                            CompileErrorModel::IncorrectNumberOfHypothesis(
                                used.len() as usize,
                                schema.hypotheses.len() as usize,
                                number,
                            ),
                        )
                    } else {
                        match bad_use(used, st.steps.len()) {
                            Some(step) => st.fail(
                                CompileErrorModel::InaccessibleHypothesis(step, number),
                            ),
                            None => match compiled(lifted, ctx.table) {
                                Err(e) => st.fail(e),
                                Ok(t) => if !follows(schema, t, results_of(st.steps, used)) {
                                    st.fail(CompileErrorModel::IncorrectResultingFormula(number))
                                } else {
                                    Checking {
                                        steps: st.steps.push(
                                            StepModel { used: lowered(used), cited, result: t },
                                        ),
                                        formulas: lifted.formulas,
                                        objects: lifted.objects,
                                        error: None,
                                    }
                                },
                            },
                        }
                    }
                },
            },
        }
    }
}

/// Checking the lines of a proof, from the first on.
pub open spec fn check_lines(
    ctx: Context,
    lines: Seq<(usize, Seq<usize>, Seq<char>, Seq<FormulaChar>)>,
    formulas: Map<usize, WellFormedFormula>,
    objects: Map<usize, Object>,
) -> Checking
    decreases lines.len(),
{
    if lines.len() == 0 {
        Checking { steps: Seq::empty(), formulas, objects, error: None }
    } else {
        let before = check_lines(ctx, lines.drop_last(), formulas, objects);
        if before.error is Some {
            before
        } else {
            check_line(ctx, before, lines.last())
        }
    }
}

/// After an error the checking stays as it is.
pub proof fn lemma_check_lines_stops(
    ctx: Context,
    lines: Seq<(usize, Seq<usize>, Seq<char>, Seq<FormulaChar>)>,
    formulas: Map<usize, WellFormedFormula>,
    objects: Map<usize, Object>,
    n: int,
)
    requires
        0 <= n <= lines.len(),
        check_lines(ctx, lines.take(n), formulas, objects).error is Some,
    ensures
        check_lines(ctx, lines, formulas, objects) == check_lines(
            ctx,
            lines.take(n),
            formulas,
            objects,
        ),
    decreases lines.len(),
{
    if n < lines.len() {
        assert(lines.drop_last().take(n) == lines.take(n));
        lemma_check_lines_stops(ctx, lines.drop_last(), formulas, objects, n);
        assert(check_lines(ctx, lines, formulas, objects) == check_lines(
            ctx,
            lines.drop_last(),
            formulas,
            objects,
        ));
    } else {
        assert(lines.take(n) == lines);
    }
}

/// What a proof with the given hypotheses is checked against in the library.
pub open spec fn context_of(
    names: Seq<Seq<char>>,
    hypotheses: Seq<Term>,
    table: Seq<SyntaxModel>,
    definitions: Seq<DefinitionModel>,
    axioms: Seq<AxiomModel>,
    theorems: Seq<TheoremModel>,
    index: Seq<(Seq<char>, Reference)>,
) -> Context {
    Context { names, hypotheses, table, definitions, axioms, theorems, index }
}

/// The checking as the verifier holds it while no error has occurred.
pub open spec fn checking_of(
    steps: Seq<LogicStep>,
    formulas: Map<usize, WellFormedFormula>,
    objects: Map<usize, Object>,
) -> Checking {
    Checking { steps: step_views(steps), formulas, objects, error: None }
}

/// Checks one line of a proof, and adds the step it makes to the steps.
pub fn check_proof_line(
    line: &ProofLine,
    names: &Vec<Vec<char>>,
    hypotheses: &Vec<WellFormedFormula>,
    syntaxes: &Vec<Syntax>,
    definitions: &Vec<Definition>,
    axioms: &Vec<Axiom>,
    theorems: &Vec<Theorem>,
    references: &NameIndex,
    steps: &mut Vec<LogicStep>,
    wffs: &mut HashMap<usize, WellFormedFormula>,
    objects: &mut HashMap<usize, Object>,
) -> (r: Result<(), CompileError>)
    requires
        names@.len() == hypotheses@.len(),
        old(steps)@.len() < usize::MAX,
    ensures
        r is Ok ==> final(steps)@.len() == old(steps)@.len() + 1,
        match r {
            Ok(_) => check_line(
                context_of(
                    rows(names@),
                    formula_terms(hypotheses@),
                    rules(syntaxes@),
                    definition_models(definitions@),
                    axiom_models(axioms@),
                    theorem_models(theorems@),
                    references@,
                ),
                checking_of(old(steps)@, old(wffs)@, old(objects)@),
                line_view(*line),
            ) == checking_of(final(steps)@, final(wffs)@, final(objects)@),
            Err(e) => check_line(
                context_of(
                    rows(names@),
                    formula_terms(hypotheses@),
                    rules(syntaxes@),
                    definition_models(definitions@),
                    axiom_models(axioms@),
                    theorem_models(theorems@),
                    references@,
                ),
                checking_of(old(steps)@, old(wffs)@, old(objects)@),
                line_view(*line),
            ).error == Some(e@),
        },
{
    reveal(check_line);
    let ghost before = step_views(steps@);
    let number = line.0;
    let used = &line.1;
    let name = chars_of(line.2.as_str());
    let done = steps.len();
    if number != done + 1 {
        return Err(CompileError::MissingProofLine(done + 1));
    }
    proof {
        lemma_last_named_in_range(rows(names@), name@);
    }
    match find_hypothesis(names, &name) {
        Some(k) => {
            if used.len() != 0 {
                return Err(CompileError::IncorrectNumberOfHypothesis(used.len(), 0, number));
            }
            let resulting_formula = match compile_atoms(&line.3, syntaxes, wffs, objects) {
                Ok(formula) => formula,
                Err(e) => {
                    return Err(e);
                },
            };
            if !resulting_formula.equals(&hypotheses[k]) {
                return Err(CompileError::IncorrectResultingFormula(number));
            }
            let used_hypotheses: Vec<usize> = Vec::new();
            assert(used_hypotheses@ =~= used@);
            let step = LogicStep {
                used_hypotheses,
                theorem_ref: Reference::HypothesisReference(k),
                resulting_formula,
            };
            steps.push(step);
            assert(step_views(steps@) =~= before.push(step@));
            Ok(())
        },
        None => {
            let cited = match resolve_citation(
                &name,
                number,
                definitions,
                axioms,
                theorems,
                references,
            ) {
                Ok(cited) => cited,
                Err(e) => {
                    return Err(e);
                },
            };
            let due = hypotheses_of(cited, definitions, axioms, theorems);
            if used.len() != due {
                return Err(CompileError::IncorrectNumberOfHypothesis(used.len(), due, number));
            }
            match check_uses(used, done) {
                Some(step) => {
                    return Err(CompileError::InaccessibleHypothesis(step, number));
                },
                None => {},
            }
            let (used_formulas, used_hypotheses) = gather(steps, used);
            let resulting_formula = match compile_atoms(&line.3, syntaxes, wffs, objects) {
                Ok(formula) => formula,
                Err(e) => {
                    return Err(e);
                },
            };
            if !check_instance(
                cited,
                &resulting_formula,
                &used_formulas,
                definitions,
                axioms,
                theorems,
            ) {
                return Err(CompileError::IncorrectResultingFormula(number));
            }
            let step = LogicStep { used_hypotheses, theorem_ref: cited, resulting_formula };
            steps.push(step);
            assert(step_views(steps@) =~= before.push(step@));
            Ok(())
        },
    }
}

/// Some step arrives at the formula.
pub open spec fn arrives_at(steps: Seq<StepModel>, t: Term) -> bool {
    exists|i: int| 0 <= i < steps.len() && (#[trigger] steps[i]).result == t
}

/// Assertion `k` is the first at which no step arrives.
pub open spec fn is_first_unproven(assertions: Seq<Term>, steps: Seq<StepModel>, k: int) -> bool {
    &&& 0 <= k < assertions.len()
    &&& !arrives_at(steps, assertions[k])
    &&& forall|j: int| 0 <= j < k ==> arrives_at(steps, #[trigger] assertions[j])
}

/// The first assertion at which no step arrives, if there is one.
pub fn first_unproven(assertions: &Vec<WellFormedFormula>, steps: &Vec<LogicStep>) -> (r: Option<usize>)
    ensures
        match r {
            Some(k) => is_first_unproven(formula_terms(assertions@), step_views(steps@), k as int),
            None => forall|k: int|
                0 <= k < assertions@.len() ==> arrives_at(
                    step_views(steps@),
                    #[trigger] formula_terms(assertions@)[k],
                ),
        },
{
    let ghost terms = formula_terms(assertions@);
    let ghost models = step_views(steps@);
    let mut k: usize = 0;
    while k < assertions.len()
        invariant
            k <= assertions.len(),
            terms == formula_terms(assertions@),
            models == step_views(steps@),
            forall|j: int| 0 <= j < k ==> arrives_at(models, #[trigger] terms[j]),
        decreases assertions.len() - k,
    {
        let mut i: usize = 0;
        let mut found = false;
        while i < steps.len() && !found
            invariant
                i <= steps.len(),
                k < assertions.len(),
                terms == formula_terms(assertions@),
                models == step_views(steps@),
                found ==> arrives_at(models, terms[k as int]),
                !found ==> forall|j: int| 0 <= j < i ==> (#[trigger] models[j]).result != terms[k as int],
            decreases steps.len() - i + if found {
                0int
            } else {
                1int
            },
        {
            if steps[i].resulting_formula.equals(&assertions[k]) {
                assert(models[i as int].result == terms[k as int]);
                found = true;
            } else {
                i += 1;
            }
        }
        if !found {
            return Some(k);
        }
        k += 1;
    }
    None
}

/// The theorem that a file gives in the library. Its hypotheses and then its
/// assertions are compiled with one numbering of leaves, which the formulas
/// of the proof lines share. Each line of the proof is checked. At the end a
/// step must have arrived at each assertion. The first thing that fails gives
/// the error.
pub open spec fn theorem_of(
    file: MathFileModel,
    table: Seq<SyntaxModel>,
    definitions: Seq<DefinitionModel>,
    axioms: Seq<AxiomModel>,
    theorems: Seq<TheoremModel>,
    index: Seq<(Seq<char>, Reference)>,
) -> Result<TheoremModel, CompileErrorModel> {
    match file {
        MathFileModel::Theorem { name, hypotheses, assertions, proof } => {
            let h = compile_all(
                hypotheses.map_values(|x: (Seq<char>, Seq<FormulaChar>)| x.1),
                Map::empty(),
                Map::empty(),
                table,
            );
            let a = compile_all(assertions, h.formulas, h.objects, table);
            let ctx = context_of(
                hypotheses.map_values(|x: (Seq<char>, Seq<FormulaChar>)| x.0),
                h.terms,
                table,
                definitions,
                axioms,
                theorems,
                index,
            );
            let c = check_lines(ctx, proof, a.formulas, a.objects);
            if h.error is Some {
                Err(h.error->0)
            } else if a.error is Some {
                Err(a.error->0)
            } else if c.error is Some {
                Err(c.error->0)
            } else if exists|k: int| is_first_unproven(a.terms, c.steps, k) {
                Err(
                    CompileErrorModel::AssertionNotProven(
                        (choose|k: int| is_first_unproven(a.terms, c.steps, k)) as usize,
                    ),
                )
            } else {
                Ok(
                    TheoremModel {
                        name,
                        hypotheses: h.terms,
                        assertions: a.terms,
                        proof: c.steps,
                        distinct_wff_count: c.formulas.len() as usize,
                        distinct_object_count: c.objects.len() as usize,
                    },
                )
            }
        },
        _ => Err(CompileErrorModel::IncorrectFileType),
    }
}

/// A copy of the atoms of a formula.
pub fn copy_atoms(v: &Vec<FormulaChar>) -> (r: Vec<FormulaChar>)
    ensures
        r@ == v@,
{
    let mut r: Vec<FormulaChar> = Vec::new();
    let mut i: usize = 0;
    while i < v.len()
        invariant
            i <= v.len(),
            r@ == v@.take(i as int),
        decreases v.len() - i,
    {
        r.push(v[i]);
        assert(v@.take(i as int).push(v@[i as int]) == v@.take(i + 1));
        i += 1;
    }
    assert(v@.take(v.len() as int) == v@);
    r
}

/// The names and the formulas of the hypotheses as written.
pub fn split_hypotheses(hypotheses: &Vec<(String, Formula)>) -> (r: (Vec<Vec<char>>, Vec<Formula>))
    ensures
        rows(r.0@) == hypotheses@.map_values(|h: (String, Formula)| named_view(h)).map_values(
            |x: (Seq<char>, Seq<FormulaChar>)| x.0,
        ),
        views(r.1@) == hypotheses@.map_values(|h: (String, Formula)| named_view(h)).map_values(
            |x: (Seq<char>, Seq<FormulaChar>)| x.1,
        ),
{
    let mut names: Vec<Vec<char>> = Vec::new();
    let mut formulas: Vec<Formula> = Vec::new();
    let mut i: usize = 0;
    while i < hypotheses.len()
        invariant
            i <= hypotheses.len(),
            names@.len() == i,
            formulas@.len() == i,
            forall|j: int| 0 <= j < i ==> (#[trigger] names@[j])@ == hypotheses@[j].0@,
            forall|j: int| 0 <= j < i ==> (#[trigger] formulas@[j])@ == hypotheses@[j].1@,
        decreases hypotheses.len() - i,
    {
        names.push(chars_of(hypotheses[i].0.as_str()));
        formulas.push(copy_atoms(&hypotheses[i].1));
        i += 1;
    }
    assert(rows(names@) =~= hypotheses@.map_values(|h: (String, Formula)| named_view(h)).map_values(
        |x: (Seq<char>, Seq<FormulaChar>)| x.0,
    ));
    assert(views(formulas@) =~= hypotheses@.map_values(
        |h: (String, Formula)| named_view(h),
    ).map_values(|x: (Seq<char>, Seq<FormulaChar>)| x.1));
    (names, formulas)
}

/// Checks the lines of a proof one after the other, and stops at the first
/// that fails.
pub fn check_proof(
    proof: &Vec<ProofLine>,
    names: &Vec<Vec<char>>,
    hypotheses: &Vec<WellFormedFormula>,
    syntaxes: &Vec<Syntax>,
    definitions: &Vec<Definition>,
    axioms: &Vec<Axiom>,
    theorems: &Vec<Theorem>,
    references: &NameIndex,
    wffs: &mut HashMap<usize, WellFormedFormula>,
    objects: &mut HashMap<usize, Object>,
) -> (r: Result<Vec<LogicStep>, CompileError>)
    requires
        names@.len() == hypotheses@.len(),
    ensures
        match r {
            Ok(steps) => check_lines(
                context_of(
                    rows(names@),
                    formula_terms(hypotheses@),
                    rules(syntaxes@),
                    definition_models(definitions@),
                    axiom_models(axioms@),
                    theorem_models(theorems@),
                    references@,
                ),
                proof@.map_values(|l: ProofLine| line_view(l)),
                old(wffs)@,
                old(objects)@,
            ) == checking_of(steps@, final(wffs)@, final(objects)@),
            Err(e) => check_lines(
                context_of(
                    rows(names@),
                    formula_terms(hypotheses@),
                    rules(syntaxes@),
                    definition_models(definitions@),
                    axiom_models(axioms@),
                    theorem_models(theorems@),
                    references@,
                ),
                proof@.map_values(|l: ProofLine| line_view(l)),
                old(wffs)@,
                old(objects)@,
            ).error == Some(e@),
        },
{
    let ghost lines = proof@.map_values(|l: ProofLine| line_view(l));
    let ghost ctx = context_of(
        rows(names@),
        formula_terms(hypotheses@),
        rules(syntaxes@),
        definition_models(definitions@),
        axiom_models(axioms@),
        theorem_models(theorems@),
        references@,
    );
    let mut compiled_proof: Vec<LogicStep> = Vec::new();
    let mut i: usize = 0;
    assert(step_views(compiled_proof@) =~= Seq::<StepModel>::empty());
    assert(lines.take(0) =~= Seq::empty());
    while i < proof.len()
        invariant
            i <= proof.len(),
            lines == proof@.map_values(|l: ProofLine| line_view(l)),
            names@.len() == hypotheses@.len(),
            ctx == context_of(
                rows(names@),
                formula_terms(hypotheses@),
                rules(syntaxes@),
                definition_models(definitions@),
                axiom_models(axioms@),
                theorem_models(theorems@),
                references@,
            ),
            compiled_proof@.len() == i,
            check_lines(ctx, lines.take(i as int), old(wffs)@, old(objects)@) == checking_of(
                compiled_proof@,
                wffs@,
                objects@,
            ),
        decreases proof.len() - i,
    {
        proof {
            let next = lines.take(i + 1);
            assert(next.drop_last() == lines.take(i as int));
            assert(next.last() == line_view(proof@[i as int]));
            assert(check_lines(ctx, next, old(wffs)@, old(objects)@) == check_line(
                ctx,
                check_lines(ctx, next.drop_last(), old(wffs)@, old(objects)@),
                next.last(),
            ));
        }
        match check_proof_line(
            &proof[i],
            names,
            hypotheses,
            syntaxes,
            definitions,
            axioms,
            theorems,
            references,
            &mut compiled_proof,
            wffs,
            objects,
        ) {
            Ok(_) => {},
            Err(e) => {
                proof {
                    lemma_check_lines_stops(ctx, lines, old(wffs)@, old(objects)@, i + 1);
                }
                return Err(e);
            },
        }
        i += 1;
    }
    assert(lines.take(i as int) == lines);
    Ok(compiled_proof)
}

/// Compiles a theorem and checks its proof against the library. The result
/// is the theorem with its proof, each line a step, or the first error that
/// compiling and checking meet.
pub fn compile_theorem(
    file: MathFile,
    syntaxes: &Vec<Syntax>,
    definitions: &Vec<Definition>,
    axioms: &Vec<Axiom>,
    theorems: &Vec<Theorem>,
    references: &NameIndex,
) -> (r: Result<Theorem, CompileError>)
    ensures
        match r {
            Ok(theorem) => theorem_of(
                file@,
                rules(syntaxes@),
                definition_models(definitions@),
                axiom_models(axioms@),
                theorem_models(theorems@),
                references@,
            ) == Ok::<_, CompileErrorModel>(theorem@),
            Err(e) => theorem_of(
                file@,
                rules(syntaxes@),
                definition_models(definitions@),
                axiom_models(axioms@),
                theorem_models(theorems@),
                references@,
            ) == Err::<TheoremModel, _>(e@),
        },
{
    let ghost model = file@;
    let mut wffs = HashMap::<usize, WellFormedFormula>::new();
    let mut objects = HashMap::<usize, Object>::new();
    let (name, hypotheses, assertions, proof) = match file {
        MathFile::Theorem { name, hypotheses, assertions, proof } => (
            name,
            hypotheses,
            assertions,
            proof,
        ),
        _ => {
            return Err(CompileError::IncorrectFileType);
        },
    };
    let ghost given = hypotheses@.map_values(|h: (String, Formula)| named_view(h));
    let ghost given_formulas = given.map_values(|x: (Seq<char>, Seq<FormulaChar>)| x.1);
    let (names, formulas) = split_hypotheses(&hypotheses);
    let hypot_list = match compile_formulas(&formulas, syntaxes, &mut wffs, &mut objects) {
        Ok(list) => list,
        Err(e) => {
            return Err(e);
        },
    };
    let assertions = match compile_formulas(&assertions, syntaxes, &mut wffs, &mut objects) {
        Ok(list) => list,
        Err(e) => {
            return Err(e);
        },
    };
    proof {
        lemma_compile_all_lengths(given_formulas, Map::empty(), Map::empty(), rules(syntaxes@));
        assert(rows(names@).len() == names@.len());
        assert(views(formulas@).len() == given_formulas.len());
        assert(formula_terms(hypot_list@).len() == hypot_list@.len());
        assert(given_formulas.len() == hypotheses@.len());
    }
    let compiled_proof = match check_proof(
        &proof,
        &names,
        &hypot_list,
        syntaxes,
        definitions,
        axioms,
        theorems,
        references,
        &mut wffs,
        &mut objects,
    ) {
        Ok(steps) => steps,
        Err(e) => {
            return Err(e);
        },
    };
    let ghost terms = formula_terms(assertions@);
    let ghost steps = step_views(compiled_proof@);
    match first_unproven(&assertions, &compiled_proof) {
        Some(k) => {
            proof {
                let chosen = choose|c2: int| is_first_unproven(terms, steps, c2);
                assert(is_first_unproven(terms, steps, k as int));
                assert(is_first_unproven(terms, steps, chosen));
                if chosen < k {
                    assert(arrives_at(steps, terms[chosen]));
                } else if k < chosen {
                    assert(arrives_at(steps, terms[k as int]));
                }
            }
            return Err(CompileError::AssertionNotProven(k));
        },
        None => {
            assert forall|k: int| !is_first_unproven(terms, steps, k) by {
                if 0 <= k < terms.len() {
                    assert(arrives_at(steps, terms[k]));
                }
            }
        },
    }
    Ok(
        Theorem {
            name,
            hypotheses: hypot_list,
            assertions,
            proof: compiled_proof,
            distinct_wff_count: wffs.len(),
            distinct_object_count: objects.len(),
        },
    )
}

/// A batch that ends without error has compiled every formula.
pub proof fn lemma_compile_all_lengths(
    list: Seq<Seq<FormulaChar>>,
    formulas: Map<usize, WellFormedFormula>,
    objects: Map<usize, Object>,
    table: Seq<SyntaxModel>,
)
    ensures
        compile_all(list, formulas, objects, table).error is None ==> compile_all(
            list,
            formulas,
            objects,
            table,
        ).terms.len() == list.len(),
    decreases list.len(),
{
    if list.len() > 0 {
        lemma_compile_all_lengths(list.drop_last(), formulas, objects, table);
    }
}

} // verus!
