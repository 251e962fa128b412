//! What it means for a proof to hold in a library, that the verifier accepts
//! only proofs that hold, and that a proof that holds keeps holding when the
//! library grows.

use vstd::prelude::*;
use crate::compiling::math_file::compile_all;
use crate::compiling::invariants::keeps_names;
use crate::compiling::theorem::{
    arrives_at, bad_use, check_line, check_lines, citation, cited_by, cited_in, context_of,
    follows, is_first_beyond, is_first_unproven, last_named, lemma_compile_all_lengths,
    lemma_last_named_in_range, lowered, results_of, schema_of, theorem_of, Checking, Context,
};
use crate::compiling::types::{
    lookup, AxiomModel, DefinitionModel, LibraryModel, Object, Reference, StepModel, SyntaxModel,
    Term, TheoremModel, WellFormedFormula,
};
use crate::parsing::types::{FormulaChar, MathFileModel};

verus! {

/// The formulas at which the steps used by a step arrived.
pub open spec fn used_results(steps: Seq<StepModel>, used: Seq<usize>) -> Seq<Term> {
    Seq::new(used.len(), |j: int| steps[used[j] as int].result)
}

/// Step `i` is justified. A step that cites a hypothesis of the theorem uses
/// no step and arrives at that hypothesis. A step that cites a schema of the
/// library uses as many earlier steps as the schema has hypotheses, and the
/// formula it arrives at follows from theirs by the schema.
pub open spec fn step_justified(
    hypotheses: Seq<Term>,
    steps: Seq<StepModel>,
    i: int,
    definitions: Seq<DefinitionModel>,
    axioms: Seq<AxiomModel>,
    theorems: Seq<TheoremModel>,
) -> bool {
    let step = steps[i];
    match step.cited {
        Reference::HypothesisReference(k) => k < hypotheses.len() && step.used.len() == 0
            && step.result == hypotheses[k as int],
        _ => match schema_of(step.cited, definitions, axioms, theorems) {
            None => false,
            Some(schema) => {
                &&& step.used.len() == schema.hypotheses.len()
                &&& forall|j: int| 0 <= j < step.used.len() ==> #[trigger] step.used[j] < i
                &&& follows(schema, step.result, used_results(steps, step.used))
            },
        },
    }
}

/// Every step is justified.
pub open spec fn steps_justified(
    hypotheses: Seq<Term>,
    steps: Seq<StepModel>,
    definitions: Seq<DefinitionModel>,
    axioms: Seq<AxiomModel>,
    theorems: Seq<TheoremModel>,
) -> bool {
    forall|i: int|
        0 <= i < steps.len() ==> #[trigger] step_justified(
            hypotheses,
            steps,
            i,
            definitions,
            axioms,
            theorems,
        )
}

/// The proof of the theorem holds in the library: every step is justified,
/// and a step arrives at each assertion.
pub open spec fn proof_holds(
    theorem: TheoremModel,
    definitions: Seq<DefinitionModel>,
    axioms: Seq<AxiomModel>,
    theorems: Seq<TheoremModel>,
) -> bool {
    &&& steps_justified(theorem.hypotheses, theorem.proof, definitions, axioms, theorems)
    &&& forall|k: int|
        0 <= k < theorem.assertions.len() ==> arrives_at(theorem.proof, #[trigger] theorem.assertions[k])
}

/// `longer` begins with `shorter`.
pub open spec fn begins_with<T>(longer: Seq<T>, shorter: Seq<T>) -> bool {
    shorter.len() <= longer.len() && forall|i: int|
        0 <= i < shorter.len() ==> #[trigger] longer[i] == shorter[i]
}

/// Where no used step is the first beyond the steps done, none is beyond.
pub proof fn lemma_none_beyond(used: Seq<usize>, done: nat, n: int)
    requires
        0 <= n <= used.len(),
        forall|j: int| !is_first_beyond(used, done, j),
    ensures
        forall|j: int| 0 <= j < n ==> #[trigger] used[j] <= done,
    decreases n,
{
    if n > 0 {
        lemma_none_beyond(used, done, n - 1);
        assert(!is_first_beyond(used, done, n - 1));
    }
}

/// Where no assertion is the first at which no step arrives, a step arrives
/// at each.
pub proof fn lemma_none_unproven(assertions: Seq<Term>, steps: Seq<StepModel>, n: int)
    requires
        0 <= n <= assertions.len(),
        forall|k: int| !is_first_unproven(assertions, steps, k),
    ensures
        forall|k: int| 0 <= k < n ==> arrives_at(steps, #[trigger] assertions[k]),
    decreases n,
{
    if n > 0 {
        lemma_none_unproven(assertions, steps, n - 1);
        assert(!is_first_unproven(assertions, steps, n - 1));
    }
}

/// What a line cites stands in the library.
pub proof fn lemma_cited_stands(
    definitions: Seq<DefinitionModel>,
    axioms: Seq<AxiomModel>,
    theorems: Seq<TheoremModel>,
    index: Seq<(Seq<char>, Reference)>,
    name: Seq<char>,
    number: usize,
)
    ensures
        cited_in(definitions, axioms, theorems, index, name, number) matches Ok(cited) ==> schema_of(
            cited,
            definitions,
            axioms,
            theorems,
        ) is Some && !(cited is HypothesisReference),
{
}

/// A line that is accepted adds one step, and that step is justified.
pub proof fn lemma_check_line_justified(
    ctx: Context,
    st: Checking,
    line: (usize, Seq<usize>, Seq<char>, Seq<FormulaChar>),
)
    requires
        st.error is None,
        ctx.names.len() == ctx.hypotheses.len(),
        ctx.names.len() <= usize::MAX,
        steps_justified(ctx.hypotheses, st.steps, ctx.definitions, ctx.axioms, ctx.theorems),
    ensures
        check_line(ctx, st, line).error is None ==> check_line(ctx, st, line).steps.len()
            == st.steps.len() + 1 && steps_justified(
            ctx.hypotheses,
            check_line(ctx, st, line).steps,
            ctx.definitions,
            ctx.axioms,
            ctx.theorems,
        ),
{
    reveal(check_line);
    let after = check_line(ctx, st, line);
    if after.error is None {
        let i = st.steps.len() as int;
        let done = st.steps.len();
        let used = line.1;
        lemma_last_named_in_range(ctx.names, line.2);
        lemma_cited_stands(ctx.definitions, ctx.axioms, ctx.theorems, ctx.index, line.2, line.0);
        assert(after.steps.len() == i + 1);
        let step = after.steps[i];
        assert forall|q: int| 0 <= q < after.steps.len() implies #[trigger] step_justified(
            ctx.hypotheses,
            after.steps,
            q,
            ctx.definitions,
            ctx.axioms,
            ctx.theorems,
        ) by {
            if q < i {
                assert(step_justified(
                    ctx.hypotheses,
                    st.steps,
                    q,
                    ctx.definitions,
                    ctx.axioms,
                    ctx.theorems,
                ));
                assert(after.steps[q] == st.steps[q]);
                let earlier = st.steps[q];
                if !(earlier.cited is HypothesisReference) {
                    assert(used_results(after.steps, earlier.used) =~= used_results(
                        st.steps,
                        earlier.used,
                    )) by {
                        assert forall|j: int| 0 <= j < earlier.used.len() implies after.steps[earlier.used[j] as int]
                            == st.steps[earlier.used[j] as int] by {
                            assert(earlier.used[j] < q);
                        }
                    }
                }
            } else {
                if last_named(ctx.names, line.2) is None {
                    assert(bad_use(used, done) is None);
                    assert(!used.contains(0));
                    assert forall|j: int| !is_first_beyond(used, done, j) by {}
                    lemma_none_beyond(used, done, used.len() as int);
                    assert forall|j: int| 0 <= j < used.len() implies 1 <= #[trigger] used[j] <= i by {
                        assert(used.contains(used[j]));
                    }
                    assert(step.used == lowered(used));
                    assert forall|j: int| 0 <= j < step.used.len() implies #[trigger] step.used[j] < i by {
                        assert(1 <= used[j] <= i);
                    }
                    assert(used_results(after.steps, step.used) =~= results_of(st.steps, used)) by {
                        assert forall|j: int| 0 <= j < used.len() implies after.steps[step.used[j] as int].result
                            == st.steps[used[j] - 1].result by {
                            assert(1 <= used[j] <= i);
                        }
                    }
                }
            }
        }
    }
}

/// The lines that are accepted make steps that are justified, one per line.
pub proof fn lemma_check_lines_justified(
    ctx: Context,
    lines: Seq<(usize, Seq<usize>, Seq<char>, Seq<FormulaChar>)>,
    formulas: Map<usize, WellFormedFormula>,
    objects: Map<usize, Object>,
)
    requires
        ctx.names.len() == ctx.hypotheses.len(),
        ctx.names.len() <= usize::MAX,
    ensures
        check_lines(ctx, lines, formulas, objects).error is None ==> check_lines(
            ctx,
            lines,
            formulas,
            objects,
        ).steps.len() == lines.len() && steps_justified(
            ctx.hypotheses,
            check_lines(ctx, lines, formulas, objects).steps,
            ctx.definitions,
            ctx.axioms,
            ctx.theorems,
        ),
    decreases lines.len(),
{
    if lines.len() > 0 {
        lemma_check_lines_justified(ctx, lines.drop_last(), formulas, objects);
        let before = check_lines(ctx, lines.drop_last(), formulas, objects);
        if before.error is None {
            lemma_check_line_justified(ctx, before, lines.last());
        }
    }
}

/// The verifier is sound: the proof of a theorem that it accepts holds in
/// the library against which it was checked.
pub proof fn lemma_accepted_proof_holds(
    file: MathFileModel,
    table: Seq<SyntaxModel>,
    definitions: Seq<DefinitionModel>,
    axioms: Seq<AxiomModel>,
    theorems: Seq<TheoremModel>,
    index: Seq<(Seq<char>, Reference)>,
)
    requires
        file matches MathFileModel::Theorem { hypotheses, .. } ==> hypotheses.len() <= usize::MAX,
    ensures
        theorem_of(file, table, definitions, axioms, theorems, index) matches Ok(theorem)
            ==> proof_holds(theorem, definitions, axioms, theorems),
{
    match file {
        MathFileModel::Theorem { name, hypotheses, assertions, proof } => {
            let given = hypotheses.map_values(|x: (Seq<char>, Seq<FormulaChar>)| x.1);
            let h = compile_all(given, Map::empty(), Map::empty(), table);
            let a = compile_all(assertions, h.formulas, h.objects, table);
            let ctx = context_of(
                hypotheses.map_values(|x: (Seq<char>, Seq<FormulaChar>)| x.0),
                h.terms,
                table,
                definitions,
                axioms,
                theorems,
                index,
            );
            let c = check_lines(ctx, proof, a.formulas, a.objects);
            if theorem_of(file, table, definitions, axioms, theorems, index) is Ok {
                lemma_compile_all_lengths(given, Map::empty(), Map::empty(), table);
                lemma_check_lines_justified(ctx, proof, a.formulas, a.objects);
                assert forall|k: int| !is_first_unproven(a.terms, c.steps, k) by {}
                lemma_none_unproven(a.terms, c.steps, a.terms.len() as int);
            }
        },
        _ => {},
    }
}

/// A proof that holds in a library holds in every library that begins with
/// it: what a step cites stands where it stood and says what it said.
pub proof fn lemma_proof_holds_in_longer_library(
    theorem: TheoremModel,
    definitions: Seq<DefinitionModel>,
    axioms: Seq<AxiomModel>,
    theorems: Seq<TheoremModel>,
    definitions2: Seq<DefinitionModel>,
    axioms2: Seq<AxiomModel>,
    theorems2: Seq<TheoremModel>,
)
    requires
        proof_holds(theorem, definitions, axioms, theorems),
        begins_with(definitions2, definitions),
        begins_with(axioms2, axioms),
        begins_with(theorems2, theorems),
    ensures
        proof_holds(theorem, definitions2, axioms2, theorems2),
{
    assert forall|i: int| 0 <= i < theorem.proof.len() implies #[trigger] step_justified(
        theorem.hypotheses,
        theorem.proof,
        i,
        definitions2,
        axioms2,
        theorems2,
    ) by {
        assert(step_justified(theorem.hypotheses, theorem.proof, i, definitions, axioms, theorems));
        let cited = theorem.proof[i].cited;
        match cited {
            Reference::HypothesisReference(_) => {},
            Reference::DefinitionReference(d) => {
                assert(definitions2[d as int] == definitions[d as int]);
            },
            Reference::AxiomReference(a, _) => {
                assert(axioms2[a as int] == axioms[a as int]);
            },
            Reference::TheoremReference(t, _) => {
                assert(theorems2[t as int] == theorems[t as int]);
            },
        }
    }
}

impl LibraryModel {
    /// The library is accepted: the proof of each of its theorems holds in
    /// the library as it stood before that theorem.
    pub open spec fn accepted(self) -> bool {
        forall|t: int|
            0 <= t < self.theorems.len() ==> proof_holds(
                #[trigger] self.theorems[t],
                self.definitions,
                self.axioms,
                self.theorems.take(t),
            )
    }

    /// `self` is `before` with more at the ends of its lists.
    pub open spec fn grown_from(self, before: LibraryModel) -> bool {
        &&& begins_with(self.syntaxes, before.syntaxes)
        &&& begins_with(self.definitions, before.definitions)
        &&& begins_with(self.axioms, before.axioms)
        &&& begins_with(self.theorems, before.theorems)
    }
}

/// Verification monotonicity. An accepted library stays accepted when it
/// grows by entries that are themselves verified: no entry is changed or
/// moved, the proofs of the theorems it held keep holding, and all that is
/// asked is that the proof of each new theorem holds in the library as it
/// stood before that theorem.
pub proof fn lemma_accepted_library_grows(before: LibraryModel, after: LibraryModel)
    requires
        before.accepted(),
        after.grown_from(before),
        forall|t: int|
            before.theorems.len() <= t < after.theorems.len() ==> proof_holds(
                #[trigger] after.theorems[t],
                after.definitions,
                after.axioms,
                after.theorems.take(t),
            ),
    ensures
        after.accepted(),
{
    assert forall|t: int| 0 <= t < after.theorems.len() implies proof_holds(
        #[trigger] after.theorems[t],
        after.definitions,
        after.axioms,
        after.theorems.take(t),
    ) by {
        if t < before.theorems.len() {
            assert(after.theorems[t] == before.theorems[t]);
            assert(begins_with(after.theorems.take(t), before.theorems.take(t))) by {
                assert forall|i: int| 0 <= i < before.theorems.take(t).len() implies #[trigger] after.theorems.take(
                    t,
                )[i] == before.theorems.take(t)[i] by {
                    assert(after.theorems[i] == before.theorems[i]);
                }
            }
            lemma_proof_holds_in_longer_library(
                before.theorems[t],
                before.definitions,
                before.axioms,
                before.theorems.take(t),
                after.definitions,
                after.axioms,
                after.theorems.take(t),
            );
        }
    }
}

/// The context of a proof in a longer library.
pub open spec fn in_longer_library(
    ctx: Context,
    definitions: Seq<DefinitionModel>,
    axioms: Seq<AxiomModel>,
    theorems: Seq<TheoremModel>,
    index: Seq<(Seq<char>, Reference)>,
) -> Context {
    Context { definitions, axioms, theorems, index, ..ctx }
}

/// What a line cites in a library, it cites in every library that begins
/// with that library and whose index keeps the names: the same place, and
/// the same schema there.
pub proof fn lemma_cited_in_longer_library(
    definitions: Seq<DefinitionModel>,
    axioms: Seq<AxiomModel>,
    theorems: Seq<TheoremModel>,
    index: Seq<(Seq<char>, Reference)>,
    definitions2: Seq<DefinitionModel>,
    axioms2: Seq<AxiomModel>,
    theorems2: Seq<TheoremModel>,
    index2: Seq<(Seq<char>, Reference)>,
    name: Seq<char>,
    number: usize,
)
    requires
        begins_with(definitions2, definitions),
        begins_with(axioms2, axioms),
        begins_with(theorems2, theorems),
        keeps_names(index2, index),
        cited_in(definitions, axioms, theorems, index, name, number) is Ok,
    ensures
        cited_in(definitions2, axioms2, theorems2, index2, name, number) == cited_in(
            definitions,
            axioms,
            theorems,
            index,
            name,
            number,
        ),
        schema_of(
            cited_in(definitions, axioms, theorems, index, name, number)->Ok_0,
            definitions2,
            axioms2,
            theorems2,
        ) == schema_of(
            cited_in(definitions, axioms, theorems, index, name, number)->Ok_0,
            definitions,
            axioms,
            theorems,
        ),
{
    let found = citation(name)->0;
    let base = found.0;
    assert(lookup(index, base) is Some);
    assert(lookup(index2, base) == lookup(index, base));
    match lookup(index, base)->0 {
        Reference::DefinitionReference(d) => {
            assert(definitions2[d as int] == definitions[d as int]);
        },
        Reference::AxiomReference(a, _) => {
            assert(axioms2[a as int] == axioms[a as int]);
        },
        Reference::TheoremReference(t, _) => {
            assert(theorems2[t as int] == theorems[t as int]);
        },
        Reference::HypothesisReference(_) => {},
    }
}

/// A line that is accepted in a library is accepted in every library that
/// begins with that library and whose index keeps the names, and gives the
/// same step.
pub proof fn lemma_check_line_in_longer_library(
    ctx: Context,
    st: Checking,
    line: (usize, Seq<usize>, Seq<char>, Seq<FormulaChar>),
    definitions2: Seq<DefinitionModel>,
    axioms2: Seq<AxiomModel>,
    theorems2: Seq<TheoremModel>,
    index2: Seq<(Seq<char>, Reference)>,
)
    requires
        begins_with(definitions2, ctx.definitions),
        begins_with(axioms2, ctx.axioms),
        begins_with(theorems2, ctx.theorems),
        keeps_names(index2, ctx.index),
        st.error is None,
        check_line(ctx, st, line).error is None,
    ensures
        check_line(in_longer_library(ctx, definitions2, axioms2, theorems2, index2), st, line)
            == check_line(ctx, st, line),
{
    reveal(check_line);
    let ctx2 = in_longer_library(ctx, definitions2, axioms2, theorems2, index2);
    if line.0 == st.steps.len() + 1 && last_named(ctx.names, line.2) is None {
        assert(cited_by(ctx, line.2, line.0) is Ok);
        lemma_cited_in_longer_library(
            ctx.definitions,
            ctx.axioms,
            ctx.theorems,
            ctx.index,
            definitions2,
            axioms2,
            theorems2,
            index2,
            line.2,
            line.0,
        );
        assert(cited_by(ctx2, line.2, line.0) == cited_by(ctx, line.2, line.0));
    }
}

/// A proof whose lines are all accepted in a library is accepted line by line
/// in every library that begins with that library and whose index keeps the
/// names, with the same steps.
pub proof fn lemma_check_lines_in_longer_library(
    ctx: Context,
    lines: Seq<(usize, Seq<usize>, Seq<char>, Seq<FormulaChar>)>,
    formulas: Map<usize, WellFormedFormula>,
    objects: Map<usize, Object>,
    definitions2: Seq<DefinitionModel>,
    axioms2: Seq<AxiomModel>,
    theorems2: Seq<TheoremModel>,
    index2: Seq<(Seq<char>, Reference)>,
)
    requires
        begins_with(definitions2, ctx.definitions),
        begins_with(axioms2, ctx.axioms),
        begins_with(theorems2, ctx.theorems),
        keeps_names(index2, ctx.index),
        check_lines(ctx, lines, formulas, objects).error is None,
    ensures
        check_lines(
            in_longer_library(ctx, definitions2, axioms2, theorems2, index2),
            lines,
            formulas,
            objects,
        ) == check_lines(ctx, lines, formulas, objects),
    decreases lines.len(),
{
    if lines.len() > 0 {
        let before = check_lines(ctx, lines.drop_last(), formulas, objects);
        assert(before.error is None);
        lemma_check_lines_in_longer_library(
            ctx,
            lines.drop_last(),
            formulas,
            objects,
            definitions2,
            axioms2,
            theorems2,
            index2,
        );
        lemma_check_line_in_longer_library(
            ctx,
            before,
            lines.last(),
            definitions2,
            axioms2,
            theorems2,
            index2,
        );
    }
}

/// A theorem that a library accepts is accepted, and is the same theorem, in
/// every library with the same syntax table that begins with that library
/// and whose index keeps the names: nothing that joins the library later
/// changes what was verified before.
pub proof fn lemma_theorem_stands_in_longer_library(
    file: MathFileModel,
    table: Seq<SyntaxModel>,
    definitions: Seq<DefinitionModel>,
    axioms: Seq<AxiomModel>,
    theorems: Seq<TheoremModel>,
    index: Seq<(Seq<char>, Reference)>,
    definitions2: Seq<DefinitionModel>,
    axioms2: Seq<AxiomModel>,
    theorems2: Seq<TheoremModel>,
    index2: Seq<(Seq<char>, Reference)>,
)
    requires
        begins_with(definitions2, definitions),
        begins_with(axioms2, axioms),
        begins_with(theorems2, theorems),
        keeps_names(index2, index),
        theorem_of(file, table, definitions, axioms, theorems, index) is Ok,
    ensures
        theorem_of(file, table, definitions2, axioms2, theorems2, index2) == theorem_of(
            file,
            table,
            definitions,
            axioms,
            theorems,
            index,
        ),
{
    match file {
        MathFileModel::Theorem { name, hypotheses, assertions, proof } => {
            let given = hypotheses.map_values(|x: (Seq<char>, Seq<FormulaChar>)| x.1);
            let h = compile_all(given, Map::empty(), Map::empty(), table);
            let a = compile_all(assertions, h.formulas, h.objects, table);
            let ctx = context_of(
                hypotheses.map_values(|x: (Seq<char>, Seq<FormulaChar>)| x.0),
                h.terms,
                table,
                definitions,
                axioms,
                theorems,
                index,
            );
            let ctx2 = context_of(
                hypotheses.map_values(|x: (Seq<char>, Seq<FormulaChar>)| x.0),
                h.terms,
                table,
                definitions2,
                axioms2,
                theorems2,
                index2,
            );
            assert(ctx2 == in_longer_library(ctx, definitions2, axioms2, theorems2, index2));
            lemma_check_lines_in_longer_library(
                ctx,
                proof,
                a.formulas,
                a.objects,
                definitions2,
                axioms2,
                theorems2,
                index2,
            );
        },
        _ => {},
    }
}

} // verus!
