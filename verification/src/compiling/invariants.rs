//! What holds of every library that the driver builds: its rules are well
//! formed and apart, its trees fit its rules, its proofs hold, and no two of
//! its definitions, axioms and theorems have one name.

use vstd::prelude::*;
use crate::compiling::compiler::axiom_compiled;
use crate::compiling::formula::{compiled, leaves_fit, lemma_compiled_fits_table};
use crate::compiling::math_file::{compile_all, lemma_compile_all_fits, unambiguous};
use crate::compiling::theorem::{check_line, check_lines, context_of, theorem_of, Checking, Context};
use crate::compiling::types::{
    lookup, AxiomModel, DefinitionModel, LibraryModel, Object, Reference, StepModel, SyntaxModel,
    Term, TheoremModel, WellFormedFormula,
};
use crate::compiling::validity::begins_with;
use crate::parsing::types::{FormulaChar, MathFileModel};

verus! {

/// Every tree of the run fits the table.
pub open spec fn all_fit(ts: Seq<Term>, table: Seq<SyntaxModel>) -> bool {
    forall|i: int| 0 <= i < ts.len() ==> (#[trigger] ts[i]).fits_table(table)
}

/// The formula of every step fits the table.
pub open spec fn steps_fit(steps: Seq<StepModel>, table: Seq<SyntaxModel>) -> bool {
    forall|i: int| 0 <= i < steps.len() ==> (#[trigger] steps[i]).result.fits_table(table)
}

impl AxiomModel {
    /// Every formula of the axiom fits the table.
    pub open spec fn fits(self, table: Seq<SyntaxModel>) -> bool {
        all_fit(self.hypotheses, table) && all_fit(self.assertions, table)
    }
}

impl TheoremModel {
    /// Every formula of the theorem and of its proof fits the table.
    pub open spec fn fits(self, table: Seq<SyntaxModel>) -> bool {
        all_fit(self.hypotheses, table) && all_fit(self.assertions, table) && steps_fit(
            self.proof,
            table,
        )
    }
}

impl LibraryModel {
    /// In every rule the slot ids are dense and the arities are the numbers
    /// of distinct slots.
    pub open spec fn rules_well_formed(self) -> bool {
        forall|i: int| 0 <= i < self.syntaxes.len() ==> (#[trigger] self.syntaxes[i]).well_formed()
    }

    /// Every node of every tree names a rule of the table and has as many
    /// children of each kind as the rule has slots.
    pub open spec fn formulas_fit(self) -> bool {
        &&& forall|i: int|
            0 <= i < self.definitions.len() ==> (#[trigger] self.definitions[i]).definition.fits_table(
                self.syntaxes,
            )
        &&& forall|i: int| 0 <= i < self.axioms.len() ==> (#[trigger] self.axioms[i]).fits(self.syntaxes)
        &&& forall|i: int|
            0 <= i < self.theorems.len() ==> (#[trigger] self.theorems[i]).fits(self.syntaxes)
    }

    /// The library is well built: its rules are well formed, no rule holds
    /// another, its trees fit its rules, and the proof of each theorem holds.
    pub open spec fn well_built(self) -> bool {
        &&& self.syntaxes.len() <= usize::MAX
        &&& self.rules_well_formed()
        &&& unambiguous(self.syntaxes)
        &&& self.formulas_fit()
        &&& self.accepted()
    }

    /// No two of the definitions, axioms and theorems have one name.
    pub open spec fn names_unique(self) -> bool {
        &&& forall|i: int, j: int|
            0 <= i < j < self.definitions.len() ==> (#[trigger] self.definitions[i]).name != (
            #[trigger] self.definitions[j]).name
        &&& forall|i: int, j: int|
            0 <= i < j < self.axioms.len() ==> (#[trigger] self.axioms[i]).name != (
            #[trigger] self.axioms[j]).name
        &&& forall|i: int, j: int|
            0 <= i < j < self.theorems.len() ==> (#[trigger] self.theorems[i]).name != (
            #[trigger] self.theorems[j]).name
        &&& forall|i: int, j: int|
            0 <= i < self.definitions.len() && 0 <= j < self.axioms.len() ==> (
            #[trigger] self.definitions[i]).name != (#[trigger] self.axioms[j]).name
        &&& forall|i: int, j: int|
            0 <= i < self.definitions.len() && 0 <= j < self.theorems.len() ==> (
            #[trigger] self.definitions[i]).name != (#[trigger] self.theorems[j]).name
        &&& forall|i: int, j: int|
            0 <= i < self.axioms.len() && 0 <= j < self.theorems.len() ==> (
            #[trigger] self.axioms[i]).name != (#[trigger] self.theorems[j]).name
    }

    /// The index agrees with the library: the name of every definition,
    /// axiom and theorem stands in it for the place of that very entry.
    pub open spec fn indexed_by(self, index: Seq<(Seq<char>, Reference)>) -> bool {
        &&& self.definitions.len() <= usize::MAX
        &&& self.axioms.len() <= usize::MAX
        &&& self.theorems.len() <= usize::MAX
        &&& forall|i: int|
            0 <= i < self.definitions.len() ==> lookup(index, (#[trigger] self.definitions[i]).name)
                == Some(Reference::DefinitionReference(i as usize))
        &&& forall|i: int|
            0 <= i < self.axioms.len() ==> lookup(index, (#[trigger] self.axioms[i]).name) == Some(
                Reference::AxiomReference(i as usize, 0),
            )
        &&& forall|i: int|
            0 <= i < self.theorems.len() ==> lookup(index, (#[trigger] self.theorems[i]).name)
                == Some(Reference::TheoremReference(i as usize, 0))
    }

    /// The library is well formed: it is well built, and no two of its
    /// definitions, axioms and theorems have one name.
    pub open spec fn well_formed(self) -> bool {
        self.well_built() && self.names_unique()
    }
}

/// Names that an index tells apart are apart: in a library with which an
/// index agrees, no two definitions, axioms and theorems have one name.
pub proof fn lemma_indexed_names_are_unique(lib: LibraryModel, index: Seq<(Seq<char>, Reference)>)
    requires
        lib.indexed_by(index),
    ensures
        lib.names_unique(),
{
    assert forall|i: int, j: int| 0 <= i < j < lib.definitions.len() implies (
    #[trigger] lib.definitions[i]).name != (#[trigger] lib.definitions[j]).name by {
        assert(i as usize != j as usize);
    }
    assert forall|i: int, j: int| 0 <= i < j < lib.axioms.len() implies (#[trigger] lib.axioms[i]).name
        != (#[trigger] lib.axioms[j]).name by {
        assert(i as usize != j as usize);
    }
    assert forall|i: int, j: int| 0 <= i < j < lib.theorems.len() implies (
    #[trigger] lib.theorems[i]).name != (#[trigger] lib.theorems[j]).name by {
        assert(i as usize != j as usize);
    }
}

/// A name under which no entry stands is not found.
pub proof fn lemma_lookup_absent(index: Seq<(Seq<char>, Reference)>, name: Seq<char>)
    requires
        forall|k: int| 0 <= k < index.len() ==> (#[trigger] index[k]).0 != name,
    ensures
        lookup(index, name) is None,
    decreases index.len(),
{
    if index.len() > 0 {
        assert(index.last() == index[index.len() - 1]);
        assert forall|k: int| 0 <= k < index.drop_last().len() implies (
        #[trigger] index.drop_last()[k]).0 != name by {
            assert(index.drop_last()[k] == index[k]);
        }
        lemma_lookup_absent(index.drop_last(), name);
    }
}

/// What a name stands for after one more name is entered.
pub proof fn lemma_lookup_after_push(
    index: Seq<(Seq<char>, Reference)>,
    name: Seq<char>,
    place: Reference,
    other: Seq<char>,
)
    ensures
        lookup(index.push((name, place)), other) == if other == name {
            Some(place)
        } else {
            lookup(index, other)
        },
{
    let longer = index.push((name, place));
    assert(longer.last() == (name, place));
    assert(longer.drop_last() =~= index);
}

/// The longer index keeps every name of the other: what a name stands for in
/// the other, it stands for in the longer one.
pub open spec fn keeps_names(
    longer: Seq<(Seq<char>, Reference)>,
    index: Seq<(Seq<char>, Reference)>,
) -> bool {
    forall|name: Seq<char>|
        (#[trigger] lookup(index, name)) is Some ==> lookup(longer, name) == lookup(index, name)
}

/// A name entered in an index that does not hold it changes what no other
/// name stands for.
pub proof fn lemma_entry_keeps_names(
    index: Seq<(Seq<char>, Reference)>,
    name: Seq<char>,
    place: Reference,
)
    requires
        lookup(index, name) is None,
    ensures
        keeps_names(index.push((name, place)), index),
{
    assert forall|other: Seq<char>| (#[trigger] lookup(index, other)) is Some implies lookup(
        index.push((name, place)),
        other,
    ) == lookup(index, other) by {
        lemma_lookup_after_push(index, name, place, other);
    }
}

/// A library with which an index agrees still agrees with it when one entry
/// joins the library under a name that the index does not hold, and the
/// name is entered in the index for the place of the new entry.
pub proof fn lemma_indexed_after_entry(
    lib: LibraryModel,
    index: Seq<(Seq<char>, Reference)>,
    after: LibraryModel,
    name: Seq<char>,
    place: Reference,
)
    requires
        lib.indexed_by(index),
        lookup(index, name) is None,
        after.definitions.len() <= usize::MAX,
        after.axioms.len() <= usize::MAX,
        after.theorems.len() <= usize::MAX,
        ({
            ||| (exists|d: DefinitionModel|
                d.name == name && after.definitions == lib.definitions.push(d)
                    && after.axioms == lib.axioms && after.theorems == lib.theorems && place
                    == Reference::DefinitionReference(lib.definitions.len() as usize))
            ||| (exists|a: AxiomModel|
                a.name == name && after.axioms == lib.axioms.push(a) && after.definitions
                    == lib.definitions && after.theorems == lib.theorems && place
                    == Reference::AxiomReference(lib.axioms.len() as usize, 0))
            ||| (exists|t: TheoremModel|
                t.name == name && after.theorems == lib.theorems.push(t) && after.definitions
                    == lib.definitions && after.axioms == lib.axioms && place
                    == Reference::TheoremReference(lib.theorems.len() as usize, 0))
        }),
    ensures
        after.indexed_by(index.push((name, place))),
        after.names_unique(),
{
    let longer = index.push((name, place));
    assert forall|i: int| 0 <= i < after.definitions.len() implies lookup(
        longer,
        (#[trigger] after.definitions[i]).name,
    ) == Some(Reference::DefinitionReference(i as usize)) by {
        lemma_lookup_after_push(index, name, place, after.definitions[i].name);
        if i < lib.definitions.len() {
            assert(after.definitions[i] == lib.definitions[i]);
        }
    }
    assert forall|i: int| 0 <= i < after.axioms.len() implies lookup(
        longer,
        (#[trigger] after.axioms[i]).name,
    ) == Some(Reference::AxiomReference(i as usize, 0)) by {
        lemma_lookup_after_push(index, name, place, after.axioms[i].name);
        if i < lib.axioms.len() {
            assert(after.axioms[i] == lib.axioms[i]);
        }
    }
    assert forall|i: int| 0 <= i < after.theorems.len() implies lookup(
        longer,
        (#[trigger] after.theorems[i]).name,
    ) == Some(Reference::TheoremReference(i as usize, 0)) by {
        lemma_lookup_after_push(index, name, place, after.theorems[i].name);
        if i < lib.theorems.len() {
            assert(after.theorems[i] == lib.theorems[i]);
        }
    }
    lemma_indexed_names_are_unique(after, longer);
}

/// A tree that fits a table fits every table that begins with it.
pub proof fn lemma_fits_longer_table(t: Term, table: Seq<SyntaxModel>, longer: Seq<SyntaxModel>)
    requires
        t.fits_table(table),
        begins_with(longer, table),
    ensures
        t.fits_table(longer),
    decreases t,
{
    match t {
        Term::Atomic { .. } => {},
        Term::Composite { sort, rule, formulas, objects } => {
            assert(longer[rule as int] == table[rule as int]);
            assert forall|i: int| 0 <= i < formulas.len() implies (#[trigger] formulas[i]).fits_table(
                longer,
            ) by {
                lemma_fits_longer_table(formulas[i], table, longer);
            }
            assert forall|i: int| 0 <= i < objects.len() implies (#[trigger] objects[i]).fits_table(
                longer,
            ) by {
                lemma_fits_longer_table(objects[i], table, longer);
            }
        },
    }
}

/// Trees that fit a table fit every table that begins with it.
pub proof fn lemma_all_fit_longer_table(
    ts: Seq<Term>,
    table: Seq<SyntaxModel>,
    longer: Seq<SyntaxModel>,
)
    requires
        all_fit(ts, table),
        begins_with(longer, table),
    ensures
        all_fit(ts, longer),
{
    assert forall|i: int| 0 <= i < ts.len() implies (#[trigger] ts[i]).fits_table(longer) by {
        lemma_fits_longer_table(ts[i], table, longer);
    }
}

/// The trees of a library fit its table still when the table has grown.
pub proof fn lemma_formulas_fit_longer_table(lib: LibraryModel, longer: Seq<SyntaxModel>)
    requires
        lib.formulas_fit(),
        begins_with(longer, lib.syntaxes),
    ensures
        (LibraryModel { syntaxes: longer, ..lib }).formulas_fit(),
{
    let after = LibraryModel { syntaxes: longer, ..lib };
    assert forall|i: int| 0 <= i < after.definitions.len() implies (#[trigger] after.definitions[i]).definition.fits_table(
        longer,
    ) by {
        lemma_fits_longer_table(lib.definitions[i].definition, lib.syntaxes, longer);
    }
    assert forall|i: int| 0 <= i < after.axioms.len() implies (#[trigger] after.axioms[i]).fits(
        longer,
    ) by {
        assert(lib.axioms[i].fits(lib.syntaxes));
        lemma_all_fit_longer_table(lib.axioms[i].hypotheses, lib.syntaxes, longer);
        lemma_all_fit_longer_table(lib.axioms[i].assertions, lib.syntaxes, longer);
    }
    assert forall|i: int| 0 <= i < after.theorems.len() implies (#[trigger] after.theorems[i]).fits(
        longer,
    ) by {
        let t = lib.theorems[i];
        assert(t.fits(lib.syntaxes));
        lemma_all_fit_longer_table(t.hypotheses, lib.syntaxes, longer);
        lemma_all_fit_longer_table(t.assertions, lib.syntaxes, longer);
        assert forall|k: int| 0 <= k < t.proof.len() implies (#[trigger] t.proof[k]).result.fits_table(
            longer,
        ) by {
            lemma_fits_longer_table(t.proof[k].result, lib.syntaxes, longer);
        }
    }
}

/// The axiom that is compiled fits the table.
pub proof fn lemma_compiled_axiom_fits(file: MathFileModel, table: Seq<SyntaxModel>)
    requires
        table.len() <= usize::MAX,
    ensures
        axiom_compiled(file, table) matches Ok(a) ==> a.fits(table),
{
    match file {
        MathFileModel::Axiom { name, hypotheses, assertions } => {
            lemma_compile_all_fits(hypotheses, Map::empty(), Map::empty(), table);
            let h = compile_all(hypotheses, Map::empty(), Map::empty(), table);
            lemma_compile_all_fits(assertions, h.formulas, h.objects, table);
        },
        _ => {},
    }
}

/// A line that is accepted makes a step whose formula fits the table.
pub proof fn lemma_check_line_fits(
    ctx: Context,
    st: Checking,
    line: (usize, Seq<usize>, Seq<char>, Seq<FormulaChar>),
)
    requires
        ctx.table.len() <= usize::MAX,
        st.error is None,
        leaves_fit(st.formulas, st.objects, ctx.table),
        steps_fit(st.steps, ctx.table),
    ensures
        check_line(ctx, st, line).error is None ==> leaves_fit(
            check_line(ctx, st, line).formulas,
            check_line(ctx, st, line).objects,
            ctx.table,
        ) && steps_fit(check_line(ctx, st, line).steps, ctx.table),
{
    reveal(check_line);
    let after = check_line(ctx, st, line);
    if after.error is None {
        lemma_compiled_fits_table(line.3, st.formulas, st.objects, ctx.table);
        assert forall|i: int| 0 <= i < after.steps.len() implies (#[trigger] after.steps[i]).result.fits_table(
            ctx.table,
        ) by {
            if i < st.steps.len() {
                assert(after.steps[i] == st.steps[i]);
            }
        }
    }
}

/// The lines that are accepted make steps whose formulas fit the table.
pub proof fn lemma_check_lines_fit(
    ctx: Context,
    lines: Seq<(usize, Seq<usize>, Seq<char>, Seq<FormulaChar>)>,
    formulas: Map<usize, WellFormedFormula>,
    objects: Map<usize, Object>,
)
    requires
        ctx.table.len() <= usize::MAX,
        leaves_fit(formulas, objects, ctx.table),
    ensures
        check_lines(ctx, lines, formulas, objects).error is None ==> leaves_fit(
            check_lines(ctx, lines, formulas, objects).formulas,
            check_lines(ctx, lines, formulas, objects).objects,
            ctx.table,
        ) && steps_fit(check_lines(ctx, lines, formulas, objects).steps, ctx.table),
    decreases lines.len(),
{
    if lines.len() > 0 {
        lemma_check_lines_fit(ctx, lines.drop_last(), formulas, objects);
        let before = check_lines(ctx, lines.drop_last(), formulas, objects);
        if before.error is None {
            lemma_check_line_fits(ctx, before, lines.last());
        }
    }
}

/// The theorem that is compiled fits the table.
pub proof fn lemma_compiled_theorem_fits(
    file: MathFileModel,
    table: Seq<SyntaxModel>,
    definitions: Seq<DefinitionModel>,
    axioms: Seq<AxiomModel>,
    theorems: Seq<TheoremModel>,
    index: Seq<(Seq<char>, Reference)>,
)
    requires
        table.len() <= usize::MAX,
    ensures
        theorem_of(file, table, definitions, axioms, theorems, index) matches Ok(t) ==> t.fits(
            table,
        ),
{
    match file {
        MathFileModel::Theorem { name, hypotheses, assertions, proof } => {
            let given = hypotheses.map_values(|x: (Seq<char>, Seq<FormulaChar>)| x.1);
            lemma_compile_all_fits(given, Map::empty(), Map::empty(), table);
            let h = compile_all(given, Map::empty(), Map::empty(), table);
            lemma_compile_all_fits(assertions, h.formulas, h.objects, table);
            let a = compile_all(assertions, h.formulas, h.objects, table);
            let ctx = context_of(
                hypotheses.map_values(|x: (Seq<char>, Seq<FormulaChar>)| x.0),
                h.terms,
                table,
                definitions,
                axioms,
                theorems,
                index,
            );
            lemma_check_lines_fit(ctx, proof, a.formulas, a.objects);
        },
        _ => {},
    }
}

} // verus!
