//! The driver: admitting files into the library one by one, and compiling a
//! whole directory in the order that its order file gives.

use vstd::prelude::*;
use crate::compiling::error::{CompileError, CompileErrorModel};
use crate::compiling::formula::{compiled, lift};
use crate::compiling::math_file::{
    ambiguous_with, compile_all, compile_axiom, compile_definition, compile_syntax,
    lemma_admitted_rules_are_apart, renamed, seen_holes, unambiguous,
};
use crate::compiling::theorem::{compile_theorem, theorem_of};
use crate::compiling::types::{
    axiom_models, definition_models, lookup, rules, theorem_models, AxiomModel, DefinitionModel,
    Library, LibraryModel, NameIndex, Reference, SyntaxModel, SyntaxType, TheoremModel,
};
use crate::compiling::invariants::{
    keeps_names, lemma_compiled_axiom_fits, lemma_compiled_theorem_fits,
    lemma_entry_keeps_names, lemma_formulas_fit_longer_table, lemma_indexed_after_entry,
    lemma_indexed_names_are_unique,
};
use crate::compiling::validity::{
    begins_with, lemma_accepted_library_grows, lemma_accepted_proof_holds,
};
use crate::parsing::read_file::{file_of, parse_file};
use crate::parsing::types::{DefinitionType, FormulaChar, MathFile, MathFileModel};
use crate::text::{chars_of, is_text, lines, rows, split_lines, string_of};

verus! {

/// The rule that a syntax definition declares, if the table admits it: it
/// is admitted if and only if its pattern holds no pattern of the table and
/// is held by none.
pub open spec fn syntax_admitted(file: MathFileModel, table: Seq<SyntaxModel>) -> Result<
    SyntaxModel,
    CompileErrorModel,
> {
    match file {
        MathFileModel::SyntaxDefinition { name, definition_type, syntax, .. } => {
            if ambiguous_with(renamed(syntax), table) {
                Err(CompileErrorModel::AmbiguousSyntax(name))
            } else {
                Ok(
                    SyntaxModel {
                        syntax_type: match definition_type {
                            DefinitionType::Formula => SyntaxType::Formula,
                            DefinitionType::Object => SyntaxType::Object,
                        },
                        formula: renamed(syntax),
                        distinct_wff_count: seen_holes(syntax, SyntaxType::Formula).len() as usize,
                        distinct_object_count: seen_holes(syntax, SyntaxType::Object).len() as usize,
                    },
                )
            }
        },
        _ => Err(CompileErrorModel::IncorrectFileType),
    }
}

/// The definition that a definition line gives under the table.
pub open spec fn definition_compiled(
    name: Seq<char>,
    atoms: Seq<FormulaChar>,
    table: Seq<SyntaxModel>,
) -> Result<DefinitionModel, CompileErrorModel> {
    let lifted = lift(atoms, Map::empty(), Map::empty());
    match compiled(lifted, table) {
        Ok(t) => Ok(
            DefinitionModel {
                name,
                definition: t,
                distinct_wff_count: lifted.formulas.len() as usize,
                distinct_object_count: lifted.objects.len() as usize,
            },
        ),
        Err(e) => Err(e),
    }
}

/// The axiom that a file gives under the table.
pub open spec fn axiom_compiled(file: MathFileModel, table: Seq<SyntaxModel>) -> Result<
    AxiomModel,
    CompileErrorModel,
> {
    match file {
        MathFileModel::Axiom { name, hypotheses, assertions } => {
            let h = compile_all(hypotheses, Map::empty(), Map::empty(), table);
            let a = compile_all(assertions, h.formulas, h.objects, table);
            if h.error is Some {
                Err(h.error->0)
            } else if a.error is Some {
                Err(a.error->0)
            } else {
                Ok(
                    AxiomModel {
                        name,
                        hypotheses: h.terms,
                        assertions: a.terms,
                        distinct_wff_count: a.formulas.len() as usize,
                        distinct_object_count: a.objects.len() as usize,
                    },
                )
            }
        },
        _ => Err(CompileErrorModel::IncorrectFileType),
    }
}

/// The library and its name index after a syntax definition has been
/// admitted. The rule joins the table. The definition line, if the file has
/// one, is compiled under the table with the new rule, joins the definitions,
/// and is entered in the index under the file's name; a file with a
/// definition line is refused if the index already holds its name.
pub open spec fn syndef_added(
    file: MathFileModel,
    lib: LibraryModel,
    index: Seq<(Seq<char>, Reference)>,
) -> Result<(LibraryModel, Seq<(Seq<char>, Reference)>), CompileErrorModel> {
    match syntax_admitted(file, lib.syntaxes) {
        Err(e) => Err(e),
        Ok(rule) => {
            let table = lib.syntaxes.push(rule);
            match file {
                MathFileModel::SyntaxDefinition { name, definition: Some(atoms), .. } => {
                    if lookup(index, name) is Some {
                        Err(CompileErrorModel::DuplicateName(name))
                    } else {
                        match definition_compiled(name, atoms, table) {
                            Err(e) => Err(e),
                            Ok(definition) => Ok(
                                (
                                    LibraryModel {
                                        syntaxes: table,
                                        definitions: lib.definitions.push(definition),
                                        ..lib
                                    },
                                    index.push(
                                        (
                                            name,
                                            Reference::DefinitionReference(
                                                lib.definitions.len() as usize,
                                            ),
                                        ),
                                    ),
                                ),
                            ),
                        }
                    }
                },
                _ => Ok((LibraryModel { syntaxes: table, ..lib }, index)),
            }
        },
    }
}

/// The name of an axiom or a theorem that the index already holds: the
/// name of the file, if it is of one of these two kinds and the index has
/// an entry under its name.
pub open spec fn taken_name(file: MathFileModel, index: Seq<(Seq<char>, Reference)>) -> Option<
    Seq<char>,
> {
    match file {
        MathFileModel::Axiom { name, .. } => if lookup(index, name) is Some {
            Some(name)
        } else {
            None
        },
        MathFileModel::Theorem { name, .. } => if lookup(index, name) is Some {
            Some(name)
        } else {
            None
        },
        _ => None,
    }
}

/// The library and its name index after an axiom has been admitted. An
/// axiom whose name the index already holds is refused.
pub open spec fn axiom_added(
    file: MathFileModel,
    lib: LibraryModel,
    index: Seq<(Seq<char>, Reference)>,
) -> Result<(LibraryModel, Seq<(Seq<char>, Reference)>), CompileErrorModel> {
    if file is Axiom && taken_name(file, index) is Some {
        Err(CompileErrorModel::DuplicateName(taken_name(file, index)->0))
    } else {
        match axiom_compiled(file, lib.syntaxes) {
            Err(e) => Err(e),
            Ok(ax) => Ok(
                (
                    LibraryModel { axioms: lib.axioms.push(ax), ..lib },
                    index.push((ax.name, Reference::AxiomReference(lib.axioms.len() as usize, 0))),
                ),
            ),
        }
    }
}

/// What checking a theorem against the library gives.
pub open spec fn theorem_checked(
    file: MathFileModel,
    lib: LibraryModel,
    index: Seq<(Seq<char>, Reference)>,
) -> Result<TheoremModel, CompileErrorModel> {
    theorem_of(file, lib.syntaxes, lib.definitions, lib.axioms, lib.theorems, index)
}

/// The library and its name index after a theorem has been verified and
/// admitted. A theorem whose name the index already holds is refused.
pub open spec fn theorem_added(
    file: MathFileModel,
    lib: LibraryModel,
    index: Seq<(Seq<char>, Reference)>,
) -> Result<(LibraryModel, Seq<(Seq<char>, Reference)>), CompileErrorModel> {
    if file is Theorem && taken_name(file, index) is Some {
        Err(CompileErrorModel::DuplicateName(taken_name(file, index)->0))
    } else {
        match theorem_checked(file, lib, index) {
            Err(e) => Err(e),
            Ok(theorem) => Ok(
                (
                    LibraryModel { theorems: lib.theorems.push(theorem), ..lib },
                    index.push(
                        (theorem.name, Reference::TheoremReference(lib.theorems.len() as usize, 0)),
                    ),
                ),
            ),
        }
    }
}

/// The name of an axiom or a theorem, if the index already holds it.
pub fn find_taken_name(math_file: &MathFile, references: &NameIndex) -> (r: Option<String>)
    ensures
        match r {
            Some(name) => taken_name(math_file@, references@) == Some(name@),
            None => taken_name(math_file@, references@) is None,
        },
{
    match math_file {
        MathFile::Axiom { name, .. } => match references.get(name.as_str()) {
            Some(_) => Some(name.clone()),
            None => None,
        },
        MathFile::Theorem { name, .. } => match references.get(name.as_str()) {
            Some(_) => Some(name.clone()),
            None => None,
        },
        _ => None,
    }
}

/// Admits a syntax definition into the library. On success the library has
/// the new rule, and the definition and its index entry if the file has a
/// definition line. A definition whose name the index already holds is
/// refused. On failure the library and the index are as they were. An
/// accepted library stays accepted, a table in which no rule holds another
/// stays so, an index that agrees with the library still agrees with it, and
/// every name keeps what it stood for.
pub fn add_syndef_to_lib(math_file: MathFile, lib: &mut Library, references: &mut NameIndex) -> (r:
    Result<(), CompileError>)
    ensures
        match r {
            Ok(_) => syndef_added(math_file@, old(lib)@, old(references)@) == Ok::<
                _,
                CompileErrorModel,
            >((final(lib)@, final(references)@)),
            Err(e) => syndef_added(math_file@, old(lib)@, old(references)@) == Err::<
                (LibraryModel, Seq<(Seq<char>, Reference)>),
                _,
            >(e@) && final(lib)@ == old(lib)@ && final(references)@ == old(references)@,
        },
        final(lib)@.grown_from(old(lib)@),
        old(lib)@.accepted() ==> final(lib)@.accepted(),
        unambiguous(old(lib)@.syntaxes) ==> unambiguous(final(lib)@.syntaxes),
        old(lib)@.well_built() ==> final(lib)@.well_built(),
        old(lib)@.indexed_by(old(references)@) ==> final(lib)@.indexed_by(final(references)@),
        old(lib)@.well_formed() && old(lib)@.indexed_by(old(references)@) ==> final(lib)@.well_formed(),
        keeps_names(final(references)@, old(references)@),
{
    let ghost before = lib@;
    let ghost file = math_file@;
    let ghost index = references@;
    let (syntax, maybe_def) = match compile_syntax(math_file, &lib.syntaxes) {
        Ok(compiled) => compiled,
        Err(e) => {
            return Err(e);
        },
    };
    let ghost rule = syntax@;
    assert(syntax_admitted(file, before.syntaxes) == Ok::<_, CompileErrorModel>(rule));
    let taken = match &maybe_def {
        Some((name, _)) => match references.get(name.as_str()) {
            Some(_) => Some(name.clone()),
            None => None,
        },
        None => None,
    };
    match taken {
        Some(name) => {
            return Err(CompileError::DuplicateName(name));
        },
        None => {},
    }
    proof {
        if unambiguous(before.syntaxes) {
            lemma_admitted_rules_are_apart(before.syntaxes, rule);
        }
    }
    lib.syntaxes.push(syntax);
    assert(rules(lib.syntaxes@) =~= before.syntaxes.push(rule));
    let ghost middle = lib@;
    proof {
        assert(middle.syntaxes.len() == lib.syntaxes.len());
        if before.accepted() {
            lemma_accepted_library_grows(before, middle);
        }
        if before.well_built() {
            assert(begins_with(before.syntaxes.push(rule), before.syntaxes));
            lemma_formulas_fit_longer_table(before, before.syntaxes.push(rule));
            assert(middle == (LibraryModel { syntaxes: before.syntaxes.push(rule), ..before }));
            assert forall|i: int| 0 <= i < middle.syntaxes.len() implies (#[trigger] middle.syntaxes[i]).well_formed() by {
                if i < before.syntaxes.len() {
                    assert(middle.syntaxes[i] == before.syntaxes[i]);
                }
            }
            assert(middle.well_built());
        }
    }
    proof {
        assert(lib@.definitions.len() == lib.definitions.len());
        assert(lib@.axioms.len() == lib.axioms.len());
        assert(lib@.theorems.len() == lib.theorems.len());
    }
    match maybe_def {
        None => {
            proof {
                if before.indexed_by(index) {
                    assert(lib@.definitions == before.definitions);
                    assert(lib@.axioms == before.axioms);
                    assert(lib@.theorems == before.theorems);
                    lemma_indexed_names_are_unique(lib@, index);
                }
            }
            Ok(())
        },
        Some((name, def)) => {
            match compile_definition(name, def, &lib.syntaxes) {
                Ok(definition) => {
                    let place = Reference::DefinitionReference(lib.definitions.len());
                    references.insert(definition.name.clone(), place);
                    let ghost model = definition@;
                    lib.definitions.push(definition);
                    assert(definition_models(lib.definitions@) =~= before.definitions.push(model));
                    proof {
                        assert(lib@.definitions.len() == lib.definitions.len());
                        assert(model.name == name@);
                        lemma_entry_keeps_names(index, model.name, place);
                        if before.indexed_by(index) {
                            lemma_indexed_after_entry(before, index, lib@, model.name, place);
                        }
                        if before.accepted() {
                            lemma_accepted_library_grows(before, lib@);
                        }
                        if before.well_built() {
                            assert forall|i: int| 0 <= i < lib@.definitions.len() implies (
                            #[trigger] lib@.definitions[i]).definition.fits_table(lib@.syntaxes) by {
                                if i < middle.definitions.len() {
                                    assert(lib@.definitions[i] == middle.definitions[i]);
                                }
                            }
                            assert(lib@.axioms == middle.axioms);
                            assert(lib@.theorems == middle.theorems);
                            assert(lib@.syntaxes == middle.syntaxes);
                            assert(lib@.well_built());
                        }
                    }
                    Ok(())
                },
                Err(e) => {
                    lib.syntaxes.pop();
                    assert(rules(lib.syntaxes@) =~= before.syntaxes);
                    assert(lib@ == before);
                    Err(e)
                },
            }
        },
    }
}

/// Admits an axiom into the library and enters it in the index. An axiom
/// whose name the index already holds is refused. On failure the library and
/// the index are as they were.
pub fn add_axiom_to_lib(math_file: MathFile, lib: &mut Library, references: &mut NameIndex) -> (r:
    Result<(), CompileError>)
    ensures
        match r {
            Ok(_) => axiom_added(math_file@, old(lib)@, old(references)@) == Ok::<
                _,
                CompileErrorModel,
            >((final(lib)@, final(references)@)),
            Err(e) => axiom_added(math_file@, old(lib)@, old(references)@) == Err::<
                (LibraryModel, Seq<(Seq<char>, Reference)>),
                _,
            >(e@) && final(lib)@ == old(lib)@ && final(references)@ == old(references)@,
        },
        final(lib)@.grown_from(old(lib)@),
        old(lib)@.accepted() ==> final(lib)@.accepted(),
        old(lib)@.well_built() ==> final(lib)@.well_built(),
        old(lib)@.indexed_by(old(references)@) ==> final(lib)@.indexed_by(final(references)@),
        old(lib)@.well_formed() && old(lib)@.indexed_by(old(references)@) ==> final(lib)@.well_formed(),
        keeps_names(final(references)@, old(references)@),
{
    let ghost before = lib@;
    let ghost index = references@;
    let ghost file = math_file@;
    proof {
        assert(before.syntaxes.len() == lib.syntaxes.len());
        lemma_compiled_axiom_fits(math_file@, before.syntaxes);
    }
    match find_taken_name(&math_file, references) {
        Some(name) => {
            if let MathFile::Axiom { .. } = &math_file {
                return Err(CompileError::DuplicateName(name));
            }
        },
        None => {},
    }
    let ax = match compile_axiom(math_file, &lib.syntaxes) {
        Ok(ax) => ax,
        Err(e) => {
            return Err(e);
        },
    };
    let place = Reference::AxiomReference(lib.axioms.len(), 0);
    references.insert(ax.name.clone(), place);
    let ghost model = ax@;
    lib.axioms.push(ax);
    assert(axiom_models(lib.axioms@) =~= before.axioms.push(model));
    proof {
        assert(lib@.definitions.len() == lib.definitions.len());
        assert(lib@.axioms.len() == lib.axioms.len());
        assert(lib@.theorems.len() == lib.theorems.len());
        assert(file is Axiom && model.name == file->Axiom_name);
        lemma_entry_keeps_names(index, model.name, place);
        if before.indexed_by(index) {
            lemma_indexed_after_entry(before, index, lib@, model.name, place);
        }
        if before.accepted() {
            lemma_accepted_library_grows(before, lib@);
        }
        if before.well_built() {
            assert forall|i: int| 0 <= i < lib@.axioms.len() implies (#[trigger] lib@.axioms[i]).fits(
                lib@.syntaxes,
            ) by {
                if i < before.axioms.len() {
                    assert(lib@.axioms[i] == before.axioms[i]);
                }
            }
        }
    }
    Ok(())
}

/// Verifies a theorem against the library, admits it and enters it in the
/// index. A theorem whose name the index already holds is refused. On
/// failure the library and the index are as they were. The proof of the
/// admitted theorem holds in the library as it stood, so an accepted library
/// stays accepted.
pub fn add_theo_to_lib(math_file: MathFile, lib: &mut Library, references: &mut NameIndex) -> (r:
    Result<(), CompileError>)
    ensures
        match r {
            Ok(_) => theorem_added(math_file@, old(lib)@, old(references)@) == Ok::<
                _,
                CompileErrorModel,
            >((final(lib)@, final(references)@)),
            Err(e) => theorem_added(math_file@, old(lib)@, old(references)@) == Err::<
                (LibraryModel, Seq<(Seq<char>, Reference)>),
                _,
            >(e@) && final(lib)@ == old(lib)@ && final(references)@ == old(references)@,
        },
        final(lib)@.grown_from(old(lib)@),
        old(lib)@.accepted() ==> final(lib)@.accepted(),
        old(lib)@.well_built() ==> final(lib)@.well_built(),
        old(lib)@.indexed_by(old(references)@) ==> final(lib)@.indexed_by(final(references)@),
        old(lib)@.well_formed() && old(lib)@.indexed_by(old(references)@) ==> final(lib)@.well_formed(),
        keeps_names(final(references)@, old(references)@),
{
    let ghost before = lib@;
    let ghost file = math_file@;
    let ghost index = references@;
    match find_taken_name(&math_file, references) {
        Some(name) => {
            if let MathFile::Theorem { .. } = &math_file {
                return Err(CompileError::DuplicateName(name));
            }
        },
        None => {},
    }
    proof {
        assert(before.syntaxes.len() == lib.syntaxes.len());
        lemma_compiled_theorem_fits(
            file,
            before.syntaxes,
            before.definitions,
            before.axioms,
            before.theorems,
            references@,
        );
    }
    proof {
        if math_file is Theorem {
            assert(math_file->Theorem_hypotheses@.len() == math_file->Theorem_hypotheses.len());
        }
        lemma_accepted_proof_holds(
            file,
            before.syntaxes,
            before.definitions,
            before.axioms,
            before.theorems,
            references@,
        );
    }
    let theorem = match compile_theorem(
        math_file,
        &lib.syntaxes,
        &lib.definitions,
        &lib.axioms,
        &lib.theorems,
        references,
    ) {
        Ok(theorem) => theorem,
        Err(e) => {
            return Err(e);
        },
    };
    let place = Reference::TheoremReference(lib.theorems.len(), 0);
    references.insert(theorem.name.clone(), place);
    let ghost model = theorem@;
    lib.theorems.push(theorem);
    assert(theorem_models(lib.theorems@) =~= before.theorems.push(model));
    proof {
        assert(lib@.theorems.take(before.theorems.len() as int) =~= before.theorems);
        assert(lib@.definitions.len() == lib.definitions.len());
        assert(lib@.axioms.len() == lib.axioms.len());
        assert(lib@.theorems.len() == lib.theorems.len());
        assert(file is Theorem && model.name == file->Theorem_name);
        lemma_entry_keeps_names(index, model.name, place);
        if before.indexed_by(index) {
            lemma_indexed_after_entry(before, index, lib@, model.name, place);
        }
        if before.accepted() {
            lemma_accepted_library_grows(before, lib@);
        }
        if before.well_built() {
            assert forall|i: int| 0 <= i < lib@.theorems.len() implies (#[trigger] lib@.theorems[i]).fits(
                lib@.syntaxes,
            ) by {
                if i < before.theorems.len() {
                    assert(lib@.theorems[i] == before.theorems[i]);
                }
            }
        }
    }
    Ok(())
}

/// Verifies a theorem against the library without admitting it. The library
/// and the index stay as they are.
pub fn verify_theo(math_file: MathFile, lib: &mut Library, references: &mut NameIndex) -> (r: Result<
    (),
    CompileError,
>)
    ensures
        final(lib)@ == old(lib)@,
        final(references)@ == old(references)@,
        match r {
            Ok(_) => theorem_checked(math_file@, old(lib)@, old(references)@) is Ok,
            Err(e) => theorem_checked(math_file@, old(lib)@, old(references)@) == Err::<TheoremModel, _>(
                e@,
            ),
        },
{
    match compile_theorem(
        math_file,
        &lib.syntaxes,
        &lib.definitions,
        &lib.axioms,
        &lib.theorems,
        references,
    ) {
        Ok(_) => Ok(()),
        Err(e) => Err(e),
    }
}

/// Where the compiling of a directory stands: before the first heading of
/// the order file, or among the files of one of its three sections.
#[derive(Debug, Clone, Copy, PartialEq, Eq, Structural)]
pub enum CompilerState {
    CompilingSyntaxes,
    CompilingAxioms,
    CompilingTheorems,
    Waiting,
}

/// The state that a heading of the order file leads to. The three headings
/// come in one order, each once.
pub open spec fn next_state(state: CompilerState, line: Seq<char>) -> Option<CompilerState> {
    if state == CompilerState::Waiting && line == "# Syntax Definitions"@ {
        Some(CompilerState::CompilingSyntaxes)
    } else if state == CompilerState::CompilingSyntaxes && line == "# Axioms"@ {
        Some(CompilerState::CompilingAxioms)
    } else if state == CompilerState::CompilingAxioms && line == "# Theorems"@ {
        Some(CompilerState::CompilingTheorems)
    } else {
        None
    }
}

/// Reads a heading of the order file.
pub fn read_order_heading(state: CompilerState, line: &Vec<char>) -> (r: Option<CompilerState>)
    ensures
        r == next_state(state, line@),
{
    match state {
        CompilerState::Waiting => if is_text(line, "# Syntax Definitions") {
            Some(CompilerState::CompilingSyntaxes)
        } else {
            None
        },
        CompilerState::CompilingSyntaxes => if is_text(line, "# Axioms") {
            Some(CompilerState::CompilingAxioms)
        } else {
            None
        },
        CompilerState::CompilingAxioms => if is_text(line, "# Theorems") {
            Some(CompilerState::CompilingTheorems)
        } else {
            None
        },
        CompilerState::CompilingTheorems => None,
    }
}

/// What reading the files of a directory gave: for each path, the text of
/// the file or why it could not be read.
pub type Sources = Vec<(String, Result<String, String>)>;

/// The model of what reading one file gave.
pub open spec fn source_view(f: (String, Result<String, String>)) -> (
    Seq<char>,
    Result<Seq<char>, Seq<char>>,
) {
    (
        f.0@,
        match f.1 {
            Ok(text) => Ok(text@),
            Err(why) => Err(why@),
        },
    )
}

/// The model of what reading the files gave.
pub open spec fn source_views(files: Seq<(String, Result<String, String>)>) -> Seq<
    (Seq<char>, Result<Seq<char>, Seq<char>>),
> {
    files.map_values(|f: (String, Result<String, String>)| source_view(f))
}

/// What reading the file at `path` gave: what the first entry under that
/// path says. A path without an entry could not be read, and nothing says
/// why.
pub open spec fn content_of(
    files: Seq<(Seq<char>, Result<Seq<char>, Seq<char>>)>,
    path: Seq<char>,
) -> Result<Seq<char>, Seq<char>>
    decreases files.len(),
{
    if files.len() == 0 {
        Err(Seq::empty())
    } else if files[0].0 == path {
        files[0].1
    } else {
        content_of(files.drop_first(), path)
    }
}

/// Looks up what reading the file at `path` gave.
pub fn find_source(files: &Sources, path: &Vec<char>) -> (r: Result<String, String>)
    ensures
        match r {
            Ok(text) => content_of(source_views(files@), path@) == Ok::<_, Seq<char>>(text@),
            Err(why) => content_of(source_views(files@), path@) == Err::<Seq<char>, _>(why@),
        },
{
    let ghost all = source_views(files@);
    let mut i: usize = 0;
    assert(all.skip(0) == all);
    while i < files.len()
        invariant
            i <= files.len(),
            all == source_views(files@),
            content_of(all, path@) == content_of(all.skip(i as int), path@),
        decreases files.len() - i,
    {
        let ghost rest = all.skip(i as int);
        assert(rest[0] == source_view(files@[i as int]));
        assert(rest.drop_first() == all.skip(i + 1));
        assert(content_of(rest, path@) == if rest[0].0 == path@ {
            rest[0].1
        } else {
            content_of(rest.drop_first(), path@)
        });
        if is_text(path, files[i].0.as_str()) {
            return match &files[i].1 {
                Ok(text) => Ok(text.clone()),
                Err(why) => Err(why.clone()),
            };
        }
        i += 1;
    }
    assert(content_of(all.skip(i as int), path@) == Err::<Seq<char>, _>(Seq::<char>::empty()));
    Err(String::new())
}

/// The compiling of a directory so far: where it stands, the library and its
/// name index, and the first error, after which nothing changes.
pub struct Driving {
    pub state: CompilerState,
    pub lib: LibraryModel,
    pub index: Seq<(Seq<char>, Reference)>,
    pub error: Option<CompileErrorModel>,
}

impl Driving {
    /// The compiling stopped by an error.
    pub open spec fn fail(self, e: CompileErrorModel) -> Driving {
        Driving { error: Some(e), ..self }
    }

    /// The compiling with the library and the index that admitting a file
    /// gave, or stopped by the error that it gave.
    pub open spec fn with_outcome(
        self,
        outcome: Result<(LibraryModel, Seq<(Seq<char>, Reference)>), CompileErrorModel>,
    ) -> Driving {
        match outcome {
            Ok((lib, index)) => Driving { lib, index, ..self },
            Err(e) => self.fail(e),
        }
    }

    /// The compiling before the first line.
    pub open spec fn start() -> Driving {
        Driving {
            state: CompilerState::Waiting,
            lib: LibraryModel {
                syntaxes: Seq::empty(),
                definitions: Seq::empty(),
                axioms: Seq::empty(),
                theorems: Seq::empty(),
            },
            index: Seq::empty(),
            error: None,
        }
    }
}

/// What one line of the order file does. An empty line does nothing. A line
/// that starts with `#` is a heading and must be the next one due. Any other
/// line names a file: the file is read and parsed, and admitted as what the
/// section asks for; before the first heading it is read and parsed and
/// nothing more.
#[verifier::opaque]
pub open spec fn drive_line(
    d: Driving,
    line: Seq<char>,
    line_no: usize,
    files: Seq<(Seq<char>, Result<Seq<char>, Seq<char>>)>,
) -> Driving {
    if d.error is Some || line.len() == 0 {
        d
    } else if line[0] == '#' {
        match next_state(d.state, line) {
            Some(state) => Driving { state, ..d },
            None => d.fail(CompileErrorModel::InvalidOrderLine(line, line_no)),
        }
    } else {
        match content_of(files, line) {
            Err(why) => d.fail(CompileErrorModel::IOError(why, line, line_no)),
            Ok(text) => match file_of(text) {
                Err(_) => d.fail(CompileErrorModel::UnparsableFile(line, line_no)),
                Ok(file) => match d.state {
                    CompilerState::Waiting => d,
                    CompilerState::CompilingSyntaxes => d.with_outcome(syndef_added(file, d.lib, d.index)),
                    CompilerState::CompilingAxioms => d.with_outcome(axiom_added(file, d.lib, d.index)),
                    CompilerState::CompilingTheorems => d.with_outcome(theorem_added(file, d.lib, d.index)),
                },
            },
        }
    }
}

/// What the lines of the order file do, from the first on; the lines are
/// numbered from 1.
pub open spec fn drive(
    order: Seq<Seq<char>>,
    files: Seq<(Seq<char>, Result<Seq<char>, Seq<char>>)>,
) -> Driving
    decreases order.len(),
{
    if order.len() == 0 {
        Driving::start()
    } else {
        drive_line(drive(order.drop_last(), files), order.last(), order.len() as usize, files)
    }
}

/// After an error the compiling stays as it is.
pub proof fn lemma_drive_stops(
    order: Seq<Seq<char>>,
    files: Seq<(Seq<char>, Result<Seq<char>, Seq<char>>)>,
    n: int,
)
    requires
        0 <= n <= order.len(),
        drive(order.take(n), files).error is Some,
    ensures
        drive(order, files) == drive(order.take(n), files),
    decreases order.len(),
{
    if n < order.len() {
        reveal(drive_line);
        assert(order.drop_last().take(n) == order.take(n));
        lemma_drive_stops(order.drop_last(), files, n);
        assert(drive(order, files) == drive(order.drop_last(), files));
    } else {
        assert(order.take(n) == order);
    }
}

/// The library that a directory gives: the order file names the files, and
/// they are admitted in its order. Without an order file there is nothing to
/// compile. The first error ends the compiling.
pub open spec fn directory_compiled(
    order: Option<Seq<char>>,
    files: Seq<(Seq<char>, Result<Seq<char>, Seq<char>>)>,
) -> Result<LibraryModel, CompileErrorModel> {
    match order {
        None => Err(CompileErrorModel::OrderFileNotFound),
        Some(text) => {
            let d = drive(lines(text), files);
            match d.error {
                Some(e) => Err(e),
                None => Ok(d.lib),
            }
        },
    }
}

/// The compiling as the driver holds it while no error has occurred.
pub open spec fn driving_of(
    state: CompilerState,
    lib: LibraryModel,
    index: Seq<(Seq<char>, Reference)>,
) -> Driving {
    Driving { state, lib, index, error: None }
}

/// Admits a file as what the section of the order file asks for.
pub fn admit_file(
    math_file: MathFile,
    state: CompilerState,
    lib: &mut Library,
    references: &mut NameIndex,
) -> (r: Result<(), CompileError>)
    ensures
        match r {
            Ok(_) => match state {
                CompilerState::Waiting => final(lib)@ == old(lib)@ && final(references)@ == old(
                    references,
                )@,
                CompilerState::CompilingSyntaxes => syndef_added(
                    math_file@,
                    old(lib)@,
                    old(references)@,
                ) == Ok::<_, CompileErrorModel>((final(lib)@, final(references)@)),
                CompilerState::CompilingAxioms => axiom_added(
                    math_file@,
                    old(lib)@,
                    old(references)@,
                ) == Ok::<_, CompileErrorModel>((final(lib)@, final(references)@)),
                CompilerState::CompilingTheorems => theorem_added(
                    math_file@,
                    old(lib)@,
                    old(references)@,
                ) == Ok::<_, CompileErrorModel>((final(lib)@, final(references)@)),
            },
            Err(e) => match state {
                CompilerState::Waiting => false,
                CompilerState::CompilingSyntaxes => syndef_added(
                    math_file@,
                    old(lib)@,
                    old(references)@,
                ) == Err::<(LibraryModel, Seq<(Seq<char>, Reference)>), _>(e@),
                CompilerState::CompilingAxioms => axiom_added(
                    math_file@,
                    old(lib)@,
                    old(references)@,
                ) == Err::<(LibraryModel, Seq<(Seq<char>, Reference)>), _>(e@),
                CompilerState::CompilingTheorems => theorem_added(
                    math_file@,
                    old(lib)@,
                    old(references)@,
                ) == Err::<(LibraryModel, Seq<(Seq<char>, Reference)>), _>(e@),
            },
        },
        old(lib)@.accepted() ==> final(lib)@.accepted(),
        old(lib)@.well_built() ==> final(lib)@.well_built(),
        old(lib)@.indexed_by(old(references)@) ==> final(lib)@.indexed_by(final(references)@),
{
    match state {
        CompilerState::Waiting => Ok(()),
        CompilerState::CompilingSyntaxes => add_syndef_to_lib(math_file, lib, references),
        CompilerState::CompilingAxioms => add_axiom_to_lib(math_file, lib, references),
        CompilerState::CompilingTheorems => add_theo_to_lib(math_file, lib, references),
    }
}

/// Does what one line of the order file asks for.
pub fn compile_order_line(
    line: &Vec<char>,
    line_no: usize,
    state: CompilerState,
    lib: &mut Library,
    references: &mut NameIndex,
    files: &Sources,
) -> (r: Result<CompilerState, CompileError>)
    ensures
        match r {
            Ok(next) => drive_line(
                driving_of(state, old(lib)@, old(references)@),
                line@,
                line_no,
                source_views(files@),
            ) == driving_of(next, final(lib)@, final(references)@),
            Err(e) => drive_line(
                driving_of(state, old(lib)@, old(references)@),
                line@,
                line_no,
                source_views(files@),
            ).error == Some(e@),
        },
        old(lib)@.accepted() ==> final(lib)@.accepted(),
        old(lib)@.well_built() ==> final(lib)@.well_built(),
        old(lib)@.indexed_by(old(references)@) ==> final(lib)@.indexed_by(final(references)@),
{
    reveal(drive_line);
    if line.len() == 0 {
        return Ok(state);
    }
    if line[0] == '#' {
        return match read_order_heading(state, line) {
            Some(next) => Ok(next),
            None => Err(CompileError::InvalidOrderLine(string_of(line), line_no)),
        };
    }
    let content = match find_source(files, line) {
        Ok(content) => content,
        Err(why) => {
            return Err(CompileError::IOError(why, string_of(line), line_no));
        },
    };
    let math_file = match parse_file(content) {
        Ok(math_file) => math_file,
        Err(_) => {
            return Err(CompileError::UnparsableFile(string_of(line), line_no));
        },
    };
    match admit_file(math_file, state, lib, references) {
        Ok(_) => Ok(state),
        Err(e) => Err(e),
    }
}

/// Compiles a directory from what reading it gave: the text of its order
/// file, if it has one, and for each path what reading the file gave. The
/// result is the library with every file of the order file admitted in
/// order, or the first error. A library that comes out is well formed: its
/// rules are well formed and apart, its trees fit its rules, its proofs
/// hold, and no two of its definitions, axioms and theorems have one name.
#[verifier::loop_isolation(false)]
pub fn compile_directory(order: Option<String>, files: &Sources) -> (r: Result<Library, CompileError>)
    ensures
        match r {
            Ok(lib) => directory_compiled(
                match order {
                    Some(text) => Some(text@),
                    None => None,
                },
                source_views(files@),
            ) == Ok::<_, CompileErrorModel>(lib@) && lib@.well_formed(),
            Err(e) => directory_compiled(
                match order {
                    Some(text) => Some(text@),
                    None => None,
                },
                source_views(files@),
            ) == Err::<LibraryModel, _>(e@),
        },
{
    let text = match order {
        Some(text) => text,
        None => {
            return Err(CompileError::OrderFileNotFound);
        },
    };
    let order_lines = split_lines(&chars_of(text.as_str()));
    let ghost all = rows(order_lines@);
    let ghost sources = source_views(files@);
    let mut lib = Library {
        syntaxes: Vec::new(),
        definitions: Vec::new(),
        axioms: Vec::new(),
        theorems: Vec::new(),
    };
    let mut references = NameIndex::new();
    let mut state = CompilerState::Waiting;
    let mut i: usize = 0;
    assert(lib@.syntaxes =~= Seq::empty() && lib@.definitions =~= Seq::empty() && lib@.axioms
        =~= Seq::empty() && lib@.theorems =~= Seq::empty());
    assert(all.take(0) =~= Seq::empty());
    while i < order_lines.len()
        invariant
            i <= order_lines.len(),
            all == rows(order_lines@),
            sources == source_views(files@),
            lib@.well_built(),
            lib@.indexed_by(references@),
            drive(all.take(i as int), sources) == driving_of(state, lib@, references@),
        decreases order_lines.len() - i,
    {
        proof {
            let next = all.take(i + 1);
            assert(next.drop_last() == all.take(i as int));
            assert(next.last() == order_lines@[i as int]@);
            assert(drive(next, sources) == drive_line(
                drive(next.drop_last(), sources),
                next.last(),
                next.len() as usize,
                sources,
            ));
        }
        match compile_order_line(&order_lines[i], i + 1, state, &mut lib, &mut references, files) {
            Ok(next) => {
                state = next;
            },
            Err(e) => {
                proof {
                    lemma_drive_stops(all, sources, i + 1);
                }
                return Err(e);
            },
        }
        i += 1;
    }
    assert(all.take(i as int) == all);
    proof {
        lemma_indexed_names_are_unique(lib@, references@);
    }
    Ok(lib)
}

} // verus!
