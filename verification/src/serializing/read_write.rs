//! The archive: a library written as a run of records, and read back.

use vstd::prelude::*;
use crate::compiling::invariants::{lemma_indexed_after_entry, lemma_indexed_names_are_unique};
use crate::compiling::types::{
    axiom_models, definition_models, lookup, rules, theorem_models, Axiom, AxiomModel, Definition,
    DefinitionModel, Library, LibraryModel, NameIndex, Reference, Syntax, SyntaxModel, Theorem,
    TheoremModel,
};
use crate::serializing::binary_conversion::{
    axiom_binary, definition_binary, push_axiom, push_definition, push_syntax, push_theorem,
    read_axiom, read_definition, read_syntax, read_theorem, syntax_binary, theorem_binary,
};
use crate::serializing::traits::BinaryConvert;

verus! {

/// The byte that opens the record of a syntax rule.
pub const SYNTAX_RECORD: u8 = 0xf0;

/// The byte that opens the record of a definition.
pub const DEFINITION_RECORD: u8 = 0xf1;

/// The byte that opens the record of an axiom.
pub const AXIOM_RECORD: u8 = 0xf2;

/// The byte that opens the record of a theorem.
pub const THEOREM_RECORD: u8 = 0xf3;

/// The byte that ends the archive.
pub const END_OF_ARCHIVE: u8 = 0xf4;

/// The records of the syntax rules, in order.
pub open spec fn syntax_records(v: Seq<SyntaxModel>) -> Seq<u8>
    decreases v.len(),
{
    if v.len() == 0 {
        Seq::empty()
    } else {
        syntax_records(v.drop_last()) + seq![SYNTAX_RECORD] + syntax_binary(v.last())
    }
}

/// The records of the definitions, in order.
pub open spec fn definition_records(v: Seq<DefinitionModel>) -> Seq<u8>
    decreases v.len(),
{
    if v.len() == 0 {
        Seq::empty()
    } else {
        definition_records(v.drop_last()) + seq![DEFINITION_RECORD] + definition_binary(v.last())
    }
}

/// The records of the axioms, in order.
pub open spec fn axiom_records(v: Seq<AxiomModel>) -> Seq<u8>
    decreases v.len(),
{
    if v.len() == 0 {
        Seq::empty()
    } else {
        axiom_records(v.drop_last()) + seq![AXIOM_RECORD] + axiom_binary(v.last())
    }
}

/// The records of the theorems, in order.
pub open spec fn theorem_records(v: Seq<TheoremModel>) -> Seq<u8>
    decreases v.len(),
{
    if v.len() == 0 {
        Seq::empty()
    } else {
        theorem_records(v.drop_last()) + seq![THEOREM_RECORD] + theorem_binary(v.last())
    }
}

/// The archive of a library: the records of its syntax rules, of its
/// definitions, of its axioms and of its theorems, then the byte that ends
/// the archive.
pub open spec fn archive(lib: LibraryModel) -> Seq<u8> {
    (syntax_records(lib.syntaxes) + definition_records(lib.definitions) + axiom_records(lib.axioms)
        + theorem_records(lib.theorems)).push(END_OF_ARCHIVE)
}

/// Writes the archive of a library.
pub fn write_lib(lib: Library) -> (data: Vec<u8>)
    ensures
        data@ == archive(lib@),
{
    let mut data: Vec<u8> = Vec::new();
    let mut i: usize = 0;
    assert(syntax_records(lib@.syntaxes.take(0)) == Seq::<u8>::empty());
    while i < lib.syntaxes.len()
        invariant
            i <= lib.syntaxes.len(),
            data@ == syntax_records(lib@.syntaxes.take(i as int)),
        decreases lib.syntaxes.len() - i,
    {
        data.push(SYNTAX_RECORD);
        push_syntax(&mut data, &lib.syntaxes[i]);
        proof {
            let next = lib@.syntaxes.take(i + 1);
            assert(next.drop_last() == lib@.syntaxes.take(i as int));
            assert(next.last() == lib.syntaxes@[i as int]@);
            assert(syntax_records(next) == syntax_records(next.drop_last()) + seq![SYNTAX_RECORD]
                + syntax_binary(next.last()));
            assert(data@ =~= syntax_records(next));
        }
        i += 1;
    }
    assert(lib@.syntaxes.take(i as int) == lib@.syntaxes);
    let ghost first = data@;
    let mut i: usize = 0;
    assert(definition_records(lib@.definitions.take(0)) == Seq::<u8>::empty());
    assert(data@ =~= first + Seq::<u8>::empty());
    while i < lib.definitions.len()
        invariant
            i <= lib.definitions.len(),
            data@ == first + definition_records(lib@.definitions.take(i as int)),
        decreases lib.definitions.len() - i,
    {
        data.push(DEFINITION_RECORD);
        push_definition(&mut data, &lib.definitions[i]);
        proof {
            let next = lib@.definitions.take(i + 1);
            assert(next.drop_last() == lib@.definitions.take(i as int));
            assert(next.last() == lib.definitions@[i as int]@);
            assert(definition_records(next) == definition_records(next.drop_last())
                + seq![DEFINITION_RECORD] + definition_binary(next.last()));
            assert(data@ =~= first + definition_records(next));
        }
        i += 1;
    }
    assert(lib@.definitions.take(i as int) == lib@.definitions);
    let ghost second = data@;
    let mut i: usize = 0;
    assert(axiom_records(lib@.axioms.take(0)) == Seq::<u8>::empty());
    assert(data@ =~= second + Seq::<u8>::empty());
    while i < lib.axioms.len()
        invariant
            i <= lib.axioms.len(),
            data@ == second + axiom_records(lib@.axioms.take(i as int)),
        decreases lib.axioms.len() - i,
    {
        data.push(AXIOM_RECORD);
        push_axiom(&mut data, &lib.axioms[i]);
        proof {
            let next = lib@.axioms.take(i + 1);
            assert(next.drop_last() == lib@.axioms.take(i as int));
            assert(next.last() == lib.axioms@[i as int]@);
            assert(axiom_records(next) == axiom_records(next.drop_last()) + seq![AXIOM_RECORD]
                + axiom_binary(next.last()));
            assert(data@ =~= second + axiom_records(next));
        }
        i += 1;
    }
    assert(lib@.axioms.take(i as int) == lib@.axioms);
    let ghost third = data@;
    let mut i: usize = 0;
    assert(theorem_records(lib@.theorems.take(0)) == Seq::<u8>::empty());
    assert(data@ =~= third + Seq::<u8>::empty());
    while i < lib.theorems.len()
        invariant
            i <= lib.theorems.len(),
            data@ == third + theorem_records(lib@.theorems.take(i as int)),
        decreases lib.theorems.len() - i,
    {
        data.push(THEOREM_RECORD);
        push_theorem(&mut data, &lib.theorems[i]);
        proof {
            let next = lib@.theorems.take(i + 1);
            assert(next.drop_last() == lib@.theorems.take(i as int));
            assert(next.last() == lib.theorems@[i as int]@);
            assert(theorem_records(next) == theorem_records(next.drop_last()) + seq![THEOREM_RECORD]
                + theorem_binary(next.last()));
            assert(data@ =~= third + theorem_records(next));
        }
        i += 1;
    }
    assert(lib@.theorems.take(i as int) == lib@.theorems);
    data.push(END_OF_ARCHIVE);
    data
}

/// What has been read of an archive: the library and its name index.
pub struct Reading {
    pub lib: LibraryModel,
    pub index: Seq<(Seq<char>, Reference)>,
}

impl Reading {
    /// Nothing read yet.
    pub open spec fn start() -> Reading {
        Reading {
            lib: LibraryModel {
                syntaxes: Seq::empty(),
                definitions: Seq::empty(),
                axioms: Seq::empty(),
                theorems: Seq::empty(),
            },
            index: Seq::empty(),
        }
    }

    /// With one more syntax rule.
    pub open spec fn with_syntax(self, rule: SyntaxModel) -> Reading {
        Reading { lib: LibraryModel { syntaxes: self.lib.syntaxes.push(rule), ..self.lib }, ..self }
    }

    /// With one more definition, entered in the index under its name.
    pub open spec fn with_definition(self, d: DefinitionModel) -> Reading {
        Reading {
            lib: LibraryModel { definitions: self.lib.definitions.push(d), ..self.lib },
            index: self.index.push(
                (d.name, Reference::DefinitionReference(self.lib.definitions.len() as usize)),
            ),
        }
    }

    /// With one more axiom, entered in the index under its name.
    pub open spec fn with_axiom(self, a: AxiomModel) -> Reading {
        Reading {
            lib: LibraryModel { axioms: self.lib.axioms.push(a), ..self.lib },
            index: self.index.push(
                (a.name, Reference::AxiomReference(self.lib.axioms.len() as usize, 0)),
            ),
        }
    }

    /// With one more theorem, entered in the index under its name.
    pub open spec fn with_theorem(self, t: TheoremModel) -> Reading {
        Reading {
            lib: LibraryModel { theorems: self.lib.theorems.push(t), ..self.lib },
            index: self.index.push(
                (t.name, Reference::TheoremReference(self.lib.theorems.len() as usize, 0)),
            ),
        }
    }
}

/// The place from which reading goes on after a record that was read: the
/// place after the record, which lies after the byte that opened it and
/// within the archive.
pub open spec fn onward(at: int, next: int, end: int) -> int {
    if at < next <= end {
        next
    } else {
        at + 1
    }
}

/// What reading an archive from a place on gives. A byte that opens a record
/// is followed by the record; a record that can be read joins the library,
/// and the reading goes on after it. A byte that opens no record is passed
/// over. A byte that opens a record that cannot be read is passed over too,
/// that byte alone: the reading goes on at the very next byte, whatever the
/// attempt had read, and takes the first byte from there on that opens a
/// record. A definition, an axiom or a theorem whose name the index already
/// holds is passed over whole, so that no name is read twice. The byte that
/// ends the archive ends the reading, and so does the end of the bytes.
/// Definitions, axioms and theorems are read with the syntax rules read
/// before them.
#[verifier::opaque]
pub open spec fn read_archive(source: Seq<u8>, at: int, st: Reading) -> Reading
    decreases source.len() - at,
{
    if at < 0 || at >= source.len() || source[at] == END_OF_ARCHIVE {
        st
    } else if source[at] == SYNTAX_RECORD {
        match read_syntax(source, at + 1) {
            Some((rule, next)) => read_archive(source, onward(at, next, source.len() as int), st.with_syntax(rule)),
            None => read_archive(source, at + 1, st),
        }
    } else if source[at] == DEFINITION_RECORD {
        match read_definition(source, at + 1, st.lib.syntaxes) {
            Some((d, next)) => read_archive(
                source,
                onward(at, next, source.len() as int),
                if lookup(st.index, d.name) is None {
                    st.with_definition(d)
                } else {
                    st
                },
            ),
            None => read_archive(source, at + 1, st),
        }
    } else if source[at] == AXIOM_RECORD {
        match read_axiom(source, at + 1, st.lib.syntaxes) {
            Some((a, next)) => read_archive(
                source,
                onward(at, next, source.len() as int),
                if lookup(st.index, a.name) is None {
                    st.with_axiom(a)
                } else {
                    st
                },
            ),
            None => read_archive(source, at + 1, st),
        }
    } else if source[at] == THEOREM_RECORD {
        match read_theorem(source, at + 1, st.lib.syntaxes) {
            Some((t, next)) => read_archive(
                source,
                onward(at, next, source.len() as int),
                if lookup(st.index, t.name) is None {
                    st.with_theorem(t)
                } else {
                    st
                },
            ),
            None => read_archive(source, at + 1, st),
        }
    } else {
        read_archive(source, at + 1, st)
    }
}

/// What has been read, as the reader holds it.
pub open spec fn reading_of(lib: LibraryModel, index: Seq<(Seq<char>, Reference)>) -> Reading {
    Reading { lib, index }
}

/// Reads one record or passes over one byte, and gives the place from which
/// reading goes on; nothing at the end of the archive.
pub fn read_record(source: &Vec<u8>, at: usize, lib: &mut Library, references: &mut NameIndex) -> (r:
    Option<usize>)
    ensures
        match r {
            Some(next) => at < next <= source@.len() && read_archive(
                source@,
                at as int,
                reading_of(old(lib)@, old(references)@),
            ) == read_archive(source@, next as int, reading_of(final(lib)@, final(references)@)),
            None => read_archive(source@, at as int, reading_of(old(lib)@, old(references)@))
                == reading_of(final(lib)@, final(references)@),
        },
        old(lib)@.indexed_by(old(references)@) ==> final(lib)@.indexed_by(final(references)@),
{
    reveal(read_archive);
    let ghost before = lib@;
    let ghost index = references@;
    proof {
        assert(lib@.definitions.len() == lib.definitions.len());
        assert(lib@.axioms.len() == lib.axioms.len());
        assert(lib@.theorems.len() == lib.theorems.len());
    }
    if at >= source.len() {
        return None;
    }
    let tag = source[at];
    if tag == END_OF_ARCHIVE {
        None
    } else if tag == SYNTAX_RECORD {
        match Syntax::from_binary(source, at + 1) {
            Some((rule, next)) => {
                let ghost model = rule@;
                lib.syntaxes.push(rule);
                assert(rules(lib.syntaxes@) =~= before.syntaxes.push(model));
                Some(next)
            },
            None => Some(at + 1),
        }
    } else if tag == DEFINITION_RECORD {
        match Definition::from_binary_syntaxes(source, at + 1, &lib.syntaxes) {
            Some((definition, next)) => {
                let ghost model = definition@;
                let place = Reference::DefinitionReference(lib.definitions.len());
                if references.insert(definition.name.clone(), place) {
                    lib.definitions.push(definition);
                    assert(definition_models(lib.definitions@) =~= before.definitions.push(model));
                    proof {
                        assert(lib@.definitions.len() == lib.definitions.len());
                        if before.indexed_by(index) {
                            lemma_indexed_after_entry(before, index, lib@, model.name, place);
                        }
                    }
                }
                Some(next)
            },
            None => Some(at + 1),
        }
    } else if tag == AXIOM_RECORD {
        match Axiom::from_binary_syntaxes(source, at + 1, &lib.syntaxes) {
            Some((ax, next)) => {
                let ghost model = ax@;
                let place = Reference::AxiomReference(lib.axioms.len(), 0);
                if references.insert(ax.name.clone(), place) {
                    lib.axioms.push(ax);
                    assert(axiom_models(lib.axioms@) =~= before.axioms.push(model));
                    proof {
                        assert(lib@.axioms.len() == lib.axioms.len());
                        if before.indexed_by(index) {
                            lemma_indexed_after_entry(before, index, lib@, model.name, place);
                        }
                    }
                }
                Some(next)
            },
            None => Some(at + 1),
        }
    } else if tag == THEOREM_RECORD {
        match Theorem::from_binary_syntaxes(source, at + 1, &lib.syntaxes) {
            Some((theorem, next)) => {
                let ghost model = theorem@;
                let place = Reference::TheoremReference(lib.theorems.len(), 0);
                if references.insert(theorem.name.clone(), place) {
                    lib.theorems.push(theorem);
                    assert(theorem_models(lib.theorems@) =~= before.theorems.push(model));
                    proof {
                        assert(lib@.theorems.len() == lib.theorems.len());
                        if before.indexed_by(index) {
                            lemma_indexed_after_entry(before, index, lib@, model.name, place);
                        }
                    }
                }
                Some(next)
            },
            None => Some(at + 1),
        }
    } else {
        Some(at + 1)
    }
}

/// Reads an archive: the library that it holds, and the name index of that
/// library. What cannot be read is passed over. Whatever the bytes are, the
/// index agrees with the library that is read, and no two of its
/// definitions, axioms and theorems have one name.
pub fn read_file(source: &Vec<u8>) -> (r: (Library, NameIndex))
    ensures
        reading_of(r.0@, r.1@) == read_archive(source@, 0, Reading::start()),
        r.0@.indexed_by(r.1@),
        r.0@.names_unique(),
{
    let mut lib = Library {
        syntaxes: Vec::new(),
        definitions: Vec::new(),
        axioms: Vec::new(),
        theorems: Vec::new(),
    };
    let mut references = NameIndex::new();
    assert(lib@.syntaxes =~= Seq::empty() && lib@.definitions =~= Seq::empty() && lib@.axioms
        =~= Seq::empty() && lib@.theorems =~= Seq::empty());
    let mut at: usize = 0;
    loop
        invariant
            at <= source@.len(),
            lib@.indexed_by(references@),
            read_archive(source@, 0, Reading::start()) == read_archive(
                source@,
                at as int,
                reading_of(lib@, references@),
            ),
        decreases source@.len() - at,
    {
        match read_record(source, at, &mut lib, &mut references) {
            Some(next) => {
                at = next;
            },
            None => {
                proof {
                    lemma_indexed_names_are_unique(lib@, references@);
                }
                return (lib, references);
            },
        }
    }
}

} // verus!
