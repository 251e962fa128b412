//! What is written can be read back: a library that the archive holds whole
//! is the library that reading its archive gives.

use vstd::prelude::*;
use vstd::utf8::{
    encode_utf8, encode_utf8_decode_utf8, encode_utf8_valid_utf8, is_ascii_chars,
    is_ascii_chars_encode_utf8,
};
use crate::compiling::invariants::{lemma_lookup_absent, lemma_lookup_after_push};
use crate::compiling::types::{
    lookup, AxiomModel, DefinitionModel, LibraryModel, Placeholder, Reference, StepModel,
    SyntaxModel, SyntaxType, Term, TheoremModel,
};
use crate::serializing::binary_conversion::{
    after, after_runs, axiom_binary, cited_row, closing, closing_all, decode_all,
    definition_binary, frames, kind_byte, name_binary, name_end, read_axiom, read_axiom_part,
    read_definition, read_name, read_number, read_rows, read_syntax, read_theorem, read_vector,
    read_vectors, result_row, rpn_rows, runs, steps_of, syntax_binary, theorem_binary,
    used_rows, vector_binary, vectors_binary,
};
use crate::serializing::read_write::{
    archive, axiom_records, definition_records, onward, read_archive, syntax_records,
    theorem_records, Reading, AXIOM_RECORD, DEFINITION_RECORD, END_OF_ARCHIVE, SYNTAX_RECORD,
    THEOREM_RECORD,
};
use crate::serializing::rpn::{
    decode, lemma_decode_rpn_of, root_block, rpn_of, rpn_of_all, RpnBlock,
};
use crate::serializing::traits::Vectorizable;
use crate::serializing::vectorizable::{fits32, le32, lemma_le32, low32};

verus! {

/// The bytes stand in the source from place `at` on.
pub open spec fn holds_at(source: Seq<u8>, at: int, bytes: Seq<u8>) -> bool {
    0 <= at && at + bytes.len() <= source.len() && source.subrange(at, at + bytes.len()) == bytes
}

/// Where two runs of bytes stand one after the other, each of them stands.
pub proof fn lemma_holds_both(source: Seq<u8>, at: int, a: Seq<u8>, b: Seq<u8>)
    requires
        holds_at(source, at, a + b),
    ensures
        holds_at(source, at, a),
        holds_at(source, at + a.len(), b),
{
    let whole = source.subrange(at, at + (a + b).len());
    assert(source.subrange(at, at + a.len()) =~= whole.subrange(0, a.len() as int));
    assert(whole.subrange(0, a.len() as int) =~= a);
    assert(source.subrange(at + a.len(), at + a.len() + b.len()) =~= whole.subrange(
        a.len() as int,
        (a + b).len() as int,
    ));
    assert(whole.subrange(a.len() as int, (a + b).len() as int) =~= b);
}

/// A number that four bytes hold in full is read back.
pub proof fn lemma_read_number(source: Seq<u8>, at: int, n: usize)
    requires
        holds_at(source, at, le32(low32(n))),
        fits32(n),
    ensures
        read_number(source, at) == Some((n, at + 4)),
{
    lemma_le32(low32(n), Seq::empty());
}

/// A name whose characters are ASCII and none of them the zero character.
pub open spec fn plain_name(name: Seq<char>) -> bool {
    forall|i: int| 0 <= i < name.len() ==> '\u{1}' <= #[trigger] name[i] <= '\u{7f}'
}

/// Where no zero byte stands from `at` up to `end`, and one stands at `end`
/// or `end` is the end, the name that starts at `at` ends at `end`.
pub proof fn lemma_name_end(source: Seq<u8>, at: int, end: int)
    requires
        0 <= at <= end <= source.len(),
        forall|j: int| at <= j < end ==> #[trigger] source[j] != 0,
        end == source.len() || source[end] == 0,
    ensures
        name_end(source, at) == end,
    decreases end - at,
{
    if at < end {
        lemma_name_end(source, at + 1, end);
    }
}

/// A plain name is read back.
pub proof fn lemma_read_name(source: Seq<u8>, at: int, name: Seq<char>)
    requires
        holds_at(source, at, name_binary(name)),
        plain_name(name),
    ensures
        read_name(source, at) == Some((name, at + name_binary(name).len())),
        name_binary(name).len() == name.len() + 1,
{
    assert(is_ascii_chars(name));
    is_ascii_chars_encode_utf8(name);
    encode_utf8_valid_utf8(name);
    encode_utf8_decode_utf8(name);
    let bytes = encode_utf8(name);
    let k = bytes.len() as int;
    let whole = source.subrange(at, at + k + 1);
    assert(whole == bytes.push(0));
    assert forall|j: int| at <= j < at + k implies #[trigger] source[j] != 0 by {
        assert(source[j] == whole[j - at]);
        assert(whole[j - at] == bytes[j - at]);
        assert(bytes[j - at] == name[j - at] as u8);
    }
    assert(source[at + k] == whole[k]);
    lemma_name_end(source, at, at + k);
    assert(source.subrange(at, at + k) =~= bytes);
}

/// The frames of a run are the frame of its first value, then the frames of
/// the rest.
pub proof fn lemma_frames_front<T: Vectorizable>(v: Seq<T>)
    requires
        v.len() > 0,
    ensures
        frames(v) == v[0].frame() + frames(v.drop_first()),
    decreases v.len(),
{
    if v.len() == 1 {
        assert(v.drop_last() =~= Seq::<T>::empty());
        assert(v.drop_first() =~= Seq::<T>::empty());
        assert(frames(v) == frames(v.drop_last()) + v.last().frame());
        assert(frames(v.drop_last()) == Seq::<u8>::empty());
        assert(frames(v.drop_first()) == Seq::<u8>::empty());
        assert(frames(v) =~= v[0].frame() + frames(v.drop_first()));
    } else {
        lemma_frames_front(v.drop_last());
        let rest = v.drop_first();
        assert(rest.drop_last() =~= v.drop_last().drop_first());
        assert(rest.last() == v.last());
        assert(v.drop_last()[0] == v[0]);
        assert(frames(v) == frames(v.drop_last()) + v.last().frame());
        assert(frames(rest) == frames(rest.drop_last()) + rest.last().frame());
        assert(frames(v) =~= v[0].frame() + frames(rest));
    }
}

/// A run of values that their frames hold whole is read back.
pub proof fn lemma_read_vector<T: Vectorizable>(source: Seq<u8>, at: int, v: Seq<T>)
    requires
        holds_at(source, at, vector_binary(v)),
        forall|i: int| 0 <= i < v.len() ==> (#[trigger] v[i]).framed_whole(),
    ensures
        read_vector::<T>(source, at) == Some((v, at + vector_binary(v).len())),
    decreases v.len(),
{
    let w = T::width() as int;
    if v.len() == 0 {
        assert(frames(v) == Seq::<u8>::empty());
        assert(vector_binary(v) =~= closing(T::width()));
        if w > 0 {
            assert(source.subrange(at, at + w) == closing(T::width()));
        }
        assert(v =~= Seq::<T>::empty());
        lemma_width_positive::<T>();
    } else {
        let first = v[0];
        let rest = v.drop_first();
        first.lemma_frame();
        first.lemma_unframe();
        lemma_frames_front(v);
        assert(vector_binary(v) =~= first.frame() + vector_binary(rest));
        lemma_holds_both(source, at, first.frame(), vector_binary(rest));
        assert forall|i: int| 0 <= i < rest.len() implies (#[trigger] rest[i]).framed_whole() by {
            assert(rest[i] == v[i + 1]);
        }
        lemma_read_vector::<T>(source, at + w, rest);
        let frame = source.subrange(at, at + w);
        assert(frame == first.frame());
        assert(closing(T::width())[0] == 0xfe);
        assert(frame != closing(T::width()));
        assert(seq![first] + rest =~= v);
    }
}

/// A frame is at least one byte wide.
pub proof fn lemma_width_positive<T: Vectorizable>()
    ensures
        T::width() > 0,
{
    let x: T = arbitrary();
    x.lemma_frame();
}

/// The runs as written are the first run as written, then the rest.
pub proof fn lemma_runs_front<T: Vectorizable>(vs: Seq<Seq<T>>)
    requires
        vs.len() > 0,
    ensures
        runs(vs) == vector_binary(vs[0]) + runs(vs.drop_first()),
    decreases vs.len(),
{
    if vs.len() == 1 {
        assert(vs.drop_last() =~= Seq::<Seq<T>>::empty());
        assert(vs.drop_first() =~= Seq::<Seq<T>>::empty());
        assert(runs(vs) == runs(vs.drop_last()) + vector_binary(vs.last()));
        assert(runs(vs.drop_last()) == Seq::<u8>::empty());
        assert(runs(vs.drop_first()) == Seq::<u8>::empty());
        assert(runs(vs) =~= vector_binary(vs[0]) + runs(vs.drop_first()));
    } else {
        lemma_runs_front(vs.drop_last());
        let rest = vs.drop_first();
        assert(rest.drop_last() =~= vs.drop_last().drop_first());
        assert(rest.last() == vs.last());
        assert(vs.drop_last()[0] == vs[0]);
        assert(runs(vs) == runs(vs.drop_last()) + vector_binary(vs.last()));
        assert(runs(rest) == runs(rest.drop_last()) + vector_binary(rest.last()));
        assert(runs(vs) =~= vector_binary(vs[0]) + runs(rest));
    }
}

/// One run is read as part of a run of runs: its values join those already
/// read for it, and its closing frame ends it.
pub proof fn lemma_read_run<T: Vectorizable>(source: Seq<u8>, at: int, tail: Seq<T>, current: Seq<T>)
    requires
        holds_at(source, at, vector_binary(tail)),
        forall|i: int| 0 <= i < tail.len() ==> (#[trigger] tail[i]).framed_whole(),
    ensures
        read_vectors::<T>(source, at, current) == after_runs(
            seq![current + tail],
            read_vectors::<T>(source, at + vector_binary(tail).len(), Seq::empty()),
        ),
    decreases tail.len(),
{
    let w = T::width() as int;
    lemma_width_positive::<T>();
    if tail.len() == 0 {
        assert(frames(tail) == Seq::<u8>::empty());
        assert(vector_binary(tail) =~= closing(T::width()));
        assert(source.subrange(at, at + w) == closing(T::width()));
        assert(current + tail =~= current);
    } else {
        let first = tail[0];
        let rest = tail.drop_first();
        first.lemma_frame();
        first.lemma_unframe();
        lemma_frames_front(tail);
        assert(vector_binary(tail) =~= first.frame() + vector_binary(rest));
        lemma_holds_both(source, at, first.frame(), vector_binary(rest));
        assert forall|i: int| 0 <= i < rest.len() implies (#[trigger] rest[i]).framed_whole() by {
            assert(rest[i] == tail[i + 1]);
        }
        lemma_read_run::<T>(source, at + w, rest, current.push(first));
        let frame = source.subrange(at, at + w);
        assert(frame == first.frame());
        assert(closing(T::width())[0] == 0xfe);
        assert(closing_all(T::width())[0] == 0xff);
        assert(frame != closing(T::width()));
        assert(frame != closing_all(T::width()));
        assert(current.push(first) + rest =~= current + tail);
    }
}

/// A run of runs of values that their frames hold whole is read back.
pub proof fn lemma_read_vectors<T: Vectorizable>(source: Seq<u8>, at: int, vs: Seq<Seq<T>>)
    requires
        holds_at(source, at, vectors_binary(vs)),
        forall|k: int, i: int|
            0 <= k < vs.len() && 0 <= i < vs[k].len() ==> (#[trigger] vs[k][i]).framed_whole(),
    ensures
        read_vectors::<T>(source, at, Seq::empty()) == Some((vs, at + vectors_binary(vs).len())),
    decreases vs.len(),
{
    let w = T::width() as int;
    lemma_width_positive::<T>();
    if vs.len() == 0 {
        assert(runs(vs) == Seq::<u8>::empty());
        assert(vectors_binary(vs) =~= closing_all(T::width()));
        let frame = source.subrange(at, at + w);
        assert(frame == closing_all(T::width()));
        assert(closing(T::width())[0] == 0xfe);
        assert(frame[0] == 0xff);
        assert(frame != closing(T::width()));
        assert(vs =~= Seq::<Seq<T>>::empty());
    } else {
        let first = vs[0];
        let rest = vs.drop_first();
        lemma_runs_front(vs);
        assert(vectors_binary(vs) =~= vector_binary(first) + vectors_binary(rest));
        lemma_holds_both(source, at, vector_binary(first), vectors_binary(rest));
        assert forall|i: int| 0 <= i < first.len() implies (#[trigger] first[i]).framed_whole() by {
            assert(vs[0][i].framed_whole());
        }
        lemma_read_run::<T>(source, at, first, Seq::empty());
        assert forall|k: int, i: int| 0 <= k < rest.len() && 0 <= i < rest[k].len() implies (
        #[trigger] rest[k][i]).framed_whole() by {
            assert(rest[k] == vs[k + 1]);
            assert(vs[k + 1][i].framed_whole());
        }
        lemma_read_vectors::<T>(source, at + vector_binary(first).len(), rest);
        assert(Seq::<T>::empty() + first =~= first);
        assert(seq![first] + rest =~= vs);
    }
}

/// Every id in the tree is one that four bytes hold in full.
pub open spec fn term_whole(t: Term) -> bool
    decreases t,
{
    match t {
        Term::Atomic { id, .. } => fits32(id),
        Term::Composite { rule, formulas, objects, .. } => {
            &&& fits32(rule)
            &&& forall|i: int| 0 <= i < formulas.len() ==> term_whole(#[trigger] formulas[i])
            &&& forall|i: int| 0 <= i < objects.len() ==> term_whole(#[trigger] objects[i])
        },
    }
}

/// Every block of the run is held whole by its frame.
pub open spec fn blocks_whole(blocks: Seq<RpnBlock>) -> bool {
    forall|i: int| 0 <= i < blocks.len() ==> (#[trigger] blocks[i]).framed_whole()
}

/// The blocks of a tree whose ids are held in full are held whole.
pub proof fn lemma_rpn_whole(t: Term)
    requires
        term_whole(t),
    ensures
        blocks_whole(rpn_of(t)),
    decreases t, 0nat,
{
    match t {
        Term::Atomic { sort, id } => {
            assert(rpn_of(t) == seq![root_block(t)]);
        },
        Term::Composite { sort, rule, formulas, objects } => {
            lemma_rpn_all_whole(formulas);
            lemma_rpn_all_whole(objects);
            let a = rpn_of_all(formulas);
            let b = rpn_of_all(objects);
            assert(rpn_of(t) == (a + b).push(root_block(t)));
            assert forall|i: int| 0 <= i < rpn_of(t).len() implies (#[trigger] rpn_of(t)[i]).framed_whole() by {
                if i < a.len() {
                    assert(rpn_of(t)[i] == a[i]);
                } else if i < a.len() + b.len() {
                    assert(rpn_of(t)[i] == b[i - a.len()]);
                }
            }
        },
    }
}

/// The blocks of trees whose ids are held in full are held whole.
pub proof fn lemma_rpn_all_whole(ts: Seq<Term>)
    requires
        forall|i: int| 0 <= i < ts.len() ==> term_whole(#[trigger] ts[i]),
    ensures
        blocks_whole(rpn_of_all(ts)),
    decreases ts, 1nat,
{
    if ts.len() == 0 {
        assert(rpn_of_all(ts) == Seq::<RpnBlock>::empty());
    } else {
        let front = ts.drop_last();
        assert forall|i: int| 0 <= i < front.len() implies term_whole(#[trigger] front[i]) by {
            assert(front[i] == ts[i]);
        }
        lemma_rpn_all_whole(front);
        assert(term_whole(ts[ts.len() - 1]));
        lemma_rpn_whole(ts.last());
        let a = rpn_of_all(front);
        let b = rpn_of(ts.last());
        assert(rpn_of_all(ts) == a + b);
        assert forall|i: int| 0 <= i < rpn_of_all(ts).len() implies (#[trigger] rpn_of_all(ts)[i]).framed_whole() by {
            if i < a.len() {
                assert(rpn_of_all(ts)[i] == a[i]);
            } else {
                assert(rpn_of_all(ts)[i] == b[i - a.len()]);
            }
        }
    }
}

/// A formula that the archive holds whole: it is a formula, every child in
/// it is of the kind that its place asks for, its nodes fit the table, and
/// four bytes hold each of its ids in full.
pub open spec fn storable(t: Term, table: Seq<SyntaxModel>) -> bool {
    t.sort() == SyntaxType::Formula && t.well_sorted() && t.fits_table(table) && term_whole(t)
}

/// Every formula of the run is one that the archive holds whole.
pub open spec fn all_storable(ts: Seq<Term>, table: Seq<SyntaxModel>) -> bool {
    forall|i: int| 0 <= i < ts.len() ==> storable(#[trigger] ts[i], table)
}

/// Formulas that the archive holds whole are read back from their postfix
/// forms.
pub proof fn lemma_decode_all(ts: Seq<Term>, table: Seq<SyntaxModel>)
    requires
        all_storable(ts, table),
    ensures
        decode_all(rpn_rows(ts), table) == Some(ts),
        forall|k: int, i: int|
            0 <= k < rpn_rows(ts).len() && 0 <= i < rpn_rows(ts)[k].len() ==> (
            #[trigger] rpn_rows(ts)[k][i]).framed_whole(),
{
    let rows = rpn_rows(ts);
    assert forall|i: int| 0 <= i < rows.len() implies decode(#[trigger] rows[i], table) == Some(
        ts[i],
    ) by {
        assert(storable(ts[i], table));
        lemma_decode_rpn_of(ts[i], table);
    }
    assert(rows.map_values(|b: Seq<RpnBlock>| decode(b, table)->0) =~= ts);
    assert forall|k: int, i: int| 0 <= k < rows.len() && 0 <= i < rows[k].len() implies (
    #[trigger] rows[k][i]).framed_whole() by {
        assert(storable(ts[k], table));
        lemma_rpn_whole(ts[k]);
    }
}

/// A syntax rule that the archive holds whole: four bytes hold each of its
/// arities and each slot id of its pattern in full.
pub open spec fn rule_storable(rule: SyntaxModel) -> bool {
    &&& fits32(rule.distinct_wff_count)
    &&& fits32(rule.distinct_object_count)
    &&& forall|i: int| 0 <= i < rule.formula.len() ==> (#[trigger] rule.formula[i]).framed_whole()
}

/// A syntax rule that the archive holds whole is read back.
pub proof fn lemma_read_syntax(source: Seq<u8>, at: int, rule: SyntaxModel)
    requires
        holds_at(source, at, syntax_binary(rule)),
        rule_storable(rule),
    ensures
        read_syntax(source, at) == Some((rule, at + syntax_binary(rule).len())),
{
    let a = seq![kind_byte(rule.syntax_type)];
    let b = le32(low32(rule.distinct_wff_count));
    let c = le32(low32(rule.distinct_object_count));
    let d = vector_binary(rule.formula);
    assert(syntax_binary(rule) == a + b + c + d);
    lemma_holds_both(source, at, a + b + c, d);
    lemma_holds_both(source, at, a + b, c);
    lemma_holds_both(source, at, a, b);
    assert(source[at] == source.subrange(at, at + 1)[0]);
    lemma_le32(low32(rule.distinct_wff_count), Seq::empty());
    lemma_le32(low32(rule.distinct_object_count), Seq::empty());
    lemma_read_number(source, at + 1, rule.distinct_wff_count);
    lemma_read_number(source, at + 5, rule.distinct_object_count);
    lemma_read_vector::<Placeholder>(source, at + 9, rule.formula);
}

/// A definition that the archive holds whole: its name is plain, four bytes
/// hold each of its counts in full, and its formula is held whole.
pub open spec fn definition_storable(d: DefinitionModel, table: Seq<SyntaxModel>) -> bool {
    &&& plain_name(d.name)
    &&& fits32(d.distinct_wff_count)
    &&& fits32(d.distinct_object_count)
    &&& storable(d.definition, table)
}

/// A definition that the archive holds whole is read back.
pub proof fn lemma_read_definition(
    source: Seq<u8>,
    at: int,
    d: DefinitionModel,
    table: Seq<SyntaxModel>,
)
    requires
        holds_at(source, at, definition_binary(d)),
        definition_storable(d, table),
    ensures
        read_definition(source, at, table) == Some((d, at + definition_binary(d).len())),
{
    let a = name_binary(d.name);
    let b = le32(low32(d.distinct_wff_count));
    let c = le32(low32(d.distinct_object_count));
    let e = vector_binary(rpn_of(d.definition));
    assert(definition_binary(d) == a + b + c + e);
    lemma_holds_both(source, at, a + b + c, e);
    lemma_holds_both(source, at, a + b, c);
    lemma_holds_both(source, at, a, b);
    lemma_read_name(source, at, d.name);
    lemma_le32(low32(d.distinct_wff_count), Seq::empty());
    lemma_le32(low32(d.distinct_object_count), Seq::empty());
    lemma_read_number(source, at + a.len(), d.distinct_wff_count);
    lemma_read_number(source, at + a.len() + 4, d.distinct_object_count);
    lemma_rpn_whole(d.definition);
    lemma_read_vector::<RpnBlock>(source, at + a.len() + 8, rpn_of(d.definition));
    lemma_decode_rpn_of(d.definition, table);
}

/// An axiom that the archive holds whole.
pub open spec fn axiom_storable(a: AxiomModel, table: Seq<SyntaxModel>) -> bool {
    &&& plain_name(a.name)
    &&& fits32(a.distinct_wff_count)
    &&& fits32(a.distinct_object_count)
    &&& all_storable(a.hypotheses, table)
    &&& all_storable(a.assertions, table)
}

/// The name, the counts and the two runs of formulas that an axiom and a
/// theorem begin with, as written.
pub open spec fn head_binary(
    name: Seq<char>,
    wffs: usize,
    objects: usize,
    hypotheses: Seq<Term>,
    assertions: Seq<Term>,
) -> Seq<u8> {
    name_binary(name) + le32(low32(wffs)) + le32(low32(objects)) + vectors_binary(
        rpn_rows(hypotheses),
    ) + vectors_binary(rpn_rows(assertions))
}

/// What an axiom and a theorem begin with is read back.
pub proof fn lemma_read_head(
    source: Seq<u8>,
    at: int,
    name: Seq<char>,
    wffs: usize,
    objects: usize,
    hypotheses: Seq<Term>,
    assertions: Seq<Term>,
    table: Seq<SyntaxModel>,
)
    requires
        holds_at(source, at, head_binary(name, wffs, objects, hypotheses, assertions)),
        plain_name(name),
        fits32(wffs),
        fits32(objects),
        all_storable(hypotheses, table),
        all_storable(assertions, table),
    ensures
        read_axiom_part(source, at) == Some(
            (
                name,
                wffs,
                objects,
                rpn_rows(hypotheses),
                rpn_rows(assertions),
                at + head_binary(name, wffs, objects, hypotheses, assertions).len(),
            ),
        ),
        decode_all(rpn_rows(hypotheses), table) == Some(hypotheses),
        decode_all(rpn_rows(assertions), table) == Some(assertions),
{
    let a = name_binary(name);
    let b = le32(low32(wffs));
    let c = le32(low32(objects));
    let d = vectors_binary(rpn_rows(hypotheses));
    let e = vectors_binary(rpn_rows(assertions));
    lemma_holds_both(source, at, a + b + c + d, e);
    lemma_holds_both(source, at, a + b + c, d);
    lemma_holds_both(source, at, a + b, c);
    lemma_holds_both(source, at, a, b);
    lemma_read_name(source, at, name);
    lemma_le32(low32(wffs), Seq::empty());
    lemma_le32(low32(objects), Seq::empty());
    lemma_read_number(source, at + a.len(), wffs);
    lemma_read_number(source, at + a.len() + 4, objects);
    lemma_decode_all(hypotheses, table);
    lemma_decode_all(assertions, table);
    lemma_read_vectors::<RpnBlock>(source, at + a.len() + 8, rpn_rows(hypotheses));
    lemma_read_vectors::<RpnBlock>(source, at + a.len() + 8 + d.len(), rpn_rows(assertions));
}

/// An axiom that the archive holds whole is read back.
pub proof fn lemma_read_axiom(source: Seq<u8>, at: int, a: AxiomModel, table: Seq<SyntaxModel>)
    requires
        holds_at(source, at, axiom_binary(a)),
        axiom_storable(a, table),
    ensures
        read_axiom(source, at, table) == Some((a, at + axiom_binary(a).len())),
{
    assert(axiom_binary(a) == head_binary(
        a.name,
        a.distinct_wff_count,
        a.distinct_object_count,
        a.hypotheses,
        a.assertions,
    ));
    lemma_read_head(
        source,
        at,
        a.name,
        a.distinct_wff_count,
        a.distinct_object_count,
        a.hypotheses,
        a.assertions,
        table,
    );
}

/// A proof step that the archive holds whole.
pub open spec fn step_storable(s: StepModel, table: Seq<SyntaxModel>) -> bool {
    &&& forall|i: int| 0 <= i < s.used.len() ==> fits32(#[trigger] s.used[i])
    &&& s.cited.framed_whole()
    &&& storable(s.result, table)
}

/// A theorem that the archive holds whole.
pub open spec fn theorem_storable(t: TheoremModel, table: Seq<SyntaxModel>) -> bool {
    &&& plain_name(t.name)
    &&& fits32(t.distinct_wff_count)
    &&& fits32(t.distinct_object_count)
    &&& all_storable(t.hypotheses, table)
    &&& all_storable(t.assertions, table)
    &&& forall|i: int| 0 <= i < t.proof.len() ==> step_storable(#[trigger] t.proof[i], table)
}

/// The three rows of a proof as written.
pub open spec fn rows_binary(steps: Seq<StepModel>) -> Seq<u8> {
    vectors_binary(used_rows(steps)) + vector_binary(cited_row(steps)) + vectors_binary(
        rpn_rows(result_row(steps)),
    )
}

/// The three rows of a proof that the archive holds whole are read back, and
/// give the steps of the proof.
pub proof fn lemma_read_rows(source: Seq<u8>, at: int, steps: Seq<StepModel>, table: Seq<SyntaxModel>)
    requires
        holds_at(source, at, rows_binary(steps)),
        forall|i: int| 0 <= i < steps.len() ==> step_storable(#[trigger] steps[i], table),
    ensures
        read_rows(source, at) == Some(
            (
                used_rows(steps),
                cited_row(steps),
                rpn_rows(result_row(steps)),
                at + rows_binary(steps).len(),
            ),
        ),
        steps_of(used_rows(steps), cited_row(steps), rpn_rows(result_row(steps)), table) == Some(
            steps,
        ),
{
    let a = vectors_binary(used_rows(steps));
    let b = vector_binary(cited_row(steps));
    let c = vectors_binary(rpn_rows(result_row(steps)));
    lemma_holds_both(source, at, a + b, c);
    lemma_holds_both(source, at, a, b);
    let used = used_rows(steps);
    assert forall|k: int, i: int| 0 <= k < used.len() && 0 <= i < used[k].len() implies (
    #[trigger] used[k][i]).framed_whole() by {
        assert(step_storable(steps[k], table));
        assert(fits32(steps[k].used[i]));
    }
    lemma_read_vectors::<usize>(source, at, used);
    let cited = cited_row(steps);
    assert forall|i: int| 0 <= i < cited.len() implies (#[trigger] cited[i]).framed_whole() by {
        assert(step_storable(steps[i], table));
    }
    lemma_read_vector::<Reference>(source, at + a.len(), cited);
    let results = result_row(steps);
    assert forall|i: int| 0 <= i < results.len() implies storable(#[trigger] results[i], table) by {
        assert(step_storable(steps[i], table));
    }
    lemma_decode_all(results, table);
    lemma_read_vectors::<RpnBlock>(source, at + a.len() + b.len(), rpn_rows(results));
    assert(Seq::new(
        used.len(),
        |i: int| StepModel { used: used[i], cited: cited[i], result: results[i] },
    ) =~= steps);
}

/// A theorem that the archive holds whole is read back.
pub proof fn lemma_read_theorem(source: Seq<u8>, at: int, t: TheoremModel, table: Seq<SyntaxModel>)
    requires
        holds_at(source, at, theorem_binary(t)),
        theorem_storable(t, table),
    ensures
        read_theorem(source, at, table) == Some((t, at + theorem_binary(t).len())),
{
    let head = head_binary(
        t.name,
        t.distinct_wff_count,
        t.distinct_object_count,
        t.hypotheses,
        t.assertions,
    );
    let rows = rows_binary(t.proof);
    assert(theorem_binary(t) =~= head + rows);
    lemma_holds_both(source, at, head, rows);
    lemma_read_head(
        source,
        at,
        t.name,
        t.distinct_wff_count,
        t.distinct_object_count,
        t.hypotheses,
        t.assertions,
        table,
    );
    lemma_read_rows(source, at + head.len(), t.proof, table);
}

/// The syntax records are the first record, then the records of the rest.
pub proof fn lemma_syntax_records_front(v: Seq<SyntaxModel>)
    requires
        v.len() > 0,
    ensures
        syntax_records(v) == seq![SYNTAX_RECORD] + syntax_binary(v[0]) + syntax_records(v.drop_first()),
    decreases v.len(),
{
    if v.len() == 1 {
        assert(v.drop_last() =~= Seq::<SyntaxModel>::empty());
        assert(v.drop_first() =~= Seq::<SyntaxModel>::empty());
        assert(syntax_records(v) == syntax_records(v.drop_last()) + seq![SYNTAX_RECORD] + syntax_binary(v.last()));
        assert(syntax_records(v.drop_last()) == Seq::<u8>::empty());
        assert(syntax_records(v.drop_first()) == Seq::<u8>::empty());
        assert(syntax_records(v) =~= seq![SYNTAX_RECORD] + syntax_binary(v[0]) + syntax_records(v.drop_first()));
    } else {
        lemma_syntax_records_front(v.drop_last());
        let rest = v.drop_first();
        assert(rest.drop_last() =~= v.drop_last().drop_first());
        assert(rest.last() == v.last());
        assert(v.drop_last()[0] == v[0]);
        assert(syntax_records(v) == syntax_records(v.drop_last()) + seq![SYNTAX_RECORD] + syntax_binary(v.last()));
        assert(syntax_records(rest) == syntax_records(rest.drop_last()) + seq![SYNTAX_RECORD] + syntax_binary(
            rest.last(),
        ));
        assert(syntax_records(v) =~= seq![SYNTAX_RECORD] + syntax_binary(v[0]) + syntax_records(rest));
    }
}

/// The definition records are the first record, then the records of the rest.
pub proof fn lemma_definition_records_front(v: Seq<DefinitionModel>)
    requires
        v.len() > 0,
    ensures
        definition_records(v) == seq![DEFINITION_RECORD] + definition_binary(v[0]) + definition_records(v.drop_first()),
    decreases v.len(),
{
    if v.len() == 1 {
        assert(v.drop_last() =~= Seq::<DefinitionModel>::empty());
        assert(v.drop_first() =~= Seq::<DefinitionModel>::empty());
        assert(definition_records(v) == definition_records(v.drop_last()) + seq![DEFINITION_RECORD] + definition_binary(v.last()));
        assert(definition_records(v.drop_last()) == Seq::<u8>::empty());
        assert(definition_records(v.drop_first()) == Seq::<u8>::empty());
        assert(definition_records(v) =~= seq![DEFINITION_RECORD] + definition_binary(v[0]) + definition_records(v.drop_first()));
    } else {
        lemma_definition_records_front(v.drop_last());
        let rest = v.drop_first();
        assert(rest.drop_last() =~= v.drop_last().drop_first());
        assert(rest.last() == v.last());
        assert(v.drop_last()[0] == v[0]);
        assert(definition_records(v) == definition_records(v.drop_last()) + seq![DEFINITION_RECORD] + definition_binary(v.last()));
        assert(definition_records(rest) == definition_records(rest.drop_last()) + seq![DEFINITION_RECORD] + definition_binary(
            rest.last(),
        ));
        assert(definition_records(v) =~= seq![DEFINITION_RECORD] + definition_binary(v[0]) + definition_records(rest));
    }
}

/// The axiom records are the first record, then the records of the rest.
pub proof fn lemma_axiom_records_front(v: Seq<AxiomModel>)
    requires
        v.len() > 0,
    ensures
        axiom_records(v) == seq![AXIOM_RECORD] + axiom_binary(v[0]) + axiom_records(v.drop_first()),
    decreases v.len(),
{
    if v.len() == 1 {
        assert(v.drop_last() =~= Seq::<AxiomModel>::empty());
        assert(v.drop_first() =~= Seq::<AxiomModel>::empty());
        assert(axiom_records(v) == axiom_records(v.drop_last()) + seq![AXIOM_RECORD] + axiom_binary(v.last()));
        assert(axiom_records(v.drop_last()) == Seq::<u8>::empty());
        assert(axiom_records(v.drop_first()) == Seq::<u8>::empty());
        assert(axiom_records(v) =~= seq![AXIOM_RECORD] + axiom_binary(v[0]) + axiom_records(v.drop_first()));
    } else {
        lemma_axiom_records_front(v.drop_last());
        let rest = v.drop_first();
        assert(rest.drop_last() =~= v.drop_last().drop_first());
        assert(rest.last() == v.last());
        assert(v.drop_last()[0] == v[0]);
        assert(axiom_records(v) == axiom_records(v.drop_last()) + seq![AXIOM_RECORD] + axiom_binary(v.last()));
        assert(axiom_records(rest) == axiom_records(rest.drop_last()) + seq![AXIOM_RECORD] + axiom_binary(
            rest.last(),
        ));
        assert(axiom_records(v) =~= seq![AXIOM_RECORD] + axiom_binary(v[0]) + axiom_records(rest));
    }
}

/// The theorem records are the first record, then the records of the rest.
pub proof fn lemma_theorem_records_front(v: Seq<TheoremModel>)
    requires
        v.len() > 0,
    ensures
        theorem_records(v) == seq![THEOREM_RECORD] + theorem_binary(v[0]) + theorem_records(v.drop_first()),
    decreases v.len(),
{
    if v.len() == 1 {
        assert(v.drop_last() =~= Seq::<TheoremModel>::empty());
        assert(v.drop_first() =~= Seq::<TheoremModel>::empty());
        assert(theorem_records(v) == theorem_records(v.drop_last()) + seq![THEOREM_RECORD] + theorem_binary(v.last()));
        assert(theorem_records(v.drop_last()) == Seq::<u8>::empty());
        assert(theorem_records(v.drop_first()) == Seq::<u8>::empty());
        assert(theorem_records(v) =~= seq![THEOREM_RECORD] + theorem_binary(v[0]) + theorem_records(v.drop_first()));
    } else {
        lemma_theorem_records_front(v.drop_last());
        let rest = v.drop_first();
        assert(rest.drop_last() =~= v.drop_last().drop_first());
        assert(rest.last() == v.last());
        assert(v.drop_last()[0] == v[0]);
        assert(theorem_records(v) == theorem_records(v.drop_last()) + seq![THEOREM_RECORD] + theorem_binary(v.last()));
        assert(theorem_records(rest) == theorem_records(rest.drop_last()) + seq![THEOREM_RECORD] + theorem_binary(
            rest.last(),
        ));
        assert(theorem_records(v) =~= seq![THEOREM_RECORD] + theorem_binary(v[0]) + theorem_records(rest));
    }
}

/// One record that is read, under a name that the index does not hold, leads
/// the reading on to the place after it.
pub proof fn lemma_read_one_record(source: Seq<u8>, at: int, st: Reading)
    requires
        0 <= at < source.len(),
    ensures
        source[at] == SYNTAX_RECORD ==> (read_syntax(source, at + 1) matches Some((rule, next))
            ==> read_archive(source, at, st) == read_archive(
            source,
            onward(at, next, source.len() as int),
            st.with_syntax(rule),
        )),
        source[at] == DEFINITION_RECORD ==> (read_definition(source, at + 1, st.lib.syntaxes)
            matches Some((d, next)) ==> (lookup(st.index, d.name) is None ==> read_archive(
            source,
            at,
            st,
        ) == read_archive(source, onward(at, next, source.len() as int), st.with_definition(d)))),
        source[at] == AXIOM_RECORD ==> (read_axiom(source, at + 1, st.lib.syntaxes) matches Some(
            (a, next),
        ) ==> (lookup(st.index, a.name) is None ==> read_archive(source, at, st) == read_archive(
            source,
            onward(at, next, source.len() as int),
            st.with_axiom(a),
        ))),
        source[at] == THEOREM_RECORD ==> (read_theorem(source, at + 1, st.lib.syntaxes)
            matches Some((t, next)) ==> (lookup(st.index, t.name) is None ==> read_archive(
            source,
            at,
            st,
        ) == read_archive(source, onward(at, next, source.len() as int), st.with_theorem(t)))),
        source[at] == END_OF_ARCHIVE ==> read_archive(source, at, st) == st,
{
    reveal(read_archive);
}

/// Reading with more syntax rules read.
pub open spec fn with_syntaxes(st: Reading, more: Seq<SyntaxModel>) -> Reading {
    Reading { lib: LibraryModel { syntaxes: st.lib.syntaxes + more, ..st.lib }, ..st }
}

/// Syntax rules that the archive holds whole are read one after the other,
/// and the reading goes on after them.
pub proof fn lemma_read_syntax_records(source: Seq<u8>, at: int, rest: Seq<SyntaxModel>, st: Reading)
    requires
        holds_at(source, at, syntax_records(rest)),
        forall|i: int| 0 <= i < rest.len() ==> rule_storable(#[trigger] rest[i]),
    ensures
        read_archive(source, at, st) == read_archive(
            source,
            at + syntax_records(rest).len(),
            with_syntaxes(st, rest),
        ),
    decreases rest.len(),
{
    if rest.len() == 0 {
        assert(syntax_records(rest) == Seq::<u8>::empty());
        assert(st.lib.syntaxes + rest =~= st.lib.syntaxes);
    } else {
        let first = rest[0];
        let tail = rest.drop_first();
        lemma_syntax_records_front(rest);
        let a = seq![SYNTAX_RECORD];
        let b = syntax_binary(first);
        let c = syntax_records(tail);
        lemma_holds_both(source, at, a + b, c);
        lemma_holds_both(source, at, a, b);
        assert(source[at] == source.subrange(at, at + 1)[0]);
        lemma_read_syntax(source, at + 1, first);
        let next = at + 1 + b.len();
        assert(onward(at, next, source.len() as int) == next);
        lemma_read_one_record(source, at, st);
        assert forall|i: int| 0 <= i < tail.len() implies rule_storable(#[trigger] tail[i]) by {
            assert(tail[i] == rest[i + 1]);
        }
        lemma_read_syntax_records(source, next, tail, st.with_syntax(first));
        assert(st.lib.syntaxes.push(first) + tail =~= st.lib.syntaxes + rest);
    }
}

/// The index entries of definitions that stand from place `from` on.
pub open spec fn definition_entries(v: Seq<DefinitionModel>, from: nat) -> Seq<(Seq<char>, Reference)> {
    Seq::new(v.len(), |i: int| (v[i].name, Reference::DefinitionReference((from + i) as usize)))
}

/// The index entries of axioms that stand from place `from` on.
pub open spec fn axiom_entries(v: Seq<AxiomModel>, from: nat) -> Seq<(Seq<char>, Reference)> {
    Seq::new(v.len(), |i: int| (v[i].name, Reference::AxiomReference((from + i) as usize, 0)))
}

/// The index entries of theorems that stand from place `from` on.
pub open spec fn theorem_entries(v: Seq<TheoremModel>, from: nat) -> Seq<(Seq<char>, Reference)> {
    Seq::new(v.len(), |i: int| (v[i].name, Reference::TheoremReference((from + i) as usize, 0)))
}

/// Reading with more definitions read.
pub open spec fn with_definitions(st: Reading, more: Seq<DefinitionModel>) -> Reading {
    Reading {
        lib: LibraryModel { definitions: st.lib.definitions + more, ..st.lib },
        index: st.index + definition_entries(more, st.lib.definitions.len()),
    }
}

/// Reading with more axioms read.
pub open spec fn with_axioms(st: Reading, more: Seq<AxiomModel>) -> Reading {
    Reading {
        lib: LibraryModel { axioms: st.lib.axioms + more, ..st.lib },
        index: st.index + axiom_entries(more, st.lib.axioms.len()),
    }
}

/// Reading with more theorems read.
pub open spec fn with_theorems(st: Reading, more: Seq<TheoremModel>) -> Reading {
    Reading {
        lib: LibraryModel { theorems: st.lib.theorems + more, ..st.lib },
        index: st.index + theorem_entries(more, st.lib.theorems.len()),
    }
}

/// Reading one more definition and then the rest is reading them all.
pub proof fn lemma_with_definitions_step(st: Reading, more: Seq<DefinitionModel>)
    requires
        more.len() > 0,
        st.lib.definitions.len() + more.len() <= usize::MAX,
    ensures
        with_definitions(st.with_definition(more[0]), more.drop_first()) == with_definitions(st, more),
{
    let first = more[0];
    let tail = more.drop_first();
    let st2 = st.with_definition(first);
    assert(st.lib.definitions.push(first) + tail =~= st.lib.definitions + more);
    assert(st2.index + definition_entries(tail, st2.lib.definitions.len()) =~= st.index + definition_entries(
        more,
        st.lib.definitions.len(),
    ));
}

/// A definition that the archive holds whole is read, and the reading goes on
/// after it.
pub proof fn lemma_read_definition_record(source: Seq<u8>, at: int, first: DefinitionModel, st: Reading)
    requires
        holds_at(source, at, seq![DEFINITION_RECORD] + definition_binary(first)),
        definition_storable(first, st.lib.syntaxes),
        lookup(st.index, first.name) is None,
    ensures
        read_archive(source, at, st) == read_archive(
            source,
            at + 1 + definition_binary(first).len(),
            st.with_definition(first),
        ),
{
    let a = seq![DEFINITION_RECORD];
    let b = definition_binary(first);
    lemma_holds_both(source, at, a, b);
    assert(source[at] == source.subrange(at, at + 1)[0]);
    lemma_read_definition(source, at + 1, first, st.lib.syntaxes);
    let next = at + 1 + b.len();
    assert(onward(at, next, source.len() as int) == next);
    lemma_read_one_record(source, at, st);
}

/// Definitions that the archive holds whole are read one after the other.
pub proof fn lemma_read_definition_records(
    source: Seq<u8>,
    at: int,
    rest: Seq<DefinitionModel>,
    st: Reading,
)
    requires
        holds_at(source, at, definition_records(rest)),
        forall|i: int| 0 <= i < rest.len() ==> definition_storable(#[trigger] rest[i], st.lib.syntaxes),
        st.lib.definitions.len() + rest.len() <= usize::MAX,
        forall|i: int| 0 <= i < rest.len() ==> lookup(st.index, (#[trigger] rest[i]).name) is None,
        forall|i: int, j: int|
            0 <= i < j < rest.len() ==> (#[trigger] rest[i]).name != (#[trigger] rest[j]).name,
    ensures
        read_archive(source, at, st) == read_archive(
            source,
            at + definition_records(rest).len(),
            with_definitions(st, rest),
        ),
    decreases rest.len(),
{
    if rest.len() == 0 {
        assert(definition_records(rest) == Seq::<u8>::empty());
        assert(st.lib.definitions + rest =~= st.lib.definitions);
        assert(st.index + definition_entries(rest, st.lib.definitions.len()) =~= st.index);
    } else {
        let first = rest[0];
        let tail = rest.drop_first();
        lemma_definition_records_front(rest);
        let a = seq![DEFINITION_RECORD];
        let b = definition_binary(first);
        let c = definition_records(tail);
        lemma_holds_both(source, at, a + b, c);
        lemma_read_definition_record(source, at, first, st);
        let next = at + 1 + b.len();
        let st2 = st.with_definition(first);
        assert forall|i: int| 0 <= i < tail.len() implies definition_storable(
            #[trigger] tail[i],
            st2.lib.syntaxes,
        ) by {
            assert(tail[i] == rest[i + 1]);
        }
        assert forall|i: int| 0 <= i < tail.len() implies lookup(
            st2.index,
            (#[trigger] tail[i]).name,
        ) is None by {
            assert(tail[i] == rest[i + 1]);
            lemma_lookup_after_push(
                st.index,
                first.name,
                st2.index.last().1,
                tail[i].name,
            );
            assert(st2.index =~= st.index.push((first.name, st2.index.last().1)));
        }
        assert forall|i: int, j: int| 0 <= i < j < tail.len() implies (#[trigger] tail[i]).name != (
        #[trigger] tail[j]).name by {
            assert(tail[i] == rest[i + 1] && tail[j] == rest[j + 1]);
        }
        lemma_read_definition_records(source, next, tail, st2);
        lemma_with_definitions_step(st, rest);
    }
}

/// Reading one more axiom and then the rest is reading them all.
pub proof fn lemma_with_axioms_step(st: Reading, more: Seq<AxiomModel>)
    requires
        more.len() > 0,
        st.lib.axioms.len() + more.len() <= usize::MAX,
    ensures
        with_axioms(st.with_axiom(more[0]), more.drop_first()) == with_axioms(st, more),
{
    let first = more[0];
    let tail = more.drop_first();
    let st2 = st.with_axiom(first);
    assert(st.lib.axioms.push(first) + tail =~= st.lib.axioms + more);
    assert(st2.index + axiom_entries(tail, st2.lib.axioms.len()) =~= st.index + axiom_entries(
        more,
        st.lib.axioms.len(),
    ));
}

/// An axiom that the archive holds whole is read, and the reading goes on
/// after it.
pub proof fn lemma_read_axiom_record(source: Seq<u8>, at: int, first: AxiomModel, st: Reading)
    requires
        holds_at(source, at, seq![AXIOM_RECORD] + axiom_binary(first)),
        axiom_storable(first, st.lib.syntaxes),
        lookup(st.index, first.name) is None,
    ensures
        read_archive(source, at, st) == read_archive(
            source,
            at + 1 + axiom_binary(first).len(),
            st.with_axiom(first),
        ),
{
    let a = seq![AXIOM_RECORD];
    let b = axiom_binary(first);
    lemma_holds_both(source, at, a, b);
    assert(source[at] == source.subrange(at, at + 1)[0]);
    lemma_read_axiom(source, at + 1, first, st.lib.syntaxes);
    let next = at + 1 + b.len();
    assert(onward(at, next, source.len() as int) == next);
    lemma_read_one_record(source, at, st);
}

/// Axioms that the archive holds whole are read one after the other.
pub proof fn lemma_read_axiom_records(source: Seq<u8>, at: int, rest: Seq<AxiomModel>, st: Reading)
    requires
        holds_at(source, at, axiom_records(rest)),
        forall|i: int| 0 <= i < rest.len() ==> axiom_storable(#[trigger] rest[i], st.lib.syntaxes),
        st.lib.axioms.len() + rest.len() <= usize::MAX,
        forall|i: int| 0 <= i < rest.len() ==> lookup(st.index, (#[trigger] rest[i]).name) is None,
        forall|i: int, j: int|
            0 <= i < j < rest.len() ==> (#[trigger] rest[i]).name != (#[trigger] rest[j]).name,
    ensures
        read_archive(source, at, st) == read_archive(
            source,
            at + axiom_records(rest).len(),
            with_axioms(st, rest),
        ),
    decreases rest.len(),
{
    if rest.len() == 0 {
        assert(axiom_records(rest) == Seq::<u8>::empty());
        assert(st.lib.axioms + rest =~= st.lib.axioms);
        assert(st.index + axiom_entries(rest, st.lib.axioms.len()) =~= st.index);
    } else {
        let first = rest[0];
        let tail = rest.drop_first();
        lemma_axiom_records_front(rest);
        let a = seq![AXIOM_RECORD];
        let b = axiom_binary(first);
        let c = axiom_records(tail);
        lemma_holds_both(source, at, a + b, c);
        lemma_read_axiom_record(source, at, first, st);
        let next = at + 1 + b.len();
        let st2 = st.with_axiom(first);
        assert forall|i: int| 0 <= i < tail.len() implies axiom_storable(
            #[trigger] tail[i],
            st2.lib.syntaxes,
        ) by {
            assert(tail[i] == rest[i + 1]);
        }
        assert forall|i: int| 0 <= i < tail.len() implies lookup(
            st2.index,
            (#[trigger] tail[i]).name,
        ) is None by {
            assert(tail[i] == rest[i + 1]);
            lemma_lookup_after_push(
                st.index,
                first.name,
                st2.index.last().1,
                tail[i].name,
            );
            assert(st2.index =~= st.index.push((first.name, st2.index.last().1)));
        }
        assert forall|i: int, j: int| 0 <= i < j < tail.len() implies (#[trigger] tail[i]).name != (
        #[trigger] tail[j]).name by {
            assert(tail[i] == rest[i + 1] && tail[j] == rest[j + 1]);
        }
        lemma_read_axiom_records(source, next, tail, st2);
        lemma_with_axioms_step(st, rest);
    }
}

/// Reading one more theorem and then the rest is reading them all.
pub proof fn lemma_with_theorems_step(st: Reading, more: Seq<TheoremModel>)
    requires
        more.len() > 0,
        st.lib.theorems.len() + more.len() <= usize::MAX,
    ensures
        with_theorems(st.with_theorem(more[0]), more.drop_first()) == with_theorems(st, more),
{
    let first = more[0];
    let tail = more.drop_first();
    let st2 = st.with_theorem(first);
    assert(st.lib.theorems.push(first) + tail =~= st.lib.theorems + more);
    assert(st2.index + theorem_entries(tail, st2.lib.theorems.len()) =~= st.index + theorem_entries(
        more,
        st.lib.theorems.len(),
    ));
}

/// A theorem that the archive holds whole is read, and the reading goes on
/// after it.
pub proof fn lemma_read_theorem_record(source: Seq<u8>, at: int, first: TheoremModel, st: Reading)
    requires
        holds_at(source, at, seq![THEOREM_RECORD] + theorem_binary(first)),
        theorem_storable(first, st.lib.syntaxes),
        lookup(st.index, first.name) is None,
    ensures
        read_archive(source, at, st) == read_archive(
            source,
            at + 1 + theorem_binary(first).len(),
            st.with_theorem(first),
        ),
{
    let a = seq![THEOREM_RECORD];
    let b = theorem_binary(first);
    lemma_holds_both(source, at, a, b);
    assert(source[at] == source.subrange(at, at + 1)[0]);
    lemma_read_theorem(source, at + 1, first, st.lib.syntaxes);
    let next = at + 1 + b.len();
    assert(onward(at, next, source.len() as int) == next);
    lemma_read_one_record(source, at, st);
}

/// Theorems that the archive holds whole are read one after the other.
pub proof fn lemma_read_theorem_records(source: Seq<u8>, at: int, rest: Seq<TheoremModel>, st: Reading)
    requires
        holds_at(source, at, theorem_records(rest)),
        forall|i: int| 0 <= i < rest.len() ==> theorem_storable(#[trigger] rest[i], st.lib.syntaxes),
        st.lib.theorems.len() + rest.len() <= usize::MAX,
        forall|i: int| 0 <= i < rest.len() ==> lookup(st.index, (#[trigger] rest[i]).name) is None,
        forall|i: int, j: int|
            0 <= i < j < rest.len() ==> (#[trigger] rest[i]).name != (#[trigger] rest[j]).name,
    ensures
        read_archive(source, at, st) == read_archive(
            source,
            at + theorem_records(rest).len(),
            with_theorems(st, rest),
        ),
    decreases rest.len(),
{
    if rest.len() == 0 {
        assert(theorem_records(rest) == Seq::<u8>::empty());
        assert(st.lib.theorems + rest =~= st.lib.theorems);
        assert(st.index + theorem_entries(rest, st.lib.theorems.len()) =~= st.index);
    } else {
        let first = rest[0];
        let tail = rest.drop_first();
        lemma_theorem_records_front(rest);
        let a = seq![THEOREM_RECORD];
        let b = theorem_binary(first);
        let c = theorem_records(tail);
        lemma_holds_both(source, at, a + b, c);
        lemma_read_theorem_record(source, at, first, st);
        let next = at + 1 + b.len();
        let st2 = st.with_theorem(first);
        assert forall|i: int| 0 <= i < tail.len() implies theorem_storable(
            #[trigger] tail[i],
            st2.lib.syntaxes,
        ) by {
            assert(tail[i] == rest[i + 1]);
        }
        assert forall|i: int| 0 <= i < tail.len() implies lookup(
            st2.index,
            (#[trigger] tail[i]).name,
        ) is None by {
            assert(tail[i] == rest[i + 1]);
            lemma_lookup_after_push(
                st.index,
                first.name,
                st2.index.last().1,
                tail[i].name,
            );
            assert(st2.index =~= st.index.push((first.name, st2.index.last().1)));
        }
        assert forall|i: int, j: int| 0 <= i < j < tail.len() implies (#[trigger] tail[i]).name != (
        #[trigger] tail[j]).name by {
            assert(tail[i] == rest[i + 1] && tail[j] == rest[j + 1]);
        }
        lemma_read_theorem_records(source, next, tail, st2);
        lemma_with_theorems_step(st, rest);
    }
}

/// A library that the archive holds whole: every rule, definition, axiom and
/// theorem of it is held whole, and the machine can count its entries.
pub open spec fn library_storable(lib: LibraryModel) -> bool {
    &&& forall|i: int| 0 <= i < lib.syntaxes.len() ==> rule_storable(#[trigger] lib.syntaxes[i])
    &&& forall|i: int|
        0 <= i < lib.definitions.len() ==> definition_storable(
            #[trigger] lib.definitions[i],
            lib.syntaxes,
        )
    &&& forall|i: int|
        0 <= i < lib.axioms.len() ==> axiom_storable(#[trigger] lib.axioms[i], lib.syntaxes)
    &&& forall|i: int|
        0 <= i < lib.theorems.len() ==> theorem_storable(#[trigger] lib.theorems[i], lib.syntaxes)
    &&& lib.definitions.len() <= usize::MAX
    &&& lib.axioms.len() <= usize::MAX
    &&& lib.theorems.len() <= usize::MAX
}

/// The name index of a library: its definitions, its axioms and its
/// theorems, each under its name, in that order.
pub open spec fn index_of(lib: LibraryModel) -> Seq<(Seq<char>, Reference)> {
    definition_entries(lib.definitions, 0) + axiom_entries(lib.axioms, 0) + theorem_entries(
        lib.theorems,
        0,
    )
}

/// The archive round trip. Reading the archive of a library that the
/// archive holds whole, and in which no two definitions, axioms and theorems
/// have one name, gives that library, and its name index.
pub proof fn lemma_archive_round_trip(lib: LibraryModel)
    requires
        library_storable(lib),
        lib.names_unique(),
    ensures
        read_archive(archive(lib), 0, Reading::start()) == (Reading { lib, index: index_of(lib) }),
{
    let source = archive(lib);
    let s = syntax_records(lib.syntaxes);
    let d = definition_records(lib.definitions);
    let a = axiom_records(lib.axioms);
    let t = theorem_records(lib.theorems);
    let e = seq![END_OF_ARCHIVE];
    assert(source =~= s + d + a + t + e);
    assert(source.subrange(0, source.len() as int) =~= source);
    lemma_holds_both(source, 0, s + d + a + t, e);
    lemma_holds_both(source, 0, s + d + a, t);
    lemma_holds_both(source, 0, s + d, a);
    lemma_holds_both(source, 0, s, d);
    let st0 = Reading::start();
    lemma_read_syntax_records(source, 0, lib.syntaxes, st0);
    let st1 = with_syntaxes(st0, lib.syntaxes);
    assert(st1.lib.syntaxes =~= lib.syntaxes);
    assert forall|i: int| 0 <= i < lib.definitions.len() implies lookup(
        st1.index,
        (#[trigger] lib.definitions[i]).name,
    ) is None by {
        lemma_lookup_absent(st1.index, lib.definitions[i].name);
    }
    lemma_read_definition_records(source, s.len() as int, lib.definitions, st1);
    let st2 = with_definitions(st1, lib.definitions);
    assert(st2.lib.definitions =~= lib.definitions);
    assert(st2.index =~= definition_entries(lib.definitions, 0));
    assert forall|i: int| 0 <= i < lib.axioms.len() implies lookup(
        st2.index,
        (#[trigger] lib.axioms[i]).name,
    ) is None by {
        assert forall|k: int| 0 <= k < st2.index.len() implies (#[trigger] st2.index[k]).0
            != lib.axioms[i].name by {
            assert(st2.index[k].0 == lib.definitions[k].name);
        }
        lemma_lookup_absent(st2.index, lib.axioms[i].name);
    }
    lemma_read_axiom_records(source, (s.len() + d.len()) as int, lib.axioms, st2);
    let st3 = with_axioms(st2, lib.axioms);
    assert(st3.lib.axioms =~= lib.axioms);
    assert(st3.index =~= definition_entries(lib.definitions, 0) + axiom_entries(lib.axioms, 0));
    assert forall|i: int| 0 <= i < lib.theorems.len() implies lookup(
        st3.index,
        (#[trigger] lib.theorems[i]).name,
    ) is None by {
        assert forall|k: int| 0 <= k < st3.index.len() implies (#[trigger] st3.index[k]).0
            != lib.theorems[i].name by {
            if k < lib.definitions.len() {
                assert(st3.index[k].0 == lib.definitions[k].name);
            } else {
                assert(st3.index[k].0 == lib.axioms[k - lib.definitions.len()].name);
            }
        }
        lemma_lookup_absent(st3.index, lib.theorems[i].name);
    }
    lemma_read_theorem_records(source, (s.len() + d.len() + a.len()) as int, lib.theorems, st3);
    let st4 = with_theorems(st3, lib.theorems);
    assert(st4.lib.theorems =~= lib.theorems);
    let end = (s.len() + d.len() + a.len() + t.len()) as int;
    assert(source[end] == source.subrange(end, end + 1)[0]);
    lemma_read_one_record(source, end, st4);
    assert(read_archive(source, end, st4) == st4);
    assert(st4.index =~= index_of(lib));
    assert(st4.lib == lib);
}

} // verus!
