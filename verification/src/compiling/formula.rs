//! The formula compiler: from the atoms of a formula to its tree, by
//! rewriting with the syntax rules of the table.

use std::collections::HashMap;
use vstd::prelude::*;
use crate::compiling::error::{CompileError, CompileErrorModel};
use crate::compiling::types::{
    formula_terms, object_terms, pieces, rules, Object, PartiallyCompiled, Piece, Placeholder,
    Syntax, SyntaxModel, SyntaxType, Term, WellFormedFormula,
};
use crate::parsing::types::FormulaChar;

verus! {

/// The atoms lifted so far: the working list, the leaves given to the
/// placeholders met, and whether the repetition marker was met.
pub struct Lifted {
    pub pieces: Seq<Piece>,
    pub formulas: Map<usize, WellFormedFormula>,
    pub objects: Map<usize, Object>,
    pub repetition: bool,
}

/// Lifting one more atom. A character stays as it is. A placeholder met
/// before stands for the leaf it was given; a new one is given the leaf whose
/// id is the number of placeholders of its kind known so far. The repetition
/// marker stops the lifting, and nothing changes after it.
pub open spec fn lift_atom(st: Lifted, a: FormulaChar) -> Lifted {
    if st.repetition {
        st
    } else {
        match a {
            FormulaChar::Char(_) => Lifted { pieces: st.pieces.push(Piece::Raw(a)), ..st },
            FormulaChar::RepetitionChar => Lifted { repetition: true, ..st },
            FormulaChar::Wff(h) => if st.formulas.dom().contains(h) {
                Lifted { pieces: st.pieces.push(Piece::Node(st.formulas[h]@)), ..st }
            } else {
                let leaf = WellFormedFormula::Atomic(st.formulas.len() as usize);
                Lifted {
                    pieces: st.pieces.push(Piece::Node(leaf@)),
                    formulas: st.formulas.insert(h, leaf),
                    ..st
                }
            },
            FormulaChar::Object(h) => if st.objects.dom().contains(h) {
                Lifted { pieces: st.pieces.push(Piece::Node(st.objects[h]@)), ..st }
            } else {
                let leaf = Object::Atomic(st.objects.len() as usize);
                Lifted {
                    pieces: st.pieces.push(Piece::Node(leaf@)),
                    objects: st.objects.insert(h, leaf),
                    ..st
                }
            },
        }
    }
}

/// Lifting a run of atoms, from the first on, with the leaves already given
/// to placeholders.
pub open spec fn lift(
    atoms: Seq<FormulaChar>,
    formulas: Map<usize, WellFormedFormula>,
    objects: Map<usize, Object>,
) -> Lifted
    decreases atoms.len(),
{
    if atoms.len() == 0 {
        Lifted { pieces: Seq::empty(), formulas, objects, repetition: false }
    } else {
        lift_atom(lift(atoms.drop_last(), formulas, objects), atoms.last())
    }
}

/// After the repetition marker the lifting stays as it is.
pub proof fn lemma_lift_stops(
    atoms: Seq<FormulaChar>,
    formulas: Map<usize, WellFormedFormula>,
    objects: Map<usize, Object>,
    n: int,
)
    requires
        0 <= n <= atoms.len(),
        lift(atoms.take(n), formulas, objects).repetition,
    ensures
        lift(atoms, formulas, objects) == lift(atoms.take(n), formulas, objects),
    decreases atoms.len(),
{
    if n < atoms.len() {
        assert(atoms.drop_last().take(n) == atoms.take(n));
        lemma_lift_stops(atoms.drop_last(), formulas, objects, n);
        assert(lift(atoms, formulas, objects) == lift_atom(
            lift(atoms.drop_last(), formulas, objects),
            atoms.last(),
        ));
    } else {
        assert(atoms.take(n) == atoms);
    }
}

/// Lifts the atoms of a formula into a working list. Gives nothing if the
/// repetition marker stands among them.
pub fn lift_formula(
    formula: &Vec<FormulaChar>,
    wffs: &mut HashMap<usize, WellFormedFormula>,
    objects: &mut HashMap<usize, Object>,
) -> (r: Option<Vec<PartiallyCompiled>>)
    ensures
        final(wffs)@ == lift(formula@, old(wffs)@, old(objects)@).formulas,
        final(objects)@ == lift(formula@, old(wffs)@, old(objects)@).objects,
        match r {
            Some(w) => !lift(formula@, old(wffs)@, old(objects)@).repetition && pieces(w@) == lift(
                formula@,
                old(wffs)@,
                old(objects)@,
            ).pieces,
            None => lift(formula@, old(wffs)@, old(objects)@).repetition,
        },
{
    let mut w: Vec<PartiallyCompiled> = Vec::new();
    let mut i: usize = 0;
    assert(pieces(w@) =~= Seq::<Piece>::empty());
    assert(lift(formula@.take(0), wffs@, objects@) == Lifted {
        pieces: Seq::empty(),
        formulas: wffs@,
        objects: objects@,
        repetition: false,
    });
    while i < formula.len()
        invariant
            i <= formula.len(),
            lift(formula@.take(i as int), old(wffs)@, old(objects)@) == (Lifted {
                pieces: pieces(w@),
                formulas: wffs@,
                objects: objects@,
                repetition: false,
            }),
        decreases formula.len() - i,
    {
        let ghost before = pieces(w@);
        proof {
            let next = formula@.take(i + 1);
            assert(next.drop_last() == formula@.take(i as int));
            assert(next.last() == formula@[i as int]);
            assert(lift(next, old(wffs)@, old(objects)@) == lift_atom(
                lift(next.drop_last(), old(wffs)@, old(objects)@),
                next.last(),
            ));
        }
        let a = formula[i];
        match a {
            FormulaChar::Char(_) => {
                w.push(PartiallyCompiled::NotCompiled(a));
                assert(pieces(w@) =~= before.push(Piece::Raw(a)));
            },
            FormulaChar::RepetitionChar => {
                proof {
                    lemma_lift_stops(formula@, old(wffs)@, old(objects)@, i + 1);
                }
                return None;
            },
            FormulaChar::Wff(h) => {
                let known = match wffs.get(&h) {
                    Some(wff) => Some(wff.clone()),
                    None => None,
                };
                let wff = match known {
                    Some(wff) => wff,
                    None => {
                        let n = wffs.len();
                        wffs.insert(h, WellFormedFormula::Atomic(n));
                        WellFormedFormula::Atomic(n)
                    },
                };
                let ghost t = wff@;
                w.push(PartiallyCompiled::CompiledFormula(wff));
                assert(pieces(w@) =~= before.push(Piece::Node(t)));
            },
            FormulaChar::Object(h) => {
                let known = match objects.get(&h) {
                    Some(object) => Some(object.clone()),
                    None => None,
                };
                let object = match known {
                    Some(object) => object,
                    None => {
                        let n = objects.len();
                        objects.insert(h, Object::Atomic(n));
                        Object::Atomic(n)
                    },
                };
                let ghost t = object@;
                w.push(PartiallyCompiled::CompiledObject(object));
                assert(pieces(w@) =~= before.push(Piece::Node(t)));
            },
        }
        i += 1;
    }
    assert(formula@.take(i as int) == formula@);
    Some(w)
}

/// Whether an element of the working list can stand where the rule's
/// pattern has `p`: a character where the pattern has that character, a
/// formula in a formula slot and an object in an object slot, the slot's id
/// being below the rule's arity. Nothing stands for the repetition marker.
pub open spec fn pairs(piece: Piece, p: Placeholder, rule: SyntaxModel) -> bool {
    match (piece, p) {
        (Piece::Raw(FormulaChar::Char(c1)), Placeholder::LiteralChar(c2)) => c1 == c2,
        (Piece::Node(t), Placeholder::WellFormedFormula(n)) => t.sort() == SyntaxType::Formula && n
            < rule.distinct_wff_count,
        (Piece::Node(t), Placeholder::Object(n)) => t.sort() == SyntaxType::Object && n
            < rule.distinct_object_count,
        _ => false,
    }
}

/// Whether a pattern element is a slot.
pub open spec fn is_slot(p: Placeholder) -> bool {
    p is WellFormedFormula || p is Object
}

/// The rule's pattern matches the working list from place `at` on: each
/// element can stand where it stands, and where the pattern repeats a slot
/// the list repeats the tree.
pub open spec fn matches_at(w: Seq<Piece>, at: int, rule: SyntaxModel) -> bool {
    let pattern = rule.formula;
    &&& 0 <= at
    &&& at + pattern.len() <= w.len()
    &&& forall|j: int| 0 <= j < pattern.len() ==> pairs(w[at + j], #[trigger] pattern[j], rule)
    &&& forall|j: int, k: int|
        0 <= j < k < pattern.len() && is_slot(#[trigger] pattern[j]) && pattern[j]
            == #[trigger] pattern[k] ==> w[at + j] == w[at + k]
}

/// `at` is the first place from which the rule matches.
pub open spec fn is_first_place(w: Seq<Piece>, rule: SyntaxModel, at: int) -> bool {
    matches_at(w, at, rule) && forall|k: int| 0 <= k < at ==> !matches_at(w, k, rule)
}

/// The rule matches somewhere, and so has a first place from which it does.
pub open spec fn rule_matches(w: Seq<Piece>, rule: SyntaxModel) -> bool {
    exists|at: int| is_first_place(w, rule, at)
}

/// The first place from which the rule matches.
pub open spec fn first_place(w: Seq<Piece>, rule: SyntaxModel) -> int {
    choose|at: int| is_first_place(w, rule, at)
}

/// Rule `r` is the first rule of the table that matches somewhere.
pub open spec fn is_first_rule(w: Seq<Piece>, table: Seq<SyntaxModel>, r: int) -> bool {
    &&& 0 <= r < table.len()
    &&& rule_matches(w, table[r])
    &&& forall|q: int| 0 <= q < r ==> !rule_matches(w, #[trigger] table[q])
}

/// Some rule of the table matches somewhere.
pub open spec fn applicable(w: Seq<Piece>, table: Seq<SyntaxModel>) -> bool {
    exists|r: int| is_first_rule(w, table, r)
}

/// The first rule of the table that matches somewhere.
pub open spec fn first_rule(w: Seq<Piece>, table: Seq<SyntaxModel>) -> int {
    choose|r: int| is_first_rule(w, table, r)
}

/// Applying the rule makes progress: it shortens the working list, or it
/// turns a character into a tree.
pub open spec fn shrinks(rule: SyntaxModel) -> bool {
    rule.formula.len() >= 2 || (rule.formula.len() == 1 && rule.formula[0] is LiteralChar)
}

/// The tree that the match binds to a slot: the one that stands where the
/// pattern has the slot.
pub open spec fn bound(w: Seq<Piece>, at: int, rule: SyntaxModel, slot: Placeholder) -> Term {
    let j = choose|j: int| 0 <= j < rule.formula.len() && rule.formula[j] == slot;
    w[at + j]->Node_0
}

/// The formulas bound to the rule's formula slots, in the order of their ids.
pub open spec fn formula_arguments(w: Seq<Piece>, at: int, rule: SyntaxModel) -> Seq<Term> {
    Seq::new(
        rule.distinct_wff_count as nat,
        |n: int| bound(w, at, rule, Placeholder::WellFormedFormula(n as usize)),
    )
}

/// The objects bound to the rule's object slots, in the order of their ids.
pub open spec fn object_arguments(w: Seq<Piece>, at: int, rule: SyntaxModel) -> Seq<Term> {
    Seq::new(
        rule.distinct_object_count as nat,
        |n: int| bound(w, at, rule, Placeholder::Object(n as usize)),
    )
}

/// The node that rule `r` builds from its match at `at`.
pub open spec fn built(w: Seq<Piece>, at: int, r: int, rule: SyntaxModel) -> Term {
    Term::Composite {
        sort: rule.syntax_type,
        rule: r as usize,
        formulas: formula_arguments(w, at, rule),
        objects: object_arguments(w, at, rule),
    }
}

/// The working list after rule `r` has replaced its match at `at` by the
/// node it builds.
pub open spec fn rewrite(w: Seq<Piece>, at: int, r: int, rule: SyntaxModel) -> Seq<Piece> {
    w.take(at).push(Piece::Node(built(w, at, r, rule))) + w.skip(at + rule.formula.len())
}

/// A measure that every rewriting step lowers: an atom counts two, a tree
/// one.
pub open spec fn weight(w: Seq<Piece>) -> nat
    decreases w.len(),
{
    if w.len() == 0 {
        0
    } else {
        weight(w.drop_last()) + if w.last() is Raw {
            2nat
        } else {
            1nat
        }
    }
}

/// The weight of two lists joined is the sum of their weights.
pub proof fn lemma_weight_joined(a: Seq<Piece>, b: Seq<Piece>)
    ensures
        weight(a + b) == weight(a) + weight(b),
    decreases b.len(),
{
    if b.len() == 0 {
        assert(a + b == a);
        assert(weight(b) == 0);
    } else {
        assert((a + b).drop_last() == a + b.drop_last());
        assert((a + b).last() == b.last());
        lemma_weight_joined(a, b.drop_last());
        assert(weight(a + b) == weight((a + b).drop_last()) + if (a + b).last() is Raw {
            2nat
        } else {
            1nat
        });
        assert(weight(b) == weight(b.drop_last()) + if b.last() is Raw {
            2nat
        } else {
            1nat
        });
    }
}

/// Every element weighs at least one.
pub proof fn lemma_weight_at_least_length(w: Seq<Piece>)
    ensures
        weight(w) >= w.len(),
    decreases w.len(),
{
    if w.len() == 0 {
        assert(weight(w) == 0);
    } else {
        lemma_weight_at_least_length(w.drop_last());
        assert(weight(w) == weight(w.drop_last()) + if w.last() is Raw {
            2nat
        } else {
            1nat
        });
    }
}

/// A rewriting step by a rule that makes progress lowers the weight.
pub proof fn lemma_rewrite_lowers_weight(w: Seq<Piece>, at: int, r: int, rule: SyntaxModel)
    requires
        matches_at(w, at, rule),
        shrinks(rule),
    ensures
        weight(rewrite(w, at, r, rule)) < weight(w),
{
    let n = rule.formula.len() as int;
    let head = w.take(at);
    let mid = w.subrange(at, at + n);
    let tail = w.skip(at + n);
    let node = seq![Piece::Node(built(w, at, r, rule))];
    assert(w =~= head + mid + tail);
    assert(rewrite(w, at, r, rule) =~= head + node + tail);
    lemma_weight_joined(head, mid);
    lemma_weight_joined(head + mid, tail);
    lemma_weight_joined(head, node);
    lemma_weight_joined(head + node, tail);
    assert(node.drop_last() =~= Seq::<Piece>::empty());
    assert(weight(node.drop_last()) == 0);
    assert(weight(node) == weight(node.drop_last()) + if node.last() is Raw {
        2nat
    } else {
        1nat
    });
    lemma_weight_at_least_length(mid);
    if n == 1 {
        assert(pairs(w[at + 0], rule.formula[0], rule));
        assert(mid.last() == w[at]);
        assert(mid.drop_last() =~= Seq::<Piece>::empty());
        assert(weight(mid.drop_last()) == 0);
        assert(weight(mid) == weight(mid.drop_last()) + if mid.last() is Raw {
            2nat
        } else {
            1nat
        });
    }
}

/// How the rewriting ends: with a working list to which no rule applies or
/// which holds one element at most, or at a broken rule.
pub enum Reduced {
    Done(Seq<Piece>),
    Broken,
}

/// Rewriting to the end. While the list holds more than one element and a
/// rule matches, the first rule that matches somewhere replaces its first
/// match by the node it builds. A rule that matches and yet leaves a slot
/// without a tree, or makes no progress, is broken and ends the rewriting.
pub open spec fn reduce(w: Seq<Piece>, table: Seq<SyntaxModel>) -> Reduced
    decreases weight(w),
{
    if w.len() <= 1 || !applicable(w, table) {
        Reduced::Done(w)
    } else {
        let r = first_rule(w, table);
        let rule = table[r];
        let at = first_place(w, rule);
        if rule.covers_slots() && shrinks(rule) {
            proof {
                assert(is_first_rule(w, table, r));
                assert(is_first_place(w, rule, at));
                lemma_rewrite_lowers_weight(w, at, r, rule);
            }
            reduce(rewrite(w, at, r, rule), table)
        } else {
            Reduced::Broken
        }
    }
}

/// What compiling gives once the atoms are lifted: the repetition marker is
/// refused; a broken rule is reported; and what the rewriting leaves is the
/// result if it is one formula, and is reported as uncompilable otherwise.
pub open spec fn compiled(lifted: Lifted, table: Seq<SyntaxModel>) -> Result<Term, CompileErrorModel> {
    if lifted.repetition {
        Err(CompileErrorModel::RepetitionCharacterNotCompilable)
    } else {
        match reduce(lifted.pieces, table) {
            Reduced::Broken => Err(CompileErrorModel::ShouldNotBeReached),
            Reduced::Done(w) => if w.len() == 1 && w[0] is Node && w[0]->Node_0.sort()
                == SyntaxType::Formula {
                Ok(w[0]->Node_0)
            } else {
                Err(CompileErrorModel::UncompilableFormula(w))
            },
        }
    }
}

/// Whether two elements of a working list are equal.
pub fn same_element(a: &PartiallyCompiled, b: &PartiallyCompiled) -> (r: bool)
    ensures
        r == (a@ == b@),
{
    match (a, b) {
        (PartiallyCompiled::NotCompiled(c1), PartiallyCompiled::NotCompiled(c2)) => *c1 == *c2,
        (PartiallyCompiled::CompiledFormula(f1), PartiallyCompiled::CompiledFormula(f2)) => f1.equals(
            f2,
        ),
        (PartiallyCompiled::CompiledObject(o1), PartiallyCompiled::CompiledObject(o2)) => o1.equals(o2),
        (PartiallyCompiled::CompiledFormula(f), PartiallyCompiled::CompiledObject(o)) => {
            proof {
                f.lemma_view_well_sorted();
                o.lemma_view_well_sorted();
            }
            false
        },
        (PartiallyCompiled::CompiledObject(o), PartiallyCompiled::CompiledFormula(f)) => {
            proof {
                f.lemma_view_well_sorted();
                o.lemma_view_well_sorted();
            }
            false
        },
        _ => false,
    }
}

/// Whether an element can stand where the rule's pattern has `p`.
pub fn element_pairs(e: &PartiallyCompiled, p: &Placeholder, rule: &Syntax) -> (r: bool)
    ensures
        r == pairs(e@, *p, rule@),
{
    match (e, p) {
        (PartiallyCompiled::NotCompiled(FormulaChar::Char(c1)), Placeholder::LiteralChar(c2)) => *c1
            == *c2,
        (PartiallyCompiled::CompiledFormula(f), Placeholder::WellFormedFormula(n)) => {
            proof {
                f.lemma_view_well_sorted();
            }
            *n < rule.distinct_wff_count
        },
        (PartiallyCompiled::CompiledObject(o), Placeholder::Object(n)) => {
            proof {
                o.lemma_view_well_sorted();
            }
            *n < rule.distinct_object_count
        },
        (PartiallyCompiled::CompiledFormula(f), Placeholder::Object(_)) => {
            proof {
                f.lemma_view_well_sorted();
            }
            false
        },
        (PartiallyCompiled::CompiledObject(o), Placeholder::WellFormedFormula(_)) => {
            proof {
                o.lemma_view_well_sorted();
            }
            false
        },
        _ => false,
    }
}

/// Whether the rule's pattern matches the working list from place `at` on.
pub fn match_at(w: &Vec<PartiallyCompiled>, at: usize, rule: &Syntax) -> (r: bool)
    requires
        at + rule@.formula.len() <= w@.len(),
    ensures
        r == matches_at(pieces(w@), at as int, rule@),
{
    let n = rule.formula.len();
    let ghost ws = pieces(w@);
    let ghost pattern = rule@.formula;
    let mut j: usize = 0;
    while j < n
        invariant
            j <= n,
            n == rule@.formula.len(),
            at + n <= w.len(),
            ws == pieces(w@),
            pattern == rule@.formula,
            forall|a: int| 0 <= a < j ==> pairs(ws[at + a], #[trigger] pattern[a], rule@),
            forall|a: int, b: int|
                0 <= a < b < j && is_slot(#[trigger] pattern[a]) && pattern[a]
                    == #[trigger] pattern[b] ==> ws[at + a] == ws[at + b],
        decreases n - j,
    {
        let p = rule.formula[j];
        if !element_pairs(&w[at + j], &p, rule) {
            assert(!pairs(ws[at + j], pattern[j as int], rule@));
            return false;
        }
        let slot = match p {
            Placeholder::WellFormedFormula(_) => true,
            Placeholder::Object(_) => true,
            _ => false,
        };
        if slot {
            let mut k: usize = 0;
            while k < j
                invariant
                    k <= j < n,
                    n == rule@.formula.len(),
                    at + n <= w.len(),
                    ws == pieces(w@),
                    pattern == rule@.formula,
                    p == pattern[j as int],
                    is_slot(p),
                    forall|a: int|
                        0 <= a < k && #[trigger] pattern[a] == p ==> ws[at + a] == ws[at + j],
                decreases j - k,
            {
                if rule.formula[k] == p && !same_element(&w[at + k], &w[at + j]) {
                    assert(is_slot(pattern[k as int]) && pattern[k as int] == pattern[j as int]);
                    assert(ws[at + k] != ws[at + j]);
                    return false;
                }
                k += 1;
            }
        }
        j += 1;
    }
    true
}

/// The first place from which the rule matches, if it matches anywhere.
pub fn find_place(w: &Vec<PartiallyCompiled>, rule: &Syntax) -> (r: Option<usize>)
    ensures
        match r {
            Some(at) => is_first_place(pieces(w@), rule@, at as int),
            None => !rule_matches(pieces(w@), rule@),
        },
{
    let n = rule.formula.len();
    let ghost ws = pieces(w@);
    if n > w.len() {
        assert forall|at: int| !is_first_place(ws, rule@, at) by {
            assert(!matches_at(ws, at, rule@));
        }
        return None;
    }
    let last = w.len() - n;
    let mut at: usize = 0;
    loop
        invariant
            n == rule@.formula.len(),
            n <= w@.len(),
            last == w@.len() - n,
            at <= last,
            ws == pieces(w@),
            forall|k: int| 0 <= k < at ==> !matches_at(ws, k, rule@),
        decreases last - at,
    {
        if match_at(w, at, rule) {
            return Some(at);
        }
        if at == last {
            assert forall|k: int| !is_first_place(ws, rule@, k) by {
                if 0 <= k && k + n <= ws.len() {
                    assert(k <= at);
                }
                assert(!matches_at(ws, k, rule@));
            }
            return None;
        }
        at += 1;
    }
}

/// The first rule of the table that matches somewhere, and the first place
/// from which it does.
pub fn find_rule(w: &Vec<PartiallyCompiled>, syntaxes: &Vec<Syntax>) -> (r: Option<(usize, usize)>)
    ensures
        match r {
            Some((rule, at)) => is_first_rule(pieces(w@), rules(syntaxes@), rule as int) && is_first_place(
                pieces(w@),
                rules(syntaxes@)[rule as int],
                at as int,
            ),
            None => !applicable(pieces(w@), rules(syntaxes@)),
        },
{
    let ghost ws = pieces(w@);
    let mut r: usize = 0;
    while r < syntaxes.len()
        invariant
            r <= syntaxes.len(),
            ws == pieces(w@),
            forall|q: int| 0 <= q < r ==> !rule_matches(ws, #[trigger] rules(syntaxes@)[q]),
        decreases syntaxes.len() - r,
    {
        match find_place(w, &syntaxes[r]) {
            Some(at) => {
                return Some((r, at));
            },
            None => {},
        }
        r += 1;
    }
    assert forall|q: int| !is_first_rule(ws, rules(syntaxes@), q) by {
        if 0 <= q < rules(syntaxes@).len() {
            assert(!rule_matches(ws, rules(syntaxes@)[q]));
        }
    }
    None
}

/// The place where the pattern first has `slot`, if it has it.
pub fn slot_place(pattern: &Vec<Placeholder>, slot: Placeholder) -> (r: Option<usize>)
    ensures
        match r {
            Some(j) => j < pattern@.len() && pattern@[j as int] == slot && forall|a: int|
                0 <= a < j ==> pattern@[a] != slot,
            None => !pattern@.contains(slot),
        },
{
    let mut j: usize = 0;
    while j < pattern.len()
        invariant
            j <= pattern.len(),
            forall|a: int| 0 <= a < j ==> pattern@[a] != slot,
        decreases pattern.len() - j,
    {
        if pattern[j] == slot {
            return Some(j);
        }
        j += 1;
    }
    None
}

/// Whatever place of the pattern has the slot, the match has the bound tree
/// there.
pub proof fn lemma_bound_anywhere(w: Seq<Piece>, at: int, rule: SyntaxModel, slot: Placeholder, j: int)
    requires
        matches_at(w, at, rule),
        is_slot(slot),
        0 <= j < rule.formula.len(),
        rule.formula[j] == slot,
    ensures
        w[at + j] == Piece::Node(bound(w, at, rule, slot)),
{
    let pattern = rule.formula;
    let c = choose|c: int| 0 <= c < pattern.len() && pattern[c] == slot;
    assert(pairs(w[at + c], pattern[c], rule));
    assert(pairs(w[at + j], pattern[j], rule));
    if c < j {
        assert(is_slot(pattern[c]) && pattern[c] == pattern[j]);
        assert(w[at + c] == w[at + j]);
    } else if j < c {
        assert(is_slot(pattern[j]) && pattern[j] == pattern[c]);
        assert(w[at + j] == w[at + c]);
    }
}

/// The formulas that a match binds to the rule's formula slots, in the order
/// of their ids; nothing if the pattern lacks one of the slots.
pub fn formula_arguments_of(w: &Vec<PartiallyCompiled>, at: usize, rule: &Syntax) -> (r: Option<
    Vec<WellFormedFormula>,
>)
    requires
        matches_at(pieces(w@), at as int, rule@),
    ensures
        match r {
            Some(fs) => formula_terms(fs@) == formula_arguments(pieces(w@), at as int, rule@)
                && rule@.covers_formula_slots(),
            None => !rule@.covers_formula_slots(),
        },
{
    let ghost ws = pieces(w@);
    let mut fs: Vec<WellFormedFormula> = Vec::new();
    let mut n: usize = 0;
    while n < rule.distinct_wff_count
        invariant
            n <= rule.distinct_wff_count,
            ws == pieces(w@),
            matches_at(ws, at as int, rule@),
            fs@.len() == n,
            forall|m: int|
                0 <= m < n ==> (#[trigger] fs@[m])@ == bound(
                    ws,
                    at as int,
                    rule@,
                    Placeholder::WellFormedFormula(m as usize),
                ),
            forall|m: usize|
                m < n ==> #[trigger] rule@.formula.contains(Placeholder::WellFormedFormula(m)),
        decreases rule.distinct_wff_count - n,
    {
        let slot = Placeholder::WellFormedFormula(n);
        match slot_place(&rule.formula, slot) {
            None => {
                return None;
            },
            Some(j) => {
                proof {
                    lemma_bound_anywhere(ws, at as int, rule@, slot, j as int);
                    assert(at + j < w.len());
                    assert(ws[at + j] == w@[at + j]@);
                }
                match &w[at + j] {
                    PartiallyCompiled::CompiledFormula(f) => {
                        fs.push(f.clone());
                    },
                    PartiallyCompiled::CompiledObject(o) => {
                        proof {
                            o.lemma_view_well_sorted();
                            assert(pairs(ws[at + j], rule@.formula[j as int], rule@));
                        }
                        return None;
                    },
                    PartiallyCompiled::NotCompiled(_) => {
                        return None;
                    },
                }
            },
        }
        n += 1;
    }
    assert(formula_terms(fs@) =~= formula_arguments(ws, at as int, rule@));
    Some(fs)
}

/// The objects that a match binds to the rule's object slots, in the order
/// of their ids; nothing if the pattern lacks one of the slots.
pub fn object_arguments_of(w: &Vec<PartiallyCompiled>, at: usize, rule: &Syntax) -> (r: Option<
    Vec<Object>,
>)
    requires
        matches_at(pieces(w@), at as int, rule@),
    ensures
        match r {
            Some(os) => object_terms(os@) == object_arguments(pieces(w@), at as int, rule@)
                && rule@.covers_object_slots(),
            None => !rule@.covers_object_slots(),
        },
{
    let ghost ws = pieces(w@);
    let mut os: Vec<Object> = Vec::new();
    let mut n: usize = 0;
    while n < rule.distinct_object_count
        invariant
            n <= rule.distinct_object_count,
            ws == pieces(w@),
            matches_at(ws, at as int, rule@),
            os@.len() == n,
            forall|m: int|
                0 <= m < n ==> (#[trigger] os@[m])@ == bound(
                    ws,
                    at as int,
                    rule@,
                    Placeholder::Object(m as usize),
                ),
            forall|m: usize| m < n ==> #[trigger] rule@.formula.contains(Placeholder::Object(m)),
        decreases rule.distinct_object_count - n,
    {
        let slot = Placeholder::Object(n);
        match slot_place(&rule.formula, slot) {
            None => {
                return None;
            },
            Some(j) => {
                proof {
                    lemma_bound_anywhere(ws, at as int, rule@, slot, j as int);
                    assert(at + j < w.len());
                    assert(ws[at + j] == w@[at + j]@);
                }
                match &w[at + j] {
                    PartiallyCompiled::CompiledObject(o) => {
                        os.push(o.clone());
                    },
                    PartiallyCompiled::CompiledFormula(f) => {
                        proof {
                            f.lemma_view_well_sorted();
                            assert(pairs(ws[at + j], rule@.formula[j as int], rule@));
                        }
                        return None;
                    },
                    PartiallyCompiled::NotCompiled(_) => {
                        return None;
                    },
                }
            },
        }
        n += 1;
    }
    assert(object_terms(os@) =~= object_arguments(ws, at as int, rule@));
    Some(os)
}

/// Replaces the match of rule `r` at `at` by the node that the rule builds.
/// Does nothing and says so if the pattern lacks one of the rule's slots.
pub fn apply_rule(w: &mut Vec<PartiallyCompiled>, at: usize, r: usize, rule: &Syntax) -> (done: bool)
    requires
        matches_at(pieces(old(w)@), at as int, rule@),
    ensures
        done == rule.covers_slots(),
        done ==> pieces(final(w)@) == rewrite(pieces(old(w)@), at as int, r as int, rule@),
        !done ==> final(w)@ == old(w)@,
{
    let ghost ws = pieces(w@);
    let wff_parameters = match formula_arguments_of(w, at, rule) {
        Some(fs) => fs,
        None => {
            return false;
        },
    };
    let object_parameters = match object_arguments_of(w, at, rule) {
        Some(os) => os,
        None => {
            return false;
        },
    };
    let node = match rule.syntax_type {
        SyntaxType::Formula => {
            let f = WellFormedFormula::SyntaxComposite { syntax_ref: r, wff_parameters, object_parameters };
            proof {
                f.lemma_view_composite();
            }
            PartiallyCompiled::CompiledFormula(f)
        },
        SyntaxType::Object => {
            let o = Object::SyntaxComposite { syntax_ref: r, wff_parameters, object_parameters };
            proof {
                o.lemma_view_composite();
            }
            PartiallyCompiled::CompiledObject(o)
        },
    };
    assert(node@ == Piece::Node(built(ws, at as int, r as int, rule@)));
    let n = rule.formula.len();
    assert(at + n <= w.len());
    let mut tail = w.split_off(at + n);
    w.truncate(at);
    let ghost head = w@;
    w.push(node);
    let ghost with_node = w@;
    w.append(&mut tail);
    assert(pieces(w@) =~= rewrite(ws, at as int, r as int, rule@)) by {
        assert(pieces(head) =~= ws.take(at as int));
        assert(pieces(with_node) =~= ws.take(at as int).push(node@));
        assert(w@ =~= with_node + old(w)@.skip(at + n));
        assert(pieces(old(w)@.skip(at + n)) =~= ws.skip(at + n));
    }
    true
}

/// The first rule and the first place are the only ones.
pub proof fn lemma_first_is_unique(w: Seq<Piece>, table: Seq<SyntaxModel>, r: int, at: int)
    requires
        is_first_rule(w, table, r),
        is_first_place(w, table[r], at),
    ensures
        applicable(w, table),
        first_rule(w, table) == r,
        first_place(w, table[r]) == at,
{
    let r2 = first_rule(w, table);
    assert(is_first_rule(w, table, r2));
    if r2 < r {
        assert(!rule_matches(w, table[r2]));
    } else if r < r2 {
        assert(!rule_matches(w, table[r]));
    }
    let at2 = first_place(w, table[r]);
    assert(is_first_place(w, table[r], at2));
    if at2 < at {
        assert(!matches_at(w, at2, table[r]));
    } else if at < at2 {
        assert(!matches_at(w, at, table[r]));
    }
}

/// Every tree of the working list fits the table.
pub open spec fn pieces_fit(w: Seq<Piece>, table: Seq<SyntaxModel>) -> bool {
    forall|i: int| 0 <= i < w.len() && (#[trigger] w[i]) is Node ==> w[i]->Node_0.fits_table(table)
}

/// Every leaf given to a placeholder fits the table.
pub open spec fn leaves_fit(
    formulas: Map<usize, WellFormedFormula>,
    objects: Map<usize, Object>,
    table: Seq<SyntaxModel>,
) -> bool {
    &&& forall|h: usize| formulas.dom().contains(h) ==> (#[trigger] formulas[h])@.fits_table(table)
    &&& forall|h: usize| objects.dom().contains(h) ==> (#[trigger] objects[h])@.fits_table(table)
}

/// Lifting keeps to the table: if the leaves known before fit it, so do the
/// working list and the leaves known after.
pub proof fn lemma_lift_fits(
    atoms: Seq<FormulaChar>,
    formulas: Map<usize, WellFormedFormula>,
    objects: Map<usize, Object>,
    table: Seq<SyntaxModel>,
)
    requires
        leaves_fit(formulas, objects, table),
    ensures
        pieces_fit(lift(atoms, formulas, objects).pieces, table),
        leaves_fit(
            lift(atoms, formulas, objects).formulas,
            lift(atoms, formulas, objects).objects,
            table,
        ),
    decreases atoms.len(),
{
    if atoms.len() == 0 {
        assert(lift(atoms, formulas, objects).pieces =~= Seq::<Piece>::empty());
    } else {
        lemma_lift_fits(atoms.drop_last(), formulas, objects, table);
        let before = lift(atoms.drop_last(), formulas, objects);
        let after = lift_atom(before, atoms.last());
        assert(lift(atoms, formulas, objects) == after);
        assert forall|i: int| 0 <= i < after.pieces.len() && (#[trigger] after.pieces[i]) is Node
            implies after.pieces[i]->Node_0.fits_table(table) by {
            if i < before.pieces.len() {
                assert(after.pieces[i] == before.pieces[i]);
            }
        }
    }
}

/// A rewriting step keeps to the table: the node that a rule of the table
/// builds names that rule and has as many formulas and objects as the rule
/// has slots, and its children are trees of the list.
pub proof fn lemma_rewrite_fits(w: Seq<Piece>, at: int, r: int, table: Seq<SyntaxModel>)
    requires
        0 <= r < table.len(),
        table.len() <= usize::MAX,
        matches_at(w, at, table[r]),
        table[r].covers_slots(),
        pieces_fit(w, table),
    ensures
        built(w, at, r, table[r]).fits_table(table),
        built(w, at, r, table[r])->formulas.len() == table[r].distinct_wff_count,
        built(w, at, r, table[r])->objects.len() == table[r].distinct_object_count,
        pieces_fit(rewrite(w, at, r, table[r]), table),
{
    let rule = table[r];
    let node = built(w, at, r, rule);
    let fs = formula_arguments(w, at, rule);
    let os = object_arguments(w, at, rule);
    assert forall|n: int| 0 <= n < fs.len() implies (#[trigger] fs[n]).fits_table(table) by {
        let slot = Placeholder::WellFormedFormula(n as usize);
        assert(rule.formula.contains(slot));
        let j = choose|j: int| 0 <= j < rule.formula.len() && rule.formula[j] == slot;
        assert(pairs(w[at + j], rule.formula[j], rule));
    }
    assert forall|n: int| 0 <= n < os.len() implies (#[trigger] os[n]).fits_table(table) by {
        let slot = Placeholder::Object(n as usize);
        assert(rule.formula.contains(slot));
        let j = choose|j: int| 0 <= j < rule.formula.len() && rule.formula[j] == slot;
        assert(pairs(w[at + j], rule.formula[j], rule));
    }
    assert(node.fits_table(table));
    let after = rewrite(w, at, r, rule);
    assert forall|i: int| 0 <= i < after.len() && (#[trigger] after[i]) is Node implies after[i]->Node_0.fits_table(
        table,
    ) by {
        if i < at {
            assert(after[i] == w[i]);
        } else if i > at {
            assert(after[i] == w[i - 1 + rule.formula.len()]);
        }
    }
}

/// Rewriting to the end keeps to the table.
pub proof fn lemma_reduce_fits(w: Seq<Piece>, table: Seq<SyntaxModel>)
    requires
        table.len() <= usize::MAX,
        pieces_fit(w, table),
    ensures
        reduce(w, table) matches Reduced::Done(left) ==> pieces_fit(left, table),
    decreases weight(w),
{
    if w.len() <= 1 || !applicable(w, table) {
    } else {
        let r = first_rule(w, table);
        let rule = table[r];
        let at = first_place(w, rule);
        if rule.covers_slots() && shrinks(rule) {
            assert(is_first_rule(w, table, r));
            assert(is_first_place(w, rule, at));
            lemma_rewrite_lowers_weight(w, at, r, rule);
            lemma_rewrite_fits(w, at, r, table);
            lemma_reduce_fits(rewrite(w, at, r, rule), table);
        }
    }
}

/// Arity soundness. Every node that the compiler builds names a rule of the
/// table, is of the kind that the rule builds, and has as many formulas and
/// as many objects below it as that rule has slots of each kind: if the
/// leaves known before fit the table, then so does the compiled formula.
pub proof fn lemma_compiled_fits_table(
    atoms: Seq<FormulaChar>,
    formulas: Map<usize, WellFormedFormula>,
    objects: Map<usize, Object>,
    table: Seq<SyntaxModel>,
)
    requires
        table.len() <= usize::MAX,
        leaves_fit(formulas, objects, table),
    ensures
        compiled(lift(atoms, formulas, objects), table) matches Ok(t) ==> t.fits_table(table),
        leaves_fit(
            lift(atoms, formulas, objects).formulas,
            lift(atoms, formulas, objects).objects,
            table,
        ),
{
    lemma_lift_fits(atoms, formulas, objects, table);
    lemma_reduce_fits(lift(atoms, formulas, objects).pieces, table);
}

/// Compiles a formula from its atoms. The atoms are lifted into the working
/// list; each placeholder stands for a leaf, the same leaf wherever it
/// occurs, and the two maps hold the leaves given so far and gain those
/// given here. The list is then rewritten with the rules of `syntaxes`, the
/// first rule that matches anywhere at its first place, until one element is
/// left or no rule matches. The result is the formula that is left. The
/// repetition marker is refused; a list that ends otherwise than as one
/// formula is handed back as uncompilable; a rule that matches and yet
/// leaves a slot without a value, or does not shorten the list, ends the
/// compiling as a broken table. A formula that comes out has, at every
/// node, as many children as its rule has slots.
pub fn compile_atoms(
    formula: &Vec<FormulaChar>,
    syntaxes: &Vec<Syntax>,
    wffs: &mut HashMap<usize, WellFormedFormula>,
    objects: &mut HashMap<usize, Object>,
) -> (r: Result<WellFormedFormula, CompileError>)
    ensures
        final(wffs)@ == lift(formula@, old(wffs)@, old(objects)@).formulas,
        final(objects)@ == lift(formula@, old(wffs)@, old(objects)@).objects,
        match r {
            Ok(wff) => compiled(lift(formula@, old(wffs)@, old(objects)@), rules(syntaxes@)) == Ok::<
                _,
                CompileErrorModel,
            >(wff@),
            Err(e) => compiled(lift(formula@, old(wffs)@, old(objects)@), rules(syntaxes@)) == Err::<Term, _>(
                e@,
            ),
        },
        leaves_fit(old(wffs)@, old(objects)@, rules(syntaxes@)) ==> leaves_fit(
            final(wffs)@,
            final(objects)@,
            rules(syntaxes@),
        ) && (r matches Ok(wff) ==> wff@.fits_table(rules(syntaxes@))),
{
    let ghost lifted = lift(formula@, wffs@, objects@);
    proof {
        assert(syntaxes@.len() == syntaxes.len());
        if leaves_fit(wffs@, objects@, rules(syntaxes@)) {
            lemma_compiled_fits_table(formula@, wffs@, objects@, rules(syntaxes@));
        }
    }
    let mut w = match lift_formula(formula, wffs, objects) {
        Some(w) => w,
        None => {
            return Err(CompileError::RepetitionCharacterNotCompilable);
        },
    };
    while w.len() > 1
        invariant
            lifted == lift(formula@, old(wffs)@, old(objects)@),
            leaves_fit(old(wffs)@, old(objects)@, rules(syntaxes@)) ==> leaves_fit(
                lifted.formulas,
                lifted.objects,
                rules(syntaxes@),
            ),
            !lifted.repetition,
            wffs@ == lifted.formulas,
            objects@ == lifted.objects,
            reduce(pieces(w@), rules(syntaxes@)) == reduce(lifted.pieces, rules(syntaxes@)),
        decreases weight(pieces(w@)),
    {
        let ghost ws = pieces(w@);
        match find_rule(&w, syntaxes) {
            None => {
                assert(reduce(ws, rules(syntaxes@)) == Reduced::Done(ws));
                return Err(CompileError::UncompilableFormula(w));
            },
            Some((r, at)) => {
                let rule = &syntaxes[r];
                proof {
                    lemma_first_is_unique(ws, rules(syntaxes@), r as int, at as int);
                    assert(reduce(ws, rules(syntaxes@)) == if rule.covers_slots() && shrinks(rule@) {
                        reduce(rewrite(ws, at as int, r as int, rule@), rules(syntaxes@))
                    } else {
                        Reduced::Broken
                    });
                }
                let n = rule.formula.len();
                let progress = n >= 2 || (n == 1 && match rule.formula[0] {
                    Placeholder::LiteralChar(_) => true,
                    _ => false,
                });
                if !progress {
                    return Err(CompileError::ShouldNotBeReached);
                }
                if !apply_rule(&mut w, at, r, rule) {
                    return Err(CompileError::ShouldNotBeReached);
                }
                proof {
                    lemma_rewrite_lowers_weight(ws, at as int, r as int, rule@);
                }
            },
        }
    }
    let ghost ws = pieces(w@);
    assert(reduce(ws, rules(syntaxes@)) == Reduced::Done(ws));
    match w.pop() {
        Some(PartiallyCompiled::CompiledFormula(wff)) => {
            proof {
                wff.lemma_view_well_sorted();
                assert(ws[0] == Piece::Node(wff@));
            }
            Ok(wff)
        },
        Some(other) => {
            proof {
                assert(ws[0] == other@);
                if other is CompiledObject {
                    other->CompiledObject_0.lemma_view_well_sorted();
                }
            }
            let mut left: Vec<PartiallyCompiled> = Vec::new();
            left.push(other);
            assert(pieces(left@) =~= ws);
            Err(CompileError::UncompilableFormula(left))
        },
        None => {
            let left: Vec<PartiallyCompiled> = Vec::new();
            assert(pieces(left@) =~= ws);
            Err(CompileError::UncompilableFormula(left))
        },
    }
}

/// Compiles a formula, as `compile_atoms` does, from a list of atoms that it
/// takes over.
pub fn compile_formula(
    formula: Vec<FormulaChar>,
    syntaxes: &Vec<Syntax>,
    wffs: &mut HashMap<usize, WellFormedFormula>,
    objects: &mut HashMap<usize, Object>,
) -> (r: Result<WellFormedFormula, CompileError>)
    ensures
        final(wffs)@ == lift(formula@, old(wffs)@, old(objects)@).formulas,
        final(objects)@ == lift(formula@, old(wffs)@, old(objects)@).objects,
        match r {
            Ok(wff) => compiled(lift(formula@, old(wffs)@, old(objects)@), rules(syntaxes@)) == Ok::<
                _,
                CompileErrorModel,
            >(wff@),
            Err(e) => compiled(lift(formula@, old(wffs)@, old(objects)@), rules(syntaxes@)) == Err::<Term, _>(
                e@,
            ),
        },
        leaves_fit(old(wffs)@, old(objects)@, rules(syntaxes@)) ==> leaves_fit(
            final(wffs)@,
            final(objects)@,
            rules(syntaxes@),
        ) && (r matches Ok(wff) ==> wff@.fits_table(rules(syntaxes@))),
{
    compile_atoms(&formula, syntaxes, wffs, objects)
}

} // verus!
