//! The ambiguity check on syntax patterns, and the substitution engine.

use vstd::prelude::*;
use crate::compiling::types::{
    formula_terms, object_terms, Object, Placeholder, SyntaxType, Term, WellFormedFormula,
};

verus! {

/// Two pattern elements are alike when they are the same literal, or slots of
/// the same kind whatever their ids, or both the repetition marker.
pub open spec fn placeholders_alike(p1: Placeholder, p2: Placeholder) -> bool {
    match (p1, p2) {
        (Placeholder::LiteralChar(c1), Placeholder::LiteralChar(c2)) => c1 == c2,
        (Placeholder::WellFormedFormula(_), Placeholder::WellFormedFormula(_)) => true,
        (Placeholder::Object(_), Placeholder::Object(_)) => true,
        (Placeholder::Repetition, Placeholder::Repetition) => true,
        _ => false,
    }
}

/// Whether two pattern elements are alike.
pub fn equal_placeholders(p1: &Placeholder, p2: &Placeholder) -> (r: bool)
    ensures
        r == placeholders_alike(*p1, *p2),
{
    match (p1, p2) {
        (Placeholder::LiteralChar(c1), Placeholder::LiteralChar(c2)) => *c1 == *c2,
        (Placeholder::WellFormedFormula(_), Placeholder::WellFormedFormula(_)) => true,
        (Placeholder::Object(_), Placeholder::Object(_)) => true,
        (Placeholder::Repetition, Placeholder::Repetition) => true,
        _ => false,
    }
}

/// `inner` stands in `outer` from place `at` on, element for element alike.
pub open spec fn occurs_at(inner: Seq<Placeholder>, outer: Seq<Placeholder>, at: int) -> bool {
    &&& 0 <= at
    &&& at + inner.len() <= outer.len()
    &&& forall|j: int|
        0 <= j < inner.len() ==> placeholders_alike(#[trigger] inner[j], outer[at + j])
}

/// `inner` is a run of consecutive elements of `outer`, up to likeness.
pub open spec fn contained(inner: Seq<Placeholder>, outer: Seq<Placeholder>) -> bool {
    exists|at: int| occurs_at(inner, outer, at)
}

/// Whether the first pattern stands somewhere in the second.
pub fn formula_is_contained(formula1: &Vec<Placeholder>, formula2: &Vec<Placeholder>) -> (r: bool)
    ensures
        r == contained(formula1@, formula2@),
{
    let len1 = formula1.len();
    let len2 = formula2.len();
    if len1 > len2 {
        return false;
    }
    let last = len2 - len1;
    let mut at: usize = 0;
    while at <= last
        invariant
            len1 == formula1.len(),
            len2 == formula2.len(),
            len1 <= len2,
            last == len2 - len1,
            at <= last + 1,
            forall|k: int| 0 <= k < at ==> !occurs_at(formula1@, formula2@, k),
        decreases last + 1 - at,
    {
        let mut j: usize = 0;
        while j < len1 && equal_placeholders(&formula1[j], &formula2[at + j])
            invariant
                len1 == formula1.len(),
                len2 == formula2.len(),
                at + len1 <= len2,
                j <= len1,
                forall|k: int|
                    0 <= k < j ==> placeholders_alike(#[trigger] formula1@[k], formula2@[at + k]),
            decreases len1 - j,
        {
            j += 1;
        }
        if j == len1 {
            assert(occurs_at(formula1@, formula2@, at as int));
            return true;
        }
        assert(!placeholders_alike(formula1@[j as int], formula2@[at + j]));
        at += 1;
    }
    assert forall|k: int| !occurs_at(formula1@, formula2@, k) by {
        if 0 <= k && k + len1 <= len2 {
            assert(k < at);
        }
    }
    false
}

/// What the schema's leaves stand for: for each formula leaf and each object
/// leaf, by its id, the tree bound to it, if one is bound yet.
pub struct Substitution {
    pub formulas: Seq<Option<Term>>,
    pub objects: Seq<Option<Term>>,
}

impl Substitution {
    /// The substitution that binds nothing, for a schema with the given
    /// numbers of formula leaves and object leaves.
    pub open spec fn unbound(wff_count: nat, object_count: nat) -> Substitution {
        Substitution {
            formulas: Seq::new(wff_count, |i: int| None),
            objects: Seq::new(object_count, |i: int| None),
        }
    }

    /// What the leaf of the given kind and id is bound to.
    pub open spec fn get(self, sort: SyntaxType, id: usize) -> Option<Term> {
        match sort {
            SyntaxType::Formula => if id < self.formulas.len() {
                self.formulas[id as int]
            } else {
                None
            },
            SyntaxType::Object => if id < self.objects.len() {
                self.objects[id as int]
            } else {
                None
            },
        }
    }

    /// The same substitution with one more leaf bound.
    pub open spec fn set(self, sort: SyntaxType, id: usize, t: Term) -> Substitution {
        match sort {
            SyntaxType::Formula => Substitution {
                formulas: self.formulas.update(id as int, Some(t)),
                ..self
            },
            SyntaxType::Object => Substitution { objects: self.objects.update(id as int, Some(t)), ..self },
        }
    }

    /// Whether the substitution has a place for the leaf.
    pub open spec fn has_slot(self, sort: SyntaxType, id: usize) -> bool {
        match sort {
            SyntaxType::Formula => id < self.formulas.len(),
            SyntaxType::Object => id < self.objects.len(),
        }
    }

    /// `other` binds whatever `self` binds, to the same trees.
    pub open spec fn within(self, other: Substitution) -> bool {
        &&& self.formulas.len() == other.formulas.len()
        &&& self.objects.len() == other.objects.len()
        &&& forall|i: int|
            0 <= i < self.formulas.len() && (#[trigger] self.formulas[i]) is Some
                ==> other.formulas[i] == self.formulas[i]
        &&& forall|i: int|
            0 <= i < self.objects.len() && (#[trigger] self.objects[i]) is Some ==> other.objects[i]
                == self.objects[i]
    }
}

/// Binding a leaf to a tree: a leaf not bound yet takes the tree; a bound one
/// must be bound to that very tree. A leaf that the substitution has no place
/// for, or a tree of the other kind, cannot be bound.
pub open spec fn bind(sub: Substitution, sort: SyntaxType, id: usize, t: Term) -> Option<
    Substitution,
> {
    if !sub.has_slot(sort, id) || t.sort() != sort {
        None
    } else {
        match sub.get(sort, id) {
            None => Some(sub.set(sort, id, t)),
            Some(u) => if u == t {
                Some(sub)
            } else {
                None
            },
        }
    }
}

/// Matching a schema tree against a concrete tree under a substitution: the
/// substitution that results, or nothing if they do not match. A leaf is
/// bound; a node matches a node of the same rule and kind whose children
/// match in turn, formulas first.
pub open spec fn unify(pattern: Term, concrete: Term, sub: Substitution) -> Option<Substitution>
    decreases pattern,
{
    match pattern {
        Term::Atomic { sort, id } => bind(sub, sort, id, concrete),
        Term::Composite { sort, rule, formulas, objects } => match concrete {
            Term::Composite { sort: sort2, rule: rule2, formulas: formulas2, objects: objects2 } => {
                if sort == sort2 && rule == rule2 {
                    match unify_all(formulas, formulas2, sub) {
                        None => None,
                        Some(s) => unify_all(objects, objects2, s),
                    }
                } else {
                    None
                }
            },
            _ => None,
        },
    }
}

/// Matching schema trees against as many concrete trees, pair by pair from
/// the first on, each under the substitution that the pairs before it gave.
pub open spec fn unify_all(patterns: Seq<Term>, concretes: Seq<Term>, sub: Substitution) -> Option<
    Substitution,
>
    decreases patterns,
{
    if patterns.len() != concretes.len() {
        None
    } else if patterns.len() == 0 {
        Some(sub)
    } else {
        match unify_all(patterns.drop_last(), concretes.drop_last(), sub) {
            None => None,
            Some(s) => unify(patterns.last(), concretes.last(), s),
        }
    }
}

/// Whether `formula` follows from the cited steps by the schema: one
/// substitution turns each hypothesis of the schema into the step cited for
/// it and the schema's assertion into `formula`.
pub open spec fn is_instance(
    formula: Term,
    used: Seq<Term>,
    hypotheses: Seq<Term>,
    assertion: Term,
    wff_count: nat,
    object_count: nat,
) -> bool {
    match unify_all(hypotheses, used, Substitution::unbound(wff_count, object_count)) {
        None => false,
        Some(s) => unify(assertion, formula, s) is Some,
    }
}

/// What binds within a second substitution, and that within a third, binds
/// within the third.
pub proof fn lemma_within_chain(a: Substitution, b: Substitution, c: Substitution)
    requires
        a.within(b),
        b.within(c),
    ensures
        a.within(c),
{
    assert forall|i: int| 0 <= i < a.formulas.len() && (#[trigger] a.formulas[i]) is Some implies c.formulas[i]
        == a.formulas[i] by {
        assert(b.formulas[i] == a.formulas[i]);
    }
    assert forall|i: int| 0 <= i < a.objects.len() && (#[trigger] a.objects[i]) is Some implies c.objects[i]
        == a.objects[i] by {
        assert(b.objects[i] == a.objects[i]);
    }
}

/// Matching only adds bindings: what was bound before the match is bound to
/// the same tree after it.
pub proof fn lemma_unify_extends(pattern: Term, concrete: Term, sub: Substitution)
    ensures
        unify(pattern, concrete, sub) matches Some(after) ==> sub.within(after),
    decreases pattern, 0nat,
{
    match pattern {
        Term::Atomic { sort, id } => {},
        Term::Composite { sort, rule, formulas, objects } => {
            match concrete {
                Term::Composite { sort: sort2, rule: rule2, formulas: formulas2, objects: objects2 } => {
                    if sort == sort2 && rule == rule2 {
                        lemma_unify_all_extends(formulas, formulas2, sub);
                        match unify_all(formulas, formulas2, sub) {
                            None => {},
                            Some(s) => {
                                lemma_unify_all_extends(objects, objects2, s);
                                match unify_all(objects, objects2, s) {
                                    None => {},
                                    Some(after) => {
                                        lemma_within_chain(sub, s, after);
                                    },
                                }
                            },
                        }
                    }
                },
                _ => {},
            }
        },
    }
}

/// Matching a run only adds bindings.
pub proof fn lemma_unify_all_extends(patterns: Seq<Term>, concretes: Seq<Term>, sub: Substitution)
    ensures
        unify_all(patterns, concretes, sub) matches Some(after) ==> sub.within(after),
    decreases patterns, 1nat,
{
    if patterns.len() == concretes.len() && patterns.len() > 0 {
        lemma_unify_all_extends(patterns.drop_last(), concretes.drop_last(), sub);
        match unify_all(patterns.drop_last(), concretes.drop_last(), sub) {
            None => {},
            Some(s) => {
                lemma_unify_extends(patterns.last(), concretes.last(), s);
                match unify(patterns.last(), concretes.last(), s) {
                    None => {},
                    Some(after) => {
                        lemma_within_chain(sub, s, after);
                    },
                }
            },
        }
    }
}

/// A match that succeeded succeeds again, and changes nothing, under every
/// substitution that holds all that the match bound.
pub proof fn lemma_unify_stable(pattern: Term, concrete: Term, sub: Substitution, later: Substitution)
    requires
        unify(pattern, concrete, sub) matches Some(after) && after.within(later),
    ensures
        unify(pattern, concrete, later) == Some(later),
    decreases pattern, 0nat,
{
    let after = unify(pattern, concrete, sub)->0;
    match pattern {
        Term::Atomic { sort, id } => {
            match sort {
                SyntaxType::Formula => {
                    assert(after.formulas[id as int] == Some(concrete));
                },
                SyntaxType::Object => {
                    assert(after.objects[id as int] == Some(concrete));
                },
            }
        },
        Term::Composite { sort, rule, formulas, objects } => {
            match concrete {
                Term::Composite { sort: sort2, rule: rule2, formulas: formulas2, objects: objects2 } => {
                    let s = unify_all(formulas, formulas2, sub)->0;
                    lemma_unify_all_extends(objects, objects2, s);
                    lemma_within_chain(s, after, later);
                    lemma_unify_all_stable(formulas, formulas2, sub, later);
                    lemma_unify_all_stable(objects, objects2, s, later);
                },
                _ => {},
            }
        },
    }
}

/// A match of a run that succeeded succeeds again, and changes nothing, under
/// every substitution that holds all that the match bound.
pub proof fn lemma_unify_all_stable(
    patterns: Seq<Term>,
    concretes: Seq<Term>,
    sub: Substitution,
    later: Substitution,
)
    requires
        unify_all(patterns, concretes, sub) matches Some(after) && after.within(later),
    ensures
        unify_all(patterns, concretes, later) == Some(later),
    decreases patterns, 1nat,
{
    let after = unify_all(patterns, concretes, sub)->0;
    if patterns.len() > 0 {
        let s = unify_all(patterns.drop_last(), concretes.drop_last(), sub)->0;
        lemma_unify_extends(patterns.last(), concretes.last(), s);
        lemma_within_chain(s, after, later);
        lemma_unify_all_stable(patterns.drop_last(), concretes.drop_last(), sub, later);
        lemma_unify_stable(patterns.last(), concretes.last(), s, later);
    }
}

/// The substitution that the engine finds for a step, if it finds one.
pub open spec fn found_substitution(
    formula: Term,
    used: Seq<Term>,
    hypotheses: Seq<Term>,
    assertion: Term,
    wff_count: nat,
    object_count: nat,
) -> Option<Substitution> {
    match unify_all(hypotheses, used, Substitution::unbound(wff_count, object_count)) {
        None => None,
        Some(s) => unify(assertion, formula, s),
    }
}

/// Substitution idempotence. When the engine has found the substitution
/// that turns the schema into the step, running it again on the same schema
/// and the same step, starting from that substitution, succeeds and gives
/// that substitution again: nothing is bound anew and no binding changes.
pub proof fn lemma_substitution_idempotent(
    formula: Term,
    used: Seq<Term>,
    hypotheses: Seq<Term>,
    assertion: Term,
    wff_count: nat,
    object_count: nat,
)
    requires
        is_instance(formula, used, hypotheses, assertion, wff_count, object_count),
    ensures
        found_substitution(formula, used, hypotheses, assertion, wff_count, object_count)
            matches Some(found) && unify_all(hypotheses, used, found) == Some(found) && unify(
            assertion,
            formula,
            found,
        ) == Some(found),
{
    let start = Substitution::unbound(wff_count, object_count);
    let s = unify_all(hypotheses, used, start)->0;
    let found = unify(assertion, formula, s)->0;
    lemma_unify_extends(assertion, formula, s);
    assert(found.within(found));
    lemma_unify_all_stable(hypotheses, used, start, found);
    lemma_unify_stable(assertion, formula, s, found);
}

/// A substitution that gives every leaf of a schema a tree: a formula for
/// each formula leaf and an object for each object leaf.
pub struct Assignment {
    pub formulas: Seq<Term>,
    pub objects: Seq<Term>,
}

impl Assignment {
    /// Every formula leaf is given a formula and every object leaf an object.
    pub open spec fn well_sorted(self) -> bool {
        &&& forall|i: int|
            0 <= i < self.formulas.len() ==> (#[trigger] self.formulas[i]).sort() == SyntaxType::Formula
        &&& forall|i: int|
            0 <= i < self.objects.len() ==> (#[trigger] self.objects[i]).sort() == SyntaxType::Object
    }

    /// The assignment gives each leaf that `sub` binds the tree that `sub`
    /// binds it to.
    pub open spec fn agrees_with(self, sub: Substitution) -> bool {
        &&& self.formulas.len() == sub.formulas.len()
        &&& self.objects.len() == sub.objects.len()
        &&& forall|i: int|
            0 <= i < sub.formulas.len() && (#[trigger] sub.formulas[i]) is Some ==> sub.formulas[i]
                == Some(self.formulas[i])
        &&& forall|i: int|
            0 <= i < sub.objects.len() && (#[trigger] sub.objects[i]) is Some ==> sub.objects[i]
                == Some(self.objects[i])
    }

    /// What the assignment gives a leaf, if it gives it anything.
    pub open spec fn get(self, sort: SyntaxType, id: usize) -> Option<Term> {
        match sort {
            SyntaxType::Formula => if id < self.formulas.len() {
                Some(self.formulas[id as int])
            } else {
                None
            },
            SyntaxType::Object => if id < self.objects.len() {
                Some(self.objects[id as int])
            } else {
                None
            },
        }
    }
}

/// The schema tree with each leaf replaced by the tree that the assignment
/// gives it; nothing if the assignment gives some leaf nothing.
pub open spec fn instance(a: Assignment, pattern: Term) -> Option<Term>
    decreases pattern,
{
    match pattern {
        Term::Atomic { sort, id } => a.get(sort, id),
        Term::Composite { sort, rule, formulas, objects } => {
            match (instances(a, formulas), instances(a, objects)) {
                (Some(fs), Some(os)) => Some(
                    Term::Composite { sort, rule, formulas: fs, objects: os },
                ),
                _ => None,
            }
        },
    }
}

/// The schema trees with their leaves replaced, if each has an instance.
pub open spec fn instances(a: Assignment, patterns: Seq<Term>) -> Option<Seq<Term>>
    decreases patterns,
{
    if patterns.len() == 0 {
        Some(Seq::empty())
    } else {
        match (instances(a, patterns.drop_last()), instance(a, patterns.last())) {
            (Some(front), Some(last)) => Some(front.push(last)),
            _ => None,
        }
    }
}

/// The instances of a run are as many as the run is long.
pub proof fn lemma_instances_length(a: Assignment, patterns: Seq<Term>)
    ensures
        instances(a, patterns) matches Some(ts) ==> ts.len() == patterns.len(),
    decreases patterns.len(),
{
    if patterns.len() > 0 {
        lemma_instances_length(a, patterns.drop_last());
    }
}

/// The engine is sound: under every assignment that agrees with the
/// substitution that a match gives, the instance of the schema tree is the
/// concrete tree.
pub proof fn lemma_unify_sound(pattern: Term, concrete: Term, sub: Substitution, a: Assignment)
    requires
        unify(pattern, concrete, sub) matches Some(after) && a.agrees_with(after),
    ensures
        instance(a, pattern) == Some(concrete),
    decreases pattern, 0nat,
{
    let after = unify(pattern, concrete, sub)->0;
    match pattern {
        Term::Atomic { sort, id } => {
            match sort {
                SyntaxType::Formula => {
                    assert(after.formulas[id as int] == Some(concrete));
                },
                SyntaxType::Object => {
                    assert(after.objects[id as int] == Some(concrete));
                },
            }
        },
        Term::Composite { sort, rule, formulas, objects } => {
            match concrete {
                Term::Composite { sort: sort2, rule: rule2, formulas: formulas2, objects: objects2 } => {
                    let s = unify_all(formulas, formulas2, sub)->0;
                    lemma_unify_all_extends(objects, objects2, s);
                    lemma_agrees_with_earlier(s, after, a);
                    lemma_unify_all_sound(formulas, formulas2, sub, a);
                    lemma_unify_all_sound(objects, objects2, s, a);
                },
                _ => {},
            }
        },
    }
}

/// An assignment that agrees with a substitution agrees with every
/// substitution that binds within it.
pub proof fn lemma_agrees_with_earlier(earlier: Substitution, later: Substitution, a: Assignment)
    requires
        earlier.within(later),
        a.agrees_with(later),
    ensures
        a.agrees_with(earlier),
{
    assert forall|i: int| 0 <= i < earlier.formulas.len() && (#[trigger] earlier.formulas[i]) is Some implies earlier.formulas[i]
        == Some(a.formulas[i]) by {
        assert(later.formulas[i] == earlier.formulas[i]);
    }
    assert forall|i: int| 0 <= i < earlier.objects.len() && (#[trigger] earlier.objects[i]) is Some implies earlier.objects[i]
        == Some(a.objects[i]) by {
        assert(later.objects[i] == earlier.objects[i]);
    }
}

/// The engine is sound on runs.
pub proof fn lemma_unify_all_sound(
    patterns: Seq<Term>,
    concretes: Seq<Term>,
    sub: Substitution,
    a: Assignment,
)
    requires
        unify_all(patterns, concretes, sub) matches Some(after) && a.agrees_with(after),
    ensures
        instances(a, patterns) == Some(concretes),
    decreases patterns, 1nat,
{
    let after = unify_all(patterns, concretes, sub)->0;
    if patterns.len() > 0 {
        let s = unify_all(patterns.drop_last(), concretes.drop_last(), sub)->0;
        lemma_unify_extends(patterns.last(), concretes.last(), s);
        lemma_agrees_with_earlier(s, after, a);
        lemma_unify_all_sound(patterns.drop_last(), concretes.drop_last(), sub, a);
        lemma_unify_sound(patterns.last(), concretes.last(), s, a);
        assert(concretes.drop_last().push(concretes.last()) =~= concretes);
    } else {
        assert(concretes =~= Seq::<Term>::empty());
    }
}

/// The engine is complete: if under some well-sorted assignment that agrees
/// with the substitution the instance of the schema tree is the concrete
/// tree, the match succeeds, and the assignment agrees with what it gives.
pub proof fn lemma_unify_complete(pattern: Term, concrete: Term, sub: Substitution, a: Assignment)
    requires
        a.well_sorted(),
        a.agrees_with(sub),
        instance(a, pattern) == Some(concrete),
    ensures
        unify(pattern, concrete, sub) matches Some(after) && a.agrees_with(after),
    decreases pattern, 0nat,
{
    match pattern {
        Term::Atomic { sort, id } => {
            match sort {
                SyntaxType::Formula => {
                    assert(a.formulas[id as int].sort() == SyntaxType::Formula);
                },
                SyntaxType::Object => {
                    assert(a.objects[id as int].sort() == SyntaxType::Object);
                },
            }
        },
        Term::Composite { sort, rule, formulas, objects } => {
            let fs = instances(a, formulas)->0;
            let os = instances(a, objects)->0;
            lemma_unify_all_complete(formulas, fs, sub, a);
            let s = unify_all(formulas, fs, sub)->0;
            lemma_unify_all_complete(objects, os, s, a);
        },
    }
}

/// The engine is complete on runs.
pub proof fn lemma_unify_all_complete(
    patterns: Seq<Term>,
    concretes: Seq<Term>,
    sub: Substitution,
    a: Assignment,
)
    requires
        a.well_sorted(),
        a.agrees_with(sub),
        instances(a, patterns) == Some(concretes),
    ensures
        unify_all(patterns, concretes, sub) matches Some(after) && a.agrees_with(after),
    decreases patterns, 1nat,
{
    lemma_instances_length(a, patterns);
    if patterns.len() > 0 {
        let front = instances(a, patterns.drop_last())->0;
        let last = instance(a, patterns.last())->0;
        assert(concretes == front.push(last));
        assert(concretes.drop_last() =~= front);
        assert(concretes.last() == last);
        lemma_unify_all_complete(patterns.drop_last(), front, sub, a);
        let s = unify_all(patterns.drop_last(), front, sub)->0;
        lemma_unify_complete(patterns.last(), last, s, a);
    }
}

/// An assignment that agrees with the substitution and gives every leaf
/// that the substitution leaves unbound a leaf of its own kind.
pub open spec fn completed(sub: Substitution) -> Assignment {
    Assignment {
        formulas: Seq::new(
            sub.formulas.len(),
            |i: int|
                match sub.formulas[i] {
                    Some(t) => t,
                    None => Term::Atomic { sort: SyntaxType::Formula, id: 0 },
                },
        ),
        objects: Seq::new(
            sub.objects.len(),
            |i: int|
                match sub.objects[i] {
                    Some(t) => t,
                    None => Term::Atomic { sort: SyntaxType::Object, id: 0 },
                },
        ),
    }
}

/// Every tree that the substitution binds is of the kind of its leaf.
pub open spec fn sorted_bindings(sub: Substitution) -> bool {
    &&& forall|i: int|
        0 <= i < sub.formulas.len() ==> ((#[trigger] sub.formulas[i]) matches Some(t) ==> t.sort()
            == SyntaxType::Formula)
    &&& forall|i: int|
        0 <= i < sub.objects.len() ==> ((#[trigger] sub.objects[i]) matches Some(t) ==> t.sort()
            == SyntaxType::Object)
}

/// Matching binds each leaf to a tree of its kind.
pub proof fn lemma_unify_keeps_sorts(pattern: Term, concrete: Term, sub: Substitution)
    requires
        sorted_bindings(sub),
    ensures
        unify(pattern, concrete, sub) matches Some(after) ==> sorted_bindings(after),
    decreases pattern, 0nat,
{
    match pattern {
        Term::Atomic { sort, id } => {},
        Term::Composite { sort, rule, formulas, objects } => {
            match concrete {
                Term::Composite { sort: sort2, rule: rule2, formulas: formulas2, objects: objects2 } => {
                    lemma_unify_all_keeps_sorts(formulas, formulas2, sub);
                    match unify_all(formulas, formulas2, sub) {
                        Some(s) => {
                            lemma_unify_all_keeps_sorts(objects, objects2, s);
                        },
                        None => {},
                    }
                },
                _ => {},
            }
        },
    }
}

/// Matching a run binds each leaf to a tree of its kind.
pub proof fn lemma_unify_all_keeps_sorts(patterns: Seq<Term>, concretes: Seq<Term>, sub: Substitution)
    requires
        sorted_bindings(sub),
    ensures
        unify_all(patterns, concretes, sub) matches Some(after) ==> sorted_bindings(after),
    decreases patterns, 1nat,
{
    if patterns.len() == concretes.len() && patterns.len() > 0 {
        lemma_unify_all_keeps_sorts(patterns.drop_last(), concretes.drop_last(), sub);
        match unify_all(patterns.drop_last(), concretes.drop_last(), sub) {
            Some(s) => {
                lemma_unify_keeps_sorts(patterns.last(), concretes.last(), s);
            },
            None => {},
        }
    }
}

/// What the engine decides. A formula follows from the cited steps by a
/// schema exactly if some assignment of formulas to the schema's formula
/// leaves and of objects to its object leaves turns each hypothesis of the
/// schema into the step cited for it and the schema's assertion into the
/// formula.
pub proof fn lemma_is_instance_means_assignment(
    formula: Term,
    used: Seq<Term>,
    hypotheses: Seq<Term>,
    assertion: Term,
    wff_count: nat,
    object_count: nat,
)
    ensures
        is_instance(formula, used, hypotheses, assertion, wff_count, object_count) <==> exists|
            a: Assignment,
        |
            {
                &&& a.formulas.len() == wff_count
                &&& a.objects.len() == object_count
                &&& a.well_sorted()
                &&& #[trigger] instances(a, hypotheses) == Some(used)
                &&& instance(a, assertion) == Some(formula)
            },
{
    let start = Substitution::unbound(wff_count, object_count);
    if is_instance(formula, used, hypotheses, assertion, wff_count, object_count) {
        let s = unify_all(hypotheses, used, start)->0;
        let found = unify(assertion, formula, s)->0;
        lemma_unify_all_keeps_sorts(hypotheses, used, start);
        lemma_unify_keeps_sorts(assertion, formula, s);
        lemma_unify_all_extends(hypotheses, used, start);
        lemma_unify_extends(assertion, formula, s);
        let a = completed(found);
        assert(a.agrees_with(found));
        lemma_agrees_with_earlier(s, found, a);
        lemma_unify_all_sound(hypotheses, used, start, a);
        lemma_unify_sound(assertion, formula, s, a);
        assert(a.well_sorted());
    }
    if exists|a: Assignment|
        {
            &&& a.formulas.len() == wff_count
            &&& a.objects.len() == object_count
            &&& a.well_sorted()
            &&& #[trigger] instances(a, hypotheses) == Some(used)
            &&& instance(a, assertion) == Some(formula)
        } {
        let a = choose|a: Assignment|
            {
                &&& a.formulas.len() == wff_count
                &&& a.objects.len() == object_count
                &&& a.well_sorted()
                &&& #[trigger] instances(a, hypotheses) == Some(used)
                &&& instance(a, assertion) == Some(formula)
            };
        assert(a.agrees_with(start));
        lemma_unify_all_complete(hypotheses, used, start, a);
        let s = unify_all(hypotheses, used, start)->0;
        lemma_unify_complete(assertion, formula, s, a);
    }
}

/// Once a pair fails to match, the whole run fails to match.
pub proof fn lemma_unify_all_fails(patterns: Seq<Term>, concretes: Seq<Term>, sub: Substitution, n: int)
    requires
        patterns.len() == concretes.len(),
        0 <= n <= patterns.len(),
        unify_all(patterns.take(n), concretes.take(n), sub) is None,
    ensures
        unify_all(patterns, concretes, sub) is None,
    decreases patterns.len(),
{
    if n < patterns.len() {
        assert(patterns.drop_last().take(n) == patterns.take(n));
        assert(concretes.drop_last().take(n) == concretes.take(n));
        lemma_unify_all_fails(patterns.drop_last(), concretes.drop_last(), sub, n);
        assert(unify_all(patterns, concretes, sub) is None);
    } else {
        assert(patterns.take(n) == patterns);
        assert(concretes.take(n) == concretes);
    }
}

/// One more pair, matched under what the pairs before it gave.
pub proof fn lemma_unify_all_step(patterns: Seq<Term>, concretes: Seq<Term>, sub: Substitution, n: int)
    requires
        patterns.len() == concretes.len(),
        0 <= n < patterns.len(),
    ensures
        unify_all(patterns.take(n + 1), concretes.take(n + 1), sub) == match unify_all(
            patterns.take(n),
            concretes.take(n),
            sub,
        ) {
            None => None,
            Some(s) => unify(patterns[n], concretes[n], s),
        },
{
    let p = patterns.take(n + 1);
    let c = concretes.take(n + 1);
    assert(p.drop_last() == patterns.take(n));
    assert(c.drop_last() == concretes.take(n));
    assert(p.last() == patterns[n]);
    assert(c.last() == concretes[n]);
    assert(unify_all(p, c, sub) == match unify_all(p.drop_last(), c.drop_last(), sub) {
        None => None,
        Some(s) => unify(p.last(), c.last(), s),
    });
}

/// The model of the formulas bound so far.
pub open spec fn bound_formulas(m: Seq<Option<&WellFormedFormula>>) -> Seq<Option<Term>> {
    m.map_values(
        |o: Option<&WellFormedFormula>|
            match o {
                Some(w) => Some(w@),
                None => None,
            },
    )
}

/// The model of the objects bound so far.
pub open spec fn bound_objects(m: Seq<Option<&Object>>) -> Seq<Option<Term>> {
    m.map_values(
        |o: Option<&Object>|
            match o {
                Some(w) => Some(w@),
                None => None,
            },
    )
}

/// The substitution that the two mappings hold.
pub open spec fn bindings(
    wff_mapping: Seq<Option<&WellFormedFormula>>,
    object_mapping: Seq<Option<&Object>>,
) -> Substitution {
    Substitution { formulas: bound_formulas(wff_mapping), objects: bound_objects(object_mapping) }
}

/// Matches a schema formula against a concrete formula, and binds in the two
/// mappings what the match binds. On failure the mappings keep their lengths
/// and may hold bindings made before the failure.
pub fn find_wff_substitutions<'a>(
    base: &WellFormedFormula,
    sub: &'a WellFormedFormula,
    wff_mapping: &mut Vec<Option<&'a WellFormedFormula>>,
    object_mapping: &mut Vec<Option<&'a Object>>,
) -> (r: Result<(), ()>)
    ensures
        final(wff_mapping)@.len() == old(wff_mapping)@.len(),
        final(object_mapping)@.len() == old(object_mapping)@.len(),
        match r {
            Ok(_) => unify(base@, sub@, bindings(old(wff_mapping)@, old(object_mapping)@)) == Some(
                bindings(final(wff_mapping)@, final(object_mapping)@),
            ),
            Err(_) => unify(base@, sub@, bindings(old(wff_mapping)@, old(object_mapping)@)) is None,
        },
    decreases base,
{
    let ghost start = bindings(wff_mapping@, object_mapping@);
    match base {
        WellFormedFormula::Atomic(id) => {
            if *id >= wff_mapping.len() {
                return Err(());
            }
            match wff_mapping[*id] {
                None => {
                    wff_mapping.set(*id, Some(sub));
                    assert(bindings(wff_mapping@, object_mapping@).formulas =~= start.formulas.update(
                        *id as int,
                        Some(sub@),
                    ));
                    Ok(())
                },
                Some(w) => {
                    if sub.equals(w) {
                        Ok(())
                    } else {
                        Err(())
                    }
                },
            }
        },
        WellFormedFormula::SyntaxComposite {
            syntax_ref: rule,
            wff_parameters: base_wffs,
            object_parameters: base_objects,
        } => {
            match sub {
                WellFormedFormula::SyntaxComposite {
                    syntax_ref: rule2,
                    wff_parameters: sub_wffs,
                    object_parameters: sub_objects,
                } => {
                    proof {
                        base.lemma_view_composite();
                        sub.lemma_view_composite();
                    }
                    if *rule != *rule2 {
                        return Err(());
                    }
                    match find_all_wff_substitutions(base_wffs, sub_wffs, wff_mapping, object_mapping) {
                        Ok(_) => {},
                        Err(_) => {
                            return Err(());
                        },
                    }
                    find_all_object_substitutions(base_objects, sub_objects, wff_mapping, object_mapping)
                },
                _ => Err(()),
            }
        },
    }
}

/// Matches schema formulas against as many concrete formulas, pair by pair.
pub fn find_all_wff_substitutions<'a>(
    bases: &Vec<WellFormedFormula>,
    subs: &'a Vec<WellFormedFormula>,
    wff_mapping: &mut Vec<Option<&'a WellFormedFormula>>,
    object_mapping: &mut Vec<Option<&'a Object>>,
) -> (r: Result<(), ()>)
    ensures
        final(wff_mapping)@.len() == old(wff_mapping)@.len(),
        final(object_mapping)@.len() == old(object_mapping)@.len(),
        match r {
            Ok(_) => unify_all(
                formula_terms(bases@),
                formula_terms(subs@),
                bindings(old(wff_mapping)@, old(object_mapping)@),
            ) == Some(bindings(final(wff_mapping)@, final(object_mapping)@)),
            Err(_) => unify_all(
                formula_terms(bases@),
                formula_terms(subs@),
                bindings(old(wff_mapping)@, old(object_mapping)@),
            ) is None,
        },
    decreases bases,
{
    let ghost start = bindings(wff_mapping@, object_mapping@);
    let ghost ps = formula_terms(bases@);
    let ghost cs = formula_terms(subs@);
    if bases.len() != subs.len() {
        return Err(());
    }
    let mut i: usize = 0;
    assert(unify_all(ps.take(0), cs.take(0), start) == Some(start));
    while i < bases.len()
        invariant
            i <= bases.len(),
            bases.len() == subs.len(),
            ps == formula_terms(bases@),
            cs == formula_terms(subs@),
            wff_mapping@.len() == old(wff_mapping)@.len(),
            object_mapping@.len() == old(object_mapping)@.len(),
            start == bindings(old(wff_mapping)@, old(object_mapping)@),
            unify_all(ps.take(i as int), cs.take(i as int), start) == Some(
                bindings(wff_mapping@, object_mapping@),
            ),
        decreases bases.len() - i,
    {
        proof {
            lemma_unify_all_step(ps, cs, start, i as int);
            assert(ps[i as int] == bases@[i as int]@);
            assert(cs[i as int] == subs@[i as int]@);
        }
        match find_wff_substitutions(&bases[i], &subs[i], wff_mapping, object_mapping) {
            Ok(_) => {},
            Err(_) => {
                proof {
                    lemma_unify_all_fails(ps, cs, start, i + 1);
                }
                return Err(());
            },
        }
        i += 1;
    }
    assert(ps.take(i as int) == ps);
    assert(cs.take(i as int) == cs);
    Ok(())
}

/// Matches a schema object against a concrete object, and binds in the two
/// mappings what the match binds. On failure the mappings keep their lengths
/// and may hold bindings made before the failure.
pub fn find_object_substitutions<'a>(
    base: &Object,
    sub: &'a Object,
    wff_mapping: &mut Vec<Option<&'a WellFormedFormula>>,
    object_mapping: &mut Vec<Option<&'a Object>>,
) -> (r: Result<(), ()>)
    ensures
        final(wff_mapping)@.len() == old(wff_mapping)@.len(),
        final(object_mapping)@.len() == old(object_mapping)@.len(),
        match r {
            Ok(_) => unify(base@, sub@, bindings(old(wff_mapping)@, old(object_mapping)@)) == Some(
                bindings(final(wff_mapping)@, final(object_mapping)@),
            ),
            Err(_) => unify(base@, sub@, bindings(old(wff_mapping)@, old(object_mapping)@)) is None,
        },
    decreases base,
{
    let ghost start = bindings(wff_mapping@, object_mapping@);
    match base {
        Object::Atomic(id) => {
            if *id >= object_mapping.len() {
                return Err(());
            }
            match object_mapping[*id] {
                None => {
                    object_mapping.set(*id, Some(sub));
                    assert(bindings(wff_mapping@, object_mapping@).objects =~= start.objects.update(
                        *id as int,
                        Some(sub@),
                    ));
                    Ok(())
                },
                Some(w) => {
                    if sub.equals(w) {
                        Ok(())
                    } else {
                        Err(())
                    }
                },
            }
        },
        Object::SyntaxComposite {
            syntax_ref: rule,
            wff_parameters: base_wffs,
            object_parameters: base_objects,
        } => {
            match sub {
                Object::SyntaxComposite {
                    syntax_ref: rule2,
                    wff_parameters: sub_wffs,
                    object_parameters: sub_objects,
                } => {
                    proof {
                        base.lemma_view_composite();
                        sub.lemma_view_composite();
                    }
                    if *rule != *rule2 {
                        return Err(());
                    }
                    match find_all_wff_substitutions(base_wffs, sub_wffs, wff_mapping, object_mapping) {
                        Ok(_) => {},
                        Err(_) => {
                            return Err(());
                        },
                    }
                    find_all_object_substitutions(base_objects, sub_objects, wff_mapping, object_mapping)
                },
                _ => Err(()),
            }
        },
    }
}

/// Matches schema objects against as many concrete objects, pair by pair.
pub fn find_all_object_substitutions<'a>(
    bases: &Vec<Object>,
    subs: &'a Vec<Object>,
    wff_mapping: &mut Vec<Option<&'a WellFormedFormula>>,
    object_mapping: &mut Vec<Option<&'a Object>>,
) -> (r: Result<(), ()>)
    ensures
        final(wff_mapping)@.len() == old(wff_mapping)@.len(),
        final(object_mapping)@.len() == old(object_mapping)@.len(),
        match r {
            Ok(_) => unify_all(
                object_terms(bases@),
                object_terms(subs@),
                bindings(old(wff_mapping)@, old(object_mapping)@),
            ) == Some(bindings(final(wff_mapping)@, final(object_mapping)@)),
            Err(_) => unify_all(
                object_terms(bases@),
                object_terms(subs@),
                bindings(old(wff_mapping)@, old(object_mapping)@),
            ) is None,
        },
    decreases bases,
{
    let ghost start = bindings(wff_mapping@, object_mapping@);
    let ghost ps = object_terms(bases@);
    let ghost cs = object_terms(subs@);
    if bases.len() != subs.len() {
        return Err(());
    }
    let mut i: usize = 0;
    assert(unify_all(ps.take(0), cs.take(0), start) == Some(start));
    while i < bases.len()
        invariant
            i <= bases.len(),
            bases.len() == subs.len(),
            ps == object_terms(bases@),
            cs == object_terms(subs@),
            wff_mapping@.len() == old(wff_mapping)@.len(),
            object_mapping@.len() == old(object_mapping)@.len(),
            start == bindings(old(wff_mapping)@, old(object_mapping)@),
            unify_all(ps.take(i as int), cs.take(i as int), start) == Some(
                bindings(wff_mapping@, object_mapping@),
            ),
        decreases bases.len() - i,
    {
        proof {
            lemma_unify_all_step(ps, cs, start, i as int);
            assert(ps[i as int] == bases@[i as int]@);
            assert(cs[i as int] == subs@[i as int]@);
        }
        match find_object_substitutions(&bases[i], &subs[i], wff_mapping, object_mapping) {
            Ok(_) => {},
            Err(_) => {
                proof {
                    lemma_unify_all_fails(ps, cs, start, i + 1);
                }
                return Err(());
            },
        }
        i += 1;
    }
    assert(ps.take(i as int) == ps);
    assert(cs.take(i as int) == cs);
    Ok(())
}

/// A mapping of the given length that binds nothing.
fn empty_wff_mapping<'a>(n: usize) -> (m: Vec<Option<&'a WellFormedFormula>>)
    ensures
        m@.len() == n,
        forall|i: int| 0 <= i < n ==> (#[trigger] m@[i]) is None,
{
    let mut m: Vec<Option<&'a WellFormedFormula>> = Vec::new();
    let mut i: usize = 0;
    while i < n
        invariant
            i <= n,
            m@.len() == i,
            forall|j: int| 0 <= j < i ==> (#[trigger] m@[j]) is None,
        decreases n - i,
    {
        m.push(None);
        i += 1;
    }
    m
}

/// A mapping of the given length that binds nothing.
fn empty_object_mapping<'a>(n: usize) -> (m: Vec<Option<&'a Object>>)
    ensures
        m@.len() == n,
        forall|i: int| 0 <= i < n ==> (#[trigger] m@[i]) is None,
{
    let mut m: Vec<Option<&'a Object>> = Vec::new();
    let mut i: usize = 0;
    while i < n
        invariant
            i <= n,
            m@.len() == i,
            forall|j: int| 0 <= j < i ==> (#[trigger] m@[j]) is None,
        decreases n - i,
    {
        m.push(None);
        i += 1;
    }
    m
}

/// Whether `formula` follows from the cited steps by the schema with the
/// given hypotheses and assertion, whose leaves have ids below `wff_count`
/// and `object_count`.
pub fn formula_is_substitution(
    formula: &WellFormedFormula,
    used_hypotheses: &Vec<WellFormedFormula>,
    theo_hypotheses: &Vec<WellFormedFormula>,
    theo_assertion: &WellFormedFormula,
    wff_count: usize,
    object_count: usize,
) -> (r: bool)
    ensures
        r == is_instance(
            formula@,
            formula_terms(used_hypotheses@),
            formula_terms(theo_hypotheses@),
            theo_assertion@,
            wff_count as nat,
            object_count as nat,
        ),
{
    let mut wff_mapping = empty_wff_mapping(wff_count);
    let mut object_mapping = empty_object_mapping(object_count);
    assert(bindings(wff_mapping@, object_mapping@).formulas =~= Substitution::unbound(
        wff_count as nat,
        object_count as nat,
    ).formulas);
    assert(bindings(wff_mapping@, object_mapping@).objects =~= Substitution::unbound(
        wff_count as nat,
        object_count as nat,
    ).objects);
    match find_all_wff_substitutions(
        theo_hypotheses,
        used_hypotheses,
        &mut wff_mapping,
        &mut object_mapping,
    ) {
        Ok(_) => {},
        Err(_) => {
            return false;
        },
    }
    match find_wff_substitutions(theo_assertion, formula, &mut wff_mapping, &mut object_mapping) {
        Ok(_) => true,
        Err(_) => false,
    }
}

} // verus!
