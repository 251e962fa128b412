use vstd::prelude::*;
use vstd::std_specs::cmp::PartialEqSpecImpl;
use crate::parsing::types::FormulaChar;
use crate::text::{chars_of, is_text};

verus! {

/// One element of a syntax pattern: a literal character, a slot for a formula
/// or for an object with its id inside the rule, or the repetition marker.
#[derive(Debug, Clone, Copy, PartialEq, Eq, Structural)]
pub enum Placeholder {
    LiteralChar(char),
    WellFormedFormula(usize),
    Object(usize),
    Repetition,
}

/// What a syntax rule builds, and what a tree stands for.
#[derive(Debug, Clone, Copy, PartialEq, Eq, Structural)]
pub enum SyntaxType {
    Formula,
    Object,
}

/// A syntax rule: a pattern, the kind of tree it builds, and how many distinct
/// formula slots and object slots the pattern has.
#[derive(Debug, PartialEq)]
pub struct Syntax {
    pub syntax_type: SyntaxType,
    pub formula: Vec<Placeholder>,
    pub distinct_wff_count: usize,
    pub distinct_object_count: usize,
}

impl SyntaxModel {
    /// Every slot in the pattern has an id below the rule's arity for its kind.
    pub open spec fn slots_in_range(&self) -> bool {
        forall|j: int|
            0 <= j < self.formula.len() ==> match #[trigger] self.formula[j] {
                Placeholder::WellFormedFormula(n) => n < self.distinct_wff_count,
                Placeholder::Object(n) => n < self.distinct_object_count,
                _ => true,
            }
    }

    /// Every formula slot id below the rule's formula arity occurs in the
    /// pattern.
    pub open spec fn covers_formula_slots(&self) -> bool {
        forall|n: usize|
            n < self.distinct_wff_count ==> #[trigger] self.formula.contains(
                Placeholder::WellFormedFormula(n),
            )
    }

    /// Every object slot id below the rule's object arity occurs in the
    /// pattern.
    pub open spec fn covers_object_slots(&self) -> bool {
        forall|n: usize|
            n < self.distinct_object_count ==> #[trigger] self.formula.contains(Placeholder::Object(n))
    }

    /// Every slot id below the rule's arities occurs in the pattern.
    pub open spec fn covers_slots(&self) -> bool {
        self.covers_formula_slots() && self.covers_object_slots()
    }

    /// The arities are the numbers of distinct slots, and the slot ids are dense.
    pub open spec fn well_formed(&self) -> bool {
        self.slots_in_range() && self.covers_slots()
    }
}

impl Syntax {
    /// Every slot in the pattern has an id below the rule's arity for its kind.
    pub open spec fn slots_in_range(&self) -> bool {
        self@.slots_in_range()
    }

    /// Every slot id below the rule's arities occurs in the pattern.
    pub open spec fn covers_slots(&self) -> bool {
        self@.covers_slots()
    }

    /// The arities are the numbers of distinct slots, and the slot ids are dense.
    pub open spec fn well_formed(&self) -> bool {
        self@.well_formed()
    }
}

/// The models of the rules of a table.
pub open spec fn rules(table: Seq<Syntax>) -> Seq<SyntaxModel> {
    table.map_values(|s: Syntax| s@)
}

/// The models of a run of definitions.
pub open spec fn definition_models(v: Seq<Definition>) -> Seq<DefinitionModel> {
    v.map_values(|d: Definition| d@)
}

/// The models of a run of axioms.
pub open spec fn axiom_models(v: Seq<Axiom>) -> Seq<AxiomModel> {
    v.map_values(|a: Axiom| a@)
}

/// The models of a run of theorems.
pub open spec fn theorem_models(v: Seq<Theorem>) -> Seq<TheoremModel> {
    v.map_values(|t: Theorem| t@)
}

/// The mathematical model of a syntax tree, formula or object alike: a leaf
/// with its id, or a node built by a rule from formulas and objects.
pub enum Term {
    Atomic { sort: SyntaxType, id: usize },
    Composite { sort: SyntaxType, rule: usize, formulas: Seq<Term>, objects: Seq<Term> },
}

impl Term {
    /// Whether the tree is a formula or an object.
    pub open spec fn sort(self) -> SyntaxType {
        match self {
            Term::Atomic { sort, .. } => sort,
            Term::Composite { sort, .. } => sort,
        }
    }

    /// The children are formulas where formulas are due and objects where
    /// objects are due, all the way down.
    pub open spec fn well_sorted(self) -> bool
        decreases self,
    {
        match self {
            Term::Atomic { .. } => true,
            Term::Composite { formulas, objects, .. } => {
                &&& forall|i: int|
                    0 <= i < formulas.len() ==> (#[trigger] formulas[i]).sort() == SyntaxType::Formula
                        && formulas[i].well_sorted()
                &&& forall|i: int|
                    0 <= i < objects.len() ==> (#[trigger] objects[i]).sort() == SyntaxType::Object
                        && objects[i].well_sorted()
            },
        }
    }

    /// Every node names a rule of the table, is of the kind that the rule
    /// builds, and has as many children of each kind as the rule has slots.
    pub open spec fn fits_table(self, table: Seq<SyntaxModel>) -> bool
        decreases self,
    {
        match self {
            Term::Atomic { .. } => true,
            Term::Composite { sort, rule, formulas, objects } => {
                &&& rule < table.len()
                &&& sort == table[rule as int].syntax_type
                &&& formulas.len() == table[rule as int].distinct_wff_count
                &&& objects.len() == table[rule as int].distinct_object_count
                &&& forall|i: int| 0 <= i < formulas.len() ==> (#[trigger] formulas[i]).fits_table(table)
                &&& forall|i: int| 0 <= i < objects.len() ==> (#[trigger] objects[i]).fits_table(table)
            },
        }
    }
}

/// A formula: a leaf with its id, or the instance of a syntax rule with the
/// formulas and objects bound to the rule's slots, in slot order.
#[derive(Debug)]
pub enum WellFormedFormula {
    Atomic(usize),
    SyntaxComposite {
        syntax_ref: usize,
        wff_parameters: Vec<WellFormedFormula>,
        object_parameters: Vec<Object>,
    },
}

/// An object term, of the same shape as a formula.
#[derive(Debug)]
pub enum Object {
    Atomic(usize),
    SyntaxComposite {
        syntax_ref: usize,
        wff_parameters: Vec<WellFormedFormula>,
        object_parameters: Vec<Object>,
    },
}

/// A definition: the formula that a name stands for, and the numbers of
/// distinct formula and object leaves in it.
#[derive(Debug, PartialEq)]
pub struct Definition {
    pub name: String,
    pub definition: WellFormedFormula,
    pub distinct_wff_count: usize,
    pub distinct_object_count: usize,
}

/// An axiom: from the hypotheses, each of the assertions.
#[derive(Debug, PartialEq)]
pub struct Axiom {
    pub name: String,
    pub hypotheses: Vec<WellFormedFormula>,
    pub assertions: Vec<WellFormedFormula>,
    pub distinct_wff_count: usize,
    pub distinct_object_count: usize,
}

/// What a proof step cites: a hypothesis of the theorem being proved, a
/// definition, or one assertion of an axiom or of a theorem.
#[derive(Debug, Clone, Copy, PartialEq, Eq, Structural)]
pub enum Reference {
    HypothesisReference(usize),
    DefinitionReference(usize),
    AxiomReference(usize, usize),
    TheoremReference(usize, usize),
}

/// One step of a proof: the earlier steps it uses (counted from 0), what it
/// cites, and the formula it arrives at.
#[derive(Debug, PartialEq)]
pub struct LogicStep {
    pub used_hypotheses: Vec<usize>,
    pub theorem_ref: Reference,
    pub resulting_formula: WellFormedFormula,
}

/// A theorem with its proof.
#[derive(Debug, PartialEq)]
pub struct Theorem {
    pub name: String,
    pub hypotheses: Vec<WellFormedFormula>,
    pub assertions: Vec<WellFormedFormula>,
    pub proof: Vec<LogicStep>,
    pub distinct_wff_count: usize,
    pub distinct_object_count: usize,
}

/// One element of a formula under compilation: an atom not yet consumed, or
/// a tree already built.
#[derive(Debug, PartialEq)]
pub enum PartiallyCompiled {
    NotCompiled(FormulaChar),
    CompiledFormula(WellFormedFormula),
    CompiledObject(Object),
}

/// The model of an element under compilation.
pub enum Piece {
    Raw(FormulaChar),
    Node(Term),
}

impl View for PartiallyCompiled {
    type V = Piece;

    open spec fn view(&self) -> Piece {
        match self {
            PartiallyCompiled::NotCompiled(c) => Piece::Raw(*c),
            PartiallyCompiled::CompiledFormula(f) => Piece::Node(f@),
            PartiallyCompiled::CompiledObject(o) => Piece::Node(o@),
        }
    }
}

/// The models of a working list.
pub open spec fn pieces(w: Seq<PartiallyCompiled>) -> Seq<Piece> {
    w.map_values(|e: PartiallyCompiled| e@)
}

/// The library: syntax rules, definitions, axioms and theorems, each in the
/// order in which they were admitted.
#[derive(Debug, PartialEq)]
pub struct Library {
    pub syntaxes: Vec<Syntax>,
    pub definitions: Vec<Definition>,
    pub axioms: Vec<Axiom>,
    pub theorems: Vec<Theorem>,
}

/// The model of a syntax rule.
pub struct SyntaxModel {
    pub syntax_type: SyntaxType,
    pub formula: Seq<Placeholder>,
    pub distinct_wff_count: usize,
    pub distinct_object_count: usize,
}

impl View for Syntax {
    type V = SyntaxModel;

    open spec fn view(&self) -> SyntaxModel {
        SyntaxModel {
            syntax_type: self.syntax_type,
            formula: self.formula@,
            distinct_wff_count: self.distinct_wff_count,
            distinct_object_count: self.distinct_object_count,
        }
    }
}

/// The model of a definition.
pub struct DefinitionModel {
    pub name: Seq<char>,
    pub definition: Term,
    pub distinct_wff_count: usize,
    pub distinct_object_count: usize,
}

impl View for Definition {
    type V = DefinitionModel;

    open spec fn view(&self) -> DefinitionModel {
        DefinitionModel {
            name: self.name@,
            definition: self.definition@,
            distinct_wff_count: self.distinct_wff_count,
            distinct_object_count: self.distinct_object_count,
        }
    }
}

/// The model of an axiom.
pub struct AxiomModel {
    pub name: Seq<char>,
    pub hypotheses: Seq<Term>,
    pub assertions: Seq<Term>,
    pub distinct_wff_count: usize,
    pub distinct_object_count: usize,
}

impl View for Axiom {
    type V = AxiomModel;

    open spec fn view(&self) -> AxiomModel {
        AxiomModel {
            name: self.name@,
            hypotheses: formula_terms(self.hypotheses@),
            assertions: formula_terms(self.assertions@),
            distinct_wff_count: self.distinct_wff_count,
            distinct_object_count: self.distinct_object_count,
        }
    }
}

/// The model of a theorem.
pub struct TheoremModel {
    pub name: Seq<char>,
    pub hypotheses: Seq<Term>,
    pub assertions: Seq<Term>,
    pub proof: Seq<StepModel>,
    pub distinct_wff_count: usize,
    pub distinct_object_count: usize,
}

impl View for Theorem {
    type V = TheoremModel;

    open spec fn view(&self) -> TheoremModel {
        TheoremModel {
            name: self.name@,
            hypotheses: formula_terms(self.hypotheses@),
            assertions: formula_terms(self.assertions@),
            proof: step_views(self.proof@),
            distinct_wff_count: self.distinct_wff_count,
            distinct_object_count: self.distinct_object_count,
        }
    }
}

/// The model of a library.
pub struct LibraryModel {
    pub syntaxes: Seq<SyntaxModel>,
    pub definitions: Seq<DefinitionModel>,
    pub axioms: Seq<AxiomModel>,
    pub theorems: Seq<TheoremModel>,
}

impl View for Library {
    type V = LibraryModel;

    open spec fn view(&self) -> LibraryModel {
        LibraryModel {
            syntaxes: rules(self.syntaxes@),
            definitions: definition_models(self.definitions@),
            axioms: axiom_models(self.axioms@),
            theorems: theorem_models(self.theorems@),
        }
    }
}

/// The model of a proof step.
pub struct StepModel {
    pub used: Seq<usize>,
    pub cited: Reference,
    pub result: Term,
}

impl View for LogicStep {
    type V = StepModel;

    open spec fn view(&self) -> StepModel {
        StepModel {
            used: self.used_hypotheses@,
            cited: self.theorem_ref,
            result: self.resulting_formula@,
        }
    }
}

/// The models of the steps of a proof.
pub open spec fn step_views(steps: Seq<LogicStep>) -> Seq<StepModel> {
    steps.map_values(|s: LogicStep| s@)
}

/// What a name stands for among the entries: what the entry under that name
/// says. The index holds a name once; of entries given otherwise, with one
/// name twice, the last is meant.
pub open spec fn lookup(entries: Seq<(Seq<char>, Reference)>, name: Seq<char>) -> Option<Reference>
    decreases entries.len(),
{
    if entries.len() == 0 {
        None
    } else if entries.last().0 == name {
        Some(entries.last().1)
    } else {
        lookup(entries.drop_last(), name)
    }
}

/// No entry stands under a name that is not found.
pub proof fn lemma_not_found_is_absent(entries: Seq<(Seq<char>, Reference)>, name: Seq<char>)
    requires
        lookup(entries, name) is None,
    ensures
        forall|k: int| 0 <= k < entries.len() ==> (#[trigger] entries[k]).0 != name,
    decreases entries.len(),
{
    if entries.len() > 0 {
        lemma_not_found_is_absent(entries.drop_last(), name);
        assert forall|k: int| 0 <= k < entries.len() implies (#[trigger] entries[k]).0 != name by {
            if k < entries.len() - 1 {
                assert(entries[k] == entries.drop_last()[k]);
            } else {
                assert(entries[k] == entries.last());
            }
        }
    }
}

/// No two of the entries stand under one name.
pub open spec fn names_once(entries: Seq<(Seq<char>, Reference)>) -> bool {
    forall|i: int, j: int|
        0 <= i < j < entries.len() ==> (#[trigger] entries[i]).0 != (#[trigger] entries[j]).0
}

/// The index of the library by name: for the name of each definition, axiom
/// and theorem, where it stands. A name is entered once: a name that the
/// index holds keeps what it stands for.
#[derive(Debug, PartialEq)]
pub struct NameIndex {
    pub entries: Vec<(String, Reference)>,
}

impl View for NameIndex {
    type V = Seq<(Seq<char>, Reference)>;

    open spec fn view(&self) -> Seq<(Seq<char>, Reference)> {
        self.entries@.map_values(|e: (String, Reference)| (e.0@, e.1))
    }
}

impl NameIndex {
    /// An index without entries.
    pub fn new() -> (r: NameIndex)
        ensures
            r@ == Seq::<(Seq<char>, Reference)>::empty(),
            names_once(r@),
    {
        let r = NameIndex { entries: Vec::new() };
        assert(r@ =~= Seq::<(Seq<char>, Reference)>::empty());
        r
    }

    /// Enters a name, if the index does not hold it yet, and says whether
    /// it did. A name that the index holds keeps what it stands for.
    pub fn insert(&mut self, name: String, reference: Reference) -> (entered: bool)
        ensures
            entered == (lookup(old(self)@, name@) is None),
            final(self)@ == if entered {
                old(self)@.push((name@, reference))
            } else {
                old(self)@
            },
            names_once(old(self)@) ==> names_once(final(self)@),
    {
        match self.get(name.as_str()) {
            Some(_) => false,
            None => {
                proof {
                    lemma_not_found_is_absent(self@, name@);
                }
                self.entries.push((name, reference));
                assert(self@ =~= old(self)@.push((name@, reference)));
                true
            },
        }
    }

    /// What a name, given by its characters, stands for.
    pub fn find(&self, name: &Vec<char>) -> (r: Option<Reference>)
        ensures
            r == lookup(self@, name@),
    {
        let mut i: usize = self.entries.len();
        assert(self@.take(i as int) == self@);
        while i > 0
            invariant
                i <= self.entries.len(),
                lookup(self@, name@) == lookup(self@.take(i as int), name@),
            decreases i,
        {
            let ghost part = self@.take(i as int);
            assert(part.last() == (self.entries@[i - 1].0@, self.entries@[i - 1].1));
            assert(part.drop_last() == self@.take(i - 1));
            assert(lookup(part, name@) == if part.last().0 == name@ {
                Some(part.last().1)
            } else {
                lookup(part.drop_last(), name@)
            });
            if is_text(name, self.entries[i - 1].0.as_str()) {
                return Some(self.entries[i - 1].1);
            }
            i -= 1;
        }
        assert(lookup(self@.take(0), name@) is None);
        None
    }

    /// What a name stands for.
    pub fn get(&self, name: &str) -> (r: Option<Reference>)
        ensures
            r == lookup(self@, name@),
    {
        self.find(&chars_of(name))
    }
}

/// The models of a run of formulas, built from the last element back.
pub open spec fn formula_views(v: Seq<WellFormedFormula>) -> Seq<Term>
    decreases v,
{
    if v.len() == 0 {
        Seq::empty()
    } else {
        formula_views(v.drop_last()).push(v.last().view())
    }
}

/// The models of a run of objects, built from the last element back.
pub open spec fn object_views(v: Seq<Object>) -> Seq<Term>
    decreases v,
{
    if v.len() == 0 {
        Seq::empty()
    } else {
        object_views(v.drop_last()).push(v.last().view())
    }
}

impl View for WellFormedFormula {
    type V = Term;

    open spec fn view(&self) -> Term
        decreases self,
    {
        match self {
            WellFormedFormula::Atomic(id) => Term::Atomic { sort: SyntaxType::Formula, id: *id },
            WellFormedFormula::SyntaxComposite { syntax_ref, wff_parameters, object_parameters } => Term::Composite {
                sort: SyntaxType::Formula,
                rule: *syntax_ref,
                formulas: formula_views(wff_parameters@),
                objects: object_views(object_parameters@),
            },
        }
    }
}

impl View for Object {
    type V = Term;

    open spec fn view(&self) -> Term
        decreases self,
    {
        match self {
            Object::Atomic(id) => Term::Atomic { sort: SyntaxType::Object, id: *id },
            Object::SyntaxComposite { syntax_ref, wff_parameters, object_parameters } => Term::Composite {
                sort: SyntaxType::Object,
                rule: *syntax_ref,
                formulas: formula_views(wff_parameters@),
                objects: object_views(object_parameters@),
            },
        }
    }
}


/// The models of a run of formulas.
pub open spec fn formula_terms(v: Seq<WellFormedFormula>) -> Seq<Term> {
    v.map_values(|w: WellFormedFormula| w@)
}

/// The models of a run of objects.
pub open spec fn object_terms(v: Seq<Object>) -> Seq<Term> {
    v.map_values(|o: Object| o@)
}

/// `formula_views` maps each formula to its model, in place.
pub proof fn lemma_formula_views(v: Seq<WellFormedFormula>)
    ensures
        formula_views(v) == formula_terms(v),
    decreases v.len(),
{
    if v.len() > 0 {
        lemma_formula_views(v.drop_last());
        assert(formula_views(v) == formula_views(v.drop_last()).push(v.last().view()));
        assert(formula_views(v).len() == v.len());
        assert forall|i: int| 0 <= i < v.len() implies #[trigger] formula_views(v)[i] == v[i]@ by {
            if i < v.len() - 1 {
                assert(formula_terms(v.drop_last())[i] == v.drop_last()[i]@);
            }
        }
    }
    assert(formula_views(v) =~= formula_terms(v));
}

/// `object_views` maps each object to its model, in place.
pub proof fn lemma_object_views(v: Seq<Object>)
    ensures
        object_views(v) == object_terms(v),
    decreases v.len(),
{
    if v.len() > 0 {
        lemma_object_views(v.drop_last());
        assert(object_views(v) == object_views(v.drop_last()).push(v.last().view()));
        assert(object_views(v).len() == v.len());
        assert forall|i: int| 0 <= i < v.len() implies #[trigger] object_views(v)[i] == v[i]@ by {
            if i < v.len() - 1 {
                assert(object_terms(v.drop_last())[i] == v.drop_last()[i]@);
            }
        }
    }
    assert(object_views(v) =~= object_terms(v));
}

impl WellFormedFormula {
    /// The model of a composite formula, written over its parts.
    pub proof fn lemma_view_composite(&self)
        requires
            self is SyntaxComposite,
        ensures
            self@ == (Term::Composite {
                sort: SyntaxType::Formula,
                rule: self->syntax_ref,
                formulas: formula_terms(self->wff_parameters@),
                objects: object_terms(self->object_parameters@),
            }),
    {
        lemma_formula_views(self->wff_parameters@);
        lemma_object_views(self->object_parameters@);
    }

    /// The model of a formula is a formula, and every child in it is of the
    /// kind that its place asks for.
    pub proof fn lemma_view_well_sorted(&self)
        ensures
            self@.sort() == SyntaxType::Formula,
            self@.well_sorted(),
        decreases self,
    {
        match self {
            WellFormedFormula::Atomic(_) => {},
            WellFormedFormula::SyntaxComposite { syntax_ref, wff_parameters, object_parameters } => {
                self.lemma_view_composite();
                let fs = formula_terms(wff_parameters@);
                let os = object_terms(object_parameters@);
                assert forall|i: int| 0 <= i < fs.len() implies (#[trigger] fs[i]).sort()
                    == SyntaxType::Formula && fs[i].well_sorted() by {
                    wff_parameters@[i].lemma_view_well_sorted();
                }
                assert forall|i: int| 0 <= i < os.len() implies (#[trigger] os[i]).sort()
                    == SyntaxType::Object && os[i].well_sorted() by {
                    object_parameters@[i].lemma_view_well_sorted();
                }
            },
        }
    }

    /// Structural equality.
    pub fn equals(&self, other: &WellFormedFormula) -> (r: bool)
        ensures
            r == (self@ == other@),
        decreases self,
    {
        match (self, other) {
            (WellFormedFormula::Atomic(a), WellFormedFormula::Atomic(b)) => *a == *b,
            (
                WellFormedFormula::SyntaxComposite { syntax_ref: r1, wff_parameters: w1, object_parameters: o1 },
                WellFormedFormula::SyntaxComposite { syntax_ref: r2, wff_parameters: w2, object_parameters: o2 },
            ) => {
                proof {
                    self.lemma_view_composite();
                    other.lemma_view_composite();
                }
                *r1 == *r2 && formulas_equal(w1, w2) && objects_equal(o1, o2)
            },
            _ => false,
        }
    }
}

impl Object {
    /// The model of a composite object, written over its parts.
    pub proof fn lemma_view_composite(&self)
        requires
            self is SyntaxComposite,
        ensures
            self@ == (Term::Composite {
                sort: SyntaxType::Object,
                rule: self->syntax_ref,
                formulas: formula_terms(self->wff_parameters@),
                objects: object_terms(self->object_parameters@),
            }),
    {
        lemma_formula_views(self->wff_parameters@);
        lemma_object_views(self->object_parameters@);
    }

    /// The model of an object is an object, and every child in it is of the
    /// kind that its place asks for.
    pub proof fn lemma_view_well_sorted(&self)
        ensures
            self@.sort() == SyntaxType::Object,
            self@.well_sorted(),
        decreases self,
    {
        match self {
            Object::Atomic(_) => {},
            Object::SyntaxComposite { syntax_ref, wff_parameters, object_parameters } => {
                self.lemma_view_composite();
                let fs = formula_terms(wff_parameters@);
                let os = object_terms(object_parameters@);
                assert forall|i: int| 0 <= i < fs.len() implies (#[trigger] fs[i]).sort()
                    == SyntaxType::Formula && fs[i].well_sorted() by {
                    wff_parameters@[i].lemma_view_well_sorted();
                }
                assert forall|i: int| 0 <= i < os.len() implies (#[trigger] os[i]).sort()
                    == SyntaxType::Object && os[i].well_sorted() by {
                    object_parameters@[i].lemma_view_well_sorted();
                }
            },
        }
    }

    /// Structural equality.
    pub fn equals(&self, other: &Object) -> (r: bool)
        ensures
            r == (self@ == other@),
        decreases self,
    {
        match (self, other) {
            (Object::Atomic(a), Object::Atomic(b)) => *a == *b,
            (
                Object::SyntaxComposite { syntax_ref: r1, wff_parameters: w1, object_parameters: o1 },
                Object::SyntaxComposite { syntax_ref: r2, wff_parameters: w2, object_parameters: o2 },
            ) => {
                proof {
                    self.lemma_view_composite();
                    other.lemma_view_composite();
                }
                *r1 == *r2 && formulas_equal(w1, w2) && objects_equal(o1, o2)
            },
            _ => false,
        }
    }
}

/// Whether two runs of formulas are equal, element by element.
pub fn formulas_equal(a: &Vec<WellFormedFormula>, b: &Vec<WellFormedFormula>) -> (r: bool)
    ensures
        r == (formula_terms(a@) == formula_terms(b@)),
    decreases a,
{
    if a.len() != b.len() {
        assert(formula_terms(a@).len() != formula_terms(b@).len());
        return false;
    }
    let mut i: usize = 0;
    while i < a.len()
        invariant
            i <= a.len(),
            a.len() == b.len(),
            forall|j: int| 0 <= j < i ==> a[j]@ == b[j]@,
        decreases a.len() - i,
    {
        if !a[i].equals(&b[i]) {
            assert(formula_terms(a@)[i as int] != formula_terms(b@)[i as int]);
            return false;
        }
        i += 1;
    }
    assert(formula_terms(a@) =~= formula_terms(b@));
    true
}

/// Whether two runs of objects are equal, element by element.
pub fn objects_equal(a: &Vec<Object>, b: &Vec<Object>) -> (r: bool)
    ensures
        r == (object_terms(a@) == object_terms(b@)),
    decreases a,
{
    if a.len() != b.len() {
        assert(object_terms(a@).len() != object_terms(b@).len());
        return false;
    }
    let mut i: usize = 0;
    while i < a.len()
        invariant
            i <= a.len(),
            a.len() == b.len(),
            forall|j: int| 0 <= j < i ==> a[j]@ == b[j]@,
        decreases a.len() - i,
    {
        if !a[i].equals(&b[i]) {
            assert(object_terms(a@)[i as int] != object_terms(b@)[i as int]);
            return false;
        }
        i += 1;
    }
    assert(object_terms(a@) =~= object_terms(b@));
    true
}

impl Clone for WellFormedFormula {
    fn clone(&self) -> (r: Self)
        ensures
            r@ == self@,
        decreases self,
    {
        match self {
            WellFormedFormula::Atomic(id) => WellFormedFormula::Atomic(*id),
            WellFormedFormula::SyntaxComposite { syntax_ref, wff_parameters, object_parameters } => {
                let r = WellFormedFormula::SyntaxComposite {
                    syntax_ref: *syntax_ref,
                    wff_parameters: clone_formulas(wff_parameters),
                    object_parameters: clone_objects(object_parameters),
                };
                proof {
                    self.lemma_view_composite();
                    r.lemma_view_composite();
                }
                r
            },
        }
    }
}

impl Clone for Object {
    fn clone(&self) -> (r: Self)
        ensures
            r@ == self@,
        decreases self,
    {
        match self {
            Object::Atomic(id) => Object::Atomic(*id),
            Object::SyntaxComposite { syntax_ref, wff_parameters, object_parameters } => {
                let r = Object::SyntaxComposite {
                    syntax_ref: *syntax_ref,
                    wff_parameters: clone_formulas(wff_parameters),
                    object_parameters: clone_objects(object_parameters),
                };
                proof {
                    self.lemma_view_composite();
                    r.lemma_view_composite();
                }
                r
            },
        }
    }
}

/// A copy of a run of formulas.
pub fn clone_formulas(v: &Vec<WellFormedFormula>) -> (r: Vec<WellFormedFormula>)
    ensures
        formula_terms(r@) == formula_terms(v@),
    decreases v,
{
    let mut r: Vec<WellFormedFormula> = Vec::new();
    let mut i: usize = 0;
    while i < v.len()
        invariant
            i <= v.len(),
            r.len() == i,
            forall|j: int| 0 <= j < i ==> r[j]@ == v[j]@,
        decreases v.len() - i,
    {
        r.push(v[i].clone());
        i += 1;
    }
    assert(formula_terms(r@) =~= formula_terms(v@));
    r
}

/// A copy of a run of objects.
pub fn clone_objects(v: &Vec<Object>) -> (r: Vec<Object>)
    ensures
        object_terms(r@) == object_terms(v@),
    decreases v,
{
    let mut r: Vec<Object> = Vec::new();
    let mut i: usize = 0;
    while i < v.len()
        invariant
            i <= v.len(),
            r.len() == i,
            forall|j: int| 0 <= j < i ==> r[j]@ == v[j]@,
        decreases v.len() - i,
    {
        r.push(v[i].clone());
        i += 1;
    }
    assert(object_terms(r@) =~= object_terms(v@));
    r
}

impl PartialEq for WellFormedFormula {
    fn eq(&self, other: &Self) -> (r: bool) {
        self.equals(other)
    }
}

impl PartialEqSpecImpl for WellFormedFormula {
    open spec fn obeys_eq_spec() -> bool {
        true
    }

    open spec fn eq_spec(&self, other: &Self) -> bool {
        self@ == other@
    }
}

impl PartialEq for Object {
    fn eq(&self, other: &Self) -> (r: bool) {
        self.equals(other)
    }
}

impl PartialEqSpecImpl for Object {
    open spec fn obeys_eq_spec() -> bool {
        true
    }

    open spec fn eq_spec(&self, other: &Self) -> bool {
        self@ == other@
    }
}

} // verus!
