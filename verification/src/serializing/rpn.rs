//! Trees as block sequences in postfix order, and back.

use vstd::prelude::*;
use crate::compiling::types::{
    formula_terms, object_terms, rules, Object, Syntax, SyntaxModel, SyntaxType, Term,
    WellFormedFormula,
};

verus! {

/// One block of a tree written in postfix order: a leaf with its id, or the
/// mark of a node with its rule; either for a formula or for an object.
#[derive(Debug, Clone, Copy, PartialEq, Eq, Structural)]
pub enum RpnBlock {
    WffAtomic(usize),
    WffComposite(usize),
    ObjectAtomic(usize),
    ObjectComposite(usize),
}

/// The block that stands for the root of a tree.
pub open spec fn root_block(t: Term) -> RpnBlock {
    match t {
        Term::Atomic { sort: SyntaxType::Formula, id } => RpnBlock::WffAtomic(id),
        Term::Atomic { sort: SyntaxType::Object, id } => RpnBlock::ObjectAtomic(id),
        Term::Composite { sort: SyntaxType::Formula, rule, .. } => RpnBlock::WffComposite(rule),
        Term::Composite { sort: SyntaxType::Object, rule, .. } => RpnBlock::ObjectComposite(rule),
    }
}

/// A tree in postfix order: the formulas below its root in order, then the
/// objects below its root in order, then the root.
pub open spec fn rpn_of(t: Term) -> Seq<RpnBlock>
    decreases t,
{
    match t {
        Term::Atomic { .. } => seq![root_block(t)],
        Term::Composite { formulas, objects, .. } => (rpn_of_all(formulas) + rpn_of_all(objects)).push(
            root_block(t),
        ),
    }
}

/// A run of trees in postfix order, one after the other.
pub open spec fn rpn_of_all(ts: Seq<Term>) -> Seq<RpnBlock>
    decreases ts,
{
    if ts.len() == 0 {
        Seq::empty()
    } else {
        rpn_of_all(ts.drop_last()) + rpn_of(ts.last())
    }
}

/// The two stacks of the reader: the formulas and the objects read and not
/// yet taken by a node, the latest last.
pub struct Stacks {
    pub formulas: Seq<Term>,
    pub objects: Seq<Term>,
}

impl Stacks {
    /// The stacks with nothing on them.
    pub open spec fn empty() -> Stacks {
        Stacks { formulas: Seq::empty(), objects: Seq::empty() }
    }

    /// The stacks with one more tree, on the stack of its kind.
    pub open spec fn push(self, t: Term) -> Stacks {
        match t.sort() {
            SyntaxType::Formula => Stacks { formulas: self.formulas.push(t), ..self },
            SyntaxType::Object => Stacks { objects: self.objects.push(t), ..self },
        }
    }

    /// The stacks with more trees on the stack of the given kind.
    pub open spec fn push_all(self, sort: SyntaxType, ts: Seq<Term>) -> Stacks {
        match sort {
            SyntaxType::Formula => Stacks { formulas: self.formulas + ts, ..self },
            SyntaxType::Object => Stacks { objects: self.objects + ts, ..self },
        }
    }

    /// The stacks after a node of the given kind and rule has taken its
    /// children from them: as many formulas and objects as the rule has slots,
    /// from the tops of the stacks. Nothing if the table has no such rule or
    /// a stack holds too few.
    pub open spec fn build(self, sort: SyntaxType, rule: usize, table: Seq<SyntaxModel>) -> Option<Stacks> {
        if rule < table.len() && table[rule as int].distinct_wff_count <= self.formulas.len()
            && table[rule as int].distinct_object_count <= self.objects.len() {
            let nf = self.formulas.len() - table[rule as int].distinct_wff_count;
            let no = self.objects.len() - table[rule as int].distinct_object_count;
            Some(
                Stacks { formulas: self.formulas.take(nf), objects: self.objects.take(no) }.push(
                    Term::Composite {
                        sort,
                        rule,
                        formulas: self.formulas.skip(nf),
                        objects: self.objects.skip(no),
                    },
                ),
            )
        } else {
            None
        }
    }

    /// The stacks after one block.
    pub open spec fn step(self, block: RpnBlock, table: Seq<SyntaxModel>) -> Option<Stacks> {
        match block {
            RpnBlock::WffAtomic(id) => Some(self.push(Term::Atomic { sort: SyntaxType::Formula, id })),
            RpnBlock::ObjectAtomic(id) => Some(
                self.push(Term::Atomic { sort: SyntaxType::Object, id }),
            ),
            RpnBlock::WffComposite(rule) => self.build(SyntaxType::Formula, rule, table),
            RpnBlock::ObjectComposite(rule) => self.build(SyntaxType::Object, rule, table),
        }
    }

    /// The stacks after a run of blocks, or nothing if a block fails.
    pub open spec fn run(self, blocks: Seq<RpnBlock>, table: Seq<SyntaxModel>) -> Option<Stacks>
        decreases blocks.len(),
    {
        if blocks.len() == 0 {
            Some(self)
        } else {
            match self.run(blocks.drop_last(), table) {
                None => None,
                Some(s) => s.step(blocks.last(), table),
            }
        }
    }
}

/// The formula that a run of blocks writes: what is left when the blocks
/// have been read, if that is one formula and no object.
pub open spec fn decode(blocks: Seq<RpnBlock>, table: Seq<SyntaxModel>) -> Option<Term> {
    match Stacks::empty().run(blocks, table) {
        Some(st) => if st.formulas.len() == 1 && st.objects.len() == 0 {
            Some(st.formulas[0])
        } else {
            None
        },
        None => None,
    }
}

/// Writes a formula in postfix order.
pub fn wff_to_rpn(wff: WellFormedFormula) -> (r: Vec<RpnBlock>)
    ensures
        r@ == rpn_of(wff@),
{
    let mut res: Vec<RpnBlock> = Vec::new();
    __wff_to_rpn(&wff, &mut res);
    assert(Seq::<RpnBlock>::empty() + rpn_of(wff@) == rpn_of(wff@));
    res
}

/// Appends a formula in postfix order.
pub fn __wff_to_rpn(wff: &WellFormedFormula, res: &mut Vec<RpnBlock>)
    ensures
        final(res)@ == old(res)@ + rpn_of(wff@),
    decreases wff,
{
    match wff {
        WellFormedFormula::Atomic(id) => {
            res.push(RpnBlock::WffAtomic(*id));
            assert(rpn_of(wff@) == seq![RpnBlock::WffAtomic(*id)]);
            assert(old(res)@.push(RpnBlock::WffAtomic(*id)) == old(res)@ + seq![
                RpnBlock::WffAtomic(*id),
            ]);
        },
        WellFormedFormula::SyntaxComposite { syntax_ref, wff_parameters, object_parameters } => {
            proof {
                wff.lemma_view_composite();
            }
            __wffs_to_rpn(wff_parameters, res);
            __objs_to_rpn(object_parameters, res);
            res.push(RpnBlock::WffComposite(*syntax_ref));
            assert(rpn_of(wff@) == (rpn_of_all(formula_terms(wff_parameters@)) + rpn_of_all(
                object_terms(object_parameters@),
            )).push(RpnBlock::WffComposite(*syntax_ref)));
            assert(res@ == old(res)@ + rpn_of(wff@));
        },
    }
}

/// Appends an object in postfix order.
pub fn __obj_to_rpn(obj: &Object, res: &mut Vec<RpnBlock>)
    ensures
        final(res)@ == old(res)@ + rpn_of(obj@),
    decreases obj,
{
    match obj {
        Object::Atomic(id) => {
            res.push(RpnBlock::ObjectAtomic(*id));
            assert(rpn_of(obj@) == seq![RpnBlock::ObjectAtomic(*id)]);
            assert(old(res)@.push(RpnBlock::ObjectAtomic(*id)) == old(res)@ + seq![
                RpnBlock::ObjectAtomic(*id),
            ]);
        },
        Object::SyntaxComposite { syntax_ref, wff_parameters, object_parameters } => {
            proof {
                obj.lemma_view_composite();
            }
            __wffs_to_rpn(wff_parameters, res);
            __objs_to_rpn(object_parameters, res);
            res.push(RpnBlock::ObjectComposite(*syntax_ref));
            assert(rpn_of(obj@) == (rpn_of_all(formula_terms(wff_parameters@)) + rpn_of_all(
                object_terms(object_parameters@),
            )).push(RpnBlock::ObjectComposite(*syntax_ref)));
            assert(res@ == old(res)@ + rpn_of(obj@));
        },
    }
}

/// Appends a run of formulas in postfix order.
pub fn __wffs_to_rpn(wffs: &Vec<WellFormedFormula>, res: &mut Vec<RpnBlock>)
    ensures
        final(res)@ == old(res)@ + rpn_of_all(formula_terms(wffs@)),
    decreases wffs,
{
    let ghost ts = formula_terms(wffs@);
    let mut i: usize = 0;
    assert(rpn_of_all(ts.take(0)) == Seq::<RpnBlock>::empty());
    assert(res@ == old(res)@ + Seq::<RpnBlock>::empty());
    while i < wffs.len()
        invariant
            i <= wffs.len(),
            ts == formula_terms(wffs@),
            res@ == old(res)@ + rpn_of_all(ts.take(i as int)),
        decreases wffs.len() - i,
    {
        let ghost before = res@;
        __wff_to_rpn(&wffs[i], res);
        proof {
            let next = ts.take(i + 1);
            assert(next.drop_last() == ts.take(i as int));
            assert(next.last() == wffs@[i as int]@);
            assert(rpn_of_all(next) == rpn_of_all(next.drop_last()) + rpn_of(next.last()));
            assert(res@ == old(res)@ + rpn_of_all(next));
        }
        i += 1;
    }
    assert(ts.take(i as int) == ts);
}

/// Appends a run of objects in postfix order.
pub fn __objs_to_rpn(objs: &Vec<Object>, res: &mut Vec<RpnBlock>)
    ensures
        final(res)@ == old(res)@ + rpn_of_all(object_terms(objs@)),
    decreases objs,
{
    let ghost ts = object_terms(objs@);
    let mut i: usize = 0;
    assert(rpn_of_all(ts.take(0)) == Seq::<RpnBlock>::empty());
    assert(res@ == old(res)@ + Seq::<RpnBlock>::empty());
    while i < objs.len()
        invariant
            i <= objs.len(),
            ts == object_terms(objs@),
            res@ == old(res)@ + rpn_of_all(ts.take(i as int)),
        decreases objs.len() - i,
    {
        let ghost before = res@;
        __obj_to_rpn(&objs[i], res);
        proof {
            let next = ts.take(i + 1);
            assert(next.drop_last() == ts.take(i as int));
            assert(next.last() == objs@[i as int]@);
            assert(rpn_of_all(next) == rpn_of_all(next.drop_last()) + rpn_of(next.last()));
            assert(res@ == old(res)@ + rpn_of_all(next));
        }
        i += 1;
    }
    assert(ts.take(i as int) == ts);
}

/// Once a block fails, the whole run fails.
pub proof fn lemma_run_fails(st: Stacks, blocks: Seq<RpnBlock>, table: Seq<SyntaxModel>, n: int)
    requires
        0 <= n <= blocks.len(),
        st.run(blocks.take(n), table) is None,
    ensures
        st.run(blocks, table) is None,
    decreases blocks.len(),
{
    if n < blocks.len() {
        assert(blocks.drop_last().take(n) == blocks.take(n));
        lemma_run_fails(st, blocks.drop_last(), table, n);
        assert(st.run(blocks, table) is None);
    } else {
        assert(blocks.take(n) == blocks);
    }
}

/// The stacks that the reader holds.
pub open spec fn stacks_of(wffs: Seq<WellFormedFormula>, objs: Seq<Object>) -> Stacks {
    Stacks { formulas: formula_terms(wffs), objects: object_terms(objs) }
}

/// Reads a formula written in postfix order. Each node takes its children
/// from the two stacks, as many as its rule in `syntaxes` has slots. The
/// result is the one formula left at the end; a node without a rule or
/// without enough children, or anything else left at the end, gives nothing.
pub fn read_rpn(rpn: &Vec<RpnBlock>, syntaxes: &Vec<Syntax>) -> (r: Option<WellFormedFormula>)
    ensures
        match r {
            Some(w) => decode(rpn@, rules(syntaxes@)) == Some(w@),
            None => decode(rpn@, rules(syntaxes@)) is None,
        },
{
    let mut wff_stack: Vec<WellFormedFormula> = Vec::new();
    let mut obj_stack: Vec<Object> = Vec::new();
    let mut i: usize = 0;
    assert(stacks_of(wff_stack@, obj_stack@).formulas =~= Stacks::empty().formulas);
    assert(stacks_of(wff_stack@, obj_stack@).objects =~= Stacks::empty().objects);
    assert(Stacks::empty().run(rpn@.take(0), rules(syntaxes@)) == Some(Stacks::empty()));
    while i < rpn.len()
        invariant
            i <= rpn.len(),
            Stacks::empty().run(rpn@.take(i as int), rules(syntaxes@)) == Some(
                stacks_of(wff_stack@, obj_stack@),
            ),
        decreases rpn.len() - i,
    {
        let ghost before = stacks_of(wff_stack@, obj_stack@);
        let ghost old_wffs = wff_stack@;
        let ghost old_objs = obj_stack@;
        proof {
            let next = rpn@.take(i + 1);
            assert(next.drop_last() == rpn@.take(i as int));
            assert(next.last() == rpn@[i as int]);
            assert(Stacks::empty().run(next, rules(syntaxes@)) == match Stacks::empty().run(
                next.drop_last(),
                rules(syntaxes@),
            ) {
                None => None,
                Some(s) => s.step(next.last(), rules(syntaxes@)),
            });
        }
        match rpn[i] {
            RpnBlock::WffAtomic(id) => {
                wff_stack.push(WellFormedFormula::Atomic(id));
                assert(formula_terms(wff_stack@) =~= before.formulas.push(
                    Term::Atomic { sort: SyntaxType::Formula, id },
                ));
            },
            RpnBlock::ObjectAtomic(id) => {
                obj_stack.push(Object::Atomic(id));
                assert(object_terms(obj_stack@) =~= before.objects.push(
                    Term::Atomic { sort: SyntaxType::Object, id },
                ));
            },
            RpnBlock::WffComposite(syntax_ref) => {
                if syntax_ref >= syntaxes.len() || syntaxes[syntax_ref].distinct_wff_count
                    > wff_stack.len() || syntaxes[syntax_ref].distinct_object_count
                    > obj_stack.len() {
                    proof {
                        lemma_run_fails(Stacks::empty(), rpn@, rules(syntaxes@), i + 1);
                    }
                    return None;
                }
                let nf = wff_stack.len() - syntaxes[syntax_ref].distinct_wff_count;
                let no = obj_stack.len() - syntaxes[syntax_ref].distinct_object_count;
                let wff_parameters = wff_stack.split_off(nf);
                let object_parameters = obj_stack.split_off(no);
                let wff = WellFormedFormula::SyntaxComposite {
                    syntax_ref,
                    wff_parameters,
                    object_parameters,
                };
                proof {
                    wff.lemma_view_composite();
                    assert(formula_terms(wff_parameters@) =~= before.formulas.skip(nf as int));
                    assert(object_terms(object_parameters@) =~= before.objects.skip(no as int));
                    assert(formula_terms(wff_stack@) =~= before.formulas.take(nf as int));
                    assert(object_terms(obj_stack@) =~= before.objects.take(no as int));
                }
                let ghost rest = wff_stack@;
                wff_stack.push(wff);
                assert(formula_terms(wff_stack@) =~= formula_terms(rest).push(wff@));
            },
            RpnBlock::ObjectComposite(syntax_ref) => {
                if syntax_ref >= syntaxes.len() || syntaxes[syntax_ref].distinct_wff_count
                    > wff_stack.len() || syntaxes[syntax_ref].distinct_object_count
                    > obj_stack.len() {
                    proof {
                        lemma_run_fails(Stacks::empty(), rpn@, rules(syntaxes@), i + 1);
                    }
                    return None;
                }
                let nf = wff_stack.len() - syntaxes[syntax_ref].distinct_wff_count;
                let no = obj_stack.len() - syntaxes[syntax_ref].distinct_object_count;
                let wff_parameters = wff_stack.split_off(nf);
                let object_parameters = obj_stack.split_off(no);
                let obj = Object::SyntaxComposite { syntax_ref, wff_parameters, object_parameters };
                proof {
                    obj.lemma_view_composite();
                    assert(formula_terms(wff_parameters@) =~= before.formulas.skip(nf as int));
                    assert(object_terms(object_parameters@) =~= before.objects.skip(no as int));
                    assert(formula_terms(wff_stack@) =~= before.formulas.take(nf as int));
                    assert(object_terms(obj_stack@) =~= before.objects.take(no as int));
                }
                let ghost rest = obj_stack@;
                obj_stack.push(obj);
                assert(object_terms(obj_stack@) =~= object_terms(rest).push(obj@));
            },
        }
        i += 1;
    }
    assert(rpn@.take(i as int) == rpn@);
    if wff_stack.len() == 1 && obj_stack.len() == 0 {
        let ghost last = wff_stack@;
        let w = wff_stack.pop();
        assert(formula_terms(last)[0] == last[0]@);
        w
    } else {
        None
    }
}

/// Reading one run of blocks and then another is reading the two as one.
pub proof fn lemma_run_append(st: Stacks, a: Seq<RpnBlock>, b: Seq<RpnBlock>, table: Seq<SyntaxModel>)
    ensures
        st.run(a + b, table) == match st.run(a, table) {
            None => None,
            Some(s) => s.run(b, table),
        },
    decreases b.len(),
{
    if b.len() == 0 {
        assert(a + b == a);
        match st.run(a, table) {
            None => {},
            Some(s) => {
                assert(s.run(b, table) == Some(s));
            },
        }
    } else {
        assert((a + b).drop_last() == a + b.drop_last());
        assert((a + b).last() == b.last());
        lemma_run_append(st, a, b.drop_last(), table);
        assert(st.run(a + b, table) == match st.run((a + b).drop_last(), table) {
            None => None,
            Some(s) => s.step((a + b).last(), table),
        });
        match st.run(a, table) {
            None => {},
            Some(s) => {
                assert(s.run(b, table) == match s.run(b.drop_last(), table) {
                    None => None,
                    Some(s2) => s2.step(b.last(), table),
                });
            },
        }
    }
}

/// Reading a tree that fits the table puts that tree on the stack of its
/// kind, whatever the stacks held.
pub proof fn lemma_run_rpn_of(st: Stacks, t: Term, table: Seq<SyntaxModel>)
    requires
        t.well_sorted(),
        t.fits_table(table),
    ensures
        st.run(rpn_of(t), table) == Some(st.push(t)),
    decreases t, 0nat,
{
    let blocks = rpn_of(t);
    match t {
        Term::Atomic { sort, id } => {
            assert(blocks == seq![root_block(t)]);
            assert(blocks.drop_last() == Seq::<RpnBlock>::empty());
            assert(st.run(blocks.drop_last(), table) == Some(st));
            assert(st.run(blocks, table) == match st.run(blocks.drop_last(), table) {
                None => None,
                Some(s) => s.step(blocks.last(), table),
            });
        },
        Term::Composite { sort, rule, formulas, objects } => {
            let a = rpn_of_all(formulas);
            let b = rpn_of_all(objects);
            assert(blocks == (a + b).push(root_block(t)));
            assert(blocks.drop_last() == a + b);
            assert(blocks.last() == root_block(t));
            lemma_run_rpn_of_all(st, formulas, SyntaxType::Formula, table);
            let st1 = st.push_all(SyntaxType::Formula, formulas);
            lemma_run_rpn_of_all(st1, objects, SyntaxType::Object, table);
            let st2 = st1.push_all(SyntaxType::Object, objects);
            lemma_run_append(st, a, b, table);
            assert(st.run(a + b, table) == Some(st2));
            assert(st.run(blocks, table) == match st.run(blocks.drop_last(), table) {
                None => None,
                Some(s) => s.step(blocks.last(), table),
            });
            let nf = st2.formulas.len() - table[rule as int].distinct_wff_count;
            let no = st2.objects.len() - table[rule as int].distinct_object_count;
            assert(st2.formulas.take(nf) =~= st.formulas);
            assert(st2.objects.take(no) =~= st.objects);
            assert(st2.formulas.skip(nf) =~= formulas);
            assert(st2.objects.skip(no) =~= objects);
            assert(st2.build(sort, rule, table) == Some(st.push(t)));
        },
    }
}

/// Reading a run of trees of one kind that fit the table puts them on the
/// stack of that kind, in order.
pub proof fn lemma_run_rpn_of_all(st: Stacks, ts: Seq<Term>, sort: SyntaxType, table: Seq<SyntaxModel>)
    requires
        forall|i: int|
            0 <= i < ts.len() ==> (#[trigger] ts[i]).sort() == sort && ts[i].well_sorted()
                && ts[i].fits_table(table),
    ensures
        st.run(rpn_of_all(ts), table) == Some(st.push_all(sort, ts)),
    decreases ts, 1nat,
{
    if ts.len() == 0 {
        assert(rpn_of_all(ts) == Seq::<RpnBlock>::empty());
        assert(st.run(rpn_of_all(ts), table) == Some(st));
        assert(st.formulas + ts =~= st.formulas);
        assert(st.objects + ts =~= st.objects);
    } else {
        let front = ts.drop_last();
        assert forall|i: int| 0 <= i < front.len() implies (#[trigger] front[i]).sort() == sort
            && front[i].well_sorted() && front[i].fits_table(table) by {
            assert(front[i] == ts[i]);
        }
        lemma_run_rpn_of_all(st, front, sort, table);
        let st1 = st.push_all(sort, front);
        assert(ts.last() == ts[ts.len() - 1]);
        lemma_run_rpn_of(st1, ts.last(), table);
        lemma_run_append(st, rpn_of_all(front), rpn_of(ts.last()), table);
        assert(rpn_of_all(ts) == rpn_of_all(front) + rpn_of(ts.last()));
        assert(st.formulas + front.push(ts.last()) =~= (st.formulas + front).push(ts.last()));
        assert(st.objects + front.push(ts.last()) =~= (st.objects + front).push(ts.last()));
        assert(front.push(ts.last()) =~= ts);
    }
}

/// Reading back what was written gives the same formula: for every formula
/// tree whose nodes fit the table, decoding its postfix form under that table
/// yields the tree.
pub proof fn lemma_decode_rpn_of(t: Term, table: Seq<SyntaxModel>)
    requires
        t.sort() == SyntaxType::Formula,
        t.well_sorted(),
        t.fits_table(table),
    ensures
        decode(rpn_of(t), table) == Some(t),
{
    lemma_run_rpn_of(Stacks::empty(), t, table);
}

/// Reading back what was written gives the same formula, for every formula
/// of the library's own type whose nodes fit the table.
pub proof fn lemma_decode_encoded_formula(wff: WellFormedFormula, table: Seq<SyntaxModel>)
    requires
        wff@.fits_table(table),
    ensures
        decode(rpn_of(wff@), table) == Some(wff@),
{
    wff.lemma_view_well_sorted();
    lemma_decode_rpn_of(wff@, table);
}

/// Reads a formula written in postfix order. Each node takes its children
/// from the two stacks, as many as its rule in `syntaxes` has slots. The
/// result is the one formula left at the end; a node without a rule or
/// without enough children, or anything else left at the end, gives nothing.
pub fn rpn_to_wff(rpn: Vec<RpnBlock>, syntaxes: &Vec<Syntax>) -> (r: Option<WellFormedFormula>)
    ensures
        match r {
            Some(w) => decode(rpn@, rules(syntaxes@)) == Some(w@),
            None => decode(rpn@, rules(syntaxes@)) is None,
        },
{
    read_rpn(&rpn, syntaxes)
}

} // verus!
