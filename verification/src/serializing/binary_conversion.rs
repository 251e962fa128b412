//! How the entries of a library are written to an archive and read back.

use vstd::prelude::*;
use vstd::string::StrSliceExecFns;
use vstd::utf8::{decode_utf8, encode_utf8, valid_utf8};
use crate::compiling::types::{
    formula_terms, rules, step_views, Axiom, AxiomModel, Definition, DefinitionModel, LogicStep,
    Placeholder, Reference, StepModel, Syntax, SyntaxModel, SyntaxType, Term, Theorem,
    TheoremModel, WellFormedFormula,
};
use crate::serializing::rpn::{decode, read_rpn, rpn_of, RpnBlock, __wff_to_rpn};
use crate::serializing::traits::{BinaryConvert, Vectorizable};
use crate::serializing::vectorizable::{le32, le32_value, low32, push_le32, read_le32};

verus! {

/// The frame that closes a run of frames.
pub open spec fn closing(width: nat) -> Seq<u8> {
    Seq::new(width, |i: int| 0xfeu8)
}

/// The frame that closes a run of runs.
pub open spec fn closing_all(width: nat) -> Seq<u8> {
    Seq::new(width, |i: int| 0xffu8)
}

/// The frames of a run of values, one after the other.
pub open spec fn frames<T: Vectorizable>(v: Seq<T>) -> Seq<u8>
    decreases v.len(),
{
    if v.len() == 0 {
        Seq::empty()
    } else {
        frames(v.drop_last()) + v.last().frame()
    }
}

/// A run of values as written: its frames, then the closing frame.
pub open spec fn vector_binary<T: Vectorizable>(v: Seq<T>) -> Seq<u8> {
    frames(v) + closing(T::width())
}

/// Runs of values, each as written, one after the other.
pub open spec fn runs<T: Vectorizable>(v: Seq<Seq<T>>) -> Seq<u8>
    decreases v.len(),
{
    if v.len() == 0 {
        Seq::empty()
    } else {
        runs(v.drop_last()) + vector_binary(v.last())
    }
}

/// A run of runs as written: the runs, then the frame that closes them all.
pub open spec fn vectors_binary<T: Vectorizable>(v: Seq<Seq<T>>) -> Seq<u8> {
    runs(v) + closing_all(T::width())
}

/// A run preceded by the values already read.
pub open spec fn after<T>(head: Seq<T>, rest: Option<(Seq<T>, int)>) -> Option<(Seq<T>, int)> {
    match rest {
        None => None,
        Some((tail, next)) => Some((head + tail, next)),
    }
}

/// The run of values that stands at a place: frame after frame up to the
/// closing frame. Nothing if the bytes end before the closing frame, or if a
/// frame holds no value.
pub open spec fn read_vector<T: Vectorizable>(source: Seq<u8>, at: int) -> Option<(Seq<T>, int)>
    decreases source.len() - at,
{
    let w = T::width() as int;
    if w <= 0 || at < 0 || at + w > source.len() {
        None
    } else {
        let frame = source.subrange(at, at + w);
        if frame == closing(T::width()) {
            Some((Seq::empty(), at + w))
        } else {
            match T::unframe(frame) {
                None => None,
                Some(x) => after(seq![x], read_vector::<T>(source, at + w)),
            }
        }
    }
}

/// Runs preceded by the runs already read.
pub open spec fn after_runs<T>(head: Seq<Seq<T>>, rest: Option<(Seq<Seq<T>>, int)>) -> Option<
    (Seq<Seq<T>>, int),
> {
    match rest {
        None => None,
        Some((tail, next)) => Some((head + tail, next)),
    }
}

/// The runs that stand at a place, the first of them beginning with the
/// values in `current`: a closing frame ends a run, and the frame that closes
/// them all ends the reading; what stands between the last closing frame and
/// that frame belongs to no run.
pub open spec fn read_vectors<T: Vectorizable>(source: Seq<u8>, at: int, current: Seq<T>) -> Option<
    (Seq<Seq<T>>, int),
>
    decreases source.len() - at,
{
    let w = T::width() as int;
    if w <= 0 || at < 0 || at + w > source.len() {
        None
    } else {
        let frame = source.subrange(at, at + w);
        if frame == closing(T::width()) {
            after_runs(seq![current], read_vectors::<T>(source, at + w, Seq::empty()))
        } else if frame == closing_all(T::width()) {
            Some((Seq::empty(), at + w))
        } else {
            match T::unframe(frame) {
                None => None,
                Some(x) => read_vectors::<T>(source, at + w, current.push(x)),
            }
        }
    }
}

/// Appends the bytes of `more` to `r`.
pub fn push_all(r: &mut Vec<u8>, more: &Vec<u8>)
    ensures
        final(r)@ == old(r)@ + more@,
{
    let mut i: usize = 0;
    while i < more.len()
        invariant
            i <= more.len(),
            r@ == old(r)@ + more@.take(i as int),
        decreases more.len() - i,
    {
        r.push(more[i]);
        assert(more@.take(i as int).push(more@[i as int]) == more@.take(i + 1));
        i += 1;
    }
    assert(more@.take(i as int) == more@);
}

/// Appends the closing frame of the given width, made of the given byte.
pub fn push_closing(r: &mut Vec<u8>, width: usize, byte: u8)
    ensures
        final(r)@ == old(r)@ + Seq::new(width as nat, |i: int| byte),
{
    let mut i: usize = 0;
    while i < width
        invariant
            i <= width,
            r@ == old(r)@ + Seq::new(i as nat, |j: int| byte),
        decreases width - i,
    {
        r.push(byte);
        assert(Seq::new(i as nat, |j: int| byte).push(byte) =~= Seq::new((i + 1) as nat, |j: int| byte));
        i += 1;
    }
}

/// Appends a run of values as written.
pub fn push_vector<T: Vectorizable + Copy>(r: &mut Vec<u8>, v: &Vec<T>)
    ensures
        final(r)@ == old(r)@ + vector_binary(v@),
{
    let mut i: usize = 0;
    assert(frames(v@.take(0)) == Seq::<u8>::empty());
    while i < v.len()
        invariant
            i <= v.len(),
            r@ == old(r)@ + frames(v@.take(i as int)),
        decreases v.len() - i,
    {
        let frame = v[i].to_binary_in_vec();
        push_all(r, &frame);
        proof {
            let next = v@.take(i + 1);
            assert(next.drop_last() == v@.take(i as int));
            assert(next.last() == v@[i as int]);
            assert(frames(next) == frames(next.drop_last()) + next.last().frame());
        }
        i += 1;
    }
    assert(v@.take(i as int) == v@);
    push_closing(r, T::frame_width(), 0xfe);
}

/// Writes a run of values.
pub fn vector_to_binary<T: Vectorizable + Copy>(v: &Vec<T>) -> (r: Vec<u8>)
    ensures
        r@ == vector_binary(v@),
{
    let mut r: Vec<u8> = Vec::new();
    push_vector(&mut r, v);
    r
}

/// What each of the runs holds.
pub open spec fn run_views<T>(v: Seq<Vec<T>>) -> Seq<Seq<T>> {
    v.map_values(|run: Vec<T>| run@)
}

/// Appends a run of runs as written.
pub fn push_vectors<T: Vectorizable + Copy>(r: &mut Vec<u8>, v: &Vec<Vec<T>>)
    ensures
        final(r)@ == old(r)@ + vectors_binary(run_views(v@)),
{
    let ghost all = run_views(v@);
    let mut i: usize = 0;
    assert(runs(all.take(0)) == Seq::<u8>::empty());
    while i < v.len()
        invariant
            i <= v.len(),
            all == run_views(v@),
            r@ == old(r)@ + runs(all.take(i as int)),
        decreases v.len() - i,
    {
        push_vector(r, &v[i]);
        proof {
            let next = all.take(i + 1);
            assert(next.drop_last() == all.take(i as int));
            assert(next.last() == v@[i as int]@);
            assert(runs(next) == runs(next.drop_last()) + vector_binary(next.last()));
        }
        i += 1;
    }
    assert(all.take(i as int) == all);
    push_closing(r, T::frame_width(), 0xff);
}

/// Writes a run of runs.
pub fn vectors_to_binary<T: Vectorizable + Copy>(v: &Vec<Vec<T>>) -> (r: Vec<u8>)
    ensures
        r@ == vectors_binary(run_views(v@)),
{
    let mut r: Vec<u8> = Vec::new();
    push_vectors(&mut r, v);
    r
}

/// A copy of the bytes from `from` up to `to`.
pub fn bytes_of(source: &Vec<u8>, from: usize, to: usize) -> (r: Vec<u8>)
    requires
        from <= to <= source@.len(),
    ensures
        r@ == source@.subrange(from as int, to as int),
{
    let mut r: Vec<u8> = Vec::new();
    let mut i: usize = from;
    while i < to
        invariant
            from <= i <= to <= source@.len(),
            r@ == source@.subrange(from as int, i as int),
        decreases to - i,
    {
        r.push(source[i]);
        assert(source@.subrange(from as int, i as int).push(source@[i as int]) == source@.subrange(
            from as int,
            i + 1,
        ));
        i += 1;
    }
    r
}

/// Whether every byte of the frame is `byte`.
pub fn is_closing(frame: &Vec<u8>, byte: u8) -> (r: bool)
    ensures
        r == (frame@ == Seq::new(frame@.len(), |i: int| byte)),
{
    let mut i: usize = 0;
    while i < frame.len()
        invariant
            i <= frame.len(),
            forall|j: int| 0 <= j < i ==> frame@[j] == byte,
        decreases frame.len() - i,
    {
        if frame[i] != byte {
            assert(Seq::new(frame@.len(), |k: int| byte)[i as int] == byte);
            return false;
        }
        i += 1;
    }
    assert(frame@ =~= Seq::new(frame@.len(), |i: int| byte));
    true
}

/// Reads a run of values.
pub fn vector_from_binary<T: Vectorizable>(source: &Vec<u8>, at: usize) -> (r: Option<
    (Vec<T>, usize),
>)
    ensures
        match r {
            Some((v, next)) => read_vector::<T>(source@, at as int) == Some((v@, next as int)) && at
                <= next <= source@.len(),
            None => read_vector::<T>(source@, at as int) is None,
        },
{
    let w = T::frame_width();
    let total = source.len();
    let mut v: Vec<T> = Vec::new();
    let mut place: usize = at;
    assert(after(v@, read_vector::<T>(source@, at as int)) == read_vector::<T>(source@, at as int))
        by {
        match read_vector::<T>(source@, at as int) {
            Some((tail, next)) => {
                assert(v@ + tail =~= tail);
            },
            None => {},
        }
    }
    loop
        invariant
            w == T::width(),
            w > 0,
            total == source@.len(),
            at <= place,
            read_vector::<T>(source@, at as int) == after(v@, read_vector::<T>(source@, place as int)),
        decreases total + 1 - place,
    {
        if place > total || total - place < w {
            return None;
        }
        let frame = bytes_of(source, place, place + w);
        if is_closing(&frame, 0xfe) {
            assert(v@ + Seq::<T>::empty() =~= v@);
            return Some((v, place + w));
        }
        match T::from_binary_in_vec(&frame) {
            None => {
                return None;
            },
            Some(x) => {
                proof {
                    let rest = read_vector::<T>(source@, place + w);
                    match rest {
                        Some((tail, next)) => {
                            assert(v@ + (seq![x] + tail) =~= v@.push(x) + tail);
                        },
                        None => {},
                    }
                }
                v.push(x);
                place = place + w;
            },
        }
    }
}

/// Reads a run of runs.
pub fn vectors_from_binary<T: Vectorizable>(source: &Vec<u8>, at: usize) -> (r: Option<
    (Vec<Vec<T>>, usize),
>)
    ensures
        match r {
            Some((v, next)) => read_vectors::<T>(source@, at as int, Seq::empty()) == Some(
                (run_views(v@), next as int),
            ) && at <= next <= source@.len(),
            None => read_vectors::<T>(source@, at as int, Seq::empty()) is None,
        },
{
    let w = T::frame_width();
    let total = source.len();
    let mut done: Vec<Vec<T>> = Vec::new();
    let mut current: Vec<T> = Vec::new();
    let mut place: usize = at;
    let ghost whole = read_vectors::<T>(source@, at as int, Seq::empty());
    assert(after_runs(run_views(done@), read_vectors::<T>(source@, at as int, current@)) == whole)
        by {
        match whole {
            Some((tail, next)) => {
                assert(run_views(done@) + tail =~= tail);
            },
            None => {},
        }
    }
    loop
        invariant
            w == T::width(),
            w > 0,
            total == source@.len(),
            at <= place,
            whole == read_vectors::<T>(source@, at as int, Seq::empty()),
            whole == after_runs(
                run_views(done@),
                read_vectors::<T>(source@, place as int, current@),
            ),
        decreases total + 1 - place,
    {
        if place > total || total - place < w {
            return None;
        }
        let frame = bytes_of(source, place, place + w);
        if is_closing(&frame, 0xfe) {
            proof {
                let rest = read_vectors::<T>(source@, place + w, Seq::empty());
                match rest {
                    Some((tail, next)) => {
                        assert(run_views(done@) + (seq![current@] + tail) =~= run_views(done@).push(
                            current@,
                        ) + tail);
                    },
                    None => {},
                }
                assert(run_views(done@.push(current)) =~= run_views(done@).push(current@));
            }
            done.push(current);
            current = Vec::new();
            place = place + w;
        } else if is_closing(&frame, 0xff) {
            assert(run_views(done@) + Seq::<Seq<T>>::empty() =~= run_views(done@));
            return Some((done, place + w));
        } else {
            match T::from_binary_in_vec(&frame) {
                None => {
                    return None;
                },
                Some(x) => {
                    current.push(x);
                    place = place + w;
                },
            }
        }
    }
}

impl BinaryConvert for u8 {
    open spec fn binary_of(model: u8) -> Seq<u8> {
        seq![model]
    }

    open spec fn read(source: Seq<u8>, at: int) -> Option<(u8, int)> {
        if 0 <= at < source.len() {
            Some((source[at], at + 1))
        } else {
            None
        }
    }

    open spec fn read_with(source: Seq<u8>, at: int, table: Seq<SyntaxModel>) -> Option<(u8, int)> {
        Self::read(source, at)
    }

    fn to_binary(self) -> (r: Vec<u8>) {
        let mut r: Vec<u8> = Vec::new();
        r.push(self);
        r
    }

    fn from_binary(source: &Vec<u8>, at: usize) -> (r: Option<(u8, usize)>) {
        if at < source.len() {
            Some((source[at], at + 1))
        } else {
            None
        }
    }

    fn from_binary_syntaxes(source: &Vec<u8>, at: usize, syntaxes: &Vec<Syntax>) -> (r: Option<
        (u8, usize),
    >) {
        Self::from_binary(source, at)
    }
}

/// The number that stands at a place: four bytes, the lowest first.
pub open spec fn read_number(source: Seq<u8>, at: int) -> Option<(usize, int)> {
    if 0 <= at && at + 4 <= source.len() {
        Some((le32_value(source.subrange(at, at + 4)) as usize, at + 4))
    } else {
        None
    }
}

impl BinaryConvert for usize {
    open spec fn binary_of(model: usize) -> Seq<u8> {
        le32(low32(model))
    }

    open spec fn read(source: Seq<u8>, at: int) -> Option<(usize, int)> {
        read_number(source, at)
    }

    open spec fn read_with(source: Seq<u8>, at: int, table: Seq<SyntaxModel>) -> Option<
        (usize, int),
    > {
        read_number(source, at)
    }

    fn to_binary(self) -> (r: Vec<u8>) {
        let mut r: Vec<u8> = Vec::new();
        push_le32(&mut r, self);
        r
    }

    fn from_binary(source: &Vec<u8>, at: usize) -> (r: Option<(usize, usize)>) {
        let total = source.len();
        if at > total || total - at < 4 {
            None
        } else {
            Some((read_le32(source, at) as usize, at + 4))
        }
    }

    fn from_binary_syntaxes(source: &Vec<u8>, at: usize, syntaxes: &Vec<Syntax>) -> (r: Option<
        (usize, usize),
    >) {
        Self::from_binary(source, at)
    }
}

/// The place of the first zero byte at or after `at`, or the end.
pub open spec fn name_end(source: Seq<u8>, at: int) -> int
    decreases source.len() - at,
{
    if at < 0 || at >= source.len() {
        source.len() as int
    } else if source[at] == 0 {
        at
    } else {
        name_end(source, at + 1)
    }
}

/// A name as written: its characters in UTF-8, then a zero byte.
pub open spec fn name_binary(name: Seq<char>) -> Seq<u8> {
    encode_utf8(name).push(0)
}

/// The name that stands at a place: the bytes up to the next zero byte, or up
/// to the end if no zero byte follows, read as UTF-8. The place after it is
/// the place after that zero byte.
pub open spec fn read_name(source: Seq<u8>, at: int) -> Option<(Seq<char>, int)> {
    if 0 <= at <= source.len() {
        let end = name_end(source, at);
        let bytes = source.subrange(at, end);
        if valid_utf8(bytes) {
            Some(
                (
                    decode_utf8(bytes),
                    if end < source.len() {
                        end + 1
                    } else {
                        end
                    },
                ),
            )
        } else {
            None
        }
    } else {
        None
    }
}

/// The string that the bytes hold, as `String::from_utf8` gives it: there is
/// one if and only if the bytes are valid UTF-8, and its characters are those
/// that the bytes encode.
#[verifier::external_body]
fn string_from_utf8(bytes: Vec<u8>) -> (r: Option<String>)
    ensures
        match r {
            Some(s) => valid_utf8(bytes@) && s@ == decode_utf8(bytes@),
            None => !valid_utf8(bytes@),
        },
{
    String::from_utf8(bytes).ok()
}

/// Finds the end of the name that starts at `at`.
pub fn find_name_end(source: &Vec<u8>, at: usize) -> (end: usize)
    requires
        at <= source@.len(),
    ensures
        at <= end <= source@.len(),
        end == name_end(source@, at as int),
{
    let mut end: usize = at;
    while end < source.len() && source[end] != 0
        invariant
            at <= end <= source@.len(),
            name_end(source@, at as int) == name_end(source@, end as int),
        decreases source@.len() - end,
    {
        assert(name_end(source@, end as int) == name_end(source@, end + 1));
        end += 1;
    }
    end
}

/// Appends a name as written.
pub fn push_name(r: &mut Vec<u8>, name: &String)
    ensures
        final(r)@ == old(r)@ + name_binary(name@),
{
    let bytes = name.as_str().as_bytes_vec();
    push_all(r, &bytes);
    r.push(0);
    assert(r@ =~= old(r)@ + name_binary(name@));
}

impl BinaryConvert for String {
    open spec fn binary_of(model: Seq<char>) -> Seq<u8> {
        name_binary(model)
    }

    open spec fn read(source: Seq<u8>, at: int) -> Option<(Seq<char>, int)> {
        read_name(source, at)
    }

    open spec fn read_with(source: Seq<u8>, at: int, table: Seq<SyntaxModel>) -> Option<
        (Seq<char>, int),
    > {
        read_name(source, at)
    }

    fn to_binary(self) -> (r: Vec<u8>) {
        let mut r: Vec<u8> = Vec::new();
        push_name(&mut r, &self);
        r
    }

    fn from_binary(source: &Vec<u8>, at: usize) -> (r: Option<(String, usize)>) {
        if at > source.len() {
            return None;
        }
        let end = find_name_end(source, at);
        let next = if end < source.len() {
            end + 1
        } else {
            end
        };
        match string_from_utf8(bytes_of(source, at, end)) {
            Some(name) => Some((name, next)),
            None => None,
        }
    }

    fn from_binary_syntaxes(source: &Vec<u8>, at: usize, syntaxes: &Vec<Syntax>) -> (r: Option<
        (String, usize),
    >) {
        Self::from_binary(source, at)
    }
}

/// The byte that stands for the kind of a rule.
pub open spec fn kind_byte(kind: SyntaxType) -> u8 {
    match kind {
        SyntaxType::Formula => 0,
        SyntaxType::Object => 1,
    }
}

/// A syntax rule as written: its kind, its two arities, and its pattern.
pub open spec fn syntax_binary(rule: SyntaxModel) -> Seq<u8> {
    seq![kind_byte(rule.syntax_type)] + le32(low32(rule.distinct_wff_count)) + le32(
        low32(rule.distinct_object_count),
    ) + vector_binary(rule.formula)
}

/// The syntax rule that stands at a place.
pub open spec fn read_syntax(source: Seq<u8>, at: int) -> Option<(SyntaxModel, int)> {
    if 0 <= at < source.len() && source[at] <= 1 {
        match read_number(source, at + 1) {
            None => None,
            Some((wffs, a2)) => match read_number(source, a2) {
                None => None,
                Some((objects, a3)) => match read_vector::<Placeholder>(source, a3) {
                    None => None,
                    Some((formula, a4)) => Some(
                        (
                            SyntaxModel {
                                syntax_type: if source[at] == 0 {
                                    SyntaxType::Formula
                                } else {
                                    SyntaxType::Object
                                },
                                formula,
                                distinct_wff_count: wffs,
                                distinct_object_count: objects,
                            },
                            a4,
                        ),
                    ),
                },
            },
        }
    } else {
        None
    }
}

/// Appends a syntax rule as written.
pub fn push_syntax(r: &mut Vec<u8>, rule: &Syntax)
    ensures
        final(r)@ == old(r)@ + syntax_binary(rule@),
{
    r.push(
        match rule.syntax_type {
            SyntaxType::Formula => 0,
            SyntaxType::Object => 1,
        },
    );
    push_le32(r, rule.distinct_wff_count);
    push_le32(r, rule.distinct_object_count);
    push_vector(r, &rule.formula);
    assert(r@ =~= old(r)@ + syntax_binary(rule@));
}

impl BinaryConvert for Syntax {
    open spec fn binary_of(model: SyntaxModel) -> Seq<u8> {
        syntax_binary(model)
    }

    open spec fn read(source: Seq<u8>, at: int) -> Option<(SyntaxModel, int)> {
        read_syntax(source, at)
    }

    open spec fn read_with(source: Seq<u8>, at: int, table: Seq<SyntaxModel>) -> Option<
        (SyntaxModel, int),
    > {
        read_syntax(source, at)
    }

    fn to_binary(self) -> (r: Vec<u8>) {
        let mut r: Vec<u8> = Vec::new();
        push_syntax(&mut r, &self);
        r
    }

    fn from_binary(source: &Vec<u8>, at: usize) -> (r: Option<(Syntax, usize)>) {
        if at >= source.len() {
            return None;
        }
        let syntax_type = if source[at] == 0 {
            SyntaxType::Formula
        } else if source[at] == 1 {
            SyntaxType::Object
        } else {
            return None;
        };
        let (distinct_wff_count, a2) = match usize::from_binary(source, at + 1) {
            Some(read) => read,
            None => {
                return None;
            },
        };
        let (distinct_object_count, a3) = match usize::from_binary(source, a2) {
            Some(read) => read,
            None => {
                return None;
            },
        };
        let (formula, a4) = match vector_from_binary::<Placeholder>(source, a3) {
            Some(read) => read,
            None => {
                return None;
            },
        };
        Some((Syntax { syntax_type, formula, distinct_wff_count, distinct_object_count }, a4))
    }

    fn from_binary_syntaxes(source: &Vec<u8>, at: usize, syntaxes: &Vec<Syntax>) -> (r: Option<
        (Syntax, usize),
    >) {
        Self::from_binary(source, at)
    }
}

/// The postfix forms of a run of trees.
pub open spec fn rpn_rows(ts: Seq<Term>) -> Seq<Seq<RpnBlock>> {
    ts.map_values(|t: Term| rpn_of(t))
}

/// The trees that the runs of blocks write, if each run writes one.
pub open spec fn decode_all(blocks: Seq<Seq<RpnBlock>>, table: Seq<SyntaxModel>) -> Option<Seq<Term>> {
    if forall|i: int| 0 <= i < blocks.len() ==> decode(#[trigger] blocks[i], table) is Some {
        Some(blocks.map_values(|b: Seq<RpnBlock>| decode(b, table)->0))
    } else {
        None
    }
}

/// Writes a run of formulas in postfix order, each in a run of its own.
pub fn formulas_to_rpn(formulas: &Vec<WellFormedFormula>) -> (r: Vec<Vec<RpnBlock>>)
    ensures
        run_views(r@) == rpn_rows(formula_terms(formulas@)),
{
    let mut r: Vec<Vec<RpnBlock>> = Vec::new();
    let mut i: usize = 0;
    while i < formulas.len()
        invariant
            i <= formulas.len(),
            r@.len() == i,
            forall|j: int| 0 <= j < i ==> (#[trigger] r@[j])@ == rpn_of(formulas@[j]@),
        decreases formulas.len() - i,
    {
        let mut blocks: Vec<RpnBlock> = Vec::new();
        __wff_to_rpn(&formulas[i], &mut blocks);
        assert(Seq::<RpnBlock>::empty() + rpn_of(formulas@[i as int]@) =~= rpn_of(
            formulas@[i as int]@,
        ));
        r.push(blocks);
        i += 1;
    }
    assert(run_views(r@) =~= rpn_rows(formula_terms(formulas@)));
    r
}

/// Reads the formulas that runs of blocks write; nothing if one of the runs
/// writes none.
pub fn formulas_from_rpn(blocks: &Vec<Vec<RpnBlock>>, syntaxes: &Vec<Syntax>) -> (r: Option<
    Vec<WellFormedFormula>,
>)
    ensures
        match r {
            Some(formulas) => decode_all(run_views(blocks@), rules(syntaxes@)) == Some(
                formula_terms(formulas@),
            ),
            None => decode_all(run_views(blocks@), rules(syntaxes@)) is None,
        },
{
    let ghost all = run_views(blocks@);
    let ghost table = rules(syntaxes@);
    let mut formulas: Vec<WellFormedFormula> = Vec::new();
    let mut i: usize = 0;
    while i < blocks.len()
        invariant
            i <= blocks.len(),
            all == run_views(blocks@),
            table == rules(syntaxes@),
            formulas@.len() == i,
            forall|j: int| 0 <= j < i ==> decode(all[j], table) == Some((#[trigger] formulas@[j])@),
        decreases blocks.len() - i,
    {
        match read_rpn(&blocks[i], syntaxes) {
            Some(wff) => {
                formulas.push(wff);
            },
            None => {
                assert(decode(all[i as int], table) is None);
                return None;
            },
        }
        i += 1;
    }
    assert forall|j: int| 0 <= j < all.len() implies decode(#[trigger] all[j], table) is Some by {
        assert(decode(all[j], table) == Some(formulas@[j]@));
    }
    assert(all.map_values(|b: Seq<RpnBlock>| decode(b, table)->0) =~= formula_terms(formulas@));
    Some(formulas)
}

/// A definition as written: its name, its two counts, and its formula in
/// postfix order.
pub open spec fn definition_binary(d: DefinitionModel) -> Seq<u8> {
    name_binary(d.name) + le32(low32(d.distinct_wff_count)) + le32(low32(d.distinct_object_count))
        + vector_binary(rpn_of(d.definition))
}

/// The definition that stands at a place, read with the syntax table.
pub open spec fn read_definition(source: Seq<u8>, at: int, table: Seq<SyntaxModel>) -> Option<
    (DefinitionModel, int),
> {
    match read_name(source, at) {
        None => None,
        Some((name, a1)) => match read_number(source, a1) {
            None => None,
            Some((wffs, a2)) => match read_number(source, a2) {
                None => None,
                Some((objects, a3)) => match read_vector::<RpnBlock>(source, a3) {
                    None => None,
                    Some((blocks, a4)) => match decode(blocks, table) {
                        None => None,
                        Some(definition) => Some(
                            (
                                DefinitionModel {
                                    name,
                                    definition,
                                    distinct_wff_count: wffs,
                                    distinct_object_count: objects,
                                },
                                a4,
                            ),
                        ),
                    },
                },
            },
        },
    }
}

/// Appends a definition as written.
pub fn push_definition(r: &mut Vec<u8>, d: &Definition)
    ensures
        final(r)@ == old(r)@ + definition_binary(d@),
{
    let mut blocks: Vec<RpnBlock> = Vec::new();
    __wff_to_rpn(&d.definition, &mut blocks);
    assert(blocks@ =~= rpn_of(d.definition@));
    push_name(r, &d.name);
    push_le32(r, d.distinct_wff_count);
    push_le32(r, d.distinct_object_count);
    push_vector(r, &blocks);
    assert(r@ =~= old(r)@ + definition_binary(d@));
}

impl BinaryConvert for Definition {
    open spec fn binary_of(model: DefinitionModel) -> Seq<u8> {
        definition_binary(model)
    }

    open spec fn read(source: Seq<u8>, at: int) -> Option<(DefinitionModel, int)> {
        None
    }

    open spec fn read_with(source: Seq<u8>, at: int, table: Seq<SyntaxModel>) -> Option<
        (DefinitionModel, int),
    > {
        read_definition(source, at, table)
    }

    fn to_binary(self) -> (r: Vec<u8>) {
        let mut r: Vec<u8> = Vec::new();
        push_definition(&mut r, &self);
        r
    }

    fn from_binary(source: &Vec<u8>, at: usize) -> (r: Option<(Definition, usize)>) {
        None
    }

    fn from_binary_syntaxes(source: &Vec<u8>, at: usize, syntaxes: &Vec<Syntax>) -> (r: Option<
        (Definition, usize),
    >) {
        let (name, a1) = match String::from_binary(source, at) {
            Some(read) => read,
            None => {
                return None;
            },
        };
        let (distinct_wff_count, a2) = match usize::from_binary(source, a1) {
            Some(read) => read,
            None => {
                return None;
            },
        };
        let (distinct_object_count, a3) = match usize::from_binary(source, a2) {
            Some(read) => read,
            None => {
                return None;
            },
        };
        let (blocks, a4) = match vector_from_binary::<RpnBlock>(source, a3) {
            Some(read) => read,
            None => {
                return None;
            },
        };
        let definition = match read_rpn(&blocks, syntaxes) {
            Some(wff) => wff,
            None => {
                return None;
            },
        };
        Some((Definition { name, definition, distinct_wff_count, distinct_object_count }, a4))
    }
}

/// An axiom as written: its name, its two counts, its hypotheses and its
/// assertions, each formula in postfix order in a run of its own.
pub open spec fn axiom_binary(a: AxiomModel) -> Seq<u8> {
    name_binary(a.name) + le32(low32(a.distinct_wff_count)) + le32(low32(a.distinct_object_count))
        + vectors_binary(rpn_rows(a.hypotheses)) + vectors_binary(rpn_rows(a.assertions))
}

/// The axiom that stands at a place, read with the syntax table.
pub open spec fn read_axiom(source: Seq<u8>, at: int, table: Seq<SyntaxModel>) -> Option<
    (AxiomModel, int),
> {
    match read_name(source, at) {
        None => None,
        Some((name, a1)) => match read_number(source, a1) {
            None => None,
            Some((wffs, a2)) => match read_number(source, a2) {
                None => None,
                Some((objects, a3)) => match read_vectors::<RpnBlock>(source, a3, Seq::empty()) {
                    None => None,
                    Some((hypotheses, a4)) => match read_vectors::<RpnBlock>(
                        source,
                        a4,
                        Seq::empty(),
                    ) {
                        None => None,
                        Some((assertions, a5)) => match (
                            decode_all(hypotheses, table),
                            decode_all(assertions, table),
                        ) {
                            (Some(hs), Some(ts)) => Some(
                                (
                                    AxiomModel {
                                        name,
                                        hypotheses: hs,
                                        assertions: ts,
                                        distinct_wff_count: wffs,
                                        distinct_object_count: objects,
                                    },
                                    a5,
                                ),
                            ),
                            _ => None,
                        },
                    },
                },
            },
        },
    }
}

/// Appends an axiom as written.
pub fn push_axiom(r: &mut Vec<u8>, a: &Axiom)
    ensures
        final(r)@ == old(r)@ + axiom_binary(a@),
{
    let hypotheses = formulas_to_rpn(&a.hypotheses);
    let assertions = formulas_to_rpn(&a.assertions);
    push_name(r, &a.name);
    push_le32(r, a.distinct_wff_count);
    push_le32(r, a.distinct_object_count);
    push_vectors(r, &hypotheses);
    push_vectors(r, &assertions);
    assert(r@ =~= old(r)@ + axiom_binary(a@));
}

impl BinaryConvert for Axiom {
    open spec fn binary_of(model: AxiomModel) -> Seq<u8> {
        axiom_binary(model)
    }

    open spec fn read(source: Seq<u8>, at: int) -> Option<(AxiomModel, int)> {
        None
    }

    open spec fn read_with(source: Seq<u8>, at: int, table: Seq<SyntaxModel>) -> Option<
        (AxiomModel, int),
    > {
        read_axiom(source, at, table)
    }

    fn to_binary(self) -> (r: Vec<u8>) {
        let mut r: Vec<u8> = Vec::new();
        push_axiom(&mut r, &self);
        r
    }

    fn from_binary(source: &Vec<u8>, at: usize) -> (r: Option<(Axiom, usize)>) {
        None
    }

    fn from_binary_syntaxes(source: &Vec<u8>, at: usize, syntaxes: &Vec<Syntax>) -> (r: Option<
        (Axiom, usize),
    >) {
        let (name, a1) = match String::from_binary(source, at) {
            Some(read) => read,
            None => {
                return None;
            },
        };
        let (distinct_wff_count, a2) = match usize::from_binary(source, a1) {
            Some(read) => read,
            None => {
                return None;
            },
        };
        let (distinct_object_count, a3) = match usize::from_binary(source, a2) {
            Some(read) => read,
            None => {
                return None;
            },
        };
        let (hypotheses_rpn, a4) = match vectors_from_binary::<RpnBlock>(source, a3) {
            Some(read) => read,
            None => {
                return None;
            },
        };
        let (assertions_rpn, a5) = match vectors_from_binary::<RpnBlock>(source, a4) {
            Some(read) => read,
            None => {
                return None;
            },
        };
        let hypotheses = match formulas_from_rpn(&hypotheses_rpn, syntaxes) {
            Some(formulas) => formulas,
            None => {
                return None;
            },
        };
        let assertions = match formulas_from_rpn(&assertions_rpn, syntaxes) {
            Some(formulas) => formulas,
            None => {
                return None;
            },
        };
        Some((Axiom { name, hypotheses, assertions, distinct_wff_count, distinct_object_count }, a5))
    }
}

/// The steps used by each step of a proof.
pub open spec fn used_rows(steps: Seq<StepModel>) -> Seq<Seq<usize>> {
    steps.map_values(|s: StepModel| s.used)
}

/// What each step of a proof cites.
pub open spec fn cited_row(steps: Seq<StepModel>) -> Seq<Reference> {
    steps.map_values(|s: StepModel| s.cited)
}

/// The formula of each step of a proof.
pub open spec fn result_row(steps: Seq<StepModel>) -> Seq<Term> {
    steps.map_values(|s: StepModel| s.result)
}

/// A copy of a run of numbers.
pub fn copy_numbers(v: &Vec<usize>) -> (r: Vec<usize>)
    ensures
        r@ == v@,
{
    let mut r: Vec<usize> = Vec::new();
    let mut i: usize = 0;
    while i < v.len()
        invariant
            i <= v.len(),
            r@ == v@.take(i as int),
        decreases v.len() - i,
    {
        r.push(v[i]);
        assert(v@.take(i as int).push(v@[i as int]) == v@.take(i + 1));
        i += 1;
    }
    assert(v@.take(i as int) == v@);
    r
}

/// The three rows that a proof is written as: what each step uses, what each
/// step cites, and the formula of each step in postfix order.
pub fn transpose_steps(proof: &Vec<LogicStep>) -> (r: (Vec<Vec<usize>>, Vec<Reference>, Vec<Vec<RpnBlock>>))
    ensures
        run_views(r.0@) == used_rows(step_views(proof@)),
        r.1@ == cited_row(step_views(proof@)),
        run_views(r.2@) == rpn_rows(result_row(step_views(proof@))),
{
    let mut hyps: Vec<Vec<usize>> = Vec::new();
    let mut refs: Vec<Reference> = Vec::new();
    let mut formulas: Vec<Vec<RpnBlock>> = Vec::new();
    let mut i: usize = 0;
    while i < proof.len()
        invariant
            i <= proof.len(),
            hyps@.len() == i,
            refs@.len() == i,
            formulas@.len() == i,
            forall|j: int| 0 <= j < i ==> (#[trigger] hyps@[j])@ == proof@[j].used_hypotheses@,
            forall|j: int| 0 <= j < i ==> #[trigger] refs@[j] == proof@[j].theorem_ref,
            forall|j: int|
                0 <= j < i ==> (#[trigger] formulas@[j])@ == rpn_of(proof@[j].resulting_formula@),
        decreases proof.len() - i,
    {
        hyps.push(copy_numbers(&proof[i].used_hypotheses));
        refs.push(proof[i].theorem_ref);
        let mut blocks: Vec<RpnBlock> = Vec::new();
        __wff_to_rpn(&proof[i].resulting_formula, &mut blocks);
        assert(Seq::<RpnBlock>::empty() + rpn_of(proof@[i as int].resulting_formula@) =~= rpn_of(
            proof@[i as int].resulting_formula@,
        ));
        formulas.push(blocks);
        i += 1;
    }
    assert(run_views(hyps@) =~= used_rows(step_views(proof@)));
    assert(refs@ =~= cited_row(step_views(proof@)));
    assert(run_views(formulas@) =~= rpn_rows(result_row(step_views(proof@))));
    (hyps, refs, formulas)
}

/// The steps that three rows of equal length give, if each run of blocks
/// writes a formula.
pub open spec fn steps_of(
    used: Seq<Seq<usize>>,
    cited: Seq<Reference>,
    blocks: Seq<Seq<RpnBlock>>,
    table: Seq<SyntaxModel>,
) -> Option<Seq<StepModel>> {
    if used.len() == cited.len() && cited.len() == blocks.len() {
        match decode_all(blocks, table) {
            None => None,
            Some(results) => Some(
                Seq::new(
                    used.len(),
                    |i: int| StepModel { used: used[i], cited: cited[i], result: results[i] },
                ),
            ),
        }
    } else {
        None
    }
}

/// The steps that three rows give: what each step uses, what each step
/// cites, and the formula of each step in postfix order. The rows must be of
/// one length, and each run of blocks must write a formula.
pub fn transpose_3vec(
    hyps: &Vec<Vec<usize>>,
    refs: &Vec<Reference>,
    formulas: &Vec<Vec<RpnBlock>>,
    syntaxes: &Vec<Syntax>,
) -> (r: Option<Vec<LogicStep>>)
    ensures
        match r {
            Some(steps) => steps_of(run_views(hyps@), refs@, run_views(formulas@), rules(syntaxes@))
                == Some(step_views(steps@)),
            None => steps_of(run_views(hyps@), refs@, run_views(formulas@), rules(syntaxes@))
                is None,
        },
{
    if hyps.len() != refs.len() || refs.len() != formulas.len() {
        return None;
    }
    let mut results = match formulas_from_rpn(formulas, syntaxes) {
        Some(results) => results,
        None => {
            return None;
        },
    };
    let ghost terms = formula_terms(results@);
    let n = hyps.len();
    assert(terms.len() == n);
    assert(terms.take(n as int) == terms);
    let mut backwards: Vec<LogicStep> = Vec::new();
    let mut i: usize = n;
    while i > 0
        invariant
            i <= n,
            n == hyps@.len(),
            n == refs@.len(),
            terms.len() == n,
            results@.len() == i,
            formula_terms(results@) == terms.take(i as int),
            backwards@.len() == n - i,
            forall|j: int|
                0 <= j < n - i ==> (#[trigger] backwards@[j])@ == (StepModel {
                    used: hyps@[n - 1 - j]@,
                    cited: refs@[n - 1 - j],
                    result: terms[n - 1 - j],
                }),
        decreases i,
    {
        let ghost before = results@;
        let resulting_formula = match results.pop() {
            Some(wff) => wff,
            None => {
                return None;
            },
        };
        assert(resulting_formula@ == formula_terms(before)[i - 1]);
        assert(formula_terms(results@) =~= terms.take(i - 1));
        backwards.push(
            LogicStep {
                used_hypotheses: copy_numbers(&hyps[i - 1]),
                theorem_ref: refs[i - 1],
                resulting_formula,
            },
        );
        i -= 1;
    }
    let mut steps: Vec<LogicStep> = Vec::new();
    let mut k: usize = n;
    while k > 0
        invariant
            k <= n,
            n == hyps@.len(),
            n == refs@.len(),
            terms.len() == n,
            backwards@.len() == k,
            steps@.len() == n - k,
            forall|j: int|
                0 <= j < k ==> (#[trigger] backwards@[j])@ == (StepModel {
                    used: hyps@[n - 1 - j]@,
                    cited: refs@[n - 1 - j],
                    result: terms[n - 1 - j],
                }),
            forall|j: int|
                0 <= j < n - k ==> (#[trigger] steps@[j])@ == (StepModel {
                    used: hyps@[j]@,
                    cited: refs@[j],
                    result: terms[j],
                }),
        decreases k,
    {
        let step = match backwards.pop() {
            Some(step) => step,
            None => {
                return None;
            },
        };
        steps.push(step);
        k -= 1;
    }
    assert(step_views(steps@) =~= Seq::new(
        n as nat,
        |i: int| StepModel { used: run_views(hyps@)[i], cited: refs@[i], result: terms[i] },
    ));
    Some(steps)
}

/// A theorem as written: its name, its two counts, its hypotheses, its
/// assertions, and its proof as three rows.
pub open spec fn theorem_binary(t: TheoremModel) -> Seq<u8> {
    name_binary(t.name) + le32(low32(t.distinct_wff_count)) + le32(low32(t.distinct_object_count))
        + vectors_binary(rpn_rows(t.hypotheses)) + vectors_binary(rpn_rows(t.assertions))
        + vectors_binary(used_rows(t.proof)) + vector_binary(cited_row(t.proof)) + vectors_binary(
        rpn_rows(result_row(t.proof)),
    )
}

/// The three rows of a proof that stand at a place.
pub open spec fn read_rows(source: Seq<u8>, at: int) -> Option<
    (Seq<Seq<usize>>, Seq<Reference>, Seq<Seq<RpnBlock>>, int),
> {
    match read_vectors::<usize>(source, at, Seq::empty()) {
        None => None,
        Some((used, a1)) => match read_vector::<Reference>(source, a1) {
            None => None,
            Some((cited, a2)) => match read_vectors::<RpnBlock>(source, a2, Seq::empty()) {
                None => None,
                Some((blocks, a3)) => Some((used, cited, blocks, a3)),
            },
        },
    }
}

/// The theorem that stands at a place, read with the syntax table.
pub open spec fn read_theorem(source: Seq<u8>, at: int, table: Seq<SyntaxModel>) -> Option<
    (TheoremModel, int),
> {
    match read_axiom_part(source, at) {
        None => None,
        Some((name, wffs, objects, hypotheses, assertions, a5)) => match read_rows(source, a5) {
            None => None,
            Some((used, cited, blocks, a8)) => match (
                decode_all(hypotheses, table),
                decode_all(assertions, table),
                steps_of(used, cited, blocks, table),
            ) {
                (Some(hs), Some(ts), Some(steps)) => Some(
                    (
                        TheoremModel {
                            name,
                            hypotheses: hs,
                            assertions: ts,
                            proof: steps,
                            distinct_wff_count: wffs,
                            distinct_object_count: objects,
                        },
                        a8,
                    ),
                ),
                _ => None,
            },
        },
    }
}

/// What a theorem as written begins with: a name, two counts, and the
/// hypotheses and the assertions in postfix order.
pub open spec fn read_axiom_part(source: Seq<u8>, at: int) -> Option<
    (Seq<char>, usize, usize, Seq<Seq<RpnBlock>>, Seq<Seq<RpnBlock>>, int),
> {
    match read_name(source, at) {
        None => None,
        Some((name, a1)) => match read_number(source, a1) {
            None => None,
            Some((wffs, a2)) => match read_number(source, a2) {
                None => None,
                Some((objects, a3)) => match read_vectors::<RpnBlock>(source, a3, Seq::empty()) {
                    None => None,
                    Some((hypotheses, a4)) => match read_vectors::<RpnBlock>(
                        source,
                        a4,
                        Seq::empty(),
                    ) {
                        None => None,
                        Some((assertions, a5)) => Some(
                            (name, wffs, objects, hypotheses, assertions, a5),
                        ),
                    },
                },
            },
        },
    }
}

/// Appends a theorem as written.
pub fn push_theorem(r: &mut Vec<u8>, t: &Theorem)
    ensures
        final(r)@ == old(r)@ + theorem_binary(t@),
{
    let hypotheses = formulas_to_rpn(&t.hypotheses);
    let assertions = formulas_to_rpn(&t.assertions);
    let (pr_hyps, pr_refs, pr_formulas) = transpose_steps(&t.proof);
    push_name(r, &t.name);
    push_le32(r, t.distinct_wff_count);
    push_le32(r, t.distinct_object_count);
    push_vectors(r, &hypotheses);
    push_vectors(r, &assertions);
    push_vectors(r, &pr_hyps);
    push_vector(r, &pr_refs);
    push_vectors(r, &pr_formulas);
    assert(r@ =~= old(r)@ + theorem_binary(t@));
}

impl BinaryConvert for Theorem {
    open spec fn binary_of(model: TheoremModel) -> Seq<u8> {
        theorem_binary(model)
    }

    open spec fn read(source: Seq<u8>, at: int) -> Option<(TheoremModel, int)> {
        None
    }

    open spec fn read_with(source: Seq<u8>, at: int, table: Seq<SyntaxModel>) -> Option<
        (TheoremModel, int),
    > {
        read_theorem(source, at, table)
    }

    fn to_binary(self) -> (r: Vec<u8>) {
        let mut r: Vec<u8> = Vec::new();
        push_theorem(&mut r, &self);
        r
    }

    fn from_binary(source: &Vec<u8>, at: usize) -> (r: Option<(Theorem, usize)>) {
        None
    }

    fn from_binary_syntaxes(source: &Vec<u8>, at: usize, syntaxes: &Vec<Syntax>) -> (r: Option<
        (Theorem, usize),
    >) {
        let (name, a1) = match String::from_binary(source, at) {
            Some(read) => read,
            None => {
                return None;
            },
        };
        let (distinct_wff_count, a2) = match usize::from_binary(source, a1) {
            Some(read) => read,
            None => {
                return None;
            },
        };
        let (distinct_object_count, a3) = match usize::from_binary(source, a2) {
            Some(read) => read,
            None => {
                return None;
            },
        };
        let (hypotheses_rpn, a4) = match vectors_from_binary::<RpnBlock>(source, a3) {
            Some(read) => read,
            None => {
                return None;
            },
        };
        let (assertions_rpn, a5) = match vectors_from_binary::<RpnBlock>(source, a4) {
            Some(read) => read,
            None => {
                return None;
            },
        };
        let (pr_hyps, a6) = match vectors_from_binary::<usize>(source, a5) {
            Some(read) => read,
            None => {
                return None;
            },
        };
        let (pr_refs, a7) = match vector_from_binary::<Reference>(source, a6) {
            Some(read) => read,
            None => {
                return None;
            },
        };
        let (pr_formulas, a8) = match vectors_from_binary::<RpnBlock>(source, a7) {
            Some(read) => read,
            None => {
                return None;
            },
        };
        let hypotheses = match formulas_from_rpn(&hypotheses_rpn, syntaxes) {
            Some(formulas) => formulas,
            None => {
                return None;
            },
        };
        let assertions = match formulas_from_rpn(&assertions_rpn, syntaxes) {
            Some(formulas) => formulas,
            None => {
                return None;
            },
        };
        let proof = match transpose_3vec(&pr_hyps, &pr_refs, &pr_formulas, syntaxes) {
            Some(steps) => steps,
            None => {
                return None;
            },
        };
        Some(
            (
                Theorem {
                    name,
                    hypotheses,
                    assertions,
                    proof,
                    distinct_wff_count,
                    distinct_object_count,
                },
                a8,
            ),
        )
    }
}

} // verus!
