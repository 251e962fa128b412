//! The lexical layer: from characters to the atoms of a formula.

use vstd::prelude::*;
use crate::parsing::types::{Formula, FormulaChar, ProofLine};
use crate::text::{
    chars_of, find_char, first_index, number_value, parse_number, rows, slice_of, split,
    split_at_char, string_of, trim, trimmed,
};

verus! {

/// The first and the last of the letters that stand for objects: the
/// mathematical italic small letters `a` to `z`.
pub const OBJECT_FIRST: u32 = 0x1D44E;

pub const OBJECT_LAST: u32 = 0x1D467;

/// The first and the last of the letters that stand for formulas: the
/// mathematical italic small letters alpha to omega.
pub const WFF_FIRST: u32 = 0x1D6FC;

pub const WFF_LAST: u32 = 0x1D714;

/// The character that marks a repetition: the horizontal ellipsis.
pub const REPETITION: u32 = 0x2026;

/// The atom that one character gives: none for a space, the repetition marker
/// for the ellipsis, a placeholder whose id is the letter's place in its
/// alphabet for an italic letter, and the character itself otherwise.
pub open spec fn atom_of(c: char) -> Option<FormulaChar> {
    let n = c as u32;
    if c == ' ' {
        None
    } else if n == REPETITION {
        Some(FormulaChar::RepetitionChar)
    } else if OBJECT_FIRST <= n <= OBJECT_LAST {
        Some(FormulaChar::Object((n - OBJECT_FIRST) as usize))
    } else if WFF_FIRST <= n <= WFF_LAST {
        Some(FormulaChar::Wff((n - WFF_FIRST) as usize))
    } else {
        Some(FormulaChar::Char(c))
    }
}

/// The atoms that a run of characters gives, in order.
pub open spec fn atoms_of(s: Seq<char>) -> Seq<FormulaChar>
    decreases s.len(),
{
    if s.len() == 0 {
        Seq::empty()
    } else {
        match atom_of(s.last()) {
            Some(a) => atoms_of(s.drop_last()).push(a),
            None => atoms_of(s.drop_last()),
        }
    }
}

/// The atom that one character gives.
pub fn lex_char(c: char) -> (r: Option<FormulaChar>)
    ensures
        r == atom_of(c),
{
    let n: u32 = c as u32;
    if c == ' ' {
        None
    } else if n == REPETITION {
        Some(FormulaChar::RepetitionChar)
    } else if OBJECT_FIRST <= n && n <= OBJECT_LAST {
        Some(FormulaChar::Object((n - OBJECT_FIRST) as usize))
    } else if WFF_FIRST <= n && n <= WFF_LAST {
        Some(FormulaChar::Wff((n - WFF_FIRST) as usize))
    } else {
        Some(FormulaChar::Char(c))
    }
}

/// The atoms that a run of characters gives.
pub fn lex(v: &Vec<char>) -> (r: Formula)
    ensures
        r@ == atoms_of(v@),
{
    let mut r: Formula = Vec::new();
    let mut i: usize = 0;
    assert(atoms_of(v@.take(0)) == Seq::<FormulaChar>::empty());
    while i < v.len()
        invariant
            i <= v.len(),
            r@ == atoms_of(v@.take(i as int)),
        decreases v.len() - i,
    {
        let ghost next = v@.take(i + 1);
        assert(next.drop_last() == v@.take(i as int));
        assert(atoms_of(next) == match atom_of(next.last()) {
            Some(a) => atoms_of(next.drop_last()).push(a),
            None => atoms_of(next.drop_last()),
        });
        match lex_char(v[i]) {
            Some(a) => r.push(a),
            None => {},
        }
        i += 1;
    }
    assert(v@.take(v.len() as int) == v@);
    r
}

/// Reads a formula: spaces are dropped, and every other character gives one
/// atom. No text is refused.
pub fn parse_formula(fm: &str) -> (r: Formula)
    ensures
        r@ == atoms_of(fm@),
{
    lex(&chars_of(fm))
}

/// What a line `name : formula` holds: the name, trimmed, is what stands
/// before the first colon, and the formula is what follows it. A line without
/// a colon holds nothing.
pub open spec fn named_formula(s: Seq<char>) -> Option<(Seq<char>, Seq<FormulaChar>)> {
    let n = first_index(s, ':');
    if 0 <= n < s.len() {
        Some((trim(s.take(n)), atoms_of(s.skip(n + 1))))
    } else {
        None
    }
}

/// Reads a line `name : formula` from its characters.
pub fn read_named_formula(v: &Vec<char>) -> (r: Result<(String, Formula), ()>)
    ensures
        match r {
            Ok((name, formula)) => named_formula(v@) == Some((name@, formula@)),
            Err(_) => named_formula(v@) is None,
        },
{
    let n = find_char(v, 0, ':');
    assert(v@.skip(0) == v@);
    if n == v.len() {
        return Err(());
    }
    let name = string_of(&trimmed(&slice_of(v, 0, n)));
    let formula = lex(&slice_of(v, n + 1, v.len()));
    assert(v@.subrange(0, n as int) == v@.take(n as int));
    assert(v@.subrange(n + 1, v.len() as int) == v@.skip(n + 1));
    Ok((name, formula))
}

/// Reads a named hypothesis, written `name : formula`.
pub fn parse_named_formula(nfm: &str) -> (r: Result<(String, Formula), ()>)
    ensures
        match r {
            Ok((name, formula)) => named_formula(nfm@) == Some((name@, formula@)),
            Err(_) => named_formula(nfm@) is None,
        },
{
    read_named_formula(&chars_of(nfm))
}

/// The numbers that a list of parts writes, one per part that is not blank;
/// nothing if one of those parts writes no number.
pub open spec fn numbers_of(parts: Seq<Seq<char>>) -> Option<Seq<usize>>
    decreases parts.len(),
{
    if parts.len() == 0 {
        Some(Seq::empty())
    } else {
        match numbers_of(parts.drop_last()) {
            None => None,
            Some(ns) => {
                let t = trim(parts.last());
                if t.len() == 0 {
                    Some(ns)
                } else {
                    match number_value(t) {
                        Some(n) => Some(ns.push(n)),
                        None => None,
                    }
                }
            },
        }
    }
}

/// Reads the numbers of a list whose items are separated by commas.
pub fn read_numbers(v: &Vec<char>) -> (r: Option<Vec<usize>>)
    ensures
        match r {
            Some(ns) => numbers_of(split(v@, ',')) == Some(ns@),
            None => numbers_of(split(v@, ',')) is None,
        },
{
    let parts = split_at_char(v, ',');
    let mut ns: Vec<usize> = Vec::new();
    let mut i: usize = 0;
    assert(numbers_of(rows(parts@).take(0)) == Some(Seq::<usize>::empty()));
    while i < parts.len()
        invariant
            i <= parts.len(),
            rows(parts@) == split(v@, ','),
            numbers_of(rows(parts@).take(i as int)) == Some(ns@),
        decreases parts.len() - i,
    {
        let ghost next = rows(parts@).take(i + 1);
        assert(next.drop_last() == rows(parts@).take(i as int));
        assert(next.last() == parts@[i as int]@);
        assert(numbers_of(next) == match numbers_of(next.drop_last()) {
            None => None,
            Some(ns) => {
                let t = trim(next.last());
                if t.len() == 0 {
                    Some(ns)
                } else {
                    match number_value(t) {
                        Some(n) => Some(ns.push(n)),
                        None => None,
                    }
                }
            },
        });
        let t = trimmed(&parts[i]);
        if t.len() > 0 {
            match parse_number(&t) {
                Some(n) => ns.push(n),
                None => {
                    proof {
                        lemma_numbers_of_fails(rows(parts@), i + 1);
                    }
                    return None;
                },
            }
        }
        i += 1;
    }
    assert(rows(parts@).take(parts.len() as int) == rows(parts@));
    Some(ns)
}

/// Once a part writes no number, no longer list writes numbers.
pub proof fn lemma_numbers_of_fails(parts: Seq<Seq<char>>, n: int)
    requires
        0 <= n <= parts.len(),
        numbers_of(parts.take(n)) is None,
    ensures
        numbers_of(parts) is None,
    decreases parts.len(),
{
    if n < parts.len() {
        assert(parts.drop_last().take(n) == parts.take(n));
        lemma_numbers_of_fails(parts.drop_last(), n);
        assert(numbers_of(parts) is None);
    } else {
        assert(parts.take(n) == parts);
    }
}

/// What a proof line `number ; used, used ; name ; formula` holds. The first
/// three semicolons part the line; the number and the name are trimmed; the
/// used steps are separated by commas, and blank ones are passed over. A line
/// with fewer than three semicolons, or with something that is no number
/// where a number is due, holds nothing.
pub open spec fn proof_line(s: Seq<char>) -> Option<
    (usize, Seq<usize>, Seq<char>, Seq<FormulaChar>),
> {
    let a = first_index(s, ';');
    let s1 = s.skip(a + 1);
    let b = first_index(s1, ';');
    let s2 = s1.skip(b + 1);
    let c = first_index(s2, ';');
    if 0 <= a < s.len() && 0 <= b < s1.len() && 0 <= c < s2.len() {
        match (number_value(trim(s.take(a))), numbers_of(split(s1.take(b), ','))) {
            (Some(n), Some(used)) => Some((n, used, trim(s2.take(c)), atoms_of(s2.skip(c + 1)))),
            _ => None,
        }
    } else {
        None
    }
}

/// Reads a proof line from its characters.
pub fn read_proof_line(v: &Vec<char>) -> (r: Result<ProofLine, ()>)
    ensures
        match r {
            Ok(line) => proof_line(v@) == Some((line.0, line.1@, line.2@, line.3@)),
            Err(_) => proof_line(v@) is None,
        },
{
    let a = find_char(v, 0, ';');
    assert(v@.skip(0) == v@);
    if a == v.len() {
        return Err(());
    }
    let b = find_char(v, a + 1, ';');
    if b == v.len() {
        return Err(());
    }
    let c = find_char(v, b + 1, ';');
    assert(v@.skip(a + 1).skip(b - a) == v@.skip(b + 1));
    if c == v.len() {
        return Err(());
    }
    proof {
        let s1 = v@.skip(a + 1);
        let s2 = s1.skip(b - a);
        assert(v@.subrange(0, a as int) == v@.take(a as int));
        assert(v@.subrange(a + 1, b as int) == s1.take(b - (a + 1)));
        assert(v@.subrange(b + 1, c as int) == s2.take(c - (b + 1)));
        assert(v@.subrange(c + 1, v.len() as int) == s2.skip(c - (b + 1) + 1));
    }
    let number = match parse_number(&trimmed(&slice_of(v, 0, a))) {
        Some(n) => n,
        None => {
            return Err(());
        },
    };
    let used = match read_numbers(&slice_of(v, a + 1, b)) {
        Some(used) => used,
        None => {
            return Err(());
        },
    };
    let name = string_of(&trimmed(&slice_of(v, b + 1, c)));
    let formula = lex(&slice_of(v, c + 1, v.len()));
    Ok((number, used, name, formula))
}

/// Reads a proof line, written `number ; used, used ; name ; formula`.
pub fn parse_proof_line(prline: &str) -> (r: Result<ProofLine, ()>)
    ensures
        match r {
            Ok(line) => proof_line(prline@) == Some((line.0, line.1@, line.2@, line.3@)),
            Err(_) => proof_line(prline@) is None,
        },
{
    read_proof_line(&chars_of(prline))
}

} // verus!
