//! The frames of the values that stand in runs: numbers, pattern elements,
//! postfix blocks and references.

use vstd::prelude::*;
use crate::compiling::types::{Placeholder, Reference};
use crate::serializing::rpn::RpnBlock;
use crate::serializing::traits::Vectorizable;

verus! {

/// The four bytes of a number, the lowest first.
pub open spec fn le32(n: u32) -> Seq<u8> {
    seq![
        (n % 256) as u8,
        (n / 256 % 256) as u8,
        (n / 65536 % 256) as u8,
        (n / 16777216) as u8,
    ]
}

/// The number that four bytes hold, the lowest first.
pub open spec fn le32_value(b: Seq<u8>) -> u32 {
    (b[0] as int + b[1] as int * 256 + b[2] as int * 65536 + b[3] as int * 16777216) as u32
}

/// Four bytes written and read back give the number, and the other way round.
pub proof fn lemma_le32(n: u32, b: Seq<u8>)
    ensures
        le32(n).len() == 4,
        le32_value(le32(n)) == n,
        b.len() == 4 ==> le32(le32_value(b)) == b,
{
    assert((n % 256) + (n / 256 % 256) * 256 + (n / 65536 % 256) * 65536 + (n / 16777216) * 16777216
        == n && n / 16777216 < 256) by (bit_vector);
    if b.len() == 4 {
        let x0 = b[0] as u32;
        let x1 = b[1] as u32;
        let x2 = b[2] as u32;
        let x3 = b[3] as u32;
        let v = (x0 + x1 * 256 + x2 * 65536 + x3 * 16777216) as u32;
        assert(v == le32_value(b));
        assert(v % 256 == x0 && v / 256 % 256 == x1 && v / 65536 % 256 == x2 && v / 16777216 == x3)
            by (bit_vector)
            requires
                x0 < 256,
                x1 < 256,
                x2 < 256,
                x3 < 256,
                v == x0 + x1 * 256 + x2 * 65536 + x3 * 16777216,
        ;
        assert(le32(le32_value(b)) =~= b);
    }
}

/// The number that is written for an id: the id itself if 32 bits hold it,
/// and its lowest 32 bits otherwise.
pub open spec fn low32(n: usize) -> u32 {
    (n as int % 0x1_0000_0000) as u32
}

/// Whether four bytes hold the number in full.
pub open spec fn fits32(n: usize) -> bool {
    n < 0x1_0000_0000
}

/// A frame of five bytes gives back the number that it was made of, if four
/// bytes hold that number in full.
pub proof fn lemma_frame5(tag: u8, n: usize)
    requires
        fits32(n),
    ensures
        frame5(tag, n).len() == 5,
        frame5(tag, n)[0] == tag,
        le32_value(frame5(tag, n).subrange(1, 5)) as usize == n,
{
    lemma_le32(low32(n), Seq::empty());
    assert(frame5(tag, n).subrange(1, 5) =~= le32(low32(n)));
}

/// A frame of nine bytes gives back the two numbers that it was made of, if
/// four bytes hold each of them in full.
pub proof fn lemma_frame9(tag: u8, id: usize, sub: usize)
    requires
        fits32(id),
        fits32(sub),
    ensures
        frame9(tag, id, sub).len() == 9,
        frame9(tag, id, sub)[0] == tag,
        le32_value(frame9(tag, id, sub).subrange(1, 5)) as usize == id,
        le32_value(frame9(tag, id, sub).subrange(5, 9)) as usize == sub,
{
    lemma_le32(low32(id), Seq::empty());
    lemma_le32(low32(sub), Seq::empty());
    assert(frame9(tag, id, sub).subrange(1, 5) =~= le32(low32(id)));
    assert(frame9(tag, id, sub).subrange(5, 9) =~= le32(low32(sub)));
}

/// Writes the four bytes of an id at the end of `r`.
pub fn push_le32(r: &mut Vec<u8>, n: usize)
    ensures
        final(r)@ == old(r)@ + le32(low32(n)),
{
    let low: u64 = n as u64 % 0x1_0000_0000u64;
    r.push((low % 256) as u8);
    r.push((low / 256 % 256) as u8);
    r.push((low / 65536 % 256) as u8);
    r.push((low / 16777216) as u8);
    assert(r@ =~= old(r)@ + le32(low32(n)));
}

/// Reads the number that the four bytes from `at` on hold.
pub fn read_le32(source: &Vec<u8>, at: usize) -> (n: u32)
    requires
        at + 4 <= source@.len(),
    ensures
        n == le32_value(source@.subrange(at as int, at + 4)),
{
    assert(at + 4 <= source.len());
    let b0 = source[at] as u32;
    let b1 = source[at + 1] as u32;
    let b2 = source[at + 2] as u32;
    let b3 = source[at + 3] as u32;
    b0 + b1 * 256 + b2 * 65536 + b3 * 16777216
}

/// A frame of five bytes: a tag and a number.
pub open spec fn frame5(tag: u8, n: usize) -> Seq<u8> {
    seq![tag] + le32(low32(n))
}

/// Writes a frame of five bytes.
pub fn write_frame5(tag: u8, n: usize) -> (r: Vec<u8>)
    ensures
        r@ == frame5(tag, n),
        r@.len() == 5,
{
    let mut r: Vec<u8> = Vec::new();
    r.push(tag);
    push_le32(&mut r, n);
    r
}

/// The character with the given code, as `char::from_u32` gives it: there is
/// one for every code but those of the surrogates and those above the last
/// code point.
#[verifier::external_body]
fn char_from_code(n: u32) -> (r: Option<char>)
    ensures
        r == if n <= 0xD7FF || (0xE000 <= n && n <= 0x10FFFF) {
            Some(n as char)
        } else {
            None::<char>
        },
{
    char::from_u32(n)
}

impl Vectorizable for usize {
    open spec fn width() -> nat {
        5
    }

    open spec fn frame(self) -> Seq<u8> {
        frame5(0, self)
    }

    open spec fn unframe(frame: Seq<u8>) -> Option<usize> {
        Some(le32_value(frame.subrange(1, 5)) as usize)
    }

    proof fn lemma_frame(self) {
    }

    open spec fn framed_whole(self) -> bool {
        fits32(self)
    }

    proof fn lemma_unframe(self) {
        lemma_frame5(0, self);
    }

    fn frame_width() -> (w: usize) {
        5
    }

    fn to_binary_in_vec(self) -> (r: Vec<u8>) {
        write_frame5(0, self)
    }

    fn from_binary_in_vec(source: &Vec<u8>) -> (r: Option<usize>) {
        Some(read_le32(source, 1) as usize)
    }
}

impl Vectorizable for Placeholder {
    open spec fn width() -> nat {
        5
    }

    open spec fn frame(self) -> Seq<u8> {
        match self {
            Placeholder::LiteralChar(c) => seq![0u8] + le32(c as u32),
            Placeholder::WellFormedFormula(id) => frame5(1, id),
            Placeholder::Object(id) => frame5(2, id),
            Placeholder::Repetition => frame5(3, 0),
        }
    }

    open spec fn unframe(frame: Seq<u8>) -> Option<Placeholder> {
        let n = le32_value(frame.subrange(1, 5));
        if frame[0] == 0 {
            if n <= 0xD7FF || (0xE000 <= n && n <= 0x10FFFF) {
                Some(Placeholder::LiteralChar(n as char))
            } else {
                None
            }
        } else if frame[0] == 1 {
            Some(Placeholder::WellFormedFormula(n as usize))
        } else if frame[0] == 2 {
            Some(Placeholder::Object(n as usize))
        } else if frame[0] == 3 {
            Some(Placeholder::Repetition)
        } else {
            None
        }
    }

    proof fn lemma_frame(self) {
    }

    open spec fn framed_whole(self) -> bool {
        match self {
            Placeholder::WellFormedFormula(id) => fits32(id),
            Placeholder::Object(id) => fits32(id),
            _ => true,
        }
    }

    proof fn lemma_unframe(self) {
        match self {
            Placeholder::LiteralChar(c) => {
                lemma_le32(c as u32, Seq::empty());
                assert(self.frame().subrange(1, 5) =~= le32(c as u32));
            },
            Placeholder::WellFormedFormula(id) => {
                lemma_frame5(1, id);
            },
            Placeholder::Object(id) => {
                lemma_frame5(2, id);
            },
            Placeholder::Repetition => {
                lemma_frame5(3, 0);
            },
        }
    }

    fn frame_width() -> (w: usize) {
        5
    }

    fn to_binary_in_vec(self) -> (r: Vec<u8>) {
        match self {
            Placeholder::LiteralChar(c) => {
                let r = write_frame5(0, c as u32 as usize);
                assert(low32(c as u32 as usize) == c as u32);
                r
            },
            Placeholder::WellFormedFormula(id) => write_frame5(1, id),
            Placeholder::Object(id) => write_frame5(2, id),
            Placeholder::Repetition => write_frame5(3, 0),
        }
    }

    fn from_binary_in_vec(source: &Vec<u8>) -> (r: Option<Placeholder>) {
        let n = read_le32(source, 1);
        let tag = source[0];
        if tag == 0 {
            match char_from_code(n) {
                Some(c) => Some(Placeholder::LiteralChar(c)),
                None => None,
            }
        } else if tag == 1 {
            Some(Placeholder::WellFormedFormula(n as usize))
        } else if tag == 2 {
            Some(Placeholder::Object(n as usize))
        } else if tag == 3 {
            Some(Placeholder::Repetition)
        } else {
            None
        }
    }
}

impl Vectorizable for RpnBlock {
    open spec fn width() -> nat {
        5
    }

    open spec fn frame(self) -> Seq<u8> {
        match self {
            RpnBlock::WffAtomic(id) => frame5(0, id),
            RpnBlock::WffComposite(id) => frame5(1, id),
            RpnBlock::ObjectAtomic(id) => frame5(2, id),
            RpnBlock::ObjectComposite(id) => frame5(3, id),
        }
    }

    open spec fn unframe(frame: Seq<u8>) -> Option<RpnBlock> {
        let n = le32_value(frame.subrange(1, 5)) as usize;
        if frame[0] == 0 {
            Some(RpnBlock::WffAtomic(n))
        } else if frame[0] == 1 {
            Some(RpnBlock::WffComposite(n))
        } else if frame[0] == 2 {
            Some(RpnBlock::ObjectAtomic(n))
        } else if frame[0] == 3 {
            Some(RpnBlock::ObjectComposite(n))
        } else {
            None
        }
    }

    proof fn lemma_frame(self) {
    }

    open spec fn framed_whole(self) -> bool {
        match self {
            RpnBlock::WffAtomic(id) => fits32(id),
            RpnBlock::WffComposite(id) => fits32(id),
            RpnBlock::ObjectAtomic(id) => fits32(id),
            RpnBlock::ObjectComposite(id) => fits32(id),
        }
    }

    proof fn lemma_unframe(self) {
        match self {
            RpnBlock::WffAtomic(id) => {
                lemma_frame5(0, id);
            },
            RpnBlock::WffComposite(id) => {
                lemma_frame5(1, id);
            },
            RpnBlock::ObjectAtomic(id) => {
                lemma_frame5(2, id);
            },
            RpnBlock::ObjectComposite(id) => {
                lemma_frame5(3, id);
            },
        }
    }

    fn frame_width() -> (w: usize) {
        5
    }

    fn to_binary_in_vec(self) -> (r: Vec<u8>) {
        match self {
            RpnBlock::WffAtomic(id) => write_frame5(0, id),
            RpnBlock::WffComposite(id) => write_frame5(1, id),
            RpnBlock::ObjectAtomic(id) => write_frame5(2, id),
            RpnBlock::ObjectComposite(id) => write_frame5(3, id),
        }
    }

    fn from_binary_in_vec(source: &Vec<u8>) -> (r: Option<RpnBlock>) {
        let n = read_le32(source, 1) as usize;
        let tag = source[0];
        if tag == 0 {
            Some(RpnBlock::WffAtomic(n))
        } else if tag == 1 {
            Some(RpnBlock::WffComposite(n))
        } else if tag == 2 {
            Some(RpnBlock::ObjectAtomic(n))
        } else if tag == 3 {
            Some(RpnBlock::ObjectComposite(n))
        } else {
            None
        }
    }
}

/// A frame of nine bytes: a tag and two numbers.
pub open spec fn frame9(tag: u8, id: usize, sub: usize) -> Seq<u8> {
    seq![tag] + le32(low32(id)) + le32(low32(sub))
}

/// Writes a frame of nine bytes.
pub fn write_frame9(tag: u8, id: usize, sub: usize) -> (r: Vec<u8>)
    ensures
        r@ == frame9(tag, id, sub),
        r@.len() == 9,
{
    let mut r: Vec<u8> = Vec::new();
    r.push(tag);
    push_le32(&mut r, id);
    push_le32(&mut r, sub);
    r
}

impl Vectorizable for Reference {
    open spec fn width() -> nat {
        9
    }

    open spec fn frame(self) -> Seq<u8> {
        match self {
            Reference::HypothesisReference(id) => frame9(0, id, 0),
            Reference::DefinitionReference(id) => frame9(1, id, 0),
            Reference::AxiomReference(id, sub) => frame9(2, id, sub),
            Reference::TheoremReference(id, sub) => frame9(3, id, sub),
        }
    }

    open spec fn unframe(frame: Seq<u8>) -> Option<Reference> {
        let id = le32_value(frame.subrange(1, 5)) as usize;
        let sub = le32_value(frame.subrange(5, 9)) as usize;
        if frame[0] == 0 {
            Some(Reference::HypothesisReference(id))
        } else if frame[0] == 1 {
            Some(Reference::DefinitionReference(id))
        } else if frame[0] == 2 {
            Some(Reference::AxiomReference(id, sub))
        } else if frame[0] == 3 {
            Some(Reference::TheoremReference(id, sub))
        } else {
            None
        }
    }

    proof fn lemma_frame(self) {
    }

    open spec fn framed_whole(self) -> bool {
        match self {
            Reference::HypothesisReference(id) => fits32(id),
            Reference::DefinitionReference(id) => fits32(id),
            Reference::AxiomReference(id, sub) => fits32(id) && fits32(sub),
            Reference::TheoremReference(id, sub) => fits32(id) && fits32(sub),
        }
    }

    proof fn lemma_unframe(self) {
        match self {
            Reference::HypothesisReference(id) => {
                lemma_frame9(0, id, 0);
            },
            Reference::DefinitionReference(id) => {
                lemma_frame9(1, id, 0);
            },
            Reference::AxiomReference(id, sub) => {
                lemma_frame9(2, id, sub);
            },
            Reference::TheoremReference(id, sub) => {
                lemma_frame9(3, id, sub);
            },
        }
    }

    fn frame_width() -> (w: usize) {
        9
    }

    fn to_binary_in_vec(self) -> (r: Vec<u8>) {
        match self {
            Reference::HypothesisReference(id) => write_frame9(0, id, 0),
            Reference::DefinitionReference(id) => write_frame9(1, id, 0),
            Reference::AxiomReference(id, sub) => write_frame9(2, id, sub),
            Reference::TheoremReference(id, sub) => write_frame9(3, id, sub),
        }
    }

    fn from_binary_in_vec(source: &Vec<u8>) -> (r: Option<Reference>) {
        let id = read_le32(source, 1) as usize;
        let sub = read_le32(source, 5) as usize;
        let tag = source[0];
        if tag == 0 {
            Some(Reference::HypothesisReference(id))
        } else if tag == 1 {
            Some(Reference::DefinitionReference(id))
        } else if tag == 2 {
            Some(Reference::AxiomReference(id, sub))
        } else if tag == 3 {
            Some(Reference::TheoremReference(id, sub))
        } else {
            None
        }
    }
}

} // verus!
