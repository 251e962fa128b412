//! What a type needs to be written to an archive and read back.

use vstd::prelude::*;
use crate::compiling::types::{rules, Syntax, SyntaxModel};

verus! {

/// A value that is written in a frame of fixed width, so that a run of such
/// values can be written one frame after the other and closed by a frame that
/// is no value.
pub trait Vectorizable: Sized {
    /// The width of a frame in bytes.
    spec fn width() -> nat;

    /// The frame that holds the value.
    spec fn frame(self) -> Seq<u8>;

    /// The value that a frame holds, if it holds one.
    spec fn unframe(frame: Seq<u8>) -> Option<Self>;

    /// A frame is at least one byte wide, and no frame of a value starts with
    /// the byte that starts a frame that closes a run.
    proof fn lemma_frame(self)
        ensures
            Self::width() > 0,
            self.frame().len() == Self::width(),
            self.frame()[0] != 0xfe,
            self.frame()[0] != 0xff,
    ;

    /// The frame holds the value whole: every number in the value is written
    /// in full.
    spec fn framed_whole(self) -> bool;

    /// A value that its frame holds whole is read back from the frame.
    proof fn lemma_unframe(self)
        requires
            self.framed_whole(),
        ensures
            Self::unframe(self.frame()) == Some(self),
    ;

    /// The width of a frame, for the code that reads and writes.
    fn frame_width() -> (w: usize)
        ensures
            w == Self::width(),
            w > 0,
    ;

    /// Writes the value into a frame.
    fn to_binary_in_vec(self) -> (r: Vec<u8>)
        ensures
            r@ == self.frame(),
            r@.len() == Self::width(),
    ;

    /// Reads the value that a frame holds.
    fn from_binary_in_vec(source: &Vec<u8>) -> (r: Option<Self>)
        requires
            source@.len() == Self::width(),
        ensures
            r == Self::unframe(source@),
    ;
}

/// A value that is written to an archive as a run of bytes and read back from
/// a place in the archive. Reading gives the value and the place after it.
pub trait BinaryConvert: Sized + View {
    /// The bytes that hold a value.
    spec fn binary_of(model: Self::V) -> Seq<u8>;

    /// What stands at a place in the archive, read without a syntax table.
    spec fn read(source: Seq<u8>, at: int) -> Option<(Self::V, int)>;

    /// What stands at a place in the archive, read with the syntax table as
    /// it is when the value is reached.
    spec fn read_with(source: Seq<u8>, at: int, table: Seq<SyntaxModel>) -> Option<(Self::V, int)>;

    /// Writes the value.
    fn to_binary(self) -> (r: Vec<u8>)
        ensures
            r@ == Self::binary_of(self@),
    ;

    /// Reads a value without a syntax table.
    fn from_binary(source: &Vec<u8>, at: usize) -> (r: Option<(Self, usize)>)
        ensures
            match r {
                Some((value, next)) => Self::read(source@, at as int) == Some((value@, next as int))
                    && at <= next <= source@.len(),
                None => Self::read(source@, at as int) is None,
            },
    ;

    /// Reads a value with the syntax table.
    fn from_binary_syntaxes(source: &Vec<u8>, at: usize, syntaxes: &Vec<Syntax>) -> (r: Option<
        (Self, usize),
    >)
        ensures
            match r {
                Some((value, next)) => Self::read_with(source@, at as int, rules(syntaxes@)) == Some(
                    (value@, next as int),
                ) && at <= next <= source@.len(),
                None => Self::read_with(source@, at as int, rules(syntaxes@)) is None,
            },
    ;
}

} // verus!
