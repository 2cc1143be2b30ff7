//! The character abstraction the syntax tree is written against.
use vstd::prelude::*;

verus! {

/// A value that stands for one character: it decodes to a primitive `char`
/// and can be built back from one.
pub trait Char: Sized {
    spec fn as_char(&self) -> char;

    fn into_char(self) -> (r: char)
        ensures
            r == self.as_char(),
    ;

    fn from_char(c: char) -> (r: Self)
        ensures
            r.as_char() == c,
    ;
}

/// The plain character wrapped in a tagged type.
#[derive(Debug, Copy, Clone, Eq, PartialEq, Ord, PartialOrd, Hash)]
pub struct NaiveChar(pub char);

impl Char for NaiveChar {
    open spec fn as_char(&self) -> char {
        self.0
    }

    fn into_char(self) -> (r: char) {
        self.0
    }

    fn from_char(c: char) -> (r: Self) {
        NaiveChar(c)
    }
}

impl Char for char {
    open spec fn as_char(&self) -> char {
        *self
    }

    fn into_char(self) -> (r: char) {
        self
    }

    fn from_char(c: char) -> (r: Self) {
        c
    }
}

} // verus!
