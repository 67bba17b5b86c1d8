use vstd::prelude::*;

verus! {

/// An opaque identifier for nodes and messages: the protocol never
/// inspects its structure, it only compares and copies identifiers.
///
/// `same` must decide logical equality and `dup` must produce an equal
/// value; implementations in this crate are verified against these
/// contracts, so everything proved about the automaton holds for any
/// implementation that verifies.
pub trait Identifier: Sized {
    /// Decides equality of two identifiers.
    fn same(&self, other: &Self) -> (r: bool)
        ensures
            r <==> *self == *other,
    ;

    /// Copies an identifier.
    fn dup(&self) -> (r: Self)
        ensures
            r == *self,
    ;
}

impl Identifier for u64 {
    fn same(&self, other: &Self) -> (r: bool)
        ensures
            r <==> *self == *other,
    {
        *self == *other
    }

    fn dup(&self) -> (r: Self)
        ensures
            r == *self,
    {
        *self
    }
}

impl Identifier for u32 {
    fn same(&self, other: &Self) -> (r: bool)
        ensures
            r <==> *self == *other,
    {
        *self == *other
    }

    fn dup(&self) -> (r: Self)
        ensures
            r == *self,
    {
        *self
    }
}

impl Identifier for usize {
    fn same(&self, other: &Self) -> (r: bool)
        ensures
            r <==> *self == *other,
    {
        *self == *other
    }

    fn dup(&self) -> (r: Self)
        ensures
            r == *self,
    {
        *self
    }
}

} // verus!
