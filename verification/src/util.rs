use vstd::prelude::*;

verus! {

/// A value of one of two alternative types.
pub enum Either<L, R> {
    Left(L),
    Right(R),
}

impl<L, R> Either<L, R> {
    /// Whether this value is the left alternative.
    pub fn is_left(&self) -> (r: bool)
        ensures
            r == (self is Left),
    {
        match &self {
            Either::Left(_) => true,
            Either::Right(_) => false,
        }
    }

    /// Whether this value is the right alternative.
    pub fn is_right(&self) -> (r: bool)
        ensures
            r == (self is Right),
    {
        match &self {
            Either::Left(_) => false,
            Either::Right(_) => true,
        }
    }
}

} // verus!
