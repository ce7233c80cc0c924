use vstd::prelude::*;

verus! {

/// One of the two players' markers.
#[derive(Debug, Clone, Copy, PartialEq, Eq, Structural)]
pub enum Stone {
    Black,
    White,
}

impl Stone {
    /// The other player's stone.
    pub open spec fn spec_opposite(self) -> Stone {
        match self {
            Stone::Black => Stone::White,
            Stone::White => Stone::Black,
        }
    }

    /// Returns the other player's stone.
    #[verifier::when_used_as_spec(spec_opposite)]
    pub fn opposite(self) -> (other: Stone)
        ensures
            other == self.spec_opposite(),
    {
        match self {
            Stone::Black => Stone::White,
            Stone::White => Stone::Black,
        }
    }
}

} // verus!
