use vstd::prelude::*;

verus! {

/// Identifies one of the two players of a match; `A` is the first to connect.
#[derive(Clone, Copy, Debug, PartialEq, Eq, Structural)]
pub enum Turn {
    A,
    B,
}

impl Turn {
    /// The other player.
    pub open spec fn other(self) -> Turn {
        match self {
            Turn::A => Turn::B,
            Turn::B => Turn::A,
        }
    }

    /// Turns `self` into the other player.
    pub fn flip(&mut self)
        ensures
            *final(self) == old(self).other(),
    {
        *self = self.flipped();
    }

    /// Returns the other player, leaving `self` as it is.
    pub fn flipped(self) -> (r: Turn)
        ensures
            r == self.other(),
    {
        match self {
            Turn::A => Turn::B,
            Turn::B => Turn::A,
        }
    }
}

} // verus!
