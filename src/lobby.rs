use vstd::prelude::*;

verus! {

/// Pairs players as they connect: holds at most one player waiting for an
/// opponent.
pub struct Lobby<T> {
    pending: Option<T>,
}

impl<T> View for Lobby<T> {
    type V = Option<T>;

    /// The player waiting for an opponent, if any.
    closed spec fn view(&self) -> Option<T> {
        self.pending
    }
}

impl<T> Lobby<T> {
    /// A lobby where nobody waits.
    pub fn new() -> (l: Lobby<T>)
        ensures
            l@ is None,
    {
        Lobby { pending: None }
    }

    /// Whether a player waits for an opponent.
    pub fn has_pending(&self) -> (b: bool)
        ensures
            b == self@ is Some,
    {
        self.pending.is_some()
    }

    /// Takes in a newly connected player. When nobody waits, the player
    /// waits and `None` comes back; otherwise the waiting player and the new
    /// one come back as a pair, in order of arrival, and the lobby is empty.
    pub fn arrive(&mut self, player: T) -> (pair: Option<(T, T)>)
        ensures
            match old(self)@ {
                None => pair is None && final(self)@ == Some(player),
                Some(first) => pair == Some((first, player)) && final(self)@ is None,
            },
    {
        match self.pending.take() {
            None => {
                self.pending = Some(player);
                None
            },
            Some(first) => Some((first, player)),
        }
    }
}

} // verus!
