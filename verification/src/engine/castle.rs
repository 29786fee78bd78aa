//! Which castling moves a side may still make.

use vstd::prelude::*;

verus! {

/// One of the two castling moves.
#[derive(Clone, Copy, Debug, PartialEq, Eq, Structural)]
pub enum CastleAvailable {
    QueenSide,
    KingSide,
}

/// The castling moves that one side may still make: a set of at most two.
#[derive(Clone, Copy, Debug, PartialEq, Eq, Structural)]
pub struct CastleRights {
    queen_side: bool,
    king_side: bool,
}

impl View for CastleRights {
    type V = Set<CastleAvailable>;

    closed spec fn view(&self) -> Set<CastleAvailable> {
        Set::new(
            |side: CastleAvailable|
                match side {
                    CastleAvailable::QueenSide => self.queen_side,
                    CastleAvailable::KingSide => self.king_side,
                },
        )
    }
}

impl CastleRights {
    /// No castling move is left.
    pub fn none() -> (rights: CastleRights)
        ensures
            rights@ == Set::<CastleAvailable>::empty(),
    {
        let rights = CastleRights { queen_side: false, king_side: false };
        assert(rights@ =~= Set::<CastleAvailable>::empty());
        rights
    }

    /// Both castling moves are left.
    pub fn all() -> (rights: CastleRights)
        ensures
            rights@ == Set::<CastleAvailable>::full(),
    {
        let rights = CastleRights { queen_side: true, king_side: true };
        assert(rights@ =~= Set::<CastleAvailable>::full());
        rights
    }

    /// These rights and `side` as well.
    pub fn with(self, side: CastleAvailable) -> (rights: CastleRights)
        ensures
            rights@ == self@.insert(side),
    {
        let rights = match side {
            CastleAvailable::QueenSide => CastleRights {
                queen_side: true,
                king_side: self.king_side,
            },
            CastleAvailable::KingSide => CastleRights {
                queen_side: self.queen_side,
                king_side: true,
            },
        };
        assert(rights@ =~= self@.insert(side));
        rights
    }

    /// Tells whether `side` is among these rights.
    pub fn contains(&self, side: CastleAvailable) -> (held: bool)
        ensures
            held == self@.contains(side),
    {
        match side {
            CastleAvailable::QueenSide => self.queen_side,
            CastleAvailable::KingSide => self.king_side,
        }
    }

    /// Rights that hold the same moves are the same rights.
    pub proof fn lemma_view_decides(self, other: CastleRights)
        requires
            self@ == other@,
        ensures
            self == other,
    {
        assert(self@.contains(CastleAvailable::QueenSide) == self.queen_side);
        assert(other@.contains(CastleAvailable::QueenSide) == other.queen_side);
        assert(self@.contains(CastleAvailable::KingSide) == self.king_side);
        assert(other@.contains(CastleAvailable::KingSide) == other.king_side);
    }

    /// Tells whether no castling move is left.
    pub fn is_empty(&self) -> (empty: bool)
        ensures
            empty == (self@ == Set::<CastleAvailable>::empty()),
    {
        proof {
            if !self.queen_side && !self.king_side {
                assert(self@ =~= Set::<CastleAvailable>::empty());
            } else if self.queen_side {
                assert(self@.contains(CastleAvailable::QueenSide));
            } else {
                assert(self@.contains(CastleAvailable::KingSide));
            }
        }
        !self.queen_side && !self.king_side
    }
}

} // verus!
