use vstd::prelude::*;

verus! {

/// One of the two players.
#[derive(Clone, Copy, PartialEq, Eq, Debug, Structural)]
pub enum Side {
    Blue,
    Red,
}

impl Side {
    /// The opposing side.
    pub open spec fn opponent(self) -> Side {
        match self {
            Side::Blue => Side::Red,
            Side::Red => Side::Blue,
        }
    }

    pub fn other(self) -> (r: Side)
        ensures
            r == self.opponent(),
            r != self,
    {
        match self {
            Side::Blue => Side::Red,
            Side::Red => Side::Blue,
        }
    }
}

/// The twelve kinds of Stratego pieces.
#[derive(Clone, Copy, PartialEq, Eq, Debug, Structural)]
pub enum Rank {
    Marshal,
    General,
    Colonel,
    Major,
    Captain,
    Lieutenant,
    Sergeant,
    Miner,
    Scout,
    Spy,
    Bomb,
    Flag,
}

/// Number of distinct ranks.
pub const RANK_KINDS: usize = 12;

/// Pieces in one side's full set.
pub const SET_SIZE: usize = 40;

impl Rank {
    /// Baseline combat strength (Bomb above every attacker, Flag at 0).
    pub open spec fn spec_strength(self) -> u8 {
        match self {
            Rank::Marshal => 10,
            Rank::General => 9,
            Rank::Colonel => 8,
            Rank::Major => 7,
            Rank::Captain => 6,
            Rank::Lieutenant => 5,
            Rank::Sergeant => 4,
            Rank::Miner => 3,
            Rank::Scout => 2,
            Rank::Spy => 1,
            Rank::Bomb => 255,
            Rank::Flag => 0,
        }
    }

    /// Bombs and the Flag never move.
    pub open spec fn spec_is_static(self) -> bool {
        self == Rank::Bomb || self == Rank::Flag
    }

    /// How many pieces of this rank a full set holds.
    pub open spec fn quota(self) -> u8 {
        match self {
            Rank::Marshal => 1,
            Rank::General => 1,
            Rank::Colonel => 2,
            Rank::Major => 3,
            Rank::Captain => 4,
            Rank::Lieutenant => 4,
            Rank::Sergeant => 4,
            Rank::Miner => 5,
            Rank::Scout => 8,
            Rank::Spy => 1,
            Rank::Bomb => 6,
            Rank::Flag => 1,
        }
    }

    /// The ranks in their canonical order, strongest mover first.
    pub open spec fn all_ranks() -> Seq<Rank> {
        seq![
            Rank::Marshal,
            Rank::General,
            Rank::Colonel,
            Rank::Major,
            Rank::Captain,
            Rank::Lieutenant,
            Rank::Sergeant,
            Rank::Miner,
            Rank::Scout,
            Rank::Spy,
            Rank::Bomb,
            Rank::Flag,
        ]
    }

    pub fn strength(self) -> (r: u8)
        ensures
            r == self.spec_strength(),
    {
        match self {
            Rank::Marshal => 10,
            Rank::General => 9,
            Rank::Colonel => 8,
            Rank::Major => 7,
            Rank::Captain => 6,
            Rank::Lieutenant => 5,
            Rank::Sergeant => 4,
            Rank::Miner => 3,
            Rank::Scout => 2,
            Rank::Spy => 1,
            Rank::Bomb => 255,
            Rank::Flag => 0,
        }
    }

    pub fn is_static(self) -> (r: bool)
        ensures
            r == self.spec_is_static(),
    {
        match self {
            Rank::Bomb | Rank::Flag => true,
            _ => false,
        }
    }

    /// Standard Stratego piece count per side (40 in all).
    pub fn count(self) -> (r: u8)
        ensures
            r == self.quota(),
    {
        match self {
            Rank::Marshal => 1,
            Rank::General => 1,
            Rank::Colonel => 2,
            Rank::Major => 3,
            Rank::Captain => 4,
            Rank::Lieutenant => 4,
            Rank::Sergeant => 4,
            Rank::Miner => 5,
            Rank::Scout => 8,
            Rank::Spy => 1,
            Rank::Bomb => 6,
            Rank::Flag => 1,
        }
    }

    /// Every rank once, in canonical order.
    pub fn all() -> (r: [Rank; 12])
        ensures
            r@ == Self::all_ranks(),
    {
        let r = [
            Rank::Marshal,
            Rank::General,
            Rank::Colonel,
            Rank::Major,
            Rank::Captain,
            Rank::Lieutenant,
            Rank::Sergeant,
            Rank::Miner,
            Rank::Scout,
            Rank::Spy,
            Rank::Bomb,
            Rank::Flag,
        ];
        assert(r@ =~= Self::all_ranks());
        r
    }
}

/// Every rank occurs in the canonical list.
pub proof fn lemma_all_ranks_complete(rank: Rank)
    ensures
        Rank::all_ranks().contains(rank),
        Rank::all_ranks().len() == RANK_KINDS,
{
    let s = Rank::all_ranks();
    let i: int = match rank {
        Rank::Marshal => 0,
        Rank::General => 1,
        Rank::Colonel => 2,
        Rank::Major => 3,
        Rank::Captain => 4,
        Rank::Lieutenant => 5,
        Rank::Sergeant => 6,
        Rank::Miner => 7,
        Rank::Scout => 8,
        Rank::Spy => 9,
        Rank::Bomb => 10,
        Rank::Flag => 11,
    };
    assert(s[i] == rank);
}

/// Position of `rank` in the canonical order.
pub open spec fn rank_index(rank: Rank) -> int {
    match rank {
        Rank::Marshal => 0,
        Rank::General => 1,
        Rank::Colonel => 2,
        Rank::Major => 3,
        Rank::Captain => 4,
        Rank::Lieutenant => 5,
        Rank::Sergeant => 6,
        Rank::Miner => 7,
        Rank::Scout => 8,
        Rank::Spy => 9,
        Rank::Bomb => 10,
        Rank::Flag => 11,
    }
}

/// The canonical order lists each rank once, at its index.
pub proof fn lemma_rank_index(rank: Rank, k: int)
    requires
        0 <= k < 12,
    ensures
        Rank::all_ranks().len() == 12,
        Rank::all_ranks()[rank_index(rank)] == rank,
        (Rank::all_ranks()[k] == rank) == (rank_index(rank) == k),
        0 <= rank_index(rank) < 12,
{
}

/// Sum of the quotas of the first `k` ranks in canonical order.
pub open spec fn quota_prefix(k: int) -> int
    decreases k,
{
    if k <= 0 {
        0
    } else {
        quota_prefix(k - 1) + Rank::all_ranks()[k - 1].quota()
    }
}

/// A full set has 40 pieces.
pub proof fn lemma_set_size()
    ensures
        quota_prefix(12) == SET_SIZE,
{
    reveal_with_fuel(quota_prefix, 13);
}

/// A piece on the board: who owns it, what it is, and whether it has ever
/// been in combat (and so is known to both players).
#[derive(Clone, Copy, PartialEq, Eq, Debug, Structural)]
pub struct Piece {
    pub owner: Side,
    pub rank: Rank,
    pub revealed: bool,
}

impl Piece {
    pub fn new(owner: Side, rank: Rank) -> (r: Self)
        ensures
            r == (Piece { owner, rank, revealed: false }),
    {
        Piece { owner, rank, revealed: false }
    }
}

} // verus!
