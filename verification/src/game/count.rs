//! Counting the pieces of one side and rank on a board, and how single-square
//! updates change those counts.

use vstd::prelude::*;

use super::board::{Board, Pos, Square, SIZE};
use super::piece::{quota_prefix, Rank, Side};

verus! {

/// The square holds a piece of `side` of the given rank.
pub open spec fn holds(sq: Square, side: Side, rank: Rank) -> bool {
    match sq {
        Square::Occupied(p) => p.owner == side && p.rank == rank,
        _ => false,
    }
}

/// Pieces of `side` and `rank` in the first `n` columns of row `r`.
pub open spec fn count_in_row(board: Board, side: Side, rank: Rank, r: int, n: int) -> nat
    decreases n,
{
    if n <= 0 {
        0
    } else {
        count_in_row(board, side, rank, r, n - 1) + if holds(board.at(r, n - 1), side, rank) {
            1nat
        } else {
            0nat
        }
    }
}

/// Pieces of `side` and `rank` in rows `lo` up to (not including) `hi`.
pub open spec fn count_in_rows(board: Board, side: Side, rank: Rank, lo: int, hi: int) -> nat
    decreases hi - lo,
{
    if hi <= lo {
        0
    } else {
        count_in_rows(board, side, rank, lo, hi - 1) + count_in_row(board, side, rank, hi - 1, 10)
    }
}

/// Pieces of `side` and `rank` on the whole board.
pub open spec fn pieces_of(board: Board, side: Side, rank: Rank) -> nat {
    count_in_rows(board, side, rank, 0, 10)
}

/// No rank of `side` is on the board more often than its quota.
pub open spec fn within_quota(board: Board, side: Side) -> bool {
    forall|rank: Rank| #[trigger] pieces_of(board, side, rank) <= rank.quota()
}

/// A row never holds more than `n` matches in its first `n` columns.
pub proof fn lemma_count_in_row_bound(board: Board, side: Side, rank: Rank, r: int, n: int)
    requires
        0 <= n,
    ensures
        count_in_row(board, side, rank, r, n) <= n,
    decreases n,
{
    if n > 0 {
        lemma_count_in_row_bound(board, side, rank, r, n - 1);
    }
}

/// Counting rows `lo..hi` is counting `lo..mid` and then `mid..hi`.
pub proof fn lemma_count_in_rows_split(board: Board, side: Side, rank: Rank, lo: int, mid: int, hi: int)
    requires
        lo <= mid <= hi,
    ensures
        count_in_rows(board, side, rank, lo, hi) == count_in_rows(board, side, rank, lo, mid)
            + count_in_rows(board, side, rank, mid, hi),
    decreases hi - mid,
{
    if hi > mid {
        lemma_count_in_rows_split(board, side, rank, lo, mid, hi - 1);
    }
}

/// 1 if the square counts, else 0.
pub open spec fn hit(sq: Square, side: Side, rank: Rank) -> int {
    if holds(sq, side, rank) {
        1
    } else {
        0
    }
}

proof fn lemma_count_in_row_update(
    new: Board,
    old: Board,
    pos: Pos,
    sq: Square,
    side: Side,
    rank: Rank,
    r: int,
    n: int,
)
    requires
        new.is_update(&old, pos, sq),
        pos.0 < SIZE,
        pos.1 < SIZE,
        0 <= r < 10,
        0 <= n <= 10,
    ensures
        count_in_row(new, side, rank, r, n) == count_in_row(old, side, rank, r, n) + if r == pos.0
            && pos.1 < n {
            hit(sq, side, rank) - hit(old.at_pos(pos), side, rank)
        } else {
            0
        },
    decreases n,
{
    if n > 0 {
        lemma_count_in_row_update(new, old, pos, sq, side, rank, r, n - 1);
        assert(new.at(r, n - 1) == if r == pos.0 && n - 1 == pos.1 {
            sq
        } else {
            old.at(r, n - 1)
        });
    }
}

proof fn lemma_count_in_rows_update(
    new: Board,
    old: Board,
    pos: Pos,
    sq: Square,
    side: Side,
    rank: Rank,
    lo: int,
    hi: int,
)
    requires
        new.is_update(&old, pos, sq),
        pos.0 < SIZE,
        pos.1 < SIZE,
        0 <= lo <= hi <= 10,
    ensures
        count_in_rows(new, side, rank, lo, hi) == count_in_rows(old, side, rank, lo, hi) + if lo
            <= pos.0 < hi {
            hit(sq, side, rank) - hit(old.at_pos(pos), side, rank)
        } else {
            0
        },
    decreases hi - lo,
{
    if hi > lo {
        lemma_count_in_rows_update(new, old, pos, sq, side, rank, lo, hi - 1);
        lemma_count_in_row_update(new, old, pos, sq, side, rank, hi - 1, 10);
    }
}

/// Replacing one square changes a count by what leaves and what arrives there.
pub proof fn lemma_pieces_of_update(new: Board, old: Board, pos: Pos, sq: Square, side: Side, rank: Rank)
    requires
        new.is_update(&old, pos, sq),
        pos.0 < SIZE,
        pos.1 < SIZE,
    ensures
        pieces_of(new, side, rank) == pieces_of(old, side, rank) + hit(sq, side, rank) - hit(
            old.at_pos(pos),
            side,
            rank,
        ),
{
    lemma_count_in_rows_update(new, old, pos, sq, side, rank, 0, 10);
}

/// Rows `lo..hi` that hold no piece of `side` and `rank` count zero.
pub proof fn lemma_count_none(board: Board, side: Side, rank: Rank, lo: int, hi: int)
    requires
        forall|r: int, c: int|
            lo <= r < hi && 0 <= c < 10 ==> !holds(#[trigger] board.at(r, c), side, rank),
    ensures
        count_in_rows(board, side, rank, lo, hi) == 0,
    decreases hi - lo,
{
    if hi > lo {
        lemma_count_none(board, side, rank, lo, hi - 1);
        lemma_count_row_none(board, side, rank, hi - 1, 10);
    }
}

proof fn lemma_count_row_none(board: Board, side: Side, rank: Rank, r: int, n: int)
    requires
        forall|c: int| 0 <= c < n ==> !holds(#[trigger] board.at(r, c), side, rank),
    ensures
        count_in_row(board, side, rank, r, n) == 0,
    decreases n,
{
    if n > 0 {
        lemma_count_row_none(board, side, rank, r, n - 1);
    }
}

/// Replacing one square keeps `side` within its quota as long as a piece of
/// `side` put there does not push its rank past the quota.
pub proof fn lemma_update_within_quota(new: Board, old: Board, pos: Pos, sq: Square, side: Side)
    requires
        new.is_update(&old, pos, sq),
        pos.0 < SIZE,
        pos.1 < SIZE,
        within_quota(old, side),
        sq matches Square::Occupied(p) ==> (p.owner == side ==> pieces_of(old, side, p.rank) + 1
            - hit(old.at_pos(pos), side, p.rank) <= p.rank.quota()),
    ensures
        within_quota(new, side),
{
    assert forall|rank: Rank| #[trigger] pieces_of(new, side, rank) <= rank.quota() by {
        lemma_pieces_of_update(new, old, pos, sq, side, rank);
        assert(pieces_of(old, side, rank) <= rank.quota());
    }
}

/// A move that puts `sq` on `to` and empties `from` never adds pieces: for
/// every rank, what lands on `to` was already on `from` or `to`.
pub proof fn lemma_move_within_quota(
    b0: Board,
    b1: Board,
    b2: Board,
    from: Pos,
    to: Pos,
    sq: Square,
    side: Side,
)
    requires
        b1.is_update(&b0, to, sq),
        b2.is_update(&b1, from, Square::Empty),
        from.0 < SIZE && from.1 < SIZE && to.0 < SIZE && to.1 < SIZE,
        from != to,
        forall|rank: Rank|
            #[trigger] hit(sq, side, rank) <= hit(b0.at_pos(from), side, rank) + hit(
                b0.at_pos(to),
                side,
                rank,
            ),
    ensures
        within_quota(b0, side) ==> within_quota(b2, side),
        forall|rank: Rank| #[trigger] pieces_of(b2, side, rank) <= pieces_of(b0, side, rank),
{
    assert forall|rank: Rank| #[trigger] pieces_of(b2, side, rank) <= pieces_of(b0, side, rank) by {
        lemma_pieces_of_update(b1, b0, to, sq, side, rank);
        lemma_pieces_of_update(b2, b1, from, Square::Empty, side, rank);
        assert(b1.at_pos(from) == b0.at_pos(from));
        assert(hit(sq, side, rank) <= hit(b0.at_pos(from), side, rank) + hit(b0.at_pos(to), side, rank));
    }
    if within_quota(b0, side) {
        assert forall|rank: Rank| #[trigger] pieces_of(b2, side, rank) <= rank.quota() by {
            assert(pieces_of(b2, side, rank) <= pieces_of(b0, side, rank));
            assert(pieces_of(b0, side, rank) <= rank.quota());
        }
    }
}

/// Two boards whose squares in rows `lo..hi` hold a piece of `side` and
/// `rank` at the same places count the same there.
pub proof fn lemma_count_same_hits(a: Board, b: Board, side: Side, rank: Rank, lo: int, hi: int)
    requires
        forall|r: int, c: int|
            lo <= r < hi && 0 <= c < 10 ==> holds(#[trigger] a.at(r, c), side, rank) == holds(
                b.at(r, c),
                side,
                rank,
            ),
    ensures
        count_in_rows(a, side, rank, lo, hi) == count_in_rows(b, side, rank, lo, hi),
    decreases hi - lo,
{
    if hi > lo {
        lemma_count_same_hits(a, b, side, rank, lo, hi - 1);
        lemma_count_row_same_hits(a, b, side, rank, hi - 1, 10);
    }
}

proof fn lemma_count_row_same_hits(a: Board, b: Board, side: Side, rank: Rank, r: int, n: int)
    requires
        forall|c: int|
            0 <= c < n ==> holds(#[trigger] a.at(r, c), side, rank) == holds(b.at(r, c), side, rank),
    ensures
        count_in_row(a, side, rank, r, n) == count_in_row(b, side, rank, r, n),
    decreases n,
{
    if n > 0 {
        lemma_count_row_same_hits(a, b, side, rank, r, n - 1);
    }
}

/// The square holds a piece of `side`, of any rank.
pub open spec fn own_at(sq: Square, side: Side) -> bool {
    sq matches Square::Occupied(p) && p.owner == side
}

/// Pieces of `side` in the first `n` columns of row `r`.
pub open spec fn own_in_row(board: Board, side: Side, r: int, n: int) -> nat
    decreases n,
{
    if n <= 0 {
        0
    } else {
        own_in_row(board, side, r, n - 1) + if own_at(board.at(r, n - 1), side) {
            1nat
        } else {
            0nat
        }
    }
}

/// Pieces of `side` in rows `lo` up to (not including) `hi`.
pub open spec fn own_in_rows(board: Board, side: Side, lo: int, hi: int) -> nat
    decreases hi - lo,
{
    if hi <= lo {
        0
    } else {
        own_in_rows(board, side, lo, hi - 1) + own_in_row(board, side, hi - 1, 10)
    }
}

/// All pieces of `side` on the board.
pub open spec fn own_pieces(board: Board, side: Side) -> nat {
    own_in_rows(board, side, 0, 10)
}

/// Pieces of `side` of the first `k` ranks in canonical order.
pub open spec fn rank_sum(board: Board, side: Side, k: int) -> nat
    decreases k,
{
    if k <= 0 {
        0
    } else {
        rank_sum(board, side, k - 1) + pieces_of(board, side, Rank::all_ranks()[k - 1])
    }
}

spec fn hit_sum(sq: Square, side: Side, k: int) -> nat
    decreases k,
{
    if k <= 0 {
        0
    } else {
        hit_sum(sq, side, k - 1) + if holds(sq, side, Rank::all_ranks()[k - 1]) {
            1nat
        } else {
            0nat
        }
    }
}

spec fn row_rank_sum(board: Board, side: Side, r: int, n: int, k: int) -> nat
    decreases k,
{
    if k <= 0 {
        0
    } else {
        row_rank_sum(board, side, r, n, k - 1) + count_in_row(board, side, Rank::all_ranks()[k - 1], r, n)
    }
}

spec fn rows_rank_sum(board: Board, side: Side, lo: int, hi: int, k: int) -> nat
    decreases k,
{
    if k <= 0 {
        0
    } else {
        rows_rank_sum(board, side, lo, hi, k - 1) + count_in_rows(
            board,
            side,
            Rank::all_ranks()[k - 1],
            lo,
            hi,
        )
    }
}

/// A square holds a piece of `side` of exactly one rank, or none.
proof fn lemma_hit_sum(sq: Square, side: Side)
    ensures
        hit_sum(sq, side, 12) == if own_at(sq, side) {
            1nat
        } else {
            0nat
        },
{
    reveal_with_fuel(hit_sum, 13);
}

proof fn lemma_row_rank_sum_step(board: Board, side: Side, r: int, n: int, k: int)
    requires
        n > 0,
    ensures
        row_rank_sum(board, side, r, n, k) == row_rank_sum(board, side, r, n - 1, k) + hit_sum(
            board.at(r, n - 1),
            side,
            k,
        ),
    decreases k,
{
    if k > 0 {
        lemma_row_rank_sum_step(board, side, r, n, k - 1);
    }
}

proof fn lemma_own_in_row(board: Board, side: Side, r: int, n: int)
    ensures
        own_in_row(board, side, r, n) == row_rank_sum(board, side, r, n, 12),
    decreases n,
{
    if n > 0 {
        lemma_own_in_row(board, side, r, n - 1);
        lemma_row_rank_sum_step(board, side, r, n, 12);
        lemma_hit_sum(board.at(r, n - 1), side);
    } else {
        lemma_row_rank_sum_zero(board, side, r, n, 12);
    }
}

proof fn lemma_row_rank_sum_zero(board: Board, side: Side, r: int, n: int, k: int)
    requires
        n <= 0,
    ensures
        row_rank_sum(board, side, r, n, k) == 0,
    decreases k,
{
    if k > 0 {
        lemma_row_rank_sum_zero(board, side, r, n, k - 1);
    }
}

proof fn lemma_rows_rank_sum_step(board: Board, side: Side, lo: int, hi: int, k: int)
    requires
        hi > lo,
    ensures
        rows_rank_sum(board, side, lo, hi, k) == rows_rank_sum(board, side, lo, hi - 1, k)
            + row_rank_sum(board, side, hi - 1, 10, k),
    decreases k,
{
    if k > 0 {
        lemma_rows_rank_sum_step(board, side, lo, hi, k - 1);
    }
}

proof fn lemma_rows_rank_sum_zero(board: Board, side: Side, lo: int, hi: int, k: int)
    requires
        hi <= lo,
    ensures
        rows_rank_sum(board, side, lo, hi, k) == 0,
    decreases k,
{
    if k > 0 {
        lemma_rows_rank_sum_zero(board, side, lo, hi, k - 1);
    }
}

proof fn lemma_own_in_rows(board: Board, side: Side, lo: int, hi: int)
    ensures
        own_in_rows(board, side, lo, hi) == rows_rank_sum(board, side, lo, hi, 12),
    decreases hi - lo,
{
    if hi > lo {
        lemma_own_in_rows(board, side, lo, hi - 1);
        lemma_rows_rank_sum_step(board, side, lo, hi, 12);
        lemma_own_in_row(board, side, hi - 1, 10);
    } else {
        lemma_rows_rank_sum_zero(board, side, lo, hi, 12);
    }
}

proof fn lemma_rank_sum_rows(board: Board, side: Side, k: int)
    ensures
        rank_sum(board, side, k) == rows_rank_sum(board, side, 0, 10, k),
    decreases k,
{
    if k > 0 {
        lemma_rank_sum_rows(board, side, k - 1);
    }
}

/// Counting the pieces of `side` square by square gives the sum of the
/// per-rank counts.
pub proof fn lemma_own_pieces_by_rank(board: Board, side: Side)
    ensures
        own_pieces(board, side) == rank_sum(board, side, 12),
{
    lemma_own_in_rows(board, side, 0, 10);
    lemma_rank_sum_rows(board, side, 12);
}

/// Within quota, the first `k` ranks hold at most their summed quotas, and
/// exactly that many only when each of them is at its quota.
pub proof fn lemma_rank_sum_quota(board: Board, side: Side, k: int)
    requires
        0 <= k <= 12,
        within_quota(board, side),
    ensures
        rank_sum(board, side, k) <= quota_prefix(k),
        (rank_sum(board, side, k) == quota_prefix(k)) == (forall|j: int|
            0 <= j < k ==> pieces_of(board, side, #[trigger] Rank::all_ranks()[j])
                == Rank::all_ranks()[j].quota()),
    decreases k,
{
    if k > 0 {
        lemma_rank_sum_quota(board, side, k - 1);
        let rank = Rank::all_ranks()[k - 1];
        assert(pieces_of(board, side, rank) <= rank.quota());
        if rank_sum(board, side, k) == quota_prefix(k) {
            assert forall|j: int|
                0 <= j < k implies pieces_of(board, side, #[trigger] Rank::all_ranks()[j])
                == Rank::all_ranks()[j].quota() by {
                if j < k - 1 {
                    assert(rank_sum(board, side, k - 1) == quota_prefix(k - 1));
                }
            }
        }
    }
}

/// A side with no piece of any rank on the board sums to zero.
pub proof fn lemma_rank_sum_zero(board: Board, side: Side, k: int)
    requires
        forall|rank: Rank| #[trigger] pieces_of(board, side, rank) == 0,
    ensures
        rank_sum(board, side, k) == 0,
    decreases k,
{
    if k > 0 {
        lemma_rank_sum_zero(board, side, k - 1);
        assert(pieces_of(board, side, Rank::all_ranks()[k - 1]) == 0);
    }
}

} // verus!
