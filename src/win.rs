//! The end of the game: three pieces of one player in a line, or nobody
//! left who can act.

use vstd::prelude::*;

use crate::board::Board;
use crate::cats::{Cat, Piece};
use crate::hex::{in_region, lemma_step_exact, step, Hex, MAX_RADIUS};
use crate::players::{PlayerId, Players};
use crate::rules::Rules;

verus! {

/// The cell `h` of board `m` holds a piece of player `p` that counts
/// towards a row.
pub open spec fn owns(m: Map<Hex, Option<Piece>>, h: Hex, p: int, rules: Rules) -> bool {
    &&& m.contains_key(h)
    &&& m[h].is_some()
    &&& m[h].unwrap().owner.0 == p
    &&& (rules.adults_in_rows || m[h].unwrap().cat == Cat::Kitten)
}

/// Player `p` owns `h` and the next two cells along direction `k`.
pub open spec fn row_at(m: Map<Hex, Option<Piece>>, h: Hex, k: int, p: int, rules: Rules) -> bool {
    &&& 0 <= k < 6
    &&& owns(m, h, p, rules)
    &&& owns(m, step(h, k, 1), p, rules)
    &&& owns(m, step(h, k, 2), p, rules)
}

/// Player `p` has three or more pieces in a line.
pub open spec fn has_row(m: Map<Hex, Option<Piece>>, p: int, rules: Rules) -> bool {
    exists|h: Hex, k: int| #[trigger] row_at(m, h, k, p, rules)
}

/// The winner on board `m` among the first `n` players: the lowest id with a
/// row.
pub open spec fn is_first_winner(m: Map<Hex, Option<Piece>>, n: int, w: int, rules: Rules) -> bool {
    &&& 0 <= w < n
    &&& has_row(m, w, rules)
    &&& forall|q: int| 0 <= q < w ==> !has_row(m, q, rules)
}

fn counts(board: &Board, h: Hex, p: u8, rules: Rules) -> (r: bool)
    requires
        board.wf(),
    ensures
        r == owns(board@, h, p as int, rules),
{
    match board.cat_by_hex(h) {
        Some(piece) => piece.owner.0 == p && (rules.adults_in_rows || piece.cat == Cat::Kitten),
        None => false,
    }
}

/// Looks, player by player from id 0, for three pieces of one player in a
/// line, and returns the first such player.
pub fn win_condition(board: &Board, players: &Players, rules: Rules) -> (r: Option<PlayerId>)
    requires
        board.wf(),
        players.wf(),
    ensures
        r.is_some() ==> is_first_winner(board@, players.players@.len() as int, r.unwrap().0 as int, rules),
        r.is_none() ==> forall|q: int| 0 <= q < players.players@.len() ==> !has_row(board@, q, rules),
{
    let n = players.players.len();
    let mut p: usize = 0;
    while p < n
        invariant
            board.wf(),
            n == players.players@.len() <= 256,
            p <= n,
            forall|q: int| 0 <= q < p ==> !has_row(board@, q, rules),
        decreases n - p,
    {
        let mut i: usize = 0;
        while i < board.cells.len()
            invariant
                board.wf(),
                p < n <= 256,
                n == players.players@.len(),
                i <= board.cells@.len(),
                forall|q: int| 0 <= q < p ==> !has_row(board@, q, rules),
                forall|j: int, k: int|
                    0 <= j < i ==> !#[trigger] row_at(board@, board.cells@[j], k, p as int, rules),
            decreases board.cells@.len() - i,
        {
            let h = board.cells[i];
            if counts(board, h, p as u8, rules) {
                let mut k: usize = 0;
                while k < 6
                    invariant
                        board.wf(),
                        p < n <= 256,
                        n == players.players@.len(),
                        i < board.cells@.len(),
                        h == board.cells@[i as int],
                        owns(board@, h, p as int, rules),
                        k <= 6,
                        forall|q: int| 0 <= q < p ==> !has_row(board@, q, rules),
                        forall|k2: int| 0 <= k2 < k ==> !#[trigger] row_at(board@, h, k2, p as int, rules),
                    decreases 6 - k,
                {
                    proof {
                        lemma_step_exact(h, board.radius as int, k as int, 1);
                        lemma_step_exact(h, board.radius as int, k as int, 2);
                    }
                    let n1 = h.neighbor(k);
                    let n2 = n1.neighbor(k);
                    assert(n2 == step(h, k as int, 2));
                    if counts(board, n1, p as u8, rules) && counts(board, n2, p as u8, rules) {
                        proof {
                            assert(row_at(board@, h, k as int, p as int, rules));
                            assert(has_row(board@, p as int, rules));
                            assert((p as u8) as int == p as int);
                        }
                        return Some(PlayerId(p as u8));
                    }
                    k = k + 1;
                }
            }
            i = i + 1;
        }
        proof {
            assert forall|h: Hex, k: int| !#[trigger] row_at(board@, h, k, p as int, rules) by {
                if row_at(board@, h, k, p as int, rules) {
                    board.lemma_valid_has_index(h);
                    assert(!row_at(board@, board.cells@[board.index_of(h)], k, p as int, rules));
                }
            }
        }
        p = p + 1;
    }
    None
}

/// Whether no player can act. A turn that finds no row and nobody able to
/// act ends the game in a draw.
pub fn draw_condition(players: &Players) -> (r: bool)
    requires
        players.wf(),
    ensures
        r == forall|k: int| 0 <= k < players.players@.len() ==> !(#[trigger] players.players@[k]).can_act(),
{
    let mut i: usize = 0;
    while i < players.players.len()
        invariant
            i <= players.players@.len(),
            forall|k: int| 0 <= k < i ==> !(#[trigger] players.players@[k]).can_act(),
        decreases players.players@.len() - i,
    {
        if players.players[i].can_do_turn() {
            return false;
        }
        i = i + 1;
    }
    true
}

/// Exactly two pieces in a line are no row: a player who owns only two
/// cells of a board does not win.
pub proof fn lemma_two_is_not_a_row(
    m: Map<Hex, Option<Piece>>,
    radius: int,
    p: int,
    rules: Rules,
    a: Hex,
    b: Hex,
)
    requires
        0 <= radius <= MAX_RADIUS,
        forall|h: Hex| #[trigger] m.contains_key(h) ==> in_region(h, radius),
        forall|h: Hex| owns(m, h, p, rules) ==> h == a || h == b,
    ensures
        !has_row(m, p, rules),
{
    assert forall|h: Hex, k: int| !#[trigger] row_at(m, h, k, p, rules) by {
        if row_at(m, h, k, p, rules) {
            lemma_step_exact(h, radius, k, 1);
            lemma_step_exact(h, radius, k, 2);
            assert(owns(m, step(h, k, 1), p, rules));
            assert(owns(m, step(h, k, 2), p, rules));
        }
    }
}

} // verus!
