//! The boop pass: a piece just placed pushes each eligible neighbour one
//! cell further out, or off the board and back into its owner's hand.

use vstd::prelude::*;

use crate::board::{holds, lemma_owned_count_positive, lemma_owned_count_update, Board};
use crate::cats::{Cat, Piece};
use crate::error::GameError;
use crate::hex::{in_region, lemma_step_exact, step, Hex, MAX_RADIUS};
use crate::players::{Inventory, PlayerId, Players};
use crate::rules::Rules;

verus! {

/// One planned push: the piece on `from` goes to `to`, or off the board.
#[derive(Clone, Copy, Debug, PartialEq, Eq, Structural)]
pub struct MoveCat {
    pub from: Hex,
    pub to: Option<Hex>,
}

/// What a turn did to the board, in order.
#[derive(Clone, Copy, Debug, PartialEq, Eq, Structural)]
pub enum Effect {
    /// `piece` was put on `at`.
    Placed { piece: Piece, at: Hex },
    /// `piece` was booped from `from` to `to`.
    Moved { piece: Piece, from: Hex, to: Hex },
    /// `piece` was booped off the board from `from`; its owner has it back
    /// as a kitten.
    Removed { piece: Piece, from: Hex },
}

/// The push, if any, in direction `k` from a piece of kind `cat` and owner
/// `player` on `pos`, read off the board `m`.
pub open spec fn planned(
    m: Map<Hex, Option<Piece>>,
    pos: Hex,
    cat: Cat,
    player: PlayerId,
    rules: Rules,
    k: int,
) -> Option<MoveCat> {
    let n = step(pos, k, 1);
    let b = step(pos, k, 2);
    if m.contains_key(n) && m[n].is_some() && cat.boops(m[n].unwrap().cat) && (rules.boop_own_pieces
        || m[n].unwrap().owner != player) {
        if !m.contains_key(b) {
            Some(MoveCat { from: n, to: None })
        } else if m[b].is_none() {
            Some(MoveCat { from: n, to: Some(b) })
        } else {
            None
        }
    } else {
        None
    }
}

/// The pushes of the first `k` directions, in direction order.
pub open spec fn plan_upto(
    m: Map<Hex, Option<Piece>>,
    pos: Hex,
    cat: Cat,
    player: PlayerId,
    rules: Rules,
    k: nat,
) -> Seq<MoveCat>
    decreases k,
{
    if k == 0 {
        seq![]
    } else {
        let prev = plan_upto(m, pos, cat, player, rules, (k - 1) as nat);
        match planned(m, pos, cat, player, rules, k - 1) {
            Some(mv) => prev.push(mv),
            None => prev,
        }
    }
}

/// All pushes that a piece placed on `pos` makes, all read off the same
/// board `m`.
pub open spec fn plan_spec(
    m: Map<Hex, Option<Piece>>,
    pos: Hex,
    cat: Cat,
    player: PlayerId,
    rules: Rules,
) -> Seq<MoveCat> {
    plan_upto(m, pos, cat, player, rules, 6)
}

pub open spec fn apply_one(m: Map<Hex, Option<Piece>>, mv: MoveCat) -> Map<Hex, Option<Piece>> {
    match mv.to {
        None => m.insert(mv.from, None),
        Some(t) => m.insert(mv.from, None).insert(t, m[mv.from]),
    }
}

/// The board after the pushes, one after another.
pub open spec fn apply_moves(m: Map<Hex, Option<Piece>>, moves: Seq<MoveCat>) -> Map<
    Hex,
    Option<Piece>,
>
    decreases moves.len(),
{
    if moves.len() == 0 {
        m
    } else {
        apply_one(apply_moves(m, moves.drop_last()), moves.last())
    }
}

/// How many pieces of player `k` the pushes take off the board `m`.
pub open spec fn removed_count(m: Map<Hex, Option<Piece>>, moves: Seq<MoveCat>, k: int) -> int
    decreases moves.len(),
{
    if moves.len() == 0 {
        0
    } else {
        removed_count(m, moves.drop_last(), k) + if moves.last().to.is_none() {
            holds(m[moves.last().from], k)
        } else {
            0
        }
    }
}

/// What a push on the board `m` is reported as.
pub open spec fn effect_of(m: Map<Hex, Option<Piece>>, mv: MoveCat) -> Effect {
    match mv.to {
        None => Effect::Removed { piece: m[mv.from].unwrap(), from: mv.from },
        Some(t) => Effect::Moved { piece: m[mv.from].unwrap(), from: mv.from, to: t },
    }
}

/// The push goes out from `pos` along direction `j`.
pub open spec fn along(mv: MoveCat, pos: Hex, j: int) -> bool {
    &&& mv.from == step(pos, j, 1)
    &&& (mv.to.is_none() || mv.to == Some(step(pos, j, 2)))
}

/// The push is the one planned for one of the first `k` directions.
pub open spec fn planned_in(
    m: Map<Hex, Option<Piece>>,
    pos: Hex,
    cat: Cat,
    player: PlayerId,
    rules: Rules,
    mv: MoveCat,
    k: int,
) -> bool {
    exists|j: int| 0 <= j < k && #[trigger] planned(m, pos, cat, player, rules, j) == Some(mv)
}

/// No cell of one push is a cell of the other.
pub open spec fn apart(a: MoveCat, b: MoveCat) -> bool {
    &&& a.from != b.from
    &&& b.to != Some(a.from)
    &&& a.to != Some(b.from)
    &&& (a.to.is_some() ==> a.to != b.to)
}

/// The push starts on a piece and ends on an empty cell of `m`, or off it.
pub open spec fn sound(m: Map<Hex, Option<Piece>>, mv: MoveCat) -> bool {
    &&& m.contains_key(mv.from)
    &&& m[mv.from].is_some()
    &&& (mv.to.is_some() ==> m.contains_key(mv.to.unwrap()) && m[mv.to.unwrap()].is_none())
    &&& mv.to != Some(mv.from)
}

/// `h` is one of the cells of the push.
pub open spec fn touches(mv: MoveCat, h: Hex) -> bool {
    mv.from == h || mv.to == Some(h)
}

proof fn lemma_directions_apart(pos: Hex, radius: int, j1: int, j2: int)
    requires
        in_region(pos, radius),
        0 <= radius <= MAX_RADIUS,
        0 <= j1 < 6,
        0 <= j2 < 6,
        j1 != j2,
    ensures
        step(pos, j1, 1) != step(pos, j2, 1),
        step(pos, j1, 1) != step(pos, j2, 2),
        step(pos, j1, 2) != step(pos, j2, 2),
        step(pos, j1, 1) != step(pos, j1, 2),
{
    lemma_step_exact(pos, radius, j1, 1);
    lemma_step_exact(pos, radius, j1, 2);
    lemma_step_exact(pos, radius, j2, 1);
    lemma_step_exact(pos, radius, j2, 2);
}

/// Pushes of one plan come from distinct directions, so no two share a cell,
/// and each starts on a piece and ends on an empty cell or off the board:
/// carried out one after another, none disturbs another.
pub proof fn lemma_plan_facts(
    m: Map<Hex, Option<Piece>>,
    pos: Hex,
    cat: Cat,
    player: PlayerId,
    rules: Rules,
    radius: int,
    k: nat,
)
    requires
        in_region(pos, radius),
        0 <= radius <= MAX_RADIUS,
        k <= 6,
    ensures
        ({
            let moves = plan_upto(m, pos, cat, player, rules, k);
            &&& forall|i: int|
                0 <= i < moves.len() ==> planned_in(m, pos, cat, player, rules, #[trigger] moves[i], k as int)
            &&& forall|i1: int, i2: int|
                0 <= i1 < i2 < moves.len() ==> apart(#[trigger] moves[i1], #[trigger] moves[i2])
            &&& forall|i: int| 0 <= i < moves.len() ==> sound(m, #[trigger] moves[i])
        }),
    decreases k,
{
    if k > 0 {
        lemma_plan_facts(m, pos, cat, player, rules, radius, (k - 1) as nat);
        let prev = plan_upto(m, pos, cat, player, rules, (k - 1) as nat);
        let moves = plan_upto(m, pos, cat, player, rules, k);
        let j = k - 1;
        lemma_step_exact(pos, radius, j, 1);
        lemma_step_exact(pos, radius, j, 2);
        match planned(m, pos, cat, player, rules, j) {
            Some(mv) => {
                assert(moves == prev.push(mv));
                assert(along(mv, pos, j));
                lemma_directions_apart(pos, radius, j, (j + 1) % 6);
                assert(sound(m, mv));
                assert forall|i: int| 0 <= i < moves.len() implies planned_in(m, pos, cat, player, rules, #[trigger] moves[i], k as int) by {
                    if i < prev.len() {
                        assert(moves[i] == prev[i]);
                        assert(planned_in(m, pos, cat, player, rules, prev[i], k - 1));
                        let j2 = choose|j2: int| 0 <= j2 < k - 1 && #[trigger] planned(m, pos, cat, player, rules, j2) == Some(prev[i]);
                        assert(planned(m, pos, cat, player, rules, j2) == Some(moves[i]));
                    } else {
                        assert(planned(m, pos, cat, player, rules, j) == Some(moves[i]));
                    }
                }
                assert forall|i1: int, i2: int| 0 <= i1 < i2 < moves.len() implies apart(
                    #[trigger] moves[i1],
                    #[trigger] moves[i2],
                ) by {
                    assert(moves[i1] == prev[i1]);
                    if i2 < prev.len() {
                        assert(moves[i2] == prev[i2]);
                    } else {
                        assert(planned_in(m, pos, cat, player, rules, prev[i1], k - 1));
                        let j1 = choose|j1: int| 0 <= j1 < k - 1 && #[trigger] planned(m, pos, cat, player, rules, j1) == Some(prev[i1]);
                        assert(along(prev[i1], pos, j1));
                        lemma_directions_apart(pos, radius, j1, j);
                    }
                }
                assert forall|i: int| 0 <= i < moves.len() implies sound(m, #[trigger] moves[i]) by {
                    if i < prev.len() {
                        assert(moves[i] == prev[i]);
                    }
                }
            },
            None => {
                assert(moves == prev);
                assert forall|i: int| 0 <= i < moves.len() implies planned_in(m, pos, cat, player, rules, #[trigger] moves[i], k as int) by {
                    assert(planned_in(m, pos, cat, player, rules, prev[i], k - 1));
                    let j2 = choose|j2: int| 0 <= j2 < k - 1 && #[trigger] planned(m, pos, cat, player, rules, j2) == Some(prev[i]);
                    assert(planned(m, pos, cat, player, rules, j2) == Some(moves[i]));
                }
            },
        }
    }
}

/// Cells that no push touches keep what they held.
proof fn lemma_apply_untouched(m: Map<Hex, Option<Piece>>, moves: Seq<MoveCat>, h: Hex)
    requires
        forall|i: int| 0 <= i < moves.len() ==> sound(m, #[trigger] moves[i]),
        forall|i: int| 0 <= i < moves.len() ==> !touches(#[trigger] moves[i], h),
    ensures
        apply_moves(m, moves).dom() == m.dom(),
        apply_moves(m, moves)[h] == m[h],
    decreases moves.len(),
{
    if moves.len() > 0 {
        let prev = moves.drop_last();
        assert forall|i: int| 0 <= i < prev.len() implies sound(m, #[trigger] prev[i]) by {
            assert(prev[i] == moves[i]);
        }
        assert forall|i: int| 0 <= i < prev.len() implies !touches(#[trigger] prev[i], h) by {
            assert(prev[i] == moves[i]);
        }
        lemma_apply_untouched(m, prev, h);
        assert(sound(m, moves[moves.len() - 1]));
        assert(apply_moves(m, moves).dom() =~= m.dom());
    }
}

/// A cell that one push leaves and no push enters is empty afterwards.
proof fn lemma_apply_cleared(m: Map<Hex, Option<Piece>>, moves: Seq<MoveCat>, h: Hex)
    requires
        forall|i: int| 0 <= i < moves.len() ==> sound(m, #[trigger] moves[i]),
        exists|i: int| 0 <= i < moves.len() && (#[trigger] moves[i]).from == h,
        forall|i: int| 0 <= i < moves.len() ==> (#[trigger] moves[i]).to != Some(h),
    ensures
        apply_moves(m, moves).contains_key(h),
        apply_moves(m, moves)[h].is_none(),
    decreases moves.len(),
{
    let prev = moves.drop_last();
    let last = moves.last();
    assert forall|i: int| 0 <= i < prev.len() implies sound(m, #[trigger] prev[i]) by {
        assert(prev[i] == moves[i]);
    }
    assert forall|i: int| 0 <= i < prev.len() implies (#[trigger] prev[i]).to != Some(h) by {
        assert(prev[i] == moves[i]);
    }
    assert(sound(m, moves[moves.len() - 1]));
    if last.from != h {
        let i = choose|i: int| 0 <= i < moves.len() && (#[trigger] moves[i]).from == h;
        assert(prev[i] == moves[i]);
        lemma_apply_cleared(m, prev, h);
    } else {
        lemma_apply_dom(m, prev);
    }
}

/// Pushes between cells of the board keep its cells.
proof fn lemma_apply_dom(m: Map<Hex, Option<Piece>>, moves: Seq<MoveCat>)
    requires
        forall|i: int| 0 <= i < moves.len() ==> sound(m, #[trigger] moves[i]),
    ensures
        apply_moves(m, moves).dom() == m.dom(),
    decreases moves.len(),
{
    if moves.len() > 0 {
        let prev = moves.drop_last();
        assert forall|i: int| 0 <= i < prev.len() implies sound(m, #[trigger] prev[i]) by {
            assert(prev[i] == moves[i]);
        }
        lemma_apply_dom(m, prev);
        assert(sound(m, moves[moves.len() - 1]));
        assert(apply_moves(m, moves).dom() =~= m.dom());
    }
}

/// The push planned for direction `j` is part of the plan.
proof fn lemma_plan_contains(
    m: Map<Hex, Option<Piece>>,
    pos: Hex,
    cat: Cat,
    player: PlayerId,
    rules: Rules,
    j: int,
    k: nat,
)
    requires
        0 <= j < k <= 6,
        planned(m, pos, cat, player, rules, j).is_some(),
    ensures
        plan_upto(m, pos, cat, player, rules, k).contains(planned(m, pos, cat, player, rules, j).unwrap()),
    decreases k,
{
    let mv = planned(m, pos, cat, player, rules, j).unwrap();
    let prev = plan_upto(m, pos, cat, player, rules, (k - 1) as nat);
    let cur = plan_upto(m, pos, cat, player, rules, k);
    if j == k - 1 {
        assert(cur == prev.push(mv));
        assert(cur[cur.len() - 1] == mv);
    } else {
        lemma_plan_contains(m, pos, cat, player, rules, j, (k - 1) as nat);
        let i = choose|i: int| 0 <= i < prev.len() && prev[i] == mv;
        assert(cur[i] == mv);
    }
}

/// Kinds decide a boop: next to a piece just placed, a neighbour whose
/// outward cell is free or off the board is pushed exactly when the pusher is
/// an adult or the neighbour a kitten, and never otherwise.
pub proof fn lemma_boop_kinds(
    m: Map<Hex, Option<Piece>>,
    pos: Hex,
    cat: Cat,
    player: PlayerId,
    rules: Rules,
    k: int,
)
    requires
        0 <= k < 6,
        m.contains_key(step(pos, k, 1)),
        m[step(pos, k, 1)].is_some(),
        rules.boop_own_pieces || m[step(pos, k, 1)].unwrap().owner != player,
    ensures
        planned(m, pos, cat, player, rules, k).is_some() ==> (cat == Cat::Adult || m[step(
            pos,
            k,
            1,
        )].unwrap().cat == Cat::Kitten),
        !m.contains_key(step(pos, k, 2)) || m[step(pos, k, 2)].is_none() ==> (planned(
            m,
            pos,
            cat,
            player,
            rules,
            k,
        ).is_some() <==> (cat == Cat::Adult || m[step(pos, k, 1)].unwrap().cat == Cat::Kitten)),
{
}

/// A boop off the board: when the cell beyond the neighbour in direction `k`
/// is not on the board, the pass empties the neighbour's cell and counts the
/// piece once for its owner, and for nobody else.
pub proof fn lemma_boop_off_board(
    m: Map<Hex, Option<Piece>>,
    radius: int,
    pos: Hex,
    cat: Cat,
    player: PlayerId,
    rules: Rules,
    k: int,
)
    requires
        0 <= radius <= MAX_RADIUS,
        in_region(pos, radius),
        0 <= k < 6,
        m.contains_key(step(pos, k, 1)),
        m[step(pos, k, 1)].is_some(),
        cat.boops(m[step(pos, k, 1)].unwrap().cat),
        rules.boop_own_pieces || m[step(pos, k, 1)].unwrap().owner != player,
        !m.contains_key(step(pos, k, 2)),
    ensures
        ({
            let n = step(pos, k, 1);
            let o = m[n].unwrap().owner.0 as int;
            let moves = plan_spec(m, pos, cat, player, rules);
            &&& apply_moves(m, moves).contains_key(n)
            &&& apply_moves(m, moves)[n].is_none()
            &&& removed_count(m, plan_upto(m, pos, cat, player, rules, (k + 1) as nat), o)
                == removed_count(m, plan_upto(m, pos, cat, player, rules, k as nat), o) + 1
            &&& forall|q: int|
                q != o ==> #[trigger] removed_count(m, plan_upto(m, pos, cat, player, rules, (k + 1) as nat), q)
                    == removed_count(m, plan_upto(m, pos, cat, player, rules, k as nat), q)
        }),
{
    let n = step(pos, k, 1);
    let moves = plan_spec(m, pos, cat, player, rules);
    let mv = MoveCat { from: n, to: None };
    assert(planned(m, pos, cat, player, rules, k) == Some(mv));
    let after = plan_upto(m, pos, cat, player, rules, (k + 1) as nat);
    assert(after == plan_upto(m, pos, cat, player, rules, k as nat).push(mv));
    assert(after.drop_last() == plan_upto(m, pos, cat, player, rules, k as nat));
    lemma_plan_facts(m, pos, cat, player, rules, radius, 6);
    lemma_plan_contains(m, pos, cat, player, rules, k, 6);
    assert forall|i: int| 0 <= i < moves.len() implies (#[trigger] moves[i]).to != Some(n) by {
        let j = choose|j: int| 0 <= j < 6 && #[trigger] planned(m, pos, cat, player, rules, j) == Some(moves[i]);
        assert(along(moves[i], pos, j));
        if j != k {
            lemma_directions_apart(pos, radius, j, k);
        } else {
            lemma_directions_apart(pos, radius, k, (k + 1) % 6);
        }
    }
    let i = choose|i: int| 0 <= i < moves.len() && moves[i] == mv;
    assert(moves[i].from == n);
    lemma_apply_cleared(m, moves, n);
}

/// A push whose cells no other push touches moves its piece: its old cell
/// is empty afterwards and its new cell holds it.
proof fn lemma_apply_moved(m: Map<Hex, Option<Piece>>, moves: Seq<MoveCat>, i: int)
    requires
        forall|q: int| 0 <= q < moves.len() ==> sound(m, #[trigger] moves[q]),
        forall|i1: int, i2: int|
            0 <= i1 < i2 < moves.len() ==> apart(#[trigger] moves[i1], #[trigger] moves[i2]),
        0 <= i < moves.len(),
        moves[i].to.is_some(),
    ensures
        apply_moves(m, moves)[moves[i].from].is_none(),
        apply_moves(m, moves)[moves[i].to.unwrap()] == m[moves[i].from],
    decreases moves.len(),
{
    let prev = moves.drop_last();
    let mv = moves[i];
    assert forall|q: int| 0 <= q < prev.len() implies sound(m, #[trigger] prev[q]) by {
        assert(prev[q] == moves[q]);
    }
    assert forall|i1: int, i2: int| 0 <= i1 < i2 < prev.len() implies apart(
        #[trigger] prev[i1],
        #[trigger] prev[i2],
    ) by {
        assert(prev[i1] == moves[i1] && prev[i2] == moves[i2]);
    }
    assert(sound(m, moves[moves.len() - 1]));
    if i == moves.len() - 1 {
        assert forall|q: int| 0 <= q < prev.len() implies !touches(#[trigger] prev[q], mv.from) by {
            assert(prev[q] == moves[q]);
            assert(apart(moves[q], moves[i]));
        }
        lemma_apply_untouched(m, prev, mv.from);
        assert forall|q: int| 0 <= q < prev.len() implies !touches(#[trigger] prev[q], mv.to.unwrap()) by {
            assert(prev[q] == moves[q]);
            assert(apart(moves[q], moves[i]));
        }
        lemma_apply_untouched(m, prev, mv.to.unwrap());
    } else {
        assert(prev[i] == mv);
        lemma_apply_moved(m, prev, i);
        assert(apart(moves[i], moves[moves.len() - 1]));
    }
}

/// A boop onto the board: when the cell beyond the neighbour in direction
/// `k` is on the board and empty, the pass moves the neighbour there and
/// empties its old cell.
pub proof fn lemma_boop_moves(
    m: Map<Hex, Option<Piece>>,
    radius: int,
    pos: Hex,
    cat: Cat,
    player: PlayerId,
    rules: Rules,
    k: int,
)
    requires
        0 <= radius <= MAX_RADIUS,
        in_region(pos, radius),
        0 <= k < 6,
        m.contains_key(step(pos, k, 1)),
        m[step(pos, k, 1)].is_some(),
        cat.boops(m[step(pos, k, 1)].unwrap().cat),
        rules.boop_own_pieces || m[step(pos, k, 1)].unwrap().owner != player,
        m.contains_key(step(pos, k, 2)),
        m[step(pos, k, 2)].is_none(),
    ensures
        ({
            let moves = plan_spec(m, pos, cat, player, rules);
            &&& apply_moves(m, moves)[step(pos, k, 1)].is_none()
            &&& apply_moves(m, moves)[step(pos, k, 2)] == m[step(pos, k, 1)]
        }),
{
    let moves = plan_spec(m, pos, cat, player, rules);
    let mv = MoveCat { from: step(pos, k, 1), to: Some(step(pos, k, 2)) };
    assert(planned(m, pos, cat, player, rules, k) == Some(mv));
    lemma_plan_facts(m, pos, cat, player, rules, radius, 6);
    lemma_plan_contains(m, pos, cat, player, rules, k, 6);
    let i = choose|i: int| 0 <= i < moves.len() && moves[i] == mv;
    lemma_apply_moved(m, moves, i);
}

/// A blocked boop: when the cell beyond the neighbour in direction `k` holds
/// a piece, the neighbour stays where it is.
pub proof fn lemma_boop_blocked(
    m: Map<Hex, Option<Piece>>,
    radius: int,
    pos: Hex,
    cat: Cat,
    player: PlayerId,
    rules: Rules,
    k: int,
)
    requires
        0 <= radius <= MAX_RADIUS,
        in_region(pos, radius),
        0 <= k < 6,
        m.contains_key(step(pos, k, 1)),
        m.contains_key(step(pos, k, 2)),
        m[step(pos, k, 2)].is_some(),
    ensures
        planned(m, pos, cat, player, rules, k).is_none(),
        apply_moves(m, plan_spec(m, pos, cat, player, rules))[step(pos, k, 1)] == m[step(pos, k, 1)],
{
    let n = step(pos, k, 1);
    let moves = plan_spec(m, pos, cat, player, rules);
    lemma_plan_facts(m, pos, cat, player, rules, radius, 6);
    assert forall|i: int| 0 <= i < moves.len() implies !touches(#[trigger] moves[i], n) by {
        let j = choose|j: int| 0 <= j < 6 && #[trigger] planned(m, pos, cat, player, rules, j) == Some(moves[i]);
        assert(along(moves[i], pos, j));
        if j != k {
            lemma_directions_apart(pos, radius, j, k);
        }
    }
    lemma_apply_untouched(m, moves, n);
}

/// Carries out one push: moves the piece, or takes it off the board and
/// gives its owner a kitten.
pub fn move_cat(board: &mut Board, players: &mut Players, mv: MoveCat) -> (r: Result<
    Effect,
    GameError,
>)
    requires
        old(board).wf(),
        old(players).wf(),
        mv.to.is_none() && old(board).piece_at(mv.from).is_some() ==> {
            let o = old(board).piece_at(mv.from).unwrap().owner.0 as int;
            o < old(players).players@.len() && old(players).kittens(o) < 255
        },
    ensures
        final(board).wf(),
        final(board).radius == old(board).radius,
        final(board).cells@ == old(board).cells@,
        old(board).owners_below(old(players).players@.len() as int) ==> final(board).owners_below(
            old(players).players@.len() as int,
        ),
        final(players).wf(),
        r.is_ok() <==> old(board).piece_at(mv.from).is_some() && (mv.to.is_none() || (old(
            board,
        ).valid(mv.to.unwrap()) && old(board).piece_at(mv.to.unwrap()).is_none())),
        old(board).piece_at(mv.from).is_none() ==> r == Err::<Effect, GameError>(GameError::CellEmpty),
        old(board).piece_at(mv.from).is_some() && mv.to.is_some() && !old(board).valid(mv.to.unwrap())
            ==> r == Err::<Effect, GameError>(GameError::CellOutOfBounds),
        old(board).piece_at(mv.from).is_some() && mv.to.is_some() && old(board).piece_at(
            mv.to.unwrap(),
        ).is_some() ==> r == Err::<Effect, GameError>(GameError::CellOccupied),
        r.is_err() ==> *final(board) == *old(board) && *final(players) == *old(players),
        r.is_ok() ==> final(board)@ == apply_one(old(board)@, mv) && r == Ok::<Effect, GameError>(
            effect_of(old(board)@, mv),
        ),
        r.is_ok() ==> forall|k: int|
            #![trigger final(board).on_board(k)]
            final(board).on_board(k) == old(board).on_board(k) - if mv.to.is_none() {
                holds(old(board)@[mv.from], k)
            } else {
                0
            },
        r.is_ok() && mv.to.is_some() ==> *final(players) == *old(players),
        r.is_ok() && mv.to.is_none() ==> ({
            let o = old(board)@[mv.from].unwrap().owner.0 as int;
            let inv = old(players).players@[o].inventory;
            final(players).same_but(old(players), o, Inventory { kittens: (inv.kittens + 1) as u8, ..inv })
        }),
{
    let ghost b0 = *board;
    match mv.to {
        None => {
            let p = match board.clear_cat_cell(mv.from) {
                Ok(p) => p,
                Err(e) => {
                    return Err(e);
                },
            };
            proof {
                b0.lemma_valid_has_index(mv.from);
                let i = b0.index_of(mv.from);
                assert forall|k: int| #![trigger board.on_board(k)] board.on_board(k) == b0.on_board(k) - holds(b0@[mv.from], k) by {
                    lemma_owned_count_update(b0.cats@, i, None, k);
                }
                assert(b0.cats@[i].is_some());
                if b0.owners_below(players.players@.len() as int) {
                    assert forall|q: int| 0 <= q < board.cats@.len() && (#[trigger] board.cats@[q]).is_some() implies board.cats@[q].unwrap().owner.0 < players.players@.len() by {
                        assert(board.cats@[q] == b0.cats@[q]);
                    }
                }
            }
            players.gain_kitten(p.owner);
            proof {
                assert(board@ =~= apply_one(b0@, mv));
            }
            Ok(Effect::Removed { piece: p, from: mv.from })
        },
        Some(to) => {
            let p = match board.move_piece(mv.from, to) {
                Ok(p) => p,
                Err(e) => {
                    return Err(e);
                },
            };
            proof {
                b0.lemma_valid_has_index(mv.from);
                b0.lemma_valid_has_index(to);
                let i = b0.index_of(mv.from);
                let j = b0.index_of(to);
                assert(i != j);
                let s1 = b0.cats@.update(i, None);
                assert forall|k: int| #![trigger board.on_board(k)] board.on_board(k) == b0.on_board(k) by {
                    lemma_owned_count_update(b0.cats@, i, None, k);
                    lemma_owned_count_update(s1, j, b0@[mv.from], k);
                }
                if b0.owners_below(players.players@.len() as int) {
                    assert forall|q: int| 0 <= q < board.cats@.len() && (#[trigger] board.cats@[q]).is_some() implies board.cats@[q].unwrap().owner.0 < players.players@.len() by {
                        if q != i && q != j {
                            assert(board.cats@[q] == b0.cats@[q]);
                        }
                    }
                }
            }
            Ok(Effect::Moved { piece: p, from: mv.from, to })
        },
    }
}

/// Plans the pushes of a piece of kind `cat` and owner `player` just placed
/// on `position`: for each direction in order, a neighbour that the piece may
/// boop goes one cell further out; off the board when that cell is not on
/// it; nowhere when that cell holds a piece. All are read off the board as it
/// stands.
pub fn plan(board: &Board, cat: Cat, position: Hex, player: PlayerId, rules: Rules) -> (r: Vec<
    MoveCat,
>)
    requires
        board.wf(),
        board.valid(position),
    ensures
        r@ == plan_spec(board@, position, cat, player, rules),
{
    let mut moves: Vec<MoveCat> = Vec::new();
    let mut k: usize = 0;
    while k < 6
        invariant
            k <= 6,
            board.wf(),
            board.valid(position),
            moves@ == plan_upto(board@, position, cat, player, rules, k as nat),
        decreases 6 - k,
    {
        proof {
            lemma_step_exact(position, board.radius as int, k as int, 1);
            lemma_step_exact(position, board.radius as int, k as int, 2);
        }
        let n = position.neighbor(k);
        let b = n.neighbor(k);
        assert(b == step(position, k as int, 2));
        match board.cat_by_hex(n) {
            Some(q) => {
                if cat.can_boop(q.cat) && (rules.boop_own_pieces || q.owner != player) {
                    if board.cell_by_hex(b).is_none() {
                        moves.push(MoveCat { from: n, to: None });
                    } else if board.cat_by_hex(b).is_none() {
                        moves.push(MoveCat { from: n, to: Some(b) });
                    }
                }
            },
            None => {},
        }
        k = k + 1;
    }
    moves
}

/// The boop pass of a piece of kind `cat` and owner `player` just placed on
/// `position`: plans every push on the board as it stands, then carries them
/// out. A piece pushed off the board goes back to its owner as a kitten.
pub fn boop(
    board: &mut Board,
    players: &mut Players,
    cat: Cat,
    position: Hex,
    player: PlayerId,
    rules: Rules,
) -> (r: Vec<Effect>)
    requires
        old(board).wf(),
        old(players).wf(),
        old(board).valid(position),
        old(board).owners_below(old(players).players@.len() as int),
        forall|k: int|
            0 <= k < old(players).players@.len() ==> old(players).kittens(k) + old(board).on_board(k)
                <= 255,
    ensures
        final(board).wf(),
        final(board).radius == old(board).radius,
        final(board).cells@ == old(board).cells@,
        final(board).owners_below(old(players).players@.len() as int),
        final(players).wf(),
        final(players).same_roster(old(players)),
        ({
            let moves = plan_spec(old(board)@, position, cat, player, rules);
            &&& final(board)@ == apply_moves(old(board)@, moves)
            &&& r@ == moves.map_values(|mv: MoveCat| effect_of(old(board)@, mv))
            &&& forall|k: int|
                0 <= k < old(players).players@.len() ==> #[trigger] final(players).kittens(k)
                    == old(players).kittens(k) + removed_count(old(board)@, moves, k)
        }),
        forall|k: int|
            0 <= k < old(players).players@.len() ==> #[trigger] final(players).cats(k) == old(
                players,
            ).cats(k),
        forall|k: int|
            0 <= k < old(players).players@.len() ==> #[trigger] final(players).kittens(k)
                + final(board).on_board(k) == old(players).kittens(k) + old(board).on_board(k),
{
    let moves = plan(board, cat, position, player, rules);
    let ghost snap = board@;
    let ghost b0 = *board;
    let ghost pl0 = *players;
    let ghost n = players.players@.len() as int;
    proof {
        lemma_plan_facts(snap, position, cat, player, rules, board.radius as int, 6);
    }
    let mut effects: Vec<Effect> = Vec::new();
    let mut i: usize = 0;
    while i < moves.len()
        invariant
            i <= moves@.len(),
            moves@ == plan_spec(snap, position, cat, player, rules),
            forall|i1: int, i2: int|
                0 <= i1 < i2 < moves@.len() ==> apart(#[trigger] moves@[i1], #[trigger] moves@[i2]),
            forall|q: int| 0 <= q < moves@.len() ==> sound(snap, #[trigger] moves@[q]),
            snap == b0@,
            board.wf(),
            board.radius == b0.radius,
            board.cells@ == b0.cells@,
            board@ == apply_moves(snap, moves@.take(i as int)),
            board.owners_below(n),
            players.wf(),
            players.same_roster(&pl0),
            players.players@.len() == n,
            effects@ == moves@.take(i as int).map_values(|mv: MoveCat| effect_of(snap, mv)),
            forall|k: int|
                0 <= k < n ==> #[trigger] players.kittens(k) == pl0.kittens(k) + removed_count(
                    snap,
                    moves@.take(i as int),
                    k,
                ),
            forall|k: int| 0 <= k < n ==> #[trigger] players.cats(k) == pl0.cats(k),
            forall|k: int|
                0 <= k < n ==> #[trigger] players.kittens(k) + board.on_board(k) == pl0.kittens(k)
                    + b0.on_board(k),
            forall|k: int| 0 <= k < n ==> pl0.kittens(k) + #[trigger] b0.on_board(k) <= 255,
        decreases moves@.len() - i,
    {
        let mv = moves[i];
        let ghost done = moves@.take(i as int);
        proof {
            assert forall|q: int| 0 <= q < done.len() implies sound(snap, #[trigger] done[q]) by {
                assert(done[q] == moves@[q]);
            }
            assert forall|q: int| 0 <= q < done.len() implies !touches(#[trigger] done[q], mv.from) by {
                assert(done[q] == moves@[q]);
                assert(apart(moves@[q], moves@[i as int]));
            }
            lemma_apply_untouched(snap, done, mv.from);
            if mv.to.is_some() {
                assert forall|q: int| 0 <= q < done.len() implies !touches(#[trigger] done[q], mv.to.unwrap()) by {
                    assert(done[q] == moves@[q]);
                    assert(apart(moves@[q], moves@[i as int]));
                }
                lemma_apply_untouched(snap, done, mv.to.unwrap());
            }
            assert(sound(snap, moves@[i as int]));
            assert(board@.contains_key(mv.from));
            board.lemma_valid_has_index(mv.from);
            if mv.to.is_none() {
                let o = board@[mv.from].unwrap().owner.0 as int;
                assert(board.cats@[board.index_of(mv.from)].is_some());
                assert(o < n);
                lemma_owned_count_positive(board.cats@, board.index_of(mv.from), o);
                assert(players.kittens(o) + board.on_board(o) <= 255);
            }
        }
        let ghost pb = *players;
        let ghost bb = *board;
        let e = move_cat(board, players, mv);
        match e {
            Ok(e) => {
                effects.push(e);
            },
            Err(_) => {
                assert(false);
            },
        }
        proof {
            let next = moves@.take(i + 1);
            assert(next.drop_last() =~= done);
            assert(next.last() == mv);
            assert(effects@ =~= next.map_values(|mv: MoveCat| effect_of(snap, mv)));
            assert(bb@[mv.from] == snap[mv.from]);
            assert forall|k: int| 0 <= k < n implies #[trigger] players.kittens(k) == pl0.kittens(k)
                + removed_count(snap, next, k) && players.cats(k) == pl0.cats(k) && players.kittens(k)
                + board.on_board(k) == pl0.kittens(k) + b0.on_board(k) by {
                assert(pb.kittens(k) == pl0.kittens(k) + removed_count(snap, done, k));
                assert(pb.kittens(k) + bb.on_board(k) == pl0.kittens(k) + b0.on_board(k));
                assert(pb.cats(k) == pl0.cats(k));
                assert(board.on_board(k) == bb.on_board(k) - if mv.to.is_none() {
                    holds(bb@[mv.from], k)
                } else {
                    0
                });
                if mv.to.is_none() {
                    let o = bb@[mv.from].unwrap().owner.0 as int;
                    if k == o {
                        assert(holds(bb@[mv.from], k) == 1);
                    } else {
                        assert(holds(bb@[mv.from], k) == 0);
                        assert(players.players@[k].inventory == pb.players@[k].inventory);
                    }
                } else {
                    assert(players.players@[k] == pb.players@[k]);
                }
            }
            assert forall|k: int| 0 <= k < n implies #[trigger] players.cats(k) == pl0.cats(k) by {
                assert(players.kittens(k) == pl0.kittens(k) + removed_count(snap, next, k));
            }
        }
        i = i + 1;
    }
    proof {
        assert(moves@.take(moves@.len() as int) =~= moves@);
    }
    effects
}

} // verus!
