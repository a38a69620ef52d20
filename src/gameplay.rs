//! One game: the board, the players, the phase, and the full turn from a
//! placement request to the next player.

use vstd::prelude::*;

use crate::board::{lemma_owned_count_bounds, lemma_owned_count_update, Board, MapSettings};
use crate::boop::{apply_moves, boop, effect_of, plan_spec, removed_count, Effect, MoveCat};
use crate::cats::{Cat, Piece};
use crate::error::GameError;
use crate::hex::{Hex, MAX_RADIUS};
use crate::players::{next_index, Inventory, PlayerId, Players};
use crate::rules::Rules;
use crate::win::{draw_condition, has_row, is_first_winner, win_condition};

verus! {

/// Phase of a game.
#[derive(Clone, Copy, Debug, PartialEq, Eq, Structural)]
pub enum GameState {
    /// Being set up; no moves yet.
    Loading,
    Playing,
    /// Won, or drawn when `Game::winner` is none.
    GameOver,
}

/// What a successful turn did.
pub struct Turn {
    /// The placement, then each boop in direction order.
    pub effects: Vec<Effect>,
    pub game_over: bool,
    pub winner: Option<PlayerId>,
}

pub struct Game {
    pub board: Board,
    pub players: Players,
    pub state: GameState,
    pub winner: Option<PlayerId>,
    pub rules: Rules,
    /// The hand each player starts with.
    pub start: Inventory,
    /// Identity of the next piece placed.
    pub next_id: u64,
}

impl Game {
    /// Board and players are well formed, every piece belongs to a player,
    /// a winner is only named once the game is over, and no piece is made or lost: each player's kittens in hand and on the
    /// board add up to the starting kittens.
    pub open spec fn wf(&self) -> bool {
        &&& self.board.wf()
        &&& self.players.wf()
        &&& self.board.owners_below(self.players.players@.len() as int)
        &&& (self.winner.is_some() ==> self.state == GameState::GameOver)
        &&& forall|k: int|
            0 <= k < self.players.players@.len() ==> #[trigger] self.players.kittens(k)
                + self.board.on_board(k) == self.start.kittens && self.players.cats(k) == self.start.cats
    }

    /// Only the board, the hands, the turn and the piece counter changed.
    pub open spec fn same_setup(&self, old: &Game) -> bool {
        &&& self.rules == old.rules
        &&& self.start == old.start
        &&& self.board.radius == old.board.radius
        &&& self.board.cells@ == old.board.cells@
        &&& self.players.players@.len() == old.players.players@.len()
        &&& forall|j: int|
            0 <= j < self.players.players@.len() ==> (#[trigger] self.players.players@[j]).id
                == old.players.players@[j].id && self.players.players@[j].name@
                == old.players.players@[j].name@
    }

    /// A game being set up: an empty board of the given radius, one player
    /// per name with `start` in hand, player 0 to move.
    pub fn new(settings: MapSettings, names: Vec<String>, start: Inventory, rules: Rules) -> (r: Game)
        requires
            settings.map_radius <= MAX_RADIUS,
            1 <= names@.len() <= 256,
        ensures
            r.wf(),
            r.state == GameState::Loading,
            r.winner.is_none(),
            r.rules == rules,
            r.start == start,
            r.board.radius == settings.map_radius,
            forall|h: Hex| #[trigger] r.board@.contains_key(h) ==> r.board@[h].is_none(),
            r.players.current_player == 0,
            r.players.players@.len() == names@.len(),
            forall|k: int|
                0 <= k < names@.len() ==> (#[trigger] r.players.players@[k]).inventory == start
                    && r.players.players@[k].name@ == names@[k]@,
    {
        let board = Board::new(settings);
        let players = Players::new(names, start);
        let g = Game {
            board,
            players,
            state: GameState::Loading,
            winner: None,
            rules,
            start,
            next_id: 0,
        };
        proof {
            assert forall|k: int| 0 <= k < g.players.players@.len() implies #[trigger] g.players.kittens(k)
                + g.board.on_board(k) == g.start.kittens && g.players.cats(k) == g.start.cats by {
                lemma_owned_count_bounds(g.board.cats@, k);
            }
        }
        g
    }

    /// The setup is done: a game being set up starts.
    pub fn finish_loading(&mut self)
        requires
            old(self).wf(),
        ensures
            final(self).wf(),
            final(self).state == if old(self).state == GameState::Loading {
                GameState::Playing
            } else {
                old(self).state
            },
            final(self).board == old(self).board,
            final(self).players == old(self).players,
            final(self).winner == old(self).winner,
            final(self).same_setup(old(self)),
            final(self).next_id == old(self).next_id,
    {
        if self.state == GameState::Loading {
            self.state = GameState::Playing;
        }
    }

    /// Puts a kitten of the player to move on `hex`, from their hand, while
    /// the game is being played.
    pub fn place_kitten(&mut self, hex: Hex) -> (r: Result<Piece, GameError>)
        requires
            old(self).wf(),
        ensures
            final(self).wf(),
            ({
                let cur = old(self).players.current_player as int;
                let inv = old(self).players.players@[cur].inventory;
                let playing = old(self).state == GameState::Playing;
                let ok = playing && old(self).board.valid(hex) && old(self).board@[hex].is_none()
                    && inv.kittens > 0;
                &&& !playing ==> r == Err::<Piece, GameError>(GameError::GameNotInPlayingPhase)
                &&& playing && !old(self).board.valid(hex) ==> r == Err::<Piece, GameError>(
                    GameError::CellOutOfBounds,
                )
                &&& playing && old(self).board.valid(hex) && old(self).board@[hex].is_some() ==> r
                    == Err::<Piece, GameError>(GameError::CellOccupied)
                &&& playing && old(self).board.valid(hex) && old(self).board@[hex].is_none()
                    && inv.kittens == 0 ==> r == Err::<Piece, GameError>(GameError::OutOfStock)
                &&& r.is_ok() == ok
                &&& r.is_err() ==> *final(self) == *old(self)
                &&& r.is_ok() ==> {
                    let piece = Piece { id: old(self).next_id, owner: PlayerId(cur as u8), cat: Cat::Kitten };
                    &&& r == Ok::<Piece, GameError>(piece)
                    &&& final(self).board@ == old(self).board@.insert(hex, Some(piece))
                    &&& final(self).players.same_but(
                        &old(self).players,
                        cur,
                        Inventory { kittens: (inv.kittens - 1) as u8, ..inv },
                    )
                    &&& final(self).state == old(self).state
                    &&& final(self).winner == old(self).winner
                    &&& final(self).same_setup(old(self))
                    &&& final(self).next_id == if old(self).next_id == u64::MAX {
                        0
                    } else {
                        (old(self).next_id + 1) as u64
                    }
                }
            }),
    {
        if self.state != GameState::Playing {
            return Err(GameError::GameNotInPlayingPhase);
        }
        if self.board.cell_by_hex(hex).is_none() {
            return Err(GameError::CellOutOfBounds);
        }
        if self.board.cat_by_hex(hex).is_some() {
            return Err(GameError::CellOccupied);
        }
        if self.players.current().inventory.kittens == 0 {
            return Err(GameError::OutOfStock);
        }
        let owner = self.players.current().id;
        let ghost g0 = *self;
        let cat = match self.players.take_kitten() {
            Some(cat) => cat,
            None => {
                assert(false);
                Cat::Kitten
            },
        };
        let piece = Piece { id: self.next_id, owner, cat };
        let placed = self.board.add_cat(hex, piece);
        match placed {
            Ok(()) => {},
            Err(_) => {
                assert(false);
            },
        }
        self.next_id = if self.next_id == u64::MAX {
            0
        } else {
            self.next_id + 1
        };
        proof {
            let cur = g0.players.current_player as int;
            g0.board.lemma_valid_has_index(hex);
            let i = g0.board.index_of(hex);
            assert forall|k: int| 0 <= k < self.players.players@.len() implies #[trigger] self.players.kittens(k)
                + self.board.on_board(k) == self.start.kittens && self.players.cats(k) == self.start.cats by {
                lemma_owned_count_update(g0.board.cats@, i, Some(piece), k);
                assert(g0.players.kittens(k) + g0.board.on_board(k) == g0.start.kittens);
                if k != cur {
                    assert(self.players.players@[k].inventory == g0.players.players@[k].inventory);
                }
            }
            assert forall|q: int| 0 <= q < self.board.cats@.len() && (#[trigger] self.board.cats@[q]).is_some() implies self.board.cats@[q].unwrap().owner.0 < self.players.players@.len() by {
                if q != i {
                    assert(self.board.cats@[q] == g0.board.cats@[q]);
                }
            }
        }
        Ok(piece)
    }

    /// One full turn for `player` placing a kitten on `hex`: checks that the
    /// game is on and that it is their turn, places the kitten, boops its
    /// neighbours, then ends the game on a row or when nobody can act, or
    /// else passes the turn to the next player who can act.
    pub fn request_placement(&mut self, hex: Hex, player: PlayerId) -> (r: Result<Turn, GameError>)
        requires
            old(self).wf(),
        ensures
            final(self).wf(),
            final(self).same_setup(old(self)),
            ({
                let cur = old(self).players.current_player as int;
                let inv = old(self).players.players@[cur].inventory;
                let playing = old(self).state == GameState::Playing;
                let turn = playing && player.0 == cur;
                let ok = turn && old(self).board.valid(hex) && old(self).board@[hex].is_none() && inv.kittens
                    > 0;
                &&& !playing ==> r == Err::<Turn, GameError>(GameError::GameNotInPlayingPhase)
                &&& playing && player.0 != cur ==> r == Err::<Turn, GameError>(GameError::NotYourTurn)
                &&& turn && !old(self).board.valid(hex) ==> r == Err::<Turn, GameError>(
                    GameError::CellOutOfBounds,
                )
                &&& turn && old(self).board.valid(hex) && old(self).board@[hex].is_some() ==> r == Err::<
                    Turn,
                    GameError,
                >(GameError::CellOccupied)
                &&& turn && old(self).board.valid(hex) && old(self).board@[hex].is_none() && inv.kittens
                    == 0 ==> r == Err::<Turn, GameError>(GameError::OutOfStock)
                &&& r.is_ok() == ok
                &&& r.is_err() ==> *final(self) == *old(self)
            }),
            r.is_ok() ==> ({
                let n = old(self).players.players@.len() as int;
                let piece = Piece { id: old(self).next_id, owner: player, cat: Cat::Kitten };
                let placed = old(self).board@.insert(hex, Some(piece));
                let moves = plan_spec(placed, hex, Cat::Kitten, player, old(self).rules);
                let turn = r.unwrap();
                &&& final(self).board@ == apply_moves(placed, moves)
                &&& turn.effects@ == seq![Effect::Placed { piece, at: hex }] + moves.map_values(
                    |mv: MoveCat| effect_of(placed, mv),
                )
                &&& forall|k: int|
                    0 <= k < n ==> #[trigger] final(self).players.kittens(k) == old(self).players.kittens(k)
                        - (if k == player.0 {
                        1int
                    } else {
                        0int
                    }) + removed_count(placed, moves, k)
                &&& final(self).winner.is_some() ==> final(self).state == GameState::GameOver
                    && is_first_winner(final(self).board@, n, final(self).winner.unwrap().0 as int, final(self).rules)
                &&& final(self).winner.is_none() ==> forall|q: int|
                    0 <= q < n ==> !has_row(final(self).board@, q, final(self).rules)
                &&& final(self).winner.is_none() ==> (final(self).state == GameState::GameOver <==> forall|
                    k: int,
                | 0 <= k < n ==> !(#[trigger] final(self).players.players@[k]).can_act())
                &&& final(self).state == GameState::GameOver || final(self).state == GameState::Playing
                &&& final(self).state == GameState::Playing ==> final(self).players.current_player
                    == next_index(final(self).players.players@, old(self).players.current_player as int)
                &&& turn.game_over == (final(self).state == GameState::GameOver)
                &&& turn.winner == final(self).winner
                &&& final(self).next_id == if old(self).next_id == u64::MAX {
                    0
                } else {
                    (old(self).next_id + 1) as u64
                }
            }),
    {
        if self.state != GameState::Playing {
            return Err(GameError::GameNotInPlayingPhase);
        }
        if player.0 as usize != self.players.current_player {
            return Err(GameError::NotYourTurn);
        }
        let ghost g0 = *self;
        let piece = match self.place_kitten(hex) {
            Ok(p) => p,
            Err(e) => {
                return Err(e);
            },
        };
        let ghost g1 = *self;
        proof {
            assert forall|k: int| 0 <= k < self.players.players@.len() implies self.players.kittens(k)
                + #[trigger] self.board.on_board(k) <= 255 by {
                assert(self.players.kittens(k) + self.board.on_board(k) == self.start.kittens);
            }
        }
        let mut effects: Vec<Effect> = Vec::new();
        effects.push(Effect::Placed { piece, at: hex });
        let rules = self.rules;
        let mut pushed = boop(&mut self.board, &mut self.players, Cat::Kitten, hex, player, rules);
        effects.append(&mut pushed);
        proof {
            assert forall|k: int| 0 <= k < self.players.players@.len() implies #[trigger] self.players.kittens(k)
                + self.board.on_board(k) == self.start.kittens && self.players.cats(k) == self.start.cats by {
                assert(g1.players.kittens(k) + g1.board.on_board(k) == self.start.kittens);
                assert(g1.players.cats(k) == self.start.cats);
                assert(self.players.cats(k) == g1.players.cats(k));
            }
            assert forall|k: int| 0 <= k < g0.players.players@.len() implies #[trigger] g1.players.kittens(k)
                == g0.players.kittens(k) - (if k == player.0 { 1int } else { 0int }) by {
                if k != player.0 {
                    assert(g1.players.players@[k].inventory == g0.players.players@[k].inventory);
                }
            }
        }
        let ghost g2 = *self;
        match win_condition(&self.board, &self.players, rules) {
            Some(w) => {
                self.state = GameState::GameOver;
                self.winner = Some(w);
            },
            None => {
                if draw_condition(&self.players) {
                    self.state = GameState::GameOver;
                    self.winner = None;
                } else {
                    let ghost before = self.players;
                    self.players.next_player();
                    proof {
                        assert(self.players.players@ == before.players@);
                    }
                }
            },
        }
        proof {
            assert(self.players.players@ == g2.players.players@);
            assert(self.board == g2.board);
            assert forall|k: int| 0 <= k < self.players.players@.len() implies #[trigger] self.players.kittens(k)
                + self.board.on_board(k) == self.start.kittens && self.players.cats(k) == self.start.cats by {
                assert(g2.players.kittens(k) + g2.board.on_board(k) == self.start.kittens);
                assert(g2.players.cats(k) == self.start.cats);
            }
        }
        proof {
            let n = g0.players.players@.len() as int;
            let placed = g0.board@.insert(hex, Some(piece));
            let moves = plan_spec(placed, hex, Cat::Kitten, player, g0.rules);
            assert(piece == Piece { id: g0.next_id, owner: player, cat: Cat::Kitten });
            assert(g1.board@ == placed);
            assert(self.board@ == apply_moves(placed, moves));
            assert forall|k: int| 0 <= k < n implies #[trigger] self.players.kittens(k) == g0.players.kittens(k)
                - (if k == player.0 { 1int } else { 0int }) + removed_count(placed, moves, k) by {
                assert(g2.players.kittens(k) == g1.players.kittens(k) + removed_count(placed, moves, k));
            }
            assert(effects@ =~= seq![Effect::Placed { piece, at: hex }] + moves.map_values(
                |mv: MoveCat| effect_of(placed, mv),
            ));
        }
        let game_over = self.state == GameState::GameOver;
        Ok(Turn { effects, game_over, winner: self.winner })
    }

    /// Starts over from any state: an empty board, every player holding the
    /// starting hand, player 0 to move, and the game on.
    pub fn reset_game(&mut self)
        requires
            old(self).wf(),
        ensures
            final(self).wf(),
            final(self).same_setup(old(self)),
            final(self).state == GameState::Playing,
            final(self).winner.is_none(),
            final(self).players.current_player == 0,
            final(self).board@.dom() == old(self).board@.dom(),
            forall|h: Hex| #[trigger] final(self).board@.contains_key(h) ==> final(self).board@[h].is_none(),
            forall|k: int|
                0 <= k < final(self).players.players@.len() ==> (#[trigger] final(self).players.players@[k]).inventory
                    == old(self).start,
            final(self).next_id == old(self).next_id,
    {
        self.board.clear();
        let start = self.start;
        self.players.reset(start);
        self.state = GameState::Playing;
        self.winner = None;
        proof {
            assert forall|k: int| 0 <= k < self.players.players@.len() implies #[trigger] self.players.kittens(k)
                + self.board.on_board(k) == self.start.kittens && self.players.cats(k) == self.start.cats by {
                lemma_owned_count_bounds(self.board.cats@, k);
                assert(self.players.players@[k].inventory == start);
            }
        }
    }
}

} // verus!
