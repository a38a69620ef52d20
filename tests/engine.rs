use boop::board::{Board, MapSettings};
use boop::boop::{move_cat, plan, Effect, MoveCat};
use boop::cats::{Cat, Piece};
use boop::error::GameError;
use boop::gameplay::{Game, GameState};
use boop::hex::{in_hexagon, neighbor_coord, Hex};
use boop::players::{Inventory, PlayerId, Players};
use boop::rules::Rules;
use boop::win::{draw_condition, win_condition};

fn names(n: usize) -> Vec<String> {
    (0..n).map(|i| format!("P{}", i)).collect()
}

fn game(radius: u32, start: Inventory, rules: Rules) -> Game {
    let mut g = Game::new(MapSettings { map_radius: radius }, names(2), start, rules);
    g.finish_loading();
    g
}

fn kittens(g: &Game, k: usize) -> u8 {
    g.players.players[k].inventory.kittens
}

fn owner_at(g: &Game, x: i32, y: i32) -> Option<u8> {
    g.board.cat_by_hex(Hex::new(x, y)).map(|p| p.owner.0)
}

fn piece(id: u64, owner: u8, cat: Cat) -> Piece {
    Piece { id, owner: PlayerId(owner), cat }
}

#[test]
fn neighbour_order_is_fixed() {
    let expected = [(1, -1), (0, -1), (-1, 0), (-1, 1), (0, 1), (1, 0)];
    for (k, (x, y)) in expected.iter().enumerate() {
        assert_eq!(neighbor_coord(k), Hex::new(*x, *y));
        assert_eq!(Hex::new(3, 4).neighbor(k), Hex::new(3 + x, 4 + y));
    }
}

#[test]
fn hexagon_region_sizes() {
    assert_eq!(Board::new(MapSettings { map_radius: 0 }).cells.len(), 1);
    assert_eq!(Board::new(MapSettings { map_radius: 1 }).cells.len(), 7);
    let b = Board::new(MapSettings::default());
    assert_eq!(b.cells.len(), 37);
    assert!(b.cats.iter().all(|c| c.is_none()));
    assert!(b.cell_by_hex(Hex::new(3, -3)).is_some());
    assert!(b.cell_by_hex(Hex::new(3, 1)).is_none());
    assert!(in_hexagon(Hex::new(-1, 1), 1));
    assert!(!in_hexagon(Hex::new(1, 1), 1));
    assert!(!in_hexagon(Hex::new(2, 0), 1));
}

#[test]
fn cell_ids_map_to_hexes() {
    let b = Board::new(MapSettings { map_radius: 1 });
    for i in 0..b.cells.len() {
        let h = b.cell_by_entity(i).unwrap();
        assert_eq!(b.cell_by_hex(h), Some(i));
    }
    assert_eq!(b.cell_by_entity(7), None);
}

#[test]
fn boop_eligibility_by_kind() {
    assert!(Cat::Adult.can_boop(Cat::Adult));
    assert!(Cat::Adult.can_boop(Cat::Kitten));
    assert!(Cat::Kitten.can_boop(Cat::Kitten));
    assert!(!Cat::Kitten.can_boop(Cat::Adult));
}

#[test]
fn board_place_remove_move() {
    let mut b = Board::new(MapSettings { map_radius: 1 });
    let p = piece(1, 0, Cat::Kitten);
    assert_eq!(b.add_cat(Hex::new(2, 0), p), Err(GameError::CellOutOfBounds));
    assert_eq!(b.add_cat(Hex::new(0, 0), p), Ok(()));
    assert_eq!(b.add_cat(Hex::new(0, 0), piece(2, 1, Cat::Kitten)), Err(GameError::CellOccupied));
    assert_eq!(b.cat_by_hex(Hex::new(0, 0)), Some(p));
    assert_eq!(b.cat_by_entity(1), Some(Hex::new(0, 0)));
    assert_eq!(b.cat_by_entity(2), None);
    assert_eq!(b.move_piece(Hex::new(1, 0), Hex::new(0, 1)), Err(GameError::CellEmpty));
    assert_eq!(b.move_piece(Hex::new(0, 0), Hex::new(0, 2)), Err(GameError::CellOutOfBounds));
    assert_eq!(b.move_piece(Hex::new(0, 0), Hex::new(0, 1)), Ok(p));
    assert_eq!(b.cat_by_hex(Hex::new(0, 0)), None);
    assert_eq!(b.cat_by_hex(Hex::new(0, 1)), Some(p));
    assert_eq!(b.add_cat(Hex::new(0, 0), piece(3, 1, Cat::Kitten)), Ok(()));
    assert_eq!(b.move_piece(Hex::new(0, 1), Hex::new(0, 0)), Err(GameError::CellOccupied));
    assert_eq!(b.clear_cat_cell(Hex::new(0, 1)), Ok(p));
    assert_eq!(b.clear_cat_cell(Hex::new(0, 1)), Err(GameError::CellEmpty));
    b.clear();
    assert!(b.cats.iter().all(|c| c.is_none()));
}

#[test]
fn players_take_and_gain() {
    let mut ps = Players::default();
    assert_eq!(ps.players.len(), 2);
    assert_eq!(ps.players[0].name, "Green");
    assert_eq!(ps.players[1].name, "Orange");
    assert_eq!(ps.current().id, PlayerId::new(0));
    for _ in 0..6 {
        assert_eq!(ps.take_kitten(), Some(Cat::Kitten));
    }
    assert_eq!(ps.take_kitten(), None);
    assert_eq!(ps.take_cat(), None);
    ps.gain_cats(2);
    assert_eq!(ps.take_cat(), Some(Cat::Adult));
    assert_eq!(ps.players[0].inventory, Inventory::new(0, 1));
    ps.gain_kitten(PlayerId(1));
    assert_eq!(ps.players[1].inventory.kittens, 7);
    assert!(ps.by_id(PlayerId(1)).is_some());
    assert!(ps.by_id(PlayerId(2)).is_none());
}

#[test]
fn next_player_skips_those_who_cannot_act() {
    let mut ps = Players::new(names(3), Inventory::new(1, 0));
    ps.players[1].inventory = Inventory::new(0, 0);
    assert_eq!(ps.next_player().id, PlayerId(2));
    assert_eq!(ps.next_player().id, PlayerId(0));
    ps.players[1].inventory = Inventory::new(0, 0);
    ps.players[2].inventory = Inventory::new(0, 0);
    ps.players[0].inventory = Inventory::new(0, 0);
    assert_eq!(ps.next_player().id, PlayerId(0));
    assert!(draw_condition(&ps));
    ps.players[2].inventory = Inventory::new(0, 1);
    assert!(!draw_condition(&ps));
    assert_eq!(ps.next_player().id, PlayerId(2));
}

#[test]
fn placement_errors_leave_state_unchanged() {
    let mut g = game(1, Inventory::default(), Rules::default());
    assert!(g.request_placement(Hex::new(0, 0), PlayerId(0)).is_ok());
    let board_before = g.board.cats.clone();
    let kittens_before = (kittens(&g, 0), kittens(&g, 1));
    // occupied
    assert_eq!(g.request_placement(Hex::new(0, 0), PlayerId(1)).err(), Some(GameError::CellOccupied));
    // off the board
    assert_eq!(g.request_placement(Hex::new(0, 2), PlayerId(1)).err(), Some(GameError::CellOutOfBounds));
    // not this player's turn
    assert_eq!(g.request_placement(Hex::new(0, 1), PlayerId(0)).err(), Some(GameError::NotYourTurn));
    assert_eq!(g.board.cats, board_before);
    assert_eq!((kittens(&g, 0), kittens(&g, 1)), kittens_before);
    assert_eq!(g.players.current_player, 1);
}

#[test]
fn placing_without_kittens_is_out_of_stock() {
    let mut g = game(2, Inventory::new(0, 3), Rules::default());
    assert_eq!(g.place_kitten(Hex::new(0, 0)), Err(GameError::OutOfStock));
    assert_eq!(g.request_placement(Hex::new(0, 0), PlayerId(0)).err(), Some(GameError::OutOfStock));
    assert!(g.board.cats.iter().all(|c| c.is_none()));
    assert_eq!(g.players.players[0].inventory, Inventory::new(0, 3));
}

#[test]
fn no_moves_before_loading_finishes() {
    let mut g = Game::new(MapSettings::default(), names(2), Inventory::default(), Rules::default());
    assert_eq!(g.state, GameState::Loading);
    assert_eq!(g.request_placement(Hex::new(0, 0), PlayerId(0)).err(), Some(GameError::GameNotInPlayingPhase));
    g.finish_loading();
    assert_eq!(g.state, GameState::Playing);
}

#[test]
fn boop_moves_neighbour_outward() {
    let mut g = game(3, Inventory::default(), Rules::default());
    g.request_placement(Hex::new(0, 0), PlayerId(0)).unwrap();
    let turn = g.request_placement(Hex::new(1, 0), PlayerId(1)).unwrap();
    assert_eq!(owner_at(&g, 0, 0), None);
    assert_eq!(owner_at(&g, -1, 0), Some(0));
    assert_eq!(owner_at(&g, 1, 0), Some(1));
    assert_eq!(turn.effects.len(), 2);
    assert!(matches!(turn.effects[0], Effect::Placed { at, .. } if at == Hex::new(1, 0)));
    assert!(matches!(turn.effects[1], Effect::Moved { from, to, .. } if from == Hex::new(0, 0) && to == Hex::new(-1, 0)));
}

#[test]
fn boop_off_board_returns_a_kitten() {
    let mut g = game(1, Inventory::default(), Rules::default());
    g.request_placement(Hex::new(1, 0), PlayerId(0)).unwrap();
    assert_eq!(kittens(&g, 0), 5);
    let turn = g.request_placement(Hex::new(0, 0), PlayerId(1)).unwrap();
    assert_eq!(owner_at(&g, 1, 0), None);
    assert_eq!(kittens(&g, 0), 6);
    assert_eq!(kittens(&g, 1), 5);
    assert!(matches!(turn.effects[1], Effect::Removed { piece, from } if piece.owner == PlayerId(0) && from == Hex::new(1, 0)));
}

#[test]
fn blocked_boop_leaves_piece() {
    let mut g = game(3, Inventory::default(), Rules::default());
    g.board.add_cat(Hex::new(-1, 0), piece(100, 0, Cat::Kitten)).unwrap();
    g.board.add_cat(Hex::new(-2, 0), piece(101, 0, Cat::Kitten)).unwrap();
    let before = g.board.cats.clone();
    let moves = plan(&g.board, Cat::Kitten, Hex::new(0, 0), PlayerId(1), Rules::default());
    assert!(moves.is_empty());
    // the two pieces came from player 0's hand
    g.players.players[0].inventory.kittens = 4;
    g.players.current_player = 1;
    let turn = g.request_placement(Hex::new(0, 0), PlayerId(1)).unwrap();
    assert_eq!(turn.effects.len(), 1);
    assert_eq!(owner_at(&g, 0, 0), Some(1));
    assert_eq!(owner_at(&g, -1, 0), Some(0));
    assert_eq!(owner_at(&g, -2, 0), Some(0));
    let mut expected = before;
    let origin = g.board.cell_by_hex(Hex::new(0, 0)).unwrap();
    expected[origin] = g.board.cats[origin];
    assert_eq!(g.board.cats, expected);
    assert_eq!(kittens(&g, 0), 4);
    assert_eq!(kittens(&g, 1), 5);
}

#[test]
fn kitten_does_not_boop_adult() {
    let mut b = Board::new(MapSettings::default());
    b.add_cat(Hex::new(1, 0), piece(1, 0, Cat::Adult)).unwrap();
    b.add_cat(Hex::new(0, 1), piece(2, 0, Cat::Kitten)).unwrap();
    let kitten_moves = plan(&b, Cat::Kitten, Hex::new(0, 0), PlayerId(1), Rules::default());
    assert_eq!(kitten_moves, vec![MoveCat { from: Hex::new(0, 1), to: Some(Hex::new(0, 2)) }]);
    let adult_moves = plan(&b, Cat::Adult, Hex::new(0, 0), PlayerId(1), Rules::default());
    assert_eq!(
        adult_moves,
        vec![
            MoveCat { from: Hex::new(0, 1), to: Some(Hex::new(0, 2)) },
            MoveCat { from: Hex::new(1, 0), to: Some(Hex::new(2, 0)) },
        ]
    );
}

#[test]
fn own_pieces_rule_variant() {
    let mut b = Board::new(MapSettings::default());
    b.add_cat(Hex::new(1, 0), piece(1, 0, Cat::Kitten)).unwrap();
    b.add_cat(Hex::new(-1, 0), piece(2, 1, Cat::Kitten)).unwrap();
    let strict = Rules { boop_own_pieces: false, adults_in_rows: false };
    assert_eq!(
        plan(&b, Cat::Kitten, Hex::new(0, 0), PlayerId(0), strict),
        vec![MoveCat { from: Hex::new(-1, 0), to: Some(Hex::new(-2, 0)) }]
    );
    assert_eq!(plan(&b, Cat::Kitten, Hex::new(0, 0), PlayerId(0), Rules::default()).len(), 2);
}

#[test]
fn three_in_a_row_wins_two_do_not() {
    let mut b = Board::new(MapSettings::default());
    let ps = Players::default();
    b.add_cat(Hex::new(0, 0), piece(1, 1, Cat::Kitten)).unwrap();
    b.add_cat(Hex::new(0, 1), piece(2, 1, Cat::Kitten)).unwrap();
    assert_eq!(win_condition(&b, &ps, Rules::default()), None);
    b.add_cat(Hex::new(1, 1), piece(3, 1, Cat::Kitten)).unwrap();
    assert_eq!(win_condition(&b, &ps, Rules::default()), None);
    b.add_cat(Hex::new(0, 2), piece(4, 1, Cat::Kitten)).unwrap();
    assert_eq!(win_condition(&b, &ps, Rules::default()), Some(PlayerId(1)));
}

#[test]
fn adults_count_only_when_configured() {
    let mut b = Board::new(MapSettings::default());
    let ps = Players::default();
    b.add_cat(Hex::new(-1, 1), piece(1, 0, Cat::Kitten)).unwrap();
    b.add_cat(Hex::new(0, 0), piece(2, 0, Cat::Adult)).unwrap();
    b.add_cat(Hex::new(1, -1), piece(3, 0, Cat::Kitten)).unwrap();
    assert_eq!(win_condition(&b, &ps, Rules::default()), None);
    let with_adults = Rules { boop_own_pieces: true, adults_in_rows: true };
    assert_eq!(win_condition(&b, &ps, with_adults), Some(PlayerId(0)));
}

#[test]
fn lowest_player_wins_a_tie() {
    let mut b = Board::new(MapSettings::default());
    let ps = Players::default();
    for (i, x) in [-3, -2, -1].iter().enumerate() {
        b.add_cat(Hex::new(*x, 0), piece(i as u64, 1, Cat::Kitten)).unwrap();
        b.add_cat(Hex::new(*x, 3), piece(10 + i as u64, 0, Cat::Kitten)).unwrap();
    }
    assert_eq!(win_condition(&b, &ps, Rules::default()), Some(PlayerId(0)));
}

#[test]
fn row_after_placement_ends_game() {
    let mut g = game(3, Inventory::default(), Rules::default());
    g.board.add_cat(Hex::new(-3, 0), piece(100, 0, Cat::Kitten)).unwrap();
    g.board.add_cat(Hex::new(-2, 0), piece(101, 0, Cat::Kitten)).unwrap();
    g.board.add_cat(Hex::new(-1, 0), piece(102, 0, Cat::Kitten)).unwrap();
    g.players.players[0].inventory.kittens = 3;
    let turn = g.request_placement(Hex::new(0, 0), PlayerId(0)).unwrap();
    assert!(turn.game_over);
    assert_eq!(turn.winner, Some(PlayerId(0)));
    assert_eq!(g.state, GameState::GameOver);
    assert_eq!(g.winner, Some(PlayerId(0)));
    assert_eq!(g.request_placement(Hex::new(2, 0), PlayerId(0)).err(), Some(GameError::GameNotInPlayingPhase));
}

#[test]
fn two_in_a_row_keeps_playing() {
    let mut g = game(3, Inventory::default(), Rules::default());
    g.board.add_cat(Hex::new(-3, 0), piece(100, 0, Cat::Kitten)).unwrap();
    g.players.players[0].inventory.kittens = 5;
    let turn = g.request_placement(Hex::new(-3, 1), PlayerId(0)).unwrap();
    assert!(!turn.game_over);
    assert_eq!(g.state, GameState::Playing);
    assert_eq!(g.players.current_player, 1);
}

#[test]
fn last_kitten_ends_in_draw() {
    let mut g = game(3, Inventory::new(1, 0), Rules::default());
    g.request_placement(Hex::new(-3, 0), PlayerId(0)).unwrap();
    let turn = g.request_placement(Hex::new(3, 0), PlayerId(1)).unwrap();
    assert!(turn.game_over);
    assert_eq!(turn.winner, None);
    assert_eq!(g.state, GameState::GameOver);
}

#[test]
fn reset_restores_starting_hands() {
    let mut g = game(3, Inventory::default(), Rules::default());
    g.request_placement(Hex::new(0, 0), PlayerId(0)).unwrap();
    g.request_placement(Hex::new(2, 0), PlayerId(1)).unwrap();
    g.request_placement(Hex::new(0, 2), PlayerId(0)).unwrap();
    g.reset_game();
    assert_eq!(g.state, GameState::Playing);
    assert_eq!(g.winner, None);
    assert_eq!(g.players.current_player, 0);
    for p in &g.players.players {
        assert_eq!(p.inventory, Inventory { kittens: 6, cats: 0 });
    }
    assert_eq!(g.board.cells.len(), 37);
    assert!(g.board.cats.iter().all(|c| c.is_none()));
}

#[test]
fn reset_after_game_over() {
    let mut g = game(3, Inventory::new(1, 0), Rules::default());
    g.request_placement(Hex::new(-3, 0), PlayerId(0)).unwrap();
    g.request_placement(Hex::new(3, 0), PlayerId(1)).unwrap();
    assert_eq!(g.state, GameState::GameOver);
    g.reset_game();
    assert_eq!(g.state, GameState::Playing);
    assert_eq!(g.players.players[0].inventory, Inventory::new(1, 0));
    assert!(g.request_placement(Hex::new(0, 0), PlayerId(0)).is_ok());
}

#[test]
fn radius_one_scenario() {
    let mut g = game(1, Inventory::default(), Rules::default());
    assert_eq!(g.board.cells.len(), 7);
    // A on the origin
    g.request_placement(Hex::new(0, 0), PlayerId(0)).unwrap();
    // B next to it: A's kitten is booped across the origin, still on the board
    g.request_placement(Hex::new(1, 0), PlayerId(1)).unwrap();
    assert_eq!(owner_at(&g, 0, 0), None);
    assert_eq!(owner_at(&g, -1, 0), Some(0));
    assert_eq!(owner_at(&g, 1, 0), Some(1));
    assert_eq!((kittens(&g, 0), kittens(&g, 1)), (5, 5));
    // the opposite neighbour is now taken
    assert_eq!(g.request_placement(Hex::new(-1, 0), PlayerId(0)).err(), Some(GameError::CellOccupied));
    // A back on the origin: both neighbours are booped off the board and go home
    let turn = g.request_placement(Hex::new(0, 0), PlayerId(0)).unwrap();
    assert_eq!(turn.effects.len(), 3);
    assert_eq!(owner_at(&g, 0, 0), Some(0));
    assert_eq!(owner_at(&g, 1, 0), None);
    assert_eq!(owner_at(&g, -1, 0), None);
    assert_eq!((kittens(&g, 0), kittens(&g, 1)), (5, 6));
}

#[test]
fn no_placement_outside_play() {
    let mut g = Game::new(MapSettings::default(), names(2), Inventory::default(), Rules::default());
    assert_eq!(g.place_kitten(Hex::new(0, 0)), Err(GameError::GameNotInPlayingPhase));
    assert!(g.board.cats.iter().all(|c| c.is_none()));
    assert_eq!(kittens(&g, 0), 6);
    let mut over = game(3, Inventory::new(1, 0), Rules::default());
    over.request_placement(Hex::new(-3, 0), PlayerId(0)).unwrap();
    over.request_placement(Hex::new(3, 0), PlayerId(1)).unwrap();
    assert_eq!(over.state, GameState::GameOver);
    let cats_before = over.board.cats.clone();
    assert_eq!(over.place_kitten(Hex::new(0, 0)), Err(GameError::GameNotInPlayingPhase));
    assert_eq!(over.board.cats, cats_before);
}

#[test]
fn adult_booped_off_comes_back_as_kitten() {
    let mut b = Board::new(MapSettings { map_radius: 1 });
    let mut ps = Players::default();
    ps.players[1].inventory = Inventory::new(3, 2);
    let adult = piece(7, 1, Cat::Adult);
    b.add_cat(Hex::new(1, 0), adult).unwrap();
    let e = move_cat(&mut b, &mut ps, MoveCat { from: Hex::new(1, 0), to: None }).unwrap();
    assert_eq!(e, Effect::Removed { piece: adult, from: Hex::new(1, 0) });
    assert_eq!(b.cat_by_hex(Hex::new(1, 0)), None);
    assert_eq!(ps.players[1].inventory, Inventory::new(4, 2));
    assert_eq!(ps.players[0].inventory, Inventory::new(6, 0));
    assert_eq!(ps.current_player, 0);
    assert_eq!(
        move_cat(&mut b, &mut ps, MoveCat { from: Hex::new(1, 0), to: None }),
        Err(GameError::CellEmpty)
    );
}
