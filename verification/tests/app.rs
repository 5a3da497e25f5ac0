use scrabble::app::{action_for_key, Action, App, GameState};
use scrabble::bag::TileBag;
use scrabble::board::Board;
use scrabble::error::GameError;
use scrabble::random::RandomSource;

fn session(players: usize, seed: u64) -> App {
    let board = Board::new(15, 15).unwrap();
    App::new(board, TileBag::new(), players, RandomSource::new(seed)).unwrap()
}

fn session_with_supply(players: usize, supply: usize) -> App {
    let mut bag = TileBag::new();
    let mut rng = RandomSource::new(17);
    let _ = bag.draw(100 - supply, &mut rng);
    let board = Board::new(15, 15).unwrap();
    App::new(board, bag, players, rng).unwrap()
}

fn tiles_in_session(app: &App) -> usize {
    let mut on_racks = 0;
    for player in 0..app.num_players() {
        on_racks += app.rack(player).unwrap().len();
    }
    app.remaining_count() + on_racks + app.board().count_placed()
}

#[test]
fn new_session_deals_seven_tiles() {
    let app = session(1, 1);
    assert_eq!(app.num_players(), 1);
    assert_eq!(app.current_player(), 0);
    assert_eq!(app.current_rack().len(), 7);
    assert_eq!(app.remaining_count(), 93);
    assert_eq!(app.state(), GameState::AwaitingInput);
    assert!(!app.is_over());
    assert_eq!(app.board().count_placed(), 0);
    assert_eq!(app.score(0), Some(0));
}

#[test]
fn end_to_end_single_player_placement() {
    let mut app = session(1, 1);
    assert_eq!(app.current_rack().len(), 7);
    assert_eq!(app.remaining_count(), 93);
    let first = app.current_rack().get_tiles()[0].get_letter();
    let kept: Vec<char> =
        app.current_rack().get_tiles()[1..].iter().map(|t| t.get_letter()).collect();
    assert_eq!(app.place_tile(7, 7, 0), Ok(()));
    assert_eq!(app.board().get(7, 7).map(|t| t.get_letter()), Some(first));
    assert_eq!(app.current_rack().len(), 7);
    let after: Vec<char> =
        app.current_rack().get_tiles()[..6].iter().map(|t| t.get_letter()).collect();
    assert_eq!(after, kept);
    assert_eq!(app.remaining_count(), 92);
    assert_eq!(app.current_player(), 0);
    assert_eq!(app.state(), GameState::AwaitingInput);
}

#[test]
fn round_robin_with_two_players() {
    let mut app = session(2, 5);
    assert_eq!(app.remaining_count(), 86);
    assert_eq!(app.current_player(), 0);
    assert_eq!(app.place_tile(7, 7, 0), Ok(()));
    assert_eq!(app.current_player(), 1);
    assert_eq!(app.place_tile(7, 8, 0), Ok(()));
    assert_eq!(app.current_player(), 0);
    assert_eq!(app.rack(0).unwrap().len(), 7);
    assert_eq!(app.rack(1).unwrap().len(), 7);
    assert_eq!(app.remaining_count(), 84);
}

#[test]
fn round_robin_with_three_players() {
    let mut app = session(3, 9);
    for turn in 0..7 {
        assert_eq!(app.current_player(), turn % 3);
        assert_eq!(app.place_tile(0, turn, 0), Ok(()));
    }
    assert_eq!(app.current_player(), 1);
}

#[test]
fn pass_moves_the_turn_and_nothing_else() {
    let mut app = session(2, 3);
    let rack0: Vec<char> = app.rack(0).unwrap().get_tiles().iter().map(|t| t.get_letter()).collect();
    let rack1: Vec<char> = app.rack(1).unwrap().get_tiles().iter().map(|t| t.get_letter()).collect();
    assert_eq!(app.pass(), Ok(()));
    assert_eq!(app.current_player(), 1);
    assert_eq!(app.pass(), Ok(()));
    assert_eq!(app.current_player(), 0);
    assert_eq!(app.remaining_count(), 86);
    assert_eq!(app.board().count_placed(), 0);
    let now0: Vec<char> = app.rack(0).unwrap().get_tiles().iter().map(|t| t.get_letter()).collect();
    let now1: Vec<char> = app.rack(1).unwrap().get_tiles().iter().map(|t| t.get_letter()).collect();
    assert_eq!(now0, rack0);
    assert_eq!(now1, rack1);
    assert_eq!(app.state(), GameState::AwaitingInput);
}

#[test]
fn refused_placement_uses_no_turn_and_changes_nothing() {
    let mut app = session(2, 8);
    assert_eq!(app.place_tile(7, 7, 0), Ok(()));
    assert_eq!(app.current_player(), 1);
    let rack: Vec<char> =
        app.current_rack().get_tiles().iter().map(|t| t.get_letter()).collect();
    let occupant = app.board().get(7, 7).map(|t| t.get_letter());

    assert_eq!(app.place_tile(7, 7, 0), Err(GameError::CellOccupied));
    assert_eq!(app.place_tile(15, 0, 0), Err(GameError::OutOfBounds));
    assert_eq!(app.place_tile(0, 15, 0), Err(GameError::OutOfBounds));
    assert_eq!(app.place_tile(3, 3, 7), Err(GameError::TileNotInRack));
    assert_eq!(app.place_tile(15, 15, 7), Err(GameError::TileNotInRack));

    assert_eq!(app.current_player(), 1);
    assert_eq!(app.remaining_count(), 85);
    assert_eq!(app.board().count_placed(), 1);
    assert_eq!(app.board().get(7, 7).map(|t| t.get_letter()), occupant);
    let now: Vec<char> = app.current_rack().get_tiles().iter().map(|t| t.get_letter()).collect();
    assert_eq!(now, rack);
}

#[test]
fn tiles_are_conserved_across_a_session() {
    let mut app = session(3, 123);
    assert_eq!(tiles_in_session(&app), 100);
    let mut placed = 0;
    'rows: for row in 0..15 {
        for col in 0..15 {
            if app.is_over() {
                break 'rows;
            }
            while app.current_rack().is_empty() {
                assert_eq!(app.pass(), Ok(()));
                assert_eq!(tiles_in_session(&app), 100);
            }
            assert_eq!(app.place_tile(row, col, 0), Ok(()));
            placed += 1;
            assert_eq!(tiles_in_session(&app), 100);
            assert_eq!(app.board().count_placed(), placed);
            assert!(app.place_tile(row, col, 0).is_err());
            assert_eq!(tiles_in_session(&app), 100);
            assert_eq!(app.board().count_placed(), placed);
        }
    }
    assert!(app.is_over());
    assert_eq!(placed, 100);
    assert_eq!(app.remaining_count(), 0);
    assert_eq!(app.board().count_placed(), 100);
}

#[test]
fn racks_run_short_when_the_bag_does() {
    let app = session_with_supply(3, 16);
    assert_eq!(app.rack(0).unwrap().len(), 7);
    assert_eq!(app.rack(1).unwrap().len(), 7);
    assert_eq!(app.rack(2).unwrap().len(), 2);
    assert_eq!(app.remaining_count(), 0);
    assert_eq!(app.state(), GameState::AwaitingInput);
    assert_eq!(tiles_in_session(&app), 16);
}

#[test]
fn rack_is_not_refilled_from_an_empty_bag() {
    let mut app = session_with_supply(1, 8);
    assert_eq!(app.current_rack().len(), 7);
    assert_eq!(app.remaining_count(), 1);
    assert_eq!(app.place_tile(0, 0, 3), Ok(()));
    assert_eq!(app.current_rack().len(), 7);
    assert_eq!(app.remaining_count(), 0);
    assert_eq!(app.place_tile(0, 1, 6), Ok(()));
    assert_eq!(app.current_rack().len(), 6);
    assert_eq!(app.remaining_count(), 0);
    assert_eq!(app.state(), GameState::AwaitingInput);
}

#[test]
fn game_is_over_when_bag_and_racks_are_empty() {
    let mut app = session_with_supply(1, 2);
    assert_eq!(app.current_rack().len(), 2);
    assert_eq!(app.remaining_count(), 0);
    assert!(!app.is_over());
    assert_eq!(app.place_tile(0, 0, 1), Ok(()));
    assert_eq!(app.state(), GameState::AwaitingInput);
    assert_eq!(app.place_tile(0, 1, 0), Ok(()));
    assert_eq!(app.state(), GameState::GameOver);
    assert!(app.is_over());
    assert_eq!(app.board().count_placed(), 2);

    assert_eq!(app.pass(), Err(GameError::GameOver));
    assert_eq!(app.place_tile(5, 5, 0), Err(GameError::GameOver));
    assert_eq!(app.place_tile(15, 15, 9), Err(GameError::GameOver));
    assert_eq!(app.current_player(), 0);
    assert_eq!(app.board().count_placed(), 2);
    assert_eq!(app.state(), GameState::GameOver);
}

#[test]
fn session_from_an_empty_bag_is_over_at_once() {
    let app = session_with_supply(2, 0);
    assert_eq!(app.state(), GameState::GameOver);
    assert!(app.is_over());
    assert!(app.rack(0).unwrap().is_empty());
    assert!(app.rack(1).unwrap().is_empty());
}

#[test]
fn session_without_players_is_refused() {
    let board = Board::new(15, 15).unwrap();
    let res = App::new(board, TileBag::new(), 0, RandomSource::new(1));
    assert_eq!(res.err(), Some(GameError::NoPlayers));
}

#[test]
fn session_keeps_the_board_it_was_given() {
    let mut board = Board::new(6, 5).unwrap();
    let mut bag = TileBag::new();
    let mut rng = RandomSource::new(4);
    let tile = bag.draw(1, &mut rng).pop().unwrap();
    let letter = tile.get_letter();
    board.place(2, 3, tile).unwrap();
    let app = App::new(board, bag, 2, rng).unwrap();
    assert_eq!(app.board().width(), 6);
    assert_eq!(app.board().height(), 5);
    assert_eq!(app.board().get(2, 3).map(|t| t.get_letter()), Some(letter));
    assert_eq!(app.remaining_count(), 85);
    assert_eq!(tiles_in_session(&app), 100);
}

#[test]
fn rack_and_score_of_a_player_that_does_not_exist() {
    let app = session(2, 1);
    assert!(app.rack(1).is_some());
    assert!(app.rack(2).is_none());
    assert_eq!(app.score(1), Some(0));
    assert_eq!(app.score(2), None);
}

#[test]
fn scores_stay_at_zero() {
    let mut app = session(2, 6);
    app.place_tile(7, 7, 0).unwrap();
    app.place_tile(7, 8, 2).unwrap();
    app.pass().unwrap();
    assert_eq!(app.score(0), Some(0));
    assert_eq!(app.score(1), Some(0));
}

#[test]
fn same_seed_gives_the_same_session() {
    let mut a = session(2, 31337);
    let mut b = session(2, 31337);
    for col in 0..10 {
        assert_eq!(a.rack(0).unwrap().get_tiles(), b.rack(0).unwrap().get_tiles());
        assert_eq!(a.rack(1).unwrap().get_tiles(), b.rack(1).unwrap().get_tiles());
        assert_eq!(a.place_tile(4, col, col % 7), Ok(()));
        assert_eq!(b.place_tile(4, col, col % 7), Ok(()));
        assert_eq!(a.board().get(4, col), b.board().get(4, col));
    }
}

#[test]
fn apply_routes_actions() {
    let mut app = session(2, 12);
    assert_eq!(app.apply(Action::PlaceTile { row: 7, col: 7, rack_index: 0 }), Ok(()));
    assert_eq!(app.current_player(), 1);
    assert_eq!(app.board().count_placed(), 1);
    assert_eq!(
        app.apply(Action::PlaceTile { row: 7, col: 7, rack_index: 0 }),
        Err(GameError::CellOccupied)
    );
    assert_eq!(app.current_player(), 1);
    assert_eq!(app.apply(Action::Pass), Ok(()));
    assert_eq!(app.current_player(), 0);
    assert_eq!(app.apply(Action::Quit), Ok(()));
    assert_eq!(app.current_player(), 0);
    assert_eq!(app.board().count_placed(), 1);
    assert_eq!(app.remaining_count(), 85);
}

#[test]
fn only_q_is_bound_to_an_action() {
    assert_eq!(action_for_key('q'), Some(Action::Quit));
    assert_eq!(action_for_key('Q'), None);
    assert_eq!(action_for_key('p'), None);
    assert_eq!(action_for_key(' '), None);
    assert_eq!(action_for_key('\n'), None);
}

#[test]
fn every_refusal_has_its_message() {
    assert_eq!(GameError::OutOfBounds.message(), "that position is outside the board");
    assert_eq!(GameError::CellOccupied.message(), "that cell already holds a tile");
    assert_eq!(
        GameError::RackCapacityExceeded.message(),
        "the rack cannot hold that many tiles"
    );
    assert_eq!(GameError::TileNotInRack.message(), "the rack does not hold that tile");
    assert_eq!(
        GameError::InvalidDimensions.message(),
        "the board needs at least one row and one column"
    );
    assert_eq!(GameError::NoPlayers.message(), "a game needs at least one player");
    assert_eq!(GameError::GameOver.message(), "the game is over");
}
