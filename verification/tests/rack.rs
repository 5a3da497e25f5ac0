use scrabble::constants::RACK_CAPACITY;
use scrabble::error::GameError;
use scrabble::rack::Rack;
use scrabble::tiles::Tile;

fn tiles(letters: &str) -> Vec<Tile> {
    letters.chars().map(|c| Tile::new(c).unwrap()).collect()
}

fn letters(rack: &Rack) -> String {
    rack.get_tiles().iter().map(|t| t.get_letter()).collect()
}

#[test]
fn new_rack_is_empty() {
    let rack = Rack::new(RACK_CAPACITY);
    assert_eq!(rack.capacity(), 7);
    assert_eq!(rack.len(), 0);
    assert!(rack.is_empty());
    assert_eq!(rack.free_slots(), 7);
    assert!(rack.get_tiles().is_empty());
}

#[test]
fn add_appends_in_order() {
    let mut rack = Rack::new(7);
    assert_eq!(rack.add(tiles("CAT")), Ok(()));
    assert_eq!(letters(&rack), "CAT");
    assert_eq!(rack.add(tiles("DOGS")), Ok(()));
    assert_eq!(letters(&rack), "CATDOGS");
    assert_eq!(rack.len(), 7);
    assert_eq!(rack.free_slots(), 0);
    assert!(!rack.is_empty());
}

#[test]
fn add_of_nothing_is_accepted() {
    let mut rack = Rack::new(7);
    assert_eq!(rack.add(tiles("FULLEST")), Ok(()));
    assert_eq!(rack.add(Vec::new()), Ok(()));
    assert_eq!(letters(&rack), "FULLEST");
}

#[test]
fn add_beyond_capacity_fails_and_adds_none() {
    let mut rack = Rack::new(7);
    assert_eq!(rack.add(tiles("HELLO")), Ok(()));
    assert_eq!(rack.add(tiles("ABC")), Err(GameError::RackCapacityExceeded));
    assert_eq!(letters(&rack), "HELLO");
    assert_eq!(rack.len(), 5);
    assert_eq!(rack.add(tiles("AB")), Ok(()));
    assert_eq!(letters(&rack), "HELLOAB");
    assert_eq!(rack.add(tiles("Z")), Err(GameError::RackCapacityExceeded));
    assert_eq!(letters(&rack), "HELLOAB");
}

#[test]
fn add_to_rack_without_room() {
    let mut rack = Rack::new(0);
    assert_eq!(rack.add(tiles("A")), Err(GameError::RackCapacityExceeded));
    assert!(rack.is_empty());
    assert_eq!(rack.add(Vec::new()), Ok(()));
}

#[test]
fn take_at_removes_that_tile_and_closes_the_gap() {
    let mut rack = Rack::new(7);
    rack.add(tiles("WORDS")).unwrap();
    assert_eq!(rack.take_at(1), Ok(Tile::new('O').unwrap()));
    assert_eq!(letters(&rack), "WRDS");
    assert_eq!(rack.take_at(3), Ok(Tile::new('S').unwrap()));
    assert_eq!(letters(&rack), "WRD");
    assert_eq!(rack.take_at(0), Ok(Tile::new('W').unwrap()));
    assert_eq!(letters(&rack), "RD");
}

#[test]
fn take_at_refuses_a_position_that_holds_nothing() {
    let mut rack = Rack::new(7);
    rack.add(tiles("AB")).unwrap();
    assert_eq!(rack.take_at(2), Err(GameError::TileNotInRack));
    assert_eq!(rack.take_at(7), Err(GameError::TileNotInRack));
    assert_eq!(rack.take_at(usize::MAX), Err(GameError::TileNotInRack));
    assert_eq!(letters(&rack), "AB");
    let mut empty = Rack::new(7);
    assert_eq!(empty.take_at(0), Err(GameError::TileNotInRack));
}

#[test]
fn remove_takes_the_first_equal_tile() {
    let mut rack = Rack::new(7);
    rack.add(tiles("BANANA")).unwrap();
    let a = Tile::new('A').unwrap();
    assert_eq!(rack.position_of(&a), Some(1));
    assert_eq!(rack.remove(&a), Ok(Tile::new('A').unwrap()));
    assert_eq!(letters(&rack), "BNANA");
    assert_eq!(rack.remove(&a), Ok(Tile::new('A').unwrap()));
    assert_eq!(letters(&rack), "BNNA");
    assert_eq!(rack.position_of(&a), Some(3));
}

#[test]
fn remove_refuses_a_tile_that_is_not_held() {
    let mut rack = Rack::new(7);
    rack.add(tiles("BANANA")).unwrap();
    let z = Tile::new('Z').unwrap();
    assert_eq!(rack.position_of(&z), None);
    assert_eq!(rack.remove(&z), Err(GameError::TileNotInRack));
    assert_eq!(letters(&rack), "BANANA");
    assert_eq!(rack.remove(&Tile::blank()), Err(GameError::TileNotInRack));
    assert_eq!(rack.len(), 6);
}

#[test]
fn get_tiles_shows_the_tiles_in_order() {
    let mut rack = Rack::new(7);
    rack.add(tiles("QI_")).unwrap();
    let shown = rack.get_tiles();
    assert_eq!(shown.len(), 3);
    assert_eq!(shown[0], Tile::new('Q').unwrap());
    assert_eq!(shown[1], Tile::new('I').unwrap());
    assert_eq!(shown[2], Tile::blank());
}
