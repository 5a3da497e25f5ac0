use scrabble::bag::TileBag;
use scrabble::constants::{BLANK, TOTAL_TILES};
use scrabble::random::{RandomSource, DEFAULT_SEED};
use scrabble::tiles::{frequency_of, Tile};

fn count_letter(tiles: &[Tile], letter: char) -> usize {
    tiles.iter().filter(|t| t.get_letter() == letter).count()
}

#[test]
fn new_bag_holds_one_hundred_tiles() {
    let bag = TileBag::new();
    assert_eq!(bag.remaining_count(), 100);
    assert_eq!(bag.remaining_count(), TOTAL_TILES);
    assert!(!bag.is_exhausted());
}

#[test]
fn new_bag_holds_the_canonical_distribution() {
    let mut bag = TileBag::new();
    let mut rng = RandomSource::new(42);
    let all = bag.draw(100, &mut rng);
    assert_eq!(all.len(), 100);
    for code in b'A'..=b'Z' {
        let letter = code as char;
        assert_eq!(count_letter(&all, letter), frequency_of(letter));
    }
    assert_eq!(count_letter(&all, 'E'), 12);
    assert_eq!(count_letter(&all, 'A'), 9);
    assert_eq!(count_letter(&all, 'Q'), 1);
    assert_eq!(count_letter(&all, BLANK), 2);
    let points: u32 = all.iter().map(|t| t.get_value()).sum();
    assert_eq!(points, 187);
}

#[test]
fn draw_takes_what_it_returns_out_of_the_bag() {
    let mut bag = TileBag::new();
    let mut rng = RandomSource::new(7);
    let first = bag.draw(7, &mut rng);
    assert_eq!(first.len(), 7);
    assert_eq!(bag.remaining_count(), 93);
    let second = bag.draw(1, &mut rng);
    assert_eq!(second.len(), 1);
    assert_eq!(bag.remaining_count(), 92);
    let none = bag.draw(0, &mut rng);
    assert!(none.is_empty());
    assert_eq!(bag.remaining_count(), 92);
}

#[test]
fn remaining_count_falls_by_the_number_drawn_each_time() {
    let mut bag = TileBag::new();
    let mut rng = RandomSource::new(3);
    let mut expected = 100;
    for n in [1usize, 5, 0, 13, 40, 40, 40, 2] {
        let before = bag.remaining_count();
        let drawn = bag.draw(n, &mut rng);
        assert_eq!(drawn.len(), n.min(before));
        expected -= drawn.len();
        assert_eq!(bag.remaining_count(), expected);
        assert!(bag.remaining_count() < before || drawn.is_empty());
    }
    assert_eq!(bag.remaining_count(), 0);
}

#[test]
fn short_draw_returns_all_that_is_left() {
    let mut bag = TileBag::new();
    let mut rng = RandomSource::new(11);
    let most = bag.draw(97, &mut rng);
    assert_eq!(most.len(), 97);
    let rest = bag.draw(7, &mut rng);
    assert_eq!(rest.len(), 3);
    assert_eq!(bag.remaining_count(), 0);
    assert!(bag.is_exhausted());
}

#[test]
fn draw_from_empty_bag_returns_nothing() {
    let mut bag = TileBag::new();
    let mut rng = RandomSource::new(5);
    let _ = bag.draw(100, &mut rng);
    assert!(bag.is_exhausted());
    let drawn = bag.draw(7, &mut rng);
    assert!(drawn.is_empty());
    assert_eq!(bag.remaining_count(), 0);
}

#[test]
fn drawn_and_left_tiles_make_up_the_full_set() {
    let mut bag = TileBag::new();
    let mut rng = RandomSource::new(99);
    let mut seen = bag.draw(33, &mut rng);
    let mut rest = bag.draw(100, &mut rng);
    assert_eq!(rest.len(), 67);
    seen.append(&mut rest);
    for code in b'A'..=b'Z' {
        let letter = code as char;
        assert_eq!(count_letter(&seen, letter), frequency_of(letter));
    }
    assert_eq!(count_letter(&seen, BLANK), 2);
}

#[test]
fn same_seed_gives_the_same_draws() {
    let mut bag_a = TileBag::new();
    let mut bag_b = TileBag::new();
    let mut rng_a = RandomSource::new(2024);
    let mut rng_b = RandomSource::new(2024);
    assert_eq!(bag_a.draw(20, &mut rng_a), bag_b.draw(20, &mut rng_b));
    assert_eq!(bag_a.draw(80, &mut rng_a), bag_b.draw(80, &mut rng_b));
}

#[test]
fn draws_are_spread_over_the_bag() {
    let mut bag = TileBag::new();
    let mut rng = RandomSource::new(1);
    let drawn = bag.draw(50, &mut rng);
    let first = drawn[0].get_letter();
    assert!(drawn.iter().any(|t| t.get_letter() != first));
}

#[test]
fn random_source_first_outputs_for_seed_one() {
    let mut rng = RandomSource::new(1);
    assert_eq!(rng.next(), 1082269761);
    assert_eq!(rng.next(), 1152992998833853505);
    assert_eq!(rng.next(), 11177516664432764457);
}

#[test]
fn random_source_picks_below_the_bound() {
    let mut rng = RandomSource::new(1);
    assert_eq!(rng.next_below(100), 61);
    assert_eq!(rng.next_below(100), 5);
    assert_eq!(rng.next_below(100), 57);
    let mut rng = RandomSource::new(77);
    for bound in 1..200usize {
        assert!(rng.next_below(bound) < bound);
    }
    assert_eq!(rng.next_below(1), 0);
}

#[test]
fn zero_seed_is_replaced_by_the_default_seed() {
    let mut zero = RandomSource::new(0);
    let mut default = RandomSource::new(DEFAULT_SEED);
    assert_eq!(zero.next(), 15860402102123842989);
    assert_eq!(default.next(), 15860402102123842989);
    assert_eq!(zero.next(), default.next());
}
