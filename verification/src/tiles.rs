//! Letter tiles and the tables that fix their point values and their
//! frequencies in a full set.

use vstd::prelude::*;
use crate::constants::BLANK;

verus! {

/// Whether `c` may appear on a tile: an uppercase letter or the blank marker.
pub open spec fn is_tile_letter(c: char) -> bool {
    ('A' <= c && c <= 'Z') || c == BLANK
}

/// Point value of a letter, by value group. Anything that is not a tile
/// letter, and the blank, is worth nothing.
pub open spec fn letter_value(c: char) -> nat {
    if c == 'A' || c == 'E' || c == 'I' || c == 'O' || c == 'U' || c == 'L' || c == 'N'
        || c == 'S' || c == 'T' || c == 'R' {
        1
    } else if c == 'D' || c == 'G' {
        2
    } else if c == 'B' || c == 'C' || c == 'M' || c == 'P' {
        3
    } else if c == 'F' || c == 'H' || c == 'V' || c == 'W' || c == 'Y' {
        4
    } else if c == 'K' {
        5
    } else if c == 'J' || c == 'X' {
        8
    } else if c == 'Q' || c == 'Z' {
        10
    } else {
        0
    }
}

/// Executable lookup of a letter's point value.
pub fn value_of(letter: char) -> (v: u32)
    ensures
        v == letter_value(letter),
{
    match letter {
        'A' => 1,
        'B' => 3,
        'C' => 3,
        'D' => 2,
        'E' => 1,
        'F' => 4,
        'G' => 2,
        'H' => 4,
        'I' => 1,
        'J' => 8,
        'K' => 5,
        'L' => 1,
        'M' => 3,
        'N' => 1,
        'O' => 1,
        'P' => 3,
        'Q' => 10,
        'R' => 1,
        'S' => 1,
        'T' => 1,
        'U' => 1,
        'V' => 4,
        'W' => 4,
        'X' => 8,
        'Y' => 4,
        'Z' => 10,
        _ => 0,
    }
}

/// How many tiles of a full set carry the letter, by frequency group. A
/// character that is not a tile letter is on no tile.
pub open spec fn letter_frequency(c: char) -> nat {
    if c == 'E' {
        12
    } else if c == 'A' || c == 'I' {
        9
    } else if c == 'O' {
        8
    } else if c == 'N' || c == 'R' || c == 'T' {
        6
    } else if c == 'L' || c == 'S' || c == 'U' || c == 'D' {
        4
    } else if c == 'G' {
        3
    } else if c == 'B' || c == 'C' || c == 'M' || c == 'P' || c == 'F' || c == 'H' || c == 'V'
        || c == 'W' || c == 'Y' || c == BLANK {
        2
    } else if c == 'K' || c == 'J' || c == 'X' || c == 'Q' || c == 'Z' {
        1
    } else {
        0
    }
}

/// Executable lookup of a letter's frequency in a full set.
pub fn frequency_of(letter: char) -> (n: usize)
    ensures
        n == letter_frequency(letter),
{
    if letter == BLANK {
        return 2;
    }
    match letter {
        'A' => 9,
        'B' => 2,
        'C' => 2,
        'D' => 4,
        'E' => 12,
        'F' => 2,
        'G' => 3,
        'H' => 2,
        'I' => 9,
        'J' => 1,
        'K' => 1,
        'L' => 4,
        'M' => 2,
        'N' => 6,
        'O' => 8,
        'P' => 2,
        'Q' => 1,
        'R' => 6,
        'S' => 4,
        'T' => 6,
        'U' => 4,
        'V' => 2,
        'W' => 2,
        'X' => 1,
        'Y' => 2,
        'Z' => 1,
        _ => 0,
    }
}

/// Executable test for a tile letter.
pub fn valid_letter(letter: char) -> (ok: bool)
    ensures
        ok == is_tile_letter(letter),
{
    ('A' <= letter && letter <= 'Z') || letter == BLANK
}

/// `char::to_string` of the standard library: the string that holds exactly
/// the one character it is called on.
#[verifier::external_body]
fn char_to_string(c: char) -> (text: String)
    ensures
        text@ == seq![c],
{
    c.to_string()
}

/// A single game piece: a letter (or the blank marker) and its point value.
///
/// A tile cannot be copied: it is moved between the bag, a rack and a board
/// cell, so it is held by one container at a time.
#[derive(Debug, PartialEq, Eq, Structural)]
pub struct Tile {
    letter: char,
    value: u32,
}

impl Tile {
    /// The letter on the tile.
    pub closed spec fn letter(self) -> char {
        self.letter
    }

    /// The point value of the tile.
    pub closed spec fn value(self) -> nat {
        self.value as nat
    }

    /// The tile that carries `letter` with the value the table gives it.
    pub closed spec fn of(letter: char) -> Tile {
        Tile { letter, value: letter_value(letter) as u32 }
    }

    /// A tile is standard when its letter is a tile letter and its value is
    /// the one fixed for that letter. Every tile that exists at run time is
    /// standard.
    #[verifier::type_invariant]
    pub open spec fn is_standard(self) -> bool {
        is_tile_letter(self.letter()) && self.value() == letter_value(self.letter())
    }

    /// `Tile::of(letter)` shows `letter` and is worth what the table says; it
    /// is standard exactly when `letter` is a tile letter.
    pub proof fn lemma_of(letter: char)
        ensures
            Tile::of(letter).letter() == letter,
            Tile::of(letter).value() == letter_value(letter),
            Tile::of(letter).is_standard() == is_tile_letter(letter),
    {
    }

    /// Two tiles with the same letter and the same value are the same tile
    /// value: a tile has nothing else.
    pub proof fn lemma_same_face(a: Tile, b: Tile)
        requires
            a.letter() == b.letter(),
            a.value() == b.value(),
        ensures
            a == b,
    {
    }

    /// A standard tile is the tile of its letter.
    pub proof fn lemma_standard_is_of(t: Tile)
        requires
            t.is_standard(),
        ensures
            t == Tile::of(t.letter()),
    {
    }

    /// Makes the tile for `letter`; `None` when `letter` is not a tile letter.
    pub fn new(letter: char) -> (made: Option<Tile>)
        ensures
            made == (if is_tile_letter(letter) { Some(Tile::of(letter)) } else { None }),
            made matches Some(t) ==> t.letter() == letter && t.value() == letter_value(letter),
    {
        if valid_letter(letter) {
            Some(Tile { letter, value: value_of(letter) })
        } else {
            None
        }
    }

    /// Makes a blank tile.
    pub fn blank() -> (made: Tile)
        ensures
            made == Tile::of(BLANK),
            made.letter() == BLANK,
            made.value() == 0,
    {
        Tile { letter: BLANK, value: 0 }
    }

    /// The letter on the tile.
    pub fn get_letter(&self) -> (c: char)
        ensures
            c == self.letter(),
            is_tile_letter(c),
    {
        proof {
            use_type_invariant(self);
        }
        self.letter
    }

    /// The point value of the tile, which is the value fixed for its letter.
    pub fn get_value(&self) -> (v: u32)
        ensures
            v == self.value(),
            v == letter_value(self.letter()),
    {
        proof {
            use_type_invariant(self);
        }
        self.value
    }

    /// The tile's letter as a text of one character, for display.
    pub fn label(&self) -> (text: String)
        ensures
            text@ == seq![self.letter()],
    {
        char_to_string(self.letter)
    }

    /// Whether the tile is a blank.
    pub fn is_blank(&self) -> (b: bool)
        ensures
            b == (self.letter() == BLANK),
    {
        self.letter == BLANK
    }
}

} // verus!
