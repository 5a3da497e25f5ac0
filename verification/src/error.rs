//! The reasons for which an operation on the game state is refused.

use vstd::prelude::*;

verus! {

/// Why an operation was refused. Every refusal leaves the state it was asked
/// to change exactly as it was.
#[derive(Debug, Clone, Copy, PartialEq, Eq, Structural)]
pub enum GameError {
    /// A board coordinate lies outside the grid.
    OutOfBounds,
    /// The target cell already holds a tile.
    CellOccupied,
    /// Adding the tiles would put more on the rack than it can hold.
    RackCapacityExceeded,
    /// The rack does not hold the tile that was asked for.
    TileNotInRack,
    /// A board was asked for with a width or a height of zero, or with more
    /// cells than the machine can count.
    InvalidDimensions,
    /// A session was asked for with no players.
    NoPlayers,
    /// The game is over: no tile is left in the bag or on any rack.
    GameOver,
}

impl GameError {
    /// The text shown to the player for this refusal.
    pub open spec fn message_text(self) -> Seq<char> {
        match self {
            GameError::OutOfBounds => "that position is outside the board"@,
            GameError::CellOccupied => "that cell already holds a tile"@,
            GameError::RackCapacityExceeded => "the rack cannot hold that many tiles"@,
            GameError::TileNotInRack => "the rack does not hold that tile"@,
            GameError::InvalidDimensions => "the board needs at least one row and one column"@,
            GameError::NoPlayers => "a game needs at least one player"@,
            GameError::GameOver => "the game is over"@,
        }
    }

    /// A displayable message for this refusal.
    pub fn message(&self) -> (text: String)
        ensures
            text@ == self.message_text(),
    {
        match self {
            GameError::OutOfBounds => "that position is outside the board".to_owned(),
            GameError::CellOccupied => "that cell already holds a tile".to_owned(),
            GameError::RackCapacityExceeded => "the rack cannot hold that many tiles".to_owned(),
            GameError::TileNotInRack => "the rack does not hold that tile".to_owned(),
            GameError::InvalidDimensions => {
                "the board needs at least one row and one column".to_owned()
            },
            GameError::NoPlayers => "a game needs at least one player".to_owned(),
            GameError::GameOver => "the game is over".to_owned(),
        }
    }
}

} // verus!
