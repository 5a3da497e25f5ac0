//! A player's rack: a bounded, ordered row of tiles.

use vstd::prelude::*;
use crate::error::GameError;
use crate::tiles::Tile;

verus! {

/// Whether `i` is the first position of `s` that holds a tile equal to `t`.
pub open spec fn is_first_position(s: Seq<Tile>, t: Tile, i: int) -> bool {
    &&& 0 <= i < s.len()
    &&& s[i] == t
    &&& forall|j: int| 0 <= j < i ==> s[j] != t
}

/// The tiles a player holds, in the order in which they came. Its value is
/// that sequence of tiles.
#[derive(Debug)]
pub struct Rack {
    tiles: Vec<Tile>,
    capacity: usize,
}

impl View for Rack {
    type V = Seq<Tile>;

    closed spec fn view(&self) -> Seq<Tile> {
        self.tiles@
    }
}

impl Rack {
    /// The largest number of tiles the rack may hold.
    pub closed spec fn spec_capacity(&self) -> usize {
        self.capacity
    }

    /// A rack never holds more tiles than its capacity.
    pub open spec fn wf(&self) -> bool {
        self@.len() <= self.capacity()
    }

    /// An empty rack that can hold `capacity` tiles.
    pub fn new(capacity: usize) -> (rack: Rack)
        ensures
            rack.wf(),
            rack@ == Seq::<Tile>::empty(),
            rack.capacity() == capacity,
    {
        Rack { tiles: Vec::new(), capacity }
    }

    /// The largest number of tiles the rack may hold.
    #[verifier::when_used_as_spec(spec_capacity)]
    pub fn capacity(&self) -> (n: usize)
        ensures
            n == self.capacity(),
    {
        self.capacity
    }

    /// Number of tiles on the rack.
    pub fn len(&self) -> (n: usize)
        ensures
            n == self@.len(),
    {
        self.tiles.len()
    }

    /// Whether the rack holds no tile.
    pub fn is_empty(&self) -> (empty: bool)
        ensures
            empty == (self@.len() == 0),
    {
        self.tiles.len() == 0
    }

    /// How many more tiles the rack can take.
    pub fn free_slots(&self) -> (n: usize)
        requires
            self.wf(),
        ensures
            n == self.capacity() - self@.len(),
    {
        self.capacity - self.tiles.len()
    }

    /// The tiles on the rack, in order, for reading only.
    pub fn get_tiles(&self) -> (tiles: &Vec<Tile>)
        ensures
            tiles@ == self@,
    {
        &self.tiles
    }

    /// Puts the whole batch at the end of the rack, in its order, provided
    /// the rack can hold all of it. A batch that does not fit is refused as a
    /// whole and the rack stays as it was.
    pub fn add(&mut self, tiles: Vec<Tile>) -> (res: Result<(), GameError>)
        requires
            old(self).wf(),
        ensures
            final(self).wf(),
            final(self).capacity() == old(self).capacity(),
            old(self)@.len() + tiles@.len() <= old(self).capacity() ==> res == Ok::<
                (),
                GameError,
            >(()) && final(self)@ == old(self)@ + tiles@,
            old(self)@.len() + tiles@.len() > old(self).capacity() ==> res == Err::<
                (),
                GameError,
            >(GameError::RackCapacityExceeded) && *final(self) == *old(self),
    {
        let mut batch = tiles;
        if batch.len() > self.capacity - self.tiles.len() {
            return Err(GameError::RackCapacityExceeded);
        }
        self.tiles.append(&mut batch);
        Ok(())
    }

    /// Takes the tile at `index` off the rack; the tiles behind it move up by
    /// one. An index at which the rack holds nothing is refused.
    pub fn take_at(&mut self, index: usize) -> (res: Result<Tile, GameError>)
        requires
            old(self).wf(),
        ensures
            final(self).wf(),
            final(self).capacity() == old(self).capacity(),
            index < old(self)@.len() ==> res == Ok::<Tile, GameError>(old(self)@[index as int])
                && final(self)@ == old(self)@.remove(index as int),
            index >= old(self)@.len() ==> res == Err::<Tile, GameError>(
                GameError::TileNotInRack,
            ) && *final(self) == *old(self),
    {
        if index >= self.tiles.len() {
            return Err(GameError::TileNotInRack);
        }
        let tile = self.tiles.remove(index);
        Ok(tile)
    }

    /// The first position at which the rack holds a tile equal to `tile`, if
    /// it holds one.
    pub fn position_of(&self, tile: &Tile) -> (found: Option<usize>)
        ensures
            match found {
                Some(i) => is_first_position(self@, *tile, i as int),
                None => !self@.contains(*tile),
            },
    {
        let mut i: usize = 0;
        while i < self.tiles.len()
            invariant
                i <= self.tiles@.len(),
                forall|j: int| 0 <= j < i ==> self.tiles@[j] != *tile,
            decreases self.tiles@.len() - i,
        {
            if self.tiles[i] == *tile {
                return Some(i);
            }
            i += 1;
        }
        None
    }

    /// Takes the first tile equal to `tile` off the rack. A tile that the
    /// rack does not hold is refused.
    pub fn remove(&mut self, tile: &Tile) -> (res: Result<Tile, GameError>)
        requires
            old(self).wf(),
        ensures
            final(self).wf(),
            final(self).capacity() == old(self).capacity(),
            match res {
                Ok(taken) => taken == *tile && exists|i: int|
                    #![trigger old(self)@.remove(i)]
                    is_first_position(old(self)@, *tile, i) && final(self)@ == old(self)@.remove(
                        i,
                    ),
                Err(e) => e == GameError::TileNotInRack && !old(self)@.contains(*tile)
                    && *final(self) == *old(self),
            },
    {
        match self.position_of(tile) {
            Some(i) => self.take_at(i),
            None => Err(GameError::TileNotInRack),
        }
    }
}

} // verus!
