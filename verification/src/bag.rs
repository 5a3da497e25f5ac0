//! The bag of undrawn tiles: filled once with a full set, then only drained.

use vstd::prelude::*;
use vstd::multiset::Multiset;
use vstd::multiset::group_multiset_axioms;
use vstd::seq_lib::group_to_multiset_ensures;
use crate::constants::{BLANK, FACE_COUNT, TOTAL_TILES};
use crate::random::{advanced, RandomSource};
use crate::tiles::{frequency_of, is_tile_letter, letter_frequency, Tile};

verus! {

/// Number of copies of the tile value `t` in a full set: the frequency of its
/// letter when the tile is standard, none otherwise.
pub open spec fn full_set_count(t: Tile) -> nat {
    if t.is_standard() {
        letter_frequency(t.letter())
    } else {
        0
    }
}

/// Whether `m` is a full set: every tile value occurs as often as the
/// frequency table says.
pub open spec fn is_full_set(m: Multiset<Tile>) -> bool {
    forall|t: Tile| #[trigger] m.count(t) == full_set_count(t)
}

/// The face with index `i`: the letters in alphabetical order, then the blank.
spec fn face_at(i: int) -> char {
    if 0 <= i < 26 {
        ('A' as int + i) as char
    } else {
        BLANK
    }
}

/// The index of a tile letter among the faces.
spec fn face_index(c: char) -> int {
    if c == BLANK {
        26
    } else {
        c as int - 'A' as int
    }
}

/// `n` copies of `t`.
spec fn copies(t: Tile, n: nat) -> Multiset<Tile>
    decreases n,
{
    if n == 0 {
        Multiset::empty()
    } else {
        copies(t, (n - 1) as nat).insert(t)
    }
}

/// The tiles of a full set whose face has an index below `k`.
spec fn faces_below(k: nat) -> Multiset<Tile>
    decreases k,
{
    if k == 0 {
        Multiset::empty()
    } else {
        faces_below((k - 1) as nat).add(
            copies(Tile::of(face_at(k - 1)), letter_frequency(face_at(k - 1))),
        )
    }
}

/// How many tiles `faces_below(k)` holds.
spec fn tiles_below(k: nat) -> nat
    decreases k,
{
    if k == 0 {
        0
    } else {
        tiles_below((k - 1) as nat) + letter_frequency(face_at(k - 1))
    }
}

proof fn lemma_copies(t: Tile, n: nat)
    ensures
        copies(t, n).len() == n,
        copies(t, n).count(t) == n,
        forall|u: Tile| u != t ==> copies(t, n).count(u) == 0,
    decreases n,
{
    broadcast use group_multiset_axioms;

    if n > 0 {
        lemma_copies(t, (n - 1) as nat);
    }
}

proof fn lemma_faces_below_count(k: nat, t: Tile)
    requires
        k <= 27,
    ensures
        faces_below(k).count(t) == (if t.is_standard() && face_index(t.letter()) < k {
            letter_frequency(t.letter())
        } else {
            0
        }),
    decreases k,
{
    broadcast use group_multiset_axioms;

    if k > 0 {
        let face = face_at(k - 1);
        lemma_faces_below_count((k - 1) as nat, t);
        lemma_copies(Tile::of(face), letter_frequency(face));
        Tile::lemma_of(face);
        if t.is_standard() {
            Tile::lemma_standard_is_of(t);
        }
    }
}

proof fn lemma_faces_below_len(k: nat)
    ensures
        faces_below(k).len() == tiles_below(k),
    decreases k,
{
    broadcast use group_multiset_axioms;

    if k > 0 {
        lemma_faces_below_len((k - 1) as nat);
        lemma_copies(Tile::of(face_at(k - 1)), letter_frequency(face_at(k - 1)));
    }
}

proof fn lemma_tiles_below_all()
    ensures
        tiles_below(27) == 100,
{
    reveal_with_fuel(tiles_below, 28);
}

/// The multiset built face by face is a full set.
proof fn lemma_all_faces_full()
    ensures
        is_full_set(faces_below(27)),
{
    assert forall|t: Tile| #[trigger] faces_below(27).count(t) == full_set_count(t) by {
        lemma_faces_below_count(27, t);
    }
}

/// A full set holds one hundred tiles.
pub proof fn lemma_full_set_len(m: Multiset<Tile>)
    requires
        is_full_set(m),
    ensures
        m.len() == TOTAL_TILES,
{
    broadcast use group_multiset_axioms;

    lemma_all_faces_full();
    assert(m =~= faces_below(27));
    lemma_faces_below_len(27);
    lemma_tiles_below_all();
}

/// The face with index `i`, at run time.
fn face(i: usize) -> (c: char)
    requires
        i < 27,
    ensures
        c == face_at(i as int),
        is_tile_letter(c),
{
    if i < 26 {
        let code: u8 = 'A' as u8 + (i as u8);
        code as char
    } else {
        BLANK
    }
}

/// The pool of undrawn tiles. Its value is the multiset of the tiles it
/// holds: the order in which they lie in the bag means nothing.
#[derive(Debug)]
pub struct TileBag {
    tiles: Vec<Tile>,
}

impl View for TileBag {
    type V = Multiset<Tile>;

    closed spec fn view(&self) -> Multiset<Tile> {
        self.tiles@.to_multiset()
    }
}

impl TileBag {
    /// A bag with a full set of tiles: one hundred, each letter as often as
    /// the frequency table says.
    pub fn new() -> (bag: TileBag)
        ensures
            is_full_set(bag@),
            bag@.len() == TOTAL_TILES,
    {
        broadcast use group_multiset_axioms;
        broadcast use group_to_multiset_ensures;

        let mut tiles: Vec<Tile> = Vec::new();
        let mut i: usize = 0;
        proof {
            vstd::multiset::lemma_multiset_empty_len(tiles@.to_multiset());
        }
        while i < FACE_COUNT
            invariant
                i <= 27,
                tiles@.to_multiset() == faces_below(i as nat),
            decreases 27 - i,
        {
            let letter = face(i);
            let count = frequency_of(letter);
            let mut j: usize = 0;
            while j < count
                invariant
                    i < 27,
                    j <= count,
                    count == letter_frequency(letter),
                    letter == face_at(i as int),
                    is_tile_letter(letter),
                    tiles@.to_multiset() == faces_below(i as nat).add(
                        copies(Tile::of(letter), j as nat),
                    ),
                decreases count - j,
            {
                let made = Tile::new(letter);
                let tile = made.unwrap();
                tiles.push(tile);
                proof {
                    broadcast use group_multiset_axioms;
                    broadcast use group_to_multiset_ensures;

                    assert(copies(Tile::of(letter), (j + 1) as nat) == copies(
                        Tile::of(letter),
                        j as nat,
                    ).insert(tile));
                }
                j += 1;
            }
            i += 1;
        }
        proof {
            lemma_all_faces_full();
            lemma_full_set_len(tiles@.to_multiset());
        }
        TileBag { tiles }
    }

    /// Number of tiles left in the bag.
    pub fn remaining_count(&self) -> (n: usize)
        ensures
            n == self@.len(),
    {
        broadcast use group_to_multiset_ensures;

        self.tiles.len()
    }

    /// Whether the bag has run out of tiles. An exhausted bag is no error: it
    /// is the sign that the supply has ended.
    pub fn is_exhausted(&self) -> (empty: bool)
        ensures
            empty == (self@.len() == 0),
    {
        broadcast use group_to_multiset_ensures;

        self.tiles.len() == 0
    }

    /// Takes up to `n` tiles out of the bag, each picked by `rng` among those
    /// still in it. When fewer than `n` are left, all of them are taken; from
    /// an empty bag nothing is.
    ///
    /// The tiles returned and the tiles left are together the tiles that were
    /// in the bag, and `rng` has made one step for each tile returned.
    pub fn draw(&mut self, n: usize, rng: &mut RandomSource) -> (drawn: Vec<Tile>)
        ensures
            drawn@.len() == (if n <= old(self)@.len() {
                n as nat
            } else {
                old(self)@.len()
            }),
            old(self)@ == final(self)@.add(drawn@.to_multiset()),
            final(self)@.len() == old(self)@.len() - drawn@.len(),
            final(rng).state() == advanced(old(rng).state(), drawn@.len()),
    {
        broadcast use group_multiset_axioms;
        broadcast use group_to_multiset_ensures;

        let mut drawn: Vec<Tile> = Vec::new();
        while drawn.len() < n && self.tiles.len() > 0
            invariant
                drawn@.len() <= n,
                self.tiles@.len() + drawn@.len() == old(self).tiles@.len(),
                old(self).tiles@.to_multiset() == self.tiles@.to_multiset().add(
                    drawn@.to_multiset(),
                ),
                rng.state() == advanced(old(rng).state(), drawn@.len()),
            decreases self.tiles@.len(),
        {
            let ghost before = self.tiles@;
            let pick = rng.next_below(self.tiles.len());
            let tile = self.tiles.swap_remove(pick);
            drawn.push(tile);
            proof {
                // The last tile has moved into the gap: the bag has lost
                // exactly the tile that was picked.
                broadcast use group_multiset_axioms;
                broadcast use group_to_multiset_ensures;

                let swapped = before.update(pick as int, before.last());
                assert(self.tiles@ == swapped.remove(swapped.len() - 1));
                assert(before.contains(tile));
                assert(before.to_multiset() =~= self.tiles@.to_multiset().insert(tile));
            }
        }
        drawn
    }
}

} // verus!
