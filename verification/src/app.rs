//! The turn coordinator: it owns the board, the bag and the racks, knows
//! whose turn it is, and is the only place where any of them changes.

use vstd::prelude::*;
use vstd::multiset::Multiset;
use vstd::multiset::group_multiset_axioms;
use vstd::seq_lib::group_to_multiset_ensures;
use crate::bag::{is_full_set, lemma_full_set_len, TileBag};
use crate::board::{with_tile, Board};
use crate::constants::{RACK_CAPACITY, TOTAL_TILES};
use crate::error::GameError;
use crate::rack::Rack;
use crate::random::{advanced, lemma_advanced_sum, RandomSource};
use crate::tiles::Tile;

verus! {

/// Where a session stands.
#[derive(Debug, Clone, Copy, PartialEq, Eq, Structural)]
pub enum GameState {
    /// Waiting for the current player's action.
    AwaitingInput,
    /// An action is being carried out. No caller ever sees this state: every
    /// action runs to its end before it returns.
    TurnInProgress,
    /// The bag and all racks are empty; nothing can change any more.
    GameOver,
}

/// What a player may ask for.
#[derive(Debug, Clone, Copy, PartialEq, Eq, Structural)]
pub enum Action {
    /// Put the tile at `rack_index` of the current rack on `(row, col)`.
    PlaceTile { row: usize, col: usize, rack_index: usize },
    /// Let the turn go by.
    Pass,
    /// Leave the game. The session itself is not touched by it.
    Quit,
}

/// The action a key stands for: `q` leaves the game, no other key is bound.
pub fn action_for_key(key: char) -> (action: Option<Action>)
    ensures
        action == (if key == 'q' {
            Some(Action::Quit)
        } else {
            None
        }),
{
    if key == 'q' {
        Some(Action::Quit)
    } else {
        None
    }
}

/// The tiles held on all the racks together.
pub open spec fn racks_tiles(racks: Seq<Rack>) -> Multiset<Tile>
    decreases racks.len(),
{
    if racks.len() == 0 {
        Multiset::empty()
    } else {
        racks_tiles(racks.drop_last()).add(racks.last()@.to_multiset())
    }
}

/// The number of tiles held on all the racks together.
pub open spec fn racks_count(racks: Seq<Rack>) -> nat
    decreases racks.len(),
{
    if racks.len() == 0 {
        0
    } else {
        racks_count(racks.drop_last()) + racks.last()@.len()
    }
}

/// Whether no rack holds a tile.
pub open spec fn all_racks_empty(racks: Seq<Rack>) -> bool {
    forall|i: int| 0 <= i < racks.len() ==> (#[trigger] racks[i])@.len() == 0
}

/// The player whose turn comes after `current` when `players` take turns.
pub open spec fn next_player(current: usize, players: nat) -> int {
    (current + 1) % (players as int)
}

/// How many tiles the rack of player `player` gets when racks are filled in
/// turn, seven at a time, from a bag of `supply` tiles.
pub open spec fn dealt(supply: nat, player: int) -> nat {
    if supply >= 7 * (player + 1) {
        7
    } else if supply > 7 * player {
        (supply - 7 * player) as nat
    } else {
        0
    }
}

/// How many tiles a bag of `supply` tiles keeps after `players` racks were
/// filled from it.
pub open spec fn left_after_deal(supply: nat, players: nat) -> nat {
    if supply >= 7 * players {
        (supply - 7 * players) as nat
    } else {
        0
    }
}

/// The racks hold as many tiles as their lengths add up to.
pub proof fn lemma_racks_tiles_len(racks: Seq<Rack>)
    ensures
        racks_tiles(racks).len() == racks_count(racks),
    decreases racks.len(),
{
    broadcast use group_multiset_axioms;
    broadcast use group_to_multiset_ensures;

    if racks.len() > 0 {
        lemma_racks_tiles_len(racks.drop_last());
    }
}

/// Replacing one rack exchanges that rack's tiles for the new rack's.
pub proof fn lemma_racks_tiles_replace(racks: Seq<Rack>, i: int, rack: Rack)
    requires
        0 <= i < racks.len(),
    ensures
        racks_tiles(racks.update(i, rack)).add(racks[i]@.to_multiset()) == racks_tiles(racks).add(
            rack@.to_multiset(),
        ),
    decreases racks.len(),
{
    broadcast use group_multiset_axioms;

    let changed = racks.update(i, rack);
    if i == racks.len() - 1 {
        assert(changed.drop_last() =~= racks.drop_last());
    } else {
        assert(changed.drop_last() =~= racks.drop_last().update(i, rack));
        lemma_racks_tiles_replace(racks.drop_last(), i, rack);
    }
    let before = racks_tiles(racks.drop_last());
    let after = racks_tiles(changed.drop_last());
    assert forall|v: Tile|
        racks_tiles(changed).add(racks[i]@.to_multiset()).count(v) == racks_tiles(racks).add(
            rack@.to_multiset(),
        ).count(v) by {
        if i < racks.len() - 1 {
            assert(after.add(racks[i]@.to_multiset()).count(v) == before.add(
                rack@.to_multiset(),
            ).count(v));
        }
    }
}

/// Racks that are all empty hold no tile, and racks that hold no tile are
/// all empty.
pub proof fn lemma_racks_empty(racks: Seq<Rack>)
    ensures
        all_racks_empty(racks) <==> racks_count(racks) == 0,
    decreases racks.len(),
{
    if racks.len() > 0 {
        lemma_racks_empty(racks.drop_last());
        if all_racks_empty(racks) {
            assert(all_racks_empty(racks.drop_last()));
        }
        if racks_count(racks) == 0 {
            assert forall|i: int| 0 <= i < racks.len() implies (#[trigger] racks[i])@.len()
                == 0 by {
                if i < racks.len() - 1 {
                    assert(racks.drop_last()[i]@.len() == 0);
                }
            }
        }
    }
}

/// Whether no rack holds a tile, at run time.
fn racks_are_empty(racks: &Vec<Rack>) -> (empty: bool)
    ensures
        empty == all_racks_empty(racks@),
{
    let mut i: usize = 0;
    while i < racks.len()
        invariant
            i <= racks@.len(),
            forall|k: int| 0 <= k < i ==> (#[trigger] racks@[k])@.len() == 0,
        decreases racks@.len() - i,
    {
        if !racks[i].is_empty() {
            return false;
        }
        i += 1;
    }
    true
}

/// A session: one board, one bag, one rack and one score for each player,
/// and the turn.
#[derive(Debug)]
pub struct App {
    board: Board,
    bag: TileBag,
    racks: Vec<Rack>,
    scores: Vec<u32>,
    current_player: usize,
    state: GameState,
    rng: RandomSource,
}

impl App {
    /// The board.
    pub closed spec fn board_of(&self) -> Board {
        self.board
    }

    /// The bag.
    pub closed spec fn bag_of(&self) -> TileBag {
        self.bag
    }

    /// The racks, in the order of the players.
    pub closed spec fn racks_of(&self) -> Seq<Rack> {
        self.racks@
    }

    /// The running scores, in the order of the players.
    pub closed spec fn scores_of(&self) -> Seq<u32> {
        self.scores@
    }

    /// The random source from which draws are made.
    pub closed spec fn rng_of(&self) -> RandomSource {
        self.rng
    }

    /// The index of the player whose turn it is.
    pub closed spec fn spec_current_player(&self) -> usize {
        self.current_player
    }

    /// Where the session stands.
    pub closed spec fn spec_state(&self) -> GameState {
        self.state
    }

    /// The supply has ended when the bag and every rack are empty.
    pub open spec fn supply_ended(&self) -> bool {
        self.bag_of()@.len() == 0 && all_racks_empty(self.racks_of())
    }

    /// All tiles of the session: those in the bag, on the racks and on the
    /// board.
    pub open spec fn all_tiles(&self) -> Multiset<Tile> {
        self.bag_of()@.add(racks_tiles(self.racks_of())).add(self.board_of().placed_tiles())
    }

    /// The session is consistent: the board is well formed; there is at
    /// least one player, with one rack of seven and one score each; the turn
    /// is some player's; and the state is `GameOver` exactly when the supply
    /// has ended, `AwaitingInput` otherwise.
    pub open spec fn wf(&self) -> bool {
        &&& self.board_of().wf()
        &&& self.racks_of().len() > 0
        &&& self.scores_of().len() == self.racks_of().len()
        &&& forall|i: int|
            0 <= i < self.racks_of().len() ==> (#[trigger] self.racks_of()[i]).wf()
                && self.racks_of()[i].capacity() == RACK_CAPACITY
        &&& self.current_player() < self.racks_of().len()
        &&& self.state() == (if self.supply_ended() {
            GameState::GameOver
        } else {
            GameState::AwaitingInput
        })
    }

    /// What a request to place the tile at `rack_index` on `(row, col)`
    /// meets: a game that is over, a rack position that holds nothing, a
    /// cell that cannot take the tile, or nothing in its way.
    pub open spec fn place_verdict(&self, row: usize, col: usize, rack_index: usize) -> Result<
        (),
        GameError,
    > {
        if self.state() == GameState::GameOver {
            Err(GameError::GameOver)
        } else if rack_index >= self.racks_of()[self.current_player() as int]@.len() {
            Err(GameError::TileNotInRack)
        } else {
            self.board_of().placement(row, col)
        }
    }

    /// How the session `next` differs from this one after the current
    /// player has placed the tile at `rack_index` on `(row, col)`: the tile
    /// lies on the board; the rack has closed the gap and was filled up from
    /// the bag as far as the bag went; the turn has moved on; nothing else
    /// has changed, and no tile was lost or made.
    pub open spec fn placed(&self, next: App, row: usize, col: usize, rack_index: usize) -> bool {
        let player = self.current_player() as int;
        let rack = self.racks_of()[player]@;
        let kept = rack.remove(rack_index as int);
        let bag = self.bag_of()@;
        let refilled = next.racks_of()[player]@;
        let drawn = refilled.subrange(kept.len() as int, refilled.len() as int);
        &&& next.board_of()@ == with_tile(
            self.board_of()@,
            row as int,
            col as int,
            rack[rack_index as int],
        )
        &&& next.racks_of().len() == self.racks_of().len()
        &&& forall|i: int|
            0 <= i < self.racks_of().len() && i != player ==> next.racks_of()[i]
                == self.racks_of()[i]
        &&& refilled.len() == (if kept.len() + bag.len() >= RACK_CAPACITY {
            RACK_CAPACITY as nat
        } else {
            kept.len() + bag.len()
        })
        &&& refilled.subrange(0, kept.len() as int) == kept
        &&& bag == next.bag_of()@.add(drawn.to_multiset())
        &&& next.bag_of()@.len() == bag.len() - drawn.len()
        &&& next.rng_of().state() == advanced(self.rng_of().state(), drawn.len())
        &&& next.scores_of() == self.scores_of()
        &&& next.current_player() == next_player(self.current_player(), self.racks_of().len())
        &&& next.all_tiles() == self.all_tiles()
    }

    /// How the session `next` differs from this one after a pass: the turn
    /// has moved on and nothing else has changed.
    pub open spec fn passed(&self, next: App) -> bool {
        &&& next.board_of() == self.board_of()
        &&& next.bag_of() == self.bag_of()
        &&& next.racks_of() == self.racks_of()
        &&& next.scores_of() == self.scores_of()
        &&& next.rng_of() == self.rng_of()
        &&& next.state() == self.state()
        &&& next.current_player() == next_player(self.current_player(), self.racks_of().len())
        &&& next.all_tiles() == self.all_tiles()
    }

    /// What a pass meets: a game that is over, or nothing in its way.
    pub open spec fn pass_verdict(&self) -> Result<(), GameError> {
        if self.state() == GameState::GameOver {
            Err(GameError::GameOver)
        } else {
            Ok(())
        }
    }

    /// What `action` is answered with, and how the session `next` that it
    /// leaves differs from this one. A refused action and a `Quit` leave the
    /// session as it is.
    pub open spec fn applied(&self, action: Action, res: Result<(), GameError>, next: App) -> bool {
        match action {
            Action::PlaceTile { row, col, rack_index } => {
                &&& res == self.place_verdict(row, col, rack_index)
                &&& res is Err ==> next == *self
                &&& res is Ok ==> self.placed(next, row, col, rack_index)
            },
            Action::Pass => {
                &&& res == self.pass_verdict()
                &&& res is Err ==> next == *self
                &&& res is Ok ==> self.passed(next)
            },
            Action::Quit => res == Ok::<(), GameError>(()) && next == *self,
        }
    }

    /// Starts a session for `num_players` players on `board`, with `bag` as
    /// the supply and `rng` for the draws. The racks are filled in the order
    /// of the players, seven tiles each while the bag lasts; player 0 is to
    /// move. A session without players is refused.
    pub fn new(board: Board, bag: TileBag, num_players: usize, rng: RandomSource) -> (res: Result<
        App,
        GameError,
    >)
        requires
            board.wf(),
        ensures
            match res {
                Ok(app) => {
                    &&& num_players > 0
                    &&& app.wf()
                    &&& app.board_of() == board
                    &&& app.racks_of().len() == num_players
                    &&& app.current_player() == 0
                    &&& forall|i: int|
                        0 <= i < num_players ==> (#[trigger] app.racks_of()[i])@.len() == dealt(
                            bag@.len(),
                            i,
                        )
                    &&& forall|i: int| 0 <= i < num_players ==> app.scores_of()[i] == 0
                    &&& app.bag_of()@.len() == left_after_deal(bag@.len(), num_players as nat)
                    &&& app.all_tiles() == bag@.add(board.placed_tiles())
                    &&& app.rng_of().state() == advanced(
                        rng.state(),
                        (bag@.len() - app.bag_of()@.len()) as nat,
                    )
                },
                Err(e) => e == GameError::NoPlayers && num_players == 0,
            },
    {
        if num_players == 0 {
            return Err(GameError::NoPlayers);
        }
        let mut bag = bag;
        let mut rng = rng;
        let ghost supply = bag@;
        let ghost seed = rng.state();
        let mut racks: Vec<Rack> = Vec::new();
        let mut scores: Vec<u32> = Vec::new();
        broadcast use group_multiset_axioms;

        let mut i: usize = 0;
        while i < num_players
            invariant
                i <= num_players,
                racks@.len() == i,
                scores@.len() == i,
                forall|k: int|
                    0 <= k < i ==> (#[trigger] racks@[k]).wf() && racks@[k].capacity()
                        == RACK_CAPACITY && racks@[k]@.len() == dealt(supply.len(), k),
                forall|k: int| 0 <= k < i ==> scores@[k] == 0,
                supply == bag@.add(racks_tiles(racks@)),
                bag@.len() == left_after_deal(supply.len(), i as nat),
                rng.state() == advanced(seed, (supply.len() - bag@.len()) as nat),
            decreases num_players - i,
        {
            let ghost dealt_racks = racks@;
            let ghost bag_before = bag@;
            let mut rack = Rack::new(RACK_CAPACITY);
            let drawn = bag.draw(RACK_CAPACITY, &mut rng);
            let _ = rack.add(drawn);
            racks.push(rack);
            scores.push(0);
            proof {
                broadcast use group_multiset_axioms;

                assert(racks@.drop_last() =~= dealt_racks);
                lemma_advanced_sum(
                    seed,
                    (supply.len() - bag_before.len()) as nat,
                    drawn@.len(),
                );
            }
            i += 1;
        }
        let over = bag.is_exhausted() && racks_are_empty(&racks);
        let state = if over {
            GameState::GameOver
        } else {
            GameState::AwaitingInput
        };
        Ok(App { board, bag, racks, scores, current_player: 0, state, rng })
    }

    /// The board, for reading only.
    pub fn board(&self) -> (board: &Board)
        ensures
            *board == self.board_of(),
    {
        &self.board
    }

    /// Number of players.
    pub fn num_players(&self) -> (n: usize)
        ensures
            n == self.racks_of().len(),
    {
        self.racks.len()
    }

    /// The index of the player whose turn it is.
    #[verifier::when_used_as_spec(spec_current_player)]
    pub fn current_player(&self) -> (player: usize)
        ensures
            player == self.current_player(),
    {
        self.current_player
    }

    /// Where the session stands.
    #[verifier::when_used_as_spec(spec_state)]
    pub fn state(&self) -> (state: GameState)
        ensures
            state == self.state(),
    {
        self.state
    }

    /// Whether the game is over.
    pub fn is_over(&self) -> (over: bool)
        requires
            self.wf(),
        ensures
            over == (self.state() == GameState::GameOver),
            over == self.supply_ended(),
    {
        match self.state {
            GameState::GameOver => true,
            _ => false,
        }
    }

    /// Number of tiles left in the bag.
    pub fn remaining_count(&self) -> (n: usize)
        ensures
            n == self.bag_of()@.len(),
    {
        self.bag.remaining_count()
    }

    /// The rack of the player whose turn it is, for reading only.
    pub fn current_rack(&self) -> (rack: &Rack)
        requires
            self.wf(),
        ensures
            *rack == self.racks_of()[self.current_player() as int],
    {
        &self.racks[self.current_player]
    }

    /// The rack of `player`, for reading only; nothing when there is no such
    /// player.
    pub fn rack(&self, player: usize) -> (rack: Option<&Rack>)
        ensures
            match rack {
                Some(r) => player < self.racks_of().len() && *r == self.racks_of()[player as int],
                None => player >= self.racks_of().len(),
            },
    {
        if player < self.racks.len() {
            Some(&self.racks[player])
        } else {
            None
        }
    }

    /// The running score of `player`; nothing when there is no such player.
    /// No scoring rule is in force, so a score stays where it started.
    pub fn score(&self, player: usize) -> (score: Option<u32>)
        ensures
            score == (if player < self.scores_of().len() {
                Some(self.scores_of()[player as int])
            } else {
                None
            }),
    {
        if player < self.scores.len() {
            Some(self.scores[player])
        } else {
            None
        }
    }

    /// Moves the tile at `rack_index` of the current player's rack onto the
    /// cell at `(row, col)`, fills the rack up from the bag and hands the
    /// turn to the next player. A request that cannot be met is refused with
    /// its reason, and then nothing has changed and no turn is used up.
    pub fn place_tile(&mut self, row: usize, col: usize, rack_index: usize) -> (res: Result<
        (),
        GameError,
    >)
        requires
            old(self).wf(),
        ensures
            final(self).wf(),
            res == old(self).place_verdict(row, col, rack_index),
            res is Err ==> *final(self) == *old(self),
            res is Ok ==> old(self).placed(*final(self), row, col, rack_index),
    {
        match self.state {
            GameState::GameOver => {
                return Err(GameError::GameOver);
            },
            _ => {},
        }
        let player = self.current_player;
        if rack_index >= self.racks[player].len() {
            return Err(GameError::TileNotInRack);
        }
        match self.board.can_place(row, col) {
            Err(e) => {
                return Err(e);
            },
            Ok(()) => {},
        }
        let ghost racks0 = self.racks@;
        let ghost rack0 = self.racks@[player as int]@;
        self.state = GameState::TurnInProgress;
        let rack = &mut self.racks[player];
        let taken = rack.take_at(rack_index);
        match taken {
            Err(e) => {
                proof {
                    assert(false);
                }
                Err(e)
            },
            Ok(tile) => {
                let ghost racks1 = self.racks@;
                let ghost rack1 = self.racks@[player as int]@;
                let _ = self.board.place(row, col, tile);
                let need = self.racks[player].free_slots();
                let drawn = self.bag.draw(need, &mut self.rng);
                let rack = &mut self.racks[player];
                let _ = rack.add(drawn);
                let players = self.racks.len();
                self.current_player = (player + 1) % players;
                let over = self.bag.is_exhausted() && racks_are_empty(&self.racks);
                self.state = if over {
                    GameState::GameOver
                } else {
                    GameState::AwaitingInput
                };
                proof {
                    broadcast use group_multiset_axioms;
                    broadcast use group_to_multiset_ensures;

                    let racks2 = self.racks@;
                    let rack2 = self.racks@[player as int]@;
                    vstd::arithmetic::div_mod::lemma_mod_bound(
                        (player + 1) as int,
                        racks2.len() as int,
                    );
                    lemma_racks_tiles_replace(racks0, player as int, racks1[player as int]);
                    lemma_racks_tiles_replace(racks1, player as int, racks2[player as int]);
                    assert(rack0.contains(tile));
                    vstd::seq_lib::lemma_multiset_commutative(rack1, drawn@);
                    assert(rack2.subrange(0, rack1.len() as int) =~= rack1);
                    assert(rack2.subrange(rack1.len() as int, rack2.len() as int) =~= drawn@);
                    assert forall|v: Tile| self.all_tiles().count(v) == old(self).all_tiles().count(
                        v,
                    ) by {
                        assert(racks_tiles(racks1).add(rack0.to_multiset()).count(v)
                            == racks_tiles(racks0).add(rack1.to_multiset()).count(v));
                        assert(racks_tiles(racks2).add(rack1.to_multiset()).count(v)
                            == racks_tiles(racks1).add(rack2.to_multiset()).count(v));
                    }
                    assert(self.all_tiles() =~= old(self).all_tiles());
                }
                Ok(())
            },
        }
    }

    /// Lets the turn go by: the next player is to move and nothing else
    /// changes. Once the game is over a pass is refused.
    pub fn pass(&mut self) -> (res: Result<(), GameError>)
        requires
            old(self).wf(),
        ensures
            final(self).wf(),
            res == old(self).pass_verdict(),
            res is Err ==> *final(self) == *old(self),
            res is Ok ==> old(self).passed(*final(self)),
    {
        match self.state {
            GameState::GameOver => {
                return Err(GameError::GameOver);
            },
            _ => {},
        }
        proof {
            vstd::arithmetic::div_mod::lemma_mod_bound(
                (self.current_player + 1) as int,
                self.racks@.len() as int,
            );
        }
        let players = self.racks.len();
        self.current_player = (self.current_player + 1) % players;
        Ok(())
    }

    /// Carries out one action of a player and says whether it was accepted.
    /// `Quit` is for the caller to act on: the session is not touched by it.
    pub fn apply(&mut self, action: Action) -> (res: Result<(), GameError>)
        requires
            old(self).wf(),
        ensures
            final(self).wf(),
            old(self).applied(action, res, *final(self)),
    {
        match action {
            Action::PlaceTile { row, col, rack_index } => self.place_tile(row, col, rack_index),
            Action::Pass => self.pass(),
            Action::Quit => Ok(()),
        }
    }

    /// A session that is started on an empty board with a full bag holds a
    /// full set of tiles.
    pub proof fn lemma_fresh_session_is_full(self, bag: TileBag, board: Board)
        requires
            is_full_set(bag@),
            board.placed_tiles() == Multiset::<Tile>::empty(),
            self.all_tiles() == bag@.add(board.placed_tiles()),
        ensures
            is_full_set(self.all_tiles()),
    {
        broadcast use group_multiset_axioms;

        assert(self.all_tiles() =~= bag@);
    }

    /// No action makes or loses a tile: whatever `action` is answered with,
    /// the session it leaves holds the tiles that this one holds. So a
    /// session that holds a full set holds one for ever.
    pub proof fn lemma_action_keeps_tiles(
        self,
        action: Action,
        res: Result<(), GameError>,
        next: App,
    )
        requires
            self.applied(action, res, next),
        ensures
            next.all_tiles() == self.all_tiles(),
            is_full_set(self.all_tiles()) ==> is_full_set(next.all_tiles()),
    {
    }

    /// The tiles of a session are as many as the bag holds, the racks hold
    /// and the board holds, added up.
    pub proof fn lemma_tile_count(self)
        ensures
            self.all_tiles().len() == self.bag_of()@.len() + racks_count(self.racks_of())
                + self.board_of().placed_count(),
    {
        broadcast use group_multiset_axioms;

        lemma_racks_tiles_len(self.racks_of());
    }

    /// In a session whose tiles are a full set, the tiles left in the bag,
    /// those on the racks and those on the board are one hundred together.
    /// Every accepted action keeps the tiles of the session, so this holds
    /// at every point of a session that began with a full bag and an empty
    /// board.
    pub proof fn lemma_full_set_total(self)
        requires
            is_full_set(self.all_tiles()),
        ensures
            self.bag_of()@.len() + racks_count(self.racks_of()) + self.board_of().placed_count()
                == TOTAL_TILES,
    {
        self.lemma_tile_count();
        lemma_full_set_len(self.all_tiles());
    }
}

} // verus!
