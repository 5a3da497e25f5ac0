//! The board: a fixed grid of cells, each empty or holding one tile.

use vstd::prelude::*;
use vstd::multiset::Multiset;
use vstd::multiset::group_multiset_axioms;
use crate::error::GameError;
use crate::tiles::Tile;

verus! {

/// The tiles that lie in one row of cells.
pub open spec fn row_tiles(row: Seq<Option<Tile>>) -> Multiset<Tile>
    decreases row.len(),
{
    if row.len() == 0 {
        Multiset::empty()
    } else {
        match row.last() {
            Some(t) => row_tiles(row.drop_last()).insert(t),
            None => row_tiles(row.drop_last()),
        }
    }
}

/// The tiles that lie anywhere on a grid of cells.
pub open spec fn grid_tiles(grid: Seq<Seq<Option<Tile>>>) -> Multiset<Tile>
    decreases grid.len(),
{
    if grid.len() == 0 {
        Multiset::empty()
    } else {
        grid_tiles(grid.drop_last()).add(row_tiles(grid.last()))
    }
}

/// Filling an empty cell of a row adds that one tile to the row's tiles.
pub proof fn lemma_row_tiles_fill(row: Seq<Option<Tile>>, col: int, tile: Tile)
    requires
        0 <= col < row.len(),
        row[col] is None,
    ensures
        row_tiles(row.update(col, Some(tile))) == row_tiles(row).insert(tile),
    decreases row.len(),
{
    broadcast use group_multiset_axioms;

    let filled = row.update(col, Some(tile));
    if col == row.len() - 1 {
        assert(filled.drop_last() =~= row.drop_last());
    } else {
        assert(filled.drop_last() =~= row.drop_last().update(col, Some(tile)));
        lemma_row_tiles_fill(row.drop_last(), col, tile);
    }
}

/// Replacing one row of a grid exchanges that row's tiles for the new row's.
pub proof fn lemma_grid_tiles_replace(
    grid: Seq<Seq<Option<Tile>>>,
    row: int,
    line: Seq<Option<Tile>>,
)
    requires
        0 <= row < grid.len(),
    ensures
        grid_tiles(grid.update(row, line)).add(row_tiles(grid[row])) == grid_tiles(grid).add(
            row_tiles(line),
        ),
    decreases grid.len(),
{
    broadcast use group_multiset_axioms;

    let changed = grid.update(row, line);
    if row == grid.len() - 1 {
        assert(changed.drop_last() =~= grid.drop_last());
    } else {
        assert(changed.drop_last() =~= grid.drop_last().update(row, line));
        lemma_grid_tiles_replace(grid.drop_last(), row, line);
    }
    let before = grid_tiles(grid.drop_last());
    let after = grid_tiles(changed.drop_last());
    assert forall|v: Tile|
        grid_tiles(changed).add(row_tiles(grid[row])).count(v) == grid_tiles(grid).add(
            row_tiles(line),
        ).count(v) by {
        if row < grid.len() - 1 {
            assert(after.add(row_tiles(grid[row])).count(v) == before.add(row_tiles(line)).count(
                v,
            ));
        }
    }
}

/// Filling an empty cell of a grid adds that one tile to the grid's tiles.
pub proof fn lemma_grid_tiles_fill(grid: Seq<Seq<Option<Tile>>>, row: int, col: int, tile: Tile)
    requires
        0 <= row < grid.len(),
        0 <= col < grid[row].len(),
        grid[row][col] is None,
    ensures
        grid_tiles(grid.update(row, grid[row].update(col, Some(tile)))) == grid_tiles(
            grid,
        ).insert(tile),
{
    broadcast use group_multiset_axioms;

    let line = grid[row].update(col, Some(tile));
    lemma_row_tiles_fill(grid[row], col, tile);
    lemma_grid_tiles_replace(grid, row, line);
    let filled = grid_tiles(grid.update(row, line));
    assert forall|v: Tile| filled.count(v) == grid_tiles(grid).insert(tile).count(v) by {
        assert(filled.add(row_tiles(grid[row])).count(v) == grid_tiles(grid).add(
            row_tiles(line),
        ).count(v));
    }
}

/// The grid `grid` with `tile` put on the cell at `(row, col)`.
pub open spec fn with_tile(grid: Seq<Seq<Option<Tile>>>, row: int, col: int, tile: Tile) -> Seq<
    Seq<Option<Tile>>,
> {
    grid.update(row, grid[row].update(col, Some(tile)))
}

/// A tile put on a cell of a grid is what that cell then holds, and every
/// other cell holds what it held before.
pub proof fn lemma_with_tile(grid: Seq<Seq<Option<Tile>>>, row: int, col: int, tile: Tile)
    requires
        0 <= row < grid.len(),
        0 <= col < grid[row].len(),
    ensures
        with_tile(grid, row, col, tile).len() == grid.len(),
        forall|r: int|
            0 <= r < grid.len() ==> (#[trigger] with_tile(grid, row, col, tile)[r]).len()
                == grid[r].len(),
        with_tile(grid, row, col, tile)[row][col] == Some(tile),
        forall|r: int, c: int|
            0 <= r < grid.len() && 0 <= c < grid[r].len() && (r != row || c != col)
                ==> #[trigger] with_tile(grid, row, col, tile)[r][c] == grid[r][c],
{
}

/// A row holds at most as many tiles as it has cells, and none when every
/// cell is empty.
pub proof fn lemma_row_tiles_bound(row: Seq<Option<Tile>>)
    ensures
        row_tiles(row).len() <= row.len(),
        (forall|c: int| 0 <= c < row.len() ==> row[c] is None) ==> row_tiles(row)
            == Multiset::<Tile>::empty(),
    decreases row.len(),
{
    broadcast use group_multiset_axioms;

    if row.len() > 0 {
        lemma_row_tiles_bound(row.drop_last());
    }
}

/// A grid whose cells are all empty holds no tile.
pub proof fn lemma_grid_tiles_empty(grid: Seq<Seq<Option<Tile>>>)
    requires
        forall|r: int, c: int| 0 <= r < grid.len() && 0 <= c < grid[r].len() ==> grid[r][c] is None,
    ensures
        grid_tiles(grid) == Multiset::<Tile>::empty(),
    decreases grid.len(),
{
    broadcast use group_multiset_axioms;

    if grid.len() > 0 {
        lemma_grid_tiles_empty(grid.drop_last());
        lemma_row_tiles_bound(grid.last());
    }
}

/// One square of the board: its coordinates and the tile on it, if any.
#[derive(Debug)]
pub struct Cell {
    pub tile: Option<Tile>,
    pub row: usize,
    pub col: usize,
}

impl Cell {
    /// What the cell shows: the letter of its tile, or `N/A` when it is
    /// empty.
    pub open spec fn label_text(&self) -> Seq<char> {
        match self.tile {
            Some(tile) => seq![tile.letter()],
            None => "N/A"@,
        }
    }

    /// The text to show for the cell.
    pub fn label(&self) -> (text: String)
        ensures
            text@ == self.label_text(),
    {
        match &self.tile {
            Some(tile) => tile.label(),
            None => "N/A".to_owned(),
        }
    }
}

/// The grid on which tiles are placed. Its value is the grid of cell
/// contents, row by row: `board@[row][col]` is what lies at `(row, col)`.
#[derive(Debug)]
pub struct Board {
    width: usize,
    height: usize,
    grid: Vec<Vec<Cell>>,
}

impl View for Board {
    type V = Seq<Seq<Option<Tile>>>;

    closed spec fn view(&self) -> Seq<Seq<Option<Tile>>> {
        Seq::new(
            self.grid@.len(),
            |r: int| Seq::new(self.grid@[r]@.len(), |c: int| self.grid@[r]@[c].tile),
        )
    }
}

impl Board {
    /// Number of columns.
    pub closed spec fn spec_width(&self) -> usize {
        self.width
    }

    /// Number of rows.
    pub closed spec fn spec_height(&self) -> usize {
        self.height
    }

    /// Every cell records the coordinates at which it lies.
    pub closed spec fn coordinates_match(&self) -> bool {
        forall|r: int, c: int|
            0 <= r < self.grid@.len() && 0 <= c < self.grid@[r]@.len() ==> {
                &&& (#[trigger] self.grid@[r]@[c]).row == r
                &&& self.grid@[r]@[c].col == c
            }
    }

    /// The board has at least one row and one column, its grid has exactly
    /// `height` rows of `width` cells, the number of cells fits the machine,
    /// and every cell knows where it lies.
    pub open spec fn wf(&self) -> bool {
        &&& self.width() > 0
        &&& self.height() > 0
        &&& self.width() * self.height() <= usize::MAX
        &&& self@.len() == self.height()
        &&& forall|r: int| 0 <= r < self@.len() ==> (#[trigger] self@[r]).len() == self.width()
        &&& self.coordinates_match()
    }

    /// Whether `(row, col)` names a cell of the board.
    pub open spec fn in_bounds(&self, row: usize, col: usize) -> bool {
        row < self.height() && col < self.width()
    }

    /// The tiles that lie on the board.
    pub open spec fn placed_tiles(&self) -> Multiset<Tile> {
        grid_tiles(self@)
    }

    /// How many tiles lie on the board.
    pub open spec fn placed_count(&self) -> nat {
        self.placed_tiles().len()
    }

    /// What a placement at `(row, col)` would meet: a coordinate outside the
    /// grid, a cell that is taken, or nothing in its way.
    pub open spec fn placement(&self, row: usize, col: usize) -> Result<(), GameError> {
        if !self.in_bounds(row, col) {
            Err(GameError::OutOfBounds)
        } else if self@[row as int][col as int] is Some {
            Err(GameError::CellOccupied)
        } else {
            Ok(())
        }
    }

    /// A tile placed on an empty cell of the board is the tile found there
    /// afterwards: the placement is accepted, and in the board that it leaves
    /// (`after`, whose grid is this one's with the tile put on the cell) the
    /// cell holds that tile while all other cells hold what they held.
    pub proof fn lemma_place_then_get(self, after: Board, row: usize, col: usize, tile: Tile)
        requires
            self.wf(),
            self.in_bounds(row, col),
            self@[row as int][col as int] is None,
            after@ == with_tile(self@, row as int, col as int, tile),
        ensures
            self.placement(row, col) == Ok::<(), GameError>(()),
            after@[row as int][col as int] == Some(tile),
            forall|r: int, c: int|
                0 <= r < self.height() && 0 <= c < self.width() && (r != row || c != col)
                    ==> #[trigger] after@[r][c] == self@[r][c],
    {
        lemma_with_tile(self@, row as int, col as int, tile);
    }

    /// An empty board of `width` columns and `height` rows. A board without
    /// rows or without columns is refused, and so is one with more cells
    /// than the machine can count.
    pub fn new(width: usize, height: usize) -> (res: Result<Board, GameError>)
        ensures
            match res {
                Ok(board) => {
                    &&& width > 0 && height > 0 && width * height <= usize::MAX
                    &&& board.wf()
                    &&& board.width() == width
                    &&& board.height() == height
                    &&& forall|r: int, c: int|
                        0 <= r < height && 0 <= c < width ==> (#[trigger] board@[r][c]) is None
                    &&& board.placed_tiles() == Multiset::<Tile>::empty()
                },
                Err(e) => {
                    &&& e == GameError::InvalidDimensions
                    &&& (width == 0 || height == 0 || width * height > usize::MAX)
                },
            },
    {
        if width == 0 || height == 0 {
            return Err(GameError::InvalidDimensions);
        }
        if width.checked_mul(height).is_none() {
            return Err(GameError::InvalidDimensions);
        }
        let mut grid: Vec<Vec<Cell>> = Vec::new();
        let mut r: usize = 0;
        while r < height
            invariant
                r <= height,
                grid@.len() == r,
                forall|i: int| 0 <= i < r ==> (#[trigger] grid@[i])@.len() == width,
                forall|i: int, j: int|
                    0 <= i < r && 0 <= j < width ==> {
                        &&& (#[trigger] grid@[i]@[j]).tile is None
                        &&& grid@[i]@[j].row == i
                        &&& grid@[i]@[j].col == j
                    },
            decreases height - r,
        {
            let mut line: Vec<Cell> = Vec::new();
            let mut c: usize = 0;
            while c < width
                invariant
                    c <= width,
                    line@.len() == c,
                    forall|j: int|
                        0 <= j < c ==> {
                            &&& (#[trigger] line@[j]).tile is None
                            &&& line@[j].row == r
                            &&& line@[j].col == j
                        },
                decreases width - c,
            {
                line.push(Cell { tile: None, row: r, col: c });
                c += 1;
            }
            grid.push(line);
            r += 1;
        }
        let board = Board { width, height, grid };
        proof {
            lemma_grid_tiles_empty(board@);
        }
        Ok(board)
    }

    /// Number of columns.
    #[verifier::when_used_as_spec(spec_width)]
    pub fn width(&self) -> (n: usize)
        ensures
            n == self.width(),
    {
        self.width
    }

    /// Number of rows.
    #[verifier::when_used_as_spec(spec_height)]
    pub fn height(&self) -> (n: usize)
        ensures
            n == self.height(),
    {
        self.height
    }

    /// Says whether a tile could be placed at `(row, col)`, and if not, why.
    pub fn can_place(&self, row: usize, col: usize) -> (res: Result<(), GameError>)
        requires
            self.wf(),
        ensures
            res == self.placement(row, col),
    {
        if row >= self.height || col >= self.width {
            return Err(GameError::OutOfBounds);
        }
        if self.grid[row][col].tile.is_some() {
            Err(GameError::CellOccupied)
        } else {
            Ok(())
        }
    }

    /// Puts `tile` on the cell at `(row, col)`, which must lie on the board
    /// and be empty. A refused placement changes nothing: no cell is ever
    /// overwritten.
    pub fn place(&mut self, row: usize, col: usize, tile: Tile) -> (res: Result<(), GameError>)
        requires
            old(self).wf(),
        ensures
            final(self).wf(),
            final(self).width() == old(self).width(),
            final(self).height() == old(self).height(),
            res == old(self).placement(row, col),
            res is Err ==> *final(self) == *old(self),
            res is Ok ==> final(self)@ == with_tile(old(self)@, row as int, col as int, tile),
            res is Ok ==> final(self).placed_tiles() == old(self).placed_tiles().insert(tile),
    {
        match self.can_place(row, col) {
            Err(e) => Err(e),
            Ok(()) => {
                let line = &mut self.grid[row];
                line[col].tile = Some(tile);
                proof {
                    assert(self@ =~~= old(self)@.update(
                        row as int,
                        old(self)@[row as int].update(col as int, Some(tile)),
                    ));
                    lemma_grid_tiles_fill(old(self)@, row as int, col as int, tile);
                }
                Ok(())
            },
        }
    }

    /// The tile at `(row, col)`; nothing when the cell is empty or the
    /// coordinates lie outside the board.
    pub fn get(&self, row: usize, col: usize) -> (found: Option<&Tile>)
        requires
            self.wf(),
        ensures
            match found {
                Some(tile) => self.in_bounds(row, col) && self@[row as int][col as int] == Some(
                    *tile,
                ),
                None => !self.in_bounds(row, col) || self@[row as int][col as int] is None,
            },
    {
        if row >= self.height || col >= self.width {
            return None;
        }
        self.grid[row][col].tile.as_ref()
    }

    /// The rows of the board from top to bottom, each with its cells from
    /// left to right, for reading only. It can be walked any number of times.
    pub fn iter_rows(&self) -> (rows: &Vec<Vec<Cell>>)
        requires
            self.wf(),
        ensures
            rows@.len() == self.height(),
            forall|r: int| 0 <= r < self.height() ==> (#[trigger] rows@[r])@.len() == self.width(),
            forall|r: int, c: int|
                0 <= r < self.height() && 0 <= c < self.width() ==> {
                    &&& (#[trigger] rows@[r]@[c]).tile == self@[r][c]
                    &&& rows@[r]@[c].row == r
                    &&& rows@[r]@[c].col == c
                },
    {
        proof {
            assert forall|r: int| 0 <= r < self.height() implies (#[trigger] self.grid@[r])@.len()
                == self.width() by {
                assert(self@[r].len() == self.width());
            }
        }
        &self.grid
    }

    /// Counts the tiles that lie on the board.
    pub fn count_placed(&self) -> (n: usize)
        requires
            self.wf(),
        ensures
            n == self.placed_count(),
    {
        broadcast use group_multiset_axioms;

        let mut n: usize = 0;
        let mut r: usize = 0;
        while r < self.height
            invariant
                self.wf(),
                r <= self.height(),
                n == grid_tiles(self@.take(r as int)).len(),
                n <= r * self.width(),
            decreases self.height() - r,
        {
            let ghost line = self@[r as int];
            let ghost above = n;
            let mut c: usize = 0;
            proof {
                broadcast use group_multiset_axioms;

                assert((r + 1) * self.width() <= self.height() * self.width()) by (nonlinear_arith)
                    requires
                        r + 1 <= self.height(),
                        self.width() >= 0,
                ;
                assert((r + 1) * self.width() == r * self.width() + self.width())
                    by (nonlinear_arith);
            }
            while c < self.width
                invariant
                    self.wf(),
                    r < self.height(),
                    c <= self.width(),
                    line == self@[r as int],
                    line.len() == self.width(),
                    above <= r * self.width(),
                    r * self.width() + self.width() <= usize::MAX,
                    n == above + row_tiles(line.take(c as int)).len(),
                    n <= above + c,
                decreases self.width() - c,
            {
                proof {
                    broadcast use group_multiset_axioms;

                    assert(line.take(c + 1).drop_last() =~= line.take(c as int));
                }
                if self.grid[r][c].tile.is_some() {
                    n += 1;
                }
                c += 1;
            }
            proof {
                broadcast use group_multiset_axioms;

                assert(line.take(self.width() as int) =~= line);
                assert(self@.take(r + 1).drop_last() =~= self@.take(r as int));
            }
            r += 1;
        }
        proof {
            assert(self@.take(self.height() as int) =~= self@);
        }
        n
    }
}

} // verus!
