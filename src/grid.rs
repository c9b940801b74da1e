//! The mathematical model of a universe and of its evolution rule.
use vstd::prelude::*;

verus! {

/// The state of one cell of the grid.
#[derive(Clone, Copy, Debug, PartialEq, Eq, Structural)]
pub enum Cell {
    Dead,
    Alive,
}

/// The state a cell takes in the next generation, from its current state and
/// the number of its live neighbours.
pub open spec fn next_state(c: Cell, live: nat) -> Cell {
    match c {
        Cell::Alive => if live < 2 {
            Cell::Dead
        } else if live == 2 || live == 3 {
            Cell::Alive
        } else {
            Cell::Dead
        },
        Cell::Dead => if live == 3 {
            Cell::Alive
        } else {
            Cell::Dead
        },
    }
}

/// The character that shows a cell when the grid is drawn as text.
pub open spec fn symbol(c: Cell) -> char {
    match c {
        Cell::Dead => '\u{25FB}',
        Cell::Alive => '\u{25FC}',
    }
}

/// A grid of cells: its dimensions and its cells in row-major order.
pub struct Grid {
    pub width: nat,
    pub height: nat,
    pub cells: Seq<Cell>,
}

impl Grid {
    /// The grid holds exactly one cell per position.
    pub open spec fn wf(self) -> bool {
        self.cells.len() == self.width * self.height
    }

    /// The grid of the given dimensions with every cell dead.
    pub open spec fn dead(width: nat, height: nat) -> Grid {
        Grid { width, height, cells: Seq::new(width * height, |i: int| Cell::Dead) }
    }

    /// The grid of the given dimensions whose cell `i` is alive exactly when
    /// `alive[i]` holds.
    pub open spec fn seeded(width: nat, height: nat, alive: Seq<bool>) -> Grid {
        Grid {
            width,
            height,
            cells: Seq::new(alive.len(), |i: int| if alive[i] { Cell::Alive } else { Cell::Dead }),
        }
    }

    pub open spec fn in_bounds(self, x: int, y: int) -> bool {
        0 <= x < self.width && 0 <= y < self.height
    }

    /// Position of the cell `(x, y)` in the row-major sequence.
    pub open spec fn index(self, x: int, y: int) -> int {
        x + y * self.width
    }

    pub open spec fn cell_at(self, x: int, y: int) -> Cell {
        self.cells[self.index(x, y)]
    }

    /// Column reached from column `x` by the offset `dx`, wrapping around.
    pub open spec fn wrap_x(self, x: int, dx: int) -> int {
        (x + dx) % (self.width as int)
    }

    /// Row reached from row `y` by the offset `dy`, wrapping around.
    pub open spec fn wrap_y(self, y: int, dy: int) -> int {
        (y + dy) % (self.height as int)
    }

    /// 1 when the neighbour of `(x, y)` at offset `(dx, dy)` is alive, 0 when it
    /// is dead or when the offset is `(0, 0)`.
    pub open spec fn neighbour_term(self, x: int, y: int, dx: int, dy: int) -> nat {
        if dx == 0 && dy == 0 {
            0
        } else if self.cell_at(self.wrap_x(x, dx), self.wrap_y(y, dy)) == Cell::Alive {
            1
        } else {
            0
        }
    }

    /// Live neighbours of `(x, y)` at the row offset `dy`, over the column
    /// offsets `width - 1`, `0` and `1`.
    pub open spec fn row_neighbours(self, x: int, y: int, dy: int) -> nat {
        self.neighbour_term(x, y, self.width - 1, dy) + self.neighbour_term(x, y, 0, dy)
            + self.neighbour_term(x, y, 1, dy)
    }

    /// Live neighbours of `(x, y)`, over the row offsets `height - 1`, `0` and `1`.
    pub open spec fn neighbours(self, x: int, y: int) -> nat {
        self.row_neighbours(x, y, self.height - 1) + self.row_neighbours(x, y, 0)
            + self.row_neighbours(x, y, 1)
    }

    /// The next generation: every cell follows the rule from its own state and
    /// its neighbours in this generation.
    pub open spec fn next(self) -> Grid {
        Grid {
            width: self.width,
            height: self.height,
            cells: Seq::new(
                self.cells.len(),
                |i: int|
                    next_state(
                        self.cells[i],
                        self.neighbours(i % (self.width as int), i / (self.width as int)),
                    ),
            ),
        }
    }

    /// The grid after `n` generations.
    pub open spec fn generation(self, n: nat) -> Grid
        decreases n,
    {
        if n == 0 {
            self
        } else {
            self.generation((n - 1) as nat).next()
        }
    }

    /// Whether some coordinate pair of `coords` names the position `k`.
    pub open spec fn marks(self, coords: Seq<(u32, u32)>, k: int) -> bool {
        exists|i: int| 0 <= i < coords.len() && self.index(coords[i].0 as int, coords[i].1 as int) == k
    }

    /// Whether every coordinate pair of `coords` lies inside the grid.
    pub open spec fn all_in_bounds(self, coords: Seq<(u32, u32)>) -> bool {
        forall|i: int| 0 <= i < coords.len() ==> self.in_bounds(coords[i].0 as int, coords[i].1 as int)
    }

    /// The grid with the cells named by `coords` made alive, the others as they were.
    pub open spec fn with_alive(self, coords: Seq<(u32, u32)>) -> Grid {
        Grid {
            width: self.width,
            height: self.height,
            cells: Seq::new(
                self.cells.len(),
                |k: int| if self.marks(coords, k) { Cell::Alive } else { self.cells[k] },
            ),
        }
    }

    /// Row `y` drawn as text: one symbol per cell, then a newline.
    pub open spec fn row_text(self, y: int) -> Seq<char> {
        Seq::new(self.width, |x: int| symbol(self.cell_at(x, y))).push('\n')
    }

    /// The first `n` rows drawn as text.
    pub open spec fn rows_text(self, n: nat) -> Seq<char>
        decreases n,
    {
        if n == 0 {
            Seq::empty()
        } else {
            self.rows_text((n - 1) as nat) + self.row_text(n - 1)
        }
    }

    /// The whole grid drawn as text, one line per row.
    pub open spec fn text(self) -> Seq<char> {
        self.rows_text(self.height)
    }
}

} // verus!
