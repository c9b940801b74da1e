//! The executable universe: a toroidal grid of cells that evolves one
//! generation at a time.
use vstd::prelude::*;
use vstd::arithmetic::div_mod::lemma_fundamental_div_mod_converse;
use crate::grid::{next_state, symbol, Cell, Grid};

verus! {

/// Why an operation on a universe was refused.
#[derive(Clone, Copy, Debug, PartialEq, Eq, Structural)]
pub enum GridError {
    /// A coordinate lies outside the grid.
    OutOfRange,
    /// The initial states given do not number one per cell.
    SizeMismatch,
    /// The grid would hold more than `u32::MAX` cells.
    TooLarge,
}

/// A toroidal grid of cells, stored row by row.
pub struct Universe {
    width: u32,
    height: u32,
    cells: Vec<Cell>,
}

impl View for Universe {
    type V = Grid;

    closed spec fn view(&self) -> Grid {
        Grid { width: self.width as nat, height: self.height as nat, cells: self.cells@ }
    }
}

/// The state a cell takes in the next generation, from its current state and
/// the number of its live neighbours.
pub fn next_cell(cell: Cell, live_neighbours: u8) -> (r: Cell)
    ensures
        r == next_state(cell, live_neighbours as nat),
{
    match cell {
        Cell::Alive => if live_neighbours < 2 {
            Cell::Dead
        } else if live_neighbours == 2 || live_neighbours == 3 {
            Cell::Alive
        } else {
            Cell::Dead
        },
        Cell::Dead => if live_neighbours == 3 {
            Cell::Alive
        } else {
            Cell::Dead
        },
    }
}

/// The number of cells of a grid of the given dimensions.
fn cell_count(width: u32, height: u32) -> (r: u64)
    ensures
        r == width * height,
{
    assert(width as u64 * height as u64 <= u64::MAX) by (nonlinear_arith)
        requires
            width <= u32::MAX,
            height <= u32::MAX,
    ;
    width as u64 * height as u64
}

/// A vector of `n` dead cells.
fn dead_cells(n: u32) -> (r: Vec<Cell>)
    ensures
        r@ == Seq::new(n as nat, |i: int| Cell::Dead),
{
    let mut v: Vec<Cell> = Vec::with_capacity(n as usize);
    let mut i: u32 = 0;
    while i < n
        invariant
            i <= n,
            v@ == Seq::new(i as nat, |j: int| Cell::Dead),
        decreases n - i,
    {
        v.push(Cell::Dead);
        i = i + 1;
        assert(v@ =~= Seq::new(i as nat, |j: int| Cell::Dead));
    }
    v
}

/// Relies on `String::push`: it appends the character at the end of the string.
#[verifier::external_body]
fn push_char(s: &mut String, c: char)
    ensures
        final(s)@ == old(s)@.push(c),
{
    s.push(c)
}

impl Universe {
    /// The grid has one cell per position and at most `u32::MAX` cells.
    pub closed spec fn wf(&self) -> bool {
        &&& self.cells@.len() == self.width * self.height
        &&& self.width * self.height <= u32::MAX
    }

    /// What a well-formed universe shows of itself through its model.
    pub proof fn lemma_wf(&self)
        requires
            self.wf(),
        ensures
            self@.wf(),
            self@.width * self@.height <= u32::MAX,
    {
    }

    /// A universe of the given dimensions whose cell `i` (row-major) is alive
    /// exactly when `alive[i]` holds.
    pub fn new(width: u32, height: u32, alive: &[bool]) -> (r: Result<Universe, GridError>)
        ensures
            width * height > u32::MAX ==> r == Err::<Universe, GridError>(GridError::TooLarge),
            width * height <= u32::MAX && alive@.len() != width * height ==> r == Err::<
                Universe,
                GridError,
            >(GridError::SizeMismatch),
            width * height <= u32::MAX && alive@.len() == width * height ==> (r matches Ok(u)
                && u.wf() && u@ == Grid::seeded(width as nat, height as nat, alive@)),
    {
        let size: u64 = cell_count(width, height);
        if size > u32::MAX as u64 {
            return Err(GridError::TooLarge);
        }
        if alive.len() as u64 != size {
            return Err(GridError::SizeMismatch);
        }
        let mut cells: Vec<Cell> = Vec::with_capacity(alive.len());
        let mut i: usize = 0;
        while i < alive.len()
            invariant
                i <= alive@.len(),
                cells@ == Seq::new(
                    i as nat,
                    |j: int| if alive@[j] { Cell::Alive } else { Cell::Dead },
                ),
            decreases alive@.len() - i,
        {
            cells.push(if alive[i] { Cell::Alive } else { Cell::Dead });
            i = i + 1;
            assert(cells@ =~= Seq::new(
                i as nat,
                |j: int| if alive@[j] { Cell::Alive } else { Cell::Dead },
            ));
        }
        Ok(Universe { width, height, cells })
    }

    pub fn width(&self) -> (r: u32)
        ensures
            r == self@.width,
    {
        self.width
    }

    pub fn height(&self) -> (r: u32)
        ensures
            r == self@.height,
    {
        self.height
    }

    /// Changes the width and makes every cell dead. Refused, with nothing
    /// changed, when the grid would hold more than `u32::MAX` cells.
    pub fn set_width(&mut self, width: u32) -> (r: Result<(), GridError>)
        requires
            old(self).wf(),
        ensures
            final(self).wf(),
            width * old(self)@.height > u32::MAX ==> r == Err::<(), GridError>(GridError::TooLarge)
                && final(self)@ == old(self)@,
            width * old(self)@.height <= u32::MAX ==> r == Ok::<(), GridError>(())
                && final(self)@ == Grid::dead(width as nat, old(self)@.height),
    {
        let size: u64 = cell_count(width, self.height);
        if size > u32::MAX as u64 {
            return Err(GridError::TooLarge);
        }
        let cells = dead_cells(size as u32);
        *self = Universe { width, height: self.height, cells };
        Ok(())
    }

    /// Changes the height and makes every cell dead. Refused, with nothing
    /// changed, when the grid would hold more than `u32::MAX` cells.
    pub fn set_height(&mut self, height: u32) -> (r: Result<(), GridError>)
        requires
            old(self).wf(),
        ensures
            final(self).wf(),
            old(self)@.width * height > u32::MAX ==> r == Err::<(), GridError>(GridError::TooLarge)
                && final(self)@ == old(self)@,
            old(self)@.width * height <= u32::MAX ==> r == Ok::<(), GridError>(())
                && final(self)@ == Grid::dead(old(self)@.width, height as nat),
    {
        let size: u64 = cell_count(self.width, height);
        if size > u32::MAX as u64 {
            return Err(GridError::TooLarge);
        }
        let cells = dead_cells(size as u32);
        *self = Universe { width: self.width, height, cells };
        Ok(())
    }

    /// Position of the cell `(x, y)` in the row-major cell vector.
    fn get_index(&self, x: u32, y: u32) -> (r: usize)
        requires
            self.wf(),
            self@.in_bounds(x as int, y as int),
        ensures
            r == self@.index(x as int, y as int),
            r < self.cells@.len(),
    {
        proof {
            let (w, h) = (self.width as int, self.height as int);
            assert(x + y * w < w * h) by (nonlinear_arith)
                requires
                    0 <= x < w,
                    0 <= y < h,
            ;
        }
        (x + y * self.width) as usize
    }

    /// 1 when the neighbour of `(x, y)` at offset `(dx, dy)` is alive, 0 when
    /// it is dead or when the offset is `(0, 0)`.
    fn neighbour_term(&self, x: u32, y: u32, dx: u32, dy: u32) -> (r: u8)
        requires
            self.wf(),
            self@.in_bounds(x as int, y as int),
            dx <= self.width,
            dy <= self.height,
        ensures
            r == self@.neighbour_term(x as int, y as int, dx as int, dy as int),
            r <= 1,
    {
        if dx == 0 && dy == 0 {
            return 0;
        }
        let nx = ((x as u64 + dx as u64) % (self.width as u64)) as u32;
        let ny = ((y as u64 + dy as u64) % (self.height as u64)) as u32;
        let idx = self.get_index(nx, ny);
        match self.cells[idx] {
            Cell::Alive => 1,
            Cell::Dead => 0,
        }
    }

    /// Live neighbours of `(x, y)` at the row offset `dy`.
    fn row_neighbour_count(&self, x: u32, y: u32, dy: u32) -> (r: u8)
        requires
            self.wf(),
            self@.in_bounds(x as int, y as int),
            dy <= self.height,
        ensures
            r == self@.row_neighbours(x as int, y as int, dy as int),
            r <= 3,
    {
        self.neighbour_term(x, y, self.width - 1, dy) + self.neighbour_term(x, y, 0, dy)
            + self.neighbour_term(x, y, 1, dy)
    }

    /// The number of live cells among the eight neighbours of `(x, y)`, the
    /// grid wrapping around at its edges.
    pub fn live_neighbour_count(&self, x: u32, y: u32) -> (r: u8)
        requires
            self.wf(),
            self@.in_bounds(x as int, y as int),
        ensures
            r == self@.neighbours(x as int, y as int),
            r <= 8,
    {
        self.row_neighbour_count(x, y, self.height - 1) + self.row_neighbour_count(x, y, 0)
            + self.row_neighbour_count(x, y, 1)
    }

    /// Advances the universe by one generation.
    pub fn tick(&mut self)
        requires
            old(self).wf(),
        ensures
            final(self).wf(),
            final(self)@ == old(self)@.next(),
    {
        let ghost g = self@;
        let mut next: Vec<Cell> = Vec::with_capacity(self.cells.len());
        let mut y: u32 = 0;
        while y < self.height
            invariant
                self.wf(),
                self@ == g,
                y <= self.height,
                next@.len() == y * self.width,
                forall|i: int| 0 <= i < next@.len() ==> next@[i] == #[trigger] g.next().cells[i],
            decreases self.height - y,
        {
            let mut x: u32 = 0;
            while x < self.width
                invariant
                    self.wf(),
                    self@ == g,
                    y < self.height,
                    x <= self.width,
                    next@.len() == x + y * self.width,
                    forall|i: int| 0 <= i < next@.len() ==> next@[i] == #[trigger] g.next().cells[i],
                decreases self.width - x,
            {
                let index = self.get_index(x, y);
                let cell = self.cells[index];
                let live_neighbours = self.live_neighbour_count(x, y);
                proof {
                    lemma_fundamental_div_mod_converse(index as int, self.width as int, y as int, x as int);
                }
                next.push(next_cell(cell, live_neighbours));
                x = x + 1;
            }
            assert(x + y * self.width == (y + 1) * self.width) by (nonlinear_arith)
                requires
                    x == self.width,
            ;
            y = y + 1;
        }
        proof {
            assert(y * self.width == self.width * self.height) by (nonlinear_arith)
                requires
                    y == self.height,
            ;
            assert(next@ =~= g.next().cells);
        }
        *self = Universe { width: self.width, height: self.height, cells: next };
    }

    /// Makes alive every cell named by `coords`, leaving the others as they
    /// were. Refused, with nothing changed, when a coordinate lies outside the grid.
    pub fn set_cells(&mut self, coords: &[(u32, u32)]) -> (r: Result<(), GridError>)
        requires
            old(self).wf(),
        ensures
            final(self).wf(),
            !old(self)@.all_in_bounds(coords@) ==> r == Err::<(), GridError>(GridError::OutOfRange)
                && final(self)@ == old(self)@,
            old(self)@.all_in_bounds(coords@) ==> r == Ok::<(), GridError>(())
                && final(self)@ == old(self)@.with_alive(coords@),
    {
        let mut i: usize = 0;
        while i < coords.len()
            invariant
                self.wf(),
                i <= coords@.len(),
                forall|j: int|
                    0 <= j < i ==> self@.in_bounds(#[trigger] coords@[j].0 as int, coords@[j].1 as int),
            decreases coords@.len() - i,
        {
            let (x, y) = coords[i];
            if x >= self.width || y >= self.height {
                return Err(GridError::OutOfRange);
            }
            i = i + 1;
        }
        let ghost g = self@;
        proof {
            assert(g.with_alive(coords@.take(0)).cells =~= g.cells);
        }
        let mut i: usize = 0;
        while i < coords.len()
            invariant
                i <= coords@.len(),
                g.all_in_bounds(coords@),
                self.wf(),
                self@ == g.with_alive(coords@.take(i as int)),
            decreases coords@.len() - i,
        {
            let (x, y) = coords[i];
            let idx = self.get_index(x, y);
            self.cells.set(idx, Cell::Alive);
            proof {
                let prev = coords@.take(i as int);
                let cur = coords@.take(i + 1);
                assert forall|k: int| 0 <= k < g.cells.len() implies self@.cells[k]
                    == g.with_alive(cur).cells[k] by {
                    if k == idx {
                        assert(cur[i as int] == coords@[i as int]);
                        assert(g.marks(cur, k));
                    } else {
                        if g.marks(cur, k) {
                            let j = choose|j: int|
                                0 <= j < cur.len() && g.index(cur[j].0 as int, cur[j].1 as int) == k;
                            assert(prev[j] == cur[j]);
                            assert(g.marks(prev, k));
                        }
                        if g.marks(prev, k) {
                            let j = choose|j: int|
                                0 <= j < prev.len() && g.index(prev[j].0 as int, prev[j].1 as int) == k;
                            assert(prev[j] == cur[j]);
                            assert(g.marks(cur, k));
                        }
                    }
                }
                assert(self@.cells =~= g.with_alive(cur).cells);
            }
            i = i + 1;
        }
        proof {
            assert(coords@.take(coords@.len() as int) =~= coords@);
        }
        Ok(())
    }

    /// The grid drawn as text: one line per row, a dead cell as a white square
    /// and a live one as a black square.
    pub fn render(&self) -> (r: String)
        requires
            self.wf(),
        ensures
            r@ == self@.text(),
    {
        let mut s = String::new();
        let mut y: u32 = 0;
        while y < self.height
            invariant
                self.wf(),
                y <= self.height,
                s@ == self@.rows_text(y as nat),
            decreases self.height - y,
        {
            let mut x: u32 = 0;
            while x < self.width
                invariant
                    self.wf(),
                    y < self.height,
                    x <= self.width,
                    s@ == self@.rows_text(y as nat) + Seq::new(
                        x as nat,
                        |i: int| symbol(self@.cell_at(i, y as int)),
                    ),
                decreases self.width - x,
            {
                let idx = self.get_index(x, y);
                let c = match self.cells[idx] {
                    Cell::Dead => '\u{25FB}',
                    Cell::Alive => '\u{25FC}',
                };
                push_char(&mut s, c);
                x = x + 1;
                assert(s@ =~= self@.rows_text(y as nat) + Seq::new(
                    x as nat,
                    |i: int| symbol(self@.cell_at(i, y as int)),
                ));
            }
            push_char(&mut s, '\n');
            y = y + 1;
            assert(s@ =~= self@.rows_text(y as nat));
        }
        s
    }

    /// The cells, row by row, for reading in place.
    pub fn cells(&self) -> (r: &[Cell])
        ensures
            r@ == self@.cells,
    {
        self.cells.as_slice()
    }

    /// The cells, row by row, for reading in place.
    pub fn get_cells(&self) -> (r: &[Cell])
        ensures
            r@ == self@.cells,
    {
        self.cells.as_slice()
    }
}

} // verus!
