//! Laws of the evolution rule, proved over the model.
use vstd::prelude::*;
use vstd::arithmetic::div_mod::{
    lemma_fundamental_div_mod, lemma_fundamental_div_mod_converse, lemma_mod_pos_bound,
};
use crate::grid::{next_state, Cell, Grid};

verus! {

/// The grid of the given dimensions whose live cells are the positions where
/// `alive` holds.
pub open spec fn pattern(width: nat, height: nat, alive: spec_fn(int, int) -> bool) -> Grid {
    Grid {
        width,
        height,
        cells: Seq::new(
            width * height,
            |i: int|
                if alive(i % (width as int), i / (width as int)) {
                    Cell::Alive
                } else {
                    Cell::Dead
                },
        ),
    }
}

/// Whether `x` is `c` or one of its two neighbours on a ring of `n` positions.
pub open spec fn near(n: nat, c: int, x: int) -> bool {
    x == (c + (n - 1)) % (n as int) || x == c || x == (c + 1) % (n as int)
}

/// The 2x2 block whose top-left cell is `(bx, by)`, every other cell dead.
pub open spec fn block(width: nat, height: nat, bx: int, by: int) -> Grid {
    pattern(
        width,
        height,
        |x: int, y: int|
            (x == bx || x == (bx + 1) % (width as int)) && (y == by || y == (by + 1) % (
            height as int)),
    )
}

/// Three live cells side by side in row `by`, centred on column `bx`.
pub open spec fn horizontal_blinker(width: nat, height: nat, bx: int, by: int) -> Grid {
    pattern(width, height, |x: int, y: int| near(width, bx, x) && y == by)
}

/// Three live cells one above the other in column `bx`, centred on row `by`.
pub open spec fn vertical_blinker(width: nat, height: nat, bx: int, by: int) -> Grid {
    pattern(width, height, |x: int, y: int| x == bx && near(height, by, y))
}

spec fn ind(b: bool) -> nat {
    if b {
        1
    } else {
        0
    }
}

/// How many of the positions `x - 1`, `x`, `x + 1` on a ring of `n` satisfy `f`.
spec fn hits(n: nat, f: spec_fn(int) -> bool, x: int) -> nat {
    ind(f((x + (n - 1)) % (n as int))) + ind(f(x % (n as int))) + ind(f((x + 1) % (n as int)))
}

spec fn prev(n: int, x: int) -> int {
    if x == 0 {
        n - 1
    } else {
        x - 1
    }
}

spec fn succ(n: int, x: int) -> int {
    if x == n - 1 {
        0
    } else {
        x + 1
    }
}

proof fn lemma_wrap(n: int, x: int)
    requires
        n >= 2,
        0 <= x < n,
    ensures
        (x + (n - 1)) % n == prev(n, x),
        x % n == x,
        (x + 1) % n == succ(n, x),
{
    if x == 0 {
        lemma_fundamental_div_mod_converse(x + (n - 1), n, 0, n - 1);
    } else {
        lemma_fundamental_div_mod_converse(x + (n - 1), n, 1, x - 1);
    }
    lemma_fundamental_div_mod_converse(x, n, 0, x);
    if x == n - 1 {
        lemma_fundamental_div_mod_converse(x + 1, n, 1, 0);
    } else {
        lemma_fundamental_div_mod_converse(x + 1, n, 0, x + 1);
    }
}

/// Position `i` of a grid's cell sequence lies at column `i % w`, row `i / w`,
/// inside the grid.
proof fn lemma_position(w: nat, h: nat, i: int)
    requires
        w > 0,
        0 <= i < w * h,
    ensures
        0 <= i % (w as int) < w,
        0 <= i / (w as int) < h,
{
    lemma_mod_pos_bound(i, w as int);
    lemma_fundamental_div_mod(i, w as int);
    let q = i / (w as int);
    let r = i % (w as int);
    assert(0 <= q < h) by (nonlinear_arith)
        requires
            i == w * q + r,
            0 <= r < w,
            0 <= i < w * h,
    ;
}

proof fn lemma_pattern_cell(w: nat, h: nat, alive: spec_fn(int, int) -> bool, x: int, y: int)
    requires
        w > 0,
        0 <= x < w,
        0 <= y < h,
    ensures
        pattern(w, h, alive).cell_at(x, y) == (if alive(x, y) {
            Cell::Alive
        } else {
            Cell::Dead
        }),
{
    let i = x + y * w;
    lemma_fundamental_div_mod_converse(i, w as int, y, x);
    assert(i < w * h) by (nonlinear_arith)
        requires
            0 <= x < w,
            0 <= y < h,
            i == x + y * w,
    ;
}

/// On a pattern whose live cells are those in chosen columns and chosen rows,
/// a cell's live neighbours, plus 1 when it is alive itself, are the product
/// of the live columns and live rows around it.
proof fn lemma_product_neighbours(
    w: nat,
    h: nat,
    col: spec_fn(int) -> bool,
    row: spec_fn(int) -> bool,
    alive: spec_fn(int, int) -> bool,
    x: int,
    y: int,
)
    requires
        w >= 2,
        h >= 2,
        0 <= x < w,
        0 <= y < h,
        forall|u: int, v: int| #[trigger] alive(u, v) == (col(u) && row(v)),
    ensures
        pattern(w, h, alive).neighbours(x, y) + ind(alive(x, y)) == hits(w, col, x) * hits(h, row, y),
{
    let g = pattern(w, h, alive);
    lemma_wrap(w as int, x);
    lemma_wrap(h as int, y);
    let xs = seq![(x + (w - 1)) % (w as int), x, (x + 1) % (w as int)];
    let ys = seq![(y + (h - 1)) % (h as int), y, (y + 1) % (h as int)];
    assert forall|i: int, j: int| 0 <= i < 3 && 0 <= j < 3 implies g.cell_at(xs[i], ys[j]) == (if col(
        xs[i],
    ) && row(ys[j]) {
        Cell::Alive
    } else {
        Cell::Dead
    }) by {
        lemma_pattern_cell(w, h, alive, xs[i], ys[j]);
    }
    assert(g.wrap_x(x, 0) == x && g.wrap_y(y, 0) == y);
    assert(g.wrap_x(x, w - 1) == xs[0] && g.wrap_x(x, 1) == xs[2]);
    assert(g.wrap_y(y, h - 1) == ys[0] && g.wrap_y(y, 1) == ys[2]);
    let a0 = ind(col(xs[0]));
    let a1 = ind(col(xs[1]));
    let a2 = ind(col(xs[2]));
    let b0 = ind(row(ys[0]));
    let b1 = ind(row(ys[1]));
    let b2 = ind(row(ys[2]));
    assert(g.neighbour_term(x, y, w - 1, h - 1) == a0 * b0);
    assert(g.neighbour_term(x, y, 0, h - 1) == a1 * b0);
    assert(g.neighbour_term(x, y, 1, h - 1) == a2 * b0);
    assert(g.neighbour_term(x, y, w - 1, 0) == a0 * b1);
    assert(g.neighbour_term(x, y, 1, 0) == a2 * b1);
    assert(g.neighbour_term(x, y, w - 1, 1) == a0 * b2);
    assert(g.neighbour_term(x, y, 0, 1) == a1 * b2);
    assert(g.neighbour_term(x, y, 1, 1) == a2 * b2);
    assert(ind(alive(x, y)) == a1 * b1);
    assert((a0 * b0 + a1 * b0 + a2 * b0) + (a0 * b1 + a2 * b1) + (a0 * b2 + a1 * b2 + a2 * b2) + a1
        * b1 == (a0 + a1 + a2) * (b0 + b1 + b2)) by (nonlinear_arith);
}

/// Around any position, at most two of three neighbouring positions fall on
/// a pair of adjacent positions, and both do around either of the pair.
proof fn lemma_pair_hits(n: nat, c: int, f: spec_fn(int) -> bool, x: int)
    requires
        n >= 3,
        0 <= c < n,
        0 <= x < n,
        forall|v: int| #[trigger] f(v) == (v == c || v == (c + 1) % (n as int)),
    ensures
        hits(n, f, x) <= 2,
        (x == c || x == (c + 1) % (n as int)) ==> hits(n, f, x) == 2,
{
    lemma_wrap(n as int, c);
    lemma_wrap(n as int, x);
}

/// Around a position, three neighbouring positions fall on one chosen
/// position exactly when the position is near it.
proof fn lemma_single_hits(n: nat, c: int, f: spec_fn(int) -> bool, x: int)
    requires
        n >= 3,
        0 <= c < n,
        0 <= x < n,
        forall|v: int| #[trigger] f(v) == (v == c),
    ensures
        hits(n, f, x) == ind(near(n, c, x)),
{
    lemma_wrap(n as int, c);
    lemma_wrap(n as int, x);
}

/// Three neighbouring positions all fall on the three positions near `c`
/// around `c` itself, and at most two of them do around any other position.
proof fn lemma_triple_hits(n: nat, c: int, f: spec_fn(int) -> bool, x: int)
    requires
        n >= 4,
        0 <= c < n,
        0 <= x < n,
        forall|v: int| #[trigger] f(v) == near(n, c, v),
    ensures
        x == c ==> hits(n, f, x) == 3,
        x != c ==> hits(n, f, x) <= 2,
{
    lemma_wrap(n as int, c);
    lemma_wrap(n as int, x);
}

/// A 2x2 block of live cells, every other cell dead, is the same in the next
/// generation, on a grid at least three cells wide and three cells high.
pub proof fn lemma_block_next(width: nat, height: nat, bx: int, by: int)
    requires
        width >= 3,
        height >= 3,
        0 <= bx < width,
        0 <= by < height,
    ensures
        block(width, height, bx, by).next() == block(width, height, bx, by),
{
    let (w, h) = (width, height);
    let g = block(w, h, bx, by);
    let col = |v: int| v == bx || v == (bx + 1) % (w as int);
    let row = |v: int| v == by || v == (by + 1) % (h as int);
    let alive = |x: int, y: int|
        (x == bx || x == (bx + 1) % (w as int)) && (y == by || y == (by + 1) % (h as int));
    assert(g.cells =~= pattern(w, h, alive).cells);
    assert(g == pattern(w, h, alive));
    assert forall|i: int| 0 <= i < g.cells.len() implies g.next().cells[i] == g.cells[i] by {
        let x = i % (w as int);
        let y = i / (w as int);
        lemma_position(w, h, i);
        lemma_product_neighbours(w, h, col, row, alive, x, y);
        lemma_pair_hits(w, bx, col, x);
        lemma_pair_hits(h, by, row, y);
        let hc = hits(w, col, x);
        let hr = hits(h, row, y);
        assert(g.cells[i] == (if alive(x, y) {
            Cell::Alive
        } else {
            Cell::Dead
        }));
        if alive(x, y) {
            assert(x == bx || x == (bx + 1) % (w as int));
            assert(hc == 2);
            assert(hr == 2);
            assert(hc * hr == 4) by (nonlinear_arith)
                requires
                    hc == 2,
                    hr == 2,
            ;
            assert(g.neighbours(x, y) == 3);
        } else {
            assert(hc * hr != 3) by (nonlinear_arith)
                requires
                    0 <= hc <= 2,
                    0 <= hr <= 2,
            ;
            assert(g.neighbours(x, y) != 3);
        }
    }
    assert(g.next().cells =~= g.cells);
}

/// A 2x2 block of live cells, every other cell dead, stays as it is in every
/// generation, on a grid at least three cells wide and three cells high.
pub proof fn lemma_block_is_still(width: nat, height: nat, bx: int, by: int, n: nat)
    requires
        width >= 3,
        height >= 3,
        0 <= bx < width,
        0 <= by < height,
    ensures
        block(width, height, bx, by).generation(n) == block(width, height, bx, by),
    decreases n,
{
    if n > 0 {
        lemma_block_is_still(width, height, bx, by, (n - 1) as nat);
        lemma_block_next(width, height, bx, by);
    }
}

/// A horizontal blinker becomes the vertical blinker with the same centre in
/// the next generation, on a grid at least four cells wide and three high.
pub proof fn lemma_horizontal_blinker_next(width: nat, height: nat, bx: int, by: int)
    requires
        width >= 4,
        height >= 3,
        0 <= bx < width,
        0 <= by < height,
    ensures
        horizontal_blinker(width, height, bx, by).next() == vertical_blinker(width, height, bx, by),
{
    let (w, h) = (width, height);
    let g = horizontal_blinker(w, h, bx, by);
    let t = vertical_blinker(w, h, bx, by);
    let col = |v: int| near(w, bx, v);
    let row = |v: int| v == by;
    let alive = |x: int, y: int| near(w, bx, x) && y == by;
    let target = |x: int, y: int| x == bx && near(h, by, y);
    assert(g.cells =~= pattern(w, h, alive).cells);
    assert(g == pattern(w, h, alive));
    assert(t.cells =~= pattern(w, h, target).cells);
    assert forall|i: int| 0 <= i < g.cells.len() implies g.next().cells[i] == t.cells[i] by {
        let x = i % (w as int);
        let y = i / (w as int);
        lemma_position(w, h, i);
        lemma_product_neighbours(w, h, col, row, alive, x, y);
        lemma_triple_hits(w, bx, col, x);
        lemma_single_hits(h, by, row, y);
        let hc = hits(w, col, x);
        let hr = hits(h, row, y);
        assert(hc * hr == if hr == 0 { 0 } else { hc }) by (nonlinear_arith)
            requires
                hr == 0 || hr == 1,
        ;
        lemma_wrap(h as int, by);
        lemma_wrap(h as int, y);
    }
    assert(g.next().cells =~= t.cells);
}

/// A vertical blinker becomes the horizontal blinker with the same centre in
/// the next generation, on a grid at least three cells wide and four high.
pub proof fn lemma_vertical_blinker_next(width: nat, height: nat, bx: int, by: int)
    requires
        width >= 3,
        height >= 4,
        0 <= bx < width,
        0 <= by < height,
    ensures
        vertical_blinker(width, height, bx, by).next() == horizontal_blinker(width, height, bx, by),
{
    let (w, h) = (width, height);
    let g = vertical_blinker(w, h, bx, by);
    let t = horizontal_blinker(w, h, bx, by);
    let col = |v: int| v == bx;
    let row = |v: int| near(h, by, v);
    let alive = |x: int, y: int| x == bx && near(h, by, y);
    let target = |x: int, y: int| near(w, bx, x) && y == by;
    assert(g.cells =~= pattern(w, h, alive).cells);
    assert(g == pattern(w, h, alive));
    assert(t.cells =~= pattern(w, h, target).cells);
    assert forall|i: int| 0 <= i < g.cells.len() implies g.next().cells[i] == t.cells[i] by {
        let x = i % (w as int);
        let y = i / (w as int);
        lemma_position(w, h, i);
        lemma_product_neighbours(w, h, col, row, alive, x, y);
        lemma_single_hits(w, bx, col, x);
        lemma_triple_hits(h, by, row, y);
        let hc = hits(w, col, x);
        let hr = hits(h, row, y);
        assert(hc * hr == if hc == 0 { 0 } else { hr }) by (nonlinear_arith)
            requires
                hc == 0 || hc == 1,
        ;
        lemma_wrap(w as int, bx);
        lemma_wrap(w as int, x);
    }
    assert(g.next().cells =~= t.cells);
}

/// A blinker alternates: the horizontal one turns vertical after one
/// generation and is back after two, on a grid at least four cells each way.
pub proof fn lemma_blinker_oscillates(width: nat, height: nat, bx: int, by: int)
    requires
        width >= 4,
        height >= 4,
        0 <= bx < width,
        0 <= by < height,
    ensures
        horizontal_blinker(width, height, bx, by).generation(1) == vertical_blinker(
            width,
            height,
            bx,
            by,
        ),
        horizontal_blinker(width, height, bx, by).generation(2) == horizontal_blinker(
            width,
            height,
            bx,
            by,
        ),
{
    let g = horizontal_blinker(width, height, bx, by);
    lemma_horizontal_blinker_next(width, height, bx, by);
    lemma_vertical_blinker_next(width, height, bx, by);
    assert(g.generation(1) == g.generation(0).next());
    assert(g.generation(2) == g.generation(1).next());
}

/// The single live cell `(cx, cy)`, every other cell dead.
pub open spec fn single(width: nat, height: nat, cx: int, cy: int) -> Grid {
    pattern(width, height, |x: int, y: int| x == cx && y == cy)
}

/// A live cell at the corner `(0, 0)` is a neighbour of the cells at the three
/// opposite corners, the grid wrapping around both ways, on a grid at least
/// three cells wide and three cells high.
pub proof fn lemma_corner_wraps(width: nat, height: nat)
    requires
        width >= 3,
        height >= 3,
    ensures
        single(width, height, 0, 0).neighbours(width - 1, height - 1) == 1,
        single(width, height, 0, 0).neighbours(width - 1, 0) == 1,
        single(width, height, 0, 0).neighbours(0, height - 1) == 1,
{
    let (w, h) = (width, height);
    let g = single(w, h, 0, 0);
    let col = |v: int| v == 0;
    let row = |v: int| v == 0;
    let alive = |x: int, y: int| x == 0 && y == 0;
    assert(g.cells =~= pattern(w, h, alive).cells);
    assert(g == pattern(w, h, alive));
    lemma_wrap(w as int, 0);
    lemma_wrap(h as int, 0);
    lemma_wrap(w as int, w - 1);
    lemma_wrap(h as int, h - 1);
    lemma_product_neighbours(w, h, col, row, alive, w - 1, h - 1);
    lemma_single_hits(w, 0, col, w - 1);
    lemma_single_hits(h, 0, row, h - 1);
    lemma_product_neighbours(w, h, col, row, alive, w - 1, 0);
    lemma_single_hits(h, 0, row, 0);
    lemma_product_neighbours(w, h, col, row, alive, 0, h - 1);
    lemma_single_hits(w, 0, col, 0);
}

/// Every generation of a grid keeps its dimensions and one cell per position.
pub proof fn lemma_generation_wf(g: Grid, n: nat)
    requires
        g.wf(),
    ensures
        g.generation(n).wf(),
        g.generation(n).width == g.width,
        g.generation(n).height == g.height,
    decreases n,
{
    if n > 0 {
        lemma_generation_wf(g, (n - 1) as nat);
    }
}

/// In every generation, a cell has at most eight live neighbours, and each
/// of its neighbours, found by wrapping around the edges, lies inside the grid.
pub proof fn lemma_neighbours_bounded(g: Grid, n: nat, x: int, y: int, dx: int, dy: int)
    requires
        g.wf(),
        g.in_bounds(x, y),
        dx == g.width - 1 || dx == 0 || dx == 1,
        dy == g.height - 1 || dy == 0 || dy == 1,
    ensures
        g.generation(n).neighbours(x, y) <= 8,
        g.in_bounds(g.wrap_x(x, dx), g.wrap_y(y, dy)),
        0 <= g.index(g.wrap_x(x, dx), g.wrap_y(y, dy)) < g.cells.len(),
{
    lemma_generation_wf(g, n);
    lemma_mod_pos_bound(x + dx, g.width as int);
    lemma_mod_pos_bound(y + dy, g.height as int);
    let (nx, ny) = (g.wrap_x(x, dx), g.wrap_y(y, dy));
    let (w, h) = (g.width as int, g.height as int);
    assert(nx + ny * w < w * h) by (nonlinear_arith)
        requires
            0 <= nx < w,
            0 <= ny < h,
    ;
    assert(0 <= ny * w) by (nonlinear_arith)
        requires
            0 <= ny,
            0 <= w,
    ;
}

} // verus!
