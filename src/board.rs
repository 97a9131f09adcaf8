use vstd::prelude::*;

use crate::cell::{neighbour_op, offset, Cell, Coordinates, NEIGHBOUR_COUNT};
use crate::error::{is_missing_cell, is_size_mismatch, missing_cell_error, size_mismatch_error, GameError};

verus! {

/// The 2D position `(x, y)` of the linear index `i` on a board of width `w`.
pub open spec fn to_2d(w: int, i: int) -> (int, int) {
    (i % w, i / w)
}

/// The linear (row-major) index of the position `p` on a board of width `w`.
pub open spec fn to_linear(w: int, p: (int, int)) -> int {
    p.1 * w + p.0
}

/// Whether `p` lies on a board of width `w` and height `h`.
pub open spec fn on_board(w: int, h: int, p: (int, int)) -> bool {
    0 <= p.0 < w && 0 <= p.1 < h
}

/// The position that the `k`-th offset leads to from `p`: the offset is subtracted.
pub open spec fn candidate(p: (int, int), k: int) -> (int, int) {
    (p.0 - offset(k).0, p.1 - offset(k).1)
}

/// The candidates of the first `k` offsets from `p` that lie on the board, in order.
pub open spec fn neighbour_coords_upto(w: int, h: int, p: (int, int), k: nat) -> Seq<(int, int)>
    decreases k,
{
    if k == 0 {
        seq![]
    } else {
        let prev = neighbour_coords_upto(w, h, p, (k - 1) as nat);
        let c = candidate(p, k - 1);
        if on_board(w, h, c) {
            prev.push(c)
        } else {
            prev
        }
    }
}

/// The positions of the neighbours of `p`, in the order of the offsets.
pub open spec fn neighbour_coords(w: int, h: int, p: (int, int)) -> Seq<(int, int)> {
    neighbour_coords_upto(w, h, p, 8)
}

/// The linear indices of the neighbours of the cell at linear index `i`.
pub open spec fn neighbour_indices(w: int, h: int, i: int) -> Seq<int> {
    neighbour_coords(w, h, to_2d(w, i)).map_values(|c: (int, int)| to_linear(w, c))
}

/// How many cells of `s` are alive.
pub open spec fn alive_count(s: Seq<Cell>) -> nat
    decreases s.len(),
{
    if s.len() == 0 {
        0
    } else {
        alive_count(s.drop_last()) + if s.last() is Alive {
            1nat
        } else {
            0nat
        }
    }
}

/// The birth/survival rule: the state that follows `c` with `n` living neighbours.
pub open spec fn next_state(c: Cell, n: nat) -> Cell {
    match c {
        Cell::Dead => if n == 3 {
            Cell::Alive
        } else {
            Cell::Dead
        },
        Cell::Alive => if n <= 1 || n >= 4 {
            Cell::Dead
        } else {
            Cell::Alive
        },
    }
}

/// The first index in `idx[m..]` that is not below `len`, or -1 where there is none.
pub open spec fn first_missing_from(idx: Seq<int>, len: int, m: int) -> int
    decreases idx.len() - m,
{
    if m < 0 || m >= idx.len() {
        -1
    } else if idx[m] >= len {
        idx[m]
    } else {
        first_missing_from(idx, len, m + 1)
    }
}

/// The index whose lookup fails when the cell at `i` is updated among `len` cells,
/// or -1 where every lookup succeeds: the cell itself is looked up first, then its
/// neighbours in order.
pub open spec fn missing_index(w: int, h: int, len: int, i: int) -> int {
    if i >= len {
        i
    } else {
        first_missing_from(neighbour_indices(w, h, i), len, 0)
    }
}

/// The first `i` in `[start, n)` whose update fails among `len` cells, or `n`.
pub open spec fn first_failure(w: int, h: int, len: int, start: int, n: int) -> int
    decreases n - start,
{
    if start >= n {
        n
    } else if missing_index(w, h, len, start) >= 0 {
        start
    } else {
        first_failure(w, h, len, start + 1, n)
    }
}

/// The neighbours of the cell at `i`, in the order of the offsets.
pub open spec fn neighbour_cells(w: int, h: int, cells: Seq<Cell>, i: int) -> Seq<Cell> {
    neighbour_indices(w, h, i).map_values(|j: int| cells[j])
}

/// The cells after the cell at `i` has been recomputed from the current `cells`.
pub open spec fn advance(w: int, h: int, cells: Seq<Cell>, i: int) -> Seq<Cell> {
    cells.update(i, next_state(cells[i], alive_count(neighbour_cells(w, h, cells, i))))
}

/// The cells after the indices `0..k` have been recomputed one after the other,
/// each from the cells as the earlier ones left them.
pub open spec fn scan(w: int, h: int, cells: Seq<Cell>, k: nat) -> Seq<Cell>
    decreases k,
{
    if k == 0 {
        cells
    } else {
        advance(w, h, scan(w, h, cells, (k - 1) as nat), k - 1)
    }
}

/// The glyphs of `cells`, concatenated in order.
pub open spec fn render_cells(cells: Seq<Cell>) -> Seq<char>
    decreases cells.len(),
{
    if cells.len() == 0 {
        seq![]
    } else {
        render_cells(cells.drop_last()) + crate::cell::glyph(cells.last())
    }
}

/// The product of two `u32` values fits in a `u64`.
pub proof fn lemma_size_fits(w: u32, h: u32)
    ensures
        0 <= w * h <= u64::MAX,
{
    assert(0 <= w * h <= u64::MAX) by (nonlinear_arith)
        requires
            0 <= w <= u32::MAX,
            0 <= h <= u32::MAX,
    ;
}

/// A position on the board has a linear index inside `[0, w * h)`.
pub proof fn lemma_linear_on_board(w: int, h: int, p: (int, int))
    requires
        on_board(w, h, p),
    ensures
        0 <= to_linear(w, p) < w * h,
{
    assert(0 <= p.1 * w + p.0 < w * h) by (nonlinear_arith)
        requires
            0 <= p.0 < w,
            0 <= p.1 < h,
    ;
}

/// Every valid linear index names a position on the board, and converting that
/// position back gives the index again.
pub proof fn lemma_index_round_trip(w: u32, h: u32, i: int)
    requires
        0 <= i < w * h,
    ensures
        on_board(w as int, h as int, to_2d(w as int, i)),
        to_linear(w as int, to_2d(w as int, i)) == i,
{
    assert(w > 0) by (nonlinear_arith)
        requires
            0 <= i < w * h,
            h >= 0,
    ;
    vstd::arithmetic::div_mod::lemma_fundamental_div_mod(i, w as int);
    vstd::arithmetic::div_mod::lemma_multiply_divide_lt(i, w as int, h as int);
    assert(i / (w as int) >= 0) by (nonlinear_arith)
        requires
            i >= 0,
            w > 0,
    ;
    assert((w as int) * (i / (w as int)) == (i / (w as int)) * (w as int)) by (nonlinear_arith);
}

/// Every neighbour position lies on the board.
pub proof fn lemma_neighbours_on_board(w: int, h: int, p: (int, int), k: nat)
    ensures
        forall|m: int|
            0 <= m < neighbour_coords_upto(w, h, p, k).len() ==> on_board(
                w,
                h,
                #[trigger] neighbour_coords_upto(w, h, p, k)[m],
            ),
    decreases k,
{
    if k > 0 {
        lemma_neighbours_on_board(w, h, p, (k - 1) as nat);
        let prev = neighbour_coords_upto(w, h, p, (k - 1) as nat);
        let cur = neighbour_coords_upto(w, h, p, k);
        assert forall|m: int| 0 <= m < cur.len() implies on_board(w, h, #[trigger] cur[m]) by {
            if m < prev.len() {
                assert(cur[m] == prev[m]);
            }
        }
    }
}

/// Where no index of `idx[m..]` reaches `len`, none is missing.
proof fn lemma_none_missing(idx: Seq<int>, len: int, m: int)
    requires
        0 <= m,
        forall|j: int| 0 <= j < idx.len() ==> #[trigger] idx[j] < len,
    ensures
        first_missing_from(idx, len, m) == -1,
    decreases idx.len() - m,
{
    if m < idx.len() {
        lemma_none_missing(idx, len, m + 1);
    }
}

/// On a board whose cell sequence matches its dimensions, no lookup fails.
pub proof fn lemma_no_failure(w: u32, h: u32, start: int, n: int)
    requires
        0 <= start,
        n == w * h,
    ensures
        first_failure(w as int, h as int, n, start, n) == n,
    decreases n - start,
{
    if start < n {
        let idx = neighbour_indices(w as int, h as int, start);
        let p = to_2d(w as int, start);
        lemma_neighbours_on_board(w as int, h as int, p, 8);
        assert forall|j: int| 0 <= j < idx.len() implies #[trigger] idx[j] < n by {
            lemma_linear_on_board(w as int, h as int, neighbour_coords(w as int, h as int, p)[j]);
        }
        lemma_none_missing(idx, n, 0);
        lemma_no_failure(w, h, start + 1, n);
    }
}

/// A finite, non-wrapping grid of cells, stored row-major.
#[derive(Debug)]
pub struct Board {
    pub dimensions: (u32, u32),
    pub cells: Vec<Cell>,
    pub debug: bool,
}

impl Board {
    /// The number of cells that the dimensions call for.
    pub open spec fn size(&self) -> nat {
        (self.dimensions.0 * self.dimensions.1) as nat
    }

    /// The cell sequence holds exactly one cell per grid position.
    pub open spec fn wf(&self) -> bool {
        self.cells@.len() == self.size()
    }

    /// Builds a board of the given `(width, height)` from `cells` in row-major order.
    pub fn new(dimensions: (u32, u32), cells: Vec<Cell>, debug: bool) -> (r: Result<Board, GameError>)
        ensures
            r is Ok <==> cells@.len() == dimensions.0 * dimensions.1,
            r matches Ok(b) ==> b.dimensions == dimensions && b.cells@ == cells@ && b.debug == debug
                && b.wf(),
            r matches Err(e) ==> is_size_mismatch(e, (dimensions.0 * dimensions.1) as nat, cells@.len()),
    {
        proof {
            lemma_size_fits(dimensions.0, dimensions.1);
        }
        let size: u64 = dimensions.0 as u64 * dimensions.1 as u64;
        let len: u64 = cells.len() as u64;
        if size != len {
            Err(size_mismatch_error(size, len))
        } else {
            Ok(Board { dimensions, cells, debug })
        }
    }

    fn get_cell(&self, index: u64) -> (r: Result<Cell, GameError>)
        ensures
            index < self.cells@.len() ==> r == Ok::<Cell, GameError>(self.cells@[index as int]),
            index >= self.cells@.len() ==> (r matches Err(e) && is_missing_cell(e, index as nat)),
    {
        if index < self.cells.len() as u64 {
            Ok(self.cells[index as usize])
        } else {
            Err(missing_cell_error(index))
        }
    }

    fn convert_to_2d(&self, index: u64) -> (r: Coordinates)
        requires
            index < self.size(),
        ensures
            r@ == to_2d(self.dimensions.0 as int, index as int),
            on_board(self.dimensions.0 as int, self.dimensions.1 as int, r@),
    {
        proof {
            lemma_index_round_trip(self.dimensions.0, self.dimensions.1, index as int);
        }
        let width: u64 = self.dimensions.0 as u64;
        let x = (index % width) as i64;
        let y = (index / width) as i64;
        Coordinates(x, y)
    }

    fn convert_to_1d(&self, c: &Coordinates) -> (r: u64)
        requires
            on_board(self.dimensions.0 as int, self.dimensions.1 as int, c@),
        ensures
            r == to_linear(self.dimensions.0 as int, c@),
    {
        proof {
            lemma_linear_on_board(self.dimensions.0 as int, self.dimensions.1 as int, c@);
            lemma_size_fits(self.dimensions.0, self.dimensions.1);
        }
        (c.1 as u64) * (self.dimensions.0 as u64) + (c.0 as u64)
    }

    fn get_neighbor_coords(&self, index: u64) -> (r: Vec<Coordinates>)
        requires
            index < self.size(),
        ensures
            r@.len() == neighbour_coords(
                self.dimensions.0 as int,
                self.dimensions.1 as int,
                to_2d(self.dimensions.0 as int, index as int),
            ).len(),
            forall|m: int|
                0 <= m < r@.len() ==> #[trigger] r@[m]@ == neighbour_coords(
                    self.dimensions.0 as int,
                    self.dimensions.1 as int,
                    to_2d(self.dimensions.0 as int, index as int),
                )[m] && on_board(self.dimensions.0 as int, self.dimensions.1 as int, r@[m]@),
    {
        let ghost w = self.dimensions.0 as int;
        let ghost h = self.dimensions.1 as int;
        let coords = self.convert_to_2d(index);
        let ghost p = coords@;
        let mut r: Vec<Coordinates> = Vec::new();
        let mut k: usize = 0;
        while k < NEIGHBOUR_COUNT
            invariant
                k <= NEIGHBOUR_COUNT,
                coords@ == p,
                on_board(w, h, p),
                w == self.dimensions.0,
                h == self.dimensions.1,
                r@.len() == neighbour_coords_upto(w, h, p, k as nat).len(),
                forall|m: int|
                    0 <= m < r@.len() ==> #[trigger] r@[m]@ == neighbour_coords_upto(
                        w,
                        h,
                        p,
                        k as nat,
                    )[m] && on_board(w, h, r@[m]@),
            decreases NEIGHBOUR_COUNT - k,
        {
            let c = coords.sub(neighbour_op(k));
            if c.0 > -1 && c.1 > -1 && c.0 < self.dimensions.0 as i64 && c.1
                < self.dimensions.1 as i64 {
                r.push(c);
            }
            k += 1;
        }
        r
    }

    fn get_neighbors(&self, index: u64) -> (r: Result<Vec<Cell>, GameError>)
        requires
            index < self.size(),
        ensures
            ({
                let idx = neighbour_indices(
                    self.dimensions.0 as int,
                    self.dimensions.1 as int,
                    index as int,
                );
                let missing = first_missing_from(idx, self.cells@.len() as int, 0);
                &&& missing < 0 ==> (r matches Ok(v) && v@ == neighbour_cells(
                    self.dimensions.0 as int,
                    self.dimensions.1 as int,
                    self.cells@,
                    index as int,
                ))
                &&& missing >= 0 ==> (r matches Err(e) && is_missing_cell(e, missing as nat))
            }),
    {
        let ghost w = self.dimensions.0 as int;
        let ghost h = self.dimensions.1 as int;
        let ghost len = self.cells@.len() as int;
        let ghost idx = neighbour_indices(w, h, index as int);
        let coords = self.get_neighbor_coords(index);
        assert forall|j: int| 0 <= j < coords@.len() implies to_linear(w, #[trigger] coords@[j]@)
            == idx[j] && on_board(w, h, coords@[j]@) by {}
        let mut out: Vec<Cell> = Vec::new();
        let mut m: usize = 0;
        while m < coords.len()
            invariant
                m <= coords@.len(),
                idx == neighbour_indices(w, h, index as int),
                coords@.len() == idx.len(),
                forall|j: int|
                    0 <= j < coords@.len() ==> to_linear(w, #[trigger] coords@[j]@) == idx[j]
                        && on_board(w, h, coords@[j]@),
                w == self.dimensions.0,
                h == self.dimensions.1,
                len == self.cells@.len(),
                first_missing_from(idx, len, 0) == first_missing_from(idx, len, m as int),
                out@.len() == m,
                forall|j: int| 0 <= j < m ==> 0 <= #[trigger] idx[j] < len,
                forall|j: int| 0 <= j < m ==> #[trigger] out@[j] == self.cells@[idx[j]],
            decreases coords@.len() - m,
        {
            let lin = self.convert_to_1d(&coords[m]);
            let c = match self.get_cell(lin) {
                Ok(c) => c,
                Err(e) => {
                    return Err(e);
                },
            };
            let ghost before = out@;
            out.push(c);
            assert(0 <= idx[m as int] < len);
            assert forall|i: int| 0 <= i <= m implies #[trigger] out@[i] == self.cells@[idx[i]] by {
                if i < m {
                    assert(out@[i] == before[i]);
                }
            }
            m += 1;
        }
        proof {
            assert(out@ =~= neighbour_cells(w, h, self.cells@, index as int));
        }
        Ok(out)
    }

    fn update_cell(&mut self, index: u64) -> (r: Result<(), GameError>)
        requires
            index < old(self).size(),
        ensures
            final(self).dimensions == old(self).dimensions,
            final(self).debug == old(self).debug,
            ({
                let w = old(self).dimensions.0 as int;
                let h = old(self).dimensions.1 as int;
                let missing = missing_index(w, h, old(self).cells@.len() as int, index as int);
                &&& missing < 0 ==> r is Ok && final(self).cells@ == advance(
                    w,
                    h,
                    old(self).cells@,
                    index as int,
                )
                &&& missing >= 0 ==> (r matches Err(e) && is_missing_cell(e, missing as nat))
                    && final(self).cells@ == old(self).cells@
            }),
    {
        let ghost before = self.cells@;
        let cell = match self.get_cell(index) {
            Ok(c) => c,
            Err(e) => {
                return Err(e);
            },
        };
        let neighbors = match self.get_neighbors(index) {
            Ok(v) => v,
            Err(e) => {
                return Err(e);
            },
        };
        let mut living: usize = 0;
        let mut m: usize = 0;
        while m < neighbors.len()
            invariant
                m <= neighbors@.len(),
                living == alive_count(neighbors@.take(m as int)),
                living <= m,
                cell == before[index as int],
                self.cells@ == before,
                index < before.len(),
                self.dimensions == old(self).dimensions,
                neighbors@ == neighbour_cells(
                    self.dimensions.0 as int,
                    self.dimensions.1 as int,
                    before,
                    index as int,
                ),
            decreases neighbors@.len() - m,
        {
            proof {
                assert(neighbors@.take(m + 1).drop_last() =~= neighbors@.take(m as int));
            }
            if neighbors[m].is_alive() {
                living += 1;
            }
            m += 1;
        }
        proof {
            assert(neighbors@.take(neighbors@.len() as int) =~= neighbors@);
        }
        let n_cells: usize = self.cells.len();
        assert(index < n_cells);
        let pos: usize = index as usize;
        match cell {
            Cell::Dead => {
                if living == 3 {
                    self.cells.set(pos, Cell::Alive);
                }
            },
            Cell::Alive => {
                if living <= 1 || living >= 4 {
                    self.cells.set(pos, Cell::Dead);
                }
            },
        }
        proof {
            assert(self.cells@ =~= advance(
                self.dimensions.0 as int,
                self.dimensions.1 as int,
                before,
                index as int,
            ));
        }
        Ok(())
    }

    /// Advances the board by one generation, in place.
    ///
    /// The cells are recomputed one at a time in ascending linear order, each from
    /// the cells as the earlier steps left them: a cell sees its lower-index
    /// neighbours already in the new generation and its higher-index neighbours still
    /// in the old one. The first cell whose lookup fails stops the scan with
    /// `CellDoesNotExist`; the cells before it keep their new state and the rest their
    /// old one. On a well-formed board every lookup succeeds.
    pub fn update(&mut self) -> (r: Result<(), GameError>)
        ensures
            final(self).dimensions == old(self).dimensions,
            final(self).debug == old(self).debug,
            ({
                let w = old(self).dimensions.0 as int;
                let h = old(self).dimensions.1 as int;
                let len = old(self).cells@.len() as int;
                let stop = first_failure(w, h, len, 0, w * h);
                &&& final(self).cells@ == scan(w, h, old(self).cells@, stop as nat)
                &&& r is Ok <==> stop == w * h
                &&& r is Err ==> (r matches Err(e) && is_missing_cell(
                    e,
                    missing_index(w, h, len, stop) as nat,
                ))
            }),
            old(self).wf() ==> r is Ok && final(self).wf(),
    {
        let ghost w = self.dimensions.0 as int;
        let ghost h = self.dimensions.1 as int;
        let ghost len = self.cells@.len() as int;
        let ghost start = self.cells@;
        proof {
            lemma_size_fits(self.dimensions.0, self.dimensions.1);
            if len == w * h {
                lemma_no_failure(self.dimensions.0, self.dimensions.1, 0, len);
            }
        }
        let size: u64 = self.dimensions.0 as u64 * self.dimensions.1 as u64;
        let mut i: u64 = 0;
        while i < size
            invariant
                i <= size,
                size == w * h,
                w == self.dimensions.0,
                h == self.dimensions.1,
                self.dimensions == old(self).dimensions,
                self.debug == old(self).debug,
                start == old(self).cells@,
                len == start.len(),
                self.cells@.len() == len,
                first_failure(w, h, len, 0, w * h) == first_failure(w, h, len, i as int, w * h),
                len == w * h ==> first_failure(w, h, len, 0, w * h) == w * h,
                self.cells@ == scan(w, h, start, i as nat),
            decreases size - i,
        {
            match self.update_cell(i) {
                Ok(()) => {},
                Err(e) => {
                    return Err(e);
                },
            }
            i += 1;
        }
        Ok(())
    }

    /// The glyphs of all cells in row-major order, with no separators.
    pub fn render(&self) -> (r: String)
        ensures
            r@ == render_cells(self.cells@),
    {
        let mut s = String::new();
        let mut m: usize = 0;
        while m < self.cells.len()
            invariant
                m <= self.cells@.len(),
                s@ == render_cells(self.cells@.take(m as int)),
            decreases self.cells@.len() - m,
        {
            proof {
                assert(self.cells@.take(m + 1).drop_last() =~= self.cells@.take(m as int));
            }
            s.append(self.cells[m].render());
            m += 1;
        }
        proof {
            assert(self.cells@.take(self.cells@.len() as int) =~= self.cells@);
        }
        s
    }
}

/// The seed pattern: even linear indices alive, odd ones dead.
pub open spec fn seed_cell(i: int) -> Cell {
    if i % 2 == 0 {
        Cell::Alive
    } else {
        Cell::Dead
    }
}

impl Default for Board {
    /// A 128 by 64 board whose cells alternate alive and dead by index parity,
    /// starting alive.
    fn default() -> (r: Board)
        ensures
            r.dimensions == (128u32, 64u32),
            !r.debug,
            r.wf(),
            forall|i: int| 0 <= i < r.cells@.len() ==> #[trigger] r.cells@[i] == seed_cell(i),
    {
        let dimensions: (u32, u32) = (128, 64);
        let size: u64 = dimensions.0 as u64 * dimensions.1 as u64;
        let mut cells: Vec<Cell> = Vec::new();
        let mut i: u64 = 0;
        while i < size
            invariant
                i <= size,
                size == 128 * 64,
                cells@.len() == i,
                forall|j: int| 0 <= j < i ==> #[trigger] cells@[j] == seed_cell(j),
            decreases size - i,
        {
            if i % 2 == 0 {
                cells.push(Cell::Alive);
            } else {
                cells.push(Cell::Dead);
            }
            i += 1;
        }
        Board { dimensions, cells, debug: false }
    }
}

/// The neighbour count of a cell depends only on where it lies: on a board at least
/// two cells wide and high, a corner cell has 3 neighbours, another cell on the
/// border 5, and an interior cell 8.
pub proof fn lemma_neighbour_count(w: u32, h: u32, i: int)
    requires
        w >= 2,
        h >= 2,
        0 <= i < w * h,
    ensures
        ({
            let p = to_2d(w as int, i);
            let x_edge = p.0 == 0 || p.0 == w - 1;
            let y_edge = p.1 == 0 || p.1 == h - 1;
            neighbour_indices(w as int, h as int, i).len() == if x_edge && y_edge {
                3int
            } else if x_edge || y_edge {
                5int
            } else {
                8int
            }
        }),
{
    lemma_index_round_trip(w, h, i);
    reveal_with_fuel(neighbour_coords_upto, 9);
}

/// The rendering has one glyph per cell.
pub proof fn lemma_render_length(cells: Seq<Cell>)
    ensures
        render_cells(cells).len() == cells.len(),
    decreases cells.len(),
{
    if cells.len() > 0 {
        lemma_render_length(cells.drop_last());
    }
}

/// Rendering depends on the cells alone: rendering the same board twice, with no
/// update between, gives identical strings, one glyph per grid position on a
/// well-formed board.
pub proof fn lemma_render_repeatable(b: Board, first: Seq<char>, second: Seq<char>)
    requires
        first == render_cells(b.cells@),
        second == render_cells(b.cells@),
    ensures
        first == second,
        b.wf() ==> first.len() == b.size(),
{
    lemma_render_length(b.cells@);
}

} // verus!
