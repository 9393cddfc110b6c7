//! The 5×5 toroidal world and its pure transition rules.

use vstd::prelude::*;

verus! {

/// A 5×5 grid of cells, addressed `[row][col]`; a live cell holds 1, a dead one 0.
pub type Board = [[u8; 5]; 5];

/// The board as rows of cells.
pub open spec fn grid(w: Board) -> Seq<Seq<u8>> {
    Seq::new(5, |r: int| w[r]@)
}

/// The 5×5 grid of dead cells.
pub open spec fn empty_grid() -> Seq<Seq<u8>> {
    Seq::new(5, |r: int| Seq::new(5, |c: int| 0u8))
}

/// Every cell of a 5×5 grid is 0 or 1.
pub open spec fn is_binary(g: Seq<Seq<u8>>) -> bool {
    forall|r: int, c: int| 0 <= r < 5 && 0 <= c < 5 ==> #[trigger] g[r][c] <= 1
}

/// Every cell of a 5×5 grid is dead.
pub open spec fn is_empty(g: Seq<Seq<u8>>) -> bool {
    forall|r: int, c: int| 0 <= r < 5 && 0 <= c < 5 ==> #[trigger] g[r][c] == 0
}

/// Returns `true` iff the board holds no live cell.
pub fn done(fb: &Board) -> (r: bool)
    ensures
        r == is_empty(grid(*fb)),
        r == (grid_sum(grid(*fb)) == 0),
{
    proof {
        lemma_quiescent_iff_zero_sum(*fb);
    }
    let mut row: usize = 0;
    while row < 5
        invariant
            row <= 5,
            forall|r: int, c: int| 0 <= r < row && 0 <= c < 5 ==> #[trigger] grid(*fb)[r][c] == 0,
        decreases 5 - row,
    {
        let mut col: usize = 0;
        while col < 5
            invariant
                row < 5,
                col <= 5,
                forall|r: int, c: int| 0 <= r < row && 0 <= c < 5 ==> #[trigger] grid(*fb)[r][c] == 0,
                forall|c: int| 0 <= c < col ==> #[trigger] grid(*fb)[row as int][c] == 0,
            decreases 5 - col,
        {
            if fb[row][col] != 0 {
                assert(grid(*fb)[row as int][col as int] != 0);
                assert(!is_empty(grid(*fb)));
                proof {
                    lemma_quiescent_iff_zero_sum(*fb);
                }
                return false;
            }
            col += 1;
        }
        row += 1;
    }
    true
}

/// The cell at `(r, c)` on the torus: both indices wrap modulo 5.
pub open spec fn at(g: Seq<Seq<u8>>, r: int, c: int) -> int {
    g[r % 5][c % 5] as int
}

/// The sum of the eight toroidal neighbours of `(r, c)`.
pub open spec fn neighbor_count(g: Seq<Seq<u8>>, r: int, c: int) -> int {
    at(g, r - 1, c - 1) + at(g, r - 1, c) + at(g, r - 1, c + 1) + at(g, r, c - 1) + at(g, r, c + 1)
        + at(g, r + 1, c - 1) + at(g, r + 1, c) + at(g, r + 1, c + 1)
}

/// Conway's rule for one cell holding `v` with neighbour sum `n`: a live cell
/// with fewer than two or more than three neighbours dies, a dead cell with
/// exactly three comes alive, any other cell keeps its value.
pub open spec fn next_cell(v: u8, n: int) -> u8 {
    if v == 1 && (n < 2 || n > 3) {
        0
    } else if v == 0 && n == 3 {
        1
    } else {
        v
    }
}

/// The next generation of a 5×5 grid, every cell read from `g`.
pub open spec fn next_generation(g: Seq<Seq<u8>>) -> Seq<Seq<u8>> {
    Seq::new(5, |r: int| Seq::new(5, |c: int| next_cell(g[r][c], neighbor_count(g, r, c))))
}

/// Advances the board by one generation on the torus. Every neighbour is read
/// from a snapshot taken before the first write.
pub fn life(fb: &mut Board)
    ensures
        grid(*final(fb)) == next_generation(grid(*old(fb))),
{
    let prev: Board = *fb;
    let ghost g = grid(prev);
    let mut row: usize = 0;
    while row < 5
        invariant
            row <= 5,
            g == grid(prev),
            forall|r: int, c: int|
                0 <= r < row && 0 <= c < 5 ==> #[trigger] grid(*fb)[r][c] == next_generation(g)[r][c],
            forall|r: int, c: int|
                row <= r < 5 && 0 <= c < 5 ==> #[trigger] grid(*fb)[r][c] == g[r][c],
        decreases 5 - row,
    {
        let mut col: usize = 0;
        while col < 5
            invariant
                row < 5,
                col <= 5,
                g == grid(prev),
                forall|r: int, c: int|
                    0 <= r < row && 0 <= c < 5 ==> #[trigger] grid(*fb)[r][c] == next_generation(g)[r][c],
                forall|c: int| 0 <= c < col ==> #[trigger] grid(*fb)[row as int][c] == next_generation(g)[row as int][c],
                forall|r: int, c: int|
                    row <= r < 5 && 0 <= c < 5 && !(r == row && c < col) ==> #[trigger] grid(*fb)[r][c] == g[r][c],
            decreases 5 - col,
        {
            let prev_row: usize = (row + 4) % 5;
            let next_row: usize = (row + 1) % 5;
            let prev_col: usize = (col + 4) % 5;
            let next_col: usize = (col + 1) % 5;
            assert(prev_row == (row - 1) % 5 && next_row == (row + 1) % 5);
            assert(prev_col == (col - 1) % 5 && next_col == (col + 1) % 5);
            assert(row == row % 5 && col == col % 5);
            let neighbors: u32 = prev[prev_row][prev_col] as u32 + prev[prev_row][col] as u32
                + prev[prev_row][next_col] as u32 + prev[row][prev_col] as u32
                + prev[row][next_col] as u32 + prev[next_row][prev_col] as u32
                + prev[next_row][col] as u32 + prev[next_row][next_col] as u32;
            assert(neighbors == neighbor_count(g, row as int, col as int));
            let v: u8 = prev[row][col];
            let ghost before = *fb;
            if v == 1 && (neighbors < 2 || neighbors > 3) {
                fb[row][col] = 0;
            } else if v == 0 && neighbors == 3 {
                fb[row][col] = 1;
            }
            assert forall|r: int, c: int|
                0 <= r < 5 && 0 <= c < 5 && !(r == row && c == col) implies #[trigger] grid(*fb)[r][c]
                == grid(before)[r][c] by {
                if r == row {
                    assert(fb[r][c] == before[r][c]);
                }
            }
            assert(grid(*fb)[row as int][col as int] == next_generation(g)[row as int][col as int]);
            col += 1;
        }
        row += 1;
    }
    assert(grid(*fb) =~~= next_generation(g));
}

/// Every cell of `g` inverted: 1 becomes 0, anything else becomes 1.
pub open spec fn inverted(g: Seq<Seq<u8>>) -> Seq<Seq<u8>> {
    Seq::new(5, |r: int| Seq::new(5, |c: int| if g[r][c] == 1 { 0u8 } else { 1u8 }))
}

/// The lowest bit of every byte of `g`.
pub open spec fn low_bits(g: Seq<Seq<u8>>) -> Seq<Seq<u8>> {
    Seq::new(5, |r: int| Seq::new(5, |c: int| (g[r][c] % 2) as u8))
}

/// Inverts every cell of the board.
pub fn complement(fb: &mut Board)
    ensures
        grid(*final(fb)) == inverted(grid(*old(fb))),
{
    let ghost g = grid(*fb);
    let mut row: usize = 0;
    while row < 5
        invariant
            row <= 5,
            g == grid(*old(fb)),
            forall|r: int, c: int|
                0 <= r < row && 0 <= c < 5 ==> #[trigger] grid(*fb)[r][c] == inverted(g)[r][c],
            forall|r: int, c: int| row <= r < 5 && 0 <= c < 5 ==> #[trigger] grid(*fb)[r][c] == g[r][c],
        decreases 5 - row,
    {
        let mut col: usize = 0;
        while col < 5
            invariant
                row < 5,
                col <= 5,
                g == grid(*old(fb)),
                forall|r: int, c: int|
                    0 <= r < row && 0 <= c < 5 ==> #[trigger] grid(*fb)[r][c] == inverted(g)[r][c],
                forall|c: int|
                    0 <= c < col ==> #[trigger] grid(*fb)[row as int][c] == inverted(g)[row as int][c],
                forall|r: int, c: int|
                    row <= r < 5 && 0 <= c < 5 && !(r == row && c < col) ==> #[trigger] grid(*fb)[r][c] == g[r][c],
            decreases 5 - col,
        {
            let ghost before = *fb;
            assert(grid(*fb)[row as int][col as int] == g[row as int][col as int]);
            if fb[row][col] == 1 {
                fb[row][col] = 0;
            } else {
                fb[row][col] = 1;
            }
            assert forall|r: int, c: int|
                0 <= r < 5 && 0 <= c < 5 && !(r == row && c == col) implies #[trigger] grid(*fb)[r][c]
                == grid(before)[r][c] by {
                if r == row {
                    assert(fb[r][c] == before[r][c]);
                }
            }
            assert(grid(*fb)[row as int][col as int] == inverted(g)[row as int][col as int]);
            col += 1;
        }
        row += 1;
    }
    assert(grid(*fb) =~~= inverted(g));
}

/// Fills the board from random bytes: each cell takes the lowest bit of the
/// byte at its place.
pub fn reseed(fb: &mut Board, bits: &Board)
    ensures
        grid(*final(fb)) == low_bits(grid(*bits)),
        is_binary(grid(*final(fb))),
{
    let ghost g = grid(*bits);
    let mut row: usize = 0;
    while row < 5
        invariant
            row <= 5,
            g == grid(*bits),
            forall|r: int, c: int| 0 <= r < row && 0 <= c < 5 ==> #[trigger] grid(*fb)[r][c] == low_bits(g)[r][c],
        decreases 5 - row,
    {
        let mut col: usize = 0;
        while col < 5
            invariant
                row < 5,
                col <= 5,
                g == grid(*bits),
                forall|r: int, c: int|
                    0 <= r < row && 0 <= c < 5 ==> #[trigger] grid(*fb)[r][c] == low_bits(g)[r][c],
                forall|c: int| 0 <= c < col ==> #[trigger] grid(*fb)[row as int][c] == low_bits(g)[row as int][c],
            decreases 5 - col,
        {
            let ghost before = *fb;
            fb[row][col] = bits[row][col] % 2;
            assert forall|r: int, c: int|
                0 <= r < 5 && 0 <= c < 5 && !(r == row && c == col) implies #[trigger] grid(*fb)[r][c]
                == grid(before)[r][c] by {
                if r == row {
                    assert(fb[r][c] == before[r][c]);
                }
            }
            col += 1;
        }
        row += 1;
    }
    assert(grid(*fb) =~~= low_bits(g));
}

/// Returns `true` iff the two boards hold the same cells.
pub fn same_board(a: &Board, b: &Board) -> (r: bool)
    ensures
        r == (grid(*a) == grid(*b)),
{
    let mut row: usize = 0;
    while row < 5
        invariant
            row <= 5,
            forall|r: int, c: int| 0 <= r < row && 0 <= c < 5 ==> #[trigger] grid(*a)[r][c] == grid(*b)[r][c],
        decreases 5 - row,
    {
        let mut col: usize = 0;
        while col < 5
            invariant
                row < 5,
                col <= 5,
                forall|r: int, c: int| 0 <= r < row && 0 <= c < 5 ==> #[trigger] grid(*a)[r][c] == grid(*b)[r][c],
                forall|c: int| 0 <= c < col ==> #[trigger] grid(*a)[row as int][c] == grid(*b)[row as int][c],
            decreases 5 - col,
        {
            if a[row][col] != b[row][col] {
                assert(grid(*a)[row as int][col as int] != grid(*b)[row as int][col as int]);
                return false;
            }
            col += 1;
        }
        row += 1;
    }
    assert(grid(*a) =~~= grid(*b));
    true
}

/// The sum of the values of a row.
pub open spec fn row_sum(s: Seq<u8>) -> int
    decreases s.len(),
{
    if s.len() == 0 {
        0
    } else {
        row_sum(s.drop_last()) + s.last() as int
    }
}

/// The sum of all the cells of a grid.
pub open spec fn grid_sum(g: Seq<Seq<u8>>) -> int
    decreases g.len(),
{
    if g.len() == 0 {
        0
    } else {
        grid_sum(g.drop_last()) + row_sum(g.last())
    }
}

proof fn lemma_row_sum_zero(s: Seq<u8>)
    ensures
        row_sum(s) >= 0,
        row_sum(s) == 0 <==> forall|i: int| 0 <= i < s.len() ==> #[trigger] s[i] == 0,
    decreases s.len(),
{
    if s.len() > 0 {
        let t = s.drop_last();
        lemma_row_sum_zero(t);
        assert forall|i: int| 0 <= i < s.len() - 1 implies #[trigger] t[i] == s[i] by {}
        if row_sum(s) == 0 {
            assert forall|i: int| 0 <= i < s.len() implies #[trigger] s[i] == 0 by {
                if i < s.len() - 1 {
                    assert(t[i] == 0);
                }
            }
        }
        if forall|i: int| 0 <= i < s.len() ==> #[trigger] s[i] == 0 {
            assert(s[s.len() - 1] == 0);
            assert forall|i: int| 0 <= i < t.len() implies #[trigger] t[i] == 0 by {
                assert(s[i] == 0);
            }
        }
    }
}

proof fn lemma_grid_sum_zero(g: Seq<Seq<u8>>)
    ensures
        grid_sum(g) >= 0,
        grid_sum(g) == 0 <==> forall|r: int| 0 <= r < g.len() ==> #[trigger] row_sum(g[r]) == 0,
    decreases g.len(),
{
    if g.len() > 0 {
        lemma_grid_sum_zero(g.drop_last());
        lemma_row_sum_zero(g.last());
        assert forall|r: int| 0 <= r < g.len() - 1 implies #[trigger] g.drop_last()[r] == g[r] by {}
        if grid_sum(g) == 0 {
            assert forall|r: int| 0 <= r < g.len() implies #[trigger] row_sum(g[r]) == 0 by {
                if r < g.len() - 1 {
                    assert(row_sum(g.drop_last()[r]) == 0);
                }
            }
        }
    }
}

/// A board is quiescent exactly when the sum of its cells is zero.
pub proof fn lemma_quiescent_iff_zero_sum(w: Board)
    ensures
        is_empty(grid(w)) <==> grid_sum(grid(w)) == 0,
{
    let g = grid(w);
    lemma_grid_sum_zero(g);
    assert forall|r: int| 0 <= r < 5 implies (row_sum(#[trigger] g[r]) == 0 <==> forall|c: int|
        0 <= c < 5 ==> g[r][c] == 0) by {
        lemma_row_sum_zero(g[r]);
    }
    if grid_sum(g) == 0 {
        assert forall|r: int, c: int| 0 <= r < 5 && 0 <= c < 5 implies #[trigger] g[r][c] == 0 by {
            assert(row_sum(g[r]) == 0);
        }
    }
}

/// The next generation is a function of the board alone: two boards holding
/// the same cells step to the same cells.
pub proof fn lemma_life_deterministic(a: Board, b: Board)
    requires
        grid(a) == grid(b),
    ensures
        next_generation(grid(a)) == next_generation(grid(b)),
{
}

/// A step keeps every cell 0 or 1.
pub proof fn lemma_life_binary(g: Seq<Seq<u8>>)
    requires
        is_binary(g),
    ensures
        is_binary(next_generation(g)),
{
}

/// Complementing a board of zeros and ones twice gives back the board.
pub proof fn lemma_complement_involution(w: Board)
    requires
        is_binary(grid(w)),
    ensures
        inverted(inverted(grid(w))) == grid(w),
{
    assert(inverted(inverted(grid(w))) =~~= grid(w));
}

/// The complement of any board is made of zeros and ones.
pub proof fn lemma_complement_binary(g: Seq<Seq<u8>>)
    ensures
        is_binary(inverted(g)),
{
}

} // verus!
