//! Properties of the generation rule that hold on every grid.
use vstd::prelude::*;
use vstd::arithmetic::div_mod::lemma_fundamental_div_mod_converse;
use crate::universe::{
    Cell, alive_num, index_of, live_neighbors, neighbor_column, neighbor_term, next_generation,
    shift,
};

verus! {

/// Whether every cell of `cells` is dead.
pub open spec fn all_dead(cells: Seq<Cell>) -> bool {
    forall|k: int| 0 <= k < cells.len() ==> cells[k] == Cell::Dead
}

/// The cells after `n` generations, starting from `cells`.
pub open spec fn generations(cells: Seq<Cell>, w: int, h: int, n: nat) -> Seq<Cell>
    decreases n,
{
    if n == 0 {
        cells
    } else {
        next_generation(generations(cells, w, h, (n - 1) as nat), w, h)
    }
}

proof fn lemma_term_bounds(cells: Seq<Cell>, w: int, h: int, x: int, y: int)
    ensures
        forall|i: int, j: int| 0 <= #[trigger] neighbor_term(cells, w, h, x, y, i, j) <= 1,
{
    assert forall|i: int, j: int| 0 <= #[trigger] neighbor_term(cells, w, h, x, y, i, j) <= 1 by {
        let c = cells[index_of(w, (x + shift(w, i)) % w, (y + shift(h, j)) % h)];
        assert(0 <= alive_num(c) <= 1);
    }
}

/// The grid has no edges: a live cell in the last column of the last row is
/// a neighbour of the first cell of the first row, and the other way round.
pub proof fn lemma_wrap_around(cells: Seq<Cell>, w: int, h: int)
    requires
        w > 0,
        h > 0,
        cells.len() == w * h,
    ensures
        cells[index_of(w, w - 1, h - 1)] == Cell::Alive ==> live_neighbors(cells, w, h, 0, 0) >= 1,
        cells[index_of(w, 0, 0)] == Cell::Alive ==> live_neighbors(cells, w, h, w - 1, h - 1) >= 1,
{
    lemma_term_bounds(cells, w, h, 0, 0);
    lemma_term_bounds(cells, w, h, w - 1, h - 1);
    lemma_fundamental_div_mod_converse(w, w, 1, 0);
    lemma_fundamental_div_mod_converse(h, h, 1, 0);
    lemma_fundamental_div_mod_converse(w - 1, w, 0, w - 1);
    lemma_fundamental_div_mod_converse(h - 1, h, 0, h - 1);
    assert(index_of(w, w - 1, h - 1) == w * h - 1) by (nonlinear_arith)
        requires
            w > 0,
    ;
    assert(neighbor_term(cells, w, h, w - 1, h - 1, 2, 2) == alive_num(cells[index_of(w, 0, 0)]));
    if w == 1 && h == 1 {
        assert(neighbor_term(cells, w, h, 0, 0, 2, 2) == alive_num(cells[index_of(w, 0, 0)]));
    } else {
        assert(neighbor_term(cells, w, h, 0, 0, 0, 0) == alive_num(
            cells[index_of(w, w - 1, h - 1)],
        ));
    }
}

/// The fate of cell `(x, y)` in the next generation: a dead cell comes to
/// life exactly when it has three live neighbours; a live cell dies with
/// fewer than two or more than three, and lives on with two or three.
pub proof fn lemma_birth_and_death(cells: Seq<Cell>, w: int, h: int, x: int, y: int)
    requires
        w > 0,
        h > 0,
        cells.len() == w * h,
        0 <= x < w,
        0 <= y < h,
    ensures
        ({
            let c = cells[index_of(w, x, y)];
            let n = live_neighbors(cells, w, h, x, y);
            let next = next_generation(cells, w, h)[index_of(w, x, y)];
            &&& c == Cell::Dead ==> (next == Cell::Alive <==> n == 3)
            &&& c == Cell::Alive && n <= 1 ==> next == Cell::Dead
            &&& c == Cell::Alive && n >= 4 ==> next == Cell::Dead
            &&& c == Cell::Alive && (n == 2 || n == 3) ==> next == Cell::Alive
        }),
{
    let k = index_of(w, x, y);
    lemma_fundamental_div_mod_converse(k, w, y, x);
    assert(k < w * h) by (nonlinear_arith)
        requires
            k == y * w + x,
            0 <= x < w,
            0 <= y < h,
    ;
    assert(0 <= k) by (nonlinear_arith)
        requires
            k == y * w + x,
            0 <= x,
            0 <= y,
            0 <= w,
    ;
}

/// A grid whose cells are all dead stays all dead, generation after
/// generation.
pub proof fn lemma_all_dead_fixed_point(cells: Seq<Cell>, w: int, h: int, n: nat)
    requires
        w > 0,
        h > 0,
        cells.len() == w * h,
        all_dead(cells),
    ensures
        generations(cells, w, h, n) == cells,
    decreases n,
{
    if n > 0 {
        lemma_all_dead_fixed_point(cells, w, h, (n - 1) as nat);
        let next = next_generation(cells, w, h);
        assert forall|k: int| 0 <= k < cells.len() implies next[k] == cells[k] by {
            let x = k % w;
            let y = k / w;
            lemma_term_bounds(cells, w, h, x, y);
            assert forall|i: int, j: int| #[trigger] neighbor_term(cells, w, h, x, y, i, j) == 0 by {
                let dx = shift(w, i);
                let dy = shift(h, j);
                let xx = (x + dx) % w;
                let yy = (y + dy) % h;
                if !(dx == 0 && dy == 0) {
                    assert(0 <= xx < w);
                    assert(0 <= yy < h);
                    assert(index_of(w, xx, yy) < w * h) by (nonlinear_arith)
                        requires
                            0 <= xx < w,
                            0 <= yy < h,
                    ;
                    assert(0 <= index_of(w, xx, yy)) by (nonlinear_arith)
                        requires
                            0 <= xx,
                            0 <= yy,
                            0 <= w,
                    ;
                }
            }
            assert(neighbor_column(cells, w, h, x, y, 0) == 0);
            assert(neighbor_column(cells, w, h, x, y, 1) == 0);
            assert(neighbor_column(cells, w, h, x, y, 2) == 0);
        }
        assert(next =~= cells);
    }
}

} // verus!
