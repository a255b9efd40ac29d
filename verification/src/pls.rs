//! The archive updates that a Pareto local search performs in each
//! iteration: visiting the picked row, adding the candidates that the
//! archive does not dominate, and keeping only valid rows at the end.
use vstd::prelude::*;
use crate::archive::Archive;
use crate::pareto::{Standing, dominates, spec_dominates};
use crate::seqs::{flag, lemma_masked_positions, masked_from, positions};
use vstd::arithmetic::div_mod::lemma_fundamental_div_mod_converse;

verus! {

/// `new` is `old` with one more row at the end: a clone of `solution` and of
/// `fitness`, the flags `valid` and `visited`, and the given step size and
/// success rate.
pub open spec fn appended_row<S: Clone, F: Clone>(
    new: &Archive<S, F>,
    old: &Archive<S, F>,
    solution: S,
    fitness: Vec<F>,
    valid: bool,
    visited: bool,
    step_size: F,
    success_rate: F,
) -> bool {
    &&& new.solutions@.len() == old.solutions@.len() + 1
    &&& new.solutions@.drop_last() == old.solutions@
    &&& cloned(solution, new.solutions@.last())
    &&& new.fitnesses@.len() == old.fitnesses@.len() + 1
    &&& new.fitnesses@.drop_last() == old.fitnesses@
    &&& cloned(fitness, new.fitnesses@.last())
    &&& new.valid@ == old.valid@.push(valid)
    &&& new.visited@ == old.visited@.push(visited)
    &&& new.step_size@ == old.step_size@.push(step_size)
    &&& new.success_rate@ == old.success_rate@.push(success_rate)
}

/// The move at position `i` of the neighbourhood of `boxes` boxes on a grid of
/// `x` by `y` by `z` cells: moves are listed box by box, and for each box cell
/// by cell with the last coordinate running fastest.
pub open spec fn grid_move(i: int, x: int, y: int, z: int) -> (int, int, int, int) {
    (((i / z) / y) / x, ((i / z) / y) % x, (i / z) % y, i % z)
}

/// The neighbourhood of a layout with `boxes` boxes in a space of `extent`
/// grid cells: every pair of a box and a cell, as `(box, x, y, z)`, box by
/// box and cell by cell, the last coordinate running fastest.
pub fn neighbourhood(boxes: usize, extent: [usize; 3]) -> (moves: Vec<(usize, usize, usize, usize)>)
    requires
        boxes * extent[0] * extent[1] * extent[2] <= usize::MAX,
    ensures
        moves@.len() == boxes * extent[0] * extent[1] * extent[2],
        forall|i: int|
            0 <= i < moves@.len() ==> {
                let (b, x, y, z) = #[trigger] moves@[i];
                (b as int, x as int, y as int, z as int) == grid_move(
                    i,
                    extent[0] as int,
                    extent[1] as int,
                    extent[2] as int,
                )
            },
{
    let nx = extent[0];
    let ny = extent[1];
    let nz = extent[2];
    assert(0 <= boxes * nx) by (nonlinear_arith);
    assert(0 <= boxes * nx * ny) by (nonlinear_arith);
    assert(boxes * nx <= boxes * nx * ny || ny == 0) by (nonlinear_arith);
    assert(boxes * nx * ny <= boxes * nx * ny * nz || nz == 0) by (nonlinear_arith);
    let total: usize = if nx == 0 || ny == 0 || nz == 0 {
        0
    } else {
        boxes * nx * ny * nz
    };
    assert(total == boxes * nx * ny * nz) by (nonlinear_arith)
        requires
            total == (if nx == 0 || ny == 0 || nz == 0 { 0 } else { boxes * nx * ny * nz }),
    ;
    let mut moves: Vec<(usize, usize, usize, usize)> = Vec::new();
    let mut i: usize = 0;
    while i < total
        invariant
            i <= total,
            total == boxes * nx * ny * nz,
            total > 0 ==> nx > 0 && ny > 0 && nz > 0,
            moves@.len() == i,
            forall|j: int|
                0 <= j < i ==> {
                    let (b, x, y, z) = #[trigger] moves@[j];
                    (b as int, x as int, y as int, z as int) == grid_move(j, nx as int, ny as int, nz as int)
                },
        decreases total - i,
    {
        let cell = i / nz;
        let column = cell / ny;
        moves.push((column / nx, column % nx, cell % ny, i % nz));
        i = i + 1;
    }
    moves
}

/// Listing the neighbourhood box by box and cell by cell puts the move of box
/// `b` to cell `(x, y, z)` at position `((b * x_cells + x) * y_cells + y) *
/// z_cells + z`.
/// When `b` is one of `boxes` boxes, that position lies in the neighbourhood.
pub proof fn law_neighbourhood_position(
    boxes: int,
    b: int,
    x: int,
    y: int,
    z: int,
    x_cells: int,
    y_cells: int,
    z_cells: int,
)
    requires
        0 <= b < boxes,
        0 <= x < x_cells,
        0 <= y < y_cells,
        0 <= z < z_cells,
    ensures
        0 <= ((b * x_cells + x) * y_cells + y) * z_cells + z < boxes * x_cells * y_cells * z_cells,
        grid_move(((b * x_cells + x) * y_cells + y) * z_cells + z, x_cells, y_cells, z_cells) == (b, x, y, z),
{
    assert(0 <= ((b * x_cells + x) * y_cells + y) * z_cells + z < boxes * x_cells * y_cells * z_cells)
        by (nonlinear_arith)
        requires
            0 <= b < boxes,
            0 <= x < x_cells,
            0 <= y < y_cells,
            0 <= z < z_cells,
    {
        assert(0 <= b * x_cells + x);
        assert(0 <= (b * x_cells + x) * y_cells + y);
        assert(((b * x_cells + x) * y_cells + y) * z_cells + z < ((b * x_cells + x) * y_cells + y + 1)
            * z_cells);
        assert((b * x_cells + x) * y_cells + y + 1 <= (b * x_cells + x + 1) * y_cells);
        assert(b * x_cells + x + 1 <= (b + 1) * x_cells);
        assert((b + 1) <= boxes);
        assert(((b * x_cells + x) * y_cells + y + 1) * z_cells <= (b * x_cells + x + 1) * y_cells
            * z_cells);
        assert((b * x_cells + x + 1) * y_cells * z_cells <= (b + 1) * x_cells * y_cells * z_cells);
        assert((b + 1) * x_cells * y_cells * z_cells <= boxes * x_cells * y_cells * z_cells);
    }
    let column = b * x_cells + x;
    let cell = column * y_cells + y;
    let i = cell * z_cells + z;
    lemma_fundamental_div_mod_converse(i, z_cells, cell, z);
    lemma_fundamental_div_mod_converse(cell, y_cells, column, y);
    lemma_fundamental_div_mod_converse(column, x_cells, b, x);
}

/// Marks row `index` visited and returns a clone of its layout, the layout
/// that the iteration explores.
pub fn visit<S: Clone, F>(archive: &mut Archive<S, F>, index: usize) -> (target: S)
    requires
        index < old(archive).solutions@.len(),
        index < old(archive).visited@.len(),
    ensures
        cloned(old(archive).solutions@[index as int], target),
        final(archive).visited@ == old(archive).visited@.update(index as int, true),
        final(archive).solutions == old(archive).solutions,
        final(archive).fitnesses == old(archive).fitnesses,
        final(archive).valid == old(archive).valid,
        final(archive).step_size == old(archive).step_size,
        final(archive).success_rate == old(archive).success_rate,
        old(archive).wf() ==> final(archive).wf(),
{
    let target = archive.solutions[index].clone();
    archive.visited.set(index, true);
    target
}

/// Offers a candidate layout to the archive: it is added as an unvisited row
/// when the archive does not dominate it, and the archive is left as it is
/// otherwise. `standings[k][c]` is how the candidate's `c`-th objective value
/// stands against the `c`-th objective value of row `k`. Returns whether the
/// candidate was added.
pub fn offer<S: Clone, F: Clone>(
    archive: &mut Archive<S, F>,
    solution: &S,
    fitness: &Vec<F>,
    valid: bool,
    step_size: F,
    success_rate: F,
    standings: &Vec<Vec<Standing>>,
) -> (added: bool)
    requires
        standings@.len() == old(archive).fitnesses@.len(),
    ensures
        added == !spec_dominates(old(archive), standings@, valid),
        added ==> appended_row(
            final(archive),
            old(archive),
            *solution,
            *fitness,
            valid,
            false,
            step_size,
            success_rate,
        ),
        !added ==> *final(archive) == *old(archive),
        old(archive).wf() ==> final(archive).wf(),
{
    if dominates(archive, standings, valid) {
        false
    } else {
        archive.append_inplace(solution, fitness, valid, false, step_size, success_rate);
        true
    }
}

/// Keeps only the valid rows of the archive.
pub fn keep_valid<S, F>(archive: &mut Archive<S, F>)
    ensures
        final(archive).is_masked(old(archive), old(archive).valid@),
        old(archive).wf() ==> final(archive).wf(),
        forall|k: int| 0 <= k < final(archive).valid@.len() ==> #[trigger] final(archive).valid@[k],
{
    let valid = archive.valid.clone();
    proof {
        assert(valid@ =~= archive.valid@);
        lemma_masked_positions(valid@, valid@, 0);
    }
    archive.mask_inplace(valid);
    proof {
        assert forall|k: int| 0 <= k < archive.valid@.len() implies #[trigger] archive.valid@[k] by {
            let p = masked_from(positions(valid@.len()), valid@, 0)[k];
            assert(flag(valid@, p));
        }
    }
}

} // verus!
