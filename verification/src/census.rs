//! Counting: how many cells hold a tag, how many zombies are alive.

use vstd::prelude::*;
use crate::entities::{all_dead, Zombie};
use crate::grid::{Cell, Grid};
use crate::soundness::{ringed, roster_matches, sound, stands_at};
use crate::turn::World;

verus! {

/// One for a thing that counts, nothing for one that does not.
pub open spec fn one_if(yes: bool) -> nat {
    if yes {
        1
    } else {
        0
    }
}

/// The number of cells of `row` that hold `tag`.
pub open spec fn tally_row(row: Seq<Cell>, tag: Cell) -> nat
    decreases row.len(),
{
    if row.len() == 0 {
        0
    } else {
        tally_row(row.drop_last(), tag) + one_if(row.last() == tag)
    }
}

/// The number of cells in `rows` that hold `tag`.
pub open spec fn tally_rows(rows: Seq<Seq<Cell>>, tag: Cell) -> nat
    decreases rows.len(),
{
    if rows.len() == 0 {
        0
    } else {
        tally_rows(rows.drop_last(), tag) + tally_row(rows.last(), tag)
    }
}

/// The number of cells of the grid that hold `tag`.
pub open spec fn count(grid: Grid, tag: Cell) -> nat {
    tally_rows(grid.rows, tag)
}

/// The number of zombies that are not dead.
pub open spec fn alive(zombies: Seq<Zombie>) -> nat
    decreases zombies.len(),
{
    if zombies.len() == 0 {
        0
    } else {
        alive(zombies.drop_last()) + one_if(!zombies.last().is_dead)
    }
}

/// Writing a cell of a row takes one from the count of the tag it held and
/// adds one to the count of the tag it now holds.
proof fn lemma_tally_row_update(row: Seq<Cell>, x: int, to: Cell, tag: Cell)
    requires
        0 <= x < row.len(),
    ensures
        tally_row(row.update(x, to), tag) + one_if(row[x] == tag) == tally_row(row, tag) + one_if(to == tag),
    decreases row.len(),
{
    let changed = row.update(x, to);
    if x == row.len() - 1 {
        assert(changed.drop_last() =~= row.drop_last());
    } else {
        assert(changed.drop_last() =~= row.drop_last().update(x, to));
        lemma_tally_row_update(row.drop_last(), x, to, tag);
    }
}

/// A row counts `tag` exactly on the span from `a` to `b` when it holds
/// `tag` there and nowhere else.
proof fn lemma_tally_row_span(row: Seq<Cell>, tag: Cell, a: int, b: int)
    requires
        0 <= a <= b <= row.len(),
        forall|x: int| 0 <= x < row.len() ==> (#[trigger] row[x] == tag <==> a <= x < b),
    ensures
        tally_row(row, tag) == b - a,
    decreases row.len(),
{
    if row.len() > 0 {
        let rest = row.drop_last();
        let top = row.len() - 1;
        if a <= top < b {
            lemma_tally_row_span(rest, tag, a, b - 1);
        } else if b <= top {
            lemma_tally_row_span(rest, tag, a, b);
        } else {
            lemma_tally_row_span(rest, tag, top, top);
        }
    }
}

/// A row that counts `tag` holds it somewhere.
proof fn lemma_tally_row_witness(row: Seq<Cell>, tag: Cell) -> (x: int)
    requires
        tally_row(row, tag) > 0,
    ensures
        0 <= x < row.len(),
        row[x] == tag,
    decreases row.len(),
{
    if row.last() == tag {
        row.len() - 1
    } else {
        lemma_tally_row_witness(row.drop_last(), tag)
    }
}

/// Replacing a row changes the count by the difference of the two rows'
/// counts.
proof fn lemma_tally_rows_update(rows: Seq<Seq<Cell>>, y: int, row: Seq<Cell>, tag: Cell)
    requires
        0 <= y < rows.len(),
    ensures
        tally_rows(rows.update(y, row), tag) + tally_row(rows[y], tag) == tally_rows(rows, tag) + tally_row(
            row,
            tag,
        ),
    decreases rows.len(),
{
    let changed = rows.update(y, row);
    if y == rows.len() - 1 {
        assert(changed.drop_last() =~= rows.drop_last());
    } else {
        assert(changed.drop_last() =~= rows.drop_last().update(y, row));
        lemma_tally_rows_update(rows.drop_last(), y, row, tag);
    }
}

/// Rows count `each` times the length of the span from `a` to `b` when
/// every row there counts `each` and every other row counts none.
proof fn lemma_tally_rows_span(rows: Seq<Seq<Cell>>, tag: Cell, a: int, b: int, each: nat)
    requires
        0 <= a <= b <= rows.len(),
        forall|y: int| a <= y < b ==> tally_row(#[trigger] rows[y], tag) == each,
        forall|y: int| 0 <= y < rows.len() && !(a <= y < b) ==> tally_row(#[trigger] rows[y], tag) == 0,
    ensures
        tally_rows(rows, tag) == (b - a) * each,
    decreases rows.len(),
{
    if rows.len() > 0 {
        let rest = rows.drop_last();
        let top = rows.len() - 1;
        if a <= top < b {
            lemma_tally_rows_span(rest, tag, a, b - 1, each);
            assert((b - 1 - a) * each + each == (b - a) * each) by (nonlinear_arith);
        } else if b <= top {
            lemma_tally_rows_span(rest, tag, a, b, each);
        } else {
            lemma_tally_rows_span(rest, tag, top, top, each);
        }
    } else {
        assert((b - a) * each == 0) by (nonlinear_arith)
            requires
                a == b,
        ;
    }
}

/// Rows that count `tag` hold a row that counts it.
proof fn lemma_tally_rows_witness(rows: Seq<Seq<Cell>>, tag: Cell) -> (y: int)
    requires
        tally_rows(rows, tag) > 0,
    ensures
        0 <= y < rows.len(),
        tally_row(rows[y], tag) > 0,
    decreases rows.len(),
{
    if tally_row(rows.last(), tag) > 0 {
        rows.len() - 1
    } else {
        lemma_tally_rows_witness(rows.drop_last(), tag)
    }
}

/// Writing a cell takes one from the count of the tag it held and adds one
/// to the count of the tag it now holds.
pub proof fn lemma_count_put(grid: Grid, pos: (usize, usize), to: Cell, tag: Cell)
    requires
        grid.wf(),
        grid.contains(pos),
    ensures
        count(grid.put(pos, to), tag) + one_if(grid.at(pos) == tag) == count(grid, tag) + one_if(to == tag),
{
    let y = pos.1 as int;
    let x = pos.0 as int;
    lemma_tally_row_update(grid.rows[y], x, to, tag);
    lemma_tally_rows_update(grid.rows, y, grid.rows[y].update(x, to), tag);
}

/// A grid that counts `tag` holds it at some position.
pub proof fn lemma_count_witness(grid: Grid, tag: Cell) -> (pos: (usize, usize))
    requires
        grid.wf(),
        count(grid, tag) > 0,
    ensures
        grid.contains(pos),
        grid.at(pos) == tag,
{
    let y = lemma_tally_rows_witness(grid.rows, tag);
    let x = lemma_tally_row_witness(grid.rows[y], tag);
    (x as usize, y as usize)
}

/// A grid that holds `tag` nowhere counts none.
pub proof fn lemma_count_none(grid: Grid, tag: Cell)
    requires
        grid.wf(),
        forall|pos: (usize, usize)| grid.contains(pos) ==> #[trigger] grid.at(pos) != tag,
    ensures
        count(grid, tag) == 0,
{
    if count(grid, tag) > 0 {
        let pos = lemma_count_witness(grid, tag);
    }
}

/// The cells of `rows`, whatever they hold.
pub open spec fn tally_any(rows: Seq<Seq<Cell>>) -> nat {
    tally_rows(rows, Cell::Empty) + tally_rows(rows, Cell::Border) + tally_rows(rows, Cell::Hole) + tally_rows(
        rows,
        Cell::Player,
    ) + tally_rows(rows, Cell::Adversary)
}

proof fn lemma_tally_row_total(row: Seq<Cell>)
    ensures
        tally_row(row, Cell::Empty) + tally_row(row, Cell::Border) + tally_row(row, Cell::Hole) + tally_row(
            row,
            Cell::Player,
        ) + tally_row(row, Cell::Adversary) == row.len(),
    decreases row.len(),
{
    if row.len() > 0 {
        lemma_tally_row_total(row.drop_last());
    }
}

proof fn lemma_tally_rows_total(rows: Seq<Seq<Cell>>, width: nat)
    requires
        forall|y: int| 0 <= y < rows.len() ==> (#[trigger] rows[y]).len() == width,
    ensures
        tally_any(rows) == rows.len() * width,
    decreases rows.len(),
{
    if rows.len() > 0 {
        let rest = rows.drop_last();
        lemma_tally_rows_total(rest, width);
        lemma_tally_row_total(rows.last());
        assert((rows.len() - 1) * width + width == rows.len() * width) by (nonlinear_arith);
    }
}

/// Every cell holds exactly one tag: the counts of the five tags add up to
/// the number of cells.
pub proof fn lemma_count_total(grid: Grid)
    requires
        grid.wf(),
    ensures
        count(grid, Cell::Empty) + count(grid, Cell::Border) + count(grid, Cell::Hole) + count(
            grid,
            Cell::Player,
        ) + count(grid, Cell::Adversary) == grid.width() * grid.height(),
{
    lemma_tally_rows_total(grid.rows, grid.width());
}

/// A grid with its ring in place that counts an empty cell has a free one.
pub proof fn lemma_room_left(grid: Grid)
    requires
        ringed(grid),
        count(grid, Cell::Empty) > 0,
    ensures
        grid.has_free(),
{
    let pos = lemma_count_witness(grid, Cell::Empty);
    assert(grid.free(pos));
}

/// A board with nothing placed: its ring is in place, it holds nothing but
/// border and empty cells, and its empty cells are as many as there are
/// cells inside the ring.
pub proof fn lemma_count_fresh(width: nat, height: nat)
    requires
        3 <= width <= usize::MAX,
        3 <= height <= usize::MAX,
    ensures
        ringed(Grid::fresh(width, height)),
        Grid::fresh(width, height).width() == width,
        Grid::fresh(width, height).height() == height,
        count(Grid::fresh(width, height), Cell::Empty) == (width - 2) * (height - 2),
        count(Grid::fresh(width, height), Cell::Hole) == 0,
        count(Grid::fresh(width, height), Cell::Player) == 0,
        count(Grid::fresh(width, height), Cell::Adversary) == 0,
{
    let grid = Grid::fresh(width, height);
    lemma_count_none(grid, Cell::Hole);
    lemma_count_none(grid, Cell::Player);
    lemma_count_none(grid, Cell::Adversary);
    assert forall|y: int| 1 <= y < height - 1 implies tally_row(#[trigger] grid.rows[y], Cell::Empty) == (width
        - 2) as nat by {
        lemma_tally_row_span(grid.rows[y], Cell::Empty, 1, width - 1);
    }
    assert forall|y: int| 0 <= y < grid.rows.len() && !(1 <= y < height - 1) implies tally_row(
        #[trigger] grid.rows[y],
        Cell::Empty,
    ) == 0 by {
        lemma_tally_row_span(grid.rows[y], Cell::Empty, 0, 0);
    }
    lemma_tally_rows_span(grid.rows, Cell::Empty, 1, height - 1, (width - 2) as nat);
    assert((height - 1 - 1) * (width - 2) == (width - 2) * (height - 2)) by (nonlinear_arith);
}

/// Replacing a zombie takes one from the count if it was alive and adds one
/// if the new one is.
proof fn lemma_alive_update(zombies: Seq<Zombie>, i: int, to: Zombie)
    requires
        0 <= i < zombies.len(),
    ensures
        alive(zombies.update(i, to)) + one_if(!zombies[i].is_dead) == alive(zombies) + one_if(!to.is_dead),
    decreases zombies.len(),
{
    let changed = zombies.update(i, to);
    if i == zombies.len() - 1 {
        assert(changed.drop_last() =~= zombies.drop_last());
    } else {
        assert(changed.drop_last() =~= zombies.drop_last().update(i, to));
        lemma_alive_update(zombies.drop_last(), i, to);
    }
}

/// A roster that counts a living zombie holds one.
proof fn lemma_alive_witness(zombies: Seq<Zombie>) -> (i: int)
    requires
        alive(zombies) > 0,
    ensures
        0 <= i < zombies.len(),
        !zombies[i].is_dead,
    decreases zombies.len(),
{
    if !zombies.last().is_dead {
        zombies.len() - 1
    } else {
        lemma_alive_witness(zombies.drop_last())
    }
}

/// No zombie is counted alive exactly when all are dead.
pub proof fn lemma_alive_none(zombies: Seq<Zombie>)
    ensures
        alive(zombies) == 0 <==> all_dead(zombies),
    decreases zombies.len(),
{
    if zombies.len() > 0 {
        let rest = zombies.drop_last();
        lemma_alive_none(rest);
        assert forall|i: int| 0 <= i < rest.len() implies rest[i] == zombies[i] by {}
    }
}

/// Where the roster matches the grid, the cells tagged `Adversary` are as
/// many as the zombies alive.
pub proof fn lemma_roster_census(grid: Grid, zombies: Seq<Zombie>)
    requires
        grid.wf(),
        roster_matches(grid, zombies),
    ensures
        count(grid, Cell::Adversary) == alive(zombies),
    decreases alive(zombies),
{
    if alive(zombies) == 0 {
        lemma_alive_none(zombies);
        lemma_count_none(grid, Cell::Adversary);
    } else {
        let k = lemma_alive_witness(zombies);
        let here = zombies[k].pos;
        let gone = Zombie { pos: here, is_dead: true };
        let fewer = zombies.update(k, gone);
        let cleared = grid.put(here, Cell::Empty);
        grid.lemma_put(here, Cell::Empty);
        lemma_count_put(grid, here, Cell::Empty, Cell::Adversary);
        lemma_alive_update(zombies, k, gone);
        assert forall|pos: (usize, usize)|
            cleared.contains(pos) && #[trigger] cleared.at(pos) == Cell::Adversary implies exists|i: int|
            #[trigger] stands_at(fewer, i, pos) by {
            let i = choose|i: int| #[trigger] stands_at(zombies, i, pos);
            assert(stands_at(fewer, i, pos));
        }
        lemma_roster_census(cleared, fewer);
    }
}

/// The count behind a sound state: exactly one cell holds the player, and
/// the cells tagged `Adversary` are as many as the zombies alive.
pub proof fn lemma_sound_census(world: World)
    requires
        sound(world),
    ensures
        count(world.grid, Cell::Player) == 1,
        count(world.grid, Cell::Adversary) == alive(world.zombies),
{
    lemma_roster_census(world.grid, world.zombies);
    let cleared = world.grid.put(world.player.pos, Cell::Empty);
    world.grid.lemma_put(world.player.pos, Cell::Empty);
    lemma_count_put(world.grid, world.player.pos, Cell::Empty, Cell::Player);
    lemma_count_none(cleared, Cell::Player);
}

} // verus!
