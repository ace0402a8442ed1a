//! One turn: the player's move, then each zombie's pursuit in roster order.

use vstd::prelude::*;
use crate::entities::{all_dead, living_on_grid, none_alive, Player, WinCondition, Zombie};
use crate::grid::{Board, Cell, Grid};

verus! {

/// One coordinate moved by at most one towards another.
pub open spec fn toward(from: usize, to: usize) -> usize {
    if from > to {
        (from - 1) as usize
    } else if from < to {
        (from + 1) as usize
    } else {
        from
    }
}

/// The neighbouring position (or the same one) that is nearest to `target`:
/// each axis closes in by itself, so the step may be diagonal.
pub open spec fn chase(from: (usize, usize), target: (usize, usize)) -> (usize, usize) {
    (toward(from.0, target.0), toward(from.1, target.1))
}

/// A displacement of at most one cell along each axis.
pub open spec fn legal(dir: (i32, i32)) -> bool {
    -1 <= dir.0 <= 1 && -1 <= dir.1 <= 1
}

/// The position that lies `dir` away from `pos`.
pub open spec fn displaced(pos: (usize, usize), dir: (i32, i32)) -> (usize, usize) {
    ((pos.0 + dir.0) as usize, (pos.1 + dir.1) as usize)
}

/// What one zombie's step leaves behind.
pub struct Step {
    pub grid: Grid,
    pub zombie: Zombie,
    pub caught: bool,
}

/// The step of one zombie towards `target` on `grid`.
///
/// A dead zombie, or one that the grid does not show where it is recorded,
/// does nothing. Any other leaves its cell, and what its destination holds
/// decides: an empty cell takes it; a hole swallows it and is used up; the
/// player is caught; behind another zombie it stays where it was; at a
/// border cell it is lost from the grid though still counted alive.
pub open spec fn zombie_step(grid: Grid, zombie: Zombie, target: (usize, usize)) -> Step {
    if zombie.is_dead || grid.at(zombie.pos) != Cell::Adversary {
        Step { grid, zombie, caught: false }
    } else {
        let cleared = grid.put(zombie.pos, Cell::Empty);
        let dest = chase(zombie.pos, target);
        match cleared.at(dest) {
            Cell::Empty => Step {
                grid: cleared.put(dest, Cell::Adversary),
                zombie: Zombie { pos: dest, is_dead: false },
                caught: false,
            },
            Cell::Hole => Step {
                grid: cleared.put(dest, Cell::Empty),
                zombie: Zombie { pos: zombie.pos, is_dead: true },
                caught: false,
            },
            Cell::Player => Step {
                grid: cleared.put(dest, Cell::Adversary),
                zombie: Zombie { pos: dest, is_dead: false },
                caught: true,
            },
            Cell::Adversary => Step { grid: cleared.put(zombie.pos, Cell::Adversary), zombie, caught: false },
            Cell::Border => Step { grid: cleared, zombie, caught: false },
        }
    }
}

/// What the zombies' pursuit leaves behind.
pub struct Pursuit {
    pub grid: Grid,
    pub zombies: Seq<Zombie>,
    pub caught: bool,
}

/// The zombies from index `from` on step one after another, each on the grid
/// as the ones before it left it. The pursuit stops with the zombie that
/// catches the player.
pub open spec fn pursue(grid: Grid, zombies: Seq<Zombie>, target: (usize, usize), from: int) -> Pursuit
    decreases zombies.len() - from,
{
    if from < 0 || from >= zombies.len() {
        Pursuit { grid, zombies, caught: false }
    } else {
        let step = zombie_step(grid, zombies[from], target);
        let moved = zombies.update(from, step.zombie);
        if step.caught {
            Pursuit { grid: step.grid, zombies: moved, caught: true }
        } else {
            pursue(step.grid, moved, target, from + 1)
        }
    }
}

/// The whole state of a game between two turns.
pub struct World {
    pub grid: Grid,
    pub player: Player,
    pub zombies: Seq<Zombie>,
}

/// A turn's result: the state it leaves and how it ended.
pub struct Turn {
    pub world: World,
    pub outcome: WinCondition,
}

/// The player may not move by `dir`: the cell there is taken.
pub open spec fn blocked(world: World, dir: (i32, i32)) -> bool {
    dir != (0i32, 0i32) && world.grid.at(displaced(world.player.pos, dir)) != Cell::Empty
}

/// One turn. A blocked move changes nothing. Otherwise the player moves (or
/// stays, for the zero displacement), the zombies pursue, and the turn ends
/// lost if one caught the player, won if none is left alive.
pub open spec fn turn(world: World, dir: (i32, i32)) -> Turn {
    if blocked(world, dir) {
        Turn { world, outcome: WinCondition::Continue }
    } else {
        let dest = displaced(world.player.pos, dir);
        let moved = world.grid.put(world.player.pos, Cell::Empty).put(dest, Cell::Player);
        let pursuit = pursue(moved, world.zombies, dest, 0);
        Turn {
            world: World { grid: pursuit.grid, player: Player { pos: dest }, zombies: pursuit.zombies },
            outcome: if pursuit.caught {
                WinCondition::Lose
            } else if all_dead(pursuit.zombies) {
                WinCondition::Win
            } else {
                WinCondition::Continue
            },
        }
    }
}

/// The state that a board, a player and a roster stand for.
pub open spec fn world_of(board: Board, player: Player, zombies: Vec<Zombie>) -> World {
    World { grid: board@, player, zombies: zombies@ }
}

/// What a turn needs of the state it starts from: the ring is border, the
/// player stands inside it, and every living zombie is on the grid.
pub open spec fn playable(world: World) -> bool {
    &&& world.grid.wf()
    &&& world.grid.bordered()
    &&& world.grid.interior(world.player.pos)
    &&& living_on_grid(world.grid.width(), world.grid.height(), world.zombies)
}

/// Tells whether a turn can start from this board, player and roster.
pub fn is_playable(board: &Board, player: &Player, zombies: &Vec<Zombie>) -> (ok: bool)
    requires
        board.wf(),
    ensures
        ok == playable(world_of(*board, *player, *zombies)),
{
    let width: usize = board.width();
    let height: usize = board.height();
    proof {
        board.lemma_view_wf();
    }
    let (px, py) = player.pos;
    if px < 1 || px >= width - 1 || py < 1 || py >= height - 1 {
        return false;
    }
    let mut y: usize = 0;
    while y < height
        invariant
            board.wf(),
            board@.wf(),
            width == board@.width(),
            height == board@.height(),
            y <= height,
            forall|pos: (usize, usize)|
                board@.on_ring(pos) && pos.1 < y ==> #[trigger] board@.at(pos) == Cell::Border,
        decreases height - y,
    {
        let mut x: usize = 0;
        while x < width
            invariant
                board.wf(),
                board@.wf(),
                width == board@.width(),
                height == board@.height(),
                y < height,
                x <= width,
                forall|pos: (usize, usize)|
                    board@.on_ring(pos) && (pos.1 < y || (pos.1 == y && pos.0 < x)) ==> #[trigger] board@.at(pos)
                        == Cell::Border,
            decreases width - x,
        {
            let ring = x == 0 || y == 0 || x == width - 1 || y == height - 1;
            if ring && board.get((x, y)) != Cell::Border {
                return false;
            }
            x = x + 1;
        }
        y = y + 1;
    }
    let mut i: usize = 0;
    while i < zombies.len()
        invariant
            i <= zombies.len(),
            width == board@.width(),
            height == board@.height(),
            forall|j: int|
                0 <= j < i && !(#[trigger] zombies@[j]).is_dead ==> zombies@[j].pos.0 < width && zombies@[j].pos.1
                    < height,
        decreases zombies.len() - i,
    {
        let zombie: Zombie = zombies[i];
        if !zombie.is_dead && (zombie.pos.0 >= width || zombie.pos.1 >= height) {
            return false;
        }
        i = i + 1;
    }
    true
}

fn step_toward(from: usize, to: usize) -> (next: usize)
    ensures
        next == toward(from, to),
{
    if from > to {
        from - 1
    } else if from < to {
        from + 1
    } else {
        from
    }
}

fn step_by(coord: usize, by: i32) -> (next: usize)
    requires
        1 <= coord < usize::MAX,
        -1 <= by <= 1,
    ensures
        next == (coord + by) as usize,
{
    if by < 0 {
        coord - 1
    } else if by > 0 {
        coord + 1
    } else {
        coord
    }
}

/// Lets one zombie take its step towards `target`, and tells whether it
/// caught the player.
pub fn step_zombie(board: &mut Board, zombie: &mut Zombie, target: (usize, usize)) -> (caught: bool)
    requires
        old(board).wf(),
        old(board)@.contains(target),
        !old(zombie).is_dead ==> old(board)@.contains(old(zombie).pos),
    ensures
        final(board).wf(),
        final(board)@.width() == old(board)@.width(),
        final(board)@.height() == old(board)@.height(),
        !final(zombie).is_dead ==> final(board)@.contains(final(zombie).pos),
        zombie_step(old(board)@, *old(zombie), target) == (Step {
            grid: final(board)@,
            zombie: *final(zombie),
            caught,
        }),
{
    proof {
        board.lemma_view_wf();
    }
    if zombie.is_dead {
        return false;
    }
    if board.get(zombie.pos) != Cell::Adversary {
        return false;
    }
    board.set(zombie.pos, Cell::Empty);
    let dest: (usize, usize) = (step_toward(zombie.pos.0, target.0), step_toward(zombie.pos.1, target.1));
    match board.get(dest) {
        Cell::Empty => {
            board.set(dest, Cell::Adversary);
            zombie.pos = dest;
            false
        },
        Cell::Hole => {
            board.set(dest, Cell::Empty);
            zombie.is_dead = true;
            false
        },
        Cell::Player => {
            board.set(dest, Cell::Adversary);
            zombie.pos = dest;
            true
        },
        Cell::Adversary => {
            board.set(zombie.pos, Cell::Adversary);
            false
        },
        Cell::Border => false,
    }
}

/// A step keeps the grid's shape and its border ring, and a zombie that is
/// still alive after it is still on the grid.
pub proof fn lemma_step_keeps_ring(grid: Grid, zombie: Zombie, target: (usize, usize))
    requires
        grid.wf(),
        grid.bordered(),
        grid.contains(target),
        !zombie.is_dead ==> grid.contains(zombie.pos),
    ensures
        zombie_step(grid, zombie, target).grid.wf(),
        zombie_step(grid, zombie, target).grid.bordered(),
        zombie_step(grid, zombie, target).grid.width() == grid.width(),
        zombie_step(grid, zombie, target).grid.height() == grid.height(),
        !zombie_step(grid, zombie, target).zombie.is_dead ==> grid.contains(
            zombie_step(grid, zombie, target).zombie.pos,
        ),
{
    if !zombie.is_dead && grid.at(zombie.pos) == Cell::Adversary {
        let cleared = grid.put(zombie.pos, Cell::Empty);
        grid.lemma_put(zombie.pos, Cell::Empty);
        cleared.lemma_put(chase(zombie.pos, target), Cell::Adversary);
    }
}

/// What a pursuit does to the roster: it keeps its length, it leaves every
/// dead zombie as it was, and if it ends with the player caught, the
/// catching zombie is alive.
pub proof fn lemma_pursuit_roster(grid: Grid, zombies: Seq<Zombie>, target: (usize, usize), from: int)
    requires
        0 <= from,
    ensures
        pursue(grid, zombies, target, from).zombies.len() == zombies.len(),
        forall|i: int|
            0 <= i < zombies.len() && (#[trigger] zombies[i]).is_dead ==> pursue(
                grid,
                zombies,
                target,
                from,
            ).zombies[i] == zombies[i],
        pursue(grid, zombies, target, from).caught ==> !all_dead(pursue(grid, zombies, target, from).zombies),
    decreases zombies.len() - from,
{
    if from < zombies.len() {
        let step = zombie_step(grid, zombies[from], target);
        let moved = zombies.update(from, step.zombie);
        if step.caught {
            assert(!moved[from].is_dead);
        } else {
            lemma_pursuit_roster(step.grid, moved, target, from + 1);
            assert forall|i: int| 0 <= i < zombies.len() && (#[trigger] zombies[i]).is_dead implies pursue(
                grid,
                zombies,
                target,
                from,
            ).zombies[i] == zombies[i] by {
                assert(moved[i] == zombies[i]);
            }
        }
    }
}

/// Plays one turn: moves the player by `dir` if the cell there is empty,
/// lets the zombies pursue, and tells how the turn ended.
pub fn do_move(board: &mut Board, player: &mut Player, zombies: &mut Vec<Zombie>, dir: (i32, i32)) -> (outcome:
    WinCondition)
    requires
        old(board).wf(),
        playable(world_of(*old(board), *old(player), *old(zombies))),
        legal(dir),
    ensures
        final(board).wf(),
        playable(world_of(*final(board), *final(player), *final(zombies))),
        final(board)@.width() == old(board)@.width(),
        final(board)@.height() == old(board)@.height(),
        final(zombies)@.len() == old(zombies)@.len(),
        forall|i: int|
            0 <= i < old(zombies)@.len() && (#[trigger] old(zombies)@[i]).is_dead ==> final(zombies)@[i] == old(
                zombies,
            )@[i],
        turn(world_of(*old(board), *old(player), *old(zombies)), dir) == (Turn {
            world: world_of(*final(board), *final(player), *final(zombies)),
            outcome,
        }),
        blocked(world_of(*old(board), *old(player), *old(zombies)), dir) ==> outcome == WinCondition::Continue
            && final(board)@ == old(board)@ && *final(player) == *old(player) && final(zombies)@ == old(
            zombies,
        )@,
        outcome == WinCondition::Win <==> !blocked(world_of(*old(board), *old(player), *old(zombies)), dir)
            && all_dead(final(zombies)@),
{
    let width: usize = board.width();
    let height: usize = board.height();
    let new_pos: (usize, usize) = (step_by(player.pos.0, dir.0), step_by(player.pos.1, dir.1));
    if (dir.0 != 0 || dir.1 != 0) && board.get(new_pos) != Cell::Empty {
        return WinCondition::Continue;
    }
    let ghost start = board@;
    let ghost roster = zombies@;
    proof {
        start.lemma_put(player.pos, Cell::Empty);
        start.put(player.pos, Cell::Empty).lemma_put(new_pos, Cell::Player);
    }
    board.set(player.pos, Cell::Empty);
    board.set(new_pos, Cell::Player);
    player.pos = new_pos;
    let ghost moved = board@;
    let mut i: usize = 0;
    while i < zombies.len()
        invariant
            i <= zombies.len(),
            zombies@.len() == roster.len(),
            board.wf(),
            board@.wf(),
            board@.bordered(),
            board@.width() == moved.width(),
            board@.height() == moved.height(),
            roster == old(zombies)@,
            !blocked(world_of(*old(board), *old(player), *old(zombies)), dir),
            new_pos == displaced(old(player).pos, dir),
            moved == old(board)@.put(old(player).pos, Cell::Empty).put(new_pos, Cell::Player),
            moved.width() == old(board)@.width(),
            moved.height() == old(board)@.height(),
            moved.interior(new_pos),
            player.pos == new_pos,
            living_on_grid(moved.width(), moved.height(), zombies@),
            pursue(board@, zombies@, new_pos, i as int) == pursue(moved, roster, new_pos, 0),
        decreases zombies.len() - i,
    {
        let mut zombie: Zombie = zombies[i];
        proof {
            lemma_step_keeps_ring(board@, zombie, new_pos);
        }
        let caught = step_zombie(board, &mut zombie, new_pos);
        zombies.set(i, zombie);
        if caught {
            proof {
                lemma_pursuit_roster(moved, roster, new_pos, 0);
            }
            return WinCondition::Lose;
        }
        i = i + 1;
    }
    proof {
        lemma_pursuit_roster(moved, roster, new_pos, 0);
    }
    if none_alive(zombies) {
        WinCondition::Win
    } else {
        WinCondition::Continue
    }
}

} // verus!
