//! What a turn does where a game is decided: a zombie next to the player,
//! two zombies after the same cell, zombies in front of holes.

use vstd::prelude::*;
use crate::entities::{all_dead, Player, WinCondition, Zombie};
use crate::grid::{Cell, Grid};
use crate::soundness::{lemma_step_sound, lemma_turn_sound, overrun, sound, stands_at};
use crate::turn::{blocked, chase, displaced, legal, lemma_pursuit_roster, pursue, turn, zombie_step, World};

verus! {

/// `from` is one step away from `to`, straight or diagonal.
pub open spec fn adjacent(from: (usize, usize), to: (usize, usize)) -> bool {
    from != to && chase(from, to) == to
}

/// The state in which the zombies pursue after the player's move by `dir`.
pub open spec fn after_player(world: World, dir: (i32, i32)) -> World {
    World {
        grid: world.grid.put(world.player.pos, Cell::Empty).put(displaced(world.player.pos, dir), Cell::Player),
        player: Player { pos: displaced(world.player.pos, dir) },
        zombies: world.zombies,
    }
}

/// The player's move leaves the zombies' cells, the holes and the roster as
/// they are.
proof fn lemma_after_player(world: World, dir: (i32, i32))
    requires
        sound(world),
        legal(dir),
        !blocked(world, dir),
    ensures
        sound(after_player(world, dir)),
        forall|pos: (usize, usize)|
            world.grid.contains(pos) && pos != world.player.pos && pos != displaced(world.player.pos, dir)
                ==> #[trigger] after_player(world, dir).grid.at(pos) == world.grid.at(pos),
{
    let here = world.player.pos;
    world.grid.lemma_put(here, Cell::Empty);
    world.grid.put(here, Cell::Empty).lemma_put(displaced(here, dir), Cell::Player);
}

/// A pursuit that comes to a living zombie next to the player ends with the
/// player caught.
proof fn lemma_pursuit_catches(world: World, from: int, k: int)
    requires
        sound(world),
        0 <= from <= k < world.zombies.len(),
        !world.zombies[k].is_dead,
        adjacent(world.zombies[k].pos, world.player.pos),
    ensures
        pursue(world.grid, world.zombies, world.player.pos, from).caught,
    decreases k - from,
{
    let target = world.player.pos;
    let zombie = world.zombies[from];
    let step = zombie_step(world.grid, zombie, target);
    if from == k {
        world.grid.lemma_put(zombie.pos, Cell::Empty);
        assert(world.grid.put(zombie.pos, Cell::Empty).at(target) == Cell::Player);
    } else if !step.caught {
        let next = World {
        grid: step.grid,
        player: world.player,
        zombies: world.zombies.update(from, step.zombie),
    };
        lemma_step_sound(world, from);
        assert(next.zombies[k] == world.zombies[k]);
        lemma_pursuit_catches(next, from + 1, k);
    }
}

/// A living zombie next to the place where the player ends its move catches
/// the player in that turn.
///
/// From a sound state, in a turn that is not blocked, the game is lost if
/// some living zombie is one step away from the player's new place; with the
/// zero displacement that is the place where the player stands. A zombie
/// then stands on the player's cell.
pub proof fn lemma_adjacent_zombie_catches(world: World, dir: (i32, i32), k: int)
    requires
        sound(world),
        legal(dir),
        !blocked(world, dir),
        0 <= k < world.zombies.len(),
        !world.zombies[k].is_dead,
        adjacent(world.zombies[k].pos, displaced(world.player.pos, dir)),
    ensures
        turn(world, dir).outcome == WinCondition::Lose,
        turn(world, dir).world.player.pos == displaced(world.player.pos, dir),
        turn(world, dir).world.grid.at(displaced(world.player.pos, dir)) == Cell::Adversary,
        exists|i: int|
            #[trigger] stands_at(turn(world, dir).world.zombies, i, displaced(world.player.pos, dir)),
{
    lemma_after_player(world, dir);
    lemma_pursuit_catches(after_player(world, dir), 0, k);
    lemma_turn_sound(world, dir);
    assert(overrun(turn(world, dir).world));
}

/// Of two zombies after the same empty cell, the first of the roster takes
/// it and the second stays where it is.
///
/// From a sound state with a roster of two living zombies whose steps
/// towards the player lead to the same empty cell, the turn in which the
/// player stays goes on, the first zombie stands on that cell, and the
/// second is recorded and shown where it was.
pub proof fn lemma_first_of_roster_takes_the_cell(world: World)
    requires
        sound(world),
        world.zombies.len() == 2,
        !world.zombies[0].is_dead,
        !world.zombies[1].is_dead,
        chase(world.zombies[0].pos, world.player.pos) == chase(world.zombies[1].pos, world.player.pos),
        world.grid.at(chase(world.zombies[0].pos, world.player.pos)) == Cell::Empty,
    ensures
        turn(world, (0i32, 0i32)).outcome == WinCondition::Continue,
        turn(world, (0i32, 0i32)).world.zombies[0] == (Zombie {
            pos: chase(world.zombies[0].pos, world.player.pos),
            is_dead: false,
        }),
        turn(world, (0i32, 0i32)).world.zombies[1] == world.zombies[1],
        turn(world, (0i32, 0i32)).world.grid.at(chase(world.zombies[0].pos, world.player.pos))
            == Cell::Adversary,
        turn(world, (0i32, 0i32)).world.grid.at(world.zombies[1].pos) == Cell::Adversary,
        turn(world, (0i32, 0i32)).world.grid.at(world.zombies[0].pos) == Cell::Empty,
{
    let dir = (0i32, 0i32);
    let target = world.player.pos;
    let start = after_player(world, dir);
    let first = world.zombies[0];
    let second = world.zombies[1];
    let dest = chase(first.pos, target);
    lemma_after_player(world, dir);
    assert(first.pos != second.pos);
    assert(start.grid.at(first.pos) == Cell::Adversary);
    assert(start.grid.at(second.pos) == Cell::Adversary);
    assert(start.grid.at(dest) == Cell::Empty);
    let one = zombie_step(start.grid, first, target);
    start.grid.lemma_put(first.pos, Cell::Empty);
    start.grid.put(first.pos, Cell::Empty).lemma_put(dest, Cell::Adversary);
    assert(one.zombie == Zombie { pos: dest, is_dead: false } && !one.caught);
    let moved = world.zombies.update(0, one.zombie);
    let two = zombie_step(one.grid, second, target);
    one.grid.lemma_put(second.pos, Cell::Empty);
    one.grid.put(second.pos, Cell::Empty).lemma_put(second.pos, Cell::Adversary);
    assert(two.zombie == second && !two.caught);
    let last = moved.update(1, two.zombie);
    assert(pursue(start.grid, world.zombies, target, 0) == pursue(one.grid, moved, target, 1));
    assert(pursue(one.grid, moved, target, 1) == pursue(two.grid, last, target, 2));
    assert(!last[0].is_dead);
}

/// From index `from` on, every living zombie's step towards the player
/// leads to a hole, and no two of them to the same one.
pub open spec fn in_front_of_holes(grid: Grid, zombies: Seq<Zombie>, target: (usize, usize), from: int) -> bool {
    &&& forall|i: int|
        from <= i < zombies.len() && !(#[trigger] zombies[i]).is_dead ==> grid.at(chase(zombies[i].pos, target))
            == Cell::Hole
    &&& forall|i: int, j: int|
        from <= i < j < zombies.len() && !(#[trigger] zombies[i]).is_dead && !(#[trigger] zombies[j]).is_dead
            ==> chase(zombies[i].pos, target) != chase(zombies[j].pos, target)
}

/// The step of the zombie at index `from`, where it and the ones after it
/// are in front of holes: it does not catch the player, it is dead
/// afterwards, its hole is empty, and the ones after it are still in front
/// of their holes.
proof fn lemma_step_into_hole(world: World, from: int) -> (next: World)
    requires
        sound(world),
        0 <= from < world.zombies.len(),
        in_front_of_holes(world.grid, world.zombies, world.player.pos, from),
    ensures
        next == (World {
            grid: zombie_step(world.grid, world.zombies[from], world.player.pos).grid,
            player: world.player,
            zombies: world.zombies.update(
                from,
                zombie_step(world.grid, world.zombies[from], world.player.pos).zombie,
            ),
        }),
        !zombie_step(world.grid, world.zombies[from], world.player.pos).caught,
        sound(next),
        next.zombies[from].is_dead,
        !world.zombies[from].is_dead ==> next.grid.at(chase(world.zombies[from].pos, world.player.pos))
            == Cell::Empty,
        in_front_of_holes(next.grid, next.zombies, next.player.pos, from + 1),
{
    let target = world.player.pos;
    let zombie = world.zombies[from];
    let step = zombie_step(world.grid, zombie, target);
    let next = World {
        grid: step.grid,
        player: world.player,
        zombies: world.zombies.update(from, step.zombie),
    };
    lemma_step_sound(world, from);
    if !zombie.is_dead {
        let dest = chase(zombie.pos, target);
        world.grid.lemma_put(zombie.pos, Cell::Empty);
        world.grid.put(zombie.pos, Cell::Empty).lemma_put(dest, Cell::Empty);
        assert(world.grid.at(dest) == Cell::Hole);
        assert forall|i: int|
            from + 1 <= i < next.zombies.len() && !(#[trigger] next.zombies[i]).is_dead implies next.grid.at(
            chase(next.zombies[i].pos, target),
        ) == Cell::Hole by {
            assert(!world.zombies[i].is_dead);
            assert(chase(world.zombies[i].pos, target) != dest);
            assert(world.grid.at(chase(world.zombies[i].pos, target)) == Cell::Hole);
        }
    }
    assert forall|i: int, j: int|
        from + 1 <= i < j < next.zombies.len() && !(#[trigger] next.zombies[i]).is_dead && !(
        #[trigger] next.zombies[j]).is_dead implies chase(next.zombies[i].pos, target) != chase(
        next.zombies[j].pos,
        target,
    ) by {
        assert(!world.zombies[i].is_dead && !world.zombies[j].is_dead);
    }
    next
}

/// A cell that is empty stays empty through a pursuit in which every
/// living zombie is in front of a hole.
proof fn lemma_used_hole_stays_empty(world: World, from: int, pos: (usize, usize))
    requires
        sound(world),
        0 <= from,
        world.grid.contains(pos),
        world.grid.at(pos) == Cell::Empty,
        in_front_of_holes(world.grid, world.zombies, world.player.pos, from),
    ensures
        pursue(world.grid, world.zombies, world.player.pos, from).grid.at(pos) == Cell::Empty,
    decreases world.zombies.len() - from,
{
    if from < world.zombies.len() {
        let zombie = world.zombies[from];
        let next = lemma_step_into_hole(world, from);
        if !zombie.is_dead {
            world.grid.lemma_put(zombie.pos, Cell::Empty);
            world.grid.put(zombie.pos, Cell::Empty).lemma_put(chase(zombie.pos, world.player.pos), Cell::Empty);
        }
        lemma_used_hole_stays_empty(next, from + 1, pos);
    }
}

/// The zombies from index `from` on, each alive one in front of a hole of
/// its own, all fall in.
proof fn lemma_pursuit_into_holes(world: World, from: int)
    requires
        sound(world),
        0 <= from,
        in_front_of_holes(world.grid, world.zombies, world.player.pos, from),
    ensures
        !pursue(world.grid, world.zombies, world.player.pos, from).caught,
        forall|i: int|
            from <= i < world.zombies.len() ==> (#[trigger] pursue(
                world.grid,
                world.zombies,
                world.player.pos,
                from,
            ).zombies[i]).is_dead,
        forall|i: int|
            from <= i < world.zombies.len() && !(#[trigger] world.zombies[i]).is_dead ==> pursue(
                world.grid,
                world.zombies,
                world.player.pos,
                from,
            ).grid.at(chase(world.zombies[i].pos, world.player.pos)) == Cell::Empty,
    decreases world.zombies.len() - from,
{
    if from < world.zombies.len() {
        let target = world.player.pos;
        let zombie = world.zombies[from];
        let next = lemma_step_into_hole(world, from);
        let end = pursue(world.grid, world.zombies, target, from);
        assert(end == pursue(next.grid, next.zombies, target, from + 1));
        lemma_pursuit_into_holes(next, from + 1);
        lemma_pursuit_roster(next.grid, next.zombies, target, from + 1);
        assert(next.zombies[from].is_dead);
        assert forall|i: int|
            from <= i < world.zombies.len() && !(#[trigger] world.zombies[i]).is_dead implies end.grid.at(
            chase(world.zombies[i].pos, target),
        ) == Cell::Empty by {
            if i == from {
                lemma_used_hole_stays_empty(next, from + 1, chase(zombie.pos, target));
            } else {
                assert(next.zombies[i] == world.zombies[i]);
            }
        }
    }
}

/// Zombies that each stand in front of a hole of their own all fall in, and
/// the game is won.
///
/// From a sound state, in a turn that is not blocked, if the step of every
/// living zombie towards the player's new place leads to a hole, and no two
/// of them to the same one, then the turn ends won, every zombie is dead,
/// and each of those holes is used up.
pub proof fn lemma_holes_take_all(world: World, dir: (i32, i32))
    requires
        sound(world),
        legal(dir),
        !blocked(world, dir),
        in_front_of_holes(world.grid, world.zombies, displaced(world.player.pos, dir), 0),
    ensures
        turn(world, dir).outcome == WinCondition::Win,
        all_dead(turn(world, dir).world.zombies),
        forall|i: int|
            0 <= i < world.zombies.len() && !(#[trigger] world.zombies[i]).is_dead ==> turn(
                world,
                dir,
            ).world.grid.at(chase(world.zombies[i].pos, displaced(world.player.pos, dir))) == Cell::Empty,
{
    let start = after_player(world, dir);
    lemma_after_player(world, dir);
    assert forall|i: int|
        0 <= i < start.zombies.len() && !(#[trigger] start.zombies[i]).is_dead implies start.grid.at(
        chase(start.zombies[i].pos, start.player.pos),
    ) == Cell::Hole by {
        assert(world.grid.at(chase(world.zombies[i].pos, start.player.pos)) == Cell::Hole);
    }
    lemma_pursuit_into_holes(start, 0);
    lemma_pursuit_roster(start.grid, start.zombies, start.player.pos, 0);
}

} // verus!
