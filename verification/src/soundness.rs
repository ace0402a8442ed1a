//! What holds of the game's state between turns, and why a turn keeps it.

use vstd::prelude::*;
use crate::entities::{Player, WinCondition, Zombie};
use crate::grid::{Board, Cell, Grid};
use crate::turn::{blocked, chase, displaced, legal, pursue, turn, world_of, zombie_step, World};

verus! {

/// The ring holds `Border` and no cell inside it does.
pub open spec fn ringed(grid: Grid) -> bool {
    &&& grid.wf()
    &&& forall|pos: (usize, usize)|
        grid.contains(pos) ==> (#[trigger] grid.at(pos) == Cell::Border <==> grid.on_ring(pos))
}

/// The zombie at index `i` is alive and recorded at `pos`.
pub open spec fn stands_at(zombies: Seq<Zombie>, i: int, pos: (usize, usize)) -> bool {
    0 <= i < zombies.len() && !zombies[i].is_dead && zombies[i].pos == pos
}

/// The living zombies and the cells tagged `Adversary` match one to one:
/// each living zombie is recorded at such a cell, no two at the same, and
/// each such cell is where a living zombie is recorded.
pub open spec fn roster_matches(grid: Grid, zombies: Seq<Zombie>) -> bool {
    &&& forall|i: int|
        0 <= i < zombies.len() && !(#[trigger] zombies[i]).is_dead ==> grid.contains(zombies[i].pos)
            && grid.at(zombies[i].pos) == Cell::Adversary
    &&& forall|i: int, j: int|
        0 <= i < j < zombies.len() && !(#[trigger] zombies[i]).is_dead && !(#[trigger] zombies[j]).is_dead
            ==> zombies[i].pos != zombies[j].pos
    &&& forall|pos: (usize, usize)|
        grid.contains(pos) && #[trigger] grid.at(pos) == Cell::Adversary ==> exists|i: int|
            #[trigger] stands_at(zombies, i, pos)
}

/// The state of a game that is going on: the border is in place, the player
/// stands inside it on the one cell tagged `Player`, and the roster matches
/// the grid.
pub open spec fn sound(world: World) -> bool {
    &&& ringed(world.grid)
    &&& world.grid.interior(world.player.pos)
    &&& forall|pos: (usize, usize)|
        world.grid.contains(pos) ==> (#[trigger] world.grid.at(pos) == Cell::Player <==> pos
            == world.player.pos)
    &&& roster_matches(world.grid, world.zombies)
}

/// The state of a game that was just lost: a zombie stands where the player
/// was, and no cell is tagged `Player` any more. The border and the roster
/// are as in a game that is going on.
pub open spec fn overrun(world: World) -> bool {
    &&& ringed(world.grid)
    &&& world.grid.interior(world.player.pos)
    &&& world.grid.at(world.player.pos) == Cell::Adversary
    &&& forall|pos: (usize, usize)| world.grid.contains(pos) ==> #[trigger] world.grid.at(pos) != Cell::Player
    &&& roster_matches(world.grid, world.zombies)
}

/// Tells whether one of the first `upto` zombies is alive and recorded at
/// `pos`.
fn stands_among(zombies: &Vec<Zombie>, upto: usize, pos: (usize, usize)) -> (found: bool)
    requires
        upto <= zombies.len(),
    ensures
        found == exists|i: int| i < upto && #[trigger] stands_at(zombies@, i, pos),
{
    let mut i: usize = 0;
    while i < upto
        invariant
            i <= upto <= zombies.len(),
            forall|j: int| j < i ==> !#[trigger] stands_at(zombies@, j, pos),
        decreases upto - i,
    {
        let zombie: Zombie = zombies[i];
        if !zombie.is_dead && zombie.pos.0 == pos.0 && zombie.pos.1 == pos.1 {
            assert(stands_at(zombies@, i as int, pos));
            return true;
        }
        i = i + 1;
    }
    false
}

/// Tells whether the board, the player and the roster make a sound state.
pub fn is_sound(board: &Board, player: &Player, zombies: &Vec<Zombie>) -> (ok: bool)
    requires
        board.wf(),
    ensures
        ok == sound(world_of(*board, *player, *zombies)),
{
    let width: usize = board.width();
    let height: usize = board.height();
    let ghost grid = board@;
    let ghost roster = zombies@;
    proof {
        board.lemma_view_wf();
    }
    let (px, py) = player.pos;
    if px < 1 || px >= width - 1 || py < 1 || py >= height - 1 {
        return false;
    }
    let mut y: usize = 0;
    while y < height
        invariant
            board.wf(),
            grid == board@,
            roster == zombies@,
            grid.wf(),
            width == grid.width(),
            height == grid.height(),
            player.pos == (px, py),
            y <= height,
            forall|pos: (usize, usize)|
                grid.contains(pos) && pos.1 < y ==> {
                    &&& #[trigger] grid.at(pos) == Cell::Border <==> grid.on_ring(pos)
                    &&& grid.at(pos) == Cell::Player <==> pos == player.pos
                    &&& grid.at(pos) == Cell::Adversary ==> exists|i: int| #[trigger] stands_at(roster, i, pos)
                },
        decreases height - y,
    {
        let mut x: usize = 0;
        while x < width
            invariant
                board.wf(),
                grid == board@,
                roster == zombies@,
                grid.wf(),
                width == grid.width(),
                height == grid.height(),
                player.pos == (px, py),
                y < height,
                x <= width,
                forall|pos: (usize, usize)|
                    grid.contains(pos) && (pos.1 < y || (pos.1 == y && pos.0 < x)) ==> {
                        &&& #[trigger] grid.at(pos) == Cell::Border <==> grid.on_ring(pos)
                        &&& grid.at(pos) == Cell::Player <==> pos == player.pos
                        &&& grid.at(pos) == Cell::Adversary ==> exists|i: int| #[trigger] stands_at(roster, i, pos)
                    },
            decreases width - x,
        {
            let cell = board.get((x, y));
            let ring = x == 0 || y == 0 || x == width - 1 || y == height - 1;
            let home = x == px && y == py;
            if (cell == Cell::Border) != ring {
                return false;
            }
            if (cell == Cell::Player) != home {
                return false;
            }
            if cell == Cell::Adversary && !stands_among(zombies, zombies.len(), (x, y)) {
                return false;
            }
            x = x + 1;
        }
        y = y + 1;
    }
    let mut k: usize = 0;
    while k < zombies.len()
        invariant
            board.wf(),
            grid == board@,
            roster == zombies@,
            grid.wf(),
            width == grid.width(),
            height == grid.height(),
            k <= zombies.len(),
            forall|i: int|
                0 <= i < k && !(#[trigger] roster[i]).is_dead ==> grid.contains(roster[i].pos) && grid.at(
                    roster[i].pos,
                ) == Cell::Adversary,
            forall|i: int, j: int|
                0 <= i < j < k && !(#[trigger] roster[i]).is_dead && !(#[trigger] roster[j]).is_dead
                    ==> roster[i].pos != roster[j].pos,
        decreases zombies.len() - k,
    {
        let zombie: Zombie = zombies[k];
        if !zombie.is_dead {
            if zombie.pos.0 >= width || zombie.pos.1 >= height {
                return false;
            }
            if board.get(zombie.pos) != Cell::Adversary {
                return false;
            }
            if stands_among(zombies, k, zombie.pos) {
                return false;
            }
            proof {
                assert forall|i: int| 0 <= i < k && !(#[trigger] roster[i]).is_dead implies roster[i].pos
                    != zombie.pos by {
                    assert(!stands_at(roster, i, zombie.pos));
                }
            }
        }
        k = k + 1;
    }
    true
}

/// Writing anything but `Border` inside the ring leaves the ring as it is.
pub proof fn lemma_ringed_put(grid: Grid, pos: (usize, usize), tag: Cell)
    requires
        ringed(grid),
        grid.interior(pos),
        tag != Cell::Border,
    ensures
        ringed(grid.put(pos, tag)),
{
    grid.lemma_put(pos, tag);
}

/// A new zombie on a cell that held none keeps the roster matched.
pub proof fn lemma_roster_joined(grid: Grid, zombies: Seq<Zombie>, pos: (usize, usize))
    requires
        grid.wf(),
        grid.contains(pos),
        grid.at(pos) != Cell::Adversary,
        roster_matches(grid, zombies),
    ensures
        roster_matches(grid.put(pos, Cell::Adversary), zombies.push(Zombie { pos, is_dead: false })),
{
    grid.lemma_put(pos, Cell::Adversary);
    let after = grid.put(pos, Cell::Adversary);
    let joined = zombies.push(Zombie { pos, is_dead: false });
    assert forall|q: (usize, usize)|
        after.contains(q) && #[trigger] after.at(q) == Cell::Adversary implies exists|i: int|
        #[trigger] stands_at(joined, i, q) by {
        if q == pos {
            assert(stands_at(joined, zombies.len() as int, q));
        } else {
            let i = choose|i: int| #[trigger] stands_at(zombies, i, q);
            assert(stands_at(joined, i, q));
        }
    }
}

/// Writing a tag other than `Adversary` on a cell that holds no zombie
/// keeps the roster matched.
pub proof fn lemma_roster_untouched(grid: Grid, zombies: Seq<Zombie>, pos: (usize, usize), tag: Cell)
    requires
        grid.wf(),
        grid.contains(pos),
        grid.at(pos) != Cell::Adversary,
        tag != Cell::Adversary,
        roster_matches(grid, zombies),
    ensures
        roster_matches(grid.put(pos, tag), zombies),
{
    grid.lemma_put(pos, tag);
}

/// One zombie's step keeps a sound state sound, unless it catches the
/// player, and then the state is overrun.
pub proof fn lemma_step_sound(world: World, k: int)
    requires
        sound(world),
        0 <= k < world.zombies.len(),
    ensures
        zombie_step(world.grid, world.zombies[k], world.player.pos).grid.width() == world.grid.width(),
        zombie_step(world.grid, world.zombies[k], world.player.pos).grid.height() == world.grid.height(),
        ({
            let step = zombie_step(world.grid, world.zombies[k], world.player.pos);
            let after = World {
                grid: step.grid,
                player: world.player,
                zombies: world.zombies.update(k, step.zombie),
            };
            if step.caught {
                overrun(after)
            } else {
                sound(after)
            }
        }),
{
    let grid = world.grid;
    let zombies = world.zombies;
    let target = world.player.pos;
    let zombie = zombies[k];
    let step = zombie_step(grid, zombie, target);
    let moved = zombies.update(k, step.zombie);
    if zombie.is_dead || grid.at(zombie.pos) != Cell::Adversary {
        assert(moved =~= zombies);
    } else {
        let here = zombie.pos;
        let cleared = grid.put(here, Cell::Empty);
        let dest = chase(here, target);
        grid.lemma_put(here, Cell::Empty);
        cleared.lemma_put(dest, Cell::Adversary);
        cleared.lemma_put(dest, Cell::Empty);
        let after = step.grid;
        if grid.at(dest) == Cell::Adversary {
            // The zombie is back where it was.
            assert(moved =~= zombies);
            assert forall|pos: (usize, usize)| after.contains(pos) implies #[trigger] after.at(pos)
                == grid.at(pos) by {}
        } else {
            // On the destination stands the zombie that stepped, on any other
            // cell tagged `Adversary` the one that stood there before.
            assert forall|pos: (usize, usize)|
                after.contains(pos) && #[trigger] after.at(pos) == Cell::Adversary implies exists|i: int|
                #[trigger] stands_at(moved, i, pos) by {
                if pos == dest {
                    assert(stands_at(moved, k, pos));
                } else {
                    let i = choose|i: int| #[trigger] stands_at(zombies, i, pos);
                    assert(stands_at(moved, i, pos));
                }
            }
        }
    }
}

/// The pursuit from index `from` on keeps a sound state sound, unless the
/// player is caught, and then the state is overrun.
pub proof fn lemma_pursuit_sound(world: World, from: int)
    requires
        sound(world),
        0 <= from,
    ensures
        pursue(world.grid, world.zombies, world.player.pos, from).grid.width() == world.grid.width(),
        pursue(world.grid, world.zombies, world.player.pos, from).grid.height() == world.grid.height(),
        ({
            let pursuit = pursue(world.grid, world.zombies, world.player.pos, from);
            let after = World { grid: pursuit.grid, player: world.player, zombies: pursuit.zombies };
            if pursuit.caught {
                overrun(after)
            } else {
                sound(after)
            }
        }),
    decreases world.zombies.len() - from,
{
    if from < world.zombies.len() {
        let step = zombie_step(world.grid, world.zombies[from], world.player.pos);
        let next = World {
            grid: step.grid,
            player: world.player,
            zombies: world.zombies.update(from, step.zombie),
        };
        lemma_step_sound(world, from);
        if !step.caught {
            lemma_pursuit_sound(next, from + 1);
        }
    }
}

/// A turn keeps a game that is going on in order.
///
/// From a sound state and a displacement of at most one cell along each
/// axis, a turn that does not end lost leaves a sound state: the ring is
/// all border, exactly one cell holds the player, and the cells tagged
/// `Adversary` are the places of the living zombies. A turn that ends lost
/// leaves an overrun state, in which the ring and the roster are still in
/// order and a zombie stands on the player's cell. Either way the cells that
/// hold `Border` are the same before and after.
pub proof fn lemma_turn_sound(world: World, dir: (i32, i32))
    requires
        sound(world),
        legal(dir),
    ensures
        turn(world, dir).outcome != WinCondition::Lose ==> sound(turn(world, dir).world),
        turn(world, dir).outcome == WinCondition::Lose ==> overrun(turn(world, dir).world),
        turn(world, dir).world.grid.width() == world.grid.width(),
        turn(world, dir).world.grid.height() == world.grid.height(),
        forall|pos: (usize, usize)|
            world.grid.contains(pos) ==> (#[trigger] turn(world, dir).world.grid.at(pos) == Cell::Border
                <==> world.grid.at(pos) == Cell::Border),
{
    if !blocked(world, dir) {
        let grid = world.grid;
        let here = world.player.pos;
        let dest = displaced(here, dir);
        let moved = grid.put(here, Cell::Empty).put(dest, Cell::Player);
        grid.lemma_put(here, Cell::Empty);
        grid.put(here, Cell::Empty).lemma_put(dest, Cell::Player);
        let stepped = World { grid: moved, player: Player { pos: dest }, zombies: world.zombies };
        lemma_pursuit_sound(stepped, 0);
    }
}

} // verus!
