//! The player, the zombies, and how a turn can end.

use vstd::prelude::*;

verus! {

/// A pursuer. Once `is_dead` is set, `pos` is where it was last seen and the
/// board no longer shows it.
#[derive(Clone, Copy, Debug, PartialEq, Eq)]
pub struct Zombie {
    pub pos: (usize, usize),
    pub is_dead: bool,
}

/// The player, and where it stands.
#[derive(Clone, Copy, Debug, PartialEq, Eq)]
pub struct Player {
    pub pos: (usize, usize),
}

/// How a turn ends: the game goes on, the player has won, or the player has
/// been caught.
#[derive(Clone, Copy, Debug, PartialEq, Eq, Structural)]
pub enum WinCondition {
    Continue,
    Win,
    Lose,
}

/// Every zombie of the roster is dead.
pub open spec fn all_dead(zombies: Seq<Zombie>) -> bool {
    forall|i: int| 0 <= i < zombies.len() ==> (#[trigger] zombies[i]).is_dead
}

/// The living zombies are all recorded at positions of the grid.
pub open spec fn living_on_grid(width: nat, height: nat, zombies: Seq<Zombie>) -> bool {
    forall|i: int|
        0 <= i < zombies.len() && !(#[trigger] zombies[i]).is_dead ==> zombies[i].pos.0 < width
            && zombies[i].pos.1 < height
}

/// Tells whether no zombie is left alive.
pub fn none_alive(zombies: &Vec<Zombie>) -> (done: bool)
    ensures
        done == all_dead(zombies@),
{
    let mut i: usize = 0;
    while i < zombies.len()
        invariant
            i <= zombies.len(),
            forall|j: int| 0 <= j < i ==> (#[trigger] zombies@[j]).is_dead,
        decreases zombies.len() - i,
    {
        if !zombies[i].is_dead {
            return false;
        }
        i = i + 1;
    }
    true
}

} // verus!
