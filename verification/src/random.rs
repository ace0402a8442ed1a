//! Picking an empty cell at random.

use vstd::prelude::*;
use rand::Rng;
use rand::ThreadRng;
use crate::grid::{Board, Cell};

verus! {

/// The thread-local generator of the `rand` crate. Nothing is known of its
/// state.
#[verifier::external_type_specification]
#[verifier::external_body]
pub struct ExThreadRng(ThreadRng);

/// How many times over the board's cell count a random cell is drawn before
/// the search stops drawing.
pub const DRAW_ROUNDS: usize = 64;

/// `Rng::gen_range` of the `rand` crate, on the thread-local generator.
///
/// Believed, not proved: for `low < high` the call returns a number that is
/// at least `low` and less than `high`. Which one is left open. With
/// `low >= high` the call panics, so that is ruled out. The generator
/// reseeds itself from the system now and then and panics if the system
/// has no entropy to give; nothing in the arguments can rule that out.
#[verifier::external_body]
fn random_between(rng: &mut ThreadRng, low: usize, high: usize) -> (n: usize)
    requires
        low < high,
    ensures
        low <= n < high,
{
    rng.gen_range(low, high)
}

/// `a` comes before `b` when the board is read row by row.
pub open spec fn precedes(a: (usize, usize), b: (usize, usize)) -> bool {
    a.1 < b.1 || (a.1 == b.1 && a.0 < b.0)
}

impl Board {
    /// Tells whether `pos` is a free cell: one inside the ring that is empty.
    pub fn is_free(&self, pos: (usize, usize)) -> (free: bool)
        requires
            self.wf(),
        ensures
            free == self@.free(pos),
    {
        let width: usize = self.width();
        let height: usize = self.height();
        proof {
            self.lemma_view_wf();
        }
        1 <= pos.0 && pos.0 < width - 1 && 1 <= pos.1 && pos.1 < height - 1 && self.get(pos) == Cell::Empty
    }

    /// The first free cell when the board is read row by row, if there is
    /// one.
    pub fn first_empty_interior(&self) -> (found: Option<(usize, usize)>)
        requires
            self.wf(),
        ensures
            found is Some <==> self@.has_free(),
            found matches Some(pos) ==> self@.free(pos) && forall|q: (usize, usize)|
                self@.free(q) ==> !precedes(q, pos),
    {
        let width: usize = self.width();
        let height: usize = self.height();
        proof {
            self.lemma_view_wf();
        }
        let mut y: usize = 1;
        while y + 1 < height
            invariant
                self.wf(),
                self@.wf(),
                width == self@.width(),
                height == self@.height(),
                1 <= y < height,
                forall|q: (usize, usize)| self@.free(q) ==> q.1 >= y,
            decreases height - y,
        {
            let mut x: usize = 1;
            while x + 1 < width
                invariant
                    self.wf(),
                    self@.wf(),
                    width == self@.width(),
                    height == self@.height(),
                    1 <= y,
                    y + 1 < height,
                    1 <= x < width,
                    forall|q: (usize, usize)| self@.free(q) ==> q.1 > y || (q.1 == y && q.0 >= x),
                decreases width - x,
            {
                if self.is_free((x, y)) {
                    return Some((x, y));
                }
                x = x + 1;
            }
            y = y + 1;
        }
        None
    }

    /// A free cell picked at random, if the board has one.
    ///
    /// Cells inside the ring are drawn, each as likely as any other, until
    /// one is empty. The drawing stops after `DRAW_ROUNDS` times as many
    /// draws as the board has cells; the result is then the first free cell.
    pub fn gen_random_point(&self, rng: &mut ThreadRng) -> (found: Option<(usize, usize)>)
        requires
            self.wf(),
        ensures
            found is Some <==> self@.has_free(),
            found matches Some(pos) ==> self@.free(pos),
    {
        let fallback = self.first_empty_interior();
        if fallback.is_none() {
            return None;
        }
        let width: usize = self.width();
        let height: usize = self.height();
        let draws: usize = self.cell_count();
        proof {
            self.lemma_view_wf();
        }
        let mut round: usize = 0;
        while round < DRAW_ROUNDS
            invariant
                self.wf(),
                self@.wf(),
                width == self@.width(),
                height == self@.height(),
                self@.has_free(),
            decreases DRAW_ROUNDS - round,
        {
            let mut drawn: usize = 0;
            while drawn < draws
                invariant
                    self.wf(),
                    self@.wf(),
                    width == self@.width(),
                    height == self@.height(),
                    self@.has_free(),
                decreases draws - drawn,
            {
                let pos: (usize, usize) = (random_between(rng, 1, width - 1), random_between(rng, 1, height - 1));
                if self.is_free(pos) {
                    return Some(pos);
                }
                drawn = drawn + 1;
            }
            round = round + 1;
        }
        fallback
    }
}

} // verus!
