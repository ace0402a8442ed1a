//! The game: setting up a board, then turn after turn until it is won or
//! lost.

use vstd::prelude::*;
use rand::ThreadRng;
use crate::action::{displacement_of, Action};
use crate::census::{
    alive,
    count,
    lemma_alive_none,
    lemma_count_fresh,
    lemma_count_put,
    lemma_room_left,
    lemma_roster_census,
    lemma_sound_census,
};
use crate::entities::{all_dead, Player, WinCondition, Zombie};
use crate::grid::{Board, Cell, Grid};
use crate::soundness::{
    is_sound,
    lemma_ringed_put,
    lemma_roster_joined,
    lemma_roster_untouched,
    lemma_turn_sound,
    overrun,
    ringed,
    roster_matches,
    sound,
};
use crate::turn::{blocked, do_move, legal, turn, world_of, Turn, World};

verus! {

/// Where a game stands.
#[derive(Clone, Copy, Debug, PartialEq, Eq, Structural)]
pub enum State {
    /// The border is painted; nothing is placed yet.
    Setup,
    Playing,
    Won,
    Lost,
}

/// Why a game cannot be set up.
#[derive(Clone, Copy, Debug, PartialEq, Eq, Structural)]
pub enum SetupError {
    /// A side is shorter than three cells, or the cells are more than a
    /// `usize` can count.
    BoardSize,
    /// The cells inside the ring are not more than the zombies, the holes
    /// and the player take.
    NoRoom,
}

/// A game: the board, the player, the roster, and where the game stands.
pub struct Game {
    board: Board,
    player: Player,
    zombies: Vec<Zombie>,
    state: State,
    zombies_due: usize,
    holes_due: usize,
}

/// The model of a game. While the state is `Setup` the player has no place
/// yet, and `zombies_due` and `holes_due` say what is still to be placed;
/// after that nothing is.
pub struct GameModel {
    pub world: World,
    pub state: State,
    pub zombies_due: nat,
    pub holes_due: nat,
}

/// The number of cells inside the ring.
pub open spec fn room(width: nat, height: nat) -> int {
    (width - 2) * (height - 2)
}

/// The state in which a turn that ended with `outcome` leaves the game.
pub open spec fn state_after(outcome: WinCondition) -> State {
    match outcome {
        WinCondition::Continue => State::Playing,
        WinCondition::Win => State::Won,
        WinCondition::Lose => State::Lost,
    }
}

/// What a game that stands in `state` answers to any request when it is not
/// being played.
pub open spec fn standing(state: State) -> WinCondition {
    match state {
        State::Setup => WinCondition::Continue,
        State::Playing => WinCondition::Continue,
        State::Won => WinCondition::Win,
        State::Lost => WinCondition::Lose,
    }
}

/// The state with the player taken from its cell and put on `dest`.
pub open spec fn relocate(world: World, dest: (usize, usize)) -> World {
    World {
        grid: world.grid.put(world.player.pos, Cell::Empty).put(dest, Cell::Player),
        player: Player { pos: dest },
        zombies: world.zombies,
    }
}

/// A game and the answer to a request.
pub struct Advance {
    pub game: GameModel,
    pub outcome: WinCondition,
}

impl GameModel {
    /// What holds of a game in each state: before the start the board is
    /// bare and has more room than is to be filled; while the game is played
    /// and after it is won the state is sound, and after a win no zombie
    /// lives; after a loss the state is sound, if the player gave up, or
    /// overrun, if the player was caught.
    pub open spec fn valid(self) -> bool {
        &&& self.world.grid.wf()
        &&& self.state != State::Setup ==> self.zombies_due == 0 && self.holes_due == 0
        &&& match self.state {
            State::Setup => {
                &&& self.world.grid == Grid::fresh(self.world.grid.width(), self.world.grid.height())
                &&& self.world.zombies.len() == 0
                &&& room(self.world.grid.width(), self.world.grid.height()) > self.zombies_due
                    + self.holes_due + 1
            },
            State::Playing => sound(self.world),
            State::Won => sound(self.world) && all_dead(self.world.zombies),
            State::Lost => sound(self.world) || overrun(self.world),
        }
    }

    /// The game after a turn of its world.
    pub open spec fn settle(self, turn: Turn) -> Advance {
        Advance {
            game: GameModel { world: turn.world, state: state_after(turn.outcome), ..self },
            outcome: turn.outcome,
        }
    }

    /// The game after a request other than a jump. A game that is not being
    /// played stays as it is. Giving up loses the game at once; a request
    /// that is not recognised changes nothing; a displacement plays a turn.
    pub open spec fn advance(self, action: Action) -> Advance {
        if self.state != State::Playing {
            Advance { game: self, outcome: standing(self.state) }
        } else if action == Action::Quit {
            Advance { game: GameModel { state: State::Lost, ..self }, outcome: WinCondition::Lose }
        } else {
            match displacement_of(action) {
                Some(dir) => self.settle(turn(self.world, dir)),
                None => Advance { game: self, outcome: WinCondition::Continue },
            }
        }
    }

    /// The cells that the player can jump to: the free ones once the player
    /// has left its own.
    pub open spec fn can_land(self, dest: (usize, usize)) -> bool {
        self.world.grid.put(self.world.player.pos, Cell::Empty).free(dest)
    }

    /// The game after a jump to `dest`: the player is put there, and the
    /// zombies pursue as after any turn in which the player stays.
    pub open spec fn jump(self, dest: (usize, usize)) -> Advance {
        self.settle(turn(relocate(self.world, dest), (0i32, 0i32)))
    }
}

impl View for Game {
    type V = GameModel;

    closed spec fn view(&self) -> GameModel {
        GameModel {
            world: world_of(self.board, self.player, self.zombies),
            state: self.state,
            zombies_due: self.zombies_due as nat,
            holes_due: self.holes_due as nat,
        }
    }
}

/// A jump to a free cell keeps a sound state sound.
pub proof fn lemma_relocate_sound(world: World, dest: (usize, usize))
    requires
        sound(world),
        world.grid.put(world.player.pos, Cell::Empty).free(dest),
    ensures
        sound(relocate(world, dest)),
{
    let here = world.player.pos;
    let lifted = world.grid.put(here, Cell::Empty);
    world.grid.lemma_put(here, Cell::Empty);
    lifted.lemma_put(dest, Cell::Player);
    assert(world.grid.at(here) == Cell::Player);
    lemma_ringed_put(world.grid, here, Cell::Empty);
    lemma_ringed_put(lifted, dest, Cell::Player);
    lemma_roster_untouched(world.grid, world.zombies, here, Cell::Empty);
    lemma_roster_untouched(lifted, world.zombies, dest, Cell::Player);
}

/// A turn of a game that is being played leaves a valid game.
pub proof fn lemma_turn_valid(game: GameModel, dir: (i32, i32))
    requires
        game.valid(),
        game.state == State::Playing,
        legal(dir),
    ensures
        game.settle(turn(game.world, dir)).game.valid(),
{
    lemma_turn_sound(game.world, dir);
}

/// Whatever is asked of a valid game, it stays valid: a game that is being
/// played keeps its state in order turn after turn, and a game that is over
/// stays as it ended.
pub proof fn lemma_advance_valid(game: GameModel, action: Action)
    requires
        game.valid(),
    ensures
        game.advance(action).game.valid(),
{
    if game.state == State::Playing && action != Action::Quit {
        match displacement_of(action) {
            Some(dir) => {
                lemma_turn_valid(game, dir);
            },
            None => {},
        }
    }
}

/// A jump to a cell where the player can land leaves a valid game: the
/// player then stands on a cell that was empty and inside the ring, or on
/// its own, and the zombies have taken their turn.
pub proof fn lemma_jump_valid(game: GameModel, dest: (usize, usize))
    requires
        game.valid(),
        game.state == State::Playing,
        game.can_land(dest),
    ensures
        game.jump(dest).game.valid(),
        game.world.grid.interior(dest),
        game.world.grid.at(dest) == Cell::Empty || dest == game.world.player.pos,
        !blocked(relocate(game.world, dest), (0i32, 0i32)),
        game.jump(dest).game.world.player.pos == dest,
{
    lemma_relocate_sound(game.world, dest);
    lemma_turn_sound(relocate(game.world, dest), (0i32, 0i32));
    game.world.grid.lemma_put(game.world.player.pos, Cell::Empty);
}

/// What holds of every game that is past its setup: the ring is all border
/// and nothing inside it is, and the cells tagged `Adversary` are as many as
/// the zombies alive. Unless the game is lost, exactly one cell holds the
/// player.
pub proof fn lemma_game_in_order(game: GameModel)
    requires
        game.valid(),
        game.state != State::Setup,
    ensures
        ringed(game.world.grid),
        game.world.grid.bordered(),
        count(game.world.grid, Cell::Adversary) == alive(game.world.zombies),
        game.state != State::Lost ==> count(game.world.grid, Cell::Player) == 1,
        game.state == State::Won ==> count(game.world.grid, Cell::Adversary) == 0,
{
    lemma_roster_census(game.world.grid, game.world.zombies);
    if sound(game.world) {
        lemma_sound_census(game.world);
    }
    if game.state == State::Won {
        lemma_alive_none(game.world.zombies);
    }
    assert forall|pos: (usize, usize)| game.world.grid.on_ring(pos) implies #[trigger] game.world.grid.at(pos)
        == Cell::Border by {}
}

impl Game {
    /// The representation is in order and shows a valid game.
    pub closed spec fn wf(&self) -> bool {
        self.board.wf() && self@.valid()
    }

    /// A game that is in order shows a valid model.
    pub proof fn lemma_valid(&self)
        requires
            self.wf(),
        ensures
            self@.valid(),
    {
    }

    /// A game on a board of `width` by `height` cells, with the border
    /// painted and `zombies` zombies, `holes` holes and the player still to
    /// be placed.
    pub fn new(width: usize, height: usize, zombies: usize, holes: usize) -> (made: Result<Game, SetupError>)
        ensures
            made matches Err(SetupError::BoardSize) <==> width < 3 || height < 3 || width * height
                > usize::MAX,
            made matches Err(SetupError::NoRoom) <==> width >= 3 && height >= 3 && width * height
                <= usize::MAX && room(width as nat, height as nat) <= zombies + holes + 1,
            made matches Ok(game) ==> {
                &&& game.wf()
                &&& game@.state == State::Setup
                &&& game@.world.grid == Grid::fresh(width as nat, height as nat)
                &&& game@.zombies_due == zombies
                &&& game@.holes_due == holes
            },
    {
        let board = match Board::new(width, height) {
            Some(board) => board,
            None => {
                return Err(SetupError::BoardSize);
            },
        };
        proof {
            board.lemma_view_wf();
            assert((width - 2) * (height - 2) <= width * height) by (nonlinear_arith)
                requires
                    width >= 3,
                    height >= 3,
            ;
            assert(0 <= (width - 2) * (height - 2)) by (nonlinear_arith)
                requires
                    width >= 3,
                    height >= 3,
            ;
        }
        let inside: usize = (width - 2) * (height - 2);
        let taken: usize = match zombies.checked_add(holes) {
            Some(sum) => match sum.checked_add(1) {
                Some(sum) => sum,
                None => {
                    return Err(SetupError::NoRoom);
                },
            },
            None => {
                return Err(SetupError::NoRoom);
            },
        };
        if inside <= taken {
            return Err(SetupError::NoRoom);
        }
        Ok(
            Game {
                board,
                player: Player { pos: (1, 1) },
                zombies: Vec::new(),
                state: State::Setup,
                zombies_due: zombies,
                holes_due: holes,
            },
        )
    }

    /// A game that goes on from the given board, player and roster, if they
    /// make a sound state.
    pub fn resume(board: Board, player: Player, zombies: Vec<Zombie>) -> (made: Option<Game>)
        requires
            board.wf(),
        ensures
            made is Some <==> sound(world_of(board, player, zombies)),
            made matches Some(game) ==> {
                &&& game.wf()
                &&& game@.state == State::Playing
                &&& game@.world == world_of(board, player, zombies)
            },
    {
        if !is_sound(&board, &player, &zombies) {
            return None;
        }
        Some(Game { board, player, zombies, state: State::Playing, zombies_due: 0, holes_due: 0 })
    }

    /// Places the zombies, then the holes, then the player, each on a free
    /// cell picked at random, and starts the game. A game that is past its
    /// setup stays as it is.
    pub fn populate(&mut self, rng: &mut ThreadRng)
        requires
            old(self).wf(),
        ensures
            final(self).wf(),
            old(self)@.state != State::Setup ==> final(self)@ == old(self)@,
            old(self)@.state == State::Setup ==> {
                &&& final(self)@.state == State::Playing
                &&& final(self)@.world.grid.width() == old(self)@.world.grid.width()
                &&& final(self)@.world.grid.height() == old(self)@.world.grid.height()
                &&& final(self)@.world.zombies.len() == old(self)@.zombies_due
                &&& alive(final(self)@.world.zombies) == old(self)@.zombies_due
                &&& count(final(self)@.world.grid, Cell::Adversary) == old(self)@.zombies_due
                &&& count(final(self)@.world.grid, Cell::Hole) == old(self)@.holes_due
                &&& count(final(self)@.world.grid, Cell::Player) == 1
                &&& count(final(self)@.world.grid, Cell::Empty) == room(
                    old(self)@.world.grid.width(),
                    old(self)@.world.grid.height(),
                ) - old(self)@.zombies_due - old(self)@.holes_due - 1
            },
    {
        if self.state != State::Setup {
            return ;
        }
        let ghost width = self.board@.width();
        let ghost height = self.board@.height();
        proof {
            lemma_count_fresh(width, height);
        }
        let mut placed: usize = 0;
        while placed < self.zombies_due
            invariant
                placed <= self.zombies_due,
                self.state == State::Setup,
                self.zombies_due == old(self).zombies_due,
                self.holes_due == old(self).holes_due,
                width == old(self)@.world.grid.width(),
                height == old(self)@.world.grid.height(),
                room(width, height) > self.zombies_due + self.holes_due + 1,
                self.board.wf(),
                ringed(self.board@),
                self.board@.width() == width,
                self.board@.height() == height,
                roster_matches(self.board@, self.zombies@),
                self.zombies@.len() == placed,
                alive(self.zombies@) == placed,
                count(self.board@, Cell::Empty) == room(width, height) - placed,
                count(self.board@, Cell::Adversary) == placed,
                count(self.board@, Cell::Hole) == 0,
                count(self.board@, Cell::Player) == 0,
            decreases self.zombies_due - placed,
        {
            let ghost grid = self.board@;
            let ghost roster = self.zombies@;
            proof {
                lemma_room_left(grid);
            }
            let pos: (usize, usize) = self.board.gen_random_point(rng).unwrap();
            let zombie = Zombie { pos, is_dead: false };
            self.board.set(pos, Cell::Adversary);
            self.zombies.push(zombie);
            proof {
                lemma_count_put(grid, pos, Cell::Adversary, Cell::Empty);
                lemma_count_put(grid, pos, Cell::Adversary, Cell::Adversary);
                lemma_count_put(grid, pos, Cell::Adversary, Cell::Hole);
                lemma_count_put(grid, pos, Cell::Adversary, Cell::Player);
                lemma_ringed_put(grid, pos, Cell::Adversary);
                lemma_roster_joined(grid, roster, pos);
                grid.lemma_put(pos, Cell::Adversary);
                assert(roster.push(zombie).drop_last() =~= roster);
            }
            placed = placed + 1;
        }
        let mut dug: usize = 0;
        while dug < self.holes_due
            invariant
                dug <= self.holes_due,
                self.state == State::Setup,
                self.zombies_due == old(self).zombies_due,
                self.holes_due == old(self).holes_due,
                width == old(self)@.world.grid.width(),
                height == old(self)@.world.grid.height(),
                room(width, height) > self.zombies_due + self.holes_due + 1,
                self.board.wf(),
                ringed(self.board@),
                self.board@.width() == width,
                self.board@.height() == height,
                roster_matches(self.board@, self.zombies@),
                self.zombies@.len() == self.zombies_due,
                alive(self.zombies@) == self.zombies_due,
                count(self.board@, Cell::Empty) == room(width, height) - self.zombies_due - dug,
                count(self.board@, Cell::Adversary) == self.zombies_due,
                count(self.board@, Cell::Hole) == dug,
                count(self.board@, Cell::Player) == 0,
            decreases self.holes_due - dug,
        {
            let ghost grid = self.board@;
            proof {
                lemma_room_left(grid);
            }
            let pos: (usize, usize) = self.board.gen_random_point(rng).unwrap();
            self.board.set(pos, Cell::Hole);
            proof {
                lemma_count_put(grid, pos, Cell::Hole, Cell::Empty);
                lemma_count_put(grid, pos, Cell::Hole, Cell::Adversary);
                lemma_count_put(grid, pos, Cell::Hole, Cell::Hole);
                lemma_count_put(grid, pos, Cell::Hole, Cell::Player);
                lemma_ringed_put(grid, pos, Cell::Hole);
                lemma_roster_untouched(grid, self.zombies@, pos, Cell::Hole);
            }
            dug = dug + 1;
        }
        let ghost grid = self.board@;
        proof {
            lemma_room_left(grid);
        }
        let pos: (usize, usize) = self.board.gen_random_point(rng).unwrap();
        self.board.set(pos, Cell::Player);
        self.player = Player { pos };
        self.state = State::Playing;
        self.zombies_due = 0;
        self.holes_due = 0;
        proof {
            lemma_count_put(grid, pos, Cell::Player, Cell::Empty);
            lemma_count_put(grid, pos, Cell::Player, Cell::Adversary);
            lemma_count_put(grid, pos, Cell::Player, Cell::Hole);
            lemma_count_put(grid, pos, Cell::Player, Cell::Player);
            lemma_ringed_put(grid, pos, Cell::Player);
            lemma_roster_untouched(grid, self.zombies@, pos, Cell::Player);
            grid.lemma_put(pos, Cell::Player);
            assert forall|q: (usize, usize)| grid.contains(q) implies #[trigger] grid.at(q)
                != Cell::Player by {
                if grid.at(q) == Cell::Player {
                    lemma_count_put(grid, q, Cell::Empty, Cell::Player);
                }
            }
        }
    }

    /// Plays the turn in which the player asks for the displacement `dir`.
    fn play(&mut self, dir: (i32, i32)) -> (outcome: WinCondition)
        requires
            old(self).wf(),
            old(self)@.state == State::Playing,
            legal(dir),
        ensures
            final(self).wf(),
            old(self)@.settle(turn(old(self)@.world, dir)) == (Advance { game: final(self)@, outcome }),
    {
        proof {
            lemma_turn_valid(self@, dir);
        }
        let outcome = do_move(&mut self.board, &mut self.player, &mut self.zombies, dir);
        self.state = match outcome {
            WinCondition::Continue => State::Playing,
            WinCondition::Win => State::Won,
            WinCondition::Lose => State::Lost,
        };
        outcome
    }

    /// Puts the player, which has been taken from the board, on `dest`, and
    /// lets the zombies pursue.
    fn land(&mut self, dest: (usize, usize), Ghost(before): Ghost<GameModel>) -> (outcome: WinCondition)
        requires
            before.valid(),
            before.state == State::Playing,
            before.can_land(dest),
            old(self).board.wf(),
            old(self)@ == (GameModel {
                world: World {
                    grid: before.world.grid.put(before.world.player.pos, Cell::Empty),
                    ..before.world
                },
                ..before
            }),
        ensures
            final(self).wf(),
            before.jump(dest) == (Advance { game: final(self)@, outcome }),
    {
        proof {
            lemma_relocate_sound(before.world, dest);
            lemma_jump_valid(before, dest);
            before.world.grid.lemma_put(before.world.player.pos, Cell::Empty);
        }
        self.player.pos = dest;
        self.board.set(dest, Cell::Player);
        let outcome = do_move(&mut self.board, &mut self.player, &mut self.zombies, (0, 0));
        self.state = match outcome {
            WinCondition::Continue => State::Playing,
            WinCondition::Win => State::Won,
            WinCondition::Lose => State::Lost,
        };
        outcome
    }

    /// Makes the player jump to `dest`, if the game is being played and the
    /// player can land there; nothing happens otherwise.
    pub fn teleport_to(&mut self, dest: (usize, usize)) -> (done: Option<WinCondition>)
        requires
            old(self).wf(),
        ensures
            final(self).wf(),
            done is Some <==> old(self)@.state == State::Playing && old(self)@.can_land(dest),
            done is None ==> final(self)@ == old(self)@,
            done matches Some(outcome) ==> old(self)@.jump(dest) == (Advance { game: final(self)@, outcome }),
    {
        if self.state != State::Playing {
            return None;
        }
        proof {
            self@.world.grid.lemma_put(self@.world.player.pos, Cell::Empty);
        }
        let own = dest.0 == self.player.pos.0 && dest.1 == self.player.pos.1;
        if !own && !self.board.is_free(dest) {
            return None;
        }
        let ghost before = self@;
        self.board.set(self.player.pos, Cell::Empty);
        Some(self.land(dest, Ghost(before)))
    }

    /// Answers one request of the player.
    ///
    /// A game that is not being played stays as it is and answers with
    /// where it stands. Giving up loses the game at once. A displacement
    /// plays a turn. A jump takes the player from its cell, puts it on a
    /// free cell picked at random, and lets the zombies pursue. Anything
    /// else changes nothing.
    pub fn step(&mut self, action: Action, rng: &mut ThreadRng) -> (outcome: WinCondition)
        requires
            old(self).wf(),
        ensures
            final(self).wf(),
            old(self)@.state != State::Playing || action != Action::Teleport ==> old(self)@.advance(action)
                == (Advance { game: final(self)@, outcome }),
            old(self)@.state == State::Playing && action == Action::Teleport ==> exists|dest: (usize, usize)|
                #[trigger] old(self)@.can_land(dest) && old(self)@.jump(dest) == (Advance {
                    game: final(self)@,
                    outcome,
                }),
    {
        match self.state {
            State::Setup => {
                return WinCondition::Continue;
            },
            State::Won => {
                return WinCondition::Win;
            },
            State::Lost => {
                return WinCondition::Lose;
            },
            State::Playing => {},
        }
        match action {
            Action::Quit => {
                self.state = State::Lost;
                WinCondition::Lose
            },
            Action::Teleport => {
                let ghost before = self@;
                proof {
                    before.world.grid.lemma_put(before.world.player.pos, Cell::Empty);
                }
                self.board.set(self.player.pos, Cell::Empty);
                proof {
                    assert(self.board@.free(before.world.player.pos));
                }
                let dest: (usize, usize) = self.board.gen_random_point(rng).unwrap();
                let outcome = self.land(dest, Ghost(before));
                proof {
                    assert(before.can_land(dest));
                }
                outcome
            },
            _ => match action.displacement() {
                Some(dir) => self.play(dir),
                None => WinCondition::Continue,
            },
        }
    }

    /// The board as it stands.
    pub fn board(&self) -> (board: &Board)
        requires
            self.wf(),
        ensures
            board.wf(),
            board@ == self@.world.grid,
    {
        &self.board
    }

    /// The player. Before the game starts its place means nothing.
    pub fn player(&self) -> (player: Player)
        ensures
            player == self@.world.player,
    {
        self.player
    }

    /// The roster, dead zombies included.
    pub fn zombies(&self) -> (zombies: &Vec<Zombie>)
        ensures
            zombies@ == self@.world.zombies,
    {
        &self.zombies
    }

    /// Where the game stands.
    pub fn state(&self) -> (state: State)
        ensures
            state == self@.state,
    {
        self.state
    }
}

} // verus!
