use rand::thread_rng;
use zombies::action::Action;
use zombies::entities::{Player, WinCondition, Zombie};
use zombies::game::{Game, SetupError, State};
use zombies::grid::{Board, Cell};

fn cells_holding(board: &Board, tag: Cell) -> Vec<(usize, usize)> {
    let mut found = Vec::new();
    for y in 0..board.height() {
        for x in 0..board.width() {
            if board.get((x, y)) == tag {
                found.push((x, y));
            }
        }
    }
    found
}

fn assert_in_order(game: &Game) {
    let board = game.board();
    let (width, height) = (board.width(), board.height());
    for y in 0..height {
        for x in 0..width {
            let ring = x == 0 || y == 0 || x + 1 == width || y + 1 == height;
            assert_eq!(board.get((x, y)) == Cell::Border, ring, "at ({}, {})", x, y);
        }
    }
    let living: Vec<(usize, usize)> = game
        .zombies()
        .iter()
        .filter(|zombie| !zombie.is_dead)
        .map(|zombie| zombie.pos)
        .collect();
    let mut shown = cells_holding(board, Cell::Adversary);
    let mut recorded = living.clone();
    shown.sort();
    recorded.sort();
    assert_eq!(shown, recorded);
    match game.state() {
        State::Playing | State::Won => assert_eq!(cells_holding(board, Cell::Player), vec![game.player().pos]),
        State::Lost | State::Setup => {}
    }
    if game.state() == State::Won {
        assert!(living.is_empty());
    }
}

fn started(width: usize, height: usize, zombies: usize, holes: usize) -> Game {
    let mut game = Game::new(width, height, zombies, holes).unwrap();
    game.populate(&mut thread_rng());
    game
}

#[test]
fn new_game_waits_in_setup_with_a_bare_board() {
    let game = Game::new(40, 40, 10, 40).unwrap();
    assert_eq!(game.state(), State::Setup);
    assert!(game.zombies().is_empty());
    assert_eq!(cells_holding(game.board(), Cell::Border).len(), 156);
    assert_eq!(cells_holding(game.board(), Cell::Empty).len(), 1444);
}

#[test]
fn setup_refuses_a_board_without_an_inside() {
    assert_eq!(Game::new(2, 40, 0, 0).err(), Some(SetupError::BoardSize));
    assert_eq!(Game::new(40, 2, 0, 0).err(), Some(SetupError::BoardSize));
    assert_eq!(Game::new(usize::MAX, usize::MAX, 0, 0).err(), Some(SetupError::BoardSize));
}

#[test]
fn setup_needs_more_room_than_it_fills() {
    assert_eq!(Game::new(5, 5, 4, 4).err(), Some(SetupError::NoRoom));
    assert_eq!(Game::new(5, 5, 8, 0).err(), Some(SetupError::NoRoom));
    assert_eq!(Game::new(5, 5, 0, 8).err(), Some(SetupError::NoRoom));
    assert_eq!(Game::new(3, 3, 0, 0).err(), Some(SetupError::NoRoom));
    assert_eq!(Game::new(5, 5, usize::MAX, 1).err(), Some(SetupError::NoRoom));
    assert_eq!(Game::new(5, 5, 1, usize::MAX).err(), Some(SetupError::NoRoom));
    assert_eq!(Game::new(5, 5, usize::MAX, 0).err(), Some(SetupError::NoRoom));
    assert!(Game::new(5, 5, 4, 3).is_ok());
    assert!(Game::new(5, 5, 7, 0).is_ok());
    assert!(Game::new(4, 3, 0, 0).is_ok());
}

#[test]
fn board_size_comes_before_no_room() {
    assert_eq!(Game::new(2, 2, 100, 100).err(), Some(SetupError::BoardSize));
}

#[test]
fn populate_places_everything_and_starts_the_game() {
    let game = started(40, 40, 10, 40);
    assert_eq!(game.state(), State::Playing);
    assert_eq!(game.zombies().len(), 10);
    assert!(game.zombies().iter().all(|zombie| !zombie.is_dead));
    assert_eq!(cells_holding(game.board(), Cell::Adversary).len(), 10);
    assert_eq!(cells_holding(game.board(), Cell::Hole).len(), 40);
    assert_eq!(cells_holding(game.board(), Cell::Player), vec![game.player().pos]);
    assert_eq!(cells_holding(game.board(), Cell::Empty).len(), 1444 - 51);
    assert_eq!(cells_holding(game.board(), Cell::Border).len(), 156);
    assert_in_order(&game);
}

#[test]
fn populate_fills_a_board_up_to_one_free_cell() {
    for _ in 0..20 {
        let game = started(5, 5, 4, 3);
        assert_eq!(cells_holding(game.board(), Cell::Empty).len(), 1);
        assert_eq!(cells_holding(game.board(), Cell::Adversary).len(), 4);
        assert_eq!(cells_holding(game.board(), Cell::Hole).len(), 3);
        assert_in_order(&game);
    }
}

#[test]
fn populate_twice_changes_nothing() {
    let mut game = started(10, 10, 3, 3);
    let before = game.board().render();
    let player = game.player();
    game.populate(&mut thread_rng());
    assert_eq!(game.board().render(), before);
    assert_eq!(game.player(), player);
    assert_eq!(game.zombies().len(), 3);
    assert_eq!(game.state(), State::Playing);
}

#[test]
fn requests_before_the_game_starts_do_nothing() {
    let mut game = Game::new(6, 6, 1, 1).unwrap();
    let before = game.board().render();
    for action in [Action::Up, Action::Stay, Action::Teleport, Action::Quit, Action::Unrecognized] {
        assert_eq!(game.step(action, &mut thread_rng()), WinCondition::Continue);
        assert_eq!(game.state(), State::Setup);
        assert_eq!(game.board().render(), before);
    }
    assert_eq!(game.teleport_to((2, 2)), None);
}

#[test]
fn quit_loses_at_once_without_a_turn() {
    let mut game = started(12, 12, 5, 5);
    let before = game.board().render();
    let zombies = game.zombies().clone();
    assert_eq!(game.step(Action::Quit, &mut thread_rng()), WinCondition::Lose);
    assert_eq!(game.state(), State::Lost);
    assert_eq!(game.board().render(), before);
    assert_eq!(*game.zombies(), zombies);
}

#[test]
fn unrecognised_request_changes_nothing() {
    let mut game = started(12, 12, 5, 5);
    let before = game.board().render();
    let zombies = game.zombies().clone();
    let player = game.player();
    assert_eq!(game.step(Action::Unrecognized, &mut thread_rng()), WinCondition::Continue);
    assert_eq!(game.state(), State::Playing);
    assert_eq!(game.board().render(), before);
    assert_eq!(*game.zombies(), zombies);
    assert_eq!(game.player(), player);
}

#[test]
fn finished_game_takes_no_more_requests() {
    let mut game = started(12, 12, 5, 5);
    game.step(Action::Quit, &mut thread_rng());
    let before = game.board().render();
    for action in [Action::Up, Action::Stay, Action::Teleport, Action::Quit, Action::Unrecognized] {
        assert_eq!(game.step(action, &mut thread_rng()), WinCondition::Lose);
        assert_eq!(game.state(), State::Lost);
        assert_eq!(game.board().render(), before);
    }
    assert_eq!(game.teleport_to(game.player().pos), None);
}

#[test]
fn game_without_zombies_is_won_at_the_first_turn() {
    let mut game = started(8, 8, 0, 4);
    assert_eq!(game.state(), State::Playing);
    assert_eq!(game.step(Action::Stay, &mut thread_rng()), WinCondition::Win);
    assert_eq!(game.state(), State::Won);
    assert_eq!(game.step(Action::Up, &mut thread_rng()), WinCondition::Win);
    assert_eq!(game.step(Action::Quit, &mut thread_rng()), WinCondition::Win);
    assert_eq!(game.state(), State::Won);
}

#[test]
fn stay_brings_a_lone_zombie_one_step_nearer() {
    let mut game = started(30, 30, 1, 0);
    let player = game.player().pos;
    let before = game.zombies()[0].pos;
    let far = before.0.abs_diff(player.0).max(before.1.abs_diff(player.1));
    let outcome = game.step(Action::Stay, &mut thread_rng());
    let after = game.zombies()[0].pos;
    let near = after.0.abs_diff(player.0).max(after.1.abs_diff(player.1));
    assert_eq!(near, far - 1);
    assert_eq!(outcome == WinCondition::Lose, near == 0);
    assert_eq!(game.state() == State::Lost, near == 0);
}

#[test]
fn lone_zombie_catches_a_player_who_stays() {
    let mut game = started(12, 9, 1, 0);
    let mut turns = 0;
    while game.step(Action::Stay, &mut thread_rng()) == WinCondition::Continue {
        turns += 1;
        assert!(turns < 12);
        assert_in_order(&game);
    }
    assert_eq!(game.state(), State::Lost);
    assert_eq!(game.zombies()[0].pos, game.player().pos);
    assert_eq!(game.board().get(game.player().pos), Cell::Adversary);
    assert!(cells_holding(game.board(), Cell::Player).is_empty());
    assert_in_order(&game);
}

#[test]
fn teleport_lands_on_a_cell_that_was_free() {
    for _ in 0..50 {
        let mut game = started(10, 10, 2, 6);
        let before = game.board().render();
        let from = game.player().pos;
        let outcome = game.step(Action::Teleport, &mut thread_rng());
        let (x, y) = game.player().pos;
        assert!(1 <= x && x <= 8 && 1 <= y && y <= 8);
        assert!(before[y][x] == Cell::Empty || (x, y) == from);
        if outcome != WinCondition::Lose {
            assert_eq!(game.board().get((x, y)), Cell::Player);
            if (x, y) != from {
                let follower = game.zombies().iter().any(|zombie| !zombie.is_dead && zombie.pos == from);
                assert_eq!(game.board().get(from), if follower { Cell::Adversary } else { Cell::Empty });
            }
        }
        assert_in_order(&game);
    }
}

#[test]
fn teleport_lets_the_zombies_react() {
    let mut game = started(30, 30, 1, 0);
    let before = game.zombies()[0].pos;
    game.step(Action::Teleport, &mut thread_rng());
    let player = game.player().pos;
    let after = game.zombies()[0].pos;
    if before != player {
        assert_ne!(after, before);
        let far = before.0.abs_diff(player.0).max(before.1.abs_diff(player.1));
        let near = after.0.abs_diff(player.0).max(after.1.abs_diff(player.1));
        assert_eq!(near + 1, far);
    }
}

#[test]
fn teleport_on_a_full_board_comes_back_to_the_same_cell() {
    let mut game = started(5, 5, 0, 7);
    let mut spare = cells_holding(game.board(), Cell::Empty);
    assert_eq!(spare.len(), 1);
    let from = game.player().pos;
    spare.push(from);
    game.step(Action::Unrecognized, &mut thread_rng());
    let done = game.teleport_to(from);
    assert_eq!(done, Some(WinCondition::Win));
    assert_eq!(game.player().pos, from);
    assert_eq!(game.board().get(from), Cell::Player);
}

#[test]
fn teleport_to_moves_the_player_and_clears_its_cell() {
    let mut game = started(10, 10, 1, 3);
    let from = game.player().pos;
    let dest = cells_holding(game.board(), Cell::Empty)[0];
    let done = game.teleport_to(dest);
    assert!(done.is_some());
    assert_eq!(game.player().pos, dest);
    assert_eq!(game.board().get(from), if game.zombies()[0].pos == from { Cell::Adversary } else { Cell::Empty });
    assert_in_order(&game);
}

#[test]
fn teleport_to_refuses_cells_that_are_taken() {
    let mut game = started(10, 10, 2, 3);
    let before = game.board().render();
    let hole = cells_holding(game.board(), Cell::Hole)[0];
    let zombie = game.zombies()[0].pos;
    for dest in [hole, zombie, (0, 0), (9, 4), (4, 9), (0, 5), (10, 10), (usize::MAX, 1)] {
        assert_eq!(game.teleport_to(dest), None);
        assert_eq!(game.board().render(), before);
        assert_eq!(game.state(), State::Playing);
    }
}

#[test]
fn blocked_request_leaves_the_game_as_it_is() {
    let mut game = started(3, 4, 0, 0);
    let before = game.board().render();
    let player = game.player();
    let sideways = [
        Action::Left, Action::Right, Action::UpLeft, Action::UpRight, Action::DownLeft, Action::DownRight,
    ];
    for action in sideways {
        assert_eq!(game.step(action, &mut thread_rng()), WinCondition::Continue);
        assert_eq!(game.player(), player);
        assert_eq!(game.board().render(), before);
        assert_eq!(game.state(), State::Playing);
    }
}

#[test]
fn random_games_stay_in_order() {
    let actions = [
        Action::UpLeft, Action::Up, Action::UpRight, Action::Left, Action::Stay, Action::Right,
        Action::DownLeft, Action::Down, Action::DownRight, Action::Teleport, Action::Unrecognized,
    ];
    for round in 0..30 {
        let mut game = started(12, 10, 4, 10);
        assert_in_order(&game);
        for turn in 0..200 {
            let action = actions[(round * 7 + turn * 5 + turn / 11) % actions.len()];
            let outcome = game.step(action, &mut thread_rng());
            assert_in_order(&game);
            match outcome {
                WinCondition::Continue => assert_eq!(game.state(), State::Playing),
                WinCondition::Win => assert_eq!(game.state(), State::Won),
                WinCondition::Lose => assert_eq!(game.state(), State::Lost),
            }
            if outcome != WinCondition::Continue {
                break;
            }
        }
    }
}

fn resumed(
    width: usize,
    height: usize,
    player: (usize, usize),
    zombies: &[(usize, usize)],
    holes: &[(usize, usize)],
) -> Game {
    let mut board = Board::new(width, height).unwrap();
    let mut roster = Vec::new();
    for pos in zombies {
        board.set(*pos, Cell::Adversary);
        roster.push(Zombie { pos: *pos, is_dead: false });
    }
    for pos in holes {
        board.set(*pos, Cell::Hole);
    }
    board.set(player, Cell::Player);
    Game::resume(board, Player { pos: player }, roster).unwrap()
}

#[test]
fn resumed_game_is_being_played() {
    let game = resumed(8, 8, (2, 2), &[(5, 5)], &[(4, 4)]);
    assert_eq!(game.state(), State::Playing);
    assert_eq!(game.player().pos, (2, 2));
    assert_eq!(*game.zombies(), vec![Zombie { pos: (5, 5), is_dead: false }]);
    assert_eq!(game.board().get((4, 4)), Cell::Hole);
    assert_in_order(&game);
}

#[test]
fn resume_refuses_a_state_that_is_not_sound() {
    let fresh = || Board::new(6, 6).unwrap();
    let alive = |pos| Zombie { pos, is_dead: false };

    let board = fresh();
    assert!(Game::resume(board, Player { pos: (2, 2) }, vec![]).is_none(), "no cell shows the player");

    let mut board = fresh();
    board.set((2, 2), Cell::Player);
    board.set((3, 3), Cell::Player);
    assert!(Game::resume(board, Player { pos: (2, 2) }, vec![]).is_none(), "two cells show the player");

    let mut board = fresh();
    board.set((2, 2), Cell::Player);
    board.set((0, 3), Cell::Empty);
    assert!(Game::resume(board, Player { pos: (2, 2) }, vec![]).is_none(), "gap in the ring");

    let mut board = fresh();
    board.set((2, 2), Cell::Player);
    board.set((3, 3), Cell::Border);
    assert!(Game::resume(board, Player { pos: (2, 2) }, vec![]).is_none(), "border inside the ring");

    let mut board = fresh();
    board.set((2, 2), Cell::Player);
    board.set((3, 3), Cell::Adversary);
    assert!(Game::resume(board, Player { pos: (2, 2) }, vec![]).is_none(), "zombie cell without a zombie");

    let mut board = fresh();
    board.set((2, 2), Cell::Player);
    board.set((3, 3), Cell::Adversary);
    let roster = vec![Zombie { pos: (3, 3), is_dead: true }];
    assert!(Game::resume(board, Player { pos: (2, 2) }, roster).is_none(), "zombie cell of a dead zombie");

    let mut board = fresh();
    board.set((2, 2), Cell::Player);
    let roster = vec![alive((3, 3))];
    assert!(Game::resume(board, Player { pos: (2, 2) }, roster).is_none(), "zombie that the board does not show");

    let mut board = fresh();
    board.set((2, 2), Cell::Player);
    board.set((3, 3), Cell::Adversary);
    let roster = vec![alive((3, 3)), alive((3, 3))];
    assert!(Game::resume(board, Player { pos: (2, 2) }, roster).is_none(), "two zombies on one cell");

    let mut board = fresh();
    board.set((2, 2), Cell::Player);
    assert!(Game::resume(board, Player { pos: (2, 2) }, vec![alive((9, 9))]).is_none(), "zombie off the board");

    let mut board = fresh();
    board.set((2, 2), Cell::Player);
    assert!(Game::resume(board, Player { pos: (3, 2) }, vec![]).is_none(), "player recorded elsewhere");

    let mut board = fresh();
    board.set((0, 0), Cell::Player);
    assert!(Game::resume(board, Player { pos: (0, 0) }, vec![]).is_none(), "player on the ring");

    let mut board = fresh();
    board.set((2, 2), Cell::Player);
    board.set((3, 3), Cell::Adversary);
    let roster = vec![
        Zombie { pos: (3, 3), is_dead: true },
        alive((3, 3)),
        Zombie { pos: (77, 0), is_dead: true },
    ];
    assert!(Game::resume(board, Player { pos: (2, 2) }, roster).is_some(), "dead zombies may be recorded anywhere");
}

#[test]
fn move_in_a_game_plays_one_turn() {
    let mut game = resumed(9, 9, (4, 4), &[(7, 7), (1, 4)], &[]);
    assert_eq!(game.step(Action::Up, &mut thread_rng()), WinCondition::Continue);
    assert_eq!(game.state(), State::Playing);
    assert_eq!(game.player().pos, (4, 3));
    assert_eq!(game.board().get((4, 4)), Cell::Empty);
    assert_eq!(game.board().get((4, 3)), Cell::Player);
    assert_eq!(game.zombies()[0].pos, (6, 6));
    assert_eq!(game.zombies()[1].pos, (2, 3));
    assert_in_order(&game);
}

#[test]
fn each_action_moves_the_player_its_way() {
    let actions = [
        (Action::UpLeft, (3, 3)), (Action::Up, (4, 3)), (Action::UpRight, (5, 3)),
        (Action::Left, (3, 4)), (Action::Stay, (4, 4)), (Action::Right, (5, 4)),
        (Action::DownLeft, (3, 5)), (Action::Down, (4, 5)), (Action::DownRight, (5, 5)),
    ];
    for (action, end) in actions {
        let mut game = resumed(9, 9, (4, 4), &[(1, 1)], &[]);
        assert_eq!(game.step(action, &mut thread_rng()), WinCondition::Continue);
        assert_eq!(game.player().pos, end);
        assert_eq!(cells_holding(game.board(), Cell::Player), vec![end]);
    }
}

#[test]
fn catch_in_a_game_ends_it_lost() {
    let mut game = resumed(7, 7, (3, 3), &[(4, 4), (1, 1)], &[]);
    assert_eq!(game.step(Action::Stay, &mut thread_rng()), WinCondition::Lose);
    assert_eq!(game.state(), State::Lost);
    assert_eq!(game.board().get((3, 3)), Cell::Adversary);
    assert_eq!(game.zombies()[0].pos, (3, 3));
    assert_eq!(game.zombies()[1].pos, (1, 1));
    assert_in_order(&game);
    assert_eq!(game.step(Action::Left, &mut thread_rng()), WinCondition::Lose);
    assert_eq!(game.zombies()[1].pos, (1, 1));
}

#[test]
fn last_zombie_in_a_hole_ends_the_game_won() {
    let mut game = resumed(7, 7, (2, 2), &[(5, 5)], &[(4, 4)]);
    assert_eq!(game.step(Action::Stay, &mut thread_rng()), WinCondition::Win);
    assert_eq!(game.state(), State::Won);
    assert!(game.zombies()[0].is_dead);
    assert_eq!(game.board().get((4, 4)), Cell::Empty);
    assert_eq!(game.board().get((5, 5)), Cell::Empty);
    assert_in_order(&game);
    assert_eq!(game.step(Action::Teleport, &mut thread_rng()), WinCondition::Win);
    assert_eq!(game.player().pos, (2, 2));
}

#[test]
fn teleport_to_plays_the_zombies_turn() {
    let mut game = resumed(9, 9, (1, 1), &[(7, 7), (4, 1)], &[(5, 5)]);
    assert_eq!(game.teleport_to((3, 6)), Some(WinCondition::Continue));
    assert_eq!(game.player().pos, (3, 6));
    assert_eq!(game.board().get((1, 1)), Cell::Empty);
    assert_eq!(game.board().get((3, 6)), Cell::Player);
    assert_eq!(game.zombies()[0].pos, (6, 6));
    assert_eq!(game.zombies()[1].pos, (3, 2));
    assert_in_order(&game);
}

#[test]
fn teleport_next_to_a_zombie_is_caught() {
    let mut game = resumed(9, 9, (1, 1), &[(7, 7)], &[]);
    assert_eq!(game.teleport_to((6, 7)), Some(WinCondition::Lose));
    assert_eq!(game.state(), State::Lost);
    assert_eq!(game.zombies()[0].pos, (6, 7));
    assert_eq!(game.board().get((6, 7)), Cell::Adversary);
    assert_eq!(game.board().get((1, 1)), Cell::Empty);
}

#[test]
fn teleport_to_its_own_cell_is_a_stay() {
    let mut game = resumed(9, 9, (2, 2), &[(6, 6)], &[]);
    assert_eq!(game.teleport_to((2, 2)), Some(WinCondition::Continue));
    assert_eq!(game.player().pos, (2, 2));
    assert_eq!(game.board().get((2, 2)), Cell::Player);
    assert_eq!(game.zombies()[0].pos, (5, 5));
}

#[test]
fn teleport_with_one_free_cell_goes_there_or_stays() {
    for _ in 0..20 {
        let mut game = resumed(4, 3, (1, 1), &[], &[]);
        assert_eq!(game.step(Action::Teleport, &mut thread_rng()), WinCondition::Win);
        let pos = game.player().pos;
        assert!(pos == (1, 1) || pos == (2, 1));
        assert_eq!(cells_holding(game.board(), Cell::Player), vec![pos]);
    }
}
