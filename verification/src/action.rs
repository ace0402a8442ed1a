//! What the player can ask for, and the keys that ask for it.

use vstd::prelude::*;

verus! {

/// A request of the player: a step to one of the eight neighbouring cells,
/// staying put, a jump to a random empty cell, giving up, or anything else.
#[derive(Clone, Copy, Debug, PartialEq, Eq, Structural)]
pub enum Action {
    UpLeft,
    Up,
    UpRight,
    Left,
    Stay,
    Right,
    DownLeft,
    Down,
    DownRight,
    Teleport,
    Quit,
    Unrecognized,
}

/// The key `q`.
pub const KEY_UP_LEFT: u8 = 113;

/// The key `w`.
pub const KEY_UP: u8 = 119;

/// The key `e`.
pub const KEY_UP_RIGHT: u8 = 101;

/// The key `a`.
pub const KEY_LEFT: u8 = 97;

/// The key `s`.
pub const KEY_STAY: u8 = 115;

/// The key `d`.
pub const KEY_RIGHT: u8 = 100;

/// The key `z`.
pub const KEY_DOWN_LEFT: u8 = 122;

/// The key `x`.
pub const KEY_DOWN: u8 = 120;

/// The key `c`.
pub const KEY_DOWN_RIGHT: u8 = 99;

/// The key `t`.
pub const KEY_TELEPORT: u8 = 116;

/// The interrupt character, which a terminal in raw mode hands on for
/// control-C.
pub const KEY_QUIT: u8 = 3;

/// The displacement that an action asks for, if it asks for one. Rows are
/// counted downwards, so "up" takes one from the row.
pub open spec fn displacement_of(action: Action) -> Option<(i32, i32)> {
    match action {
        Action::UpLeft => Some((-1i32, -1i32)),
        Action::Up => Some((0i32, -1i32)),
        Action::UpRight => Some((1i32, -1i32)),
        Action::Left => Some((-1i32, 0i32)),
        Action::Stay => Some((0i32, 0i32)),
        Action::Right => Some((1i32, 0i32)),
        Action::DownLeft => Some((-1i32, 1i32)),
        Action::Down => Some((0i32, 1i32)),
        Action::DownRight => Some((1i32, 1i32)),
        Action::Teleport => None,
        Action::Quit => None,
        Action::Unrecognized => None,
    }
}

/// The action that one key stands for: the block `qwe`, `asd`, `zxc` for the
/// displacements with `s` in the middle for staying, `t` for the jump, and
/// the interrupt character for giving up.
pub open spec fn action_of_key(key: u8) -> Action {
    if key == KEY_UP_LEFT {
        Action::UpLeft
    } else if key == KEY_UP {
        Action::Up
    } else if key == KEY_UP_RIGHT {
        Action::UpRight
    } else if key == KEY_LEFT {
        Action::Left
    } else if key == KEY_STAY {
        Action::Stay
    } else if key == KEY_RIGHT {
        Action::Right
    } else if key == KEY_DOWN_LEFT {
        Action::DownLeft
    } else if key == KEY_DOWN {
        Action::Down
    } else if key == KEY_DOWN_RIGHT {
        Action::DownRight
    } else if key == KEY_TELEPORT {
        Action::Teleport
    } else if key == KEY_QUIT {
        Action::Quit
    } else {
        Action::Unrecognized
    }
}

/// The action that a read of the keyboard stands for: that of its key if it
/// brought exactly one, and `Unrecognized` otherwise.
pub open spec fn action_of_input(input: Seq<u8>) -> Action {
    if input.len() == 1 {
        action_of_key(input[0])
    } else {
        Action::Unrecognized
    }
}

impl Action {
    /// The displacement that this action asks for, if it asks for one.
    pub fn displacement(self) -> (dir: Option<(i32, i32)>)
        ensures
            dir == displacement_of(self),
    {
        match self {
            Action::UpLeft => Some((-1, -1)),
            Action::Up => Some((0, -1)),
            Action::UpRight => Some((1, -1)),
            Action::Left => Some((-1, 0)),
            Action::Stay => Some((0, 0)),
            Action::Right => Some((1, 0)),
            Action::DownLeft => Some((-1, 1)),
            Action::Down => Some((0, 1)),
            Action::DownRight => Some((1, 1)),
            Action::Teleport => None,
            Action::Quit => None,
            Action::Unrecognized => None,
        }
    }

    /// The action that one key stands for.
    pub fn from_key(key: u8) -> (action: Action)
        ensures
            action == action_of_key(key),
    {
        if key == KEY_UP_LEFT {
            Action::UpLeft
        } else if key == KEY_UP {
            Action::Up
        } else if key == KEY_UP_RIGHT {
            Action::UpRight
        } else if key == KEY_LEFT {
            Action::Left
        } else if key == KEY_STAY {
            Action::Stay
        } else if key == KEY_RIGHT {
            Action::Right
        } else if key == KEY_DOWN_LEFT {
            Action::DownLeft
        } else if key == KEY_DOWN {
            Action::Down
        } else if key == KEY_DOWN_RIGHT {
            Action::DownRight
        } else if key == KEY_TELEPORT {
            Action::Teleport
        } else if key == KEY_QUIT {
            Action::Quit
        } else {
            Action::Unrecognized
        }
    }

    /// The action that a read of the keyboard stands for.
    pub fn from_input(input: &[u8]) -> (action: Action)
        ensures
            action == action_of_input(input@),
    {
        if input.len() == 1 {
            Action::from_key(input[0])
        } else {
            Action::Unrecognized
        }
    }
}

} // verus!
