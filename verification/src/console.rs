//! The console as the game sees it: character positions, keys and clicks.

use crate::game_object::WorldPoint;
use vstd::prelude::*;

verus! {

/// The keys that the game tells apart.
#[derive(Debug, Clone, Copy, PartialEq, Eq, Hash, Structural)]
pub enum VirtualKeyCode {
    Left,
    Right,
    Up,
    Down,
    Space,
    NumpadEnter,
    Return,
    Escape,
    /// Any other key.
    Other,
}

/// The mouse buttons that the game tells apart.
#[derive(Debug, Clone, Copy, PartialEq, Eq, Hash, Structural)]
pub enum ClickType {
    Left,
    Right,
}

/// A character position on the console.
#[derive(Debug, Clone, Copy, PartialEq, Eq, Hash, Structural)]
pub struct ConsolePoint {
    pub x: i64,
    pub y: i64,
}

/// The console column of world column 0.
pub const WORLD_LEFT: i64 = 0;

/// The console row of world row 0.
pub const WORLD_TOP: i64 = 1;

/// The greatest coordinate, either way, that the console shifts without
/// leaving the range of the integers.
pub const SHIFT_LIMIT: i64 = 0x3fff_ffff_ffff_ffff;

impl ConsolePoint {
    /// The position `n` rows further down.
    pub fn down(&self, n: i64) -> (p: ConsolePoint)
        requires
            i64::MIN <= self.y + n <= i64::MAX,
        ensures
            p.x == self.x,
            p.y == self.y + n,
    {
        ConsolePoint { x: self.x, y: self.y + n }
    }

    /// The console position of the world tile `pos`: the world is drawn from
    /// `(WORLD_LEFT, WORLD_TOP)` on.
    pub fn from(pos: WorldPoint) -> (p: ConsolePoint)
        requires
            -SHIFT_LIMIT <= pos.x <= SHIFT_LIMIT,
            -SHIFT_LIMIT <= pos.y <= SHIFT_LIMIT,
        ensures
            p.x == pos.x + WORLD_LEFT,
            p.y == pos.y + WORLD_TOP,
    {
        ConsolePoint { x: pos.x + WORLD_LEFT, y: pos.y + WORLD_TOP }
    }

    /// The console position of the world tile `pos`, where the shift keeps it
    /// within the range of the integers.
    pub fn try_from(pos: WorldPoint) -> (r: Option<ConsolePoint>)
        ensures
            r == (if pos.x + WORLD_LEFT <= i64::MAX && pos.y + WORLD_TOP <= i64::MAX {
                Some(ConsolePoint { x: (pos.x + WORLD_LEFT) as i64, y: (pos.y + WORLD_TOP) as i64 })
            } else {
                None
            }),
    {
        match (pos.x.checked_add(WORLD_LEFT), pos.y.checked_add(WORLD_TOP)) {
            (Some(x), Some(y)) => Some(ConsolePoint { x, y }),
            _ => None,
        }
    }
}

/// A click on a console position.
#[derive(Debug, Clone, Copy, PartialEq, Eq, Hash, Structural)]
pub struct ClickEvent {
    pub click_type: ClickType,
    pub pos: ConsolePoint,
}

} // verus!
