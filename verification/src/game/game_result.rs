use vstd::prelude::*;
use crate::board::player_color::PlayerColor;

verus! {

#[derive(Debug, Clone, Copy, PartialEq, Eq, Structural)]
pub enum DrawType {
    Repetition,
    InsufficientMaterial,
    StaleMate,
    FiftyMoveRule,
}

#[derive(Debug, Clone, Copy, PartialEq, Eq, Structural)]
pub enum WinType {
    Checkmate,
    TimeOut,
}

#[derive(Debug, Clone, Copy, PartialEq, Eq, Structural)]
pub enum GameResult {
    Win(PlayerColor, WinType),
    Draw(DrawType),
    Undecided,
}

} // verus!
