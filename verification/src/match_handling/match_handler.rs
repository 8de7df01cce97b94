use vstd::prelude::*;
use crate::board::player_color::{other, PlayerColor};
use crate::game::game_result::{DrawType, GameResult, WinType};

verus! {

/// The tally of a match between engines A and B: wins by checkmate and on time for each, and
/// draws by kind.
pub struct MatchStats {
    pub a_cm: i32,
    pub a_time: i32,
    pub b_cm: i32,
    pub b_time: i32,
    pub insuff: i32,
    pub repe: i32,
    pub stalemate: i32,
    pub fifty: i32,
}

impl Default for MatchStats {
    fn default() -> (r: MatchStats)
        ensures
            r.a_cm == 0 && r.a_time == 0 && r.b_cm == 0 && r.b_time == 0,
            r.insuff == 0 && r.repe == 0 && r.stalemate == 0 && r.fifty == 0,
    {
        MatchStats { a_cm: 0, a_time: 0, b_cm: 0, b_time: 0, insuff: 0, repe: 0, stalemate: 0, fifty: 0 }
    }
}

/// Every counter of the tally can take one more game.
pub open spec fn room_for_one(s: MatchStats) -> bool {
    s.a_cm < i32::MAX && s.a_time < i32::MAX && s.b_cm < i32::MAX && s.b_time < i32::MAX && s.insuff < i32::MAX
        && s.repe < i32::MAX && s.stalemate < i32::MAX && s.fifty < i32::MAX
}

/// `after` is the tally `before` with one more game of outcome `res`, where A played
/// `a_color`: the counter of that outcome goes up by one and no other counter moves.
pub open spec fn tallied(before: MatchStats, after: MatchStats, res: GameResult, a_color: PlayerColor) -> bool {
    &&& after.a_cm == before.a_cm + (if res == GameResult::Win(a_color, WinType::Checkmate) { 1int } else { 0 })
    &&& after.b_cm == before.b_cm + (if res matches GameResult::Win(c, WinType::Checkmate) && c != a_color { 1int } else { 0 })
    &&& after.a_time == before.a_time + (if res == GameResult::Win(a_color, WinType::TimeOut) { 1int } else { 0 })
    &&& after.b_time == before.b_time + (if res matches GameResult::Win(c, WinType::TimeOut) && c != a_color { 1int } else { 0 })
    &&& after.insuff == before.insuff + (if res == GameResult::Draw(DrawType::InsufficientMaterial) { 1int } else { 0 })
    &&& after.repe == before.repe + (if res == GameResult::Draw(DrawType::Repetition) { 1int } else { 0 })
    &&& after.stalemate == before.stalemate + (if res == GameResult::Draw(DrawType::StaleMate) { 1int } else { 0 })
    &&& after.fifty == before.fifty + (if res == GameResult::Draw(DrawType::FiftyMoveRule) { 1int } else { 0 })
}

/// The games of a tally: A's wins, B's wins and the draws.
pub open spec fn games(s: MatchStats) -> int {
    (s.a_cm + s.a_time) + (s.b_cm + s.b_time) + (s.insuff + s.repe + s.stalemate + s.fifty)
}

/// Counting a finished game adds one game to the tally: a win for A if A won, a win for B if
/// B won, a draw otherwise.
pub proof fn law_one_game_counted(before: MatchStats, after: MatchStats, res: GameResult, a_color: PlayerColor)
    requires
        res != GameResult::Undecided,
        tallied(before, after, res, a_color),
    ensures
        games(after) == games(before) + 1,
        (res matches GameResult::Win(c, _) && c == a_color) ==> after.a_cm + after.a_time == before.a_cm + before.a_time + 1,
        (res matches GameResult::Win(c, _) && c != a_color) ==> after.b_cm + after.b_time == before.b_cm + before.b_time + 1,
        (res is Draw) ==> after.insuff + after.repe + after.stalemate + after.fifty
            == before.insuff + before.repe + before.stalemate + before.fifty + 1,
{
}

/// Each outcome moves its own counter alone: a checkmate by A raises `a_cm`, a win on time by
/// A raises `a_time`, the same for B with `b_cm` and `b_time`, and each kind of draw raises its
/// own counter; every other counter stays as it was.
pub proof fn law_outcome_counters(before: MatchStats, after: MatchStats, res: GameResult, a_color: PlayerColor)
    requires
        tallied(before, after, res, a_color),
    ensures
        res == GameResult::Win(a_color, WinType::TimeOut) ==> after.a_time == before.a_time + 1 && after.a_cm == before.a_cm
            && after.b_cm == before.b_cm && after.b_time == before.b_time,
        res == GameResult::Win(a_color, WinType::Checkmate) ==> after.a_cm == before.a_cm + 1 && after.a_time
            == before.a_time && after.b_cm == before.b_cm && after.b_time == before.b_time,
        res == GameResult::Win(other(a_color), WinType::TimeOut) ==> after.b_time == before.b_time + 1 && after.b_cm
            == before.b_cm && after.a_cm == before.a_cm && after.a_time == before.a_time,
        res == GameResult::Win(other(a_color), WinType::Checkmate) ==> after.b_cm == before.b_cm + 1 && after.b_time
            == before.b_time && after.a_cm == before.a_cm && after.a_time == before.a_time,
        res is Win ==> after.insuff == before.insuff && after.repe == before.repe && after.stalemate == before.stalemate
            && after.fifty == before.fifty,
        res == GameResult::Draw(DrawType::InsufficientMaterial) ==> after.insuff == before.insuff + 1 && after.repe
            == before.repe && after.stalemate == before.stalemate && after.fifty == before.fifty,
        res == GameResult::Draw(DrawType::Repetition) ==> after.repe == before.repe + 1 && after.insuff == before.insuff
            && after.stalemate == before.stalemate && after.fifty == before.fifty,
        res == GameResult::Draw(DrawType::StaleMate) ==> after.stalemate == before.stalemate + 1 && after.insuff
            == before.insuff && after.repe == before.repe && after.fifty == before.fifty,
        res == GameResult::Draw(DrawType::FiftyMoveRule) ==> after.fifty == before.fifty + 1 && after.insuff
            == before.insuff && after.repe == before.repe && after.stalemate == before.stalemate,
        res is Draw ==> after.a_cm == before.a_cm && after.a_time == before.a_time && after.b_cm == before.b_cm
            && after.b_time == before.b_time,
{
    assert(other(a_color) != a_color);
}

impl MatchStats {
    /// A's wins: by checkmate and on time.
    pub fn a_wins(&self) -> (r: i32)
        requires
            i32::MIN <= self.a_cm + self.a_time <= i32::MAX,
        ensures
            r == self.a_cm + self.a_time,
    {
        self.a_cm + self.a_time
    }

    /// B's wins: by checkmate and on time.
    pub fn b_wins(&self) -> (r: i32)
        requires
            i32::MIN <= self.b_cm + self.b_time <= i32::MAX,
        ensures
            r == self.b_cm + self.b_time,
    {
        self.b_cm + self.b_time
    }

    /// The draws of every kind.
    pub fn draws(&self) -> (r: i32)
        requires
            i32::MIN <= self.insuff + self.repe <= i32::MAX,
            i32::MIN <= self.insuff + self.repe + self.stalemate <= i32::MAX,
            i32::MIN <= self.insuff + self.repe + self.stalemate + self.fifty <= i32::MAX,
        ensures
            r == self.insuff + self.repe + self.stalemate + self.fifty,
    {
        self.insuff + self.repe + self.stalemate + self.fifty
    }

    /// Counts a finished game, in which A played `a_color`: the counter of its outcome goes up
    /// by one.
    pub fn handle_game_result(&mut self, res: GameResult, a_color: PlayerColor)
        requires
            res != GameResult::Undecided,
            room_for_one(*old(self)),
        ensures
            tallied(*old(self), *final(self), res, a_color),
    {
        match res {
            GameResult::Win(wc, WinType::Checkmate) => {
                if wc == a_color {
                    self.a_cm = self.a_cm + 1;
                } else {
                    self.b_cm = self.b_cm + 1;
                }
            },
            GameResult::Win(wc, WinType::TimeOut) => {
                if wc == a_color {
                    self.a_time = self.a_time + 1;
                } else {
                    self.b_time = self.b_time + 1;
                }
            },
            GameResult::Draw(DrawType::InsufficientMaterial) => self.insuff = self.insuff + 1,
            GameResult::Draw(DrawType::Repetition) => self.repe = self.repe + 1,
            GameResult::Draw(DrawType::StaleMate) => self.stalemate = self.stalemate + 1,
            GameResult::Draw(DrawType::FiftyMoveRule) => self.fifty = self.fifty + 1,
            GameResult::Undecided => {},
        }
    }
}

} // verus!
