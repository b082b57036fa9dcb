//! One player's standing: rating, streak, game counters and score history.

use vstd::prelude::*;
use bbt::{Rater, Rating};
use crate::bbt_glue::{copy_rating, duel_gives, duel_rating};

verus! {

/// What a player's score is computed from, taken right after one of their games:
/// the rating then, the streak then, and the aces and eggs counted before that game.
pub struct ScoreSnapshot {
    pub rating: Rating,
    pub streak: i16,
    pub aces: u32,
    pub eggs: u32,
}

/// A player's standing. `kampe` counts games, `vundne` wins, `tabte` losses;
/// `aces` counts games won 10-0 and `eggs` games lost 0-10. `streak` is the length of
/// the current run of wins (positive) or losses (negative). `score_history` holds one
/// entry per game: the game's time and the snapshot taken after it.
pub struct PlayerRating {
    pub id: i32,
    pub name: String,
    pub score_history: Vec<(String, ScoreSnapshot)>,
    pub streak: i16,
    pub rating: Rating,
    pub kampe: u32,
    pub vundne: u32,
    pub tabte: u32,
    pub eggs: u32,
    pub aces: u32,
}

/// The mathematical content of a [`PlayerRating`].
pub struct PlayerView {
    pub id: i32,
    pub name: Seq<char>,
    pub score_history: Seq<(Seq<char>, ScoreSnapshot)>,
    pub streak: i16,
    pub rating: Rating,
    pub kampe: u32,
    pub vundne: u32,
    pub tabte: u32,
    pub eggs: u32,
    pub aces: u32,
}

pub open spec fn history_view(h: Seq<(String, ScoreSnapshot)>) -> Seq<(Seq<char>, ScoreSnapshot)> {
    h.map_values(|e: (String, ScoreSnapshot)| (e.0@, e.1))
}

impl View for PlayerRating {
    type V = PlayerView;

    open spec fn view(&self) -> PlayerView {
        PlayerView {
            id: self.id,
            name: self.name@,
            score_history: history_view(self.score_history@),
            streak: self.streak,
            rating: self.rating,
            kampe: self.kampe,
            vundne: self.vundne,
            tabte: self.tabte,
            eggs: self.eggs,
            aces: self.aces,
        }
    }
}

/// A player who has not played yet.
pub open spec fn fresh_player(id: i32, name: Seq<char>, rating: Rating) -> PlayerView {
    PlayerView {
        id,
        name,
        score_history: Seq::empty(),
        streak: 0,
        rating,
        kampe: 0,
        vundne: 0,
        tabte: 0,
        eggs: 0,
        aces: 0,
    }
}

/// The streak after one more game: a win extends a winning run or starts a new one
/// at 1, a loss extends a losing run or starts a new one at -1.
pub open spec fn next_streak(streak: int, won: bool) -> int {
    if won {
        if streak > 0 { streak + 1 } else { 1 }
    } else {
        if streak < 0 { streak - 1 } else { -1 }
    }
}

/// `p` with its streak replaced.
pub open spec fn with_streak(p: PlayerView, streak: i16) -> PlayerView {
    PlayerView {
        id: p.id,
        name: p.name,
        score_history: p.score_history,
        streak,
        rating: p.rating,
        kampe: p.kampe,
        vundne: p.vundne,
        tabte: p.tabte,
        eggs: p.eggs,
        aces: p.aces,
    }
}

/// Whether one more game, won or lost, keeps every counter in its machine type.
pub open spec fn duel_fits(p: PlayerView, won: bool) -> bool {
    &&& p.kampe < u32::MAX
    &&& won ==> p.vundne < u32::MAX
    &&& !won ==> p.tabte < u32::MAX
    &&& i16::MIN <= next_streak(p.streak as int, won) <= i16::MAX
}

/// The player after a game at `time` that they won or lost, their new rating being `rating`.
pub open spec fn after_duel(p: PlayerView, time: Seq<char>, rating: Rating, won: bool) -> PlayerView {
    let streak = next_streak(p.streak as int, won) as i16;
    PlayerView {
        id: p.id,
        name: p.name,
        score_history: p.score_history.push(
            (time, ScoreSnapshot { rating, streak, aces: p.aces, eggs: p.eggs }),
        ),
        streak,
        rating,
        kampe: (p.kampe + 1) as u32,
        vundne: if won { (p.vundne + 1) as u32 } else { p.vundne },
        tabte: if won { p.tabte } else { (p.tabte + 1) as u32 },
        eggs: p.eggs,
        aces: p.aces,
    }
}

/// The counters agree: every game is a win or a loss and left one history entry,
/// and a game is an ace or an egg only if it was played.
pub open spec fn consistent(p: PlayerView) -> bool {
    &&& p.kampe == p.vundne + p.tabte
    &&& p.score_history.len() == p.kampe
    &&& p.aces <= p.vundne
    &&& p.eggs <= p.tabte
}

impl PlayerRating {
    /// A player with no games, starting from `rating`.
    pub fn new(id: i32, name: String, rating: Rating) -> (p: PlayerRating)
        ensures
            p@ == fresh_player(id, name@, rating),
    {
        let p = PlayerRating {
            id,
            name,
            score_history: Vec::new(),
            streak: 0,
            rating,
            kampe: 0,
            vundne: 0,
            tabte: 0,
            eggs: 0,
            aces: 0,
        };
        assert(history_view(p.score_history@) =~= Seq::empty());
        p
    }

    /// Moves the streak on by one game.
    pub fn mod_streak(&mut self, won: bool)
        requires
            i16::MIN <= next_streak(old(self).streak as int, won) <= i16::MAX,
        ensures
            final(self).streak == next_streak(old(self).streak as int, won),
            final(self)@ == with_streak(old(self)@, final(self).streak),
    {
        if self.streak < 0 && !won {
            self.streak = self.streak - 1;
        } else if self.streak > 0 && won {
            self.streak = self.streak + 1;
        } else if !won {
            self.streak = -1;
        } else {
            self.streak = 1;
        }
    }

    /// Records a game at `time` that the player won or lost, after which their
    /// rating is `rating`.
    pub fn record_duel(&mut self, time: String, rating: Rating, won: bool)
        requires
            duel_fits(old(self)@, won),
        ensures
            final(self)@ == after_duel(old(self)@, time@, rating, won),
    {
        let ghost h0 = self.score_history@;
        let snap_rating = copy_rating(&rating);
        self.rating = rating;
        self.kampe = self.kampe + 1;
        self.mod_streak(won);
        if won {
            self.vundne = self.vundne + 1;
        } else {
            self.tabte = self.tabte + 1;
        }
        let snap = ScoreSnapshot {
            rating: snap_rating,
            streak: self.streak,
            aces: self.aces,
            eggs: self.eggs,
        };
        self.score_history.push((time, snap));
        assert(history_view(self.score_history@) =~= history_view(h0).push(
            (time@, ScoreSnapshot { rating: self.rating, streak: self.streak, aces: self.aces, eggs: self.eggs }),
        ));
    }

    /// Plays a duel against an opponent rated `o` through `rater` and records it: the
    /// new rating is what the rater gave for the player's rating before the game
    /// against `o`; everything else follows [`after_duel`].
    pub fn duel(&mut self, rater: &Rater, time: String, o: Rating, won: bool)
        requires
            duel_fits(old(self)@, won),
        ensures
            duel_gives(*rater, old(self).rating, o, won, final(self).rating),
            final(self)@ == after_duel(old(self)@, time@, final(self).rating, won),
    {
        let own = copy_rating(&self.rating);
        let a = duel_rating(rater, own, o, won);
        self.record_duel(time, a, won);
    }
}

/// Law: one more game keeps a consistent player consistent.
pub proof fn lemma_duel_keeps_consistent(p: PlayerView, time: Seq<char>, rating: Rating, won: bool)
    requires
        consistent(p),
        duel_fits(p, won),
    ensures
        consistent(after_duel(p, time, rating, won)),
{
}

/// Law: a game keeps games played equal to wins plus losses and to the length of the
/// history.
pub proof fn lemma_duel_keeps_counts(p: PlayerView, time: Seq<char>, rating: Rating, won: bool)
    requires
        p.kampe == p.vundne + p.tabte,
        p.score_history.len() == p.kampe,
        duel_fits(p, won),
    ensures
        after_duel(p, time, rating, won).kampe == after_duel(p, time, rating, won).vundne + after_duel(
            p,
            time,
            rating,
            won,
        ).tabte,
        after_duel(p, time, rating, won).score_history.len() == after_duel(p, time, rating, won).kampe,
{
}

/// Law: after a game the streak has the sign of its result, and the latest history
/// entry carries the player's rating and streak.
pub proof fn lemma_duel_streak_sign(p: PlayerView, time: Seq<char>, rating: Rating, won: bool)
    requires
        duel_fits(p, won),
    ensures
        won ==> after_duel(p, time, rating, won).streak > 0,
        !won ==> after_duel(p, time, rating, won).streak < 0,
        after_duel(p, time, rating, won).score_history.last().1.rating == after_duel(p, time, rating, won).rating,
        after_duel(p, time, rating, won).score_history.last().1.streak == after_duel(p, time, rating, won).streak,
        after_duel(p, time, rating, won).score_history.last().0 == time,
{
}

} // verus!
