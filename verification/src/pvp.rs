//! Head-to-head statistics of two players.

use vstd::prelude::*;

verus! {

/// A game as shown in lists: player names, scores, the ball's picture and name, and
/// the time.
pub struct PlayedGame {
    pub home: String,
    pub away: String,
    pub home_score: i32,
    pub away_score: i32,
    pub ball: String,
    pub ball_name: String,
    pub dato: String,
}

/// One player's side of a head-to-head: goals, wins and name, in exact arithmetic.
pub struct SideView {
    pub goals: int,
    pub wins: int,
    pub name: Seq<char>,
}

/// A side after one more game in which it scored `goals` and won or not; the name is
/// the first non-empty one seen.
pub open spec fn side_add(s: SideView, name: Seq<char>, goals: int, won: bool) -> SideView {
    SideView {
        goals: s.goals + goals,
        wins: if won { s.wins + 1 } else { s.wins },
        name: if s.name.len() == 0 { name } else { s.name },
    }
}

/// Both sides after the game `g`, whose home player had the id `home_id`: the first
/// side is the player `p1`'s, the second the opponent's.
pub open spec fn pvp_step(m: (SideView, SideView), p1: i32, g: PlayedGame, home_id: i32) -> (SideView, SideView) {
    let home_win = g.home_score > g.away_score;
    if home_id == p1 {
        (
            side_add(m.0, g.home@, g.home_score as int, home_win),
            side_add(m.1, g.away@, g.away_score as int, !home_win),
        )
    } else {
        (
            side_add(m.0, g.away@, g.away_score as int, !home_win),
            side_add(m.1, g.home@, g.home_score as int, home_win),
        )
    }
}

pub open spec fn empty_side() -> SideView {
    SideView { goals: 0, wins: 0, name: Seq::empty() }
}

/// Both sides after the first `n` games.
pub open spec fn pvp_fold(p1: i32, games: Seq<(PlayedGame, i32)>, n: nat) -> (SideView, SideView)
    decreases n,
{
    if n == 0 {
        (empty_side(), empty_side())
    } else {
        pvp_step(pvp_fold(p1, games, (n - 1) as nat), p1, games[n - 1].0, games[n - 1].1)
    }
}

pub open spec fn side_fits(s: SideView) -> bool {
    i32::MIN <= s.goals <= i32::MAX && s.wins <= i32::MAX
}

/// Whether every running total stays an `i32`.
pub open spec fn pvp_fits(p1: i32, games: Seq<(PlayedGame, i32)>) -> bool {
    forall|n: nat| n <= games.len() ==> side_fits(#[trigger] pvp_fold(p1, games, n).0) && side_fits(
        pvp_fold(p1, games, n).1,
    )
}

pub open spec fn side_matches(s: (i32, i32, String), v: SideView) -> bool {
    s.0 == v.goals && s.1 == v.wins && s.2@ == v.name
}

/// The head-to-head totals of the player `p1` and an opponent over `games`, each with
/// the id of its home player: for each side its goals, its wins and its name.
pub fn pvp(p1: i32, games: &Vec<(PlayedGame, i32)>) -> (r: ((i32, i32, String), (i32, i32, String)))
    requires
        pvp_fits(p1, games@),
    ensures
        side_matches(r.0, pvp_fold(p1, games@, games@.len()).0),
        side_matches(r.1, pvp_fold(p1, games@, games@.len()).1),
        r.0.1 == games_outscored(p1, games@, games@.len(), true) + games_drawn_away(
            p1,
            games@,
            games@.len(),
            true,
        ),
        r.1.1 == games_outscored(p1, games@, games@.len(), false) + games_drawn_away(
            p1,
            games@,
            games@.len(),
            false,
        ),
        r.0.0 == goals_scored(p1, games@, games@.len(), true),
        r.1.0 == goals_scored(p1, games@, games@.len(), false),
{
    proof {
        lemma_pvp_wins_are_outscoring(p1, games@, games@.len());
    }
    let mut map: ((i32, i32, String), (i32, i32, String)) = ((0, 0, String::new()), (0, 0, String::new()));
    let n = games.len();
    for i in 0..n
        invariant
            n == games@.len(),
            pvp_fits(p1, games@),
            side_matches(map.0, pvp_fold(p1, games@, i as nat).0),
            side_matches(map.1, pvp_fold(p1, games@, i as nat).1),
    {
        let game = &games[i].0;
        let home_id = games[i].1;
        assert(side_fits(pvp_fold(p1, games@, (i + 1) as nat).0));
        let home_win = game.home_score > game.away_score;
        if home_id == p1 {
            if map.0.2.as_str().is_empty() {
                map.0.2 = game.home.clone();
            }
            map.0.0 = map.0.0 + game.home_score;
            if home_win {
                map.0.1 = map.0.1 + 1;
            }
            if map.1.2.as_str().is_empty() {
                map.1.2 = game.away.clone();
            }
            map.1.0 = map.1.0 + game.away_score;
            if !home_win {
                map.1.1 = map.1.1 + 1;
            }
        } else {
            if map.1.2.as_str().is_empty() {
                map.1.2 = game.home.clone();
            }
            map.1.0 = map.1.0 + game.home_score;
            if home_win {
                map.1.1 = map.1.1 + 1;
            }
            if map.0.2.as_str().is_empty() {
                map.0.2 = game.away.clone();
            }
            map.0.0 = map.0.0 + game.away_score;
            if !home_win {
                map.0.1 = map.0.1 + 1;
            }
        }
    }
    map
}

/// Whether [`pvp`] can total `games`: every running total stays an `i32`.
pub fn pvp_can_total(p1: i32, games: &Vec<(PlayedGame, i32)>) -> (r: bool)
    ensures
        r == pvp_fits(p1, games@),
{
    let mut goals0: i64 = 0;
    let mut goals1: i64 = 0;
    let mut wins0: i64 = 0;
    let mut wins1: i64 = 0;
    let n = games.len();
    let mut i: usize = 0;
    while i < n
        invariant
            n == games@.len(),
            i <= n,
            goals0 == pvp_fold(p1, games@, i as nat).0.goals,
            goals1 == pvp_fold(p1, games@, i as nat).1.goals,
            wins0 == pvp_fold(p1, games@, i as nat).0.wins,
            wins1 == pvp_fold(p1, games@, i as nat).1.wins,
            forall|m: nat| m <= i ==> side_fits(#[trigger] pvp_fold(p1, games@, m).0) && side_fits(
                pvp_fold(p1, games@, m).1,
            ),
        decreases n - i,
    {
        let game = &games[i].0;
        let home_id = games[i].1;
        let home_win = game.home_score > game.away_score;
        let (g0, g1, w0, w1) = if home_id == p1 {
            (game.home_score as i64, game.away_score as i64, home_win, !home_win)
        } else {
            (game.away_score as i64, game.home_score as i64, !home_win, home_win)
        };
        assert(side_fits(pvp_fold(p1, games@, i as nat).0));
        goals0 = goals0 + g0;
        goals1 = goals1 + g1;
        if w0 {
            wins0 = wins0 + 1;
        }
        if w1 {
            wins1 = wins1 + 1;
        }
        let ghost next = pvp_fold(p1, games@, (i + 1) as nat);
        assert(goals0 == next.0.goals && goals1 == next.1.goals);
        assert(wins0 == next.0.wins && wins1 == next.1.wins);
        if goals0 < i32::MIN as i64 || goals0 > i32::MAX as i64 || goals1 < i32::MIN as i64 || goals1
            > i32::MAX as i64 || wins0 > i32::MAX as i64 || wins1 > i32::MAX as i64 {
            assert(!(side_fits(pvp_fold(p1, games@, (i + 1) as nat).0) && side_fits(
                pvp_fold(p1, games@, (i + 1) as nat).1,
            )));
            return false;
        }
        assert(side_fits(next.0) && side_fits(next.1));
        assert forall|m: nat| m <= i + 1 implies side_fits(#[trigger] pvp_fold(p1, games@, m).0) && side_fits(
            pvp_fold(p1, games@, m).1,
        ) by {
            if m == i + 1 {
                assert(pvp_fold(p1, games@, m) == next);
            }
        }
        i = i + 1;
    }
    true
}

/// Law: every game is won by exactly one side, so the two sides' wins add up to the
/// number of games, and their goals to all goals scored.
pub proof fn lemma_pvp_totals(p1: i32, games: Seq<(PlayedGame, i32)>, n: nat)
    requires
        n <= games.len(),
    ensures
        pvp_fold(p1, games, n).0.wins + pvp_fold(p1, games, n).1.wins == n,
        pvp_fold(p1, games, n).0.goals + pvp_fold(p1, games, n).1.goals == total_goals(games, n),
    decreases n,
{
    if n > 0 {
        lemma_pvp_totals(p1, games, (n - 1) as nat);
    }
}

/// Law: when every game is between `p1` and `p2`, taking the totals from `p2`'s side
/// swaps the two sides.
pub proof fn lemma_pvp_swap(p1: i32, p2: i32, games: Seq<(PlayedGame, i32)>, n: nat)
    requires
        p1 != p2,
        n <= games.len(),
        forall|k: int| 0 <= k < games.len() ==> games[k].1 == p1 || games[k].1 == p2,
    ensures
        pvp_fold(p2, games, n) == (pvp_fold(p1, games, n).1, pvp_fold(p1, games, n).0),
    decreases n,
{
    if n > 0 {
        lemma_pvp_swap(p1, p2, games, (n - 1) as nat);
        assert(games[n - 1].1 == p1 || games[n - 1].1 == p2);
    }
}

/// The goals that `p1`'s side (`mine`) or the opponent's side scored in game `g`,
/// whose home player had the id `home_id`.
pub open spec fn goals_of_side(p1: i32, g: PlayedGame, home_id: i32, mine: bool) -> int {
    if (home_id == p1) == mine {
        g.home_score as int
    } else {
        g.away_score as int
    }
}

/// In how many of the first `n` games the side (`mine`: `p1`'s, otherwise the
/// opponent's) scored more goals than the other side.
pub open spec fn games_outscored(p1: i32, games: Seq<(PlayedGame, i32)>, n: nat, mine: bool) -> int
    decreases n,
{
    if n == 0 {
        0
    } else {
        let (g, h) = games[n - 1];
        games_outscored(p1, games, (n - 1) as nat, mine) + if goals_of_side(p1, g, h, mine) > goals_of_side(
            p1,
            g,
            h,
            !mine,
        ) {
            1int
        } else {
            0int
        }
    }
}

/// In how many of the first `n` games the side played away and the game was drawn.
/// Such a game counts as a win for the away side, since the home side is credited with
/// the win only when it scored more.
pub open spec fn games_drawn_away(p1: i32, games: Seq<(PlayedGame, i32)>, n: nat, mine: bool) -> int
    decreases n,
{
    if n == 0 {
        0
    } else {
        let (g, h) = games[n - 1];
        games_drawn_away(p1, games, (n - 1) as nat, mine) + if (h == p1) != mine && g.home_score
            == g.away_score {
            1int
        } else {
            0int
        }
    }
}

/// All goals the side scored in the first `n` games.
pub open spec fn goals_scored(p1: i32, games: Seq<(PlayedGame, i32)>, n: nat, mine: bool) -> int
    decreases n,
{
    if n == 0 {
        0
    } else {
        goals_scored(p1, games, (n - 1) as nat, mine) + goals_of_side(p1, games[n - 1].0, games[n - 1].1, mine)
    }
}

/// Law: each side's wins are the games in which it scored more goals than the other
/// side, plus the drawn games it played away; its goals are the goals it scored.
pub proof fn lemma_pvp_wins_are_outscoring(p1: i32, games: Seq<(PlayedGame, i32)>, n: nat)
    requires
        n <= games.len(),
    ensures
        pvp_fold(p1, games, n).0.wins == games_outscored(p1, games, n, true) + games_drawn_away(
            p1,
            games,
            n,
            true,
        ),
        pvp_fold(p1, games, n).1.wins == games_outscored(p1, games, n, false) + games_drawn_away(
            p1,
            games,
            n,
            false,
        ),
        pvp_fold(p1, games, n).0.goals == goals_scored(p1, games, n, true),
        pvp_fold(p1, games, n).1.goals == goals_scored(p1, games, n, false),
    decreases n,
{
    if n > 0 {
        lemma_pvp_wins_are_outscoring(p1, games, (n - 1) as nat);
    }
}

/// All goals scored in the first `n` games.
pub open spec fn total_goals(games: Seq<(PlayedGame, i32)>, n: nat) -> int
    decreases n,
{
    if n == 0 {
        0
    } else {
        total_goals(games, (n - 1) as nat) + games[n - 1].0.home_score + games[n - 1].0.away_score
    }
}

} // verus!
