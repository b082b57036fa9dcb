//! The league's rating state: every player's standing and the time of the last
//! game taken into account, brought up to date game by game.

use vstd::prelude::*;
use bbt::{Rater, Rating};
use crate::bbt_glue::{copy_rating, duel_gives, duel_rating};
use crate::pages::Redirect;
use crate::player::{after_duel, consistent, fresh_player, next_streak, PlayerRating, PlayerView};

verus! {

/// The time before any game of the current month, as SQLite's `datetime` arguments.
pub const INITIAL_DATE_CAP: &'static str = "now','start of month";

/// A game as the ratings see it: who played home and away, when, whether it ended
/// 10-0 or 0-10 (`ace`), and whether home won.
pub struct Game {
    pub home: i32,
    pub away: i32,
    pub dato: String,
    pub ace: bool,
    pub home_win: bool,
}

pub struct GameView {
    pub home: i32,
    pub away: i32,
    pub dato: Seq<char>,
    pub ace: bool,
    pub home_win: bool,
}

impl View for Game {
    type V = GameView;

    open spec fn view(&self) -> GameView {
        GameView {
            home: self.home,
            away: self.away,
            dato: self.dato@,
            ace: self.ace,
            home_win: self.home_win,
        }
    }
}

pub open spec fn games_view(gs: Seq<Game>) -> Seq<GameView> {
    gs.map_values(|g: Game| g@)
}

impl Game {
    /// The game stored with these ids, scores and time.
    pub fn from_row(home: i32, away: i32, home_score: i32, away_score: i32, dato: String) -> (g: Game)
        ensures
            g@ == (GameView {
                home,
                away,
                dato: dato@,
                ace: home_score == 0 || away_score == 0,
                home_win: home_score > away_score,
            }),
    {
        Game { home, away, dato, ace: home_score == 0 || away_score == 0, home_win: home_score > away_score }
    }
}

// ---------------------------------------------------------------------------
// Looking players up by id

pub open spec fn player_ids(ps: Seq<PlayerView>) -> Seq<i32> {
    ps.map_values(|p: PlayerView| p.id)
}

pub open spec fn has_id(ids: Seq<i32>, id: i32) -> bool {
    exists|i: int| 0 <= i < ids.len() && ids[i] == id
}

pub open spec fn index_of(ids: Seq<i32>, id: i32) -> int {
    choose|i: int| 0 <= i < ids.len() && ids[i] == id
}

pub open spec fn distinct(ids: Seq<i32>) -> bool {
    forall|i: int, j: int| 0 <= i < ids.len() && 0 <= j < ids.len() && i != j ==> ids[i] != ids[j]
}

proof fn lemma_index_of(ids: Seq<i32>, id: i32, k: int)
    requires
        distinct(ids),
        0 <= k < ids.len(),
        ids[k] == id,
    ensures
        has_id(ids, id),
        index_of(ids, id) == k,
{
}

// ---------------------------------------------------------------------------
// Counters: the part of a player that decides whether a game fits

/// The integer part of a player's standing.
#[derive(Clone, Copy)]
pub struct Counters {
    pub id: i32,
    pub streak: i16,
    pub kampe: u32,
    pub vundne: u32,
    pub tabte: u32,
    pub eggs: u32,
    pub aces: u32,
}

pub open spec fn counters(p: PlayerView) -> Counters {
    Counters {
        id: p.id,
        streak: p.streak,
        kampe: p.kampe,
        vundne: p.vundne,
        tabte: p.tabte,
        eggs: p.eggs,
        aces: p.aces,
    }
}

pub open spec fn counters_seq(ps: Seq<PlayerView>) -> Seq<Counters> {
    ps.map_values(|p: PlayerView| counters(p))
}

pub open spec fn counter_ids(cs: Seq<Counters>) -> Seq<i32> {
    cs.map_values(|c: Counters| c.id)
}

/// The counters after one game, won or lost, that was or was not an ace.
pub open spec fn count_result(c: Counters, won: bool, ace: bool) -> Counters {
    Counters {
        id: c.id,
        streak: next_streak(c.streak as int, won) as i16,
        kampe: (c.kampe + 1) as u32,
        vundne: if won { (c.vundne + 1) as u32 } else { c.vundne },
        tabte: if won { c.tabte } else { (c.tabte + 1) as u32 },
        eggs: if ace && !won { (c.eggs + 1) as u32 } else { c.eggs },
        aces: if ace && won { (c.aces + 1) as u32 } else { c.aces },
    }
}

/// Whether one more result keeps every counter in its machine type.
pub open spec fn result_fits(c: Counters, won: bool, ace: bool) -> bool {
    &&& c.kampe < u32::MAX
    &&& won ==> c.vundne < u32::MAX
    &&& !won ==> c.tabte < u32::MAX
    &&& i16::MIN <= next_streak(c.streak as int, won) <= i16::MAX
    &&& ace && won ==> c.aces < u32::MAX
    &&& ace && !won ==> c.eggs < u32::MAX
}

/// The counters after the home side's result of `g` is recorded.
pub open spec fn count_home(cs: Seq<Counters>, g: GameView) -> Seq<Counters> {
    let hi = index_of(counter_ids(cs), g.home);
    cs.update(hi, count_result(cs[hi], g.home_win, g.ace))
}

/// The counters after game `g`: first the home player's result, then the away player's.
pub open spec fn count_game(cs: Seq<Counters>, g: GameView) -> Seq<Counters> {
    let ai = index_of(counter_ids(cs), g.away);
    let cs1 = count_home(cs, g);
    cs1.update(ai, count_result(cs1[ai], !g.home_win, g.ace))
}

/// Whether both players of `g` are known and their counters stay in range.
pub open spec fn game_fits(cs: Seq<Counters>, g: GameView) -> bool {
    let ids = counter_ids(cs);
    &&& has_id(ids, g.home)
    &&& has_id(ids, g.away)
    &&& result_fits(cs[index_of(ids, g.home)], g.home_win, g.ace)
    &&& result_fits(count_home(cs, g)[index_of(ids, g.away)], !g.home_win, g.ace)
}

pub open spec fn count_games(cs: Seq<Counters>, gs: Seq<GameView>) -> Seq<Counters>
    decreases gs.len(),
{
    if gs.len() == 0 {
        cs
    } else {
        count_game(count_games(cs, gs.drop_last()), gs.last())
    }
}

/// Whether the games, played in order, all find their players and keep every
/// counter in range.
pub open spec fn games_fit(cs: Seq<Counters>, gs: Seq<GameView>) -> bool
    decreases gs.len(),
{
    if gs.len() == 0 {
        true
    } else {
        games_fit(cs, gs.drop_last()) && game_fits(count_games(cs, gs.drop_last()), gs.last())
    }
}

// ---------------------------------------------------------------------------
// Players through games

/// `p` with its ace and egg counters replaced.
pub open spec fn with_aces_eggs(p: PlayerView, aces: u32, eggs: u32) -> PlayerView {
    PlayerView {
        id: p.id,
        name: p.name,
        score_history: p.score_history,
        streak: p.streak,
        rating: p.rating,
        kampe: p.kampe,
        vundne: p.vundne,
        tabte: p.tabte,
        eggs,
        aces,
    }
}

/// A player's standing after one result: the duel is recorded first, then a 10-0
/// counts as an ace for the winner and an egg for the loser.
pub open spec fn after_result(p: PlayerView, time: Seq<char>, rating: Rating, won: bool, ace: bool) -> PlayerView {
    let q = after_duel(p, time, rating, won);
    with_aces_eggs(
        q,
        if ace && won { (q.aces + 1) as u32 } else { q.aces },
        if ace && !won { (q.eggs + 1) as u32 } else { q.eggs },
    )
}

/// The players after game `g`, the home player's new rating being `rh` and the away
/// player's `ra`.
pub open spec fn apply_game(ps: Seq<PlayerView>, g: GameView, rh: Rating, ra: Rating) -> Seq<PlayerView> {
    let hi = index_of(player_ids(ps), g.home);
    let ai = index_of(player_ids(ps), g.away);
    let ps1 = ps.update(hi, after_result(ps[hi], g.dato, rh, g.home_win, g.ace));
    ps1.update(ai, after_result(ps1[ai], g.dato, ra, !g.home_win, g.ace))
}

/// The players after the games in order, `rs[k]` holding the new ratings of game `k`.
pub open spec fn apply_games(ps: Seq<PlayerView>, gs: Seq<GameView>, rs: Seq<(Rating, Rating)>) -> Seq<PlayerView>
    decreases gs.len(),
{
    if gs.len() == 0 {
        ps
    } else {
        let r = rs.last();
        apply_game(apply_games(ps, gs.drop_last(), rs.drop_last()), gs.last(), r.0, r.1)
    }
}

/// Whether `rh` and `ra` are ratings that `rater` gives the home and the away player of
/// `g`, each rated against the other's rating from before the game. The away player's own
/// rating is the one after the home side was recorded, which differs only when a player
/// plays against themselves.
pub open spec fn game_rated(rater: Rater, ps: Seq<PlayerView>, g: GameView, rh: Rating, ra: Rating) -> bool {
    let hi = index_of(player_ids(ps), g.home);
    let ai = index_of(player_ids(ps), g.away);
    let away_own = if ai == hi { rh } else { ps[ai].rating };
    &&& duel_gives(rater, ps[hi].rating, ps[ai].rating, g.home_win, rh)
    &&& duel_gives(rater, away_own, ps[hi].rating, !g.home_win, ra)
}

/// Whether every game's new ratings `rs[k]` are ones `rater` gives on the players'
/// ratings just before that game.
pub open spec fn rated_games(rater: Rater, ps: Seq<PlayerView>, gs: Seq<GameView>, rs: Seq<(Rating, Rating)>) -> bool
    decreases gs.len(),
{
    if gs.len() == 0 {
        true
    } else {
        &&& rated_games(rater, ps, gs.drop_last(), rs.drop_last())
        &&& game_rated(
            rater,
            apply_games(ps, gs.drop_last(), rs.drop_last()),
            gs.last(),
            rs.last().0,
            rs.last().1,
        )
    }
}

/// The players read from the rows `(id, name)`, each with the rating `r` and no
/// games; a later row with the same id replaces the earlier one.
pub open spec fn gen_players(rows: Seq<(i32, Seq<char>)>, r: Rating) -> Seq<PlayerView>
    decreases rows.len(),
{
    if rows.len() == 0 {
        Seq::empty()
    } else {
        let ps = gen_players(rows.drop_last(), r);
        let row = rows.last();
        if has_id(player_ids(ps), row.0) {
            ps.update(index_of(player_ids(ps), row.0), fresh_player(row.0, row.1, r))
        } else {
            ps.push(fresh_player(row.0, row.1, r))
        }
    }
}

pub open spec fn all_consistent(ps: Seq<PlayerView>) -> bool {
    forall|i: int| 0 <= i < ps.len() ==> consistent(#[trigger] ps[i])
}

// ---------------------------------------------------------------------------
// Lemmas

proof fn lemma_counters_game(ps: Seq<PlayerView>, g: GameView, rh: Rating, ra: Rating)
    requires
        has_id(player_ids(ps), g.home),
        has_id(player_ids(ps), g.away),
    ensures
        counters_seq(apply_game(ps, g, rh, ra)) == count_game(counters_seq(ps), g),
        player_ids(apply_game(ps, g, rh, ra)) == player_ids(ps),
        apply_game(ps, g, rh, ra).len() == ps.len(),
{
    let cs = counters_seq(ps);
    assert(counter_ids(cs) =~= player_ids(ps));
    let ids = player_ids(ps);
    let hi = index_of(ids, g.home);
    let ai = index_of(ids, g.away);
    let ps1 = ps.update(hi, after_result(ps[hi], g.dato, rh, g.home_win, g.ace));
    assert(counters_seq(ps1) =~= count_home(cs, g));
    assert(player_ids(ps1) =~= ids);
    assert(counters_seq(apply_game(ps, g, rh, ra)) =~= count_game(cs, g));
    assert(player_ids(apply_game(ps, g, rh, ra)) =~= ids);
}

/// Law: the players' counters after a run of games do not depend on the new ratings:
/// they are [`count_games`] of the counters before.
pub proof fn lemma_counters_games(ps: Seq<PlayerView>, gs: Seq<GameView>, rs: Seq<(Rating, Rating)>)
    requires
        games_fit(counters_seq(ps), gs),
    ensures
        counters_seq(apply_games(ps, gs, rs)) == count_games(counters_seq(ps), gs),
        player_ids(apply_games(ps, gs, rs)) == player_ids(ps),
        apply_games(ps, gs, rs).len() == ps.len(),
    decreases gs.len(),
{
    if gs.len() > 0 {
        lemma_counters_games(ps, gs.drop_last(), rs.drop_last());
        let prev = apply_games(ps, gs.drop_last(), rs.drop_last());
        assert(counter_ids(counters_seq(prev)) =~= player_ids(prev));
        lemma_counters_game(prev, gs.last(), rs.last().0, rs.last().1);
    }
}

proof fn lemma_fit_prefix(cs: Seq<Counters>, gs: Seq<GameView>, k: int)
    requires
        games_fit(cs, gs),
        0 <= k <= gs.len(),
    ensures
        games_fit(cs, gs.take(k)),
    decreases gs.len(),
{
    if k == gs.len() {
        assert(gs.take(k) =~= gs);
    } else {
        assert(gs.drop_last().take(k) =~= gs.take(k));
        lemma_fit_prefix(cs, gs.drop_last(), k);
    }
}

proof fn lemma_after_result_consistent(p: PlayerView, time: Seq<char>, rating: Rating, won: bool, ace: bool)
    requires
        consistent(p),
        result_fits(counters(p), won, ace),
    ensures
        consistent(after_result(p, time, rating, won, ace)),
        counters(after_result(p, time, rating, won, ace)) == count_result(counters(p), won, ace),
{
}

/// Law: playing games keeps every player's counters consistent: games played equal
/// wins plus losses and the history length, aces are wins and eggs are losses.
pub proof fn lemma_games_keep_consistent(ps: Seq<PlayerView>, gs: Seq<GameView>, rs: Seq<(Rating, Rating)>)
    requires
        all_consistent(ps),
        games_fit(counters_seq(ps), gs),
    ensures
        all_consistent(apply_games(ps, gs, rs)),
    decreases gs.len(),
{
    if gs.len() > 0 {
        lemma_games_keep_consistent(ps, gs.drop_last(), rs.drop_last());
        lemma_counters_games(ps, gs.drop_last(), rs.drop_last());
        let prev = apply_games(ps, gs.drop_last(), rs.drop_last());
        let g = gs.last();
        let (rh, ra) = (rs.last().0, rs.last().1);
        let ids = player_ids(prev);
        let cs = counters_seq(prev);
        assert(counter_ids(cs) =~= ids);
        let hi = index_of(ids, g.home);
        let ai = index_of(ids, g.away);
        lemma_after_result_consistent(prev[hi], g.dato, rh, g.home_win, g.ace);
        let ps1 = prev.update(hi, after_result(prev[hi], g.dato, rh, g.home_win, g.ace));
        assert(counters_seq(ps1) =~= count_home(cs, g));
        assert(counters(ps1[ai]) == count_home(cs, g)[ai]);
        lemma_after_result_consistent(ps1[ai], g.dato, ra, !g.home_win, g.ace);
        let ps2 = apply_game(prev, g, rh, ra);
        assert forall|i: int| 0 <= i < ps2.len() implies consistent(#[trigger] ps2[i]) by {
            assert(consistent(ps1[i]));
        }
    }
}

/// Law: the players read anew have distinct ids, no games and the starting rating,
/// and are consistent.
pub proof fn lemma_gen_players_fresh(rows: Seq<(i32, Seq<char>)>, r: Rating)
    ensures
        distinct(player_ids(gen_players(rows, r))),
        all_consistent(gen_players(rows, r)),
        forall|i: int| 0 <= i < gen_players(rows, r).len() ==> (#[trigger] gen_players(rows, r)[i]).kampe == 0
            && gen_players(rows, r)[i].rating == r && gen_players(rows, r)[i].streak == 0,
    decreases rows.len(),
{
    if rows.len() > 0 {
        lemma_gen_players_fresh(rows.drop_last(), r);
        let ps = gen_players(rows.drop_last(), r);
        let row = rows.last();
        if has_id(player_ids(ps), row.0) {
            let k = index_of(player_ids(ps), row.0);
            assert(player_ids(ps.update(k, fresh_player(row.0, row.1, r))) =~= player_ids(ps));
        } else {
            assert(player_ids(ps.push(fresh_player(row.0, row.1, r))) =~= player_ids(ps).push(row.0));
        }
    }
}

/// How many of the games the player `id` played, a game against oneself counting twice.
pub open spec fn games_of(gs: Seq<GameView>, id: i32) -> int
    decreases gs.len(),
{
    if gs.len() == 0 {
        0
    } else {
        games_of(gs.drop_last(), id) + (if gs.last().home == id { 1int } else { 0int }) + (if gs.last().away
            == id {
            1int
        } else {
            0int
        })
    }
}

/// How many of the games the player `id` won.
pub open spec fn wins_of(gs: Seq<GameView>, id: i32) -> int
    decreases gs.len(),
{
    if gs.len() == 0 {
        0
    } else {
        wins_of(gs.drop_last(), id) + (if gs.last().home == id && gs.last().home_win {
            1int
        } else {
            0int
        }) + (if gs.last().away == id && !gs.last().home_win {
            1int
        } else {
            0int
        })
    }
}

proof fn lemma_count_game_ids(cs: Seq<Counters>, g: GameView)
    requires
        game_fits(cs, g),
    ensures
        counter_ids(count_game(cs, g)) == counter_ids(cs),
{
    let ids = counter_ids(cs);
    assert(counter_ids(count_home(cs, g)) =~= ids);
    assert(counter_ids(count_game(cs, g)) =~= ids);
}

/// Law: after a run of games every player has played one more game per game they took
/// part in (two for a game against themselves) and won one more per game they won.
pub proof fn lemma_games_counted(cs: Seq<Counters>, gs: Seq<GameView>, i: int)
    requires
        games_fit(cs, gs),
        distinct(counter_ids(cs)),
        0 <= i < cs.len(),
    ensures
        count_games(cs, gs).len() == cs.len(),
        counter_ids(count_games(cs, gs)) == counter_ids(cs),
        count_games(cs, gs)[i].kampe == cs[i].kampe + games_of(gs, cs[i].id),
        count_games(cs, gs)[i].vundne == cs[i].vundne + wins_of(gs, cs[i].id),
    decreases gs.len(),
{
    if gs.len() == 0 {
    } else {
        lemma_games_counted(cs, gs.drop_last(), i);
        let prev = count_games(cs, gs.drop_last());
        let g = gs.last();
        lemma_count_game_ids(prev, g);
        let ids = counter_ids(prev);
        assert(ids[i] == cs[i].id);
        let hi = index_of(ids, g.home);
        let ai = index_of(ids, g.away);
        if cs[i].id == g.home {
            lemma_index_of(ids, g.home, i);
        }
        if cs[i].id == g.away {
            lemma_index_of(ids, g.away, i);
        }
        assert(hi == i <==> cs[i].id == g.home);
        assert(ai == i <==> cs[i].id == g.away);
    }
}

/// Law: the ratings of two batches of games, the second counted after the first, are
/// rated as the ratings of all the games counted at once: together with
/// [`lemma_apply_games_split`], two calls of `update_new_ratings` are described exactly
/// as one call on both batches.
pub proof fn lemma_rated_games_split(
    rater: Rater,
    ps: Seq<PlayerView>,
    g1: Seq<GameView>,
    r1: Seq<(Rating, Rating)>,
    g2: Seq<GameView>,
    r2: Seq<(Rating, Rating)>,
)
    requires
        r1.len() == g1.len(),
        r2.len() == g2.len(),
    ensures
        rated_games(rater, ps, g1 + g2, r1 + r2) == (rated_games(rater, ps, g1, r1) && rated_games(
            rater,
            apply_games(ps, g1, r1),
            g2,
            r2,
        )),
    decreases g2.len(),
{
    if g2.len() == 0 {
        assert(g1 + g2 =~= g1);
        assert(r1 + r2 =~= r1);
    } else {
        lemma_rated_games_split(rater, ps, g1, r1, g2.drop_last(), r2.drop_last());
        lemma_apply_games_split(ps, g1, r1, g2.drop_last(), r2.drop_last());
        assert((g1 + g2).drop_last() =~= g1 + g2.drop_last());
        assert((r1 + r2).drop_last() =~= r1 + r2.drop_last());
        assert((g1 + g2).last() == g2.last());
        assert((r1 + r2).last() == r2.last());
    }
}

/// Law: two successive updates, the second on the players the first left, are
/// described exactly as one update on both batches of games.
pub proof fn lemma_two_updates_as_one(
    rater: Rater,
    ps: Seq<PlayerView>,
    g1: Seq<GameView>,
    r1: Seq<(Rating, Rating)>,
    g2: Seq<GameView>,
    r2: Seq<(Rating, Rating)>,
)
    requires
        r1.len() == g1.len(),
        r2.len() == g2.len(),
        games_fit(counters_seq(ps), g1),
        games_fit(counters_seq(apply_games(ps, g1, r1)), g2),
        rated_games(rater, ps, g1, r1),
        rated_games(rater, apply_games(ps, g1, r1), g2, r2),
    ensures
        games_fit(counters_seq(ps), g1 + g2),
        rated_games(rater, ps, g1 + g2, r1 + r2),
        apply_games(apply_games(ps, g1, r1), g2, r2) == apply_games(ps, g1 + g2, r1 + r2),
{
    lemma_rated_games_split(rater, ps, g1, r1, g2, r2);
    lemma_apply_games_split(ps, g1, r1, g2, r2);
    lemma_counters_games(ps, g1, r1);
    lemma_count_games_split(counters_seq(ps), g1, g2);
}

/// All wins of the players.
pub open spec fn total_wins(cs: Seq<Counters>) -> int
    decreases cs.len(),
{
    if cs.len() == 0 {
        0
    } else {
        total_wins(cs.drop_last()) + cs.last().vundne
    }
}

/// All losses of the players.
pub open spec fn total_losses(cs: Seq<Counters>) -> int
    decreases cs.len(),
{
    if cs.len() == 0 {
        0
    } else {
        total_losses(cs.drop_last()) + cs.last().tabte
    }
}

proof fn lemma_totals_update(cs: Seq<Counters>, i: int, c: Counters)
    requires
        0 <= i < cs.len(),
    ensures
        total_wins(cs.update(i, c)) == total_wins(cs) - cs[i].vundne + c.vundne,
        total_losses(cs.update(i, c)) == total_losses(cs) - cs[i].tabte + c.tabte,
    decreases cs.len(),
{
    if i == cs.len() - 1 {
        assert(cs.update(i, c).drop_last() =~= cs.drop_last());
    } else {
        lemma_totals_update(cs.drop_last(), i, c);
        assert(cs.update(i, c).drop_last() =~= cs.drop_last().update(i, c));
    }
}

/// Law: every game adds one win and one loss in all, so the difference between all
/// wins and all losses never changes; in particular, if they were equal they stay equal.
pub proof fn lemma_wins_match_losses(cs: Seq<Counters>, gs: Seq<GameView>)
    requires
        games_fit(cs, gs),
    ensures
        total_wins(count_games(cs, gs)) - total_losses(count_games(cs, gs)) == total_wins(cs) - total_losses(cs),
    decreases gs.len(),
{
    if gs.len() > 0 {
        lemma_wins_match_losses(cs, gs.drop_last());
        let prev = count_games(cs, gs.drop_last());
        let g = gs.last();
        let ids = counter_ids(prev);
        let hi = index_of(ids, g.home);
        let ai = index_of(ids, g.away);
        let cs1 = count_home(prev, g);
        lemma_totals_update(prev, hi, count_result(prev[hi], g.home_win, g.ace));
        lemma_totals_update(cs1, ai, count_result(cs1[ai], !g.home_win, g.ace));
    }
}

/// Law: the same for the players themselves, whatever the new ratings.
pub proof fn lemma_players_wins_match_losses(ps: Seq<PlayerView>, gs: Seq<GameView>, rs: Seq<(Rating, Rating)>)
    requires
        games_fit(counters_seq(ps), gs),
    ensures
        total_wins(counters_seq(apply_games(ps, gs, rs))) - total_losses(counters_seq(apply_games(ps, gs, rs)))
            == total_wins(counters_seq(ps)) - total_losses(counters_seq(ps)),
{
    lemma_counters_games(ps, gs, rs);
    lemma_wins_match_losses(counters_seq(ps), gs);
}

/// Law: counting games in two batches, the second after the first, gives the same
/// players as counting them all at once.
pub proof fn lemma_apply_games_split(
    ps: Seq<PlayerView>,
    g1: Seq<GameView>,
    r1: Seq<(Rating, Rating)>,
    g2: Seq<GameView>,
    r2: Seq<(Rating, Rating)>,
)
    requires
        r1.len() == g1.len(),
        r2.len() == g2.len(),
    ensures
        apply_games(apply_games(ps, g1, r1), g2, r2) == apply_games(ps, g1 + g2, r1 + r2),
    decreases g2.len(),
{
    if g2.len() == 0 {
        assert(g1 + g2 =~= g1);
        assert(r1 + r2 =~= r1);
    } else {
        lemma_apply_games_split(ps, g1, r1, g2.drop_last(), r2.drop_last());
        assert((g1 + g2).drop_last() =~= g1 + g2.drop_last());
        assert((r1 + r2).drop_last() =~= r1 + r2.drop_last());
        assert((g1 + g2).last() == g2.last());
        assert((r1 + r2).last() == r2.last());
    }
}

/// Law: the counters after two batches of games are those after all of them at once,
/// and the games fit in one go exactly when the first batch fits and the second fits
/// after it.
pub proof fn lemma_count_games_split(cs: Seq<Counters>, g1: Seq<GameView>, g2: Seq<GameView>)
    ensures
        count_games(count_games(cs, g1), g2) == count_games(cs, g1 + g2),
        games_fit(cs, g1 + g2) == (games_fit(cs, g1) && games_fit(count_games(cs, g1), g2)),
    decreases g2.len(),
{
    if g2.len() == 0 {
        assert(g1 + g2 =~= g1);
    } else {
        lemma_count_games_split(cs, g1, g2.drop_last());
        assert((g1 + g2).drop_last() =~= g1 + g2.drop_last());
        assert((g1 + g2).last() == g2.last());
    }
}

// ---------------------------------------------------------------------------
// The state

/// Every player's standing and the time of the newest game already counted.
/// Player ids are distinct.
pub struct RatingState {
    players: Vec<PlayerRating>,
    last_date: String,
}

pub open spec fn players_view_of(v: Seq<PlayerRating>) -> Seq<PlayerView> {
    v.map_values(|p: PlayerRating| p@)
}

pub open spec fn rows_view(rows: Seq<(i32, String)>) -> Seq<(i32, Seq<char>)> {
    rows.map_values(|r: (i32, String)| (r.0, r.1@))
}

impl RatingState {
    pub closed spec fn players_view(&self) -> Seq<PlayerView> {
        players_view_of(self.players@)
    }

    pub closed spec fn last_date_view(&self) -> Seq<char> {
        self.last_date@
    }

    /// The state's invariant: no two players share an id.
    pub open spec fn wf(&self) -> bool {
        distinct(player_ids(self.players_view()))
    }

    /// The players, in the order they were first read.
    pub fn players(&self) -> (r: &Vec<PlayerRating>)
        ensures
            players_view_of(r@) == self.players_view(),
    {
        &self.players
    }

    /// The time of the newest game counted so far, or [`INITIAL_DATE_CAP`].
    pub fn last_date(&self) -> (r: &String)
        ensures
            r@ == self.last_date_view(),
    {
        &self.last_date
    }

    /// The position of the player with id `id`, if there is one.
    fn find_index(&self, id: i32) -> (r: Option<usize>)
        requires
            self.wf(),
        ensures
            r is None ==> !has_id(player_ids(self.players_view()), id),
            r matches Some(k) ==> k < self.players@.len() && index_of(
                player_ids(self.players_view()),
                id,
            ) == k && has_id(player_ids(self.players_view()), id),
    {
        find_player(&self.players, id)
    }

    /// Every player read from `rows` with no games and the rating `initial`, and no
    /// game counted yet.
    pub fn new(rows: &Vec<(i32, String)>, initial: &Rating) -> (s: RatingState)
        ensures
            s.wf(),
            s.players_view() == gen_players(rows_view(rows@), *initial),
            s.last_date_view() == INITIAL_DATE_CAP@,
    {
        let mut players: Vec<PlayerRating> = Vec::new();
        let n = rows.len();
        let ghost rv = rows_view(rows@);
        for i in 0..n
            invariant
                n == rows@.len(),
                rv == rows_view(rows@),
                players_view_of(players@) == gen_players(rv.take(i as int), *initial),
                distinct(player_ids(players_view_of(players@))),
        {
            let id = rows[i].0;
            let name = rows[i].1.clone();
            let fresh = PlayerRating::new(id, name, copy_rating(initial));
            let ghost before = players_view_of(players@);
            assert(rv.take(i + 1).drop_last() =~= rv.take(i as int));
            assert(rv.take(i + 1).last() == (id, name@));
            match find_player(&players, id) {
                Some(k) => {
                    players[k] = fresh;
                    assert(players_view_of(players@) =~= before.update(k as int, fresh@));
                    assert(player_ids(players_view_of(players@)) =~= player_ids(before));
                },
                None => {
                    players.push(fresh);
                    assert(players_view_of(players@) =~= before.push(fresh@));
                    assert(player_ids(players_view_of(players@)) =~= player_ids(before).push(id));
                },
            }
        }
        assert(rv.take(n as int) =~= rv);
        RatingState { players, last_date: String::from_str(INITIAL_DATE_CAP) }
    }

    /// Records one side of a game for the player at `idx`.
    fn record_result(&mut self, idx: usize, time: String, rating: Rating, won: bool, ace: bool)
        requires
            old(self).wf(),
            idx < old(self).players@.len(),
            result_fits(counters(old(self).players_view()[idx as int]), won, ace),
        ensures
            final(self).wf(),
            final(self).last_date == old(self).last_date,
            final(self).players_view() == old(self).players_view().update(
                idx as int,
                after_result(old(self).players_view()[idx as int], time@, rating, won, ace),
            ),
    {
        let ghost before = self.players_view();
        self.players[idx].record_duel(time, rating, won);
        if ace {
            if won {
                self.players[idx].aces = self.players[idx].aces + 1;
            } else {
                self.players[idx].eggs = self.players[idx].eggs + 1;
            }
        }
        assert(self.players_view() =~= before.update(
            idx as int,
            after_result(before[idx as int], time@, rating, won, ace),
        ));
        assert(player_ids(self.players_view()) =~= player_ids(before));
    }

    /// Records game `g` when the duels gave the home player the rating `home_rating`
    /// and the away player `away_rating`.
    pub fn record_game(&mut self, g: &Game, home_rating: Rating, away_rating: Rating)
        requires
            old(self).wf(),
            game_fits(counters_seq(old(self).players_view()), g@),
        ensures
            final(self).wf(),
            final(self).last_date_view() == old(self).last_date_view(),
            final(self).players_view() == apply_game(old(self).players_view(), g@, home_rating, away_rating),
    {
        let ghost ps = self.players_view();
        proof {
            assert(counter_ids(counters_seq(ps)) =~= player_ids(ps));
        }
        let hi = self.find_index(g.home).unwrap();
        let ai = self.find_index(g.away).unwrap();
        self.record_result(hi, g.dato.clone(), home_rating, g.home_win, g.ace);
        let ghost ps1 = self.players_view();
        proof {
            assert(counters_seq(ps1) =~= count_home(counters_seq(ps), g@));
        }
        self.record_result(ai, g.dato.clone(), away_rating, !g.home_win, g.ace);
    }

    /// Plays game `g` through `rater` and records it; the result holds the two new
    /// ratings.
    fn play_game(&mut self, rater: &Rater, g: &Game) -> (r: Ghost<(Rating, Rating)>)
        requires
            old(self).wf(),
            game_fits(counters_seq(old(self).players_view()), g@),
        ensures
            final(self).wf(),
            final(self).last_date_view() == old(self).last_date_view(),
            final(self).players_view() == apply_game(old(self).players_view(), g@, r@.0, r@.1),
            game_rated(*rater, old(self).players_view(), g@, r@.0, r@.1),
    {
        let ghost ps = self.players_view();
        proof {
            assert(counter_ids(counters_seq(ps)) =~= player_ids(ps));
        }
        let hi = self.find_index(g.home).unwrap();
        let ai = self.find_index(g.away).unwrap();
        let away_before = copy_rating(&self.players[ai].rating);
        let home_before = copy_rating(&self.players[hi].rating);
        let home_own = copy_rating(&self.players[hi].rating);
        let new_home = duel_rating(rater, home_own, away_before, g.home_win);
        let away_own = if ai == hi {
            copy_rating(&new_home)
        } else {
            copy_rating(&self.players[ai].rating)
        };
        let new_away = duel_rating(rater, away_own, home_before, !g.home_win);
        let ghost r = (new_home, new_away);
        self.record_game(g, new_home, new_away);
        Ghost(r)
    }

    /// Counts `games`, in order, into the players' standings, each duel rated by
    /// `rater`, and remembers the time of the last one. Each side of each game is rated
    /// against the other's rating from before that game ([`rated_games`]); everything
    /// else follows [`apply_games`].
    pub fn update_new_ratings(&mut self, rater: &Rater, games: &Vec<Game>)
        requires
            old(self).wf(),
            games_fit(counters_seq(old(self).players_view()), games_view(games@)),
        ensures
            final(self).wf(),
            exists|rs: Seq<(Rating, Rating)>|
                rs.len() == games@.len() && rated_games(*rater, old(self).players_view(), games_view(games@), rs)
                    && final(self).players_view() == apply_games(
                    old(self).players_view(),
                    games_view(games@),
                    rs,
                ),
            final(self).last_date_view() == if games@.len() == 0 {
                old(self).last_date_view()
            } else {
                games@.last().dato@
            },
            counters_seq(final(self).players_view()) == count_games(
                counters_seq(old(self).players_view()),
                games_view(games@),
            ),
            all_consistent(old(self).players_view()) ==> all_consistent(final(self).players_view()),
    {
        let ghost ps0 = self.players_view();
        let ghost cs0 = counters_seq(ps0);
        let ghost gv = games_view(games@);
        let ghost mut rs: Seq<(Rating, Rating)> = Seq::empty();
        let n = games.len();
        let mut i: usize = 0;
        while i < n
            invariant
                n == games@.len(),
                gv == games_view(games@),
                0 <= i <= n,
                self.wf(),
                rs.len() == i,
                games_fit(cs0, gv),
                cs0 == counters_seq(ps0),
                self.players_view() == apply_games(ps0, gv.take(i as int), rs),
                rated_games(*rater, ps0, gv.take(i as int), rs),
                counters_seq(self.players_view()) == count_games(cs0, gv.take(i as int)),
                self.last_date_view() == if i == 0 {
                    old(self).last_date_view()
                } else {
                    games@[i - 1].dato@
                },
            decreases n - i,
        {
            let g = &games[i];
            proof {
                lemma_fit_prefix(cs0, gv, i + 1);
                assert(gv.take(i + 1).drop_last() =~= gv.take(i as int));
                assert(gv.take(i + 1).last() == g@);
            }
            let ghost prev = self.players_view();
            proof {
                assert(counter_ids(counters_seq(prev)) =~= player_ids(prev));
            }
            let r = self.play_game(rater, g);
            proof {
                lemma_counters_game(prev, g@, r@.0, r@.1);
                let rs_old = rs;
                rs = rs.push(r@);
                assert(rs.drop_last() =~= rs_old);
            }
            self.last_date = g.dato.clone();
            i = i + 1;
        }
        proof {
            assert(gv.take(n as int) =~= gv);
            if all_consistent(ps0) {
                lemma_games_keep_consistent(ps0, gv, rs);
            }
        }
    }

    /// Whether `games` can be counted: every game's players are known and no counter
    /// leaves its machine type on the way.
    pub fn can_count(&self, games: &Vec<Game>) -> (r: bool)
        requires
            self.wf(),
        ensures
            r == games_fit(counters_seq(self.players_view()), games_view(games@)),
    {
        let ghost cs0 = counters_seq(self.players_view());
        let ghost gv = games_view(games@);
        let mut cs: Vec<Counters> = Vec::new();
        let np = self.players.len();
        for i in 0..np
            invariant
                np == self.players@.len(),
                cs@ == counters_seq(self.players_view()).take(i as int),
        {
            let p = &self.players[i];
            cs.push(
                Counters {
                    id: p.id,
                    streak: p.streak,
                    kampe: p.kampe,
                    vundne: p.vundne,
                    tabte: p.tabte,
                    eggs: p.eggs,
                    aces: p.aces,
                },
            );
            assert(cs@ =~= counters_seq(self.players_view()).take(i + 1));
        }
        assert(cs@ =~= cs0);
        assert(counter_ids(cs0) =~= player_ids(self.players_view()));
        let n = games.len();
        for i in 0..n
            invariant
                n == games@.len(),
                gv == games_view(games@),
                cs0 == counters_seq(self.players_view()),
                distinct(counter_ids(cs0)),
                games_fit(cs0, gv.take(i as int)),
                cs@ == count_games(cs0, gv.take(i as int)),
                counter_ids(cs@) == counter_ids(cs0),
        {
            let g = &games[i];
            let ghost pre = cs@;
            proof {
                assert(gv.take(i + 1).drop_last() =~= gv.take(i as int));
                assert(gv.take(i + 1).last() == g@);
            }
            let hi = match find_counters(&cs, g.home) {
                Some(k) => k,
                None => {
                    proof {
                        lemma_not_fit_extends(cs0, gv, i + 1);
                    }
                    return false;
                },
            };
            let ai = match find_counters(&cs, g.away) {
                Some(k) => k,
                None => {
                    proof {
                        lemma_not_fit_extends(cs0, gv, i + 1);
                    }
                    return false;
                },
            };
            if !result_fits_exec(cs[hi], g.home_win, g.ace) {
                proof {
                    lemma_not_fit_extends(cs0, gv, i + 1);
                }
                return false;
            }
            let h = count_result_exec(cs[hi], g.home_win, g.ace);
            cs.set(hi, h);
            assert(cs@ =~= count_home(pre, g@));
            if !result_fits_exec(cs[ai], !g.home_win, g.ace) {
                proof {
                    lemma_not_fit_extends(cs0, gv, i + 1);
                }
                return false;
            }
            let a = count_result_exec(cs[ai], !g.home_win, g.ace);
            cs.set(ai, a);
            proof {
                assert(cs@ =~= count_game(pre, g@));
                lemma_count_game_ids(pre, g@);
            }
        }
        proof {
            assert(gv.take(n as int) =~= gv);
        }
        true
    }

    /// The sql query that reads the games newer than the last one counted, oldest first.
    pub fn games_query(&self) -> (q: String)
        ensures
            q@ == "SELECT home_id, away_id, home_score, away_score, dato from games WHERE dato > datetime('"@
                + self.last_date_view() + "') order by dato asc"@,
    {
        let mut q = String::from_str(
            "SELECT home_id, away_id, home_score, away_score, dato from games WHERE dato > datetime('",
        );
        q.append(self.last_date.as_str());
        q.append("') order by dato asc");
        q
    }

    /// The positions of the players who have played, in order.
    pub fn active_indices(&self) -> (r: Vec<usize>)
        ensures
            forall|k: int| 0 <= k < r@.len() ==> r@[k] < self.players_view().len() && self.players_view()[r@[k] as int].kampe > 0,
            forall|k: int, l: int| 0 <= k < l < r@.len() ==> r@[k] < r@[l],
            forall|i: int| 0 <= i < self.players_view().len() && self.players_view()[i].kampe > 0 ==> exists|k: int| 0 <= k < r@.len() && r@[k] == i,
    {
        let mut r: Vec<usize> = Vec::new();
        let n = self.players.len();
        for i in 0..n
            invariant
                n == self.players@.len(),
                n == self.players_view().len(),
                forall|k: int| 0 <= k < r@.len() ==> r@[k] < i && self.players_view()[r@[k] as int].kampe > 0,
                forall|k: int, l: int| 0 <= k < l < r@.len() ==> r@[k] < r@[l],
                forall|j: int| 0 <= j < i && self.players_view()[j].kampe > 0 ==> exists|k: int| 0 <= k < r@.len() && r@[k] == j,
        {
            let ghost old_r = r@;
            if self.players[i].kampe > 0 {
                r.push(i);
                assert forall|j: int| 0 <= j < i + 1 && self.players_view()[j].kampe > 0 implies exists|k: int|
                    0 <= k < r@.len() && r@[k] == j by {
                    if j == i {
                        assert(r@[old_r.len() as int] == j);
                    } else {
                        let k = choose|k: int| 0 <= k < old_r.len() && old_r[k] == j;
                        assert(r@[k] == j);
                    }
                }
            }
        }
        r
    }
}

/// Whether one more result keeps the counters `c` in range.
fn result_fits_exec(c: Counters, won: bool, ace: bool) -> (r: bool)
    ensures
        r == result_fits(c, won, ace),
{
    if c.kampe == u32::MAX {
        return false;
    }
    if won && c.vundne == u32::MAX {
        return false;
    }
    if !won && c.tabte == u32::MAX {
        return false;
    }
    if won && c.streak == i16::MAX {
        return false;
    }
    if !won && c.streak == i16::MIN {
        return false;
    }
    if ace && won && c.aces == u32::MAX {
        return false;
    }
    if ace && !won && c.eggs == u32::MAX {
        return false;
    }
    true
}

/// The counters after one result.
fn count_result_exec(c: Counters, won: bool, ace: bool) -> (r: Counters)
    requires
        result_fits(c, won, ace),
    ensures
        r == count_result(c, won, ace),
{
    let streak = if won {
        if c.streak > 0 { c.streak + 1 } else { 1 }
    } else {
        if c.streak < 0 { c.streak - 1 } else { -1 }
    };
    Counters {
        id: c.id,
        streak,
        kampe: c.kampe + 1,
        vundne: if won { c.vundne + 1 } else { c.vundne },
        tabte: if won { c.tabte } else { c.tabte + 1 },
        eggs: if ace && !won { c.eggs + 1 } else { c.eggs },
        aces: if ace && won { c.aces + 1 } else { c.aces },
    }
}

/// The position of the counters with id `id`, if there is one.
fn find_counters(cs: &Vec<Counters>, id: i32) -> (r: Option<usize>)
    requires
        distinct(counter_ids(cs@)),
    ensures
        r is None ==> !has_id(counter_ids(cs@), id),
        r matches Some(k) ==> k < cs@.len() && index_of(counter_ids(cs@), id) == k && has_id(counter_ids(cs@), id),
{
    let ghost ids = counter_ids(cs@);
    let n = cs.len();
    for i in 0..n
        invariant
            n == cs@.len(),
            ids == counter_ids(cs@),
            distinct(ids),
            forall|j: int| 0 <= j < i ==> ids[j] != id,
    {
        if cs[i].id == id {
            proof {
                lemma_index_of(ids, id, i as int);
            }
            return Some(i);
        }
    }
    None
}

proof fn lemma_not_fit_extends(cs: Seq<Counters>, gs: Seq<GameView>, k: int)
    requires
        0 < k <= gs.len(),
        !games_fit(cs, gs.take(k)),
    ensures
        !games_fit(cs, gs),
{
    if games_fit(cs, gs) {
        lemma_fit_prefix(cs, gs, k);
    }
}

/// The position of the player with id `id` in `players`, if there is one.
fn find_player(players: &Vec<PlayerRating>, id: i32) -> (r: Option<usize>)
    requires
        distinct(player_ids(players_view_of(players@))),
    ensures
        r is None ==> !has_id(player_ids(players_view_of(players@)), id),
        r matches Some(k) ==> k < players@.len() && index_of(player_ids(players_view_of(players@)), id) == k
            && has_id(player_ids(players_view_of(players@)), id) && players@[k as int].id == id,
{
    let ghost ids = player_ids(players_view_of(players@));
    let n = players.len();
    for i in 0..n
        invariant
            n == players@.len(),
            ids == player_ids(players_view_of(players@)),
            distinct(ids),
            forall|j: int| 0 <= j < i ==> ids[j] != id,
    {
        if players[i].id == id {
            proof {
                lemma_index_of(ids, id, i as int);
            }
            return Some(i);
        }
    }
    None
}

/// Starts the ratings over: the players are read anew from `rows`, with the rating
/// `initial` and no games, and no game is counted. Sends the visitor to the front page.
pub fn reset(state: &mut RatingState, rows: &Vec<(i32, String)>, initial: &Rating) -> (r: Redirect)
    ensures
        final(state).wf(),
        final(state).players_view() == gen_players(rows_view(rows@), *initial),
        final(state).last_date_view() == INITIAL_DATE_CAP@,
        r.to@ == "/"@,
{
    *state = RatingState::new(rows, initial);
    Redirect { to: String::from_str("/") }
}

} // verus!
