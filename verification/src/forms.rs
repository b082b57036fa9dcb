//! The decisions on submitted forms: a new game, a new player, a new ball.

use vstd::prelude::*;
use crate::pages::{create_context, fejl_view, newgame_con, page_template, respond_page, Page, Redirect, Resp};

verus! {

/// The new-game form: home and away player ids, their scores, the ball, and the
/// league's secret as typed.
pub struct NewGame {
    pub home: i32,
    pub away: i32,
    pub home_score: i32,
    pub away_score: i32,
    pub ball: i32,
    pub secret: String,
}

/// A game may be stored when one side scored 10 and the other fewer, neither more
/// than 10, between two different players.
pub open spec fn legal_game(home: i32, away: i32, home_score: i32, away_score: i32) -> bool {
    &&& home_score == 10 || away_score == 10
    &&& home_score != away_score
    &&& home != away
    &&& home_score <= 10
    &&& away_score <= 10
}

/// Whether `p` is the page `page` under the tab `cur` with the error `fejl`.
pub open spec fn error_page(p: Page, page: Seq<char>, cur: Seq<char>, fejl: Seq<char>) -> bool {
    &&& p.template@ == page_template(page)
    &&& p.context.cur@ == cur
    &&& fejl_view(p.context.fejl) == Some(fejl)
}

pub open spec fn wrong_secret_msg() -> Seq<char> {
    "Det indtastede kodeord er forkert 💩"@
}

/// The answer to a submitted game, `secret` being the league's secret. A redirect to
/// the front page means that the game is to be stored; otherwise the form comes back
/// with the reason.
pub fn submit_newgame(f: &NewGame, secret: &String) -> (r: Resp<Page>)
    ensures
        f.secret@ != secret@ ==> (r matches Resp::ContRes(p) && error_page(
            p,
            "newgame_fejl"@,
            "games"@,
            wrong_secret_msg(),
        )),
        f.secret@ == secret@ && !legal_game(f.home, f.away, f.home_score, f.away_score) ==> (
        r matches Resp::ContRes(p) && error_page(
            p,
            "newgame_fejl"@,
            "games"@,
            "Den indtastede kamp er ikke lovlig 😜"@,
        )),
        f.secret@ == secret@ && legal_game(f.home, f.away, f.home_score, f.away_score) ==> (
        r matches Resp::Redirect(red) && red.to@ == "/"@),
        f.secret@ == secret@ && f.home != f.away && ((f.home_score == 10 && f.away_score < 10) || (
        f.away_score == 10 && f.home_score < 10)) ==> (r matches Resp::Redirect(red) && red.to@ == "/"@),
{
    proof {
        lemma_legal_game_exactly(f.home, f.away, f.home_score, f.away_score);
    }
    if f.secret != *secret {
        let mut context = newgame_con();
        context.fejl = Some(String::from_str("Det indtastede kodeord er forkert 💩"));
        return Resp::cont(respond_page("newgame_fejl", context));
    }
    if !(f.home_score == 10 || f.away_score == 10) || f.home_score == f.away_score || f.home == f.away
        || f.home_score > 10 || f.away_score > 10 {
        let mut context = newgame_con();
        context.fejl = Some(String::from_str("Den indtastede kamp er ikke lovlig 😜"));
        return Resp::cont(respond_page("newgame_fejl", context));
    }
    Resp::red(Redirect { to: String::from_str("/") })
}

/// One step in handling a submitted player or ball: show a page, store the new row,
/// or, once it is stored, start the ratings over and send the visitor on.
pub enum SubmitStep {
    Show(Page),
    Insert,
    ResetAndRedirect(Redirect),
}

/// The new-player form.
pub struct NewPlayerQuery {
    pub name: String,
    pub secret: String,
}

/// The new-ball form: the ball's name and picture.
pub struct NewBallQuery {
    pub name: String,
    pub img: String,
    pub secret: String,
}

/// Whether `r` answers a submitted name under the tab `cur` with the error page
/// `page`: a wrong secret and an empty name are refused with `bad_name`; before the
/// row is stored (`inserted` is `None`) the answer is to store it; a store that
/// added no row is refused with `exists`; otherwise the ratings start over and the
/// visitor goes to the front page.
pub open spec fn submit_answer(
    r: SubmitStep,
    name: Seq<char>,
    typed: Seq<char>,
    secret: Seq<char>,
    inserted: Option<usize>,
    cur: Seq<char>,
    page: Seq<char>,
    bad_name: Seq<char>,
    exists: Seq<char>,
) -> bool {
    if typed != secret {
        r matches SubmitStep::Show(p) && error_page(p, page, cur, wrong_secret_msg())
    } else if name.len() == 0 {
        r matches SubmitStep::Show(p) && error_page(p, page, cur, bad_name)
    } else {
        match inserted {
            None => r is Insert,
            Some(n) => if n == 0 {
                r matches SubmitStep::Show(p) && error_page(p, page, cur, exists)
            } else {
                r matches SubmitStep::ResetAndRedirect(red) && red.to@ == "/"@
            },
        }
    }
}

fn submit_named(
    name: &String,
    typed: &String,
    secret: &String,
    inserted: Option<usize>,
    cur: &str,
    page: &str,
    bad_name: &str,
    exists: &str,
) -> (r: SubmitStep)
    ensures
        submit_answer(r, name@, typed@, secret@, inserted, cur@, page@, bad_name@, exists@),
{
    let mut context = create_context(cur);
    if *typed != *secret {
        context.fejl = Some(String::from_str("Det indtastede kodeord er forkert 💩"));
    } else if name.as_str().is_empty() {
        context.fejl = Some(String::from_str(bad_name));
    } else {
        match inserted {
            None => {
                return SubmitStep::Insert;
            },
            Some(n) => {
                if n == 0 {
                    context.fejl = Some(String::from_str(exists));
                } else {
                    return SubmitStep::ResetAndRedirect(Redirect { to: String::from_str("/") });
                }
            },
        }
    }
    SubmitStep::Show(respond_page(page, context))
}

/// The next step for a submitted player, `secret` being the league's secret and
/// `inserted` the number of rows the store added, once it was tried.
pub fn submit_newplayer(f: &NewPlayerQuery, secret: &String, inserted: Option<usize>) -> (r: SubmitStep)
    ensures
        submit_answer(
            r,
            f.name@,
            f.secret@,
            secret@,
            inserted,
            "players"@,
            "newplayer_fejl"@,
            "Den indtastede spiller er ikke lovlig 😜"@,
            "Den indtastede spiller eksisterer allerede 💩"@,
        ),
{
    submit_named(
        &f.name,
        &f.secret,
        secret,
        inserted,
        "players",
        "newplayer_fejl",
        "Den indtastede spiller er ikke lovlig 😜",
        "Den indtastede spiller eksisterer allerede 💩",
    )
}

/// The next step for a submitted ball, `secret` being the league's secret and
/// `inserted` the number of rows the store added, once it was tried.
pub fn submit_newball(f: &NewBallQuery, secret: &String, inserted: Option<usize>) -> (r: SubmitStep)
    ensures
        submit_answer(
            r,
            f.name@,
            f.secret@,
            secret@,
            inserted,
            "balls"@,
            "newball_fejl"@,
            "Den indtastede bold er ikke lovlig 😜"@,
            "Den indtastede bold eksisterer allerede 💩"@,
        ),
{
    submit_named(
        &f.name,
        &f.secret,
        secret,
        inserted,
        "balls",
        "newball_fejl",
        "Den indtastede bold er ikke lovlig 😜",
        "Den indtastede bold eksisterer allerede 💩",
    )
}

/// Law: a game is let through exactly when the two players differ and one side scored
/// 10 while the other scored any number below 10 (0 to 9 included).
pub proof fn lemma_legal_game_exactly(home: i32, away: i32, home_score: i32, away_score: i32)
    ensures
        legal_game(home, away, home_score, away_score) <==> (home != away && ((home_score == 10
            && away_score < 10) || (away_score == 10 && home_score < 10))),
{
}

/// Law: every win of 10 against 0 to 9, home or away, between two players is a legal game.
pub proof fn lemma_ten_to_fewer_is_legal(home: i32, away: i32, loser_score: i32)
    requires
        home != away,
        0 <= loser_score <= 9,
    ensures
        legal_game(home, away, 10, loser_score),
        legal_game(home, away, loser_score, 10),
{
}

/// Law: a game that is let through has exactly one winner, who scored 10, and two
/// different players.
pub proof fn lemma_legal_game_has_one_winner(home: i32, away: i32, home_score: i32, away_score: i32)
    requires
        legal_game(home, away, home_score, away_score),
    ensures
        home != away,
        (home_score == 10 && away_score < 10) || (away_score == 10 && home_score < 10),
{
}

} // verus!
