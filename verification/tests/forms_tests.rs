use foosball::forms::{submit_newball, submit_newgame, submit_newplayer, NewBallQuery, NewGame, NewPlayerQuery, SubmitStep};
use foosball::pages::Resp;

fn game(home: i32, away: i32, hs: i32, aws: i32, secret: &str) -> NewGame {
    NewGame { home, away, home_score: hs, away_score: aws, ball: 1, secret: secret.to_string() }
}

fn rejected_with(r: Resp<foosball::pages::Page>, msg: &str) {
    match r {
        Resp::ContRes(p) => {
            assert_eq!(p.template, "pages/newgame_fejl.html");
            assert_eq!(p.context.cur, "games");
            assert_eq!(p.context.fejl.as_deref(), Some(msg));
        }
        Resp::Redirect(_) => panic!("expected a refusal"),
    }
}

#[test]
fn wrong_secret_refuses_the_game() {
    rejected_with(submit_newgame(&game(1, 2, 10, 5, "nope"), &"hemmelig".to_string()), "Det indtastede kodeord er forkert 💩");
}

#[test]
fn illegal_games_are_refused() {
    let secret = "hemmelig".to_string();
    let msg = "Den indtastede kamp er ikke lovlig 😜";
    rejected_with(submit_newgame(&game(1, 2, 10, 10, "hemmelig"), &secret), msg);
    rejected_with(submit_newgame(&game(1, 2, 9, 8, "hemmelig"), &secret), msg);
    rejected_with(submit_newgame(&game(1, 2, 11, 10, "hemmelig"), &secret), msg);
    rejected_with(submit_newgame(&game(1, 1, 10, 3, "hemmelig"), &secret), msg);
}

#[test]
fn legal_games_are_stored() {
    let secret = "hemmelig".to_string();
    for g in [game(1, 2, 10, 0, "hemmelig"), game(2, 1, 9, 10, "hemmelig"), game(3, 4, 10, -2, "hemmelig")] {
        match submit_newgame(&g, &secret) {
            Resp::Redirect(r) => assert_eq!(r.to, "/"),
            Resp::ContRes(_) => panic!("expected the game to be stored"),
        }
    }
}

fn shown(step: SubmitStep, template: &str, cur: &str, msg: &str) {
    match step {
        SubmitStep::Show(p) => {
            assert_eq!(p.template, template);
            assert_eq!(p.context.cur, cur);
            assert_eq!(p.context.fejl.as_deref(), Some(msg));
        }
        _ => panic!("expected a page"),
    }
}

#[test]
fn new_player_steps() {
    let secret = "hemmelig".to_string();
    let q = NewPlayerQuery { name: "Anna".to_string(), secret: "forkert".to_string() };
    shown(submit_newplayer(&q, &secret, None), "pages/newplayer_fejl.html", "players", "Det indtastede kodeord er forkert 💩");
    let q = NewPlayerQuery { name: "".to_string(), secret: "hemmelig".to_string() };
    shown(submit_newplayer(&q, &secret, None), "pages/newplayer_fejl.html", "players", "Den indtastede spiller er ikke lovlig 😜");
    let q = NewPlayerQuery { name: "Anna".to_string(), secret: "hemmelig".to_string() };
    assert!(matches!(submit_newplayer(&q, &secret, None), SubmitStep::Insert));
    shown(submit_newplayer(&q, &secret, Some(0)), "pages/newplayer_fejl.html", "players", "Den indtastede spiller eksisterer allerede 💩");
    match submit_newplayer(&q, &secret, Some(1)) {
        SubmitStep::ResetAndRedirect(r) => assert_eq!(r.to, "/"),
        _ => panic!("expected a redirect"),
    }
}

#[test]
fn new_ball_steps() {
    let secret = "hemmelig".to_string();
    let q = NewBallQuery { name: "Rød".to_string(), img: "roed.png".to_string(), secret: "x".to_string() };
    shown(submit_newball(&q, &secret, None), "pages/newball_fejl.html", "balls", "Det indtastede kodeord er forkert 💩");
    let q = NewBallQuery { name: "".to_string(), img: "roed.png".to_string(), secret: "hemmelig".to_string() };
    shown(submit_newball(&q, &secret, None), "pages/newball_fejl.html", "balls", "Den indtastede bold er ikke lovlig 😜");
    let q = NewBallQuery { name: "Rød".to_string(), img: "roed.png".to_string(), secret: "hemmelig".to_string() };
    assert!(matches!(submit_newball(&q, &secret, None), SubmitStep::Insert));
    shown(submit_newball(&q, &secret, Some(0)), "pages/newball_fejl.html", "balls", "Den indtastede bold eksisterer allerede 💩");
    assert!(matches!(submit_newball(&q, &secret, Some(1)), SubmitStep::ResetAndRedirect(_)));
}
