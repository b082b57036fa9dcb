use foosball::pages::{
    bad_request, create_context, newball, newgame_con, newplayer, page_not_found, players, ratingsdev,
    respond_page, server_error, Redirect, Resp,
};

#[test]
fn error_pages() {
    let p = page_not_found();
    assert_eq!(p.template, "pages/404.html");
    assert_eq!(p.context.cur, "404");
    assert!(p.context.fejl.is_none());
    assert_eq!(bad_request().template, "pages/400.html");
    assert_eq!(bad_request().context.cur, "400");
    assert_eq!(server_error().template, "pages/500.html");
    assert_eq!(server_error().context.cur, "500");
}

#[test]
fn form_and_list_pages() {
    assert_eq!(newball().template, "pages/newball.html");
    assert_eq!(newball().context.cur, "balls");
    assert_eq!(newplayer().template, "pages/newplayer.html");
    assert_eq!(newplayer().context.cur, "players");
    assert_eq!(players().template, "pages/players.html");
    assert_eq!(players().context.cur, "players");
    assert_eq!(ratingsdev().template, "pages/ratingsdev.html");
    assert_eq!(ratingsdev().context.cur, "analysis");
    assert_eq!(newgame_con().cur, "games");
    assert!(newgame_con().fejl.is_none());
}

#[test]
fn respond_page_names_the_template() {
    let p = respond_page("games", create_context("games"));
    assert_eq!(p.template, "pages/games.html");
    assert_eq!(p.context.cur, "games");
}

#[test]
fn resp_constructors() {
    match Resp::cont(3) {
        Resp::ContRes(x) => assert_eq!(x, 3),
        Resp::Redirect(_) => panic!("expected a page"),
    }
    match Resp::<i32>::red(Redirect { to: "/".to_string() }) {
        Resp::Redirect(r) => assert_eq!(r.to, "/"),
        Resp::ContRes(_) => panic!("expected a redirect"),
    }
}
