//! Which page answers a request, and where a request is sent on.

use vstd::prelude::*;

verus! {

/// A redirect to `to`.
pub struct Redirect {
    pub to: String,
}

/// What a page is rendered with, besides the league's name, the version and the
/// rows it shows: the current tab and an error message, if any.
pub struct PageContext {
    pub cur: String,
    pub fejl: Option<String>,
}

pub open spec fn fejl_view(f: Option<String>) -> Option<Seq<char>> {
    match f {
        Some(s) => Some(s@),
        None => None,
    }
}

/// A page to render: its template and its context.
pub struct Page {
    pub template: String,
    pub context: PageContext,
}

/// The answer to a request: a page, or a redirect.
pub enum Resp<T> {
    ContRes(T),
    Redirect(Redirect),
}

impl<T> Resp<T> {
    /// Answers with `cont`.
    pub fn cont(cont: T) -> (r: Resp<T>)
        ensures
            r == Resp::ContRes(cont),
    {
        Resp::ContRes(cont)
    }

    /// Answers with the redirect `red`.
    pub fn red(red: Redirect) -> (r: Resp<T>)
        ensures
            r == Resp::<T>::Redirect(red),
    {
        Resp::Redirect(red)
    }
}

/// A ball with the number of games and goals played with it this month.
pub struct Ballstats {
    pub ball_id: i32,
    pub goals: i32,
    pub games: i32,
    pub name: String,
    pub img: String,
}

/// The context of a page under the tab `current_page`, without an error.
pub fn create_context(current_page: &str) -> (c: PageContext)
    ensures
        c.cur@ == current_page@,
        c.fejl is None,
{
    PageContext { cur: String::from_str(current_page), fejl: None }
}

/// The template of the page `page`.
pub open spec fn page_template(page: Seq<char>) -> Seq<char> {
    "pages/"@ + page + ".html"@
}

/// The page `page` with the context `c`.
pub fn respond_page(page: &str, c: PageContext) -> (p: Page)
    ensures
        p.template@ == page_template(page@),
        p.context == c,
{
    let mut template = String::from_str("pages/");
    template.append(page);
    template.append(".html");
    Page { template, context: c }
}

/// Whether `p` is the page `page` under the tab `cur` without an error.
pub open spec fn plain_page(p: Page, page: Seq<char>, cur: Seq<char>) -> bool {
    &&& p.template@ == page_template(page)
    &&& p.context.cur@ == cur
    &&& p.context.fejl is None
}

/// The page for a missing page.
pub fn page_not_found() -> (p: Page)
    ensures
        plain_page(p, "404"@, "404"@),
{
    respond_page("404", create_context("404"))
}

/// The page for a malformed request.
pub fn bad_request() -> (p: Page)
    ensures
        plain_page(p, "400"@, "400"@),
{
    respond_page("400", create_context("400"))
}

/// The page for a failure on the server.
pub fn server_error() -> (p: Page)
    ensures
        plain_page(p, "500"@, "500"@),
{
    respond_page("500", create_context("500"))
}

/// The form for a new ball, shown with the balls there are.
pub fn newball() -> (p: Page)
    ensures
        plain_page(p, "newball"@, "balls"@),
{
    respond_page("newball", create_context("balls"))
}

/// The form for a new player.
pub fn newplayer() -> (p: Page)
    ensures
        plain_page(p, "newplayer"@, "players"@),
{
    respond_page("newplayer", create_context("players"))
}

/// The list of players, shown with the players there are.
pub fn players() -> (p: Page)
    ensures
        plain_page(p, "players"@, "players"@),
{
    respond_page("players", create_context("players"))
}

/// The rating-development page, shown with the score modifiers.
pub fn ratingsdev() -> (p: Page)
    ensures
        plain_page(p, "ratingsdev"@, "analysis"@),
{
    respond_page("ratingsdev", create_context("analysis"))
}

/// The context of the new-game form, shown with the players and balls there are.
pub fn newgame_con() -> (c: PageContext)
    ensures
        c.cur@ == "games"@,
        c.fejl is None,
{
    create_context("games")
}

} // verus!
