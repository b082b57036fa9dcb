use bbt::{Rater, Rating};
use foosball::ratings::{reset, Game, RatingState, INITIAL_DATE_CAP};

fn rater() -> Rater {
    Rater::new(5000.0 / 6.0)
}

fn start() -> Rating {
    Rating::new(5000.0, 5000.0 / 3.0)
}

fn rows() -> Vec<(i32, String)> {
    vec![(1, "Anna".to_string()), (2, "Bo".to_string()), (3, "Cy".to_string())]
}

#[test]
fn game_from_row_reads_the_result() {
    let g = Game::from_row(1, 2, 10, 0, "2024-05-01 12:00:00".to_string());
    assert!(g.ace);
    assert!(g.home_win);
    let g = Game::from_row(1, 2, 7, 10, "2024-05-01 12:00:00".to_string());
    assert!(!g.ace);
    assert!(!g.home_win);
    let g = Game::from_row(1, 2, 0, 10, "x".to_string());
    assert!(g.ace);
    assert!(!g.home_win);
    assert_eq!(g.home, 1);
    assert_eq!(g.away, 2);
    assert_eq!(g.dato, "x");
}

#[test]
fn new_state_reads_players_and_starts_the_month() {
    let s = RatingState::new(&vec![(1, "Anna".to_string()), (2, "Bo".to_string()), (1, "Anne".to_string())], &start());
    assert_eq!(s.players().len(), 2);
    assert_eq!(s.players()[0].id, 1);
    assert_eq!(s.players()[0].name, "Anne");
    assert_eq!(s.players()[1].id, 2);
    assert_eq!(s.players()[1].name, "Bo");
    assert!(s.players().iter().all(|p| p.kampe == 0 && p.rating == start()));
    assert_eq!(s.last_date(), INITIAL_DATE_CAP);
    assert_eq!(s.last_date(), "now','start of month");
}

#[test]
fn games_query_starts_after_the_last_game() {
    let s = RatingState::new(&rows(), &start());
    assert_eq!(
        s.games_query(),
        "SELECT home_id, away_id, home_score, away_score, dato from games WHERE dato > datetime('now','start of month') order by dato asc"
    );
}

#[test]
fn update_counts_games_aces_and_eggs() {
    let mut s = RatingState::new(&rows(), &start());
    let games = vec![
        Game::from_row(1, 2, 10, 0, "2024-05-01 12:00:00".to_string()),
        Game::from_row(2, 1, 10, 7, "2024-05-02 12:00:00".to_string()),
    ];
    s.update_new_ratings(&rater(), &games);
    let anna = &s.players()[0];
    let bo = &s.players()[1];
    let cy = &s.players()[2];
    assert_eq!((anna.kampe, anna.vundne, anna.tabte, anna.aces, anna.eggs, anna.streak), (2, 1, 1, 1, 0, -1));
    assert_eq!((bo.kampe, bo.vundne, bo.tabte, bo.aces, bo.eggs, bo.streak), (2, 1, 1, 0, 1, 1));
    assert_eq!(cy.kampe, 0);
    assert!(cy.rating == start());
    assert_eq!(s.last_date(), "2024-05-02 12:00:00");
    assert_eq!(anna.score_history.len(), 2);
    assert_eq!(anna.score_history[0].0, "2024-05-01 12:00:00");
    assert_eq!(anna.score_history[1].0, "2024-05-02 12:00:00");
    // the snapshot of the ace game is taken before the ace is counted
    assert_eq!(anna.score_history[0].1.aces, 0);
    assert_eq!(anna.score_history[1].1.aces, 1);
    assert_eq!(bo.score_history[1].1.eggs, 1);
    assert!(anna.score_history[1].1.rating == anna.rating);
    assert_eq!(
        s.games_query(),
        "SELECT home_id, away_id, home_score, away_score, dato from games WHERE dato > datetime('2024-05-02 12:00:00') order by dato asc"
    );
}

#[test]
fn update_with_no_games_changes_nothing() {
    let mut s = RatingState::new(&rows(), &start());
    s.update_new_ratings(&rater(), &vec![]);
    assert_eq!(s.last_date(), "now','start of month");
    assert!(s.players().iter().all(|p| p.kampe == 0));
}

#[test]
fn winner_rating_rises_through_the_rater() {
    let mut s = RatingState::new(&rows(), &start());
    s.update_new_ratings(&rater(), &vec![Game::from_row(3, 2, 10, 4, "2024-05-03 08:00:00".to_string())]);
    assert!(s.players()[2].rating.mu() > 5000.0);
    assert!(s.players()[1].rating.mu() < 5000.0);
}

#[test]
fn record_game_takes_the_given_ratings() {
    let mut s = RatingState::new(&rows(), &start());
    let g = Game::from_row(1, 3, 4, 10, "2024-05-04 10:00:00".to_string());
    s.record_game(&g, Rating::new(4900.0, 1500.0), Rating::new(5100.0, 1500.0));
    assert!(s.players()[0].rating == Rating::new(4900.0, 1500.0));
    assert!(s.players()[2].rating == Rating::new(5100.0, 1500.0));
    assert_eq!(s.players()[0].tabte, 1);
    assert_eq!(s.players()[2].vundne, 1);
    assert_eq!(s.players()[0].eggs, 0);
    assert_eq!(s.last_date(), "now','start of month");
}

#[test]
fn game_against_oneself_counts_twice() {
    let mut s = RatingState::new(&rows(), &start());
    s.update_new_ratings(&rater(), &vec![Game::from_row(2, 2, 10, 3, "2024-05-05 10:00:00".to_string())]);
    let bo = &s.players()[1];
    assert_eq!(bo.kampe, 2);
    assert_eq!(bo.vundne, 1);
    assert_eq!(bo.tabte, 1);
    assert_eq!(bo.streak, -1);
    assert_eq!(bo.score_history.len(), 2);
}

#[test]
fn active_indices_skip_players_without_games() {
    let mut s = RatingState::new(&rows(), &start());
    s.update_new_ratings(&rater(), &vec![Game::from_row(3, 1, 10, 2, "2024-05-06 10:00:00".to_string())]);
    assert_eq!(s.active_indices(), vec![0, 2]);
}

#[test]
fn reset_starts_over() {
    let mut s = RatingState::new(&rows(), &start());
    s.update_new_ratings(&rater(), &vec![Game::from_row(3, 1, 10, 2, "2024-05-06 10:00:00".to_string())]);
    let red = reset(&mut s, &vec![(5, "Dan".to_string())], &start());
    assert_eq!(red.to, "/");
    assert_eq!(s.players().len(), 1);
    assert_eq!(s.players()[0].id, 5);
    assert_eq!(s.players()[0].kampe, 0);
    assert_eq!(s.last_date(), "now','start of month");
    assert!(s.active_indices().is_empty());
}

#[test]
fn incremental_updates_match_one_update() {
    let games = vec![
        Game::from_row(1, 2, 10, 0, "2024-05-01 12:00:00".to_string()),
        Game::from_row(2, 3, 6, 10, "2024-05-02 12:00:00".to_string()),
        Game::from_row(3, 1, 10, 9, "2024-05-03 12:00:00".to_string()),
    ];
    let mut once = RatingState::new(&rows(), &start());
    once.update_new_ratings(&rater(), &games);
    let mut twice = RatingState::new(&rows(), &start());
    twice.update_new_ratings(&rater(), &vec![Game::from_row(1, 2, 10, 0, "2024-05-01 12:00:00".to_string())]);
    twice.update_new_ratings(
        &rater(),
        &vec![
            Game::from_row(2, 3, 6, 10, "2024-05-02 12:00:00".to_string()),
            Game::from_row(3, 1, 10, 9, "2024-05-03 12:00:00".to_string()),
        ],
    );
    for i in 0..3 {
        let a = &once.players()[i];
        let b = &twice.players()[i];
        assert_eq!((a.kampe, a.vundne, a.tabte, a.aces, a.eggs, a.streak), (b.kampe, b.vundne, b.tabte, b.aces, b.eggs, b.streak));
        assert!(a.rating == b.rating);
    }
    assert_eq!(once.last_date(), twice.last_date());
}

#[test]
fn can_count_needs_known_players() {
    let s = RatingState::new(&rows(), &start());
    assert!(s.can_count(&vec![Game::from_row(1, 2, 10, 3, "2024-05-01 12:00:00".to_string())]));
    assert!(!s.can_count(&vec![Game::from_row(1, 9, 10, 3, "2024-05-01 12:00:00".to_string())]));
    assert!(!s.can_count(&vec![Game::from_row(9, 1, 10, 3, "2024-05-01 12:00:00".to_string())]));
    assert!(s.can_count(&vec![]));
}

#[test]
fn can_count_stops_at_the_longest_streak() {
    let mut s = RatingState::new(&rows(), &start());
    let wins: Vec<Game> = (0..32767).map(|_| Game::from_row(1, 2, 10, 5, "2024-05-01 12:00:00".to_string())).collect();
    assert!(s.can_count(&wins));
    s.update_new_ratings(&rater(), &wins);
    assert_eq!(s.players()[0].streak, 32767);
    assert_eq!(s.players()[1].streak, -32767);
    assert!(!s.can_count(&vec![Game::from_row(1, 2, 10, 5, "2024-05-02 12:00:00".to_string())]));
    assert!(s.can_count(&vec![Game::from_row(1, 2, 5, 10, "2024-05-02 12:00:00".to_string())]));
}

#[test]
fn each_side_is_rated_against_the_other_before_the_game() {
    let r = rater();
    let mut s = RatingState::new(&rows(), &start());
    s.update_new_ratings(&r, &vec![Game::from_row(1, 2, 10, 3, "2024-05-01 12:00:00".to_string())]);
    let (h0, a0) = (s.players()[0].rating.clone(), s.players()[1].rating.clone());
    s.update_new_ratings(&r, &vec![Game::from_row(2, 1, 10, 6, "2024-05-02 12:00:00".to_string())]);
    let expected_home = r.duel(a0.clone(), h0.clone(), bbt::Outcome::Win).0;
    let expected_away = r.duel(h0, a0, bbt::Outcome::Loss).0;
    assert!(s.players()[1].rating == expected_home);
    assert!(s.players()[0].rating == expected_away);
}

#[test]
fn total_wins_equal_total_losses() {
    let mut s = RatingState::new(&rows(), &start());
    s.update_new_ratings(
        &rater(),
        &vec![
            Game::from_row(1, 2, 10, 0, "2024-05-01 12:00:00".to_string()),
            Game::from_row(3, 3, 10, 2, "2024-05-02 12:00:00".to_string()),
            Game::from_row(2, 3, 6, 10, "2024-05-03 12:00:00".to_string()),
        ],
    );
    let wins: u32 = s.players().iter().map(|p| p.vundne).sum();
    let losses: u32 = s.players().iter().map(|p| p.tabte).sum();
    assert_eq!((wins, losses), (3, 3));
}
