use bbt::{Rater, Rating};
use foosball::player::PlayerRating;

fn rater() -> Rater {
    Rater::new(5000.0 / 6.0)
}

fn start() -> Rating {
    Rating::new(5000.0, 5000.0 / 3.0)
}

#[test]
fn new_player_has_no_games() {
    let p = PlayerRating::new(7, "Anna".to_string(), start());
    assert_eq!(p.id, 7);
    assert_eq!(p.name, "Anna");
    assert_eq!(p.kampe, 0);
    assert_eq!(p.vundne, 0);
    assert_eq!(p.tabte, 0);
    assert_eq!(p.eggs, 0);
    assert_eq!(p.aces, 0);
    assert_eq!(p.streak, 0);
    assert!(p.score_history.is_empty());
    assert!(p.rating == start());
}

#[test]
fn streak_follows_the_results() {
    let mut p = PlayerRating::new(1, "Bo".to_string(), start());
    p.mod_streak(true);
    assert_eq!(p.streak, 1);
    p.mod_streak(true);
    assert_eq!(p.streak, 2);
    p.mod_streak(true);
    assert_eq!(p.streak, 3);
    p.mod_streak(false);
    assert_eq!(p.streak, -1);
    p.mod_streak(false);
    assert_eq!(p.streak, -2);
    p.mod_streak(true);
    assert_eq!(p.streak, 1);
}

#[test]
fn streak_starts_from_zero_either_way() {
    let mut p = PlayerRating::new(1, "Bo".to_string(), start());
    p.mod_streak(false);
    assert_eq!(p.streak, -1);
    let mut q = PlayerRating::new(2, "Cy".to_string(), start());
    q.mod_streak(true);
    assert_eq!(q.streak, 1);
}

#[test]
fn record_duel_updates_counters_and_history() {
    let mut p = PlayerRating::new(1, "Anna".to_string(), start());
    let after = Rating::new(5100.0, 1600.0);
    p.record_duel("2024-05-01 12:00:00".to_string(), after.clone(), true);
    assert_eq!(p.kampe, 1);
    assert_eq!(p.vundne, 1);
    assert_eq!(p.tabte, 0);
    assert_eq!(p.streak, 1);
    assert!(p.rating == after);
    assert_eq!(p.score_history.len(), 1);
    assert_eq!(p.score_history[0].0, "2024-05-01 12:00:00");
    assert!(p.score_history[0].1.rating == after);
    assert_eq!(p.score_history[0].1.streak, 1);
    assert_eq!(p.score_history[0].1.aces, 0);

    p.record_duel("2024-05-02 12:00:00".to_string(), Rating::new(5050.0, 1500.0), false);
    assert_eq!(p.kampe, 2);
    assert_eq!(p.vundne, 1);
    assert_eq!(p.tabte, 1);
    assert_eq!(p.streak, -1);
    assert_eq!(p.score_history.len(), 2);
    assert_eq!(p.score_history[1].1.streak, -1);
}

#[test]
fn duel_moves_the_rating_with_the_result() {
    let r = rater();
    let mut winner = PlayerRating::new(1, "Anna".to_string(), start());
    let mut loser = PlayerRating::new(2, "Bo".to_string(), start());
    winner.duel(&r, "2024-05-01 12:00:00".to_string(), start(), true);
    loser.duel(&r, "2024-05-01 12:00:00".to_string(), start(), false);
    assert!(winner.rating.mu() > 5000.0);
    assert!(loser.rating.mu() < 5000.0);
    assert!(winner.rating.sigma() < 5000.0 / 3.0);
    assert_eq!(winner.kampe, 1);
    assert_eq!(loser.tabte, 1);
}

#[test]
fn duel_keeps_the_new_rating_in_the_history() {
    let r = rater();
    let mut p = PlayerRating::new(1, "Anna".to_string(), start());
    p.duel(&r, "2024-05-01 12:00:00".to_string(), Rating::new(5200.0, 1000.0), true);
    assert!(p.score_history[0].1.rating == p.rating);
    assert!(!(p.rating == start()));
}
