use foosball::filters::{abs_filter, da_genitive_filter, egg_filter};
use foosball::pvp::{pvp, pvp_can_total, PlayedGame};

fn played(home: &str, away: &str, hs: i32, aws: i32) -> PlayedGame {
    PlayedGame {
        home: home.to_string(),
        away: away.to_string(),
        home_score: hs,
        away_score: aws,
        ball: "b.png".to_string(),
        ball_name: "Hvid".to_string(),
        dato: "2024-05-01 12:00:00".to_string(),
    }
}

#[test]
fn head_to_head_totals() {
    // player 1 is Anna, player 2 is Bo
    let games = vec![
        (played("Anna", "Bo", 10, 4), 1),
        (played("Bo", "Anna", 10, 8), 2),
        (played("Bo", "Anna", 3, 10), 2),
    ];
    let ((g1, w1, n1), (g2, w2, n2)) = pvp(1, &games);
    assert_eq!((g1, w1, n1.as_str()), (28, 2, "Anna"));
    assert_eq!((g2, w2, n2.as_str()), (17, 1, "Bo"));
}

#[test]
fn head_to_head_without_games() {
    let ((g1, w1, n1), (g2, w2, n2)) = pvp(1, &vec![]);
    assert_eq!((g1, w1, n1.as_str(), g2, w2, n2.as_str()), (0, 0, "", 0, 0, ""));
}

#[test]
fn egg_for_zero() {
    assert_eq!(egg_filter(0).as_deref(), Some("🥚"));
    assert_eq!(egg_filter(3), None);
    assert_eq!(egg_filter(-1), None);
}

#[test]
fn danish_genitive() {
    assert_eq!(da_genitive_filter("Hans".to_string()), "Hans'");
    assert_eq!(da_genitive_filter("Max".to_string()), "Max'");
    assert_eq!(da_genitive_filter("Fritz".to_string()), "Fritz'");
    assert_eq!(da_genitive_filter("Bo".to_string()), "Bos");
    assert_eq!(da_genitive_filter("".to_string()), "s");
    assert_eq!(da_genitive_filter("Søs".to_string()), "Søs'");
}

#[test]
fn absolute_value() {
    assert_eq!(abs_filter(-7), 7);
    assert_eq!(abs_filter(7), 7);
    assert_eq!(abs_filter(0), 0);
}

#[test]
fn head_to_head_totals_fit() {
    let games = vec![(played("Anna", "Bo", 10, 4), 1), (played("Bo", "Anna", 10, 8), 2)];
    assert!(pvp_can_total(1, &games));
    assert!(pvp_can_total(1, &vec![]));
    let big = vec![(played("Anna", "Bo", i32::MAX, 4), 1), (played("Anna", "Bo", 1, 0), 1)];
    assert!(!pvp_can_total(1, &big));
    let low = vec![(played("Anna", "Bo", i32::MIN, 4), 1), (played("Anna", "Bo", 1, 0), 1)];
    assert!(pvp_can_total(1, &low));
    let ((g1, _, _), (g2, _, _)) = pvp(1, &low);
    assert_eq!((g1, g2), (i32::MIN + 1, 4));
}

#[test]
fn swapping_the_players_swaps_the_sides() {
    let games = vec![
        (played("Anna", "Bo", 10, 4), 1),
        (played("Bo", "Anna", 10, 8), 2),
        (played("Bo", "Anna", 3, 10), 2),
    ];
    let (a, b) = pvp(1, &games);
    let (c, d) = pvp(2, &games);
    assert_eq!(a, d);
    assert_eq!(b, c);
}
