use foosball::tsv::{developmenttsv, TsvColumn};

fn col(name: &str, entries: &[(&str, &str)]) -> TsvColumn {
    TsvColumn {
        name: name.to_string(),
        entries: entries.iter().map(|(d, c)| (d.to_string(), c.to_string())).collect(),
    }
}

#[test]
fn table_carries_scores_forward() {
    let cols = vec![
        col("Anna", &[("2024-05-01 12:00:00", "5012.3"), ("2024-05-03 09:30:00", "4990.1")]),
        col("Bo", &[("2024-05-02 18:45:10", "5100.0")]),
    ];
    let out = developmenttsv(&cols).0;
    assert_eq!(
        String::from_utf8(out).unwrap(),
        "date\tAnna\tBo\n20240501T12:00\t5012.3\t0.0\n20240502T18:45\t5012.3\t5100.0\n20240503T09:30\t4990.1\t5100.0\n"
    );
}

#[test]
fn shared_game_time_is_one_row() {
    let cols = vec![
        col("Anna", &[("2024-05-01 12:00:00", "5012.3")]),
        col("Bo", &[("2024-05-01 12:00:00", "4987.7")]),
    ];
    let out = developmenttsv(&cols).0;
    assert_eq!(String::from_utf8(out).unwrap(), "date\tAnna\tBo\n20240501T12:00\t5012.3\t4987.7\n");
}

#[test]
fn later_entry_at_the_same_time_wins() {
    let cols = vec![col("Anna", &[("2024-05-01 12:00:00", "1.0"), ("2024-05-01 12:00:00", "2.0")])];
    let out = developmenttsv(&cols).0;
    assert_eq!(String::from_utf8(out).unwrap(), "date\tAnna\n20240501T12:00\t2.0\n");
}

#[test]
fn rows_are_sorted_whatever_the_column_order() {
    let cols = vec![
        col("Bo", &[("2024-06-02 10:00:00", "3.0")]),
        col("Anna", &[("2024-06-01 10:00:00", "1.0"), ("2024-06-03 10:00:00", "2.0")]),
    ];
    let out = developmenttsv(&cols).0;
    assert_eq!(
        String::from_utf8(out).unwrap(),
        "date\tBo\tAnna\n20240601T10:00\t0.0\t1.0\n20240602T10:00\t3.0\t1.0\n20240603T10:00\t3.0\t2.0\n"
    );
}

#[test]
fn empty_table_gives_the_placeholder() {
    let out = developmenttsv(&vec![]).0;
    assert_eq!(String::from_utf8(out).unwrap(), "date\tNoone\n20190101T00:00\t0.0");
}

#[test]
fn player_without_entries_shows_zero() {
    let cols = vec![col("Anna", &[("2024-05-01 12:00:00", "7.5")]), col("Bo", &[])];
    let out = developmenttsv(&cols).0;
    assert_eq!(String::from_utf8(out).unwrap(), "date\tAnna\tBo\n20240501T12:00\t7.5\t0.0\n");
}
