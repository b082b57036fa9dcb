# foosball

A foosball league: players, games, balls, Bayesian ratings (through the `bbt`
crate), streaks, aces and eggs, head-to-head statistics and a table of how each
player's score developed.

- `src/` is the verified library (Verus):
  - `player` – one player's standing and how a game changes it;
  - `ratings` – the league's rating state, counting games in order, and the laws
    that hold of it (counters stay consistent, batches compose, every game counts
    for both players);
  - `tsv` and `bytes_order` – the rating-development table and the byte order its
    rows are sorted by;
  - `pvp` – head-to-head totals;
  - `forms` – the decisions on submitted games, players and balls;
  - `pages` – which page answers a request;
  - `filters` – the template filters;
  - `bbt_glue` – the calls into `bbt`.
- `app/` is the web server around it (rocket, SQLite through rusqlite and diesel,
  tera templates, the TOML configuration). Scores are floating-point and are
  computed there from the snapshots the library keeps.
- `tests/` runs the library on concrete leagues.
