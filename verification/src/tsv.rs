//! The rating-development table: one row per game time, one column per player who
//! has played, each cell the player's score as of that time.

use vstd::prelude::*;
use vstd::utf8::encode_utf8;
use crate::bytes_order::{
    bytes_eq, bytes_lt, lemma_lex_transitive, lemma_lex_trichotomy, lemma_sorted_unique, lex_lt,
    strictly_sorted,
};

verus! {

/// A body sent as tab-separated values.
pub struct RawTextTsv<R>(pub R);

/// One column of the table: a player's name and, per game, the game's time and the
/// player's score after it, as text.
pub struct TsvColumn {
    pub name: String,
    pub entries: Vec<(String, String)>,
}

pub open spec fn name_bytes(c: TsvColumn) -> Seq<u8> {
    encode_utf8(c.name@)
}

pub open spec fn entry_date(c: TsvColumn, k: int) -> Seq<u8> {
    encode_utf8(c.entries@[k].0@)
}

pub open spec fn entry_cell(c: TsvColumn, k: int) -> Seq<u8> {
    encode_utf8(c.entries@[k].1@)
}

/// Whether `d` is the time of some entry.
pub open spec fn is_date_of(cols: Seq<TsvColumn>, d: Seq<u8>) -> bool {
    exists|p: int, k: int|
        0 <= p < cols.len() && 0 <= k < cols[p].entries@.len() && entry_date(cols[p], k) == d
}

/// Whether `rows` lists every entry time exactly once, in increasing order.
pub open spec fn date_rows(cols: Seq<TsvColumn>, rows: Seq<Seq<u8>>) -> bool {
    &&& forall|i: int, j: int| 0 <= i < j < rows.len() ==> lex_lt(rows[i], rows[j])
    &&& forall|i: int| 0 <= i < rows.len() ==> is_date_of(cols, #[trigger] rows[i])
    &&& forall|p: int, k: int|
        0 <= p < cols.len() && 0 <= k < cols[p].entries@.len() ==> rows.contains(
            #[trigger] entry_date(cols[p], k),
        )
}

/// The time each row refers to, rows being given as (column, entry) positions.
pub open spec fn rows_bytes(cols: Seq<TsvColumn>, rows: Seq<(usize, usize)>) -> Seq<Seq<u8>> {
    rows.map_values(|x: (usize, usize)| entry_date(cols[x.0 as int], x.1 as int))
}

pub open spec fn valid_positions(cols: Seq<TsvColumn>, rows: Seq<(usize, usize)>) -> bool {
    forall|i: int|
        0 <= i < rows.len() ==> (#[trigger] rows[i]).0 < cols.len() && rows[i].1 < cols[rows[i].0 as int].entries@.len()
}

/// Law: the rows of the table are determined by the columns: only one sequence lists
/// every entry time once in increasing order.
pub proof fn lemma_date_rows_unique(cols: Seq<TsvColumn>, a: Seq<Seq<u8>>, b: Seq<Seq<u8>>)
    requires
        date_rows(cols, a),
        date_rows(cols, b),
    ensures
        a == b,
{
    assert forall|x: Seq<u8>| a.contains(x) <==> b.contains(x) by {
        if a.contains(x) {
            let i = choose|i: int| 0 <= i < a.len() && a[i] == x;
            assert(is_date_of(cols, a[i]));
            let (p, k) = choose|p: int, k: int|
                0 <= p < cols.len() && 0 <= k < cols[p].entries@.len() && entry_date(cols[p], k) == x;
            assert(b.contains(entry_date(cols[p], k)));
        }
        if b.contains(x) {
            let i = choose|i: int| 0 <= i < b.len() && b[i] == x;
            assert(is_date_of(cols, b[i]));
            let (p, k) = choose|p: int, k: int|
                0 <= p < cols.len() && 0 <= k < cols[p].entries@.len() && entry_date(cols[p], k) == x;
            assert(a.contains(entry_date(cols[p], k)));
        }
    }
    assert(strictly_sorted(a));
    assert(strictly_sorted(b));
    lemma_sorted_unique(a, b);
}

proof fn lemma_insert_contains(s: Seq<Seq<u8>>, j: int, d: Seq<u8>, x: Seq<u8>)
    requires
        0 <= j <= s.len(),
        s.contains(x),
    ensures
        s.insert(j, d).contains(x),
{
    s.insert_ensures(j, d);
    let i = choose|i: int| 0 <= i < s.len() && s[i] == x;
    if i < j {
        assert(s.insert(j, d)[i] == x);
    } else {
        assert(s.insert(j, d)[i + 1] == x);
    }
}

/// The distinct entry times, in increasing order, as positions of entries.
fn collect_dates(columns: &Vec<TsvColumn>) -> (rows: Vec<(usize, usize)>)
    ensures
        valid_positions(columns@, rows@),
        date_rows(columns@, rows_bytes(columns@, rows@)),
{
    let ghost cols = columns@;
    let mut rows: Vec<(usize, usize)> = Vec::new();
    let np = columns.len();
    for p in 0..np
        invariant
            np == cols.len(),
            cols == columns@,
            valid_positions(cols, rows@),
            forall|i: int, j: int|
                0 <= i < j < rows@.len() ==> lex_lt(rows_bytes(cols, rows@)[i], rows_bytes(cols, rows@)[j]),
            forall|p2: int, k2: int|
                0 <= p2 < p && 0 <= k2 < cols[p2].entries@.len() ==> rows_bytes(cols, rows@).contains(
                    #[trigger] entry_date(cols[p2], k2),
                ),
    {
        let nk = columns[p].entries.len();
        for k in 0..nk
            invariant
                np == cols.len(),
                cols == columns@,
                p < np,
                nk == cols[p as int].entries@.len(),
                valid_positions(cols, rows@),
                forall|i: int, j: int|
                    0 <= i < j < rows@.len() ==> lex_lt(rows_bytes(cols, rows@)[i], rows_bytes(cols, rows@)[j]),
                forall|p2: int, k2: int|
                    ((0 <= p2 < p && 0 <= k2 < cols[p2].entries@.len()) || (p2 == p && 0 <= k2 < k))
                        ==> rows_bytes(cols, rows@).contains(#[trigger] entry_date(cols[p2], k2)),
        {
            let d = columns[p].entries[k].0.as_str().as_bytes();
            assert(d@ == entry_date(cols[p as int], k as int));
            let ghost rb = rows_bytes(cols, rows@);
            let mut j: usize = 0;
            loop
                invariant
                    cols == columns@,
                    rb == rows_bytes(cols, rows@),
                    valid_positions(cols, rows@),
                    j <= rows@.len(),
                    forall|i: int| 0 <= i < j ==> lex_lt(#[trigger] rb[i], d@),
                ensures
                    j <= rows@.len(),
                    forall|i: int| 0 <= i < j ==> lex_lt(#[trigger] rb[i], d@),
                    j < rows@.len() ==> !lex_lt(rb[j as int], d@),
                decreases rows@.len() - j,
            {
                if j >= rows.len() {
                    break;
                }
                let (rp, rk) = rows[j];
                let e = columns[rp].entries[rk].0.as_str().as_bytes();
                assert(e@ == rb[j as int]);
                if !bytes_lt(e, d) {
                    break;
                }
                j = j + 1;
            }
            let present = if j < rows.len() {
                let (rp, rk) = rows[j];
                let e = columns[rp].entries[rk].0.as_str().as_bytes();
                assert(e@ == rb[j as int]);
                bytes_eq(e, d)
            } else {
                false
            };
            if present {
                assert(rb[j as int] == d@);
                assert(rb.contains(d@));
            } else {
                proof {
                    if j < rb.len() {
                        lemma_lex_trichotomy(rb[j as int], d@);
                    }
                }
                let ghost old_rows = rows@;
                rows.insert(j, (p, k));
                proof {
                    old_rows.insert_ensures(j as int, (p, k));
                    let rb2 = rows_bytes(cols, rows@);
                    assert(rb2 =~= rb.insert(j as int, d@));
                    rb.insert_ensures(j as int, d@);
                    assert forall|i: int, i2: int| 0 <= i < i2 < rb2.len() implies lex_lt(rb2[i], rb2[i2]) by {
                        if i2 < j {
                        } else if i2 == j {
                        } else if i < j {
                            if i2 - 1 > j {
                                lemma_lex_transitive(d@, rb[j as int], rb[i2 - 1]);
                            }
                            lemma_lex_transitive(rb[i], d@, rb[i2 - 1]);
                        } else if i == j {
                            if i2 - 1 > j {
                                lemma_lex_transitive(d@, rb[j as int], rb[i2 - 1]);
                            }
                        } else {
                        }
                    }
                    assert forall|p2: int, k2: int|
                        ((0 <= p2 < p && 0 <= k2 < cols[p2].entries@.len()) || (p2 == p && 0 <= k2 < k + 1))
                            implies rb2.contains(#[trigger] entry_date(cols[p2], k2)) by {
                        if p2 == p && k2 == k {
                            assert(rb2[j as int] == d@);
                        } else {
                            lemma_insert_contains(rb, j as int, d@, entry_date(cols[p2], k2));
                        }
                    }
                    assert forall|i: int| 0 <= i < rows@.len() implies (#[trigger] rows@[i]).0 < cols.len()
                        && rows@[i].1 < cols[rows@[i].0 as int].entries@.len() by {
                        if i < j {
                            assert(rows@[i] == old_rows[i]);
                        } else if i > j {
                            assert(rows@[i] == old_rows[i - 1]);
                        }
                    }
                }
            }
        }
    }
    proof {
        let rb = rows_bytes(cols, rows@);
        assert forall|i: int| 0 <= i < rb.len() implies is_date_of(cols, #[trigger] rb[i]) by {
            let x = rows@[i];
            assert(rb[i] == entry_date(cols[x.0 as int], x.1 as int));
        }
    }
    rows
}

// ---------------------------------------------------------------------------
// The text

pub open spec fn tab() -> Seq<u8> {
    seq![9u8]
}

pub open spec fn newline() -> Seq<u8> {
    seq![10u8]
}

/// `date`
pub open spec fn date_word() -> Seq<u8> {
    seq![100u8, 97u8, 116u8, 101u8]
}

/// `0.0`, the score shown before a player's first game.
pub open spec fn zero_cell() -> Seq<u8> {
    seq![48u8, 46u8, 48u8]
}

/// `date\tNoone\n20190101T00:00\t0.0`, sent when there is next to nothing to show.
pub open spec fn placeholder() -> Seq<u8> {
    seq![
        100u8, 97u8, 116u8, 101u8, 9u8, 78u8, 111u8, 111u8, 110u8, 101u8, 10u8,
        50u8, 48u8, 49u8, 57u8, 48u8, 49u8, 48u8, 49u8, 84u8, 48u8, 48u8, 58u8, 48u8, 48u8,
        9u8, 48u8, 46u8, 48u8,
    ]
}

/// A time `YYYY-MM-DD HH:MM...` written as `YYYYMMDDTHH:MM`.
pub open spec fn fmt_date(d: Seq<u8>) -> Seq<u8> {
    d.subrange(0, 4) + d.subrange(5, 7) + d.subrange(8, 10) + seq![84u8] + d.subrange(11, 16)
}

/// The header after `date`: a tab and a name for each of the first `n` columns.
pub open spec fn names_part(cols: Seq<TsvColumn>, n: nat) -> Seq<u8>
    decreases n,
{
    if n == 0 {
        Seq::empty()
    } else {
        names_part(cols, (n - 1) as nat) + tab() + name_bytes(cols[n - 1])
    }
}

pub open spec fn header(cols: Seq<TsvColumn>) -> Seq<u8> {
    date_word() + names_part(cols, cols.len()) + newline()
}

/// The position of the column's last entry among its first `n` at time `d`.
pub open spec fn last_index_at(c: TsvColumn, d: Seq<u8>, n: nat) -> Option<int>
    decreases n,
{
    if n == 0 {
        None
    } else if entry_date(c, n - 1) == d {
        Some(n - 1)
    } else {
        last_index_at(c, d, (n - 1) as nat)
    }
}

proof fn lemma_last_index_range(c: TsvColumn, d: Seq<u8>, n: nat)
    ensures
        last_index_at(c, d, n) matches Some(k) ==> 0 <= k < n && entry_date(c, k) == d,
    decreases n,
{
    if n > 0 {
        lemma_last_index_range(c, d, (n - 1) as nat);
    }
}

/// Law: the last entry at time `d` is the entry at `d` after which no entry has time `d`,
/// and there is none when no entry has time `d`.
pub proof fn lemma_last_index_exactly(c: TsvColumn, d: Seq<u8>, n: nat, k: int)
    ensures
        last_index_at(c, d, n) == Some(k) <==> (0 <= k < n && entry_date(c, k) == d && forall|k2: int|
            k < k2 < n ==> entry_date(c, k2) != d),
        last_index_at(c, d, n) is None <==> forall|k2: int| 0 <= k2 < n ==> entry_date(c, k2) != d,
    decreases n,
{
    if n > 0 {
        lemma_last_index_exactly(c, d, (n - 1) as nat, k);
        if last_index_at(c, d, (n - 1) as nat) is None {
            assert forall|k2: int| 0 <= k2 < n - 1 implies entry_date(c, k2) != d by {
                lemma_last_index_exactly(c, d, (n - 1) as nat, k2);
            }
        } else {
            let j = last_index_at(c, d, (n - 1) as nat)->0;
            lemma_last_index_exactly(c, d, (n - 1) as nat, j);
        }
    }
}

/// The column's cell in row `r`: its last entry at that row's time, or else the
/// cell of the row before, or `0.0` in the first row.
pub open spec fn cell(c: TsvColumn, rows: Seq<Seq<u8>>, r: nat) -> Seq<u8>
    decreases r,
{
    match last_index_at(c, rows[r as int], c.entries@.len()) {
        Some(k) => entry_cell(c, k),
        None => if r == 0 {
            zero_cell()
        } else {
            cell(c, rows, (r - 1) as nat)
        },
    }
}

/// Law: a column's cell in row `r` is its last entry at the latest row time, up to and
/// including row `r`'s, at which it has an entry, carried forward through every later
/// row without one; it is `0.0` exactly while the column has no entry at or before that
/// row's time.
pub proof fn lemma_cell_carries_forward(c: TsvColumn, rows: Seq<Seq<u8>>, r: nat)
    requires
        r < rows.len(),
    ensures
        (forall|k: int, r2: int| 0 <= k < c.entries@.len() && 0 <= r2 <= r ==> entry_date(c, k) != rows[r2])
            ==> cell(c, rows, r) == zero_cell(),
        forall|k: int, r2: int|
            #![trigger entry_date(c, k), rows[r2]]
            0 <= k < c.entries@.len() && 0 <= r2 <= r && entry_date(c, k) == rows[r2] && (forall|k2: int|
                k < k2 < c.entries@.len() ==> entry_date(c, k2) != rows[r2]) && (forall|k2: int, r3: int|
                0 <= k2 < c.entries@.len() && r2 < r3 <= r ==> entry_date(c, k2) != rows[r3])
                ==> cell(c, rows, r) == entry_cell(c, k),
    decreases r,
{
    let n = c.entries@.len();
    let d = rows[r as int];
    if r > 0 {
        lemma_cell_carries_forward(c, rows, (r - 1) as nat);
    }
    match last_index_at(c, d, n) {
        Some(j) => {
            lemma_last_index_exactly(c, d, n, j);
            assert forall|k: int, r2: int|
                0 <= k < n && 0 <= r2 <= r && entry_date(c, k) == rows[r2] && (forall|k2: int|
                    k < k2 < n ==> entry_date(c, k2) != rows[r2]) && (forall|k2: int, r3: int|
                    0 <= k2 < n && r2 < r3 <= r ==> entry_date(c, k2) != rows[r3])
                    implies cell(c, rows, r) == entry_cell(c, k) by {
                if r2 < r {
                    assert(entry_date(c, j) != rows[r as int]);
                }
                lemma_last_index_exactly(c, d, n, k);
            }
            assert(entry_date(c, j) == rows[r as int]);
        },
        None => {
            lemma_last_index_exactly(c, d, n, 0);
            assert forall|k: int, r2: int|
                0 <= k < n && 0 <= r2 <= r && entry_date(c, k) == rows[r2] && (forall|k2: int|
                    k < k2 < n ==> entry_date(c, k2) != rows[r2]) && (forall|k2: int, r3: int|
                    0 <= k2 < n && r2 < r3 <= r ==> entry_date(c, k2) != rows[r3])
                    implies cell(c, rows, r) == entry_cell(c, k) by {
                if r2 == r {
                    assert(entry_date(c, k) != d);
                }
            }
        },
    }
}

/// A tab and a cell for each of the first `n` columns in row `r`.
pub open spec fn cells_part(cols: Seq<TsvColumn>, rows: Seq<Seq<u8>>, r: nat, n: nat) -> Seq<u8>
    decreases n,
{
    if n == 0 {
        Seq::empty()
    } else {
        cells_part(cols, rows, r, (n - 1) as nat) + tab() + cell(cols[n - 1], rows, r)
    }
}

pub open spec fn row_text(cols: Seq<TsvColumn>, rows: Seq<Seq<u8>>, r: nat) -> Seq<u8> {
    fmt_date(rows[r as int]) + cells_part(cols, rows, r, cols.len()) + newline()
}

/// The first `m` rows.
pub open spec fn body(cols: Seq<TsvColumn>, rows: Seq<Seq<u8>>, m: nat) -> Seq<u8>
    decreases m,
{
    if m == 0 {
        Seq::empty()
    } else {
        body(cols, rows, (m - 1) as nat) + row_text(cols, rows, (m - 1) as nat)
    }
}

pub open spec fn tsv_text(cols: Seq<TsvColumn>, rows: Seq<Seq<u8>>) -> Seq<u8> {
    header(cols) + body(cols, rows, rows.len())
}

/// What is sent: the table, or the placeholder when the table is shorter than ten bytes.
pub open spec fn tsv_output(cols: Seq<TsvColumn>, rows: Seq<Seq<u8>>) -> Seq<u8> {
    if tsv_text(cols, rows).len() < 10 {
        placeholder()
    } else {
        tsv_text(cols, rows)
    }
}

/// Whether every entry time is long enough to be rewritten.
pub open spec fn dates_long_enough(cols: Seq<TsvColumn>) -> bool {
    forall|p: int, k: int|
        0 <= p < cols.len() && 0 <= k < cols[p].entries@.len() ==> (#[trigger] entry_date(cols[p], k)).len() >= 16
}

fn append_bytes(out: &mut Vec<u8>, b: &[u8])
    ensures
        final(out)@ == old(out)@ + b@,
{
    let n = b.len();
    for i in 0..n
        invariant
            n == b@.len(),
            out@ == old(out)@ + b@.take(i as int),
    {
        out.push(b[i]);
        assert(b@.take(i + 1) =~= b@.take(i as int).push(b@[i as int]));
    }
    assert(b@.take(n as int) =~= b@);
}

fn append_date(out: &mut Vec<u8>, d: &[u8])
    requires
        d@.len() >= 16,
    ensures
        final(out)@ == old(out)@ + fmt_date(d@),
{
    out.push(d[0]);
    out.push(d[1]);
    out.push(d[2]);
    out.push(d[3]);
    out.push(d[5]);
    out.push(d[6]);
    out.push(d[8]);
    out.push(d[9]);
    out.push(84u8);
    out.push(d[11]);
    out.push(d[12]);
    out.push(d[13]);
    out.push(d[14]);
    out.push(d[15]);
    assert(final(out)@ =~= old(out)@ + fmt_date(d@));
}

/// The position of the column's last entry at time `d`.
fn last_entry_at(c: &TsvColumn, d: &[u8]) -> (r: Option<usize>)
    ensures
        r is None <==> last_index_at(*c, d@, c.entries@.len()) is None,
        r matches Some(k) ==> k < c.entries@.len() && last_index_at(*c, d@, c.entries@.len()) == Some(k as int),
{
    let mut n = c.entries.len();
    while n > 0
        invariant
            n <= c.entries@.len(),
            last_index_at(*c, d@, c.entries@.len()) == last_index_at(*c, d@, n as nat),
        decreases n,
    {
        let e = c.entries[n - 1].0.as_str().as_bytes();
        if bytes_eq(e, d) {
            return Some(n - 1);
        }
        n = n - 1;
    }
    None
}

/// The cell a column shows when it repeats the entry `k`, or `0.0` when there is none.
pub open spec fn cached_cell(c: TsvColumn, k: Option<usize>) -> Seq<u8> {
    match k {
        Some(k) => entry_cell(c, k as int),
        None => zero_cell(),
    }
}

pub open spec fn cell_before(c: TsvColumn, rows: Seq<Seq<u8>>, r: nat) -> Seq<u8> {
    if r == 0 {
        zero_cell()
    } else {
        cell(c, rows, (r - 1) as nat)
    }
}

/// The rating-development table for `columns`: a header line `date` followed by the
/// column names, then one line per distinct entry time in increasing order, holding
/// the time as `YYYYMMDDTHH:MM` and each column's cell; tab-separated. A table shorter
/// than ten bytes is replaced by a placeholder.
pub fn developmenttsv(columns: &Vec<TsvColumn>) -> (r: RawTextTsv<Vec<u8>>)
    requires
        dates_long_enough(columns@),
    ensures
        exists|rows: Seq<Seq<u8>>| date_rows(columns@, rows) && r.0@ == tsv_output(columns@, rows),
{
    let ghost cols = columns@;
    let rows = collect_dates(columns);
    let ghost rb = rows_bytes(cols, rows@);
    let ncols = columns.len();
    let mut out: Vec<u8> = vec![100u8, 97u8, 116u8, 101u8];
    assert(out@ =~= date_word());
    for p in 0..ncols
        invariant
            ncols == cols.len(),
            cols == columns@,
            out@ == date_word() + names_part(cols, p as nat),
    {
        out.push(9u8);
        append_bytes(&mut out, columns[p].name.as_str().as_bytes());
        assert(out@ =~= date_word() + names_part(cols, (p + 1) as nat));
    }
    out.push(10u8);
    assert(out@ =~= header(cols));
    let mut cache: Vec<Option<usize>> = Vec::new();
    for p in 0..ncols
        invariant
            cache@.len() == p,
            forall|q: int| 0 <= q < p ==> cache@[q] is None,
    {
        cache.push(None);
    }
    let nrows = rows.len();
    for r in 0..nrows
        invariant
            ncols == cols.len(),
            cols == columns@,
            nrows == rows@.len(),
            rb == rows_bytes(cols, rows@),
            valid_positions(cols, rows@),
            dates_long_enough(cols),
            out@ == header(cols) + body(cols, rb, r as nat),
            cache@.len() == ncols,
            forall|q: int| 0 <= q < ncols ==> (#[trigger] cache@[q] matches Some(k) ==> k < cols[q].entries@.len()),
            forall|q: int| 0 <= q < ncols ==> cached_cell(cols[q], #[trigger] cache@[q]) == cell_before(cols[q], rb, r as nat),
    {
        let (rp, rk) = rows[r];
        let d = columns[rp].entries[rk].0.as_str().as_bytes();
        assert(rows@[r as int] == (rp, rk));
        assert(d@ == rb[r as int]);
        assert(d@.len() >= 16);
        let ghost before = out@;
        append_date(&mut out, d);
        for p in 0..ncols
            invariant
                ncols == cols.len(),
                cols == columns@,
                r < rb.len(),
                d@ == rb[r as int],
                out@ == before + fmt_date(rb[r as int]) + cells_part(cols, rb, r as nat, p as nat),
                cache@.len() == ncols,
                forall|q: int| 0 <= q < ncols ==> (#[trigger] cache@[q] matches Some(k) ==> k < cols[q].entries@.len()),
                forall|q: int| 0 <= q < p ==> cached_cell(cols[q], #[trigger] cache@[q]) == cell(cols[q], rb, r as nat),
                forall|q: int| p <= q < ncols ==> cached_cell(cols[q], #[trigger] cache@[q]) == cell_before(cols[q], rb, r as nat),
        {
            proof {
                lemma_last_index_range(cols[p as int], d@, cols[p as int].entries@.len());
            }
            let found = last_entry_at(&columns[p], d);
            match found {
                Some(k) => {
                    cache[p] = Some(k);
                },
                None => {},
            }
            assert(cached_cell(cols[p as int], cache@[p as int]) == cell(cols[p as int], rb, r as nat));
            let ghost mid = out@;
            out.push(9u8);
            match cache[p] {
                Some(k) => {
                    append_bytes(&mut out, columns[p].entries[k].1.as_str().as_bytes());
                },
                None => {
                    out.push(48u8);
                    out.push(46u8);
                    out.push(48u8);
                },
            }
            assert(out@ =~= mid + tab() + cached_cell(cols[p as int], cache@[p as int]));
            assert(out@ =~= before + fmt_date(rb[r as int]) + cells_part(cols, rb, r as nat, (p + 1) as nat));
        }
        out.push(10u8);
        assert(out@ =~= header(cols) + body(cols, rb, (r + 1) as nat));
    }
    proof {
        assert(rb.len() == nrows);
    }
    if out.len() >= 10 {
        RawTextTsv(out)
    } else {
        let ph: Vec<u8> = vec![
            100u8, 97u8, 116u8, 101u8, 9u8, 78u8, 111u8, 111u8, 110u8, 101u8, 10u8,
            50u8, 48u8, 49u8, 57u8, 48u8, 49u8, 48u8, 49u8, 84u8, 48u8, 48u8, 58u8, 48u8, 48u8,
            9u8, 48u8, 46u8, 48u8,
        ];
        assert(ph@ =~= placeholder());
        RawTextTsv(ph)
    }
}

} // verus!
