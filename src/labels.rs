use crate::error::HeatmapError;
use crate::grid::{grid_view, lemma_weekday_row_prefix, month_of, weekday_row, DayContribution};
use vstd::prelude::*;

verus! {

/// The number of columns of a grid: the length of its longest row.
pub open spec fn num_columns(mat: Seq<Seq<DayContribution>>) -> nat
    decreases mat.len(),
{
    if mat.len() == 0 {
        0
    } else {
        let before = num_columns(mat.drop_last());
        if mat.last().len() > before {
            mat.last().len()
        } else {
            before
        }
    }
}

/// The entries of column `c`: row by row, those rows long enough to have one.
pub open spec fn column(mat: Seq<Seq<DayContribution>>, c: int) -> Seq<DayContribution> {
    weekday_row(mat, c)
}

/// How many of `entries` fall in month `m`.
pub open spec fn month_count(entries: Seq<DayContribution>, m: u8) -> nat
    decreases entries.len(),
{
    if entries.len() == 0 {
        0
    } else {
        month_count(entries.drop_last(), m) + if month_of(entries.last().date@) == Some(m) {
            1nat
        } else {
            0nat
        }
    }
}

/// Among months 1 to `k`, the first one with the most entries.
pub open spec fn best_month(entries: Seq<DayContribution>, k: nat) -> u8
    decreases k,
{
    if k <= 1 {
        1
    } else {
        let b = best_month(entries, (k - 1) as nat);
        if month_count(entries, k as u8) > month_count(entries, b) {
            k as u8
        } else {
            b
        }
    }
}

/// The dominant month of a column: the month with most entries, the lowest
/// on a tie; none for an empty column.
pub open spec fn dominant(entries: Seq<DayContribution>) -> Option<u8> {
    if entries.len() == 0 {
        None
    } else {
        Some(best_month(entries, 12))
    }
}

/// Whether every entry of column `c` has a readable month.
pub open spec fn column_dates_valid(mat: Seq<Seq<DayContribution>>, c: int) -> bool {
    forall|i: int|
        0 <= i < column(mat, c).len() ==> (#[trigger] month_of(column(mat, c)[i].date@)) is Some
}

/// Whether every entry of the grid has a readable month.
pub open spec fn dates_valid(mat: Seq<Seq<DayContribution>>) -> bool {
    forall|c: int| 0 <= c < num_columns(mat) ==> #[trigger] column_dates_valid(mat, c)
}

/// The dominant month of each column, left to right.
pub open spec fn dominants(mat: Seq<Seq<DayContribution>>) -> Seq<Option<u8>> {
    Seq::new(num_columns(mat), |c: int| dominant(column(mat, c)))
}

/// The month last seen in `dom`, or 0 where there is none.
pub open spec fn last_month(dom: Seq<Option<u8>>) -> u8
    decreases dom.len(),
{
    if dom.len() == 0 {
        0
    } else {
        match dom.last() {
            Some(m) => m,
            None => last_month(dom.drop_last()),
        }
    }
}

/// The label of column `i`: its dominant month where that differs from the
/// month last seen to its left, else blank.
pub open spec fn label_at(dom: Seq<Option<u8>>, i: int) -> Option<u8> {
    match dom[i] {
        Some(m) => if m != last_month(dom.take(i)) {
            Some(m)
        } else {
            None
        },
        None => None,
    }
}

/// The two characters of one label cell: a zero-padded month, or blanks.
pub open spec fn cell_text(label: Option<u8>) -> Seq<char> {
    match label {
        Some(m) => seq![(m / 10 + '0' as nat) as char, (m % 10 + '0' as nat) as char],
        None => seq![' ', ' '],
    }
}

/// The label line of the first `n` columns.
pub open spec fn label_text_upto(dom: Seq<Option<u8>>, n: nat) -> Seq<char>
    decreases n,
{
    if n == 0 {
        Seq::empty()
    } else {
        label_text_upto(dom, (n - 1) as nat) + cell_text(label_at(dom, n - 1))
    }
}

/// The label line of the dominant months `dom`, one cell per column.
pub open spec fn label_text(dom: Seq<Option<u8>>) -> Seq<char> {
    label_text_upto(dom, dom.len())
}

/// Whether every month in `dom` is between 1 and 12.
pub open spec fn months_in_range(dom: Seq<Option<u8>>) -> bool {
    forall|i: int| 0 <= i < dom.len() && (#[trigger] dom[i]) is Some ==> 1 <= dom[i]->0 <= 12
}

/// The text of one label cell for month `m`.
fn month_cell(m: u8) -> (r: &'static str)
    requires
        1 <= m <= 12,
    ensures
        r@ == cell_text(Some(m)),
{
    proof {
        reveal_strlit("01");
        reveal_strlit("02");
        reveal_strlit("03");
        reveal_strlit("04");
        reveal_strlit("05");
        reveal_strlit("06");
        reveal_strlit("07");
        reveal_strlit("08");
        reveal_strlit("09");
        reveal_strlit("10");
        reveal_strlit("11");
        reveal_strlit("12");
    }
    match m {
        1 => "01",
        2 => "02",
        3 => "03",
        4 => "04",
        5 => "05",
        6 => "06",
        7 => "07",
        8 => "08",
        9 => "09",
        10 => "10",
        11 => "11",
        _ => "12",
    }
}

/// Writes the label line for the dominant months of the columns: a two-digit
/// month where it differs from the last month seen, two blanks elsewhere.
pub fn month_labels(dominant: &[Option<u8>]) -> (r: String)
    requires
        months_in_range(dominant@),
    ensures
        r@ == label_text(dominant@),
{
    let mut line = String::from_str("");
    proof {
        reveal_strlit("");
    }
    let mut previous: u8 = 0;
    let mut i: usize = 0;
    while i < dominant.len()
        invariant
            0 <= i <= dominant@.len(),
            months_in_range(dominant@),
            previous == last_month(dominant@.take(i as int)),
            line@ == label_text_upto(dominant@, i as nat),
        decreases dominant@.len() - i,
    {
        assert(dominant@.take(i + 1).drop_last() =~= dominant@.take(i as int));
        let ghost before = line@;
        proof {
            reveal_strlit("  ");
        }
        assert(label_text_upto(dominant@, (i + 1) as nat) == before + cell_text(
            label_at(dominant@, i as int),
        ));
        match dominant[i] {
            Some(m) => {
                if m != previous {
                    line.append(month_cell(m));
                } else {
                    line.append("  ");
                }
                previous = m;
            },
            None => {
                line.append("  ");
            },
        }
        assert(line@ =~= before + cell_text(label_at(dominant@, i as int)));
        i = i + 1;
    }
    line
}

/// The best month among months 1 to `k` is one of them.
proof fn lemma_best_month_range(entries: Seq<DayContribution>, k: nat)
    requires
        1 <= k <= 12,
    ensures
        1 <= best_month(entries, k) <= k,
    decreases k,
{
    if k > 1 {
        lemma_best_month_range(entries, (k - 1) as nat);
    }
}

/// The dominant month of column `c` of the grid `rows`.
pub fn column_dominant(rows: &[Vec<&DayContribution>], c: usize) -> (r: Result<
    Option<u8>,
    HeatmapError,
>)
    ensures
        match r {
            Ok(d) => column_dates_valid(grid_view(rows@), c as int) && d == dominant(
                column(grid_view(rows@), c as int),
            ),
            Err(e) => !column_dates_valid(grid_view(rows@), c as int) && exists|i: int|
                0 <= i < column(grid_view(rows@), c as int).len() && e
                    == HeatmapError::InvalidDate(
                    #[trigger] column(grid_view(rows@), c as int)[i].date,
                ),
        },
{
    let ghost mat = grid_view(rows@);
    let mut counts: Vec<usize> = Vec::new();
    while counts.len() < 12
        invariant
            counts@.len() <= 12,
            forall|k: int| 0 <= k < counts@.len() ==> counts@[k] == 0,
        decreases 12 - counts@.len(),
    {
        counts.push(0);
    }
    let mut present: usize = 0;
    let mut r: usize = 0;
    while r < rows.len()
        invariant
            0 <= r <= rows@.len(),
            mat == grid_view(rows@),
            counts@.len() == 12,
            present == column(mat.take(r as int), c as int).len(),
            present <= r,
            column_dates_valid(mat.take(r as int), c as int),
            forall|k: int|
                0 <= k < 12 ==> #[trigger] counts@[k] == month_count(
                    column(mat.take(r as int), c as int),
                    (k + 1) as u8,
                ),
            forall|k: int| 0 <= k < 12 ==> #[trigger] counts@[k] <= r,
        decreases rows@.len() - r,
    {
        let ghost before = column(mat.take(r as int), c as int);
        assert(mat.take(r + 1).drop_last() =~= mat.take(r as int));
        assert(mat.take(r + 1).last() == mat[r as int]);
        let row = &rows[r];
        if c < row.len() {
            let day: &DayContribution = row[c];
            let ghost now = column(mat.take(r + 1), c as int);
            assert(now == before.push(*day));
            assert(now.drop_last() =~= before);
            match day.get_month() {
                Ok(m) => {
                    let k = (m - 1) as usize;
                    let old_count = counts[k];
                    counts.set(k, old_count + 1);
                    present = present + 1;
                    assert forall|i: int| 0 <= i < now.len() implies (#[trigger] month_of(
                        now[i].date@,
                    )) is Some by {
                        if i < before.len() {
                            assert(now[i] == before[i]);
                        }
                    }
                },
                Err(e) => {
                    proof {
                        lemma_weekday_row_prefix(mat, r + 1, c as int);
                        assert(column(mat, c as int)[before.len() as int] == *day);
                    }
                    return Err(e);
                },
            }
        } else {
            assert(column(mat.take(r + 1), c as int) == before);
        }
        r = r + 1;
    }
    assert(mat.take(rows@.len() as int) =~= mat);
    if present == 0 {
        return Ok(None);
    }
    let mut best: usize = 1;
    let mut k: usize = 2;
    while k <= 12
        invariant
            2 <= k <= 13,
            counts@.len() == 12,
            forall|j: int|
                0 <= j < 12 ==> #[trigger] counts@[j] == month_count(
                    column(mat, c as int),
                    (j + 1) as u8,
                ),
            best == best_month(column(mat, c as int), (k - 1) as nat),
            1 <= best < k,
        decreases 13 - k,
    {
        if counts[k - 1] > counts[best - 1] {
            best = k;
        }
        k = k + 1;
    }
    Ok(Some(best as u8))
}

/// The number of columns of the grid `rows`: the length of its longest row.
pub fn column_count(rows: &[Vec<&DayContribution>]) -> (n: usize)
    ensures
        n == num_columns(grid_view(rows@)),
{
    let ghost mat = grid_view(rows@);
    let mut n: usize = 0;
    let mut r: usize = 0;
    while r < rows.len()
        invariant
            0 <= r <= rows@.len(),
            mat == grid_view(rows@),
            n == num_columns(mat.take(r as int)),
        decreases rows@.len() - r,
    {
        assert(mat.take(r + 1).drop_last() =~= mat.take(r as int));
        assert(mat.take(r + 1).last() == mat[r as int]);
        if rows[r].len() > n {
            n = rows[r].len();
        }
        r = r + 1;
    }
    assert(mat.take(rows@.len() as int) =~= mat);
    n
}

/// The month label line of the grid `rows`: one two-character cell per
/// column, holding the column's dominant month where it differs from the
/// last month seen to its left, and blanks elsewhere. Fails on the first
/// entry, column by column, whose date has no readable month.
pub fn label_line(rows: &[Vec<&DayContribution>]) -> (r: Result<String, HeatmapError>)
    ensures
        match r {
            Ok(line) => dates_valid(grid_view(rows@)) && line@ == label_text(
                dominants(grid_view(rows@)),
            ),
            Err(e) => !dates_valid(grid_view(rows@)) && exists|c: int, i: int|
                0 <= c < num_columns(grid_view(rows@)) && 0 <= i < column(
                    grid_view(rows@),
                    c,
                ).len() && e == HeatmapError::InvalidDate(
                    #[trigger] column(grid_view(rows@), c)[i].date,
                ),
        },
{
    let ghost mat = grid_view(rows@);
    let ncols = column_count(rows);
    let mut dom: Vec<Option<u8>> = Vec::new();
    let mut c: usize = 0;
    while c < ncols
        invariant
            0 <= c <= ncols,
            mat == grid_view(rows@),
            ncols == num_columns(mat),
            dom@ == dominants(mat).take(c as int),
            forall|k: int| 0 <= k < c ==> #[trigger] column_dates_valid(mat, k),
        decreases ncols - c,
    {
        match column_dominant(rows, c) {
            Ok(d) => {
                dom.push(d);
                assert(dom@ =~= dominants(mat).take(c + 1));
            },
            Err(e) => {
                return Err(e);
            },
        }
        c = c + 1;
    }
    assert(dom@ =~= dominants(mat));
    assert forall|i: int| 0 <= i < dom@.len() && (#[trigger] dom@[i]) is Some implies 1
        <= dom@[i]->0 <= 12 by {
        lemma_best_month_range(column(mat, i), 12);
    }
    Ok(month_labels(&dom))
}

/// After a label for month `m` at column `i`, and no label up to column `k`,
/// the month last seen before column `k` is still `m`.
proof fn lemma_last_month_kept(dom: Seq<Option<u8>>, i: int, k: int, m: u8)
    requires
        0 <= i < k <= dom.len(),
        label_at(dom, i) == Some(m),
        forall|x: int| i < x < k ==> (#[trigger] label_at(dom, x)) is None,
    ensures
        last_month(dom.take(k)) == m,
    decreases k - i,
{
    assert(dom.take(k).drop_last() =~= dom.take(k - 1));
    assert(dom.take(k).last() == dom[k - 1]);
    if k > i + 1 {
        lemma_last_month_kept(dom, i, k - 1, m);
        assert(label_at(dom, k - 1) is None);
    }
}

/// The label line never repeats a month: the next label after a label for
/// month `m` is for another month.
pub proof fn lemma_labels_not_repeated(mat: Seq<Seq<DayContribution>>, i: int, j: int)
    requires
        0 <= i < j < num_columns(mat),
        label_at(dominants(mat), i) is Some,
        label_at(dominants(mat), j) is Some,
        forall|x: int| i < x < j ==> (#[trigger] label_at(dominants(mat), x)) is None,
    ensures
        label_at(dominants(mat), j) != label_at(dominants(mat), i),
{
    let dom = dominants(mat);
    lemma_last_month_kept(dom, i, j, label_at(dom, i)->0);
}

/// Where every entry is in month `m`, month `k` counts all of them or none.
proof fn lemma_count_single_month(entries: Seq<DayContribution>, m: u8, k: u8)
    requires
        forall|i: int| 0 <= i < entries.len() ==> month_of((#[trigger] entries[i]).date@) == Some(m),
    ensures
        month_count(entries, k) == if k == m {
            entries.len()
        } else {
            0
        },
    decreases entries.len(),
{
    if entries.len() > 0 {
        let before = entries.drop_last();
        assert(forall|i: int| 0 <= i < before.len() ==> #[trigger] before[i] == entries[i]);
        lemma_count_single_month(before, m, k);
        assert(month_of(entries[entries.len() - 1].date@) == Some(m));
    }
}

/// Where only month `m` has entries, it is the best of the months up to `k`
/// from `m` on, and the best before `m` has none.
proof fn lemma_best_single_month(entries: Seq<DayContribution>, m: u8, k: nat)
    requires
        1 <= m <= 12,
        1 <= k <= 12,
        entries.len() > 0,
        forall|x: u8| #[trigger] month_count(entries, x) == if x == m {
            entries.len()
        } else {
            0
        },
    ensures
        k >= m ==> best_month(entries, k) == m,
        k < m ==> month_count(entries, best_month(entries, k)) == 0,
    decreases k,
{
    if k > 1 {
        lemma_best_single_month(entries, m, (k - 1) as nat);
    }
}

/// A grid with a column has entries in its first column.
proof fn lemma_first_column_nonempty(mat: Seq<Seq<DayContribution>>)
    requires
        num_columns(mat) > 0,
    ensures
        column(mat, 0).len() > 0,
    decreases mat.len(),
{
    if mat.last().len() == 0 || num_columns(mat.drop_last()) > 0 {
        if num_columns(mat.drop_last()) > 0 {
            lemma_first_column_nonempty(mat.drop_last());
        }
    }
}

/// Where every entry of the grid is in the same month, the label line holds
/// exactly one label, for that month, at the first column.
pub proof fn lemma_single_month_one_label(mat: Seq<Seq<DayContribution>>, m: u8)
    requires
        num_columns(mat) > 0,
        forall|c: int, i: int|
            0 <= c < num_columns(mat) && 0 <= i < column(mat, c).len() ==> month_of(
                (#[trigger] column(mat, c)[i]).date@,
            ) == Some(m),
    ensures
        label_at(dominants(mat), 0) == Some(m),
        forall|c: int| 0 < c < num_columns(mat) ==> (#[trigger] label_at(dominants(mat), c)) is None,
{
    let dom = dominants(mat);
    lemma_first_column_nonempty(mat);
    assert(month_of(column(mat, 0)[0].date@) == Some(m));
    assert(1 <= m <= 12);
    assert forall|c: int| 0 <= c < num_columns(mat) implies (#[trigger] dom[c]) is None || dom[c]
        == Some(m) by {
        let entries = column(mat, c);
        if entries.len() > 0 {
            assert forall|x: u8| #[trigger] month_count(entries, x) == if x == m {
                entries.len()
            } else {
                0
            } by {
                assert forall|i: int| 0 <= i < entries.len() implies month_of(
                    (#[trigger] entries[i]).date@,
                ) == Some(m) by {
                    assert(entries[i] == column(mat, c)[i]);
                }
                lemma_count_single_month(entries, m, x);
            }
            lemma_best_single_month(entries, m, 12);
        }
    }
    assert(dom.take(0) =~= Seq::<Option<u8>>::empty());
    assert forall|c: int| 0 < c < num_columns(mat) implies (#[trigger] label_at(dom, c)) is None by {
        lemma_last_month_is_m(dom, c, m);
    }
}

/// Where the first column is month `m` and no column another month, the
/// month last seen before any later column is `m`.
proof fn lemma_last_month_is_m(dom: Seq<Option<u8>>, k: int, m: u8)
    requires
        0 < k <= dom.len(),
        dom[0] == Some(m),
        forall|c: int| 0 <= c < dom.len() ==> (#[trigger] dom[c]) is None || dom[c] == Some(m),
    ensures
        last_month(dom.take(k)) == m,
    decreases k,
{
    assert(dom.take(k).drop_last() =~= dom.take(k - 1));
    assert(dom.take(k).last() == dom[k - 1]);
    if k > 1 {
        lemma_last_month_is_m(dom, k - 1, m);
    }
}

} // verus!
