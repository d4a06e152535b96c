use crate::error::HeatmapError;
use vstd::prelude::*;

verus! {

/// One day of the calendar: its date `YYYY-MM-DD` and its color `#RRGGBB`.
pub struct DayContribution {
    pub date: String,
    pub color: String,
}

impl DayContribution {
    pub fn new(date: String, color: String) -> (r: DayContribution)
        ensures
            r.date == date,
            r.color == color,
    {
        DayContribution { date, color }
    }

    /// The month of this day's date, read from the part between its two
    /// hyphens.
    pub fn get_month(&self) -> (r: Result<u8, HeatmapError>)
        ensures
            match r {
                Ok(m) => month_of(self.date@) == Some(m),
                Err(e) => month_of(self.date@) is None && e == HeatmapError::InvalidDate(self.date),
            },
    {
        let date = self.date.as_str();
        let n = date.unicode_len();
        let mut parts: usize = 1;
        let mut seg: Vec<char> = Vec::new();
        let mut i: usize = 0;
        while i < n
            invariant
                0 <= i <= n,
                n == date@.len(),
                date@ == self.date@,
                1 <= parts <= 4,
                parts == capped_parts(split_parts(date@.take(i as int)).len()),
                split_parts(date@.take(i as int)).len() >= 1,
                parts >= 2 ==> seg@ == split_parts(date@.take(i as int))[1],
                parts < 2 ==> seg@.len() == 0,
            decreases n - i,
        {
            let c = date.get_char(i);
            assert(date@.take(i + 1).drop_last() =~= date@.take(i as int));
            if c == '-' {
                if parts < 4 {
                    parts = parts + 1;
                }
            } else if parts == 2 {
                seg.push(c);
            }
            if c != '-' && parts == 2 {
                assert(seg@ =~= split_parts(date@.take(i + 1))[1]);
            }
            i = i + 1;
        }
        assert(date@.take(n as int) =~= date@);
        if parts != 3 || seg.len() == 0 {
            return Err(HeatmapError::InvalidDate(self.date.clone()));
        }
        let mut v: u8 = 0;
        let mut j: usize = 0;
        while j < seg.len()
            invariant
                0 <= j <= seg@.len(),
                split_parts(self.date@).len() == 3,
                seg@ == split_parts(self.date@)[1],
                forall|k: int| 0 <= k < j ==> is_decimal_digit(#[trigger] seg@[k]),
                v as nat == capped(decimal_value(seg@.take(j as int))),
            decreases seg@.len() - j,
        {
            let c = seg[j];
            assert(seg@.take(j + 1).drop_last() =~= seg@.take(j as int));
            if !('0' <= c && c <= '9') {
                assert(!is_decimal_digit(seg@[j as int]));
                return Err(HeatmapError::InvalidDate(self.date.clone()));
            }
            let d = ((c as u32) - ('0' as u32)) as u8;
            if v < 13 {
                v = v * 10 + d;
                if v > 13 {
                    v = 13;
                }
            }
            j = j + 1;
        }
        assert(seg@.take(seg@.len() as int) =~= seg@);
        if 1 <= v && v <= 12 {
            Ok(v)
        } else {
            Err(HeatmapError::InvalidDate(self.date.clone()))
        }
    }
}

/// The parts of `s` between hyphens, in order; one more than its hyphens.
pub open spec fn split_parts(s: Seq<char>) -> Seq<Seq<char>>
    decreases s.len(),
{
    if s.len() == 0 {
        seq![Seq::empty()]
    } else {
        let p = split_parts(s.drop_last());
        if s.last() == '-' {
            p.push(Seq::empty())
        } else {
            p.update(p.len() - 1, p.last().push(s.last()))
        }
    }
}

/// A count of parts, where four stands for any count past three.
pub open spec fn capped_parts(n: nat) -> nat {
    if n > 4 {
        4
    } else {
        n
    }
}

pub open spec fn is_decimal_digit(c: char) -> bool {
    '0' <= c && c <= '9'
}

/// The number that the decimal digits `s` write.
pub open spec fn decimal_value(s: Seq<char>) -> nat
    decreases s.len(),
{
    if s.len() == 0 {
        0
    } else {
        10 * decimal_value(s.drop_last()) + (s.last() as nat - '0' as nat) as nat
    }
}

/// `n`, or 13 where `n` is larger: every value past the last month.
pub open spec fn capped(n: nat) -> nat {
    if n > 13 {
        13
    } else {
        n
    }
}

/// The month of a date `YYYY-MM-DD`: the middle of exactly three
/// hyphen-separated parts, when it is decimal digits worth 1 to 12.
pub open spec fn month_of(date: Seq<char>) -> Option<u8> {
    let p = split_parts(date);
    if p.len() == 3 && p[1].len() > 0 && (forall|k: int|
        0 <= k < p[1].len() ==> is_decimal_digit(#[trigger] p[1][k])) && 1 <= decimal_value(p[1])
        <= 12 {
        Some(decimal_value(p[1]) as u8)
    } else {
        None
    }
}

/// The weeks as sequences of days.
pub open spec fn weeks_view(weeks: Seq<Vec<DayContribution>>) -> Seq<Seq<DayContribution>> {
    weeks.map_values(|w: Vec<DayContribution>| w@)
}

/// The rows of a grid of borrowed days, as sequences of days.
pub open spec fn grid_view(rows: Seq<Vec<&DayContribution>>) -> Seq<Seq<DayContribution>> {
    rows.map_values(|row: Vec<&DayContribution>| row@.map_values(|d: &DayContribution| *d))
}

/// Row `r` of the transposed grid: in week order, the entry at position `r`
/// of each week that has one.
pub open spec fn weekday_row<T>(weeks: Seq<Seq<T>>, r: int) -> Seq<T>
    decreases weeks.len(),
{
    if weeks.len() == 0 {
        Seq::empty()
    } else {
        let before = weekday_row(weeks.drop_last(), r);
        if 0 <= r < weeks.last().len() {
            before.push(weeks.last()[r])
        } else {
            before
        }
    }
}

/// The row built from the first `j` weeks is a prefix of the row built from
/// all of them.
pub proof fn lemma_weekday_row_prefix<T>(weeks: Seq<Seq<T>>, j: int, r: int)
    requires
        0 <= j <= weeks.len(),
    ensures
        weekday_row(weeks.take(j), r).len() <= weekday_row(weeks, r).len(),
        forall|i: int|
            0 <= i < weekday_row(weeks.take(j), r).len() ==> #[trigger] weekday_row(weeks, r)[i]
                == weekday_row(weeks.take(j), r)[i],
    decreases weeks.len(),
{
    if j == weeks.len() {
        assert(weeks.take(j) =~= weeks);
    } else {
        assert(weeks.drop_last().take(j) =~= weeks.take(j));
        lemma_weekday_row_prefix(weeks.drop_last(), j, r);
    }
}

/// The weekday-major grid of a week-major sequence: seven rows, row `r`
/// holding the `r`-th day of each week long enough to have one.
pub open spec fn transpose_spec<T>(weeks: Seq<Seq<T>>) -> Seq<Seq<T>> {
    Seq::new(7, |r: int| weekday_row(weeks, r))
}

/// Turns weeks of days into seven weekday rows that borrow the days. A week
/// shorter than `r + 1` days adds nothing to row `r`.
pub fn transpose(contributions: &[Vec<DayContribution>]) -> (rows: Vec<Vec<&DayContribution>>)
    ensures
        grid_view(rows@) == transpose_spec(weeks_view(contributions@)),
{
    let ghost weeks = weeks_view(contributions@);
    let mut rows: Vec<Vec<&DayContribution>> = Vec::new();
    let mut col: usize = 0;
    while col < 7
        invariant
            0 <= col <= 7,
            weeks == weeks_view(contributions@),
            rows@.len() == col,
            forall|r: int| 0 <= r < col ==> #[trigger] grid_view(rows@)[r] == weekday_row(weeks, r),
        decreases 7 - col,
    {
        let mut new_row: Vec<&DayContribution> = Vec::new();
        let mut w: usize = 0;
        while w < contributions.len()
            invariant
                0 <= col < 7,
                0 <= w <= contributions@.len(),
                weeks == weeks_view(contributions@),
                new_row@.map_values(|d: &DayContribution| *d) == weekday_row(
                    weeks.take(w as int),
                    col as int,
                ),
            decreases contributions@.len() - w,
        {
            let week = &contributions[w];
            assert(weeks.take(w + 1).drop_last() =~= weeks.take(w as int));
            assert(weeks.take(w + 1).last() == week@);
            if col < week.len() {
                new_row.push(&week[col]);
            }
            assert(new_row@.map_values(|d: &DayContribution| *d) =~= weekday_row(
                weeks.take(w + 1),
                col as int,
            ));
            w = w + 1;
        }
        assert(weeks.take(contributions@.len() as int) =~= weeks);
        let ghost old_rows = rows@;
        rows.push(new_row);
        assert forall|r: int| 0 <= r <= col implies #[trigger] grid_view(rows@)[r] == weekday_row(
            weeks,
            r,
        ) by {
            if r < col {
                assert(rows@[r] == old_rows[r]);
                assert(grid_view(old_rows)[r] == weekday_row(weeks, r));
            }
        }
        col = col + 1;
    }
    assert(grid_view(rows@) =~= transpose_spec(weeks));
    rows
}

/// Row `r` of weeks that are all full but maybe the first: the first week
/// adds its entry only where it has one.
proof fn lemma_row_of_full_tail<T>(weeks: Seq<Seq<T>>, r: int)
    requires
        weeks.len() >= 1,
        0 <= r < 7,
        forall|c: int| 1 <= c < weeks.len() ==> (#[trigger] weeks[c]).len() == 7,
    ensures
        r < weeks[0].len() ==> {
            &&& weekday_row(weeks, r).len() == weeks.len()
            &&& forall|c: int|
                0 <= c < weeks.len() ==> #[trigger] weekday_row(weeks, r)[c] == weeks[c][r]
        },
        r >= weeks[0].len() ==> {
            &&& weekday_row(weeks, r).len() == weeks.len() - 1
            &&& forall|c: int|
                0 <= c < weeks.len() - 1 ==> #[trigger] weekday_row(weeks, r)[c] == weeks[c
                    + 1][r]
        },
    decreases weeks.len(),
{
    if weeks.len() == 1 {
        assert(weekday_row(weeks.drop_last(), r) == Seq::<T>::empty());
        assert(weeks.last() == weeks[0]);
    } else {
        let before = weeks.drop_last();
        assert(forall|c: int| 0 <= c < before.len() ==> #[trigger] before[c] == weeks[c]);
        lemma_row_of_full_tail(before, r);
        let n = weeks.len();
        assert(weeks.last() == weeks[n - 1]);
        assert(weeks[n - 1].len() == 7);
        let prev = weekday_row(before, r);
        let row = weekday_row(weeks, r);
        assert(row == prev.push(weeks[n - 1][r]));
        assert(forall|c: int| 0 <= c < prev.len() ==> #[trigger] row[c] == prev[c]);
        assert(row[prev.len() as int] == weeks[n - 1][r]);
        if r >= weeks[0].len() {
            assert forall|c: int| 0 <= c < n - 1 implies #[trigger] row[c] == weeks[c + 1][r] by {
                if c < n - 2 {
                    assert(row[c] == prev[c]);
                }
            }
        }
    }
}

/// When every week has seven days, the transposed grid has seven rows as
/// long as the number of weeks, and the day of week `c` at position `r` stands
/// in row `r` at column `c`.
pub proof fn lemma_transpose_full_weeks<T>(weeks: Seq<Seq<T>>)
    requires
        forall|c: int| 0 <= c < weeks.len() ==> (#[trigger] weeks[c]).len() == 7,
    ensures
        transpose_spec(weeks).len() == 7,
        forall|r: int| 0 <= r < 7 ==> (#[trigger] transpose_spec(weeks)[r]).len() == weeks.len(),
        forall|r: int, c: int|
            0 <= r < 7 && 0 <= c < weeks.len() ==> #[trigger] transpose_spec(weeks)[r][c]
                == weeks[c][r],
{
    assert forall|r: int| 0 <= r < 7 implies {
        &&& (#[trigger] transpose_spec(weeks)[r]).len() == weeks.len()
        &&& forall|c: int| 0 <= c < weeks.len() ==> transpose_spec(weeks)[r][c] == weeks[c][r]
    } by {
        if weeks.len() == 0 {
            assert(weekday_row(weeks, r) == Seq::<T>::empty());
        } else {
            lemma_row_of_full_tail(weeks, r);
        }
    }
}

/// When only the first week is short, with `m` days, the rows of the weekdays
/// it lacks hold one day fewer than the others, and every entry is a day of
/// the input: row `r` holds the `r`-th day of each week that has one, in order.
pub proof fn lemma_transpose_partial_first_week<T>(weeks: Seq<Seq<T>>)
    requires
        weeks.len() >= 1,
        weeks[0].len() < 7,
        forall|c: int| 1 <= c < weeks.len() ==> (#[trigger] weeks[c]).len() == 7,
    ensures
        transpose_spec(weeks).len() == 7,
        forall|r: int|
            0 <= r < weeks[0].len() ==> {
                &&& (#[trigger] transpose_spec(weeks)[r]).len() == weeks.len()
                &&& forall|c: int|
                    0 <= c < weeks.len() ==> #[trigger] transpose_spec(weeks)[r][c] == weeks[c][r]
            },
        forall|r: int|
            weeks[0].len() <= r < 7 ==> {
                &&& (#[trigger] transpose_spec(weeks)[r]).len() == weeks.len() - 1
                &&& forall|c: int|
                    0 <= c < weeks.len() - 1 ==> #[trigger] transpose_spec(weeks)[r][c] == weeks[c
                        + 1][r]
            },
{
    assert forall|r: int| 0 <= r < 7 implies {
        &&& r < weeks[0].len() ==> {
            &&& (#[trigger] transpose_spec(weeks)[r]).len() == weeks.len()
            &&& forall|c: int| 0 <= c < weeks.len() ==> transpose_spec(weeks)[r][c] == weeks[c][r]
        }
        &&& r >= weeks[0].len() ==> {
            &&& transpose_spec(weeks)[r].len() == weeks.len() - 1
            &&& forall|c: int|
                0 <= c < weeks.len() - 1 ==> transpose_spec(weeks)[r][c] == weeks[c + 1][r]
        }
    } by {
        lemma_row_of_full_tail(weeks, r);
    }
}

} // verus!
