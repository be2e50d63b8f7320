//! The wide-CSV year-indexed loader and its series model.
//!
//! A metric table maps each ticker to a year-indexed sequence of values.
//! The first data column of a row is fiscal year 2022 and each further
//! column steps one year back; rows are stored with years ascending. A
//! later row for the same ticker replaces the earlier one, as a keyed
//! insert would. The model is a sequence of `(ticker, years)` pairs in
//! which a ticker occurs at most once; lookups take the first match.

use vstd::prelude::*;
use crate::fx::{iabs, VAL_MAX};
use crate::parse::{cell_val, parse_cell};

verus! {

/// Model of one ticker's series: `(ticker, [(year, value)])`.
pub type EntryModel = (Seq<char>, Seq<(int, int)>);

/// Model of a whole metric table.
pub type SeriesModel = Seq<EntryModel>;

/// One stored year of one ticker.
pub struct YearVal {
    pub year: i128,
    pub value: i128,
}

/// One ticker's row of a metric table.
pub struct SeriesEntry {
    pub ticker: String,
    pub years: Vec<YearVal>,
}

/// A loaded metric table.
pub struct MetricSeries {
    pub entries: Vec<SeriesEntry>,
}

pub open spec fn years_model(ys: Seq<YearVal>) -> Seq<(int, int)> {
    ys.map(|k: int, yv: YearVal| (yv.year as int, yv.value as int))
}

pub open spec fn entry_model(e: SeriesEntry) -> EntryModel {
    (e.ticker@, years_model(e.years@))
}

pub open spec fn series_model(es: Seq<SeriesEntry>) -> SeriesModel {
    es.map(|k: int, e: SeriesEntry| entry_model(e))
}

impl MetricSeries {
    pub open spec fn model(self) -> SeriesModel {
        series_model(self.entries@)
    }
}

/// View of one CSV row as plain character sequences.
pub open spec fn cells_view(r: Seq<String>) -> Seq<Seq<char>> {
    r.map(|j: int, c: String| c@)
}

/// View of a CSV table as plain character sequences.
pub open spec fn rows_view(rs: Seq<Vec<String>>) -> Seq<Seq<Seq<char>>> {
    rs.map(|i: int, r: Vec<String>| cells_view(r@))
}

/// Every stored value of the table lies within `b` in magnitude.
pub open spec fn series_bounded(s: SeriesModel, b: int) -> bool {
    forall|i: int, j: int|
        0 <= i < s.len() && 0 <= j < s[i].1.len() ==> iabs((#[trigger] s[i].1[j]).1) <= b
}

/// Insert-or-replace on the model: the first entry with ticker `t` is
/// replaced, else a new entry is appended.
pub open spec fn upsert(s: SeriesModel, t: Seq<char>, ys: Seq<(int, int)>) -> SeriesModel
    decreases s.len(),
{
    if s.len() == 0 {
        seq![(t, ys)]
    } else if s[0].0 == t {
        seq![(t, ys)] + s.skip(1)
    } else {
        seq![s[0]] + upsert(s.skip(1), t, ys)
    }
}

/// The first entry for ticker `t`, if any.
pub open spec fn find_t(s: SeriesModel, t: Seq<char>) -> Option<Seq<(int, int)>>
    decreases s.len(),
{
    if s.len() == 0 {
        None
    } else if s[0].0 == t {
        Some(s[0].1)
    } else {
        find_t(s.skip(1), t)
    }
}

/// The first value for year `y`, if any.
pub open spec fn find_y(ys: Seq<(int, int)>, y: int) -> Option<int>
    decreases ys.len(),
{
    if ys.len() == 0 {
        None
    } else if ys[0].0 == y {
        Some(ys[0].1)
    } else {
        find_y(ys.skip(1), y)
    }
}

/// A cross-series lookup miss defaults to zero.
pub open spec fn value_or0(s: SeriesModel, t: Seq<char>, y: int) -> int {
    match find_t(s, t) {
        Option::None => 0,
        Option::Some(ys) => match find_y(ys, y) {
            Option::None => 0,
            Option::Some(v) => v,
        },
    }
}

/// `upsert` with a first match at `i` is a pointwise update.
proof fn lemma_upsert_at(s: SeriesModel, t: Seq<char>, ys: Seq<(int, int)>, i: int)
    requires
        0 <= i < s.len(),
        s[i].0 == t,
        forall|k: int| 0 <= k < i ==> s[k].0 != t,
    ensures
        upsert(s, t, ys) == s.update(i, (t, ys)),
    decreases i,
{
    if i == 0 {
        assert(upsert(s, t, ys) =~= s.update(0, (t, ys)));
    } else {
        lemma_upsert_at(s.skip(1), t, ys, i - 1);
        assert(seq![s[0]] + s.skip(1).update(i - 1, (t, ys)) =~= s.update(i, (t, ys)));
    }
}

/// `upsert` with no match appends.
proof fn lemma_upsert_none(s: SeriesModel, t: Seq<char>, ys: Seq<(int, int)>)
    requires
        forall|k: int| 0 <= k < s.len() ==> s[k].0 != t,
    ensures
        upsert(s, t, ys) == s + seq![(t, ys)],
    decreases s.len(),
{
    if s.len() == 0 {
        assert(upsert(s, t, ys) =~= s + seq![(t, ys)]);
    } else {
        lemma_upsert_none(s.skip(1), t, ys);
        assert(seq![s[0]] + (s.skip(1) + seq![(t, ys)]) =~= s + seq![(t, ys)]);
    }
}

/// `find_t` with a first match at `i` yields that entry's years.
proof fn lemma_find_t_at(s: SeriesModel, t: Seq<char>, i: int)
    requires
        0 <= i < s.len(),
        s[i].0 == t,
        forall|k: int| 0 <= k < i ==> s[k].0 != t,
    ensures
        find_t(s, t) == Some(s[i].1),
    decreases i,
{
    if i > 0 {
        lemma_find_t_at(s.skip(1), t, i - 1);
    }
}

/// `find_t` with no match yields nothing.
proof fn lemma_find_t_none(s: SeriesModel, t: Seq<char>)
    requires
        forall|k: int| 0 <= k < s.len() ==> s[k].0 != t,
    ensures
        find_t(s, t) == Option::<Seq<(int, int)>>::None,
    decreases s.len(),
{
    if s.len() > 0 {
        lemma_find_t_none(s.skip(1), t);
    }
}

/// `find_y` with a first match at `j` yields that value.
proof fn lemma_find_y_at(ys: Seq<(int, int)>, y: int, j: int)
    requires
        0 <= j < ys.len(),
        ys[j].0 == y,
        forall|k: int| 0 <= k < j ==> ys[k].0 != y,
    ensures
        find_y(ys, y) == Some(ys[j].1),
    decreases j,
{
    if j > 0 {
        lemma_find_y_at(ys.skip(1), y, j - 1);
    }
}

/// `find_y` with no match yields nothing.
proof fn lemma_find_y_none(ys: Seq<(int, int)>, y: int)
    requires
        forall|k: int| 0 <= k < ys.len() ==> ys[k].0 != y,
    ensures
        find_y(ys, y) == Option::<int>::None,
    decreases ys.len(),
{
    if ys.len() > 0 {
        lemma_find_y_none(ys.skip(1), y);
    }
}

/// Index of the first entry for ticker `t`, if any.
fn find_entry(v: &Vec<SeriesEntry>, t: &String) -> (r: Option<usize>)
    ensures
        match r {
            Option::Some(i) => i < v@.len() && v@[i as int].ticker@ == t@ && forall|k: int|
                0 <= k < i ==> v@[k].ticker@ != t@,
            Option::None => forall|k: int| 0 <= k < v@.len() ==> v@[k].ticker@ != t@,
        },
{
    let mut i: usize = 0;
    while i < v.len()
        invariant
            i <= v@.len(),
            forall|k: int| 0 <= k < i ==> v@[k].ticker@ != t@,
        decreases v@.len() - i,
    {
        if v[i].ticker.eq(t) {
            return Some(i);
        }
        i += 1;
    }
    None
}

/// The years of one CSV row, ascending: the last cell is the oldest year.
pub open spec fn row_years(row: Seq<Seq<char>>) -> Seq<(int, int)> {
    if row.len() < 1 {
        Seq::empty()
    } else {
        let m = row.len() - 1;
        Seq::new(m as nat, |k: int| (2023 - m + k, cell_val(row[m - k])))
    }
}

fn row_to_years(row: &Vec<String>) -> (ys: Vec<YearVal>)
    requires
        row@.len() >= 1,
    ensures
        years_model(ys@) == row_years(cells_view(row@)),
        forall|k: int| 0 <= k < ys@.len() ==> iabs(ys@[k].value as int) <= VAL_MAX,
{
    let ghost cv = cells_view(row@);
    let m: usize = row.len() - 1;
    let mut ys: Vec<YearVal> = Vec::new();
    let mut k: usize = 0;
    while k < m
        invariant
            k <= m,
            m == row@.len() - 1,
            cv == cells_view(row@),
            ys@.len() == k,
            years_model(ys@) =~= row_years(cv).subrange(0, k as int),
            forall|q: int| 0 <= q < ys@.len() ==> iabs(ys@[q].value as int) <= VAL_MAX,
        decreases m - k,
    {
        let col: usize = m - k;
        let v: i128 = parse_cell(row[col].as_str());
        let y: i128 = 2023i128 - (col as i128);
        proof {
            assert(cv[col as int] == row@[col as int]@);
        }
        ys.push(YearVal { year: y, value: v });
        proof {
            assert(years_model(ys@) =~= row_years(cv).subrange(0, k + 1));
        }
        k += 1;
    }
    proof {
        assert(row_years(cv).subrange(0, m as int) =~= row_years(cv));
    }
    ys
}

/// One row folded into the table: rows with an empty ticker are skipped.
pub open spec fn step_row(acc: SeriesModel, row: Seq<Seq<char>>) -> SeriesModel {
    if row.len() == 0 || row[0].len() == 0 {
        acc
    } else {
        upsert(acc, row[0], row_years(row))
    }
}

/// The table after the first `n` rows; row 0 is the header and is ignored.
pub open spec fn load_upto(rows: Seq<Seq<Seq<char>>>, n: int) -> SeriesModel
    decreases n,
{
    if n <= 1 {
        Seq::empty()
    } else {
        step_row(load_upto(rows, n - 1), rows[n - 1])
    }
}

/// The whole wide CSV as a metric table.
pub open spec fn load_s(rows: Seq<Seq<Seq<char>>>) -> SeriesModel {
    load_upto(rows, rows.len() as int)
}

/// Replace or append `(t, ys)` in the table.
fn upsert_entry(v: &mut Vec<SeriesEntry>, t: String, ys: Vec<YearVal>)
    ensures
        series_model(final(v)@) == upsert(series_model(old(v)@), t@, years_model(ys@)),
{
    let ghost s0 = series_model(old(v)@);
    let ghost tv = t@;
    let ghost ysm = years_model(ys@);
    match find_entry(v, &t) {
        Option::Some(i) => {
            proof {
                assert(forall|k: int|
                    0 <= k < v@.len() ==> (#[trigger] series_model(v@)[k]) == entry_model(v@[k]));
                lemma_upsert_at(s0, tv, ysm, i as int);
            }
            v.set(i, SeriesEntry { ticker: t, years: ys });
            proof {
                assert(series_model(v@) =~= s0.update(i as int, (tv, ysm)));
            }
        },
        Option::None => {
            proof {
                assert(forall|k: int|
                    0 <= k < v@.len() ==> (#[trigger] series_model(v@)[k]) == entry_model(v@[k]));
                lemma_upsert_none(s0, tv, ysm);
            }
            v.push(SeriesEntry { ticker: t, years: ys });
            proof {
                assert(series_model(v@) =~= s0 + seq![(tv, ysm)]);
            }
        },
    }
}

/// Load one metric's wide CSV table. The header row is ignored, rows with
/// an empty ticker are skipped, and every cell is read leniently.
pub fn load(rows: &Vec<Vec<String>>) -> (r: MetricSeries)
    ensures
        r.model() == load_s(rows_view(rows@)),
        series_bounded(r.model(), VAL_MAX as int),
{
    let ghost rv = rows_view(rows@);
    let mut entries: Vec<SeriesEntry> = Vec::new();
    if rows.len() <= 1 {
        proof {
            assert(series_model(entries@) =~= load_s(rv));
        }
        return MetricSeries { entries };
    }
    let mut i: usize = 1;
    while i < rows.len()
        invariant
            1 <= i <= rows@.len(),
            rv == rows_view(rows@),
            series_model(entries@) == load_upto(rv, i as int),
            series_bounded(series_model(entries@), VAL_MAX as int),
        decreases rows@.len() - i,
    {
        let row: &Vec<String> = &rows[i];
        proof {
            assert(rv[i as int] == cells_view(rows@[i as int]@));
        }
        if row.len() > 0 && !row[0].as_str().is_empty() {
            proof {
                assert(cells_view(row@)[0] == row@[0]@);
            }
            let ys = row_to_years(row);
            let t = row[0].clone();
            let ghost ysm = years_model(ys@);
            proof {
                assert forall|j: int| 0 <= j < ysm.len() implies iabs(#[trigger] ysm[j].1) <= VAL_MAX
                    as int by {
                    assert(ysm[j] == (ys@[j].year as int, ys@[j].value as int));
                }
                lemma_upsert_keeps_bound(series_model(entries@), t@, ysm, VAL_MAX as int);
            }
            upsert_entry(&mut entries, t, ys);
        } else {
            proof {
                if row@.len() > 0 {
                    assert(cells_view(row@)[0] == row@[0]@);
                }
            }
        }
        i += 1;
    }
    MetricSeries { entries }
}

/// `upsert` preserves a series bound when the new years respect it.
proof fn lemma_upsert_keeps_bound(s: SeriesModel, t: Seq<char>, ys: Seq<(int, int)>, b: int)
    requires
        series_bounded(s, b),
        forall|j: int| 0 <= j < ys.len() ==> iabs(#[trigger] ys[j].1) <= b,
    ensures
        series_bounded(upsert(s, t, ys), b),
    decreases s.len(),
{
    if s.len() == 0 {
    } else if s[0].0 == t {
        assert forall|i: int, j: int|
            0 <= i < upsert(s, t, ys).len() && 0 <= j < upsert(s, t, ys)[i].1.len() implies iabs(
            (#[trigger] upsert(s, t, ys)[i].1[j]).1,
        ) <= b by {
            if i == 0 {
            } else {
                assert(upsert(s, t, ys)[i] == s[i]);
            }
        }
    } else {
        assert(series_bounded(s.skip(1), b)) by {
            assert forall|i: int, j: int|
                0 <= i < s.skip(1).len() && 0 <= j < s.skip(1)[i].1.len() implies iabs(
                (#[trigger] s.skip(1)[i].1[j]).1,
            ) <= b by {
                assert(s.skip(1)[i] == s[i + 1]);
            }
        }
        lemma_upsert_keeps_bound(s.skip(1), t, ys, b);
        assert forall|i: int, j: int|
            0 <= i < upsert(s, t, ys).len() && 0 <= j < upsert(s, t, ys)[i].1.len() implies iabs(
            (#[trigger] upsert(s, t, ys)[i].1[j]).1,
        ) <= b by {
            if i == 0 {
                assert(upsert(s, t, ys)[0] == s[0]);
            } else {
                assert(upsert(s, t, ys)[i] == upsert(s.skip(1), t, ys)[i - 1]);
            }
        }
    }
}

/// Years strictly ascend within a year list.
pub open spec fn years_ascending(ys: Seq<(int, int)>) -> bool {
    forall|j: int| 0 <= j < ys.len() - 1 ==> (#[trigger] ys[j]).0 < ys[j + 1].0
}

/// Every ticker's year list of the table ascends strictly.
pub open spec fn series_ascending(s: SeriesModel) -> bool {
    forall|i: int| 0 <= i < s.len() ==> years_ascending((#[trigger] s[i]).1)
}

/// A row's years ascend: the loader stores the oldest column first.
proof fn lemma_row_years_ascending(row: Seq<Seq<char>>)
    ensures
        years_ascending(row_years(row)),
{
}

/// `upsert` keeps the table ascending when the new years ascend.
proof fn lemma_upsert_keeps_ascending(s: SeriesModel, t: Seq<char>, ys: Seq<(int, int)>)
    requires
        series_ascending(s),
        years_ascending(ys),
    ensures
        series_ascending(upsert(s, t, ys)),
    decreases s.len(),
{
    let r = upsert(s, t, ys);
    if s.len() == 0 {
    } else if s[0].0 == t {
        assert forall|i: int| 0 <= i < r.len() implies years_ascending((#[trigger] r[i]).1) by {
            if i > 0 {
                assert(r[i] == s[i]);
            }
        }
    } else {
        assert(series_ascending(s.skip(1))) by {
            assert forall|i: int| 0 <= i < s.skip(1).len() implies years_ascending(
                (#[trigger] s.skip(1)[i]).1,
            ) by {
                assert(s.skip(1)[i] == s[i + 1]);
            }
        }
        lemma_upsert_keeps_ascending(s.skip(1), t, ys);
        assert forall|i: int| 0 <= i < r.len() implies years_ascending((#[trigger] r[i]).1) by {
            if i == 0 {
                assert(r[0] == s[0]);
            } else {
                assert(r[i] == upsert(s.skip(1), t, ys)[i - 1]);
            }
        }
    }
}

/// The loader's invariant: each ticker's stored years ascend strictly.
pub proof fn lemma_load_ascending(rows: Seq<Seq<Seq<char>>>, n: int)
    ensures
        series_ascending(load_upto(rows, n)),
    decreases n,
{
    if n > 1 {
        lemma_load_ascending(rows, n - 1);
        let row = rows[n - 1];
        if !(row.len() == 0 || row[0].len() == 0) {
            lemma_row_years_ascending(row);
            lemma_upsert_keeps_ascending(load_upto(rows, n - 1), row[0], row_years(row));
        }
    }
}

/// Look one `(ticker, year)` up in a table, defaulting to zero, as the
/// joiner does for every non-driving series.
pub fn lookup_value(s: &MetricSeries, t: &String, y: i128, b: i128) -> (r: i128)
    requires
        series_bounded(s.model(), b as int),
        b >= 0,
    ensures
        r as int == value_or0(s.model(), t@, y as int),
        iabs(r as int) <= b,
{
    let ghost sm = s.model();
    proof {
        assert(forall|k: int|
            0 <= k < s.entries@.len() ==> (#[trigger] sm[k]) == entry_model(s.entries@[k]));
    }
    match find_entry(&s.entries, t) {
        Option::None => {
            proof {
                lemma_find_t_none(sm, t@);
            }
            0
        },
        Option::Some(i) => {
            proof {
                lemma_find_t_at(sm, t@, i as int);
            }
            let e: &SeriesEntry = &s.entries[i];
            let ghost ysm = years_model(e.years@);
            let mut j: usize = 0;
            while j < e.years.len()
                invariant
                    sm == s.model(),
                    j <= e.years@.len(),
                    ysm == years_model(e.years@),
                    forall|k: int| 0 <= k < j ==> ysm[k].0 != y as int,
                    find_t(sm, t@) == Some(ysm),
                    0 <= i < sm.len(),
                    sm[i as int].1 == ysm,
                    series_bounded(sm, b as int),
                    b >= 0,
                decreases e.years@.len() - j,
            {
                if e.years[j].year == y {
                    proof {
                        assert(ysm[j as int] == (e.years@[j as int].year as int, e.years@[j as int].value as int));
                        lemma_find_y_at(ysm, y as int, j as int);
                        assert(iabs(sm[i as int].1[j as int].1) <= b);
                    }
                    return e.years[j].value;
                }
                proof {
                    assert(ysm[j as int] == (e.years@[j as int].year as int, e.years@[j as int].value as int));
                }
                j += 1;
            }
            proof {
                lemma_find_y_none(ysm, y as int);
            }
            0
        },
    }
}

} // verus!
