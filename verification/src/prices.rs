//! The price-change calculator.
//!
//! The price-history CSV has a header naming one ticker per column from
//! index 2 on, and data rows carrying a date in column 1. Observations of
//! a ticker and year are split by month into an early bucket (month at
//! most 2) and a late bucket (month at least 11); other months are
//! ignored. A year's percent change is taken between the two bucket
//! averages, and only years with both buckets occupied produce an entry.

use vstd::prelude::*;
use crate::fx::{
    iabs, sat_add_s, sat_add, avg_s, avg_clamped, pct_change_s, pct_change, SUM_MAX, PCT_MAX,
};
use crate::parse::{cell_val, fixed_num, parse_cell, parse_fixed};
use crate::series::{
    MetricSeries, SeriesEntry, SeriesModel, YearVal, cells_view, rows_view, series_bounded,
    series_model, years_model, entry_model,
};

verus! {

/// Counts saturate far above any real observation count.
pub const CNT_MAX: i128 = 1000000000000000000000000000000;

/// One year's bucket sums and counts for one ticker.
#[derive(Clone, Copy)]
pub struct PriceYearAcc {
    pub year: i128,
    pub early_sum: i128,
    pub early_cnt: i128,
    pub late_sum: i128,
    pub late_cnt: i128,
}

/// One ticker's accumulated observations.
pub struct PriceTickerAcc {
    pub ticker: String,
    pub years: Vec<PriceYearAcc>,
}

/// Mathematical image of one year's buckets.
pub struct YAcc {
    pub year: int,
    pub es: int,
    pub ec: int,
    pub ls: int,
    pub lc: int,
}

pub type PAccModel = Seq<(Seq<char>, Seq<YAcc>)>;

impl PriceYearAcc {
    pub open spec fn model(self) -> YAcc {
        YAcc {
            year: self.year as int,
            es: self.early_sum as int,
            ec: self.early_cnt as int,
            ls: self.late_sum as int,
            lc: self.late_cnt as int,
        }
    }
}

pub open spec fn yaccs_model(ys: Seq<PriceYearAcc>) -> Seq<YAcc> {
    ys.map(|k: int, ya: PriceYearAcc| ya.model())
}

pub open spec fn pacc_model(v: Seq<PriceTickerAcc>) -> PAccModel {
    v.map(|k: int, e: PriceTickerAcc| (e.ticker@, yaccs_model(e.years@)))
}

/// A saturating count step.
pub open spec fn cnt_inc(c: int) -> int {
    if c < CNT_MAX {
        c + 1
    } else {
        c
    }
}

/// An empty bucket pair for year `y`.
pub open spec fn fresh_ya(y: int) -> YAcc {
    YAcc { year: y, es: 0, ec: 0, ls: 0, lc: 0 }
}

/// One observation folded into a year's buckets: months up to 2 feed the
/// early bucket, months from 11 on the late one, the rest are dropped.
pub open spec fn ya_add(ya: YAcc, m: int, p: int) -> YAcc {
    if m <= 2 {
        YAcc { es: sat_add_s(ya.es, p), ec: cnt_inc(ya.ec), ..ya }
    } else if m >= 11 {
        YAcc { ls: sat_add_s(ya.ls, p), lc: cnt_inc(ya.lc), ..ya }
    } else {
        ya
    }
}

/// Fold an observation into a ticker's year list, first match or append.
pub open spec fn add_to_years(ys: Seq<YAcc>, y: int, m: int, p: int) -> Seq<YAcc>
    decreases ys.len(),
{
    if ys.len() == 0 {
        seq![ya_add(fresh_ya(y), m, p)]
    } else if ys[0].year == y {
        seq![ya_add(ys[0], m, p)] + ys.skip(1)
    } else {
        seq![ys[0]] + add_to_years(ys.skip(1), y, m, p)
    }
}

/// Fold an observation into the accumulator, first match or append.
pub open spec fn add_obs(acc: PAccModel, t: Seq<char>, y: int, m: int, p: int) -> PAccModel
    decreases acc.len(),
{
    if acc.len() == 0 {
        seq![(t, add_to_years(Seq::empty(), y, m, p))]
    } else if acc[0].0 == t {
        seq![(acc[0].0, add_to_years(acc[0].1, y, m, p))] + acc.skip(1)
    } else {
        seq![acc[0]] + add_obs(acc.skip(1), t, y, m, p)
    }
}

/// A data row is usable when its date field has at least seven characters.
pub open spec fn row_date_ok(row: Seq<Seq<char>>) -> bool {
    row.len() >= 2 && row[1].len() >= 7
}

pub open spec fn row_year(row: Seq<Seq<char>>) -> int {
    fixed_num(row[1].subrange(0, 4))
}

pub open spec fn row_month(row: Seq<Seq<char>>) -> int {
    fixed_num(row[1].subrange(5, 7))
}

/// A missing price cell reads as zero, like an unparsable one.
pub open spec fn obs_price(row: Seq<Seq<char>>, c: int) -> int {
    if c < row.len() {
        cell_val(row[c])
    } else {
        0
    }
}

/// Fold a row's observations for the header columns from `c` on.
pub open spec fn add_row_cols(
    acc: PAccModel,
    header: Seq<Seq<char>>,
    row: Seq<Seq<char>>,
    c: int,
) -> PAccModel
    decreases header.len() - c,
{
    if c < 2 || c >= header.len() {
        acc
    } else {
        add_row_cols(
            add_obs(acc, header[c], row_year(row), row_month(row), obs_price(row, c)),
            header,
            row,
            c + 1,
        )
    }
}

pub open spec fn add_row(acc: PAccModel, header: Seq<Seq<char>>, row: Seq<Seq<char>>) -> PAccModel {
    if row_date_ok(row) {
        add_row_cols(acc, header, row, 2)
    } else {
        acc
    }
}

/// The accumulator after the first `n` rows; row 0 is the header.
pub open spec fn accum_upto(rows: Seq<Seq<Seq<char>>>, n: int) -> PAccModel
    decreases n,
{
    if n <= 1 || rows.len() == 0 {
        Seq::empty()
    } else {
        add_row(accum_upto(rows, n - 1), rows[0], rows[n - 1])
    }
}

/// Percent change of one year's buckets.
pub open spec fn pc_of(ya: YAcc) -> int {
    pct_change_s(avg_s(ya.es, ya.ec), avg_s(ya.ls, ya.lc))
}

/// Keep only years with both buckets occupied, as `(year, change)` pairs.
pub open spec fn finalize_years(ys: Seq<YAcc>) -> Seq<(int, int)>
    decreases ys.len(),
{
    if ys.len() == 0 {
        Seq::empty()
    } else {
        (if ys[0].ec > 0 && ys[0].lc > 0 {
            seq![(ys[0].year, pc_of(ys[0]))]
        } else {
            Seq::<(int, int)>::empty()
        }) + finalize_years(ys.skip(1))
    }
}

pub open spec fn finalize(acc: PAccModel) -> SeriesModel {
    Seq::new(acc.len(), |i: int| (acc[i].0, finalize_years(acc[i].1)))
}

/// The whole price-history CSV as a price-change table.
pub open spec fn price_changes_s(rows: Seq<Seq<Seq<char>>>) -> SeriesModel {
    finalize(accum_upto(rows, rows.len() as int))
}

/// All sums and counts of the accumulator are within their bounds.
pub open spec fn pacc_bounded(acc: PAccModel) -> bool {
    forall|i: int, j: int|
        0 <= i < acc.len() && 0 <= j < acc[i].1.len() ==> {
            let ya = #[trigger] acc[i].1[j];
            iabs(ya.es) <= SUM_MAX && iabs(ya.ls) <= SUM_MAX && 0 <= ya.ec <= CNT_MAX && 0
                <= ya.lc <= CNT_MAX
        }
}

pub open spec fn ya_bounded(ya: YAcc) -> bool {
    iabs(ya.es) <= SUM_MAX && iabs(ya.ls) <= SUM_MAX && 0 <= ya.ec <= CNT_MAX && 0 <= ya.lc
        <= CNT_MAX
}

proof fn lemma_ya_add_keeps(ya: YAcc, m: int, p: int)
    requires
        ya_bounded(ya),
        iabs(p) <= SUM_MAX,
    ensures
        ya_bounded(ya_add(ya, m, p)),
{
}

/// `add_to_years` with a first match at `j` is a pointwise update.
proof fn lemma_add_years_at(ys: Seq<YAcc>, y: int, m: int, p: int, j: int)
    requires
        0 <= j < ys.len(),
        ys[j].year == y,
        forall|k: int| 0 <= k < j ==> ys[k].year != y,
    ensures
        add_to_years(ys, y, m, p) == ys.update(j, ya_add(ys[j], m, p)),
    decreases j,
{
    if j == 0 {
        assert(add_to_years(ys, y, m, p) =~= ys.update(0, ya_add(ys[0], m, p)));
    } else {
        lemma_add_years_at(ys.skip(1), y, m, p, j - 1);
        assert(seq![ys[0]] + ys.skip(1).update(j - 1, ya_add(ys[j], m, p)) =~= ys.update(
            j,
            ya_add(ys[j], m, p),
        ));
    }
}

/// `add_to_years` with no match appends a fresh year.
proof fn lemma_add_years_none(ys: Seq<YAcc>, y: int, m: int, p: int)
    requires
        forall|k: int| 0 <= k < ys.len() ==> ys[k].year != y,
    ensures
        add_to_years(ys, y, m, p) == ys + seq![ya_add(fresh_ya(y), m, p)],
    decreases ys.len(),
{
    if ys.len() == 0 {
        assert(add_to_years(ys, y, m, p) =~= ys + seq![ya_add(fresh_ya(y), m, p)]);
    } else {
        lemma_add_years_none(ys.skip(1), y, m, p);
        assert(seq![ys[0]] + (ys.skip(1) + seq![ya_add(fresh_ya(y), m, p)]) =~= ys + seq![
            ya_add(fresh_ya(y), m, p),
        ]);
    }
}

/// `add_obs` with a first ticker match at `i` is a pointwise update.
proof fn lemma_add_obs_at(acc: PAccModel, t: Seq<char>, y: int, m: int, p: int, i: int)
    requires
        0 <= i < acc.len(),
        acc[i].0 == t,
        forall|k: int| 0 <= k < i ==> acc[k].0 != t,
    ensures
        add_obs(acc, t, y, m, p) == acc.update(i, (acc[i].0, add_to_years(acc[i].1, y, m, p))),
    decreases i,
{
    if i == 0 {
        assert(add_obs(acc, t, y, m, p) =~= acc.update(
            0,
            (acc[0].0, add_to_years(acc[0].1, y, m, p)),
        ));
    } else {
        lemma_add_obs_at(acc.skip(1), t, y, m, p, i - 1);
        assert(seq![acc[0]] + acc.skip(1).update(
            i - 1,
            (acc[i].0, add_to_years(acc[i].1, y, m, p)),
        ) =~= acc.update(i, (acc[i].0, add_to_years(acc[i].1, y, m, p))));
    }
}

/// `add_obs` with no ticker match appends a fresh entry.
proof fn lemma_add_obs_none(acc: PAccModel, t: Seq<char>, y: int, m: int, p: int)
    requires
        forall|k: int| 0 <= k < acc.len() ==> acc[k].0 != t,
    ensures
        add_obs(acc, t, y, m, p) == acc + seq![(t, add_to_years(Seq::empty(), y, m, p))],
    decreases acc.len(),
{
    if acc.len() == 0 {
        assert(add_obs(acc, t, y, m, p) =~= acc + seq![(t, add_to_years(Seq::empty(), y, m, p))]);
    } else {
        lemma_add_obs_none(acc.skip(1), t, y, m, p);
        assert(seq![acc[0]] + (acc.skip(1) + seq![(t, add_to_years(Seq::empty(), y, m, p))]) =~= acc
            + seq![(t, add_to_years(Seq::empty(), y, m, p))]);
    }
}

/// `add_obs` keeps the accumulator bounds when the price is bounded.
proof fn lemma_add_obs_keeps(acc: PAccModel, t: Seq<char>, y: int, m: int, p: int)
    requires
        pacc_bounded(acc),
        iabs(p) <= SUM_MAX,
    ensures
        pacc_bounded(add_obs(acc, t, y, m, p)),
    decreases acc.len(),
{
    let r = add_obs(acc, t, y, m, p);
    if acc.len() == 0 {
        lemma_ya_add_keeps(fresh_ya(y), m, p);
        assert forall|i: int, j: int| 0 <= i < r.len() && 0 <= j < r[i].1.len() implies ya_bounded(
            #[trigger] r[i].1[j],
        ) by {
            assert(add_to_years(Seq::empty(), y, m, p) =~= seq![ya_add(fresh_ya(y), m, p)]);
        }
    } else if acc[0].0 == t {
        assert forall|i: int, j: int| 0 <= i < r.len() && 0 <= j < r[i].1.len() implies ya_bounded(
            #[trigger] r[i].1[j],
        ) by {
            if i == 0 {
                lemma_add_years_keeps_pt(acc[0].1, y, m, p, j);
            } else {
                assert(r[i] == acc[i]);
                assert(ya_bounded(acc[i].1[j]));
            }
        }
    } else {
        assert(pacc_bounded(acc.skip(1))) by {
            assert forall|i: int, j: int|
                0 <= i < acc.skip(1).len() && 0 <= j < acc.skip(1)[i].1.len() implies ya_bounded(
                #[trigger] acc.skip(1)[i].1[j],
            ) by {
                assert(acc.skip(1)[i] == acc[i + 1]);
                assert(ya_bounded(acc[i + 1].1[j]));
            }
        }
        lemma_add_obs_keeps(acc.skip(1), t, y, m, p);
        assert forall|i: int, j: int| 0 <= i < r.len() && 0 <= j < r[i].1.len() implies ya_bounded(
            #[trigger] r[i].1[j],
        ) by {
            if i == 0 {
                assert(r[0] == acc[0]);
                assert(ya_bounded(acc[0].1[j]));
            } else {
                assert(r[i] == add_obs(acc.skip(1), t, y, m, p)[i - 1]);
            }
        }
    }
}

/// Pointwise bound for `add_to_years` applied to a bounded year list.
proof fn lemma_add_years_keeps_pt(ys: Seq<YAcc>, y: int, m: int, p: int, j: int)
    requires
        forall|k: int| 0 <= k < ys.len() ==> ya_bounded(#[trigger] ys[k]),
        iabs(p) <= SUM_MAX,
        0 <= j < add_to_years(ys, y, m, p).len(),
    ensures
        ya_bounded(add_to_years(ys, y, m, p)[j]),
    decreases ys.len(),
{
    if ys.len() == 0 {
        lemma_ya_add_keeps(fresh_ya(y), m, p);
    } else if ys[0].year == y {
        if j == 0 {
            lemma_ya_add_keeps(ys[0], m, p);
        } else {
            assert(add_to_years(ys, y, m, p)[j] == ys[j]);
        }
    } else {
        if j == 0 {
        } else {
            assert(forall|k: int| 0 <= k < ys.skip(1).len() ==> ya_bounded(#[trigger] ys.skip(1)[k]));
            lemma_add_years_keeps_pt(ys.skip(1), y, m, p, j - 1);
            assert(add_to_years(ys, y, m, p)[j] == add_to_years(ys.skip(1), y, m, p)[j - 1]);
        }
    }
}

/// Fold one observation into the running accumulator.
#[verifier::loop_isolation(false)]
fn add_obs_exec(acc: &mut Vec<PriceTickerAcc>, t: &String, y: i128, m: u32, p: i128)
    requires
        pacc_bounded(pacc_model(old(acc)@)),
        iabs(p as int) <= SUM_MAX,
    ensures
        pacc_model(final(acc)@) == add_obs(pacc_model(old(acc)@), t@, y as int, m as int, p as int),
        pacc_bounded(pacc_model(final(acc)@)),
{
    let ghost a0 = pacc_model(old(acc)@);
    proof {
        lemma_add_obs_keeps(a0, t@, y as int, m as int, p as int);
        assert(forall|k: int|
            0 <= k < acc@.len() ==> (#[trigger] a0[k]) == (acc@[k].ticker@, yaccs_model(
                acc@[k].years@,
            )));
    }
    // Find the ticker, first match.
    let mut i: usize = 0;
    let n = acc.len();
    let mut found: bool = false;
    while i < n && !found
        invariant
            i <= n,
            n == acc@.len(),
            found ==> i >= 1 && acc@[i - 1].ticker@ == t@ && forall|k: int|
                0 <= k < i - 1 ==> acc@[k].ticker@ != t@,
            !found ==> forall|k: int| 0 <= k < i ==> acc@[k].ticker@ != t@,
        decreases n - i,
    {
        if acc[i].ticker.eq(t) {
            found = true;
        }
        i += 1;
    }
    if found {
        let idx = i - 1;
        proof {
            lemma_add_obs_at(a0, t@, y as int, m as int, p as int, idx as int);
        }
        update_years(acc, idx, y, m, p);
        proof {
            assert(pacc_model(acc@) =~= a0.update(
                idx as int,
                (a0[idx as int].0, add_to_years(a0[idx as int].1, y as int, m as int, p as int)),
            ));
        }
    } else {
        proof {
            lemma_add_obs_none(a0, t@, y as int, m as int, p as int);
        }
        let mut ys: Vec<PriceYearAcc> = Vec::new();
        ys.push(ya_add_exec(new_ya(y), m, p));
        acc.push(PriceTickerAcc { ticker: t.clone(), years: ys });
        proof {
            assert(yaccs_model(acc@[acc@.len() - 1].years@) =~= add_to_years(
                Seq::empty(),
                y as int,
                m as int,
                p as int,
            ));
            assert(pacc_model(acc@) =~= a0 + seq![
                (t@, add_to_years(Seq::empty(), y as int, m as int, p as int)),
            ]);
        }
    }
}

fn new_ya(y: i128) -> (r: PriceYearAcc)
    ensures
        r.model() == fresh_ya(y as int),
{
    PriceYearAcc { year: y, early_sum: 0, early_cnt: 0, late_sum: 0, late_cnt: 0 }
}

fn ya_add_exec(ya: PriceYearAcc, m: u32, p: i128) -> (r: PriceYearAcc)
    requires
        ya_bounded(ya.model()),
        iabs(p as int) <= SUM_MAX,
    ensures
        r.model() == ya_add(ya.model(), m as int, p as int),
{
    if m <= 2 {
        let es = sat_add(ya.early_sum, p);
        let ec = if ya.early_cnt < CNT_MAX {
            ya.early_cnt + 1
        } else {
            ya.early_cnt
        };
        PriceYearAcc { early_sum: es, early_cnt: ec, ..ya }
    } else if m >= 11 {
        let ls = sat_add(ya.late_sum, p);
        let lc = if ya.late_cnt < CNT_MAX {
            ya.late_cnt + 1
        } else {
            ya.late_cnt
        };
        PriceYearAcc { late_sum: ls, late_cnt: lc, ..ya }
    } else {
        ya
    }
}

/// Fold the observation into entry `idx`'s year list, first match or append.
#[verifier::loop_isolation(false)]
fn update_years(acc: &mut Vec<PriceTickerAcc>, idx: usize, y: i128, m: u32, p: i128)
    requires
        idx < old(acc)@.len(),
        pacc_bounded(pacc_model(old(acc)@)),
        iabs(p as int) <= SUM_MAX,
    ensures
        final(acc)@.len() == old(acc)@.len(),
        forall|k: int| 0 <= k < old(acc)@.len() && k != idx ==> final(acc)@[k] == old(acc)@[k],
        final(acc)@[idx as int].ticker == old(acc)@[idx as int].ticker,
        yaccs_model(final(acc)@[idx as int].years@) == add_to_years(
            yaccs_model(old(acc)@[idx as int].years@),
            y as int,
            m as int,
            p as int,
        ),
{
    let mut ta: PriceTickerAcc = acc.remove(idx);
    let ghost ys0 = yaccs_model(ta.years@);
    proof {
        assert(forall|k: int|
            0 <= k < ta.years@.len() ==> (#[trigger] ys0[k]) == ta.years@[k].model());
        assert(forall|k: int| 0 <= k < ys0.len() ==> ya_bounded(#[trigger] ys0[k])) by {
            assert(pacc_model(old(acc)@)[idx as int] == (old(acc)@[idx as int].ticker@, ys0));
            assert(forall|k: int|
                0 <= k < ys0.len() ==> (#[trigger] ys0[k]) == pacc_model(old(acc)@)[idx as int].1[k]);
        }
    }
    let n = ta.years.len();
    let mut j: usize = 0;
    let mut found: bool = false;
    while j < n && !found
        invariant
            j <= n,
            n == ta.years@.len(),
            ys0 == yaccs_model(ta.years@),
            found ==> j >= 1 && ta.years@[j - 1].year == y && forall|k: int|
                0 <= k < j - 1 ==> ta.years@[k].year != y,
            !found ==> forall|k: int| 0 <= k < j ==> ta.years@[k].year != y,
        decreases n - j,
    {
        if ta.years[j].year == y {
            found = true;
        }
        j += 1;
    }
    if found {
        let jdx = j - 1;
        proof {
            assert(ys0[jdx as int] == ta.years@[jdx as int].model());
            assert(forall|k: int| 0 <= k < jdx ==> ys0[k].year != y as int) by {
                assert(forall|k: int|
                    0 <= k < jdx ==> (#[trigger] ys0[k]) == ta.years@[k].model());
            }
            lemma_add_years_at(ys0, y as int, m as int, p as int, jdx as int);
        }
        let cur: PriceYearAcc = ta.years[jdx];
        let nya = ya_add_exec(cur, m, p);
        ta.years.set(jdx, nya);
        proof {
            assert(yaccs_model(ta.years@) =~= ys0.update(
                jdx as int,
                ya_add(ys0[jdx as int], m as int, p as int),
            ));
        }
    } else {
        proof {
            assert(forall|k: int| 0 <= k < ys0.len() ==> ys0[k].year != y as int) by {
                assert(forall|k: int|
                    0 <= k < ys0.len() ==> (#[trigger] ys0[k]) == ta.years@[k].model());
            }
            lemma_add_years_none(ys0, y as int, m as int, p as int);
        }
        let nya = ya_add_exec(new_ya(y), m, p);
        ta.years.push(nya);
        proof {
            assert(yaccs_model(ta.years@) =~= ys0 + seq![
                ya_add(fresh_ya(y as int), m as int, p as int),
            ]);
        }
    }
    acc.insert(idx, ta);
    proof {
        assert(forall|k: int|
            0 <= k < old(acc)@.len() && k != idx ==> acc@[k] == old(acc)@[k]);
    }
}

/// Compute the whole price-change table from the price-history CSV.
#[verifier::loop_isolation(false)]
pub fn compute_price_changes(rows: &Vec<Vec<String>>) -> (r: MetricSeries)
    ensures
        r.model() == price_changes_s(rows_view(rows@)),
        series_bounded(r.model(), PCT_MAX as int),
{
    let ghost rv = rows_view(rows@);
    let mut acc: Vec<PriceTickerAcc> = Vec::new();
    if rows.len() == 0 {
        let entries: Vec<SeriesEntry> = Vec::new();
        proof {
            assert(series_model(entries@) =~= finalize(accum_upto(rv, rv.len() as int)));
        }
        return MetricSeries { entries };
    }
    let mut i: usize = 1;
    while i < rows.len()
        invariant
            1 <= i <= rows@.len(),
            pacc_model(acc@) == accum_upto(rv, i as int),
            pacc_bounded(pacc_model(acc@)),
        decreases rows@.len() - i,
    {
        let row: &Vec<String> = &rows[i];
        proof {
            assert(rv[i as int] == cells_view(rows@[i as int]@));
            assert(rv[0] == cells_view(rows@[0]@));
        }
        if row.len() >= 2 {
            let date: &String = &row[1];
            proof {
                assert(cells_view(row@)[1] == row@[1]@);
            }
            if date.as_str().unicode_len() >= 7 {
                let year: u32 = parse_fixed(date.as_str(), 0, 4);
                let month: u32 = parse_fixed(date.as_str(), 5, 7);
                let ghost yv = row_year(rv[i as int]);
                let ghost mv = row_month(rv[i as int]);
                proof {
                    assert(yv == fixed_num(date@.subrange(0, 4)));
                    assert(mv == fixed_num(date@.subrange(5, 7)));
                }
                let yy: i128 = year as i128;
                let ghost a_in = pacc_model(acc@);
                let header: &Vec<String> = &rows[0];
                let hn = header.len();
                let mut c: usize = 2;
                while c < hn
                    invariant
                        2 <= c,
                        c <= hn || c == 2,
                        hn == rv[0].len(),
                        pacc_bounded(pacc_model(acc@)),
                        add_row_cols(a_in, rv[0], rv[i as int], 2) == add_row_cols(
                            pacc_model(acc@),
                            rv[0],
                            rv[i as int],
                            c as int,
                        ),
                    decreases hn - c,
                {
                    let t: &String = &header[c];
                    proof {
                        assert(rv[0][c as int] == rows@[0]@[c as int]@);
                    }
                    let p: i128 = if c < row.len() {
                        proof {
                            assert(cells_view(row@)[c as int] == row@[c as int]@);
                        }
                        parse_cell(row[c].as_str())
                    } else {
                        0
                    };
                    add_obs_exec(&mut acc, t, yy, month, p);
                    c += 1;
                }
                proof {
                    assert(add_row(a_in, rv[0], rv[i as int]) == pacc_model(acc@));
                }
            } else {
                proof {
                    assert(!row_date_ok(rv[i as int]));
                }
            }
        } else {
            proof {
                assert(!row_date_ok(rv[i as int]));
            }
        }
        i += 1;
    }
    // Finalize: keep only years with both buckets occupied.
    let mut entries: Vec<SeriesEntry> = Vec::new();
    let ghost am = pacc_model(acc@);
    let mut q: usize = 0;
    while q < acc.len()
        invariant
            q <= acc@.len(),
            am == pacc_model(acc@),
            entries@.len() == q,
            forall|k: int|
                0 <= k < q ==> (#[trigger] entry_model(entries@[k])) == (
                    am[k].0,
                    finalize_years(am[k].1),
                ),
            forall|k: int, j: int|
                0 <= k < q && 0 <= j < entries@[k].years@.len() ==> iabs(
                    (#[trigger] entries@[k].years@[j]).value as int,
                ) <= PCT_MAX,
        decreases acc@.len() - q,
    {
        let e = &acc[q];
        let ghost ysm = yaccs_model(e.years@);
        proof {
            assert(am[q as int] == (e.ticker@, ysm));
            assert(forall|k: int|
                0 <= k < e.years@.len() ==> (#[trigger] ysm[k]) == e.years@[k].model());
        }
        let mut out: Vec<YearVal> = Vec::new();
        proof {
            assert(ysm.skip(0) =~= ysm);
            assert(years_model(out@) + finalize_years(ysm.skip(0)) =~= finalize_years(ysm));
        }
        let mut j: usize = 0;
        while j < e.years.len()
            invariant
                j <= e.years@.len(),
                ysm == yaccs_model(e.years@),
                years_model(out@) + finalize_years(ysm.skip(j as int)) == finalize_years(ysm),
                forall|k: int|
                    0 <= k < out@.len() ==> iabs((#[trigger] out@[k]).value as int) <= PCT_MAX,
            decreases e.years@.len() - j,
        {
            let ya = &e.years[j];
            proof {
                assert(ysm[j as int] == e.years@[j as int].model());
                assert(ya_bounded(ysm[j as int])) by {
                    assert(ysm[j as int] == am[q as int].1[j as int]);
                }
                assert(ysm.skip(j as int)[0] == ysm[j as int]);
                assert(ysm.skip(j as int).skip(1) =~= ysm.skip(j + 1));
            }
            if ya.early_cnt > 0 && ya.late_cnt > 0 {
                let fa: i128 = avg_clamped(ya.early_sum, ya.early_cnt);
                let la: i128 = avg_clamped(ya.late_sum, ya.late_cnt);
                let pc: i128 = pct_change(fa, la);
                out.push(YearVal { year: ya.year, value: pc });
                proof {
                    assert(years_model(out@) =~= years_model(out@.drop_last()) + seq![
                        (ya.year as int, pc as int),
                    ]);
                    assert(years_model(out@) + finalize_years(ysm.skip(j + 1)) =~= finalize_years(
                        ysm,
                    ));
                }
            } else {
                proof {
                    assert(finalize_years(ysm.skip(j as int)) == finalize_years(ysm.skip(j + 1)));
                }
            }
            j += 1;
        }
        proof {
            assert(finalize_years(ysm.skip(e.years@.len() as int)) =~= Seq::<(int, int)>::empty());
            assert(years_model(out@) =~= finalize_years(ysm));
        }
        entries.push(SeriesEntry { ticker: e.ticker.clone(), years: out });
        q += 1;
    }
    let r = MetricSeries { entries };
    proof {
        assert(r.model() =~= finalize(am));
        assert(accum_upto(rv, rv.len() as int) == am);
        assert forall|i2: int, j2: int|
            0 <= i2 < r.model().len() && 0 <= j2 < r.model()[i2].1.len() implies iabs(
            (#[trigger] r.model()[i2].1[j2]).1,
        ) <= PCT_MAX as int by {
            assert(r.model()[i2] == entry_model(entries@[i2]));
            assert(r.model()[i2].1[j2] == (entries@[i2].years@[j2].year as int, entries@[i2].years@[j2].value as int));
        }
    }
    r
}

} // verus!
