//! The financial metrics joiner and the delta calculator.
//!
//! The assets table drives the join: every `(ticker, year)` it holds
//! becomes one record, with the other metrics and the price change looked
//! up and defaulting to zero when absent. Ratios are guarded: a zero
//! revenue gives a zero profit margin, zero assets give a zero return on
//! assets. Each ticker's records are kept ascending by year, and from the
//! second record on the three year-over-year deltas are filled in.

use vstd::prelude::*;
use crate::fx::{iabs, ratio_s, roa_s, ratio_guarded, roa_from, VAL_MAX, PCT_MAX};
use crate::series::{MetricSeries, SeriesModel, series_bounded, value_or0, lookup_value};

verus! {

/// One fiscal year of one ticker, fully derived.
pub struct StockData {
    pub ticker: String,
    pub year: i128,
    pub assets: i128,
    pub cash: i128,
    pub equity: i128,
    pub profit: i128,
    pub revenue: i128,
    pub price_change: i128,
    pub profit_margin: i128,
    pub roa: i128,
    pub change_in_revenue: Option<i128>,
    pub change_in_profit_margin: Option<i128>,
    pub change_in_roa: Option<i128>,
}

/// Mathematical image of a `StockData`.
pub struct Rec {
    pub ticker: Seq<char>,
    pub year: int,
    pub assets: int,
    pub cash: int,
    pub equity: int,
    pub profit: int,
    pub revenue: int,
    pub price_change: int,
    pub profit_margin: int,
    pub roa: int,
    pub change_in_revenue: Option<int>,
    pub change_in_profit_margin: Option<int>,
    pub change_in_roa: Option<int>,
}

impl StockData {
    pub open spec fn model(self) -> Rec {
        Rec {
            ticker: self.ticker@,
            year: self.year as int,
            assets: self.assets as int,
            cash: self.cash as int,
            equity: self.equity as int,
            profit: self.profit as int,
            revenue: self.revenue as int,
            price_change: self.price_change as int,
            profit_margin: self.profit_margin as int,
            roa: self.roa as int,
            change_in_revenue: match self.change_in_revenue {
                Option::Some(d) => Some(d as int),
                Option::None => None,
            },
            change_in_profit_margin: match self.change_in_profit_margin {
                Option::Some(d) => Some(d as int),
                Option::None => None,
            },
            change_in_roa: match self.change_in_roa {
                Option::Some(d) => Some(d as int),
                Option::None => None,
            },
        }
    }
}

pub open spec fn records_model(v: Seq<StockData>) -> Seq<Rec> {
    v.map(|k: int, r: StockData| r.model())
}

/// One ticker's chronological run of records.
pub struct TickerSeries {
    pub ticker: String,
    pub records: Vec<StockData>,
}

impl TickerSeries {
    pub open spec fn model(self) -> (Seq<char>, Seq<Rec>) {
        (self.ticker@, records_model(self.records@))
    }
}

/// The joined, delta-annotated panel, grouped by ticker.
pub struct Dataset {
    pub groups: Vec<TickerSeries>,
}

pub type DatasetModel = Seq<(Seq<char>, Seq<Rec>)>;

impl Dataset {
    pub open spec fn model(self) -> DatasetModel {
        self.groups@.map(|i: int, g: TickerSeries| g.model())
    }
}

/// One freshly joined record, deltas not yet set.
pub open spec fn record_s(
    t: Seq<char>,
    y: int,
    a: int,
    c: int,
    e: int,
    p: int,
    rv: int,
    pc: int,
) -> Rec {
    Rec {
        ticker: t,
        year: y,
        assets: a,
        cash: c,
        equity: e,
        profit: p,
        revenue: rv,
        price_change: pc,
        profit_margin: ratio_s(p, rv),
        roa: roa_s(ratio_s(p, rv), rv, a),
        change_in_revenue: None,
        change_in_profit_margin: None,
        change_in_roa: None,
    }
}

/// Join one ticker's asset years against the other series.
pub open spec fn join_ticker(
    t: Seq<char>,
    ys: Seq<(int, int)>,
    cash: SeriesModel,
    equity: SeriesModel,
    profit: SeriesModel,
    revenue: SeriesModel,
    prices: SeriesModel,
) -> Seq<Rec> {
    Seq::new(
        ys.len(),
        |k: int|
            record_s(
                t,
                ys[k].0,
                ys[k].1,
                value_or0(cash, t, ys[k].0),
                value_or0(equity, t, ys[k].0),
                value_or0(profit, t, ys[k].0),
                value_or0(revenue, t, ys[k].0),
                value_or0(prices, t, ys[k].0),
            ),
    )
}

/// Record `i` with its deltas against record `i - 1`; the earliest record
/// keeps all three deltas unset.
pub open spec fn deltas_of(rs: Seq<Rec>, i: int) -> Rec {
    if i == 0 {
        rs[0]
    } else {
        Rec {
            change_in_revenue: Some(rs[i].revenue - rs[i - 1].revenue),
            change_in_profit_margin: Some(rs[i].profit_margin - rs[i - 1].profit_margin),
            change_in_roa: Some(rs[i].roa - rs[i - 1].roa),
            ..rs[i]
        }
    }
}

/// The delta calculator over one chronologically ordered run.
pub open spec fn annotate_s(rs: Seq<Rec>) -> Seq<Rec> {
    Seq::new(rs.len(), |i: int| deltas_of(rs, i))
}

/// The whole join-and-annotate step over the six tables.
pub open spec fn process_s(
    assets: SeriesModel,
    cash: SeriesModel,
    equity: SeriesModel,
    profit: SeriesModel,
    revenue: SeriesModel,
    prices: SeriesModel,
) -> DatasetModel {
    Seq::new(
        assets.len(),
        |i: int|
            (
                assets[i].0,
                annotate_s(
                    join_ticker(assets[i].0, assets[i].1, cash, equity, profit, revenue, prices),
                ),
            ),
    )
}

/// Every numeric field of a joined record is within its designed bound.
pub open spec fn rec_bounded(r: Rec) -> bool {
    &&& iabs(r.assets) <= VAL_MAX
    &&& iabs(r.cash) <= VAL_MAX
    &&& iabs(r.equity) <= VAL_MAX
    &&& iabs(r.profit) <= VAL_MAX
    &&& iabs(r.revenue) <= VAL_MAX
    &&& iabs(r.profit_margin) <= VAL_MAX
    &&& iabs(r.roa) <= VAL_MAX
    &&& iabs(r.price_change) <= PCT_MAX
    &&& match r.change_in_revenue {
        Option::Some(d) => iabs(d) <= 2 * VAL_MAX,
        Option::None => true,
    }
    &&& match r.change_in_profit_margin {
        Option::Some(d) => iabs(d) <= 2 * VAL_MAX,
        Option::None => true,
    }
    &&& match r.change_in_roa {
        Option::Some(d) => iabs(d) <= 2 * VAL_MAX,
        Option::None => true,
    }
}

pub open spec fn dataset_bounded(d: DatasetModel) -> bool {
    forall|i: int, j: int|
        0 <= i < d.len() && 0 <= j < d[i].1.len() ==> rec_bounded(#[trigger] d[i].1[j])
}

/// Join the five metric tables and the price table, then annotate each
/// ticker's run with its year-over-year deltas.
#[verifier::loop_isolation(false)]
pub fn join_annotate(
    assets: &MetricSeries,
    cash: &MetricSeries,
    equity: &MetricSeries,
    profit: &MetricSeries,
    revenue: &MetricSeries,
    prices: &MetricSeries,
) -> (r: Dataset)
    requires
        series_bounded(assets.model(), VAL_MAX as int),
        series_bounded(cash.model(), VAL_MAX as int),
        series_bounded(equity.model(), VAL_MAX as int),
        series_bounded(profit.model(), VAL_MAX as int),
        series_bounded(revenue.model(), VAL_MAX as int),
        series_bounded(prices.model(), PCT_MAX as int),
    ensures
        r.model() == process_s(
            assets.model(),
            cash.model(),
            equity.model(),
            profit.model(),
            revenue.model(),
            prices.model(),
        ),
        dataset_bounded(r.model()),
{
    let ghost ps = process_s(
        assets.model(),
        cash.model(),
        equity.model(),
        profit.model(),
        revenue.model(),
        prices.model(),
    );
    let mut groups: Vec<TickerSeries> = Vec::new();
    let mut i: usize = 0;
    while i < assets.entries.len()
        invariant
            i <= assets.entries@.len(),
            groups@.len() == i,
            forall|q: int| 0 <= q < i ==> (#[trigger] groups@[q].model()) == ps[q],
            forall|q: int, j: int|
                0 <= q < i && 0 <= j < groups@[q].records@.len() ==> rec_bounded(
                    (#[trigger] groups@[q].records@[j]).model(),
                ),
        decreases assets.entries@.len() - i,
    {
        let entry = &assets.entries[i];
        let t: String = entry.ticker.clone();
        let ghost tv = entry.ticker@;
        let ghost ysm = crate::series::years_model(entry.years@);
        let ghost jt = join_ticker(
            tv,
            ysm,
            cash.model(),
            equity.model(),
            profit.model(),
            revenue.model(),
            prices.model(),
        );
        let ghost ann = annotate_s(jt);
        proof {
            assert(assets.model()[i as int] == crate::series::entry_model(assets.entries@[i as int]));
        }
        let mut recs: Vec<StockData> = Vec::new();
        let mut k: usize = 0;
        while k < entry.years.len()
            invariant
                k <= entry.years@.len(),
                recs@.len() == k,
                forall|q: int| 0 <= q < k ==> (#[trigger] recs@[q]).model() == ann[q],
                forall|q: int| 0 <= q < k ==> rec_bounded((#[trigger] recs@[q]).model()),
            decreases entry.years@.len() - k,
        {
            let y: i128 = entry.years[k].year;
            let a: i128 = entry.years[k].value;
            proof {
                assert(ysm[k as int] == (entry.years@[k as int].year as int, entry.years@[
                    k as int].value as int));
                assert(iabs((assets.model()[i as int].1)[k as int].1) <= VAL_MAX as int);
            }
            let c: i128 = lookup_value(cash, &t, y, VAL_MAX);
            let e: i128 = lookup_value(equity, &t, y, VAL_MAX);
            let p: i128 = lookup_value(profit, &t, y, VAL_MAX);
            let rv: i128 = lookup_value(revenue, &t, y, VAL_MAX);
            let pc: i128 = lookup_value(prices, &t, y, PCT_MAX);
            let pm: i128 = ratio_guarded(p, rv);
            let ro: i128 = roa_from(pm, rv, a);
            let mut d_rev: Option<i128> = None;
            let mut d_pm: Option<i128> = None;
            let mut d_roa: Option<i128> = None;
            if k >= 1 {
                let prev = &recs[k - 1];
                proof {
                    assert(prev.model() == ann[k - 1]);
                    assert(ann[k - 1] == deltas_of(jt, k - 1));
                    assert(jt[k - 1] == record_s(
                        tv,
                        ysm[k - 1].0,
                        ysm[k - 1].1,
                        value_or0(cash.model(), tv, ysm[k - 1].0),
                        value_or0(equity.model(), tv, ysm[k - 1].0),
                        value_or0(profit.model(), tv, ysm[k - 1].0),
                        value_or0(revenue.model(), tv, ysm[k - 1].0),
                        value_or0(prices.model(), tv, ysm[k - 1].0),
                    ));
                }
                d_rev = Some(rv - prev.revenue);
                d_pm = Some(pm - prev.profit_margin);
                d_roa = Some(ro - prev.roa);
            }
            let rec = StockData {
                ticker: t.clone(),
                year: y,
                assets: a,
                cash: c,
                equity: e,
                profit: p,
                revenue: rv,
                price_change: pc,
                profit_margin: pm,
                roa: ro,
                change_in_revenue: d_rev,
                change_in_profit_margin: d_pm,
                change_in_roa: d_roa,
            };
            proof {
                assert(jt[k as int] == record_s(
                    tv,
                    ysm[k as int].0,
                    ysm[k as int].1,
                    value_or0(cash.model(), tv, ysm[k as int].0),
                    value_or0(equity.model(), tv, ysm[k as int].0),
                    value_or0(profit.model(), tv, ysm[k as int].0),
                    value_or0(revenue.model(), tv, ysm[k as int].0),
                    value_or0(prices.model(), tv, ysm[k as int].0),
                ));
                assert(rec.model() == deltas_of(jt, k as int));
            }
            recs.push(rec);
            k += 1;
        }
        let g = TickerSeries { ticker: t, records: recs };
        proof {
            assert(records_model(g.records@) =~= ann);
            assert(g.model() == ps[i as int]);
        }
        groups.push(g);
        i += 1;
    }
    let d = Dataset { groups };
    proof {
        assert(d.model() =~= ps);
        assert forall|i2: int, j: int|
            0 <= i2 < d.model().len() && 0 <= j < d.model()[i2].1.len() implies rec_bounded(
            #[trigger] d.model()[i2].1[j],
        ) by {
            assert(d.model()[i2] == d.groups@[i2].model());
            assert(d.model()[i2].1[j] == d.groups@[i2].records@[j].model());
        }
    }
    d
}

} // verus!
