//! The feature/label builder and the price-change categorizer.
//!
//! Rows are emitted per ticker for each record from the third year on
//! whose predecessor carries all three deltas; each row pairs six derived
//! numbers with an ordinal label for the year's price change. Feature
//! rows and labels are aligned one to one: entry `k` of both derives from
//! the same record.

use vstd::prelude::*;
use crate::fx::{ratio_s, mul_fx_s, ratio_guarded, mul_fx, SCALE};
use crate::records::{Rec, Dataset, DatasetModel, dataset_bounded, rec_bounded};

verus! {

/// Bucket a percent price change (fixed-point, scaled) into an ordinal
/// class: below -50 percent is 0, below 0 is 1, below 50 is 2, else 3.
pub open spec fn categorize_s(pc: int) -> int {
    if pc < -50 * SCALE {
        0
    } else if pc < 0 {
        1
    } else if pc < 50 * SCALE {
        2
    } else {
        3
    }
}

pub fn categorize(pc: i128) -> (r: u8)
    ensures
        r as int == categorize_s(pc as int),
{
    if pc < -50000000 {
        0
    } else if pc < 0 {
        1
    } else if pc < 50000000 {
        2
    } else {
        3
    }
}

/// One emitted feature row.
#[derive(Debug, PartialEq, Eq, Structural, Clone, Copy)]
pub struct FeatureRow {
    pub d_revenue: i128,
    pub d_profit_margin: i128,
    pub d_roa: i128,
    pub d_cash_to_assets: i128,
    pub d_equity_to_assets: i128,
    pub rev_margin_product: i128,
}

/// Mathematical image of a feature row.
pub struct FRow {
    pub d_revenue: int,
    pub d_profit_margin: int,
    pub d_roa: int,
    pub d_cash_to_assets: int,
    pub d_equity_to_assets: int,
    pub rev_margin_product: int,
}

impl FeatureRow {
    pub open spec fn model(self) -> FRow {
        FRow {
            d_revenue: self.d_revenue as int,
            d_profit_margin: self.d_profit_margin as int,
            d_roa: self.d_roa as int,
            d_cash_to_assets: self.d_cash_to_assets as int,
            d_equity_to_assets: self.d_equity_to_assets as int,
            rev_margin_product: self.rev_margin_product as int,
        }
    }
}

pub open spec fn opt0(o: Option<int>) -> int {
    match o {
        Option::Some(v) => v,
        Option::None => 0,
    }
}

/// A record carries all three deltas.
pub open spec fn has_deltas(r: Rec) -> bool {
    match r.change_in_revenue {
        Option::Some(_) => match r.change_in_profit_margin {
            Option::Some(_) => match r.change_in_roa {
                Option::Some(_) => true,
                Option::None => false,
            },
            Option::None => false,
        },
        Option::None => false,
    }
}

/// Guarded cash-to-assets ratio of a record.
pub open spec fn c2a_s(r: Rec) -> int {
    ratio_s(r.cash, r.assets)
}

/// Guarded equity-to-assets ratio of a record.
pub open spec fn e2a_s(r: Rec) -> int {
    ratio_s(r.equity, r.assets)
}

/// The six features of the transition from `prev` to `cur`.
pub open spec fn feature_s(prev: Rec, cur: Rec) -> FRow {
    FRow {
        d_revenue: opt0(cur.change_in_revenue),
        d_profit_margin: opt0(cur.change_in_profit_margin),
        d_roa: opt0(cur.change_in_roa),
        d_cash_to_assets: c2a_s(cur) - c2a_s(prev),
        d_equity_to_assets: e2a_s(cur) - e2a_s(prev),
        rev_margin_product: mul_fx_s(opt0(cur.change_in_revenue), opt0(cur.change_in_profit_margin)),
    }
}

/// Index `i` of a run yields a row: never the first two records, and only
/// when the predecessor carries its deltas.
pub open spec fn emit_at(rs: Seq<Rec>, i: int) -> bool {
    2 <= i < rs.len() && has_deltas(rs[i - 1])
}

/// The rows and labels of one run's first `n` records.
pub open spec fn pairs_upto(rs: Seq<Rec>, n: int) -> Seq<(FRow, int)>
    decreases n,
{
    if n <= 2 {
        Seq::empty()
    } else {
        pairs_upto(rs, n - 1) + (if emit_at(rs, n - 1) {
            seq![
                (feature_s(rs[n - 2], rs[n - 1]), categorize_s(rs[n - 1].price_change)),
            ]
        } else {
            Seq::<(FRow, int)>::empty()
        })
    }
}

/// The rows and labels of one ticker's run.
pub open spec fn ticker_pairs(rs: Seq<Rec>) -> Seq<(FRow, int)> {
    pairs_upto(rs, rs.len() as int)
}

/// The rows and labels of the first `n` tickers.
pub open spec fn build_upto(ds: DatasetModel, n: int) -> Seq<(FRow, int)>
    decreases n,
{
    if n <= 0 {
        Seq::empty()
    } else {
        build_upto(ds, n - 1) + ticker_pairs(ds[n - 1].1)
    }
}

/// The whole feature matrix and label vector, as aligned pairs.
pub open spec fn build_s(ds: DatasetModel) -> Seq<(FRow, int)> {
    build_upto(ds, ds.len() as int)
}

fn opt_or0(o: &Option<i128>) -> (r: i128)
    ensures
        r as int == opt0(
            match *o {
                Option::Some(v) => Some(v as int),
                Option::None => None,
            },
        ),
{
    match o {
        Option::Some(v) => *v,
        Option::None => 0,
    }
}

/// Walk the annotated panel and emit the feature matrix and the label
/// vector, row `k` of each deriving from the same record.
#[verifier::loop_isolation(false)]
pub fn build_features(ds: &Dataset) -> (r: (Vec<FeatureRow>, Vec<u8>))
    requires
        dataset_bounded(ds.model()),
    ensures
        r.0@.len() == build_s(ds.model()).len(),
        r.1@.len() == build_s(ds.model()).len(),
        forall|k: int|
            0 <= k < r.0@.len() ==> (#[trigger] r.0@[k]).model() == build_s(ds.model())[k].0,
        forall|k: int| 0 <= k < r.1@.len() ==> r.1@[k] as int == build_s(ds.model())[k].1,
{
    let ghost dm = ds.model();
    let mut feats: Vec<FeatureRow> = Vec::new();
    let mut labels: Vec<u8> = Vec::new();
    let mut q: usize = 0;
    while q < ds.groups.len()
        invariant
            q <= ds.groups@.len(),
            feats@.len() == build_upto(dm, q as int).len(),
            labels@.len() == build_upto(dm, q as int).len(),
            forall|k: int|
                0 <= k < feats@.len() ==> (#[trigger] feats@[k]).model() == build_upto(
                    dm,
                    q as int,
                )[k].0,
            forall|k: int|
                0 <= k < labels@.len() ==> labels@[k] as int == build_upto(dm, q as int)[k].1,
        decreases ds.groups@.len() - q,
    {
        let g = &ds.groups[q];
        let ghost rsm = crate::records::records_model(g.records@);
        proof {
            assert(dm[q as int] == g.model());
            assert(forall|k: int|
                0 <= k < g.records@.len() ==> (#[trigger] rsm[k]) == g.records@[k].model());
        }
        let ghost base = build_upto(dm, q as int);
        let n = g.records.len();
        if n > 2 {
            let mut i: usize = 2;
            while i < n
                invariant
                    2 <= i <= n,
                    n == g.records@.len(),
                    rsm == crate::records::records_model(g.records@),
                    feats@.len() == base.len() + pairs_upto(rsm, i as int).len(),
                    labels@.len() == feats@.len(),
                    forall|k: int|
                        0 <= k < feats@.len() ==> (#[trigger] feats@[k]).model() == (base
                            + pairs_upto(rsm, i as int))[k].0,
                    forall|k: int|
                        0 <= k < labels@.len() ==> labels@[k] as int == (base + pairs_upto(
                            rsm,
                            i as int,
                        ))[k].1,
                decreases n - i,
            {
                let prev = &g.records[i - 1];
                let cur = &g.records[i];
                proof {
                    assert(rsm[i - 1] == prev.model());
                    assert(rsm[i as int] == cur.model());
                    assert(rec_bounded(rsm[i - 1])) by {
                        assert(rsm[i - 1] == dm[q as int].1[i - 1]);
                    }
                    assert(rec_bounded(rsm[i as int])) by {
                        assert(rsm[i as int] == dm[q as int].1[i as int]);
                    }
                }
                if prev.change_in_revenue.is_some() && prev.change_in_profit_margin.is_some()
                    && prev.change_in_roa.is_some() {
                    let drev = opt_or0(&cur.change_in_revenue);
                    let dpm = opt_or0(&cur.change_in_profit_margin);
                    let droa = opt_or0(&cur.change_in_roa);
                    let c2a_cur = ratio_guarded(cur.cash, cur.assets);
                    let c2a_prev = ratio_guarded(prev.cash, prev.assets);
                    let e2a_cur = ratio_guarded(cur.equity, cur.assets);
                    let e2a_prev = ratio_guarded(prev.equity, prev.assets);
                    let prod = mul_fx(drev, dpm);
                    let lab = categorize(cur.price_change);
                    let row = FeatureRow {
                        d_revenue: drev,
                        d_profit_margin: dpm,
                        d_roa: droa,
                        d_cash_to_assets: c2a_cur - c2a_prev,
                        d_equity_to_assets: e2a_cur - e2a_prev,
                        rev_margin_product: prod,
                    };
                    proof {
                        assert(row.model() == feature_s(rsm[i - 1], rsm[i as int]));
                        assert(pairs_upto(rsm, i + 1) =~= pairs_upto(rsm, i as int) + seq![
                            (
                                feature_s(rsm[i - 1], rsm[i as int]),
                                categorize_s(rsm[i as int].price_change),
                            ),
                        ]);
                        assert((base + pairs_upto(rsm, i + 1)) =~= (base + pairs_upto(
                            rsm,
                            i as int,
                        )) + seq![
                            (
                                feature_s(rsm[i - 1], rsm[i as int]),
                                categorize_s(rsm[i as int].price_change),
                            ),
                        ]);
                    }
                    feats.push(row);
                    labels.push(lab);
                } else {
                    proof {
                        assert(!emit_at(rsm, i as int));
                        assert(pairs_upto(rsm, i + 1) =~= pairs_upto(rsm, i as int));
                    }
                }
                i += 1;
            }
        } else {
            proof {
                assert(pairs_upto(rsm, n as int) =~= Seq::<(FRow, int)>::empty());
                assert(base + pairs_upto(rsm, n as int) =~= base);
            }
        }
        proof {
            assert(build_upto(dm, q + 1) =~= base + ticker_pairs(dm[q as int].1));
            assert(ticker_pairs(dm[q as int].1) == pairs_upto(rsm, rsm.len() as int));
        }
        q += 1;
    }
    proof {
        assert(build_upto(dm, dm.len() as int) == build_s(dm));
    }
    (feats, labels)
}

} // verus!
