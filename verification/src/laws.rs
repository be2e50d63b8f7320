//! The laws the pipeline obeys, stated and proved over its models.

use vstd::prelude::*;
use crate::features::{
    FRow, categorize_s, feature_s, emit_at, pairs_upto, build_upto, build_s, ticker_pairs,
};
use crate::records::{Rec, DatasetModel, record_s, annotate_s, join_ticker, process_s};
use crate::series::{SeriesModel, find_t, value_or0, series_ascending, load_s, lemma_load_ascending};
use crate::pipeline::features_of_csvs;

verus! {

/// The categorizer is total: every percent change, however extreme,
/// falls into one of the four ordinal classes.
pub proof fn lemma_categorize_total(pc: int)
    ensures
        0 <= categorize_s(pc) <= 3,
{
}

/// The zero-division guards: a year with zero revenue has a zero profit
/// margin, and a year with zero assets has a zero return on assets,
/// whatever the other fields hold.
pub proof fn lemma_zero_division_guards(
    t: Seq<char>,
    y: int,
    a: int,
    c: int,
    e: int,
    p: int,
    rv: int,
    pc: int,
)
    ensures
        rv == 0 ==> record_s(t, y, a, c, e, p, rv, pc).profit_margin == 0,
        a == 0 ==> record_s(t, y, a, c, e, p, rv, pc).roa == 0,
{
}

/// Delta correctness: in an annotated run, every record after the first
/// carries exactly the differences of revenue, profit margin and return
/// on assets against its immediate predecessor, and the first record of
/// a freshly joined run keeps its deltas unset.
pub proof fn lemma_delta_correctness(rs: Seq<Rec>, i: int)
    requires
        0 <= i < rs.len(),
    ensures
        i >= 1 ==> annotate_s(rs)[i].change_in_revenue == Some(rs[i].revenue - rs[i - 1].revenue),
        i >= 1 ==> annotate_s(rs)[i].change_in_profit_margin == Some(
            rs[i].profit_margin - rs[i - 1].profit_margin,
        ),
        i >= 1 ==> annotate_s(rs)[i].change_in_roa == Some(rs[i].roa - rs[i - 1].roa),
        i == 0 ==> annotate_s(rs)[0] == rs[0],
{
}

/// Helper for the alignment law over one ticker's run.
proof fn lemma_pairs_alignment(rs: Seq<Rec>, n: int, k: int)
    requires
        0 <= k < pairs_upto(rs, n).len(),
    ensures
        exists|i: int|
            #[trigger] emit_at(rs, i) && i < n && pairs_upto(rs, n)[k] == (
                feature_s(rs[i - 1], rs[i]),
                categorize_s(rs[i].price_change),
            ),
    decreases n,
{
    if n <= 2 {
    } else {
        let prev = pairs_upto(rs, n - 1);
        if k < prev.len() {
            lemma_pairs_alignment(rs, n - 1, k);
            let i = choose|i: int|
                #[trigger] emit_at(rs, i) && i < n - 1 && pairs_upto(rs, n - 1)[k] == (
                    feature_s(rs[i - 1], rs[i]),
                    categorize_s(rs[i].price_change),
                );
            assert(pairs_upto(rs, n)[k] == prev[k]);
            assert(emit_at(rs, i) && i < n && pairs_upto(rs, n)[k] == (
                feature_s(rs[i - 1], rs[i]),
                categorize_s(rs[i].price_change),
            ));
        } else {
            assert(emit_at(rs, n - 1));
            assert(pairs_upto(rs, n)[k] == (
                feature_s(rs[n - 2], rs[n - 1]),
                categorize_s(rs[n - 1].price_change),
            ));
        }
    }
}

/// Helper for the alignment law over a ticker prefix.
proof fn lemma_build_alignment(ds: DatasetModel, n: int, k: int)
    requires
        0 <= k < build_upto(ds, n).len(),
    ensures
        exists|q: int, i: int|
            0 <= q < n && #[trigger] emit_at(ds[q].1, i) && #[trigger] build_upto(ds, n)[k] == (
                feature_s(ds[q].1[i - 1], ds[q].1[i]),
                categorize_s(ds[q].1[i].price_change),
            ),
    decreases n,
{
    if n <= 0 {
    } else {
        let prev = build_upto(ds, n - 1);
        if k < prev.len() {
            lemma_build_alignment(ds, n - 1, k);
            let (q, i) = choose|q: int, i: int|
                0 <= q < n - 1 && #[trigger] emit_at(ds[q].1, i) && #[trigger] build_upto(
                    ds,
                    n - 1,
                )[k] == (
                    feature_s(ds[q].1[i - 1], ds[q].1[i]),
                    categorize_s(ds[q].1[i].price_change),
                );
            assert(build_upto(ds, n)[k] == prev[k]);
            assert(0 <= q < n && emit_at(ds[q].1, i) && build_upto(ds, n)[k] == (
                feature_s(ds[q].1[i - 1], ds[q].1[i]),
                categorize_s(ds[q].1[i].price_change),
            ));
        } else {
            lemma_pairs_alignment(ds[n - 1].1, ds[n - 1].1.len() as int, k - prev.len());
            let i = choose|i: int|
                #[trigger] emit_at(ds[n - 1].1, i) && i < ds[n - 1].1.len() && ticker_pairs(
                    ds[n - 1].1,
                )[k - prev.len()] == (
                    feature_s(ds[n - 1].1[i - 1], ds[n - 1].1[i]),
                    categorize_s(ds[n - 1].1[i].price_change),
                );
            assert(build_upto(ds, n)[k] == ticker_pairs(ds[n - 1].1)[k - prev.len()]);
            assert(0 <= n - 1 < n && emit_at(ds[n - 1].1, i) && build_upto(ds, n)[k] == (
                feature_s(ds[n - 1].1[i - 1], ds[n - 1].1[i]),
                categorize_s(ds[n - 1].1[i].price_change),
            ));
        }
    }
}

/// Row-label alignment: every emitted pair, feature row and label alike,
/// derives from one and the same record of the panel — the label from
/// that record's price change, the features from the transition into it.
pub proof fn lemma_row_label_alignment(ds: DatasetModel, k: int)
    requires
        0 <= k < build_s(ds).len(),
    ensures
        exists|q: int, i: int|
            0 <= q < ds.len() && #[trigger] emit_at(ds[q].1, i) && #[trigger] build_s(ds)[k] == (
                feature_s(ds[q].1[i - 1], ds[q].1[i]),
                categorize_s(ds[q].1[i].price_change),
            ),
{
    lemma_build_alignment(ds, ds.len() as int, k);
}

/// Idempotence: the pipeline's output is a function of the input bytes
/// alone, so two runs over identical buffers yield identical feature
/// matrices and label vectors.
pub proof fn lemma_pipeline_idempotent(
    a1: Seq<u8>,
    c1: Seq<u8>,
    e1: Seq<u8>,
    p1: Seq<u8>,
    r1: Seq<u8>,
    pr1: Seq<u8>,
    a2: Seq<u8>,
    c2: Seq<u8>,
    e2: Seq<u8>,
    p2: Seq<u8>,
    r2: Seq<u8>,
    pr2: Seq<u8>,
)
    requires
        a1 == a2,
        c1 == c2,
        e1 == e2,
        p1 == p2,
        r1 == r2,
        pr1 == pr2,
    ensures
        features_of_csvs(a1, c1, e1, p1, r1, pr1) == features_of_csvs(a2, c2, e2, p2, r2, pr2),
{
}

/// A record's delta fields are set together: the earliest record of a
/// run carries none of the three, every later record carries all three.
pub proof fn lemma_deltas_set_together(
    assets: SeriesModel,
    cash: SeriesModel,
    equity: SeriesModel,
    profit: SeriesModel,
    revenue: SeriesModel,
    prices: SeriesModel,
    q: int,
    j: int,
)
    requires
        0 <= q < assets.len(),
        0 <= j < assets[q].1.len(),
    ensures
        ({
            let r = process_s(assets, cash, equity, profit, revenue, prices)[q].1[j];
            &&& (j == 0 ==> r.change_in_revenue == Option::<int>::None
                && r.change_in_profit_margin == Option::<int>::None && r.change_in_roa
                == Option::<int>::None)
            &&& (j >= 1 ==> r.change_in_revenue is Some && r.change_in_profit_margin is Some
                && r.change_in_roa is Some)
        }),
{
    let jt = join_ticker(assets[q].0, assets[q].1, cash, equity, profit, revenue, prices);
    assert(process_s(assets, cash, equity, profit, revenue, prices)[q].1 == annotate_s(jt));
}

/// Assets drive the join: the panel has exactly one group per assets
/// ticker, in order, and one record per assets year, carrying that year.
pub proof fn lemma_assets_drive_the_join(
    assets: SeriesModel,
    cash: SeriesModel,
    equity: SeriesModel,
    profit: SeriesModel,
    revenue: SeriesModel,
    prices: SeriesModel,
    q: int,
    j: int,
)
    requires
        0 <= q < assets.len(),
        0 <= j < assets[q].1.len(),
    ensures
        process_s(assets, cash, equity, profit, revenue, prices).len() == assets.len(),
        process_s(assets, cash, equity, profit, revenue, prices)[q].0 == assets[q].0,
        process_s(assets, cash, equity, profit, revenue, prices)[q].1.len() == assets[q].1.len(),
        process_s(assets, cash, equity, profit, revenue, prices)[q].1[j].year == assets[q].1[j].0,
        process_s(assets, cash, equity, profit, revenue, prices)[q].1[j].assets == assets[q].1[j].1,
{
    let jt = join_ticker(assets[q].0, assets[q].1, cash, equity, profit, revenue, prices);
    assert(process_s(assets, cash, equity, profit, revenue, prices)[q].1 == annotate_s(jt));
    assert(annotate_s(jt)[j].year == jt[j].year);
    assert(annotate_s(jt)[j].assets == jt[j].assets);
}

/// The panel's ordering invariant: driven by a loaded assets table, each
/// ticker's records ascend strictly by year, so consecutive-index deltas
/// are taken between chronologically adjacent years.
pub proof fn lemma_dataset_years_ascending(
    assets: SeriesModel,
    cash: SeriesModel,
    equity: SeriesModel,
    profit: SeriesModel,
    revenue: SeriesModel,
    prices: SeriesModel,
    q: int,
    j: int,
)
    requires
        series_ascending(assets),
        0 <= q < assets.len(),
        0 <= j < assets[q].1.len() - 1,
    ensures
        process_s(assets, cash, equity, profit, revenue, prices)[q].1[j].year < process_s(
            assets,
            cash,
            equity,
            profit,
            revenue,
            prices,
        )[q].1[j + 1].year,
{
    let ds = process_s(assets, cash, equity, profit, revenue, prices);
    let jt = join_ticker(assets[q].0, assets[q].1, cash, equity, profit, revenue, prices);
    assert(ds[q].1 == annotate_s(jt));
    assert(annotate_s(jt)[j].year == jt[j].year);
    assert(annotate_s(jt)[j + 1].year == jt[j + 1].year);
    assert(jt[j].year == assets[q].1[j].0);
    assert(jt[j + 1].year == assets[q].1[j + 1].0);
}

/// Every table the wide-CSV loader builds satisfies the ordering the
/// joiner relies on.
pub proof fn lemma_loaded_table_ascending(rows: Seq<Seq<Seq<char>>>)
    ensures
        series_ascending(load_s(rows)),
{
    lemma_load_ascending(rows, rows.len() as int);
}

/// Missing-series tolerance: a ticker absent from one metric table joins
/// with that metric read as zero in every one of its years, and the join
/// raises no error for it.
pub proof fn lemma_missing_series_tolerance(
    t: Seq<char>,
    ys: Seq<(int, int)>,
    cash: SeriesModel,
    equity: SeriesModel,
    profit: SeriesModel,
    revenue: SeriesModel,
    prices: SeriesModel,
    k: int,
)
    requires
        find_t(cash, t) == Option::<Seq<(int, int)>>::None,
        0 <= k < ys.len(),
    ensures
        join_ticker(t, ys, cash, equity, profit, revenue, prices)[k].cash == 0,
{
    assert(value_or0(cash, t, ys[k].0) == 0);
}

} // verus!
