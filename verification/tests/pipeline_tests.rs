//! End-to-end tests of the panel pipeline over concrete CSV inputs.
//!
//! All numeric expectations are in the library's fixed-point form: a
//! value scaled by one million.

use stock_features::features::categorize;
use stock_features::pipeline::{build_feature_dataset, process_stock_data, PipelineError};
use stock_features::records::Dataset;

const S: i128 = 1_000_000;

fn bytes(s: &str) -> Vec<u8> {
    s.as_bytes().to_vec()
}

/// Five metric files and a price file for one three-year ticker `FAKE`.
///
/// Columns run 2022, 2021, 2020 left to right; the pipeline stores years
/// ascending, so records come out as 2020, 2021, 2022.
fn three_year_inputs() -> (Vec<u8>, Vec<u8>, Vec<u8>, Vec<u8>, Vec<u8>, Vec<u8>) {
    let assets = bytes("t,2022,2021,2020\nFAKE,200,100,80\n");
    let cash = bytes("t,2022,2021,2020\nFAKE,100,50,40\n");
    let equity = bytes("t,2022,2021,2020\nFAKE,60,30,20\n");
    let profit = bytes("t,2022,2021,2020\nFAKE,50,20,8\n");
    let revenue = bytes("t,2022,2021,2020\nFAKE,200,100,80\n");
    let prices = bytes(
        "i,date,FAKE\n\
         0,2022-01-10,10\n\
         1,2022-11-10,20\n\
         2,2021-02-01,8\n\
         3,2021-12-01,4\n",
    );
    (assets, cash, equity, profit, revenue, prices)
}

fn run_three_year() -> Dataset {
    let (a, c, e, p, r, pr) = three_year_inputs();
    process_stock_data(&a, &c, &e, &p, &r, &pr).unwrap()
}

#[test]
fn categorizer_boundaries() {
    assert_eq!(categorize(-60 * S), 0);
    assert_eq!(categorize(-50 * S), 1);
    assert_eq!(categorize(-30 * S), 1);
    assert_eq!(categorize(0), 2);
    assert_eq!(categorize(10 * S), 2);
    assert_eq!(categorize(49_999_000), 2);
    assert_eq!(categorize(50 * S), 3);
    assert_eq!(categorize(70 * S), 3);
}

#[test]
fn join_builds_ascending_years_with_ratios() {
    let d = run_three_year();
    assert_eq!(d.groups.len(), 1);
    let g = &d.groups[0];
    assert_eq!(g.ticker, "FAKE");
    assert_eq!(g.records.len(), 3);
    assert_eq!(g.records[0].year, 2020);
    assert_eq!(g.records[1].year, 2021);
    assert_eq!(g.records[2].year, 2022);
    // 2021: profit 20 over revenue 100 gives margin 0.2; roa 0.2 of assets 100.
    assert_eq!(g.records[1].assets, 100 * S);
    assert_eq!(g.records[1].profit_margin, S / 5);
    assert_eq!(g.records[1].roa, S / 5);
    // 2022: margin 50/200 = 0.25; roa 50/200 = 0.25.
    assert_eq!(g.records[2].profit_margin, S / 4);
    assert_eq!(g.records[2].roa, S / 4);
}

#[test]
fn delta_correctness_three_years() {
    let d = run_three_year();
    let g = &d.groups[0];
    // The earliest year keeps its deltas unset.
    assert_eq!(g.records[0].change_in_revenue, None);
    assert_eq!(g.records[0].change_in_profit_margin, None);
    assert_eq!(g.records[0].change_in_roa, None);
    // 2021 against 2020: revenue 100 - 80.
    assert_eq!(g.records[1].change_in_revenue, Some(20 * S));
    // 2022 against 2021: revenue 200 - 100; margin 0.25 - 0.2; roa alike.
    assert_eq!(g.records[2].change_in_revenue, Some(100 * S));
    assert_eq!(g.records[2].change_in_profit_margin, Some(S / 20));
    assert_eq!(g.records[2].change_in_roa, Some(S / 20));
}

#[test]
fn feature_row_construction() {
    let (a, c, e, p, r, pr) = three_year_inputs();
    let (feats, labels) = build_feature_dataset(&a, &c, &e, &p, &r, &pr).unwrap();
    // Only the 2022 record has a predecessor that itself carries deltas.
    assert_eq!(feats.len(), 1);
    assert_eq!(labels.len(), 1);
    let row = &feats[0];
    assert_eq!(row.d_revenue, 100 * S);
    assert_eq!(row.d_profit_margin, S / 20);
    assert_eq!(row.d_roa, S / 20);
    // cash/assets is 0.5 in both years, equity/assets 0.3 in both years.
    assert_eq!(row.d_cash_to_assets, 0);
    assert_eq!(row.d_equity_to_assets, 0);
    // (100 * S) * (S / 20) / S = 5 * S.
    assert_eq!(row.rev_margin_product, 5 * S);
    // 2022 price change: early avg 10, late avg 20, so +100 percent.
    assert_eq!(labels[0], 3);
}

#[test]
fn two_years_emit_no_rows() {
    let assets = bytes("t,2022,2021\nFAKE,200,100\n");
    let cash = bytes("t,2022,2021\nFAKE,100,50\n");
    let equity = bytes("t,2022,2021\nFAKE,60,30\n");
    let profit = bytes("t,2022,2021\nFAKE,50,20\n");
    let revenue = bytes("t,2022,2021\nFAKE,200,100\n");
    let prices = bytes("i,date,FAKE\n0,2022-01-10,10\n1,2022-11-10,20\n");
    let (feats, labels) = build_feature_dataset(
        &assets, &cash, &equity, &profit, &revenue, &prices,
    )
    .unwrap();
    assert_eq!(feats.len(), 0);
    assert_eq!(labels.len(), 0);
}

#[test]
fn row_label_alignment() {
    // Two tickers with three years each: two rows, labels in step.
    let assets = bytes("t,2022,2021,2020\nAAA,200,100,80\nBBB,300,150,120\n");
    let cash = bytes("t,2022,2021,2020\nAAA,100,50,40\nBBB,30,15,12\n");
    let equity = bytes("t,2022,2021,2020\nAAA,60,30,20\nBBB,90,45,36\n");
    let profit = bytes("t,2022,2021,2020\nAAA,50,20,8\nBBB,60,30,24\n");
    let revenue = bytes("t,2022,2021,2020\nAAA,200,100,80\nBBB,300,150,120\n");
    let prices = bytes(
        "i,date,AAA,BBB\n\
         0,2022-01-10,10,100\n\
         1,2022-11-10,20,40\n",
    );
    let (feats, labels) = build_feature_dataset(
        &assets, &cash, &equity, &profit, &revenue, &prices,
    )
    .unwrap();
    assert_eq!(feats.len(), 2);
    assert_eq!(labels.len(), 2);
    // AAA gained 100 percent in 2022, BBB lost 60 percent.
    assert_eq!(labels[0], 3);
    assert_eq!(labels[1], 0);
    assert_eq!(feats[0].d_revenue, 100 * S);
    assert_eq!(feats[1].d_revenue, 150 * S);
}

#[test]
fn pipeline_idempotent() {
    let (a, c, e, p, r, pr) = three_year_inputs();
    let first = build_feature_dataset(&a, &c, &e, &p, &r, &pr).unwrap();
    let second = build_feature_dataset(&a, &c, &e, &p, &r, &pr).unwrap();
    assert_eq!(first.0, second.0);
    assert_eq!(first.1, second.1);
}

#[test]
fn missing_series_tolerated_as_zero() {
    let assets = bytes("t,2022,2021\nNOC,200,100\n");
    let cash = bytes("t,2022,2021\nOTHER,1,2\n");
    let equity = bytes("t,2022,2021\nNOC,60,30\n");
    let profit = bytes("t,2022,2021\nNOC,50,20\n");
    let revenue = bytes("t,2022,2021\nNOC,200,100\n");
    let prices = bytes("i,date,NOC\n0,2022-01-10,10\n");
    let d = process_stock_data(&assets, &cash, &equity, &profit, &revenue, &prices).unwrap();
    assert_eq!(d.groups.len(), 1);
    for rec in &d.groups[0].records {
        assert_eq!(rec.cash, 0);
    }
}

#[test]
fn zero_division_guards() {
    // Zero revenue: margin 0 even with profit; zero assets: roa 0.
    let assets = bytes("t,2022,2021\nZRO,0,100\n");
    let cash = bytes("t,2022,2021\nZRO,1,1\n");
    let equity = bytes("t,2022,2021\nZRO,1,1\n");
    let profit = bytes("t,2022,2021\nZRO,50,20\n");
    let revenue = bytes("t,2022,2021\nZRO,10,0\n");
    let prices = bytes("i,date,ZRO\n0,2022-01-10,10\n");
    let d = process_stock_data(&assets, &cash, &equity, &profit, &revenue, &prices).unwrap();
    let g = &d.groups[0];
    // 2021: revenue 0, so margin 0, while assets are 100.
    assert_eq!(g.records[0].year, 2021);
    assert_eq!(g.records[0].profit_margin, 0);
    // 2022: assets 0, so roa 0, while margin is 50/10 = 5.
    assert_eq!(g.records[1].year, 2022);
    assert_eq!(g.records[1].profit_margin, 5 * S);
    assert_eq!(g.records[1].roa, 0);
}

#[test]
fn lenient_cells_default_to_zero() {
    let assets = bytes("t,2022,2021,2020\nLEN,abc,1e5,10000000000000\n");
    let cash = bytes("t,2022\nLEN,0\n");
    let equity = bytes("t,2022\nLEN,0\n");
    let profit = bytes("t,2022\nLEN,0\n");
    let revenue = bytes("t,2022\nLEN,0\n");
    let prices = bytes("i,date,LEN\n0,2022-01-10,1\n");
    let d = process_stock_data(&assets, &cash, &equity, &profit, &revenue, &prices).unwrap();
    let g = &d.groups[0];
    // "abc" fails to parse, "1e5" is outside the plain decimal grammar,
    // and ten trillion exceeds the representable magnitude: all read 0.
    assert_eq!(g.records[2].year, 2022);
    for rec in &g.records {
        assert_eq!(rec.assets, 0);
    }
}

#[test]
fn decimal_cells_parse_exactly() {
    let assets = bytes("t,2022,2021\nDEC,12.5,-3.25\n");
    let cash = bytes("t,2022\nDEC,0.0000019\n");
    let equity = bytes("t,2022\nDEC,7.\n");
    let profit = bytes("t,2022\nDEC,1\n");
    let revenue = bytes("t,2022\nDEC,3\n");
    let prices = bytes("i,date,DEC\n0,2022-01-10,1\n");
    let d = process_stock_data(&assets, &cash, &equity, &profit, &revenue, &prices).unwrap();
    let g = &d.groups[0];
    assert_eq!(g.records[0].assets, -3_250_000);
    assert_eq!(g.records[1].assets, 12_500_000);
    // The seventh fractional digit is truncated.
    assert_eq!(g.records[1].cash, 1);
    assert_eq!(g.records[1].equity, 7 * S);
    // Margin 1/3 truncates at six places.
    assert_eq!(g.records[1].profit_margin, 333_333);
}

#[test]
fn ragged_csv_is_rejected() {
    let good = bytes("t,2022\nAAA,1\n");
    let bad = bytes("t,2022\nAAA\n");
    let prices = bytes("i,date,AAA\n0,2022-01-10,1\n");
    match process_stock_data(&bad, &good, &good, &good, &good, &prices) {
        Err(e) => assert_eq!(e, PipelineError::MalformedCsv),
        Ok(_) => panic!("a ragged CSV must be rejected"),
    }
}

#[test]
fn quoted_fields_are_single_cells() {
    let assets = bytes("t,2022\n\"A,B\",7\n");
    let cash = bytes("t,2022\n\"A,B\",1\n");
    let equity = bytes("t,2022\n\"A,B\",1\n");
    let profit = bytes("t,2022\n\"A,B\",1\n");
    let revenue = bytes("t,2022\n\"A,B\",1\n");
    let prices = bytes("i,date,\"A,B\"\n0,2022-01-10,1\n");
    let d = process_stock_data(&assets, &cash, &equity, &profit, &revenue, &prices).unwrap();
    assert_eq!(d.groups.len(), 1);
    assert_eq!(d.groups[0].ticker, "A,B");
    assert_eq!(d.groups[0].records[0].assets, 7 * S);
}

#[test]
fn empty_tickers_are_skipped_and_later_rows_replace() {
    let assets = bytes("t,2022\n,5\nDUP,1\nDUP,2\n");
    let cash = bytes("t,2022\nDUP,0\n");
    let equity = bytes("t,2022\nDUP,0\n");
    let profit = bytes("t,2022\nDUP,0\n");
    let revenue = bytes("t,2022\nDUP,0\n");
    let prices = bytes("i,date,DUP\n0,2022-01-10,1\n");
    let d = process_stock_data(&assets, &cash, &equity, &profit, &revenue, &prices).unwrap();
    assert_eq!(d.groups.len(), 1);
    assert_eq!(d.groups[0].ticker, "DUP");
    assert_eq!(d.groups[0].records[0].assets, 2 * S);
}

#[test]
fn price_years_need_both_buckets() {
    // 2021 has only an early observation, so 2021 has no price change and
    // its label falls back to categorize(0) = 2; 2022 has both buckets.
    let assets = bytes("t,2022,2021,2020,2019\nPB,200,100,80,60\n");
    let cash = bytes("t,2022\nPB,0\n");
    let equity = bytes("t,2022\nPB,0\n");
    let profit = bytes("t,2022\nPB,0\n");
    let revenue = bytes("t,2022\nPB,0\n");
    let prices = bytes(
        "i,date,PB\n\
         0,2021-01-10,10\n\
         1,2022-02-01,10\n\
         2,2022-12-01,4\n",
    );
    let d = process_stock_data(&assets, &cash, &equity, &profit, &revenue, &prices).unwrap();
    let g = &d.groups[0];
    assert_eq!(g.records.len(), 4);
    // Years ascend 2019..2022; only 2022 carries a price change: -60 percent.
    assert_eq!(g.records[2].year, 2021);
    assert_eq!(g.records[2].price_change, 0);
    assert_eq!(g.records[3].year, 2022);
    assert_eq!(g.records[3].price_change, -60 * S);
    let (_, labels) = build_feature_dataset(&assets, &cash, &equity, &profit, &revenue, &prices)
        .unwrap();
    assert_eq!(labels, vec![2, 0]);
}

#[test]
fn short_dates_skip_rows() {
    let assets = bytes("t,2022\nSD,1\n");
    let cash = bytes("t,2022\nSD,0\n");
    let equity = bytes("t,2022\nSD,0\n");
    let profit = bytes("t,2022\nSD,0\n");
    let revenue = bytes("t,2022\nSD,0\n");
    // The short date row would otherwise put 100 into the early bucket.
    let prices = bytes("i,date,SD\n0,2022,100\n1,2022-01-10,10\n2,2022-11-10,20\n");
    let d = process_stock_data(&assets, &cash, &equity, &profit, &revenue, &prices).unwrap();
    assert_eq!(d.groups[0].records[0].price_change, 100 * S);
}

#[test]
fn negative_ratios_truncate_toward_zero() {
    let assets = bytes("t,2022\nNEG,3\n");
    let cash = bytes("t,2022\nNEG,0\n");
    let equity = bytes("t,2022\nNEG,0\n");
    let profit = bytes("t,2022\nNEG,-1\n");
    let revenue = bytes("t,2022\nNEG,3\n");
    let prices = bytes("i,date,NEG\n0,2022-01-10,1\n");
    let d = process_stock_data(&assets, &cash, &equity, &profit, &revenue, &prices).unwrap();
    let rec = &d.groups[0].records[0];
    // -1/3 keeps six places, truncated toward zero.
    assert_eq!(rec.profit_margin, -333_333);
}

#[test]
fn malformed_month_counts_as_early() {
    let assets = bytes("t,2022\nMM,1\n");
    let cash = bytes("t,2022\nMM,0\n");
    let equity = bytes("t,2022\nMM,0\n");
    let profit = bytes("t,2022\nMM,0\n");
    let revenue = bytes("t,2022\nMM,0\n");
    // A month that fails to parse reads as zero and lands in the early
    // bucket, so this year still gets a percent change.
    let prices = bytes("i,date,MM\n0,2022-xx-10,10\n1,2022-11-10,20\n");
    let d = process_stock_data(&assets, &cash, &equity, &profit, &revenue, &prices).unwrap();
    assert_eq!(d.groups[0].records[0].price_change, 100 * S);
}
