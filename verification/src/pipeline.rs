//! The end-to-end pipeline: CSV bytes in, feature matrix and labels out.
//!
//! Callers hand the six input files as byte buffers; splitting the bytes
//! into records is delegated to the csv crate behind a trusted wrapper,
//! and everything after that point is verified against the table models.
//! A malformed CSV (for instance rows of unequal width) fails the whole
//! run: no partial panel is ever returned.

use vstd::prelude::*;
use crate::features::{FeatureRow, FRow, build_s, build_features};
use crate::prices::{price_changes_s, compute_price_changes};
use crate::records::{Dataset, DatasetModel, dataset_bounded, process_s, join_annotate};
use crate::series::{rows_view, load_s, load};

verus! {

/// What the csv crate's reader makes of a byte buffer: its records, each
/// a sequence of string fields.
pub uninterp spec fn csv_rows_of(bytes: Seq<u8>) -> Seq<Seq<Seq<char>>>;

/// Whether the csv crate's reader accepts the whole byte buffer.
pub uninterp spec fn csv_ok(bytes: Seq<u8>) -> bool;

/// Relies on csv::ReaderBuilder and csv::Reader: with headers off, the
/// reader splits the buffer into records of string fields, and yields an
/// error record exactly when the buffer is malformed (for instance a row
/// of deviating width). Both outcomes depend on the bytes alone.
#[verifier::external_body]
fn csv_parse(bytes: &Vec<u8>) -> (r: Option<Vec<Vec<String>>>)
    ensures
        (r is Some) == csv_ok(bytes@),
        match r {
            Option::Some(rows) => rows_view(rows@) == csv_rows_of(bytes@),
            Option::None => true,
        },
{
    let mut rdr = csv::ReaderBuilder::new().has_headers(false).from_reader(bytes.as_slice());
    let mut out: Vec<Vec<String>> = Vec::new();
    for rec in rdr.records() {
        match rec {
            Ok(r) => out.push(r.iter().map(|f| f.to_string()).collect()),
            Err(_) => return None,
        }
    }
    Some(out)
}

/// The one failure the pipeline reports: a CSV buffer its reader refuses.
#[derive(Debug, PartialEq, Eq, Structural, Clone, Copy)]
pub enum PipelineError {
    MalformedCsv,
}

/// The joined, annotated panel determined by the six CSV buffers.
pub open spec fn dataset_of_csvs(
    assets: Seq<u8>,
    cash: Seq<u8>,
    equity: Seq<u8>,
    profit: Seq<u8>,
    revenue: Seq<u8>,
    prices: Seq<u8>,
) -> DatasetModel {
    process_s(
        load_s(csv_rows_of(assets)),
        load_s(csv_rows_of(cash)),
        load_s(csv_rows_of(equity)),
        load_s(csv_rows_of(profit)),
        load_s(csv_rows_of(revenue)),
        price_changes_s(csv_rows_of(prices)),
    )
}

/// The aligned feature rows and labels determined by the six CSV buffers.
pub open spec fn features_of_csvs(
    assets: Seq<u8>,
    cash: Seq<u8>,
    equity: Seq<u8>,
    profit: Seq<u8>,
    revenue: Seq<u8>,
    prices: Seq<u8>,
) -> Seq<(FRow, int)> {
    build_s(dataset_of_csvs(assets, cash, equity, profit, revenue, prices))
}

/// Build the per-ticker, per-year panel from the five metric CSVs and the
/// price-history CSV. Succeeds exactly when the reader accepts all six
/// buffers; the panel is then the model's join of the six tables.
pub fn process_stock_data(
    assets_csv: &Vec<u8>,
    cash_csv: &Vec<u8>,
    equity_csv: &Vec<u8>,
    profit_csv: &Vec<u8>,
    revenue_csv: &Vec<u8>,
    prices_csv: &Vec<u8>,
) -> (r: Result<Dataset, PipelineError>)
    ensures
        (r is Ok) == (csv_ok(assets_csv@) && csv_ok(cash_csv@) && csv_ok(equity_csv@) && csv_ok(
            profit_csv@,
        ) && csv_ok(revenue_csv@) && csv_ok(prices_csv@)),
        r matches Err(e) ==> e == PipelineError::MalformedCsv,
        r matches Ok(d) ==> d.model() == dataset_of_csvs(
            assets_csv@,
            cash_csv@,
            equity_csv@,
            profit_csv@,
            revenue_csv@,
            prices_csv@,
        ) && dataset_bounded(d.model()),
{
    let prices_rows = match csv_parse(prices_csv) {
        Option::Some(rows) => rows,
        Option::None => {
            return Err(PipelineError::MalformedCsv);
        },
    };
    let assets_rows = match csv_parse(assets_csv) {
        Option::Some(rows) => rows,
        Option::None => {
            return Err(PipelineError::MalformedCsv);
        },
    };
    let cash_rows = match csv_parse(cash_csv) {
        Option::Some(rows) => rows,
        Option::None => {
            return Err(PipelineError::MalformedCsv);
        },
    };
    let equity_rows = match csv_parse(equity_csv) {
        Option::Some(rows) => rows,
        Option::None => {
            return Err(PipelineError::MalformedCsv);
        },
    };
    let profit_rows = match csv_parse(profit_csv) {
        Option::Some(rows) => rows,
        Option::None => {
            return Err(PipelineError::MalformedCsv);
        },
    };
    let revenue_rows = match csv_parse(revenue_csv) {
        Option::Some(rows) => rows,
        Option::None => {
            return Err(PipelineError::MalformedCsv);
        },
    };
    let prices_table = compute_price_changes(&prices_rows);
    let assets_table = load(&assets_rows);
    let cash_table = load(&cash_rows);
    let equity_table = load(&equity_rows);
    let profit_table = load(&profit_rows);
    let revenue_table = load(&revenue_rows);
    let d = join_annotate(
        &assets_table,
        &cash_table,
        &equity_table,
        &profit_table,
        &revenue_table,
        &prices_table,
    );
    Ok(d)
}

/// The system boundary: the feature matrix and the parallel label vector,
/// both determined by the six CSV buffers alone.
pub fn build_feature_dataset(
    assets_csv: &Vec<u8>,
    cash_csv: &Vec<u8>,
    equity_csv: &Vec<u8>,
    profit_csv: &Vec<u8>,
    revenue_csv: &Vec<u8>,
    prices_csv: &Vec<u8>,
) -> (r: Result<(Vec<FeatureRow>, Vec<u8>), PipelineError>)
    ensures
        (r is Ok) == (csv_ok(assets_csv@) && csv_ok(cash_csv@) && csv_ok(equity_csv@) && csv_ok(
            profit_csv@,
        ) && csv_ok(revenue_csv@) && csv_ok(prices_csv@)),
        r matches Err(e) ==> e == PipelineError::MalformedCsv,
        r matches Ok(fl) ==> {
            let pairs = features_of_csvs(
                assets_csv@,
                cash_csv@,
                equity_csv@,
                profit_csv@,
                revenue_csv@,
                prices_csv@,
            );
            &&& fl.0@.len() == pairs.len()
            &&& fl.1@.len() == pairs.len()
            &&& forall|k: int| 0 <= k < pairs.len() ==> (#[trigger] fl.0@[k]).model() == pairs[k].0
            &&& forall|k: int| 0 <= k < pairs.len() ==> (#[trigger] fl.1@[k]) as int == pairs[k].1
        },
{
    let d = match process_stock_data(
        assets_csv,
        cash_csv,
        equity_csv,
        profit_csv,
        revenue_csv,
        prices_csv,
    ) {
        Result::Ok(d) => d,
        Result::Err(e) => {
            return Err(e);
        },
    };
    let fl = build_features(&d);
    Ok(fl)
}

} // verus!
