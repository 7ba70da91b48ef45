//! The calls this library makes into other crates. Their contracts are
//! taken on trust from the crates' documentation; nothing here is proved.
use vstd::prelude::*;

verus! {

/// `csv::Error`, the error of the `csv` crate's reader. It is carried
/// through as it is; nothing is claimed of what it holds.
#[verifier::external_type_specification]
#[verifier::external_body]
pub struct ExCsvError(csv::Error);

/// The data records that the `csv` crate's reader yields for `data` when
/// fields are separated by `delimiter` and every other setting is the
/// reader's default: the first record is taken as the header and is not
/// among them. `None` where the reader reports an error on some record.
pub uninterp spec fn csv_records(data: Seq<u8>, delimiter: u8) -> Option<Seq<Seq<Seq<char>>>>;

/// Runs `csv::ReaderBuilder::new().delimiter(..).from_reader(..)` over `data`
/// and collects what `Reader::records` yields, each field as a `String`.
///
/// Trusted: that the outcome is a function of `data` and `delimiter` alone,
/// named by [`csv_records`], and that the first error the reader reports is
/// the one handed back.
#[verifier::external_body]
pub(crate) fn read_records(data: &[u8], delimiter: u8) -> (outcome: Result<
    Vec<Vec<String>>,
    csv::Error,
>)
    ensures
        match outcome {
            Ok(records) => csv_records(data@, delimiter) == Some(records.deep_view()),
            Err(_) => csv_records(data@, delimiter) is None,
        },
{
    let mut reader = csv::ReaderBuilder::new().delimiter(delimiter).from_reader(data);
    reader.records().map(
        |record| record.map(|fields| fields.iter().map(String::from).collect()),
    ).collect()
}

/// Calls `rand::random::<u64>()`, which draws from the thread's generator.
///
/// Nothing is promised of the number: the callers' contracts hold whatever
/// it is. The generator is seeded from the operating system on a thread's
/// first draw, and the call panics if that seeding fails.
#[verifier::external_body]
pub(crate) fn random_key() -> u64 {
    rand::random::<u64>()
}

} // verus!
