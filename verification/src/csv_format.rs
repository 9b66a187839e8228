//! The CSV text that vaults are imported from and exported to, read and
//! written by the `csv` crate with its default settings: comma-separated,
//! the first row a header.

use vstd::prelude::*;
use vstd::utf8::{decode_utf8, valid_utf8};

verus! {

/// Name for the records that `csv::Reader::from_reader` yields for `data`
/// after its header row: each record's fields, or `None` where the crate
/// reports an error for that record.
pub uninterp spec fn spec_csv_records(data: Seq<u8>) -> Seq<Option<Seq<Seq<char>>>>;

/// Name for the bytes that a fresh `csv::Writer` produces for one record
/// with the given fields, or `None` where the crate reports an error.
pub uninterp spec fn spec_csv_record(fields: Seq<Seq<u8>>) -> Option<Seq<u8>>;

/// The text that fresh writers give for `recs`, one record after another;
/// `None` where one of them cannot be written.
pub open spec fn csv_text(recs: Seq<Seq<Seq<u8>>>) -> Option<Seq<u8>>
    decreases recs.len(),
{
    if recs.len() == 0 {
        Some(Seq::empty())
    } else {
        match csv_text(recs.drop_last()) {
            Some(t) => match spec_csv_record(recs.last()) {
                Some(b) => Some(t + b),
                None => None,
            },
            None => None,
        }
    }
}

/// Every record has two fields, each UTF-8 text.
pub open spec fn utf8_pairs(recs: Seq<Seq<Seq<u8>>>) -> bool {
    forall|i: int|
        0 <= i < recs.len() ==> (#[trigger] recs[i]).len() == 2 && valid_utf8(recs[i][0]) && valid_utf8(
            recs[i][1],
        )
}

/// The records after the first, each read as its fields' text.
pub open spec fn read_back(recs: Seq<Seq<Seq<u8>>>) -> Seq<Option<Seq<Seq<char>>>> {
    recs.drop_first().map_values(|f: Seq<Seq<u8>>| Some(f.map_values(|b: Seq<u8>| decode_utf8(b))))
}

/// Reading `data` gives back, after the header row, the records that
/// writers wrote into it, where those are pairs of UTF-8 fields.
pub open spec fn csv_reads_back(data: Seq<u8>) -> bool {
    forall|recs: Seq<Seq<Seq<u8>>>|
        #[trigger] csv_text(recs) == Some(data) && recs.len() > 0 && utf8_pairs(recs) ==> spec_csv_records(data)
            == read_back(recs)
}

/// `csv::Reader::from_reader(data).records()`, each record turned into its
/// fields. The contract names the result, and claims one fact of it: text
/// that `csv::Writer` wrote for records of two UTF-8 fields each reads back
/// as those records, the first taken as the header row. The crate's parsing
/// rules are otherwise not restated.
#[verifier::external_body]
pub(crate) fn csv_records(data: &[u8]) -> (rows: Vec<Option<Vec<String>>>)
    ensures
        rows.deep_view() == spec_csv_records(data@),
        forall|recs: Seq<Seq<Seq<u8>>>|
            #[trigger] csv_text(recs) == Some(data@) && recs.len() > 0 && utf8_pairs(recs) ==> rows.deep_view()
                == read_back(recs),
{
    let mut reader = csv::Reader::from_reader(data);
    reader.records().map(|r| r.ok().map(|rec| rec.iter().map(|f| f.to_string()).collect())).collect()
}

/// `csv::Writer::write_record` on a fresh writer over a `Vec<u8>`, then
/// `into_inner`. The contract names the bytes; the crate's quoting rules are
/// not restated, nor the text of its error.
#[verifier::external_body]
pub(crate) fn csv_record(fields: &Vec<Vec<u8>>) -> (r: Result<Vec<u8>, String>)
    ensures
        r is Ok <==> spec_csv_record(fields.deep_view()) is Some,
        r matches Ok(b) ==> spec_csv_record(fields.deep_view()) == Some(b@),
{
    let mut writer = csv::Writer::from_writer(Vec::new());
    match writer.write_record(fields) {
        Ok(()) => {},
        Err(e) => return Err(e.to_string()),
    }
    writer.into_inner().map_err(|e| e.to_string())
}

} // verus!
