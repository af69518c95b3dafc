use vstd::prelude::*;

verus! {

/// The table of records that the csv crate's reader yields for `data`
/// with the given field delimiter: one sequence of cells per record,
/// or `None` when any record fails to read (bad UTF-8, or — with
/// `flexible` off — a record whose field count differs from the first
/// record's). The result depends on the bytes and the settings alone.
pub uninterp spec fn csv_table(data: Seq<u8>, delim: u8, flexible: bool) -> Option<
    Seq<Seq<Seq<char>>>,
>;

/// The byte encoding that the csv crate's writer produces for `rows`
/// with the given field delimiter: each record's cells joined by the
/// delimiter and terminated by a newline, cells quoted where they hold
/// the delimiter, quotes or line breaks. The result depends on the rows
/// and the delimiter alone.
pub uninterp spec fn tsv_bytes(rows: Seq<Seq<Seq<char>>>, delim: u8) -> Seq<u8>;

/// Every record has the field count of the first one.
pub open spec fn rectangular(t: Seq<Seq<Seq<char>>>) -> bool {
    forall|i: int| 0 <= i < t.len() ==> #[trigger] t[i].len() == t[0].len()
}

/// Relies on csv::ReaderBuilder and csv::Reader::records: reads every
/// record of `data` (no header row is skipped), yielding `None` on any
/// record error. With `flexible` off the reader rejects any record
/// whose field count differs from the first record's, so a full read
/// is rectangular.
#[verifier::external_body]
pub(crate) fn parse_table(data: &[u8], delim: u8, flexible: bool) -> (r: Option<Vec<Vec<String>>>)
    ensures
        match r {
            Some(v) => {
                &&& csv_table(data@, delim, flexible) == Some(v.deep_view())
                &&& !flexible ==> rectangular(v.deep_view())
            },
            None => csv_table(data@, delim, flexible) is None,
        },
{
    let mut rdr = csv::ReaderBuilder::new()
        .delimiter(delim)
        .flexible(flexible)
        .has_headers(false)
        .from_reader(data);
    let mut out: Vec<Vec<String>> = Vec::new();
    for rec in rdr.records() {
        match rec {
            Ok(r) => out.push(r.iter().map(|f| f.to_owned()).collect()),
            Err(_) => return None,
        }
    }
    Some(out)
}

/// Relies on csv::WriterBuilder and csv::Writer::write_record: encodes
/// each row in order with the given delimiter. The writer is flexible
/// (rows may differ in width) and writes into memory, where no write
/// can fail.
#[verifier::external_body]
pub(crate) fn tsv_encode(rows: &Vec<Vec<String>>, delim: u8) -> (r: Vec<u8>)
    ensures
        r@ == tsv_bytes(rows.deep_view(), delim),
{
    let mut w = csv::WriterBuilder::new()
        .delimiter(delim)
        .flexible(true)
        .from_writer(Vec::new());
    for row in rows.iter() {
        let _ = w.write_record(row.iter().map(|c| c.as_bytes()));
    }
    w.into_inner().unwrap_or_default()
}

} // verus!
