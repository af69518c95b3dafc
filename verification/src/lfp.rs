use vstd::prelude::*;
use crate::csvio::csv_table;
use crate::csvio::parse_table;
use crate::error::ErrorKind;
use crate::error::UnparsableFileError;
use crate::label::extract_numeric_label;
use crate::label::lfp_label;
use crate::pathname::derive_output_name;
use crate::pathname::output_name_for;
use crate::table::TraceTable;
use crate::table::clone_row;
use crate::writer::ascii_bytes;
use crate::writer::ascii_output;

verus! {

/// Header labels of an LFP table: the three-digit run of each cell of
/// the first record, or the empty string where a cell holds none.
pub open spec fn lfp_headers(t: Seq<Seq<Seq<char>>>) -> Seq<Seq<char>> {
    Seq::new(t[0].len(), |i: int| lfp_label(t[0][i]))
}

/// Body of an LFP table: the records from index 9 on. The first record
/// carries the headers and the eight after it are instrument preamble,
/// skipped unconditionally; fewer than nine records leave the body
/// empty.
pub open spec fn lfp_body(t: Seq<Seq<Seq<char>>>) -> Seq<Seq<Seq<char>>> {
    if t.len() >= 9 {
        t.skip(9)
    } else {
        Seq::empty()
    }
}

/// Builds the trace table of an LFP export from its parsed records,
/// together with the line count handed to the writer: one fewer than
/// the header count, the headers carrying an extra blank placeholder
/// column for the time axis.
#[verifier::loop_isolation(false)]
pub fn lfp_table(records: &Vec<Vec<String>>) -> (r: (TraceTable, usize))
    requires
        records@.len() >= 1,
        records.deep_view()[0].len() >= 2,
    ensures
        r.0.headers.deep_view() == lfp_headers(records.deep_view()),
        r.0.body.deep_view() == lfp_body(records.deep_view()),
        r.1 == records.deep_view()[0].len() - 1,
{
    let ghost t = records.deep_view();
    let first = &records[0];
    let mut headers: Vec<String> = Vec::new();
    let mut i: usize = 0;
    while i < first.len()
        invariant
            i <= first@.len(),
            headers@.len() == i,
            headers.deep_view() == Seq::new(i as nat, |k: int| lfp_label(first.deep_view()[k])),
        decreases first@.len() - i,
    {
        let lab = match extract_numeric_label(first[i].as_str()) {
            Some(l) => l,
            None => String::new(),
        };
        proof {
            assert(lab@ == lfp_label(first.deep_view()[i as int]));
        }
        let ghost labv = lab@;
        let ghost pre = headers.deep_view();
        headers.push(lab);
        proof {
            assert forall|k: int| 0 <= k < i + 1 implies headers.deep_view()[k] == lfp_label(
                first.deep_view()[k],
            ) by {
                if k < i {
                    assert(pre[k] == Seq::new(
                        i as nat,
                        |m: int| lfp_label(first.deep_view()[m]),
                    )[k]);
                } else {
                    assert(headers@[k].deep_view() == labv);
                }
            }
            assert(headers.deep_view() =~~= Seq::new(
                (i + 1) as nat,
                |k: int| lfp_label(first.deep_view()[k]),
            ));
        }
        i = i + 1;
    }
    proof {
        assert(headers.deep_view() =~~= lfp_headers(t));
    }
    let mut body: Vec<Vec<String>> = Vec::new();
    let mut j: usize = 9;
    while j < records.len()
        invariant
            9 <= j,
            j <= t.len() || j == 9,
            body@.len() == (if 9 <= j <= t.len() {
                j - 9
            } else {
                0int
            }),
            body.deep_view() == (if 9 <= j <= t.len() {
                t.subrange(9, j as int)
            } else {
                Seq::<Seq<Seq<char>>>::empty()
            }),
        decreases records@.len() - j,
    {
        body.push(clone_row(&records[j]));
        proof {
            assert(body.deep_view() =~~= t.subrange(9, j + 1));
        }
        j = j + 1;
    }
    proof {
        assert(body.deep_view() =~~= lfp_body(t));
    }
    let line_count = first.len() - 1;
    (TraceTable { headers, body }, line_count)
}

/// Converts an Edinburgh Instruments LFP CSV export, already read into
/// `data`, into the Glotaran wavelength-explicit layout. Returns the
/// derived output filename (the source's extension replaced by
/// `.ascii`) and the bytes to append there; the emitted interval count
/// is two less than the raw header width. Fails with a parse error
/// when the records cannot be read or the first record is too short to
/// carry a time-axis placeholder.
pub fn run_lfp(source: &str, data: &[u8]) -> (r: Result<(String, Vec<u8>), UnparsableFileError>)
    ensures
        csv_table(data@, 44, true) is None ==> (r matches Err(e) && e.kind == ErrorKind::Parse),
        csv_table(data@, 44, true) matches Some(t) ==> {
            &&& (t.len() == 0 || t[0].len() < 2) ==> (r matches Err(e) && e.kind
                == ErrorKind::Parse)
            &&& (t.len() > 0 && t[0].len() >= 2) ==> (r matches Ok(p) && p.0@
                == derive_output_name(source@) && p.1@ == ascii_bytes(
                derive_output_name(source@),
                lfp_headers(t),
                lfp_body(t),
                t[0].len() - 2,
            ))
        },
{
    match parse_table(data, 44, true) {
        None => Err(UnparsableFileError::parse("Source file could not be read")),
        Some(records) => {
            if records.len() == 0 {
                return Err(UnparsableFileError::parse("Source file has no header record"));
            }
            if records[0].len() < 2 {
                return Err(UnparsableFileError::parse("Header record is too short"));
            }
            let (table, line_count) = lfp_table(&records);
            let name = output_name_for(source);
            let bytes = ascii_output(table.headers, table.body, line_count, name.as_str());
            Ok((name, bytes))
        },
    }
}

} // verus!
