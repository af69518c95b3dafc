use vstd::prelude::*;
use crate::csvio::csv_table;
use crate::csvio::parse_table;
use crate::error::ErrorKind;
use crate::error::UnparsableFileError;
use crate::label::das6_label;
use crate::label::extract_numeric_label;
use crate::numfmt::dec_int;
use crate::numfmt::i64_to_string;
use crate::table::TraceTable;
use crate::writer::ascii_bytes;
use crate::writer::ascii_output;

verus! {

/// Header labels of a Das6 table: each raw header cell mapped to its
/// three-digit run (or the placeholder "0" where a cell holds none),
/// with one trailing blank label appended for the extra column.
pub open spec fn das6_headers(h: Seq<Seq<char>>) -> Seq<Seq<char>> {
    Seq::new(h.len(), |i: int| das6_label(h[i])).push(Seq::<char>::empty())
}

/// A record with the cell that stood second in the source removed:
/// the "prompt" diagnostic channel, discarded during import. A record
/// too short to have a second cell is kept whole.
pub open spec fn drop_second(rec: Seq<Seq<char>>) -> Seq<Seq<char>> {
    if rec.len() >= 2 {
        rec.remove(1)
    } else {
        rec
    }
}

/// A Das6 body row: the synthesized time value first, then the record
/// without its prompt cell.
pub open spec fn das6_row(rec: Seq<Seq<char>>, time: int) -> Seq<Seq<char>> {
    seq![dec_int(time)] + drop_second(rec)
}

/// The Das6 body: one row per data record (every record after the
/// header row), row `n` carrying the synthesized time value `times[n]`.
pub open spec fn das6_body(t: Seq<Seq<Seq<char>>>, times: Seq<i64>) -> Seq<Seq<Seq<char>>> {
    Seq::new((t.len() - 1) as nat, |n: int| das6_row(t[n + 1], times[n] as int))
}

#[verifier::loop_isolation(false)]
fn das6_row_of(rec: &Vec<String>, time: i64) -> (r: Vec<String>)
    ensures
        r.deep_view() == das6_row(rec.deep_view(), time as int),
{
    let ghost rdv = rec.deep_view();
    let mut row: Vec<String> = Vec::new();
    row.push(i64_to_string(time));
    proof {
        assert(rdv.take(0) =~~= Seq::<Seq<char>>::empty());
        assert(row.deep_view() =~~= seq![dec_int(time as int)] + drop_second(rdv.take(0)));
    }
    let mut k: usize = 0;
    while k < rec.len()
        invariant
            k <= rec@.len(),
            row@.len() == (if k >= 2 {
                k as int
            } else {
                k + 1
            }),
            row.deep_view() == seq![dec_int(time as int)] + drop_second(rdv.take(k as int)),
        decreases rec@.len() - k,
    {
        let ghost pre = row.deep_view();
        if k != 1 {
            row.push(rec[k].clone());
            proof {
                assert forall|m: int| 0 <= m < pre.len() implies row.deep_view()[m] == pre[m] by {
                    assert(row@[m] == row@.subrange(0, pre.len() as int)[m]);
                }
                assert(row.deep_view() =~~= pre.push(rdv[k as int]));
                assert(pre.push(rdv[k as int]) =~~= seq![dec_int(time as int)] + drop_second(
                    rdv.take(k + 1),
                ));
            }
        } else {
            proof {
                assert(drop_second(rdv.take(2)) =~~= drop_second(rdv.take(1)));
            }
        }
        k = k + 1;
    }
    proof {
        assert(rdv.take(rec@.len() as int) =~~= rdv);
    }
    row
}

/// Builds the trace table of a Horiba DataStation export from its
/// parsed records and the time-axis values synthesized by the caller,
/// together with the line count handed to the writer: the full output
/// header count, trailing blank included.
#[verifier::loop_isolation(false)]
pub fn das6_table(records: &Vec<Vec<String>>, times: &Vec<i64>) -> (r: (TraceTable, usize))
    requires
        records@.len() >= 1,
        times@.len() >= records@.len() - 1,
    ensures
        r.0.headers.deep_view() == das6_headers(records.deep_view()[0]),
        r.0.body.deep_view() == das6_body(records.deep_view(), times@),
        r.1 == records.deep_view()[0].len() + 1,
{
    let ghost t = records.deep_view();
    let first = &records[0];
    proof {
        assert(first.deep_view() == t[0]);
    }
    let mut headers: Vec<String> = Vec::new();
    let mut i: usize = 0;
    while i < first.len()
        invariant
            i <= first@.len(),
            headers@.len() == i,
            headers.deep_view() == Seq::new(i as nat, |k: int| das6_label(first.deep_view()[k])),
        decreases first@.len() - i,
    {
        let lab = match extract_numeric_label(first[i].as_str()) {
            Some(l) => l,
            None => "0".to_owned(),
        };
        proof {
            reveal_strlit("0");
            assert("0"@ =~= seq!['0']);
            assert(lab@ == das6_label(first.deep_view()[i as int]));
        }
        let ghost labv = lab@;
        let ghost pre = headers.deep_view();
        headers.push(lab);
        proof {
            assert forall|k: int| 0 <= k < i + 1 implies headers.deep_view()[k] == das6_label(
                first.deep_view()[k],
            ) by {
                if k < i {
                    assert(pre[k] == Seq::new(
                        i as nat,
                        |m: int| das6_label(first.deep_view()[m]),
                    )[k]);
                } else {
                    assert(headers@[k].deep_view() == labv);
                }
            }
            assert(headers.deep_view() =~~= Seq::new(
                (i + 1) as nat,
                |k: int| das6_label(first.deep_view()[k]),
            ));
        }
        i = i + 1;
    }
    let ghost hpre = headers.deep_view();
    headers.push(String::new());
    proof {
        assert forall|m: int| 0 <= m < hpre.len() implies headers.deep_view()[m] == hpre[m] by {
            assert(headers@[m] == headers@.subrange(0, hpre.len() as int)[m]);
        }
        assert(headers.deep_view() =~~= das6_headers(t[0]));
    }
    let line_count = headers.len();
    let mut body: Vec<Vec<String>> = Vec::new();
    let mut n: usize = 0;
    while n < records.len() - 1
        invariant
            n <= t.len() - 1,
            body@.len() == n,
            body.deep_view() == Seq::new(n as nat, |m: int| das6_row(t[m + 1], times@[m] as int)),
        decreases records@.len() - 1 - n,
    {
        let row = das6_row_of(&records[n + 1], times[n]);
        let ghost rv = row.deep_view();
        let ghost pre = body.deep_view();
        body.push(row);
        proof {
            assert forall|m: int| 0 <= m < n + 1 implies body.deep_view()[m] == das6_row(
                t[m + 1],
                times@[m] as int,
            ) by {
                if m < n {
                    assert(pre[m] == Seq::new(
                        n as nat,
                        |q: int| das6_row(t[q + 1], times@[q] as int),
                    )[m]);
                } else {
                    assert(body@[m].deep_view() == rv);
                    assert(records@[n + 1].deep_view() == t[n + 1]);
                }
            }
            assert(body.deep_view() =~~= Seq::new(
                (n + 1) as nat,
                |m: int| das6_row(t[m + 1], times@[m] as int),
            ));
        }
        n = n + 1;
    }
    proof {
        assert(body.deep_view() =~~= das6_body(t, times@));
    }
    (TraceTable { headers, body }, line_count)
}

/// Converts a Horiba DataStation TSV export, already read into `data`,
/// into the Glotaran wavelength-explicit layout. `times` holds the
/// synthesized time-axis value for each data record, computed by the
/// caller from the acquisition parameters; `output_filename` is handed
/// back with the bytes to append there. The emitted interval count
/// equals the raw header width. Fails with a parse error when the
/// records cannot be read, there is no header record, or `times` is
/// shorter than the data record count.
pub fn run_das6(data: &[u8], times: &Vec<i64>, output_filename: &str) -> (r: Result<
    (String, Vec<u8>),
    UnparsableFileError,
>)
    ensures
        csv_table(data@, 9, false) is None ==> (r matches Err(e) && e.kind == ErrorKind::Parse),
        csv_table(data@, 9, false) matches Some(t) ==> {
            &&& t.len() == 0 ==> (r matches Err(e) && e.kind == ErrorKind::Parse)
            &&& (t.len() > 0 && times@.len() < t.len() - 1) ==> (r matches Err(e) && e.kind
                == ErrorKind::Parse)
            &&& (t.len() > 0 && times@.len() >= t.len() - 1) ==> (r matches Ok(p) && p.0@
                == output_filename@ && p.1@ == ascii_bytes(
                output_filename@,
                das6_headers(t[0]),
                das6_body(t, times@),
                t[0].len() as int,
            ))
        },
{
    match parse_table(data, 9, false) {
        None => Err(UnparsableFileError::parse("Source file could not be read")),
        Some(records) => {
            if records.len() == 0 {
                return Err(UnparsableFileError::parse("Source file has no header record"));
            }
            if times.len() < records.len() - 1 {
                return Err(
                    UnparsableFileError::parse("Time axis shorter than the data record count"),
                );
            }
            let (table, line_count) = das6_table(&records, times);
            let bytes = ascii_output(table.headers, table.body, line_count, output_filename);
            Ok((output_filename.to_owned(), bytes))
        },
    }
}

} // verus!
