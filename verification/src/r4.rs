use vstd::prelude::*;
use vstd::multiset::Multiset;
use crate::csvio::csv_table;
use crate::csvio::parse_table;
use crate::csvio::rectangular;
use crate::error::ErrorKind;
use crate::error::UnparsableFileError;
use crate::parse_int::parse_i32;
use crate::parse_int::spec_parse_i32;
use crate::pathname::derive_output_name;
use crate::pathname::output_name_for;
use crate::table::TraceTable;
use crate::table::clone_row;
use crate::writer::ascii_bytes;
use crate::writer::ascii_output;

verus! {

broadcast use {vstd::seq_lib::group_to_multiset_ensures, vstd::multiset::group_multiset_axioms};

/// Column view of an R4 table: the source stores each desired output
/// row as a column, so column `i` collects the `i`-th cell of every
/// record, the header cell first.
pub open spec fn r4_columns(t: Seq<Seq<Seq<char>>>) -> Seq<Seq<Seq<char>>> {
    Seq::new(t[0].len() as nat, |i: int| Seq::new(t.len() as nat, |j: int| t[j][i]))
}

/// Whether a column's label (its first element) is non-empty; columns
/// with an empty header cell are unused instrument channels.
pub open spec fn has_label(c: Seq<Seq<char>>) -> bool {
    c[0].len() != 0
}

/// The columns kept for output: those with a non-empty label, in
/// source order.
pub open spec fn r4_kept(t: Seq<Seq<Seq<char>>>) -> Seq<Seq<Seq<char>>> {
    r4_columns(t).filter(|c: Seq<Seq<char>>| has_label(c))
}

/// Whether a kept column has a sort key: the time column `t` always
/// does, any other label must read as a base-10 integer.
pub open spec fn r4_has_key(c: Seq<Seq<char>>) -> bool {
    c[0] == seq!['t'] || spec_parse_i32(c[0]) is Some
}

/// The sort key of a kept column: 0 for the time column `t`, otherwise
/// the label read as an integer.
pub open spec fn r4_key(c: Seq<Seq<char>>) -> int {
    if c[0] == seq!['t'] {
        0
    } else {
        spec_parse_i32(c[0]).unwrap() as int
    }
}

/// Every column of `cols` has a sort key.
pub open spec fn r4_sortable(cols: Seq<Seq<Seq<char>>>) -> bool {
    forall|i: int| 0 <= i < cols.len() ==> r4_has_key(#[trigger] cols[i])
}

/// `sc` holds exactly the columns of `orig`, rearranged into
/// non-decreasing key order.
pub open spec fn sorted_columns(orig: Seq<Seq<Seq<char>>>, sc: Seq<Seq<Seq<char>>>) -> bool {
    &&& sc.to_multiset() == orig.to_multiset()
    &&& forall|i: int, j: int|
        0 <= i < j < sc.len() ==> r4_key(#[trigger] sc[i]) <= r4_key(#[trigger] sc[j])
}

/// Output header row of sorted columns: each column's label, except
/// that the corner cell of the very first column is three spaces, the
/// axis-label convention of the format.
pub open spec fn r4_out_headers(sc: Seq<Seq<Seq<char>>>) -> Seq<Seq<char>> {
    Seq::new(
        sc.len(),
        |c: int|
            if c == 0 {
                "   "@
            } else {
                sc[c][0]
            },
    )
}

/// Output body of sorted columns: row `r`, column `c` is element
/// `r + 1` of sorted column `c` (element 0 being its label).
pub open spec fn r4_out_body(sc: Seq<Seq<Seq<char>>>, nrows: nat) -> Seq<Seq<Seq<char>>> {
    Seq::new(nrows, |r: int| Seq::new(sc.len(), |c: int| sc[c][r + 1]))
}

/// The sort key of a column, when it has one: `Some(0)` for the time
/// column, the parsed label otherwise.
fn column_key(col: &Vec<String>) -> (r: Option<i32>)
    requires
        col@.len() >= 1,
    ensures
        match r {
            Some(v) => r4_has_key(col.deep_view()) && v as int == r4_key(col.deep_view()),
            None => !r4_has_key(col.deep_view()),
        },
{
    let c0 = &col[0];
    let is_t = c0.as_str().unicode_len() == 1 && c0.as_str().get_char(0) == 't';
    proof {
        if is_t {
            assert(c0@ =~= seq!['t']);
        }
    }
    if is_t {
        Some(0)
    } else {
        parse_i32(c0.as_str())
    }
}

fn column_key_val(col: &Vec<String>) -> (k: i32)
    requires
        col@.len() >= 1,
        r4_has_key(col.deep_view()),
    ensures
        k as int == r4_key(col.deep_view()),
{
    match column_key(col) {
        Some(k) => k,
        None => {
            proof {
                assert(false);
            }
            0
        },
    }
}

/// Rearranges the columns into non-decreasing key order by repeatedly
/// moving a minimal-key column across.
#[verifier::loop_isolation(false)]
fn sort_columns(cols: Vec<Vec<String>>) -> (r: Vec<Vec<String>>)
    requires
        forall|i: int|
            0 <= i < cols.deep_view().len() ==> (#[trigger] cols.deep_view()[i]).len() >= 1,
        r4_sortable(cols.deep_view()),
    ensures
        sorted_columns(cols.deep_view(), r.deep_view()),
        r@.len() == cols@.len(),
{
    let ghost orig = cols.deep_view();
    let mut src = cols;
    let mut out: Vec<Vec<String>> = Vec::new();
    proof {
        assert(out.deep_view() =~~= Seq::<Seq<Seq<char>>>::empty());
        assert(out.deep_view().to_multiset().add(src.deep_view().to_multiset())
            =~= orig.to_multiset());
    }
    while src.len() > 0
        invariant
            forall|i: int|
                0 <= i < src.deep_view().len() ==> (#[trigger] src.deep_view()[i]).len() >= 1
                    && r4_has_key(src.deep_view()[i]),
            forall|i: int|
                0 <= i < out.deep_view().len() ==> (#[trigger] out.deep_view()[i]).len() >= 1
                    && r4_has_key(out.deep_view()[i]),
            out.deep_view().to_multiset().add(src.deep_view().to_multiset())
                == orig.to_multiset(),
            forall|i: int, j: int|
                0 <= i < j < out.deep_view().len() ==> r4_key(#[trigger] out.deep_view()[i])
                    <= r4_key(#[trigger] out.deep_view()[j]),
            forall|i: int, j: int|
                0 <= i < out.deep_view().len() && 0 <= j < src.deep_view().len() ==> r4_key(
                    #[trigger] out.deep_view()[i],
                ) <= r4_key(#[trigger] src.deep_view()[j]),
            out@.len() + src@.len() == orig.len(),
        decreases src@.len(),
    {
        let mut best: usize = 0;
        proof {
            assert(src.deep_view()[0] == src@[0].deep_view());
        }
        let mut bk: i32 = column_key_val(&src[0]);
        let mut bi: usize = 1;
        while bi < src.len()
            invariant
                1 <= bi <= src@.len(),
                best < bi,
                bk as int == r4_key(src.deep_view()[best as int]),
                forall|m: int|
                    0 <= m < bi ==> bk as int <= r4_key(#[trigger] src.deep_view()[m]),
            decreases src@.len() - bi,
        {
            proof {
                assert(src.deep_view()[bi as int] == src@[bi as int].deep_view());
            }
            let ck = column_key_val(&src[bi]);
            if ck < bk {
                best = bi;
                bk = ck;
            }
            bi = bi + 1;
        }
        let ghost pre_src = src.deep_view();
        let ghost pre_out = out.deep_view();
        let col = src.remove(best);
        let ghost colv = col.deep_view();
        out.push(col);
        proof {
            assert(colv == pre_src[best as int]);
            assert(src.deep_view() =~~= pre_src.remove(best as int));
            assert forall|m: int| 0 <= m < pre_out.len() implies out.deep_view()[m]
                == pre_out[m] by {
                assert(out@[m] == out@.subrange(0, pre_out.len() as int)[m]);
            }
            assert(out.deep_view() =~~= pre_out.push(colv));
            assert(out.deep_view().to_multiset() =~= pre_out.to_multiset().insert(colv));
            assert(src.deep_view().to_multiset() =~= pre_src.to_multiset().remove(colv));
            assert(out.deep_view().to_multiset().add(src.deep_view().to_multiset())
                =~= orig.to_multiset());
        }
    }
    proof {
        assert(src.deep_view().to_multiset() =~= Multiset::<Seq<Seq<char>>>::empty());
        assert(out.deep_view().to_multiset() =~= orig.to_multiset());
    }
    out
}

/// Builds the trace table of an R4 export from its parsed records,
/// together with the line count handed to the writer: the column count
/// after filtering. The records arrive rectangular, as a strict
/// delimited read guarantees. Fails with a data error when a kept
/// column's label is neither `t` nor an integer, and with a parse
/// error when no column survives the filter.
#[verifier::loop_isolation(false)]
pub fn r4_table(records: &Vec<Vec<String>>) -> (r: Result<
    (TraceTable, usize),
    UnparsableFileError,
>)
    requires
        records@.len() >= 1,
        rectangular(records.deep_view()),
    ensures
        !r4_sortable(r4_kept(records.deep_view())) ==> (r matches Err(e) && e.kind
            == ErrorKind::Data),
        r4_sortable(r4_kept(records.deep_view())) && r4_kept(records.deep_view()).len() == 0
            ==> (r matches Err(e) && e.kind == ErrorKind::Parse),
        r4_sortable(r4_kept(records.deep_view())) && r4_kept(records.deep_view()).len() > 0
            ==> (r matches Ok(p) && exists|sc: Seq<Seq<Seq<char>>>|
            {
                &&& #[trigger] sorted_columns(r4_kept(records.deep_view()), sc)
                &&& p.0.headers.deep_view() == r4_out_headers(sc)
                &&& p.0.body.deep_view() == r4_out_body(
                    sc,
                    (records.deep_view().len() - 1) as nat,
                )
                &&& p.1 == r4_kept(records.deep_view()).len()
            }),
{
    let ghost t = records.deep_view();
    let width = records[0].len();
    let nrec = records.len();
    let mut cols: Vec<Vec<String>> = Vec::new();
    let mut i: usize = 0;
    while i < width
        invariant
            i <= width,
            width == t[0].len(),
            cols@.len() == i,
            cols.deep_view() == Seq::new(
                i as nat,
                |i2: int| Seq::new(t.len() as nat, |j: int| t[j][i2]),
            ),
        decreases width - i,
    {
        let mut col: Vec<String> = Vec::new();
        let mut j: usize = 0;
        while j < nrec
            invariant
                j <= nrec,
                i < width == t[0].len(),
                nrec == t.len(),
                col@.len() == j,
                col.deep_view() == Seq::new(j as nat, |j2: int| t[j2][i as int]),
            decreases nrec - j,
        {
            let ghost pre = col.deep_view();
            proof {
                assert(rectangular(t));
                assert(t[j as int].len() == t[0].len());
                assert(records@[j as int].deep_view() == t[j as int]);
            }
            col.push(records[j][i].clone());
            proof {
                assert(records@[j as int].deep_view() == t[j as int]);
                assert forall|m: int| 0 <= m < j + 1 implies col.deep_view()[m] == t[m][i
                    as int] by {
                    if m < j {
                        assert(pre[m] == Seq::new(j as nat, |j2: int| t[j2][i as int])[m]);
                    }
                }
                assert(col.deep_view() =~~= Seq::new((j + 1) as nat, |j2: int| t[j2][i as int]));
            }
            j = j + 1;
        }
        let ghost cpre = cols.deep_view();
        let ghost cv = col.deep_view();
        cols.push(col);
        proof {
            assert forall|m: int| 0 <= m < i + 1 implies cols.deep_view()[m] == Seq::new(
                t.len() as nat,
                |j2: int| t[j2][m],
            ) by {
                if m < i {
                    assert(cpre[m] == Seq::new(
                        i as nat,
                        |i2: int| Seq::new(t.len() as nat, |j2: int| t[j2][i2]),
                    )[m]);
                } else {
                    assert(cols@[m].deep_view() == cv);
                }
            }
            assert(cols.deep_view() =~~= Seq::new(
                (i + 1) as nat,
                |i2: int| Seq::new(t.len() as nat, |j2: int| t[j2][i2]),
            ));
        }
        i = i + 1;
    }
    proof {
        assert(cols.deep_view() =~~= r4_columns(t));
    }
    let ghost all = r4_columns(t);
    let mut kept: Vec<Vec<String>> = Vec::new();
    let mut ki: usize = 0;
    while ki < cols.len()
        invariant
            ki <= cols@.len(),
            cols@.len() == all.len(),
            cols.deep_view() == all,
            forall|m: int| 0 <= m < all.len() ==> (#[trigger] all[m]).len() == t.len(),
            t.len() >= 1,
            kept.deep_view() == all.take(ki as int).filter(|c: Seq<Seq<char>>| has_label(c)),
            r4_sortable(kept.deep_view()),
            forall|m: int|
                0 <= m < kept.deep_view().len() ==> (#[trigger] kept.deep_view()[m]).len()
                    == t.len(),
        decreases cols@.len() - ki,
    {
        let ghost prefix = all.take(ki as int);
        let ghost next = all.take(ki + 1);
        proof {
            assert(next.drop_last() =~~= prefix);
            assert(next.last() == all[ki as int]);
            reveal_with_fuel(Seq::filter, 2);
        }
        let c0_empty = cols[ki][0].as_str().is_empty();
        if !c0_empty {
            match column_key(&cols[ki]) {
                Some(_) => {
                    let ghost kpre = kept.deep_view();
                    let cl = clone_row(&cols[ki]);
                    let ghost clv = cl.deep_view();
                    kept.push(cl);
                    proof {
                        assert(clv == all[ki as int]);
                        assert forall|m: int| 0 <= m < kpre.len() implies kept.deep_view()[m]
                            == kpre[m] by {
                            assert(kept@[m] == kept@.subrange(0, kpre.len() as int)[m]);
                        }
                        assert(kept.deep_view() =~~= kpre.push(clv));
                        assert(kept.deep_view() =~~= next.filter(
                            |c: Seq<Seq<char>>| has_label(c),
                        ));
                    }
                },
                None => {
                    proof {
                        let c = all[ki as int];
                        assert(has_label(c));
                        all.lemma_filter_contains(|c2: Seq<Seq<char>>| has_label(c2), ki as int);
                        assert(r4_kept(t).contains(c));
                        assert(!r4_has_key(c));
                        assert(!r4_sortable(r4_kept(t)));
                    }
                    return Err(UnparsableFileError::data("Couldn't parse wavelength"));
                },
            }
        } else {
            proof {
                assert(kept.deep_view() =~~= next.filter(|c: Seq<Seq<char>>| has_label(c)));
            }
        }
        ki = ki + 1;
    }
    proof {
        assert(all.take(all.len() as int) =~~= all);
        assert(kept.deep_view() == r4_kept(t));
    }
    if kept.len() == 0 {
        return Err(UnparsableFileError::parse("No column carries a label"));
    }
    let sorted = sort_columns(kept);
    let ghost sc = sorted.deep_view();
    proof {
        assert forall|c: int| 0 <= c < sc.len() implies (#[trigger] sc[c]).len() == t.len()
            && r4_has_key(sc[c]) by {
            let x = sc[c];
            assert(sc.contains(x));
            assert(sc.to_multiset().count(x) > 0);
            assert(r4_kept(t).to_multiset().count(x) > 0);
            assert(r4_kept(t).contains(x));
            let w = choose|w: int| 0 <= w < r4_kept(t).len() && r4_kept(t)[w] == x;
            assert(r4_kept(t)[w].len() == t.len());
        }
        assert(sc.len() == r4_kept(t).len());
    }
    let ncols = sorted.len();
    let mut out_headers: Vec<String> = Vec::new();
    out_headers.push("   ".to_owned());
    let mut hc: usize = 1;
    while hc < ncols
        invariant
            1 <= hc <= ncols,
            ncols == sc.len(),
            forall|c: int| 0 <= c < sc.len() ==> (#[trigger] sc[c]).len() == t.len(),
            t.len() >= 1,
            sorted.deep_view() == sc,
            out_headers@.len() == hc,
            out_headers.deep_view() == r4_out_headers(sc).take(hc as int),
        decreases ncols - hc,
    {
        let ghost hpre = out_headers.deep_view();
        proof {
            assert(sorted.deep_view()[hc as int] == sorted@[hc as int].deep_view());
            assert(sc[hc as int].len() == t.len());
        }
        out_headers.push(sorted[hc][0].clone());
        proof {
            assert(sorted@[hc as int].deep_view() == sc[hc as int]);
            assert forall|m: int| 0 <= m < hpre.len() implies out_headers.deep_view()[m]
                == hpre[m] by {
                assert(out_headers@[m] == out_headers@.subrange(0, hpre.len() as int)[m]);
            }
            assert(out_headers.deep_view() =~~= r4_out_headers(sc).take(hc + 1));
        }
        hc = hc + 1;
    }
    proof {
        assert(r4_out_headers(sc).take(sc.len() as int) =~~= r4_out_headers(sc));
        assert(out_headers.deep_view() == r4_out_headers(sc));
    }
    let nrows = nrec - 1;
    let mut body: Vec<Vec<String>> = Vec::new();
    let mut rr: usize = 0;
    while rr < nrows
        invariant
            rr <= nrows,
            nrows == t.len() - 1,
            ncols == sc.len(),
            forall|c: int| 0 <= c < sc.len() ==> (#[trigger] sc[c]).len() == t.len(),
            sorted.deep_view() == sc,
            sorted@.len() == ncols,
            body@.len() == rr,
            body.deep_view() == r4_out_body(sc, (t.len() - 1) as nat).take(rr as int),
        decreases nrows - rr,
    {
        let mut row: Vec<String> = Vec::new();
        let mut cc: usize = 0;
        while cc < ncols
            invariant
                cc <= ncols,
                rr < nrows == t.len() - 1,
                ncols == sc.len(),
                forall|c: int| 0 <= c < sc.len() ==> (#[trigger] sc[c]).len() == t.len(),
                sorted.deep_view() == sc,
                sorted@.len() == ncols,
                row@.len() == cc,
                row.deep_view() == Seq::new(cc as nat, |c: int| sc[c][rr + 1]),
            decreases ncols - cc,
        {
            let ghost rpre = row.deep_view();
            proof {
                assert(sorted.deep_view()[cc as int] == sorted@[cc as int].deep_view());
                assert(sc[cc as int].len() == t.len());
            }
            row.push(sorted[cc][rr + 1].clone());
            proof {
                assert(sorted@[cc as int].deep_view() == sc[cc as int]);
                assert forall|m: int| 0 <= m < cc + 1 implies row.deep_view()[m] == sc[m][rr
                    + 1] by {
                    if m < cc {
                        assert(rpre[m] == Seq::new(cc as nat, |c: int| sc[c][rr + 1])[m]);
                    }
                }
                assert(row.deep_view() =~~= Seq::new((cc + 1) as nat, |c: int| sc[c][rr + 1]));
            }
            cc = cc + 1;
        }
        let ghost bpre = body.deep_view();
        let ghost rowv = row.deep_view();
        body.push(row);
        proof {
            assert forall|m: int| 0 <= m < bpre.len() implies body.deep_view()[m] == bpre[m] by {
                assert(body@[m] == body@.subrange(0, bpre.len() as int)[m]);
            }
            assert(rowv =~~= r4_out_body(sc, (t.len() - 1) as nat)[rr as int]);
            assert(body.deep_view() =~~= r4_out_body(sc, (t.len() - 1) as nat).take(rr + 1));
        }
        rr = rr + 1;
    }
    proof {
        let full = r4_out_body(sc, (t.len() - 1) as nat);
        assert(full.take(full.len() as int) =~~= full);
        assert(body.deep_view() == full);
    }
    Ok((TraceTable { headers: out_headers, body }, ncols))
}

/// Converts a transposed R4 TSV export, already read into `data`, into
/// the Glotaran wavelength-explicit layout. Returns the derived output
/// filename (the source's extension replaced by `.ascii`) and the
/// bytes to append there; the emitted interval count is one less than
/// the surviving column count. Fails with a parse error when the
/// records cannot be read, there is no header record, or no column
/// survives the filter, and with a data error when a kept column's
/// label is neither `t` nor an integer.
pub fn run_r4(source: &str, data: &[u8]) -> (r: Result<(String, Vec<u8>), UnparsableFileError>)
    ensures
        csv_table(data@, 9, false) is None ==> (r matches Err(e) && e.kind == ErrorKind::Parse),
        csv_table(data@, 9, false) matches Some(t) ==> {
            &&& t.len() == 0 ==> (r matches Err(e) && e.kind == ErrorKind::Parse)
            &&& t.len() > 0 && !r4_sortable(r4_kept(t)) ==> (r matches Err(e) && e.kind
                == ErrorKind::Data)
            &&& t.len() > 0 && r4_sortable(r4_kept(t)) && r4_kept(t).len() == 0 ==> (
            r matches Err(e) && e.kind == ErrorKind::Parse)
            &&& t.len() > 0 && r4_sortable(r4_kept(t)) && r4_kept(t).len() > 0 ==> (
            r matches Ok(p) && p.0@ == derive_output_name(source@) && exists|
                sc: Seq<Seq<Seq<char>>>,
            |
                {
                    &&& #[trigger] sorted_columns(r4_kept(t), sc)
                    &&& p.1@ == ascii_bytes(
                        derive_output_name(source@),
                        r4_out_headers(sc),
                        r4_out_body(sc, (t.len() - 1) as nat),
                        r4_kept(t).len() - 1,
                    )
                })
        },
{
    match parse_table(data, 9, false) {
        None => Err(UnparsableFileError::parse("Source file could not be read")),
        Some(records) => {
            if records.len() == 0 {
                return Err(UnparsableFileError::parse("Source file has no header record"));
            }
            match r4_table(&records) {
                Err(e) => Err(e),
                Ok((table, line_count)) => {
                    let name = output_name_for(source);
                    let bytes = ascii_output(table.headers, table.body, line_count, name.as_str());
                    Ok((name, bytes))
                },
            }
        },
    }
}

} // verus!
