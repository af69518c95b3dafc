use vstd::prelude::*;
use crate::csvio::tsv_bytes;
use crate::csvio::tsv_encode;
use crate::numfmt::dec_int;
use crate::numfmt::u64_to_string;

verus! {

/// The four preamble lines of a Glotaran wavelength-explicit file: the
/// output filename, the fixed author label, the format marker, and the
/// interval count actually emitted.
pub open spec fn preamble_chars(name: Seq<char>, interval: int) -> Seq<char> {
    name + "\n"@ + "Eduardo Gonik\n"@ + "wavelength explicit\n"@ + "intervalnr "@ + dec_int(
        interval,
    ) + "\n"@
}

/// The full output file: the UTF-8 bytes of the preamble followed by
/// the tab-delimited table, one header record then one record per body
/// row.
pub open spec fn ascii_bytes(
    name: Seq<char>,
    headers: Seq<Seq<char>>,
    body: Seq<Seq<Seq<char>>>,
    interval: int,
) -> Seq<u8> {
    vstd::utf8::encode_utf8(preamble_chars(name, interval)) + tsv_bytes(
        body.insert(0, headers),
        9,
    )
}

/// Renders the Glotaran wavelength-explicit layout: the caller appends
/// the returned bytes to the destination file. The emitted interval
/// count is one less than `line_count`, exactly as the preamble format
/// demands.
pub fn ascii_output(
    headers: Vec<String>,
    body: Vec<Vec<String>>,
    line_count: usize,
    output_name: &str,
) -> (r: Vec<u8>)
    requires
        line_count >= 1,
    ensures
        r@ == ascii_bytes(
            output_name@,
            headers.deep_view(),
            body.deep_view(),
            line_count - 1,
        ),
{
    let num = u64_to_string((line_count - 1) as u64);
    let mut p = output_name.to_owned();
    p.append("\n");
    p.append("Eduardo Gonik\n");
    p.append("wavelength explicit\n");
    p.append("intervalnr ");
    p.append(num.as_str());
    p.append("\n");
    proof {
        assert(p@ =~= preamble_chars(output_name@, line_count - 1));
    }
    let mut out: Vec<u8> = p.as_str().as_bytes_vec();
    let ghost hv = headers.deep_view();
    let ghost bv = body.deep_view();
    let mut rows = body;
    rows.insert(0, headers);
    proof {
        assert(rows.deep_view() =~~= bv.insert(0, hv));
    }
    let mut t = tsv_encode(&rows, 9);
    out.append(&mut t);
    proof {
        assert(out@ =~= ascii_bytes(output_name@, hv, bv, line_count - 1));
    }
    out
}

} // verus!
