use vstd::prelude::*;

verus! {

/// A decimal digit, as instrument software uses them in wavelength labels.
pub open spec fn spec_is_digit(c: char) -> bool {
    '0' <= c && c <= '9'
}

/// The first run of three consecutive decimal digits in `s`, if there is
/// one: the leftmost position at which three digits stand in a row wins,
/// and exactly those three characters are the label.
pub open spec fn label3(s: Seq<char>) -> Option<Seq<char>>
    decreases s.len(),
{
    if s.len() < 3 {
        None
    } else if spec_is_digit(s[0]) && spec_is_digit(s[1]) && spec_is_digit(s[2]) {
        Some(s.take(3))
    } else {
        label3(s.skip(1))
    }
}

/// Header label used by the LFP importer: the three-digit run, or the
/// empty string when the cell holds none.
pub open spec fn lfp_label(s: Seq<char>) -> Seq<char> {
    match label3(s) {
        Some(l) => l,
        None => Seq::empty(),
    }
}

/// Header label used by the Das6 importer: the three-digit run, or the
/// placeholder "0" when the cell holds none.
pub open spec fn das6_label(s: Seq<char>) -> Seq<char> {
    match label3(s) {
        Some(l) => l,
        None => seq!['0'],
    }
}

fn is_digit_char(c: char) -> (r: bool)
    ensures
        r == spec_is_digit(c),
{
    c >= '0' && c <= '9'
}

/// Extracts the first run of exactly three consecutive decimal digits
/// from a raw column name, the convention by which the instruments
/// encode a wavelength inside a longer header cell.
pub fn extract_numeric_label(s: &str) -> (r: Option<String>)
    ensures
        match r {
            Some(l) => label3(s@) == Some(l@),
            None => label3(s@) is None,
        },
{
    let n = s.unicode_len();
    if n < 3 {
        return None;
    }
    let mut i: usize = 0;
    proof {
        assert(s@.skip(0) =~= s@);
    }
    while i <= n - 3
        invariant
            i <= n,
            3 <= n == s@.len(),
            label3(s@) == label3(s@.skip(i as int)),
        decreases n - i,
    {
        let c0 = s.get_char(i);
        let c1 = s.get_char(i + 1);
        let c2 = s.get_char(i + 2);
        if is_digit_char(c0) && is_digit_char(c1) && is_digit_char(c2) {
            let lab = s.substring_char(i, i + 3);
            proof {
                assert(s@.skip(i as int).take(3) =~= s@.subrange(i as int, i as int + 3));
            }
            return Some(lab.to_owned());
        }
        proof {
            assert(s@.skip(i as int).skip(1) =~= s@.skip(i as int + 1));
        }
        i = i + 1;
    }
    None
}

} // verus!
