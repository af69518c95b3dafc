use vstd::prelude::*;
use crate::label::spec_is_digit;

verus! {

/// Every character of `s` is a decimal digit.
pub open spec fn all_digits(s: Seq<char>) -> bool {
    forall|i: int| 0 <= i < s.len() ==> spec_is_digit(s[i])
}

/// The numeric value of one digit character.
pub open spec fn digit_val(c: char) -> int {
    (c as u32) - 48
}

/// The value of a string of decimal digits, most significant first.
pub open spec fn digits_val(s: Seq<char>) -> int
    decreases s.len(),
{
    if s.len() == 0 {
        0
    } else {
        digits_val(s.drop_last()) * 10 + digit_val(s.last())
    }
}

/// A sign-stripped decimal digit string interpreted as an `i32`, `None`
/// when the digits are missing, malformed or out of range.
pub open spec fn parse_signed(ds: Seq<char>, neg: bool) -> Option<i32> {
    if ds.len() == 0 || !all_digits(ds) {
        None
    } else {
        let v = if neg {
            -digits_val(ds)
        } else {
            digits_val(ds)
        };
        if i32::MIN <= v <= i32::MAX {
            Some(v as i32)
        } else {
            None
        }
    }
}

/// What `s` means as a base-10 `i32`: an optional `+` or `-` sign
/// followed by one or more decimal digits, the value within range;
/// `None` otherwise. This matches how Rust reads an `i32` from a string.
pub open spec fn spec_parse_i32(s: Seq<char>) -> Option<i32> {
    if s.len() > 0 && s[0] == '-' {
        parse_signed(s.skip(1), true)
    } else if s.len() > 0 && s[0] == '+' {
        parse_signed(s.skip(1), false)
    } else {
        parse_signed(s, false)
    }
}

proof fn lemma_digits_val_nonneg(s: Seq<char>)
    requires
        all_digits(s),
    ensures
        digits_val(s) >= 0,
    decreases s.len(),
{
    if s.len() > 0 {
        assert(all_digits(s.drop_last()));
        lemma_digits_val_nonneg(s.drop_last());
        assert(digit_val(s.last()) >= 0);
    }
}

proof fn lemma_digits_val_prefix_le(s: Seq<char>, k: int)
    requires
        all_digits(s),
        0 <= k <= s.len(),
    ensures
        digits_val(s.take(k)) <= digits_val(s),
    decreases s.len() - k,
{
    if k < s.len() {
        lemma_digits_val_prefix_le(s, k + 1);
        let t = s.take(k + 1);
        assert(t.drop_last() =~= s.take(k));
        assert(all_digits(s.take(k)));
        lemma_digits_val_nonneg(s.take(k));
        assert(digit_val(t.last()) >= 0);
        assert(digits_val(s.take(k)) <= digits_val(t));
    } else {
        assert(s.take(k) =~= s);
    }
}

/// Reads `s` as a base-10 `i32` exactly as Rust's own integer parsing
/// does: an optional sign, then decimal digits, rejecting anything else
/// and any value outside the `i32` range.
#[verifier::loop_isolation(false)]
pub fn parse_i32(s: &str) -> (r: Option<i32>)
    ensures
        r == spec_parse_i32(s@),
{
    let n = s.unicode_len();
    if n == 0 {
        return None;
    }
    let c0 = s.get_char(0);
    let neg: bool = c0 == '-';
    let start: usize = if c0 == '-' || c0 == '+' {
        1
    } else {
        0
    };
    let ghost ds = s@.skip(start as int);
    proof {
        if start == 0 {
            assert(s@.skip(0) =~= s@);
        }
        assert(spec_parse_i32(s@) == parse_signed(ds, neg));
    }
    if n == start {
        proof {
            assert(ds.len() == 0);
        }
        return None;
    }
    let mut i: usize = start;
    let mut mag: u64 = 0;
    while i < n
        invariant
            start <= i <= n,
            n == s@.len(),
            start <= 1,
            ds == s@.skip(start as int),
            all_digits(ds.take(i - start)),
            mag == digits_val(ds.take(i - start)),
            mag <= 2147483648,
        decreases n - i,
    {
        let c = s.get_char(i);
        if !(c >= '0' && c <= '9') {
            proof {
                assert(ds[i - start] == c);
                assert(!all_digits(ds));
            }
            return None;
        }
        let d: u64 = ((c as u32) - 48) as u64;
        let ghost k = i - start;
        mag = mag * 10 + d;
        i = i + 1;
        proof {
            let t = ds.take(k + 1);
            assert(t.drop_last() =~= ds.take(k));
            assert(t.last() == ds[k]);
            assert(all_digits(ds.take(k + 1)));
            assert(mag == digits_val(ds.take(k + 1)));
        }
        if mag > 2147483648 {
            proof {
                if all_digits(ds) {
                    lemma_digits_val_prefix_le(ds, k + 1);
                    assert(digits_val(ds) > 2147483648);
                }
            }
            return None;
        }
    }
    proof {
        assert(ds.take(n - start) =~= ds);
        assert(all_digits(ds));
        assert(mag == digits_val(ds));
    }
    if neg {
        if mag == 2147483648 {
            Some(i32::MIN)
        } else {
            Some(-(mag as i32))
        }
    } else {
        if mag == 2147483648 {
            None
        } else {
            Some(mag as i32)
        }
    }
}

} // verus!
