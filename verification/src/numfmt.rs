use vstd::prelude::*;

verus! {

/// The character for a single decimal digit value.
pub open spec fn digit_char(d: int) -> char {
    if d == 0 {
        '0'
    } else if d == 1 {
        '1'
    } else if d == 2 {
        '2'
    } else if d == 3 {
        '3'
    } else if d == 4 {
        '4'
    } else if d == 5 {
        '5'
    } else if d == 6 {
        '6'
    } else if d == 7 {
        '7'
    } else if d == 8 {
        '8'
    } else {
        '9'
    }
}

/// Decimal rendering of a non-negative integer, most significant digit
/// first, with no leading zeros (a lone zero for 0).
pub open spec fn dec_nat(n: nat) -> Seq<char>
    decreases n,
{
    if n < 10 {
        seq![digit_char(n as int)]
    } else {
        dec_nat(n / 10).push(digit_char((n % 10) as int))
    }
}

/// Decimal rendering of an integer: a leading minus sign for negative
/// values, exactly as Rust's integer formatting prints them.
pub open spec fn dec_int(n: int) -> Seq<char> {
    if n < 0 {
        seq!['-'] + dec_nat((-n) as nat)
    } else {
        dec_nat(n as nat)
    }
}

fn digit_str(d: u64) -> (r: &'static str)
    requires
        d < 10,
    ensures
        r@ == seq![digit_char(d as int)],
{
    let r: &'static str = if d == 0 {
        "0"
    } else if d == 1 {
        "1"
    } else if d == 2 {
        "2"
    } else if d == 3 {
        "3"
    } else if d == 4 {
        "4"
    } else if d == 5 {
        "5"
    } else if d == 6 {
        "6"
    } else if d == 7 {
        "7"
    } else if d == 8 {
        "8"
    } else {
        "9"
    };
    proof {
        reveal_strlit("0");
        reveal_strlit("1");
        reveal_strlit("2");
        reveal_strlit("3");
        reveal_strlit("4");
        reveal_strlit("5");
        reveal_strlit("6");
        reveal_strlit("7");
        reveal_strlit("8");
        reveal_strlit("9");
        assert(r@ =~= seq![digit_char(d as int)]);
    }
    r
}

/// Renders a non-negative machine integer in decimal.
pub fn u64_to_string(n: u64) -> (s: String)
    ensures
        s@ == dec_nat(n as nat),
{
    let mut v: u64 = n;
    let mut tail: String = String::new();
    proof {
        assert(dec_nat(n as nat) =~= dec_nat(v as nat) + tail@);
    }
    while v >= 10
        invariant
            dec_nat(n as nat) == dec_nat(v as nat) + tail@,
        decreases v,
    {
        let d = v % 10;
        let ghost old_tail = tail@;
        let ghost old_v = v as nat;
        tail = digit_str(d).to_owned().concat(tail.as_str());
        v = v / 10;
        proof {
            assert(dec_nat(old_v) == dec_nat(old_v / 10).push(digit_char((old_v % 10) as int)));
            assert(tail@ == seq![digit_char(d as int)] + old_tail);
            assert(dec_nat(n as nat) =~= dec_nat(v as nat) + tail@);
        }
    }
    let r = digit_str(v).to_owned().concat(tail.as_str());
    proof {
        assert(r@ =~= dec_nat(n as nat));
    }
    r
}

/// Renders a machine integer in decimal, sign included.
pub fn i64_to_string(n: i64) -> (s: String)
    ensures
        s@ == dec_int(n as int),
{
    if n >= 0 {
        u64_to_string(n as u64)
    } else {
        let m: u64 = ((-(n + 1)) as u64) + 1;
        proof {
            assert(m as int == -(n as int));
        }
        let digits = u64_to_string(m);
        let r = "-".to_owned().concat(digits.as_str());
        proof {
            reveal_strlit("-");
            assert(r@ =~= dec_int(n as int));
        }
        r
    }
}

} // verus!
