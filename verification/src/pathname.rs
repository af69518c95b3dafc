use vstd::prelude::*;

verus! {

/// Index of the last occurrence of `c` in `s`, or -1 when absent.
pub open spec fn last_index_of(s: Seq<char>, c: char) -> int
    decreases s.len(),
{
    if s.len() == 0 {
        -1
    } else if s.last() == c {
        s.len() - 1
    } else {
        last_index_of(s.drop_last(), c)
    }
}

/// The final path component: everything after the last `/`.
pub open spec fn file_part(s: Seq<char>) -> Seq<char> {
    s.skip(last_index_of(s, '/') + 1)
}

/// The component with its extension removed: cut at the last `.`,
/// unless the only dot leads the name (a dotfile keeps its name).
pub open spec fn stem_part(c: Seq<char>) -> Seq<char> {
    let d = last_index_of(c, '.');
    if d <= 0 {
        c
    } else {
        c.take(d)
    }
}

/// The output filename for a source path: the source's file name with
/// its extension replaced by `.ascii`.
pub open spec fn derive_output_name(s: Seq<char>) -> Seq<char> {
    stem_part(file_part(s)) + ".ascii"@
}

proof fn lemma_last_index_bounds(s: Seq<char>, c: char)
    ensures
        -1 <= last_index_of(s, c) < s.len(),
    decreases s.len(),
{
    if s.len() > 0 && s.last() != c {
        lemma_last_index_bounds(s.drop_last(), c);
    }
}

proof fn lemma_last_index_take(s: Seq<char>, c: char, i: int)
    requires
        0 < i <= s.len(),
        s[i - 1] != c,
    ensures
        last_index_of(s.take(i), c) == last_index_of(s.take(i - 1), c),
{
    let t = s.take(i);
    assert(t.last() == s[i - 1]);
    assert(t.drop_last() =~= s.take(i - 1));
}

/// Finds the index after the last occurrence of `c`, scanning from the end.
#[verifier::loop_isolation(false)]
fn index_after_last(s: &str, c: char) -> (r: usize)
    ensures
        r == last_index_of(s@, c) + 1,
{
    let n = s.unicode_len();
    let mut i: usize = n;
    proof {
        assert(s@.take(n as int) =~= s@);
    }
    while i > 0
        invariant
            i <= n,
            last_index_of(s@, c) == last_index_of(s@.take(i as int), c),
        decreases i,
    {
        if s.get_char(i - 1) == c {
            proof {
                let t = s@.take(i as int);
                assert(t.last() == s@[i - 1]);
                assert(last_index_of(t, c) == i - 1);
            }
            return i;
        }
        proof {
            lemma_last_index_take(s@, c, i as int);
        }
        i = i - 1;
    }
    proof {
        assert(s@.take(0) =~= Seq::<char>::empty());
    }
    0
}

/// Derives the destination filename from the source path: the final
/// path component with its extension replaced by `.ascii`.
pub fn output_name_for(source: &str) -> (r: String)
    ensures
        r@ == derive_output_name(source@),
{
    let n = source.unicode_len();
    let slash_end = index_after_last(source, '/');
    proof {
        lemma_last_index_bounds(source@, '/');
    }
    let comp = source.substring_char(slash_end, n);
    proof {
        assert(comp@ =~= file_part(source@));
    }
    let m = comp.unicode_len();
    let dot_end = index_after_last(comp, '.');
    proof {
        lemma_last_index_bounds(comp@, '.');
    }
    let stem = if dot_end <= 1 {
        comp
    } else {
        comp.substring_char(0, dot_end - 1)
    };
    proof {
        assert(stem@ =~= stem_part(comp@));
    }
    let r = stem.to_owned().concat(".ascii");
    proof {
        assert(r@ =~= derive_output_name(source@));
    }
    r
}

} // verus!
