use vstd::prelude::*;

verus! {

/// The intermediate representation shared by all importers: an ordered
/// sequence of header labels and an ordered sequence of body rows of
/// string cells. The writer serializes it verbatim; the importers state
/// in their contracts exactly which headers and rows they build.
pub struct TraceTable {
    pub headers: Vec<String>,
    pub body: Vec<Vec<String>>,
}

/// Copies a row of cells verbatim.
pub fn clone_row(row: &Vec<String>) -> (r: Vec<String>)
    ensures
        r.deep_view() == row.deep_view(),
{
    let mut r: Vec<String> = Vec::new();
    let mut k: usize = 0;
    while k < row.len()
        invariant
            k <= row@.len(),
            r@.len() == k,
            r.deep_view() == row.deep_view().take(k as int),
        decreases row@.len() - k,
    {
        let ghost pre = r.deep_view();
        r.push(row[k].clone());
        proof {
            assert forall|i: int| 0 <= i < k + 1 implies r.deep_view()[i]
                == row.deep_view()[i] by {
                if i < k {
                    assert(pre[i] == row.deep_view().take(k as int)[i]);
                }
            }
            assert(r.deep_view() =~~= row.deep_view().take(k + 1));
        }
        k = k + 1;
    }
    proof {
        assert(row.deep_view().take(row@.len() as int) =~~= row.deep_view());
    }
    r
}

} // verus!
