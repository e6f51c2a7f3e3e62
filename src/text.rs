//! Assembling text from pieces.
use vstd::prelude::*;
use vstd::string::*;

verus! {

/// The items separated by `sep`.
pub open spec fn join(items: Seq<Seq<char>>, sep: Seq<char>) -> Seq<char>
    decreases items.len(),
{
    if items.len() == 0 {
        Seq::empty()
    } else if items.len() == 1 {
        items[0]
    } else {
        join(items.drop_last(), sep) + sep + items.last()
    }
}

pub fn join_strings(items: &Vec<String>, sep: &str) -> (r: String)
    ensures
        r@ == join(items.deep_view(), sep@),
{
    let mut r = String::new();
    let mut i: usize = 0;
    while i < items.len()
        invariant
            i <= items@.len(),
            r@ == join(items.deep_view().take(i as int), sep@),
        decreases items.len() - i,
    {
        proof {
            let next = items.deep_view().take(i + 1);
            assert(next.drop_last() =~= items.deep_view().take(i as int));
            assert(next.last() == items@[i as int]@);
        }
        if i > 0 {
            r.append(sep);
        }
        r.append(items[i].as_str());
        i = i + 1;
    }
    assert(items.deep_view().take(i as int) =~= items.deep_view());
    r
}

} // verus!
