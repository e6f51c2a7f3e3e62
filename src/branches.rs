//! The branch synthesizer: one invocation shape and its resolved expansion per
//! named-argument subset, followed by the fallback.
use vstd::prelude::*;

use crate::validate::Signature;

verus! {

/// What the expansion passes for one parameter.
#[derive(Clone, Debug)]
pub enum Slot {
    /// The caller's positional argument at this index.
    Positional(usize),
    /// The value of the caller's named argument at this index.
    Named(usize),
    /// The parameter's default expression.
    DefaultValue(String),
}

/// One recognised invocation shape with its expansion.
///
/// The shape is the required parameters, positionally, followed by one
/// `name = value` slot per entry of `keywords`, in that order.
#[derive(Clone, Debug)]
pub struct Branch {
    /// The named subset: positions in the optional suffix, in call-site order.
    pub keywords: Vec<usize>,
    /// One argument per parameter, in declaration order.
    pub expansion: Vec<Slot>,
}

/// An entry of the dispatch table.
#[derive(Clone, Debug)]
pub enum Arm {
    Branch(Branch),
    /// Matches any input and reports it as unrecognised.
    Fallback,
}

/// `slot` is what the expansion passes for parameter `p` of `sig` when the
/// caller names the optional parameters in `subset`.
pub open spec fn slot_spec(sig: Signature, subset: Seq<usize>, p: int, slot: Slot) -> bool {
    let k = sig.required@.len();
    if p < k {
        slot matches Slot::Positional(i) && i == p
    } else if subset.contains((p - k) as usize) {
        slot matches Slot::Named(j) && j < subset.len() && subset[j as int] == p - k
    } else {
        slot matches Slot::DefaultValue(e) && e@ == sig.optional@[p - k].default@
    }
}

/// `b` is the branch of `sig` for the named subset `subset`.
pub open spec fn branch_spec(sig: Signature, subset: Seq<usize>, b: Branch) -> bool {
    &&& b.keywords@ == subset
    &&& b.expansion@.len() == sig.required@.len() + sig.optional@.len()
    &&& forall|p: int| 0 <= p < b.expansion@.len() ==> slot_spec(sig, subset, p, #[trigger] b.expansion@[p])
}

/// The position of `x` in `s`, if it occurs there.
fn position_of(s: &Vec<usize>, x: usize) -> (r: Option<usize>)
    ensures
        r matches Some(j) ==> j < s@.len() && s@[j as int] == x,
        r is None ==> !s@.contains(x),
{
    let mut j: usize = 0;
    while j < s.len()
        invariant
            j <= s@.len(),
            forall|i: int| 0 <= i < j ==> s@[i] != x,
        decreases s.len() - j,
    {
        if s[j] == x {
            return Some(j);
        }
        j = j + 1;
    }
    None
}

/// Builds the branch for one named subset.
///
/// Required parameters forward their positional argument. Optional parameters
/// are visited in declaration order: one named in `subset` forwards the named
/// argument, any other gets its default expression.
pub fn synthesize_branch(sig: &Signature, subset: &Vec<usize>) -> (b: Branch)
    ensures
        branch_spec(*sig, subset@, b),
        b.expansion@.len() == sig.required@.len() + sig.optional@.len(),
{
    let k = sig.required.len();
    let n = sig.optional.len();
    let mut expansion: Vec<Slot> = Vec::new();
    let mut p: usize = 0;
    while p < k
        invariant
            p <= k,
            k == sig.required@.len(),
            expansion@.len() == p,
            forall|q: int| 0 <= q < p ==> slot_spec(*sig, subset@, q, #[trigger] expansion@[q]),
        decreases k - p,
    {
        expansion.push(Slot::Positional(p));
        p = p + 1;
    }
    let mut o: usize = 0;
    while o < n
        invariant
            o <= n,
            k == sig.required@.len(),
            n == sig.optional@.len(),
            expansion@.len() == k + o,
            forall|q: int| 0 <= q < k + o ==> slot_spec(*sig, subset@, q, #[trigger] expansion@[q]),
        decreases n - o,
    {
        let slot = match position_of(subset, o) {
            Some(j) => Slot::Named(j),
            None => Slot::DefaultValue(sig.optional[o].default.clone()),
        };
        expansion.push(slot);
        o = o + 1;
    }
    Branch { keywords: subset.clone(), expansion }
}

/// Builds the dispatch table: one branch per named subset, in the order given,
/// then the fallback.
pub fn macro_branches(sig: &Signature, combinations: &Vec<Vec<usize>>) -> (r: Vec<Arm>)
    ensures
        r@.len() == combinations@.len() + 1,
        forall|i: int|
            0 <= i < combinations@.len() ==> (#[trigger] r@[i] matches Arm::Branch(b) && branch_spec(
                *sig,
                combinations@[i]@,
                b,
            )),
        r@.last() is Fallback,
{
    let mut result: Vec<Arm> = Vec::new();
    let mut i: usize = 0;
    while i < combinations.len()
        invariant
            i <= combinations@.len(),
            result@.len() == i,
            forall|q: int|
                0 <= q < i ==> (#[trigger] result@[q] matches Arm::Branch(b) && branch_spec(
                    *sig,
                    combinations@[q]@,
                    b,
                )),
        decreases combinations.len() - i,
    {
        let b = synthesize_branch(sig, &combinations[i]);
        result.push(Arm::Branch(b));
        i = i + 1;
    }
    result.push(Arm::Fallback);
    result
}

} // verus!
