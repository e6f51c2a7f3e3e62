//! The pipeline: validate, enumerate, synthesize, assemble.
use vstd::prelude::*;

use crate::branches::{branch_spec, macro_branches, slot_spec, Arm};
use crate::combinations::{
    compute_combinations, is_arrangement, lemma_full_subset_enumerated, lemma_named_subsets_bounded,
    named_subsets, range_seq, subsets_upto,
};
use crate::dispatcher::{arm_matches, branch_result, Dispatcher, Invocation};
use crate::parser::{OptArgsAttributes, OptArgsItemType};
use crate::render::dispatcher_text;
use crate::validate::{
    lemma_describes_view, lemma_first_optional_from, signature_of, split_args, split_point, suffix_invariant,
    violation, Signature, StructuralError,
};

verus! {

/// The name the dispatcher is bound to: the rename if configured.
pub open spec fn macro_name(item: OptArgsItemType, attrs: OptArgsAttributes) -> Seq<char> {
    match attrs.rename {
        Some(r) => r@,
        None => item.spec_ident(),
    }
}

/// `d` is the dispatcher of `item` under `attrs`.
pub open spec fn dispatcher_for(d: Dispatcher, item: OptArgsItemType, attrs: OptArgsAttributes) -> bool {
    &&& d.wf()
    &&& d.signature.describes(item.spec_args())
    &&& d.subsets() == named_subsets(d.signature.optional@.len(), attrs.shuffle)
    &&& d.target@ == item.spec_ident()
    &&& d.macro_ident@ == macro_name(item, attrs)
    &&& d.is_function == item.spec_is_function()
    &&& d.export == !attrs.non_export
    &&& d.signature.optional@.len() <= usize::MAX
}

/// Builds the dispatcher of a declaration, or reports the first required
/// parameter that follows an optional one.
pub fn build_dispatcher(item: &OptArgsItemType, attrs: &OptArgsAttributes) -> (r: Result<Dispatcher, StructuralError>)
    ensures
        r is Ok <==> suffix_invariant(item.spec_args()),
        r matches Ok(d) ==> dispatcher_for(d, *item, *attrs),
        r matches Err(e) ==> e.index == violation(item.spec_args()) && e.index < item.spec_args().len()
            && e.ident@ == item.spec_args()[e.index as int].ident@,
{
    let signature = match split_args(item.args()) {
        Ok(sig) => sig,
        Err(e) => {
            return Err(e);
        },
    };
    let combinations = compute_combinations(&signature.optional, attrs.shuffle);
    let arms = macro_branches(&signature, &combinations);
    let macro_ident = match &attrs.rename {
        Some(name) => name.clone(),
        None => item.ident().clone(),
    };
    let d = Dispatcher {
        macro_ident,
        target: item.ident().clone(),
        is_function: item.is_function(),
        export: !attrs.non_export,
        signature,
        arms,
    };
    let count = d.signature.optional.len();
    proof {
        let n = count as nat;
        lemma_named_subsets_bounded(n, attrs.shuffle);
        let subs = named_subsets(n, attrs.shuffle);
        assert(combinations.deep_view() == subs);
        assert forall|i: int| 0 <= i < d.arms@.len() - 1 implies (#[trigger] d.arms@[i] matches Arm::Branch(b)
            && branch_spec(d.signature, b.keywords@, b) && forall|j: int|
            0 <= j < b.keywords@.len() ==> #[trigger] b.keywords@[j] < d.signature.optional@.len()) by {
            assert(combinations@[i]@ == subs[i]);
            assert(forall|j: int| 0 <= j < subs[i].len() ==> #[trigger] subs[i][j] < n);
        }
        assert forall|i: int| 0 <= i < subs.len() implies #[trigger] d.subsets()[i] == subs[i] by {
            assert(combinations@[i]@ == subs[i]);
        }
        assert(d.subsets() =~= subs);
    }
    Ok(d)
}

/// The text generated for a declaration: its dispatcher as a `macro_rules!` macro.
pub open spec fn expansion_text(item: OptArgsItemType, attrs: OptArgsAttributes) -> Seq<char> {
    let sig = signature_of(item.spec_args());
    dispatcher_text(
        macro_name(item, attrs),
        !attrs.non_export,
        item.spec_ident(),
        item.spec_is_function(),
        sig,
        named_subsets(sig.optional.len(), attrs.shuffle),
    )
}

/// What the pipeline returns for `item` under `attrs`.
pub open spec fn internal_post(
    item: OptArgsItemType,
    attrs: OptArgsAttributes,
    r: Result<String, StructuralError>,
) -> bool {
    &&& r is Ok <==> suffix_invariant(item.spec_args())
    &&& r matches Ok(text) ==> text@ == expansion_text(item, attrs)
    &&& r matches Err(e) ==> e.index == violation(item.spec_args()) && e.index < item.spec_args().len()
        && e.ident@ == item.spec_args()[e.index as int].ident@
}

/// Runs the whole pipeline: the dispatcher's text, or the structural error.
/// Nothing is produced for a declaration that fails validation.
pub fn internal(item: &OptArgsItemType, attrs: &OptArgsAttributes) -> (r: Result<String, StructuralError>)
    ensures
        internal_post(*item, *attrs, r),
{
    match build_dispatcher(item, attrs) {
        Ok(d) => {
            proof {
                lemma_describes_view(d.signature, item.spec_args());
            }
            Ok(d.render())
        },
        Err(e) => Err(e),
    }
}

/// Running the pipeline again on an unchanged declaration gives the same
/// outcome: the same text, byte for byte, or the same error.
pub proof fn lemma_internal_deterministic(
    item: OptArgsItemType,
    attrs: OptArgsAttributes,
    first: Result<String, StructuralError>,
    second: Result<String, StructuralError>,
)
    requires
        internal_post(item, attrs, first),
        internal_post(item, attrs, second),
    ensures
        first is Ok <==> second is Ok,
        first is Ok ==> first->Ok_0@ == second->Ok_0@,
        first is Err ==> first->Err_0.index == second->Err_0.index && first->Err_0.ident@ == second->Err_0.ident@,
{
}

/// A declaration without optional parameters gets exactly one branch, which
/// names nothing, followed by the fallback.
pub proof fn lemma_no_optional_parameters(item: OptArgsItemType, attrs: OptArgsAttributes, d: Dispatcher)
    requires
        dispatcher_for(d, item, attrs),
        forall|i: int| 0 <= i < item.spec_args().len() ==> !(#[trigger] item.spec_args()[i].spec_is_optional()),
    ensures
        d.arms@.len() == 2,
        d.arms@[0] matches Arm::Branch(b) && b.keywords@.len() == 0,
        d.arms@[1] is Fallback,
{
    let args = item.spec_args();
    lemma_first_optional_from(args, 0);
    assert(split_point(args) == args.len());
    assert(d.signature.optional@.len() == 0);
    assert(subsets_upto(0, attrs.shuffle, 0) =~= Seq::empty());
    assert(named_subsets(0, attrs.shuffle).len() == 1);
    assert(d.subsets().len() == 1);
    assert(named_subsets(0, attrs.shuffle)[0] =~= Seq::<usize>::empty());
}

/// `inv` passes `values[..k]` positionally and names every optional parameter,
/// in the order `order`, with its value from `values`.
pub open spec fn names_every_parameter(
    sig: Signature,
    inv: Invocation,
    order: Seq<usize>,
    values: Seq<Seq<char>>,
) -> bool {
    let k = sig.required@.len() as int;
    &&& values.len() == k + sig.optional@.len()
    &&& inv.positional@.len() == k
    &&& forall|i: int| 0 <= i < k ==> (#[trigger] inv.positional@[i])@ == values[i]
    &&& inv.named@.len() == order.len()
    &&& forall|j: int|
        0 <= j < order.len() ==> (#[trigger] inv.named@[j]).0@ == sig.optional@[order[j] as int].ident@
            && inv.named@[j].1@ == values[k + order[j]]
}

proof fn lemma_resolve_first_match(d: Dispatcher, inv: Invocation, i: nat, t: nat, result: Seq<Seq<char>>)
    requires
        i <= t < d.arms@.len(),
        arm_matches(d.signature, d.arms@[t as int], inv),
        d.arms@[t as int] is Branch,
        forall|q: int|
            i <= q <= t && arm_matches(d.signature, #[trigger] d.arms@[q], inv) ==> (d.arms@[q] matches Arm::Branch(b)
                && branch_result(b, inv) == result),
    ensures
        d.resolve_from(inv, i) == Some(result),
    decreases t - i,
{
    if i < t && !arm_matches(d.signature, d.arms@[i as int], inv) {
        lemma_resolve_first_match(d, inv, i + 1, t, result);
    }
}

/// Round trip: naming every optional parameter, in any order the mode accepts
/// (declaration order, or any order when shuffled), resolves to the direct call
/// of the declaration with the same values in declaration order.
pub proof fn lemma_round_trip(
    item: OptArgsItemType,
    attrs: OptArgsAttributes,
    d: Dispatcher,
    order: Seq<usize>,
    inv: Invocation,
    values: Seq<Seq<char>>,
)
    requires
        dispatcher_for(d, item, attrs),
        signature_of(item.spec_args()).optional.no_duplicates(),
        is_arrangement(order, signature_of(item.spec_args()).optional.len()),
        !attrs.shuffle ==> order == range_seq(signature_of(item.spec_args()).optional.len()),
        names_every_parameter(d.signature, inv, order, values),
    ensures
        d.spec_resolve(inv) == Some(values),
{
    let sig = d.signature;
    lemma_describes_view(sig, item.spec_args());
    let n = sig.optional@.len();
    let k = sig.required@.len() as int;
    lemma_full_subset_enumerated(n, attrs.shuffle, order);
    let subs = d.subsets();
    let t = choose|t: int| 0 <= t < subs.len() && subs[t] == order;
    assert(d.arms@[t] matches Arm::Branch(b) && b.keywords@ == order);
    assert forall|q: int|
        0 <= q <= t && arm_matches(sig, #[trigger] d.arms@[q], inv) implies (d.arms@[q] matches Arm::Branch(b)
        && branch_result(b, inv) == values) by {
        let b = d.arms@[q]->Branch_0;
        assert(branch_spec(sig, b.keywords@, b));
        assert forall|j: int| 0 <= j < n implies #[trigger] b.keywords@[j] == order[j] by {
            assert(inv.named@[j].0@ == sig.optional@[b.keywords@[j] as int].ident@);
            assert(sig@.optional[b.keywords@[j] as int] == sig.optional@[b.keywords@[j] as int].ident@);
            assert(sig@.optional[order[j] as int] == sig.optional@[order[j] as int].ident@);
        }
        assert(b.keywords@ =~= order);
        assert forall|p: int| 0 <= p < values.len() implies #[trigger] branch_result(b, inv)[p] == values[p] by {
            assert(slot_spec(sig, order, p, b.expansion@[p]));
            assert(b.expansion@.len() == values.len());
            if p < k {
                assert(inv.positional@[p]@ == values[p]);
                assert(branch_result(b, inv)[p] == inv.positional@[p]@);
            } else {
                assert(order.contains((p - k) as usize));
                let j = b.expansion@[p]->Named_0 as int;
                assert(order[j] == p - k);
                assert(inv.named@[j].1@ == values[k + order[j]]);
                assert(branch_result(b, inv)[p] == inv.named@[j].1@);
            }
        }
        assert(branch_result(b, inv) =~= values);
    }
    lemma_resolve_first_match(d, inv, 0, t as nat, values);
}

} // verus!
