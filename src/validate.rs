//! The suffix validator: optional parameters must form a trailing run.
use vstd::prelude::*;
use vstd::string::*;

use crate::parser::GenericOptArg;

verus! {

/// The expression used for an optional parameter declared without a default.
pub const IMPLICIT_DEFAULT: &'static str = "::std::default::Default::default()";

/// Every parameter after an optional one is optional too.
pub open spec fn suffix_invariant(args: Seq<GenericOptArg>) -> bool {
    forall|i: int, j: int|
        0 <= i < j < args.len() && #[trigger] args[i].spec_is_optional() ==> #[trigger] args[j].spec_is_optional()
}

/// The index of the first optional parameter at or after `i`, or the length.
pub open spec fn first_optional_from(args: Seq<GenericOptArg>, i: nat) -> nat
    decreases args.len() - i,
{
    if i >= args.len() {
        args.len()
    } else if args[i as int].spec_is_optional() {
        i
    } else {
        first_optional_from(args, i + 1)
    }
}

/// The index of the first required parameter at or after `i`, or the length.
pub open spec fn first_required_from(args: Seq<GenericOptArg>, i: nat) -> nat
    decreases args.len() - i,
{
    if i >= args.len() {
        args.len()
    } else if !args[i as int].spec_is_optional() {
        i
    } else {
        first_required_from(args, i + 1)
    }
}

/// The number of required parameters: those before the first optional one.
pub open spec fn split_point(args: Seq<GenericOptArg>) -> nat {
    first_optional_from(args, 0)
}

/// The first required parameter that follows an optional one (the length if none).
pub open spec fn violation(args: Seq<GenericOptArg>) -> nat {
    first_required_from(args, split_point(args))
}

/// The default expression of an optional parameter: its own, or the zero value.
pub open spec fn resolved_default(arg: GenericOptArg) -> Seq<char> {
    match arg.value {
        Some(e) => e@,
        None => IMPLICIT_DEFAULT@,
    }
}

pub proof fn lemma_first_optional_from(args: Seq<GenericOptArg>, i: nat)
    requires
        i <= args.len(),
    ensures
        i <= first_optional_from(args, i) <= args.len(),
        forall|j: int| i <= j < first_optional_from(args, i) ==> !(#[trigger] args[j].spec_is_optional()),
        first_optional_from(args, i) < args.len() ==> args[first_optional_from(args, i) as int].spec_is_optional(),
    decreases args.len() - i,
{
    if i < args.len() && !args[i as int].spec_is_optional() {
        lemma_first_optional_from(args, i + 1);
    }
}

pub proof fn lemma_first_required_from(args: Seq<GenericOptArg>, i: nat)
    requires
        i <= args.len(),
    ensures
        i <= first_required_from(args, i) <= args.len(),
        forall|j: int| i <= j < first_required_from(args, i) ==> (#[trigger] args[j].spec_is_optional()),
        first_required_from(args, i) < args.len() ==> !args[first_required_from(args, i) as int].spec_is_optional(),
    decreases args.len() - i,
{
    if i < args.len() && args[i as int].spec_is_optional() {
        lemma_first_required_from(args, i + 1);
    }
}

/// A list is accepted exactly when no required parameter follows an optional one.
pub proof fn lemma_violation_iff(args: Seq<GenericOptArg>)
    ensures
        suffix_invariant(args) <==> violation(args) == args.len(),
        violation(args) < args.len() ==> split_point(args) < violation(args),
{
    lemma_first_optional_from(args, 0);
    lemma_first_required_from(args, split_point(args));
    let k = split_point(args);
    let v = violation(args);
    if v < args.len() {
        assert(k < v) by {
            if k == v {
                assert(args[k as int].spec_is_optional());
            }
        }
        assert(args[k as int].spec_is_optional());
        assert(!args[v as int].spec_is_optional());
        assert(!suffix_invariant(args));
    } else {
        assert forall|i: int, j: int|
            0 <= i < j < args.len() && #[trigger] args[i].spec_is_optional() implies #[trigger] args[j].spec_is_optional() by {
            if j < k {
                assert(!args[i].spec_is_optional());
            }
        }
    }
}

/// An optional parameter with its default expression resolved.
#[derive(Clone, Debug)]
pub struct OptionalArg {
    pub ident: String,
    pub default: String,
}

/// A validated parameter list: the required prefix and the optional suffix.
#[derive(Clone, Debug)]
pub struct Signature {
    /// Names of the required parameters, in declaration order.
    pub required: Vec<String>,
    /// The optional parameters, in declaration order.
    pub optional: Vec<OptionalArg>,
}

/// A signature as names and default expressions.
pub struct SignatureView {
    pub required: Seq<Seq<char>>,
    pub optional: Seq<Seq<char>>,
    pub defaults: Seq<Seq<char>>,
}

impl View for Signature {
    type V = SignatureView;

    open spec fn view(&self) -> SignatureView {
        SignatureView {
            required: self.required_names(),
            optional: self.optional_names(),
            defaults: self.defaults(),
        }
    }
}

/// The signature that `args` describes: required prefix and optional suffix.
pub open spec fn signature_of(args: Seq<GenericOptArg>) -> SignatureView {
    let k = split_point(args) as int;
    SignatureView {
        required: args.subrange(0, k).map_values(|a: GenericOptArg| a.ident@),
        optional: args.subrange(k, args.len() as int).map_values(|a: GenericOptArg| a.ident@),
        defaults: args.subrange(k, args.len() as int).map_values(|a: GenericOptArg| resolved_default(a)),
    }
}

pub proof fn lemma_describes_view(sig: Signature, args: Seq<GenericOptArg>)
    requires
        sig.describes(args),
    ensures
        sig@ == signature_of(args),
{
    let v = signature_of(args);
    let k = split_point(args) as int;
    assert(sig.required_names() =~= v.required);
    assert(sig.optional_names() =~= v.optional);
    assert(sig.defaults() =~= v.defaults);
}

impl Signature {
    pub open spec fn required_names(&self) -> Seq<Seq<char>> {
        self.required.deep_view()
    }

    pub open spec fn optional_names(&self) -> Seq<Seq<char>> {
        self.optional@.map_values(|a: OptionalArg| a.ident@)
    }

    pub open spec fn defaults(&self) -> Seq<Seq<char>> {
        self.optional@.map_values(|a: OptionalArg| a.default@)
    }

    /// The names of all parameters, in declaration order.
    pub open spec fn all_names(&self) -> Seq<Seq<char>> {
        self.required_names() + self.optional_names()
    }

    /// This signature is the split of `args`, with defaults resolved.
    pub open spec fn describes(&self, args: Seq<GenericOptArg>) -> bool {
        let k = split_point(args) as int;
        &&& self.required@.len() == k
        &&& self.optional@.len() == args.len() - k
        &&& forall|i: int| 0 <= i < k ==> (#[trigger] self.required@[i])@ == args[i].ident@
        &&& forall|j: int|
            0 <= j < args.len() - k ==> (#[trigger] self.optional@[j]).ident@ == args[k + j].ident@
                && self.optional@[j].default@ == resolved_default(args[k + j])
    }
}

/// A required parameter declared after an optional one.
#[derive(Clone, Debug)]
pub struct StructuralError {
    /// Position of the offending parameter in the declaration.
    pub index: usize,
    /// Its name.
    pub ident: String,
}

impl StructuralError {
    pub fn message(&self) -> (r: &'static str)
        ensures
            r@ == STRUCTURAL_MESSAGE@,
    {
        STRUCTURAL_MESSAGE
    }
}

pub const STRUCTURAL_MESSAGE: &'static str = "Non-default arguments should come before default arguments";

/// Splits a parameter list into its required prefix and optional suffix.
///
/// Fails, naming the first required parameter that follows an optional one,
/// exactly when the list breaks the suffix invariant.
pub fn split_args(args: &Vec<GenericOptArg>) -> (r: Result<Signature, StructuralError>)
    ensures
        r is Ok <==> suffix_invariant(args@),
        r matches Ok(sig) ==> sig.describes(args@),
        r matches Err(e) ==> e.index == violation(args@) && e.index < args@.len()
            && e.ident@ == args@[e.index as int].ident@,
{
    proof {
        lemma_violation_iff(args@);
        lemma_first_optional_from(args@, 0);
    }
    let mut required: Vec<String> = Vec::new();
    let mut i: usize = 0;
    while i < args.len() && !args[i].is_optional()
        invariant
            i <= args.len(),
            required@.len() == i,
            forall|j: int| 0 <= j < i ==> (#[trigger] required@[j])@ == args@[j].ident@,
            forall|j: int| 0 <= j < i ==> !(#[trigger] args@[j].spec_is_optional()),
            first_optional_from(args@, 0) == first_optional_from(args@, i as nat),
        decreases args.len() - i,
    {
        required.push(args[i].ident.clone());
        i = i + 1;
    }
    let k = i;
    assert(k == split_point(args@));
    proof {
        lemma_first_required_from(args@, k as nat);
    }
    let mut optional: Vec<OptionalArg> = Vec::new();
    while i < args.len()
        invariant
            k <= i <= args.len(),
            k == split_point(args@),
            k < args.len() ==> args@[k as int].spec_is_optional(),
            optional@.len() == i - k,
            forall|j: int|
                0 <= j < i - k ==> (#[trigger] optional@[j]).ident@ == args@[k + j].ident@
                    && optional@[j].default@ == resolved_default(args@[k + j]),
            first_required_from(args@, k as nat) == first_required_from(args@, i as nat),
        decreases args.len() - i,
    {
        let arg = &args[i];
        if !arg.is_optional() {
            return Err(StructuralError { index: i, ident: arg.ident.clone() });
        }
        let default = match &arg.value {
            Some(e) => e.clone(),
            None => String::from_str(IMPLICIT_DEFAULT),
        };
        optional.push(OptionalArg { ident: arg.ident.clone(), default });
        i = i + 1;
    }
    assert(violation(args@) == args@.len());
    Ok(Signature { required, optional })
}

} // verus!
