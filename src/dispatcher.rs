//! The dispatcher: an ordered table of invocation shapes, tried first to last.
use vstd::prelude::*;
use vstd::string::*;

use crate::branches::{branch_spec, slot_spec, Arm, Branch, Slot};
use crate::text::{join, join_strings};
use crate::validate::Signature;

verus! {

/// A dispatcher bound to a name, built for one declaration.
#[derive(Clone, Debug)]
pub struct Dispatcher {
    /// The name the dispatcher is bound to.
    pub macro_ident: String,
    /// The declaration's own name: what is called or constructed.
    pub target: String,
    /// Call shape (`target(..)`) rather than construction shape (`target { .. }`).
    pub is_function: bool,
    /// Whether the dispatcher is visible outside its crate.
    pub export: bool,
    pub signature: Signature,
    /// The branches, most specific first, and the fallback last.
    pub arms: Vec<Arm>,
}

/// An invocation of a dispatcher: positional arguments, then `name = value` pairs.
#[derive(Clone, Debug)]
pub struct Invocation {
    pub positional: Vec<String>,
    pub named: Vec<(String, String)>,
}

/// The invocation that no branch recognised, with its arguments as written.
#[derive(Clone, Debug)]
pub struct UnmatchedInvocation {
    pub arguments: String,
}

pub const UNMATCHED_MESSAGE: &'static str = "Unrecognized order or name for arguments: `";

pub const UNMATCHED_HINT: &'static str =
    "`. If you want to pass named parameters in any order, use the attribute #[opt_args(shuffle)]";

impl UnmatchedInvocation {
    pub open spec fn spec_message(&self) -> Seq<char> {
        UNMATCHED_MESSAGE@ + self.arguments@ + UNMATCHED_HINT@
    }

    /// The diagnostic: the unmatched arguments and a hint about the ordering mode.
    pub fn message(&self) -> (r: String)
        ensures
            r@ == self.spec_message(),
    {
        let mut r = String::from_str(UNMATCHED_MESSAGE);
        r.append(self.arguments.as_str());
        r.append(UNMATCHED_HINT);
        r
    }
}

/// `name = value`.
pub open spec fn named_text(arg: (String, String)) -> Seq<char> {
    arg.0@ + " = "@ + arg.1@
}

/// The arguments of an invocation as written: `a, b, name = value`.
pub open spec fn invocation_text(inv: Invocation) -> Seq<char> {
    join(inv.positional.deep_view() + inv.named@.map_values(|a: (String, String)| named_text(a)), ", "@)
}

impl Invocation {
    pub fn to_text(&self) -> (r: String)
        ensures
            r@ == invocation_text(*self),
    {
        let mut items: Vec<String> = Vec::new();
        let mut i: usize = 0;
        while i < self.positional.len()
            invariant
                i <= self.positional@.len(),
                items.deep_view() =~= self.positional.deep_view().take(i as int),
            decreases self.positional.len() - i,
        {
            let ghost before = items.deep_view();
            let item = self.positional[i].clone();
            items.push(item);
            assert(items.deep_view() =~= before.push(self.positional@[i as int]@));
            i = i + 1;
        }
        let mut j: usize = 0;
        while j < self.named.len()
            invariant
                j <= self.named@.len(),
                items.deep_view() =~= self.positional.deep_view() + self.named@.take(j as int).map_values(
                    |a: (String, String)| named_text(a),
                ),
            decreases self.named.len() - j,
        {
            let mut s = self.named[j].0.clone();
            s.append(" = ");
            s.append(self.named[j].1.as_str());
            let ghost before = items.deep_view();
            items.push(s);
            assert(items.deep_view() =~= before.push(named_text(self.named@[j as int])));
            assert(self.named@.take(j + 1).map_values(|a: (String, String)| named_text(a))
                =~= self.named@.take(j as int).map_values(|a: (String, String)| named_text(a)).push(named_text(self.named@[j as int])));
            j = j + 1;
        }
        assert(self.named@.take(j as int) =~= self.named@);
        join_strings(&items, ", ")
    }
}

/// Whether `arm` recognises the shape of `inv`.
pub open spec fn arm_matches(sig: Signature, arm: Arm, inv: Invocation) -> bool {
    match arm {
        Arm::Fallback => true,
        Arm::Branch(b) => {
            &&& inv.positional@.len() == sig.required@.len()
            &&& inv.named@.len() == b.keywords@.len()
            &&& forall|j: int|
                0 <= j < b.keywords@.len() ==> (#[trigger] inv.named@[j]).0@ == sig.optional@[b.keywords@[j] as int].ident@
        },
    }
}

/// The arguments a branch passes to the target for `inv`, in declaration order.
pub open spec fn branch_result(b: Branch, inv: Invocation) -> Seq<Seq<char>> {
    Seq::new(
        b.expansion@.len(),
        |p: int|
            match b.expansion@[p] {
                Slot::Positional(i) => inv.positional@[i as int]@,
                Slot::Named(j) => inv.named@[j as int].1@,
                Slot::DefaultValue(e) => e@,
            },
    )
}

impl Dispatcher {
    /// Branches first, the fallback last; each branch is the one of its subset,
    /// and names only optional parameters.
    pub open spec fn wf(&self) -> bool {
        &&& self.arms@.len() >= 1
        &&& self.arms@.last() is Fallback
        &&& forall|i: int|
            0 <= i < self.arms@.len() - 1 ==> (#[trigger] self.arms@[i] matches Arm::Branch(b) && branch_spec(
                self.signature,
                b.keywords@,
                b,
            ) && forall|j: int|
                0 <= j < b.keywords@.len() ==> #[trigger] b.keywords@[j] < self.signature.optional@.len())
    }

    /// The named subsets of the branches, in table order.
    pub open spec fn subsets(&self) -> Seq<Seq<usize>> {
        Seq::new(
            (self.arms@.len() - 1) as nat,
            |i: int|
                match self.arms@[i] {
                    Arm::Branch(b) => b.keywords@,
                    Arm::Fallback => Seq::empty(),
                },
        )
    }

    /// First-match resolution from the arm at `i` on.
    pub open spec fn resolve_from(&self, inv: Invocation, i: nat) -> Option<Seq<Seq<char>>>
        decreases self.arms@.len() - i,
    {
        if i >= self.arms@.len() {
            None
        } else if arm_matches(self.signature, self.arms@[i as int], inv) {
            match self.arms@[i as int] {
                Arm::Branch(b) => Some(branch_result(b, inv)),
                Arm::Fallback => None,
            }
        } else {
            self.resolve_from(inv, i + 1)
        }
    }

    /// The arguments the target receives for `inv`, or `None` when the first
    /// arm that recognises `inv` is the fallback.
    pub open spec fn spec_resolve(&self, inv: Invocation) -> Option<Seq<Seq<char>>> {
        self.resolve_from(inv, 0)
    }

    fn arm_matches(&self, arm: &Arm, inv: &Invocation) -> (r: bool)
        requires
            arm matches Arm::Branch(b) ==> forall|j: int|
                0 <= j < b.keywords@.len() ==> #[trigger] b.keywords@[j] < self.signature.optional@.len(),
        ensures
            r == arm_matches(self.signature, *arm, *inv),
    {
        match arm {
            Arm::Fallback => true,
            Arm::Branch(b) => {
                if inv.positional.len() != self.signature.required.len() || inv.named.len()
                    != b.keywords.len() {
                    return false;
                }
                let mut j: usize = 0;
                while j < b.keywords.len()
                    invariant
                        *arm == Arm::Branch(*b),
                        j <= b.keywords@.len(),
                        inv.positional@.len() == self.signature.required@.len(),
                        inv.named@.len() == b.keywords@.len(),
                        forall|q: int|
                            0 <= q < b.keywords@.len() ==> #[trigger] b.keywords@[q] < self.signature.optional@.len(),
                        forall|q: int|
                            0 <= q < j ==> (#[trigger] inv.named@[q]).0@ == self.signature.optional@[b.keywords@[q] as int].ident@,
                    decreases b.keywords.len() - j,
                {
                    let o = b.keywords[j];
                    let same = inv.named[j].0 == self.signature.optional[o].ident;
                    if !same {
                        assert(inv.named@[j as int].0@ != self.signature.optional@[b.keywords@[j as int] as int].ident@);
                        return false;
                    }
                    j = j + 1;
                }
                true
            },
        }
    }

    /// Resolves an invocation: the first arm that recognises its shape decides.
    /// A branch yields the target's arguments in declaration order; the
    /// fallback yields the unmatched arguments as written.
    pub fn resolve(&self, inv: &Invocation) -> (r: Result<Vec<String>, UnmatchedInvocation>)
        requires
            self.wf(),
        ensures
            r is Ok <==> self.spec_resolve(*inv) is Some,
            r matches Ok(args) ==> args.deep_view() == self.spec_resolve(*inv)->0,
            r matches Err(e) ==> e.arguments@ == invocation_text(*inv),
    {
        let mut i: usize = 0;
        while i < self.arms.len()
            invariant
                self.wf(),
                i <= self.arms@.len(),
                self.spec_resolve(*inv) == self.resolve_from(*inv, i as nat),
            decreases self.arms.len() - i,
        {
            let arm = &self.arms[i];
            if self.arm_matches(arm, inv) {
                match arm {
                    Arm::Branch(b) => {
                        return Ok(self.apply(b, inv));
                    },
                    Arm::Fallback => {
                        return Err(UnmatchedInvocation { arguments: inv.to_text() });
                    },
                }
            }
            i = i + 1;
        }
        Err(UnmatchedInvocation { arguments: inv.to_text() })
    }

    fn apply(&self, b: &Branch, inv: &Invocation) -> (r: Vec<String>)
        requires
            branch_spec(self.signature, b.keywords@, *b),
            arm_matches(self.signature, Arm::Branch(*b), *inv),
        ensures
            r.deep_view() == branch_result(*b, *inv),
    {
        let mut r: Vec<String> = Vec::new();
        let mut p: usize = 0;
        while p < b.expansion.len()
            invariant
                p <= b.expansion@.len(),
                branch_spec(self.signature, b.keywords@, *b),
                arm_matches(self.signature, Arm::Branch(*b), *inv),
                r.deep_view() =~= branch_result(*b, *inv).take(p as int),
            decreases b.expansion.len() - p,
        {
            assert(slot_spec(self.signature, b.keywords@, p as int, b.expansion@[p as int]));
            let v = match &b.expansion[p] {
                Slot::Positional(i) => inv.positional[*i].clone(),
                Slot::Named(j) => inv.named[*j].1.clone(),
                Slot::DefaultValue(e) => e.clone(),
            };
            let ghost before = r.deep_view();
            r.push(v);
            assert(r.deep_view() =~= before.push(branch_result(*b, *inv)[p as int]));
            p = p + 1;
        }
        assert(branch_result(*b, *inv).take(p as int) =~= branch_result(*b, *inv));
        r
    }
}

/// The resolved call `target(v, ..)`, or the construction `target { name: v, .. }`.
pub open spec fn call_text(target: Seq<char>, is_function: bool, names: Seq<Seq<char>>, args: Seq<Seq<char>>) -> Seq<char> {
    if is_function {
        target + "("@ + join(args, ", "@) + ")"@
    } else {
        target + " { "@ + join(Seq::new(args.len(), |i: int| names[i] + ": "@ + args[i]), ", "@) + " }"@
    }
}

impl Dispatcher {
    proof fn lemma_resolved_len(&self, inv: Invocation, i: nat)
        requires
            self.wf(),
        ensures
            self.resolve_from(inv, i) matches Some(args) ==> args.len() == self.signature.required@.len()
                + self.signature.optional@.len(),
        decreases self.arms@.len() - i,
    {
        if i < self.arms@.len() && !arm_matches(self.signature, self.arms@[i as int], inv) {
            self.lemma_resolved_len(inv, i + 1);
        }
    }

    /// What an invocation expands to: the resolved call or construction, or the
    /// unmatched arguments when the fallback decides.
    pub fn expand_invocation(&self, inv: &Invocation) -> (r: Result<String, UnmatchedInvocation>)
        requires
            self.wf(),
        ensures
            r is Ok <==> self.spec_resolve(*inv) is Some,
            r matches Ok(text) ==> text@ == call_text(
                self.target@,
                self.is_function,
                self.signature.all_names(),
                self.spec_resolve(*inv)->0,
            ),
            r matches Err(e) ==> e.arguments@ == invocation_text(*inv),
    {
        let args = match self.resolve(inv) {
            Ok(args) => args,
            Err(e) => {
                return Err(e);
            },
        };
        proof {
            self.lemma_resolved_len(*inv, 0);
        }
        let mut r = self.target.clone();
        if self.is_function {
            r.append("(");
            let joined = join_strings(&args, ", ");
            r.append(joined.as_str());
            r.append(")");
            return Ok(r);
        }
        let k = self.signature.required.len();
        let ghost names = self.signature.all_names();
        let ghost fields = Seq::new(args@.len(), |i: int| names[i] + ": "@ + args.deep_view()[i]);
        let mut items: Vec<String> = Vec::new();
        let mut i: usize = 0;
        while i < args.len()
            invariant
                i <= args@.len(),
                k == self.signature.required@.len(),
                args@.len() == self.signature.required@.len() + self.signature.optional@.len(),
                names == self.signature.all_names(),
                fields == Seq::new(args@.len(), |i: int| names[i] + ": "@ + args.deep_view()[i]),
                items.deep_view() =~= fields.take(i as int),
            decreases args.len() - i,
        {
            let mut s = if i < k {
                self.signature.required[i].clone()
            } else {
                self.signature.optional[i - k].ident.clone()
            };
            s.append(": ");
            s.append(args[i].as_str());
            let ghost before = items.deep_view();
            items.push(s);
            assert(items.deep_view() =~= before.push(fields[i as int]));
            i = i + 1;
        }
        assert(fields.take(i as int) =~= fields);
        r.append(" { ");
        let joined = join_strings(&items, ", ");
        r.append(joined.as_str());
        r.append(" }");
        Ok(r)
    }
}

} // verus!
