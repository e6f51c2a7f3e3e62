//! Rendering a dispatcher as the text of a `macro_rules!` macro.
use vstd::prelude::*;
use vstd::string::*;

use crate::branches::{branch_spec, slot_spec, Arm, Branch, Slot};
use crate::dispatcher::{Dispatcher, UNMATCHED_HINT, UNMATCHED_MESSAGE};
use crate::text::{join, join_strings};
use crate::validate::SignatureView;

verus! {

/// The value passed for parameter `p` when the caller names `subset`: a
/// placeholder for a forwarded argument, or the default expression.
pub open spec fn param_value(sig: SignatureView, subset: Seq<usize>, p: int) -> Seq<char> {
    let k = sig.required.len();
    if p < k {
        "$"@ + sig.required[p]
    } else if subset.contains((p - k) as usize) {
        "$"@ + sig.optional[p - k]
    } else {
        sig.defaults[p - k]
    }
}

/// One argument of the expansion: the value alone in call shape, `name: value`
/// in construction shape.
pub open spec fn arg_text(sig: SignatureView, subset: Seq<usize>, is_function: bool, p: int) -> Seq<char> {
    if is_function {
        param_value(sig, subset, p)
    } else {
        (sig.required + sig.optional)[p] + ": "@ + param_value(sig, subset, p)
    }
}

pub open spec fn arg_items(sig: SignatureView, subset: Seq<usize>, is_function: bool) -> Seq<Seq<char>> {
    Seq::new(
        sig.required.len() + sig.optional.len(),
        |p: int| arg_text(sig, subset, is_function, p),
    )
}

/// The call `target(..)` or the construction `target { .. }`.
pub open spec fn body_text(target: Seq<char>, is_function: bool, sig: SignatureView, subset: Seq<usize>) -> Seq<char> {
    let args = join(arg_items(sig, subset, is_function), ", "@);
    if is_function {
        target + "("@ + args + ")"@
    } else {
        target + " { "@ + args + " }"@
    }
}

/// A slot of the pattern: `$name:expr` for a required parameter, then
/// `name = $name:expr` for each named one, in the subset's order.
pub open spec fn pattern_item(sig: SignatureView, subset: Seq<usize>, i: int) -> Seq<char> {
    let k = sig.required.len();
    if i < k {
        "$"@ + sig.required[i] + ":expr"@
    } else {
        let name = sig.optional[subset[i - k] as int];
        name + " = $"@ + name + ":expr"@
    }
}

pub open spec fn pattern_items(sig: SignatureView, subset: Seq<usize>) -> Seq<Seq<char>> {
    Seq::new(sig.required.len() + subset.len(), |i: int| pattern_item(sig, subset, i))
}

/// `(pattern) => { body }`.
pub open spec fn arm_text(target: Seq<char>, is_function: bool, sig: SignatureView, subset: Seq<usize>) -> Seq<char> {
    "("@ + join(pattern_items(sig, subset), ", "@) + ") => { "@ + body_text(target, is_function, sig, subset)
        + " }"@
}

/// The catch-all arm: a compile-time error that echoes the unmatched input.
pub open spec fn fallback_text() -> Seq<char> {
    "($($tt:tt)*) => { compile_error!(concat!(\""@ + UNMATCHED_MESSAGE@ + "\", stringify!($($tt)*), \""@
        + UNMATCHED_HINT@ + "\")) }"@
}

/// The whole macro: one arm per subset, in order, then the catch-all.
pub open spec fn dispatcher_text(
    name: Seq<char>,
    export: bool,
    target: Seq<char>,
    is_function: bool,
    sig: SignatureView,
    subsets: Seq<Seq<usize>>,
) -> Seq<char> {
    let arms = subsets.map_values(|s: Seq<usize>| arm_text(target, is_function, sig, s)).push(fallback_text());
    "#[allow(non_snake_case, unused)] "@ + (if export {
        "#[macro_export] "@
    } else {
        Seq::empty()
    }) + "macro_rules! "@ + name + " { "@ + join(arms, "; "@) + " }"@
}

impl Dispatcher {
    pub open spec fn spec_text(&self) -> Seq<char> {
        dispatcher_text(
            self.macro_ident@,
            self.export,
            self.target@,
            self.is_function,
            self.signature@,
            self.subsets(),
        )
    }

    fn render_pattern(&self, b: &Branch) -> (r: String)
        requires
            forall|j: int| 0 <= j < b.keywords@.len() ==> #[trigger] b.keywords@[j] < self.signature.optional@.len(),
        ensures
            r@ == join(pattern_items(self.signature@, b.keywords@), ", "@),
    {
        let sig = &self.signature;
        let k = sig.required.len();
        let mut items: Vec<String> = Vec::new();
        let mut i: usize = 0;
        while i < k
            invariant
                i <= k,
                k == sig.required@.len(),
                items.deep_view() =~= pattern_items(sig@, b.keywords@).take(i as int),
            decreases k - i,
        {
            let mut s = String::from_str("$");
            s.append(sig.required[i].as_str());
            s.append(":expr");
            let ghost before = items.deep_view();
            items.push(s);
            assert(items.deep_view() =~= before.push(pattern_item(sig@, b.keywords@, i as int)));
            i = i + 1;
        }
        let mut j: usize = 0;
        while j < b.keywords.len()
            invariant
                j <= b.keywords@.len(),
                k == sig.required@.len(),
                forall|q: int| 0 <= q < b.keywords@.len() ==> #[trigger] b.keywords@[q] < sig.optional@.len(),
                items.deep_view() =~= pattern_items(sig@, b.keywords@).take(k + j),
            decreases b.keywords.len() - j,
        {
            let name = &sig.optional[b.keywords[j]].ident;
            let mut s = name.clone();
            s.append(" = $");
            s.append(name.as_str());
            s.append(":expr");
            let ghost before = items.deep_view();
            items.push(s);
            assert(items.deep_view() =~= before.push(pattern_item(sig@, b.keywords@, k + j)));
            j = j + 1;
        }
        assert(pattern_items(sig@, b.keywords@).take(k + j) =~= pattern_items(sig@, b.keywords@));
        join_strings(&items, ", ")
    }

    fn render_body(&self, b: &Branch) -> (r: String)
        requires
            branch_spec(self.signature, b.keywords@, *b),
        ensures
            r@ == body_text(self.target@, self.is_function, self.signature@, b.keywords@),
    {
        let sig = &self.signature;
        let k = sig.required.len();
        let mut items: Vec<String> = Vec::new();
        let mut p: usize = 0;
        while p < b.expansion.len()
            invariant
                p <= b.expansion@.len(),
                k == sig.required@.len(),
                branch_spec(*sig, b.keywords@, *b),
                items.deep_view() =~= arg_items(sig@, b.keywords@, self.is_function).take(p as int),
            decreases b.expansion.len() - p,
        {
            assert(slot_spec(*sig, b.keywords@, p as int, b.expansion@[p as int]));
            let name = if p < k {
                &sig.required[p]
            } else {
                &sig.optional[p - k].ident
            };
            assert(name@ == (sig@.required + sig@.optional)[p as int]);
            let mut s = if self.is_function {
                String::new()
            } else {
                let mut s = name.clone();
                s.append(": ");
                s
            };
            match &b.expansion[p] {
                Slot::DefaultValue(e) => {
                    s.append(e.as_str());
                },
                _ => {
                    s.append("$");
                    s.append(name.as_str());
                },
            }
            assert(s@ =~= arg_text(sig@, b.keywords@, self.is_function, p as int));
            let ghost before = items.deep_view();
            items.push(s);
            assert(items.deep_view() =~= before.push(arg_text(sig@, b.keywords@, self.is_function, p as int)));
            p = p + 1;
        }
        assert(arg_items(sig@, b.keywords@, self.is_function).take(p as int) =~= arg_items(
            sig@,
            b.keywords@,
            self.is_function,
        ));
        let args = join_strings(&items, ", ");
        let mut r = self.target.clone();
        if self.is_function {
            r.append("(");
            r.append(args.as_str());
            r.append(")");
        } else {
            r.append(" { ");
            r.append(args.as_str());
            r.append(" }");
        }
        r
    }

    fn render_fallback() -> (r: String)
        ensures
            r@ == fallback_text(),
    {
        let mut r = String::from_str("($($tt:tt)*) => { compile_error!(concat!(\"");
        r.append(UNMATCHED_MESSAGE);
        r.append("\", stringify!($($tt)*), \"");
        r.append(UNMATCHED_HINT);
        r.append("\")) }");
        r
    }

    /// The text of the `macro_rules!` macro this dispatcher stands for.
    pub fn render(&self) -> (r: String)
        requires
            self.wf(),
        ensures
            r@ == self.spec_text(),
    {
        let ghost arms_spec = self.subsets().map_values(
            |s: Seq<usize>| arm_text(self.target@, self.is_function, self.signature@, s),
        ).push(fallback_text());
        let last = self.arms.len() - 1;
        let mut arms: Vec<String> = Vec::new();
        let mut i: usize = 0;
        while i < last
            invariant
                self.wf(),
                last == self.arms@.len() - 1,
                i <= last,
                arms_spec == self.subsets().map_values(
                    |s: Seq<usize>| arm_text(self.target@, self.is_function, self.signature@, s),
                ).push(fallback_text()),
                arms.deep_view() =~= arms_spec.take(i as int),
            decreases last - i,
        {
            let text = match &self.arms[i] {
                Arm::Branch(b) => {
                    let mut t = String::from_str("(");
                    let pattern = self.render_pattern(b);
                    t.append(pattern.as_str());
                    t.append(") => { ");
                    let body = self.render_body(b);
                    t.append(body.as_str());
                    t.append(" }");
                    t
                },
                Arm::Fallback => String::new(),
            };
            let ghost before = arms.deep_view();
            arms.push(text);
            assert(arms.deep_view() =~= before.push(arms_spec[i as int]));
            i = i + 1;
        }
        let fallback = Self::render_fallback();
        let ghost before = arms.deep_view();
        arms.push(fallback);
        assert(arms_spec.len() == last + 1);
        assert(arms_spec[last as int] == fallback_text());
        assert(arms.deep_view() =~= before.push(fallback_text()));
        assert(arms.deep_view() =~= arms_spec);
        let mut r = String::from_str("#[allow(non_snake_case, unused)] ");
        if self.export {
            r.append("#[macro_export] ");
        }
        r.append("macro_rules! ");
        r.append(self.macro_ident.as_str());
        r.append(" { ");
        let joined = join_strings(&arms, "; ");
        r.append(joined.as_str());
        r.append(" }");
        r
    }
}

} // verus!
