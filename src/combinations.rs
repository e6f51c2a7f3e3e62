//! The combination generator: every named-argument subset a caller may supply.
//!
//! Optional parameters are identified by their position in the optional suffix.
//! In declaration-order mode the subsets are the combinations of those positions;
//! in shuffled mode every ordering of every subset is recognised as well.
use itertools::Itertools;
use vstd::arithmetic::div_mod::lemma_div_by_multiple;
use vstd::prelude::*;

use crate::validate::OptionalArg;

verus! {

/// The positions `0, 1, ..., n - 1`.
pub open spec fn range_seq(n: nat) -> Seq<usize> {
    Seq::new(n, |i: int| i as usize)
}

/// The `k`-element subsequences of `start..n`, in lexicographic order.
pub open spec fn combinations_from(start: nat, n: nat, k: nat) -> Seq<Seq<usize>>
    decreases n - start,
{
    if k == 0 {
        seq![Seq::empty()]
    } else if start >= n {
        Seq::empty()
    } else {
        combinations_from(start + 1, n, (k - 1) as nat).map_values(
            |c: Seq<usize>| seq![start as usize] + c,
        ) + combinations_from(start + 1, n, k)
    }
}

/// The `k`-arrangements of the elements of `pool` whose first element is taken
/// from `pool[i..]`, in lexicographic order of positions in `pool`.
pub open spec fn permutations_from(pool: Seq<usize>, k: nat, i: nat) -> Seq<Seq<usize>>
    decreases k, pool.len() - i,
{
    if k == 0 {
        seq![Seq::empty()]
    } else if i >= pool.len() {
        Seq::empty()
    } else {
        permutations_from(pool.remove(i as int), (k - 1) as nat, 0).map_values(
            |p: Seq<usize>| seq![pool[i as int]] + p,
        ) + permutations_from(pool, k, i + 1)
    }
}

/// The `k`-arrangements of `pool`, in lexicographic order of positions.
pub open spec fn permutations_of(pool: Seq<usize>, k: nat) -> Seq<Seq<usize>> {
    permutations_from(pool, k, 0)
}

/// The subsets of size `i` of `n` optional parameters.
pub open spec fn subsets_of_size(n: nat, shuffle: bool, i: nat) -> Seq<Seq<usize>> {
    if shuffle {
        permutations_of(range_seq(n), i)
    } else {
        combinations_from(0, n, i)
    }
}

/// The subsets of sizes `0..m`, smaller sizes first.
pub open spec fn subsets_upto(n: nat, shuffle: bool, m: nat) -> Seq<Seq<usize>>
    decreases m,
{
    if m == 0 {
        Seq::empty()
    } else {
        subsets_upto(n, shuffle, (m - 1) as nat) + subsets_of_size(n, shuffle, (m - 1) as nat)
    }
}

/// Every named-argument subset of `n` optional parameters, sizes `0` to `n`.
pub open spec fn named_subsets(n: nat, shuffle: bool) -> Seq<Seq<usize>> {
    subsets_upto(n, shuffle, n + 1)
}

/// Relies on `Itertools::combinations` applied to `0..n`: the `k`-length
/// combinations in lexicographic order of positions (one empty combination for
/// `k == 0`, none for `k > n`). Its indices start at `0..k` and
/// `increment_indices` advances the rightmost index that can still grow, then
/// resets those after it: the order of its documentation example.
/// The result is collected in full, so memory for it is assumed.
#[verifier::external_body]
fn combinations_of_range(n: usize, k: usize) -> (r: Vec<Vec<usize>>)
    ensures
        r.deep_view() == combinations_from(0, n as nat, k as nat),
{
    (0..n).combinations(k).collect()
}

/// Relies on `Itertools::permutations` applied to `0..n`: the `k`-length
/// permutations in lexicographic order of positions (one empty permutation for
/// `k == 0`, none for `k > n`). It yields `[0, .., k-1]` first, then advances
/// with the index/cycle scheme of `advance`, which visits the arrangements in
/// lexicographic order, as its documentation example shows.
/// The result is collected in full, so memory for it is assumed.
#[verifier::external_body]
fn permutations_of_range(n: usize, k: usize) -> (r: Vec<Vec<usize>>)
    ensures
        r.deep_view() == permutations_of(range_seq(n as nat), k as nat),
{
    (0..n).permutations(k).collect()
}

/// Enumerates the named-argument subsets of `opt_args`, as positions in it:
/// by size from `0` to `opt_args.len()`, each size in lexicographic order.
pub fn compute_combinations(opt_args: &Vec<OptionalArg>, shuffle: bool) -> (r: Vec<Vec<usize>>)
    ensures
        r.deep_view() == named_subsets(opt_args@.len(), shuffle),
{
    let n = opt_args.len();
    let mut result: Vec<Vec<usize>> = if shuffle {
        permutations_of_range(n, 0)
    } else {
        combinations_of_range(n, 0)
    };
    assert(subsets_upto(n as nat, shuffle, 0) =~= Seq::empty());
    assert(result.deep_view() =~= subsets_upto(n as nat, shuffle, 1));
    let mut i: usize = 0;
    while i < n
        invariant
            i <= n,
            n == opt_args@.len(),
            result.deep_view() == subsets_upto(n as nat, shuffle, (i + 1) as nat),
        decreases n - i,
    {
        i = i + 1;
        let mut part = if shuffle {
            permutations_of_range(n, i)
        } else {
            combinations_of_range(n, i)
        };
        let ghost before = result.deep_view();
        let ghost added = part.deep_view();
        result.append(&mut part);
        assert(result.deep_view() =~= before + added);
    }
    result
}

// ---------------------------------------------------------------------------
// Counting.

pub open spec fn two_pow(n: nat) -> nat
    decreases n,
{
    if n == 0 {
        1
    } else {
        2 * two_pow((n - 1) as nat)
    }
}

pub open spec fn factorial(n: nat) -> nat
    decreases n,
{
    if n == 0 {
        1
    } else {
        n * factorial((n - 1) as nat)
    }
}

/// The binomial coefficient, by Pascal's rule.
pub open spec fn binomial(m: nat, i: nat) -> nat
    decreases m,
{
    if i == 0 {
        1
    } else if m == 0 {
        0
    } else {
        binomial((m - 1) as nat, (i - 1) as nat) + binomial((m - 1) as nat, i)
    }
}

/// `m * (m - 1) * ... * (m - k + 1)`: the number of `k`-arrangements of `m` items.
pub open spec fn falling(m: nat, k: nat) -> nat
    decreases k,
{
    if k == 0 {
        1
    } else if m == 0 {
        0
    } else {
        m * falling((m - 1) as nat, (k - 1) as nat)
    }
}

/// `binomial(m, 0) + ... + binomial(m, j - 1)`.
pub open spec fn binomial_sum(m: nat, j: nat) -> nat
    decreases j,
{
    if j == 0 {
        0
    } else {
        binomial_sum(m, (j - 1) as nat) + binomial(m, (j - 1) as nat)
    }
}

/// `n!/n! + n!/(n-1)! + ... + n!/(n-j+1)!`.
pub open spec fn arrangement_sum(n: nat, j: nat) -> nat
    decreases j,
{
    if j == 0 {
        0
    } else {
        arrangement_sum(n, (j - 1) as nat) + factorial(n) / factorial((n - (j - 1)) as nat)
    }
}

pub proof fn lemma_combinations_len(start: nat, n: nat, k: nat)
    requires
        start <= n,
    ensures
        combinations_from(start, n, k).len() == binomial((n - start) as nat, k),
    decreases n - start,
{
    if k != 0 && start < n {
        lemma_combinations_len(start + 1, n, (k - 1) as nat);
        lemma_combinations_len(start + 1, n, k);
    }
}

pub proof fn lemma_permutations_len(pool: Seq<usize>, k: nat, i: nat)
    requires
        i <= pool.len(),
    ensures
        k == 0 ==> permutations_from(pool, k, i).len() == 1,
        k > 0 ==> permutations_from(pool, k, i).len() == (pool.len() - i) * falling(
            (pool.len() - 1) as nat,
            (k - 1) as nat,
        ),
    decreases k, pool.len() - i,
{
    if k > 0 && i < pool.len() {
        let rest = pool.remove(i as int);
        let block = permutations_from(rest, (k - 1) as nat, 0).map_values(
            |p: Seq<usize>| seq![pool[i as int]] + p,
        );
        assert(permutations_from(pool, k, i) == block + permutations_from(pool, k, i + 1));
        lemma_permutations_len(rest, (k - 1) as nat, 0);
        lemma_permutations_len(pool, k, i + 1);
        let f = falling((pool.len() - 1) as nat, (k - 1) as nat);
        assert(permutations_from(rest, (k - 1) as nat, 0).len() == f) by {
            if k - 1 > 0 && rest.len() > 0 {
                assert(f == rest.len() * falling((rest.len() - 1) as nat, (k - 2) as nat));
            }
        }
        let a = pool.len() - i - 1;
        assert(f + a * f == (a + 1) * f) by (nonlinear_arith);
        assert(block.len() == f);
        assert(permutations_from(pool, k, i + 1).len() == a * f);
        assert(permutations_from(pool, k, i).len() == (a + 1) * f);
    } else if k > 0 {
        let f = falling((pool.len() - 1) as nat, (k - 1) as nat);
        assert(0 * f == 0) by (nonlinear_arith);
    }
}

pub proof fn lemma_binomial_zero(m: nat, i: nat)
    requires
        i > m,
    ensures
        binomial(m, i) == 0,
    decreases m,
{
    if m > 0 {
        lemma_binomial_zero((m - 1) as nat, (i - 1) as nat);
        lemma_binomial_zero((m - 1) as nat, i);
    }
}

pub proof fn lemma_binomial_sum_pascal(m: nat, j: nat)
    ensures
        binomial_sum(m + 1, j + 1) == binomial_sum(m, j) + binomial_sum(m, j + 1),
    decreases j,
{
    assert(binomial_sum(m, 0) == 0);
    assert(binomial_sum(m + 1, 0) == 0);
    if j > 0 {
        lemma_binomial_sum_pascal(m, (j - 1) as nat);
        assert(binomial(m + 1, j) == binomial(m, (j - 1) as nat) + binomial(m, j));
    }
}

pub proof fn lemma_binomial_total(m: nat)
    ensures
        binomial_sum(m, m + 1) == two_pow(m),
    decreases m,
{
    assert(binomial_sum(m, 0) == 0);
    if m > 0 {
        let p = (m - 1) as nat;
        assert(binomial_sum(p, p + 2) == binomial_sum(p, p + 1) + binomial(p, p + 1));
        lemma_binomial_total(p);
        lemma_binomial_sum_pascal(p, m);
        lemma_binomial_zero(p, m);
    }
}

pub proof fn lemma_falling_factorial(n: nat, i: nat)
    requires
        i <= n,
    ensures
        falling(n, i) * factorial((n - i) as nat) == factorial(n),
        falling(n, i) == factorial(n) / factorial((n - i) as nat),
    decreases i,
{
    lemma_factorial_positive((n - i) as nat);
    if i > 0 {
        lemma_falling_factorial((n - 1) as nat, (i - 1) as nat);
        let a = falling((n - 1) as nat, (i - 1) as nat);
        let b = factorial((n - i) as nat);
        assert(n * a * b == n * (a * b)) by (nonlinear_arith);
    }
    lemma_div_by_multiple(falling(n, i) as int, factorial((n - i) as nat) as int);
}

pub proof fn lemma_factorial_positive(n: nat)
    ensures
        factorial(n) > 0,
    decreases n,
{
    if n > 0 {
        lemma_factorial_positive((n - 1) as nat);
        assert(n * factorial((n - 1) as nat) > 0) by (nonlinear_arith)
            requires
                n > 0,
                factorial((n - 1) as nat) > 0,
        ;
    }
}

proof fn lemma_sequential_len(n: nat, m: nat)
    ensures
        subsets_upto(n, false, m).len() == binomial_sum(n, m),
    decreases m,
{
    if m > 0 {
        lemma_sequential_len(n, (m - 1) as nat);
        lemma_combinations_len(0, n, (m - 1) as nat);
    }
}

proof fn lemma_shuffled_len(n: nat, m: nat)
    requires
        m <= n + 1,
    ensures
        subsets_upto(n, true, m).len() == arrangement_sum(n, m),
    decreases m,
{
    if m > 0 {
        let i = (m - 1) as nat;
        lemma_shuffled_len(n, i);
        lemma_permutations_len(range_seq(n), i, 0);
        lemma_falling_factorial(n, i);
        if i > 0 && n > 0 {
            assert(falling(n, i) == n * falling((n - 1) as nat, (i - 1) as nat));
        }
    }
}

/// Counting law of the generator: with `n` optional parameters it yields `2^n`
/// subsets in declaration-order mode, and `n!/(n-i)!` arrangements of each size
/// `i` from `0` to `n` in shuffled mode.
pub proof fn lemma_subset_counts(n: nat)
    ensures
        named_subsets(n, false).len() == two_pow(n),
        named_subsets(n, true).len() == arrangement_sum(n, n + 1),
{
    lemma_sequential_len(n, n + 1);
    lemma_binomial_total(n);
    lemma_shuffled_len(n, n + 1);
}

} // verus!

verus! {

/// Every position named in every subset is below `n`.
pub open spec fn all_below(subsets: Seq<Seq<usize>>, n: nat) -> bool {
    forall|i: int, j: int|
        0 <= i < subsets.len() && 0 <= j < subsets[i].len() ==> #[trigger] subsets[i][j] < n
}

proof fn lemma_combinations_bounded(start: nat, n: nat, k: nat)
    ensures
        all_below(combinations_from(start, n, k), n),
    decreases n - start,
{
    if k != 0 && start < n {
        let a = combinations_from(start + 1, n, (k - 1) as nat);
        let b = combinations_from(start + 1, n, k);
        lemma_combinations_bounded(start + 1, n, (k - 1) as nat);
        lemma_combinations_bounded(start + 1, n, k);
        let f = |c: Seq<usize>| seq![start as usize] + c;
        let all = combinations_from(start, n, k);
        assert(all == a.map_values(f) + b);
        assert forall|i: int, j: int| 0 <= i < all.len() && 0 <= j < all[i].len() implies #[trigger] all[i][j] < n by {
            if i < a.len() {
                assert(all[i] == seq![start as usize] + a[i]);
                if j > 0 {
                    assert(all[i][j] == a[i][j - 1]);
                }
            } else {
                assert(all[i] == b[i - a.len()]);
            }
        }
    }
}

proof fn lemma_permutations_bounded(pool: Seq<usize>, k: nat, i: nat, n: nat)
    requires
        forall|q: int| 0 <= q < pool.len() ==> #[trigger] pool[q] < n,
    ensures
        all_below(permutations_from(pool, k, i), n),
    decreases k, pool.len() - i,
{
    if k != 0 && i < pool.len() {
        let rest = pool.remove(i as int);
        let a = permutations_from(rest, (k - 1) as nat, 0);
        let b = permutations_from(pool, k, i + 1);
        assert forall|q: int| 0 <= q < rest.len() implies #[trigger] rest[q] < n by {
            if q < i {
                assert(rest[q] == pool[q]);
            } else {
                assert(rest[q] == pool[q + 1]);
            }
        }
        lemma_permutations_bounded(rest, (k - 1) as nat, 0, n);
        lemma_permutations_bounded(pool, k, i + 1, n);
        let f = |p: Seq<usize>| seq![pool[i as int]] + p;
        let all = permutations_from(pool, k, i);
        assert(all == a.map_values(f) + b);
        assert forall|x: int, j: int| 0 <= x < all.len() && 0 <= j < all[x].len() implies #[trigger] all[x][j] < n by {
            if x < a.len() {
                assert(all[x] == seq![pool[i as int]] + a[x]);
                if j > 0 {
                    assert(all[x][j] == a[x][j - 1]);
                }
            } else {
                assert(all[x] == b[x - a.len()]);
            }
        }
    }
}

proof fn lemma_subsets_upto_bounded(n: nat, shuffle: bool, m: nat)
    ensures
        all_below(subsets_upto(n, shuffle, m), n),
    decreases m,
{
    if m > 0 {
        let i = (m - 1) as nat;
        lemma_subsets_upto_bounded(n, shuffle, i);
        if shuffle {
            lemma_permutations_bounded(range_seq(n), i, 0, n);
        } else {
            lemma_combinations_bounded(0, n, i);
        }
        let a = subsets_upto(n, shuffle, i);
        let b = subsets_of_size(n, shuffle, i);
        let all = subsets_upto(n, shuffle, m);
        assert forall|x: int, j: int| 0 <= x < all.len() && 0 <= j < all[x].len() implies #[trigger] all[x][j] < n by {
            if x < a.len() {
                assert(all[x] == a[x]);
            } else {
                assert(all[x] == b[x - a.len()]);
            }
        }
    }
}

/// Every subset names only positions of the optional suffix.
pub proof fn lemma_named_subsets_bounded(n: nat, shuffle: bool)
    ensures
        all_below(named_subsets(n, shuffle), n),
{
    lemma_subsets_upto_bounded(n, shuffle, n + 1);
}

} // verus!

verus! {

/// `order` lists every position below `n` exactly once.
pub open spec fn is_arrangement(order: Seq<usize>, n: nat) -> bool {
    &&& order.len() == n
    &&& order.no_duplicates()
    &&& forall|j: int| 0 <= j < order.len() ==> #[trigger] order[j] < n
    &&& forall|o: usize| o < n ==> #[trigger] order.contains(o)
}

proof fn lemma_range_in_combinations(start: nat, n: nat)
    requires
        start <= n,
    ensures
        combinations_from(start, n, (n - start) as nat).contains(
            Seq::new((n - start) as nat, |i: int| (start + i) as usize),
        ),
    decreases n - start,
{
    let target = Seq::new((n - start) as nat, |i: int| (start + i) as usize);
    if start == n {
        assert(target =~= Seq::empty());
        assert(combinations_from(start, n, 0)[0] == target);
    } else {
        lemma_range_in_combinations(start + 1, n);
        let rest = Seq::new((n - (start + 1)) as nat, |i: int| (start + 1 + i) as usize);
        let a = combinations_from(start + 1, n, (n - start - 1) as nat);
        let t = choose|t: int| 0 <= t < a.len() && a[t] == rest;
        let f = |c: Seq<usize>| seq![start as usize] + c;
        let all = combinations_from(start, n, (n - start) as nat);
        assert(all == a.map_values(f) + combinations_from(start + 1, n, (n - start) as nat));
        assert(all[t] == seq![start as usize] + rest);
        assert(all[t] =~= target);
    }
}

proof fn lemma_permutations_from_contains(pool: Seq<usize>, k: nat, i: nat, i0: nat, x: Seq<usize>)
    requires
        k > 0,
        i <= i0 < pool.len(),
        permutations_from(pool.remove(i0 as int), (k - 1) as nat, 0).map_values(
            |p: Seq<usize>| seq![pool[i0 as int]] + p,
        ).contains(x),
    ensures
        permutations_from(pool, k, i).contains(x),
    decreases i0 - i,
{
    let a = permutations_from(pool.remove(i as int), (k - 1) as nat, 0).map_values(
        |p: Seq<usize>| seq![pool[i as int]] + p,
    );
    let b = permutations_from(pool, k, i + 1);
    let all = permutations_from(pool, k, i);
    assert(all == a + b);
    if i == i0 {
        let t = choose|t: int| 0 <= t < a.len() && a[t] == x;
        assert(all[t] == x);
    } else {
        lemma_permutations_from_contains(pool, k, i + 1, i0, x);
        let t = choose|t: int| 0 <= t < b.len() && b[t] == x;
        assert(all[a.len() + t] == x);
    }
}

proof fn lemma_in_permutations(pool: Seq<usize>, p: Seq<usize>)
    requires
        pool.no_duplicates(),
        p.no_duplicates(),
        forall|j: int| 0 <= j < p.len() ==> pool.contains(#[trigger] p[j]),
    ensures
        permutations_of(pool, p.len()).contains(p),
    decreases p.len(),
{
    if p.len() == 0 {
        assert(p =~= Seq::empty());
        assert(permutations_of(pool, 0)[0] == p);
    } else {
        let x = p[0];
        assert(pool.contains(p[0]));
        let i0 = choose|i: int| 0 <= i < pool.len() && pool[i] == x;
        let rest = pool.remove(i0);
        let tail = p.drop_first();
        assert forall|a: int, b: int| 0 <= a < rest.len() && 0 <= b < rest.len() && a != b implies rest[a]
            != rest[b] by {
            let ia = if a < i0 { a } else { a + 1 };
            let ib = if b < i0 { b } else { b + 1 };
            assert(rest[a] == pool[ia] && rest[b] == pool[ib]);
        }
        assert forall|j: int| 0 <= j < tail.len() implies rest.contains(#[trigger] tail[j]) by {
            let y = tail[j];
            assert(y == p[j + 1]);
            assert(pool.contains(p[j + 1]));
            let m = choose|m: int| 0 <= m < pool.len() && pool[m] == y;
            assert(m != i0);
            if m < i0 {
                assert(rest[m] == y);
            } else {
                assert(rest[m - 1] == y);
            }
        }
        lemma_in_permutations(rest, tail);
        let inner = permutations_from(rest, tail.len(), 0);
        let t = choose|t: int| 0 <= t < inner.len() && inner[t] == tail;
        let block = inner.map_values(|q: Seq<usize>| seq![pool[i0]] + q);
        assert(block[t] =~= p);
        assert((p.len() - 1) as nat == tail.len());
        lemma_permutations_from_contains(pool, p.len(), 0, i0 as nat, p);
    }
}

proof fn lemma_subsets_upto_contains(n: nat, shuffle: bool, m: nat, i: nat, x: Seq<usize>)
    requires
        i < m,
        subsets_of_size(n, shuffle, i).contains(x),
    ensures
        subsets_upto(n, shuffle, m).contains(x),
    decreases m,
{
    let a = subsets_upto(n, shuffle, (m - 1) as nat);
    let b = subsets_of_size(n, shuffle, (m - 1) as nat);
    let all = subsets_upto(n, shuffle, m);
    assert(all == a + b);
    if i == m - 1 {
        let t = choose|t: int| 0 <= t < b.len() && b[t] == x;
        assert(all[a.len() + t] == x);
    } else {
        lemma_subsets_upto_contains(n, shuffle, (m - 1) as nat, i, x);
        let t = choose|t: int| 0 <= t < a.len() && a[t] == x;
        assert(all[t] == x);
    }
}

/// Naming every optional parameter is recognised: in declaration order in
/// either mode, and in any order when shuffled.
pub proof fn lemma_full_subset_enumerated(n: nat, shuffle: bool, order: Seq<usize>)
    requires
        n <= usize::MAX,
        is_arrangement(order, n),
        !shuffle ==> order == range_seq(n),
    ensures
        named_subsets(n, shuffle).contains(order),
{
    if shuffle {
        let pool = range_seq(n);
        assert forall|a: int, b: int| 0 <= a < pool.len() && 0 <= b < pool.len() && a != b implies pool[a]
            != pool[b] by {
            assert(pool[a] == a && pool[b] == b);
        }
        assert forall|j: int| 0 <= j < order.len() implies pool.contains(#[trigger] order[j]) by {
            assert(pool[order[j] as int] == order[j]);
        }
        lemma_in_permutations(pool, order);
    } else {
        lemma_range_in_combinations(0, n);
        assert(Seq::new(n, |i: int| (0 + i) as usize) =~= order);
    }
    lemma_subsets_upto_contains(n, shuffle, n + 1, n, order);
}

} // verus!
