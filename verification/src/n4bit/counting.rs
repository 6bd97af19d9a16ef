//! Counts and sums over `0 .. n`.

use vstd::prelude::*;

verus! {

/// How many of `0 .. n` have the property.
pub open spec fn count(n: nat, p: spec_fn(int) -> bool) -> nat
    decreases n,
{
    if n == 0 {
        0
    } else {
        count((n - 1) as nat, p) + if p(n - 1) {
            1nat
        } else {
            0nat
        }
    }
}

/// One if the condition holds, else zero.
pub open spec fn indicator(b: bool) -> int {
    if b {
        1
    } else {
        0
    }
}

/// The sum of `f` over `0 .. n`.
pub open spec fn sum(n: nat, f: spec_fn(int) -> int) -> int
    decreases n,
{
    if n == 0 {
        0
    } else {
        sum((n - 1) as nat, f) + f(n - 1)
    }
}

/// A count is at most the size of the range.
pub proof fn lemma_count_bound(n: nat, p: spec_fn(int) -> bool)
    ensures
        count(n, p) <= n,
    decreases n,
{
    if n > 0 {
        lemma_count_bound((n - 1) as nat, p);
    }
}

/// Properties that agree on the range have the same count.
pub proof fn lemma_count_same(n: nat, p: spec_fn(int) -> bool, q: spec_fn(int) -> bool)
    requires
        forall|i: int| 0 <= i < n ==> #[trigger] p(i) == q(i),
    ensures
        count(n, p) == count(n, q),
    decreases n,
{
    if n > 0 {
        lemma_count_same((n - 1) as nat, p, q);
    }
}

/// What has a stronger property is no more.
pub proof fn lemma_count_implied(n: nat, p: spec_fn(int) -> bool, q: spec_fn(int) -> bool)
    requires
        forall|i: int| 0 <= i < n && #[trigger] p(i) ==> q(i),
    ensures
        count(n, p) <= count(n, q),
    decreases n,
{
    if n > 0 {
        lemma_count_implied((n - 1) as nat, p, q);
    }
}

pub proof fn lemma_count_all(n: nat, p: spec_fn(int) -> bool)
    requires
        forall|i: int| 0 <= i < n ==> #[trigger] p(i),
    ensures
        count(n, p) == n,
    decreases n,
{
    if n > 0 {
        lemma_count_all((n - 1) as nat, p);
    }
}

pub proof fn lemma_count_none(n: nat, p: spec_fn(int) -> bool)
    requires
        forall|i: int| 0 <= i < n ==> !#[trigger] p(i),
    ensures
        count(n, p) == 0,
    decreases n,
{
    if n > 0 {
        lemma_count_none((n - 1) as nat, p);
    }
}

/// One that has the property counts for one.
pub proof fn lemma_count_without(n: nat, p: spec_fn(int) -> bool, k: int)
    requires
        0 <= k < n,
        p(k),
    ensures
        count(n, p) == count(n, |i: int| p(i) && i != k) + 1,
    decreases n,
{
    let q = |i: int| p(i) && i != k;
    if k == n - 1 {
        lemma_count_same((n - 1) as nat, p, q);
    } else {
        lemma_count_without((n - 1) as nat, p, k);
    }
}

/// Each one has the property or has it not.
pub proof fn lemma_count_complement(n: nat, p: spec_fn(int) -> bool)
    ensures
        count(n, p) + count(n, |i: int| !p(i)) == n,
    decreases n,
{
    if n > 0 {
        lemma_count_complement((n - 1) as nat, p);
    }
}

/// Whether `g` is one to one from `0 .. n` into `0 .. m`.
pub open spec fn one_to_one(n: nat, m: nat, g: spec_fn(int) -> int) -> bool {
    &&& forall|i: int| 0 <= i < n ==> 0 <= #[trigger] g(i) < m
    &&& forall|i: int, j: int|
        0 <= i < n && 0 <= j < n && i != j ==> #[trigger] g(i) != #[trigger] g(j)
}

/// A one-to-one map takes what has a property to as many that have it.
pub proof fn lemma_count_into(n: nat, m: nat, p: spec_fn(int) -> bool, g: spec_fn(int) -> int)
    requires
        one_to_one(n, m, g),
    ensures
        count(n, |i: int| p(g(i))) <= count(m, p),
    decreases n,
{
    if n > 0 {
        let last = g(n - 1);
        let pg = |i: int| p(g(i));
        if p(last) {
            let q = |i: int| p(i) && i != last;
            let qg = |i: int| q(g(i));
            lemma_count_into((n - 1) as nat, m, q, g);
            lemma_count_without(m, p, last);
            assert forall|i: int| 0 <= i < n - 1 implies #[trigger] pg(i) == qg(i) by {
                assert(g(i) != g(n - 1));
            }
            lemma_count_same((n - 1) as nat, pg, qg);
        } else {
            lemma_count_into((n - 1) as nat, m, p, g);
        }
    }
}

/// A permutation of the range keeps every count.
pub proof fn lemma_count_permuted(n: nat, p: spec_fn(int) -> bool, g: spec_fn(int) -> int)
    requires
        one_to_one(n, n, g),
    ensures
        count(n, |i: int| p(g(i))) == count(n, p),
{
    let not = |i: int| !p(i);
    let pg = |i: int| p(g(i));
    lemma_count_into(n, n, p, g);
    lemma_count_into(n, n, not, g);
    lemma_count_complement(n, p);
    lemma_count_complement(n, pg);
    lemma_count_same(n, |i: int| !pg(i), |i: int| not(g(i)));
}

/// What comes in pairs is even in number: `g` gives each one its partner.
pub proof fn lemma_count_paired(n: nat, p: spec_fn(int) -> bool, g: spec_fn(int) -> int)
    requires
        forall|i: int|
            0 <= i < n && #[trigger] p(i) ==> 0 <= g(i) < n && g(i) != i && g(g(i)) == i && p(g(i)),
    ensures
        count(n, p) % 2 == 0,
    decreases n,
{
    if n > 0 {
        if p(n - 1) {
            let partner = g(n - 1);
            let q = |i: int| p(i) && i != partner;
            assert forall|i: int| 0 <= i < n - 1 && #[trigger] q(i) implies 0 <= g(i) < n - 1
                && g(i) != i && g(g(i)) == i && q(g(i)) by {
                assert(p(i));
            }
            lemma_count_paired((n - 1) as nat, q, g);
            lemma_count_without((n - 1) as nat, p, partner);
        } else {
            lemma_count_paired((n - 1) as nat, p, g);
        }
    }
}

// ----- sums -----

/// A count is a sum of ones.
pub proof fn lemma_count_is_sum(n: nat, p: spec_fn(int) -> bool)
    ensures
        count(n, p) == sum(n, |i: int| indicator(p(i))),
    decreases n,
{
    if n > 0 {
        lemma_count_is_sum((n - 1) as nat, p);
    }
}

pub proof fn lemma_sum_same(n: nat, f: spec_fn(int) -> int, g: spec_fn(int) -> int)
    requires
        forall|i: int| 0 <= i < n ==> #[trigger] f(i) == g(i),
    ensures
        sum(n, f) == sum(n, g),
    decreases n,
{
    if n > 0 {
        lemma_sum_same((n - 1) as nat, f, g);
    }
}

pub proof fn lemma_sum_at_most(n: nat, f: spec_fn(int) -> int, c: int)
    requires
        forall|i: int| 0 <= i < n ==> #[trigger] f(i) <= c,
    ensures
        sum(n, f) <= n * c,
    decreases n,
{
    if n > 0 {
        lemma_sum_at_most((n - 1) as nat, f, c);
        assert(n * c == (n - 1) * c + c) by (nonlinear_arith);
    } else {
        assert(n * c == 0) by (nonlinear_arith)
            requires
                n == 0,
        ;
    }
}

pub proof fn lemma_sum_at_least(n: nat, f: spec_fn(int) -> int, c: int)
    requires
        forall|i: int| 0 <= i < n ==> c <= #[trigger] f(i),
    ensures
        n * c <= sum(n, f),
    decreases n,
{
    if n > 0 {
        lemma_sum_at_least((n - 1) as nat, f, c);
        assert(n * c == (n - 1) * c + c) by (nonlinear_arith);
    } else {
        assert(n * c == 0) by (nonlinear_arith)
            requires
                n == 0,
        ;
    }
}

pub proof fn lemma_sum_plus(n: nat, f: spec_fn(int) -> int, g: spec_fn(int) -> int)
    ensures
        sum(n, |i: int| f(i) + g(i)) == sum(n, f) + sum(n, g),
    decreases n,
{
    if n > 0 {
        lemma_sum_plus((n - 1) as nat, f, g);
    }
}

pub proof fn lemma_sum_times(n: nat, f: spec_fn(int) -> int, c: int)
    ensures
        sum(n, |i: int| c * f(i)) == c * sum(n, f),
    decreases n,
{
    if n > 0 {
        lemma_sum_times((n - 1) as nat, f, c);
        let (a, b) = (sum((n - 1) as nat, f), f(n - 1));
        assert(c * (a + b) == c * a + c * b) by (nonlinear_arith);
    } else {
        assert(c * 0 == 0) by (nonlinear_arith);
    }
}

/// The first term apart.
pub proof fn lemma_sum_first(n: nat, f: spec_fn(int) -> int)
    ensures
        sum(n + 1, f) == f(0) + sum(n, |i: int| f(i + 1)),
    decreases n,
{
    let g = |i: int| f(i + 1);
    if n > 0 {
        lemma_sum_first((n - 1) as nat, f);
        assert(sum(n, g) == sum((n - 1) as nat, g) + f(n as int));
    } else {
        assert(sum(1, f) == sum(0, f) + f(0));
    }
}

/// The order of two sums does not matter.
pub proof fn lemma_sum_swap(n: nat, m: nat, f: spec_fn(int, int) -> int)
    ensures
        sum(n, |i: int| sum(m, |j: int| f(i, j))) == sum(m, |j: int| sum(n, |i: int| f(i, j))),
    decreases n,
{
    let rows = |i: int| sum(m, |j: int| f(i, j));
    if n > 0 {
        let k = (n - 1) as nat;
        lemma_sum_swap(k, m, f);
        let upto = |j: int| sum(k, |i: int| f(i, j));
        let last = |j: int| f(n - 1, j);
        lemma_sum_plus(m, upto, last);
        lemma_sum_same(
            m,
            |j: int| sum(n, |i: int| f(i, j)),
            |j: int| upto(j) + last(j),
        );
        assert(rows(n - 1) == sum(m, last));
    } else {
        let zero = |j: int| sum(0, |i: int| f(i, j));
        lemma_sum_at_most(m, zero, 0);
        lemma_sum_at_least(m, zero, 0);
        lemma_sum_same(m, |j: int| sum(n, |i: int| f(i, j)), zero);
    }
}

/// The square of a sum, term by term.
pub proof fn lemma_sum_square(n: nat, f: spec_fn(int) -> int)
    ensures
        sum(n, f) * sum(n, f) == sum(n, |i: int| sum(n, |j: int| f(i) * f(j))),
{
    let s = sum(n, f);
    lemma_sum_times(n, f, s);
    let rows = |i: int| sum(n, |j: int| f(i) * f(j));
    let scaled = |i: int| s * f(i);
    assert forall|i: int| 0 <= i < n implies #[trigger] rows(i) == scaled(i) by {
        lemma_sum_times(n, f, f(i));
        assert(f(i) * s == s * f(i)) by (nonlinear_arith);
    }
    lemma_sum_same(n, rows, scaled);
}

} // verus!
