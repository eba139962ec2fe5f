//! Finite sums over index ranges and over sequences, with the algebra the
//! equity proofs rest on.

use vstd::prelude::*;

verus! {

/// The sum of `f(i)` over `0 <= i < n`.
pub open spec fn index_sum(n: int, f: spec_fn(int) -> int) -> int
    decreases n,
{
    if n <= 0 {
        0
    } else {
        index_sum(n - 1, f) + f(n - 1)
    }
}

/// The sum of `f(x)` over the elements `x` of `s`, with multiplicity.
pub open spec fn seq_sum<T>(s: Seq<T>, f: spec_fn(T) -> int) -> int
    decreases s.len(),
{
    if s.len() == 0 {
        0
    } else {
        seq_sum(s.drop_last(), f) + f(s.last())
    }
}

/// Sums of terms that agree on the range agree.
pub proof fn lemma_index_sum_equal(n: int, f: spec_fn(int) -> int, g: spec_fn(int) -> int)
    requires
        forall|i: int| 0 <= i < n ==> #[trigger] f(i) == g(i),
    ensures
        index_sum(n, f) == index_sum(n, g),
    decreases n,
{
    if n > 0 {
        lemma_index_sum_equal(n - 1, f, g);
    }
}

/// The sum of a termwise sum is the sum of the sums.
pub proof fn lemma_index_sum_add(
    n: int,
    f: spec_fn(int) -> int,
    g: spec_fn(int) -> int,
    h: spec_fn(int) -> int,
)
    requires
        forall|i: int| 0 <= i < n ==> #[trigger] h(i) == f(i) + g(i),
    ensures
        index_sum(n, h) == index_sum(n, f) + index_sum(n, g),
    decreases n,
{
    if n > 0 {
        lemma_index_sum_add(n - 1, f, g, h);
    }
}

/// The sum of a termwise sum of three terms is the sum of the three sums.
pub proof fn lemma_index_sum_add3(
    n: int,
    a: spec_fn(int) -> int,
    b: spec_fn(int) -> int,
    c: spec_fn(int) -> int,
    total: spec_fn(int) -> int,
)
    requires
        forall|i: int| 0 <= i < n ==> #[trigger] total(i) == a(i) + b(i) + c(i),
    ensures
        index_sum(n, total) == index_sum(n, a) + index_sum(n, b) + index_sum(n, c),
    decreases n,
{
    if n > 0 {
        lemma_index_sum_add3(n - 1, a, b, c, total);
    }
}

/// The sum of a termwise sum of four terms is the sum of the four sums.
pub proof fn lemma_index_sum_add4(
    n: int,
    a: spec_fn(int) -> int,
    b: spec_fn(int) -> int,
    c: spec_fn(int) -> int,
    d: spec_fn(int) -> int,
    total: spec_fn(int) -> int,
)
    requires
        forall|i: int| 0 <= i < n ==> #[trigger] total(i) == a(i) + b(i) + c(i) + d(i),
    ensures
        index_sum(n, total) == index_sum(n, a) + index_sum(n, b) + index_sum(n, c) + index_sum(
            n,
            d,
        ),
    decreases n,
{
    if n > 0 {
        lemma_index_sum_add4(n - 1, a, b, c, d, total);
    }
}

/// A sum of terms between `lo` and `hi` lies between `n * lo` and `n * hi`.
pub proof fn lemma_index_sum_bounds(n: int, f: spec_fn(int) -> int, lo: int, hi: int)
    requires
        0 <= n,
        forall|i: int| 0 <= i < n ==> lo <= #[trigger] f(i) <= hi,
    ensures
        n * lo <= index_sum(n, f) <= n * hi,
    decreases n,
{
    if n > 0 {
        lemma_index_sum_bounds(n - 1, f, lo, hi);
        assert((n - 1) * lo + lo == n * lo) by (nonlinear_arith);
        assert((n - 1) * hi + hi == n * hi) by (nonlinear_arith);
    } else {
        assert(n * lo == 0 && n * hi == 0) by (nonlinear_arith)
            requires
                n == 0,
        ;
    }
}

/// A sum whose terms vanish away from `k` is the term at `k`.
pub proof fn lemma_index_sum_single(n: int, f: spec_fn(int) -> int, k: int)
    requires
        0 <= k < n,
        forall|i: int| 0 <= i < n && i != k ==> #[trigger] f(i) == 0,
    ensures
        index_sum(n, f) == f(k),
    decreases n,
{
    if n - 1 == k {
        lemma_index_sum_bounds(n - 1, f, 0, 0);
    } else {
        lemma_index_sum_single(n - 1, f, k);
    }
}

/// Sums of terms that agree on the elements agree.
pub proof fn lemma_seq_sum_equal<T>(s: Seq<T>, f: spec_fn(T) -> int, g: spec_fn(T) -> int)
    requires
        forall|i: int| 0 <= i < s.len() ==> #[trigger] f(s[i]) == g(s[i]),
    ensures
        seq_sum(s, f) == seq_sum(s, g),
    decreases s.len(),
{
    if s.len() > 0 {
        lemma_seq_sum_equal(s.drop_last(), f, g);
    }
}

/// A sum over elements whose terms lie between `lo` and `hi` lies between
/// `len * lo` and `len * hi`.
pub proof fn lemma_seq_sum_bounds<T>(s: Seq<T>, f: spec_fn(T) -> int, lo: int, hi: int)
    requires
        forall|i: int| 0 <= i < s.len() ==> lo <= #[trigger] f(s[i]) <= hi,
    ensures
        s.len() * lo <= seq_sum(s, f) <= s.len() * hi,
    decreases s.len(),
{
    let n = s.len() as int;
    if n > 0 {
        lemma_seq_sum_bounds(s.drop_last(), f, lo, hi);
        assert((n - 1) * lo + lo == n * lo) by (nonlinear_arith);
        assert((n - 1) * hi + hi == n * hi) by (nonlinear_arith);
    } else {
        assert(n * lo == 0 && n * hi == 0) by (nonlinear_arith)
            requires
                n == 0,
        ;
    }
}

/// Taking one element out of a sequence takes its term out of the sum.
pub proof fn lemma_seq_sum_remove<T>(s: Seq<T>, i: int, f: spec_fn(T) -> int)
    requires
        0 <= i < s.len(),
    ensures
        seq_sum(s, f) == seq_sum(s.remove(i), f) + f(s[i]),
    decreases s.len(),
{
    if i == s.len() - 1 {
        assert(s.remove(i) =~= s.drop_last());
    } else {
        lemma_seq_sum_remove(s.drop_last(), i, f);
        assert(s.remove(i).drop_last() =~= s.drop_last().remove(i));
        assert(s.remove(i).last() == s.last());
    }
}

/// A sum over a sequence does not depend on the order of its elements.
pub proof fn lemma_seq_sum_permutation<T>(a: Seq<T>, b: Seq<T>, f: spec_fn(T) -> int)
    requires
        a.to_multiset() == b.to_multiset(),
    ensures
        seq_sum(a, f) == seq_sum(b, f),
    decreases a.len(),
{
    broadcast use vstd::seq_lib::group_to_multiset_ensures;

    if a.len() == 0 {
        assert(b.to_multiset().len() == 0);
        assert(b.len() == 0);
    } else {
        let x = a.last();
        assert(a.to_multiset().count(x) > 0);
        assert(b.contains(x));
        let i = b.index_of(x);
        assert(a.drop_last() =~= a.remove(a.len() - 1));
        assert(a.drop_last().to_multiset() == b.remove(i).to_multiset());
        lemma_seq_sum_permutation(a.drop_last(), b.remove(i), f);
        lemma_seq_sum_remove(b, i, f);
    }
}

/// The sum of `f` over the first `n` elements is the sum over all elements of
/// a term `g` that agrees with `f` on those and vanishes on the rest.
pub proof fn lemma_seq_sum_take<T>(s: Seq<T>, n: int, f: spec_fn(T) -> int, g: spec_fn(T) -> int)
    requires
        0 <= n <= s.len(),
        forall|i: int| 0 <= i < n ==> #[trigger] g(s[i]) == f(s[i]),
        forall|i: int| n <= i < s.len() ==> #[trigger] g(s[i]) == 0,
    ensures
        seq_sum(s.take(n), f) == seq_sum(s, g),
    decreases s.len(),
{
    if s.len() == 0 {
        assert(s.take(n) =~= s);
    } else if n == s.len() {
        assert(s.take(n) =~= s);
        lemma_seq_sum_equal(s, f, g);
    } else {
        assert(s.drop_last().take(n) =~= s.take(n));
        lemma_seq_sum_take(s.drop_last(), n, f, g);
    }
}

/// Appending an element appends its term.
pub proof fn lemma_seq_sum_push<T>(s: Seq<T>, x: T, f: spec_fn(T) -> int)
    ensures
        seq_sum(s.push(x), f) == seq_sum(s, f) + f(x),
{
    assert(s.push(x).drop_last() =~= s);
}

/// A sum over a sequence whose elements stand, one for one, for the indices
/// below `n` that are members is the sum over those indices.
pub proof fn lemma_seq_sum_by_index<T>(
    s: Seq<T>,
    key: spec_fn(T) -> int,
    g: spec_fn(T) -> int,
    f: spec_fn(int) -> int,
    member: spec_fn(int) -> bool,
    picked: spec_fn(int) -> int,
    n: int,
)
    requires
        forall|k: int| 0 <= k < s.len() ==> 0 <= #[trigger] key(s[k]) < n && member(key(s[k])),
        forall|k: int| 0 <= k < s.len() ==> #[trigger] g(s[k]) == f(key(s[k])),
        forall|i: int, j: int| 0 <= i < j < s.len() ==> #[trigger] key(s[i]) != #[trigger] key(s[j]),
        forall|i: int|
            0 <= i < n && #[trigger] member(i) ==> exists|k: int|
                0 <= k < s.len() && #[trigger] key(s[k]) == i,
        forall|i: int| 0 <= i < n ==> #[trigger] picked(i) == (if member(i) { f(i) } else { 0 }),
    ensures
        seq_sum(s, g) == index_sum(n, picked),
    decreases n,
{
    if n <= 0 {
        if s.len() > 0 {
            assert(0 <= key(s[0]) < n);
        }
    } else if member(n - 1) {
        let k = choose|k: int| 0 <= k < s.len() && #[trigger] key(s[k]) == n - 1;
        let rest = s.remove(k);
        lemma_seq_sum_remove(s, k, g);
        assert forall|j: int| 0 <= j < rest.len() implies 0 <= #[trigger] key(rest[j]) < n - 1
            && member(key(rest[j])) && g(rest[j]) == f(key(rest[j])) by {
            let from = if j < k { j } else { j + 1 };
            assert(rest[j] == s[from]);
            assert(key(s[from]) != key(s[k]));
        }
        assert forall|i: int, j: int| 0 <= i < j < rest.len() implies #[trigger] key(rest[i])
            != #[trigger] key(rest[j]) by {
            let from_i = if i < k { i } else { i + 1 };
            let from_j = if j < k { j } else { j + 1 };
            assert(rest[i] == s[from_i] && rest[j] == s[from_j]);
        }
        assert forall|i: int| 0 <= i < n - 1 && #[trigger] member(i) implies exists|j: int|
            0 <= j < rest.len() && #[trigger] key(rest[j]) == i by {
            let at = choose|at: int| 0 <= at < s.len() && #[trigger] key(s[at]) == i;
            let j = if at < k { at } else { at - 1 };
            assert(rest[j] == s[at]);
        }
        lemma_seq_sum_by_index(rest, key, g, f, member, picked, n - 1);
    } else {
        assert forall|k: int| 0 <= k < s.len() implies 0 <= #[trigger] key(s[k]) < n - 1 by {
            assert(member(key(s[k])));
        }
        lemma_seq_sum_by_index(s, key, g, f, member, picked, n - 1);
    }
}

/// Row `i` of a table of terms.
pub open spec fn row(f: spec_fn(int, int) -> int, i: int) -> spec_fn(int) -> int {
    |j: int| f(i, j)
}

/// Column `j` of a table of terms.
pub open spec fn column(f: spec_fn(int, int) -> int, j: int) -> spec_fn(int) -> int {
    |i: int| f(i, j)
}

/// The sums of the first `m` terms of each row.
pub open spec fn row_sums(m: int, f: spec_fn(int, int) -> int) -> spec_fn(int) -> int {
    |i: int| index_sum(m, row(f, i))
}

/// The sums of the first `n` terms of each column.
pub open spec fn column_sums(n: int, f: spec_fn(int, int) -> int) -> spec_fn(int) -> int {
    |j: int| index_sum(n, column(f, j))
}

/// Adding up a table by rows or by columns gives the same.
pub proof fn lemma_index_sum_swap(n: int, m: int, f: spec_fn(int, int) -> int)
    ensures
        index_sum(n, row_sums(m, f)) == index_sum(m, column_sums(n, f)),
    decreases n,
{
    if n <= 0 {
        if m > 0 {
            lemma_index_sum_bounds(m, column_sums(n, f), 0, 0);
        }
    } else {
        lemma_index_sum_swap(n - 1, m, f);
        lemma_index_sum_add(m, column_sums(n - 1, f), row(f, n - 1), column_sums(n, f));
    }
}

} // verus!
