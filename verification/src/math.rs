use vstd::prelude::*;

verus! {

/// The largest value a balance can hold.
pub open spec fn balance_max() -> int {
    0xffff_ffff_ffff_ffff_ffff_ffff_ffff_ffffint
}

/// `r` is the integer square root of `n`: the largest natural number whose square is at most `n`.
pub open spec fn is_isqrt(n: int, r: int) -> bool {
    0 <= r && r * r <= n && n < (r + 1) * (r + 1)
}

/// The integer square root of a natural number.
pub open spec fn isqrt(n: int) -> int {
    choose|r: int| is_isqrt(n, r)
}

/// There is at most one integer square root.
pub proof fn lemma_isqrt_unique(n: int, a: int, b: int)
    requires
        is_isqrt(n, a),
        is_isqrt(n, b),
    ensures
        a == b,
{
    if a < b {
        assert((a + 1) * (a + 1) <= b * b) by (nonlinear_arith)
            requires
                0 <= a,
                a + 1 <= b,
        ;
    } else if b < a {
        assert((b + 1) * (b + 1) <= a * a) by (nonlinear_arith)
            requires
                0 <= b,
                b + 1 <= a,
        ;
    }
}

/// Every natural number has an integer square root.
pub proof fn lemma_isqrt_exists(n: int)
    requires
        0 <= n,
    ensures
        is_isqrt(n, isqrt(n)),
    decreases n,
{
    if n == 0 {
        assert(is_isqrt(0, 0));
    } else {
        lemma_isqrt_exists(n - 1);
        let r = isqrt(n - 1);
        if (r + 1) * (r + 1) <= n {
            assert(n < (r + 2) * (r + 2)) by (nonlinear_arith)
                requires
                    n - 1 < (r + 1) * (r + 1),
                    0 <= r,
            ;
            assert(is_isqrt(n, r + 1));
        } else {
            assert(is_isqrt(n, r));
        }
    }
}

/// The integer square root of `n` is `r` as soon as `r` has the defining property.
pub proof fn lemma_isqrt_is(n: int, r: int)
    requires
        is_isqrt(n, r),
    ensures
        isqrt(n) == r,
{
    lemma_isqrt_unique(n, isqrt(n), r);
}

/// The integer square root is monotonic.
pub proof fn lemma_isqrt_monotonic(n: int, m: int)
    requires
        0 <= n <= m,
    ensures
        isqrt(n) <= isqrt(m),
{
    lemma_isqrt_exists(n);
    lemma_isqrt_exists(m);
    let a = isqrt(n);
    let b = isqrt(m);
    if a > b {
        assert((b + 1) * (b + 1) <= a * a) by (nonlinear_arith)
            requires
                0 <= b,
                b + 1 <= a,
        ;
    }
}

/// Computes the integer square root of `n`.
pub fn integer_sqrt(n: u128) -> (r: u128)
    ensures
        is_isqrt(n as int, r as int),
        r as int == isqrt(n as int),
        r < 0x1_0000_0000_0000_0000,
{
    let mut lo: u128 = 0;
    let mut hi: u128 = 0x1_0000_0000_0000_0000;
    assert(n < hi * hi) by (nonlinear_arith)
        requires
            hi == 0x1_0000_0000_0000_0000u128,
            n <= 0xffff_ffff_ffff_ffff_ffff_ffff_ffff_ffffu128,
    ;
    while hi - lo > 1
        invariant
            lo < hi <= 0x1_0000_0000_0000_0000,
            lo * lo <= n,
            n < hi * hi,
        decreases hi - lo,
    {
        let mid = lo + (hi - lo) / 2;
        assert(mid * mid < 0x1_0000_0000_0000_0000_0000_0000_0000_0000) by (nonlinear_arith)
            requires
                mid < 0x1_0000_0000_0000_0000u128,
        ;
        if mid * mid <= n {
            lo = mid;
        } else {
            hi = mid;
        }
    }
    assert(is_isqrt(n as int, lo as int));
    proof {
        lemma_isqrt_is(n as int, lo as int);
    }
    lo
}

/// The sum of the values of a finite map.
pub open spec fn map_sum(m: Map<u64, int>) -> int
    decreases m.dom().len(),
{
    if m.dom().finite() && m.dom().len() > 0 {
        let k = m.dom().choose();
        m[k] + map_sum(m.remove(k))
    } else {
        0
    }
}

/// Taking any key out of a finite map takes its value out of the sum.
pub proof fn lemma_map_sum_remove(m: Map<u64, int>, k: u64)
    requires
        m.dom().finite(),
        m.contains_key(k),
    ensures
        map_sum(m) == m[k] + map_sum(m.remove(k)),
    decreases m.dom().len(),
{
    let c = m.dom().choose();
    if c != k {
        lemma_map_sum_remove(m.remove(c), k);
        lemma_map_sum_remove(m.remove(k), c);
        assert(m.remove(c).remove(k) =~= m.remove(k).remove(c));
    }
}

/// Setting the value of one key changes the sum by the difference.
pub proof fn lemma_map_sum_insert(m: Map<u64, int>, k: u64, v: int)
    requires
        m.dom().finite(),
    ensures
        map_sum(m.insert(k, v)) == map_sum(m) - (if m.contains_key(k) { m[k] } else { 0 }) + v,
{
    let n = m.insert(k, v);
    lemma_map_sum_remove(n, k);
    if m.contains_key(k) {
        lemma_map_sum_remove(m, k);
        assert(n.remove(k) =~= m.remove(k));
    } else {
        assert(n.remove(k) =~= m);
    }
}

/// The sum of the empty map is zero.
pub proof fn lemma_map_sum_empty()
    ensures
        map_sum(Map::<u64, int>::empty()) == 0,
{
    assert(Map::<u64, int>::empty().dom() =~= Set::empty());
}

/// A sum of non-negative values is at least each of them.
pub proof fn lemma_map_sum_nonneg(m: Map<u64, int>, k: u64)
    requires
        m.dom().finite(),
        forall|j: u64| m.contains_key(j) ==> m[j] >= 0,
    ensures
        map_sum(m) >= 0,
        m.contains_key(k) ==> map_sum(m) >= m[k],
    decreases m.dom().len(),
{
    if m.dom().len() > 0 {
        let c = m.dom().choose();
        lemma_map_sum_nonneg(m.remove(c), k);
        if m.contains_key(k) {
            lemma_map_sum_remove(m, k);
            lemma_map_sum_nonneg(m.remove(k), k);
        }
    } else {
        if m.contains_key(k) {
            assert(m.dom().contains(k));
        }
    }
}

} // verus!
