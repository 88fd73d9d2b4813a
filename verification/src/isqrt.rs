//! Integer square root.
use vstd::prelude::*;

verus! {

/// The integer square root of `n`: the largest `r` with `r * r <= n`.
pub open spec fn spec_isqrt(n: nat) -> nat
    decreases n,
{
    if n == 0 {
        0
    } else {
        let r = spec_isqrt((n - 1) as nat);
        if (r + 1) * (r + 1) <= n {
            r + 1
        } else {
            r
        }
    }
}

/// `spec_isqrt(n)` is the unique `r` with `r² <= n < (r + 1)²`.
pub proof fn lemma_isqrt_bounds(n: nat)
    ensures
        spec_isqrt(n) * spec_isqrt(n) <= n,
        n < (spec_isqrt(n) + 1) * (spec_isqrt(n) + 1),
    decreases n,
{
    if n > 0 {
        lemma_isqrt_bounds((n - 1) as nat);
        let r = spec_isqrt((n - 1) as nat);
        assert(r * r <= n - 1 && n - 1 < (r + 1) * (r + 1));
        if (r + 1) * (r + 1) <= n {
            assert(spec_isqrt(n) == r + 1);
            assert(n < (r + 2) * (r + 2)) by (nonlinear_arith)
                requires
                    n - 1 < (r + 1) * (r + 1),
            ;
            let s = r + 1;
            assert(s + 1 == r + 2);
            assert((s + 1) * (s + 1) == (r + 2) * (r + 2));
            assert(n < (spec_isqrt(n) + 1) * (spec_isqrt(n) + 1));
        } else {
            assert(spec_isqrt(n) == r);
            assert(n < (spec_isqrt(n) + 1) * (spec_isqrt(n) + 1));
        }
    } else {
        assert(n == 0);
        assert(spec_isqrt(n) == 0);
        let z = spec_isqrt(n);
        assert(z * z == 0 && (z + 1) * (z + 1) == 1) by (nonlinear_arith)
            requires
                z == 0,
        ;
    }
}

/// Any `r` with `r² <= n < (r + 1)²` is the integer square root of `n`.
pub proof fn lemma_isqrt_unique(n: nat, r: nat)
    requires
        r * r <= n,
        n < (r + 1) * (r + 1),
    ensures
        r == spec_isqrt(n),
{
    lemma_isqrt_bounds(n);
    let s = spec_isqrt(n);
    if r < s {
        assert((r + 1) * (r + 1) <= s * s) by (nonlinear_arith)
            requires
                r + 1 <= s,
        ;
    } else if s < r {
        assert((s + 1) * (s + 1) <= r * r) by (nonlinear_arith)
            requires
                s + 1 <= r,
        ;
    }
}

/// The integer square root of `n`.
pub fn isqrt(n: usize) -> (r: usize)
    ensures
        r == spec_isqrt(n as nat),
{
    // Binary search for the largest `lo` with `lo * lo <= n`.
    let mut lo: usize = 0;
    let mut hi: usize = if n < 2 {
        n + 1
    } else {
        n / 2 + 1
    };
    proof {
        if n < 2 {
            assert((n + 1) * (n + 1) > n) by (nonlinear_arith);
        }
        if n >= 2 {
            assert((n / 2 + 1) * (n / 2 + 1) > n) by (nonlinear_arith)
                requires
                    n >= 2,
            ;
        }
    }
    while lo + 1 < hi
        invariant
            lo < hi,
            hi <= n / 2 + 2,
            (lo as int) * (lo as int) <= n,
            (hi as int) * (hi as int) > n,
        decreases hi - lo,
    {
        let mid = lo + (hi - lo) / 2;
        let fits = match mid.checked_mul(mid) {
            Some(sq) => sq <= n,
            None => false,
        };
        if fits {
            lo = mid;
        } else {
            hi = mid;
        }
    }
    proof {
        assert(hi == lo + 1);
        lemma_isqrt_unique(n as nat, lo as nat);
    }
    lo
}

} // verus!
