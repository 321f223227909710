//! Floor division of integers.

use vstd::prelude::*;
use vstd::arithmetic::div_mod::{lemma_fundamental_div_mod, lemma_fundamental_div_mod_converse};

verus! {


/// The mathematical floor of `a / b`.
pub open spec fn floor_div(a: int, b: int) -> int {
    if b > 0 { a / b } else { (-a) / (-b) }
}

/// Truncating division by a positive divisor, as Rust computes it, relates to the floor.
proof fn lemma_floor_from_trunc(a: int, b: int)
    requires b > 0,
    ensures
        ({
            let q = if a >= 0 { a / b } else { -((-a) / b) };
            let r = if a >= 0 { a % b } else { -((-a) % b) };
            &&& r < 0 ==> a / b == q - 1
            &&& r >= 0 ==> a / b == q
            &&& (a >= 0 ==> 0 <= a / b <= a)
            &&& (a < 0 ==> a <= a / b < 0)
        }),
{
    let n = if a >= 0 { a } else { -a };
    lemma_fundamental_div_mod(n, b);
    vstd::arithmetic::div_mod::lemma_mod_bound(n, b);
    let k = n / b;
    let m = n % b;
    assert(n == k * b + m) by (nonlinear_arith) requires n == b * (n / b) + n % b, k == n / b, m == n % b;
    assert(0 <= k <= n) by (nonlinear_arith) requires n == k * b + m, 0 <= m < b, b >= 1, n >= 0;
    assert(m != 0 ==> k + 1 <= n) by (nonlinear_arith) requires n == k * b + m, 0 <= m < b, b >= 1, n >= 0;
    if a < 0 {
        if m != 0 {
            assert(a == (-k - 1) * b + (b - m)) by (nonlinear_arith) requires n == -a, n == k * b + m;
            lemma_fundamental_div_mod_converse(a, b, -k - 1, b - m);
        } else {
            assert(a == (-k) * b + 0) by (nonlinear_arith) requires n == -a, n == k * b + m, m == 0;
            lemma_fundamental_div_mod_converse(a, b, -k, 0);
        }
    }
}

/// Floor division (rounds toward negative infinity), for any nonzero divisor.
pub fn div_floor(a: i64, b: i64) -> (q: i64)
    requires
        b != 0,
        !(a == i64::MIN && b == -1),
    ensures
        q == floor_div(a as int, b as int),
{
    if b > 0 {
        let q = a / b;
        let r = a % b;
        proof { lemma_floor_from_trunc(a as int, b as int); }
        if r < 0 {
            q - 1
        } else {
            q
        }
    } else {
        // floor(a / b) == floor((-a) / (-b)); widen so that negation cannot overflow.
        let na: i128 = -(a as i128);
        let nb: i128 = -(b as i128);
        let q = na / nb;
        let r = na % nb;
        proof { lemma_floor_from_trunc(na as int, nb as int); }
        let f: i128 = if r < 0 { q - 1 } else { q };
        assert(i64::MIN <= f <= i64::MAX) by {
            if na == 9223372036854775808 {
                assert(nb >= 2);
                assert(na / nb <= na / 2) by {
                    vstd::arithmetic::div_mod::lemma_div_is_ordered_by_denominator(na as int, 2, nb as int);
                }
            }
        }
        f as i64
    }
}

} // verus!
