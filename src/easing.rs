use vstd::prelude::*;

use crate::units::ONE;

verus! {

/// Common denominator of the bounce-out coefficients (2^4 · 5^2 · 19^2):
/// bounce-out at `n / d` is `bounce_out_scaled(n, d) / (BOUNCE_SCALE · d²)`.
pub const BOUNCE_SCALE: u64 = 144400;

/// First piece, on [0, 4/11): 121/16 · t².
pub open spec fn bounce_first(n: int, d: int) -> int {
    1092025 * n * n
}

/// Second piece, on [4/11, 8/11): 363/40 · t² − 99/10 · t + 17/5.
pub open spec fn bounce_second(n: int, d: int) -> int {
    1310430 * n * n - 1429560 * n * d + 490960 * d * d
}

/// Third piece, on [8/11, 9/10): 4356/361 · t² − 35442/1805 · t + 16061/1805.
pub open spec fn bounce_third(n: int, d: int) -> int {
    1742400 * n * n - 2835360 * n * d + 1284880 * d * d
}

/// Fourth piece, on [9/10, 1]: 54/5 · t² − 513/25 · t + 268/25.
pub open spec fn bounce_fourth(n: int, d: int) -> int {
    1559520 * n * n - 2963088 * n * d + 1547968 * d * d
}

/// The bounce-out curve at `t = n / d`, multiplied by `BOUNCE_SCALE · d²`.
pub open spec fn bounce_out_scaled(n: int, d: int) -> int {
    if 11 * n < 4 * d {
        bounce_first(n, d)
    } else if 11 * n < 8 * d {
        bounce_second(n, d)
    } else if 10 * n < 9 * d {
        bounce_third(n, d)
    } else {
        bounce_fourth(n, d)
    }
}

/// Bounce-out in millionths at progress `p` millionths, rounded down.
pub open spec fn bounce_out_spec(p: int) -> int {
    bounce_out_scaled(p, ONE as int) / (BOUNCE_SCALE * ONE) as int
}

/// On [0, 1] the curve stays within [0, 1].
pub proof fn lemma_bounce_out_range(n: int, d: int)
    requires
        0 <= n <= d,
        0 < d,
    ensures
        0 <= bounce_out_scaled(n, d) <= BOUNCE_SCALE * d * d,
{
    let s = BOUNCE_SCALE as int;
    assert(s * d * d == 144400 * (d * d)) by (nonlinear_arith)
        requires
            s == 144400,
    ;
    assert(d * d >= 0) by (nonlinear_arith);
    if 11 * n < 4 * d {
        assert(0 <= bounce_first(n, d) <= s * d * d) by (nonlinear_arith)
            requires
                0 <= 11 * n <= 4 * d,
                s == 144400,
        {
            assert(121 * (n * n) <= 16 * (d * d)) by (nonlinear_arith)
                requires
                    0 <= 11 * n <= 4 * d,
            ;
            assert(0 <= n * n) by (nonlinear_arith);
        }
    } else if 11 * n < 8 * d {
        let a = 11 * n - 4 * d;
        let c = 8 * d - 11 * n;
        assert(121 * (bounce_second(n, d) - s * d * d) == -1310430 * (a * c)) by (nonlinear_arith)
            requires
                a == 11 * n - 4 * d,
                c == 8 * d - 11 * n,
                s == 144400,
        ;
        assert(0 <= a * c) by (nonlinear_arith)
            requires
                0 <= a,
                0 <= c,
        ;
        assert(a * c <= 4 * (d * d)) by (nonlinear_arith)
            requires
                a + c == 4 * d,
        {
            assert((a - c) * (a - c) >= 0);
        }
    } else if 10 * n < 9 * d {
        let a = 11 * n - 8 * d;
        let c = 9 * d - 10 * n;
        assert(bounce_third(n, d) - s * d * d == -15840 * (a * c)) by (nonlinear_arith)
            requires
                a == 11 * n - 8 * d,
                c == 9 * d - 10 * n,
                s == 144400,
        ;
        assert(0 <= a * c <= 4 * (d * d)) by (nonlinear_arith)
            requires
                0 <= a <= 2 * d,
                0 <= c <= 2 * d,
        ;
    } else {
        let a = 10 * n - 9 * d;
        let c = d - n;
        assert(bounce_fourth(n, d) - s * d * d == -155952 * (a * c)) by (nonlinear_arith)
            requires
                a == 10 * n - 9 * d,
                c == d - n,
                s == 144400,
        ;
        assert(0 <= 10 * (a * c) <= d * d) by (nonlinear_arith)
            requires
                0 <= a <= d,
                0 <= 10 * c <= d,
        ;
    }
}

/// Bounce-out starts at zero and ends at one, and at each breakpoint
/// (4/11, 8/11, 9/10) the piece to its left and the piece to its right
/// take the same value, so the curve has no jump.
pub proof fn lemma_bounce_out_ends_and_continuity(n: int, d: int)
    requires
        0 < d,
    ensures
        bounce_out_scaled(0, d) == 0,
        bounce_out_scaled(d, d) == BOUNCE_SCALE * d * d,
        11 * n == 4 * d ==> bounce_first(n, d) == bounce_second(n, d),
        11 * n == 8 * d ==> bounce_second(n, d) == bounce_third(n, d),
        10 * n == 9 * d ==> bounce_third(n, d) == bounce_fourth(n, d),
{
    assert(bounce_fourth(d, d) == 144400 * d * d) by (nonlinear_arith);
    if 11 * n == 4 * d {
        assert(bounce_first(n, d) == bounce_second(n, d)) by (nonlinear_arith)
            requires
                11 * n == 4 * d,
        {
            assert(16 * (d * d) == 121 * (n * n)) by (nonlinear_arith)
                requires
                    11 * n == 4 * d,
            ;
            assert(16 * (n * d) == 44 * (n * n)) by (nonlinear_arith)
                requires
                    11 * n == 4 * d,
            ;
        }
    }
    if 11 * n == 8 * d {
        assert(bounce_second(n, d) == bounce_third(n, d)) by (nonlinear_arith)
            requires
                11 * n == 8 * d,
        {
            assert(64 * (d * d) == 121 * (n * n)) by (nonlinear_arith)
                requires
                    11 * n == 8 * d,
            ;
            assert(8 * (n * d) == 11 * (n * n)) by (nonlinear_arith)
                requires
                    11 * n == 8 * d,
            ;
        }
    }
    if 10 * n == 9 * d {
        assert(bounce_third(n, d) == bounce_fourth(n, d)) by (nonlinear_arith)
            requires
                10 * n == 9 * d,
        {
            assert(81 * (d * d) == 100 * (n * n)) by (nonlinear_arith)
                requires
                    10 * n == 9 * d,
            ;
            assert(9 * (n * d) == 10 * (n * n)) by (nonlinear_arith)
                requires
                    10 * n == 9 * d,
            ;
        }
    }
}

/// Bounce-out easing: progress `p` in millionths to the eased value in
/// millionths, rounded down.
pub fn bounce_out(p: u64) -> (r: u64)
    requires
        p <= ONE,
    ensures
        r as int == bounce_out_spec(p as int),
        r <= ONE,
{
    let n: i128 = p as i128;
    let d: i128 = ONE as i128;
    proof {
        assert(0 <= n * n <= 1_000_000_000_000) by (nonlinear_arith)
            requires
                0 <= n <= 1_000_000,
        ;
        assert(0 <= n * d <= 1_000_000_000_000) by (nonlinear_arith)
            requires
                0 <= n <= 1_000_000,
                d == 1_000_000,
        ;
    }
    let nn: i128 = n * n;
    let nd: i128 = n * d;
    let dd: i128 = d * d;
    let num: i128 = if 11 * n < 4 * d {
        1092025 * nn
    } else if 11 * n < 8 * d {
        1310430 * nn - 1429560 * nd + 490960 * dd
    } else if 10 * n < 9 * d {
        1742400 * nn - 2835360 * nd + 1284880 * dd
    } else {
        1559520 * nn - 2963088 * nd + 1547968 * dd
    };
    proof {
        lemma_bounce_out_range(n as int, d as int);
        assert(num == bounce_out_scaled(n as int, d as int)) by (nonlinear_arith)
            requires
                nn == n * n,
                nd == n * d,
                dd == d * d,
                num == (if 11 * n < 4 * d {
                    1092025 * nn
                } else if 11 * n < 8 * d {
                    1310430 * nn - 1429560 * nd + 490960 * dd
                } else if 10 * n < 9 * d {
                    1742400 * nn - 2835360 * nd + 1284880 * dd
                } else {
                    1559520 * nn - 2963088 * nd + 1547968 * dd
                }),
        ;
        vstd::arithmetic::div_mod::lemma_div_is_ordered(
            num as int,
            (BOUNCE_SCALE * ONE * ONE) as int,
            (BOUNCE_SCALE * ONE) as int,
        );
        vstd::arithmetic::div_mod::lemma_div_by_multiple(ONE as int, (BOUNCE_SCALE * ONE) as int);
    }
    let den: i128 = 144400 * 1_000_000;
    (num / den) as u64
}

} // verus!
