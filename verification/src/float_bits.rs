//! Conversion of an integer count to the IEEE-754 binary64 bit pattern of the
//! nearest double, carried out on integers.
use vstd::arithmetic::power2::{lemma2_to64, lemma2_to64_rest, lemma_pow2_adds, lemma_pow2_pos, lemma_pow2_unfold, pow2};
use vstd::prelude::*;

verus! {

/// The exponent `e` with `2^e <= n < 2^(e + 1)`, for `n >= 1`.
pub open spec fn floor_log2(n: nat) -> nat
    decreases n,
{
    if n < 2 {
        0
    } else {
        1 + floor_log2(n / 2)
    }
}

/// Bit pattern of the binary64 double nearest to `n`, ties to even: biased
/// exponent `e + 1023` in bits 52..63 and the 52 fraction bits below the
/// leading one.
pub open spec fn f64_bits_of_count(n: u64) -> u64 {
    if n == 0 {
        0
    } else {
        let e = floor_log2(n as nat);
        if e <= 52 {
            ((e + 1023) * pow2(52) + (n * pow2((52 - e) as nat) - pow2(52))) as u64
        } else {
            let s = (e - 52) as nat;
            let q = (n as nat) / pow2(s);
            let r = (n as nat) % pow2(s);
            let half = pow2((s - 1) as nat);
            let q2: nat = if r > half || (r == half && q % 2 == 1) {
                q + 1
            } else {
                q
            };
            if q2 == pow2(53) {
                ((e + 1 + 1023) * pow2(52)) as u64
            } else {
                ((e + 1023) * pow2(52) + (q2 - pow2(52))) as u64
            }
        }
    }
}

proof fn lemma_floor_log2_bounds(n: nat)
    requires
        n >= 1,
    ensures
        pow2(floor_log2(n)) <= n < pow2(floor_log2(n) + 1),
    decreases n,
{
    lemma_pow2_unfold(floor_log2(n) + 1);
    if n >= 2 {
        lemma_floor_log2_bounds(n / 2);
        lemma_pow2_unfold(floor_log2(n));
    } else {
        lemma2_to64();
    }
}

fn pow2_u64(k: u64) -> (p: u64)
    requires
        k < 64,
    ensures
        p == pow2(k as nat),
{
    let mut p: u64 = 1;
    let mut j: u64 = 0;
    proof {
        lemma2_to64();
    }
    while j < k
        invariant
            j <= k < 64,
            p == pow2(j as nat),
        decreases k - j,
    {
        proof {
            lemma2_to64();
            lemma_pow2_unfold((j + 1) as nat);
            lemma_pow2_strictly_increases_to_64((j + 1) as u64);
        }
        p = p * 2;
        j = j + 1;
    }
    p
}

proof fn lemma_pow2_strictly_increases_to_64(j: u64)
    requires
        j < 64,
    ensures
        pow2(j as nat) < pow2(64),
{
    vstd::arithmetic::power2::lemma_pow2_strictly_increases(j as nat, 64);
}

/// The bit pattern of `n as f64`: the double nearest to `n`, ties to even.
pub fn count_to_f64_bits(n: u64) -> (bits: u64)
    ensures
        bits == f64_bits_of_count(n),
{
    if n == 0 {
        return 0;
    }
    let mut m = n;
    let mut e: u64 = 0;
    proof {
        lemma2_to64();
    }
    while m >= 2
        invariant
            1 <= m <= n,
            e + floor_log2(m as nat) == floor_log2(n as nat),
            e <= 64,
            m * pow2(e as nat) <= n,
        decreases m,
    {
        proof {
            lemma_pow2_pos(e as nat);
            lemma_pow2_unfold((e + 1) as nat);
            assert((m / 2) * pow2((e + 1) as nat) <= m * pow2(e as nat)) by (nonlinear_arith)
                requires
                    pow2((e + 1) as nat) == 2 * pow2(e as nat),
                    pow2(e as nat) > 0,
            ;
            lemma_pow2_pos(e as nat);
            lemma_pow2_pos((e + 1) as nat);
            if e + 1 >= 64 {
                assert(pow2(64) <= pow2((e + 1) as nat)) by {
                    if e + 1 > 64 {
                        vstd::arithmetic::power2::lemma_pow2_strictly_increases(64, (e + 1) as nat);
                    }
                }
                lemma2_to64();
                assert(m / 2 >= 1);
                assert((m / 2) * pow2((e + 1) as nat) >= pow2((e + 1) as nat)) by (nonlinear_arith)
                    requires m / 2 >= 1, pow2((e + 1) as nat) > 0;
            }
        }
        m = m / 2;
        e = e + 1;
    }
    proof {
        lemma_floor_log2_bounds(n as nat);
        lemma2_to64();
        lemma2_to64_rest();
        if e >= 64 {
            vstd::arithmetic::power2::lemma_pow2_strictly_increases(63, e as nat);
        }
        assert(e <= 63);
    }
    if e <= 52 {
        let scale = pow2_u64(52 - e);
        proof {
            lemma_pow2_adds((e + 1) as nat, (52 - e) as nat);
            lemma_pow2_adds(e as nat, (52 - e) as nat);
            assert(n * scale < pow2(53)) by (nonlinear_arith)
                requires
                    n < pow2((e + 1) as nat),
                    scale > 0,
                    pow2((e + 1) as nat) * scale == pow2(53),
            ;
            assert(n * scale >= pow2(52)) by (nonlinear_arith)
                requires
                    n >= pow2(e as nat),
                    scale > 0,
                    pow2(e as nat) * scale == pow2(52),
            ;
        }
        let mant = n * scale;
        (e + 1023) * 0x10_0000_0000_0000 + (mant - 0x10_0000_0000_0000)
    } else {
        let s = e - 52;
        let p = pow2_u64(s);
        let q = n / p;
        let r = n % p;
        proof {
            lemma_pow2_unfold(s as nat);
            lemma_pow2_adds(52, s as nat);
            lemma_pow2_adds(53, s as nat);
            assert(q < pow2(53)) by (nonlinear_arith)
                requires
                    n < pow2(53) * p,
                    q == n / p,
                    p > 0,
            ;
            assert(q >= pow2(52)) by (nonlinear_arith)
                requires
                    n >= pow2(52) * p,
                    q == n / p,
                    p > 0,
            ;
        }
        let half = p / 2;
        let q2 = if r > half || (r == half && q % 2 == 1) {
            q + 1
        } else {
            q
        };
        if q2 == 0x20_0000_0000_0000 {
            (e + 1 + 1023) * 0x10_0000_0000_0000
        } else {
            (e + 1023) * 0x10_0000_0000_0000 + (q2 - 0x10_0000_0000_0000)
        }
    }
}

/// The bit pattern stands for a NaN: all exponent bits set and a non-zero fraction.
pub open spec fn is_nan_bits(w: u64) -> bool {
    w % 0x8000_0000_0000_0000 > 0x7FF0_0000_0000_0000
}

/// The doubles with bit patterns `a` and `b` compare equal: neither is a NaN,
/// and they are the same value (`+0.0` equals `-0.0`).
pub open spec fn f64_bits_eq(a: u64, b: u64) -> bool {
    !is_nan_bits(a) && !is_nan_bits(b) && (a == b || (a % 0x8000_0000_0000_0000 == 0 && b
        % 0x8000_0000_0000_0000 == 0))
}

/// Whether the doubles with bit patterns `a` and `b` compare equal.
pub fn f64_bits_equal(a: u64, b: u64) -> (r: bool)
    ensures
        r == f64_bits_eq(a, b),
{
    let ma = a % 0x8000_0000_0000_0000;
    let mb = b % 0x8000_0000_0000_0000;
    ma <= 0x7FF0_0000_0000_0000 && mb <= 0x7FF0_0000_0000_0000 && (a == b || (ma == 0 && mb == 0))
}

} // verus!
