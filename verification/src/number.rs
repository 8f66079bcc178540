//! Conversion of chasm number literals to 32-bit IEEE-754 bit patterns.
//!
//! The verifier does not work with floating-point values, so the
//! compiler carries every numeric constant as the `u32` bit pattern of
//! the 32-bit IEEE-754 value it denotes, computed here with integer
//! arithmetic only.  The procedure rounds to nearest, ties to even:
//! the literal is reduced to a sign, at most nineteen significant
//! decimal digits and a decimal exponent, scaled into a wide binary
//! fixed-point quotient (one or two exact divisions by powers of five,
//! with every discarded remainder folded into a sticky bit), and the
//! quotient is rounded to the 24-bit mantissa.  Values beyond the
//! finite range become infinities, tiny values become subnormals or
//! zero.  The spec functions in this file are the authoritative
//! definition of that procedure; `number_bits` is proved to compute it.
//!
//! A literal is malformed when it has no digits at all, more than one
//! dot, or an exponent part that is not `e`/`E`, an optional `-`, and
//! exactly two digits ending the literal.

use vstd::arithmetic::div_mod::{
    lemma_basic_div, lemma_div_is_ordered, lemma_div_is_ordered_by_denominator,
    lemma_div_multiples_vanish, lemma_small_mod,
};
use vstd::arithmetic::mul::{lemma_mul_inequality, lemma_mul_strict_inequality};
use vstd::arithmetic::power::{
    lemma_pow_adds, lemma_pow_distributes, lemma_pow_increases, lemma_pow_positive, lemma_pow0,
    lemma_pow1, pow,
};
use vstd::arithmetic::power2::{
    lemma2_to64, lemma2_to64_rest, lemma_pow2_adds, lemma_pow2_pos, pow2,
};
use vstd::prelude::*;

use crate::lexer::{is_digit, is_num_byte, num_run};
use crate::lexer::{is_digit_exec, is_num_byte_exec, scan_num_bytes};

verus! {

/// Concrete bounds on the powers this module computes with.
proof fn lemma_num_constants()
    ensures
        pow(5, 43) < pow2(101),
        pow(5, 39) < pow2(91),
        pow(10, 19) < pow2(64),
        pow2(101) < pow2(128),
        pow2(91) < pow2(128),
        pow2(128) == 0x100000000000000000000000000000000,
{
    lemma2_to64();
    lemma2_to64_rest();
    assert(pow2(128) == 0x100000000000000000000000000000000) by {
        lemma_pow2_adds(64, 64);
    }
    assert(pow2(101) == 0x20000000000000000000000000) by {
        lemma_pow2_adds(64, 37);
    }
    assert(pow2(91) == 0x80000000000000000000000) by {
        lemma_pow2_adds(64, 27);
    }
    assert(pow(5, 1) == 5) by {
        lemma_pow1(5);
    }
    assert(pow(5, 2) == 25) by {
        lemma_pow_adds(5, 1, 1);
    }
    assert(pow(5, 4) == 625) by {
        lemma_pow_adds(5, 2, 2);
    }
    assert(pow(5, 8) == 390625) by {
        lemma_pow_adds(5, 4, 4);
    }
    assert(pow(5, 16) == 152587890625) by {
        lemma_pow_adds(5, 8, 8);
    }
    assert(pow(5, 32) == 23283064365386962890625) by {
        lemma_pow_adds(5, 16, 16);
    }
    assert(pow(5, 36) == 14551915228366851806640625) by {
        lemma_pow_adds(5, 32, 4);
    }
    assert(pow(5, 38) == 363797880709171295166015625) by {
        lemma_pow_adds(5, 36, 2);
    }
    assert(pow(5, 39) == 1818989403545856475830078125) by {
        lemma_pow_adds(5, 38, 1);
    }
    assert(pow(5, 41) == 45474735088646411895751953125) by {
        lemma_pow_adds(5, 39, 2);
    }
    assert(pow(5, 43) == 1136868377216160297393798828125) by {
        lemma_pow_adds(5, 41, 2);
    }
    assert(pow(10, 1) == 10) by {
        lemma_pow1(10);
    }
    assert(pow(10, 2) == 100) by {
        lemma_pow_adds(10, 1, 1);
    }
    assert(pow(10, 4) == 10000) by {
        lemma_pow_adds(10, 2, 2);
    }
    assert(pow(10, 8) == 100000000) by {
        lemma_pow_adds(10, 4, 4);
    }
    assert(pow(10, 16) == 10000000000000000) by {
        lemma_pow_adds(10, 8, 8);
    }
    assert(pow(10, 18) == 1000000000000000000) by {
        lemma_pow_adds(10, 16, 2);
    }
    assert(pow(10, 19) == 10000000000000000000) by {
        lemma_pow_adds(10, 18, 1);
    }
}

/// Number of binary digits of `n` (zero for zero).
pub open spec fn bitlen(n: nat) -> nat
    decreases n,
{
    if n == 0 {
        0
    } else {
        1 + bitlen(n / 2)
    }
}

/// `n` lies between the powers of two its bit length names.
pub proof fn lemma_bitlen_bounds(n: nat)
    ensures
        n < pow2(bitlen(n)),
        n >= 1 ==> pow2((bitlen(n) - 1) as nat) <= n,
    decreases n,
{
    lemma2_to64();
    if n > 0 {
        lemma_bitlen_bounds(n / 2);
        lemma_pow2_pos((bitlen(n) - 1) as nat);
        assert(pow2(bitlen(n)) == 2 * pow2((bitlen(n) - 1) as nat)) by {
            lemma_pow2_adds(1, (bitlen(n) - 1) as nat);
            lemma2_to64();
        }
        if n / 2 >= 1 {
            lemma_pow2_adds(1, (bitlen(n / 2) - 1) as nat);
            lemma2_to64();
        }
    }
}

/// Bit lengths never exceed the bit length of an upper bound's power.
pub proof fn lemma_bitlen_le(n: nat, k: nat)
    requires
        n < pow2(k),
    ensures
        bitlen(n) <= k,
    decreases n,
{
    if n > 0 {
        assert(pow2(k) > 1);
        if k == 0 {
            lemma2_to64();
        }
        assert(k >= 1);
        assert(pow2(k) == 2 * pow2((k - 1) as nat)) by {
            lemma_pow2_adds(1, (k - 1) as nat);
            lemma2_to64();
        }
        lemma_bitlen_le(n / 2, (k - 1) as nat);
    }
}

/// The positive-infinity or negative-infinity bit pattern.
pub open spec fn inf_bits(neg: bool) -> u32 {
    if neg {
        0xFF800000u32
    } else {
        0x7F800000u32
    }
}

/// The positive-zero or negative-zero bit pattern.
pub open spec fn zero_bits(neg: bool) -> u32 {
    if neg {
        0x80000000u32
    } else {
        0u32
    }
}

/// Round the exact value `n * 2^e2` (plus, when `sticky` is set, a
/// positive dust term smaller than every bit retained below) to the
/// nearest 32-bit IEEE-754 value, ties to even.
pub open spec fn round_spec(n: nat, e2: int, sticky: bool, neg: bool) -> u32 {
    let bl = bitlen(n) as int;
    let e = bl - 1 + e2;
    if e > 127 {
        inf_bits(neg)
    } else {
        let s = if e >= -126 {
            bl - 24
        } else {
            -149 - e2
        };
        let q = if s <= 0 {
            n * pow2((-s) as nat)
        } else {
            n / pow2(s as nat)
        };
        let rbit = s >= 1 && (n / pow2((s - 1) as nat)) % 2 == 1;
        let stk = sticky || (s >= 1 && n % pow2((s - 1) as nat) != 0);
        let q1 = if rbit && (stk || q % 2 == 1) {
            q + 1
        } else {
            q
        };
        let sign: int = if neg {
            0x80000000
        } else {
            0
        };
        if e < -126 {
            (sign + q1) as u32
        } else {
            (sign + (e + 127) * 0x800000 + (q1 - 0x800000)) as u32
        }
    }
}

/// Scale `m` up to 127 bits and divide it by `5^j`, in one stage for
/// small `j` and two balanced stages otherwise; return the quotient,
/// the binary scaling applied, and the sticky bit with every nonzero
/// remainder folded in.
pub open spec fn div_stages(m: nat, j: nat, st0: bool) -> (nat, int, bool) {
    let j1 = if j <= 43 {
        j
    } else {
        (j + 1) / 2
    };
    let j2 = (j - j1) as nat;
    let t1 = (127 - bitlen(m)) as nat;
    let n1 = m * pow2(t1);
    let d1 = pow(5, j1) as nat;
    let q1 = n1 / d1;
    let st1 = st0 || n1 % d1 != 0;
    if j2 == 0 {
        (q1, -(t1 as int), st1)
    } else {
        let t2 = (127 - bitlen(q1)) as nat;
        let n2 = q1 * pow2(t2);
        let d2 = pow(5, j2) as nat;
        (n2 / d2, -(t1 as int) - (t2 as int), st1 || n2 % d2 != 0)
    }
}

/// The bit pattern of the value `(-1)^neg * m * 10^k`, with `sticky`
/// marking decimal digits already discarded below `m`.
pub open spec fn convert_spec(neg: bool, m: nat, k: int, sticky: bool) -> u32 {
    if k >= 0 {
        round_spec(m * pow(5, k as nat) as nat, k, sticky, neg)
    } else {
        let (q, sh, st) = div_stages(m, (-k) as nat, sticky);
        round_spec(q, k + sh, st, neg)
    }
}

/// Count the dots among the digit-or-dot bytes `t[p..q]`.
pub open spec fn count_dots(t: Seq<u8>, p: int, q: int) -> nat
    decreases q - p,
{
    if p < q {
        (if t[p] == ('.' as u8) {
            1nat
        } else {
            0nat
        }) + count_dots(t, p + 1, q)
    } else {
        0
    }
}

/// Position of the first dot in `t[p..q]`, or `q` if there is none.
pub open spec fn first_dot(t: Seq<u8>, p: int, q: int) -> int
    decreases q - p,
{
    if p < q {
        if t[p] == ('.' as u8) {
            p
        } else {
            first_dot(t, p + 1, q)
        }
    } else {
        q
    }
}

/// Walk the digit bytes of `t[p..q]`, skipping dots and leading zeros,
/// and accumulate at most nineteen significant digits into `m`; count
/// in `drop` the digits discarded beyond those, with `stk` set when a
/// discarded digit was nonzero.  Returns the final `(m, nsig, drop, stk)`.
pub open spec fn acc_digits(
    t: Seq<u8>,
    p: int,
    q: int,
    m: nat,
    nsig: nat,
    drop: nat,
    stk: bool,
) -> (nat, nat, nat, bool)
    decreases q - p,
{
    if p < q {
        let b = t[p];
        if is_digit(b) {
            let d = (b - ('0' as u8)) as nat;
            if nsig == 0 && d == 0 {
                acc_digits(t, p + 1, q, m, nsig, drop, stk)
            } else if nsig < 19 {
                acc_digits(t, p + 1, q, m * 10 + d, nsig + 1, drop, stk)
            } else {
                acc_digits(t, p + 1, q, m, nsig, drop + 1, stk || d != 0)
            }
        } else {
            acc_digits(t, p + 1, q, m, nsig, drop, stk)
        }
    } else {
        (m, nsig, drop, stk)
    }
}

/// Drop the trailing zero digits of `m`, raising the decimal exponent
/// `k` once per digit dropped.
pub open spec fn strip_trail(m: nat, k: int) -> (nat, int)
    decreases m,
{
    if m >= 10 && m % 10 == 0 {
        strip_trail(m / 10, k + 1)
    } else {
        (m, k)
    }
}

/// The exponent value of the tail `t[q..]`: zero when the literal ends
/// at `q`, the signed two-digit value when a complete exponent part
/// ends the literal there, and `None` otherwise.
pub open spec fn exp_value(t: Seq<u8>, q: int) -> Option<int> {
    if q == t.len() {
        Some(0int)
    } else if t[q] == ('e' as u8) || t[q] == ('E' as u8) {
        let negexp = q + 1 < t.len() && t[q + 1] == ('-' as u8);
        let k = if negexp {
            q + 2
        } else {
            q + 1
        };
        if k + 2 == t.len() && is_digit(t[k]) && is_digit(t[k + 1]) {
            let v = (t[k] - ('0' as u8)) * 10 + (t[k + 1] - ('0' as u8));
            Some(
                if negexp {
                    -v
                } else {
                    v as int
                },
            )
        } else {
            None
        }
    } else {
        None
    }
}

/// The 32-bit IEEE-754 bit pattern a number literal denotes, or `None`
/// when the literal is malformed.
pub open spec fn num_bits(t: Seq<u8>) -> Option<u32> {
    if t.len() == 0 {
        None
    } else {
        let neg = t[0] == ('-' as u8);
        let i: int = if neg {
            1
        } else {
            0
        };
        let run = num_run(t, i);
        let q = i + run;
        if run == 0 {
            None
        } else if count_dots(t, i, q) >= 2 {
            None
        } else if run - count_dots(t, i, q) == 0 {
            None
        } else {
            match exp_value(t, q) {
                Option::None => None,
                Option::Some(ev) => {
                    let fd = first_dot(t, i, q);
                    let fr: int = if fd < q {
                        q - fd - 1
                    } else {
                        0
                    };
                    let (m, nsig, drop, stk) = acc_digits(t, i, q, 0, 0, 0, false);
                    if nsig == 0 {
                        Some(zero_bits(neg))
                    } else {
                        let ksum = ev - fr + drop;
                        if nsig + ksum >= 40 {
                            Some(inf_bits(neg))
                        } else if nsig + ksum <= -46 {
                            Some(zero_bits(neg))
                        } else {
                            let (m2, k2) = strip_trail(m, ksum);
                            Some(convert_spec(neg, m2, k2, stk))
                        }
                    }
                },
            }
        }
    }
}

/// `2^t` as a 128-bit value.
fn pow2_u128(t: u32) -> (r: u128)
    requires
        t <= 127,
    ensures
        r == pow2(t as nat),
{
    let mut r: u128 = 1;
    let mut i: u32 = 0;
    proof {
        lemma2_to64();
        lemma2_to64_rest();
        lemma_pow2_adds(64, 63);
    }
    while i < t
        invariant
            i <= t <= 127,
            r == pow2(i as nat),
            pow2(127) == 0x80000000000000000000000000000000,
        decreases t - i,
    {
        proof {
            lemma_pow2_adds(i as nat, 1);
            lemma2_to64();
            lemma_pow2_adds((i + 1) as nat, (127 - i - 1) as nat);
            lemma_pow2_pos((127 - i - 1) as nat);
            assert(pow2((i + 1) as nat) <= pow2(127)) by {
                lemma_mul_inequality(1, pow2((127 - i - 1) as nat) as int, pow2((i + 1) as nat) as int);
            }
        }
        r = r * 2;
        i = i + 1;
    }
    r
}

/// `5^k` as a 128-bit value.
fn pow5_u128(k: u32) -> (r: u128)
    requires
        k <= 43,
    ensures
        r == pow(5, k as nat),
{
    let mut r: u128 = 1;
    let mut i: u32 = 0;
    proof {
        lemma_pow0(5);
        lemma_num_constants();
    }
    while i < k
        invariant
            i <= k <= 43,
            r == pow(5, i as nat),
            pow(5, 43) < pow2(101),
            pow2(101) < pow2(128),
            pow2(128) == 0x100000000000000000000000000000000,
        decreases k - i,
    {
        proof {
            lemma_pow_adds(5, i as nat, 1);
            lemma_pow1(5);
            lemma_pow_adds(5, (i + 1) as nat, (43 - i - 1) as nat);
            lemma_pow_positive(5, (43 - i - 1) as nat);
            assert(pow(5, (i + 1) as nat) <= pow(5, 43)) by {
                lemma_mul_inequality(
                    1,
                    pow(5, (43 - i - 1) as nat),
                    pow(5, (i + 1) as nat),
                );
            }
            assert(pow(5, (i + 1) as nat) == pow(5, i as nat) * 5);
        }
        r = r * 5;
        i = i + 1;
    }
    r
}

/// The bit length of a 128-bit value.
fn bitlen128(n: u128) -> (r: u32)
    ensures
        r == bitlen(n as nat),
        r <= 128,
{
    proof {
        lemma_num_constants();
        lemma_bitlen_le(n as nat, 128);
    }
    let mut x = n;
    let mut b: u32 = 0;
    while x > 0
        invariant
            bitlen(n as nat) == b + bitlen(x as nat),
            bitlen(n as nat) <= 128,
            b <= 128,
        decreases x,
    {
        x = x / 2;
        b = b + 1;
    }
    b
}

/// `n * 2^a` stays under `2^(b + a)` when `n` is under `2^b`.
proof fn lemma_shift_bound(n: nat, b: nat, a: nat)
    requires
        n < pow2(b),
    ensures
        n * pow2(a) < pow2(b + a),
        n * pow2(a) <= pow2(b + a),
{
    lemma_pow2_pos(a);
    lemma_pow2_adds(b, a);
    lemma_mul_strict_inequality(n as int, pow2(b) as int, pow2(a) as int);
}

/// Round the exact value `n * 2^e2`, with `sticky` folding in dust
/// below every retained bit, to the nearest 32-bit IEEE-754 value.
fn round_exec(n: u128, e2: i128, sticky: bool, neg: bool) -> (bits: u32)
    requires
        n >= 1,
        -400 <= e2 <= 400,
    ensures
        bits == round_spec(n as nat, e2 as int, sticky, neg),
{
    let bl = bitlen128(n);
    proof {
        lemma_bitlen_bounds(n as nat);
    }
    let e: i128 = bl as i128 - 1 + e2;
    if e > 127 {
        return if neg {
            0xFF800000u32
        } else {
            0x7F800000u32
        };
    }
    let s: i128 = if e >= -126 {
        bl as i128 - 24
    } else {
        -149 - e2
    };
    let sign: u32 = if neg {
        0x80000000u32
    } else {
        0u32
    };
    if s <= 0 {
        // every retained bit is exact: shift the value up to 24 bits
        let sh = (-s) as u32;
        proof {
            if e >= -126 {
                assert(bl as int - 1 + (-(s as int)) == 23);
                lemma_shift_bound(n as nat, bl as nat, sh as nat);
                assert(pow2((bl + sh) as nat) == pow2(24)) by {
                    assert(bl + sh == 24);
                }
                assert(pow2(24) < pow2(128)) by {
                    vstd::arithmetic::power2::lemma_pow2_strictly_increases(24, 128);
                }
                lemma_num_constants();
            } else {
                // subnormal: bl + e2 <= -126 bounds the shifted width by 23
                assert(bl as int + e2 <= -126);
                assert(bl as int + sh as int <= 23);
                lemma_shift_bound(n as nat, bl as nat, sh as nat);
                assert(pow2((bl + sh) as nat) <= pow2(23)) by {
                    vstd::arithmetic::power2::lemma_pow2_strictly_increases(23, 128);
                    lemma_pow2_le((bl + sh) as nat, 23);
                }
                assert(pow2(23) < pow2(128)) by {
                    vstd::arithmetic::power2::lemma_pow2_strictly_increases(23, 128);
                }
                lemma_num_constants();
            }
        }
        let q = n * pow2_u128(sh);
        if e < -126 {
            proof {
                assert(q < pow2(23));
                lemma2_to64();
            }
            sign + (q as u32)
        } else {
            proof {
                assert(q < pow2(24));
                assert(q >= pow2(23)) by {
                    lemma_pow2_adds((bl - 1) as nat, sh as nat);
                    lemma_pow2_pos(sh as nat);
                    lemma_mul_inequality(
                        pow2((bl - 1) as nat) as int,
                        n as int,
                        pow2(sh as nat) as int,
                    );
                }
                lemma2_to64();
            }
            let ef: u32 = (e + 127) as u32;
            sign + ef * 0x800000 + (q as u32 - 0x800000)
        }
    } else {
        // inexact: divide, keeping a round bit and a sticky bit
        let (q, rbit, stk): (u128, bool, bool) = if s <= 127 {
            let p = pow2_u128(s as u32);
            let ph = pow2_u128((s - 1) as u32);
            proof {
                lemma_pow2_pos(s as nat);
                lemma_pow2_pos((s - 1) as nat);
            }
            let q = n / p;
            let rbit = (n / ph) % 2 == 1;
            let stk = sticky || n % ph != 0;
            proof {
                lemma_pow2_le(1, s as nat);
                lemma2_to64();
                lemma_div_is_ordered_by_denominator(n as int, 2, pow2(s as nat) as int);
                lemma_div_is_ordered(n as int, 0xffffffffffffffffffffffffffffffff, 2);
            }
            (q, rbit, stk)
        } else if s == 128 {
            let ph = pow2_u128(127);
            proof {
                lemma_pow2_pos(127);
                lemma_num_constants();
                lemma_basic_div(n as int, pow2(128) as int);
            }
            (0u128, (n / ph) % 2 == 1, sticky || n % ph != 0)
        } else {
            proof {
                lemma_pow2_le(128, s as nat);
                lemma_pow2_le(128, (s - 1) as nat);
                lemma_num_constants();
                lemma_basic_div(n as int, pow2(s as nat) as int);
                lemma_basic_div(n as int, pow2((s - 1) as nat) as int);
                lemma_small_mod(n as nat, pow2((s - 1) as nat));
            }
            (0u128, false, sticky || n > 0)
        };
        let q1: u128 = if rbit && (stk || q % 2 == 1) {
            q + 1
        } else {
            q
        };
        if e < -126 {
            proof {
                lemma_subnormal_q_bound(n as nat, e2 as int, s as int);
                lemma2_to64();
            }
            sign + (q1 as u32)
        } else {
            proof {
                lemma_normal_q_bounds(n as nat, bl as nat, s as nat);
                lemma2_to64();
            }
            let ef: u32 = (e + 127) as u32;
            sign + ef * 0x800000 + (q1 as u32 - 0x800000)
        }
    }
}

/// `pow2` is monotone.
proof fn lemma_pow2_le(a: nat, b: nat)
    requires
        a <= b,
    ensures
        pow2(a) <= pow2(b),
{
    if a < b {
        vstd::arithmetic::power2::lemma_pow2_strictly_increases(a, b);
    }
}

/// In the subnormal branch with a positive shift, the rounded mantissa
/// stays within 23 bits.
proof fn lemma_subnormal_q_bound(n: nat, e2: int, s: int)
    requires
        n >= 1,
        bitlen(n) as int - 1 + e2 < -126,
        s == -149 - e2,
        s >= 1,
    ensures
        n / pow2(s as nat) + 1 <= pow2(23),
{
    let bl = bitlen(n) as int;
    lemma_bitlen_bounds(n);
    assert(bl + e2 <= -126);
    assert(bl <= s + 23);
    lemma_pow2_le(bl as nat, (s + 23) as nat);
    lemma_pow2_adds(s as nat, 23);
    lemma_pow2_pos(s as nat);
    lemma_pow2_pos(23);
    // n < 2^bl <= 2^(s+23) = 2^s * 2^23, so n / 2^s < 2^23
    assert(n < pow2(s as nat) * pow2(23));
    lemma_div_bound_from_product(n, pow2(s as nat), pow2(23));
}

/// `n < d * c` gives `n / d < c`.
proof fn lemma_div_bound_from_product(n: nat, d: nat, c: nat)
    requires
        d >= 1,
        c >= 1,
        n < d * c,
    ensures
        n / d < c,
{
    if n / d >= c {
        vstd::arithmetic::div_mod::lemma_fundamental_div_mod(n as int, d as int);
        vstd::arithmetic::div_mod::lemma_mod_bound(n as int, d as int);
        assert(false) by (nonlinear_arith)
            requires
                n / d >= c,
                n < d * c,
                d >= 1,
                n == d * (n / d) + n % d,
                n % d >= 0,
        ;
    }
}

/// In the normal branch with a positive shift, the quotient has
/// exactly 24 bits and rounding keeps it within 2^24.
proof fn lemma_normal_q_bounds(n: nat, bl: nat, s: nat)
    requires
        bl == bitlen(n),
        n >= 1,
        s == bl - 24,
        s >= 1,
    ensures
        pow2(23) <= n / pow2(s),
        n / pow2(s) + 1 <= pow2(24),
{
    lemma_bitlen_bounds(n);
    lemma_pow2_pos(s);
    // lower bound: n >= 2^(bl-1) = 2^23 * 2^s
    lemma_pow2_adds(23, s);
    lemma_div_is_ordered(pow2((bl - 1) as nat) as int, n as int, pow2(s) as int);
    lemma_div_multiples_vanish(pow2(23) as int, pow2(s) as int);
    assert(pow2((bl - 1) as nat) == pow2(s) * pow2(23)) by {
        lemma_pow2_adds(s, 23);
    }
    assert(pow2((bl - 1) as nat) / pow2(s) == pow2(23)) by {
        assert(pow2(s) * pow2(23) == pow2(s as int as nat) * pow2(23));
        lemma_div_multiples_vanish(pow2(23) as int, pow2(s) as int);
    }
    // upper bound: n < 2^bl = 2^s * 2^24, so n / 2^s < 2^24
    lemma_pow2_adds(s, 24);
    lemma_div_bound_from_product(n, pow2(s), pow2(24));
}

/// `m * 5^k` stays narrow when the digit count and the decimal
/// exponent are jointly bounded.
proof fn lemma_scale_fits(m: nat, d: nat, k: nat)
    requires
        m >= 1,
        m < pow(10, d),
        1 <= d <= 19,
        k + d <= 39,
    ensures
        m * pow(5, k) < pow2(110),
        pow2(110) < pow2(128),
{
    lemma_num_constants();
    lemma_pow_positive(5, 39);
    lemma_pow_positive(5, k);
    lemma_pow_positive(5, d);
    lemma_pow_positive(2, d);
    lemma_pow_positive(10, d);
    lemma_pow_increases(5, k, (39 - d) as nat);
    lemma_pow_positive(5, (39 - d) as nat);
    lemma_pow_distributes(2, 5, d);
    lemma_pow_adds(5, d, (39 - d) as nat);
    lemma_pow_increases(2, d, 19);
    vstd::arithmetic::power2::lemma_pow2(19);
    vstd::arithmetic::power2::lemma_pow2(110);
    lemma_pow2_adds(19, 91);
    assert(m * pow(5, k) < pow2(110)) by (nonlinear_arith)
        requires
            m < pow(10, d),
            pow(5, k) <= pow(5, (39 - d) as nat),
            pow(10, d) == pow(2, d) * pow(5, d),
            pow(5, d) * pow(5, (39 - d) as nat) == pow(5, 39),
            pow(2, d) <= pow(2, 19),
            pow(5, 39) < pow2(91),
            pow2(19) == pow(2, 19),
            pow2(110) == pow2(19) * pow2(91),
            pow(5, k) > 0,
            pow(5, d) > 0,
            pow(2, d) > 0,
            pow(5, 39) > 0,
            pow2(91) > 0,
            m >= 1,
    ;
    vstd::arithmetic::power2::lemma_pow2_strictly_increases(110, 128);
}

/// A value scaled up to bit 126 stays in 127 bits and dominates every
/// power of five used as a divisor here.
proof fn lemma_stage_bounds(m: nat, j: nat)
    requires
        m >= 1,
        bitlen(m) <= 127,
        j <= 43,
    ensures
        m * pow2((127 - bitlen(m)) as nat) < pow2(127),
        m * pow2((127 - bitlen(m)) as nat) >= pow2(126),
        pow(5, j) <= m * pow2((127 - bitlen(m)) as nat),
        pow(5, j) >= 1,
{
    let bl = bitlen(m);
    let t = (127 - bl) as nat;
    lemma_bitlen_bounds(m);
    lemma_shift_bound(m, bl, t);
    assert(bl >= 1);
    lemma_pow2_pos(t);
    assert(m * pow2(t) >= pow2((bl - 1) as nat) * pow2(t)) by {
        lemma_mul_inequality(pow2((bl - 1) as nat) as int, m as int, pow2(t) as int);
    }
    lemma_pow2_adds((bl - 1) as nat, t);
    lemma_pow_positive(5, j);
    lemma_pow_increases(5, j, 43);
    lemma_num_constants();
    lemma_pow2_le(101, 126);
}

/// Compute the bit pattern of `(-1)^neg * m * 10^k`, where `m` has `d`
/// decimal digits and `sticky` marks digits already discarded below it.
fn convert_exec(neg: bool, m: u64, k: i128, sticky: bool, d: u32) -> (bits: u32)
    requires
        1 <= m,
        1 <= d <= 19,
        (m as nat) < pow(10, d as nat),
        k + d <= 39,
        -64 <= k <= 38,
    ensures
        bits == convert_spec(neg, m as nat, k as int, sticky),
{
    if k >= 0 {
        proof {
            lemma_num_constants();
            lemma_scale_fits(m as nat, d as nat, k as nat);
            lemma_pow_positive(5, k as nat);
            assert((m as nat) * pow(5, k as nat) >= pow(5, k as nat)) by {
                lemma_mul_inequality(1, m as int, pow(5, k as nat));
            }
        }
        let n = (m as u128) * pow5_u128(k as u32);
        round_exec(n, k, sticky, neg)
    } else {
        let j = (-k) as u32;
        let j1: u32 = if j <= 43 {
            j
        } else {
            (j + 1) / 2
        };
        let j2: u32 = j - j1;
        let bl = bitlen128(m as u128);
        proof {
            lemma2_to64();
            lemma_bitlen_le(m as nat, 64);
            assert(bitlen(m as nat) >= 1);
            lemma_stage_bounds(m as nat, j1 as nat);
            lemma_pow_positive(5, j1 as nat);
            lemma_num_constants();
            vstd::arithmetic::power2::lemma_pow2_strictly_increases(127, 128);
        }
        let t1 = 127 - bl;
        let n1 = (m as u128) * pow2_u128(t1);
        let d1 = pow5_u128(j1);
        let q1 = n1 / d1;
        let st1 = sticky || n1 % d1 != 0;
        proof {
            vstd::arithmetic::div_mod::lemma_div_by_self(d1 as int);
            lemma_div_is_ordered(d1 as int, n1 as int, d1 as int);
            assert(q1 >= 1);
        }
        if j2 == 0 {
            round_exec(q1, k - t1 as i128, st1, neg)
        } else {
            proof {
                vstd::arithmetic::div_mod::lemma_div_basics(n1 as int);
                lemma_div_is_ordered_by_denominator(n1 as int, 1, d1 as int);
                assert(q1 <= n1);
                vstd::arithmetic::power2::lemma_pow2_strictly_increases(127, 128);
                lemma_bitlen_le(q1 as nat, 127);
            }
            let bl2 = bitlen128(q1);
            proof {
                lemma_stage_bounds(q1 as nat, j2 as nat);
                lemma_pow_positive(5, j2 as nat);
                lemma_num_constants();
                vstd::arithmetic::power2::lemma_pow2_strictly_increases(127, 128);
            }
            let t2 = 127 - bl2;
            let n2 = q1 * pow2_u128(t2);
            let d2 = pow5_u128(j2);
            let q2 = n2 / d2;
            let st2 = st1 || n2 % d2 != 0;
            proof {
                vstd::arithmetic::div_mod::lemma_div_by_self(d2 as int);
                lemma_div_is_ordered(d2 as int, n2 as int, d2 as int);
                assert(q2 >= 1);
            }
            round_exec(q2, k - t1 as i128 - t2 as i128, st2, neg)
        }
    }
}

/// Read the bit pattern a number literal denotes, or `None` when the
/// literal is malformed.
pub fn number_bits(text: &[u8]) -> (r: Option<u32>)
    ensures
        r == num_bits(text@),
{
    let len = text.len();
    if len == 0 {
        return None;
    }
    let neg = text[0] == ('-' as u8);
    let i: usize = if neg {
        1
    } else {
        0
    };
    let q = scan_num_bytes(text, i);
    if q == i {
        return None;
    }
    // count the dots and remember the first
    let mut dots: usize = 0;
    let mut fd: usize = q;
    let mut p: usize = i;
    while p < q
        invariant
            i <= p <= q <= text@.len(),
            dots <= p - i,
            fd <= q,
            dots + count_dots(text@, p as int, q as int) == count_dots(
                text@,
                i as int,
                q as int,
            ),
            if fd < q {
                first_dot(text@, i as int, q as int) == fd as int
            } else {
                first_dot(text@, i as int, q as int) == first_dot(text@, p as int, q as int)
            },
        decreases q - p,
    {
        if text[p] == ('.' as u8) {
            dots = dots + 1;
            if fd == q {
                fd = p;
            }
        }
        p = p + 1;
    }
    if dots >= 2 {
        return None;
    }
    if q - i - dots == 0 {
        return None;
    }
    // the exponent part, which must end the literal
    let ev: i128;
    if q == len {
        ev = 0;
    } else if text[q] == ('e' as u8) || text[q] == ('E' as u8) {
        let negexp = q + 1 < len && text[q + 1] == ('-' as u8);
        let kpos = if negexp {
            q + 2
        } else {
            q + 1
        };
        if len >= 2 && kpos == len - 2 && is_digit_exec(text[kpos]) && is_digit_exec(
            text[kpos + 1],
        ) {
            let v = (text[kpos] - ('0' as u8)) as i128 * 10 + (text[kpos + 1] - ('0' as u8))
                as i128;
            ev = if negexp {
                -v
            } else {
                v
            };
        } else {
            return None;
        }
    } else {
        return None;
    }
    // accumulate at most nineteen significant digits
    let mut m: u64 = 0;
    let mut nsig: u32 = 0;
    let mut dropped: u64 = 0;
    let mut stk = false;
    let mut p2: usize = i;
    proof {
        lemma_num_constants();
        lemma2_to64();
        vstd::arithmetic::power::lemma_pow0(10);
    }
    while p2 < q
        invariant
            i <= p2 <= q <= text@.len(),
            nsig <= 19,
            dropped <= p2,
            (m as nat) < pow(10, nsig as nat),
            nsig == 0 ==> m == 0,
            nsig >= 1 ==> m >= 1,
            pow(10, 19) < pow2(64),
            pow2(64) == 0x10000000000000000,
            acc_digits(text@, i as int, q as int, 0, 0, 0, false) == acc_digits(
                text@,
                p2 as int,
                q as int,
                m as nat,
                nsig as nat,
                dropped as nat,
                stk,
            ),
        decreases q - p2,
    {
        let b = text[p2];
        if is_digit_exec(b) {
            let dv = b - ('0' as u8);
            if nsig == 0 && dv == 0 {
                // leading zero
            } else if nsig < 19 {
                proof {
                    lemma_pow_adds(10, nsig as nat, 1);
                    lemma_pow1(10);
                    vstd::arithmetic::power::lemma_pow_increases(
                        10,
                        (nsig + 1) as nat,
                        19,
                    );
                }
                m = m * 10 + (dv as u64);
                nsig = nsig + 1;
            } else {
                dropped = dropped + 1;
                stk = stk || dv != 0;
            }
        }
        p2 = p2 + 1;
    }
    if nsig == 0 {
        return Some(
            if neg {
                0x80000000u32
            } else {
                0u32
            },
        );
    }
    let fr: usize = if fd < q {
        q - fd - 1
    } else {
        0
    };
    let ksum: i128 = ev - (fr as i128) + (dropped as i128);
    if nsig as i128 + ksum >= 40 {
        return Some(
            if neg {
                0xFF800000u32
            } else {
                0x7F800000u32
            },
        );
    }
    if nsig as i128 + ksum <= -46 {
        return Some(
            if neg {
                0x80000000u32
            } else {
                0u32
            },
        );
    }
    // strip trailing zero digits
    let mut m2 = m;
    let mut k2 = ksum;
    let mut d2 = nsig;
    proof {
        lemma_pow1(10);
        vstd::arithmetic::power::lemma_pow0(10);
    }
    while m2 >= 10 && m2 % 10 == 0
        invariant
            m2 >= 1,
            1 <= d2 <= 19,
            (m2 as nat) < pow(10, d2 as nat),
            d2 + k2 == nsig + ksum,
            -45 <= d2 + k2 <= 39,
            strip_trail(m as nat, ksum as int) == strip_trail(m2 as nat, k2 as int),
            pow(10, 1) == 10,
            pow(10, 0) == 1,
        decreases m2,
    {
        proof {
            if d2 == 1 {
                assert(pow(10, 1) == 10);
                assert(false);
            }
            lemma_pow_adds(10, (d2 - 1) as nat, 1);
        }
        m2 = m2 / 10;
        k2 = k2 + 1;
        d2 = d2 - 1;
    }
    Some(convert_exec(neg, m2, k2, stk, d2))
}

} // verus!
