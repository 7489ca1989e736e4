//! Whole-number models of the `f64` arithmetic the interface's numbers
//! go through: rounding an integer to the nearest `f64`, and rounding a
//! quotient to the nearest integer, a tie to the even one.
use vstd::arithmetic::div_mod::{lemma_div_denominator, lemma_fundamental_div_mod};
use vstd::arithmetic::div_mod::{lemma_div_by_multiple, lemma_fundamental_div_mod_converse, lemma_mod_pos_bound};
use vstd::arithmetic::power2::{lemma2_to64, lemma2_to64_rest, lemma_pow2_adds, lemma_pow2_pos, lemma_pow2_unfold, pow2};
use vstd::prelude::*;

verus! {

/// Below this, every integer is an `f64` exactly (2 to the 53).
pub open spec fn exact_f64_limit() -> nat {
    0x20_0000_0000_0000
}

/// How many low bits of `n` do not fit in an `f64`'s mantissa.
pub open spec fn dropped_bits(n: nat) -> nat
    decreases n,
{
    if n < exact_f64_limit() {
        0
    } else {
        1 + dropped_bits(n / 2)
    }
}

/// `a / b` rounded to the nearest integer, a tie going to the even one.
pub open spec fn div_round_even(a: nat, b: nat) -> nat {
    let q = a / b;
    let r = a % b;
    if 2 * r > b || (2 * r == b && q % 2 == 1) {
        q + 1
    } else {
        q
    }
}

/// The value of `n as f64`: `n` rounded to the nearest `f64`, a tie going
/// to the even mantissa.
pub open spec fn as_f64(n: nat) -> nat {
    div_round_even(n, pow2(dropped_bits(n))) * pow2(dropped_bits(n))
}

pub fn div_round_even_exec(a: u128, b: u128) -> (r: u128)
    requires
        0 < b < 0x1_0000_0000_0000_0000,
        a < 0x1_0000_0000_0000_0000_0000,
    ensures
        r == div_round_even(a as nat, b as nat),
        r <= a / b + 1,
{
    let q: u128 = a / b;
    let r: u128 = a % b;
    if 2 * r > b || (2 * r == b && q % 2 == 1) {
        q + 1
    } else {
        q
    }
}

/// `n as f64`, as an integer.
pub fn nearest_f64(n: u64) -> (f: u128)
    ensures
        f == as_f64(n as nat),
        f <= n as nat + 0x1000,
{
    let mut q: u64 = n;
    let mut p: u128 = 1;
    let ghost mut k: nat = 0;
    proof {
        lemma2_to64();
    }
    while q >= 0x20_0000_0000_0000
        invariant
            p == pow2(k),
            1 <= p < 0x1000,
            q == n as nat / p as nat,
            dropped_bits(n as nat) == k + dropped_bits(q as nat),
        decreases q,
    {
        proof {
            vstd::arithmetic::div_mod::lemma_div_denominator(n as int, p as int, 2);
            vstd::arithmetic::div_mod::lemma_fundamental_div_mod(n as int, p as int);
            assert(p * q <= n) by (nonlinear_arith)
                requires
                    q == n as nat / p as nat,
                    p >= 1,
                    n == p * (n as nat / p as nat) + n as nat % p as nat,
                    n as nat % p as nat >= 0,
            ;
            assert(p * 0x20_0000_0000_0000 <= p * q) by (nonlinear_arith)
                requires
                    q >= 0x20_0000_0000_0000,
                    p >= 1,
            ;
            assert(p < 0x800);
        }
        q = q / 2;
        p = p * 2;
        proof {
            k = k + 1;
            lemma_pow2_unfold(k);
        }
    }
    proof {
        vstd::arithmetic::div_mod::lemma_fundamental_div_mod(n as int, p as int);
    }
    let rounded: u128 = div_round_even_exec(n as u128, p);
    proof {
        assert(rounded * p <= n as nat + p) by (nonlinear_arith)
            requires
                rounded <= n as nat / p as nat + 1,
                n == p * (n as nat / p as nat) + n as nat % p as nat,
                n as nat % p as nat >= 0,
                p >= 1,
        ;
    }
    rounded * p
}

/// Dropping the bits an `f64` cannot hold leaves a mantissa below 2^53,
/// and one of at least 2^52 when any bits were dropped.
pub proof fn lemma_dropped_bits_quotient(n: nat)
    ensures
        n / pow2(dropped_bits(n)) < exact_f64_limit(),
        n >= exact_f64_limit() ==> n / pow2(dropped_bits(n)) >= exact_f64_limit() / 2,
    decreases n,
{
    lemma2_to64();
    if n >= exact_f64_limit() {
        let k = dropped_bits(n / 2);
        lemma_dropped_bits_quotient(n / 2);
        lemma_pow2_unfold(k + 1);
        lemma_pow2_pos(k);
        lemma_div_denominator(n as int, 2, pow2(k) as int);
        assert(dropped_bits(n) == k + 1);
        assert(pow2(k + 1) == 2 * pow2(k));
    }
}

/// An integer of at least `lo` (where `lo` is at most 2^52) is still at
/// least `lo` once rounded to an `f64`.
pub proof fn lemma_as_f64_at_least(n: nat, lo: nat)
    requires
        lo <= n,
        lo <= exact_f64_limit() / 2,
    ensures
        as_f64(n) >= lo,
{
    let k = dropped_bits(n);
    let p = pow2(k);
    lemma_pow2_pos(k);
    lemma_dropped_bits_quotient(n);
    lemma_fundamental_div_mod(n as int, p as int);
    let q = n / p;
    assert(div_round_even(n, p) >= q);
    if n < exact_f64_limit() {
        lemma2_to64();
        assert(k == 0);
        assert(p == 1);
        lemma_mod_pos_bound(n as int, p as int);
        assert(q == n) by (nonlinear_arith)
            requires
                n == p * q + n % p,
                0 <= n % p < p,
                p == 1,
        ;
        assert(div_round_even(n, p) * p >= q * 1) by (nonlinear_arith)
            requires
                div_round_even(n, p) >= q,
                p == 1,
        ;
    } else {
        assert(div_round_even(n, p) * p >= q) by (nonlinear_arith)
            requires
                div_round_even(n, p) >= q,
                p >= 1,
        ;
    }
}

/// Over the common denominator 2^128, `n / d` lies in the binade of
/// exponent `e`: 2^52 ≤ n / (d · 2^e) < 2^53.
pub open spec fn in_binade(n: nat, d: nat, e: int) -> bool {
    &&& -128 <= e
    &&& pow2(52) * (d * pow2((e + 128) as nat)) <= n * pow2(128)
    &&& n * pow2(128) < pow2(53) * (d * pow2((e + 128) as nat))
}

/// The exponent of `n / d` as an `f64`: the one binade that holds it
/// (`lemma_binade_exists`, `lemma_binade_unique`).
pub open spec fn quotient_exponent(n: nat, d: nat) -> int {
    choose|e: int| in_binade(n, d, e)
}

/// The mantissa of `n / d` rounded to the nearest `f64` (a tie to the
/// even one): the quotient scaled into its binade, rounded.
pub open spec fn quotient_mantissa(n: nat, d: nat) -> nat {
    div_round_even(n * pow2(128), d * pow2((quotient_exponent(n, d) + 128) as nat))
}

/// A quotient has one binade only.
pub proof fn lemma_binade_unique(n: nat, d: nat, e1: int, e2: int)
    requires
        in_binade(n, d, e1),
        in_binade(n, d, e2),
    ensures
        e1 == e2,
{
    if e1 != e2 {
        let (lo, hi) = if e1 < e2 {
            (e1, e2)
        } else {
            (e2, e1)
        };
        let a = (lo + 128) as nat;
        let b = (hi + 128) as nat;
        lemma2_to64();
        lemma2_to64_rest();
        lemma_pow2_unfold(a + 1);
        lemma_pow2_adds(a + 1, (b - (a + 1)) as nat);
        lemma_pow2_pos((b - (a + 1)) as nat);
        lemma_pow2_pos(a);
        assert(pow2(b) >= 2 * pow2(a)) by (nonlinear_arith)
            requires
                pow2(b) == pow2(a + 1) * pow2((b - (a + 1)) as nat),
                pow2(a + 1) == 2 * pow2(a),
                pow2((b - (a + 1)) as nat) >= 1,
                pow2(a) >= 0,
        ;
        assert(pow2(53) * (d * pow2(a)) <= pow2(52) * (d * pow2(b))) by (nonlinear_arith)
            requires
                pow2(b) >= 2 * pow2(a),
                pow2(53) == 2 * pow2(52),
                d >= 0,
                pow2(52) >= 0,
        ;
    }
}

/// When `n / d` is at least 2^52 · 2^e, a binade at or above `e` holds it.
pub proof fn lemma_binade_at_or_above(n: nat, d: nat, e: nat)
    requires
        d >= 1,
        pow2(52) * (d * pow2(e)) <= n,
    ensures
        exists|e2: int| e2 >= e && in_binade(n, d, e2),
    decreases n - pow2(e),
{
    lemma2_to64();
    lemma2_to64_rest();
    lemma_pow2_adds(e, 128);
    lemma_pow2_pos(e);
    lemma_pow2_pos(128);
    let pe = pow2(e);
    let pc = pow2(128);
    assert(pow2(((e as int) + 128) as nat) == pe * pc);
    if n < pow2(53) * (d * pe) {
        assert(pow2(52) * (d * (pe * pc)) <= n * pc) by (nonlinear_arith)
            requires
                pow2(52) * (d * pe) <= n,
                pc >= 1,
        ;
        assert(n * pc < pow2(53) * (d * (pe * pc))) by (nonlinear_arith)
            requires
                n < pow2(53) * (d * pe),
                pc >= 1,
        ;
        assert(in_binade(n, d, e as int));
    } else {
        lemma_pow2_unfold(e + 1);
        assert(pow2(52) * (d * pow2(e + 1)) <= n) by (nonlinear_arith)
            requires
                pow2(e + 1) == 2 * pe,
                pow2(53) == 2 * pow2(52),
                pow2(53) * (d * pe) <= n,
        ;
        assert(pow2(e + 1) <= n) by (nonlinear_arith)
            requires
                pow2(52) * (d * pow2(e + 1)) <= n,
                d >= 1,
                pow2(52) >= 1,
                pow2(e + 1) >= 0,
        ;
        lemma_binade_at_or_above(n, d, e + 1);
    }
}

/// A quotient `q = ⌊n · 2^s / d⌋` from 2^52 up to 2^53 puts `n / d` in the
/// binade of exponent `-s`.
pub proof fn lemma_binade_below(n: nat, d: nat, s: nat, q: nat, r: nat)
    requires
        d >= 1,
        s <= 128,
        n * pow2(s) == q * d + r,
        r < d,
        pow2(52) <= q < pow2(53),
    ensures
        in_binade(n, d, -(s as int)),
{
    let c = pow2((128 - s) as nat);
    lemma_pow2_adds(s, (128 - s) as nat);
    lemma_pow2_pos((128 - s) as nat);
    assert(pow2(((-(s as int)) + 128) as nat) == c);
    assert(n * pow2(128) == (q * d + r) * c) by (nonlinear_arith)
        requires
            pow2(128) == pow2(s) * c,
            n * pow2(s) == q * d + r,
    ;
    assert(pow2(52) * (d * c) <= (q * d + r) * c) by (nonlinear_arith)
        requires
            pow2(52) <= q,
            c >= 1,
            d >= 1,
            r >= 0,
    ;
    assert((q * d + r) * c < pow2(53) * (d * c)) by (nonlinear_arith)
        requires
            q + 1 <= pow2(53),
            r < d,
            c >= 1,
    ;
}

/// Scaling both sides of a division by `c` leaves its rounding as it was.
pub proof fn lemma_scaled_round(q: nat, r: nat, d: nat, c: nat)
    requires
        d >= 1,
        c >= 1,
        r < d,
    ensures
        div_round_even((q * d + r) * c, d * c) == if 2 * r > d || (2 * r == d && q % 2 == 1) {
            q + 1
        } else {
            q
        },
{
    assert((q * d + r) * c == q * (d * c) + r * c) by (nonlinear_arith);
    assert(r * c < d * c) by (nonlinear_arith)
        requires
            r < d,
            c >= 1,
    ;
    lemma_fundamental_div_mod_converse(((q * d + r) * c) as int, (d * c) as int, q as int, (r * c) as int);
    assert((2 * (r * c) > d * c) == (2 * r > d)) by (nonlinear_arith)
        requires
            c >= 1,
    ;
    assert((2 * (r * c) == d * c) == (2 * r == d)) by (nonlinear_arith)
        requires
            c >= 1,
    ;
}

/// Scaling into the binade of exponent `-s` and back is dividing by 2^s.
pub proof fn lemma_unscale(f: nat, s: nat)
    requires
        s <= 128,
    ensures
        f * pow2((128 - s) as nat) / pow2(128) == f / pow2(s),
{
    let c = pow2((128 - s) as nat);
    lemma_pow2_adds(s, (128 - s) as nat);
    lemma_pow2_pos((128 - s) as nat);
    lemma_pow2_pos(s);
    lemma_div_denominator((f * c) as int, c as int, pow2(s) as int);
    lemma_div_by_multiple(f as int, c as int);
    assert(c * pow2(s) == pow2(128)) by (nonlinear_arith)
        requires
            pow2(128) == pow2(s) * c,
    ;
}

/// Below the binade of exponent 0, doubling `n` until the quotient by `d`
/// reaches 2^52 finds the binade: some exponent holds `n / d`.
proof fn lemma_binade_search(n: nat, d: nat, s: nat)
    requires
        1 <= n,
        1 <= d < pow2(66),
        s <= 117,
        n * pow2(s) < pow2(52) * d,
    ensures
        exists|e: int| in_binade(n, d, e),
    decreases 118 - s,
{
    lemma2_to64();
    lemma2_to64_rest();
    lemma_pow2_unfold(s + 1);
    lemma_pow2_pos(s + 1);
    let x = n * pow2(s + 1);
    assert(x == 2 * (n * pow2(s))) by (nonlinear_arith)
        requires
            x == n * pow2(s + 1),
            pow2(s + 1) == 2 * pow2(s),
    ;
    if x >= pow2(52) * d {
        lemma_fundamental_div_mod(x as int, d as int);
        lemma_mod_pos_bound(x as int, d as int);
        let q = x / d;
        let r = x % d;
        assert(q >= pow2(52)) by (nonlinear_arith)
            requires
                x == d * q + r,
                r < d,
                x >= pow2(52) * d,
                d >= 1,
        ;
        assert(q < pow2(53)) by (nonlinear_arith)
            requires
                x == d * q + r,
                r >= 0,
                x == 2 * (n * pow2(s)),
                n * pow2(s) < pow2(52) * d,
                pow2(53) == 2 * pow2(52),
                d >= 1,
        ;
        assert(n * pow2(s + 1) == q * d + r) by (nonlinear_arith)
            requires
                x == d * q + r,
                x == n * pow2(s + 1),
        ;
        lemma_binade_below(n, d, s + 1, q, r);
    } else {
        lemma_pow2_adds(52, 66);
        assert(pow2(s + 1) < pow2(118)) by (nonlinear_arith)
            requires
                n * pow2(s + 1) < pow2(52) * d,
                d < pow2(66),
                pow2(118) == pow2(52) * pow2(66),
                n >= 1,
                pow2(s + 1) >= 1,
        ;
        if s + 1 > 117 {
            if s + 1 > 118 {
                vstd::arithmetic::power2::lemma_pow2_strictly_increases(118, s + 1);
            }
        }
        lemma_binade_search(n, d, s + 1);
    }
}

/// Every quotient of two positive whole numbers below 2^66 lies in some
/// binade, so `quotient_exponent` names it.
pub proof fn lemma_binade_exists(n: nat, d: nat)
    requires
        1 <= n < pow2(66),
        1 <= d < pow2(66),
    ensures
        exists|e: int| in_binade(n, d, e),
        in_binade(n, d, quotient_exponent(n, d)),
{
    lemma2_to64();
    if pow2(52) * (d * pow2(0)) <= n {
        lemma_binade_at_or_above(n, d, 0);
    } else {
        assert(n * pow2(0) < pow2(52) * d);
        lemma_binade_search(n, d, 0);
    }
}

} // verus!
