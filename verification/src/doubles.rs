//! Doubles: the numbers of fifty-three binary digits that a processor computes fractions
//! with, and how results are rounded to them.
use vstd::prelude::*;
use vstd::arithmetic::div_mod::{
    lemma_div_denominator, lemma_fundamental_div_mod, lemma_fundamental_div_mod_converse,
    lemma_mod_bound,
};
use vstd::arithmetic::power2::{
    lemma2_to64, lemma_pow2_adds, lemma_pow2_pos, lemma_pow2_strictly_increases,
    lemma_pow2_unfold, pow2,
};

verus! {

/// Whole numbers below this have a double of their own.
pub const EXACT_DOUBLES: u64 = 9007199254740992;

/// Half of that: from here on all digits of a double are in use.
pub const FULL_DOUBLES: u64 = 4503599627370496;

/// The integer nearest to a fraction; the even one of two that are equally near.
pub open spec fn half_even(a: nat, b: nat) -> nat {
    let q = a / b;
    let r = a % b;
    if 2 * r > b || (2 * r == b && q % 2 == 1) {
        q + 1
    } else {
        q
    }
}

/// How far doubles are apart at a whole number.
pub open spec fn double_step(n: nat) -> nat
    decreases n,
{
    if n < EXACT_DOUBLES {
        1
    } else {
        2 * double_step(n / 2)
    }
}

/// The double nearest to a whole number.
pub open spec fn nearest_double(n: nat) -> nat {
    half_even(n, double_step(n)) * double_step(n)
}

/// How often `n / d` is halved to come below the numbers that are exact.
pub open spec fn halvings(n: nat, d: nat) -> nat
    decreases n - d,
{
    if d == 0 || n < EXACT_DOUBLES * d {
        0
    } else {
        1 + halvings(n, 2 * d)
    }
}

/// How often `n / d` is doubled until all digits of a double are in use.
pub open spec fn doublings(n: nat, d: nat) -> nat
    decreases 2 * (FULL_DOUBLES * d) - n,
{
    if n == 0 || n >= FULL_DOUBLES * d {
        0
    } else {
        1 + doublings(2 * n, d)
    }
}

/// The whole number nearest to a fraction that has no sign, halves upwards.
pub open spec fn half_up(a: nat, b: nat) -> nat {
    (2 * a + b) / (2 * b)
}

/// The whole number nearest to the double nearest to `n / d`, halves upwards.
pub open spec fn rounded_quotient(n: nat, d: nat) -> nat {
    let down = pow2(halvings(n, d));
    let up = pow2(doublings(n, d));
    half_up(half_even(n * up, d * down) * down, up)
}

/// The integer nearest to a fraction; the even one of two that are equally near.
pub fn rounded(a: u128, b: u128) -> (r: u128)
    requires
        b > 0,
        a < u128::MAX,
    ensures
        r == half_even(a as nat, b as nat),
        a as nat / b as nat <= r <= a as nat / b as nat + 1,
{
    let q: u128 = a / b;
    let rest: u128 = a % b;
    proof {
        assert(q <= a) by (nonlinear_arith)
            requires
                q == a / b,
                b > 0,
        ;
    }
    let other: u128 = b - rest;
    if rest > other || (rest == other && q % 2 == 1) {
        q + 1
    } else {
        q
    }
}

proof fn lemma_double_step(n: nat)
    requires
        n <= u64::MAX,
    ensures
        1 <= double_step(n) <= 2048,
        n < EXACT_DOUBLES ==> double_step(n) == 1,
{
    reveal_with_fuel(double_step, 13);
}

fn step_of(n: u64) -> (r: u64)
    ensures
        r == double_step(n as nat),
        1 <= r <= 2048,
    decreases n,
{
    proof {
        lemma_double_step(n as nat);
    }
    if n < EXACT_DOUBLES {
        1
    } else {
        proof {
            lemma_double_step((n / 2) as nat);
        }
        2 * step_of(n / 2)
    }
}

/// The double nearest to a whole number.
pub fn as_double(n: u64) -> (r: u128)
    ensures
        r == nearest_double(n as nat),
        r <= n + 2048,
        n < EXACT_DOUBLES ==> r == n,
{
    let step: u64 = step_of(n);
    let q: u128 = rounded(n as u128, step as u128);
    proof {
        let a = n as int;
        let s = step as int;
        assert(q <= a / s + 1);
        assert((a / s) * s <= a) by (nonlinear_arith)
            requires
                s > 0,
                a >= 0,
        ;
        assert(q * s <= (a / s + 1) * s) by (nonlinear_arith)
            requires
                q <= a / s + 1,
                s > 0,
        ;
        assert((a / s + 1) * s == (a / s) * s + s) by (nonlinear_arith);
        lemma_double_step(n as nat);
        if n < EXACT_DOUBLES {
            assert(s == 1);
            assert(n as nat / 1nat == n as nat && n as nat % 1nat == 0);
            assert(q * s == q) by (nonlinear_arith)
                requires
                    s == 1,
            ;
        }
        assert(0 <= q * s <= a + s);
    }
    q * (step as u128)
}

/// A whole double: a number of at most fifty-three digits, and how often it is doubled.
#[derive(Clone, Copy, Debug, PartialEq, Eq, Structural)]
pub struct Double {
    pub digits: u64,
    pub exponent: u32,
}

impl Double {
    /// The number.
    pub open spec fn value(self) -> nat {
        self.digits as nat * pow2(self.exponent as nat)
    }

    /// The digits are within their limit, and all in use where the number is doubled.
    pub open spec fn wf(self) -> bool {
        &&& self.digits <= EXACT_DOUBLES
        &&& self.exponent > 0 && self.digits > 0 ==> self.digits >= FULL_DOUBLES
    }

    /// The double nearest to a whole number.
    pub fn from_whole(n: u128) -> (r: Self)
        requires
            n < u128::MAX,
        ensures
            r.wf(),
            r.value() == nearest_double(n as nat),
            n > 0 ==> r.digits > 0,
            r.exponent <= 75,
            n <= u64::MAX ==> r.exponent <= 11,
            n < EXACT_DOUBLES ==> r.digits == n && r.exponent == 0,
            n >= FULL_DOUBLES ==> r.digits >= FULL_DOUBLES,
    {
        let mut unit: u128 = 1;
        let mut exponent: u32 = 0;
        let mut q: u128 = n;
        proof {
            lemma2_to64();
            assert(n as nat / 1nat == n as nat);
        }
        while q >= EXACT_DOUBLES as u128
            invariant
                unit == pow2(exponent as nat),
                unit > 0,
                exponent <= 75,
                q as nat == n as nat / unit as nat,
                double_step(n as nat) == unit as nat * double_step(q as nat),
                exponent > 0 ==> q >= FULL_DOUBLES,
                exponent == 0 ==> q == n,
            decreases q,
        {
            proof {
                lemma_pow2_unfold((exponent + 1) as nat);
                let u = unit as int;
                lemma_fundamental_div_mod(n as int, u);
                lemma_mod_bound(n as int, u);
                assert(q as int * u <= n) by (nonlinear_arith)
                    requires
                        n as int == u * (q as int) + n as int % u,
                        n as int % u >= 0,
                ;
                assert(u * 9007199254740992 <= n) by (nonlinear_arith)
                    requires
                        q as int * u <= n,
                        q >= 9007199254740992,
                        u > 0,
                ;
                if exponent >= 75 {
                    lemma2_to64();
                    lemma_pow2_adds(64, 11);
                    assert(false);
                }
                lemma_div_denominator(n as int, u, 2);
                let s = double_step((q / 2) as nat);
                assert(unit as nat * (2 * s) == (unit * 2) as nat * s) by (nonlinear_arith);
            }
            q = q / 2;
            unit = unit * 2;
            exponent = exponent + 1;
        }
        let digits: u128 = rounded(n, unit);
        proof {
            assert(double_step(q as nat) == 1);
            assert(unit as nat * 1nat == unit as nat);
            if n <= u64::MAX && exponent > 11 {
                lemma2_to64();
                if exponent > 12 {
                    lemma_pow2_strictly_increases(12, exponent as nat);
                }
                let u = unit as int;
                lemma_fundamental_div_mod(n as int, u);
                lemma_mod_bound(n as int, u);
                assert(q as int * u <= n) by (nonlinear_arith)
                    requires
                        n as int == u * (q as int) + n as int % u,
                        n as int % u >= 0,
                ;
                assert(q as int * u >= 4503599627370496 * 4096) by (nonlinear_arith)
                    requires
                        q >= 4503599627370496,
                        u >= 4096,
                ;
                assert(false);
            }
            if exponent == 0 {
                assert(n as nat / 1nat == n as nat && n as nat % 1nat == 0);
            }
        }
        Double { digits: digits as u64, exponent }
    }

    /// The double nearest to a product.
    pub fn times(self, other: Double) -> (r: Self)
        requires
            self.wf(),
            other.wf(),
            self.exponent <= 1000,
            other.exponent <= 1000,
        ensures
            r.wf(),
            r.value() == nearest_double(self.value() * other.value()),
            r.exponent <= self.exponent + other.exponent + 75,
    {
        proof {
            assert(self.digits as int * other.digits as int <= 9007199254740992
                * 9007199254740992) by (nonlinear_arith)
                requires
                    self.digits <= 9007199254740992,
                    other.digits <= 9007199254740992,
            ;
        }
        let product: u128 = self.digits as u128 * other.digits as u128;
        let near = Double::from_whole(product);
        let shift: u32 = self.exponent + other.exponent;
        proof {
            let a = self.digits as nat;
            let b = other.digits as nat;
            let x = self.exponent as nat;
            let y = other.exponent as nat;
            lemma_pow2_adds(x, y);
            assert(self.value() * other.value() == product as nat * pow2(shift as nat)) by (
            nonlinear_arith)
                requires
                    self.value() == a * pow2(x),
                    other.value() == b * pow2(y),
                    product as nat == a * b,
                    pow2(shift as nat) == pow2(x) * pow2(y),
            ;
            lemma_nearest_scaled(product as nat, shift as nat);
            lemma_pow2_adds(near.exponent as nat, shift as nat);
            assert(near.digits as nat * (pow2(near.exponent as nat) * pow2(shift as nat))
                == near.value() * pow2(shift as nat)) by (nonlinear_arith)
                requires
                    near.value() == near.digits as nat * pow2(near.exponent as nat),
            ;
            if shift > 0 && a > 0 && b > 0 {
                assert(a * b >= 4503599627370496) by (nonlinear_arith)
                    requires
                        a >= 4503599627370496 && b >= 1 || b >= 4503599627370496 && a >= 1,
                ;
            }
            if a == 0 || b == 0 {
                assert(a * b == 0) by (nonlinear_arith)
                    requires
                        a == 0 || b == 0,
                ;
            }
        }
        Double { digits: near.digits, exponent: near.exponent + shift }
    }
}

proof fn lemma_half_even_scaled(a: nat, b: nat, f: nat)
    requires
        b > 0,
        f > 0,
    ensures
        b * f > 0,
        half_even(a * f, b * f) == half_even(a, b),
{
    let q = (a / b) as int;
    let r = (a % b) as int;
    lemma_fundamental_div_mod(a as int, b as int);
    lemma_mod_bound(a as int, b as int);
    assert(a * f == q * (b * f) + r * f && 0 <= r * f < b * f) by (nonlinear_arith)
        requires
            a == b * q + r,
            0 <= r < b,
            f > 0,
    ;
    lemma_fundamental_div_mod_converse((a * f) as int, (b * f) as int, q, r * f);
    assert((2 * r > b <==> 2 * (r * f) > b * f) && (2 * r == b <==> 2 * (r * f) == b * f))
        by (nonlinear_arith)
        requires
            f > 0,
    ;
}

/// A number and its double have the same digits.
proof fn lemma_nearest_doubled(n: nat)
    ensures
        nearest_double(2 * n) == 2 * nearest_double(n),
{
    lemma_step_positive(n);
    if 2 * n < EXACT_DOUBLES {
        assert(n / 1 == n && n % 1 == 0 && (2 * n) / 1 == 2 * n && (2 * n) % 1 == 0);
        assert(half_even(n, 1) == n && half_even(2 * n, 1) == 2 * n);
        assert(n * 1 == n && 2 * n * 1 == 2 * n);
    } else {
        assert((2 * n) / 2 == n);
        assert(double_step(2 * n) == 2 * double_step(n));
        lemma_half_even_scaled(n, double_step(n), 2);
        let h = half_even(n, double_step(n));
        let s = double_step(n);
        assert(h * (2 * s) == 2 * (h * s)) by (nonlinear_arith);
    }
}

proof fn lemma_step_positive(n: nat)
    ensures
        double_step(n) > 0,
    decreases n,
{
    if n >= EXACT_DOUBLES {
        lemma_step_positive(n / 2);
    }
}

proof fn lemma_nearest_scaled(n: nat, k: nat)
    ensures
        nearest_double(n * pow2(k)) == nearest_double(n) * pow2(k),
    decreases k,
{
    if k == 0 {
        lemma2_to64();
        assert(n * 1 == n && nearest_double(n) * 1 == nearest_double(n));
    } else {
        lemma_nearest_scaled(n, (k - 1) as nat);
        lemma_pow2_unfold(k);
        lemma_nearest_doubled(n * pow2((k - 1) as nat));
        let p = pow2((k - 1) as nat);
        assert(n * (2 * p) == 2 * (n * p)) by (nonlinear_arith);
        assert(nearest_double(n) * (2 * p) == 2 * (nearest_double(n) * p)) by (nonlinear_arith);
    }
}

proof fn lemma_halvings_scaled(n: nat, d: nat, f: nat)
    requires
        d > 0,
        f > 0,
    ensures
        halvings(n * f, d * f) == halvings(n, d),
    decreases n - d,
{
    assert(d * f > 0 && (n < EXACT_DOUBLES * d <==> n * f < EXACT_DOUBLES * (d * f)))
        by (nonlinear_arith)
        requires
            d > 0,
            f > 0,
    ;
    if n >= EXACT_DOUBLES * d {
        lemma_halvings_scaled(n, 2 * d, f);
        assert((2 * d) * f == 2 * (d * f)) by (nonlinear_arith);
    }
}

proof fn lemma_doublings_scaled(n: nat, d: nat, f: nat)
    requires
        f > 0,
    ensures
        doublings(n * f, d * f) == doublings(n, d),
    decreases 2 * (FULL_DOUBLES * d) - n,
{
    assert((n == 0 <==> n * f == 0) && (n >= FULL_DOUBLES * d <==> n * f >= FULL_DOUBLES * (d * f)))
        by (nonlinear_arith)
        requires
            f > 0,
    ;
    if n != 0 && n < FULL_DOUBLES * d {
        lemma_doublings_scaled(2 * n, d, f);
        assert((2 * n) * f == 2 * (n * f)) by (nonlinear_arith);
    }
}

/// A fraction can be shortened.
proof fn lemma_quotient_scaled(n: nat, d: nat, f: nat)
    requires
        d > 0,
        f > 0,
    ensures
        rounded_quotient(n * f, d * f) == rounded_quotient(n, d),
{
    lemma_halvings_scaled(n, d, f);
    lemma_doublings_scaled(n, d, f);
    let down = pow2(halvings(n, d));
    let up = pow2(doublings(n, d));
    lemma_pow2_pos(halvings(n, d));
    assert(d * down > 0) by (nonlinear_arith)
        requires
            d > 0,
            down > 0,
    ;
    lemma_half_even_scaled(n * up, d * down, f);
    assert((n * f) * up == (n * up) * f) by (nonlinear_arith);
    assert((d * f) * down == (d * down) * f) by (nonlinear_arith);
}

/// The state in which the halving of `n / d` ends.
proof fn lemma_halvings_end(n: nat, d: nat)
    requires
        d > 0,
    ensures
        n < EXACT_DOUBLES * (d * pow2(halvings(n, d))),
        halvings(n, d) > 0 ==> n >= FULL_DOUBLES * (d * pow2(halvings(n, d))),
        halvings(n, d) > 0 ==> doublings(n, d) == 0,
    decreases n - d,
{
    lemma2_to64();
    if n >= EXACT_DOUBLES * d {
        lemma_halvings_end(n, 2 * d);
        lemma_pow2_unfold(halvings(n, d));
        let p = pow2(halvings(n, 2 * d));
        assert((2 * d) * p == d * (2 * p)) by (nonlinear_arith);
        if halvings(n, 2 * d) == 0 {
            assert((2 * d) * 1 == 2 * d);
        }
    } else {
        assert(d * 1 == d);
    }
}

proof fn lemma_half_up_whole(a: nat)
    ensures
        half_up(a, 1) == a,
{
    lemma_fundamental_div_mod_converse((2 * a + 1) as int, 2, a as int, 1);
}

/// A large quotient stays large.
proof fn lemma_large_quotient(n: nat, d: nat)
    requires
        d > 0,
        n >= 0x2_0000_0000_0000_0000 * d,
    ensures
        rounded_quotient(n, d) >= 0x1_0000_0000_0000_0000,
{
    lemma_halvings_end(n, d);
    lemma2_to64();
    let down = pow2(halvings(n, d));
    let u = (d * down) as int;
    lemma_pow2_pos(halvings(n, d));
    assert(u > 0) by (nonlinear_arith)
        requires
            d > 0,
            down > 0,
            u == d * down,
    ;
    let q = n as int / u;
    lemma_fundamental_div_mod(n as int, u);
    lemma_mod_bound(n as int, u);
    let m = half_even(n * 1, d * down) as int;
    assert(m >= q);
    assert(q >= 4503599627370496) by (nonlinear_arith)
        requires
            n as int == u * q + n as int % u,
            n as int % u < u,
            n >= 4503599627370496 * u,
            u > 0,
    ;
    // d * down * (q + 1) > n >= 2^65 * d, so down * (q + 1) > 2^65.
    assert(down * (q + 1) >= 0x2_0000_0000_0000_0000) by (nonlinear_arith)
        requires
            n as int == u * q + n as int % u,
            n as int % u < u,
            u == d * down,
            n >= 0x2_0000_0000_0000_0000 * d,
            d > 0,
    ;
    assert(m * down >= 0x1_0000_0000_0000_0000) by (nonlinear_arith)
        requires
            m >= q,
            q >= 1,
            down > 0,
            down * (q + 1) >= 0x2_0000_0000_0000_0000,
    ;
    lemma_half_up_whole((m * down) as nat);
}

/// The whole number nearest to the double nearest to a quotient, or `most` where that is
/// less.
fn rounded_ratio(n: u128, d: u128, most: u64) -> (r: u64)
    requires
        0 < d <= 0x1_0000_0000_0000_0000,
        n <= 0x8000_0000_0000_0000_0000_0000_0000_0000,
    ensures
        r as nat == (if rounded_quotient(n as nat, d as nat) < most as nat {
            rounded_quotient(n as nat, d as nat)
        } else {
            most as nat
        }),
{
    let mut low: u128 = d;
    let mut down: u128 = 1;
    let ghost mut k: nat = 0;
    proof {
        lemma2_to64();
        assert(d as nat * 1nat == d as nat);
    }
    while n / low >= EXACT_DOUBLES as u128
        invariant
            0 < d <= low,
            n <= 0x8000_0000_0000_0000_0000_0000_0000_0000,
            down == pow2(k),
            down > 0,
            low as nat == d as nat * down as nat,
            halvings(n as nat, d as nat) == k + halvings(n as nat, low as nat),
            low == d || low as nat * FULL_DOUBLES <= n as nat,
        decreases n / low,
    {
        proof {
            let l = low as int;
            lemma_fundamental_div_mod(n as int, l);
            lemma_mod_bound(n as int, l);
            assert(n as int >= 9007199254740992 * l) by (nonlinear_arith)
                requires
                    n as int == l * (n as int / l) + n as int % l,
                    n as int % l >= 0,
                    n as int / l >= 9007199254740992,
                    l > 0,
            ;
            lemma_pow2_unfold(k + 1);
            assert(d as nat * (2 * down as nat) == 2 * low as nat) by (nonlinear_arith)
                requires
                    low as nat == d as nat * down as nat,
            ;
            assert(down <= low) by (nonlinear_arith)
                requires
                    low as nat == d as nat * down as nat,
                    d > 0,
            ;
            lemma_div_denominator(n as int, l, 2);
            k = k + 1;
        }
        low = low * 2;
        down = down * 2;
    }
    proof {
        let l = low as int;
        lemma_fundamental_div_mod(n as int, l);
        lemma_mod_bound(n as int, l);
        assert((n as int) < 9007199254740992 * l) by (nonlinear_arith)
            requires
                n as int == l * (n as int / l) + n as int % l,
                n as int % l < l,
                n as int / l < 9007199254740992,
                l > 0,
        ;
        assert(halvings(n as nat, low as nat) == 0);
        lemma_halvings_end(n as nat, d as nat);
    }
    let mut high: u128 = n;
    let mut up: u128 = 1;
    let ghost mut j: nat = 0;
    proof {
        lemma2_to64();
        assert(n as nat * 1nat == n as nat);
    }
    while high != 0 && high < FULL_DOUBLES as u128 * d
        invariant
            0 < d <= 0x1_0000_0000_0000_0000,
            n > 0 ==> high > 0,
            high == 0 ==> n == 0,
            up == pow2(j),
            up > 0,
            n > 0 ==> up <= high,
            high as nat == n as nat * up as nat,
            doublings(n as nat, d as nat) == j + doublings(high as nat, d as nat),
            high == n || high < 2 * (FULL_DOUBLES * d),
            n <= 0x8000_0000_0000_0000_0000_0000_0000_0000,
        decreases 2 * (FULL_DOUBLES * d) - high,
    {
        proof {
            lemma_pow2_unfold(j + 1);
            assert(n as nat * (2 * up as nat) == 2 * high as nat) by (nonlinear_arith)
                requires
                    high as nat == n as nat * up as nat,
            ;
            if n == 0 {
                assert(0nat * up as nat == 0);
            }
            j = j + 1;
        }
        high = high * 2;
        up = up * 2;
    }
    let digits: u128 = rounded(high, low);
    let ghost whole = rounded_quotient(n as nat, d as nat);
    proof {
        assert(doublings(high as nat, d as nat) == 0);
        assert(whole == half_up((digits * down) as nat, up as nat));
        if n == 0 {
            assert(0nat * up as nat == 0);
        }
        // The digits are within their limit.
        assert(high < 9007199254740992 * low as int) by (nonlinear_arith)
            requires
                n < 9007199254740992 * low as int,
                high == n || high < 2 * (4503599627370496 * d as int),
                d <= low,
        ;
        let l = low as int;
        lemma_fundamental_div_mod(high as int, l);
        lemma_mod_bound(high as int, l);
        assert(high as int / l < 9007199254740992) by (nonlinear_arith)
            requires
                high as int == l * (high as int / l) + high as int % l,
                high as int % l >= 0,
                high < 9007199254740992 * l,
                l > 0,
        ;
        assert(digits <= 9007199254740992);
    }
    if down > 2048 {
        proof {
            let l = low as int;
            assert(high as int / l >= 4503599627370496) by (nonlinear_arith)
                requires
                    high as int == l * (high as int / l) + high as int % l,
                    high as int % l < l,
                    high >= 4503599627370496 * l,
                    l > 0,
            ;
            if k < 12 {
                lemma_pow2_strictly_increases(k, 12);
            } else if k > 12 {
                lemma_pow2_strictly_increases(12, k);
            }
            lemma2_to64();
            assert(digits * down >= 4503599627370496 * 4096) by (nonlinear_arith)
                requires
                    digits >= 4503599627370496,
                    down >= 4096,
            ;
            lemma_half_up_whole((digits * down) as nat);
        }
        return most;
    }
    proof {
        assert(digits * down <= 9007199254740992 * 2048) by (nonlinear_arith)
            requires
                digits <= 9007199254740992,
                down <= 2048,
        ;
    }
    let share: u128 = (2 * (digits * down) + up) / (2 * up);
    if share < most as u128 {
        share as u64
    } else {
        most
    }
}

impl Double {
    /// The whole number nearest to the double nearest to a quotient, or `most` where that
    /// is less.
    pub fn ratio(self, other: Double, most: u64) -> (r: u64)
        requires
            self.wf(),
            other.wf(),
            other.digits > 0,
            other.exponent <= 11,
            self.exponent <= 1000,
        ensures
            r as nat == (if rounded_quotient(self.value(), other.value()) < most as nat {
                rounded_quotient(self.value(), other.value())
            } else {
                most as nat
            }),
    {
        let ghost a = self.digits as nat;
        let ghost b = other.digits as nat;
        let ghost x = self.exponent as nat;
        let ghost y = other.exponent as nat;
        if self.exponent <= other.exponent {
            let shift: u32 = other.exponent - self.exponent;
            let unit: u128 = power(shift);
            proof {
                lemma_pow2_adds(shift as nat, x);
                lemma_pow2_pos(x);
                lemma_pow2_pos(shift as nat);
                assert(0 < b * unit as nat <= 9007199254740992 * 2048) by (nonlinear_arith)
                    requires
                        0 < b <= 9007199254740992,
                        0 < unit <= 2048,
                ;
                assert(other.value() == (b * unit as nat) * pow2(x)) by (nonlinear_arith)
                    requires
                        other.value() == b * pow2(y),
                        pow2(y) == unit as nat * pow2(x),
                ;
                lemma_quotient_scaled(a, b * unit as nat, pow2(x));
            }
            return rounded_ratio(self.digits as u128, other.digits as u128 * unit, most);
        }
        let shift: u32 = self.exponent - other.exponent;
        let ghost n = a * pow2(shift as nat);
        proof {
            lemma_pow2_adds(shift as nat, y);
            lemma_pow2_pos(y);
            assert(self.value() == n * pow2(y)) by (nonlinear_arith)
                requires
                    self.value() == a * pow2(x),
                    pow2(x) == pow2(shift as nat) * pow2(y),
                    n == a * pow2(shift as nat),
            ;
            lemma_quotient_scaled(n, b, pow2(y));
        }
        if self.digits == 0 {
            proof {
                assert(n == 0) by (nonlinear_arith)
                    requires
                        n == a * pow2(shift as nat),
                        a == 0,
                ;
            }
            return rounded_ratio(0, other.digits as u128, most);
        }
        if shift > 74 {
            proof {
                lemma2_to64();
                lemma_pow2_adds(64, 10);
                lemma_pow2_strictly_increases(74, shift as nat);
                assert(n >= 0x2_0000_0000_0000_0000 * b) by (nonlinear_arith)
                    requires
                        n == a * pow2(shift as nat),
                        a >= 4503599627370496,
                        pow2(shift as nat) >= 0x1_0000_0000_0000_0000 * 1024,
                        b <= 9007199254740992,
                ;
                lemma_large_quotient(n, b);
            }
            return most;
        }
        let unit: u128 = power(shift);
        proof {
            lemma2_to64();
            lemma_pow2_adds(64, 10);
            assert(a * unit as nat <= 9007199254740992 * (0x1_0000_0000_0000_0000 * 1024)) by (
            nonlinear_arith)
                requires
                    a <= 9007199254740992,
                    unit <= 0x1_0000_0000_0000_0000 * 1024,
            ;
        }
        rounded_ratio(self.digits as u128 * unit, other.digits as u128, most)
    }
}

fn power(k: u32) -> (r: u128)
    requires
        k <= 74,
    ensures
        r == pow2(k as nat),
        r <= 0x1_0000_0000_0000_0000 * 1024,
        k <= 11 ==> r <= 2048,
{
    let mut r: u128 = 1;
    let mut i: u32 = 0;
    proof {
        lemma2_to64();
        lemma_pow2_adds(64, 10);
        if k < 74 {
            lemma_pow2_strictly_increases(k as nat, 74);
        }
        if k < 11 {
            lemma_pow2_strictly_increases(k as nat, 11);
        }
    }
    while i < k
        invariant
            i <= k,
            r == pow2(i as nat),
            pow2(k as nat) <= 0x1_0000_0000_0000_0000 * 1024,
        decreases k - i,
    {
        proof {
            lemma_pow2_unfold((i + 1) as nat);
            lemma_pow2_strictly_increases(i as nat, k as nat);
        }
        r = r * 2;
        i = i + 1;
    }
    r
}

proof fn lemma_doublings_end(n: nat, d: nat)
    requires
        n > 0,
    ensures
        n * pow2(doublings(n, d)) >= FULL_DOUBLES * d,
    decreases 2 * (FULL_DOUBLES * d) - n,
{
    lemma2_to64();
    if n < FULL_DOUBLES * d {
        lemma_doublings_end(2 * n, d);
        lemma_pow2_unfold(doublings(n, d));
        let p = pow2(doublings(2 * n, d));
        assert((2 * n) * p == n * (2 * p)) by (nonlinear_arith);
    } else {
        assert(n * 1 == n);
    }
}

/// Small numbers are their own doubles.
pub proof fn lemma_small_double(n: nat)
    requires
        n < EXACT_DOUBLES,
    ensures
        nearest_double(n) == n,
{
    assert(n / 1 == n && n % 1 == 0);
    assert(half_even(n, 1) == n);
    assert(n * 1 == n);
}

/// Where a quotient has a small numerator, the way over its double does not matter: the
/// result is the whole number nearest to the quotient itself.
pub proof fn law_small_quotients_are_plain(n: nat, d: nat)
    requires
        n < FULL_DOUBLES,
        d > 0,
    ensures
        rounded_quotient(n, d) == half_up(n, d),
{
    lemma2_to64();
    assert(n < EXACT_DOUBLES * d) by (nonlinear_arith)
        requires
            n < 9007199254740992,
            d > 0,
    ;
    let j = doublings(n, d);
    let up = pow2(j);
    lemma_pow2_pos(j);
    assert(d * 1 == d);
    let m = half_even(n * up, d);
    assert(rounded_quotient(n, d) == half_up(m * 1, up));
    assert(m * 1 == m);
    if n == 0 {
        assert(0 * up == 0);
        assert(0nat / d == 0 && 0nat % d == 0) by {
            lemma_fundamental_div_mod_converse(0, d as int, 0, 0);
        }
        lemma_fundamental_div_mod_converse(up as int, 2 * up as int, 0, up as int);
        lemma_fundamental_div_mod_converse(d as int, 2 * d as int, 0, d as int);
    } else {
        lemma_doublings_end(n, d);
        assert(up > d) by (nonlinear_arith)
            requires
                n * up >= 4503599627370496 * d,
                n < 4503599627370496,
                d > 0,
        ;
        if j == 0 {
            assert(false);
        }
        lemma_pow2_unfold(j);
        let half = pow2((j - 1) as nat) as int;
        let k = half_up(n, d) as int;
        let e = d as int;
        let a = (n * up) as int;
        lemma_fundamental_div_mod((2 * n + d) as int, 2 * e);
        lemma_mod_bound((2 * n + d) as int, 2 * e);
        let rest = (2 * n + d) as int % (2 * e);
        assert((2 * k - 1) * e <= 2 * n && 2 * n + 1 <= (2 * k + 1) * e) by (nonlinear_arith)
            requires
                2 * n + d == (2 * e) * k + rest,
                0 <= rest < 2 * e,
                e == d,
        ;
        lemma_fundamental_div_mod(a, e);
        lemma_mod_bound(a, e);
        let q = a / e;
        let r = a % e;
        let low = (2 * k - 1) * half;
        let high = (2 * k + 1) * half;
        assert(low * e <= a) by (nonlinear_arith)
            requires
                (2 * k - 1) * e <= 2 * n,
                a == n * up,
                up == 2 * half,
                low == (2 * k - 1) * half,
                half >= 0,
        ;
        assert(2 * a + up <= 2 * high * e) by (nonlinear_arith)
            requires
                2 * n + 1 <= (2 * k + 1) * e,
                a == n * up,
                up == 2 * half,
                high == (2 * k + 1) * half,
                half >= 0,
        ;
        assert(q >= low) by (nonlinear_arith)
            requires
                a == e * q + r,
                r < e,
                low * e <= a,
                e > 0,
        ;
        assert(q <= high - 1) by (nonlinear_arith)
            requires
                a == e * q + r,
                r >= 0,
                2 * a < 2 * high * e,
                e > 0,
        ;
        if q == high - 1 {
            assert(2 * r < e) by (nonlinear_arith)
                requires
                    a == e * q + r,
                    q == high - 1,
                    2 * a + up <= 2 * high * e,
                    up > e,
            ;
        }
        assert(low <= m < high);
        let x = (2 * m + up) as int;
        let y = 2 * up as int;
        assert(y * k <= x < y * k + y) by (nonlinear_arith)
            requires
                x == 2 * m + up,
                y == 2 * up,
                up == 2 * half,
                (2 * k - 1) * half <= m < (2 * k + 1) * half,
        ;
        lemma_fundamental_div_mod_converse(x, y, k, x - y * k);
    }
}

/// Rounding gives the nearest whole number: no more than half a unit away, and even where
/// two are equally near.
pub proof fn law_rounding_is_nearest(a: nat, b: nat)
    requires
        b > 0,
    ensures
        2 * a <= 2 * (half_even(a, b) * b) + b,
        2 * (half_even(a, b) * b) <= 2 * a + b,
        2 * a == 2 * (half_even(a, b) * b) + b ==> half_even(a, b) % 2 == 0,
        2 * (half_even(a, b) * b) == 2 * a + b ==> half_even(a, b) % 2 == 0,
{
    let q = a / b;
    let r = a % b;
    lemma_fundamental_div_mod(a as int, b as int);
    assert(a == b * q + r);
    assert(b * q == q * b) by (nonlinear_arith);
    assert((q + 1) * b == q * b + b) by (nonlinear_arith);
    lemma_mod_bound(a as int, b as int);
}

/// Whole multiples are not rounded.
pub proof fn law_multiples_are_exact(n: nat, b: nat)
    requires
        b > 0,
    ensures
        half_even(n * b, b) == n,
{
    lemma_fundamental_div_mod_converse((n * b) as int, b as int, n as int, 0);
}

} // verus!
