//! Binary64 numbers in integer form.
//!
//! A finite number is a whole multiple of the smallest one, `2^-1074`; that
//! multiple, with the sign, is its view. Every operation rounds the exact
//! result to the nearest number, ties to the even one.

use vstd::arithmetic::div_mod::{
    lemma_div_is_ordered, lemma_fundamental_div_mod, lemma_fundamental_div_mod_converse_div,
    lemma_fundamental_div_mod_converse_mod,
};
use vstd::arithmetic::power2::{
    lemma2_to64, lemma2_to64_rest, lemma_pow2_adds, lemma_pow2_pos, lemma_pow2_strictly_increases, lemma_pow2_unfold,
    pow2,
};
use vstd::prelude::*;

use crate::digits::{five_to, text, times_powers};
use crate::strings::{decimal, decimal_of};

verus! {

// ---------------------------------------------------------------------------
// Model
// ---------------------------------------------------------------------------

/// A binary64 value: the sign and the magnitude in units of `2^-1074`, or
/// one of the values that are not finite.
pub enum Dbl {
    Fin(bool, nat),
    Inf(bool),
    Nan,
}

/// The number of units in `1`.
pub open spec fn one() -> nat {
    pow2(1074)
}

/// The number of binary digits of `q`.
pub open spec fn bits(q: nat) -> nat
    decreases q,
{
    if q == 0 {
        0
    } else {
        1 + bits(q / 2)
    }
}

/// The distance between neighbouring magnitudes around `q` units, as a power
/// of two: a magnitude has at most 53 significant binary digits.
pub open spec fn step_exp(q: nat) -> nat {
    if bits(q) > 53 {
        (bits(q) - 53) as nat
    } else {
        0
    }
}

/// The magnitude nearest to `num / den` units, ties to the even one.
pub open spec fn nearest(num: nat, den: nat) -> nat {
    let step = pow2(step_exp(num / den));
    let k = num / (den * step);
    let twice = 2 * (num - k * (den * step));
    if twice > den * step || (twice == den * step && k % 2 == 1) {
        (k + 1) * step
    } else {
        k * step
    }
}

/// `num / den` units rounded, with the given sign.
#[verifier::opaque]
pub open spec fn rounded(neg: bool, num: nat, den: nat) -> Dbl {
    let u = nearest(num, den);
    if u >= pow2(2098) {
        Dbl::Inf(neg)
    } else {
        Dbl::Fin(neg, u)
    }
}

/// The signed number of units.
pub open spec fn signed(neg: bool, u: nat) -> int {
    if neg {
        -(u as int)
    } else {
        u as int
    }
}

/// An integer as a binary64 value.
#[verifier::opaque]
pub open spec fn of_int(n: int) -> Dbl {
    if n < 0 {
        rounded(true, ((-n) * one()) as nat, 1)
    } else {
        rounded(false, (n * one()) as nat, 1)
    }
}

// ---------------------------------------------------------------------------
// Rounding lemmas
// ---------------------------------------------------------------------------

proof fn lemma_bits_bounds(q: nat)
    ensures
        q < pow2(bits(q)),
        q > 0 ==> bits(q) > 0 && pow2((bits(q) - 1) as nat) <= q,
        q == 0 ==> bits(q) == 0,
    decreases q,
{
    lemma2_to64();
    if q > 0 {
        lemma_bits_bounds(q / 2);
        lemma_pow2_unfold(bits(q));
        if q / 2 > 0 {
            lemma_pow2_unfold((bits(q) - 1) as nat);
        }
    }
}

proof fn lemma_bits_are(q: nat, b: nat)
    requires
        b > 0,
        pow2((b - 1) as nat) <= q < pow2(b),
    ensures
        bits(q) == b,
    decreases b,
{
    lemma2_to64();
    lemma_pow2_pos((b - 1) as nat);
    if b == 1 {
        assert(q == 1);
        assert(bits(0) == 0);
    } else {
        lemma_pow2_unfold(b);
        lemma_pow2_unfold((b - 1) as nat);
        lemma_bits_are(q / 2, (b - 1) as nat);
    }
}

proof fn lemma_pow2_monotonic(a: nat, b: nat)
    requires
        a <= b,
    ensures
        pow2(a) <= pow2(b),
{
    if a < b {
        lemma_pow2_strictly_increases(a, b);
    }
}

proof fn lemma_quotient(num: int, m: int, k: int)
    requires
        m > 0,
        k * m <= num < (k + 1) * m,
    ensures
        num / m == k,
        num % m == num - k * m,
{
    assert((k + 1) * m == k * m + m) by (nonlinear_arith);
    lemma_fundamental_div_mod_converse_div(num, m, k, num - k * m);
    lemma_fundamental_div_mod_converse_mod(num, m, k, num - k * m);
}

/// `num / den` lies in the cell of width `2^(a-b)` that starts at
/// `n * 2^(a-b)`, strictly inside when `strict`, at its start otherwise.
spec fn in_cell(num: nat, den: nat, n: nat, a: nat, b: nat, strict: bool) -> bool {
    &&& den > 0
    &&& n * pow2(a) * den <= num * pow2(b)
    &&& num * pow2(b) < (n + 1) * pow2(a) * den
    &&& strict <==> n * pow2(a) * den != num * pow2(b)
}

/// The step exponent that the cell's digits and position give.
spec fn cell_step(n: nat, a: nat, b: nat) -> nat {
    if bits(n) + a > 53 + b {
        (bits(n) + a - 53 - b) as nat
    } else {
        0
    }
}

proof fn lemma_cell_step(num: nat, den: nat, n: nat, a: nat, b: nat, strict: bool)
    requires
        n > 0,
        in_cell(num, den, n, a, b, strict),
    ensures
        step_exp(num / den) == cell_step(n, a, b),
{
    let l = bits(n);
    let pa = pow2(a);
    let pb = pow2(b);
    let q = num / den;
    lemma_bits_bounds(n);
    lemma_pow2_pos(a);
    lemma_pow2_pos(b);
    let hi = pow2(l);
    // num * pb < hi * pa * den
    assert(num * pb < hi * pa * den) by (nonlinear_arith)
        requires
            num * pb < (n + 1) * pa * den,
            n + 1 <= hi,
            pa > 0,
            den > 0,
    ;
    lemma_pow2_adds(l, a);
    lemma_fundamental_div_mod(num as int, den as int);
    if l + a > b {
        let e = (l + a - b) as nat;
        lemma_pow2_adds(e, b);
        let pe = pow2(e);
        assert(num < pe * den) by (nonlinear_arith)
            requires
                num * pb < hi * pa * den,
                hi * pa == pe * pb,
                pb > 0,
        ;
        assert(q < pe) by (nonlinear_arith)
            requires
                num < pe * den,
                num == den * q + num % den,
                num % den >= 0,
                den > 0,
        ;
        let lo = pow2((l - 1) as nat);
        lemma_pow2_adds((l - 1) as nat, a);
        lemma_pow2_adds((e - 1) as nat, b);
        let pe1 = pow2((e - 1) as nat);
        assert(pe1 * den <= num) by (nonlinear_arith)
            requires
                n * pa * den <= num * pb,
                lo <= n,
                lo * pa == pe1 * pb,
                pb > 0,
                pa > 0,
                den > 0,
        ;
        assert(pe1 <= q) by (nonlinear_arith)
            requires
                pe1 * den <= num,
                num == den * q + num % den,
                num % den < den,
                den > 0,
        ;
        lemma_bits_are(q, e);
    } else {
        lemma_pow2_monotonic((l + a) as nat, b);
        assert(num < den) by (nonlinear_arith)
            requires
                num * pb < hi * pa * den,
                hi * pa <= pb,
                pb > 0,
                den > 0,
        ;
        assert(q == 0) by {
            lemma_quotient(num as int, den as int, 0);
        }
        assert(bits(0) == 0);
    }
}

/// The rounding of a value in a cell that is narrower than the step.
proof fn lemma_cell_rounds(num: nat, den: nat, n: nat, a: nat, b: nat, strict: bool, d: nat)
    requires
        n > 0,
        in_cell(num, den, n, a, b, strict),
        d >= 1,
        cell_step(n, a, b) + b == a + d,
    ensures
        ({
            let k = n / pow2(d);
            let rem = n % pow2(d);
            let half = pow2((d - 1) as nat);
            let up = rem > half || (rem == half && (strict || k % 2 == 1));
            nearest(num, den) == (if up { k + 1 } else { k }) * pow2(cell_step(n, a, b))
        }),
{
    lemma_cell_step(num, den, n, a, b, strict);
    let s = cell_step(n, a, b);
    let pa = pow2(a);
    let pb = pow2(b);
    let ps = pow2(s);
    let pd = pow2(d);
    let half = pow2((d - 1) as nat);
    lemma_pow2_pos(a);
    lemma_pow2_pos(b);
    lemma_pow2_pos(s);
    lemma_pow2_pos(d);
    lemma_pow2_pos((d - 1) as nat);
    lemma_pow2_adds(s, b);
    lemma_pow2_adds(a, d);
    lemma_pow2_unfold(d);
    assert(ps * pb == pa * pd);
    let k = n / pd;
    let rem = n % pd;
    lemma_fundamental_div_mod(n as int, pd as int);
    let m = den * ps;
    assert(m > 0) by (nonlinear_arith)
        requires
            den > 0,
            ps > 0,
            m == den * ps,
    ;
    // Everything times pb: m * pb == den * pa * pd.
    let u = den * pa;
    assert(u > 0) by (nonlinear_arith)
        requires
            den > 0,
            pa > 0,
            u == den * pa,
    ;
    assert(m * pb == u * pd) by (nonlinear_arith)
        requires
            m == den * ps,
            u == den * pa,
            ps * pb == pa * pd,
    ;
    assert(n * pa * den == n * u && (n + 1) * pa * den == n * u + u) by (nonlinear_arith)
        requires
            u == den * pa,
    ;
    let x = num * pb;
    assert(n * u <= x < n * u + u);
    assert(n * u == u * pd * k + u * rem) by (nonlinear_arith)
        requires
            n == pd * k + rem,
    ;
    assert(k * m <= num) by (nonlinear_arith)
        requires
            u * pd * k + u * rem <= x,
            u * rem >= 0,
            x == num * pb,
            m * pb == u * pd,
            pb > 0,
    {
        assert(k * (m * pb) <= num * pb);
        assert(k * m * pb <= num * pb);
    }
    assert(u * rem + u <= u * pd) by (nonlinear_arith)
        requires
            rem + 1 <= pd,
            u > 0,
    ;
    assert(num < (k + 1) * m) by (nonlinear_arith)
        requires
            x < u * pd * k + u * rem + u,
            u * rem + u <= u * pd,
            x == num * pb,
            m * pb == u * pd,
            pb > 0,
    {
        assert(num * pb < (k + 1) * (m * pb));
        assert(num * pb < ((k + 1) * m) * pb);
    }
    lemma_quotient(num as int, m as int, k as int);
    // Comparing twice the rest with m is comparing x with u * (n - rem + half).
    let twice = 2 * (num - k * m);
    assert(twice * pb == 2 * x - 2 * (u * pd * k)) by (nonlinear_arith)
        requires
            twice == 2 * (num - k * m),
            x == num * pb,
            m * pb == u * pd,
    ;
    assert(u * pd == 2 * (u * half)) by (nonlinear_arith)
        requires
            pd == 2 * half,
    ;
    // twice * pb - m * pb == 2 * (x - u*pd*k - u*half)
    let gap = x - u * pd * k - u * half;
    assert((twice - m) * pb == 2 * gap) by (nonlinear_arith)
        requires
            twice * pb == 2 * x - 2 * (u * pd * k),
            m * pb == u * pd,
            u * pd == 2 * (u * half),
            gap == x - u * pd * k - u * half,
    ;
    if rem > half {
        assert(u * rem >= u * half + u) by (nonlinear_arith)
            requires
                rem >= half + 1,
                u > 0,
        ;
        assert(gap > 0);
    } else if rem < half {
        assert(u * rem + u <= u * half) by (nonlinear_arith)
            requires
                rem + 1 <= half,
                u > 0,
        ;
        assert(gap < 0);
    } else {
        assert(strict ==> gap > 0);
        assert(!strict ==> gap == 0);
    }
    assert(gap > 0 ==> twice > m) by (nonlinear_arith)
        requires
            (twice - m) * pb == 2 * gap,
            pb > 0,
    ;
    assert(gap == 0 ==> twice == m) by (nonlinear_arith)
        requires
            (twice - m) * pb == 2 * gap,
            pb > 0,
    ;
    assert(gap < 0 ==> twice < m) by (nonlinear_arith)
        requires
            (twice - m) * pb == 2 * gap,
            pb > 0,
    ;
}

/// A value that needs no rounding.
proof fn lemma_exact(num: nat, den: nat, n: nat, a: nat, b: nat)
    requires
        n > 0,
        in_cell(num, den, n, a, b, false),
        cell_step(n, a, b) + b <= a,
    ensures
        nearest(num, den) == n * pow2((a - b) as nat),
{
    lemma_cell_step(num, den, n, a, b, false);
    let s = cell_step(n, a, b);
    let e = (a - b) as nat;
    let r = (e - s) as nat;
    let pb = pow2(b);
    let ps = pow2(s);
    let pe = pow2(e);
    let pr = pow2(r);
    lemma_pow2_pos(b);
    lemma_pow2_pos(s);
    lemma_pow2_adds(e, b);
    lemma_pow2_adds(r, s);
    assert(num == n * pe * den) by (nonlinear_arith)
        requires
            n * pow2(a) * den == num * pb,
            pow2(a) == pe * pb,
            pb > 0,
    {
        assert((n * pe * den) * pb == num * pb);
    }
    let m = den * ps;
    assert(m > 0) by (nonlinear_arith)
        requires
            den > 0,
            ps > 0,
            m == den * ps,
    ;
    let k = n * pr;
    assert(k * m == num) by (nonlinear_arith)
        requires
            num == n * pe * den,
            pe == pr * ps,
            k == n * pr,
            m == den * ps,
    ;
    assert((k + 1) * m == k * m + m) by (nonlinear_arith);
    lemma_quotient(num as int, m as int, k as int);
    assert(k * ps == n * pe) by (nonlinear_arith)
        requires
            pe == pr * ps,
            k == n * pr,
    ;
}

// ---------------------------------------------------------------------------
// Numbers
// ---------------------------------------------------------------------------

/// A finite binary64 number: `mant * 2^exp` with a sign. The mantissa has 53
/// binary digits, or fewer at the smallest exponent.
#[derive(Clone, Copy, Debug)]
pub struct Finite {
    neg: bool,
    mant: u64,
    exp: i32,
}

/// A binary64 number.
#[derive(Clone, Copy, Debug)]
pub enum Double {
    Finite(Finite),
    Infinite(bool),
    Nan,
}

impl Finite {
    #[verifier::type_invariant]
    spec fn wf(self) -> bool {
        &&& self.mant < 0x20_0000_0000_0000
        &&& -1074 <= self.exp <= 971
        &&& self.mant >= 0x10_0000_0000_0000 || self.exp == -1074
    }

    /// The sign.
    pub closed spec fn negative(self) -> bool {
        self.neg
    }

    /// The magnitude in units.
    pub closed spec fn units(self) -> nat {
        self.mant as nat * pow2((self.exp + 1074) as nat)
    }
}

impl View for Finite {
    type V = Dbl;

    open spec fn view(&self) -> Dbl {
        Dbl::Fin(self.negative(), self.units())
    }
}

impl View for Double {
    type V = Dbl;

    open spec fn view(&self) -> Dbl {
        match *self {
            Double::Finite(f) => f@,
            Double::Infinite(n) => Dbl::Inf(n),
            Double::Nan => Dbl::Nan,
        }
    }
}

proof fn lemma_pow2_u128()
    ensures
        pow2(52) == 0x10_0000_0000_0000,
        pow2(53) == 0x20_0000_0000_0000,
        pow2(54) == 0x40_0000_0000_0000,
        pow2(64) == 0x1_0000_0000_0000_0000,
        pow2(126) == 0x4000_0000_0000_0000_0000_0000_0000_0000,
        pow2(127) == 0x8000_0000_0000_0000_0000_0000_0000_0000,
{
    lemma2_to64();
    lemma2_to64_rest();
    lemma_pow2_adds(63, 63);
    lemma_pow2_adds(64, 63);
    assert(0x8000_0000_0000_0000 * 0x8000_0000_0000_0000 == 0x4000_0000_0000_0000_0000_0000_0000_0000) by (nonlinear_arith);
    assert(0x1_0000_0000_0000_0000 * 0x8000_0000_0000_0000 == 0x8000_0000_0000_0000_0000_0000_0000_0000) by (nonlinear_arith);
}

/// A power of two.
fn power(d: u32) -> (r: u128)
    requires
        d <= 127,
    ensures
        r == pow2(d as nat),
        r > 0,
{
    let mut r: u128 = 1;
    let mut i: u32 = 0;
    proof {
        lemma2_to64();
    }
    while i < d
        invariant
            i <= d <= 127,
            r == pow2(i as nat),
            r > 0,
        decreases d - i,
    {
        proof {
            lemma_pow2_unfold((i + 1) as nat);
            lemma_pow2_monotonic((i + 1) as nat, 127);
            lemma_pow2_u128();
        }
        r = r * 2;
        i += 1;
    }
    r
}

/// The number of binary digits of `n`.
fn bit_length(n: u128) -> (r: u32)
    ensures
        r == bits(n as nat),
        r <= 128,
{
    let mut m: u128 = n;
    let mut r: u32 = 0;
    proof {
        lemma_bits_bounds(n as nat);
        lemma_pow2_u128();
        lemma_pow2_unfold(128);
        if bits(n as nat) > 128 {
            lemma_pow2_monotonic(128, (bits(n as nat) - 1) as nat);
        }
    }
    while m > 0
        invariant
            r + bits(m as nat) == bits(n as nat),
            bits(n as nat) <= 128,
        decreases m,
    {
        m = m / 2;
        r += 1;
    }
    r
}

/// The number with mantissa `mant` and exponent `exp`, or an infinity.
fn assemble(neg: bool, mant: u64, exp: i32) -> (r: Double)
    requires
        mant < 0x20_0000_0000_0000,
        -1074 <= exp <= 5000,
        mant >= 0x10_0000_0000_0000 || exp == -1074,
    ensures
        ({
            let u = mant as nat * pow2((exp + 1074) as nat);
            r@ == (if u >= pow2(2098) {
                Dbl::Inf(neg)
            } else {
                Dbl::Fin(neg, u)
            })
        }),
{
    proof {
        lemma_pow2_u128();
        let s = (exp + 1074) as nat;
        let p = pow2(s);
        let m = mant as nat;
        lemma_pow2_pos(s);
        if exp > 971 {
            lemma_pow2_adds(52, 2046);
            lemma_pow2_monotonic(2046, s);
            assert(m * p >= pow2(52) * pow2(2046)) by (nonlinear_arith)
                requires
                    m >= pow2(52),
                    p >= pow2(2046),
            ;
        } else {
            lemma_pow2_adds(53, 2045);
            lemma_pow2_monotonic(s, 2045);
            lemma_pow2_pos(2045);
            assert(m * p < pow2(53) * pow2(2045)) by (nonlinear_arith)
                requires
                    m < pow2(53),
                    p <= pow2(2045),
                    p > 0,
            ;
        }
    }
    if exp > 971 {
        Double::Infinite(neg)
    } else {
        Double::Finite(Finite { neg, mant, exp })
    }
}

/// Rounds the value in the cell `n * 2^exp`, strictly inside it when `strict`.
fn pack(neg: bool, n: u128, exp: i32, strict: bool, Ghost(num): Ghost<nat>, Ghost(den): Ghost<nat>) -> (r: Double)
    requires
        n < 0x8000_0000_0000_0000_0000_0000_0000_0000,
        -3500 <= exp <= 3500,
        strict ==> n >= 0x40_0000_0000_0000,
        in_cell(num, den, n as nat, (exp + 5074) as nat, 4000, strict),
    ensures
        r@ == rounded(neg, num, den),
{
    proof {
        reveal(rounded);
    }
    let ghost a = (exp + 5074) as nat;
    proof {
        lemma_pow2_u128();
        lemma_pow2_pos(4000);
        lemma_pow2_pos(a);
        lemma2_to64();
        lemma_pow2_pos(2098);
    }
    if n == 0 {
        proof {
            assert(num == 0) by (nonlinear_arith)
                requires
                    0 * pow2(a) * den == num * pow2(4000),
                    pow2(4000) > 0,
            ;
            assert(0 * den as int <= 0 < (0 + 1) * den as int) by (nonlinear_arith)
                requires
                    den > 0,
            ;
            lemma_quotient(0, den as int, 0);
            assert(bits(0) == 0);
            assert(den * pow2(0) == den) by (nonlinear_arith)
                requires
                    pow2(0) == 1,
            ;
            assert(nearest(num, den) == 0);
            assert(0 * pow2(0) == 0);
        }
        return Double::Finite(Finite { neg, mant: 0, exp: -1074 });
    }
    let len = bit_length(n);
    let ghost l = bits(n as nat);
    proof {
        lemma_bits_bounds(n as nat);
        if l >= 128 {
            lemma_pow2_monotonic(127, (l - 1) as nat);
        }
        if strict && l < 55 {
            lemma_pow2_monotonic(l, 54);
        }
    }
    let by_len: i32 = exp + len as i32 - 53;
    let target: i32 = if by_len > -1074 {
        by_len
    } else {
        -1074
    };
    let ghost s = cell_step(n as nat, a, 4000);
    assert(s == target + 1074);
    if target <= exp {
        let up_by = (exp - target) as u32;
        proof {
            lemma_exact(num, den, n as nat, a, 4000);
            lemma_pow2_adds(up_by as nat, s);
            lemma_pow2_adds(l, up_by as nat);
            lemma_pow2_monotonic(l + up_by as nat, 53);
            lemma_pow2_pos(up_by as nat);
            let pu = pow2(up_by as nat);
            assert(n * pu < pow2(l) * pu) by (nonlinear_arith)
                requires
                    (n as nat) < pow2(l),
                    pu > 0,
            ;
            assert(n * pow2((a - 4000) as nat) == (n * pu) * pow2(s)) by (nonlinear_arith)
                requires
                    pow2((a - 4000) as nat) == pu * pow2(s),
            ;
            if target > -1074 {
                lemma_pow2_adds((l - 1) as nat, up_by as nat);
                assert(n * pu >= pow2((l - 1) as nat) * pu) by (nonlinear_arith)
                    requires
                        n >= pow2((l - 1) as nat),
                        pu > 0,
                ;
            }
            assert(1 * pu <= n * pu) by (nonlinear_arith)
                requires
                    n >= 1,
                    pu > 0,
            ;
        }
        let mant = n * power(up_by);
        return assemble(neg, mant as u64, target);
    }
    let down_by = (target - exp) as u32;
    let ghost d = down_by as nat;
    proof {
        lemma_cell_rounds(num, den, n as nat, a, 4000, strict, d);
        lemma_pow2_pos(d);
    }
    if down_by >= 128 {
        proof {
            lemma_pow2_monotonic(127, (d - 1) as nat);
            lemma_pow2_monotonic(127, d);
            lemma_quotient(n as int, pow2(d) as int, 0);
            assert(0 * pow2(s) == 0);
        }
        return Double::Finite(Finite { neg, mant: 0, exp: -1074 });
    }
    let p = power(down_by);
    let k = n / p;
    let rem = n % p;
    let half = p / 2;
    proof {
        lemma_pow2_unfold(d);
        lemma_fundamental_div_mod(n as int, p as int);
        lemma_pow2_adds(53, d);
        lemma_pow2_monotonic(l, 53 + d);
        assert(k < pow2(53)) by (nonlinear_arith)
            requires
                n == p * k + rem,
                rem >= 0,
                p == pow2(d),
                n < pow2(53) * pow2(d),
                p > 0,
        ;
        if target > -1074 {
            lemma_pow2_adds(52, d);
            assert(k >= pow2(52)) by (nonlinear_arith)
                requires
                    n == p * k + rem,
                    rem < p,
                    p == pow2(d),
                    n >= pow2(52) * pow2(d),
                    p > 0,
            ;
        }
    }
    let up = rem > half || (rem == half && (strict || k % 2 == 1));
    let rounded_k: u64 = if up {
        k as u64 + 1
    } else {
        k as u64
    };
    if rounded_k == 0x20_0000_0000_0000 {
        proof {
            lemma_pow2_unfold((s + 1) as nat);
            assert(rounded_k as nat * pow2(s) == 0x10_0000_0000_0000 * pow2((s + 1) as nat)) by (nonlinear_arith)
                requires
                    pow2((s + 1) as nat) == 2 * pow2(s),
                    rounded_k == 0x20_0000_0000_0000,
            ;
        }
        assemble(neg, 0x10_0000_0000_0000, target + 1)
    } else {
        assemble(neg, rounded_k, target)
    }
}

// ---------------------------------------------------------------------------
// Arithmetic
// ---------------------------------------------------------------------------

pub open spec fn negated(x: Dbl) -> Dbl {
    match x {
        Dbl::Fin(n, u) => Dbl::Fin(!n, u),
        Dbl::Inf(n) => Dbl::Inf(!n),
        Dbl::Nan => Dbl::Nan,
    }
}

#[verifier::opaque]
pub open spec fn plus(x: Dbl, y: Dbl) -> Dbl {
    match (x, y) {
        (Dbl::Nan, _) => Dbl::Nan,
        (_, Dbl::Nan) => Dbl::Nan,
        (Dbl::Inf(a), Dbl::Inf(b)) => if a == b {
            Dbl::Inf(a)
        } else {
            Dbl::Nan
        },
        (Dbl::Inf(a), Dbl::Fin(_, _)) => Dbl::Inf(a),
        (Dbl::Fin(_, _), Dbl::Inf(b)) => Dbl::Inf(b),
        (Dbl::Fin(a, u), Dbl::Fin(b, v)) => {
            let s = signed(a, u) + signed(b, v);
            if s == 0 {
                Dbl::Fin(a && b, 0)
            } else if s < 0 {
                rounded(true, (-s) as nat, 1)
            } else {
                rounded(false, s as nat, 1)
            }
        },
    }
}

pub open spec fn minus(x: Dbl, y: Dbl) -> Dbl {
    plus(x, negated(y))
}

#[verifier::opaque]
pub open spec fn times(x: Dbl, y: Dbl) -> Dbl {
    match (x, y) {
        (Dbl::Nan, _) => Dbl::Nan,
        (_, Dbl::Nan) => Dbl::Nan,
        (Dbl::Inf(a), Dbl::Inf(b)) => Dbl::Inf(a != b),
        (Dbl::Inf(a), Dbl::Fin(b, v)) => if v == 0 {
            Dbl::Nan
        } else {
            Dbl::Inf(a != b)
        },
        (Dbl::Fin(a, u), Dbl::Inf(b)) => if u == 0 {
            Dbl::Nan
        } else {
            Dbl::Inf(a != b)
        },
        (Dbl::Fin(a, u), Dbl::Fin(b, v)) => rounded(a != b, u * v, one()),
    }
}

#[verifier::opaque]
pub open spec fn over(x: Dbl, y: Dbl) -> Dbl {
    match (x, y) {
        (Dbl::Nan, _) => Dbl::Nan,
        (_, Dbl::Nan) => Dbl::Nan,
        (Dbl::Inf(_), Dbl::Inf(_)) => Dbl::Nan,
        (Dbl::Inf(a), Dbl::Fin(b, _)) => Dbl::Inf(a != b),
        (Dbl::Fin(a, _), Dbl::Inf(b)) => Dbl::Fin(a != b, 0),
        (Dbl::Fin(a, u), Dbl::Fin(b, v)) => if v == 0 {
            if u == 0 {
                Dbl::Nan
            } else {
                Dbl::Inf(a != b)
            }
        } else {
            rounded(a != b, u * one(), v)
        },
    }
}

/// The nearest whole number, halves away from zero.
#[verifier::opaque]
pub open spec fn whole(x: Dbl) -> Dbl {
    match x {
        Dbl::Fin(n, u) => {
            let k = u / one();
            let rest = u % one();
            Dbl::Fin(n, (if 2 * rest >= one() { k + 1 } else { k }) * one())
        },
        _ => x,
    }
}

impl Finite {
    /// Zero with a sign.
    fn zero(neg: bool) -> (r: Finite)
        ensures
            r@ == Dbl::Fin(neg, 0),
    {
        assert(0 * pow2(0) == 0);
        Finite { neg, mant: 0, exp: -1074 }
    }
}

proof fn lemma_cell_of_units(n: nat, exp: int)
    requires
        -1074 <= exp,
    ensures
        in_cell(n * pow2((exp + 1074) as nat), 1, n, (exp + 5074) as nat, 4000, false),
{
    let pe = pow2((exp + 1074) as nat);
    lemma_pow2_adds((exp + 1074) as nat, 4000);
    lemma_pow2_pos((exp + 5074) as nat);
    let pa = pow2((exp + 5074) as nat);
    assert(n * pa * 1 == (n * pe) * pow2(4000)) by (nonlinear_arith)
        requires
            pa == pe * pow2(4000),
    ;
    assert((n + 1) * pa * 1 == n * pa + pa) by (nonlinear_arith);
}

/// A whole number.
pub fn from_int(n: i128) -> (r: Double)
    requires
        -0x8000_0000_0000_0000 <= n <= 0xffff_ffff_ffff_ffff,
    ensures
        r@ == of_int(n as int),
{
    proof {
        reveal(of_int);
    }
    let neg = n < 0;
    let m: u128 = if neg {
        (-n) as u128
    } else {
        n as u128
    };
    proof {
        lemma_cell_of_units(m as nat, 0);
    }
    pack(neg, m, 0, false, Ghost(m as nat * one()), Ghost(1nat))
}

/// Adds the number of the smaller exponent to the other.
fn plus_ordered(a: Finite, b: Finite) -> (r: Double)
    requires
        a.exp >= b.exp,
    ensures
        r@ == plus(a@, b@),
{
    proof {
        reveal(plus);
    }
    proof {
        use_type_invariant(&a);
        use_type_invariant(&b);
        lemma_pow2_u128();
    }
    let ghost ub = pow2((b.exp + 1074) as nat);
    let ghost sum = signed(a.neg, a.units()) + signed(b.neg, b.units());
    let d = (a.exp - b.exp) as u32;
    proof {
        lemma_pow2_pos((b.exp + 1074) as nat);
        lemma_pow2_adds(d as nat, (b.exp + 1074) as nat);
    }
    if d <= 64 {
        let p = power(d);
        proof {
            lemma_pow2_pos(d as nat);
            lemma_pow2_monotonic(d as nat, 64);
            assert(a.mant * p <= 0x20_0000_0000_0000 * 0x1_0000_0000_0000_0000) by (nonlinear_arith)
                requires
                    a.mant <= 0x20_0000_0000_0000,
                    p <= 0x1_0000_0000_0000_0000,
            ;
            assert(0x20_0000_0000_0000 * 0x1_0000_0000_0000_0000 < 0x4000_0000_0000_0000_0000_0000_0000_0000) by (nonlinear_arith);
        }
        let x: u128 = a.mant as u128 * p;
        let y: u128 = b.mant as u128;
        proof {
            let pd = pow2(d as nat);
            assert(a.units() == x * ub) by (nonlinear_arith)
                requires
                    a.units() == a.mant as nat * (pd * ub),
                    x == a.mant * pd,
            ;
            assert((x + y) * ub == x * ub + y * ub) by (nonlinear_arith);
            assert((x - y) * ub == x * ub - y * ub) by (nonlinear_arith);
            assert((y - x) * ub == y * ub - x * ub) by (nonlinear_arith);
            lemma_cell_of_units((x + y) as nat, b.exp as int);
            if x > y {
                lemma_cell_of_units((x - y) as nat, b.exp as int);
                assert((x - y) * ub > 0) by (nonlinear_arith)
                    requires
                        x - y > 0,
                        ub > 0,
                ;
            }
            if y > x {
                lemma_cell_of_units((y - x) as nat, b.exp as int);
                assert((y - x) * ub > 0) by (nonlinear_arith)
                    requires
                        y - x > 0,
                        ub > 0,
                ;
            }
            if x + y > 0 {
                assert((x + y) * ub > 0) by (nonlinear_arith)
                    requires
                        x + y > 0,
                        ub > 0,
                ;
            }
            assert(0 * ub == 0);
        }
        if a.neg == b.neg {
            if x + y == 0 {
                return Double::Finite(Finite::zero(a.neg));
            }
            return pack(a.neg, x + y, b.exp, false, Ghost(((x + y) * ub) as nat), Ghost(1nat));
        }
        if x == y {
            return Double::Finite(Finite::zero(false));
        }
        if x > y {
            return pack(a.neg, x - y, b.exp, false, Ghost(((x - y) * ub) as nat), Ghost(1nat));
        }
        return pack(b.neg, y - x, b.exp, false, Ghost(((y - x) * ub) as nat), Ghost(1nat));
    }
    let g = d - 64;
    let x: u128 = a.mant as u128 * 0x1_0000_0000_0000_0000;
    let ghost pg = pow2(g as nat);
    proof {
        lemma_pow2_pos(g as nat);
        lemma_pow2_adds(64, g as nat);
        if g >= 64 {
            lemma_pow2_monotonic(64, g as nat);
            lemma_quotient(b.mant as int, pg as int, 0);
        }
    }
    let part: u128 = if g < 64 {
        b.mant as u128 / power(g)
    } else {
        0
    };
    let strict: bool = if g < 64 {
        b.mant as u128 % power(g) != 0
    } else {
        b.mant != 0
    };
    let ghost rest = b.mant as nat % pg;
    proof {
        lemma_fundamental_div_mod(b.mant as int, pg as int);
        assert(part <= b.mant) by (nonlinear_arith)
            requires
                b.mant == pg * part + rest,
                rest >= 0,
                pg >= 1,
        ;
        // a is x cells, b is part cells and rest / pg of one.
        let cell = pg * ub;
        assert(cell > 0) by (nonlinear_arith)
            requires
                pg > 0,
                ub > 0,
                cell == pg * ub,
        ;
        assert(a.units() == x * cell) by (nonlinear_arith)
            requires
                a.units() == a.mant as nat * (pow2(d as nat) * ub),
                pow2(d as nat) == pow2(64) * pg,
                x == a.mant * pow2(64),
                cell == pg * ub,
        ;
        assert(b.units() == part * cell + rest * ub) by (nonlinear_arith)
            requires
                b.units() == b.mant as nat * ub,
                b.mant == pg * part + rest,
                cell == pg * ub,
        ;
        assert(rest * ub < cell) by (nonlinear_arith)
            requires
                rest < pg,
                ub > 0,
                cell == pg * ub,
        ;
        assert(rest > 0 ==> rest * ub > 0) by (nonlinear_arith)
            requires
                ub > 0,
        ;
        assert(0 * ub == 0);
        lemma_pow2_adds(g as nat, (b.exp + 1074) as nat);
        let w = (a.exp - 64 + 1074) as nat;
        assert(cell == pow2(w));
        let n1 = (x + part) as nat;
        assert(n1 * cell == x * cell + part * cell) by (nonlinear_arith)
            requires
                n1 == x + part,
        ;
        lemma_inside(n1, cell, rest * ub, w);
        let n2 = (x - part) as nat;
        assert(n2 * cell == x * cell - part * cell) by (nonlinear_arith)
            requires
                n2 == x - part,
        ;
        if rest == 0 {
            lemma_inside(n2, cell, 0, w);
        } else {
            let n3 = (x - part - 1) as nat;
            assert(n3 * cell == x * cell - part * cell - cell) by (nonlinear_arith)
                requires
                    n3 == x - part - 1,
            ;
            lemma_inside(n3, cell, (cell - rest * ub) as nat, w);
        }
        assert(x * cell > 0) by (nonlinear_arith)
            requires
                x > 0,
                cell > 0,
        ;
        assert(x * cell >= part * cell + cell) by (nonlinear_arith)
            requires
                x >= part + 1,
                cell > 0,
        ;
    }
    if a.neg == b.neg {
        pack(a.neg, x + part, a.exp - 64, strict, Ghost((a.units() + b.units()) as nat), Ghost(1nat))
    } else if strict {
        pack(a.neg, x - part - 1, a.exp - 64, true, Ghost((a.units() - b.units()) as nat), Ghost(1nat))
    } else {
        pack(a.neg, x - part, a.exp - 64, false, Ghost((a.units() - b.units()) as nat), Ghost(1nat))
    }
}

proof fn lemma_inside(n: nat, cell: nat, rest: nat, w: nat)
    requires
        cell == pow2(w),
        rest < cell,
    ensures
        in_cell((n * cell + rest) as nat, 1, n, (w + 4000) as nat, 4000, rest != 0),
{
    lemma_pow2_adds(w, 4000);
    lemma_pow2_pos(4000);
    let pb = pow2(4000);
    let pa = pow2((w + 4000) as nat);
    let num = (n * cell + rest) as nat;
    assert(n * pa * 1 == n * cell * pb && num * pb == n * cell * pb + rest * pb && (n + 1) * pa * 1 == n * cell * pb
        + cell * pb) by (nonlinear_arith)
        requires
            pa == cell * pb,
            num == n * cell + rest,
    ;
    assert(rest * pb < cell * pb) by (nonlinear_arith)
        requires
            rest < cell,
            pb > 0,
    ;
    assert(rest != 0 ==> rest * pb != 0) by (nonlinear_arith)
        requires
            pb > 0,
    ;
    assert(0 * pb == 0);
}

fn times_finite(a: Finite, b: Finite) -> (r: Double)
    ensures
        r@ == times(a@, b@),
{
    proof {
        reveal(times);
    }
    proof {
        use_type_invariant(&a);
        use_type_invariant(&b);
        assert(a.mant * b.mant <= 0x20_0000_0000_0000 * 0x20_0000_0000_0000) by (nonlinear_arith)
            requires
                a.mant <= 0x20_0000_0000_0000,
                b.mant <= 0x20_0000_0000_0000,
        ;
        assert(0x20_0000_0000_0000 * 0x20_0000_0000_0000 < 0x4000_0000_0000_0000_0000_0000_0000_0000) by (nonlinear_arith);
        let ea = (a.exp + 1074) as nat;
        let eb = (b.exp + 1074) as nat;
        let pa = pow2(ea);
        let pb = pow2(eb);
        let q = pow2((a.exp + b.exp + 5074) as nat);
        lemma_pow2_adds(ea, eb);
        lemma_pow2_adds(ea + eb, 4000);
        lemma_pow2_adds((a.exp + b.exp + 5074) as nat, 1074);
        lemma_pow2_pos((a.exp + b.exp + 5074) as nat);
        lemma_pow2_pos(1074);
        let n = (a.mant * b.mant) as nat;
        let num = a.units() * b.units();
        assert(n * q * one() == num * pow2(4000)) by (nonlinear_arith)
            requires
                n == a.mant * b.mant,
                num == (a.mant as nat * pa) * (b.mant as nat * pb),
                q * one() == (pa * pb) * pow2(4000),
        {
            assert(n * (q * one()) == n * ((pa * pb) * pow2(4000)));
        }
        assert((n + 1) * q * one() > n * q * one()) by (nonlinear_arith)
            requires
                q > 0,
                one() > 0,
        ;
    }
    pack(
        a.neg != b.neg,
        a.mant as u128 * b.mant as u128,
        a.exp + b.exp,
        false,
        Ghost(a.units() * b.units()),
        Ghost(one()),
    )
}

fn over_finite(a: Finite, b: Finite) -> (r: Double)
    ensures
        r@ == over(a@, b@),
{
    proof {
        reveal(over);
    }
    proof {
        use_type_invariant(&a);
        use_type_invariant(&b);
        lemma_pow2_u128();
        lemma_pow2_pos((a.exp + 1074) as nat);
        lemma_pow2_pos((b.exp + 1074) as nat);
        lemma_pow2_pos(1074);
        assert(0 * pow2((a.exp + 1074) as nat) == 0);
        assert(0 * pow2((b.exp + 1074) as nat) == 0);
        assert(a.mant > 0 ==> a.units() > 0) by (nonlinear_arith)
            requires
                a.units() == a.mant as nat * pow2((a.exp + 1074) as nat),
                pow2((a.exp + 1074) as nat) > 0,
        ;
        assert(b.mant > 0 ==> b.units() > 0) by (nonlinear_arith)
            requires
                b.units() == b.mant as nat * pow2((b.exp + 1074) as nat),
                pow2((b.exp + 1074) as nat) > 0,
        ;
    }
    let neg = a.neg != b.neg;
    if b.mant == 0 {
        return if a.mant == 0 {
            Double::Nan
        } else {
            Double::Infinite(neg)
        };
    }
    if a.mant == 0 {
        proof {
            lemma_zero_rounds(neg, b.units());
            assert(0 * one() == 0) by (nonlinear_arith);
        }
        return Double::Finite(Finite::zero(neg));
    }
    let len = bit_length(a.mant as u128);
    proof {
        lemma_bits_bounds(a.mant as nat);
        if len > 53 {
            lemma_pow2_monotonic(53, (len - 1) as nat);
        }
    }
    let k = 126 - len;
    let p = power(k);
    proof {
        lemma_pow2_adds(len as nat, k as nat);
        lemma_pow2_adds((len - 1) as nat, k as nat);
        lemma_pow2_pos(k as nat);
        assert(a.mant * p < pow2(126)) by (nonlinear_arith)
            requires
                a.mant < pow2(len as nat),
                p > 0,
                pow2(len as nat) * p == pow2(126),
        ;
        assert(a.mant * p >= pow2(125)) by (nonlinear_arith)
            requires
                a.mant >= pow2((len - 1) as nat),
                p > 0,
                pow2((len - 1) as nat) * p == pow2(125),
        ;
    }
    let x: u128 = a.mant as u128 * p;
    let m: u128 = b.mant as u128;
    let n = x / m;
    let rem = x % m;
    let exp: i32 = a.exp - k as i32 - b.exp;
    proof {
        lemma_fundamental_div_mod(x as int, m as int);
        lemma_pow2_adds(72, 53);
        lemma_pow2_monotonic(54, 72);
        assert(n >= pow2(72)) by (nonlinear_arith)
            requires
                x == m * n + rem,
                rem < m,
                m <= pow2(53),
                x >= pow2(72) * pow2(53),
        ;
        assert(n <= x) by (nonlinear_arith)
            requires
                x == m * n + rem,
                rem >= 0,
                m >= 1,
        ;
        // Both sides of the cell share the factor w.
        let ea = (a.exp + 1074) as nat;
        let eb = (b.exp + 1074) as nat;
        let q = pow2((exp + 5074) as nat);
        let w = pow2((a.exp - k + 6148) as nat);
        lemma_pow2_adds((exp + 5074) as nat, eb);
        lemma_pow2_adds((a.exp - k + 6148) as nat, k as nat);
        lemma_pow2_adds(ea, 1074);
        lemma_pow2_adds(ea + 1074, 4000);
        lemma_pow2_pos((a.exp - k + 6148) as nat);
        let num = a.units() * one();
        assert(num * pow2(4000) == x * w) by (nonlinear_arith)
            requires
                num == (a.mant as nat * pow2(ea)) * one(),
                (pow2(ea) * one()) * pow2(4000) == w * pow2(k as nat),
                x == a.mant * pow2(k as nat),
        {
            assert(a.mant as nat * ((pow2(ea) * one()) * pow2(4000)) == a.mant as nat * (w * pow2(k as nat)));
        }
        assert(n * q * b.units() == (n * m) * w) by (nonlinear_arith)
            requires
                b.units() == m * pow2(eb),
                q * pow2(eb) == w,
        {
            assert((n * m) * (q * pow2(eb)) == (n * m) * w);
        }
        assert((n + 1) * q * b.units() == (n * m + m) * w) by (nonlinear_arith)
            requires
                b.units() == m * pow2(eb),
                q * pow2(eb) == w,
        {
            assert(((n + 1) * m) * (q * pow2(eb)) == ((n + 1) * m) * w);
        }
        assert((n * m) * w <= x * w && x * w < (n * m + m) * w && (rem != 0 <==> (n * m) * w != x * w))
            by (nonlinear_arith)
            requires
                x == m * n + rem,
                0 <= rem < m,
                w > 0,
        ;
    }
    pack(neg, n, exp, rem != 0, Ghost(a.units() * one()), Ghost(b.units()))
}

// ---------------------------------------------------------------------------
// Whole parts and comparisons
// ---------------------------------------------------------------------------

/// Whether the value is a finite whole number.
#[verifier::opaque]
pub open spec fn is_whole(x: Dbl) -> bool {
    x matches Dbl::Fin(_, u) && u % one() == 0
}

/// The whole part of the magnitude of a finite value.
#[verifier::opaque]
pub open spec fn whole_part(x: Dbl) -> nat {
    match x {
        Dbl::Fin(_, u) => u / one(),
        _ => 0,
    }
}

/// The whole part brought into the range `lo..=hi`.
#[verifier::opaque]
pub open spec fn cast(x: Dbl, lo: int, hi: int) -> int {
    match x {
        Dbl::Nan => 0,
        Dbl::Inf(n) => if n {
            lo
        } else {
            hi
        },
        Dbl::Fin(n, u) => {
            let t = signed(n, u / one());
            if t < lo {
                lo
            } else if t > hi {
                hi
            } else {
                t
            }
        },
    }
}

/// Whether two values are equal numbers: the zeros are, a NaN never is.
pub open spec fn equal(x: Dbl, y: Dbl) -> bool {
    match (x, y) {
        (Dbl::Fin(a, u), Dbl::Fin(b, v)) => signed(a, u) == signed(b, v),
        (Dbl::Inf(a), Dbl::Inf(b)) => a == b,
        _ => false,
    }
}

pub open spec fn less(x: Dbl, y: Dbl) -> bool {
    match (x, y) {
        (Dbl::Nan, _) => false,
        (_, Dbl::Nan) => false,
        (Dbl::Inf(a), Dbl::Inf(b)) => a && !b,
        (Dbl::Inf(a), Dbl::Fin(_, _)) => a,
        (Dbl::Fin(_, _), Dbl::Inf(b)) => !b,
        (Dbl::Fin(a, u), Dbl::Fin(b, v)) => signed(a, u) < signed(b, v),
    }
}

pub open spec fn zero() -> Dbl {
    Dbl::Fin(false, 0)
}

proof fn lemma_whole_negative_exp(m: nat, g: nat)
    requires
        g <= 1074,
    ensures
        (m * pow2((1074 - g) as nat)) / one() == m / pow2(g),
        (m * pow2((1074 - g) as nat)) % one() == (m % pow2(g)) * pow2((1074 - g) as nat),
{
    let r = pow2((1074 - g) as nat);
    let p = pow2(g);
    lemma_pow2_pos((1074 - g) as nat);
    lemma_pow2_pos(g);
    lemma_pow2_adds((1074 - g) as nat, g);
    lemma_fundamental_div_mod(m as int, p as int);
    let k = m / p;
    let x = m % p;
    assert(m * r == k * one() + x * r) by (nonlinear_arith)
        requires
            m == p * k + x,
            one() == r * p,
    ;
    assert(x * r < one()) by (nonlinear_arith)
        requires
            x < p,
            r > 0,
            one() == r * p,
    ;
    assert(x * r >= 0) by (nonlinear_arith)
        requires
            x >= 0,
            r >= 0,
    ;
    lemma_fundamental_div_mod_converse_div((m * r) as int, one() as int, k as int, (x * r) as int);
    lemma_fundamental_div_mod_converse_mod((m * r) as int, one() as int, k as int, (x * r) as int);
}

proof fn lemma_whole_positive_exp(m: nat, e: nat)
    ensures
        (m * pow2(e + 1074)) / one() == m * pow2(e),
        (m * pow2(e + 1074)) % one() == 0,
{
    lemma_pow2_adds(e, 1074);
    lemma_pow2_pos(1074);
    let k = m * pow2(e);
    assert(m * pow2(e + 1074) == k * one() + 0) by (nonlinear_arith)
        requires
            pow2(e + 1074) == pow2(e) * one(),
            k == m * pow2(e),
    ;
    lemma_fundamental_div_mod_converse_div((m * pow2(e + 1074)) as int, one() as int, k as int, 0);
    lemma_fundamental_div_mod_converse_mod((m * pow2(e + 1074)) as int, one() as int, k as int, 0);
}

impl Finite {
    pub fn is_negative(&self) -> (r: bool)
        ensures
            r == self.negative(),
    {
        self.neg
    }

    pub fn is_zero(&self) -> (r: bool)
        ensures
            r == (self.units() == 0),
    {
        proof {
            lemma_pow2_pos((self.exp + 1074) as nat);
            assert(self.mant > 0 ==> self.units() > 0) by (nonlinear_arith)
                requires
                    self.units() == self.mant as nat * pow2((self.exp + 1074) as nat),
                    pow2((self.exp + 1074) as nat) > 0,
            ;
            assert(0 * pow2((self.exp + 1074) as nat) == 0);
        }
        self.mant == 0
    }

    /// Whether the number is whole.
    pub fn is_whole(&self) -> (r: bool)
        ensures
            r == is_whole(self@),
    {
        proof {
            reveal(is_whole);
        }
        proof {
            use_type_invariant(self);
            lemma_pow2_u128();
        }
        if self.exp >= 0 {
            proof {
                lemma_whole_positive_exp(self.mant as nat, self.exp as nat);
            }
            return true;
        }
        let g = (-self.exp) as u32;
        proof {
            lemma_whole_negative_exp(self.mant as nat, g as nat);
            lemma_pow2_pos((1074 - g) as nat);
            let x = self.mant as nat % pow2(g as nat);
            let r = pow2((1074 - g) as nat);
            assert(x > 0 ==> x * r > 0) by (nonlinear_arith)
                requires
                    r > 0,
            ;
            assert(0 * r == 0);
        }
        if g >= 64 {
            proof {
                lemma_pow2_monotonic(64, g as nat);
                lemma_quotient(self.mant as int, pow2(g as nat) as int, 0);
            }
            self.mant == 0
        } else {
            self.mant as u128 % power(g) == 0
        }
    }

    /// The whole part of the magnitude, unless it is `2^100` or more.
    pub fn whole_part(&self) -> (r: Option<u128>)
        ensures
            r matches Some(t) ==> t == whole_part(self@),
            r is None ==> whole_part(self@) >= 0x10_0000_0000_0000_0000_0000_0000,
            r matches Some(t) ==> t < 0x4000_0000_0000_0000_0000_0000_0000_0000,
    {
        proof {
            reveal(whole_part);
        }
        proof {
            use_type_invariant(self);
            lemma_pow2_u128();
        }
        if self.exp >= 0 {
            proof {
                lemma_whole_positive_exp(self.mant as nat, self.exp as nat);
                lemma_pow2_pos(self.exp as nat);
            }
            if self.exp >= 64 {
                proof {
                    lemma_pow2_monotonic(64, self.exp as nat);
                    assert(self.mant as nat * pow2(self.exp as nat) >= 0x10_0000_0000_0000
                        * 0x1_0000_0000_0000_0000) by (nonlinear_arith)
                        requires
                            self.mant >= 0x10_0000_0000_0000,
                            pow2(self.exp as nat) >= 0x1_0000_0000_0000_0000,
                    ;
                    assert(0x10_0000_0000_0000 * 0x1_0000_0000_0000_0000
                        >= 0x10_0000_0000_0000_0000_0000_0000) by (nonlinear_arith);
                }
                return None;
            }
            let p = power(self.exp as u32);
            proof {
                lemma_pow2_monotonic(self.exp as nat, 64);
                assert(self.mant * p <= 0x20_0000_0000_0000 * 0x1_0000_0000_0000_0000) by (nonlinear_arith)
                    requires
                        self.mant <= 0x20_0000_0000_0000,
                        p <= 0x1_0000_0000_0000_0000,
                ;
                assert(0x20_0000_0000_0000 * 0x1_0000_0000_0000_0000
                    < 0x4000_0000_0000_0000_0000_0000_0000_0000) by (nonlinear_arith);
            }
            return Some(self.mant as u128 * p);
        }
        let g = (-self.exp) as u32;
        proof {
            lemma_whole_negative_exp(self.mant as nat, g as nat);
        }
        if g >= 64 {
            proof {
                lemma_pow2_monotonic(64, g as nat);
                lemma_quotient(self.mant as int, pow2(g as nat) as int, 0);
            }
            Some(0)
        } else {
            let p = power(g);
            let t = self.mant as u128 / p;
            proof {
                lemma_pow2_pos(g as nat);
                lemma_fundamental_div_mod(self.mant as int, p as int);
                assert(t <= self.mant) by (nonlinear_arith)
                    requires
                        self.mant == p * t + self.mant as int % p as int,
                        self.mant as int % p as int >= 0,
                        p >= 1,
                ;
            }
            Some(t)
        }
    }

    /// The nearest whole number, halves away from zero.
    fn rounded_to_whole(&self) -> (r: Double)
        ensures
            r@ == whole(self@),
    {
        proof {
            reveal(whole);
            reveal(rounded);
        }
        proof {
            use_type_invariant(self);
            lemma_pow2_u128();
            lemma_pow2_pos(1074);
        }
        if self.exp >= 0 {
            proof {
                lemma_whole_positive_exp(self.mant as nat, self.exp as nat);
                lemma_fundamental_div_mod(self.units() as int, one() as int);
                assert(one() * (self.units() / one()) == (self.units() / one()) * one()) by (nonlinear_arith);
            }
            return Double::Finite(*self);
        }
        let g = (-self.exp) as u32;
        let ghost r = pow2((1074 - g) as nat);
        let ghost pg = pow2(g as nat);
        proof {
            lemma_whole_negative_exp(self.mant as nat, g as nat);
            lemma_pow2_pos((1074 - g) as nat);
            lemma_pow2_pos(g as nat);
            lemma_pow2_adds((1074 - g) as nat, g as nat);
            let x = self.mant as nat % pg;
            assert(2 * (x * r) >= one() <==> 2 * x >= pg) by (nonlinear_arith)
                requires
                    one() == r * pg,
                    r > 0,
            ;
        }
        if g >= 64 {
            proof {
                lemma_pow2_monotonic(64, g as nat);
                lemma_quotient(self.mant as int, pg as int, 0);
                assert(0 * one() == 0);
            }
            return Double::Finite(Finite::zero(self.neg));
        }
        let p = power(g);
        let k = self.mant as u128 / p;
        let x = self.mant as u128 % p;
        proof {
            lemma_fundamental_div_mod(self.mant as int, p as int);
            assert(k <= self.mant) by (nonlinear_arith)
                requires
                    self.mant == p * k + x,
                    x >= 0,
                    p >= 1,
            ;
        }
        proof {
            lemma_pow2_monotonic(g as nat, 64);
        }
        let n: u128 = if 2 * x >= p {
            k + 1
        } else {
            k
        };
        proof {
            lemma_cell_of_units(n as nat, 0);
            // A whole number of at most 53 digits is kept as it is.
            if n > 0 {
                lemma_bits_bounds(n as nat);
                if bits(n as nat) > 54 {
                    lemma_pow2_monotonic(54, (bits(n as nat) - 1) as nat);
                }
                if n == 0x20_0000_0000_0000 {
                    assert(k == 0x1f_ffff_ffff_ffff);
                    assert(false) by (nonlinear_arith)
                        requires
                            self.mant == p * k + x,
                            x >= 0,
                            k == 0x1f_ffff_ffff_ffff,
                            p >= 2,
                            self.mant < 0x20_0000_0000_0000,
                    ;
                }
                if bits(n as nat) == 54 {
                    assert(n >= pow2(53));
                }
                lemma_exact((n as nat * one()) as nat, 1, n as nat, 5074, 4000);
                lemma_pow2_adds(53, 1074);
                lemma_pow2_strictly_increases(1127, 2098);
                assert(n as nat * one() < pow2(53) * one()) by (nonlinear_arith)
                    requires
                        n < pow2(53),
                        one() > 0,
                ;
            } else {
                assert(0 * one() == 0);
                lemma_quotient(0, 1, 0);
                assert(bits(0) == 0);
                lemma2_to64();
                assert(nearest(0, 1) == 0);
                lemma_pow2_pos(2098);
            }
        }
        pack(self.neg, n, 0, false, Ghost(n as nat * one()), Ghost(1nat))
    }

    /// Compares the magnitudes: negative, zero or positive.
    fn compare_magnitude(&self, o: &Finite) -> (r: i8)
        ensures
            r < 0 <==> self.units() < o.units(),
            r == 0 <==> self.units() == o.units(),
            r > 0 <==> self.units() > o.units(),
    {
        proof {
            use_type_invariant(self);
            use_type_invariant(o);
            lemma_pow2_u128();
            if self.exp < o.exp {
                lemma_magnitude_order(self.mant as nat, (self.exp + 1074) as nat, o.mant as nat, (o.exp + 1074) as nat);
            } else if o.exp < self.exp {
                lemma_magnitude_order(o.mant as nat, (o.exp + 1074) as nat, self.mant as nat, (self.exp + 1074) as nat);
            } else {
                let p = pow2((self.exp + 1074) as nat);
                lemma_pow2_pos((self.exp + 1074) as nat);
                let a = self.mant as nat;
                let b = o.mant as nat;
                assert((a < b <==> a * p < b * p) && (a == b <==> a * p == b * p)) by (nonlinear_arith)
                    requires
                        p > 0,
                ;
            }
        }
        if self.exp < o.exp {
            -1
        } else if self.exp > o.exp {
            1
        } else if self.mant < o.mant {
            -1
        } else if self.mant > o.mant {
            1
        } else {
            0
        }
    }
}

proof fn lemma_magnitude_order(m: nat, e: nat, n: nat, f: nat)
    requires
        e < f,
        m < pow2(53),
        n >= pow2(52),
    ensures
        m * pow2(e) < n * pow2(f),
{
    lemma_pow2_monotonic(e + 1, f);
    lemma_pow2_unfold(e + 1);
    lemma_pow2_unfold(53);
    lemma_pow2_pos(e);
    let p = pow2(e);
    let q = pow2(f);
    assert(m * p < n * q) by (nonlinear_arith)
        requires
            m < 2 * pow2(52),
            n >= pow2(52),
            q >= 2 * p,
            p > 0,
    ;
}

impl Double {
    pub fn plus(self, o: Double) -> (r: Double)
        ensures
            r@ == plus(self@, o@),
    {
        proof {
            reveal(plus);
        }
        match (self, o) {
            (Double::Nan, _) => Double::Nan,
            (_, Double::Nan) => Double::Nan,
            (Double::Infinite(a), Double::Infinite(b)) => if a == b {
                Double::Infinite(a)
            } else {
                Double::Nan
            },
            (Double::Infinite(a), Double::Finite(_)) => Double::Infinite(a),
            (Double::Finite(_), Double::Infinite(b)) => Double::Infinite(b),
            (Double::Finite(a), Double::Finite(b)) => if a.exp >= b.exp {
                plus_ordered(a, b)
            } else {
                plus_ordered(b, a)
            },
        }
    }

    pub fn negated(self) -> (r: Double)
        ensures
            r@ == negated(self@),
    {
        match self {
            Double::Finite(f) => {
                proof {
                    use_type_invariant(&f);
                }
                Double::Finite(Finite { neg: !f.neg, mant: f.mant, exp: f.exp })
            },
            Double::Infinite(n) => Double::Infinite(!n),
            Double::Nan => Double::Nan,
        }
    }

    pub fn minus(self, o: Double) -> (r: Double)
        ensures
            r@ == minus(self@, o@),
    {
        self.plus(o.negated())
    }

    pub fn times(self, o: Double) -> (r: Double)
        ensures
            r@ == times(self@, o@),
    {
        proof {
            reveal(times);
        }
        match (self, o) {
            (Double::Nan, _) => Double::Nan,
            (_, Double::Nan) => Double::Nan,
            (Double::Infinite(a), Double::Infinite(b)) => Double::Infinite(a != b),
            (Double::Infinite(a), Double::Finite(b)) => if b.is_zero() {
                Double::Nan
            } else {
                Double::Infinite(a != b.neg)
            },
            (Double::Finite(a), Double::Infinite(b)) => if a.is_zero() {
                Double::Nan
            } else {
                Double::Infinite(a.neg != b)
            },
            (Double::Finite(a), Double::Finite(b)) => times_finite(a, b),
        }
    }

    pub fn over(self, o: Double) -> (r: Double)
        ensures
            r@ == over(self@, o@),
    {
        proof {
            reveal(over);
        }
        match (self, o) {
            (Double::Nan, _) => Double::Nan,
            (_, Double::Nan) => Double::Nan,
            (Double::Infinite(_), Double::Infinite(_)) => Double::Nan,
            (Double::Infinite(a), Double::Finite(b)) => Double::Infinite(a != b.neg),
            (Double::Finite(a), Double::Infinite(b)) => Double::Finite(Finite::zero(a.neg != b)),
            (Double::Finite(a), Double::Finite(b)) => over_finite(a, b),
        }
    }

    /// The nearest whole number, halves away from zero.
    pub fn to_whole(self) -> (r: Double)
        ensures
            r@ == whole(self@),
    {
        proof {
            reveal(whole);
        }
        match self {
            Double::Finite(f) => f.rounded_to_whole(),
            _ => self,
        }
    }

    pub fn equals(self, o: Double) -> (r: bool)
        ensures
            r == equal(self@, o@),
    {
        match (self, o) {
            (Double::Finite(a), Double::Finite(b)) => {
                let c = a.compare_magnitude(&b);
                let z = a.is_zero();
                c == 0 && (z || a.neg == b.neg)
            },
            (Double::Infinite(a), Double::Infinite(b)) => a == b,
            _ => false,
        }
    }

    pub fn is_less(self, o: Double) -> (r: bool)
        ensures
            r == less(self@, o@),
    {
        match (self, o) {
            (Double::Nan, _) => false,
            (_, Double::Nan) => false,
            (Double::Infinite(a), Double::Infinite(b)) => a && !b,
            (Double::Infinite(a), Double::Finite(_)) => a,
            (Double::Finite(_), Double::Infinite(b)) => !b,
            (Double::Finite(a), Double::Finite(b)) => {
                let c = a.compare_magnitude(&b);
                let za = a.is_zero();
                let zb = b.is_zero();
                if a.neg && b.neg {
                    c > 0
                } else if a.neg {
                    !za || !zb
                } else if b.neg {
                    false
                } else {
                    c < 0
                }
            },
        }
    }

    /// The whole part, brought into the range `lo..=hi`.
    pub fn cast(self, lo: i128, hi: i128) -> (r: i128)
        requires
            -0x8000_0000_0000_0000 <= lo <= 0 <= hi <= 0xffff_ffff_ffff_ffff,
        ensures
            r == cast(self@, lo as int, hi as int),
            lo <= r <= hi,
    {
        proof {
            reveal(cast);
            reveal(whole_part);
        }
        match self {
            Double::Nan => 0,
            Double::Infinite(n) => if n {
                lo
            } else {
                hi
            },
            Double::Finite(f) => match f.whole_part() {
                None => if f.neg {
                    lo
                } else {
                    hi
                },
                Some(t) => {
                    let m: i128 = t as i128;
                    let s: i128 = if f.neg {
                        -m
                    } else {
                        m
                    };
                    if s < lo {
                        lo
                    } else if s > hi {
                        hi
                    } else {
                        s
                    }
                },
            },
        }
    }
}

// ---------------------------------------------------------------------------
// Bit patterns
// ---------------------------------------------------------------------------

/// The value of a binary64 bit pattern.
#[verifier::opaque]
pub open spec fn decoded(b: u64) -> Dbl {
    let neg = b / 0x8000_0000_0000_0000 == 1;
    let e = (b / 0x10_0000_0000_0000) % 0x800;
    let frac = b % 0x10_0000_0000_0000;
    if e == 0x7ff {
        if frac == 0 {
            Dbl::Inf(neg)
        } else {
            Dbl::Nan
        }
    } else if e == 0 {
        Dbl::Fin(neg, frac as nat)
    } else {
        Dbl::Fin(neg, (0x10_0000_0000_0000 + frac) as nat * pow2((e - 1) as nat))
    }
}

impl Double {
    /// The number of a bit pattern.
    pub fn from_bits(b: u64) -> (r: Double)
        ensures
            r@ == decoded(b),
    {
        proof {
            reveal(decoded);
        }
        let neg = b / 0x8000_0000_0000_0000 == 1;
        let e = (b / 0x10_0000_0000_0000) % 0x800;
        let frac = b % 0x10_0000_0000_0000;
        if e == 0x7ff {
            if frac == 0 {
                Double::Infinite(neg)
            } else {
                Double::Nan
            }
        } else if e == 0 {
            proof {
                lemma2_to64();
                assert(frac as nat * 1 == frac as nat);
            }
            Double::Finite(Finite { neg, mant: frac, exp: -1074 })
        } else {
            Double::Finite(Finite { neg, mant: 0x10_0000_0000_0000 + frac, exp: e as i32 - 1075 })
        }
    }

    /// A bit pattern of the number.
    pub fn to_bits(self) -> (b: u64)
        ensures
            decoded(b) == self@,
    {
        proof {
            reveal(decoded);
        }
        match self {
            Double::Nan => 0x7ff8_0000_0000_0000,
            Double::Infinite(n) => if n {
                0xfff0_0000_0000_0000
            } else {
                0x7ff0_0000_0000_0000
            },
            Double::Finite(f) => {
                proof {
                    use_type_invariant(&f);
                    lemma2_to64();
                    assert(f.mant as nat * 1 == f.mant as nat);
                }
                let sign: u64 = if f.neg {
                    0x8000_0000_0000_0000
                } else {
                    0
                };
                if f.mant < 0x10_0000_0000_0000 {
                    sign + f.mant
                } else {
                    let e = (f.exp + 1075) as u64;
                    sign + e * 0x10_0000_0000_0000 + (f.mant - 0x10_0000_0000_0000)
                }
            },
        }
    }
}

// ---------------------------------------------------------------------------
// Exact decimal text
// ---------------------------------------------------------------------------

/// `u / 2^k` in lowest terms.
pub open spec fn lowest(u: nat, k: nat) -> (nat, nat)
    decreases k,
{
    if k > 0 && u % 2 == 0 {
        lowest(u / 2, (k - 1) as nat)
    } else {
        (u, k)
    }
}

/// The integer zero is the value zero.
pub proof fn lemma_of_zero()
    ensures
        of_int(0) == zero(),
{
    reveal(of_int);
    reveal(rounded);
    assert(0 * one() == 0);
    lemma2_to64();
    lemma_pow2_pos(2098);
    assert(bits(0) == 0);
    assert(0nat / 1nat == 0);
    assert(step_exp(0) == 0);
    assert(pow2(0) == 1);
    assert(nearest(0, 1) == 0);
}

/// Whether a value is one that binary64 has: rounding leaves it as it is.
pub open spec fn is_binary64(x: Dbl) -> bool {
    x matches Dbl::Fin(n, u) ==> rounded(n, u, 1) == x
}

proof fn lemma_nearest_scaled(num: nat, k: nat)
    requires
        k > 0,
    ensures
        nearest(num * k, k) == nearest(num, 1),
{
    assert((num + 1) * k == num * k + k) by (nonlinear_arith);
    lemma_quotient((num * k) as int, k as int, num as int);
    assert(num / 1 == num);
    let step = pow2(step_exp(num));
    lemma_pow2_pos(step_exp(num));
    let q = num / step;
    let rest = num - q * step;
    lemma_fundamental_div_mod(num as int, step as int);
    assert(q * step == step * q && (q + 1) * step == q * step + step) by (nonlinear_arith);
    assert(1 * step == step);
    assert(k * step > 0) by (nonlinear_arith)
        requires
            k > 0,
            step > 0,
    ;
    assert(q * (k * step) <= num * k < (q + 1) * (k * step)) by (nonlinear_arith)
        requires
            q * step <= num < (q + 1) * step,
            k > 0,
    {
        assert(k * (q * step) <= k * num);
        assert(k * num < k * ((q + 1) * step));
    }
    lemma_quotient((num * k) as int, (k * step) as int, q as int);
    let twice = 2 * (num * k - q * (k * step));
    assert(twice == k * (2 * rest)) by (nonlinear_arith)
        requires
            twice == 2 * (num * k - q * (k * step)),
            rest == num - q * step,
    ;
    assert(2 * rest > step ==> twice > k * step) by (nonlinear_arith)
        requires
            twice == k * (2 * rest),
            k > 0,
    ;
    assert(2 * rest < step ==> twice < k * step) by (nonlinear_arith)
        requires
            twice == k * (2 * rest),
            k > 0,
    ;
    assert(2 * rest == step ==> twice == k * step);
}

/// A small integer is itself.
pub proof fn lemma_of_small(n: nat)
    requires
        0 < n < 0x20_0000_0000_0000,
    ensures
        of_int(n as int) == Dbl::Fin(false, n * one()),
        n * one() > 0,
        is_binary64(of_int(n as int)),
{
    reveal(of_int);
    reveal(rounded);
    lemma_pow2_u128();
    lemma_cell_of_units(n, 0);
    lemma_bits_bounds(n);
    if bits(n) > 53 {
        lemma_pow2_monotonic(53, (bits(n) - 1) as nat);
    }
    lemma_exact(n * one(), 1, n, 5074, 4000);
    lemma_pow2_adds(53, 1074);
    lemma_pow2_strictly_increases(1127, 2098);
    lemma_pow2_pos(1074);
    assert(0 < n * one() < pow2(53) * one()) by (nonlinear_arith)
        requires
            0 < n < pow2(53),
            one() > 0,
    ;
}

/// The integer one is one.
pub proof fn lemma_of_one()
    ensures
        of_int(1) == Dbl::Fin(false, one()),
        one() > 0,
        is_binary64(of_int(1)),
{
    lemma_of_small(1);
    assert(1 * one() == one());
}

/// Zero is rounded to zero.
pub proof fn lemma_zero_rounds(neg: bool, den: nat)
    requires
        den > 0,
    ensures
        rounded(neg, 0, den) == Dbl::Fin(neg, 0),
{
    reveal(rounded);
    lemma2_to64();
    lemma_pow2_pos(2098);
    assert(bits(0) == 0);
    lemma_quotient(0, den as int, 0);
    assert(step_exp(0) == 0);
    assert(den * 1 == den);
    assert(nearest(0, den) == 0);
}

/// One times a number is the number.
pub proof fn lemma_times_one(x: Dbl)
    requires
        is_binary64(x),
    ensures
        times(x, of_int(1)) == x,
{
    reveal(times);
    lemma_of_one();
    if let Dbl::Fin(n, u) = x {
        reveal(rounded);
        lemma_nearest_scaled(u, one());
    }
}

/// A number over one is the number.
pub proof fn lemma_over_one(x: Dbl)
    requires
        is_binary64(x),
    ensures
        over(x, of_int(1)) == x,
{
    reveal(over);
    lemma_of_one();
    if let Dbl::Fin(n, u) = x {
        reveal(rounded);
        lemma_nearest_scaled(u, one());
    }
}

/// Zero times a finite number is zero.
pub proof fn lemma_times_zero(x: Dbl)
    requires
        x is Fin,
    ensures
        times(x, zero()) is Fin,
        times(x, zero())->Fin_1 == 0,
{
    reveal(times);
    lemma_of_one();
    lemma_zero_rounds(x->Fin_0, one());
    assert(x->Fin_1 * 0 == 0) by (nonlinear_arith);
}

/// A finite number times zero, whatever its sign, is zero.
pub proof fn lemma_times_any_zero(x: Dbl, y: Dbl)
    requires
        x matches Dbl::Fin(_, u) && u == 0,
        y is Fin,
    ensures
        times(x, y) is Fin,
        times(x, y)->Fin_1 == 0,
{
    reveal(times);
    lemma_of_one();
    lemma_zero_rounds(x->Fin_0 != y->Fin_0, one());
    assert(0 * y->Fin_1 == 0) by (nonlinear_arith);
}

/// Both zeros are numbers that binary64 has.
pub proof fn lemma_zeros(neg: bool)
    ensures
        is_binary64(Dbl::Fin(neg, 0)),
{
    lemma_zero_rounds(neg, 1);
}

/// A number plus zero is the number, but for the sign of zero.
pub proof fn lemma_plus_zero(x: Dbl, neg: bool)
    requires
        is_binary64(x),
    ensures
        plus(x, Dbl::Fin(neg, 0)) == x || (x matches Dbl::Fin(_, u) && u == 0 && (plus(x, Dbl::Fin(neg, 0)) matches Dbl::Fin(
            _,
            v,
        ) && v == 0)),
{
    reveal(plus);
}

/// A number less itself is zero.
pub proof fn lemma_minus_self(x: Dbl)
    requires
        x is Fin,
    ensures
        minus(x, x) == zero(),
{
    reveal(plus);
}

/// The place of `num / den` among the multiples of its step: it has at most 53
/// binary digits, and all of them where the step is not one.
proof fn lemma_place(num: nat, den: nat)
    requires
        den > 0,
    ensures
        ({
            let q = num / den;
            let step = pow2(step_exp(q));
            let k = num / (den * step);
            &&& step > 0
            &&& den * step > 0
            &&& k * (den * step) <= num < (k + 1) * (den * step)
            &&& k < pow2(53)
            &&& bits(q) > 53 ==> k >= pow2(52)
        }),
{
    let q = num / den;
    let s = step_exp(q);
    let step = pow2(s);
    let m = den * step;
    let k = num / m;
    lemma_pow2_pos(s);
    lemma_pow2_u128();
    assert(m > 0) by (nonlinear_arith)
        requires
            den > 0,
            step > 0,
            m == den * step,
    ;
    lemma_fundamental_div_mod(num as int, den as int);
    lemma_fundamental_div_mod(num as int, m as int);
    assert(k * m == m * k && (k + 1) * m == k * m + m) by (nonlinear_arith);
    lemma_bits_bounds(q);
    let b = bits(q);
    if b > 53 {
        lemma_pow2_adds(53, s);
        lemma_pow2_adds(52, s);
        let rest = num % den;
        assert(num < den * (q + 1)) by (nonlinear_arith)
            requires
                num == den * q + rest,
                rest < den,
        ;
        assert(den * (q + 1) <= den * (pow2(53) * step)) by (nonlinear_arith)
            requires
                q + 1 <= pow2(53) * step,
                den > 0,
        ;
        assert(den * (pow2(53) * step) == pow2(53) * m) by (nonlinear_arith)
            requires
                m == den * step,
        ;
        assert(k < pow2(53)) by (nonlinear_arith)
            requires
                k * m <= num,
                num < pow2(53) * m,
                m > 0,
        ;
        assert(den * (pow2(52) * step) <= den * q) by (nonlinear_arith)
            requires
                pow2(52) * step <= q,
                den > 0,
        ;
        assert(den * (pow2(52) * step) == pow2(52) * m) by (nonlinear_arith)
            requires
                m == den * step,
        ;
        assert(k >= pow2(52)) by (nonlinear_arith)
            requires
                pow2(52) * m <= num,
                num < (k + 1) * m,
                m > 0,
        ;
    } else {
        lemma2_to64();
        assert(step == 1);
        assert(den * 1 == den);
        assert(k == q);
        lemma_pow2_monotonic(b, 53);
    }
}

proof fn lemma_bits_monotonic(p: nat, q: nat)
    requires
        p <= q,
    ensures
        bits(p) <= bits(q),
{
    lemma_bits_bounds(p);
    lemma_bits_bounds(q);
    if bits(q) < bits(p) {
        lemma_pow2_monotonic(bits(q), (bits(p) - 1) as nat);
    }
}

/// Rounding keeps the order.
proof fn lemma_nearest_monotonic(a: nat, b: nat, den: nat)
    requires
        den > 0,
        a <= b,
    ensures
        nearest(a, den) <= nearest(b, den),
{
    let (p, q) = (a / den, b / den);
    assert(p <= q) by {
        lemma_div_is_ordered(a as int, b as int, den as int);
    }
    lemma_bits_monotonic(p, q);
    lemma_place(a, den);
    lemma_place(b, den);
    let (s, t) = (pow2(step_exp(p)), pow2(step_exp(q)));
    let (j, k) = (a / (den * s), b / (den * t));
    let (x, y) = (nearest(a, den), nearest(b, den));
    if step_exp(p) == step_exp(q) {
        lemma_div_is_ordered(a as int, b as int, (den * s) as int);
        assert((j + 1) * s == j * s + s && (k + 1) * s == k * s + s) by (nonlinear_arith);
        if j < k {
            assert((j + 1) * s <= k * s) by (nonlinear_arith)
                requires
                    j + 1 <= k,
            ;
        }
    } else {
        let (e, f) = (step_exp(p), step_exp(q));
        assert(e < f);
        assert((j + 1) * s <= pow2(53) * s) by (nonlinear_arith)
            requires
                j + 1 <= pow2(53),
        ;
        assert(j * s <= (j + 1) * s) by (nonlinear_arith);
        assert(pow2(52) * t <= k * t) by (nonlinear_arith)
            requires
                pow2(52) <= k,
        ;
        assert(k * t <= (k + 1) * t) by (nonlinear_arith);
        lemma_pow2_adds(53, e);
        lemma_pow2_adds(52, f);
        lemma_pow2_monotonic(53 + e, 52 + f);
    }
}

/// What lies below a number that binary64 has is rounded to one below it.
proof fn lemma_nearest_bound(num: nat, den: nat, v: nat)
    requires
        den > 0,
        num <= v * den,
        nearest(v, 1) == v,
    ensures
        nearest(num, den) <= v,
{
    lemma_nearest_scaled(v, den);
    lemma_nearest_monotonic(num, v * den, den);
}

/// What is rounded needs no more rounding.
proof fn lemma_nearest_settled(num: nat, den: nat)
    requires
        den > 0,
    ensures
        nearest(nearest(num, den), 1) == nearest(num, den),
{
    lemma_place(num, den);
    let s = step_exp(num / den);
    let step = pow2(s);
    let k = num / (den * step);
    let v = nearest(num, den);
    let c = if v == k * step {
        k
    } else {
        k + 1
    };
    assert(v == c * step);
    lemma_pow2_u128();
    if c == 0 {
        assert(0 * step == 0) by (nonlinear_arith);
        reveal(rounded);
        lemma_pow2_pos(2098);
        lemma_zero_rounds(false, 1);
    } else if c < pow2(53) {
        lemma_settled(c, s);
    } else {
        assert(c == pow2(53));
        lemma_pow2_unfold(s + 1);
        assert(c * step == pow2(52) * pow2(s + 1)) by (nonlinear_arith)
            requires
                c == 2 * pow2(52),
                pow2(s + 1) == 2 * step,
        ;
        lemma_pow2_unfold(53);
        lemma_settled(pow2(52), s + 1);
    }
}

proof fn lemma_settled(c: nat, s: nat)
    requires
        0 < c < pow2(53),
    ensures
        nearest(c * pow2(s), 1) == c * pow2(s),
{
    lemma_bits_bounds(c);
    if bits(c) > 53 {
        lemma_pow2_monotonic(53, (bits(c) - 1) as nat);
    }
    lemma_cell_of_units(c, s - 1074);
    lemma_exact(c * pow2(s), 1, c, s + 4000, 4000);
}

/// A number from zero to one.
pub open spec fn unit(x: Dbl) -> bool {
    is_binary64(x) && (x matches Dbl::Fin(n, u) && (n ==> u == 0) && u <= one())
}

/// What is rounded to at most one is a number from zero to one.
proof fn lemma_rounded_unit(neg: bool, num: nat, den: nat)
    requires
        den > 0,
        nearest(num, den) <= one(),
        neg ==> num == 0,
    ensures
        unit(rounded(neg, num, den)),
        rounded(neg, num, den) == Dbl::Fin(neg, nearest(num, den)),
{
    reveal(rounded);
    lemma_nearest_settled(num, den);
    lemma_pow2_strictly_increases(1074, 2098);
    if neg {
        lemma_zero_rounds(neg, den);
    }
}

proof fn lemma_sign(neg: bool, u: nat)
    requires
        unit(Dbl::Fin(neg, u)),
    ensures
        nearest(u, 1) == u,
{
    reveal(rounded);
}

/// The product of numbers from zero to one is one, and no greater than either.
pub proof fn lemma_unit_times(x: Dbl, y: Dbl)
    requires
        unit(x),
        unit(y),
    ensures
        unit(times(x, y)),
        times(x, y)->Fin_1 == nearest(x->Fin_1 * y->Fin_1, one()),
        times(x, y)->Fin_1 <= x->Fin_1,
        times(x, y)->Fin_1 <= y->Fin_1,
{
    reveal(times);
    lemma_of_one();
    let (a, u) = (x->Fin_0, x->Fin_1);
    let (b, v) = (y->Fin_0, y->Fin_1);
    lemma_sign(a, u);
    lemma_sign(b, v);
    assert(u * v <= u * one() && u * v <= v * one()) by (nonlinear_arith)
        requires
            u <= one(),
            v <= one(),
    ;
    lemma_nearest_bound(u * v, one(), u);
    lemma_nearest_bound(u * v, one(), v);
    assert((u == 0 || v == 0) ==> u * v == 0) by (nonlinear_arith);
    lemma_rounded_unit(a != b, u * v, one());
}

/// What a number from zero to one leaves of one is a number from zero to one.
pub proof fn lemma_unit_rest(x: Dbl)
    requires
        unit(x),
    ensures
        unit(minus(of_int(1), x)),
        minus(of_int(1), x)->Fin_1 == nearest((one() - x->Fin_1) as nat, 1),
{
    reveal(plus);
    lemma_of_one();
    let u = x->Fin_1;
    let rest = (one() - u) as nat;
    lemma_sign(false, one());
    lemma_nearest_bound(rest, 1, one());
    lemma_rounded_unit(false, rest, 1);
    if rest == 0 {
        lemma_zero_rounds(false, 1);
    }
}

/// The sum of numbers from zero to one, where it is no greater than one.
pub proof fn lemma_unit_plus(x: Dbl, y: Dbl)
    requires
        unit(x),
        unit(y),
        nearest(x->Fin_1 + y->Fin_1, 1) <= one(),
    ensures
        unit(plus(x, y)),
        plus(x, y)->Fin_1 == nearest(x->Fin_1 + y->Fin_1, 1),
{
    reveal(plus);
    let sum = x->Fin_1 + y->Fin_1;
    lemma_rounded_unit(false, sum, 1);
    if sum == 0 {
        lemma_zero_rounds(false, 1);
        lemma_zeros(true);
        lemma_zeros(false);
        reveal(rounded);
    }
}

/// The quotient of a number from zero to one and a greater one.
pub proof fn lemma_unit_over(x: Dbl, y: Dbl)
    requires
        unit(x),
        unit(y),
        x->Fin_1 <= y->Fin_1,
        y->Fin_1 > 0,
    ensures
        unit(over(x, y)),
{
    reveal(over);
    lemma_of_one();
    let (u, v) = (x->Fin_1, y->Fin_1);
    lemma_sign(false, one());
    assert(u * one() <= one() * v) by (nonlinear_arith)
        requires
            u <= v,
    ;
    lemma_nearest_bound(u * one(), v, one());
    assert(u == 0 ==> u * one() == 0) by (nonlinear_arith);
    lemma_rounded_unit(x->Fin_0 != y->Fin_0, u * one(), v);
}

/// A number and what it leaves of one make up no more than one.
proof fn lemma_rest_fits(u: nat)
    requires
        u <= one(),
        nearest(u, 1) == u,
    ensures
        nearest(u + nearest((one() - u) as nat, 1), 1) <= one(),
{
    lemma_of_one();
    lemma_sign(false, one());
    let rest = (one() - u) as nat;
    let w = nearest(rest, 1);
    lemma_place(rest, 1);
    let e = step_exp(rest);
    let step = pow2(e);
    let k = rest / (1 * step);
    assert(1 * step == step);
    assert(rest / 1 == rest);
    assert((k + 1) * step == k * step + step) by (nonlinear_arith);
    assert(2 * w <= 2 * rest + step);
    if u == 0 {
        assert(w == one());
    } else {
        assert(rest < one());
        lemma_bits_bounds(rest);
        if bits(rest) > 1074 {
            lemma_pow2_monotonic(1074, (bits(rest) - 1) as nat);
        }
        lemma_pow2_monotonic(e, 1021);
        lemma_pow2_unfold(1021);
        let d = pow2(1020);
        assert(u + w <= one() + d);
        lemma_nearest_monotonic(u + w, one() + d, 1);
        let top = one() + d;
        lemma_pow2_unfold(1075);
        lemma_pow2_monotonic(1020, 1074);
        lemma_pow2_pos(1020);
        lemma_pow2_strictly_increases(1020, 1074);
        lemma_bits_are(top, 1075);
        lemma_pow2_adds(52, 1022);
        lemma_pow2_unfold(1022);
        lemma_pow2_unfold(1021);
        let big = pow2(1022);
        assert(top / 1 == top);
        assert(step_exp(top) == 1022);
        assert((pow2(52) + 1) * big == pow2(52) * big + big) by (nonlinear_arith);
        lemma_quotient(top as int, big as int, pow2(52) as int);
        assert(1 * big == big);
        assert(nearest(top, 1) == one());
    }
}

/// A number from zero to one and a share of what it leaves of one: their sum is
/// no greater than one, and grows with the share.
pub proof fn lemma_unit_sum(x: Dbl, y: Dbl, z: Dbl)
    requires
        unit(x),
        unit(y),
        unit(z),
        y->Fin_1 <= x->Fin_1,
        z->Fin_1 <= nearest((one() - x->Fin_1) as nat, 1),
    ensures
        nearest(x->Fin_1 + z->Fin_1, 1) <= one(),
        forall|w: nat| w <= z->Fin_1 ==> #[trigger] nearest(y->Fin_1 + w, 1) <= nearest(x->Fin_1 + z->Fin_1, 1),
{
    let (u, m) = (x->Fin_1, z->Fin_1);
    lemma_sign(x->Fin_0, u);
    lemma_rest_fits(u);
    lemma_nearest_monotonic(u + m, u + nearest((one() - u) as nat, 1), 1);
    assert forall|w: nat| w <= m implies #[trigger] nearest(y->Fin_1 + w, 1) <= nearest(u + m, 1) by {
        lemma_nearest_monotonic(y->Fin_1 + w, u + m, 1);
    }
}

/// A smaller number has a smaller product.
pub proof fn lemma_unit_order(x: Dbl, y: Dbl, w: Dbl)
    requires
        unit(x),
        unit(y),
        unit(w),
        x->Fin_1 <= y->Fin_1,
    ensures
        times(x, w)->Fin_1 <= times(y, w)->Fin_1,
{
    lemma_unit_times(x, w);
    lemma_unit_times(y, w);
    lemma_of_one();
    assert(x->Fin_1 * w->Fin_1 <= y->Fin_1 * w->Fin_1) by (nonlinear_arith)
        requires
            x->Fin_1 <= y->Fin_1,
    ;
    lemma_nearest_monotonic(x->Fin_1 * w->Fin_1, y->Fin_1 * w->Fin_1, one());
}

/// The value without its sign.
pub open spec fn magnitude(x: Dbl) -> Dbl {
    match x {
        Dbl::Fin(_, u) => Dbl::Fin(false, u),
        Dbl::Inf(_) => Dbl::Inf(false),
        Dbl::Nan => Dbl::Nan,
    }
}

impl Double {
    /// The value without its sign.
    pub fn magnitude(self) -> (r: Double)
        ensures
            r@ == magnitude(self@),
    {
        match self {
            Double::Finite(f) => {
                proof {
                    use_type_invariant(&f);
                }
                Double::Finite(Finite { neg: false, mant: f.mant, exp: f.exp })
            },
            Double::Infinite(_) => Double::Infinite(false),
            Double::Nan => Double::Nan,
        }
    }

    /// Whether two values are the same, sign of zero included.
    pub fn is_same(self, o: Double) -> (r: bool)
        ensures
            r == (self@ == o@),
    {
        match (self, o) {
            (Double::Finite(a), Double::Finite(b)) => a.neg == b.neg && self.equals(o),
            (Double::Infinite(a), Double::Infinite(b)) => a == b,
            (Double::Nan, Double::Nan) => true,
            _ => false,
        }
    }
}

/// A decimal text of exactly this value: `o / 2^k` is `o * 5^k / 10^k`.
#[verifier::opaque]
pub open spec fn exact_text(neg: bool, u: nat) -> Seq<char> {
    let (o, k) = lowest(u, 1074);
    (if neg { "-"@ } else { ""@ }) + decimal(o * five_to(k)) + "e-"@ + decimal(k)
}

proof fn lemma_lowest(m: nat, j: nat, k: nat)
    requires
        j <= k,
    ensures
        lowest(m * pow2(j), k) == lowest(m, (k - j) as nat),
    decreases j,
{
    lemma2_to64();
    if j == 0 {
        assert(m * 1 == m);
    } else {
        lemma_pow2_unfold(j);
        let p = pow2((j - 1) as nat);
        assert(m * pow2(j) == 2 * (m * p)) by (nonlinear_arith)
            requires
                pow2(j) == 2 * p,
        ;
        lemma_lowest(m, (j - 1) as nat, (k - 1) as nat);
    }
}

impl Finite {
    /// A decimal text of exactly this number.
    pub fn exact_text(&self) -> (r: String)
        ensures
            r@ == exact_text(self.negative(), self.units()),
    {
        proof {
            reveal(exact_text);
        }
        proof {
            use_type_invariant(self);
            lemma2_to64();
        }
        let ghost u = self.units();
        let mut m: u64 = self.mant;
        let mut k: u32 = 0;
        let mut e: u32 = 0;
        if self.exp >= 0 {
            e = self.exp as u32;
            proof {
                let big = m as nat * pow2(e as nat);
                lemma_pow2_adds(e as nat, 1074);
                assert(u == big * pow2(1074)) by (nonlinear_arith)
                    requires
                        u == m as nat * (pow2(e as nat) * pow2(1074)),
                        big == m as nat * pow2(e as nat),
                ;
                lemma_lowest(big, 1074, 1074);
                assert(big * five_to(0) == m as nat * five_to(0) * pow2(e as nat)) by (nonlinear_arith)
                    requires
                        big == m as nat * pow2(e as nat),
                        five_to(0) == 1,
                ;
            }
        } else {
            k = (-self.exp) as u32;
            proof {
                lemma_lowest(m as nat, (1074 - k) as nat, 1074);
            }
            while k > 0 && m % 2 == 0
                invariant
                    lowest(u, 1074) == lowest(m as nat, k as nat),
                decreases k,
            {
                m = m / 2;
                k -= 1;
            }
        }
        proof {
            let (o, kk) = lowest(u, 1074);
            assert(kk == k);
            assert(m as nat * five_to(k as nat) * 1 == m as nat * five_to(k as nat));
        }
        let d = times_powers(m, k, e);
        let mut s = if self.neg {
            "-".to_owned()
        } else {
            "".to_owned()
        };
        s.append(text(&d).as_str());
        s.append("e-");
        s.append(decimal_of(k as u128).as_str());
        s
    }
}

// ---------------------------------------------------------------------------
// Whole numbers
// ---------------------------------------------------------------------------

/// The magnitude of an integer.
pub open spec fn size(n: int) -> nat {
    if n < 0 {
        (-n) as nat
    } else {
        n as nat
    }
}

/// Whether an integer has at most 53 binary digits.
pub open spec fn is_exact(n: int) -> bool {
    size(n) < 0x20_0000_0000_0000
}

/// An integer with at most 53 binary digits is itself.
pub proof fn lemma_of_exact(n: int)
    requires
        is_exact(n),
    ensures
        of_int(n) == Dbl::Fin(n < 0, size(n) * one()),
        nearest(size(n) * one(), 1) == size(n) * one(),
        size(n) * one() < pow2(2098),
        one() > 0,
{
    lemma_pow2_pos(1074);
    lemma_pow2_pos(2098);
    if n == 0 {
        lemma_of_zero();
        assert(0 * one() == 0) by (nonlinear_arith);
        lemma_zero_rounds(false, 1);
        reveal(rounded);
    } else {
        let m = size(n);
        lemma_of_small(m);
        reveal(of_int);
        reveal(rounded);
        if n < 0 {
            assert((-n) * one() == m * one());
        }
    }
}

/// The difference of two integers is exact.
pub proof fn lemma_exact_minus(a: int, b: int)
    requires
        is_exact(a),
        is_exact(b),
        is_exact(a - b),
    ensures
        minus(of_int(a), of_int(b)) == of_int(a - b),
{
    lemma_of_exact(a);
    lemma_of_exact(b);
    lemma_of_exact(a - b);
    let u = one() as int;
    reveal(plus);
    reveal(rounded);
    let s = signed(a < 0, size(a) * one()) + signed(!(b < 0), size(b) * one());
    assert(s == (a - b) * u) by (nonlinear_arith)
        requires
            s == signed(a < 0, size(a) * one()) + signed(!(b < 0), size(b) * one()),
            u == one(),
    ;
    assert(a - b > 0 ==> s > 0 && s == size(a - b) * one()) by (nonlinear_arith)
        requires
            s == (a - b) * u,
            u == one(),
            u > 0,
    ;
    assert(a - b < 0 ==> s < 0 && -s == size(a - b) * one()) by (nonlinear_arith)
        requires
            s == (a - b) * u,
            u == one(),
            u > 0,
    ;
    assert(a == b ==> s == 0) by (nonlinear_arith)
        requires
            s == (a - b) * u,
    ;
}

/// The product of an integer and a positive one is exact.
pub proof fn lemma_exact_times(a: int, b: int)
    requires
        is_exact(a),
        0 < b,
        is_exact(b),
        is_exact(a * b),
    ensures
        times(of_int(a), of_int(b)) == of_int(a * b),
{
    lemma_of_exact(a);
    lemma_of_exact(b);
    lemma_of_exact(a * b);
    reveal(times);
    reveal(rounded);
    assert(size(a * b) == size(a) * b) by (nonlinear_arith)
        requires
            b > 0,
    ;
    assert((a * b < 0) == (a < 0)) by (nonlinear_arith)
        requires
            b > 0,
    ;
    let x = size(a * b) * one();
    assert((size(a) * one()) * (size(b) * one()) == x * one()) by (nonlinear_arith)
        requires
            x == size(a) * b * one(),
            size(b) == b,
    ;
    lemma_nearest_scaled(x, one());
}

/// The quotient of a multiple of a positive integer is exact.
pub proof fn lemma_exact_over(a: int, b: int)
    requires
        is_exact(a),
        0 < b,
        is_exact(b),
        is_exact(a * b),
    ensures
        over(of_int(a * b), of_int(b)) == of_int(a),
{
    lemma_of_exact(a);
    lemma_of_exact(b);
    lemma_of_exact(a * b);
    reveal(over);
    reveal(rounded);
    assert(size(a * b) == size(a) * b) by (nonlinear_arith)
        requires
            b > 0,
    ;
    assert((a * b < 0) == (a < 0)) by (nonlinear_arith)
        requires
            b > 0,
    ;
    let x = size(a) * one();
    let k = size(b) * one();
    assert((size(a * b) * one()) * one() == x * k) by (nonlinear_arith)
        requires
            x == size(a) * one(),
            k == size(b) * one(),
            size(b) == b,
            size(a * b) == size(a) * b,
    ;
    assert(k > 0) by (nonlinear_arith)
        requires
            k == size(b) * one(),
            size(b) > 0,
            one() > 0,
    ;
    lemma_nearest_scaled(x, k);
}

/// An integer is the nearest whole number to itself.
pub proof fn lemma_exact_whole(n: int)
    requires
        is_exact(n),
    ensures
        whole(of_int(n)) == of_int(n),
        is_whole(of_int(n)),
        whole_part(of_int(n)) == size(n),
{
    lemma_of_exact(n);
    reveal(whole);
    reveal(is_whole);
    reveal(whole_part);
    let m = size(n);
    assert((m + 1) * one() == m * one() + one()) by (nonlinear_arith);
    lemma_quotient((m * one()) as int, one() as int, m as int);
}

/// Rounding moves a quotient by half a step at most, and a step is one unit, or
/// at most one part in `2^52` of the quotient.
proof fn lemma_nearest_close(num: nat, den: nat)
    requires
        den > 0,
    ensures
        ({
            let step = pow2(step_exp(num / den));
            &&& 2 * (nearest(num, den) * den - num) <= den * step
            &&& 2 * (num - nearest(num, den) * den) <= den * step
            &&& step == 1 || pow2(52) * (den * step) <= num
        }),
{
    lemma_place(num, den);
    let q = num / den;
    let step = pow2(step_exp(q));
    let m = den * step;
    let k = num / m;
    assert((k * step) * den == k * m && ((k + 1) * step) * den == k * m + m) by (nonlinear_arith)
        requires
            m == den * step,
    ;
    assert((k + 1) * m == k * m + m) by (nonlinear_arith);
    if bits(q) > 53 {
        assert(pow2(52) * m <= k * m) by (nonlinear_arith)
            requires
                pow2(52) <= k,
        ;
    } else {
        lemma2_to64();
    }
}

/// Whether a number, taken `c` times, lies within a quarter of the integer `n`.
pub open spec fn near(x: Dbl, c: nat, n: int) -> bool {
    x matches Dbl::Fin(neg, u) && 4 * (c * signed(neg, u) - n * one()) < one() && 4 * (n * one() - c * signed(neg, u))
        < one()
}

/// A number that lies near the `c`-th part of an integer is rounded to that
/// integer when it is taken `c` times.
pub proof fn lemma_near_whole(x: Dbl, c: nat, n: int)
    requires
        near(x, c, n),
        0 < c < 0x100_0000,
        size(n) < 0x100_0000_0000,
    ensures
        whole(times(x, of_int(c as int))) matches Dbl::Fin(neg, u) && u == size(n) * one() && (n != 0 ==> neg == (n < 0)),
{
    let neg = x->Fin_0;
    let u = x->Fin_1;
    let o = one();
    let m = size(n);
    let p = c * u;
    lemma_of_exact(c as int);
    lemma_of_exact(n);
    reveal(times);
    reveal(rounded);
    assert(u * (c * o) == p * o) by (nonlinear_arith)
        requires
            p == c * u,
    ;
    lemma_nearest_scaled(p, o);
    let r = nearest(p, 1);
    lemma_nearest_close(p, 1);
    assert(c * signed(neg, u) == signed(neg, p)) by (nonlinear_arith)
        requires
            p == c * u,
    ;
    assert(n * o == signed(n < 0, m * o)) by (nonlinear_arith)
        requires
            m == size(n),
    ;
    assert(n != 0 ==> m * o >= o) by (nonlinear_arith)
        requires
            m == size(n),
    ;
    assert(n == 0 ==> m * o == 0) by (nonlinear_arith)
        requires
            m == size(n),
    ;
    assert(n != 0 ==> neg == (n < 0));
    assert(4 * (p - m * o) < o && 4 * (m * o - p) < o);
    assert(m * o <= 0x100_0000_0000 * o) by (nonlinear_arith)
        requires
            m <= 0x100_0000_0000,
    ;
    let step = pow2(step_exp(p / 1));
    assert(p / 1 == p);
    assert(1 * step == step);
    lemma_pow2_u128();
    lemma_pow2_strictly_increases(10, 1074);
    lemma2_to64();
    assert(step == 1 || 0x10_0000_0000_0000 * step <= p);
    assert(r * 1 == r);
    assert(8 * (r - p) < o && 8 * (p - r) < o);
    assert(2 * (r - m * o) < o && 2 * (m * o - r) < o);
    assert(r < pow2(2098)) by {
        lemma_pow2_adds(1024, 1074);
        lemma_pow2_strictly_increases(41, 1024);
        assert(r < 0x200_0000_0000 * o);
        lemma2_to64_rest();
        assert(pow2(41) * o <= pow2(1024) * o) by (nonlinear_arith)
            requires
                pow2(41) <= pow2(1024),
        ;
    }
    assert(times(x, of_int(c as int)) == Dbl::Fin(neg, r));
    reveal(whole);
    assert((m + 1) * o == m * o + o) by (nonlinear_arith);
    if r >= m * o {
        lemma_quotient(r as int, o as int, m as int);
    } else {
        let l = (m - 1) as nat;
        assert(m > 0);
        assert(l * o + o == m * o) by (nonlinear_arith)
            requires
                l == m - 1,
        ;
        assert((l + 1) * o == l * o + o) by (nonlinear_arith);
        lemma_quotient(r as int, o as int, l as int);
    }
}

/// The number nearest to the `c`-th part of an integer lies near it.
pub proof fn lemma_share_near(n: int, c: nat)
    requires
        0 < c < 0x100_0000,
        size(n) < 0x100_0000_0000,
    ensures
        near(over(of_int(n), of_int(c as int)), c, n),
{
    let o = one();
    let m = size(n);
    lemma_of_exact(c as int);
    lemma_of_exact(n);
    reveal(over);
    reveal(rounded);
    let num = m * o * o;
    let den = c * o;
    assert(den > 0) by (nonlinear_arith)
        requires
            den == c * o,
            c > 0,
            o > 0,
    ;
    let u = nearest(num, den);
    lemma_nearest_close(num, den);
    let step = pow2(step_exp(num / den));
    assert(u * den == (c * u) * o) by (nonlinear_arith)
        requires
            den == c * o,
    ;
    let p = c * u;
    let d = p - m * o;
    assert(p * o - num == d * o) by (nonlinear_arith)
        requires
            d == p - m * o,
            num == m * o * o,
    ;
    assert(den * step == (c * step) * o) by (nonlinear_arith)
        requires
            den == c * o,
    ;
    let e = c * step;
    assert(2 * d <= e) by (nonlinear_arith)
        requires
            2 * (d * o) <= e * o,
            o > 0,
    ;
    assert(-2 * d <= e) by (nonlinear_arith)
        requires
            -2 * (d * o) <= e * o,
            o > 0,
    ;
    lemma_pow2_u128();
    lemma_pow2_strictly_increases(30, 1074);
    lemma2_to64();
    if step == 1 {
        assert(e == c) by (nonlinear_arith)
            requires
                e == c * step,
                step == 1,
        ;
    } else {
        assert(pow2(52) * e <= m * o) by (nonlinear_arith)
            requires
                pow2(52) * (e * o) <= (m * o) * o,
                o > 0,
        ;
        assert(m * o <= 0x100_0000_0000 * o) by (nonlinear_arith)
            requires
                m <= 0x100_0000_0000,
        ;
        assert(0x10_0000_0000_0000 * e <= 0x100_0000_0000 * o);
    }
    assert(4 * d < o && -4 * d < o);
    assert(u <= p) by (nonlinear_arith)
        requires
            p == c * u,
            c > 0,
    ;
    assert(u < pow2(2098)) by {
        lemma_pow2_adds(1024, 1074);
        lemma_pow2_strictly_increases(41, 1024);
        lemma2_to64_rest();
        assert(m * o <= 0x100_0000_0000 * o) by (nonlinear_arith)
            requires
                m <= 0x100_0000_0000,
        ;
        assert(pow2(41) * o <= pow2(1024) * o) by (nonlinear_arith)
            requires
                pow2(41) <= pow2(1024),
        ;
    }
    assert(c * signed(n < 0, u) == signed(n < 0, p)) by (nonlinear_arith)
        requires
            p == c * u,
    ;
    assert(n * o == signed(n < 0, m * o)) by (nonlinear_arith)
        requires
            m == size(n),
    ;
}

/// A number over itself is one.
pub proof fn lemma_over_self(x: Dbl)
    requires
        x matches Dbl::Fin(_, u) && u > 0,
    ensures
        over(x, x) == of_int(1),
{
    reveal(over);
    reveal(rounded);
    lemma_of_exact(1);
    let u = x->Fin_1;
    assert(u * one() == one() * u && 1 * one() == one()) by (nonlinear_arith);
    lemma_nearest_scaled(one(), u);
}

/// A number that lies near an integer is rounded to it.
pub proof fn lemma_near_itself(x: Dbl, n: int)
    requires
        near(x, 1, n),
    ensures
        whole(x) matches Dbl::Fin(neg, u) && u == size(n) * one() && (n != 0 ==> neg == (n < 0)),
{
    let neg = x->Fin_0;
    let r = x->Fin_1;
    let o = one();
    let m = size(n);
    lemma_pow2_pos(1074);
    assert(1 * signed(neg, r) == signed(neg, r)) by (nonlinear_arith);
    assert(n * o == signed(n < 0, m * o)) by (nonlinear_arith)
        requires
            m == size(n),
    ;
    assert(n != 0 ==> m * o >= o) by (nonlinear_arith)
        requires
            m == size(n),
    ;
    assert(n == 0 ==> m * o == 0) by (nonlinear_arith)
        requires
            m == size(n),
    ;
    assert(n != 0 ==> neg == (n < 0));
    assert(4 * (r - m * o) < o && 4 * (m * o - r) < o);
    reveal(whole);
    assert((m + 1) * o == m * o + o) by (nonlinear_arith);
    if r >= m * o {
        lemma_quotient(r as int, o as int, m as int);
    } else {
        let l = (m - 1) as nat;
        assert(m > 0);
        assert(l * o + o == m * o) by (nonlinear_arith)
            requires
                l == m - 1,
        ;
        assert((l + 1) * o == l * o + o) by (nonlinear_arith);
        lemma_quotient(r as int, o as int, l as int);
    }
}

} // verus!
