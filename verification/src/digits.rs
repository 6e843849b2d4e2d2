//! Natural numbers of any size as decimal digits.

use vstd::prelude::*;

use crate::strings::{decimal, digit_char, digit_char_of};

verus! {

/// The number that `d` writes, lowest digit first.
pub open spec fn number(d: Seq<u8>) -> nat
    decreases d.len(),
{
    if d.len() == 0 {
        0
    } else {
        d[0] as nat + 10 * number(d.skip(1))
    }
}

/// Digits below ten, the highest one not zero.
pub open spec fn proper(d: Seq<u8>) -> bool {
    &&& forall|i: int| 0 <= i < d.len() ==> #[trigger] d[i] < 10
    &&& d.len() > 0 ==> d.last() > 0
}

/// `10^n`.
pub open spec fn ten_to(n: nat) -> nat
    decreases n,
{
    if n == 0 {
        1
    } else {
        10 * ten_to((n - 1) as nat)
    }
}

/// `5^n`.
pub open spec fn five_to(n: nat) -> nat
    decreases n,
{
    if n == 0 {
        1
    } else {
        5 * five_to((n - 1) as nat)
    }
}

proof fn lemma_push(d: Seq<u8>, x: u8)
    ensures
        number(d.push(x)) == number(d) + x as nat * ten_to(d.len()),
    decreases d.len(),
{
    if d.len() == 0 {
        assert(d.push(x).skip(1) =~= Seq::<u8>::empty());
        assert(number(d.push(x).skip(1)) == 0);
        assert(d.push(x)[0] == x);
        assert(ten_to(0) == 1);
        assert(x as nat * 1 == x as nat);
    } else {
        let rest = d.skip(1);
        assert(d.push(x).skip(1) =~= rest.push(x));
        lemma_push(rest, x);
        assert(10 * (x as nat * ten_to(rest.len())) == x as nat * ten_to(d.len())) by (nonlinear_arith)
            requires
                ten_to(d.len()) == 10 * ten_to(rest.len()),
        ;
    }
}

/// Multiplies by a small factor.
fn scale(d: &Vec<u8>, c: u8) -> (r: Vec<u8>)
    requires
        proper(d@),
        1 <= c <= 10,
    ensures
        proper(r@),
        number(r@) == c as nat * number(d@),
        d.len() > 0 ==> r.len() > 0,
{
    let mut out: Vec<u8> = Vec::new();
    let mut carry: u8 = 0;
    let mut i: usize = 0;
    assert(d@.skip(0) =~= d@);
    assert(number(out@) == 0);
    assert(ten_to(0) == 1);
    assert(1 * (0 + c as nat * number(d@)) == c as nat * number(d@));
    while i < d.len()
        invariant
            i <= d.len(),
            out.len() == i,
            proper(d@),
            1 <= c <= 10,
            carry < 10,
            forall|j: int| 0 <= j < i ==> #[trigger] out@[j] < 10,
            c as nat * number(d@) == number(out@) + ten_to(i as nat) * (carry as nat + c as nat * number(
                d@.skip(i as int),
            )),
            i > 0 ==> (out@[i - 1] > 0 || carry > 0 || d@[i - 1] == 0),
        decreases d.len() - i,
    {
        let x = d[i];
        assert(x < 10);
        assert(x * c <= 9 * 10) by (nonlinear_arith)
            requires
                x <= 9,
                c <= 10,
        ;
        let v: u8 = x * c + carry;
        let low = v % 10;
        let high = v / 10;
        proof {
            let rest = d@.skip(i as int);
            let next = d@.skip(i + 1);
            assert(rest.skip(1) =~= next);
            assert(rest[0] == x);
            lemma_push(out@, low);
            let t = ten_to(i as nat);
            let t1 = ten_to((i + 1) as nat);
            assert(t * (carry as nat + c as nat * number(rest)) == low as nat * t + t1 * (high as nat + c as nat
                * number(next))) by (nonlinear_arith)
                requires
                    number(rest) == x as nat + 10 * number(next),
                    x * c + carry == 10 * high + low,
                    t1 == 10 * t,
            ;
            if x > 0 && low == 0 && high == 0 {
                assert(x * c >= 1) by (nonlinear_arith)
                    requires
                        x >= 1,
                        c >= 1,
                ;
            }
            assert(v <= 99);
        }
        out.push(low);
        carry = high;
        i += 1;
    }
    proof {
        assert(d@.skip(i as int) =~= Seq::<u8>::empty());
        assert(number(d@.skip(i as int)) == 0);
        lemma_push(out@, carry);
        assert(ten_to(i as nat) * (carry as nat + c as nat * 0) == carry as nat * ten_to(i as nat)) by (nonlinear_arith);
        assert(0 * ten_to(i as nat) == 0);
    }
    if carry > 0 {
        out.push(carry);
    }
    out
}

/// The digits of `n`.
pub fn digits_of(n: u64) -> (r: Vec<u8>)
    ensures
        proper(r@),
        number(r@) == n,
{
    let mut out: Vec<u8> = Vec::new();
    let mut m: u64 = n;
    assert(number(out@) == 0);
    assert(ten_to(0) == 1);
    assert(1 * n == n);
    while m > 0
        invariant
            forall|j: int| 0 <= j < out.len() ==> #[trigger] out@[j] < 10,
            m == 0 && out.len() > 0 ==> out@.last() > 0,
            n == number(out@) + ten_to(out@.len()) * m,
        decreases m,
    {
        proof {
            lemma_push(out@, (m % 10) as u8);
            let t = ten_to(out@.len());
            assert(t * m == (m % 10) as nat * t + (10 * t) * (m / 10)) by (nonlinear_arith)
                requires
                    m == 10 * (m / 10) + m % 10,
            ;
        }
        out.push((m % 10) as u8);
        m = m / 10;
    }
    proof {
        assert(ten_to(out@.len()) * 0 == 0);
    }
    out
}

/// `n * 5^k` and `n * 2^e`.
pub fn times_powers(n: u64, k: u32, e: u32) -> (r: Vec<u8>)
    ensures
        proper(r@),
        number(r@) == n as nat * five_to(k as nat) * vstd::arithmetic::power2::pow2(e as nat),
{
    let mut d = digits_of(n);
    let mut i: u32 = 0;
    assert(n as nat * 1 == n);
    while i < k
        invariant
            i <= k,
            proper(d@),
            number(d@) == n as nat * five_to(i as nat),
        decreases k - i,
    {
        d = scale(&d, 5);
        assert(5 * (n as nat * five_to(i as nat)) == n as nat * five_to((i + 1) as nat)) by (nonlinear_arith)
            requires
                five_to((i + 1) as nat) == 5 * five_to(i as nat),
        ;
        i += 1;
    }
    let mut j: u32 = 0;
    let ghost base = n as nat * five_to(k as nat);
    proof {
        vstd::arithmetic::power2::lemma2_to64();
        assert(base * 1 == base);
    }
    while j < e
        invariant
            j <= e,
            proper(d@),
            number(d@) == base * vstd::arithmetic::power2::pow2(j as nat),
        decreases e - j,
    {
        d = scale(&d, 2);
        proof {
            vstd::arithmetic::power2::lemma_pow2_unfold((j + 1) as nat);
            let p = vstd::arithmetic::power2::pow2(j as nat);
            assert(2 * (base * p) == base * (2 * p)) by (nonlinear_arith);
        }
        j += 1;
    }
    d
}

/// The text of `d`, highest digit first.
pub open spec fn written(d: Seq<u8>) -> Seq<char> {
    Seq::new(d.len(), |i: int| digit_char(d[d.len() - 1 - i] as nat))
}

proof fn lemma_written(d: Seq<u8>)
    requires
        proper(d),
        d.len() > 0,
    ensures
        written(d) == decimal(number(d)),
        number(d) > 0,
    decreases d.len(),
{
    let rest = d.skip(1);
    let n = number(d);
    if rest.len() == 0 {
        assert(number(rest) == 0);
        assert(written(d) =~= seq![digit_char(n)]);
    } else {
        assert(rest.last() == d.last());
        assert forall|i: int| 0 <= i < rest.len() implies #[trigger] rest[i] < 10 by {
            assert(rest[i] == d[i + 1]);
        }
        lemma_written(rest);
        assert(n / 10 == number(rest) && n % 10 == d[0]);
        assert(written(d) =~= written(rest).push(digit_char(d[0] as nat)));
    }
}

/// The digits in decimal.
pub fn text(d: &Vec<u8>) -> (r: String)
    requires
        proper(d@),
    ensures
        r@ == decimal(number(d@)),
{
    let mut out = String::new();
    if d.len() == 0 {
        out.push('0');
        assert(out@ =~= seq![digit_char(0)]);
        return out;
    }
    let mut i: usize = d.len();
    while i > 0
        invariant
            i <= d.len(),
            proper(d@),
            out@ == written(d@).take(d.len() - i),
        decreases i,
    {
        i -= 1;
        assert(d@[i as int] < 10);
        out.push(digit_char_of(d[i]));
        assert(written(d@).take(d.len() - i) =~= written(d@).take(d.len() - i - 1).push(digit_char(d@[i as int] as nat)));
    }
    proof {
        lemma_written(d@);
        assert(written(d@).take(d.len() as int) =~= written(d@));
    }
    out
}

} // verus!
