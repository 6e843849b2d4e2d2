//! Numbers as the design shows them: rounding, JSON numbers without needless
//! fractions, and number texts as JavaScript prints them.

use vstd::prelude::*;

use crate::float::{
    exact_text, from_int, is_exact, is_whole, lemma_exact_over, lemma_exact_times, lemma_exact_whole, lemma_near_whole,
    lemma_of_exact, lemma_of_zero, lemma_zero_rounds, less, magnitude, near, of_int, one, over, signed, size, times,
    whole, whole_part, Dbl, Double, Finite,
};
use crate::json::{Json, Num, Number, Value};
use crate::outside::{display_text, displayed, json_number, json_number_text};
use crate::strings::{signed_decimal, signed_decimal_of};

verus! {

/// `n` rounded to two decimals.
pub open spec fn hundredths(n: Dbl) -> Dbl {
    over(whole(times(n, of_int(100))), of_int(100))
}

/// `n` rounded to four decimals.
pub open spec fn ten_thousandths(n: Dbl) -> Dbl {
    over(whole(times(n, of_int(10000))), of_int(10000))
}

/// Rounds to two decimals, halves away from zero.
pub fn pixel_round(n: Double) -> (r: Double)
    ensures
        r@ == hundredths(n@),
{
    n.times(from_int(100)).to_whole().over(from_int(100))
}

/// Rounds to four decimals, halves away from zero.
pub fn em_round(n: Double) -> (r: Double)
    ensures
        r@ == ten_thousandths(n@),
{
    n.times(from_int(10000)).to_whole().over(from_int(10000))
}

/// Whether a number is whole and its magnitude is below `limit`.
pub open spec fn whole_below(x: Dbl, limit: nat) -> bool {
    is_whole(x) && whole_part(x) < limit
}

/// Whether a finite number is whole and its magnitude is below `limit`.
fn is_whole_below(f: &Finite, limit: u128) -> (r: bool)
    requires
        limit <= 0x10_0000_0000_0000_0000_0000_0000,
    ensures
        r == whole_below(f@, limit as nat),
{
    f.is_whole() && match f.whole_part() {
        Some(t) => t < limit,
        None => false,
    }
}

/// The value of a whole number that an `i64` can hold.
fn whole_value(f: &Finite) -> (r: i64)
    requires
        whole_below(f@, 0x40_0000_0000_0000),
    ensures
        r == signed(f.negative(), whole_part(f@)),
{
    match f.whole_part() {
        Some(t) => if f.is_negative() {
            -(t as i64)
        } else {
            t as i64
        },
        None => 0,
    }
}

/// A number with all its digits, without an exponent: whole numbers have no
/// decimal point, and a negative zero keeps its sign.
pub open spec fn display_form(x: Dbl) -> Seq<char> {
    match x {
        Dbl::Fin(n, u) => if n && u == 0 {
            "-0"@
        } else if whole_below(x, 0x20_0000_0000_0000) {
            signed_decimal(signed(n, whole_part(x)))
        } else {
            displayed(exact_text(n, u))
        },
        Dbl::Inf(n) => if n {
            "-inf"@
        } else {
            "inf"@
        },
        Dbl::Nan => "NaN"@,
    }
}

/// Writes a number with all its digits, without an exponent.
pub fn display(x: Double) -> (r: String)
    ensures
        r@ == display_form(x@),
{
    match x {
        Double::Finite(f) => if f.is_negative() && f.is_zero() {
            "-0".to_owned()
        } else if is_whole_below(&f, 0x20_0000_0000_0000) {
            signed_decimal_of(whole_value(&f))
        } else {
            display_text(f.exact_text().as_str())
        },
        Double::Infinite(n) => if n {
            "-inf".to_owned()
        } else {
            "inf".to_owned()
        },
        Double::Nan => "NaN".to_owned(),
    }
}

/// The number `0.000001`.
pub open spec fn millionth() -> Dbl {
    over(of_int(1), of_int(1_000_000))
}

/// Whether JavaScript prints a number without an exponent: whole numbers below
/// `1e21`, and fractions from `0.000001` on.
pub open spec fn unscaled(x: Dbl) -> bool {
    whole_below(x, 1_000_000_000_000_000_000_000) || (!is_whole(x) && !less(magnitude(x), millionth()))
}

fn is_unscaled(f: Finite) -> (r: bool)
    ensures
        r == unscaled(f@),
{
    if f.is_whole() {
        is_whole_below(&f, 1_000_000_000_000_000_000_000)
    } else {
        let x = Double::Finite(f).magnitude();
        !x.is_less(from_int(1).over(from_int(1_000_000)))
    }
}

/// A number as JavaScript prints it: whole numbers have no decimal point, and
/// a negative zero is `0`.
pub open spec fn js_text(x: Dbl) -> Seq<char> {
    match x {
        Dbl::Nan => "NaN"@,
        Dbl::Inf(n) => if n {
            "-Infinity"@
        } else {
            "Infinity"@
        },
        Dbl::Fin(n, u) => if u == 0 {
            "0"@
        } else if whole_below(x, 0x20_0000_0000_0000) {
            signed_decimal(signed(n, whole_part(x)))
        } else if unscaled(x) {
            displayed(exact_text(n, u))
        } else {
            json_number(exact_text(n, u))
        },
    }
}

/// Prints a number as JavaScript does.
pub fn js_num(v: Double) -> (r: String)
    ensures
        r@ == js_text(v@),
{
    match v {
        Double::Nan => "NaN".to_owned(),
        Double::Infinite(n) => if n {
            "-Infinity".to_owned()
        } else {
            "Infinity".to_owned()
        },
        Double::Finite(f) => if f.is_zero() {
            "0".to_owned()
        } else if is_whole_below(&f, 0x20_0000_0000_0000) {
            signed_decimal_of(whole_value(&f))
        } else {
            let exact = f.exact_text();
            if is_unscaled(f) {
                display_text(exact.as_str())
            } else {
                json_number_text(exact.as_str())
            }
        },
    }
}

/// Whether an integer of a JSON value can hold a number.
pub open spec fn integral(x: Dbl) -> bool {
    x matches Dbl::Fin(n, u) && is_whole(x) && -0x8000_0000_0000_0000 <= signed(n, whole_part(x))
        <= 0xffff_ffff_ffff_ffff
}

/// A number as a JSON value: a whole number is an integer where one can hold it,
/// and what JSON has no number for is null.
pub open spec fn plain_number(x: Dbl) -> Json {
    match x {
        Dbl::Fin(n, u) => if integral(x) {
            Json::Num(Num::Int(signed(n, whole_part(x))))
        } else {
            Json::Num(Num::Float(n, u))
        },
        _ => Json::Null,
    }
}

/// A number as it stands, as a JSON value.
pub fn num_raw(v: Double) -> (r: Value)
    ensures
        r@ == plain_number(v@),
{
    match v {
        Double::Finite(f) => {
            if f.is_whole() {
                if let Some(t) = f.whole_part() {
                    if !f.is_negative() || t == 0 {
                        if t <= 0xffff_ffff_ffff_ffff {
                            return Value::Number(Number::PosInt(t as u64));
                        }
                    } else if t <= 0x8000_0000_0000_0000 {
                        return Value::Number(Number::NegInt((-(t as i128)) as i64));
                    }
                }
            }
            Value::Number(Number::Float(f))
        },
        _ => Value::Null,
    }
}

/// A number rounded to two decimals, as a JSON value.
pub fn num(n: Double) -> (r: Value)
    ensures
        r@ == plain_number(hundredths(n@)),
{
    num_raw(pixel_round(n))
}

/// A JSON number that is a count: a non-negative integer, or a fraction-free
/// binary64 number below `limit`.
pub open spec fn counted(v: Json, limit: nat) -> Option<nat> {
    match v {
        Json::Num(Num::Int(i)) => if i >= 0 {
            Some(i as nat)
        } else {
            None
        },
        Json::Num(Num::Float(n, u)) => if whole_below(Dbl::Fin(n, u), limit) && (!n || u == 0) {
            Some(whole_part(Dbl::Fin(n, u)))
        } else {
            None
        },
        _ => None,
    }
}

/// A count, as fields write it with or without a fraction.
pub open spec fn uint_value(v: Json) -> Option<nat> {
    counted(v, 1_000_000_000_000_000)
}

/// A font weight, as fields write it with or without a fraction.
pub open spec fn weight_value(v: Json) -> Option<nat> {
    counted(v, 1001)
}

/// The count that an optional `u64` is.
pub open spec fn opt_nat(v: Option<u64>) -> Option<nat> {
    match v {
        Some(n) => Some(n as nat),
        None => None,
    }
}

fn count_below(v: &Value, limit: u64) -> (r: Option<u64>)
    ensures
        opt_nat(r) == counted(v@, limit as nat),
{
    match v {
        Value::Number(Number::PosInt(n)) => Some(*n),
        Value::Number(Number::NegInt(n)) => if *n >= 0 {
            Some(*n as u64)
        } else {
            None
        },
        Value::Number(Number::Float(f)) => if is_whole_below(f, limit as u128) && (!f.is_negative() || f.is_zero()) {
            match f.whole_part() {
                Some(t) => Some(t as u64),
                None => None,
            }
        } else {
            None
        },
        _ => None,
    }
}

/// Reads a count, tolerating a fraction-free number below `1e15`.
pub fn uint(v: &Value) -> (r: Option<u64>)
    ensures
        opt_nat(r) == uint_value(v@),
{
    count_below(v, 1_000_000_000_000_000)
}

/// Reads a font weight, tolerating a fraction-free number up to 1000.
pub fn weight_as_u64(v: &Value) -> (r: Option<u64>)
    ensures
        opt_nat(r) == weight_value(v@),
{
    count_below(v, 1001)
}

// ---------------------------------------------------------------------------
// Laws
// ---------------------------------------------------------------------------

/// Rounding to two decimals leaves whole numbers as they are.
pub proof fn whole_numbers_stay(n: int)
    requires
        is_exact(n * 100),
    ensures
        hundredths(of_int(n)) == of_int(n),
{
    lemma_exact_times(n, 100);
    lemma_exact_whole(n * 100);
    lemma_exact_over(n, 100);
}

/// A whole number is an integer as a JSON value.
pub proof fn whole_numbers_are_integers(n: int)
    requires
        is_exact(n),
    ensures
        plain_number(of_int(n)) == Json::Num(Num::Int(n)),
{
    lemma_of_exact(n);
    lemma_exact_whole(n);
}

/// Whole numbers are printed as integers.
pub proof fn whole_numbers_are_printed(n: int)
    requires
        is_exact(n),
    ensures
        js_text(of_int(n)) == signed_decimal(n),
{
    lemma_of_exact(n);
    lemma_exact_whole(n);
    lemma_zero_text();
    if n != 0 {
        assert(size(n) * one() > 0) by (nonlinear_arith)
            requires
                size(n) > 0,
                one() > 0,
        ;
    }
}

proof fn lemma_zero_text()
    ensures
        "0"@ == signed_decimal(0),
{
    reveal_strlit("0");
    assert("0"@ =~= signed_decimal(0));
}

/// A number that lies near the `c`-th part of an integer is printed as that
/// integer when it is taken `c` times and rounded.
pub proof fn shares_are_printed(x: Dbl, c: nat, n: int)
    requires
        near(x, c, n),
        0 < c < 0x100_0000,
        size(n) < 0x100_0000_0000,
    ensures
        js_text(whole(times(x, of_int(c as int)))) == signed_decimal(n),
{
    lemma_near_whole(x, c, n);
    lemma_of_exact(n);
    lemma_exact_whole(n);
    lemma_zero_text();
    let y = whole(times(x, of_int(c as int)));
    if n != 0 {
        assert(size(n) * one() > 0) by (nonlinear_arith)
            requires
                size(n) > 0,
                one() > 0,
        ;
        assert(y == of_int(n));
    } else {
        assert(0 * one() == 0) by (nonlinear_arith);
    }
}

/// Both zeros are the integer zero as a JSON value, rounded or not.
pub proof fn zeros_are_zero(neg: bool)
    ensures
        plain_number(hundredths(Dbl::Fin(neg, 0))) == Json::Num(Num::Int(0)),
        plain_number(Dbl::Fin(neg, 0)) == Json::Num(Num::Int(0)),
{
    whole_numbers_stay(0);
    whole_numbers_are_integers(0);
    lemma_of_zero();
    lemma_zero_parts(neg);
    if neg {
        lemma_of_exact(100);
        reveal(times);
        reveal(over);
        lemma_zero_rounds(true, one());
        lemma_zero_rounds(true, 100 * one());
        assert(0 * (100 * one()) == 0 && 0 * one() == 0) by (nonlinear_arith);
    }
}

proof fn lemma_zero_parts(neg: bool)
    ensures
        is_whole(Dbl::Fin(neg, 0)),
        whole_part(Dbl::Fin(neg, 0)) == 0,
        whole(Dbl::Fin(neg, 0)) == Dbl::Fin(neg, 0),
{
    lemma_of_exact(1);
    reveal(is_whole);
    reveal(whole_part);
    reveal(whole);
    vstd::arithmetic::div_mod::lemma_small_mod(0, one());
    vstd::arithmetic::div_mod::lemma_basic_div(0, one() as int);
    assert(0 * one() == 0) by (nonlinear_arith);
}

/// Whole numbers are written with their digits alone.
pub proof fn whole_numbers_are_displayed(n: int)
    requires
        is_exact(n),
    ensures
        display_form(of_int(n)) == signed_decimal(n),
{
    lemma_of_exact(n);
    lemma_exact_whole(n);
    if n < 0 {
        assert(size(n) * one() > 0) by (nonlinear_arith)
            requires
                size(n) > 0,
                one() > 0,
        ;
    }
}

} // verus!
