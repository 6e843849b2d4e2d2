use figma_framelink_cli::float::{from_int, Double};
use figma_framelink_cli::json::{to_text, Number, Value};
use figma_framelink_cli::simplify::numbers::{display, em_round, weight_as_u64};
use figma_framelink_cli::simplify::style::round2;
use figma_framelink_cli::simplify::{js_num, num, num_raw, pixel_round, uint};

fn double(x: f64) -> Double {
    Double::from_bits(x.to_bits())
}

fn float(x: Double) -> f64 {
    f64::from_bits(x.to_bits())
}

fn same(a: f64, b: f64) -> bool {
    a.to_bits() == b.to_bits() || (a.is_nan() && b.is_nan())
}

fn samples() -> Vec<f64> {
    let mut out = vec![
        0.0,
        -0.0,
        1.0,
        -1.0,
        0.1,
        0.5,
        1.5,
        2.5,
        -2.5,
        0.005,
        1.005,
        100.0,
        9007199254740991.0,
        9007199254740993.0,
        1e15,
        1e16,
        1e21,
        1.7976931348623157e308,
        5e-324,
        2.2250738585072014e-308,
        2.225073858507201e-308,
        f64::INFINITY,
        f64::NEG_INFINITY,
        f64::NAN,
    ];
    let mut state: u64 = 0x9e37_79b9_7f4a_7c15;
    for _ in 0..60 {
        state ^= state << 13;
        state ^= state >> 7;
        state ^= state << 17;
        out.push(f64::from_bits(state));
        out.push((state % 2_000_000) as f64 / 1000.0 - 1000.0);
    }
    out
}

#[test]
fn js_numbers_render_like_js() {
    assert_eq!(js_num(double(1.0)), "1");
    assert_eq!(js_num(double(-0.0)), "0");
    assert_eq!(js_num(double(0.5)), "0.5");
    assert_eq!(
        js_num(double(0.9960304498672485)),
        "0.9960304498672485"
    );
}

#[test]
fn large_js_numbers() {
    assert_eq!(js_num(double(-42.0)), "-42");
    assert_eq!(js_num(double(1152921504606846976.0)), "1152921504606847000");
    assert_eq!(js_num(double(1e20)), "100000000000000000000");
    assert_eq!(js_num(double(1e-5)), "0.00001");
    assert_eq!(js_num(double(1e-6)), "0.000001");
    assert_eq!(js_num(double(-1.5e-6)), "-0.0000015");
    let below = f64::from_bits(1e-6f64.to_bits() - 1);
    assert_eq!(js_num(double(below)), format!("{below:e}"));
    assert_eq!(js_num(double(1e-7)), "1e-7");
    assert_eq!(js_num(double(1e21)), "1e+21");
    assert_eq!(js_num(double(-1.5e300)), "-1.5e+300");
    assert_eq!(js_num(double(f64::NAN)), "NaN");
    assert_eq!(js_num(double(f64::NEG_INFINITY)), "-Infinity");
}

#[test]
fn bits_are_kept() {
    for x in samples() {
        assert!(same(float(double(x)), x), "{x:?}");
    }
}

#[test]
fn arithmetic_is_that_of_the_machine() {
    let all = samples();
    for a in &all {
        for b in &all {
            let (x, y) = (double(*a), double(*b));
            assert!(same(float(x.plus(y)), a + b), "{a:?} + {b:?}");
            assert!(same(float(x.minus(y)), a - b), "{a:?} - {b:?}");
            assert!(same(float(x.times(y)), a * b), "{a:?} * {b:?}");
            assert!(same(float(x.over(y)), a / b), "{a:?} / {b:?}");
            assert_eq!(x.is_less(y), a < b, "{a:?} < {b:?}");
            assert_eq!(x.equals(y), a == b, "{a:?} == {b:?}");
        }
    }
}

#[test]
fn rounding_and_casts_are_those_of_the_machine() {
    for a in samples() {
        let x = double(a);
        assert!(same(float(x.to_whole()), a.round()), "{a:?}");
        assert!(same(float(x.magnitude()), a.abs()), "{a:?}");
        assert!(same(float(x.negated()), -a), "{a:?}");
        assert_eq!(x.cast(0, u32::MAX as i128), a as u32 as i128, "{a:?}");
        assert_eq!(x.cast(i64::MIN as i128, i64::MAX as i128), a as i64 as i128, "{a:?}");
        assert!(same(float(pixel_round(x)), (a * 100.0).round() / 100.0), "{a:?}");
        assert!(same(float(round2(x)), (a * 100.0).round() / 100.0), "{a:?}");
        assert!(same(float(em_round(x)), (a * 10000.0).round() / 10000.0), "{a:?}");
        assert_eq!(display(x), format!("{a}"), "{a:?}");
    }
}

#[test]
fn integers_become_numbers() {
    for n in [0i64, 1, -1, 9007199254740993, i64::MAX, i64::MIN, 123456789] {
        assert!(same(float(from_int(n as i128)), n as f64), "{n}");
    }
    assert!(same(float(from_int(u64::MAX as i128)), u64::MAX as f64));
}

#[test]
fn json_numbers_lose_needless_fractions() {
    assert_eq!(to_text(&num(double(800.0))), "800");
    assert_eq!(to_text(&num(double(1.005))), "1");
    assert_eq!(to_text(&num(double(0.126))), "0.13");
    assert_eq!(to_text(&num(double(-0.001))), "0");
    assert_eq!(to_text(&num_raw(double(60.0))), "60");
    assert_eq!(to_text(&num_raw(double(0.30000000000000004))), "0.30000000000000004");
    assert_eq!(to_text(&num_raw(double(9e15))), "9000000000000000");
    assert_eq!(to_text(&num_raw(double(1e19))), "10000000000000000000");
    assert_eq!(to_text(&num_raw(double(-9223372036854775808.0))), "-9223372036854775808");
    assert_eq!(to_text(&num_raw(double(-0.0))), "0");
    assert_eq!(to_text(&num_raw(double(1e20))), "1e+20");
    assert_eq!(to_text(&num_raw(double(-7.0))), "-7");
    assert_eq!(to_text(&num_raw(double(f64::NAN))), "null");
}

#[test]
fn float_texts_are_those_of_serde_json() {
    for a in samples() {
        if let Double::Finite(f) = double(a) {
            let want = serde_json::Number::from_f64(a).unwrap().to_string();
            assert_eq!(to_text(&Value::Number(Number::Float(f))), want);
        }
    }
}

#[test]
fn whole_numbers_are_read_in_either_form() {
    let read = |x: f64| match double(x) {
        Double::Finite(f) => uint(&Value::Number(Number::Float(f))),
        _ => None,
    };
    assert_eq!(uint(&Value::Number(Number::PosInt(7))), Some(7));
    assert_eq!(read(2.0), Some(2));
    assert_eq!(read(2.5), None);
    assert_eq!(read(-1.0), None);
    assert_eq!(read(1e15), None);
    assert_eq!(read(999999999999999.0), Some(999999999999999));
    assert_eq!(uint(&Value::Number(Number::NegInt(-1))), None);
    assert_eq!(uint(&Value::String("7".to_string())), None);
    assert_eq!(weight_as_u64(&Value::Number(Number::PosInt(700))), Some(700));
}
