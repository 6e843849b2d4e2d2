//! Gradients as CSS.
//!
//! The angle of a gradient is an arc tangent of its direction, which is taken
//! from a table of turns: whoever has the document computes one turn for each
//! direction that `gradient_directions` finds in it.

use vstd::prelude::*;

use crate::float::{
    decoded, equal, from_int, lemma_of_zero, less, magnitude, minus, of_int, over, plus, rounded, times, whole, zero,
    Dbl, Double,
};
use crate::json::{
    arr_field, as_str, double_of, field, json_list, list_of, num_field, opt_double, str_field, str_of, Fields, Json,
    Object, Value,
};
use crate::simplify::color::{num_or, number_or, rgba_text, write_rgba};
use crate::simplify::numbers::{js_num, js_text};
use crate::strings::{cat2, cat3, join, joined, same, views};

verus! {

// ---------------------------------------------------------------------------
// Turns
// ---------------------------------------------------------------------------

/// The direction of a gradient, and its CSS angle in degrees.
#[derive(Clone, Copy, Debug)]
pub struct Turn {
    pub rise: Double,
    pub run: Double,
    pub degrees: Double,
}

/// The CSS angle in degrees of an arc tangent: upwards is zero, and pi is the
/// nearest number to it.
pub open spec fn css_degrees(radians: Dbl) -> Dbl {
    plus(over(times(radians, of_int(180)), decoded(0x4009_21fb_5444_2d18)), of_int(90))
}

/// The turn of a direction whose arc tangent is `radians`.
pub fn css_turn(rise: Double, run: Double, radians: Double) -> (r: Turn)
    ensures
        r.rise == rise,
        r.run == run,
        r.degrees@ == css_degrees(radians@),
{
    let half = radians.times(from_int(180)).over(Double::from_bits(0x4009_21fb_5444_2d18));
    Turn { rise, run, degrees: half.plus(from_int(90)) }
}

/// Directions and their angles.
pub type Turns = Seq<(Dbl, Dbl, Dbl)>;

pub open spec fn turns_view(s: Seq<Turn>) -> Turns {
    s.map_values(|t: Turn| (t.rise@, t.run@, t.degrees@))
}

/// The angle that the table has from row `i` on for a direction; a direction
/// that is not in the table has the angle zero.
pub open spec fn turn_from(turns: Turns, rise: Dbl, run: Dbl, i: int) -> Dbl
    decreases turns.len() - i,
{
    if i < 0 || i >= turns.len() {
        zero()
    } else if turns[i].0 == rise && turns[i].1 == run {
        turns[i].2
    } else {
        turn_from(turns, rise, run, i + 1)
    }
}

fn find_turn(turns: &Vec<Turn>, rise: Double, run: Double) -> (r: Double)
    ensures
        r@ == turn_from(turns_view(turns@), rise@, run@, 0),
{
    let ghost table = turns_view(turns@);
    let mut i: usize = 0;
    while i < turns.len()
        invariant
            i <= turns.len(),
            table == turns_view(turns@),
            turn_from(table, rise@, run@, 0) == turn_from(table, rise@, run@, i as int),
        decreases turns.len() - i,
    {
        let t = turns[i];
        assert(table[i as int] == (t.rise@, t.run@, t.degrees@));
        if t.rise.is_same(rise) && t.run.is_same(run) {
            return t.degrees;
        }
        i += 1;
    }
    from_zero()
}

fn from_zero() -> (r: Double)
    ensures
        r@ == zero(),
{
    let r = from_int(0);
    proof {
        lemma_of_zero();
    }
    r
}

// ---------------------------------------------------------------------------
// Handles and stops
// ---------------------------------------------------------------------------

/// The point that a handle is.
pub open spec fn handle(j: Json) -> Option<(Dbl, Dbl)> {
    match (num_field(j, "x"@), num_field(j, "y"@)) {
        (Some(x), Some(y)) => Some((x, y)),
        _ => None,
    }
}

/// The points among the first `n` handles.
pub open spec fn points(a: Seq<Json>, n: nat) -> Seq<(Dbl, Dbl)>
    decreases n,
{
    if n == 0 {
        Seq::empty()
    } else {
        match handle(a[n - 1]) {
            Some(p) => points(a, (n - 1) as nat).push(p),
            None => points(a, (n - 1) as nat),
        }
    }
}

/// The handles of a gradient, when there are two at least.
pub open spec fn handles(paint: Json) -> Option<Seq<(Dbl, Dbl)>> {
    match arr_field(paint, "gradientHandlePositions"@) {
        Some(a) => if points(a, a.len()).len() >= 2 {
            Some(points(a, a.len()))
        } else {
            None
        },
        None => None,
    }
}

/// The models of a list of points.
pub open spec fn points_view(s: Seq<(Double, Double)>) -> Seq<(Dbl, Dbl)> {
    s.map_values(|p: (Double, Double)| (p.0@, p.1@))
}

fn handles_of(paint: &Value) -> (r: Option<Vec<(Double, Double)>>)
    ensures
        match r {
            Some(v) => handles(paint@) == Some(points_view(v@)),
            None => handles(paint@) is None,
        },
{
    match list_of(paint.get("gradientHandlePositions")) {
        Some(a) => {
            let ghost m = json_list(a@);
            let mut out: Vec<(Double, Double)> = Vec::new();
            assert(points_view(out@) =~= points(m, 0));
            let mut i: usize = 0;
            while i < a.len()
                invariant
                    i <= a.len(),
                    m == json_list(a@),
                    points_view(out@) == points(m, i as nat),
                decreases a.len() - i,
            {
                match (double_of(a[i].get("x")), double_of(a[i].get("y"))) {
                    (Some(x), Some(y)) => {
                        let ghost before = out@;
                        out.push((x, y));
                        assert(points_view(out@) =~= points_view(before).push((x@, y@)));
                    },
                    _ => {},
                }
                i += 1;
            }
            if out.len() >= 2 {
                Some(out)
            } else {
                None
            }
        },
        None => None,
    }
}

/// The position of a stop.
pub open spec fn stop_position(s: Json) -> Dbl {
    num_or(s, "position"@, zero())
}

/// The place among the first `n` of the sorted stops `s` for a stop at `p`:
/// behind the stops that are not further.
pub open spec fn stop_place(s: Seq<Json>, n: int, p: Dbl) -> int
    decreases n,
{
    if n > 0 && less(p, stop_position(s[n - 1])) {
        stop_place(s, n - 1, p)
    } else {
        n
    }
}

/// The first `n` stops in the order of their positions; stops at one position
/// keep their order.
pub open spec fn sorted_upto(s: Seq<Json>, n: nat) -> Seq<Json>
    decreases n,
{
    if n == 0 {
        Seq::empty()
    } else {
        let before = sorted_upto(s, (n - 1) as nat);
        before.insert(stop_place(before, before.len() as int, stop_position(s[n - 1])), s[n - 1])
    }
}

/// The stops of a paint in the order of their positions.
pub open spec fn stops_in_order(paint: Json) -> Seq<Json> {
    match arr_field(paint, "gradientStops"@) {
        Some(a) => sorted_upto(a, a.len()),
        None => Seq::empty(),
    }
}

proof fn lemma_position(s: Json)
    ensures
        !(stop_position(s) is Nan),
{
    reveal(of_int);
    reveal(rounded);
}

/// No stop is behind a later one.
pub open spec fn in_order(s: Seq<Json>) -> bool {
    forall|i: int, j: int|
        0 <= i < j < s.len() ==> !less(stop_position(#[trigger] s[j]), stop_position(#[trigger] s[i]))
}

proof fn lemma_place(s: Seq<Json>, n: int, p: Dbl)
    requires
        0 <= n <= s.len(),
        in_order(s),
        !(p is Nan),
    ensures
        0 <= stop_place(s, n, p) <= n,
        forall|i: int| stop_place(s, n, p) <= i < n ==> less(p, stop_position(#[trigger] s[i])),
        forall|i: int| 0 <= i < stop_place(s, n, p) ==> !less(p, stop_position(#[trigger] s[i])),
    decreases n,
{
    if n > 0 {
        lemma_position(s[n - 1]);
        if less(p, stop_position(s[n - 1])) {
            lemma_place(s, n - 1, p);
        } else {
            assert forall|i: int| 0 <= i < n implies !less(p, stop_position(#[trigger] s[i])) by {
                lemma_position(s[i]);
                if i < n - 1 {
                    assert(!less(stop_position(s[n - 1]), stop_position(s[i])));
                }
            }
        }
    }
}

proof fn lemma_sorted(s: Seq<Json>, n: nat)
    requires
        n <= s.len(),
    ensures
        in_order(sorted_upto(s, n)),
        sorted_upto(s, n).to_multiset() =~= s.take(n as int).to_multiset(),
    decreases n,
{
    broadcast use vstd::seq_lib::group_to_multiset_ensures;

    if n == 0 {
        assert(s.take(0) =~= Seq::empty());
    } else {
        lemma_sorted(s, (n - 1) as nat);
        let before = sorted_upto(s, (n - 1) as nat);
        let x = s[n - 1];
        let p = stop_position(x);
        lemma_position(x);
        lemma_place(before, before.len() as int, p);
        let at = stop_place(before, before.len() as int, p);
        let after = before.insert(at, x);
        assert forall|i: int, j: int| 0 <= i < j < after.len() implies !less(
            stop_position(#[trigger] after[j]),
            stop_position(#[trigger] after[i]),
        ) by {
            lemma_position(after[i]);
            lemma_position(after[j]);
            if i == at {
                assert(after[j] == before[j - 1]);
            } else if j == at {
                assert(after[i] == before[i]);
            } else {
                let a = if i < at {
                    i
                } else {
                    i - 1
                };
                let b = if j < at {
                    j
                } else {
                    j - 1
                };
                assert(after[i] == before[a] && after[j] == before[b]);
            }
        }
        vstd::seq_lib::to_multiset_insert(before, at, x);
        assert(s.take(n as int) =~= s.take(n - 1).push(x));
    }
}

/// The stops of a gradient are its own, sorted by their positions.
pub proof fn stops_are_sorted(paint: Json)
    ensures
        in_order(stops_in_order(paint)),
        arr_field(paint, "gradientStops"@) matches Some(a) ==> stops_in_order(paint).to_multiset() == a.to_multiset(),
{
    if let Some(a) = arr_field(paint, "gradientStops"@) {
        lemma_sorted(a, a.len());
        assert(a.take(a.len() as int) =~= a);
    }
}

fn sorted_stops(paint: &Value) -> (r: Vec<Value>)
    ensures
        json_list(r@) == stops_in_order(paint@),
{
    let mut out: Vec<Value> = Vec::new();
    match list_of(paint.get("gradientStops")) {
        Some(a) => {
            let ghost m = json_list(a@);
            assert(json_list(out@) =~= sorted_upto(m, 0));
            let mut i: usize = 0;
            while i < a.len()
                invariant
                    i <= a.len(),
                    m == json_list(a@),
                    json_list(out@) == sorted_upto(m, i as nat),
                decreases a.len() - i,
            {
                let ghost before = json_list(out@);
                let p = number_or(&a[i], "position", from_zero());
                let mut k: usize = out.len();
                while k > 0 && p.is_less(number_or(&out[k - 1], "position", from_zero()))
                    invariant
                        k <= out.len(),
                        json_list(out@) == before,
                        stop_place(before, before.len() as int, p@) == stop_place(before, k as int, p@),
                    decreases k,
                {
                    k -= 1;
                }
                assert(k == stop_place(before, before.len() as int, p@));
                let copy = a[i].copy();
                out.insert(k, copy);
                assert(json_list(out@) =~= before.insert(k as int, m[i as int]));
                i += 1;
            }
            out
        },
        None => {
            assert(json_list(out@) =~= Seq::empty());
            out
        },
    }
}

// ---------------------------------------------------------------------------
// Texts
// ---------------------------------------------------------------------------

/// A number rounded to a whole one, as JavaScript prints it.
pub open spec fn whole_text(v: Dbl) -> Seq<char> {
    js_text(whole(v))
}

fn rn(v: Double) -> (r: String)
    ensures
        r@ == whole_text(v@),
{
    js_num(v.to_whole())
}

/// A share as a whole percentage.
pub open spec fn percent(v: Dbl) -> Seq<char> {
    whole_text(times(v, of_int(100))) + "%"@
}

fn write_percent(v: Double) -> (r: String)
    ensures
        r@ == percent(v@),
{
    cat2(rn(v.times(from_int(100))).as_str(), "%")
}

/// The colour of a stop.
pub open spec fn stop_color(s: Json) -> Json {
    match field(s, "color"@) {
        Some(c) => c,
        None => Json::Null,
    }
}

/// A stop at the place `at`.
pub open spec fn stop_text(s: Json, opacity: Dbl, at: Dbl) -> Seq<char> {
    rgba_text(stop_color(s), opacity) + " "@ + percent(at)
}

fn write_stop(s: &Value, opacity: Double, at: Double) -> (r: String)
    ensures
        r@ == stop_text(s@, opacity@, at@),
{
    let color = match s.get("color") {
        Some(c) => write_rgba(c, opacity),
        None => write_rgba(&Value::Null, opacity),
    };
    cat3(color.as_str(), " ", write_percent(at).as_str())
}

/// The part of the gradient line that crosses the box: where it begins and
/// where it ends.
pub type Span = Option<(Dbl, Dbl)>;

/// The place of a stop on the CSS gradient line.
pub open spec fn placed(p: Dbl, span: Span) -> Dbl {
    match span {
        Some((lo, hi)) => {
            let x = if equal(hi, lo) {
                p
            } else {
                over(minus(p, lo), minus(hi, lo))
            };
            if less(x, zero()) {
                zero()
            } else if less(of_int(1), x) {
                of_int(1)
            } else {
                x
            }
        },
        None => p,
    }
}

/// The stops of a gradient.
pub open spec fn stop_texts(stops: Seq<Json>, opacity: Dbl, span: Span) -> Seq<Seq<char>> {
    Seq::new(stops.len(), |i: int| stop_text(stops[i], opacity, placed(stop_position(stops[i]), span)))
}

pub open spec fn stops_text(stops: Seq<Json>, opacity: Dbl, span: Span) -> Seq<char> {
    joined(stop_texts(stops, opacity, span), ", "@)
}

/// The model of a span.
pub open spec fn span_view(s: Option<(Double, Double)>) -> Span {
    match s {
        Some((a, b)) => Some((a@, b@)),
        None => None,
    }
}

fn place(p: Double, span: Option<(Double, Double)>) -> (r: Double)
    ensures
        r@ == placed(p@, span_view(span)),
{
    match span {
        Some((lo, hi)) => {
            let x = if hi.equals(lo) {
                p
            } else {
                p.minus(lo).over(hi.minus(lo))
            };
            if x.is_less(from_zero()) {
                from_zero()
            } else if from_int(1).is_less(x) {
                from_int(1)
            } else {
                x
            }
        },
        None => p,
    }
}

fn format_stops(stops: &Vec<Value>, opacity: Double, span: Option<(Double, Double)>) -> (r: String)
    ensures
        r@ == stops_text(json_list(stops@), opacity@, span_view(span)),
{
    let ghost m = json_list(stops@);
    let mut parts: Vec<String> = Vec::new();
    let mut i: usize = 0;
    while i < stops.len()
        invariant
            i <= stops.len(),
            parts.len() == i,
            m == json_list(stops@),
            forall|k: int|
                0 <= k < i ==> (#[trigger] parts@[k])@ == stop_text(
                    m[k],
                    opacity@,
                    placed(stop_position(m[k]), span_view(span)),
                ),
        decreases stops.len() - i,
    {
        let at = place(number_or(&stops[i], "position", from_zero()), span);
        parts.push(write_stop(&stops[i], opacity, at));
        i += 1;
    }
    assert(views(parts@) =~= stop_texts(m, opacity@, span_view(span)));
    join(&parts, ", ")
}

// ---------------------------------------------------------------------------
// Geometry
// ---------------------------------------------------------------------------

/// `1e-10`.
pub open spec fn tiny() -> Dbl {
    decoded(0x3ddb_7cdf_d9d7_bdbbu64)
}

/// Whether a number lies in the closed unit interval.
pub open spec fn in_unit(x: Dbl) -> bool {
    (less(zero(), x) || equal(zero(), x)) && (less(x, of_int(1)) || equal(x, of_int(1)))
}

/// Where the line from `s` along `d` meets the edge at `edge` of one axis, if
/// it does so within the unit interval of the other axis.
pub open spec fn crossing(edge: Dbl, s: Dbl, d: Dbl, other: Dbl, other_d: Dbl) -> Option<Dbl> {
    let t = over(minus(edge, s), d);
    if in_unit(plus(other, times(t, other_d))) {
        Some(t)
    } else {
        None
    }
}

/// A parameter rounded to six decimals.
pub open spec fn millionths(t: Dbl) -> Dbl {
    over(whole(times(t, of_int(1000000))), of_int(1000000))
}

/// Whether an equal number is among the first `n`.
pub open spec fn among(s: Seq<Dbl>, n: int, x: Dbl) -> bool
    decreases n,
{
    n > 0 && (equal(s[n - 1], x) || among(s, n - 1, x))
}

/// The place among the first `n` of the sorted numbers `s` for `x`.
pub open spec fn mark_place(s: Seq<Dbl>, n: int, x: Dbl) -> int
    decreases n,
{
    if n > 0 && less(x, s[n - 1]) {
        mark_place(s, n - 1, x)
    } else {
        n
    }
}

/// The sorted numbers with one more, unless it is there.
pub open spec fn with_mark(s: Seq<Dbl>, t: Option<Dbl>) -> Seq<Dbl> {
    match t {
        Some(v) => {
            let x = millionths(v);
            if among(s, s.len() as int, x) {
                s
            } else {
                s.insert(mark_place(s, s.len() as int, x), x)
            }
        },
        None => s,
    }
}

/// The marks with the crossings of both edges of one axis.
pub open spec fn with_edges(m: Seq<Dbl>, s: Dbl, d: Dbl, other: Dbl, other_d: Dbl) -> Seq<Dbl> {
    if less(tiny(), magnitude(d)) {
        with_mark(
            with_mark(m, crossing(zero(), s, d, other, other_d)),
            crossing(of_int(1), s, d, other, other_d),
        )
    } else {
        m
    }
}

/// Where the line from `s` to `e` meets the edges of the unit square, in order.
pub open spec fn marks(s: (Dbl, Dbl), e: (Dbl, Dbl)) -> Seq<Dbl> {
    let dx = minus(e.0, s.0);
    let dy = minus(e.1, s.1);
    with_edges(with_edges(Seq::empty(), s.1, dy, s.0, dx), s.0, dx, s.1, dy)
}

/// The part of the line between its first two marks.
pub open spec fn line_span(s: (Dbl, Dbl), e: (Dbl, Dbl)) -> Span {
    let m = marks(s, e);
    if m.len() >= 2 {
        Some((m[0], m[1]))
    } else {
        None
    }
}

/// The models of a list of numbers.
pub open spec fn doubles_view(s: Seq<Double>) -> Seq<Dbl> {
    s.map_values(|d: Double| d@)
}

fn is_in_unit(x: Double) -> (r: bool)
    ensures
        r == in_unit(x@),
{
    (from_zero().is_less(x) || from_zero().equals(x)) && (x.is_less(from_int(1)) || x.equals(from_int(1)))
}

fn cross(edge: Double, s: Double, d: Double, other: Double, other_d: Double) -> (r: Option<Double>)
    ensures
        opt_double(r) == crossing(edge@, s@, d@, other@, other_d@),
{
    let t = edge.minus(s).over(d);
    if is_in_unit(other.plus(t.times(other_d))) {
        Some(t)
    } else {
        None
    }
}

fn add_mark(m: &mut Vec<Double>, t: Option<Double>)
    ensures
        doubles_view(final(m)@) == with_mark(doubles_view(old(m)@), opt_double(t)),
{
    let ghost s = doubles_view(m@);
    match t {
        Some(v) => {
            let x = v.times(from_int(1000000)).to_whole().over(from_int(1000000));
            let mut i: usize = m.len();
            while i > 0
                invariant
                    i <= m.len(),
                    *m == *old(m),
                    t == Some(v),
                    x@ == millionths(v@),
                    s == doubles_view(m@),
                    among(s, s.len() as int, x@) == among(s, i as int, x@),
                decreases i,
            {
                if m[i - 1].equals(x) {
                    return;
                }
                i -= 1;
            }
            let mut k: usize = m.len();
            while k > 0 && x.is_less(m[k - 1])
                invariant
                    k <= m.len(),
                    s == doubles_view(m@),
                    mark_place(s, s.len() as int, x@) == mark_place(s, k as int, x@),
                decreases k,
            {
                k -= 1;
            }
            assert(k == mark_place(s, s.len() as int, x@));
            m.insert(k, x);
            assert(doubles_view(m@) =~= s.insert(k as int, x@));
        },
        None => {},
    }
}

fn add_edges(m: &mut Vec<Double>, s: Double, d: Double, other: Double, other_d: Double)
    ensures
        doubles_view(final(m)@) == with_edges(doubles_view(old(m)@), s@, d@, other@, other_d@),
{
    let tiny = Double::from_bits(0x3ddb_7cdf_d9d7_bdbbu64);
    if tiny.is_less(d.magnitude()) {
        add_mark(m, cross(from_zero(), s, d, other, other_d));
        add_mark(m, cross(from_int(1), s, d, other, other_d));
    }
}

fn line_intersections(s: (Double, Double), e: (Double, Double)) -> (r: Option<(Double, Double)>)
    ensures
        span_view(r) == line_span((s.0@, s.1@), (e.0@, e.1@)),
{
    let dx = e.0.minus(s.0);
    let dy = e.1.minus(s.1);
    let mut m: Vec<Double> = Vec::new();
    assert(doubles_view(m@) =~= Seq::empty());
    add_edges(&mut m, s.1, dy, s.0, dx);
    add_edges(&mut m, s.0, dx, s.1, dy);
    if m.len() >= 2 {
        Some((m[0], m[1]))
    } else {
        None
    }
}

// ---------------------------------------------------------------------------
// CSS
// ---------------------------------------------------------------------------

/// The centre of a radial gradient.
pub open spec fn at_center(p: (Dbl, Dbl)) -> Seq<char> {
    "at "@ + percent(p.0) + " "@ + percent(p.1)
}

fn write_center(p: (Double, Double)) -> (r: String)
    ensures
        r@ == at_center((p.0@, p.1@)),
{
    let x = write_percent(p.0);
    cat3("at ", x.as_str(), cat2(" ", write_percent(p.1).as_str()).as_str())
}

/// The CSS form of a gradient with its stops, by its kind.
pub open spec fn css_form(kind: Seq<char>) -> Seq<char> {
    if kind == "GRADIENT_ANGULAR"@ {
        "conic-gradient("@
    } else if kind == "GRADIENT_RADIAL"@ || kind == "GRADIENT_DIAMOND"@ {
        "radial-gradient("@
    } else {
        "linear-gradient("@
    }
}

/// Whether both differences are too small for a line.
pub open spec fn no_length(dx: Dbl, dy: Dbl) -> bool {
    equal(plus(times(dx, dx), times(dy, dy)), zero())
}

/// What stands in front of the stops of a gradient with handles.
pub open spec fn css_head(kind: Seq<char>, h: Seq<(Dbl, Dbl)>, turns: Turns) -> Seq<char> {
    let rise = minus(h[1].1, h[0].1);
    let run = minus(h[1].0, h[0].0);
    let angle = whole_text(turn_from(turns, rise, run, 0)) + "deg"@;
    if kind == "GRADIENT_RADIAL"@ {
        "circle "@ + at_center(h[0])
    } else if kind == "GRADIENT_ANGULAR"@ {
        "from "@ + angle + " "@ + at_center(h[0])
    } else if kind == "GRADIENT_DIAMOND"@ {
        "ellipse "@ + at_center(h[0])
    } else if no_length(run, rise) {
        "0deg"@
    } else {
        angle
    }
}

/// The part of a linear gradient that its stops are placed on.
pub open spec fn css_span(kind: Seq<char>, h: Seq<(Dbl, Dbl)>) -> Span {
    if kind == "GRADIENT_RADIAL"@ || kind == "GRADIENT_ANGULAR"@ || kind == "GRADIENT_DIAMOND"@ || no_length(
        minus(h[1].0, h[0].0),
        minus(h[1].1, h[0].1),
    ) {
        None
    } else {
        line_span(h[0], h[1])
    }
}

/// The CSS of a gradient.
pub open spec fn gradient_css(paint: Json, turns: Turns) -> Seq<char> {
    let opacity = num_or(paint, "opacity"@, of_int(1));
    let stops = stops_in_order(paint);
    let kind = match str_field(paint, "type"@) {
        Some(k) => k,
        None => "GRADIENT_LINEAR"@,
    };
    let (head, span) = match handles(paint) {
        Some(h) => (css_head(kind, h, turns), css_span(kind, h)),
        None => ("0deg"@, None),
    };
    css_form(kind) + head + ", "@ + stops_text(stops, opacity, span) + ")"@
}

fn write_head(kind: &str, h: &Vec<(Double, Double)>, turns: &Vec<Turn>) -> (r: String)
    requires
        h.len() >= 2,
    ensures
        r@ == css_head(kind@, points_view(h@), turns_view(turns@)),
{
    let rise = h[1].1.minus(h[0].1);
    let run = h[1].0.minus(h[0].0);
    if same(kind, "GRADIENT_RADIAL") {
        cat2("circle ", write_center(h[0]).as_str())
    } else if same(kind, "GRADIENT_ANGULAR") {
        let angle = cat2(rn(find_turn(turns, rise, run)).as_str(), "deg");
        cat2(cat3("from ", angle.as_str(), " ").as_str(), write_center(h[0]).as_str())
    } else if same(kind, "GRADIENT_DIAMOND") {
        cat2("ellipse ", write_center(h[0]).as_str())
    } else if run.times(run).plus(rise.times(rise)).equals(from_zero()) {
        "0deg".to_owned()
    } else {
        cat2(rn(find_turn(turns, rise, run)).as_str(), "deg")
    }
}

fn find_span(kind: &str, h: &Vec<(Double, Double)>) -> (r: Option<(Double, Double)>)
    requires
        h.len() >= 2,
    ensures
        span_view(r) == css_span(kind@, points_view(h@)),
{
    let run = h[1].0.minus(h[0].0);
    let rise = h[1].1.minus(h[0].1);
    if same(kind, "GRADIENT_RADIAL") || same(kind, "GRADIENT_ANGULAR") || same(kind, "GRADIENT_DIAMOND")
        || run.times(run).plus(rise.times(rise)).equals(from_zero()) {
        None
    } else {
        line_intersections(h[0], h[1])
    }
}

/// Writes a gradient as CSS. The stops of a linear gradient are placed on the
/// part of its line that crosses the box.
pub fn convert_gradient_to_css(paint: &Value, turns: &Vec<Turn>) -> (r: String)
    ensures
        r@ == gradient_css(paint@, turns_view(turns@)),
{
    let opacity = number_or(paint, "opacity", from_int(1));
    let stops = sorted_stops(paint);
    let kind: &str = match str_of(paint.get("type")) {
        Some(k) => k,
        None => "GRADIENT_LINEAR",
    };
    let form: &str = if same(kind, "GRADIENT_ANGULAR") {
        "conic-gradient("
    } else if same(kind, "GRADIENT_RADIAL") || same(kind, "GRADIENT_DIAMOND") {
        "radial-gradient("
    } else {
        "linear-gradient("
    };
    let (head, span) = match handles_of(paint) {
        Some(h) => (write_head(kind, &h, turns), find_span(kind, &h)),
        None => ("0deg".to_owned(), None),
    };
    let stops = format_stops(&stops, opacity, span);
    cat3(cat3(form, head.as_str(), ", ").as_str(), stops.as_str(), ")")
}

// ---------------------------------------------------------------------------
// Directions
// ---------------------------------------------------------------------------

/// The direction of a paint with handles: how far it rises and runs.
pub open spec fn direction(paint: Json) -> Option<(Dbl, Dbl)> {
    match handles(paint) {
        Some(h) => Some((minus(h[1].1, h[0].1), minus(h[1].0, h[0].0))),
        None => None,
    }
}

/// The directions in a value, its own last.
pub open spec fn directions(j: Json) -> Seq<(Dbl, Dbl)>
    decreases j, 0nat,
{
    match j {
        Json::Arr(a) => directions_in(a, a.len()),
        Json::Obj(o) => {
            let inside = directions_under(o, o.len());
            match direction(j) {
                Some(d) => inside.push(d),
                None => inside,
            }
        },
        _ => Seq::empty(),
    }
}

/// The directions in the first `n` values of a list.
pub open spec fn directions_in(a: Seq<Json>, n: nat) -> Seq<(Dbl, Dbl)>
    decreases a, n,
{
    if n == 0 || n > a.len() {
        Seq::empty()
    } else {
        directions_in(a, (n - 1) as nat) + directions(a[n - 1])
    }
}

/// The directions in the first `n` values of an object.
pub open spec fn directions_under(o: Fields, n: nat) -> Seq<(Dbl, Dbl)>
    decreases o, n,
{
    if n == 0 || n > o.len() {
        Seq::empty()
    } else {
        directions_under(o, (n - 1) as nat) + directions(o[n - 1].1)
    }
}

fn collect_directions(v: &Value, out: &mut Vec<(Double, Double)>)
    ensures
        points_view(final(out)@) == points_view(old(out)@) + directions(v@),
    decreases *v,
{
    let ghost start = points_view(out@);
    match v {
        Value::Array(a) => {
            let ghost m = json_list(a@);
            assert(start =~= start + directions_in(m, 0));
            let mut i: usize = 0;
            while i < a.len()
                invariant
                    i <= a.len(),
                    m == json_list(a@),
                    *v is Array,
                    v->Array_0 == *a,
                    points_view(out@) == start + directions_in(m, i as nat),
                decreases a.len() - i,
            {
                collect_directions(&a[i], out);
                assert(start + directions_in(m, i as nat) + directions(m[i as int]) =~= start + directions_in(
                    m,
                    (i + 1) as nat,
                ));
                i += 1;
            }
        },
        Value::Object(o) => {
            let ghost m = o@;
            assert(start =~= start + directions_under(m, 0));
            let mut i: usize = 0;
            while i < o.entries.len()
                invariant
                    i <= o.entries.len(),
                    m == o@,
                    *v is Object,
                    v->Object_0 == *o,
                    points_view(out@) == start + directions_under(m, i as nat),
                decreases o.entries.len() - i,
            {
                collect_directions(&o.entries[i].1, out);
                assert(start + directions_under(m, i as nat) + directions(m[i as int].1) =~= start + directions_under(
                    m,
                    (i + 1) as nat,
                ));
                i += 1;
            }
            match handles_of(v) {
                Some(h) => {
                    let ghost before = out@;
                    let d = (h[1].1.minus(h[0].1), h[1].0.minus(h[0].0));
                    out.push(d);
                    assert(points_view(out@) =~= points_view(before).push((d.0@, d.1@)));
                    assert(points_view(out@) =~= start + directions(v@));
                },
                None => {},
            }
        },
        _ => {
            assert(start =~= start + directions(v@));
        },
    }
}

/// The directions of all gradients in a document.
pub fn gradient_directions(body: &Value) -> (r: Vec<(Double, Double)>)
    ensures
        points_view(r@) == directions(body@),
{
    let mut out: Vec<(Double, Double)> = Vec::new();
    collect_directions(body, &mut out);
    assert(points_view(out@) =~= directions(body@));
    out
}

/// The value at a path of positions in lists and objects.
pub open spec fn part_at(j: Json, path: Seq<int>) -> Option<Json>
    decreases path.len(),
{
    if path.len() == 0 {
        Some(j)
    } else {
        match j {
            Json::Arr(a) => if 0 <= path[0] < a.len() {
                part_at(a[path[0]], path.skip(1))
            } else {
                None
            },
            Json::Obj(o) => if 0 <= path[0] < o.len() {
                part_at(o[path[0]].1, path.skip(1))
            } else {
                None
            },
            _ => None,
        }
    }
}

proof fn lemma_in_sum(head: Seq<(Dbl, Dbl)>, tail: Seq<(Dbl, Dbl)>, d: (Dbl, Dbl))
    ensures
        head.contains(d) || tail.contains(d) ==> (head + tail).contains(d),
{
    if head.contains(d) {
        let k = choose|k: int| 0 <= k < head.len() && head[k] == d;
        assert((head + tail)[k] == d);
    } else if tail.contains(d) {
        let k = choose|k: int| 0 <= k < tail.len() && tail[k] == d;
        assert((head + tail)[head.len() + k] == d);
    }
}

proof fn lemma_directions_in(a: Seq<Json>, n: nat, i: int, d: (Dbl, Dbl))
    requires
        0 <= i < n <= a.len(),
        directions(a[i]).contains(d),
    ensures
        directions_in(a, n).contains(d),
    decreases n,
{
    if i < n - 1 {
        lemma_directions_in(a, (n - 1) as nat, i, d);
    }
    lemma_in_sum(directions_in(a, (n - 1) as nat), directions(a[n - 1]), d);
}

proof fn lemma_directions_under(o: Fields, n: nat, i: int, d: (Dbl, Dbl))
    requires
        0 <= i < n <= o.len(),
        directions(o[i].1).contains(d),
    ensures
        directions_under(o, n).contains(d),
    decreases n,
{
    if i < n - 1 {
        lemma_directions_under(o, (n - 1) as nat, i, d);
    }
    lemma_in_sum(directions_under(o, (n - 1) as nat), directions(o[n - 1].1), d);
}

/// Every paint in a document has its direction among those of the document.
pub proof fn directions_cover(j: Json, path: Seq<int>, paint: Json, d: (Dbl, Dbl))
    requires
        part_at(j, path) == Some(paint),
        direction(paint) == Some(d),
    ensures
        directions(j).contains(d),
    decreases path.len(),
{
    match j {
        Json::Arr(a) => {
            if path.len() > 0 {
                directions_cover(a[path[0]], path.skip(1), paint, d);
                lemma_directions_in(a, a.len(), path[0], d);
            }
        },
        Json::Obj(o) => {
            let inside = directions_under(o, o.len());
            if path.len() == 0 {
                assert(inside.push(d)[inside.len() as int] == d);
            } else {
                directions_cover(o[path[0]].1, path.skip(1), paint, d);
                lemma_directions_under(o, o.len(), path[0], d);
                let k = choose|k: int| 0 <= k < inside.len() && inside[k] == d;
                if let Some(own) = direction(j) {
                    assert(inside.push(own)[k] == d);
                }
            }
        },
        _ => {},
    }
}

} // verus!
