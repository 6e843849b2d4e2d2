//! What the CSS of paints tells of them: colours, centres and stops.

use vstd::prelude::*;

use crate::float::{
    cast, equal, lemma_near_whole, lemma_of_exact, lemma_of_one, lemma_times_one, lemma_zero_rounds, less, near,
    of_int, one, over, size, times, whole, zero, Dbl,
};
use crate::json::{arr_field, field, get_after_put, num_field, put, str_field, Fields, Json};
use crate::simplify::color::{alpha, channel_hex, channel_text, num_or, rgba, rgba_text, scaled};
use crate::simplify::gradient::{
    at_center, css_form, css_head, gradient_css, handle, handles, in_order, percent, points, sorted_upto, stop_place,
    stop_position, stop_text, stop_texts, stops_in_order, stops_text, turn_from, whole_text, Turns,
};
use crate::simplify::numbers::{hundredths, js_text, shares_are_printed, whole_numbers_stay};
use crate::simplify::style::{fills_of, paint, visible_paints, visible_upto};
use crate::strings::{decimal, decimals_tell_numbers_apart, hex_byte, joined, signed_decimal};

verus! {

// ---------------------------------------------------------------------------
// Colours
// ---------------------------------------------------------------------------

/// Whether a colour is red, green and blue on the scale up to 255.
pub open spec fn colored(color: Json, r: nat, g: nat, b: nat) -> bool {
    &&& r <= 255 && g <= 255 && b <= 255
    &&& num_field(color, "r"@) matches Some(x) && near(x, 255, r as int)
    &&& num_field(color, "g"@) matches Some(x) && near(x, 255, g as int)
    &&& num_field(color, "b"@) matches Some(x) && near(x, 255, b as int)
}

/// A byte as two digits.
pub open spec fn two_digits(n: nat) -> Seq<char> {
    seq!["0123456789ABCDEF"@[(n / 16) as int], "0123456789ABCDEF"@[(n % 16) as int]]
}

proof fn lemma_channel(x: Dbl, n: nat)
    requires
        near(x, 255, n as int),
        n <= 255,
    ensures
        channel_text(x) == decimal(n),
        channel_hex(x) == two_digits(n),
{
    lemma_near_whole(x, 255, n as int);
    lemma_of_exact(n as int);
    let y = scaled(x);
    let u = n * one();
    reveal(cast);
    assert(y->Fin_1 == u);
    assert(u / one() == n) by {
        vstd::arithmetic::div_mod::lemma_div_multiples_vanish(n as int, one() as int);
        assert(n * one() == one() * n) by (nonlinear_arith);
    }
    assert(cast(y, 0, 255) == n);
    assert(cast(y, -0x8000_0000_0000_0000, 0x7fff_ffff_ffff_ffff) == n);
    lemma_byte(n);
}

proof fn lemma_byte(n: nat)
    requires
        n <= 255,
    ensures
        hex_byte(n as u8, true) == two_digits(n),
{
    reveal_strlit("0123456789ABCDEF");
    assert(hex_byte(n as u8, true) =~= two_digits(n));
}

/// The `rgba()` text of a colour tells its channels on the scale up to 255, and its
/// alpha in hundredths.
pub proof fn rgba_tells_the_color(color: Json, opacity: Dbl, r: nat, g: nat, b: nat, k: nat)
    requires
        colored(color, r, g, b),
        k <= 100,
        near(
            times(
                opacity,
                match num_field(color, "a"@) {
                    Some(a) => a,
                    None => of_int(1),
                },
            ),
            100,
            k as int,
        ),
    ensures
        rgba_text(color, opacity) == "rgba("@ + decimal(r) + ", "@ + decimal(g) + ", "@ + decimal(b) + ", "@ + js_text(
            over(of_int(k as int), of_int(100)),
        ) + ")"@,
{
    let c = rgba(color);
    lemma_channel(c.r, r);
    lemma_channel(c.g, g);
    lemma_channel(c.b, b);
    lemma_alpha_text(times(opacity, c.a), k);
}

proof fn lemma_alpha_text(x: Dbl, k: nat)
    requires
        near(x, 100, k as int),
        k <= 100,
    ensures
        js_text(hundredths(x)) == js_text(over(of_int(k as int), of_int(100))),
        k > 0 ==> hundredths(x) == over(of_int(k as int), of_int(100)),
{
    lemma_near_whole(x, 100, k as int);
    lemma_of_exact(k as int);
    lemma_of_exact(100);
    let y = whole(times(x, of_int(100)));
    if k > 0 {
        assert(y == of_int(k as int));
    } else {
        assert(0 * one() == 0) by (nonlinear_arith);
        reveal(over);
        lemma_zero_rounds(true, 100 * one());
        lemma_zero_rounds(false, 100 * one());
    }
}

/// Whether nothing of a paint shines through.
pub open spec fn covers(paint: Json, color: Json) -> bool {
    &&& num_field(paint, "opacity"@) is None || num_field(paint, "opacity"@) == Some(of_int(1))
    &&& num_field(color, "a"@) is None || num_field(color, "a"@) == Some(of_int(1))
}

/// A solid paint that covers is written as the bytes of its channels in
/// hexadecimal: red, green, blue.
pub proof fn hex_tells_the_color(raw: Json, color: Json, has_children: bool, turns: Turns, r: nat, g: nat, b: nat)
    requires
        str_field(raw, "type"@) == Some("SOLID"@),
        field(raw, "color"@) == Some(color),
        colored(color, r, g, b),
        covers(raw, color),
    ensures
        paint(raw, has_children, turns) == Json::Str("#"@ + two_digits(r) + two_digits(g) + two_digits(b)),
{
    let c = rgba(color);
    lemma_channel(c.r, r);
    lemma_channel(c.g, g);
    lemma_channel(c.b, b);
    lemma_of_one();
    lemma_times_one(of_int(1));
    whole_numbers_stay(1);
    assert(alpha(c, of_int(1)) == of_int(1));
    assert(equal(of_int(1), of_int(1)));
    reveal_strlit("SOLID");
    reveal_strlit("IMAGE");
    reveal_strlit("PATTERN");
    reveal_strlit("GRADIENT");
    assert("SOLID"@[0] == 'S' && "IMAGE"@[0] == 'I' && "PATTERN"@[0] == 'P' && "GRADIENT"@.len() == 8 && "SOLID"@.len()
        == 5);
}

// ---------------------------------------------------------------------------
// Gradients
// ---------------------------------------------------------------------------

/// A share as a percentage.
pub open spec fn percentage(n: int) -> Seq<char> {
    signed_decimal(n) + "%"@
}

/// Whether a gradient has handles, and the first one lies at `a` and `b` percent.
pub open spec fn centered(raw: Json, a: int, b: int) -> bool {
    &&& size(a) < 0x100_0000_0000 && size(b) < 0x100_0000_0000
    &&& arr_field(raw, "gradientHandlePositions"@) matches Some(h)
    &&& h.len() > 0
    &&& num_field(h[0], "x"@) matches Some(x) && near(x, 100, a)
    &&& num_field(h[0], "y"@) matches Some(y) && near(y, 100, b)
    &&& exists|j: int|
        0 < j < h.len() && num_field(#[trigger] h[j], "x"@) is Some && num_field(h[j], "y"@) is Some
}

proof fn lemma_points(h: Seq<Json>, n: nat, p: (Dbl, Dbl))
    requires
        0 < n <= h.len(),
        handle(h[0]) == Some(p),
    ensures
        points(h, n).len() >= 1,
        points(h, n)[0] == p,
        forall|j: int| 0 < j < n && (#[trigger] handle(h[j])) is Some ==> points(h, n).len() >= 2,
    decreases n,
{
    if n > 1 {
        lemma_points(h, (n - 1) as nat, p);
    } else {
        assert(points(h, 0) =~= Seq::empty());
    }
}

proof fn lemma_centered(raw: Json, a: int, b: int)
    requires
        centered(raw, a, b),
    ensures
        handles(raw) matches Some(p) && p.len() >= 2 && at_center(p[0]) == "at "@ + percentage(a) + " "@ + percentage(b),
{
    let h = arr_field(raw, "gradientHandlePositions"@)->0;
    let p = handle(h[0])->0;
    lemma_points(h, h.len(), p);
    let j = choose|j: int|
        0 < j < h.len() && num_field(#[trigger] h[j], "x"@) is Some && num_field(h[j], "y"@) is Some;
    assert(handle(h[j]) is Some);
    shares_are_printed(p.0, 100, a);
    shares_are_printed(p.1, 100, b);
}

/// The gradient that a paint has become.
pub open spec fn gradient_told(raw: Json, has_children: bool, turns: Turns) -> Option<Seq<char>> {
    str_field(paint(raw, has_children, turns), "gradient"@)
}

/// A gradient paint holds the CSS of its gradient.
pub proof fn lemma_gradient_told(raw: Json, has_children: bool, turns: Turns, kind: Seq<char>)
    requires
        str_field(raw, "type"@) == Some(kind),
        kind == "GRADIENT_RADIAL"@ || kind == "GRADIENT_ANGULAR"@ || kind == "GRADIENT_DIAMOND"@ || kind
            == "GRADIENT_LINEAR"@,
    ensures
        gradient_told(raw, has_children, turns) == Some(gradient_css(raw, turns)),
{
    reveal_strlit("GRADIENT");
    reveal_strlit("GRADIENT_RADIAL");
    reveal_strlit("GRADIENT_ANGULAR");
    reveal_strlit("GRADIENT_DIAMOND");
    reveal_strlit("GRADIENT_LINEAR");
    reveal_strlit("IMAGE");
    reveal_strlit("PATTERN");
    reveal_strlit("type");
    reveal_strlit("gradient");
    assert("IMAGE"@.len() == 5 && "PATTERN"@.len() == 7 && kind.len() > 8);
    assert(kind.subrange(0, 8) =~= "GRADIENT"@);
    assert("type"@.len() != "gradient"@.len());
    get_after_put(
        put(Fields::empty(), "type"@, Json::Str(kind)),
        "gradient"@,
        Json::Str(gradient_css(raw, turns)),
        "gradient"@,
    );
}

proof fn lemma_kinds()
    ensures
        "GRADIENT_RADIAL"@ != "GRADIENT_ANGULAR"@,
        "GRADIENT_RADIAL"@ != "GRADIENT_DIAMOND"@,
        "GRADIENT_ANGULAR"@ != "GRADIENT_DIAMOND"@,
{
    reveal_strlit("GRADIENT_RADIAL");
    reveal_strlit("GRADIENT_ANGULAR");
    reveal_strlit("GRADIENT_DIAMOND");
    assert("GRADIENT_RADIAL"@[9] == 'R' && "GRADIENT_ANGULAR"@[9] == 'A' && "GRADIENT_DIAMOND"@[9] == 'D');
}

/// The head of a gradient that has a centre, by its kind; `angle` is that of an
/// angular gradient.
pub open spec fn round_head(kind: Seq<char>, angle: Seq<char>, a: int, b: int) -> Seq<char> {
    let center = "at "@ + percentage(a) + " "@ + percentage(b) + ", "@;
    if kind == "GRADIENT_RADIAL"@ {
        "radial-gradient(circle "@ + center
    } else if kind == "GRADIENT_DIAMOND"@ {
        "radial-gradient(ellipse "@ + center
    } else {
        "conic-gradient(from "@ + angle + "deg "@ + center
    }
}

/// A radial, angular or diamond gradient is written with its first handle as its
/// centre: the coordinates of the handle in percent.
pub proof fn centre_is_the_first_handle(
    raw: Json,
    has_children: bool,
    turns: Turns,
    kind: Seq<char>,
    a: int,
    b: int,
)
    requires
        str_field(raw, "type"@) == Some(kind),
        kind == "GRADIENT_RADIAL"@ || kind == "GRADIENT_ANGULAR"@ || kind == "GRADIENT_DIAMOND"@,
        centered(raw, a, b),
    ensures
        exists|angle: Seq<char>, stops: Seq<char>|
            gradient_told(raw, has_children, turns) == Some(#[trigger] (round_head(kind, angle, a, b) + stops)),
{
    lemma_gradient_told(raw, has_children, turns, kind);
    lemma_centered(raw, a, b);
    lemma_kinds();
    let h = handles(raw)->0;
    let rise = crate::float::minus(h[1].1, h[0].1);
    let run = crate::float::minus(h[1].0, h[0].0);
    let angle = whole_text(turn_from(turns, rise, run, 0));
    let opacity = num_or(raw, "opacity"@, of_int(1));
    let stops = stops_text(stops_in_order(raw), opacity, None) + ")"@;
    reveal_strlit("radial-gradient(");
    reveal_strlit("conic-gradient(");
    reveal_strlit("circle ");
    reveal_strlit("ellipse ");
    reveal_strlit("from ");
    reveal_strlit("deg");
    reveal_strlit(" ");
    reveal_strlit("radial-gradient(circle ");
    reveal_strlit("radial-gradient(ellipse ");
    reveal_strlit("conic-gradient(from ");
    reveal_strlit("deg ");
    assert("radial-gradient("@ + "circle "@ =~= "radial-gradient(circle "@);
    assert("radial-gradient("@ + "ellipse "@ =~= "radial-gradient(ellipse "@);
    assert("conic-gradient("@ + "from "@ =~= "conic-gradient(from "@);
    assert("deg"@ + " "@ =~= "deg "@);
    let c = "at "@ + percentage(a) + " "@ + percentage(b);
    if kind == "GRADIENT_RADIAL"@ {
        assert(gradient_css(raw, turns) =~= "radial-gradient("@ + ("circle "@ + c) + ", "@ + stops);
        assert(gradient_css(raw, turns) =~= round_head(kind, angle, a, b) + stops);
    } else if kind == "GRADIENT_DIAMOND"@ {
        assert(gradient_css(raw, turns) =~= "radial-gradient("@ + ("ellipse "@ + c) + ", "@ + stops);
        assert(gradient_css(raw, turns) =~= round_head(kind, angle, a, b) + stops);
    } else {
        assert(gradient_css(raw, turns) =~= "conic-gradient("@ + ("from "@ + (angle + "deg"@) + " "@ + c) + ", "@
            + stops);
        assert(gradient_css(raw, turns) =~= round_head(kind, angle, a, b) + stops);
    }
}

proof fn lemma_sorted_stays(stops: Seq<Json>, n: nat)
    requires
        n <= stops.len(),
        in_order(stops),
    ensures
        sorted_upto(stops, n) == stops.take(n as int),
    decreases n,
{
    if n > 0 {
        lemma_sorted_stays(stops, (n - 1) as nat);
        let before = stops.take(n - 1);
        let p = stop_position(stops[n - 1]);
        if before.len() > 0 {
            assert(before[before.len() - 1] == stops[n - 2]);
            assert(!less(stop_position(stops[n - 1]), stop_position(stops[n - 2])));
        }
        assert(stop_place(before, before.len() as int, p) == before.len());
        assert(before.insert(before.len() as int, stops[n - 1]) =~= stops.take(n as int));
    } else {
        assert(stops.take(0) =~= Seq::empty());
    }
}

/// The stops of a radial, angular or diamond gradient are told one after another,
/// each by its colour and its position in percent.
pub proof fn stops_are_told(
    raw: Json,
    has_children: bool,
    turns: Turns,
    kind: Seq<char>,
    a: int,
    b: int,
    stops: Seq<Json>,
    opacity: Dbl,
)
    requires
        str_field(raw, "type"@) == Some(kind),
        kind == "GRADIENT_RADIAL"@ || kind == "GRADIENT_ANGULAR"@ || kind == "GRADIENT_DIAMOND"@,
        centered(raw, a, b),
        num_field(raw, "opacity"@) == Some(opacity) || (num_field(raw, "opacity"@) is None && opacity == of_int(1)),
        arr_field(raw, "gradientStops"@) == Some(stops),
        in_order(stops),
    ensures
        exists|head: Seq<char>, parts: Seq<Seq<char>>|
            {
                &&& gradient_told(raw, has_children, turns) == Some(#[trigger] (head + joined(parts, ", "@)) + ")"@)
                &&& parts.len() == stops.len()
                &&& forall|i: int, color: Json, at: int|
                    #![trigger parts[i], rgba_text(color, opacity), percentage(at)]
                    0 <= i < stops.len() && field(stops[i], "color"@) == Some(color) && size(at) < 0x100_0000_0000
                        && near(
                        match num_field(stops[i], "position"@) {
                            Some(p) => p,
                            None => zero(),
                        },
                        100,
                        at,
                    ) ==> parts[i] == rgba_text(color, opacity) + " "@ + percentage(at)
            },
{
    lemma_gradient_told(raw, has_children, turns, kind);
    lemma_centered(raw, a, b);
    lemma_kinds();
    lemma_sorted_stays(stops, stops.len());
    assert(stops.take(stops.len() as int) =~= stops);
    assert(stops_in_order(raw) == stops);
    let h = handles(raw)->0;
    let head = css_form(kind) + css_head(kind, h, turns) + ", "@;
    let parts = stop_texts(stops, opacity, None);
    assert(num_or(raw, "opacity"@, of_int(1)) == opacity);
    assert(gradient_css(raw, turns) == (head + joined(parts, ", "@)) + ")"@);
    assert forall|i: int, color: Json, at: int|
        #![trigger parts[i], rgba_text(color, opacity), percentage(at)]
        0 <= i < stops.len() && field(stops[i], "color"@) == Some(color) && size(at) < 0x100_0000_0000 && near(
            match num_field(stops[i], "position"@) {
                Some(p) => p,
                None => zero(),
            },
            100,
            at,
        ) implies parts[i] == rgba_text(color, opacity) + " "@ + percentage(at) by {
        shares_are_printed(stop_position(stops[i]), 100, at);
        assert(parts[i] == stop_text(stops[i], opacity, stop_position(stops[i])));
    }
}

/// Paints are listed from the top to the bottom: the last paint of a node is the
/// first one in CSS.
pub proof fn paints_are_told_from_the_top(paints: Seq<Json>, has_children: bool, turns: Turns, i: int)
    requires
        0 <= i < paints.len(),
    ensures
        fills_of(paints, has_children, turns).len() == paints.len(),
        fills_of(paints, has_children, turns)[paints.len() - 1 - i] == paint(paints[i], has_children, turns),
{
}

proof fn lemma_visible_upto(a: Seq<Json>, n: nat)
    requires
        n <= a.len(),
    ensures
        visible_upto(a, n) == a.take(n as int).filter(|p: Json| field(p, "visible"@) != Some(Json::Bool(false))),
    decreases n,
{
    reveal(Seq::filter);
    let shown = |p: Json| field(p, "visible"@) != Some(Json::Bool(false));
    if n > 0 {
        lemma_visible_upto(a, (n - 1) as nat);
        assert(a.take(n as int).drop_last() =~= a.take(n - 1));
        assert(a.take(n as int).last() == a[n - 1]);
    } else {
        assert(a.take(0) =~= Seq::empty());
    }
}

/// The paints that count are those that are not switched off.
pub proof fn hidden_paints_do_not_count(a: Seq<Json>)
    ensures
        visible_paints(a) == a.filter(|p: Json| field(p, "visible"@) != Some(Json::Bool(false))),
{
    lemma_visible_upto(a, a.len());
    assert(a.take(a.len() as int) =~= a);
}

proof fn lemma_digits(n: nat, i: int)
    requires
        0 <= i < decimal(n).len(),
    ensures
        decimal(n)[i] != '%',
    decreases n,
{
    if n >= 10 && i < decimal(n / 10).len() {
        lemma_digits(n / 10, i);
    }
}

proof fn lemma_percent_ends_the_number(m: nat, n: nat, front: Seq<char>, x: Seq<char>, y: Seq<char>)
    requires
        front + (decimal(m) + "%"@) + x == front + (decimal(n) + "%"@) + y,
    ensures
        m == n,
{
    reveal_strlit("%");
    let s = front + (decimal(m) + "%"@) + x;
    let t = front + (decimal(n) + "%"@) + y;
    let (a, b, f) = (decimal(m), decimal(n), front.len() as int);
    assert(s[f + a.len()] == '%');
    assert(t[f + b.len()] == '%');
    if a.len() < b.len() {
        lemma_digits(n, a.len() as int);
        assert(t[f + a.len()] == b[a.len() as int]);
    } else if b.len() < a.len() {
        lemma_digits(m, b.len() as int);
        assert(s[f + b.len()] == a[b.len() as int]);
    }
    assert(s.subrange(f, f + a.len()) =~= a);
    assert(t.subrange(f, f + a.len()) =~= b);
    decimals_tell_numbers_apart(m, n);
}

proof fn lemma_regrouped(
    front: Seq<char>,
    at: Seq<char>,
    first: Seq<char>,
    gap: Seq<char>,
    second: Seq<char>,
    comma: Seq<char>,
    rest: Seq<char>,
)
    ensures
        (front + (at + first + gap + second + comma)) + rest == (front + at) + first + (gap + second + comma + rest),
{
    assert((front + (at + first + gap + second + comma)) + rest =~= (front + at) + first + (gap + second + comma + rest));
}

proof fn lemma_head(kind: Seq<char>, angle: Seq<char>, a: nat, b: int, stops: Seq<char>) -> (r: (Seq<char>, Seq<char>))
    requires
        kind == "GRADIENT_RADIAL"@ || kind == "GRADIENT_DIAMOND"@,
    ensures
        r.0 == (if kind == "GRADIENT_RADIAL"@ {
            "radial-gradient(circle "@
        } else {
            "radial-gradient(ellipse "@
        }) + "at "@,
        round_head(kind, angle, a as int, b) + stops == r.0 + (decimal(a) + "%"@) + r.1,
{
    lemma_kinds();
    let front = if kind == "GRADIENT_RADIAL"@ {
        "radial-gradient(circle "@
    } else {
        "radial-gradient(ellipse "@
    };
    lemma_regrouped(front, "at "@, decimal(a) + "%"@, " "@, percentage(b), ", "@, stops);
    assert(percentage(a as int) == decimal(a) + "%"@);
    (front + "at "@, " "@ + percentage(b) + ", "@ + stops)
}

/// Radial and diamond gradients whose centres lie a percent or more apart, across, are
/// written differently.
pub proof fn centres_tell_gradients_apart(
    raw: Json,
    other: Json,
    has_children: bool,
    turns: Turns,
    kind: Seq<char>,
    a: nat,
    b: int,
    c: nat,
    d: int,
)
    requires
        kind == "GRADIENT_RADIAL"@ || kind == "GRADIENT_DIAMOND"@,
        str_field(raw, "type"@) == Some(kind),
        str_field(other, "type"@) == Some(kind),
        centered(raw, a as int, b),
        centered(other, c as int, d),
        a != c,
    ensures
        gradient_told(raw, has_children, turns) != gradient_told(other, has_children, turns),
{
    centre_is_the_first_handle(raw, has_children, turns, kind, a as int, b);
    centre_is_the_first_handle(other, has_children, turns, kind, c as int, d);
    lemma_kinds();
    let (m, x) = choose|angle: Seq<char>, stops: Seq<char>|
        gradient_told(raw, has_children, turns) == Some(#[trigger] (round_head(kind, angle, a as int, b) + stops));
    let (n, y) = choose|angle: Seq<char>, stops: Seq<char>|
        gradient_told(other, has_children, turns) == Some(#[trigger] (round_head(kind, angle, c as int, d) + stops));
    let s = round_head(kind, m, a as int, b) + x;
    let t = round_head(kind, n, c as int, d) + y;
    let (front, u) = lemma_head(kind, m, a, b, x);
    let (same, v) = lemma_head(kind, n, c, d, y);
    if s == t {
        lemma_percent_ends_the_number(a, c, front, u, v);
    }
}

} // verus!
