//! Colours: hexadecimal and `rgba()` texts, and the blending of solid paints.

use vstd::prelude::*;

use crate::float::{
    cast, equal, from_int, is_binary64, lemma_minus_self, lemma_of_one, lemma_of_small, lemma_of_zero, lemma_over_one,
    lemma_plus_zero, lemma_times_any_zero, lemma_times_one, lemma_times_zero, lemma_unit_order, lemma_unit_over,
    lemma_unit_plus, lemma_unit_rest, lemma_unit_sum, lemma_unit_times, lemma_zeros, minus, nearest, of_int, one, over,
    plus, times, unit, whole, zero, Dbl, Double,
};
use crate::json::{
    as_str, double_of, field, field_text_is, json_list, num_field, str_field, str_of, text_is, Json, Value,
};
use crate::simplify::numbers::{hundredths, js_num, js_text, pixel_round};
use crate::strings::{cat3, hex_byte, opt_text, push_hex, signed_decimal, signed_decimal_of};

verus! {

/// The number in a field, or another one.
pub open spec fn num_or(j: Json, k: Seq<char>, other: Dbl) -> Dbl {
    match num_field(j, k) {
        Some(x) => x,
        None => other,
    }
}

pub fn number_or(v: &Value, k: &str, other: Double) -> (r: Double)
    ensures
        r@ == num_or(v@, k@, other@),
{
    match double_of(v.get(k)) {
        Some(x) => x,
        None => other,
    }
}

/// Red, green, blue and alpha.
pub struct Rgba {
    pub r: Dbl,
    pub g: Dbl,
    pub b: Dbl,
    pub a: Dbl,
}

/// The parts of a colour; what is missing is black, and opaque.
pub open spec fn rgba(color: Json) -> Rgba {
    Rgba {
        r: num_or(color, "r"@, zero()),
        g: num_or(color, "g"@, zero()),
        b: num_or(color, "b"@, zero()),
        a: num_or(color, "a"@, of_int(1)),
    }
}

/// Red, green, blue and alpha.
#[derive(Clone, Copy, Debug)]
pub struct Channels {
    pub r: Double,
    pub g: Double,
    pub b: Double,
    pub a: Double,
}

impl View for Channels {
    type V = Rgba;

    open spec fn view(&self) -> Rgba {
        Rgba { r: self.r@, g: self.g@, b: self.b@, a: self.a@ }
    }
}

fn rgba_of(color: &Value) -> (r: Channels)
    ensures
        r@ == rgba(color@),
{
    let z = from_int(0);
    proof {
        lemma_of_zero();
    }
    Channels {
        r: number_or(color, "r", z),
        g: number_or(color, "g", z),
        b: number_or(color, "b", z),
        a: number_or(color, "a", from_int(1)),
    }
}

/// A channel on the scale up to 255.
pub open spec fn scaled(x: Dbl) -> Dbl {
    whole(times(x, of_int(255)))
}

fn scale(x: Double) -> (r: Double)
    ensures
        r@ == scaled(x@),
{
    x.times(from_int(255)).to_whole()
}

/// The effective alpha, rounded to two decimals.
pub open spec fn alpha(c: Rgba, opacity: Dbl) -> Dbl {
    hundredths(times(opacity, c.a))
}

/// The two digits of a channel.
pub open spec fn channel_hex(x: Dbl) -> Seq<char> {
    hex_byte(cast(scaled(x), 0, 255) as u8, true)
}

/// `#RRGGBB`.
pub open spec fn hex_text(c: Rgba) -> Seq<char> {
    "#"@ + channel_hex(c.r) + channel_hex(c.g) + channel_hex(c.b)
}

/// A channel as a whole number.
pub open spec fn channel_text(x: Dbl) -> Seq<char> {
    signed_decimal(cast(scaled(x), -0x8000_0000_0000_0000, 0x7fff_ffff_ffff_ffff))
}

/// `rgba(r, g, b, a)`.
pub open spec fn rgba_form(c: Rgba, opacity: Dbl) -> Seq<char> {
    "rgba("@ + channel_text(c.r) + ", "@ + channel_text(c.g) + ", "@ + channel_text(c.b) + ", "@ + js_text(
        alpha(c, opacity),
    ) + ")"@
}

/// `rgba(r, g, b, a)` of a colour.
pub open spec fn rgba_text(color: Json, opacity: Dbl) -> Seq<char> {
    rgba_form(rgba(color), opacity)
}

/// An opaque colour in hexadecimal, another one as `rgba()`.
pub open spec fn color_form(c: Rgba, opacity: Dbl) -> Seq<char> {
    if equal(alpha(c, opacity), of_int(1)) {
        hex_text(c)
    } else {
        rgba_form(c, opacity)
    }
}

fn write_hex(c: Channels) -> (r: String)
    ensures
        r@ == hex_text(c@),
{
    let mut s = "#".to_owned();
    push_hex(&mut s, scale(c.r).cast(0, 255) as u8, true);
    push_hex(&mut s, scale(c.g).cast(0, 255) as u8, true);
    push_hex(&mut s, scale(c.b).cast(0, 255) as u8, true);
    s
}

fn effective_alpha(c: Channels, opacity: Double) -> (r: Double)
    ensures
        r@ == alpha(c@, opacity@),
{
    pixel_round(opacity.times(c.a))
}

fn write_channel(x: Double) -> (r: String)
    ensures
        r@ == channel_text(x@),
{
    signed_decimal_of(scale(x).cast(-0x8000_0000_0000_0000, 0x7fff_ffff_ffff_ffff) as i64)
}

fn write_channels(c: Channels, opacity: Double) -> (r: String)
    ensures
        r@ == rgba_form(c@, opacity@),
{
    let red = cat3("rgba(", write_channel(c.r).as_str(), ", ");
    let green = cat3(red.as_str(), write_channel(c.g).as_str(), ", ");
    let blue = cat3(green.as_str(), write_channel(c.b).as_str(), ", ");
    cat3(blue.as_str(), js_num(effective_alpha(c, opacity)).as_str(), ")")
}

fn write_color(c: Channels, opacity: Double) -> (r: String)
    ensures
        r@ == color_form(c@, opacity@),
{
    if effective_alpha(c, opacity).equals(from_int(1)) {
        write_hex(c)
    } else {
        write_channels(c, opacity)
    }
}

/// The hexadecimal text of a colour, and its effective alpha.
pub fn convert_color(color: &Value, opacity: Double) -> (r: (String, Double))
    ensures
        r.0@ == hex_text(rgba(color@)),
        r.1@ == alpha(rgba(color@), opacity@),
{
    let c = rgba_of(color);
    (write_hex(c), effective_alpha(c, opacity))
}

pub(crate) fn write_rgba(color: &Value, opacity: Double) -> (r: String)
    ensures
        r@ == rgba_text(color@, opacity@),
{
    write_channels(rgba_of(color), opacity)
}

/// The `rgba()` text of a colour.
pub fn format_rgba(color: &Value, opacity: Double) -> (r: String)
    ensures
        r@ == rgba_text(color@, opacity@),
{
    write_rgba(color, opacity)
}

/// The colour of a paint: hexadecimal when it is opaque, else `rgba()`.
pub open spec fn solid_text(paint: Json) -> Seq<char> {
    color_form(rgba(color_of(paint)), num_or(paint, "opacity"@, of_int(1)))
}

/// The colour object of a paint.
pub open spec fn color_of(paint: Json) -> Json {
    match field(paint, "color"@) {
        Some(c) => c,
        None => Json::Null,
    }
}

fn paint_channels(paint: &Value) -> (r: Channels)
    ensures
        r@ == rgba(color_of(paint@)),
{
    match paint.get("color") {
        Some(c) => rgba_of(c),
        None => rgba_of(&Value::Null),
    }
}

pub(crate) fn write_solid(paint: &Value) -> (r: String)
    ensures
        r@ == solid_text(paint@),
{
    write_color(paint_channels(paint), number_or(paint, "opacity", from_int(1)))
}

// ---------------------------------------------------------------------------
// Blending
// ---------------------------------------------------------------------------

/// Whether a paint is a solid one that covers what is below it.
pub open spec fn flattenable(paint: Json) -> bool {
    let blend = str_field(paint, "blendMode"@);
    str_field(paint, "type"@) == Some("SOLID"@) && (blend is None || blend == Some("NORMAL"@) || blend == Some(
        "PASS_THROUGH"@,
    ))
}

fn is_flattenable(paint: &Value) -> (r: bool)
    ensures
        r == flattenable(paint@),
{
    let blend = str_of(paint.get("blendMode"));
    field_text_is(paint, "type", "SOLID") && (blend.is_none() || text_is(blend, "NORMAL") || text_is(
        blend,
        "PASS_THROUGH",
    ))
}

/// The colour of a paint with its opacity in the alpha.
pub open spec fn straight(paint: Json) -> Rgba {
    let c = rgba(color_of(paint));
    Rgba { a: times(c.a, num_or(paint, "opacity"@, of_int(1))), ..c }
}

/// One channel of the blend of a top colour over a bottom one.
pub open spec fn blend(ct: Dbl, ta: Dbl, cb: Dbl, ba: Dbl, a: Dbl) -> Dbl {
    over(plus(times(ct, ta), times(times(cb, ba), minus(of_int(1), ta))), a)
}

/// A colour over another one.
pub open spec fn overlaid(t: Rgba, b: Rgba) -> Rgba {
    let a = plus(t.a, times(b.a, minus(of_int(1), t.a)));
    if equal(a, zero()) {
        Rgba { r: zero(), g: zero(), b: zero(), a: zero() }
    } else {
        Rgba {
            r: blend(t.r, t.a, b.r, b.a, a),
            g: blend(t.g, t.a, b.g, b.a, a),
            b: blend(t.b, t.a, b.b, b.a, a),
            a,
        }
    }
}

/// The first `n` paints, each over the ones before it.
pub open spec fn stacked(paints: Seq<Json>, n: nat) -> Rgba
    decreases n,
{
    if n <= 1 {
        straight(paints[0])
    } else {
        overlaid(straight(paints[n - 1]), stacked(paints, (n - 1) as nat))
    }
}

/// A finite value, or another one.
pub open spec fn finite_or(x: Dbl, other: Dbl) -> Dbl {
    if x is Fin {
        x
    } else {
        other
    }
}

/// A colour whose channels are numbers.
pub open spec fn settled(c: Rgba) -> Rgba {
    Rgba {
        r: finite_or(c.r, zero()),
        g: finite_or(c.g, zero()),
        b: finite_or(c.b, zero()),
        a: finite_or(c.a, of_int(1)),
    }
}

/// The single colour that a stack of solid paints shows.
pub open spec fn flattened(paints: Seq<Json>) -> Option<Seq<char>> {
    if paints.len() > 0 && (forall|i: int| 0 <= i < paints.len() ==> #[trigger] flattenable(paints[i])) {
        Some(color_form(settled(stacked(paints, paints.len())), of_int(1)))
    } else {
        None
    }
}

fn straighten(paint: &Value) -> (r: Channels)
    ensures
        r@ == straight(paint@),
{
    let c = paint_channels(paint);
    Channels { r: c.r, g: c.g, b: c.b, a: c.a.times(number_or(paint, "opacity", from_int(1))) }
}

fn mix(ct: Double, ta: Double, cb: Double, ba: Double, a: Double) -> (r: Double)
    ensures
        r@ == blend(ct@, ta@, cb@, ba@, a@),
{
    ct.times(ta).plus(cb.times(ba).times(from_int(1).minus(ta))).over(a)
}

fn overlay(t: Channels, b: Channels) -> (r: Channels)
    ensures
        r@ == overlaid(t@, b@),
{
    let z = from_int(0);
    proof {
        lemma_of_zero();
    }
    let a = t.a.plus(b.a.times(from_int(1).minus(t.a)));
    if a.equals(z) {
        Channels { r: z, g: z, b: z, a: z }
    } else {
        Channels {
            r: mix(t.r, t.a, b.r, b.a, a),
            g: mix(t.g, t.a, b.g, b.a, a),
            b: mix(t.b, t.a, b.b, b.a, a),
            a,
        }
    }
}

fn keep_finite(x: Double, other: Double) -> (r: Double)
    ensures
        r@ == finite_or(x@, other@),
{
    match x {
        Double::Finite(_) => x,
        _ => other,
    }
}

/// Collapses a stack of solid paints, bottom first, into the one colour that it
/// shows. A stack with any other paint, or an unusual blend mode, has none.
pub fn flatten_solid_fills(paints: &Vec<Value>) -> (r: Option<String>)
    ensures
        opt_text(r) == flattened(json_list(paints@)),
{
    let ghost m = json_list(paints@);
    if paints.len() == 0 {
        return None;
    }
    let mut i: usize = 0;
    while i < paints.len()
        invariant
            i <= paints.len(),
            m == json_list(paints@),
            forall|k: int| 0 <= k < i ==> #[trigger] flattenable(m[k]),
        decreases paints.len() - i,
    {
        if !is_flattenable(&paints[i]) {
            assert(!flattenable(m[i as int]));
            return None;
        }
        i += 1;
    }
    let mut acc = straighten(&paints[0]);
    let mut n: usize = 1;
    while n < paints.len()
        invariant
            1 <= n <= paints.len(),
            m == json_list(paints@),
            acc@ == stacked(m, n as nat),
        decreases paints.len() - n,
    {
        acc = overlay(straighten(&paints[n]), acc);
        n += 1;
    }
    let z = from_int(0);
    proof {
        lemma_of_zero();
    }
    let settled = Channels {
        r: keep_finite(acc.r, z),
        g: keep_finite(acc.g, z),
        b: keep_finite(acc.b, z),
        a: keep_finite(acc.a, from_int(1)),
    };
    Some(write_color(settled, from_int(1)))
}

// ---------------------------------------------------------------------------
// Laws
// ---------------------------------------------------------------------------

/// A stack has no single colour exactly where a paint in it is not solid or has
/// an unusual blend mode.
pub proof fn only_solid_stacks_are_flattened(paints: Seq<Json>)
    requires
        paints.len() > 0,
    ensures
        flattened(paints) is None <==> exists|i: int| 0 <= i < paints.len() && !#[trigger] flattenable(paints[i]),
{
}

/// Whether the channels of a colour are numbers that binary64 has.
pub open spec fn machine_color(c: Rgba) -> bool {
    is_binary64(c.r) && is_binary64(c.g) && is_binary64(c.b)
}

/// Whether the share of each channel in a blend is finite.
pub open spec fn blendable(c: Rgba) -> bool {
    c.a is Fin && times(c.r, c.a) is Fin && times(c.g, c.a) is Fin && times(c.b, c.a) is Fin
}

/// Whether two numbers are the same but for the sign of zero.
spec fn alike(x: Dbl, y: Dbl) -> bool {
    x == y || (x matches Dbl::Fin(_, u) && u == 0 && (y matches Dbl::Fin(_, v) && v == 0))
}

proof fn lemma_alike_scaled(x: Dbl, y: Dbl, lo: int, hi: int)
    requires
        alike(x, y),
        lo <= 0 <= hi,
    ensures
        cast(scaled(finite_or(x, zero())), lo, hi) == cast(scaled(finite_or(y, zero())), lo, hi),
{
    if x != y {
        reveal(whole);
        lemma_of_one();
        lemma_of_small(255);
        lemma_times_any_zero(x, of_int(255));
        lemma_times_any_zero(y, of_int(255));
        reveal(cast);
        assert(0nat / one() == 0);
        assert(0 * one() == 0);
    }
}

proof fn lemma_covered_channel(ct: Dbl, cb: Dbl, ba: Dbl)
    requires
        is_binary64(ct),
        times(cb, ba) is Fin,
    ensures
        alike(blend(ct, of_int(1), cb, ba, of_int(1)), ct),
{
    lemma_of_one();
    lemma_of_zero();
    lemma_minus_self(of_int(1));
    lemma_times_one(ct);
    let shade = times(times(cb, ba), zero());
    lemma_times_zero(times(cb, ba));
    let sum = plus(ct, shade);
    lemma_plus_zero(ct, shade->Fin_0);
    if sum != ct {
        lemma_zeros(sum->Fin_0);
    }
    lemma_over_one(sum);
}

/// An opaque paint hides what is below it: a stack with one on top shows its
/// colour alone, as long as nothing below it overflows.
pub proof fn opaque_top_hides_the_rest(paints: Seq<Json>)
    requires
        paints.len() > 0,
        forall|i: int| 0 <= i < paints.len() ==> #[trigger] flattenable(paints[i]),
        equal(straight(paints.last()).a, of_int(1)),
        machine_color(straight(paints.last())),
        paints.len() > 1 ==> blendable(stacked(paints, (paints.len() - 1) as nat)),
    ensures
        flattened(paints) == flattened(seq![paints.last()]),
{
    let top = paints.last();
    let alone = seq![top];
    assert(flattenable(paints[paints.len() - 1]));
    assert(forall|i: int| 0 <= i < alone.len() ==> #[trigger] flattenable(alone[i]));
    lemma_of_one();
    let t = straight(top);
    assert(t.a == of_int(1));
    assert(stacked(alone, 1) == t);
    if paints.len() > 1 {
        let b = stacked(paints, (paints.len() - 1) as nat);
        let shown = stacked(paints, paints.len());
        assert(shown == overlaid(t, b));
        lemma_minus_self(of_int(1));
        let rest = times(b.a, zero());
        lemma_times_zero(b.a);
        lemma_plus_zero(of_int(1), rest->Fin_0);
        assert(shown.a == of_int(1));
        lemma_covered_channel(t.r, b.r, b.a);
        lemma_covered_channel(t.g, b.g, b.a);
        lemma_covered_channel(t.b, b.b, b.a);
        let (x, y) = (settled(shown), settled(t));
        lemma_alike_scaled(shown.r, t.r, 0, 255);
        lemma_alike_scaled(shown.g, t.g, 0, 255);
        lemma_alike_scaled(shown.b, t.b, 0, 255);
        lemma_alike_scaled(shown.r, t.r, -0x8000_0000_0000_0000, 0x7fff_ffff_ffff_ffff);
        lemma_alike_scaled(shown.g, t.g, -0x8000_0000_0000_0000, 0x7fff_ffff_ffff_ffff);
        lemma_alike_scaled(shown.b, t.b, -0x8000_0000_0000_0000, 0x7fff_ffff_ffff_ffff);
        assert(hex_text(x) == hex_text(y));
        assert(rgba_form(x, of_int(1)) == rgba_form(y, of_int(1)));
    }
}

/// Whether the channels of a colour are from zero to one.
pub open spec fn unit_color(c: Rgba) -> bool {
    unit(c.r) && unit(c.g) && unit(c.b) && unit(c.a)
}

/// Whether the channels and the opacity of a paint are from zero to one.
pub open spec fn unit_paint(paint: Json) -> bool {
    unit_color(rgba(color_of(paint))) && unit(num_or(paint, "opacity"@, of_int(1)))
}

proof fn lemma_unit_channel(ct: Dbl, ta: Dbl, cb: Dbl, ba: Dbl)
    requires
        unit(ct),
        unit(ta),
        unit(cb),
        unit(ba),
        !equal(plus(ta, times(ba, minus(of_int(1), ta))), zero()),
    ensures
        unit(plus(ta, times(ba, minus(of_int(1), ta)))),
        unit(blend(ct, ta, cb, ba, plus(ta, times(ba, minus(of_int(1), ta))))),
{
    let w = minus(of_int(1), ta);
    let share = times(ba, w);
    lemma_unit_rest(ta);
    lemma_unit_times(ba, w);
    let x = times(ct, ta);
    lemma_unit_times(ct, ta);
    lemma_unit_times(cb, ba);
    let y = times(times(cb, ba), w);
    lemma_unit_times(times(cb, ba), w);
    lemma_unit_order(times(cb, ba), ba, w);
    lemma_unit_sum(ta, x, share);
    lemma_unit_plus(ta, share);
    assert(nearest(x->Fin_1 + y->Fin_1, 1) <= nearest(ta->Fin_1 + share->Fin_1, 1));
    lemma_unit_plus(x, y);
    lemma_unit_over(plus(x, y), plus(ta, share));
}

proof fn lemma_unit_overlaid(t: Rgba, b: Rgba)
    requires
        unit_color(t),
        unit_color(b),
    ensures
        unit_color(overlaid(t, b)),
{
    lemma_zeros(false);
    lemma_of_one();
    let a = plus(t.a, times(b.a, minus(of_int(1), t.a)));
    if !equal(a, zero()) {
        lemma_unit_channel(t.r, t.a, b.r, b.a);
        lemma_unit_channel(t.g, t.a, b.g, b.a);
        lemma_unit_channel(t.b, t.a, b.b, b.a);
    }
}

/// A stack of paints with channels from zero to one shows a colour with channels
/// from zero to one.
pub proof fn unit_stacks_stay_unit(paints: Seq<Json>, n: nat)
    requires
        0 < n <= paints.len(),
        forall|i: int| 0 <= i < paints.len() ==> #[trigger] unit_paint(paints[i]),
    ensures
        unit_color(stacked(paints, n)),
    decreases n,
{
    assert(unit_paint(paints[n - 1]));
    let top = paints[n - 1];
    lemma_unit_times(rgba(color_of(top)).a, num_or(top, "opacity"@, of_int(1)));
    if n > 1 {
        unit_stacks_stay_unit(paints, (n - 1) as nat);
        lemma_unit_overlaid(straight(top), stacked(paints, (n - 1) as nat));
    }
}

/// An opaque paint hides what is below it, whatever that is, where all channels
/// and opacities are from zero to one.
pub proof fn opaque_top_hides_any_paints(paints: Seq<Json>)
    requires
        paints.len() > 0,
        forall|i: int| 0 <= i < paints.len() ==> #[trigger] flattenable(paints[i]),
        forall|i: int| 0 <= i < paints.len() ==> #[trigger] unit_paint(paints[i]),
        equal(straight(paints.last()).a, of_int(1)),
    ensures
        flattened(paints) == flattened(seq![paints.last()]),
{
    assert(unit_paint(paints[paints.len() - 1]));
    if paints.len() > 1 {
        let m = (paints.len() - 1) as nat;
        unit_stacks_stay_unit(paints, m);
        let b = stacked(paints, m);
        lemma_unit_times(b.r, b.a);
        lemma_unit_times(b.g, b.a);
        lemma_unit_times(b.b, b.a);
    }
    opaque_top_hides_the_rest(paints);
}

} // verus!
