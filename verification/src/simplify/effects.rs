//! Effects: shadows and blurs in the terms of CSS.

use vstd::prelude::*;

use crate::float::{from_int, lemma_of_zero, less, of_int, over, zero, Dbl, Double};
use crate::json::{
    arr_field, double_of, field, field_is, field_text_is, is_visible, json_list, list_of, num_field, put, visible,
    Fields, Json, Object, Value,
};
use crate::simplify::color::{color_of, num_or, number_or, rgba_text, write_rgba};
use crate::simplify::numbers::{display, display_form, hundredths, pixel_round};
use crate::simplify::style::{pixels, px};
use crate::strings::{cat2, cat3, join, joined, opt_text, views};

verus! {

/// One coordinate of the offset of a shadow.
pub open spec fn offset(e: Json, k: Seq<char>) -> Dbl {
    match field(e, "offset"@) {
        Some(o) => num_or(o, k, zero()),
        None => zero(),
    }
}

fn offset_of(e: &Value, k: &str) -> (r: Double)
    ensures
        r@ == offset(e@, k@),
{
    let z = from_int(0);
    proof {
        lemma_of_zero();
    }
    match e.get("offset") {
        Some(o) => number_or(o, k, z),
        None => z,
    }
}

/// A length in pixels as Rust's `Display` writes it.
pub open spec fn display_pixels(x: Dbl) -> Seq<char> {
    display_form(x) + "px"@
}

/// The CSS of a shadow; other effects have none.
pub open spec fn shadow(e: Json) -> Option<Seq<char>> {
    let x = offset(e, "x"@);
    let y = offset(e, "y"@);
    let r = num_or(e, "radius"@, zero());
    let s = num_or(e, "spread"@, zero());
    let color = rgba_text(color_of(e), of_int(1));
    if field_is(e, "type"@, "DROP_SHADOW"@) {
        Some(
            display_pixels(x) + " "@ + display_pixels(y) + " "@ + display_pixels(r) + " "@ + display_pixels(s) + " "@
                + color,
        )
    } else if field_is(e, "type"@, "INNER_SHADOW"@) {
        Some("inset "@ + pixels(x) + " "@ + pixels(y) + " "@ + pixels(r) + " "@ + pixels(s) + " "@ + color)
    } else {
        None
    }
}

fn display_px(x: Double) -> (r: String)
    ensures
        r@ == display_pixels(x@),
{
    cat2(display(x).as_str(), "px")
}

fn write_shadow(e: &Value) -> (r: Option<String>)
    ensures
        opt_text(r) == shadow(e@),
{
    let z = from_int(0);
    proof {
        lemma_of_zero();
    }
    let x = offset_of(e, "x");
    let y = offset_of(e, "y");
    let r = number_or(e, "radius", z);
    let s = number_or(e, "spread", z);
    let color = match e.get("color") {
        Some(c) => write_rgba(c, from_int(1)),
        None => write_rgba(&Value::Null, from_int(1)),
    };
    if field_text_is(e, "type", "DROP_SHADOW") {
        let a = cat3(display_px(x).as_str(), " ", display_px(y).as_str());
        let b = cat3(a.as_str(), " ", display_px(r).as_str());
        let c = cat3(b.as_str(), " ", display_px(s).as_str());
        Some(cat3(c.as_str(), " ", color.as_str()))
    } else if field_text_is(e, "type", "INNER_SHADOW") {
        let a = cat3(cat2("inset ", px(x).as_str()).as_str(), " ", px(y).as_str());
        let b = cat3(a.as_str(), " ", px(r).as_str());
        let c = cat3(b.as_str(), " ", px(s).as_str());
        Some(cat3(c.as_str(), " ", color.as_str()))
    } else {
        None
    }
}

/// The shadows among the first `n` effects that are visible.
pub open spec fn shadows(effects: Seq<Json>, n: nat) -> Seq<Seq<char>>
    decreases n,
{
    if n == 0 {
        Seq::empty()
    } else {
        let before = shadows(effects, (n - 1) as nat);
        match shadow(effects[n - 1]) {
            Some(s) => if visible(effects[n - 1]) {
                before.push(s)
            } else {
                before
            },
            None => before,
        }
    }
}

/// The CSS of a blur of a kind with a positive radius: half the radius.
pub open spec fn blur(e: Json, kind: Seq<char>) -> Option<Seq<char>> {
    if field_is(e, "type"@, kind) {
        match num_field(e, "radius"@) {
            Some(r) => if less(zero(), r) {
                Some("blur("@ + pixels(hundredths(over(r, of_int(2)))) + ")"@)
            } else {
                None
            },
            None => None,
        }
    } else {
        None
    }
}

fn write_blur(e: &Value, kind: &str) -> (r: Option<String>)
    ensures
        opt_text(r) == blur(e@, kind@),
{
    let z = from_int(0);
    proof {
        lemma_of_zero();
    }
    if field_text_is(e, "type", kind) {
        match double_of(e.get("radius")) {
            Some(r) => if z.is_less(r) {
                Some(cat3("blur(", px(pixel_round(r.over(from_int(2)))).as_str(), ")"))
            } else {
                None
            },
            None => None,
        }
    } else {
        None
    }
}

/// The blurs of a kind among the first `n` effects that are visible.
pub open spec fn blurs(effects: Seq<Json>, kind: Seq<char>, n: nat) -> Seq<Seq<char>>
    decreases n,
{
    if n == 0 {
        Seq::empty()
    } else {
        let before = blurs(effects, kind, (n - 1) as nat);
        match blur(effects[n - 1], kind) {
            Some(s) => if visible(effects[n - 1]) {
                before.push(s)
            } else {
                before
            },
            None => before,
        }
    }
}

/// Texts joined under a key, when there are any.
pub open spec fn put_joined(o: Fields, k: Seq<char>, parts: Seq<Seq<char>>, sep: Seq<char>) -> Fields {
    if parts.len() == 0 {
        o
    } else {
        put(o, k, Json::Str(joined(parts, sep)))
    }
}

fn put_parts(o: &mut Object, k: &str, parts: &Vec<String>, sep: &str)
    ensures
        final(o)@ == put_joined(old(o)@, k@, views(parts@), sep@),
{
    if parts.len() > 0 {
        o.put(k, Value::String(join(parts, sep)));
    }
}

/// The effects of a node.
pub open spec fn effects(n: Json) -> Fields {
    match arr_field(n, "effects"@) {
        Some(a) => {
            let key = if field_is(n, "type"@, "TEXT"@) {
                "textShadow"@
            } else {
                "boxShadow"@
            };
            put_joined(
                put_joined(
                    put_joined(Fields::empty(), key, shadows(a, a.len()), ", "@),
                    "filter"@,
                    blurs(a, "LAYER_BLUR"@, a.len()),
                    " "@,
                ),
                "backdropFilter"@,
                blurs(a, "BACKGROUND_BLUR"@, a.len()),
                " "@,
            )
        },
        None => Fields::empty(),
    }
}

fn collect_blurs(a: &Vec<Value>, kind: &str) -> (r: Vec<String>)
    ensures
        views(r@) == blurs(json_list(a@), kind@, a@.len()),
{
    let ghost m = json_list(a@);
    let mut out: Vec<String> = Vec::new();
    assert(views(out@) =~= blurs(m, kind@, 0));
    let mut i: usize = 0;
    while i < a.len()
        invariant
            i <= a.len(),
            m == json_list(a@),
            views(out@) == blurs(m, kind@, i as nat),
        decreases a.len() - i,
    {
        if is_visible(&a[i]) {
            match write_blur(&a[i], kind) {
                Some(s) => {
                    let ghost before = views(out@);
                    out.push(s);
                    assert(views(out@) =~= before.push(s@));
                },
                None => {},
            }
        }
        i += 1;
    }
    out
}

fn collect_shadows(a: &Vec<Value>) -> (r: Vec<String>)
    ensures
        views(r@) == shadows(json_list(a@), a@.len()),
{
    let ghost m = json_list(a@);
    let mut out: Vec<String> = Vec::new();
    assert(views(out@) =~= shadows(m, 0));
    let mut i: usize = 0;
    while i < a.len()
        invariant
            i <= a.len(),
            m == json_list(a@),
            views(out@) == shadows(m, i as nat),
        decreases a.len() - i,
    {
        if is_visible(&a[i]) {
            match write_shadow(&a[i]) {
                Some(s) => {
                    let ghost before = views(out@);
                    out.push(s);
                    assert(views(out@) =~= before.push(s@));
                },
                None => {},
            }
        }
        i += 1;
    }
    out
}

/// The visible effects of a node in the terms of CSS.
pub fn build_simplified_effects(n: &Value) -> (r: Object)
    ensures
        r@ == effects(n@),
{
    let mut out = Object::new();
    if let Some(a) = list_of(n.get("effects")) {
        let key: &str = if field_text_is(n, "type", "TEXT") {
            "textShadow"
        } else {
            "boxShadow"
        };
        put_parts(&mut out, key, &collect_shadows(a), ", ");
        put_parts(&mut out, "filter", &collect_blurs(a, "LAYER_BLUR"), " ");
        put_parts(&mut out, "backdropFilter", &collect_blurs(a, "BACKGROUND_BLUR"), " ");
    }
    out
}

} // verus!
