//! Text: the style of a text node, and its characters as markdown with
//! references to the styles of its runs.

use vstd::prelude::*;

use crate::float::{equal, from_int, lemma_of_zero, less, of_int, over, zero, Dbl, Double};
use crate::json::{
    as_bool, as_num, as_obj, as_str, bool_of, double_of, field_is, field_text_is, get, obj_field, object_of, opt_double,
    opt_object, opt_value, own_text, put, put_some, str_of, text_is, text_json, Fields, Json, Object, Value,
};
use crate::simplify::numbers::{em_round, hundredths, js_num, js_text, num_raw, pixel_round, plain_number, ten_thousandths};
use crate::simplify::style::plain_some;
use crate::strings::{cat2, opt_text};

pub use crate::simplify::rich_text::{build_formatted_text, FormattedText};

verus! {

/// Whether a node is a text.
pub fn is_text_node(n: &Value) -> (r: bool)
    ensures
        r == field_is(n@, "type"@, "TEXT"@),
{
    field_text_is(n, "type", "TEXT")
}

/// Whether a node has a text style.
pub open spec fn styled(n: Json) -> bool {
    obj_field(n, "style"@) matches Some(o) && o.len() > 0
}

/// Whether a node has a text style.
pub fn has_text_style(n: &Value) -> (r: bool)
    ensures
        r == styled(n@),
{
    match object_of(n.get("style")) {
        Some(o) => !o.is_empty(),
        None => false,
    }
}

/// A flag of a font that is not zero.
pub open spec fn flag_set(v: Json) -> bool {
    as_num(Some(v)) matches Some(x) && !equal(x, zero())
}

fn is_flag_set(v: &Value) -> (r: bool)
    ensures
        r == flag_set(v@),
{
    let z = from_int(0);
    proof {
        lemma_of_zero();
    }
    match double_of(Some(v)) {
        Some(x) => !x.equals(z),
        None => false,
    }
}

/// The flags among the first `n` that are not zero.
pub open spec fn flags_upto(o: Fields, n: nat) -> Fields
    decreases n,
{
    if n == 0 {
        Fields::empty()
    } else if flag_set(o[n - 1].1) {
        put(flags_upto(o, (n - 1) as nat), o[n - 1].0, o[n - 1].1)
    } else {
        flags_upto(o, (n - 1) as nat)
    }
}

/// The flags of a font that are not zero, when there are any.
pub open spec fn set_flags(flags: Option<Fields>) -> Option<Fields> {
    match flags {
        Some(f) => if flags_upto(f, f.len()).len() == 0 {
            None
        } else {
            Some(flags_upto(f, f.len()))
        },
        None => None,
    }
}

/// The model of an optional owned object.
pub open spec fn opt_owned(o: Option<Object>) -> Option<Fields> {
    match o {
        Some(x) => Some(x@),
        None => None,
    }
}

/// The flags of a font that are not zero, when there are any.
pub fn pick_non_zero_flags(flags: Option<&Object>) -> (r: Option<Object>)
    ensures
        opt_owned(r) == set_flags(opt_object(flags)),
{
    match flags {
        Some(f) => {
            let mut out = Object::new();
            let mut i: usize = 0;
            while i < f.entries.len()
                invariant
                    i <= f.entries.len(),
                    out@ == flags_upto(f@, i as nat),
                decreases f.entries.len() - i,
            {
                let e = &f.entries[i];
                if is_flag_set(&e.1) {
                    out.put(e.0.as_str(), e.1.copy());
                }
                i += 1;
            }
            if out.is_empty() {
                None
            } else {
                Some(out)
            }
        },
        None => None,
    }
}

/// The line height of a text style: none where it is the font's own, else in
/// pixels or in relation to the font size.
pub open spec fn line_height(style: Fields, font_size: Option<Dbl>) -> Option<Seq<char>> {
    let unit = as_str(get(style, "lineHeightUnit"@));
    let height = as_num(get(style, "lineHeightPx"@));
    let percent = as_num(get(style, "lineHeightPercentFontSize"@));
    if unit == Some("INTRINSIC_%"@) {
        None
    } else if unit == Some("PIXELS"@) {
        match height {
            Some(p) => Some(js_text(hundredths(p)) + "px"@),
            None => None,
        }
    } else if unit == Some("FONT_SIZE_%"@) {
        match percent {
            Some(p) => Some(js_text(hundredths(over(p, of_int(100)))) + "em"@),
            None => None,
        }
    } else {
        match (height, font_size) {
            (Some(p), Some(f)) => if equal(f, zero()) {
                None
            } else {
                Some(js_text(hundredths(over(p, f))) + "em"@)
            },
            _ => None,
        }
    }
}

/// The line height of a text style.
pub fn format_line_height(style: &Object, font_size: Option<Double>) -> (r: Option<String>)
    ensures
        opt_text(r) == line_height(style@, opt_double(font_size)),
{
    let z = from_int(0);
    proof {
        lemma_of_zero();
    }
    let unit = str_of(style.get("lineHeightUnit"));
    let height = double_of(style.get("lineHeightPx"));
    if text_is(unit, "INTRINSIC_%") {
        None
    } else if text_is(unit, "PIXELS") {
        match height {
            Some(p) => Some(cat2(js_num(pixel_round(p)).as_str(), "px")),
            None => None,
        }
    } else if text_is(unit, "FONT_SIZE_%") {
        match double_of(style.get("lineHeightPercentFontSize")) {
            Some(p) => Some(cat2(js_num(pixel_round(p.over(from_int(100)))).as_str(), "em")),
            None => None,
        }
    } else {
        match (height, font_size) {
            (Some(p), Some(f)) => if f.equals(z) {
                None
            } else {
                Some(cat2(js_num(pixel_round(p.over(f))).as_str(), "em"))
            },
            _ => None,
        }
    }
}

/// A letter spacing in relation to the font size; a zero has none.
pub open spec fn spacing(letter: Option<Dbl>, font_size: Option<Dbl>) -> Option<Seq<char>> {
    match (letter, font_size) {
        (Some(ls), Some(fs)) => if equal(ls, zero()) || equal(fs, zero()) {
            None
        } else {
            Some(js_text(ten_thousandths(over(ls, fs))) + "em"@)
        },
        _ => None,
    }
}

/// A letter spacing in relation to the font size.
pub fn format_spacing(letter: Option<Double>, font_size: Option<Double>) -> (r: Option<String>)
    ensures
        opt_text(r) == spacing(opt_double(letter), opt_double(font_size)),
{
    let z = from_int(0);
    proof {
        lemma_of_zero();
    }
    match (letter, font_size) {
        (Some(ls), Some(fs)) => if ls.equals(z) || fs.equals(z) {
            None
        } else {
            Some(cat2(js_num(em_round(ls.over(fs))).as_str(), "em"))
        },
        _ => None,
    }
}

// ---------------------------------------------------------------------------
// Styles
// ---------------------------------------------------------------------------

/// A text that is not empty.
pub open spec fn non_empty(s: Option<Seq<char>>) -> Option<Seq<char>> {
    match s {
        Some(x) => if x == ""@ {
            None
        } else {
            Some(x)
        },
        None => None,
    }
}

/// A decoration that is shown.
pub open spec fn decoration(s: Option<Seq<char>>) -> Option<Seq<char>> {
    if s == Some("STRIKETHROUGH"@) || s == Some("UNDERLINE"@) {
        s
    } else {
        None
    }
}

/// A value that is not null.
pub open spec fn non_null(v: Option<Json>) -> Option<Json> {
    match v {
        Some(x) => if x is Null {
            None
        } else {
            v
        },
        None => None,
    }
}

/// A positive number.
pub open spec fn positive(x: Option<Dbl>) -> Option<Dbl> {
    match x {
        Some(v) => if less(zero(), v) {
            Some(v)
        } else {
            None
        },
        None => None,
    }
}

/// Flags with their whole numbers as integers.
pub open spec fn plain_flags_upto(o: Fields, n: nat) -> Fields
    decreases n,
{
    if n == 0 {
        Fields::empty()
    } else {
        put(
            plain_flags_upto(o, (n - 1) as nat),
            o[n - 1].0,
            match as_num(Some(o[n - 1].1)) {
                Some(x) => plain_number(x),
                None => o[n - 1].1,
            },
        )
    }
}

/// The flags of a font that are not zero, with whole numbers as integers.
pub open spec fn plain_flags(flags: Option<Fields>) -> Option<Json> {
    match set_flags(flags) {
        Some(f) => Some(Json::Obj(plain_flags_upto(f, f.len()))),
        None => None,
    }
}

fn find_plain_flags(flags: Option<&Object>) -> (r: Option<Value>)
    ensures
        opt_value(r) == plain_flags(opt_object(flags)),
{
    match pick_non_zero_flags(flags) {
        Some(f) => {
            let mut out = Object::new();
            let mut i: usize = 0;
            while i < f.entries.len()
                invariant
                    i <= f.entries.len(),
                    out@ == plain_flags_upto(f@, i as nat),
                decreases f.entries.len() - i,
            {
                let e = &f.entries[i];
                let v = match double_of(Some(&e.1)) {
                    Some(x) => num_raw(x),
                    None => e.1.copy(),
                };
                out.put(e.0.as_str(), v);
                i += 1;
            }
            Some(Value::Object(out))
        },
        None => None,
    }
}

/// The fields of a text style about its font.
pub open spec fn font_fields(style: Fields) -> Fields {
    let size = as_num(get(style, "fontSize"@));
    let a = put_some(Fields::empty(), "fontFamily"@, text_json(as_str(get(style, "fontFamily"@))));
    let b = put_some(a, "fontStyle"@, text_json(non_empty(as_str(get(style, "fontStyle"@)))));
    let c = put_some(b, "fontWeight"@, plain_some(as_num(get(style, "fontWeight"@))));
    let d = put_some(c, "fontSize"@, plain_some(size));
    let e = put_some(d, "lineHeight"@, text_json(line_height(style, size)));
    put_some(e, "letterSpacing"@, text_json(spacing(as_num(get(style, "letterSpacing"@)), size)))
}

/// The fields of a text style about its setting.
pub open spec fn setting_fields(o: Fields, style: Fields) -> Fields {
    let a = put_some(o, "textCase"@, text_json(as_str(get(style, "textCase"@))));
    let b = put_some(a, "textAlignHorizontal"@, text_json(as_str(get(style, "textAlignHorizontal"@))));
    let c = put_some(b, "textAlignVertical"@, text_json(as_str(get(style, "textAlignVertical"@))));
    let d = if as_bool(get(style, "italic"@)) == Some(true) {
        put(c, "italic"@, Json::Bool(true))
    } else {
        c
    };
    let e = put_some(d, "textDecoration"@, text_json(decoration(as_str(get(style, "textDecoration"@)))));
    put_some(e, "hyperlink"@, non_null(get(style, "hyperlink"@)))
}

/// The fields of a text style about its paragraphs.
pub open spec fn paragraph_fields(o: Fields, style: Fields) -> Fields {
    let a = put_some(o, "opentypeFlags"@, plain_flags(as_obj(get(style, "opentypeFlags"@))));
    let b = put_some(a, "paragraphSpacing"@, plain_some(positive(as_num(get(style, "paragraphSpacing"@)))));
    let c = put_some(b, "paragraphIndent"@, plain_some(positive(as_num(get(style, "paragraphIndent"@)))));
    put_some(c, "listSpacing"@, plain_some(positive(as_num(get(style, "listSpacing"@)))))
}

/// The style of a text node.
pub open spec fn text_style(n: Json) -> Option<Json> {
    match obj_field(n, "style"@) {
        Some(style) => {
            let o = paragraph_fields(setting_fields(font_fields(style), style), style);
            if o.len() == 0 {
                None
            } else {
                Some(Json::Obj(o))
            }
        },
        None => None,
    }
}

fn put_number(out: &mut Object, k: &str, x: Option<Double>)
    ensures
        final(out)@ == put_some(old(out)@, k@, plain_some(opt_double(x))),
{
    match x {
        Some(v) => out.put(k, num_raw(v)),
        None => {},
    }
}

fn put_positive(out: &mut Object, k: &str, x: Option<Double>)
    ensures
        final(out)@ == put_some(old(out)@, k@, plain_some(positive(opt_double(x)))),
{
    let z = from_int(0);
    proof {
        lemma_of_zero();
    }
    match x {
        Some(v) => if z.is_less(v) {
            out.put(k, num_raw(v));
        },
        None => {},
    }
}

fn build_font_fields(style: &Object) -> (out: Object)
    ensures
        out@ == font_fields(style@),
{
    let size = double_of(style.get("fontSize"));
    let mut out = Object::new();
    out.put_text("fontFamily", own_text(str_of(style.get("fontFamily"))));
    let variant = str_of(style.get("fontStyle"));
    if !text_is(variant, "") {
        out.put_text("fontStyle", own_text(variant));
    }
    put_number(&mut out, "fontWeight", double_of(style.get("fontWeight")));
    put_number(&mut out, "fontSize", size);
    out.put_text("lineHeight", format_line_height(style, size));
    out.put_text("letterSpacing", format_spacing(double_of(style.get("letterSpacing")), size));
    out
}

fn put_setting(out: &mut Object, style: &Object)
    ensures
        final(out)@ == setting_fields(old(out)@, style@),
{
    out.put_text("textCase", own_text(str_of(style.get("textCase"))));
    out.put_text("textAlignHorizontal", own_text(str_of(style.get("textAlignHorizontal"))));
    out.put_text("textAlignVertical", own_text(str_of(style.get("textAlignVertical"))));
    let slanted = match bool_of(style.get("italic")) {
        Some(b) => b,
        None => false,
    };
    if slanted {
        out.put("italic", Value::Bool(true));
    }
    let line = str_of(style.get("textDecoration"));
    if text_is(line, "STRIKETHROUGH") || text_is(line, "UNDERLINE") {
        out.put_text("textDecoration", own_text(line));
    }
    match style.get("hyperlink") {
        Some(h) => if !h.is_null() {
            out.put("hyperlink", h.copy());
        },
        None => {},
    }
}

/// The style of a text node; its fills are extracted with the other visuals.
pub fn extract_text_style(n: &Value) -> (r: Option<Value>)
    ensures
        opt_value(r) == text_style(n@),
{
    match object_of(n.get("style")) {
        Some(style) => {
            let mut out = build_font_fields(style);
            put_setting(&mut out, style);
            out.put_some("opentypeFlags", find_plain_flags(object_of(style.get("opentypeFlags"))));
            put_positive(&mut out, "paragraphSpacing", double_of(style.get("paragraphSpacing")));
            put_positive(&mut out, "paragraphIndent", double_of(style.get("paragraphIndent")));
            put_positive(&mut out, "listSpacing", double_of(style.get("listSpacing")));
            if out.is_empty() {
                None
            } else {
                Some(Value::Object(out))
            }
        },
        None => None,
    }
}

} // verus!
