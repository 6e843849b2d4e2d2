//! Paints and strokes: image and pattern fills, scale modes and the assembly
//! of a node's strokes.

use vstd::prelude::*;

use crate::float::{equal, from_int, lemma_of_zero, less, of_int, times, whole, zero, Dbl, Double};
use crate::json::{
    arr_field, as_num, as_str, double_of, field, get, is_visible, json_fields, json_list, list_of, num_field,
    num_value, opt_double, own_text, put, put_some, str_field, str_of, text_is, text_json, visible, Fields, Json,
    Object, Value,
};
use crate::simplify::color::{num_or, number_or, solid_text, write_solid};
use crate::simplify::gradient::{gradient_css, turns_view, Turn, Turns};
use crate::simplify::numbers::{hundredths, js_num, js_text, num_raw, pixel_round, plain_number};
use crate::strings::{
    cat2, cat3, chars_of, has_prefix, hexadecimal, hexadecimal_of, opt_text, same, starts_with, text_of,
};

pub use crate::simplify::color::{convert_color, flatten_solid_fills, format_rgba};
pub use crate::simplify::gradient::convert_gradient_to_css;

verus! {

// ---------------------------------------------------------------------------
// Image fills
// ---------------------------------------------------------------------------

/// The texts of the numbers among the first `n` of a row, one after another.
pub open spec fn row_text(row: Seq<Json>, n: nat) -> Seq<char>
    decreases n,
{
    if n == 0 {
        Seq::empty()
    } else {
        row_text(row, (n - 1) as nat) + match as_num(Some(row[n - 1])) {
            Some(x) => js_text(x),
            None => Seq::empty(),
        }
    }
}

/// The texts of the numbers in the first `n` rows, one after another.
pub open spec fn matrix_text(rows: Seq<Json>, n: nat) -> Seq<char>
    decreases n,
{
    if n == 0 {
        Seq::empty()
    } else {
        matrix_text(rows, (n - 1) as nat) + match rows[n - 1] {
            Json::Arr(row) => row_text(row, row.len()),
            _ => Seq::empty(),
        }
    }
}

/// The 32-bit checksum of a text: each character is added to 31 times the sum
/// before it.
pub open spec fn checksum(s: Seq<char>) -> nat
    decreases s.len(),
{
    if s.len() == 0 {
        0
    } else {
        ((checksum(s.drop_last()) * 31 + s.last() as u32) % 0x1_0000_0000) as nat
    }
}

/// The magnitude of a checksum read as a signed 32-bit number.
pub open spec fn checksum_magnitude(n: nat) -> nat {
    if n >= 0x8000_0000 {
        (0x1_0000_0000 - n) as nat
    } else {
        n
    }
}

/// The six-digit suffix that tells crops of one image apart.
pub open spec fn crop_suffix(t: Json) -> Seq<char> {
    let text = match t {
        Json::Arr(rows) => matrix_text(rows, rows.len()),
        _ => Seq::empty(),
    };
    let hex = hexadecimal(checksum_magnitude(checksum(text)));
    if hex.len() > 6 {
        hex.subrange(0, 6)
    } else {
        hex
    }
}

fn write_matrix(t: &Value) -> (r: Vec<char>)
    ensures
        r@ == match t@ {
            Json::Arr(rows) => matrix_text(rows, rows.len()),
            _ => Seq::empty(),
        },
{
    let mut out: Vec<char> = Vec::new();
    if let Value::Array(rows) = t {
        let ghost m = json_list(rows@);
        let mut i: usize = 0;
        while i < rows.len()
            invariant
                i <= rows.len(),
                m == json_list(rows@),
                out@ == matrix_text(m, i as nat),
            decreases rows.len() - i,
        {
            let ghost before = out@;
            if let Value::Array(row) = &rows[i] {
                let ghost line = json_list(row@);
                let mut k: usize = 0;
                assert(before =~= before + row_text(line, 0));
                while k < row.len()
                    invariant
                        k <= row.len(),
                        line == json_list(row@),
                        out@ == before + row_text(line, k as nat),
                    decreases row.len() - k,
                {
                    match double_of(Some(&row[k])) {
                        Some(x) => {
                            let mut digits = chars_of(js_num(x).as_str());
                            out.append(&mut digits);
                        },
                        None => {},
                    }
                    assert(out@ =~= before + row_text(line, (k + 1) as nat));
                    k += 1;
                }
            } else {
                assert(before =~= before + Seq::<char>::empty());
            }
            i += 1;
        }
    }
    out
}

/// The file name suffix for a crop: six digits of a checksum of the numbers of
/// its transform.
pub fn transform_hash(t: &Value) -> (r: String)
    ensures
        r@ == crop_suffix(t@),
{
    let text = write_matrix(t);
    let mut acc: u64 = 0;
    let mut i: usize = 0;
    while i < text.len()
        invariant
            i <= text.len(),
            acc < 0x1_0000_0000,
            acc == checksum(text@.subrange(0, i as int)),
        decreases text.len() - i,
    {
        proof {
            let s = text@.subrange(0, i + 1);
            assert(s.drop_last() =~= text@.subrange(0, i as int));
            assert(s.last() == text@[i as int]);
        }
        acc = (acc * 31 + text[i] as u32 as u64) % 0x1_0000_0000;
        i += 1;
    }
    assert(text@.subrange(0, text.len() as int) =~= text@);
    let size: u64 = if acc >= 0x8000_0000 {
        0x1_0000_0000 - acc
    } else {
        acc
    };
    let hex = hexadecimal_of(size as u32);
    let digits = chars_of(hex.as_str());
    if digits.len() > 6 {
        text_of(&digits, 0, 6)
    } else {
        hex
    }
}

/// A value with its whole numbers as integers.
pub open spec fn normalized(j: Json) -> Json
    decreases j,
{
    match j {
        Json::Num(n) => plain_number(num_value(n)),
        Json::Arr(a) => Json::Arr(
            Seq::new(
                a.len(),
                |i: int|
                    if 0 <= i < a.len() {
                        normalized(a[i])
                    } else {
                        Json::Null
                    },
            ),
        ),
        Json::Obj(o) => Json::Obj(
            Seq::new(
                o.len(),
                |i: int|
                    if 0 <= i < o.len() {
                        (o[i].0, normalized(o[i].1))
                    } else {
                        (Seq::empty(), Json::Null)
                    },
            ),
        ),
        _ => j,
    }
}

/// Writes whole numbers as integers, throughout a value.
pub fn normalize_numbers(v: &Value) -> (r: Value)
    ensures
        r@ == normalized(v@),
    decreases *v,
{
    match v {
        Value::Number(n) => num_raw(n.to_double()),
        Value::Array(a) => {
            let mut out: Vec<Value> = Vec::new();
            let mut i: usize = 0;
            while i < a.len()
                invariant
                    i <= a.len(),
                    out.len() == i,
                    *v is Array,
                    v->Array_0 == *a,
                    forall|k: int| 0 <= k < i ==> (#[trigger] out@[k])@ == normalized(a@[k]@),
                decreases a.len() - i,
            {
                out.push(normalize_numbers(&a[i]));
                i += 1;
            }
            let r = Value::Array(out);
            proof {
                assert(normalized(v@)->Arr_0 =~= json_list(out@));
            }
            r
        },
        Value::Object(o) => {
            let mut out: Vec<(String, Value)> = Vec::new();
            let mut i: usize = 0;
            while i < o.entries.len()
                invariant
                    i <= o.entries.len(),
                    out.len() == i,
                    *v is Object,
                    v->Object_0 == *o,
                    forall|k: int|
                        0 <= k < i ==> (#[trigger] out@[k]).0@ == o.entries@[k].0@ && out@[k].1@ == normalized(
                            o.entries@[k].1@,
                        ),
                decreases o.entries.len() - i,
            {
                let e = &o.entries[i];
                let x = normalize_numbers(&e.1);
                out.push((e.0.clone(), x));
                i += 1;
            }
            let r = Value::Object(Object { entries: out });
            proof {
                assert(normalized(v@)->Obj_0 =~= json_fields(out@));
            }
            r
        },
        _ => v.copy(),
    }
}

/// The CSS fields of a scale mode.
pub open spec fn scale_css(mode: Seq<char>, has_children: bool, factor: Option<Dbl>) -> Fields {
    let none = Fields::empty();
    if mode == "TILE"@ {
        let size = match factor {
            Some(f) => "calc(var(--original-width) * "@ + js_text(f) + ") calc(var(--original-height) * "@ + js_text(f)
                + ")"@,
            None => "auto"@,
        };
        put(
            put(put(none, "backgroundRepeat"@, Json::Str("repeat"@)), "backgroundSize"@, Json::Str(size)),
            "isBackground"@,
            Json::Bool(true),
        )
    } else if has_children {
        let size = if mode == "FILL"@ {
            "cover"@
        } else if mode == "FIT"@ {
            "contain"@
        } else {
            "100% 100%"@
        };
        put(
            put(put(none, "backgroundSize"@, Json::Str(size)), "backgroundRepeat"@, Json::Str("no-repeat"@)),
            "isBackground"@,
            Json::Bool(true),
        )
    } else {
        let fit = if mode == "FILL"@ {
            "cover"@
        } else if mode == "FIT"@ {
            "contain"@
        } else {
            "fill"@
        };
        put(put(none, "objectFit"@, Json::Str(fit)), "isBackground"@, Json::Bool(false))
    }
}

/// What a download of an image with this scale mode needs.
pub open spec fn scale_needs(mode: Seq<char>) -> Fields {
    put(
        put(Fields::empty(), "needsCropping"@, Json::Bool(false)),
        "requiresImageDimensions"@,
        Json::Bool(mode == "TILE"@),
    )
}

/// The CSS fields of a scale mode, and what a download then needs.
fn translate_scale_mode(mode: &str, has_children: bool, factor: Option<Double>) -> (r: (Object, Object))
    ensures
        r.0@ == scale_css(mode@, has_children, opt_double(factor)),
        r.1@ == scale_needs(mode@),
{
    let mut css = Object::new();
    let mut needs = Object::new();
    needs.put("needsCropping", Value::Bool(false));
    needs.put("requiresImageDimensions", Value::Bool(same(mode, "TILE")));
    if same(mode, "TILE") {
        let size = match factor {
            Some(f) => {
                let text = js_num(f);
                let start = cat3(
                    "calc(var(--original-width) * ",
                    text.as_str(),
                    ") calc(var(--original-height) * ",
                );
                cat3(start.as_str(), text.as_str(), ")")
            },
            None => "auto".to_owned(),
        };
        css.put_str("backgroundRepeat", "repeat");
        css.put("backgroundSize", Value::String(size));
        css.put("isBackground", Value::Bool(true));
    } else if has_children {
        let size: &str = if same(mode, "FILL") {
            "cover"
        } else if same(mode, "FIT") {
            "contain"
        } else {
            "100% 100%"
        };
        css.put_str("backgroundSize", size);
        css.put_str("backgroundRepeat", "no-repeat");
        css.put("isBackground", Value::Bool(true));
    } else {
        let fit: &str = if same(mode, "FILL") {
            "cover"
        } else if same(mode, "FIT") {
            "contain"
        } else {
            "fill"
        };
        css.put_str("objectFit", fit);
        css.put("isBackground", Value::Bool(false));
    }
    (css, needs)
}

/// An object with the first `n` fields of another one.
pub open spec fn put_upto(o: Fields, more: Fields, n: nat) -> Fields
    decreases n,
{
    if n == 0 {
        o
    } else {
        put(put_upto(o, more, (n - 1) as nat), more[n - 1].0, more[n - 1].1)
    }
}

/// An object with the fields of another one.
pub open spec fn put_all(o: Fields, more: Fields) -> Fields {
    put_upto(o, more, more.len())
}

/// Puts the fields of another object.
pub fn put_fields(o: &mut Object, more: &Object)
    ensures
        final(o)@ == put_all(old(o)@, more@),
{
    let ghost start = o@;
    let mut i: usize = 0;
    while i < more.entries.len()
        invariant
            i <= more.entries.len(),
            o@ == put_upto(start, more@, i as nat),
        decreases more.entries.len() - i,
    {
        let e = &more.entries[i];
        o.put(e.0.as_str(), e.1.copy());
        i += 1;
    }
}

/// The fields that a crop adds to what a download needs.
pub open spec fn with_crop(needs: Fields, transform: Option<Json>) -> Fields {
    match transform {
        Some(t) => put(
            put(
                put(needs, "needsCropping"@, Json::Bool(true)),
                "cropTransform"@,
                normalized(t),
            ),
            "filenameSuffix"@,
            Json::Str(crop_suffix(t)),
        ),
        None => needs,
    }
}

/// The scale mode of an image paint.
pub open spec fn scale_mode(raw: Json) -> Seq<char> {
    match str_field(raw, "scaleMode"@) {
        Some(m) => m,
        None => "FILL"@,
    }
}

/// A number as it stands, when there is one.
pub open spec fn plain_some(x: Option<Dbl>) -> Option<Json> {
    match x {
        Some(v) => Some(plain_number(v)),
        None => None,
    }
}

/// An image paint.
pub open spec fn image_paint(raw: Json, has_children: bool) -> Json {
    let mode = scale_mode(raw);
    let factor = num_field(raw, "scalingFactor"@);
    let a = put(Fields::empty(), "type"@, Json::Str("IMAGE"@));
    let b = put_some(a, "imageRef"@, text_json(str_field(raw, "imageRef"@)));
    let c = put_some(b, "gifRef"@, text_json(str_field(raw, "gifRef"@)));
    let d = put(c, "scaleMode"@, Json::Str(mode));
    let e = put_some(d, "scalingFactor"@, plain_some(factor));
    let f = put_all(e, scale_css(mode, has_children, factor));
    Json::Obj(
        put(f, "imageDownloadArguments"@, Json::Obj(with_crop(scale_needs(mode), field(raw, "imageTransform"@)))),
    )
}

fn parse_image_paint(raw: &Value, has_children: bool) -> (r: Value)
    ensures
        r@ == image_paint(raw@, has_children),
{
    let mode: &str = match str_of(raw.get("scaleMode")) {
        Some(m) => m,
        None => "FILL",
    };
    let factor = double_of(raw.get("scalingFactor"));
    let mut obj = Object::new();
    obj.put_str("type", "IMAGE");
    obj.put_text("imageRef", own_text(str_of(raw.get("imageRef"))));
    obj.put_text("gifRef", own_text(str_of(raw.get("gifRef"))));
    obj.put_str("scaleMode", mode);
    match factor {
        Some(f) => obj.put("scalingFactor", num_raw(f)),
        None => {},
    }
    let (css, mut needs) = translate_scale_mode(mode, has_children, factor);
    put_fields(&mut obj, &css);
    match raw.get("imageTransform") {
        Some(t) => {
            needs.put("needsCropping", Value::Bool(true));
            needs.put("cropTransform", normalize_numbers(t));
            needs.put("filenameSuffix", Value::String(transform_hash(t)));
        },
        None => {},
    }
    obj.put("imageDownloadArguments", Value::Object(needs));
    Value::Object(obj)
}

/// A pattern paint.
pub open spec fn pattern_paint(raw: Json) -> Json {
    let h = if str_field(raw, "horizontalAlignment"@) == Some("CENTER"@) {
        "center"@
    } else if str_field(raw, "horizontalAlignment"@) == Some("END"@) {
        "right"@
    } else {
        "left"@
    };
    let v = if str_field(raw, "verticalAlignment"@) == Some("CENTER"@) {
        "center"@
    } else if str_field(raw, "verticalAlignment"@) == Some("END"@) {
        "bottom"@
    } else {
        "top"@
    };
    let node = match str_field(raw, "sourceNodeId"@) {
        Some(id) => id,
        None => ""@,
    };
    let scale = num_or(raw, "scalingFactor"@, of_int(1));
    let source = put(
        put(Fields::empty(), "type"@, Json::Str("IMAGE-PNG"@)),
        "nodeId"@,
        Json::Str(node),
    );
    let a = put(Fields::empty(), "type"@, Json::Str("PATTERN"@));
    let b = put(a, "patternSource"@, Json::Obj(source));
    let c = put(b, "backgroundRepeat"@, Json::Str("repeat"@));
    let d = put(c, "backgroundSize"@, Json::Str(js_text(whole(times(scale, of_int(100)))) + "%"@));
    Json::Obj(put(d, "backgroundPosition"@, Json::Str(h + " "@ + v)))
}

fn parse_pattern_paint(raw: &Value) -> (r: Value)
    ensures
        r@ == pattern_paint(raw@),
{
    let horizontal = str_of(raw.get("horizontalAlignment"));
    let h: &str = if text_is(horizontal, "CENTER") {
        "center"
    } else if text_is(horizontal, "END") {
        "right"
    } else {
        "left"
    };
    let vertical = str_of(raw.get("verticalAlignment"));
    let v: &str = if text_is(vertical, "CENTER") {
        "center"
    } else if text_is(vertical, "END") {
        "bottom"
    } else {
        "top"
    };
    let node: &str = match str_of(raw.get("sourceNodeId")) {
        Some(id) => id,
        None => "",
    };
    let scale = number_or(raw, "scalingFactor", from_int(1));
    let mut source = Object::new();
    source.put_str("type", "IMAGE-PNG");
    source.put_str("nodeId", node);
    let mut obj = Object::new();
    obj.put_str("type", "PATTERN");
    obj.put("patternSource", Value::Object(source));
    obj.put_str("backgroundRepeat", "repeat");
    let size = js_num(scale.times(from_int(100)).to_whole());
    obj.put("backgroundSize", Value::String(cat2(size.as_str(), "%")));
    obj.put("backgroundPosition", Value::String(cat3(h, " ", v)));
    Value::Object(obj)
}

/// A paint as a compact fill: a colour text or an object.
pub open spec fn paint(raw: Json, has_children: bool, turns: Turns) -> Json {
    match str_field(raw, "type"@) {
        Some(t) => if t == "IMAGE"@ {
            image_paint(raw, has_children)
        } else if t == "PATTERN"@ {
            pattern_paint(raw)
        } else if starts_with(t, "GRADIENT"@) {
            Json::Obj(
                put(
                    put(Fields::empty(), "type"@, Json::Str(t)),
                    "gradient"@,
                    Json::Str(gradient_css(raw, turns)),
                ),
            )
        } else {
            Json::Str(solid_text(raw))
        },
        None => Json::Str(solid_text(raw)),
    }
}

/// Converts one paint to a compact fill.
pub fn parse_paint(raw: &Value, has_children: bool, turns: &Vec<Turn>) -> (r: Value)
    ensures
        r@ == paint(raw@, has_children, turns_view(turns@)),
{
    match str_of(raw.get("type")) {
        Some(t) => if same(t, "IMAGE") {
            parse_image_paint(raw, has_children)
        } else if same(t, "PATTERN") {
            parse_pattern_paint(raw)
        } else if has_prefix(t, "GRADIENT") {
            let mut obj = Object::new();
            obj.put_str("type", t);
            obj.put("gradient", Value::String(convert_gradient_to_css(raw, turns)));
            Value::Object(obj)
        } else {
            Value::String(write_solid(raw))
        },
        None => Value::String(write_solid(raw)),
    }
}

/// The visible ones among the first `n` paints.
pub open spec fn visible_upto(a: Seq<Json>, n: nat) -> Seq<Json>
    decreases n,
{
    if n == 0 {
        Seq::empty()
    } else if visible(a[n - 1]) {
        visible_upto(a, (n - 1) as nat).push(a[n - 1])
    } else {
        visible_upto(a, (n - 1) as nat)
    }
}

/// The visible paints.
pub open spec fn visible_paints(a: Seq<Json>) -> Seq<Json> {
    visible_upto(a, a.len())
}

/// The visible paints.
pub fn keep_visible(a: &Vec<Value>) -> (r: Vec<Value>)
    ensures
        json_list(r@) == visible_paints(json_list(a@)),
{
    let ghost m = json_list(a@);
    let mut out: Vec<Value> = Vec::new();
    assert(json_list(out@) =~= visible_upto(m, 0));
    let mut i: usize = 0;
    while i < a.len()
        invariant
            i <= a.len(),
            m == json_list(a@),
            json_list(out@) == visible_upto(m, i as nat),
        decreases a.len() - i,
    {
        if is_visible(&a[i]) {
            let ghost before = json_list(out@);
            out.push(a[i].copy());
            assert(json_list(out@) =~= before.push(m[i as int]));
        }
        i += 1;
    }
    out
}

/// Fills in CSS order, the topmost paint first.
pub open spec fn fills_of(paints: Seq<Json>, has_children: bool, turns: Turns) -> Seq<Json> {
    Seq::new(paints.len(), |i: int| paint(paints[paints.len() - 1 - i], has_children, turns))
}

/// Converts paints to fills in CSS order.
pub fn convert_paints(paints: &Vec<Value>, has_children: bool, turns: &Vec<Turn>) -> (r: Vec<Value>)
    ensures
        json_list(r@) == fills_of(json_list(paints@), has_children, turns_view(turns@)),
{
    let ghost m = json_list(paints@);
    let ghost want = fills_of(m, has_children, turns_view(turns@));
    let mut out: Vec<Value> = Vec::new();
    let mut n: usize = paints.len();
    while n > 0
        invariant
            n <= paints.len(),
            m == json_list(paints@),
            want == fills_of(m, has_children, turns_view(turns@)),
            out.len() == paints.len() - n,
            forall|k: int| 0 <= k < out.len() ==> (#[trigger] out@[k])@ == want[k],
        decreases n,
    {
        n -= 1;
        out.push(parse_paint(&paints[n], has_children, turns));
    }
    assert(json_list(out@) =~= want);
    out
}

// ---------------------------------------------------------------------------
// Strokes
// ---------------------------------------------------------------------------

/// The strokes of a node.
#[derive(Debug)]
pub struct SimplifiedStrokes {
    pub colors: Vec<Value>,
    pub stroke_weight: Option<String>,
    pub stroke_dashes: Option<Vec<Value>>,
    pub stroke_weights: Option<String>,
    pub stroke_align: Option<String>,
}

/// A length in pixels.
pub open spec fn pixels(x: Dbl) -> Seq<char> {
    js_text(x) + "px"@
}

pub fn px(x: Double) -> (r: String)
    ensures
        r@ == pixels(x@),
{
    cat2(js_num(x).as_str(), "px")
}

/// The CSS shorthand of four sides; all zero is none.
pub open spec fn sides(top: Dbl, right: Dbl, bottom: Dbl, left: Dbl) -> Option<Seq<char>> {
    if equal(top, zero()) && equal(right, zero()) && equal(bottom, zero()) && equal(left, zero()) {
        None
    } else if equal(top, right) && equal(right, bottom) && equal(bottom, left) {
        Some(pixels(top))
    } else if equal(right, left) && equal(top, bottom) {
        Some(pixels(top) + " "@ + pixels(right))
    } else if equal(right, left) {
        Some(pixels(top) + " "@ + pixels(right) + " "@ + pixels(bottom))
    } else {
        Some(pixels(top) + " "@ + pixels(right) + " "@ + pixels(bottom) + " "@ + pixels(left))
    }
}

/// The CSS shorthand of four sides.
pub fn css_shorthand(top: Double, right: Double, bottom: Double, left: Double) -> (r: Option<String>)
    ensures
        opt_text(r) == sides(top@, right@, bottom@, left@),
{
    let z = from_int(0);
    proof {
        lemma_of_zero();
    }
    if top.equals(z) && right.equals(z) && bottom.equals(z) && left.equals(z) {
        return None;
    }
    if top.equals(right) && right.equals(bottom) && bottom.equals(left) {
        return Some(px(top));
    }
    let two = cat3(px(top).as_str(), " ", px(right).as_str());
    if right.equals(left) && top.equals(bottom) {
        return Some(two);
    }
    let three = cat3(two.as_str(), " ", px(bottom).as_str());
    if right.equals(left) {
        return Some(three);
    }
    Some(cat3(three.as_str(), " ", px(left).as_str()))
}

/// The numbers among the first `n` values, as they stand.
pub open spec fn plain_upto(a: Seq<Json>, n: nat) -> Seq<Json>
    decreases n,
{
    if n == 0 {
        Seq::empty()
    } else {
        match as_num(Some(a[n - 1])) {
            Some(x) => plain_upto(a, (n - 1) as nat).push(plain_number(x)),
            None => plain_upto(a, (n - 1) as nat),
        }
    }
}

fn plain_numbers(a: &Vec<Value>) -> (r: Vec<Value>)
    ensures
        json_list(r@) == plain_upto(json_list(a@), a@.len()),
{
    let ghost m = json_list(a@);
    let mut out: Vec<Value> = Vec::new();
    assert(json_list(out@) =~= plain_upto(m, 0));
    let mut i: usize = 0;
    while i < a.len()
        invariant
            i <= a.len(),
            m == json_list(a@),
            json_list(out@) == plain_upto(m, i as nat),
        decreases a.len() - i,
    {
        match double_of(Some(&a[i])) {
            Some(x) => {
                let ghost before = json_list(out@);
                out.push(num_raw(x));
                assert(json_list(out@) =~= before.push(plain_number(x@)));
            },
            None => {},
        }
        i += 1;
    }
    out
}

/// The colours of a node's strokes.
pub open spec fn stroke_colors(n: Json, has_children: bool, turns: Turns) -> Seq<Json> {
    match arr_field(n, "strokes"@) {
        Some(a) => fills_of(visible_paints(a), has_children, turns),
        None => Seq::empty(),
    }
}

/// The weight of a node's strokes: the shorthand of the weights of its sides
/// where it has them, else its positive weight.
pub open spec fn stroke_weight(n: Json) -> Option<Seq<char>> {
    match field(n, "individualStrokeWeights"@) {
        Some(Json::Obj(o)) => {
            let w = Json::Obj(o);
            sides(
                num_or(w, "top"@, zero()),
                num_or(w, "right"@, zero()),
                num_or(w, "bottom"@, zero()),
                num_or(w, "left"@, zero()),
            )
        },
        _ => match num_field(n, "strokeWeight"@) {
            Some(w) => if less(zero(), w) {
                Some(pixels(w))
            } else {
                None
            },
            None => None,
        },
    }
}

/// The dashes of a node's strokes.
pub open spec fn stroke_dashes(n: Json) -> Option<Seq<Json>> {
    match arr_field(n, "strokeDashes"@) {
        Some(d) => if plain_upto(d, d.len()).len() > 0 {
            Some(plain_upto(d, d.len()))
        } else {
            None
        },
        None => None,
    }
}

/// The alignment of a node's strokes, unless it is the usual one.
pub open spec fn stroke_align(n: Json) -> Option<Seq<char>> {
    match str_field(n, "strokeAlign"@) {
        Some(a) => if a == "OUTSIDE"@ || a == "CENTER"@ {
            Some(a)
        } else {
            None
        },
        None => None,
    }
}

fn find_weight(n: &Value) -> (r: Option<String>)
    ensures
        opt_text(r) == stroke_weight(n@),
{
    let z = from_int(0);
    proof {
        lemma_of_zero();
    }
    if let Some(w) = n.get("individualStrokeWeights") {
        if let Value::Object(_) = w {
            return css_shorthand(
                number_or(w, "top", z),
                number_or(w, "right", z),
                number_or(w, "bottom", z),
                number_or(w, "left", z),
            );
        }
    }
    match double_of(n.get("strokeWeight")) {
        Some(w) => if z.is_less(w) {
            Some(px(w))
        } else {
            None
        },
        None => None,
    }
}

/// Assembles the strokes of a node.
pub fn build_simplified_strokes(n: &Value, has_children: bool, turns: &Vec<Turn>) -> (r: SimplifiedStrokes)
    ensures
        json_list(r.colors@) == stroke_colors(n@, has_children, turns_view(turns@)),
        opt_text(r.stroke_weight) == stroke_weight(n@),
        match r.stroke_dashes {
            Some(d) => stroke_dashes(n@) == Some(json_list(d@)),
            None => stroke_dashes(n@) is None,
        },
        r.stroke_weights is None,
        opt_text(r.stroke_align) == stroke_align(n@),
{
    let colors = match list_of(n.get("strokes")) {
        Some(a) => convert_paints(&keep_visible(a), has_children, turns),
        None => {
            let none: Vec<Value> = Vec::new();
            assert(json_list(none@) =~= Seq::empty());
            none
        },
    };
    let dashes = match list_of(n.get("strokeDashes")) {
        Some(d) => {
            let plain = plain_numbers(d);
            if plain.len() > 0 {
                Some(plain)
            } else {
                None
            }
        },
        None => None,
    };
    let align = match str_of(n.get("strokeAlign")) {
        Some(a) => if same(a, "OUTSIDE") || same(a, "CENTER") {
            Some(a.to_owned())
        } else {
            None
        },
        None => None,
    };
    SimplifiedStrokes {
        colors,
        stroke_weight: find_weight(n),
        stroke_dashes: dashes,
        stroke_weights: None,
        stroke_align: align,
    }
}

/// Rounds to two decimals, halves away from zero.
pub fn round2(n: Double) -> (r: Double)
    ensures
        r@ == hundredths(n@),
{
    pixel_round(n)
}

} // verus!
