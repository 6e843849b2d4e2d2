//! What image paints, pattern paints, linear gradients and stacks of paints tell.

use vstd::prelude::*;

use crate::float::{
    equal, is_exact, lemma_exact_minus, lemma_minus_self, lemma_of_exact, lemma_of_one, lemma_of_zero, lemma_over_self,
    lemma_times_one, less, minus, near, of_int, over, size, zero, Dbl,
};
use crate::json::{
    arr_field, field, field_is, get, get_after_put, lemma_key_from, num_field, put, put_some, str_field, text_json, Fields,
    Json, Num,
};
use crate::simplify::color::{color_form, flattenable, flattened, rgba, settled, stacked, straight};
use crate::simplify::gradient::{
    css_head, gradient_css, handle, handles, no_length, placed, points, stops_in_order, stops_text, turn_from,
    whole_text, Turns,
};
use crate::simplify::numbers::{
    shares_are_printed, whole_numbers_are_integers, whole_numbers_are_printed, whole_numbers_stay,
};
use crate::simplify::painted::{colored, covers, gradient_told, hex_tells_the_color, lemma_gradient_told, percentage, two_digits};
use crate::simplify::registry::State;
use crate::simplify::style::{
    crop_suffix, normalized, paint, plain_some, plain_upto, put_all, put_upto, scale_css, scale_needs, stroke_align,
    stroke_dashes, visible_paints, visible_upto, with_crop,
};
use crate::simplify::walk::node_fills;
use crate::strings::signed_decimal;

verus! {

proof fn lemma_puts(k: Seq<char>)
    ensures
        forall|o: Fields, x: Seq<char>, v: Json|
            #![trigger get(put(o, x, v), k)]
            get(put(o, x, v), k) == if x == k {
                Some(v)
            } else {
                get(o, k)
            },
        get(Fields::empty(), k) is None,
{
    lemma_key_from(Fields::empty(), k, 0);
    assert forall|o: Fields, x: Seq<char>, v: Json|
        #![trigger get(put(o, x, v), k)]
        get(put(o, x, v), k) == if x == k {
            Some(v)
        } else {
            get(o, k)
        } by {
        get_after_put(o, x, v, k);
    }
}

// ---------------------------------------------------------------------------
// Images
// ---------------------------------------------------------------------------

proof fn lemma_image_words()
    ensures
        "type"@ != "imageRef"@,
        "type"@ != "gifRef"@,
        "type"@ != "scaleMode"@,
        "type"@ != "imageDownloadArguments"@,
        "type"@ != "objectFit"@,
        "type"@ != "backgroundSize"@,
        "type"@ != "backgroundRepeat"@,
        "type"@ != "isBackground"@,
        "type"@ != "scalingFactor"@,
        "imageRef"@ != "gifRef"@,
        "imageRef"@ != "scaleMode"@,
        "imageRef"@ != "imageDownloadArguments"@,
        "imageRef"@ != "objectFit"@,
        "imageRef"@ != "backgroundSize"@,
        "imageRef"@ != "backgroundRepeat"@,
        "imageRef"@ != "isBackground"@,
        "imageRef"@ != "scalingFactor"@,
        "gifRef"@ != "scaleMode"@,
        "gifRef"@ != "imageDownloadArguments"@,
        "gifRef"@ != "objectFit"@,
        "gifRef"@ != "backgroundSize"@,
        "gifRef"@ != "backgroundRepeat"@,
        "gifRef"@ != "isBackground"@,
        "gifRef"@ != "scalingFactor"@,
        "scaleMode"@ != "imageDownloadArguments"@,
        "scaleMode"@ != "objectFit"@,
        "scaleMode"@ != "backgroundSize"@,
        "scaleMode"@ != "backgroundRepeat"@,
        "scaleMode"@ != "isBackground"@,
        "scaleMode"@ != "scalingFactor"@,
        "imageDownloadArguments"@ != "objectFit"@,
        "imageDownloadArguments"@ != "backgroundSize"@,
        "imageDownloadArguments"@ != "backgroundRepeat"@,
        "imageDownloadArguments"@ != "isBackground"@,
        "imageDownloadArguments"@ != "scalingFactor"@,
        "objectFit"@ != "backgroundSize"@,
        "objectFit"@ != "backgroundRepeat"@,
        "objectFit"@ != "isBackground"@,
        "objectFit"@ != "scalingFactor"@,
        "backgroundSize"@ != "backgroundRepeat"@,
        "backgroundSize"@ != "isBackground"@,
        "backgroundSize"@ != "scalingFactor"@,
        "backgroundRepeat"@ != "isBackground"@,
        "backgroundRepeat"@ != "scalingFactor"@,
        "isBackground"@ != "scalingFactor"@,
{
    reveal_strlit("type");
    reveal_strlit("imageRef");
    reveal_strlit("gifRef");
    reveal_strlit("scaleMode");
    reveal_strlit("imageDownloadArguments");
    reveal_strlit("objectFit");
    reveal_strlit("backgroundSize");
    reveal_strlit("backgroundRepeat");
    reveal_strlit("isBackground");
    reveal_strlit("scalingFactor");
    assert("type"@.len() == 4 && "imageRef"@.len() == 8 && "gifRef"@.len() == 6);
    assert("scaleMode"@.len() == 9 && "imageDownloadArguments"@.len() == 22 && "objectFit"@.len() == 9);
    assert("backgroundSize"@.len() == 14 && "backgroundRepeat"@.len() == 16 && "isBackground"@.len() == 12);
    assert("scalingFactor"@.len() == 13 && "objectFit"@[0] == 'o' && "scaleMode"@[0] == 's');
}

proof fn lemma_put_upto(o: Fields, more: Fields, n: nat, k: Seq<char>)
    requires
        n <= more.len(),
    ensures
        (forall|i: int| 0 <= i < n ==> (#[trigger] more[i]).0 != k) ==> get(put_upto(o, more, n), k) == get(o, k),
        forall|i: int|
            0 <= i < n && (#[trigger] more[i]).0 == k && (forall|j: int| i < j < n ==> (#[trigger] more[j]).0 != k)
                ==> get(put_upto(o, more, n), k) == Some(more[i].1),
    decreases n,
{
    if n > 0 {
        lemma_put_upto(o, more, (n - 1) as nat, k);
        lemma_puts(k);
        assert forall|i: int|
            0 <= i < n && (#[trigger] more[i]).0 == k && (forall|j: int| i < j < n ==> (#[trigger] more[j]).0 != k) implies get(
            put_upto(o, more, n),
            k,
        ) == Some(more[i].1) by {
            if i < n - 1 {
                assert(more[n - 1].0 != k);
            }
        }
    }
}

proof fn lemma_css_fields(mode: Seq<char>, has_children: bool, factor: Option<Dbl>)
    ensures
        ({
            let c = scale_css(mode, has_children, factor);
            &&& mode != "TILE"@ && !has_children ==> c.len() == 2 && c[0] == (
                "objectFit"@,
                Json::Str(fit_word(mode, false)),
            ) && c[1] == (
                "isBackground"@,
                Json::Bool(false),
            )
            &&& mode != "TILE"@ && has_children ==> c.len() == 3 && c[0] == (
                "backgroundSize"@,
                Json::Str(fit_word(mode, true)),
            ) && c[1] == (
                "backgroundRepeat"@,
                Json::Str("no-repeat"@),
            ) && c[2] == ("isBackground"@, Json::Bool(true))
            &&& mode == "TILE"@ ==> c.len() == 3 && c[0] == ("backgroundRepeat"@, Json::Str("repeat"@)) && c[1].0
                == "backgroundSize"@ && c[2] == ("isBackground"@, Json::Bool(true))
        }),
{
    lemma_image_words();
    let none = Fields::empty();
    assert forall|a: Json, b: Json, c: Json, x: Seq<char>, y: Seq<char>, z: Seq<char>|
        x != y && y != z && x != z implies #[trigger] put(put(put(none, x, a), y, b), z, c) == seq![(x, a), (y, b), (z, c)] by {
        lemma_key_from(none, x, 0);
        let p = put(none, x, a);
        assert(p =~= seq![(x, a)]);
        lemma_key_from(p, y, 0);
        let q = put(p, y, b);
        assert(q =~= seq![(x, a), (y, b)]);
        lemma_key_from(q, z, 0);
        assert(put(q, z, c) =~= seq![(x, a), (y, b), (z, c)]);
    }
    assert forall|a: Json, b: Json, x: Seq<char>, y: Seq<char>| x != y implies #[trigger] put(put(none, x, a), y, b)
        == seq![(x, a), (y, b)] by {
        lemma_key_from(none, x, 0);
        let p = put(none, x, a);
        assert(p =~= seq![(x, a)]);
        lemma_key_from(p, y, 0);
        assert(put(p, y, b) =~= seq![(x, a), (y, b)]);
    }
}

/// The CSS word for how an image fills its box.
pub open spec fn fit_word(mode: Seq<char>, has_children: bool) -> Seq<char> {
    if mode == "FILL"@ {
        "cover"@
    } else if mode == "FIT"@ {
        "contain"@
    } else if has_children {
        "100% 100%"@
    } else {
        "fill"@
    }
}

/// An image paint keeps the references to its image and its animation, and tells how
/// the image fills its box: behind the children of a node as a background, else as
/// an object.
pub proof fn image_paints_are_told(raw: Json, has_children: bool, turns: Turns, mode: Seq<char>)
    requires
        field_is(raw, "type"@, "IMAGE"@),
        field_is(raw, "scaleMode"@, mode),
    ensures
        ({
            let p = paint(raw, has_children, turns);
            &&& str_field(p, "type"@) == Some("IMAGE"@)
            &&& str_field(p, "imageRef"@) == str_field(raw, "imageRef"@)
            &&& str_field(p, "gifRef"@) == str_field(raw, "gifRef"@)
            &&& str_field(p, "scaleMode"@) == Some(mode)
            &&& mode != "TILE"@ && has_children ==> str_field(p, "backgroundSize"@) == Some(fit_word(mode, true))
            &&& mode != "TILE"@ && !has_children ==> str_field(p, "objectFit"@) == Some(fit_word(mode, false))
            &&& mode == "TILE"@ ==> str_field(p, "backgroundRepeat"@) == Some("repeat"@)
            &&& field(p, "isBackground"@) == Some(Json::Bool(mode == "TILE"@ || has_children))
        }),
{
    lemma_image_words();
    let factor = num_field(raw, "scalingFactor"@);
    let css = scale_css(mode, has_children, factor);
    lemma_css_fields(mode, has_children, factor);
    lemma_puts("type"@);
    lemma_puts("imageRef"@);
    lemma_puts("gifRef"@);
    lemma_puts("scaleMode"@);
    lemma_puts("backgroundSize"@);
    lemma_puts("backgroundRepeat"@);
    lemma_puts("objectFit"@);
    lemma_puts("isBackground"@);
    let a = put(Fields::empty(), "type"@, Json::Str("IMAGE"@));
    let b = put_some(a, "imageRef"@, text_json(str_field(raw, "imageRef"@)));
    let c = put_some(b, "gifRef"@, text_json(str_field(raw, "gifRef"@)));
    let d = put(c, "scaleMode"@, Json::Str(mode));
    let e = put_some(d, "scalingFactor"@, plain_some(factor));
    let f = put_all(e, css);
    assert(get(e, "type"@) == Some(Json::Str("IMAGE"@)));
    assert(get(e, "imageRef"@) == text_json(str_field(raw, "imageRef"@)));
    assert(get(e, "gifRef"@) == text_json(str_field(raw, "gifRef"@)));
    assert(get(e, "scaleMode"@) == Some(Json::Str(mode)));
    lemma_put_upto(e, css, css.len(), "type"@);
    lemma_put_upto(e, css, css.len(), "imageRef"@);
    lemma_put_upto(e, css, css.len(), "gifRef"@);
    lemma_put_upto(e, css, css.len(), "scaleMode"@);
    lemma_put_upto(e, css, css.len(), "isBackground"@);
    lemma_put_upto(e, css, css.len(), css[0].0);
    assert(css[css.len() - 1].0 == "isBackground"@);
    assert(get(f, "type"@) == get(e, "type"@));
    assert(get(f, "imageRef"@) == get(e, "imageRef"@));
    assert(get(f, "gifRef"@) == get(e, "gifRef"@));
    assert(get(f, "scaleMode"@) == get(e, "scaleMode"@));
    assert(get(f, "isBackground"@) == Some(css[css.len() - 1].1));
    assert(get(f, css[0].0) == Some(css[0].1));
    let needs = Json::Obj(with_crop(scale_needs(mode), field(raw, "imageTransform"@)));
    let o = put(f, "imageDownloadArguments"@, needs);
    assert(paint(raw, has_children, turns) == Json::Obj(o));
    assert(get(o, css[0].0) == get(f, css[0].0));
}

/// What a download of an image paint needs: a paint with a transform is cropped, and
/// its file is told apart; a tiled one needs the size of the image.
pub proof fn image_downloads_are_told(raw: Json, has_children: bool, turns: Turns, mode: Seq<char>)
    requires
        field_is(raw, "type"@, "IMAGE"@),
        field_is(raw, "scaleMode"@, mode),
    ensures
        field(paint(raw, has_children, turns), "imageDownloadArguments"@) matches Some(n) && {
            &&& field(n, "needsCropping"@) == Some(Json::Bool(field(raw, "imageTransform"@) is Some))
            &&& field(n, "requiresImageDimensions"@) == Some(Json::Bool(mode == "TILE"@))
            &&& field(raw, "imageTransform"@) matches Some(t) ==> field(n, "cropTransform"@) == Some(normalized(t))
                && str_field(n, "filenameSuffix"@) == Some(crop_suffix(t))
        },
{
    lemma_puts("imageDownloadArguments"@);
    lemma_puts("needsCropping"@);
    lemma_puts("requiresImageDimensions"@);
    lemma_puts("cropTransform"@);
    lemma_puts("filenameSuffix"@);
    lemma_need_words();
}

proof fn lemma_need_words()
    ensures
        "needsCropping"@ != "requiresImageDimensions"@,
        "needsCropping"@ != "cropTransform"@,
        "needsCropping"@ != "filenameSuffix"@,
        "requiresImageDimensions"@ != "cropTransform"@,
        "requiresImageDimensions"@ != "filenameSuffix"@,
        "cropTransform"@ != "filenameSuffix"@,
{
    reveal_strlit("needsCropping");
    reveal_strlit("requiresImageDimensions");
    reveal_strlit("cropTransform");
    reveal_strlit("filenameSuffix");
    assert("needsCropping"@.len() == 13 && "requiresImageDimensions"@.len() == 23 && "cropTransform"@.len() == 13);
    assert("filenameSuffix"@.len() == 14 && "cropTransform"@[0] == 'c' && "needsCropping"@[0] == 'n');
}

proof fn lemma_pattern_words()
    ensures
        "type"@ != "patternSource"@,
        "type"@ != "backgroundRepeat"@,
        "type"@ != "backgroundSize"@,
        "type"@ != "backgroundPosition"@,
        "type"@ != "nodeId"@,
        "patternSource"@ != "backgroundRepeat"@,
        "patternSource"@ != "backgroundSize"@,
        "patternSource"@ != "backgroundPosition"@,
        "patternSource"@ != "nodeId"@,
        "backgroundRepeat"@ != "backgroundSize"@,
        "backgroundRepeat"@ != "backgroundPosition"@,
        "backgroundRepeat"@ != "nodeId"@,
        "backgroundSize"@ != "backgroundPosition"@,
        "backgroundSize"@ != "nodeId"@,
        "backgroundPosition"@ != "nodeId"@,
{
    reveal_strlit("type");
    reveal_strlit("patternSource");
    reveal_strlit("backgroundRepeat");
    reveal_strlit("backgroundSize");
    reveal_strlit("backgroundPosition");
    reveal_strlit("nodeId");
    assert("type"@.len() == 4 && "patternSource"@.len() == 13 && "backgroundRepeat"@.len() == 16);
    assert("backgroundSize"@.len() == 14 && "backgroundPosition"@.len() == 18 && "nodeId"@.len() == 6);
}

/// A pattern paint names the node that it repeats, its size in percent, and the
/// corner, edge or centre where it begins.
pub proof fn patterns_are_told(raw: Json, has_children: bool, turns: Turns, node: Seq<char>, scale: int)
    requires
        field_is(raw, "type"@, "PATTERN"@),
        field_is(raw, "sourceNodeId"@, node),
        num_field(raw, "scalingFactor"@) matches Some(x) && near(x, 100, scale),
        size(scale) < 0x100_0000_0000,
    ensures
        ({
            let p = paint(raw, has_children, turns);
            &&& field(p, "patternSource"@) matches Some(s) && str_field(s, "nodeId"@) == Some(node)
            &&& str_field(p, "backgroundRepeat"@) == Some("repeat"@)
            &&& str_field(p, "backgroundSize"@) == Some(percentage(scale))
            &&& field_is(raw, "horizontalAlignment"@, "START"@) && field_is(raw, "verticalAlignment"@, "END"@)
                ==> str_field(p, "backgroundPosition"@) == Some("left bottom"@)
            &&& field_is(raw, "horizontalAlignment"@, "END"@) && field_is(raw, "verticalAlignment"@, "START"@)
                ==> str_field(p, "backgroundPosition"@) == Some("right top"@)
            &&& field_is(raw, "horizontalAlignment"@, "CENTER"@) && field_is(raw, "verticalAlignment"@, "END"@)
                ==> str_field(p, "backgroundPosition"@) == Some("center bottom"@)
            &&& field_is(raw, "horizontalAlignment"@, "END"@) && field_is(raw, "verticalAlignment"@, "CENTER"@)
                ==> str_field(p, "backgroundPosition"@) == Some("right center"@)
        }),
{
    lemma_pattern_words();
    lemma_puts("type"@);
    lemma_puts("patternSource"@);
    lemma_puts("backgroundRepeat"@);
    lemma_puts("backgroundSize"@);
    lemma_puts("backgroundPosition"@);
    lemma_puts("nodeId"@);
    reveal_strlit("PATTERN");
    reveal_strlit("IMAGE");
    assert("PATTERN"@.len() == 7 && "IMAGE"@.len() == 5);
    reveal_strlit("CENTER");
    reveal_strlit("END");
    reveal_strlit("START");
    assert("CENTER"@.len() == 6 && "END"@.len() == 3 && "START"@.len() == 5);
    reveal_strlit("left");
    reveal_strlit("right");
    reveal_strlit("center");
    reveal_strlit("top");
    reveal_strlit("bottom");
    reveal_strlit(" ");
    reveal_strlit("left bottom");
    reveal_strlit("right top");
    reveal_strlit("center bottom");
    reveal_strlit("right center");
    assert("left"@ + " "@ + "bottom"@ =~= "left bottom"@);
    assert("right"@ + " "@ + "top"@ =~= "right top"@);
    assert("center"@ + " "@ + "bottom"@ =~= "center bottom"@);
    assert("right"@ + " "@ + "center"@ =~= "right center"@);
    shares_are_printed(num_field(raw, "scalingFactor"@)->0, 100, scale);
}

// ---------------------------------------------------------------------------
// Linear gradients
// ---------------------------------------------------------------------------

/// Whether the handles of a gradient lead from one point to another.
pub open spec fn leads(raw: Json, x: int, y: int, to_x: int, to_y: int) -> bool {
    &&& arr_field(raw, "gradientHandlePositions"@) matches Some(h)
    &&& h.len() >= 2
    &&& num_field(h[0], "x"@) == Some(of_int(x)) && num_field(h[0], "y"@) == Some(of_int(y))
    &&& num_field(h[1], "x"@) == Some(of_int(to_x)) && num_field(h[1], "y"@) == Some(of_int(to_y))
}

proof fn lemma_two_points(h: Seq<Json>, n: nat)
    requires
        2 <= n <= h.len(),
        handle(h[0]) is Some,
        handle(h[1]) is Some,
    ensures
        points(h, n).len() >= 2,
        points(h, n)[0] == handle(h[0])->0,
        points(h, n)[1] == handle(h[1])->0,
    decreases n,
{
    if n > 2 {
        lemma_two_points(h, (n - 1) as nat);
    } else {
        reveal_with_fuel(points, 3);
        assert(points(h, 0) =~= Seq::empty());
    }
}

/// A linear gradient is written with the angle of its direction: how far its second
/// handle lies below and beside the first one.
pub proof fn linear_gradients_have_an_angle(
    raw: Json,
    has_children: bool,
    turns: Turns,
    x: int,
    y: int,
    to_x: int,
    to_y: int,
    degrees: Dbl,
    angle: int,
)
    requires
        field_is(raw, "type"@, "GRADIENT_LINEAR"@),
        leads(raw, x, y, to_x, to_y),
        is_exact(x) && is_exact(y) && is_exact(to_x) && is_exact(to_y) && is_exact(to_x - x) && is_exact(to_y - y),
        turn_from(turns, of_int(to_y - y), of_int(to_x - x), 0) == degrees,
        near(degrees, 1, angle),
        size(angle) < 0x100_0000_0000,
        !no_length(of_int(to_x - x), of_int(to_y - y)),
    ensures
        exists|stops: Seq<char>|
            gradient_told(raw, has_children, turns) == Some(
                #[trigger] ("linear-gradient("@ + signed_decimal(angle) + "deg, "@ + stops),
            ),
{
    let kind = "GRADIENT_LINEAR"@;
    lemma_gradient_told(raw, has_children, turns, kind);
    let h = arr_field(raw, "gradientHandlePositions"@)->0;
    lemma_two_points(h, h.len());
    lemma_exact_minus(to_y, y);
    lemma_exact_minus(to_x, x);
    reveal_strlit("GRADIENT_LINEAR");
    reveal_strlit("GRADIENT_RADIAL");
    reveal_strlit("GRADIENT_ANGULAR");
    reveal_strlit("GRADIENT_DIAMOND");
    assert("GRADIENT_LINEAR"@[9] == 'L' && "GRADIENT_RADIAL"@[9] == 'R' && "GRADIENT_ANGULAR"@[9] == 'A'
        && "GRADIENT_DIAMOND"@[9] == 'D');
    shares_are_printed(degrees, 1, angle);
    lemma_one_degree(degrees, angle);
    reveal_strlit("deg");
    reveal_strlit(", ");
    reveal_strlit("deg, ");
    assert("deg"@ + ", "@ =~= "deg, "@);
    let opacity = crate::simplify::color::num_or(raw, "opacity"@, of_int(1));
    let span = crate::simplify::gradient::css_span(kind, handles(raw)->0);
    let stops = stops_text(stops_in_order(raw), opacity, span) + ")"@;
    let text = signed_decimal(angle);
    assert(css_head(kind, handles(raw)->0, turns) == text + "deg"@);
    assert(gradient_css(raw, turns) =~= "linear-gradient("@ + (text + "deg"@) + ", "@ + stops);
    assert(gradient_css(raw, turns) =~= "linear-gradient("@ + text + "deg, "@ + stops);
}

proof fn lemma_one_degree(x: Dbl, n: int)
    requires
        near(x, 1, n),
        size(n) < 0x100_0000_0000,
    ensures
        whole_text(x) == signed_decimal(n),
{
    crate::float::lemma_near_itself(x, n);
    lemma_of_exact(n);
    crate::float::lemma_exact_whole(n);
    whole_numbers_are_printed(n);
    whole_numbers_are_printed(0);
    lemma_of_zero();
    let y = crate::float::whole(x);
    if n != 0 {
        assert(y == of_int(n));
    } else {
        assert(0 * crate::float::one() == 0) by (nonlinear_arith);
    }
}

/// The place of a stop on the line that crosses the box: where that begins is zero,
/// where it ends is one, and no stop lies outside.
pub proof fn stops_are_placed_on_the_line(p: Dbl, lo: Dbl, hi: Dbl)
    requires
        lo is Fin,
        hi is Fin,
        less(lo, hi),
        minus(hi, lo) matches Dbl::Fin(n, u) && !n && u > 0,
    ensures
        equal(placed(lo, Some((lo, hi))), zero()),
        placed(hi, Some((lo, hi))) == of_int(1),
        !less(placed(p, Some((lo, hi))), zero()),
        !less(of_int(1), placed(p, Some((lo, hi)))),
{
    lemma_of_one();
    lemma_minus_self(lo);
    lemma_over_self(minus(hi, lo));
    let d = minus(hi, lo);
    reveal(over);
    crate::float::lemma_zero_rounds(false, d->Fin_1);
    assert(0 * crate::float::one() == 0) by (nonlinear_arith);
    assert(over(zero(), d) == zero());
}

// ---------------------------------------------------------------------------
// Stacks and strokes
// ---------------------------------------------------------------------------

/// The fills of a node with one solid paint that covers are its colour in
/// hexadecimal.
pub proof fn solid_fills_are_told(raw: Json, color: Json, s: State, has_children: bool, r: nat, g: nat, b: nat)
    requires
        str_field(raw, "type"@) == Some("SOLID"@),
        str_field(raw, "blendMode"@) is None || str_field(raw, "blendMode"@) == Some("NORMAL"@),
        field(raw, "visible"@) != Some(Json::Bool(false)),
        field(raw, "color"@) == Some(color),
        colored(color, r, g, b),
        covers(raw, color),
    ensures
        node_fills(seq![raw], s, has_children) == Json::Arr(
            seq![Json::Str("#"@ + two_digits(r) + two_digits(g) + two_digits(b))],
        ),
{
    let a = seq![raw];
    reveal_with_fuel(visible_upto, 2);
    assert(visible_paints(a) =~= a);
    assert(flattenable(a[0]));
    hex_tells_the_color(raw, color, has_children, s.turns, r, g, b);
    lemma_of_one();
    lemma_times_one(of_int(1));
    whole_numbers_stay(1);
    let c = rgba(color);
    assert(straight(raw) == c);
    assert(settled(c) == c);
    assert(stacked(a, 1) == c);
    assert(flattened(a) == Some(color_form(c, of_int(1))));
    assert(crate::simplify::color::alpha(c, of_int(1)) == of_int(1));
    reveal_strlit("SOLID");
    reveal_strlit("IMAGE");
    reveal_strlit("PATTERN");
    reveal_strlit("GRADIENT");
    assert("SOLID"@[0] == 'S' && "IMAGE"@[0] == 'I' && "PATTERN"@[0] == 'P' && "GRADIENT"@.len() == 8 && "SOLID"@.len()
        == 5);
}

/// The alignment of strokes is told where it is not inside.
pub proof fn stroke_alignments_are_told(n: Json)
    ensures
        field_is(n, "strokeAlign"@, "OUTSIDE"@) ==> stroke_align(n) == Some("OUTSIDE"@),
        field_is(n, "strokeAlign"@, "CENTER"@) ==> stroke_align(n) == Some("CENTER"@),
        field_is(n, "strokeAlign"@, "INSIDE"@) ==> stroke_align(n) is None,
{
    reveal_strlit("OUTSIDE");
    reveal_strlit("INSIDE");
    reveal_strlit("CENTER");
    assert("OUTSIDE"@.len() == 7 && "INSIDE"@.len() == 6 && "CENTER"@.len() == 6 && "INSIDE"@[0] == 'I' && "CENTER"@[0]
        == 'C');
}

proof fn lemma_turn(turns: Turns, rise: Dbl, run: Dbl, i: int, at: int)
    requires
        0 <= i <= at < turns.len(),
        turns[at].0 == rise,
        turns[at].1 == run,
        forall|k: int| i <= k < at ==> (#[trigger] turns[k]).0 != rise || turns[k].1 != run,
    ensures
        turn_from(turns, rise, run, i) == turns[at].2,
    decreases at - i,
{
    if i < at {
        lemma_turn(turns, rise, run, i + 1, at);
    }
}

/// The angle of a direction is the one that the table has for it.
pub proof fn turns_are_found(turns: Turns, rise: Dbl, run: Dbl, at: int)
    requires
        0 <= at < turns.len(),
        turns[at].0 == rise,
        turns[at].1 == run,
        forall|k: int| 0 <= k < at ==> (#[trigger] turns[k]).0 != rise || turns[k].1 != run,
    ensures
        turn_from(turns, rise, run, 0) == turns[at].2,
{
    lemma_turn(turns, rise, run, 0, at);
}

/// Numbers keep their values when they are written without needless fractions, and
/// so do the numbers of a list.
pub proof fn plain_numbers_keep_their_values(a: Seq<Json>, i: int, n: int)
    requires
        0 <= i < a.len(),
        a[i] == Json::Num(Num::Int(n)),
        is_exact(n),
    ensures
        normalized(Json::Arr(a)) matches Json::Arr(b) && b.len() == a.len() && b[i] == Json::Num(Num::Int(n)),
{
    whole_numbers_are_integers(n);
    reveal_with_fuel(normalized, 2);
    assert(normalized(a[i]) == Json::Num(Num::Int(n)));
    let b = normalized(Json::Arr(a))->Arr_0;
    assert(b[i] == normalized(a[i]));
}

proof fn lemma_dashes(d: Seq<Json>, n: nat)
    requires
        n <= d.len(),
        forall|i: int| 0 <= i < d.len() ==> (#[trigger] d[i] matches Json::Num(Num::Int(x)) && is_exact(x)),
    ensures
        plain_upto(d, n) == d.take(n as int),
    decreases n,
{
    if n > 0 {
        lemma_dashes(d, (n - 1) as nat);
        let x = d[n - 1]->Num_0->Int_0;
        assert(d[n - 1] matches Json::Num(Num::Int(x)) && is_exact(x));
        whole_numbers_are_integers(x);
        assert(plain_upto(d, n) =~= d.take(n as int));
    } else {
        assert(d.take(0) =~= Seq::empty());
    }
}

/// The dashes of strokes are told as they are, in whole pixels.
pub proof fn dashes_are_told(n: Json, d: Seq<Json>)
    requires
        arr_field(n, "strokeDashes"@) == Some(d),
        d.len() > 0,
        forall|i: int| 0 <= i < d.len() ==> (#[trigger] d[i] matches Json::Num(Num::Int(x)) && is_exact(x)),
    ensures
        stroke_dashes(n) == Some(d),
{
    lemma_dashes(d, d.len());
    assert(d.take(d.len() as int) =~= d);
}

} // verus!
