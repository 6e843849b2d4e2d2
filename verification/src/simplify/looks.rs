//! What effects, strokes and text styles tell.

use vstd::prelude::*;

use crate::float::{
    is_binary64, is_exact, lemma_exact_over, lemma_exact_times, lemma_exact_whole, lemma_of_exact, lemma_of_one,
    lemma_of_zero, lemma_times_one, near, of_int, one, over, size, times, Dbl,
};
use crate::json::{
    arr_field, as_bool, as_num, as_str, field, field_is, get, get_after_put, lemma_key_from, num_field, obj_field, put,
    str_field, Fields, Json, Num,
};
use crate::simplify::color::color_of;
use crate::simplify::effects::{blur, blurs, effects, offset, shadow, shadows};
use crate::simplify::numbers::{
    hundredths, js_text, whole_numbers_are_displayed, whole_numbers_are_integers, whole_numbers_are_printed,
    whole_numbers_stay,
};
use crate::simplify::painted::{colored, rgba_tells_the_color};
use crate::simplify::style::{pixels, stroke_weight};
use crate::simplify::text::{
    font_fields, line_height, paragraph_fields, setting_fields, spacing, text_style,
};
use crate::simplify::told::lemma_equal_exact;
use crate::strings::{decimal, joined, signed_decimal};

verus! {

// ---------------------------------------------------------------------------
// Effects
// ---------------------------------------------------------------------------

proof fn lemma_one_times(x: Dbl)
    requires
        is_binary64(x),
    ensures
        times(of_int(1), x) == x,
{
    lemma_times_one(x);
    lemma_of_one();
    reveal(times);
    if let Dbl::Fin(n, u) = x {
        assert(u * one() == one() * u) by (nonlinear_arith);
    }
}

/// A length in pixels.
pub open spec fn length(n: int) -> Seq<char> {
    signed_decimal(n) + "px"@
}

/// Whether an effect is a shadow of a kind: its offset, its radius, its spread, its
/// colour and its alpha in hundredths.
pub open spec fn is_shadow(
    e: Json,
    kind: Seq<char>,
    x: int,
    y: int,
    radius: int,
    spread: int,
    color: (nat, nat, nat),
    k: nat,
) -> bool {
    &&& field_is(e, "type"@, kind)
    &&& is_exact(x) && is_exact(y) && is_exact(radius) && is_exact(spread)
    &&& field(e, "offset"@) matches Some(o)
    &&& num_field(o, "x"@) == Some(of_int(x))
    &&& num_field(o, "y"@) == Some(of_int(y))
    &&& num_field(e, "radius"@) == Some(of_int(radius))
    &&& num_field(e, "spread"@) == Some(of_int(spread)) || (num_field(e, "spread"@) is None && spread == 0)
    &&& field(e, "color"@) matches Some(c)
    &&& colored(c, color.0, color.1, color.2)
    &&& num_field(c, "a"@) matches Some(a)
    &&& is_binary64(a)
    &&& near(a, 100, k as int)
    &&& k <= 100
}

/// The CSS of a shadow.
pub open spec fn shadow_css(x: int, y: int, radius: int, spread: int, color: (nat, nat, nat), k: nat) -> Seq<char> {
    length(x) + " "@ + length(y) + " "@ + length(radius) + " "@ + length(spread) + " "@ + ("rgba("@ + decimal(color.0)
        + ", "@ + decimal(color.1) + ", "@ + decimal(color.2) + ", "@ + js_text(over(of_int(k as int), of_int(100)))
        + ")"@)
}

/// A shadow is told by its offset across and down, its radius, its spread and its
/// colour, and an inner shadow is inset.
pub proof fn shadows_are_told(
    e: Json,
    x: int,
    y: int,
    radius: int,
    spread: int,
    color: (nat, nat, nat),
    k: nat,
)
    ensures
        is_shadow(e, "DROP_SHADOW"@, x, y, radius, spread, color, k) ==> shadow(e) == Some(
            shadow_css(x, y, radius, spread, color, k),
        ),
        is_shadow(e, "INNER_SHADOW"@, x, y, radius, spread, color, k) ==> shadow(e) == Some(
            "inset "@ + shadow_css(x, y, radius, spread, color, k),
        ),
{
    let drop = is_shadow(e, "DROP_SHADOW"@, x, y, radius, spread, color, k);
    let inner = is_shadow(e, "INNER_SHADOW"@, x, y, radius, spread, color, k);
    if drop || inner {
        reveal_strlit("DROP_SHADOW");
        reveal_strlit("INNER_SHADOW");
        assert("DROP_SHADOW"@.len() == 11 && "INNER_SHADOW"@.len() == 12);
        lemma_of_zero();
        whole_numbers_are_displayed(x);
        whole_numbers_are_displayed(y);
        whole_numbers_are_displayed(radius);
        whole_numbers_are_displayed(spread);
        whole_numbers_are_printed(x);
        whole_numbers_are_printed(y);
        whole_numbers_are_printed(radius);
        whole_numbers_are_printed(spread);
        let c = color_of(e);
        lemma_one_times(num_field(c, "a"@)->0);
        rgba_tells_the_color(c, of_int(1), color.0, color.1, color.2, k);
        if inner {
            assert(shadow(e)->0 =~= "inset "@ + shadow_css(x, y, radius, spread, color, k));
        }
    }
}

proof fn lemma_shadows(a: Seq<Json>, n: nat)
    requires
        n <= a.len(),
        forall|i: int| 0 <= i < a.len() ==> shadow(#[trigger] a[i]) is Some,
        forall|i: int| 0 <= i < a.len() ==> field(#[trigger] a[i], "visible"@) != Some(Json::Bool(false)),
    ensures
        shadows(a, n).len() == n,
        forall|i: int| 0 <= i < n ==> Some(#[trigger] shadows(a, n)[i]) == shadow(a[i]),
    decreases n,
{
    if n > 0 {
        lemma_shadows(a, (n - 1) as nat);
        assert(shadow(a[n - 1]) is Some);
        assert(field(a[n - 1], "visible"@) != Some(Json::Bool(false)));
    }
}

proof fn lemma_effect_words()
    ensures
        "boxShadow"@ != "textShadow"@,
        "boxShadow"@ != "filter"@,
        "boxShadow"@ != "backdropFilter"@,
        "textShadow"@ != "filter"@,
        "textShadow"@ != "backdropFilter"@,
{
    reveal_strlit("boxShadow");
    reveal_strlit("textShadow");
    reveal_strlit("filter");
    reveal_strlit("backdropFilter");
    assert("boxShadow"@.len() == 9 && "textShadow"@.len() == 10 && "filter"@.len() == 6);
    assert("backdropFilter"@.len() == 14);
}

/// The shadows of a node are told one after another: those of a text as text
/// shadows, those of another node as box shadows.
pub proof fn node_shadows_are_told(n: Json, a: Seq<Json>)
    requires
        arr_field(n, "effects"@) == Some(a),
        a.len() > 0,
        forall|i: int| 0 <= i < a.len() ==> shadow(#[trigger] a[i]) is Some,
        forall|i: int| 0 <= i < a.len() ==> field(#[trigger] a[i], "visible"@) != Some(Json::Bool(false)),
    ensures
        exists|parts: Seq<Seq<char>>|
            {
                &&& get(
                    effects(n),
                    if field_is(n, "type"@, "TEXT"@) {
                        "textShadow"@
                    } else {
                        "boxShadow"@
                    },
                ) == Some(Json::Str(#[trigger] joined(parts, ", "@)))
                &&& parts.len() == a.len()
                &&& forall|i: int| 0 <= i < a.len() ==> Some(#[trigger] parts[i]) == shadow(a[i])
            },
{
    lemma_effect_words();
    lemma_shadows(a, a.len());
    let parts = shadows(a, a.len());
    let key = if field_is(n, "type"@, "TEXT"@) {
        "textShadow"@
    } else {
        "boxShadow"@
    };
    let x = put(Fields::empty(), key, Json::Str(joined(parts, ", "@)));
    get_after_put(Fields::empty(), key, Json::Str(joined(parts, ", "@)), key);
    assert forall|o: Fields, k: Seq<char>, v: Json| k != key implies get(#[trigger] put(o, k, v), key) == get(o, key) by {
        get_after_put(o, k, v, key);
    }
    assert(get(effects(n), key) == Some(Json::Str(joined(parts, ", "@))));
}

/// An effect that is switched off is not told.
pub proof fn hidden_effects_are_not_told(a: Seq<Json>, kind: Seq<char>)
    requires
        a.len() > 0,
        field(a.last(), "visible"@) == Some(Json::Bool(false)),
    ensures
        shadows(a, a.len()) == shadows(a, (a.len() - 1) as nat),
        blurs(a, kind, a.len()) == blurs(a, kind, (a.len() - 1) as nat),
{
}

/// A blur is told with half its radius.
pub proof fn blurs_are_told(e: Json, kind: Seq<char>, half: int)
    requires
        field_is(e, "type"@, kind),
        num_field(e, "radius"@) == Some(of_int(half * 2)),
        half > 0,
        is_exact(half * 200),
    ensures
        blur(e, kind) == Some("blur("@ + length(half) + ")"@),
{
    lemma_exact_over(half, 2);
    whole_numbers_stay(half);
    whole_numbers_are_printed(half);
    lemma_of_exact(half * 2);
    assert(size(half * 2) * one() > 0) by (nonlinear_arith)
        requires
            half > 0,
            one() > 0,
            size(half * 2) == half * 2,
    ;
}

/// The weight of strokes is told in pixels.
pub proof fn stroke_weights_are_told(n: Json, weight: int)
    requires
        field(n, "individualStrokeWeights"@) is None,
        num_field(n, "strokeWeight"@) == Some(of_int(weight)),
        weight > 0,
        is_exact(weight),
    ensures
        stroke_weight(n) == Some(length(weight)),
{
    whole_numbers_are_printed(weight);
    lemma_of_exact(weight);
    assert(size(weight) * one() > 0) by (nonlinear_arith)
        requires
            weight > 0,
            one() > 0,
            size(weight) == weight,
    ;
}

// ---------------------------------------------------------------------------
// Text styles
// ---------------------------------------------------------------------------

proof fn lemma_style_words()
    ensures
        "fontFamily"@ != "fontStyle"@,
        "fontFamily"@ != "fontWeight"@,
        "fontFamily"@ != "fontSize"@,
        "fontFamily"@ != "lineHeight"@,
        "fontFamily"@ != "letterSpacing"@,
        "fontFamily"@ != "textCase"@,
        "fontFamily"@ != "textAlignHorizontal"@,
        "fontFamily"@ != "textAlignVertical"@,
        "fontFamily"@ != "italic"@,
        "fontFamily"@ != "textDecoration"@,
        "fontFamily"@ != "hyperlink"@,
        "fontFamily"@ != "opentypeFlags"@,
        "fontFamily"@ != "paragraphSpacing"@,
        "fontFamily"@ != "paragraphIndent"@,
        "fontFamily"@ != "listSpacing"@,
        "fontStyle"@ != "fontWeight"@,
        "fontStyle"@ != "fontSize"@,
        "fontStyle"@ != "lineHeight"@,
        "fontStyle"@ != "letterSpacing"@,
        "fontStyle"@ != "textCase"@,
        "fontStyle"@ != "textAlignHorizontal"@,
        "fontStyle"@ != "textAlignVertical"@,
        "fontStyle"@ != "italic"@,
        "fontStyle"@ != "textDecoration"@,
        "fontStyle"@ != "hyperlink"@,
        "fontStyle"@ != "opentypeFlags"@,
        "fontStyle"@ != "paragraphSpacing"@,
        "fontStyle"@ != "paragraphIndent"@,
        "fontStyle"@ != "listSpacing"@,
        "fontWeight"@ != "fontSize"@,
        "fontWeight"@ != "lineHeight"@,
        "fontWeight"@ != "letterSpacing"@,
        "fontWeight"@ != "textCase"@,
        "fontWeight"@ != "textAlignHorizontal"@,
        "fontWeight"@ != "textAlignVertical"@,
        "fontWeight"@ != "italic"@,
        "fontWeight"@ != "textDecoration"@,
        "fontWeight"@ != "hyperlink"@,
        "fontWeight"@ != "opentypeFlags"@,
        "fontWeight"@ != "paragraphSpacing"@,
        "fontWeight"@ != "paragraphIndent"@,
        "fontWeight"@ != "listSpacing"@,
        "fontSize"@ != "lineHeight"@,
        "fontSize"@ != "letterSpacing"@,
        "fontSize"@ != "textCase"@,
        "fontSize"@ != "textAlignHorizontal"@,
        "fontSize"@ != "textAlignVertical"@,
        "fontSize"@ != "italic"@,
        "fontSize"@ != "textDecoration"@,
        "fontSize"@ != "hyperlink"@,
        "fontSize"@ != "opentypeFlags"@,
        "fontSize"@ != "paragraphSpacing"@,
        "fontSize"@ != "paragraphIndent"@,
        "fontSize"@ != "listSpacing"@,
        "lineHeight"@ != "letterSpacing"@,
        "lineHeight"@ != "textCase"@,
        "lineHeight"@ != "textAlignHorizontal"@,
        "lineHeight"@ != "textAlignVertical"@,
        "lineHeight"@ != "italic"@,
        "lineHeight"@ != "textDecoration"@,
        "lineHeight"@ != "hyperlink"@,
        "lineHeight"@ != "opentypeFlags"@,
        "lineHeight"@ != "paragraphSpacing"@,
        "lineHeight"@ != "paragraphIndent"@,
        "lineHeight"@ != "listSpacing"@,
        "letterSpacing"@ != "textCase"@,
        "letterSpacing"@ != "textAlignHorizontal"@,
        "letterSpacing"@ != "textAlignVertical"@,
        "letterSpacing"@ != "italic"@,
        "letterSpacing"@ != "textDecoration"@,
        "letterSpacing"@ != "hyperlink"@,
        "letterSpacing"@ != "opentypeFlags"@,
        "letterSpacing"@ != "paragraphSpacing"@,
        "letterSpacing"@ != "paragraphIndent"@,
        "letterSpacing"@ != "listSpacing"@,
        "textCase"@ != "textAlignHorizontal"@,
        "textCase"@ != "textAlignVertical"@,
        "textCase"@ != "italic"@,
        "textCase"@ != "textDecoration"@,
        "textCase"@ != "hyperlink"@,
        "textCase"@ != "opentypeFlags"@,
        "textCase"@ != "paragraphSpacing"@,
        "textCase"@ != "paragraphIndent"@,
        "textCase"@ != "listSpacing"@,
        "textAlignHorizontal"@ != "textAlignVertical"@,
        "textAlignHorizontal"@ != "italic"@,
        "textAlignHorizontal"@ != "textDecoration"@,
        "textAlignHorizontal"@ != "hyperlink"@,
        "textAlignHorizontal"@ != "opentypeFlags"@,
        "textAlignHorizontal"@ != "paragraphSpacing"@,
        "textAlignHorizontal"@ != "paragraphIndent"@,
        "textAlignHorizontal"@ != "listSpacing"@,
        "textAlignVertical"@ != "italic"@,
        "textAlignVertical"@ != "textDecoration"@,
        "textAlignVertical"@ != "hyperlink"@,
        "textAlignVertical"@ != "opentypeFlags"@,
        "textAlignVertical"@ != "paragraphSpacing"@,
        "textAlignVertical"@ != "paragraphIndent"@,
        "textAlignVertical"@ != "listSpacing"@,
        "italic"@ != "textDecoration"@,
        "italic"@ != "hyperlink"@,
        "italic"@ != "opentypeFlags"@,
        "italic"@ != "paragraphSpacing"@,
        "italic"@ != "paragraphIndent"@,
        "italic"@ != "listSpacing"@,
        "textDecoration"@ != "hyperlink"@,
        "textDecoration"@ != "opentypeFlags"@,
        "textDecoration"@ != "paragraphSpacing"@,
        "textDecoration"@ != "paragraphIndent"@,
        "textDecoration"@ != "listSpacing"@,
{
    reveal_strlit("fontFamily");
    reveal_strlit("fontStyle");
    reveal_strlit("fontWeight");
    reveal_strlit("fontSize");
    reveal_strlit("lineHeight");
    reveal_strlit("letterSpacing");
    reveal_strlit("textCase");
    reveal_strlit("textAlignHorizontal");
    reveal_strlit("textAlignVertical");
    reveal_strlit("italic");
    reveal_strlit("textDecoration");
    reveal_strlit("hyperlink");
    reveal_strlit("opentypeFlags");
    reveal_strlit("paragraphSpacing");
    reveal_strlit("paragraphIndent");
    reveal_strlit("listSpacing");
    assert("fontFamily"@.len() == 10 && "fontStyle"@.len() == 9 && "fontWeight"@.len() == 10);
    assert("fontSize"@.len() == 8 && "lineHeight"@.len() == 10 && "letterSpacing"@.len() == 13);
    assert("textCase"@.len() == 8 && "textAlignHorizontal"@.len() == 19 && "textAlignVertical"@.len() == 17);
    assert("italic"@.len() == 6 && "textDecoration"@.len() == 14 && "hyperlink"@.len() == 9);
    assert("opentypeFlags"@.len() == 13 && "paragraphSpacing"@.len() == 16 && "paragraphIndent"@.len() == 15);
    assert("listSpacing"@.len() == 11 && "fontFamily"@[0] == 'f' && "fontFamily"@[4] == 'F');
    assert("fontSize"@[0] == 'f' && "fontStyle"@[0] == 'f' && "fontWeight"@[0] == 'f');
    assert("fontWeight"@[4] == 'W' && "hyperlink"@[0] == 'h' && "letterSpacing"@[0] == 'l');
    assert("lineHeight"@[0] == 'l' && "opentypeFlags"@[0] == 'o' && "textCase"@[0] == 't');
}

proof fn lemma_font_told(style: Fields, k: Seq<char>)
    requires
        k == "fontFamily"@ || k == "fontWeight"@ || k == "fontSize"@ || k == "lineHeight"@ || k == "letterSpacing"@,
    ensures
        get(paragraph_fields(setting_fields(font_fields(style), style), style), k) == get(font_fields(style), k),
{
    lemma_style_words();
    assert forall|o: Fields, x: Seq<char>, v: Json| x != k implies get(#[trigger] put(o, x, v), k) == get(o, k) by {
        get_after_put(o, x, v, k);
    }
    let a = font_fields(style);
    let b = setting_fields(a, style);
    assert(get(b, k) == get(a, k));
    assert(get(paragraph_fields(b, style), k) == get(b, k));
}

/// The style of a text tells its font: the family, and the weight and the size as
/// whole numbers.
pub proof fn fonts_are_told(n: Json, style: Fields, family: Seq<char>, weight: int, font_size: int)
    requires
        obj_field(n, "style"@) == Some(style),
        as_str(get(style, "fontFamily"@)) == Some(family),
        as_num(get(style, "fontWeight"@)) == Some(of_int(weight)),
        as_num(get(style, "fontSize"@)) == Some(of_int(font_size)),
        is_exact(weight),
        is_exact(font_size),
    ensures
        text_style(n) matches Some(t) && {
            &&& field(t, "fontFamily"@) == Some(Json::Str(family))
            &&& field(t, "fontWeight"@) == Some(Json::Num(Num::Int(weight)))
            &&& field(t, "fontSize"@) == Some(Json::Num(Num::Int(font_size)))
        },
{
    lemma_style_words();
    lemma_font_told(style, "fontFamily"@);
    lemma_font_told(style, "fontWeight"@);
    lemma_font_told(style, "fontSize"@);
    whole_numbers_are_integers(weight);
    whole_numbers_are_integers(font_size);
    assert forall|o: Fields, k: Seq<char>, x: Seq<char>, v: Json|
        #![trigger get(put(o, x, v), k)]
        get(put(o, x, v), k) == if x == k {
            Some(v)
        } else {
            get(o, k)
        } by {
        get_after_put(o, x, v, k);
    }
    let o = paragraph_fields(setting_fields(font_fields(style), style), style);
    assert(get(font_fields(style), "fontFamily"@) == Some(Json::Str(family)));
    lemma_key_from(o, "fontFamily"@, 0);
    assert(o.len() > 0);
}

/// Heights of lines in pixels are told in pixels, and those in relation to the font
/// size in its terms: whole pixels, and whole multiples of the size.
pub proof fn line_heights_are_told(style: Fields, font_size: int, height: int, times_size: int)
    requires
        is_exact(height * 100),
        is_exact(times_size * 100),
        is_exact(font_size),
    ensures
        as_str(get(style, "lineHeightUnit"@)) == Some("PIXELS"@) && as_num(get(style, "lineHeightPx"@)) == Some(
            of_int(height),
        ) ==> line_height(style, Some(of_int(font_size))) == Some(length(height)),
        as_str(get(style, "lineHeightUnit"@)) == Some("FONT_SIZE_%"@) && as_num(
            get(style, "lineHeightPercentFontSize"@),
        ) == Some(of_int(times_size * 100)) ==> line_height(style, Some(of_int(font_size))) == Some(
            signed_decimal(times_size) + "em"@,
        ),
        as_str(get(style, "lineHeightUnit"@)) == Some("INTRINSIC_%"@) ==> line_height(style, Some(of_int(font_size))) is None,
{
    reveal_strlit("PIXELS");
    reveal_strlit("FONT_SIZE_%");
    reveal_strlit("INTRINSIC_%");
    assert("PIXELS"@.len() == 6 && "FONT_SIZE_%"@.len() == 11 && "INTRINSIC_%"@.len() == 11);
    assert("FONT_SIZE_%"@[0] == 'F' && "INTRINSIC_%"@[0] == 'I');
    whole_numbers_stay(height);
    whole_numbers_are_printed(height);
    lemma_exact_over(times_size, 100);
    whole_numbers_stay(times_size);
    whole_numbers_are_printed(times_size);
}

/// The style of a text tells its case, its alignment, its slant and its decoration as
/// they are; only strikes and underlines are decorations.
pub proof fn settings_are_told(n: Json, style: Fields)
    requires
        obj_field(n, "style"@) == Some(style),
        as_str(get(style, "fontFamily"@)) is Some,
    ensures
        text_style(n) matches Some(t) && {
            &&& str_field(t, "textCase"@) == as_str(get(style, "textCase"@))
            &&& str_field(t, "textAlignHorizontal"@) == as_str(get(style, "textAlignHorizontal"@))
            &&& str_field(t, "textAlignVertical"@) == as_str(get(style, "textAlignVertical"@))
            &&& field(t, "italic"@) == Some(Json::Bool(true)) <==> as_bool(get(style, "italic"@)) == Some(true)
            &&& as_str(get(style, "textDecoration"@)) == Some("UNDERLINE"@) ==> str_field(t, "textDecoration"@) == Some(
                "UNDERLINE"@,
            )
            &&& as_str(get(style, "textDecoration"@)) == Some("STRIKETHROUGH"@) ==> str_field(t, "textDecoration"@)
                == Some("STRIKETHROUGH"@)
            &&& as_str(get(style, "textDecoration"@)) == Some("NONE"@) ==> field(t, "textDecoration"@) is None
        },
{
    lemma_style_words();
    lemma_key_from(Fields::empty(), "textCase"@, 0);
    lemma_key_from(Fields::empty(), "textAlignHorizontal"@, 0);
    lemma_key_from(Fields::empty(), "textAlignVertical"@, 0);
    lemma_key_from(Fields::empty(), "italic"@, 0);
    lemma_key_from(Fields::empty(), "textDecoration"@, 0);
    reveal_strlit("UNDERLINE");
    reveal_strlit("STRIKETHROUGH");
    reveal_strlit("NONE");
    assert("UNDERLINE"@.len() == 9 && "STRIKETHROUGH"@.len() == 13 && "NONE"@.len() == 4);
    assert forall|o: Fields, k: Seq<char>, x: Seq<char>, v: Json|
        #![trigger get(put(o, x, v), k)]
        get(put(o, x, v), k) == if x == k {
            Some(v)
        } else {
            get(o, k)
        } by {
        get_after_put(o, x, v, k);
    }
    let a = font_fields(style);
    let b = setting_fields(a, style);
    let o = paragraph_fields(b, style);
    assert(get(a, "textCase"@) is None);
    assert(get(a, "textAlignHorizontal"@) is None);
    assert(get(a, "textAlignVertical"@) is None);
    assert(get(a, "italic"@) is None);
    assert(get(a, "textDecoration"@) is None);
    assert(get(o, "textCase"@) == get(b, "textCase"@));
    assert(get(o, "textAlignHorizontal"@) == get(b, "textAlignHorizontal"@));
    assert(get(o, "textAlignVertical"@) == get(b, "textAlignVertical"@));
    assert(get(o, "italic"@) == get(b, "italic"@));
    assert(get(o, "textDecoration"@) == get(b, "textDecoration"@));
    lemma_font_told(style, "fontFamily"@);
    assert(get(a, "fontFamily"@) is Some);
    lemma_key_from(o, "fontFamily"@, 0);
    assert(o.len() > 0);
}

/// The space between letters is told in relation to the font size: whole multiples
/// of the size.
pub proof fn letter_spacings_are_told(font_size: int, multiple: int)
    requires
        font_size > 0,
        multiple != 0,
        is_exact(multiple * font_size),
        is_exact(font_size),
        is_exact(multiple * 10000),
    ensures
        spacing(Some(of_int(multiple * font_size)), Some(of_int(font_size))) == Some(signed_decimal(multiple) + "em"@),
        spacing(Some(of_int(0)), Some(of_int(font_size))) is None,
{
    lemma_exact_over(multiple, font_size);
    lemma_exact_times(multiple, 10000);
    lemma_exact_whole(multiple * 10000);
    lemma_exact_over(multiple, 10000);
    whole_numbers_are_printed(multiple);
    lemma_of_zero();
    lemma_equal_exact(multiple * font_size, 0);
    lemma_equal_exact(font_size, 0);
    assert(multiple * font_size != 0) by (nonlinear_arith)
        requires
            multiple != 0,
            font_size > 0,
    ;
}

} // verus!
