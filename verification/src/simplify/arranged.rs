//! What the layout of a node tells: its mode, its padding, its gaps, its
//! alignment, how it is sized, and how large it is.

use vstd::prelude::*;

use crate::float::{is_exact, lemma_of_zero, of_int, zero};
use crate::json::{
    arr_field, as_bool, field, field_is, get, get_after_put, lemma_key_from, num_field, put, str_field, Fields, Json,
    Num,
};
use crate::simplify::grid::{bounds, grid_fields, grid_order, grid_order_permutes, shown_no_later};
use crate::simplify::layout::{
    all_stretch, child_flow, container_fields, dimensions, frame, layout, own_flow, placement_fields, position_fields,
    sizing_fields,
};
use crate::simplify::numbers::{whole_numbers_are_integers, whole_numbers_are_printed, whole_numbers_stay};
use crate::simplify::placing::placed_freely;
use crate::simplify::style::{pixels, put_upto};
use crate::simplify::told::{css_side, lemma_equal_exact, shorthands_tell_their_sides};
use crate::strings::{decimal, joined, signed_decimal};

verus! {

proof fn lemma_words()
    ensures
        "mode"@ != "padding"@,
        "mode"@ != "gap"@,
        "mode"@ != "justifyContent"@,
        "mode"@ != "alignItems"@,
        "mode"@ != "wrap"@,
        "mode"@ != "sizing"@,
        "mode"@ != "dimensions"@,
        "mode"@ != "overflowScroll"@,
        "mode"@ != "alignSelf"@,
        "mode"@ != "gridTemplateColumns"@,
        "mode"@ != "gridTemplateRows"@,
        "mode"@ != "designedWidth"@,
        "mode"@ != "designedHeight"@,
        "mode"@ != "position"@,
        "mode"@ != "locationRelativeToParent"@,
        "mode"@ != "gridColumn"@,
        "mode"@ != "gridRow"@,
        "mode"@ != "justifySelf"@,
        "mode"@ != "zIndex"@,
        "padding"@ != "gap"@,
        "padding"@ != "justifyContent"@,
        "padding"@ != "alignItems"@,
        "padding"@ != "wrap"@,
        "padding"@ != "sizing"@,
        "padding"@ != "dimensions"@,
        "padding"@ != "overflowScroll"@,
        "padding"@ != "alignSelf"@,
        "padding"@ != "gridTemplateColumns"@,
        "padding"@ != "gridTemplateRows"@,
        "padding"@ != "designedWidth"@,
        "padding"@ != "designedHeight"@,
        "padding"@ != "position"@,
        "padding"@ != "locationRelativeToParent"@,
        "padding"@ != "gridColumn"@,
        "padding"@ != "gridRow"@,
        "padding"@ != "justifySelf"@,
        "padding"@ != "zIndex"@,
        "gap"@ != "justifyContent"@,
        "gap"@ != "alignItems"@,
        "gap"@ != "wrap"@,
        "gap"@ != "sizing"@,
        "gap"@ != "dimensions"@,
        "gap"@ != "overflowScroll"@,
        "gap"@ != "alignSelf"@,
        "gap"@ != "gridTemplateColumns"@,
        "gap"@ != "gridTemplateRows"@,
        "gap"@ != "designedWidth"@,
        "gap"@ != "designedHeight"@,
        "gap"@ != "position"@,
        "gap"@ != "locationRelativeToParent"@,
        "gap"@ != "gridColumn"@,
        "gap"@ != "gridRow"@,
        "gap"@ != "justifySelf"@,
        "gap"@ != "zIndex"@,
        "justifyContent"@ != "alignItems"@,
        "justifyContent"@ != "wrap"@,
        "justifyContent"@ != "sizing"@,
        "justifyContent"@ != "dimensions"@,
        "justifyContent"@ != "overflowScroll"@,
        "justifyContent"@ != "alignSelf"@,
        "justifyContent"@ != "gridTemplateColumns"@,
        "justifyContent"@ != "gridTemplateRows"@,
        "justifyContent"@ != "designedWidth"@,
        "justifyContent"@ != "designedHeight"@,
        "justifyContent"@ != "position"@,
        "justifyContent"@ != "locationRelativeToParent"@,
        "justifyContent"@ != "gridColumn"@,
        "justifyContent"@ != "gridRow"@,
        "justifyContent"@ != "justifySelf"@,
        "justifyContent"@ != "zIndex"@,
        "alignItems"@ != "wrap"@,
        "alignItems"@ != "sizing"@,
        "alignItems"@ != "dimensions"@,
        "alignItems"@ != "overflowScroll"@,
        "alignItems"@ != "alignSelf"@,
        "alignItems"@ != "gridTemplateColumns"@,
        "alignItems"@ != "gridTemplateRows"@,
        "alignItems"@ != "designedWidth"@,
        "alignItems"@ != "designedHeight"@,
        "alignItems"@ != "position"@,
        "alignItems"@ != "locationRelativeToParent"@,
        "alignItems"@ != "gridColumn"@,
        "alignItems"@ != "gridRow"@,
        "alignItems"@ != "justifySelf"@,
        "alignItems"@ != "zIndex"@,
        "wrap"@ != "sizing"@,
        "wrap"@ != "dimensions"@,
        "wrap"@ != "overflowScroll"@,
        "wrap"@ != "alignSelf"@,
        "wrap"@ != "gridTemplateColumns"@,
        "wrap"@ != "gridTemplateRows"@,
        "wrap"@ != "designedWidth"@,
        "wrap"@ != "designedHeight"@,
        "wrap"@ != "position"@,
        "wrap"@ != "locationRelativeToParent"@,
        "wrap"@ != "gridColumn"@,
        "wrap"@ != "gridRow"@,
        "wrap"@ != "justifySelf"@,
        "wrap"@ != "zIndex"@,
        "sizing"@ != "dimensions"@,
        "sizing"@ != "overflowScroll"@,
        "sizing"@ != "alignSelf"@,
        "sizing"@ != "gridTemplateColumns"@,
        "sizing"@ != "gridTemplateRows"@,
        "sizing"@ != "designedWidth"@,
        "sizing"@ != "designedHeight"@,
        "sizing"@ != "position"@,
        "sizing"@ != "locationRelativeToParent"@,
        "sizing"@ != "gridColumn"@,
        "sizing"@ != "gridRow"@,
        "sizing"@ != "justifySelf"@,
        "sizing"@ != "zIndex"@,
        "dimensions"@ != "overflowScroll"@,
        "dimensions"@ != "alignSelf"@,
        "dimensions"@ != "gridTemplateColumns"@,
        "dimensions"@ != "gridTemplateRows"@,
        "dimensions"@ != "designedWidth"@,
        "dimensions"@ != "designedHeight"@,
        "dimensions"@ != "position"@,
        "dimensions"@ != "locationRelativeToParent"@,
        "dimensions"@ != "gridColumn"@,
        "dimensions"@ != "gridRow"@,
        "dimensions"@ != "justifySelf"@,
        "dimensions"@ != "zIndex"@,
{
    reveal_strlit("mode");
    reveal_strlit("padding");
    reveal_strlit("gap");
    reveal_strlit("justifyContent");
    reveal_strlit("alignItems");
    reveal_strlit("wrap");
    reveal_strlit("sizing");
    reveal_strlit("dimensions");
    reveal_strlit("overflowScroll");
    reveal_strlit("alignSelf");
    reveal_strlit("gridTemplateColumns");
    reveal_strlit("gridTemplateRows");
    reveal_strlit("designedWidth");
    reveal_strlit("designedHeight");
    reveal_strlit("position");
    reveal_strlit("locationRelativeToParent");
    reveal_strlit("gridColumn");
    reveal_strlit("gridRow");
    reveal_strlit("justifySelf");
    reveal_strlit("zIndex");
    assert("mode"@.len() == 4 && "padding"@.len() == 7 && "gap"@.len() == 3);
    assert("justifyContent"@.len() == 14 && "alignItems"@.len() == 10 && "wrap"@.len() == 4);
    assert("sizing"@.len() == 6 && "dimensions"@.len() == 10 && "overflowScroll"@.len() == 14);
    assert("alignSelf"@.len() == 9 && "gridTemplateColumns"@.len() == 19 && "gridTemplateRows"@.len() == 16);
    assert("designedWidth"@.len() == 13 && "designedHeight"@.len() == 14 && "position"@.len() == 8);
    assert("locationRelativeToParent"@.len() == 24 && "gridColumn"@.len() == 10 && "gridRow"@.len() == 7);
    assert("justifySelf"@.len() == 11 && "zIndex"@.len() == 6 && "alignItems"@[0] == 'a');
    assert("designedHeight"@[0] == 'd' && "dimensions"@[0] == 'd' && "gridColumn"@[0] == 'g');
    assert("gridRow"@[0] == 'g' && "justifyContent"@[0] == 'j' && "mode"@[0] == 'm');
    assert("overflowScroll"@[0] == 'o' && "padding"@[0] == 'p' && "sizing"@[0] == 's');
    assert("wrap"@[0] == 'w' && "zIndex"@[0] == 'z');
}

proof fn lemma_puts_keep(k: Seq<char>)
    ensures
        forall|o: Fields, x: Seq<char>, v: Json| k != x ==> get(#[trigger] put(o, x, v), k) == get(o, k),
        forall|o: Fields, v: Json| get(#[trigger] put(o, k, v), k) == Some(v),
        get(Fields::empty(), k) is None,
{
    lemma_key_from(Fields::empty(), k, 0);
    assert forall|o: Fields, x: Seq<char>, v: Json| k != x implies get(#[trigger] put(o, x, v), k) == get(o, k) by {
        get_after_put(o, x, v, k);
    }
    assert forall|o: Fields, v: Json| get(#[trigger] put(o, k, v), k) == Some(v) by {
        get_after_put(o, k, v, k);
    }
}

proof fn lemma_put_upto_keeps(o: Fields, more: Fields, n: nat, k: Seq<char>)
    requires
        n <= more.len(),
        get(more, k) is None,
    ensures
        get(put_upto(o, more, n), k) == get(o, k),
    decreases n,
{
    if n > 0 {
        lemma_put_upto_keeps(o, more, (n - 1) as nat, k);
        lemma_key_from(more, k, 0);
        assert(more[n - 1].0 != k);
        get_after_put(put_upto(o, more, (n - 1) as nat), more[n - 1].0, more[n - 1].1, k);
    }
}

/// Whether a field says what a node is as a container.
spec fn of_container(k: Seq<char>) -> bool {
    k == "mode"@ || k == "padding"@ || k == "gap"@ || k == "justifyContent"@ || k == "alignItems"@ || k == "wrap"@
}

proof fn lemma_container_told(n: Json, parent: Option<Json>, k: Seq<char>)
    requires
        of_container(k),
    ensures
        get(layout(n, parent), k) == get(container_fields(n), k),
{
    lemma_words();
    lemma_puts_keep(k);
    if let Some(area) = bounds(n) {
        let a = container_fields(n);
        let b = sizing_fields(a, n, parent is None, area);
        assert(get(b, k) == get(a, k));
        if let Some(p) = parent {
            let c = position_fields(b, n, p, area);
            assert(get(c, k) == get(b, k));
            let g = grid_fields(n, p, crate::simplify::layout::full_grid(p));
            assert(get(g, k) is None);
            lemma_put_upto_keeps(c, g, g.len(), k);
            assert(get(placement_fields(c, n, p), k) == get(c, k));
        }
    }
}

/// Whether a node is a frame with a layout mode.
pub open spec fn laid_out_as(n: Json, mode: Seq<char>) -> bool {
    as_bool(field(n, "clipsContent"@)) is Some && field_is(n, "layoutMode"@, mode)
}

proof fn lemma_modes()
    ensures
        "HORIZONTAL"@ != "VERTICAL"@,
        "HORIZONTAL"@ != "GRID"@,
        "VERTICAL"@ != "GRID"@,
{
    reveal_strlit("HORIZONTAL");
    reveal_strlit("VERTICAL");
    reveal_strlit("GRID");
    assert("HORIZONTAL"@.len() == 10 && "VERTICAL"@.len() == 8 && "GRID"@.len() == 4);
}

/// The mode of a layout is that of the frame: a row, a column, a grid, or none.
pub proof fn modes_are_told(n: Json, parent: Option<Json>)
    ensures
        laid_out_as(n, "HORIZONTAL"@) ==> get(layout(n, parent), "mode"@) == Some(Json::Str("row"@)),
        laid_out_as(n, "VERTICAL"@) ==> get(layout(n, parent), "mode"@) == Some(Json::Str("column"@)),
        laid_out_as(n, "GRID"@) ==> get(layout(n, parent), "mode"@) == Some(Json::Str("grid"@)),
        !laid_out_as(n, "HORIZONTAL"@) && !laid_out_as(n, "VERTICAL"@) && !laid_out_as(n, "GRID"@) ==> get(
            layout(n, parent),
            "mode"@,
        ) == Some(Json::Str("none"@)),
{
    lemma_container_told(n, parent, "mode"@);
    lemma_words();
    lemma_modes();
    lemma_puts_keep("mode"@);
}

/// The padding of a frame with an auto-layout tells each of its sides, as CSS reads
/// it; without any padding there is none.
pub proof fn paddings_are_told(n: Json, parent: Option<Json>, top: int, right: int, bottom: int, left: int)
    requires
        laid_out_as(n, "HORIZONTAL"@) || laid_out_as(n, "VERTICAL"@) || laid_out_as(n, "GRID"@),
        num_field(n, "paddingTop"@) == Some(of_int(top)),
        num_field(n, "paddingRight"@) == Some(of_int(right)),
        num_field(n, "paddingBottom"@) == Some(of_int(bottom)),
        num_field(n, "paddingLeft"@) == Some(of_int(left)),
        is_exact(top) && is_exact(right) && is_exact(bottom) && is_exact(left),
    ensures
        match get(layout(n, parent), "padding"@) {
            None => top == 0 && right == 0 && bottom == 0 && left == 0,
            Some(v) => exists|parts: Seq<Seq<char>>|
                {
                    &&& v == Json::Str(#[trigger] joined(parts, " "@))
                    &&& 1 <= parts.len() <= 4
                    &&& css_side(parts, 0) == signed_decimal(top) + "px"@
                    &&& css_side(parts, 1) == signed_decimal(right) + "px"@
                    &&& css_side(parts, 2) == signed_decimal(bottom) + "px"@
                    &&& css_side(parts, 3) == signed_decimal(left) + "px"@
                },
        },
{
    lemma_container_told(n, parent, "padding"@);
    lemma_words();
    lemma_modes();
    lemma_puts_keep("padding"@);
    shorthands_tell_their_sides(top, right, bottom, left);
}

/// The gap of a row or a column is the space between its items, in pixels.
pub proof fn gaps_are_told(n: Json, parent: Option<Json>, gap: int)
    requires
        laid_out_as(n, "HORIZONTAL"@) || laid_out_as(n, "VERTICAL"@),
        !field_is(n, "primaryAxisAlignItems"@, "SPACE_BETWEEN"@),
        !field_is(n, "layoutWrap"@, "WRAP"@),
        num_field(n, "itemSpacing"@) == Some(of_int(gap)),
        is_exact(gap),
    ensures
        gap != 0 ==> get(layout(n, parent), "gap"@) == Some(Json::Str(signed_decimal(gap) + "px"@)),
        gap == 0 ==> get(layout(n, parent), "gap"@) is None,
{
    lemma_container_told(n, parent, "gap"@);
    lemma_words();
    lemma_modes();
    lemma_puts_keep("gap"@);
    whole_numbers_are_printed(gap);
    lemma_equal_exact(gap, 0);
    lemma_of_zero();
}

/// The gaps of items that wrap are told as CSS reads them: the gap between rows
/// first, then the gap between columns. In a row the lines lie below each other,
/// in a column side by side.
pub proof fn wrapped_gaps_are_told(n: Json, parent: Option<Json>, items: int, lines: int)
    requires
        laid_out_as(n, "HORIZONTAL"@) || laid_out_as(n, "VERTICAL"@),
        !field_is(n, "primaryAxisAlignItems"@, "SPACE_BETWEEN"@),
        field_is(n, "layoutWrap"@, "WRAP"@),
        num_field(n, "itemSpacing"@) == Some(of_int(items)),
        num_field(n, "counterAxisSpacing"@) == Some(of_int(lines)),
        is_exact(items) && is_exact(lines),
        items != lines,
    ensures
        laid_out_as(n, "HORIZONTAL"@) ==> get(layout(n, parent), "gap"@) == Some(
            Json::Str(signed_decimal(lines) + "px"@ + " "@ + (signed_decimal(items) + "px"@)),
        ),
        laid_out_as(n, "VERTICAL"@) ==> get(layout(n, parent), "gap"@) == Some(
            Json::Str(signed_decimal(items) + "px"@ + " "@ + (signed_decimal(lines) + "px"@)),
        ),
        get(layout(n, parent), "wrap"@) == Some(Json::Bool(true)),
{
    lemma_container_told(n, parent, "gap"@);
    lemma_container_told(n, parent, "wrap"@);
    lemma_words();
    lemma_modes();
    lemma_puts_keep("gap"@);
    lemma_puts_keep("wrap"@);
    whole_numbers_are_printed(items);
    whole_numbers_are_printed(lines);
    lemma_equal_exact(items, lines);
    lemma_equal_exact(lines, items);
    lemma_equal_exact(items, 0);
    lemma_equal_exact(lines, 0);
    lemma_of_zero();
}

/// Whether a text field of a layout tells a word, or is missing.
pub open spec fn tells_word(v: Option<Json>, word: Option<Seq<char>>) -> bool {
    match word {
        Some(w) => v == Some(Json::Str(w)),
        None => v is None,
    }
}

/// The alignment of the items of a row or a column is told in the words of CSS; the
/// start of an axis, where items are anyway, is not told.
pub proof fn alignments_are_told(n: Json, parent: Option<Json>)
    requires
        laid_out_as(n, "HORIZONTAL"@) || laid_out_as(n, "VERTICAL"@),
    ensures
        ({
            let v = get(layout(n, parent), "justifyContent"@);
            &&& field_is(n, "primaryAxisAlignItems"@, "CENTER"@) ==> tells_word(v, Some("center"@))
            &&& field_is(n, "primaryAxisAlignItems"@, "MAX"@) ==> tells_word(v, Some("flex-end"@))
            &&& field_is(n, "primaryAxisAlignItems"@, "SPACE_BETWEEN"@) ==> tells_word(v, Some("space-between"@))
            &&& field_is(n, "primaryAxisAlignItems"@, "MIN"@) ==> tells_word(v, None)
        }),
        ({
            let v = get(layout(n, parent), "alignItems"@);
            field(n, "children"@) is None ==> {
                &&& field_is(n, "counterAxisAlignItems"@, "CENTER"@) ==> tells_word(v, Some("center"@))
                &&& field_is(n, "counterAxisAlignItems"@, "MAX"@) ==> tells_word(v, Some("flex-end"@))
                &&& field_is(n, "counterAxisAlignItems"@, "BASELINE"@) ==> tells_word(v, Some("baseline"@))
                &&& field_is(n, "counterAxisAlignItems"@, "MIN"@) ==> tells_word(v, None)
            }
        }),
{
    lemma_container_told(n, parent, "justifyContent"@);
    lemma_container_told(n, parent, "alignItems"@);
    lemma_words();
    lemma_modes();
    lemma_puts_keep("justifyContent"@);
    lemma_puts_keep("alignItems"@);
    reveal_strlit("CENTER");
    reveal_strlit("MAX");
    reveal_strlit("MIN");
    reveal_strlit("BASELINE");
    reveal_strlit("SPACE_BETWEEN");
    assert("CENTER"@.len() == 6 && "MAX"@.len() == 3 && "MIN"@.len() == 3 && "BASELINE"@.len() == 8);
    assert("SPACE_BETWEEN"@.len() == 13 && "MAX"@[1] == 'A' && "MIN"@[1] == 'I');
    assert(!all_stretch(n, own_flow(n)) || field(n, "children"@) is Some);
}

// ---------------------------------------------------------------------------
// Sizes
// ---------------------------------------------------------------------------

/// Whether the box of a node is `w` wide and `h` high.
pub open spec fn sized_as(n: Json, w: int, h: int) -> bool {
    &&& field(n, "absoluteBoundingBox"@) matches Some(b)
    &&& num_field(b, "x"@) is Some && num_field(b, "y"@) is Some
    &&& num_field(b, "width"@) == Some(of_int(w))
    &&& num_field(b, "height"@) == Some(of_int(h))
}

/// The word for a sizing.
pub open spec fn sizing_word(s: Option<Seq<char>>, root: bool, word: Seq<char>) -> bool {
    ||| s == Some("FILL"@) && word == "fill"@
    ||| s == Some("HUG"@) && word == "hug"@
    ||| s == Some("FIXED"@) && !root && word == "fixed"@
    ||| s == Some("FIXED"@) && root && word == "contextual"@
}

proof fn lemma_sizing_told(n: Json, parent: Option<Json>, k: Seq<char>)
    requires
        k == "sizing"@,
        bounds(n) is Some,
    ensures
        get(layout(n, parent), k) == get(
            sizing_fields(container_fields(n), n, parent is None, bounds(n)->0),
            k,
        ),
{
    lemma_words();
    lemma_puts_keep(k);
    if let Some(p) = parent {
        let b = sizing_fields(container_fields(n), n, false, bounds(n)->0);
        let c = position_fields(b, n, p, bounds(n)->0);
        let g = grid_fields(n, p, crate::simplify::layout::full_grid(p));
        assert(get(g, k) is None);
        lemma_put_upto_keeps(c, g, g.len(), k);
    }
}

/// The layout of a node with a box tells how it is sized across and down; what is
/// fixed at the root only tells where the design was made.
pub proof fn sizings_are_told(n: Json, parent: Option<Json>, w: int, h: int, across: Seq<char>, down: Seq<char>)
    requires
        sized_as(n, w, h),
        sizing_word(str_field(n, "layoutSizingHorizontal"@), parent is None, across),
        sizing_word(str_field(n, "layoutSizingVertical"@), parent is None, down),
    ensures
        get(layout(n, parent), "sizing"@) matches Some(v) && field(v, "horizontal"@) == Some(Json::Str(across)) && field(
            v,
            "vertical"@,
        ) == Some(Json::Str(down)),
{
    lemma_sizing_told(n, parent, "sizing"@);
    lemma_puts_keep("sizing"@);
    lemma_puts_keep("horizontal"@);
    lemma_puts_keep("vertical"@);
    reveal_strlit("horizontal");
    reveal_strlit("vertical");
    reveal_strlit("FILL");
    reveal_strlit("HUG");
    reveal_strlit("FIXED");
    assert("horizontal"@.len() == 10 && "vertical"@.len() == 8);
    assert("FILL"@.len() == 4 && "HUG"@.len() == 3 && "FIXED"@.len() == 5);
}

/// The layout of a node tells its width and its height in whole pixels, each as it
/// is fixed; nodes that are not laid out by their parent are fixed anyway.
pub proof fn sizes_are_told(n: Json, p: Json, w: int, h: int)
    requires
        sized_as(n, w, h),
        placed_freely(n, p),
        !laid_out_as(n, "HORIZONTAL"@) && !laid_out_as(n, "VERTICAL"@) && !laid_out_as(n, "GRID"@),
        !field_is(p, "layoutMode"@, "GRID"@),
        str_field(n, "layoutSizingHorizontal"@) is None || field_is(n, "layoutSizingHorizontal"@, "FIXED"@),
        str_field(n, "layoutSizingVertical"@) is None || field_is(n, "layoutSizingVertical"@, "FIXED"@),
        is_exact(w * 100) && is_exact(h * 100),
    ensures
        get(layout(n, Some(p)), "dimensions"@) matches Some(v) && field(v, "width"@) == Some(Json::Num(Num::Int(w))) && field(
            v,
            "height"@,
        ) == Some(Json::Num(Num::Int(h))),
{
    lemma_words();
    lemma_modes();
    reveal_strlit("width");
    reveal_strlit("height");
    assert("width"@.len() == 5 && "height"@.len() == 6);
    lemma_puts_keep("width"@);
    lemma_puts_keep("height"@);
    whole_numbers_stay(w);
    whole_numbers_stay(h);
    whole_numbers_are_integers(w);
    whole_numbers_are_integers(h);
    let flow = child_flow(n, Some(p));
    let d = dimensions(n, flow, bounds(n)->0);
    let a = put(Fields::empty(), "width"@, Json::Num(Num::Int(w)));
    assert(d == put(a, "height"@, Json::Num(Num::Int(h))));
    lemma_key_from(d, "width"@, 0);
    assert(d.len() > 0);
    lemma_puts_keep("dimensions"@);
}

// ---------------------------------------------------------------------------
// Grids
// ---------------------------------------------------------------------------

/// Whether a child of a grid lies in a row and a column, counted from zero, and
/// spans some of them.
pub open spec fn lies_at(n: Json, row: nat, col: nat, rows: nat, cols: nat) -> bool {
    &&& field(n, "gridRowAnchorIndex"@) == Some(Json::Num(Num::Int(row as int)))
    &&& field(n, "gridColumnAnchorIndex"@) == Some(Json::Num(Num::Int(col as int)))
    &&& field(n, "gridRowSpan"@) == Some(Json::Num(Num::Int(rows as int)))
    &&& field(n, "gridColumnSpan"@) == Some(Json::Num(Num::Int(cols as int)))
    &&& rows >= 1 && cols >= 1
}

/// The CSS of a place along an axis, counted from one.
pub open spec fn axis_css(at: nat, span: nat) -> Seq<char> {
    if span == 1 {
        decimal(at + 1)
    } else {
        decimal(at + 1) + " / span "@ + decimal(span)
    }
}

/// A child of a grid with empty cells is told the column and the row where it lies,
/// counted from one, and how many of them it spans.
pub proof fn grid_places_are_told(n: Json, p: Json, row: nat, col: nat, rows: nat, cols: nat)
    requires
        lies_at(n, row, col, rows, cols),
    ensures
        str_field(Json::Obj(grid_fields(n, p, false)), "gridColumn"@) == Some(axis_css(col, cols)),
        str_field(Json::Obj(grid_fields(n, p, false)), "gridRow"@) == Some(axis_css(row, rows)),
        cols > 1 ==> str_field(Json::Obj(grid_fields(n, p, true)), "gridColumn"@) == Some("span "@ + decimal(cols)),
        rows > 1 ==> str_field(Json::Obj(grid_fields(n, p, true)), "gridRow"@) == Some("span "@ + decimal(rows)),
{
    lemma_grid_words();
    lemma_puts_keep("gridColumn"@);
    lemma_puts_keep("gridRow"@);
}

proof fn lemma_grid_words()
    ensures
        "gridColumn"@ != "gridRow"@,
        "gridColumn"@ != "justifySelf"@,
        "gridColumn"@ != "alignSelf"@,
        "gridColumn"@ != "zIndex"@,
        "gridRow"@ != "justifySelf"@,
        "gridRow"@ != "alignSelf"@,
        "gridRow"@ != "zIndex"@,
        "justifySelf"@ != "alignSelf"@,
        "justifySelf"@ != "zIndex"@,
        "alignSelf"@ != "zIndex"@,
{
    reveal_strlit("gridColumn");
    reveal_strlit("gridRow");
    reveal_strlit("justifySelf");
    reveal_strlit("alignSelf");
    reveal_strlit("zIndex");
    assert("gridColumn"@.len() == 10 && "gridRow"@.len() == 7 && "justifySelf"@.len() == 11);
    assert("alignSelf"@.len() == 9 && "zIndex"@.len() == 6);
}

/// A child of a grid is told how it is aligned in its cells, across and down.
pub proof fn grid_alignments_are_told(n: Json, p: Json, packed: bool)
    ensures
        ({
            let v = str_field(Json::Obj(grid_fields(n, p, packed)), "justifySelf"@);
            &&& field_is(n, "gridChildHorizontalAlign"@, "MIN"@) ==> v == Some("start"@)
            &&& field_is(n, "gridChildHorizontalAlign"@, "CENTER"@) ==> v == Some("center"@)
            &&& field_is(n, "gridChildHorizontalAlign"@, "MAX"@) ==> v == Some("end"@)
        }),
        ({
            let v = str_field(Json::Obj(grid_fields(n, p, packed)), "alignSelf"@);
            &&& field_is(n, "gridChildVerticalAlign"@, "MIN"@) ==> v == Some("start"@)
            &&& field_is(n, "gridChildVerticalAlign"@, "CENTER"@) ==> v == Some("center"@)
            &&& field_is(n, "gridChildVerticalAlign"@, "MAX"@) ==> v == Some("end"@)
        }),
{
    lemma_grid_words();
    lemma_puts_keep("justifySelf"@);
    lemma_puts_keep("alignSelf"@);
    reveal_strlit("CENTER");
    reveal_strlit("MAX");
    reveal_strlit("MIN");
    assert("CENTER"@.len() == 6 && "MAX"@.len() == 3 && "MIN"@.len() == 3 && "MAX"@[1] == 'A' && "MIN"@[1] == 'I');
}

/// A child that is laid out by its parent is not told a place, and one that is taken
/// out of the layout is told that it is absolute.
pub proof fn laid_out_children_have_no_place(n: Json, p: Json)
    requires
        bounds(n) is Some,
    ensures
        !placed_freely(n, p) ==> get(layout(n, Some(p)), "locationRelativeToParent"@) is None && get(
            layout(n, Some(p)),
            "position"@,
        ) is None,
        field_is(n, "layoutPositioning"@, "ABSOLUTE"@) && (bounds(p) is Some || frame(p)) ==> get(
            layout(n, Some(p)),
            "position"@,
        ) == Some(Json::Str("absolute"@)),
{
    lemma_place_words();
    lemma_modes();
    lemma_puts_keep("locationRelativeToParent"@);
    lemma_puts_keep("position"@);
    let a = container_fields(n);
    let b = sizing_fields(a, n, false, bounds(n)->0);
    assert(get(a, "position"@) is None);
    assert(get(a, "locationRelativeToParent"@) is None);
    assert(get(b, "position"@) is None);
    assert(get(b, "locationRelativeToParent"@) is None);
    let c = position_fields(b, n, p, bounds(n)->0);
    let g = grid_fields(n, p, crate::simplify::layout::full_grid(p));
    assert(get(g, "position"@) is None);
    assert(get(g, "locationRelativeToParent"@) is None);
    lemma_put_upto_keeps(c, g, g.len(), "position"@);
    lemma_put_upto_keeps(c, g, g.len(), "locationRelativeToParent"@);
}

proof fn lemma_place_words()
    ensures
        "position"@ != "locationRelativeToParent"@,
        "position"@ != "mode"@,
        "position"@ != "padding"@,
        "position"@ != "gap"@,
        "position"@ != "justifyContent"@,
        "position"@ != "alignItems"@,
        "position"@ != "wrap"@,
        "position"@ != "sizing"@,
        "position"@ != "dimensions"@,
        "position"@ != "overflowScroll"@,
        "position"@ != "alignSelf"@,
        "position"@ != "gridTemplateColumns"@,
        "position"@ != "gridTemplateRows"@,
        "position"@ != "designedWidth"@,
        "position"@ != "designedHeight"@,
        "position"@ != "gridColumn"@,
        "position"@ != "gridRow"@,
        "position"@ != "justifySelf"@,
        "position"@ != "zIndex"@,
        "locationRelativeToParent"@ != "mode"@,
        "locationRelativeToParent"@ != "padding"@,
        "locationRelativeToParent"@ != "gap"@,
        "locationRelativeToParent"@ != "justifyContent"@,
        "locationRelativeToParent"@ != "alignItems"@,
        "locationRelativeToParent"@ != "wrap"@,
        "locationRelativeToParent"@ != "sizing"@,
        "locationRelativeToParent"@ != "dimensions"@,
        "locationRelativeToParent"@ != "overflowScroll"@,
        "locationRelativeToParent"@ != "alignSelf"@,
        "locationRelativeToParent"@ != "gridTemplateColumns"@,
        "locationRelativeToParent"@ != "gridTemplateRows"@,
        "locationRelativeToParent"@ != "designedWidth"@,
        "locationRelativeToParent"@ != "designedHeight"@,
        "locationRelativeToParent"@ != "gridColumn"@,
        "locationRelativeToParent"@ != "gridRow"@,
        "locationRelativeToParent"@ != "justifySelf"@,
        "locationRelativeToParent"@ != "zIndex"@,
{
    reveal_strlit("position");
    reveal_strlit("locationRelativeToParent");
    reveal_strlit("mode");
    reveal_strlit("padding");
    reveal_strlit("gap");
    reveal_strlit("justifyContent");
    reveal_strlit("alignItems");
    reveal_strlit("wrap");
    reveal_strlit("sizing");
    reveal_strlit("dimensions");
    reveal_strlit("overflowScroll");
    reveal_strlit("alignSelf");
    reveal_strlit("gridTemplateColumns");
    reveal_strlit("gridTemplateRows");
    reveal_strlit("designedWidth");
    reveal_strlit("designedHeight");
    reveal_strlit("gridColumn");
    reveal_strlit("gridRow");
    reveal_strlit("justifySelf");
    reveal_strlit("zIndex");
    assert("position"@.len() == 8 && "locationRelativeToParent"@.len() == 24 && "mode"@.len() == 4);
    assert("padding"@.len() == 7 && "gap"@.len() == 3 && "justifyContent"@.len() == 14);
    assert("alignItems"@.len() == 10 && "wrap"@.len() == 4 && "sizing"@.len() == 6);
    assert("dimensions"@.len() == 10 && "overflowScroll"@.len() == 14 && "alignSelf"@.len() == 9);
    assert("gridTemplateColumns"@.len() == 19 && "gridTemplateRows"@.len() == 16 && "designedWidth"@.len() == 13);
    assert("designedHeight"@.len() == 14 && "gridColumn"@.len() == 10 && "gridRow"@.len() == 7);
    assert("justifySelf"@.len() == 11 && "zIndex"@.len() == 6);
}

/// The children of a grid are shown row by row and column by column; children in one
/// cell keep their order, and those that are taken out of the grid keep their place.
pub proof fn grids_are_shown_row_by_row(
    p: Json,
    kids: Seq<Json>,
    order: Seq<int>,
    i: int,
    j: int,
    row: nat,
    col: nat,
    later_row: nat,
    later_col: nat,
)
    requires
        grid_order(p) == Some(order),
        arr_field(p, "children"@) == Some(kids),
        0 <= i < j < kids.len(),
        !field_is(kids[i], "layoutPositioning"@, "ABSOLUTE"@),
        !field_is(kids[j], "layoutPositioning"@, "ABSOLUTE"@),
        order.len() == kids.len(),
        0 <= order[i] < kids.len(),
        0 <= order[j] < kids.len(),
        field(kids[order[i]], "gridRowAnchorIndex"@) == Some(Json::Num(Num::Int(row as int))),
        field(kids[order[i]], "gridColumnAnchorIndex"@) == Some(Json::Num(Num::Int(col as int))),
        field(kids[order[j]], "gridRowAnchorIndex"@) == Some(Json::Num(Num::Int(later_row as int))),
        field(kids[order[j]], "gridColumnAnchorIndex"@) == Some(Json::Num(Num::Int(later_col as int))),
    ensures
        row < later_row || (row == later_row && (col < later_col || (col == later_col && order[i] < order[j]))),
{
    grid_order_permutes(p);
    assert(shown_no_later(kids)(order[i], order[j]));
    assert(order[i] != order[j]);
}

} // verus!
