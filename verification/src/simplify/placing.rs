//! Where the layout places a node in its parent.

use vstd::prelude::*;

use crate::float::{is_exact, lemma_exact_minus, minus, of_int, one, plus, signed, Dbl};
use crate::json::{field, field_is, get, get_after_put, num_field, put, Fields, Json, Num};
use crate::simplify::layout::{dimensions, child_flow, layout, placement_fields, position_fields, sizing_fields};
use crate::simplify::numbers::{hundredths, plain_number, whole_numbers_are_integers, whole_numbers_stay, zeros_are_zero};

verus! {

/// Whether the box of a node has its corner at `x` and `y`.
pub open spec fn boxed_at(n: Json, x: Dbl, y: Dbl) -> bool {
    field(n, "absoluteBoundingBox"@) matches Some(b) && num_field(b, "x"@) == Some(x) && num_field(b, "y"@) == Some(y)
        && num_field(b, "width"@) is Some && num_field(b, "height"@) is Some
}

/// Whether a node is not laid out by its parent: the parent has no auto-layout,
/// or the node is taken out of it.
pub open spec fn placed_freely(n: Json, p: Json) -> bool {
    field_is(n, "layoutPositioning"@, "ABSOLUTE"@) || (!field_is(p, "layoutMode"@, "HORIZONTAL"@) && !field_is(
        p,
        "layoutMode"@,
        "VERTICAL"@,
    ) && !field_is(p, "layoutMode"@, "GRID"@))
}

/// The place that the layout of a node in its parent tells.
pub open spec fn place_told(n: Json, p: Json) -> Option<Json> {
    get(layout(n, Some(p)), "locationRelativeToParent"@)
}

/// Whether a place tells both coordinates.
pub open spec fn is_place(place: Option<Json>, x: Json, y: Json) -> bool {
    place matches Some(v) && field(v, "x"@) == Some(x) && field(v, "y"@) == Some(y)
}

/// How far a number lies behind another one, in units.
pub open spec fn distance(a: Dbl, b: Dbl) -> int {
    match (a, b) {
        (Dbl::Fin(m, u), Dbl::Fin(n, v)) => signed(m, u) - signed(n, v),
        _ => 0,
    }
}

proof fn lemma_place_put(n: Json, p: Json, x: Dbl, y: Dbl, px: Dbl, py: Dbl)
    requires
        boxed_at(n, x, y),
        boxed_at(p, px, py),
        placed_freely(n, p),
    ensures
        is_place(place_told(n, p), plain_number(hundredths(minus(x, px))), plain_number(hundredths(minus(y, py)))),
{
    reveal_strlit("x");
    reveal_strlit("y");
    assert("x"@[0] != "y"@[0]);
    let k = "locationRelativeToParent"@;
    reveal_strlit("locationRelativeToParent");
    reveal_strlit("dimensions");
    assert(k.len() != "dimensions"@.len());
    let a = plain_number(hundredths(minus(x, px)));
    let b = plain_number(hundredths(minus(y, py)));
    let one = put(Fields::empty(), "x"@, a);
    get_after_put(Fields::empty(), "x"@, a, "x"@);
    get_after_put(one, "y"@, b, "x"@);
    get_after_put(one, "y"@, b, "y"@);
    let place = Json::Obj(put(one, "y"@, b));
    reveal_strlit("HORIZONTAL");
    reveal_strlit("VERTICAL");
    reveal_strlit("GRID");
    let area = crate::simplify::grid::bounds(n)->0;
    let base = sizing_fields(crate::simplify::layout::container_fields(n), n, false, area);
    let at = position_fields(base, n, p, area);
    let inner = if crate::simplify::grid::absolute(n) {
        put(base, "position"@, Json::Str("absolute"@))
    } else {
        base
    };
    assert(at == put(inner, k, place));
    get_after_put(inner, k, place, k);
    assert(placement_fields(at, n, p) == at);
    let d = dimensions(n, child_flow(n, Some(p)), area);
    get_after_put(at, "dimensions"@, Json::Obj(d), k);
}

proof fn lemma_distance_told(a: Dbl, b: Dbl, c: Dbl, d: Dbl)
    requires
        a is Fin,
        b is Fin,
        c is Fin,
        d is Fin,
        distance(a, b) == distance(c, d),
    ensures
        plain_number(hundredths(minus(a, b))) == plain_number(hundredths(minus(c, d))),
{
    reveal(plus);
    if distance(a, b) == 0 {
        zeros_are_zero(false);
        zeros_are_zero(true);
    }
}

/// The place of a node in its parent is relative: boxes that lie as far from each
/// other, wherever they are on the canvas, have the same place.
pub proof fn place_is_relative(
    n: Json,
    p: Json,
    x: Dbl,
    y: Dbl,
    px: Dbl,
    py: Dbl,
    moved: Json,
    around: Json,
    mx: Dbl,
    my: Dbl,
    ax: Dbl,
    ay: Dbl,
)
    requires
        boxed_at(n, x, y),
        boxed_at(p, px, py),
        placed_freely(n, p),
        boxed_at(moved, mx, my),
        boxed_at(around, ax, ay),
        placed_freely(moved, around),
        x is Fin && y is Fin && px is Fin && py is Fin && mx is Fin && my is Fin && ax is Fin && ay is Fin,
        distance(mx, ax) == distance(x, px),
        distance(my, ay) == distance(y, py),
    ensures
        exists|v: Json, w: Json| #[trigger] is_place(place_told(n, p), v, w) && is_place(place_told(moved, around), v, w),
{
    lemma_place_put(n, p, x, y, px, py);
    lemma_place_put(moved, around, mx, my, ax, ay);
    lemma_distance_told(mx, ax, x, px);
    lemma_distance_told(my, ay, y, py);
    assert(is_place(
        place_told(n, p),
        plain_number(hundredths(minus(x, px))),
        plain_number(hundredths(minus(y, py))),
    ));
}

/// A node whose box begins where that of its parent begins is at zero.
pub proof fn corner_of_the_parent_is_zero(n: Json, p: Json, x: Dbl, y: Dbl, px: Dbl, py: Dbl)
    requires
        boxed_at(n, x, y),
        boxed_at(p, px, py),
        placed_freely(n, p),
        x is Fin && y is Fin && px is Fin && py is Fin,
        distance(x, px) == 0,
        distance(y, py) == 0,
    ensures
        is_place(place_told(n, p), Json::Num(Num::Int(0)), Json::Num(Num::Int(0))),
{
    lemma_place_put(n, p, x, y, px, py);
    reveal(plus);
    zeros_are_zero(false);
    zeros_are_zero(true);
}

/// The place of a node in its parent, added to the corner of the parent, is the
/// corner of the node, for boxes at whole pixels.
pub proof fn place_leads_from_the_parent(n: Json, p: Json, x: int, y: int, px: int, py: int, across: int, down: int)
    requires
        boxed_at(n, of_int(x), of_int(y)),
        boxed_at(p, of_int(px), of_int(py)),
        placed_freely(n, p),
        px + across == x,
        py + down == y,
        is_exact(x) && is_exact(y) && is_exact(px) && is_exact(py),
        is_exact(across * 100) && is_exact(down * 100),
    ensures
        is_place(place_told(n, p), Json::Num(Num::Int(across)), Json::Num(Num::Int(down))),
{
    lemma_place_put(n, p, of_int(x), of_int(y), of_int(px), of_int(py));
    lemma_exact_minus(x, px);
    lemma_exact_minus(y, py);
    whole_numbers_stay(across);
    whole_numbers_stay(down);
    whole_numbers_are_integers(across);
    whole_numbers_are_integers(down);
}

} // verus!
