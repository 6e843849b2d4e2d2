//! What a node of a design tells of the raw node.

use vstd::prelude::*;

use crate::float::{equal, is_exact, of_int};
use crate::json::{
    arr_field, field, field_is, get, get_after_put, num_field, put, put_some, str_field, visible, Fields, Json,
};
use crate::simplify::depth::lemma_own_childless;
use crate::simplify::numbers::{plain_number, whole_numbers_are_printed};
use crate::simplify::registry::State;
use crate::simplify::rich_text::formatted;
use crate::simplify::style::{pixels, sides};
use crate::simplify::walk::{
    any_image_fill, below, border_radius, characters_step, collapses, component_step, drawing, effects_step,
    fills_step, image_fill, inside_of, layout_step, lemma_children_smaller, opacity, own_step, shown_order,
    strokes_step, text_step, visuals_step, walked, walked_kids, Step,
};
use crate::strings::{joined, signed_decimal};

verus! {

// ---------------------------------------------------------------------------
// Names
// ---------------------------------------------------------------------------

/// Whether a node has an id, a name and a type.
pub open spec fn titled(o: Fields, id: Json, name: Json, kind: Json) -> bool {
    get(o, "id"@) == Some(id) && get(o, "name"@) == Some(name) && get(o, "type"@) == Some(kind)
}

spec fn untitled(k: Seq<char>) -> bool {
    k != "id"@ && k != "name"@ && k != "type"@
}

proof fn lemma_untitled()
    ensures
        untitled("layout"@),
        untitled("text"@),
        untitled("boldWeight"@),
        untitled("textStyle"@),
        untitled("fills"@),
        untitled("strokes"@),
        untitled("strokeWeight"@),
        untitled("strokeDashes"@),
        untitled("strokeAlign"@),
        untitled("effects"@),
        untitled("opacity"@),
        untitled("borderRadius"@),
        untitled("componentId"@),
        untitled("componentProperties"@),
        untitled("componentPropertyReferences"@),
        untitled("children"@),
        "id"@ != "name"@,
        "id"@ != "type"@,
        "name"@ != "type"@,
{
    reveal_strlit("id");
    reveal_strlit("name");
    reveal_strlit("type");
    reveal_strlit("layout");
    reveal_strlit("text");
    reveal_strlit("boldWeight");
    reveal_strlit("textStyle");
    reveal_strlit("fills");
    reveal_strlit("strokes");
    reveal_strlit("strokeWeight");
    reveal_strlit("strokeDashes");
    reveal_strlit("strokeAlign");
    reveal_strlit("effects");
    reveal_strlit("opacity");
    reveal_strlit("borderRadius");
    reveal_strlit("componentId");
    reveal_strlit("componentProperties");
    reveal_strlit("componentPropertyReferences");
    reveal_strlit("children");
    assert("id"@.len() == 2 && "name"@.len() == 4 && "type"@.len() == 4 && "text"@.len() == 4);
    assert("name"@[0] == 'n' && "type"@[1] == 'y' && "text"@[1] == 'e' && "type"@[0] == 't' && "text"@[0] == 't');
    assert("layout"@.len() == 6 && "boldWeight"@.len() == 10 && "textStyle"@.len() == 9 && "fills"@.len() == 5);
    assert("strokes"@.len() == 7 && "strokeWeight"@.len() == 12 && "strokeDashes"@.len() == 12);
    assert("strokeAlign"@.len() == 11 && "effects"@.len() == 7 && "opacity"@.len() == 7 && "borderRadius"@.len() == 12);
    assert("componentId"@.len() == 11 && "componentProperties"@.len() == 19 && "children"@.len() == 8);
    assert("componentPropertyReferences"@.len() == 27);
}

proof fn lemma_titled_puts(id: Json, name: Json, kind: Json)
    ensures
        forall|o: Fields, k: Seq<char>, v: Json|
            titled(o, id, name, kind) && untitled(k) ==> titled(#[trigger] put(o, k, v), id, name, kind),
{
    assert forall|o: Fields, k: Seq<char>, v: Json| titled(o, id, name, kind) && untitled(k) implies titled(
        #[trigger] put(o, k, v),
        id,
        name,
        kind,
    ) by {
        get_after_put(o, k, v, "id"@);
        get_after_put(o, k, v, "name"@);
        get_after_put(o, k, v, "type"@);
    }
}

proof fn lemma_own_titled(node: Json, parent: Option<Json>, s: State, id: Seq<char>, name: Seq<char>, kind: Seq<char>)
    requires
        str_field(node, "id"@) == Some(id),
        str_field(node, "name"@) == Some(name),
        str_field(node, "type"@) == Some(kind),
    ensures
        titled(
            own_step(node, parent, s).fields,
            Json::Str(id),
            Json::Str(name),
            Json::Str(
                if kind == "VECTOR"@ {
                    "IMAGE-SVG"@
                } else {
                    kind
                },
            ),
        ),
{
    lemma_untitled();
    let (i, n, k) = (
        Json::Str(id),
        Json::Str(name),
        Json::Str(
            if kind == "VECTOR"@ {
                "IMAGE-SVG"@
            } else {
                kind
            },
        ),
    );
    let a = put(Fields::empty(), "id"@, i);
    let b = put(a, "name"@, n);
    let c = put(b, "type"@, k);
    get_after_put(Fields::empty(), "id"@, i, "id"@);
    get_after_put(a, "name"@, n, "id"@);
    get_after_put(b, "type"@, k, "id"@);
    get_after_put(b, "type"@, k, "name"@);
    assert(titled(c, i, n, k));
    lemma_titled_puts(i, n, k);
    let t0 = Step { fields: c, state: s };
    let t1 = layout_step(t0, node, parent);
    assert(titled(t1.fields, i, n, k));
    let t2 = characters_step(t1, node);
    assert(titled(t2.fields, i, n, k));
    let t3 = text_step(t1, node);
    assert(titled(t3.fields, i, n, k));
    let t4 = fills_step(t3, node);
    assert(titled(t4.fields, i, n, k));
    let t5 = strokes_step(t4, node);
    assert(titled(t5.fields, i, n, k));
    let t6 = effects_step(t5, node);
    assert(titled(t6.fields, i, n, k));
    let t7 = visuals_step(t3, node);
    assert(titled(t7.fields, i, n, k));
    assert(titled(component_step(t7, node).fields, i, n, k));
}

/// A node that is not hidden stands in the design under its id and its name; its
/// type is its own, but that drawings are images.
pub proof fn nodes_keep_their_names(
    node: Json,
    parent: Option<Json>,
    inside: bool,
    levels: Option<nat>,
    s: State,
    id: Seq<char>,
    name: Seq<char>,
    kind: Seq<char>,
)
    requires
        field(node, "visible"@) != Some(Json::Bool(false)),
        str_field(node, "id"@) == Some(id),
        str_field(node, "name"@) == Some(name),
        str_field(node, "type"@) == Some(kind),
    ensures
        walked(node, parent, inside, levels, s).0 matches Some(f) && {
            &&& get(f, "id"@) == Some(Json::Str(id))
            &&& get(f, "name"@) == Some(Json::Str(name))
            &&& get(f, "type"@) == Some(Json::Str(kind)) || get(f, "type"@) == Some(Json::Str("IMAGE-SVG"@))
            &&& kind != "VECTOR"@ && (arr_field(node, "children"@) is None || get(f, "children"@) is Some) ==> get(
                f,
                "type"@,
            ) == Some(Json::Str(kind))
            &&& kind == "VECTOR"@ ==> get(f, "type"@) == Some(Json::Str("IMAGE-SVG"@))
        },
{
    lemma_untitled();
    lemma_own_titled(node, parent, s, id, name, kind);
    lemma_own_childless(node, parent, s);
    let t = own_step(node, parent, s);
    if let Some(kids) = arr_field(node, "children"@) {
        if levels != Some(0nat) && kids.len() > 0 {
            lemma_children_smaller(node);
            let done = walked_kids(
                kids,
                shown_order(node, kids),
                kids.len(),
                node,
                inside_of(node, inside),
                below(levels),
                t.state,
            ).0;
            let svg = Json::Str("IMAGE-SVG"@);
            get_after_put(t.fields, "type"@, svg, "id"@);
            get_after_put(t.fields, "type"@, svg, "name"@);
            get_after_put(t.fields, "type"@, svg, "children"@);
            get_after_put(t.fields, "children"@, Json::Arr(done), "id"@);
            get_after_put(t.fields, "children"@, Json::Arr(done), "name"@);
            get_after_put(t.fields, "children"@, Json::Arr(done), "type"@);
            reveal_strlit("VECTOR");
            reveal_strlit("FRAME");
            reveal_strlit("GROUP");
            reveal_strlit("INSTANCE");
            reveal_strlit("BOOLEAN_OPERATION");
        }
    }
}

// ---------------------------------------------------------------------------
// Children
// ---------------------------------------------------------------------------

/// Whether a node has an id, a name and a type, and is not hidden.
pub open spec fn is_node(node: Json) -> bool {
    &&& field(node, "visible"@) != Some(Json::Bool(false))
    &&& str_field(node, "id"@) is Some
    &&& str_field(node, "name"@) is Some
    &&& str_field(node, "type"@) is Some
}

proof fn lemma_kids_in_order(
    kids: Seq<Json>,
    order: Seq<int>,
    n: nat,
    node: Json,
    inside: bool,
    levels: Option<nat>,
    s: State,
)
    requires
        n <= kids.len(),
        order.len() == kids.len(),
        forall|i: int| 0 <= i < kids.len() ==> order[i] == i,
        forall|i: int| 0 <= i < kids.len() ==> is_node(#[trigger] kids[i]),
    ensures
        ({
            let done = walked_kids(kids, order, n, node, inside, levels, s).0;
            &&& done.len() == n
            &&& forall|i: int|
                0 <= i < n ==> field(#[trigger] done[i], "id"@) == field(kids[i], "id"@) && field(done[i], "name"@) == field(
                    kids[i],
                    "name"@,
                )
        }),
    decreases n,
{
    if n > 0 {
        let (before, state) = walked_kids(kids, order, (n - 1) as nat, node, inside, levels, s);
        lemma_kids_in_order(kids, order, (n - 1) as nat, node, inside, levels, s);
        let kid = kids[n - 1];
        assert(order[n - 1] == n - 1);
        assert(is_node(kid));
        let (id, name, kind) = (str_field(kid, "id"@)->0, str_field(kid, "name"@)->0, str_field(kid, "type"@)->0);
        nodes_keep_their_names(kid, Some(node), inside, levels, state, id, name, kind);
    }
}

/// The children of a node stand below it in the design, one for one and in their
/// order, where none is hidden and no grid orders them; only a node that is one
/// image as a whole has none.
pub proof fn children_stay_in_order(node: Json, parent: Option<Json>, inside: bool, s: State, kids: Seq<Json>)
    requires
        field(node, "visible"@) != Some(Json::Bool(false)),
        arr_field(node, "children"@) == Some(kids),
        kids.len() > 0,
        forall|i: int| 0 <= i < kids.len() ==> is_node(#[trigger] kids[i]),
        !field_is(node, "layoutMode"@, "GRID"@),
    ensures
        walked(node, parent, inside, None, s).0 matches Some(f) && match get(f, "children"@) {
            Some(c) => c matches Json::Arr(done) && done.len() == kids.len() && forall|i: int|
                0 <= i < kids.len() ==> field(#[trigger] done[i], "id"@) == field(kids[i], "id"@) && field(
                    done[i],
                    "name"@,
                ) == field(kids[i], "name"@),
            None => get(f, "type"@) == Some(Json::Str("IMAGE-SVG"@)),
        },
{
    lemma_untitled();
    lemma_own_childless(node, parent, s);
    lemma_children_smaller(node);
    let t = own_step(node, parent, s);
    let order = shown_order(node, kids);
    let inner = inside_of(node, inside);
    let done = walked_kids(kids, order, kids.len(), node, inner, None, t.state).0;
    lemma_kids_in_order(kids, order, kids.len(), node, inner, None, t.state);
    get_after_put(t.fields, "type"@, Json::Str("IMAGE-SVG"@), "type"@);
    get_after_put(t.fields, "type"@, Json::Str("IMAGE-SVG"@), "children"@);
    get_after_put(t.fields, "children"@, Json::Arr(done), "children"@);
}

// ---------------------------------------------------------------------------
// Looks
// ---------------------------------------------------------------------------

proof fn lemma_looks_differ()
    ensures
        "opacity"@ != "borderRadius"@,
        "opacity"@ != "componentId"@,
        "opacity"@ != "componentProperties"@,
        "opacity"@ != "componentPropertyReferences"@,
        "borderRadius"@ != "componentId"@,
        "borderRadius"@ != "componentProperties"@,
        "borderRadius"@ != "componentPropertyReferences"@,
        "componentId"@ != "componentProperties"@,
        "componentId"@ != "componentPropertyReferences"@,
{
    reveal_strlit("opacity");
    reveal_strlit("borderRadius");
    reveal_strlit("componentId");
    reveal_strlit("componentProperties");
    reveal_strlit("componentPropertyReferences");
    assert("opacity"@.len() == 7 && "borderRadius"@.len() == 12 && "componentId"@.len() == 11);
    assert("componentProperties"@.len() == 19 && "componentPropertyReferences"@.len() == 27);
}

proof fn lemma_component_keeps(t: Step, node: Json, k: Seq<char>)
    requires
        k != "componentId"@,
        k != "componentProperties"@,
        k != "componentPropertyReferences"@,
    ensures
        get(component_step(t, node).fields, k) == get(t.fields, k),
{
    assert forall|o: Fields, x: Seq<char>, v: Json| k != x implies get(#[trigger] put(o, x, v), k) == get(o, k) by {
        get_after_put(o, x, v, k);
    }
}

/// A node tells its opacity unless it is opaque, and its corner radius in pixels.
pub proof fn nodes_tell_their_looks(node: Json, parent: Option<Json>, s: State)
    ensures
        num_field(node, "opacity"@) matches Some(x) ==> !equal(x, of_int(1)) ==> get(
            own_step(node, parent, s).fields,
            "opacity"@,
        ) == Some(plain_number(x)),
        forall|r: int|
            #![trigger signed_decimal(r)]
            is_exact(r) && num_field(node, "cornerRadius"@) == Some(of_int(r)) ==> get(
                own_step(node, parent, s).fields,
                "borderRadius"@,
            ) == Some(Json::Str(signed_decimal(r) + "px"@)),
        field_is(node, "type"@, "INSTANCE"@) && str_field(node, "componentId"@) is Some ==> get(
            own_step(node, parent, s).fields,
            "componentId"@,
        ) == Some(Json::Str(str_field(node, "componentId"@)->0)),
{
    lemma_looks_differ();
    let a = put(Fields::empty(), "id"@, Json::Str(crate::simplify::walk::text_or(node, "id"@, "?"@)));
    let b = put(a, "name"@, Json::Str(crate::simplify::walk::text_or(node, "name"@, ""@)));
    let c = put(b, "type"@, Json::Str(crate::simplify::walk::shown_type(node)));
    let t = text_step(layout_step((Step { fields: c, state: s }), node, parent), node);
    let e = effects_step(strokes_step(fills_step(t, node), node), node);
    let v = visuals_step(t, node);
    assert(own_step(node, parent, s) == component_step(v, node));
    lemma_component_keeps(v, node, "opacity"@);
    lemma_component_keeps(v, node, "borderRadius"@);
    let with_opacity = put_some(e.fields, "opacity"@, opacity(node));
    if let Some(x) = opacity(node) {
        get_after_put(e.fields, "opacity"@, x, "opacity"@);
    }
    if let Some(r) = border_radius(node) {
        get_after_put(with_opacity, "borderRadius"@, Json::Str(r), "opacity"@);
        get_after_put(with_opacity, "borderRadius"@, Json::Str(r), "borderRadius"@);
    }
    assert forall|r: int|
        #![trigger signed_decimal(r)]
        is_exact(r) && num_field(node, "cornerRadius"@) == Some(of_int(r)) implies get(
        own_step(node, parent, s).fields,
        "borderRadius"@,
    ) == Some(Json::Str(signed_decimal(r) + "px"@)) by {
        whole_numbers_are_printed(r);
    }
    if let Some(id) = str_field(node, "componentId"@) {
        let x = put(v.fields, "componentId"@, Json::Str(id));
        get_after_put(v.fields, "componentId"@, Json::Str(id), "componentId"@);
        assert forall|o: Fields, k: Seq<char>, w: Json| k != "componentId"@ implies get(
            #[trigger] put(o, k, w),
            "componentId"@,
        ) == get(o, "componentId"@) by {
            get_after_put(o, k, w, "componentId"@);
        }
    }
}

/// The value of one side in a CSS shorthand of one to four values: top, right,
/// bottom and left.
pub open spec fn css_side(parts: Seq<Seq<char>>, side: int) -> Seq<char> {
    if side < parts.len() {
        parts[side]
    } else if side == 3 && parts.len() > 1 {
        parts[1]
    } else {
        parts[0]
    }
}

/// The CSS shorthand of four sides tells each of them, and there is none only
/// where all are zero.
pub proof fn shorthands_tell_their_sides(top: int, right: int, bottom: int, left: int)
    requires
        is_exact(top),
        is_exact(right),
        is_exact(bottom),
        is_exact(left),
    ensures
        ({
            let r = sides(of_int(top), of_int(right), of_int(bottom), of_int(left));
            &&& r is None <==> top == 0 && right == 0 && bottom == 0 && left == 0
            &&& r is Some ==> exists|parts: Seq<Seq<char>>|
                {
                    &&& r == Some(#[trigger] joined(parts, " "@))
                    &&& 1 <= parts.len() <= 4
                    &&& css_side(parts, 0) == signed_decimal(top) + "px"@
                    &&& css_side(parts, 1) == signed_decimal(right) + "px"@
                    &&& css_side(parts, 2) == signed_decimal(bottom) + "px"@
                    &&& css_side(parts, 3) == signed_decimal(left) + "px"@
                }
        }),
{
    let (t, r, b, l) = (of_int(top), of_int(right), of_int(bottom), of_int(left));
    lemma_equal_exact(top, right);
    lemma_equal_exact(right, bottom);
    lemma_equal_exact(bottom, left);
    lemma_equal_exact(right, left);
    lemma_equal_exact(top, bottom);
    lemma_equal_exact(top, 0);
    lemma_equal_exact(right, 0);
    lemma_equal_exact(bottom, 0);
    lemma_equal_exact(left, 0);
    crate::float::lemma_of_zero();
    whole_numbers_are_printed(top);
    whole_numbers_are_printed(right);
    whole_numbers_are_printed(bottom);
    whole_numbers_are_printed(left);
    let one = seq![pixels(t)];
    let two = seq![pixels(t), pixels(r)];
    let three = seq![pixels(t), pixels(r), pixels(b)];
    let four = seq![pixels(t), pixels(r), pixels(b), pixels(l)];
    assert(two.drop_last() =~= one);
    assert(three.drop_last() =~= two);
    assert(four.drop_last() =~= three);
    assert(joined(one, " "@) == pixels(t));
    assert(joined(two, " "@) == pixels(t) + " "@ + pixels(r));
    assert(joined(three, " "@) == pixels(t) + " "@ + pixels(r) + " "@ + pixels(b));
    assert(joined(four, " "@) == pixels(t) + " "@ + pixels(r) + " "@ + pixels(b) + " "@ + pixels(l));
}

/// Whole numbers are equal as binary64 values where they are equal.
pub proof fn lemma_equal_exact(a: int, b: int)
    requires
        is_exact(a),
        is_exact(b),
    ensures
        equal(of_int(a), of_int(b)) == (a == b),
{
    crate::float::lemma_of_exact(a);
    crate::float::lemma_of_exact(b);
    let o = crate::float::one() as int;
    let x = crate::float::signed(a < 0, crate::float::size(a) * crate::float::one());
    let y = crate::float::signed(b < 0, crate::float::size(b) * crate::float::one());
    assert(x == a * o) by (nonlinear_arith)
        requires
            x == crate::float::signed(a < 0, crate::float::size(a) * crate::float::one()),
            o == crate::float::one(),
    ;
    assert(y == b * o) by (nonlinear_arith)
        requires
            y == crate::float::signed(b < 0, crate::float::size(b) * crate::float::one()),
            o == crate::float::one(),
    ;
    assert(a != b ==> a * o != b * o) by (nonlinear_arith)
        requires
            o > 0,
    ;
}

// ---------------------------------------------------------------------------
// Drawings
// ---------------------------------------------------------------------------

/// Whether a type is that of a shape.
pub open spec fn shape_type(t: Seq<char>) -> bool {
    t == "VECTOR"@ || t == "BOOLEAN_OPERATION"@ || t == "STAR"@ || t == "LINE"@ || t == "ELLIPSE"@ || t
        == "REGULAR_POLYGON"@ || t == "RECTANGLE"@
}

/// Whether a node is a shape without children and without an image among its fills.
pub open spec fn bare_shape(node: Json) -> bool {
    &&& is_node(node)
    &&& str_field(node, "type"@) matches Some(t) && shape_type(t)
    &&& arr_field(node, "children"@) is None
    &&& arr_field(node, "fills"@) is None
}

/// Whether a container can be one image: a frame, a group or an instance that lays
/// nothing out and has no image among its fills.
pub open spec fn plain_container(node: Json) -> bool {
    &&& field_is(node, "type"@, "FRAME"@) || field_is(node, "type"@, "GROUP"@) || field_is(node, "type"@, "INSTANCE"@)
    &&& str_field(node, "layoutMode"@) is None
    &&& arr_field(node, "fills"@) is None
}

proof fn lemma_shape_walked(node: Json, parent: Option<Json>, inside: bool, levels: Option<nat>, s: State)
    requires
        bare_shape(node),
    ensures
        walked(node, parent, inside, levels, s).0 matches Some(f) && drawing(Json::Obj(f)),
{
    let (id, name, kind) = (str_field(node, "id"@)->0, str_field(node, "name"@)->0, str_field(node, "type"@)->0);
    nodes_keep_their_names(node, parent, inside, levels, s, id, name, kind);
}

proof fn lemma_shapes_walked(
    kids: Seq<Json>,
    order: Seq<int>,
    n: nat,
    node: Json,
    inside: bool,
    levels: Option<nat>,
    s: State,
)
    requires
        n <= kids.len(),
        order.len() == kids.len(),
        forall|i: int| 0 <= i < kids.len() ==> order[i] == i,
        forall|i: int| 0 <= i < kids.len() ==> bare_shape(#[trigger] kids[i]),
    ensures
        ({
            let done = walked_kids(kids, order, n, node, inside, levels, s).0;
            &&& done.len() == n
            &&& forall|i: int| 0 <= i < n ==> drawing(#[trigger] done[i])
        }),
    decreases n,
{
    if n > 0 {
        let (before, state) = walked_kids(kids, order, (n - 1) as nat, node, inside, levels, s);
        lemma_shapes_walked(kids, order, (n - 1) as nat, node, inside, levels, s);
        assert(order[n - 1] == n - 1);
        assert(bare_shape(kids[n - 1]));
        lemma_shape_walked(kids[n - 1], Some(node), inside, levels, state);
    }
}

/// A container of shapes alone is one image.
pub proof fn drawings_become_images(node: Json, parent: Option<Json>, inside: bool, s: State, kids: Seq<Json>)
    requires
        field(node, "visible"@) != Some(Json::Bool(false)),
        plain_container(node),
        arr_field(node, "children"@) == Some(kids),
        kids.len() > 0,
        forall|i: int| 0 <= i < kids.len() ==> bare_shape(#[trigger] kids[i]),
    ensures
        walked(node, parent, inside, None, s).0 matches Some(f) && get(f, "type"@) == Some(Json::Str("IMAGE-SVG"@)) && get(
            f,
            "children"@,
        ) is None,
{
    lemma_untitled();
    lemma_own_childless(node, parent, s);
    lemma_children_smaller(node);
    let t = own_step(node, parent, s);
    let order = shown_order(node, kids);
    let inner = inside_of(node, inside);
    let done = walked_kids(kids, order, kids.len(), node, inner, None, t.state).0;
    lemma_shapes_walked(kids, order, kids.len(), node, inner, None, t.state);
    assert(!any_image_fill(kids)) by {
        if any_image_fill(kids) {
            let i = choose|i: int| 0 <= i < kids.len() && #[trigger] image_fill(kids[i]);
            assert(bare_shape(kids[i]));
        }
    }
    assert(collapses(node, done));
    get_after_put(t.fields, "type"@, Json::Str("IMAGE-SVG"@), "type"@);
    get_after_put(t.fields, "type"@, Json::Str("IMAGE-SVG"@), "children"@);
}

/// A container with a text among its children keeps its children.
pub proof fn texts_are_no_drawings(node: Json, parent: Option<Json>, inside: bool, s: State, kids: Seq<Json>, at: int)
    requires
        field(node, "visible"@) != Some(Json::Bool(false)),
        arr_field(node, "children"@) == Some(kids),
        0 <= at < kids.len(),
        forall|i: int| 0 <= i < kids.len() ==> is_node(#[trigger] kids[i]),
        field_is(kids[at], "type"@, "TEXT"@),
        arr_field(kids[at], "children"@) is None,
        !field_is(node, "layoutMode"@, "GRID"@),
    ensures
        walked(node, parent, inside, None, s).0 matches Some(f) && get(f, "children"@) matches Some(Json::Arr(done)) && done.len()
            == kids.len(),
{
    lemma_untitled();
    lemma_own_childless(node, parent, s);
    lemma_children_smaller(node);
    let t = own_step(node, parent, s);
    let order = shown_order(node, kids);
    let inner = inside_of(node, inside);
    let done = walked_kids(kids, order, kids.len(), node, inner, None, t.state).0;
    lemma_kids_in_order(kids, order, kids.len(), node, inner, None, t.state);
    lemma_text_walked(kids, order, kids.len(), node, inner, t.state, at);
    assert(!drawing(done[at]));
    assert(!collapses(node, done));
    get_after_put(t.fields, "children"@, Json::Arr(done), "children"@);
}

proof fn lemma_text_walked(kids: Seq<Json>, order: Seq<int>, n: nat, node: Json, inside: bool, s: State, at: int)
    requires
        0 <= at < n <= kids.len(),
        order.len() == kids.len(),
        forall|i: int| 0 <= i < kids.len() ==> order[i] == i,
        forall|i: int| 0 <= i < kids.len() ==> is_node(#[trigger] kids[i]),
        field_is(kids[at], "type"@, "TEXT"@),
        arr_field(kids[at], "children"@) is None,
    ensures
        ({
            let done = walked_kids(kids, order, n, node, inside, None, s).0;
            done.len() == n && !drawing(done[at])
        }),
    decreases n,
{
    let (before, state) = walked_kids(kids, order, (n - 1) as nat, node, inside, None, s);
    lemma_kids_in_order(kids, order, (n - 1) as nat, node, inside, None, s);
    let kid = kids[n - 1];
    assert(order[n - 1] == n - 1);
    assert(is_node(kid));
    let (id, name, kind) = (str_field(kid, "id"@)->0, str_field(kid, "name"@)->0, str_field(kid, "type"@)->0);
    nodes_keep_their_names(kid, Some(node), inside, None, state, id, name, kind);
    if at < n - 1 {
        lemma_text_walked(kids, order, (n - 1) as nat, node, inside, s, at);
    } else {
        lemma_text_type();
    }
}

proof fn lemma_text_type()
    ensures
        "TEXT"@ != "VECTOR"@,
        "TEXT"@ != "IMAGE-SVG"@,
        "TEXT"@ != "BOOLEAN_OPERATION"@,
        "TEXT"@ != "STAR"@,
        "TEXT"@ != "LINE"@,
        "TEXT"@ != "ELLIPSE"@,
        "TEXT"@ != "REGULAR_POLYGON"@,
        "TEXT"@ != "RECTANGLE"@,
{
    reveal_strlit("TEXT");
    reveal_strlit("VECTOR");
    reveal_strlit("IMAGE-SVG");
    reveal_strlit("BOOLEAN_OPERATION");
    reveal_strlit("STAR");
    reveal_strlit("LINE");
    reveal_strlit("ELLIPSE");
    reveal_strlit("REGULAR_POLYGON");
    reveal_strlit("RECTANGLE");
    assert("TEXT"@.len() == 4 && "STAR"@.len() == 4 && "LINE"@.len() == 4 && "TEXT"@[0] == 'T' && "STAR"@[0] == 'S');
    assert("LINE"@[0] == 'L' && "VECTOR"@.len() == 6 && "IMAGE-SVG"@.len() == 9 && "BOOLEAN_OPERATION"@.len() == 17);
    assert("ELLIPSE"@.len() == 7 && "REGULAR_POLYGON"@.len() == 15 && "RECTANGLE"@.len() == 9);
}

/// The text of a text node is told, unless it is empty.
pub proof fn texts_are_told(node: Json, t: Step, text: Seq<char>)
    requires
        field_is(node, "type"@, "TEXT"@),
        formatted(node, t.state).text == Some(text),
        text.len() > 0,
    ensures
        get(characters_step(t, node).fields, "text"@) == Some(Json::Str(text)),
{
    reveal_strlit("");
    reveal_strlit("text");
    reveal_strlit("boldWeight");
    assert("text"@.len() == 4 && "boldWeight"@.len() == 10);
    let f = formatted(node, t.state);
    let a = put(t.fields, "text"@, Json::Str(text));
    get_after_put(t.fields, "text"@, Json::Str(text), "text"@);
    if let Some(w) = crate::simplify::walk::int_json(f.bold) {
        get_after_put(a, "boldWeight"@, w, "text"@);
    }
}

} // verus!
