//! The walk over a document: each visible node becomes a compact object, and
//! the styles that it uses are registered on the way.

use vstd::prelude::*;

use crate::float::{equal, from_int, of_int};
use crate::json::{
    arr_field, as_num, as_str, double_of, field, field_is, field_text_is, get, has_key, is_visible, json_list,
    lemma_get_smaller, list_of, num_field, obj_field, object_of, opt, opt_value, own_text, put, put_some, str_field,
    str_of, text_is, text_json, visible, Fields, Json, Num, Number, Object, Value,
};
use crate::simplify::color::{flatten_solid_fills, flattened};
use crate::simplify::component::{
    definitions, properties, references, simplify_component_properties, simplify_property_definitions,
    simplify_property_references,
};
use crate::simplify::effects::{build_simplified_effects, effects};
use crate::simplify::grid::{compute_grid_child_order, grid_order, grid_order_permutes, places};
use crate::simplify::layout::{build_simplified_layout, layout, mode_flow};
use crate::simplify::numbers::{num_raw, plain_number};
use crate::simplify::registry::{
    find_or_create_var, key_texts, register_style, style_id, var_cache, var_id, var_styles, with_style, Ctx, State,
};
use crate::simplify::rich_text::{build_formatted_text, formatted};
use crate::simplify::style::{
    build_simplified_strokes, convert_paints, fills_of, keep_visible, pixels, px, stroke_align, stroke_colors,
    stroke_dashes, stroke_weight, visible_paints,
};
use crate::simplify::text::{extract_text_style, has_text_style, is_text_node, non_empty, opt_owned, styled, text_style};
use crate::strings::{join, joined, opt_text, same, views};

verus! {

/// A node in the making, and the state of the walk.
pub struct Step {
    pub fields: Fields,
    pub state: State,
}

/// A step with a style that is registered under a key of the node.
pub open spec fn with_named(
    t: Step,
    node: Json,
    key: Seq<char>,
    value: Json,
    keys: Seq<Seq<char>>,
    prefix: Seq<char>,
) -> Step {
    Step {
        fields: put(t.fields, key, Json::Str(style_id(t.state, node, value, keys, prefix))),
        state: with_style(t.state, node, value, keys, prefix),
    }
}

fn put_style(
    out: &mut Object,
    ctx: &mut Ctx,
    node: &Value,
    key: &str,
    value: Value,
    one: &str,
    many: &str,
    prefix: &str,
)
    ensures
        (Step { fields: final(out)@, state: final(ctx)@ }) == with_named(
            (Step { fields: old(out)@, state: old(ctx)@ }),
            node@,
            key@,
            value@,
            seq![one@, many@],
            prefix@,
        ),
{
    let keys = [one, many];
    assert(key_texts(keys@) =~= seq![one@, many@]);
    let id = register_style(ctx, node, value, &keys, prefix);
    out.put(key, Value::String(id));
}

// ---------------------------------------------------------------------------
// Layout and text
// ---------------------------------------------------------------------------

/// A step with the layout of the node, where it says more than a mode.
pub open spec fn layout_step(t: Step, node: Json, parent: Option<Json>) -> Step {
    let l = layout(node, parent);
    if l.len() > 1 {
        let (styles, cache) = (t.state.styles, t.state.cache);
        Step {
            fields: put(t.fields, "layout"@, Json::Str(var_id(styles, cache, Json::Obj(l), "layout"@))),
            state: State {
                styles: var_styles(styles, cache, Json::Obj(l), "layout"@),
                cache: var_cache(styles, cache, Json::Obj(l), "layout"@),
                ..t.state
            },
        }
    } else {
        t
    }
}

fn layout_extractor(out: &mut Object, ctx: &mut Ctx, node: &Value, parent: Option<&Value>)
    ensures
        (Step { fields: final(out)@, state: final(ctx)@ }) == layout_step(
            (Step { fields: old(out)@, state: old(ctx)@ }),
            node@,
            opt(parent),
        ),
{
    let l = build_simplified_layout(node, parent);
    if l.len() > 1 {
        let id = find_or_create_var(&mut ctx.styles, &mut ctx.style_cache, Value::Object(l), "layout");
        out.put("layout", Value::String(id));
    }
}

/// A number as an integer, when there is one.
pub open spec fn int_json(n: Option<nat>) -> Option<Json> {
    match n {
        Some(x) => Some(Json::Num(Num::Int(x as int))),
        None => None,
    }
}

/// A step with the characters of a text node.
pub open spec fn characters_step(t: Step, node: Json) -> Step {
    if field_is(node, "type"@, "TEXT"@) {
        let f = formatted(node, t.state);
        Step {
            fields: put_some(
                put_some(t.fields, "text"@, text_json(non_empty(f.text))),
                "boldWeight"@,
                int_json(f.bold),
            ),
            state: f.state,
        }
    } else {
        t
    }
}

/// A step with the text and the text style of the node.
pub open spec fn text_step(t: Step, node: Json) -> Step {
    let a = characters_step(t, node);
    match text_style(node) {
        Some(style) => if styled(node) {
            with_named(a, node, "textStyle"@, style, seq!["text"@, "typography"@], "style"@)
        } else {
            a
        },
        None => a,
    }
}

fn text_extractor(out: &mut Object, ctx: &mut Ctx, node: &Value)
    ensures
        (Step { fields: final(out)@, state: final(ctx)@ }) == text_step(
            (Step { fields: old(out)@, state: old(ctx)@ }),
            node@,
        ),
{
    if is_text_node(node) {
        let rich = build_formatted_text(node, ctx);
        match rich.text {
            Some(text) => if !same(text.as_str(), "") {
                out.put("text", Value::String(text));
            },
            None => {},
        }
        match rich.bold_weight {
            Some(w) => out.put("boldWeight", Value::Number(Number::PosInt(w))),
            None => {},
        }
    }
    if has_text_style(node) {
        match extract_text_style(node) {
            Some(style) => put_style(out, ctx, node, "textStyle", style, "text", "typography", "style"),
            None => {},
        }
    }
}

// ---------------------------------------------------------------------------
// Visuals
// ---------------------------------------------------------------------------

/// Whether a node has children.
pub open spec fn has_kids(node: Json) -> bool {
    arr_field(node, "children"@) matches Some(a) && a.len() > 0
}

fn does_have_kids(node: &Value) -> (r: bool)
    ensures
        r == has_kids(node@),
{
    match list_of(node.get("children")) {
        Some(a) => a.len() > 0,
        None => false,
    }
}

/// The fills of a node: one colour where its visible paints are a stack of
/// solid ones.
pub open spec fn node_fills(a: Seq<Json>, s: State, has_children: bool) -> Json {
    let shown = visible_paints(a);
    match flattened(shown) {
        Some(color) => Json::Arr(seq![Json::Str(color)]),
        None => Json::Arr(fills_of(shown, has_children, s.turns)),
    }
}

/// A step with the fills of the node.
pub open spec fn fills_step(t: Step, node: Json) -> Step {
    match arr_field(node, "fills"@) {
        Some(a) => if a.len() > 0 {
            with_named(
                t,
                node,
                "fills"@,
                node_fills(a, t.state, has_kids(node)),
                seq!["fill"@, "fills"@],
                "fill"@,
            )
        } else {
            t
        },
        None => t,
    }
}

fn put_fills(out: &mut Object, ctx: &mut Ctx, node: &Value)
    ensures
        (Step { fields: final(out)@, state: final(ctx)@ }) == fills_step(
            (Step { fields: old(out)@, state: old(ctx)@ }),
            node@,
        ),
{
    match list_of(node.get("fills")) {
        Some(a) => if a.len() > 0 {
            let shown = keep_visible(a);
            let fills = match flatten_solid_fills(&shown) {
                Some(color) => {
                    let mut one: Vec<Value> = Vec::new();
                    one.push(Value::String(color));
                    assert(json_list(one@) =~= seq![Json::Str(color@)]);
                    one
                },
                None => convert_paints(&shown, does_have_kids(node), &ctx.turns),
            };
            put_style(out, ctx, node, "fills", Value::Array(fills), "fill", "fills", "fill");
        },
        None => {},
    }
}

/// A list as a value, when there is one.
pub open spec fn list_json(a: Option<Seq<Json>>) -> Option<Json> {
    match a {
        Some(x) => Some(Json::Arr(x)),
        None => None,
    }
}

/// A step with the strokes of the node.
pub open spec fn strokes_step(t: Step, node: Json) -> Step {
    let colors = stroke_colors(node, has_kids(node), t.state.turns);
    if colors.len() > 0 {
        let a = with_named(t, node, "strokes"@, Json::Arr(colors), seq!["stroke"@, "strokes"@], "fill"@);
        let b = put_some(a.fields, "strokeWeight"@, text_json(stroke_weight(node)));
        let c = put_some(b, "strokeDashes"@, list_json(stroke_dashes(node)));
        Step { fields: put_some(c, "strokeAlign"@, text_json(stroke_align(node))), ..a }
    } else {
        t
    }
}

fn put_strokes(out: &mut Object, ctx: &mut Ctx, node: &Value)
    ensures
        (Step { fields: final(out)@, state: final(ctx)@ }) == strokes_step(
            (Step { fields: old(out)@, state: old(ctx)@ }),
            node@,
        ),
{
    let strokes = build_simplified_strokes(node, does_have_kids(node), &ctx.turns);
    if strokes.colors.len() > 0 {
        put_style(out, ctx, node, "strokes", Value::Array(strokes.colors), "stroke", "strokes", "fill");
        out.put_text("strokeWeight", strokes.stroke_weight);
        match strokes.stroke_dashes {
            Some(d) => out.put("strokeDashes", Value::Array(d)),
            None => {},
        }
        out.put_text("strokeWeights", strokes.stroke_weights);
        out.put_text("strokeAlign", strokes.stroke_align);
    }
}

/// A step with the effects of the node.
pub open spec fn effects_step(t: Step, node: Json) -> Step {
    if effects(node).len() > 0 {
        with_named(t, node, "effects"@, Json::Obj(effects(node)), seq!["effect"@, "effects"@], "effect"@)
    } else {
        t
    }
}

/// The opacity of a node, unless it is opaque.
pub open spec fn opacity(node: Json) -> Option<Json> {
    match num_field(node, "opacity"@) {
        Some(x) => if equal(x, of_int(1)) {
            None
        } else {
            Some(plain_number(x))
        },
        None => None,
    }
}

/// The lengths of a list of numbers.
pub open spec fn radii_texts(a: Seq<Json>) -> Seq<Seq<char>> {
    Seq::new(
        a.len(),
        |i: int|
            match as_num(Some(a[i])) {
                Some(x) => pixels(x),
                None => Seq::empty(),
            },
    )
}

/// The corner radius of a node, or those of its four corners.
pub open spec fn border_radius(node: Json) -> Option<Seq<char>> {
    match num_field(node, "cornerRadius"@) {
        Some(r) => Some(pixels(r)),
        None => match arr_field(node, "rectangleCornerRadii"@) {
            Some(a) => if a.len() == 4 && (forall|i: int| 0 <= i < 4 ==> as_num(Some(#[trigger] a[i])) is Some) {
                Some(joined(radii_texts(a), " "@))
            } else {
                None
            },
            None => None,
        },
    }
}

fn find_radius(node: &Value) -> (r: Option<String>)
    ensures
        opt_text(r) == border_radius(node@),
{
    if let Some(r) = double_of(node.get("cornerRadius")) {
        return Some(px(r));
    }
    match list_of(node.get("rectangleCornerRadii")) {
        Some(a) => {
            if a.len() != 4 {
                return None;
            }
            let ghost m = json_list(a@);
            let mut parts: Vec<String> = Vec::new();
            let mut i: usize = 0;
            while i < 4
                invariant
                    i <= 4,
                    a.len() == 4,
                    m == json_list(a@),
                    num_field(node@, "cornerRadius"@) is None,
                    arr_field(node@, "rectangleCornerRadii"@) == Some(m),
                    parts.len() == i,
                    forall|k: int|
                        0 <= k < i ==> as_num(Some(#[trigger] m[k])) is Some && parts@[k]@ == radii_texts(m)[k],
                decreases 4 - i,
            {
                match double_of(Some(&a[i])) {
                    Some(x) => parts.push(px(x)),
                    None => {
                        assert(as_num(Some(m[i as int])) is None);
                        return None;
                    },
                }
                i += 1;
            }
            assert(views(parts@) =~= radii_texts(m)) by {
                assert forall|k: int| 0 <= k < 4 implies views(parts@)[k] == radii_texts(m)[k] by {
                    assert(as_num(Some(m[k])) is Some);
                }
            }
            Some(join(&parts, " "))
        },
        None => None,
    }
}

/// A step with what the node looks like.
pub open spec fn visuals_step(t: Step, node: Json) -> Step {
    let a = effects_step(strokes_step(fills_step(t, node), node), node);
    let b = put_some(a.fields, "opacity"@, opacity(node));
    Step { fields: put_some(b, "borderRadius"@, text_json(border_radius(node))), ..a }
}

fn visuals_extractor(out: &mut Object, ctx: &mut Ctx, node: &Value)
    ensures
        (Step { fields: final(out)@, state: final(ctx)@ }) == visuals_step(
            (Step { fields: old(out)@, state: old(ctx)@ }),
            node@,
        ),
{
    put_fills(out, ctx, node);
    put_strokes(out, ctx, node);
    let fx = build_simplified_effects(node);
    if !fx.is_empty() {
        put_style(out, ctx, node, "effects", Value::Object(fx), "effect", "effects", "effect");
    }
    match double_of(node.get("opacity")) {
        Some(x) => if !x.equals(from_int(1)) {
            out.put("opacity", num_raw(x));
        },
        None => {},
    }
    out.put_text("borderRadius", find_radius(node));
}

// ---------------------------------------------------------------------------
// Components
// ---------------------------------------------------------------------------

/// An object that is not empty.
pub open spec fn non_empty_object(o: Fields) -> Option<Json> {
    if o.len() == 0 {
        None
    } else {
        Some(Json::Obj(o))
    }
}

fn some_object(o: Object) -> (r: Option<Value>)
    ensures
        opt_value(r) == non_empty_object(o@),
{
    if o.is_empty() {
        None
    } else {
        Some(Value::Object(o))
    }
}

/// The component and the properties of an instance.
pub open spec fn instance_fields(o: Fields, node: Json) -> Fields {
    let a = put_some(o, "componentId"@, text_json(str_field(node, "componentId"@)));
    match obj_field(node, "componentProperties"@) {
        Some(p) => put_some(a, "componentProperties"@, non_empty_object(properties(p, p.len()))),
        None => a,
    }
}

/// The property references of a node.
pub open spec fn reference_fields(o: Fields, node: Json) -> Fields {
    match obj_field(node, "componentPropertyReferences"@) {
        Some(p) => put_some(o, "componentPropertyReferences"@, non_empty_object(references(p, p.len()))),
        None => o,
    }
}

/// The property definitions with those of a component.
pub open spec fn with_definitions(defs: Fields, node: Json) -> Fields {
    if field_is(node, "type"@, "COMPONENT"@) || field_is(node, "type"@, "COMPONENT_SET"@) {
        match (obj_field(node, "componentPropertyDefinitions"@), str_field(node, "id"@)) {
            (Some(d), Some(id)) => put_some(defs, id, non_empty_object(definitions(d, d.len()))),
            _ => defs,
        }
    } else {
        defs
    }
}

/// A step with what the node is as a component or an instance.
pub open spec fn component_step(t: Step, node: Json) -> Step {
    let a = if field_is(node, "type"@, "INSTANCE"@) {
        instance_fields(t.fields, node)
    } else {
        t.fields
    };
    Step {
        fields: reference_fields(a, node),
        state: State { defs: with_definitions(t.state.defs, node), ..t.state },
    }
}

fn component_extractor(out: &mut Object, ctx: &mut Ctx, node: &Value)
    ensures
        (Step { fields: final(out)@, state: final(ctx)@ }) == component_step(
            (Step { fields: old(out)@, state: old(ctx)@ }),
            node@,
        ),
{
    if field_text_is(node, "type", "INSTANCE") {
        out.put_text("componentId", own_text(str_of(node.get("componentId"))));
        match object_of(node.get("componentProperties")) {
            Some(p) => out.put_some("componentProperties", some_object(simplify_component_properties(p))),
            None => {},
        }
    }
    match object_of(node.get("componentPropertyReferences")) {
        Some(p) => out.put_some("componentPropertyReferences", some_object(simplify_property_references(p))),
        None => {},
    }
    if field_text_is(node, "type", "COMPONENT") || field_text_is(node, "type", "COMPONENT_SET") {
        match (object_of(node.get("componentPropertyDefinitions")), str_of(node.get("id"))) {
            (Some(d), Some(id)) => ctx.prop_defs.put_some(id, some_object(simplify_property_definitions(d))),
            _ => {},
        }
    }
}

// ---------------------------------------------------------------------------
// Nodes
// ---------------------------------------------------------------------------

/// Whether a node is shown: a hidden one is, inside a component, when a property
/// can show it.
pub open spec fn node_shown(node: Json, inside: bool) -> bool {
    visible(node) || (inside && match obj_field(node, "componentPropertyReferences"@) {
        Some(p) => has_key(p, "visible"@),
        None => false,
    })
}

fn is_node_visible(node: &Value, inside: bool) -> (r: bool)
    ensures
        r == node_shown(node@, inside),
{
    is_visible(node) || (inside && match object_of(node.get("componentPropertyReferences")) {
        Some(p) => p.contains_key("visible"),
        None => false,
    })
}

/// A text field, or another text.
pub open spec fn text_or(node: Json, k: Seq<char>, other: Seq<char>) -> Seq<char> {
    match str_field(node, k) {
        Some(s) => s,
        None => other,
    }
}

fn text_in(node: &Value, k: &str, other: &str) -> (r: String)
    ensures
        r@ == text_or(node@, k@, other@),
{
    match str_of(node.get(k)) {
        Some(s) => s.to_owned(),
        None => other.to_owned(),
    }
}

/// The type of a node as it is shown: vectors are images.
pub open spec fn shown_type(node: Json) -> Seq<char> {
    if field_is(node, "type"@, "VECTOR"@) {
        "IMAGE-SVG"@
    } else {
        text_or(node, "type"@, ""@)
    }
}

/// A node without its children.
pub open spec fn own_step(node: Json, parent: Option<Json>, s: State) -> Step {
    let a = put(Fields::empty(), "id"@, Json::Str(text_or(node, "id"@, "?"@)));
    let b = put(a, "name"@, Json::Str(text_or(node, "name"@, ""@)));
    let c = put(b, "type"@, Json::Str(shown_type(node)));
    let t = layout_step((Step { fields: c, state: s }), node, parent);
    component_step(visuals_step(text_step(t, node), node), node)
}

fn extract_own(node: &Value, parent: Option<&Value>, ctx: &mut Ctx) -> (r: Object)
    ensures
        (Step { fields: r@, state: final(ctx)@ }) == own_step(node@, opt(parent), old(ctx)@),
{
    let mut out = Object::new();
    out.put("id", Value::String(text_in(node, "id", "?")));
    out.put("name", Value::String(text_in(node, "name", "")));
    let kind = if field_text_is(node, "type", "VECTOR") {
        "IMAGE-SVG".to_owned()
    } else {
        text_in(node, "type", "")
    };
    out.put("type", Value::String(kind));
    layout_extractor(&mut out, ctx, node, parent);
    text_extractor(&mut out, ctx, node);
    visuals_extractor(&mut out, ctx, node);
    component_extractor(&mut out, ctx, node);
    out
}

/// Whether a paint is an image.
pub open spec fn image(paint: Json) -> bool {
    field_is(paint, "type"@, "IMAGE"@)
}

/// Whether an image is among paints.
pub open spec fn any_image(paints: Seq<Json>) -> bool {
    exists|i: int| 0 <= i < paints.len() && #[trigger] image(paints[i])
}

/// Whether a node has an image among its fills.
pub open spec fn image_fill(node: Json) -> bool {
    match arr_field(node, "fills"@) {
        Some(a) => any_image(a),
        None => false,
    }
}

/// Whether a node with an image among its fills is among nodes.
pub open spec fn any_image_fill(nodes: Seq<Json>) -> bool {
    exists|i: int| 0 <= i < nodes.len() && #[trigger] image_fill(nodes[i])
}

fn has_image_fill(node: &Value) -> (r: bool)
    ensures
        r == image_fill(node@),
{
    match list_of(node.get("fills")) {
        Some(a) => {
            let ghost m = json_list(a@);
            let mut i: usize = 0;
            while i < a.len()
                invariant
                    i <= a.len(),
                    m == json_list(a@),
                    arr_field(node@, "fills"@) == Some(m),
                    forall|k: int| 0 <= k < i ==> !#[trigger] image(m[k]),
                decreases a.len() - i,
            {
                if field_text_is(&a[i], "type", "IMAGE") {
                    assert(image(m[i as int]));
                    assert(any_image(m));
                    return true;
                }
                i += 1;
            }
            false
        },
        None => false,
    }
}

/// Whether a container of this type can become one image.
pub open spec fn collapsible(kind: Seq<char>) -> bool {
    kind == "FRAME"@ || kind == "GROUP"@ || kind == "INSTANCE"@ || kind == "BOOLEAN_OPERATION"@
}

/// Whether a child is a drawing.
pub open spec fn drawing(child: Json) -> bool {
    match str_field(child, "type"@) {
        Some(t) => t == "IMAGE-SVG"@ || t == "BOOLEAN_OPERATION"@ || t == "STAR"@ || t == "LINE"@ || t == "ELLIPSE"@
            || t == "REGULAR_POLYGON"@ || t == "RECTANGLE"@,
        None => false,
    }
}

fn is_drawing(child: &Value) -> (r: bool)
    ensures
        r == drawing(child@),
{
    match str_of(child.get("type")) {
        Some(t) => same(t, "IMAGE-SVG") || same(t, "BOOLEAN_OPERATION") || same(t, "STAR") || same(t, "LINE") || same(
            t,
            "ELLIPSE",
        ) || same(t, "REGULAR_POLYGON") || same(t, "RECTANGLE"),
        None => false,
    }
}

/// Whether a container of drawings becomes one image: no image takes part in
/// it, and an auto-layout keeps fewer than ten children.
pub open spec fn collapses(node: Json, kids: Seq<Json>) -> bool {
    &&& collapsible(text_or(node, "type"@, ""@))
    &&& forall|i: int| 0 <= i < kids.len() ==> drawing(#[trigger] kids[i])
    &&& !image_fill(node)
    &&& match arr_field(node, "children"@) {
        Some(raw) => !any_image_fill(raw),
        None => true,
    }
    &&& mode_flow(str_field(node, "layoutMode"@)) is Free || kids.len() >= 10
}

fn all_drawings(kids: &Vec<Value>) -> (r: bool)
    ensures
        r == (forall|i: int| 0 <= i < kids@.len() ==> drawing(#[trigger] json_list(kids@)[i])),
{
    let ghost m = json_list(kids@);
    let mut i: usize = 0;
    while i < kids.len()
        invariant
            i <= kids.len(),
            m == json_list(kids@),
            forall|k: int| 0 <= k < i ==> drawing(#[trigger] m[k]),
        decreases kids.len() - i,
    {
        if !is_drawing(&kids[i]) {
            assert(!drawing(m[i as int]));
            return false;
        }
        i += 1;
    }
    true
}

fn any_image_child(node: &Value) -> (r: bool)
    ensures
        r == match arr_field(node@, "children"@) {
            Some(raw) => any_image_fill(raw),
            None => false,
        },
{
    match list_of(node.get("children")) {
        Some(raw) => {
            let ghost m = json_list(raw@);
            let mut i: usize = 0;
            while i < raw.len()
                invariant
                    i <= raw.len(),
                    m == json_list(raw@),
                    arr_field(node@, "children"@) == Some(m),
                    forall|k: int| 0 <= k < i ==> !#[trigger] image_fill(m[k]),
                decreases raw.len() - i,
            {
                if has_image_fill(&raw[i]) {
                    assert(image_fill(m[i as int]));
                    assert(any_image_fill(m));
                    return true;
                }
                i += 1;
            }
            false
        },
        None => false,
    }
}

/// Decides whether a container of drawings becomes one image.
pub fn does_collapse(node: &Value, kids: &Vec<Value>) -> (r: bool)
    ensures
        r == collapses(node@, json_list(kids@)),
{
    let kind = text_in(node, "type", "");
    let fits = same(kind.as_str(), "FRAME") || same(kind.as_str(), "GROUP") || same(kind.as_str(), "INSTANCE") || same(
        kind.as_str(),
        "BOOLEAN_OPERATION",
    );
    let mode = str_of(node.get("layoutMode"));
    let laid_out = text_is(mode, "HORIZONTAL") || text_is(mode, "VERTICAL") || text_is(mode, "GRID");
    let drawn = all_drawings(kids);
    let imaged = has_image_fill(node) || any_image_child(node);
    fits && drawn && !imaged && (!laid_out || kids.len() >= 10)
}

/// A node with the children that it shows.
pub open spec fn with_children(node: Json, fields: Fields, kids: Seq<Json>) -> Fields {
    if kids.len() == 0 {
        fields
    } else if collapses(node, kids) {
        put(fields, "type"@, Json::Str("IMAGE-SVG"@))
    } else {
        put(fields, "children"@, Json::Arr(kids))
    }
}

/// Whether the children of a node are inside a component.
pub open spec fn inside_of(node: Json, inside: bool) -> bool {
    if field_is(node, "type"@, "COMPONENT"@) || field_is(node, "type"@, "COMPONENT_SET"@) {
        true
    } else if field_is(node, "type"@, "INSTANCE"@) {
        false
    } else {
        inside
    }
}

/// The levels below.
pub open spec fn below(levels: Option<nat>) -> Option<nat> {
    match levels {
        Some(n) => Some((n - 1) as nat),
        None => None,
    }
}

/// The order in which a node shows its children.
pub open spec fn shown_order(node: Json, kids: Seq<Json>) -> Seq<int> {
    match grid_order(node) {
        Some(o) => o,
        None => Seq::new(kids.len(), |i: int| i),
    }
}

/// The children of a node are smaller than the node.
pub proof fn lemma_children_smaller(node: Json)
    ensures
        arr_field(node, "children"@) matches Some(kids) ==> decreases_to!(node => kids),
{
    if let Json::Obj(o) = node {
        lemma_get_smaller(o, "children"@);
        if let Some(v) = get(o, "children"@) {
            if let Json::Arr(a) = v {
                assert(decreases_to!(node => o));
                assert(decreases_to!(v => a));
            }
        }
    }
}

/// The node that a raw node becomes, and the state after it. Levels below the
/// limit are left out.
pub open spec fn walked(node: Json, parent: Option<Json>, inside: bool, levels: Option<nat>, s: State) -> (
    Option<Fields>,
    State,
)
    decreases node, 0nat,
{
    if !node_shown(node, inside) {
        (None, s)
    } else {
        let t = own_step(node, parent, s);
        match arr_field(node, "children"@) {
            Some(kids) => if levels == Some(0nat) || kids.len() == 0 {
                (Some(t.fields), t.state)
            } else {
                proof {
                    lemma_children_smaller(node);
                }
                let (done, after) = walked_kids(
                    kids,
                    shown_order(node, kids),
                    kids.len(),
                    node,
                    inside_of(node, inside),
                    below(levels),
                    t.state,
                );
                (Some(with_children(node, t.fields, done)), after)
            },
            None => (Some(t.fields), t.state),
        }
    }
}

/// The nodes that the first `n` children in an order become, and the state
/// after them.
pub open spec fn walked_kids(
    kids: Seq<Json>,
    order: Seq<int>,
    n: nat,
    node: Json,
    inside: bool,
    levels: Option<nat>,
    s: State,
) -> (Seq<Json>, State)
    decreases kids, n,
{
    if n == 0 {
        (Seq::empty(), s)
    } else {
        let (done, before) = walked_kids(kids, order, (n - 1) as nat, node, inside, levels, s);
        let i = order[n - 1];
        if 0 <= i < kids.len() {
            let (one, after) = walked(kids[i], Some(node), inside, levels, before);
            match one {
                Some(f) => (done.push(Json::Obj(f)), after),
                None => (done, after),
            }
        } else {
            (done, before)
        }
    }
}

/// The number of levels, as a count.
pub open spec fn level_count(levels: Option<u32>) -> Option<nat> {
    match levels {
        Some(n) => Some(n as nat),
        None => None,
    }
}

fn order_of(node: &Value, kids: &Vec<Value>) -> (r: Vec<usize>)
    requires
        arr_field(node@, "children"@) == Some(json_list(kids@)),
    ensures
        places(r@) == shown_order(node@, json_list(kids@)),
        r@.len() == kids@.len(),
{
    proof {
        grid_order_permutes(node@);
    }
    match compute_grid_child_order(node) {
        Some(o) => o,
        None => {
            let mut out: Vec<usize> = Vec::new();
            let mut i: usize = 0;
            while i < kids.len()
                invariant
                    i <= kids.len(),
                    out.len() == i,
                    forall|k: int| 0 <= k < i ==> #[trigger] out@[k] == k,
                decreases kids.len() - i,
            {
                out.push(i);
                i += 1;
            }
            assert(places(out@) =~= Seq::new(kids@.len(), |i: int| i));
            out
        },
    }
}

/// Walks a node and what is below it. `levels` limits how deep; `inside` tells
/// whether the node is inside a component.
pub fn process_node(node: &Value, parent: Option<&Value>, inside: bool, levels: Option<u32>, ctx: &mut Ctx) -> (r:
    Option<Object>)
    ensures
        ({
            let (want, after) = walked(node@, opt(parent), inside, level_count(levels), old(ctx)@);
            opt_owned(r) == want && final(ctx)@ == after
        }),
    decreases node@, 0nat,
{
    if !is_node_visible(node, inside) {
        return None;
    }
    let mut out = extract_own(node, parent, ctx);
    if let Some(kids) = list_of(node.get("children")) {
        let below: Option<u32> = match levels {
            Some(n) => if n == 0 {
                return Some(out);
            } else {
                Some(n - 1)
            },
            None => None,
        };
        if kids.len() == 0 {
            return Some(out);
        }
        let inner = if field_text_is(node, "type", "COMPONENT") || field_text_is(node, "type", "COMPONENT_SET") {
            true
        } else if field_text_is(node, "type", "INSTANCE") {
            false
        } else {
            inside
        };
        let order = order_of(node, kids);
        proof {
            lemma_children_smaller(node@);
        }
        let done = process_kids(kids, &order, node, inner, below, ctx);
        if done.len() > 0 {
            if does_collapse(node, &done) {
                out.put_str("type", "IMAGE-SVG");
            } else {
                out.put("children", Value::Array(done));
            }
        }
    }
    Some(out)
}

fn process_kids(
    kids: &Vec<Value>,
    order: &Vec<usize>,
    node: &Value,
    inside: bool,
    levels: Option<u32>,
    ctx: &mut Ctx,
) -> (r: Vec<Value>)
    requires
        order.len() == kids.len(),
    ensures
        ({
            let (want, after) = walked_kids(
                json_list(kids@),
                places(order@),
                kids@.len(),
                node@,
                inside,
                level_count(levels),
                old(ctx)@,
            );
            json_list(r@) == want && final(ctx)@ == after
        }),
    decreases json_list(kids@), 1nat,
{
    let ghost m = json_list(kids@);
    let ghost o = places(order@);
    let ghost s = ctx@;
    let mut out: Vec<Value> = Vec::new();
    let mut i: usize = 0;
    assert(json_list(out@) =~= Seq::empty());
    while i < order.len()
        invariant
            i <= order.len(),
            order.len() == kids.len(),
            m == json_list(kids@),
            o == places(order@),
            json_list(out@) == walked_kids(m, o, i as nat, node@, inside, level_count(levels), s).0,
            ctx@ == walked_kids(m, o, i as nat, node@, inside, level_count(levels), s).1,
        decreases order.len() - i,
    {
        let at = order[i];
        assert(o[i as int] == at as int);
        if at < kids.len() {
            let ghost before = json_list(out@);
            assert(kids@[at as int]@ == m[at as int]);
            assert(decreases_to!(m => m[at as int]));
            match process_node(&kids[at], Some(node), inside, levels, ctx) {
                Some(f) => {
                    out.push(Value::Object(f));
                    assert(json_list(out@) =~= before.push(Json::Obj(f@)));
                },
                None => {},
            }
        }
        i += 1;
    }
    out
}

} // verus!
