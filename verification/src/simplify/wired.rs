//! How a node refers to its styles, and how its children are walked.

use vstd::prelude::*;

use crate::json::{
    arr_field, as_str, field, field_is, get, get_after_put, key_from, lemma_key_from, obj_field, put, put_some,
    str_field, Fields, Json,
};
use crate::simplify::canonical::stable_text;
use crate::simplify::effects::effects;
use crate::simplify::layout::layout;
use crate::simplify::registry::{
    id_for, named_styles_keep_their_names, node_style, registered_once, style_id, styles_are_found, State,
};
use crate::simplify::rich_text::formatted;
use crate::simplify::style::{fills_of, stroke_colors, visible_paints};
use crate::simplify::text::{styled, text_style};
use crate::simplify::told::is_node;
use crate::simplify::walk::{
    characters_step, component_step, effects_step, fills_step, has_kids, inside_of, layout_step,
    lemma_children_smaller, node_fills, own_step, shown_order, shown_type, strokes_step, text_or, text_step,
    visuals_step, walked, walked_kids, with_named, Step,
};

verus! {

proof fn lemma_words()
    ensures
        "layout"@ != "text"@,
        "layout"@ != "textStyle"@,
        "layout"@ != "fills"@,
        "layout"@ != "strokes"@,
        "layout"@ != "effects"@,
        "layout"@ != "id"@,
        "layout"@ != "name"@,
        "layout"@ != "type"@,
        "layout"@ != "boldWeight"@,
        "layout"@ != "strokeWeight"@,
        "layout"@ != "strokeDashes"@,
        "layout"@ != "strokeAlign"@,
        "layout"@ != "opacity"@,
        "layout"@ != "borderRadius"@,
        "layout"@ != "componentId"@,
        "layout"@ != "componentProperties"@,
        "layout"@ != "componentPropertyReferences"@,
        "layout"@ != "children"@,
        "text"@ != "textStyle"@,
        "text"@ != "fills"@,
        "text"@ != "strokes"@,
        "text"@ != "effects"@,
        "text"@ != "id"@,
        "text"@ != "name"@,
        "text"@ != "type"@,
        "text"@ != "boldWeight"@,
        "text"@ != "strokeWeight"@,
        "text"@ != "strokeDashes"@,
        "text"@ != "strokeAlign"@,
        "text"@ != "opacity"@,
        "text"@ != "borderRadius"@,
        "text"@ != "componentId"@,
        "text"@ != "componentProperties"@,
        "text"@ != "componentPropertyReferences"@,
        "text"@ != "children"@,
        "textStyle"@ != "fills"@,
        "textStyle"@ != "strokes"@,
        "textStyle"@ != "effects"@,
        "textStyle"@ != "id"@,
        "textStyle"@ != "name"@,
        "textStyle"@ != "type"@,
        "textStyle"@ != "boldWeight"@,
        "textStyle"@ != "strokeWeight"@,
        "textStyle"@ != "strokeDashes"@,
        "textStyle"@ != "strokeAlign"@,
        "textStyle"@ != "opacity"@,
        "textStyle"@ != "borderRadius"@,
        "textStyle"@ != "componentId"@,
        "textStyle"@ != "componentProperties"@,
        "textStyle"@ != "componentPropertyReferences"@,
        "textStyle"@ != "children"@,
        "fills"@ != "strokes"@,
        "fills"@ != "effects"@,
        "fills"@ != "id"@,
        "fills"@ != "name"@,
        "fills"@ != "type"@,
        "fills"@ != "boldWeight"@,
        "fills"@ != "strokeWeight"@,
        "fills"@ != "strokeDashes"@,
        "fills"@ != "strokeAlign"@,
        "fills"@ != "opacity"@,
        "fills"@ != "borderRadius"@,
        "fills"@ != "componentId"@,
        "fills"@ != "componentProperties"@,
        "fills"@ != "componentPropertyReferences"@,
        "fills"@ != "children"@,
        "strokes"@ != "effects"@,
        "strokes"@ != "id"@,
        "strokes"@ != "name"@,
        "strokes"@ != "type"@,
        "strokes"@ != "boldWeight"@,
        "strokes"@ != "strokeWeight"@,
        "strokes"@ != "strokeDashes"@,
        "strokes"@ != "strokeAlign"@,
        "strokes"@ != "opacity"@,
        "strokes"@ != "borderRadius"@,
        "strokes"@ != "componentId"@,
        "strokes"@ != "componentProperties"@,
        "strokes"@ != "componentPropertyReferences"@,
        "strokes"@ != "children"@,
        "effects"@ != "id"@,
        "effects"@ != "name"@,
        "effects"@ != "type"@,
        "effects"@ != "boldWeight"@,
        "effects"@ != "strokeWeight"@,
        "effects"@ != "strokeDashes"@,
        "effects"@ != "strokeAlign"@,
        "effects"@ != "opacity"@,
        "effects"@ != "borderRadius"@,
        "effects"@ != "componentId"@,
        "effects"@ != "componentProperties"@,
        "effects"@ != "componentPropertyReferences"@,
        "effects"@ != "children"@,
{
    reveal_strlit("layout");
    reveal_strlit("text");
    reveal_strlit("textStyle");
    reveal_strlit("fills");
    reveal_strlit("strokes");
    reveal_strlit("effects");
    reveal_strlit("id");
    reveal_strlit("name");
    reveal_strlit("type");
    reveal_strlit("boldWeight");
    reveal_strlit("strokeWeight");
    reveal_strlit("strokeDashes");
    reveal_strlit("strokeAlign");
    reveal_strlit("opacity");
    reveal_strlit("borderRadius");
    reveal_strlit("componentId");
    reveal_strlit("componentProperties");
    reveal_strlit("componentPropertyReferences");
    reveal_strlit("children");
    assert("layout"@.len() == 6 && "text"@.len() == 4 && "textStyle"@.len() == 9);
    assert("fills"@.len() == 5 && "strokes"@.len() == 7 && "effects"@.len() == 7);
    assert("id"@.len() == 2 && "name"@.len() == 4 && "type"@.len() == 4);
    assert("boldWeight"@.len() == 10 && "strokeWeight"@.len() == 12 && "strokeDashes"@.len() == 12);
    assert("strokeAlign"@.len() == 11 && "opacity"@.len() == 7 && "borderRadius"@.len() == 12);
    assert("componentId"@.len() == 11 && "componentProperties"@.len() == 19 && "componentPropertyReferences"@.len() == 27);
    assert("children"@.len() == 8 && "effects"@[0] == 'e' && "name"@[0] == 'n');
    assert("opacity"@[0] == 'o' && "strokes"@[0] == 's' && "text"@[0] == 't');
    assert("text"@[1] == 'e' && "type"@[1] == 'y');
}

proof fn lemma_puts()
    ensures
        forall|o: Fields, k: Seq<char>, x: Seq<char>, v: Json|
            #![trigger get(put(o, x, v), k)]
            get(put(o, x, v), k) == if x == k {
                Some(v)
            } else {
                get(o, k)
            },
{
    assert forall|o: Fields, k: Seq<char>, x: Seq<char>, v: Json|
        #![trigger get(put(o, x, v), k)]
        get(put(o, x, v), k) == if x == k {
            Some(v)
        } else {
            get(o, k)
        } by {
        get_after_put(o, x, v, k);
    }
}

/// Whether a field of a node refers to a style, and the style is `value`.
pub open spec fn refers_to(t: Step, key: Seq<char>, value: Json) -> bool {
    get(t.fields, key) matches Some(Json::Str(id)) && get(t.state.styles, id) == Some(value)
}

/// Whether a style is not registered yet.
pub open spec fn is_new(s: State, value: Json) -> bool {
    id_for(s.cache, stable_text(value)) is None
}

proof fn lemma_named_refers(t: Step, node: Json, key: Seq<char>, value: Json, keys: Seq<Seq<char>>, prefix: Seq<char>)
    ensures
        node_style(node, keys) is Some || is_new(t.state, value) ==> refers_to(
            with_named(t, node, key, value, keys, prefix),
            key,
            value,
        ),
{
    let id = style_id(t.state, node, value, keys, prefix);
    get_after_put(t.fields, key, Json::Str(id), key);
    get_after_put(t.state.styles, id, value, id);
    registered_once(t.state.styles, t.state.cache, value, prefix, prefix);
}

/// A node refers to its layout in its parent.
pub proof fn nodes_refer_to_their_layout(t: Step, node: Json, parent: Option<Json>)
    requires
        layout(node, parent).len() > 1,
        is_new(t.state, Json::Obj(layout(node, parent))),
    ensures
        refers_to(layout_step(t, node, parent), "layout"@, Json::Obj(layout(node, parent))),
{
    let value = Json::Obj(layout(node, parent));
    let id = crate::simplify::registry::var_id(t.state.styles, t.state.cache, value, "layout"@);
    get_after_put(t.fields, "layout"@, Json::Str(id), "layout"@);
    registered_once(t.state.styles, t.state.cache, value, "layout"@, "layout"@);
}

/// A node refers to its fills.
pub proof fn nodes_refer_to_their_fills(t: Step, node: Json, a: Seq<Json>)
    requires
        arr_field(node, "fills"@) == Some(a),
        a.len() > 0,
        is_new(t.state, node_fills(a, t.state, has_kids(node))),
    ensures
        refers_to(fills_step(t, node), "fills"@, node_fills(a, t.state, has_kids(node))),
{
    lemma_named_refers(
        t,
        node,
        "fills"@,
        node_fills(a, t.state, has_kids(node)),
        seq!["fill"@, "fills"@],
        "fill"@,
    );
}

/// A node refers to the paints of its strokes that are not switched off, from the top
/// to the bottom.
pub proof fn nodes_refer_to_their_strokes(t: Step, node: Json, a: Seq<Json>)
    requires
        arr_field(node, "strokes"@) == Some(a),
        visible_paints(a).len() > 0,
        is_new(t.state, Json::Arr(fills_of(visible_paints(a), has_kids(node), t.state.turns))),
    ensures
        refers_to(
            strokes_step(t, node),
            "strokes"@,
            Json::Arr(fills_of(visible_paints(a), has_kids(node), t.state.turns)),
        ),
{
    lemma_words();
    lemma_puts();
    lemma_named_refers(
        t,
        node,
        "strokes"@,
        Json::Arr(fills_of(visible_paints(a), has_kids(node), t.state.turns)),
        seq!["stroke"@, "strokes"@],
        "fill"@,
    );
}

/// A node refers to its effects.
pub proof fn nodes_refer_to_their_effects(t: Step, node: Json)
    requires
        effects(node).len() > 0,
        is_new(t.state, Json::Obj(effects(node))),
    ensures
        refers_to(effects_step(t, node), "effects"@, Json::Obj(effects(node))),
{
    lemma_named_refers(
        t,
        node,
        "effects"@,
        Json::Obj(effects(node)),
        seq!["effect"@, "effects"@],
        "effect"@,
    );
}

/// A text refers to its style.
pub proof fn texts_refer_to_their_style(t: Step, node: Json, style: Json)
    requires
        text_style(node) == Some(style),
        styled(node),
        is_new(characters_step(t, node).state, style),
    ensures
        refers_to(text_step(t, node), "textStyle"@, style),
{
    lemma_named_refers(
        characters_step(t, node),
        node,
        "textStyle"@,
        style,
        seq!["text"@, "typography"@],
        "style"@,
    );
}

/// Fills that a node takes from a style of the file go by the name of the style.
pub proof fn named_fills_keep_their_name(t: Step, node: Json, styles: Fields, id: Seq<char>, name: Seq<char>)
    requires
        field(node, "styles"@) == Some(Json::Obj(styles)),
        as_str(get(styles, "fill"@)) == Some(id) || (as_str(get(styles, "fill"@)) is None && as_str(get(styles, "fills"@)) == Some(id)),
        get(t.state.extra, id) matches Some(x) && str_field(x, "name"@) == Some(name),
        get(t.state.styles, name) is None,
        arr_field(node, "fills"@) matches Some(a) && a.len() > 0,
    ensures
        get(fills_step(t, node).fields, "fills"@) == Some(Json::Str(name)),
        fills_step(t, node).state.named.contains(name),
{
    lemma_words();
    lemma_puts();
    let keys = seq!["fill"@, "fills"@];
    styles_are_found(node, styles, "fill"@, "fills"@, id);
    named_styles_keep_their_names(t.state, node, node_fills(arr_field(node, "fills"@)->0, t.state, has_kids(node)), keys, "fill"@, id, name);
}

/// Strokes that a node takes from a style of the file go by the name of the style.
pub proof fn named_strokes_keep_their_name(t: Step, node: Json, styles: Fields, id: Seq<char>, name: Seq<char>)
    requires
        field(node, "styles"@) == Some(Json::Obj(styles)),
        as_str(get(styles, "stroke"@)) == Some(id) || (as_str(get(styles, "stroke"@)) is None && as_str(get(styles, "strokes"@)) == Some(id)),
        get(t.state.extra, id) matches Some(x) && str_field(x, "name"@) == Some(name),
        get(t.state.styles, name) is None,
        arr_field(node, "strokes"@) matches Some(a) && visible_paints(a).len() > 0,
    ensures
        get(strokes_step(t, node).fields, "strokes"@) == Some(Json::Str(name)),
        strokes_step(t, node).state.named.contains(name),
{
    lemma_words();
    lemma_puts();
    let keys = seq!["stroke"@, "strokes"@];
    styles_are_found(node, styles, "stroke"@, "strokes"@, id);
    named_styles_keep_their_names(t.state, node, Json::Arr(stroke_colors(node, has_kids(node), t.state.turns)), keys, "fill"@, id, name);
}

/// Effects that a node takes from a style of the file go by the name of the style.
pub proof fn named_effects_keep_their_name(t: Step, node: Json, styles: Fields, id: Seq<char>, name: Seq<char>)
    requires
        field(node, "styles"@) == Some(Json::Obj(styles)),
        as_str(get(styles, "effect"@)) == Some(id) || (as_str(get(styles, "effect"@)) is None && as_str(get(styles, "effects"@)) == Some(id)),
        get(t.state.extra, id) matches Some(x) && str_field(x, "name"@) == Some(name),
        get(t.state.styles, name) is None,
        effects(node).len() > 0,
    ensures
        get(effects_step(t, node).fields, "effects"@) == Some(Json::Str(name)),
        effects_step(t, node).state.named.contains(name),
{
    lemma_words();
    lemma_puts();
    let keys = seq!["effect"@, "effects"@];
    styles_are_found(node, styles, "effect"@, "effects"@, id);
    named_styles_keep_their_names(t.state, node, Json::Obj(effects(node)), keys, "effect"@, id, name);
}

// ---------------------------------------------------------------------------
// Nodes
// ---------------------------------------------------------------------------

/// Whether a field of a node is a reference.
pub open spec fn is_reference(o: Fields, key: Seq<char>) -> bool {
    get(o, key) matches Some(Json::Str(_))
}

/// A node has a reference for each kind of style that it shows, and its text.
pub proof fn nodes_tell_their_styles(node: Json, parent: Option<Json>, s: State)
    ensures
        ({
            let o = own_step(node, parent, s).fields;
            &&& layout(node, parent).len() > 1 ==> is_reference(o, "layout"@)
            &&& arr_field(node, "fills"@) matches Some(a) ==> a.len() > 0 ==> is_reference(o, "fills"@)
            &&& arr_field(node, "strokes"@) matches Some(a) ==> visible_paints(a).len() > 0 ==> is_reference(o, "strokes"@)
            &&& effects(node).len() > 0 ==> is_reference(o, "effects"@)
            &&& text_style(node) is Some && styled(node) ==> is_reference(o, "textStyle"@)
        }),
        ({
            let before = layout_step((Step { fields: Fields::empty(), state: s }), node, parent).state;
            field_is(node, "type"@, "TEXT"@) ==> (formatted(node, before).text matches Some(text) ==> text.len() > 0 ==> get(
                own_step(node, parent, s).fields,
                "text"@,
            ) == Some(Json::Str(text)))
        }),
{
    lemma_words();
    lemma_puts();
    reveal_strlit("");
    let a = put(Fields::empty(), "id"@, Json::Str(text_or(node, "id"@, "?"@)));
    let b = put(a, "name"@, Json::Str(text_or(node, "name"@, ""@)));
    let c = put(b, "type"@, Json::Str(shown_type(node)));
    let t0 = Step { fields: c, state: s };
    let t1 = layout_step(t0, node, parent);
    let t2 = characters_step(t1, node);
    let t3 = text_step(t1, node);
    let t4 = fills_step(t3, node);
    let t5 = strokes_step(t4, node);
    let t6 = effects_step(t5, node);
    let t7 = visuals_step(t3, node);
    let t8 = component_step(t7, node);
    assert(own_step(node, parent, s) == t8);
    let text = formatted(node, t1.state).text;
    assert(layout(node, parent).len() > 1 ==> is_reference(t1.fields, "layout"@));
    assert(get(t2.fields, "layout"@) == get(t1.fields, "layout"@));
    assert(get(t3.fields, "layout"@) == get(t2.fields, "layout"@) && get(t3.fields, "text"@) == get(t2.fields, "text"@));
    assert(get(t4.fields, "layout"@) == get(t3.fields, "layout"@) && get(t4.fields, "text"@) == get(t3.fields, "text"@)
        && get(t4.fields, "textStyle"@) == get(t3.fields, "textStyle"@));
    assert(get(t5.fields, "layout"@) == get(t4.fields, "layout"@) && get(t5.fields, "text"@) == get(t4.fields, "text"@)
        && get(t5.fields, "textStyle"@) == get(t4.fields, "textStyle"@) && get(t5.fields, "fills"@) == get(
        t4.fields,
        "fills"@,
    ));
    assert(get(t6.fields, "layout"@) == get(t5.fields, "layout"@) && get(t6.fields, "text"@) == get(t5.fields, "text"@)
        && get(t6.fields, "textStyle"@) == get(t5.fields, "textStyle"@) && get(t6.fields, "fills"@) == get(
        t5.fields,
        "fills"@,
    ) && get(t6.fields, "strokes"@) == get(t5.fields, "strokes"@));
    lemma_last_steps(t6, node, "layout"@);
    lemma_last_steps(t6, node, "text"@);
    lemma_last_steps(t6, node, "textStyle"@);
    lemma_last_steps(t6, node, "fills"@);
    lemma_last_steps(t6, node, "strokes"@);
    lemma_last_steps(t6, node, "effects"@);
    if let (Some(x), true) = (text, field_is(node, "type"@, "TEXT"@)) {
        if x.len() > 0 {
            assert(get(t2.fields, "text"@) == Some(Json::Str(x))) by {
                if field_is(node, "type"@, "TEXT"@) {
                    crate::simplify::told::texts_are_told(node, t1, x);
                }
            }
        }
    }
}

proof fn lemma_last_steps(t: Step, node: Json, k: Seq<char>)
    requires
        k == "layout"@ || k == "text"@ || k == "textStyle"@ || k == "fills"@ || k == "strokes"@ || k == "effects"@,
    ensures
        ({
            let b = put_some(t.fields, "opacity"@, crate::simplify::walk::opacity(node));
            let v = Step {
                fields: put_some(
                    b,
                    "borderRadius"@,
                    crate::json::text_json(crate::simplify::walk::border_radius(node)),
                ),
                ..t
            };
            get(component_step(v, node).fields, k) == get(t.fields, k)
        }),
{
    lemma_words();
    lemma_puts();
}

// ---------------------------------------------------------------------------
// Children
// ---------------------------------------------------------------------------

proof fn lemma_kids_are_walked(
    kids: Seq<Json>,
    order: Seq<int>,
    n: nat,
    node: Json,
    inside: bool,
    levels: Option<nat>,
    s: State,
)
    requires
        n <= kids.len(),
        order.len() == kids.len(),
        forall|i: int| 0 <= i < kids.len() ==> order[i] == i,
        forall|i: int| 0 <= i < kids.len() ==> is_node(#[trigger] kids[i]),
    ensures
        ({
            let done = walked_kids(kids, order, n, node, inside, levels, s).0;
            &&& done.len() == n
            &&& forall|i: int|
                0 <= i < n ==> is_walked(#[trigger] done[i], kids[i], node, inside, levels)
        }),
    decreases n,
{
    if n > 0 {
        let (before, state) = walked_kids(kids, order, (n - 1) as nat, node, inside, levels, s);
        lemma_kids_are_walked(kids, order, (n - 1) as nat, node, inside, levels, s);
        assert(order[n - 1] == n - 1);
        assert(is_node(kids[n - 1]));
        let f = walked(kids[n - 1], Some(node), inside, levels, state).0->0;
        assert(is_walked(Json::Obj(f), kids[n - 1], node, inside, levels));
    }
}

/// Whether a node is what a raw child becomes in its parent.
pub open spec fn is_walked(done: Json, kid: Json, node: Json, inside: bool, levels: Option<nat>) -> bool {
    exists|state: State| #[trigger] walked(kid, Some(node), inside, levels, state).0 matches Some(f) && done == Json::Obj(f)
}

/// Whether the children of a node are inside a component: those of a component are,
/// those of an instance are not, and others are where the node is.
pub open spec fn within(node: Json, inside: bool) -> bool {
    if field_is(node, "type"@, "COMPONENT"@) || field_is(node, "type"@, "COMPONENT_SET"@) {
        true
    } else {
        !field_is(node, "type"@, "INSTANCE"@) && inside
    }
}

/// The children of a node are walked with the node as their parent.
pub proof fn children_are_walked_in_their_parent(
    node: Json,
    parent: Option<Json>,
    inside: bool,
    s: State,
    kids: Seq<Json>,
    done: Seq<Json>,
)
    requires
        field(node, "visible"@) != Some(Json::Bool(false)),
        arr_field(node, "children"@) == Some(kids),
        kids.len() > 0,
        forall|i: int| 0 <= i < kids.len() ==> is_node(#[trigger] kids[i]),
        !field_is(node, "layoutMode"@, "GRID"@),
        walked(node, parent, inside, None, s).0 matches Some(f) && get(f, "children"@) == Some(Json::Arr(done)),
    ensures
        done.len() == kids.len(),
        forall|i: int| 0 <= i < kids.len() ==> is_walked(#[trigger] done[i], kids[i], node, within(node, inside), None),
{
    crate::simplify::depth::lemma_own_childless(node, parent, s);
    lemma_children_smaller(node);
    lemma_words();
    reveal_strlit("children");
    reveal_strlit("type");
    assert("children"@.len() == 8 && "type"@.len() == 4);
    let t = own_step(node, parent, s);
    let order = shown_order(node, kids);
    let inner = inside_of(node, inside);
    let all = walked_kids(kids, order, kids.len(), node, inner, None, t.state).0;
    lemma_kids_are_walked(kids, order, kids.len(), node, inner, None, t.state);
    get_after_put(t.fields, "type"@, Json::Str("IMAGE-SVG"@), "children"@);
    get_after_put(t.fields, "children"@, Json::Arr(all), "children"@);
    assert(inner == within(node, inside));
}

/// A hidden node inside a component is shown where a property of the component can
/// show it, and else left out.
pub proof fn switched_nodes_are_shown(node: Json, parent: Option<Json>, levels: Option<nat>, s: State, refs: Fields, i: int)
    requires
        field(node, "visible"@) == Some(Json::Bool(false)),
        obj_field(node, "componentPropertyReferences"@) == Some(refs),
    ensures
        0 <= i < refs.len() && refs[i].0 == "visible"@ ==> walked(node, parent, true, levels, s).0 is Some,
        (forall|j: int| 0 <= j < refs.len() ==> (#[trigger] refs[j]).0 != "visible"@) ==> walked(
            node,
            parent,
            true,
            levels,
            s,
        ).0 is None,
{
    lemma_key_from(refs, "visible"@, 0);
    if 0 <= i < refs.len() && refs[i].0 == "visible"@ {
        assert(key_from(refs, "visible"@, 0) is Some) by {
            if key_from(refs, "visible"@, 0) is None {
                assert(refs[i].0 != "visible"@);
            }
        }
    }
}

} // verus!
