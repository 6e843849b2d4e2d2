//! How deep a design goes: no deeper than asked for, through the walk and
//! through the last pass.

use vstd::prelude::*;

use crate::json::{
    arr_field, field, field_is, get, get_after_put, obj_field, put, put_some, str_field, text_json, Fields, Json,
};
use crate::simplify::component::{properties, references};
use crate::simplify::design::{simplified, source, walked_roots};
use crate::simplify::effects::effects;
use crate::simplify::finalize::{
    bodies_upto, elements_of, inlined, inlined_upto, no_bodies, ref_keys, refs_in, templated, templated_upto,
    with_moved,
};
use crate::simplify::gradient::Turns;
use crate::simplify::layout::layout;
use crate::simplify::registry::{fresh, style_id, var_id, State};
use crate::simplify::rich_text::formatted;
use crate::simplify::sharing::reference_leads_to_its_body;
use crate::simplify::style::{stroke_align, stroke_colors, stroke_dashes, stroke_weight};
use crate::simplify::text::{non_empty, text_style};
use crate::simplify::walk::{
    below, border_radius, characters_step, component_step, effects_step, fills_step, has_kids, inside_of,
    instance_fields, int_json, layout_step, lemma_children_smaller, list_json, node_fills, non_empty_object, opacity,
    own_step, shown_order, shown_type, strokes_step, text_or, text_step, visuals_step, walked, walked_kids, with_named,
    Step,
};

verus! {

// ---------------------------------------------------------------------------
// Keys
// ---------------------------------------------------------------------------

/// A key of a node under which neither a style nor the children stand.
pub open spec fn plain(k: Seq<char>) -> bool {
    k != "layout"@ && k != "fills"@ && k != "strokes"@ && k != "effects"@ && k != "textStyle"@ && k != "children"@
}

/// The keys of what a node holds itself are plain, but for those of its styles.
pub proof fn lemma_plain_keys()
    ensures
        plain("id"@),
        plain("name"@),
        plain("type"@),
        plain("text"@),
        plain("boldWeight"@),
        plain("strokeWeight"@),
        plain("strokeDashes"@),
        plain("strokeAlign"@),
        plain("opacity"@),
        plain("borderRadius"@),
        plain("componentId"@),
        plain("componentProperties"@),
        plain("componentPropertyReferences"@),
        plain("template"@),
{
    reveal_strlit("layout");
    reveal_strlit("fills");
    reveal_strlit("strokes");
    reveal_strlit("effects");
    reveal_strlit("textStyle");
    reveal_strlit("children");
    reveal_strlit("id");
    reveal_strlit("name");
    reveal_strlit("type");
    reveal_strlit("text");
    reveal_strlit("boldWeight");
    reveal_strlit("strokeWeight");
    reveal_strlit("strokeDashes");
    reveal_strlit("strokeAlign");
    reveal_strlit("opacity");
    reveal_strlit("borderRadius");
    reveal_strlit("componentId");
    reveal_strlit("componentProperties");
    reveal_strlit("componentPropertyReferences");
    reveal_strlit("template");
    assert("layout"@.len() == 6 && "fills"@.len() == 5 && "strokes"@.len() == 7 && "effects"@.len() == 7 && "textStyle"@.len() == 9 && "children"@.len() == 8);
    assert("layout"@[0] == 'l' && "fills"@[0] == 'f' && "strokes"@[0] == 's' && "effects"@[0] == 'e' && "textStyle"@[0] == 't' && "children"@[0] == 'c');
    assert("id"@.len() == 2 && "name"@.len() == 4 && "type"@.len() == 4 && "text"@.len() == 4 && "boldWeight"@.len() == 10 && "strokeWeight"@.len() == 12 && "strokeDashes"@.len() == 12 && "strokeAlign"@.len() == 11 && "opacity"@.len() == 7 && "borderRadius"@.len() == 12 && "componentId"@.len() == 11 && "componentProperties"@.len() == 19 && "componentPropertyReferences"@.len() == 27 && "template"@.len() == 8);
    assert("id"@[0] == 'i' && "name"@[0] == 'n' && "type"@[0] == 't' && "text"@[0] == 't' && "boldWeight"@[0] == 'b' && "strokeWeight"@[0] == 's' && "strokeDashes"@[0] == 's' && "strokeAlign"@[0] == 's' && "opacity"@[0] == 'o' && "borderRadius"@[0] == 'b' && "componentId"@[0] == 'c' && "componentProperties"@[0] == 'c' && "componentPropertyReferences"@[0] == 'c' && "template"@[0] == 't');
}

/// The keys of the styles differ, and the children stand under none of them.
pub proof fn lemma_ref_keys()
    ensures
        forall|i: int, j: int| 0 <= i < j < 5 ==> (#[trigger] ref_keys()[i]) != (#[trigger] ref_keys()[j]),
        forall|i: int| 0 <= i < 5 ==> #[trigger] ref_keys()[i] != "children"@ && !plain(ref_keys()[i]),
{
    reveal_strlit("layout");
    reveal_strlit("fills");
    reveal_strlit("strokes");
    reveal_strlit("effects");
    reveal_strlit("textStyle");
    reveal_strlit("children");
    assert("layout"@.len() == 6 && "fills"@.len() == 5 && "strokes"@.len() == 7 && "effects"@.len() == 7 && "textStyle"@.len() == 9 && "children"@.len() == 8);
    assert("layout"@[0] == 'l' && "fills"@[0] == 'f' && "strokes"@[0] == 's' && "effects"@[0] == 'e' && "textStyle"@[0] == 't' && "children"@[0] == 'c');
    let keys = ref_keys();
    assert(keys[0] == "layout"@ && keys[1] == "fills"@ && keys[2] == "strokes"@ && keys[3] == "effects"@ && keys[4]
        == "textStyle"@);
    assert forall|i: int, j: int| 0 <= i < j < 5 implies (#[trigger] ref_keys()[i]) != (#[trigger] ref_keys()[j]) by {
        assert(keys[i].len() != keys[j].len() || keys[i][0] != keys[j][0]);
    }
    assert forall|i: int| 0 <= i < 5 implies #[trigger] ref_keys()[i] != "children"@ && !plain(ref_keys()[i]) by {
        assert(keys[i].len() != 8);
    }
}

// ---------------------------------------------------------------------------
// Levels
// ---------------------------------------------------------------------------

/// Whether at most `n` levels are below a node.
pub open spec fn within_levels(node: Json, n: nat) -> bool
    decreases node, 0nat,
{
    match arr_field(node, "children"@) {
        Some(kids) => {
            proof {
                lemma_children_smaller(node);
            }
            n > 0 && all_within(kids, kids.len(), (n - 1) as nat)
        },
        None => true,
    }
}

/// Whether at most `n` levels are below each of the first `len` nodes.
pub open spec fn all_within(nodes: Seq<Json>, len: nat, n: nat) -> bool
    decreases nodes, len,
{
    if len == 0 || len > nodes.len() {
        true
    } else {
        all_within(nodes, (len - 1) as nat, n) && within_levels(nodes[len - 1], n)
    }
}

proof fn lemma_all_within(nodes: Seq<Json>, len: nat, n: nat)
    requires
        len <= nodes.len(),
    ensures
        all_within(nodes, len, n) <==> forall|i: int| 0 <= i < len ==> within_levels(#[trigger] nodes[i], n),
    decreases len,
{
    if len > 0 {
        lemma_all_within(nodes, (len - 1) as nat, n);
    }
}

// ---------------------------------------------------------------------------
// The walk
// ---------------------------------------------------------------------------

/// A node in the making without children.
spec fn childless(t: Step) -> bool {
    get(t.fields, "children"@) is None
}

proof fn lemma_put_plain(o: Fields, k: Seq<char>, v: Option<Json>)
    requires
        k != "children"@,
    ensures
        get(put_some(o, k, v), "children"@) == get(o, "children"@),
        v matches Some(x) ==> get(put(o, k, x), "children"@) == get(o, "children"@),
{
    if let Some(x) = v {
        get_after_put(o, k, x, "children"@);
    }
}

proof fn lemma_named(t: Step, node: Json, key: Seq<char>, value: Json, keys: Seq<Seq<char>>, prefix: Seq<char>)
    requires
        childless(t),
        key != "children"@,
    ensures
        childless(with_named(t, node, key, value, keys, prefix)),
{
    lemma_put_plain(
        t.fields,
        key,
        Some(Json::Str(style_id(t.state, node, value, keys, prefix))),
    );
}

proof fn lemma_texts_childless(t: Step, node: Json)
    requires
        childless(t),
    ensures
        childless(text_step(t, node)),
{
    lemma_plain_keys();
    lemma_style_keys();
    let f = formatted(node, t.state);
    let a = put_some(t.fields, "text"@, text_json(non_empty(f.text)));
    lemma_put_plain(t.fields, "text"@, text_json(non_empty(f.text)));
    lemma_put_plain(a, "boldWeight"@, int_json(f.bold));
    assert(childless(characters_step(t, node)));
    if let Some(style) = text_style(node) {
        lemma_named(
            characters_step(t, node),
            node,
            "textStyle"@,
            style,
            seq!["text"@, "typography"@],
            "style"@,
        );
    }
}

proof fn lemma_strokes_childless(t: Step, node: Json)
    requires
        childless(t),
    ensures
        childless(strokes_step(t, node)),
{
    lemma_plain_keys();
    lemma_style_keys();
    let colors = stroke_colors(node, has_kids(node), t.state.turns);
    let keys = seq!["stroke"@, "strokes"@];
    lemma_named(t, node, "strokes"@, Json::Arr(colors), keys, "fill"@);
    let a = with_named(t, node, "strokes"@, Json::Arr(colors), keys, "fill"@);
    let b = put_some(a.fields, "strokeWeight"@, text_json(stroke_weight(node)));
    let c = put_some(b, "strokeDashes"@, list_json(stroke_dashes(node)));
    lemma_put_plain(a.fields, "strokeWeight"@, text_json(stroke_weight(node)));
    lemma_put_plain(b, "strokeDashes"@, list_json(stroke_dashes(node)));
    lemma_put_plain(c, "strokeAlign"@, text_json(stroke_align(node)));
}

proof fn lemma_visuals_childless(t: Step, node: Json)
    requires
        childless(t),
    ensures
        childless(visuals_step(t, node)),
{
    lemma_plain_keys();
    lemma_style_keys();
    if let Some(a) = arr_field(node, "fills"@) {
        lemma_named(
            t,
            node,
            "fills"@,
            node_fills(a, t.state, has_kids(node)),
            seq!["fill"@, "fills"@],
            "fill"@,
        );
    }
    let f = fills_step(t, node);
    assert(childless(f));
    lemma_strokes_childless(f, node);
    let k = strokes_step(f, node);
    lemma_named(k, node, "effects"@, Json::Obj(effects(node)), seq!["effect"@, "effects"@], "effect"@);
    let a = effects_step(k, node);
    assert(childless(a));
    let b = put_some(a.fields, "opacity"@, opacity(node));
    lemma_put_plain(a.fields, "opacity"@, opacity(node));
    lemma_put_plain(b, "borderRadius"@, text_json(border_radius(node)));
}

proof fn lemma_component_childless(t: Step, node: Json)
    requires
        childless(t),
    ensures
        childless(component_step(t, node)),
{
    lemma_plain_keys();
    let id = text_json(str_field(node, "componentId"@));
    let a = put_some(t.fields, "componentId"@, id);
    lemma_put_plain(t.fields, "componentId"@, id);
    if let Some(p) = obj_field(node, "componentProperties"@) {
        lemma_put_plain(a, "componentProperties"@, non_empty_object(properties(p, p.len())));
    }
    let b = if field_is(node, "type"@, "INSTANCE"@) {
        instance_fields(t.fields, node)
    } else {
        t.fields
    };
    assert(get(b, "children"@) is None);
    if let Some(p) = obj_field(node, "componentPropertyReferences"@) {
        lemma_put_plain(b, "componentPropertyReferences"@, non_empty_object(references(p, p.len())));
    }
}

/// What a node holds itself are no children.
pub proof fn lemma_own_childless(node: Json, parent: Option<Json>, s: State)
    ensures
        get(own_step(node, parent, s).fields, "children"@) is None,
{
    lemma_plain_keys();
    lemma_style_keys();
    let e = Fields::empty();
    let id = Json::Str(text_or(node, "id"@, "?"@));
    let name = Json::Str(text_or(node, "name"@, ""@));
    let a = put(e, "id"@, id);
    let b = put(a, "name"@, name);
    lemma_put_plain(e, "id"@, Some(id));
    lemma_put_plain(a, "name"@, Some(name));
    lemma_put_plain(b, "type"@, Some(Json::Str(shown_type(node))));
    let t = Step { fields: put(b, "type"@, Json::Str(shown_type(node))), state: s };
    assert(childless(t));
    let l = layout(node, parent);
    lemma_put_plain(t.fields, "layout"@, Some(Json::Str(var_id(s.styles, s.cache, Json::Obj(l), "layout"@))));
    let u = layout_step(t, node, parent);
    assert(childless(u));
    lemma_texts_childless(u, node);
    lemma_visuals_childless(text_step(u, node), node);
    lemma_component_childless(visuals_step(text_step(u, node), node), node);
}

proof fn lemma_style_keys()
    ensures
        "layout"@ != "children"@,
        "fills"@ != "children"@,
        "strokes"@ != "children"@,
        "effects"@ != "children"@,
        "textStyle"@ != "children"@,
{
    lemma_ref_keys();
    let keys = ref_keys();
    assert(keys[0] == "layout"@ && keys[1] == "fills"@ && keys[2] == "strokes"@ && keys[3] == "effects"@ && keys[4]
        == "textStyle"@);
}

/// No node that the walk makes is deeper than the levels that are asked for.
pub proof fn walk_keeps_to_its_levels(node: Json, parent: Option<Json>, inside: bool, n: nat, s: State)
    ensures
        walked(node, parent, inside, Some(n), s).0 matches Some(f) ==> within_levels(Json::Obj(f), n),
    decreases node, 0nat,
{
    lemma_own_childless(node, parent, s);
    let t = own_step(node, parent, s);
    if let Some(kids) = arr_field(node, "children"@) {
        if n > 0 && kids.len() > 0 {
            lemma_children_smaller(node);
            let order = shown_order(node, kids);
            let inner = inside_of(node, inside);
            let done = walked_kids(kids, order, kids.len(), node, inner, Some((n - 1) as nat), t.state).0;
            lemma_kids_within(kids, order, kids.len(), node, inner, (n - 1) as nat, t.state);
            lemma_plain_keys();
            get_after_put(t.fields, "type"@, Json::Str("IMAGE-SVG"@), "children"@);
            get_after_put(t.fields, "children"@, Json::Arr(done), "children"@);
            assert(below(Some(n)) == Some((n - 1) as nat));
        }
    }
}

proof fn lemma_kids_within(
    kids: Seq<Json>,
    order: Seq<int>,
    len: nat,
    node: Json,
    inside: bool,
    n: nat,
    s: State,
)
    ensures
        ({
            let done = walked_kids(kids, order, len, node, inside, Some(n), s).0;
            all_within(done, done.len(), n)
        }),
    decreases kids, len,
{
    let done = walked_kids(kids, order, len, node, inside, Some(n), s).0;
    if len > 0 {
        let (before, state) = walked_kids(kids, order, (len - 1) as nat, node, inside, Some(n), s);
        lemma_kids_within(kids, order, (len - 1) as nat, node, inside, n, s);
        let i = order[len - 1];
        if 0 <= i < kids.len() {
            assert(decreases_to!(kids => kids[i]));
            walk_keeps_to_its_levels(kids[i], Some(node), inside, n, state);
            lemma_push_within(before, n);
        }
    }
    lemma_all_within(done, done.len(), n);
}

/// One more node.
proof fn lemma_push_within(nodes: Seq<Json>, n: nat)
    requires
        all_within(nodes, nodes.len(), n),
    ensures
        forall|x: Json| within_levels(x, n) ==> all_within(#[trigger] nodes.push(x), nodes.len() + 1, n),
{
    lemma_all_within(nodes, nodes.len(), n);
    assert forall|x: Json| within_levels(x, n) implies all_within(#[trigger] nodes.push(x), nodes.len() + 1, n) by {
        let more = nodes.push(x);
        assert forall|i: int| 0 <= i < nodes.len() + 1 implies within_levels(#[trigger] more[i], n) by {
            if i < nodes.len() {
                assert(more[i] == nodes[i]);
            }
        }
        lemma_all_within(more, nodes.len() + 1, n);
    }
}

// ---------------------------------------------------------------------------
// The last pass
// ---------------------------------------------------------------------------

/// The styles that move leave the children of a node as they are.
pub proof fn lemma_moved_children(o: Fields, styles: Fields, named: Seq<Seq<char>>, refs: Seq<Seq<char>>, n: nat)
    requires
        n <= 5,
    ensures
        get(with_moved(o, styles, named, refs, n), "children"@) == get(o, "children"@),
    decreases n,
{
    if n > 0 {
        let before = with_moved(o, styles, named, refs, (n - 1) as nat);
        lemma_moved_children(o, styles, named, refs, (n - 1) as nat);
        lemma_ref_keys();
        let k = ref_keys()[n - 1];
        if let Some(Json::Str(id)) = get(before, k) {
            lemma_put_plain(before, k, get(styles, id));
        }
    }
}

proof fn lemma_inlined_within(node: Json, styles: Fields, named: Seq<Seq<char>>, refs: Seq<Seq<char>>, n: nat)
    requires
        within_levels(node, n),
    ensures
        within_levels(inlined(node, styles, named, refs), n),
    decreases node, 0nat,
{
    if let Json::Obj(o) = node {
        match arr_field(node, "children"@) {
            Some(kids) => {
                lemma_children_smaller(node);
                let done = inlined_upto(kids, styles, named, refs, kids.len());
                lemma_list_inlined_within(kids, styles, named, refs, kids.len(), (n - 1) as nat);
                get_after_put(o, "children"@, Json::Arr(done), "children"@);
                lemma_moved_children(put(o, "children"@, Json::Arr(done)), styles, named, refs, 5);
            },
            None => {
                lemma_moved_children(o, styles, named, refs, 5);
            },
        }
    }
}

proof fn lemma_list_inlined_within(
    nodes: Seq<Json>,
    styles: Fields,
    named: Seq<Seq<char>>,
    refs: Seq<Seq<char>>,
    len: nat,
    n: nat,
)
    requires
        len <= nodes.len(),
        all_within(nodes, len, n),
    ensures
        inlined_upto(nodes, styles, named, refs, len).len() == len,
        all_within(inlined_upto(nodes, styles, named, refs, len), len, n),
    decreases nodes, len,
{
    if len > 0 {
        lemma_list_inlined_within(nodes, styles, named, refs, (len - 1) as nat, n);
        assert(decreases_to!(nodes => nodes[len - 1]));
        lemma_inlined_within(nodes[len - 1], styles, named, refs, n);
        lemma_push_within(inlined_upto(nodes, styles, named, refs, (len - 1) as nat), n);
    }
}

proof fn lemma_templated_within(node: Json, elements: Fields, n: nat)
    requires
        within_levels(node, n),
    ensures
        within_levels(templated(node, elements), n),
    decreases node, 0nat,
{
    if let Json::Obj(o) = node {
        match arr_field(node, "children"@) {
            Some(kids) => {
                lemma_children_smaller(node);
                let done = templated_upto(kids, elements, kids.len());
                lemma_list_templated_within(kids, elements, kids.len(), (n - 1) as nat);
                get_after_put(o, "children"@, Json::Arr(done), "children"@);
                reference_leads_to_its_body(put(o, "children"@, Json::Arr(done)), elements);
            },
            None => {
                reference_leads_to_its_body(o, elements);
            },
        }
    }
}

proof fn lemma_list_templated_within(nodes: Seq<Json>, elements: Fields, len: nat, n: nat)
    requires
        len <= nodes.len(),
        all_within(nodes, len, n),
    ensures
        templated_upto(nodes, elements, len).len() == len,
        all_within(templated_upto(nodes, elements, len), len, n),
    decreases nodes, len,
{
    if len > 0 {
        lemma_list_templated_within(nodes, elements, (len - 1) as nat, n);
        assert(decreases_to!(nodes => nodes[len - 1]));
        lemma_templated_within(nodes[len - 1], elements, n);
        lemma_push_within(templated_upto(nodes, elements, (len - 1) as nat), n);
    }
}

proof fn lemma_roots_within(raw: Seq<Json>, n: nat, s: State, len: nat)
    ensures
        ({
            let done = walked_roots(raw, Some(n), s, len).0;
            all_within(done, done.len(), n)
        }),
    decreases len,
{
    if len > 0 {
        let (before, state) = walked_roots(raw, Some(n), s, (len - 1) as nat);
        lemma_roots_within(raw, n, s, (len - 1) as nat);
        walk_keeps_to_its_levels(raw[len - 1], None, false, n, state);
        lemma_push_within(before, n);
    }
}

/// No design is deeper than the levels that are asked for.
pub proof fn design_keeps_to_its_levels(body: Json, n: nat, turns: Turns)
    ensures
        simplified(body, Some(n), turns) matches Ok(d) ==> all_within(d.nodes, d.nodes.len(), n),
{
    if let Ok(src) = source(body) {
        let start = fresh(src.styles, turns);
        let (nodes, s) = walked_roots(src.nodes, Some(n), start, src.nodes.len());
        let refs = refs_in(nodes, nodes.len());
        let moved = inlined_upto(nodes, s.styles, s.named, refs, nodes.len());
        let bodies = bodies_upto(no_bodies(), moved, moved.len());
        lemma_roots_within(src.nodes, n, start, src.nodes.len());
        lemma_list_inlined_within(nodes, s.styles, s.named, refs, nodes.len(), n);
        lemma_list_templated_within(moved, elements_of(bodies), moved.len(), n);
    }
}

/// Whether no node is more than `n` levels below a raw node.
pub open spec fn no_deeper(node: Json, n: nat) -> bool
    decreases node, 0nat,
{
    match arr_field(node, "children"@) {
        Some(kids) => {
            proof {
                lemma_children_smaller(node);
            }
            kids.len() == 0 || (n > 0 && none_deeper(kids, kids.len(), (n - 1) as nat))
        },
        None => true,
    }
}

/// Whether no node is more than `n` levels below one of the first `len` raw
/// nodes.
pub open spec fn none_deeper(nodes: Seq<Json>, len: nat, n: nat) -> bool
    decreases nodes, len,
{
    len == 0 || len > nodes.len() || (none_deeper(nodes, (len - 1) as nat, n) && no_deeper(nodes[len - 1], n))
}

proof fn lemma_none_deeper(nodes: Seq<Json>, len: nat, n: nat, i: int)
    requires
        none_deeper(nodes, len, n),
        0 <= i < len <= nodes.len(),
    ensures
        no_deeper(nodes[i], n),
    decreases len,
{
    if i < len - 1 {
        lemma_none_deeper(nodes, (len - 1) as nat, n, i);
    }
}

/// A walk that is allowed as many levels as there are is the walk without a
/// limit.
pub proof fn enough_levels_are_no_limit(node: Json, parent: Option<Json>, inside: bool, n: nat, s: State)
    requires
        no_deeper(node, n),
    ensures
        walked(node, parent, inside, Some(n), s) == walked(node, parent, inside, None, s),
    decreases node, 0nat,
{
    if let Some(kids) = arr_field(node, "children"@) {
        if kids.len() > 0 {
            lemma_children_smaller(node);
            let t = own_step(node, parent, s);
            let order = shown_order(node, kids);
            lemma_kids_unlimited(kids, order, kids.len(), node, inside_of(node, inside), (n - 1) as nat, t.state);
            assert(below(Some(n)) == Some((n - 1) as nat));
            assert(below(None) == None::<nat>);
        }
    }
}

proof fn lemma_kids_unlimited(
    kids: Seq<Json>,
    order: Seq<int>,
    len: nat,
    node: Json,
    inside: bool,
    n: nat,
    s: State,
)
    requires
        none_deeper(kids, kids.len(), n),
    ensures
        walked_kids(kids, order, len, node, inside, Some(n), s) == walked_kids(kids, order, len, node, inside, None, s),
    decreases kids, len,
{
    if len > 0 {
        lemma_kids_unlimited(kids, order, (len - 1) as nat, node, inside, n, s);
        let state = walked_kids(kids, order, (len - 1) as nat, node, inside, Some(n), s).1;
        let i = order[len - 1];
        if 0 <= i < kids.len() {
            assert(decreases_to!(kids => kids[i]));
            lemma_none_deeper(kids, kids.len(), n, i);
            enough_levels_are_no_limit(kids[i], Some(node), inside, n, state);
        }
    }
}

proof fn lemma_roots_unlimited(raw: Seq<Json>, n: nat, s: State, len: nat)
    requires
        none_deeper(raw, raw.len(), n),
        len <= raw.len(),
    ensures
        walked_roots(raw, Some(n), s, len) == walked_roots(raw, None, s, len),
    decreases len,
{
    if len > 0 {
        lemma_roots_unlimited(raw, n, s, (len - 1) as nat);
        lemma_none_deeper(raw, raw.len(), n, len - 1);
        enough_levels_are_no_limit(raw[len - 1], None, false, n, walked_roots(raw, Some(n), s, (len - 1) as nat).1);
    }
}

/// A design of as many levels as the document has, or more, is the design
/// without a limit.
pub proof fn deep_enough_is_no_limit(body: Json, n: nat, turns: Turns)
    requires
        source(body) matches Ok(src) ==> none_deeper(src.nodes, src.nodes.len(), n),
    ensures
        simplified(body, Some(n), turns) == simplified(body, None, turns),
{
    if let Ok(src) = source(body) {
        lemma_roots_unlimited(src.nodes, n, fresh(src.styles, turns), src.nodes.len());
    }
}

/// A node that is hidden is left out, with what is below it, and leaves no
/// trace in the state.
pub proof fn hidden_nodes_are_left_out(node: Json, parent: Option<Json>, levels: Option<nat>, s: State)
    requires
        field(node, "visible"@) == Some(Json::Bool(false)),
    ensures
        walked(node, parent, false, levels, s) == (None::<Fields>, s),
{
}

} // verus!
