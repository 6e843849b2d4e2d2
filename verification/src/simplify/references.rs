//! References to styles: each one that the walk makes leads to a style, and
//! each one that the last pass leaves does so still.

use vstd::prelude::*;

use crate::json::{
    arr_field, field_is, get, get_after_put, has_key, key_from, lemma_key_from, obj_field, put, put_some, str_field, text_json,
    Fields, Json,
};
use crate::simplify::canonical::stable_text;
use crate::simplify::component::{properties, references};
use crate::simplify::depth::{lemma_moved_children, lemma_own_childless, lemma_plain_keys, lemma_ref_keys, plain};
use crate::simplify::design::walked_roots;
use crate::simplify::effects::effects;
use crate::simplify::finalize::{
    count, count_upto, goes, inlined, inlined_upto, listed, moves, node_refs, own_refs, ref_keys, refs_in, staying,
    with_moved,
};
use crate::simplify::layout::layout;
use crate::simplify::registry::{
    id_from, inline_id, style_id, var_cache, var_id, var_styles, with_inline, with_style, Ids, State,
};
use crate::simplify::rich_text::{after_lines, after_runs, formatted};
use crate::simplify::runs::{class, Basis, RunModel};
use crate::simplify::style::{stroke_align, stroke_colors, stroke_dashes, stroke_weight};
use crate::simplify::text::{non_empty, text_style};
use crate::simplify::walk::{
    below, border_radius, characters_step, component_step, effects_step, fills_step, has_kids, inside_of,
    instance_fields, int_json, layout_step, lemma_children_smaller, list_json, node_fills, non_empty_object, opacity,
    own_step, shown_order, shown_type, strokes_step, text_or, text_step, visuals_step, walked, walked_kids, with_named,
    Step,
};

verus! {

// ---------------------------------------------------------------------------
// Styles
// ---------------------------------------------------------------------------

/// No style is a text: a text in the place of a style is a reference.
pub open spec fn no_text(styles: Fields) -> bool {
    forall|i: int| 0 <= i < styles.len() ==> !((#[trigger] styles[i]).1 is Str)
}

/// Each id that was handed out leads to a style.
pub open spec fn ids_lead(ids: Ids, styles: Fields) -> bool {
    forall|i: int| 0 <= i < ids.len() ==> has_key(styles, (#[trigger] ids[i]).1)
}

/// The styles are styles, and the ids of the content lead to them.
pub open spec fn sound(s: State) -> bool {
    no_text(s.styles) && ids_lead(s.cache, s.styles)
}

/// No style goes.
pub open spec fn grows(a: Fields, b: Fields) -> bool {
    forall|k: Seq<char>| has_key(a, k) ==> #[trigger] has_key(b, k)
}

/// The reference that a node has under the key at `i` leads to a style.
pub open spec fn key_leads(o: Fields, styles: Fields, i: int) -> bool {
    match get(o, ref_keys()[i]) {
        Some(Json::Str(id)) => has_key(styles, id),
        _ => true,
    }
}

/// The references of a node lead to styles.
pub open spec fn leads(o: Fields, styles: Fields) -> bool {
    forall|i: int| 0 <= i < 5 ==> #[trigger] key_leads(o, styles, i)
}

/// The references of a node and of what is below it lead to styles.
pub open spec fn all_lead(node: Json, styles: Fields) -> bool
    decreases node, 0nat,
{
    match node {
        Json::Obj(o) => leads(o, styles) && match arr_field(node, "children"@) {
            Some(kids) => {
                proof {
                    lemma_children_smaller(node);
                }
                all_lead_in(kids, kids.len(), styles)
            },
            None => true,
        },
        _ => true,
    }
}

/// The references of the first `n` nodes and of what is below them lead to
/// styles.
pub open spec fn all_lead_in(nodes: Seq<Json>, n: nat, styles: Fields) -> bool
    decreases nodes, n,
{
    if n == 0 || n > nodes.len() {
        true
    } else {
        all_lead_in(nodes, (n - 1) as nat, styles) && all_lead(nodes[n - 1], styles)
    }
}

proof fn lemma_put_style(styles: Fields, k: Seq<char>, v: Json)
    requires
        no_text(styles),
        !(v is Str),
    ensures
        no_text(put(styles, k, v)),
        grows(styles, put(styles, k, v)),
        has_key(put(styles, k, v), k),
{
    lemma_key_from(styles, k, 0);
    let p = put(styles, k, v);
    assert forall|x: Seq<char>| has_key(styles, x) implies #[trigger] has_key(p, x) by {
        get_after_put(styles, k, v, x);
    }
    get_after_put(styles, k, v, k);
}

proof fn lemma_known_id(ids: Ids, text: Seq<char>, styles: Fields, i: int)
    requires
        ids_lead(ids, styles),
        0 <= i,
    ensures
        id_from(ids, text, i) matches Some(id) ==> has_key(styles, id),
    decreases ids.len() - i,
{
    if i < ids.len() {
        assert(has_key(styles, ids[i].1));
        lemma_known_id(ids, text, styles, i + 1);
    }
}

proof fn lemma_var(s: State, value: Json, prefix: Seq<char>)
    requires
        sound(s),
        !(value is Str),
    ensures
        ({
            let styles = var_styles(s.styles, s.cache, value, prefix);
            &&& no_text(styles)
            &&& ids_lead(var_cache(s.styles, s.cache, value, prefix), styles)
            &&& grows(s.styles, styles)
            &&& has_key(styles, var_id(s.styles, s.cache, value, prefix))
        }),
{
    let text = stable_text(value);
    let id = var_id(s.styles, s.cache, value, prefix);
    lemma_known_id(s.cache, text, s.styles, 0);
    lemma_put_style(s.styles, id, value);
}

proof fn lemma_style(s: State, node: Json, value: Json, keys: Seq<Seq<char>>, prefix: Seq<char>)
    requires
        sound(s),
        !(value is Str),
    ensures
        sound(with_style(s, node, value, keys, prefix)),
        grows(s.styles, with_style(s, node, value, keys, prefix).styles),
        has_key(with_style(s, node, value, keys, prefix).styles, style_id(s, node, value, keys, prefix)),
{
    lemma_var(s, value, prefix);
    lemma_put_style(s.styles, style_id(s, node, value, keys, prefix), value);
}

proof fn lemma_inline(s: State, delta: Json)
    requires
        sound(s),
        !(delta is Str),
    ensures
        sound(with_inline(s, delta)),
        grows(s.styles, with_inline(s, delta).styles),
{
    lemma_put_style(s.styles, inline_id(s, delta), delta);
}

proof fn lemma_runs(runs: Seq<RunModel>, b: Basis, s: State, n: nat)
    requires
        sound(s),
    ensures
        sound(after_runs(runs, b, s, n)),
        grows(s.styles, after_runs(runs, b, s, n).styles),
    decreases n,
{
    if n > 0 {
        let before = after_runs(runs, b, s, (n - 1) as nat);
        lemma_runs(runs, b, s, (n - 1) as nat);
        lemma_inline(before, Json::Obj(class(runs[n - 1].1, b).rest));
    }
}

proof fn lemma_lines(per_line: Seq<Seq<RunModel>>, b: Basis, s: State, n: nat)
    requires
        sound(s),
    ensures
        sound(after_lines(per_line, b, s, n)),
        grows(s.styles, after_lines(per_line, b, s, n).styles),
    decreases n,
{
    if n > 0 {
        let before = after_lines(per_line, b, s, (n - 1) as nat);
        lemma_lines(per_line, b, s, (n - 1) as nat);
        lemma_runs(per_line[n - 1], b, before, per_line[n - 1].len());
    }
}

proof fn lemma_formatted(node: Json, s: State)
    requires
        sound(s),
    ensures
        sound(formatted(node, s).state),
        grows(s.styles, formatted(node, s).state.styles),
{
    assert forall|per_line: Seq<Seq<RunModel>>, b: Basis, n: nat|
        sound(#[trigger] after_lines(per_line, b, s, n)) && grows(
            s.styles,
            after_lines(per_line, b, s, n).styles,
        ) by {
        lemma_lines(per_line, b, s, n);
    }
}

// ---------------------------------------------------------------------------
// Steps
// ---------------------------------------------------------------------------

/// A node in the making whose references lead to styles.
spec fn fine(t: Step) -> bool {
    sound(t.state) && leads(t.fields, t.state.styles)
}

/// A step that is fine and takes no style away.
spec fn follows(t: Step, u: Step) -> bool {
    fine(u) && grows(t.state.styles, u.state.styles)
}

proof fn lemma_leads_grow(o: Fields, a: Fields, b: Fields)
    requires
        leads(o, a),
        grows(a, b),
    ensures
        leads(o, b),
{
    assert forall|i: int| 0 <= i < 5 implies #[trigger] key_leads(o, b, i) by {
        assert(key_leads(o, a, i));
    }
}

/// Other fields leave the references of a node as they are.
pub proof fn lemma_put_plain(o: Fields, k: Seq<char>, v: Option<Json>, styles: Fields)
    requires
        plain(k) || k == "children"@,
        leads(o, styles),
    ensures
        leads(put_some(o, k, v), styles),
        v matches Some(x) ==> leads(put(o, k, x), styles),
{
    lemma_ref_keys();
    if let Some(x) = v {
        assert forall|i: int| 0 <= i < 5 implies #[trigger] key_leads(put(o, k, x), styles, i) by {
            assert(key_leads(o, styles, i));
            get_after_put(o, k, x, ref_keys()[i]);
        }
    }
}

proof fn lemma_put_reference(o: Fields, at: int, id: Seq<char>, styles: Fields)
    requires
        0 <= at < 5,
        leads(o, styles),
        has_key(styles, id),
    ensures
        leads(put(o, ref_keys()[at], Json::Str(id)), styles),
{
    assert forall|i: int| 0 <= i < 5 implies #[trigger] key_leads(
        put(o, ref_keys()[at], Json::Str(id)),
        styles,
        i,
    ) by {
        assert(key_leads(o, styles, i));
        get_after_put(o, ref_keys()[at], Json::Str(id), ref_keys()[i]);
    }
}

proof fn lemma_named(t: Step, node: Json, at: int, value: Json, keys: Seq<Seq<char>>, prefix: Seq<char>)
    requires
        0 <= at < 5,
        fine(t),
        !(value is Str),
    ensures
        follows(t, with_named(t, node, ref_keys()[at], value, keys, prefix)),
{
    let u = with_named(t, node, ref_keys()[at], value, keys, prefix);
    lemma_style(t.state, node, value, keys, prefix);
    lemma_leads_grow(t.fields, t.state.styles, u.state.styles);
    lemma_put_reference(t.fields, at, style_id(t.state, node, value, keys, prefix), u.state.styles);
}

proof fn lemma_key_places()
    ensures
        ref_keys()[0] == "layout"@,
        ref_keys()[1] == "fills"@,
        ref_keys()[2] == "strokes"@,
        ref_keys()[3] == "effects"@,
        ref_keys()[4] == "textStyle"@,
{
}

proof fn lemma_layout_follows(t: Step, node: Json, parent: Option<Json>)
    requires
        fine(t),
    ensures
        follows(t, layout_step(t, node, parent)),
{
    lemma_key_places();
    let l = Json::Obj(layout(node, parent));
    let u = layout_step(t, node, parent);
    lemma_var(t.state, l, "layout"@);
    if layout(node, parent).len() > 1 {
        lemma_leads_grow(t.fields, t.state.styles, u.state.styles);
        lemma_put_reference(t.fields, 0, var_id(t.state.styles, t.state.cache, l, "layout"@), u.state.styles);
    }
}

proof fn lemma_text_follows(t: Step, node: Json)
    requires
        fine(t),
    ensures
        follows(t, text_step(t, node)),
{
    lemma_key_places();
    lemma_plain_keys();
    let f = formatted(node, t.state);
    lemma_formatted(node, t.state);
    lemma_leads_grow(t.fields, t.state.styles, f.state.styles);
    let a = put_some(t.fields, "text"@, text_json(non_empty(f.text)));
    lemma_put_plain(t.fields, "text"@, text_json(non_empty(f.text)), f.state.styles);
    lemma_put_plain(a, "boldWeight"@, int_json(f.bold), f.state.styles);
    let c = characters_step(t, node);
    assert(follows(t, c));
    if let Some(style) = text_style(node) {
        lemma_named(c, node, 4, style, seq!["text"@, "typography"@], "style"@);
    }
}

proof fn lemma_fills_follow(t: Step, node: Json)
    requires
        fine(t),
    ensures
        follows(t, fills_step(t, node)),
{
    lemma_key_places();
    if let Some(a) = arr_field(node, "fills"@) {
        lemma_named(t, node, 1, node_fills(a, t.state, has_kids(node)), seq!["fill"@, "fills"@], "fill"@);
    }
}

proof fn lemma_strokes_follow(t: Step, node: Json)
    requires
        fine(t),
    ensures
        follows(t, strokes_step(t, node)),
{
    lemma_key_places();
    lemma_plain_keys();
    let colors = Json::Arr(stroke_colors(node, has_kids(node), t.state.turns));
    let keys = seq!["stroke"@, "strokes"@];
    lemma_named(t, node, 2, colors, keys, "fill"@);
    let a = with_named(t, node, "strokes"@, colors, keys, "fill"@);
    let styles = a.state.styles;
    let b = put_some(a.fields, "strokeWeight"@, text_json(stroke_weight(node)));
    let c = put_some(b, "strokeDashes"@, list_json(stroke_dashes(node)));
    lemma_put_plain(a.fields, "strokeWeight"@, text_json(stroke_weight(node)), styles);
    lemma_put_plain(b, "strokeDashes"@, list_json(stroke_dashes(node)), styles);
    lemma_put_plain(c, "strokeAlign"@, text_json(stroke_align(node)), styles);
}

proof fn lemma_visuals_follow(t: Step, node: Json)
    requires
        fine(t),
    ensures
        follows(t, visuals_step(t, node)),
{
    lemma_key_places();
    lemma_plain_keys();
    let f = fills_step(t, node);
    lemma_fills_follow(t, node);
    let k = strokes_step(f, node);
    lemma_strokes_follow(f, node);
    lemma_named(k, node, 3, Json::Obj(effects(node)), seq!["effect"@, "effects"@], "effect"@);
    let a = effects_step(k, node);
    assert(follows(k, a));
    let b = put_some(a.fields, "opacity"@, opacity(node));
    lemma_put_plain(a.fields, "opacity"@, opacity(node), a.state.styles);
    lemma_put_plain(b, "borderRadius"@, text_json(border_radius(node)), a.state.styles);
}

proof fn lemma_component_follows(t: Step, node: Json)
    requires
        fine(t),
    ensures
        follows(t, component_step(t, node)),
{
    lemma_plain_keys();
    let styles = t.state.styles;
    let id = text_json(str_field(node, "componentId"@));
    let a = put_some(t.fields, "componentId"@, id);
    lemma_put_plain(t.fields, "componentId"@, id, styles);
    if let Some(p) = obj_field(node, "componentProperties"@) {
        lemma_put_plain(a, "componentProperties"@, non_empty_object(properties(p, p.len())), styles);
    }
    let b = if field_is(node, "type"@, "INSTANCE"@) {
        instance_fields(t.fields, node)
    } else {
        t.fields
    };
    assert(leads(b, styles));
    if let Some(p) = obj_field(node, "componentPropertyReferences"@) {
        lemma_put_plain(b, "componentPropertyReferences"@, non_empty_object(references(p, p.len())), styles);
    }
}

proof fn lemma_own_fine(node: Json, parent: Option<Json>, s: State)
    requires
        sound(s),
    ensures
        fine(own_step(node, parent, s)),
        grows(s.styles, own_step(node, parent, s).state.styles),
{
    lemma_plain_keys();
    let e = Fields::empty();
    let id = Json::Str(text_or(node, "id"@, "?"@));
    let name = Json::Str(text_or(node, "name"@, ""@));
    let kind = Json::Str(shown_type(node));
    let a = put(e, "id"@, id);
    let b = put(a, "name"@, name);
    assert(leads(e, s.styles)) by {
        assert forall|i: int| 0 <= i < 5 implies #[trigger] key_leads(e, s.styles, i) by {
            lemma_key_from(e, ref_keys()[i], 0);
        }
    }
    lemma_put_plain(e, "id"@, Some(id), s.styles);
    lemma_put_plain(a, "name"@, Some(name), s.styles);
    lemma_put_plain(b, "type"@, Some(kind), s.styles);
    let t = Step { fields: put(b, "type"@, kind), state: s };
    let u = layout_step(t, node, parent);
    let v = text_step(u, node);
    let w = visuals_step(v, node);
    lemma_layout_follows(t, node, parent);
    lemma_text_follows(u, node);
    lemma_visuals_follow(v, node);
    lemma_component_follows(w, node);
}

// ---------------------------------------------------------------------------
// The walk
// ---------------------------------------------------------------------------

proof fn lemma_all_lead_grow(node: Json, a: Fields, b: Fields)
    requires
        all_lead(node, a),
        grows(a, b),
    ensures
        all_lead(node, b),
    decreases node, 0nat,
{
    if let Json::Obj(o) = node {
        lemma_leads_grow(o, a, b);
        if let Some(kids) = arr_field(node, "children"@) {
            lemma_children_smaller(node);
            lemma_list_leads_grow(kids, kids.len(), a, b);
        }
    }
}

proof fn lemma_list_leads_grow(nodes: Seq<Json>, n: nat, a: Fields, b: Fields)
    requires
        n <= nodes.len(),
        all_lead_in(nodes, n, a),
        grows(a, b),
    ensures
        all_lead_in(nodes, n, b),
    decreases nodes, n,
{
    if n > 0 {
        lemma_list_leads_grow(nodes, (n - 1) as nat, a, b);
        assert(decreases_to!(nodes => nodes[n - 1]));
        lemma_all_lead_grow(nodes[n - 1], a, b);
    }
}

/// The lists of nodes whose references lead to styles, one by one.
proof fn lemma_all_lead_in(nodes: Seq<Json>, n: nat, styles: Fields)
    requires
        n <= nodes.len(),
    ensures
        all_lead_in(nodes, n, styles) <==> forall|i: int| 0 <= i < n ==> all_lead(#[trigger] nodes[i], styles),
    decreases n,
{
    if n > 0 {
        lemma_all_lead_in(nodes, (n - 1) as nat, styles);
    }
}

/// One more node whose references lead to styles.
pub proof fn lemma_push_leads(nodes: Seq<Json>, x: Json, styles: Fields)
    requires
        all_lead_in(nodes, nodes.len(), styles),
        all_lead(x, styles),
    ensures
        all_lead_in(nodes.push(x), nodes.len() + 1, styles),
{
    let more = nodes.push(x);
    lemma_all_lead_in(nodes, nodes.len(), styles);
    assert forall|i: int| 0 <= i < nodes.len() + 1 implies all_lead(#[trigger] more[i], styles) by {
        if i < nodes.len() {
            assert(more[i] == nodes[i]);
        }
    }
    lemma_all_lead_in(more, nodes.len() + 1, styles);
}

/// The references of a node that the walk makes, and of what is below it, lead
/// to styles, and the walk takes no style away.
pub proof fn walked_references_lead(node: Json, parent: Option<Json>, inside: bool, levels: Option<nat>, s: State)
    requires
        sound(s),
    ensures
        ({
            let (one, after) = walked(node, parent, inside, levels, s);
            &&& sound(after)
            &&& grows(s.styles, after.styles)
            &&& one matches Some(f) ==> all_lead(Json::Obj(f), after.styles)
        }),
    decreases node, 0nat,
{
    lemma_own_fine(node, parent, s);
    lemma_own_childless(node, parent, s);
    let t = own_step(node, parent, s);
    if let Some(kids) = arr_field(node, "children"@) {
        if levels != Some(0nat) && kids.len() > 0 {
            lemma_children_smaller(node);
            let order = shown_order(node, kids);
            let inner = inside_of(node, inside);
            let (done, after) = walked_kids(kids, order, kids.len(), node, inner, below(levels), t.state);
            lemma_kids_lead(kids, order, kids.len(), node, inner, below(levels), t.state);
            lemma_leads_grow(t.fields, t.state.styles, after.styles);
            lemma_plain_keys();
            let svg = Json::Str("IMAGE-SVG"@);
            lemma_put_plain(t.fields, "type"@, Some(svg), after.styles);
            lemma_put_plain(t.fields, "children"@, Some(Json::Arr(done)), after.styles);
            get_after_put(t.fields, "type"@, svg, "children"@);
            get_after_put(t.fields, "children"@, Json::Arr(done), "children"@);
        }
    }
}

proof fn lemma_kids_lead(
    kids: Seq<Json>,
    order: Seq<int>,
    len: nat,
    node: Json,
    inside: bool,
    levels: Option<nat>,
    s: State,
)
    requires
        sound(s),
    ensures
        ({
            let (done, after) = walked_kids(kids, order, len, node, inside, levels, s);
            &&& sound(after)
            &&& grows(s.styles, after.styles)
            &&& all_lead_in(done, done.len(), after.styles)
        }),
    decreases kids, len,
{
    if len > 0 {
        let (before, state) = walked_kids(kids, order, (len - 1) as nat, node, inside, levels, s);
        lemma_kids_lead(kids, order, (len - 1) as nat, node, inside, levels, s);
        let i = order[len - 1];
        if 0 <= i < kids.len() {
            assert(decreases_to!(kids => kids[i]));
            walked_references_lead(kids[i], Some(node), inside, levels, state);
            let (one, after) = walked(kids[i], Some(node), inside, levels, state);
            lemma_list_leads_grow(before, before.len(), state.styles, after.styles);
            if let Some(f) = one {
                lemma_push_leads(before, Json::Obj(f), after.styles);
            }
        }
    }
}

/// The references of the nodes that the walk over roots makes, and of what is
/// below them, lead to styles.
pub proof fn root_references_lead(raw: Seq<Json>, levels: Option<nat>, s: State, n: nat)
    requires
        sound(s),
    ensures
        ({
            let (nodes, after) = walked_roots(raw, levels, s, n);
            sound(after) && all_lead_in(nodes, nodes.len(), after.styles)
        }),
    decreases n,
{
    if n > 0 {
        let (before, state) = walked_roots(raw, levels, s, (n - 1) as nat);
        root_references_lead(raw, levels, s, (n - 1) as nat);
        walked_references_lead(raw[n - 1], None, false, levels, state);
        let (one, after) = walked(raw[n - 1], None, false, levels, state);
        lemma_list_leads_grow(before, before.len(), state.styles, after.styles);
        if let Some(f) = one {
            lemma_push_leads(before, Json::Obj(f), after.styles);
        }
    }
}

// ---------------------------------------------------------------------------
// Counts
// ---------------------------------------------------------------------------

proof fn lemma_count_prefix(a: Seq<Seq<char>>, b: Seq<Seq<char>>, x: Seq<char>, n: nat)
    requires
        n <= a.len(),
    ensures
        count_upto(a + b, x, n) == count_upto(a, x, n),
    decreases n,
{
    if n > 0 {
        assert((a + b)[n - 1] == a[n - 1]);
        lemma_count_prefix(a, b, x, (n - 1) as nat);
    }
}

proof fn lemma_count_rest(a: Seq<Seq<char>>, b: Seq<Seq<char>>, x: Seq<char>, n: nat)
    requires
        n <= b.len(),
    ensures
        count_upto(a + b, x, a.len() + n) == count(a, x) + count_upto(b, x, n),
    decreases n,
{
    if n == 0 {
        lemma_count_prefix(a, b, x, a.len());
    } else {
        assert((a + b)[a.len() + n - 1] == b[n - 1]);
        lemma_count_rest(a, b, x, (n - 1) as nat);
    }
}

/// A text occurs in two lists together as often as in one and in the other.
pub proof fn lemma_count_both(a: Seq<Seq<char>>, b: Seq<Seq<char>>, x: Seq<char>)
    ensures
        count(a + b, x) == count(a, x) + count(b, x),
{
    lemma_count_rest(a, b, x, b.len());
}

proof fn lemma_count_push(a: Seq<Seq<char>>, y: Seq<char>, x: Seq<char>)
    ensures
        count(a.push(y), x) == count(a, x) + (if y == x {
            1nat
        } else {
            0nat
        }),
{
    assert(a.push(y) =~= a + seq![y]);
    lemma_count_both(a, seq![y], x);
    assert(count_upto(seq![y], x, 0) == 0);
    assert(count(seq![y], x) == count_upto(seq![y], x, 1));
}

/// How many of the first `n` keys of the styles of a node refer to an id.
pub open spec fn own_count(o: Fields, x: Seq<char>, n: nat) -> nat
    decreases n,
{
    if n == 0 {
        0
    } else if get(o, ref_keys()[n - 1]) == Some(Json::Str(x)) {
        own_count(o, x, (n - 1) as nat) + 1
    } else {
        own_count(o, x, (n - 1) as nat)
    }
}

/// The references of a node are counted key by key.
pub proof fn lemma_own_count(o: Fields, x: Seq<char>, n: nat)
    ensures
        count(own_refs(o, n), x) == own_count(o, x, n),
    decreases n,
{
    if n > 0 {
        lemma_own_count(o, x, (n - 1) as nat);
        if let Some(Json::Str(id)) = get(o, ref_keys()[n - 1]) {
            lemma_count_push(own_refs(o, (n - 1) as nat), id, x);
        }
    }
}

/// A key that refers to an id counts.
pub proof fn lemma_own_counted(o: Fields, x: Seq<char>, i: int, n: nat)
    requires
        0 <= i < n <= 5,
        get(o, ref_keys()[i]) == Some(Json::Str(x)),
    ensures
        own_count(o, x, n) >= 1,
    decreases n,
{
    if i < n - 1 {
        lemma_own_counted(o, x, i, (n - 1) as nat);
    }
}

/// What occurs in one list occurs in another.
spec fn all_listed(s: Seq<Seq<char>>, refs: Seq<Seq<char>>) -> bool {
    forall|x: Seq<char>| count(s, x) > 0 ==> #[trigger] listed(refs, x)
}

proof fn lemma_listed_parts(a: Seq<Seq<char>>, b: Seq<Seq<char>>, refs: Seq<Seq<char>>)
    requires
        all_listed(a + b, refs),
    ensures
        all_listed(a, refs),
        all_listed(b, refs),
{
    assert forall|x: Seq<char>| count(a, x) > 0 || count(b, x) > 0 implies #[trigger] listed(refs, x) by {
        lemma_count_both(a, b, x);
    }
}

// ---------------------------------------------------------------------------
// Styles used once
// ---------------------------------------------------------------------------

/// One more entry is found last.
pub proof fn lemma_get_push(o: Fields, e: (Seq<char>, Json), k: Seq<char>)
    ensures
        get(o.push(e), k) == (if get(o, k) is Some {
            get(o, k)
        } else if e.0 == k {
            Some(e.1)
        } else {
            None
        }),
{
    let p = o.push(e);
    lemma_key_from(o, k, 0);
    lemma_key_from(p, k, 0);
    match key_from(o, k, 0) {
        Some(i) => {
            assert(p[i] == o[i]);
            let j = key_from(p, k, 0)->0;
            if j < i {
                assert(p[j] == o[j]);
            }
        },
        None => {
            if let Some(j) = key_from(p, k, 0) {
                if j < o.len() {
                    assert(p[j] == o[j]);
                }
            } else {
                assert(p[o.len() as int] == e);
            }
        },
    }
}

proof fn lemma_staying(styles: Fields, named: Seq<Seq<char>>, refs: Seq<Seq<char>>, k: Seq<char>, n: nat)
    requires
        n <= styles.len(),
    ensures
        get(staying(styles, named, refs, n), k) == (if moves(k, named, refs) || goes(k, named, refs) {
            None
        } else {
            get(styles.take(n as int), k)
        }),
    decreases n,
{
    if n == 0 {
        lemma_key_from(Fields::empty(), k, 0);
        lemma_key_from(styles.take(0), k, 0);
    } else {
        lemma_staying(styles, named, refs, k, (n - 1) as nat);
        lemma_get_push(staying(styles, named, refs, (n - 1) as nat), styles[n - 1], k);
        lemma_get_push(styles.take(n - 1), styles[n - 1], k);
        assert(styles.take(n as int) =~= styles.take(n - 1).push(styles[n - 1]));
    }
}

/// A style stays under its id, unless it moves to where it is used or nothing
/// uses it.
pub proof fn other_styles_stay(styles: Fields, named: Seq<Seq<char>>, refs: Seq<Seq<char>>, k: Seq<char>)
    ensures
        get(staying(styles, named, refs, styles.len()), k) == (if moves(k, named, refs) || goes(k, named, refs) {
            None
        } else {
            get(styles, k)
        }),
{
    lemma_staying(styles, named, refs, k, styles.len());
    assert(styles.take(styles.len() as int) =~= styles);
}

/// What stands under the key at `i` when the styles that move have moved.
pub open spec fn moved_value(o: Fields, styles: Fields, named: Seq<Seq<char>>, refs: Seq<Seq<char>>, i: int) -> Option<Json> {
    match get(o, ref_keys()[i]) {
        Some(Json::Str(id)) => if get(styles, id) is Some && moves(id, named, refs) {
            get(styles, id)
        } else {
            Some(Json::Str(id))
        },
        x => x,
    }
}

/// Each key holds its style where that moves, else what it held.
pub proof fn lemma_moved(o: Fields, styles: Fields, named: Seq<Seq<char>>, refs: Seq<Seq<char>>, i: int, n: nat)
    requires
        n <= 5,
        0 <= i < 5,
    ensures
        get(with_moved(o, styles, named, refs, n), ref_keys()[i]) == (if i < n {
            moved_value(o, styles, named, refs, i)
        } else {
            get(o, ref_keys()[i])
        }),
    decreases n,
{
    if n > 0 {
        lemma_ref_keys();
        let before = with_moved(o, styles, named, refs, (n - 1) as nat);
        lemma_moved(o, styles, named, refs, i, (n - 1) as nat);
        lemma_moved(o, styles, named, refs, n - 1, (n - 1) as nat);
        if let Some(Json::Str(id)) = get(o, ref_keys()[n - 1]) {
            if let Some(v) = get(styles, id) {
                get_after_put(before, ref_keys()[n - 1], v, ref_keys()[i]);
            }
        }
    }
}

/// What a node has under the key at `i`, with a reference followed.
pub open spec fn looked_up(o: Fields, styles: Fields, i: int) -> Option<Json> {
    match get(o, ref_keys()[i]) {
        Some(Json::Str(id)) => match get(styles, id) {
            Some(v) => Some(v),
            None => Some(Json::Str(id)),
        },
        x => x,
    }
}

/// What is found among styles is no text.
pub proof fn lemma_no_text(styles: Fields, k: Seq<char>)
    requires
        no_text(styles),
    ensures
        get(styles, k) matches Some(v) ==> !(v is Str),
{
    lemma_key_from(styles, k, 0);
}

/// A node looks the same when the styles that are used once have moved: under
/// each key of a style stands, directly or by reference, what stood there.
pub proof fn moved_styles_look_the_same(
    o: Fields,
    styles: Fields,
    named: Seq<Seq<char>>,
    refs: Seq<Seq<char>>,
    i: int,
)
    requires
        0 <= i < 5,
        no_text(styles),
        forall|k: int| 0 <= k < own_refs(o, 5).len() ==> listed(refs, #[trigger] own_refs(o, 5)[k]),
    ensures
        looked_up(
            with_moved(o, styles, named, refs, 5),
            staying(styles, named, refs, styles.len()),
            i,
        ) == looked_up(o, styles, i),
{
    lemma_moved(o, styles, named, refs, i, 5);
    if let Some(Json::Str(id)) = get(o, ref_keys()[i]) {
        lemma_no_text(styles, id);
        other_styles_stay(styles, named, refs, id);
        lemma_own_counted(o, id, i, 5);
        lemma_own_count(o, id, 5);
        lemma_occurs(own_refs(o, 5), id, own_refs(o, 5).len());
    }
}

proof fn lemma_occurs(s: Seq<Seq<char>>, x: Seq<char>, n: nat)
    requires
        n <= s.len(),
    ensures
        count_upto(s, x, n) > 0 ==> exists|k: int| 0 <= k < n && #[trigger] s[k] == x,
    decreases n,
{
    if n > 0 {
        lemma_occurs(s, x, (n - 1) as nat);
        if s[n - 1] == x {
            assert(s[n - 1] == x);
        }
    }
}

proof fn lemma_moved_leads(o: Fields, styles: Fields, named: Seq<Seq<char>>, refs: Seq<Seq<char>>)
    requires
        no_text(styles),
        leads(o, styles),
        all_listed(own_refs(o, 5), refs),
    ensures
        leads(with_moved(o, styles, named, refs, 5), staying(styles, named, refs, styles.len())),
{
    let p = with_moved(o, styles, named, refs, 5);
    let left = staying(styles, named, refs, styles.len());
    assert forall|i: int| 0 <= i < 5 implies #[trigger] key_leads(p, left, i) by {
        assert(key_leads(o, styles, i));
        lemma_moved(o, styles, named, refs, i, 5);
        if let Some(Json::Str(id)) = get(o, ref_keys()[i]) {
            lemma_no_text(styles, id);
            other_styles_stay(styles, named, refs, id);
            lemma_own_counted(o, id, i, 5);
            lemma_own_count(o, id, 5);
            assert(listed(refs, id));
        }
    }
}

proof fn lemma_inlined_leads(node: Json, styles: Fields, named: Seq<Seq<char>>, refs: Seq<Seq<char>>)
    requires
        no_text(styles),
        all_lead(node, styles),
        all_listed(node_refs(node), refs),
    ensures
        all_lead(inlined(node, styles, named, refs), staying(styles, named, refs, styles.len())),
    decreases node, 0nat,
{
    if let Json::Obj(o) = node {
        let left = staying(styles, named, refs, styles.len());
        match arr_field(node, "children"@) {
            Some(kids) => {
                lemma_children_smaller(node);
                lemma_listed_parts(own_refs(o, 5), refs_in(kids, kids.len()), refs);
                let done = Json::Arr(inlined_upto(kids, styles, named, refs, kids.len()));
                lemma_list_inlined_leads(kids, styles, named, refs, kids.len());
                let p = put(o, "children"@, done);
                lemma_put_plain(o, "children"@, Some(done), styles);
                lemma_same_refs(o, done);
                lemma_moved_leads(p, styles, named, refs);
                get_after_put(o, "children"@, done, "children"@);
                lemma_moved_children(p, styles, named, refs, 5);
            },
            None => {
                lemma_moved_leads(o, styles, named, refs);
                lemma_moved_children(o, styles, named, refs, 5);
            },
        }
    }
}

/// Other children leave the references of a node as they are.
pub proof fn lemma_same_refs(o: Fields, kids: Json)
    ensures
        own_refs(put(o, "children"@, kids), 5) == own_refs(o, 5),
{
    lemma_ref_keys();
    let p = put(o, "children"@, kids);
    assert forall|i: int| 0 <= i < 5 implies get(p, #[trigger] ref_keys()[i]) == get(o, ref_keys()[i]) by {
        get_after_put(o, "children"@, kids, ref_keys()[i]);
    }
    lemma_refs_alike(p, o, 5);
}

proof fn lemma_refs_alike(a: Fields, b: Fields, n: nat)
    requires
        n <= 5,
        forall|i: int| 0 <= i < 5 ==> get(a, #[trigger] ref_keys()[i]) == get(b, ref_keys()[i]),
    ensures
        own_refs(a, n) == own_refs(b, n),
    decreases n,
{
    if n > 0 {
        lemma_refs_alike(a, b, (n - 1) as nat);
        assert(get(a, ref_keys()[n - 1]) == get(b, ref_keys()[n - 1]));
    }
}

proof fn lemma_list_inlined_leads(
    nodes: Seq<Json>,
    styles: Fields,
    named: Seq<Seq<char>>,
    refs: Seq<Seq<char>>,
    n: nat,
)
    requires
        n <= nodes.len(),
        no_text(styles),
        all_lead_in(nodes, n, styles),
        all_listed(refs_in(nodes, n), refs),
    ensures
        inlined_upto(nodes, styles, named, refs, n).len() == n,
        all_lead_in(inlined_upto(nodes, styles, named, refs, n), n, staying(styles, named, refs, styles.len())),
    decreases nodes, n,
{
    if n > 0 {
        let left = staying(styles, named, refs, styles.len());
        lemma_listed_parts(refs_in(nodes, (n - 1) as nat), node_refs(nodes[n - 1]), refs);
        lemma_list_inlined_leads(nodes, styles, named, refs, (n - 1) as nat);
        assert(decreases_to!(nodes => nodes[n - 1]));
        lemma_inlined_leads(nodes[n - 1], styles, named, refs);
        lemma_push_leads(
            inlined_upto(nodes, styles, named, refs, (n - 1) as nat),
            inlined(nodes[n - 1], styles, named, refs),
            left,
        );
    }
}

/// When the styles that are used once have moved, the references that are left
/// lead to the styles that are left.
pub proof fn inlined_references_lead(nodes: Seq<Json>, styles: Fields, named: Seq<Seq<char>>)
    requires
        no_text(styles),
        all_lead_in(nodes, nodes.len(), styles),
    ensures
        ({
            let refs = refs_in(nodes, nodes.len());
            let moved = inlined_upto(nodes, styles, named, refs, nodes.len());
            moved.len() == nodes.len() && all_lead_in(
                moved,
                moved.len(),
                staying(styles, named, refs, styles.len()),
            )
        }),
{
    lemma_list_inlined_leads(nodes, styles, named, refs_in(nodes, nodes.len()), nodes.len());
}

} // verus!
