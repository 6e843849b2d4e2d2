//! What passes from a raw document to its design: its name, its roots, its
//! components, and the styles that are used more than once.

use vstd::prelude::*;

use crate::json::{arr_field, field, get, get_after_put, lemma_key_from, obj_field, put, str_field, Fields, Json};
use crate::simplify::component::{bare_name, definition_of, definitions, listed, listing, properties, references};
use crate::simplify::design::{finished, pages, simplified, source, walked_roots, Source};
use crate::simplify::finalize::{
    count_upto, inlined, inlined_upto, moves, ref_keys, reference, referring, run_style, staying, templated,
    templated_upto, with_moved,
};
use crate::simplify::gradient::Turns;
use crate::simplify::registry::{fresh, State};
use crate::simplify::told::{is_node, nodes_keep_their_names};
use crate::simplify::walk::lemma_children_smaller;

verus! {

// ---------------------------------------------------------------------------
// Nodes
// ---------------------------------------------------------------------------

/// Whether a node goes by the same id and name as another one.
pub open spec fn same_title(a: Json, b: Json) -> bool {
    field(a, "id"@) == field(b, "id"@) && field(a, "name"@) == field(b, "name"@)
}

proof fn lemma_title_words()
    ensures
        "id"@ != "name"@,
        "id"@ != "layout"@,
        "id"@ != "fills"@,
        "id"@ != "strokes"@,
        "id"@ != "effects"@,
        "id"@ != "textStyle"@,
        "id"@ != "children"@,
        "id"@ != "template"@,
        "name"@ != "layout"@,
        "name"@ != "fills"@,
        "name"@ != "strokes"@,
        "name"@ != "effects"@,
        "name"@ != "textStyle"@,
        "name"@ != "children"@,
        "name"@ != "template"@,
{
    reveal_strlit("id");
    reveal_strlit("name");
    reveal_strlit("layout");
    reveal_strlit("fills");
    reveal_strlit("strokes");
    reveal_strlit("effects");
    reveal_strlit("textStyle");
    reveal_strlit("children");
    reveal_strlit("template");
    assert("id"@.len() == 2 && "name"@.len() == 4 && "layout"@.len() == 6);
    assert("fills"@.len() == 5 && "strokes"@.len() == 7 && "effects"@.len() == 7);
    assert("textStyle"@.len() == 9 && "children"@.len() == 8 && "template"@.len() == 8);
}

proof fn lemma_moved_title(o: Fields, styles: Fields, named: Seq<Seq<char>>, refs: Seq<Seq<char>>, n: nat)
    requires
        n <= 5,
    ensures
        get(with_moved(o, styles, named, refs, n), "id"@) == get(o, "id"@),
        get(with_moved(o, styles, named, refs, n), "name"@) == get(o, "name"@),
    decreases n,
{
    if n > 0 {
        lemma_moved_title(o, styles, named, refs, (n - 1) as nat);
        lemma_title_words();
        let before = with_moved(o, styles, named, refs, (n - 1) as nat);
        let k = ref_keys()[n - 1];
        assert(k == "layout"@ || k == "fills"@ || k == "strokes"@ || k == "effects"@ || k == "textStyle"@);
        assert forall|v: Json|
            get(#[trigger] put(before, k, v), "id"@) == get(before, "id"@) && get(put(before, k, v), "name"@) == get(
                before,
                "name"@,
            ) by {
            get_after_put(before, k, v, "id"@);
            get_after_put(before, k, v, "name"@);
        }
    }
}

/// A node keeps its id and its name when styles move into it.
pub proof fn moving_keeps_the_title(node: Json, styles: Fields, named: Seq<Seq<char>>, refs: Seq<Seq<char>>)
    ensures
        same_title(inlined(node, styles, named, refs), node),
{
    if let Json::Obj(o) = node {
        lemma_title_words();
        lemma_moved_title(o, styles, named, refs, 5);
        if let Some(kids) = arr_field(node, "children"@) {
            lemma_children_smaller(node);
            let done = Json::Arr(inlined_upto(kids, styles, named, refs, kids.len()));
            get_after_put(o, "children"@, done, "id"@);
            get_after_put(o, "children"@, done, "name"@);
            lemma_moved_title(put(o, "children"@, done), styles, named, refs, 5);
        }
    }
}

proof fn lemma_referring_title(o: Fields, elements: Fields)
    ensures
        get(referring(o, elements), "id"@) == get(o, "id"@),
        get(referring(o, elements), "name"@) == get(o, "name"@),
{
    lemma_title_words();
    lemma_key_from(Fields::empty(), "id"@, 0);
    lemma_key_from(Fields::empty(), "name"@, 0);
    assert forall|p: Fields, k: Seq<char>, x: Seq<char>, v: Json|
        #![trigger get(put(p, x, v), k)]
        get(put(p, x, v), k) == if x == k {
            Some(v)
        } else {
            get(p, k)
        } by {
        get_after_put(p, x, v, k);
    }
}

/// A node keeps its id and its name when it becomes a reference to an element.
pub proof fn sharing_keeps_the_title(node: Json, elements: Fields)
    ensures
        same_title(templated(node, elements), node),
{
    if let Json::Obj(o) = node {
        lemma_title_words();
        lemma_referring_title(o, elements);
        if let Some(kids) = arr_field(node, "children"@) {
            lemma_children_smaller(node);
            let done = Json::Arr(templated_upto(kids, elements, kids.len()));
            get_after_put(o, "children"@, done, "id"@);
            get_after_put(o, "children"@, done, "name"@);
            lemma_referring_title(put(o, "children"@, done), elements);
        }
    }
}

proof fn lemma_roots(raw: Seq<Json>, levels: Option<nat>, s: State, n: nat)
    requires
        n <= raw.len(),
        forall|i: int| 0 <= i < raw.len() ==> is_node(#[trigger] raw[i]),
    ensures
        walked_roots(raw, levels, s, n).0.len() == n,
        forall|i: int| 0 <= i < n ==> same_title(#[trigger] walked_roots(raw, levels, s, n).0[i], raw[i]),
    decreases n,
{
    if n > 0 {
        let (before, state) = walked_roots(raw, levels, s, (n - 1) as nat);
        lemma_roots(raw, levels, s, (n - 1) as nat);
        let root = raw[n - 1];
        assert(is_node(root));
        let (id, name, kind) = (str_field(root, "id"@)->0, str_field(root, "name"@)->0, str_field(root, "type"@)->0);
        nodes_keep_their_names(root, None, false, levels, state, id, name, kind);
    }
}

proof fn lemma_inlined_roots(nodes: Seq<Json>, styles: Fields, named: Seq<Seq<char>>, refs: Seq<Seq<char>>, n: nat)
    requires
        n <= nodes.len(),
    ensures
        inlined_upto(nodes, styles, named, refs, n).len() == n,
        forall|i: int| 0 <= i < n ==> same_title(#[trigger] inlined_upto(nodes, styles, named, refs, n)[i], nodes[i]),
    decreases n,
{
    if n > 0 {
        lemma_inlined_roots(nodes, styles, named, refs, (n - 1) as nat);
        moving_keeps_the_title(nodes[n - 1], styles, named, refs);
    }
}

proof fn lemma_templated_roots(nodes: Seq<Json>, elements: Fields, n: nat)
    requires
        n <= nodes.len(),
    ensures
        templated_upto(nodes, elements, n).len() == n,
        forall|i: int| 0 <= i < n ==> same_title(#[trigger] templated_upto(nodes, elements, n)[i], nodes[i]),
    decreases n,
{
    if n > 0 {
        lemma_templated_roots(nodes, elements, (n - 1) as nat);
        sharing_keeps_the_title(nodes[n - 1], elements);
    }
}

/// The design of a whole file has the name of the file, and its pages, one for one
/// and in their order, where none is hidden.
pub proof fn designs_hold_their_pages(body: Json, doc: Json, kids: Seq<Json>, levels: Option<nat>, turns: Turns)
    requires
        field(body, "nodes"@) is None,
        field(body, "document"@) == Some(doc),
        arr_field(doc, "children"@) == Some(kids),
        forall|i: int| 0 <= i < kids.len() ==> is_node(#[trigger] kids[i]),
    ensures
        simplified(body, levels, turns) matches Ok(d) && {
            &&& str_field(body, "name"@) matches Some(name) ==> d.name == name
            &&& d.nodes.len() == kids.len()
            &&& forall|i: int| 0 <= i < kids.len() ==> same_title(#[trigger] d.nodes[i], kids[i])
        },
{
    let src = source(body)->Ok_0;
    assert(src.nodes == kids);
    lemma_finished_roots(src, levels, turns);
}

/// The design of one node has the name of the file and that node as its root.
pub proof fn designs_hold_their_node(
    body: Json,
    nodes: Fields,
    data: Json,
    doc: Json,
    levels: Option<nat>,
    turns: Turns,
)
    requires
        obj_field(body, "nodes"@) == Some(nodes),
        nodes.len() > 0,
        nodes[0].1 == data,
        field(data, "document"@) == Some(doc),
        is_node(doc),
    ensures
        simplified(body, levels, turns) matches Ok(d) && {
            &&& str_field(body, "name"@) matches Some(name) ==> d.name == name
            &&& d.nodes.len() == 1
            &&& same_title(d.nodes[0], doc)
        },
{
    let src = source(body)->Ok_0;
    assert(src.nodes == seq![doc]);
    lemma_finished_roots(src, levels, turns);
    assert(src.nodes[0] == doc);
}

proof fn lemma_finished_roots(src: Source, levels: Option<nat>, turns: Turns)
    requires
        forall|i: int| 0 <= i < src.nodes.len() ==> is_node(#[trigger] src.nodes[i]),
    ensures
        ({
            let (nodes, s) = walked_roots(src.nodes, levels, fresh(src.styles, turns), src.nodes.len());
            let d = finished(src, nodes, s);
            &&& d.name == src.name
            &&& d.nodes.len() == src.nodes.len()
            &&& forall|i: int| 0 <= i < src.nodes.len() ==> same_title(#[trigger] d.nodes[i], src.nodes[i])
        }),
{
    let (nodes, s) = walked_roots(src.nodes, levels, fresh(src.styles, turns), src.nodes.len());
    lemma_roots(src.nodes, levels, fresh(src.styles, turns), src.nodes.len());
    let refs = crate::simplify::finalize::refs_in(nodes, nodes.len());
    let moved = inlined_upto(nodes, s.styles, s.named, refs, nodes.len());
    lemma_inlined_roots(nodes, s.styles, s.named, refs, nodes.len());
    let elements = crate::simplify::finalize::elements_of(
        crate::simplify::finalize::bodies_upto(crate::simplify::finalize::no_bodies(), moved, moved.len()),
    );
    lemma_templated_roots(moved, elements, moved.len());
    let d = finished(src, nodes, s);
    assert(d.nodes == templated_upto(moved, elements, moved.len()));
    assert forall|i: int| 0 <= i < src.nodes.len() implies same_title(#[trigger] d.nodes[i], src.nodes[i]) by {
        assert(same_title(d.nodes[i], moved[i]));
        assert(same_title(moved[i], nodes[i]));
        assert(same_title(nodes[i], src.nodes[i]));
    }
}

// ---------------------------------------------------------------------------
// Styles
// ---------------------------------------------------------------------------

/// Whether two places refer to one style.
pub open spec fn referred_twice(refs: Seq<Seq<char>>, id: Seq<char>) -> bool {
    exists|i: int, j: int| 0 <= i < j < refs.len() && #[trigger] refs[i] == id && #[trigger] refs[j] == id
}

proof fn lemma_count(refs: Seq<Seq<char>>, id: Seq<char>, n: nat)
    requires
        n <= refs.len(),
    ensures
        count_upto(refs, id, n) >= 1 <==> exists|i: int| 0 <= i < n && #[trigger] refs[i] == id,
        count_upto(refs, id, n) >= 2 <==> exists|i: int, j: int|
            0 <= i < j < n && #[trigger] refs[i] == id && #[trigger] refs[j] == id,
    decreases n,
{
    if n > 0 {
        lemma_count(refs, id, (n - 1) as nat);
        if refs[n - 1] == id {
            if count_upto(refs, id, (n - 1) as nat) >= 1 {
                let i = choose|i: int| 0 <= i < n - 1 && #[trigger] refs[i] == id;
                assert(refs[i] == id && refs[n - 1] == id);
            }
        }
    }
}

/// A style that one place refers to stands in that place, unless it has a name; one
/// that two places refer to, or that has a name, stays a reference.
pub proof fn shared_styles_stay_references(
    o: Fields,
    styles: Fields,
    named: Seq<Seq<char>>,
    refs: Seq<Seq<char>>,
    at: int,
    id: Seq<char>,
    v: Json,
)
    requires
        0 <= at < 5,
        get(o, ref_keys()[at]) == Some(Json::Str(id)),
        get(styles, id) == Some(v),
        !run_style(id),
    ensures
        !named.contains(id) && !referred_twice(refs, id) && !(v is Str) ==> get(
            with_moved(o, styles, named, refs, 5),
            ref_keys()[at],
        ) == Some(v),
        named.contains(id) || referred_twice(refs, id) ==> get(with_moved(o, styles, named, refs, 5), ref_keys()[at])
            == Some(Json::Str(id)),
{
    lemma_count(refs, id, refs.len());
    lemma_count(named, id, named.len());
    lemma_moved_at(o, styles, named, refs, at, 5);
}

proof fn lemma_moved_at(o: Fields, styles: Fields, named: Seq<Seq<char>>, refs: Seq<Seq<char>>, at: int, n: nat)
    requires
        0 <= at < 5,
        n <= 5,
    ensures
        at >= n ==> get(with_moved(o, styles, named, refs, n), ref_keys()[at]) == get(o, ref_keys()[at]),
        at < n ==> get(with_moved(o, styles, named, refs, n), ref_keys()[at]) == match get(o, ref_keys()[at]) {
            Some(Json::Str(id)) => match get(styles, id) {
                Some(v) => if moves(id, named, refs) {
                    Some(v)
                } else {
                    Some(Json::Str(id))
                },
                None => Some(Json::Str(id)),
            },
            other => other,
        },
    decreases n,
{
    if n > 0 {
        lemma_moved_at(o, styles, named, refs, at, (n - 1) as nat);
        lemma_moved_at(o, styles, named, refs, n - 1, (n - 1) as nat);
        lemma_reference_words();
        let before = with_moved(o, styles, named, refs, (n - 1) as nat);
        let k = ref_keys()[n - 1];
        assert(at != n - 1 ==> ref_keys()[at] != k) by {
            let keys = ref_keys();
            assert(keys[0] == "layout"@ && keys[1] == "fills"@ && keys[2] == "strokes"@ && keys[3] == "effects"@
                && keys[4] == "textStyle"@);
        }
        assert forall|v: Json|
            get(#[trigger] put(before, k, v), ref_keys()[at]) == if at == n - 1 {
                Some(v)
            } else {
                get(before, ref_keys()[at])
            } by {
            get_after_put(before, k, v, ref_keys()[at]);
        }
    }
}

proof fn lemma_reference_words()
    ensures
        "layout"@ != "fills"@,
        "layout"@ != "strokes"@,
        "layout"@ != "effects"@,
        "layout"@ != "textStyle"@,
        "fills"@ != "strokes"@,
        "fills"@ != "effects"@,
        "fills"@ != "textStyle"@,
        "strokes"@ != "effects"@,
        "strokes"@ != "textStyle"@,
        "effects"@ != "textStyle"@,
{
    reveal_strlit("layout");
    reveal_strlit("fills");
    reveal_strlit("strokes");
    reveal_strlit("effects");
    reveal_strlit("textStyle");
    assert("layout"@.len() == 6 && "fills"@.len() == 5 && "strokes"@.len() == 7);
    assert("effects"@.len() == 7 && "textStyle"@.len() == 9 && "effects"@[0] == 'e');
    assert("strokes"@[0] == 's');
}

proof fn lemma_staying(styles: Fields, named: Seq<Seq<char>>, refs: Seq<Seq<char>>, n: nat, i: int)
    requires
        0 <= i < n <= styles.len(),
        !run_style(styles[i].0),
        referred_twice(refs, styles[i].0) || (named.contains(styles[i].0) && refs.contains(styles[i].0)),
    ensures
        staying(styles, named, refs, n).contains(styles[i]),
    decreases n,
{
    let before = staying(styles, named, refs, (n - 1) as nat);
    let all = staying(styles, named, refs, n);
    if i == n - 1 {
        lemma_count(refs, styles[i].0, refs.len());
        lemma_count(named, styles[i].0, named.len());
        assert(all[before.len() as int] == styles[i]);
    } else {
        lemma_staying(styles, named, refs, (n - 1) as nat, i);
        let k = choose|k: int| 0 <= k < before.len() && before[k] == styles[i];
        assert(all[k] == styles[i]);
    }
}

/// A style that stays a reference stays among the styles: one that two places refer
/// to, and one that has a name and is referred to.
pub proof fn shared_styles_stay(styles: Fields, named: Seq<Seq<char>>, refs: Seq<Seq<char>>, i: int)
    requires
        0 <= i < styles.len(),
        !run_style(styles[i].0),
        referred_twice(refs, styles[i].0) || (named.contains(styles[i].0) && refs.contains(styles[i].0)),
    ensures
        staying(styles, named, refs, styles.len()).contains(styles[i]),
{
    lemma_staying(styles, named, refs, styles.len(), i);
}

// ---------------------------------------------------------------------------
// Components
// ---------------------------------------------------------------------------

proof fn lemma_puts(k: Seq<char>)
    ensures
        forall|o: Fields, x: Seq<char>, v: Json|
            #![trigger get(put(o, x, v), k)]
            get(put(o, x, v), k) == if x == k {
                Some(v)
            } else {
                get(o, k)
            },
        get(Fields::empty(), k) is None,
{
    lemma_key_from(Fields::empty(), k, 0);
    assert forall|o: Fields, x: Seq<char>, v: Json|
        #![trigger get(put(o, x, v), k)]
        get(put(o, x, v), k) == if x == k {
            Some(v)
        } else {
            get(o, k)
        } by {
        get_after_put(o, x, v, k);
    }
}

proof fn lemma_listing(all: Fields, extra: Seq<char>, defs: Fields, n: nat, i: int)
    requires
        0 <= i < n <= all.len(),
        forall|j: int| i < j < n ==> (#[trigger] all[j]).0 != all[i].0,
    ensures
        get(listing(all, extra, defs, n), all[i].0) == Some(listed(all[i].0, all[i].1, extra, defs)),
    decreases n,
{
    lemma_puts(all[i].0);
    if i < n - 1 {
        lemma_listing(all, extra, defs, (n - 1) as nat, i);
    }
}

proof fn lemma_listing_words()
    ensures
        "id"@ != "key"@,
        "id"@ != "name"@,
        "id"@ != "propertyDefinitions"@,
        "id"@ != "componentSetId"@,
        "id"@ != "description"@,
        "key"@ != "name"@,
        "key"@ != "propertyDefinitions"@,
        "key"@ != "componentSetId"@,
        "key"@ != "description"@,
        "name"@ != "propertyDefinitions"@,
        "name"@ != "componentSetId"@,
        "name"@ != "description"@,
        "propertyDefinitions"@ != "componentSetId"@,
        "propertyDefinitions"@ != "description"@,
{
    reveal_strlit("id");
    reveal_strlit("key");
    reveal_strlit("name");
    reveal_strlit("propertyDefinitions");
    reveal_strlit("componentSetId");
    reveal_strlit("description");
    assert("id"@.len() == 2 && "key"@.len() == 3 && "name"@.len() == 4);
    assert("propertyDefinitions"@.len() == 19 && "componentSetId"@.len() == 14 && "description"@.len() == 11);
}

/// Every component is listed under its id, with its id, its key, its name, one more
/// field of its kind, and the definitions of its properties.
pub proof fn components_are_listed(all: Fields, extra: Seq<char>, defs: Fields, i: int)
    requires
        0 <= i < all.len(),
        forall|j: int| i < j < all.len() ==> (#[trigger] all[j]).0 != all[i].0,
        extra == "componentSetId"@ || extra == "description"@,
    ensures
        get(listing(all, extra, defs, all.len()), all[i].0) matches Some(c) && {
            &&& field(c, "id"@) == Some(Json::Str(all[i].0))
            &&& field(c, "key"@) == field(all[i].1, "key"@)
            &&& field(c, "name"@) == field(all[i].1, "name"@)
            &&& field(c, extra) == field(all[i].1, extra)
            &&& field(c, "propertyDefinitions"@) == get(defs, all[i].0)
        },
{
    lemma_listing_words();
    lemma_listing(all, extra, defs, all.len(), i);
    lemma_puts("id"@);
    lemma_puts("key"@);
    lemma_puts("name"@);
    lemma_puts(extra);
    lemma_puts("propertyDefinitions"@);
}

/// Whether a property is a switch or a text, with a value.
pub open spec fn valued(prop: Json, v: Json) -> bool {
    (str_field(prop, "type"@) == Some("BOOLEAN"@) || str_field(prop, "type"@) == Some("TEXT"@)) && field(prop, "value"@)
        == Some(v)
}

proof fn lemma_properties(props: Fields, n: nat, i: int, v: Json)
    requires
        0 <= i < n <= props.len(),
        valued(props[i].1, v),
        forall|j: int| i < j < n ==> bare_name((#[trigger] props[j]).0) != bare_name(props[i].0),
    ensures
        get(properties(props, n), bare_name(props[i].0)) == Some(v),
    decreases n,
{
    lemma_puts(bare_name(props[i].0));
    if i < n - 1 {
        lemma_properties(props, (n - 1) as nat, i, v);
        assert(bare_name(props[n - 1].0) != bare_name(props[i].0));
    }
}

/// The properties of an instance tell the values of its switches and texts under
/// their bare names.
pub proof fn properties_are_told(props: Fields, i: int, v: Json)
    requires
        0 <= i < props.len(),
        valued(props[i].1, v),
        forall|j: int| i < j < props.len() ==> bare_name((#[trigger] props[j]).0) != bare_name(props[i].0),
    ensures
        get(properties(props, props.len()), bare_name(props[i].0)) == Some(v),
{
    lemma_properties(props, props.len(), i, v);
}

proof fn lemma_definitions(defs: Fields, n: nat, i: int)
    requires
        0 <= i < n <= defs.len(),
        definition_of(defs[i].1) is Some,
        forall|j: int| i < j < n ==> bare_name((#[trigger] defs[j]).0) != bare_name(defs[i].0),
    ensures
        get(definitions(defs, n), bare_name(defs[i].0)) == definition_of(defs[i].1),
    decreases n,
{
    lemma_puts(bare_name(defs[i].0));
    if i < n - 1 {
        lemma_definitions(defs, (n - 1) as nat, i);
        assert(bare_name(defs[n - 1].0) != bare_name(defs[i].0));
    }
}

/// The properties that a component defines tell their kind and their default under
/// their bare names: switches and texts.
pub proof fn definitions_are_told(defs: Fields, i: int)
    requires
        0 <= i < defs.len(),
        forall|j: int| i < j < defs.len() ==> bare_name((#[trigger] defs[j]).0) != bare_name(defs[i].0),
    ensures
        str_field(defs[i].1, "type"@) == Some("BOOLEAN"@) ==> (get(definitions(defs, defs.len()), bare_name(defs[i].0)) matches Some(
            d,
        ) && field(d, "type"@) == Some(Json::Str("boolean"@)) && field(d, "defaultValue"@) == field(
            defs[i].1,
            "defaultValue"@,
        )),
        str_field(defs[i].1, "type"@) == Some("TEXT"@) ==> (get(definitions(defs, defs.len()), bare_name(defs[i].0)) matches Some(
            d,
        ) && field(d, "type"@) == Some(Json::Str("text"@)) && field(d, "defaultValue"@) == field(
            defs[i].1,
            "defaultValue"@,
        )),
{
    reveal_strlit("type");
    reveal_strlit("defaultValue");
    reveal_strlit("BOOLEAN");
    reveal_strlit("TEXT");
    assert("type"@.len() == 4 && "defaultValue"@.len() == 12 && "BOOLEAN"@.len() == 7 && "TEXT"@.len() == 4);
    lemma_puts("type"@);
    lemma_puts("defaultValue"@);
    if definition_of(defs[i].1) is Some {
        lemma_definitions(defs, defs.len(), i);
    }
}

/// A node refers to the properties that show it and that hold its text, by their
/// bare names.
pub proof fn references_are_told(refs: Fields, name: Seq<char>)
    requires
        refs.len() == 1,
    ensures
        refs[0] == ("visible"@, Json::Str(name)) ==> get(references(refs, 1), "visible"@) == Some(
            Json::Str(bare_name(name)),
        ),
        refs[0] == ("characters"@, Json::Str(name)) ==> get(references(refs, 1), "text"@) == Some(
            Json::Str(bare_name(name)),
        ),
{
    reveal_strlit("visible");
    reveal_strlit("characters");
    assert("visible"@.len() == 7 && "characters"@.len() == 10);
    lemma_puts("visible"@);
    lemma_puts("text"@);
    assert(references(refs, 0) =~= Fields::empty());
}

/// The design of a whole file lists the components of the file and their sets under
/// their ids, with their keys and their names.
pub proof fn designs_list_their_components(
    body: Json,
    all: Fields,
    sets: Fields,
    levels: Option<nat>,
    turns: Turns,
    i: int,
)
    requires
        field(body, "nodes"@) is None,
        obj_field(body, "components"@) == Some(all),
        obj_field(body, "componentSets"@) == Some(sets),
    ensures
        simplified(body, levels, turns) matches Ok(d) && {
            &&& 0 <= i < all.len() && (forall|j: int| i < j < all.len() ==> (#[trigger] all[j]).0 != all[i].0) ==> (get(
                d.components,
                all[i].0,
            ) matches Some(c) && field(c, "id"@) == Some(Json::Str(all[i].0)) && field(c, "key"@) == field(
                all[i].1,
                "key"@,
            ) && field(c, "name"@) == field(all[i].1, "name"@) && field(c, "componentSetId"@) == field(
                all[i].1,
                "componentSetId"@,
            ))
            &&& 0 <= i < sets.len() && (forall|j: int| i < j < sets.len() ==> (#[trigger] sets[j]).0 != sets[i].0) ==> (get(
                d.component_sets,
                sets[i].0,
            ) matches Some(c) && field(c, "id"@) == Some(Json::Str(sets[i].0)) && field(c, "key"@) == field(
                sets[i].1,
                "key"@,
            ) && field(c, "name"@) == field(sets[i].1, "name"@) && field(c, "description"@) == field(
                sets[i].1,
                "description"@,
            ))
        },
{
    let src = source(body)->Ok_0;
    let (nodes, s) = walked_roots(src.nodes, levels, fresh(src.styles, turns), src.nodes.len());
    if 0 <= i < all.len() && (forall|j: int| i < j < all.len() ==> (#[trigger] all[j]).0 != all[i].0) {
        components_are_listed(all, "componentSetId"@, s.defs, i);
    }
    if 0 <= i < sets.len() && (forall|j: int| i < j < sets.len() ==> (#[trigger] sets[j]).0 != sets[i].0) {
        components_are_listed(sets, "description"@, s.defs, i);
    }
}

} // verus!
