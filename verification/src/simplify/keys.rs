//! The keys of nodes: the walk and the last pass give each node each key once,
//! and only a reference to an element has a template.

use vstd::prelude::*;

use crate::json::{arr_field, get, get_after_put, lemma_key_from, lemma_put_unique, put, unique_keys, Fields, Json};
use crate::simplify::depth::{lemma_moved_children, lemma_own_childless, lemma_plain_keys};
use crate::simplify::design::walked_roots;
use crate::simplify::finalize::{inlined, inlined_upto, ref_keys, with_moved};
use crate::simplify::finished::{objects_in, objects_of};
use crate::simplify::registry::State;
use crate::simplify::walk::{
    below, inside_of, lemma_children_smaller, own_step, shown_order, walked, walked_kids, with_children,
};

verus! {

/// Whether an object has each key once, and is no reference to an element.
pub open spec fn tidy(o: Fields) -> bool {
    unique_keys(o) && get(o, "template"@) is None
}

/// Whether each object is tidy.
pub open spec fn each_tidy(objects: Seq<Fields>) -> bool {
    forall|j: int| 0 <= j < objects.len() ==> tidy(#[trigger] objects[j])
}

proof fn lemma_tidy_puts()
    ensures
        tidy(Fields::empty()),
        forall|o: Fields, k: Seq<char>, v: Json|
            tidy(o) && k != "template"@ ==> tidy(#[trigger] put(o, k, v)),
{
    lemma_key_from(Fields::empty(), "template"@, 0);
    assert forall|o: Fields, k: Seq<char>, v: Json| tidy(o) && k != "template"@ implies tidy(#[trigger] put(o, k, v)) by {
        lemma_put_unique(o, k, v);
        get_after_put(o, k, v, "template"@);
    }
}

proof fn lemma_keys_differ()
    ensures
        "id"@ != "template"@,
        "name"@ != "template"@,
        "type"@ != "template"@,
        "layout"@ != "template"@,
        "text"@ != "template"@,
        "boldWeight"@ != "template"@,
        "textStyle"@ != "template"@,
        "fills"@ != "template"@,
        "strokes"@ != "template"@,
        "strokeWeight"@ != "template"@,
        "strokeDashes"@ != "template"@,
        "strokeAlign"@ != "template"@,
        "effects"@ != "template"@,
        "opacity"@ != "template"@,
        "borderRadius"@ != "template"@,
        "componentId"@ != "template"@,
        "componentProperties"@ != "template"@,
        "componentPropertyReferences"@ != "template"@,
        "children"@ != "template"@,
{
    reveal_strlit("template");
    reveal_strlit("id");
    reveal_strlit("name");
    reveal_strlit("type");
    reveal_strlit("layout");
    reveal_strlit("text");
    reveal_strlit("boldWeight");
    reveal_strlit("textStyle");
    reveal_strlit("fills");
    reveal_strlit("strokes");
    reveal_strlit("strokeWeight");
    reveal_strlit("strokeDashes");
    reveal_strlit("strokeAlign");
    reveal_strlit("effects");
    reveal_strlit("opacity");
    reveal_strlit("borderRadius");
    reveal_strlit("componentId");
    reveal_strlit("componentProperties");
    reveal_strlit("componentPropertyReferences");
    reveal_strlit("children");
    assert("template"@.len() == 8 && "children"@[0] == 'c' && "template"@[0] == 't');
    assert("id"@.len() == 2 && "name"@.len() == 4 && "type"@.len() == 4 && "layout"@.len() == 6 && "text"@.len() == 4);
    assert("boldWeight"@.len() == 10 && "textStyle"@.len() == 9 && "fills"@.len() == 5 && "strokes"@.len() == 7);
    assert("strokeWeight"@.len() == 12 && "strokeDashes"@.len() == 12 && "strokeAlign"@.len() == 11);
    assert("effects"@.len() == 7 && "opacity"@.len() == 7 && "borderRadius"@.len() == 12 && "componentId"@.len() == 11);
    assert("componentProperties"@.len() == 19 && "componentPropertyReferences"@.len() == 27);
}

proof fn lemma_own_tidy(node: Json, parent: Option<Json>, s: State)
    ensures
        tidy(own_step(node, parent, s).fields),
{
    lemma_tidy_puts();
    lemma_keys_differ();
}

proof fn lemma_tidy_both(a: Seq<Fields>, b: Seq<Fields>)
    requires
        each_tidy(a),
        each_tidy(b),
    ensures
        each_tidy(a + b),
{
    assert forall|j: int| 0 <= j < (a + b).len() implies tidy(#[trigger] (a + b)[j]) by {
        if j < a.len() {
            assert((a + b)[j] == a[j]);
        } else {
            assert((a + b)[j] == b[j - a.len()]);
        }
    }
}

proof fn lemma_tidy_parts(a: Seq<Fields>, b: Seq<Fields>)
    requires
        each_tidy(a + b),
    ensures
        each_tidy(a),
        each_tidy(b),
{
    assert forall|j: int| 0 <= j < a.len() implies tidy(#[trigger] a[j]) by {
        assert((a + b)[j] == a[j]);
    }
    assert forall|j: int| 0 <= j < b.len() implies tidy(#[trigger] b[j]) by {
        assert((a + b)[a.len() + j] == b[j]);
    }
}

proof fn lemma_objects_push(nodes: Seq<Json>, x: Json, n: nat)
    requires
        n <= nodes.len(),
    ensures
        objects_in(nodes.push(x), n) == objects_in(nodes, n),
    decreases n,
{
    if n > 0 {
        assert(nodes.push(x)[n - 1] == nodes[n - 1]);
        lemma_objects_push(nodes, x, (n - 1) as nat);
    }
}

proof fn lemma_push_tidy(nodes: Seq<Json>, x: Json)
    requires
        each_tidy(objects_in(nodes, nodes.len())),
        each_tidy(objects_of(x)),
    ensures
        each_tidy(objects_in(nodes.push(x), nodes.len() + 1)),
{
    lemma_objects_push(nodes, x, nodes.len());
    lemma_tidy_both(objects_in(nodes, nodes.len()), objects_of(x));
    assert(nodes.push(x)[nodes.len() as int] == x);
}

/// The walk gives each node each key once, and makes no references to elements.
pub proof fn walked_nodes_are_tidy(node: Json, parent: Option<Json>, inside: bool, levels: Option<nat>, s: State)
    ensures
        walked(node, parent, inside, levels, s).0 matches Some(f) ==> each_tidy(objects_of(Json::Obj(f))),
    decreases node, 0nat,
{
    lemma_own_tidy(node, parent, s);
    lemma_own_childless(node, parent, s);
    let t = own_step(node, parent, s);
    assert(each_tidy(seq![t.fields]));
    assert(objects_of(Json::Obj(t.fields)) == seq![t.fields]);
    if let Some(kids) = arr_field(node, "children"@) {
        if levels != Some(0nat) && kids.len() > 0 {
            lemma_children_smaller(node);
            let order = shown_order(node, kids);
            let inner = inside_of(node, inside);
            let done = walked_kids(kids, order, kids.len(), node, inner, below(levels), t.state).0;
            lemma_kids_tidy(kids, order, kids.len(), node, inner, below(levels), t.state);
            lemma_tidy_puts();
            lemma_keys_differ();
            lemma_plain_keys();
            get_after_put(t.fields, "type"@, Json::Str("IMAGE-SVG"@), "children"@);
            get_after_put(t.fields, "children"@, Json::Arr(done), "children"@);
            let f = with_children(node, t.fields, done);
            assert(tidy(f));
            assert(each_tidy(seq![f]));
            lemma_tidy_both(seq![f], objects_in(done, done.len()));
        }
    }
}

proof fn lemma_kids_tidy(
    kids: Seq<Json>,
    order: Seq<int>,
    len: nat,
    node: Json,
    inside: bool,
    levels: Option<nat>,
    s: State,
)
    ensures
        ({
            let done = walked_kids(kids, order, len, node, inside, levels, s).0;
            each_tidy(objects_in(done, done.len()))
        }),
    decreases kids, len,
{
    if len > 0 {
        let (before, state) = walked_kids(kids, order, (len - 1) as nat, node, inside, levels, s);
        lemma_kids_tidy(kids, order, (len - 1) as nat, node, inside, levels, s);
        let i = order[len - 1];
        if 0 <= i < kids.len() {
            assert(decreases_to!(kids => kids[i]));
            walked_nodes_are_tidy(kids[i], Some(node), inside, levels, state);
            if let Some(f) = walked(kids[i], Some(node), inside, levels, state).0 {
                lemma_push_tidy(before, Json::Obj(f));
            }
        }
    }
}

/// The roots of a walk are tidy, with what is below them.
pub proof fn walked_roots_are_tidy(raw: Seq<Json>, levels: Option<nat>, s: State, n: nat)
    ensures
        ({
            let done = walked_roots(raw, levels, s, n).0;
            each_tidy(objects_in(done, done.len()))
        }),
    decreases n,
{
    if n > 0 {
        let (before, state) = walked_roots(raw, levels, s, (n - 1) as nat);
        walked_roots_are_tidy(raw, levels, s, (n - 1) as nat);
        walked_nodes_are_tidy(raw[n - 1], None, false, levels, state);
        if let Some(f) = walked(raw[n - 1], None, false, levels, state).0 {
            lemma_push_tidy(before, Json::Obj(f));
        }
    }
}

proof fn lemma_moved_tidy(o: Fields, styles: Fields, named: Seq<Seq<char>>, refs: Seq<Seq<char>>, n: nat)
    requires
        n <= 5,
        tidy(o),
    ensures
        tidy(with_moved(o, styles, named, refs, n)),
    decreases n,
{
    if n > 0 {
        lemma_moved_tidy(o, styles, named, refs, (n - 1) as nat);
        lemma_tidy_puts();
        lemma_keys_differ();
        let keys = ref_keys();
        assert(keys[0] == "layout"@ && keys[1] == "fills"@ && keys[2] == "strokes"@ && keys[3] == "effects"@ && keys[4]
            == "textStyle"@);
    }
}

/// Nodes stay tidy when styles move into them.
pub proof fn moved_nodes_are_tidy(node: Json, styles: Fields, named: Seq<Seq<char>>, refs: Seq<Seq<char>>)
    requires
        each_tidy(objects_of(node)),
    ensures
        each_tidy(objects_of(inlined(node, styles, named, refs))),
    decreases node, 0nat,
{
    if let Json::Obj(o) = node {
        lemma_tidy_puts();
        lemma_keys_differ();
        match arr_field(node, "children"@) {
            Some(kids) => {
                lemma_children_smaller(node);
                lemma_tidy_parts(seq![o], objects_in(kids, kids.len()));
                assert(tidy(seq![o][0]));
                let done = inlined_upto(kids, styles, named, refs, kids.len());
                lemma_list_moved_tidy(kids, styles, named, refs, kids.len());
                let p = put(o, "children"@, Json::Arr(done));
                get_after_put(o, "children"@, Json::Arr(done), "children"@);
                lemma_moved_children(p, styles, named, refs, 5);
                lemma_moved_tidy(p, styles, named, refs, 5);
                let q = with_moved(p, styles, named, refs, 5);
                assert(each_tidy(seq![q]));
                lemma_tidy_both(seq![q], objects_in(done, done.len()));
            },
            None => {
                assert(tidy(seq![o][0]));
                lemma_moved_children(o, styles, named, refs, 5);
                lemma_moved_tidy(o, styles, named, refs, 5);
            },
        }
    }
}

pub proof fn lemma_list_moved_tidy(
    nodes: Seq<Json>,
    styles: Fields,
    named: Seq<Seq<char>>,
    refs: Seq<Seq<char>>,
    n: nat,
)
    requires
        n <= nodes.len(),
        each_tidy(objects_in(nodes, n)),
    ensures
        inlined_upto(nodes, styles, named, refs, n).len() == n,
        each_tidy(objects_in(inlined_upto(nodes, styles, named, refs, n), n)),
    decreases nodes, n,
{
    if n > 0 {
        lemma_tidy_parts(objects_in(nodes, (n - 1) as nat), objects_of(nodes[n - 1]));
        lemma_list_moved_tidy(nodes, styles, named, refs, (n - 1) as nat);
        assert(decreases_to!(nodes => nodes[n - 1]));
        moved_nodes_are_tidy(nodes[n - 1], styles, named, refs);
        lemma_push_tidy(
            inlined_upto(nodes, styles, named, refs, (n - 1) as nat),
            inlined(nodes[n - 1], styles, named, refs),
        );
    }
}

} // verus!
