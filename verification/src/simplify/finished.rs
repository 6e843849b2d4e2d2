//! Finished designs: each reference to a style in the nodes and in the elements
//! leads to a style of the design.

use vstd::prelude::*;

use crate::json::{
    arr_field, get, get_after_put, has_key, key_from, lemma_key_from, put, put_some, unique_keys, without, Fields, Json,
};
use crate::json_reading::{fields_alike, object_texts_tell_their_fields, reads_alike};
use crate::simplify::canonical::{canon, canonical_keeps_fields, stable_text};
use crate::simplify::depth::{lemma_moved_children, lemma_plain_keys, lemma_ref_keys, plain};
use crate::simplify::design::{finished, simplified, source, walked_roots, Source};
use crate::simplify::finalize::{
    bodies_upto, body, body_field, body_upto, count, count_upto, element_for, elements_of, elements_upto, exclusive,
    exclusive_upto, inlined, inlined_upto, moves, no_bodies, node_refs, own_refs, ref_keys, reference, referring,
    refs_in, staying, templated, templated_upto, with_bodies, with_body, with_exclusive, with_moved, Bodies, BodyModel,
    Shared,
};
use crate::simplify::gradient::Turns;
use crate::simplify::hex::digest;
use crate::simplify::keys::{each_tidy, lemma_list_moved_tidy, tidy, walked_roots_are_tidy};
use crate::simplify::references::{
    all_lead, all_lead_in, inlined_references_lead, key_leads, leads, lemma_count_both, lemma_get_push, lemma_moved,
    lemma_no_text, lemma_own_count, lemma_own_counted, lemma_push_leads, lemma_put_plain, lemma_same_refs, no_text,
    other_styles_stay, own_count, root_references_lead, sound,
};
use crate::simplify::registry::{fresh, State};
use crate::simplify::sharing::{
    apart, lemma_keeps, lemma_row_count, lemma_rows_differ, own_text, reference_leads_to_its_body,
    repeated_bodies_are_elements, row_is, texts_in, texts_of,
};
use crate::simplify::walk::lemma_children_smaller;

verus! {

// ---------------------------------------------------------------------------
// Objects
// ---------------------------------------------------------------------------

/// A node and what is below it, as objects.
pub open spec fn objects_of(node: Json) -> Seq<Fields>
    decreases node, 0nat,
{
    match node {
        Json::Obj(o) => match arr_field(node, "children"@) {
            Some(kids) => {
                proof {
                    lemma_children_smaller(node);
                }
                seq![o] + objects_in(kids, kids.len())
            },
            None => seq![o],
        },
        _ => Seq::empty(),
    }
}

/// The first `n` nodes and what is below them, as objects.
pub open spec fn objects_in(nodes: Seq<Json>, n: nat) -> Seq<Fields>
    decreases nodes, n,
{
    if n == 0 || n > nodes.len() {
        Seq::empty()
    } else {
        objects_in(nodes, (n - 1) as nat) + objects_of(nodes[n - 1])
    }
}

/// The text of the body of an object.
pub open spec fn body_text(o: Fields) -> Seq<char> {
    stable_text(Json::Obj(body(o)))
}

/// Whether the body of an object can be shared.
pub open spec fn sharable(o: Fields) -> bool {
    body(o).len() > 1
}

/// Bodies with the same digest have the same text.
pub open spec fn told_apart(objects: Seq<Fields>) -> bool {
    forall|i: int, j: int|
        0 <= i < objects.len() && 0 <= j < objects.len() && sharable(#[trigger] objects[i]) && sharable(
            #[trigger] objects[j],
        ) && digest(body_text(objects[i])) == digest(body_text(objects[j])) ==> body_text(objects[i]) == body_text(
            objects[j],
        )
}

/// How often the first `n` objects refer to an id.
spec fn ref_sum(objects: Seq<Fields>, x: Seq<char>, n: nat) -> nat
    decreases n,
{
    if n == 0 {
        0
    } else {
        ref_sum(objects, x, (n - 1) as nat) + own_count(objects[n - 1], x, 5)
    }
}

/// Whether an object has a body with a text.
spec fn has_text(o: Fields, t: Seq<char>) -> bool {
    sharable(o) && body_text(o) == t
}

/// How many of the first `n` objects have a body with a text.
spec fn text_sum(objects: Seq<Fields>, t: Seq<char>, n: nat) -> nat
    decreases n,
{
    if n == 0 {
        0
    } else if has_text(objects[n - 1], t) {
        text_sum(objects, t, (n - 1) as nat) + 1
    } else {
        text_sum(objects, t, (n - 1) as nat)
    }
}

proof fn lemma_sums_prefix(a: Seq<Fields>, b: Seq<Fields>, x: Seq<char>, n: nat)
    requires
        n <= a.len(),
    ensures
        ref_sum(a + b, x, n) == ref_sum(a, x, n),
        text_sum(a + b, x, n) == text_sum(a, x, n),
    decreases n,
{
    if n > 0 {
        assert((a + b)[n - 1] == a[n - 1]);
        lemma_sums_prefix(a, b, x, (n - 1) as nat);
    }
}

proof fn lemma_sums_rest(a: Seq<Fields>, b: Seq<Fields>, x: Seq<char>, n: nat)
    requires
        n <= b.len(),
    ensures
        ref_sum(a + b, x, a.len() + n) == ref_sum(a, x, a.len()) + ref_sum(b, x, n),
        text_sum(a + b, x, a.len() + n) == text_sum(a, x, a.len()) + text_sum(b, x, n),
    decreases n,
{
    if n == 0 {
        lemma_sums_prefix(a, b, x, a.len());
    } else {
        assert((a + b)[a.len() + n - 1] == b[n - 1]);
        lemma_sums_rest(a, b, x, (n - 1) as nat);
    }
}

proof fn lemma_one(o: Fields, x: Seq<char>)
    ensures
        ref_sum(seq![o], x, 1) == count(own_refs(o, 5), x),
        text_sum(seq![o], x, 1) == count(own_text(o), x),
{
    lemma_own_count(o, x, 5);
    assert(ref_sum(seq![o], x, 0) == 0);
    assert(text_sum(seq![o], x, 0) == 0);
    if sharable(o) {
        assert(count_upto(own_text(o), x, 0) == 0);
        assert(own_text(o)[0] == body_text(o));
    }
}

proof fn lemma_node_sums(node: Json, x: Seq<char>)
    ensures
        count(node_refs(node), x) == ref_sum(objects_of(node), x, objects_of(node).len()),
        count(texts_of(node), x) == text_sum(objects_of(node), x, objects_of(node).len()),
    decreases node, 0nat,
{
    match node {
        Json::Obj(o) => {
            lemma_one(o, x);
            if let Some(kids) = arr_field(node, "children"@) {
                lemma_children_smaller(node);
                let rest = objects_in(kids, kids.len());
                lemma_list_sums(kids, kids.len(), x);
                lemma_sums_rest(seq![o], rest, x, rest.len());
                lemma_count_both(own_refs(o, 5), refs_in(kids, kids.len()), x);
                lemma_count_both(own_text(o), texts_in(kids, kids.len()), x);
            }
        },
        _ => {},
    }
}

proof fn lemma_list_sums(nodes: Seq<Json>, n: nat, x: Seq<char>)
    requires
        n <= nodes.len(),
    ensures
        count(refs_in(nodes, n), x) == ref_sum(objects_in(nodes, n), x, objects_in(nodes, n).len()),
        count(texts_in(nodes, n), x) == text_sum(objects_in(nodes, n), x, objects_in(nodes, n).len()),
    decreases nodes, n,
{
    if n > 0 {
        let a = objects_in(nodes, (n - 1) as nat);
        let b = objects_of(nodes[n - 1]);
        lemma_list_sums(nodes, (n - 1) as nat, x);
        assert(decreases_to!(nodes => nodes[n - 1]));
        lemma_node_sums(nodes[n - 1], x);
        lemma_sums_rest(a, b, x, b.len());
        lemma_count_both(refs_in(nodes, (n - 1) as nat), node_refs(nodes[n - 1]), x);
        lemma_count_both(texts_in(nodes, (n - 1) as nat), texts_of(nodes[n - 1]), x);
    }
}

/// Whether an object refers to an id, and is not one of those with a text.
spec fn strays(o: Fields, x: Seq<char>, t: Seq<char>) -> bool {
    own_count(o, x, 5) > 0 && !has_text(o, t)
}

/// Where each object with a text refers to an id, the id is referred to as often
/// as the text occurs, or more often: where one refers to it twice, or where
/// another object does.
proof fn lemma_sums(objects: Seq<Fields>, x: Seq<char>, t: Seq<char>, c: nat, n: nat)
    requires
        n <= objects.len(),
        c > 0,
        forall|j: int| 0 <= j < objects.len() && has_text(#[trigger] objects[j], t) ==> own_count(objects[j], x, 5) == c,
    ensures
        ref_sum(objects, x, n) >= text_sum(objects, t, n),
        c >= 2 ==> ref_sum(objects, x, n) >= 2 * text_sum(objects, t, n),
        (exists|j: int| 0 <= j < n && strays(#[trigger] objects[j], x, t)) ==> ref_sum(objects, x, n) > text_sum(
            objects,
            t,
            n,
        ),
    decreases n,
{
    if n > 0 {
        lemma_sums(objects, x, t, c, (n - 1) as nat);
        if exists|j: int| 0 <= j < n && strays(#[trigger] objects[j], x, t) {
            let j = choose|j: int| 0 <= j < n && strays(#[trigger] objects[j], x, t);
            if j < n - 1 {
                assert(strays(objects[j], x, t));
            }
        }
    }
}

/// The references of each object lead to styles.
spec fn each_leads(objects: Seq<Fields>, styles: Fields) -> bool {
    forall|j: int| 0 <= j < objects.len() ==> leads(#[trigger] objects[j], styles)
}

proof fn lemma_each_leads(a: Seq<Fields>, b: Seq<Fields>, styles: Fields)
    requires
        each_leads(a, styles),
        each_leads(b, styles),
    ensures
        each_leads(a + b, styles),
{
    assert forall|j: int| 0 <= j < (a + b).len() implies leads(#[trigger] (a + b)[j], styles) by {
        if j < a.len() {
            assert((a + b)[j] == a[j]);
        } else {
            assert((a + b)[j] == b[j - a.len()]);
        }
    }
}

proof fn lemma_node_leads(node: Json, styles: Fields)
    requires
        all_lead(node, styles),
    ensures
        each_leads(objects_of(node), styles),
    decreases node, 0nat,
{
    if let Json::Obj(o) = node {
        assert(each_leads(seq![o], styles));
        if let Some(kids) = arr_field(node, "children"@) {
            lemma_children_smaller(node);
            lemma_list_leads(kids, kids.len(), styles);
            lemma_each_leads(seq![o], objects_in(kids, kids.len()), styles);
        }
    }
}

proof fn lemma_list_leads(nodes: Seq<Json>, n: nat, styles: Fields)
    requires
        n <= nodes.len(),
        all_lead_in(nodes, n, styles),
    ensures
        each_leads(objects_in(nodes, n), styles),
    decreases nodes, n,
{
    if n > 0 {
        lemma_list_leads(nodes, (n - 1) as nat, styles);
        assert(decreases_to!(nodes => nodes[n - 1]));
        lemma_node_leads(nodes[n - 1], styles);
        lemma_each_leads(objects_in(nodes, (n - 1) as nat), objects_of(nodes[n - 1]), styles);
    }
}

// ---------------------------------------------------------------------------
// Bodies
// ---------------------------------------------------------------------------

proof fn lemma_body_get(o: Fields, k: Seq<char>, n: nat)
    requires
        n <= o.len(),
        body_field(k),
    ensures
        get(body_upto(o, n), k) == get(o.take(n as int), k),
    decreases n,
{
    if n == 0 {
        lemma_key_from(Fields::empty(), k, 0);
        lemma_key_from(o.take(0), k, 0);
    } else {
        lemma_body_get(o, k, (n - 1) as nat);
        lemma_get_push(o.take(n - 1), o[n - 1], k);
        lemma_get_push(body_upto(o, (n - 1) as nat), o[n - 1], k);
        assert(o.take(n as int) =~= o.take(n - 1).push(o[n - 1]));
    }
}

/// A body has the references of its node.
proof fn lemma_body_refs(o: Fields, i: int)
    requires
        0 <= i < 5,
    ensures
        get(body(o), ref_keys()[i]) == get(o, ref_keys()[i]),
{
    lemma_plain_keys();
    lemma_ref_keys();
    assert(ref_keys()[i] != "children"@ && !plain(ref_keys()[i]));
    lemma_body_get(o, ref_keys()[i], o.len());
    assert(o.take(o.len() as int) =~= o);
}

proof fn lemma_own_count_alike(a: Fields, b: Fields, x: Seq<char>, n: nat)
    requires
        n <= 5,
        forall|i: int| 0 <= i < 5 ==> get(a, #[trigger] ref_keys()[i]) == get(b, ref_keys()[i]),
    ensures
        own_count(a, x, n) == own_count(b, x, n),
    decreases n,
{
    if n > 0 {
        lemma_own_count_alike(a, b, x, (n - 1) as nat);
        assert(get(a, ref_keys()[n - 1]) == get(b, ref_keys()[n - 1]));
    }
}

proof fn lemma_body_count(o: Fields, x: Seq<char>)
    ensures
        own_count(body(o), x, 5) == own_count(o, x, 5),
{
    assert forall|i: int| 0 <= i < 5 implies get(body(o), #[trigger] ref_keys()[i]) == get(o, ref_keys()[i]) by {
        lemma_body_refs(o, i);
    }
    lemma_own_count_alike(body(o), o, x, 5);
}

proof fn lemma_body_upto_children(o: Fields, p: Fields, at: int, n: nat)
    requires
        0 <= at < o.len(),
        p.len() == o.len(),
        n <= o.len(),
        o[at].0 == "children"@,
        p[at].0 == "children"@,
        forall|i: int| 0 <= i < o.len() && i != at ==> #[trigger] p[i] == o[i],
    ensures
        body_upto(p, n) == body_upto(o, n),
    decreases n,
{
    if n > 0 {
        lemma_body_upto_children(o, p, at, (n - 1) as nat);
        if n - 1 != at {
            assert(p[n - 1] == o[n - 1]);
        }
    }
}

/// Other children leave the body of a node as it is.
proof fn lemma_body_children(o: Fields, kids: Json)
    requires
        has_key(o, "children"@),
    ensures
        body(put(o, "children"@, kids)) == body(o),
{
    lemma_key_from(o, "children"@, 0);
    let at = key_from(o, "children"@, 0)->0;
    lemma_body_upto_children(o, put(o, "children"@, kids), at, o.len());
}

/// Each text is that of the body of an object.
spec fn texts_come_from(t: Seq<Seq<char>>, objects: Seq<Fields>) -> bool {
    forall|k: int| 0 <= k < t.len() ==> text_comes_from(#[trigger] t[k], objects)
}

spec fn text_comes_from(t: Seq<char>, objects: Seq<Fields>) -> bool {
    exists|j: int| 0 <= j < objects.len() && has_text(#[trigger] objects[j], t)
}

proof fn lemma_texts_both(a: Seq<Seq<char>>, x: Seq<Fields>, b: Seq<Seq<char>>, y: Seq<Fields>)
    requires
        texts_come_from(a, x),
        texts_come_from(b, y),
    ensures
        texts_come_from(a + b, x + y),
{
    assert forall|k: int| 0 <= k < (a + b).len() implies text_comes_from(#[trigger] (a + b)[k], x + y) by {
        if k < a.len() {
            assert(text_comes_from(a[k], x));
            let j = choose|j: int| 0 <= j < x.len() && has_text(#[trigger] x[j], a[k]);
            assert(has_text((x + y)[j], a[k]));
        } else {
            let m = k - a.len();
            assert(text_comes_from(b[m], y));
            let j = choose|j: int| 0 <= j < y.len() && has_text(#[trigger] y[j], b[m]);
            assert(has_text((x + y)[x.len() + j], b[m]));
        }
    }
}

proof fn lemma_node_texts(node: Json)
    ensures
        texts_come_from(texts_of(node), objects_of(node)),
    decreases node, 0nat,
{
    if let Json::Obj(o) = node {
        assert(texts_come_from(own_text(o), seq![o])) by {
            if sharable(o) {
                assert(has_text(seq![o][0], own_text(o)[0]));
            }
        }
        if let Some(kids) = arr_field(node, "children"@) {
            lemma_children_smaller(node);
            lemma_list_texts(kids, kids.len());
            lemma_texts_both(own_text(o), seq![o], texts_in(kids, kids.len()), objects_in(kids, kids.len()));
        }
    }
}

proof fn lemma_list_texts(nodes: Seq<Json>, n: nat)
    requires
        n <= nodes.len(),
    ensures
        texts_come_from(texts_in(nodes, n), objects_in(nodes, n)),
    decreases nodes, n,
{
    if n > 0 {
        lemma_list_texts(nodes, (n - 1) as nat);
        assert(decreases_to!(nodes => nodes[n - 1]));
        lemma_node_texts(nodes[n - 1]);
        lemma_texts_both(
            texts_in(nodes, (n - 1) as nat),
            objects_in(nodes, (n - 1) as nat),
            texts_of(nodes[n - 1]),
            objects_of(nodes[n - 1]),
        );
    }
}

proof fn lemma_apart(nodes: Seq<Json>)
    requires
        told_apart(objects_in(nodes, nodes.len())),
    ensures
        apart(texts_in(nodes, nodes.len())),
{
    let t = texts_in(nodes, nodes.len());
    let objects = objects_in(nodes, nodes.len());
    lemma_list_texts(nodes, nodes.len());
    assert forall|i: int, j: int|
        0 <= i < t.len() && 0 <= j < t.len() && digest(#[trigger] t[i]) == digest(#[trigger] t[j]) implies t[i] == t[j] by {
        assert(text_comes_from(t[i], objects));
        assert(text_comes_from(t[j], objects));
        let a = choose|a: int| 0 <= a < objects.len() && has_text(#[trigger] objects[a], t[i]);
        let b = choose|b: int| 0 <= b < objects.len() && has_text(#[trigger] objects[b], t[j]);
        assert(sharable(objects[a]) && sharable(objects[b]));
    }
}

/// A row holds the body of an object.
spec fn row_comes_from(row: BodyModel, objects: Seq<Fields>) -> bool {
    exists|j: int| 0 <= j < objects.len() && sharable(#[trigger] objects[j]) && row.body == body(objects[j])
}

spec fn rows_come_from(rows: Seq<BodyModel>, objects: Seq<Fields>) -> bool {
    forall|r: int| 0 <= r < rows.len() ==> row_comes_from(#[trigger] rows[r], objects)
}

proof fn lemma_rows_more(rows: Seq<BodyModel>, a: Seq<Fields>, b: Seq<Fields>)
    requires
        rows_come_from(rows, a),
    ensures
        rows_come_from(rows, a + b),
{
    assert forall|r: int| 0 <= r < rows.len() implies row_comes_from(#[trigger] rows[r], a + b) by {
        assert(row_comes_from(rows[r], a));
        let j = choose|j: int| 0 <= j < a.len() && sharable(#[trigger] a[j]) && rows[r].body == body(a[j]);
        assert(sharable((a + b)[j]));
    }
}

proof fn lemma_body_row(b: Bodies, objects: Seq<Fields>, o: Fields)
    requires
        rows_come_from(b.rows, objects),
    ensures
        rows_come_from(with_body(b, o).rows, objects + seq![o]),
{
    lemma_rows_more(b.rows, objects, seq![o]);
    let c = with_body(b, o);
    let all = objects + seq![o];
    assert forall|r: int| 0 <= r < c.rows.len() implies row_comes_from(#[trigger] c.rows[r], all) by {
        if r < b.rows.len() {
            assert(c.rows[r] == b.rows[r]);
        } else {
            assert(all[objects.len() as int] == o);
            assert(sharable(all[objects.len() as int]));
        }
    }
}

proof fn lemma_node_rows(b: Bodies, objects: Seq<Fields>, node: Json)
    requires
        rows_come_from(b.rows, objects),
    ensures
        rows_come_from(with_bodies(b, node).rows, objects + objects_of(node)),
    decreases node, 0nat,
{
    match node {
        Json::Obj(o) => {
            lemma_body_row(b, objects, o);
            if let Some(kids) = arr_field(node, "children"@) {
                lemma_children_smaller(node);
                let all = objects + seq![o];
                lemma_list_rows(with_body(b, o), all, kids, kids.len());
                assert(objects + objects_of(node) =~= all + objects_in(kids, kids.len()));
            }
        },
        _ => {
            assert(objects + objects_of(node) =~= objects);
        },
    }
}

proof fn lemma_list_rows(b: Bodies, objects: Seq<Fields>, nodes: Seq<Json>, n: nat)
    requires
        n <= nodes.len(),
        rows_come_from(b.rows, objects),
    ensures
        rows_come_from(bodies_upto(b, nodes, n).rows, objects + objects_in(nodes, n)),
    decreases nodes, n,
{
    if n == 0 {
        assert(objects + objects_in(nodes, n) =~= objects);
    } else {
        let all = objects + objects_in(nodes, (n - 1) as nat);
        lemma_list_rows(b, objects, nodes, (n - 1) as nat);
        assert(decreases_to!(nodes => nodes[n - 1]));
        lemma_node_rows(bodies_upto(b, nodes, (n - 1) as nat), all, nodes[n - 1]);
        assert(objects + objects_in(nodes, n) =~= all + objects_of(nodes[n - 1]));
    }
}

// ---------------------------------------------------------------------------
// Elements
// ---------------------------------------------------------------------------

/// An entry is a row that occurs again.
spec fn entry_is_row(b: Bodies, e: (Seq<char>, Json)) -> bool {
    count(b.seen, e.0) >= 2 && exists|q: int| 0 <= q < b.rows.len() && #[trigger] row_is(b, q, e.0, e.1)
}

proof fn lemma_put_entries(o: Fields, k: Seq<char>, v: Json)
    requires
        unique_keys(o),
    ensures
        unique_keys(put(o, k, v)),
        forall|i: int|
            0 <= i < put(o, k, v).len() ==> (#[trigger] put(o, k, v)[i] == (k, v) || (i < o.len() && put(o, k, v)[i] == o[i])),
{
    lemma_key_from(o, k, 0);
    let p = put(o, k, v);
    assert forall|i: int, j: int| 0 <= i < j < p.len() implies (#[trigger] p[i]).0 != (#[trigger] p[j]).0 by {
        if i < o.len() && j < o.len() {
            assert(o[i].0 != o[j].0);
            assert(p[i].0 == o[i].0 && p[j].0 == o[j].0);
        } else {
            assert(o[i].0 != k);
            assert(p[i] == o[i]);
        }
    }
}

proof fn lemma_entries(b: Bodies, n: nat)
    requires
        n <= b.rows.len(),
    ensures
        unique_keys(elements_upto(b, n)),
        forall|r: int| 0 <= r < elements_upto(b, n).len() ==> entry_is_row(b, #[trigger] elements_upto(b, n)[r]),
    decreases n,
{
    if n > 0 {
        lemma_entries(b, (n - 1) as nat);
        let before = elements_upto(b, (n - 1) as nat);
        let row = b.rows[n - 1];
        let v = Json::Obj(row.body);
        lemma_put_entries(before, row.id, v);
        if count(b.seen, row.id) >= 2 {
            assert(row_is(b, n - 1, row.id, v));
            let now = elements_upto(b, n);
            assert forall|r: int| 0 <= r < now.len() implies entry_is_row(b, #[trigger] now[r]) by {
                if now[r] == (row.id, v) {
                    assert(row_is(b, n - 1, now[r].0, now[r].1));
                } else {
                    assert(now[r] == before[r]);
                    assert(entry_is_row(b, before[r]));
                }
            }
        }
    }
}

/// What an element is: the body of an object, which occurs as often as its id
/// is seen.
spec fn element_fits(b: Bodies, t: Seq<Seq<char>>, objects: Seq<Fields>, e: (Seq<char>, Json), j: int) -> bool {
    &&& 0 <= j < objects.len()
    &&& sharable(objects[j])
    &&& e.1 == Json::Obj(body(objects[j]))
    &&& count(b.seen, e.0) == count(t, body_text(objects[j]))
    &&& count(b.seen, e.0) >= 2
}

proof fn lemma_element(nodes: Seq<Json>, r: int) -> (j: int)
    requires
        told_apart(objects_in(nodes, nodes.len())),
        0 <= r < elements_of(bodies_upto(no_bodies(), nodes, nodes.len())).len(),
    ensures
        ({
            let b = bodies_upto(no_bodies(), nodes, nodes.len());
            element_fits(b, texts_in(nodes, nodes.len()), objects_in(nodes, nodes.len()), elements_of(b)[r], j)
        }),
{
    let b = bodies_upto(no_bodies(), nodes, nodes.len());
    let t = texts_in(nodes, nodes.len());
    let objects = objects_in(nodes, nodes.len());
    let e = elements_of(b)[r];
    lemma_apart(nodes);
    lemma_keeps(nodes);
    lemma_entries(b, b.rows.len());
    assert(entry_is_row(b, e));
    let q = choose|q: int| 0 <= q < b.rows.len() && #[trigger] row_is(b, q, e.0, e.1);
    assert(row_is(b, q, e.0, e.1));
    lemma_list_rows(no_bodies(), Seq::empty(), nodes, nodes.len());
    assert(Seq::<Fields>::empty() + objects =~= objects);
    assert(row_comes_from(b.rows[q], objects));
    let j = choose|j: int| 0 <= j < objects.len() && sharable(#[trigger] objects[j]) && b.rows[q].body == body(objects[j]);
    lemma_row_count(b, t, q);
    j
}

/// Elements with the same text are the same element.
proof fn lemma_elements_differ(nodes: Seq<Json>, r: int, q: int)
    requires
        told_apart(objects_in(nodes, nodes.len())),
        ({
            let elements = elements_of(bodies_upto(no_bodies(), nodes, nodes.len()));
            &&& 0 <= r < elements.len()
            &&& 0 <= q < elements.len()
            &&& stable_text(elements[r].1) == stable_text(elements[q].1)
        }),
    ensures
        r == q,
{
    let b = bodies_upto(no_bodies(), nodes, nodes.len());
    let elements = elements_of(b);
    lemma_apart(nodes);
    lemma_keeps(nodes);
    lemma_entries(b, b.rows.len());
    assert(entry_is_row(b, elements[r]));
    assert(entry_is_row(b, elements[q]));
    let x = choose|x: int| 0 <= x < b.rows.len() && #[trigger] row_is(b, x, elements[r].0, elements[r].1);
    let y = choose|y: int| 0 <= y < b.rows.len() && #[trigger] row_is(b, y, elements[q].0, elements[q].1);
    lemma_rows_differ(b, texts_in(nodes, nodes.len()), x, y);
    assert(elements[r].0 == elements[q].0);
}

// ---------------------------------------------------------------------------
// Styles of one element
// ---------------------------------------------------------------------------

/// A style that left the styles for an element: the element referred to it
/// under the key at `i`, where the style stands now.
spec fn taken(o: Fields, p: Fields, x: Seq<char>, i: int) -> bool {
    &&& 0 <= i < 5
    &&& get(o, ref_keys()[i]) == Some(Json::Str(x))
    &&& !(get(p, ref_keys()[i]) matches Some(Json::Str(_)))
}

/// A style that left the styles for an element.
spec fn is_taken(o: Fields, p: Fields, x: Seq<char>) -> bool {
    exists|i: int| #[trigger] taken(o, p, x, i)
}

proof fn lemma_without(o: Fields, k: Seq<char>, x: Seq<char>)
    requires
        no_text(o),
    ensures
        no_text(without(o, k)),
        x != k && has_key(o, x) ==> has_key(without(o, k), x),
{
    lemma_key_from(o, k, 0);
    lemma_key_from(o, x, 0);
    let w = without(o, k);
    lemma_key_from(w, x, 0);
    if let Some(i) = key_from(o, k, 0) {
        assert forall|j: int| 0 <= j < w.len() implies !((#[trigger] w[j]).1 is Str) by {
            if j < i {
                assert(w[j] == o[j]);
            } else {
                assert(w[j] == o[j + 1]);
            }
        }
        if let Some(j) = key_from(o, x, 0) {
            if j < i {
                assert(w[j] == o[j]);
            } else if j > i {
                assert(w[j - 1] == o[j]);
            }
        }
    }
}

/// The first `n` keys: a text stays what it was, and a style that leaves is
/// taken, and used as often as the element occurs.
proof fn lemma_exclusive(s: Shared, named: Seq<Seq<char>>, refs: Seq<Seq<char>>, times: nat, x: Seq<char>, n: nat)
    requires
        n <= 5,
        no_text(s.styles),
    ensures
        ({
            let r = with_exclusive(s, named, refs, times, n);
            &&& no_text(r.styles)
            &&& forall|i: int| n <= i < 5 ==> get(r.fields, #[trigger] ref_keys()[i]) == get(s.fields, ref_keys()[i])
            &&& forall|i: int|
                0 <= i < 5 && get(r.fields, #[trigger] ref_keys()[i]) == Some(Json::Str(x)) ==> get(
                    s.fields,
                    ref_keys()[i],
                ) == Some(Json::Str(x))
            &&& has_key(s.styles, x) && !has_key(r.styles, x) ==> is_taken(s.fields, r.fields, x) && count(refs, x)
                == times
        }),
    decreases n,
{
    if n > 0 {
        lemma_ref_keys();
        let before = with_exclusive(s, named, refs, times, (n - 1) as nat);
        let r = with_exclusive(s, named, refs, times, n);
        let k = ref_keys()[n - 1];
        lemma_exclusive(s, named, refs, times, x, (n - 1) as nat);
        if let Some(Json::Str(id)) = get(before.fields, k) {
            lemma_exclusive(s, named, refs, times, id, (n - 1) as nat);
            if let Some(v) = get(before.styles, id) {
                if exclusive(id, before.styles, named, refs, times) {
                    lemma_no_text(before.styles, id);
                    lemma_without(before.styles, id, x);
                    assert forall|i: int| 0 <= i < 5 implies get(r.fields, #[trigger] ref_keys()[i]) == (if i == n - 1 {
                        Some(v)
                    } else {
                        get(before.fields, ref_keys()[i])
                    }) by {
                        get_after_put(before.fields, k, v, ref_keys()[i]);
                    }
                    if has_key(s.styles, x) && !has_key(r.styles, x) {
                        if has_key(before.styles, x) {
                            assert(x == id);
                            assert(taken(s.fields, r.fields, x, n - 1));
                        } else {
                            let i = choose|i: int| #[trigger] taken(s.fields, before.fields, x, i);
                            assert(taken(s.fields, r.fields, x, i));
                        }
                    }
                }
            }
        }
    }
}

/// The element at `r` took a style that is used as often as the element occurs.
spec fn gone(
    elements: Fields,
    now: Fields,
    refs: Seq<Seq<char>>,
    seen: Seq<Seq<char>>,
    x: Seq<char>,
    r: int,
) -> bool {
    &&& 0 <= r < elements.len()
    &&& 0 <= r < now.len()
    &&& elements[r].1 is Obj
    &&& now[r].1 is Obj
    &&& is_taken(elements[r].1->Obj_0, now[r].1->Obj_0, x)
    &&& count(refs, x) == count(seen, elements[r].0)
}

/// A style is there still, or an element took it.
spec fn kept_or_gone(
    elements: Fields,
    styles: Fields,
    s: Shared,
    refs: Seq<Seq<char>>,
    seen: Seq<Seq<char>>,
    x: Seq<char>,
) -> bool {
    has_key(styles, x) && !has_key(s.styles, x) ==> exists|r: int| #[trigger] gone(elements, s.fields, refs, seen, x, r)
}

/// The texts of the element at `r` are what they were.
spec fn texts_stay(elements: Fields, now: Fields, x: Seq<char>, r: int) -> bool {
    &&& elements[r].1 is Obj ==> now[r].1 is Obj
    &&& forall|i: int|
        0 <= i < 5 && elements[r].1 is Obj && get(now[r].1->Obj_0, #[trigger] ref_keys()[i]) == Some(Json::Str(x))
            ==> get(elements[r].1->Obj_0, ref_keys()[i]) == Some(Json::Str(x))
}

proof fn lemma_exclusive_upto(
    elements: Fields,
    styles: Fields,
    named: Seq<Seq<char>>,
    refs: Seq<Seq<char>>,
    seen: Seq<Seq<char>>,
    x: Seq<char>,
    n: nat,
)
    requires
        n <= elements.len(),
        no_text(styles),
    ensures
        ({
            let s = exclusive_upto(elements, styles, named, refs, seen, n);
            &&& s.fields.len() == n
            &&& no_text(s.styles)
            &&& kept_or_gone(elements, styles, s, refs, seen, x)
            &&& forall|r: int| 0 <= r < n ==> #[trigger] texts_stay(elements, s.fields, x, r)
        }),
    decreases n,
{
    if n > 0 {
        let before = exclusive_upto(elements, styles, named, refs, seen, (n - 1) as nat);
        let s = exclusive_upto(elements, styles, named, refs, seen, n);
        lemma_exclusive_upto(elements, styles, named, refs, seen, x, (n - 1) as nat);
        let (id, v) = elements[n - 1];
        let times = count(seen, id);
        if let Json::Obj(o) = v {
            lemma_exclusive(Shared { fields: o, styles: before.styles }, named, refs, times, x, 5);
        }
        assert forall|r: int| 0 <= r < n implies #[trigger] texts_stay(elements, s.fields, x, r) by {
            if r < n - 1 {
                assert(texts_stay(elements, before.fields, x, r));
                assert(s.fields[r] == before.fields[r]);
            }
        }
        if has_key(styles, x) && !has_key(s.styles, x) {
            if has_key(before.styles, x) {
                assert(gone(elements, s.fields, refs, seen, x, n - 1));
            } else {
                let r = choose|r: int| #[trigger] gone(elements, before.fields, refs, seen, x, r);
                assert(s.fields[r] == before.fields[r]);
                assert(gone(elements, s.fields, refs, seen, x, r));
            }
        }
    }
}

// ---------------------------------------------------------------------------
// Counts
// ---------------------------------------------------------------------------

proof fn lemma_own_count_iff(a: Fields, b: Fields, x: Seq<char>, n: nat)
    requires
        n <= 5,
        forall|i: int|
            0 <= i < 5 ==> (get(a, #[trigger] ref_keys()[i]) == Some(Json::Str(x)) <==> get(b, ref_keys()[i]) == Some(
                Json::Str(x),
            )),
    ensures
        own_count(a, x, n) == own_count(b, x, n),
    decreases n,
{
    if n > 0 {
        lemma_own_count_iff(a, b, x, (n - 1) as nat);
        assert(get(a, ref_keys()[n - 1]) == Some(Json::Str(x)) <==> get(b, ref_keys()[n - 1]) == Some(Json::Str(x)));
    }
}

proof fn lemma_moved_count(o: Fields, styles: Fields, named: Seq<Seq<char>>, refs: Seq<Seq<char>>, x: Seq<char>)
    requires
        no_text(styles),
        !moves(x, named, refs),
    ensures
        count(own_refs(with_moved(o, styles, named, refs, 5), 5), x) == count(own_refs(o, 5), x),
{
    let p = with_moved(o, styles, named, refs, 5);
    assert forall|i: int| 0 <= i < 5 implies (get(p, #[trigger] ref_keys()[i]) == Some(Json::Str(x)) <==> get(
        o,
        ref_keys()[i],
    ) == Some(Json::Str(x))) by {
        lemma_moved(o, styles, named, refs, i, 5);
        if let Some(Json::Str(id)) = get(o, ref_keys()[i]) {
            lemma_no_text(styles, id);
        }
    }
    lemma_own_count_iff(p, o, x, 5);
    lemma_own_count(p, x, 5);
    lemma_own_count(o, x, 5);
}

/// The styles that move leave the references to the others as they are.
proof fn lemma_inlined_count(
    node: Json,
    styles: Fields,
    named: Seq<Seq<char>>,
    refs: Seq<Seq<char>>,
    x: Seq<char>,
)
    requires
        no_text(styles),
        !moves(x, named, refs),
    ensures
        count(node_refs(inlined(node, styles, named, refs)), x) == count(node_refs(node), x),
    decreases node, 0nat,
{
    if let Json::Obj(o) = node {
        match arr_field(node, "children"@) {
            Some(kids) => {
                lemma_children_smaller(node);
                let done = inlined_upto(kids, styles, named, refs, kids.len());
                let p = put(o, "children"@, Json::Arr(done));
                lemma_list_inlined_count(kids, styles, named, refs, x, kids.len());
                lemma_moved_count(p, styles, named, refs, x);
                lemma_same_refs(o, Json::Arr(done));
                get_after_put(o, "children"@, Json::Arr(done), "children"@);
                lemma_moved_children(p, styles, named, refs, 5);
                lemma_count_both(own_refs(o, 5), refs_in(kids, kids.len()), x);
                lemma_count_both(
                    own_refs(with_moved(p, styles, named, refs, 5), 5),
                    refs_in(done, done.len()),
                    x,
                );
            },
            None => {
                lemma_moved_count(o, styles, named, refs, x);
                lemma_moved_children(o, styles, named, refs, 5);
            },
        }
    }
}

proof fn lemma_list_inlined_count(
    nodes: Seq<Json>,
    styles: Fields,
    named: Seq<Seq<char>>,
    refs: Seq<Seq<char>>,
    x: Seq<char>,
    n: nat,
)
    requires
        n <= nodes.len(),
        no_text(styles),
        !moves(x, named, refs),
    ensures
        inlined_upto(nodes, styles, named, refs, n).len() == n,
        count(refs_in(inlined_upto(nodes, styles, named, refs, n), n), x) == count(refs_in(nodes, n), x),
    decreases nodes, n,
{
    if n > 0 {
        let before = inlined_upto(nodes, styles, named, refs, (n - 1) as nat);
        let one = inlined(nodes[n - 1], styles, named, refs);
        lemma_list_inlined_count(nodes, styles, named, refs, x, (n - 1) as nat);
        assert(decreases_to!(nodes => nodes[n - 1]));
        lemma_inlined_count(nodes[n - 1], styles, named, refs, x);
        lemma_refs_push(before, one, (n - 1) as nat);
        lemma_count_both(refs_in(nodes, (n - 1) as nat), node_refs(nodes[n - 1]), x);
        lemma_count_both(refs_in(before.push(one), (n - 1) as nat), node_refs(one), x);
    }
}

proof fn lemma_refs_push(nodes: Seq<Json>, x: Json, n: nat)
    requires
        n <= nodes.len(),
    ensures
        refs_in(nodes.push(x), n) == refs_in(nodes, n),
    decreases n,
{
    if n > 0 {
        assert(nodes.push(x)[n - 1] == nodes[n - 1]);
        lemma_refs_push(nodes, x, (n - 1) as nat);
    }
}

proof fn lemma_body_unique(o: Fields, n: nat)
    requires
        unique_keys(o),
        n <= o.len(),
    ensures
        unique_keys(body_upto(o, n)),
        forall|i: int|
            0 <= i < body_upto(o, n).len() ==> exists|j: int| 0 <= j < n && o[j] == #[trigger] body_upto(o, n)[i],
    decreases n,
{
    if n > 0 {
        let before = body_upto(o, (n - 1) as nat);
        let now = body_upto(o, n);
        lemma_body_unique(o, (n - 1) as nat);
        assert forall|i: int| 0 <= i < now.len() implies exists|j: int| 0 <= j < n && o[j] == #[trigger] now[i] by {
            if i < before.len() {
                assert(now[i] == before[i]);
                let j = choose|j: int| 0 <= j < n - 1 && o[j] == before[i];
                assert(o[j] == now[i]);
            } else {
                assert(o[n - 1] == now[i]);
            }
        }
        assert forall|i: int, j: int| 0 <= i < j < now.len() implies (#[trigger] now[i]).0 != (#[trigger] now[j]).0 by {
            assert(now[i] == before[i]);
            if j < before.len() {
                assert(now[j] == before[j]);
            } else {
                let m = choose|m: int| 0 <= m < n - 1 && o[m] == before[i];
                assert(o[m].0 != o[n - 1].0);
            }
        }
    }
}

/// Fields that read alike have the same texts under the same keys.
proof fn lemma_alike_get(a: Fields, b: Fields, k: Seq<char>, x: Seq<char>)
    requires
        fields_alike(a, b),
        get(a, k) == Some(Json::Str(x)),
    ensures
        get(b, k) == Some(Json::Str(x)),
{
    lemma_key_from(a, k, 0);
    lemma_key_from(b, k, 0);
    let i = key_from(a, k, 0)->0;
    assert(a[i].0 == b[i].0 && reads_alike(a[i].1, b[i].1));
    let j = key_from(b, k, 0)->0;
    if j < i {
        assert(a[j].0 == b[j].0);
    }
    if i < j {
        assert(b[i].0 != k);
    }
}

/// Objects whose bodies have the same text refer to the same styles under the
/// same keys.
pub proof fn same_texts_refer_alike(o: Fields, w: Fields, i: int, x: Seq<char>)
    requires
        unique_keys(o),
        unique_keys(w),
        body_text(o) == body_text(w),
        0 <= i < 5,
    ensures
        get(o, ref_keys()[i]) == Some(Json::Str(x)) <==> get(w, ref_keys()[i]) == Some(Json::Str(x)),
{
    let k = ref_keys()[i];
    lemma_body_unique(o, o.len());
    lemma_body_unique(w, w.len());
    canonical_keeps_fields(body(o), k);
    canonical_keeps_fields(body(w), k);
    lemma_body_refs(o, i);
    lemma_body_refs(w, i);
    let a = canon(Json::Obj(body(o)))->Obj_0;
    let b = canon(Json::Obj(body(w)))->Obj_0;
    object_texts_tell_their_fields(a, b);
    object_texts_tell_their_fields(b, a);
    if get(a, k) == Some(Json::Str(x)) {
        lemma_alike_get(a, b, k, x);
    }
    if get(b, k) == Some(Json::Str(x)) {
        lemma_alike_get(b, a, k, x);
    }
}

proof fn lemma_counts_alike(o: Fields, w: Fields, x: Seq<char>)
    requires
        unique_keys(o),
        unique_keys(w),
        body_text(o) == body_text(w),
    ensures
        own_count(o, x, 5) == own_count(w, x, 5),
{
    assert forall|i: int| 0 <= i < 5 implies (get(o, #[trigger] ref_keys()[i]) == Some(Json::Str(x)) <==> get(
        w,
        ref_keys()[i],
    ) == Some(Json::Str(x))) by {
        same_texts_refer_alike(o, w, i, x);
    }
    lemma_own_count_iff(o, w, x, 5);
}

/// A style that an element took is used by the objects with the body of the
/// element only, once by each.
proof fn lemma_gone(nodes: Seq<Json>, now: Fields, refs: Seq<Seq<char>>, x: Seq<char>, r: int)
    requires
        told_apart(objects_in(nodes, nodes.len())),
        each_tidy(objects_in(nodes, nodes.len())),
        count(refs, x) == count(refs_in(nodes, nodes.len()), x),
        ({
            let b = bodies_upto(no_bodies(), nodes, nodes.len());
            gone(elements_of(b), now, refs, b.seen, x, r)
        }),
    ensures
        ({
            let objects = objects_in(nodes, nodes.len());
            let e = elements_of(bodies_upto(no_bodies(), nodes, nodes.len()))[r].1;
            &&& own_count(e->Obj_0, x, 5) == 1
            &&& count(texts_in(nodes, nodes.len()), stable_text(e)) >= 2
            &&& forall|j: int|
                0 <= j < objects.len() && own_count(#[trigger] objects[j], x, 5) > 0 ==> has_text(
                    objects[j],
                    stable_text(e),
                )
        }),
{
    let b = bodies_upto(no_bodies(), nodes, nodes.len());
    let objects = objects_in(nodes, nodes.len());
    let n = objects.len();
    let e = elements_of(b)[r].1;
    let first = lemma_element(nodes, r);
    let t = body_text(objects[first]);
    let c = own_count(objects[first], x, 5);
    lemma_body_count(objects[first], x);
    let i = choose|i: int| #[trigger] taken(e->Obj_0, now[r].1->Obj_0, x, i);
    lemma_own_counted(e->Obj_0, x, i, 5);
    lemma_own_count(objects[first], x, 5);
    assert forall|j: int| 0 <= j < n && has_text(#[trigger] objects[j], t) implies own_count(objects[j], x, 5) == c by {
        assert(tidy(objects[j]) && tidy(objects[first]));
        lemma_counts_alike(objects[j], objects[first], x);
    }
    lemma_sums(objects, x, t, c, n);
    lemma_list_sums(nodes, nodes.len(), x);
    lemma_list_sums(nodes, nodes.len(), t);
    assert forall|j: int| 0 <= j < n && own_count(#[trigger] objects[j], x, 5) > 0 implies has_text(objects[j], t) by {
        if !has_text(objects[j], t) {
            assert(strays(objects[j], x, t));
        }
    }
}

// ---------------------------------------------------------------------------
// Designs
// ---------------------------------------------------------------------------

/// An object that becomes a reference to an element, or whose own references
/// lead to styles.
spec fn settled(o: Fields, elements: Fields, styles: Fields) -> bool {
    leads(o, styles) || (sharable(o) && element_for(elements, body_text(o), digest(body_text(o)), 8) is Some)
}

spec fn all_settled(objects: Seq<Fields>, elements: Fields, styles: Fields) -> bool {
    forall|j: int| 0 <= j < objects.len() ==> settled(#[trigger] objects[j], elements, styles)
}

proof fn lemma_settled_parts(a: Seq<Fields>, b: Seq<Fields>, elements: Fields, styles: Fields)
    requires
        all_settled(a + b, elements, styles),
    ensures
        all_settled(a, elements, styles),
        all_settled(b, elements, styles),
{
    assert forall|j: int| 0 <= j < a.len() implies settled(#[trigger] a[j], elements, styles) by {
        assert((a + b)[j] == a[j]);
    }
    assert forall|j: int| 0 <= j < b.len() implies settled(#[trigger] b[j], elements, styles) by {
        assert((a + b)[a.len() + j] == b[j]);
    }
}

/// A reference to an element refers to no style itself.
proof fn lemma_reference_leads(o: Fields, id: Seq<char>, styles: Fields)
    ensures
        leads(reference(o, id), styles),
{
    lemma_plain_keys();
    let e = Fields::empty();
    assert forall|i: int| 0 <= i < 5 implies #[trigger] key_leads(e, styles, i) by {
        lemma_key_from(e, ref_keys()[i], 0);
    }
    let a = put_some(e, "id"@, get(o, "id"@));
    let b = put_some(a, "name"@, get(o, "name"@));
    let c = put(b, "template"@, Json::Str(id));
    lemma_put_plain(e, "id"@, get(o, "id"@), styles);
    lemma_put_plain(a, "name"@, get(o, "name"@), styles);
    lemma_put_plain(b, "template"@, Some(Json::Str(id)), styles);
    lemma_put_plain(c, "children"@, get(o, "children"@), styles);
}

proof fn lemma_referring_leads(o: Fields, elements: Fields, styles: Fields)
    requires
        settled(o, elements, styles),
    ensures
        leads(referring(o, elements), styles),
{
    if sharable(o) {
        if let Some(id) = element_for(elements, body_text(o), digest(body_text(o)), 8) {
            lemma_reference_leads(o, id, styles);
        }
    }
}

proof fn lemma_templated_leads(node: Json, elements: Fields, styles: Fields)
    requires
        all_settled(objects_of(node), elements, styles),
    ensures
        all_lead(templated(node, elements), styles),
    decreases node, 0nat,
{
    if let Json::Obj(o) = node {
        match arr_field(node, "children"@) {
            Some(kids) => {
                lemma_children_smaller(node);
                lemma_settled_parts(seq![o], objects_in(kids, kids.len()), elements, styles);
                assert(settled(seq![o][0], elements, styles));
                let done = Json::Arr(templated_upto(kids, elements, kids.len()));
                lemma_list_templated_leads(kids, elements, styles, kids.len());
                let p = put(o, "children"@, done);
                lemma_key_from(o, "children"@, 0);
                lemma_body_children(o, done);
                if leads(o, styles) {
                    lemma_put_plain(o, "children"@, Some(done), styles);
                }
                lemma_referring_leads(p, elements, styles);
                get_after_put(o, "children"@, done, "children"@);
                reference_leads_to_its_body(p, elements);
            },
            None => {
                assert(settled(seq![o][0], elements, styles));
                lemma_referring_leads(o, elements, styles);
                reference_leads_to_its_body(o, elements);
            },
        }
    }
}

proof fn lemma_list_templated_leads(nodes: Seq<Json>, elements: Fields, styles: Fields, n: nat)
    requires
        n <= nodes.len(),
        all_settled(objects_in(nodes, n), elements, styles),
    ensures
        templated_upto(nodes, elements, n).len() == n,
        all_lead_in(templated_upto(nodes, elements, n), n, styles),
    decreases nodes, n,
{
    if n > 0 {
        lemma_settled_parts(objects_in(nodes, (n - 1) as nat), objects_of(nodes[n - 1]), elements, styles);
        lemma_list_templated_leads(nodes, elements, styles, (n - 1) as nat);
        assert(decreases_to!(nodes => nodes[n - 1]));
        lemma_templated_leads(nodes[n - 1], elements, styles);
        lemma_push_leads(
            templated_upto(nodes, elements, (n - 1) as nat),
            templated(nodes[n - 1], elements),
            styles,
        );
    }
}

/// The nodes of a design when the styles that are used once have moved.
pub open spec fn moved_nodes(nodes: Seq<Json>, s: State) -> Seq<Json> {
    inlined_upto(nodes, s.styles, s.named, refs_in(nodes, nodes.len()), nodes.len())
}

/// Whether the references of each element lead to styles.
pub open spec fn elements_lead(elements: Fields, styles: Fields) -> bool {
    forall|r: int|
        0 <= r < elements.len() ==> ((#[trigger] elements[r]).1 matches Json::Obj(o) ==> leads(o, styles))
}

/// The last pass leaves no reference behind: those in the nodes, and those in
/// the elements, lead to the styles of the design, as long as different bodies
/// have different digests.
pub proof fn finished_references_lead(src: Source, nodes: Seq<Json>, s: State)
    requires
        no_text(s.styles),
        all_lead_in(nodes, nodes.len(), s.styles),
        told_apart(objects_in(moved_nodes(nodes, s), moved_nodes(nodes, s).len())),
        each_tidy(objects_in(nodes, nodes.len())),
    ensures
        ({
            let d = finished(src, nodes, s);
            &&& all_lead_in(d.nodes, d.nodes.len(), d.global_vars)
            &&& elements_lead(d.elements, d.global_vars)
        }),
{
    let refs = refs_in(nodes, nodes.len());
    let moved = moved_nodes(nodes, s);
    let left = staying(s.styles, s.named, refs, s.styles.len());
    let b = bodies_upto(no_bodies(), moved, moved.len());
    let elements = elements_of(b);
    let shared = exclusive_upto(elements, left, s.named, refs, b.seen, elements.len());
    let objects = objects_in(moved, moved.len());
    inlined_references_lead(nodes, s.styles, s.named);
    lemma_list_leads(moved, moved.len(), left);
    lemma_left_no_text(s.styles, s.named, refs, s.styles.len());
    assert forall|j: int| 0 <= j < objects.len() implies settled(#[trigger] objects[j], elements, shared.styles) by {
        if !leads(objects[j], shared.styles) {
            lemma_settled(nodes, s, j);
        }
    }
    lemma_list_templated_leads(moved, elements, shared.styles, moved.len());
    assert forall|r: int| 0 <= r < shared.fields.len() implies ((#[trigger] shared.fields[r]).1 matches Json::Obj(o)
        ==> leads(o, shared.styles)) by {
        if shared.fields[r].1 is Obj {
            lemma_element_leads(nodes, s, r);
        }
    }
}

proof fn lemma_left_no_text(styles: Fields, named: Seq<Seq<char>>, refs: Seq<Seq<char>>, n: nat)
    requires
        n <= styles.len(),
        no_text(styles),
    ensures
        no_text(staying(styles, named, refs, n)),
    decreases n,
{
    if n > 0 {
        lemma_left_no_text(styles, named, refs, (n - 1) as nat);
    }
}

/// A style that was left and that the styles do not have any more: an element
/// took it, and `r` is the element.
proof fn lemma_taker(nodes: Seq<Json>, s: State, x: Seq<char>) -> (r: int)
    requires
        no_text(s.styles),
        told_apart(objects_in(moved_nodes(nodes, s), moved_nodes(nodes, s).len())),
        each_tidy(objects_in(nodes, nodes.len())),
        ({
            let refs = refs_in(nodes, nodes.len());
            let left = staying(s.styles, s.named, refs, s.styles.len());
            let b = bodies_upto(no_bodies(), moved_nodes(nodes, s), moved_nodes(nodes, s).len());
            let e = elements_of(b);
            &&& has_key(left, x)
            &&& !has_key(exclusive_upto(e, left, s.named, refs, b.seen, e.len()).styles, x)
        }),
    ensures
        ({
            let moved = moved_nodes(nodes, s);
            let refs = refs_in(nodes, nodes.len());
            let left = staying(s.styles, s.named, refs, s.styles.len());
            let b = bodies_upto(no_bodies(), moved, moved.len());
            let elements = elements_of(b);
            let now = exclusive_upto(elements, left, s.named, refs, b.seen, elements.len()).fields;
            let objects = objects_in(moved, moved.len());
            &&& gone(elements, now, refs, b.seen, x, r)
            &&& own_count(elements[r].1->Obj_0, x, 5) == 1
            &&& count(texts_in(moved, moved.len()), stable_text(elements[r].1)) >= 2
            &&& forall|j: int|
                0 <= j < objects.len() && own_count(#[trigger] objects[j], x, 5) > 0 ==> has_text(
                    objects[j],
                    stable_text(elements[r].1),
                )
        }),
{
    let moved = moved_nodes(nodes, s);
    let refs = refs_in(nodes, nodes.len());
    let left = staying(s.styles, s.named, refs, s.styles.len());
    let b = bodies_upto(no_bodies(), moved, moved.len());
    let elements = elements_of(b);
    let now = exclusive_upto(elements, left, s.named, refs, b.seen, elements.len());
    lemma_left_no_text(s.styles, s.named, refs, s.styles.len());
    lemma_exclusive_upto(elements, left, s.named, refs, b.seen, x, elements.len());
    assert(kept_or_gone(elements, left, now, refs, b.seen, x));
    let r = choose|r: int| #[trigger] gone(elements, now.fields, refs, b.seen, x, r);
    other_styles_stay(s.styles, s.named, refs, x);
    lemma_list_inlined_count(nodes, s.styles, s.named, refs, x, nodes.len());
    lemma_list_moved_tidy(nodes, s.styles, s.named, refs, nodes.len());
    lemma_gone(moved, now.fields, refs, x, r);
    r
}

proof fn lemma_settled(nodes: Seq<Json>, s: State, j: int)
    requires
        no_text(s.styles),
        told_apart(objects_in(moved_nodes(nodes, s), moved_nodes(nodes, s).len())),
        each_tidy(objects_in(nodes, nodes.len())),
        0 <= j < objects_in(moved_nodes(nodes, s), moved_nodes(nodes, s).len()).len(),
        ({
            let moved = moved_nodes(nodes, s);
            let refs = refs_in(nodes, nodes.len());
            let left = staying(s.styles, s.named, refs, s.styles.len());
            let b = bodies_upto(no_bodies(), moved, moved.len());
            let e = elements_of(b);
            let o = objects_in(moved, moved.len())[j];
            &&& leads(o, left)
            &&& !leads(o, exclusive_upto(e, left, s.named, refs, b.seen, e.len()).styles)
        }),
    ensures
        ({
            let moved = moved_nodes(nodes, s);
            let o = objects_in(moved, moved.len())[j];
            let elements = elements_of(bodies_upto(no_bodies(), moved, moved.len()));
            sharable(o) && element_for(elements, body_text(o), digest(body_text(o)), 8) is Some
        }),
{
    let moved = moved_nodes(nodes, s);
    let refs = refs_in(nodes, nodes.len());
    let left = staying(s.styles, s.named, refs, s.styles.len());
    let b = bodies_upto(no_bodies(), moved, moved.len());
    let elements = elements_of(b);
    let styles = exclusive_upto(elements, left, s.named, refs, b.seen, elements.len()).styles;
    let o = objects_in(moved, moved.len())[j];
    let i = choose|i: int| 0 <= i < 5 && !#[trigger] key_leads(o, styles, i);
    assert(key_leads(o, left, i));
    let x = get(o, ref_keys()[i])->0->Str_0;
    let r = lemma_taker(nodes, s, x);
    lemma_own_counted(o, x, i, 5);
    lemma_apart(moved);
    repeated_bodies_are_elements(moved, body_text(o));
}

proof fn lemma_element_leads(nodes: Seq<Json>, s: State, q: int)
    requires
        no_text(s.styles),
        all_lead_in(nodes, nodes.len(), s.styles),
        told_apart(objects_in(moved_nodes(nodes, s), moved_nodes(nodes, s).len())),
        each_tidy(objects_in(nodes, nodes.len())),
        ({
            let refs = refs_in(nodes, nodes.len());
            let left = staying(s.styles, s.named, refs, s.styles.len());
            let b = bodies_upto(no_bodies(), moved_nodes(nodes, s), moved_nodes(nodes, s).len());
            let e = elements_of(b);
            let shared = exclusive_upto(e, left, s.named, refs, b.seen, e.len());
            0 <= q < shared.fields.len() && shared.fields[q].1 is Obj
        }),
    ensures
        ({
            let refs = refs_in(nodes, nodes.len());
            let left = staying(s.styles, s.named, refs, s.styles.len());
            let b = bodies_upto(no_bodies(), moved_nodes(nodes, s), moved_nodes(nodes, s).len());
            let e = elements_of(b);
            let shared = exclusive_upto(e, left, s.named, refs, b.seen, e.len());
            leads(shared.fields[q].1->Obj_0, shared.styles)
        }),
{
    let moved = moved_nodes(nodes, s);
    let refs = refs_in(nodes, nodes.len());
    let left = staying(s.styles, s.named, refs, s.styles.len());
    let b = bodies_upto(no_bodies(), moved, moved.len());
    let elements = elements_of(b);
    let shared = exclusive_upto(elements, left, s.named, refs, b.seen, elements.len());
    let objects = objects_in(moved, moved.len());
    let p = shared.fields[q].1->Obj_0;
    lemma_left_no_text(s.styles, s.named, refs, s.styles.len());
    inlined_references_lead(nodes, s.styles, s.named);
    lemma_list_leads(moved, moved.len(), left);
    lemma_exclusive_upto(elements, left, s.named, refs, b.seen, Seq::empty(), elements.len());
    let first = lemma_element(moved, q);
    let e = elements[q].1->Obj_0;
    assert forall|i: int| 0 <= i < 5 implies #[trigger] key_leads(p, shared.styles, i) by {
        if let Some(Json::Str(x)) = get(p, ref_keys()[i]) {
            lemma_exclusive_upto(elements, left, s.named, refs, b.seen, x, elements.len());
            assert(texts_stay(elements, shared.fields, x, q));
            assert(get(e, ref_keys()[i]) == Some(Json::Str(x)));
            lemma_body_refs(objects[first], i);
            assert(leads(objects[first], left));
            assert(key_leads(objects[first], left, i));
            if !has_key(shared.styles, x) {
                let r = lemma_taker(nodes, s, x);
                lemma_own_counted(objects[first], x, i, 5);
                assert(has_text(objects[first], stable_text(elements[r].1)));
                lemma_elements_differ(moved, r, q);
                let at = choose|at: int| #[trigger] taken(e, p, x, at);
                lemma_own_count_two(e, x, i, at, 5);
            }
        }
    }
}

proof fn lemma_own_count_two(o: Fields, x: Seq<char>, i: int, j: int, n: nat)
    requires
        0 <= i < n <= 5,
        0 <= j < n,
        i != j,
        get(o, ref_keys()[i]) == Some(Json::Str(x)),
        get(o, ref_keys()[j]) == Some(Json::Str(x)),
    ensures
        own_count(o, x, n) >= 2,
    decreases n,
{
    if i == n - 1 {
        lemma_own_counted(o, x, j, (n - 1) as nat);
    } else if j == n - 1 {
        lemma_own_counted(o, x, i, (n - 1) as nat);
    } else {
        lemma_own_count_two(o, x, i, j, (n - 1) as nat);
    }
}

/// Whether different bodies in the design that a response becomes have
/// different digests.
pub open spec fn bodies_told_apart(body: Json, levels: Option<nat>, turns: Turns) -> bool {
    match source(body) {
        Ok(src) => {
            let (nodes, s) = walked_roots(src.nodes, levels, fresh(src.styles, turns), src.nodes.len());
            told_apart(objects_in(moved_nodes(nodes, s), moved_nodes(nodes, s).len()))
        },
        Err(_) => true,
    }
}

/// Whether the template of a node, and of each node below it, is among the
/// elements.
pub open spec fn templates_lead(node: Json, elements: Fields) -> bool
    decreases node, 0nat,
{
    match node {
        Json::Obj(o) => {
            &&& get(o, "template"@) matches Some(t) ==> t matches Json::Str(id) && has_key(elements, id)
            &&& match arr_field(node, "children"@) {
                Some(kids) => {
                    proof {
                        lemma_children_smaller(node);
                    }
                    all_templates_lead(kids, kids.len(), elements)
                },
                None => true,
            }
        },
        _ => true,
    }
}

/// Whether the templates of the first `n` nodes, and of what is below them, are
/// among the elements.
pub open spec fn all_templates_lead(nodes: Seq<Json>, n: nat, elements: Fields) -> bool
    decreases nodes, n,
{
    n == 0 || n > nodes.len() || (all_templates_lead(nodes, (n - 1) as nat, elements) && templates_lead(
        nodes[n - 1],
        elements,
    ))
}

proof fn lemma_templates_push(nodes: Seq<Json>, x: Json, n: nat, elements: Fields)
    requires
        n <= nodes.len(),
        all_templates_lead(nodes, n, elements),
    ensures
        all_templates_lead(nodes.push(x), n, elements),
    decreases n,
{
    if n > 0 {
        assert(nodes.push(x)[n - 1] == nodes[n - 1]);
        lemma_templates_push(nodes, x, (n - 1) as nat, elements);
    }
}

proof fn lemma_template_leads(node: Json, elements: Fields, now: Fields)
    requires
        each_tidy(objects_of(node)),
        forall|k: Seq<char>| has_key(elements, k) ==> #[trigger] has_key(now, k),
    ensures
        templates_lead(templated(node, elements), now),
    decreases node, 0nat,
{
    if let Json::Obj(o) = node {
        match arr_field(node, "children"@) {
            Some(kids) => {
                lemma_children_smaller(node);
                let rest = objects_in(kids, kids.len());
                assert forall|j: int| 0 <= j < rest.len() implies tidy(#[trigger] rest[j]) by {
                    assert(objects_of(node)[j + 1] == rest[j]);
                }
                assert(objects_of(node)[0] == o);
                assert(tidy(o));
                let done = Json::Arr(templated_upto(kids, elements, kids.len()));
                lemma_list_template_leads(kids, elements, now, kids.len());
                let p = put(o, "children"@, done);
                lemma_plain_keys();
                assert(plain("template"@));
                get_after_put(o, "children"@, done, "template"@);
                get_after_put(o, "children"@, done, "children"@);
                reference_leads_to_its_body(p, elements);
            },
            None => {
                assert(objects_of(node)[0] == o);
                assert(tidy(o));
                reference_leads_to_its_body(o, elements);
            },
        }
    }
}

proof fn lemma_list_template_leads(nodes: Seq<Json>, elements: Fields, now: Fields, n: nat)
    requires
        n <= nodes.len(),
        each_tidy(objects_in(nodes, n)),
        forall|k: Seq<char>| has_key(elements, k) ==> #[trigger] has_key(now, k),
    ensures
        templated_upto(nodes, elements, n).len() == n,
        all_templates_lead(templated_upto(nodes, elements, n), n, now),
    decreases nodes, n,
{
    if n > 0 {
        let (a, b) = (objects_in(nodes, (n - 1) as nat), objects_of(nodes[n - 1]));
        assert forall|j: int| 0 <= j < a.len() implies tidy(#[trigger] a[j]) by {
            assert((a + b)[j] == a[j]);
        }
        assert forall|j: int| 0 <= j < b.len() implies tidy(#[trigger] b[j]) by {
            assert((a + b)[a.len() + j] == b[j]);
        }
        lemma_list_template_leads(nodes, elements, now, (n - 1) as nat);
        assert(decreases_to!(nodes => nodes[n - 1]));
        lemma_template_leads(nodes[n - 1], elements, now);
        lemma_templates_push(
            templated_upto(nodes, elements, (n - 1) as nat),
            templated(nodes[n - 1], elements),
            (n - 1) as nat,
            now,
        );
    }
}

proof fn lemma_same_keys(
    elements: Fields,
    styles: Fields,
    named: Seq<Seq<char>>,
    refs: Seq<Seq<char>>,
    seen: Seq<Seq<char>>,
    n: nat,
)
    requires
        n <= elements.len(),
    ensures
        ({
            let s = exclusive_upto(elements, styles, named, refs, seen, n);
            s.fields.len() == n && forall|r: int| 0 <= r < n ==> (#[trigger] s.fields[r]).0 == elements[r].0
        }),
    decreases n,
{
    if n > 0 {
        lemma_same_keys(elements, styles, named, refs, seen, (n - 1) as nat);
    }
}

/// The template of each node of a design, at any depth, is one of its elements.
pub proof fn design_templates_lead(body: Json, levels: Option<nat>, turns: Turns)
    ensures
        simplified(body, levels, turns) matches Ok(d) ==> all_templates_lead(d.nodes, d.nodes.len(), d.elements),
{
    if let Ok(src) = source(body) {
        let start = fresh(src.styles, turns);
        let (nodes, s) = walked_roots(src.nodes, levels, start, src.nodes.len());
        let refs = refs_in(nodes, nodes.len());
        let moved = moved_nodes(nodes, s);
        let left = staying(s.styles, s.named, refs, s.styles.len());
        let b = bodies_upto(no_bodies(), moved, moved.len());
        let elements = elements_of(b);
        let now = exclusive_upto(elements, left, s.named, refs, b.seen, elements.len()).fields;
        walked_roots_are_tidy(src.nodes, levels, start, src.nodes.len());
        lemma_list_moved_tidy(nodes, s.styles, s.named, refs, nodes.len());
        lemma_same_keys(elements, left, s.named, refs, b.seen, elements.len());
        assert forall|k: Seq<char>| has_key(elements, k) implies #[trigger] has_key(now, k) by {
            lemma_key_from(elements, k, 0);
            lemma_key_from(now, k, 0);
            let i = key_from(elements, k, 0)->0;
            assert(now[i].0 == elements[i].0);
        }
        lemma_list_template_leads(moved, elements, now, moved.len());
    }
}

/// Each reference to a style in a design, in its nodes at any depth and in its
/// elements, leads to a style of the design, as long as different bodies have
/// different digests.
pub proof fn design_references_lead(body: Json, levels: Option<nat>, turns: Turns)
    requires
        bodies_told_apart(body, levels, turns),
    ensures
        simplified(body, levels, turns) matches Ok(d) ==> all_lead_in(d.nodes, d.nodes.len(), d.global_vars)
            && elements_lead(d.elements, d.global_vars),
{
    if let Ok(src) = source(body) {
        let start = fresh(src.styles, turns);
        let (nodes, s) = walked_roots(src.nodes, levels, start, src.nodes.len());
        assert(sound(start));
        root_references_lead(src.nodes, levels, start, src.nodes.len());
        walked_roots_are_tidy(src.nodes, levels, start, src.nodes.len());
        finished_references_lead(src, nodes, s);
    }
}

} // verus!
