//! What the last pass over a design keeps: exactly the bodies that occur again
//! become elements, a reference leads to the body that it stands for, and a
//! style is found where it was, or where it is used.

use vstd::prelude::*;

use crate::json::{arr_field, get, get_after_put, lemma_key_from, put, put_some, Fields, Json};
use crate::simplify::canonical::stable_text;
use crate::simplify::finalize::{
    bodies_upto, body, count, count_upto, element_for, element_name, elements_of, elements_upto, id_among, is_text_of,
    no_bodies, reference, referring, text_with_id, with_bodies, with_body, Bodies, BodyModel,
};
use crate::simplify::hex::{digest, digest_has_forty_digits};
use crate::simplify::walk::lemma_children_smaller;

verus! {

// ---------------------------------------------------------------------------
// Bodies
// ---------------------------------------------------------------------------

/// The text of the body of a node; a body of one field has none.
pub open spec fn own_text(o: Fields) -> Seq<Seq<char>> {
    if body(o).len() > 1 {
        seq![stable_text(Json::Obj(body(o)))]
    } else {
        Seq::empty()
    }
}

/// The texts of the bodies of a node and of what is below it.
pub open spec fn texts_of(node: Json) -> Seq<Seq<char>>
    decreases node, 0nat,
{
    match node {
        Json::Obj(o) => match arr_field(node, "children"@) {
            Some(kids) => {
                proof {
                    lemma_children_smaller(node);
                }
                own_text(o) + texts_in(kids, kids.len())
            },
            None => own_text(o),
        },
        _ => Seq::empty(),
    }
}

/// The texts of the bodies of the first `n` nodes and of what is below them.
pub open spec fn texts_in(nodes: Seq<Json>, n: nat) -> Seq<Seq<char>>
    decreases nodes, n,
{
    if n == 0 || n > nodes.len() {
        Seq::empty()
    } else {
        texts_in(nodes, (n - 1) as nat) + texts_of(nodes[n - 1])
    }
}

/// Different texts have different digests.
pub open spec fn apart(t: Seq<Seq<char>>) -> bool {
    forall|i: int, j: int|
        0 <= i < t.len() && 0 <= j < t.len() && digest(#[trigger] t[i]) == digest(#[trigger] t[j]) ==> t[i] == t[j]
}

/// The id of a row has some of the digits of the digest of its text.
pub open spec fn abbreviates(row: BodyModel) -> bool {
    exists|len: int| 8 <= len <= 40 && len % 4 == 0 && row.id == #[trigger] element_name(digest(row.text), len)
}

/// No two rows have the same id.
pub open spec fn ids_differ(rows: Seq<BodyModel>) -> bool {
    forall|i: int, j: int| 0 <= i < j < rows.len() ==> (#[trigger] rows[i]).id != (#[trigger] rows[j]).id
}

/// The body at `i` is known under its id.
pub open spec fn known(b: Bodies, t: Seq<Seq<char>>, i: int) -> bool {
    &&& b.seen[i] == id_among(b.rows, t[i], digest(t[i]), 8)
    &&& text_with_id(b.rows, b.seen[i], 0) == Some(t[i])
}

/// A text was seen under the id of a row.
pub open spec fn noted(seen: Seq<Seq<char>>, t: Seq<Seq<char>>, row: BodyModel) -> bool {
    exists|i: int| 0 <= i < t.len() && #[trigger] t[i] == row.text && seen[i] == row.id
}

/// A row holds a body with one of the texts.
pub open spec fn holds_body(seen: Seq<Seq<char>>, t: Seq<Seq<char>>, row: BodyModel) -> bool {
    &&& row.text == stable_text(Json::Obj(row.body))
    &&& noted(seen, t, row)
    &&& abbreviates(row)
}

/// The bodies are those with these texts.
pub open spec fn keeps(b: Bodies, t: Seq<Seq<char>>) -> bool {
    &&& b.seen.len() == t.len()
    &&& forall|i: int| 0 <= i < t.len() ==> #[trigger] known(b, t, i)
    &&& forall|r: int| 0 <= r < b.rows.len() ==> holds_body(b.seen, t, #[trigger] b.rows[r])
    &&& ids_differ(b.rows)
}

proof fn lemma_text_found(rows: Seq<BodyModel>, id: Seq<char>, i: int)
    requires
        0 <= i,
    ensures
        text_with_id(rows, id, i) matches Some(x) ==> exists|r: int|
            i <= r < rows.len() && (#[trigger] rows[r]).id == id && rows[r].text == x,
        text_with_id(rows, id, i) is None ==> forall|r: int| i <= r < rows.len() ==> (#[trigger] rows[r]).id != id,
    decreases rows.len() - i,
{
    if i < rows.len() && rows[i].id != id {
        lemma_text_found(rows, id, i + 1);
    }
}

proof fn lemma_text_push(rows: Seq<BodyModel>, x: BodyModel, id: Seq<char>, i: int)
    requires
        0 <= i <= rows.len(),
    ensures
        text_with_id(rows, id, i) is Some ==> text_with_id(rows.push(x), id, i) == text_with_id(rows, id, i),
        text_with_id(rows, id, i) is None && x.id == id ==> text_with_id(rows.push(x), id, i) == Some(x.text),
        text_with_id(rows, id, i) is None && x.id != id ==> text_with_id(rows.push(x), id, i) is None,
    decreases rows.len() - i,
{
    if i < rows.len() {
        assert(rows.push(x)[i] == rows[i]);
        if rows[i].id != id {
            lemma_text_push(rows, x, id, i + 1);
        }
    } else {
        assert(rows.push(x)[i] == x);
        assert(text_with_id(rows.push(x), id, i + 1) is None);
    }
}

proof fn lemma_id_shape(rows: Seq<BodyModel>, text: Seq<char>, full: Seq<char>, len: int)
    requires
        full.len() == 40,
        8 <= len <= 40,
        len % 4 == 0,
    ensures
        exists|l: int|
            8 <= l <= 40 && l % 4 == 0 && id_among(rows, text, full, len) == #[trigger] element_name(full, l),
    decreases 44 - len,
{
    if len == 40 {
        assert(full.subrange(0, 40) =~= full);
        assert(id_among(rows, text, full, len) == element_name(full, 40));
    } else {
        match text_with_id(rows, element_name(full, len), 0) {
            Some(t) => if t != text {
                lemma_id_shape(rows, text, full, len + 4);
            },
            None => {},
        }
    }
}

/// An id leads to no other text, unless it is the whole digest.
proof fn lemma_id_text(rows: Seq<BodyModel>, text: Seq<char>, full: Seq<char>, len: int)
    requires
        full.len() == 40,
        8 <= len <= 40,
    ensures
        text_with_id(rows, id_among(rows, text, full, len), 0) matches Some(x) ==> x == text || id_among(
            rows,
            text,
            full,
            len,
        ) == "EL-"@ + full,
    decreases 44 - len,
{
    if len < 40 {
        match text_with_id(rows, element_name(full, len), 0) {
            Some(t) => if t != text && len + 4 <= 40 {
                lemma_id_text(rows, text, full, len + 4);
            },
            None => {},
        }
    }
}

/// The id of a body stays the same when bodies are added.
proof fn lemma_id_stays(rows: Seq<BodyModel>, x: BodyModel, text: Seq<char>, full: Seq<char>, len: int)
    requires
        full.len() == 40,
        text_with_id(rows, id_among(rows, text, full, len), 0) == Some(text),
    ensures
        id_among(rows.push(x), text, full, len) == id_among(rows, text, full, len),
    decreases 44 - len,
{
    if len < full.len() {
        lemma_text_push(rows, x, element_name(full, len), 0);
        match text_with_id(rows, element_name(full, len), 0) {
            Some(t) => if t != text {
                lemma_id_stays(rows, x, text, full, len + 4);
            },
            None => {},
        }
    }
}

/// A new body has the id under which it is added.
proof fn lemma_id_new(rows: Seq<BodyModel>, x: BodyModel, full: Seq<char>, len: int)
    requires
        full.len() == 40,
        x.id == id_among(rows, x.text, full, len),
        text_with_id(rows, x.id, 0) is None,
    ensures
        id_among(rows.push(x), x.text, full, len) == x.id,
    decreases 44 - len,
{
    if len < full.len() {
        lemma_text_push(rows, x, element_name(full, len), 0);
        match text_with_id(rows, element_name(full, len), 0) {
            Some(t) => if t != x.text {
                lemma_id_new(rows, x, full, len + 4);
            },
            None => {},
        }
    }
}

proof fn lemma_apart_prefix(a: Seq<Seq<char>>, b: Seq<Seq<char>>)
    requires
        apart(a + b),
    ensures
        apart(a),
{
    assert forall|i: int, j: int|
        0 <= i < a.len() && 0 <= j < a.len() && digest(#[trigger] a[i]) == digest(#[trigger] a[j]) implies a[i] == a[j] by {
        assert((a + b)[i] == a[i]);
        assert((a + b)[j] == a[j]);
    }
}

proof fn lemma_keeps_body(b: Bodies, t: Seq<Seq<char>>, o: Fields)
    requires
        keeps(b, t),
        apart(t + own_text(o)),
    ensures
        keeps(with_body(b, o), t + own_text(o)),
{
    if body(o).len() > 1 {
        let text = stable_text(Json::Obj(body(o)));
        let full = digest(text);
        digest_has_forty_digits(text);
        let id = id_among(b.rows, text, full, 8);
        let c = with_body(b, o);
        let u = t + own_text(o);
        assert(u =~= t.push(text));
        assert(u[t.len() as int] == text);
        lemma_id_shape(b.rows, text, full, 8);
        lemma_id_text(b.rows, text, full, 8);
        lemma_text_found(b.rows, id, 0);
        let x = BodyModel { id, body: body(o), text };
        match text_with_id(b.rows, id, 0) {
            Some(other) => {
                if other != text {
                    let r = choose|r: int| 0 <= r < b.rows.len() && (#[trigger] b.rows[r]).id == id && b.rows[r].text == other;
                    assert(holds_body(b.seen, t, b.rows[r]));
                    digest_has_forty_digits(other);
                    let l = choose|l: int|
                        8 <= l <= 40 && l % 4 == 0 && b.rows[r].id == #[trigger] element_name(digest(other), l);
                    reveal_strlit("EL-");
                    assert(id.len() == 43);
                    assert(element_name(digest(other), l).len() == 3 + l);
                    assert(l == 40);
                    assert(digest(other).subrange(0, 40) =~= digest(other));
                    assert(full =~= id.subrange(3, 43));
                    assert(digest(other) =~= element_name(digest(other), l).subrange(3, 43));
                    let k = choose|k: int| 0 <= k < t.len() && #[trigger] t[k] == other && b.seen[k] == id;
                    assert(u[k] == other);
                    assert(digest(u[k]) == digest(u[t.len() as int]));
                }
                assert(c.rows == b.rows);
            },
            None => {
                assert(c.rows == b.rows.push(x));
                lemma_id_new(b.rows, x, full, 8);
                lemma_text_push(b.rows, x, id, 0);
            },
        }
        assert(c.seen == b.seen.push(id));
        assert forall|i: int| 0 <= i < u.len() implies #[trigger] known(c, u, i) by {
            if i < t.len() {
                assert(known(b, t, i));
                assert(u[i] == t[i]);
                assert(c.seen[i] == b.seen[i]);
                digest_has_forty_digits(t[i]);
                if text_with_id(b.rows, id, 0) is None {
                    lemma_id_stays(b.rows, x, t[i], digest(t[i]), 8);
                    lemma_text_push(b.rows, x, b.seen[i], 0);
                }
            } else {
                assert(c.seen[i] == id);
            }
        }
        assert forall|r: int| 0 <= r < c.rows.len() implies holds_body(c.seen, u, #[trigger] c.rows[r]) by {
            if r < b.rows.len() {
                assert(c.rows[r] == b.rows[r]);
                assert(holds_body(b.seen, t, b.rows[r]));
                let row = b.rows[r];
                let k = choose|k: int| 0 <= k < t.len() && #[trigger] t[k] == row.text && b.seen[k] == row.id;
                assert(u[k] == row.text && c.seen[k] == row.id);
            } else {
                assert(c.rows[r] == x);
                assert(u[t.len() as int] == x.text && c.seen[t.len() as int] == x.id);
            }
        }
        assert(ids_differ(c.rows)) by {
            assert forall|i: int, j: int| 0 <= i < j < c.rows.len() implies (#[trigger] c.rows[i]).id != (
            #[trigger] c.rows[j]).id by {
                assert(c.rows[i] == b.rows[i]);
                if j < b.rows.len() {
                    assert(c.rows[j] == b.rows[j]);
                } else {
                    assert(c.rows[j] == x);
                }
            }
        }
    } else {
        assert(t + own_text(o) =~= t);
    }
}

proof fn lemma_keeps_node(b: Bodies, t: Seq<Seq<char>>, node: Json)
    requires
        keeps(b, t),
        apart(t + texts_of(node)),
    ensures
        keeps(with_bodies(b, node), t + texts_of(node)),
    decreases node, 0nat,
{
    match node {
        Json::Obj(o) => match arr_field(node, "children"@) {
            Some(kids) => {
                lemma_children_smaller(node);
                let a = t + own_text(o);
                assert(t + texts_of(node) =~= a + texts_in(kids, kids.len()));
                lemma_apart_prefix(a, texts_in(kids, kids.len()));
                lemma_keeps_body(b, t, o);
                lemma_keeps_list(with_body(b, o), a, kids, kids.len());
            },
            None => {
                lemma_keeps_body(b, t, o);
            },
        },
        _ => {
            assert(t + texts_of(node) =~= t);
        },
    }
}

proof fn lemma_keeps_list(b: Bodies, t: Seq<Seq<char>>, nodes: Seq<Json>, n: nat)
    requires
        keeps(b, t),
        n <= nodes.len(),
        apart(t + texts_in(nodes, n)),
    ensures
        keeps(bodies_upto(b, nodes, n), t + texts_in(nodes, n)),
    decreases nodes, n,
{
    if n == 0 {
        assert(t + texts_in(nodes, n) =~= t);
    } else {
        let a = t + texts_in(nodes, (n - 1) as nat);
        assert(t + texts_in(nodes, n) =~= a + texts_of(nodes[n - 1]));
        lemma_apart_prefix(a, texts_of(nodes[n - 1]));
        lemma_keeps_list(b, t, nodes, (n - 1) as nat);
        assert(decreases_to!(nodes => nodes[n - 1]));
        lemma_keeps_node(bodies_upto(b, nodes, (n - 1) as nat), a, nodes[n - 1]);
    }
}

proof fn lemma_same_count(a: Seq<Seq<char>>, x: Seq<char>, b: Seq<Seq<char>>, y: Seq<char>, n: nat)
    requires
        n <= a.len(),
        a.len() == b.len(),
        forall|i: int| 0 <= i < n ==> (#[trigger] a[i] == x <==> b[i] == y),
    ensures
        count_upto(a, x, n) == count_upto(b, y, n),
    decreases n,
{
    if n > 0 {
        assert(a[n - 1] == x <==> b[n - 1] == y);
        lemma_same_count(a, x, b, y, (n - 1) as nat);
    }
}

proof fn lemma_counted(s: Seq<Seq<char>>, x: Seq<char>, n: nat)
    requires
        n <= s.len(),
    ensures
        count_upto(s, x, n) > 0 <==> exists|i: int| 0 <= i < n && #[trigger] s[i] == x,
    decreases n,
{
    if n > 0 {
        lemma_counted(s, x, (n - 1) as nat);
        if s[n - 1] == x {
            assert(s[n - 1] == x);
        }
    }
}

/// Whether the row at `r` is the element under a key.
pub open spec fn row_is(b: Bodies, r: int, k: Seq<char>, v: Json) -> bool {
    b.rows[r].id == k && v == Json::Obj(b.rows[r].body)
}

/// The elements are the rows that occur again.
pub proof fn lemma_elements(b: Bodies, k: Seq<char>, n: nat)
    requires
        ids_differ(b.rows),
        n <= b.rows.len(),
    ensures
        get(elements_upto(b, n), k) matches Some(v) ==> count(b.seen, k) >= 2 && exists|r: int|
            0 <= r < n && #[trigger] row_is(b, r, k, v),
        forall|r: int|
            0 <= r < n && (#[trigger] b.rows[r]).id == k && count(b.seen, k) >= 2 ==> get(elements_upto(b, n), k) == Some(
                Json::Obj(b.rows[r].body),
            ),
    decreases n,
{
    if n == 0 {
        lemma_key_from(Fields::empty(), k, 0);
    } else {
        let before = elements_upto(b, (n - 1) as nat);
        let row = b.rows[n - 1];
        lemma_elements(b, k, (n - 1) as nat);
        get_after_put(before, row.id, Json::Obj(row.body), k);
        if let Some(v) = get(elements_upto(b, n), k) {
            if count(b.seen, row.id) >= 2 && row.id == k {
                assert(row_is(b, n - 1, k, v));
            } else {
                let r = choose|r: int| 0 <= r < n - 1 && #[trigger] row_is(b, r, k, v);
                assert(row_is(b, r, k, v));
            }
        }
        assert forall|r: int| 0 <= r < n && (#[trigger] b.rows[r]).id == k && count(b.seen, k) >= 2 implies get(
            elements_upto(b, n),
            k,
        ) == Some(Json::Obj(b.rows[r].body)) by {
            if r < n - 1 {
                assert(b.rows[r].id != b.rows[n - 1].id);
            }
        }
    }
}

proof fn lemma_element_missing(elements: Fields, text: Seq<char>, full: Seq<char>, len: int)
    ensures
        match element_for(elements, text, full, len) {
            Some(id) => is_text_of(elements, id, text),
            None => forall|l: int|
                len <= l <= full.len() && (l - len) % 4 == 0 ==> !is_text_of(
                    elements,
                    #[trigger] element_name(full, l),
                    text,
                ),
        },
    decreases full.len() + 4 - len,
{
    if len <= full.len() && !is_text_of(elements, element_name(full, len), text) {
        lemma_element_missing(elements, text, full, len + 4);
        if element_for(elements, text, full, len + 4) is None {
            assert forall|l: int| len <= l <= full.len() && (l - len) % 4 == 0 implies !is_text_of(
                elements,
                #[trigger] element_name(full, l),
                text,
            ) by {
                if l != len {
                    assert(l >= len + 4);
                    assert((l - (len + 4)) % 4 == 0);
                }
            }
        }
    }
}

/// Exactly the bodies that occur at least twice among nodes, at any depth, are
/// elements, as long as different bodies have different digests.
pub proof fn repeated_bodies_are_elements(nodes: Seq<Json>, text: Seq<char>)
    requires
        apart(texts_in(nodes, nodes.len())),
    ensures
        ({
            let elements = elements_of(bodies_upto(no_bodies(), nodes, nodes.len()));
            element_for(elements, text, digest(text), 8) is Some <==> count(texts_in(nodes, nodes.len()), text) >= 2
        }),
{
    let t = texts_in(nodes, nodes.len());
    let b = bodies_upto(no_bodies(), nodes, nodes.len());
    let elements = elements_of(b);
    let full = digest(text);
    lemma_keeps(nodes);
    digest_has_forty_digits(text);
    lemma_element_missing(elements, text, full, 8);
    lemma_counted(t, text, t.len());
    if count(t, text) >= 2 {
        let i = choose|i: int| 0 <= i < t.len() && #[trigger] t[i] == text;
        assert(known(b, t, i));
        let id = b.seen[i];
        lemma_text_found(b.rows, id, 0);
        let r = choose|r: int| 0 <= r < b.rows.len() && (#[trigger] b.rows[r]).id == id && b.rows[r].text == text;
        lemma_row_count(b, t, r);
        lemma_elements(b, id, b.rows.len());
        assert(holds_body(b.seen, t, b.rows[r]));
        assert(is_text_of(elements, id, text));
        let l = choose|l: int| 8 <= l <= 40 && l % 4 == 0 && b.rows[r].id == #[trigger] element_name(digest(text), l);
        assert((l - 8) % 4 == 0);
        assert(is_text_of(elements, element_name(full, l), text));
    } else if let Some(id) = element_for(elements, text, full, 8) {
        lemma_elements(b, id, b.rows.len());
        let v = get(elements, id)->0;
        let r = choose|r: int| 0 <= r < b.rows.len() && #[trigger] row_is(b, r, id, v);
        assert(row_is(b, r, id, v));
        assert(holds_body(b.seen, t, b.rows[r]));
        lemma_row_count(b, t, r);
    }
}

/// The id of a row is seen as often as its text.
pub proof fn lemma_row_count(b: Bodies, t: Seq<Seq<char>>, r: int)
    requires
        keeps(b, t),
        0 <= r < b.rows.len(),
    ensures
        count(b.seen, b.rows[r].id) == count(t, b.rows[r].text),
        b.rows[r].text == stable_text(Json::Obj(b.rows[r].body)),
{
    let row = b.rows[r];
    assert(holds_body(b.seen, t, row));
    let k = choose|k: int| 0 <= k < t.len() && #[trigger] t[k] == row.text && b.seen[k] == row.id;
    assert(known(b, t, k));
    assert forall|i: int| 0 <= i < t.len() implies (#[trigger] b.seen[i] == row.id <==> t[i] == row.text) by {
        assert(known(b, t, i));
        lemma_text_found(b.rows, b.seen[i], 0);
    }
    lemma_same_count(b.seen, row.id, t, row.text, t.len());
}

/// Rows with the same text are the same row.
pub proof fn lemma_rows_differ(b: Bodies, t: Seq<Seq<char>>, r: int, q: int)
    requires
        keeps(b, t),
        0 <= r < b.rows.len(),
        0 <= q < b.rows.len(),
        stable_text(Json::Obj(b.rows[r].body)) == stable_text(Json::Obj(b.rows[q].body)),
    ensures
        r == q,
{
    assert(holds_body(b.seen, t, b.rows[r]));
    assert(holds_body(b.seen, t, b.rows[q]));
    let text = b.rows[r].text;
    let i = choose|i: int| 0 <= i < t.len() && #[trigger] t[i] == text && b.seen[i] == b.rows[r].id;
    let j = choose|j: int| 0 <= j < t.len() && #[trigger] t[j] == text && b.seen[j] == b.rows[q].id;
    assert(known(b, t, i));
    assert(known(b, t, j));
}

/// The bodies of nodes are those with their texts.
pub proof fn lemma_keeps(nodes: Seq<Json>)
    requires
        apart(texts_in(nodes, nodes.len())),
    ensures
        keeps(bodies_upto(no_bodies(), nodes, nodes.len()), texts_in(nodes, nodes.len())),
{
    let t = texts_in(nodes, nodes.len());
    assert(Seq::<Seq<char>>::empty() + t =~= t);
    assert(keeps(no_bodies(), Seq::empty()));
    lemma_keeps_list(no_bodies(), Seq::empty(), nodes, nodes.len());
}

/// A node that refers to an element keeps its id, its name and its children,
/// and the element has the body that the node had.
pub proof fn reference_leads_to_its_body(o: Fields, elements: Fields)
    ensures
        ({
            let text = stable_text(Json::Obj(body(o)));
            let r = referring(o, elements);
            match (body(o).len() > 1, element_for(elements, text, digest(text), 8)) {
                (true, Some(id)) => {
                    &&& is_text_of(elements, id, text)
                    &&& get(r, "template"@) == Some(Json::Str(id))
                    &&& get(r, "id"@) == get(o, "id"@)
                    &&& get(r, "name"@) == get(o, "name"@)
                    &&& get(r, "children"@) == get(o, "children"@)
                },
                _ => r == o,
            }
        }),
{
    let text = stable_text(Json::Obj(body(o)));
    lemma_element_missing(elements, text, digest(text), 8);
    if let Some(id) = element_for(elements, text, digest(text), 8) {
        lemma_reference(o, id);
    }
}

proof fn lemma_reference(o: Fields, id: Seq<char>)
    ensures
        get(reference(o, id), "template"@) == Some(Json::Str(id)),
        get(reference(o, id), "id"@) == get(o, "id"@),
        get(reference(o, id), "name"@) == get(o, "name"@),
        get(reference(o, id), "children"@) == get(o, "children"@),
{
    reveal_strlit("id");
    reveal_strlit("name");
    reveal_strlit("template");
    reveal_strlit("children");
    assert("template"@[0] == 't' && "children"@[0] == 'c');
    let e = Fields::empty();
    let a = put_some(e, "id"@, get(o, "id"@));
    let b = put_some(a, "name"@, get(o, "name"@));
    let c = put(b, "template"@, Json::Str(id));
    lemma_put_some(e, "id"@, get(o, "id"@), "name"@);
    lemma_put_some(e, "id"@, get(o, "id"@), "children"@);
    lemma_put_some(a, "name"@, get(o, "name"@), "id"@);
    lemma_put_some(a, "name"@, get(o, "name"@), "children"@);
    get_after_put(b, "template"@, Json::Str(id), "id"@);
    get_after_put(b, "template"@, Json::Str(id), "name"@);
    get_after_put(b, "template"@, Json::Str(id), "children"@);
    lemma_put_some(c, "children"@, get(o, "children"@), "id"@);
    lemma_put_some(c, "children"@, get(o, "children"@), "name"@);
    lemma_put_some(c, "children"@, get(o, "children"@), "template"@);
}

proof fn lemma_put_some(o: Fields, k: Seq<char>, v: Option<Json>, other: Seq<char>)
    ensures
        get(put_some(o, k, v), k) == (if v is Some {
            v
        } else {
            get(o, k)
        }),
        other != k ==> get(put_some(o, k, v), other) == get(o, other),
{
    if let Some(x) = v {
        get_after_put(o, k, x, other);
    }
}

} // verus!
