//! The last pass over a design: styles that are used once move to where they
//! are used, and node bodies that occur again become shared elements.

use vstd::prelude::*;

use crate::json::{
    arr_field, as_str, copy_some, field, get, has_key, json_list, list_of, put, put_some, str_of, without, Fields, Json,
    Object, Value,
};
use crate::outside::{index_get, index_insert, index_keys, index_rows, new_index, row_from};
use crate::simplify::canonical::{stable_stringify, stable_text};
use crate::simplify::hex::{digest, sha1_hex};
use crate::simplify::walk::lemma_children_smaller;
use crate::strings::{
    are_digits_from, cat2, chars_of, digits_from, has_prefix, opt_text, same, starts_with, text_of, views,
};

verus! {

// ---------------------------------------------------------------------------
// Counting
// ---------------------------------------------------------------------------

/// How often a text occurs among the first `n`.
pub open spec fn count_upto(s: Seq<Seq<char>>, x: Seq<char>, n: nat) -> nat
    decreases n,
{
    if n == 0 {
        0
    } else if s[n - 1] == x {
        count_upto(s, x, (n - 1) as nat) + 1
    } else {
        count_upto(s, x, (n - 1) as nat)
    }
}

/// How often a text occurs.
pub open spec fn count(s: Seq<Seq<char>>, x: Seq<char>) -> nat {
    count_upto(s, x, s.len())
}

fn count_of(s: &Vec<String>, x: &str) -> (r: usize)
    ensures
        r == count(views(s@), x@),
{
    let ghost m = views(s@);
    let mut total: usize = 0;
    let mut i: usize = 0;
    while i < s.len()
        invariant
            i <= s.len(),
            m == views(s@),
            total <= i,
            total == count_upto(m, x@, i as nat),
        decreases s.len() - i,
    {
        assert(m[i as int] == s@[i as int]@);
        if same(s[i].as_str(), x) {
            total += 1;
        }
        i += 1;
    }
    total
}

/// Whether a text is among texts.
pub open spec fn listed(s: Seq<Seq<char>>, x: Seq<char>) -> bool {
    count(s, x) > 0
}

/// The fields of a node that refer to styles.
pub open spec fn ref_keys() -> Seq<Seq<char>> {
    seq!["layout"@, "fills"@, "strokes"@, "effects"@, "textStyle"@]
}

fn ref_key(i: usize) -> (r: &'static str)
    requires
        i < 5,
    ensures
        r@ == ref_keys()[i as int],
{
    if i == 0 {
        "layout"
    } else if i == 1 {
        "fills"
    } else if i == 2 {
        "strokes"
    } else if i == 3 {
        "effects"
    } else {
        "textStyle"
    }
}

/// The styles that the first `n` of these fields of an object refer to.
pub open spec fn own_refs(o: Fields, n: nat) -> Seq<Seq<char>>
    decreases n,
{
    if n == 0 {
        Seq::empty()
    } else {
        match get(o, ref_keys()[n - 1]) {
            Some(Json::Str(id)) => own_refs(o, (n - 1) as nat).push(id),
            _ => own_refs(o, (n - 1) as nat),
        }
    }
}

/// The styles that a node and what is below it refer to.
pub open spec fn node_refs(node: Json) -> Seq<Seq<char>>
    decreases node, 0nat,
{
    match node {
        Json::Obj(o) => match arr_field(node, "children"@) {
            Some(kids) => {
                proof {
                    lemma_children_smaller(node);
                }
                own_refs(o, 5) + refs_in(kids, kids.len())
            },
            None => own_refs(o, 5),
        },
        _ => Seq::empty(),
    }
}

/// The styles that the first `n` nodes and what is below them refer to.
pub open spec fn refs_in(nodes: Seq<Json>, n: nat) -> Seq<Seq<char>>
    decreases nodes, n,
{
    if n == 0 || n > nodes.len() {
        Seq::empty()
    } else {
        refs_in(nodes, (n - 1) as nat) + node_refs(nodes[n - 1])
    }
}

fn collect_own(o: &Object, out: &mut Vec<String>)
    ensures
        views(final(out)@) == views(old(out)@) + own_refs(o@, 5),
{
    let ghost start = views(out@);
    let mut i: usize = 0;
    assert(start =~= start + own_refs(o@, 0));
    while i < 5
        invariant
            i <= 5,
            views(out@) == start + own_refs(o@, i as nat),
        decreases 5 - i,
    {
        if let Some(Value::String(id)) = o.get(ref_key(i)) {
            let ghost before = views(out@);
            out.push(id.clone());
            assert(views(out@) =~= before.push(id@));
        }
        assert(views(out@) =~= start + own_refs(o@, (i + 1) as nat));
        i += 1;
    }
}

fn collect_refs(node: &Value, out: &mut Vec<String>)
    ensures
        views(final(out)@) == views(old(out)@) + node_refs(node@),
    decreases node@, 0nat,
{
    let ghost start = views(out@);
    match node {
        Value::Object(o) => {
            collect_own(o, out);
            proof {
                lemma_children_smaller(node@);
            }
            match list_of(node.get("children")) {
                Some(kids) => {
                    let ghost m = json_list(kids@);
                    collect_list(kids, out);
                    assert(views(out@) =~= start + (own_refs(o@, 5) + refs_in(m, m.len())));
                },
                None => {},
            }
        },
        _ => {
            assert(start =~= start + node_refs(node@));
        },
    }
}

fn collect_list(nodes: &Vec<Value>, out: &mut Vec<String>)
    ensures
        views(final(out)@) == views(old(out)@) + refs_in(json_list(nodes@), nodes@.len()),
    decreases json_list(nodes@), 1nat,
{
    let ghost m = json_list(nodes@);
    let ghost start = views(out@);
    let mut i: usize = 0;
    assert(start =~= start + refs_in(m, 0));
    while i < nodes.len()
        invariant
            i <= nodes.len(),
            m == json_list(nodes@),
            views(out@) == start + refs_in(m, i as nat),
        decreases nodes.len() - i,
    {
        assert(nodes@[i as int]@ == m[i as int]);
        assert(decreases_to!(m => m[i as int]));
        collect_refs(&nodes[i], out);
        assert(views(out@) =~= start + refs_in(m, (i + 1) as nat));
        i += 1;
    }
}

/// The styles that nodes and what is below them refer to, one for each
/// reference.
pub fn count_style_refs(nodes: &Vec<Value>) -> (r: Vec<String>)
    ensures
        views(r@) == refs_in(json_list(nodes@), nodes@.len()),
{
    let mut out: Vec<String> = Vec::new();
    collect_list(nodes, &mut out);
    assert(views(out@) =~= refs_in(json_list(nodes@), nodes@.len()));
    out
}

// ---------------------------------------------------------------------------
// Styles used once
// ---------------------------------------------------------------------------

/// Whether a style is one that runs of text refer to: `ts` and a number.
pub open spec fn run_style(k: Seq<char>) -> bool {
    k.len() > 2 && starts_with(k, "ts"@) && digits_from(k, 2)
}

fn is_inline_ts_key(k: &str) -> (r: bool)
    ensures
        r == run_style(k@),
{
    let chars = chars_of(k);
    chars.len() > 2 && has_prefix(k, "ts") && are_digits_from(&chars, 2)
}

/// Whether a style moves to where it is used: it is not named, and it is used
/// once at most.
pub open spec fn moves(k: Seq<char>, named: Seq<Seq<char>>, refs: Seq<Seq<char>>) -> bool {
    !run_style(k) && !listed(named, k) && count(refs, k) < 2
}

/// Whether a style goes: it is named and nothing uses it.
pub open spec fn goes(k: Seq<char>, named: Seq<Seq<char>>, refs: Seq<Seq<char>>) -> bool {
    !run_style(k) && listed(named, k) && count(refs, k) == 0
}

fn does_move(k: &str, named: &Vec<String>, refs: &Vec<String>) -> (r: bool)
    ensures
        r == moves(k@, views(named@), views(refs@)),
{
    !is_inline_ts_key(k) && count_of(named, k) == 0 && count_of(refs, k) < 2
}

fn does_go(k: &str, named: &Vec<String>, refs: &Vec<String>) -> (r: bool)
    ensures
        r == goes(k@, views(named@), views(refs@)),
{
    !is_inline_ts_key(k) && count_of(named, k) > 0 && count_of(refs, k) == 0
}

/// The styles that stay among the first `n`.
pub open spec fn staying(styles: Fields, named: Seq<Seq<char>>, refs: Seq<Seq<char>>, n: nat) -> Fields
    decreases n,
{
    if n == 0 {
        Fields::empty()
    } else {
        let k = styles[n - 1].0;
        if moves(k, named, refs) || goes(k, named, refs) {
            staying(styles, named, refs, (n - 1) as nat)
        } else {
            staying(styles, named, refs, (n - 1) as nat).push(styles[n - 1])
        }
    }
}

/// An object with the first `n` of its references to styles that move replaced
/// by the styles.
pub open spec fn with_moved(o: Fields, styles: Fields, named: Seq<Seq<char>>, refs: Seq<Seq<char>>, n: nat) -> Fields
    decreases n,
{
    if n == 0 {
        o
    } else {
        let before = with_moved(o, styles, named, refs, (n - 1) as nat);
        match get(before, ref_keys()[n - 1]) {
            Some(Json::Str(id)) => match get(styles, id) {
                Some(v) => if moves(id, named, refs) {
                    put(before, ref_keys()[n - 1], v)
                } else {
                    before
                },
                None => before,
            },
            _ => before,
        }
    }
}

/// A node with the styles that move, throughout.
pub open spec fn inlined(node: Json, styles: Fields, named: Seq<Seq<char>>, refs: Seq<Seq<char>>) -> Json
    decreases node, 0nat,
{
    match node {
        Json::Obj(o) => match arr_field(node, "children"@) {
            Some(kids) => {
                proof {
                    lemma_children_smaller(node);
                }
                let p = put(o, "children"@, Json::Arr(inlined_upto(kids, styles, named, refs, kids.len())));
                Json::Obj(with_moved(p, styles, named, refs, 5))
            },
            None => Json::Obj(with_moved(o, styles, named, refs, 5)),
        },
        _ => node,
    }
}

/// The first `n` nodes with the styles that move, throughout.
pub open spec fn inlined_upto(nodes: Seq<Json>, styles: Fields, named: Seq<Seq<char>>, refs: Seq<Seq<char>>, n: nat) -> Seq<
    Json,
>
    decreases nodes, n,
{
    if n == 0 || n > nodes.len() {
        Seq::empty()
    } else {
        inlined_upto(nodes, styles, named, refs, (n - 1) as nat).push(inlined(nodes[n - 1], styles, named, refs))
    }
}

fn move_styles(o: &mut Object, styles: &Object, named: &Vec<String>, refs: &Vec<String>)
    ensures
        final(o)@ == with_moved(old(o)@, styles@, views(named@), views(refs@), 5),
{
    let ghost start = o@;
    let mut i: usize = 0;
    while i < 5
        invariant
            i <= 5,
            o@ == with_moved(start, styles@, views(named@), views(refs@), i as nat),
        decreases 5 - i,
    {
        let moved = match str_of(o.get(ref_key(i))) {
            Some(id) => match styles.get(id) {
                Some(v) => if does_move(id, named, refs) {
                    Some(v.copy())
                } else {
                    None
                },
                None => None,
            },
            None => None,
        };
        o.put_some(ref_key(i), moved);
        i += 1;
    }
}

fn inline_node(node: &Value, styles: &Object, named: &Vec<String>, refs: &Vec<String>) -> (r: Value)
    ensures
        r@ == inlined(node@, styles@, views(named@), views(refs@)),
    decreases node@, 0nat,
{
    match node {
        Value::Object(o) => {
            let mut out = o.copy();
            proof {
                lemma_children_smaller(node@);
            }
            match list_of(node.get("children")) {
                Some(kids) => out.put("children", Value::Array(inline_list(kids, styles, named, refs))),
                None => {},
            }
            move_styles(&mut out, styles, named, refs);
            Value::Object(out)
        },
        _ => node.copy(),
    }
}

fn inline_list(nodes: &Vec<Value>, styles: &Object, named: &Vec<String>, refs: &Vec<String>) -> (r: Vec<Value>)
    ensures
        json_list(r@) == inlined_upto(json_list(nodes@), styles@, views(named@), views(refs@), nodes@.len()),
    decreases json_list(nodes@), 1nat,
{
    let ghost m = json_list(nodes@);
    let mut out: Vec<Value> = Vec::new();
    let mut i: usize = 0;
    assert(json_list(out@) =~= Seq::empty());
    while i < nodes.len()
        invariant
            i <= nodes.len(),
            m == json_list(nodes@),
            json_list(out@) == inlined_upto(m, styles@, views(named@), views(refs@), i as nat),
        decreases nodes.len() - i,
    {
        assert(nodes@[i as int]@ == m[i as int]);
        assert(decreases_to!(m => m[i as int]));
        let ghost before = json_list(out@);
        let one = inline_node(&nodes[i], styles, named, refs);
        out.push(one);
        assert(json_list(out@) =~= before.push(one@));
        i += 1;
    }
    out
}

/// Moves the styles that are used once to where they are used, and drops the
/// named styles that nothing uses.
pub fn inline_single_use_styles(nodes: &mut Vec<Value>, styles: &mut Object, named: &Vec<String>, refs: &Vec<String>)
    ensures
        json_list(final(nodes)@) == inlined_upto(
            json_list(old(nodes)@),
            old(styles)@,
            views(named@),
            views(refs@),
            old(nodes)@.len(),
        ),
        final(styles)@ == staying(old(styles)@, views(named@), views(refs@), old(styles)@.len()),
{
    let done = inline_list(nodes, styles, named, refs);
    *nodes = done;
    let mut kept = Object::new();
    let mut i: usize = 0;
    while i < styles.entries.len()
        invariant
            i <= styles.entries.len(),
            *styles == *old(styles),
            kept@ == staying(styles@, views(named@), views(refs@), i as nat),
        decreases styles.entries.len() - i,
    {
        let e = &styles.entries[i];
        if !does_move(e.0.as_str(), named, refs) && !does_go(e.0.as_str(), named, refs) {
            let ghost before = kept@;
            kept.entries.push((e.0.clone(), e.1.copy()));
            assert(kept@ =~= before.push((e.0@, e.1@)));
        }
        i += 1;
    }
    *styles = kept;
}

// ---------------------------------------------------------------------------
// Bodies that occur again
// ---------------------------------------------------------------------------

/// Whether a field belongs to the body of a node.
pub open spec fn body_field(k: Seq<char>) -> bool {
    k != "id"@ && k != "name"@ && k != "children"@
}

/// The body among the first `n` fields of a node.
pub open spec fn body_upto(o: Fields, n: nat) -> Fields
    decreases n,
{
    if n == 0 {
        Fields::empty()
    } else if body_field(o[n - 1].0) {
        body_upto(o, (n - 1) as nat).push(o[n - 1])
    } else {
        body_upto(o, (n - 1) as nat)
    }
}

/// The body of a node: its fields but for its id, its name and its children.
pub open spec fn body(o: Fields) -> Fields {
    body_upto(o, o.len())
}

fn body_of(o: &Object) -> (r: Object)
    ensures
        r@ == body(o@),
{
    let mut out = Object::new();
    let mut i: usize = 0;
    while i < o.entries.len()
        invariant
            i <= o.entries.len(),
            out@ == body_upto(o@, i as nat),
        decreases o.entries.len() - i,
    {
        let e = &o.entries[i];
        let k = e.0.as_str();
        if !same(k, "id") && !same(k, "name") && !same(k, "children") {
            let ghost before = out@;
            out.entries.push((e.0.clone(), e.1.copy()));
            assert(out@ =~= before.push(o@[i as int]));
        }
        i += 1;
    }
    out
}

/// A body with its id and its text.
pub struct BodyModel {
    pub id: Seq<char>,
    pub body: Fields,
    pub text: Seq<char>,
}

/// The bodies of a design, first seen first, and the id of the body of each
/// node.
pub struct Bodies {
    pub rows: Seq<BodyModel>,
    pub seen: Seq<Seq<char>>,
}

/// The text of the body with an id, from row `i` on.
pub open spec fn text_with_id(rows: Seq<BodyModel>, id: Seq<char>, i: int) -> Option<Seq<char>>
    decreases rows.len() - i,
{
    if i < 0 || i >= rows.len() {
        None
    } else if rows[i].id == id {
        Some(rows[i].text)
    } else {
        text_with_id(rows, id, i + 1)
    }
}

/// An element id with the first `len` digits of a digest.
pub open spec fn element_name(full: Seq<char>, len: int) -> Seq<char> {
    "EL-"@ + full.subrange(0, len)
}

/// The shortest element id from `len` digits on that no other body has.
pub open spec fn id_among(rows: Seq<BodyModel>, text: Seq<char>, full: Seq<char>, len: int) -> Seq<char>
    decreases full.len() + 4 - len,
{
    if len >= full.len() {
        "EL-"@ + full
    } else {
        match text_with_id(rows, element_name(full, len), 0) {
            None => element_name(full, len),
            Some(t) => if t == text {
                element_name(full, len)
            } else {
                id_among(rows, text, full, len + 4)
            },
        }
    }
}

/// The bodies with one more, which has a text and the digest of that.
pub open spec fn with_hashed(b: Bodies, own: Fields, text: Seq<char>, full: Seq<char>) -> Bodies {
    let id = id_among(b.rows, text, full, 8);
    Bodies {
        rows: if text_with_id(b.rows, id, 0) is Some {
            b.rows
        } else {
            b.rows.push(BodyModel { id, body: own, text })
        },
        seen: b.seen.push(id),
    }
}

/// The bodies with that of one more node; a body of one field is none.
pub open spec fn with_body(b: Bodies, o: Fields) -> Bodies {
    if body(o).len() > 1 {
        let text = stable_text(Json::Obj(body(o)));
        with_hashed(b, body(o), text, digest(text))
    } else {
        b
    }
}

/// The bodies with those of a node and what is below it.
pub open spec fn with_bodies(b: Bodies, node: Json) -> Bodies
    decreases node, 0nat,
{
    match node {
        Json::Obj(o) => match arr_field(node, "children"@) {
            Some(kids) => {
                proof {
                    lemma_children_smaller(node);
                }
                bodies_upto(with_body(b, o), kids, kids.len())
            },
            None => with_body(b, o),
        },
        _ => b,
    }
}

/// The bodies with those of the first `n` nodes and what is below them.
pub open spec fn bodies_upto(b: Bodies, nodes: Seq<Json>, n: nat) -> Bodies
    decreases nodes, n,
{
    if n == 0 || n > nodes.len() {
        b
    } else {
        with_bodies(bodies_upto(b, nodes, (n - 1) as nat), nodes[n - 1])
    }
}

/// No bodies.
pub open spec fn no_bodies() -> Bodies {
    Bodies { rows: Seq::empty(), seen: Seq::empty() }
}

/// The bodies of a design, by id in the order in which they were first seen.
pub struct BodyTable {
    index: indexmap::IndexMap<String, usize>,
    bodies: Vec<Object>,
    texts: Vec<String>,
    seen: Vec<String>,
}

impl BodyTable {
    /// Each id leads to its body.
    pub closed spec fn wf(self) -> bool {
        let rows = index_rows(self.index);
        &&& rows.len() == self.bodies@.len()
        &&& rows.len() == self.texts@.len()
        &&& forall|i: int| 0 <= i < rows.len() ==> (#[trigger] rows[i]).1 == i
    }
}

impl View for BodyTable {
    type V = Bodies;

    closed spec fn view(&self) -> Bodies {
        Bodies {
            rows: Seq::new(
                self.bodies@.len(),
                |i: int|
                    BodyModel {
                        id: index_rows(self.index)[i].0,
                        body: self.bodies@[i]@,
                        text: self.texts@[i]@,
                    },
            ),
            seen: views(self.seen@),
        }
    }
}

proof fn lemma_row_text(t: &BodyTable, id: Seq<char>, i: int)
    requires
        t.wf(),
        0 <= i,
    ensures
        match row_from(index_rows(t.index), id, i) {
            Some(p) => p < t.texts@.len() && text_with_id(t@.rows, id, i) == Some(t.texts@[p as int]@),
            None => text_with_id(t@.rows, id, i) is None,
        },
    decreases t.bodies@.len() - i,
{
    if i < t.bodies@.len() {
        assert(t@.rows[i].id == index_rows(t.index)[i].0);
        lemma_row_text(t, id, i + 1);
    }
}

impl BodyTable {
    /// A table without bodies.
    pub fn new() -> (r: BodyTable)
        ensures
            r.wf(),
            r@ == no_bodies(),
    {
        let r = BodyTable { index: new_index(), bodies: Vec::new(), texts: Vec::new(), seen: Vec::new() };
        assert(r@.rows =~= Seq::empty());
        assert(r@.seen =~= Seq::empty());
        r
    }

    fn find_id(&self, text: &str, full: &str) -> (r: String)
        requires
            self.wf(),
            full@.len() == 40,
        ensures
            r@ == id_among(self@.rows, text@, full@, 8),
    {
        let digits = chars_of(full);
        let mut len: usize = 8;
        while len < digits.len()
            invariant
                self.wf(),
                digits@ == full@,
                digits.len() == 40,
                8 <= len <= 40,
                len % 4 == 0,
                id_among(self@.rows, text@, full@, 8) == id_among(self@.rows, text@, full@, len as int),
            decreases 44 - len,
        {
            let id = cat2("EL-", text_of(&digits, 0, len).as_str());
            proof {
                lemma_row_text(self, id@, 0);
            }
            match index_get(&self.index, id.as_str()) {
                None => return id,
                Some(p) => if same(self.texts[p].as_str(), text) {
                    return id;
                },
            }
            len += 4;
        }
        cat2("EL-", full)
    }

    /// Adds a body that has a text and the digest of that.
    pub fn add_hashed(&mut self, own: Object, text: String, full: &str)
        requires
            old(self).wf(),
            full@.len() == 40,
        ensures
            final(self).wf(),
            final(self)@ == with_hashed(old(self)@, own@, text@, full@),
    {
        let id = self.find_id(text.as_str(), full);
        let ghost before = *self;
        proof {
            lemma_row_text(self, id@, 0);
        }
        if index_get(&self.index, id.as_str()).is_none() {
            let n = self.bodies.len();
            index_insert(&mut self.index, id.as_str(), n);
            self.bodies.push(own);
            self.texts.push(text);
            proof {
                let rows = index_rows(self.index);
                assert forall|i: int| 0 <= i < rows.len() implies (#[trigger] rows[i]).1 == i by {
                    if i < n {
                        assert(rows[i] == index_rows(before.index)[i]);
                    }
                }
                assert(self@.rows =~= before@.rows.push(BodyModel { id: id@, body: own@, text: text@ }));
            }
        } else {
            assert(self@.rows =~= before@.rows);
        }
        let ghost ids = views(self.seen@);
        let ghost rows = self@.rows;
        self.seen.push(id);
        assert(views(self.seen@) =~= ids.push(id@));
        assert(self@.rows =~= rows);
    }

    fn add(&mut self, o: &Object)
        requires
            old(self).wf(),
        ensures
            final(self).wf(),
            final(self)@ == with_body(old(self)@, o@),
    {
        let own = body_of(o);
        if own.len() > 1 {
            let text = stable_stringify(&Value::Object(own.copy()));
            let full = sha1_hex(text.as_str());
            self.add_hashed(own, text, full.as_str());
        }
    }

    fn add_node(&mut self, node: &Value)
        requires
            old(self).wf(),
        ensures
            final(self).wf(),
            final(self)@ == with_bodies(old(self)@, node@),
        decreases node@, 0nat,
    {
        if let Value::Object(o) = node {
            self.add(o);
            proof {
                lemma_children_smaller(node@);
            }
            match list_of(node.get("children")) {
                Some(kids) => self.add_list(kids),
                None => {},
            }
        }
    }

    fn add_list(&mut self, nodes: &Vec<Value>)
        requires
            old(self).wf(),
        ensures
            final(self).wf(),
            final(self)@ == bodies_upto(old(self)@, json_list(nodes@), nodes@.len()),
        decreases json_list(nodes@), 1nat,
    {
        let ghost m = json_list(nodes@);
        let ghost start = self@;
        let mut i: usize = 0;
        while i < nodes.len()
            invariant
                i <= nodes.len(),
                m == json_list(nodes@),
                self.wf(),
                self@ == bodies_upto(start, m, i as nat),
            decreases nodes.len() - i,
        {
            assert(nodes@[i as int]@ == m[i as int]);
            assert(decreases_to!(m => m[i as int]));
            self.add_node(&nodes[i]);
            i += 1;
        }
    }

    /// The bodies that occur again, by id.
    pub fn elements(&self) -> (r: Object)
        requires
            self.wf(),
        ensures
            r@ == elements_of(self@),
    {
        let ids = index_keys(&self.index);
        let ghost b = self@;
        assert(views(ids@).len() == index_rows(self.index).len());
        let mut out = Object::new();
        let mut i: usize = 0;
        while i < ids.len()
            invariant
                self.wf(),
                b == self@,
                i <= ids.len(),
                views(ids@) == index_rows(self.index).map_values(|x: (Seq<char>, usize)| x.0),
                ids.len() == self.bodies.len(),
                out@ == elements_upto(b, i as nat),
            decreases ids.len() - i,
        {
            assert(views(ids@)[i as int] == ids@[i as int]@);
            assert(b.rows[i as int].id == ids@[i as int]@);
            if count_of(&self.seen, ids[i].as_str()) >= 2 {
                out.put(ids[i].as_str(), Value::Object(self.bodies[i].copy()));
            }
            i += 1;
        }
        out
    }
}

/// The bodies among the first `n` that occur again, by id.
pub open spec fn elements_upto(b: Bodies, n: nat) -> Fields
    decreases n,
{
    if n == 0 {
        Fields::empty()
    } else {
        let row = b.rows[n - 1];
        if count(b.seen, row.id) >= 2 {
            put(elements_upto(b, (n - 1) as nat), row.id, Json::Obj(row.body))
        } else {
            elements_upto(b, (n - 1) as nat)
        }
    }
}

/// The elements of a design.
pub open spec fn elements_of(b: Bodies) -> Fields {
    elements_upto(b, b.rows.len())
}

/// Whether a text is that of the element with an id.
pub open spec fn is_text_of(elements: Fields, id: Seq<char>, text: Seq<char>) -> bool {
    match get(elements, id) {
        Some(v) => stable_text(v) == text,
        None => false,
    }
}

/// The element with a text: its id has `len` digits of the digest or more.
pub open spec fn element_for(elements: Fields, text: Seq<char>, full: Seq<char>, len: int) -> Option<Seq<char>>
    decreases full.len() + 4 - len,
{
    if len > full.len() {
        None
    } else if is_text_of(elements, element_name(full, len), text) {
        Some(element_name(full, len))
    } else {
        element_for(elements, text, full, len + 4)
    }
}

/// Finds the element with a text and the digest of that. An id that a longer one
/// had to make way for is passed over.
pub fn find_element(text: &str, full: &str, elements: &Object) -> (r: Option<String>)
    requires
        full@.len() == 40,
    ensures
        opt_text(r) == element_for(elements@, text@, full@, 8),
{
    let digits = chars_of(full);
    let mut len: usize = 8;
    while len <= digits.len()
        invariant
            digits@ == full@,
            digits.len() == 40,
            8 <= len <= 44,
            len % 4 == 0,
            element_for(elements@, text@, full@, 8) == element_for(elements@, text@, full@, len as int),
        decreases 48 - len,
    {
        let id = cat2("EL-", text_of(&digits, 0, len).as_str());
        if let Some(v) = elements.get(id.as_str()) {
            if same(stable_stringify(v).as_str(), text) {
                return Some(id);
            }
        }
        len += 4;
    }
    None
}

/// Finds the element with a text.
fn match_element(text: &str, elements: &Object) -> (r: Option<String>)
    ensures
        opt_text(r) == element_for(elements@, text@, digest(text@), 8),
{
    find_element(text, sha1_hex(text).as_str(), elements)
}

/// A node as a reference to an element.
pub open spec fn reference(o: Fields, id: Seq<char>) -> Fields {
    let a = put_some(Fields::empty(), "id"@, get(o, "id"@));
    let b = put_some(a, "name"@, get(o, "name"@));
    put_some(put(b, "template"@, Json::Str(id)), "children"@, get(o, "children"@))
}

/// A node with its body replaced by a reference where it is an element.
pub open spec fn referring(o: Fields, elements: Fields) -> Fields {
    if body(o).len() > 1 {
        let text = stable_text(Json::Obj(body(o)));
        match element_for(elements, text, digest(text), 8) {
            Some(id) => reference(o, id),
            None => o,
        }
    } else {
        o
    }
}

/// A node with references to elements, throughout.
pub open spec fn templated(node: Json, elements: Fields) -> Json
    decreases node, 0nat,
{
    match node {
        Json::Obj(o) => match arr_field(node, "children"@) {
            Some(kids) => {
                proof {
                    lemma_children_smaller(node);
                }
                let p = put(o, "children"@, Json::Arr(templated_upto(kids, elements, kids.len())));
                Json::Obj(referring(p, elements))
            },
            None => Json::Obj(referring(o, elements)),
        },
        _ => node,
    }
}

/// The first `n` nodes with references to elements, throughout.
pub open spec fn templated_upto(nodes: Seq<Json>, elements: Fields, n: nat) -> Seq<Json>
    decreases nodes, n,
{
    if n == 0 || n > nodes.len() {
        Seq::empty()
    } else {
        templated_upto(nodes, elements, (n - 1) as nat).push(templated(nodes[n - 1], elements))
    }
}

fn refer(o: &Object, elements: &Object) -> (r: Object)
    ensures
        r@ == referring(o@, elements@),
{
    let own = body_of(o);
    if own.len() > 1 {
        let text = stable_stringify(&Value::Object(own));
        if let Some(id) = match_element(text.as_str(), elements) {
            let mut out = Object::new();
            out.put_some("id", copy_some(o.get("id")));
            out.put_some("name", copy_some(o.get("name")));
            out.put("template", Value::String(id));
            out.put_some("children", copy_some(o.get("children")));
            return out;
        }
    }
    o.copy()
}

fn template_node(node: &Value, elements: &Object) -> (r: Value)
    ensures
        r@ == templated(node@, elements@),
    decreases node@, 0nat,
{
    match node {
        Value::Object(o) => {
            let mut out = o.copy();
            proof {
                lemma_children_smaller(node@);
            }
            match list_of(node.get("children")) {
                Some(kids) => out.put("children", Value::Array(apply_template_refs(kids, elements))),
                None => {},
            }
            Value::Object(refer(&out, elements))
        },
        _ => node.copy(),
    }
}

/// Replaces the bodies that are elements by references, children first.
pub fn apply_template_refs(nodes: &Vec<Value>, elements: &Object) -> (r: Vec<Value>)
    ensures
        json_list(r@) == templated_upto(json_list(nodes@), elements@, nodes@.len()),
    decreases json_list(nodes@), 1nat,
{
    let ghost m = json_list(nodes@);
    let mut out: Vec<Value> = Vec::new();
    let mut i: usize = 0;
    assert(json_list(out@) =~= Seq::empty());
    while i < nodes.len()
        invariant
            i <= nodes.len(),
            m == json_list(nodes@),
            json_list(out@) == templated_upto(m, elements@, i as nat),
        decreases nodes.len() - i,
    {
        assert(nodes@[i as int]@ == m[i as int]);
        assert(decreases_to!(m => m[i as int]));
        let ghost before = json_list(out@);
        let one = template_node(&nodes[i], elements);
        out.push(one);
        assert(json_list(out@) =~= before.push(one@));
        i += 1;
    }
    out
}

/// Turns the bodies that occur again into elements. The result holds the
/// elements, and the id of the body of each node.
pub fn deduplicate_elements(nodes: &mut Vec<Value>) -> (r: (Object, Vec<String>))
    ensures
        ({
            let b = bodies_upto(no_bodies(), json_list(old(nodes)@), old(nodes)@.len());
            &&& r.0@ == elements_of(b)
            &&& views(r.1@) == b.seen
            &&& json_list(final(nodes)@) == templated_upto(
                json_list(old(nodes)@),
                elements_of(b),
                old(nodes)@.len(),
            )
        }),
{
    let mut table = BodyTable::new();
    table.add_list(nodes);
    let elements = table.elements();
    let done = apply_template_refs(nodes, &elements);
    *nodes = done;
    (elements, table.seen)
}

// ---------------------------------------------------------------------------
// Styles of one element
// ---------------------------------------------------------------------------

/// The fields of an element and the styles that are left.
pub struct Shared {
    pub fields: Fields,
    pub styles: Fields,
}

/// Whether a style moves into an element that occurs `n` times: it is used
/// there only.
pub open spec fn exclusive(id: Seq<char>, styles: Fields, named: Seq<Seq<char>>, refs: Seq<Seq<char>>, n: nat) -> bool {
    !listed(named, id) && !run_style(id) && has_key(styles, id) && count(refs, id) == n
}

/// An element with the first `n` of its references to styles of its own
/// replaced by the styles.
pub open spec fn with_exclusive(
    s: Shared,
    named: Seq<Seq<char>>,
    refs: Seq<Seq<char>>,
    times: nat,
    n: nat,
) -> Shared
    decreases n,
{
    if n == 0 {
        s
    } else {
        let before = with_exclusive(s, named, refs, times, (n - 1) as nat);
        match get(before.fields, ref_keys()[n - 1]) {
            Some(Json::Str(id)) => match get(before.styles, id) {
                Some(v) => if exclusive(id, before.styles, named, refs, times) {
                    Shared { fields: put(before.fields, ref_keys()[n - 1], v), styles: without(before.styles, id) }
                } else {
                    before
                },
                None => before,
            },
            _ => before,
        }
    }
}

/// The first `n` elements with the styles of their own, and the styles that are
/// left.
pub open spec fn exclusive_upto(
    elements: Fields,
    styles: Fields,
    named: Seq<Seq<char>>,
    refs: Seq<Seq<char>>,
    seen: Seq<Seq<char>>,
    n: nat,
) -> Shared
    decreases n,
{
    if n == 0 {
        Shared { fields: Fields::empty(), styles }
    } else {
        let before = exclusive_upto(elements, styles, named, refs, seen, (n - 1) as nat);
        let (id, v) = elements[n - 1];
        match v {
            Json::Obj(o) => {
                let s = with_exclusive(
                    (Shared { fields: o, styles: before.styles }),
                    named,
                    refs,
                    count(seen, id),
                    5,
                );
                Shared { fields: before.fields.push((id, Json::Obj(s.fields))), styles: s.styles }
            },
            _ => Shared { fields: before.fields.push((id, v)), ..before },
        }
    }
}

fn move_exclusive(o: &mut Object, styles: &mut Object, named: &Vec<String>, refs: &Vec<String>, times: usize)
    ensures
        (Shared { fields: final(o)@, styles: final(styles)@ }) == with_exclusive(
            (Shared { fields: old(o)@, styles: old(styles)@ }),
            views(named@),
            views(refs@),
            times as nat,
            5,
        ),
{
    let ghost start = Shared { fields: o@, styles: styles@ };
    let mut i: usize = 0;
    while i < 5
        invariant
            i <= 5,
            (Shared { fields: o@, styles: styles@ }) == with_exclusive(
                start,
                views(named@),
                views(refs@),
                times as nat,
                i as nat,
            ),
        decreases 5 - i,
    {
        let own: Option<(String, Value)> = match str_of(o.get(ref_key(i))) {
            Some(id) => match styles.get(id) {
                Some(v) => if count_of(named, id) == 0 && !is_inline_ts_key(id) && count_of(refs, id) == times {
                    Some((id.to_owned(), v.copy()))
                } else {
                    None
                },
                None => None,
            },
            None => None,
        };
        match own {
            Some((id, v)) => {
                o.put(ref_key(i), v);
                styles.shift_remove(id.as_str());
            },
            None => {},
        }
        i += 1;
    }
}

/// Moves the styles that only one element uses into it.
pub fn inline_exclusive_styles(
    elements: &mut Object,
    seen: &Vec<String>,
    styles: &mut Object,
    refs: &Vec<String>,
    named: &Vec<String>,
)
    ensures
        (Shared { fields: final(elements)@, styles: final(styles)@ }) == exclusive_upto(
            old(elements)@,
            old(styles)@,
            views(named@),
            views(refs@),
            views(seen@),
            old(elements)@.len(),
        ),
{
    let ghost start = styles@;
    let mut out = Object::new();
    let mut i: usize = 0;
    while i < elements.entries.len()
        invariant
            i <= elements.entries.len(),
            *elements == *old(elements),
            (Shared { fields: out@, styles: styles@ }) == exclusive_upto(
                elements@,
                start,
                views(named@),
                views(refs@),
                views(seen@),
                i as nat,
            ),
        decreases elements.entries.len() - i,
    {
        let e = &elements.entries[i];
        let ghost before = out@;
        let value = match &e.1 {
            Value::Object(o) => {
                let mut own = o.copy();
                move_exclusive(&mut own, styles, named, refs, count_of(seen, e.0.as_str()));
                Value::Object(own)
            },
            _ => e.1.copy(),
        };
        out.entries.push((e.0.clone(), value));
        assert(out@ =~= before.push((e.0@, value@)));
        i += 1;
    }
    *elements = out;
}

} // verus!
