//! Designs: what a response of the API holds, and the compact design that it
//! becomes.

use vstd::prelude::*;

use crate::json::{
    arr_field, as_str, field, get, json_list, list_of, obj_field, object_of, str_field, str_of, Fields, Json, Object,
    Value,
};
use crate::simplify::component::{listing, simplify_component_sets, simplify_components};
use crate::simplify::finalize::{
    bodies_upto, count_style_refs, deduplicate_elements, elements_of, exclusive_upto, inline_exclusive_styles,
    inline_single_use_styles, inlined_upto, no_bodies, refs_in, staying, templated_upto,
};
use crate::simplify::gradient::{turns_view, Turn, Turns};
use crate::simplify::registry::{fresh, Ctx, State};
use crate::simplify::walk::{level_count, process_node, walked};
use crate::strings::cat3;

verus! {

// ---------------------------------------------------------------------------
// Responses
// ---------------------------------------------------------------------------

/// What a response holds.
pub struct Source {
    pub name: Seq<char>,
    pub nodes: Seq<Json>,
    pub components: Fields,
    pub component_sets: Fields,
    pub styles: Fields,
}

/// An object in a field, or an empty one.
pub open spec fn object_or_empty(j: Json, k: Seq<char>) -> Fields {
    match obj_field(j, k) {
        Some(o) => o,
        None => Fields::empty(),
    }
}

fn object_in(v: &Value, k: &str) -> (r: Object)
    ensures
        r@ == object_or_empty(v@, k@),
{
    match object_of(v.get(k)) {
        Some(o) => o.copy(),
        None => Object::new(),
    }
}

/// The name of a response.
pub open spec fn source_name(body: Json) -> Seq<char> {
    match str_field(body, "name"@) {
        Some(n) => n,
        None => "Untitled"@,
    }
}

/// What the response to a node request holds: its first node.
pub open spec fn node_source(body: Json, nodes: Fields) -> Result<Source, Seq<char>> {
    if nodes.len() == 0 {
        Err("empty nodes response"@)
    } else {
        let (id, data) = nodes[0];
        if data is Null {
            Err(
                "node "@ + id
                    + " was not found in the Figma file. Only /design/ and /file/ URLs are supported; branches need their own fileKey."@,
            )
        } else {
            match field(data, "document"@) {
                Some(doc) => Ok(
                    Source {
                        name: source_name(body),
                        nodes: seq![doc],
                        components: object_or_empty(data, "components"@),
                        component_sets: object_or_empty(data, "componentSets"@),
                        styles: object_or_empty(data, "styles"@),
                    },
                ),
                None => Err("nodes response missing document"@),
            }
        }
    }
}

/// The pages of a file.
pub open spec fn pages(body: Json) -> Seq<Json> {
    match field(body, "document"@) {
        Some(doc) => match arr_field(doc, "children"@) {
            Some(kids) => kids,
            None => Seq::empty(),
        },
        None => Seq::empty(),
    }
}

/// What a response holds: a node, or the pages of a file.
pub open spec fn source(body: Json) -> Result<Source, Seq<char>> {
    match obj_field(body, "nodes"@) {
        Some(nodes) => node_source(body, nodes),
        None => Ok(
            Source {
                name: source_name(body),
                nodes: pages(body),
                components: object_or_empty(body, "components"@),
                component_sets: object_or_empty(body, "componentSets"@),
                styles: object_or_empty(body, "styles"@),
            },
        ),
    }
}

/// What a response holds.
#[derive(Debug)]
pub struct ParsedResponse {
    pub name: String,
    pub nodes: Vec<Value>,
    pub components: Object,
    pub component_sets: Object,
    pub styles: Object,
}

impl View for ParsedResponse {
    type V = Source;

    open spec fn view(&self) -> Source {
        Source {
            name: self.name@,
            nodes: json_list(self.nodes@),
            components: self.components@,
            component_sets: self.component_sets@,
            styles: self.styles@,
        }
    }
}

/// The model of a parsed response.
pub open spec fn parsed_view(r: Result<ParsedResponse, String>) -> Result<Source, Seq<char>> {
    match r {
        Ok(p) => Ok(p@),
        Err(e) => Err(e@),
    }
}

fn name_of(body: &Value) -> (r: String)
    ensures
        r@ == source_name(body@),
{
    match str_of(body.get("name")) {
        Some(n) => n.to_owned(),
        None => "Untitled".to_owned(),
    }
}

fn pages_of(body: &Value) -> (r: Vec<Value>)
    ensures
        json_list(r@) == pages(body@),
{
    let mut out: Vec<Value> = Vec::new();
    assert(json_list(out@) =~= Seq::empty());
    if let Some(doc) = body.get("document") {
        if let Some(kids) = list_of(doc.get("children")) {
            let ghost m = json_list(kids@);
            let mut i: usize = 0;
            while i < kids.len()
                invariant
                    i <= kids.len(),
                    m == json_list(kids@),
                    json_list(out@) == m.take(i as int),
                decreases kids.len() - i,
            {
                let ghost before = json_list(out@);
                let page = kids[i].copy();
                out.push(page);
                assert(json_list(out@) =~= before.push(page@));
                assert(m.take(i + 1) =~= m.take(i as int).push(m[i as int]));
                i += 1;
            }
            assert(m.take(kids.len() as int) =~= m);
        }
    }
    out
}

/// Reads a response of the API: the answer to a node request, or a file.
pub fn parse_api_response(body: &Value) -> (r: Result<ParsedResponse, String>)
    ensures
        parsed_view(r) == source(body@),
{
    match object_of(body.get("nodes")) {
        Some(nodes) => {
            if nodes.entries.len() == 0 {
                return Err("empty nodes response".to_owned());
            }
            let e = &nodes.entries[0];
            let data = &e.1;
            if data.is_null() {
                return Err(
                    cat3(
                        "node ",
                        e.0.as_str(),
                        " was not found in the Figma file. Only /design/ and /file/ URLs are supported; branches need their own fileKey.",
                    ),
                );
            }
            match data.get("document") {
                Some(doc) => {
                    let mut one: Vec<Value> = Vec::new();
                    one.push(doc.copy());
                    assert(json_list(one@) =~= seq![doc@]);
                    Ok(
                        ParsedResponse {
                            name: name_of(body),
                            nodes: one,
                            components: object_in(data, "components"),
                            component_sets: object_in(data, "componentSets"),
                            styles: object_in(data, "styles"),
                        },
                    )
                },
                None => Err("nodes response missing document".to_owned()),
            }
        },
        None => Ok(
            ParsedResponse {
                name: name_of(body),
                nodes: pages_of(body),
                components: object_in(body, "components"),
                component_sets: object_in(body, "componentSets"),
                styles: object_in(body, "styles"),
            },
        ),
    }
}

// ---------------------------------------------------------------------------
// Designs
// ---------------------------------------------------------------------------

/// A compact design.
pub struct Design {
    pub name: Seq<char>,
    pub nodes: Seq<Json>,
    pub components: Fields,
    pub component_sets: Fields,
    pub global_vars: Fields,
    pub elements: Fields,
}

/// The nodes that the first `n` raw nodes become, and the state after them.
pub open spec fn walked_roots(raw: Seq<Json>, levels: Option<nat>, s: State, n: nat) -> (Seq<Json>, State)
    decreases n,
{
    if n == 0 {
        (Seq::empty(), s)
    } else {
        let (done, before) = walked_roots(raw, levels, s, (n - 1) as nat);
        let (one, after) = walked(raw[n - 1], None, false, levels, before);
        match one {
            Some(f) => (done.push(Json::Obj(f)), after),
            None => (done, after),
        }
    }
}

/// The design that walked nodes become.
pub open spec fn finished(src: Source, nodes: Seq<Json>, s: State) -> Design {
    let refs = refs_in(nodes, nodes.len());
    let moved = inlined_upto(nodes, s.styles, s.named, refs, nodes.len());
    let left = staying(s.styles, s.named, refs, s.styles.len());
    let bodies = bodies_upto(no_bodies(), moved, moved.len());
    let elements = elements_of(bodies);
    let shared = exclusive_upto(elements, left, s.named, refs, bodies.seen, elements.len());
    Design {
        name: src.name,
        nodes: templated_upto(moved, elements, moved.len()),
        components: listing(src.components, "componentSetId"@, s.defs, src.components.len()),
        component_sets: listing(src.component_sets, "description"@, s.defs, src.component_sets.len()),
        global_vars: shared.styles,
        elements: shared.fields,
    }
}

/// The design that a response becomes, as many levels deep as are asked for.
pub open spec fn simplified(body: Json, levels: Option<nat>, turns: Turns) -> Result<Design, Seq<char>> {
    match source(body) {
        Ok(src) => {
            let (nodes, s) = walked_roots(src.nodes, levels, fresh(src.styles, turns), src.nodes.len());
            Ok(finished(src, nodes, s))
        },
        Err(e) => Err(e),
    }
}

/// A compact design: its nodes, and what they share.
#[derive(Debug)]
pub struct SimplifiedDesign {
    pub name: String,
    pub nodes: Vec<Value>,
    pub components: Object,
    pub component_sets: Object,
    pub global_vars: Object,
    pub elements: Object,
}

impl View for SimplifiedDesign {
    type V = Design;

    open spec fn view(&self) -> Design {
        Design {
            name: self.name@,
            nodes: json_list(self.nodes@),
            components: self.components@,
            component_sets: self.component_sets@,
            global_vars: self.global_vars@,
            elements: self.elements@,
        }
    }
}

/// The model of the outcome of a simplification.
pub open spec fn design_view(r: Result<SimplifiedDesign, String>) -> Result<Design, Seq<char>> {
    match r {
        Ok(d) => Ok(d@),
        Err(e) => Err(e@),
    }
}

fn walk_roots(raw: &Vec<Value>, levels: Option<u32>, ctx: &mut Ctx) -> (r: Vec<Value>)
    ensures
        ({
            let (want, after) = walked_roots(json_list(raw@), level_count(levels), old(ctx)@, raw@.len());
            json_list(r@) == want && final(ctx)@ == after
        }),
{
    let ghost m = json_list(raw@);
    let ghost s = ctx@;
    let mut out: Vec<Value> = Vec::new();
    let mut i: usize = 0;
    assert(json_list(out@) =~= Seq::empty());
    while i < raw.len()
        invariant
            i <= raw.len(),
            m == json_list(raw@),
            json_list(out@) == walked_roots(m, level_count(levels), s, i as nat).0,
            ctx@ == walked_roots(m, level_count(levels), s, i as nat).1,
        decreases raw.len() - i,
    {
        let ghost before = json_list(out@);
        match process_node(&raw[i], None, false, levels, ctx) {
            Some(f) => {
                out.push(Value::Object(f));
                assert(json_list(out@) =~= before.push(Json::Obj(f@)));
            },
            None => {},
        }
        i += 1;
    }
    out
}

/// Simplifies a response of the API. `turns` holds the angles of the gradients
/// in it.
pub fn simplify_raw(body: &Value, max_depth: Option<u32>, turns: Vec<Turn>) -> (r: Result<SimplifiedDesign, String>)
    ensures
        design_view(r) == simplified(body@, level_count(max_depth), turns_view(turns@)),
{
    let src = match parse_api_response(body) {
        Ok(p) => p,
        Err(e) => return Err(e),
    };
    let mut ctx = Ctx::new(src.styles, turns);
    let mut nodes = walk_roots(&src.nodes, max_depth, &mut ctx);
    let refs = count_style_refs(&nodes);
    inline_single_use_styles(&mut nodes, &mut ctx.styles, &ctx.named_style_keys, &refs);
    let (mut elements, seen) = deduplicate_elements(&mut nodes);
    inline_exclusive_styles(&mut elements, &seen, &mut ctx.styles, &refs, &ctx.named_style_keys);
    Ok(
        SimplifiedDesign {
            name: src.name,
            nodes,
            components: simplify_components(&src.components, &ctx.prop_defs),
            component_sets: simplify_component_sets(&src.component_sets, &ctx.prop_defs),
            global_vars: ctx.styles,
            elements,
        },
    )
}

} // verus!
