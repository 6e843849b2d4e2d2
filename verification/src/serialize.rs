//! The output formats: YAML, JSON, and a tree of indented lines that spends few
//! tokens.

use vstd::prelude::*;

use crate::json::{
    arr_field, as_str, field, get, get_after_put, json_list, json_text, key_from, lemma_key_from, list_of, object_text,
    opt_str, put, str_field, str_of, text_is, to_text, without, Fields, Json, Object, Value,
};
use crate::outside::{
    is_white_space, json_quote_text, json_quoted, pretty_text, to_pretty, to_yaml, white_space, yaml_text,
};
use crate::simplify::design::{Design, SimplifiedDesign};
use crate::simplify::walk::lemma_children_smaller;
use crate::strings::{
    are_digits_from, cat2, cat3, chars_of, digits_from, join, joined, last_of, last_of_exec, opt_text, same, text_of,
    views,
};

verus! {

/// How a design is written.
#[derive(Debug, Clone, Copy, PartialEq, Eq)]
pub enum OutputFormat {
    Yaml,
    Json,
    Tree,
}

// ---------------------------------------------------------------------------
// Names that say nothing
// ---------------------------------------------------------------------------

/// The type of a node, or that of the element that it refers to.
pub open spec fn node_type(node: Json, elements: Fields) -> Option<Seq<char>> {
    match str_field(node, "type"@) {
        Some(t) => Some(t),
        None => match str_field(node, "template"@) {
            Some(id) => match get(elements, id) {
                Some(e) => str_field(e, "type"@),
                None => None,
            },
            None => None,
        },
    }
}

fn node_type_of<'a>(node: &'a Value, elements: &'a Object) -> (r: Option<&'a str>)
    ensures
        opt_str(r) == node_type(node@, elements@),
{
    match str_of(node.get("type")) {
        Some(t) => Some(t),
        None => match str_of(node.get("template")) {
            Some(id) => match elements.get(id) {
                Some(e) => str_of(e.get("type")),
                None => None,
            },
            None => None,
        },
    }
}

/// Whether a word is one that Figma names layers with.
pub open spec fn layer_word(w: Seq<char>) -> bool {
    ||| w == "Frame"@
    ||| w == "Rectangle"@
    ||| w == "Ellipse"@
    ||| w == "Line"@
    ||| w == "Vector"@
    ||| w == "Group"@
    ||| w == "Component"@
    ||| w == "Instance"@
    ||| w == "Polygon"@
    ||| w == "Star"@
    ||| w == "Text"@
    ||| w == "Image"@
    ||| w == "Slice"@
    ||| w == "Section"@
    ||| w == "Boolean"@
    ||| w == "Union"@
    ||| w == "Subtract"@
    ||| w == "Intersect"@
    ||| w == "Exclude"@
    ||| w == "Arrow"@
}

fn is_layer_word(w: &str) -> (r: bool)
    ensures
        r == layer_word(w@),
{
    same(w, "Frame") || same(w, "Rectangle") || same(w, "Ellipse") || same(w, "Line") || same(w, "Vector") || same(
        w,
        "Group",
    ) || same(w, "Component") || same(w, "Instance") || same(w, "Polygon") || same(w, "Star") || same(w, "Text") || same(
        w,
        "Image",
    ) || same(w, "Slice") || same(w, "Section") || same(w, "Boolean") || same(w, "Union") || same(w, "Subtract")
        || same(w, "Intersect") || same(w, "Exclude") || same(w, "Arrow")
}

/// Whether a name is one that Figma made: a layer word and a number.
pub open spec fn made_name(name: Seq<char>) -> bool {
    match last_of(name, ' ') {
        Some(i) => i + 1 < name.len() && digits_from(name, i + 1) && layer_word(name.subrange(0, i)),
        None => false,
    }
}

/// Whether a name says nothing: that of a text, or one that Figma made.
pub open spec fn noise(name: Seq<char>, kind: Option<Seq<char>>) -> bool {
    kind == Some("TEXT"@) || made_name(name)
}

/// Whether the name of a node says nothing.
pub fn is_noise_name(name: &str, kind: Option<&str>) -> (r: bool)
    ensures
        r == noise(name@, opt_str(kind)),
{
    if text_is(kind, "TEXT") {
        return true;
    }
    let chars = chars_of(name);
    match last_of_exec(&chars, ' ') {
        Some(i) => i + 1 < chars.len() && are_digits_from(&chars, i + 1) && is_layer_word(
            text_of(&chars, 0, i).as_str(),
        ),
        None => false,
    }
}

/// A node without its name where that says nothing.
pub open spec fn without_noise(o: Fields, node: Json, elements: Fields) -> Fields {
    match str_field(node, "name"@) {
        Some(name) => if noise(name, node_type(node, elements)) {
            without(o, "name"@)
        } else {
            o
        },
        None => o,
    }
}

/// A node without the names that say nothing, throughout.
pub open spec fn stripped(node: Json, elements: Fields) -> Json
    decreases node, 0nat,
{
    match node {
        Json::Obj(o) => match arr_field(node, "children"@) {
            Some(kids) => {
                proof {
                    lemma_children_smaller(node);
                }
                let p = put(o, "children"@, Json::Arr(stripped_upto(kids, elements, kids.len())));
                Json::Obj(without_noise(p, node, elements))
            },
            None => Json::Obj(without_noise(o, node, elements)),
        },
        _ => node,
    }
}

/// The first `n` nodes without the names that say nothing, throughout.
pub open spec fn stripped_upto(nodes: Seq<Json>, elements: Fields, n: nat) -> Seq<Json>
    decreases nodes, n,
{
    if n == 0 || n > nodes.len() {
        Seq::empty()
    } else {
        stripped_upto(nodes, elements, (n - 1) as nat).push(stripped(nodes[n - 1], elements))
    }
}

fn strip_noise_name(node: &Value, elements: &Object) -> (r: Value)
    ensures
        r@ == stripped(node@, elements@),
    decreases node@, 0nat,
{
    match node {
        Value::Object(o) => {
            let mut next = o.copy();
            proof {
                lemma_children_smaller(node@);
            }
            match list_of(node.get("children")) {
                Some(kids) => next.put("children", Value::Array(strip_list(kids, elements))),
                None => {},
            }
            match str_of(node.get("name")) {
                Some(name) => if is_noise_name(name, node_type_of(node, elements)) {
                    next.shift_remove("name");
                },
                None => {},
            }
            Value::Object(next)
        },
        _ => node.copy(),
    }
}

fn strip_list(nodes: &Vec<Value>, elements: &Object) -> (r: Vec<Value>)
    ensures
        json_list(r@) == stripped_upto(json_list(nodes@), elements@, nodes@.len()),
    decreases json_list(nodes@), 1nat,
{
    let ghost m = json_list(nodes@);
    let mut out: Vec<Value> = Vec::new();
    let mut i: usize = 0;
    assert(json_list(out@) =~= Seq::empty());
    while i < nodes.len()
        invariant
            i <= nodes.len(),
            m == json_list(nodes@),
            json_list(out@) == stripped_upto(m, elements@, i as nat),
        decreases nodes.len() - i,
    {
        assert(nodes@[i as int]@ == m[i as int]);
        assert(decreases_to!(m => m[i as int]));
        let ghost before = json_list(out@);
        let one = strip_noise_name(&nodes[i], elements);
        out.push(one);
        assert(json_list(out@) =~= before.push(one@));
        i += 1;
    }
    out
}

/// A design as one value.
pub open spec fn wrapped(d: Design) -> Json {
    let none = Fields::empty();
    let metadata = put(
        put(put(none, "name"@, Json::Str(d.name)), "components"@, Json::Obj(d.components)),
        "componentSets"@,
        Json::Obj(d.component_sets),
    );
    let a = put(none, "metadata"@, Json::Obj(metadata));
    let b = put(a, "nodes"@, Json::Arr(stripped_upto(d.nodes, d.elements, d.nodes.len())));
    let c = put(b, "globalVars"@, Json::Obj(put(none, "styles"@, Json::Obj(d.global_vars))));
    Json::Obj(put(c, "elements"@, Json::Obj(d.elements)))
}

/// A design as one value, without the names that say nothing.
pub fn wrap_for_serialization(design: &SimplifiedDesign) -> (r: Value)
    ensures
        r@ == wrapped(design@),
{
    let mut metadata = Object::new();
    metadata.put_str("name", design.name.as_str());
    metadata.put("components", Value::Object(design.components.copy()));
    metadata.put("componentSets", Value::Object(design.component_sets.copy()));
    let mut vars = Object::new();
    vars.put("styles", Value::Object(design.global_vars.copy()));
    let mut out = Object::new();
    out.put("metadata", Value::Object(metadata));
    out.put("nodes", Value::Array(strip_list(&design.nodes, &design.elements)));
    out.put("globalVars", Value::Object(vars));
    out.put("elements", Value::Object(design.elements.copy()));
    Value::Object(out)
}

// ---------------------------------------------------------------------------
// Tree
// ---------------------------------------------------------------------------

/// Whether a text needs quotes in a line.
pub open spec fn needs_quotes(s: Seq<char>) -> bool {
    exists|i: int| 0 <= i < s.len() && (white_space(#[trigger] s[i]) || s[i] == '"')
}

/// A text, in quotes where it needs them.
pub open spec fn maybe_quoted(s: Seq<char>) -> Seq<char> {
    if needs_quotes(s) {
        json_quoted(s)
    } else {
        s
    }
}

fn maybe_quote(s: &str) -> (r: String)
    ensures
        r@ == maybe_quoted(s@),
{
    let chars = chars_of(s);
    let mut i: usize = 0;
    while i < chars.len()
        invariant
            i <= chars.len(),
            chars@ == s@,
            forall|k: int| 0 <= k < i ==> !white_space(#[trigger] s@[k]) && s@[k] != '"',
        decreases chars.len() - i,
    {
        if is_white_space(chars[i]) || chars[i] == '"' {
            assert(white_space(s@[i as int]) || s@[i as int] == '"');
            assert(needs_quotes(s@));
            return json_quote_text(s);
        }
        i += 1;
    }
    s.to_owned()
}

/// The fields that a line shows, in order.
pub open spec fn line_keys() -> Seq<Seq<char>> {
    seq![
        "layout"@,
        "fills"@,
        "strokes"@,
        "strokeWeight"@,
        "strokeWeights"@,
        "strokeDashes"@,
        "effects"@,
        "opacity"@,
        "borderRadius"@,
        "styles"@,
        "componentId"@,
        "componentProperties"@,
        "componentPropertyReferences"@,
        "textStyle"@,
        "boldWeight"@,
        "text"@,
    ]
}

fn line_key(i: usize) -> (r: &'static str)
    requires
        i < 16,
    ensures
        r@ == line_keys()[i as int],
{
    if i == 0 {
        "layout"
    } else if i == 1 {
        "fills"
    } else if i == 2 {
        "strokes"
    } else if i == 3 {
        "strokeWeight"
    } else if i == 4 {
        "strokeWeights"
    } else if i == 5 {
        "strokeDashes"
    } else if i == 6 {
        "effects"
    } else if i == 7 {
        "opacity"
    } else if i == 8 {
        "borderRadius"
    } else if i == 9 {
        "styles"
    } else if i == 10 {
        "componentId"
    } else if i == 11 {
        "componentProperties"
    } else if i == 12 {
        "componentPropertyReferences"
    } else if i == 13 {
        "textStyle"
    } else if i == 14 {
        "boldWeight"
    } else {
        "text"
    }
}

/// The texts of a list of values.
pub open spec fn value_texts(a: Seq<Json>) -> Seq<Seq<char>> {
    Seq::new(a.len(), |i: int| json_text(a[i]))
}

/// Whether the value of a field is shown as JSON even where it is a text.
pub open spec fn shown_as_json(k: Seq<char>) -> bool {
    k == "opacity"@ || k == "boldWeight"@ || k == "componentProperties"@ || k == "componentPropertyReferences"@
}

/// The value of a field in a line; dashes that are no list and a text that is
/// none have none.
pub open spec fn shown_value(k: Seq<char>, v: Json) -> Option<Seq<char>> {
    if k == "strokeDashes"@ {
        match v {
            Json::Arr(a) => Some(joined(value_texts(a), ","@)),
            _ => None,
        }
    } else if k == "text"@ {
        match v {
            Json::Str(s) => Some(json_quoted(s)),
            _ => None,
        }
    } else if shown_as_json(k) {
        Some(json_text(v))
    } else {
        Some(
            match v {
                Json::Str(s) => maybe_quoted(s),
                _ => json_text(v),
            },
        )
    }
}

fn write_value(k: &str, v: &Value) -> (r: Option<String>)
    ensures
        opt_text(r) == shown_value(k@, v@),
{
    if same(k, "strokeDashes") {
        match v {
            Value::Array(a) => {
                let ghost m = json_list(a@);
                let mut parts: Vec<String> = Vec::new();
                let mut i: usize = 0;
                while i < a.len()
                    invariant
                        i <= a.len(),
                        m == json_list(a@),
                        parts.len() == i,
                        forall|j: int| 0 <= j < i ==> (#[trigger] parts@[j])@ == json_text(m[j]),
                    decreases a.len() - i,
                {
                    parts.push(to_text(&a[i]));
                    i += 1;
                }
                assert(views(parts@) =~= value_texts(m));
                Some(join(&parts, ","))
            },
            _ => None,
        }
    } else if same(k, "text") {
        match v {
            Value::String(s) => Some(json_quote_text(s.as_str())),
            _ => None,
        }
    } else if same(k, "opacity") || same(k, "boldWeight") || same(k, "componentProperties") || same(
        k,
        "componentPropertyReferences",
    ) {
        Some(to_text(v))
    } else {
        Some(
            match v {
                Value::String(s) => maybe_quote(s.as_str()),
                _ => to_text(v),
            },
        )
    }
}

/// The first `n` fields of a node that a line shows.
pub open spec fn shown_fields(node: Json, n: nat) -> Seq<Seq<char>>
    decreases n,
{
    if n == 0 {
        Seq::empty()
    } else {
        let before = shown_fields(node, (n - 1) as nat);
        let k = line_keys()[n - 1];
        match field(node, k) {
            Some(v) => match shown_value(k, v) {
                Some(t) => before.push(k + "="@ + t),
                None => before,
            },
            None => before,
        }
    }
}

/// The type of a node in its line: that of its element goes first.
pub open spec fn line_type(node: Json, elements: Fields) -> Seq<char> {
    let shared = match str_field(node, "template"@) {
        Some(id) => match get(elements, id) {
            Some(e) => str_field(e, "type"@),
            None => None,
        },
        None => None,
    };
    match shared {
        Some(t) => t,
        None => match str_field(node, "type"@) {
            Some(t) => t,
            None => "?"@,
        },
    }
}

/// The head of the line of a node: its type, its name, its id and its element.
pub open spec fn line_head(node: Json, elements: Fields) -> Seq<Seq<char>> {
    let a = seq!["["@ + line_type(node, elements) + "]"@];
    let b = match str_field(node, "name"@) {
        Some(name) => a.push(json_quoted(name)),
        None => a,
    };
    let c = b.push(
        "#"@ + match str_field(node, "id"@) {
            Some(id) => id,
            None => "?"@,
        },
    );
    match str_field(node, "template"@) {
        Some(t) => c.push("template="@ + t),
        None => c,
    }
}

/// The line of a node.
pub open spec fn node_line(node: Json, indent: Seq<char>, elements: Fields) -> Seq<char> {
    indent + joined(line_head(node, elements) + shown_fields(node, 16), " "@)
}

/// The lines of a node and of what is below it.
pub open spec fn node_lines(node: Json, indent: Seq<char>, elements: Fields) -> Seq<Seq<char>>
    decreases node, 0nat,
{
    let own = seq![node_line(node, indent, elements)];
    match arr_field(node, "children"@) {
        Some(kids) => {
            proof {
                lemma_children_smaller(node);
            }
            own + lines_upto(kids, indent + "  "@, elements, kids.len())
        },
        None => own,
    }
}

/// The lines of the first `n` nodes and of what is below them.
pub open spec fn lines_upto(nodes: Seq<Json>, indent: Seq<char>, elements: Fields, n: nat) -> Seq<Seq<char>>
    decreases nodes, n,
{
    if n == 0 || n > nodes.len() {
        Seq::empty()
    } else {
        lines_upto(nodes, indent, elements, (n - 1) as nat) + node_lines(nodes[n - 1], indent, elements)
    }
}

fn line_type_of(node: &Value, elements: &Object) -> (r: String)
    ensures
        r@ == line_type(node@, elements@),
{
    if let Some(id) = str_of(node.get("template")) {
        if let Some(e) = elements.get(id) {
            if let Some(t) = str_of(e.get("type")) {
                return t.to_owned();
            }
        }
    }
    match str_of(node.get("type")) {
        Some(t) => t.to_owned(),
        None => "?".to_owned(),
    }
}

fn write_head(node: &Value, elements: &Object) -> (r: Vec<String>)
    ensures
        views(r@) == line_head(node@, elements@),
{
    let mut parts: Vec<String> = Vec::new();
    parts.push(cat3("[", line_type_of(node, elements).as_str(), "]"));
    match str_of(node.get("name")) {
        Some(name) => parts.push(json_quote_text(name)),
        None => {},
    }
    let id: &str = match str_of(node.get("id")) {
        Some(id) => id,
        None => "?",
    };
    parts.push(cat2("#", id));
    match str_of(node.get("template")) {
        Some(t) => parts.push(cat2("template=", t)),
        None => {},
    }
    assert(views(parts@) =~= line_head(node@, elements@));
    parts
}

fn write_line(node: &Value, indent: &str, elements: &Object) -> (r: String)
    ensures
        r@ == node_line(node@, indent@, elements@),
{
    let mut parts = write_head(node, elements);
    let ghost head = views(parts@);
    let mut i: usize = 0;
    assert(head =~= head + shown_fields(node@, 0));
    while i < 16
        invariant
            i <= 16,
            views(parts@) == head + shown_fields(node@, i as nat),
        decreases 16 - i,
    {
        let k = line_key(i);
        if let Some(v) = node.get(k) {
            if let Some(t) = write_value(k, v) {
                let ghost before = views(parts@);
                let part = cat3(k, "=", t.as_str());
                parts.push(part);
                assert(views(parts@) =~= before.push(part@));
            }
        }
        assert(views(parts@) =~= head + shown_fields(node@, (i + 1) as nat));
        i += 1;
    }
    cat2(indent, join(&parts, " ").as_str())
}

fn render_node(node: &Value, indent: &str, out: &mut Vec<String>, elements: &Object)
    ensures
        views(final(out)@) == views(old(out)@) + node_lines(node@, indent@, elements@),
    decreases node@, 0nat,
{
    let ghost start = views(out@);
    let line = write_line(node, indent, elements);
    out.push(line);
    assert(views(out@) =~= start + seq![line@]);
    proof {
        lemma_children_smaller(node@);
    }
    match list_of(node.get("children")) {
        Some(kids) => {
            let ghost m = json_list(kids@);
            render_list(kids, cat2(indent, "  ").as_str(), out, elements);
            assert(views(out@) =~= start + (seq![line@] + lines_upto(m, indent@ + "  "@, elements@, m.len())));
        },
        None => {},
    }
}

fn render_list(nodes: &Vec<Value>, indent: &str, out: &mut Vec<String>, elements: &Object)
    ensures
        views(final(out)@) == views(old(out)@) + lines_upto(json_list(nodes@), indent@, elements@, nodes@.len()),
    decreases json_list(nodes@), 1nat,
{
    let ghost m = json_list(nodes@);
    let ghost start = views(out@);
    let mut i: usize = 0;
    assert(start =~= start + lines_upto(m, indent@, elements@, 0));
    while i < nodes.len()
        invariant
            i <= nodes.len(),
            m == json_list(nodes@),
            views(out@) == start + lines_upto(m, indent@, elements@, i as nat),
        decreases nodes.len() - i,
    {
        assert(nodes@[i as int]@ == m[i as int]);
        assert(decreases_to!(m => m[i as int]));
        render_node(&nodes[i], indent, out, elements);
        assert(views(out@) =~= start + lines_upto(m, indent@, elements@, (i + 1) as nat));
        i += 1;
    }
}

/// Sections with a text under a title, if there is one.
pub open spec fn with_section(sections: Seq<Seq<char>>, title: Seq<char>, text: Option<Seq<char>>) -> Seq<Seq<char>> {
    match text {
        Some(t) => sections.push(title + t),
        None => sections,
    }
}

/// The parts of a design as texts, as a tree shows them.
pub struct Sections {
    pub name: Seq<char>,
    pub global_vars: Option<Seq<char>>,
    pub elements: Option<Seq<char>>,
    pub components: Option<Seq<char>>,
    pub component_sets: Option<Seq<char>>,
    pub lines: Seq<Seq<char>>,
}

/// The parts of a design one below the other.
pub open spec fn laid_out(s: Sections) -> Seq<char> {
    let a = seq!["NAME: "@ + json_quoted(s.name)];
    let b = with_section(a, "\nGLOBAL_VARS:\n"@, s.global_vars);
    let c = with_section(b, "ELEMENTS:\n"@, s.elements);
    let d = with_section(c, "COMPONENTS:\n"@, s.components);
    let e = with_section(d, "COMPONENT_SETS:\n"@, s.component_sets);
    joined(e.push(joined(seq!["NODES:"@] + s.lines, "\n"@)), "\n"@)
}

/// The text of an object, unless it is empty.
pub open spec fn section(o: Fields) -> Option<Seq<char>> {
    if o.len() == 0 {
        None
    } else {
        Some(yaml_text(json_text(Json::Obj(o))))
    }
}

/// A design as a tree.
pub open spec fn tree(d: Design) -> Seq<char> {
    let nodes = stripped_upto(d.nodes, d.elements, d.nodes.len());
    laid_out(
        Sections {
            name: d.name,
            global_vars: section(d.global_vars),
            elements: section(d.elements),
            components: section(d.components),
            component_sets: section(d.component_sets),
            lines: lines_upto(nodes, ""@, d.elements, nodes.len()),
        },
    )
}

fn write_section(o: &Object) -> (r: Option<String>)
    ensures
        opt_text(r) == section(o@),
{
    if o.is_empty() {
        None
    } else {
        Some(to_yaml(object_text(o).as_str()))
    }
}

fn add_section(sections: &mut Vec<String>, title: &str, text: &Option<String>)
    ensures
        views(final(sections)@) == with_section(views(old(sections)@), title@, opt_text(*text)),
{
    if let Some(t) = text {
        let ghost before = views(sections@);
        let section = cat2(title, t.as_str());
        sections.push(section);
        assert(views(sections@) =~= before.push(section@));
    }
}

/// Lays the parts of a design out one below the other.
pub fn lay_out(
    name: &str,
    global_vars: &Option<String>,
    elements: &Option<String>,
    components: &Option<String>,
    component_sets: &Option<String>,
    lines: &Vec<String>,
) -> (r: String)
    ensures
        r@ == laid_out(
            (Sections {
                name: name@,
                global_vars: opt_text(*global_vars),
                elements: opt_text(*elements),
                components: opt_text(*components),
                component_sets: opt_text(*component_sets),
                lines: views(lines@),
            }),
        ),
{
    let mut sections: Vec<String> = Vec::new();
    sections.push(cat2("NAME: ", json_quote_text(name).as_str()));
    assert(views(sections@) =~= seq!["NAME: "@ + json_quoted(name@)]);
    add_section(&mut sections, "\nGLOBAL_VARS:\n", global_vars);
    add_section(&mut sections, "ELEMENTS:\n", elements);
    add_section(&mut sections, "COMPONENTS:\n", components);
    add_section(&mut sections, "COMPONENT_SETS:\n", component_sets);
    let mut all: Vec<String> = Vec::new();
    all.push("NODES:".to_owned());
    let mut i: usize = 0;
    assert(views(all@) =~= seq!["NODES:"@] + views(lines@).take(0));
    while i < lines.len()
        invariant
            i <= lines.len(),
            views(all@) == seq!["NODES:"@] + views(lines@).take(i as int),
        decreases lines.len() - i,
    {
        let ghost before = views(all@);
        all.push(lines[i].clone());
        assert(views(all@) =~= before.push(lines@[i as int]@));
        assert(views(lines@).take(i + 1) =~= views(lines@).take(i as int).push(lines@[i as int]@));
        i += 1;
    }
    assert(views(lines@).take(lines.len() as int) =~= views(lines@));
    let ghost before = views(sections@);
    let tail = join(&all, "\n");
    sections.push(tail);
    assert(views(sections@) =~= before.push(tail@));
    join(&sections, "\n")
}

fn serialize_as_tree(design: &SimplifiedDesign) -> (r: String)
    ensures
        r@ == tree(design@),
{
    let nodes = strip_list(&design.nodes, &design.elements);
    let mut lines: Vec<String> = Vec::new();
    render_list(&nodes, "", &mut lines, &design.elements);
    assert(views(lines@) =~= lines_upto(json_list(nodes@), ""@, design@.elements, nodes@.len()));
    lay_out(
        design.name.as_str(),
        &write_section(&design.global_vars),
        &write_section(&design.elements),
        &write_section(&design.components),
        &write_section(&design.component_sets),
        &lines,
    )
}

/// A design in a format.
pub open spec fn serialized(d: Design, format: OutputFormat) -> Seq<char> {
    match format {
        OutputFormat::Json => pretty_text(json_text(wrapped(d))),
        OutputFormat::Yaml => yaml_text(json_text(wrapped(d))),
        OutputFormat::Tree => tree(d),
    }
}

/// Writes a design.
pub fn serialize_design(design: &SimplifiedDesign, format: OutputFormat) -> (r: String)
    ensures
        r@ == serialized(design@, format),
{
    match format {
        OutputFormat::Json => to_pretty(to_text(&wrap_for_serialization(design)).as_str()),
        OutputFormat::Yaml => to_yaml(to_text(&wrap_for_serialization(design)).as_str()),
        OutputFormat::Tree => serialize_as_tree(design),
    }
}

// ---------------------------------------------------------------------------
// Laws
// ---------------------------------------------------------------------------

pub proof fn lemma_get_without(o: Fields, k: Seq<char>, other: Seq<char>)
    requires
        other != k,
    ensures
        get(without(o, k), other) == get(o, other),
{
    let w = without(o, k);
    lemma_key_from(o, k, 0);
    lemma_key_from(o, other, 0);
    lemma_key_from(w, other, 0);
    if let Some(i) = key_from(o, k, 0) {
        match key_from(o, other, 0) {
            Some(j) => {
                let at = if j < i {
                    j
                } else {
                    j - 1
                };
                assert(w[at] == o[j]);
                assert forall|m: int| 0 <= m < at implies (#[trigger] w[m]).0 != other by {
                    if m < i {
                        assert(w[m] == o[m]);
                    } else {
                        assert(w[m] == o[m + 1]);
                    }
                }
                let found = key_from(w, other, 0)->0;
                if found > at {
                    assert(w[at].0 != other);
                } else if found < at {
                    assert(w[found].0 != other);
                }
            },
            None => {
                assert forall|m: int| 0 <= m < w.len() implies (#[trigger] w[m]).0 != other by {
                    if m < i {
                        assert(w[m] == o[m]);
                    } else {
                        assert(w[m] == o[m + 1]);
                    }
                }
            },
        }
    }
}

/// A node loses its name only, and only a name that says nothing; each other
/// field of its own stays.
pub proof fn only_noise_is_stripped(node: Json, elements: Fields, k: Seq<char>)
    requires
        k != "children"@,
        k == "name"@ ==> (str_field(node, "name"@) matches Some(name) ==> !noise(name, node_type(node, elements))),
    ensures
        field(stripped(node, elements), k) == field(node, k),
{
    if let Json::Obj(o) = node {
        let p = match arr_field(node, "children"@) {
            Some(kids) => put(o, "children"@, Json::Arr(stripped_upto(kids, elements, kids.len()))),
            None => o,
        };
        if let Some(kids) = arr_field(node, "children"@) {
            get_after_put(o, "children"@, Json::Arr(stripped_upto(kids, elements, kids.len())), k);
        }
        if k != "name"@ {
            lemma_get_without(p, "name"@, k);
        }
    }
}

/// A design as one value holds its name, its components, its styles and its
/// elements as they are.
pub proof fn wrapped_keeps_the_design(d: Design)
    ensures
        ({
            let w = wrapped(d);
            &&& field(w, "metadata"@) matches Some(m)
            &&& field(m, "name"@) == Some(Json::Str(d.name))
            &&& field(m, "components"@) == Some(Json::Obj(d.components))
            &&& field(m, "componentSets"@) == Some(Json::Obj(d.component_sets))
            &&& field(w, "nodes"@) == Some(Json::Arr(stripped_upto(d.nodes, d.elements, d.nodes.len())))
            &&& field(w, "globalVars"@) matches Some(g)
            &&& field(g, "styles"@) == Some(Json::Obj(d.global_vars))
            &&& field(w, "elements"@) == Some(Json::Obj(d.elements))
        }),
{
    reveal_strlit("name");
    reveal_strlit("components");
    reveal_strlit("componentSets");
    reveal_strlit("metadata");
    reveal_strlit("nodes");
    reveal_strlit("globalVars");
    reveal_strlit("elements");
    assert("name"@.len() == 4 && "components"@.len() == 10 && "componentSets"@.len() == 13);
    assert("metadata"@.len() == 8 && "nodes"@.len() == 5 && "globalVars"@.len() == 10 && "elements"@.len() == 8);
    assert("metadata"@[0] == 'm' && "elements"@[0] == 'e');
    let none = Fields::empty();
    let x = put(none, "name"@, Json::Str(d.name));
    let y = put(x, "components"@, Json::Obj(d.components));
    let z = put(y, "componentSets"@, Json::Obj(d.component_sets));
    get_after_put(none, "name"@, Json::Str(d.name), "name"@);
    get_after_put(x, "components"@, Json::Obj(d.components), "name"@);
    get_after_put(y, "componentSets"@, Json::Obj(d.component_sets), "name"@);
    get_after_put(y, "componentSets"@, Json::Obj(d.component_sets), "components"@);
    let nodes = Json::Arr(stripped_upto(d.nodes, d.elements, d.nodes.len()));
    let vars = Json::Obj(put(none, "styles"@, Json::Obj(d.global_vars)));
    let elements = Json::Obj(d.elements);
    let a = put(none, "metadata"@, Json::Obj(z));
    let b = put(a, "nodes"@, nodes);
    let c = put(b, "globalVars"@, vars);
    get_after_put(none, "styles"@, Json::Obj(d.global_vars), "styles"@);
    get_after_put(none, "metadata"@, Json::Obj(z), "metadata"@);
    get_after_put(a, "nodes"@, nodes, "metadata"@);
    get_after_put(b, "globalVars"@, vars, "metadata"@);
    get_after_put(b, "globalVars"@, vars, "nodes"@);
    get_after_put(c, "elements"@, elements, "metadata"@);
    get_after_put(c, "elements"@, elements, "nodes"@);
    get_after_put(c, "elements"@, elements, "globalVars"@);
}

} // verus!
