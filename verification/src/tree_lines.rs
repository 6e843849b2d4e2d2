//! What the lines of a tree tell of a design: each node has a line, and each of
//! its fields a part of the line.

use vstd::prelude::*;

use crate::json::{arr_field, field, get, get_after_put, json_text, str_field, Fields, Json};
use crate::outside::{json_quoted, white_space, yaml_text};
use crate::serialize::{
    laid_out, layer_word, line_head, line_keys, lines_upto, needs_quotes, node_line, node_lines, noise,
    only_noise_is_stripped, section, serialized, shown_fields, shown_value, stripped, stripped_upto, tree, value_texts,
    with_section, OutputFormat, Sections,
};
use crate::simplify::design::Design;
use crate::simplify::walk::lemma_children_smaller;
use crate::strings::{digits_from, joined, last_before, repeated};

verus! {

/// Whether the walk gives a node a field that its line shows behind its name: all
/// but the id, the name, the type, the template, the children and the alignment
/// of strokes.
pub open spec fn told_field(k: Seq<char>) -> bool {
    ||| k == "layout"@
    ||| k == "fills"@
    ||| k == "strokes"@
    ||| k == "strokeWeight"@
    ||| k == "strokeDashes"@
    ||| k == "effects"@
    ||| k == "opacity"@
    ||| k == "borderRadius"@
    ||| k == "componentId"@
    ||| k == "componentProperties"@
    ||| k == "componentPropertyReferences"@
    ||| k == "textStyle"@
    ||| k == "boldWeight"@
    ||| k == "text"@
}

/// Whether a text has no white space and no quotes.
pub open spec fn plain_word(s: Seq<char>) -> bool {
    forall|i: int| 0 <= i < s.len() ==> !white_space(#[trigger] s[i]) && s[i] != '"'
}

/// The lengths of dashes as texts.
pub open spec fn length_texts(a: Seq<Json>) -> Seq<Seq<char>> {
    a.map_values(|x: Json| json_text(x))
}

/// Whether `t` tells the value of a field: JSON, a bare word, a quoted text, or
/// the lengths of dashes.
pub open spec fn tells_value(k: Seq<char>, v: Json, t: Seq<char>) -> bool {
    match v {
        Json::Str(s) => if k == "text"@ {
            t == json_quoted(s)
        } else if k == "layout"@ || k == "fills"@ || k == "strokes"@ || k == "effects"@ || k == "textStyle"@ || k
            == "strokeWeight"@ || k == "borderRadius"@ || k == "componentId"@ {
            if plain_word(s) {
                t == s
            } else {
                t == json_quoted(s)
            }
        } else {
            t == json_text(v)
        },
        Json::Arr(a) => if k == "strokeDashes"@ {
            t == joined(length_texts(a), ","@)
        } else {
            t == json_text(v)
        },
        _ => t == json_text(v),
    }
}

/// Whether a line has a part that begins with the name of a field and an equals
/// sign, and goes on with its value.
pub open spec fn tells_field(line: Seq<char>, indent: Seq<char>, k: Seq<char>, v: Json) -> bool {
    exists|parts: Seq<Seq<char>>, j: int, t: Seq<char>|
        {
            &&& 0 <= j < parts.len()
            &&& line == indent + #[trigger] joined(parts, " "@)
            &&& #[trigger] parts[j] == k + "="@ + t
            &&& #[trigger] tells_value(k, v, t)
        }
}

proof fn lemma_shown(node: Json, n: nat, i: int, v: Json, t: Seq<char>)
    requires
        0 <= i < n <= 16,
        field(node, line_keys()[i]) == Some(v),
        shown_value(line_keys()[i], v) == Some(t),
    ensures
        shown_fields(node, n).contains(line_keys()[i] + "="@ + t),
    decreases n,
{
    let part = line_keys()[i] + "="@ + t;
    let all = shown_fields(node, n);
    let before = shown_fields(node, (n - 1) as nat);
    if i < n - 1 {
        lemma_shown(node, (n - 1) as nat, i, v, t);
        let j = choose|j: int| 0 <= j < before.len() && before[j] == part;
        assert(all[j] == part);
    } else {
        assert(all == before.push(part));
        assert(all[before.len() as int] == part);
    }
}

proof fn lemma_told_places(k: Seq<char>) -> (i: int)
    requires
        told_field(k),
    ensures
        0 <= i < 16,
        line_keys()[i] == k,
{
    let keys = line_keys();
    assert(keys[0] == "layout"@ && keys[1] == "fills"@ && keys[2] == "strokes"@ && keys[3] == "strokeWeight"@);
    assert(keys[5] == "strokeDashes"@ && keys[6] == "effects"@ && keys[7] == "opacity"@ && keys[8] == "borderRadius"@);
    assert(keys[10] == "componentId"@ && keys[11] == "componentProperties"@);
    assert(keys[12] == "componentPropertyReferences"@ && keys[13] == "textStyle"@ && keys[14] == "boldWeight"@);
    assert(keys[15] == "text"@);
    choose|i: int| 0 <= i < 16 && line_keys()[i] == k
}

proof fn lemma_words_differ(k: Seq<char>)
    ensures
        k == "layout"@ || k == "fills"@ || k == "strokes"@ || k == "effects"@ || k == "textStyle"@ || k
            == "strokeWeight"@ || k == "borderRadius"@ || k == "componentId"@ ==> k != "strokeDashes"@ && k != "text"@
            && k != "opacity"@ && k != "boldWeight"@ && k != "componentProperties"@ && k
            != "componentPropertyReferences"@,
        "text"@ != "strokeDashes"@,
        "text"@ != "opacity"@,
        "text"@ != "boldWeight"@,
        "text"@ != "componentProperties"@,
        "text"@ != "componentPropertyReferences"@,
        "opacity"@ != "strokeDashes"@,
        "boldWeight"@ != "strokeDashes"@,
        "componentProperties"@ != "strokeDashes"@,
        "componentPropertyReferences"@ != "strokeDashes"@,
{
    reveal_strlit("layout");
    reveal_strlit("text");
    reveal_strlit("boldWeight");
    reveal_strlit("textStyle");
    reveal_strlit("fills");
    reveal_strlit("strokes");
    reveal_strlit("strokeWeight");
    reveal_strlit("strokeDashes");
    reveal_strlit("effects");
    reveal_strlit("opacity");
    reveal_strlit("borderRadius");
    reveal_strlit("componentId");
    reveal_strlit("componentProperties");
    reveal_strlit("componentPropertyReferences");
    assert("strokeWeight"@.len() == 12 && "strokeWeight"@[6] == 'W' && "strokeDashes"@[6] == 'D');
    assert("strokeDashes"@.len() == 12 && "borderRadius"@.len() == 12 && "borderRadius"@[0] == 'b');
    assert("strokeDashes"@[0] == 's');
    assert("layout"@.len() == 6 && "text"@.len() == 4 && "boldWeight"@.len() == 10 && "textStyle"@.len() == 9);
    assert("fills"@.len() == 5 && "strokes"@.len() == 7 && "strokes"@[0] == 's' && "effects"@[0] == 'e');
    assert("effects"@.len() == 7 && "opacity"@.len() == 7 && "opacity"@[0] == 'o');
    assert("componentId"@.len() == 11 && "componentProperties"@.len() == 19);
    assert("componentPropertyReferences"@.len() == 27);
}

/// The line of a node tells each of its fields.
pub proof fn lines_tell_every_field(node: Json, indent: Seq<char>, elements: Fields, k: Seq<char>, v: Json)
    requires
        told_field(k),
        field(node, k) == Some(v),
        k == "text"@ ==> v is Str,
        k == "strokeDashes"@ ==> v is Arr,
    ensures
        tells_field(node_line(node, indent, elements), indent, k, v),
{
    lemma_words_differ(k);
    let i = lemma_told_places(k);
    if let Json::Arr(a) = v {
        assert(value_texts(a) =~= length_texts(a));
    }
    if let Json::Str(s) = v {
        assert(needs_quotes(s) == !plain_word(s));
    }
    let t = shown_value(k, v)->0;
    assert(shown_value(k, v) is Some);
    assert(tells_value(k, v, t));
    lemma_shown(node, 16, i, v, t);
    let own = shown_fields(node, 16);
    let head = line_head(node, elements);
    let j = choose|j: int| 0 <= j < own.len() && own[j] == k + "="@ + t;
    let parts = head + own;
    assert(parts[head.len() + j] == k + "="@ + t);
    assert(node_line(node, indent, elements) == indent + joined(parts, " "@));
}

/// The node that a path of positions among children leads to.
pub open spec fn below(node: Json, path: Seq<int>) -> Option<Json>
    decreases path.len(),
{
    if path.len() == 0 {
        Some(node)
    } else {
        match arr_field(node, "children"@) {
            Some(kids) => if 0 <= path[0] < kids.len() {
                below(kids[path[0]], path.skip(1))
            } else {
                None
            },
            None => None,
        }
    }
}

proof fn lemma_lines_in(nodes: Seq<Json>, indent: Seq<char>, elements: Fields, n: nat, i: int, line: Seq<char>)
    requires
        0 <= i < n <= nodes.len(),
        node_lines(nodes[i], indent, elements).contains(line),
    ensures
        lines_upto(nodes, indent, elements, n).contains(line),
    decreases n,
{
    let before = lines_upto(nodes, indent, elements, (n - 1) as nat);
    let last = node_lines(nodes[n - 1], indent, elements);
    if i < n - 1 {
        lemma_lines_in(nodes, indent, elements, (n - 1) as nat, i, line);
        let j = choose|j: int| 0 <= j < before.len() && before[j] == line;
        assert((before + last)[j] == line);
    } else {
        let j = choose|j: int| 0 <= j < last.len() && last[j] == line;
        assert((before + last)[before.len() + j] == line);
    }
}

proof fn lemma_deeper(n: nat)
    ensures
        "  "@ + repeated("  "@, n) == repeated("  "@, n + 1),
    decreases n,
{
    if n == 0 {
        assert("  "@ + repeated("  "@, 0) =~= repeated("  "@, 0) + "  "@);
    } else {
        lemma_deeper((n - 1) as nat);
        assert("  "@ + (repeated("  "@, (n - 1) as nat) + "  "@) =~= ("  "@ + repeated("  "@, (n - 1) as nat)) + "  "@);
    }
}

/// Every node below a node has a line, two spaces deeper for each level.
pub proof fn every_node_has_a_line(node: Json, path: Seq<int>, m: Json, indent: Seq<char>, elements: Fields)
    requires
        below(node, path) == Some(m),
    ensures
        node_lines(node, indent, elements).contains(
            node_line(m, indent + repeated("  "@, path.len()), elements),
        ),
    decreases path.len(),
{
    let all = node_lines(node, indent, elements);
    lemma_children_smaller(node);
    if path.len() == 0 {
        assert(indent + repeated("  "@, 0) =~= indent);
        assert(all[0] == node_line(node, indent, elements));
    } else {
        let kids = arr_field(node, "children"@)->0;
        let deeper = indent + "  "@;
        every_node_has_a_line(kids[path[0]], path.skip(1), m, deeper, elements);
        lemma_deeper((path.len() - 1) as nat);
        let more = repeated("  "@, (path.len() - 1) as nat);
        assert(deeper + more =~= indent + ("  "@ + more));
        let line = node_line(m, indent + repeated("  "@, path.len()), elements);
        lemma_lines_in(kids, deeper, elements, kids.len(), path[0], line);
        let lines = lines_upto(kids, deeper, elements, kids.len());
        let j = choose|j: int| 0 <= j < lines.len() && lines[j] == line;
        assert(all[1 + j] == line);
    }
}

proof fn lemma_stripped_upto(nodes: Seq<Json>, elements: Fields, n: nat)
    requires
        n <= nodes.len(),
    ensures
        stripped_upto(nodes, elements, n).len() == n,
        forall|i: int| 0 <= i < n ==> #[trigger] stripped_upto(nodes, elements, n)[i] == stripped(nodes[i], elements),
    decreases n,
{
    if n > 0 {
        lemma_stripped_upto(nodes, elements, (n - 1) as nat);
    }
}

proof fn lemma_stripped_kids(node: Json, elements: Fields)
    ensures
        match arr_field(node, "children"@) {
            Some(kids) => arr_field(stripped(node, elements), "children"@) == Some(
                stripped_upto(kids, elements, kids.len()),
            ),
            None => arr_field(stripped(node, elements), "children"@) is None,
        },
{
    reveal_strlit("name");
    reveal_strlit("children");
    assert("name"@.len() != "children"@.len());
    lemma_children_smaller(node);
    if let Json::Obj(o) = node {
        crate::serialize::lemma_get_without(o, "name"@, "children"@);
        if let Some(kids) = arr_field(node, "children"@) {
            let done = Json::Arr(stripped_upto(kids, elements, kids.len()));
            get_after_put(o, "children"@, done, "children"@);
            crate::serialize::lemma_get_without(crate::json::put(o, "children"@, done), "name"@, "children"@);
        }
    }
}

/// What a path leads to is the same node when names that say nothing are left
/// out, without its own such name.
pub proof fn stripping_keeps_the_nodes(node: Json, path: Seq<int>, elements: Fields)
    ensures
        match below(node, path) {
            Some(m) => below(stripped(node, elements), path) == Some(stripped(m, elements)),
            None => below(stripped(node, elements), path) is None,
        },
    decreases path.len(),
{
    if path.len() > 0 {
        lemma_stripped_kids(node, elements);
        if let Some(kids) = arr_field(node, "children"@) {
            lemma_stripped_upto(kids, elements, kids.len());
            if 0 <= path[0] < kids.len() {
                stripping_keeps_the_nodes(kids[path[0]], path.skip(1), elements);
            }
        }
    }
}

/// Whether a text ends with a list of lines under a title, and one of them is
/// `line`.
pub open spec fn lists_line(text: Seq<char>, line: Seq<char>) -> bool {
    exists|front: Seq<char>, lines: Seq<Seq<char>>|
        text == #[trigger] (front + joined(seq!["NODES:"@] + lines, "\n"@)) && lines.contains(line)
}

proof fn lemma_laid_out(s: Sections, line: Seq<char>)
    requires
        s.lines.contains(line),
    ensures
        lists_line(laid_out(s), line),
{
    let a = seq!["NAME: "@ + json_quoted(s.name)];
    let b = with_section(a, "\nGLOBAL_VARS:\n"@, s.global_vars);
    let c = with_section(b, "ELEMENTS:\n"@, s.elements);
    let d = with_section(c, "COMPONENTS:\n"@, s.components);
    let e = with_section(d, "COMPONENT_SETS:\n"@, s.component_sets);
    let tail = joined(seq!["NODES:"@] + s.lines, "\n"@);
    assert(e.push(tail).drop_last() =~= e);
    let front = joined(e, "\n"@) + "\n"@;
    assert(e.len() > 0);
    assert(laid_out(s) =~= front + tail);
}

/// The tree loses no field of a node: each node of a design, however deep, has a
/// line, and the line tells each field that the walk can give a node.
pub proof fn the_tree_loses_no_field(d: Design, i: int, path: Seq<int>, m: Json, k: Seq<char>, v: Json)
    requires
        0 <= i < d.nodes.len(),
        below(d.nodes[i], path) == Some(m),
        told_field(k),
        field(m, k) == Some(v),
        k == "text"@ ==> v is Str,
        k == "strokeDashes"@ ==> v is Arr,
    ensures
        exists|line: Seq<char>|
            #[trigger] lists_line(serialized(d, OutputFormat::Tree), line) && tells_field(
                line,
                repeated("  "@, path.len()),
                k,
                v,
            ),
{
    let nodes = stripped_upto(d.nodes, d.elements, d.nodes.len());
    lemma_stripped_upto(d.nodes, d.elements, d.nodes.len());
    stripping_keeps_the_nodes(d.nodes[i], path, d.elements);
    let n = stripped(m, d.elements);
    reveal_strlit("name");
    reveal_strlit("children");
    lemma_told_apart(k);
    only_noise_is_stripped(m, d.elements, k);
    let indent = repeated("  "@, path.len());
    reveal_strlit("");
    assert(""@ + indent =~= indent);
    every_node_has_a_line(nodes[i], path, n, ""@, d.elements);
    let line = node_line(n, indent, d.elements);
    lines_tell_every_field(n, indent, d.elements, k, v);
    lemma_lines_in(nodes, ""@, d.elements, nodes.len(), i, line);
    lemma_laid_out(
        Sections {
            name: d.name,
            global_vars: section(d.global_vars),
            elements: section(d.elements),
            components: section(d.components),
            component_sets: section(d.component_sets),
            lines: lines_upto(nodes, ""@, d.elements, nodes.len()),
        },
        line,
    );
    assert(serialized(d, OutputFormat::Tree) == tree(d));
    assert(lists_line(serialized(d, OutputFormat::Tree), line));
    assert(tells_field(line, indent, k, v));
}

proof fn lemma_told_apart(k: Seq<char>)
    requires
        told_field(k),
    ensures
        k != "name"@,
        k != "children"@,
{
    reveal_strlit("name");
    reveal_strlit("children");
    reveal_strlit("layout");
    reveal_strlit("text");
    reveal_strlit("boldWeight");
    reveal_strlit("textStyle");
    reveal_strlit("fills");
    reveal_strlit("strokes");
    reveal_strlit("strokeWeight");
    reveal_strlit("strokeDashes");
    reveal_strlit("effects");
    reveal_strlit("opacity");
    reveal_strlit("borderRadius");
    reveal_strlit("componentId");
    reveal_strlit("componentProperties");
    reveal_strlit("componentPropertyReferences");
    assert("name"@.len() == 4 && "name"@[0] == 'n' && "text"@[0] == 't' && "children"@.len() == 8);
    assert("layout"@.len() == 6 && "boldWeight"@.len() == 10 && "textStyle"@.len() == 9 && "fills"@.len() == 5);
    assert("strokes"@.len() == 7 && "strokeWeight"@.len() == 12 && "strokeDashes"@.len() == 12 && "effects"@.len() == 7);
    assert("opacity"@.len() == 7 && "borderRadius"@.len() == 12 && "componentId"@.len() == 11);
    assert("componentProperties"@.len() == 19 && "componentPropertyReferences"@.len() == 27 && "text"@.len() == 4);
}

/// The line of a node begins with its type in brackets, its name in quotes where it
/// has one, and its id; a reference to an element names the element.
pub proof fn lines_tell_the_node(
    node: Json,
    indent: Seq<char>,
    elements: Fields,
    kind: Seq<char>,
    id: Seq<char>,
)
    requires
        str_field(node, "type"@) == Some(kind),
        str_field(node, "template"@) is None,
        str_field(node, "id"@) == Some(id),
    ensures
        exists|parts: Seq<Seq<char>>|
            {
                &&& node_line(node, indent, elements) == indent + #[trigger] joined(parts, " "@)
                &&& parts.len() >= 2
                &&& parts[0] == "["@ + kind + "]"@
                &&& match str_field(node, "name"@) {
                    Some(name) => parts.len() >= 3 && parts[1] == json_quoted(name) && parts[2] == "#"@ + id,
                    None => parts[1] == "#"@ + id,
                }
            },
{
    let parts = line_head(node, elements) + shown_fields(node, 16);
    assert(node_line(node, indent, elements) == indent + joined(parts, " "@));
}

/// The line of a reference tells the type of its element and the element.
pub proof fn lines_tell_the_element(node: Json, indent: Seq<char>, elements: Fields, element: Seq<char>, body: Json, kind: Seq<char>)
    requires
        str_field(node, "template"@) == Some(element),
        get(elements, element) == Some(body),
        str_field(body, "type"@) == Some(kind),
    ensures
        exists|parts: Seq<Seq<char>>|
            {
                &&& node_line(node, indent, elements) == indent + #[trigger] joined(parts, " "@)
                &&& parts.len() >= 1
                &&& parts[0] == "["@ + kind + "]"@
                &&& parts.contains("template="@ + element)
            },
{
    let head = line_head(node, elements);
    let parts = head + shown_fields(node, 16);
    assert(head.last() == "template="@ + element);
    assert(parts[head.len() - 1] == "template="@ + element);
    assert(node_line(node, indent, elements) == indent + joined(parts, " "@));
}

// ---------------------------------------------------------------------------
// Sections
// ---------------------------------------------------------------------------

proof fn lemma_with_section(sections: Seq<Seq<char>>, title: Seq<char>, text: Option<Seq<char>>)
    ensures
        forall|x: Seq<char>| sections.contains(x) ==> #[trigger] with_section(sections, title, text).contains(x),
        text matches Some(t) ==> with_section(sections, title, text).contains(title + t),
{
    let all = with_section(sections, title, text);
    assert forall|x: Seq<char>| sections.contains(x) implies #[trigger] all.contains(x) by {
        let k = choose|k: int| 0 <= k < sections.len() && sections[k] == x;
        assert(all[k] == x);
    }
    if let Some(t) = text {
        assert(all[sections.len() as int] == title + t);
    }
}

/// The tree of a design holds its name and each of its parts under its title: the
/// styles, the elements, the components and their sets.
pub proof fn the_tree_holds_every_part(s: Sections)
    ensures
        exists|parts: Seq<Seq<char>>|
            {
                &&& laid_out(s) == #[trigger] joined(parts, "\n"@)
                &&& parts.contains("NAME: "@ + json_quoted(s.name))
                &&& s.global_vars matches Some(t) ==> parts.contains("\nGLOBAL_VARS:\n"@ + t)
                &&& s.elements matches Some(t) ==> parts.contains("ELEMENTS:\n"@ + t)
                &&& s.components matches Some(t) ==> parts.contains("COMPONENTS:\n"@ + t)
                &&& s.component_sets matches Some(t) ==> parts.contains("COMPONENT_SETS:\n"@ + t)
                &&& parts.last() == joined(seq!["NODES:"@] + s.lines, "\n"@)
            },
{
    let name = "NAME: "@ + json_quoted(s.name);
    let a = seq![name];
    let b = with_section(a, "\nGLOBAL_VARS:\n"@, s.global_vars);
    let c = with_section(b, "ELEMENTS:\n"@, s.elements);
    let d = with_section(c, "COMPONENTS:\n"@, s.components);
    let e = with_section(d, "COMPONENT_SETS:\n"@, s.component_sets);
    assert(a[0] == name);
    lemma_with_section(a, "\nGLOBAL_VARS:\n"@, s.global_vars);
    lemma_with_section(b, "ELEMENTS:\n"@, s.elements);
    lemma_with_section(c, "COMPONENTS:\n"@, s.components);
    lemma_with_section(d, "COMPONENT_SETS:\n"@, s.component_sets);
    let tail = joined(seq!["NODES:"@] + s.lines, "\n"@);
    let parts = e.push(tail);
    assert forall|x: Seq<char>| e.contains(x) implies #[trigger] parts.contains(x) by {
        let k = choose|k: int| 0 <= k < e.len() && e[k] == x;
        assert(parts[k] == x);
    }
    assert(b.contains(name) && c.contains(name) && d.contains(name) && e.contains(name));
    if let Some(t) = s.global_vars {
        let x = "\nGLOBAL_VARS:\n"@ + t;
        assert(b.contains(x) && c.contains(x) && d.contains(x) && e.contains(x));
    }
    if let Some(t) = s.elements {
        let x = "ELEMENTS:\n"@ + t;
        assert(c.contains(x) && d.contains(x) && e.contains(x));
    }
    if let Some(t) = s.components {
        let x = "COMPONENTS:\n"@ + t;
        assert(d.contains(x) && e.contains(x));
    }
    assert(laid_out(s) == joined(parts, "\n"@));
}

/// The parts of a design that the tree holds are its own, and only empty ones are
/// left out.
pub proof fn the_tree_is_of_the_design(d: Design)
    ensures
        exists|s: Sections|
            {
                &&& tree(d) == #[trigger] laid_out(s)
                &&& s.name == d.name
                &&& s.global_vars is None <==> d.global_vars.len() == 0
                &&& s.global_vars matches Some(t) ==> t == yaml_text(json_text(Json::Obj(d.global_vars)))
                &&& s.elements is None <==> d.elements.len() == 0
                &&& s.elements matches Some(t) ==> t == yaml_text(json_text(Json::Obj(d.elements)))
                &&& s.components is None <==> d.components.len() == 0
                &&& s.components matches Some(t) ==> t == yaml_text(json_text(Json::Obj(d.components)))
                &&& s.component_sets is None <==> d.component_sets.len() == 0
                &&& s.component_sets matches Some(t) ==> t == yaml_text(json_text(Json::Obj(d.component_sets)))
            },
{
    let nodes = stripped_upto(d.nodes, d.elements, d.nodes.len());
    let s = Sections {
        name: d.name,
        global_vars: section(d.global_vars),
        elements: section(d.elements),
        components: section(d.components),
        component_sets: section(d.component_sets),
        lines: lines_upto(nodes, ""@, d.elements, nodes.len()),
    };
    assert(tree(d) == laid_out(s));
}

// ---------------------------------------------------------------------------
// Names that say nothing
// ---------------------------------------------------------------------------

proof fn lemma_last_space(name: Seq<char>, at: int, n: int)
    requires
        0 <= at < n <= name.len(),
        name[at] == ' ',
        forall|i: int| at < i < name.len() ==> #[trigger] name[i] != ' ',
    ensures
        last_before(name, ' ', n) == Some(at),
    decreases n,
{
    if n - 1 > at {
        assert(name[n - 1] != ' ');
        lemma_last_space(name, at, n - 1);
    }
}

/// A name of a word and a number is one that Figma made where the word is one that
/// Figma names layers with, and only there.
pub proof fn made_names_are_words_and_numbers(word: Seq<char>, number: Seq<char>, kind: Option<Seq<char>>)
    requires
        number.len() > 0,
        forall|i: int| 0 <= i < number.len() ==> '0' <= #[trigger] number[i] <= '9',
        kind != Some("TEXT"@),
    ensures
        noise(word + " "@ + number, kind) == layer_word(word),
        word == "Frame"@ || word == "Rectangle"@ || word == "Group"@ || word == "Vector"@ || word == "Ellipse"@ || word
            == "Line"@ || word == "Component"@ || word == "Instance"@ || word == "Star"@ || word == "Text"@ || word
            == "Image"@ ==> noise(word + " "@ + number, kind),
{
    let name = word + " "@ + number;
    reveal_strlit(" ");
    assert(name[word.len() as int] == ' ');
    assert forall|i: int| word.len() < i < name.len() implies #[trigger] name[i] != ' ' by {
        assert(name[i] == number[i - word.len() - 1]);
    }
    lemma_last_space(name, word.len() as int, name.len() as int);
    assert(name.subrange(0, word.len() as int) =~= word);
    assert(digits_from(name, word.len() as int + 1)) by {
        assert forall|i: int| word.len() + 1 <= i < name.len() implies '0' <= #[trigger] name[i] <= '9' by {
            assert(name[i] == number[i - word.len() - 1]);
        }
    }
}

/// A name without a space says something, and the name of a text never does.
pub proof fn other_names_say_something(name: Seq<char>, kind: Option<Seq<char>>)
    ensures
        !name.contains(' ') && kind != Some("TEXT"@) ==> !noise(name, kind),
        kind == Some("TEXT"@) ==> noise(name, kind),
{
    if !name.contains(' ') {
        lemma_no_space(name, name.len() as int);
    }
}

proof fn lemma_no_space(name: Seq<char>, n: int)
    requires
        0 <= n <= name.len(),
        !name.contains(' '),
    ensures
        last_before(name, ' ', n) is None,
    decreases n,
{
    if n > 0 {
        assert(name.contains(name[n - 1]));
        lemma_no_space(name, n - 1);
    }
}

} // verus!
