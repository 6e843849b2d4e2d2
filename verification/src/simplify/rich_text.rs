//! The characters of a text node as markdown, with references to the styles
//! that its runs have beyond markdown.

use vstd::prelude::*;

use crate::json::{
    arr_field, as_str, json_list, list_of, obj_field, object_of, opt_list, str_field, str_of, Fields, Json, Num, Object,
    Value,
};
use crate::simplify::markdown::{escape_markdown, escaped, marked, write_marked};
use crate::simplify::numbers::{opt_nat, uint, uint_value};
use crate::simplify::registry::{inline_id, register_inline_style, with_inline, Ctx, State};
use crate::simplify::runs::{
    basis, bold_weight, class, classify_run, compute_runs, detect_bold_weight, lemma_next_break, line_runs, line_views,
    lines_from, nats, next_break, run_views, runs_from, split_lines, stretch_end, Basis, Line, LineModel, Run, RunModel,
};
use crate::strings::{cat2, cat3, chars_of, decimal, decimal_of, decimals_tell_numbers_apart, join, joined, opt_text, repeated, same, views};

verus! {

/// The text of a node, and the weight of its bold runs.
#[derive(Debug)]
pub struct FormattedText {
    pub text: Option<String>,
    pub bold_weight: Option<u64>,
}

// ---------------------------------------------------------------------------
// Runs
// ---------------------------------------------------------------------------

/// A run between references to its style.
pub open spec fn referenced(id: Seq<char>, text: Seq<char>) -> Seq<char> {
    "{"@ + id + "}"@ + text + "{/"@ + id + "}"@
}

/// The text of a run in a state.
pub open spec fn run_text(run: RunModel, b: Basis, s: State) -> Seq<char> {
    let c = class(run.1, b);
    let text = marked(run.0, c.marks);
    if c.rest.len() == 0 {
        text
    } else {
        referenced(inline_id(s, Json::Obj(c.rest)), text)
    }
}

/// The state after a run.
pub open spec fn after_run(run: RunModel, b: Basis, s: State) -> State {
    let c = class(run.1, b);
    if c.rest.len() == 0 {
        s
    } else {
        with_inline(s, Json::Obj(c.rest))
    }
}

fn render_run(run: &Run, base: &Object, bold: Option<u64>, ctx: &mut Ctx) -> (r: String)
    ensures
        r@ == run_text(run@, basis(base, bold, old(ctx).turns@), old(ctx)@),
        final(ctx)@ == after_run(run@, basis(base, bold, old(ctx).turns@), old(ctx)@),
        final(ctx).turns@ == old(ctx).turns@,
{
    let c = classify_run(&run.delta, base, bold, &ctx.turns);
    let text = write_marked(run.text.as_str(), c.bold, c.italic, c.strike, &c.url);
    if c.rest.is_empty() {
        text
    } else {
        let id = register_inline_style(ctx, Value::Object(c.rest));
        let head = cat3("{", id.as_str(), "}");
        let tail = cat3("{/", id.as_str(), "}");
        let r = cat3(head.as_str(), text.as_str(), tail.as_str());
        assert(r@ =~= referenced(id@, text@));
        r
    }
}

/// The texts of the first `n` runs, one after another, from a state on.
pub open spec fn runs_text(runs: Seq<RunModel>, b: Basis, s: State, n: nat) -> Seq<char>
    decreases n,
{
    if n == 0 {
        Seq::empty()
    } else {
        runs_text(runs, b, s, (n - 1) as nat) + run_text(runs[n - 1], b, after_runs(runs, b, s, (n - 1) as nat))
    }
}

/// The state after the first `n` runs.
pub open spec fn after_runs(runs: Seq<RunModel>, b: Basis, s: State, n: nat) -> State
    decreases n,
{
    if n == 0 {
        s
    } else {
        after_run(runs[n - 1], b, after_runs(runs, b, s, (n - 1) as nat))
    }
}

fn render_runs(runs: &Vec<Run>, base: &Object, bold: Option<u64>, ctx: &mut Ctx) -> (r: String)
    ensures
        r@ == runs_text(run_views(runs@), basis(base, bold, old(ctx).turns@), old(ctx)@, runs@.len()),
        final(ctx)@ == after_runs(run_views(runs@), basis(base, bold, old(ctx).turns@), old(ctx)@, runs@.len()),
        final(ctx).turns@ == old(ctx).turns@,
{
    let ghost m = run_views(runs@);
    let ghost s = ctx@;
    let ghost b = basis(base, bold, ctx.turns@);
    let mut out = String::new();
    let mut i: usize = 0;
    assert(out@ =~= runs_text(m, b, s, 0));
    while i < runs.len()
        invariant
            i <= runs.len(),
            m == run_views(runs@),
            b == basis(base, bold, old(ctx).turns@),
            ctx.turns@ == old(ctx).turns@,
            out@ == runs_text(m, b, s, i as nat),
            ctx@ == after_runs(m, b, s, i as nat),
        decreases runs.len() - i,
    {
        assert(m[i as int] == runs@[i as int]@);
        let text = render_run(&runs[i], base, bold, ctx);
        out.append(text.as_str());
        i += 1;
    }
    out
}

// ---------------------------------------------------------------------------
// Lists
// ---------------------------------------------------------------------------

/// The kind of line `i`.
pub open spec fn line_kind(kinds: Seq<Seq<char>>, i: int) -> Seq<char> {
    if 0 <= i < kinds.len() {
        kinds[i]
    } else {
        "NONE"@
    }
}

/// The indentation of line `i`.
pub open spec fn line_depth(depths: Seq<nat>, i: int) -> nat {
    if 0 <= i < depths.len() {
        depths[i]
    } else {
        0
    }
}

/// The number of items that the numbered list at a depth has at the end of line
/// `j`: deeper lines do not matter, and any other line ends the list.
pub open spec fn items_before(kinds: Seq<Seq<char>>, depths: Seq<nat>, depth: nat, j: int) -> nat
    decreases j + 1,
{
    if j < 0 {
        0
    } else if line_depth(depths, j) > depth {
        items_before(kinds, depths, depth, j - 1)
    } else if line_depth(depths, j) == depth && line_kind(kinds, j) == "ORDERED"@ {
        items_before(kinds, depths, depth, j - 1) + 1
    } else {
        0
    }
}

/// Line `i` with the mark of its list in front of it.
pub open spec fn list_line(kinds: Seq<Seq<char>>, depths: Seq<nat>, i: int, text: Seq<char>) -> Seq<char> {
    let depth = line_depth(depths, i);
    if line_kind(kinds, i) == "ORDERED"@ {
        repeated("  "@, depth) + decimal(items_before(kinds, depths, depth, i - 1) + 1) + ". "@ + text
    } else if line_kind(kinds, i) == "UNORDERED"@ {
        repeated("  "@, depth) + "- "@ + text
    } else {
        text
    }
}

fn kind_of(kinds: &Vec<String>, i: usize) -> (r: String)
    ensures
        r@ == line_kind(views(kinds@), i as int),
{
    if i < kinds.len() {
        kinds[i].clone()
    } else {
        "NONE".to_owned()
    }
}

fn depth_of(depths: &Vec<u64>, i: usize) -> (r: u64)
    ensures
        r == line_depth(nats(depths@), i as int),
{
    if i < depths.len() {
        depths[i]
    } else {
        0
    }
}

fn indent(depth: u64) -> (r: String)
    ensures
        r@ == repeated("  "@, depth as nat),
{
    let mut out = String::new();
    let mut i: u64 = 0;
    assert(out@ =~= repeated("  "@, 0));
    while i < depth
        invariant
            i <= depth,
            out@ == repeated("  "@, i as nat),
        decreases depth - i,
    {
        out.append("  ");
        i += 1;
    }
    out
}

proof fn lemma_items_bound(kinds: Seq<Seq<char>>, depths: Seq<nat>, depth: nat, j: int)
    requires
        j >= -1,
    ensures
        items_before(kinds, depths, depth, j) <= j + 1,
    decreases j + 1,
{
    if j >= 0 {
        lemma_items_bound(kinds, depths, depth, j - 1);
    }
}

fn count_items(kinds: &Vec<String>, depths: &Vec<u64>, depth: u64, lines: usize) -> (r: u128)
    ensures
        r == items_before(views(kinds@), nats(depths@), depth as nat, lines - 1),
{
    let ghost k = views(kinds@);
    let ghost d = nats(depths@);
    let mut total: u128 = 0;
    let mut n: usize = lines;
    while n > 0
        invariant
            n <= lines,
            k == views(kinds@),
            d == nats(depths@),
            total <= lines - n,
            items_before(k, d, depth as nat, lines - 1) == total + items_before(k, d, depth as nat, n - 1),
        decreases n,
    {
        let at = depth_of(depths, n - 1);
        if at < depth {
            return total;
        }
        if at == depth {
            if !same(kind_of(kinds, n - 1).as_str(), "ORDERED") {
                return total;
            }
            total += 1;
        }
        n -= 1;
    }
    total
}

fn write_list_line(kinds: &Vec<String>, depths: &Vec<u64>, i: usize, text: &str) -> (r: String)
    ensures
        r@ == list_line(views(kinds@), nats(depths@), i as int, text@),
{
    let kind = kind_of(kinds, i);
    let depth = depth_of(depths, i);
    if same(kind.as_str(), "ORDERED") {
        proof {
            lemma_items_bound(views(kinds@), nats(depths@), depth as nat, i - 1);
        }
        let number = decimal_of(count_items(kinds, depths, depth, i) + 1);
        let head = cat3(indent(depth).as_str(), number.as_str(), ". ");
        cat2(head.as_str(), text)
    } else if same(kind.as_str(), "UNORDERED") {
        cat3(indent(depth).as_str(), "- ", text)
    } else {
        text.to_owned()
    }
}

// ---------------------------------------------------------------------------
// Texts
// ---------------------------------------------------------------------------

/// The kinds of the lines of a text.
pub open spec fn kinds_of(a: Option<Seq<Json>>) -> Seq<Seq<char>> {
    match a {
        Some(v) => Seq::new(
            v.len(),
            |i: int|
                match as_str(Some(v[i])) {
                    Some(s) => s,
                    None => "NONE"@,
                },
        ),
        None => Seq::empty(),
    }
}

/// The counts of a list, zero where there is none.
pub open spec fn counts_of(a: Option<Seq<Json>>) -> Seq<nat> {
    match a {
        Some(v) => Seq::new(
            v.len(),
            |i: int|
                match uint_value(v[i]) {
                    Some(n) => n,
                    None => 0,
                },
        ),
        None => Seq::empty(),
    }
}

fn read_kinds(a: Option<&Vec<Value>>) -> (r: Vec<String>)
    ensures
        views(r@) == kinds_of(opt_list(a)),
{
    let mut out: Vec<String> = Vec::new();
    match a {
        Some(v) => {
            let ghost m = json_list(v@);
            let mut i: usize = 0;
            while i < v.len()
                invariant
                    i <= v.len(),
                    m == json_list(v@),
                    out.len() == i,
                    forall|k: int| 0 <= k < i ==> (#[trigger] out@[k])@ == kinds_of(Some(m))[k],
                decreases v.len() - i,
            {
                out.push(
                    match str_of(Some(&v[i])) {
                        Some(s) => s.to_owned(),
                        None => "NONE".to_owned(),
                    },
                );
                i += 1;
            }
            assert(views(out@) =~= kinds_of(Some(m)));
        },
        None => {
            assert(views(out@) =~= Seq::empty());
        },
    }
    out
}

fn read_counts(a: Option<&Vec<Value>>) -> (r: Vec<u64>)
    ensures
        nats(r@) == counts_of(opt_list(a)),
{
    let mut out: Vec<u64> = Vec::new();
    match a {
        Some(v) => {
            let ghost m = json_list(v@);
            let mut i: usize = 0;
            while i < v.len()
                invariant
                    i <= v.len(),
                    m == json_list(v@),
                    out.len() == i,
                    forall|k: int| 0 <= k < i ==> (#[trigger] out@[k]) as nat == counts_of(Some(m))[k],
                decreases v.len() - i,
            {
                out.push(
                    match uint(&v[i]) {
                        Some(n) => n,
                        None => 0,
                    },
                );
                i += 1;
            }
            assert(nats(out@) =~= counts_of(Some(m)));
        },
        None => {
            assert(nats(out@) =~= Seq::empty());
        },
    }
    out
}

/// Whether a text needs more than escaping: a character has a style of its own,
/// or a line belongs to a list.
pub open spec fn is_rich(overrides: Seq<nat>, kinds: Seq<Seq<char>>) -> bool {
    (exists|i: int| 0 <= i < overrides.len() && #[trigger] overrides[i] != 0) || (exists|i: int|
        0 <= i < kinds.len() && (#[trigger] kinds[i] == "ORDERED"@ || kinds[i] == "UNORDERED"@))
}

fn check_rich(overrides: &Vec<u64>, kinds: &Vec<String>) -> (r: bool)
    ensures
        r == is_rich(nats(overrides@), views(kinds@)),
{
    let ghost o = nats(overrides@);
    let ghost k = views(kinds@);
    let mut i: usize = 0;
    while i < overrides.len()
        invariant
            i <= overrides.len(),
            o == nats(overrides@),
            forall|j: int| 0 <= j < i ==> #[trigger] o[j] == 0,
        decreases overrides.len() - i,
    {
        if overrides[i] != 0 {
            assert(o[i as int] != 0);
            return true;
        }
        i += 1;
    }
    let mut i: usize = 0;
    while i < kinds.len()
        invariant
            i <= kinds.len(),
            k == views(kinds@),
            forall|j: int| 0 <= j < i ==> #[trigger] k[j] != "ORDERED"@ && k[j] != "UNORDERED"@,
        decreases kinds.len() - i,
    {
        assert(k[i as int] == kinds@[i as int]@);
        if same(kinds[i].as_str(), "ORDERED") || same(kinds[i].as_str(), "UNORDERED") {
            return true;
        }
        i += 1;
    }
    false
}

/// The runs of each line.
pub open spec fn runs_of_lines(lines: Seq<LineModel>, table: Fields, base: Fields) -> Seq<Seq<RunModel>> {
    lines.map_values(|l: LineModel| line_runs(l, table, base))
}

/// The runs of the first `n` lines, one after another.
pub open spec fn flat_runs(per_line: Seq<Seq<RunModel>>, n: nat) -> Seq<RunModel>
    decreases n,
{
    if n == 0 {
        Seq::empty()
    } else {
        flat_runs(per_line, (n - 1) as nat) + per_line[n - 1]
    }
}

/// The first `n` lines in markdown, from a state on.
pub open spec fn line_texts(
    per_line: Seq<Seq<RunModel>>,
    kinds: Seq<Seq<char>>,
    depths: Seq<nat>,
    b: Basis,
    s: State,
    n: nat,
) -> Seq<Seq<char>>
    decreases n,
{
    if n == 0 {
        Seq::empty()
    } else {
        let runs = per_line[n - 1];
        let before = line_texts(per_line, kinds, depths, b, s, (n - 1) as nat);
        let state = after_lines(per_line, b, s, (n - 1) as nat);
        before.push(list_line(kinds, depths, n - 1, runs_text(runs, b, state, runs.len())))
    }
}

/// The state after the first `n` lines.
pub open spec fn after_lines(per_line: Seq<Seq<RunModel>>, b: Basis, s: State, n: nat) -> State
    decreases n,
{
    if n == 0 {
        s
    } else {
        after_runs(per_line[n - 1], b, after_lines(per_line, b, s, (n - 1) as nat), per_line[n - 1].len())
    }
}

/// A text in markdown, the weight of its bold runs, and the state after it.
pub struct Formatted {
    pub text: Option<Seq<char>>,
    pub bold: Option<nat>,
    pub state: State,
}

/// The style override table of a text.
pub open spec fn override_table(node: Json) -> Fields {
    match obj_field(node, "styleOverrideTable"@) {
        Some(t) => t,
        None => Fields::empty(),
    }
}

/// A rich text in markdown.
pub open spec fn rich_text(node: Json, chars: Seq<char>, base: Fields, s: State) -> Formatted {
    let overrides = counts_of(arr_field(node, "characterStyleOverrides"@));
    let kinds = kinds_of(arr_field(node, "lineTypes"@));
    let depths = counts_of(arr_field(node, "lineIndentations"@));
    let per_line = runs_of_lines(lines_from(chars, overrides, 0), override_table(node), base);
    let bold = bold_weight(flat_runs(per_line, per_line.len()), base);
    let b = Basis { base, bold, turns: s.turns };
    Formatted {
        text: Some(joined(line_texts(per_line, kinds, depths, b, s, per_line.len()), "\\n"@)),
        bold,
        state: after_lines(per_line, b, s, per_line.len()),
    }
}

/// The characters of a node.
pub open spec fn characters(node: Json) -> Seq<char> {
    match str_field(node, "characters"@) {
        Some(c) => c,
        None => ""@,
    }
}

/// The text of a node in markdown.
pub open spec fn formatted(node: Json, s: State) -> Formatted {
    let chars = characters(node);
    if chars == ""@ {
        Formatted { text: None, bold: None, state: s }
    } else {
        match obj_field(node, "style"@) {
            Some(base) => if is_rich(
                counts_of(arr_field(node, "characterStyleOverrides"@)),
                kinds_of(arr_field(node, "lineTypes"@)),
            ) {
                rich_text(node, chars, base, s)
            } else {
                Formatted { text: Some(escaped(chars)), bold: None, state: s }
            },
            None => Formatted { text: Some(escaped(chars)), bold: None, state: s },
        }
    }
}

/// The models of the runs of each line.
pub open spec fn run_lists(s: Seq<Vec<Run>>) -> Seq<Seq<RunModel>> {
    s.map_values(|v: Vec<Run>| run_views(v@))
}

fn split_runs(lines: &Vec<Line>, table: &Object, base: &Object) -> (r: Vec<Vec<Run>>)
    ensures
        run_lists(r@) == runs_of_lines(line_views(lines@), table@, base@),
{
    let ghost m = line_views(lines@);
    let mut out: Vec<Vec<Run>> = Vec::new();
    let mut i: usize = 0;
    while i < lines.len()
        invariant
            i <= lines.len(),
            m == line_views(lines@),
            out.len() == i,
            forall|k: int| 0 <= k < i ==> run_views((#[trigger] out@[k])@) == line_runs(m[k], table@, base@),
        decreases lines.len() - i,
    {
        out.push(compute_runs(&lines[i], table, base));
        i += 1;
    }
    assert(run_lists(out@) =~= runs_of_lines(m, table@, base@));
    out
}

fn flatten_runs(per_line: &Vec<Vec<Run>>) -> (r: Vec<Run>)
    ensures
        run_views(r@) == flat_runs(run_lists(per_line@), per_line@.len()),
{
    let ghost m = run_lists(per_line@);
    let mut out: Vec<Run> = Vec::new();
    let mut i: usize = 0;
    assert(run_views(out@) =~= flat_runs(m, 0));
    while i < per_line.len()
        invariant
            i <= per_line.len(),
            m == run_lists(per_line@),
            run_views(out@) == flat_runs(m, i as nat),
        decreases per_line.len() - i,
    {
        let ghost before = run_views(out@);
        let line = &per_line[i];
        let mut k: usize = 0;
        assert(m[i as int] == run_views(line@));
        assert(before =~= before + m[i as int].take(0));
        while k < line.len()
            invariant
                k <= line.len(),
                m[i as int] == run_views(line@),
                run_views(out@) == before + m[i as int].take(k as int),
            decreases line.len() - k,
        {
            let ghost now = run_views(out@);
            let run = Run { text: line[k].text.clone(), delta: line[k].delta.copy() };
            out.push(run);
            assert(run_views(out@) =~= now.push(run@));
            assert(m[i as int].take(k + 1) =~= m[i as int].take(k as int).push(m[i as int][k as int]));
            assert(run_views(out@) =~= before + m[i as int].take(k + 1));
            k += 1;
        }
        assert(m[i as int].take(line.len() as int) =~= m[i as int]);
        i += 1;
    }
    out
}

fn render_rich(node: &Value, characters: &str, base: &Object, overrides: &Vec<u64>, kinds: &Vec<String>, ctx: &mut Ctx)
    -> (r: FormattedText)
    requires
        nats(overrides@) == counts_of(arr_field(node@, "characterStyleOverrides"@)),
        views(kinds@) == kinds_of(arr_field(node@, "lineTypes"@)),
    ensures
        ({
            let want = rich_text(node@, characters@, base@, old(ctx)@);
            opt_text(r.text) == want.text && opt_nat(r.bold_weight) == want.bold && final(ctx)@ == want.state
        }),
{
    let depths = read_counts(list_of(node.get("lineIndentations")));
    let table = match object_of(node.get("styleOverrideTable")) {
        Some(t) => t.copy(),
        None => Object::new(),
    };
    let chars = chars_of(characters);
    let lines = split_lines(&chars, overrides);
    let per_line = split_runs(&lines, &table, base);
    let bold = detect_bold_weight(&flatten_runs(&per_line), base);
    let ghost m = run_lists(per_line@);
    let ghost s = ctx@;
    let ghost b = basis(base, bold, ctx.turns@);
    let mut rendered: Vec<String> = Vec::new();
    let mut i: usize = 0;
    assert(views(rendered@) =~= line_texts(m, views(kinds@), nats(depths@), b, s, 0));
    while i < per_line.len()
        invariant
            i <= per_line.len(),
            m == run_lists(per_line@),
            b == basis(base, bold, old(ctx).turns@),
            ctx.turns@ == old(ctx).turns@,
            views(rendered@) == line_texts(m, views(kinds@), nats(depths@), b, s, i as nat),
            ctx@ == after_lines(m, b, s, i as nat),
        decreases per_line.len() - i,
    {
        assert(m[i as int] == run_views(per_line@[i as int]@));
        let text = render_runs(&per_line[i], base, bold, ctx);
        let ghost before = views(rendered@);
        let line = write_list_line(kinds, &depths, i, text.as_str());
        rendered.push(line);
        assert(views(rendered@) =~= before.push(line@));
        i += 1;
    }
    FormattedText { text: Some(join(&rendered, "\\n")), bold_weight: bold }
}

/// Writes the text of a node in markdown. Styles that markdown does not have
/// are registered, and the runs that have them refer to them.
pub fn build_formatted_text(node: &Value, ctx: &mut Ctx) -> (r: FormattedText)
    ensures
        ({
            let want = formatted(node@, old(ctx)@);
            opt_text(r.text) == want.text && opt_nat(r.bold_weight) == want.bold && final(ctx)@ == want.state
        }),
{
    let characters: &str = match str_of(node.get("characters")) {
        Some(c) => c,
        None => "",
    };
    if same(characters, "") {
        return FormattedText { text: None, bold_weight: None };
    }
    let overrides = read_counts(list_of(node.get("characterStyleOverrides")));
    let kinds = read_kinds(list_of(node.get("lineTypes")));
    match object_of(node.get("style")) {
        Some(base) => if check_rich(&overrides, &kinds) {
            render_rich(node, characters, base, &overrides, &kinds, ctx)
        } else {
            FormattedText { text: Some(escape_markdown(characters)), bold_weight: None }
        },
        None => FormattedText { text: Some(escape_markdown(characters)), bold_weight: None },
    }
}

// ---------------------------------------------------------------------------
// Laws
// ---------------------------------------------------------------------------

/// The kind of a line; lines without one belong to no list.
pub open spec fn kind_at(kinds: Seq<Seq<char>>, i: int) -> Seq<char> {
    if 0 <= i < kinds.len() {
        kinds[i]
    } else {
        "NONE"@
    }
}

/// The depth of a line; lines without one are not indented.
pub open spec fn depth_at(depths: Seq<nat>, i: int) -> nat {
    if 0 <= i < depths.len() {
        depths[i]
    } else {
        0
    }
}

/// Whether line `i` goes on with the numbered list that line `h` is an item of:
/// both are items at one depth, and all lines between them are deeper.
pub open spec fn goes_on(kinds: Seq<Seq<char>>, depths: Seq<nat>, h: int, i: int) -> bool {
    &&& 0 <= h < i
    &&& kind_at(kinds, h) == "ORDERED"@
    &&& kind_at(kinds, i) == "ORDERED"@
    &&& depth_at(depths, h) == depth_at(depths, i)
    &&& forall|k: int| h < k < i ==> #[trigger] depth_at(depths, k) > depth_at(depths, i)
}

/// Whether line `i` is the first item of a numbered list.
pub open spec fn begins_list(kinds: Seq<Seq<char>>, depths: Seq<nat>, i: int) -> bool {
    &&& 0 <= i
    &&& kind_at(kinds, i) == "ORDERED"@
    &&& forall|h: int| !goes_on(kinds, depths, h, i)
}

/// Whether a line is the item of a numbered list with a number: two spaces for
/// each level, the number, a full stop, a space and the text.
pub open spec fn is_item(line: Seq<char>, depth: nat, number: nat, text: Seq<char>) -> bool {
    line == repeated("  "@, depth) + decimal(number) + ". "@ + text
}

proof fn lemma_items_skip(kinds: Seq<Seq<char>>, depths: Seq<nat>, depth: nat, h: int, j: int)
    requires
        -1 <= h <= j,
        forall|k: int| h < k <= j ==> #[trigger] depth_at(depths, k) > depth,
    ensures
        items_before(kinds, depths, depth, j) == items_before(kinds, depths, depth, h),
    decreases j - h,
{
    if h < j {
        assert(depth_at(depths, j) > depth);
        lemma_items_skip(kinds, depths, depth, h, j - 1);
    }
}

proof fn lemma_first_item(kinds: Seq<Seq<char>>, depths: Seq<nat>, i: int, j: int)
    requires
        -1 <= j < i,
        begins_list(kinds, depths, i),
        forall|k: int| j < k < i ==> #[trigger] depth_at(depths, k) > depth_at(depths, i),
    ensures
        items_before(kinds, depths, depth_at(depths, i), j) == 0,
    decreases j + 1,
{
    if j >= 0 {
        if depth_at(depths, j) > depth_at(depths, i) {
            lemma_first_item(kinds, depths, i, j - 1);
        } else {
            assert(!goes_on(kinds, depths, j, i));
        }
    }
}

proof fn lemma_same_item(depth: nat, m: nat, n: nat, text: Seq<char>)
    requires
        repeated("  "@, depth) + decimal(m) + ". "@ + text == repeated("  "@, depth) + decimal(n) + ". "@ + text,
    ensures
        m == n,
{
    let front = repeated("  "@, depth);
    let a = front + decimal(m) + ". "@ + text;
    let b = front + decimal(n) + ". "@ + text;
    assert(a.len() == b.len());
    assert(decimal(m).len() == decimal(n).len());
    let (from, to) = (front.len() as int, (front.len() + decimal(m).len()) as int);
    assert(a.subrange(from, to) =~= decimal(m));
    assert(b.subrange(from, to) =~= decimal(n));
    decimals_tell_numbers_apart(m, n);
}

/// The first item of a numbered list has the number one.
pub proof fn lists_begin_with_one(kinds: Seq<Seq<char>>, depths: Seq<nat>, i: int, text: Seq<char>)
    requires
        begins_list(kinds, depths, i),
    ensures
        is_item(list_line(kinds, depths, i, text), depth_at(depths, i), 1, text),
{
    lemma_first_item(kinds, depths, i, i - 1);
}

/// An item of a numbered list has the number of the item before it, plus one.
pub proof fn lists_count_on(
    kinds: Seq<Seq<char>>,
    depths: Seq<nat>,
    h: int,
    i: int,
    number: nat,
    before: Seq<char>,
    text: Seq<char>,
)
    requires
        goes_on(kinds, depths, h, i),
        is_item(list_line(kinds, depths, h, before), depth_at(depths, h), number, before),
    ensures
        is_item(list_line(kinds, depths, i, text), depth_at(depths, i), number + 1, text),
{
    let depth = depth_at(depths, i);
    lemma_items_skip(kinds, depths, depth, h, i - 1);
    lemma_same_item(depth, items_before(kinds, depths, depth, h - 1) + 1, number, before);
}

/// Lines of numbered lists are the items of these lists: the first has the number
/// one, and each other one goes on from the item before it.
pub open spec fn are_numbered(kinds: Seq<Seq<char>>, depths: Seq<nat>, lines: Seq<Seq<char>>, texts: Seq<Seq<char>>) -> bool {
    &&& lines.len() == texts.len()
    &&& forall|i: int|
        0 <= i < lines.len() && #[trigger] begins_list(kinds, depths, i) ==> is_item(
            lines[i],
            depth_at(depths, i),
            1,
            texts[i],
        )
    &&& forall|h: int, i: int, number: nat|
        i < lines.len() && #[trigger] goes_on(kinds, depths, h, i) && #[trigger] is_item(
            lines[h],
            depth_at(depths, h),
            number,
            texts[h],
        ) ==> is_item(lines[i], depth_at(depths, i), number + 1, texts[i])
}

/// Lines of other lists have a dash, and lines of no list are as they are.
pub open spec fn are_marked(kinds: Seq<Seq<char>>, depths: Seq<nat>, lines: Seq<Seq<char>>, texts: Seq<Seq<char>>) -> bool {
    forall|i: int|
        0 <= i < lines.len() ==> {
            &&& kind_at(kinds, i) == "UNORDERED"@ ==> #[trigger] lines[i] == repeated("  "@, depth_at(depths, i))
                + "- "@ + texts[i]
            &&& kind_at(kinds, i) != "ORDERED"@ && kind_at(kinds, i) != "UNORDERED"@ ==> lines[i] == texts[i]
        }
}

/// The texts of the first `n` lines, without the marks of lists.
pub open spec fn bare_texts(per_line: Seq<Seq<RunModel>>, b: Basis, s: State, n: nat) -> Seq<Seq<char>> {
    Seq::new(n, |i: int| runs_text(per_line[i], b, after_lines(per_line, b, s, i as nat), per_line[i].len()))
}

proof fn lemma_line_texts(
    per_line: Seq<Seq<RunModel>>,
    kinds: Seq<Seq<char>>,
    depths: Seq<nat>,
    b: Basis,
    s: State,
    n: nat,
)
    ensures
        line_texts(per_line, kinds, depths, b, s, n).len() == n,
        forall|i: int|
            0 <= i < n ==> #[trigger] line_texts(per_line, kinds, depths, b, s, n)[i] == list_line(
                kinds,
                depths,
                i,
                bare_texts(per_line, b, s, n)[i],
            ),
    decreases n,
{
    if n > 0 {
        lemma_line_texts(per_line, kinds, depths, b, s, (n - 1) as nat);
        let before = line_texts(per_line, kinds, depths, b, s, (n - 1) as nat);
        assert forall|i: int| 0 <= i < n implies #[trigger] line_texts(per_line, kinds, depths, b, s, n)[i]
            == list_line(kinds, depths, i, bare_texts(per_line, b, s, n)[i]) by {
            if i < n - 1 {
                assert(bare_texts(per_line, b, s, n)[i] == bare_texts(per_line, b, s, (n - 1) as nat)[i]);
                assert(line_texts(per_line, kinds, depths, b, s, n)[i] == before[i]);
            }
        }
    }
}

proof fn lemma_unstyled_line(line: Seq<char>, table: Fields, base: Fields, b: Basis, s: State)
    ensures
        ({
            let runs = line_runs((line, Seq::empty()), table, base);
            &&& runs_text(runs, b, s, runs.len()) == escaped(line)
            &&& after_runs(runs, b, s, runs.len()) == s
        }),
{
    let model: LineModel = (line, Seq::empty());
    let runs = line_runs(model, table, base);
    if line.len() == 0 {
        assert(escaped(line) =~= Seq::empty());
    } else {
        lemma_unstyled_stretch(line, 1);
        assert(line.subrange(0, line.len() as int) =~= line);
        let one: Seq<RunModel> = Seq::empty().push((line, Fields::empty()));
        assert(runs_from(model, table, base, line.len() as int, one) == one);
        assert(runs == one);
        assert(after_runs(one, b, s, 0) == s);
        assert(after_runs(one, b, s, 1) == after_run(one[0], b, s));
        assert(runs_text(one, b, s, 0) =~= Seq::empty());
        assert(runs_text(one, b, s, 1) =~= run_text(one[0], b, s));
    }
}

proof fn lemma_unstyled_stretch(line: Seq<char>, i: int)
    requires
        0 <= i <= line.len(),
    ensures
        stretch_end((line, Seq::empty()), 0, i) == line.len(),
    decreases line.len() - i,
{
    if i < line.len() {
        lemma_unstyled_stretch(line, i + 1);
    }
}

proof fn lemma_unstyled_lines(chars: Seq<char>, start: int)
    ensures
        forall|i: int|
            0 <= i < lines_from(chars, Seq::empty(), start).len() ==> (#[trigger] lines_from(
                chars,
                Seq::empty(),
                start,
            )[i]).1.len() == 0,
    decreases chars.len() + 1 - start,
{
    if 0 <= start <= chars.len() {
        lemma_next_break(chars, start);
        let next = next_break(chars, start) + 1;
        lemma_unstyled_lines(chars, next);
        let rest = lines_from(chars, Seq::empty(), next);
        assert forall|i: int| 0 <= i < lines_from(chars, Seq::empty(), start).len() implies (#[trigger] lines_from(
            chars,
            Seq::empty(),
            start,
        )[i]).1.len() == 0 by {
            if i > 0 {
                assert(lines_from(chars, Seq::empty(), start)[i] == rest[i - 1]);
            }
        }
    }
}

proof fn lemma_unstyled_texts(lines: Seq<LineModel>, table: Fields, base: Fields, b: Basis, s: State, n: nat)
    requires
        n <= lines.len(),
        forall|i: int| 0 <= i < lines.len() ==> (#[trigger] lines[i]).1.len() == 0,
    ensures
        after_lines(runs_of_lines(lines, table, base), b, s, n) == s,
        forall|i: int|
            0 <= i < n ==> #[trigger] bare_texts(runs_of_lines(lines, table, base), b, s, n)[i] == escaped(lines[i].0),
    decreases n,
{
    if n > 0 {
        let per_line = runs_of_lines(lines, table, base);
        lemma_unstyled_texts(lines, table, base, b, s, (n - 1) as nat);
        let last = lines[n - 1];
        assert(last.1 =~= Seq::empty());
        lemma_unstyled_line(last.0, table, base, b, s);
        assert(per_line[n - 1] == line_runs((last.0, Seq::empty()), table, base));
        assert forall|i: int| 0 <= i < n implies #[trigger] bare_texts(per_line, b, s, n)[i] == escaped(lines[i].0) by {
            if i < n - 1 {
                assert(bare_texts(per_line, b, s, n)[i] == bare_texts(per_line, b, s, (n - 1) as nat)[i]);
            }
        }
    }
}

/// Whether lines are those of a text with the marks of their lists, `texts` being
/// the lines without them.
pub open spec fn holds_lists(
    text: Option<Seq<char>>,
    kinds: Seq<Seq<char>>,
    depths: Seq<nat>,
    lines: Seq<Seq<char>>,
    texts: Seq<Seq<char>>,
) -> bool {
    text == Some(joined(lines, "\\n"@)) && are_numbered(kinds, depths, lines, texts) && are_marked(
        kinds,
        depths,
        lines,
        texts,
    )
}

/// The text of a node with lists is its lines with the marks of their lists: the
/// items of a numbered list count from one without a gap, and the items of other
/// lists have dashes. Where no character has a style of its own, the lines are
/// those of the characters, escaped.
pub proof fn text_holds_its_lists(
    node: Json,
    chars: Seq<char>,
    base: Fields,
    kinds: Seq<Seq<char>>,
    depths: Seq<nat>,
    listed: int,
    s: State,
)
    requires
        str_field(node, "characters"@) == Some(chars),
        chars.len() > 0,
        obj_field(node, "style"@) == Some(base),
        arr_field(node, "lineTypes"@) == Some(Seq::new(kinds.len(), |i: int| Json::Str(kinds[i]))),
        arr_field(node, "lineIndentations"@) == Some(
            Seq::new(depths.len(), |i: int| Json::Num(Num::Int(depths[i] as int))),
        ),
        0 <= listed < kinds.len(),
        kinds[listed] == "ORDERED"@ || kinds[listed] == "UNORDERED"@,
    ensures
        exists|lines: Seq<Seq<char>>, texts: Seq<Seq<char>>|
            {
                &&& #[trigger] holds_lists(formatted(node, s).text, kinds, depths, lines, texts)
                &&& arr_field(node, "characterStyleOverrides"@) is None ==> {
                    &&& lines.len() == lines_from(chars, Seq::empty(), 0).len()
                    &&& forall|i: int|
                        0 <= i < lines.len() ==> #[trigger] texts[i] == escaped(lines_from(chars, Seq::empty(), 0)[i].0)
                }
            },
{
    reveal_strlit("");
    let types = arr_field(node, "lineTypes"@);
    assert(kinds_of(types) =~= kinds) by {
        assert forall|i: int| 0 <= i < kinds.len() implies kinds_of(types)[i] == kinds[i] by {
            assert(types->0[i] == Json::Str(kinds[i]));
        }
    }
    let indents = arr_field(node, "lineIndentations"@);
    assert(counts_of(indents) =~= depths) by {
        assert forall|i: int| 0 <= i < depths.len() implies counts_of(indents)[i] == depths[i] by {
            assert(indents->0[i] == Json::Num(Num::Int(depths[i] as int)));
        }
    }
    let overrides = counts_of(arr_field(node, "characterStyleOverrides"@));
    let split = lines_from(chars, overrides, 0);
    let per_line = runs_of_lines(split, override_table(node), base);
    let f = rich_text(node, chars, base, s);
    assert(is_rich(overrides, kinds));
    assert(formatted(node, s) == f);
    let b = Basis { base, bold: f.bold, turns: s.turns };
    let texts = bare_texts(per_line, b, s, per_line.len());
    let lines = line_texts(per_line, kinds, depths, b, s, per_line.len());
    lemma_line_texts(per_line, kinds, depths, b, s, per_line.len());
    assert forall|i: int| 0 <= i < lines.len() && #[trigger] begins_list(kinds, depths, i) implies is_item(
        lines[i],
        depth_at(depths, i),
        1,
        texts[i],
    ) by {
        lists_begin_with_one(kinds, depths, i, texts[i]);
    }
    assert forall|h: int, i: int, number: nat|
        i < lines.len() && #[trigger] goes_on(kinds, depths, h, i) && #[trigger] is_item(
            lines[h],
            depth_at(depths, h),
            number,
            texts[h],
        ) implies is_item(lines[i], depth_at(depths, i), number + 1, texts[i]) by {
        assert(lines[h] == list_line(kinds, depths, h, texts[h]));
        lists_count_on(kinds, depths, h, i, number, texts[h], texts[i]);
    }
    assert(are_marked(kinds, depths, lines, texts)) by {
        reveal_strlit("ORDERED");
        reveal_strlit("UNORDERED");
        assert("ORDERED"@.len() != "UNORDERED"@.len());
    }
    assert(holds_lists(formatted(node, s).text, kinds, depths, lines, texts));
    if arr_field(node, "characterStyleOverrides"@) is None {
        assert(overrides =~= Seq::empty());
        lemma_unstyled_lines(chars, 0);
        lemma_unstyled_texts(split, override_table(node), base, b, s, split.len());
    }
}

} // verus!
