//! Rich text: the lines of a text, the runs of one style in a line, and what
//! sets a run apart from the style of its text.

use vstd::prelude::*;

use crate::float::{from_int, lemma_of_zero, less, zero, Dbl, Double};
use crate::json::{
    as_bool, as_num, as_obj, as_str, bool_of, copy_some, double_of, field, get, get_after_put, has_key, json_text,
    lemma_key_from, object_of, opt_value, put, put_some, str_field, str_of, text_is, text_json, to_text, Fields, Json, Num, Number, Object, Value,
};
use crate::simplify::canonical::{stable_stringify, stable_text};
use crate::simplify::gradient::{turns_view, Turn, Turns};
use crate::simplify::markdown::{is_line_break, line_break, Marks};
use crate::simplify::numbers::{opt_nat, weight_as_u64, weight_value};
use crate::simplify::style::{convert_paints, fills_of, keep_visible, visible_paints};
use crate::simplify::text::{format_line_height, format_spacing, line_height, pick_non_zero_flags, set_flags, spacing};
use crate::strings::{cat2, chars_of, decimal, decimal_of, opt_text, same, text_of};

verus! {

// ---------------------------------------------------------------------------
// Lines
// ---------------------------------------------------------------------------

/// A line: its characters and the overrides of their style.
pub type LineModel = (Seq<char>, Seq<nat>);

/// The first line break from `i` on, or the end.
pub open spec fn next_break(chars: Seq<char>, i: int) -> int
    decreases chars.len() - i,
{
    if 0 <= i < chars.len() && !line_break(chars[i]) {
        next_break(chars, i + 1)
    } else {
        i
    }
}

/// The overrides from `start` to `end`, as far as there are any.
pub open spec fn clamped(overrides: Seq<nat>, start: int, end: int) -> Seq<nat> {
    let stop = if end < overrides.len() {
        end
    } else {
        overrides.len() as int
    };
    if start >= stop {
        Seq::empty()
    } else {
        overrides.subrange(start, stop)
    }
}

/// The line from `start` on.
pub open spec fn line_at(chars: Seq<char>, overrides: Seq<nat>, start: int) -> LineModel {
    let end = next_break(chars, start);
    (chars.subrange(start, end), clamped(overrides, start, end))
}

/// The lines from `start` on.
pub open spec fn lines_from(chars: Seq<char>, overrides: Seq<nat>, start: int) -> Seq<LineModel>
    decreases chars.len() + 1 - start,
{
    if start < 0 || start > chars.len() {
        Seq::empty()
    } else {
        proof {
            lemma_next_break(chars, start);
        }
        seq![line_at(chars, overrides, start)] + lines_from(chars, overrides, next_break(chars, start) + 1)
    }
}

pub proof fn lemma_next_break(chars: Seq<char>, i: int)
    requires
        0 <= i <= chars.len(),
    ensures
        i <= next_break(chars, i) <= chars.len(),
        forall|k: int| i <= k < next_break(chars, i) ==> !line_break(#[trigger] chars[k]),
        next_break(chars, i) < chars.len() ==> line_break(chars[next_break(chars, i)]),
    decreases chars.len() - i,
{
    if i < chars.len() && !line_break(chars[i]) {
        lemma_next_break(chars, i + 1);
    }
}

/// The numbers of a list of machine numbers.
pub open spec fn nats(s: Seq<u64>) -> Seq<nat> {
    s.map_values(|n: u64| n as nat)
}

/// A line of a text.
#[derive(Debug)]
pub struct Line {
    pub chars: Vec<char>,
    pub overrides: Vec<u64>,
}

impl View for Line {
    type V = LineModel;

    open spec fn view(&self) -> LineModel {
        (self.chars@, nats(self.overrides@))
    }
}

/// The models of a list of lines.
pub open spec fn line_views(s: Seq<Line>) -> Seq<LineModel> {
    s.map_values(|l: Line| l@)
}

fn slice_clamped(overrides: &Vec<u64>, start: usize, end: usize) -> (r: Vec<u64>)
    ensures
        nats(r@) == clamped(nats(overrides@), start as int, end as int),
{
    let stop = if end < overrides.len() {
        end
    } else {
        overrides.len()
    };
    let mut out: Vec<u64> = Vec::new();
    if start < stop {
        let mut i: usize = start;
        while i < stop
            invariant
                start <= i <= stop <= overrides.len(),
                out@ == overrides@.subrange(start as int, i as int),
            decreases stop - i,
        {
            out.push(overrides[i]);
            assert(overrides@.subrange(start as int, i + 1) =~= overrides@.subrange(start as int, i as int).push(
                overrides@[i as int],
            ));
            i += 1;
        }
        assert(nats(out@) =~= nats(overrides@).subrange(start as int, stop as int));
    } else {
        assert(nats(out@) =~= Seq::empty());
    }
    out
}

fn slice_chars(chars: &Vec<char>, start: usize, end: usize) -> (r: Vec<char>)
    requires
        start <= end <= chars.len(),
    ensures
        r@ == chars@.subrange(start as int, end as int),
{
    let mut out: Vec<char> = Vec::new();
    let mut i: usize = start;
    while i < end
        invariant
            start <= i <= end <= chars.len(),
            out@ == chars@.subrange(start as int, i as int),
        decreases end - i,
    {
        out.push(chars[i]);
        assert(chars@.subrange(start as int, i + 1) =~= chars@.subrange(start as int, i as int).push(chars@[i as int]));
        i += 1;
    }
    out
}

/// Splits a text into its lines.
pub fn split_lines(chars: &Vec<char>, overrides: &Vec<u64>) -> (r: Vec<Line>)
    ensures
        line_views(r@) == lines_from(chars@, nats(overrides@), 0),
{
    let ghost all = lines_from(chars@, nats(overrides@), 0);
    let mut lines: Vec<Line> = Vec::new();
    let mut start: usize = 0;
    let mut done = false;
    assert(line_views(lines@) + all =~= all);
    while !done
        invariant
            start <= chars.len(),
            !done ==> all == line_views(lines@) + lines_from(chars@, nats(overrides@), start as int),
            done ==> all == line_views(lines@),
        decreases (if done { 0 } else { chars.len() + 1 - start }),
    {
        let mut end: usize = start;
        while end < chars.len() && !is_line_break(chars[end])
            invariant
                start <= end <= chars.len(),
                next_break(chars@, start as int) == next_break(chars@, end as int),
            decreases chars.len() - end,
        {
            end += 1;
        }
        let ghost before = line_views(lines@);
        let ghost rest = lines_from(chars@, nats(overrides@), end + 1);
        let line = Line { chars: slice_chars(chars, start, end), overrides: slice_clamped(overrides, start, end) };
        lines.push(line);
        proof {
            assert(end == next_break(chars@, start as int));
            assert(line_views(lines@) =~= before.push(line@));
            assert(line@ == line_at(chars@, nats(overrides@), start as int));
            assert(before + (seq![line@] + rest) =~= line_views(lines@) + rest);
        }
        if end < chars.len() {
            start = end + 1;
        } else {
            assert(rest =~= Seq::empty());
            assert(line_views(lines@) + rest =~= line_views(lines@));
            done = true;
        }
    }
    lines
}

/// The characters of lines, one after another.
pub open spec fn line_chars(lines: Seq<LineModel>) -> Seq<char>
    decreases lines.len(),
{
    if lines.len() == 0 {
        Seq::empty()
    } else {
        lines[0].0 + line_chars(lines.skip(1))
    }
}

/// A text from `start` on without its line breaks.
pub open spec fn without_breaks(chars: Seq<char>, start: int) -> Seq<char>
    decreases chars.len() - start,
{
    if start < 0 || start >= chars.len() {
        Seq::empty()
    } else if line_break(chars[start]) {
        without_breaks(chars, start + 1)
    } else {
        seq![chars[start]] + without_breaks(chars, start + 1)
    }
}

/// The number of line breaks of a text from `start` on.
pub open spec fn breaks_from(chars: Seq<char>, start: int) -> nat
    decreases chars.len() - start,
{
    if start < 0 || start >= chars.len() {
        0
    } else if line_break(chars[start]) {
        1 + breaks_from(chars, start + 1)
    } else {
        breaks_from(chars, start + 1)
    }
}

proof fn lemma_skip_line(chars: Seq<char>, start: int, end: int)
    requires
        0 <= start <= end <= chars.len(),
        forall|k: int| start <= k < end ==> !line_break(#[trigger] chars[k]),
    ensures
        without_breaks(chars, start) == chars.subrange(start, end) + without_breaks(chars, end),
        breaks_from(chars, start) == breaks_from(chars, end),
    decreases end - start,
{
    if start < end {
        lemma_skip_line(chars, start + 1, end);
        assert(chars.subrange(start, end) =~= seq![chars[start]] + chars.subrange(start + 1, end));
        assert(seq![chars[start]] + (chars.subrange(start + 1, end) + without_breaks(chars, end)) =~= chars.subrange(
            start,
            end,
        ) + without_breaks(chars, end));
    } else {
        assert(chars.subrange(start, end) + without_breaks(chars, end) =~= without_breaks(chars, end));
    }
}

/// The lines of a text hold its characters in order and nothing else but the
/// line breaks is lost: there is one line more than there are breaks, and no
/// line has one.
pub proof fn lines_hold_the_text(chars: Seq<char>, overrides: Seq<nat>, start: int)
    requires
        0 <= start <= chars.len(),
    ensures
        line_chars(lines_from(chars, overrides, start)) == without_breaks(chars, start),
        lines_from(chars, overrides, start).len() == breaks_from(chars, start) + 1,
        forall|i: int, k: int|
            0 <= i < lines_from(chars, overrides, start).len() && 0 <= k < lines_from(chars, overrides, start)[i].0.len()
                ==> !line_break(#[trigger] lines_from(chars, overrides, start)[i].0[k]),
    decreases chars.len() - start,
{
    let end = next_break(chars, start);
    lemma_next_break(chars, start);
    lemma_skip_line(chars, start, end);
    let line = line_at(chars, overrides, start);
    let rest = lines_from(chars, overrides, end + 1);
    let all = lines_from(chars, overrides, start);
    assert(all == seq![line] + rest);
    assert(all.skip(1) =~= rest);
    if end < chars.len() {
        lines_hold_the_text(chars, overrides, end + 1);
    } else {
        assert(rest =~= Seq::empty());
        assert(line_chars(rest) =~= Seq::<char>::empty());
    }
    assert forall|i: int, k: int| 0 <= i < all.len() && 0 <= k < all[i].0.len() implies !line_break(
        #[trigger] all[i].0[k],
    ) by {
        if i == 0 {
            assert(all[0].0[k] == chars[start + k]);
        } else {
            assert(all[i] == rest[i - 1]);
            assert(!line_break(rest[i - 1].0[k]));
        }
    }
}

// ---------------------------------------------------------------------------
// Runs
// ---------------------------------------------------------------------------

/// Whether a field of a style override carries no style.
pub open spec fn ignored_field(k: Seq<char>) -> bool {
    k == "semanticWeight"@ || k == "semanticItalic"@ || k == "isOverrideOverTextStyle"@ || k == "fontPostScriptName"@
        || k == "boundVariables"@
}

fn is_ignored_field(k: &str) -> (r: bool)
    ensures
        r == ignored_field(k@),
{
    same(k, "semanticWeight") || same(k, "semanticItalic") || same(k, "isOverrideOverTextStyle") || same(
        k,
        "fontPostScriptName",
    ) || same(k, "boundVariables")
}

/// A value, or null.
pub open spec fn or_null(v: Option<Json>) -> Json {
    match v {
        Some(x) => x,
        None => Json::Null,
    }
}

/// Whether a field of a style override differs from the style of the text.
pub open spec fn differs(k: Seq<char>, v: Json, base: Fields) -> bool {
    !ignored_field(k) && !(v is Null) && json_text(or_null(get(base, k))) != json_text(v)
}

/// The fields among the first `n` of a style override that differ from the
/// style of the text.
pub open spec fn delta_upto(over: Fields, base: Fields, n: nat) -> Fields
    decreases n,
{
    if n == 0 {
        Fields::empty()
    } else if differs(over[n - 1].0, over[n - 1].1, base) {
        put(delta_upto(over, base, (n - 1) as nat), over[n - 1].0, over[n - 1].1)
    } else {
        delta_upto(over, base, (n - 1) as nat)
    }
}

/// What the style override `id` changes in the style of the text.
pub open spec fn delta(id: nat, table: Fields, base: Fields) -> Fields {
    if id == 0 {
        Fields::empty()
    } else {
        match as_obj(get(table, decimal(id))) {
            Some(over) => delta_upto(over, base, over.len()),
            None => Fields::empty(),
        }
    }
}

fn compute_delta(id: u64, table: &Object, base: &Object) -> (r: Object)
    ensures
        r@ == delta(id as nat, table@, base@),
{
    let mut d = Object::new();
    if id == 0 {
        return d;
    }
    match object_of(table.get(decimal_of(id as u128).as_str())) {
        Some(over) => {
            let mut i: usize = 0;
            while i < over.entries.len()
                invariant
                    i <= over.entries.len(),
                    d@ == delta_upto(over@, base@, i as nat),
                decreases over.entries.len() - i,
            {
                let e = &over.entries[i];
                if !is_ignored_field(e.0.as_str()) && !e.1.is_null() {
                    let known = match base.get(e.0.as_str()) {
                        Some(v) => to_text(v),
                        None => to_text(&Value::Null),
                    };
                    if !same(known.as_str(), to_text(&e.1).as_str()) {
                        d.put(e.0.as_str(), e.1.copy());
                    }
                }
                i += 1;
            }
            d
        },
        None => d,
    }
}

/// A run: its text and what sets it apart.
pub type RunModel = (Seq<char>, Fields);

/// The override of the character at `i`.
pub open spec fn override_at(overrides: Seq<nat>, i: int) -> nat {
    if 0 <= i < overrides.len() {
        overrides[i]
    } else {
        0
    }
}

/// The end of the stretch of characters with override `id` that reaches `i`.
pub open spec fn stretch_end(line: LineModel, id: nat, i: int) -> int
    decreases line.0.len() - i,
{
    if 0 <= i < line.0.len() && override_at(line.1, i) == id {
        stretch_end(line, id, i + 1)
    } else {
        i
    }
}

pub proof fn lemma_stretch_end(line: LineModel, id: nat, i: int)
    requires
        0 <= i <= line.0.len(),
    ensures
        i <= stretch_end(line, id, i) <= line.0.len(),
    decreases line.0.len() - i,
{
    if i < line.0.len() && override_at(line.1, i) == id {
        lemma_stretch_end(line, id, i + 1);
    }
}

/// The runs with one more; a run that is not set apart from the last one makes
/// that longer.
pub open spec fn with_run(runs: Seq<RunModel>, text: Seq<char>, d: Fields) -> Seq<RunModel> {
    if runs.len() > 0 && stable_text(Json::Obj(runs.last().1)) == stable_text(Json::Obj(d)) {
        runs.drop_last().push((runs.last().0 + text, runs.last().1))
    } else {
        runs.push((text, d))
    }
}

/// The runs of a line, from the runs up to `start` on.
pub open spec fn runs_from(line: LineModel, table: Fields, base: Fields, start: int, runs: Seq<RunModel>) -> Seq<
    RunModel,
>
    decreases line.0.len() - start,
{
    if start < 0 || start >= line.0.len() {
        runs
    } else {
        let id = override_at(line.1, start);
        let end = stretch_end(line, id, start + 1);
        proof {
            lemma_stretch_end(line, id, start + 1);
        }
        runs_from(line, table, base, end, with_run(runs, line.0.subrange(start, end), delta(id, table, base)))
    }
}

/// The runs of a line: stretches of characters that nothing sets apart.
pub open spec fn line_runs(line: LineModel, table: Fields, base: Fields) -> Seq<RunModel> {
    runs_from(line, table, base, 0, Seq::empty())
}

/// A run of a line.
#[derive(Debug)]
pub struct Run {
    pub text: String,
    pub delta: Object,
}

impl View for Run {
    type V = RunModel;

    open spec fn view(&self) -> RunModel {
        (self.text@, self.delta@)
    }
}

/// The models of a list of runs.
pub open spec fn run_views(s: Seq<Run>) -> Seq<RunModel> {
    s.map_values(|r: Run| r@)
}

fn deltas_equal(a: &Object, b: &Object) -> (r: bool)
    ensures
        r == (stable_text(Json::Obj(a@)) == stable_text(Json::Obj(b@))),
{
    same(
        stable_stringify(&Value::Object(a.copy())).as_str(),
        stable_stringify(&Value::Object(b.copy())).as_str(),
    )
}

fn add_run(runs: &mut Vec<Run>, text: String, d: Object)
    ensures
        run_views(final(runs)@) == with_run(run_views(old(runs)@), text@, d@),
{
    let ghost before = run_views(runs@);
    let n = runs.len();
    if n > 0 && deltas_equal(&runs[n - 1].delta, &d) {
        let longer = Run { text: cat2(runs[n - 1].text.as_str(), text.as_str()), delta: runs[n - 1].delta.copy() };
        runs.set(n - 1, longer);
        assert(run_views(runs@) =~= before.drop_last().push(longer@));
    } else {
        let run = Run { text, delta: d };
        runs.push(run);
        assert(run_views(runs@) =~= before.push(run@));
    }
}

/// Splits a line into its runs.
pub fn compute_runs(line: &Line, table: &Object, base: &Object) -> (r: Vec<Run>)
    ensures
        run_views(r@) == line_runs(line@, table@, base@),
{
    let ghost m = line@;
    let ghost all = line_runs(m, table@, base@);
    let mut runs: Vec<Run> = Vec::new();
    let mut start: usize = 0;
    assert(run_views(runs@) =~= Seq::empty());
    while start < line.chars.len()
        invariant
            start <= line.chars.len(),
            m == line@,
            all == runs_from(m, table@, base@, start as int, run_views(runs@)),
        decreases line.chars.len() - start,
    {
        let id = override_of(&line.overrides, start);
        let mut end: usize = start + 1;
        while end < line.chars.len() && override_of(&line.overrides, end) == id
            invariant
                start < end <= line.chars.len(),
                m == line@,
                stretch_end(m, id as nat, start + 1) == stretch_end(m, id as nat, end as int),
            decreases line.chars.len() - end,
        {
            end += 1;
        }
        assert(end == stretch_end(m, id as nat, start + 1));
        add_run(&mut runs, text_of(&line.chars, start, end), compute_delta(id, table, base));
        start = end;
    }
    runs
}

fn override_of(overrides: &Vec<u64>, i: usize) -> (r: u64)
    ensures
        r == override_at(nats(overrides@), i as int),
{
    if i < overrides.len() {
        overrides[i]
    } else {
        0
    }
}

/// The texts of runs, one after another.
pub open spec fn run_chars(runs: Seq<RunModel>) -> Seq<char>
    decreases runs.len(),
{
    if runs.len() == 0 {
        Seq::empty()
    } else {
        run_chars(runs.drop_last()) + runs.last().0
    }
}

/// Whether neighbouring runs are set apart from each other.
pub open spec fn runs_apart(runs: Seq<RunModel>) -> bool {
    forall|i: int|
        0 <= i < runs.len() - 1 ==> stable_text(Json::Obj((#[trigger] runs[i]).1)) != stable_text(
            Json::Obj(runs[i + 1].1),
        )
}

proof fn lemma_with_run(runs: Seq<RunModel>, text: Seq<char>, d: Fields)
    requires
        runs_apart(runs),
    ensures
        run_chars(with_run(runs, text, d)) == run_chars(runs) + text,
        runs_apart(with_run(runs, text, d)),
{
    let w = with_run(runs, text, d);
    if runs.len() > 0 && stable_text(Json::Obj(runs.last().1)) == stable_text(Json::Obj(d)) {
        assert(w.drop_last() =~= runs.drop_last());
        assert(run_chars(w) =~= run_chars(runs) + text);
        assert forall|i: int| 0 <= i < w.len() - 1 implies stable_text(Json::Obj((#[trigger] w[i]).1)) != stable_text(
            Json::Obj(w[i + 1].1),
        ) by {
            assert(w[i].1 == runs[i].1);
            assert(w[i + 1].1 == runs[i + 1].1);
        }
    } else {
        assert(w.drop_last() =~= runs);
        assert forall|i: int| 0 <= i < w.len() - 1 implies stable_text(Json::Obj((#[trigger] w[i]).1)) != stable_text(
            Json::Obj(w[i + 1].1),
        ) by {
            assert(w[i] == runs[i]);
            if i + 1 < runs.len() {
                assert(w[i + 1] == runs[i + 1]);
            } else {
                assert(w[i + 1].1 == d);
            }
        }
    }
}

proof fn lemma_runs_from(line: LineModel, table: Fields, base: Fields, start: int, runs: Seq<RunModel>)
    requires
        0 <= start <= line.0.len(),
        runs_apart(runs),
    ensures
        run_chars(runs_from(line, table, base, start, runs)) == run_chars(runs) + line.0.subrange(
            start,
            line.0.len() as int,
        ),
        runs_apart(runs_from(line, table, base, start, runs)),
    decreases line.0.len() - start,
{
    if start < line.0.len() {
        let id = override_at(line.1, start);
        let end = stretch_end(line, id, start + 1);
        lemma_stretch_end(line, id, start + 1);
        let text = line.0.subrange(start, end);
        let more = with_run(runs, text, delta(id, table, base));
        lemma_with_run(runs, text, delta(id, table, base));
        lemma_runs_from(line, table, base, end, more);
        assert(run_chars(runs) + text + line.0.subrange(end, line.0.len() as int) =~= run_chars(runs)
            + line.0.subrange(start, line.0.len() as int));
    } else {
        assert(run_chars(runs) + line.0.subrange(start, line.0.len() as int) =~= run_chars(runs));
    }
}

/// The runs of a line make up its text, and neighbouring runs are set apart
/// from each other.
pub proof fn runs_make_up_the_line(line: LineModel, table: Fields, base: Fields)
    ensures
        run_chars(line_runs(line, table, base)) == line.0,
        runs_apart(line_runs(line, table, base)),
{
    lemma_runs_from(line, table, base, 0, Seq::empty());
    assert(run_chars(Seq::empty()) + line.0.subrange(0, line.0.len() as int) =~= line.0);
}

// ---------------------------------------------------------------------------
// Bold weight
// ---------------------------------------------------------------------------

/// The font weight of a style, or the regular one.
pub open spec fn base_weight(base: Fields) -> nat {
    match get(base, "fontWeight"@) {
        Some(v) => match weight_value(v) {
            Some(w) => w,
            None => 400,
        },
        None => 400,
    }
}

fn base_weight_of(base: &Object) -> (r: u64)
    ensures
        r == base_weight(base@),
{
    match base.get("fontWeight") {
        Some(v) => match weight_as_u64(v) {
            Some(w) => w,
            None => 400,
        },
        None => 400,
    }
}

/// The weight of a run that is bolder than its text.
pub open spec fn bolder(run: RunModel, base: nat) -> Option<nat> {
    match get(run.1, "fontWeight"@) {
        Some(v) => match weight_value(v) {
            Some(w) => if w > base {
                Some(w)
            } else {
                None
            },
            None => None,
        },
        None => None,
    }
}

fn bolder_of(run: &Run, base: u64) -> (r: Option<u64>)
    ensures
        opt_nat(r) == bolder(run@, base as nat),
{
    match run.delta.get("fontWeight") {
        Some(v) => match weight_as_u64(v) {
            Some(w) => if w > base {
                Some(w)
            } else {
                None
            },
            None => None,
        },
        None => None,
    }
}

/// The number of characters of a weight in the first `n` runs.
pub open spec fn weight_count(runs: Seq<RunModel>, base: nat, w: nat, n: nat) -> nat
    decreases n,
{
    if n == 0 {
        0
    } else if bolder(runs[n - 1], base) == Some(w) {
        weight_count(runs, base, w, (n - 1) as nat) + runs[n - 1].0.len()
    } else {
        weight_count(runs, base, w, (n - 1) as nat)
    }
}

/// Whether weight `w` is chosen over weight `v`: more characters have it, or as
/// many and it is heavier.
pub open spec fn outweighs(runs: Seq<RunModel>, base: nat, w: nat, v: nat) -> bool {
    let (a, b) = (weight_count(runs, base, w, runs.len()), weight_count(runs, base, v, runs.len()));
    a > b || (a == b && w > v)
}

/// The weight that is chosen among those of the first `n` runs.
pub open spec fn bold_upto(runs: Seq<RunModel>, base: nat, n: nat) -> Option<nat>
    decreases n,
{
    if n == 0 {
        None
    } else {
        let before = bold_upto(runs, base, (n - 1) as nat);
        match (bolder(runs[n - 1], base), before) {
            (None, _) => before,
            (Some(w), None) => Some(w),
            (Some(w), Some(v)) => if outweighs(runs, base, w, v) {
                Some(w)
            } else {
                Some(v)
            },
        }
    }
}

/// The weight that the bold runs of a text have: the one with the most
/// characters, and the heaviest of these.
pub open spec fn bold_weight(runs: Seq<RunModel>, base: Fields) -> Option<nat> {
    bold_upto(runs, base_weight(base), runs.len())
}

fn count_weight(runs: &Vec<Run>, base: u64, w: u64) -> (r: u128)
    ensures
        r == weight_count(run_views(runs@), base as nat, w as nat, runs@.len()),
{
    let ghost m = run_views(runs@);
    let mut total: u128 = 0;
    let mut i: usize = 0;
    while i < runs.len()
        invariant
            i <= runs.len(),
            m == run_views(runs@),
            total == weight_count(m, base as nat, w as nat, i as nat),
            total <= i * 0xffff_ffff_ffff_ffff,
        decreases runs.len() - i,
    {
        let run = &runs[i];
        assert(m[i as int] == run@);
        let hit = match bolder_of(run, base) {
            Some(x) => x == w,
            None => false,
        };
        if hit {
            let len = chars_of(run.text.as_str()).len();
            assert(total + len <= (i + 1) * 0xffff_ffff_ffff_ffff) by (nonlinear_arith)
                requires
                    total <= i * 0xffff_ffff_ffff_ffff,
                    len <= 0xffff_ffff_ffff_ffff,
            ;
            assert((i + 1) * 0xffff_ffff_ffff_ffff <= 0xffff_ffff_ffff_ffff_ffff_ffff_ffff_ffff) by (nonlinear_arith)
                requires
                    i + 1 <= 0xffff_ffff_ffff_ffff,
            ;
            total += len as u128;
        } else {
            assert(i * 0xffff_ffff_ffff_ffff <= (i + 1) * 0xffff_ffff_ffff_ffff) by (nonlinear_arith);
        }
        i += 1;
    }
    total
}

/// The weight that the bold runs of a text have.
pub fn detect_bold_weight(runs: &Vec<Run>, base: &Object) -> (r: Option<u64>)
    ensures
        opt_nat(r) == bold_weight(run_views(runs@), base@),
{
    let ghost m = run_views(runs@);
    let weight = base_weight_of(base);
    let mut best: Option<u64> = None;
    let mut i: usize = 0;
    while i < runs.len()
        invariant
            i <= runs.len(),
            m == run_views(runs@),
            weight == base_weight(base@),
            opt_nat(best) == bold_upto(m, weight as nat, i as nat),
        decreases runs.len() - i,
    {
        assert(m[i as int] == runs@[i as int]@);
        match bolder_of(&runs[i], weight) {
            Some(w) => {
                best = match best {
                    None => Some(w),
                    Some(v) => {
                        let a = count_weight(runs, weight, w);
                        let b = count_weight(runs, weight, v);
                        if a > b || (a == b && w > v) {
                            Some(w)
                        } else {
                            Some(v)
                        }
                    },
                };
            },
            None => {},
        }
        i += 1;
    }
    best
}

/// The bold weight of a text is heavier than the text, a run has it, and no
/// other weight is chosen over it; there is none only where no run is bolder.
pub proof fn bold_weight_is_the_most_common(runs: Seq<RunModel>, base: nat, n: nat)
    requires
        n <= runs.len(),
    ensures
        match bold_upto(runs, base, n) {
            Some(w) => {
                &&& w > base
                &&& exists|i: int| 0 <= i < n && bolder(#[trigger] runs[i], base) == Some(w)
                &&& forall|i: int|
                    0 <= i < n ==> (bolder(#[trigger] runs[i], base) matches Some(v) ==> !outweighs(runs, base, v, w))
            },
            None => forall|i: int| 0 <= i < n ==> bolder(#[trigger] runs[i], base) is None,
        },
    decreases n,
{
    if n > 0 {
        bold_weight_is_the_most_common(runs, base, (n - 1) as nat);
        let last = runs[n - 1];
        if let Some(w) = bolder(last, base) {
            assert(bolder(runs[n - 1], base) == Some(w));
        }
    }
}

// ---------------------------------------------------------------------------
// Classification
// ---------------------------------------------------------------------------

/// What a run shows: markers, and the rest of what sets it apart.
pub struct Class {
    pub marks: Marks,
    pub rest: Fields,
}

/// What a run shows before its fields are looked at.
pub open spec fn plain_class() -> Class {
    Class { marks: Marks { bold: false, italic: false, strike: false, url: None }, rest: Fields::empty() }
}

/// The style that a run is held against.
pub struct Basis {
    pub base: Fields,
    pub bold: Option<nat>,
    pub turns: Turns,
}

/// The font size of a run.
pub open spec fn run_size(d: Fields, base: Fields) -> Dbl {
    match as_num(get(d, "fontSize"@)) {
        Some(x) => x,
        None => match as_num(get(base, "fontSize"@)) {
            Some(x) => x,
            None => zero(),
        },
    }
}

/// The line height fields of a run over those of its text.
pub open spec fn merged_height(d: Fields, base: Fields) -> Fields {
    put_some(
        put_some(
            put_some(base, "lineHeightPx"@, get(d, "lineHeightPx"@)),
            "lineHeightUnit"@,
            get(d, "lineHeightUnit"@),
        ),
        "lineHeightPercentFontSize"@,
        get(d, "lineHeightPercentFontSize"@),
    )
}

/// A class with a font weight: a bolder one is a marker.
pub open spec fn class_weight(c: Class, v: Json, b: Basis) -> Class {
    let base = base_weight(b.base);
    let w = match weight_value(v) {
        Some(x) => x,
        None => base,
    };
    let shown = put(c.rest, "fontWeight"@, Json::Num(Num::Int(w as int)));
    if w > base {
        Class {
            marks: Marks { bold: true, ..c.marks },
            rest: if b.bold is Some && b.bold != Some(w) {
                shown
            } else {
                c.rest
            },
        }
    } else {
        Class { rest: shown, ..c }
    }
}

/// A class with a slant: a slanted run in an upright text is a marker.
pub open spec fn class_italic(c: Class, v: Json, b: Basis) -> Class {
    let slanted = as_bool(Some(v)) == Some(true);
    let base = as_bool(get(b.base, "italic"@)) == Some(true);
    if slanted && !base {
        Class { marks: Marks { italic: true, ..c.marks }, ..c }
    } else if !slanted && base {
        Class { rest: put(c.rest, "italic"@, Json::Bool(false)), ..c }
    } else {
        c
    }
}

/// A class with a decoration: a strike is a marker.
pub open spec fn class_decoration(c: Class, v: Json, b: Basis) -> Class {
    let base = as_str(get(b.base, "textDecoration"@));
    if as_str(Some(v)) == Some("STRIKETHROUGH"@) {
        Class {
            marks: Marks { strike: true, ..c.marks },
            rest: if base == Some("UNDERLINE"@) {
                put(c.rest, "textDecoration"@, Json::Str("STRIKETHROUGH"@))
            } else {
                c.rest
            },
        }
    } else if as_str(Some(v)) == Some("UNDERLINE"@) {
        Class { rest: put(c.rest, "textDecoration"@, Json::Str("UNDERLINE"@)), ..c }
    } else if as_str(Some(v)) == Some("NONE"@) && base is Some && base != Some(""@) {
        Class { rest: put(c.rest, "textDecoration"@, Json::Str("NONE"@)), ..c }
    } else {
        c
    }
}

/// A class with a link: one with a URL is a marker.
pub open spec fn class_link(c: Class, v: Json) -> Class {
    match str_field(v, "url"@) {
        Some(u) => if str_field(v, "type"@) == Some("URL"@) && u != ""@ {
            Class { marks: Marks { url: Some(u), ..c.marks }, ..c }
        } else {
            Class { rest: put(c.rest, "hyperlink"@, v), ..c }
        },
        None => Class { rest: put(c.rest, "hyperlink"@, v), ..c },
    }
}

/// The fills of a run.
pub open spec fn run_fills(v: Json, turns: Turns) -> Option<Json> {
    match v {
        Json::Arr(a) => if visible_paints(a).len() == 0 {
            None
        } else {
            Some(Json::Arr(fills_of(visible_paints(a), false, turns)))
        },
        _ => None,
    }
}

/// Whether a field is shown as it stands.
pub open spec fn verbatim_field(k: Seq<char>) -> bool {
    k == "fontFamily"@ || k == "fontStyle"@ || k == "fontSize"@ || k == "textCase"@ || k == "textAlignHorizontal"@ || k
        == "textAlignVertical"@
}

/// Whether a field is about the line height.
pub open spec fn height_field(k: Seq<char>) -> bool {
    k == "lineHeightPx"@ || k == "lineHeightUnit"@ || k == "lineHeightPercent"@ || k == "lineHeightPercentFontSize"@
}

/// Whether a field is about paragraphs.
pub open spec fn paragraph_field(k: Seq<char>) -> bool {
    k == "paragraphSpacing"@ || k == "paragraphIndent"@ || k == "listSpacing"@
}

/// The flags of a font that are not zero, as an object.
pub open spec fn flags_json(f: Option<Fields>) -> Option<Json> {
    match f {
        Some(x) => Some(Json::Obj(x)),
        None => None,
    }
}

/// A class with one more field of what sets the run apart.
pub open spec fn class_with(c: Class, k: Seq<char>, v: Json, d: Fields, b: Basis) -> Class {
    if k == "fontWeight"@ {
        class_weight(c, v, b)
    } else if k == "italic"@ {
        class_italic(c, v, b)
    } else if k == "textDecoration"@ {
        class_decoration(c, v, b)
    } else if k == "hyperlink"@ {
        class_link(c, v)
    } else if k == "fills"@ {
        Class { rest: put_some(c.rest, "fills"@, run_fills(v, b.turns)), ..c }
    } else if verbatim_field(k) {
        Class { rest: put(c.rest, k, v), ..c }
    } else if k == "letterSpacing"@ {
        Class {
            rest: put_some(
                c.rest,
                "letterSpacing"@,
                text_json(spacing(as_num(Some(v)), Some(run_size(d, b.base)))),
            ),
            ..c
        }
    } else if height_field(k) {
        if has_key(c.rest, "lineHeight"@) {
            c
        } else {
            Class {
                rest: put_some(
                    c.rest,
                    "lineHeight"@,
                    text_json(line_height(merged_height(d, b.base), Some(run_size(d, b.base)))),
                ),
                ..c
            }
        }
    } else if k == "opentypeFlags"@ {
        Class { rest: put_some(c.rest, "opentypeFlags"@, flags_json(set_flags(as_obj(Some(v))))), ..c }
    } else if paragraph_field(k) {
        match as_num(Some(v)) {
            Some(x) => if less(zero(), x) {
                Class { rest: put(c.rest, k, v), ..c }
            } else {
                c
            },
            None => c,
        }
    } else {
        c
    }
}

/// The class of a run by the first `n` fields of what sets it apart.
pub open spec fn class_upto(d: Fields, b: Basis, n: nat) -> Class
    decreases n,
{
    if n == 0 {
        plain_class()
    } else {
        class_with(class_upto(d, b, (n - 1) as nat), d[n - 1].0, d[n - 1].1, d, b)
    }
}

/// The class of a run.
pub open spec fn class(d: Fields, b: Basis) -> Class {
    class_upto(d, b, d.len())
}

/// What a run shows: markers, and the rest of what sets it apart.
#[derive(Debug)]
pub struct Classification {
    pub bold: bool,
    pub italic: bool,
    pub strike: bool,
    pub url: Option<String>,
    pub rest: Object,
}

impl View for Classification {
    type V = Class;

    open spec fn view(&self) -> Class {
        Class {
            marks: Marks { bold: self.bold, italic: self.italic, strike: self.strike, url: opt_text(self.url) },
            rest: self.rest@,
        }
    }
}

/// The model of what a run is held against.
pub open spec fn basis(base: &Object, bold: Option<u64>, turns: Seq<Turn>) -> Basis {
    Basis { base: base@, bold: opt_nat(bold), turns: turns_view(turns) }
}

fn size_of_run(d: &Object, base: &Object) -> (r: Double)
    ensures
        r@ == run_size(d@, base@),
{
    match double_of(d.get("fontSize")) {
        Some(x) => x,
        None => match double_of(base.get("fontSize")) {
            Some(x) => x,
            None => {
                let z = from_int(0);
                proof {
                    lemma_of_zero();
                }
                z
            },
        },
    }
}

fn merge_height(d: &Object, base: &Object) -> (r: Object)
    ensures
        r@ == merged_height(d@, base@),
{
    let mut out = base.copy();
    out.put_some("lineHeightPx", copy_some(d.get("lineHeightPx")));
    out.put_some("lineHeightUnit", copy_some(d.get("lineHeightUnit")));
    out.put_some("lineHeightPercentFontSize", copy_some(d.get("lineHeightPercentFontSize")));
    out
}

fn add_weight(c: &mut Classification, v: &Value, base: &Object, bold: Option<u64>)
    ensures
        forall|turns: Seq<Turn>| final(c)@ == class_weight(old(c)@, v@, #[trigger] basis(base, bold, turns)),
{
    let regular = base_weight_of(base);
    let w = match weight_as_u64(v) {
        Some(x) => x,
        None => regular,
    };
    if w > regular {
        c.bold = true;
        let other = match bold {
            Some(x) => x != w,
            None => false,
        };
        if other {
            c.rest.put("fontWeight", Value::Number(Number::PosInt(w)));
        }
    } else {
        c.rest.put("fontWeight", Value::Number(Number::PosInt(w)));
    }
}

fn add_italic(c: &mut Classification, v: &Value, base: &Object)
    ensures
        forall|bold: Option<u64>, turns: Seq<Turn>|
            final(c)@ == class_italic(old(c)@, v@, #[trigger] basis(base, bold, turns)),
{
    let slanted = match v {
        Value::Bool(b) => *b,
        _ => false,
    };
    let usual = match bool_of(base.get("italic")) {
        Some(b) => b,
        None => false,
    };
    if slanted && !usual {
        c.italic = true;
    } else if !slanted && usual {
        c.rest.put("italic", Value::Bool(false));
    }
}

fn add_decoration(c: &mut Classification, v: &Value, base: &Object)
    ensures
        forall|bold: Option<u64>, turns: Seq<Turn>|
            final(c)@ == class_decoration(old(c)@, v@, #[trigger] basis(base, bold, turns)),
{
    let line = str_of(Some(v));
    let usual = str_of(base.get("textDecoration"));
    if text_is(line, "STRIKETHROUGH") {
        c.strike = true;
        if text_is(usual, "UNDERLINE") {
            c.rest.put_str("textDecoration", "STRIKETHROUGH");
        }
    } else if text_is(line, "UNDERLINE") {
        c.rest.put_str("textDecoration", "UNDERLINE");
    } else if text_is(line, "NONE") && usual.is_some() && !text_is(usual, "") {
        c.rest.put_str("textDecoration", "NONE");
    }
}

fn add_link(c: &mut Classification, v: &Value)
    ensures
        final(c)@ == class_link(old(c)@, v@),
{
    match str_of(v.get("url")) {
        Some(u) => if text_is(str_of(v.get("type")), "URL") && !same(u, "") {
            c.url = Some(u.to_owned());
        } else {
            c.rest.put("hyperlink", v.copy());
        },
        None => c.rest.put("hyperlink", v.copy()),
    }
}

fn find_fills(v: &Value, turns: &Vec<Turn>) -> (r: Option<Value>)
    ensures
        opt_value(r) == run_fills(v@, turns_view(turns@)),
{
    match v {
        Value::Array(a) => {
            let shown = keep_visible(a);
            if shown.len() == 0 {
                None
            } else {
                Some(Value::Array(convert_paints(&shown, false, turns)))
            }
        },
        _ => None,
    }
}

fn is_verbatim_field(k: &str) -> (r: bool)
    ensures
        r == verbatim_field(k@),
{
    same(k, "fontFamily") || same(k, "fontStyle") || same(k, "fontSize") || same(k, "textCase") || same(
        k,
        "textAlignHorizontal",
    ) || same(k, "textAlignVertical")
}

fn is_height_field(k: &str) -> (r: bool)
    ensures
        r == height_field(k@),
{
    same(k, "lineHeightPx") || same(k, "lineHeightUnit") || same(k, "lineHeightPercent") || same(
        k,
        "lineHeightPercentFontSize",
    )
}

fn is_paragraph_field(k: &str) -> (r: bool)
    ensures
        r == paragraph_field(k@),
{
    same(k, "paragraphSpacing") || same(k, "paragraphIndent") || same(k, "listSpacing")
}

fn add_field(
    c: &mut Classification,
    k: &str,
    v: &Value,
    d: &Object,
    base: &Object,
    bold: Option<u64>,
    turns: &Vec<Turn>,
)
    ensures
        final(c)@ == class_with(old(c)@, k@, v@, d@, basis(base, bold, turns@)),
{
    let ghost b = basis(base, bold, turns@);
    if same(k, "fontWeight") {
        add_weight(c, v, base, bold);
    } else if same(k, "italic") {
        add_italic(c, v, base);
    } else if same(k, "textDecoration") {
        add_decoration(c, v, base);
    } else if same(k, "hyperlink") {
        add_link(c, v);
    } else if same(k, "fills") {
        c.rest.put_some("fills", find_fills(v, turns));
    } else if is_verbatim_field(k) {
        c.rest.put(k, v.copy());
    } else if same(k, "letterSpacing") {
        c.rest.put_text("letterSpacing", format_spacing(double_of(Some(v)), Some(size_of_run(d, base))));
    } else if is_height_field(k) {
        if !c.rest.contains_key("lineHeight") {
            let merged = merge_height(d, base);
            c.rest.put_text("lineHeight", format_line_height(&merged, Some(size_of_run(d, base))));
        }
    } else if same(k, "opentypeFlags") {
        match pick_non_zero_flags(object_of(Some(v))) {
            Some(f) => c.rest.put("opentypeFlags", Value::Object(f)),
            None => {},
        }
    } else if is_paragraph_field(k) {
        let z = from_int(0);
        proof {
            lemma_of_zero();
        }
        match double_of(Some(v)) {
            Some(x) => if z.is_less(x) {
                c.rest.put(k, v.copy());
            },
            None => {},
        }
    }
}

/// Tells what a run shows: which markers it has, and the rest of what sets it
/// apart from its text.
pub fn classify_run(d: &Object, base: &Object, bold: Option<u64>, turns: &Vec<Turn>) -> (r: Classification)
    ensures
        r@ == class(d@, basis(base, bold, turns@)),
{
    let mut c = Classification { bold: false, italic: false, strike: false, url: None, rest: Object::new() };
    let mut i: usize = 0;
    while i < d.entries.len()
        invariant
            i <= d.entries.len(),
            c@ == class_upto(d@, basis(base, bold, turns@), i as nat),
        decreases d.entries.len() - i,
    {
        let e = &d.entries[i];
        add_field(&mut c, e.0.as_str(), &e.1, d, base, bold, turns);
        i += 1;
    }
    c
}

// ---------------------------------------------------------------------------
// Styles of characters
// ---------------------------------------------------------------------------

/// The style of the character at `p` among the characters of runs.
pub open spec fn style_at(runs: Seq<RunModel>, p: int) -> Fields
    decreases runs.len(),
{
    if runs.len() == 0 {
        Fields::empty()
    } else if p >= run_chars(runs.drop_last()).len() {
        runs.last().1
    } else {
        style_at(runs.drop_last(), p)
    }
}

/// Whether two styles are the same, whatever the order of their fields.
pub open spec fn alike(a: Fields, b: Fields) -> bool {
    stable_text(Json::Obj(a)) == stable_text(Json::Obj(b))
}

proof fn lemma_with_run_styles(runs: Seq<RunModel>, text: Seq<char>, d: Fields, p: int)
    requires
        runs_apart(runs),
        0 <= p < run_chars(runs).len() + text.len(),
    ensures
        runs_apart(with_run(runs, text, d)),
        run_chars(with_run(runs, text, d)) == run_chars(runs) + text,
        p < run_chars(runs).len() ==> style_at(with_run(runs, text, d), p) == style_at(runs, p),
        p >= run_chars(runs).len() ==> alike(style_at(with_run(runs, text, d), p), d),
{
    lemma_with_run(runs, text, d);
    let more = with_run(runs, text, d);
    if runs.len() > 0 && stable_text(Json::Obj(runs.last().1)) == stable_text(Json::Obj(d)) {
        assert(more.drop_last() =~= runs.drop_last());
    } else {
        assert(more.drop_last() =~= runs);
    }
}

proof fn lemma_stretch(line: LineModel, id: nat, i: int, p: int)
    requires
        0 <= i <= p < stretch_end(line, id, i),
        i <= line.0.len(),
    ensures
        p < line.0.len(),
        override_at(line.1, p) == id,
    decreases line.0.len() - i,
{
    lemma_stretch_end(line, id, i);
    if i < p {
        lemma_stretch(line, id, i + 1, p);
    }
}

proof fn lemma_run_styles(line: LineModel, table: Fields, base: Fields, start: int, runs: Seq<RunModel>, p: int)
    requires
        0 <= start <= line.0.len(),
        runs_apart(runs),
        run_chars(runs).len() == start,
        0 <= p < line.0.len(),
        p < start ==> alike(style_at(runs, p), delta(override_at(line.1, p), table, base)),
    ensures
        alike(
            style_at(runs_from(line, table, base, start, runs), p),
            delta(override_at(line.1, p), table, base),
        ),
    decreases line.0.len() - start,
{
    if start < line.0.len() {
        let id = override_at(line.1, start);
        let end = stretch_end(line, id, start + 1);
        lemma_stretch_end(line, id, start + 1);
        let text = line.0.subrange(start, end);
        let d = delta(id, table, base);
        let more = with_run(runs, text, d);
        if p < end {
            lemma_with_run_styles(runs, text, d, p);
            if p > start {
                lemma_stretch(line, id, start + 1, p);
            }
        } else {
            lemma_with_run_styles(runs, text, d, start);
        }
        assert(run_chars(more).len() == end);
        lemma_run_styles(line, table, base, end, more, p);
    }
}

/// The style override of a character, where the overrides reach it.
pub open spec fn own_override(overrides: Seq<nat>, p: int) -> nat {
    if p < overrides.len() {
        overrides[p]
    } else {
        0
    }
}

/// Each character of a line stands in a run with what its own style override changes.
pub proof fn characters_keep_their_style(line: LineModel, table: Fields, base: Fields, p: int)
    requires
        0 <= p < line.0.len(),
    ensures
        alike(style_at(line_runs(line, table, base), p), delta(own_override(line.1, p), table, base)),
{
    assert(run_chars(Seq::empty()).len() == 0);
    lemma_run_styles(line, table, base, 0, Seq::empty(), p);
}

proof fn lemma_line_overrides(chars: Seq<char>, overrides: Seq<nat>, start: int, i: int, p: int)
    requires
        0 <= start <= chars.len(),
        0 <= i < lines_from(chars, overrides, start).len(),
        0 <= p < lines_from(chars, overrides, start)[i].0.len(),
    ensures
        ({
            let lines = lines_from(chars, overrides, start);
            let at = line_start(lines, i) + start + p;
            &&& 0 <= at < chars.len()
            &&& lines[i].0[p] == chars[at]
            &&& own_override(lines[i].1, p) == own_override(overrides, at)
        }),
    decreases chars.len() + 1 - start,
{
    lemma_next_break(chars, start);
    let end = next_break(chars, start);
    let lines = lines_from(chars, overrides, start);
    let rest = lines_from(chars, overrides, end + 1);
    if i > 0 {
        assert(end + 1 <= chars.len());
        assert(lines[i] == rest[i - 1]);
        lemma_line_overrides(chars, overrides, end + 1, i - 1, p);
        lemma_line_start(lines, rest, i);
        assert(lines[0].0.len() == end - start);
    }
}

/// Where a line begins among the characters of a text: behind the lines before it and
/// a break after each of them.
pub open spec fn line_start(lines: Seq<LineModel>, i: int) -> int
    decreases i,
{
    if i <= 0 {
        0
    } else {
        line_start(lines, i - 1) + lines[i - 1].0.len() + 1
    }
}

proof fn lemma_line_start(lines: Seq<LineModel>, rest: Seq<LineModel>, i: int)
    requires
        0 < i <= lines.len(),
        lines == seq![lines[0]] + rest,
    ensures
        line_start(lines, i) == lines[0].0.len() + 1 + line_start(rest, i - 1),
    decreases i,
{
    if i > 1 {
        lemma_line_start(lines, rest, i - 1);
        assert(lines[i - 1] == rest[i - 2]);
    } else {
        assert(line_start(lines, 0) == 0);
    }
}

/// Each character of a text keeps its own style override in its line.
pub proof fn lines_keep_the_overrides(chars: Seq<char>, overrides: Seq<nat>, i: int, p: int)
    requires
        0 <= i < lines_from(chars, overrides, 0).len(),
        0 <= p < lines_from(chars, overrides, 0)[i].0.len(),
    ensures
        ({
            let lines = lines_from(chars, overrides, 0);
            let at = line_start(lines, i) + p;
            &&& 0 <= at < chars.len()
            &&& lines[i].0[p] == chars[at]
            &&& own_override(lines[i].1, p) == own_override(overrides, at)
        }),
{
    lemma_line_overrides(chars, overrides, 0, i, p);
}

proof fn lemma_delta(over: Fields, base: Fields, n: nat, k: Seq<char>)
    requires
        n <= over.len(),
    ensures
        forall|i: int|
            0 <= i < n && (#[trigger] over[i]).0 == k && differs(k, over[i].1, base) && (forall|j: int|
                i < j < n ==> (#[trigger] over[j]).0 != k) ==> get(delta_upto(over, base, n), k) == Some(over[i].1),
        get(delta_upto(over, base, n), k) matches Some(v) ==> exists|i: int|
            0 <= i < n && #[trigger] over[i] == (k, v) && differs(k, v, base),
    decreases n,
{
    if n > 0 {
        lemma_delta(over, base, (n - 1) as nat, k);
        let before = delta_upto(over, base, (n - 1) as nat);
        let last = over[n - 1];
        get_after_put(before, last.0, last.1, k);
        assert forall|i: int|
            0 <= i < n && (#[trigger] over[i]).0 == k && differs(k, over[i].1, base) && (forall|j: int|
                i < j < n ==> (#[trigger] over[j]).0 != k) implies get(delta_upto(over, base, n), k) == Some(over[i].1) by {
            if i < n - 1 {
                assert(over[n - 1].0 != k);
            }
        }
        if let Some(v) = get(delta_upto(over, base, n), k) {
            if last.0 == k && differs(last.0, last.1, base) {
                assert(over[n - 1] == (k, v));
            }
        }
    } else {
        lemma_key_from(Fields::empty(), k, 0);
    }
}

/// What a style override changes is each of its fields that says something else than
/// the style of the text, but for those that carry no style.
pub proof fn overrides_change_what_differs(id: nat, table: Fields, base: Fields, over: Fields, i: int)
    requires
        id > 0,
        as_obj(get(table, decimal(id))) == Some(over),
        0 <= i < over.len(),
        forall|j: int| i < j < over.len() ==> (#[trigger] over[j]).0 != over[i].0,
        !(over[i].1 is Null),
        over[i].0 != "semanticWeight"@ && over[i].0 != "semanticItalic"@ && over[i].0 != "isOverrideOverTextStyle"@,
        over[i].0 != "fontPostScriptName"@ && over[i].0 != "boundVariables"@,
        match get(base, over[i].0) {
            Some(v) => json_text(v) != json_text(over[i].1),
            None => json_text(over[i].1) != json_text(Json::Null),
        },
    ensures
        get(delta(id, table, base), over[i].0) == Some(over[i].1),
{
    lemma_delta(over, base, over.len(), over[i].0);
}

} // verus!
