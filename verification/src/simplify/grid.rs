//! Grid containers: the order of the children that CSS places automatically,
//! and the fields that place a child by hand.

use vstd::prelude::*;
use vstd::relations::{sorted_by, total_ordering};
use vstd::seq_lib::{lemma_sorted_unique, to_multiset_insert};

use crate::float::{less, plus, Dbl, Double};
use crate::json::{
    arr_field, as_str, double_of, field, field_is, field_text_is, get, json_list, list_of, num_field, opt_str, put,
    put_some, str_field, str_of, text_is, text_json, Fields, Json, Num, Number, Object, Value,
};
use crate::simplify::numbers::{uint, uint_value};
use crate::strings::{cat2, cat3, decimal, decimal_of, opt_text, same};

verus! {

/// The box of a node: its position and its size.
pub struct Area {
    pub x: Dbl,
    pub y: Dbl,
    pub w: Dbl,
    pub h: Dbl,
}

/// The box of a node.
pub open spec fn bounds(n: Json) -> Option<Area> {
    match field(n, "absoluteBoundingBox"@) {
        Some(b) => match (num_field(b, "x"@), num_field(b, "y"@), num_field(b, "width"@), num_field(b, "height"@)) {
            (Some(x), Some(y), Some(w), Some(h)) => Some(Area { x, y, w, h }),
            _ => None,
        },
        None => None,
    }
}

/// The box of a node: its position and its size.
#[derive(Clone, Copy, Debug)]
pub struct Frame {
    pub x: Double,
    pub y: Double,
    pub w: Double,
    pub h: Double,
}

impl View for Frame {
    type V = Area;

    open spec fn view(&self) -> Area {
        Area { x: self.x@, y: self.y@, w: self.w@, h: self.h@ }
    }
}

/// The model of an optional box.
pub open spec fn opt_area(f: Option<Frame>) -> Option<Area> {
    match f {
        Some(x) => Some(x@),
        None => None,
    }
}

pub fn bbox(n: &Value) -> (r: Option<Frame>)
    ensures
        opt_area(r) == bounds(n@),
{
    match n.get("absoluteBoundingBox") {
        Some(b) => match (
            double_of(b.get("x")),
            double_of(b.get("y")),
            double_of(b.get("width")),
            double_of(b.get("height")),
        ) {
            (Some(x), Some(y), Some(w), Some(h)) => Some(Frame { x, y, w, h }),
            _ => None,
        },
        None => None,
    }
}

/// Whether a node stands apart from the flow of its siblings.
pub open spec fn absolute(n: Json) -> bool {
    field_is(n, "layoutPositioning"@, "ABSOLUTE"@)
}

pub fn is_absolute(n: &Value) -> (r: bool)
    ensures
        r == absolute(n@),
{
    field_text_is(n, "layoutPositioning", "ABSOLUTE")
}

/// The count in a field, or another one.
pub open spec fn count_or(n: Json, k: Seq<char>, other: nat) -> nat {
    match field(n, k) {
        Some(v) => match uint_value(v) {
            Some(c) => c,
            None => other,
        },
        None => other,
    }
}

fn count_in(n: &Value, k: &str, other: u64) -> (r: u64)
    ensures
        r == count_or(n@, k@, other as nat),
{
    match n.get(k) {
        Some(v) => match uint(v) {
            Some(c) => c,
            None => other,
        },
        None => other,
    }
}

// ---------------------------------------------------------------------------
// Order
// ---------------------------------------------------------------------------

/// The row and the column at which a grid child is anchored.
pub open spec fn anchor(c: Json) -> (nat, nat) {
    (count_or(c, "gridRowAnchorIndex"@, 0), count_or(c, "gridColumnAnchorIndex"@, 0))
}

fn anchor_of(c: &Value) -> (r: (u64, u64))
    ensures
        (r.0 as nat, r.1 as nat) == anchor(c@),
{
    (count_in(c, "gridRowAnchorIndex", 0), count_in(c, "gridColumnAnchorIndex", 0))
}

/// Whether a child is anchored before another one: by row, then by column.
pub open spec fn anchored_before(a: Json, b: Json) -> bool {
    anchor(a).0 < anchor(b).0 || (anchor(a).0 == anchor(b).0 && anchor(a).1 < anchor(b).1)
}

fn is_anchored_before(a: &Value, b: &Value) -> (r: bool)
    ensures
        r == anchored_before(a@, b@),
{
    let p = anchor_of(a);
    let q = anchor_of(b);
    p.0 < q.0 || (p.0 == q.0 && p.1 < q.1)
}

/// Whether child `a` is shown no later than child `b`: by anchor, and children
/// with one anchor in the order in which they are.
pub open spec fn shown_no_later(kids: Seq<Json>) -> spec_fn(int, int) -> bool {
    |a: int, b: int| anchored_before(kids[a], kids[b]) || (anchor(kids[a]) == anchor(kids[b]) && a <= b)
}

/// Whether a child is in the flow.
pub open spec fn flows(kids: Seq<Json>) -> spec_fn(int) -> bool {
    |i: int| !absolute(kids[i])
}

/// The first `n` whole numbers.
pub open spec fn first_numbers(n: nat) -> Seq<int> {
    Seq::new(n, |i: int| i)
}

/// The children in the flow among the first `n`, in the order in which they are.
pub open spec fn in_flow(kids: Seq<Json>, n: nat) -> Seq<int> {
    first_numbers(n).filter(flows(kids))
}

/// The children in the flow in the order in which they are shown.
pub open spec fn flow(kids: Seq<Json>) -> Seq<int> {
    in_flow(kids, kids.len()).sort_by(shown_no_later(kids))
}

/// The place for child `i` among the first `n` of the sorted children `s`.
spec fn child_place(kids: Seq<Json>, s: Seq<int>, n: int, i: int) -> int
    decreases n,
{
    if n > 0 && anchored_before(kids[i], kids[s[n - 1]]) {
        child_place(kids, s, n - 1, i)
    } else {
        n
    }
}

/// The children in the flow among the first `n`, each put in its place.
spec fn flow_upto(kids: Seq<Json>, n: nat) -> Seq<int>
    decreases n,
{
    if n == 0 {
        Seq::empty()
    } else {
        let before = flow_upto(kids, (n - 1) as nat);
        if absolute(kids[n - 1]) {
            before
        } else {
            before.insert(child_place(kids, before, before.len() as int, n - 1), n - 1)
        }
    }
}

/// The number of children in the flow among the first `n`.
pub open spec fn flow_count(kids: Seq<Json>, n: nat) -> nat
    decreases n,
{
    if n == 0 {
        0
    } else if absolute(kids[n - 1]) {
        flow_count(kids, (n - 1) as nat)
    } else {
        flow_count(kids, (n - 1) as nat) + 1
    }
}

/// The order of the children: those in the flow by anchor, the others where
/// they are.
pub open spec fn arranged(kids: Seq<Json>) -> Seq<int> {
    Seq::new(
        kids.len(),
        |i: int|
            if absolute(kids[i]) {
                i
            } else {
                flow(kids)[flow_count(kids, i as nat) as int]
            },
    )
}

/// Whether nothing moves.
pub open spec fn in_place(s: Seq<int>) -> bool {
    forall|i: int| 0 <= i < s.len() ==> #[trigger] s[i] == i
}

/// The order in which a grid container shows its children, where it differs
/// from the order in which it has them.
pub open spec fn grid_order(parent: Json) -> Option<Seq<int>> {
    if field_is(parent, "layoutMode"@, "GRID"@) {
        match arr_field(parent, "children"@) {
            Some(kids) => if kids.len() < 2 || in_place(arranged(kids)) {
                None
            } else {
                Some(arranged(kids))
            },
            None => None,
        }
    } else {
        None
    }
}

/// The model of a list of positions.
pub open spec fn places(s: Seq<usize>) -> Seq<int> {
    s.map_values(|i: usize| i as int)
}

proof fn lemma_child_place(kids: Seq<Json>, s: Seq<int>, n: int, i: int)
    requires
        0 <= n <= s.len(),
    ensures
        0 <= child_place(kids, s, n, i) <= n,
    decreases n,
{
    if n > 0 && anchored_before(kids[i], kids[s[n - 1]]) {
        lemma_child_place(kids, s, n - 1, i);
    }
}

proof fn lemma_flow(kids: Seq<Json>, n: nat)
    requires
        n <= kids.len(),
    ensures
        flow_upto(kids, n).len() == flow_count(kids, n),
        flow_count(kids, n) <= n,
        forall|k: int|
            0 <= k < flow_upto(kids, n).len() ==> 0 <= #[trigger] flow_upto(kids, n)[k] < n && !absolute(
                kids[flow_upto(kids, n)[k]],
            ),
        forall|a: int, b: int|
            0 <= a < b < flow_upto(kids, n).len() ==> #[trigger] flow_upto(kids, n)[a] != #[trigger] flow_upto(
                kids,
                n,
            )[b],
        forall|i: int| 0 <= i < n && !absolute(kids[i]) ==> #[trigger] flow_upto(kids, n).contains(i),
    decreases n,
{
    if n > 0 {
        let before = flow_upto(kids, (n - 1) as nat);
        lemma_flow(kids, (n - 1) as nat);
        if !absolute(kids[n - 1]) {
            let p = child_place(kids, before, before.len() as int, n - 1);
            lemma_child_place(kids, before, before.len() as int, n - 1);
            let now = before.insert(p, n - 1);
            assert(now[p] == n - 1);
            assert forall|i: int| 0 <= i < n && !absolute(kids[i]) implies #[trigger] now.contains(i) by {
                if i < n - 1 {
                    assert(before.contains(i));
                    let k = choose|k: int| 0 <= k < before.len() && before[k] == i;
                    if k < p {
                        assert(now[k] == i);
                    } else {
                        assert(now[k + 1] == i);
                    }
                } else {
                    assert(now[p] == i);
                }
            }
        } else {
            assert forall|i: int| 0 <= i < n && !absolute(kids[i]) implies #[trigger] before.contains(i) by {
                assert(i < n - 1);
            }
        }
    }
}

proof fn lemma_order_is_total(kids: Seq<Json>)
    ensures
        total_ordering(shown_no_later(kids)),
{
}

proof fn lemma_place_parts(kids: Seq<Json>, s: Seq<int>, n: int, i: int)
    requires
        0 <= n <= s.len(),
    ensures
        forall|k: int| child_place(kids, s, n, i) <= k < n ==> anchored_before(kids[i], kids[#[trigger] s[k]]),
        child_place(kids, s, n, i) > 0 ==> !anchored_before(kids[i], kids[s[child_place(kids, s, n, i) - 1]]),
    decreases n,
{
    if n > 0 && anchored_before(kids[i], kids[s[n - 1]]) {
        lemma_place_parts(kids, s, n - 1, i);
    }
}

proof fn lemma_flow_is_sorted(kids: Seq<Json>, n: nat)
    requires
        n <= kids.len(),
    ensures
        sorted_by(flow_upto(kids, n), shown_no_later(kids)),
        flow_upto(kids, n).to_multiset() == in_flow(kids, n).to_multiset(),
    decreases n,
{
    if n == 0 {
        reveal(Seq::filter);
        assert(first_numbers(0).len() == 0);
        assert(flow_upto(kids, 0) =~= in_flow(kids, 0));
    } else {
        let m = (n - 1) as nat;
        let before = flow_upto(kids, m);
        let leq = shown_no_later(kids);
        lemma_flow_is_sorted(kids, m);
        lemma_flow(kids, m);
        assert(first_numbers(n) =~= first_numbers(m).push(m as int));
        first_numbers(m).lemma_filter_push(m as int, flows(kids));
        if absolute(kids[n - 1]) {
            assert(in_flow(kids, n) == in_flow(kids, m));
        } else {
            let p = child_place(kids, before, before.len() as int, n - 1);
            lemma_child_place(kids, before, before.len() as int, n - 1);
            lemma_place_parts(kids, before, before.len() as int, n - 1);
            lemma_order_is_total(kids);
            let now = before.insert(p, n - 1);
            assert forall|a: int, b: int| 0 <= a < b < now.len() implies #[trigger] leq(now[a], now[b]) by {
                if b == p {
                    assert(now[a] == before[a]);
                    assert(leq(before[p - 1], n - 1));
                    if a < p - 1 {
                        assert(leq(before[a], before[p - 1]));
                    }
                } else if a == p {
                    assert(now[b] == before[b - 1]);
                } else {
                    let x = if a < p {
                        a
                    } else {
                        a - 1
                    };
                    let y = if b < p {
                        b
                    } else {
                        b - 1
                    };
                    assert(now[a] == before[x] && now[b] == before[y]);
                    assert(leq(before[x], before[y]));
                }
            }
            to_multiset_insert(before, p, n - 1);
            assert(in_flow(kids, n) == in_flow(kids, m).push(n - 1));
            let kept = in_flow(kids, m);
            assert(kept.push(n - 1) =~= kept.insert(kept.len() as int, n - 1));
            to_multiset_insert(kept, kept.len() as int, n - 1);
        }
    }
}

proof fn lemma_flow_is(kids: Seq<Json>)
    ensures
        flow_upto(kids, kids.len()) == flow(kids),
        sorted_by(flow(kids), shown_no_later(kids)),
{
    let leq = shown_no_later(kids);
    lemma_order_is_total(kids);
    lemma_flow_is_sorted(kids, kids.len());
    in_flow(kids, kids.len()).lemma_sort_by_ensures(leq);
    lemma_sorted_unique(flow_upto(kids, kids.len()), flow(kids), leq);
}

proof fn lemma_count(kids: Seq<Json>, i: nat, n: nat)
    requires
        i < n <= kids.len(),
        !absolute(kids[i as int]),
    ensures
        flow_count(kids, i) < flow_count(kids, n),
    decreases n,
{
    if i < n - 1 {
        lemma_count(kids, i, (n - 1) as nat);
    }
}

/// The place of the child in the flow that `k` others precede.
proof fn lemma_rank(kids: Seq<Json>, k: nat, n: nat) -> (i: int)
    requires
        k < flow_count(kids, n),
        n <= kids.len(),
    ensures
        0 <= i < n,
        !absolute(kids[i]),
        flow_count(kids, i as nat) == k,
    decreases n,
{
    if flow_count(kids, (n - 1) as nat) > k {
        lemma_rank(kids, k, (n - 1) as nat)
    } else {
        n - 1
    }
}

/// The order of grid children is a permutation: each child is shown once, a
/// child that stands apart from the flow stays where it is, and those in the
/// flow are in the order of their rows, columns and places.
pub proof fn grid_order_permutes(parent: Json)
    ensures
        grid_order(parent) matches Some(s) ==> arr_field(parent, "children"@) matches Some(kids) && {
            &&& s.len() == kids.len()
            &&& forall|i: int| 0 <= i < s.len() ==> 0 <= #[trigger] s[i] < kids.len()
            &&& forall|i: int, j: int| 0 <= i < j < s.len() ==> #[trigger] s[i] != #[trigger] s[j]
            &&& forall|c: int| 0 <= c < kids.len() ==> #[trigger] s.contains(c)
            &&& forall|i: int| 0 <= i < s.len() && absolute(#[trigger] kids[i]) ==> s[i] == i
            &&& forall|i: int, j: int|
                0 <= i < j < s.len() && !absolute(kids[i]) && !absolute(kids[j]) ==> #[trigger] shown_no_later(kids)(
                    s[i],
                    s[j],
                )
        },
{
    if let Some(s) = grid_order(parent) {
        let kids = arr_field(parent, "children"@)->0;
        lemma_arranged(kids);
    }
}

proof fn lemma_arranged(kids: Seq<Json>)
    ensures
        arranged(kids).len() == kids.len(),
        forall|i: int| 0 <= i < kids.len() ==> 0 <= #[trigger] arranged(kids)[i] < kids.len(),
        forall|i: int, j: int|
            0 <= i < j < kids.len() ==> #[trigger] arranged(kids)[i] != #[trigger] arranged(kids)[j],
        forall|c: int| 0 <= c < kids.len() ==> #[trigger] arranged(kids).contains(c),
        forall|i: int| 0 <= i < kids.len() && absolute(#[trigger] kids[i]) ==> arranged(kids)[i] == i,
        forall|i: int, j: int|
            0 <= i < j < kids.len() && !absolute(kids[i]) && !absolute(kids[j]) ==> #[trigger] shown_no_later(kids)(
                arranged(kids)[i],
                arranged(kids)[j],
            ),
{
    let s = arranged(kids);
    let f = flow(kids);
    lemma_flow(kids, kids.len());
    lemma_flow_is(kids);
    assert forall|i: int, j: int| 0 <= i < j < kids.len() && !absolute(kids[i]) && !absolute(kids[j]) implies
        #[trigger] shown_no_later(kids)(s[i], s[j]) by {
        lemma_count(kids, i as nat, j as nat);
        lemma_count(kids, j as nat, kids.len());
        assert(shown_no_later(kids)(f[flow_count(kids, i as nat) as int], f[flow_count(kids, j as nat) as int]));
    }
    assert forall|i: int| 0 <= i < kids.len() implies 0 <= #[trigger] s[i] < kids.len() by {
        if !absolute(kids[i]) {
            lemma_count(kids, i as nat, kids.len());
            assert(0 <= f[flow_count(kids, i as nat) as int] < kids.len());
        }
    }
    assert forall|i: int, j: int| 0 <= i < j < kids.len() implies #[trigger] s[i] != #[trigger] s[j] by {
        if !absolute(kids[i]) {
            lemma_count(kids, i as nat, kids.len());
            assert(!absolute(kids[f[flow_count(kids, i as nat) as int]]));
        }
        if !absolute(kids[j]) {
            lemma_count(kids, j as nat, kids.len());
            assert(!absolute(kids[f[flow_count(kids, j as nat) as int]]));
        }
        if !absolute(kids[i]) && !absolute(kids[j]) {
            lemma_count(kids, i as nat, j as nat);
            assert(f[flow_count(kids, i as nat) as int] != f[flow_count(kids, j as nat) as int]);
        }
    }
    assert forall|c: int| 0 <= c < kids.len() implies #[trigger] s.contains(c) by {
        if absolute(kids[c]) {
            assert(s[c] == c);
        } else {
            assert(f.contains(c));
            let k = choose|k: int| 0 <= k < f.len() && f[k] == c;
            let i = lemma_rank(kids, k as nat, kids.len());
            assert(s[i] == c);
        }
    }
}

fn sort_flow(kids: &Vec<Value>) -> (r: Vec<usize>)
    ensures
        places(r@) == flow(json_list(kids@)),
        forall|k: int| 0 <= k < r.len() ==> #[trigger] r@[k] < kids.len(),
{
    let ghost m = json_list(kids@);
    let mut out: Vec<usize> = Vec::new();
    assert(places(out@) =~= flow_upto(m, 0));
    let mut i: usize = 0;
    while i < kids.len()
        invariant
            i <= kids.len(),
            m == json_list(kids@),
            places(out@) == flow_upto(m, i as nat),
            forall|k: int| 0 <= k < out.len() ==> #[trigger] out@[k] < kids.len(),
        decreases kids.len() - i,
    {
        if !is_absolute(&kids[i]) {
            let ghost before = places(out@);
            let mut k: usize = out.len();
            while k > 0 && is_anchored_before(&kids[i], &kids[out[k - 1]])
                invariant
                    i < kids.len(),
                    k <= out.len(),
                    m == json_list(kids@),
                    before == places(out@),
                    forall|k: int| 0 <= k < out.len() ==> #[trigger] out@[k] < kids.len(),
                    child_place(m, before, before.len() as int, i as int) == child_place(m, before, k as int, i as int),
                decreases k,
            {
                k -= 1;
            }
            assert(k == child_place(m, before, before.len() as int, i as int));
            let ghost old_out = out@;
            out.insert(k, i);
            assert(places(out@) =~= before.insert(k as int, i as int));
            assert forall|q: int| 0 <= q < out.len() implies #[trigger] out@[q] < kids.len() by {
                if q < k {
                    assert(out@[q] == old_out[q]);
                } else if q > k {
                    assert(out@[q] == old_out[q - 1]);
                }
            }
        }
        i += 1;
    }
    proof {
        lemma_flow_is(m);
    }
    out
}

fn arrange(kids: &Vec<Value>) -> (r: Vec<usize>)
    ensures
        places(r@) == arranged(json_list(kids@)),
{
    let ghost m = json_list(kids@);
    let sorted = sort_flow(kids);
    let mut out: Vec<usize> = Vec::new();
    let mut cursor: usize = 0;
    let mut i: usize = 0;
    proof {
        lemma_flow(m, m.len());
        lemma_flow_is(m);
    }
    while i < kids.len()
        invariant
            i <= kids.len(),
            m == json_list(kids@),
            places(sorted@) == flow(m),
            sorted.len() == flow_count(m, m.len()),
            cursor == flow_count(m, i as nat),
            cursor <= sorted.len(),
            out.len() == i,
            forall|k: int| 0 <= k < i ==> #[trigger] out@[k] as int == arranged(m)[k],
        decreases kids.len() - i,
    {
        if is_absolute(&kids[i]) {
            out.push(i);
        } else {
            proof {
                lemma_count(m, i as nat, m.len());
                assert(places(sorted@)[cursor as int] == sorted@[cursor as int] as int);
            }
            out.push(sorted[cursor]);
            cursor += 1;
        }
        i += 1;
    }
    assert(places(out@) =~= arranged(m));
    out
}

/// The model of an optional list of positions.
pub open spec fn opt_places(r: Option<Vec<usize>>) -> Option<Seq<int>> {
    match r {
        Some(v) => Some(places(v@)),
        None => None,
    }
}

/// The order in which a grid container shows its children; none when it is the
/// order in which it has them.
pub fn compute_grid_child_order(parent: &Value) -> (r: Option<Vec<usize>>)
    ensures
        opt_places(r) == grid_order(parent@),
{
    if !field_text_is(parent, "layoutMode", "GRID") {
        return None;
    }
    match list_of(parent.get("children")) {
        Some(kids) => {
            if kids.len() < 2 {
                return None;
            }
            let order = arrange(kids);
            let ghost s = places(order@);
            let mut moved = false;
            let mut i: usize = 0;
            while i < order.len()
                invariant
                    i <= order.len(),
                    s == places(order@),
                    moved <==> !(forall|k: int| 0 <= k < i ==> #[trigger] s[k] == k),
                decreases order.len() - i,
            {
                assert(s[i as int] == order@[i as int] as int);
                if order[i] != i {
                    moved = true;
                }
                i += 1;
            }
            if moved {
                Some(order)
            } else {
                None
            }
        },
        None => None,
    }
}

// ---------------------------------------------------------------------------
// Cells
// ---------------------------------------------------------------------------

/// Whether a child takes up cells of the grid.
pub open spec fn takes_cells(c: Json) -> bool {
    !absolute(c) && (bounds(c) is Some || field(c, "gridRowAnchorIndex"@) is Some || field(c, "gridColumnAnchorIndex"@) is Some)
}

fn does_take_cells(c: &Value) -> (r: bool)
    ensures
        r == takes_cells(c@),
{
    !is_absolute(c) && (bbox(c).is_some() || c.get("gridRowAnchorIndex").is_some() || c.get(
        "gridColumnAnchorIndex",
    ).is_some())
}

/// The span in a field: one at least.
pub open spec fn span(c: Json, k: Seq<char>) -> nat {
    let s = count_or(c, k, 1);
    if s < 1 {
        1
    } else {
        s
    }
}

fn span_of(c: &Value, k: &str) -> (r: u64)
    ensures
        r == span(c@, k@),
        r >= 1,
{
    let s = count_in(c, k, 1);
    if s < 1 {
        1
    } else {
        s
    }
}

/// Whether a child takes up the cell at a row and a column.
pub open spec fn takes(c: Json, row: int, col: int) -> bool {
    &&& takes_cells(c)
    &&& anchor(c).0 <= row < anchor(c).0 + span(c, "gridRowSpan"@)
    &&& anchor(c).1 <= col < anchor(c).1 + span(c, "gridColumnSpan"@)
}

/// Whether some child takes up a cell.
pub open spec fn taken(kids: Seq<Json>, row: int, col: int) -> bool {
    exists|i: int| 0 <= i < kids.len() && takes(#[trigger] kids[i], row, col)
}

/// The number of rows and columns that the first `n` children reach.
pub open spec fn extent(kids: Seq<Json>, n: nat) -> (nat, nat)
    decreases n,
{
    if n == 0 {
        (0, 0)
    } else {
        let e = extent(kids, (n - 1) as nat);
        let c = kids[n - 1];
        if takes_cells(c) {
            let rows = anchor(c).0 + span(c, "gridRowSpan"@);
            let cols = anchor(c).1 + span(c, "gridColumnSpan"@);
            (
                if rows > e.0 {
                    rows
                } else {
                    e.0
                },
                if cols > e.1 {
                    cols
                } else {
                    e.1
                },
            )
        } else {
            e
        }
    }
}

/// Whether the children take up every cell of the rows and columns that they
/// reach.
pub open spec fn packed(kids: Seq<Json>) -> bool {
    let e = extent(kids, kids.len());
    forall|row: int, col: int| 0 <= row < e.0 && 0 <= col < e.1 ==> #[trigger] taken(kids, row, col)
}

fn is_taken(kids: &Vec<Value>, row: u128, col: u128) -> (r: bool)
    ensures
        r == taken(json_list(kids@), row as int, col as int),
{
    let ghost m = json_list(kids@);
    let mut i: usize = 0;
    while i < kids.len()
        invariant
            i <= kids.len(),
            m == json_list(kids@),
            forall|k: int| 0 <= k < i ==> !takes(#[trigger] m[k], row as int, col as int),
        decreases kids.len() - i,
    {
        let c = &kids[i];
        let a = anchor_of(c);
        let rows = span_of(c, "gridRowSpan") as u128;
        let cols = span_of(c, "gridColumnSpan") as u128;
        let top = a.0 as u128;
        let left = a.1 as u128;
        if does_take_cells(c) && top <= row && row < top + rows && left <= col && col < left + cols {
            assert(takes(m[i as int], row as int, col as int));
            return true;
        }
        i += 1;
    }
    false
}

fn extent_of(kids: &Vec<Value>) -> (r: (u128, u128))
    ensures
        (r.0 as nat, r.1 as nat) == extent(json_list(kids@), kids@.len()),
{
    let ghost m = json_list(kids@);
    let mut rows: u128 = 0;
    let mut cols: u128 = 0;
    let mut i: usize = 0;
    while i < kids.len()
        invariant
            i <= kids.len(),
            m == json_list(kids@),
            (rows as nat, cols as nat) == extent(m, i as nat),
        decreases kids.len() - i,
    {
        let c = &kids[i];
        if does_take_cells(c) {
            let a = anchor_of(c);
            let down = a.0 as u128 + span_of(c, "gridRowSpan") as u128;
            let across = a.1 as u128 + span_of(c, "gridColumnSpan") as u128;
            if down > rows {
                rows = down;
            }
            if across > cols {
                cols = across;
            }
        }
        i += 1;
    }
    (rows, cols)
}

/// Whether the children of a grid fill it without gaps.
pub fn is_packed_grid(kids: &Vec<Value>) -> (r: bool)
    ensures
        r == packed(json_list(kids@)),
{
    let ghost m = json_list(kids@);
    let (rows, cols) = extent_of(kids);
    let mut row: u128 = 0;
    while row < rows
        invariant
            row <= rows,
            m == json_list(kids@),
            (rows as nat, cols as nat) == extent(m, m.len()),
            forall|y: int, x: int| 0 <= y < row && 0 <= x < cols ==> #[trigger] taken(m, y, x),
        decreases rows - row,
    {
        let mut col: u128 = 0;
        while col < cols
            invariant
                row < rows,
                col <= cols,
                m == json_list(kids@),
                (rows as nat, cols as nat) == extent(m, m.len()),
                forall|y: int, x: int| 0 <= y < row && 0 <= x < cols ==> #[trigger] taken(m, y, x),
                forall|x: int| 0 <= x < col ==> #[trigger] taken(m, row as int, x),
            decreases cols - col,
        {
            if !is_taken(kids, row, col) {
                assert(!taken(m, row as int, col as int));
                return false;
            }
            col += 1;
        }
        row += 1;
    }
    true
}

// ---------------------------------------------------------------------------
// Placement
// ---------------------------------------------------------------------------

/// Whether two boxes overlap.
pub open spec fn overlap(a: Area, b: Area) -> bool {
    less(a.x, plus(b.x, b.w)) && less(b.x, plus(a.x, a.w)) && less(a.y, plus(b.y, b.h)) && less(b.y, plus(a.y, a.h))
}

/// Whether two children of the flow overlap.
pub open spec fn kids_overlap(a: Json, b: Json) -> bool {
    !absolute(a) && !absolute(b) && match (bounds(a), bounds(b)) {
        (Some(x), Some(y)) => overlap(x, y),
        _ => false,
    }
}

/// Whether some two children in the flow overlap.
pub open spec fn some_overlap(kids: Seq<Json>) -> bool {
    exists|i: int, j: int| 0 <= i < j < kids.len() && #[trigger] kids_overlap(kids[i], kids[j])
}

/// Whether some two children in the flow of a container overlap.
pub open spec fn any_overlap(parent: Json) -> bool {
    match arr_field(parent, "children"@) {
        Some(kids) => some_overlap(kids),
        None => false,
    }
}

fn do_overlap(a: &Value, b: &Value) -> (r: bool)
    ensures
        r == kids_overlap(a@, b@),
{
    if is_absolute(a) || is_absolute(b) {
        return false;
    }
    match (bbox(a), bbox(b)) {
        (Some(p), Some(q)) => p.x.is_less(q.x.plus(q.w)) && q.x.is_less(p.x.plus(p.w)) && p.y.is_less(q.y.plus(q.h))
            && q.y.is_less(p.y.plus(p.h)),
        _ => false,
    }
}

fn grid_children_overlap(parent: &Value) -> (r: bool)
    ensures
        r == any_overlap(parent@),
{
    match list_of(parent.get("children")) {
        Some(kids) => {
            let ghost m = json_list(kids@);
            let mut i: usize = 0;
            while i < kids.len()
                invariant
                    i <= kids.len(),
                    m == json_list(kids@),
                    arr_field(parent@, "children"@) == Some(m),
                    forall|a: int, b: int|
                        0 <= a < i && a < b < m.len() ==> !#[trigger] kids_overlap(m[a], m[b]),
                decreases kids.len() - i,
            {
                let mut j: usize = i + 1;
                while j < kids.len()
                    invariant
                        i < j <= kids.len(),
                        m == json_list(kids@),
                        arr_field(parent@, "children"@) == Some(m),
                        forall|b: int| i < b < j ==> !#[trigger] kids_overlap(m[i as int], m[b]),
                    decreases kids.len() - j,
                {
                    if do_overlap(&kids[i], &kids[j]) {
                        assert(kids_overlap(m[i as int], m[j as int]));
                        assert(some_overlap(m));
                        return true;
                    }
                    j += 1;
                }
                i += 1;
            }
            false
        },
        None => false,
    }
}

/// The CSS name of an alignment in a grid.
pub open spec fn grid_align(a: Option<Seq<char>>) -> Option<Seq<char>> {
    if a == Some("MIN"@) {
        Some("start"@)
    } else if a == Some("MAX"@) {
        Some("end"@)
    } else if a == Some("CENTER"@) {
        Some("center"@)
    } else {
        None
    }
}

fn convert_grid_align(a: Option<&str>) -> (r: Option<String>)
    ensures
        opt_text(r) == grid_align(opt_str(a)),
{
    if text_is(a, "MIN") {
        Some("start".to_owned())
    } else if text_is(a, "MAX") {
        Some("end".to_owned())
    } else if text_is(a, "CENTER") {
        Some("center".to_owned())
    } else {
        None
    }
}

/// The text that places a child on one axis: a line and a span when the grid
/// has gaps, else a span alone when it is more than one.
pub open spec fn axis_text(packed: bool, at: nat, span: nat) -> Option<Seq<char>> {
    if !packed {
        Some(
            if span > 1 {
                decimal(at + 1) + " / span "@ + decimal(span)
            } else {
                decimal(at + 1)
            },
        )
    } else if span > 1 {
        Some("span "@ + decimal(span))
    } else {
        None
    }
}

fn write_axis(packed: bool, at: u64, span: u64) -> (r: Option<String>)
    ensures
        opt_text(r) == axis_text(packed, at as nat, span as nat),
{
    if !packed {
        let line = decimal_of(at as u128 + 1);
        Some(
            if span > 1 {
                cat3(line.as_str(), " / span ", decimal_of(span as u128).as_str())
            } else {
                line
            },
        )
    } else if span > 1 {
        Some(cat2("span ", decimal_of(span as u128).as_str()))
    } else {
        None
    }
}

/// The first child from `i` on with an id.
pub open spec fn child_with_id(kids: Seq<Json>, id: Option<Seq<char>>, i: int) -> Option<int>
    decreases kids.len() - i,
{
    if i < 0 || i >= kids.len() {
        None
    } else if str_field(kids[i], "id"@) == id {
        Some(i)
    } else {
        child_with_id(kids, id, i + 1)
    }
}

/// The stacking order of a child that the order of a grid moves over another:
/// the place that it has in its container.
pub open spec fn stacking(n: Json, parent: Json) -> Option<int> {
    match grid_order(parent) {
        Some(order) => if any_overlap(parent) {
            match arr_field(parent, "children"@) {
                Some(kids) => match child_with_id(kids, str_field(n, "id"@), 0) {
                    Some(o) => if order[o] == o {
                        None
                    } else {
                        Some(o)
                    },
                    None => None,
                },
                None => None,
            }
        } else {
            None
        },
        None => None,
    }
}

/// Whether two optional texts are the same.
pub(crate) fn same_some(a: Option<&str>, b: Option<&str>) -> (r: bool)
    ensures
        r == (opt_str(a) == opt_str(b)),
{
    match (a, b) {
        (Some(x), Some(y)) => same(x, y),
        (None, None) => true,
        _ => false,
    }
}

fn find_stacking(n: &Value, parent: &Value) -> (r: Option<usize>)
    ensures
        match r {
            Some(o) => stacking(n@, parent@) == Some(o as int),
            None => stacking(n@, parent@) is None,
        },
{
    let order = match compute_grid_child_order(parent) {
        Some(o) => o,
        None => return None,
    };
    if !grid_children_overlap(parent) {
        return None;
    }
    match list_of(parent.get("children")) {
        Some(kids) => {
            let ghost m = json_list(kids@);
            let id = str_of(n.get("id"));
            proof {
                lemma_arranged(m);
                assert(places(order@) == arranged(m));
            }
            let mut i: usize = 0;
            while i < kids.len()
                invariant
                    i <= kids.len(),
                    m == json_list(kids@),
                    arr_field(parent@, "children"@) == Some(m),
                    grid_order(parent@) == Some(places(order@)),
                    order.len() == kids.len(),
                    any_overlap(parent@),
                    opt_str(id) == str_field(n@, "id"@),
                    child_with_id(m, opt_str(id), 0) == child_with_id(m, opt_str(id), i as int),
                decreases kids.len() - i,
            {
                if same_some(str_of(kids[i].get("id")), id) {
                    assert(places(order@)[i as int] == order@[i as int] as int);
                    return if order[i] == i {
                        None
                    } else {
                        Some(i)
                    };
                }
                i += 1;
            }
            None
        },
        None => None,
    }
}

/// The fields that place a child in a grid.
pub open spec fn grid_fields(n: Json, parent: Json, packed: bool) -> Fields {
    let col = axis_text(packed, anchor(n).1, span(n, "gridColumnSpan"@));
    let row = axis_text(packed, anchor(n).0, span(n, "gridRowSpan"@));
    let a = put_some(Fields::empty(), "gridColumn"@, text_json(col));
    let b = put_some(a, "gridRow"@, text_json(row));
    let c = put_some(b, "justifySelf"@, text_json(grid_align(str_field(n, "gridChildHorizontalAlign"@))));
    let d = put_some(c, "alignSelf"@, text_json(grid_align(str_field(n, "gridChildVerticalAlign"@))));
    match stacking(n, parent) {
        Some(o) => put(d, "zIndex"@, Json::Num(Num::Int(o))),
        None => d,
    }
}

/// The fields that place a child in a grid.
pub fn build_grid_child_positioning(n: &Value, parent: &Value, packed: bool) -> (r: Object)
    ensures
        r@ == grid_fields(n@, parent@, packed),
{
    let at = anchor_of(n);
    let mut out = Object::new();
    out.put_text("gridColumn", write_axis(packed, at.1, span_of(n, "gridColumnSpan")));
    out.put_text("gridRow", write_axis(packed, at.0, span_of(n, "gridRowSpan")));
    out.put_text("justifySelf", convert_grid_align(str_of(n.get("gridChildHorizontalAlign"))));
    out.put_text("alignSelf", convert_grid_align(str_of(n.get("gridChildVerticalAlign"))));
    match find_stacking(n, parent) {
        Some(o) => out.put("zIndex", Value::Number(Number::PosInt(o as u64))),
        None => {},
    }
    out
}

} // verus!
