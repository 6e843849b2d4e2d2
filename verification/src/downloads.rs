//! What becomes of the requests for images: each has its place in the plan, its
//! render, its URL, its part of the image and its line in the summary.

use vstd::prelude::*;

use crate::float::{cast, lemma_near_whole, lemma_of_exact, less, near, of_int, one, size, zero, Dbl};
use crate::figma_url::first_value;
use crate::images::{
    crop_start, every_rendered_node_is_asked_for, is_crop, is_cropped, item_url, lemma_place, other_names, place_of, plan_upto,
    render_ids, requested_again, share, suffixed, summary, summary_line, summary_lines, svg_name, size_from,
    with_request, written_for, written_name, Crop, Handling, ItemModel, Matrix, Origin, Plan, Request, Written,
};
use crate::outside::lower_case;
use crate::strings::{decimal, ends_with, has_part, joined, last_before};

verus! {

// ---------------------------------------------------------------------------
// Plans
// ---------------------------------------------------------------------------

/// Where the image of a request comes from: its animation, else its image fill,
/// else the render of its node.
pub open spec fn wanted_source(r: Request) -> Origin {
    match (r.gif_ref, r.image_ref) {
        (Some(g), _) => Origin::Gif(g),
        (None, Some(i)) => Origin::Image(i),
        (None, None) => Origin::Node(r.node_id),
    }
}

/// Whether an item serves a request: it comes from the same source, it is known
/// under the name of the request, and its size is told where the request asks
/// for it. An item of its own has the crop and the name of the request.
pub open spec fn serves_request(i: ItemModel, r: Request) -> bool {
    &&& i.source == wanted_source(r)
    &&& i.names.contains(suffixed(r.file_name, r.filename_suffix))
    &&& r.requires_image_dimensions ==> i.requires_dims
    &&& !(i.source is Image) || r.filename_suffix is Some ==> {
        &&& i.file_name == suffixed(r.file_name, r.filename_suffix)
        &&& i.needs_cropping == r.needs_cropping
        &&& i.crop_transform == r.crop_transform
    }
}

/// Whether some item serves a request.
pub open spec fn is_served(p: Plan, r: Request) -> bool {
    exists|j: int| 0 <= j < p.items.len() && #[trigger] serves_request(p.items[j], r)
}

spec fn places_lead(p: Plan) -> bool {
    forall|i: int|
        0 <= i < p.seen.len() ==> (#[trigger] p.seen[i]).1 < p.items.len() && p.items[p.seen[i].1 as int].source
            == Origin::Image(p.seen[i].0)
}

proof fn lemma_again(i: ItemModel, name: Seq<char>, dims: bool)
    ensures
        ({
            let n = requested_again(i, name, dims);
            &&& n.names.contains(name)
            &&& forall|x: Seq<char>| i.names.contains(x) ==> #[trigger] n.names.contains(x)
        }),
{
    let n = requested_again(i, name, dims);
    if !i.names.contains(name) {
        assert(n.names[i.names.len() as int] == name);
        assert forall|x: Seq<char>| i.names.contains(x) implies #[trigger] n.names.contains(x) by {
            let k = choose|k: int| 0 <= k < i.names.len() && i.names[k] == x;
            assert(n.names[k] == x);
        }
    }
}

proof fn lemma_with_request(p: Plan, r: Request, old: Request)
    requires
        places_lead(p),
    ensures
        places_lead(with_request(p, r)),
        is_served(with_request(p, r), r),
        is_served(p, old) ==> is_served(with_request(p, r), old),
{
    let q = with_request(p, r);
    let own = suffixed(r.file_name, r.filename_suffix);
    if let (None, Some(image)) = (r.gif_ref, r.image_ref) {
        lemma_place(p.seen, image, p.seen.len());
        if let (None, Some(at)) = (r.filename_suffix, place_of(p.seen, image, p.seen.len())) {
            lemma_again(p.items[at as int], r.file_name, r.requires_image_dimensions);
            assert(serves_request(q.items[at as int], r));
        } else {
            assert(seq![own][0] == own);
            assert(serves_request(q.items[p.items.len() as int], r));
        }
    } else {
        assert(seq![own][0] == own);
        assert(serves_request(q.items[p.items.len() as int], r));
    }
    assert(places_lead(q)) by {
        assert forall|i: int| 0 <= i < q.seen.len() implies (#[trigger] q.seen[i]).1 < q.items.len() && q.items[q.seen[i].1 as int].source
            == Origin::Image(q.seen[i].0) by {
            if i < p.seen.len() {
                assert(q.seen[i] == p.seen[i]);
                assert(p.items[p.seen[i].1 as int].source == Origin::Image(p.seen[i].0));
            }
        }
    }
    if is_served(p, old) {
        let j = choose|j: int| 0 <= j < p.items.len() && #[trigger] serves_request(p.items[j], old);
        assert(serves_request(q.items[j], old));
    }
}

proof fn lemma_plan(r: Seq<Request>, n: nat)
    requires
        n <= r.len(),
    ensures
        places_lead(plan_upto(r, n)),
        forall|i: int| 0 <= i < n ==> is_served(plan_upto(r, n), #[trigger] r[i]),
    decreases n,
{
    if n > 0 {
        let p = plan_upto(r, (n - 1) as nat);
        lemma_plan(r, (n - 1) as nat);
        assert forall|i: int| 0 <= i < n implies is_served(plan_upto(r, n), #[trigger] r[i]) by {
            lemma_with_request(p, r[n - 1], r[i]);
        }
        lemma_with_request(p, r[n - 1], r[n - 1]);
    }
}

/// Every request is served by an item of the plan.
pub proof fn every_request_is_planned(r: Seq<Request>, i: int)
    requires
        0 <= i < r.len(),
    ensures
        is_served(plan_upto(r, r.len()), r[i]),
{
    lemma_plan(r, r.len());
}

/// The node of every request without an image fill or an animation is rendered, in
/// the format that its file name asks for.
pub proof fn every_requested_node_is_rendered(r: Seq<Request>, i: int, svg: bool)
    requires
        0 <= i < r.len(),
        r[i].gif_ref is None,
        r[i].image_ref is None,
        r[i].filename_suffix is None,
        svg_name(r[i].file_name) == svg,
    ensures
        ({
            let items = plan_upto(r, r.len()).items;
            render_ids(items, svg, items.len()).contains(r[i].node_id)
        }),
{
    every_request_is_planned(r, i);
    let p = plan_upto(r, r.len());
    let j = choose|j: int| 0 <= j < p.items.len() && #[trigger] serves_request(p.items[j], r[i]);
    every_rendered_node_is_asked_for(p.items, svg);
    assert(p.items[j].source is Node);
}

/// A name without the suffix has it in front of its extension.
pub proof fn suffixes_stand_before_the_extension(base: Seq<char>, extension: Seq<char>, suffix: Seq<char>)
    requires
        !extension.contains('.'),
        !has_part(base + "."@ + extension, suffix),
    ensures
        suffixed(base + "."@ + extension, Some(suffix)) == base + "-"@ + suffix + "."@ + extension,
{
    let name = base + "."@ + extension;
    reveal_strlit(".");
    assert(name[base.len() as int] == '.');
    assert forall|i: int| base.len() < i < name.len() implies #[trigger] name[i] != '.' by {
        assert(extension[i - base.len() - 1] == name[i]);
        assert(extension.contains(name[i]));
    }
    lemma_last_dot(name, base.len() as int, name.len() as int);
    assert(name.subrange(0, base.len() as int) =~= base);
    assert(name.subrange((base.len() + 1) as int, name.len() as int) =~= extension);
}

proof fn lemma_last_dot(name: Seq<char>, at: int, n: int)
    requires
        0 <= at < n <= name.len(),
        name[at] == '.',
        forall|i: int| at < i < name.len() ==> #[trigger] name[i] != '.',
    ensures
        last_before(name, '.', n) == Some(at),
    decreases n,
{
    if n - 1 > at {
        assert(name[n - 1] != '.');
        lemma_last_dot(name, at, n - 1);
    }
}

// ---------------------------------------------------------------------------
// URLs
// ---------------------------------------------------------------------------

/// Whether a URL is the one that is known under a key, and no other one is.
pub open spec fn known_url(pairs: Seq<(Seq<char>, Seq<char>)>, key: Seq<char>, url: Seq<char>) -> bool {
    &&& exists|i: int| 0 <= i < pairs.len() && #[trigger] pairs[i] == (key, url)
    &&& forall|i: int| 0 <= i < pairs.len() && (#[trigger] pairs[i]).0 == key ==> pairs[i].1 == url
}

proof fn lemma_first_value(pairs: Seq<(Seq<char>, Seq<char>)>, key: Seq<char>, url: Seq<char>, at: int, i: int)
    requires
        0 <= i <= at < pairs.len(),
        pairs[at] == (key, url),
        forall|k: int| 0 <= k < pairs.len() && (#[trigger] pairs[k]).0 == key ==> pairs[k].1 == url,
    ensures
        first_value(pairs, key, i) == Some(url),
    decreases at - i,
{
    if pairs[i].0 != key {
        lemma_first_value(pairs, key, url, at, i + 1);
    }
}

/// An item is downloaded from the URL that was given for its source: that of its
/// fill, or that of the render of its node in its format.
pub proof fn items_get_their_urls(
    item: ItemModel,
    fills: Seq<(Seq<char>, Seq<char>)>,
    pngs: Seq<(Seq<char>, Seq<char>)>,
    svgs: Seq<(Seq<char>, Seq<char>)>,
    url: Seq<char>,
)
    ensures
        item.source matches Origin::Gif(g) && known_url(fills, g, url) ==> item_url(item, fills, pngs, svgs) == Some(url),
        item.source matches Origin::Image(g) && known_url(fills, g, url) ==> item_url(item, fills, pngs, svgs) == Some(
            url,
        ),
        item.source matches Origin::Node(id) && svg_name(item.file_name) && known_url(svgs, id, url) ==> item_url(
            item,
            fills,
            pngs,
            svgs,
        ) == Some(url),
        item.source matches Origin::Node(id) && !svg_name(item.file_name) && known_url(pngs, id, url) ==> item_url(
            item,
            fills,
            pngs,
            svgs,
        ) == Some(url),
{
    let (key, pairs) = match item.source {
        Origin::Gif(g) => (g, fills),
        Origin::Image(g) => (g, fills),
        Origin::Node(id) => if svg_name(item.file_name) {
            (id, svgs)
        } else {
            (id, pngs)
        },
    };
    if known_url(pairs, key, url) {
        let at = choose|i: int| 0 <= i < pairs.len() && #[trigger] pairs[i] == (key, url);
        lemma_first_value(pairs, key, url, at, 0);
    }
}

// ---------------------------------------------------------------------------
// Crops
// ---------------------------------------------------------------------------

proof fn lemma_share(x: Dbl, len: nat, n: nat)
    requires
        near(x, len, n as int),
        0 < len < 0x100_0000,
        n <= len,
    ensures
        cast(share(x, len), 0, 0xffff_ffff) == n,
        crop_start(x, len) == n,
{
    lemma_near_whole(x, len, n as int);
    lemma_of_exact(n as int);
    lemma_of_exact(len as int);
    reveal(cast);
    let at = share(x, len);
    assert((n * one()) / one() == n as int) by {
        vstd::arithmetic::div_mod::lemma_div_multiples_vanish(n as int, one() as int);
        assert(n * one() == one() * n) by (nonlinear_arith);
    }
    assert(n * one() <= len * one()) by (nonlinear_arith)
        requires
            n <= len,
    ;
    if n == 0 {
        assert(n * one() == 0) by (nonlinear_arith)
            requires
                n == 0,
        ;
    }
}

/// A crop is the part of the image that its transform tells: it begins at the
/// shares of the width and the height in the third column, and is as large as
/// those on the diagonal.
pub proof fn crops_are_shares_of_the_image(
    c: Crop,
    m: Matrix,
    w: nat,
    h: nat,
    left: nat,
    top: nat,
    width: nat,
    height: nat,
)
    requires
        is_crop(c, m, w, h),
        m.len() >= 2,
        m[0].len() >= 3,
        m[1].len() >= 3,
        0 < w < 0x100_0000,
        0 < h < 0x100_0000,
        near(m[0][2], w, left as int),
        near(m[1][2], h, top as int),
        near(m[0][0], w, width as int),
        near(m[1][1], h, height as int),
        left + width <= w,
        top + height <= h,
    ensures
        c.left == left,
        c.top == top,
        c.width == width,
        c.height == height,
{
    lemma_share(m[0][2], w, left);
    lemma_share(m[1][2], h, top);
    lemma_share(m[0][0], w, width);
    lemma_share(m[1][1], h, height);
}

// ---------------------------------------------------------------------------
// Summary
// ---------------------------------------------------------------------------

proof fn lemma_other_names(names: Seq<Seq<char>>, name: Seq<char>, n: nat)
    requires
        n <= names.len(),
    ensures
        forall|x: Seq<char>| #[trigger]
            other_names(names, name, n).contains(x) <==> x != name && names.take(n as int).contains(x),
    decreases n,
{
    let all = other_names(names, name, n);
    if n > 0 {
        let before = other_names(names, name, (n - 1) as nat);
        lemma_other_names(names, name, (n - 1) as nat);
        assert(names.take(n as int) =~= names.take(n - 1).push(names[n - 1]));
        let (a, b) = (names.take(n - 1), names[n - 1]);
        assert forall|x: Seq<char>| #[trigger] all.contains(x) <==> x != name && a.push(b).contains(x) by {
            assert(a.push(b)[a.len() as int] == b);
            if b != name {
                assert(all[before.len() as int] == b);
            }
            if all.contains(x) {
                let k = choose|k: int| 0 <= k < all.len() && all[k] == x;
                if k < before.len() {
                    assert(before[k] == x);
                    assert(before.contains(x));
                    let l = choose|l: int| 0 <= l < a.len() && a[l] == x;
                    assert(a.push(b)[l] == x);
                }
            }
            if x != name && a.push(b).contains(x) {
                let k = choose|k: int| 0 <= k < a.push(b).len() && a.push(b)[k] == x;
                if k < a.len() {
                    assert(a[k] == x);
                    assert(a.contains(x));
                    assert(before.contains(x));
                    let l = choose|l: int| 0 <= l < before.len() && before[l] == x;
                    assert(all[l] == x);
                }
            }
        }
    }
}

/// Whether a line holds the name of a file, its size, more on it, and its other
/// names.
pub open spec fn is_file_line(line: Seq<char>, w: Written, more: Seq<char>, others: Seq<Seq<char>>) -> bool {
    line == "- "@ + written_name(w) + ": "@ + decimal(w.dims.0 as nat) + "x"@ + decimal(w.dims.1 as nat) + more + if others.len()
        == 0 {
        ""@
    } else {
        " (also requested as: "@ + joined(others, ", "@) + ")"@
    }
}

/// Whether a line tells of a file: its name, its size and its other names.
pub open spec fn tells_file(line: Seq<char>, w: Written) -> bool {
    exists|more: Seq<char>, others: Seq<Seq<char>>|
        {
            &&& #[trigger] is_file_line(line, w, more, others)
            &&& forall|x: Seq<char>| #[trigger] others.contains(x) <==> x != written_name(w) && w.names.contains(x)
        }
}

/// The summary of a download has a line for every file, and names every image that
/// has no URL.
pub proof fn summary_tells_every_file(
    results: Seq<Written>,
    missing: Seq<Seq<char>>,
    requested: nat,
    path: Seq<char>,
    i: int,
)
    requires
        0 <= i < results.len(),
    ensures
        exists|lines: Seq<Seq<char>>|
            {
                &&& summary(results, missing, requested, path) == Ok::<Seq<char>, Seq<char>>(
                    "Downloaded "@ + decimal(results.len()) + " images to `"@ + path + "`:\n"@ + #[trigger] joined(
                        lines,
                        "\n"@,
                    ),
                )
                &&& i < lines.len()
                &&& tells_file(lines[i], results[i])
                &&& missing.len() > 0 ==> lines.last() == "(missing URLs for: "@ + joined(missing, ", "@) + ")"@
            },
{
    let w = results[i];
    let lines = summary_lines(results, missing);
    let name = written_name(w);
    let dims = decimal(w.dims.0 as nat) + "x"@ + decimal(w.dims.1 as nat);
    reveal_strlit("");
    let info = (match w.vars {
        Some(v) => " | "@ + v,
        None => ""@,
    }) + if w.cropped {
        " (cropped)"@
    } else {
        ""@
    };
    let others = other_names(w.names, name, w.names.len());
    lemma_other_names(w.names, name, w.names.len());
    assert(w.names.take(w.names.len() as int) =~= w.names);
    let alias = if others.len() == 0 {
        ""@
    } else {
        " (also requested as: "@ + joined(others, ", "@) + ")"@
    };
    let front = "- "@ + name + ": "@ + decimal(w.dims.0 as nat) + "x"@ + decimal(w.dims.1 as nat) + info;
    assert(summary_line(w) =~= front + alias);
    assert(is_file_line(summary_line(w), w, info, others));
    assert(lines[i] == summary_line(w));
    assert(tells_file(lines[i], w));
    let text = "Downloaded "@ + decimal(results.len()) + " images to `"@ + path + "`:\n"@ + joined(lines, "\n"@);
    assert(summary(results, missing, requested, path) == Ok::<Seq<char>, Seq<char>>(text));
    if missing.len() > 0 {
        assert(lines.last() == "(missing URLs for: "@ + joined(missing, ", "@) + ")"@);
    }
}

// ---------------------------------------------------------------------------
// Sizes
// ---------------------------------------------------------------------------

proof fn lemma_whole_cast(n: nat)
    requires
        0 < n <= 0xffff_ffff,
    ensures
        cast(of_int(n as int), 0, 0xffff_ffff) == n,
        less(zero(), of_int(n as int)),
{
    lemma_of_exact(n as int);
    reveal(cast);
    assert((n * one()) / one() == n as int) by {
        vstd::arithmetic::div_mod::lemma_div_multiples_vanish(n as int, one() as int);
        assert(n * one() == one() * n) by (nonlinear_arith);
    }
    assert(n * one() > 0) by (nonlinear_arith)
        requires
            n > 0,
            one() > 0,
    ;
}

/// The size of an SVG image is its width and its height where both are there, and
/// else the third and the fourth number of its view box.
pub proof fn svg_sizes_are_told(w: nat, h: nat, view: Seq<Dbl>)
    requires
        0 < w <= 0xffff_ffff,
        0 < h <= 0xffff_ffff,
    ensures
        size_from(Some(of_int(w as int)), Some(of_int(h as int)), view) == (w as u32, h as u32),
        view.len() == 4 && view[2] == of_int(w as int) && view[3] == of_int(h as int) ==> {
            &&& size_from(None, None, view) == (w as u32, h as u32)
            &&& size_from(Some(of_int(w as int)), None, view) == (w as u32, h as u32)
            &&& size_from(None, Some(of_int(h as int)), view) == (w as u32, h as u32)
        },
        view.len() != 4 ==> size_from(None, Some(of_int(h as int)), view) == (0u32, 0u32),
{
    lemma_whole_cast(w);
    lemma_whole_cast(h);
}

/// A file is described with the size that it was written with: that of its crop where
/// it was cropped, and where its size was asked for, it is told in CSS variables.
pub proof fn files_are_described(item: ItemModel, path: Seq<char>, h: Handling)
    ensures
        ({
            let w = written_for(item, path, h);
            &&& w.path == path
            &&& w.names == item.names
            &&& h matches Handling::Whole(d) ==> w.dims == d && !w.cropped
            &&& h matches Handling::Cropped(c) ==> w.dims == (c.width, c.height) && w.cropped
            &&& item.requires_dims ==> w.vars == Some(
                "--original-width: "@ + decimal(w.dims.0 as nat) + "px; --original-height: "@ + decimal(w.dims.1 as nat)
                    + "px;"@,
            )
            &&& !item.requires_dims ==> w.vars is None
        }),
{
}

/// An image that is neither an animation nor a drawing is cropped where that is asked
/// for, and only there.
pub proof fn images_are_cropped_when_asked(item: ItemModel)
    requires
        !ends_with(lower_case(item.file_name), ".svg"@),
        !ends_with(lower_case(item.file_name), ".gif"@),
    ensures
        is_cropped(item) == (item.needs_cropping && item.crop_transform is Some),
{
}

} // verus!
