//! Image downloads: what to download, where it comes from, how a raster is
//! cropped, how large an image is, and the summary of it all.

use vstd::prelude::*;

use crate::figma_url::first_value;
use crate::float::{cast, from_int, lemma_of_zero, less, of_int, times, whole, zero, Dbl, Double};
use crate::json::opt_double;
use crate::outside::{
    alphabetic, find_image_size, image_size, is_alphabetic, is_white_space, is_utf8, lower_case, number_bits,
    number_of, parse_number_bits, read_text, size_view, text_of_bytes, to_lower_case, white_space,
};
use crate::path_util::{last_name, last_name_of};
use crate::strings::{
    cat2, cat3, chars_of, contains_text, decimal, decimal_of, ends_with, find, find_chars, find_from, has_part,
    has_suffix, join, joined, last_of, last_of_exec, opt_text, pair_views, same, stands_at, stands_at_exec, text_of,
    trim_text, trimmed, utf8_tells_texts_apart, views,
};

verus! {

// ---------------------------------------------------------------------------
// Requests
// ---------------------------------------------------------------------------

/// A request for an image.
#[derive(Debug)]
pub struct DownloadNode {
    pub node_id: String,
    pub image_ref: Option<String>,
    pub gif_ref: Option<String>,
    pub file_name: String,
    pub needs_cropping: bool,
    pub crop_transform: Option<Vec<Vec<Double>>>,
    pub requires_image_dimensions: bool,
    pub filename_suffix: Option<String>,
}

/// The model of a transform.
pub type Matrix = Seq<Seq<Dbl>>;

/// The model of a transform.
pub open spec fn matrix(t: Seq<Vec<Double>>) -> Matrix {
    t.map_values(|row: Vec<Double>| row@.map_values(|x: Double| x@))
}

/// The model of an optional transform.
pub open spec fn opt_matrix(t: Option<Vec<Vec<Double>>>) -> Option<Matrix> {
    match t {
        Some(m) => Some(matrix(m@)),
        None => None,
    }
}

/// A request for an image.
pub struct Request {
    pub node_id: Seq<char>,
    pub image_ref: Option<Seq<char>>,
    pub gif_ref: Option<Seq<char>>,
    pub file_name: Seq<char>,
    pub needs_cropping: bool,
    pub crop_transform: Option<Matrix>,
    pub requires_image_dimensions: bool,
    pub filename_suffix: Option<Seq<char>>,
}

impl View for DownloadNode {
    type V = Request;

    open spec fn view(&self) -> Request {
        Request {
            node_id: self.node_id@,
            image_ref: opt_text(self.image_ref),
            gif_ref: opt_text(self.gif_ref),
            file_name: self.file_name@,
            needs_cropping: self.needs_cropping,
            crop_transform: opt_matrix(self.crop_transform),
            requires_image_dimensions: self.requires_image_dimensions,
            filename_suffix: opt_text(self.filename_suffix),
        }
    }
}

/// The models of a list of requests.
pub open spec fn requests(s: Seq<DownloadNode>) -> Seq<Request> {
    s.map_values(|n: DownloadNode| n@)
}

// ---------------------------------------------------------------------------
// Plan
// ---------------------------------------------------------------------------

/// Where an image comes from: an animated fill, an image fill, or the render of
/// a node.
pub enum Origin {
    Gif(Seq<char>),
    Image(Seq<char>),
    Node(Seq<char>),
}

/// Where an image comes from: an animated fill, an image fill, or the render of
/// a node.
#[derive(Debug)]
pub enum Source {
    Gif(String),
    Image(String),
    Node(String),
}

impl View for Source {
    type V = Origin;

    open spec fn view(&self) -> Origin {
        match *self {
            Source::Gif(s) => Origin::Gif(s@),
            Source::Image(s) => Origin::Image(s@),
            Source::Node(s) => Origin::Node(s@),
        }
    }
}

/// An image to download, and the names under which it was requested.
#[derive(Debug)]
pub struct Item {
    pub file_name: String,
    pub needs_cropping: bool,
    pub crop_transform: Option<Vec<Vec<Double>>>,
    pub requires_dims: bool,
    pub source: Source,
    pub names: Vec<String>,
}

/// An image to download.
pub struct ItemModel {
    pub file_name: Seq<char>,
    pub needs_cropping: bool,
    pub crop_transform: Option<Matrix>,
    pub requires_dims: bool,
    pub source: Origin,
    pub names: Seq<Seq<char>>,
}

impl View for Item {
    type V = ItemModel;

    open spec fn view(&self) -> ItemModel {
        ItemModel {
            file_name: self.file_name@,
            needs_cropping: self.needs_cropping,
            crop_transform: opt_matrix(self.crop_transform),
            requires_dims: self.requires_dims,
            source: self.source@,
            names: views(self.names@),
        }
    }
}

/// The models of a list of items.
pub open spec fn item_views(s: Seq<Item>) -> Seq<ItemModel> {
    s.map_values(|i: Item| i@)
}

/// A file name with a suffix in front of its extension, unless it has the
/// suffix.
pub open spec fn suffixed(name: Seq<char>, suffix: Option<Seq<char>>) -> Seq<char> {
    match suffix {
        Some(s) => match last_of(name, '.') {
            Some(dot) => if has_part(name, s) {
                name
            } else {
                name.subrange(0, dot) + "-"@ + s + "."@ + name.subrange(dot + 1, name.len() as int)
            },
            None => name,
        },
        None => name,
    }
}

fn add_suffix(name: &str, suffix: &Option<String>) -> (r: String)
    ensures
        r@ == suffixed(name@, opt_text(*suffix)),
{
    match suffix {
        Some(s) => {
            let chars = chars_of(name);
            match last_of_exec(&chars, '.') {
                Some(dot) => if contains_text(name, s.as_str()) {
                    name.to_owned()
                } else {
                    let head = cat3(text_of(&chars, 0, dot).as_str(), "-", s.as_str());
                    cat3(head.as_str(), ".", text_of(&chars, dot + 1, chars.len()).as_str())
                },
                None => name.to_owned(),
            }
        },
        None => name.to_owned(),
    }
}

/// Items, and the places of those that are image fills without a suffix.
pub struct Plan {
    pub items: Seq<ItemModel>,
    pub seen: Seq<(Seq<char>, nat)>,
}

/// The last place among the first `n` of an image fill.
pub open spec fn place_of(seen: Seq<(Seq<char>, nat)>, key: Seq<char>, n: nat) -> Option<nat>
    decreases n,
{
    if n == 0 {
        None
    } else if seen[n - 1].0 == key {
        Some(seen[n - 1].1)
    } else {
        place_of(seen, key, (n - 1) as nat)
    }
}

/// The item that a request asks for.
pub open spec fn item_for(r: Request, source: Origin) -> ItemModel {
    ItemModel {
        file_name: suffixed(r.file_name, r.filename_suffix),
        needs_cropping: r.needs_cropping,
        crop_transform: r.crop_transform,
        requires_dims: r.requires_image_dimensions,
        source,
        names: seq![suffixed(r.file_name, r.filename_suffix)],
    }
}

/// An item that is requested once more.
pub open spec fn requested_again(i: ItemModel, name: Seq<char>, dims: bool) -> ItemModel {
    ItemModel {
        names: if i.names.contains(name) {
            i.names
        } else {
            i.names.push(name)
        },
        requires_dims: i.requires_dims || dims,
        ..i
    }
}

/// A plan with one more request. An image fill without a suffix that is in the
/// plan is not downloaded again.
pub open spec fn with_request(p: Plan, r: Request) -> Plan {
    match (r.gif_ref, r.image_ref) {
        (Some(g), _) => Plan { items: p.items.push(item_for(r, Origin::Gif(g))), ..p },
        (None, Some(image)) => match (r.filename_suffix, place_of(p.seen, image, p.seen.len())) {
            (Some(_), _) => Plan { items: p.items.push(item_for(r, Origin::Image(image))), ..p },
            (None, Some(at)) => Plan {
                items: p.items.update(
                    at as int,
                    requested_again(p.items[at as int], r.file_name, r.requires_image_dimensions),
                ),
                ..p
            },
            (None, None) => Plan {
                items: p.items.push(item_for(r, Origin::Image(image))),
                seen: p.seen.push((image, p.items.len())),
            },
        },
        (None, None) => Plan { items: p.items.push(item_for(r, Origin::Node(r.node_id))), ..p },
    }
}

/// The plan for the first `n` requests.
pub open spec fn plan_upto(r: Seq<Request>, n: nat) -> Plan
    decreases n,
{
    if n == 0 {
        Plan { items: Seq::empty(), seen: Seq::empty() }
    } else {
        with_request(plan_upto(r, (n - 1) as nat), r[n - 1])
    }
}

/// Each place leads to an item.
pub open spec fn places_fit(p: Plan) -> bool {
    forall|i: int| 0 <= i < p.seen.len() ==> (#[trigger] p.seen[i]).1 < p.items.len()
}

pub proof fn lemma_place(seen: Seq<(Seq<char>, nat)>, key: Seq<char>, n: nat)
    requires
        n <= seen.len(),
    ensures
        place_of(seen, key, n) matches Some(at) ==> exists|i: int|
            0 <= i < n && (#[trigger] seen[i]).1 == at && seen[i].0 == key,
        place_of(seen, key, n) is None ==> forall|i: int| 0 <= i < n ==> (#[trigger] seen[i]).0 != key,
    decreases n,
{
    if n > 0 && seen[n - 1].0 != key {
        lemma_place(seen, key, (n - 1) as nat);
    }
}

pub proof fn lemma_places_fit(r: Seq<Request>, n: nat)
    ensures
        places_fit(plan_upto(r, n)),
    decreases n,
{
    if n > 0 {
        lemma_places_fit(r, (n - 1) as nat);
        let p = plan_upto(r, (n - 1) as nat);
        let q = plan_upto(r, n);
        if let Some(image) = r[n - 1].image_ref {
            lemma_place(p.seen, image, p.seen.len());
        }
        assert forall|i: int| 0 <= i < q.seen.len() implies (#[trigger] q.seen[i]).1 < q.items.len() by {
            if i < p.seen.len() {
                assert(q.seen[i] == p.seen[i]);
            }
        }
    }
}

/// The models of places.
pub open spec fn seen_view(s: Seq<(String, usize)>) -> Seq<(Seq<char>, nat)> {
    s.map_values(|x: (String, usize)| (x.0@, x.1 as nat))
}

fn find_place(seen: &Vec<(String, usize)>, key: &str) -> (r: Option<usize>)
    ensures
        match r {
            Some(at) => place_of(seen_view(seen@), key@, seen@.len()) == Some(at as nat),
            None => place_of(seen_view(seen@), key@, seen@.len()) is None,
        },
{
    let ghost m = seen_view(seen@);
    let mut n: usize = seen.len();
    while n > 0
        invariant
            n <= seen.len(),
            m == seen_view(seen@),
            place_of(m, key@, m.len()) == place_of(m, key@, n as nat),
        decreases n,
    {
        assert(m[n - 1] == (seen@[n - 1].0@, seen@[n - 1].1 as nat));
        if same(seen[n - 1].0.as_str(), key) {
            return Some(seen[n - 1].1);
        }
        n -= 1;
    }
    None
}

fn copy_rows(t: &Vec<Vec<Double>>) -> (r: Vec<Vec<Double>>)
    ensures
        matrix(r@) == matrix(t@),
{
    let mut out: Vec<Vec<Double>> = Vec::new();
    let mut i: usize = 0;
    while i < t.len()
        invariant
            i <= t.len(),
            out.len() == i,
            forall|k: int| 0 <= k < i ==> (#[trigger] out@[k])@ == t@[k]@,
        decreases t.len() - i,
    {
        let row = &t[i];
        let mut copy: Vec<Double> = Vec::new();
        let mut j: usize = 0;
        while j < row.len()
            invariant
                j <= row.len(),
                copy@ == row@.take(j as int),
            decreases row.len() - j,
        {
            copy.push(row[j]);
            assert(row@.take(j + 1) =~= row@.take(j as int).push(row@[j as int]));
            j += 1;
        }
        assert(row@.take(row.len() as int) =~= row@);
        out.push(copy);
        i += 1;
    }
    assert(matrix(out@) =~= matrix(t@)) by {
        assert forall|k: int| 0 <= k < matrix(out@).len() implies matrix(out@)[k] == matrix(t@)[k] by {
            assert(out@[k]@ == t@[k]@);
        }
    }
    out
}

fn make_item(n: &DownloadNode, source: Source) -> (r: Item)
    ensures
        r@ == item_for(n@, source@),
{
    let name = add_suffix(n.file_name.as_str(), &n.filename_suffix);
    let mut names: Vec<String> = Vec::new();
    names.push(name.clone());
    assert(views(names@) =~= seq![name@]);
    let crop = match &n.crop_transform {
        Some(t) => Some(copy_rows(t)),
        None => None,
    };
    Item {
        file_name: name,
        needs_cropping: n.needs_cropping,
        crop_transform: crop,
        requires_dims: n.requires_image_dimensions,
        source,
        names,
    }
}

fn request_again(item: Item, name: String, dims: bool) -> (r: Item)
    ensures
        r@ == requested_again(item@, name@, dims),
{
    let ghost m = views(item.names@);
    let mut known = false;
    let mut i: usize = 0;
    while i < item.names.len()
        invariant
            i <= item.names.len(),
            m == views(item.names@),
            known <==> exists|k: int| 0 <= k < i && #[trigger] m[k] == name@,
        decreases item.names.len() - i,
    {
        assert(m[i as int] == item.names@[i as int]@);
        if same(item.names[i].as_str(), name.as_str()) {
            known = true;
        }
        i += 1;
    }
    assert(known == m.contains(name@));
    let mut item = item;
    if !known {
        item.names.push(name);
        assert(views(item.names@) =~= m.push(name@));
    }
    item.requires_dims = item.requires_dims || dims;
    item
}

/// Plans the downloads for requests: one item for each animated fill, each node
/// and each image fill with a suffix, and one for all requests of an image fill
/// without.
pub fn plan_downloads(nodes: &Vec<DownloadNode>) -> (r: Vec<Item>)
    ensures
        item_views(r@) == plan_upto(requests(nodes@), nodes@.len()).items,
{
    let ghost m = requests(nodes@);
    let mut items: Vec<Item> = Vec::new();
    let mut seen: Vec<(String, usize)> = Vec::new();
    let mut i: usize = 0;
    assert(item_views(items@) =~= Seq::empty());
    assert(seen_view(seen@) =~= Seq::empty());
    while i < nodes.len()
        invariant
            i <= nodes.len(),
            m == requests(nodes@),
            item_views(items@) == plan_upto(m, i as nat).items,
            seen_view(seen@) == plan_upto(m, i as nat).seen,
        decreases nodes.len() - i,
    {
        let n = &nodes[i];
        let ghost before = item_views(items@);
        let ghost known = seen_view(seen@);
        assert(m[i as int] == n@);
        if let Some(g) = &n.gif_ref {
            let item = make_item(n, Source::Gif(g.clone()));
            items.push(item);
            assert(item_views(items@) =~= before.push(item@));
        } else if let Some(image) = &n.image_ref {
            let at = if n.filename_suffix.is_none() {
                find_place(&seen, image.as_str())
            } else {
                None
            };
            match at {
                Some(p) => {
                    proof {
                        lemma_places_fit(m, i as nat);
                        lemma_place(known, image@, known.len());
                    }
                    let item = items.remove(p);
                    assert(item@ == before[p as int]);
                    let again = request_again(item, n.file_name.clone(), n.requires_image_dimensions);
                    items.insert(p, again);
                    assert(item_views(items@) =~= before.update(p as int, again@));
                },
                None => {
                    let place = items.len();
                    let item = make_item(n, Source::Image(image.clone()));
                    items.push(item);
                    assert(item_views(items@) =~= before.push(item@));
                    if n.filename_suffix.is_none() {
                        seen.push((image.clone(), place));
                        assert(seen_view(seen@) =~= known.push((image@, place as nat)));
                    }
                },
            }
        } else {
            let item = make_item(n, Source::Node(n.node_id.clone()));
            items.push(item);
            assert(item_views(items@) =~= before.push(item@));
        }
        i += 1;
    }
    items
}

// ---------------------------------------------------------------------------
// URLs
// ---------------------------------------------------------------------------

/// Whether a file name is that of an SVG image.
pub open spec fn svg_name(name: Seq<char>) -> bool {
    ends_with(lower_case(name), ".svg"@)
}

fn is_svg_name(name: &str) -> (r: bool)
    ensures
        r == svg_name(name@),
{
    has_suffix(to_lower_case(name).as_str(), ".svg")
}

/// The nodes among the first `n` items that are rendered as SVG images, or the
/// others that are rendered.
pub open spec fn render_ids(items: Seq<ItemModel>, svg: bool, n: nat) -> Seq<Seq<char>>
    decreases n,
{
    if n == 0 {
        Seq::empty()
    } else {
        let before = render_ids(items, svg, (n - 1) as nat);
        match items[n - 1].source {
            Origin::Node(id) => if svg_name(items[n - 1].file_name) == svg {
                before.push(id)
            } else {
                before
            },
            _ => before,
        }
    }
}

/// The nodes that are rendered as SVG images, or those that are rendered as PNG
/// images.
pub fn collect_render_ids(items: &Vec<Item>, svg: bool) -> (r: Vec<String>)
    ensures
        views(r@) == render_ids(item_views(items@), svg, items@.len()),
{
    let ghost m = item_views(items@);
    let mut out: Vec<String> = Vec::new();
    let mut i: usize = 0;
    assert(views(out@) =~= Seq::empty());
    while i < items.len()
        invariant
            i <= items.len(),
            m == item_views(items@),
            views(out@) == render_ids(m, svg, i as nat),
        decreases items.len() - i,
    {
        let item = &items[i];
        assert(m[i as int] == item@);
        if let Source::Node(id) = &item.source {
            if is_svg_name(item.file_name.as_str()) == svg {
                let ghost before = views(out@);
                out.push(id.clone());
                assert(views(out@) =~= before.push(id@));
            }
        }
        i += 1;
    }
    out
}

/// Whether the URLs of fills are needed.
pub open spec fn fills_needed(items: Seq<ItemModel>) -> bool {
    exists|i: int| 0 <= i < items.len() && !((#[trigger] items[i]).source is Node)
}

/// Whether the URLs of fills are needed: some item is one.
pub fn needs_fill_urls(items: &Vec<Item>) -> (r: bool)
    ensures
        r == fills_needed(item_views(items@)),
{
    let ghost m = item_views(items@);
    let mut i: usize = 0;
    while i < items.len()
        invariant
            i <= items.len(),
            m == item_views(items@),
            forall|k: int| 0 <= k < i ==> (#[trigger] m[k]).source is Node,
        decreases items.len() - i,
    {
        assert(m[i as int] == items@[i as int]@);
        match &items[i].source {
            Source::Node(_) => {},
            _ => return true,
        }
        i += 1;
    }
    false
}

/// The URL of an item, from those of fills, of PNG renders and of SVG renders.
pub open spec fn item_url(
    item: ItemModel,
    fills: Seq<(Seq<char>, Seq<char>)>,
    pngs: Seq<(Seq<char>, Seq<char>)>,
    svgs: Seq<(Seq<char>, Seq<char>)>,
) -> Option<Seq<char>> {
    match item.source {
        Origin::Gif(g) => first_value(fills, g, 0),
        Origin::Image(i) => first_value(fills, i, 0),
        Origin::Node(id) => if svg_name(item.file_name) {
            first_value(svgs, id, 0)
        } else {
            first_value(pngs, id, 0)
        },
    }
}

fn look_up(pairs: &Vec<(String, String)>, k: &str) -> (r: Option<String>)
    ensures
        opt_text(r) == first_value(pair_views(pairs@), k@, 0),
{
    let ghost m = pair_views(pairs@);
    let mut i: usize = 0;
    while i < pairs.len()
        invariant
            i <= pairs.len(),
            m == pair_views(pairs@),
            first_value(m, k@, 0) == first_value(m, k@, i as int),
        decreases pairs.len() - i,
    {
        assert(m[i as int] == (pairs@[i as int].0@, pairs@[i as int].1@));
        if same(pairs[i].0.as_str(), k) {
            return Some(pairs[i].1.clone());
        }
        i += 1;
    }
    None
}

/// The URL from which an item is downloaded.
pub fn find_url(
    item: &Item,
    fills: &Vec<(String, String)>,
    pngs: &Vec<(String, String)>,
    svgs: &Vec<(String, String)>,
) -> (r: Option<String>)
    ensures
        opt_text(r) == item_url(item@, pair_views(fills@), pair_views(pngs@), pair_views(svgs@)),
{
    match &item.source {
        Source::Gif(g) => look_up(fills, g.as_str()),
        Source::Image(i) => look_up(fills, i.as_str()),
        Source::Node(id) => if is_svg_name(item.file_name.as_str()) {
            look_up(svgs, id.as_str())
        } else {
            look_up(pngs, id.as_str())
        },
    }
}

// ---------------------------------------------------------------------------
// Crops
// ---------------------------------------------------------------------------

/// The entry of a transform, or another number.
pub open spec fn entry(m: Matrix, row: int, col: int, other: Dbl) -> Dbl {
    if 0 <= row < m.len() && 0 <= col < m[row].len() {
        m[row][col]
    } else {
        other
    }
}

fn entry_of(m: &Vec<Vec<Double>>, row: usize, col: usize, other: Double) -> (r: Double)
    ensures
        r@ == entry(matrix(m@), row as int, col as int, other@),
{
    if row < m.len() && col < m[row].len() {
        m[row][col]
    } else {
        other
    }
}

/// A share of a length, rounded.
pub open spec fn share(x: Dbl, len: nat) -> Dbl {
    whole(times(x, of_int(len as int)))
}

/// Where a crop begins: a share of the length, inside the length.
pub open spec fn crop_start(x: Dbl, len: nat) -> nat {
    let at = share(x, len);
    let end = of_int(len as int);
    cast(
        if less(at, zero()) {
            zero()
        } else if less(end, at) {
            end
        } else {
            at
        },
        0,
        0xffff_ffff,
    ) as nat
}

/// How long a crop from `start` on is: a share of the length, and no longer than
/// what is left of it.
pub open spec fn crop_len(x: Dbl, len: nat, start: nat) -> nat {
    let size = cast(share(x, len), 0, 0xffff_ffff) as nat;
    let left = if start > len {
        0
    } else {
        (len - start) as nat
    };
    if size < left {
        size
    } else {
        left
    }
}

/// A part of an image.
#[derive(Debug, Clone, Copy, PartialEq, Eq)]
pub struct Crop {
    pub left: u32,
    pub top: u32,
    pub width: u32,
    pub height: u32,
}

/// Whether a crop is the one that a transform asks for in an image.
pub open spec fn is_crop(c: Crop, m: Matrix, w: nat, h: nat) -> bool {
    &&& c.left == crop_start(entry(m, 0, 2, zero()), w)
    &&& c.top == crop_start(entry(m, 1, 2, zero()), h)
    &&& c.width == crop_len(entry(m, 0, 0, of_int(1)), w, c.left as nat)
    &&& c.height == crop_len(entry(m, 1, 1, of_int(1)), h, c.top as nat)
}

/// Whether the crop that a transform asks for in an image leaves nothing of it.
pub open spec fn crop_is_empty(m: Matrix, w: nat, h: nat) -> bool {
    crop_len(entry(m, 0, 0, of_int(1)), w, crop_start(entry(m, 0, 2, zero()), w)) == 0 || crop_len(
        entry(m, 1, 1, of_int(1)),
        h,
        crop_start(entry(m, 1, 2, zero()), h),
    ) == 0
}

fn scale_length(x: Double, len: u32) -> (r: Double)
    ensures
        r@ == share(x@, len as nat),
{
    x.times(from_int(len as i128)).to_whole()
}

fn find_start(x: Double, len: u32) -> (r: u32)
    ensures
        r == crop_start(x@, len as nat),
{
    let z = from_int(0);
    proof {
        lemma_of_zero();
    }
    let at = scale_length(x, len);
    let end = from_int(len as i128);
    let inside = if at.is_less(z) {
        z
    } else if end.is_less(at) {
        end
    } else {
        at
    };
    inside.cast(0, 0xffff_ffff) as u32
}

fn find_len(x: Double, len: u32, start: u32) -> (r: u32)
    ensures
        r == crop_len(x@, len as nat, start as nat),
{
    let size = scale_length(x, len).cast(0, 0xffff_ffff) as u32;
    let left: u32 = if start > len {
        0
    } else {
        len - start
    };
    if size < left {
        size
    } else {
        left
    }
}

/// The crop that a transform asks for in an image.
pub fn crop_rectangle(m: &Vec<Vec<Double>>, w: u32, h: u32) -> (r: Crop)
    ensures
        is_crop(r, matrix(m@), w as nat, h as nat),
{
    let z = from_int(0);
    proof {
        lemma_of_zero();
    }
    let left = find_start(entry_of(m, 0, 2, z), w);
    let top = find_start(entry_of(m, 1, 2, z), h);
    let width = find_len(entry_of(m, 0, 0, from_int(1)), w, left);
    let height = find_len(entry_of(m, 1, 1, from_int(1)), h, top);
    Crop { left, top, width, height }
}

// ---------------------------------------------------------------------------
// Sizes
// ---------------------------------------------------------------------------

/// The CSS variables with the size of an image.
pub open spec fn size_vars(dims: (u32, u32)) -> Seq<char> {
    "--original-width: "@ + decimal(dims.0 as nat) + "px; --original-height: "@ + decimal(dims.1 as nat) + "px;"@
}

fn css_vars(dims: (u32, u32)) -> (r: String)
    ensures
        r@ == size_vars(dims),
{
    let head = cat3("--original-width: ", decimal_of(dims.0 as u128).as_str(), "px; --original-height: ");
    cat3(head.as_str(), decimal_of(dims.1 as u128).as_str(), "px;")
}

/// Whether a character is a quote of an attribute.
pub open spec fn quote(c: char) -> bool {
    c == '"' || c == '\''
}

/// The first place from `i` on where a character stands.
pub open spec fn char_from(s: Seq<char>, c: char, i: int) -> Option<int>
    decreases s.len() - i,
{
    if i < 0 || i >= s.len() {
        None
    } else if s[i] == c {
        Some(i)
    } else {
        char_from(s, c, i + 1)
    }
}

pub proof fn lemma_char_from(s: Seq<char>, c: char, i: int)
    requires
        0 <= i,
    ensures
        char_from(s, c, i) matches Some(j) ==> i <= j < s.len() && s[j] == c,
    decreases s.len() - i,
{
    if i < s.len() && s[i] != c {
        lemma_char_from(s, c, i + 1);
    }
}

/// The first place from `i` on that is no white space.
pub open spec fn past_space(s: Seq<char>, i: int) -> int
    decreases s.len() - i,
{
    if 0 <= i < s.len() && white_space(s[i]) {
        past_space(s, i + 1)
    } else {
        i
    }
}

pub proof fn lemma_past_space(s: Seq<char>, i: int)
    ensures
        i <= past_space(s, i),
        i <= s.len() ==> past_space(s, i) <= s.len(),
    decreases s.len() - i,
{
    if 0 <= i < s.len() && white_space(s[i]) {
        lemma_past_space(s, i + 1);
    }
}

/// Where the quoted value of the equals sign at `i` ends, if there is one: at
/// the next quote of the kind that it opens with.
pub open spec fn value_end(s: Seq<char>, i: int) -> Option<int> {
    let open = past_space(s, i + 1);
    if 0 <= i < s.len() && s[i] == '=' && open < s.len() && quote(s[open]) {
        char_from(s, s[open], open + 1)
    } else {
        None
    }
}

/// What follows on `i`: behind the quoted value where one begins there.
pub open spec fn past_value(s: Seq<char>, i: int) -> int {
    match value_end(s, i) {
        Some(j) => j + 1,
        None => i + 1,
    }
}

pub proof fn lemma_past_value(s: Seq<char>, i: int)
    ensures
        i < past_value(s, i),
        0 <= i < s.len() ==> past_value(s, i) <= s.len(),
{
    let open = past_space(s, i + 1);
    lemma_past_space(s, i + 1);
    if value_end(s, i) is Some {
        lemma_char_from(s, s[open], open + 1);
    }
}

/// The end of the tag that `i` lies in: the first `>` outside of quoted values.
pub open spec fn tag_end(s: Seq<char>, i: int) -> Option<int>
    decreases s.len() - i,
{
    if i < 0 || i >= s.len() {
        None
    } else if s[i] == '>' {
        Some(i)
    } else {
        proof {
            lemma_past_value(s, i);
        }
        tag_end(s, past_value(s, i))
    }
}

/// The opening tag of an SVG image.
pub open spec fn svg_tag(s: Seq<char>) -> Seq<char> {
    match find(s, "<svg"@) {
        Some(i) => match tag_end(s, i) {
            Some(j) => s.subrange(i, j + 1),
            None => ""@,
        },
        None => ""@,
    }
}

/// The value in quotes `q` of the attribute `name` at `i`, if there is one: the
/// name follows on white space or a value, and an equals sign and a closed value
/// follow on it.
pub open spec fn value_at(tag: Seq<char>, name: Seq<char>, q: char, i: int) -> Option<Seq<char>> {
    let sign = past_space(tag, i + name.len());
    let open = past_space(tag, sign + 1);
    if 0 < i && (white_space(tag[i - 1]) || quote(tag[i - 1])) && stands_at(tag, name, i) && sign < tag.len()
        && tag[sign] == '=' && open < tag.len() && tag[open] == q {
        match char_from(tag, q, open + 1) {
            Some(end) => Some(tag.subrange(open + 1, end)),
            None => None,
        }
    } else {
        None
    }
}

/// The value in quotes `q` of the first attribute `name` from `i` on that has
/// one. What stands in the value of another attribute is none.
pub open spec fn attribute_from(tag: Seq<char>, name: Seq<char>, q: char, i: int) -> Option<Seq<char>>
    decreases tag.len() - i,
{
    if i < 0 || i >= tag.len() {
        None
    } else {
        match value_at(tag, name, q, i) {
            Some(v) => Some(v),
            None => {
                proof {
                    lemma_past_value(tag, i);
                }
                attribute_from(tag, name, q, past_value(tag, i))
            },
        }
    }
}

/// The value of an attribute: the first in double quotes, else the first in
/// single ones.
pub open spec fn attribute(tag: Seq<char>, name: Seq<char>) -> Option<Seq<char>> {
    match attribute_from(tag, name, '"', 0) {
        Some(v) => Some(v),
        None => attribute_from(tag, name, '\'', 0),
    }
}

/// Where the letters at the end of a text begin.
pub open spec fn unit_start(s: Seq<char>) -> nat
    decreases s.len(),
{
    if s.len() > 0 && alphabetic(s.last()) {
        unit_start(s.drop_last())
    } else {
        s.len()
    }
}

/// A length, with or without a unit; a percentage is none.
pub open spec fn svg_length(raw: Option<Seq<char>>) -> Option<Dbl> {
    match raw {
        Some(s) => if has_part(s, "%"@) {
            None
        } else {
            number_of(number_bits(trimmed(s.subrange(0, unit_start(s) as int))))
        },
        None => None,
    }
}

/// Whether a character separates numbers.
pub open spec fn number_gap(c: char) -> bool {
    c == ' ' || c == ','
}

/// The end of the piece that reaches `i`.
pub open spec fn piece_end(s: Seq<char>, i: int) -> int
    decreases s.len() - i,
{
    if 0 <= i < s.len() && !number_gap(s[i]) {
        piece_end(s, i + 1)
    } else {
        i
    }
}

pub proof fn lemma_piece_end(s: Seq<char>, i: int)
    requires
        0 <= i <= s.len(),
    ensures
        i <= piece_end(s, i) <= s.len(),
    decreases s.len() - i,
{
    if i < s.len() && !number_gap(s[i]) {
        lemma_piece_end(s, i + 1);
    }
}

/// The number that a piece is.
pub open spec fn piece_number(s: Seq<char>) -> Seq<Dbl> {
    if s == ""@ {
        Seq::empty()
    } else {
        match number_of(number_bits(s)) {
            Some(x) => seq![x],
            None => Seq::empty(),
        }
    }
}

/// The numbers in a text from `start` on.
pub open spec fn numbers_from(s: Seq<char>, start: int) -> Seq<Dbl>
    decreases s.len() + 1 - start,
{
    if start < 0 || start > s.len() {
        Seq::empty()
    } else {
        proof {
            lemma_piece_end(s, start);
        }
        piece_number(s.subrange(start, piece_end(s, start))) + numbers_from(s, piece_end(s, start) + 1)
    }
}

/// A size in whole pixels.
pub open spec fn pixel_size(w: Dbl, h: Dbl) -> (u32, u32) {
    (cast(w, 0, 0xffff_ffff) as u32, cast(h, 0, 0xffff_ffff) as u32)
}

/// Whether a number is there and is positive.
pub open spec fn positive(x: Option<Dbl>) -> bool {
    x matches Some(v) && less(zero(), v)
}

/// The size of an image with these lengths and this view box: positive lengths
/// tell it, else the last two numbers of a view box of four, else nothing.
pub open spec fn size_from(width: Option<Dbl>, height: Option<Dbl>, view: Seq<Dbl>) -> (u32, u32) {
    if positive(width) && positive(height) {
        pixel_size(width->0, height->0)
    } else if view.len() == 4 && positive(Some(view[2])) && positive(Some(view[3])) {
        pixel_size(view[2], view[3])
    } else {
        (0, 0)
    }
}

/// The numbers of a view box.
pub open spec fn view_box(raw: Option<Seq<char>>) -> Seq<Dbl> {
    match raw {
        Some(s) => numbers_from(s, 0),
        None => Seq::empty(),
    }
}

/// The size of an SVG image: that of its attributes, else that of its view box,
/// else nothing.
pub open spec fn svg_size(s: Seq<char>) -> (u32, u32) {
    let tag = svg_tag(s);
    size_from(
        svg_length(attribute(tag, "width"@)),
        svg_length(attribute(tag, "height"@)),
        view_box(attribute(tag, "viewBox"@)),
    )
}

proof fn lemma_found(s: Seq<char>, p: Seq<char>, i: int)
    requires
        0 <= i,
    ensures
        find_from(s, p, i) matches Some(j) ==> i <= j && stands_at(s, p, j) && (forall|k: int|
            i <= k < j ==> !stands_at(s, p, k)),
    decreases s.len() + 1 - i,
{
    if i <= s.len() && !stands_at(s, p, i) {
        lemma_found(s, p, i + 1);
    }
}

fn find_char(s: &Vec<char>, c: char, from: usize) -> (r: Option<usize>)
    ensures
        match r {
            Some(j) => char_from(s@, c, from as int) == Some(j as int) && from <= j < s.len(),
            None => char_from(s@, c, from as int) is None,
        },
{
    let mut j: usize = from;
    while j < s.len()
        invariant
            from <= j,
            char_from(s@, c, from as int) == char_from(s@, c, j as int),
        decreases s.len() - j,
    {
        if s[j] == c {
            return Some(j);
        }
        j += 1;
    }
    None
}

fn skip_space(s: &Vec<char>, i: usize) -> (r: usize)
    ensures
        r == past_space(s@, i as int),
        i <= r,
        i <= s.len() ==> r <= s.len(),
{
    let mut j: usize = i;
    while j < s.len() && is_white_space(s[j])
        invariant
            i <= j,
            i <= s.len() ==> j <= s.len(),
            past_space(s@, i as int) == past_space(s@, j as int),
        decreases s.len() - j,
    {
        j += 1;
    }
    j
}

fn skip_value(s: &Vec<char>, i: usize) -> (r: usize)
    requires
        i < s.len(),
    ensures
        r == past_value(s@, i as int),
        i < r <= s.len(),
{
    if s[i] != '=' {
        return i + 1;
    }
    let open = skip_space(s, i + 1);
    if open >= s.len() || (s[open] != '"' && s[open] != '\'') {
        return i + 1;
    }
    match find_char(s, s[open], open + 1) {
        Some(j) => j + 1,
        None => i + 1,
    }
}

fn find_tag(svg: &str) -> (r: Vec<char>)
    ensures
        r@ == svg_tag(svg@),
{
    let chars = chars_of(svg);
    proof {
        lemma_found(svg@, "<svg"@, 0);
    }
    match find_chars(&chars, &chars_of("<svg"), 0) {
        Some(start) => {
            let mut i: usize = start;
            while i < chars.len()
                invariant
                    start <= i <= chars.len(),
                    chars@ == svg@,
                    find(svg@, "<svg"@) == Some(start as int),
                    tag_end(svg@, start as int) == tag_end(svg@, i as int),
                decreases chars.len() - i,
            {
                if chars[i] == '>' {
                    return chars_of(text_of(&chars, start, i + 1).as_str());
                }
                i = skip_value(&chars, i);
            }
            chars_of("")
        },
        None => chars_of(""),
    }
}

fn read_value(tag: &Vec<char>, name: &Vec<char>, q: char, i: usize) -> (r: Option<String>)
    requires
        i < tag.len(),
    ensures
        opt_text(r) == value_at(tag@, name@, q, i as int),
{
    if i == 0 || !(is_white_space(tag[i - 1]) || tag[i - 1] == '"' || tag[i - 1] == '\'') || !stands_at_exec(
        tag,
        name,
        i,
    ) {
        return None;
    }
    let sign = skip_space(tag, i + name.len());
    if sign >= tag.len() || tag[sign] != '=' {
        return None;
    }
    let open = skip_space(tag, sign + 1);
    if open >= tag.len() || tag[open] != q {
        return None;
    }
    match find_char(tag, q, open + 1) {
        Some(end) => Some(text_of(tag, open + 1, end)),
        None => None,
    }
}

fn find_quoted(tag: &Vec<char>, name: &str, q: char) -> (r: Option<String>)
    ensures
        opt_text(r) == attribute_from(tag@, name@, q, 0),
{
    let word = chars_of(name);
    let mut i: usize = 0;
    while i < tag.len()
        invariant
            i <= tag.len(),
            word@ == name@,
            attribute_from(tag@, name@, q, 0) == attribute_from(tag@, name@, q, i as int),
        decreases tag.len() - i,
    {
        if let Some(v) = read_value(tag, &word, q, i) {
            return Some(v);
        }
        i = skip_value(tag, i);
    }
    None
}

fn find_attribute(tag: &Vec<char>, name: &str) -> (r: Option<String>)
    ensures
        opt_text(r) == attribute(tag@, name@),
{
    match find_quoted(tag, name, '"') {
        Some(v) => Some(v),
        None => find_quoted(tag, name, '\''),
    }
}

fn find_unit(chars: &Vec<char>) -> (r: usize)
    ensures
        r == unit_start(chars@),
        r <= chars.len(),
{
    let mut n: usize = chars.len();
    assert(chars@.take(n as int) =~= chars@);
    while n > 0
        invariant
            n <= chars.len(),
            unit_start(chars@) == unit_start(chars@.take(n as int)),
        decreases n,
    {
        assert(chars@.take(n as int).last() == chars@[n - 1]);
        if !is_alphabetic(chars[n - 1]) {
            return n;
        }
        assert(chars@.take(n as int).drop_last() =~= chars@.take(n - 1));
        n -= 1;
    }
    n
}

fn read_number(s: &str) -> (r: Option<Double>)
    ensures
        opt_double(r) == number_of(number_bits(s@)),
{
    match parse_number_bits(s) {
        Some(b) => Some(Double::from_bits(b)),
        None => None,
    }
}

fn read_length(raw: Option<String>) -> (r: Option<Double>)
    ensures
        opt_double(r) == svg_length(opt_text(raw)),
{
    match raw {
        Some(s) => if contains_text(s.as_str(), "%") {
            None
        } else {
            let chars = chars_of(s.as_str());
            let end = find_unit(&chars);
            read_number(trim_text(text_of(&chars, 0, end).as_str()).as_str())
        },
        None => None,
    }
}

/// The models of a list of numbers.
pub open spec fn doubles(s: Seq<Double>) -> Seq<Dbl> {
    s.map_values(|x: Double| x@)
}

fn read_numbers(s: &str) -> (r: Vec<Double>)
    ensures
        doubles(r@) == numbers_from(s@, 0),
{
    let chars = chars_of(s);
    let ghost all = numbers_from(s@, 0);
    let mut out: Vec<Double> = Vec::new();
    let mut start: usize = 0;
    let mut done = false;
    assert(doubles(out@) + all =~= all);
    while !done
        invariant
            start <= chars.len(),
            chars@ == s@,
            !done ==> all == doubles(out@) + numbers_from(s@, start as int),
            done ==> all == doubles(out@),
        decreases (if done { 0 } else { chars.len() + 1 - start }),
    {
        let mut end: usize = start;
        while end < chars.len() && chars[end] != ' ' && chars[end] != ','
            invariant
                start <= end <= chars.len(),
                chars@ == s@,
                piece_end(s@, start as int) == piece_end(s@, end as int),
            decreases chars.len() - end,
        {
            end += 1;
        }
        let ghost before = doubles(out@);
        let ghost rest = numbers_from(s@, end + 1);
        let text = text_of(&chars, start, end);
        assert(text@ == s@.subrange(start as int, piece_end(s@, start as int)));
        if !same(text.as_str(), "") {
            match read_number(text.as_str()) {
                Some(x) => out.push(x),
                None => {},
            }
        }
        assert(doubles(out@) =~= before + piece_number(text@));
        assert(before + (piece_number(text@) + rest) =~= doubles(out@) + rest);
        if end < chars.len() {
            start = end + 1;
        } else {
            assert(rest =~= Seq::empty());
            assert(doubles(out@) + rest =~= doubles(out@));
            done = true;
        }
    }
    out
}

fn is_positive(x: Option<Double>) -> (r: bool)
    ensures
        r == positive(opt_double(x)),
{
    proof {
        lemma_of_zero();
    }
    match x {
        Some(v) => from_int(0).is_less(v),
        None => false,
    }
}

/// The size of an image with these lengths and this view box.
pub fn choose_size(width: Option<Double>, height: Option<Double>, view: &Vec<Double>) -> (r: (u32, u32))
    ensures
        r == size_from(opt_double(width), opt_double(height), doubles(view@)),
{
    if is_positive(width) && is_positive(height) {
        match (width, height) {
            (Some(w), Some(h)) => (w.cast(0, 0xffff_ffff) as u32, h.cast(0, 0xffff_ffff) as u32),
            _ => (0, 0),
        }
    } else if view.len() == 4 && is_positive(Some(view[2])) && is_positive(Some(view[3])) {
        (view[2].cast(0, 0xffff_ffff) as u32, view[3].cast(0, 0xffff_ffff) as u32)
    } else {
        (0, 0)
    }
}

/// Reads the size of an SVG image off its markup: the width and height
/// attributes, else the view box.
pub fn parse_svg_dimensions(svg: &str) -> (r: (u32, u32))
    ensures
        r == svg_size(svg@),
{
    let tag = find_tag(svg);
    let view = match find_attribute(&tag, "viewBox") {
        Some(b) => read_numbers(b.as_str()),
        None => Vec::new(),
    };
    assert(view@.len() == 0 ==> doubles(view@) =~= Seq::empty());
    choose_size(
        read_length(find_attribute(&tag, "width")),
        read_length(find_attribute(&tag, "height")),
        &view,
    )
}

// ---------------------------------------------------------------------------
// Files
// ---------------------------------------------------------------------------

/// What becomes of a downloaded file: it is written as it came, or cropped.
#[derive(Debug, Clone, Copy)]
pub enum Handling {
    Whole((u32, u32)),
    Cropped(Crop),
}

/// Whether an item is cropped: GIFs and SVG images never are.
pub open spec fn is_cropped(item: ItemModel) -> bool {
    item.needs_cropping && item.crop_transform is Some && !svg_name(item.file_name) && !ends_with(
        lower_case(item.file_name),
        ".gif"@,
    )
}

/// The size of a file that is written as it came: the markup tells that of an
/// SVG image, and a file that is no image has none.
pub open spec fn whole_size(item: ItemModel, size: Result<(u32, u32), Seq<char>>, markup: Seq<char>) -> (u32, u32) {
    if svg_name(item.file_name) {
        svg_size(markup)
    } else {
        match size {
            Ok(d) => d,
            Err(_) => (0, 0),
        }
    }
}

/// Whether this becomes of a file with a size and a markup. A crop that leaves
/// nothing of an image is not made; a file to crop that is no image is an error.
pub open spec fn is_handling(
    r: Result<Handling, String>,
    item: ItemModel,
    size: Result<(u32, u32), Seq<char>>,
    markup: Seq<char>,
) -> bool {
    if !is_cropped(item) {
        r matches Ok(Handling::Whole(d)) && d == whole_size(item, size, markup)
    } else {
        match size {
            Ok((w, h)) => if crop_is_empty(item.crop_transform->0, w as nat, h as nat) {
                r matches Ok(Handling::Whole(d)) && d == (w, h)
            } else {
                r matches Ok(Handling::Cropped(c)) && is_crop(c, item.crop_transform->0, w as nat, h as nat)
            },
            Err(e) => r matches Err(m) && m@ == "decoding downloaded image: "@ + e,
        }
    }
}

/// Decides what becomes of a file. `size` is that of the image which it
/// encodes, and `markup` is its text.
pub fn choose_handling(item: &Item, size: Result<(u32, u32), String>, markup: &str) -> (r: Result<Handling, String>)
    ensures
        is_handling(r, item@, size_view(size), markup@),
{
    if is_svg_name(item.file_name.as_str()) {
        return Ok(Handling::Whole(parse_svg_dimensions(markup)));
    }
    let gif = has_suffix(to_lower_case(item.file_name.as_str()).as_str(), ".gif");
    match &item.crop_transform {
        Some(t) => if item.needs_cropping && !gif {
            return match size {
                Ok((w, h)) => {
                    let crop = crop_rectangle(t, w, h);
                    if crop.width == 0 || crop.height == 0 {
                        Ok(Handling::Whole((w, h)))
                    } else {
                        Ok(Handling::Cropped(crop))
                    }
                },
                Err(e) => Err(cat2("decoding downloaded image: ", e.as_str())),
            };
        },
        None => {},
    }
    Ok(
        Handling::Whole(
            match size {
                Ok(d) => d,
                Err(_) => (0, 0),
            },
        ),
    )
}

/// Decides what becomes of a downloaded file.
pub fn handle_file(item: &Item, bytes: &Vec<u8>) -> (r: Result<Handling, String>)
    ensures
        is_handling(r, item@, image_size(bytes@), text_of_bytes(bytes@)),
{
    if is_svg_name(item.file_name.as_str()) {
        let markup = read_text(bytes);
        proof {
            if is_utf8(bytes@) {
                utf8_tells_texts_apart(markup@, text_of_bytes(bytes@));
            }
        }
        return Ok(Handling::Whole(parse_svg_dimensions(markup.as_str())));
    }
    choose_handling(item, find_image_size(bytes), "")
}

/// A file that was written.
#[derive(Debug)]
pub struct DownloadResult {
    pub file_path: String,
    pub final_dims: (u32, u32),
    pub was_cropped: bool,
    pub css_vars: Option<String>,
    pub requested_names: Vec<String>,
}

/// A file that was written.
pub struct Written {
    pub path: Seq<char>,
    pub dims: (u32, u32),
    pub cropped: bool,
    pub vars: Option<Seq<char>>,
    pub names: Seq<Seq<char>>,
}

impl View for DownloadResult {
    type V = Written;

    open spec fn view(&self) -> Written {
        Written {
            path: self.file_path@,
            dims: self.final_dims,
            cropped: self.was_cropped,
            vars: opt_text(self.css_vars),
            names: views(self.requested_names@),
        }
    }
}

/// The models of a list of files.
pub open spec fn written_views(s: Seq<DownloadResult>) -> Seq<Written> {
    s.map_values(|r: DownloadResult| r@)
}

/// The size that a file is written with.
pub open spec fn handled_size(h: Handling) -> (u32, u32) {
    match h {
        Handling::Whole(d) => d,
        Handling::Cropped(c) => (c.width, c.height),
    }
}

/// A file that was written for an item.
pub open spec fn written_for(item: ItemModel, path: Seq<char>, h: Handling) -> Written {
    Written {
        path,
        dims: handled_size(h),
        cropped: h is Cropped,
        vars: if item.requires_dims {
            Some(size_vars(handled_size(h)))
        } else {
            None
        },
        names: item.names,
    }
}

fn copy_names(names: &Vec<String>) -> (r: Vec<String>)
    ensures
        views(r@) == views(names@),
{
    let mut out: Vec<String> = Vec::new();
    let mut i: usize = 0;
    while i < names.len()
        invariant
            i <= names.len(),
            out.len() == i,
            forall|k: int| 0 <= k < i ==> (#[trigger] out@[k])@ == names@[k]@,
        decreases names.len() - i,
    {
        out.push(names[i].clone());
        i += 1;
    }
    assert(views(out@) =~= views(names@));
    out
}

/// Describes a file that was written for an item.
pub fn describe_file(item: &Item, file_path: &str, handling: Handling) -> (r: DownloadResult)
    ensures
        r@ == written_for(item@, file_path@, handling),
{
    let (dims, cropped) = match handling {
        Handling::Whole(d) => (d, false),
        Handling::Cropped(c) => ((c.width, c.height), true),
    };
    let vars = if item.requires_dims {
        Some(css_vars(dims))
    } else {
        None
    };
    DownloadResult {
        file_path: file_path.to_owned(),
        final_dims: dims,
        was_cropped: cropped,
        css_vars: vars,
        requested_names: copy_names(&item.names),
    }
}

// ---------------------------------------------------------------------------
// Summary
// ---------------------------------------------------------------------------

/// The name of a file that was written.
pub open spec fn written_name(w: Written) -> Seq<char> {
    match last_name(w.path) {
        Some(n) => n,
        None => "?"@,
    }
}

/// The names among the first `n` other than `name`.
pub open spec fn other_names(names: Seq<Seq<char>>, name: Seq<char>, n: nat) -> Seq<Seq<char>>
    decreases n,
{
    if n == 0 {
        Seq::empty()
    } else if names[n - 1] == name {
        other_names(names, name, (n - 1) as nat)
    } else {
        other_names(names, name, (n - 1) as nat).push(names[n - 1])
    }
}

/// The line of a file in the summary.
pub open spec fn summary_line(w: Written) -> Seq<char> {
    let name = written_name(w);
    let dims = decimal(w.dims.0 as nat) + "x"@ + decimal(w.dims.1 as nat);
    let info = match w.vars {
        Some(v) => dims + " | "@ + v,
        None => dims,
    };
    let crop = if w.cropped {
        " (cropped)"@
    } else {
        ""@
    };
    let others = other_names(w.names, name, w.names.len());
    let alias = if others.len() == 0 {
        ""@
    } else {
        " (also requested as: "@ + joined(others, ", "@) + ")"@
    };
    "- "@ + name + ": "@ + info + crop + alias
}

/// The lines of the summary.
pub open spec fn summary_lines(results: Seq<Written>, missing: Seq<Seq<char>>) -> Seq<Seq<char>> {
    let lines = results.map_values(|w: Written| summary_line(w));
    if missing.len() == 0 {
        lines
    } else {
        lines.push("(missing URLs for: "@ + joined(missing, ", "@) + ")"@)
    }
}

/// The summary of a download, or the message for one without any image.
pub open spec fn summary(results: Seq<Written>, missing: Seq<Seq<char>>, requested: nat, path: Seq<char>) -> Result<
    Seq<char>,
    Seq<char>,
> {
    if results.len() == 0 {
        Err(
            "no images could be resolved ("@ + decimal(requested) + " requested, "@ + decimal(missing.len())
                + " missing URLs: "@ + joined(missing, ", "@)
                + "). The imageRef/gifRef values must come from the get-figma-data output for this file; node renders return null when the node cannot be exported."@,
        )
    } else {
        Ok(
            "Downloaded "@ + decimal(results.len()) + " images to `"@ + path + "`:\n"@ + joined(
                summary_lines(results, missing),
                "\n"@,
            ),
        )
    }
}

/// The model of the outcome of a download.
pub open spec fn summary_view(r: Result<String, String>) -> Result<Seq<char>, Seq<char>> {
    match r {
        Ok(s) => Ok(s@),
        Err(e) => Err(e@),
    }
}

fn keep_others(names: &Vec<String>, name: &str) -> (r: Vec<String>)
    ensures
        views(r@) == other_names(views(names@), name@, names@.len()),
{
    let ghost m = views(names@);
    let mut out: Vec<String> = Vec::new();
    let mut i: usize = 0;
    assert(views(out@) =~= Seq::empty());
    while i < names.len()
        invariant
            i <= names.len(),
            m == views(names@),
            views(out@) == other_names(m, name@, i as nat),
        decreases names.len() - i,
    {
        assert(m[i as int] == names@[i as int]@);
        if !same(names[i].as_str(), name) {
            let ghost before = views(out@);
            out.push(names[i].clone());
            assert(views(out@) =~= before.push(m[i as int]));
        }
        i += 1;
    }
    out
}

fn write_summary_line(w: &DownloadResult) -> (r: String)
    ensures
        r@ == summary_line(w@),
{
    let name = match last_name_of(w.file_path.as_str()) {
        Some(n) => n,
        None => "?".to_owned(),
    };
    let width = decimal_of(w.final_dims.0 as u128);
    let dims = cat3(width.as_str(), "x", decimal_of(w.final_dims.1 as u128).as_str());
    let info = match &w.css_vars {
        Some(v) => cat3(dims.as_str(), " | ", v.as_str()),
        None => dims,
    };
    let crop: &str = if w.was_cropped {
        " (cropped)"
    } else {
        ""
    };
    let others = keep_others(&w.requested_names, name.as_str());
    let alias = if others.len() == 0 {
        "".to_owned()
    } else {
        cat3(" (also requested as: ", join(&others, ", ").as_str(), ")")
    };
    let head = cat3("- ", name.as_str(), ": ");
    cat3(cat2(head.as_str(), info.as_str()).as_str(), crop, alias.as_str())
}

/// Sums up a download: a line for each file, and the names of the images that
/// have no URL. Without any file there is an error.
pub fn summarize(results: &Vec<DownloadResult>, missing: &Vec<String>, requested: usize, local_path: &str) -> (r: Result<
    String,
    String,
>)
    ensures
        summary_view(r) == summary(written_views(results@), views(missing@), requested as nat, local_path@),
{
    let listed = join(missing, ", ");
    if results.len() == 0 {
        let a = cat3("no images could be resolved (", decimal_of(requested as u128).as_str(), " requested, ");
        let b = cat3(a.as_str(), decimal_of(missing.len() as u128).as_str(), " missing URLs: ");
        return Err(
            cat3(
                b.as_str(),
                listed.as_str(),
                "). The imageRef/gifRef values must come from the get-figma-data output for this file; node renders return null when the node cannot be exported.",
            ),
        );
    }
    let ghost m = written_views(results@);
    let mut lines: Vec<String> = Vec::new();
    let mut i: usize = 0;
    while i < results.len()
        invariant
            i <= results.len(),
            m == written_views(results@),
            lines.len() == i,
            forall|k: int| 0 <= k < i ==> (#[trigger] lines@[k])@ == summary_line(m[k]),
        decreases results.len() - i,
    {
        lines.push(write_summary_line(&results[i]));
        i += 1;
    }
    if missing.len() > 0 {
        lines.push(cat3("(missing URLs for: ", listed.as_str(), ")"));
    }
    assert(views(lines@) =~= summary_lines(m, views(missing@)));
    let a = cat3("Downloaded ", decimal_of(results.len() as u128).as_str(), " images to `");
    let b = cat3(a.as_str(), local_path, "`:\n");
    Ok(cat2(b.as_str(), join(&lines, "\n").as_str()))
}

// ---------------------------------------------------------------------------
// Laws
// ---------------------------------------------------------------------------

/// A crop that is made lies inside the image.
pub proof fn crop_lies_inside(c: Crop, m: Matrix, w: nat, h: nat)
    requires
        is_crop(c, m, w, h),
        c.width > 0,
        c.height > 0,
    ensures
        c.left + c.width <= w,
        c.top + c.height <= h,
{
}

/// GIFs and SVG images are never cropped.
pub proof fn animations_and_drawings_stay_whole(item: ItemModel)
    requires
        ends_with(lower_case(item.file_name), ".gif"@) || svg_name(item.file_name),
    ensures
        !is_cropped(item),
{
}

/// Whether a request is for an image fill, without a suffix.
pub open spec fn plain_image(r: Request, image: Seq<char>) -> bool {
    r.gif_ref is None && r.image_ref == Some(image) && r.filename_suffix is None
}

/// Whether an item downloads an image fill, under the names of the requests
/// for it without a suffix among the first `n`.
pub open spec fn serves(item: ItemModel, r: Seq<Request>, image: Seq<char>, n: nat) -> bool {
    &&& item.source == Origin::Image(image)
    &&& forall|k: int| 0 <= k < n && plain_image(#[trigger] r[k], image) ==> item.names.contains(r[k].file_name)
}

proof fn lemma_place_push(seen: Seq<(Seq<char>, nat)>, x: (Seq<char>, nat), key: Seq<char>, n: nat)
    requires
        n <= seen.len(),
    ensures
        place_of(seen.push(x), key, n) == place_of(seen, key, n),
    decreases n,
{
    if n > 0 {
        assert(seen.push(x)[n - 1] == seen[n - 1]);
        lemma_place_push(seen, x, key, (n - 1) as nat);
    }
}

/// The requests for an image fill without a suffix are served by one item,
/// under all of their names: the fill is downloaded once.
pub proof fn image_is_downloaded_once(r: Seq<Request>, image: Seq<char>, n: nat)
    requires
        n <= r.len(),
        exists|k: int| 0 <= k < n && plain_image(#[trigger] r[k], image),
    ensures
        ({
            let p = plan_upto(r, n);
            &&& place_of(p.seen, image, p.seen.len()) matches Some(at)
            &&& at < p.items.len()
            &&& serves(p.items[at as int], r, image, n)
            &&& forall|x: Request|
                plain_image(x, image) ==> (#[trigger] with_request(p, x)).items.len() == p.items.len()
        }),
    decreases n,
{
    let m = (n - 1) as nat;
    let p = plan_upto(r, m);
    let q = plan_upto(r, n);
    let x = r[n - 1];
    lemma_places_fit(r, m);
    lemma_places_fit(r, n);
    if exists|k: int| 0 <= k < m && plain_image(#[trigger] r[k], image) {
        image_is_downloaded_once(r, image, m);
        let at = place_of(p.seen, image, p.seen.len())->0;
        if x.gif_ref is None && x.image_ref is Some {
            let other = x.image_ref->0;
            lemma_place_push(p.seen, (other, p.items.len()), image, p.seen.len());
            lemma_place(p.seen, other, p.seen.len());
            lemma_place(p.seen, image, p.seen.len());
        }
        assert(place_of(q.seen, image, q.seen.len()) == Some(at));
        let before = p.items[at as int];
        let after = q.items[at as int];
        assert(after.source == before.source);
        assert forall|k: int| 0 <= k < n && plain_image(#[trigger] r[k], image) implies after.names.contains(
            r[k].file_name,
        ) by {
            if k < m {
                assert(before.names.contains(r[k].file_name));
                let j = choose|j: int| 0 <= j < before.names.len() && before.names[j] == r[k].file_name;
                assert(after.names[j] == r[k].file_name);
            } else {
                if !before.names.contains(x.file_name) {
                    assert(after.names.last() == x.file_name);
                }
            }
        }
    } else {
        let k = choose|k: int| 0 <= k < n && plain_image(#[trigger] r[k], image);
        assert(k == m);
        lemma_no_place(r, image, m);
        assert(q.seen.last() == (image, p.items.len()));
        assert(q.items.last() == item_for(x, Origin::Image(image)));
        assert(q.items.last().names[0] == x.file_name);
    }
}

proof fn lemma_no_place(r: Seq<Request>, image: Seq<char>, n: nat)
    requires
        n <= r.len(),
        forall|k: int| 0 <= k < n ==> !plain_image(#[trigger] r[k], image),
    ensures
        place_of(plan_upto(r, n).seen, image, plan_upto(r, n).seen.len()) is None,
    decreases n,
{
    if n > 0 {
        let p = plan_upto(r, (n - 1) as nat);
        let x = r[n - 1];
        lemma_no_place(r, image, (n - 1) as nat);
        if x.gif_ref is None && x.image_ref is Some {
            lemma_place_push(p.seen, (x.image_ref->0, p.items.len()), image, p.seen.len());
        }
    }
}

/// A request for an image fill with a suffix is an item of its own, and changes
/// no other.
pub proof fn suffixed_fills_stay_apart(p: Plan, r: Request)
    requires
        r.gif_ref is None,
        r.image_ref is Some,
        r.filename_suffix is Some,
    ensures
        with_request(p, r).items == p.items.push(item_for(r, Origin::Image(r.image_ref->0))),
        with_request(p, r).seen == p.seen,
{
}

proof fn lemma_char_shift(head: Seq<char>, s: Seq<char>, tail: Seq<char>, c: char, k: int)
    requires
        0 <= k,
        char_from(s, c, k) is Some,
    ensures
        char_from(head + s + tail, c, head.len() + k) == Some(head.len() + char_from(s, c, k)->0),
    decreases s.len() - k,
{
    assert((head + s + tail)[head.len() + k] == s[k]);
    if s[k] != c {
        lemma_char_shift(head, s, tail, c, k + 1);
    }
}

proof fn lemma_space_shift(head: Seq<char>, s: Seq<char>, tail: Seq<char>, k: int)
    requires
        0 <= k,
        past_space(s, k) < s.len(),
    ensures
        past_space(head + s + tail, head.len() + k) == head.len() + past_space(s, k),
    decreases s.len() - k,
{
    lemma_past_space(s, k);
    assert((head + s + tail)[head.len() + k] == s[k]);
    if white_space(s[k]) {
        lemma_space_shift(head, s, tail, k + 1);
    }
}

/// Whether a quoted value that begins at the equals sign at `i` is closed.
pub open spec fn value_is_closed(s: Seq<char>, i: int) -> bool {
    let open = past_space(s, i + 1);
    s[i] == '=' ==> open < s.len() && (quote(s[open]) ==> char_from(s, s[open], open + 1) is Some)
}

/// Whether the tag that `i` lies in ends, and each quoted value before its end
/// is closed.
pub open spec fn tag_is_closed(s: Seq<char>, i: int) -> bool
    decreases s.len() - i,
{
    if i < 0 || i >= s.len() {
        false
    } else if s[i] == '>' {
        true
    } else {
        proof {
            lemma_past_value(s, i);
        }
        value_is_closed(s, i) && tag_is_closed(s, past_value(s, i))
    }
}

proof fn lemma_tag_shift(head: Seq<char>, s: Seq<char>, tail: Seq<char>, i: int)
    requires
        tag_is_closed(s, i),
    ensures
        tag_end(s, i) matches Some(j) && i <= j < s.len() && tag_end(head + s + tail, head.len() + i) == Some(
            head.len() + j,
        ),
    decreases s.len() - i,
{
    let all = head + s + tail;
    assert(all[head.len() + i] == s[i]);
    if s[i] != '>' {
        let open = past_space(s, i + 1);
        lemma_past_value(s, i);
        lemma_past_space(s, i + 1);
        if s[i] == '=' {
            lemma_space_shift(head, s, tail, i + 1);
            assert(all[head.len() + open] == s[open]);
            if quote(s[open]) {
                lemma_char_shift(head, s, tail, s[open], open + 1);
            }
        }
        assert(past_value(all, head.len() + i) == head.len() + past_value(s, i));
        lemma_tag_shift(head, s, tail, past_value(s, i));
    }
}

proof fn lemma_find_shift(all: Seq<char>, p: Seq<char>, k: int, j: int)
    requires
        0 <= k <= j,
        stands_at(all, p, j),
        forall|q: int| k <= q < j ==> !stands_at(all, p, q),
    ensures
        find_from(all, p, k) == Some(j),
    decreases j - k,
{
    if k < j {
        assert(!stands_at(all, p, k));
        lemma_find_shift(all, p, k + 1, j);
    }
}

/// Only the opening tag tells the size of an SVG image: what stands in front of
/// it, without another `<`, and what stands behind it do not matter, as long as
/// the tag ends and each quoted value in it is closed.
pub proof fn only_the_opening_tag_tells_the_size(head: Seq<char>, s: Seq<char>, tail: Seq<char>)
    requires
        !head.contains('<'),
        find(s, "<svg"@) matches Some(i) && tag_is_closed(s, i),
    ensures
        svg_tag(head + s + tail) == svg_tag(s),
        svg_size(head + s + tail) == svg_size(s),
{
    let all = head + s + tail;
    let h = head.len() as int;
    let p = "<svg"@;
    reveal_strlit("<svg");
    let i = find(s, p)->0;
    lemma_found(s, p, 0);
    assert(all.subrange(h + i, h + i + p.len()) =~= s.subrange(i, i + p.len()));
    assert forall|q: int| 0 <= q < h + i implies !stands_at(all, p, q) by {
        if stands_at(all, p, q) {
            if q < h {
                assert(all.subrange(q, q + p.len())[0] == head[q]);
                assert(p[0] == '<');
                assert(head.contains(head[q]));
            } else {
                assert(all.subrange(q, q + p.len()) =~= s.subrange(q - h, q - h + p.len()));
                assert(stands_at(s, p, q - h));
            }
        }
    }
    lemma_find_shift(all, p, 0, h + i);
    lemma_tag_shift(head, s, tail, i);
    let j = tag_end(s, i)->0;
    assert(all.subrange(h + i, h + j + 1) =~= s.subrange(i, j + 1));
}

/// Every node that the plan renders is asked for in its format, and nothing else
/// is asked for.
pub proof fn every_rendered_node_is_asked_for(items: Seq<ItemModel>, svg: bool)
    ensures
        forall|i: int|
            0 <= i < items.len() && (#[trigger] items[i]).source is Node && svg_name(items[i].file_name) == svg
                ==> render_ids(items, svg, items.len()).contains(items[i].source->Node_0),
        forall|id: Seq<char>| #[trigger]
            render_ids(items, svg, items.len()).contains(id) ==> exists|i: int|
                0 <= i < items.len() && (#[trigger] items[i]).source == Origin::Node(id) && svg_name(
                    items[i].file_name,
                ) == svg,
{
    lemma_rendered(items, svg, items.len());
}

proof fn lemma_rendered(items: Seq<ItemModel>, svg: bool, n: nat)
    requires
        n <= items.len(),
    ensures
        forall|i: int|
            0 <= i < n && (#[trigger] items[i]).source is Node && svg_name(items[i].file_name) == svg ==> render_ids(
                items,
                svg,
                n,
            ).contains(items[i].source->Node_0),
        forall|id: Seq<char>| #[trigger]
            render_ids(items, svg, n).contains(id) ==> exists|i: int|
                0 <= i < n && (#[trigger] items[i]).source == Origin::Node(id) && svg_name(items[i].file_name) == svg,
    decreases n,
{
    if n > 0 {
        lemma_rendered(items, svg, (n - 1) as nat);
        let before = render_ids(items, svg, (n - 1) as nat);
        let all = render_ids(items, svg, n);
        let last = items[n - 1];
        if last.source is Node && svg_name(last.file_name) == svg {
            assert(all == before.push(last.source->Node_0));
            assert(all[before.len() as int] == last.source->Node_0);
        }
        assert forall|i: int|
            0 <= i < n && (#[trigger] items[i]).source is Node && svg_name(items[i].file_name) == svg implies all.contains(
            items[i].source->Node_0,
        ) by {
            if i < n - 1 {
                let id = items[i].source->Node_0;
                assert(before.contains(id));
                let k = choose|k: int| 0 <= k < before.len() && before[k] == id;
                assert(all[k] == id);
            }
        }
        assert forall|id: Seq<char>| #[trigger] all.contains(id) implies exists|i: int|
            0 <= i < n && (#[trigger] items[i]).source == Origin::Node(id) && svg_name(items[i].file_name) == svg by {
            let k = choose|k: int| 0 <= k < all.len() && all[k] == id;
            if k < before.len() {
                assert(before[k] == id);
                assert(before.contains(id));
            } else {
                assert(items[n - 1].source == Origin::Node(id));
            }
        }
    }
}

} // verus!
