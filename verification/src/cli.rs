//! The command line: its arguments as plain values, and the rules on them.

use vstd::prelude::*;

use crate::float::Double;
use crate::images::{
    lemma_place, lemma_places_fit, plan_upto, requests, suffixed, svg_name, DownloadNode, Request,
};
use crate::json::text_is;
use crate::outside::{ascii_lower, debug_quote, debug_quoted};
use crate::serialize::OutputFormat;
use crate::strings::{
    ascii_alnum, cat2, cat3, chars_of, ends_with, has_suffix, is_ascii_alnum, last_before, last_of, opt_text, replace_char,
    replaced, same,
};

verus! {

/// The command line.
#[derive(Debug)]
pub struct Cli {
    pub figma_api_key: Option<String>,
    pub figma_oauth_token: Option<String>,
    pub env: Option<String>,
    pub proxy: Option<String>,
    pub verbose: bool,
    pub command: Command,
}

/// What to do.
#[derive(Debug)]
pub enum Command {
    GetFigmaData(GetFigmaDataArgs),
    DownloadImages(DownloadImagesArgs),
    ParseUrl(ParseUrlArgs),
}

/// The arguments of a fetch.
#[derive(Debug)]
pub struct GetFigmaDataArgs {
    pub url: Option<String>,
    pub file_key: Option<String>,
    pub node_id: Option<String>,
    pub depth: Option<u32>,
    pub format: Option<String>,
    pub json: bool,
    pub output: Option<String>,
}

/// The arguments of a download.
#[derive(Debug)]
pub struct DownloadImagesArgs {
    pub file_key: String,
    pub nodes_json: Option<String>,
    pub nodes_file: Option<String>,
    pub local_path: String,
    pub image_dir: Option<String>,
    pub png_scale: Double,
}

/// The arguments of the URL helper.
#[derive(Debug)]
pub struct ParseUrlArgs {
    pub url: String,
}

/// Which proxy to use: the one of the environment, none, or an explicit one.
pub open spec fn proxy_choice(proxy: Option<Seq<char>>) -> Option<Option<Seq<char>>> {
    match proxy {
        None => None,
        Some(p) => if p == "none"@ {
            Some(None)
        } else {
            Some(Some(p))
        },
    }
}

/// The texts of a proxy choice.
pub open spec fn choice_view(r: Result<Option<Option<String>>, String>) -> Result<Option<Option<Seq<char>>>, Seq<char>> {
    match r {
        Ok(None) => Ok(None),
        Ok(Some(u)) => Ok(Some(opt_text(u))),
        Err(e) => Err(e@),
    }
}

impl Cli {
    /// The proxy to use: `None` leaves it to the environment, `Some(None)` is a
    /// direct connection, `Some(Some(url))` an explicit proxy.
    pub fn proxy_config(&self) -> (r: Result<Option<Option<String>>, String>)
        ensures
            choice_view(r) == Ok::<Option<Option<Seq<char>>>, Seq<char>>(proxy_choice(opt_text(self.proxy))),
    {
        match &self.proxy {
            None => Ok(None),
            Some(p) => if same(p.as_str(), "none") {
                Ok(Some(None))
            } else {
                Ok(Some(Some(p.clone())))
            },
        }
    }
}

/// The format that a `--format` value and the `--json` flag ask for: an
/// explicit `json` or `yaml` wins over the flag, and a tree is the default.
pub open spec fn chosen_format(format: Option<Seq<char>>, json: bool) -> OutputFormat {
    if format == Some("json"@) {
        OutputFormat::Json
    } else if format == Some("yaml"@) {
        OutputFormat::Yaml
    } else if json && (format is None || format == Some("tree"@)) {
        OutputFormat::Json
    } else {
        OutputFormat::Tree
    }
}

impl GetFigmaDataArgs {
    /// The output format.
    pub fn format(&self) -> (r: OutputFormat)
        ensures
            r == chosen_format(opt_text(self.format), self.json),
    {
        let given: Option<&str> = match &self.format {
            Some(f) => Some(f.as_str()),
            None => None,
        };
        if text_is(given, "json") {
            OutputFormat::Json
        } else if text_is(given, "yaml") {
            OutputFormat::Yaml
        } else if self.json && (given.is_none() || text_is(given, "tree")) {
            OutputFormat::Json
        } else {
            OutputFormat::Tree
        }
    }
}

/// The characters of a file name.
pub open spec fn file_name_char(c: char) -> bool {
    ascii_alnum(c) || c == '_' || c == '.' || c == '-'
}

/// A file name is at most 200 letters, digits, `_`, `.` and `-`, and at least
/// one of them stands before its extension.
pub open spec fn valid_file_name(name: Seq<char>) -> bool {
    &&& ends_with(name, ".png"@) || ends_with(name, ".svg"@) || ends_with(name, ".gif"@)
    &&& forall|i: int| 0 <= i < name.len() ==> file_name_char(#[trigger] name[i])
    &&& 4 < name.len() <= 200
}

/// A unit, or the message of an error.
pub open spec fn check_view(r: Result<(), String>) -> Result<(), Seq<char>> {
    match r {
        Ok(u) => Ok(u),
        Err(e) => Err(e@),
    }
}

/// The outcome of the check of a file name.
pub open spec fn file_name_check(name: Seq<char>) -> Result<(), Seq<char>> {
    if valid_file_name(name) {
        Ok(())
    } else {
        Err(
            "invalid fileName "@ + debug_quoted(name)
                + ": use only letters, numbers, _, . or - and end with .png, .svg or .gif"@,
        )
    }
}

/// Accepts the names of the image files that a download may write.
pub fn validate_file_name(name: &str) -> (r: Result<(), String>)
    ensures
        check_view(r) == file_name_check(name@),
{
    let chars = chars_of(name);
    let mut ok = 4 < chars.len() && chars.len() <= 200 && (has_suffix(name, ".png") || has_suffix(name, ".svg")
        || has_suffix(name, ".gif"));
    let mut i: usize = 0;
    while ok && i < chars.len()
        invariant
            i <= chars.len(),
            chars@ == name@,
            ok ==> 4 < name@.len() <= 200 && (ends_with(name@, ".png"@) || ends_with(name@, ".svg"@) || ends_with(
                name@,
                ".gif"@,
            )) && (forall|j: int| 0 <= j < i ==> file_name_char(#[trigger] name@[j])),
            !ok ==> !valid_file_name(name@),
        decreases chars.len() - i, ok as int,
    {
        let c = chars[i];
        if is_ascii_alnum(c) || c == '_' || c == '.' || c == '-' {
            i += 1;
        } else {
            assert(!file_name_char(name@[i as int]));
            ok = false;
        }
    }
    if ok {
        Ok(())
    } else {
        Err(
            cat3(
                "invalid fileName ",
                debug_quote(name).as_str(),
                ": use only letters, numbers, _, . or - and end with .png, .svg or .gif",
            ),
        )
    }
}

/// A file name suffix is a non-empty word of letters, digits, `_` and `-`.
pub open spec fn valid_suffix(s: Seq<char>) -> bool {
    s.len() > 0 && (forall|i: int| 0 <= i < s.len() ==> ascii_alnum(#[trigger] s[i]) || s[i] == '_' || s[i] == '-')
}

/// Accepts file name suffixes.
pub fn is_valid_suffix(s: &str) -> (r: bool)
    ensures
        r == valid_suffix(s@),
{
    let chars = chars_of(s);
    let mut i: usize = 0;
    while i < chars.len()
        invariant
            i <= chars.len(),
            chars@ == s@,
            forall|j: int| 0 <= j < i ==> ascii_alnum(#[trigger] s@[j]) || s@[j] == '_' || s@[j] == '-',
        decreases chars.len() - i,
    {
        let c = chars[i];
        if !(is_ascii_alnum(c) || c == '_' || c == '-') {
            return false;
        }
        i += 1;
    }
    chars.len() > 0
}

/// Where the JSON text of the requests stands: on the command line, or in a
/// file.
#[derive(Debug)]
pub enum NodesSource {
    Inline(String),
    File(String),
}

/// A request with colons in its node id.
pub open spec fn with_colons(r: Request) -> Request {
    Request { node_id: replaced(r.node_id, '-', ':'), ..r }
}

/// The fault of a request: its file name, else its suffix.
pub open spec fn request_fault(r: Request) -> Option<Seq<char>> {
    match file_name_check(r.file_name) {
        Err(e) => Some(e),
        Ok(_) => match r.filename_suffix {
            Some(s) => if valid_suffix(s) {
                None
            } else {
                Some("invalid filenameSuffix "@ + debug_quoted(s) + ": use only letters, numbers, _ or -"@)
            },
            None => None,
        },
    }
}

/// Whether the request at `i` is the first with a fault, and `e` is the fault.
pub open spec fn is_first_fault(r: Seq<Request>, i: int, e: Seq<char>) -> bool {
    &&& 0 <= i < r.len()
    &&& request_fault(r[i]) == Some(e)
    &&& forall|k: int| 0 <= k < i ==> request_fault(#[trigger] r[k]) is None
}

/// Whether `e` is the first fault.
pub open spec fn first_fault(r: Seq<Request>, e: Seq<char>) -> bool {
    exists|i: int| #[trigger] is_first_fault(r, i, e)
}

/// The message for a download without any request.
pub open spec fn nodes_missing() -> Seq<char> {
    "either --nodes-json or --nodes-file is required"@
}

/// Whether `out` is what requests come to: with colons in their ids where none
/// has a fault, else the first fault.
pub open spec fn loaded(r: Seq<Request>, out: Result<Seq<Request>, Seq<char>>) -> bool {
    match out {
        Ok(s) => {
            &&& r.len() > 0
            &&& forall|k: int| 0 <= k < r.len() ==> request_fault(#[trigger] r[k]) is None
            &&& s == r.map_values(|x: Request| with_colons(x))
        },
        Err(e) => if r.len() == 0 {
            e == "nodes array is empty"@
        } else {
            first_fault(r, e)
        },
    }
}

/// The model of loaded requests.
pub open spec fn loaded_view(r: Result<Vec<DownloadNode>, String>) -> Result<Seq<Request>, Seq<char>> {
    match r {
        Ok(v) => Ok(requests(v@)),
        Err(e) => Err(e@),
    }
}

fn find_fault(n: &DownloadNode) -> (r: Option<String>)
    ensures
        opt_text(r) == request_fault(n@),
{
    match validate_file_name(n.file_name.as_str()) {
        Err(e) => Some(e),
        Ok(_) => match &n.filename_suffix {
            Some(s) => if is_valid_suffix(s.as_str()) {
                None
            } else {
                Some(
                    cat3(
                        "invalid filenameSuffix ",
                        debug_quote(s.as_str()).as_str(),
                        ": use only letters, numbers, _ or -",
                    ),
                )
            },
            None => None,
        },
    }
}

impl DownloadImagesArgs {
    /// Where the JSON text of the requests stands. The command line wins over a
    /// file; without both there is an error.
    pub fn nodes_source(&self) -> (r: Result<NodesSource, String>)
        ensures
            match (opt_text(self.nodes_json), opt_text(self.nodes_file)) {
                (Some(j), _) => r matches Ok(NodesSource::Inline(s)) && s@ == j,
                (None, Some(p)) => r matches Ok(NodesSource::File(s)) && s@ == p,
                (None, None) => r matches Err(e) && e@ == nodes_missing(),
            },
    {
        match &self.nodes_json {
            Some(j) => Ok(NodesSource::Inline(j.clone())),
            None => match &self.nodes_file {
                Some(p) => Ok(NodesSource::File(p.clone())),
                None => Err("either --nodes-json or --nodes-file is required".to_owned()),
            },
        }
    }

    /// Checks the requests that were read, and writes their node ids with
    /// colons. The first fault is the error; so is an empty list.
    pub fn load_nodes(&self, read: Vec<DownloadNode>) -> (r: Result<Vec<DownloadNode>, String>)
        ensures
            if self.nodes_json is None && self.nodes_file is None {
                r matches Err(e) && e@ == nodes_missing()
            } else {
                loaded(requests(read@), loaded_view(r))
            },
    {
        if self.nodes_json.is_none() && self.nodes_file.is_none() {
            return Err("either --nodes-json or --nodes-file is required".to_owned());
        }
        if read.len() == 0 {
            return Err("nodes array is empty".to_owned());
        }
        let ghost m = requests(read@);
        let mut left = read;
        let mut out: Vec<DownloadNode> = Vec::new();
        let mut i: usize = 0;
        assert(m.skip(0) =~= m);
        while left.len() > 0
            invariant
                i + left.len() == m.len(),
                out.len() == i,
                requests(left@) == m.skip(i as int),
                forall|k: int| 0 <= k < i ==> request_fault(#[trigger] m[k]) is None,
                forall|k: int| 0 <= k < i ==> (#[trigger] out@[k])@ == with_colons(m[k]),
                m == requests(read@),
                m.len() > 0,
                self.nodes_json is Some || self.nodes_file is Some,
                m.len() <= usize::MAX,
            decreases left.len(),
        {
            let ghost before = left@;
            let n = left.remove(0);
            assert(m[i as int] == n@) by {
                assert(requests(before)[0] == m.skip(i as int)[0]);
            }
            assert(requests(left@) =~= m.skip(i + 1)) by {
                assert forall|k: int| 0 <= k < left@.len() implies requests(left@)[k] == m.skip(i + 1)[k] by {
                    assert(requests(before)[k + 1] == m.skip(i as int)[k + 1]);
                }
            }
            if let Some(e) = find_fault(&n) {
                assert(is_first_fault(m, i as int, e@));
                assert(first_fault(m, e@));
                return Err(e);
            }
            let node_id = replace_char(n.node_id.as_str(), '-', ':');
            out.push(DownloadNode { node_id, ..n });
            i += 1;
        }
        assert(requests(out@) =~= m.map_values(|x: Request| with_colons(x)));
        Ok(out)
    }

    /// The base directory of the downloads: the given one, else the current
    /// directory, which may be unknown.
    pub fn image_dir(&self, current: Result<String, String>) -> (r: Result<String, String>)
        ensures
            match (opt_text(self.image_dir), current) {
                (Some(d), _) => r matches Ok(s) && s@ == d,
                (None, Ok(c)) => r matches Ok(s) && s@ == c@,
                (None, Err(f)) => r matches Err(e) && e@ == "resolving cwd: "@ + f@,
            },
    {
        match &self.image_dir {
            Some(d) => Ok(d.clone()),
            None => match current {
                Ok(c) => Ok(c),
                Err(f) => Err(cat2("resolving cwd: ", f.as_str())),
            },
        }
    }

    /// The message for a local path that is refused. `shown` is the base
    /// directory as it is shown.
    pub fn local_path_error(&self, fault: &str, shown: &str) -> (r: String)
        ensures
            r@ == "invalid --local-path "@ + debug_quoted(self.local_path@) + ": "@ + fault@ + " (image dir is "@ + shown@
                + "; pass a path relative to it, e.g. \"public/images\")"@,
    {
        let a = cat3("invalid --local-path ", debug_quote(self.local_path.as_str()).as_str(), ": ");
        let b = cat3(a.as_str(), fault, " (image dir is ");
        cat3(b.as_str(), shown, "; pass a path relative to it, e.g. \"public/images\")")
    }
}

/// An accepted file name is a single path component: it has no separator and
/// is neither `.` nor `..`.
pub proof fn accepted_file_name(name: Seq<char>)
    ensures
        valid_file_name(name) ==> {
            &&& !name.contains('/')
            &&& !name.contains('\\')
            &&& name != "."@
            &&& name != ".."@
            &&& name.len() > 0
        },
{
    reveal_strlit(".");
    reveal_strlit("..");
    if valid_file_name(name) {
        assert(!file_name_char('/'));
        assert(!file_name_char('\\'));
        assert(forall|i: int| 0 <= i < name.len() ==> file_name_char(name[i]));
    }
}

/// Whether a name has one of the extensions of an image.
pub open spec fn image_name(name: Seq<char>) -> bool {
    ends_with(name, ".png"@) || ends_with(name, ".svg"@) || ends_with(name, ".gif"@)
}

/// Whether a name has the characters of a file name and the extension of an
/// image, and is an SVG image exactly where the extension says so.
pub open spec fn plain_name(name: Seq<char>) -> bool {
    &&& image_name(name)
    &&& forall|i: int| 0 <= i < name.len() ==> file_name_char(#[trigger] name[i])
    &&& svg_name(name) == ends_with(name, ".svg"@)
}

proof fn lemma_extensions()
    ensures
        ".png"@ =~= seq!['.', 'p', 'n', 'g'],
        ".svg"@ =~= seq!['.', 's', 'v', 'g'],
        ".gif"@ =~= seq!['.', 'g', 'i', 'f'],
{
    reveal_strlit(".png");
    reveal_strlit(".svg");
    reveal_strlit(".gif");
}

proof fn lemma_ending(name: Seq<char>, ext: Seq<char>)
    requires
        ext.len() == 4,
    ensures
        ends_with(name, ext) <==> name.len() >= 4 && name[name.len() - 4] == ext[0] && name[name.len() - 3] == ext[1]
            && name[name.len() - 2] == ext[2] && name[name.len() - 1] == ext[3],
{
    let n = name.len() as int;
    if n >= 4 {
        let tail = name.subrange(n - 4, n);
        assert(tail =~= seq![name[n - 4], name[n - 3], name[n - 2], name[n - 1]]);
        assert(ext =~= seq![ext[0], ext[1], ext[2], ext[3]]);
        if tail == ext {
            assert(tail[0] == ext[0] && tail[1] == ext[1] && tail[2] == ext[2] && tail[3] == ext[3]);
        }
    }
}

proof fn lemma_plain(name: Seq<char>)
    requires
        image_name(name),
        forall|i: int| 0 <= i < name.len() ==> file_name_char(#[trigger] name[i]),
    ensures
        plain_name(name),
{
    lemma_extensions();
    lemma_ending(name, ".png"@);
    lemma_ending(name, ".svg"@);
    lemma_ending(name, ".gif"@);
    assert forall|i: int| 0 <= i < name.len() implies (#[trigger] name[i] as u32) < 128 by {
        assert(file_name_char(name[i]));
    }
    lemma_ending(ascii_lower(name), ".svg"@);
}

/// The file that a request without a fault writes has a plain name, with or
/// without a suffix.
pub proof fn written_name_is_plain(r: Request)
    requires
        request_fault(r) is None,
    ensures
        plain_name(suffixed(r.file_name, r.filename_suffix)),
{
    let name = r.file_name;
    let n = name.len() as int;
    lemma_extensions();
    lemma_ending(name, ".png"@);
    lemma_ending(name, ".svg"@);
    lemma_ending(name, ".gif"@);
    if let Some(s) = r.filename_suffix {
        reveal_strlit("-");
        reveal_strlit(".");
        reveal_with_fuel(last_before, 5);
        assert(last_of(name, '.') == Some(n - 4));
        let tail = name.subrange(n - 3, n);
        let long = name.subrange(0, n - 4) + "-"@ + s + "."@ + tail;
        let k = long.len() as int;
        assert(long[k - 4] == '.' && long[k - 3] == tail[0] && long[k - 2] == tail[1] && long[k - 1] == tail[2]);
        lemma_ending(long, ".png"@);
        lemma_ending(long, ".svg"@);
        lemma_ending(long, ".gif"@);
        assert forall|i: int| 0 <= i < long.len() implies file_name_char(#[trigger] long[i]) by {
            if i < n - 4 {
                assert(long[i] == name[i]);
            } else if i == n - 4 {
                assert(long[i] == '-');
            } else if i < n - 3 + s.len() {
                assert(long[i] == s[i - (n - 3)]);
            } else if i < k - 3 {
                assert(long[i] == '.');
            } else {
                assert(long[i] == name[n - (k - i)]);
            }
        }
        lemma_plain(long);
    }
    lemma_plain(name);
}

/// Each file that is planned for requests without a fault has a plain name.
pub proof fn planned_names_are_plain(r: Seq<Request>, n: nat)
    requires
        n <= r.len(),
        forall|k: int| 0 <= k < r.len() ==> request_fault(#[trigger] r[k]) is None,
    ensures
        forall|i: int| 0 <= i < plan_upto(r, n).items.len() ==> plain_name((#[trigger] plan_upto(r, n).items[i]).file_name),
    decreases n,
{
    if n > 0 {
        let p = plan_upto(r, (n - 1) as nat);
        let q = plan_upto(r, n);
        planned_names_are_plain(r, (n - 1) as nat);
        lemma_places_fit(r, (n - 1) as nat);
        if let Some(image) = r[n - 1].image_ref {
            lemma_place(p.seen, image, p.seen.len());
        }
        assert(request_fault(r[n - 1]) is None);
        written_name_is_plain(r[n - 1]);
        assert forall|i: int| 0 <= i < q.items.len() implies plain_name((#[trigger] q.items[i]).file_name) by {
            if i < p.items.len() {
                assert(q.items[i].file_name == p.items[i].file_name);
                assert(plain_name(p.items[i].file_name));
            }
        }
    }
}

/// A name of letters, digits, underscores, dots and dashes in front of the extension
/// of an image is accepted, as long as it is not too long.
pub proof fn plain_names_are_accepted(base: Seq<char>, extension: Seq<char>)
    requires
        extension == ".png"@ || extension == ".svg"@ || extension == ".gif"@,
        1 <= base.len() <= 196,
        forall|i: int|
            0 <= i < base.len() ==> ascii_alnum(#[trigger] base[i]) || base[i] == '_' || base[i] == '.' || base[i] == '-',
    ensures
        file_name_check(base + extension) == Ok::<(), Seq<char>>(()),
{
    let name = base + extension;
    reveal_strlit(".png");
    reveal_strlit(".svg");
    reveal_strlit(".gif");
    assert(name.subrange(base.len() as int, name.len() as int) =~= extension);
    assert forall|i: int| 0 <= i < name.len() implies file_name_char(#[trigger] name[i]) by {
        if i < base.len() {
            assert(name[i] == base[i]);
        } else {
            assert(name[i] == extension[i - base.len()]);
        }
    }
}

} // verus!
