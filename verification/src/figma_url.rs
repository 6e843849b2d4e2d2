//! Figma URLs: only `/file/` and `/design/` links carry a file key, and node
//! ids are written with dashes in URLs and with colons everywhere else.

use vstd::prelude::*;

use crate::outside::{
    debug_quote, debug_quoted, find_url_fault, find_url_host, find_url_query, find_url_segments, url_fault, url_host,
    url_query, url_segments,
};
use crate::strings::{
    alnum_word, cat2, cat3, ends_with, has_suffix, is_alnum_word, opt_text, opt_texts, pair_views, replace_char,
    replaced, same, views,
};

verus! {

/// What a Figma URL names.
#[derive(Debug)]
pub struct FigmaUrlParts {
    pub file_key: String,
    pub node_id: Option<String>,
}

/// A file key and a node id, or the message of an error.
pub type Parts = Result<(Seq<char>, Option<Seq<char>>), Seq<char>>;

/// The model of a result.
pub open spec fn parts_view(r: Result<FigmaUrlParts, String>) -> Parts {
    match r {
        Ok(p) => Ok((p.file_key@, opt_text(p.node_id))),
        Err(e) => Err(e@),
    }
}

pub open spec fn figma_host(host: Seq<char>) -> bool {
    host == "figma.com"@ || ends_with(host, ".figma.com"@)
}

/// The segment at `i`, or the empty text.
pub open spec fn segment(segments: Seq<Seq<char>>, i: int) -> Seq<char> {
    if 0 <= i < segments.len() {
        segments[i]
    } else {
        ""@
    }
}

/// The value of the first pair from `i` on with key `k`.
pub open spec fn first_value(pairs: Seq<(Seq<char>, Seq<char>)>, k: Seq<char>, i: int) -> Option<Seq<char>>
    decreases pairs.len() - i,
{
    if i < 0 || i >= pairs.len() {
        None
    } else if pairs[i].0 == k {
        Some(pairs[i].1)
    } else {
        first_value(pairs, k, i + 1)
    }
}

/// The node id in a query, with colons; an empty one counts as none.
pub open spec fn queried_node(pairs: Seq<(Seq<char>, Seq<char>)>) -> Option<Seq<char>> {
    match first_value(pairs, "node-id"@, 0) {
        Some(v) => if v.len() == 0 {
            None
        } else {
            Some(replaced(v, '-', ':'))
        },
        None => None,
    }
}

/// What a URL with this host, these path segments and this query names.
pub open spec fn parts_of(
    input: Seq<char>,
    host: Option<Seq<char>>,
    segments: Option<Seq<Seq<char>>>,
    query: Seq<(Seq<char>, Seq<char>)>,
) -> Parts {
    let named = match host {
        Some(h) => h,
        None => ""@,
    };
    if !figma_host(named) {
        Err("not a Figma URL: "@ + input)
    } else {
        match segments {
            None => Err("URL has no path: "@ + input),
            Some(s) => if (segment(s, 0) == "file"@ || segment(s, 0) == "design"@) && alnum_word(segment(s, 1)) {
                Ok((segment(s, 1), queried_node(query)))
            } else {
                Err(
                    "could not extract file key from Figma URL: "@ + input
                        + " (only /design/ and /file/ URLs are supported)"@,
                )
            },
        }
    }
}

/// What a text names as a Figma URL.
pub open spec fn url_parts(input: Seq<char>) -> Parts {
    match url_fault(input) {
        Some(e) => Err("not a valid URL "@ + debug_quoted(input) + ": "@ + e),
        None => parts_of(input, url_host(input), url_segments(input), url_query(input)),
    }
}

fn segment_at(segments: &Vec<String>, i: usize) -> (r: String)
    ensures
        r@ == segment(views(segments@), i as int),
{
    if i < segments.len() {
        segments[i].clone()
    } else {
        "".to_owned()
    }
}

fn find_node(query: &Vec<(String, String)>) -> (r: Option<String>)
    ensures
        opt_text(r) == queried_node(pair_views(query@)),
{
    let ghost pairs = pair_views(query@);
    let mut i: usize = 0;
    while i < query.len()
        invariant
            i <= query.len(),
            pairs == pair_views(query@),
            first_value(pairs, "node-id"@, 0) == first_value(pairs, "node-id"@, i as int),
        decreases query.len() - i,
    {
        assert(pairs[i as int] == (query@[i as int].0@, query@[i as int].1@));
        if same(query[i].0.as_str(), "node-id") {
            let v = &query[i].1;
            return if same(v.as_str(), "") {
                proof {
                    reveal_strlit("");
                }
                None
            } else {
                proof {
                    reveal_strlit("");
                    if v@.len() == 0 {
                        assert(v@ =~= ""@);
                    }
                }
                Some(replace_char(v.as_str(), '-', ':'))
            };
        }
        i += 1;
    }
    None
}

/// Reads the file key and the node id off the pieces of a URL.
pub fn read_figma_url(
    input: &str,
    host: &Option<String>,
    segments: &Option<Vec<String>>,
    query: &Vec<(String, String)>,
) -> (r: Result<FigmaUrlParts, String>)
    ensures
        parts_view(r) == parts_of(input@, opt_text(*host), opt_texts(*segments), pair_views(query@)),
{
    let named: &str = match host {
        Some(h) => h.as_str(),
        None => "",
    };
    if !same(named, "figma.com") && !has_suffix(named, ".figma.com") {
        return Err(cat2("not a Figma URL: ", input));
    }
    match segments {
        None => Err(cat2("URL has no path: ", input)),
        Some(s) => {
            let kind = segment_at(s, 0);
            let key = segment_at(s, 1);
            if (same(kind.as_str(), "file") || same(kind.as_str(), "design")) && is_alnum_word(key.as_str()) {
                Ok(FigmaUrlParts { file_key: key, node_id: find_node(query) })
            } else {
                Err(
                    cat3(
                        "could not extract file key from Figma URL: ",
                        input,
                        " (only /design/ and /file/ URLs are supported)",
                    ),
                )
            }
        },
    }
}

/// Extracts the file key and the node id from a Figma URL.
pub fn parse_figma_url(input: &str) -> (r: Result<FigmaUrlParts, String>)
    ensures
        parts_view(r) == url_parts(input@),
{
    match find_url_fault(input) {
        Some(e) => Err(cat2(cat3("not a valid URL ", debug_quote(input).as_str(), ": ").as_str(), e.as_str())),
        None => read_figma_url(input, &find_url_host(input), &find_url_segments(input), &find_url_query(input)),
    }
}

/// An accepted URL belongs to a Figma host, its key is a non-empty word of
/// ASCII letters and digits, and its node id is not empty and has no dash.
pub proof fn accepted_url(input: Seq<char>)
    ensures
        url_parts(input) matches Ok((key, node)) ==> {
            &&& url_fault(input) is None
            &&& url_host(input) matches Some(h) && figma_host(h)
            &&& alnum_word(key)
            &&& node matches Some(n) ==> n.len() > 0 && !n.contains('-')
        },
{
    if url_fault(input) is None && url_host(input) is None {
        reveal_strlit("");
        reveal_strlit("figma.com");
        reveal_strlit(".figma.com");
        assert(""@.len() == 0);
        assert("figma.com"@.len() == 9);
        assert(!figma_host(""@));
    }
    if let Some(v) = first_value(url_query(input), "node-id"@, 0) {
        let n = replaced(v, '-', ':');
        assert(forall|i: int| 0 <= i < n.len() ==> n[i] != '-');
    }
}

/// The lines that tell what a Figma URL names.
pub open spec fn told(file_key: Seq<char>, node_id: Option<Seq<char>>) -> Seq<char> {
    "fileKey: "@ + file_key + "\nnodeId: "@ + match node_id {
        Some(n) => n,
        None => "(none)"@,
    }
}

impl FigmaUrlParts {
    /// The lines that tell what the URL names.
    pub fn tell(&self) -> (r: String)
        ensures
            r@ == told(self.file_key@, opt_text(self.node_id)),
    {
        let node: &str = match &self.node_id {
            Some(n) => n.as_str(),
            None => "(none)",
        };
        cat2(cat3("fileKey: ", self.file_key.as_str(), "\nnodeId: ").as_str(), node)
    }
}

/// Whether a host is that of Figma, or one below it.
pub open spec fn below_figma(host: Seq<char>) -> bool {
    host == "figma.com"@ || exists|front: Seq<char>| host == #[trigger] (front + ".figma.com"@)
}

/// A link to a design is read: the file key is the second segment of its path, and
/// the node is the one that its query names, with colons for dashes.
pub proof fn design_links_are_read(input: Seq<char>, host: Seq<char>, segments: Seq<Seq<char>>, at: int)
    requires
        url_fault(input) is None,
        url_host(input) == Some(host),
        below_figma(host),
        url_segments(input) == Some(segments),
        segments.len() >= 2,
        segments[0] == "design"@ || segments[0] == "file"@,
        alnum_word(segments[1]),
    ensures
        url_parts(input) matches Ok((key, node)) && {
            &&& key == segments[1]
            &&& (forall|i: int| 0 <= i < url_query(input).len() ==> (#[trigger] url_query(input)[i]).0 != "node-id"@)
                ==> node is None
            &&& 0 <= at < url_query(input).len() && url_query(input)[at].0 == "node-id"@ && url_query(input)[at].1.len() > 0
                && (forall|i: int| 0 <= i < at ==> (#[trigger] url_query(input)[i]).0 != "node-id"@) ==> (node matches Some(
                n,
            ) && n.len() == url_query(input)[at].1.len() && forall|i: int|
                0 <= i < n.len() ==> #[trigger] n[i] == if url_query(input)[at].1[i] == '-' {
                    ':'
                } else {
                    url_query(input)[at].1[i]
                })
        },
{
    if host != "figma.com"@ {
        let front = choose|front: Seq<char>| host == #[trigger] (front + ".figma.com"@);
        assert(host.subrange(front.len() as int, host.len() as int) =~= ".figma.com"@);
    }
    assert(figma_host(host));
    lemma_first_value(url_query(input), "node-id"@, 0, at);
}

proof fn lemma_first_value(pairs: Seq<(Seq<char>, Seq<char>)>, k: Seq<char>, i: int, at: int)
    requires
        0 <= i,
    ensures
        (forall|j: int| i <= j < pairs.len() ==> (#[trigger] pairs[j]).0 != k) ==> first_value(pairs, k, i) is None,
        i <= at < pairs.len() && pairs[at].0 == k && (forall|j: int| i <= j < at ==> (#[trigger] pairs[j]).0 != k)
            ==> first_value(pairs, k, i) == Some(pairs[at].1),
    decreases pairs.len() - i,
{
    if i < pairs.len() {
        lemma_first_value(pairs, k, i + 1, at);
    }
}

/// A link to anything else is refused.
pub proof fn other_links_are_refused(input: Seq<char>, segments: Seq<Seq<char>>)
    requires
        url_segments(input) == Some(segments),
        segments.len() == 0 || (segments[0] != "design"@ && segments[0] != "file"@),
    ensures
        url_parts(input) is Err,
{
    reveal_strlit("");
    reveal_strlit("design");
    reveal_strlit("file");
    assert(""@.len() == 0 && "design"@.len() == 6 && "file"@.len() == 4);
}

} // verus!
