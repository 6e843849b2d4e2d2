//! The Figma REST API: endpoints, authentication headers, what a response
//! means and the messages for the responses that are errors.

use vstd::prelude::*;

use crate::config::Auth;
use crate::float::{cast, decoded, from_int, is_whole, less, of_int, Dbl, Double};
use crate::json::{as_obj, field, get, object_of, opt_object, Fields, Json, Object, Value};
use crate::outside::{debug_quote, debug_quoted, lower_case, to_lower_case};
use crate::simplify::numbers::{display, display_form};
use crate::strings::{
    cat2, cat3, chars_of, contains_text, decimal, decimal_of, has_part, join, joined, opt_text, pair_views, same,
    text_of, trim_text, trimmed, views,
};

verus! {

/// How requests reach the API.
#[derive(Debug, Clone, Copy, PartialEq, Eq)]
pub enum ProxyMode {
    /// The proxy variables of the environment apply.
    Env,
    /// A direct connection.
    Direct,
    /// A proxy that was given explicitly.
    Explicit,
}

/// How requests reach the API with a proxy choice: none given, a direct
/// connection, or a URL.
pub fn proxy_mode(proxy: &Option<Option<String>>) -> (r: ProxyMode)
    ensures
        r == match *proxy {
            None => ProxyMode::Env,
            Some(None) => ProxyMode::Direct,
            Some(Some(_)) => ProxyMode::Explicit,
        },
{
    match proxy {
        None => ProxyMode::Env,
        Some(None) => ProxyMode::Direct,
        Some(Some(_)) => ProxyMode::Explicit,
    }
}

// ---------------------------------------------------------------------------
// Messages
// ---------------------------------------------------------------------------

/// The common causes of a 403.
pub open spec fn forbidden_causes() -> Seq<char> {
    "- The access token is missing required scopes (File content: Read, Dev resources: Read)\n- The access token has expired, been revoked, or was mistyped (both PATs and OAuth tokens can expire)\n- The access token doesn't have permission to this specific file — it must be owned by or shared with the token's account, and for team/org files the account must belong to that team\n- The file's share settings don't allow viewers to copy/share/export\n- An HTTP intermediary (corporate proxy, firewall, VPN) rejected the request before it reached Figma"@
}

/// A body of at most 2000 characters, or its start and the number of
/// characters left out.
pub open spec fn capped(body: Seq<char>) -> Seq<char> {
    if body.len() > 2000 {
        body.subrange(0, 2000) + "... [truncated "@ + decimal((body.len() - 2000) as nat) + " chars]"@
    } else {
        body
    }
}

/// The first `n` characters.
pub open spec fn shortened(s: Seq<char>, n: nat) -> Seq<char> {
    if s.len() > n {
        s.subrange(0, n as int)
    } else {
        s
    }
}

/// The hint about a proxy that may have answered in place of Figma.
pub open spec fn proxy_hint(mode: ProxyMode, proxy_in_env: bool) -> Option<Seq<char>> {
    match mode {
        ProxyMode::Explicit => Some(
            "Note: this CLI is configured to route requests through an explicit proxy (--proxy/FIGMA_PROXY). If the proxy may be the source of the 403, unset it, pass --proxy=none, or bypass it for this host."@,
        ),
        ProxyMode::Env => if proxy_in_env {
            Some(
                "Note: this CLI picked up a proxy from HTTP_PROXY/HTTPS_PROXY in your environment. If the proxy may be the source of the 403, set NO_PROXY=api.figma.com, pass --proxy=none, or unset HTTP_PROXY/HTTPS_PROXY."@,
            )
        } else {
            None
        },
        ProxyMode::Direct => None,
    }
}

/// The first section of the 403 message.
pub open spec fn forbidden_head(endpoint: Seq<char>, body: Seq<char>) -> Seq<char> {
    let first = "Request to Figma API endpoint '"@ + endpoint + "' returned 403 Forbidden."@;
    if body.len() == 0 {
        first
    } else {
        let told = first + "\nResponse body: "@ + capped(body);
        if has_part(lower_case(capped(body)), "expir"@) {
            told
                + "\nNote: the response body indicates the token is expired — replace the Figma token before investigating file access or plan limits."@
        } else {
            told
        }
    }
}

/// The sections of the 403 message for a body without outer white space.
pub open spec fn forbidden_sections(endpoint: Seq<char>, body: Seq<char>, hint: Option<Seq<char>>) -> Seq<Seq<char>> {
    let guide = "Troubleshooting guide: https://www.framelink.ai/docs/troubleshooting#cannot-access-file"@;
    let told = if body.len() == 0 {
        seq![
            forbidden_head(endpoint, body),
            "The issue is typically one of the following:"@ + "\n"@ + forbidden_causes(),
            guide,
        ]
    } else {
        seq![
            forbidden_head(endpoint, body),
            "Depending on the specific error message above, the issue may be one of the following:"@ + "\n"@
                + forbidden_causes(),
            guide,
            "Instructions: explain the specific reason from the response body above to the user in plain language and walk them through resolving it."@,
        ]
    };
    match hint {
        Some(h) => told.push(h),
        None => told,
    }
}

/// The message for a 403.
pub open spec fn forbidden_message(endpoint: Seq<char>, body: Seq<char>, hint: Option<Seq<char>>) -> Seq<char> {
    joined(forbidden_sections(endpoint, trimmed(body), hint), "\n\n"@)
}

fn cap(body: &str) -> (r: String)
    ensures
        r@ == capped(body@),
{
    let chars = chars_of(body);
    if chars.len() > 2000 {
        cat2(
            cat3(
                text_of(&chars, 0, 2000).as_str(),
                "... [truncated ",
                decimal_of((chars.len() - 2000) as u128).as_str(),
            ).as_str(),
            " chars]",
        )
    } else {
        body.to_owned()
    }
}

fn shorten(s: &str, n: usize) -> (r: String)
    ensures
        r@ == shortened(s@, n as nat),
{
    let chars = chars_of(s);
    if chars.len() > n {
        text_of(&chars, 0, n)
    } else {
        s.to_owned()
    }
}

fn is_blank(s: &str) -> (r: bool)
    ensures
        r == (s@.len() == 0),
{
    chars_of(s).len() == 0
}

fn find_proxy_hint(mode: ProxyMode, proxy_in_env: bool) -> (r: Option<String>)
    ensures
        opt_text(r) == proxy_hint(mode, proxy_in_env),
{
    match mode {
        ProxyMode::Explicit => Some(
            "Note: this CLI is configured to route requests through an explicit proxy (--proxy/FIGMA_PROXY). If the proxy may be the source of the 403, unset it, pass --proxy=none, or bypass it for this host.".to_owned(),
        ),
        ProxyMode::Env => if proxy_in_env {
            Some(
                "Note: this CLI picked up a proxy from HTTP_PROXY/HTTPS_PROXY in your environment. If the proxy may be the source of the 403, set NO_PROXY=api.figma.com, pass --proxy=none, or unset HTTP_PROXY/HTTPS_PROXY.".to_owned(),
            )
        } else {
            None
        },
        ProxyMode::Direct => None,
    }
}

fn write_forbidden_head(endpoint: &str, body: &str) -> (r: String)
    ensures
        r@ == forbidden_head(endpoint@, body@),
{
    let first = cat3("Request to Figma API endpoint '", endpoint, "' returned 403 Forbidden.");
    if is_blank(body) {
        return first;
    }
    let shown = cap(body);
    let told = cat3(first.as_str(), "\nResponse body: ", shown.as_str());
    if contains_text(to_lower_case(shown.as_str()).as_str(), "expir") {
        cat2(
            told.as_str(),
            "\nNote: the response body indicates the token is expired — replace the Figma token before investigating file access or plan limits.",
        )
    } else {
        told
    }
}

/// The message for a 403. It shows the body of the response as it came, and
/// lists the causes that it could stand for. `proxy_in_env` tells whether the
/// environment names a proxy.
pub fn build_forbidden_message(endpoint: &str, body: &str, proxy_mode: ProxyMode, proxy_in_env: bool) -> (r: String)
    ensures
        r@ == forbidden_message(endpoint@, body@, proxy_hint(proxy_mode, proxy_in_env)),
{
    let body = trim_text(body);
    let causes: &str = "- The access token is missing required scopes (File content: Read, Dev resources: Read)\n- The access token has expired, been revoked, or was mistyped (both PATs and OAuth tokens can expire)\n- The access token doesn't have permission to this specific file — it must be owned by or shared with the token's account, and for team/org files the account must belong to that team\n- The file's share settings don't allow viewers to copy/share/export\n- An HTTP intermediary (corporate proxy, firewall, VPN) rejected the request before it reached Figma";
    let mut sections: Vec<String> = Vec::new();
    sections.push(write_forbidden_head(endpoint, body.as_str()));
    let guide: &str = "Troubleshooting guide: https://www.framelink.ai/docs/troubleshooting#cannot-access-file";
    if is_blank(body.as_str()) {
        sections.push(cat3("The issue is typically one of the following:", "\n", causes));
        sections.push(guide.to_owned());
    } else {
        sections.push(
            cat3(
                "Depending on the specific error message above, the issue may be one of the following:",
                "\n",
                causes,
            ),
        );
        sections.push(guide.to_owned());
        sections.push(
            "Instructions: explain the specific reason from the response body above to the user in plain language and walk them through resolving it.".to_owned(),
        );
    }
    match find_proxy_hint(proxy_mode, proxy_in_env) {
        Some(h) => sections.push(h),
        None => {},
    }
    assert(views(sections@) =~= forbidden_sections(endpoint@, body@, proxy_hint(proxy_mode, proxy_in_env)));
    join(&sections, "\n\n")
}

/// The message for a 401 for a body without outer white space.
pub open spec fn unauthorized_message(endpoint: Seq<char>, body: Seq<char>, use_oauth: bool) -> Seq<char> {
    let credential = if use_oauth {
        "FIGMA_OAUTH_TOKEN (--figma-oauth-token)"@
    } else {
        "FIGMA_API_KEY (--figma-api-key)"@
    };
    let first = "Figma API returned 401 for '"@ + endpoint
        + "': authentication failed — the token was rejected before any file access was checked. The token has likely expired, been revoked, or was mistyped; verify "@
        + credential + "."@;
    let told = if body.len() == 0 {
        first
    } else {
        first + "\nResponse body: "@ + shortened(body, 2000)
    };
    let noted = if has_part(lower_case(body), "expir"@) && body.len() > 0 {
        told
            + "\nNote: the response indicates the token is expired — create a replacement token rather than debugging file sharing or plan limits."@
    } else {
        told
    };
    noted + "\nTroubleshooting guide: https://www.framelink.ai/docs/troubleshooting"@
}

/// The message for a 401: the credential itself was rejected. It names the
/// credential and shows the body of the response.
pub fn build_unauthorized_message(endpoint: &str, body: &str, use_oauth: bool) -> (r: String)
    ensures
        r@ == unauthorized_message(endpoint@, trimmed(body@), use_oauth),
{
    let credential: &str = if use_oauth {
        "FIGMA_OAUTH_TOKEN (--figma-oauth-token)"
    } else {
        "FIGMA_API_KEY (--figma-api-key)"
    };
    let body = trim_text(body);
    let start = cat3(
        "Figma API returned 401 for '",
        endpoint,
        "': authentication failed — the token was rejected before any file access was checked. The token has likely expired, been revoked, or was mistyped; verify ",
    );
    let mut msg = cat3(start.as_str(), credential, ".");
    if !is_blank(body.as_str()) {
        msg = cat3(msg.as_str(), "\nResponse body: ", shorten(body.as_str(), 2000).as_str());
        if contains_text(to_lower_case(body.as_str()).as_str(), "expir") {
            msg = cat2(
                msg.as_str(),
                "\nNote: the response indicates the token is expired — create a replacement token rather than debugging file sharing or plan limits.",
            );
        }
    }
    cat2(msg.as_str(), "\nTroubleshooting guide: https://www.framelink.ai/docs/troubleshooting")
}

/// The message for a response with this status, for the statuses that are
/// errors. `status_line` is the status with its reason.
pub open spec fn response_fault(
    endpoint: Seq<char>,
    status: int,
    status_line: Seq<char>,
    body: Seq<char>,
    use_oauth: bool,
    hint: Option<Seq<char>>,
) -> Option<Seq<char>> {
    if status == 429 {
        Some(
            "Figma API rate limit exceeded (429). Wait before retrying; free-plan files are most affected."@,
        )
    } else if status == 403 {
        Some(forbidden_message(endpoint, body, hint))
    } else if status == 401 {
        Some(unauthorized_message(endpoint, trimmed(body), use_oauth))
    } else if 200 <= status <= 299 {
        None
    } else {
        Some(
            "Figma API request to "@ + debug_quoted(endpoint) + " failed with status "@ + status_line + ": "@
                + shortened(body, 300),
        )
    }
}

/// Decides whether a response is an error, and with which message.
pub fn response_error(
    endpoint: &str,
    status: u16,
    status_line: &str,
    body: &str,
    use_oauth: bool,
    proxy_mode: ProxyMode,
    proxy_in_env: bool,
) -> (r: Option<String>)
    ensures
        opt_text(r) == response_fault(
            endpoint@,
            status as int,
            status_line@,
            body@,
            use_oauth,
            proxy_hint(proxy_mode, proxy_in_env),
        ),
{
    if status == 429 {
        Some(
            "Figma API rate limit exceeded (429). Wait before retrying; free-plan files are most affected.".to_owned(),
        )
    } else if status == 403 {
        Some(build_forbidden_message(endpoint, body, proxy_mode, proxy_in_env))
    } else if status == 401 {
        Some(build_unauthorized_message(endpoint, body, use_oauth))
    } else if 200 <= status && status <= 299 {
        None
    } else {
        let start = cat3("Figma API request to ", debug_quote(endpoint).as_str(), " failed with status ");
        Some(cat3(start.as_str(), status_line, cat2(": ", shorten(body, 300).as_str()).as_str()))
    }
}

// ---------------------------------------------------------------------------
// Requests
// ---------------------------------------------------------------------------

/// A name and a value, or the message of an error.
pub open spec fn header_view(r: Result<(String, String), String>) -> Result<(Seq<char>, Seq<char>), Seq<char>> {
    match r {
        Ok((n, v)) => Ok((n@, v@)),
        Err(e) => Err(e@),
    }
}

/// The header that authenticates a request.
pub fn auth_header(auth: &Auth) -> (r: Result<(String, String), String>)
    ensures
        header_view(r) == if auth.use_oauth {
            Ok((("Authorization"@, "Bearer "@ + auth.oauth_token@)))
        } else if auth.api_key@ != ""@ {
            Ok((("X-Figma-Token"@, auth.api_key@)))
        } else {
            Err("Figma API authentication is required (FIGMA_API_KEY or FIGMA_OAUTH_TOKEN)"@)
        },
{
    if auth.use_oauth {
        Ok(("Authorization".to_owned(), cat2("Bearer ", auth.oauth_token.as_str())))
    } else if !same(auth.api_key.as_str(), "") {
        Ok(("X-Figma-Token".to_owned(), auth.api_key.clone()))
    } else {
        Err("Figma API authentication is required (FIGMA_API_KEY or FIGMA_OAUTH_TOKEN)".to_owned())
    }
}

/// Node ids as one query value.
pub fn encode_ids(ids: &Vec<String>) -> (r: String)
    ensures
        r@ == joined(views(ids@), ","@),
{
    join(ids, ",")
}

/// A query parameter for the depth, when there is one.
pub open spec fn depth_query(start: Seq<char>, depth: Option<u32>) -> Seq<char> {
    match depth {
        Some(d) => start + "depth="@ + decimal(d as nat),
        None => ""@,
    }
}

fn write_depth(start: &str, depth: Option<u32>) -> (r: String)
    ensures
        r@ == depth_query(start@, depth),
{
    match depth {
        Some(d) => cat3(start, "depth=", decimal_of(d as u128).as_str()),
        None => "".to_owned(),
    }
}

/// The endpoint of a whole file.
pub fn file_endpoint(file_key: &str, depth: Option<u32>) -> (r: String)
    ensures
        r@ == "/files/"@ + file_key@ + depth_query("?"@, depth),
{
    cat3("/files/", file_key, write_depth("?", depth).as_str())
}

/// The endpoint of one node of a file.
pub fn node_endpoint(file_key: &str, node_id: &str, depth: Option<u32>) -> (r: String)
    ensures
        r@ == "/files/"@ + file_key@ + "/nodes?ids="@ + node_id@ + depth_query("&"@, depth),
{
    let start = cat3("/files/", file_key, "/nodes?ids=");
    cat3(start.as_str(), node_id, write_depth("&", depth).as_str())
}

/// The endpoint of the image fills of a file.
pub fn image_fills_endpoint(file_key: &str) -> (r: String)
    ensures
        r@ == "/files/"@ + file_key@ + "/images"@,
{
    cat3("/files/", file_key, "/images")
}

/// A render scale brought into the range that Figma accepts, 0.01 to 4.
pub open spec fn clamped_scale(scale: Dbl) -> Dbl {
    let low = decoded(0x3f84_7ae1_47ae_147bu64);
    if less(scale, low) {
        low
    } else if less(of_int(4), scale) {
        of_int(4)
    } else {
        scale
    }
}

/// The text of a scale: a whole one has no fraction.
pub open spec fn scale_text(scale: Dbl) -> Seq<char> {
    if is_whole(scale) {
        decimal(cast(scale, 0, 0xffff_ffff_ffff_ffff) as nat)
    } else {
        display_form(scale)
    }
}

fn write_scale(scale: Double) -> (r: String)
    ensures
        r@ == scale_text(scale@),
{
    proof {
        reveal(is_whole);
    }
    let is_w = match scale {
        Double::Finite(f) => f.is_whole(),
        _ => false,
    };
    if is_w {
        decimal_of(scale.cast(0, 0xffff_ffff_ffff_ffff) as u128)
    } else {
        display(scale)
    }
}

fn clamp_scale(scale: Double) -> (r: Double)
    ensures
        r@ == clamped_scale(scale@),
{
    let low = Double::from_bits(0x3f84_7ae1_47ae_147bu64);
    let high = from_int(4);
    if scale.is_less(low) {
        low
    } else if high.is_less(scale) {
        high
    } else {
        scale
    }
}

/// The endpoint that renders nodes as PNG images at a scale, or as SVG images.
pub open spec fn render_request(file_key: Seq<char>, ids: Seq<Seq<char>>, format: Seq<char>, scale: Dbl) -> Seq<char> {
    let start = "/images/"@ + file_key + "?ids="@ + joined(ids, ","@);
    if format == "png"@ {
        start + "&format=png&scale="@ + scale_text(clamped_scale(scale))
    } else {
        start + "&format=svg&svg_outline_text=true&svg_include_id=false&svg_simplify_stroke=true"@
    }
}

/// The endpoint that renders nodes as PNG images at a scale, or as SVG images.
/// Without any node nothing is requested.
pub fn render_endpoint(file_key: &str, node_ids: &Vec<String>, format: &str, png_scale: Double) -> (r: Option<String>)
    ensures
        opt_text(r) == if node_ids@.len() == 0 {
            None
        } else {
            Some(render_request(file_key@, views(node_ids@), format@, png_scale@))
        },
{
    if node_ids.len() == 0 {
        return None;
    }
    let start = cat2(cat3("/images/", file_key, "?ids=").as_str(), encode_ids(node_ids).as_str());
    if same(format, "png") {
        Some(cat3(start.as_str(), "&format=png&scale=", write_scale(clamp_scale(png_scale)).as_str()))
    } else {
        Some(
            cat2(
                start.as_str(),
                "&format=svg&svg_outline_text=true&svg_include_id=false&svg_simplify_stroke=true",
            ),
        )
    }
}

// ---------------------------------------------------------------------------
// Responses
// ---------------------------------------------------------------------------

/// The key of the first entry from `i` on whose value is null.
pub open spec fn null_from(o: Fields, i: int) -> Option<Seq<char>>
    decreases o.len() - i,
{
    if i < 0 || i >= o.len() {
        None
    } else if o[i].1 is Null {
        Some(o[i].0)
    } else {
        null_from(o, i + 1)
    }
}

/// The message for a node that the response of a node request does not have.
pub open spec fn missing_node(body: Json) -> Option<Seq<char>> {
    match as_obj(field(body, "nodes"@)) {
        Some(nodes) => match null_from(nodes, 0) {
            Some(id) => Some(
                "node "@ + id
                    + " was not found in the Figma file. Likely causes: (1) the URL was a /proto/, /figjam/, /slides/, /board/ or /deck/ link — only /design/ and /file/ URLs are supported; (2) the node is inside a Figma branch (use the branch fileKey); (3) the link is stale or the node was deleted."@,
            ),
            None => None,
        },
        None => None,
    }
}

/// Decides whether the response of a node request lacks the node.
pub fn missing_node_error(body: &Value) -> (r: Option<String>)
    ensures
        opt_text(r) == missing_node(body@),
{
    match object_of(body.get("nodes")) {
        Some(nodes) => {
            let mut i: usize = 0;
            while i < nodes.entries.len()
                invariant
                    i <= nodes.entries.len(),
                    as_obj(field(body@, "nodes"@)) == Some(nodes@),
                    null_from(nodes@, 0) == null_from(nodes@, i as int),
                decreases nodes.entries.len() - i,
            {
                let e = &nodes.entries[i];
                if e.1.is_null() {
                    return Some(
                        cat3(
                            "node ",
                            e.0.as_str(),
                            " was not found in the Figma file. Likely causes: (1) the URL was a /proto/, /figjam/, /slides/, /board/ or /deck/ link — only /design/ and /file/ URLs are supported; (2) the node is inside a Figma branch (use the branch fileKey); (3) the link is stale or the node was deleted.",
                        ),
                    );
                }
                i += 1;
            }
            None
        },
        None => None,
    }
}

/// The non-empty texts among the first `n` entries, under their keys.
pub open spec fn urls_among(o: Fields, n: nat) -> Seq<(Seq<char>, Seq<char>)>
    decreases n,
{
    if n == 0 {
        Seq::empty()
    } else {
        let before = urls_among(o, (n - 1) as nat);
        match o[n - 1].1 {
            Json::Str(s) => if s == ""@ {
                before
            } else {
                before.push((o[n - 1].0, s))
            },
            _ => before,
        }
    }
}

/// The URLs of an optional object.
pub open spec fn urls_in(o: Option<Fields>) -> Seq<(Seq<char>, Seq<char>)> {
    match o {
        Some(f) => urls_among(f, f.len()),
        None => Seq::empty(),
    }
}

fn collect_urls(o: Option<&Object>) -> (r: Vec<(String, String)>)
    ensures
        pair_views(r@) == urls_in(opt_object(o)),
{
    let mut out: Vec<(String, String)> = Vec::new();
    match o {
        None => {
            assert(pair_views(out@) =~= Seq::empty());
            out
        },
        Some(f) => {
            assert(pair_views(out@) =~= Seq::empty());
            let mut i: usize = 0;
            while i < f.entries.len()
                invariant
                    i <= f.entries.len(),
                    pair_views(out@) == urls_among(f@, i as nat),
                decreases f.entries.len() - i,
            {
                let e = &f.entries[i];
                match &e.1 {
                    Value::String(s) => if !same(s.as_str(), "") {
                        let ghost before = out@;
                        out.push((e.0.clone(), s.clone()));
                        assert(pair_views(out@) =~= pair_views(before).push((e.0@, s@)));
                    },
                    _ => {},
                }
                i += 1;
            }
            out
        },
    }
}

/// The download URL of each image fill, from the response of the fills endpoint.
pub fn image_fill_urls(body: &Value) -> (r: Vec<(String, String)>)
    ensures
        pair_views(r@) == match field(body@, "meta"@) {
            Some(meta) => urls_in(as_obj(field(meta, "images"@))),
            None => Seq::empty(),
        },
{
    match body.get("meta") {
        Some(meta) => collect_urls(object_of(meta.get("images"))),
        None => collect_urls(None),
    }
}

/// The URL of each rendered node, from the response of the render endpoint.
pub fn node_render_urls(body: &Value) -> (r: Vec<(String, String)>)
    ensures
        pair_views(r@) == urls_in(as_obj(field(body@, "images"@))),
{
    collect_urls(object_of(body.get("images")))
}

// ---------------------------------------------------------------------------
// Laws
// ---------------------------------------------------------------------------

proof fn lemma_urls(o: Fields, n: nat)
    requires
        n <= o.len(),
    ensures
        forall|i: int|
            0 <= i < n && (#[trigger] o[i]).1 is Str && o[i].1->Str_0.len() > 0 ==> urls_among(o, n).contains(
                (o[i].0, o[i].1->Str_0),
            ),
        forall|p: (Seq<char>, Seq<char>)| #[trigger]
            urls_among(o, n).contains(p) ==> p.1.len() > 0 && exists|i: int|
                0 <= i < n && #[trigger] o[i] == (p.0, Json::Str(p.1)),
    decreases n,
{
    if n > 0 {
        lemma_urls(o, (n - 1) as nat);
        reveal_strlit("");
        let before = urls_among(o, (n - 1) as nat);
        let all = urls_among(o, n);
        assert forall|i: int| 0 <= i < n && (#[trigger] o[i]).1 is Str && o[i].1->Str_0.len() > 0 implies all.contains(
            (o[i].0, o[i].1->Str_0),
        ) by {
            let url = o[i].1->Str_0;
            if i < n - 1 {
                assert(before.contains((o[i].0, url)));
                let k = choose|k: int| 0 <= k < before.len() && before[k] == (o[i].0, url);
                assert(all[k] == (o[i].0, url));
            } else {
                assert(all[before.len() as int] == (o[i].0, url));
            }
        }
        assert forall|p: (Seq<char>, Seq<char>)| #[trigger] all.contains(p) implies p.1.len() > 0 && exists|i: int|
            0 <= i < n && #[trigger] o[i] == (p.0, Json::Str(p.1)) by {
            let k = choose|k: int| 0 <= k < all.len() && all[k] == p;
            if k < before.len() {
                assert(before[k] == p);
                assert(before.contains(p));
            } else {
                assert(o[n - 1] == (p.0, Json::Str(p.1)));
                if p.1.len() == 0 {
                    assert(p.1 =~= ""@);
                }
            }
        }
    }
}

/// The URLs of a reply are all that it holds under a key, but for those that are
/// missing or empty.
pub proof fn replies_give_their_urls(o: Fields)
    ensures
        forall|i: int|
            0 <= i < o.len() && (#[trigger] o[i]).1 is Str && o[i].1->Str_0.len() > 0 ==> urls_in(Some(o)).contains(
                (o[i].0, o[i].1->Str_0),
            ),
        forall|p: (Seq<char>, Seq<char>)| #[trigger]
            urls_in(Some(o)).contains(p) ==> p.1.len() > 0 && exists|i: int|
                0 <= i < o.len() && #[trigger] o[i] == (p.0, Json::Str(p.1)),
{
    lemma_urls(o, o.len());
}

/// A reply is an error where its status is none of success, and only there.
pub proof fn success_is_no_fault(
    endpoint: Seq<char>,
    status: int,
    status_line: Seq<char>,
    body: Seq<char>,
    use_oauth: bool,
    hint: Option<Seq<char>>,
)
    ensures
        response_fault(endpoint, status, status_line, body, use_oauth, hint) is None <==> 200 <= status < 300,
{
}

/// A request for renders names every node, one behind the other with commas between
/// them, and nothing else in that place.
pub proof fn renders_name_every_node(key: Seq<char>, ids: Seq<Seq<char>>, format: Seq<char>, scale: Dbl)
    ensures
        exists|rest: Seq<char>|
            render_request(key, ids, format, scale) == #[trigger] ("/images/"@ + key + "?ids="@ + joined(ids, ","@)
                + "&format="@ + rest),
{
    let start = "/images/"@ + key + "?ids="@ + joined(ids, ","@);
    reveal_strlit("&format=");
    reveal_strlit("&format=png&scale=");
    reveal_strlit("&format=svg&svg_outline_text=true&svg_include_id=false&svg_simplify_stroke=true");
    let tail = if format == "png"@ {
        "&format=png&scale="@ + scale_text(clamped_scale(scale))
    } else {
        "&format=svg&svg_outline_text=true&svg_include_id=false&svg_simplify_stroke=true"@
    };
    let rest = tail.subrange(8, tail.len() as int);
    assert("&format="@ + rest =~= tail);
    assert(render_request(key, ids, format, scale) =~= start + "&format="@ + rest);
}

proof fn lemma_null(o: Fields, i: int)
    requires
        0 <= i,
    ensures
        match null_from(o, i) {
            Some(id) => exists|k: int| i <= k < o.len() && #[trigger] o[k] == (id, Json::Null),
            None => forall|k: int| i <= k < o.len() ==> !((#[trigger] o[k]).1 is Null),
        },
    decreases o.len() - i,
{
    if i < o.len() {
        if o[i].1 is Null {
            assert(o[i] == (o[i].0, Json::Null));
        } else {
            lemma_null(o, i + 1);
        }
    }
}

/// A reply is an error where one of the nodes that it was asked for is null, and the
/// message begins with that node.
pub proof fn missing_nodes_are_errors(body: Json, nodes: Fields)
    requires
        field(body, "nodes"@) == Some(Json::Obj(nodes)),
    ensures
        missing_node(body) is None <==> forall|k: int| 0 <= k < nodes.len() ==> !((#[trigger] nodes[k]).1 is Null),
        missing_node(body) matches Some(m) ==> exists|k: int, rest: Seq<char>|
            0 <= k < nodes.len() && (#[trigger] nodes[k]).1 is Null && m == #[trigger] ("node "@ + nodes[k].0
                + " was not found in the Figma file."@ + rest),
{
    lemma_null(nodes, 0);
    if let Some(id) = null_from(nodes, 0) {
        let k = choose|k: int| 0 <= k < nodes.len() && #[trigger] nodes[k] == (id, Json::Null);
        let m = missing_node(body)->0;
        let told = " was not found in the Figma file. Likely causes: (1) the URL was a /proto/, /figjam/, /slides/, /board/ or /deck/ link — only /design/ and /file/ URLs are supported; (2) the node is inside a Figma branch (use the branch fileKey); (3) the link is stale or the node was deleted."@;
        reveal_strlit(
            " was not found in the Figma file. Likely causes: (1) the URL was a /proto/, /figjam/, /slides/, /board/ or /deck/ link — only /design/ and /file/ URLs are supported; (2) the node is inside a Figma branch (use the branch fileKey); (3) the link is stale or the node was deleted.",
        );
        reveal_strlit(" was not found in the Figma file.");
        let first = " was not found in the Figma file."@;
        let rest = told.subrange(first.len() as int, told.len() as int);
        assert(told =~= first + rest);
        assert(m =~= "node "@ + nodes[k].0 + first + rest);
    }
}

} // verus!
