//! Credentials and input resolution. A flag wins over an environment variable;
//! flags win over the parts of a URL.

use vstd::prelude::*;

use crate::figma_url::{accepted_url, parse_figma_url, url_parts, Parts};
use crate::json::opt_str;
use crate::outside::{debug_quote, debug_quoted};
use crate::strings::{alnum_word, cat2, cat3, is_alnum_word, opt_text, replace_char, replaced, same};

verus! {

/// The credentials of a session.
#[derive(Debug, Clone)]
pub struct Auth {
    pub api_key: String,
    pub oauth_token: String,
    pub use_oauth: bool,
}

/// The first text that there is, or the empty text.
pub open spec fn first_given(flag: Option<Seq<char>>, variable: Option<Seq<char>>) -> Seq<char> {
    match (flag, variable) {
        (Some(f), _) => f,
        (None, Some(v)) => v,
        (None, None) => ""@,
    }
}

fn pick(flag: Option<&str>, variable: Option<&str>) -> (r: String)
    ensures
        r@ == first_given(opt_str(flag), opt_str(variable)),
{
    match flag {
        Some(f) => f.to_owned(),
        None => match variable {
            Some(v) => v.to_owned(),
            None => "".to_owned(),
        },
    }
}

/// Resolves the credentials from the flags and from the values of the
/// environment variables `FIGMA_API_KEY` and `FIGMA_OAUTH_TOKEN`. A non-empty
/// OAuth token is preferred; without any credential there is an error.
pub fn resolve_auth(
    flag_key: Option<&str>,
    flag_oauth: Option<&str>,
    env_key: Option<&str>,
    env_oauth: Option<&str>,
) -> (r: Result<Auth, String>)
    ensures
        ({
            let key = first_given(opt_str(flag_key), opt_str(env_key));
            let token = first_given(opt_str(flag_oauth), opt_str(env_oauth));
            match r {
                Ok(a) => a.api_key@ == key && a.oauth_token@ == token && a.use_oauth == (token != ""@) && (token != ""@
                    || key != ""@),
                Err(e) => token == ""@ && key == ""@ && e@
                    == "either FIGMA_API_KEY or FIGMA_OAUTH_TOKEN is required (via --figma-api-key/--figma-oauth-token, env, or .env file)"@,
            }
        }),
{
    let api_key = pick(flag_key, env_key);
    let oauth_token = pick(flag_oauth, env_oauth);
    let use_oauth = !same(oauth_token.as_str(), "");
    if !use_oauth && same(api_key.as_str(), "") {
        return Err(
            "either FIGMA_API_KEY or FIGMA_OAUTH_TOKEN is required (via --figma-api-key/--figma-oauth-token, env, or .env file)".to_owned(),
        );
    }
    Ok(Auth { api_key, oauth_token, use_oauth })
}

/// A node id with colons in place of dashes.
pub open spec fn colon_id(node: Option<Seq<char>>) -> Option<Seq<char>> {
    match node {
        Some(n) => Some(replaced(n, '-', ':')),
        None => None,
    }
}

/// The file key and the node id that a URL and the flags name. A malformed URL
/// is no error when there is a key flag.
pub open spec fn file_and_node(url: Option<Seq<char>>, key: Option<Seq<char>>, node: Option<Seq<char>>) -> Parts {
    match url {
        Some(u) => match url_parts(u) {
            Ok((k, n)) => checked_key(
                Some(
                    match key {
                        Some(x) => x,
                        None => k,
                    },
                ),
                match node {
                    Some(x) => Some(replaced(x, '-', ':')),
                    None => n,
                },
            ),
            Err(e) => if key is None {
                Err("parsing Figma URL "@ + debug_quoted(u) + ": "@ + e)
            } else {
                checked_key(key, colon_id(node))
            },
        },
        None => checked_key(key, colon_id(node)),
    }
}

/// A key must be a word of ASCII letters and digits.
pub open spec fn checked_key(key: Option<Seq<char>>, node: Option<Seq<char>>) -> Parts {
    match key {
        Some(k) => if alnum_word(k) {
            Ok((k, node))
        } else {
            Err("invalid file key "@ + debug_quoted(k) + ": must be alphanumeric"@)
        },
        None => Err("a Figma URL or --file-key is required"@),
    }
}

/// The model of a resolved key and node.
pub open spec fn resolved_view(r: Result<(String, Option<String>), String>) -> Parts {
    match r {
        Ok((k, n)) => Ok((k@, opt_text(n))),
        Err(e) => Err(e@),
    }
}

/// Merges a URL and the flags into a file key and a node id.
pub fn resolve_file_and_node(url: Option<&str>, file_key: Option<String>, node_id: Option<String>) -> (r: Result<
    (String, Option<String>),
    String,
>)
    ensures
        resolved_view(r) == file_and_node(opt_str(url), opt_text(file_key), opt_text(node_id)),
{
    let mut key = file_key;
    let mut node = match node_id {
        Some(n) => Some(replace_char(n.as_str(), '-', ':')),
        None => None,
    };
    if let Some(u) = url {
        match parse_figma_url(u) {
            Ok(parts) => {
                if key.is_none() {
                    key = Some(parts.file_key);
                }
                if node.is_none() {
                    node = parts.node_id;
                }
            },
            Err(e) => {
                if key.is_none() {
                    return Err(cat2(cat3("parsing Figma URL ", debug_quote(u).as_str(), ": ").as_str(), e.as_str()));
                }
            },
        }
    }
    match key {
        Some(k) => if is_alnum_word(k.as_str()) {
            Ok((k, node))
        } else {
            Err(cat3("invalid file key ", debug_quote(k.as_str()).as_str(), ": must be alphanumeric"))
        },
        None => Err("a Figma URL or --file-key is required".to_owned()),
    }
}

/// A resolved key is a non-empty word of ASCII letters and digits and a
/// resolved node id has no dash; a key flag is what comes out, whatever the
/// URL is.
pub proof fn resolved_input(url: Option<Seq<char>>, key: Option<Seq<char>>, node: Option<Seq<char>>)
    ensures
        file_and_node(url, key, node) matches Ok((k, n)) ==> {
            &&& alnum_word(k)
            &&& n matches Some(x) ==> !x.contains('-')
            &&& key matches Some(f) ==> k == f
        },
        key matches Some(f) && alnum_word(f) ==> file_and_node(url, key, node) is Ok,
{
    if let Some(u) = url {
        accepted_url(u);
    }
    if let Some(x) = node {
        let c = replaced(x, '-', ':');
        assert(forall|i: int| 0 <= i < c.len() ==> c[i] != '-');
    }
}

/// A node id means the same with dashes as with colons.
pub proof fn dashes_and_colons_name_one_node(node: Seq<char>)
    ensures
        colon_id(Some(replaced(node, ':', '-'))) == colon_id(Some(node)),
        colon_id(colon_id(Some(node))) == colon_id(Some(node)),
{
    let dashed = replaced(node, ':', '-');
    assert(replaced(dashed, '-', ':') =~= replaced(node, '-', ':'));
    assert(replaced(replaced(node, '-', ':'), '-', ':') =~= replaced(node, '-', ':'));
}

} // verus!
