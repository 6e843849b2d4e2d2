//! What the library takes from outside: each function here hands one call to
//! the standard library or to a crate, and its contract is believed.

use vstd::prelude::*;

use crate::float::{decoded, Dbl};
use crate::strings::{hex_char, opt_text, opt_texts, pair_views, utf8_text, views};

verus! {

/// `String::push` appends one character.
pub assume_specification[ std::string::String::push ](s: &mut std::string::String, c: char)
    ensures
        final(s)@ == old(s)@.push(c),
;

/// Two string slices compare equal exactly when they hold the same characters.
pub assume_specification[ <str as PartialEq>::eq ](a: &str, b: &str) -> (r: bool)
    ensures
        r == (a@ == b@),
;

/// The characters beyond ASCII with the Unicode `White_Space` property.
pub uninterp spec fn wide_space(c: char) -> bool;

/// The ASCII characters with the Unicode `White_Space` property: the tab, the
/// line breaks and the space.
pub open spec fn ascii_space(c: char) -> bool {
    c == ' ' || 9 <= c as u32 <= 13
}

/// The characters with the Unicode `White_Space` property.
pub open spec fn white_space(c: char) -> bool {
    if (c as u32) < 128 {
        ascii_space(c)
    } else {
        wide_space(c)
    }
}

/// `char::is_whitespace` tests the Unicode `White_Space` property.
#[verifier::external_body]
pub(crate) fn is_white_space(c: char) -> (r: bool)
    ensures
        r == if (c as u32) < 128 {
            ascii_space(c)
        } else {
            wide_space(c)
        },
{
    c.is_whitespace()
}

/// The characters beyond ASCII with the Unicode `Alphabetic` property.
pub uninterp spec fn wide_letter(c: char) -> bool;

/// The characters with the Unicode `Alphabetic` property; in ASCII they are the
/// letters.
pub open spec fn alphabetic(c: char) -> bool {
    if (c as u32) < 128 {
        'a' <= c <= 'z' || 'A' <= c <= 'Z'
    } else {
        wide_letter(c)
    }
}

/// `char::is_alphabetic` tests the Unicode `Alphabetic` property.
#[verifier::external_body]
pub(crate) fn is_alphabetic(c: char) -> (r: bool)
    ensures
        r == if (c as u32) < 128 {
            'a' <= c <= 'z' || 'A' <= c <= 'Z'
        } else {
            wide_letter(c)
        },
{
    c.is_alphabetic()
}

/// The lower-case form of a text with characters beyond ASCII.
pub uninterp spec fn wide_lower(s: Seq<char>) -> Seq<char>;

/// Whether a text is in ASCII.
pub open spec fn ascii(s: Seq<char>) -> bool {
    forall|i: int| 0 <= i < s.len() ==> (#[trigger] s[i] as u32) < 128
}

/// An ASCII text with `a` to `z` in place of `A` to `Z`.
pub open spec fn ascii_lower(s: Seq<char>) -> Seq<char> {
    s.map_values(
        |c: char|
            if 'A' <= c <= 'Z' {
                (c as u32 + 32) as char
            } else {
                c
            },
    )
}

/// The lower-case form of a text.
pub open spec fn lower_case(s: Seq<char>) -> Seq<char> {
    if ascii(s) {
        ascii_lower(s)
    } else {
        wide_lower(s)
    }
}

/// `str::to_lowercase` maps a text to its lower-case form. Of ASCII it changes
/// the upper-case letters only, each to its lower-case letter.
#[verifier::external_body]
pub(crate) fn to_lower_case(s: &str) -> (r: String)
    ensures
        r@ == if ascii(s@) {
            ascii_lower(s@)
        } else {
            wide_lower(s@)
        },
{
    s.to_lowercase()
}

/// A text in double quotes with the escapes of Rust's `Debug` rendering.
pub uninterp spec fn debug_quoted(s: Seq<char>) -> Seq<char>;

/// The `Debug` rendering of a string slice.
#[verifier::external_body]
pub(crate) fn debug_quote(s: &str) -> (r: String)
    ensures
        r@ == debug_quoted(s@),
{
    format!("{s:?}")
}

/// One character inside a JSON string literal.
pub open spec fn json_char(c: char) -> Seq<char> {
    if c == '"' {
        seq!['\\', '"']
    } else if c == '\\' {
        seq!['\\', '\\']
    } else if c == '\n' {
        seq!['\\', 'n']
    } else if c == '\r' {
        seq!['\\', 'r']
    } else if c == '\t' {
        seq!['\\', 't']
    } else if c == '\u{8}' {
        seq!['\\', 'b']
    } else if c == '\u{c}' {
        seq!['\\', 'f']
    } else if (c as u32) <= 31 {
        seq!['\\', 'u', '0', '0', hex_char(c as u32 as nat / 16, false), hex_char(c as u32 as nat % 16, false)]
    } else {
        seq![c]
    }
}

/// The characters of a JSON string literal between its quotes.
pub open spec fn json_chars(s: Seq<char>) -> Seq<char>
    decreases s.len(),
{
    if s.len() == 0 {
        Seq::empty()
    } else {
        json_chars(s.drop_last()) + json_char(s.last())
    }
}

/// A text as a JSON string literal.
pub open spec fn json_quoted(s: Seq<char>) -> Seq<char> {
    seq!['"'] + json_chars(s) + seq!['"']
}

/// `serde_json::to_string` writes a string slice as a JSON string literal:
/// quotes, backslashes and the control characters below the space are
/// escaped, every other character stands for itself.
#[verifier::external_body]
pub(crate) fn json_quote_text(s: &str) -> (r: String)
    ensures
        r@ == json_quoted(s@),
{
    serde_json::to_string(s).unwrap_or_default()
}

/// How `serde_json` prints the number that a JSON number text denotes.
pub uninterp spec fn json_number(s: Seq<char>) -> Seq<char>;

/// The characters of a JSON number.
pub open spec fn number_char(c: char) -> bool {
    '0' <= c <= '9' || c == '-' || c == '+' || c == '.' || c == 'e'
}

/// `serde_json::from_str` reads a number, whose `Display` prints it in digits,
/// signs, a point and an `e`; a text that is no JSON number gives the empty
/// text.
#[verifier::external_body]
pub(crate) fn json_number_text(s: &str) -> (r: String)
    ensures
        r@ == json_number(s@),
        forall|i: int| 0 <= i < r@.len() ==> number_char(#[trigger] r@[i]),
{
    serde_json::from_str::<serde_json::Number>(s).map(|n| n.to_string()).unwrap_or_default()
}

/// The message of the error that keeps a text from being a URL, if any.
pub uninterp spec fn url_fault(s: Seq<char>) -> Option<Seq<char>>;

/// `url::Url::parse` fails or not; the message is its error's `Display`.
#[verifier::external_body]
pub(crate) fn find_url_fault(s: &str) -> (r: Option<String>)
    ensures
        opt_text(r) == url_fault(s@),
{
    url::Url::parse(s).err().map(|e| e.to_string())
}

/// The host of the URL that a text is.
pub uninterp spec fn url_host(s: Seq<char>) -> Option<Seq<char>>;

/// `url::Url::host_str` of the parsed text; a text that is no URL has none.
#[verifier::external_body]
pub(crate) fn find_url_host(s: &str) -> (r: Option<String>)
    ensures
        opt_text(r) == url_host(s@),
{
    url::Url::parse(s).ok().and_then(|u| u.host_str().map(|h| h.to_string()))
}

/// The path segments of the URL that a text is.
pub uninterp spec fn url_segments(s: Seq<char>) -> Option<Seq<Seq<char>>>;

/// `url::Url::path_segments` of the parsed text; a text that is no URL, or one
/// without a hierarchical path, has none.
#[verifier::external_body]
pub(crate) fn find_url_segments(s: &str) -> (r: Option<Vec<String>>)
    ensures
        opt_texts(r) == url_segments(s@),
{
    url::Url::parse(s).ok().and_then(|u| u.path_segments().map(|p| p.map(|x| x.to_string()).collect()))
}

/// The decoded pairs of the query of the URL that a text is.
pub uninterp spec fn url_query(s: Seq<char>) -> Seq<(Seq<char>, Seq<char>)>;

/// `url::Url::query_pairs` of the parsed text, in order; a text that is no URL
/// has none.
#[verifier::external_body]
pub(crate) fn find_url_query(s: &str) -> (r: Vec<(String, String)>)
    ensures
        pair_views(r@) == url_query(s@),
{
    let pairs = url::Url::parse(s).ok().map(|u| u.query_pairs().into_owned().collect());
    pairs.unwrap_or_default()
}

/// How Rust's `Display` writes the binary64 number that a JSON number text
/// denotes.
pub uninterp spec fn displayed(s: Seq<char>) -> Seq<char>;

/// `serde_json::from_str` reads a number, and `Display` writes it as a
/// binary64 value: the fewest digits that read back as the same number, never
/// with an exponent. A text that is no JSON number gives the empty text.
#[verifier::external_body]
pub(crate) fn display_text(s: &str) -> (r: String)
    ensures
        r@ == displayed(s@),
{
    let n = serde_json::from_str::<serde_json::Number>(s).ok().and_then(|n| n.as_f64());
    n.map(|v| format!("{}", v)).unwrap_or_default()
}

/// The SHA-1 digest of the UTF-8 bytes of a text.
pub uninterp spec fn sha1_digest(s: Seq<char>) -> [u8; 20];

/// `sha1::Sha1` hashes the bytes of a text; its digest has 20 bytes.
#[verifier::external_body]
pub(crate) fn sha1_bytes(s: &str) -> (r: Vec<u8>)
    ensures
        r@ == sha1_digest(s@)@,
{
    let mut h = <sha1::Sha1 as sha1::Digest>::new();
    sha1::Digest::update(&mut h, s.as_bytes());
    sha1::Digest::finalize(h).to_vec()
}

/// A map that keeps its keys in the order of their first insertion.
#[verifier::external_type_specification]
#[verifier::external_body]
#[verifier::reject_recursive_types(K)]
#[verifier::reject_recursive_types(V)]
#[verifier::reject_recursive_types(S)]
pub struct ExIndexMap<K, V, S>(indexmap::IndexMap<K, V, S>);

/// The entries of an index, first inserted first.
pub uninterp spec fn index_rows(t: indexmap::IndexMap<String, usize>) -> Seq<(Seq<char>, usize)>;

/// The value from row `i` on for a key.
pub open spec fn row_from(rows: Seq<(Seq<char>, usize)>, k: Seq<char>, i: int) -> Option<usize>
    decreases rows.len() - i,
{
    if i < 0 || i >= rows.len() {
        None
    } else if rows[i].0 == k {
        Some(rows[i].1)
    } else {
        row_from(rows, k, i + 1)
    }
}

/// `indexmap::IndexMap::new` is empty.
#[verifier::external_body]
pub(crate) fn new_index() -> (r: indexmap::IndexMap<String, usize>)
    ensures
        index_rows(r) == Seq::<(Seq<char>, usize)>::empty(),
{
    indexmap::IndexMap::new()
}

/// `indexmap::IndexMap::get` finds the value of a key.
#[verifier::external_body]
pub(crate) fn index_get(t: &indexmap::IndexMap<String, usize>, k: &str) -> (r: Option<usize>)
    ensures
        r == row_from(index_rows(*t), k@, 0),
{
    t.get(k).copied()
}

/// `indexmap::IndexMap::insert` puts a new key last; this wrapper is for keys
/// that are new.
#[verifier::external_body]
pub(crate) fn index_insert(t: &mut indexmap::IndexMap<String, usize>, k: &str, v: usize)
    requires
        row_from(index_rows(*old(t)), k@, 0) is None,
    ensures
        index_rows(*final(t)) == index_rows(*old(t)).push((k@, v)),
{
    t.insert(k.to_string(), v);
}

/// `indexmap::IndexMap::keys` hands out the keys in the order of insertion.
#[verifier::external_body]
pub(crate) fn index_keys(t: &indexmap::IndexMap<String, usize>) -> (r: Vec<String>)
    ensures
        views(r@) == index_rows(*t).map_values(|x: (Seq<char>, usize)| x.0),
{
    t.keys().cloned().collect()
}

/// The YAML text of the value that a JSON text denotes.
pub uninterp spec fn yaml_text(s: Seq<char>) -> Seq<char>;

/// `serde_yaml::to_string` of the value that `serde_json` reads from a text; a
/// text that is no JSON gives the empty text.
#[verifier::external_body]
pub(crate) fn to_yaml(s: &str) -> (r: String)
    ensures
        r@ == yaml_text(s@),
{
    let mut d = serde_json::Deserializer::from_str(s);
    d.disable_recursion_limit();
    let v = <serde_json::Value as serde::Deserialize>::deserialize(&mut d).ok();
    v.and_then(|v| serde_yaml::to_string(&v).ok()).unwrap_or_default()
}

/// The JSON text of the value that a JSON text denotes, one field a line.
pub uninterp spec fn pretty_text(s: Seq<char>) -> Seq<char>;

/// `serde_json::to_string_pretty` of the value that `serde_json` reads from a
/// text; a text that is no JSON gives the empty text.
#[verifier::external_body]
pub(crate) fn to_pretty(s: &str) -> (r: String)
    ensures
        r@ == pretty_text(s@),
{
    let mut d = serde_json::Deserializer::from_str(s);
    d.disable_recursion_limit();
    let v = <serde_json::Value as serde::Deserialize>::deserialize(&mut d).ok();
    v.and_then(|v| serde_json::to_string_pretty(&v).ok()).unwrap_or_default()
}

/// The text of bytes that are not UTF-8, with a replacement character for what
/// is wrong in them.
pub uninterp spec fn lossy_text(b: Seq<u8>) -> Seq<char>;

/// Whether bytes are the UTF-8 form of a text.
pub open spec fn is_utf8(b: Seq<u8>) -> bool {
    exists|t: Seq<char>| #[trigger] utf8_text(t) == b
}

/// The text of bytes.
pub open spec fn text_of_bytes(b: Seq<u8>) -> Seq<char> {
    if is_utf8(b) {
        choose|t: Seq<char>| #[trigger] utf8_text(t) == b
    } else {
        lossy_text(b)
    }
}

/// `String::from_utf8_lossy` gives the text whose UTF-8 form the bytes are. Of
/// bytes that are not UTF-8 the text is named; which runs of bytes a replacement
/// character stands for is not stated.
#[verifier::external_body]
pub(crate) fn read_text(b: &Vec<u8>) -> (r: String)
    ensures
        is_utf8(b@) ==> utf8_text(r@) == b@,
        !is_utf8(b@) ==> r@ == lossy_text(b@),
{
    String::from_utf8_lossy(b).into_owned()
}

/// The width and the height of the image that bytes encode, or the message of
/// the error that keeps them from being one.
pub uninterp spec fn image_size(b: Seq<u8>) -> Result<(u32, u32), Seq<char>>;

/// The text of an error.
pub open spec fn size_view(r: Result<(u32, u32), String>) -> Result<(u32, u32), Seq<char>> {
    match r {
        Ok(d) => Ok(d),
        Err(e) => Err(e@),
    }
}

/// `image::load_from_memory` decodes bytes to an image with a `width` and a
/// `height`, or fails with an error whose `Display` is the message.
#[verifier::external_body]
pub(crate) fn find_image_size(b: &Vec<u8>) -> (r: Result<(u32, u32), String>)
    ensures
        size_view(r) == image_size(b@),
{
    image::load_from_memory(b).map(|i| (i.width(), i.height())).map_err(|e| e.to_string())
}

/// The bit pattern of the binary64 number that a text denotes.
pub uninterp spec fn number_bits(s: Seq<char>) -> Option<u64>;

/// The number with a bit pattern.
pub open spec fn number_of(bits: Option<u64>) -> Option<Dbl> {
    match bits {
        Some(b) => Some(decoded(b)),
        None => None,
    }
}

/// `str::parse` reads a binary64 number, of which this is the bit pattern; what
/// is no number has many bit patterns, and which one comes is left open. (The
/// call of `from_f64` fixes the type that is read.)
#[verifier::external_body]
pub(crate) fn parse_number_bits(s: &str) -> (r: Option<u64>)
    ensures
        number_of(r) == number_of(number_bits(s@)),
{
    s.parse().ok().map(|v| (serde_json::Number::from_f64(v), v.to_bits()).1)
}

} // verus!
