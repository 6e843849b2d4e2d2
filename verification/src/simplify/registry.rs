//! The styles of a design: each value is registered once, under the name of its
//! Figma style or under an id that is made of its content.

use vstd::prelude::*;

use crate::json::{
    as_obj, as_str, field, get, get_after_put, has_key, object_of, put, str_field, str_of, Fields, Json, Object, Value,
};
use crate::simplify::canonical::{stable_stringify, stable_text};
use crate::simplify::gradient::{turns_view, Turn, Turns};
use crate::simplify::hex::{digest, sha1_hex};
use crate::strings::{cat2, cat3, chars_of, decimal, decimal_of, opt_text, pair_views, same, text_of, views};

verus! {

/// Pairs of a text and an id.
pub type Ids = Seq<(Seq<char>, Seq<char>)>;

/// The id from row `i` on for a text.
pub open spec fn id_from(ids: Ids, text: Seq<char>, i: int) -> Option<Seq<char>>
    decreases ids.len() - i,
{
    if i < 0 || i >= ids.len() {
        None
    } else if ids[i].0 == text {
        Some(ids[i].1)
    } else {
        id_from(ids, text, i + 1)
    }
}

/// The id for a text.
pub open spec fn id_for(ids: Ids, text: Seq<char>) -> Option<Seq<char>> {
    id_from(ids, text, 0)
}

fn find_id(ids: &Vec<(String, String)>, text: &str) -> (r: Option<String>)
    ensures
        opt_text(r) == id_for(pair_views(ids@), text@),
{
    let ghost rows = pair_views(ids@);
    let mut i: usize = 0;
    while i < ids.len()
        invariant
            i <= ids.len(),
            rows == pair_views(ids@),
            id_for(rows, text@) == id_from(rows, text@, i as int),
        decreases ids.len() - i,
    {
        assert(rows[i as int] == (ids@[i as int].0@, ids@[i as int].1@));
        if same(ids[i].0.as_str(), text) {
            return Some(ids[i].1.clone());
        }
        i += 1;
    }
    None
}

proof fn lemma_id_after_push(ids: Ids, text: Seq<char>, id: Seq<char>, i: int)
    requires
        0 <= i <= ids.len(),
    ensures
        id_from(ids, text, i) matches Some(x) ==> id_from(ids.push((text, id)), text, i) == Some(x),
        id_from(ids, text, i) is None ==> id_from(ids.push((text, id)), text, i) == Some(id),
    decreases ids.len() - i,
{
    let more = ids.push((text, id));
    if i < ids.len() {
        assert(more[i] == ids[i]);
        lemma_id_after_push(ids, text, id, i + 1);
    } else {
        assert(more[i] == (text, id));
    }
}

/// What the traversal of a document has collected.
pub struct State {
    /// The styles by id, first used first.
    pub styles: Fields,
    /// The ids that were made of the content of a style.
    pub cache: Ids,
    /// The ids of the text styles that runs refer to.
    pub inline: Ids,
    /// The ids that are names of Figma styles.
    pub named: Seq<Seq<char>>,
    /// The property definitions of components by id.
    pub defs: Fields,
    /// The Figma styles of the document by id.
    pub extra: Fields,
    /// The angles of gradients.
    pub turns: Turns,
}

/// What the traversal of a document has collected.
#[derive(Debug)]
pub struct Ctx {
    pub styles: Object,
    pub style_cache: Vec<(String, String)>,
    pub inline_cache: Vec<(String, String)>,
    pub named_style_keys: Vec<String>,
    pub prop_defs: Object,
    pub extra_styles: Object,
    pub turns: Vec<Turn>,
}

impl View for Ctx {
    type V = State;

    open spec fn view(&self) -> State {
        State {
            styles: self.styles@,
            cache: pair_views(self.style_cache@),
            inline: pair_views(self.inline_cache@),
            named: views(self.named_style_keys@),
            defs: self.prop_defs@,
            extra: self.extra_styles@,
            turns: turns_view(self.turns@),
        }
    }
}

/// The state before anything is collected.
pub open spec fn fresh(extra: Fields, turns: Turns) -> State {
    State {
        styles: Fields::empty(),
        cache: Seq::empty(),
        inline: Seq::empty(),
        named: Seq::empty(),
        defs: Fields::empty(),
        extra,
        turns,
    }
}

impl Ctx {
    /// Nothing collected yet.
    pub fn new(extra_styles: Object, turns: Vec<Turn>) -> (r: Ctx)
        ensures
            r@ == fresh(extra_styles@, turns_view(turns@)),
    {
        let r = Ctx {
            styles: Object::new(),
            style_cache: Vec::new(),
            inline_cache: Vec::new(),
            named_style_keys: Vec::new(),
            prop_defs: Object::new(),
            extra_styles,
            turns,
        };
        assert(r@.cache =~= Seq::empty());
        assert(r@.inline =~= Seq::empty());
        assert(r@.named =~= Seq::empty());
        r
    }
}

// ---------------------------------------------------------------------------
// Ids made of content
// ---------------------------------------------------------------------------

/// A prefix and the first `len` digits of a digest.
pub open spec fn short_id(prefix: Seq<char>, full: Seq<char>, len: int) -> Seq<char> {
    prefix + "_"@ + full.subrange(0, len)
}

/// The shortest id from `len` digits on that is not taken; all digits if each
/// is.
pub open spec fn free_id(styles: Fields, prefix: Seq<char>, full: Seq<char>, len: int) -> Seq<char>
    decreases full.len() + 4 - len,
{
    if len >= full.len() {
        prefix + "_"@ + full
    } else if !has_key(styles, short_id(prefix, full, len)) {
        short_id(prefix, full, len)
    } else {
        free_id(styles, prefix, full, len + 4)
    }
}

/// The id of a value that is not named: the one that it has, or a new one.
pub open spec fn var_id(styles: Fields, cache: Ids, value: Json, prefix: Seq<char>) -> Seq<char> {
    match id_for(cache, stable_text(value)) {
        Some(id) => id,
        None => free_id(styles, prefix, digest(stable_text(value)), 8),
    }
}

/// The styles with a value that is not named.
pub open spec fn var_styles(styles: Fields, cache: Ids, value: Json, prefix: Seq<char>) -> Fields {
    match id_for(cache, stable_text(value)) {
        Some(_) => styles,
        None => put(styles, var_id(styles, cache, value, prefix), value),
    }
}

/// The ids with that of a value that is not named.
pub open spec fn var_cache(styles: Fields, cache: Ids, value: Json, prefix: Seq<char>) -> Ids {
    match id_for(cache, stable_text(value)) {
        Some(_) => cache,
        None => cache.push((stable_text(value), var_id(styles, cache, value, prefix))),
    }
}

/// Finds the shortest id with a prefix and digits of a digest that no style has.
pub fn find_free_id(styles: &Object, prefix: &str, full: &str) -> (r: String)
    requires
        full@.len() == 40,
    ensures
        r@ == free_id(styles@, prefix@, full@, 8),
{
    let digits = chars_of(full);
    let mut len: usize = 8;
    while len < digits.len()
        invariant
            digits@ == full@,
            full@.len() == 40,
            8 <= len <= 40,
            len % 4 == 0,
            free_id(styles@, prefix@, full@, 8) == free_id(styles@, prefix@, full@, len as int),
        decreases 44 - len,
    {
        let id = cat3(prefix, "_", text_of(&digits, 0, len).as_str());
        if !styles.contains_key(id.as_str()) {
            return id;
        }
        len += 4;
    }
    cat3(prefix, "_", full)
}

/// Registers a value under an id made of its content; a value that was
/// registered before keeps its id.
pub fn find_or_create_var(styles: &mut Object, cache: &mut Vec<(String, String)>, value: Value, prefix: &str) -> (r:
    String)
    ensures
        r@ == var_id(old(styles)@, pair_views(old(cache)@), value@, prefix@),
        final(styles)@ == var_styles(old(styles)@, pair_views(old(cache)@), value@, prefix@),
        pair_views(final(cache)@) == var_cache(old(styles)@, pair_views(old(cache)@), value@, prefix@),
{
    let key = stable_stringify(&value);
    match find_id(cache, key.as_str()) {
        Some(id) => id,
        None => {
            let full = sha1_hex(key.as_str());
            let id = find_free_id(styles, prefix, full.as_str());
            styles.insert(id.clone(), value);
            let ghost before = pair_views(cache@);
            cache.push((key, id.clone()));
            assert(pair_views(cache@) =~= before.push((key@, id@)));
            id
        },
    }
}

/// A value registered twice has one id, and the second registration changes
/// nothing. A new id leads to the value, and the styles under other ids stay.
pub proof fn registered_once(styles: Fields, cache: Ids, value: Json, prefix: Seq<char>, again: Seq<char>)
    ensures
        ({
            let id = var_id(styles, cache, value, prefix);
            let styles2 = var_styles(styles, cache, value, prefix);
            let cache2 = var_cache(styles, cache, value, prefix);
            &&& var_id(styles2, cache2, value, again) == id
            &&& var_styles(styles2, cache2, value, again) == styles2
            &&& var_cache(styles2, cache2, value, again) == cache2
            &&& id_for(cache, stable_text(value)) is None ==> get(styles2, id) == Some(value)
            &&& forall|k: Seq<char>| k != id ==> #[trigger] get(styles2, k) == get(styles, k)
        }),
{
    let text = stable_text(value);
    let id = var_id(styles, cache, value, prefix);
    lemma_id_after_push(cache, text, id, 0);
    assert forall|k: Seq<char>| k != id implies #[trigger] get(var_styles(styles, cache, value, prefix), k) == get(
        styles,
        k,
    ) by {
        get_after_put(styles, id, value, k);
    }
    get_after_put(styles, id, value, id);
}

/// A new id is one that no style has, unless each id made of fewer than all
/// digits of the digest is taken.
pub proof fn new_id_is_free(styles: Fields, prefix: Seq<char>, full: Seq<char>, len: int)
    ensures
        has_key(styles, free_id(styles, prefix, full, len)) ==> free_id(styles, prefix, full, len) == prefix + "_"@
            + full,
    decreases full.len() + 4 - len,
{
    if len < full.len() && has_key(styles, short_id(prefix, full, len)) {
        new_id_is_free(styles, prefix, full, len + 4);
    }
}

// ---------------------------------------------------------------------------
// Named styles
// ---------------------------------------------------------------------------

/// The texts of a list of keys.
pub open spec fn key_texts(keys: Seq<&str>) -> Seq<Seq<char>> {
    keys.map_values(|k: &str| k@)
}

/// The id of the Figma style that a node has under the first of the keys from
/// `i` on.
pub open spec fn style_ref(styles: Fields, keys: Seq<Seq<char>>, i: int) -> Option<Seq<char>>
    decreases keys.len() - i,
{
    if i < 0 || i >= keys.len() {
        None
    } else {
        match as_str(get(styles, keys[i])) {
            Some(id) => Some(id),
            None => style_ref(styles, keys, i + 1),
        }
    }
}

/// The id of the Figma style of a node.
pub open spec fn node_style(node: Json, keys: Seq<Seq<char>>) -> Option<Seq<char>> {
    match as_obj(field(node, "styles"@)) {
        Some(styles) => style_ref(styles, keys, 0),
        None => None,
    }
}

/// The name of a Figma style, or its id when the document does not name it.
pub open spec fn style_name(extra: Fields, id: Seq<char>) -> Seq<char> {
    match get(extra, id) {
        Some(s) => match str_field(s, "name"@) {
            Some(name) => name,
            None => id,
        },
        None => id,
    }
}

/// The key of a named style: its name, with its id behind it where another
/// value has the name.
pub open spec fn named_key(styles: Fields, name: Seq<char>, id: Seq<char>, value: Json) -> Seq<char> {
    match get(styles, name) {
        None => name,
        Some(existing) => if stable_text(existing) == stable_text(value) {
            name
        } else {
            name + " ("@ + id + ")"@
        },
    }
}

/// The id of a style of a node.
pub open spec fn style_id(s: State, node: Json, value: Json, keys: Seq<Seq<char>>, prefix: Seq<char>) -> Seq<char> {
    match node_style(node, keys) {
        Some(id) => named_key(s.styles, style_name(s.extra, id), id, value),
        None => var_id(s.styles, s.cache, value, prefix),
    }
}

/// The state with a style of a node.
pub open spec fn with_style(s: State, node: Json, value: Json, keys: Seq<Seq<char>>, prefix: Seq<char>) -> State {
    match node_style(node, keys) {
        Some(_) => {
            let key = style_id(s, node, value, keys, prefix);
            State { styles: put(s.styles, key, value), named: s.named.push(key), ..s }
        },
        None => State {
            styles: var_styles(s.styles, s.cache, value, prefix),
            cache: var_cache(s.styles, s.cache, value, prefix),
            ..s
        },
    }
}

fn find_node_style(node: &Value, keys: &[&str]) -> (r: Option<String>)
    ensures
        opt_text(r) == node_style(node@, key_texts(keys@)),
{
    match object_of(node.get("styles")) {
        Some(styles) => {
            let ghost texts = key_texts(keys@);
            let mut i: usize = 0;
            while i < keys.len()
                invariant
                    i <= keys.len(),
                    texts == key_texts(keys@),
                    as_obj(field(node@, "styles"@)) == Some(styles@),
                    style_ref(styles@, texts, 0) == style_ref(styles@, texts, i as int),
                decreases keys.len() - i,
            {
                let k: &str = keys[i];
                assert(texts[i as int] == k@);
                match str_of(styles.get(k)) {
                    Some(id) => return Some(id.to_owned()),
                    None => {},
                }
                i += 1;
            }
            None
        },
        None => None,
    }
}

fn name_for(extra: &Object, id: &str) -> (r: String)
    ensures
        r@ == style_name(extra@, id@),
{
    match extra.get(id) {
        Some(s) => match str_of(s.get("name")) {
            Some(name) => name.to_owned(),
            None => id.to_owned(),
        },
        None => id.to_owned(),
    }
}

/// Registers a style of a node: under the name of its Figma style where it has
/// one, else under an id made of its content.
pub fn register_style(ctx: &mut Ctx, node: &Value, value: Value, style_keys: &[&str], prefix: &str) -> (r: String)
    ensures
        r@ == style_id(old(ctx)@, node@, value@, key_texts(style_keys@), prefix@),
        final(ctx)@ == with_style(old(ctx)@, node@, value@, key_texts(style_keys@), prefix@),
{
    match find_node_style(node, style_keys) {
        Some(id) => {
            let name = name_for(&ctx.extra_styles, id.as_str());
            let fits = match ctx.styles.get(name.as_str()) {
                None => true,
                Some(existing) => same(stable_stringify(existing).as_str(), stable_stringify(&value).as_str()),
            };
            let key = if fits {
                name
            } else {
                cat3(cat2(name.as_str(), " (").as_str(), id.as_str(), ")")
            };
            ctx.styles.insert(key.clone(), value);
            let ghost before = views(ctx.named_style_keys@);
            ctx.named_style_keys.push(key.clone());
            assert(views(ctx.named_style_keys@) =~= before.push(key@));
            key
        },
        None => find_or_create_var(&mut ctx.styles, &mut ctx.style_cache, value, prefix),
    }
}

// ---------------------------------------------------------------------------
// Inline styles
// ---------------------------------------------------------------------------

/// The id of a text style that a run refers to: they are counted.
pub open spec fn inline_id(s: State, delta: Json) -> Seq<char> {
    match id_for(s.inline, stable_text(delta)) {
        Some(id) => id,
        None => "ts"@ + decimal(s.inline.len() + 1),
    }
}

/// The state with a text style that a run refers to.
pub open spec fn with_inline(s: State, delta: Json) -> State {
    match id_for(s.inline, stable_text(delta)) {
        Some(_) => s,
        None => State {
            styles: put(s.styles, inline_id(s, delta), delta),
            inline: s.inline.push((stable_text(delta), inline_id(s, delta))),
            ..s
        },
    }
}

/// Registers a text style that a run refers to under a short id: `ts1`, `ts2`
/// and so on. A style that was registered before keeps its id.
pub fn register_inline_style(ctx: &mut Ctx, delta: Value) -> (r: String)
    ensures
        r@ == inline_id(old(ctx)@, delta@),
        final(ctx)@ == with_inline(old(ctx)@, delta@),
        final(ctx).turns@ == old(ctx).turns@,
{
    let key = stable_stringify(&delta);
    match find_id(&ctx.inline_cache, key.as_str()) {
        Some(id) => id,
        None => {
            let id = cat2("ts", decimal_of(ctx.inline_cache.len() as u128 + 1).as_str());
            ctx.styles.insert(id.clone(), delta);
            let ghost before = pair_views(ctx.inline_cache@);
            ctx.inline_cache.push((key, id.clone()));
            assert(pair_views(ctx.inline_cache@) =~= before.push((key@, id@)));
            id
        },
    }
}

/// A text style registered twice has one id, which leads to it, and the second
/// registration changes nothing.
pub proof fn inline_registered_once(s: State, delta: Json)
    ensures
        inline_id(with_inline(s, delta), delta) == inline_id(s, delta),
        with_inline(with_inline(s, delta), delta) == with_inline(s, delta),
        id_for(s.inline, stable_text(delta)) is None ==> get(with_inline(s, delta).styles, inline_id(s, delta)) == Some(
            delta,
        ),
{
    lemma_id_after_push(s.inline, stable_text(delta), inline_id(s, delta), 0);
    get_after_put(s.styles, inline_id(s, delta), delta, inline_id(s, delta));
}

/// A style that a node takes from the file goes by its name there, and holds what
/// the node shows; a name that another style has is told apart by the id.
pub proof fn named_styles_keep_their_names(
    s: State,
    node: Json,
    value: Json,
    keys: Seq<Seq<char>>,
    prefix: Seq<char>,
    id: Seq<char>,
    name: Seq<char>,
)
    requires
        node_style(node, keys) == Some(id),
        get(s.extra, id) matches Some(x) && str_field(x, "name"@) == Some(name),
    ensures
        ({
            let key = style_id(s, node, value, keys, prefix);
            let after = with_style(s, node, value, keys, prefix);
            &&& get(after.styles, key) == Some(value)
            &&& after.named.contains(key)
            &&& get(s.styles, name) is None || get(s.styles, name) == Some(value) ==> key == name
            &&& key == name || key == name + " ("@ + id + ")"@
            &&& forall|k: Seq<char>| k != key ==> #[trigger] get(after.styles, k) == get(s.styles, k)
        }),
{
    let key = style_id(s, node, value, keys, prefix);
    let after = with_style(s, node, value, keys, prefix);
    get_after_put(s.styles, key, value, key);
    assert(after.named[s.named.len() as int] == key);
    assert forall|k: Seq<char>| k != key implies #[trigger] get(after.styles, k) == get(s.styles, k) by {
        get_after_put(s.styles, key, value, k);
    }
}

/// The style that a node takes from the file is the one under the first key that it
/// has.
pub proof fn styles_are_found(node: Json, styles: Fields, one: Seq<char>, many: Seq<char>, id: Seq<char>)
    requires
        field(node, "styles"@) == Some(Json::Obj(styles)),
    ensures
        as_str(get(styles, one)) == Some(id) ==> node_style(node, seq![one, many]) == Some(id),
        as_str(get(styles, one)) is None && as_str(get(styles, many)) == Some(id) ==> node_style(node, seq![one, many])
            == Some(id),
        as_str(get(styles, one)) is None && as_str(get(styles, many)) is None ==> node_style(node, seq![one, many]) is None,
{
    let keys = seq![one, many];
    assert(keys[0] == one && keys[1] == many);
    reveal_with_fuel(style_ref, 3);
}

} // verus!
