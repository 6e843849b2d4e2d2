//! Components: property names, property definitions and references, and the
//! listing of components and component sets.

use vstd::prelude::*;

use crate::json::{
    as_str, copy_some, field, get, opt_value, put, put_some, str_field, str_of, text_is, Fields, Json, Object, Value,
};
use crate::strings::{chars_of, find, find_chars, find_from, same, text_of};

verus! {

/// A property name without its `#` suffix.
pub open spec fn bare_name(name: Seq<char>) -> Seq<char> {
    match find(name, "#"@) {
        Some(i) => name.subrange(0, i),
        None => name,
    }
}

/// Cuts a property name before its first `#`.
pub fn strip_property_name_suffix(name: &str) -> (r: String)
    ensures
        r@ == bare_name(name@),
{
    let chars = chars_of(name);
    match find_chars(&chars, &chars_of("#"), 0) {
        Some(i) => text_of(&chars, 0, i),
        None => name.to_owned(),
    }
}

// ---------------------------------------------------------------------------
// Properties
// ---------------------------------------------------------------------------

/// The compact definition of a boolean or text property; others have none.
pub open spec fn definition_of(def: Json) -> Option<Json> {
    let kind = str_field(def, "type"@);
    if kind == Some("BOOLEAN"@) {
        Some(Json::Obj(put_some(put(Fields::empty(), "type"@, Json::Str("boolean"@)), "defaultValue"@, field(def, "defaultValue"@))))
    } else if kind == Some("TEXT"@) {
        Some(Json::Obj(put_some(put(Fields::empty(), "type"@, Json::Str("text"@)), "defaultValue"@, field(def, "defaultValue"@))))
    } else {
        None
    }
}

/// The definitions of the first `n` properties under their bare names.
pub open spec fn definitions(defs: Fields, n: nat) -> Fields
    decreases n,
{
    if n == 0 {
        Fields::empty()
    } else {
        put_some(
            definitions(defs, (n - 1) as nat),
            bare_name(defs[n - 1].0),
            definition_of(defs[n - 1].1),
        )
    }
}

fn define(def: &Value) -> (r: Option<Value>)
    ensures
        opt_value(r) == definition_of(def@),
{
    let kind = str_of(def.get("type"));
    let mut d = Object::new();
    if text_is(kind, "BOOLEAN") {
        d.put_str("type", "boolean");
    } else if text_is(kind, "TEXT") {
        d.put_str("type", "text");
    } else {
        return None;
    }
    d.put_some("defaultValue", copy_some(def.get("defaultValue")));
    Some(Value::Object(d))
}

/// Keeps the boolean and text properties of a component's definitions.
pub fn simplify_property_definitions(defs: &Object) -> (r: Object)
    ensures
        r@ == definitions(defs@, defs@.len()),
{
    let mut out = Object::new();
    let mut i: usize = 0;
    while i < defs.entries.len()
        invariant
            i <= defs.entries.len(),
            out@ == definitions(defs@, i as nat),
        decreases defs.entries.len() - i,
    {
        let e = &defs.entries[i];
        out.put_some(strip_property_name_suffix(e.0.as_str()).as_str(), define(&e.1));
        i += 1;
    }
    out
}

/// The compact name of a property reference that is kept.
pub open spec fn reference_key(k: Seq<char>) -> Option<Seq<char>> {
    if k == "visible"@ {
        Some("visible"@)
    } else if k == "characters"@ {
        Some("text"@)
    } else {
        None
    }
}

/// The property that a reference names.
pub open spec fn reference_value(v: Json) -> Json {
    match v {
        Json::Str(s) => Json::Str(bare_name(s)),
        _ => Json::Str(""@),
    }
}

/// The first `n` references.
pub open spec fn references(refs: Fields, n: nat) -> Fields
    decreases n,
{
    if n == 0 {
        Fields::empty()
    } else {
        let before = references(refs, (n - 1) as nat);
        match reference_key(refs[n - 1].0) {
            Some(k) => put(before, k, reference_value(refs[n - 1].1)),
            None => before,
        }
    }
}

/// Keeps the references that drive visibility and text.
pub fn simplify_property_references(refs: &Object) -> (r: Object)
    ensures
        r@ == references(refs@, refs@.len()),
{
    let mut out = Object::new();
    let mut i: usize = 0;
    while i < refs.entries.len()
        invariant
            i <= refs.entries.len(),
            out@ == references(refs@, i as nat),
        decreases refs.entries.len() - i,
    {
        let e = &refs.entries[i];
        let value = match &e.1 {
            Value::String(s) => Value::String(strip_property_name_suffix(s.as_str())),
            _ => Value::String("".to_owned()),
        };
        if same(e.0.as_str(), "visible") {
            out.put("visible", value);
        } else if same(e.0.as_str(), "characters") {
            out.put("text", value);
        }
        i += 1;
    }
    out
}

/// The value of a boolean or text property.
pub open spec fn property_value(prop: Json) -> Option<Json> {
    let kind = str_field(prop, "type"@);
    if kind == Some("BOOLEAN"@) || kind == Some("TEXT"@) {
        field(prop, "value"@)
    } else {
        None
    }
}

/// The values of the first `n` properties under their bare names.
pub open spec fn properties(props: Fields, n: nat) -> Fields
    decreases n,
{
    if n == 0 {
        Fields::empty()
    } else {
        put_some(
            properties(props, (n - 1) as nat),
            bare_name(props[n - 1].0),
            property_value(props[n - 1].1),
        )
    }
}

/// Keeps the values of an instance's boolean and text properties.
pub fn simplify_component_properties(props: &Object) -> (r: Object)
    ensures
        r@ == properties(props@, props@.len()),
{
    let mut out = Object::new();
    let mut i: usize = 0;
    while i < props.entries.len()
        invariant
            i <= props.entries.len(),
            out@ == properties(props@, i as nat),
        decreases props.entries.len() - i,
    {
        let e = &props.entries[i];
        let kind = str_of(e.1.get("type"));
        let value = if text_is(kind, "BOOLEAN") || text_is(kind, "TEXT") {
            copy_some(e.1.get("value"))
        } else {
            None
        };
        out.put_some(strip_property_name_suffix(e.0.as_str()).as_str(), value);
        i += 1;
    }
    out
}

// ---------------------------------------------------------------------------
// Listings
// ---------------------------------------------------------------------------

/// The listing of one component or component set: its id, `key`, `name`, one
/// more field and its property definitions.
pub open spec fn listed(id: Seq<char>, item: Json, extra: Seq<char>, defs: Fields) -> Json {
    let a = put(Fields::empty(), "id"@, Json::Str(id));
    let b = put_some(a, "key"@, field(item, "key"@));
    let c = put_some(b, "name"@, field(item, "name"@));
    let d = put_some(c, extra, field(item, extra));
    Json::Obj(put_some(d, "propertyDefinitions"@, get(defs, id)))
}

/// The listing of the first `n` items.
pub open spec fn listing(all: Fields, extra: Seq<char>, defs: Fields, n: nat) -> Fields
    decreases n,
{
    if n == 0 {
        Fields::empty()
    } else {
        put(
            listing(all, extra, defs, (n - 1) as nat),
            all[n - 1].0,
            listed(all[n - 1].0, all[n - 1].1, extra, defs),
        )
    }
}

fn list_items(all: &Object, extra: &str, defs: &Object) -> (r: Object)
    ensures
        r@ == listing(all@, extra@, defs@, all@.len()),
{
    let mut out = Object::new();
    let mut i: usize = 0;
    while i < all.entries.len()
        invariant
            i <= all.entries.len(),
            out@ == listing(all@, extra@, defs@, i as nat),
        decreases all.entries.len() - i,
    {
        let e = &all.entries[i];
        let mut d = Object::new();
        d.put_str("id", e.0.as_str());
        d.put_some("key", copy_some(e.1.get("key")));
        d.put_some("name", copy_some(e.1.get("name")));
        d.put_some(extra, copy_some(e.1.get(extra)));
        d.put_some("propertyDefinitions", copy_some(defs.get(e.0.as_str())));
        out.put(e.0.as_str(), Value::Object(d));
        i += 1;
    }
    out
}

/// Lists the components by id.
pub fn simplify_components(all: &Object, prop_defs: &Object) -> (r: Object)
    ensures
        r@ == listing(all@, "componentSetId"@, prop_defs@, all@.len()),
{
    list_items(all, "componentSetId", prop_defs)
}

/// Lists the component sets by id.
pub fn simplify_component_sets(all: &Object, prop_defs: &Object) -> (r: Object)
    ensures
        r@ == listing(all@, "description"@, prop_defs@, all@.len()),
{
    list_items(all, "description", prop_defs)
}

/// A bare name has no `#`, and is all of a name that has none.
pub proof fn bare_names(name: Seq<char>)
    ensures
        !bare_name(name).contains('#'),
        !name.contains('#') ==> bare_name(name) == name,
{
    reveal_strlit("#");
    lemma_hash_from(name, 0);
}

proof fn lemma_hash_from(name: Seq<char>, i: int)
    requires
        0 <= i <= name.len(),
    ensures
        find_from(name, "#"@, i) matches Some(j) ==> i <= j < name.len() && name[j] == '#' && (
        forall|m: int| i <= m < j ==> name[m] != '#'),
        find_from(name, "#"@, i) is None ==> (forall|m: int| i <= m < name.len() ==> name[m] != '#'),
    decreases name.len() - i,
{
    reveal_strlit("#");
    if i < name.len() {
        if name[i] == '#' {
            assert(name.subrange(i, i + 1) =~= "#"@);
        } else {
            assert(name.subrange(i, i + 1)[0] == name[i]);
            assert("#"@[0] == '#');
            lemma_hash_from(name, i + 1);
        }
    } else {
        reveal_with_fuel(find_from, 2);
    }
}

} // verus!
