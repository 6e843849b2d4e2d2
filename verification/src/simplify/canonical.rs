//! Canonical JSON: values with the keys of their objects in order, and the one
//! text that a value has whatever the order of its keys.

use vstd::prelude::*;

use crate::json::{
    get, json_list, json_text, key_from, lemma_key_from, to_text, unique_keys, Fields, Json, Object, Value,
};
use crate::strings::{chars_of, same};

verus! {

// ---------------------------------------------------------------------------
// Order of texts
// ---------------------------------------------------------------------------

/// Whether a text stands before another one, character by character.
pub open spec fn text_less(a: Seq<char>, b: Seq<char>) -> bool
    decreases a.len(),
{
    if b.len() == 0 {
        false
    } else if a.len() == 0 {
        true
    } else if a[0] == b[0] {
        text_less(a.skip(1), b.skip(1))
    } else {
        a[0] < b[0]
    }
}

fn is_text_less(a: &str, b: &str) -> (r: bool)
    ensures
        r == text_less(a@, b@),
{
    let x = chars_of(a);
    let y = chars_of(b);
    let mut i: usize = 0;
    assert(a@.skip(0) =~= a@ && b@.skip(0) =~= b@);
    while i < x.len() && i < y.len()
        invariant
            i <= x.len(),
            i <= y.len(),
            x@ == a@,
            y@ == b@,
            text_less(a@, b@) == text_less(a@.skip(i as int), b@.skip(i as int)),
        decreases x.len() - i,
    {
        let ghost p = a@.skip(i as int);
        let ghost q = b@.skip(i as int);
        assert(p[0] == x@[i as int] && q[0] == y@[i as int]);
        if x[i] != y[i] {
            return x[i] < y[i];
        }
        assert(p.skip(1) =~= a@.skip(i + 1));
        assert(q.skip(1) =~= b@.skip(i + 1));
        i += 1;
    }
    i < y.len()
}

proof fn lemma_less_irreflexive(a: Seq<char>)
    ensures
        !text_less(a, a),
    decreases a.len(),
{
    if a.len() > 0 {
        lemma_less_irreflexive(a.skip(1));
    }
}

proof fn lemma_less_transitive(a: Seq<char>, b: Seq<char>, c: Seq<char>)
    requires
        text_less(a, b),
        text_less(b, c),
    ensures
        text_less(a, c),
    decreases a.len(),
{
    if a.len() > 0 && a[0] == b[0] && b[0] == c[0] {
        lemma_less_transitive(a.skip(1), b.skip(1), c.skip(1));
    }
}

proof fn lemma_less_total(a: Seq<char>, b: Seq<char>)
    ensures
        text_less(a, b) || text_less(b, a) || a == b,
    decreases a.len(),
{
    if a.len() == 0 || b.len() == 0 {
        if a.len() == 0 && b.len() == 0 {
            assert(a =~= b);
        }
    } else if a[0] == b[0] {
        lemma_less_total(a.skip(1), b.skip(1));
        if a.skip(1) == b.skip(1) {
            assert(a =~= seq![a[0]] + a.skip(1));
            assert(b =~= seq![b[0]] + b.skip(1));
        }
    }
}

// ---------------------------------------------------------------------------
// Canonical values
// ---------------------------------------------------------------------------

/// The place of key `k` from `i` on in an object with its keys in order.
pub open spec fn key_place(o: Fields, k: Seq<char>, i: int) -> int
    decreases o.len() - i,
{
    if 0 <= i < o.len() && text_less(o[i].0, k) {
        key_place(o, k, i + 1)
    } else {
        i
    }
}

/// An object with its keys in order and `v` under key `k`.
pub open spec fn sorted_put(o: Fields, k: Seq<char>, v: Json) -> Fields {
    let p = key_place(o, k, 0);
    if p < o.len() && o[p].0 == k {
        o.update(p, (k, v))
    } else {
        o.insert(p, (k, v))
    }
}

/// A value with the keys of its objects in order.
pub open spec fn canon(j: Json) -> Json
    decreases j, 0nat,
{
    match j {
        Json::Arr(a) => Json::Arr(
            Seq::new(
                a.len(),
                |i: int|
                    if 0 <= i < a.len() {
                        canon(a[i])
                    } else {
                        Json::Null
                    },
            ),
        ),
        Json::Obj(o) => Json::Obj(canon_fields(o, o.len())),
        _ => j,
    }
}

/// The first `n` entries of an object with its keys in order, throughout.
pub open spec fn canon_fields(o: Fields, n: nat) -> Fields
    decreases o, n,
{
    if n == 0 || n > o.len() {
        Fields::empty()
    } else {
        sorted_put(canon_fields(o, (n - 1) as nat), o[n - 1].0, canon(o[n - 1].1))
    }
}

/// The text of a value, whatever the order of its keys.
pub open spec fn stable_text(j: Json) -> Seq<char> {
    json_text(canon(j))
}

proof fn lemma_key_place(o: Fields, k: Seq<char>, i: int)
    requires
        0 <= i <= o.len(),
    ensures
        i <= key_place(o, k, i) <= o.len(),
        forall|m: int| i <= m < key_place(o, k, i) ==> text_less((#[trigger] o[m]).0, k),
        key_place(o, k, i) < o.len() ==> !text_less(o[key_place(o, k, i)].0, k),
    decreases o.len() - i,
{
    if i < o.len() && text_less(o[i].0, k) {
        lemma_key_place(o, k, i + 1);
    }
}

fn insert_sorted(o: &mut Object, k: String, v: Value)
    ensures
        final(o)@ == sorted_put(old(o)@, k@, v@),
{
    let ghost before = o@;
    let mut i: usize = 0;
    while i < o.entries.len() && is_text_less(o.entries[i].0.as_str(), k.as_str())
        invariant
            i <= o.entries.len(),
            o@ == before,
            key_place(before, k@, 0) == key_place(before, k@, i as int),
        decreases o.entries.len() - i,
    {
        i += 1;
    }
    assert(i == key_place(before, k@, 0));
    if i < o.entries.len() && same(o.entries[i].0.as_str(), k.as_str()) {
        o.entries.set(i, (k, v));
        assert(o@ =~= before.update(i as int, (k@, v@)));
    } else {
        o.entries.insert(i, (k, v));
        assert(o@ =~= before.insert(i as int, (k@, v@)));
    }
}

/// Puts the keys of the objects in a value in order.
pub fn canonical(value: &Value) -> (r: Value)
    ensures
        r@ == canon(value@),
    decreases *value,
{
    match value {
        Value::Array(a) => {
            let mut out: Vec<Value> = Vec::new();
            let mut i: usize = 0;
            while i < a.len()
                invariant
                    i <= a.len(),
                    out.len() == i,
                    *value is Array,
                    value->Array_0 == *a,
                    forall|k: int| 0 <= k < i ==> (#[trigger] out@[k])@ == canon(a@[k]@),
                decreases a.len() - i,
            {
                out.push(canonical(&a[i]));
                i += 1;
            }
            proof {
                assert(canon(value@)->Arr_0 =~= json_list(out@));
            }
            Value::Array(out)
        },
        Value::Object(o) => {
            let mut out = Object::new();
            let mut i: usize = 0;
            while i < o.entries.len()
                invariant
                    i <= o.entries.len(),
                    *value is Object,
                    value->Object_0 == *o,
                    out@ == canon_fields(o@, i as nat),
                decreases o.entries.len() - i,
            {
                let e = &o.entries[i];
                let v = canonical(&e.1);
                insert_sorted(&mut out, e.0.clone(), v);
                i += 1;
            }
            Value::Object(out)
        },
        _ => value.copy(),
    }
}

/// Writes a value as the one text that it has whatever the order of its keys.
pub fn stable_stringify(value: &Value) -> (r: String)
    ensures
        r@ == stable_text(value@),
{
    to_text(&canonical(value))
}

// ---------------------------------------------------------------------------
// Laws
// ---------------------------------------------------------------------------

/// The keys of an object are in order, and none occurs twice.
pub open spec fn keys_sorted(o: Fields) -> bool {
    forall|i: int, j: int| 0 <= i < j < o.len() ==> text_less((#[trigger] o[i]).0, (#[trigger] o[j]).0)
}

/// The canonical form of an optional value.
pub open spec fn canon_some(v: Option<Json>) -> Option<Json> {
    match v {
        Some(x) => Some(canon(x)),
        None => None,
    }
}

proof fn lemma_get_at(o: Fields, i: int)
    requires
        unique_keys(o),
        0 <= i < o.len(),
    ensures
        get(o, o[i].0) == Some(o[i].1),
{
    lemma_key_from(o, o[i].0, 0);
    match key_from(o, o[i].0, 0) {
        Some(j) => {
            if j < i {
                assert(o[j].0 != o[i].0);
            }
            if i < j {
                assert(o[i].0 != o[i].0);
            }
        },
        None => {
            assert(o[i].0 != o[i].0);
        },
    }
}

proof fn lemma_sorted_unique(o: Fields)
    requires
        keys_sorted(o),
    ensures
        unique_keys(o),
{
    assert forall|i: int, j: int| 0 <= i < j < o.len() implies (#[trigger] o[i]).0 != (#[trigger] o[j]).0 by {
        if o[i].0 == o[j].0 {
            lemma_less_irreflexive(o[i].0);
        }
    }
}

/// Reading an object after a sorted insertion.
proof fn lemma_sorted_put(o: Fields, k: Seq<char>, v: Json)
    requires
        keys_sorted(o),
    ensures
        keys_sorted(sorted_put(o, k, v)),
        get(sorted_put(o, k, v), k) == Some(v),
        forall|x: Seq<char>| x != k ==> #[trigger] get(sorted_put(o, k, v), x) == get(o, x),
{
    let p = key_place(o, k, 0);
    let s = sorted_put(o, k, v);
    lemma_key_place(o, k, 0);
    lemma_sorted_unique(o);
    let found = p < o.len() && o[p].0 == k;
    assert forall|i: int, j: int| 0 <= i < j < s.len() implies text_less(
        (#[trigger] s[i]).0,
        (#[trigger] s[j]).0,
    ) by {
        if found {
            assert(s[i].0 == o[i].0 && s[j].0 == o[j].0);
        } else {
            if p < o.len() {
                lemma_less_total(o[p].0, k);
            }
            if j < p {
                assert(s[i] == o[i] && s[j] == o[j]);
            } else if j == p {
                assert(s[i] == o[i]);
            } else if i < p {
                assert(s[i] == o[i] && s[j] == o[j - 1]);
            } else if i == p {
                assert(s[j] == o[j - 1]);
                if p < j - 1 {
                    assert(text_less(o[p].0, o[j - 1].0));
                    lemma_less_transitive(k, o[p].0, o[j - 1].0);
                }
            } else {
                assert(s[i] == o[i - 1] && s[j] == o[j - 1]);
            }
        }
    }
    lemma_sorted_unique(s);
    assert(s[p] == (k, v));
    lemma_get_at(s, p);
    assert forall|x: Seq<char>| x != k implies #[trigger] get(s, x) == get(o, x) by {
        lemma_key_from(o, x, 0);
        lemma_key_from(s, x, 0);
        match key_from(o, x, 0) {
            Some(m) => {
                if found || m < p {
                    assert(s[m] == o[m]);
                    lemma_get_at(s, m);
                } else {
                    assert(s[m + 1] == o[m]);
                    lemma_get_at(s, m + 1);
                }
            },
            None => {
                if let Some(m) = key_from(s, x, 0) {
                    if found || m < p {
                        assert(s[m] == o[m]);
                    } else if m > p {
                        assert(s[m] == o[m - 1]);
                    }
                }
            },
        }
    }
}

/// Two objects with their keys in order that read the same are the same.
proof fn lemma_sorted_same(a: Fields, b: Fields)
    requires
        keys_sorted(a),
        keys_sorted(b),
        forall|k: Seq<char>| #[trigger] get(a, k) == get(b, k),
    ensures
        a == b,
    decreases a.len(),
{
    lemma_sorted_unique(a);
    lemma_sorted_unique(b);
    if a.len() == 0 {
        if b.len() > 0 {
            lemma_get_at(b, 0);
            assert(get(a, b[0].0) == get(b, b[0].0));
        }
        assert(a =~= b);
    } else {
        lemma_get_at(a, 0);
        assert(get(b, a[0].0) == Some(a[0].1));
        lemma_key_from(b, a[0].0, 0);
        let j = key_from(b, a[0].0, 0)->0;
        lemma_get_at(b, 0);
        assert(get(a, b[0].0) == Some(b[0].1));
        lemma_key_from(a, b[0].0, 0);
        let i = key_from(a, b[0].0, 0)->0;
        if i > 0 && j > 0 {
            lemma_less_transitive(a[0].0, b[0].0, a[0].0);
            lemma_less_irreflexive(a[0].0);
        }
        assert(a[0].0 == b[0].0);
        let at = a.skip(1);
        let bt = b.skip(1);
        assert forall|k: Seq<char>| #[trigger] get(at, k) == get(bt, k) by {
            lemma_tail(a, k);
            lemma_tail(b, k);
            assert(get(a, k) == get(b, k));
        }
        assert(keys_sorted(at)) by {
            assert forall|x: int, y: int| 0 <= x < y < at.len() implies text_less(
                (#[trigger] at[x]).0,
                (#[trigger] at[y]).0,
            ) by {
                assert(at[x] == a[x + 1] && at[y] == a[y + 1]);
            }
        }
        assert(keys_sorted(bt)) by {
            assert forall|x: int, y: int| 0 <= x < y < bt.len() implies text_less(
                (#[trigger] bt[x]).0,
                (#[trigger] bt[y]).0,
            ) by {
                assert(bt[x] == b[x + 1] && bt[y] == b[y + 1]);
            }
        }
        lemma_sorted_same(at, bt);
        assert(a =~= seq![a[0]] + at);
        assert(b =~= seq![b[0]] + bt);
    }
}

/// Reading the tail of an object.
proof fn lemma_tail(a: Fields, k: Seq<char>)
    requires
        unique_keys(a),
        a.len() > 0,
    ensures
        get(a.skip(1), k) == if k == a[0].0 {
            None
        } else {
            get(a, k)
        },
{
    let t = a.skip(1);
    lemma_key_from(a, k, 0);
    lemma_key_from(t, k, 0);
    if let Some(i) = key_from(t, k, 0) {
        assert(t[i] == a[i + 1]);
        lemma_get_at(a, i + 1);
    } else {
        if let Some(i) = key_from(a, k, 0) {
            if i > 0 {
                assert(t[i - 1] == a[i]);
            }
        }
    }
}

/// The canonical entries are in order and read as the entries do.
proof fn lemma_canon_fields(o: Fields, n: nat)
    requires
        unique_keys(o),
        n <= o.len(),
    ensures
        keys_sorted(canon_fields(o, n)),
        forall|k: Seq<char>|
            #[trigger] get(canon_fields(o, n), k) == canon_some(get(o.subrange(0, n as int), k)),
    decreases n,
{
    let c = canon_fields(o, n);
    let now = o.subrange(0, n as int);
    assert(unique_keys(now)) by {
        assert forall|i: int, j: int| 0 <= i < j < now.len() implies (#[trigger] now[i]).0 != (#[trigger] now[j]).0 by {
            assert(now[i] == o[i] && now[j] == o[j]);
        }
    }
    if n > 0 {
        let before = o.subrange(0, n - 1);
        let (k0, v0) = (o[n - 1].0, o[n - 1].1);
        lemma_canon_fields(o, (n - 1) as nat);
        lemma_sorted_put(canon_fields(o, (n - 1) as nat), k0, canon(v0));
        assert forall|k: Seq<char>| #[trigger] get(c, k) == canon_some(get(now, k)) by {
            lemma_key_from(now, k, 0);
            lemma_key_from(before, k, 0);
            if k == k0 {
                assert(now[n - 1] == o[n - 1]);
                lemma_get_at(now, n - 1);
            } else {
                assert(get(now, k) == get(before, k)) by {
                    match key_from(before, k, 0) {
                        Some(i) => {
                            assert(now[i] == before[i]);
                            lemma_get_at(now, i);
                        },
                        None => {
                            if let Some(i) = key_from(now, k, 0) {
                                if i < n - 1 {
                                    assert(before[i] == now[i]);
                                }
                            }
                        },
                    }
                }
                assert(get(canon_fields(o, (n - 1) as nat), k) == canon_some(get(before, k)));
            }
        }
    } else {
        assert forall|k: Seq<char>| #[trigger] get(c, k) == canon_some(get(now, k)) by {
            lemma_key_from(now, k, 0);
            lemma_key_from(c, k, 0);
        }
    }
}

/// The canonical form of an object has its keys in order, each once.
pub proof fn canonical_is_sorted(o: Fields)
    requires
        unique_keys(o),
    ensures
        canon(Json::Obj(o)) matches Json::Obj(c) && keys_sorted(c) && unique_keys(c),
{
    lemma_canon_fields(o, o.len());
    lemma_sorted_unique(canon_fields(o, o.len()));
}

/// The canonical form of an object has the canonical form of each field.
pub proof fn canonical_keeps_fields(o: Fields, k: Seq<char>)
    requires
        unique_keys(o),
    ensures
        canon(Json::Obj(o)) matches Json::Obj(c) && get(c, k) == canon_some(get(o, k)),
{
    lemma_canon_fields(o, o.len());
    assert(o.subrange(0, o.len() as int) =~= o);
    assert(get(canon_fields(o, o.len()), k) == canon_some(get(o.subrange(0, o.len() as int), k)));
}

/// The order of keys does not matter: two objects whose fields have the same
/// canonical forms have the same canonical form and the same text.
pub proof fn canonical_ignores_order(a: Fields, b: Fields)
    requires
        unique_keys(a),
        unique_keys(b),
        forall|k: Seq<char>| canon_some(#[trigger] get(a, k)) == canon_some(get(b, k)),
    ensures
        canon(Json::Obj(a)) == canon(Json::Obj(b)),
        stable_text(Json::Obj(a)) == stable_text(Json::Obj(b)),
{
    lemma_canon_fields(a, a.len());
    lemma_canon_fields(b, b.len());
    assert(a.subrange(0, a.len() as int) =~= a);
    assert(b.subrange(0, b.len() as int) =~= b);
    let x = canon_fields(a, a.len());
    let y = canon_fields(b, b.len());
    assert forall|k: Seq<char>| #[trigger] get(x, k) == get(y, k) by {
        assert(canon_some(get(a, k)) == canon_some(get(b, k)));
    }
    lemma_sorted_same(x, y);
}

/// All objects in a value have each key once.
pub open spec fn proper(j: Json) -> bool
    decreases j,
{
    match j {
        Json::Arr(a) => forall|i: int| 0 <= i < a.len() ==> proper(#[trigger] a[i]),
        Json::Obj(o) => unique_keys(o) && (forall|i: int| 0 <= i < o.len() ==> proper(#[trigger] o[i].1)),
        _ => true,
    }
}

/// Canonical entries in order stay as they are.
proof fn lemma_canon_settled(o: Fields, n: nat)
    requires
        keys_sorted(o),
        n <= o.len(),
        forall|i: int| 0 <= i < n ==> canon(#[trigger] o[i].1) == o[i].1,
    ensures
        canon_fields(o, n) == o.subrange(0, n as int),
    decreases n,
{
    if n > 0 {
        lemma_canon_settled(o, (n - 1) as nat);
        let before = o.subrange(0, n - 1);
        let k = o[n - 1].0;
        lemma_key_place(before, k, 0);
        let p = key_place(before, k, 0);
        if p < before.len() {
            assert(before[p] == o[p]);
            assert(text_less(o[p].0, k));
        }
        assert(p == n - 1);
        assert(before.insert(n - 1, o[n - 1]) =~= o.subrange(0, n as int));
    } else {
        assert(canon_fields(o, 0) =~= o.subrange(0, 0));
    }
}

/// The canonical form is its own canonical form.
pub proof fn canonical_is_settled(j: Json)
    requires
        proper(j),
    ensures
        canon(canon(j)) == canon(j),
    decreases j,
{
    match j {
        Json::Arr(a) => {
            let c = canon(j)->Arr_0;
            assert forall|i: int| 0 <= i < a.len() implies canon(#[trigger] c[i]) == c[i] by {
                assert(proper(a[i]));
                canonical_is_settled(a[i]);
            }
            assert(canon(canon(j))->Arr_0 =~= c);
        },
        Json::Obj(o) => {
            let c = canon_fields(o, o.len());
            lemma_canon_fields(o, o.len());
            lemma_sorted_unique(c);
            assert(o.subrange(0, o.len() as int) =~= o);
            assert forall|i: int| 0 <= i < c.len() implies canon(#[trigger] c[i].1) == c[i].1 by {
                lemma_get_at(c, i);
                let k = c[i].0;
                assert(get(c, k) == canon_some(get(o, k)));
                lemma_key_from(o, k, 0);
                let m = key_from(o, k, 0)->0;
                assert(proper(o[m].1));
                assert(decreases_to!(o => o[m]));
                canonical_is_settled(o[m].1);
            }
            lemma_canon_settled(c, c.len());
            assert(c.subrange(0, c.len() as int) =~= c);
        },
        _ => {},
    }
}

} // verus!
