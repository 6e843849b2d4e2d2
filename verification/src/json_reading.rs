//! What a compact JSON text tells: where each value in it ends, which keys an
//! object has, and which of its values are texts.

use vstd::prelude::*;

use crate::float::exact_text;
use crate::json::{entry_texts, json_text, json_texts, num_text, numeral, Fields, Json, Num};
use crate::outside::{json_char, json_chars, json_number, json_quoted, number_char};
use crate::strings::{decimal, hex_char, joined, lemma_joined_cons, signed_decimal};

verus! {

// ---------------------------------------------------------------------------
// Texts
// ---------------------------------------------------------------------------

proof fn lemma_chars_front(s: Seq<char>)
    requires
        s.len() > 0,
    ensures
        json_chars(s) == json_char(s[0]) + json_chars(s.skip(1)),
    decreases s.len(),
{
    let tail = s.skip(1);
    if s.len() == 1 {
        assert(s.drop_last() =~= Seq::<char>::empty());
        assert(tail =~= Seq::<char>::empty());
        assert(json_chars(s) =~= json_char(s[0]) + json_chars(tail));
    } else {
        lemma_chars_front(s.drop_last());
        assert(s.drop_last()[0] == s[0]);
        assert(s.drop_last().skip(1) =~= tail.drop_last());
        assert(tail.last() == s.last());
        assert(json_chars(s) =~= json_char(s[0]) + json_chars(tail));
    }
}

/// The character that an escape starts with tells which one it is.
proof fn lemma_char_apart(c: char, d: char, x: Seq<char>, y: Seq<char>)
    requires
        json_char(c) + x == json_char(d) + y,
    ensures
        c == d,
        x == y,
{
    let (p, q) = (json_char(c), json_char(d));
    let (l, r) = (p + x, q + y);
    assert(l[0] == p[0] && r[0] == q[0]);
    if p.len() >= 2 && q.len() >= 2 {
        assert(l[1] == p[1] && r[1] == q[1]);
        assert(p.len() == q.len());
        if p.len() == 6 {
            assert(l[4] == p[4] && r[4] == q[4]);
            assert(l[5] == p[5] && r[5] == q[5]);
            let (m, n) = (c as u32 as nat, d as u32 as nat);
            assert(hex_char(m / 16, false) == hex_char(n / 16, false));
            assert(hex_char(m % 16, false) == hex_char(n % 16, false));
            assert(m / 16 == n / 16 && m % 16 == n % 16);
        }
    }
    assert(c == d);
    assert(x =~= l.skip(p.len() as int));
    assert(y =~= r.skip(q.len() as int));
}

proof fn lemma_chars_apart(s: Seq<char>, t: Seq<char>, x: Seq<char>, y: Seq<char>)
    requires
        json_chars(s) + seq!['"'] + x == json_chars(t) + seq!['"'] + y,
    ensures
        s == t,
        x == y,
    decreases s.len(),
{
    let l = json_chars(s) + seq!['"'] + x;
    let r = json_chars(t) + seq!['"'] + y;
    if s.len() > 0 {
        lemma_chars_front(s);
        assert(l =~= json_char(s[0]) + (json_chars(s.skip(1)) + seq!['"'] + x));
        assert(l[0] == json_char(s[0])[0]);
    } else {
        assert(l =~= seq!['"'] + x);
    }
    if t.len() > 0 {
        lemma_chars_front(t);
        assert(r =~= json_char(t[0]) + (json_chars(t.skip(1)) + seq!['"'] + y));
        assert(r[0] == json_char(t[0])[0]);
    } else {
        assert(r =~= seq!['"'] + y);
    }
    if s.len() == 0 && t.len() == 0 {
        assert(s =~= t);
        assert(x =~= l.skip(1));
        assert(y =~= r.skip(1));
    } else {
        assert(s.len() > 0 && t.len() > 0);
        let p = json_chars(s.skip(1)) + seq!['"'] + x;
        let q = json_chars(t.skip(1)) + seq!['"'] + y;
        lemma_char_apart(s[0], t[0], p, q);
        lemma_chars_apart(s.skip(1), t.skip(1), x, y);
        assert(s =~= seq![s[0]] + s.skip(1));
        assert(t =~= seq![t[0]] + t.skip(1));
    }
}

/// A JSON string literal ends where it ends: what starts with one starts with
/// no other.
pub proof fn literals_tell_texts_apart(s: Seq<char>, t: Seq<char>, x: Seq<char>, y: Seq<char>)
    requires
        json_quoted(s) + x == json_quoted(t) + y,
    ensures
        s == t,
        x == y,
{
    let l = json_quoted(s) + x;
    let r = json_quoted(t) + y;
    assert(l.skip(1) =~= json_chars(s) + seq!['"'] + x);
    assert(r.skip(1) =~= json_chars(t) + seq!['"'] + y);
    lemma_chars_apart(s, t, x, y);
}

// ---------------------------------------------------------------------------
// Numbers
// ---------------------------------------------------------------------------

/// Whether a text is made of the characters of a number.
spec fn numeric(s: Seq<char>) -> bool {
    forall|i: int| 0 <= i < s.len() ==> number_char(#[trigger] s[i])
}

/// What can follow on a value.
pub open spec fn ends_value(x: Seq<char>) -> bool {
    x.len() == 0 || x[0] == ',' || x[0] == ']' || x[0] == '}'
}

proof fn lemma_numeral_numeric(s: Seq<char>)
    ensures
        numeric(numeral(s)),
    decreases s.len(),
{
    if s.len() > 0 {
        lemma_numeral_numeric(s.drop_last());
    }
}

proof fn lemma_decimal_numeric(n: nat)
    ensures
        numeric(decimal(n)),
    decreases n,
{
    if n >= 10 {
        lemma_decimal_numeric(n / 10);
    }
}

proof fn lemma_num_numeric(n: Num)
    ensures
        numeric(num_text(n)),
{
    match n {
        Num::Int(i) => {
            reveal_strlit("-");
            if i < 0 {
                lemma_decimal_numeric((-i) as nat);
                let d = decimal((-i) as nat);
                assert forall|k: int| 0 <= k < signed_decimal(i).len() implies number_char(
                    #[trigger] signed_decimal(i)[k],
                ) by {
                    if k > 0 {
                        assert(signed_decimal(i)[k] == d[k - 1]);
                    }
                }
            } else {
                lemma_decimal_numeric(i as nat);
            }
        },
        Num::Float(s, u) => lemma_numeral_numeric(json_number(exact_text(s, u))),
    }
}

proof fn lemma_numbers_apart(p: Seq<char>, q: Seq<char>, x: Seq<char>, y: Seq<char>)
    requires
        numeric(p),
        numeric(q),
        ends_value(x),
        ends_value(y),
        p + x == q + y,
    ensures
        p == q,
        x == y,
{
    let (l, r) = (p + x, q + y);
    if p.len() < q.len() {
        assert(l[p.len() as int] == x[0]);
        assert(r[p.len() as int] == q[p.len() as int]);
        assert(number_char(q[p.len() as int]));
        assert(false);
    }
    if q.len() < p.len() {
        assert(r[q.len() as int] == y[0]);
        assert(l[q.len() as int] == p[q.len() as int]);
        assert(number_char(p[q.len() as int]));
        assert(false);
    }
    assert(p =~= l.take(p.len() as int));
    assert(q =~= r.take(q.len() as int));
    assert(x =~= l.skip(p.len() as int));
    assert(y =~= r.skip(q.len() as int));
}

// ---------------------------------------------------------------------------
// Values
// ---------------------------------------------------------------------------

/// Whether two texts of values are the same, and one is that of a text where the
/// other is.
pub open spec fn reads_alike(u: Json, v: Json) -> bool {
    &&& json_text(u) == json_text(v)
    &&& u is Str ==> u == v
    &&& v is Str ==> u == v
}

/// What kind of value a text starts.
spec fn start(u: Json) -> int {
    match u {
        Json::Null => 0,
        Json::Bool(true) => 1,
        Json::Bool(false) => 2,
        Json::Num(_) => 3,
        Json::Str(_) => 4,
        Json::Arr(_) => 5,
        Json::Obj(_) => 6,
    }
}

proof fn lemma_start(u: Json)
    ensures
        match u {
            Json::Null => json_text(u).len() == 4 && json_text(u)[0] == 'n',
            Json::Bool(b) => json_text(u).len() >= 4 && json_text(u)[0] == if b {
                't'
            } else {
                'f'
            },
            Json::Num(_) => numeric(json_text(u)),
            Json::Str(_) => json_text(u).len() >= 2 && json_text(u)[0] == '"',
            Json::Arr(_) => json_text(u).len() >= 2 && json_text(u)[0] == '[',
            Json::Obj(_) => json_text(u).len() >= 2 && json_text(u)[0] == '{',
        },
{
    reveal_strlit("null");
    reveal_strlit("true");
    reveal_strlit("false");
    reveal_strlit("[");
    reveal_strlit("]");
    reveal_strlit("{");
    reveal_strlit("}");
    if let Json::Num(n) = u {
        lemma_num_numeric(n);
    }
}

/// A value ends where it ends: two texts of values that start a text, each with
/// nothing of a value behind it, are the same.
pub proof fn values_end_alike(u: Json, v: Json, x: Seq<char>, y: Seq<char>)
    requires
        json_text(u) + x == json_text(v) + y,
        ends_value(x),
        ends_value(y),
    ensures
        reads_alike(u, v),
        x == y,
    decreases u, 1nat,
{
    lemma_start(u);
    lemma_start(v);
    let (p, q) = (json_text(u), json_text(v));
    let (l, r) = (p + x, q + y);
    if p.len() > 0 {
        assert(l[0] == p[0]);
    } else if l.len() > 0 {
        assert(l[0] == x[0]);
    }
    if q.len() > 0 {
        assert(r[0] == q[0]);
    } else if r.len() > 0 {
        assert(r[0] == y[0]);
    }
    assert(start(u) == start(v)) by {
        if p.len() > 0 && u is Num {
            assert(number_char(p[0]));
        }
        if q.len() > 0 && v is Num {
            assert(number_char(q[0]));
        }
    }
    match (u, v) {
        (Json::Num(_), Json::Num(_)) => lemma_numbers_apart(p, q, x, y),
        (Json::Str(s), Json::Str(t)) => literals_tell_texts_apart(s, t, x, y),
        (Json::Arr(a), Json::Arr(b)) => {
            reveal_strlit("[");
            let i = joined(json_texts(a), ","@) + "]"@ + x;
            let j = joined(json_texts(b), ","@) + "]"@ + y;
            assert(l =~= "["@ + i);
            assert(r =~= "["@ + j);
            assert(i =~= l.skip(1));
            assert(j =~= r.skip(1));
            lemma_items_apart(a, b, x, y);
        },
        (Json::Obj(o), Json::Obj(w)) => {
            reveal_strlit("{");
            let i = joined(entry_texts(o), ","@) + "}"@ + x;
            let j = joined(entry_texts(w), ","@) + "}"@ + y;
            assert(l =~= "{"@ + i);
            assert(r =~= "{"@ + j);
            assert(i =~= l.skip(1));
            assert(j =~= r.skip(1));
            lemma_entries_apart(o, w, x, y);
        },
        _ => {
            assert(p == q);
            assert(x =~= l.skip(p.len() as int));
            assert(y =~= r.skip(q.len() as int));
        },
    }
}

/// A list in front of its end: its first text, and what follows on that.
proof fn lemma_list_front(t: Seq<Seq<char>>, end: Seq<char>) -> (rest: Seq<char>)
    requires
        t.len() > 0,
    ensures
        joined(t, ","@) + end == t[0] + rest,
        t.len() == 1 ==> rest == end,
        t.len() > 1 ==> rest == ","@ + (joined(t.skip(1), ","@) + end),
{
    if t.len() == 1 {
        end
    } else {
        lemma_joined_cons(t, ","@);
        let rest = ","@ + (joined(t.skip(1), ","@) + end);
        assert(joined(t, ","@) + end =~= t[0] + rest);
        rest
    }
}

proof fn lemma_items_apart(a: Seq<Json>, b: Seq<Json>, x: Seq<char>, y: Seq<char>)
    requires
        joined(json_texts(a), ","@) + "]"@ + x == joined(json_texts(b), ","@) + "]"@ + y,
    ensures
        joined(json_texts(a), ","@) == joined(json_texts(b), ","@),
        x == y,
    decreases a, 0nat,
{
    reveal_strlit("]");
    reveal_strlit(",");
    let (s, t) = (json_texts(a), json_texts(b));
    let (e, f) = ("]"@ + x, "]"@ + y);
    let l = joined(s, ","@) + "]"@ + x;
    let r = joined(t, ","@) + "]"@ + y;
    assert(l =~= joined(s, ","@) + e);
    assert(r =~= joined(t, ","@) + f);
    if a.len() == 0 && b.len() == 0 {
        assert(l =~= e && r =~= f);
        assert(x =~= e.skip(1) && y =~= f.skip(1));
    } else if a.len() == 0 {
        assert(l =~= e);
        lemma_empty_item(b, f, e);
        assert(x =~= e.skip(1) && y =~= f.skip(1));
    } else if b.len() == 0 {
        assert(r =~= f);
        lemma_empty_item(a, e, f);
        assert(x =~= e.skip(1) && y =~= f.skip(1));
    } else {
        let p = lemma_list_front(s, e);
        let q = lemma_list_front(t, f);
        assert(decreases_to!(a => a[0]));
        values_end_alike(a[0], b[0], p, q);
        assert(a.len() > 1 <==> b.len() > 1) by {
            assert(p[0] == if a.len() > 1 {
                ','
            } else {
                ']'
            });
            assert(q[0] == if b.len() > 1 {
                ','
            } else {
                ']'
            });
        }
        if a.len() > 1 {
            let (c, d) = (a.subrange(1, a.len() as int), b.subrange(1, b.len() as int));
            assert(s.skip(1) =~= json_texts(c));
            assert(t.skip(1) =~= json_texts(d));
            assert(joined(json_texts(c), ","@) + "]"@ + x =~= p.skip(1));
            assert(joined(json_texts(d), ","@) + "]"@ + y =~= q.skip(1));
            assert(decreases_to!(a => c));
            lemma_items_apart(c, d, x, y);
            lemma_joined_cons(s, ","@);
            lemma_joined_cons(t, ","@);
        } else {
            assert(x =~= e.skip(1) && y =~= f.skip(1));
        }
    }
}

/// A list of which nothing is seen is that of one empty text.
proof fn lemma_empty_item(b: Seq<Json>, f: Seq<char>, e: Seq<char>)
    requires
        b.len() > 0,
        e.len() > 0,
        e[0] == ']',
        f.len() > 0,
        f[0] == ']',
        joined(json_texts(b), ","@) + f == e,
    ensures
        joined(json_texts(b), ","@) == Seq::<char>::empty(),
        e == f,
{
    reveal_strlit(",");
    let t = json_texts(b);
    let q = lemma_list_front(t, f);
    lemma_start(b[0]);
    assert(t[0] == json_text(b[0]));
    if t[0].len() > 0 {
        assert((t[0] + q)[0] == t[0][0]);
        if b[0] is Num {
            assert(number_char(t[0][0]));
        }
        assert(false);
    }
    assert(t[0] + q =~= q);
    if b.len() > 1 {
        assert(q[0] == ',');
        assert(false);
    }
    assert(joined(t, ","@) =~= Seq::<char>::empty());
}

/// Whether two objects have the same keys in the same order, and values that
/// read alike under them.
pub open spec fn fields_alike(o: Fields, w: Fields) -> bool {
    &&& o.len() == w.len()
    &&& forall|i: int| 0 <= i < o.len() ==> (#[trigger] o[i]).0 == w[i].0 && reads_alike(o[i].1, w[i].1)
}

proof fn lemma_entry_apart(k: Seq<char>, m: Seq<char>, p: Seq<char>, j: Seq<char>, n: Seq<char>, q: Seq<char>)
    requires
        (json_quoted(k) + ":"@ + m) + p == (json_quoted(j) + ":"@ + n) + q,
    ensures
        k == j,
        m + p == n + q,
{
    reveal_strlit(":");
    let (u, v) = (":"@ + (m + p), ":"@ + (n + q));
    assert((json_quoted(k) + ":"@ + m) + p =~= json_quoted(k) + u);
    assert((json_quoted(j) + ":"@ + n) + q =~= json_quoted(j) + v);
    literals_tell_texts_apart(k, j, u, v);
    assert(m + p =~= u.skip(1));
    assert(n + q =~= v.skip(1));
}

proof fn lemma_alike_front(o: Fields, w: Fields)
    requires
        o.len() > 0,
        o.len() == w.len(),
        o[0].0 == w[0].0,
        reads_alike(o[0].1, w[0].1),
        fields_alike(o.subrange(1, o.len() as int), w.subrange(1, w.len() as int)),
    ensures
        fields_alike(o, w),
{
    let (c, d) = (o.subrange(1, o.len() as int), w.subrange(1, w.len() as int));
    assert forall|i: int| 0 <= i < o.len() implies (#[trigger] o[i]).0 == w[i].0 && reads_alike(o[i].1, w[i].1) by {
        if i > 0 {
            assert(c[i - 1] == o[i] && d[i - 1] == w[i]);
        }
    }
}

#[verifier::rlimit(40)]
proof fn lemma_entries_apart(o: Fields, w: Fields, x: Seq<char>, y: Seq<char>)
    requires
        joined(entry_texts(o), ","@) + "}"@ + x == joined(entry_texts(w), ","@) + "}"@ + y,
    ensures
        joined(entry_texts(o), ","@) == joined(entry_texts(w), ","@),
        fields_alike(o, w),
        x == y,
    decreases o, 0nat,
{
    reveal_strlit("}");
    reveal_strlit(",");
    reveal_strlit(":");
    let (s, t) = (entry_texts(o), entry_texts(w));
    let (e, f) = ("}"@ + x, "}"@ + y);
    let l = joined(s, ","@) + "}"@ + x;
    let r = joined(t, ","@) + "}"@ + y;
    assert(l =~= joined(s, ","@) + e);
    assert(r =~= joined(t, ","@) + f);
    if o.len() == 0 && w.len() == 0 {
        assert(l =~= e && r =~= f);
        assert(x =~= e.skip(1) && y =~= f.skip(1));
    } else if o.len() == 0 {
        let q = lemma_list_front(t, f);
        assert(l =~= e);
        assert(l[0] == '}');
        assert((t[0] + q)[0] == '"');
        assert(false);
    } else if w.len() == 0 {
        let p = lemma_list_front(s, e);
        assert(r =~= f);
        assert(r[0] == '}');
        assert((s[0] + p)[0] == '"');
        assert(false);
    } else {
        let p = lemma_list_front(s, e);
        let q = lemma_list_front(t, f);
        lemma_entry_apart(o[0].0, json_text(o[0].1), p, w[0].0, json_text(w[0].1), q);
        assert(decreases_to!(o => o[0]));
        assert(decreases_to!(o[0] => o[0].1));
        values_end_alike(o[0].1, w[0].1, p, q);
        assert(o.len() > 1 <==> w.len() > 1) by {
            assert(p[0] == if o.len() > 1 {
                ','
            } else {
                '}'
            });
            assert(q[0] == if w.len() > 1 {
                ','
            } else {
                '}'
            });
        }
        assert(s[0] == t[0]);
        if o.len() > 1 {
            let (c, d) = (o.subrange(1, o.len() as int), w.subrange(1, w.len() as int));
            assert(s.skip(1) =~= entry_texts(c));
            assert(t.skip(1) =~= entry_texts(d));
            assert(joined(entry_texts(c), ","@) + "}"@ + x =~= p.skip(1));
            assert(joined(entry_texts(d), ","@) + "}"@ + y =~= q.skip(1));
            assert(decreases_to!(o => c));
            lemma_entries_apart(c, d, x, y);
            lemma_joined_cons(s, ","@);
            lemma_joined_cons(t, ","@);
            lemma_alike_front(o, w);
        } else {
            assert(x =~= e.skip(1) && y =~= f.skip(1));
            assert(joined(s, ","@) == joined(t, ","@));
        }
    }
}

/// Objects with the same text have the same keys in the same order, the same
/// texts of values, and the same values where these are texts.
pub proof fn object_texts_tell_their_fields(o: Fields, w: Fields)
    requires
        json_text(Json::Obj(o)) == json_text(Json::Obj(w)),
    ensures
        fields_alike(o, w),
{
    let e = Seq::<char>::empty();
    reveal_strlit("{");
    let (l, r) = (json_text(Json::Obj(o)), json_text(Json::Obj(w)));
    assert(joined(entry_texts(o), ","@) + "}"@ + e =~= l.skip(1));
    assert(joined(entry_texts(w), ","@) + "}"@ + e =~= r.skip(1));
    lemma_entries_apart(o, w, e, e);
}

} // verus!
