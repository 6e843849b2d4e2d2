//! JSON values: the library's own value type, its mathematical model, field
//! access, ordered objects and compact text.

use vstd::prelude::*;

use crate::float::{exact_text, from_int, of_int, Dbl, Double, Finite};
use crate::outside::{json_number, json_number_text, json_quote_text, json_quoted, number_char};
use crate::strings::{cat3, decimal_of, join, joined, opt_text, same, signed_decimal, signed_decimal_of, views};

verus! {

// ---------------------------------------------------------------------------
// Model
// ---------------------------------------------------------------------------

/// A JSON number: a whole number, or a binary64 one by sign and magnitude.
pub enum Num {
    Int(int),
    Float(bool, nat),
}

/// A JSON value.
pub enum Json {
    Null,
    Bool(bool),
    Num(Num),
    Str(Seq<char>),
    Arr(Seq<Json>),
    Obj(Fields),
}

/// The entries of an object, first inserted first.
pub type Fields = Seq<(Seq<char>, Json)>;

/// The position from `i` on of the entry with key `k`.
pub open spec fn key_from(o: Fields, k: Seq<char>, i: int) -> Option<int>
    decreases o.len() - i,
{
    if i < 0 || i >= o.len() {
        None
    } else if o[i].0 == k {
        Some(i)
    } else {
        key_from(o, k, i + 1)
    }
}

/// The value under key `k`.
pub open spec fn get(o: Fields, k: Seq<char>) -> Option<Json> {
    match key_from(o, k, 0) {
        Some(i) => Some(o[i].1),
        None => None,
    }
}

pub open spec fn has_key(o: Fields, k: Seq<char>) -> bool {
    key_from(o, k, 0) is Some
}

/// The object with `v` under key `k`: in place of the old value, or at the end.
pub open spec fn put(o: Fields, k: Seq<char>, v: Json) -> Fields {
    match key_from(o, k, 0) {
        Some(i) => o.update(i, (k, v)),
        None => o.push((k, v)),
    }
}

/// `put` when there is a value.
pub open spec fn put_some(o: Fields, k: Seq<char>, v: Option<Json>) -> Fields {
    match v {
        Some(x) => put(o, k, x),
        None => o,
    }
}

/// The object without key `k`, the other entries in their order.
pub open spec fn without(o: Fields, k: Seq<char>) -> Fields {
    match key_from(o, k, 0) {
        Some(i) => o.remove(i),
        None => o,
    }
}

/// No key occurs twice.
pub open spec fn unique_keys(o: Fields) -> bool {
    forall|i: int, j: int| 0 <= i < j < o.len() ==> (#[trigger] o[i]).0 != (#[trigger] o[j]).0
}

pub open spec fn as_str(v: Option<Json>) -> Option<Seq<char>> {
    match v {
        Some(Json::Str(s)) => Some(s),
        _ => None,
    }
}

pub open spec fn as_bool(v: Option<Json>) -> Option<bool> {
    match v {
        Some(Json::Bool(b)) => Some(b),
        _ => None,
    }
}

pub open spec fn as_arr(v: Option<Json>) -> Option<Seq<Json>> {
    match v {
        Some(Json::Arr(a)) => Some(a),
        _ => None,
    }
}

pub open spec fn as_obj(v: Option<Json>) -> Option<Fields> {
    match v {
        Some(Json::Obj(o)) => Some(o),
        _ => None,
    }
}

/// A number as a binary64 value.
pub open spec fn num_value(n: Num) -> Dbl {
    match n {
        Num::Int(i) => of_int(i),
        Num::Float(s, u) => Dbl::Fin(s, u),
    }
}

pub open spec fn as_num(v: Option<Json>) -> Option<Dbl> {
    match v {
        Some(Json::Num(n)) => Some(num_value(n)),
        _ => None,
    }
}

/// The field `k` of an object; other values have none.
pub open spec fn field(j: Json, k: Seq<char>) -> Option<Json> {
    match j {
        Json::Obj(o) => get(o, k),
        _ => None,
    }
}

pub open spec fn str_field(j: Json, k: Seq<char>) -> Option<Seq<char>> {
    as_str(field(j, k))
}

pub open spec fn num_field(j: Json, k: Seq<char>) -> Option<Dbl> {
    as_num(field(j, k))
}

pub open spec fn arr_field(j: Json, k: Seq<char>) -> Option<Seq<Json>> {
    as_arr(field(j, k))
}

pub open spec fn obj_field(j: Json, k: Seq<char>) -> Option<Fields> {
    as_obj(field(j, k))
}

/// Whether the field `k` is the text `s`.
pub open spec fn field_is(j: Json, k: Seq<char>, s: Seq<char>) -> bool {
    str_field(j, k) == Some(s)
}

/// Whether a flag is not switched off.
pub open spec fn visible(j: Json) -> bool {
    as_bool(field(j, "visible"@)) != Some(false)
}

// ---------------------------------------------------------------------------
// Values
// ---------------------------------------------------------------------------

/// A JSON number.
#[derive(Clone, Copy, Debug)]
pub enum Number {
    PosInt(u64),
    NegInt(i64),
    Float(Finite),
}

/// A JSON value.
#[derive(Debug)]
pub enum Value {
    Null,
    Bool(bool),
    Number(Number),
    String(String),
    Array(Vec<Value>),
    Object(Object),
}

/// A JSON object: entries in the order of their first insertion.
#[derive(Debug)]
pub struct Object {
    pub entries: Vec<(String, Value)>,
}

impl View for Number {
    type V = Num;

    open spec fn view(&self) -> Num {
        match *self {
            Number::PosInt(n) => Num::Int(n as int),
            Number::NegInt(n) => Num::Int(n as int),
            Number::Float(f) => Num::Float(f.negative(), f.units()),
        }
    }
}

/// The model of a value.
pub open spec fn json(v: Value) -> Json
    decreases v,
{
    match v {
        Value::Null => Json::Null,
        Value::Bool(b) => Json::Bool(b),
        Value::Number(n) => Json::Num(n@),
        Value::String(s) => Json::Str(s@),
        Value::Array(a) => Json::Arr(json_list(a@)),
        Value::Object(o) => Json::Obj(json_fields(o.entries@)),
    }
}

/// The models of a list of values.
pub open spec fn json_list(s: Seq<Value>) -> Seq<Json>
    decreases s,
{
    Seq::new(
        s.len(),
        |i: int|
            if 0 <= i < s.len() {
                json(s[i])
            } else {
                Json::Null
            },
    )
}

/// The models of a list of entries.
pub open spec fn json_fields(s: Seq<(String, Value)>) -> Fields
    decreases s,
{
    Seq::new(
        s.len(),
        |i: int|
            if 0 <= i < s.len() {
                (s[i].0@, json(s[i].1))
            } else {
                (Seq::empty(), Json::Null)
            },
    )
}

impl View for Value {
    type V = Json;

    open spec fn view(&self) -> Json {
        json(*self)
    }
}

impl View for Object {
    type V = Fields;

    open spec fn view(&self) -> Fields {
        json_fields(self.entries@)
    }
}

/// The model of an optional value.
pub open spec fn opt(v: Option<&Value>) -> Option<Json> {
    match v {
        Some(x) => Some(x@),
        None => None,
    }
}

/// The text of an optional string slice.
pub open spec fn opt_str(v: Option<&str>) -> Option<Seq<char>> {
    match v {
        Some(x) => Some(x@),
        None => None,
    }
}

/// The model of an optional number.
pub open spec fn opt_double(v: Option<Double>) -> Option<Dbl> {
    match v {
        Some(x) => Some(x@),
        None => None,
    }
}

// ---------------------------------------------------------------------------
// Objects
// ---------------------------------------------------------------------------

pub proof fn lemma_key_from(o: Fields, k: Seq<char>, i: int)
    requires
        0 <= i,
    ensures
        key_from(o, k, i) matches Some(j) ==> i <= j < o.len() && o[j].0 == k && (forall|m: int|
            i <= m < j ==> (#[trigger] o[m]).0 != k),
        key_from(o, k, i) is None ==> (forall|m: int| i <= m < o.len() ==> (#[trigger] o[m]).0 != k),
    decreases o.len() - i,
{
    if i < o.len() && o[i].0 != k {
        lemma_key_from(o, k, i + 1);
    }
}

/// A field of a value is smaller than the value.
pub proof fn lemma_get_smaller(o: Fields, k: Seq<char>)
    ensures
        get(o, k) matches Some(v) ==> decreases_to!(o => v),
{
    lemma_key_from(o, k, 0);
    if let Some(i) = key_from(o, k, 0) {
        assert(decreases_to!(o => o[i]));
        assert(decreases_to!(o[i] => o[i].1));
    }
}

impl Object {
    /// The empty object.
    pub fn new() -> (r: Object)
        ensures
            r@ == Fields::empty(),
            unique_keys(r@),
    {
        let r = Object { entries: Vec::new() };
        assert(r@ =~= Fields::empty());
        r
    }

    pub fn len(&self) -> (n: usize)
        ensures
            n == self@.len(),
    {
        self.entries.len()
    }

    pub fn is_empty(&self) -> (r: bool)
        ensures
            r == (self@.len() == 0),
    {
        self.entries.len() == 0
    }

    /// The position of key `k`.
    fn position(&self, k: &str) -> (r: Option<usize>)
        ensures
            r is Some <==> key_from(self@, k@, 0) is Some,
            r matches Some(i) ==> key_from(self@, k@, 0) == Some(i as int) && i < self.entries.len(),
    {
        let mut i: usize = 0;
        while i < self.entries.len()
            invariant
                i <= self.entries.len(),
                key_from(self@, k@, 0) == key_from(self@, k@, i as int),
            decreases self.entries.len() - i,
        {
            if same(self.entries[i].0.as_str(), k) {
                return Some(i);
            }
            i += 1;
        }
        None
    }

    /// The value under key `k`.
    pub fn get(&self, k: &str) -> (r: Option<&Value>)
        ensures
            opt(r) == get(self@, k@),
    {
        match self.position(k) {
            Some(i) => Some(&self.entries[i].1),
            None => None,
        }
    }

    pub fn contains_key(&self, k: &str) -> (r: bool)
        ensures
            r == has_key(self@, k@),
    {
        self.position(k).is_some()
    }

    /// Puts `v` under key `k`, in place of an old value or at the end.
    pub fn insert(&mut self, k: String, v: Value)
        ensures
            final(self)@ == put(old(self)@, k@, v@),
            unique_keys(old(self)@) ==> unique_keys(final(self)@),
    {
        let ghost before = self@;
        proof {
            lemma_key_from(before, k@, 0);
        }
        match self.position(k.as_str()) {
            Some(i) => {
                self.entries.set(i, (k, v));
                assert(self@ =~= before.update(i as int, (k@, v@)));
            },
            None => {
                self.entries.push((k, v));
                assert(self@ =~= before.push((k@, v@)));
            },
        }
        proof {
            if unique_keys(before) {
                lemma_put_unique(before, k@, v@);
            }
        }
    }

    /// Puts `v` under the key `k`.
    pub fn put(&mut self, k: &str, v: Value)
        ensures
            final(self)@ == put(old(self)@, k@, v@),
            unique_keys(old(self)@) ==> unique_keys(final(self)@),
    {
        self.insert(k.to_owned(), v)
    }

    /// Puts a text under the key `k`.
    pub fn put_str(&mut self, k: &str, v: &str)
        ensures
            final(self)@ == put(old(self)@, k@, Json::Str(v@)),
            unique_keys(old(self)@) ==> unique_keys(final(self)@),
    {
        self.insert(k.to_owned(), Value::String(v.to_owned()))
    }

    /// Puts `v` under the key `k` when there is a value.
    pub fn put_some(&mut self, k: &str, v: Option<Value>)
        ensures
            final(self)@ == put_some(old(self)@, k@, opt_value(v)),
            unique_keys(old(self)@) ==> unique_keys(final(self)@),
    {
        match v {
            Some(x) => self.put(k, x),
            None => {},
        }
    }

    /// Puts a text under the key `k` when there is one.
    pub fn put_text(&mut self, k: &str, v: Option<String>)
        ensures
            final(self)@ == put_some(old(self)@, k@, text_json(opt_text(v))),
            unique_keys(old(self)@) ==> unique_keys(final(self)@),
    {
        match v {
            Some(x) => self.put(k, Value::String(x)),
            None => {},
        }
    }

    /// Takes key `k` out, the other entries keep their order.
    pub fn shift_remove(&mut self, k: &str)
        ensures
            final(self)@ == without(old(self)@, k@),
            unique_keys(old(self)@) ==> unique_keys(final(self)@),
    {
        let ghost before = self@;
        match self.position(k) {
            Some(i) => {
                self.entries.remove(i);
                assert(self@ =~= before.remove(i as int));
            },
            None => {},
        }
    }

    /// A copy.
    pub fn copy(&self) -> (r: Object)
        ensures
            r@ == self@,
        decreases *self,
    {
        let mut out: Vec<(String, Value)> = Vec::new();
        let mut i: usize = 0;
        while i < self.entries.len()
            invariant
                i <= self.entries.len(),
                out.len() == i,
                forall|j: int|
                    0 <= j < i ==> (#[trigger] out@[j]).0@ == self.entries@[j].0@ && out@[j].1@
                        == self.entries@[j].1@,
            decreases self.entries.len() - i,
        {
            let e = &self.entries[i];
            let v = e.1.copy();
            out.push((e.0.clone(), v));
            i += 1;
        }
        let r = Object { entries: out };
        assert(r@ =~= self@);
        r
    }
}

/// The model of an optional owned value.
pub open spec fn opt_value(v: Option<Value>) -> Option<Json> {
    match v {
        Some(x) => Some(x@),
        None => None,
    }
}

/// An optional text as an optional value.
pub open spec fn text_json(v: Option<Seq<char>>) -> Option<Json> {
    match v {
        Some(x) => Some(Json::Str(x)),
        None => None,
    }
}

/// Each key is there once after a change, where it was before.
pub proof fn lemma_put_unique(o: Fields, k: Seq<char>, v: Json)
    requires
        unique_keys(o),
    ensures
        unique_keys(put(o, k, v)),
{
    lemma_key_from(o, k, 0);
    let p = put(o, k, v);
    assert forall|i: int, j: int| 0 <= i < j < p.len() implies (#[trigger] p[i]).0 != (#[trigger] p[j]).0 by {
        match key_from(o, k, 0) {
            Some(m) => {
                assert(p[i].0 == o[i].0);
                assert(p[j].0 == o[j].0);
            },
            None => {
                assert(p[i].0 == o[i].0);
                if j < o.len() {
                    assert(p[j].0 == o[j].0);
                }
            },
        }
    }
}

/// What is put under a key is what is read there; the other keys keep theirs.
pub proof fn get_after_put(o: Fields, k: Seq<char>, v: Json, other: Seq<char>)
    ensures
        get(put(o, k, v), k) == Some(v),
        other != k ==> get(put(o, k, v), other) == get(o, other),
{
    lemma_key_from(o, k, 0);
    lemma_key_from(o, other, 0);
    let p = put(o, k, v);
    lemma_key_from(p, k, 0);
    lemma_key_from(p, other, 0);
    match key_from(o, k, 0) {
        Some(m) => {
            assert(p[m].0 == k);
            assert forall|i: int| 0 <= i < m implies (#[trigger] p[i]).0 != k by {
                assert(p[i] == o[i]);
            }
            if let Some(i) = key_from(p, k, 0) {
                if i > m {
                    assert(p[m].0 != k);
                }
            }
        },
        None => {
            assert(p[o.len() as int].0 == k);
            assert forall|i: int| 0 <= i < o.len() implies (#[trigger] p[i]).0 != k by {
                assert(p[i] == o[i]);
            }
        },
    }
    if other != k {
        assert forall|i: int| 0 <= i < o.len() implies (#[trigger] p[i]).0 == o[i].0 by {}
        match key_from(o, other, 0) {
            Some(i) => {
                assert(p[i].0 == other);
                assert(p[i].1 == o[i].1);
                if let Some(j) = key_from(p, other, 0) {
                    if j < i {
                        assert(o[j].0 == other);
                    }
                    if j > i {
                        assert(p[i].0 != other);
                    }
                }
            },
            None => {
                if let Some(j) = key_from(p, other, 0) {
                    if j < o.len() {
                        assert(o[j].0 == other);
                    }
                }
            },
        }
    }
}

// ---------------------------------------------------------------------------
// Access
// ---------------------------------------------------------------------------

impl Number {
    /// The number as a binary64 value.
    pub fn to_double(&self) -> (r: Double)
        ensures
            r@ == num_value(self@),
    {
        match *self {
            Number::PosInt(n) => from_int(n as i128),
            Number::NegInt(n) => from_int(n as i128),
            Number::Float(f) => Double::Finite(f),
        }
    }
}

impl Value {
    /// A copy.
    pub fn copy(&self) -> (r: Value)
        ensures
            r@ == self@,
        decreases *self,
    {
        match self {
            Value::Null => Value::Null,
            Value::Bool(b) => Value::Bool(*b),
            Value::Number(n) => Value::Number(*n),
            Value::String(s) => Value::String(s.clone()),
            Value::Array(a) => {
                let mut out: Vec<Value> = Vec::new();
                let mut i: usize = 0;
                while i < a.len()
                    invariant
                        i <= a.len(),
                        out.len() == i,
                        *self is Array,
                        self->Array_0 == *a,
                        forall|j: int| 0 <= j < i ==> (#[trigger] out@[j])@ == a@[j]@,
                    decreases a.len() - i,
                {
                    out.push(a[i].copy());
                    i += 1;
                }
                assert(json_list(out@) =~= json_list(a@));
                Value::Array(out)
            },
            Value::Object(o) => Value::Object(o.copy()),
        }
    }

    /// The field `k` of an object.
    pub fn get(&self, k: &str) -> (r: Option<&Value>)
        ensures
            opt(r) == field(self@, k@),
    {
        match self {
            Value::Object(o) => o.get(k),
            _ => None,
        }
    }

    pub fn is_null(&self) -> (r: bool)
        ensures
            r == (self@ is Null),
    {
        match self {
            Value::Null => true,
            _ => false,
        }
    }
}

/// The text of an optional value.
pub fn str_of<'a>(v: Option<&'a Value>) -> (r: Option<&'a str>)
    ensures
        opt_str(r) == as_str(opt(v)),
{
    match v {
        Some(Value::String(s)) => Some(s.as_str()),
        _ => None,
    }
}

pub fn bool_of(v: Option<&Value>) -> (r: Option<bool>)
    ensures
        r == as_bool(opt(v)),
{
    match v {
        Some(Value::Bool(b)) => Some(*b),
        _ => None,
    }
}

pub fn double_of(v: Option<&Value>) -> (r: Option<Double>)
    ensures
        opt_double(r) == as_num(opt(v)),
{
    match v {
        Some(Value::Number(n)) => Some(n.to_double()),
        _ => None,
    }
}

/// The model of an optional list.
pub open spec fn opt_list(v: Option<&Vec<Value>>) -> Option<Seq<Json>> {
    match v {
        Some(a) => Some(json_list(a@)),
        None => None,
    }
}

/// The model of an optional object.
pub open spec fn opt_object(v: Option<&Object>) -> Option<Fields> {
    match v {
        Some(o) => Some(o@),
        None => None,
    }
}

pub fn list_of<'a>(v: Option<&'a Value>) -> (r: Option<&'a Vec<Value>>)
    ensures
        opt_list(r) == as_arr(opt(v)),
{
    match v {
        Some(Value::Array(a)) => Some(a),
        _ => None,
    }
}

pub fn object_of<'a>(v: Option<&'a Value>) -> (r: Option<&'a Object>)
    ensures
        opt_object(r) == as_obj(opt(v)),
{
    match v {
        Some(Value::Object(o)) => Some(o),
        _ => None,
    }
}

/// Whether an optional text is the text `s`.
pub fn text_is(v: Option<&str>, s: &str) -> (r: bool)
    ensures
        r == (opt_str(v) == Some(s@)),
{
    match v {
        Some(x) => same(x, s),
        None => false,
    }
}

/// Whether the field `k` is the text `s`.
pub fn field_text_is(v: &Value, k: &str, s: &str) -> (r: bool)
    ensures
        r == field_is(v@, k@, s@),
{
    text_is(str_of(v.get(k)), s)
}

/// Whether a flag is not switched off.
pub fn is_visible(v: &Value) -> (r: bool)
    ensures
        r == visible(v@),
{
    match bool_of(v.get("visible")) {
        Some(b) => b,
        None => true,
    }
}

/// A copy of an optional value.
pub fn copy_some(v: Option<&Value>) -> (r: Option<Value>)
    ensures
        opt_value(r) == opt(v),
{
    match v {
        Some(x) => Some(x.copy()),
        None => None,
    }
}

/// An optional text as an optional string.
pub fn own_text(v: Option<&str>) -> (r: Option<String>)
    ensures
        opt_text(r) == opt_str(v),
{
    match v {
        Some(x) => Some(x.to_owned()),
        None => None,
    }
}

// ---------------------------------------------------------------------------
// Compact text
// ---------------------------------------------------------------------------

/// The characters of a number in a text.
pub open spec fn numeral(s: Seq<char>) -> Seq<char>
    decreases s.len(),
{
    if s.len() == 0 {
        s
    } else if number_char(s.last()) {
        numeral(s.drop_last()).push(s.last())
    } else {
        numeral(s.drop_last())
    }
}

/// The text of a number, in the characters of one.
pub open spec fn num_text(n: Num) -> Seq<char> {
    match n {
        Num::Int(i) => signed_decimal(i),
        Num::Float(s, u) => numeral(json_number(exact_text(s, u))),
    }
}

proof fn lemma_numeral(s: Seq<char>)
    requires
        forall|i: int| 0 <= i < s.len() ==> number_char(#[trigger] s[i]),
    ensures
        numeral(s) == s,
    decreases s.len(),
{
    if s.len() > 0 {
        assert forall|i: int| 0 <= i < s.drop_last().len() implies number_char(#[trigger] s.drop_last()[i]) by {
            assert(s.drop_last()[i] == s[i]);
        }
        lemma_numeral(s.drop_last());
        assert(s.drop_last().push(s.last()) =~= s);
    }
}

/// The compact JSON text of a value.
pub open spec fn json_text(j: Json) -> Seq<char>
    decreases j,
{
    match j {
        Json::Null => "null"@,
        Json::Bool(b) => if b {
            "true"@
        } else {
            "false"@
        },
        Json::Num(n) => num_text(n),
        Json::Str(s) => json_quoted(s),
        Json::Arr(a) => "["@ + joined(json_texts(a), ","@) + "]"@,
        Json::Obj(o) => "{"@ + joined(entry_texts(o), ","@) + "}"@,
    }
}

/// The compact JSON texts of a list of values.
pub open spec fn json_texts(a: Seq<Json>) -> Seq<Seq<char>>
    decreases a,
{
    Seq::new(
        a.len(),
        |i: int|
            if 0 <= i < a.len() {
                json_text(a[i])
            } else {
                Seq::empty()
            },
    )
}

/// The compact JSON texts of the entries of an object.
pub open spec fn entry_texts(o: Fields) -> Seq<Seq<char>>
    decreases o,
{
    Seq::new(
        o.len(),
        |i: int|
            if 0 <= i < o.len() {
                json_quoted(o[i].0) + ":"@ + json_text(o[i].1)
            } else {
                Seq::empty()
            },
    )
}

/// The JSON text of a number.
pub fn number_text(n: &Number) -> (r: String)
    ensures
        r@ == num_text(n@),
{
    match *n {
        Number::PosInt(i) => decimal_of(i as u128),
        Number::NegInt(i) => signed_decimal_of(i),
        Number::Float(f) => {
            let r = json_number_text(f.exact_text().as_str());
            proof {
                lemma_numeral(r@);
            }
            r
        },
    }
}

/// The compact JSON text of a value.
pub fn to_text(v: &Value) -> (r: String)
    ensures
        r@ == json_text(v@),
    decreases *v,
{
    match v {
        Value::Null => "null".to_owned(),
        Value::Bool(b) => if *b {
            "true".to_owned()
        } else {
            "false".to_owned()
        },
        Value::Number(n) => number_text(n),
        Value::String(s) => json_quote_text(s.as_str()),
        Value::Array(a) => {
            let ghost m = json_list(a@);
            let mut parts: Vec<String> = Vec::new();
            let mut i: usize = 0;
            while i < a.len()
                invariant
                    i <= a.len(),
                    parts.len() == i,
                    *v is Array,
                    v->Array_0 == *a,
                    m == json_list(a@),
                    forall|j: int| 0 <= j < i ==> (#[trigger] parts@[j])@ == json_text(m[j]),
                decreases a.len() - i,
            {
                parts.push(to_text(&a[i]));
                i += 1;
            }
            assert(views(parts@) =~= json_texts(m));
            cat3("[", join(&parts, ",").as_str(), "]")
        },
        Value::Object(o) => object_text(o),
    }
}

/// The compact JSON text of an object.
pub fn object_text(o: &Object) -> (r: String)
    ensures
        r@ == json_text(Json::Obj(o@)),
    decreases *o,
{
    let ghost m = o@;
    let mut parts: Vec<String> = Vec::new();
    let mut i: usize = 0;
    while i < o.entries.len()
        invariant
            i <= o.entries.len(),
            parts.len() == i,
            m == o@,
            forall|j: int| 0 <= j < i ==> (#[trigger] parts@[j])@ == json_quoted(m[j].0) + ":"@ + json_text(m[j].1),
        decreases o.entries.len() - i,
    {
        let e = &o.entries[i];
        let t = to_text(&e.1);
        parts.push(cat3(json_quote_text(e.0.as_str()).as_str(), ":", t.as_str()));
        i += 1;
    }
    assert(views(parts@) =~= entry_texts(m));
    cat3("{", join(&parts, ",").as_str(), "}")
}

} // verus!
