//! A JSON document tree holding, as plain values, what the client reads of
//! the JSON it receives, and the parse of JSON text into it through
//! `serde_json`.

use vstd::prelude::*;
use crate::text;
use serde_json::Value;
use serde_json::Value::{Array, Bool, Null, Number, Object};

verus! {

/// A JSON number as the client reads it: its value as `i64` and as `u64`
/// when it is an integer in that type's range (`serde_json::Number::as_i64`,
/// `as_u64`).
#[derive(Debug, Clone, Copy, PartialEq, Eq, Structural)]
pub struct JsonNumber {
    pub as_i64: Option<i64>,
    pub as_u64: Option<u64>,
}

/// A JSON value. Object members keep their document order; keys are unique.
#[derive(Debug)]
pub enum JsonValue {
    Null,
    Bool(bool),
    Number(JsonNumber),
    String(String),
    Array(Vec<JsonValue>),
    Object(Vec<(String, JsonValue)>),
}

/// The value of the first entry named `key` in `entries`.
pub open spec fn find_member(entries: Seq<(String, JsonValue)>, key: Seq<char>) -> Option<JsonValue>
    decreases entries.len(),
{
    if entries.len() == 0 {
        None
    } else if entries[0].0@ == key {
        Some(entries[0].1)
    } else {
        find_member(entries.drop_first(), key)
    }
}

/// The value of member `key` of an object (`serde_json::Value::get`).
pub open spec fn member(v: JsonValue, key: Seq<char>) -> Option<JsonValue> {
    match v {
        JsonValue::Object(entries) => find_member(entries@, key),
        _ => None,
    }
}

pub open spec fn as_i64(v: JsonValue) -> Option<i64> {
    match v {
        JsonValue::Number(n) => n.as_i64,
        _ => None,
    }
}

pub open spec fn as_u64(v: JsonValue) -> Option<u64> {
    match v {
        JsonValue::Number(n) => n.as_u64,
        _ => None,
    }
}

pub open spec fn as_str(v: JsonValue) -> Option<Seq<char>> {
    match v {
        JsonValue::String(s) => Some(s@),
        _ => None,
    }
}

impl JsonValue {
    /// `serde_json::Value::get` with a string key.
    pub fn get(&self, key: &str) -> (res: Option<&JsonValue>)
        ensures
            match res {
                Some(r) => member(*self, key@) == Some(*r),
                None => member(*self, key@) is None,
            },
    {
        match self {
            JsonValue::Object(entries) => {
                assert(entries@.skip(0) =~= entries@);
                let mut i: usize = 0;
                while i < entries.len()
                    invariant
                        i <= entries.len(),
                        find_member(entries@, key@) == find_member(entries@.skip(i as int), key@),
                        member(*self, key@) == find_member(entries@, key@),
                    decreases entries.len() - i,
                {
                    assert(entries@.skip(i as int).drop_first() =~= entries@.skip(i + 1));
                    if text::str_eq(entries[i].0.as_str(), key) {
                        assert(entries@.skip(i as int)[0] == entries@[i as int]);
                        return Some(&entries[i].1);
                    }
                    i = i + 1;
                }
                None
            },
            _ => None,
        }
    }

    /// `serde_json::Value::as_i64`.
    pub fn as_i64(&self) -> (res: Option<i64>)
        ensures
            res == as_i64(*self),
    {
        match self {
            JsonValue::Number(n) => n.as_i64,
            _ => None,
        }
    }

    /// `serde_json::Value::as_u64`.
    pub fn as_u64(&self) -> (res: Option<u64>)
        ensures
            res == as_u64(*self),
    {
        match self {
            JsonValue::Number(n) => n.as_u64,
            _ => None,
        }
    }

    /// `serde_json::Value::as_str`.
    pub fn as_str(&self) -> (res: Option<&str>)
        ensures
            match res {
                Some(s) => as_str(*self) == Some(s@),
                None => as_str(*self) is None,
            },
    {
        match self {
            JsonValue::String(s) => Some(s.as_str()),
            _ => None,
        }
    }

    /// `serde_json::Value::as_array`.
    pub fn as_array(&self) -> (res: Option<&Vec<JsonValue>>)
        ensures
            match res {
                Some(a) => *self == JsonValue::Array(*a),
                None => !(*self is Array),
            },
    {
        match self {
            JsonValue::Array(a) => Some(a),
            _ => None,
        }
    }
}

/// Element `i` of an array.
pub open spec fn element(v: JsonValue, i: int) -> Option<JsonValue> {
    match v {
        JsonValue::Array(items) => if 0 <= i < items@.len() { Some(items@[i]) } else { None },
        _ => None,
    }
}

/// How serde's derived `Deserialize` finds field number `index`, named
/// `name`, of a struct with `n_fields` fields in a JSON value: by name in an
/// object, by position in an array. The outer `None` means the value cannot
/// hold such a struct at all (neither an object nor an array of at most
/// `n_fields` elements); the inner `None` that the field is absent.
pub open spec fn struct_field(v: JsonValue, n_fields: int, index: int, name: Seq<char>) -> Option<Option<JsonValue>> {
    match v {
        JsonValue::Object(_) => Some(member(v, name)),
        JsonValue::Array(items) => if items@.len() <= n_fields { Some(element(v, index)) } else { None },
        _ => None,
    }
}

/// `Option<serde_json::Value>` read from a field: `null` reads as `None`.
pub open spec fn optional_value(v: Option<JsonValue>) -> Option<JsonValue> {
    match v {
        Some(JsonValue::Null) => None,
        other => other,
    }
}

impl JsonValue {
    /// Element `i` of an array (`serde_json::Value::get` with an index).
    pub fn element(&self, i: usize) -> (res: Option<&JsonValue>)
        ensures
            match res {
                Some(r) => element(*self, i as int) == Some(*r),
                None => element(*self, i as int) is None,
            },
    {
        match self {
            JsonValue::Array(items) => {
                if i < items.len() {
                    Some(&items[i])
                } else {
                    None
                }
            },
            _ => None,
        }
    }

    /// Field number `index`, named `name`, of a struct with `n_fields`
    /// fields, found as serde's derived `Deserialize` finds it.
    pub fn struct_field(&self, n_fields: usize, index: usize, name: &str) -> (res: Option<Option<&JsonValue>>)
        ensures
            match res {
                Some(Some(r)) => struct_field(*self, n_fields as int, index as int, name@) == Some(Some(*r)),
                Some(None) => struct_field(*self, n_fields as int, index as int, name@) == Some(None::<JsonValue>),
                None => struct_field(*self, n_fields as int, index as int, name@) is None,
            },
    {
        match self {
            JsonValue::Object(_) => Some(self.get(name)),
            JsonValue::Array(items) => {
                if items.len() <= n_fields {
                    Some(self.element(index))
                } else {
                    None
                }
            },
            _ => None,
        }
    }
}

// ---------------------------------------------------------------------------
// Parsing JSON text with serde_json
// ---------------------------------------------------------------------------

/// One value of a JSON document, in document order: a scalar, or an array
/// with its length, or an object with its keys in order. The elements of an
/// array or the member values of an object follow it, each with its own
/// elements after it.
#[derive(Debug)]
pub enum JsonToken {
    Null,
    Bool(bool),
    /// A number, read as `i64` and as `u64` where it is an integer in range.
    Number(Option<i64>, Option<u64>),
    String(String),
    Array(usize),
    Object(Vec<String>),
}

/// A token as plain values.
pub enum TokenModel {
    Null,
    Bool(bool),
    Number(JsonNumber),
    String(Seq<char>),
    Array(nat),
    Object(Seq<Seq<char>>),
}

impl View for JsonToken {
    type V = TokenModel;

    open spec fn view(&self) -> TokenModel {
        match self {
            JsonToken::Null => TokenModel::Null,
            JsonToken::Bool(b) => TokenModel::Bool(*b),
            JsonToken::Number(i, u) => TokenModel::Number(JsonNumber { as_i64: *i, as_u64: *u }),
            JsonToken::String(s) => TokenModel::String(s@),
            JsonToken::Array(n) => TokenModel::Array(*n as nat),
            JsonToken::Object(keys) => TokenModel::Object(text::string_views(keys@)),
        }
    }
}

pub open spec fn token_models(t: Seq<JsonToken>) -> Seq<TokenModel> {
    t.map_values(|x: JsonToken| x@)
}

/// The tokens of the value that `serde_json::from_str::<serde_json::Value>`
/// reads from `text`, or `None` where it refuses the text.
pub uninterp spec fn text_tokens(text: Seq<char>) -> Option<Seq<TokenModel>>;

/// The tokens of the value that `serde_json::from_slice::<serde_json::Value>`
/// reads from `bytes`, or `None` where it refuses them.
pub uninterp spec fn bytes_tokens(bytes: Seq<u8>) -> Option<Seq<TokenModel>>;

/// `serde_json::from_str::<serde_json::Value>`, the value then written out
/// node for node, in document order (`serde_json::Number::as_i64` and
/// `as_u64` for numbers; an object's members in the map's order). The
/// contract ties the tokens to the text by name: what serde_json accepts is
/// left unsaid.
#[verifier::external_body]
fn serde_tokens(text: &str) -> (res: Option<Vec<JsonToken>>)
    ensures
        match res {
            Some(t) => text_tokens(text@) == Some(token_models(t@)),
            None => text_tokens(text@) is None,
        },
{
    let value: Value = serde_json::from_str(text).ok()?;
    let mut out = Vec::new();
    let mut stack = vec![&value];
    while let Some(v) = stack.pop() {
        out.push(match v {
            Null => JsonToken::Null,
            Bool(b) => JsonToken::Bool(*b),
            Number(n) => JsonToken::Number(n.as_i64(), n.as_u64()),
            Value::String(s) => JsonToken::String(s.clone()),
            Array(a) => { stack.extend(a.iter().rev()); JsonToken::Array(a.len()) },
            Object(m) => { stack.extend(m.values().rev()); JsonToken::Object(m.keys().cloned().collect()) },
        });
    }
    Some(out)
}

/// `serde_json::from_slice::<serde_json::Value>`, the value then written out
/// node for node as `serde_tokens` does.
#[verifier::external_body]
fn serde_tokens_slice(bytes: &[u8]) -> (res: Option<Vec<JsonToken>>)
    ensures
        match res {
            Some(t) => bytes_tokens(bytes@) == Some(token_models(t@)),
            None => bytes_tokens(bytes@) is None,
        },
{
    let value: Value = serde_json::from_slice(bytes).ok()?;
    let mut out = Vec::new();
    let mut stack = vec![&value];
    while let Some(v) = stack.pop() {
        out.push(match v {
            Null => JsonToken::Null,
            Bool(b) => JsonToken::Bool(*b),
            Number(n) => JsonToken::Number(n.as_i64(), n.as_u64()),
            Value::String(s) => JsonToken::String(s.clone()),
            Array(a) => { stack.extend(a.iter().rev()); JsonToken::Array(a.len()) },
            Object(m) => { stack.extend(m.values().rev()); JsonToken::Object(m.keys().cloned().collect()) },
        });
    }
    Some(out)
}

/// Where the value whose first token is at `pos` ends.
pub open spec fn value_end(t: Seq<TokenModel>, pos: int) -> Option<int>
    decreases t.len() - pos, 0int,
{
    if 0 <= pos < t.len() {
        match t[pos] {
            TokenModel::Array(n) => items_end(t, pos + 1, n),
            TokenModel::Object(keys) => items_end(t, pos + 1, keys.len()),
            _ => Some(pos + 1),
        }
    } else {
        None
    }
}

/// Where `n` values, the first at `pos`, end.
pub open spec fn items_end(t: Seq<TokenModel>, pos: int, n: nat) -> Option<int>
    decreases t.len() - pos, 1int,
{
    if n == 0 {
        Some(pos)
    } else if 0 <= pos < t.len() {
        match value_end(t, pos) {
            Some(e) => if pos < e <= t.len() {
                items_end(t, e, (n - 1) as nat)
            } else {
                None
            },
            None => None,
        }
    } else {
        None
    }
}

/// `v` is the value whose first token is at `pos`.
pub open spec fn decodes(t: Seq<TokenModel>, pos: int, v: JsonValue) -> bool
    decreases t.len() - pos, 0int,
{
    if 0 <= pos < t.len() {
        match t[pos] {
            TokenModel::Null => v is Null,
            TokenModel::Bool(b) => v == JsonValue::Bool(b),
            TokenModel::Number(n) => v == JsonValue::Number(n),
            TokenModel::String(s) => v matches JsonValue::String(x) && x@ == s,
            TokenModel::Array(n) => match v {
                JsonValue::Array(items) => items@.len() == n && match items_end(t, pos + 1, n) {
                    Some(e) => decodes_all(t, pos + 1, items@, e),
                    None => false,
                },
                _ => false,
            },
            TokenModel::Object(keys) => match v {
                JsonValue::Object(entries) => entries@.len() == keys.len()
                    && (forall|i: int| 0 <= i < keys.len() ==> (#[trigger] entries@[i]).0@ == keys[i])
                    && match items_end(t, pos + 1, keys.len()) {
                        Some(e) => decodes_all(t, pos + 1, member_values(entries@), e),
                        None => false,
                    },
                _ => false,
            },
        }
    } else {
        false
    }
}

/// `vs` are the values from `pos`, one after another, and they end at `end`.
pub open spec fn decodes_all(t: Seq<TokenModel>, pos: int, vs: Seq<JsonValue>, end: int) -> bool
    decreases t.len() - pos, 1int,
{
    if vs.len() == 0 {
        end == pos
    } else if 0 <= pos < t.len() {
        match value_end(t, pos) {
            Some(e) => pos < e <= t.len() && decodes(t, pos, vs[0]) && decodes_all(t, e, vs.drop_first(), end),
            None => false,
        }
    } else {
        false
    }
}

pub open spec fn member_values(entries: Seq<(String, JsonValue)>) -> Seq<JsonValue> {
    entries.map_values(|e: (String, JsonValue)| e.1)
}

/// What a parse gives for `tokens`: the value they spell out, where they
/// spell out exactly one; `None` where the parser refused the input.
pub open spec fn parsed_from(tokens: Option<Seq<TokenModel>>, res: Option<JsonValue>) -> bool {
    match tokens {
        Some(t) => if value_end(t, 0) == Some(t.len() as int) {
            res matches Some(v) && decodes(t, 0, v)
        } else {
            res is None
        },
        None => res is None,
    }
}

proof fn lemma_decodes_all_push(t: Seq<TokenModel>, p: int, vs: Seq<JsonValue>, m: int, v: JsonValue, e: int)
    requires
        decodes_all(t, p, vs, m),
        0 <= m < t.len(),
        value_end(t, m) == Some(e),
        m < e <= t.len(),
        decodes(t, m, v),
    ensures
        decodes_all(t, p, vs.push(v), e),
    decreases vs.len(),
{
    if vs.len() == 0 {
        assert(p == m);
        assert(vs.push(v).drop_first() =~= Seq::<JsonValue>::empty());
        assert(vs.push(v)[0] == v);
        assert(decodes_all(t, e, Seq::<JsonValue>::empty(), e));
        assert(decodes_all(t, p, vs.push(v), e));
    } else {
        let e1 = value_end(t, p).unwrap();
        lemma_decodes_all_push(t, e1, vs.drop_first(), m, v, e);
        assert(vs.push(v).drop_first() =~= vs.drop_first().push(v));
        assert(vs.push(v)[0] == vs[0]);
        assert(decodes_all(t, p, vs.push(v), e));
    }
}

proof fn lemma_decodes_all_end(t: Seq<TokenModel>, p: int, vs: Seq<JsonValue>, e: int)
    requires
        decodes_all(t, p, vs, e),
    ensures
        items_end(t, p, vs.len()) == Some(e),
    decreases vs.len(),
{
    if vs.len() > 0 {
        let e1 = value_end(t, p).unwrap();
        lemma_decodes_all_end(t, e1, vs.drop_first(), e);
    }
}

fn str_clone(s: &String) -> (res: String)
    ensures
        res@ == s@,
{
    text::to_owned_string(s.as_str())
}

/// The value whose first token is at `pos`, and where it ends.
fn decode_at(t: &Vec<JsonToken>, pos: usize) -> (res: Option<(JsonValue, usize)>)
    ensures
        match value_end(token_models(t@), pos as int) {
            Some(e) => (res matches Some((v, e2)) && e2 == e && decodes(token_models(t@), pos as int, v)),
            None => res is None,
        },
    decreases t.len() - pos,
{
    let ghost tm = token_models(t@);
    if pos >= t.len() {
        return None;
    }
    assert(tm[pos as int] == t@[pos as int]@);
    match &t[pos] {
        JsonToken::Null => Some((JsonValue::Null, pos + 1)),
        JsonToken::Bool(b) => Some((JsonValue::Bool(*b), pos + 1)),
        JsonToken::Number(i, u) => Some((JsonValue::Number(JsonNumber { as_i64: *i, as_u64: *u }), pos + 1)),
        JsonToken::String(s) => Some((JsonValue::String(str_clone(s)), pos + 1)),
        JsonToken::Array(n) => {
            let n = *n;
            let mut items: Vec<JsonValue> = Vec::new();
            let mut cur = pos + 1;
            let mut k: usize = 0;
            while k < n
                invariant
                    tm == token_models(t@),
                    tm[pos as int] == TokenModel::Array(n as nat),
                    pos < cur <= t.len(),
                    k <= n,
                    items@.len() == k,
                    items_end(tm, pos + 1, n as nat) == items_end(tm, cur as int, (n - k) as nat),
                    decodes_all(tm, pos + 1, items@, cur as int),
                decreases n - k,
            {
                if cur >= t.len() {
                    return None;
                }
                let (v, e) = decode_at(t, cur)?;
                if !(cur < e && e <= t.len()) {
                    return None;
                }
                proof { lemma_decodes_all_push(tm, pos + 1, items@, cur as int, v, e as int); }
                items.push(v);
                cur = e;
                k = k + 1;
            }
            proof { lemma_decodes_all_end(tm, pos + 1, items@, cur as int); }
            Some((JsonValue::Array(items), cur))
        },
        JsonToken::Object(keys) => {
            let n = keys.len();
            let mut entries: Vec<(String, JsonValue)> = Vec::new();
            let mut cur = pos + 1;
            let mut k: usize = 0;
            while k < n
                invariant
                    tm == token_models(t@),
                    tm[pos as int] == TokenModel::Object(text::string_views(keys@)),
                    n == keys@.len(),
                    pos < cur <= t.len(),
                    k <= n,
                    entries@.len() == k,
                    forall|i: int| 0 <= i < k ==> (#[trigger] entries@[i]).0@ == keys@[i]@,
                    items_end(tm, pos + 1, n as nat) == items_end(tm, cur as int, (n - k) as nat),
                    decodes_all(tm, pos + 1, member_values(entries@), cur as int),
                decreases n - k,
            {
                if cur >= t.len() {
                    return None;
                }
                let (v, e) = decode_at(t, cur)?;
                if !(cur < e && e <= t.len()) {
                    return None;
                }
                proof { lemma_decodes_all_push(tm, pos + 1, member_values(entries@), cur as int, v, e as int); }
                let ghost before = entries@;
                entries.push((str_clone(&keys[k]), v));
                assert(member_values(entries@) =~= member_values(before).push(v));
                cur = e;
                k = k + 1;
            }
            proof {
                lemma_decodes_all_end(tm, pos + 1, member_values(entries@), cur as int);
                assert forall|i: int| 0 <= i < n implies (#[trigger] entries@[i]).0@ == text::string_views(keys@)[i] by {
                    assert(text::string_views(keys@)[i] == keys@[i]@);
                }
            }
            Some((JsonValue::Object(entries), cur))
        },
    }
}

/// The one value that `t` spells out.
fn tree_of_tokens(t: &Vec<JsonToken>) -> (res: Option<JsonValue>)
    ensures
        parsed_from(Some(token_models(t@)), res),
{
    let (v, end) = decode_at(t, 0)?;
    if end == t.len() {
        Some(v)
    } else {
        None
    }
}

/// `a` and `b` hold the same JSON: the same scalars, strings with the same
/// characters, and arrays and objects whose parts hold the same JSON.
pub open spec fn same_json(a: JsonValue, b: JsonValue) -> bool
    decreases a,
{
    match a {
        JsonValue::Null => b is Null,
        JsonValue::Bool(x) => b == JsonValue::Bool(x),
        JsonValue::Number(n) => b == JsonValue::Number(n),
        JsonValue::String(x) => b matches JsonValue::String(y) && x@ == y@,
        JsonValue::Array(xs) => b matches JsonValue::Array(ys) && xs@.len() == ys@.len()
            && forall|i: int| 0 <= i < xs@.len() ==> same_json(#[trigger] xs@[i], ys@[i]),
        JsonValue::Object(xs) => b matches JsonValue::Object(ys) && xs@.len() == ys@.len()
            && forall|i: int| 0 <= i < xs@.len() ==> (#[trigger] xs@[i]).0@ == ys@[i].0@
                && same_json(xs@[i].1, ys@[i].1),
    }
}

/// Both absent, or both present and holding the same JSON.
pub open spec fn same_opt_json(a: Option<JsonValue>, b: Option<JsonValue>) -> bool {
    match (a, b) {
        (None, None) => true,
        (Some(x), Some(y)) => same_json(x, y),
        _ => false,
    }
}

/// The JSON that `serde_json` reads from `text`.
pub open spec fn json_of_text(text: Seq<char>) -> Option<JsonValue> {
    choose|v: Option<JsonValue>| parsed_from(text_tokens(text), v)
}

/// The JSON that `serde_json` reads from `bytes`.
pub open spec fn json_of_bytes(bytes: Seq<u8>) -> Option<JsonValue> {
    choose|v: Option<JsonValue>| parsed_from(bytes_tokens(bytes), v)
}

proof fn lemma_decodes_same(t: Seq<TokenModel>, pos: int, a: JsonValue, b: JsonValue)
    requires
        decodes(t, pos, a),
        decodes(t, pos, b),
    ensures
        same_json(a, b),
    decreases t.len() - pos, 0int,
{
    match t[pos] {
        TokenModel::Array(n) => {
            let e = items_end(t, pos + 1, n).unwrap();
            let (xs, ys) = (a->Array_0@, b->Array_0@);
            lemma_decodes_all_same(t, pos + 1, xs, ys, e);
        },
        TokenModel::Object(keys) => {
            let e = items_end(t, pos + 1, keys.len()).unwrap();
            let (xs, ys) = (a->Object_0@, b->Object_0@);
            lemma_decodes_all_same(t, pos + 1, member_values(xs), member_values(ys), e);
            assert forall|i: int| 0 <= i < xs.len() implies (#[trigger] xs[i]).0@ == ys[i].0@
                && same_json(xs[i].1, ys[i].1) by {
                assert(member_values(xs)[i] == xs[i].1);
                assert(member_values(ys)[i] == ys[i].1);
            }
        },
        _ => {},
    }
}

proof fn lemma_decodes_all_same(t: Seq<TokenModel>, pos: int, xs: Seq<JsonValue>, ys: Seq<JsonValue>, end: int)
    requires
        decodes_all(t, pos, xs, end),
        decodes_all(t, pos, ys, end),
        xs.len() == ys.len(),
    ensures
        forall|i: int| 0 <= i < xs.len() ==> same_json(#[trigger] xs[i], ys[i]),
    decreases t.len() - pos, 1int, xs.len(),
{
    if xs.len() > 0 {
        let e = value_end(t, pos).unwrap();
        lemma_decodes_same(t, pos, xs[0], ys[0]);
        lemma_decodes_all_same(t, e, xs.drop_first(), ys.drop_first(), end);
        assert forall|i: int| 0 <= i < xs.len() implies same_json(#[trigger] xs[i], ys[i]) by {
            if i > 0 {
                assert(xs.drop_first()[i - 1] == xs[i]);
                assert(ys.drop_first()[i - 1] == ys[i]);
            }
        }
    }
}

/// What a parse gives is fixed by the tokens: two results that both fit
/// them hold the same JSON.
pub proof fn lemma_parsed_same(tokens: Option<Seq<TokenModel>>, a: Option<JsonValue>, b: Option<JsonValue>)
    requires
        parsed_from(tokens, a),
        parsed_from(tokens, b),
    ensures
        same_opt_json(a, b),
{
    if let Some(t) = tokens {
        if value_end(t, 0) == Some(t.len() as int) {
            lemma_decodes_same(t, 0, a.unwrap(), b.unwrap());
        }
    }
}

proof fn lemma_find_member_same(xs: Seq<(String, JsonValue)>, ys: Seq<(String, JsonValue)>, key: Seq<char>)
    requires
        xs.len() == ys.len(),
        forall|i: int| 0 <= i < xs.len() ==> (#[trigger] xs[i]).0@ == ys[i].0@ && same_json(xs[i].1, ys[i].1),
    ensures
        same_opt_json(find_member(xs, key), find_member(ys, key)),
    decreases xs.len(),
{
    if xs.len() > 0 {
        assert(xs[0].0@ == ys[0].0@);
        let (xr, yr) = (xs.drop_first(), ys.drop_first());
        assert forall|i: int| 0 <= i < xr.len() implies (#[trigger] xr[i]).0@ == yr[i].0@ && same_json(xr[i].1, yr[i].1) by {
            assert(xr[i] == xs[i + 1]);
            assert(yr[i] == ys[i + 1]);
        }
        lemma_find_member_same(xr, yr, key);
    }
}

/// What the readers of this module give of two values that hold the same
/// JSON.
pub proof fn lemma_same_json_reads(a: JsonValue, b: JsonValue)
    requires
        same_json(a, b),
    ensures
        forall|key: Seq<char>| same_opt_json(#[trigger] member(a, key), member(b, key)),
        forall|i: int| same_opt_json(#[trigger] element(a, i), element(b, i)),
        as_str(a) == as_str(b),
        as_i64(a) == as_i64(b),
        as_u64(a) == as_u64(b),
        a is Null <==> b is Null,
        a is Array <==> b is Array,
        a is Object <==> b is Object,
        a is Array ==> a->Array_0@.len() == b->Array_0@.len(),
{
    assert forall|key: Seq<char>| same_opt_json(#[trigger] member(a, key), member(b, key)) by {
        if let JsonValue::Object(xs) = a {
            lemma_find_member_same(xs@, b->Object_0@, key);
        }
    }
}

/// A field read as serde reads a struct, from two values that hold the
/// same JSON.
pub proof fn lemma_same_struct_field(a: JsonValue, b: JsonValue, n_fields: int, index: int, name: Seq<char>)
    requires
        same_json(a, b),
    ensures
        match (struct_field(a, n_fields, index, name), struct_field(b, n_fields, index, name)) {
            (None, None) => true,
            (Some(x), Some(y)) => same_opt_json(x, y),
            _ => false,
        },
{
    lemma_same_json_reads(a, b);
    assert(same_opt_json(member(a, name), member(b, name)));
    assert(same_opt_json(element(a, index), element(b, index)));
}

/// JSON text parsed into a tree; `None` where `serde_json` refuses it.
pub fn parse_json(text: &str) -> (res: Option<JsonValue>)
    ensures
        parsed_from(text_tokens(text@), res),
        same_opt_json(res, json_of_text(text@)),
{
    let res = match serde_tokens(text) {
        Some(t) => tree_of_tokens(&t),
        None => None,
    };
    proof {
        assert(parsed_from(text_tokens(text@), res));
        lemma_parsed_same(text_tokens(text@), res, json_of_text(text@));
    }
    res
}

/// JSON bytes parsed into a tree; `None` where `serde_json` refuses them.
pub fn parse_json_bytes(bytes: &[u8]) -> (res: Option<JsonValue>)
    ensures
        parsed_from(bytes_tokens(bytes@), res),
        same_opt_json(res, json_of_bytes(bytes@)),
{
    let res = match serde_tokens_slice(bytes) {
        Some(t) => tree_of_tokens(&t),
        None => None,
    };
    proof {
        assert(parsed_from(bytes_tokens(bytes@), res));
        lemma_parsed_same(bytes_tokens(bytes@), res, json_of_bytes(bytes@));
    }
    res
}

} // verus!
