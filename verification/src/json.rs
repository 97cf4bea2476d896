//! JSON values. `Json` keeps the members of an object in the order they were
//! written; its view `JsonV` is the mathematical tree the contracts speak of.
//! Reading and writing text is `serde_json`'s work; between that crate and `Json`
//! a document travels as a list of tokens in postorder.

use crate::text::{chars_of, integer, joined, number, parse_integer, parse_number, str_eq, strings};
use self::Token::{Flag, Items, Keys, Minus, Nothing, Numeral, Real, Text, Whole};
use serde_json::Value;
use vstd::prelude::*;

verus! {

/// A JSON number: a non-negative integer, a negative one, or a floating-point
/// number by its shortest decimal text.
#[derive(Debug)]
pub enum Number {
    PosInt(u64),
    NegInt(i64),
    Float(String),
}

#[derive(Debug)]
pub enum Json {
    Null,
    Bool(bool),
    Number(Number),
    Str(String),
    Array(Vec<Json>),
    Object(Vec<(String, Json)>),
}

pub enum NumberV {
    PosInt(u64),
    NegInt(i64),
    Float(Seq<char>),
}

#[verifier::ext_equal]
pub enum JsonV {
    Null,
    Bool(bool),
    Number(NumberV),
    Str(Seq<char>),
    Array(Seq<JsonV>),
    Object(Seq<(Seq<char>, JsonV)>),
}

impl View for Number {
    type V = NumberV;

    open spec fn view(&self) -> NumberV {
        match self {
            Number::PosInt(n) => NumberV::PosInt(*n),
            Number::NegInt(n) => NumberV::NegInt(*n),
            Number::Float(t) => NumberV::Float(t@),
        }
    }
}

impl View for Json {
    type V = JsonV;

    open spec fn view(&self) -> JsonV
        decreases self,
    {
        match self {
            Json::Null => JsonV::Null,
            Json::Bool(b) => JsonV::Bool(*b),
            Json::Number(n) => JsonV::Number(n@),
            Json::Str(s) => JsonV::Str(s@),
            Json::Array(v) => JsonV::Array(
                Seq::new(
                    v@.len(),
                    |i: int|
                        if 0 <= i < v@.len() {
                            v@[i].view()
                        } else {
                            JsonV::Null
                        },
                ),
            ),
            Json::Object(v) => JsonV::Object(
                Seq::new(
                    v@.len(),
                    |i: int|
                        if 0 <= i < v@.len() {
                            (v@[i].0@, v@[i].1.view())
                        } else {
                            (Seq::empty(), JsonV::Null)
                        },
                ),
            ),
        }
    }
}

/// A list of values by their views.
pub open spec fn jsons(v: Seq<Json>) -> Seq<JsonV> {
    Seq::new(v.len(), |i: int| v[i]@)
}

/// A list of object members by their views.
pub open spec fn members(v: Seq<(String, Json)>) -> Seq<(Seq<char>, JsonV)> {
    Seq::new(v.len(), |i: int| (v[i].0@, v[i].1@))
}

pub proof fn lemma_view(j: Json)
    ensures
        j matches Json::Array(v) ==> j@ == JsonV::Array(jsons(v@)),
        j matches Json::Object(v) ==> j@ == JsonV::Object(members(v@)),
{
    reveal_with_fuel(<Json as View>::view, 2);
    match j {
        Json::Array(v) => {
            assert(j@->Array_0 =~= jsons(v@));
        },
        Json::Object(v) => {
            assert(j@->Object_0 =~= members(v@));
        },
        _ => {},
    }
}

// ---------------------------------------------------------------- tokens

/// One node of a document in postorder: a scalar, or a container that closes over
/// the values just before it. A number is a numeral yet to be told apart, or an
/// integer or floating-point number that is known as such.
pub enum Token {
    Nothing,
    Flag(bool),
    Numeral(String),
    Whole(u64),
    Minus(i64),
    Real(String),
    Text(String),
    Items(usize),
    Keys(Vec<String>),
}

pub enum TokenV {
    Nothing,
    Flag(bool),
    Numeral(Seq<char>),
    Whole(u64),
    Minus(i64),
    Real(Seq<char>),
    Text(Seq<char>),
    Items(nat),
    Keys(Seq<Seq<char>>),
}

impl View for Token {
    type V = TokenV;

    open spec fn view(&self) -> TokenV {
        match self {
            Token::Nothing => TokenV::Nothing,
            Token::Flag(b) => TokenV::Flag(*b),
            Token::Numeral(t) => TokenV::Numeral(t@),
            Token::Whole(n) => TokenV::Whole(*n),
            Token::Minus(n) => TokenV::Minus(*n),
            Token::Real(t) => TokenV::Real(t@),
            Token::Text(s) => TokenV::Text(s@),
            Token::Items(n) => TokenV::Items(*n as nat),
            Token::Keys(k) => TokenV::Keys(strings(k@)),
        }
    }
}

/// The number that a numeral denotes: an integer where it is one in range, else a
/// floating-point number.
pub open spec fn number_of(t: Seq<char>) -> NumberV {
    match (number(t, u64::MAX as nat), integer(t)) {
        (Some(n), _) => NumberV::PosInt(n as u64),
        (None, Some(n)) => NumberV::NegInt(n as i64),
        (None, None) => NumberV::Float(t),
    }
}

fn read_number(t: String) -> (r: Number)
    ensures
        r@ == number_of(t@),
{
    let cs = chars_of(t.as_str());
    match parse_number(&cs, u64::MAX) {
        Some(n) => Number::PosInt(n),
        None => match parse_integer(&cs) {
            Some(n) => Number::NegInt(n),
            None => Number::Float(t),
        },
    }
}

pub open spec fn tokens(v: Seq<Token>) -> Seq<TokenV> {
    Seq::new(v.len(), |i: int| v[i]@)
}

/// Pairs each key with the value at the same place.
pub open spec fn zipped(keys: Seq<Seq<char>>, vals: Seq<JsonV>) -> Seq<(Seq<char>, JsonV)> {
    Seq::new(keys.len(), |i: int| (keys[i], vals[i]))
}

/// The stack of values after one more token.
pub open spec fn stack_step(st: Seq<JsonV>, t: TokenV) -> Option<Seq<JsonV>> {
    match t {
        TokenV::Nothing => Some(st.push(JsonV::Null)),
        TokenV::Flag(b) => Some(st.push(JsonV::Bool(b))),
        TokenV::Numeral(t) => Some(st.push(JsonV::Number(number_of(t)))),
        TokenV::Whole(n) => Some(st.push(JsonV::Number(NumberV::PosInt(n)))),
        TokenV::Minus(n) => Some(st.push(JsonV::Number(NumberV::NegInt(n)))),
        TokenV::Real(t) => Some(st.push(JsonV::Number(NumberV::Float(t)))),
        TokenV::Text(s) => Some(st.push(JsonV::Str(s))),
        TokenV::Items(n) => if n <= st.len() {
            Some(st.take(st.len() - n).push(JsonV::Array(st.skip(st.len() - n))))
        } else {
            None
        },
        TokenV::Keys(k) => if k.len() <= st.len() {
            Some(st.take(st.len() - k.len()).push(JsonV::Object(zipped(k, st.skip(st.len() - k.len())))))
        } else {
            None
        },
    }
}

/// The stack of values that a list of tokens leaves.
pub open spec fn stack_of(ts: Seq<TokenV>) -> Option<Seq<JsonV>>
    decreases ts.len(),
{
    if ts.len() == 0 {
        Some(Seq::empty())
    } else {
        match stack_of(ts.drop_last()) {
            Some(st) => stack_step(st, ts.last()),
            None => None,
        }
    }
}

/// The one value that a list of tokens denotes, where it denotes one.
pub open spec fn tree_of(ts: Seq<TokenV>) -> Option<JsonV> {
    match stack_of(ts) {
        Some(st) => if st.len() == 1 {
            Some(st[0])
        } else {
            None
        },
        None => None,
    }
}

/// The tokens of a value, in postorder.
pub open spec fn postorder(j: JsonV) -> Seq<TokenV>
    decreases j, 0nat,
{
    match j {
        JsonV::Null => seq![TokenV::Nothing],
        JsonV::Bool(b) => seq![TokenV::Flag(b)],
        JsonV::Number(NumberV::PosInt(n)) => seq![TokenV::Whole(n)],
        JsonV::Number(NumberV::NegInt(n)) => seq![TokenV::Minus(n)],
        JsonV::Number(NumberV::Float(t)) => seq![TokenV::Real(t)],
        JsonV::Str(s) => seq![TokenV::Text(s)],
        JsonV::Array(a) => postorder_items(a, a.len()).push(TokenV::Items(a.len())),
        JsonV::Object(m) => postorder_members(m, m.len()).push(TokenV::Keys(keys_of(m))),
    }
}

pub open spec fn postorder_items(a: Seq<JsonV>, n: nat) -> Seq<TokenV>
    decreases a, n,
{
    if n == 0 || n > a.len() {
        Seq::empty()
    } else {
        postorder_items(a, (n - 1) as nat) + postorder(a[n - 1])
    }
}

pub open spec fn postorder_members(m: Seq<(Seq<char>, JsonV)>, n: nat) -> Seq<TokenV>
    decreases m, n,
{
    if n == 0 || n > m.len() {
        Seq::empty()
    } else {
        postorder_members(m, (n - 1) as nat) + postorder(m[n - 1].1)
    }
}

/// The keys of an object, in order.
pub open spec fn keys_of(m: Seq<(Seq<char>, JsonV)>) -> Seq<Seq<char>> {
    Seq::new(m.len(), |i: int| m[i].0)
}

/// The values of an object, in order.
pub open spec fn values_of(m: Seq<(Seq<char>, JsonV)>) -> Seq<JsonV> {
    Seq::new(m.len(), |i: int| m[i].1)
}

/// Running the tokens `b` after the tokens `a` goes on from the stack that `a` left.
pub open spec fn stack_from(st: Seq<JsonV>, ts: Seq<TokenV>) -> Option<Seq<JsonV>>
    decreases ts.len(),
{
    if ts.len() == 0 {
        Some(st)
    } else {
        match stack_from(st, ts.drop_last()) {
            Some(s) => stack_step(s, ts.last()),
            None => None,
        }
    }
}

proof fn lemma_stack_from_append(st: Seq<JsonV>, a: Seq<TokenV>, b: Seq<TokenV>)
    ensures
        stack_from(st, a + b) == (match stack_from(st, a) {
            Some(s) => stack_from(s, b),
            None => None,
        }),
    decreases b.len(),
{
    if b.len() == 0 {
        assert(a + b =~= a);
    } else {
        lemma_stack_from_append(st, a, b.drop_last());
        assert((a + b).drop_last() =~= a + b.drop_last());
    }
}

proof fn lemma_stack_from_empty(ts: Seq<TokenV>)
    ensures
        stack_from(Seq::empty(), ts) == stack_of(ts),
    decreases ts.len(),
{
    if ts.len() > 0 {
        lemma_stack_from_empty(ts.drop_last());
    }
}

proof fn lemma_postorder(st: Seq<JsonV>, j: JsonV)
    ensures
        stack_from(st, postorder(j)) == Some(st.push(j)),
    decreases j, 0nat,
{
    match j {
        JsonV::Array(a) => {
            lemma_postorder_items(st, a, a.len());
            let p = postorder_items(a, a.len());
            assert(p.push(TokenV::Items(a.len())).drop_last() =~= p);
            let s = st + a.take(a.len() as int);
            assert(s.take(s.len() - a.len()) =~= st);
            assert(s.skip(s.len() - a.len()) =~= a);
        },
        JsonV::Object(m) => {
            lemma_postorder_members(st, m, m.len());
            let p = postorder_members(m, m.len());
            assert(p.push(TokenV::Keys(keys_of(m))).drop_last() =~= p);
            let s = st + values_of(m).take(m.len() as int);
            assert(s.take(s.len() - m.len()) =~= st);
            assert(s.skip(s.len() - m.len()) =~= values_of(m));
            assert(zipped(keys_of(m), values_of(m)) =~= m);
        },
        _ => {
            let p = postorder(j);
            assert(p.drop_last() =~= Seq::<TokenV>::empty());
            assert(stack_from(st, p.drop_last()) == Some(st));
        },
    }
}

proof fn lemma_postorder_items(st: Seq<JsonV>, a: Seq<JsonV>, n: nat)
    requires
        n <= a.len(),
    ensures
        stack_from(st, postorder_items(a, n)) == Some(st + a.take(n as int)),
    decreases a, n,
{
    if n == 0 {
        assert(st + a.take(0) =~= st);
    } else {
        lemma_postorder_items(st, a, (n - 1) as nat);
        let s = st + a.take(n - 1);
        lemma_postorder(s, a[n - 1]);
        lemma_stack_from_append(st, postorder_items(a, (n - 1) as nat), postorder(a[n - 1]));
        assert(s.push(a[n - 1]) =~= st + a.take(n as int));
    }
}

proof fn lemma_postorder_members(st: Seq<JsonV>, m: Seq<(Seq<char>, JsonV)>, n: nat)
    requires
        n <= m.len(),
    ensures
        stack_from(st, postorder_members(m, n)) == Some(st + values_of(m).take(n as int)),
    decreases m, n,
{
    if n == 0 {
        assert(st + values_of(m).take(0) =~= st);
    } else {
        lemma_postorder_members(st, m, (n - 1) as nat);
        let s = st + values_of(m).take(n - 1);
        lemma_postorder(s, m[n - 1].1);
        lemma_stack_from_append(st, postorder_members(m, (n - 1) as nat), postorder(m[n - 1].1));
        assert(s.push(m[n - 1].1) =~= st + values_of(m).take(n as int));
    }
}

/// The tokens of a value denote that value.
pub proof fn law_tree_of_postorder(j: JsonV)
    ensures
        tree_of(postorder(j)) == Some(j),
{
    lemma_postorder(Seq::empty(), j);
    lemma_stack_from_empty(postorder(j));
    assert(Seq::<JsonV>::empty().push(j)[0] == j);
}

/// Builds the value that a list of tokens denotes.
pub fn build(ts: Vec<Token>) -> (r: Option<Json>)
    ensures
        match r {
            Some(j) => tree_of(tokens(ts@)) == Some(j@),
            None => tree_of(tokens(ts@)) is None,
        },
{
    let mut st: Vec<Json> = Vec::new();
    assert(jsons(st@) =~= Seq::<JsonV>::empty());
    for t in it: ts
        invariant
            it.seq() == ts@,
            stack_of(tokens(ts@).take(it.index() as int)) == Some(jsons(st@)),
    {
        let ghost k = it.index() as int;
        let ghost all = tokens(ts@);
        let ghost before = jsons(st@);
        assert(all.take(k + 1).drop_last() =~= all.take(k));
        assert(all.take(k + 1).last() == t@);
        match t {
            Token::Nothing => st.push(Json::Null),
            Token::Flag(b) => st.push(Json::Bool(b)),
            Token::Numeral(x) => st.push(Json::Number(read_number(x))),
            Token::Whole(n) => st.push(Json::Number(Number::PosInt(n))),
            Token::Minus(n) => st.push(Json::Number(Number::NegInt(n))),
            Token::Real(x) => st.push(Json::Number(Number::Float(x))),
            Token::Text(s) => st.push(Json::Str(s)),
            Token::Items(n) => {
                if n > st.len() {
                    proof {
                        lemma_stack_fails(all, k + 1);
                    }
                    return None;
                }
                let at: usize = st.len() - n;
                let items = st.split_off(at);
                let ghost items_v = items@;
                let v = Json::Array(items);
                proof {
                    lemma_view(v);
                    assert(jsons(items_v) =~= before.skip(at as int));
                    assert(jsons(st@) =~= before.take(at as int));
                }
                st.push(v);
            },
            Token::Keys(keys) => {
                if keys.len() > st.len() {
                    proof {
                        lemma_stack_fails(all, k + 1);
                    }
                    return None;
                }
                let at: usize = st.len() - keys.len();
                let vals = st.split_off(at);
                let ghost vals_v = vals@;
                let mut ms: Vec<(String, Json)> = Vec::new();
                let mut i: usize = 0;
                for v in jt: vals
                    invariant
                        jt.seq() == vals_v,
                        vals_v.len() == keys.len(),
                        i == jt.index(),
                        i <= keys.len(),
                        members(ms@) == zipped(strings(keys@), jsons(vals_v)).take(i as int),
                {
                    let ghost old_ms = ms@;
                    ms.push((keys[i].clone(), v));
                    assert(members(ms@) =~= members(old_ms).push((keys@[i as int]@, v@)));
                    assert(zipped(strings(keys@), jsons(vals_v)).take(i + 1) =~= zipped(
                        strings(keys@),
                        jsons(vals_v),
                    ).take(i as int).push((keys@[i as int]@, v@)));
                    i += 1;
                }
                let ghost ms_v = ms@;
                let v = Json::Object(ms);
                proof {
                    lemma_view(v);
                    assert(members(ms_v) =~= zipped(strings(keys@), jsons(vals_v)));
                    assert(jsons(vals_v) =~= before.skip(at as int));
                    assert(jsons(st@) =~= before.take(at as int));
                }
                st.push(v);
            },
        }
        assert(jsons(st@) =~= stack_step(before, t@)->Some_0);
    }
    assert(tokens(ts@).take(ts@.len() as int) =~= tokens(ts@));
    if st.len() == 1 {
        assert(jsons(st@)[0] == st@[0]@);
        st.pop()
    } else {
        None
    }
}

proof fn lemma_stack_fails(all: Seq<TokenV>, n: int)
    requires
        0 <= n <= all.len(),
        stack_of(all.take(n)) is None,
    ensures
        stack_of(all) is None,
    decreases all.len() - n,
{
    if n == all.len() {
        assert(all.take(n) =~= all);
    } else {
        assert(all.take(n + 1).drop_last() =~= all.take(n));
        lemma_stack_fails(all, n + 1);
    }
}

/// Appends the tokens of a value, in postorder.
fn flatten(j: &Json, out: &mut Vec<Token>)
    ensures
        tokens(final(out)@) == tokens(old(out)@) + postorder(j@),
    decreases j, 0nat,
{
    proof {
        lemma_view(*j);
    }
    let ghost before = tokens(out@);
    match j {
        Json::Null => out.push(Token::Nothing),
        Json::Bool(b) => out.push(Token::Flag(*b)),
        Json::Number(Number::PosInt(n)) => out.push(Token::Whole(*n)),
        Json::Number(Number::NegInt(n)) => out.push(Token::Minus(*n)),
        Json::Number(Number::Float(x)) => out.push(Token::Real(x.clone())),
        Json::Str(s) => out.push(Token::Text(s.clone())),
        Json::Array(v) => {
            flatten_items(v, v.len(), out);
            let ghost mid = tokens(out@);
            out.push(Token::Items(v.len()));
            assert(tokens(out@) =~= mid.push(TokenV::Items(v.len() as nat)));
        },
        Json::Object(v) => {
            flatten_members(v, v.len(), out);
            let mut keys: Vec<String> = Vec::new();
            let mut i: usize = 0;
            while i < v.len()
                invariant
                    i <= v.len(),
                    strings(keys@) == keys_of(members(v@)).take(i as int),
                decreases v.len() - i,
            {
                let ghost old_keys = keys@;
                keys.push(v[i].0.clone());
                assert(strings(keys@) =~= strings(old_keys).push(v@[i as int].0@));
                i += 1;
            }
            let ghost mid = tokens(out@);
            let ghost kv = keys@;
            assert(strings(kv) =~= keys_of(members(v@)));
            out.push(Token::Keys(keys));
            assert(tokens(out@) =~= mid.push(TokenV::Keys(strings(kv))));
        },
    }
    assert(tokens(out@) =~= before + postorder(j@));
}

fn flatten_items(v: &Vec<Json>, n: usize, out: &mut Vec<Token>)
    requires
        n <= v.len(),
    ensures
        tokens(final(out)@) == tokens(old(out)@) + postorder_items(jsons(v@), n as nat),
    decreases v, n,
{
    if n > 0 {
        flatten_items(v, n - 1, out);
        flatten(&v[n - 1], out);
        assert(jsons(v@)[n - 1] == v@[n - 1]@);
    }
    assert(tokens(out@) =~= tokens(old(out)@) + postorder_items(jsons(v@), n as nat));
}

fn flatten_members(v: &Vec<(String, Json)>, n: usize, out: &mut Vec<Token>)
    requires
        n <= v.len(),
    ensures
        tokens(final(out)@) == tokens(old(out)@) + postorder_members(members(v@), n as nat),
    decreases v, n,
{
    if n > 0 {
        flatten_members(v, n - 1, out);
        flatten(&v[n - 1].1, out);
        assert(members(v@)[n - 1].1 == v@[n - 1].1@);
    }
    assert(tokens(out@) =~= tokens(old(out)@) + postorder_members(members(v@), n as nat));
}

// ---------------------------------------------------------------- text

/// What `serde_json::from_str` makes of a text: the document's tokens in postorder,
/// or the message of its error.
pub uninterp spec fn serde_json_read(text: Seq<char>) -> Result<Seq<TokenV>, Seq<char>>;

/// What `serde_json::to_string` writes for a document given by its tokens.
pub uninterp spec fn serde_json_text(ts: Seq<TokenV>) -> Seq<char>;

/// A read result by its views.
pub open spec fn read_view(r: Result<Vec<Token>, String>) -> Result<Seq<TokenV>, Seq<char>> {
    match r {
        Ok(v) => Ok(tokens(v@)),
        Err(e) => Err(e@),
    }
}

/// The most levels of arrays and objects in a text that `serde_json` reads.
pub const LEVELS: usize = 127;

/// `serde_json::from_str::<Value>`: the tree it returns, node by node in postorder,
/// a number by its numeral; or its error's message. Both depend on the text alone. The
/// tree has at most `LEVELS` levels, and each key once in its object.
#[verifier::external_body]
fn read_tokens(text: &str) -> (r: Result<Vec<Token>, String>)
    ensures
        read_view(r) == serde_json_read(text@),
        r matches Ok(v) ==> (tree_of(tokens(v@)) matches Some(j) && readable(j, LEVELS as nat)),
{
    let mut todo = vec![serde_json::from_str(text).map_err(|e| e.to_string())?];
    let mut out = Vec::new();
    while let Some(v) = todo.pop() {
        out.push(match v {
            Value::Null => Nothing,
            Value::Bool(b) => Flag(b),
            Value::Number(n) => Numeral(n.to_string()),
            Value::String(s) => Text(s),
            Value::Array(a) => (Items(a.len()), todo.extend(a)).0,
            Value::Object(m) => (Keys(m.keys().cloned().collect()), todo.extend(m.into_values())).0,
        });
    }
    out.reverse();
    Ok(out)
}

/// The compact texts of a list of documents.
pub open spec fn item_texts(a: Seq<JsonV>) -> Seq<Seq<char>> {
    Seq::new(a.len(), |i: int| serde_json_text(postorder(a[i])))
}

/// The text of an array whose items have the given texts.
pub open spec fn array_text(items: Seq<Seq<char>>) -> Seq<char> {
    "["@ + joined(items, ","@) + "]"@
}

/// `serde_json::to_string` on the `Value` that the tokens denote. The text depends
/// on the tokens alone; an array's is that of its items between brackets, with
/// commas between them.
#[verifier::external_body]
fn write_tokens(ts: Vec<Token>) -> (r: String)
    requires
        tree_of(tokens(ts@)) matches Some(j) && tokens(ts@) == postorder(j),
    ensures
        r@ == serde_json_text(tokens(ts@)),
        tree_of(tokens(ts@)) matches Some(JsonV::Array(a)) ==> r@ == array_text(item_texts(a)),
{
    let mut st: Vec<Value> = Vec::new();
    for t in ts {
        let v = match t {
            Nothing => Value::Null,
            Flag(b) => b.into(),
            Whole(n) => n.into(),
            Minus(n) => n.into(),
            Real(x) | Numeral(x) => x.parse().ok().and_then(serde_json::Number::from_f64).into(),
            Text(s) => s.into(),
            Items(n) => st.split_off(st.len() - n).into(),
            Keys(k) => std::iter::zip(k.clone(), st.split_off(st.len() - k.len())).collect(),
        };
        st.push(v);
    }
    serde_json::to_string(&st[0]).unwrap_or_default()
}

/// What `serde_json::to_string_pretty` writes for a document given by its tokens.
pub uninterp spec fn serde_json_pretty(ts: Seq<TokenV>) -> Seq<char>;

/// Each key occurs once.
pub open spec fn keys_distinct(m: Seq<(Seq<char>, JsonV)>) -> bool {
    forall|i: int, j: int| 0 <= i < j < m.len() ==> (#[trigger] m[i]).0 != (#[trigger] m[j]).0
}

/// A document whose text can be read: at most `depth` levels deep, with each key once in its
/// object, and with a negative number only where it is one.
pub open spec fn readable(j: JsonV, depth: nat) -> bool
    decreases j,
{
    match j {
        JsonV::Number(NumberV::NegInt(n)) => n < 0,
        JsonV::Array(a) => depth > 0 && forall|i: int|
            0 <= i < a.len() ==> readable(#[trigger] a[i], (depth - 1) as nat),
        JsonV::Object(m) => depth > 0 && keys_distinct(m) && forall|i: int|
            0 <= i < m.len() ==> readable((#[trigger] m[i]).1, (depth - 1) as nat),
        _ => true,
    }
}

/// A document without floating-point numbers.
pub open spec fn exact(j: JsonV) -> bool
    decreases j,
{
    match j {
        JsonV::Number(NumberV::Float(_)) => false,
        JsonV::Array(a) => forall|i: int| 0 <= i < a.len() ==> exact(#[trigger] a[i]),
        JsonV::Object(m) => forall|i: int| 0 <= i < m.len() ==> exact((#[trigger] m[i]).1),
        _ => true,
    }
}

/// A document that comes back as it was when its text is read.
pub open spec fn plain(j: JsonV) -> bool {
    readable(j, LEVELS as nat) && exact(j)
}

/// `k` is `j`, but for floating-point numbers: of those it has others in their place.
pub open spec fn comes_back_as(j: JsonV, k: JsonV) -> bool
    decreases j,
{
    match j {
        JsonV::Number(NumberV::Float(_)) => k is Null || (k matches JsonV::Number(NumberV::Float(_))),
        JsonV::Array(a) => k matches JsonV::Array(b) && a.len() == b.len() && forall|i: int|
            0 <= i < a.len() ==> comes_back_as(#[trigger] a[i], b[i]),
        JsonV::Object(m) => k matches JsonV::Object(o) && m.len() == o.len() && forall|i: int|
            0 <= i < m.len() ==> o[i].0 == (#[trigger] m[i]).0 && comes_back_as(m[i].1, o[i].1),
        _ => k == j,
    }
}

/// Without floating-point numbers a document comes back as itself.
pub proof fn lemma_exact_comes_back(j: JsonV, k: JsonV)
    requires
        exact(j),
        comes_back_as(j, k),
    ensures
        j == k,
    decreases j,
{
    match j {
        JsonV::Array(a) => {
            let b = k->Array_0;
            assert forall|i: int| 0 <= i < a.len() implies #[trigger] a[i] == b[i] by {
                lemma_exact_comes_back(a[i], b[i]);
            }
            assert(a =~= b);
        },
        JsonV::Object(m) => {
            let o = k->Object_0;
            assert forall|i: int| 0 <= i < m.len() implies #[trigger] m[i] == o[i] by {
                lemma_exact_comes_back(m[i].1, o[i].1);
            }
            assert(m =~= o);
        },
        _ => {},
    }
}

/// A text is read as the document `j`, but for its floating-point numbers.
pub open spec fn reads_like(text: Seq<char>, j: JsonV) -> bool {
    parsed(text) matches Ok(k) && comes_back_as(j, k)
}

/// A text is read as the document `j`.
pub open spec fn reads_as(text: Seq<char>, j: JsonV) -> bool {
    parsed(text) == Ok::<JsonV, Seq<char>>(j)
}

/// `serde_json::to_string_pretty` on the `Value` that the tokens denote. The text
/// depends on the tokens alone; an object's begins with a brace. `from_str` reads a
/// document within its limits back, with a line feed behind it too. The floating-point
/// numbers are read back as such, but not always as the same ones; one that is not finite
/// is written as null.
#[verifier::external_body]
fn write_tokens_pretty(ts: Vec<Token>) -> (r: String)
    requires
        tree_of(tokens(ts@)) matches Some(j) && tokens(ts@) == postorder(j),
    ensures
        r@ == serde_json_pretty(tokens(ts@)),
        tree_of(tokens(ts@)) matches Some(JsonV::Object(_)) ==> r@.len() > 0 && r@[0] == '{',
        readable(tree_of(tokens(ts@))->Some_0, LEVELS as nat) ==> reads_like(r@, tree_of(tokens(ts@))->Some_0),
        readable(tree_of(tokens(ts@))->Some_0, LEVELS as nat) ==> reads_like(r@ + "\n"@, tree_of(tokens(ts@))->Some_0),
{
    let mut st: Vec<Value> = Vec::new();
    for t in ts {
        let v = match t {
            Nothing => Value::Null,
            Flag(b) => b.into(),
            Whole(n) => n.into(),
            Minus(n) => n.into(),
            Real(x) | Numeral(x) => x.parse().ok().and_then(serde_json::Number::from_f64).into(),
            Text(s) => s.into(),
            Items(n) => st.split_off(st.len() - n).into(),
            Keys(k) => std::iter::zip(k.clone(), st.split_off(st.len() - k.len())).collect(),
        };
        st.push(v);
    }
    serde_json::to_string_pretty(&st[0]).unwrap_or_default()
}

/// The document that a text holds, or the message that says why it holds none.
pub open spec fn parsed(text: Seq<char>) -> Result<JsonV, Seq<char>> {
    match serde_json_read(text) {
        Ok(ts) => match tree_of(ts) {
            Some(j) => Ok(j),
            None => Err("malformed document"@),
        },
        Err(e) => Err(e),
    }
}

/// The compact text of a document.
pub open spec fn text_of(j: JsonV) -> Seq<char> {
    serde_json_text(postorder(j))
}

/// The indented text of a document.
pub open spec fn pretty_text(j: JsonV) -> Seq<char> {
    serde_json_pretty(postorder(j))
}

/// The value of the first member with the given key.
pub open spec fn member(m: Seq<(Seq<char>, JsonV)>, key: Seq<char>) -> Option<JsonV>
    decreases m.len(),
{
    if m.len() == 0 {
        None
    } else if m[0].0 == key {
        Some(m[0].1)
    } else {
        member(m.drop_first(), key)
    }
}

/// The place of the first member with the given key.
pub open spec fn member_index(m: Seq<(Seq<char>, JsonV)>, key: Seq<char>, from: int) -> Option<int>
    decreases m.len() - from,
{
    if from < 0 || from >= m.len() {
        None
    } else if m[from].0 == key {
        Some(from)
    } else {
        member_index(m, key, from + 1)
    }
}

pub proof fn lemma_member_at(m: Seq<(Seq<char>, JsonV)>, key: Seq<char>, k: int)
    requires
        0 <= k <= m.len(),
        forall|j: int| 0 <= j < k ==> m[j].0 != key,
    ensures
        k < m.len() && m[k].0 == key ==> member(m, key) == Some(m[k].1),
        k == m.len() ==> member(m, key) is None,
        member(m, key) == member(m.skip(k), key),
    decreases k,
{
    if k == 0 {
        assert(m.skip(0) =~= m);
    } else {
        let d = m.drop_first();
        assert forall|j: int| 0 <= j < k - 1 implies d[j].0 != key by {
            assert(d[j] == m[j + 1]);
        }
        lemma_member_at(d, key, k - 1);
        assert(d.skip(k - 1) =~= m.skip(k));
        assert(m[0].0 != key);
        if k < m.len() {
            assert(d[k - 1] == m[k]);
        }
    }
}

/// An object has one member of a key, and that is its value.
pub open spec fn gives(m: Seq<(Seq<char>, JsonV)>, key: Seq<char>, v: JsonV) -> bool {
    exists|i: int|
        0 <= i < m.len() && #[trigger] m[i] == (key, v) && forall|j: int|
            0 <= j < m.len() && j != i ==> (#[trigger] m[j]).0 != key
}

/// An object has no member of a key.
pub open spec fn lacks(m: Seq<(Seq<char>, JsonV)>, key: Seq<char>) -> bool {
    forall|j: int| 0 <= j < m.len() ==> (#[trigger] m[j]).0 != key
}

/// A member is found by its key, wherever it stands; a key that is not there is not found.
pub proof fn law_a_member_is_found(m: Seq<(Seq<char>, JsonV)>, key: Seq<char>)
    ensures
        forall|v: JsonV| #[trigger] gives(m, key, v) ==> member(m, key) == Some(v),
        lacks(m, key) <==> member(m, key) is None,
{
    assert forall|v: JsonV| #[trigger] gives(m, key, v) implies member(m, key) == Some(v) by {
        let i = choose|i: int|
            0 <= i < m.len() && #[trigger] m[i] == (key, v) && forall|j: int|
                0 <= j < m.len() && j != i ==> (#[trigger] m[j]).0 != key;
        lemma_member_at(m, key, i);
    }
    if lacks(m, key) {
        lemma_member_at(m, key, m.len() as int);
    }
    if member(m, key) is None {
        lemma_member_none(m, key);
    }
}

proof fn lemma_member_none(m: Seq<(Seq<char>, JsonV)>, key: Seq<char>)
    requires
        member(m, key) is None,
    ensures
        lacks(m, key),
    decreases m.len(),
{
    if m.len() > 0 {
        lemma_member_none(m.drop_first(), key);
        assert forall|j: int| 0 <= j < m.len() implies (#[trigger] m[j]).0 != key by {
            if j > 0 {
                assert(m.drop_first()[j - 1] == m[j]);
            }
        }
    }
}

impl JsonV {
    /// The value of a key; none where the value is no object.
    pub open spec fn get(self, key: Seq<char>) -> Option<JsonV> {
        match self {
            JsonV::Object(m) => member(m, key),
            _ => None,
        }
    }

    /// The text of a string value.
    pub open spec fn str(self) -> Option<Seq<char>> {
        match self {
            JsonV::Str(s) => Some(s),
            _ => None,
        }
    }

    /// The text under a key.
    pub open spec fn get_str(self, key: Seq<char>) -> Option<Seq<char>> {
        match self.get(key) {
            Some(v) => v.str(),
            None => None,
        }
    }

    /// The value as a non-negative integer.
    pub open spec fn u64(self) -> Option<u64> {
        match self {
            JsonV::Number(NumberV::PosInt(n)) => Some(n),
            _ => None,
        }
    }

    pub open spec fn bool(self) -> Option<bool> {
        match self {
            JsonV::Bool(b) => Some(b),
            _ => None,
        }
    }
}

impl Number {
    pub fn copy(&self) -> (r: Number)
        ensures
            r@ == self@,
    {
        match self {
            Number::PosInt(n) => Number::PosInt(*n),
            Number::NegInt(n) => Number::NegInt(*n),
            Number::Float(t) => Number::Float(t.clone()),
        }
    }
}

/// An optional borrowed value by its view.
pub open spec fn opt_view(r: Option<&Json>) -> Option<JsonV> {
    match r {
        Some(j) => Some(j@),
        None => None,
    }
}

/// An optional borrowed text by its view.
pub open spec fn opt_str(r: Option<&str>) -> Option<Seq<char>> {
    match r {
        Some(s) => Some(s@),
        None => None,
    }
}

/// The place of the member with the given key.
pub fn find_member(m: &Vec<(String, Json)>, key: &str) -> (r: Option<usize>)
    ensures
        match r {
            Some(k) => k < m.len() && m@[k as int].0@ == key@ && member(members(m@), key@) == Some(m@[k as int].1@)
                && member_index(members(m@), key@, 0) == Some(k as int),
            None => member(members(m@), key@) is None && member_index(members(m@), key@, 0) is None && forall|j: int|
                0 <= j < m.len() ==> m@[j].0@ != key@,
        },
{
    let mut i: usize = 0;
    let ghost mv = members(m@);
    while i < m.len()
        invariant
            i <= m.len(),
            mv == members(m@),
            forall|j: int| 0 <= j < i ==> mv[j].0 != key@,
            member_index(mv, key@, 0) == member_index(mv, key@, i as int),
        decreases m.len() - i,
    {
        if str_eq(m[i].0.as_str(), key) {
            proof {
                lemma_member_at(mv, key@, i as int);
            }
            return Some(i);
        }
        i += 1;
    }
    proof {
        lemma_member_at(mv, key@, i as int);
        assert forall|j: int| 0 <= j < m.len() implies m@[j].0@ != key@ by {
            assert(mv[j].0 != key@);
        }
    }
    None
}

impl Json {
    /// Reads a document.
    pub fn parse(text: &str) -> (r: Result<Json, String>)
        ensures
            match r {
                Ok(j) => parsed(text@) == Ok::<JsonV, Seq<char>>(j@) && readable(j@, LEVELS as nat),
                Err(e) => parsed(text@) == Err::<JsonV, Seq<char>>(e@),
            },
    {
        match read_tokens(text) {
            Ok(ts) => match build(ts) {
                Some(j) => Ok(j),
                None => Err("malformed document".to_owned()),
            },
            Err(e) => Err(e),
        }
    }

    /// Writes the document on one line.
    pub fn to_text(&self) -> (r: String)
        ensures
            r@ == text_of(self@),
            self@ matches JsonV::Array(a) ==> r@ == array_text(item_texts(a)),
    {
        let mut ts: Vec<Token> = Vec::new();
        flatten(self, &mut ts);
        proof {
            law_tree_of_postorder(self@);
            assert(tokens(ts@) =~= postorder(self@));
        }
        write_tokens(ts)
    }

    /// Writes the document over several lines, indented.
    pub fn to_pretty_text(&self) -> (r: String)
        ensures
            r@ == pretty_text(self@),
            self@ is Object ==> r@.len() > 0 && r@[0] == '{',
            readable(self@, LEVELS as nat) ==> reads_like(r@, self@),
            readable(self@, LEVELS as nat) ==> reads_like(r@ + "\n"@, self@),
            plain(self@) ==> reads_as(r@, self@),
            plain(self@) ==> reads_as(r@ + "\n"@, self@),
    {
        let mut ts: Vec<Token> = Vec::new();
        flatten(self, &mut ts);
        proof {
            law_tree_of_postorder(self@);
            assert(tokens(ts@) =~= postorder(self@));
        }
        let r = write_tokens_pretty(ts);
        proof {
            if plain(self@) {
                lemma_exact_comes_back(self@, parsed(r@)->Ok_0);
                lemma_exact_comes_back(self@, parsed(r@ + "\n"@)->Ok_0);
            }
        }
        r
    }

    pub fn get(&self, key: &str) -> (r: Option<&Json>)
        ensures
            opt_view(r) == self@.get(key@),
    {
        proof {
            lemma_view(*self);
        }
        match self {
            Json::Object(m) => match find_member(m, key) {
                Some(k) => Some(&m[k].1),
                None => None,
            },
            _ => None,
        }
    }

    pub fn as_str(&self) -> (r: Option<&str>)
        ensures
            opt_str(r) == self@.str(),
    {
        match self {
            Json::Str(s) => Some(s.as_str()),
            _ => None,
        }
    }

    pub fn get_str(&self, key: &str) -> (r: Option<&str>)
        ensures
            opt_str(r) == self@.get_str(key@),
    {
        match self.get(key) {
            Some(v) => v.as_str(),
            None => None,
        }
    }

    pub fn as_u64(&self) -> (r: Option<u64>)
        ensures
            r == self@.u64(),
    {
        match self {
            Json::Number(Number::PosInt(n)) => Some(*n),
            _ => None,
        }
    }

    pub fn as_bool(&self) -> (r: Option<bool>)
        ensures
            r == self@.bool(),
    {
        match self {
            Json::Bool(b) => Some(*b),
            _ => None,
        }
    }

    /// A deep copy.
    pub fn copy(&self) -> (r: Json)
        ensures
            r@ == self@,
        decreases self,
    {
        proof {
            lemma_view(*self);
        }
        match self {
            Json::Null => Json::Null,
            Json::Bool(b) => Json::Bool(*b),
            Json::Number(n) => Json::Number(n.copy()),
            Json::Str(s) => Json::Str(s.clone()),
            Json::Array(v) => {
                let mut out: Vec<Json> = Vec::new();
                let mut i: usize = 0;
                while i < v.len()
                    invariant
                        i <= v.len(),
                        self matches Json::Array(w) && w == v,
                        jsons(out@) == jsons(v@).take(i as int),
                    decreases v.len() - i,
                {
                    let ghost before = out@;
                    out.push(v[i].copy());
                    assert(jsons(out@) =~= jsons(before).push(v@[i as int]@));
                    i += 1;
                }
                assert(jsons(out@) =~= jsons(v@));
                let r = Json::Array(out);
                proof {
                    lemma_view(r);
                }
                r
            },
            Json::Object(v) => {
                let mut out: Vec<(String, Json)> = Vec::new();
                let mut i: usize = 0;
                while i < v.len()
                    invariant
                        i <= v.len(),
                        self matches Json::Object(w) && w == v,
                        members(out@) == members(v@).take(i as int),
                    decreases v.len() - i,
                {
                    let ghost before = out@;
                    out.push((v[i].0.clone(), v[i].1.copy()));
                    assert(members(out@) =~= members(before).push((v@[i as int].0@, v@[i as int].1@)));
                    i += 1;
                }
                assert(members(out@) =~= members(v@));
                let r = Json::Object(out);
                proof {
                    lemma_view(r);
                }
                r
            },
        }
    }
}

/// A string value.
pub fn text_value(s: &str) -> (r: Json)
    ensures
        r@ == JsonV::Str(s@),
{
    Json::Str(s.to_owned())
}

// ---------------------------------------------------------------- equality

/// Whether two numbers are the same: integers of one sign by value, floating-point
/// numbers by their text, but for the two zeros, which are the same.
pub open spec fn same_number(a: NumberV, b: NumberV) -> bool {
    match (a, b) {
        (NumberV::PosInt(x), NumberV::PosInt(y)) => x == y,
        (NumberV::NegInt(x), NumberV::NegInt(y)) => x == y,
        (NumberV::Float(x), NumberV::Float(y)) => x == y || (is_zero(x) && is_zero(y)),
        _ => false,
    }
}

pub open spec fn is_zero(t: Seq<char>) -> bool {
    t == "0.0"@ || t == "-0.0"@
}

/// Whether two documents are the same. The order of an object's members does not
/// count.
pub open spec fn same(a: JsonV, b: JsonV) -> bool
    decreases a, 0nat,
{
    match (a, b) {
        (JsonV::Null, JsonV::Null) => true,
        (JsonV::Bool(x), JsonV::Bool(y)) => x == y,
        (JsonV::Number(x), JsonV::Number(y)) => same_number(x, y),
        (JsonV::Str(x), JsonV::Str(y)) => x == y,
        (JsonV::Array(x), JsonV::Array(y)) => x.len() == y.len() && same_items(x, y, x.len()),
        (JsonV::Object(x), JsonV::Object(y)) => x.len() == y.len() && same_members(x, y, x.len()),
        _ => false,
    }
}

/// The first `n` items are the same.
pub open spec fn same_items(x: Seq<JsonV>, y: Seq<JsonV>, n: nat) -> bool
    decreases x, n,
{
    n == 0 || n > x.len() || (same_items(x, y, (n - 1) as nat) && same(x[n - 1], y[n - 1]))
}

/// The first `n` members of `x` are the same in `y`.
pub open spec fn same_members(x: Seq<(Seq<char>, JsonV)>, y: Seq<(Seq<char>, JsonV)>, n: nat) -> bool
    decreases x, n,
{
    n == 0 || n > x.len() || (same_members(x, y, (n - 1) as nat) && (match member(y, x[n - 1].0) {
        Some(w) => same(x[n - 1].1, w),
        None => false,
    }))
}

fn items_same(x: &Vec<Json>, y: &Vec<Json>, n: usize) -> (r: bool)
    requires
        n <= x.len(),
        x.len() == y.len(),
    ensures
        r == same_items(jsons(x@), jsons(y@), n as nat),
    decreases x, n,
{
    if n == 0 {
        return true;
    }
    assert(jsons(x@)[n - 1] == x@[n - 1]@);
    assert(jsons(y@)[n - 1] == y@[n - 1]@);
    items_same(x, y, n - 1) && x[n - 1].same_as(&y[n - 1])
}

fn members_same(x: &Vec<(String, Json)>, y: &Vec<(String, Json)>, n: usize) -> (r: bool)
    requires
        n <= x.len(),
    ensures
        r == same_members(members(x@), members(y@), n as nat),
    decreases x, n,
{
    if n == 0 {
        return true;
    }
    assert(members(x@)[n - 1] == (x@[n - 1].0@, x@[n - 1].1@));
    members_same(x, y, n - 1) && match find_member(y, x[n - 1].0.as_str()) {
        Some(k) => x[n - 1].1.same_as(&y[k].1),
        None => false,
    }
}

impl Json {
    /// Whether the two documents are the same.
    pub fn same_as(&self, other: &Json) -> (r: bool)
        ensures
            r == same(self@, other@),
        decreases self, 0nat,
    {
        proof {
            lemma_view(*self);
            lemma_view(*other);
        }
        match (self, other) {
            (Json::Null, Json::Null) => true,
            (Json::Bool(x), Json::Bool(y)) => *x == *y,
            (Json::Number(x), Json::Number(y)) => match (x, y) {
                (Number::PosInt(p), Number::PosInt(q)) => *p == *q,
                (Number::NegInt(p), Number::NegInt(q)) => *p == *q,
                (Number::Float(p), Number::Float(q)) => str_eq(p.as_str(), q.as_str()) || ((str_eq(p.as_str(), "0.0")
                    || str_eq(p.as_str(), "-0.0")) && (str_eq(q.as_str(), "0.0") || str_eq(q.as_str(), "-0.0"))),
                _ => false,
            },
            (Json::Str(x), Json::Str(y)) => str_eq(x.as_str(), y.as_str()),
            (Json::Array(x), Json::Array(y)) => x.len() == y.len() && items_same(x, y, x.len()),
            (Json::Object(x), Json::Object(y)) => x.len() == y.len() && members_same(x, y, x.len()),
            _ => false,
        }
    }
}

// ---------------------------------------------------------------- records

/// A field of a record: by its name in an object, by its place in an array.
pub open spec fn field(v: JsonV, name: Seq<char>, place: int) -> Option<JsonV> {
    match v {
        JsonV::Object(m) => member(m, name),
        JsonV::Array(a) => if 0 <= place < a.len() {
            Some(a[place])
        } else {
            None
        },
        _ => None,
    }
}

pub fn get_field<'a>(v: &'a Json, name: &str, place: usize) -> (r: Option<&'a Json>)
    ensures
        opt_view(r) == field(v@, name@, place as int),
{
    proof {
        lemma_view(*v);
    }
    match v {
        Json::Object(_) => v.get(name),
        Json::Array(a) => if place < a.len() {
            Some(&a[place])
        } else {
            None
        },
        _ => None,
    }
}

/// A record of at most `n` fields: an object, or an array that is not longer.
pub open spec fn is_record(v: JsonV, n: nat) -> bool {
    match v {
        JsonV::Object(_) => true,
        JsonV::Array(a) => a.len() <= n,
        _ => false,
    }
}

pub fn has_fields(v: &Json, n: usize) -> (r: bool)
    ensures
        r == is_record(v@, n as nat),
{
    proof {
        lemma_view(*v);
    }
    match v {
        Json::Object(_) => true,
        Json::Array(a) => a.len() <= n,
        _ => false,
    }
}

} // verus!
