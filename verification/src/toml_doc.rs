//! Configuration documents. `Toml` is a TOML value; its view `TomlV` is the tree that
//! the contracts speak of. Text is read and written by the `toml` crate; between that
//! crate and `Toml` a document travels as a list of tokens in postorder.

use self::Mark::{Fields, Flag, Items, Real, Text, When, Whole};
use crate::text::{str_eq, strings};
use toml::Value;
use toml::Value::{
    Array as List, Boolean as Truth, Datetime as Moment, Float as Fraction, Integer as Count, String as Words,
    Table as Section,
};
use vstd::prelude::*;

verus! {

/// A TOML value. Floating-point numbers and dates are kept by their text.
#[derive(Debug)]
pub enum Toml {
    Str(String),
    Integer(i64),
    Float(String),
    Boolean(bool),
    Datetime(String),
    Array(Vec<Toml>),
    Table(Vec<(String, Toml)>),
}

#[verifier::ext_equal]
pub enum TomlV {
    Str(Seq<char>),
    Integer(i64),
    Float(Seq<char>),
    Boolean(bool),
    Datetime(Seq<char>),
    Array(Seq<TomlV>),
    Table(Seq<(Seq<char>, TomlV)>),
}

impl View for Toml {
    type V = TomlV;

    open spec fn view(&self) -> TomlV
        decreases self,
    {
        match self {
            Toml::Str(s) => TomlV::Str(s@),
            Toml::Integer(n) => TomlV::Integer(*n),
            Toml::Float(s) => TomlV::Float(s@),
            Toml::Boolean(b) => TomlV::Boolean(*b),
            Toml::Datetime(s) => TomlV::Datetime(s@),
            Toml::Array(v) => TomlV::Array(
                Seq::new(
                    v@.len(),
                    |i: int|
                        if 0 <= i < v@.len() {
                            v@[i].view()
                        } else {
                            TomlV::Boolean(false)
                        },
                ),
            ),
            Toml::Table(v) => TomlV::Table(
                Seq::new(
                    v@.len(),
                    |i: int|
                        if 0 <= i < v@.len() {
                            (v@[i].0@, v@[i].1.view())
                        } else {
                            (Seq::empty(), TomlV::Boolean(false))
                        },
                ),
            ),
        }
    }
}

/// A list of values by their views.
pub open spec fn tomls(v: Seq<Toml>) -> Seq<TomlV> {
    Seq::new(v.len(), |i: int| v[i]@)
}

/// The entries of a table by their views.
pub open spec fn rows(v: Seq<(String, Toml)>) -> Seq<(Seq<char>, TomlV)> {
    Seq::new(v.len(), |i: int| (v[i].0@, v[i].1@))
}

pub proof fn lemma_toml_view(t: Toml)
    ensures
        t matches Toml::Array(v) ==> t@ == TomlV::Array(tomls(v@)),
        t matches Toml::Table(v) ==> t@ == TomlV::Table(rows(v@)),
{
    reveal_with_fuel(<Toml as View>::view, 2);
    match t {
        Toml::Array(v) => {
            assert(t@->Array_0 =~= tomls(v@));
        },
        Toml::Table(v) => {
            assert(t@->Table_0 =~= rows(v@));
        },
        _ => {},
    }
}

// ---------------------------------------------------------------- tokens

/// One node of a document in postorder.
pub enum Mark {
    Text(String),
    Whole(i64),
    Real(String),
    Flag(bool),
    When(String),
    Items(usize),
    Fields(Vec<String>),
}

pub enum MarkV {
    Text(Seq<char>),
    Whole(i64),
    Real(Seq<char>),
    Flag(bool),
    When(Seq<char>),
    Items(nat),
    Fields(Seq<Seq<char>>),
}

impl View for Mark {
    type V = MarkV;

    open spec fn view(&self) -> MarkV {
        match self {
            Mark::Text(s) => MarkV::Text(s@),
            Mark::Whole(n) => MarkV::Whole(*n),
            Mark::Real(s) => MarkV::Real(s@),
            Mark::Flag(b) => MarkV::Flag(*b),
            Mark::When(s) => MarkV::When(s@),
            Mark::Items(n) => MarkV::Items(*n as nat),
            Mark::Fields(k) => MarkV::Fields(strings(k@)),
        }
    }
}

pub open spec fn marks(v: Seq<Mark>) -> Seq<MarkV> {
    Seq::new(v.len(), |i: int| v[i]@)
}

/// Pairs each key with the value at the same place.
pub open spec fn paired(keys: Seq<Seq<char>>, vals: Seq<TomlV>) -> Seq<(Seq<char>, TomlV)> {
    Seq::new(keys.len(), |i: int| (keys[i], vals[i]))
}

/// The stack of values after one more token.
pub open spec fn pile_step(st: Seq<TomlV>, t: MarkV) -> Option<Seq<TomlV>> {
    match t {
        MarkV::Text(s) => Some(st.push(TomlV::Str(s))),
        MarkV::Whole(n) => Some(st.push(TomlV::Integer(n))),
        MarkV::Real(s) => Some(st.push(TomlV::Float(s))),
        MarkV::Flag(b) => Some(st.push(TomlV::Boolean(b))),
        MarkV::When(s) => Some(st.push(TomlV::Datetime(s))),
        MarkV::Items(n) => if n <= st.len() {
            Some(st.take(st.len() - n).push(TomlV::Array(st.skip(st.len() - n))))
        } else {
            None
        },
        MarkV::Fields(k) => if k.len() <= st.len() {
            Some(st.take(st.len() - k.len()).push(TomlV::Table(paired(k, st.skip(st.len() - k.len())))))
        } else {
            None
        },
    }
}

/// The stack that tokens leave on top of a stack.
pub open spec fn pile_from(st: Seq<TomlV>, ts: Seq<MarkV>) -> Option<Seq<TomlV>>
    decreases ts.len(),
{
    if ts.len() == 0 {
        Some(st)
    } else {
        match pile_from(st, ts.drop_last()) {
            Some(s) => pile_step(s, ts.last()),
            None => None,
        }
    }
}

/// The one value that a list of tokens denotes, where it denotes one.
pub open spec fn doc_of(ts: Seq<MarkV>) -> Option<TomlV> {
    match pile_from(Seq::empty(), ts) {
        Some(st) => if st.len() == 1 {
            Some(st[0])
        } else {
            None
        },
        None => None,
    }
}

/// The tokens of a value, in postorder.
pub open spec fn marks_of(t: TomlV) -> Seq<MarkV>
    decreases t, 0nat,
{
    match t {
        TomlV::Str(s) => seq![MarkV::Text(s)],
        TomlV::Integer(n) => seq![MarkV::Whole(n)],
        TomlV::Float(s) => seq![MarkV::Real(s)],
        TomlV::Boolean(b) => seq![MarkV::Flag(b)],
        TomlV::Datetime(s) => seq![MarkV::When(s)],
        TomlV::Array(a) => marks_of_items(a, a.len()).push(MarkV::Items(a.len())),
        TomlV::Table(m) => marks_of_rows(m, m.len()).push(MarkV::Fields(row_keys(m))),
    }
}

pub open spec fn marks_of_items(a: Seq<TomlV>, n: nat) -> Seq<MarkV>
    decreases a, n,
{
    if n == 0 || n > a.len() {
        Seq::empty()
    } else {
        marks_of_items(a, (n - 1) as nat) + marks_of(a[n - 1])
    }
}

pub open spec fn marks_of_rows(m: Seq<(Seq<char>, TomlV)>, n: nat) -> Seq<MarkV>
    decreases m, n,
{
    if n == 0 || n > m.len() {
        Seq::empty()
    } else {
        marks_of_rows(m, (n - 1) as nat) + marks_of(m[n - 1].1)
    }
}

pub open spec fn row_keys(m: Seq<(Seq<char>, TomlV)>) -> Seq<Seq<char>> {
    Seq::new(m.len(), |i: int| m[i].0)
}

pub open spec fn row_values(m: Seq<(Seq<char>, TomlV)>) -> Seq<TomlV> {
    Seq::new(m.len(), |i: int| m[i].1)
}

proof fn lemma_pile_append(st: Seq<TomlV>, a: Seq<MarkV>, b: Seq<MarkV>)
    ensures
        pile_from(st, a + b) == (match pile_from(st, a) {
            Some(s) => pile_from(s, b),
            None => None,
        }),
    decreases b.len(),
{
    if b.len() == 0 {
        assert(a + b =~= a);
    } else {
        lemma_pile_append(st, a, b.drop_last());
        assert((a + b).drop_last() =~= a + b.drop_last());
    }
}

proof fn lemma_marks(st: Seq<TomlV>, t: TomlV)
    ensures
        pile_from(st, marks_of(t)) == Some(st.push(t)),
    decreases t, 0nat,
{
    match t {
        TomlV::Array(a) => {
            lemma_marks_items(st, a, a.len());
            let p = marks_of_items(a, a.len());
            assert(p.push(MarkV::Items(a.len())).drop_last() =~= p);
            let s = st + a.take(a.len() as int);
            assert(s.take(s.len() - a.len()) =~= st);
            assert(s.skip(s.len() - a.len()) =~= a);
        },
        TomlV::Table(m) => {
            lemma_marks_rows(st, m, m.len());
            let p = marks_of_rows(m, m.len());
            assert(p.push(MarkV::Fields(row_keys(m))).drop_last() =~= p);
            let s = st + row_values(m).take(m.len() as int);
            assert(s.take(s.len() - m.len()) =~= st);
            assert(s.skip(s.len() - m.len()) =~= row_values(m));
            assert(paired(row_keys(m), row_values(m)) =~= m);
        },
        _ => {
            let p = marks_of(t);
            assert(p.drop_last() =~= Seq::<MarkV>::empty());
            assert(pile_from(st, p.drop_last()) == Some(st));
        },
    }
}

proof fn lemma_marks_items(st: Seq<TomlV>, a: Seq<TomlV>, n: nat)
    requires
        n <= a.len(),
    ensures
        pile_from(st, marks_of_items(a, n)) == Some(st + a.take(n as int)),
    decreases a, n,
{
    if n == 0 {
        assert(st + a.take(0) =~= st);
    } else {
        lemma_marks_items(st, a, (n - 1) as nat);
        let s = st + a.take(n - 1);
        lemma_marks(s, a[n - 1]);
        lemma_pile_append(st, marks_of_items(a, (n - 1) as nat), marks_of(a[n - 1]));
        assert(s.push(a[n - 1]) =~= st + a.take(n as int));
    }
}

proof fn lemma_marks_rows(st: Seq<TomlV>, m: Seq<(Seq<char>, TomlV)>, n: nat)
    requires
        n <= m.len(),
    ensures
        pile_from(st, marks_of_rows(m, n)) == Some(st + row_values(m).take(n as int)),
    decreases m, n,
{
    if n == 0 {
        assert(st + row_values(m).take(0) =~= st);
    } else {
        lemma_marks_rows(st, m, (n - 1) as nat);
        let s = st + row_values(m).take(n - 1);
        lemma_marks(s, m[n - 1].1);
        lemma_pile_append(st, marks_of_rows(m, (n - 1) as nat), marks_of(m[n - 1].1));
        assert(s.push(m[n - 1].1) =~= st + row_values(m).take(n as int));
    }
}

/// The tokens of a value denote that value.
pub proof fn law_doc_of_marks(t: TomlV)
    ensures
        doc_of(marks_of(t)) == Some(t),
{
    lemma_marks(Seq::empty(), t);
    assert(Seq::<TomlV>::empty().push(t)[0] == t);
}

proof fn lemma_pile_fails(all: Seq<MarkV>, n: int)
    requires
        0 <= n <= all.len(),
        pile_from(Seq::empty(), all.take(n)) is None,
    ensures
        pile_from(Seq::empty(), all) is None,
    decreases all.len() - n,
{
    if n == all.len() {
        assert(all.take(n) =~= all);
    } else {
        assert(all.take(n + 1).drop_last() =~= all.take(n));
        lemma_pile_fails(all, n + 1);
    }
}

/// Builds the value that a list of tokens denotes.
pub fn build_doc(ts: Vec<Mark>) -> (r: Option<Toml>)
    ensures
        match r {
            Some(t) => doc_of(marks(ts@)) == Some(t@),
            None => doc_of(marks(ts@)) is None,
        },
{
    let mut st: Vec<Toml> = Vec::new();
    assert(tomls(st@) =~= Seq::<TomlV>::empty());
    for t in it: ts
        invariant
            it.seq() == ts@,
            pile_from(Seq::empty(), marks(ts@).take(it.index() as int)) == Some(tomls(st@)),
    {
        let ghost k = it.index() as int;
        let ghost all = marks(ts@);
        let ghost before = tomls(st@);
        assert(all.take(k + 1).drop_last() =~= all.take(k));
        assert(all.take(k + 1).last() == t@);
        match t {
            Mark::Text(s) => st.push(Toml::Str(s)),
            Mark::Whole(n) => st.push(Toml::Integer(n)),
            Mark::Real(s) => st.push(Toml::Float(s)),
            Mark::Flag(b) => st.push(Toml::Boolean(b)),
            Mark::When(s) => st.push(Toml::Datetime(s)),
            Mark::Items(n) => {
                if n > st.len() {
                    proof {
                        lemma_pile_fails(all, k + 1);
                    }
                    return None;
                }
                let at: usize = st.len() - n;
                let items = st.split_off(at);
                let ghost items_v = items@;
                let v = Toml::Array(items);
                proof {
                    lemma_toml_view(v);
                    assert(tomls(items_v) =~= before.skip(at as int));
                    assert(tomls(st@) =~= before.take(at as int));
                }
                st.push(v);
            },
            Mark::Fields(keys) => {
                if keys.len() > st.len() {
                    proof {
                        lemma_pile_fails(all, k + 1);
                    }
                    return None;
                }
                let at: usize = st.len() - keys.len();
                let vals = st.split_off(at);
                let ghost vals_v = vals@;
                let mut ms: Vec<(String, Toml)> = Vec::new();
                let mut i: usize = 0;
                for v in jt: vals
                    invariant
                        jt.seq() == vals_v,
                        vals_v.len() == keys.len(),
                        i == jt.index(),
                        i <= keys.len(),
                        rows(ms@) == paired(strings(keys@), tomls(vals_v)).take(i as int),
                {
                    let ghost old_ms = ms@;
                    ms.push((keys[i].clone(), v));
                    assert(rows(ms@) =~= rows(old_ms).push((keys@[i as int]@, v@)));
                    assert(paired(strings(keys@), tomls(vals_v)).take(i + 1) =~= paired(
                        strings(keys@),
                        tomls(vals_v),
                    ).take(i as int).push((keys@[i as int]@, v@)));
                    i += 1;
                }
                let ghost ms_v = ms@;
                let v = Toml::Table(ms);
                proof {
                    lemma_toml_view(v);
                    assert(rows(ms_v) =~= paired(strings(keys@), tomls(vals_v)));
                    assert(tomls(vals_v) =~= before.skip(at as int));
                    assert(tomls(st@) =~= before.take(at as int));
                }
                st.push(v);
            },
        }
        assert(tomls(st@) =~= pile_step(before, t@)->Some_0);
    }
    assert(marks(ts@).take(ts@.len() as int) =~= marks(ts@));
    if st.len() == 1 {
        assert(tomls(st@)[0] == st@[0]@);
        st.pop()
    } else {
        None
    }
}

/// Appends the tokens of a value, in postorder.
fn unfold(t: &Toml, out: &mut Vec<Mark>)
    ensures
        marks(final(out)@) == marks(old(out)@) + marks_of(t@),
    decreases t, 0nat,
{
    proof {
        lemma_toml_view(*t);
    }
    let ghost before = marks(out@);
    match t {
        Toml::Str(s) => out.push(Mark::Text(s.clone())),
        Toml::Integer(n) => out.push(Mark::Whole(*n)),
        Toml::Float(s) => out.push(Mark::Real(s.clone())),
        Toml::Boolean(b) => out.push(Mark::Flag(*b)),
        Toml::Datetime(s) => out.push(Mark::When(s.clone())),
        Toml::Array(v) => {
            unfold_items(v, v.len(), out);
            let ghost mid = marks(out@);
            out.push(Mark::Items(v.len()));
            assert(marks(out@) =~= mid.push(MarkV::Items(v.len() as nat)));
        },
        Toml::Table(v) => {
            unfold_rows(v, v.len(), out);
            let mut keys: Vec<String> = Vec::new();
            let mut i: usize = 0;
            while i < v.len()
                invariant
                    i <= v.len(),
                    strings(keys@) == row_keys(rows(v@)).take(i as int),
                decreases v.len() - i,
            {
                let ghost old_keys = keys@;
                keys.push(v[i].0.clone());
                assert(strings(keys@) =~= strings(old_keys).push(v@[i as int].0@));
                i += 1;
            }
            let ghost mid = marks(out@);
            let ghost kv = keys@;
            assert(strings(kv) =~= row_keys(rows(v@)));
            out.push(Mark::Fields(keys));
            assert(marks(out@) =~= mid.push(MarkV::Fields(strings(kv))));
        },
    }
    assert(marks(out@) =~= before + marks_of(t@));
}

fn unfold_items(v: &Vec<Toml>, n: usize, out: &mut Vec<Mark>)
    requires
        n <= v.len(),
    ensures
        marks(final(out)@) == marks(old(out)@) + marks_of_items(tomls(v@), n as nat),
    decreases v, n,
{
    if n > 0 {
        unfold_items(v, n - 1, out);
        unfold(&v[n - 1], out);
        assert(tomls(v@)[n - 1] == v@[n - 1]@);
    }
    assert(marks(out@) =~= marks(old(out)@) + marks_of_items(tomls(v@), n as nat));
}

fn unfold_rows(v: &Vec<(String, Toml)>, n: usize, out: &mut Vec<Mark>)
    requires
        n <= v.len(),
    ensures
        marks(final(out)@) == marks(old(out)@) + marks_of_rows(rows(v@), n as nat),
    decreases v, n,
{
    if n > 0 {
        unfold_rows(v, n - 1, out);
        unfold(&v[n - 1].1, out);
        assert(rows(v@)[n - 1].1 == v@[n - 1].1@);
    }
    assert(marks(out@) =~= marks(old(out)@) + marks_of_rows(rows(v@), n as nat));
}

// ---------------------------------------------------------------- text

/// What `toml::from_str` makes of a text: the document's tokens in postorder, or the
/// message of its error.
pub uninterp spec fn toml_read(text: Seq<char>) -> Result<Seq<MarkV>, Seq<char>>;

/// What `toml::to_string_pretty` writes for a document given by its tokens; none where
/// it cannot be written.
pub uninterp spec fn toml_text(ts: Seq<MarkV>) -> Option<Seq<char>>;

/// A read result by its views.
pub open spec fn marks_view(r: Result<Vec<Mark>, String>) -> Result<Seq<MarkV>, Seq<char>> {
    match r {
        Ok(v) => Ok(marks(v@)),
        Err(e) => Err(e@),
    }
}

/// `toml::from_str::<Value>`: the tree it returns, node by node in postorder, or its
/// error's message. Both depend on the text alone.
#[verifier::external_body]
fn read_marks(text: &str) -> (r: Result<Vec<Mark>, String>)
    ensures
        marks_view(r) == toml_read(text@),
{
    let mut todo = vec![toml::from_str(text).map_err(|e| e.to_string())?];
    let mut out = Vec::new();
    while let Some(v) = todo.pop() {
        out.push(match v {
            Words(s) => Text(s),
            Count(n) => Whole(n),
            Fraction(x) => Real(x.to_string()),
            Truth(b) => Flag(b),
            Moment(d) => When(d.to_string()),
            List(a) => (Items(a.len()), todo.extend(a)).0,
            Section(t) => (Fields(t.keys().cloned().collect()), todo.extend(t.values().cloned())).0,
        });
    }
    out.reverse();
    Ok(out)
}

/// `toml::to_string_pretty` on the `Value` that the tokens denote. The text depends on
/// the tokens alone.
#[verifier::external_body]
fn write_marks(ts: Vec<Mark>) -> (r: Option<String>)
    requires
        doc_of(marks(ts@)) is Some,
    ensures
        crate::message::opt_string(r) == toml_text(marks(ts@)),
{
    let mut st: Vec<Value> = Vec::new();
    for t in ts {
        let v = match t {
            Text(s) => s.into(),
            Whole(n) => n.into(),
            Real(x) => x.parse().map(Value::Float).ok()?,
            Flag(b) => b.into(),
            When(d) => d.parse().map(Value::Datetime).ok()?,
            Items(n) => st.split_off(st.len() - n).into(),
            Fields(k) => Value::Table(std::iter::zip(k.clone(), st.split_off(st.len() - k.len())).collect()),
        };
        st.push(v);
    }
    toml::to_string_pretty(&st[0]).ok()
}

/// The document that a text holds, or the message that says why it holds none.
pub open spec fn toml_parsed(text: Seq<char>) -> Result<TomlV, Seq<char>> {
    match toml_read(text) {
        Ok(ts) => match doc_of(ts) {
            Some(t) => Ok(t),
            None => Err("malformed document"@),
        },
        Err(e) => Err(e),
    }
}

/// The value of the first entry with the given key.
pub open spec fn row(m: Seq<(Seq<char>, TomlV)>, key: Seq<char>) -> Option<TomlV> {
    match row_index(m, key, 0) {
        Some(i) => Some(m[i].1),
        None => None,
    }
}

/// The place of the first entry with the given key, from `from` on.
pub open spec fn row_index(m: Seq<(Seq<char>, TomlV)>, key: Seq<char>, from: int) -> Option<int>
    decreases m.len() - from,
{
    if from < 0 || from >= m.len() {
        None
    } else if m[from].0 == key {
        Some(from)
    } else {
        row_index(m, key, from + 1)
    }
}

pub proof fn lemma_row_index(m: Seq<(Seq<char>, TomlV)>, key: Seq<char>, from: int)
    requires
        0 <= from,
    ensures
        match row_index(m, key, from) {
            Some(i) => from <= i < m.len() && m[i].0 == key && forall|j: int| from <= j < i ==> (#[trigger] m[j]).0 != key,
            None => forall|j: int| from <= j < m.len() ==> (#[trigger] m[j]).0 != key,
        },
    decreases m.len() - from,
{
    if from < m.len() && m[from].0 != key {
        lemma_row_index(m, key, from + 1);
    }
}

impl TomlV {
    /// The value of a key; none where the value is no table.
    pub open spec fn get(self, key: Seq<char>) -> Option<TomlV> {
        match self {
            TomlV::Table(m) => row(m, key),
            _ => None,
        }
    }

    pub open spec fn str(self) -> Option<Seq<char>> {
        match self {
            TomlV::Str(s) => Some(s),
            _ => None,
        }
    }

    /// The text under a key.
    pub open spec fn get_str(self, key: Seq<char>) -> Option<Seq<char>> {
        match self.get(key) {
            Some(v) => v.str(),
            None => None,
        }
    }
}

pub open spec fn opt_toml(r: Option<&Toml>) -> Option<TomlV> {
    match r {
        Some(t) => Some(t@),
        None => None,
    }
}

/// The place of the entry with the given key.
pub fn find_row(m: &Vec<(String, Toml)>, key: &str) -> (r: Option<usize>)
    ensures
        match r {
            Some(k) => k < m.len() && row_index(rows(m@), key@, 0) == Some(k as int),
            None => row_index(rows(m@), key@, 0) is None,
        },
{
    let mut i: usize = 0;
    let ghost mv = rows(m@);
    while i < m.len()
        invariant
            i <= m.len(),
            mv == rows(m@),
            row_index(mv, key@, 0) == row_index(mv, key@, i as int),
        decreases m.len() - i,
    {
        assert(mv[i as int] == (m@[i as int].0@, m@[i as int].1@));
        if str_eq(m[i].0.as_str(), key) {
            return Some(i);
        }
        i += 1;
    }
    None
}

impl Toml {
    /// Reads a document.
    pub fn parse(text: &str) -> (r: Result<Toml, String>)
        ensures
            match r {
                Ok(t) => toml_parsed(text@) == Ok::<TomlV, Seq<char>>(t@),
                Err(e) => toml_parsed(text@) == Err::<TomlV, Seq<char>>(e@),
            },
    {
        match read_marks(text) {
            Ok(ts) => match build_doc(ts) {
                Some(t) => Ok(t),
                None => Err("malformed document".to_owned()),
            },
            Err(e) => Err(e),
        }
    }

    /// Writes the document; none where it is no table.
    pub fn to_text(&self) -> (r: Option<String>)
        ensures
            crate::message::opt_string(r) == toml_text(marks_of(self@)),
    {
        let mut ts: Vec<Mark> = Vec::new();
        unfold(self, &mut ts);
        proof {
            law_doc_of_marks(self@);
            assert(marks(ts@) =~= marks_of(self@));
        }
        write_marks(ts)
    }

    pub fn get(&self, key: &str) -> (r: Option<&Toml>)
        ensures
            opt_toml(r) == self@.get(key@),
    {
        proof {
            lemma_toml_view(*self);
        }
        match self {
            Toml::Table(m) => match find_row(m, key) {
                Some(k) => Some(&m[k].1),
                None => None,
            },
            _ => None,
        }
    }

    pub fn as_str(&self) -> (r: Option<&str>)
        ensures
            crate::json::opt_str(r) == self@.str(),
    {
        match self {
            Toml::Str(s) => Some(s.as_str()),
            _ => None,
        }
    }

    pub fn get_str(&self, key: &str) -> (r: Option<&str>)
        ensures
            crate::json::opt_str(r) == self@.get_str(key@),
    {
        match self.get(key) {
            Some(v) => v.as_str(),
            None => None,
        }
    }

    pub fn as_integer(&self) -> (r: Option<i64>)
        ensures
            r == (match self@ {
                TomlV::Integer(n) => Some(n),
                _ => None,
            }),
    {
        match self {
            Toml::Integer(n) => Some(*n),
            _ => None,
        }
    }

    pub fn as_array(&self) -> (r: Option<&Vec<Toml>>)
        ensures
            match r {
                Some(v) => self@ == TomlV::Array(tomls(v@)),
                None => !(self@ is Array),
            },
    {
        proof {
            lemma_toml_view(*self);
        }
        match self {
            Toml::Array(v) => Some(v),
            _ => None,
        }
    }

    /// A deep copy.
    pub fn copy(&self) -> (r: Toml)
        ensures
            r@ == self@,
        decreases self, 0nat,
    {
        proof {
            lemma_toml_view(*self);
        }
        match self {
            Toml::Str(s) => Toml::Str(s.clone()),
            Toml::Integer(n) => Toml::Integer(*n),
            Toml::Float(s) => Toml::Float(s.clone()),
            Toml::Boolean(b) => Toml::Boolean(*b),
            Toml::Datetime(s) => Toml::Datetime(s.clone()),
            Toml::Array(v) => {
                let r = Toml::Array(copy_tomls(v, v.len()));
                proof {
                    lemma_toml_view(r);
                    assert(tomls(v@).take(v@.len() as int) =~= tomls(v@));
                }
                r
            },
            Toml::Table(v) => {
                let r = Toml::Table(copy_rows(v, v.len()));
                proof {
                    lemma_toml_view(r);
                    assert(rows(v@).take(v@.len() as int) =~= rows(v@));
                }
                r
            },
        }
    }
}

/// Copies the first `n` values.
pub fn copy_tomls(v: &Vec<Toml>, n: usize) -> (r: Vec<Toml>)
    requires
        n <= v.len(),
    ensures
        tomls(r@) == tomls(v@).take(n as int),
    decreases v, n,
{
    if n == 0 {
        let r: Vec<Toml> = Vec::new();
        assert(tomls(r@) =~= tomls(v@).take(0));
        r
    } else {
        let mut r = copy_tomls(v, n - 1);
        let ghost b = r@;
        r.push(v[n - 1].copy());
        assert(tomls(r@) =~= tomls(b).push(v@[n - 1]@));
        assert(tomls(v@).take(n as int) =~= tomls(v@).take(n - 1).push(v@[n - 1]@));
        r
    }
}

/// Copies the first `n` entries.
pub fn copy_rows(v: &Vec<(String, Toml)>, n: usize) -> (r: Vec<(String, Toml)>)
    requires
        n <= v.len(),
    ensures
        rows(r@) == rows(v@).take(n as int),
    decreases v, n,
{
    if n == 0 {
        let r: Vec<(String, Toml)> = Vec::new();
        assert(rows(r@) =~= rows(v@).take(0));
        r
    } else {
        let mut r = copy_rows(v, n - 1);
        let ghost b = r@;
        r.push((v[n - 1].0.clone(), v[n - 1].1.copy()));
        assert(rows(r@) =~= rows(b).push((v@[n - 1].0@, v@[n - 1].1@)));
        assert(rows(v@).take(n as int) =~= rows(v@).take(n - 1).push((v@[n - 1].0@, v@[n - 1].1@)));
        r
    }
}

// ---------------------------------------------------------------- equality

/// Whether two documents are the same. The order of a table's entries does not count.
pub open spec fn same_toml(a: TomlV, b: TomlV) -> bool
    decreases a, 0nat,
{
    match (a, b) {
        (TomlV::Str(x), TomlV::Str(y)) => x == y,
        (TomlV::Integer(x), TomlV::Integer(y)) => x == y,
        (TomlV::Float(x), TomlV::Float(y)) => x == y,
        (TomlV::Boolean(x), TomlV::Boolean(y)) => x == y,
        (TomlV::Datetime(x), TomlV::Datetime(y)) => x == y,
        (TomlV::Array(x), TomlV::Array(y)) => x.len() == y.len() && same_toml_items(x, y, x.len()),
        (TomlV::Table(x), TomlV::Table(y)) => x.len() == y.len() && same_rows(x, y, x.len()),
        _ => false,
    }
}

pub open spec fn same_toml_items(x: Seq<TomlV>, y: Seq<TomlV>, n: nat) -> bool
    decreases x, n,
{
    n == 0 || n > x.len() || (same_toml_items(x, y, (n - 1) as nat) && same_toml(x[n - 1], y[n - 1]))
}

pub open spec fn same_rows(x: Seq<(Seq<char>, TomlV)>, y: Seq<(Seq<char>, TomlV)>, n: nat) -> bool
    decreases x, n,
{
    n == 0 || n > x.len() || (same_rows(x, y, (n - 1) as nat) && (match row(y, x[n - 1].0) {
        Some(w) => same_toml(x[n - 1].1, w),
        None => false,
    }))
}

fn items_alike(x: &Vec<Toml>, y: &Vec<Toml>, n: usize) -> (r: bool)
    requires
        n <= x.len(),
        x.len() == y.len(),
    ensures
        r == same_toml_items(tomls(x@), tomls(y@), n as nat),
    decreases x, n,
{
    if n == 0 {
        return true;
    }
    assert(tomls(x@)[n - 1] == x@[n - 1]@);
    assert(tomls(y@)[n - 1] == y@[n - 1]@);
    items_alike(x, y, n - 1) && x[n - 1].same_as(&y[n - 1])
}

fn rows_alike(x: &Vec<(String, Toml)>, y: &Vec<(String, Toml)>, n: usize) -> (r: bool)
    requires
        n <= x.len(),
    ensures
        r == same_rows(rows(x@), rows(y@), n as nat),
    decreases x, n,
{
    if n == 0 {
        return true;
    }
    assert(rows(x@)[n - 1] == (x@[n - 1].0@, x@[n - 1].1@));
    rows_alike(x, y, n - 1) && match find_row(y, x[n - 1].0.as_str()) {
        Some(k) => x[n - 1].1.same_as(&y[k].1),
        None => false,
    }
}

impl Toml {
    /// Whether the two documents are the same.
    pub fn same_as(&self, other: &Toml) -> (r: bool)
        ensures
            r == same_toml(self@, other@),
        decreases self, 0nat,
    {
        proof {
            lemma_toml_view(*self);
            lemma_toml_view(*other);
        }
        match (self, other) {
            (Toml::Str(x), Toml::Str(y)) => str_eq(x.as_str(), y.as_str()),
            (Toml::Integer(x), Toml::Integer(y)) => *x == *y,
            (Toml::Float(x), Toml::Float(y)) => str_eq(x.as_str(), y.as_str()),
            (Toml::Boolean(x), Toml::Boolean(y)) => *x == *y,
            (Toml::Datetime(x), Toml::Datetime(y)) => str_eq(x.as_str(), y.as_str()),
            (Toml::Array(x), Toml::Array(y)) => x.len() == y.len() && items_alike(x, y, x.len()),
            (Toml::Table(x), Toml::Table(y)) => x.len() == y.len() && rows_alike(x, y, x.len()),
            _ => false,
        }
    }
}

/// An empty table.
pub fn empty_table() -> (r: Toml)
    ensures
        r@ == TomlV::Table(Seq::empty()),
{
    let m: Vec<(String, Toml)> = Vec::new();
    assert(rows(m@) =~= Seq::empty());
    table(m)
}

/// Makes a table out of its entries.
pub fn table(m: Vec<(String, Toml)>) -> (r: Toml)
    ensures
        r@ == TomlV::Table(rows(m@)),
{
    let r = Toml::Table(m);
    proof {
        lemma_toml_view(r);
    }
    r
}

/// Makes an array out of its items.
pub fn toml_array(v: Vec<Toml>) -> (r: Toml)
    ensures
        r@ == TomlV::Array(tomls(v@)),
{
    let r = Toml::Array(v);
    proof {
        lemma_toml_view(r);
    }
    r
}

/// The entries with `key` set: in its place where it is there, else at the end.
pub open spec fn with_row(m: Seq<(Seq<char>, TomlV)>, key: Seq<char>, v: TomlV) -> Seq<(Seq<char>, TomlV)> {
    match row_index(m, key, 0) {
        Some(k) => m.update(k, (key, v)),
        None => m.push((key, v)),
    }
}

/// Sets an entry.
pub fn set_row(m: &mut Vec<(String, Toml)>, key: &str, v: Toml)
    ensures
        rows(final(m)@) == with_row(rows(old(m)@), key@, v@),
{
    match find_row(m, key) {
        Some(k) => {
            let ghost before = m@;
            m.set(k, (key.to_owned(), v));
            assert(rows(m@) =~= rows(before).update(k as int, (key@, v@)));
        },
        None => {
            let ghost before = m@;
            m.push((key.to_owned(), v));
            assert(rows(m@) =~= rows(before).push((key@, v@)));
        },
    }
}

} // verus!
