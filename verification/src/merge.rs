//! Layered configuration: deep merge of documents, overrides from the environment,
//! and the edits that are written back to the user's file.

use crate::message::opt_string;
use crate::text::{chars_of, integer, parse_integer, str_eq};
use crate::toml_doc::{
    Toml, TomlV, copy_rows, copy_tomls, empty_table, find_row, lemma_row_index, lemma_toml_view,
    row, row_index, rows, same_toml, set_row, table, toml_array, tomls, with_row,
};
use vstd::prelude::*;
use vstd::string::*;

verus! {

/// A list of tables each of which has a `name`.
pub open spec fn named_tables(a: Seq<TomlV>) -> bool {
    a.len() > 0 && forall|i: int| 0 <= i < a.len() ==> (#[trigger] a[i]) is Table && a[i].get("name"@) is Some
}

/// The first item from `i` on whose name is the given text.
pub open spec fn named_from(a: Seq<TomlV>, name: Seq<char>, i: int) -> Option<int>
    decreases a.len() - i,
{
    if i < 0 || i >= a.len() {
        None
    } else if a[i].get_str("name"@) == Some(name) {
        Some(i)
    } else {
        named_from(a, name, i + 1)
    }
}

/// A layer laid over a document: tables are merged key by key, lists of named tables
/// name by name; anything else is replaced.
pub open spec fn merged(base: TomlV, layer: TomlV) -> TomlV
    decreases layer, 0nat,
{
    match (base, layer) {
        (TomlV::Table(b), TomlV::Table(l)) => TomlV::Table(merged_rows(b, l, l.len())),
        (TomlV::Array(b), TomlV::Array(l)) => if named_tables(b) && named_tables(l) {
            TomlV::Array(merged_items(b, l, l.len()))
        } else {
            layer
        },
        _ => layer,
    }
}

/// The entries of a table with the first `n` of a layer laid over them.
pub open spec fn merged_rows(b: Seq<(Seq<char>, TomlV)>, l: Seq<(Seq<char>, TomlV)>, n: nat) -> Seq<(Seq<char>, TomlV)>
    decreases l, n,
{
    if n == 0 || n > l.len() {
        b
    } else {
        let m = merged_rows(b, l, (n - 1) as nat);
        let (k, v) = l[n - 1];
        match row_index(m, k, 0) {
            Some(i) => m.update(i, (k, merged(m[i].1, v))),
            None => m.push((k, v)),
        }
    }
}

/// A list of named tables with the first `n` of a layer laid over it.
pub open spec fn merged_items(b: Seq<TomlV>, l: Seq<TomlV>, n: nat) -> Seq<TomlV>
    decreases l, n,
{
    if n == 0 || n > l.len() {
        b
    } else {
        let m = merged_items(b, l, (n - 1) as nat);
        let item = l[n - 1];
        match item.get_str("name"@) {
            Some(name) => match named_from(m, name, 0) {
                Some(i) => m.update(i, merged(m[i], item)),
                None => m.push(item),
            },
            None => m.push(item),
        }
    }
}

pub fn is_named_table_array(a: &Vec<Toml>) -> (r: bool)
    ensures
        r == named_tables(tomls(a@)),
{
    let ghost av = tomls(a@);
    let mut i: usize = 0;
    while i < a.len()
        invariant
            i <= a.len(),
            av == tomls(a@),
            forall|k: int| 0 <= k < i ==> (#[trigger] av[k]) is Table && av[k].get("name"@) is Some,
        decreases a.len() - i,
    {
        assert(av[i as int] == a@[i as int]@);
        let ok = match &a[i] {
            Toml::Table(_) => a[i].get("name").is_some(),
            _ => false,
        };
        if !ok {
            assert(!((av[i as int]) is Table && av[i as int].get("name"@) is Some)) by {
                lemma_toml_view(a@[i as int]);
            }
            return false;
        }
        assert((av[i as int]) is Table) by {
            lemma_toml_view(a@[i as int]);
        }
        i += 1;
    }
    a.len() > 0
}

fn find_named(a: &Vec<Toml>, name: &str) -> (r: Option<usize>)
    ensures
        match r {
            Some(i) => named_from(tomls(a@), name@, 0) == Some(i as int) && i < a.len(),
            None => named_from(tomls(a@), name@, 0) is None,
        },
{
    let ghost av = tomls(a@);
    let mut i: usize = 0;
    while i < a.len()
        invariant
            i <= a.len(),
            av == tomls(a@),
            named_from(av, name@, 0) == named_from(av, name@, i as int),
        decreases a.len() - i,
    {
        assert(av[i as int] == a@[i as int]@);
        if let Some(n) = a[i].get_str("name") {
            if str_eq(n, name) {
                return Some(i);
            }
        }
        i += 1;
    }
    None
}

fn merge_rows(b: &Vec<(String, Toml)>, l: &Vec<(String, Toml)>, n: usize) -> (r: Vec<(String, Toml)>)
    requires
        n <= l.len(),
    ensures
        rows(r@) == merged_rows(rows(b@), rows(l@), n as nat),
    decreases l, n,
{
    if n == 0 {
        let r = copy_rows(b, b.len());
        assert(rows(b@).take(b@.len() as int) =~= rows(b@));
        return r;
    }
    let mut m = merge_rows(b, l, n - 1);
    let ghost mv = rows(m@);
    assert(rows(l@)[n - 1] == (l@[n - 1].0@, l@[n - 1].1@));
    match find_row(&m, l[n - 1].0.as_str()) {
        Some(i) => {
            assert(mv[i as int] == (m@[i as int].0@, m@[i as int].1@));
            let v = merge(&m[i].1, &l[n - 1].1);
            m.set(i, (l[n - 1].0.clone(), v));
            assert(rows(m@) =~= mv.update(i as int, (l@[n - 1].0@, v@)));
        },
        None => {
            m.push((l[n - 1].0.clone(), l[n - 1].1.copy()));
            assert(rows(m@) =~= mv.push((l@[n - 1].0@, l@[n - 1].1@)));
        },
    }
    m
}

fn merge_items(b: &Vec<Toml>, l: &Vec<Toml>, n: usize) -> (r: Vec<Toml>)
    requires
        n <= l.len(),
    ensures
        tomls(r@) == merged_items(tomls(b@), tomls(l@), n as nat),
    decreases l, n,
{
    if n == 0 {
        let r = copy_tomls(b, b.len());
        assert(tomls(b@).take(b@.len() as int) =~= tomls(b@));
        return r;
    }
    let mut m = merge_items(b, l, n - 1);
    let ghost mv = tomls(m@);
    let item = &l[n - 1];
    assert(tomls(l@)[n - 1] == item@);
    let at = match item.get_str("name") {
        Some(name) => find_named(&m, name),
        None => None,
    };
    match at {
        Some(i) => {
            assert(mv[i as int] == m@[i as int]@);
            let v = merge(&m[i], item);
            m.set(i, v);
            assert(tomls(m@) =~= mv.update(i as int, v@));
        },
        None => {
            let c = item.copy();
            m.push(c);
            assert(tomls(m@) =~= mv.push(item@));
        },
    }
    m
}

/// A layer laid over a document.
pub fn merge(base: &Toml, layer: &Toml) -> (r: Toml)
    ensures
        r@ == merged(base@, layer@),
    decreases layer, 0nat,
{
    proof {
        lemma_toml_view(*base);
        lemma_toml_view(*layer);
    }
    match (base, layer) {
        (Toml::Table(b), Toml::Table(l)) => table(merge_rows(b, l, l.len())),
        (Toml::Array(b), Toml::Array(l)) => {
            if is_named_table_array(b) && is_named_table_array(l) {
                toml_array(merge_items(b, l, l.len()))
            } else {
                layer.copy()
            }
        },
        _ => layer.copy(),
    }
}

/// Lays a layer over a document.
pub fn merge_into(base: &mut Toml, layer: &Toml)
    ensures
        final(base)@ == merged(old(base)@, layer@),
{
    let r = merge(base, layer);
    *base = r;
}

proof fn lemma_rows_other_key(
    b: Seq<(Seq<char>, TomlV)>,
    l: Seq<(Seq<char>, TomlV)>,
    n: nat,
    key: Seq<char>,
)
    requires
        n <= l.len(),
        forall|j: int| 0 <= j < n ==> (#[trigger] l[j]).0 != key,
    ensures
        row(merged_rows(b, l, n), key) == row(b, key),
    decreases n,
{
    if n > 0 {
        lemma_rows_other_key(b, l, (n - 1) as nat, key);
        let m = merged_rows(b, l, (n - 1) as nat);
        let r = merged_rows(b, l, n);
        lemma_row_index(m, key, 0);
        lemma_row_index(r, key, 0);
        let (k, v) = l[n - 1];
        lemma_row_index(m, k, 0);
        match row_index(m, k, 0) {
            Some(i) => {
                assert(forall|j: int| 0 <= j < m.len() ==> (#[trigger] r[j]).0 == m[j].0);
                if let Some(x) = row_index(m, key, 0) {
                    assert(r[x].0 == key);
                    if let Some(y) = row_index(r, key, 0) {
                        assert(m[y].0 == key);
                    }
                }
                if let Some(y) = row_index(r, key, 0) {
                    assert(m[y].0 == key);
                }
            },
            None => {
                if let Some(x) = row_index(m, key, 0) {
                    assert(r[x] == m[x]);
                }
                if let Some(y) = row_index(r, key, 0) {
                    if y < m.len() {
                        assert(m[y] == r[y]);
                    }
                }
            },
        }
    }
}

/// A key that the layer does not mention keeps its value.
pub proof fn law_other_keys_are_kept(b: Seq<(Seq<char>, TomlV)>, l: Seq<(Seq<char>, TomlV)>, key: Seq<char>)
    requires
        row(l, key) is None,
    ensures
        merged(TomlV::Table(b), TomlV::Table(l)).get(key) == TomlV::Table(b).get(key),
{
    lemma_row_index(l, key, 0);
    lemma_rows_other_key(b, l, l.len(), key);
}

/// An empty layer changes nothing.
pub proof fn law_empty_layer_is_neutral(b: Seq<(Seq<char>, TomlV)>)
    ensures
        merged(TomlV::Table(b), TomlV::Table(Seq::empty())) == TomlV::Table(b),
{
}

/// A value that is neither a table nor a list of named tables is replaced whole.
pub proof fn law_other_values_are_replaced(base: TomlV, layer: TomlV)
    requires
        !(base is Table && layer is Table),
        !(base matches TomlV::Array(b) && named_tables(b)) || !(layer matches TomlV::Array(l) && named_tables(l)),
    ensures
        merged(base, layer) == layer,
{
}

proof fn lemma_named_range(a: Seq<TomlV>, name: Seq<char>, i: int)
    requires
        0 <= i,
    ensures
        named_from(a, name, i) matches Some(k) ==> i <= k < a.len() && a[k].get_str("name"@) == Some(name),
    decreases a.len() - i,
{
    if i < a.len() && a[i].get_str("name"@) != Some(name) {
        lemma_named_range(a, name, i + 1);
    }
}

/// An item of a list of named tables that the layer does not name stays in its place as it
/// was, and no item is lost.
pub proof fn law_unnamed_items_are_kept(b: Seq<TomlV>, l: Seq<TomlV>, n: nat, i: int)
    requires
        n <= l.len(),
        0 <= i < b.len(),
        forall|j: int|
            0 <= j < n ==> ((#[trigger] l[j]).get_str("name"@) matches Some(x) ==> b[i].get_str("name"@) != Some(x)),
    ensures
        merged_items(b, l, n).len() >= b.len(),
        merged_items(b, l, n)[i] == b[i],
    decreases n,
{
    if n > 0 {
        law_unnamed_items_are_kept(b, l, (n - 1) as nat, i);
        let m = merged_items(b, l, (n - 1) as nat);
        assert(l[n - 1].get_str("name"@) matches Some(x) ==> b[i].get_str("name"@) != Some(x));
        if let Some(name) = l[n - 1].get_str("name"@) {
            lemma_named_range(m, name, 0);
        }
    }
}

/// The keys of a table all differ.
pub open spec fn keys_differ(l: Seq<(Seq<char>, TomlV)>) -> bool {
    forall|i: int, j: int| 0 <= i < j < l.len() ==> (#[trigger] l[i]).0 != (#[trigger] l[j]).0
}

proof fn lemma_rows_step_other(m: Seq<(Seq<char>, TomlV)>, k: Seq<char>, v: TomlV, key: Seq<char>)
    requires
        k != key,
    ensures
        row(
            match row_index(m, k, 0) {
                Some(i) => m.update(i, (k, merged(m[i].1, v))),
                None => m.push((k, v)),
            },
            key,
        ) == row(m, key),
{
    lemma_rows_other_key(m, seq![(k, v)], 1, key);
    assert(merged_rows(m, seq![(k, v)], 0) == m);
}

proof fn lemma_rows_key(b: Seq<(Seq<char>, TomlV)>, l: Seq<(Seq<char>, TomlV)>, n: nat, at: int)
    requires
        keys_differ(l),
        0 <= at < n <= l.len(),
    ensures
        row(merged_rows(b, l, n), l[at].0) == Some(
            match row(b, l[at].0) {
                Some(x) => merged(x, l[at].1),
                None => l[at].1,
            },
        ),
    decreases n,
{
    let key = l[at].0;
    let m = merged_rows(b, l, (n - 1) as nat);
    let r = merged_rows(b, l, n);
    if at < n - 1 {
        lemma_rows_key(b, l, (n - 1) as nat, at);
        assert(l[at].0 != l[n - 1].0);
        lemma_rows_step_other(m, l[n - 1].0, l[n - 1].1, key);
    } else {
        assert forall|j: int| 0 <= j < n - 1 implies (#[trigger] l[j]).0 != key by {
            assert(l[j].0 != l[at].0);
        }
        lemma_rows_other_key(b, l, (n - 1) as nat, key);
        lemma_row_index(m, key, 0);
        lemma_row_index(r, key, 0);
        lemma_row_index(b, key, 0);
        match row_index(m, key, 0) {
            Some(i) => {
                assert(r[i].0 == key);
                let q = row_index(r, key, 0)->Some_0;
                if q < i {
                    assert(r[q] == m[q]);
                }
            },
            None => {
                assert(r[m.len() as int].0 == key);
                let q = row_index(r, key, 0)->Some_0;
                if q < m.len() {
                    assert(r[q] == m[q]);
                }
            },
        }
    }
}

/// A key of the layer has what the layer says: laid over what was there, or as it is where
/// nothing was.
pub proof fn law_layer_wins(b: Seq<(Seq<char>, TomlV)>, l: Seq<(Seq<char>, TomlV)>, at: int)
    requires
        keys_differ(l),
        0 <= at < l.len(),
    ensures
        merged(TomlV::Table(b), TomlV::Table(l)).get(l[at].0) == Some(
            match TomlV::Table(b).get(l[at].0) {
                Some(x) => merged(x, l[at].1),
                None => l[at].1,
            },
        ),
{
    lemma_rows_key(b, l, l.len(), at);
}

// ---------------------------------------------------------------- overrides

/// A value set under a key of a table of the document; the table is made where it is
/// missing. Where the document, or what is there, is no table, nothing is set.
pub open spec fn with_setting(doc: TomlV, section: Seq<char>, key: Seq<char>, v: TomlV) -> TomlV {
    match doc {
        TomlV::Table(m) => match row(m, section) {
            Some(TomlV::Table(t)) => TomlV::Table(with_row(m, section, TomlV::Table(with_row(t, key, v)))),
            Some(_) => doc,
            None => TomlV::Table(m.push((section, TomlV::Table(seq![(key, v)])))),
        },
        _ => doc,
    }
}

/// The value under a key of a table of the document.
pub open spec fn setting(doc: TomlV, section: Seq<char>, key: Seq<char>) -> Option<TomlV> {
    match doc.get(section) {
        Some(t) => t.get(key),
        None => None,
    }
}

/// A table can be set in: it is there, or nothing is.
pub open spec fn has_room(m: Seq<(Seq<char>, TomlV)>, section: Seq<char>) -> bool {
    match row(m, section) {
        Some(t) => t is Table,
        None => true,
    }
}

/// The place of a key once it is set, and that the keys still differ.
proof fn lemma_row_set(m: Seq<(Seq<char>, TomlV)>, key: Seq<char>, v: TomlV) -> (at: int)
    ensures
        0 <= at < with_row(m, key, v).len(),
        with_row(m, key, v)[at] == (key, v),
        row(with_row(m, key, v), key) == Some(v),
        keys_differ(m) ==> keys_differ(with_row(m, key, v)),
{
    let r = with_row(m, key, v);
    lemma_row_index(m, key, 0);
    lemma_row_index(r, key, 0);
    match row_index(m, key, 0) {
        Some(k) => {
            assert(r[k] == (key, v));
            let q = row_index(r, key, 0)->Some_0;
            if q < k {
                assert(r[q] == m[q]);
            }
            if keys_differ(m) {
                assert forall|i: int, j: int| 0 <= i < j < r.len() implies (#[trigger] r[i]).0 != (#[trigger] r[j]).0 by {
                    assert(m[i].0 != m[j].0);
                }
            }
            k
        },
        None => {
            let k = m.len() as int;
            assert(r[k] == (key, v));
            let q = row_index(r, key, 0)->Some_0;
            if q < k {
                assert(r[q] == m[q]);
            }
            if keys_differ(m) {
                assert forall|i: int, j: int| 0 <= i < j < r.len() implies (#[trigger] r[i]).0 != (#[trigger] r[j]).0 by {
                    if j < k {
                        assert(m[i].0 != m[j].0);
                    } else {
                        assert(m[i].0 != key);
                    }
                }
            }
            k
        },
    }
}

/// What is set is there.
pub proof fn law_setting_is_set(m: Seq<(Seq<char>, TomlV)>, section: Seq<char>, key: Seq<char>, v: TomlV)
    requires
        has_room(m, section),
    ensures
        setting(with_setting(TomlV::Table(m), section, key, v), section, key) == Some(v),
{
    match row(m, section) {
        Some(TomlV::Table(t)) => {
            let a = lemma_row_set(t, key, v);
            let b = lemma_row_set(m, section, TomlV::Table(with_row(t, key, v)));
        },
        _ => {
            let t: Seq<(Seq<char>, TomlV)> = seq![(key, v)];
            lemma_row_index(t, key, 0);
            lemma_row_index(m, section, 0);
            assert(with_row(m, section, TomlV::Table(t)) == m.push((section, TomlV::Table(t))));
            let b = lemma_row_set(m, section, TomlV::Table(t));
        },
    }
}

/// A setting that was put into the user's document is in effect where that document is laid
/// over others, whatever they say of it.
pub proof fn law_kept_setting_is_in_effect(
    base: TomlV,
    m: Seq<(Seq<char>, TomlV)>,
    section: Seq<char>,
    key: Seq<char>,
    v: TomlV,
)
    requires
        has_room(m, section),
        keys_differ(m),
        row(m, section) matches Some(TomlV::Table(t)) ==> keys_differ(t),
        !(v is Table),
        !(v is Array),
    ensures
        setting(merged(base, with_setting(TomlV::Table(m), section, key, v)), section, key) == Some(v),
{
    law_setting_is_set(m, section, key, v);
    let t = match row(m, section) {
        Some(TomlV::Table(t)) => with_row(t, key, v),
        _ => seq![(key, v)],
    };
    let at = match row(m, section) {
        Some(TomlV::Table(t0)) => lemma_row_set(t0, key, v),
        _ => 0,
    };
    assert(keys_differ(t));
    assert(t[at] == (key, v));
    let l = with_row(m, section, TomlV::Table(t));
    lemma_row_index(m, section, 0);
    let place = lemma_row_set(m, section, TomlV::Table(t));
    assert(with_setting(TomlV::Table(m), section, key, v) == TomlV::Table(l));
    if let TomlV::Table(b) = base {
        law_layer_wins(b, l, place);
        if let Some(TomlV::Table(x)) = row(b, section) {
            law_layer_wins(x, t, at);
        }
    }
}

/// Sets a value under a key of a table of the document.
pub fn set_setting(doc: &mut Toml, section: &str, key: &str, v: Toml)
    ensures
        final(doc)@ == with_setting(old(doc)@, section@, key@, v@),
{
    proof {
        lemma_toml_view(*doc);
    }
    let ghost dv = doc@;
    match doc {
        Toml::Table(m) => {
            let ghost mv = rows(m@);
            match find_row(m, section) {
                Some(k) => {
                    assert(mv[k as int] == (m@[k as int].0@, m@[k as int].1@));
                    let found = m[k].1.copy();
                    proof {
                        lemma_toml_view(found);
                    }
                    match found {
                        Toml::Table(t) => {
                            let mut t2 = t;
                            set_row(&mut t2, key, v);
                            let nt = table(t2);
                            set_row(m, section, nt);
                            let mut all: Vec<(String, Toml)> = Vec::new();
                            all.append(m);
                            let d = table(all);
                            *doc = d;
                        },
                        _ => {},
                    }
                },
                None => {
                    let mut t: Vec<(String, Toml)> = Vec::new();
                    t.push((key.to_owned(), v));
                    assert(rows(t@) =~= seq![(key@, v@)]);
                    let nt = table(t);
                    let ghost b = m@;
                    m.push((section.to_owned(), nt));
                    assert(rows(m@) =~= rows(b).push((section@, nt@)));
                    let mut all: Vec<(String, Toml)> = Vec::new();
                    all.append(m);
                    let d = table(all);
                    *doc = d;
                },
            }
        },
        _ => {},
    }
}

/// The overrides that the environment gives.
#[derive(Debug)]
pub struct EnvOverrides {
    pub profile: Option<String>,
    pub permission_mode: Option<String>,
    pub log_level: Option<String>,
    pub engine_url: Option<String>,
    pub engine_port: Option<String>,
    pub llama_server: Option<String>,
}

pub open spec fn with_text_setting(
    doc: TomlV,
    section: Seq<char>,
    key: Seq<char>,
    v: Option<Seq<char>>,
) -> TomlV {
    match v {
        Some(s) => with_setting(doc, section, key, TomlV::Str(s)),
        None => doc,
    }
}

/// The document with the overrides of the environment. An address makes the engine an
/// external one; a port counts where it is a number.
pub open spec fn with_env(doc: TomlV, e: EnvOverrides) -> TomlV {
    let d = with_text_setting(doc, "general"@, "default_profile"@, opt_string(e.profile));
    let d = with_text_setting(d, "general"@, "permission_mode"@, opt_string(e.permission_mode));
    let d = with_text_setting(d, "general"@, "log_level"@, opt_string(e.log_level));
    let d = match e.engine_url {
        Some(u) => with_setting(
            with_setting(d, "engine"@, "provider"@, TomlV::Str("external"@)),
            "engine"@,
            "external_url"@,
            TomlV::Str(u@),
        ),
        None => d,
    };
    let d = match e.engine_port {
        Some(p) => match integer(p@) {
            Some(n) => with_setting(d, "engine"@, "port"@, TomlV::Integer(n as i64)),
            None => d,
        },
        None => d,
    };
    with_text_setting(d, "engine"@, "server_binary"@, opt_string(e.llama_server))
}

fn set_text_setting(doc: &mut Toml, section: &str, key: &str, v: &Option<String>)
    ensures
        final(doc)@ == with_text_setting(old(doc)@, section@, key@, opt_string(*v)),
{
    if let Some(s) = v {
        set_setting(doc, section, key, Toml::Str(s.clone()));
    }
}

/// Applies the overrides of the environment.
pub fn apply_env(doc: &mut Toml, e: &EnvOverrides)
    ensures
        final(doc)@ == with_env(old(doc)@, *e),
{
    set_text_setting(doc, "general", "default_profile", &e.profile);
    set_text_setting(doc, "general", "permission_mode", &e.permission_mode);
    set_text_setting(doc, "general", "log_level", &e.log_level);
    if let Some(u) = &e.engine_url {
        set_setting(doc, "engine", "provider", Toml::Str("external".to_owned()));
        set_setting(doc, "engine", "external_url", Toml::Str(u.clone()));
    }
    if let Some(p) = &e.engine_port {
        if let Some(n) = parse_integer(&chars_of(p.as_str())) {
            set_setting(doc, "engine", "port", Toml::Integer(n));
        }
    }
    set_text_setting(doc, "engine", "server_binary", &e.llama_server);
}

/// The defaults with the first `n` layers laid over them, one after another.
pub open spec fn layered(defaults: TomlV, layers: Seq<TomlV>, n: nat) -> TomlV
    decreases n,
{
    if n == 0 || n > layers.len() {
        defaults
    } else {
        merged(layered(defaults, layers, (n - 1) as nat), layers[n - 1])
    }
}

/// The settings in effect: the defaults, then each layer, then the environment.
pub fn load_layers(defaults: Toml, layers: &Vec<Toml>, env: &EnvOverrides) -> (r: Toml)
    ensures
        r@ == with_env(layered(defaults@, tomls(layers@), layers@.len()), *env),
{
    let ghost lv = tomls(layers@);
    let mut doc = defaults;
    let mut i: usize = 0;
    while i < layers.len()
        invariant
            i <= layers.len(),
            lv == tomls(layers@),
            doc@ == layered(defaults@, lv, i as nat),
        decreases layers.len() - i,
    {
        assert(lv[i as int] == layers@[i as int]@);
        merge_into(&mut doc, &layers[i]);
        i += 1;
    }
    apply_env(&mut doc, env);
    doc
}

// ---------------------------------------------------------------- the user's file

/// The entries of a profile that are written: its name, model and alias, and what
/// differs from the defaults.
pub open spec fn profile_rows(
    full: Seq<(Seq<char>, TomlV)>,
    defaults: Seq<(Seq<char>, TomlV)>,
    n: nat,
) -> Seq<(Seq<char>, TomlV)>
    decreases n,
{
    if n == 0 || n > full.len() {
        Seq::empty()
    } else {
        let (k, v) = full[n - 1];
        let m = profile_rows(full, defaults, (n - 1) as nat);
        let is_default = match row(defaults, k) {
            Some(d) => same_toml(d, v),
            None => false,
        };
        if k == "name"@ || k == "model"@ || k == "alias"@ || !is_default {
            with_row(m, k, v)
        } else {
            m
        }
    }
}

/// The items whose name is another.
pub open spec fn named_otherwise(a: Seq<TomlV>, name: Seq<char>, n: nat) -> Seq<TomlV>
    decreases n,
{
    if n == 0 || n > a.len() {
        Seq::empty()
    } else {
        let m = named_otherwise(a, name, (n - 1) as nat);
        if a[n - 1].get_str("name"@) == Some(name) {
            m
        } else {
            m.push(a[n - 1])
        }
    }
}

/// The user's document with a profile: it takes the place of one of its name, at the
/// end of the list. Where what is under `profile` is no list, it is left.
pub open spec fn with_profile(root: Seq<(Seq<char>, TomlV)>, entry: TomlV, name: Seq<char>) -> Seq<(Seq<char>, TomlV)> {
    match row(root, "profile"@) {
        Some(TomlV::Array(a)) => with_row(
            root,
            "profile"@,
            TomlV::Array(named_otherwise(a, name, a.len()).push(entry)),
        ),
        Some(_) => root,
        None => root.push(("profile"@, TomlV::Array(seq![entry]))),
    }
}

proof fn lemma_named_otherwise(a: Seq<TomlV>, name: Seq<char>, n: nat)
    ensures
        forall|i: int|
            0 <= i < named_otherwise(a, name, n).len() ==> (#[trigger] named_otherwise(a, name, n)[i]).get_str("name"@)
                != Some(name),
    decreases n,
{
    if 0 < n <= a.len() {
        lemma_named_otherwise(a, name, (n - 1) as nat);
    }
}

/// A profile that was put into the user's document is there as it was given, at the end of
/// the list, and it is the only one of its name.
pub proof fn law_kept_profile_is_there(root: Seq<(Seq<char>, TomlV)>, entry: TomlV, name: Seq<char>)
    requires
        match row(root, "profile"@) {
            Some(p) => p is Array,
            None => true,
        },
    ensures
        row(with_profile(root, entry, name), "profile"@) matches Some(TomlV::Array(a)) && a.len() > 0 && a.last()
            == entry && forall|i: int| 0 <= i < a.len() - 1 ==> (#[trigger] a[i]).get_str("name"@) != Some(name),
{
    lemma_row_index(root, "profile"@, 0);
    match row(root, "profile"@) {
        Some(TomlV::Array(a)) => {
            let new = named_otherwise(a, name, a.len()).push(entry);
            lemma_named_otherwise(a, name, a.len());
            let at = lemma_row_set(root, "profile"@, TomlV::Array(new));
        },
        _ => {
            let at = lemma_row_set(root, "profile"@, TomlV::Array(seq![entry]));
        },
    }
}

/// A profile's entry out of its full table and that of the defaults.
pub fn profile_entry(full: &Toml, defaults: &Toml) -> (r: Toml)
    ensures
        r@ == (match (full@, defaults@) {
            (TomlV::Table(f), TomlV::Table(d)) => TomlV::Table(profile_rows(f, d, f.len())),
            _ => TomlV::Table(Seq::empty()),
        }),
{
    proof {
        lemma_toml_view(*full);
        lemma_toml_view(*defaults);
    }
    if let (Toml::Table(f), Toml::Table(d)) = (full, defaults) {
        let ghost fv = rows(f@);
        let ghost dv = rows(d@);
        let mut m: Vec<(String, Toml)> = Vec::new();
        let mut i: usize = 0;
        assert(rows(m@) =~= Seq::empty());
        while i < f.len()
            invariant
                i <= f.len(),
                fv == rows(f@),
                dv == rows(d@),
                rows(m@) == profile_rows(fv, dv, i as nat),
            decreases f.len() - i,
        {
            assert(fv[i as int] == (f@[i as int].0@, f@[i as int].1@));
            let k = f[i].0.as_str();
            let is_default = match find_row(d, k) {
                Some(j) => {
                    assert(dv[j as int] == (d@[j as int].0@, d@[j as int].1@));
                    d[j].1.same_as(&f[i].1)
                },
                None => false,
            };
            if str_eq(k, "name") || str_eq(k, "model") || str_eq(k, "alias") || !is_default {
                set_row(&mut m, k, f[i].1.copy());
            }
            i += 1;
        }
        return table(m);
    }
    empty_table()
}

/// Puts a profile into the user's document, and makes it the default one where that is
/// asked for. Fails where the document is no table.
pub fn persist_profile(doc: &mut Toml, entry: Toml, name: &str, make_default: bool) -> (r: bool)
    ensures
        r == (old(doc)@ is Table),
        final(doc)@ == (match old(doc)@ {
            TomlV::Table(root) => {
                let d = TomlV::Table(with_profile(root, entry@, name@));
                if make_default {
                    with_setting(d, "general"@, "default_profile"@, TomlV::Str(name@))
                } else {
                    d
                }
            },
            _ => old(doc)@,
        }),
{
    proof {
        lemma_toml_view(*doc);
    }
    let mut root: Vec<(String, Toml)> = match doc {
        Toml::Table(m) => {
            let r = copy_rows(m, m.len());
            assert(rows(m@).take(m@.len() as int) =~= rows(m@));
            r
        },
        _ => {
            return false;
        },
    };
    let ghost rv = rows(root@);
    match find_row(&root, "profile") {
        Some(k) => {
            assert(rv[k as int] == (root@[k as int].0@, root@[k as int].1@));
            proof {
                lemma_toml_view(root@[k as int].1);
            }
            let list = match &root[k].1 {
                Toml::Array(a) => {
                    let ghost av = tomls(a@);
                    let mut kept: Vec<Toml> = Vec::new();
                    let mut i: usize = 0;
                    assert(tomls(kept@) =~= Seq::empty());
                    while i < a.len()
                        invariant
                            i <= a.len(),
                            av == tomls(a@),
                            tomls(kept@) == named_otherwise(av, name@, i as nat),
                        decreases a.len() - i,
                    {
                        assert(av[i as int] == a@[i as int]@);
                        let same = match a[i].get_str("name") {
                            Some(n) => str_eq(n, name),
                            None => false,
                        };
                        if !same {
                            let ghost b = kept@;
                            let c = a[i].copy();
                            kept.push(c);
                            assert(tomls(kept@) =~= tomls(b).push(av[i as int]));
                        }
                        i += 1;
                    }
                    let ghost b = kept@;
                    kept.push(entry);
                    assert(tomls(kept@) =~= tomls(b).push(entry@));
                    Some(kept)
                },
                _ => None,
            };
            if let Some(l) = list {
                set_row(&mut root, "profile", toml_array(l));
            }
        },
        None => {
            let mut l: Vec<Toml> = Vec::new();
            l.push(entry);
            assert(tomls(l@) =~= seq![entry@]);
            let v = toml_array(l);
            let ghost b = root@;
            root.push(("profile".to_owned(), v));
            assert(rows(root@) =~= rows(b).push(("profile"@, v@)));
        },
    }
    let mut d = table(root);
    if make_default {
        set_setting(&mut d, "general", "default_profile", Toml::Str(name.to_owned()));
    }
    *doc = d;
    true
}

/// Writes the permission mode into the user's document. Fails where it is no table.
pub fn persist_permission_mode(doc: &mut Toml, mode: &str) -> (r: bool)
    ensures
        r == (old(doc)@ is Table),
        final(doc)@ == with_setting(old(doc)@, "general"@, "permission_mode"@, TomlV::Str(mode@)),
{
    proof {
        lemma_toml_view(*doc);
    }
    let is_table = match doc {
        Toml::Table(_) => true,
        _ => false,
    };
    set_setting(doc, "general", "permission_mode", Toml::Str(mode.to_owned()));
    is_table
}

/// The document after the environment was heard says what the environment says.
#[verifier::rlimit(40)]
pub proof fn law_the_environment_wins(m: Seq<(Seq<char>, TomlV)>, e: EnvOverrides)
    requires
        row(m, "general"@) matches Some(TomlV::Table(_)),
        row(m, "engine"@) matches Some(TomlV::Table(_)),
    ensures
        ({
            let d = with_env(TomlV::Table(m), e);
            &&& e.profile matches Some(s) ==> setting(d, "general"@, "default_profile"@) == Some(TomlV::Str(s@))
            &&& e.permission_mode matches Some(s) ==> setting(d, "general"@, "permission_mode"@) == Some(TomlV::Str(s@))
            &&& e.log_level matches Some(s) ==> setting(d, "general"@, "log_level"@) == Some(TomlV::Str(s@))
            &&& e.engine_url matches Some(s) ==> setting(d, "engine"@, "external_url"@) == Some(TomlV::Str(s@))
                && setting(d, "engine"@, "provider"@) == Some(TomlV::Str("external"@))
            &&& e.llama_server matches Some(s) ==> setting(d, "engine"@, "server_binary"@) == Some(TomlV::Str(s@))
            &&& e.engine_port matches Some(s) ==> (integer(s@) matches Some(n) ==> setting(d, "engine"@, "port"@) == Some(
                TomlV::Integer(n as i64),
            ))
            &&& e.profile is None ==> setting(d, "general"@, "default_profile"@) == setting(
                TomlV::Table(m),
                "general"@,
                "default_profile"@,
            )
            &&& e.permission_mode is None ==> setting(d, "general"@, "permission_mode"@) == setting(
                TomlV::Table(m),
                "general"@,
                "permission_mode"@,
            )
            &&& e.engine_port is None ==> setting(d, "engine"@, "port"@) == setting(TomlV::Table(m), "engine"@, "port"@)
            &&& e.llama_server is None ==> setting(d, "engine"@, "server_binary"@) == setting(
                TomlV::Table(m),
                "engine"@,
                "server_binary"@,
            )
        }),
{
    lemma_keys_differ();
    let d0 = TomlV::Table(m);
    let d1 = with_text_setting(d0, "general"@, "default_profile"@, opt_string(e.profile));
    let d2 = with_text_setting(d1, "general"@, "permission_mode"@, opt_string(e.permission_mode));
    let d3 = with_text_setting(d2, "general"@, "log_level"@, opt_string(e.log_level));
    let d4 = match e.engine_url {
        Some(u) => with_setting(d3, "engine"@, "provider"@, TomlV::Str("external"@)),
        None => d3,
    };
    let d5 = match e.engine_url {
        Some(u) => with_setting(d4, "engine"@, "external_url"@, TomlV::Str(u@)),
        None => d4,
    };
    let d6 = match e.engine_port {
        Some(p) => match integer(p@) {
            Some(n) => with_setting(d5, "engine"@, "port"@, TomlV::Integer(n as i64)),
            None => d5,
        },
        None => d5,
    };
    let d7 = with_text_setting(d6, "engine"@, "server_binary"@, opt_string(e.llama_server));
    assert(with_env(d0, e) == d7);
    assert(two_tables(d0));
    if let Some(s) = e.profile {
        lemma_set(d0, "general"@, "default_profile"@, TomlV::Str(s@));
    }
    if let Some(s) = e.permission_mode {
        lemma_set(d1, "general"@, "permission_mode"@, TomlV::Str(s@));
    }
    if let Some(s) = e.log_level {
        lemma_set(d2, "general"@, "log_level"@, TomlV::Str(s@));
    }
    if let Some(s) = e.engine_url {
        lemma_set(d3, "engine"@, "provider"@, TomlV::Str("external"@));
        lemma_set(d4, "engine"@, "external_url"@, TomlV::Str(s@));
    }
    if let Some(s) = e.engine_port {
        if let Some(n) = integer(s@) {
            lemma_set(d5, "engine"@, "port"@, TomlV::Integer(n as i64));
        }
    }
    if let Some(s) = e.llama_server {
        lemma_set(d6, "engine"@, "server_binary"@, TomlV::Str(s@));
    }
}

spec fn two_tables(d: TomlV) -> bool {
    &&& d is Table
    &&& d.get("general"@) matches Some(TomlV::Table(_))
    &&& d.get("engine"@) matches Some(TomlV::Table(_))
}

proof fn lemma_keys_differ()
    ensures
        "general"@ != "engine"@,
        "default_profile"@ != "permission_mode"@,
        "default_profile"@ != "log_level"@,
        "permission_mode"@ != "log_level"@,
        "provider"@ != "external_url"@,
        "provider"@ != "port"@,
        "provider"@ != "server_binary"@,
        "external_url"@ != "port"@,
        "external_url"@ != "server_binary"@,
        "port"@ != "server_binary"@,
{
    reveal_strlit("general");
    reveal_strlit("engine");
    reveal_strlit("default_profile");
    reveal_strlit("permission_mode");
    reveal_strlit("log_level");
    reveal_strlit("provider");
    reveal_strlit("external_url");
    reveal_strlit("port");
    reveal_strlit("server_binary");
    assert("general"@.len() == 7 && "engine"@.len() == 6);
    assert("default_profile"@[0] == 'd' && "permission_mode"@[0] == 'p' && "log_level"@[0] == 'l');
    assert("provider"@.len() == 8 && "external_url"@.len() == 12 && "port"@.len() == 4 && "server_binary"@.len() == 13);
}

/// A setting that is set is there, and every other setting is as it was.
proof fn lemma_set(d: TomlV, section: Seq<char>, key: Seq<char>, v: TomlV)
    requires
        two_tables(d),
        section == "general"@ || section == "engine"@,
    ensures
        two_tables(with_setting(d, section, key, v)),
        setting(with_setting(d, section, key, v), section, key) == Some(v),
        forall|s: Seq<char>, k: Seq<char>|
            s != section || k != key ==> #[trigger] setting(with_setting(d, section, key, v), s, k) == setting(d, s, k),
{
    let m = d->Table_0;
    let t = row(m, section)->Some_0->Table_0;
    let w = with_setting(d, section, key, v);
    let n = TomlV::Table(with_row(t, key, v));
    assert forall|s: Seq<char>| #[trigger] row(with_row(m, section, n), s) == (if s == section {
        Some(n)
    } else {
        row(m, s)
    }) by {
        lemma_row_put(m, section, n, s);
    }
    assert forall|k: Seq<char>| #[trigger] row(with_row(t, key, v), k) == (if k == key {
        Some(v)
    } else {
        row(t, k)
    }) by {
        lemma_row_put(t, key, v, k);
    }
    assert forall|s: Seq<char>, k: Seq<char>| s != section || k != key implies #[trigger] setting(w, s, k) == setting(
        d,
        s,
        k,
    ) by {
        assert(w.get(s) == row(with_row(m, section, n), s));
        if s == section {
            assert(n.get(k) == row(with_row(t, key, v), k));
        }
    }
    assert(w.get(section) == Some(n));
    assert(w.get("general"@) == row(with_row(m, section, n), "general"@));
    assert(w.get("engine"@) == row(with_row(m, section, n), "engine"@));
}

proof fn lemma_row_put(m: Seq<(Seq<char>, TomlV)>, key: Seq<char>, v: TomlV, other: Seq<char>)
    ensures
        row(with_row(m, key, v), other) == (if other == key {
            Some(v)
        } else {
            row(m, other)
        }),
{
    let w = with_row(m, key, v);
    lemma_row_index(m, key, 0);
    lemma_row_index(m, other, 0);
    lemma_row_index(w, other, 0);
    match row_index(m, key, 0) {
        Some(k) => {
            assert forall|j: int| 0 <= j < m.len() implies (#[trigger] w[j]).0 == m[j].0 by {}
            if let Some(i) = row_index(m, other, 0) {
                assert(w[i].0 == other);
            }
            if let Some(i) = row_index(w, other, 0) {
                assert(m[i].0 == other);
            }
        },
        None => {
            assert forall|j: int| 0 <= j < m.len() implies (#[trigger] w[j]) == m[j] by {}
            assert(w[m.len() as int] == (key, v));
            if let Some(i) = row_index(m, other, 0) {
                assert(w[i].0 == other);
            }
        },
    }
}

/// Of the entries of a profile those are written that name it and its model, and those that
/// differ from the defaults, each as it is; and no other.
pub proof fn law_what_differs_is_written(
    full: Seq<(Seq<char>, TomlV)>,
    defaults: Seq<(Seq<char>, TomlV)>,
    n: nat,
    key: Seq<char>,
)
    requires
        n <= full.len(),
        keys_differ(full),
    ensures
        forall|i: int|
            0 <= i < n && (#[trigger] full[i]).0 == key ==> row(profile_rows(full, defaults, n), key) == (if key
                == "name"@ || key == "model"@ || key == "alias"@ || row(defaults, key) is None || !same_toml(
                row(defaults, key)->Some_0,
                full[i].1,
            ) {
                Some(full[i].1)
            } else {
                None
            }),
        (forall|i: int| 0 <= i < n ==> (#[trigger] full[i]).0 != key) ==> row(profile_rows(full, defaults, n), key)
            is None,
    decreases n,
{
    if n > 0 {
        law_what_differs_is_written(full, defaults, (n - 1) as nat, key);
        let m = profile_rows(full, defaults, (n - 1) as nat);
        lemma_row_put(m, full[n - 1].0, full[n - 1].1, key);
        assert forall|i: int| 0 <= i < n && (#[trigger] full[i]).0 == key implies row(
            profile_rows(full, defaults, n),
            key,
        ) == (if key == "name"@ || key == "model"@ || key == "alias"@ || row(defaults, key) is None || !same_toml(
            row(defaults, key)->Some_0,
            full[i].1,
        ) {
            Some(full[i].1)
        } else {
            None
        }) by {
            if i == n - 1 {
                assert forall|j: int| 0 <= j < n - 1 implies (#[trigger] full[j]).0 != key by {
                    assert(full[j].0 != full[n - 1].0);
                }
            } else {
                assert(full[i].0 != full[n - 1].0);
            }
        }
        if forall|i: int| 0 <= i < n ==> (#[trigger] full[i]).0 != key {
            assert(full[n - 1].0 != key);
        }
    }
}

/// The profiles of other names are kept, in their order.
pub proof fn law_other_profiles_are_kept(a: Seq<TomlV>, name: Seq<char>, n: nat)
    requires
        n <= a.len(),
    ensures
        named_otherwise(a, name, n) == a.take(n as int).filter(|t: TomlV| t.get_str("name"@) != Some(name)),
    decreases n,
{
    reveal(Seq::filter);
    let f = |t: TomlV| t.get_str("name"@) != Some(name);
    if n > 0 {
        law_other_profiles_are_kept(a, name, (n - 1) as nat);
        let t = a.take(n as int);
        assert(t.drop_last() =~= a.take(n - 1));
        assert(t.last() == a[n - 1]);
    } else {
        assert(a.take(0).len() == 0);
        assert(named_otherwise(a, name, 0) =~= a.take(0).filter(f));
    }
}

/// A named item of a layer is laid over the first item of its name; where there is none it comes
/// last. The other items stay.
pub proof fn law_an_item_goes_by_its_name(b: Seq<TomlV>, item: TomlV, name: Seq<char>)
    requires
        item.get_str("name"@) == Some(name),
    ensures
        forall|i: int|
            0 <= i < b.len() && (#[trigger] b[i]).get_str("name"@) == Some(name) && (forall|j: int|
                0 <= j < i ==> (#[trigger] b[j]).get_str("name"@) != Some(name)) ==> merged_items(b, seq![item], 1)
                == b.update(i, merged(b[i], item)),
        (forall|i: int| 0 <= i < b.len() ==> (#[trigger] b[i]).get_str("name"@) != Some(name)) ==> merged_items(
            b,
            seq![item],
            1,
        ) == b.push(item),
{
    lemma_named_first(b, name, 0);
    assert(merged_items(b, seq![item], 0) == b);
    assert(seq![item][0] == item);
}

proof fn lemma_named_first(a: Seq<TomlV>, name: Seq<char>, i: int)
    requires
        0 <= i,
    ensures
        match named_from(a, name, i) {
            Some(k) => i <= k < a.len() && a[k].get_str("name"@) == Some(name) && forall|j: int|
                i <= j < k ==> (#[trigger] a[j]).get_str("name"@) != Some(name),
            None => forall|j: int| i <= j < a.len() ==> (#[trigger] a[j]).get_str("name"@) != Some(name),
        },
    decreases a.len() - i,
{
    if i < a.len() && a[i].get_str("name"@) != Some(name) {
        lemma_named_first(a, name, i + 1);
    }
}

/// Of several layers a later one wins: what the last says of a key that holds no table and no
/// list is in effect, and what it does not mention is as the others say.
pub proof fn law_the_last_layer_wins(defaults: TomlV, layers: Seq<TomlV>, n: nat, l: Seq<(Seq<char>, TomlV)>, at: int)
    requires
        0 < n <= layers.len(),
        layers[n - 1] == TomlV::Table(l),
        keys_differ(l),
        0 <= at < l.len(),
        !(l[at].1 is Table),
        !(l[at].1 is Array),
    ensures
        layered(defaults, layers, n).get(l[at].0) == Some(l[at].1),
        forall|key: Seq<char>|
            row(l, key) is None && layered(defaults, layers, (n - 1) as nat) is Table ==> #[trigger] layered(
                defaults,
                layers,
                n,
            ).get(key) == layered(defaults, layers, (n - 1) as nat).get(key),
{
    let b = layered(defaults, layers, (n - 1) as nat);
    match b {
        TomlV::Table(rows) => {
            law_layer_wins(rows, l, at);
            assert forall|key: Seq<char>| row(l, key) is None implies #[trigger] layered(defaults, layers, n).get(key)
                == b.get(key) by {
                law_other_keys_are_kept(rows, l, key);
            }
        },
        _ => {
            lemma_row_index(l, l[at].0, 0);
            let k = row_index(l, l[at].0, 0)->Some_0;
            if k < at {
                assert(l[k].0 != l[at].0);
            } else if k > at {
                assert(l[at].0 != l[at].0);
            }
        },
    }
}

} // verus!
