//! Which files mention symbols of which others.

use crate::index::{FileRec, RecV};
use crate::lang::SymKind;
use crate::message::{byte_len, bytes_in};
use crate::rank::views;
use crate::symbols::{SymbolV, refs_view, symbols_view};
use vstd::hash_map::StringHashMap;
use vstd::prelude::*;

verus! {

/// A definition of a name.
#[derive(Debug, Clone, Copy, PartialEq, Eq, Structural)]
pub struct Definition {
    /// The place of the file.
    pub file: usize,
    pub kind: SymKind,
    pub is_public: bool,
}

/// A mention in one file of a name that another defines.
#[derive(Debug)]
pub struct Link {
    pub from: usize,
    pub to: usize,
    pub name: String,
    /// How often the name is mentioned.
    pub count: u16,
    pub kind: SymKind,
    pub is_public: bool,
    /// How many definitions the name has; the mention is shared among them.
    pub shared_by: usize,
}

#[verifier::ext_equal]
pub struct LinkV {
    pub from: int,
    pub to: int,
    pub name: Seq<char>,
    pub count: u16,
    pub kind: SymKind,
    pub is_public: bool,
    pub shared_by: nat,
}

impl View for Link {
    type V = LinkV;

    open spec fn view(&self) -> LinkV {
        LinkV {
            from: self.from as int,
            to: self.to as int,
            name: self.name@,
            count: self.count,
            kind: self.kind,
            is_public: self.is_public,
            shared_by: self.shared_by as nat,
        }
    }
}

/// A name that is defined more often than this means nothing.
pub const COMMON: usize = 12;

/// The definitions of a name among the first `n` symbols of a file: names of less than
/// three bytes do not count.
pub open spec fn defined_in(v: Seq<SymbolV>, file: usize, name: Seq<char>, n: nat) -> Seq<Definition>
    decreases n,
{
    if n == 0 || n > v.len() {
        Seq::empty()
    } else {
        let p = defined_in(v, file, name, (n - 1) as nat);
        let s = v[n - 1];
        if s.name == name && byte_len(name) >= 3 {
            p.push(Definition { file, kind: s.kind, is_public: s.is_public })
        } else {
            p
        }
    }
}

/// The definitions of a name among the first `n` files.
pub open spec fn definitions_of(files: Seq<RecV>, name: Seq<char>, n: nat) -> Seq<Definition>
    decreases n,
{
    if n == 0 || n > files.len() {
        Seq::empty()
    } else {
        definitions_of(files, name, (n - 1) as nat) + defined_in(
            files[n - 1].symbols,
            (n - 1) as usize,
            name,
            files[n - 1].symbols.len(),
        )
    }
}

/// The links from a file to the first `n` of the definitions of a name, but those in the
/// file itself.
pub open spec fn links_to(ds: Seq<Definition>, from: int, name: Seq<char>, count: u16, n: nat) -> Seq<LinkV>
    decreases n,
{
    if n == 0 || n > ds.len() {
        Seq::empty()
    } else {
        let p = links_to(ds, from, name, count, (n - 1) as nat);
        let d = ds[n - 1];
        if d.file == from {
            p
        } else {
            p.push(
                LinkV {
                    from,
                    to: d.file as int,
                    name,
                    count,
                    kind: d.kind,
                    is_public: d.is_public,
                    shared_by: ds.len(),
                },
            )
        }
    }
}

/// The links by a name: none where it is too common.
pub open spec fn links_by(files: Seq<RecV>, from: int, name: Seq<char>, count: u16) -> Seq<LinkV> {
    let ds = definitions_of(files, name, files.len());
    if ds.len() > COMMON {
        Seq::empty()
    } else {
        links_to(ds, from, name, count, ds.len())
    }
}

/// The links by the first `n` names of a file.
pub open spec fn links_from(files: Seq<RecV>, from: int, refs: Seq<(Seq<char>, u16)>, n: nat) -> Seq<LinkV>
    decreases n,
{
    if n == 0 || n > refs.len() {
        Seq::empty()
    } else {
        links_from(files, from, refs, (n - 1) as nat) + links_by(files, from, refs[n - 1].0, refs[n - 1].1)
    }
}

/// The links of the first `n` files.
pub open spec fn links_of(files: Seq<RecV>, n: nat) -> Seq<LinkV>
    decreases n,
{
    if n == 0 || n > files.len() {
        Seq::empty()
    } else {
        links_of(files, (n - 1) as nat) + links_from(files, n - 1, files[n - 1].refs, files[n - 1].refs.len())
    }
}

/// The definitions of every name, found by the name.
struct Defined {
    groups: Vec<Vec<Definition>>,
    index: StringHashMap<usize>,
}

impl Defined {
    /// The definitions of a name.
    spec fn of(self, name: Seq<char>) -> Seq<Definition> {
        if self.index@.contains_key(name) && self.index@[name] < self.groups@.len() {
            self.groups@[self.index@[name] as int]@
        } else {
            Seq::empty()
        }
    }

    /// Each name has a group of its own.
    spec fn wf(self) -> bool {
        &&& forall|name: Seq<char>| #[trigger] self.index@.contains_key(name) ==> self.index@[name] < self.groups@.len()
        &&& forall|a: Seq<char>, b: Seq<char>|
            #[trigger] self.index@.contains_key(a) && #[trigger] self.index@.contains_key(b) && self.index@[a]
                == self.index@[b] ==> a == b
    }

    fn new() -> (r: Defined)
        ensures
            r.wf(),
            forall|name: Seq<char>| #[trigger] r.of(name) == Seq::<Definition>::empty(),
    {
        Defined { groups: Vec::new(), index: StringHashMap::new() }
    }

    fn push(&mut self, name: &str, d: Definition)
        requires
            old(self).wf(),
        ensures
            final(self).wf(),
            forall|other: Seq<char>| #[trigger]
                final(self).of(other) == if other == name@ {
                    old(self).of(other).push(d)
                } else {
                    old(self).of(other)
                },
    {
        let at = match self.index.get(name) {
            Some(k) => Some(*k),
            None => None,
        };
        match at {
            Some(k) => {
                let ghost before = self.groups@;
                let mut g: Vec<Definition> = Vec::new();
                let mut i: usize = 0;
                while i < self.groups[k].len()
                    invariant
                        k < self.groups@.len(),
                        i <= self.groups@[k as int]@.len(),
                        g@ == self.groups@[k as int]@.take(i as int),
                        *self == *old(self),
                    decreases self.groups@[k as int]@.len() - i,
                {
                    g.push(self.groups[k][i]);
                    assert(g@ =~= self.groups@[k as int]@.take(i + 1));
                    i += 1;
                }
                assert(g@ =~= self.groups@[k as int]@);
                g.push(d);
                self.groups.set(k, g);
                assert forall|other: Seq<char>| #[trigger] self.of(other) == (if other == name@ {
                    old(self).of(other).push(d)
                } else {
                    old(self).of(other)
                }) by {
                    if self.index@.contains_key(other) && other != name@ {
                        assert(self.index@[other] != k);
                    }
                }
            },
            None => {
                let k: usize = self.groups.len();
                let mut g: Vec<Definition> = Vec::new();
                g.push(d);
                self.groups.push(g);
                self.index.insert(name.to_owned(), k);
                assert(g@ =~= Seq::<Definition>::empty().push(d));
                assert forall|other: Seq<char>| #[trigger] self.of(other) == (if other == name@ {
                    old(self).of(other).push(d)
                } else {
                    old(self).of(other)
                }) by {
                    if other != name@ && self.index@.contains_key(other) {
                        assert(old(self).index@.contains_key(other));
                    }
                }
            },
        }
    }
}

pub open spec fn recs_view(v: Seq<&FileRec>) -> Seq<RecV> {
    Seq::new(v.len(), |i: int| v[i]@)
}

fn collect_definitions(recs: &Vec<&FileRec>) -> (r: Defined)
    ensures
        r.wf(),
        forall|name: Seq<char>| #[trigger] r.of(name) == definitions_of(recs_view(recs@), name, recs@.len()),
{
    let ghost fv = recs_view(recs@);
    let mut d = Defined::new();
    let mut i: usize = 0;
    while i < recs.len()
        invariant
            i <= recs.len(),
            fv == recs_view(recs@),
            d.wf(),
            forall|name: Seq<char>| #[trigger] d.of(name) == definitions_of(fv, name, i as nat),
        decreases recs.len() - i,
    {
        assert(fv[i as int] == recs@[i as int]@);
        let symbols = &recs[i].symbols;
        let ghost sv = symbols_view(symbols@);
        let mut j: usize = 0;
        assert forall|name: Seq<char>| #[trigger] d.of(name) == definitions_of(fv, name, i as nat) + defined_in(
            sv,
            i,
            name,
            0,
        ) by {
            assert(definitions_of(fv, name, i as nat) + defined_in(sv, i, name, 0) =~= definitions_of(
                fv,
                name,
                i as nat,
            ));
        }
        while j < symbols.len()
            invariant
                j <= symbols.len(),
                sv == symbols_view(symbols@),
                d.wf(),
                forall|name: Seq<char>| #[trigger]
                    d.of(name) == definitions_of(fv, name, i as nat) + defined_in(sv, i, name, j as nat),
            decreases symbols.len() - j,
        {
            assert(sv[j as int] == symbols@[j as int]@);
            let s = &symbols[j];
            let ghost before = d;
            if bytes_in(s.name.as_str()) >= 3 {
                d.push(s.name.as_str(), Definition { file: i, kind: s.kind, is_public: s.is_public });
            }
            assert forall|name: Seq<char>| #[trigger] d.of(name) == definitions_of(fv, name, i as nat) + defined_in(
                sv,
                i,
                name,
                (j + 1) as nat,
            ) by {
                assert(before.of(name) == definitions_of(fv, name, i as nat) + defined_in(sv, i, name, j as nat));
                assert(d.of(name) =~= definitions_of(fv, name, i as nat) + defined_in(sv, i, name, (j + 1) as nat));
            }
            j += 1;
        }
        i += 1;
    }
    d
}

fn add_links(out: &mut Vec<Link>, ds: &Vec<Definition>, from: usize, name: &str, count: u16)
    ensures
        views(final(out)@) == views(old(out)@) + links_to(ds@, from as int, name@, count, ds@.len()),
{
    let ghost start = views(out@);
    let mut i: usize = 0;
    assert(start + links_to(ds@, from as int, name@, count, 0) =~= start);
    while i < ds.len()
        invariant
            i <= ds.len(),
            start == views(old(out)@),
            views(out@) == start + links_to(ds@, from as int, name@, count, i as nat),
        decreases ds.len() - i,
    {
        let d = ds[i];
        if d.file != from {
            let l = Link {
                from,
                to: d.file,
                name: name.to_owned(),
                count,
                kind: d.kind,
                is_public: d.is_public,
                shared_by: ds.len(),
            };
            let ghost b = out@;
            out.push(l);
            assert(views(out@) =~= views(b).push(l@));
        }
        assert(views(out@) =~= start + links_to(ds@, from as int, name@, count, (i + 1) as nat));
        i += 1;
    }
}

/// The links between files.
pub fn find_links(recs: &Vec<&FileRec>) -> (r: Vec<Link>)
    ensures
        views(r@) == links_of(recs_view(recs@), recs@.len()),
{
    let ghost fv = recs_view(recs@);
    let defs = collect_definitions(recs);
    let mut out: Vec<Link> = Vec::new();
    let mut i: usize = 0;
    assert(views(out@) =~= Seq::<LinkV>::empty());
    while i < recs.len()
        invariant
            i <= recs.len(),
            fv == recs_view(recs@),
            defs.wf(),
            forall|name: Seq<char>| #[trigger] defs.of(name) == definitions_of(fv, name, fv.len()),
            views(out@) == links_of(fv, i as nat),
        decreases recs.len() - i,
    {
        assert(fv[i as int] == recs@[i as int]@);
        let refs = &recs[i].refs;
        let ghost rv = refs_view(refs@);
        let ghost base = views(out@);
        let mut j: usize = 0;
        assert(base + links_from(fv, i as int, rv, 0) =~= base);
        while j < refs.len()
            invariant
                j <= refs.len(),
                rv == refs_view(refs@),
                defs.wf(),
                forall|name: Seq<char>| #[trigger] defs.of(name) == definitions_of(fv, name, fv.len()),
                views(out@) == base + links_from(fv, i as int, rv, j as nat),
            decreases refs.len() - j,
        {
            assert(rv[j as int] == (refs@[j as int].0@, refs@[j as int].1));
            let name = refs[j].0.as_str();
            let ghost before = views(out@);
            assert(defs.of(name@) == definitions_of(fv, name@, fv.len()));
            match defs.index.get(name) {
                Some(k) => {
                    let g = &defs.groups[*k];
                    if g.len() <= COMMON {
                        add_links(&mut out, g, i, name, refs[j].1);
                    }
                },
                None => {},
            }
            assert(views(out@) =~= before + links_by(fv, i as int, name@, refs@[j as int].1));
            assert(views(out@) =~= base + links_from(fv, i as int, rv, (j + 1) as nat));
            j += 1;
        }
        i += 1;
    }
    out
}

proof fn lemma_links_to(ds: Seq<Definition>, from: int, name: Seq<char>, count: u16, n: nat, k: int)
    requires
        0 <= k < links_to(ds, from, name, count, n).len(),
    ensures
        links_to(ds, from, name, count, n)[k].from == from,
        links_to(ds, from, name, count, n)[k].to != from,
        links_to(ds, from, name, count, n)[k].shared_by == ds.len(),
    decreases n,
{
    let p = links_to(ds, from, name, count, (n - 1) as nat);
    if k < p.len() {
        lemma_links_to(ds, from, name, count, (n - 1) as nat, k);
    }
}

proof fn lemma_links_from(files: Seq<RecV>, from: int, refs: Seq<(Seq<char>, u16)>, n: nat, k: int)
    requires
        0 <= k < links_from(files, from, refs, n).len(),
    ensures
        links_from(files, from, refs, n)[k].to != links_from(files, from, refs, n)[k].from,
        links_from(files, from, refs, n)[k].shared_by <= COMMON,
    decreases n,
{
    let p = links_from(files, from, refs, (n - 1) as nat);
    if k < p.len() {
        lemma_links_from(files, from, refs, (n - 1) as nat, k);
    } else {
        let (name, count) = refs[n - 1];
        let ds = definitions_of(files, name, files.len());
        lemma_links_to(ds, from, name, count, ds.len(), k - p.len());
    }
}

/// No file links to itself, and no link goes by a name that is too common.
pub proof fn law_links_go_elsewhere(files: Seq<RecV>, n: nat, k: int)
    requires
        0 <= k < links_of(files, n).len(),
    ensures
        links_of(files, n)[k].to != links_of(files, n)[k].from,
        links_of(files, n)[k].shared_by <= COMMON,
    decreases n,
{
    let p = links_of(files, (n - 1) as nat);
    if k < p.len() {
        law_links_go_elsewhere(files, (n - 1) as nat, k);
    } else {
        lemma_links_from(files, n - 1, files[n - 1].refs, files[n - 1].refs.len(), k - p.len());
    }
}

proof fn lemma_defined_in(v: Seq<SymbolV>, file: usize, name: Seq<char>, n: nat, s: int)
    requires
        n <= v.len(),
        byte_len(name) >= 3,
    ensures
        0 <= s < n && v[s].name == name ==> defined_in(v, file, name, n).contains(
            (Definition { file, kind: v[s].kind, is_public: v[s].is_public }),
        ),
        defined_in(v, file, name, n).len() == v.take(n as int).filter(named(name)).len(),
    decreases n,
{
    reveal(Seq::filter);
    if n > 0 {
        lemma_defined_in(v, file, name, (n - 1) as nat, s);
        let p = defined_in(v, file, name, (n - 1) as nat);
        let r = defined_in(v, file, name, n);
        assert(v.take(n as int).drop_last() =~= v.take(n - 1));
        assert(v.take(n as int).last() == v[n - 1]);
        if 0 <= s < n && v[s].name == name {
            let d = Definition { file, kind: v[s].kind, is_public: v[s].is_public };
            if s < n - 1 {
                let k = choose|k: int| 0 <= k < p.len() && p[k] == d;
                assert(r[k] == d);
            } else {
                assert(r[p.len() as int] == d);
            }
        }
    } else {
        assert(v.take(0).len() == 0);
    }
}

/// A symbol is of a name.
pub open spec fn named(name: Seq<char>) -> spec_fn(SymbolV) -> bool {
    |s: SymbolV| s.name == name
}

/// How many symbols of the first `n` files are of a name.
pub open spec fn times_defined(files: Seq<RecV>, name: Seq<char>, n: nat) -> nat
    decreases n,
{
    if n == 0 || n > files.len() {
        0
    } else {
        times_defined(files, name, (n - 1) as nat) + files[n - 1].symbols.filter(named(name)).len()
    }
}

proof fn lemma_definitions(files: Seq<RecV>, name: Seq<char>, n: nat, b: int, s: int)
    requires
        n <= files.len() <= usize::MAX,
        byte_len(name) >= 3,
    ensures
        0 <= b < n && 0 <= s < files[b].symbols.len() && files[b].symbols[s].name == name ==> definitions_of(
            files,
            name,
            n,
        ).contains(
            (Definition {
                file: b as usize,
                kind: files[b].symbols[s].kind,
                is_public: files[b].symbols[s].is_public,
            }),
        ),
        definitions_of(files, name, n).len() == times_defined(files, name, n),
    decreases n,
{
    if n > 0 {
        lemma_definitions(files, name, (n - 1) as nat, b, s);
        let v = files[n - 1].symbols;
        lemma_defined_in(v, (n - 1) as usize, name, v.len(), s);
        assert(v.take(v.len() as int) =~= v);
        let p = definitions_of(files, name, (n - 1) as nat);
        let q = defined_in(v, (n - 1) as usize, name, v.len());
        let r = definitions_of(files, name, n);
        if 0 <= b < n && 0 <= s < files[b].symbols.len() && files[b].symbols[s].name == name {
            let d = Definition {
                file: b as usize,
                kind: files[b].symbols[s].kind,
                is_public: files[b].symbols[s].is_public,
            };
            if b < n - 1 {
                let k = choose|k: int| 0 <= k < p.len() && p[k] == d;
                assert(r[k] == d);
            } else {
                let k = choose|k: int| 0 <= k < q.len() && q[k] == d;
                assert(r[p.len() + k] == d);
            }
        }
    }
}

proof fn lemma_linked(ds: Seq<Definition>, from: int, name: Seq<char>, count: u16, n: nat, k: int)
    requires
        n <= ds.len(),
        0 <= k < n,
        ds[k].file != from,
    ensures
        links_to(ds, from, name, count, n).contains(
            (LinkV {
                from,
                to: ds[k].file as int,
                name,
                count,
                kind: ds[k].kind,
                is_public: ds[k].is_public,
                shared_by: ds.len(),
            }),
        ),
    decreases n,
{
    let r = links_to(ds, from, name, count, n);
    let p = links_to(ds, from, name, count, (n - 1) as nat);
    let l = LinkV {
        from,
        to: ds[k].file as int,
        name,
        count,
        kind: ds[k].kind,
        is_public: ds[k].is_public,
        shared_by: ds.len(),
    };
    if k < n - 1 {
        lemma_linked(ds, from, name, count, (n - 1) as nat, k);
        let m = choose|m: int| 0 <= m < p.len() && p[m] == l;
        assert(r[m] == l);
    } else {
        assert(r[p.len() as int] == l);
    }
}

proof fn lemma_links_kept(files: Seq<RecV>, a: int, r: int, n: nat, l: LinkV)
    requires
        0 <= r < n <= files[a].refs.len(),
        links_by(files, a, files[a].refs[r].0, files[a].refs[r].1).contains(l),
    ensures
        links_from(files, a, files[a].refs, n).contains(l),
    decreases n,
{
    let refs = files[a].refs;
    let p = links_from(files, a, refs, (n - 1) as nat);
    let q = links_by(files, a, refs[n - 1].0, refs[n - 1].1);
    let all = links_from(files, a, refs, n);
    if r < n - 1 {
        lemma_links_kept(files, a, r, (n - 1) as nat, l);
        let m = choose|m: int| 0 <= m < p.len() && p[m] == l;
        assert(all[m] == l);
    } else {
        let m = choose|m: int| 0 <= m < q.len() && q[m] == l;
        assert(all[p.len() + m] == l);
    }
}

proof fn lemma_links_of_kept(files: Seq<RecV>, a: int, n: nat, l: LinkV)
    requires
        0 <= a < n <= files.len(),
        links_from(files, a, files[a].refs, files[a].refs.len()).contains(l),
    ensures
        links_of(files, n).contains(l),
    decreases n,
{
    let p = links_of(files, (n - 1) as nat);
    let q = links_from(files, n - 1, files[n - 1].refs, files[n - 1].refs.len());
    let all = links_of(files, n);
    if a < n - 1 {
        lemma_links_of_kept(files, a, (n - 1) as nat, l);
        let m = choose|m: int| 0 <= m < p.len() && p[m] == l;
        assert(all[m] == l);
    } else {
        let m = choose|m: int| 0 <= m < q.len() && q[m] == l;
        assert(all[p.len() + m] == l);
    }
}

/// A file that mentions a name is linked to every other file that defines it, as often as it
/// mentions it, where the name has at least three bytes and is defined at most twelve times.
pub proof fn law_a_mention_links_to_each_definition(files: Seq<RecV>, a: int, r: int, b: int, s: int)
    requires
        files.len() <= usize::MAX,
        0 <= a < files.len(),
        0 <= b < files.len(),
        a != b,
        0 <= r < files[a].refs.len(),
        0 <= s < files[b].symbols.len(),
        files[b].symbols[s].name == files[a].refs[r].0,
        byte_len(files[a].refs[r].0) >= 3,
        times_defined(files, files[a].refs[r].0, files.len()) <= 12,
    ensures
        links_of(files, files.len()).contains(
            (LinkV {
                from: a,
                to: b,
                name: files[a].refs[r].0,
                count: files[a].refs[r].1,
                kind: files[b].symbols[s].kind,
                is_public: files[b].symbols[s].is_public,
                shared_by: times_defined(files, files[a].refs[r].0, files.len()),
            }),
        ),
{
    let (name, count) = files[a].refs[r];
    lemma_definitions(files, name, files.len(), b, s);
    let ds = definitions_of(files, name, files.len());
    let d = Definition { file: b as usize, kind: files[b].symbols[s].kind, is_public: files[b].symbols[s].is_public };
    let k = choose|k: int| 0 <= k < ds.len() && ds[k] == d;
    lemma_linked(ds, a, name, count, ds.len(), k);
    let l = LinkV {
        from: a,
        to: b,
        name,
        count,
        kind: d.kind,
        is_public: d.is_public,
        shared_by: ds.len(),
    };
    lemma_links_kept(files, a, r, files[a].refs.len(), l);
    lemma_links_of_kept(files, a, files.len(), l);
}

} // verus!
