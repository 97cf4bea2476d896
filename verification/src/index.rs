//! The index of a project: for each file its symbols and the names that it mentions, and
//! what of it has to be read anew.

use crate::config::CodeIntel;
use crate::digest::{blake3_digest, blake3_hash, same_digest};
use crate::discover::{alike, eq_ignore_case};
use crate::lang::{Language, SymKind};
use crate::message::at_most;
use crate::pathname::{below, path_below};
use crate::rank::{
    Ranked, law_ranking_keeps_every_value, law_ranking_sorts, lemma_ranked_len, orderly, rank,
    ranked, views,
};
use crate::search::{can_score, fuzzy_fits, fuzzy_smart_case, score_smart_case};
use crate::symbols::{Symbol, SymbolV, copy_symbols, parse, parsed_file, refs_view, symbols_view};
use crate::text::{
    at, before, copy_strings, debug_text, dec, dec_u64, find, holds, is_before,
    lemma_before_irreflexive, lemma_before_total, lemma_before_transitive, list_contains, lowered,
    quoted, str_eq, strings,
};
use vstd::prelude::*;
use vstd::string::*;

verus! {

/// What is kept of a file.
#[derive(Debug)]
pub struct FileRec {
    pub mtime_ns: u64,
    pub size: u64,
    pub hash: [u8; 32],
    pub lang: Language,
    pub symbols: Vec<Symbol>,
    pub refs: Vec<(String, u16)>,
}

#[verifier::ext_equal]
pub struct RecV {
    pub mtime_ns: u64,
    pub size: u64,
    pub hash: Seq<u8>,
    pub lang: Language,
    pub symbols: Seq<SymbolV>,
    pub refs: Seq<(Seq<char>, u16)>,
}

impl View for FileRec {
    type V = RecV;

    open spec fn view(&self) -> RecV {
        RecV {
            mtime_ns: self.mtime_ns,
            size: self.size,
            hash: self.hash@,
            lang: self.lang,
            symbols: symbols_view(self.symbols@),
            refs: refs_view(self.refs@),
        }
    }
}

pub fn copy_refs(v: &Vec<(String, u16)>) -> (r: Vec<(String, u16)>)
    ensures
        refs_view(r@) == refs_view(v@),
{
    let mut out: Vec<(String, u16)> = Vec::new();
    let mut i: usize = 0;
    while i < v.len()
        invariant
            i <= v.len(),
            refs_view(out@) == refs_view(v@).take(i as int),
        decreases v.len() - i,
    {
        let ghost b = out@;
        out.push((v[i].0.clone(), v[i].1));
        assert(refs_view(out@) =~= refs_view(b).push((v@[i as int].0@, v@[i as int].1)));
        i += 1;
    }
    assert(refs_view(out@) =~= refs_view(v@));
    out
}

/// What a scan did.
#[derive(Debug, Clone, Copy, PartialEq, Eq, Structural)]
pub struct ScanStats {
    pub files_seen: usize,
    pub parsed: usize,
    pub unchanged: usize,
    pub removed: usize,
    pub symbols: usize,
    pub ms: u128,
}

/// A file that was come by.
#[derive(Debug)]
pub struct SeenFile {
    /// Its path below the root, with forward slashes.
    pub rel: String,
    pub mtime_ns: u64,
    pub size: u64,
    pub lang: Language,
}

/// A file of the index.
#[derive(Debug)]
pub struct IndexedFile {
    pub path: String,
    pub rec: FileRec,
}

impl View for IndexedFile {
    type V = (Seq<char>, RecV);

    open spec fn view(&self) -> (Seq<char>, RecV) {
        (self.path@, self.rec@)
    }
}

#[derive(Debug)]
pub struct Indexer {
    pub root: String,
    pub languages: Vec<String>,
    pub max_file_bytes: u64,
    pub files: Vec<IndexedFile>,
    pub windows: bool,
}

pub struct IndexV {
    pub root: Seq<char>,
    pub languages: Seq<Seq<char>>,
    pub max_file_bytes: u64,
    pub files: Seq<(Seq<char>, RecV)>,
    pub windows: bool,
}

impl View for Indexer {
    type V = IndexV;

    open spec fn view(&self) -> IndexV {
        IndexV {
            root: self.root@,
            languages: strings(self.languages@),
            max_file_bytes: self.max_file_bytes,
            files: views(self.files@),
            windows: self.windows,
        }
    }
}

/// The paths ascend, so that none occurs twice.
pub open spec fn ascending(files: Seq<(Seq<char>, RecV)>) -> bool {
    forall|i: int, j: int| 0 <= i < j < files.len() ==> before((#[trigger] files[i]).0, (#[trigger] files[j]).0)
}

/// The place of a file, from `i` on.
pub open spec fn file_from(files: Seq<(Seq<char>, RecV)>, path: Seq<char>, i: int) -> Option<int>
    decreases files.len() - i,
{
    if i < 0 || i >= files.len() {
        None
    } else if files[i].0 == path {
        Some(i)
    } else {
        file_from(files, path, i + 1)
    }
}

pub open spec fn rec_of(files: Seq<(Seq<char>, RecV)>, path: Seq<char>) -> Option<RecV> {
    match file_from(files, path, 0) {
        Some(i) => Some(files[i].1),
        None => None,
    }
}

/// The place that a new path belongs at, from `i` on.
pub open spec fn place_for(files: Seq<(Seq<char>, RecV)>, path: Seq<char>, i: int) -> int
    decreases files.len() - i,
{
    if i < 0 || i >= files.len() || before(path, files[i].0) {
        i
    } else {
        place_for(files, path, i + 1)
    }
}

/// The files with one more, or another record of one.
pub open spec fn with_file(files: Seq<(Seq<char>, RecV)>, path: Seq<char>, rec: RecV) -> Seq<(Seq<char>, RecV)> {
    match file_from(files, path, 0) {
        Some(i) => files.update(i, (path, rec)),
        None => files.insert(place_for(files, path, 0), (path, rec)),
    }
}

/// The files but those of the given paths, of the first `n`.
pub open spec fn without_files(files: Seq<(Seq<char>, RecV)>, gone: Seq<Seq<char>>, n: nat) -> Seq<(Seq<char>, RecV)>
    decreases n,
{
    if n == 0 || n > files.len() {
        Seq::empty()
    } else {
        let p = without_files(files, gone, (n - 1) as nat);
        if gone.contains(files[n - 1].0) {
            p
        } else {
            p.push(files[n - 1])
        }
    }
}

/// The files with the first `n` of a list put in.
pub open spec fn with_files(
    files: Seq<(Seq<char>, RecV)>,
    more: Seq<(Seq<char>, RecV)>,
    n: nat,
) -> Seq<(Seq<char>, RecV)>
    decreases n,
{
    if n == 0 || n > more.len() {
        files
    } else {
        with_file(with_files(files, more, (n - 1) as nat), more[n - 1].0, more[n - 1].1)
    }
}

// ---------------------------------------------------------------- names by frequency

/// A name that is mentioned.
#[derive(Debug)]
pub struct Mention {
    pub name: String,
    pub count: u16,
}

impl View for Mention {
    type V = (Seq<char>, u16);

    open spec fn view(&self) -> (Seq<char>, u16) {
        (self.name@, self.count)
    }
}

impl Ranked for Mention {
    /// The more frequent first.
    open spec fn in_order(a: (Seq<char>, u16), b: (Seq<char>, u16)) -> bool {
        a.1 >= b.1
    }

    fn is_in_order(a: &Mention, b: &Mention) -> (r: bool) {
        a.count >= b.count
    }
}

pub const MAX_REFS: usize = 2000;

/// The most frequent names, at most as many as are kept.
pub open spec fn frequent(refs: Seq<(Seq<char>, u16)>) -> Seq<(Seq<char>, u16)> {
    let r = ranked::<Mention>(refs, refs.len());
    if r.len() <= MAX_REFS {
        r
    } else {
        r.take(MAX_REFS as int)
    }
}

fn most_frequent(refs: Vec<(String, u16)>) -> (r: Vec<(String, u16)>)
    ensures
        refs_view(r@) == frequent(refs_view(refs@)),
{
    let ghost rv = refs_view(refs@);
    let mut list: Vec<Mention> = Vec::new();
    assert(views(list@) =~= rv.take(0));
    for x in it: refs
        invariant
            it.seq() == refs@,
            rv == refs_view(refs@),
            views(list@) == rv.take(it.index() as int),
    {
        let ghost b = list@;
        list.push(Mention { name: x.0, count: x.1 });
        assert(views(list@) =~= views(b).push((x.0@, x.1)));
        assert(rv.take(it.index() + 1) =~= rv.take(it.index() as int).push((x.0@, x.1)));
    }
    assert(rv.take(rv.len() as int) =~= rv);
    let sorted = rank(list);
    let ghost sv = views(sorted@);
    let mut out: Vec<(String, u16)> = Vec::new();
    let mut i: usize = 0;
    while i < sorted.len() && i < MAX_REFS
        invariant
            i <= sorted.len(),
            i <= MAX_REFS,
            sv == views(sorted@),
            refs_view(out@) == sv.take(i as int),
        decreases sorted.len() - i,
    {
        let ghost b = out@;
        out.push((sorted[i].name.clone(), sorted[i].count));
        assert(refs_view(out@) =~= refs_view(b).push(sv[i as int]));
        i += 1;
    }
    assert(refs_view(out@) =~= frequent(rv));
    out
}

// ---------------------------------------------------------------- reading files

/// What is kept of a file that was read: where its bytes are those that were read before,
/// the old record with the new time; else what the bytes tell.
pub open spec fn record_of(old: Option<RecV>, mtime: u64, size: u64, lang: Language, bytes: Seq<u8>) -> RecV {
    let h = blake3_digest(bytes);
    match old {
        Some(r) => if r.hash == h {
            RecV { mtime_ns: mtime, size, ..r }
        } else {
            fresh_record(mtime, size, lang, bytes)
        },
        None => fresh_record(mtime, size, lang, bytes),
    }
}

pub open spec fn fresh_record(mtime: u64, size: u64, lang: Language, bytes: Seq<u8>) -> RecV {
    let p = parsed_file(lang, bytes);
    RecV { mtime_ns: mtime, size, hash: blake3_digest(bytes), lang, symbols: p.symbols, refs: frequent(p.refs) }
}

/// Whether a file has to be read: it is new, or its time or its size has changed.
pub open spec fn is_stale(files: Seq<(Seq<char>, RecV)>, path: Seq<char>, mtime: u64, size: u64) -> bool {
    match rec_of(files, path) {
        Some(r) => r.mtime_ns != mtime || r.size != size,
        None => true,
    }
}

/// What a file tells, read anew.
pub fn read_record(mtime: u64, size: u64, lang: Language, bytes: &[u8]) -> (r: FileRec)
    ensures
        r@ == fresh_record(mtime, size, lang, bytes@),
{
    let p = parse(lang, bytes);
    FileRec {
        mtime_ns: mtime,
        size,
        hash: blake3_hash(bytes),
        lang,
        symbols: p.symbols,
        refs: most_frequent(p.refs),
    }
}

impl Indexer {
    /// The paths of the files ascend.
    pub open spec fn wf(self) -> bool {
        ascending(self@.files)
    }

    /// An empty index for a project.
    pub fn new(root: &str, cfg: &CodeIntel, windows: bool) -> (r: Indexer)
        ensures
            r.wf(),
            r@ == (IndexV {
                root: root@,
                languages: strings(cfg.languages@),
                max_file_bytes: cfg.max_file_bytes,
                files: Seq::empty(),
                windows,
            }),
    {
        let r = Indexer {
            root: root.to_owned(),
            languages: copy_strings(&cfg.languages),
            max_file_bytes: cfg.max_file_bytes,
            files: Vec::new(),
            windows,
        };
        assert(r@.files =~= Seq::empty());
        r
    }

    pub fn root(&self) -> (r: &str)
        ensures
            r@ == self@.root,
    {
        self.root.as_str()
    }

    pub fn file_count(&self) -> (r: usize)
        ensures
            r == self@.files.len(),
    {
        self.files.len()
    }

    fn find(&self, rel: &str) -> (r: Option<usize>)
        ensures
            match r {
                Some(i) => i < self.files.len() && file_from(self@.files, rel@, 0) == Some(i as int),
                None => file_from(self@.files, rel@, 0) is None,
            },
    {
        let ghost fv = views(self.files@);
        let mut i: usize = 0;
        while i < self.files.len()
            invariant
                i <= self.files.len(),
                fv == views(self.files@),
                file_from(fv, rel@, 0) == file_from(fv, rel@, i as int),
            decreases self.files.len() - i,
        {
            assert(fv[i as int] == self.files@[i as int]@);
            if str_eq(self.files[i].path.as_str(), rel) {
                return Some(i);
            }
            i += 1;
        }
        None
    }

    /// What is kept of a file.
    pub fn get(&self, rel: &str) -> (r: Option<&FileRec>)
        ensures
            match r {
                Some(f) => rec_of(self@.files, rel@) == Some(f@),
                None => rec_of(self@.files, rel@) is None,
            },
    {
        match self.find(rel) {
            Some(i) => Some(&self.files[i].rec),
            None => None,
        }
    }

    /// The path below the root.
    pub fn rel(&self, path: &str) -> (r: String)
        ensures
            r@ == below(self@.root, path@, self@.windows),
    {
        path_below(self.root.as_str(), path, self.windows)
    }

    /// The language of a file that belongs into the index: one that is enabled, and the
    /// file is not too large.
    pub fn accept(&self, path: &str, size: u64) -> (r: Option<Language>)
        ensures
            r == (match Language::of_path(path@, self@.windows) {
                Some(l) => if self@.languages.contains(l.title()) && size <= self@.max_file_bytes {
                    Some(l)
                } else {
                    None
                },
                None => None,
            }),
    {
        match Language::from_path(path, self.windows) {
            Some(l) => if list_contains(&self.languages, l.name()) && size <= self.max_file_bytes {
                Some(l)
            } else {
                None
            },
            None => None,
        }
    }

    /// The language of an edited file that belongs into the index, whatever its size.
    pub fn accept_edited(&self, path: &str) -> (r: Option<Language>)
        ensures
            r == (match Language::of_path(path@, self@.windows) {
                Some(l) => if self@.languages.contains(l.title()) {
                    Some(l)
                } else {
                    None
                },
                None => None,
            }),
    {
        match Language::from_path(path, self.windows) {
            Some(l) => if list_contains(&self.languages, l.name()) {
                Some(l)
            } else {
                None
            },
            None => None,
        }
    }

    /// Whether a file has to be read.
    pub fn needs_reading(&self, seen: &SeenFile) -> (r: bool)
        ensures
            r == is_stale(self@.files, seen.rel@, seen.mtime_ns, seen.size),
    {
        match self.get(seen.rel.as_str()) {
            Some(f) => f.mtime_ns != seen.mtime_ns || f.size != seen.size,
            None => true,
        }
    }

    /// What is kept of a file that was read.
    pub fn record(&self, seen: &SeenFile, bytes: &[u8]) -> (r: FileRec)
        ensures
            r@ == record_of(rec_of(self@.files, seen.rel@), seen.mtime_ns, seen.size, seen.lang, bytes@),
    {
        if let Some(old) = self.get(seen.rel.as_str()) {
            if same_digest(&old.hash, &blake3_hash(bytes)) {
                return FileRec {
                    mtime_ns: seen.mtime_ns,
                    size: seen.size,
                    hash: old.hash,
                    lang: old.lang,
                    symbols: copy_symbols(&old.symbols),
                    refs: copy_refs(&old.refs),
                };
            }
        }
        read_record(seen.mtime_ns, seen.size, seen.lang, bytes)
    }

    /// The paths of the index that were not come by.
    pub fn vanished(&self, seen: &Vec<SeenFile>) -> (r: Vec<String>)
        ensures
            strings(r@) == gone_of(self@.files, seen_paths(seen@), self@.files.len()),
    {
        let ghost fv = views(self.files@);
        let ghost sv = seen_paths(seen@);
        let mut out: Vec<String> = Vec::new();
        let mut i: usize = 0;
        assert(strings(out@) =~= Seq::<Seq<char>>::empty());
        while i < self.files.len()
            invariant
                i <= self.files.len(),
                fv == views(self.files@),
                sv == seen_paths(seen@),
                strings(out@) == gone_of(fv, sv, i as nat),
            decreases self.files.len() - i,
        {
            assert(fv[i as int] == self.files@[i as int]@);
            if !was_seen(seen, self.files[i].path.as_str()) {
                let ghost b = out@;
                out.push(self.files[i].path.clone());
                assert(strings(out@) =~= strings(b).push(fv[i as int].0));
            }
            i += 1;
        }
        out
    }

    fn put(&mut self, path: String, rec: FileRec)
        requires
            old(self).wf(),
        ensures
            final(self).wf(),
            final(self)@ == (IndexV { files: with_file(old(self)@.files, path@, rec@), ..old(self)@ }),
    {
        let ghost fv = self@.files;
        match self.find(path.as_str()) {
            Some(i) => {
                proof {
                    lemma_file_from(fv, path@, 0);
                }
                let f = IndexedFile { path, rec };
                self.files.set(i, f);
                assert(self@.files =~= fv.update(i as int, f@));
                assert(ascending(self@.files));
            },
            None => {
                let mut i: usize = 0;
                while i < self.files.len() && !is_before(path.as_str(), self.files[i].path.as_str())
                    invariant
                        i <= self.files.len(),
                        fv == views(self.files@),
                        self@ == old(self)@,
                        fv == self@.files,
                        place_for(fv, path@, 0) == place_for(fv, path@, i as int),
                        forall|k: int| 0 <= k < i ==> !before(path@, (#[trigger] fv[k]).0),
                    decreases self.files.len() - i,
                {
                    assert(fv[i as int] == self.files@[i as int]@);
                    i += 1;
                }
                assert(i < fv.len() ==> fv[i as int] == self.files@[i as int]@);
                let f = IndexedFile { path, rec };
                self.files.insert(i, f);
                assert(self@.files =~= fv.insert(i as int, f@));
                proof {
                    lemma_file_from(fv, path@, 0);
                    lemma_insert_ascending(fv, path@, rec@, i as int);
                }
            },
        }
    }

    /// Takes the records of the files that were read, and drops those that vanished.
    pub fn apply(&mut self, parsed: Vec<IndexedFile>, removed: &Vec<String>)
        requires
            old(self).wf(),
        ensures
            final(self).wf(),
            final(self)@ == (IndexV {
                files: with_files(
                    without_files(old(self)@.files, strings(removed@), old(self)@.files.len()),
                    views(parsed@),
                    parsed@.len(),
                ),
                ..old(self)@
            }),
    {
        let ghost start = self@;
        let ghost gone = strings(removed@);
        let mut kept: Vec<IndexedFile> = Vec::new();
        let mut all: Vec<IndexedFile> = Vec::new();
        all.append(&mut self.files);
        assert(views(kept@) =~= Seq::empty());
        for f in it: all
            invariant
                it.seq() == all@,
                views(all@) == start.files,
                gone == strings(removed@),
                views(kept@) == without_files(start.files, gone, it.index() as nat),
        {
            assert(start.files[it.index() as int] == f@);
            if !list_contains(removed, f.path.as_str()) {
                let ghost b = kept@;
                kept.push(f);
                assert(views(kept@) =~= views(b).push(f@));
            }
        }
        self.files = kept;
        let ghost base = self@.files;
        proof {
            lemma_without_ascending(start.files, gone, start.files.len());
        }
        let ghost pv = views(parsed@);
        for f in it: parsed
            invariant
                it.seq() == parsed@,
                pv == views(parsed@),
                self.wf(),
                self@ == (IndexV { files: with_files(base, pv, it.index() as nat), ..start }),
        {
            assert(pv[it.index() as int] == f@);
            self.put(f.path, f.rec);
        }
    }

    /// How many symbols there are.
    pub fn symbol_count(&self) -> (r: usize)
        ensures
            r == at_most(symbols_in(self@.files, self@.files.len()), usize::MAX as nat),
    {
        let ghost fv = views(self.files@);
        let mut n: usize = 0;
        let mut i: usize = 0;
        while i < self.files.len()
            invariant
                i <= self.files.len(),
                fv == views(self.files@),
                n == at_most(symbols_in(fv, i as nat), usize::MAX as nat),
            decreases self.files.len() - i,
        {
            assert(fv[i as int] == self.files@[i as int]@);
            n = n.saturating_add(self.files[i].rec.symbols.len());
            i += 1;
        }
        n
    }

    /// What a scan did, but for the time that it took.
    pub fn scan_stats(&self, seen: usize, todo: usize, parsed: usize, removed: usize, ms: u128) -> (r: ScanStats)
        requires
            todo <= seen,
        ensures
            r.files_seen == seen,
            r.unchanged == seen - todo,
            r.parsed == parsed,
            r.removed == removed,
            r.ms == ms,
            r.symbols == at_most(symbols_in(self@.files, self@.files.len()), usize::MAX as nat),
    {
        ScanStats { files_seen: seen, parsed, unchanged: seen - todo, removed, symbols: self.symbol_count(), ms }
    }

    /// The symbols of a file of the index.
    pub fn outline(&self, rel: &str) -> (r: Option<Vec<Symbol>>)
        ensures
            match r {
                Some(v) => rec_of(self@.files, rel@) matches Some(f) && symbols_view(v@) == f.symbols,
                None => rec_of(self@.files, rel@) is None,
            },
    {
        match self.get(rel) {
            Some(f) => Some(copy_symbols(&f.symbols)),
            None => None,
        }
    }
}

pub open spec fn symbols_in(files: Seq<(Seq<char>, RecV)>, n: nat) -> nat
    decreases n,
{
    if n == 0 || n > files.len() {
        0
    } else {
        symbols_in(files, (n - 1) as nat) + files[n - 1].1.symbols.len()
    }
}

pub open spec fn seen_paths(v: Seq<SeenFile>) -> Seq<Seq<char>> {
    Seq::new(v.len(), |i: int| v[i].rel@)
}

/// The paths of the first `n` files that are not among those seen.
pub open spec fn gone_of(files: Seq<(Seq<char>, RecV)>, seen: Seq<Seq<char>>, n: nat) -> Seq<Seq<char>>
    decreases n,
{
    if n == 0 || n > files.len() {
        Seq::empty()
    } else if seen.contains(files[n - 1].0) {
        gone_of(files, seen, (n - 1) as nat)
    } else {
        gone_of(files, seen, (n - 1) as nat).push(files[n - 1].0)
    }
}

fn was_seen(seen: &Vec<SeenFile>, path: &str) -> (r: bool)
    ensures
        r == seen_paths(seen@).contains(path@),
{
    let ghost sv = seen_paths(seen@);
    let mut i: usize = 0;
    while i < seen.len()
        invariant
            i <= seen.len(),
            sv == seen_paths(seen@),
            forall|k: int| 0 <= k < i ==> #[trigger] sv[k] != path@,
        decreases seen.len() - i,
    {
        assert(sv[i as int] == seen@[i as int].rel@);
        if str_eq(seen[i].rel.as_str(), path) {
            return true;
        }
        i += 1;
    }
    false
}

proof fn lemma_file_from(files: Seq<(Seq<char>, RecV)>, path: Seq<char>, i: int)
    requires
        0 <= i,
    ensures
        match file_from(files, path, i) {
            Some(k) => i <= k < files.len() && files[k].0 == path,
            None => forall|k: int| i <= k < files.len() ==> (#[trigger] files[k]).0 != path,
        },
    decreases files.len() - i,
{
    if i < files.len() && files[i].0 != path {
        lemma_file_from(files, path, i + 1);
    }
}

proof fn lemma_insert_ascending(files: Seq<(Seq<char>, RecV)>, path: Seq<char>, rec: RecV, i: int)
    requires
        ascending(files),
        0 <= i <= files.len(),
        forall|k: int| 0 <= k < files.len() ==> (#[trigger] files[k]).0 != path,
        forall|k: int| 0 <= k < i ==> !before(path, (#[trigger] files[k]).0),
        i < files.len() ==> before(path, files[i].0),
    ensures
        ascending(files.insert(i, (path, rec))),
{
    let r = files.insert(i, (path, rec));
    assert forall|a: int, b: int| 0 <= a < b < r.len() implies before((#[trigger] r[a]).0, (#[trigger] r[b]).0) by {
        if b < i {
            assert(before(files[a].0, files[b].0));
        } else if b == i {
            assert(r[a] == files[a]);
            lemma_before_total(path, files[a].0);
        } else if a < i {
            assert(before(files[a].0, files[b - 1].0));
        } else if a == i {
            if b - 1 > i {
                assert(before(files[i].0, files[b - 1].0));
                lemma_before_transitive(path, files[i].0, files[b - 1].0);
            }
        } else {
            assert(before(files[a - 1].0, files[b - 1].0));
        }
    }
}

proof fn lemma_without_ascending(files: Seq<(Seq<char>, RecV)>, gone: Seq<Seq<char>>, n: nat)
    requires
        ascending(files),
        n <= files.len(),
    ensures
        ascending(without_files(files, gone, n)),
        forall|k: int|
            0 <= k < without_files(files, gone, n).len() ==> exists|m: int|
                0 <= m < n && files[m] == #[trigger] without_files(files, gone, n)[k],
    decreases n,
{
    if n > 0 {
        lemma_without_ascending(files, gone, (n - 1) as nat);
        let p = without_files(files, gone, (n - 1) as nat);
        let r = without_files(files, gone, n);
        assert forall|a: int, b: int| 0 <= a < b < r.len() implies before((#[trigger] r[a]).0, (#[trigger] r[b]).0) by {
            if b == p.len() {
                let m = choose|m: int| 0 <= m < n - 1 && files[m] == p[a];
                assert(before(files[m].0, files[n - 1].0));
            } else {
                assert(before(p[a].0, p[b].0));
            }
        }
        assert forall|k: int| 0 <= k < r.len() implies exists|m: int| 0 <= m < n && files[m] == #[trigger] r[k] by {
            if k < p.len() {
                let m = choose|m: int| 0 <= m < n - 1 && files[m] == p[k];
                assert(files[m] == r[k]);
            } else {
                assert(files[n - 1] == r[k]);
            }
        }
    }
}

/// After a file was read it is up to date: the same time and size do not ask for it to be
/// read again.
pub proof fn law_read_file_is_up_to_date(
    files: Seq<(Seq<char>, RecV)>,
    path: Seq<char>,
    mtime: u64,
    size: u64,
    lang: Language,
    bytes: Seq<u8>,
)
    requires
        ascending(files),
    ensures
        !is_stale(
            with_file(files, path, record_of(rec_of(files, path), mtime, size, lang, bytes)),
            path,
            mtime,
            size,
        ),
{
    let rec = record_of(rec_of(files, path), mtime, size, lang, bytes);
    let r = with_file(files, path, rec);
    lemma_file_from(files, path, 0);
    lemma_file_from(r, path, 0);
    match file_from(files, path, 0) {
        Some(i) => {
            assert(r[i].0 == path);
            let k = file_from(r, path, 0)->Some_0;
            if k != i {
                assert(r[k] == files[k]);
                lemma_before_irreflexive(path);
                if k < i {
                    assert(before(files[k].0, files[i].0));
                } else {
                    assert(before(files[i].0, files[k].0));
                }
            }
        },
        None => {
            lemma_place_for(files, path, 0);
            let i = place_for(files, path, 0);
            assert(r[i] == (path, rec));
            let k = file_from(r, path, 0)->Some_0;
            if k < i {
                assert(r[k] == files[k]);
            } else if k > i {
                assert(r[k] == files[k - 1]);
            }
        },
    }
}

proof fn lemma_place_for(files: Seq<(Seq<char>, RecV)>, path: Seq<char>, i: int)
    requires
        0 <= i <= files.len(),
    ensures
        i <= place_for(files, path, i) <= files.len(),
    decreases files.len() - i,
{
    if i < files.len() && !before(path, files[i].0) {
        lemma_place_for(files, path, i + 1);
    }
}

// ---------------------------------------------------------------- looking for symbols

/// A symbol that was found.
#[derive(Debug)]
pub struct SymbolHit {
    pub score: u32,
    pub path: String,
    pub symbol: Symbol,
}

pub struct HitV {
    pub score: u32,
    pub path: Seq<char>,
    pub symbol: SymbolV,
}

impl View for SymbolHit {
    type V = HitV;

    open spec fn view(&self) -> HitV {
        HitV { score: self.score, path: self.path@, symbol: self.symbol@ }
    }
}

impl Ranked for SymbolHit {
    /// The higher score first, then by the path.
    open spec fn in_order(a: HitV, b: HitV) -> bool {
        a.score > b.score || (a.score == b.score && !before(b.path, a.path))
    }

    fn is_in_order(a: &SymbolHit, b: &SymbolHit) -> (r: bool) {
        a.score > b.score || (a.score == b.score && !is_before(b.path.as_str(), a.path.as_str()))
    }
}

/// The score of a symbol: how well its name fits, much more where it is what was asked
/// for, a little more where it is public.
pub open spec fn score_of(query: Seq<char>, s: SymbolV, fit: u32) -> u32 {
    at_most(
        fit as nat + (if alike(s.name, query) {
            1000nat
        } else {
            0
        }) + (if s.is_public {
            5nat
        } else {
            0
        }),
        u32::MAX as nat,
    ) as u32
}

/// How well a name fits; not at all where a text is too long to be compared.
pub open spec fn fit_of(query: Seq<char>, name: Seq<char>) -> Option<u32> {
    if fuzzy_fits(query, name) {
        fuzzy_smart_case(query, name)
    } else {
        None
    }
}

/// What a symbol gives, where it is of the sort that is looked for.
pub open spec fn hit_of(query: Seq<char>, kind: Option<SymKind>, path: Seq<char>, s: SymbolV) -> Option<HitV> {
    if kind matches Some(k) && s.kind != k {
        None
    } else {
        match fit_of(query, s.name) {
            Some(n) => Some(HitV { score: score_of(query, s, n), path, symbol: s }),
            None => None,
        }
    }
}

/// What the first `n` symbols of a file give.
pub open spec fn file_hits(query: Seq<char>, kind: Option<SymKind>, path: Seq<char>, v: Seq<SymbolV>, n: nat) -> Seq<HitV>
    decreases n,
{
    if n == 0 || n > v.len() {
        Seq::empty()
    } else {
        let p = file_hits(query, kind, path, v, (n - 1) as nat);
        match hit_of(query, kind, path, v[n - 1]) {
            Some(h) => p.push(h),
            None => p,
        }
    }
}

/// What the first `n` files give.
pub open spec fn all_hits(query: Seq<char>, kind: Option<SymKind>, files: Seq<(Seq<char>, RecV)>, n: nat) -> Seq<HitV>
    decreases n,
{
    if n == 0 || n > files.len() {
        Seq::empty()
    } else {
        let f = files[n - 1];
        all_hits(query, kind, files, (n - 1) as nat) + file_hits(query, kind, f.0, f.1.symbols, f.1.symbols.len())
    }
}

/// The best of what the files give, at most as many as asked for.
pub open spec fn best_hits(query: Seq<char>, kind: Option<SymKind>, files: Seq<(Seq<char>, RecV)>, limit: nat) -> Seq<
    HitV,
> {
    let all = all_hits(query, kind, files, files.len());
    let r = ranked::<SymbolHit>(all, all.len());
    if r.len() <= limit {
        r
    } else {
        r.take(limit as int)
    }
}

fn symbol_hit(query: &str, kind: Option<SymKind>, path: &str, s: &Symbol) -> (r: Option<SymbolHit>)
    ensures
        match r {
            Some(h) => hit_of(query@, kind, path@, s@) == Some(h@),
            None => hit_of(query@, kind, path@, s@) is None,
        },
{
    if let Some(k) = kind {
        if s.kind != k {
            return None;
        }
    }
    if !can_score(query, s.name.as_str()) {
        return None;
    }
    match score_smart_case(query, s.name.as_str()) {
        Some(n) => {
            let exact: u32 = if eq_ignore_case(s.name.as_str(), query) {
                1000
            } else {
                0
            };
            let public: u32 = if s.is_public {
                5
            } else {
                0
            };
            Some(
                SymbolHit {
                    score: n.saturating_add(exact).saturating_add(public),
                    path: path.to_owned(),
                    symbol: s.copy(),
                },
            )
        },
        None => None,
    }
}

impl Indexer {
    /// The symbols whose names fit a query best.
    pub fn search(&self, query: &str, kind: Option<SymKind>, limit: usize) -> (r: Vec<SymbolHit>)
        ensures
            views(r@) == best_hits(query@, kind, self@.files, limit as nat),
    {
        let ghost fv = views(self.files@);
        let mut hits: Vec<SymbolHit> = Vec::new();
        let mut i: usize = 0;
        assert(views(hits@) =~= Seq::<HitV>::empty());
        while i < self.files.len()
            invariant
                i <= self.files.len(),
                fv == views(self.files@),
                views(hits@) == all_hits(query@, kind, fv, i as nat),
            decreases self.files.len() - i,
        {
            let f = &self.files[i];
            assert(fv[i as int] == f@);
            let ghost base = views(hits@);
            let ghost sv = symbols_view(f.rec.symbols@);
            let mut j: usize = 0;
            assert(base + file_hits(query@, kind, f.path@, sv, 0) =~= base);
            while j < f.rec.symbols.len()
                invariant
                    j <= f.rec.symbols.len(),
                    sv == symbols_view(f.rec.symbols@),
                    views(hits@) == base + file_hits(query@, kind, f.path@, sv, j as nat),
                decreases f.rec.symbols.len() - j,
            {
                assert(sv[j as int] == f.rec.symbols@[j as int]@);
                if let Some(h) = symbol_hit(query, kind, f.path.as_str(), &f.rec.symbols[j]) {
                    let ghost b = hits@;
                    hits.push(h);
                    assert(views(hits@) =~= views(b).push(h@));
                }
                assert(views(hits@) =~= base + file_hits(query@, kind, f.path@, sv, (j + 1) as nat));
                j += 1;
            }
            i += 1;
        }
        let sorted = rank(hits);
        let ghost sv = views(sorted@);
        let mut out: Vec<SymbolHit> = Vec::new();
        assert(views(out@) =~= sv.take(0));
        for h in it: sorted
            invariant
                it.seq() == sorted@,
                sv == views(sorted@),
                views(out@) == sv.take(
                    if it.index() <= limit {
                        it.index() as int
                    } else {
                        limit as int
                    },
                ),
        {
            if out.len() < limit {
                let ghost b = out@;
                out.push(h);
                assert(views(out@) =~= views(b).push(h@));
                assert(sv.take(it.index() + 1) =~= sv.take(it.index() as int).push(h@));
            }
        }
        assert(views(out@) =~= best_hits(query@, kind, self@.files, limit as nat));
        out
    }
}

/// The symbols that were found, one on a line.
pub open spec fn hits_text(v: Seq<HitV>, n: nat) -> Seq<char>
    decreases n,
{
    if n == 0 || n > v.len() {
        Seq::empty()
    } else {
        let h = v[n - 1];
        hits_text(v, (n - 1) as nat) + (h.path + ":"@ + dec(h.symbol.line_start as nat) + " "@ + h.symbol.kind.name()
            + " "@ + h.symbol.signature + "\n"@)
    }
}

/// What the user of the search is told.
pub fn show_hits(query: &str, hits: &Vec<SymbolHit>) -> (r: String)
    ensures
        r@ == if hits@.len() == 0 {
            "No symbols match "@ + debug_text(query@)
        } else {
            hits_text(views(hits@), hits@.len())
        },
{
    if hits.len() == 0 {
        return "No symbols match ".to_owned().concat(quoted(query).as_str());
    }
    let ghost hv = views(hits@);
    let mut s = String::new();
    let mut i: usize = 0;
    assert(s@ =~= hits_text(hv, 0));
    while i < hits.len()
        invariant
            i <= hits.len(),
            hv == views(hits@),
            s@ == hits_text(hv, i as nat),
        decreases hits.len() - i,
    {
        assert(hv[i as int] == hits@[i as int]@);
        let h = &hits[i];
        let line = h.path.clone().concat(":").concat(dec_u64(h.symbol.line_start as u64).as_str()).concat(" ").concat(
            h.symbol.kind.label(),
        ).concat(" ").concat(h.symbol.signature.as_str()).concat("\n");
        s = s.concat(line.as_str());
        i += 1;
    }
    s
}

// ---------------------------------------------------------------- languages

/// A language and the number of its files.
#[derive(Debug)]
pub struct LanguageCount {
    pub name: String,
    pub count: usize,
}

impl View for LanguageCount {
    type V = (Seq<char>, usize);

    open spec fn view(&self) -> (Seq<char>, usize) {
        (self.name@, self.count)
    }
}

impl Ranked for LanguageCount {
    /// The more frequent first.
    open spec fn in_order(a: (Seq<char>, usize), b: (Seq<char>, usize)) -> bool {
        a.1 >= b.1
    }

    fn is_in_order(a: &LanguageCount, b: &LanguageCount) -> (r: bool) {
        a.count >= b.count
    }
}

pub open spec fn count_from(v: Seq<(Seq<char>, usize)>, name: Seq<char>, i: int) -> Option<int>
    decreases v.len() - i,
{
    if i < 0 || i >= v.len() {
        None
    } else if v[i].0 == name {
        Some(i)
    } else {
        count_from(v, name, i + 1)
    }
}

/// The numbers with one more file of a language.
pub open spec fn one_more(v: Seq<(Seq<char>, usize)>, name: Seq<char>) -> Seq<(Seq<char>, usize)> {
    match count_from(v, name, 0) {
        Some(i) => v.update(i, (name, at_most(v[i].1 as nat + 1, usize::MAX as nat) as usize)),
        None => v.push((name, 1)),
    }
}

/// How many of the first `n` files there are of each language that is code.
pub open spec fn languages_in(files: Seq<(Seq<char>, RecV)>, n: nat) -> Seq<(Seq<char>, usize)>
    decreases n,
{
    if n == 0 || n > files.len() {
        Seq::empty()
    } else {
        let p = languages_in(files, (n - 1) as nat);
        if files[n - 1].1.lang.codes() {
            one_more(p, files[n - 1].1.lang.title())
        } else {
            p
        }
    }
}

pub fn add_language(v: &mut Vec<LanguageCount>, name: &str)
    ensures
        views(final(v)@) == one_more(views(old(v)@), name@),
{
    let ghost lv = views(v@);
    let mut i: usize = 0;
    while i < v.len()
        invariant
            i <= v.len(),
            v@ == old(v)@,
            lv == views(v@),
            count_from(lv, name@, 0) == count_from(lv, name@, i as int),
        decreases v.len() - i,
    {
        assert(lv[i as int] == v@[i as int]@);
        if str_eq(v[i].name.as_str(), name) {
            let n: usize = v[i].count.saturating_add(1);
            let x = LanguageCount { name: name.to_owned(), count: n };
            v.set(i, x);
            assert(views(v@) =~= lv.update(i as int, x@));
            return;
        }
        i += 1;
    }
    let x = LanguageCount { name: name.to_owned(), count: 1 };
    v.push(x);
    assert(views(v@) =~= lv.push(x@));
}

impl Indexer {
    /// The languages by the number of their files.
    pub fn language_summary(&self) -> (r: Vec<LanguageCount>)
        ensures
            ({
                let all = languages_in(self@.files, self@.files.len());
                views(r@) == ranked::<LanguageCount>(all, all.len())
            }),
    {
        let ghost fv = views(self.files@);
        let mut v: Vec<LanguageCount> = Vec::new();
        let mut i: usize = 0;
        assert(views(v@) =~= Seq::<(Seq<char>, usize)>::empty());
        while i < self.files.len()
            invariant
                i <= self.files.len(),
                fv == views(self.files@),
                views(v@) == languages_in(fv, i as nat),
            decreases self.files.len() - i,
        {
            assert(fv[i as int] == self.files@[i as int]@);
            if self.files[i].rec.lang.is_code() {
                add_language(&mut v, self.files[i].rec.lang.name());
            }
            i += 1;
        }
        rank(v)
    }
}

// ---------------------------------------------------------------- what is found

/// A symbol of a file is looked for: it is of the sort that is asked for, where one is.
pub open spec fn of_sort(kind: Option<SymKind>, s: SymbolV) -> bool {
    kind is None || kind == Some(s.kind)
}

/// A hit is a symbol of a file that fits the query.
pub open spec fn is_hit(query: Seq<char>, kind: Option<SymKind>, files: Seq<(Seq<char>, RecV)>, h: HitV) -> bool {
    exists|i: int, j: int|
        0 <= i < files.len() && 0 <= j < files[i].1.symbols.len() && #[trigger] files[i].1.symbols[j] == h.symbol
            && files[i].0 == h.path && of_sort(kind, h.symbol) && fuzzy_fits(query, h.symbol.name)
            && fuzzy_smart_case(query, h.symbol.name) is Some
}

proof fn lemma_file_hits(query: Seq<char>, kind: Option<SymKind>, path: Seq<char>, v: Seq<SymbolV>, n: nat)
    requires
        n <= v.len(),
    ensures
        forall|j: int|
            0 <= j < n && hit_of(query, kind, path, #[trigger] v[j]) is Some ==> file_hits(
                query,
                kind,
                path,
                v,
                n,
            ).contains(hit_of(query, kind, path, v[j])->Some_0),
        forall|k: int|
            0 <= k < file_hits(query, kind, path, v, n).len() ==> exists|j: int|
                0 <= j < n && hit_of(query, kind, path, #[trigger] v[j]) == Some(
                    #[trigger] file_hits(query, kind, path, v, n)[k],
                ),
    decreases n,
{
    if n > 0 {
        lemma_file_hits(query, kind, path, v, (n - 1) as nat);
        let p = file_hits(query, kind, path, v, (n - 1) as nat);
        let r = file_hits(query, kind, path, v, n);
        assert forall|j: int| 0 <= j < n && hit_of(query, kind, path, #[trigger] v[j]) is Some implies r.contains(
            hit_of(query, kind, path, v[j])->Some_0,
        ) by {
            let h = hit_of(query, kind, path, v[j])->Some_0;
            if j < n - 1 {
                assert(p.contains(h));
                let k = choose|k: int| 0 <= k < p.len() && p[k] == h;
                assert(r[k] == h);
            } else {
                assert(r[p.len() as int] == h);
            }
        }
        assert forall|k: int| 0 <= k < r.len() implies exists|j: int|
            0 <= j < n && hit_of(query, kind, path, #[trigger] v[j]) == Some(#[trigger] r[k]) by {
            if k < p.len() {
                assert(r[k] == p[k]);
                let j = choose|j: int| 0 <= j < n - 1 && hit_of(query, kind, path, #[trigger] v[j]) == Some(p[k]);
                assert(hit_of(query, kind, path, v[j]) == Some(r[k]));
            } else {
                assert(hit_of(query, kind, path, v[n - 1]) == Some(r[k]));
            }
        }
    }
}

proof fn lemma_all_hits(query: Seq<char>, kind: Option<SymKind>, files: Seq<(Seq<char>, RecV)>, n: nat)
    requires
        n <= files.len(),
    ensures
        forall|i: int, j: int|
            0 <= i < n && 0 <= j < files[i].1.symbols.len() && hit_of(
                query,
                kind,
                files[i].0,
                #[trigger] files[i].1.symbols[j],
            ) is Some ==> all_hits(query, kind, files, n).contains(
                hit_of(query, kind, files[i].0, files[i].1.symbols[j])->Some_0,
            ),
        forall|k: int|
            0 <= k < all_hits(query, kind, files, n).len() ==> is_hit(
                query,
                kind,
                files,
                #[trigger] all_hits(query, kind, files, n)[k],
            ),
    decreases n,
{
    if n > 0 {
        lemma_all_hits(query, kind, files, (n - 1) as nat);
        let f = files[n - 1];
        lemma_file_hits(query, kind, f.0, f.1.symbols, f.1.symbols.len());
        let p = all_hits(query, kind, files, (n - 1) as nat);
        let q = file_hits(query, kind, f.0, f.1.symbols, f.1.symbols.len());
        let r = all_hits(query, kind, files, n);
        assert forall|i: int, j: int|
            0 <= i < n && 0 <= j < files[i].1.symbols.len() && hit_of(
                query,
                kind,
                files[i].0,
                #[trigger] files[i].1.symbols[j],
            ) is Some implies r.contains(hit_of(query, kind, files[i].0, files[i].1.symbols[j])->Some_0) by {
            let h = hit_of(query, kind, files[i].0, files[i].1.symbols[j])->Some_0;
            if i < n - 1 {
                assert(p.contains(h));
                let k = choose|k: int| 0 <= k < p.len() && p[k] == h;
                assert(r[k] == h);
            } else {
                assert(hit_of(query, kind, f.0, f.1.symbols[j]) is Some);
                assert(q.contains(h));
                let k = choose|k: int| 0 <= k < q.len() && q[k] == h;
                assert(r[p.len() + k] == h);
            }
        }
        assert forall|k: int| 0 <= k < r.len() implies is_hit(query, kind, files, #[trigger] r[k]) by {
            if k < p.len() {
                assert(r[k] == p[k]);
            } else {
                assert(r[k] == q[k - p.len()]);
                let j = choose|j: int|
                    0 <= j < f.1.symbols.len() && hit_of(query, kind, f.0, #[trigger] f.1.symbols[j]) == Some(
                        q[k - p.len()],
                    );
                assert(files[n - 1].1.symbols[j] == r[k].symbol);
            }
        }
    }
}

proof fn lemma_hits_orderly()
    ensures
        orderly::<SymbolHit>(),
{
    assert forall|a: HitV, b: HitV| #[trigger] SymbolHit::in_order(a, b) || SymbolHit::in_order(b, a) by {
        lemma_before_total(a.path, b.path);
        if before(a.path, b.path) && before(b.path, a.path) {
            lemma_before_transitive(a.path, b.path, a.path);
            lemma_before_irreflexive(a.path);
        }
    }
    assert forall|a: HitV, b: HitV, c: HitV|
        #[trigger] SymbolHit::in_order(a, b) && #[trigger] SymbolHit::in_order(b, c) implies SymbolHit::in_order(a, c) by {
        if a.score == b.score && b.score == c.score && before(c.path, a.path) {
            lemma_before_total(a.path, b.path);
            lemma_before_total(b.path, c.path);
            if a.path == b.path {
            } else {
                lemma_before_transitive(c.path, a.path, b.path);
            }
        }
    }
}

/// A search gives the best of the symbols that fit, the better before the others. What it gives
/// are symbols of the files, of the sort that is asked for. A symbol that fits is left out only
/// where as many as asked for are given, none of which scores less. A name that is the query,
/// whatever its case, scores a thousand more, a public symbol five.
pub proof fn law_a_search_gives_the_best(
    query: Seq<char>,
    kind: Option<SymKind>,
    files: Seq<(Seq<char>, RecV)>,
    limit: nat,
    i: int,
    j: int,
)
    requires
        0 <= i < files.len(),
        0 <= j < files[i].1.symbols.len(),
        of_sort(kind, files[i].1.symbols[j]),
        fuzzy_fits(query, files[i].1.symbols[j].name),
        fuzzy_smart_case(query, files[i].1.symbols[j].name) matches Some(n) && n <= u32::MAX - 1005,
    ensures
        ({
            let r = best_hits(query, kind, files, limit);
            let s = files[i].1.symbols[j];
            let score = fuzzy_smart_case(query, s.name)->Some_0 + (if lowered(s.name) == lowered(query) {
                1000int
            } else {
                0
            }) + (if s.is_public {
                5int
            } else {
                0
            });
            let hit = HitV { score: score as u32, path: files[i].0, symbol: s };
            &&& r.len() <= limit
            &&& r.contains(hit) || (r.len() == limit && forall|k: int|
                0 <= k < r.len() ==> (#[trigger] r[k]).score >= score)
            &&& forall|k: int| 0 <= k < r.len() ==> is_hit(query, kind, files, #[trigger] r[k])
            &&& forall|a: int, b: int| 0 <= a < b < r.len() ==> (#[trigger] r[a]).score >= (#[trigger] r[b]).score
        }),
{
    broadcast use vstd::seq_lib::group_to_multiset_ensures;

    let s = files[i].1.symbols[j];
    let all = all_hits(query, kind, files, files.len());
    let sorted = ranked::<SymbolHit>(all, all.len());
    let r = best_hits(query, kind, files, limit);
    lemma_all_hits(query, kind, files, files.len());
    law_ranking_keeps_every_value::<SymbolHit>(all, all.len());
    lemma_hits_orderly();
    law_ranking_sorts::<SymbolHit>(all, all.len());
    lemma_ranked_len::<SymbolHit>(all, all.len());
    assert(all.take(all.len() as int) =~= all);
    let hit = hit_of(query, kind, files[i].0, s)->Some_0;
    assert(hit_of(query, kind, files[i].0, files[i].1.symbols[j]) is Some);
    assert(all.contains(hit));
    assert(sorted.to_multiset().count(hit) > 0);
    assert(sorted.contains(hit));
    let at = choose|k: int| 0 <= k < sorted.len() && sorted[k] == hit;
    assert forall|k: int| 0 <= k < sorted.len() implies is_hit(query, kind, files, #[trigger] sorted[k]) by {
        assert(sorted.contains(sorted[k]));
        assert(all.to_multiset().count(sorted[k]) > 0);
        assert(all.contains(sorted[k]));
        let m = choose|m: int| 0 <= m < all.len() && all[m] == sorted[k];
        assert(is_hit(query, kind, files, all[m]));
    }
    assert forall|a: int, b: int| 0 <= a < b < sorted.len() implies (#[trigger] sorted[a]).score >= (
    #[trigger] sorted[b]).score by {
        assert(SymbolHit::in_order(sorted[a], sorted[b]));
    }
    assert forall|k: int| 0 <= k < r.len() implies r[k] == sorted[k] by {}
    if at < r.len() {
        assert(r[at] == hit);
    } else {
        assert forall|k: int| 0 <= k < r.len() implies (#[trigger] r[k]).score >= hit.score by {
            assert(sorted[k].score >= sorted[at].score);
        }
    }
}

/// What was put into an index under a path is found there, and nothing else changes; what was
/// taken out is not found, and nothing else is gone.
pub proof fn law_the_index_holds_what_was_put(
    files: Seq<(Seq<char>, RecV)>,
    path: Seq<char>,
    rec: RecV,
    other: Seq<char>,
    gone: Seq<Seq<char>>,
)
    requires
        ascending(files),
    ensures
        rec_of(with_file(files, path, rec), path) == Some(rec),
        other != path ==> rec_of(with_file(files, path, rec), other) == rec_of(files, other),
        gone.contains(other) ==> rec_of(without_files(files, gone, files.len()), other) is None,
        !gone.contains(other) ==> rec_of(without_files(files, gone, files.len()), other) == rec_of(files, other),
{
    let after = with_file(files, path, rec);
    lemma_found(files, path);
    lemma_found(after, path);
    lemma_place_for(files, path, 0);
    match file_from(files, path, 0) {
        Some(i) => {
            assert(after[i] == (path, rec));
            let q = file_from(after, path, 0)->Some_0;
            if q < i {
                assert(after[q] == files[q]);
            } else if i < q {
                assert(after[i].0 != path);
            }
            if other != path {
                lemma_same_lookup(files, after, other, 0);
            }
        },
        None => {
            let k = place_for(files, path, 0);
            assert(after[k] == (path, rec));
            let q = file_from(after, path, 0)->Some_0;
            if q < k {
                assert(after[q] == files[q]);
            } else if k < q {
                assert(after[k].0 != path);
            }
            if other != path {
                lemma_inserted_lookup(files, k, (path, rec), other, 0);
            }
        },
    }
    lemma_without_lookup(files, gone, other, files.len());
    assert(files.take(files.len() as int) =~= files);
}

proof fn lemma_same_lookup(a: Seq<(Seq<char>, RecV)>, b: Seq<(Seq<char>, RecV)>, path: Seq<char>, i: int)
    requires
        0 <= i <= a.len(),
        a.len() == b.len(),
        forall|k: int| 0 <= k < a.len() ==> #[trigger] a[k] == b[k] || (a[k].0 != path && b[k].0 != path),
    ensures
        file_from(a, path, i) == file_from(b, path, i),
        file_from(a, path, i) matches Some(k) ==> 0 <= k < a.len() && a[k] == b[k],
    decreases a.len() - i,
{
    if i < a.len() {
        assert(a[i] == b[i] || (a[i].0 != path && b[i].0 != path));
        lemma_same_lookup(a, b, path, i + 1);
    }
}

proof fn lemma_inserted_lookup(
    files: Seq<(Seq<char>, RecV)>,
    k: int,
    e: (Seq<char>, RecV),
    path: Seq<char>,
    i: int,
)
    requires
        0 <= k <= files.len(),
        0 <= i <= files.len(),
        e.0 != path,
    ensures
        rec_of(files.insert(k, e), path) == rec_of(files, path),
{
    let b = files.insert(k, e);
    lemma_found(files, path);
    lemma_found(b, path);
    if let Some(m) = file_from(files, path, 0) {
        let n = if m < k {
            m
        } else {
            m + 1
        };
        assert(b[n] == files[m]);
        let q = file_from(b, path, 0)->Some_0;
        let p = if q < k {
            q
        } else {
            q - 1
        };
        assert(q != k);
        assert(b[q] == files[p]);
        if p < m {
            assert(files[p].0 != path);
        } else if m < p {
            assert(b[n].0 != path);
        }
    } else {
        if let Some(q) = file_from(b, path, 0) {
            assert(q != k);
            let p = if q < k {
                q
            } else {
                q - 1
            };
            assert(b[q] == files[p]);
            assert(files[p].0 != path);
        }
    }
}

proof fn lemma_found(files: Seq<(Seq<char>, RecV)>, path: Seq<char>)
    ensures
        match file_from(files, path, 0) {
            Some(k) => 0 <= k < files.len() && files[k].0 == path && forall|j: int|
                0 <= j < k ==> (#[trigger] files[j]).0 != path,
            None => forall|j: int| 0 <= j < files.len() ==> (#[trigger] files[j]).0 != path,
        },
{
    lemma_found_from(files, path, 0);
}

proof fn lemma_found_from(files: Seq<(Seq<char>, RecV)>, path: Seq<char>, i: int)
    requires
        0 <= i <= files.len(),
    ensures
        match file_from(files, path, i) {
            Some(k) => i <= k < files.len() && files[k].0 == path && forall|j: int|
                i <= j < k ==> (#[trigger] files[j]).0 != path,
            None => forall|j: int| i <= j < files.len() ==> (#[trigger] files[j]).0 != path,
        },
    decreases files.len() - i,
{
    if i < files.len() && files[i].0 != path {
        lemma_found_from(files, path, i + 1);
    }
}

proof fn lemma_without_lookup(files: Seq<(Seq<char>, RecV)>, gone: Seq<Seq<char>>, path: Seq<char>, n: nat)
    requires
        n <= files.len(),
    ensures
        gone.contains(path) ==> rec_of(without_files(files, gone, n), path) is None,
        !gone.contains(path) ==> rec_of(without_files(files, gone, n), path) == rec_of(files.take(n as int), path),
    decreases n,
{
    if n > 0 {
        lemma_without_lookup(files, gone, path, (n - 1) as nat);
        let a = without_files(files, gone, (n - 1) as nat);
        let b = files.take(n - 1);
        let e = files[n - 1];
        assert(files.take(n as int) =~= b.push(e));
        lemma_pushed_lookup(a, e, path);
        lemma_pushed_lookup(b, e, path);
    } else {
        assert(files.take(0) =~= Seq::<(Seq<char>, RecV)>::empty());
    }
}

proof fn lemma_pushed_lookup(v: Seq<(Seq<char>, RecV)>, e: (Seq<char>, RecV), path: Seq<char>)
    ensures
        rec_of(v.push(e), path) == (if rec_of(v, path) is Some {
            rec_of(v, path)
        } else if e.0 == path {
            Some(e.1)
        } else {
            None
        }),
{
    lemma_found(v, path);
    lemma_found(v.push(e), path);
    let b = v.push(e);
    if let Some(k) = file_from(v, path, 0) {
        assert(b[k] == v[k]);
        let q = file_from(b, path, 0)->Some_0;
        if q < k {
            assert(b[q] == v[q]);
        } else if k < q {
            assert(b[k].0 != path);
        }
    } else {
        assert(b[v.len() as int] == e);
        if let Some(q) = file_from(b, path, 0) {
            if q < v.len() {
                assert(b[q] == v[q]);
            }
        }
    }
}

/// The names that are kept of a file are its most frequent ones, the more frequent first; as
/// many as there are, up to two thousand.
pub proof fn law_the_most_frequent_names_are_kept(refs: Seq<(Seq<char>, u16)>, x: (Seq<char>, u16))
    requires
        refs.contains(x),
    ensures
        ({
            let r = frequent(refs);
            &&& r.len() == (if refs.len() <= 2000 {
                refs.len()
            } else {
                2000
            })
            &&& r.contains(x) || forall|k: int| 0 <= k < r.len() ==> (#[trigger] r[k]).1 >= x.1
            &&& forall|a: int, b: int| 0 <= a < b < r.len() ==> (#[trigger] r[a]).1 >= (#[trigger] r[b]).1
            &&& forall|k: int| 0 <= k < r.len() ==> refs.contains(#[trigger] r[k])
        }),
{
    broadcast use vstd::seq_lib::group_to_multiset_ensures;

    let n = refs.len();
    let sorted = ranked::<Mention>(refs, n);
    let r = frequent(refs);
    law_ranking_keeps_every_value::<Mention>(refs, n);
    law_ranking_sorts::<Mention>(refs, n);
    lemma_ranked_len::<Mention>(refs, n);
    assert(refs.take(n as int) =~= refs);
    assert(sorted.to_multiset().count(x) > 0);
    assert(sorted.contains(x));
    let at = choose|k: int| 0 <= k < sorted.len() && sorted[k] == x;
    assert forall|a: int, b: int| 0 <= a < b < sorted.len() implies (#[trigger] sorted[a]).1 >= (
    #[trigger] sorted[b]).1 by {
        assert(Mention::in_order(sorted[a], sorted[b]));
    }
    assert forall|k: int| 0 <= k < r.len() implies refs.contains(#[trigger] r[k]) by {
        assert(r[k] == sorted[k]);
        assert(sorted.contains(sorted[k]));
        assert(refs.to_multiset().count(sorted[k]) > 0);
    }
    if at < r.len() {
        assert(r[at] == x);
    } else {
        assert forall|k: int| 0 <= k < r.len() implies (#[trigger] r[k]).1 >= x.1 by {
            assert(sorted[k].1 >= sorted[at].1);
        }
    }
}

/// A file has to be read exactly where nothing is known of it, or where its time or its size is
/// another than the one that is known; one whose bytes are those that were read before keeps
/// what was found in it.
pub proof fn law_a_changed_file_is_read(
    files: Seq<(Seq<char>, RecV)>,
    path: Seq<char>,
    i: int,
    mtime: u64,
    size: u64,
    lang: Language,
    bytes: Seq<u8>,
)
    requires
        0 <= i < files.len(),
        files[i].0 == path,
        ascending(files),
    ensures
        is_stale(files, path, mtime, size) <==> files[i].1.mtime_ns != mtime || files[i].1.size != size,
        files[i].1.hash == blake3_digest(bytes) ==> record_of(Some(files[i].1), mtime, size, lang, bytes).symbols
            == files[i].1.symbols && record_of(Some(files[i].1), mtime, size, lang, bytes).refs == files[i].1.refs,
        files[i].1.hash != blake3_digest(bytes) ==> record_of(Some(files[i].1), mtime, size, lang, bytes) == record_of(
            None,
            mtime,
            size,
            lang,
            bytes,
        ),
        record_of(Some(files[i].1), mtime, size, lang, bytes).mtime_ns == mtime,
        record_of(Some(files[i].1), mtime, size, lang, bytes).size == size,
        record_of(None, mtime, size, lang, bytes).symbols == parsed_file(lang, bytes).symbols,
        record_of(None, mtime, size, lang, bytes).hash == blake3_digest(bytes),
{
    lemma_found(files, path);
    let k = file_from(files, path, 0)->Some_0;
    if k < i {
        assert(before(files[k].0, files[i].0));
        lemma_before_irreflexive(path);
    } else if i < k {
        assert(files[i].0 != path);
    }
}

/// The files that are gone are those of the index that were not seen, in their order.
pub proof fn law_files_not_seen_are_gone(files: Seq<(Seq<char>, RecV)>, seen: Seq<Seq<char>>, n: nat, p: Seq<char>)
    requires
        n <= files.len(),
    ensures
        gone_of(files, seen, n).contains(p) <==> !seen.contains(p) && exists|i: int|
            0 <= i < n && (#[trigger] files[i]).0 == p,
    decreases n,
{
    if n > 0 {
        law_files_not_seen_are_gone(files, seen, (n - 1) as nat, p);
        let b = gone_of(files, seen, (n - 1) as nat);
        let r = gone_of(files, seen, n);
        if !seen.contains(files[n - 1].0) {
            assert(r[b.len() as int] == files[n - 1].0);
            if b.contains(p) {
                let k = choose|k: int| 0 <= k < b.len() && b[k] == p;
                assert(r[k] == p);
            }
            if r.contains(p) && p != files[n - 1].0 {
                let k = choose|k: int| 0 <= k < r.len() && r[k] == p;
                assert(b[k] == p);
            }
        }
        if exists|i: int| 0 <= i < n && (#[trigger] files[i]).0 == p {
            let i = choose|i: int| 0 <= i < n && (#[trigger] files[i]).0 == p;
            if i < n - 1 {
                assert(files[i].0 == p);
            }
        }
    }
}

/// Every symbol that was found is told on a line, with its file and the line that it begins on.
pub proof fn law_every_hit_is_told(v: Seq<HitV>, n: nat, i: int)
    requires
        0 <= i < n <= v.len(),
    ensures
        holds(
            hits_text(v, n),
            v[i].path + ":"@ + dec(v[i].symbol.line_start as nat) + " "@ + v[i].symbol.kind.name() + " "@
                + v[i].symbol.signature + "\n"@,
        ),
{
    let p = lemma_hit_is_there(v, n, i);
}

proof fn lemma_hit_is_there(v: Seq<HitV>, n: nat, i: int) -> (p: int)
    requires
        0 <= i < n <= v.len(),
    ensures
        at(
            hits_text(v, n),
            p,
            v[i].path + ":"@ + dec(v[i].symbol.line_start as nat) + " "@ + v[i].symbol.kind.name() + " "@
                + v[i].symbol.signature + "\n"@,
        ),
    decreases n,
{
    let t = hits_text(v, n);
    let b = hits_text(v, (n - 1) as nat);
    let l = v[i].path + ":"@ + dec(v[i].symbol.line_start as nat) + " "@ + v[i].symbol.kind.name() + " "@
        + v[i].symbol.signature + "\n"@;
    if i == n - 1 {
        let p = b.len() as int;
        assert(t.subrange(p, p + l.len()) =~= l);
        p
    } else {
        let p = lemma_hit_is_there(v, (n - 1) as nat, i);
        assert(t.subrange(p, p + l.len()) =~= b.subrange(p, p + l.len()));
        p
    }
}

/// How many files of a language were counted.
pub open spec fn files_counted(v: Seq<(Seq<char>, usize)>, name: Seq<char>) -> nat {
    match count_from(v, name, 0) {
        Some(i) => v[i].1 as nat,
        None => 0,
    }
}

proof fn lemma_count_from(v: Seq<(Seq<char>, usize)>, name: Seq<char>, i: int)
    requires
        0 <= i,
    ensures
        match count_from(v, name, i) {
            Some(k) => i <= k < v.len() && v[k].0 == name && forall|j: int|
                i <= j < k ==> (#[trigger] v[j]).0 != name,
            None => forall|j: int| i <= j < v.len() ==> (#[trigger] v[j]).0 != name,
        },
    decreases v.len() - i,
{
    if i < v.len() && v[i].0 != name {
        lemma_count_from(v, name, i + 1);
    }
}

/// One more file of a language is counted for that language, and for no other.
pub proof fn law_one_more_is_counted(v: Seq<(Seq<char>, usize)>, name: Seq<char>, other: Seq<char>)
    requires
        files_counted(v, name) < usize::MAX,
    ensures
        files_counted(one_more(v, name), name) == files_counted(v, name) + 1,
        other != name ==> files_counted(one_more(v, name), other) == files_counted(v, other),
{
    let w = one_more(v, name);
    lemma_count_from(v, name, 0);
    lemma_count_from(v, other, 0);
    lemma_count_from(w, name, 0);
    lemma_count_from(w, other, 0);
    match count_from(v, name, 0) {
        Some(k) => {
            assert forall|j: int| 0 <= j < v.len() implies (#[trigger] w[j]).0 == v[j].0 by {}
            assert(w[k].0 == name);
            if let Some(i) = count_from(v, other, 0) {
                assert(w[i].0 == other);
            }
            if let Some(i) = count_from(w, other, 0) {
                assert(v[i].0 == other);
            }
            if let Some(i) = count_from(w, name, 0) {
                assert(v[i].0 == name);
            }
        },
        None => {
            assert forall|j: int| 0 <= j < v.len() implies (#[trigger] w[j]) == v[j] by {}
            assert(w[v.len() as int] == (name, 1usize));
            if let Some(i) = count_from(v, other, 0) {
                assert(w[i].0 == other);
            }
        },
    }
}

/// The files of each language that is code are counted: as many as there are.
pub proof fn law_files_are_counted_by_language(files: Seq<(Seq<char>, RecV)>, n: nat, title: Seq<char>)
    requires
        n <= files.len(),
        n < usize::MAX,
    ensures
        files_counted(languages_in(files, n), title) == files.take(n as int).filter(
            |f: (Seq<char>, RecV)| f.1.lang.codes() && f.1.lang.title() == title,
        ).len(),
        files_counted(languages_in(files, n), title) <= n,
    decreases n,
{
    reveal(Seq::filter);
    let p = |f: (Seq<char>, RecV)| f.1.lang.codes() && f.1.lang.title() == title;
    if n > 0 {
        law_files_are_counted_by_language(files, (n - 1) as nat, title);
        let t = files.take(n as int);
        assert(t.drop_last() =~= files.take(n - 1));
        assert(t.last() == files[n - 1]);
        let b = languages_in(files, (n - 1) as nat);
        let l = files[n - 1].1.lang;
        if l.codes() {
            lemma_counted_at_most(files, (n - 1) as nat, l.title());
            law_one_more_is_counted(b, l.title(), title);
        }
    } else {
        assert(files.take(0).len() == 0);
    }
}

proof fn lemma_counted_at_most(files: Seq<(Seq<char>, RecV)>, n: nat, title: Seq<char>)
    requires
        n <= files.len(),
        n < usize::MAX,
    ensures
        files_counted(languages_in(files, n), title) <= n,
    decreases n,
{
    if n > 0 {
        lemma_counted_at_most(files, (n - 1) as nat, title);
        let l = files[n - 1].1.lang;
        if l.codes() {
            lemma_counted_at_most(files, (n - 1) as nat, l.title());
            law_one_more_is_counted(languages_in(files, (n - 1) as nat), l.title(), title);
        }
    }
}

} // verus!
