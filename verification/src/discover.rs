//! Where the engine binary and the model files are looked for, and what is made of
//! the files that are found.

use crate::config::{Engine, EngineV, all_expanded};
use crate::decimal::head_of;
use crate::facts::wide_product;
use crate::json::{Json, JsonV, NumberV, jsons, lemma_view, parsed};
use crate::lang::texts;
use crate::message::{at_most, byte_len, bytes_in, opt_string};
use crate::pathname::{base_name, file_name, is_same_path, join_path, key_of, path_key, same_path, under};
use crate::paths::{Surroundings, SurroundingsV, expand_path, expanded};
use crate::rank::{Ranked, law_ranking_keeps_every_value, rank, ranked, views};
use crate::text::{
    all_digits, at, before, begins, char_from, chars_of, contains, ends, ends_with, find, find_char,
    find_from, holds, is_at, is_before, is_digit, last_char, lemma_char_from, lemma_find_from,
    lowered, number, parse_number, replace_chars, rfind_char, slice, starts_with, str_eq, string_of,
    string_of_range, strings, strip_prefix, strip_suffix, to_lowered, with_char, without_prefix,
    without_suffix,
};
use vstd::prelude::*;
use vstd::string::*;

verus! {

/// What the build script leaves behind.
#[derive(Debug)]
pub struct BuildInfo {
    pub dir: String,
    pub pin: String,
    pub commit: String,
    pub cuda_path: String,
    pub cuda_arch: String,
    pub server: String,
    pub built_at: String,
}

/// What is known of the places of the engine binary.
#[derive(Debug)]
pub struct ServerPlaces {
    /// The binary that the configuration names.
    pub configured: Option<String>,
    /// The configuration prefers a prebuilt engine.
    pub prefer_prebuilt: bool,
    /// The directory of prebuilt engines.
    pub prebuilt_dir: String,
    /// The binary that the latest build made.
    pub built: Option<String>,
    /// The source directory.
    pub source_dir: String,
    /// The directories of the search path.
    pub path_dirs: Vec<String>,
    /// Further places of the platform.
    pub platform: Vec<String>,
    /// The name of the binary.
    pub exe: String,
    pub windows: bool,
}

/// None or one text, as a list.
pub open spec fn maybe(s: Option<Seq<char>>) -> Seq<Seq<char>> {
    match s {
        Some(x) => seq![x],
        None => Seq::empty(),
    }
}

/// A file under each of the directories.
pub open spec fn under_each(dirs: Seq<Seq<char>>, file: Seq<char>, win: bool) -> Seq<Seq<char>> {
    Seq::new(dirs.len(), |i: int| under(dirs[i], file, win))
}

/// The places of the engine binary, in the order in which they are tried: the
/// configuration's, the prebuilt one where it is preferred, the latest build's, the
/// build directories of the source, the prebuilt one, the search path, the
/// platform's.
pub open spec fn candidates(p: ServerPlaces) -> Seq<Seq<char>> {
    let prebuilt = under(p.prebuilt_dir@, p.exe@, p.windows);
    maybe(opt_string(p.configured)) + (if p.prefer_prebuilt {
        seq![prebuilt]
    } else {
        Seq::empty()
    }) + maybe(opt_string(p.built)) + seq![
        under(under(p.source_dir@, "build/bin/Release"@, p.windows), p.exe@, p.windows),
        under(under(p.source_dir@, "build/bin"@, p.windows), p.exe@, p.windows),
        under(under(p.source_dir@, "build"@, p.windows), p.exe@, p.windows),
        prebuilt,
    ] + under_each(strings(p.path_dirs@), p.exe@, p.windows) + strings(p.platform@)
}

fn push_text(v: &mut Vec<String>, s: String)
    ensures
        strings(final(v)@) == strings(old(v)@).push(s@),
{
    v.push(s);
    assert(strings(v@) =~= strings(old(v)@).push(s@));
}

/// The places of the engine binary, in the order in which they are tried.
pub fn server_candidates(p: &ServerPlaces) -> (r: Vec<String>)
    ensures
        strings(r@) == candidates(*p),
{
    let mut v: Vec<String> = Vec::new();
    assert(strings(v@) =~= Seq::empty());
    let exe = p.exe.as_str();
    if let Some(c) = &p.configured {
        push_text(&mut v, c.clone());
    }
    if p.prefer_prebuilt {
        push_text(&mut v, join_path(p.prebuilt_dir.as_str(), exe, p.windows));
    }
    if let Some(b) = &p.built {
        push_text(&mut v, b.clone());
    }
    let src = p.source_dir.as_str();
    push_text(&mut v, join_path(join_path(src, "build/bin/Release", p.windows).as_str(), exe, p.windows));
    push_text(&mut v, join_path(join_path(src, "build/bin", p.windows).as_str(), exe, p.windows));
    push_text(&mut v, join_path(join_path(src, "build", p.windows).as_str(), exe, p.windows));
    push_text(&mut v, join_path(p.prebuilt_dir.as_str(), exe, p.windows));
    let ghost head = strings(v@);
    let ghost dirs = under_each(strings(p.path_dirs@), p.exe@, p.windows);
    let mut i: usize = 0;
    assert(strings(v@) =~= head + dirs.take(0));
    while i < p.path_dirs.len()
        invariant
            i <= p.path_dirs.len(),
            exe@ == p.exe@,
            dirs == under_each(strings(p.path_dirs@), p.exe@, p.windows),
            strings(v@) == head + dirs.take(i as int),
        decreases p.path_dirs.len() - i,
    {
        let ghost b = strings(v@);
        push_text(&mut v, join_path(p.path_dirs[i].as_str(), exe, p.windows));
        assert(dirs[i as int] == under(p.path_dirs@[i as int]@, p.exe@, p.windows));
        assert(b.push(dirs[i as int]) =~= head + dirs.take(i + 1));
        i += 1;
    }
    assert(dirs.take(dirs.len() as int) =~= dirs);
    let ghost mid = strings(v@);
    let ghost plat = strings(p.platform@);
    let mut j: usize = 0;
    assert(strings(v@) =~= mid + plat.take(0));
    while j < p.platform.len()
        invariant
            j <= p.platform.len(),
            plat == strings(p.platform@),
            strings(v@) == mid + plat.take(j as int),
        decreases p.platform.len() - j,
    {
        let ghost b = strings(v@);
        push_text(&mut v, p.platform[j].clone());
        assert(b.push(plat[j as int]) =~= mid + plat.take(j + 1));
        j += 1;
    }
    assert(plat.take(plat.len() as int) =~= plat);
    assert(strings(v@) =~= candidates(*p));
    v
}

// ---------------------------------------------------------------- models

#[derive(Debug, Clone, Copy, PartialEq, Eq, Structural)]
pub enum ModelOrigin {
    LmStudio,
    Ollama,
    Local,
}

impl ModelOrigin {
    pub open spec fn name(self) -> Seq<char> {
        match self {
            ModelOrigin::LmStudio => "lmstudio"@,
            ModelOrigin::Ollama => "ollama"@,
            ModelOrigin::Local => "local"@,
        }
    }

    /// The name of the origin.
    pub fn to_string(self) -> (r: String)
        ensures
            r@ == self.name(),
    {
        match self {
            ModelOrigin::LmStudio => "lmstudio".to_owned(),
            ModelOrigin::Ollama => "ollama".to_owned(),
            ModelOrigin::Local => "local".to_owned(),
        }
    }
}

#[derive(Debug)]
pub struct DiscoveredModel {
    pub path: String,
    pub size: u64,
    pub display_name: String,
    pub alias: String,
    pub origin: ModelOrigin,
}

pub struct ModelV {
    pub path: Seq<char>,
    pub size: u64,
    pub display_name: Seq<char>,
    pub alias: Seq<char>,
    pub origin: ModelOrigin,
}

impl View for DiscoveredModel {
    type V = ModelV;

    open spec fn view(&self) -> ModelV {
        ModelV {
            path: self.path@,
            size: self.size,
            display_name: self.display_name@,
            alias: self.alias@,
            origin: self.origin,
        }
    }
}

pub open spec fn models_view(v: Seq<DiscoveredModel>) -> Seq<ModelV> {
    Seq::new(v.len(), |i: int| v[i]@)
}

/// A model of that path is in the list.
pub open spec fn has_path(ms: Seq<ModelV>, path: Seq<char>, windows: bool) -> bool {
    exists|i: int| 0 <= i < ms.len() && same_path((#[trigger] ms[i]).path, path, windows)
}

/// The list with a model at its end, unless one of its path is there.
pub open spec fn with_model(ms: Seq<ModelV>, m: ModelV, windows: bool) -> Seq<ModelV> {
    if has_path(ms, m.path, windows) {
        ms
    } else {
        ms.push(m)
    }
}

/// The list with the first `n` of other models.
pub open spec fn with_models(ms: Seq<ModelV>, more: Seq<ModelV>, n: nat, windows: bool) -> Seq<ModelV>
    decreases n,
{
    if n == 0 || n > more.len() {
        ms
    } else {
        with_model(with_models(ms, more, (n - 1) as nat, windows), more[n - 1], windows)
    }
}

/// No path occurs twice.
pub open spec fn paths_distinct(ms: Seq<ModelV>, windows: bool) -> bool {
    forall|i: int, j: int|
        0 <= i < j < ms.len() ==> !same_path((#[trigger] ms[i]).path, (#[trigger] ms[j]).path, windows)
}

/// A list into which models are put keeps its paths apart.
pub proof fn law_paths_stay_distinct(ms: Seq<ModelV>, more: Seq<ModelV>, n: nat, windows: bool)
    requires
        paths_distinct(ms, windows),
    ensures
        paths_distinct(with_models(ms, more, n, windows), windows),
    decreases n,
{
    if n > 0 && n <= more.len() {
        law_paths_stay_distinct(ms, more, (n - 1) as nat, windows);
    }
}

fn knows_path(ms: &Vec<DiscoveredModel>, path: &str, windows: bool) -> (r: bool)
    ensures
        r == has_path(models_view(ms@), path@, windows),
{
    let mut i: usize = 0;
    let ghost mv = models_view(ms@);
    while i < ms.len()
        invariant
            i <= ms.len(),
            mv == models_view(ms@),
            forall|k: int| 0 <= k < i ==> !same_path((#[trigger] mv[k]).path, path@, windows),
        decreases ms.len() - i,
    {
        assert(mv[i as int] == ms@[i as int]@);
        if is_same_path(ms[i].path.as_str(), path, windows) {
            return true;
        }
        i += 1;
    }
    false
}

/// Puts a model at the end of a list, unless one of its path is there.
pub fn add_model(ms: &mut Vec<DiscoveredModel>, m: DiscoveredModel, windows: bool)
    ensures
        models_view(final(ms)@) == with_model(models_view(old(ms)@), m@, windows),
{
    if !knows_path(ms, m.path.as_str(), windows) {
        ms.push(m);
        assert(models_view(ms@) =~= models_view(old(ms)@).push(m@));
    }
}

/// Puts models at the end of a list, those left out whose path is there.
pub fn add_models(ms: &mut Vec<DiscoveredModel>, more: Vec<DiscoveredModel>, windows: bool)
    ensures
        models_view(final(ms)@) == with_models(models_view(old(ms)@), models_view(more@), more@.len(), windows),
{
    let ghost mv = models_view(more@);
    let ghost start = models_view(ms@);
    for m in it: more
        invariant
            it.seq() == more@,
            mv == models_view(more@),
            models_view(ms@) == with_models(start, mv, it.index() as nat, windows),
    {
        assert(mv[it.index() as int] == m@);
        add_model(ms, m, windows);
    }
}

/// The tag of a manifest of the Ollama registry: its path without the registry's
/// prefix, with a colon for the last slash.
pub open spec fn tag_of(rel: Seq<char>) -> Seq<char> {
    let r = with_char(rel, seq!['\\'], '/');
    let name = if begins(r, "registry.ollama.ai/library/"@) {
        r.skip("registry.ollama.ai/library/"@.len() as int)
    } else {
        without_prefix(r, "registry.ollama.ai/"@)
    };
    match last_char(name, '/') {
        Some(k) => name.take(k) + ":"@ + name.skip(k + 1),
        None => name,
    }
}

pub fn ollama_tag(rel: &str) -> (r: String)
    ensures
        r@ == tag_of(rel@),
{
    let mut slash: Vec<char> = Vec::new();
    slash.push('\\');
    assert(slash@ =~= seq!['\\']);
    let cs = replace_chars(&chars_of(rel), &slash, '/');
    let p = chars_of("registry.ollama.ai/library/");
    let name = if is_at(&cs, 0, &p) {
        let n = slice(&cs, p.len(), cs.len());
        assert(n@ =~= cs@.skip(p@.len() as int));
        n
    } else {
        strip_prefix(&cs, "registry.ollama.ai/")
    };
    match rfind_char(&name, '/') {
        Some(k) => {
            let a = string_of_range(&name, 0, k);
            let b = string_of_range(&name, k + 1, name.len());
            assert(a@ =~= name@.take(k as int));
            assert(b@ =~= name@.skip(k + 1));
            a.concat(":").concat(b.as_str())
        },
        None => string_of(&name),
    }
}

/// A layer of a manifest is that of the model: its media type says so.
pub open spec fn is_model_layer(l: JsonV) -> bool {
    match l.get_str("mediaType"@) {
        Some(m) => holds(m, "model"@),
        None => false,
    }
}

/// The place of the first layer from `i` on that is the model's.
pub open spec fn model_layer_from(ls: Seq<JsonV>, i: int) -> Option<int>
    decreases ls.len() - i,
{
    if i < 0 || i >= ls.len() {
        None
    } else if is_model_layer(ls[i]) {
        Some(i)
    } else {
        model_layer_from(ls, i + 1)
    }
}

/// The file name of the model's blob, and the size that the manifest states.
pub open spec fn blob_of(manifest: JsonV) -> Option<(Seq<char>, u64)> {
    match manifest.get("layers"@) {
        Some(JsonV::Array(ls)) => match model_layer_from(ls, 0) {
            Some(i) => Some(
                (
                    with_char(
                        match ls[i].get_str("digest"@) {
                            Some(d) => d,
                            None => Seq::empty(),
                        },
                        seq![':'],
                        '-',
                    ),
                    match ls[i].get("size"@) {
                        Some(s) => match s.u64() {
                            Some(n) => n,
                            None => 0,
                        },
                        None => 0,
                    },
                ),
            ),
            None => None,
        },
        _ => None,
    }
}

/// Reads the model's blob out of a manifest.
pub fn manifest_blob(manifest: &Json) -> (r: Option<(String, u64)>)
    ensures
        match r {
            Some((s, n)) => blob_of(manifest@) == Some((s@, n)),
            None => blob_of(manifest@) is None,
        },
{
    let layers = match manifest.get("layers") {
        Some(l) => l,
        None => {
            return None;
        },
    };
    proof {
        lemma_view(*layers);
    }
    if let Json::Array(ls) = layers {
        let ghost lv = jsons(ls@);
        let mut i: usize = 0;
        while i < ls.len()
            invariant
                i <= ls.len(),
                lv == jsons(ls@),
                manifest@.get("layers"@) == Some(JsonV::Array(lv)),
                model_layer_from(lv, 0) == model_layer_from(lv, i as int),
            decreases ls.len() - i,
        {
            assert(lv[i as int] == ls@[i as int]@);
            let is_model = match ls[i].get_str("mediaType") {
                Some(m) => contains(m, "model"),
                None => false,
            };
            if is_model {
                let digest = match ls[i].get_str("digest") {
                    Some(d) => chars_of(d),
                    None => Vec::new(),
                };
                let mut colon: Vec<char> = Vec::new();
                colon.push(':');
                assert(colon@ =~= seq![':']);
                let blob = string_of(&replace_chars(&digest, &colon, '-'));
                let size: u64 = match ls[i].get("size") {
                    Some(s) => match s.as_u64() {
                        Some(n) => n,
                        None => 0,
                    },
                    None => 0,
                };
                return Some((blob, size));
            }
            i += 1;
        }
    }
    None
}

/// A file is looked at as a GGUF file: its extension is `gguf`, whatever its case.
pub open spec fn gguf_name(name: Seq<char>) -> bool {
    match last_char(name, '.') {
        Some(k) => k > 0 && lowered(name.skip(k + 1)) == "gguf"@,
        None => false,
    }
}

pub fn is_gguf(name: &str) -> (r: bool)
    ensures
        r == gguf_name(name@),
{
    let cs = chars_of(name);
    match rfind_char(&cs, '.') {
        Some(k) => {
            if k == 0 {
                return false;
            }
            let ext = string_of_range(&cs, k + 1, cs.len());
            assert(ext@ =~= name@.skip(k + 1));
            str_eq(string_of(&to_lowered(ext.as_str())).as_str(), "gguf")
        },
        None => false,
    }
}

/// The file is a model of its own: no projector, no prediction head, and of a split
/// model the first shard.
pub open spec fn whole_model(fname: Seq<char>) -> bool {
    let l = lowered(fname);
    !holds(l, "mmproj"@) && !begins(l, "mtp-"@) && !holds(l, "-mtp-"@) && (holds(fname, "-of-"@) ==> holds(
        fname,
        "-00001-of-"@,
    ))
}

pub fn is_whole_model(fname: &str) -> (r: bool)
    ensures
        r == whole_model(fname@),
{
    let l = string_of(&to_lowered(fname));
    if contains(l.as_str(), "mmproj") || starts_with(l.as_str(), "mtp-") || contains(l.as_str(), "-mtp-") {
        return false;
    }
    !contains(fname, "-of-") || contains(fname, "-00001-of-")
}

/// The number of shards that a file name states: what stands behind `-of-`, up to a
/// dot or a further `-of-`; one where that is no number.
pub open spec fn stated_shards(fname: Seq<char>) -> nat {
    match find_from(fname, "-of-"@, 0) {
        Some(k) => {
            let rest = fname.skip(k + 4);
            let piece = match find_from(rest, "-of-"@, 0) {
                Some(j) => rest.take(j),
                None => rest,
            };
            match number(head_of(piece, '.'), u64::MAX as nat) {
                Some(n) => n,
                None => 1,
            }
        },
        None => 1,
    }
}

pub fn shard_count(fname: &str) -> (r: u64)
    ensures
        r == stated_shards(fname@),
{
    let cs = chars_of(fname);
    let of = chars_of("-of-");
    proof {
        reveal_strlit("-of-");
    }
    match find(&cs, &of, 0) {
        Some(k) => {
            let rest = slice(&cs, k + 4, cs.len());
            assert(rest@ =~= fname@.skip(k + 4));
            let end: usize = match find(&rest, &of, 0) {
                Some(j) => j,
                None => rest.len(),
            };
            let piece = slice(&rest, 0, end);
            assert(piece@ =~= rest@.take(end as int));
            assert(rest@.take(rest@.len() as int) =~= rest@);
            let stop: usize = match find_char(&piece, '.', 0) {
                Some(d) => d,
                None => piece.len(),
            };
            let num = slice(&piece, 0, stop);
            assert(num@ =~= head_of(piece@, '.'));
            match parse_number(&num, u64::MAX) {
                Some(n) => n,
                None => 1,
            }
        },
        None => 1,
    }
}

/// `s` without any number of `p` at its end.
pub open spec fn without_suffixes(s: Seq<char>, p: Seq<char>) -> Seq<char>
    decreases s.len(),
{
    if p.len() > 0 && ends(s, p) {
        without_suffixes(s.take(s.len() - p.len()), p)
    } else {
        s
    }
}

pub fn strip_suffixes(s: &str, p: &str) -> (r: String)
    ensures
        r@ == without_suffixes(s@, p@),
{
    let cs = chars_of(s);
    let cp = chars_of(p);
    let mut n: usize = cs.len();
    assert(s@.take(s@.len() as int) =~= s@);
    while cp.len() > 0 && cp.len() <= n && is_at(&cs, n - cp.len(), &cp)
        invariant
            cs@ == s@,
            cp@ == p@,
            n <= cs.len(),
            without_suffixes(s@, p@) == without_suffixes(s@.take(n as int), p@),
        decreases n,
    {
        proof {
            let t = s@.take(n as int);
            assert(t.subrange(t.len() - p@.len(), t.len() as int) =~= s@.subrange(n - p@.len(), n as int));
            assert(t.take(t.len() - p@.len()) =~= s@.take(n - p@.len()));
        }
        n = n - cp.len();
    }
    proof {
        let t = s@.take(n as int);
        if p@.len() > 0 && ends(t, p@) {
            assert(t.subrange(t.len() - p@.len(), t.len() as int) =~= s@.subrange(n - p@.len(), n as int));
        }
    }
    let r = string_of_range(&cs, 0, n);
    assert(r@ =~= s@.take(n as int));
    r
}

/// The size of a model of which one shard has the given size: that of a split model
/// is taken to be the same for each shard.
pub open spec fn model_size(fname: Seq<char>, size: u64) -> nat {
    if holds(fname, "-00001-of-"@) {
        at_most(
            size as nat * (if stated_shards(fname) >= 1 {
                stated_shards(fname)
            } else {
                1
            }),
            u64::MAX as nat,
        )
    } else {
        size as nat
    }
}

/// The model of a file.
pub open spec fn model_of(path: Seq<char>, size: u64, origin: ModelOrigin, windows: bool) -> ModelV {
    let fname = base_name(path, windows);
    ModelV {
        path,
        size: model_size(fname, size) as u64,
        display_name: fname,
        alias: without_suffixes(fname, ".gguf"@),
        origin,
    }
}

pub fn file_model(path: &str, size: u64, origin: ModelOrigin, windows: bool) -> (r: DiscoveredModel)
    ensures
        r@ == model_of(path@, size, origin, windows),
{
    let fname = file_name(path, windows);
    let total: u64 = if contains(fname.as_str(), "-00001-of-") {
        let n = shard_count(fname.as_str());
        let k: u64 = if n >= 1 {
            n
        } else {
            1
        };
        let t: u128 = wide_product(size, k);
        if t <= u64::MAX as u128 {
            t as u64
        } else {
            u64::MAX
        }
    } else {
        size
    };
    let alias = strip_suffixes(fname.as_str(), ".gguf");
    DiscoveredModel { path: path.to_owned(), size: total, display_name: fname, alias, origin }
}

/// Files by their paths and sizes.
pub open spec fn files_view(v: Seq<(String, u64)>) -> Seq<(Seq<char>, u64)> {
    Seq::new(v.len(), |i: int| (v[i].0@, v[i].1))
}

/// The models of the first `n` files that are models of their own, added to a list.
pub open spec fn with_files(
    ms: Seq<ModelV>,
    files: Seq<(Seq<char>, u64)>,
    origin: ModelOrigin,
    n: nat,
    windows: bool,
) -> Seq<ModelV>
    decreases n,
{
    if n == 0 || n > files.len() {
        ms
    } else {
        let before = with_files(ms, files, origin, (n - 1) as nat, windows);
        let (path, size) = files[n - 1];
        if whole_model(base_name(path, windows)) {
            with_model(before, model_of(path, size, origin, windows), windows)
        } else {
            before
        }
    }
}

/// Adds the models of files to a list.
pub fn add_files(ms: &mut Vec<DiscoveredModel>, files: &Vec<(String, u64)>, origin: ModelOrigin, windows: bool)
    ensures
        models_view(final(ms)@) == with_files(models_view(old(ms)@), files_view(files@), origin, files@.len(), windows),
{
    let ghost fv = files_view(files@);
    let ghost start = models_view(ms@);
    let mut i: usize = 0;
    while i < files.len()
        invariant
            i <= files.len(),
            fv == files_view(files@),
            models_view(ms@) == with_files(start, fv, origin, i as nat, windows),
        decreases files.len() - i,
    {
        assert(fv[i as int] == (files@[i as int].0@, files@[i as int].1));
        let path = files[i].0.as_str();
        if is_whole_model(file_name(path, windows).as_str()) {
            add_model(ms, file_model(path, files[i].1, origin, windows), windows);
        }
        i += 1;
    }
}

/// All models: those of Ollama first, then those of LM Studio, then the files of the
/// models directory; each path once.
pub open spec fn all_models(
    ollama: Seq<ModelV>,
    lmstudio: Seq<ModelV>,
    local: Seq<(Seq<char>, u64)>,
    windows: bool,
) -> Seq<ModelV> {
    with_files(
        with_models(with_models(Seq::empty(), ollama, ollama.len(), windows), lmstudio, lmstudio.len(), windows),
        local,
        ModelOrigin::Local,
        local.len(),
        windows,
    )
}

pub fn discover_all_available_models(
    ollama: Vec<DiscoveredModel>,
    lmstudio: Vec<DiscoveredModel>,
    local: &Vec<(String, u64)>,
    windows: bool,
) -> (r: Vec<DiscoveredModel>)
    ensures
        models_view(r@) == all_models(models_view(ollama@), models_view(lmstudio@), files_view(local@), windows),
{
    let mut out: Vec<DiscoveredModel> = Vec::new();
    assert(models_view(out@) =~= Seq::empty());
    add_models(&mut out, ollama, windows);
    add_models(&mut out, lmstudio, windows);
    add_files(&mut out, local, ModelOrigin::Local, windows);
    out
}

// ---------------------------------------------------------------- finding a model

/// The same text, whatever the case of its ASCII letters.
pub open spec fn alike(a: Seq<char>, b: Seq<char>) -> bool {
    lowered(a) == lowered(b)
}

pub fn eq_ignore_case(a: &str, b: &str) -> (r: bool)
    ensures
        r == alike(a@, b@),
{
    str_eq(string_of(&to_lowered(a)).as_str(), string_of(&to_lowered(b)).as_str())
}

/// An Ollama model is meant by its tag, its alias, its tag without `:latest`, or its
/// name without a tag.
pub open spec fn ollama_means(m: ModelV, wanted: Seq<char>) -> bool {
    alike(m.display_name, wanted) || alike(m.alias, wanted) || (ends(m.display_name, ":latest"@) && alike(
        without_suffix(m.display_name, ":latest"@),
        wanted,
    )) || alike(head_of(m.display_name, ':'), wanted)
}

/// An LM Studio model is meant by its file name or its alias.
pub open spec fn lmstudio_means(m: ModelV, wanted: Seq<char>) -> bool {
    alike(m.display_name, wanted) || alike(m.alias, wanted)
}

/// The first Ollama model from `i` on that is meant.
pub open spec fn ollama_from(ms: Seq<ModelV>, wanted: Seq<char>, i: int) -> Option<int>
    decreases ms.len() - i,
{
    if i < 0 || i >= ms.len() {
        None
    } else if ollama_means(ms[i], wanted) {
        Some(i)
    } else {
        ollama_from(ms, wanted, i + 1)
    }
}

/// The first LM Studio model from `i` on that is meant.
pub open spec fn lmstudio_from(ms: Seq<ModelV>, wanted: Seq<char>, i: int) -> Option<int>
    decreases ms.len() - i,
{
    if i < 0 || i >= ms.len() {
        None
    } else if lmstudio_means(ms[i], wanted) {
        Some(i)
    } else {
        lmstudio_from(ms, wanted, i + 1)
    }
}

/// The path of the model that is meant: of Ollama first, then of LM Studio.
pub open spec fn meant_model(ollama: Seq<ModelV>, lmstudio: Seq<ModelV>, wanted: Seq<char>) -> Option<Seq<char>> {
    match ollama_from(ollama, wanted, 0) {
        Some(i) => Some(ollama[i].path),
        None => match lmstudio_from(lmstudio, wanted, 0) {
            Some(i) => Some(lmstudio[i].path),
            None => None,
        },
    }
}

fn is_ollama(m: &DiscoveredModel, wanted: &str) -> (r: bool)
    ensures
        r == ollama_means(m@, wanted@),
{
    let name = m.display_name.as_str();
    if eq_ignore_case(name, wanted) || eq_ignore_case(m.alias.as_str(), wanted) {
        return true;
    }
    let cs = chars_of(name);
    if ends_with(name, ":latest") {
        let short = string_of(&strip_suffix(&cs, ":latest"));
        if eq_ignore_case(short.as_str(), wanted) {
            return true;
        }
    }
    let stop: usize = match find_char(&cs, ':', 0) {
        Some(k) => k,
        None => cs.len(),
    };
    let head = string_of_range(&cs, 0, stop);
    assert(head@ =~= head_of(name@, ':'));
    eq_ignore_case(head.as_str(), wanted)
}

/// Finds the model that is meant among those that were discovered.
pub fn find_discovered(ollama: &Vec<DiscoveredModel>, lmstudio: &Vec<DiscoveredModel>, wanted: &str) -> (r: Option<
    String,
>)
    ensures
        opt_string(r) == meant_model(models_view(ollama@), models_view(lmstudio@), wanted@),
{
    let ghost ov = models_view(ollama@);
    let ghost lv = models_view(lmstudio@);
    let mut i: usize = 0;
    while i < ollama.len()
        invariant
            i <= ollama.len(),
            ov == models_view(ollama@),
            ollama_from(ov, wanted@, 0) == ollama_from(ov, wanted@, i as int),
        decreases ollama.len() - i,
    {
        assert(ov[i as int] == ollama@[i as int]@);
        if is_ollama(&ollama[i], wanted) {
            return Some(ollama[i].path.clone());
        }
        i += 1;
    }
    let mut j: usize = 0;
    while j < lmstudio.len()
        invariant
            j <= lmstudio.len(),
            ov == models_view(ollama@),
            lv == models_view(lmstudio@),
            ollama_from(ov, wanted@, 0) is None,
            lmstudio_from(lv, wanted@, 0) == lmstudio_from(lv, wanted@, j as int),
        decreases lmstudio.len() - j,
    {
        assert(lv[j as int] == lmstudio@[j as int]@);
        if eq_ignore_case(lmstudio[j].display_name.as_str(), wanted) || eq_ignore_case(
            lmstudio[j].alias.as_str(),
            wanted,
        ) {
            return Some(lmstudio[j].path.clone());
        }
        j += 1;
    }
    None
}

/// A model given as `repo:file`: the repository has a slash, no backslash and more
/// than two bytes, so that no drive letter is taken for one.
pub open spec fn repo_and_file(model: Seq<char>) -> (Option<Seq<char>>, Seq<char>) {
    match char_from(model, ':', 0) {
        Some(k) => {
            let a = model.take(k);
            if a.contains('/') && !a.contains('\\') && byte_len(a) > 2 {
                (Some(a), model.skip(k + 1))
            } else {
                (None, model)
            }
        },
        None => (None, model),
    }
}

pub fn split_repo_file(model: &str) -> (r: (Option<String>, String))
    ensures
        (opt_string(r.0), r.1@) == repo_and_file(model@),
{
    let cs = chars_of(model);
    if let Some(k) = find_char(&cs, ':', 0) {
        let a = slice(&cs, 0, k);
        assert(a@ =~= model@.take(k as int));
        let text = string_of(&a);
        if find_char(&a, '/', 0).is_some() && find_char(&a, '\\', 0).is_none() && bytes_in(text.as_str()) > 2 {
            let b = string_of_range(&cs, k + 1, cs.len());
            assert(b@ =~= model@.skip(k + 1));
            return (Some(text), b);
        }
    }
    (None, model.to_owned())
}

/// The places under one root: the path itself, and the file under its repository.
pub open spec fn root_places(root: Seq<char>, direct: Seq<char>, model: Seq<char>, windows: bool) -> Seq<Seq<char>> {
    let (repo, file) = repo_and_file(model);
    seq![under(root, direct, windows)] + (match repo {
        Some(r) => seq![under(under(root, r, windows), file, windows)],
        None => Seq::empty(),
    })
}

/// The places under the first `n` roots.
pub open spec fn model_places(
    roots: Seq<Seq<char>>,
    direct: Seq<char>,
    model: Seq<char>,
    n: nat,
    windows: bool,
) -> Seq<Seq<char>>
    decreases n,
{
    if n == 0 || n > roots.len() {
        Seq::empty()
    } else {
        model_places(roots, direct, model, (n - 1) as nat, windows) + root_places(roots[n - 1], direct, model, windows)
    }
}

/// The places at which a model file is looked for under the roots. `direct` is the
/// model's name taken as a path.
pub fn model_candidates(roots: &Vec<String>, direct: &str, model: &str, windows: bool) -> (r: Vec<String>)
    ensures
        strings(r@) == model_places(strings(roots@), direct@, model@, roots@.len(), windows),
{
    let (repo, file) = split_repo_file(model);
    let mut out: Vec<String> = Vec::new();
    let ghost rv = strings(roots@);
    let mut i: usize = 0;
    assert(strings(out@) =~= Seq::empty());
    while i < roots.len()
        invariant
            i <= roots.len(),
            rv == strings(roots@),
            (opt_string(repo), file@) == repo_and_file(model@),
            strings(out@) == model_places(rv, direct@, model@, i as nat, windows),
        decreases roots.len() - i,
    {
        let ghost b = strings(out@);
        let root = roots[i].as_str();
        assert(rv[i as int] == root@);
        push_text(&mut out, join_path(root, direct, windows));
        if let Some(rep) = &repo {
            push_text(&mut out, join_path(join_path(root, rep.as_str(), windows).as_str(), file.as_str(), windows));
        }
        assert(strings(out@) =~= b + root_places(root@, direct@, model@, windows));
        i += 1;
    }
    out
}

/// A directory is searched for models of LM Studio.
pub fn enters_lmstudio_dir(name: &str) -> (r: bool)
    ensures
        r == !(begins(name@, "."@) || name@ == "blobs"@ || name@ == "manifests"@),
{
    !(starts_with(name, ".") || str_eq(name, "blobs") || str_eq(name, "manifests"))
}

/// A directory is searched for a model file.
pub fn enters_dir(name: &str) -> (r: bool)
    ensures
        r == !(begins(name@, "."@) || name@ == "target"@ || name@ == "node_modules"@),
{
    !(starts_with(name, ".") || str_eq(name, "target") || str_eq(name, "node_modules"))
}

// ---------------------------------------------------------------- what a store holds

/// The model of a manifest below a store: its blob, the size that the manifest states, and
/// its tag.
pub open spec fn model_in_manifest(rel: Seq<char>, text: Seq<char>, blobs: Seq<char>, windows: bool) -> Option<ModelV> {
    match parsed(text) {
        Ok(v) => match blob_of(v) {
            Some((blob, size)) => Some(
                ModelV {
                    path: under(blobs, blob, windows),
                    size,
                    display_name: tag_of(rel),
                    alias: tag_of(rel),
                    origin: ModelOrigin::Ollama,
                },
            ),
            None => None,
        },
        Err(_) => None,
    }
}

/// Reads the model of a manifest. `rel` is the path of the manifest below the manifests.
pub fn manifest_model(rel: &str, text: &str, blobs: &str, windows: bool) -> (r: Option<DiscoveredModel>)
    ensures
        match r {
            Some(m) => model_in_manifest(rel@, text@, blobs@, windows) == Some(m@),
            None => model_in_manifest(rel@, text@, blobs@, windows) is None,
        },
{
    match Json::parse(text) {
        Ok(v) => match manifest_blob(&v) {
            Some((blob, size)) => {
                let tag = ollama_tag(rel);
                Some(
                    DiscoveredModel {
                        path: join_path(blobs, blob.as_str(), windows),
                        size,
                        display_name: tag.clone(),
                        alias: tag,
                        origin: ModelOrigin::Ollama,
                    },
                )
            },
            None => None,
        },
        Err(_) => None,
    }
}

// ---------------------------------------------------------------- where stores are

/// Nothing, or one path.
pub open spec fn path_if(c: bool, v: Option<Seq<char>>) -> Seq<Seq<char>> {
    match v {
        Some(p) => if c {
            seq![p]
        } else {
            Seq::empty()
        },
        None => Seq::empty(),
    }
}

/// The places of Ollama's store.
pub open spec fn ollama_store_places(env: SurroundingsV, unix: bool) -> Seq<Seq<char>> {
    path_if(
        true,
        match env.var("OLLAMA_MODELS"@) {
            Some(v) => Some(expanded(v, env)),
            None => None,
        },
    ) + seq![expanded("~/.ollama/models"@, env)] + path_if(
        env.windows,
        under_var(env, "USERPROFILE"@, seq![".ollama"@, "models"@]),
    ) + path_if(env.windows, under_var(env, "LOCALAPPDATA"@, seq!["Ollama"@, "models"@])) + path_if(
        unix,
        Some("/usr/share/ollama/.ollama/models"@),
    )
}

/// A path of several parts under a directory.
pub open spec fn under_all(dir: Seq<char>, parts: Seq<Seq<char>>, windows: bool) -> Seq<char>
    decreases parts.len(),
{
    if parts.len() == 0 {
        dir
    } else {
        under(under_all(dir, parts.drop_last(), windows), parts.last(), windows)
    }
}

/// A path of several parts under the directory that a variable names, where it is set.
pub open spec fn under_var(env: SurroundingsV, name: Seq<char>, parts: Seq<Seq<char>>) -> Option<Seq<char>> {
    match env.var(name) {
        Some(d) => Some(under_all(d, parts, env.windows)),
        None => None,
    }
}

fn add_place(out: &mut Vec<String>, c: bool, p: Option<String>)
    ensures
        strings(final(out)@) == strings(old(out)@) + path_if(c, opt_string(p)),
{
    let ghost b = out@;
    match p {
        Some(s) => if c {
            out.push(s);
            assert(strings(out@) =~= strings(b) + seq![s@]);
        } else {
            assert(strings(out@) =~= strings(b) + Seq::<Seq<char>>::empty());
        },
        None => {
            assert(strings(out@) =~= strings(b) + Seq::<Seq<char>>::empty());
        },
    }
}

fn join_var(env: &Surroundings, name: &str, parts: &Vec<&'static str>) -> (r: Option<String>)
    ensures
        opt_string(r) == under_var(env@, name@, texts(parts@)),
{
    match env.var(name) {
        Some(d) => {
            let ghost pv = texts(parts@);
            let mut p = d.to_owned();
            let mut i: usize = 0;
            assert(pv.take(0) =~= Seq::<Seq<char>>::empty());
            while i < parts.len()
                invariant
                    i <= parts.len(),
                    pv == texts(parts@),
                    p@ == under_all(d@, pv.take(i as int), env.windows),
                decreases parts.len() - i,
            {
                assert(pv.take(i + 1).drop_last() =~= pv.take(i as int));
                assert(pv.take(i + 1).last() == parts@[i as int]@);
                p = join_path(p.as_str(), parts[i], env.windows);
                i += 1;
            }
            assert(pv.take(pv.len() as int) =~= pv);
            Some(p)
        },
        None => None,
    }
}

/// The places at which Ollama's store may be.
pub fn ollama_model_roots(env: &Surroundings, unix: bool) -> (r: Vec<String>)
    ensures
        strings(r@) == ollama_store_places(env@, unix),
{
    let mut out: Vec<String> = Vec::new();
    let own = match env.var("OLLAMA_MODELS") {
        Some(v) => Some(expand_path(v, env)),
        None => None,
    };
    assert(strings(out@) =~= Seq::<Seq<char>>::empty());
    add_place(&mut out, true, own);
    let ghost first = strings(out@);
    assert(first =~= path_if(true, opt_string(own)));
    let usual = Some(expand_path("~/.ollama/models", env));
    add_place(&mut out, true, usual);
    let parts = vec![".ollama", "models"];
    assert(texts(parts@) =~= seq![".ollama"@, "models"@]);
    add_place(&mut out, env.windows, join_var(env, "USERPROFILE", &parts));
    let parts = vec!["Ollama", "models"];
    assert(texts(parts@) =~= seq!["Ollama"@, "models"@]);
    add_place(&mut out, env.windows, join_var(env, "LOCALAPPDATA", &parts));
    add_place(&mut out, unix, Some("/usr/share/ollama/.ollama/models".to_owned()));
    out
}

/// The places of LM Studio's models.
pub open spec fn lmstudio_store_places(e: EngineV, env: SurroundingsV) -> Seq<Seq<char>> {
    all_expanded(e.extra_search_dirs, env) + seq![expanded("~/.lmstudio/models"@, env)] + seq![
        expanded("~/.cache/lm-studio/models"@, env),
    ] + path_if(env.windows, under_var(env, "USERPROFILE"@, seq![".lmstudio"@, "models"@])) + path_if(
        env.windows,
        under_var(env, "USERPROFILE"@, seq![".cache"@, "lm-studio"@, "models"@]),
    )
}

/// The places at which LM Studio's models may be.
pub fn lmstudio_model_roots(engine: &Engine, env: &Surroundings) -> (r: Vec<String>)
    ensures
        strings(r@) == lmstudio_store_places(engine@, env@),
{
    let mut out = engine.extra_search_paths(env);
    let a = Some(expand_path("~/.lmstudio/models", env));
    add_place(&mut out, true, a);
    let b = Some(expand_path("~/.cache/lm-studio/models", env));
    add_place(&mut out, true, b);
    let parts = vec![".lmstudio", "models"];
    assert(texts(parts@) =~= seq![".lmstudio"@, "models"@]);
    add_place(&mut out, env.windows, join_var(env, "USERPROFILE", &parts));
    let parts = vec![".cache", "lm-studio", "models"];
    assert(texts(parts@) =~= seq![".cache"@, "lm-studio"@, "models"@]);
    add_place(&mut out, env.windows, join_var(env, "USERPROFILE", &parts));
    out
}

/// A path of the list is that of a text.
pub open spec fn lists_path(v: Seq<Seq<char>>, path: Seq<char>, windows: bool) -> bool {
    exists|i: int| 0 <= i < v.len() && same_path(#[trigger] v[i], path, windows)
}

/// The first `n` paths, each where it stands first.
pub open spec fn firsts(v: Seq<Seq<char>>, n: nat, windows: bool) -> Seq<Seq<char>>
    decreases n,
{
    if n == 0 || n > v.len() {
        Seq::empty()
    } else {
        let p = firsts(v, (n - 1) as nat, windows);
        if lists_path(p, v[n - 1], windows) {
            p
        } else {
            p.push(v[n - 1])
        }
    }
}

fn path_listed(v: &Vec<String>, path: &str, windows: bool) -> (r: bool)
    ensures
        r == lists_path(strings(v@), path@, windows),
{
    let ghost vv = strings(v@);
    let mut i: usize = 0;
    while i < v.len()
        invariant
            i <= v.len(),
            vv == strings(v@),
            forall|k: int| 0 <= k < i ==> !same_path(#[trigger] vv[k], path@, windows),
        decreases v.len() - i,
    {
        assert(vv[i as int] == v@[i as int]@);
        if is_same_path(v[i].as_str(), path, windows) {
            return true;
        }
        i += 1;
    }
    false
}

/// The paths, each once.
pub fn distinct_paths(v: &Vec<String>, windows: bool) -> (r: Vec<String>)
    ensures
        strings(r@) == firsts(strings(v@), v@.len(), windows),
{
    let ghost vv = strings(v@);
    let mut out: Vec<String> = Vec::new();
    let mut i: usize = 0;
    assert(strings(out@) =~= Seq::<Seq<char>>::empty());
    while i < v.len()
        invariant
            i <= v.len(),
            vv == strings(v@),
            strings(out@) == firsts(vv, i as nat, windows),
        decreases v.len() - i,
    {
        assert(vv[i as int] == v@[i as int]@);
        if !path_listed(&out, v[i].as_str(), windows) {
            let ghost b = out@;
            out.push(v[i].clone());
            assert(strings(out@) =~= strings(b).push(vv[i as int]));
        }
        i += 1;
    }
    out
}

/// A file with what its path is ordered by.
#[derive(Debug)]
pub struct KeyedFile {
    pub key: String,
    pub path: String,
    pub size: u64,
}

pub struct KeyedV {
    pub key: Seq<char>,
    pub path: Seq<char>,
    pub size: u64,
}

impl View for KeyedFile {
    type V = KeyedV;

    open spec fn view(&self) -> KeyedV {
        KeyedV { key: self.key@, path: self.path@, size: self.size }
    }
}

impl Ranked for KeyedFile {
    /// By the path, then by the size.
    open spec fn in_order(a: KeyedV, b: KeyedV) -> bool {
        before(a.key, b.key) || (!before(b.key, a.key) && a.size <= b.size)
    }

    fn is_in_order(a: &KeyedFile, b: &KeyedFile) -> (r: bool) {
        is_before(a.key.as_str(), b.key.as_str()) || (!is_before(b.key.as_str(), a.key.as_str()) && a.size <= b.size)
    }
}

/// A file by its path and its size, with the key of the path.
pub open spec fn keyed(f: (Seq<char>, u64), windows: bool) -> KeyedV {
    KeyedV { key: path_key(f.0, windows), path: f.0, size: f.1 }
}

pub open spec fn all_keyed(v: Seq<(Seq<char>, u64)>, windows: bool) -> Seq<KeyedV> {
    Seq::new(v.len(), |i: int| keyed(v[i], windows))
}

/// A list without what stands behind its like, of the first `n`.
pub open spec fn without_repeats(v: Seq<KeyedV>, n: nat) -> Seq<(Seq<char>, u64)>
    decreases n,
{
    if n == 0 || n > v.len() {
        Seq::empty()
    } else if n >= 2 && v[n - 1].key == v[n - 2].key && v[n - 1].size == v[n - 2].size {
        without_repeats(v, (n - 1) as nat)
    } else {
        without_repeats(v, (n - 1) as nat).push((v[n - 1].path, v[n - 1].size))
    }
}

/// Files in the order of their paths and sizes, each once.
pub open spec fn in_path_order(v: Seq<(Seq<char>, u64)>, windows: bool) -> Seq<(Seq<char>, u64)> {
    let sorted = ranked::<KeyedFile>(all_keyed(v, windows), v.len());
    without_repeats(sorted, sorted.len())
}

fn order_files(v: &Vec<(String, u64)>, windows: bool) -> (r: Vec<(String, u64)>)
    ensures
        files_view(r@) == in_path_order(files_view(v@), windows),
{
    let ghost fv = files_view(v@);
    let ghost kv = all_keyed(fv, windows);
    let mut files: Vec<KeyedFile> = Vec::new();
    let mut i: usize = 0;
    assert(views(files@) =~= kv.take(0));
    while i < v.len()
        invariant
            i <= v.len(),
            fv == files_view(v@),
            kv == all_keyed(fv, windows),
            views(files@) == kv.take(i as int),
        decreases v.len() - i,
    {
        let ghost b = files@;
        assert(fv[i as int] == (v@[i as int].0@, v@[i as int].1));
        files.push(KeyedFile { key: key_of(v[i].0.as_str(), windows), path: v[i].0.clone(), size: v[i].1 });
        assert(views(files@) =~= views(b).push(kv[i as int]));
        assert(kv.take(i + 1) =~= kv.take(i as int).push(kv[i as int]));
        i += 1;
    }
    assert(kv.take(kv.len() as int) =~= kv);
    let sorted = rank(files);
    let ghost sv = views(sorted@);
    let mut out: Vec<(String, u64)> = Vec::new();
    let mut j: usize = 0;
    assert(files_view(out@) =~= Seq::<(Seq<char>, u64)>::empty());
    while j < sorted.len()
        invariant
            j <= sorted.len(),
            sv == views(sorted@),
            files_view(out@) == without_repeats(sv, j as nat),
        decreases sorted.len() - j,
    {
        assert(sv[j as int] == sorted@[j as int]@);
        let repeat = if j >= 1 {
            assert(sv[j - 1] == sorted@[j - 1]@);
            str_eq(sorted[j].key.as_str(), sorted[j - 1].key.as_str()) && sorted[j].size == sorted[j - 1].size
        } else {
            false
        };
        if !repeat {
            let ghost b = out@;
            out.push((sorted[j].path.clone(), sorted[j].size));
            assert(files_view(out@) =~= files_view(b).push((sv[j as int].path, sv[j as int].size)));
        }
        j += 1;
    }
    out
}

/// The files of models, by their paths and sizes.
pub open spec fn model_files(ms: Seq<ModelV>) -> Seq<(Seq<char>, u64)> {
    Seq::new(ms.len(), |i: int| (ms[i].path, ms[i].size))
}

/// The files of all models in order, each once.
pub fn list_local_models(ms: &Vec<DiscoveredModel>, windows: bool) -> (r: Vec<(String, u64)>)
    ensures
        files_view(r@) == in_path_order(model_files(models_view(ms@)), windows),
{
    let ghost mv = model_files(models_view(ms@));
    let mut files: Vec<(String, u64)> = Vec::new();
    let mut i: usize = 0;
    assert(files_view(files@) =~= mv.take(0));
    while i < ms.len()
        invariant
            i <= ms.len(),
            mv == model_files(models_view(ms@)),
            files_view(files@) == mv.take(i as int),
        decreases ms.len() - i,
    {
        let ghost b = files@;
        files.push((ms[i].path.clone(), ms[i].size));
        assert(files_view(files@) =~= files_view(b).push(mv[i as int]));
        assert(mv.take(i + 1) =~= mv.take(i as int).push(mv[i as int]));
        i += 1;
    }
    assert(mv.take(mv.len() as int) =~= mv);
    order_files(&files, windows)
}

/// Paths without sizes.
pub open spec fn sizeless(v: Seq<Seq<char>>) -> Seq<(Seq<char>, u64)> {
    Seq::new(v.len(), |i: int| (v[i], 0u64))
}

/// The paths of files.
pub open spec fn paths_of(v: Seq<(Seq<char>, u64)>) -> Seq<Seq<char>> {
    Seq::new(v.len(), |i: int| v[i].0)
}

/// Paths in their order, each once.
pub fn sorted_paths(v: &Vec<String>, windows: bool) -> (r: Vec<String>)
    ensures
        strings(r@) == paths_of(in_path_order(sizeless(strings(v@)), windows)),
{
    let ghost zv = sizeless(strings(v@));
    let mut files: Vec<(String, u64)> = Vec::new();
    let mut i: usize = 0;
    assert(files_view(files@) =~= zv.take(0));
    while i < v.len()
        invariant
            i <= v.len(),
            zv == sizeless(strings(v@)),
            files_view(files@) == zv.take(i as int),
        decreases v.len() - i,
    {
        let ghost b = files@;
        files.push((v[i].clone(), 0));
        assert(files_view(files@) =~= files_view(b).push(zv[i as int]));
        assert(zv.take(i + 1) =~= zv.take(i as int).push(zv[i as int]));
        i += 1;
    }
    assert(zv.take(zv.len() as int) =~= zv);
    let sorted = order_files(&files, windows);
    let ghost pv = paths_of(files_view(sorted@));
    let mut out: Vec<String> = Vec::new();
    let mut j: usize = 0;
    assert(strings(out@) =~= pv.take(0));
    while j < sorted.len()
        invariant
            j <= sorted.len(),
            pv == paths_of(files_view(sorted@)),
            strings(out@) == pv.take(j as int),
        decreases sorted.len() - j,
    {
        let ghost b = out@;
        out.push(sorted[j].0.clone());
        assert(strings(out@) =~= strings(b).push(pv[j as int]));
        assert(pv.take(j + 1) =~= pv.take(j as int).push(pv[j as int]));
        j += 1;
    }
    assert(pv.take(pv.len() as int) =~= pv);
    out
}

proof fn lemma_with_model(ms: Seq<ModelV>, m: ModelV, windows: bool)
    ensures
        same_path(m.path, m.path, windows),
        has_path(with_model(ms, m, windows), m.path, windows),
        forall|x: ModelV| #[trigger] ms.contains(x) ==> with_model(ms, m, windows).contains(x),
        forall|x: ModelV| #[trigger]
            with_model(ms, m, windows).contains(x) ==> ms.contains(x) || x == m && !has_path(ms, m.path, windows),
        forall|p: Seq<char>| #[trigger] has_path(ms, p, windows) ==> has_path(with_model(ms, m, windows), p, windows),
{
    let r = with_model(ms, m, windows);
    if !has_path(ms, m.path, windows) {
        assert(r[ms.len() as int] == m);
        assert(r =~= ms.push(m));
    }
    assert forall|x: ModelV| #[trigger] ms.contains(x) implies r.contains(x) by {
        let i = choose|i: int| 0 <= i < ms.len() && ms[i] == x;
        assert(r[i] == x);
    }
    assert forall|x: ModelV| #[trigger] r.contains(x) implies ms.contains(x) || x == m && !has_path(
        ms,
        m.path,
        windows,
    ) by {
        let i = choose|i: int| 0 <= i < r.len() && r[i] == x;
        if i < ms.len() {
            assert(ms[i] == x);
        }
    }
    assert forall|p: Seq<char>| #[trigger] has_path(ms, p, windows) implies has_path(r, p, windows) by {
        let i = choose|i: int| 0 <= i < ms.len() && same_path((#[trigger] ms[i]).path, p, windows);
        assert(r[i] == ms[i]);
    }
}

/// Models that are added to a list are in it, each at least by its path; and nothing is in it
/// that was neither there nor added.
pub proof fn law_added_models_are_listed(ms: Seq<ModelV>, more: Seq<ModelV>, n: nat, windows: bool)
    requires
        n <= more.len(),
    ensures
        ({
            let r = with_models(ms, more, n, windows);
            &&& forall|i: int| 0 <= i < n ==> has_path(r, (#[trigger] more[i]).path, windows)
            &&& forall|x: ModelV| #[trigger] ms.contains(x) ==> r.contains(x)
            &&& forall|x: ModelV| #[trigger] r.contains(x) ==> ms.contains(x) || more.contains(x)
            &&& forall|p: Seq<char>| #[trigger] has_path(ms, p, windows) ==> has_path(r, p, windows)
        }),
    decreases n,
{
    if n > 0 {
        law_added_models_are_listed(ms, more, (n - 1) as nat, windows);
        let b = with_models(ms, more, (n - 1) as nat, windows);
        let r = with_models(ms, more, n, windows);
        lemma_with_model(b, more[n - 1], windows);
        assert forall|i: int| 0 <= i < n implies has_path(r, (#[trigger] more[i]).path, windows) by {
            if i < n - 1 {
                assert(has_path(b, more[i].path, windows));
            }
        }
        assert forall|x: ModelV| #[trigger] r.contains(x) implies ms.contains(x) || more.contains(x) by {
            if !b.contains(x) {
                assert(more[n - 1] == x);
            }
        }
    }
}

/// Of the files under a directory those are listed that are models of their own, each at least
/// by its path, under the name of its file; and no other.
#[verifier::rlimit(40)]
pub proof fn law_whole_files_are_listed(
    ms: Seq<ModelV>,
    files: Seq<(Seq<char>, u64)>,
    origin: ModelOrigin,
    n: nat,
    windows: bool,
)
    requires
        n <= files.len(),
    ensures
        ({
            let r = with_files(ms, files, origin, n, windows);
            &&& forall|i: int|
                0 <= i < n && whole_model(base_name((#[trigger] files[i]).0, windows)) ==> has_path(
                    r,
                    files[i].0,
                    windows,
                )
            &&& forall|x: ModelV| #[trigger] ms.contains(x) ==> r.contains(x)
            &&& forall|x: ModelV| #[trigger]
                r.contains(x) && !ms.contains(x) ==> x.origin == origin && whole_model(x.display_name) && x.display_name
                    == base_name(x.path, windows) && exists|i: int| 0 <= i < n && (#[trigger] files[i]).0 == x.path
            &&& forall|p: Seq<char>| #[trigger] has_path(ms, p, windows) ==> has_path(r, p, windows)
        }),
    decreases n,
{
    if n > 0 {
        law_whole_files_are_listed(ms, files, origin, (n - 1) as nat, windows);
        let b = with_files(ms, files, origin, (n - 1) as nat, windows);
        let r = with_files(ms, files, origin, n, windows);
        let (path, size) = files[n - 1];
        let m = model_of(path, size, origin, windows);
        if whole_model(base_name(path, windows)) {
            lemma_with_model(b, m, windows);
        }
        assert forall|i: int| 0 <= i < n && whole_model(base_name((#[trigger] files[i]).0, windows)) implies has_path(
            r,
            files[i].0,
            windows,
        ) by {
            if i < n - 1 {
                assert(has_path(b, files[i].0, windows));
            }
        }
        assert forall|x: ModelV| #[trigger] r.contains(x) && !ms.contains(x) implies x.origin == origin && whole_model(
            x.display_name,
        ) && x.display_name == base_name(x.path, windows) && exists|i: int|
            0 <= i < n && (#[trigger] files[i]).0 == x.path by {
            if b.contains(x) {
                let i = choose|i: int| 0 <= i < n - 1 && (#[trigger] files[i]).0 == x.path;
                assert(files[i].0 == x.path);
            } else {
                assert(x == m);
                assert(files[n - 1].0 == x.path);
            }
        }
    }
}

/// Every model is found, wherever it is kept: each of Ollama's and LM Studio's, and each file
/// of the models directory that is a model of its own.
#[verifier::rlimit(40)]
pub proof fn law_every_model_is_found(
    ollama: Seq<ModelV>,
    lmstudio: Seq<ModelV>,
    local: Seq<(Seq<char>, u64)>,
    windows: bool,
)
    ensures
        ({
            let r = all_models(ollama, lmstudio, local, windows);
            &&& forall|i: int| 0 <= i < ollama.len() ==> has_path(r, (#[trigger] ollama[i]).path, windows)
            &&& forall|i: int| 0 <= i < lmstudio.len() ==> has_path(r, (#[trigger] lmstudio[i]).path, windows)
            &&& forall|i: int|
                0 <= i < local.len() && whole_model(base_name((#[trigger] local[i]).0, windows)) ==> has_path(
                    r,
                    local[i].0,
                    windows,
                )
            &&& forall|x: ModelV| #[trigger]
                r.contains(x) ==> ollama.contains(x) || lmstudio.contains(x) || x.origin == ModelOrigin::Local
        }),
{
    let a = with_models(Seq::empty(), ollama, ollama.len(), windows);
    let b = with_models(a, lmstudio, lmstudio.len(), windows);
    law_added_models_are_listed(Seq::empty(), ollama, ollama.len(), windows);
    law_added_models_are_listed(a, lmstudio, lmstudio.len(), windows);
    law_whole_files_are_listed(b, local, ModelOrigin::Local, local.len(), windows);
    let r = all_models(ollama, lmstudio, local, windows);
    assert forall|i: int| 0 <= i < ollama.len() implies has_path(r, (#[trigger] ollama[i]).path, windows) by {
        assert(has_path(a, ollama[i].path, windows));
        assert(has_path(b, ollama[i].path, windows));
    }
    assert forall|i: int| 0 <= i < lmstudio.len() implies has_path(r, (#[trigger] lmstudio[i]).path, windows) by {
        assert(has_path(b, lmstudio[i].path, windows));
    }
    assert forall|x: ModelV| #[trigger] r.contains(x) implies ollama.contains(x) || lmstudio.contains(x) || x.origin
        == ModelOrigin::Local by {
        if b.contains(x) && !lmstudio.contains(x) {
            assert(a.contains(x));
        }
    }
}

/// A model that is meant is found: the first of Ollama's that is, and where none is the first of
/// LM Studio's; and nothing is found where none is meant.
pub proof fn law_the_model_that_is_meant(ollama: Seq<ModelV>, lmstudio: Seq<ModelV>, wanted: Seq<char>)
    ensures
        ({
            let none = forall|i: int| 0 <= i < ollama.len() ==> !ollama_means(#[trigger] ollama[i], wanted);
            &&& forall|i: int|
                0 <= i < ollama.len() && ollama_means(#[trigger] ollama[i], wanted) && (forall|j: int|
                    0 <= j < i ==> !ollama_means(#[trigger] ollama[j], wanted)) ==> meant_model(ollama, lmstudio, wanted)
                    == Some(ollama[i].path)
            &&& none ==> forall|i: int|
                0 <= i < lmstudio.len() && lmstudio_means(#[trigger] lmstudio[i], wanted) && (forall|j: int|
                    0 <= j < i ==> !lmstudio_means(#[trigger] lmstudio[j], wanted)) ==> meant_model(
                    ollama,
                    lmstudio,
                    wanted,
                ) == Some(lmstudio[i].path)
            &&& none && (forall|i: int| 0 <= i < lmstudio.len() ==> !lmstudio_means(#[trigger] lmstudio[i], wanted))
                ==> meant_model(ollama, lmstudio, wanted) is None
        }),
        forall|m: ModelV| ollama_means(m, m.display_name) && #[trigger] lmstudio_means(m, m.display_name),
        forall|m: ModelV| ollama_means(m, m.alias) && #[trigger] lmstudio_means(m, m.alias),
{
    lemma_ollama_from(ollama, wanted, 0);
    lemma_lmstudio_from(lmstudio, wanted, 0);
}

proof fn lemma_ollama_from(ms: Seq<ModelV>, wanted: Seq<char>, i: int)
    requires
        0 <= i,
    ensures
        match ollama_from(ms, wanted, i) {
            Some(k) => i <= k < ms.len() && ollama_means(ms[k], wanted) && forall|j: int|
                i <= j < k ==> !ollama_means(#[trigger] ms[j], wanted),
            None => forall|j: int| i <= j < ms.len() ==> !ollama_means(#[trigger] ms[j], wanted),
        },
    decreases ms.len() - i,
{
    if i < ms.len() && !ollama_means(ms[i], wanted) {
        lemma_ollama_from(ms, wanted, i + 1);
    }
}

proof fn lemma_lmstudio_from(ms: Seq<ModelV>, wanted: Seq<char>, i: int)
    requires
        0 <= i,
    ensures
        match lmstudio_from(ms, wanted, i) {
            Some(k) => i <= k < ms.len() && lmstudio_means(ms[k], wanted) && forall|j: int|
                i <= j < k ==> !lmstudio_means(#[trigger] ms[j], wanted),
            None => forall|j: int| i <= j < ms.len() ==> !lmstudio_means(#[trigger] ms[j], wanted),
        },
    decreases ms.len() - i,
{
    if i < ms.len() && !lmstudio_means(ms[i], wanted) {
        lemma_lmstudio_from(ms, wanted, i + 1);
    }
}

/// `repo:file` is taken apart at the colon, where the repository has a slash and no backslash
/// nor colon.
pub proof fn law_repo_and_file_are_told_apart(repo: Seq<char>, file: Seq<char>)
    requires
        repo.contains('/'),
        !repo.contains('\\'),
        !repo.contains(':'),
        byte_len(repo) > 2,
    ensures
        repo_and_file(repo + ":"@ + file) == (Some(repo), file),
{
    reveal_strlit(":");
    let s = repo + ":"@ + file;
    let k = repo.len() as int;
    assert(s[k] == ':');
    assert forall|j: int| 0 <= j < k implies s[j] != ':' by {
        assert(s[j] == repo[j]);
    }
    lemma_char_from(s, ':', 0);
    assert(char_from(s, ':', 0) == Some(k));
    assert(s.take(k) =~= repo);
    assert(s.skip(k + 1) =~= file);
}

/// A model is looked for under every root: at its path, and where it is given as `repo:file`
/// at the file under its repository.
pub proof fn law_a_model_is_looked_for_under_every_root(
    roots: Seq<Seq<char>>,
    direct: Seq<char>,
    model: Seq<char>,
    n: nat,
    windows: bool,
    i: int,
)
    requires
        n <= roots.len(),
        0 <= i < n,
    ensures
        model_places(roots, direct, model, n, windows).contains(under(roots[i], direct, windows)),
        repo_and_file(model).0 matches Some(r) ==> model_places(roots, direct, model, n, windows).contains(
            under(under(roots[i], r, windows), repo_and_file(model).1, windows),
        ),
    decreases n,
{
    let b = model_places(roots, direct, model, (n - 1) as nat, windows);
    let p = root_places(roots[n - 1], direct, model, windows);
    let r = model_places(roots, direct, model, n, windows);
    if i == n - 1 {
        assert(p[0] == under(roots[i], direct, windows));
        assert(r[b.len() as int] == p[0]);
        if let Some(x) = repo_and_file(model).0 {
            assert(p[1] == under(under(roots[i], x, windows), repo_and_file(model).1, windows));
            assert(r[b.len() as int + 1] == p[1]);
        }
    } else {
        law_a_model_is_looked_for_under_every_root(roots, direct, model, (n - 1) as nat, windows, i);
        let x = under(roots[i], direct, windows);
        let k = choose|k: int| 0 <= k < b.len() && b[k] == x;
        assert(r[k] == x);
        if let Some(q) = repo_and_file(model).0 {
            let y = under(under(roots[i], q, windows), repo_and_file(model).1, windows);
            let k = choose|k: int| 0 <= k < b.len() && b[k] == y;
            assert(r[k] == y);
        }
    }
}

/// The first layer that is the model's gives the blob, with a hyphen for each colon of its
/// digest, and its size.
pub proof fn law_the_blob_is_that_of_the_model(manifest: JsonV, ls: Seq<JsonV>, i: int)
    requires
        manifest.get("layers"@) == Some(JsonV::Array(ls)),
        0 <= i < ls.len(),
        is_model_layer(ls[i]),
        forall|j: int| 0 <= j < i ==> !is_model_layer(#[trigger] ls[j]),
    ensures
        blob_of(manifest) is Some,
        ls[i].get_str("digest"@) matches Some(d) ==> blob_of(manifest)->Some_0.0 == with_char(d, seq![':'], '-'),
        ls[i].get("size"@) matches Some(JsonV::Number(NumberV::PosInt(n))) ==> blob_of(manifest)->Some_0.1 == n,
{
    lemma_model_layer(ls, 0, i);
}

proof fn lemma_model_layer(ls: Seq<JsonV>, from: int, i: int)
    requires
        0 <= from <= i < ls.len(),
        is_model_layer(ls[i]),
        forall|j: int| from <= j < i ==> !is_model_layer(#[trigger] ls[j]),
    ensures
        model_layer_from(ls, from) == Some(i),
    decreases i - from,
{
    if from < i {
        lemma_model_layer(ls, from + 1, i);
    }
}

/// Of the paths of a list each stands once in what is left of it: none is lost, none is new, and
/// no two are the same.
pub proof fn law_no_path_is_lost(v: Seq<Seq<char>>, n: nat, windows: bool)
    requires
        n <= v.len(),
    ensures
        forall|i: int| 0 <= i < n ==> lists_path(firsts(v, n, windows), #[trigger] v[i], windows),
        forall|p: Seq<char>| #[trigger] firsts(v, n, windows).contains(p) ==> v.contains(p),
        forall|i: int, j: int|
            0 <= i < j < firsts(v, n, windows).len() ==> !same_path(
                #[trigger] firsts(v, n, windows)[i],
                #[trigger] firsts(v, n, windows)[j],
                windows,
            ),
    decreases n,
{
    if n > 0 {
        law_no_path_is_lost(v, (n - 1) as nat, windows);
        let p = firsts(v, (n - 1) as nat, windows);
        let r = firsts(v, n, windows);
        if !lists_path(p, v[n - 1], windows) {
            assert(r[p.len() as int] == v[n - 1]);
            assert(same_path(r[p.len() as int], v[n - 1], windows));
        }
        assert forall|i: int| 0 <= i < n implies lists_path(r, #[trigger] v[i], windows) by {
            if i < n - 1 {
                assert(lists_path(p, v[i], windows));
                let k = choose|k: int| 0 <= k < p.len() && same_path(#[trigger] p[k], v[i], windows);
                assert(r[k] == p[k]);
            }
        }
        assert forall|x: Seq<char>| #[trigger] r.contains(x) implies v.contains(x) by {
            let k = choose|k: int| 0 <= k < r.len() && r[k] == x;
            if k < p.len() {
                assert(p[k] == x);
                assert(p.contains(x));
            } else {
                assert(v[n - 1] == x);
            }
        }
        assert forall|i: int, j: int| 0 <= i < j < r.len() implies !same_path(
            #[trigger] r[i],
            #[trigger] r[j],
            windows,
        ) by {
            if j < p.len() {
                assert(!same_path(p[i], p[j], windows));
            } else {
                assert(r[i] == p[i]);
            }
        }
    }
}

/// A manifest of the library is tagged by the name and the tag of its model, without the registry
/// that it is from.
#[verifier::rlimit(40)]
pub proof fn law_models_are_tagged(name: Seq<char>, tag: Seq<char>)
    requires
        !name.contains('\\'),
        !tag.contains('\\'),
        !tag.contains('/'),
    ensures
        tag_of("registry.ollama.ai/library/"@ + name + seq!['/'] + tag) == name + ":"@ + tag,
{
    reveal_strlit("registry.ollama.ai/library/");
    reveal_strlit(":");
    let l = "registry.ollama.ai/library/"@;
    let both = name + seq!['/'] + tag;
    let a = l + name + seq!['/'] + tag;
    assert(a =~= l + both);
    assert forall|i: int| 0 <= i < a.len() implies #[trigger] a[i] != '\\' by {
        if i < l.len() {
            assert(a[i] == l[i]);
        } else if i < l.len() + name.len() {
            assert(a[i] == name[i - l.len()]);
        } else if i > l.len() + name.len() {
            assert(a[i] == tag[i - l.len() - name.len() - 1]);
        }
    }
    assert forall|i: int| 0 <= i < a.len() implies !seq!['\\'].contains(#[trigger] a[i]) by {
        if seq!['\\'].contains(a[i]) {
            assert(a[i] == '\\');
        }
    }
    assert(with_char(a, seq!['\\'], '/') =~= a);
    assert(a.subrange(0, l.len() as int) =~= l);
    assert(a.skip(l.len() as int) =~= both);
    let k = name.len() as int;
    assert(both[k] == '/');
    assert forall|j: int| k < j < both.len() implies both[j] != '/' by {
        assert(both[j] == tag[j - k - 1]);
    }
    lemma_last_slash(both, k, both.len() as int);
    assert(both.take(both.len() as int) =~= both);
    assert(both.take(k) =~= name);
    assert(both.skip(k + 1) =~= tag);
}

proof fn lemma_last_slash(s: Seq<char>, k: int, n: int)
    requires
        0 <= k < n <= s.len(),
        s[k] == '/',
        forall|j: int| k < j < s.len() ==> s[j] != '/',
    ensures
        last_char(s.take(n), '/') == Some(k),
    decreases n - k,
{
    let t = s.take(n);
    assert(t.last() == s[n - 1]);
    if n - 1 > k {
        assert(t.drop_last() =~= s.take(n - 1));
        lemma_last_slash(s, k, n - 1);
    }
}

proof fn lemma_without_repeats(v: Seq<KeyedV>, n: nat, i: int)
    requires
        0 <= i < n <= v.len(),
    ensures
        exists|k: int|
            0 <= k < n && v[k].key == v[i].key && v[k].size == v[i].size && without_repeats(v, n).contains(
                ((#[trigger] v[k]).path, v[k].size),
            ),
    decreases n,
{
    let r = without_repeats(v, n);
    let b = without_repeats(v, (n - 1) as nat);
    let repeated = n >= 2 && v[n - 1].key == v[n - 2].key && v[n - 1].size == v[n - 2].size;
    if i < n - 1 || repeated {
        let j: int = if i < n - 1 {
            i
        } else {
            n - 2
        };
        lemma_without_repeats(v, (n - 1) as nat, j);
        let k = choose|k: int|
            0 <= k < n - 1 && v[k].key == v[j].key && v[k].size == v[j].size && b.contains(
                ((#[trigger] v[k]).path, v[k].size),
            );
        let x = (v[k].path, v[k].size);
        let m = choose|m: int| 0 <= m < b.len() && b[m] == x;
        assert(r[m] == x);
        assert(r.contains(x));
    } else {
        assert(r[b.len() as int] == (v[n - 1].path, v[n - 1].size));
        assert(r.contains((v[n - 1].path, v[n - 1].size)));
    }
}

/// Every file that is put in the order of the paths is in it, at least as the same path of the
/// same size.
#[verifier::rlimit(40)]
pub proof fn law_every_file_is_in_path_order(v: Seq<(Seq<char>, u64)>, i: int, windows: bool)
    requires
        0 <= i < v.len(),
    ensures
        exists|k: int|
            0 <= k < in_path_order(v, windows).len() && same_path(
                (#[trigger] in_path_order(v, windows)[k]).0,
                v[i].0,
                windows,
            ) && in_path_order(v, windows)[k].1 == v[i].1,
{
    let w = all_keyed(v, windows);
    let s = ranked::<KeyedFile>(w, w.len());
    law_ranking_keeps_every_value::<KeyedFile>(w, w.len());
    assert(w.take(w.len() as int) =~= w);
    let x = keyed(v[i], windows);
    assert(w[i] == x);
    broadcast use vstd::seq_lib::group_to_multiset_ensures;

    assert(w.contains(x));
    assert(w.to_multiset().count(x) > 0);
    assert(s.contains(x));
    let j = choose|j: int| 0 <= j < s.len() && s[j] == x;
    lemma_without_repeats(s, s.len(), j);
    let k = choose|k: int|
        0 <= k < s.len() && s[k].key == s[j].key && s[k].size == s[j].size && without_repeats(s, s.len()).contains(
            ((#[trigger] s[k]).path, s[k].size),
        );
    assert(s.contains(s[k]));
    assert(s.to_multiset().count(s[k]) > 0);
    assert(w.contains(s[k]));
    let m = choose|m: int| 0 <= m < w.len() && w[m] == s[k];
    assert(w[m] == keyed(v[m], windows));
    let r = in_path_order(v, windows);
    let y = (s[k].path, s[k].size);
    let q = choose|q: int| 0 <= q < r.len() && r[q] == y;
    assert(same_path(r[q].0, v[i].0, windows));
}

/// A split model is as large as all its shards, each taken to be as large as the first; any other
/// model is as large as its file.
#[verifier::rlimit(40)]
pub proof fn law_a_split_model_has_the_size_of_its_shards(x: Seq<char>, d: Seq<char>, n: u64, size: u64)
    requires
        !holds(x + "-00001"@, "-of-"@),
        all_digits(d),
        number(d, u64::MAX as nat) == Some(n as nat),
        n >= 1,
        size * n <= u64::MAX,
    ensures
        model_size(x + "-00001-of-"@ + d + ".gguf"@, size) == size * n,
        !holds(x, "-00001-of-"@) ==> model_size(x, size) == size,
{
    let pre = x + "-00001"@;
    let tail = d + ".gguf"@;
    let s = x + "-00001-of-"@ + d + ".gguf"@;
    lemma_shard_name_parts(x, d);
    lemma_first_of(pre, tail);
    lemma_number_before_suffix(d);
    assert(at(s, x.len() as int, "-00001-of-"@));
}

proof fn lemma_shard_name_parts(x: Seq<char>, d: Seq<char>)
    ensures
        ({
            let s = x + "-00001-of-"@ + d + ".gguf"@;
            &&& s == x + "-00001"@ + "-of-"@ + (d + ".gguf"@)
            &&& at(s, x.len() as int, "-00001-of-"@)
        }),
        (x + "-00001"@).len() >= 3,
        (x + "-00001"@)[(x + "-00001"@).len() - 1] == '1',
        (x + "-00001"@)[(x + "-00001"@).len() - 2] == '0',
        (x + "-00001"@)[(x + "-00001"@).len() - 3] == '0',
{
    reveal_strlit("-00001");
    reveal_strlit("-of-");
    reveal_strlit("-00001-of-");
    let s = x + "-00001-of-"@ + d + ".gguf"@;
    assert(s =~= x + "-00001"@ + "-of-"@ + (d + ".gguf"@));
    let n = x.len() as int;
    assert(s.subrange(n, n + 10) =~= "-00001-of-"@);
}

#[verifier::rlimit(40)]
proof fn lemma_first_of(pre: Seq<char>, tail: Seq<char>)
    requires
        !holds(pre, "-of-"@),
        pre.len() >= 3,
        pre[pre.len() - 1] == '1',
        pre[pre.len() - 2] == '0',
        pre[pre.len() - 3] == '0',
    ensures
        find_from(pre + "-of-"@ + tail, "-of-"@, 0) == Some(pre.len() as int),
        (pre + "-of-"@ + tail).skip(pre.len() as int + 4) == tail,
{
    reveal_strlit("-of-");
    let of = "-of-"@;
    let s = pre + of + tail;
    let k = pre.len() as int;
    lemma_find_from(s, of, 0);
    assert(s.subrange(k, k + 4) =~= of);
    assert(at(s, k, of));
    assert forall|j: int| 0 <= j < k implies !#[trigger] at(s, j, of) by {
        lemma_not_before(pre, tail, j);
    }
    assert(s.skip(k + 4) =~= tail);
}

proof fn lemma_not_before(pre: Seq<char>, tail: Seq<char>, j: int)
    requires
        !holds(pre, "-of-"@),
        pre.len() >= 3,
        pre[pre.len() - 1] == '1',
        0 <= j < pre.len(),
    ensures
        !at(pre + "-of-"@ + tail, j, "-of-"@),
{
    reveal_strlit("-of-");
    let of = "-of-"@;
    let s = pre + of + tail;
    let k = pre.len() as int;
    if at(s, j, of) {
        let w = s.subrange(j, j + 4);
        assert(w == of);
        if j + 4 <= k {
            assert(pre.subrange(j, j + 4) =~= w);
            assert(at(pre, j, of));
        } else {
            assert(s[k - 1] == '1');
            assert(w[k - 1 - j] == s[k - 1]);
            assert(of[0] == '-' && of[1] == 'o' && of[2] == 'f');
        }
    }
}

proof fn lemma_number_before_suffix(d: Seq<char>)
    requires
        all_digits(d),
    ensures
        find_from(d + ".gguf"@, "-of-"@, 0) is None,
        head_of(d + ".gguf"@, '.') == d,
{
    reveal_strlit("-of-");
    reveal_strlit(".gguf");
    let tail = d + ".gguf"@;
    lemma_find_from(tail, "-of-"@, 0);
    if let Some(j) = find_from(tail, "-of-"@, 0) {
        let w = tail.subrange(j, j + 4);
        assert(w[0] == tail[j]);
        if j < d.len() {
            assert(is_digit(d[j]));
        } else {
            assert(tail[j] == ".gguf"@[j - d.len()]);
        }
    }
    lemma_char_from(tail, '.', 0);
    let m = d.len() as int;
    assert(tail[m] == '.');
    assert forall|j: int| 0 <= j < m implies tail[j] != '.' by {
        assert(is_digit(d[j]));
    }
    assert(char_from(tail, '.', 0) == Some(m));
    assert(tail.take(m) =~= d);
}

/// The alias of a model is the name of its file without the suffix.
pub proof fn law_the_alias_has_no_suffix(stem: Seq<char>, path: Seq<char>, size: u64, origin: ModelOrigin, windows: bool)
    requires
        !ends(stem, ".gguf"@),
        base_name(path, windows) == stem + ".gguf"@,
    ensures
        ({
            let m = model_of(path, size, origin, windows);
            m.alias == stem && m.display_name == stem + ".gguf"@ && m.path == path && m.origin == origin
        }),
{
    reveal_strlit(".gguf");
    let s = stem + ".gguf"@;
    assert(s.subrange(s.len() - 5, s.len() as int) =~= ".gguf"@);
    assert(ends(s, ".gguf"@));
    assert(s.take(s.len() - 5) =~= stem);
    assert(without_suffixes(stem, ".gguf"@) == stem);
}

} // verus!
