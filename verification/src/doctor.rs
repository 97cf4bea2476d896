//! The health check of the engine: what is looked at, and what is said of it.

use crate::config::Profile;
use crate::facts::{FactsV, ModelFacts, gib, gib_tenths, gib_tenths_text, gib_text};
use crate::gpu::{GpuInfo, GpuMem, mib_bytes, split_words, words_of};
use crate::json::{Json, parsed};
use crate::message::{at_most, byte_len, bytes_in};
use crate::rank::{Ranked, law_ranking_keeps_every_value, rank, ranked, views};
use crate::sse::{Timings, TimingsV, ToolCallAcc, ToolCallAccV, accs, get_u64};
use crate::text::{
    before, begins, char_lists, chars_of, contains, debug_text, dec, dec_u64, digit, find,
    find_from, first_chars, holds, is_before, is_digit, is_space, join, joined,
    law_decimal_is_read_back, lines, lines_of, list_contains, number, parse_number, quoted, space,
    split_char, split_on, starts_with, str_eq, string_of, string_of_range, strings, strip_prefix,
    strip_prefixes, take_chars, trim_str, trimmed, without_prefix, without_prefixes,
};
use crate::vram::{PlanV, VramPlan};
use vstd::prelude::*;
use vstd::string::*;

verus! {

#[derive(Debug, Clone, Copy, PartialEq, Eq, Structural)]
pub enum Level {
    Good,
    Warn,
    Fail,
}

/// One thing that was found.
#[derive(Debug)]
pub struct Finding {
    pub level: Level,
    pub text: String,
}

pub struct FindingV {
    pub level: Level,
    pub text: Seq<char>,
}

impl View for Finding {
    type V = FindingV;

    open spec fn view(&self) -> FindingV {
        FindingV { level: self.level, text: self.text@ }
    }
}

pub open spec fn good(text: Seq<char>) -> FindingV {
    FindingV { level: Level::Good, text }
}

pub open spec fn warned(text: Seq<char>) -> FindingV {
    FindingV { level: Level::Warn, text }
}

pub open spec fn failed(text: Seq<char>) -> FindingV {
    FindingV { level: Level::Fail, text }
}

fn say_good(text: String) -> (r: Finding)
    ensures
        r@ == good(text@),
{
    Finding { level: Level::Good, text }
}

fn say_warned(text: String) -> (r: Finding)
    ensures
        r@ == warned(text@),
{
    Finding { level: Level::Warn, text }
}

fn say_failed(text: String) -> (r: Finding)
    ensures
        r@ == failed(text@),
{
    Finding { level: Level::Fail, text }
}

/// How many of each there were.
#[derive(Debug, Clone, Copy, PartialEq, Eq, Structural)]
pub struct Report {
    pub ok: u32,
    pub warn: u32,
    pub fail: u32,
}

pub open spec fn plus_one(n: u32) -> u32 {
    at_most(n as nat + 1, u32::MAX as nat) as u32
}

pub open spec fn line_mark(l: Level) -> Seq<char> {
    match l {
        Level::Good => "  [ok]   "@,
        Level::Warn => "  [warn] "@,
        Level::Fail => "  [FAIL] "@,
    }
}

impl Report {
    pub fn new() -> (r: Report)
        ensures
            r == (Report { ok: 0, warn: 0, fail: 0 }),
    {
        Report { ok: 0, warn: 0, fail: 0 }
    }

    /// Counts a finding and gives the line that is printed for it.
    pub fn note(&mut self, f: &Finding) -> (r: String)
        ensures
            r@ == line_mark(f.level) + f.text@,
            *final(self) == (match f.level {
                Level::Good => Report { ok: plus_one(old(self).ok), ..*old(self) },
                Level::Warn => Report { warn: plus_one(old(self).warn), ..*old(self) },
                Level::Fail => Report { fail: plus_one(old(self).fail), ..*old(self) },
            }),
    {
        match f.level {
            Level::Good => {
                self.ok = self.ok.saturating_add(1);
                "  [ok]   ".to_owned().concat(f.text.as_str())
            },
            Level::Warn => {
                self.warn = self.warn.saturating_add(1);
                "  [warn] ".to_owned().concat(f.text.as_str())
            },
            Level::Fail => {
                self.fail = self.fail.saturating_add(1);
                "  [FAIL] ".to_owned().concat(f.text.as_str())
            },
        }
    }

    /// The last line, and whether all is well.
    pub fn finish(&self) -> (r: (String, bool))
        ensures
            r.0@ == "== "@ + dec(self.ok as nat) + " ok, "@ + dec(self.warn as nat) + " warnings, "@ + dec(
                self.fail as nat,
            ) + " failures =="@,
            r.1 == (self.fail == 0),
    {
        (
            "== ".to_owned().concat(dec_u64(self.ok as u64).as_str()).concat(" ok, ").concat(
                dec_u64(self.warn as u64).as_str(),
            ).concat(" warnings, ").concat(dec_u64(self.fail as u64).as_str()).concat(" failures =="),
            self.fail == 0,
        )
    }
}

// ---------------------------------------------------------------- the tools

/// A text with spaces behind it, up to a width.
pub open spec fn left(s: Seq<char>, width: nat) -> Seq<char> {
    if s.len() >= width {
        s
    } else {
        s + Seq::new((width - s.len()) as nat, |i: int| ' ')
    }
}

fn pad_right(s: &str, width: usize) -> (r: String)
    ensures
        r@ == left(s@, width as nat),
{
    let mut out = s.to_owned();
    let mut i: usize = s.unicode_len();
    while i < width
        invariant
            s@.len() <= i,
            i <= width || i == s@.len(),
            out@ == s@ + Seq::new((i - s@.len()) as nat, |k: int| ' '),
        decreases width - i,
    {
        out.push(' ');
        assert(out@ =~= s@ + Seq::new((i + 1 - s@.len()) as nat, |k: int| ' '));
        i += 1;
    }
    assert(out@ =~= left(s@, width as nat));
    out
}

/// A tool that is needed to build.
pub fn tool_finding(name: &str, path: Option<&str>) -> (r: Finding)
    ensures
        r@ == (match path {
            Some(p) => good(left(name@, 6) + " "@ + p@),
            None => warned(name@ + " not on PATH"@),
        }),
{
    match path {
        Some(p) => say_good(pad_right(name, 6).concat(" ").concat(p)),
        None => say_warned(name.to_owned().concat(" not on PATH")),
    }
}

/// The text without the letter before a version.
pub open spec fn version_of(name: Seq<char>) -> Seq<char> {
    without_prefixes(name, "v"@)
}

/// The number before the first dot; zero where it is none.
pub open spec fn major_of(version: Seq<char>) -> nat {
    match number(split_on(version, '.')[0], u32::MAX as nat) {
        Some(n) => n,
        None => 0,
    }
}

/// Whether a toolkit can be used: 12.8 or later, but not 13.2.
pub open spec fn is_usable(name: Seq<char>) -> bool {
    let v = version_of(name);
    &&& v != "13.2"@
    &&& major_of(v) >= 12
    &&& v != "12.0"@
    &&& v != "12.1"@
    &&& v != "12.2"@
    &&& v != "12.3"@
    &&& v != "12.4"@
    &&& v != "12.5"@
    &&& v != "12.6"@
    &&& v != "12.7"@
}

pub open spec fn usable_of(names: Seq<Seq<char>>, n: nat) -> Seq<Seq<char>>
    decreases n,
{
    if n == 0 || n > names.len() {
        Seq::empty()
    } else if is_usable(names[n - 1]) {
        usable_of(names, (n - 1) as nat).push(names[n - 1])
    } else {
        usable_of(names, (n - 1) as nat)
    }
}

/// The names of toolkits: those that begin with `v`.
pub open spec fn toolkits(names: Seq<Seq<char>>, n: nat) -> Seq<Seq<char>>
    decreases n,
{
    if n == 0 || n > names.len() {
        Seq::empty()
    } else if begins(names[n - 1], "v"@) {
        toolkits(names, (n - 1) as nat).push(names[n - 1])
    } else {
        toolkits(names, (n - 1) as nat)
    }
}

/// A name in the order of names.
#[derive(Debug)]
pub struct Named {
    pub name: String,
}

impl View for Named {
    type V = Seq<char>;

    open spec fn view(&self) -> Seq<char> {
        self.name@
    }
}

impl Ranked for Named {
    open spec fn in_order(a: Seq<char>, b: Seq<char>) -> bool {
        !before(b, a)
    }

    fn is_in_order(a: &Named, b: &Named) -> (r: bool) {
        !is_before(b.name.as_str(), a.name.as_str())
    }
}

pub const ONLY_13_2: &'static str =
    "only CUDA 13.2 present — flagged by Unsloth for Qwen3.x; install 13.1 or 13.3+ (build can proceed with --allow-cuda-132; the coherence test below validates)";

/// What is said of the toolkits. `names` are the entries of their directory, where it is
/// there.
pub open spec fn cuda_found(names: Option<Seq<Seq<char>>>) -> FindingV {
    match names {
        None => warned("CUDA toolkit directory not found (needed only to build from source)"@),
        Some(all) => {
            let kits = toolkits(all, all.len());
            let sorted = ranked::<Named>(kits, kits.len());
            let usable = usable_of(sorted, sorted.len());
            if usable.len() > 0 {
                good("CUDA toolkits usable: "@ + joined(usable, ", "@))
            } else if sorted.contains("v13.2"@) {
                warned(ONLY_13_2@)
            } else {
                failed("no CUDA >= 12.8 toolkit found (present: "@ + joined(sorted, ", "@) + ")"@)
            }
        },
    }
}

fn check_usable(name: &str) -> (r: bool)
    ensures
        r == is_usable(name@),
{
    let cs = strip_prefixes(&chars_of(name), "v");
    let v = string_of(&cs);
    let parts = split_char(&cs, '.');
    assert(char_lists(parts@)[0] == parts@[0]@);
    let major: u64 = match parse_number(&parts[0], 0xffff_ffff) {
        Some(n) => n,
        None => 0,
    };
    let s = v.as_str();
    !str_eq(s, "13.2") && major >= 12 && !str_eq(s, "12.0") && !str_eq(s, "12.1") && !str_eq(s, "12.2") && !str_eq(
        s,
        "12.3",
    ) && !str_eq(s, "12.4") && !str_eq(s, "12.5") && !str_eq(s, "12.6") && !str_eq(s, "12.7")
}

pub open spec fn opt_names(v: Option<&Vec<String>>) -> Option<Seq<Seq<char>>> {
    match v {
        Some(l) => Some(strings(l@)),
        None => None,
    }
}

/// What is said of the toolkits.
pub fn cuda_finding(names: Option<&Vec<String>>) -> (r: Finding)
    ensures
        r@ == cuda_found(opt_names(names)),
{
    let all = match names {
        None => {
            return say_warned("CUDA toolkit directory not found (needed only to build from source)".to_owned());
        },
        Some(v) => v,
    };
    let ghost av = strings(all@);
    let mut kits: Vec<Named> = Vec::new();
    let mut i: usize = 0;
    assert(views(kits@) =~= Seq::<Seq<char>>::empty());
    while i < all.len()
        invariant
            i <= all.len(),
            av == strings(all@),
            views(kits@) == toolkits(av, i as nat),
        decreases all.len() - i,
    {
        assert(av[i as int] == all@[i as int]@);
        if starts_with(all[i].as_str(), "v") {
            let ghost b = kits@;
            kits.push(Named { name: all[i].clone() });
            assert(views(kits@) =~= views(b).push(av[i as int]));
        }
        i += 1;
    }
    let sorted = rank(kits);
    let ghost sv = views(sorted@);
    let mut names: Vec<String> = Vec::new();
    let mut usable: Vec<String> = Vec::new();
    let mut j: usize = 0;
    assert(strings(names@) =~= sv.take(0));
    assert(strings(usable@) =~= Seq::<Seq<char>>::empty());
    while j < sorted.len()
        invariant
            j <= sorted.len(),
            sv == views(sorted@),
            strings(names@) == sv.take(j as int),
            strings(usable@) == usable_of(sv, j as nat),
        decreases sorted.len() - j,
    {
        assert(sv[j as int] == sorted@[j as int]@);
        let ghost b = names@;
        names.push(sorted[j].name.clone());
        assert(strings(names@) =~= strings(b).push(sv[j as int]));
        if check_usable(sorted[j].name.as_str()) {
            let ghost c = usable@;
            usable.push(sorted[j].name.clone());
            assert(strings(usable@) =~= strings(c).push(sv[j as int]));
        }
        j += 1;
    }
    assert(strings(names@) =~= sv);
    if usable.len() > 0 {
        say_good("CUDA toolkits usable: ".to_owned().concat(join(&usable, ", ").as_str()))
    } else if list_contains(&names, "v13.2") {
        say_warned(ONLY_13_2.to_owned())
    } else {
        say_failed(
            "no CUDA >= 12.8 toolkit found (present: ".to_owned().concat(join(&names, ", ").as_str()).concat(")"),
        )
    }
}

/// What is said of the GPU.
pub fn gpu_finding(gpu: Result<&GpuInfo, &str>) -> (r: Finding)
    ensures
        r@ == (match gpu {
            Ok(g) => good(
                g.name@ + " driver "@ + g.driver@ + " — "@ + dec(g.mem.total_mib as nat) + " MiB total, "@ + dec(
                    g.mem.free_mib as nat,
                ) + " MiB free"@,
            ),
            Err(e) => failed("nvidia-smi: "@ + e@),
        }),
{
    match gpu {
        Ok(g) => say_good(
            g.name.clone().concat(" driver ").concat(g.driver.as_str()).concat(" — ").concat(
                dec_u64(g.mem.total_mib).as_str(),
            ).concat(" MiB total, ").concat(dec_u64(g.mem.free_mib).as_str()).concat(" MiB free"),
        ),
        Err(e) => say_failed("nvidia-smi: ".to_owned().concat(e)),
    }
}

/// What is said of the memory.
pub fn ram_finding(total: u64, free: u64) -> (r: Finding)
    ensures
        r@ == good("RAM "@ + gib_tenths(total as nat) + " GiB total, "@ + gib_tenths(free as nat) + " GiB free"@),
{
    say_good(
        "RAM ".to_owned().concat(gib_tenths_text(total).as_str()).concat(" GiB total, ").concat(
            gib_tenths_text(free).as_str(),
        ).concat(" GiB free"),
    )
}

// ---------------------------------------------------------------- the engine

pub open spec fn line_from(ls: Seq<Seq<char>>, i: int) -> Seq<char>
    decreases ls.len() - i,
{
    if i < 0 || i >= ls.len() {
        Seq::empty()
    } else if holds(ls[i], "version"@) || holds(ls[i], "build"@) {
        trimmed(ls[i])
    } else {
        line_from(ls, i + 1)
    }
}

/// The line of what a server prints of itself that tells its version.
pub fn version_line(text: &str) -> (r: String)
    ensures
        r@ == line_from(lines_of(text@), 0),
{
    let ls = lines(&chars_of(text));
    let ghost lv = lines_of(text@);
    let mut i: usize = 0;
    while i < ls.len()
        invariant
            i <= ls.len(),
            lv == char_lists(ls@),
            lv == lines_of(text@),
            line_from(lv, 0) == line_from(lv, i as int),
        decreases ls.len() - i,
    {
        assert(lv[i as int] == ls@[i as int]@);
        let s = string_of(&ls[i]);
        if contains(s.as_str(), "version") || contains(s.as_str(), "build") {
            return trim_str(s.as_str());
        }
        i += 1;
    }
    String::new()
}

/// The number of a build in a word: with or without a `b` before it, between 5000 and
/// 100000.
pub open spec fn build_in(word: Seq<char>) -> Option<nat> {
    match number(without_prefix(word, "b"@), u32::MAX as nat) {
        Some(n) => if 5000 < n < 100000 {
            Some(n)
        } else {
            None
        },
        None => None,
    }
}

pub open spec fn build_from(words: Seq<Seq<char>>, i: int) -> Option<nat>
    decreases words.len() - i,
{
    if i < 0 || i >= words.len() {
        None
    } else if build_in(words[i]) is Some {
        build_in(words[i])
    } else {
        build_from(words, i + 1)
    }
}

/// The oldest build that works.
pub const OLDEST_BUILD: u64 = 10450;

/// What is said of a build that is too old.
pub fn build_finding(line: &str) -> (r: Option<Finding>)
    ensures
        match build_from(words_of(line@), 0) {
            Some(n) => if n < OLDEST_BUILD {
                r matches Some(f) && f@ == failed(
                    "llama.cpp build b"@ + dec(n)
                        + " is older than b10450; Qwen3.8 DeltaNet CUDA kernels were broken before that"@,
                )
            } else {
                r is None
            },
            None => r is None,
        },
{
    let ws = split_words(&chars_of(line));
    let ghost wv = words_of(line@);
    let mut i: usize = 0;
    while i < ws.len()
        invariant
            i <= ws.len(),
            wv == char_lists(ws@),
            wv == words_of(line@),
            build_from(wv, 0) == build_from(wv, i as int),
        decreases ws.len() - i,
    {
        assert(wv[i as int] == ws@[i as int]@);
        if let Some(n) = parse_number(&strip_prefix(&ws[i], "b"), 0xffff_ffff) {
            if 5000 < n && n < 100000 {
                if n < OLDEST_BUILD {
                    return Some(
                        say_failed(
                            "llama.cpp build b".to_owned().concat(dec_u64(n).as_str()).concat(
                                " is older than b10450; Qwen3.8 DeltaNet CUDA kernels were broken before that",
                            ),
                        ),
                    );
                }
                return None;
            }
        }
        i += 1;
    }
    None
}

/// What is said of the server.
pub fn binary_finding(external: Option<&str>, found: Result<(&str, &str), &str>) -> (r: Finding)
    ensures
        r@ == (match external {
            Some(url) => good("external provider (base_url: "@ + url@ + ")"@),
            None => match found {
                Ok((path, version)) => good(path@ + " "@ + version@),
                Err(e) => failed(e@),
            },
        }),
{
    match external {
        Some(url) => say_good("external provider (base_url: ".to_owned().concat(url).concat(")")),
        None => match found {
            Ok((path, version)) => say_good(path.to_owned().concat(" ").concat(version)),
            Err(e) => say_failed(e.to_owned()),
        },
    }
}

/// What is said of the model's file.
pub fn model_finding(profile: &Profile, external: bool, path: Option<&str>) -> (r: Finding)
    ensures
        r@ == if external {
            good(
                "profile "@ + debug_text(profile.name@) + " → external model "@ + debug_text(profile@.asked_model()),
            )
        } else {
            match path {
                Some(p) => good("profile "@ + debug_text(profile.name@) + " → "@ + p@),
                None => warned(
                    "model "@ + debug_text(profile.model@)
                        + " not present locally; `buzzcode engine doctor` without --static will download it"@,
                ),
            }
        },
{
    if external {
        return say_good(
            "profile ".to_owned().concat(quoted(profile.name.as_str()).as_str()).concat(" → external model ").concat(
                quoted(profile.request_model().as_str()).as_str(),
            ),
        );
    }
    match path {
        Some(p) => say_good(
            "profile ".to_owned().concat(quoted(profile.name.as_str()).as_str()).concat(" → ").concat(p),
        ),
        None => say_warned(
            "model ".to_owned().concat(quoted(profile.model.as_str()).as_str()).concat(
                " not present locally; `buzzcode engine doctor` without --static will download it",
            ),
        ),
    }
}

pub const NO_MTP: &'static str =
    "profile requests draft-mtp but GGUF has no MTP tensors — server will fall back / error; set spec = \"none\" or \"ngram-simple\"";

/// Nothing, or one finding.
pub open spec fn only(c: bool, f: FindingV) -> Seq<FindingV> {
    if c {
        seq![f]
    } else {
        Seq::empty()
    }
}

/// What is said of a model.
pub open spec fn facts_found(f: FactsV, spec: Seq<char>, windows: bool) -> Seq<FindingV> {
    seq![good(f.summary(windows))] + only(
        f.n_attn_layers > 0 && f.n_recurrent_layers > 0,
        good(
            "hybrid attention: "@ + dec(f.n_attn_layers as nat) + " full-attn + "@ + dec(f.n_recurrent_layers as nat)
                + " recurrent layers → small KV cache; --cache-reuse is NOT used"@,
        ),
    ) + only(spec == "draft-mtp"@ && !f.has_mtp, warned(NO_MTP@)) + only(
        f.has_mtp,
        good("MTP head present (speculative decoding available)"@),
    ) + only(f.chat_template is None, warned("no chat template embedded; set profile.chat_template_file"@))
}

fn add(out: &mut Vec<Finding>, c: bool, f: Finding)
    ensures
        views(final(out)@) == views(old(out)@) + only(c, f@),
{
    let ghost b = out@;
    if c {
        out.push(f);
        assert(views(out@) =~= views(b) + seq![f@]);
    } else {
        assert(views(out@) =~= views(b) + Seq::<FindingV>::empty());
    }
}

pub fn facts_findings(f: &ModelFacts, spec: &str, windows: bool) -> (r: Vec<Finding>)
    ensures
        views(r@) == facts_found(f@, spec@, windows),
{
    let first = say_good(f.summary(windows));
    let mut out = vec![first];
    assert(views(out@) =~= seq![good(f@.summary(windows))]);
    let hybrid = say_good(
        "hybrid attention: ".to_owned().concat(dec_u64(f.n_attn_layers as u64).as_str()).concat(" full-attn + ").concat(
            dec_u64(f.n_recurrent_layers as u64).as_str(),
        ).concat(" recurrent layers → small KV cache; --cache-reuse is NOT used"),
    );
    self::add(&mut out, f.n_attn_layers > 0 && f.n_recurrent_layers > 0, hybrid);
    self::add(&mut out, str_eq(spec, "draft-mtp") && !f.has_mtp, say_warned(NO_MTP.to_owned()));
    self::add(
        &mut out,
        f.has_mtp,
        say_good("MTP head present (speculative decoding available)".to_owned()),
    );
    self::add(
        &mut out,
        f.chat_template.is_none(),
        say_warned("no chat template embedded; set profile.chat_template_file".to_owned()),
    );
    out
}

pub const NOT_ALL_FITS: &'static str =
    "model does not fully fit: expect slower decode. Close GPU-heavy apps (browsers, Adobe) or pick a smaller quant (IQ3_XXS / Q3_K_S)";

/// What is said of a plan.
pub open spec fn plan_found(p: PlanV, f: FactsV, mem: GpuMem) -> Seq<FindingV> {
    seq![
        good(
            "ngl="@ + dec(p.ngl as nat) + " ctx="@ + dec(p.n_ctx as nat) + " ffn_cpu_blocks="@ + dec(
                p.ffn_cpu_blocks as nat,
            ) + " → est "@ + gib(p.est_vram_bytes as nat) + " GiB of "@ + gib(mib_bytes(mem.free_mib)) + " GiB free"@,
        ),
    ] + only(p.ffn_cpu_blocks > 0 || p.ngl <= f.layer_bytes.len(), warned(NOT_ALL_FITS@)) + only(
        mem.used_mib > 1500,
        warned(dec(mem.used_mib as nat) + " MiB VRAM already in use by other processes"@),
    )
}

pub fn plan_findings(p: &VramPlan, f: &ModelFacts, mem: &GpuMem) -> (r: Vec<Finding>)
    ensures
        views(r@) == plan_found(p@, f@, *mem),
{
    let first = say_good(
        "ngl=".to_owned().concat(dec_u64(p.ngl as u64).as_str()).concat(" ctx=").concat(
            dec_u64(p.n_ctx as u64).as_str(),
        ).concat(" ffn_cpu_blocks=").concat(dec_u64(p.ffn_cpu_blocks as u64).as_str()).concat(" → est ").concat(
            gib_text(p.est_vram_bytes).as_str(),
        ).concat(" GiB of ").concat(gib_text(mem.free_bytes()).as_str()).concat(" GiB free"),
    );
    let mut out = vec![first];
    assert(views(out@) =~= seq![first@]);
    self::add(
        &mut out,
        p.ffn_cpu_blocks > 0 || p.ngl as usize <= f.layer_bytes.len(),
        say_warned(NOT_ALL_FITS.to_owned()),
    );
    self::add(
        &mut out,
        mem.used_mib > 1500,
        say_warned(dec_u64(mem.used_mib).concat(" MiB VRAM already in use by other processes")),
    );
    out
}

/// Whether the server is tried, and not only looked at.
pub fn goes_live(static_only: bool, external: bool, has_binary: bool, has_gpu: bool) -> (r: bool)
    ensures
        r == (!static_only && (external || (has_binary && has_gpu))),
{
    !(static_only || (!external && !has_binary) || (!external && !has_gpu))
}

// ---------------------------------------------------------------- the live server

/// Whether a character can be seen or is white space.
pub open spec fn is_printable(c: char) -> bool {
    '!' <= c <= '~' || is_space(c)
}

pub open spec fn printable_in(s: Seq<char>, n: nat) -> nat
    decreases n,
{
    if n == 0 || n > s.len() {
        0
    } else {
        printable_in(s, (n - 1) as nat) + (if is_printable(s[n - 1]) {
            1nat
        } else {
            0nat
        })
    }
}

pub open spec fn some_digit(s: Seq<char>) -> bool {
    exists|i: int| 0 <= i < s.len() && is_digit(#[trigger] s[i])
}

/// Whether an answer makes sense: more than nine tenths of it can be read, it has a digit,
/// and it is not too short.
pub open spec fn is_coherent(s: Seq<char>) -> bool {
    printable_in(s, s.len()) * 10 > s.len() * 9 && some_digit(s) && byte_len(s) > 15
}

/// The answer, or the thinking where there is no answer.
pub open spec fn answer_of(content: Seq<char>, reasoning: Seq<char>) -> Seq<char> {
    if trimmed(content).len() == 0 && trimmed(reasoning).len() > 0 {
        reasoning
    } else {
        content
    }
}

fn check_coherent(s: &str) -> (r: bool)
    ensures
        r == is_coherent(s@),
{
    let cs = chars_of(s);
    let mut n: u64 = 0;
    let mut found = false;
    let mut i: usize = 0;
    while i < cs.len()
        invariant
            i <= cs.len(),
            cs@ == s@,
            n <= i,
            n == printable_in(s@, i as nat),
            found == exists|k: int| 0 <= k < i && is_digit(#[trigger] s@[k]),
        decreases cs.len() - i,
    {
        let c = cs[i];
        if ('!' <= c && c <= '~') || space(c) {
            n += 1;
        }
        if digit(c) {
            found = true;
        }
        i += 1;
    }
    n as u128 * 10 > cs.len() as u128 * 9 && found && bytes_in(s) > 15
}

/// What is said of an answer.
pub fn coherence_finding(content: &str, reasoning: &str) -> (r: Finding)
    ensures
        ({
            let t = answer_of(content@, reasoning@);
            r@ == if is_coherent(t) {
                good("coherence: "@ + debug_text(first_chars(trimmed(t), 100)))
            } else {
                failed("coherence test looks garbled: "@ + debug_text(first_chars(t, 120)))
            }
        }),
{
    let t = if trim_str(content).as_str().is_empty() && !trim_str(reasoning).as_str().is_empty() {
        reasoning
    } else {
        content
    };
    if check_coherent(t) {
        let s = trim_str(t);
        say_good("coherence: ".to_owned().concat(quoted(take_chars(s.as_str(), 100).as_str()).as_str()))
    } else {
        say_failed(
            "coherence test looks garbled: ".to_owned().concat(quoted(take_chars(t, 120).as_str()).as_str()),
        )
    }
}

/// Whether at least 85 of 100 tokens of a prompt came from the cache.
pub open spec fn is_reused(t: TimingsV) -> bool {
    let total = t.prompt_n + t.cache_n;
    total > 0 && t.cache_n * 20 >= total * 17
}

/// What is said of the cache after two requests. `percent` and `ms` are the share that came
/// from it and the time of the prompt, in whole numbers.
pub fn cache_finding(first: &Timings, second: &Timings, percent: &str, ms: &str) -> (r: Finding)
    ensures
        r@ == if is_reused(second@) {
            good(
                "prefix cache reuse: turn1 prompt_n="@ + dec((first.prompt_n + first.cache_n) as nat)
                    + " → turn2 cache_n="@ + dec(second.cache_n as nat) + " prompt_n="@ + dec(second.prompt_n as nat)
                    + " ("@ + percent@ + "% cached, prompt "@ + ms@ + " ms)"@,
            )
        } else {
            failed(
                "prefix cache NOT reused: turn2 cache_n="@ + dec(second.cache_n as nat) + " prompt_n="@ + dec(
                    second.prompt_n as nat,
                ) + " ("@ + percent@ + "%)"@,
            )
        },
{
    let total: u64 = second.prompt_n as u64 + second.cache_n as u64;
    if total > 0 && second.cache_n as u64 * 20 >= total * 17 {
        let all: u64 = first.prompt_n as u64 + first.cache_n as u64;
        say_good(
            "prefix cache reuse: turn1 prompt_n=".to_owned().concat(dec_u64(all).as_str()).concat(
                " → turn2 cache_n=",
            ).concat(dec_u64(second.cache_n as u64).as_str()).concat(" prompt_n=").concat(
                dec_u64(second.prompt_n as u64).as_str(),
            ).concat(" (").concat(percent).concat("% cached, prompt ").concat(ms).concat(" ms)"),
        )
    } else {
        say_failed(
            "prefix cache NOT reused: turn2 cache_n=".to_owned().concat(
                dec_u64(second.cache_n as u64).as_str(),
            ).concat(" prompt_n=").concat(dec_u64(second.prompt_n as u64).as_str()).concat(" (").concat(
                percent,
            ).concat("%)"),
        )
    }
}

/// How many characters two texts begin with in common, from `i` on.
pub open spec fn common_from(a: Seq<char>, b: Seq<char>, i: int) -> int
    decreases a.len() - i,
{
    if 0 <= i < a.len() && i < b.len() && a[i] == b[i] {
        common_from(a, b, i + 1)
    } else {
        i
    }
}

/// The byte at which a text stands in another; zero where it does not.
pub open spec fn byte_place(s: Seq<char>, p: Seq<char>) -> nat {
    match find_from(s, p, 0) {
        Some(k) => byte_len(s.take(k)),
        None => 0,
    }
}

pub const SAME_PROMPT: &'static str =
    "reasoning_effort does not change the rendered prompt (template ignores it or handles it server-side)";

/// What is said of two prompts that differ in the effort alone.
pub open spec fn effort_found(a: Seq<char>, b: Seq<char>) -> FindingV {
    let common = common_from(a, b, 0) as nat;
    let end = byte_place(a, "ping"@);
    if a == b {
        good(SAME_PROMPT@)
    } else if common >= end {
        good(
            "reasoning_effort only changes the prompt tail (common prefix "@ + dec(common) + " chars ≥ system end "@
                + dec(end) + ") → safe to vary per turn"@,
        )
    } else {
        warned(
            "reasoning_effort changes the prompt BEFORE the user message (common prefix "@ + dec(common) + " < "@ + dec(
                end,
            ) + ") → pin one effort per session"@,
        )
    }
}

pub fn effort_finding(a: &str, b: &str) -> (r: Finding)
    ensures
        r@ == effort_found(a@, b@),
{
    let ca = chars_of(a);
    let cb = chars_of(b);
    let mut i: usize = 0;
    while i < ca.len() && i < cb.len() && ca[i] == cb[i]
        invariant
            i <= ca.len(),
            i <= cb.len(),
            ca@ == a@,
            cb@ == b@,
            common_from(a@, b@, 0) == common_from(a@, b@, i as int),
        decreases ca.len() - i,
    {
        i += 1;
    }
    let end: usize = match find(&ca, &chars_of("ping"), 0) {
        Some(k) => {
            let head = string_of_range(&ca, 0, k);
            assert(head@ =~= a@.take(k as int));
            bytes_in(head.as_str())
        },
        None => 0,
    };
    if str_eq(a, b) {
        return say_good(SAME_PROMPT.to_owned());
    }
    if i >= end {
        say_good(
            "reasoning_effort only changes the prompt tail (common prefix ".to_owned().concat(
                dec_u64(i as u64).as_str(),
            ).concat(" chars ≥ system end ").concat(dec_u64(end as u64).as_str()).concat(
                ") → safe to vary per turn",
            ),
        )
    } else {
        say_warned(
            "reasoning_effort changes the prompt BEFORE the user message (common prefix ".to_owned().concat(
                dec_u64(i as u64).as_str(),
            ).concat(" < ").concat(dec_u64(end as u64).as_str()).concat(") → pin one effort per session"),
        )
    }
}

/// Whether the arguments of a call name a path.
pub open spec fn names_path(arguments: Seq<char>) -> bool {
    match parsed(arguments) {
        Ok(v) => v.get("path"@) is Some,
        Err(_) => false,
    }
}

/// What is said of an answer that should call a tool.
pub open spec fn tool_call_found(content: Seq<char>, calls: Seq<ToolCallAccV>) -> FindingV {
    if calls.len() > 0 {
        let c = calls[0];
        if c.name == "read_file"@ && names_path(c.arguments) {
            good("native tool call parsed by server: "@ + c.name + "("@ + c.arguments + ")"@)
        } else {
            warned("tool call present but odd: name="@ + c.name + " args="@ + c.arguments)
        }
    } else if holds(content, "<tool_call>"@) || holds(content, "read_file"@) {
        warned(
            "server did not parse the tool call natively (harness parser will handle): "@ + debug_text(
                first_chars(content, 160),
            ),
        )
    } else {
        warned("model did not call the tool: "@ + debug_text(first_chars(content, 160)))
    }
}

pub fn tool_call_finding(content: &str, calls: &Vec<ToolCallAcc>) -> (r: Finding)
    ensures
        r@ == tool_call_found(content@, accs(calls@)),
{
    if calls.len() > 0 {
        let c = &calls[0];
        assert(accs(calls@)[0] == c@);
        let has_path = match Json::parse(c.arguments.as_str()) {
            Ok(v) => v.get("path").is_some(),
            Err(_) => false,
        };
        if str_eq(c.name.as_str(), "read_file") && has_path {
            say_good(
                "native tool call parsed by server: ".to_owned().concat(c.name.as_str()).concat("(").concat(
                    c.arguments.as_str(),
                ).concat(")"),
            )
        } else {
            say_warned(
                "tool call present but odd: name=".to_owned().concat(c.name.as_str()).concat(" args=").concat(
                    c.arguments.as_str(),
                ),
            )
        }
    } else if contains(content, "<tool_call>") || contains(content, "read_file") {
        say_warned(
            "server did not parse the tool call natively (harness parser will handle): ".to_owned().concat(
                quoted(take_chars(content, 160).as_str()).as_str(),
            ),
        )
    } else {
        say_warned(
            "model did not call the tool: ".to_owned().concat(quoted(take_chars(content, 160).as_str()).as_str()),
        )
    }
}

/// What is said of a slot that was saved and restored.
pub fn slot_finding(saved: Result<&Json, &str>, restored: Result<(), &str>) -> (r: Finding)
    ensures
        r@ == (match saved {
            Ok(v) => match restored {
                Ok(_) => good(
                    "slot save/restore works ("@ + dec(
                        match get_u64(v@, "n_saved"@) {
                            Some(n) => n as nat,
                            None => 0,
                        },
                    ) + " tokens)"@,
                ),
                Err(e) => warned("slot restore failed: "@ + e@),
            },
            Err(e) => warned("slot save unavailable: "@ + e@),
        }),
{
    match saved {
        Ok(v) => match restored {
            Ok(_) => {
                let n: u64 = match v.get("n_saved") {
                    Some(x) => match x.as_u64() {
                        Some(n) => n,
                        None => 0,
                    },
                    None => 0,
                };
                say_good(
                    "slot save/restore works (".to_owned().concat(dec_u64(n).as_str()).concat(" tokens)"),
                )
            },
            Err(e) => say_warned("slot restore failed: ".to_owned().concat(e)),
        },
        Err(e) => say_warned("slot save unavailable: ".to_owned().concat(e)),
    }
}

/// Every finding is counted once: as good, as a warning or as a failure.
pub proof fn law_every_finding_is_counted(r: Report, l: Level)
    requires
        r.ok < u32::MAX,
        r.warn < u32::MAX,
        r.fail < u32::MAX,
    ensures
        ({
            let s = match l {
                Level::Good => Report { ok: plus_one(r.ok), ..r },
                Level::Warn => Report { warn: plus_one(r.warn), ..r },
                Level::Fail => Report { fail: plus_one(r.fail), ..r },
            };
            s.ok + s.warn + s.fail == r.ok + r.warn + r.fail + 1
        }),
{
}

/// Of the entries of the directory those are toolkits that begin with `v`, and of these each that
/// can be used is kept, in their order.
pub proof fn law_usable_toolkits(names: Seq<Seq<char>>, n: nat)
    requires
        n <= names.len(),
    ensures
        usable_of(names, n) == names.take(n as int).filter(|s: Seq<char>| is_usable(s)),
        toolkits(names, n) == names.take(n as int).filter(|s: Seq<char>| begins(s, "v"@)),
    decreases n,
{
    reveal(Seq::filter);
    let f = |s: Seq<char>| is_usable(s);
    let g = |s: Seq<char>| begins(s, "v"@);
    if n > 0 {
        law_usable_toolkits(names, (n - 1) as nat);
        let t = names.take(n as int);
        assert(t.drop_last() =~= names.take(n - 1));
        assert(t.last() == names[n - 1]);
    } else {
        assert(names.take(0).len() == 0);
        assert(usable_of(names, 0) =~= names.take(0).filter(f));
        assert(toolkits(names, 0) =~= names.take(0).filter(g));
    }
}

/// The number of a build is the first of the words that is one.
pub proof fn law_the_build_is_found(words: Seq<Seq<char>>, i: int, k: int, n: nat)
    requires
        0 <= i <= k < words.len(),
        5000 < n < 100000,
        words[k] == dec(n) || words[k] == seq!['b'] + dec(n),
        forall|j: int| i <= j < k ==> build_in(#[trigger] words[j]) is None,
    ensures
        build_from(words, i) == Some(n),
    decreases k - i,
{
    if i < k {
        law_the_build_is_found(words, i + 1, k, n);
    } else {
        reveal_strlit("b");
        law_decimal_is_read_back(n, u32::MAX as nat);
        let w = words[k];
        assert(is_digit(dec(n)[0]));
        if w == dec(n) {
            if begins(w, "b"@) {
                assert(w.subrange(0, 1)[0] == w[0]);
            }
        } else {
            assert(w.subrange(0, 1) =~= "b"@);
            assert(begins(w, "b"@));
            assert(w.skip(1) =~= dec(n));
        }
    }
}

/// Two texts begin alike up to the first place where they differ.
pub proof fn law_texts_are_alike_up_to_where_they_differ(a: Seq<char>, b: Seq<char>, i: int)
    requires
        0 <= i <= a.len(),
        i <= b.len(),
    ensures
        ({
            let k = common_from(a, b, i);
            &&& i <= k <= a.len() && k <= b.len()
            &&& forall|j: int| i <= j < k ==> a[j] == b[j]
            &&& k < a.len() && k < b.len() ==> a[k] != b[k]
        }),
    decreases a.len() - i,
{
    if i < a.len() && i < b.len() && a[i] == b[i] {
        law_texts_are_alike_up_to_where_they_differ(a, b, i + 1);
    }
}

/// A prompt came from the cache where at least 85 of each 100 of its tokens did.
pub proof fn law_what_counts_as_reused(t: TimingsV)
    ensures
        is_reused(t) <==> t.prompt_n + t.cache_n > 0 && 100 * t.cache_n >= 85 * (t.prompt_n + t.cache_n),
{
}

/// A model that cannot draft is warned of where its profile wants to; one without a template is
/// warned of too; and what is well is told as such.
pub proof fn law_what_is_said_of_a_model(f: FactsV, spec: Seq<char>, windows: bool)
    ensures
        ({
            let r = facts_found(f, spec, windows);
            &&& r[0] == good(f.summary(windows))
            &&& spec == "draft-mtp"@ && !f.has_mtp ==> r.contains(warned(NO_MTP@))
            &&& f.chat_template is None ==> r.last().level == Level::Warn
            &&& forall|i: int| 0 <= i < r.len() ==> (#[trigger] r[i]).level != Level::Fail
        }),
{
    let a = seq![good(f.summary(windows))];
    let b = only(
        f.n_attn_layers > 0 && f.n_recurrent_layers > 0,
        good(
            "hybrid attention: "@ + dec(f.n_attn_layers as nat) + " full-attn + "@ + dec(f.n_recurrent_layers as nat)
                + " recurrent layers → small KV cache; --cache-reuse is NOT used"@,
        ),
    );
    let c = only(spec == "draft-mtp"@ && !f.has_mtp, warned(NO_MTP@));
    if spec == "draft-mtp"@ && !f.has_mtp {
        assert(c[0] == warned(NO_MTP@));
        assert(facts_found(f, spec, windows)[(a.len() + b.len()) as int] == c[0]);
    }
}

/// An answer is taken for sense where more than nine tenths of its characters can be read, one is
/// a digit, and it has more than fifteen bytes; thinking counts only where there is no answer.
pub proof fn law_what_counts_as_sense(s: Seq<char>, reasoning: Seq<char>)
    ensures
        is_coherent(s) <==> s.filter(|c: char| is_printable(c)).len() * 10 > s.len() * 9 && byte_len(s) > 15 && (exists|
            i: int,
        |
            0 <= i < s.len() && is_digit(#[trigger] s[i])),
        trimmed(s).len() > 0 ==> answer_of(s, reasoning) == s,
        trimmed(s).len() == 0 && trimmed(reasoning).len() > 0 ==> answer_of(s, reasoning) == reasoning,
{
    lemma_printable(s, s.len());
    assert(s.take(s.len() as int) =~= s);
}

proof fn lemma_printable(s: Seq<char>, n: nat)
    requires
        n <= s.len(),
    ensures
        printable_in(s, n) == s.take(n as int).filter(|c: char| is_printable(c)).len(),
    decreases n,
{
    reveal(Seq::filter);
    let f = |c: char| is_printable(c);
    if n > 0 {
        lemma_printable(s, (n - 1) as nat);
        let t = s.take(n as int);
        assert(t.drop_last() =~= s.take(n - 1));
        assert(t.last() == s[n - 1]);
    } else {
        assert(s.take(0).len() == 0);
    }
}

/// A tool call that the server understood is well; one of another tool, or without its path, is
/// warned of, and so is an answer without any.
pub proof fn law_what_is_said_of_a_call(content: Seq<char>, calls: Seq<ToolCallAccV>)
    ensures
        calls.len() == 0 ==> tool_call_found(content, calls).level == Level::Warn,
        calls.len() > 0 ==> (tool_call_found(content, calls).level == Level::Good <==> calls[0].name == "read_file"@
            && names_path(calls[0].arguments)),
        tool_call_found(content, calls).level != Level::Fail,
{
}

/// Prompts of two efforts are well where they are the same, or differ only behind the message of
/// the user; else they are warned of.
pub proof fn law_what_is_said_of_efforts(a: Seq<char>, b: Seq<char>)
    ensures
        a == b ==> effort_found(a, b).level == Level::Good,
        a != b ==> (effort_found(a, b).level == Level::Good <==> common_from(a, b, 0) >= byte_place(a, "ping"@)),
        effort_found(a, b).level != Level::Fail,
{
    law_texts_are_alike_up_to_where_they_differ(a, b, 0);
}

/// Toolkits that can be used are well; without a directory of them that is warned of; where none
/// can be used that is a failure, unless there is the one that must not be.
#[verifier::rlimit(40)]
pub proof fn law_what_is_said_of_toolkits(names: Seq<Seq<char>>)
    ensures
        cuda_found(None).level == Level::Warn,
        (exists|i: int| 0 <= i < names.len() && begins(#[trigger] names[i], "v"@) && is_usable(names[i])) <==> cuda_found(
            Some(names),
        ).level == Level::Good,
{
    let kits = toolkits(names, names.len());
    let sorted = ranked::<Named>(kits, kits.len());
    let usable = usable_of(sorted, sorted.len());
    law_usable_toolkits(names, names.len());
    law_usable_toolkits(sorted, sorted.len());
    law_ranking_keeps_every_value::<Named>(kits, kits.len());
    assert(kits.take(kits.len() as int) =~= kits);
    assert(names.take(names.len() as int) =~= names);
    assert(sorted.take(sorted.len() as int) =~= sorted);
    broadcast use vstd::seq_lib::group_to_multiset_ensures;

    let f = |s: Seq<char>| is_usable(s);
    let g = |s: Seq<char>| begins(s, "v"@);
    if exists|i: int| 0 <= i < names.len() && begins(#[trigger] names[i], "v"@) && is_usable(names[i]) {
        let i = choose|i: int| 0 <= i < names.len() && begins(#[trigger] names[i], "v"@) && is_usable(names[i]);
        assert(g(names[i]));
        names.lemma_filter_contains(g, i);
        assert(kits.contains(names[i]));
        assert(kits.to_multiset().count(names[i]) > 0);
        assert(sorted.contains(names[i]));
        let j = choose|j: int| 0 <= j < sorted.len() && sorted[j] == names[i];
        assert(f(sorted[j]));
        sorted.lemma_filter_contains(f, j);
        assert(usable.contains(names[i]));
    }
    if usable.len() > 0 {
        let x = usable[0];
        sorted.lemma_filter_pred(f, 0);
        assert(usable.contains(x));
        sorted.lemma_filter_contains_rev(f, x);
        assert(sorted.to_multiset().count(x) > 0);
        assert(kits.contains(x));
        let k = choose|k: int| 0 <= k < kits.len() && kits[k] == x;
        names.lemma_filter_pred(g, k);
        names.lemma_filter_contains_rev(g, x);
        let i = choose|i: int| 0 <= i < names.len() && names[i] == x;
        assert(begins(names[i], "v"@) && is_usable(names[i]));
    }
}

} // verus!
