//! The command line: what can be asked for, and what it changes in the settings.

use crate::config::{
    Bench, Config, ConfigV, Engine, EngineProvider, GeneralV, PermissionModeCfg, Profile, ProfileV,
    lemma_profile_from, profile_from, profile_views,
};
use crate::decimal::{
    DecimalV, decimal_of, leading_value, lemma_leading_grows, lemma_leading_is_value,
    lemma_leading_zero, read_decimal,
};
use crate::permission::PermissionMode;
use crate::text::{
    all_digits, char_from, chars_of, debug_text, dec, is_digit, is_space, law_decimal_is_read_back,
    law_trimming_takes_off_white_space, lemma_char_from, lower, lowered, number, parse_number,
    quoted, replace_chars, slice, str_eq, string_of, string_of_range, to_lowered, trim_str, trimmed,
    with_char,
};
use vstd::prelude::*;
use vstd::string::*;

verus! {

/// What the program is called with.
#[derive(Debug)]
pub struct Cli {
    /// The project; the current directory where it is not given.
    pub dir: Option<String>,
    pub profile: Option<String>,
    /// A model for this run: its number, its name, its file or a profile.
    pub model: Option<String>,
    pub log: Option<String>,
    /// What is to be done without a terminal interface.
    pub prompt: Option<String>,
    /// Whether events are written as JSON lines.
    pub json: bool,
    pub mode: Option<String>,
    /// The context size for this run.
    pub ctx: Option<String>,
    /// Whether the engine is started though the guardian refuses.
    pub force: bool,
    pub cmd: Option<Cmd>,
}

#[derive(Debug)]
#[allow(inconsistent_fields)]
pub enum Cmd {
    Engine { cmd: EngineCmd },
    Models { cmd: Option<ModelsCmd> },
    Arcade { demo: bool, no_open: bool },
    Bench { cmd: BenchCmd },
    Index { cmd: IndexCmd },
    Config { init: bool },
}

#[derive(Debug)]
pub enum EngineCmd {
    Build { pin: Option<String>, clean: bool, allow_cuda_132: bool, allow_unsupported_compiler: bool },
    Prebuilt { tag: Option<String> },
    Doctor { only_static: bool, keep: bool },
    Inspect { path: Option<String>, tensors: bool },
    Plan,
    Models,
    Serve,
    Stop,
    Restart,
    Status,
    Tune,
}

#[derive(Debug)]
pub enum ModelsCmd {
    Use { selection: String },
    Auto,
}

#[derive(Debug)]
pub enum IndexCmd {
    Scan,
    ShowMap { budget: u32, focus: Vec<String> },
    Search { query: String, kind: Option<String>, limit: usize },
    Outline { path: String },
}

#[derive(Debug)]
pub enum BenchCmd {
    Engine { prompt_sizes: Vec<u32>, gen_tokens: u32 },
    Cache { turns: u32 },
    Eval { filter: Option<String> },
}

// ---------------------------------------------------------------- the context size

/// Why a context size is refused.
#[derive(Debug, Clone, Copy, PartialEq, Eq, Structural)]
pub enum CtxError {
    NotANumber,
    OutOfRange,
}

impl CtxError {
    pub fn to_string(&self) -> (r: String)
        ensures
            r@ == (match self {
                CtxError::NotANumber => "invalid number"@,
                CtxError::OutOfRange => "context must be between 2k and 1024k"@,
            }),
    {
        match self {
            CtxError::NotANumber => "invalid number".to_owned(),
            CtxError::OutOfRange => "context must be between 2k and 1024k".to_owned(),
        }
    }
}

/// The whole part of 1024 times the fraction that the digits behind the point denote.
pub open spec fn fraction_of_1024(digits: Seq<char>) -> nat
    decreases digits.len(),
{
    if digits.len() == 0 {
        0
    } else {
        (((digits[0] as u32 - '0' as u32) as nat * 1024 + fraction_of_1024(digits.drop_first())) / 10) as nat
    }
}

/// The whole part of 1024 times a number; zero for one that is negative.
pub open spec fn times_1024(d: DecimalV) -> nat {
    let n = d.digits.len() + d.shift;
    if d.negative || n <= 0 {
        0
    } else {
        leading_value(d.digits, n as nat) * 1024 + (if n < d.digits.len() {
            fraction_of_1024(d.digits.skip(n))
        } else {
            0
        })
    }
}

pub open spec fn without_plus(s: Seq<char>) -> Seq<char> {
    if s.len() > 0 && s[0] == '+' {
        s.drop_first()
    } else {
        s
    }
}

/// The words for what is no finite number.
pub open spec fn is_no_finite(s: Seq<char>) -> bool {
    let w = if s.len() > 0 && (s[0] == '+' || s[0] == '-') {
        s.drop_first()
    } else {
        s
    };
    w == "inf"@ || w == "infinity"@ || w == "nan"@
}

/// The tokens that a text asks for: a number, or a number of 1024 tokens with a `k`
/// behind it.
pub open spec fn asked_tokens(s: Seq<char>) -> Result<nat, CtxError> {
    let t = lowered(trimmed(s));
    if t.len() > 0 && t.last() == 'k' {
        let k = t.drop_last();
        if is_no_finite(k) {
            Err(CtxError::OutOfRange)
        } else {
            match decimal_of(without_plus(k)) {
                Some(d) => if k.len() > 1 && k[0] == '+' && k[1] == '-' {
                    Err(CtxError::NotANumber)
                } else {
                    Ok(times_1024(d))
                },
                None => Err(CtxError::NotANumber),
            }
        }
    } else {
        match number(t, u64::MAX as nat) {
            Some(n) => Ok(n),
            None => Err(CtxError::NotANumber),
        }
    }
}

/// The context size that a text asks for: between 2048 and 1048576 tokens, in steps of
/// 256, up to the next step.
pub open spec fn ctx_of(s: Seq<char>) -> Result<u32, CtxError> {
    match asked_tokens(s) {
        Ok(n) => if 2048 <= n <= 0x10_0000 {
            Ok(((n + 255) / 256 * 256) as u32)
        } else {
            Err(CtxError::OutOfRange)
        },
        Err(e) => Err(e),
    }
}

proof fn lemma_fraction_small(d: Seq<char>)
    requires
        all_digits(d),
    ensures
        fraction_of_1024(d) < 1024,
    decreases d.len(),
{
    if d.len() > 0 {
        assert(is_digit(d[0]));
        assert(all_digits(d.drop_first())) by {
            assert forall|i: int| 0 <= i < d.drop_first().len() implies is_digit(#[trigger] d.drop_first()[i]) by {
                assert(d.drop_first()[i] == d[i + 1]);
            }
        }
        lemma_fraction_small(d.drop_first());
    }
}

fn scale_fraction(d: &Vec<char>, from: usize) -> (r: u64)
    requires
        from <= d.len(),
        all_digits(d@),
    ensures
        r == fraction_of_1024(d@.skip(from as int)),
        r < 1024,
{
    let mut i: usize = d.len();
    let mut carry: u64 = 0;
    assert(d@.skip(i as int) =~= Seq::<char>::empty());
    while i > from
        invariant
            from <= i <= d.len(),
            all_digits(d@),
            carry == fraction_of_1024(d@.skip(i as int)),
            carry < 1024,
        decreases i,
    {
        i -= 1;
        assert(is_digit(d@[i as int]));
        let c = d[i] as u32 - 48;
        assert(d@.skip(i as int).drop_first() =~= d@.skip(i + 1));
        assert(d@.skip(i as int)[0] == d@[i as int]);
        carry = (c as u64 * 1024 + carry) / 10;
    }
    carry
}

fn scale_1024(t: &str) -> (r: Option<Option<u64>>)
    ensures
        match r {
            None => decimal_of(t@) is None,
            Some(None) => decimal_of(t@) matches Some(d) && times_1024(d) > 0x10_0000,
            Some(Some(n)) => decimal_of(t@) matches Some(d) && times_1024(d) == n,
        },
{
    let d = match read_decimal(t) {
        Some(d) => d,
        None => {
            return None;
        },
    };
    let n: i128 = d.digits.len() as i128 + d.shift;
    if d.negative || n <= 0 {
        return Some(Some(0));
    }
    let whole = whole_part(&d.digits, n);
    match whole {
        None => Some(None),
        Some(w) => {
            let f: u64 = if n < d.digits.len() as i128 {
                scale_fraction(&d.digits, n as usize)
            } else {
                0
            };
            Some(Some(w * 1024 + f))
        },
    }
}

/// The value of the first `n` digits, where it is not above 1024.
fn whole_part(d: &Vec<char>, n: i128) -> (r: Option<u64>)
    requires
        n > 0,
        all_digits(d@),
    ensures
        match r {
            Some(v) => leading_value(d@, n as nat) == v && v <= 1024,
            None => leading_value(d@, n as nat) > 1024,
        },
{
    let mut v: u64 = 0;
    let mut i: i128 = 0;
    while i < n
        invariant
            0 <= i <= n,
            all_digits(d@),
            v == leading_value(d@, i as nat),
            v <= 1024,
        decreases n - i,
    {
        if i >= d.len() as i128 {
            if v == 0 {
                proof {
                    lemma_leading_zero(d@, i as nat, n as nat);
                }
                return Some(0);
            }
            v = v * 10;
        } else {
            assert(is_digit(d@[i as int]));
            let c = d[i as usize] as u32 - 48;
            v = v * 10 + c as u64;
        }
        i += 1;
        if v > 1024 {
            proof {
                lemma_leading_grows(d@, i as nat, n as nat);
            }
            return None;
        }
    }
    Some(v)
}

fn no_finite(k: &Vec<char>) -> (r: bool)
    ensures
        r == is_no_finite(k@),
{
    let from: usize = if k.len() > 0 && (k[0] == '+' || k[0] == '-') {
        1
    } else {
        0
    };
    let w = string_of_range(k, from, k.len());
    assert(w@ =~= if from == 1 {
        k@.drop_first()
    } else {
        k@
    });
    str_eq(w.as_str(), "inf") || str_eq(w.as_str(), "infinity") || str_eq(w.as_str(), "nan")
}

/// The context size that a text asks for.
pub fn parse_ctx(s: &str) -> (r: Result<u32, CtxError>)
    ensures
        r == ctx_of(s@),
{
    let t = to_lowered(trim_str(s).as_str());
    let n: u64 = if t.len() > 0 && t[t.len() - 1] == 'k' {
        let k = slice(&t, 0, t.len() - 1);
        assert(k@ =~= t@.drop_last());
        if no_finite(&k) {
            return Err(CtxError::OutOfRange);
        }
        let plus = k.len() > 0 && k[0] == '+';
        let body = if plus {
            let b = string_of_range(&k, 1, k.len());
            assert(b@ =~= k@.drop_first());
            b
        } else {
            string_of(&k)
        };
        match scale_1024(body.as_str()) {
            None => {
                return Err(CtxError::NotANumber);
            },
            Some(v) => {
                if plus && k.len() > 1 && k[1] == '-' {
                    return Err(CtxError::NotANumber);
                }
                match v {
                    None => {
                        return Err(CtxError::OutOfRange);
                    },
                    Some(n) => n,
                }
            },
        }
    } else {
        match parse_number(&t, u64::MAX) {
            Some(n) => n,
            None => {
                return Err(CtxError::NotANumber);
            },
        }
    };
    if n < 2048 || n > 0x10_0000 {
        return Err(CtxError::OutOfRange);
    }
    Ok(((n + 255) / 256 * 256) as u32)
}

/// A context size that is accepted is a multiple of 256 from 2048 to 1048576, no less than
/// was asked for, and less than 256 above it.
pub proof fn law_context_sizes_are_in_steps(s: Seq<char>)
    ensures
        ctx_of(s) matches Ok(n) ==> n % 256 == 0 && 2048 <= n <= 0x10_0000 && (asked_tokens(s) matches Ok(a) && a <= n
            < a + 256),
{
}

// ---------------------------------------------------------------- modes

/// The permission mode that a word means.
pub open spec fn mode_meant(word: Seq<char>) -> Option<PermissionMode> {
    if word == "ask"@ {
        Some(PermissionMode::Ask)
    } else if word == "edits"@ || word == "auto_accept_edits"@ {
        Some(PermissionMode::AutoAcceptEdits)
    } else if word == "yolo"@ {
        Some(PermissionMode::Yolo)
    } else {
        None
    }
}

/// The permission mode that was asked for, or what is said of a word that means none.
pub fn parse_mode(word: Option<&str>) -> (r: Result<Option<PermissionMode>, String>)
    ensures
        match r {
            Ok(None) => word is None,
            Ok(Some(m)) => word matches Some(w) && mode_meant(w@) == Some(m),
            Err(e) => word matches Some(w) && mode_meant(w@) is None && e@ == "unknown --mode "@ + debug_text(w@)
                + " (ask|edits|yolo)"@,
        },
{
    match word {
        None => Ok(None),
        Some(w) => {
            if str_eq(w, "ask") {
                Ok(Some(PermissionMode::Ask))
            } else if str_eq(w, "edits") || str_eq(w, "auto_accept_edits") {
                Ok(Some(PermissionMode::AutoAcceptEdits))
            } else if str_eq(w, "yolo") {
                Ok(Some(PermissionMode::Yolo))
            } else {
                Err("unknown --mode ".to_owned().concat(quoted(w).as_str()).concat(" (ask|edits|yolo)"))
            }
        },
    }
}

/// The permission mode: what was asked for, else what the settings say.
pub fn permission_mode(cfg: &Config, asked: Option<PermissionMode>) -> (r: PermissionMode)
    ensures
        r == (match asked {
            Some(m) => m,
            None => match cfg.general.permission_mode {
                PermissionModeCfg::Ask => PermissionMode::Ask,
                PermissionModeCfg::AutoAcceptEdits => PermissionMode::AutoAcceptEdits,
                PermissionModeCfg::Yolo => PermissionMode::Yolo,
            },
        }),
{
    match asked {
        Some(m) => m,
        None => match cfg.general.permission_mode {
            PermissionModeCfg::Ask => PermissionMode::Ask,
            PermissionModeCfg::AutoAcceptEdits => PermissionMode::AutoAcceptEdits,
            PermissionModeCfg::Yolo => PermissionMode::Yolo,
        },
    }
}

// ---------------------------------------------------------------- settings for a run

/// Makes a profile the one that is used.
pub fn use_profile(cfg: &mut Config, name: &str) -> (r: Result<(), String>)
    ensures
        match r {
            Ok(_) => old(cfg)@.profile(name@) is Some && final(cfg)@ == (ConfigV {
                general: GeneralV { default_profile: name@, ..old(cfg)@.general },
                ..old(cfg)@
            }),
            Err(e) => old(cfg)@.profile(name@) is None && *final(cfg) == *old(cfg) && e@ == "unknown profile "@
                + debug_text(name@),
        },
{
    if cfg.profile(name).is_none() {
        return Err("unknown profile ".to_owned().concat(quoted(name).as_str()));
    }
    cfg.general.default_profile = name.to_owned();
    Ok(())
}

/// The profiles with another context size for the first of a name.
pub open spec fn with_ctx(ps: Seq<ProfileV>, name: Seq<char>, n: u32) -> Seq<ProfileV> {
    match profile_from(ps, name, 0) {
        Some(i) => ps.update(
            i,
            ProfileV {
                ctx: n,
                ctx_min: if ps[i].ctx_min <= n {
                    ps[i].ctx_min
                } else {
                    n
                },
                ..ps[i]
            },
        ),
        None => ps,
    }
}

/// Sets the context size of the profile that is used; the least one is held below it.
pub fn use_ctx(cfg: &mut Config, n: u32)
    ensures
        final(cfg)@ == (ConfigV {
            profiles: with_ctx(old(cfg)@.profiles, old(cfg)@.general.default_profile, n),
            ..old(cfg)@
        }),
{
    let ghost pv = cfg@.profiles;
    let ghost name = cfg@.general.default_profile;
    let mut i: usize = 0;
    while i < cfg.profiles.len()
        invariant
            i <= cfg.profiles.len(),
            *cfg == *old(cfg),
            pv == cfg@.profiles,
            name == cfg@.general.default_profile,
            profile_from(pv, name, 0) == profile_from(pv, name, i as int),
        decreases cfg.profiles.len() - i,
    {
        assert(pv[i as int] == cfg.profiles@[i as int]@);
        if str_eq(cfg.profiles[i].name.as_str(), cfg.general.default_profile.as_str()) {
            let mut p = cfg.profiles[i].copy();
            p.ctx = n;
            if p.ctx_min > n {
                p.ctx_min = n;
            }
            cfg.profiles.set(i, p);
            assert(cfg@.profiles =~= pv.update(i as int, p@));
            return;
        }
        i += 1;
    }
}

/// The profiles but those of a name, of the first `n`.
pub open spec fn profiles_but(ps: Seq<ProfileV>, name: Seq<char>, n: nat) -> Seq<ProfileV>
    decreases n,
{
    if n == 0 || n > ps.len() {
        Seq::empty()
    } else {
        let p = profiles_but(ps, name, (n - 1) as nat);
        if ps[n - 1].name == name {
            p
        } else {
            p.push(ps[n - 1])
        }
    }
}

/// The profile for a model of an engine that runs elsewhere.
pub open spec fn external_profile(p: ProfileV, selection: Seq<char>) -> ProfileV {
    ProfileV {
        model: selection,
        alias: selection,
        name: p.name + "-"@ + with_char(selection, seq!['/'], '-'),
        ..p
    }
}

/// The settings with a model for this run. `found` is the profile of the candidate that the
/// selection means, where it means one.
pub open spec fn overridden(c: ConfigV, selection: Seq<char>, found: Option<ProfileV>) -> Option<ConfigV> {
    let active = c.profile(c.general.default_profile)->Some_0;
    if c.profile(selection) is Some {
        Some(ConfigV { general: GeneralV { default_profile: selection, ..c.general }, ..c })
    } else if let Some(p) = found {
        Some(
            ConfigV {
                general: GeneralV { default_profile: p.name, ..c.general },
                profiles: profiles_but(c.profiles, p.name, c.profiles.len()).push(p),
                ..c
            },
        )
    } else if active.external(c.engine) || c.engine.provider == EngineProvider::External {
        let p = external_profile(active, selection);
        Some(
            ConfigV {
                general: GeneralV { default_profile: p.name, ..c.general },
                profiles: c.profiles.push(p),
                ..c
            },
        )
    } else {
        None
    }
}

pub open spec fn opt_profile(p: Option<Profile>) -> Option<ProfileV> {
    match p {
        Some(v) => Some(v@),
        None => None,
    }
}

/// What is said of a selection that means nothing.
pub open spec fn no_match(selection: Seq<char>) -> Seq<char> {
    "no model matches "@ + debug_text(selection) + "; run `buzzcode models`"@
}

fn say_no_match(selection: &str) -> (r: String)
    ensures
        r@ == no_match(selection@),
{
    "no model matches ".to_owned().concat(quoted(selection).as_str()).concat("; run `buzzcode models`")
}

/// Takes a model for this run.
pub fn apply_override(cfg: &mut Config, selection: &str, found: Option<Profile>) -> (r: Result<(), String>)
    requires
        old(cfg)@.settled(),
    ensures
        match overridden(old(cfg)@, selection@, opt_profile(found)) {
            Some(c) => r is Ok && final(cfg)@ == c,
            None => *final(cfg) == *old(cfg) && (r matches Err(e) && e@ == no_match(selection@)),
        },
{
    if cfg.profile(selection).is_some() {
        cfg.general.default_profile = selection.to_owned();
        return Ok(());
    }
    if let Some(p) = found {
        let ghost pv = cfg@.profiles;
        let ghost name = p@.name;
        let mut kept: Vec<Profile> = Vec::new();
        let mut i: usize = 0;
        assert(profile_views(kept@) =~= Seq::<ProfileV>::empty());
        while i < cfg.profiles.len()
            invariant
                i <= cfg.profiles.len(),
                *cfg == *old(cfg),
                pv == cfg@.profiles,
                name == p.name@,
                profile_views(kept@) == profiles_but(pv, name, i as nat),
            decreases cfg.profiles.len() - i,
        {
            assert(pv[i as int] == cfg.profiles@[i as int]@);
            if !str_eq(cfg.profiles[i].name.as_str(), p.name.as_str()) {
                let ghost b = kept@;
                kept.push(cfg.profiles[i].copy());
                assert(profile_views(kept@) =~= profile_views(b).push(pv[i as int]));
            }
            i += 1;
        }
        let ghost b = kept@;
        cfg.general.default_profile = p.name.clone();
        kept.push(p);
        assert(profile_views(kept@) =~= profile_views(b).push(p@));
        cfg.profiles = kept;
        return Ok(());
    }
    let active = cfg.active_profile().copy();
    if active.is_external(&cfg.engine) || cfg.engine.provider == EngineProvider::External {
        let mut p = active;
        let ghost before = p@;
        p.model = selection.to_owned();
        p.alias = selection.to_owned();
        let slash = vec!['/'];
        assert(slash@ =~= seq!['/']);
        p.name = p.name.concat("-").concat(string_of(&replace_chars(&chars_of(selection), &slash, '-')).as_str());
        assert(p@ == external_profile(before, selection@));
        cfg.general.default_profile = p.name.clone();
        let ghost b = cfg.profiles@;
        cfg.profiles.push(p);
        assert(profile_views(cfg.profiles@) =~= profile_views(b).push(p@));
        return Ok(());
    }
    Err(say_no_match(selection))
}

/// The profile that a selection makes the default: that of the candidate it means, else one
/// of its name, else the one in use with another model, where the engine runs elsewhere.
pub open spec fn selected_profile(c: ConfigV, selection: Seq<char>, found: Option<ProfileV>) -> Option<ProfileV> {
    let active = c.profile(c.general.default_profile)->Some_0;
    if found is Some {
        found
    } else if c.profile(selection) is Some {
        c.profile(selection)
    } else if active.external(c.engine) || c.engine.provider == EngineProvider::External {
        Some(ProfileV { model: selection, alias: selection, ..active })
    } else {
        None
    }
}

pub fn choose_profile(cfg: &Config, selection: &str, found: Option<Profile>) -> (r: Result<Profile, String>)
    requires
        cfg@.settled(),
    ensures
        match selected_profile(cfg@, selection@, opt_profile(found)) {
            Some(p) => r matches Ok(q) && q@ == p,
            None => r matches Err(e) && e@ == no_match(selection@),
        },
{
    if let Some(p) = found {
        return Ok(p);
    }
    if let Some(p) = cfg.profile(selection) {
        return Ok(p.copy());
    }
    let active = cfg.active_profile();
    if active.is_external(&cfg.engine) || cfg.engine.provider == EngineProvider::External {
        let mut p = active.copy();
        p.model = selection.to_owned();
        p.alias = selection.to_owned();
        return Ok(p);
    }
    Err(say_no_match(selection))
}

proof fn lemma_pushed_profile(ps: Seq<ProfileV>, p: ProfileV, i: int)
    requires
        0 <= i <= ps.len(),
    ensures
        profile_from(ps.push(p), p.name, i) is Some,
    decreases ps.len() - i,
{
    if i < ps.len() && ps.push(p)[i].name != p.name {
        lemma_pushed_profile(ps, p, i + 1);
    }
}

/// Whatever model is taken for a run, the profile that is then used is there.
pub proof fn law_override_keeps_settings_complete(c: ConfigV, selection: Seq<char>, found: Option<ProfileV>)
    requires
        c.settled(),
    ensures
        overridden(c, selection, found) matches Some(d) ==> d.settled(),
{
    if c.profile(selection) is Some {
    } else if let Some(p) = found {
        let kept = profiles_but(c.profiles, p.name, c.profiles.len());
        lemma_pushed_profile(kept, p, 0);
    } else {
        let active = c.profile(c.general.default_profile)->Some_0;
        let p = external_profile(active, selection);
        lemma_pushed_profile(c.profiles, p, 0);
    }
}

/// A number asks for as many tokens, and for 1024 times as many with a `k` of either case behind
/// it, whatever the white space around.
#[verifier::rlimit(40)]
pub proof fn law_a_number_asks_for_tokens(n: u64, before: Seq<char>, after: Seq<char>)
    requires
        forall|i: int| 0 <= i < before.len() ==> is_space(#[trigger] before[i]),
        forall|i: int| 0 <= i < after.len() ==> is_space(#[trigger] after[i]),
    ensures
        asked_tokens(before + dec(n as nat) + after) == Ok::<nat, CtxError>(n as nat),
        asked_tokens(before + (dec(n as nat) + seq!['k']) + after) == Ok::<nat, CtxError>((n * 1024) as nat),
        asked_tokens(before + (dec(n as nat) + seq!['K']) + after) == Ok::<nat, CtxError>((n * 1024) as nat),
{
    let w = dec(n as nat);
    law_decimal_is_read_back(n as nat, u64::MAX as nat);
    assert(is_digit(w[0]));
    assert(is_digit(w[w.len() - 1]));
    lemma_trimmed_core(before, w, after);
    lemma_trimmed_core(before, w + seq!['k'], after);
    lemma_trimmed_core(before, w + seq!['K'], after);
    assert forall|i: int| 0 <= i < w.len() implies lower(#[trigger] w[i]) == w[i] by {
        assert(is_digit(w[i]));
    }
    assert(lowered(w) =~= w);
    assert(lowered(w + seq!['k']) =~= w + seq!['k']);
    assert(lowered(w + seq!['K']) =~= w + seq!['k']);
    let t = w + seq!['k'];
    assert(t.drop_last() =~= w);
    reveal_strlit("inf");
    reveal_strlit("infinity");
    reveal_strlit("nan");
    assert("inf"@[0] == 'i' && "infinity"@[0] == 'i' && "nan"@[0] == 'n');
    assert(!is_no_finite(w));
    assert(without_plus(w) == w);
    lemma_decimal_of_digits(n as nat);
    lemma_leading_of_decimal(n as nat);
}

proof fn lemma_leading_of_decimal(n: nat)
    ensures
        leading_value(dec(n), dec(n).len()) == n,
{
    let w = dec(n);
    law_decimal_is_read_back(n, n);
    lemma_leading_is_value(w, w.len());
    assert(w.take(w.len() as int) =~= w);
    assert(is_digit(w[0]));
}

proof fn lemma_decimal_of_digits(n: nat)
    ensures
        decimal_of(dec(n)) == Some(DecimalV { negative: false, digits: dec(n), shift: 0 }),
{
    let w = dec(n);
    law_decimal_is_read_back(n, n);
    assert(is_digit(w[0]));
    lemma_char_from(w, 'e', 0);
    lemma_char_from(w, '.', 0);
    if let Some(k) = char_from(w, 'e', 0) {
        assert(is_digit(w[k]));
    }
    if let Some(k) = char_from(w, '.', 0) {
        assert(is_digit(w[k]));
    }
    assert(w + Seq::<char>::empty() =~= w);
}

proof fn lemma_trimmed_core(before: Seq<char>, core: Seq<char>, after: Seq<char>)
    requires
        forall|i: int| 0 <= i < before.len() ==> is_space(#[trigger] before[i]),
        forall|i: int| 0 <= i < after.len() ==> is_space(#[trigger] after[i]),
        core.len() > 0,
        !is_space(core[0]),
        !is_space(core[core.len() - 1]),
    ensures
        trimmed(before + core + after) == core,
{
    let s = before + core + after;
    let (i, j) = law_trimming_takes_off_white_space(s);
    let b = before.len() as int;
    let e = b + core.len();
    assert(s[b] == core[0]);
    assert(s[e - 1] == core[core.len() - 1]);
    assert(i <= b < j);
    assert(i <= e - 1 < j);
    if i < b {
        assert(s[i] == before[i]);
    }
    if j > e {
        assert(s[j - 1] == after[j - 1 - e]);
    }
    assert(s.subrange(b, e) =~= core);
}

/// A selection that is the name of a profile makes it the default; else the profile of the
/// candidate that it means is put in, and is the default; the other profiles stay.
pub proof fn law_a_selection_is_in_effect(c: ConfigV, selection: Seq<char>, found: Option<ProfileV>, other: Seq<char>)
    ensures
        c.profile(selection) is Some ==> (overridden(c, selection, found) matches Some(d) && d.general.default_profile
            == selection && d.profiles == c.profiles),
        c.profile(selection) is None ==> (found matches Some(p) ==> (overridden(c, selection, found) matches Some(d)
            && d.general.default_profile == p.name && d.profile(p.name) == Some(p) && (other != p.name ==> d.profile(other)
            == c.profile(other)))),
        overridden(c, selection, found) matches Some(d) ==> d.engine == c.engine && d.permissions == c.permissions,
        found is Some ==> selected_profile(c, selection, found) == found,
        found is None && c.profile(selection) is Some ==> selected_profile(c, selection, found) == c.profile(selection),
{
    if c.profile(selection) is None {
        if let Some(p) = found {
            let rest = profiles_but(c.profiles, p.name, c.profiles.len());
            lemma_profiles_but(c.profiles, p.name, c.profiles.len(), p.name);
            lemma_profiles_but(c.profiles, p.name, c.profiles.len(), other);
            assert(c.profiles.take(c.profiles.len() as int) =~= c.profiles);
            lemma_profile_pushed(rest, p, p.name, 0);
            lemma_profile_pushed(rest, p, other, 0);
        }
    }
}

spec fn named_first(ps: Seq<ProfileV>, name: Seq<char>) -> Option<ProfileV> {
    match profile_from(ps, name, 0) {
        Some(i) => Some(ps[i]),
        None => None,
    }
}

proof fn lemma_profile_pushed(ps: Seq<ProfileV>, p: ProfileV, name: Seq<char>, i: int)
    requires
        0 <= i <= ps.len(),
    ensures
        profile_from(ps.push(p), name, i) == (match profile_from(ps, name, i) {
            Some(k) => Some(k),
            None => if p.name == name {
                Some(ps.len() as int)
            } else {
                None
            },
        }),
        profile_from(ps, name, i) matches Some(k) ==> i <= k < ps.len(),
    decreases ps.len() - i,
{
    let q = ps.push(p);
    if i < ps.len() {
        assert(q[i] == ps[i]);
        lemma_profile_pushed(ps, p, name, i + 1);
    } else {
        assert(q[i] == p);
        assert(profile_from(q, name, i + 1) is None);
    }
}

proof fn lemma_profiles_but(ps: Seq<ProfileV>, name: Seq<char>, n: nat, other: Seq<char>)
    requires
        n <= ps.len(),
    ensures
        other == name ==> named_first(profiles_but(ps, name, n), other) is None,
        other != name ==> named_first(profiles_but(ps, name, n), other) == named_first(ps.take(n as int), other),
    decreases n,
{
    if n > 0 {
        lemma_profiles_but(ps, name, (n - 1) as nat, other);
        let b = profiles_but(ps, name, (n - 1) as nat);
        let t = ps.take(n - 1);
        assert(ps.take(n as int) =~= t.push(ps[n - 1]));
        lemma_profile_pushed(t, ps[n - 1], other, 0);
        lemma_profile_pushed(b, ps[n - 1], other, 0);
    } else {
        assert(ps.take(0) =~= Seq::<ProfileV>::empty());
    }
}

/// Another context size is that of the profile of a name, whose least context is then no larger;
/// its other settings, and the other profiles, stay.
pub proof fn law_a_context_size_is_in_effect(c: ConfigV, name: Seq<char>, n: u32, i: int)
    requires
        0 <= i < c.profiles.len(),
    ensures
        ({
            let q = with_ctx(c.profiles, name, n);
            let first = c.profiles[i].name == name && forall|j: int|
                0 <= j < i ==> (#[trigger] c.profiles[j]).name != name;
            &&& q.len() == c.profiles.len()
            &&& first ==> q[i].ctx == n && q[i].ctx_min <= n && (c.profiles[i].ctx_min <= n ==> q[i].ctx_min
                == c.profiles[i].ctx_min) && q[i].model == c.profiles[i].model && q[i].name == name
            &&& c.profiles[i].name != name ==> q[i] == c.profiles[i]
        }),
{
    lemma_profile_from(c.profiles, name, 0);
}

} // verus!
