//! The command line of the server, and the tail of what it prints.

use crate::config::{Config, Engine, EngineV, Profile, ProfileV, Sampling, SamplingV};
use crate::discover::{alike, eq_ignore_case};
use crate::json::build;
use crate::message::opt_string;
use crate::pathname::{base_name, file_name};
use crate::paths::{Surroundings, SurroundingsV, expand_path, expanded};
use crate::text::{
    at, begins, chars_of, contains, copy_strings, dec, dec_u64, find_char, holds, join, joined,
    lines, str_eq, strings,
};
use crate::vram::{KvType, PlanV, VramPlan, cap};
use vstd::prelude::*;
use vstd::string::*;

verus! {

/// Appends a list.
fn extend(a: &mut Vec<String>, more: Vec<String>)
    ensures
        strings(final(a)@) == strings(old(a)@) + strings(more@),
{
    let mut m = more;
    let ghost x = a@;
    let ghost y = m@;
    a.append(&mut m);
    assert(strings(a@) =~= strings(x) + strings(y));
}

fn one(a: &str) -> (r: Vec<String>)
    ensures
        strings(r@) == seq![a@],
{
    let r = vec![a.to_owned()];
    assert(strings(r@) =~= seq![a@]);
    r
}

fn two(a: &str, b: &str) -> (r: Vec<String>)
    ensures
        strings(r@) == seq![a@, b@],
{
    let r = vec![a.to_owned(), b.to_owned()];
    assert(strings(r@) =~= seq![a@, b@]);
    r
}

fn two_number(a: &str, n: u32) -> (r: Vec<String>)
    ensures
        strings(r@) == seq![a@, dec(n as nat)],
{
    two(a, dec_u64(n as u64).as_str())
}

fn nothing() -> (r: Vec<String>)
    ensures
        strings(r@) == Seq::<Seq<char>>::empty(),
{
    let r: Vec<String> = Vec::new();
    assert(strings(r@) =~= Seq::<Seq<char>>::empty());
    r
}

/// What the arguments are made from beside the settings.
#[derive(Debug)]
pub struct LaunchFacts {
    pub model: String,
    pub draft: Option<String>,
    pub port: u16,
    pub slots_dir: String,
    pub log_file: String,
}

/// The override of the plan, else that of the profile unless it is `auto`.
pub open spec fn override_args(plan: PlanV, p: ProfileV) -> Seq<Seq<char>> {
    match plan.override_tensor {
        Some(ot) => seq!["-ot"@, ot],
        None => if p.override_tensor.len() > 0 && !alike(p.override_tensor, "auto"@) {
            seq!["-ot"@, p.override_tensor]
        } else {
            Seq::empty()
        },
    }
}

/// Flash attention goes with the types of the key-value cache.
pub open spec fn attention_args(p: ProfileV) -> Seq<Seq<char>> {
    if p.flash_attn {
        let kv = KvType::named(p.kv_type).name();
        seq!["-fa"@, "on"@, "--cache-type-k"@, kv, "--cache-type-v"@, kv]
    } else {
        Seq::empty()
    }
}

pub open spec fn batch_args(p: ProfileV) -> Seq<Seq<char>> {
    seq![
        "-b"@,
        dec(p.batch as nat),
        "-ub"@,
        dec(p.ubatch as nat),
        "-t"@,
        dec(p.threads as nat),
        "-tb"@,
        dec(p.threads_batch as nat),
    ]
}

pub open spec fn mmap_args(p: ProfileV) -> Seq<Seq<char>> {
    if p.no_mmap {
        seq!["--no-mmap"@, "--jinja"@]
    } else {
        seq!["--jinja"@]
    }
}

pub open spec fn reasoning_args(p: ProfileV) -> Seq<Seq<char>> {
    if p.reasoning_format.len() > 0 && !alike(p.reasoning_format, "none"@) {
        seq!["--reasoning-format"@, p.reasoning_format]
    } else {
        Seq::empty()
    }
}

/// The draft model: the file that was found for it, else what the profile says.
pub open spec fn draft_args(p: ProfileV, found: Option<Seq<char>>) -> Seq<Seq<char>> {
    if p.draft_model.len() > 0 {
        seq![
            "--model-draft"@,
            match found {
                Some(f) => f,
                None => p.draft_model,
            },
        ]
    } else {
        Seq::empty()
    }
}

pub open spec fn template_args(p: ProfileV, env: SurroundingsV) -> Seq<Seq<char>> {
    if p.chat_template_file.len() > 0 {
        seq!["--chat-template-file"@, expanded(p.chat_template_file, env)]
    } else {
        Seq::empty()
    }
}

/// Speculation, unless there is none; one request at a time.
pub open spec fn spec_args(p: ProfileV) -> Seq<Seq<char>> {
    if p.spec == "none"@ || p.spec.len() == 0 {
        seq!["--parallel"@, "1"@]
    } else {
        seq!["--spec-type"@, p.spec, "--spec-draft-n-max"@, dec(p.spec_draft_n_max as nat), "--parallel"@, "1"@]
    }
}

pub open spec fn checkpoint_args(plan: PlanV, p: ProfileV) -> Seq<Seq<char>> {
    if plan.ctx_checkpoints > 0 {
        seq![
            "--ctx-checkpoints"@,
            dec(plan.ctx_checkpoints as nat),
            "--checkpoint-min-step"@,
            dec(p.checkpoint_min_step as nat),
        ]
    } else {
        Seq::empty()
    }
}

pub open spec fn cache_args(e: EngineV) -> Seq<Seq<char>> {
    if e.cache_ram_mb > 0 {
        seq!["--cache-ram"@, dec(e.cache_ram_mb as nat)]
    } else {
        Seq::empty()
    }
}

pub open spec fn sampling_args(s: SamplingV) -> Seq<Seq<char>> {
    seq!["--temp"@, s.temperature, "--top-p"@, s.top_p, "--top-k"@, dec(s.top_k as nat), "--min-p"@, s.min_p]
}

/// The arguments of the server.
pub open spec fn server_args(
    e: EngineV,
    p: ProfileV,
    plan: PlanV,
    f: LaunchFacts,
    env: SurroundingsV,
) -> Seq<Seq<char>> {
    seq![
        "-m"@,
        f.model@,
        "--alias"@,
        p.alias,
        "--host"@,
        e.host,
        "--port"@,
        dec(f.port as nat),
        "--no-webui"@,
        "--metrics"@,
        "--slots"@,
        "-ngl"@,
        dec(plan.ngl as nat),
    ] + override_args(plan, p) + seq!["-c"@, dec(plan.n_ctx as nat)] + attention_args(p) + batch_args(p) + mmap_args(p)
        + reasoning_args(p) + draft_args(p, opt_string(f.draft)) + template_args(p, env) + spec_args(p)
        + checkpoint_args(plan, p) + cache_args(e) + seq!["--slot-save-path"@, f.slots_dir@] + sampling_args(
        p.sampling.coding,
    ) + seq!["--log-file"@, f.log_file@] + seq!["--log-timestamps"@] + p.extra_args
}

fn first_args(e: &Engine, p: &Profile, plan: &VramPlan, f: &LaunchFacts) -> (r: Vec<String>)
    ensures
        strings(r@) == seq![
            "-m"@,
            f.model@,
            "--alias"@,
            p.alias@,
            "--host"@,
            e.host@,
            "--port"@,
            dec(f.port as nat),
            "--no-webui"@,
            "--metrics"@,
            "--slots"@,
            "-ngl"@,
            dec(plan.ngl as nat),
        ],
{
    let port = dec_u64(f.port as u64);
    let ngl = dec_u64(plan.ngl as u64);
    let r = vec![
        "-m".to_owned(),
        f.model.clone(),
        "--alias".to_owned(),
        p.alias.clone(),
        "--host".to_owned(),
        e.host.clone(),
        "--port".to_owned(),
        port,
        "--no-webui".to_owned(),
        "--metrics".to_owned(),
        "--slots".to_owned(),
        "-ngl".to_owned(),
        ngl,
    ];
    assert(strings(r@) =~= seq![
        "-m"@,
        f.model@,
        "--alias"@,
        p.alias@,
        "--host"@,
        e.host@,
        "--port"@,
        dec(f.port as nat),
        "--no-webui"@,
        "--metrics"@,
        "--slots"@,
        "-ngl"@,
        dec(plan.ngl as nat),
    ]);
    r
}

fn override_list(plan: &VramPlan, p: &Profile) -> (r: Vec<String>)
    ensures
        strings(r@) == override_args(plan@, p@),
{
    match &plan.override_tensor {
        Some(ot) => two("-ot", ot.as_str()),
        None => if !p.override_tensor.as_str().is_empty() && !eq_ignore_case(p.override_tensor.as_str(), "auto") {
            two("-ot", p.override_tensor.as_str())
        } else {
            nothing()
        },
    }
}

fn attention_list(p: &Profile) -> (r: Vec<String>)
    ensures
        strings(r@) == attention_args(p@),
{
    if !p.flash_attn {
        return nothing();
    }
    let kv = KvType::parse(p.kv_type.as_str()).flag();
    let r = vec![
        "-fa".to_owned(),
        "on".to_owned(),
        "--cache-type-k".to_owned(),
        kv.to_owned(),
        "--cache-type-v".to_owned(),
        kv.to_owned(),
    ];
    assert(strings(r@) =~= attention_args(p@));
    r
}

fn batch_list(p: &Profile) -> (r: Vec<String>)
    ensures
        strings(r@) == batch_args(p@),
{
    let r = vec![
        "-b".to_owned(),
        dec_u64(p.batch as u64),
        "-ub".to_owned(),
        dec_u64(p.ubatch as u64),
        "-t".to_owned(),
        dec_u64(p.threads as u64),
        "-tb".to_owned(),
        dec_u64(p.threads_batch as u64),
    ];
    assert(strings(r@) =~= batch_args(p@));
    r
}

fn model_list(p: &Profile, draft: &Option<String>, env: &Surroundings) -> (r: (Vec<String>, Vec<String>, Vec<String>))
    ensures
        strings(r.0@) == reasoning_args(p@),
        strings(r.1@) == draft_args(p@, opt_string(*draft)),
        strings(r.2@) == template_args(p@, env@),
{
    let a = if !p.reasoning_format.as_str().is_empty() && !eq_ignore_case(p.reasoning_format.as_str(), "none") {
        two("--reasoning-format", p.reasoning_format.as_str())
    } else {
        nothing()
    };
    let b = if !p.draft_model.as_str().is_empty() {
        match draft {
            Some(f) => two("--model-draft", f.as_str()),
            None => two("--model-draft", p.draft_model.as_str()),
        }
    } else {
        nothing()
    };
    let c = if !p.chat_template_file.as_str().is_empty() {
        two("--chat-template-file", expand_path(p.chat_template_file.as_str(), env).as_str())
    } else {
        nothing()
    };
    (a, b, c)
}

fn spec_list(p: &Profile) -> (r: Vec<String>)
    ensures
        strings(r@) == spec_args(p@),
{
    if str_eq(p.spec.as_str(), "none") || p.spec.as_str().is_empty() {
        return two("--parallel", "1");
    }
    let r = vec![
        "--spec-type".to_owned(),
        p.spec.clone(),
        "--spec-draft-n-max".to_owned(),
        dec_u64(p.spec_draft_n_max as u64),
        "--parallel".to_owned(),
        "1".to_owned(),
    ];
    assert(strings(r@) =~= spec_args(p@));
    r
}

fn checkpoint_list(plan: &VramPlan, p: &Profile) -> (r: Vec<String>)
    ensures
        strings(r@) == checkpoint_args(plan@, p@),
{
    if plan.ctx_checkpoints == 0 {
        return nothing();
    }
    let r = vec![
        "--ctx-checkpoints".to_owned(),
        dec_u64(plan.ctx_checkpoints as u64),
        "--checkpoint-min-step".to_owned(),
        dec_u64(p.checkpoint_min_step as u64),
    ];
    assert(strings(r@) =~= checkpoint_args(plan@, p@));
    r
}

fn sampling_list(s: &Sampling) -> (r: Vec<String>)
    ensures
        strings(r@) == sampling_args(s@),
{
    let r = vec![
        "--temp".to_owned(),
        s.temperature.clone(),
        "--top-p".to_owned(),
        s.top_p.clone(),
        "--top-k".to_owned(),
        dec_u64(s.top_k as u64),
        "--min-p".to_owned(),
        s.min_p.clone(),
    ];
    assert(strings(r@) =~= sampling_args(s@));
    r
}

/// How the server is called.
#[derive(Debug)]
pub struct LlamaServerArgs {
    pub binary: String,
    pub model: String,
    pub args: Vec<String>,
}

/// Whether an argument is put in quotes.
pub open spec fn needs_quotes(s: Seq<char>) -> bool {
    s.contains(' ') || s.contains('|') || s.contains('\\')
}

pub open spec fn shown_arg(s: Seq<char>) -> Seq<char> {
    if needs_quotes(s) {
        " \""@ + s + "\""@
    } else {
        " "@ + s
    }
}

/// The command line with the first `n` arguments.
pub open spec fn shown_line(binary: Seq<char>, args: Seq<Seq<char>>, n: nat) -> Seq<char>
    decreases n,
{
    if n == 0 || n > args.len() {
        "\""@ + binary + "\""@
    } else {
        shown_line(binary, args, (n - 1) as nat) + shown_arg(args[n - 1])
    }
}

fn holds_char(s: &Vec<char>, c: char) -> (r: bool)
    ensures
        r == s@.contains(c),
{
    match find_char(s, c, 0) {
        Some(k) => {
            assert(s@[k as int] == c);
            true
        },
        None => false,
    }
}

impl LlamaServerArgs {
    /// The arguments for a plan on the port that the server will bind.
    pub fn build(
        cfg: &Config,
        profile: &Profile,
        binary: String,
        plan: &VramPlan,
        f: &LaunchFacts,
        env: &Surroundings,
    ) -> (r: LlamaServerArgs)
        ensures
            r.binary == binary,
            r.model@ == f.model@,
            strings(r.args@) == server_args(cfg.engine@, profile@, plan@, *f, env@),
    {
        let mut a = first_args(&cfg.engine, profile, plan, f);
        extend(&mut a, override_list(plan, profile));
        extend(&mut a, two_number("-c", plan.n_ctx));
        extend(&mut a, attention_list(profile));
        extend(&mut a, batch_list(profile));
        let mmap = if profile.no_mmap {
            two("--no-mmap", "--jinja")
        } else {
            one("--jinja")
        };
        extend(&mut a, mmap);
        let (reasoning, draft, template) = model_list(profile, &f.draft, env);
        extend(&mut a, reasoning);
        extend(&mut a, draft);
        extend(&mut a, template);
        extend(&mut a, spec_list(profile));
        extend(&mut a, checkpoint_list(plan, profile));
        let cache = if cfg.engine.cache_ram_mb > 0 {
            two_number("--cache-ram", cfg.engine.cache_ram_mb)
        } else {
            nothing()
        };
        extend(&mut a, cache);
        extend(&mut a, two("--slot-save-path", f.slots_dir.as_str()));
        extend(&mut a, sampling_list(&profile.sampling.coding));
        extend(&mut a, two("--log-file", f.log_file.as_str()));
        extend(&mut a, one("--log-timestamps"));
        extend(&mut a, copy_strings(&profile.extra_args));
        LlamaServerArgs { binary, model: f.model.clone(), args: a }
    }

    /// The command line as it is shown.
    pub fn command_line(&self) -> (r: String)
        ensures
            r@ == shown_line(self.binary@, strings(self.args@), self.args@.len()),
    {
        let mut s = "\"".to_owned().concat(self.binary.as_str()).concat("\"");
        let mut i: usize = 0;
        while i < self.args.len()
            invariant
                i <= self.args.len(),
                s@ == shown_line(self.binary@, strings(self.args@), i as nat),
            decreases self.args.len() - i,
        {
            let a = self.args[i].as_str();
            assert(strings(self.args@)[i as int] == a@);
            let cs = chars_of(a);
            let piece = if holds_char(&cs, ' ') || holds_char(&cs, '|') || holds_char(&cs, '\\') {
                " \"".to_owned().concat(a).concat("\"")
            } else {
                " ".to_owned().concat(a)
            };
            s = s.concat(piece.as_str());
            i += 1;
        }
        s
    }
}

/// Whatever the settings, the server listens on the port it is given: the argument after
/// the first `--port` is that port.
pub proof fn law_server_gets_the_port(
    e: EngineV,
    p: ProfileV,
    plan: PlanV,
    f: LaunchFacts,
    env: SurroundingsV,
)
    ensures
        server_args(e, p, plan, f, env).len() > 13,
        server_args(e, p, plan, f, env)[6] == "--port"@,
        server_args(e, p, plan, f, env)[7] == dec(f.port as nat),
        server_args(e, p, plan, f, env)[1] == f.model@,
{
}

// ---------------------------------------------------------------- the log

/// The most recent lines that the server printed.
#[derive(Debug)]
pub struct LogTail {
    lines: Vec<String>,
    cap: usize,
}

/// The lines after one more: the oldest leaves where the list is full.
pub open spec fn log_after(lines: Seq<Seq<char>>, cap: nat, line: Seq<char>) -> Seq<Seq<char>> {
    if lines.len() >= cap && lines.len() > 0 {
        lines.drop_first().push(line)
    } else {
        lines.push(line)
    }
}

impl LogTail {
    pub closed spec fn lines(self) -> Seq<Seq<char>> {
        strings(self.lines@)
    }

    pub closed spec fn cap(self) -> nat {
        self.cap as nat
    }

    /// No more lines than the list may hold; the newest is always held.
    pub open spec fn wf(self) -> bool {
        self.lines().len() <= self.cap() || self.lines().len() <= 1
    }

    pub fn new(cap: usize) -> (r: LogTail)
        ensures
            r.lines() == Seq::<Seq<char>>::empty(),
            r.cap() == cap,
            r.wf(),
    {
        let r = LogTail { lines: Vec::new(), cap };
        assert(r.lines() =~= Seq::<Seq<char>>::empty());
        r
    }

    pub fn push(&mut self, line: String)
        requires
            old(self).wf(),
        ensures
            final(self).lines() == log_after(old(self).lines(), old(self).cap(), line@),
            final(self).cap() == old(self).cap(),
            final(self).wf(),
    {
        let ghost before = self.lines@;
        if self.lines.len() >= self.cap && self.lines.len() > 0 {
            let _ = self.lines.remove(0);
            assert(strings(self.lines@) =~= strings(before).drop_first());
        }
        let ghost mid = self.lines@;
        self.lines.push(line);
        assert(strings(self.lines@) =~= strings(mid).push(line@));
    }

    pub fn snapshot(&self) -> (r: Vec<String>)
        ensures
            strings(r@) == self.lines(),
    {
        copy_strings(&self.lines)
    }

    /// Whether a line holds a text.
    pub fn contains(&self, needle: &str) -> (r: bool)
        ensures
            r == some_line_holds(self.lines(), needle@),
    {
        let ghost lv = strings(self.lines@);
        let mut i: usize = 0;
        while i < self.lines.len()
            invariant
                i <= self.lines.len(),
                lv == strings(self.lines@),
                forall|k: int| 0 <= k < i ==> !holds(#[trigger] lv[k], needle@),
            decreases self.lines.len() - i,
        {
            assert(lv[i as int] == self.lines@[i as int]@);
            if contains(self.lines[i].as_str(), needle) {
                return true;
            }
            i += 1;
        }
        false
    }

    /// Whether the server ran out of memory, as far as its lines tell.
    pub fn looks_like_oom(&self) -> (r: bool)
        ensures
            r == tells_of_oom(self.lines()),
    {
        self.contains("out of memory") || self.contains("cudaMalloc failed") || self.contains(
            "CUDA error: out of memory",
        ) || self.contains("failed to allocate") || self.contains("ggml_backend_cuda_buffer_type_alloc_buffer")
    }

    /// The last `n` lines, joined.
    pub fn last_lines(&self, n: usize) -> (r: String)
        ensures
            r@ == joined(last_of(self.lines(), n as nat), "\n"@),
    {
        let from: usize = if self.lines.len() <= n {
            0
        } else {
            self.lines.len() - n
        };
        let mut out: Vec<String> = Vec::new();
        let mut i: usize = from;
        let ghost lv = strings(self.lines@);
        while i < self.lines.len()
            invariant
                from <= i <= self.lines.len(),
                lv == strings(self.lines@),
                strings(out@) == lv.subrange(from as int, i as int),
            decreases self.lines.len() - i,
        {
            let ghost b = out@;
            out.push(self.lines[i].clone());
            assert(strings(out@) =~= strings(b).push(lv[i as int]));
            assert(lv.subrange(from as int, i + 1) =~= lv.subrange(from as int, i as int).push(lv[i as int]));
            i += 1;
        }
        assert(strings(out@) =~= last_of(lv, n as nat));
        join(&out, "\n")
    }
}

pub open spec fn last_of(v: Seq<Seq<char>>, n: nat) -> Seq<Seq<char>> {
    if v.len() <= n {
        v
    } else {
        v.skip(v.len() - n)
    }
}

pub open spec fn some_line_holds(lines: Seq<Seq<char>>, needle: Seq<char>) -> bool {
    exists|i: int| 0 <= i < lines.len() && holds(#[trigger] lines[i], needle)
}

pub open spec fn tells_of_oom(lines: Seq<Seq<char>>) -> bool {
    ||| some_line_holds(lines, "out of memory"@)
    ||| some_line_holds(lines, "cudaMalloc failed"@)
    ||| some_line_holds(lines, "CUDA error: out of memory"@)
    ||| some_line_holds(lines, "failed to allocate"@)
    ||| some_line_holds(lines, "ggml_backend_cuda_buffer_type_alloc_buffer"@)
}

/// The newest line is always held.
pub proof fn law_newest_line_is_held(lines: Seq<Seq<char>>, cap: nat, line: Seq<char>)
    ensures
        log_after(lines, cap, line).last() == line,
{
}

/// The name under which a model is shown: the name of its file.
pub fn model_display(path: &str, windows: bool) -> (r: String)
    ensures
        r@ == base_name(path@, windows),
{
    file_name(path, windows)
}

/// Among the arguments a value follows its name.
#[verifier::opaque]
pub open spec fn told_by(args: Seq<Seq<char>>, name: Seq<char>, v: Seq<char>) -> bool {
    exists|i: int| 0 <= i && i + 1 < args.len() && #[trigger] args[i] == name && args[i + 1] == v
}

proof fn lemma_told(args: Seq<Seq<char>>, i: int)
    requires
        0 <= i,
        i + 1 < args.len(),
    ensures
        told_by(args, args[i], args[i + 1]),
{
    reveal(told_by);
}

proof fn lemma_told_in_both(a: Seq<Seq<char>>, b: Seq<Seq<char>>)
    ensures
        forall|n: Seq<char>, v: Seq<char>| #[trigger] told_by(a, n, v) ==> told_by(a + b, n, v),
        forall|n: Seq<char>, v: Seq<char>| #[trigger] told_by(b, n, v) ==> told_by(a + b, n, v),
{
    reveal(told_by);
    assert forall|n: Seq<char>, v: Seq<char>| #[trigger] told_by(a, n, v) implies told_by(a + b, n, v) by {
        let i = choose|i: int| 0 <= i && i + 1 < a.len() && #[trigger] a[i] == n && a[i + 1] == v;
        assert((a + b)[i] == n && (a + b)[i + 1] == v);
    }
    assert forall|n: Seq<char>, v: Seq<char>| #[trigger] told_by(b, n, v) implies told_by(a + b, n, v) by {
        let i = choose|i: int| 0 <= i && i + 1 < b.len() && #[trigger] b[i] == n && b[i + 1] == v;
        let k = a.len() + i;
        assert((a + b)[k] == n && (a + b)[k + 1] == v);
    }
}

/// The server is told what the plan, the profile and the engine say, each value behind the name
/// of its argument; what a plan says of the tensors goes before what the profile says; and the
/// arguments that the profile adds stand at the end, as they are.
#[verifier::rlimit(40)]
pub proof fn law_the_server_is_told_everything(
    e: EngineV,
    p: ProfileV,
    plan: PlanV,
    f: LaunchFacts,
    env: SurroundingsV,
)
    ensures
        ({
            let args = server_args(e, p, plan, f, env);
            let kv = KvType::named(p.kv_type).name();
            &&& told_by(args, "-m"@, f.model@)
            &&& told_by(args, "--alias"@, p.alias)
            &&& told_by(args, "--host"@, e.host)
            &&& told_by(args, "--port"@, dec(f.port as nat))
            &&& told_by(args, "-ngl"@, dec(plan.ngl as nat))
            &&& plan.override_tensor matches Some(t) ==> told_by(args, "-ot"@, t)
            &&& plan.override_tensor is None && p.override_tensor.len() > 0 && !alike(p.override_tensor, "auto"@)
                ==> told_by(args, "-ot"@, p.override_tensor)
            &&& told_by(args, "-c"@, dec(plan.n_ctx as nat))
            &&& p.flash_attn ==> told_by(args, "-fa"@, "on"@) && told_by(args, "--cache-type-k"@, kv) && told_by(
                args,
                "--cache-type-v"@,
                kv,
            )
            &&& told_by(args, "-b"@, dec(p.batch as nat))
            &&& told_by(args, "-ub"@, dec(p.ubatch as nat))
            &&& told_by(args, "-t"@, dec(p.threads as nat))
            &&& told_by(args, "-tb"@, dec(p.threads_batch as nat))
        }),
        server_args(e, p, plan, f, env).skip(server_args(e, p, plan, f, env).len() - p.extra_args.len()) == p.extra_args,
{
    let args = server_args(e, p, plan, f, env);
    let first = first_of(e, p, plan, f);
    let a0 = override_args(plan, p);
    let a1 = seq!["-c"@, dec(plan.n_ctx as nat)];
    let a2 = attention_args(p);
    let a3 = batch_args(p);
    lemma_told(first, 0);
    lemma_told(first, 2);
    lemma_told(first, 4);
    lemma_told(first, 6);
    lemma_told(first, 11);
    if a0.len() > 0 {
        lemma_told(a0, 0);
    }
    lemma_told(a1, 0);
    if p.flash_attn {
        lemma_told(a2, 0);
        lemma_told(a2, 2);
        lemma_told(a2, 4);
    }
    lemma_told(a3, 0);
    lemma_told(a3, 2);
    lemma_told(a3, 4);
    lemma_told(a3, 6);
    lemma_told_in_both(first, a0);
    lemma_told_in_both(first + a0, a1);
    lemma_told_in_both(first + a0 + a1, a2);
    lemma_told_in_both(first + a0 + a1 + a2, a3);
    let b = first + a0 + a1 + a2 + a3;
    let c = b + mmap_args(p) + reasoning_args(p) + draft_args(p, opt_string(f.draft)) + template_args(p, env);
    lemma_told_in_both(b, mmap_args(p));
    lemma_told_in_both(b + mmap_args(p), reasoning_args(p));
    lemma_told_in_both(b + mmap_args(p) + reasoning_args(p), draft_args(p, opt_string(f.draft)));
    lemma_told_in_both(
        b + mmap_args(p) + reasoning_args(p) + draft_args(p, opt_string(f.draft)),
        template_args(p, env),
    );
    let d = c + spec_args(p) + checkpoint_args(plan, p) + cache_args(e);
    lemma_told_in_both(c, spec_args(p));
    lemma_told_in_both(c + spec_args(p), checkpoint_args(plan, p));
    lemma_told_in_both(c + spec_args(p) + checkpoint_args(plan, p), cache_args(e));
    let d1 = seq!["--slot-save-path"@, f.slots_dir@];
    let d2 = sampling_args(p.sampling.coding);
    let d3 = seq!["--log-file"@, f.log_file@];
    let d4 = seq!["--log-timestamps"@];
    lemma_told_in_both(d, d1);
    lemma_told_in_both(d + d1, d2);
    lemma_told_in_both(d + d1 + d2, d3);
    lemma_told_in_both(d + d1 + d2 + d3, d4);
    lemma_told_in_both(d + d1 + d2 + d3 + d4, p.extra_args);
    assert(args == d + d1 + d2 + d3 + d4 + p.extra_args);
    lemma_ends_with(d + d1 + d2 + d3 + d4, p.extra_args);
}

proof fn lemma_ends_with(a: Seq<Seq<char>>, b: Seq<Seq<char>>)
    ensures
        (a + b).skip((a + b).len() - b.len()) == b,
{
    assert((a + b).skip((a + b).len() - b.len()) =~= b);
}

pub open spec fn first_of(e: EngineV, p: ProfileV, plan: PlanV, f: LaunchFacts) -> Seq<Seq<char>> {
    seq![
        "-m"@,
        f.model@,
        "--alias"@,
        p.alias,
        "--host"@,
        e.host,
        "--port"@,
        dec(f.port as nat),
        "--no-webui"@,
        "--metrics"@,
        "--slots"@,
        "-ngl"@,
        dec(plan.ngl as nat),
    ]
}

/// The server is told how the model thinks, which model drafts, the template, the speculation,
/// the checkpoints, the memory for its cache, where to keep slots and log, and how to sample.
#[verifier::rlimit(40)]
pub proof fn law_the_server_is_told_the_rest(
    e: EngineV,
    p: ProfileV,
    plan: PlanV,
    f: LaunchFacts,
    env: SurroundingsV,
)
    ensures
        ({
            let args = server_args(e, p, plan, f, env);
            let s = p.sampling.coding;
            &&& p.reasoning_format.len() > 0 && !alike(p.reasoning_format, "none"@) ==> told_by(
                args,
                "--reasoning-format"@,
                p.reasoning_format,
            )
            &&& p.draft_model.len() > 0 && f.draft is None ==> told_by(args, "--model-draft"@, p.draft_model)
            &&& p.draft_model.len() > 0 && f.draft is Some ==> told_by(args, "--model-draft"@, f.draft->Some_0@)
            &&& p.chat_template_file.len() > 0 ==> told_by(
                args,
                "--chat-template-file"@,
                expanded(p.chat_template_file, env),
            )
            &&& p.spec.len() > 0 && p.spec != "none"@ ==> told_by(args, "--spec-type"@, p.spec) && told_by(
                args,
                "--spec-draft-n-max"@,
                dec(p.spec_draft_n_max as nat),
            )
            &&& told_by(args, "--parallel"@, "1"@)
            &&& plan.ctx_checkpoints > 0 ==> told_by(args, "--ctx-checkpoints"@, dec(plan.ctx_checkpoints as nat))
                && told_by(args, "--checkpoint-min-step"@, dec(p.checkpoint_min_step as nat))
            &&& e.cache_ram_mb > 0 ==> told_by(args, "--cache-ram"@, dec(e.cache_ram_mb as nat))
            &&& told_by(args, "--slot-save-path"@, f.slots_dir@)
            &&& told_by(args, "--temp"@, s.temperature)
            &&& told_by(args, "--top-p"@, s.top_p)
            &&& told_by(args, "--top-k"@, dec(s.top_k as nat))
            &&& told_by(args, "--min-p"@, s.min_p)
            &&& told_by(args, "--log-file"@, f.log_file@)
        }),
{
    let args = server_args(e, p, plan, f, env);
    let b = first_of(e, p, plan, f) + override_args(plan, p) + seq!["-c"@, dec(plan.n_ctx as nat)] + attention_args(p)
        + batch_args(p);
    let c1 = mmap_args(p);
    let c2 = reasoning_args(p);
    let c3 = draft_args(p, opt_string(f.draft));
    let c4 = template_args(p, env);
    let c5 = spec_args(p);
    let c6 = checkpoint_args(plan, p);
    let c7 = cache_args(e);
    let d1 = seq!["--slot-save-path"@, f.slots_dir@];
    let d2 = sampling_args(p.sampling.coding);
    let d3 = seq!["--log-file"@, f.log_file@];
    let d4 = seq!["--log-timestamps"@];
    let b1 = b + c1;
    if c2.len() > 0 {
        lemma_told(c2, 0);
    }
    if c3.len() > 0 {
        lemma_told(c3, 0);
    }
    if c4.len() > 0 {
        lemma_told(c4, 0);
    }
    lemma_told(c5, 0);
    if c5.len() > 2 {
        lemma_told(c5, 2);
        lemma_told(c5, 4);
    }
    if c6.len() > 0 {
        lemma_told(c6, 0);
        lemma_told(c6, 2);
    }
    if c7.len() > 0 {
        lemma_told(c7, 0);
    }
    lemma_told(d1, 0);
    lemma_told(d2, 0);
    lemma_told(d2, 2);
    lemma_told(d2, 4);
    lemma_told(d2, 6);
    lemma_told(d3, 0);
    lemma_told_in_both(b1, c2);
    lemma_told_in_both(b1 + c2, c3);
    lemma_told_in_both(b1 + c2 + c3, c4);
    lemma_told_in_both(b1 + c2 + c3 + c4, c5);
    let g = b1 + c2 + c3 + c4 + c5;
    lemma_told_in_both(g, c6);
    lemma_told_in_both(g + c6, c7);
    lemma_told_in_both(g + c6 + c7, d1);
    lemma_told_in_both(g + c6 + c7 + d1, d2);
    lemma_told_in_both(g + c6 + c7 + d1 + d2, d3);
    let h = g + c6 + c7 + d1 + d2 + d3;
    lemma_told_in_both(h, d4);
    lemma_told_in_both(h + d4, p.extra_args);
    assert(args == h + d4 + p.extra_args);
}

/// A word is among the arguments.
#[verifier::opaque]
pub open spec fn is_among(args: Seq<Seq<char>>, word: Seq<char>) -> bool {
    exists|i: int| 0 <= i < args.len() && #[trigger] args[i] == word
}

proof fn lemma_stays_among(a: Seq<Seq<char>>, b: Seq<Seq<char>>)
    ensures
        forall|w: Seq<char>| #[trigger] is_among(a, w) ==> is_among(a + b, w),
        forall|w: Seq<char>| #[trigger] is_among(b, w) ==> is_among(a + b, w),
{
    reveal(is_among);
    assert forall|w: Seq<char>| #[trigger] is_among(a, w) implies is_among(a + b, w) by {
        let i = choose|i: int| 0 <= i < a.len() && #[trigger] a[i] == w;
        assert((a + b)[i] == w);
    }
    assert forall|w: Seq<char>| #[trigger] is_among(b, w) implies is_among(a + b, w) by {
        let i = choose|i: int| 0 <= i < b.len() && #[trigger] b[i] == w;
        assert((a + b)[a.len() + i] == w);
    }
}

/// The server uses the template of the model, and maps its file into memory unless told not to.
#[verifier::rlimit(40)]
pub proof fn law_the_server_uses_the_template(
    e: EngineV,
    p: ProfileV,
    plan: PlanV,
    f: LaunchFacts,
    env: SurroundingsV,
)
    ensures
        is_among(server_args(e, p, plan, f, env), "--jinja"@),
        p.no_mmap ==> is_among(server_args(e, p, plan, f, env), "--no-mmap"@),
{
    let b = first_of(e, p, plan, f) + override_args(plan, p) + seq!["-c"@, dec(plan.n_ctx as nat)] + attention_args(p)
        + batch_args(p);
    let c1 = mmap_args(p);
    assert(is_among(c1, "--jinja"@) && (p.no_mmap ==> is_among(c1, "--no-mmap"@))) by {
        reveal(is_among);
        assert(c1[c1.len() - 1] == "--jinja"@);
        if p.no_mmap {
            assert(c1[0] == "--no-mmap"@);
        }
    }
    let c2 = reasoning_args(p);
    let c3 = draft_args(p, opt_string(f.draft));
    let c4 = template_args(p, env);
    let c5 = spec_args(p);
    let c6 = checkpoint_args(plan, p);
    let c7 = cache_args(e);
    let d1 = seq!["--slot-save-path"@, f.slots_dir@];
    let d2 = sampling_args(p.sampling.coding);
    let d3 = seq!["--log-file"@, f.log_file@];
    let d4 = seq!["--log-timestamps"@];
    lemma_stays_among(b, c1);
    lemma_stays_among(b + c1, c2);
    lemma_stays_among(b + c1 + c2, c3);
    lemma_stays_among(b + c1 + c2 + c3, c4);
    lemma_stays_among(b + c1 + c2 + c3 + c4, c5);
    let g = b + c1 + c2 + c3 + c4 + c5;
    lemma_stays_among(g, c6);
    lemma_stays_among(g + c6, c7);
    lemma_stays_among(g + c6 + c7, d1);
    lemma_stays_among(g + c6 + c7 + d1, d2);
    lemma_stays_among(g + c6 + c7 + d1 + d2, d3);
    let h = g + c6 + c7 + d1 + d2 + d3;
    lemma_stays_among(h, d4);
    lemma_stays_among(h + d4, p.extra_args);
    assert(server_args(e, p, plan, f, env) == h + d4 + p.extra_args);
}

/// The tail of the log holds the most recent lines, in their order: as many as it may.
pub proof fn law_the_tail_is_the_end(lines: Seq<Seq<char>>, cap: nat, line: Seq<char>)
    requires
        cap > 0,
        lines.len() <= cap,
    ensures
        log_after(lines, cap, line).len() <= cap,
        log_after(lines, cap, line) == lines.push(line).skip(
            if lines.len() == cap {
                1
            } else {
                0int
            },
        ),
{
    assert(lines.push(line).skip(0) =~= lines.push(line));
    if lines.len() > 0 {
        assert(lines.drop_first().push(line) =~= lines.push(line).skip(1));
    }
}

/// The command line that is shown holds the program in quotes and behind it every argument, in
/// quotes where it has a space, a bar or a backslash in it.
pub proof fn law_every_argument_is_shown(binary: Seq<char>, args: Seq<Seq<char>>, n: nat, i: int)
    requires
        0 <= i < n <= args.len(),
    ensures
        begins(shown_line(binary, args, n), "\""@ + binary + "\""@),
        args[i].contains(' ') || args[i].contains('|') || args[i].contains('\\') ==> holds(
            shown_line(binary, args, n),
            " \""@ + args[i] + "\""@,
        ),
        holds(shown_line(binary, args, n), args[i]),
{
    lemma_line_begins(binary, args, n);
    let p = lemma_arg_is_there(binary, args, n, i);
    let t = shown_line(binary, args, n);
    let l = shown_arg(args[i]);
    reveal_strlit(" \"");
    reveal_strlit(" ");
    let k: int = if needs_quotes(args[i]) {
        2
    } else {
        1
    };
    assert(l.subrange(k, k + args[i].len()) =~= args[i]);
    assert(t.subrange(p + k, p + k + args[i].len()) =~= t.subrange(p, p + l.len()).subrange(k, k + args[i].len()));
    assert(at(t, p + k, args[i]));
}

proof fn lemma_line_begins(binary: Seq<char>, args: Seq<Seq<char>>, n: nat)
    requires
        n <= args.len(),
    ensures
        begins(shown_line(binary, args, n), "\""@ + binary + "\""@),
    decreases n,
{
    let h = "\""@ + binary + "\""@;
    let t = shown_line(binary, args, n);
    if n > 0 {
        lemma_line_begins(binary, args, (n - 1) as nat);
        let b = shown_line(binary, args, (n - 1) as nat);
        assert(t.subrange(0, h.len() as int) =~= b.subrange(0, h.len() as int));
    } else {
        assert(t.subrange(0, h.len() as int) =~= h);
    }
}

proof fn lemma_arg_is_there(binary: Seq<char>, args: Seq<Seq<char>>, n: nat, i: int) -> (p: int)
    requires
        0 <= i < n <= args.len(),
    ensures
        at(shown_line(binary, args, n), p, shown_arg(args[i])),
    decreases n,
{
    let t = shown_line(binary, args, n);
    let b = shown_line(binary, args, (n - 1) as nat);
    let l = shown_arg(args[i]);
    if i == n - 1 {
        let p = b.len() as int;
        assert(t.subrange(p, p + l.len()) =~= l);
        p
    } else {
        let p = lemma_arg_is_there(binary, args, (n - 1) as nat, i);
        assert(t.subrange(p, p + l.len()) =~= b.subrange(p, p + l.len()));
        p
    }
}

/// Memory ran out where a line of the log, whichever it is, holds one of the words for it.
pub proof fn law_any_line_tells_of_lacking_memory(lines: Seq<Seq<char>>, i: int)
    requires
        0 <= i < lines.len(),
        holds(lines[i], "out of memory"@) || holds(lines[i], "cudaMalloc failed"@) || holds(lines[i], "failed to allocate"@)
            || holds(lines[i], "ggml_backend_cuda_buffer_type_alloc_buffer"@),
    ensures
        tells_of_oom(lines),
{
}

/// The last lines of a list are those at its end, all of them where there are no more.
pub proof fn law_the_last_lines_are_shown(v: Seq<Seq<char>>, n: nat)
    ensures
        last_of(v, n).len() == if v.len() <= n {
            v.len()
        } else {
            n
        },
        forall|i: int|
            0 <= i < last_of(v, n).len() ==> #[trigger] last_of(v, n)[i] == v[v.len() - last_of(v, n).len() + i],
{
}

} // verus!
