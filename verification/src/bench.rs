//! What the benchmarks decide: which sizes are tried, whether what is sent stays the same,
//! and how a task ended.

use crate::client::{ChatRequest, RequestV};
use crate::config::{Profile, ProfileV};
use crate::digest::{blake3_digest, blake3_hash, hex, to_hex};
use crate::json::{Json, JsonV, NumberV, jsons, opt_str, parsed, text_of};
use crate::message::array;
use crate::sse::get_u64;
use crate::symbols::{trim_trailing, without_trailing};
use crate::text::{
    begins, char_lists, chars_of, dec, dec_u64, lines, lines_of, starts_with, str_eq, string_of,
};
use vstd::prelude::*;
use vstd::string::*;
use vstd::utf8::encode_utf8;

verus! {

/// Whether a prompt and its answer fit the context, with 64 tokens to spare.
pub fn fits_context(prompt: u32, answer: u32, n_ctx: u32) -> (r: bool)
    ensures
        r == (prompt + answer + 64 <= n_ctx),
{
    prompt as u64 + answer as u64 + 64 <= n_ctx as u64
}

/// A part of the code that is made up for a benchmark.
pub open spec fn code_part(i: nat) -> Seq<char> {
    "pub fn compute_"@ + dec(i) + CODE_HEAD@ + dec(i) + CODE_BODY@ + dec(i) + CODE_TAIL@
}

pub const CODE_HEAD: &'static str =
    "(input: &[u32], scale: u32) -> Result<Vec<u32>, String> {\n    if input.is_empty() { return Err(\"empty input ";

pub const CODE_BODY: &'static str =
    "\".to_string()); }\n    let mut out = Vec::with_capacity(input.len());\n    for (idx, v) in input.iter().enumerate() {\n        out.push(v.wrapping_mul(scale).wrapping_add(idx as u32 + ";

pub const CODE_TAIL: &'static str = "));\n    }\n    Ok(out)\n}\n\n";

/// A part of the code that is made up for a benchmark.
pub fn synthetic_part(i: u64) -> (r: String)
    ensures
        r@ == code_part(i as nat),
{
    let n = dec_u64(i);
    "pub fn compute_".to_owned().concat(n.as_str()).concat(CODE_HEAD).concat(n.as_str()).concat(CODE_BODY).concat(
        n.as_str(),
    ).concat(CODE_TAIL)
}

/// The request of a benchmark: some tokens, no thinking.
pub fn bench_request(model: &str, messages: Vec<Json>, max_tokens: u32) -> (r: ChatRequest)
    ensures
        r@ == (RequestV { max_tokens: Some(max_tokens), ..RequestV::fresh(model@, jsons(messages@)) }).with_effort(
            "none"@,
        ),
{
    let mut q = ChatRequest::new(model, messages);
    q.max_tokens = Some(max_tokens);
    q.reasoning_effort("none")
}

/// The profile with another way of speculation.
pub fn with_spec(profile: &Profile, spec: &str) -> (r: Profile)
    ensures
        r@ == (ProfileV {
            spec: spec@,
            spec_draft_n_max: if spec@ == "ngram-simple"@ {
                64
            } else {
                profile.spec_draft_n_max
            },
            ..profile@
        }),
{
    let mut p = profile.copy();
    p.spec = spec.to_owned();
    if str_eq(spec, "ngram-simple") {
        p.spec_draft_n_max = 64;
    }
    p
}

// ---------------------------------------------------------------- the cache

pub open spec fn digest_text(s: Seq<char>) -> Seq<char> {
    hex(blake3_digest(encode_utf8(s)))
}

/// The messages of a conversation before the one that was said last, as they are sent.
pub open spec fn sent_before(ms: Seq<JsonV>) -> Seq<char> {
    text_of(JsonV::Array(ms.drop_last()))
}

/// The messages that were sent the last time: three fewer, or the first alone.
pub open spec fn sent_last(ms: Seq<JsonV>) -> Seq<char> {
    text_of(
        JsonV::Array(
            ms.take(
                ms.len() - if ms.len() >= 4 {
                    3
                } else {
                    ms.len() - 1
                },
            ),
        ),
    )
}

/// Whether what is sent still begins with what was sent the last time, but for the closing
/// brackets. `last` is the digest of that time.
pub open spec fn stays_stable(ms: Seq<JsonV>, last: Option<Seq<char>>) -> bool {
    match last {
        Some(p) => begins(sent_before(ms), without_trailing(sent_last(ms), ']')) || p == digest_text(sent_before(ms)),
        None => true,
    }
}

fn first_values(v: &Vec<Json>, n: usize) -> (r: Vec<Json>)
    requires
        n <= v.len(),
    ensures
        jsons(r@) == jsons(v@).take(n as int),
{
    let mut out: Vec<Json> = Vec::new();
    let mut i: usize = 0;
    assert(jsons(out@) =~= jsons(v@).take(0));
    while i < n
        invariant
            i <= n <= v.len(),
            jsons(out@) == jsons(v@).take(i as int),
        decreases n - i,
    {
        let ghost b = out@;
        out.push(v[i].copy());
        assert(jsons(out@) =~= jsons(b).push(v@[i as int]@));
        assert(jsons(v@).take(i + 1) =~= jsons(v@).take(i as int).push(v@[i as int]@));
        i += 1;
    }
    out
}

/// The digest of what is sent, and whether it still begins as it did the last time.
pub fn check_prefix(messages: &Vec<Json>, last: Option<&str>) -> (r: (String, bool))
    requires
        messages.len() > 0,
    ensures
        r.0@ == digest_text(sent_before(jsons(messages@))),
        r.1 == stays_stable(jsons(messages@), opt_str(last)),
{
    let ghost mv = jsons(messages@);
    let head = first_values(messages, messages.len() - 1);
    assert(mv.take(mv.len() - 1) =~= mv.drop_last());
    let text = array(head).to_text();
    let digest = to_hex(&blake3_hash(text.as_str().as_bytes()));
    let stable = match last {
        None => true,
        Some(p) => {
            let fewer: usize = if messages.len() >= 4 {
                3
            } else {
                messages.len() - 1
            };
            let before = array(first_values(messages, messages.len() - fewer)).to_text();
            let open = string_of(&trim_trailing(&chars_of(before.as_str()), ']'));
            starts_with(text.as_str(), open.as_str()) || str_eq(p, digest.as_str())
        },
    };
    (digest, stable)
}

// ---------------------------------------------------------------- tasks

/// What the last event of a run says: its turns and why it ended.
pub open spec fn finished_in(ls: Seq<Seq<char>>, n: nat) -> (u32, Seq<char>)
    decreases n,
{
    if n == 0 || n > ls.len() {
        (0, "?"@)
    } else {
        match parsed(ls[n - 1]) {
            Ok(v) => if v.get_str("type"@) == Some("finished"@) {
                (
                    match get_u64(v, "turns"@) {
                        Some(t) => t as u32,
                        None => 0,
                    },
                    match v.get_str("reason"@) {
                        Some(s) => s,
                        None => "?"@,
                    },
                )
            } else {
                finished_in(ls, (n - 1) as nat)
            },
            Err(_) => finished_in(ls, (n - 1) as nat),
        }
    }
}

/// How a run ended, by the events that it printed.
pub fn read_finish(output: &str) -> (r: (u32, String))
    ensures
        (r.0, r.1@) == finished_in(lines_of(output@), lines_of(output@).len()),
{
    let ls = lines(&chars_of(output));
    let ghost lv = lines_of(output@);
    let mut i: usize = ls.len();
    while i > 0
        invariant
            i <= ls.len(),
            lv == char_lists(ls@),
            lv == lines_of(output@),
            finished_in(lv, lv.len()) == finished_in(lv, i as nat),
        decreases i,
    {
        assert(lv[i - 1] == ls@[i - 1]@);
        let line = string_of(&ls[i - 1]);
        if let Ok(v) = Json::parse(line.as_str()) {
            let is_finish = match v.get_str("type") {
                Some(t) => str_eq(t, "finished"),
                None => false,
            };
            if is_finish {
                let turns: u32 = match v.get("turns") {
                    Some(t) => match t.as_u64() {
                        Some(n) => n as u32,
                        None => 0,
                    },
                    None => 0,
                };
                let reason = match v.get_str("reason") {
                    Some(s) => s.to_owned(),
                    None => "?".to_owned(),
                };
                return (turns, reason);
            }
        }
        i -= 1;
    }
    (0, "?".to_owned())
}

/// Whether a task was done: as its check says, else where the run came to its end.
pub fn task_passed(check: Option<bool>, reason: &str) -> (r: bool)
    ensures
        r == (match check {
            Some(ok) => ok,
            None => reason@ == "end_turn"@,
        }),
{
    match check {
        Some(ok) => ok,
        None => str_eq(reason, "end_turn"),
    }
}

/// Whether a directory is left out when a project is copied.
pub fn is_left_out(name: &str) -> (r: bool)
    ensures
        r == (name@ == "target"@ || name@ == "node_modules"@ || name@ == ".buzzcode"@),
{
    str_eq(name, "target") || str_eq(name, "node_modules") || str_eq(name, ".buzzcode")
}

/// A run ended as the last line says that tells of an end; lines that do not are passed over.
pub proof fn law_the_last_end_counts(ls: Seq<Seq<char>>, n: nat, k: int, turns: u64, reason: Seq<char>)
    requires
        0 <= k < n <= ls.len(),
        parsed(ls[k]) matches Ok(v) && v.get_str("type"@) == Some("finished"@) && v.get("turns"@) == Some(
            JsonV::Number(NumberV::PosInt(turns)),
        ) && v.get_str("reason"@) == Some(reason),
        forall|j: int|
            k < j < n ==> !(parsed(#[trigger] ls[j]) matches Ok(v) && v.get_str("type"@) == Some("finished"@)),
    ensures
        finished_in(ls, n) == (turns as u32, reason),
    decreases n,
{
    if k < n - 1 {
        assert(!(parsed(ls[n - 1]) matches Ok(v) && v.get_str("type"@) == Some("finished"@)));
        law_the_last_end_counts(ls, (n - 1) as nat, k, turns, reason);
    }
}

} // verus!
