//! Prefix-stable conversation store.
//!
//! * The prefix (system message and tools) is fixed for the lifetime of the store;
//!   its digest is recorded.
//! * The log grows at its end; the other changes, a compaction, a restart and the
//!   exchange of the repository map, are explicit breaks of the prompt cache.
//! * Every request is the system message followed by the log.

use crate::digest::{blake3_digest, blake3_hash, hex, to_hex};
use crate::json::{Json, JsonV, array_text, item_texts, jsons, text_of, tokens};
use crate::message::{
    Message, MessageV, MsgMetaV, Role, array, at_most, byte_len, calls_size, messages, push_bytes,
};
use crate::text::{begins, joined, strings};
use vstd::prelude::*;
use vstd::string::*;
use vstd::utf8::encode_utf8;

verus! {

/// The part of every request that never changes.
#[derive(Debug)]
pub struct FrozenPrefix {
    pub system: Message,
    pub tools_json: Json,
    pub bytes_hash: [u8; 32],
    pub system_tokens: u32,
    pub tools_tokens: u32,
}

/// The bytes whose digest identifies a prefix.
pub open spec fn prefix_bytes(system: MessageV, tools: JsonV) -> Seq<u8> {
    encode_utf8(text_of(system.value())) + encode_utf8("\0tools\0"@) + encode_utf8(text_of(tools))
}

pub struct PrefixV {
    pub system: MessageV,
    pub tools_json: JsonV,
    pub bytes_hash: Seq<u8>,
    pub system_tokens: u32,
    pub tools_tokens: u32,
}

impl View for FrozenPrefix {
    type V = PrefixV;

    open spec fn view(&self) -> PrefixV {
        PrefixV {
            system: self.system@,
            tools_json: self.tools_json@,
            bytes_hash: self.bytes_hash@,
            system_tokens: self.system_tokens,
            tools_tokens: self.tools_tokens,
        }
    }
}

impl FrozenPrefix {
    pub fn new(system: Message, tools_json: Json) -> (r: FrozenPrefix)
        ensures
            r@ == (PrefixV {
                system: system@,
                tools_json: tools_json@,
                bytes_hash: blake3_digest(prefix_bytes(system@, tools_json@)),
                system_tokens: 0,
                tools_tokens: 0,
            }),
    {
        let mut b: Vec<u8> = Vec::new();
        let s = system.to_value().to_text();
        push_bytes(&mut b, s.as_str().as_bytes());
        push_bytes(&mut b, "\0tools\0".as_bytes());
        let t = tools_json.to_text();
        push_bytes(&mut b, t.as_str().as_bytes());
        assert(b@ =~= prefix_bytes(system@, tools_json@));
        let bytes_hash = blake3_hash(b.as_slice());
        FrozenPrefix { system, tools_json, bytes_hash, system_tokens: 0, tools_tokens: 0 }
    }

    /// The digest in hexadecimal.
    pub fn hash_hex(&self) -> (r: String)
        ensures
            r@ == hex(self@.bytes_hash),
    {
        to_hex(self.bytes_hash.as_slice())
    }

    pub fn tokens(&self) -> (r: u32)
        requires
            self.system_tokens + self.tools_tokens <= u32::MAX,
        ensures
            r == self.system_tokens + self.tools_tokens,
    {
        self.system_tokens + self.tools_tokens
    }
}

/// The share of each message that the chat template adds.
pub const MSG_OVERHEAD: u32 = 6;

#[derive(Debug, Clone, Copy, PartialEq, Eq, Structural)]
pub struct CompactionReport {
    pub messages_before: usize,
    pub messages_after: usize,
}

pub struct ContextStore {
    pub id: u64,
    prefix: FrozenPrefix,
    log: Vec<Message>,
    n_ctx: u32,
    summary_at: Option<usize>,
    pub compactions: u32,
    pub last_prompt_total: Option<u32>,
    reported_at: usize,
}

pub struct ContextV {
    pub id: u64,
    pub prefix: PrefixV,
    pub log: Seq<MessageV>,
    pub n_ctx: u32,
    /// Where the latest summary stands in the log.
    pub summary_at: Option<nat>,
    /// How often the prompt cache was broken.
    pub compactions: u32,
    /// The tokens of the prompt that the server reported last.
    pub last_prompt_total: Option<u32>,
    /// How many messages the log had then.
    pub reported_at: nat,
}

impl View for ContextStore {
    type V = ContextV;

    closed spec fn view(&self) -> ContextV {
        ContextV {
            id: self.id,
            prefix: self.prefix@,
            log: messages(self.log@),
            n_ctx: self.n_ctx,
            summary_at: match self.summary_at {
                Some(i) => Some(i as nat),
                None => None,
            },
            compactions: self.compactions,
            last_prompt_total: self.last_prompt_total,
            reported_at: self.reported_at as nat,
        }
    }
}

/// The message begins a turn: it is the user's own.
pub open spec fn begins_turn(m: MessageV) -> bool {
    m.role == Role::User && !m.meta.is_summary && !m.meta.is_repo_map
}

/// The place of the `k`-th last message that begins a turn among the first `n`.
pub open spec fn turn_from_end(log: Seq<MessageV>, n: nat, k: nat) -> Option<int>
    decreases n,
{
    if n == 0 || n > log.len() {
        None
    } else if begins_turn(log[n - 1]) {
        if k <= 1 {
            Some(n - 1)
        } else {
            turn_from_end(log, (n - 1) as nat, (k - 1) as nat)
        }
    } else {
        turn_from_end(log, (n - 1) as nat, k)
    }
}

/// The first place from `i` on of a message of the user's role that is no
/// repository map.
pub open spec fn user_from(log: Seq<MessageV>, i: int) -> Option<int>
    decreases log.len() - i,
{
    if i < 0 || i >= log.len() {
        None
    } else if log[i].role == Role::User && !log[i].meta.is_repo_map {
        Some(i)
    } else {
        user_from(log, i + 1)
    }
}

/// Where a compaction cuts: before the last `keep` turns; where there are fewer,
/// before the first message of the user's; where there is none, at the beginning.
pub open spec fn cut_at(log: Seq<MessageV>, keep: nat) -> int {
    if keep == 0 {
        log.len() as int
    } else {
        match turn_from_end(log, log.len(), keep) {
            Some(i) => i,
            None => match user_from(log, 0) {
                Some(i) => i,
                None => 0,
            },
        }
    }
}

/// The first place from `i` on of a repository map.
pub open spec fn map_from(log: Seq<MessageV>, i: int) -> Option<int>
    decreases log.len() - i,
{
    if i < 0 || i >= log.len() {
        None
    } else if log[i].meta.is_repo_map {
        Some(i)
    } else {
        map_from(log, i + 1)
    }
}

/// The first repository map, as a list of none or one.
pub open spec fn map_part(log: Seq<MessageV>) -> Seq<MessageV> {
    match map_from(log, 0) {
        Some(i) => seq![log[i]],
        None => Seq::empty(),
    }
}

/// A message of the user's role that is marked as a summary.
pub open spec fn summary_message(content: Seq<char>) -> MessageV {
    MessageV {
        meta: MsgMetaV { is_summary: true, ..MsgMetaV::empty() },
        ..MessageV::plain(Role::User, content)
    }
}

/// The log after a compaction: the repository map of what is cut off, the summary,
/// and the turns that are kept.
pub open spec fn compacted(log: Seq<MessageV>, summary: Seq<char>, keep: nat) -> Seq<MessageV> {
    let cut = cut_at(log, keep);
    map_part(log.take(cut)).push(
        summary_message("[Conversation summary — earlier turns were compacted]\n"@ + summary),
    ) + log.skip(cut)
}

/// The first place from `i` on of a message that begins a turn.
pub open spec fn goal_from(log: Seq<MessageV>, i: int) -> Option<int>
    decreases log.len() - i,
{
    if i < 0 || i >= log.len() {
        None
    } else if begins_turn(log[i]) {
        Some(i)
    } else {
        goal_from(log, i + 1)
    }
}

/// One more, as far as the number goes.
pub open spec fn counted(n: u32) -> u32 {
    if n < u32::MAX {
        (n + 1) as u32
    } else {
        n
    }
}

/// What the user asked for first.
pub open spec fn goal(log: Seq<MessageV>) -> Seq<char> {
    match goal_from(log, 0) {
        Some(i) => log[i].content,
        None => "Continue previous task"@,
    }
}

/// The log after a restart: the repository map and a note that repeats the goal.
pub open spec fn restarted(log: Seq<MessageV>) -> Seq<MessageV> {
    map_part(log).push(
        summary_message(
            "[Context reached capacity — restarted with fresh context]\nInitial task:\n"@ + goal(log)
                + "\n\nPlease proceed with this"@ + " task from where you left off."@,
        ),
    )
}

/// The message that carries a repository map.
pub open spec fn map_message(content: Seq<char>) -> MessageV {
    MessageV {
        meta: MsgMetaV { is_repo_map: true, ..MsgMetaV::empty() },
        ..MessageV::plain(Role::User, "[Repository map]\n"@ + content)
    }
}

/// A place in the log once a message stands before it.
pub open spec fn shifted(place: nat) -> nat {
    at_most(place + 1, usize::MAX as nat)
}

/// The log with another repository map: in the place of the first, else before all.
pub open spec fn with_map(log: Seq<MessageV>, content: Seq<char>) -> Seq<MessageV> {
    match map_from(log, 0) {
        Some(i) => log.update(i, map_message(content)),
        None => seq![map_message(content)] + log,
    }
}

/// The message asks for calls whose results are not in the log.
pub open spec fn awaits_results(m: MessageV) -> bool {
    m.role == Role::Assistant && m.tool_calls.len() > 0
}

/// The log without the messages at its end that await results.
pub open spec fn repaired_tail(log: Seq<MessageV>) -> Seq<MessageV>
    decreases log.len(),
{
    if log.len() > 0 && awaits_results(log.last()) {
        repaired_tail(log.drop_last())
    } else {
        log
    }
}

/// The messages of a request as they are sent.
pub open spec fn values(msgs: Seq<MessageV>) -> Seq<JsonV> {
    Seq::new(msgs.len(), |i: int| msgs[i].value())
}

impl ContextV {
    /// The messages of a request: the system message, then the log.
    pub open spec fn request(self) -> Seq<MessageV> {
        seq![self.prefix.system] + self.log
    }
}

/// The tokens of a message: its count, or where it has none an estimate of its text
/// and a fixed share for each call; in either case the template's share on top.
pub open spec fn message_tokens(m: MessageV, estimate: u32) -> nat {
    (match m.tokens {
        Some(t) => t as nat,
        None => estimate as nat + m.tool_calls.len() * 24,
    }) + MSG_OVERHEAD as nat
}

/// The tokens of the messages from place `from` up to place `n`; `estimates` are those of
/// their texts.
pub open spec fn log_tokens(log: Seq<MessageV>, estimates: Seq<u32>, from: nat, n: nat) -> nat
    decreases n,
{
    if n <= from || n > log.len() {
        0
    } else {
        log_tokens(log, estimates, from, (n - 1) as nat) + message_tokens(log[n - 1], estimates[n - 1])
    }
}

impl ContextV {
    /// The tokens of the whole request: what the server reported, and estimates for the
    /// messages that came since; estimates for all where it reported nothing.
    pub open spec fn estimated(self, estimates: Seq<u32>) -> nat {
        match self.last_prompt_total {
            Some(t) => t as nat + log_tokens(self.log, estimates, self.reported_at, self.log.len()),
            None => self.prefix.system_tokens as nat + self.prefix.tools_tokens as nat + log_tokens(
                self.log,
                estimates,
                0,
                self.log.len(),
            ),
        }
    }

    /// The tokens in use: what the server reported, where that is more than the
    /// estimate.
    pub open spec fn used(self, estimates: Seq<u32>) -> nat {
        let e = self.estimated(estimates);
        match self.last_prompt_total {
            Some(t) => if t >= e {
                t as nat
            } else {
                e
            },
            None => e,
        }
    }

    /// There is an estimate for each message, and the sum is in range.
    pub open spec fn countable(self, estimates: Seq<u32>) -> bool {
        estimates.len() == self.log.len() && self.estimated(estimates) <= u32::MAX
    }
}

proof fn lemma_log_tokens_grows(log: Seq<MessageV>, e: Seq<u32>, from: nat, a: nat, b: nat)
    requires
        a <= b <= log.len(),
    ensures
        log_tokens(log, e, from, a) <= log_tokens(log, e, from, b),
    decreases b - a,
{
    if a < b {
        lemma_log_tokens_grows(log, e, from, a, (b - 1) as nat);
    }
}

/// The texts of a message that a token count is made of: its text, and the
/// arguments of each call.
pub open spec fn countable_texts(m: MessageV) -> Seq<Seq<char>> {
    seq![m.content] + Seq::new(m.tool_calls.len(), |i: int| text_of(m.tool_calls[i].arguments))
}

/// The count of a message out of the counts of its texts: each call adds eight.
pub open spec fn summed(counts: Seq<u32>, n: nat) -> nat
    decreases n,
{
    if n == 0 || n > counts.len() {
        0
    } else {
        summed(counts, (n - 1) as nat) + counts[n - 1] as nat + (if n == 1 {
            0nat
        } else {
            8nat
        })
    }
}

/// The sum of the sizes of the first `n` messages.
pub open spec fn log_size(log: Seq<MessageV>, n: nat) -> nat
    decreases n,
{
    if n == 0 || n > log.len() {
        0
    } else {
        log_size(log, (n - 1) as nat) + message_size(log[n - 1])
    }
}

/// The size of a message, for the ratio of characters to tokens.
pub open spec fn message_size(m: MessageV) -> nat {
    at_most(byte_len(m.content) + calls_size(m.tool_calls, m.tool_calls.len()), usize::MAX as nat)
}

proof fn lemma_turn_range(log: Seq<MessageV>, n: nat, k: nat)
    requires
        n <= log.len(),
    ensures
        turn_from_end(log, n, k) matches Some(i) ==> 0 <= i < n && begins_turn(log[i]),
    decreases n,
{
    if n > 0 {
        if begins_turn(log[n - 1]) {
            if k > 1 {
                lemma_turn_range(log, (n - 1) as nat, (k - 1) as nat);
            }
        } else {
            lemma_turn_range(log, (n - 1) as nat, k);
        }
    }
}

proof fn lemma_user_range(log: Seq<MessageV>, i: int)
    ensures
        user_from(log, i) matches Some(k) ==> i <= k < log.len(),
    decreases log.len() - i,
{
    if 0 <= i < log.len() && !(log[i].role == Role::User && !log[i].meta.is_repo_map) {
        lemma_user_range(log, i + 1);
    }
}

/// A compaction cuts within the log.
pub proof fn lemma_cut_range(log: Seq<MessageV>, keep: nat)
    ensures
        0 <= cut_at(log, keep) <= log.len(),
{
    lemma_turn_range(log, log.len(), keep);
    lemma_user_range(log, 0);
}

/// Counts the messages among `log[from..]` that begin a turn.
pub open spec fn turns_in(log: Seq<MessageV>, from: int) -> nat
    decreases log.len() - from,
{
    if from < 0 || from >= log.len() {
        0
    } else {
        turns_in(log, from + 1) + (if begins_turn(log[from]) {
            1nat
        } else {
            0nat
        })
    }
}

proof fn lemma_turn_count(log: Seq<MessageV>, n: nat, k: nat)
    requires
        n <= log.len(),
        k >= 1,
    ensures
        turn_from_end(log, n, k) matches Some(i) ==> turns_in(log, i) == turns_in(log, n as int) + k,
        turn_from_end(log, n, k) is None ==> turns_in(log, 0) < turns_in(log, n as int) + k,
    decreases n,
{
    if n > 0 {
        if begins_turn(log[n - 1]) {
            if k > 1 {
                lemma_turn_count(log, (n - 1) as nat, (k - 1) as nat);
            }
        } else {
            lemma_turn_count(log, (n - 1) as nat, k);
        }
    }
}

/// Compaction keeps the last turns whole: with at least `keep` turns in the log
/// exactly `keep` of them stay, word for word and in order, at the end of the log,
/// and what stays begins with a message of the user's, so that no tool result is
/// left without its call. With fewer turns none of them is lost.
pub proof fn law_compaction_keeps_tail(log: Seq<MessageV>, summary: Seq<char>, keep: nat)
    ensures
        ({
            let cut = cut_at(log, keep);
            let new = compacted(log, summary, keep);
            let tail = log.skip(cut);
            &&& 0 <= cut <= log.len()
            &&& tail.len() <= new.len()
            &&& new.skip(new.len() - tail.len()) == tail
            &&& keep <= turns_in(log, 0) ==> turns_in(log, cut) == keep && (keep > 0 ==> tail.len() > 0
                && begins_turn(tail[0]))
            &&& keep > turns_in(log, 0) ==> turns_in(log, cut) == turns_in(log, 0)
        }),
{
    lemma_cut_range(log, keep);
    let cut = cut_at(log, keep);
    let new = compacted(log, summary, keep);
    let tail = log.skip(cut);
    assert(new.skip(new.len() - tail.len()) =~= tail);
    lemma_turn_range(log, log.len(), keep);
    if keep > 0 {
        lemma_turn_count(log, log.len(), keep);
        if keep > turns_in(log, 0) {
            if let Some(i) = turn_from_end(log, log.len(), keep) {
                lemma_turns_shrink(log, 0, i);
            }
            lemma_turns_before_user(log, 0);
        }
    }
}

proof fn lemma_turns_shrink(log: Seq<MessageV>, a: int, b: int)
    requires
        0 <= a <= b,
    ensures
        turns_in(log, b) <= turns_in(log, a),
    decreases b - a,
{
    if a < b && a < log.len() {
        lemma_turns_shrink(log, a + 1, b);
    }
}

proof fn lemma_turns_before_user(log: Seq<MessageV>, i: int)
    requires
        0 <= i <= log.len(),
    ensures
        match user_from(log, i) {
            Some(k) => turns_in(log, k) == turns_in(log, i),
            None => turns_in(log, i) == 0,
        },
    decreases log.len() - i,
{
    if i < log.len() && !(log[i].role == Role::User && !log[i].meta.is_repo_map) {
        lemma_turns_before_user(log, i + 1);
    }
}

/// A restart keeps the repository map where there is one, and repeats the goal word for word
/// in the one message behind it.
pub proof fn law_restart_keeps_map_and_goal(log: Seq<MessageV>)
    ensures
        ({
            let new = restarted(log);
            let text = new.last().content;
            &&& new.len() == (if map_from(log, 0) is Some {
                2nat
            } else {
                1nat
            })
            &&& map_from(log, 0) matches Some(i) ==> new[0] == log[i]
            &&& exists|k: int|
                0 <= k <= text.len() - goal(log).len() && #[trigger] text.subrange(k, k + goal(log).len()) == goal(log)
        }),
{
    let head = "[Context reached capacity — restarted with fresh context]\nInitial task:\n"@;
    let g = goal(log);
    let text = restarted(log).last().content;
    assert(text == head + g + "\n\nPlease proceed with this"@ + " task from where you left off."@);
    let k = head.len() as int;
    assert(text.subrange(k, k + g.len()) =~= g);
}

/// Repairing the end of a log only takes off messages that await results, all of them.
pub proof fn law_repair_takes_off_what_awaits(log: Seq<MessageV>)
    ensures
        ({
            let r = repaired_tail(log);
            &&& r.len() <= log.len()
            &&& log.take(r.len() as int) == r
            &&& r.len() > 0 ==> !awaits_results(r.last())
            &&& forall|i: int| r.len() <= i < log.len() ==> awaits_results(#[trigger] log[i])
        }),
    decreases log.len(),
{
    if log.len() > 0 && awaits_results(log.last()) {
        law_repair_takes_off_what_awaits(log.drop_last());
        let r = repaired_tail(log);
        assert(log.take(r.len() as int) =~= log.drop_last().take(r.len() as int));
        assert forall|i: int| r.len() <= i < log.len() implies awaits_results(#[trigger] log[i]) by {
            if i < log.len() - 1 {
                assert(log.drop_last()[i] == log[i]);
            }
        }
    } else {
        assert(log.take(log.len() as int) =~= log);
    }
}

/// A further message only adds to a request: what was sent before is its beginning.
pub proof fn law_push_extends_request(c: ContextV, m: MessageV)
    ensures
        ({
            let after = ContextV { log: c.log.push(m), ..c };
            &&& after.request() == c.request().push(m)
            &&& after.request().take(c.request().len() as int) == c.request()
        }),
{
    let after = ContextV { log: c.log.push(m), ..c };
    assert(after.request() =~= c.request().push(m));
    assert(after.request().take(c.request().len() as int) =~= c.request());
}

proof fn lemma_array_extends(items: Seq<Seq<char>>, item: Seq<char>)
    requires
        items.len() > 0,
    ensures
        begins(array_text(items.push(item)), array_text(items).drop_last()),
{
    reveal_strlit("]");
    let a = array_text(items);
    let b = array_text(items.push(item));
    assert(items.push(item).drop_last() =~= items);
    let rest = ","@ + item + "]"@;
    assert(b =~= "["@ + joined(items, ","@) + rest);
    assert(a.drop_last() =~= "["@ + joined(items, ","@));
    assert(b.subrange(0, a.drop_last().len() as int) =~= a.drop_last());
}

/// In text too a request with one more message begins with the request before it, up to the
/// closing bracket.
pub proof fn law_request_text_extends(c: ContextV, m: MessageV)
    ensures
        ({
            let after = ContextV { log: c.log.push(m), ..c };
            begins(
                array_text(item_texts(values(after.request()))),
                array_text(item_texts(values(c.request()))).drop_last(),
            )
        }),
{
    let after = ContextV { log: c.log.push(m), ..c };
    let items = item_texts(values(c.request()));
    let item = item_texts(values(after.request())).last();
    law_push_extends_request(c, m);
    assert(item_texts(values(after.request())) =~= items.push(item));
    lemma_array_extends(items, item);
}

// ---------------------------------------------------------------- what stays of a conversation

/// A message that the user wrote: neither a summary nor a repository map.
pub open spec fn of_the_user() -> spec_fn(MessageV) -> bool {
    |m: MessageV| m.role == Role::User && !m.meta.is_summary && !m.meta.is_repo_map
}

proof fn lemma_turns_are_filtered(log: Seq<MessageV>, i: int)
    requires
        0 <= i <= log.len(),
    ensures
        turns_in(log, i) == log.skip(i).filter(of_the_user()).len(),
    decreases log.len() - i,
{
    reveal(Seq::filter);
    let s = log.skip(i);
    if i < log.len() {
        lemma_turns_are_filtered(log, i + 1);
        let one = seq![log[i]];
        assert(s =~= one + log.skip(i + 1));
        Seq::filter_distributes_over_add(one, log.skip(i + 1), of_the_user());
        assert(one.drop_last() =~= Seq::<MessageV>::empty());
        assert(Seq::<MessageV>::empty().filter(of_the_user()).len() == 0);
        assert(one.filter(of_the_user()).len() == (if of_the_user()(log[i]) {
            1nat
        } else {
            0nat
        }));
    } else {
        assert(s.len() == 0);
    }
}

proof fn lemma_first_map(log: Seq<MessageV>, i: int)
    requires
        0 <= i <= log.len(),
    ensures
        match map_from(log, i) {
            Some(k) => i <= k < log.len() && log[k].meta.is_repo_map && forall|j: int|
                i <= j < k ==> !(#[trigger] log[j]).meta.is_repo_map,
            None => forall|j: int| i <= j < log.len() ==> !(#[trigger] log[j]).meta.is_repo_map,
        },
    decreases log.len() - i,
{
    if i < log.len() && !log[i].meta.is_repo_map {
        lemma_first_map(log, i + 1);
    }
}

/// The end of a log was cut off and replaced: `at` messages and a summary stand before the last
/// `kept` messages of the log. What is kept is unchanged; the summary is the user's, marked as
/// one, and ends with its text word for word; of what was cut off the first repository map
/// stays, where there is one, and nothing else.
pub open spec fn summarized(log: Seq<MessageV>, after: Seq<MessageV>, at: int, kept: int, summary: Seq<char>) -> bool {
    let text = after[at].content;
    let gone = log.take(log.len() - kept);
    &&& 0 <= kept <= log.len()
    &&& 0 <= at <= 1
    &&& after.len() == at + 1 + kept
    &&& after.skip(at + 1) == log.skip(log.len() - kept)
    &&& after[at].role == Role::User
    &&& after[at].meta.is_summary
    &&& !after[at].meta.is_repo_map
    &&& text.len() >= summary.len()
    &&& text.subrange(text.len() - summary.len(), text.len() as int) == summary
    &&& at == 0 ==> forall|i: int| 0 <= i < gone.len() ==> !(#[trigger] gone[i]).meta.is_repo_map
    &&& at == 1 ==> exists|i: int|
        0 <= i < gone.len() && #[trigger] gone[i] == after[0] && after[0].meta.is_repo_map && forall|j: int|
            0 <= j < i ==> !(#[trigger] gone[j]).meta.is_repo_map
}

/// A compaction puts the summary in the place of what it cuts off, and loses no word of it. It
/// keeps as many of the user's turns as asked for, whole and from their beginning on, or all
/// where there are fewer.
pub proof fn law_compaction_keeps_summary_and_turns(log: Seq<MessageV>, summary: Seq<char>, keep: nat) -> (at: int)
    ensures
        ({
            let after = compacted(log, summary, keep);
            let kept = after.len() - at - 1;
            let turns = log.filter(of_the_user()).len();
            let stay = after.skip(at + 1).filter(of_the_user()).len();
            &&& at == map_part(log.take(cut_at(log, keep))).len()
            &&& summarized(log, after, at, kept, summary)
            &&& turns >= keep ==> stay == keep
            &&& turns < keep ==> stay == turns
            &&& turns >= keep > 0 ==> kept > 0 && of_the_user()(after[at + 1])
        }),
{
    law_compaction_keeps_tail(log, summary, keep);
    let cut = cut_at(log, keep);
    let gone = log.take(cut);
    let after = compacted(log, summary, keep);
    let at = map_part(gone).len() as int;
    lemma_first_map(gone, 0);
    lemma_turns_are_filtered(log, cut);
    lemma_turns_are_filtered(log, 0);
    assert(log.skip(0) =~= log);
    assert(after.skip(at + 1) =~= log.skip(cut));
    assert(log.take(log.len() - (after.len() - at - 1)) =~= gone);
    let text = after[at].content;
    assert(text == "[Conversation summary — earlier turns were compacted]\n"@ + summary);
    assert(text.subrange(text.len() - summary.len(), text.len() as int) =~= summary);
    if at == 1 {
        let i = map_from(gone, 0)->Some_0;
        assert(gone[i] == after[0]);
    }
    if turns_in(log, 0) >= keep && keep > 0 {
        assert(after[at + 1] == log.skip(cut)[0]);
    }
    at
}

proof fn lemma_goal_from(log: Seq<MessageV>, i: int)
    requires
        0 <= i <= log.len(),
    ensures
        match goal_from(log, i) {
            Some(k) => i <= k < log.len() && of_the_user()(log[k]) && forall|j: int|
                i <= j < k ==> !of_the_user()(#[trigger] log[j]),
            None => forall|j: int| i <= j < log.len() ==> !of_the_user()(#[trigger] log[j]),
        },
    decreases log.len() - i,
{
    if i < log.len() && !begins_turn(log[i]) {
        lemma_goal_from(log, i + 1);
    }
}

/// A restart repeats the first request of the user's word for word, in a message that is marked
/// as a summary, behind the repository map, where there is one; nothing else stays.
pub proof fn law_restart_repeats_the_first_request(log: Seq<MessageV>, i: int)
    requires
        0 <= i < log.len(),
        of_the_user()(log[i]),
        forall|j: int| 0 <= j < i ==> !of_the_user()(#[trigger] log[j]),
    ensures
        goal(log) == log[i].content,
        ({
            let after = restarted(log);
            let text = after.last().content;
            &&& after.last().meta.is_summary
            &&& after.last().role == Role::User
            &&& exists|k: int|
                0 <= k <= text.len() - log[i].content.len() && #[trigger] text.subrange(k, k + log[i].content.len())
                    == log[i].content
            &&& after.len() == 1 ==> forall|j: int| 0 <= j < log.len() ==> !(#[trigger] log[j]).meta.is_repo_map
            &&& after.len() != 1 ==> after.len() == 2 && exists|j: int|
                0 <= j < log.len() && #[trigger] log[j] == after[0] && log[j].meta.is_repo_map && forall|k: int|
                    0 <= k < j ==> !(#[trigger] log[k]).meta.is_repo_map
        }),
{
    lemma_goal_from(log, 0);
    lemma_first_map(log, 0);
    law_restart_keeps_map_and_goal(log);
    let g = goal_from(log, 0)->Some_0;
    if g < i {
        assert(!of_the_user()(log[g]));
    } else if i < g {
        assert(!of_the_user()(log[i]));
    }
}

/// A repository map takes the place of the one that is there, or stands before all; every other
/// message stays as it is. It holds its text word for word.
pub proof fn law_one_map_is_set(log: Seq<MessageV>, content: Seq<char>, i: int)
    requires
        0 <= i < log.len(),
    ensures
        ({
            let after = with_map(log, content);
            let mapped = exists|j: int| 0 <= j < log.len() && (#[trigger] log[j]).meta.is_repo_map;
            let first = log[i].meta.is_repo_map && forall|j: int| 0 <= j < i ==> !(#[trigger] log[j]).meta.is_repo_map;
            let m = if mapped {
                after[i]
            } else {
                after[0]
            };
            &&& mapped ==> after.len() == log.len() && (!first ==> after[i] == log[i])
            &&& !mapped ==> after.len() == log.len() + 1 && after[i + 1] == log[i]
            &&& first || !mapped ==> m.meta.is_repo_map && m.role == Role::User && m.content.len() >= content.len()
                && m.content.subrange(m.content.len() - content.len(), m.content.len() as int) == content
        }),
{
    lemma_first_map(log, 0);
    let after = with_map(log, content);
    let text = map_message(content).content;
    assert(text.subrange(text.len() - content.len(), text.len() as int) =~= content);
    if let Some(k) = map_from(log, 0) {
        assert(log[k].meta.is_repo_map);
    }
}

/// Messages that ask for calls and end the log are taken off, and no other.
pub proof fn law_no_call_is_left_without_results(log: Seq<MessageV>)
    ensures
        ({
            let r = repaired_tail(log);
            &&& r.len() <= log.len()
            &&& log.take(r.len() as int) == r
            &&& r.len() > 0 ==> !(r.last().role == Role::Assistant && r.last().tool_calls.len() > 0)
            &&& forall|i: int|
                r.len() <= i < log.len() ==> (#[trigger] log[i]).role == Role::Assistant && log[i].tool_calls.len() > 0
        }),
{
    law_repair_takes_off_what_awaits(log);
    let r = repaired_tail(log);
    assert forall|i: int| r.len() <= i < log.len() implies (#[trigger] log[i]).role == Role::Assistant
        && log[i].tool_calls.len() > 0 by {
        assert(awaits_results(log[i]));
    }
}

/// A further message adds its tokens to what is in use: those that were counted, or an estimate
/// of its text and 24 for each call, and six for the template.
pub proof fn law_a_message_adds_its_tokens(c: ContextV, e: Seq<u32>, m: MessageV, estimate: u32)
    requires
        e.len() == c.log.len(),
        c.reported_at <= c.log.len(),
    ensures
        ({
            let after = ContextV { log: c.log.push(m), ..c };
            let more = after.estimated(e.push(estimate)) - c.estimated(e);
            &&& m.tokens matches Some(t) ==> more == t + 6
            &&& m.tokens is None ==> more == estimate + 24 * m.tool_calls.len() + 6
        }),
        c.last_prompt_total is None && c.log.len() == 0 ==> c.estimated(e) == c.prefix.system_tokens
            + c.prefix.tools_tokens,
        c.last_prompt_total matches Some(t) ==> c.used(e) >= t,
        c.last_prompt_total is Some && c.reported_at == c.log.len() ==> c.used(e) == c.last_prompt_total->Some_0,
        c.used(e) >= c.estimated(e),
        c.used(e) == c.estimated(e) || c.last_prompt_total == Some(c.used(e) as u32),
{
    let after = ContextV { log: c.log.push(m), ..c };
    let from = if c.last_prompt_total is Some {
        c.reported_at
    } else {
        0
    };
    lemma_log_tokens_same(c.log, e, m, estimate, from, c.log.len());
    assert(after.log[c.log.len() as int] == m);
    assert(e.push(estimate)[c.log.len() as int] == estimate);
}

proof fn lemma_log_tokens_same(log: Seq<MessageV>, e: Seq<u32>, m: MessageV, estimate: u32, from: nat, n: nat)
    requires
        n <= log.len(),
        e.len() == log.len(),
    ensures
        log_tokens(log.push(m), e.push(estimate), from, n) == log_tokens(log, e, from, n),
    decreases n,
{
    if n > from {
        lemma_log_tokens_same(log, e, m, estimate, from, (n - 1) as nat);
        assert(log.push(m)[n - 1] == log[n - 1]);
        assert(e.push(estimate)[n - 1] == e[n - 1]);
    }
}

/// The count of a message is that of its text, and for each call that of its arguments and
/// eight more.
pub proof fn law_counts_add_up(counts: Seq<u32>, n: u32)
    ensures
        summed(seq![n], 1) == n,
        counts.len() > 0 ==> summed(counts.push(n), counts.len() + 1) == summed(counts, counts.len()) + n + 8,
{
    reveal_with_fuel(summed, 2);
    lemma_summed_same(counts, n, counts.len());
    assert(counts.push(n)[counts.len() as int] == n);
}

proof fn lemma_summed_same(counts: Seq<u32>, x: u32, n: nat)
    requires
        n <= counts.len(),
    ensures
        summed(counts.push(x), n) == summed(counts, n),
    decreases n,
{
    if n > 0 {
        lemma_summed_same(counts, x, (n - 1) as nat);
        assert(counts.push(x)[n - 1] == counts[n - 1]);
    }
}

fn is_turn(m: &Message) -> (r: bool)
    ensures
        r == begins_turn(m@),
{
    m.role == Role::User && !m.meta.is_summary && !m.meta.is_repo_map
}

fn find_map(log: &Vec<Message>) -> (r: Option<usize>)
    ensures
        match r {
            Some(i) => map_from(messages(log@), 0) == Some(i as int) && i < log.len(),
            None => map_from(messages(log@), 0) is None,
        },
{
    let mut i: usize = 0;
    let ghost lv = messages(log@);
    while i < log.len()
        invariant
            i <= log.len(),
            lv == messages(log@),
            map_from(lv, 0) == map_from(lv, i as int),
        decreases log.len() - i,
    {
        assert(lv[i as int] == log@[i as int]@);
        if log[i].meta.is_repo_map {
            return Some(i);
        }
        i += 1;
    }
    None
}

impl ContextStore {
    /// A store with an empty log. `id` tells the stores of a process apart.
    pub fn new(prefix: FrozenPrefix, n_ctx: u32, id: u64) -> (r: ContextStore)
        ensures
            r@ == (ContextV {
                id,
                prefix: prefix@,
                log: Seq::empty(),
                n_ctx,
                summary_at: None,
                compactions: 0,
                last_prompt_total: None,
                reported_at: 0,
            }),
    {
        let r = ContextStore {
            id,
            prefix,
            log: Vec::new(),
            n_ctx,
            summary_at: None,
            compactions: 0,
            last_prompt_total: None,
            reported_at: 0,
        };
        assert(r@.log =~= Seq::empty());
        r
    }

    pub fn prefix(&self) -> (r: &FrozenPrefix)
        ensures
            r@ == self@.prefix,
    {
        &self.prefix
    }

    pub fn n_ctx(&self) -> (r: u32)
        ensures
            r == self@.n_ctx,
    {
        self.n_ctx
    }

    /// How often the prompt cache was broken.
    pub fn compactions(&self) -> (r: u32)
        ensures
            r == self@.compactions,
    {
        self.compactions
    }

    pub fn set_n_ctx(&mut self, n: u32)
        ensures
            final(self)@ == (ContextV { n_ctx: n, ..old(self)@ }),
    {
        self.n_ctx = n;
    }

    pub fn log(&self) -> (r: &Vec<Message>)
        ensures
            messages(r@) == self@.log,
    {
        &self.log
    }

    pub fn len(&self) -> (r: usize)
        ensures
            r == self@.log.len(),
    {
        self.log.len()
    }

    pub fn is_empty(&self) -> (r: bool)
        ensures
            r == (self@.log.len() == 0),
    {
        self.log.len() == 0
    }

    pub fn last(&self) -> (r: Option<&Message>)
        ensures
            match r {
                Some(m) => self@.log.len() > 0 && m@ == self@.log.last(),
                None => self@.log.len() == 0,
            },
    {
        if self.log.len() == 0 {
            None
        } else {
            Some(&self.log[self.log.len() - 1])
        }
    }

    /// Adds a message at the end.
    pub fn push(&mut self, m: Message)
        ensures
            final(self)@ == (ContextV { log: old(self)@.log.push(m@), ..old(self)@ }),
    {
        self.log.push(m);
        assert(self@.log =~= old(self)@.log.push(m@));
    }

    /// The messages of a request: the system message first, then the log.
    pub fn to_request_messages(&self) -> (r: Vec<Json>)
        ensures
            jsons(r@) == values(self@.request()),
    {
        let mut v: Vec<Json> = Vec::new();
        v.push(self.prefix.system.to_value());
        let ghost want = values(self@.request());
        assert(jsons(v@) =~= want.take(1));
        let mut i: usize = 0;
        while i < self.log.len()
            invariant
                i <= self.log.len(),
                want == values(self@.request()),
                jsons(v@) == want.take(i + 1),
            decreases self.log.len() - i,
        {
            let ghost b = v@;
            v.push(self.log[i].to_value());
            assert(want[i + 1] == self.log@[i as int]@.value());
            assert(jsons(v@) =~= jsons(b).push(self.log@[i as int]@.value()));
            assert(want.take(i + 2) =~= want.take(i + 1).push(want[i + 1]));
            i += 1;
        }
        assert(want.take(want.len() as int) =~= want);
        v
    }

    /// The messages of a request in text.
    pub fn request_text(&self) -> (r: String)
        ensures
            r@ == text_of(JsonV::Array(values(self@.request()))),
            r@ == array_text(item_texts(values(self@.request()))),
    {
        array(self.to_request_messages()).to_text()
    }

    pub fn tools_json(&self) -> (r: &Json)
        ensures
            r@ == self@.prefix.tools_json,
    {
        &self.prefix.tools_json
    }

    /// The digest of all messages of a request.
    pub fn request_hash(&self) -> (r: [u8; 32])
        ensures
            r@ == blake3_digest(encode_utf8(text_of(JsonV::Array(values(self@.request()))))),
    {
        let s = self.request_text();
        blake3_hash(s.as_str().as_bytes())
    }

    /// The tokens of a request. What the server reported is preferred where it reported
    /// something; the messages since are added by the counts that are known and estimates
    /// of the other texts, one for each message of the log.
    pub fn used_tokens_estimate(&self, estimates: &Vec<u32>) -> (r: u32)
        requires
            self@.countable(estimates@),
        ensures
            r == self@.estimated(estimates@),
    {
        let (start, from): (u32, usize) = match self.last_prompt_total {
            Some(t) => (t, self.reported_at),
            None => (self.prefix.system_tokens + self.prefix.tools_tokens, 0),
        };
        let ghost lv = self@.log;
        if from >= self.log.len() {
            return start;
        }
        let mut total: u32 = start;
        let mut i: usize = from;
        while i < self.log.len()
            invariant
                from <= i <= self.log.len(),
                lv == self@.log,
                estimates.len() == lv.len(),
                start + log_tokens(lv, estimates@, from as nat, lv.len()) <= u32::MAX,
                total == start + log_tokens(lv, estimates@, from as nat, i as nat),
            decreases self.log.len() - i,
        {
            let m = &self.log[i];
            assert(lv[i as int] == m@);
            proof {
                lemma_log_tokens_grows(lv, estimates@, from as nat, (i + 1) as nat, lv.len());
            }
            let t: u32 = match m.tokens {
                Some(t) => t,
                None => {
                    assert(m@.tool_calls.len() == m.tool_calls.len());
                    estimates[i] + m.tool_calls.len() as u32 * 24
                },
            };
            total = total + t + MSG_OVERHEAD;
            i += 1;
        }
        total
    }

    /// Notes the prompt size that the server reported, and returns the size of the
    /// request in bytes, for the ratio of characters to tokens.
    pub fn observe_prompt_total(&mut self, total: u32) -> (r: usize)
        ensures
            final(self)@ == (ContextV {
                last_prompt_total: Some(total),
                reported_at: old(self)@.log.len(),
                ..old(self)@
            }),
            r == at_most(
                message_size(old(self)@.prefix.system) + log_size(old(self)@.log, old(self)@.log.len()),
                usize::MAX as nat,
            ),
    {
        let mut n: usize = self.prefix.system.chars();
        let mut i: usize = 0;
        let ghost lv = self@.log;
        while i < self.log.len()
            invariant
                i <= self.log.len(),
                lv == self@.log,
                self@ == old(self)@,
                n == at_most(message_size(self@.prefix.system) + log_size(lv, i as nat), usize::MAX as nat),
            decreases self.log.len() - i,
        {
            assert(lv[i as int] == self.log@[i as int]@);
            n = n.saturating_add(self.log[i].chars());
            i += 1;
        }
        self.last_prompt_total = Some(total);
        self.reported_at = self.log.len();
        n
    }

    pub fn used_tokens_now(&self, estimates: &Vec<u32>) -> (r: u32)
        requires
            self@.countable(estimates@),
        ensures
            r == self@.used(estimates@),
    {
        let e = self.used_tokens_estimate(estimates);
        match self.last_prompt_total {
            Some(t) => if t >= e {
                t
            } else {
                e
            },
            None => e,
        }
    }

    /// Whether the log must be compacted: the tokens in use have reached `limit`, or
    /// leave less room than the answer needs.
    pub fn needs_compaction(&self, limit: u32, output_reserve: u32, estimates: &Vec<u32>) -> (r: bool)
        requires
            self@.countable(estimates@),
        ensures
            r == (self@.used(estimates@) >= limit || self@.used(estimates@) + output_reserve > self@.n_ctx),
    {
        let used = self.used_tokens_now(estimates);
        used >= limit || used as u64 + output_reserve as u64 > self.n_ctx as u64
    }

    /// Whether the context window is full.
    pub fn is_full(&self, estimates: &Vec<u32>) -> (r: bool)
        requires
            self@.countable(estimates@),
        ensures
            r == (self@.used(estimates@) >= self@.n_ctx),
    {
        self.used_tokens_now(estimates) >= self.n_ctx
    }

    /// Starts afresh with the user's first request and the repository map. Returns
    /// the request.
    pub fn restart_with_goal(&mut self) -> (r: String)
        ensures
            r@ == goal(old(self)@.log),
            final(self)@ == (ContextV {
                log: restarted(old(self)@.log),
                summary_at: Some((restarted(old(self)@.log).len() - 1) as nat),
                compactions: counted(old(self)@.compactions),
                last_prompt_total: None,
                ..old(self)@
            }),
    {
        let ghost lv = self@.log;
        let mut text = "Continue previous task".to_owned();
        let mut i: usize = 0;
        let mut found = false;
        while i < self.log.len() && !found
            invariant
                i <= self.log.len(),
                lv == self@.log,
                self@ == old(self)@,
                !found ==> goal_from(lv, 0) == goal_from(lv, i as int) && text@ == "Continue previous task"@,
                found ==> text@ == goal(lv),
            decreases self.log.len() - i,
        {
            assert(lv[i as int] == self.log@[i as int]@);
            if is_turn(&self.log[i]) {
                text = self.log[i].content.clone();
                found = true;
            }
            i += 1;
        }
        let mut fresh: Vec<Message> = Vec::new();
        match find_map(&self.log) {
            Some(k) => {
                fresh.push(self.log[k].copy());
            },
            None => {},
        }
        assert(messages(fresh@) =~= map_part(lv));
        let note =
            "[Context reached capacity — restarted with fresh context]\nInitial task:\n".to_owned().concat(
            text.as_str(),
        ).concat("\n\nPlease proceed with this").concat(" task from where you left off.");
        let mut msg = Message::user(note.as_str());
        msg.meta.is_summary = true;
        let ghost before = fresh@;
        fresh.push(msg);
        assert(messages(fresh@) =~= messages(before).push(msg@));
        self.summary_at = Some(fresh.len() - 1);
        self.log = fresh;
        self.compactions = self.compactions.saturating_add(1);
        self.last_prompt_total = None;
        text
    }

    /// Replaces all but the last `keep_tail_turns` turns by a summary.
    pub fn compact(&mut self, summary: &str, keep_tail_turns: usize) -> (r: CompactionReport)
        ensures
            r.messages_before == old(self)@.log.len(),
            r.messages_after == final(self)@.log.len(),
            final(self)@ == (ContextV {
                log: compacted(old(self)@.log, summary@, keep_tail_turns as nat),
                summary_at: Some(
                    map_part(old(self)@.log.take(cut_at(old(self)@.log, keep_tail_turns as nat))).len(),
                ),
                compactions: counted(old(self)@.compactions),
                last_prompt_total: None,
                ..old(self)@
            }),
            final(self)@.summary_at matches Some(at) && summarized(
                old(self)@.log,
                final(self)@.log,
                at as int,
                final(self)@.log.len() - at - 1,
                summary@,
            ),
    {
        proof {
            let at = law_compaction_keeps_summary_and_turns(self@.log, summary@, keep_tail_turns as nat);
        }
        let ghost lv = self@.log;
        let before = self.log.len();
        let cut = self.find_cut(keep_tail_turns);
        let mut tail = self.log.split_off(cut);
        assert(messages(tail@) =~= lv.skip(cut as int));
        assert(messages(self.log@) =~= lv.take(cut as int));
        let mut fresh: Vec<Message> = Vec::new();
        match find_map(&self.log) {
            Some(k) => {
                fresh.push(self.log[k].copy());
            },
            None => {},
        }
        assert(messages(fresh@) =~= map_part(lv.take(cut as int)));
        let text = "[Conversation summary — earlier turns were compacted]\n".to_owned().concat(summary);
        let mut s = Message::user(text.as_str());
        s.meta.is_summary = true;
        let ghost head = fresh@;
        self.summary_at = Some(fresh.len());
        fresh.push(s);
        assert(messages(fresh@) =~= messages(head).push(s@));
        let ghost front = messages(fresh@);
        fresh.append(&mut tail);
        assert(messages(fresh@) =~= front + lv.skip(cut as int));
        self.log = fresh;
        self.compactions = self.compactions.saturating_add(1);
        self.last_prompt_total = None;
        CompactionReport { messages_before: before, messages_after: self.log.len() }
    }

    /// Where a compaction cuts.
    fn find_cut(&self, keep: usize) -> (r: usize)
        ensures
            r == cut_at(self@.log, keep as nat),
            r <= self@.log.len(),
    {
        proof {
            lemma_cut_range(self@.log, keep as nat);
        }
        if keep == 0 {
            return self.log.len();
        }
        let ghost lv = self@.log;
        let mut i: usize = self.log.len();
        let mut left: usize = keep;
        while i > 0
            invariant
                i <= self.log.len(),
                lv == self@.log,
                keep > 0,
                1 <= left <= keep,
                turn_from_end(lv, lv.len(), keep as nat) == turn_from_end(lv, i as nat, left as nat),
                0 <= cut_at(lv, keep as nat) <= lv.len(),
            decreases i,
        {
            assert(lv[i - 1] == self.log@[i - 1]@);
            if is_turn(&self.log[i - 1]) {
                if left == 1 {
                    return i - 1;
                }
                left -= 1;
            }
            i -= 1;
        }
        let mut j: usize = 0;
        while j < self.log.len()
            invariant
                j <= self.log.len(),
                lv == self@.log,
                keep > 0,
                turn_from_end(lv, lv.len(), keep as nat) is None,
                user_from(lv, 0) == user_from(lv, j as int),
            decreases self.log.len() - j,
        {
            assert(lv[j as int] == self.log@[j as int]@);
            if self.log[j].role == Role::User && !self.log[j].meta.is_repo_map {
                return j;
            }
            j += 1;
        }
        0
    }

    /// Sets the repository map: replaces the one that is there, or puts it first.
    pub fn set_repo_map(&mut self, content: &str)
        ensures
            final(self)@ == (ContextV {
                log: with_map(old(self)@.log, content@),
                reported_at: if map_from(old(self)@.log, 0) is None {
                    shifted(old(self)@.reported_at)
                } else {
                    old(self)@.reported_at
                },
                ..old(self)@
            }),
    {
        let ghost lv = self@.log;
        let mut m = Message::developer_or_user(content);
        m.meta.is_repo_map = true;
        match find_map(&self.log) {
            Some(k) => {
                self.log.set(k, m);
                assert(self@.log =~= lv.update(k as int, m@));
            },
            None => {
                self.log.insert(0, m);
                self.reported_at = self.reported_at.saturating_add(1);
                assert(self@.log =~= seq![m@] + lv);
            },
        }
    }

    /// A store for a subagent: another prefix, an empty log, the same window.
    pub fn fork(&self, prefix: FrozenPrefix, id: u64) -> (r: ContextStore)
        ensures
            r@ == (ContextV {
                id,
                prefix: prefix@,
                log: Seq::empty(),
                n_ctx: self@.n_ctx,
                summary_at: None,
                compactions: 0,
                last_prompt_total: None,
                reported_at: 0,
            }),
    {
        ContextStore::new(prefix, self.n_ctx, id)
    }

    /// Drops the messages at the end whose calls have no results, after an abort.
    pub fn repair_tail(&mut self)
        ensures
            final(self)@ == (ContextV { log: repaired_tail(old(self)@.log), ..old(self)@ }),
    {
        let ghost start = self@;
        while self.log.len() > 0 && self.log[self.log.len() - 1].role == Role::Assistant && self.log[self.log.len()
            - 1].tool_calls.len() > 0
            invariant
                start == old(self)@,
                self@ == (ContextV { log: self@.log, ..start }),
                repaired_tail(start.log) == repaired_tail(self@.log),
            decreases self.log.len(),
        {
            let ghost b = self@.log;
            assert(b.last() == self.log@.last()@);
            self.log.pop();
            assert(self@.log =~= b.drop_last());
        }
        if self.log.len() > 0 {
            assert(self@.log.last() == self.log@.last()@);
        }
    }

    /// The texts of message `i` that are to be counted; none where its count is
    /// known.
    pub fn uncounted_texts(&self, i: usize) -> (r: Option<Vec<String>>)
        requires
            i < self@.log.len(),
        ensures
            match r {
                Some(v) => self@.log[i as int].tokens is None && strings(v@) == countable_texts(self@.log[i as int]),
                None => self@.log[i as int].tokens is Some,
            },
    {
        let m = &self.log[i];
        assert(self@.log[i as int] == m@);
        if m.tokens.is_some() {
            return None;
        }
        let mut v: Vec<String> = Vec::new();
        v.push(m.content.clone());
        let ghost want = countable_texts(m@);
        assert(strings(v@) =~= want.take(1));
        let mut k: usize = 0;
        while k < m.tool_calls.len()
            invariant
                k <= m.tool_calls.len(),
                want == countable_texts(m@),
                strings(v@) == want.take(k + 1),
            decreases m.tool_calls.len() - k,
        {
            let ghost b = v@;
            v.push(m.tool_calls[k].arguments.to_text());
            assert(want[k + 1] == text_of(m.tool_calls@[k as int].arguments@));
            assert(strings(v@) =~= strings(b).push(want[k + 1]));
            assert(want.take(k + 2) =~= want.take(k + 1).push(want[k + 1]));
            k += 1;
        }
        assert(want.take(want.len() as int) =~= want);
        Some(v)
    }

    /// Notes the count of message `i`, out of the counts of its texts.
    pub fn record_counts(&mut self, i: usize, counts: &Vec<u32>)
        requires
            i < old(self)@.log.len(),
            summed(counts@, counts@.len()) <= u32::MAX,
        ensures
            final(self)@ == (ContextV {
                log: old(self)@.log.update(
                    i as int,
                    MessageV { tokens: Some(summed(counts@, counts@.len()) as u32), ..old(self)@.log[i as int] },
                ),
                ..old(self)@
            }),
    {
        let mut t: u32 = 0;
        let mut k: usize = 0;
        while k < counts.len()
            invariant
                k <= counts.len(),
                t == summed(counts@, k as nat),
                summed(counts@, counts@.len()) <= u32::MAX,
            decreases counts.len() - k,
        {
            proof {
                lemma_summed_grows(counts@, (k + 1) as nat, counts@.len());
            }
            t = t + counts[k];
            if k > 0 {
                t = t + 8;
            }
            k += 1;
        }
        let ghost lv = self@.log;
        let mut m = self.log[i].copy();
        assert(lv[i as int] == self.log@[i as int]@);
        m.tokens = Some(t);
        self.log.set(i, m);
        assert(self@.log =~= lv.update(i as int, m@));
    }
}

proof fn lemma_summed_grows(c: Seq<u32>, a: nat, b: nat)
    requires
        a <= b <= c.len(),
    ensures
        summed(c, a) <= summed(c, b),
    decreases b - a,
{
    if a < b {
        lemma_summed_grows(c, a, (b - 1) as nat);
    }
}

impl Message {
    /// The message that carries a repository map: of the user's role, with a fixed
    /// heading.
    pub fn developer_or_user(content: &str) -> (r: Message)
        ensures
            r@ == MessageV::plain(Role::User, "[Repository map]\n"@ + content@),
    {
        let text = "[Repository map]\n".to_owned().concat(content);
        Message::user(text.as_str())
    }
}

/// A prefix is told by its system message and its tools: one that differs in either alone differs
/// in what its digest is made of.
pub proof fn law_prefixes_are_told_apart(s: MessageV, t: MessageV, a: JsonV, b: JsonV)
    ensures
        encode_utf8(text_of(a)) != encode_utf8(text_of(b)) ==> prefix_bytes(s, a) != prefix_bytes(s, b),
        encode_utf8(text_of(s.value())) != encode_utf8(text_of(t.value())) ==> prefix_bytes(s, a) != prefix_bytes(t, a),
{
    let x = encode_utf8(text_of(s.value()));
    let y = encode_utf8(text_of(t.value()));
    let m = encode_utf8("\0tools\0"@);
    let c = encode_utf8(text_of(a));
    let d = encode_utf8(text_of(b));
    if prefix_bytes(s, a) == prefix_bytes(s, b) {
        let k = (x.len() + m.len()) as int;
        assert(prefix_bytes(s, a).skip(k) =~= c);
        assert(prefix_bytes(s, b).skip(k) =~= d);
    }
    if prefix_bytes(s, a) == prefix_bytes(t, a) {
        assert(prefix_bytes(s, a).len() == prefix_bytes(t, a).len());
        assert(x.len() == y.len());
        assert(prefix_bytes(s, a).take(x.len() as int) =~= x);
        assert(prefix_bytes(t, a).take(x.len() as int) =~= y);
    }
}

/// Every message adds its size to that of the conversation: the bytes of its text and those of
/// its calls.
pub proof fn law_sizes_add_up(log: Seq<MessageV>, m: MessageV)
    requires
        byte_len(m.content) + calls_size(m.tool_calls, m.tool_calls.len()) <= usize::MAX,
    ensures
        log_size(log.push(m), log.len() + 1) == log_size(log, log.len()) + byte_len(m.content) + calls_size(
            m.tool_calls,
            m.tool_calls.len(),
        ),
        countable_texts(m).len() == m.tool_calls.len() + 1,
        countable_texts(m)[0] == m.content,
        forall|i: int|
            0 <= i < m.tool_calls.len() ==> countable_texts(m)[i + 1] == text_of((#[trigger] m.tool_calls[i]).arguments),
{
    lemma_log_size_same(log, log.push(m), log.len());
    assert(log.push(m)[log.len() as int] == m);
}

proof fn lemma_log_size_same(a: Seq<MessageV>, b: Seq<MessageV>, n: nat)
    requires
        n <= a.len(),
        n <= b.len(),
        forall|i: int| 0 <= i < n ==> a[i] == b[i],
    ensures
        log_size(a, n) == log_size(b, n),
    decreases n,
{
    if n > 0 {
        lemma_log_size_same(a, b, (n - 1) as nat);
    }
}

} // verus!
