//! Protection against runaway loops: repeated calls, errors or answers, and a cap
//! on the number of turns.

use crate::digest::{blake3_digest, blake3_hash, same_digest};
use crate::message::{ToolCall, ToolCallV, calls_view};
use crate::text::{chars_of, dec, dec_u64, digit, is_digit, string_of, trim, trimmed};
use std::collections::VecDeque;
use vstd::prelude::*;
use vstd::string::*;
use vstd::utf8::encode_utf8;

verus! {

#[derive(Debug)]
pub enum GuardError {
    RepeatedCall(String, usize),
    RepeatedError(usize),
    RepeatedOutput(usize),
    MaxTurns(u32),
}

pub enum GuardErrorV {
    RepeatedCall(Seq<char>, nat),
    RepeatedError(nat),
    RepeatedOutput(nat),
    MaxTurns(u32),
}

impl View for GuardError {
    type V = GuardErrorV;

    open spec fn view(&self) -> GuardErrorV {
        match self {
            GuardError::RepeatedCall(s, n) => GuardErrorV::RepeatedCall(s@, *n as nat),
            GuardError::RepeatedError(n) => GuardErrorV::RepeatedError(*n as nat),
            GuardError::RepeatedOutput(n) => GuardErrorV::RepeatedOutput(*n as nat),
            GuardError::MaxTurns(n) => GuardErrorV::MaxTurns(*n),
        }
    }
}

impl GuardErrorV {
    pub open spec fn message(self) -> Seq<char> {
        match self {
            GuardErrorV::RepeatedCall(s, n) => "loop detected: the same tool call `"@ + s + "` was issued "@ + dec(n)
                + " times"@,
            GuardErrorV::RepeatedError(n) => "loop detected: the same error repeated "@ + dec(n) + " times"@,
            GuardErrorV::RepeatedOutput(n) => "loop detected: the assistant produced the exact same response "@ + dec(
                n,
            ) + " times"@,
            GuardErrorV::MaxTurns(n) => "maximum number of turns ("@ + dec(n as nat) + ") reached"@,
        }
    }
}

impl GuardError {
    /// The message of the error.
    pub fn to_string(&self) -> (r: String)
        ensures
            r@ == self@.message(),
    {
        match self {
            GuardError::RepeatedCall(s, n) => "loop detected: the same tool call `".to_owned().concat(
                s.as_str(),
            ).concat("` was issued ").concat(dec_u64(*n as u64).as_str()).concat(" times"),
            GuardError::RepeatedError(n) => "loop detected: the same error repeated ".to_owned().concat(
                dec_u64(*n as u64).as_str(),
            ).concat(" times"),
            GuardError::RepeatedOutput(n) => "loop detected: the assistant produced the exact same response ".to_owned().concat(
                dec_u64(*n as u64).as_str(),
            ).concat(" times"),
            GuardError::MaxTurns(n) => "maximum number of turns (".to_owned().concat(
                dec_u64(*n as u64).as_str(),
            ).concat(") reached"),
        }
    }
}

/// How many of the latest fingerprints are remembered.
pub const WINDOW: usize = 8;

/// The occurrence at which a repetition is reported.
pub const REPEAT_LIMIT: usize = 3;

/// The fingerprints of the latest events, oldest first.
pub open spec fn prints(q: Seq<[u8; 32]>) -> Seq<Seq<u8>> {
    Seq::new(q.len(), |i: int| q[i]@)
}

/// How often `x` stands among the first `n` fingerprints.
pub open spec fn occurrences(q: Seq<Seq<u8>>, x: Seq<u8>, n: nat) -> nat
    decreases n,
{
    if n == 0 || n > q.len() {
        0
    } else {
        occurrences(q, x, (n - 1) as nat) + (if q[n - 1] == x {
            1nat
        } else {
            0nat
        })
    }
}

/// The latest `WINDOW` fingerprints after `x` was seen.
pub open spec fn remembered(q: Seq<Seq<u8>>, x: Seq<u8>) -> Seq<Seq<u8>> {
    let all = q.push(x);
    if all.len() > WINDOW {
        all.skip(all.len() - WINDOW)
    } else {
        all
    }
}

/// Which occurrence of `x` the present one is, the remembered ones before it counted.
pub open spec fn nth_time(q: Seq<Seq<u8>>, x: Seq<u8>) -> nat {
    occurrences(q, x, q.len()) + 1
}

/// The state of the guard: the turn, its cap, and the remembered fingerprints.
pub struct GuardV {
    pub max_turns: u32,
    pub turn: u32,
    pub calls: Seq<Seq<u8>>,
    pub errors: Seq<Seq<u8>>,
    pub texts: Seq<Seq<u8>>,
}

pub struct LoopGuard {
    pub max_turns: u32,
    pub turn: u32,
    recent_calls: VecDeque<[u8; 32]>,
    recent_errors: VecDeque<[u8; 32]>,
    recent_texts: VecDeque<[u8; 32]>,
}

impl View for LoopGuard {
    type V = GuardV;

    closed spec fn view(&self) -> GuardV {
        GuardV {
            max_turns: self.max_turns,
            turn: self.turn,
            calls: prints(self.recent_calls@),
            errors: prints(self.recent_errors@),
            texts: prints(self.recent_texts@),
        }
    }
}

/// The text of an error with its first 200 characters kept and the digits dropped:
/// line numbers vary between repetitions of one error.
pub open spec fn normalized_error(text: Seq<char>) -> Seq<char> {
    without_digits(if text.len() > 200 {
        text.take(200)
    } else {
        text
    })
}

pub open spec fn without_digits(s: Seq<char>) -> Seq<char>
    decreases s.len(),
{
    if s.len() == 0 {
        s
    } else if is_digit(s.last()) {
        without_digits(s.drop_last())
    } else {
        without_digits(s.drop_last()).push(s.last())
    }
}

/// The fingerprint of an error of a tool.
pub open spec fn error_print(tool: Seq<char>, text: Seq<char>) -> Seq<u8> {
    blake3_digest(encode_utf8(tool + seq!['\0'] + normalized_error(text)))
}

/// The fingerprint of an answer.
pub open spec fn text_print(text: Seq<char>) -> Seq<u8> {
    blake3_digest(encode_utf8(trimmed(text)))
}

/// The first of `calls[i..]` at whose occurrence the guard stops, by its place and
/// its count, with the fingerprints remembered then; or none, with those at the end.
pub open spec fn calls_seen(q: Seq<Seq<u8>>, calls: Seq<ToolCallV>, i: int) -> (Option<(int, nat)>, Seq<Seq<u8>>)
    decreases calls.len() - i,
{
    if i < 0 || i >= calls.len() {
        (None, q)
    } else {
        let x = calls[i].fingerprint();
        if nth_time(q, x) >= REPEAT_LIMIT {
            (Some((i, nth_time(q, x))), remembered(q, x))
        } else {
            calls_seen(remembered(q, x), calls, i + 1)
        }
    }
}

/// What a step of the guard reports, by its view.
pub open spec fn reported(r: Result<(), GuardError>) -> Option<GuardErrorV> {
    match r {
        Ok(_) => None,
        Err(e) => Some(e@),
    }
}

impl GuardV {
    /// A guard that has seen nothing.
    pub open spec fn fresh(max_turns: u32) -> GuardV {
        GuardV { max_turns, turn: 0, calls: Seq::empty(), errors: Seq::empty(), texts: Seq::empty() }
    }

    /// The guard after the calls of an answer, and what it reports.
    pub open spec fn after_calls(self, calls: Seq<ToolCallV>) -> (GuardV, Option<GuardErrorV>) {
        let (stop, q) = calls_seen(self.calls, calls, 0);
        (
            GuardV { calls: q, ..self },
            match stop {
                Some((k, n)) => Some(GuardErrorV::RepeatedCall(calls[k].name, n)),
                None => None,
            },
        )
    }

    /// The guard after an error of a tool, and what it reports.
    pub open spec fn after_error(self, tool: Seq<char>, text: Seq<char>) -> (GuardV, Option<GuardErrorV>) {
        let x = error_print(tool, text);
        let n = nth_time(self.errors, x);
        (
            GuardV { errors: remembered(self.errors, x), ..self },
            if n >= REPEAT_LIMIT {
                Some(GuardErrorV::RepeatedError(n))
            } else {
                None
            },
        )
    }

    /// The guard after an answer, and what it reports. One of white space alone is not
    /// counted.
    pub open spec fn after_text(self, text: Seq<char>) -> (GuardV, Option<GuardErrorV>) {
        let x = text_print(text);
        let n = nth_time(self.texts, x);
        if trimmed(text).len() == 0 {
            (self, None)
        } else {
            (
                GuardV { texts: remembered(self.texts, x), ..self },
                if n >= REPEAT_LIMIT {
                    Some(GuardErrorV::RepeatedOutput(n))
                } else {
                    None
                },
            )
        }
    }

    /// The guard after a turn, and what it reports. A cap of zero is no cap.
    pub open spec fn after_turn(self) -> (GuardV, Option<GuardErrorV>) {
        let turn = if self.turn < u32::MAX {
            (self.turn + 1) as u32
        } else {
            self.turn
        };
        (
            GuardV { turn, ..self },
            if self.max_turns > 0 && turn >= self.max_turns {
                Some(GuardErrorV::MaxTurns(self.max_turns))
            } else {
                None
            },
        )
    }
}

/// Counts a fingerprint and remembers it.
fn note(q: &mut VecDeque<[u8; 32]>, x: [u8; 32]) -> (count: usize)
    requires
        old(q)@.len() <= WINDOW,
    ensures
        count == nth_time(prints(old(q)@), x@),
        prints(final(q)@) == remembered(prints(old(q)@), x@),
        final(q)@.len() <= WINDOW,
{
    let ghost before = prints(q@);
    let mut n: usize = 0;
    let mut i: usize = 0;
    while i < q.len()
        invariant
            i <= q.len(),
            q@.len() <= WINDOW,
            n <= i,
            before == prints(q@),
            n == occurrences(before, x@, i as nat),
        decreases q.len() - i,
    {
        if same_digest(&q[i], &x) {
            n += 1;
        }
        i += 1;
    }
    q.push_back(x);
    assert(prints(q@) =~= before.push(x@));
    if q.len() > WINDOW {
        let ghost full = q@;
        q.pop_front();
        assert(prints(q@) =~= before.push(x@).skip(1));
    }
    n + 1
}

impl LoopGuard {
    /// The guard remembers at most `WINDOW` fingerprints of each sort.
    pub closed spec fn wf(self) -> bool {
        self.recent_calls@.len() <= WINDOW && self.recent_errors@.len() <= WINDOW && self.recent_texts@.len()
            <= WINDOW
    }

    pub fn new(max_turns: u32) -> (r: LoopGuard)
        ensures
            r.wf(),
            r@ == GuardV::fresh(max_turns),
    {
        let r = LoopGuard {
            max_turns,
            turn: 0,
            recent_calls: VecDeque::new(),
            recent_errors: VecDeque::new(),
            recent_texts: VecDeque::new(),
        };
        assert(r@.calls =~= Seq::empty());
        assert(r@.errors =~= Seq::empty());
        assert(r@.texts =~= Seq::empty());
        r
    }

    /// The turns that were counted.
    pub fn turn(&self) -> (r: u32)
        ensures
            r == self@.turn,
    {
        self.turn
    }

    /// The cap on the turns.
    pub fn max_turns(&self) -> (r: u32)
        ensures
            r == self@.max_turns,
    {
        self.max_turns
    }

    /// Notes the calls of one answer, up to the first that is repeated too often.
    pub fn observe_calls(&mut self, calls: &Vec<ToolCall>) -> (r: Result<(), GuardError>)
        requires
            old(self).wf(),
        ensures
            final(self).wf(),
            (final(self)@, reported(r)) == old(self)@.after_calls(calls_view(calls@)),
    {
        let mut i: usize = 0;
        let ghost start = self@;
        let ghost cv = calls_view(calls@);
        while i < calls.len()
            invariant
                i <= calls.len(),
                self.wf(),
                cv == calls_view(calls@),
                start == old(self)@,
                self@ == (GuardV { calls: self@.calls, ..start }),
                calls_seen(start.calls, cv, 0) == calls_seen(self@.calls, cv, i as int),
            decreases calls.len() - i,
        {
            let fp = calls[i].fingerprint();
            assert(cv[i as int] == calls@[i as int]@);
            let count = note(&mut self.recent_calls, fp);
            if count >= REPEAT_LIMIT {
                return Err(GuardError::RepeatedCall(calls[i].name.clone(), count));
            }
            i += 1;
        }
        Ok(())
    }

    /// Notes an error of a tool.
    pub fn observe_error(&mut self, tool: &str, text: &str) -> (r: Result<(), GuardError>)
        requires
            old(self).wf(),
        ensures
            final(self).wf(),
            (final(self)@, reported(r)) == old(self)@.after_error(tool@, text@),
    {
        let cs = chars_of(text);
        let mut key: Vec<char> = chars_of(tool);
        key.push('\0');
        let ghost head = key@;
        let n: usize = if cs.len() > 200 {
            200
        } else {
            cs.len()
        };
        let ghost kept = if text@.len() > 200 {
            text@.take(200)
        } else {
            text@
        };
        assert(kept =~= cs@.take(n as int));
        let mut i: usize = 0;
        assert(key@ =~= head + without_digits(kept.take(0)));
        while i < n
            invariant
                i <= n <= cs.len(),
                kept == cs@.take(n as int),
                key@ == head + without_digits(kept.take(i as int)),
            decreases n - i,
        {
            assert(kept.take(i + 1).drop_last() =~= kept.take(i as int));
            if !digit(cs[i]) {
                key.push(cs[i]);
            }
            assert(key@ =~= head + without_digits(kept.take(i + 1)));
            i += 1;
        }
        assert(kept.take(n as int) =~= kept);
        let key = string_of(&key);
        assert(key@ == tool@ + seq!['\0'] + normalized_error(text@));
        let fp = blake3_hash(key.as_str().as_bytes());
        let count = note(&mut self.recent_errors, fp);
        if count >= REPEAT_LIMIT {
            return Err(GuardError::RepeatedError(count));
        }
        Ok(())
    }

    /// Notes an answer; one of white space alone is not counted.
    pub fn observe_text(&mut self, text: &str) -> (r: Result<(), GuardError>)
        requires
            old(self).wf(),
        ensures
            final(self).wf(),
            (final(self)@, reported(r)) == old(self)@.after_text(text@),
    {
        let t = trim(&chars_of(text));
        if t.len() == 0 {
            return Ok(());
        }
        let t = string_of(&t);
        let fp = blake3_hash(t.as_str().as_bytes());
        let count = note(&mut self.recent_texts, fp);
        if count >= REPEAT_LIMIT {
            return Err(GuardError::RepeatedOutput(count));
        }
        Ok(())
    }

    /// Counts a turn. A cap of zero is no cap.
    pub fn next_turn(&mut self) -> (r: Result<(), GuardError>)
        requires
            old(self).wf(),
        ensures
            final(self).wf(),
            (final(self)@, reported(r)) == old(self)@.after_turn(),
    {
        self.turn = self.turn.saturating_add(1);
        if self.max_turns > 0 && self.turn >= self.max_turns {
            return Err(GuardError::MaxTurns(self.max_turns));
        }
        Ok(())
    }

    /// A new request of the user: the turn counter and the history start afresh.
    pub fn new_user_message(&mut self)
        requires
            old(self).wf(),
        ensures
            final(self).wf(),
            final(self)@ == GuardV::fresh(old(self)@.max_turns),
    {
        self.turn = 0;
        self.recent_calls.clear();
        self.recent_errors.clear();
        self.recent_texts.clear();
        assert(self@.calls =~= Seq::empty());
        assert(self@.errors =~= Seq::empty());
        assert(self@.texts =~= Seq::empty());
    }
}

proof fn lemma_occurrences_zero(q: Seq<Seq<u8>>, x: Seq<u8>, n: nat)
    requires
        n <= q.len(),
        forall|i: int| 0 <= i < n ==> #[trigger] q[i] != x,
    ensures
        occurrences(q, x, n) == 0,
    decreases n,
{
    if n > 0 {
        lemma_occurrences_zero(q, x, (n - 1) as nat);
    }
}

/// Whatever was seen before, two occurrences of an event that is not remembered are let
/// pass and the third in a row is reported.
pub proof fn law_third_repetition_is_reported(g: GuardV, text: Seq<char>)
    requires
        g.texts.len() <= WINDOW,
        trimmed(text).len() > 0,
        forall|i: int| 0 <= i < g.texts.len() ==> #[trigger] g.texts[i] != text_print(text),
    ensures
        ({
            let (g1, e1) = g.after_text(text);
            let (g2, e2) = g1.after_text(text);
            let (_, e3) = g2.after_text(text);
            e1 is None && e2 is None && e3 == Some(GuardErrorV::RepeatedOutput(3))
        }),
{
    let x = text_print(text);
    let q0 = g.texts;
    lemma_occurrences_zero(q0, x, q0.len());
    let q1 = remembered(q0, x);
    lemma_occurrences_zero(q1, x, (q1.len() - 1) as nat);
    assert(nth_time(q1, x) == 2);
    let q2 = remembered(q1, x);
    assert(q2.len() >= 2);
    assert(q2[q2.len() - 1] == x && q2[q2.len() - 2] == x);
    lemma_occurrences_zero(q2, x, (q2.len() - 2) as nat);
    reveal_with_fuel(occurrences, 3);
    assert(nth_time(q2, x) == 3);
}

/// A new request of the user is counted from the start: nothing of what was seen before
/// is held against it.
pub proof fn law_new_request_starts_afresh(max_turns: u32, text: Seq<char>)
    ensures
        GuardV::fresh(max_turns).after_text(text).1 is None,
        max_turns != 1 ==> GuardV::fresh(max_turns).after_turn().1 is None,
{
}

proof fn lemma_occurrences(q: Seq<Seq<u8>>, x: Seq<u8>, n: nat)
    requires
        n <= q.len(),
    ensures
        occurrences(q, x, n) == q.take(n as int).to_multiset().count(x),
    decreases n,
{
    broadcast use vstd::seq_lib::group_to_multiset_ensures;

    if n > 0 {
        lemma_occurrences(q, x, (n - 1) as nat);
        assert(q.take(n as int) =~= q.take(n - 1).push(q[n - 1]));
    } else {
        assert(q.take(0) =~= Seq::<Seq<u8>>::empty());
        assert(Seq::<Seq<u8>>::empty().to_multiset() =~= vstd::multiset::Multiset::empty());
    }
}

/// How often something is among what is remembered.
pub open spec fn count_of(q: Seq<Seq<u8>>, x: Seq<u8>) -> nat {
    q.to_multiset().count(x)
}

/// What is remembered is the last eight, the latest at the end.
pub open spec fn keeps_last(before: Seq<Seq<u8>>, after: Seq<Seq<u8>>, x: Seq<u8>) -> bool {
    &&& after.len() == (if before.len() < 8 {
        before.len() + 1
    } else {
        8
    })
    &&& after.last() == x
    &&& forall|k: int| 0 <= k < after.len() - 1 ==> #[trigger] after[k] == before[before.len() - (after.len() - 1) + k]
}

proof fn lemma_remembered(q: Seq<Seq<u8>>, x: Seq<u8>)
    requires
        q.len() <= 8,
    ensures
        keeps_last(q, remembered(q, x), x),
        nth_time(q, x) == count_of(q, x) + 1,
{
    lemma_occurrences(q, x, q.len());
    assert(q.take(q.len() as int) =~= q);
}

/// A call is reported from the third time on that it is among the last nine, with its name and
/// the number of times; every call is remembered, and the calls behind one that is reported are
/// not looked at.
pub proof fn law_repeated_calls_are_reported(g: GuardV, c: ToolCallV, more: Seq<ToolCallV>)
    requires
        g.calls.len() <= 8,
    ensures
        ({
            let n = count_of(g.calls, c.fingerprint()) + 1;
            let (one, e) = g.after_calls(seq![c]);
            let (all, f) = g.after_calls(seq![c] + more);
            &&& n >= 3 ==> e == Some(GuardErrorV::RepeatedCall(c.name, n)) && f == e && all == one
            &&& n < 3 ==> e is None && (all, f) == one.after_calls(more)
            &&& keeps_last(g.calls, one.calls, c.fingerprint())
            &&& one == (GuardV { calls: one.calls, ..g })
        }),
        g.after_calls(Seq::empty()) == (g, None::<GuardErrorV>),
{
    let x = c.fingerprint();
    lemma_remembered(g.calls, x);
    let both = seq![c] + more;
    let q = remembered(g.calls, x);
    reveal_with_fuel(calls_seen, 2);
    assert(both[0] == c);
    lemma_calls_shift(q, seq![c], more, 0);
    if let (Some((k, _)), _) = calls_seen(q, both, 1) {
        lemma_calls_place(q, both, 1);
        assert(both[k] == more[k - 1]);
    }
}

proof fn lemma_calls_place(q: Seq<Seq<u8>>, calls: Seq<ToolCallV>, i: int)
    requires
        0 <= i,
    ensures
        calls_seen(q, calls, i).0 matches Some((k, _)) ==> i <= k < calls.len(),
    decreases calls.len() - i,
{
    if i < calls.len() && nth_time(q, calls[i].fingerprint()) < REPEAT_LIMIT {
        lemma_calls_place(remembered(q, calls[i].fingerprint()), calls, i + 1);
    }
}

proof fn lemma_calls_shift(q: Seq<Seq<u8>>, a: Seq<ToolCallV>, b: Seq<ToolCallV>, i: int)
    requires
        0 <= i <= b.len(),
    ensures
        calls_seen(q, a + b, a.len() + i).1 == calls_seen(q, b, i).1,
        match calls_seen(q, b, i).0 {
            Some((k, n)) => calls_seen(q, a + b, a.len() + i).0 == Some((a.len() + k, n)),
            None => calls_seen(q, a + b, a.len() + i).0 is None,
        },
    decreases b.len() - i,
{
    if i < b.len() {
        assert((a + b)[a.len() + i] == b[i]);
        let x = b[i].fingerprint();
        if nth_time(q, x) < REPEAT_LIMIT {
            lemma_calls_shift(remembered(q, x), a, b, i + 1);
        }
    }
}

/// An error is reported from the third time on that it is among the last nine. Errors of one
/// tool are the same where their first two hundred characters are, but for the digits.
pub proof fn law_repeated_errors_are_reported(g: GuardV, tool: Seq<char>, text: Seq<char>, other: Seq<char>)
    requires
        g.errors.len() <= 8,
    ensures
        ({
            let x = error_print(tool, text);
            let n = count_of(g.errors, x) + 1;
            let (after, e) = g.after_error(tool, text);
            &&& n >= 3 ==> e == Some(GuardErrorV::RepeatedError(n))
            &&& n < 3 ==> e is None
            &&& keeps_last(g.errors, after.errors, x)
            &&& after == (GuardV { errors: after.errors, ..g })
        }),
        start_of(text).filter(no_digit()) == start_of(other).filter(no_digit()) ==> error_print(tool, text)
            == error_print(tool, other),
        error_print(tool, text) == blake3_digest(
            encode_utf8(tool + seq!['\0'] + start_of(text).filter(no_digit())),
        ),
{
    lemma_remembered(g.errors, error_print(tool, text));
    lemma_without_digits(start_of(text));
    lemma_without_digits(start_of(other));
}

/// The first two hundred characters.
pub open spec fn start_of(text: Seq<char>) -> Seq<char> {
    if text.len() > 200 {
        text.take(200)
    } else {
        text
    }
}

pub open spec fn no_digit() -> spec_fn(char) -> bool {
    |c: char| !('0' <= c <= '9')
}

proof fn lemma_without_digits(s: Seq<char>)
    ensures
        without_digits(s) == s.filter(no_digit()),
    decreases s.len(),
{
    reveal(Seq::filter);
    if s.len() > 0 {
        lemma_without_digits(s.drop_last());
    } else {
        assert(s =~= Seq::<char>::empty());
    }
}

/// A text that the model repeats is reported from the third time on that it is among the last
/// nine, white space around it aside; one of white space alone never is. The turns are reported
/// once there are as many as allowed, where their number is limited.
pub proof fn law_repeated_texts_and_turns_are_reported(g: GuardV, text: Seq<char>)
    requires
        g.texts.len() <= 8,
        g.turn < u32::MAX,
    ensures
        ({
            let x = blake3_digest(encode_utf8(trimmed(text)));
            let n = count_of(g.texts, x) + 1;
            let (after, e) = g.after_text(text);
            &&& trimmed(text).len() == 0 ==> after == g && e is None
            &&& trimmed(text).len() > 0 && n >= 3 ==> e == Some(GuardErrorV::RepeatedOutput(n))
            &&& trimmed(text).len() > 0 && n < 3 ==> e is None
            &&& trimmed(text).len() > 0 ==> keeps_last(g.texts, after.texts, x) && after == (GuardV {
                texts: after.texts,
                ..g
            })
        }),
        g.after_turn().0 == (GuardV { turn: (g.turn + 1) as u32, ..g }),
        g.after_turn().1 == (if g.max_turns > 0 && g.turn + 1 >= g.max_turns {
            Some(GuardErrorV::MaxTurns(g.max_turns))
        } else {
            None
        }),
{
    lemma_remembered(g.texts, text_print(text));
}

} // verus!
