//! The chunks of a streamed chat answer, and the answer that they add up to.

use crate::decimal::{to_u32, truncated_u32};
use crate::json::{Json, JsonV, Number, NumberV, jsons, lemma_view, opt_str, parsed};
use crate::message::opt_string;
use crate::text::{str_eq, trim_str, trimmed};
use vstd::prelude::*;
use vstd::string::*;

verus! {

/// A tool call as it is gathered from the stream.
#[derive(Debug)]
pub struct ToolCallAcc {
    pub index: u32,
    pub id: String,
    pub name: String,
    pub arguments: String,
}

pub struct ToolCallAccV {
    pub index: u32,
    pub id: Seq<char>,
    pub name: Seq<char>,
    pub arguments: Seq<char>,
}

impl View for ToolCallAcc {
    type V = ToolCallAccV;

    open spec fn view(&self) -> ToolCallAccV {
        ToolCallAccV { index: self.index, id: self.id@, name: self.name@, arguments: self.arguments@ }
    }
}

pub open spec fn accs(v: Seq<ToolCallAcc>) -> Seq<ToolCallAccV> {
    Seq::new(v.len(), |i: int| v[i]@)
}

/// What the server measured. The times are kept as it wrote them.
#[derive(Debug)]
pub struct Timings {
    pub prompt_n: u32,
    pub cache_n: u32,
    pub prompt_ms: Number,
    pub predicted_n: u32,
    pub predicted_ms: Number,
    pub draft_n: u32,
    pub draft_n_accepted: u32,
}

pub struct TimingsV {
    pub prompt_n: u32,
    pub cache_n: u32,
    pub prompt_ms: NumberV,
    pub predicted_n: u32,
    pub predicted_ms: NumberV,
    pub draft_n: u32,
    pub draft_n_accepted: u32,
}

impl View for Timings {
    type V = TimingsV;

    open spec fn view(&self) -> TimingsV {
        TimingsV {
            prompt_n: self.prompt_n,
            cache_n: self.cache_n,
            prompt_ms: self.prompt_ms@,
            predicted_n: self.predicted_n,
            predicted_ms: self.predicted_ms@,
            draft_n: self.draft_n,
            draft_n_accepted: self.draft_n_accepted,
        }
    }
}

impl Timings {
    pub fn copy(&self) -> (r: Timings)
        ensures
            r@ == self@,
    {
        Timings {
            prompt_n: self.prompt_n,
            cache_n: self.cache_n,
            prompt_ms: self.prompt_ms.copy(),
            predicted_n: self.predicted_n,
            predicted_ms: self.predicted_ms.copy(),
            draft_n: self.draft_n,
            draft_n_accepted: self.draft_n_accepted,
        }
    }
}

#[derive(Debug)]
pub enum FinishReason {
    Stop,
    Length,
    ToolCalls,
    Other(String),
}

pub enum FinishV {
    Stop,
    Length,
    ToolCalls,
    Other(Seq<char>),
}

impl View for FinishReason {
    type V = FinishV;

    open spec fn view(&self) -> FinishV {
        match self {
            FinishReason::Stop => FinishV::Stop,
            FinishReason::Length => FinishV::Length,
            FinishReason::ToolCalls => FinishV::ToolCalls,
            FinishReason::Other(s) => FinishV::Other(s@),
        }
    }
}

#[derive(Debug)]
pub enum StreamEvent {
    Reasoning(String),
    Content(String),
    ToolCallDelta { index: u32, id: Option<String>, name: Option<String>, args_fragment: String },
    Usage { prompt_tokens: u32, completion_tokens: u32 },
    Timings(Timings),
    Done(FinishReason),
    Error(String),
}

pub enum EventV {
    Reasoning(Seq<char>),
    Content(Seq<char>),
    ToolCallDelta { index: u32, id: Option<Seq<char>>, name: Option<Seq<char>>, args_fragment: Seq<char> },
    Usage { prompt_tokens: u32, completion_tokens: u32 },
    Timings(TimingsV),
    Done(FinishV),
    Error(Seq<char>),
}

impl View for StreamEvent {
    type V = EventV;

    open spec fn view(&self) -> EventV {
        match self {
            StreamEvent::Reasoning(s) => EventV::Reasoning(s@),
            StreamEvent::Content(s) => EventV::Content(s@),
            StreamEvent::ToolCallDelta { index, id, name, args_fragment } => EventV::ToolCallDelta {
                index: *index,
                id: opt_string(*id),
                name: opt_string(*name),
                args_fragment: args_fragment@,
            },
            StreamEvent::Usage { prompt_tokens, completion_tokens } => EventV::Usage {
                prompt_tokens: *prompt_tokens,
                completion_tokens: *completion_tokens,
            },
            StreamEvent::Timings(t) => EventV::Timings(t@),
            StreamEvent::Done(r) => EventV::Done(r@),
            StreamEvent::Error(s) => EventV::Error(s@),
        }
    }
}

pub open spec fn events_view(v: Seq<StreamEvent>) -> Seq<EventV> {
    Seq::new(v.len(), |i: int| v[i]@)
}

// ---------------------------------------------------------------- one chunk

/// An event for a text that is there and not empty.
pub open spec fn text_event(t: Option<Seq<char>>, reasoning: bool) -> Seq<EventV> {
    match t {
        Some(s) => if s.len() == 0 {
            Seq::empty()
        } else if reasoning {
            seq![EventV::Reasoning(s)]
        } else {
            seq![EventV::Content(s)]
        },
        None => Seq::empty(),
    }
}

/// A number under a key, or none.
pub open spec fn get_u64(v: JsonV, key: Seq<char>) -> Option<u64> {
    match v.get(key) {
        Some(x) => x.u64(),
        None => None,
    }
}

/// The piece of a tool call.
pub open spec fn call_event(tc: JsonV) -> EventV {
    let f = tc.get("function"@);
    EventV::ToolCallDelta {
        index: (match get_u64(tc, "index"@) {
            Some(n) => n,
            None => 0,
        }) as u32,
        id: tc.get_str("id"@),
        name: match f {
            Some(x) => x.get_str("name"@),
            None => None,
        },
        args_fragment: match f {
            Some(x) => match x.get_str("arguments"@) {
                Some(s) => s,
                None => Seq::empty(),
            },
            None => Seq::empty(),
        },
    }
}

/// The events of a delta: reasoning under either of its keys, text, then tool calls.
pub open spec fn delta_events(d: JsonV) -> Seq<EventV> {
    text_event(d.get_str("reasoning_content"@), true) + text_event(d.get_str("reasoning"@), true) + text_event(
        d.get_str("content"@),
        false,
    ) + (match d.get("tool_calls"@) {
        Some(JsonV::Array(a)) => Seq::new(a.len(), |i: int| call_event(a[i])),
        _ => Seq::empty(),
    })
}

/// Why an answer ended.
pub open spec fn finish_of(s: Seq<char>) -> FinishV {
    if s == "stop"@ {
        FinishV::Stop
    } else if s == "length"@ {
        FinishV::Length
    } else if s == "tool_calls"@ {
        FinishV::ToolCalls
    } else {
        FinishV::Other(s)
    }
}

/// The events of a choice: those of its delta, then its end.
pub open spec fn choice_events(c: JsonV) -> Seq<EventV> {
    (match c.get("delta"@) {
        Some(d) => delta_events(d),
        None => Seq::empty(),
    }) + (match c.get_str("finish_reason"@) {
        Some(s) => seq![EventV::Done(finish_of(s))],
        None => Seq::empty(),
    })
}

/// The events of the first `n` choices.
pub open spec fn choices_events(a: Seq<JsonV>, n: nat) -> Seq<EventV>
    decreases n,
{
    if n == 0 || n > a.len() {
        Seq::empty()
    } else {
        choices_events(a, (n - 1) as nat) + choice_events(a[n - 1])
    }
}

/// The number under a key of the timings; zero where there is none.
pub open spec fn timing(t: JsonV, key: Seq<char>) -> NumberV {
    match t.get(key) {
        Some(JsonV::Number(n)) => n,
        _ => NumberV::PosInt(0),
    }
}

/// A number rounded towards zero and held to the range of `u32`.
pub open spec fn number_u32(n: NumberV) -> u32 {
    match n {
        NumberV::PosInt(x) => if x > u32::MAX {
            u32::MAX
        } else {
            x as u32
        },
        NumberV::NegInt(_) => 0,
        NumberV::Float(t) => truncated_u32(t) as u32,
    }
}

pub open spec fn timings_of(t: JsonV) -> TimingsV {
    TimingsV {
        prompt_n: number_u32(timing(t, "prompt_n"@)),
        cache_n: number_u32(timing(t, "cache_n"@)),
        prompt_ms: timing(t, "prompt_ms"@),
        predicted_n: number_u32(timing(t, "predicted_n"@)),
        predicted_ms: timing(t, "predicted_ms"@),
        draft_n: number_u32(timing(t, "draft_n"@)),
        draft_n_accepted: number_u32(timing(t, "draft_n_accepted"@)),
    }
}

/// The events of a chunk that was read: an error alone, or those of the choices,
/// then the usage, then the timings.
pub open spec fn value_events(v: JsonV) -> Seq<EventV> {
    match v.get("error"@) {
        Some(e) => seq![
            EventV::Error(
                match e.get_str("message"@) {
                    Some(m) => m,
                    None => "server error"@,
                },
            ),
        ],
        None => (match v.get("choices"@) {
            Some(JsonV::Array(a)) => choices_events(a, a.len()),
            _ => Seq::empty(),
        }) + (match v.get("usage"@) {
            Some(u) => match (get_u64(u, "prompt_tokens"@), get_u64(u, "completion_tokens"@)) {
                (Some(p), Some(c)) => seq![
                    EventV::Usage { prompt_tokens: p as u32, completion_tokens: c as u32 },
                ],
                _ => Seq::empty(),
            },
            None => Seq::empty(),
        }) + (match v.get("timings"@) {
            Some(t) => seq![EventV::Timings(timings_of(t))],
            None => Seq::empty(),
        }),
    }
}

/// The events of a chunk. The closing mark has none; what is no JSON is an error.
pub open spec fn chunk_events(data: Seq<char>) -> Seq<EventV> {
    if trimmed(data) == "[DONE]"@ {
        Seq::empty()
    } else {
        match parsed(data) {
            Ok(v) => value_events(v),
            Err(e) => seq![EventV::Error("bad SSE json: "@ + e)],
        }
    }
}

fn push_event(out: &mut Vec<StreamEvent>, e: StreamEvent)
    ensures
        events_view(final(out)@) == events_view(old(out)@).push(e@),
{
    out.push(e);
    assert(events_view(out@) =~= events_view(old(out)@).push(e@));
}

fn push_text_event(out: &mut Vec<StreamEvent>, t: Option<&str>, reasoning: bool)
    ensures
        events_view(final(out)@) == events_view(old(out)@) + text_event(opt_str(t), reasoning),
{
    let ghost before = events_view(out@);
    if let Some(s) = t {
        if !s.is_empty() {
            if reasoning {
                push_event(out, StreamEvent::Reasoning(s.to_owned()));
            } else {
                push_event(out, StreamEvent::Content(s.to_owned()));
            }
        }
    }
    assert(events_view(out@) =~= before + text_event(opt_str(t), reasoning));
}

fn u64_under(v: &Json, key: &str) -> (r: Option<u64>)
    ensures
        r == get_u64(v@, key@),
{
    match v.get(key) {
        Some(x) => x.as_u64(),
        None => None,
    }
}

fn opt_owned(s: Option<&str>) -> (r: Option<String>)
    ensures
        opt_string(r) == opt_str(s),
{
    match s {
        Some(t) => Some(t.to_owned()),
        None => None,
    }
}

fn read_call(tc: &Json) -> (r: StreamEvent)
    ensures
        r@ == call_event(tc@),
{
    let n: u64 = match u64_under(tc, "index") {
        Some(n) => n,
        None => 0,
    };
    let id = opt_owned(tc.get_str("id"));
    let (name, args) = match tc.get("function") {
        Some(f) => (
            opt_owned(f.get_str("name")),
            match f.get_str("arguments") {
                Some(s) => s.to_owned(),
                None => String::new(),
            },
        ),
        None => (None, String::new()),
    };
    StreamEvent::ToolCallDelta { index: n as u32, id, name, args_fragment: args }
}

fn push_delta(out: &mut Vec<StreamEvent>, d: &Json)
    ensures
        events_view(final(out)@) == events_view(old(out)@) + delta_events(d@),
{
    let ghost before = events_view(out@);
    push_text_event(out, d.get_str("reasoning_content"), true);
    push_text_event(out, d.get_str("reasoning"), true);
    push_text_event(out, d.get_str("content"), false);
    let ghost mid = events_view(out@);
    if let Some(tcs) = d.get("tool_calls") {
        proof {
            lemma_view(*tcs);
        }
        if let Json::Array(a) = tcs {
            let ghost want = Seq::new(jsons(a@).len(), |i: int| call_event(jsons(a@)[i]));
            let mut i: usize = 0;
            assert(mid =~= mid + want.take(0));
            while i < a.len()
                invariant
                    i <= a.len(),
                    want == Seq::new(jsons(a@).len(), |i: int| call_event(jsons(a@)[i])),
                    events_view(out@) == mid + want.take(i as int),
                decreases a.len() - i,
            {
                let ghost b = events_view(out@);
                push_event(out, read_call(&a[i]));
                assert(want[i as int] == call_event(a@[i as int]@));
                assert(b.push(want[i as int]) =~= mid + want.take(i + 1));
                i += 1;
            }
            assert(want.take(a@.len() as int) =~= want);
        }
    }
    assert(events_view(out@) =~= before + delta_events(d@));
}

fn push_choice(out: &mut Vec<StreamEvent>, c: &Json)
    ensures
        events_view(final(out)@) == events_view(old(out)@) + choice_events(c@),
{
    let ghost before = events_view(out@);
    if let Some(d) = c.get("delta") {
        push_delta(out, d);
    }
    if let Some(s) = c.get_str("finish_reason") {
        let r = if str_eq(s, "stop") {
            FinishReason::Stop
        } else if str_eq(s, "length") {
            FinishReason::Length
        } else if str_eq(s, "tool_calls") {
            FinishReason::ToolCalls
        } else {
            FinishReason::Other(s.to_owned())
        };
        push_event(out, StreamEvent::Done(r));
    }
    assert(events_view(out@) =~= before + choice_events(c@));
}

fn read_timing(t: &Json, key: &str) -> (r: Number)
    ensures
        r@ == timing(t@, key@),
{
    match t.get(key) {
        Some(Json::Number(n)) => n.copy(),
        _ => Number::PosInt(0),
    }
}

/// A number rounded towards zero and held to the range of `u32`.
pub fn number_to_u32(n: &Number) -> (r: u32)
    ensures
        r == number_u32(n@),
{
    match n {
        Number::PosInt(x) => if *x > 0xffff_ffff {
            u32::MAX
        } else {
            *x as u32
        },
        Number::NegInt(_) => 0,
        Number::Float(t) => to_u32(t.as_str()),
    }
}

fn read_timings(t: &Json) -> (r: Timings)
    ensures
        r@ == timings_of(t@),
{
    Timings {
        prompt_n: number_to_u32(&read_timing(t, "prompt_n")),
        cache_n: number_to_u32(&read_timing(t, "cache_n")),
        prompt_ms: read_timing(t, "prompt_ms"),
        predicted_n: number_to_u32(&read_timing(t, "predicted_n")),
        predicted_ms: read_timing(t, "predicted_ms"),
        draft_n: number_to_u32(&read_timing(t, "draft_n")),
        draft_n_accepted: number_to_u32(&read_timing(t, "draft_n_accepted")),
    }
}

/// The events of a chunk that was read.
pub fn parse_value(v: &Json) -> (r: Vec<StreamEvent>)
    ensures
        events_view(r@) == value_events(v@),
{
    let mut out: Vec<StreamEvent> = Vec::new();
    assert(events_view(out@) =~= Seq::empty());
    if let Some(err) = v.get("error") {
        let m = match err.get_str("message") {
            Some(m) => m.to_owned(),
            None => "server error".to_owned(),
        };
        push_event(&mut out, StreamEvent::Error(m));
        assert(events_view(out@) =~= value_events(v@));
        return out;
    }
    if let Some(choices) = v.get("choices") {
        proof {
            lemma_view(*choices);
        }
        if let Json::Array(a) = choices {
            let mut i: usize = 0;
            while i < a.len()
                invariant
                    i <= a.len(),
                    events_view(out@) == choices_events(jsons(a@), i as nat),
                decreases a.len() - i,
            {
                assert(jsons(a@)[i as int] == a@[i as int]@);
                push_choice(&mut out, &a[i]);
                i += 1;
            }
        }
    }
    let ghost first = events_view(out@);
    if let Some(u) = v.get("usage") {
        if let (Some(p), Some(c)) = (u64_under(u, "prompt_tokens"), u64_under(u, "completion_tokens")) {
            push_event(&mut out, StreamEvent::Usage { prompt_tokens: p as u32, completion_tokens: c as u32 });
        }
    }
    if let Some(t) = v.get("timings") {
        push_event(&mut out, StreamEvent::Timings(read_timings(t)));
    }
    assert(events_view(out@) =~= value_events(v@));
    out
}

/// The events of a chunk.
pub fn parse_chunk(data: &str) -> (r: Vec<StreamEvent>)
    ensures
        events_view(r@) == chunk_events(data@),
{
    if str_eq(trim_str(data).as_str(), "[DONE]") {
        let out: Vec<StreamEvent> = Vec::new();
        assert(events_view(out@) =~= Seq::empty());
        return out;
    }
    match Json::parse(data) {
        Ok(v) => parse_value(&v),
        Err(e) => {
            let mut out: Vec<StreamEvent> = Vec::new();
            push_event(&mut out, StreamEvent::Error("bad SSE json: ".to_owned().concat(e.as_str())));
            assert(events_view(out@) =~= seq![EventV::Error("bad SSE json: "@ + e@)]);
            out
        },
    }
}

// ---------------------------------------------------------------- the answer

/// The place of the call of an index, from `i` on.
pub open spec fn call_from(calls: Seq<ToolCallAccV>, index: u32, i: int) -> Option<int>
    decreases calls.len() - i,
{
    if i < 0 || i >= calls.len() {
        None
    } else if calls[i].index == index {
        Some(i)
    } else {
        call_from(calls, index, i + 1)
    }
}

/// A call with one more piece: a new identifier takes the place of the old one, the
/// name and the arguments grow.
pub open spec fn grown(c: ToolCallAccV, id: Option<Seq<char>>, name: Option<Seq<char>>, args: Seq<char>) -> ToolCallAccV {
    ToolCallAccV {
        index: c.index,
        id: match id {
            Some(x) => x,
            None => c.id,
        },
        name: match name {
            Some(x) => c.name + x,
            None => c.name,
        },
        arguments: c.arguments + args,
    }
}

/// The calls with one more piece; one of a new index comes last.
pub open spec fn with_piece(
    calls: Seq<ToolCallAccV>,
    index: u32,
    id: Option<Seq<char>>,
    name: Option<Seq<char>>,
    args: Seq<char>,
) -> Seq<ToolCallAccV> {
    match call_from(calls, index, 0) {
        Some(i) => calls.update(i, grown(calls[i], id, name, args)),
        None => calls.push(
            grown(
                ToolCallAccV { index, id: Seq::empty(), name: Seq::empty(), arguments: Seq::empty() },
                id,
                name,
                args,
            ),
        ),
    }
}

fn find_call(calls: &Vec<ToolCallAcc>, index: u32) -> (r: Option<usize>)
    ensures
        match r {
            Some(i) => call_from(accs(calls@), index, 0) == Some(i as int) && i < calls.len(),
            None => call_from(accs(calls@), index, 0) is None,
        },
{
    let ghost cv = accs(calls@);
    let mut i: usize = 0;
    while i < calls.len()
        invariant
            i <= calls.len(),
            cv == accs(calls@),
            call_from(cv, index, 0) == call_from(cv, index, i as int),
        decreases calls.len() - i,
    {
        assert(cv[i as int] == calls@[i as int]@);
        if calls[i].index == index {
            return Some(i);
        }
        i += 1;
    }
    None
}

/// Adds a piece of a call.
pub fn add_piece(
    calls: &mut Vec<ToolCallAcc>,
    index: u32,
    id: &Option<String>,
    name: &Option<String>,
    args: &str,
)
    ensures
        accs(final(calls)@) == with_piece(accs(old(calls)@), index, opt_string(*id), opt_string(*name), args@),
{
    let at = find_call(calls, index);
    let ghost cv = accs(calls@);
    let (mut new_id, mut new_name, mut new_args) = match at {
        Some(i) => (calls[i].id.clone(), calls[i].name.clone(), calls[i].arguments.clone()),
        None => (String::new(), String::new(), String::new()),
    };
    if let Some(x) = id {
        new_id = x.clone();
    }
    if let Some(x) = name {
        new_name.append(x.as_str());
    }
    new_args.append(args);
    let acc = ToolCallAcc { index, id: new_id, name: new_name, arguments: new_args };
    match at {
        Some(i) => {
            proof {
                lemma_call_from(cv, index, 0);
                assert(cv[i as int] == calls@[i as int]@);
            }
            calls.set(i, acc);
            assert(accs(calls@) =~= with_piece(cv, index, opt_string(*id), opt_string(*name), args@));
        },
        None => {
            calls.push(acc);
            assert(accs(calls@) =~= with_piece(cv, index, opt_string(*id), opt_string(*name), args@));
        },
    }
}

proof fn lemma_call_from(calls: Seq<ToolCallAccV>, index: u32, i: int)
    ensures
        call_from(calls, index, i) matches Some(k) ==> i <= k < calls.len() && calls[k].index == index,
        i >= 0 && call_from(calls, index, i) is None ==> forall|k: int|
            i <= k < calls.len() ==> (#[trigger] calls[k]).index != index,
    decreases calls.len() - i,
{
    if 0 <= i < calls.len() && calls[i].index != index {
        lemma_call_from(calls, index, i + 1);
    }
}

/// An answer as far as it has been streamed.
#[derive(Debug)]
pub struct Answer {
    pub content: String,
    pub reasoning: String,
    pub timings: Option<Timings>,
    pub calls: Vec<ToolCallAcc>,
    pub finish: Option<FinishReason>,
    /// The error that broke the stream off.
    pub error: Option<String>,
}

pub struct AnswerV {
    pub content: Seq<char>,
    pub reasoning: Seq<char>,
    pub timings: Option<TimingsV>,
    pub calls: Seq<ToolCallAccV>,
    pub finish: Option<FinishV>,
    pub error: Option<Seq<char>>,
}

impl View for Answer {
    type V = AnswerV;

    open spec fn view(&self) -> AnswerV {
        AnswerV {
            content: self.content@,
            reasoning: self.reasoning@,
            timings: match self.timings {
                Some(t) => Some(t@),
                None => None,
            },
            calls: accs(self.calls@),
            finish: match self.finish {
                Some(f) => Some(f@),
                None => None,
            },
            error: opt_string(self.error),
        }
    }
}

impl AnswerV {
    pub open spec fn empty() -> AnswerV {
        AnswerV {
            content: Seq::empty(),
            reasoning: Seq::empty(),
            timings: None,
            calls: Seq::empty(),
            finish: None,
            error: None,
        }
    }

    /// The answer after one more event: texts grow, the latest timings and end count.
    pub open spec fn after(self, e: EventV) -> AnswerV {
        match e {
            EventV::Reasoning(s) => AnswerV { reasoning: self.reasoning + s, ..self },
            EventV::Content(s) => AnswerV { content: self.content + s, ..self },
            EventV::ToolCallDelta { index, id, name, args_fragment } => AnswerV {
                calls: with_piece(self.calls, index, id, name, args_fragment),
                ..self
            },
            EventV::Usage { prompt_tokens, completion_tokens } => self,
            EventV::Timings(t) => AnswerV { timings: Some(t), ..self },
            EventV::Done(f) => AnswerV { finish: Some(f), ..self },
            EventV::Error(s) => AnswerV { error: Some(s), ..self },
        }
    }

    /// The answer after the first `n` events.
    pub open spec fn after_all(self, es: Seq<EventV>, n: nat) -> AnswerV
        decreases n,
    {
        if n == 0 || n > es.len() {
            self
        } else {
            self.after_all(es, (n - 1) as nat).after(es[n - 1])
        }
    }
}

/// The texts of the content events among the first `n`.
pub open spec fn contents(es: Seq<EventV>, n: nat) -> Seq<char>
    decreases n,
{
    if n == 0 || n > es.len() {
        Seq::empty()
    } else {
        match es[n - 1] {
            EventV::Content(s) => contents(es, (n - 1) as nat) + s,
            _ => contents(es, (n - 1) as nat),
        }
    }
}

/// The text of an answer is that of its content events, in order, however the stream
/// was cut into chunks.
pub proof fn law_content_is_concatenated(es: Seq<EventV>, n: nat)
    requires
        n <= es.len(),
    ensures
        AnswerV::empty().after_all(es, n).content == contents(es, n),
    decreases n,
{
    if n > 0 {
        law_content_is_concatenated(es, (n - 1) as nat);
    }
}

/// The arguments of the call of an index, as far as they have come.
pub open spec fn arguments_of(calls: Seq<ToolCallAccV>, index: u32) -> Seq<char> {
    match call_from(calls, index, 0) {
        Some(k) => calls[k].arguments,
        None => Seq::empty(),
    }
}

/// The pieces of the arguments of the call of an index among the first `n` events.
pub open spec fn fragments(es: Seq<EventV>, index: u32, n: nat) -> Seq<char>
    decreases n,
{
    if n == 0 || n > es.len() {
        Seq::empty()
    } else {
        let before = fragments(es, index, (n - 1) as nat);
        match es[n - 1] {
            EventV::ToolCallDelta { index: i, id, name, args_fragment } => if i == index {
                before + args_fragment
            } else {
                before
            },
            _ => before,
        }
    }
}

proof fn lemma_same_indexes(a: Seq<ToolCallAccV>, b: Seq<ToolCallAccV>, index: u32, i: int)
    requires
        a.len() == b.len(),
        forall|k: int| 0 <= k < a.len() ==> (#[trigger] a[k]).index == b[k].index,
    ensures
        call_from(a, index, i) == call_from(b, index, i),
    decreases a.len() - i,
{
    if 0 <= i < a.len() && a[i].index != index {
        lemma_same_indexes(a, b, index, i + 1);
    }
}

proof fn lemma_call_pushed(calls: Seq<ToolCallAccV>, c: ToolCallAccV, index: u32, i: int)
    requires
        0 <= i <= calls.len(),
    ensures
        call_from(calls.push(c), index, i) == (match call_from(calls, index, i) {
            Some(k) => Some(k),
            None => if c.index == index {
                Some(calls.len() as int)
            } else {
                None
            },
        }),
    decreases calls.len() - i,
{
    if i < calls.len() {
        lemma_call_pushed(calls, c, index, i + 1);
    } else {
        assert(call_from(calls.push(c), index, i + 1) is None);
    }
}

proof fn lemma_piece_added(
    calls: Seq<ToolCallAccV>,
    j: u32,
    id: Option<Seq<char>>,
    name: Option<Seq<char>>,
    args: Seq<char>,
    index: u32,
)
    ensures
        arguments_of(with_piece(calls, j, id, name, args), index) == (if j == index {
            arguments_of(calls, index) + args
        } else {
            arguments_of(calls, index)
        }),
{
    let new = with_piece(calls, j, id, name, args);
    lemma_call_from(calls, j, 0);
    lemma_call_from(calls, index, 0);
    match call_from(calls, j, 0) {
        Some(i) => {
            lemma_same_indexes(new, calls, index, 0);
        },
        None => {
            lemma_call_pushed(calls, new.last(), index, 0);
            assert(new.last().arguments =~= args);
            assert(Seq::<char>::empty() + args =~= args);
        },
    }
}

/// The arguments of each call are its pieces, in order, however those of several calls come
/// mixed.
pub proof fn law_arguments_are_concatenated(es: Seq<EventV>, index: u32, n: nat)
    requires
        n <= es.len(),
    ensures
        arguments_of(AnswerV::empty().after_all(es, n).calls, index) == fragments(es, index, n),
    decreases n,
{
    if n > 0 {
        law_arguments_are_concatenated(es, index, (n - 1) as nat);
        let before = AnswerV::empty().after_all(es, (n - 1) as nat);
        if let EventV::ToolCallDelta { index: j, id, name, args_fragment } = es[n - 1] {
            lemma_piece_added(before.calls, j, id, name, args_fragment, index);
        }
    }
}

impl Answer {
    pub fn new() -> (r: Answer)
        ensures
            r@ == AnswerV::empty(),
    {
        let r = Answer {
            content: String::new(),
            reasoning: String::new(),
            timings: None,
            calls: Vec::new(),
            finish: None,
            error: None,
        };
        assert(r@.calls =~= Seq::empty());
        r
    }

    /// Takes one more event.
    pub fn apply(&mut self, e: StreamEvent)
        ensures
            final(self)@ == old(self)@.after(e@),
    {
        match e {
            StreamEvent::Reasoning(s) => {
                self.reasoning.append(s.as_str());
            },
            StreamEvent::Content(s) => {
                self.content.append(s.as_str());
            },
            StreamEvent::ToolCallDelta { index, id, name, args_fragment } => {
                add_piece(&mut self.calls, index, &id, &name, args_fragment.as_str());
            },
            StreamEvent::Usage { prompt_tokens, completion_tokens } => {},
            StreamEvent::Timings(t) => {
                self.timings = Some(t);
            },
            StreamEvent::Done(f) => {
                self.finish = Some(f);
            },
            StreamEvent::Error(s) => {
                self.error = Some(s);
            },
        }
    }
}

proof fn lemma_event_in_both(a: Seq<EventV>, b: Seq<EventV>, e: EventV)
    ensures
        (a + b).contains(e) <==> a.contains(e) || b.contains(e),
{
    if a.contains(e) {
        let i = choose|i: int| 0 <= i < a.len() && a[i] == e;
        assert((a + b)[i] == e);
    }
    if b.contains(e) {
        let i = choose|i: int| 0 <= i < b.len() && b[i] == e;
        assert((a + b)[a.len() + i] == e);
    }
    if (a + b).contains(e) {
        let i = choose|i: int| 0 <= i < (a + b).len() && (a + b)[i] == e;
        if i < a.len() {
            assert(a[i] == e);
        } else {
            assert(b[i - a.len()] == e);
        }
    }
}

proof fn lemma_choice_is_in(a: Seq<JsonV>, n: nat, k: int, e: EventV)
    requires
        n <= a.len(),
        0 <= k < n,
        choice_events(a[k]).contains(e),
    ensures
        choices_events(a, n).contains(e),
    decreases n,
{
    lemma_event_in_both(choices_events(a, (n - 1) as nat), choice_events(a[n - 1]), e);
    if k < n - 1 {
        lemma_choice_is_in(a, (n - 1) as nat, k, e);
    }
}

/// What an event says is something that a choice of a chunk holds: its text, its reasoning
/// under either key, a piece of a call, or why it ended.
pub open spec fn told_in(c: JsonV, e: EventV) -> bool {
    match e {
        EventV::Content(s) => s.len() > 0 && (c.get("delta"@) matches Some(d) && d.get_str("content"@) == Some(s)),
        EventV::Reasoning(s) => s.len() > 0 && (c.get("delta"@) matches Some(d) && (d.get_str("reasoning_content"@)
            == Some(s) || d.get_str("reasoning"@) == Some(s))),
        EventV::ToolCallDelta { index, id, name, args_fragment } => c.get("delta"@) matches Some(d) && (d.get(
            "tool_calls"@,
        ) matches Some(JsonV::Array(a)) && exists|j: int|
            0 <= j < a.len() && is_piece(#[trigger] a[j], index, id, name, args_fragment)),
        EventV::Done(FinishV::Stop) => c.get_str("finish_reason"@) == Some("stop"@),
        EventV::Done(FinishV::Length) => c.get_str("finish_reason"@) == Some("length"@),
        EventV::Done(FinishV::ToolCalls) => c.get_str("finish_reason"@) == Some("tool_calls"@),
        EventV::Done(FinishV::Other(s)) => c.get_str("finish_reason"@) == Some(s) && s != "stop"@ && s != "length"@ && s
            != "tool_calls"@,
        _ => false,
    }
}

/// A value is the piece of a call of these parts.
pub open spec fn is_piece(
    v: JsonV,
    index: u32,
    id: Option<Seq<char>>,
    name: Option<Seq<char>>,
    args: Seq<char>,
) -> bool {
    &&& v.get("index"@) matches Some(JsonV::Number(NumberV::PosInt(n))) ==> index == n as u32
    &&& !(v.get("index"@) matches Some(JsonV::Number(NumberV::PosInt(_)))) ==> index == 0
    &&& id == v.get_str("id"@)
    &&& v.get("function"@) matches Some(f) ==> name == f.get_str("name"@) && (f.get_str("arguments"@) matches Some(s)
        ==> args == s) && (f.get_str("arguments"@) is None ==> args.len() == 0)
    &&& v.get("function"@) is None ==> name is None && args.len() == 0
}

/// Nothing that a chunk holds is lost, whichever of its choices holds it: every text, every
/// piece of a call and every end becomes an event. An error is told alone.
#[verifier::rlimit(40)]
pub proof fn law_nothing_in_a_chunk_is_lost(v: JsonV, e: EventV)
    ensures
        v.get("error"@) is None ==> (v.get("choices"@) matches Some(JsonV::Array(a)) ==> forall|k: int|
            0 <= k < a.len() && told_in(#[trigger] a[k], e) ==> value_events(v).contains(e)),
        v.get("error"@) matches Some(x) ==> value_events(v).len() == 1 && (x.get_str("message"@) matches Some(m)
            ==> value_events(v)[0] == EventV::Error(m)),
        v.get("error"@) is None ==> (v.get("timings"@) matches Some(t) ==> value_events(v).contains(
            EventV::Timings(timings_of(t)),
        )),
{
    if v.get("error"@) is None {
        let a = match v.get("choices"@) {
            Some(JsonV::Array(a)) => choices_events(a, a.len()),
            _ => Seq::empty(),
        };
        let b = match v.get("usage"@) {
            Some(u) => match (get_u64(u, "prompt_tokens"@), get_u64(u, "completion_tokens"@)) {
                (Some(p), Some(c)) => seq![EventV::Usage { prompt_tokens: p as u32, completion_tokens: c as u32 }],
                _ => Seq::empty(),
            },
            None => Seq::empty(),
        };
        let c = match v.get("timings"@) {
            Some(t) => seq![EventV::Timings(timings_of(t))],
            None => Seq::empty(),
        };
        assert(value_events(v) == a + b + c);
        if let Some(t) = v.get("timings"@) {
            assert(c[0] == EventV::Timings(timings_of(t)));
            lemma_event_in_both(a + b, c, EventV::Timings(timings_of(t)));
        }
        if let Some(JsonV::Array(ch)) = v.get("choices"@) {
            assert forall|k: int| 0 <= k < ch.len() && told_in(#[trigger] ch[k], e) implies value_events(v).contains(
                e,
            ) by {
                lemma_choice_tells(ch[k], e);
                lemma_choice_is_in(ch, ch.len(), k, e);
                lemma_event_in_both(a, b, e);
                lemma_event_in_both(a + b, c, e);
            }
        }
    }
}

#[verifier::rlimit(40)]
proof fn lemma_choice_tells(c: JsonV, e: EventV)
    requires
        told_in(c, e),
    ensures
        choice_events(c).contains(e),
{
    reveal_strlit("stop");
    reveal_strlit("length");
    reveal_strlit("tool_calls");
    assert("stop"@.len() == 4 && "length"@.len() == 6 && "tool_calls"@.len() == 10);
    let x = match c.get("delta"@) {
        Some(d) => delta_events(d),
        None => Seq::empty(),
    };
    let y = match c.get_str("finish_reason"@) {
        Some(s) => seq![EventV::Done(finish_of(s))],
        None => Seq::empty(),
    };
    assert(choice_events(c) == x + y);
    lemma_event_in_both(x, y, e);
    if e is Done {
        assert(y[0] == e);
    } else if let Some(d) = c.get("delta"@) {
        let r1 = text_event(d.get_str("reasoning_content"@), true);
        let r2 = text_event(d.get_str("reasoning"@), true);
        let r3 = text_event(d.get_str("content"@), false);
        let r4 = match d.get("tool_calls"@) {
            Some(JsonV::Array(a)) => Seq::new(a.len(), |i: int| call_event(a[i])),
            _ => Seq::empty(),
        };
        assert(x == r1 + r2 + r3 + r4);
        lemma_event_in_both(r1, r2, e);
        lemma_event_in_both(r1 + r2, r3, e);
        lemma_event_in_both(r1 + r2 + r3, r4, e);
        match e {
            EventV::Content(s) => {
                assert(r3[0] == e);
            },
            EventV::Reasoning(s) => {
                if d.get_str("reasoning_content"@) == Some(s) {
                    assert(r1[0] == e);
                } else {
                    assert(r2[0] == e);
                }
            },
            EventV::ToolCallDelta { index, id, name, args_fragment } => {
                if let Some(JsonV::Array(a)) = d.get("tool_calls"@) {
                    let j = choose|j: int|
                        0 <= j < a.len() && is_piece(#[trigger] a[j], index, id, name, args_fragment);
                    assert(args_fragment =~= call_event(a[j])->args_fragment);
                    assert(r4[j] == e);
                }
            },
            _ => {},
        }
    }
}

/// The numbers of the timings are those that the server gave, and zero where it gave none.
pub proof fn law_timings_are_those_of_the_server(t: JsonV, n: u64)
    requires
        n <= u32::MAX,
    ensures
        t.get("prompt_n"@) == Some(JsonV::Number(NumberV::PosInt(n))) ==> timings_of(t).prompt_n == n,
        t.get("cache_n"@) == Some(JsonV::Number(NumberV::PosInt(n))) ==> timings_of(t).cache_n == n,
        t.get("predicted_n"@) == Some(JsonV::Number(NumberV::PosInt(n))) ==> timings_of(t).predicted_n == n,
        t.get("draft_n"@) == Some(JsonV::Number(NumberV::PosInt(n))) ==> timings_of(t).draft_n == n,
        t.get("draft_n_accepted"@) == Some(JsonV::Number(NumberV::PosInt(n))) ==> timings_of(t).draft_n_accepted == n,
        t.get("prompt_n"@) is None ==> timings_of(t).prompt_n == 0,
        t.get("cache_n"@) is None ==> timings_of(t).cache_n == 0,
        t.get("predicted_n"@) is None ==> timings_of(t).predicted_n == 0,
        t.get("prompt_ms"@) matches Some(JsonV::Number(x)) ==> timings_of(t).prompt_ms == x,
        t.get("predicted_ms"@) matches Some(JsonV::Number(x)) ==> timings_of(t).predicted_ms == x,
{
}

/// Each event adds what it says to an answer and leaves the rest: a text grows at its end, and
/// of the timings, the end and the error the latest counts.
pub proof fn law_an_event_adds_what_it_says(a: AnswerV, e: EventV)
    ensures
        ({
            let b = a.after(e);
            &&& e matches EventV::Content(s) ==> b.content == a.content + s
            &&& e matches EventV::Reasoning(s) ==> b.reasoning == a.reasoning + s
            &&& e matches EventV::Timings(t) ==> b.timings == Some(t)
            &&& e matches EventV::Done(f) ==> b.finish == Some(f)
            &&& e matches EventV::Error(s) ==> b.error == Some(s)
            &&& !(e is Content) ==> b.content == a.content
            &&& !(e is Reasoning) ==> b.reasoning == a.reasoning
            &&& !(e is ToolCallDelta) ==> b.calls == a.calls
            &&& !(e is Timings) ==> b.timings == a.timings
            &&& !(e is Done) ==> b.finish == a.finish
            &&& !(e is Error) ==> b.error == a.error
        }),
{
}

/// A piece goes to the call of its index: its identifier, where it has one, is that of the call
/// from then on, and its name and arguments are put behind those that came before. A new index
/// makes a new call behind the others; the other calls are left.
pub proof fn law_a_piece_goes_to_its_call(
    calls: Seq<ToolCallAccV>,
    index: u32,
    id: Option<Seq<char>>,
    name: Option<Seq<char>>,
    args: Seq<char>,
)
    requires
        forall|i: int, j: int| 0 <= i < j < calls.len() ==> (#[trigger] calls[i]).index != (#[trigger] calls[j]).index,
    ensures
        ({
            let r = with_piece(calls, index, id, name, args);
            &&& forall|k: int| 0 <= k < calls.len() && (#[trigger] calls[k]).index != index ==> r[k] == calls[k]
            &&& forall|k: int|
                0 <= k < calls.len() && (#[trigger] calls[k]).index == index ==> {
                    &&& r.len() == calls.len()
                    &&& r[k].index == index
                    &&& id matches Some(x) ==> r[k].id == x
                    &&& id is None ==> r[k].id == calls[k].id
                    &&& name matches Some(x) ==> r[k].name == calls[k].name + x
                    &&& name is None ==> r[k].name == calls[k].name
                    &&& r[k].arguments == calls[k].arguments + args
                }
            &&& (forall|k: int| 0 <= k < calls.len() ==> (#[trigger] calls[k]).index != index) ==> {
                &&& r.len() == calls.len() + 1
                &&& r.last().index == index
                &&& id matches Some(x) ==> r.last().id == x
                &&& name matches Some(x) ==> r.last().name == x
                &&& r.last().arguments == args
            }
        }),
{
    lemma_call_from(calls, index, 0);
    let e = Seq::<char>::empty();
    assert(e + args =~= args);
    if let Some(x) = name {
        assert(e + x =~= x);
    }
}

/// The closing mark tells nothing; a chunk that is JSON tells what it holds; any other tells an
/// error.
pub proof fn law_a_chunk_is_read(data: Seq<char>)
    ensures
        trimmed(data) == "[DONE]"@ ==> chunk_events(data).len() == 0,
        trimmed(data) != "[DONE]"@ ==> (parsed(data) matches Ok(v) ==> chunk_events(data) == value_events(v)),
        trimmed(data) != "[DONE]"@ && parsed(data) is Err ==> chunk_events(data).len() == 1 && chunk_events(data)[0]
            is Error,
{
}

} // verus!
