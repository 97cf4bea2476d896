//! Requests to the server: what is sent, where it is sent, and how replies are read.

use crate::config::{Sampling, SamplingV, trim_slashes, without_slashes};
use crate::json::{
    Json, JsonV, Number, NumberV, field, get_field, has_fields, is_record, jsons, lemma_view,
    member, member_index, members, opt_view, parsed, text_of, text_value,
};
use crate::message::{array, object, opt_string};
use crate::parser::{set_member, with_member};
use crate::text::{
    before, contains, dec, dec_u64, ends, ends_with, first_chars, holds, lines, str_eq, strings,
    take_chars,
};
use vstd::prelude::*;
use vstd::string::*;

verus! {

/// The body of a chat request. The fractions are kept as decimal text.
#[derive(Debug)]
pub struct ChatRequest {
    pub model: String,
    pub messages: Vec<Json>,
    pub tools: Option<Json>,
    pub tool_choice: Option<Json>,
    pub response_format: Option<Json>,
    pub stream: bool,
    pub cache_prompt: Option<bool>,
    pub id_slot: Option<i32>,
    pub max_tokens: Option<u32>,
    pub temperature: String,
    pub top_p: String,
    pub top_k: u32,
    pub min_p: String,
    pub presence_penalty: String,
    pub repeat_penalty: String,
    pub chat_template_kwargs: Option<Json>,
    pub stop: Option<Vec<String>>,
    pub timings_per_token: bool,
    pub n_probs: Option<u32>,
}

#[verifier::ext_equal]
pub struct RequestV {
    pub model: Seq<char>,
    pub messages: Seq<JsonV>,
    pub tools: Option<JsonV>,
    pub tool_choice: Option<JsonV>,
    pub response_format: Option<JsonV>,
    pub stream: bool,
    pub cache_prompt: Option<bool>,
    pub id_slot: Option<i32>,
    pub max_tokens: Option<u32>,
    pub temperature: Seq<char>,
    pub top_p: Seq<char>,
    pub top_k: u32,
    pub min_p: Seq<char>,
    pub presence_penalty: Seq<char>,
    pub repeat_penalty: Seq<char>,
    pub chat_template_kwargs: Option<JsonV>,
    pub stop: Option<Seq<Seq<char>>>,
    pub timings_per_token: bool,
    pub n_probs: Option<u32>,
}

pub open spec fn opt_json(j: Option<Json>) -> Option<JsonV> {
    match j {
        Some(v) => Some(v@),
        None => None,
    }
}

pub open spec fn opt_strings(v: Option<Vec<String>>) -> Option<Seq<Seq<char>>> {
    match v {
        Some(l) => Some(strings(l@)),
        None => None,
    }
}

impl View for ChatRequest {
    type V = RequestV;

    open spec fn view(&self) -> RequestV {
        RequestV {
            model: self.model@,
            messages: jsons(self.messages@),
            tools: opt_json(self.tools),
            tool_choice: opt_json(self.tool_choice),
            response_format: opt_json(self.response_format),
            stream: self.stream,
            cache_prompt: self.cache_prompt,
            id_slot: self.id_slot,
            max_tokens: self.max_tokens,
            temperature: self.temperature@,
            top_p: self.top_p@,
            top_k: self.top_k,
            min_p: self.min_p@,
            presence_penalty: self.presence_penalty@,
            repeat_penalty: self.repeat_penalty@,
            chat_template_kwargs: opt_json(self.chat_template_kwargs),
            stop: opt_strings(self.stop),
            timings_per_token: self.timings_per_token,
            n_probs: self.n_probs,
        }
    }
}

pub open spec fn json_nat(n: u64) -> JsonV {
    JsonV::Number(NumberV::PosInt(n))
}

pub open spec fn json_int(n: i64) -> JsonV {
    if n >= 0 {
        JsonV::Number(NumberV::PosInt(n as u64))
    } else {
        JsonV::Number(NumberV::NegInt(n))
    }
}

pub open spec fn json_fraction(text: Seq<char>) -> JsonV {
    JsonV::Number(NumberV::Float(text))
}

/// Nothing, or one member.
pub open spec fn maybe(key: Seq<char>, v: Option<JsonV>) -> Seq<(Seq<char>, JsonV)> {
    match v {
        Some(j) => seq![(key, j)],
        None => Seq::empty(),
    }
}

pub open spec fn text_values(v: Seq<Seq<char>>) -> Seq<JsonV> {
    Seq::new(v.len(), |i: int| JsonV::Str(v[i]))
}

/// The effort and the thinking that a word asks for.
pub open spec fn effort_of(word: Seq<char>) -> (Seq<char>, bool) {
    if word == "none"@ || word == "off"@ {
        ("medium"@, false)
    } else if word == "xhigh"@ || word == "max"@ || word == "high"@ {
        ("xhigh"@, true)
    } else if word == "low"@ {
        ("low"@, true)
    } else {
        ("medium"@, true)
    }
}

/// The members of the template's options with an effort in them.
pub open spec fn with_effort(m: Seq<(Seq<char>, JsonV)>, word: Seq<char>) -> Seq<(Seq<char>, JsonV)> {
    let (effort, thinks) = effort_of(word);
    let n = with_member(m, "reasoning_effort"@, JsonV::Str(effort));
    if thinks {
        n
    } else {
        with_member(n, "enable_thinking"@, JsonV::Bool(false))
    }
}

impl RequestV {
    pub open spec fn fresh(model: Seq<char>, messages: Seq<JsonV>) -> RequestV {
        RequestV {
            model,
            messages,
            tools: None,
            tool_choice: None,
            response_format: None,
            stream: true,
            cache_prompt: Some(true),
            id_slot: Some(0),
            max_tokens: None,
            temperature: "0.6"@,
            top_p: "0.95"@,
            top_k: 20,
            min_p: "0"@,
            presence_penalty: "0"@,
            repeat_penalty: "1"@,
            chat_template_kwargs: None,
            stop: None,
            timings_per_token: false,
            n_probs: None,
        }
    }

    /// The request with an effort of reasoning. Options that are no object are left.
    pub open spec fn with_effort(self, word: Seq<char>) -> RequestV {
        RequestV {
            chat_template_kwargs: match self.chat_template_kwargs {
                None => Some(JsonV::Object(with_effort(Seq::empty(), word))),
                Some(JsonV::Object(m)) => Some(JsonV::Object(with_effort(m, word))),
                Some(other) => Some(other),
            },
            ..self
        }
    }

    /// The request with the sampling of a profile.
    pub open spec fn with_sampling(self, s: SamplingV) -> RequestV {
        RequestV {
            temperature: s.temperature,
            top_p: s.top_p,
            top_k: s.top_k,
            min_p: s.min_p,
            presence_penalty: s.presence_penalty,
            repeat_penalty: s.repeat_penalty,
            ..self
        }
    }

    /// What is sent, its members in a fixed order.
    pub open spec fn value(self) -> JsonV {
        JsonV::Object(
            seq![("model"@, JsonV::Str(self.model)), ("messages"@, JsonV::Array(self.messages))] + maybe(
                "tools"@,
                self.tools,
            ) + maybe("tool_choice"@, self.tool_choice) + maybe("response_format"@, self.response_format) + seq![
                ("stream"@, JsonV::Bool(self.stream)),
            ] + maybe("cache_prompt"@, opt_flag(self.cache_prompt)) + maybe("id_slot"@, opt_i32(self.id_slot)) + maybe(
                "max_tokens"@,
                opt_u32(self.max_tokens),
            ) + sampling_members(self) + maybe("chat_template_kwargs"@, self.chat_template_kwargs) + maybe(
                "stop"@,
                opt_texts(self.stop),
            ) + maybe(
                "timings_per_token"@,
                if self.timings_per_token {
                    Some(JsonV::Bool(true))
                } else {
                    None
                },
            ) + maybe("n_probs"@, opt_u32(self.n_probs)),
        )
    }
}

pub open spec fn sampling_members(q: RequestV) -> Seq<(Seq<char>, JsonV)> {
    seq![
        ("temperature"@, json_fraction(q.temperature)),
        ("top_p"@, json_fraction(q.top_p)),
        ("top_k"@, json_nat(q.top_k as u64)),
        ("min_p"@, json_fraction(q.min_p)),
        ("presence_penalty"@, json_fraction(q.presence_penalty)),
        ("repeat_penalty"@, json_fraction(q.repeat_penalty)),
    ]
}

pub open spec fn opt_flag(v: Option<bool>) -> Option<JsonV> {
    match v {
        Some(b) => Some(JsonV::Bool(b)),
        None => None,
    }
}

pub open spec fn opt_i32(v: Option<i32>) -> Option<JsonV> {
    match v {
        Some(n) => Some(json_int(n as i64)),
        None => None,
    }
}

pub open spec fn opt_u32(v: Option<u32>) -> Option<JsonV> {
    match v {
        Some(n) => Some(json_nat(n as u64)),
        None => None,
    }
}

pub open spec fn opt_texts(v: Option<Seq<Seq<char>>>) -> Option<JsonV> {
    match v {
        Some(l) => Some(JsonV::Array(text_values(l))),
        None => None,
    }
}

fn extend(a: &mut Vec<(String, Json)>, more: Vec<(String, Json)>)
    ensures
        members(final(a)@) == members(old(a)@) + members(more@),
{
    let mut m = more;
    let ghost x = a@;
    let ghost y = m@;
    a.append(&mut m);
    assert(members(a@) =~= members(x) + members(y));
}

fn one_member(key: &str, v: Json) -> (r: Vec<(String, Json)>)
    ensures
        members(r@) == seq![(key@, v@)],
{
    let r = vec![(key.to_owned(), v)];
    assert(members(r@) =~= seq![(key@, v@)]);
    r
}

fn no_member() -> (r: Vec<(String, Json)>)
    ensures
        members(r@) == Seq::<(Seq<char>, JsonV)>::empty(),
{
    let r: Vec<(String, Json)> = Vec::new();
    assert(members(r@) =~= Seq::<(Seq<char>, JsonV)>::empty());
    r
}

fn maybe_value(key: &str, v: &Option<Json>) -> (r: Vec<(String, Json)>)
    ensures
        members(r@) == maybe(key@, opt_json(*v)),
{
    match v {
        Some(j) => one_member(key, j.copy()),
        None => no_member(),
    }
}

fn maybe_number(key: &str, v: Option<u32>) -> (r: Vec<(String, Json)>)
    ensures
        members(r@) == maybe(key@, opt_u32(v)),
{
    match v {
        Some(n) => one_member(key, Json::Number(Number::PosInt(n as u64))),
        None => no_member(),
    }
}

fn maybe_flag(key: &str, v: Option<bool>) -> (r: Vec<(String, Json)>)
    ensures
        members(r@) == maybe(key@, opt_flag(v)),
{
    match v {
        Some(b) => one_member(key, Json::Bool(b)),
        None => no_member(),
    }
}

fn maybe_slot(v: Option<i32>) -> (r: Vec<(String, Json)>)
    ensures
        members(r@) == maybe("id_slot"@, opt_i32(v)),
{
    match v {
        Some(n) => if n >= 0 {
            one_member("id_slot", Json::Number(Number::PosInt(n as u64)))
        } else {
            one_member("id_slot", Json::Number(Number::NegInt(n as i64)))
        },
        None => no_member(),
    }
}

fn maybe_texts(v: &Option<Vec<String>>) -> (r: Vec<(String, Json)>)
    ensures
        members(r@) == maybe("stop"@, opt_texts(opt_strings(*v))),
{
    match v {
        Some(l) => {
            let mut a: Vec<Json> = Vec::new();
            let mut i: usize = 0;
            let ghost want = text_values(strings(l@));
            while i < l.len()
                invariant
                    i <= l.len(),
                    want == text_values(strings(l@)),
                    jsons(a@) == want.take(i as int),
                decreases l.len() - i,
            {
                let ghost b = a@;
                a.push(Json::Str(l[i].clone()));
                assert(jsons(a@) =~= jsons(b).push(want[i as int]));
                i += 1;
            }
            assert(jsons(a@) =~= want);
            one_member("stop", array(a))
        },
        None => no_member(),
    }
}

fn fraction(text: &String) -> (r: Json)
    ensures
        r@ == json_fraction(text@),
{
    Json::Number(Number::Float(text.clone()))
}

impl ChatRequest {
    /// A request with the usual settings.
    pub fn new(model: &str, messages: Vec<Json>) -> (r: ChatRequest)
        ensures
            r@ == RequestV::fresh(model@, jsons(messages@)),
    {
        ChatRequest {
            model: model.to_owned(),
            messages,
            tools: None,
            tool_choice: None,
            response_format: None,
            stream: true,
            cache_prompt: Some(true),
            id_slot: Some(0),
            max_tokens: None,
            temperature: "0.6".to_owned(),
            top_p: "0.95".to_owned(),
            top_k: 20,
            min_p: "0".to_owned(),
            presence_penalty: "0".to_owned(),
            repeat_penalty: "1".to_owned(),
            chat_template_kwargs: None,
            stop: None,
            timings_per_token: false,
            n_probs: None,
        }
    }

    /// The request with an effort of reasoning.
    pub fn reasoning_effort(self, effort: &str) -> (r: ChatRequest)
        ensures
            r@ == self@.with_effort(effort@),
    {
        let mut q = self;
        let kw = match q.chat_template_kwargs {
            Some(k) => k,
            None => object(no_member()),
        };
        proof {
            lemma_view(kw);
        }
        let ghost kv = kw@;
        let done = match kw {
            Json::Object(m) => {
                let mut m2 = m;
                let (word, thinks) = effort_word(effort);
                set_member(&mut m2, "reasoning_effort", text_value(word));
                if !thinks {
                    set_member(&mut m2, "enable_thinking", Json::Bool(false));
                }
                object(m2)
            },
            other => other,
        };
        q.chat_template_kwargs = Some(done);
        q
    }

    /// The request with the sampling of a profile.
    pub fn sampling(self, s: &Sampling) -> (r: ChatRequest)
        ensures
            r@ == self@.with_sampling(s@),
    {
        let mut q = self;
        q.temperature = s.temperature.clone();
        q.top_p = s.top_p.clone();
        q.top_k = s.top_k;
        q.min_p = s.min_p.clone();
        q.presence_penalty = s.presence_penalty.clone();
        q.repeat_penalty = s.repeat_penalty.clone();
        q
    }

    fn sampling_list(&self) -> (r: Vec<(String, Json)>)
        ensures
            members(r@) == sampling_members(self@),
    {
        let r = vec![
            ("temperature".to_owned(), fraction(&self.temperature)),
            ("top_p".to_owned(), fraction(&self.top_p)),
            ("top_k".to_owned(), Json::Number(Number::PosInt(self.top_k as u64))),
            ("min_p".to_owned(), fraction(&self.min_p)),
            ("presence_penalty".to_owned(), fraction(&self.presence_penalty)),
            ("repeat_penalty".to_owned(), fraction(&self.repeat_penalty)),
        ];
        assert(members(r@) =~= sampling_members(self@));
        r
    }

    fn first_members(&self) -> (r: Vec<(String, Json)>)
        ensures
            members(r@) == seq![("model"@, JsonV::Str(self@.model)), ("messages"@, JsonV::Array(self@.messages))],
    {
        let ms = copy_items(&self.messages);
        let r = vec![("model".to_owned(), text_value(self.model.as_str())), ("messages".to_owned(), array(ms))];
        assert(members(r@) =~= seq![("model"@, JsonV::Str(self@.model)), ("messages"@, JsonV::Array(self@.messages))]);
        r
    }

    /// What is sent.
    pub fn to_value(&self) -> (r: Json)
        ensures
            r@ == self@.value(),
    {
        let mut m = self.first_members();
        extend(&mut m, maybe_value("tools", &self.tools));
        extend(&mut m, maybe_value("tool_choice", &self.tool_choice));
        extend(&mut m, maybe_value("response_format", &self.response_format));
        extend(&mut m, one_member("stream", Json::Bool(self.stream)));
        extend(&mut m, maybe_flag("cache_prompt", self.cache_prompt));
        extend(&mut m, maybe_slot(self.id_slot));
        extend(&mut m, maybe_number("max_tokens", self.max_tokens));
        extend(&mut m, self.sampling_list());
        extend(&mut m, maybe_value("chat_template_kwargs", &self.chat_template_kwargs));
        extend(&mut m, maybe_texts(&self.stop));
        let timings = if self.timings_per_token {
            one_member("timings_per_token", Json::Bool(true))
        } else {
            no_member()
        };
        extend(&mut m, timings);
        extend(&mut m, maybe_number("n_probs", self.n_probs));
        object(m)
    }
}

fn copy_items(v: &Vec<Json>) -> (r: Vec<Json>)
    ensures
        jsons(r@) == jsons(v@),
{
    let mut out: Vec<Json> = Vec::new();
    let mut i: usize = 0;
    while i < v.len()
        invariant
            i <= v.len(),
            jsons(out@) == jsons(v@).take(i as int),
        decreases v.len() - i,
    {
        let ghost b = out@;
        out.push(v[i].copy());
        assert(jsons(out@) =~= jsons(b).push(v@[i as int]@));
        i += 1;
    }
    assert(jsons(out@) =~= jsons(v@));
    out
}

fn effort_word(word: &str) -> (r: (&'static str, bool))
    ensures
        (r.0@, r.1) == effort_of(word@),
{
    if str_eq(word, "none") || str_eq(word, "off") {
        ("medium", false)
    } else if str_eq(word, "xhigh") || str_eq(word, "max") || str_eq(word, "high") {
        ("xhigh", true)
    } else if str_eq(word, "low") {
        ("low", true)
    } else {
        ("medium", true)
    }
}

/// A request without thinking differs from one of medium effort in nothing but the
/// switch for thinking, so the text before the answer stays the same.
pub proof fn law_no_thinking_is_medium_effort(q: RequestV)
    requires
        q.chat_template_kwargs is None,
    ensures
        ({
            let none = q.with_effort("none"@).chat_template_kwargs->Some_0;
            let medium = q.with_effort("medium"@).chat_template_kwargs->Some_0;
            &&& none.get("reasoning_effort"@) == medium.get("reasoning_effort"@)
            &&& none.get("reasoning_effort"@) == Some(JsonV::Str("medium"@))
            &&& none.get("enable_thinking"@) == Some(JsonV::Bool(false))
            &&& medium.get("enable_thinking"@) is None
        }),
{
    reveal_strlit("none");
    reveal_strlit("medium");
    reveal_strlit("off");
    reveal_strlit("xhigh");
    reveal_strlit("max");
    reveal_strlit("high");
    reveal_strlit("low");
    reveal_strlit("reasoning_effort");
    reveal_strlit("enable_thinking");
    assert("medium"@ != "none"@ && "medium"@ != "off"@ && "medium"@ != "max"@ && "medium"@ != "xhigh"@ && "medium"@
        != "high"@ && "medium"@ != "low"@) by {
        assert("medium"@.len() == 6);
    }
    let e = Seq::<(Seq<char>, JsonV)>::empty();
    let a = with_member(e, "reasoning_effort"@, JsonV::Str("medium"@));
    assert("reasoning_effort"@.len() == 16);
    assert("enable_thinking"@.len() == 15);
    reveal_with_fuel(member_index, 3);
    reveal_with_fuel(member, 3);
    assert(a =~= seq![("reasoning_effort"@, JsonV::Str("medium"@))]);
    let b = with_member(a, "enable_thinking"@, JsonV::Bool(false));
    assert(b =~= a.push(("enable_thinking"@, JsonV::Bool(false))));
}

// ---------------------------------------------------------------- addresses

/// Where the server is, and the key that is sent to it.
#[derive(Debug)]
pub struct LlamaClient {
    base: String,
    api_key: Option<String>,
}

impl LlamaClient {
    pub closed spec fn base(self) -> Seq<char> {
        self.base@
    }

    pub closed spec fn key(self) -> Option<Seq<char>> {
        opt_string(self.api_key)
    }

    pub fn new(base_url: &str) -> (r: LlamaClient)
        ensures
            r.base() == without_slashes(base_url@),
            r.key() is None,
    {
        LlamaClient::with_api_key(base_url, None)
    }

    pub fn with_api_key(base_url: &str, api_key: Option<String>) -> (r: LlamaClient)
        ensures
            r.base() == without_slashes(base_url@),
            r.key() == opt_string(api_key),
    {
        LlamaClient { base: trim_slashes(base_url), api_key }
    }

    pub fn base_url(&self) -> (r: &str)
        ensures
            r@ == self.base(),
    {
        self.base.as_str()
    }

    /// What is sent in the `Authorization` header.
    pub fn auth_header(&self) -> (r: Option<String>)
        ensures
            opt_string(r) == (match self.key() {
                Some(k) => Some("Bearer "@ + k),
                None => None,
            }),
    {
        match &self.api_key {
            Some(k) => Some("Bearer ".to_owned().concat(k.as_str())),
            None => None,
        }
    }

    /// An address of the server's own interface.
    pub fn url(&self, path: &str) -> (r: String)
        ensures
            r@ == self.base() + path@,
    {
        self.base.clone().concat(path)
    }

    /// An address of the common interface; the version is put in where the base does not
    /// end with it.
    pub fn api_url(&self, path: &str) -> (r: String)
        ensures
            r@ == api_address(self.base(), path@),
    {
        if ends_with(self.base.as_str(), "/v1") {
            self.base.clone().concat(path)
        } else {
            self.base.clone().concat("/v1").concat(path)
        }
    }

    /// The address of an action on a slot.
    pub fn slot_url(&self, id: u32, action: &str) -> (r: String)
        ensures
            r@ == self.base() + "/slots/"@ + dec(id as nat) + "?action="@ + action@,
    {
        self.base.clone().concat("/slots/").concat(dec_u64(id as u64).as_str()).concat("?action=").concat(action)
    }
}

pub open spec fn api_address(base: Seq<char>, path: Seq<char>) -> Seq<char> {
    if ends(base, "/v1"@) {
        base + path
    } else {
        base + "/v1"@ + path
    }
}

// ---------------------------------------------------------------- replies

/// Whether a good reply of `/health` comes from a server that has that address: no text
/// counts as good, one that speaks of an error does not.
pub fn is_healthy_reply(text: Option<&str>) -> (r: bool)
    ensures
        r == (match text {
            Some(t) => !holds(t@, "Unexpected endpoint"@) && !holds(t@, "\"error\""@),
            None => true,
        }),
{
    match text {
        Some(t) => !contains(t, "Unexpected endpoint") && !contains(t, "\"error\""),
        None => true,
    }
}

/// The body of a request to count tokens.
pub fn tokenize_body(content: &str) -> (r: Json)
    ensures
        r@ == JsonV::Object(
            seq![
                ("content"@, JsonV::Str(content@)),
                ("add_special"@, JsonV::Bool(false)),
                ("with_pieces"@, JsonV::Bool(false)),
            ],
        ),
{
    let m = vec![
        ("content".to_owned(), text_value(content)),
        ("add_special".to_owned(), Json::Bool(false)),
        ("with_pieces".to_owned(), Json::Bool(false)),
    ];
    assert(members(m@) =~= seq![
        ("content"@, JsonV::Str(content@)),
        ("add_special"@, JsonV::Bool(false)),
        ("with_pieces"@, JsonV::Bool(false)),
    ]);
    object(m)
}

/// The tokens that a reply counts; none where it has no list of them.
pub open spec fn tokens_in(v: JsonV) -> nat {
    match v.get("tokens"@) {
        Some(JsonV::Array(a)) => a.len(),
        _ => 0,
    }
}

pub fn token_count(v: &Json) -> (r: u32)
    ensures
        r == tokens_in(v@) as u32,
{
    match v.get("tokens") {
        Some(t) => {
            proof {
                lemma_view(*t);
            }
            match t {
                Json::Array(a) => a.len() as u32,
                _ => 0,
            }
        },
        None => 0,
    }
}

/// The body of a request to render a template.
pub fn template_body(messages: &Vec<Json>, tools: &Option<Json>, kwargs: &Option<Json>) -> (r: Json)
    ensures
        r@ == JsonV::Object(
            seq![("messages"@, JsonV::Array(jsons(messages@)))] + maybe("tools"@, opt_json(*tools)) + maybe(
                "chat_template_kwargs"@,
                opt_json(*kwargs),
            ),
        ),
{
    let mut m = one_member("messages", array(copy_items(messages)));
    extend(&mut m, maybe_value("tools", tools));
    extend(&mut m, maybe_value("chat_template_kwargs", kwargs));
    object(m)
}

/// The rendered text of a reply; none where it has none.
pub fn rendered_prompt(v: &Json) -> (r: String)
    ensures
        r@ == (match v@.get_str("prompt"@) {
            Some(s) => s,
            None => Seq::empty(),
        }),
{
    match v.get_str("prompt") {
        Some(s) => s.to_owned(),
        None => String::new(),
    }
}

/// The body of an action on a slot.
pub fn slot_body(filename: Option<&str>) -> (r: Json)
    ensures
        r@ == JsonV::Object(
            maybe(
                "filename"@,
                match filename {
                    Some(f) => Some(JsonV::Str(f@)),
                    None => None,
                },
            ),
        ),
{
    match filename {
        Some(f) => object(one_member("filename", text_value(f))),
        None => object(no_member()),
    }
}

/// What is said of an action on a slot that failed.
pub fn slot_error(action: &str, status: &str, reply: &Json) -> (r: String)
    ensures
        r@ == "slot "@ + action@ + " failed ("@ + status@ + "): "@ + text_of(reply@),
{
    "slot ".to_owned().concat(action).concat(" failed (").concat(status).concat("): ").concat(
        reply.to_text().as_str(),
    )
}

/// What is said of a chat request that failed: the status and the start of the reply.
pub fn chat_error(status: &str, body: &str) -> (r: String)
    ensures
        r@ == "chat completion failed ("@ + status@ + "): "@ + first_chars(body@, 2000),
{
    "chat completion failed (".to_owned().concat(status).concat("): ").concat(take_chars(body, 2000).as_str())
}

/// What the server says of itself.
#[derive(Debug)]
pub struct ServerProps {
    pub model_path: String,
    pub total_slots: u32,
    pub chat_template: String,
    pub default_generation_settings: Json,
    pub build_info: String,
}

impl ServerProps {
    /// The size of its context; zero where it does not say.
    pub fn n_ctx(&self) -> (r: u32)
        ensures
            r == (match self.default_generation_settings@.get("n_ctx"@) {
                Some(v) => match v.u64() {
                    Some(n) => n as u32,
                    None => 0,
                },
                None => 0,
            }),
    {
        match self.default_generation_settings.get("n_ctx") {
            Some(v) => match v.as_u64() {
                Some(n) => n as u32,
                None => 0,
            },
            None => 0,
        }
    }
}

impl Default for ServerProps {
    fn default() -> (r: ServerProps)
        ensures
            r.model_path@.len() == 0,
            r.total_slots == 0,
            r.chat_template@.len() == 0,
            r.default_generation_settings == Json::Null,
            r.build_info@.len() == 0,
    {
        ServerProps {
            model_path: String::new(),
            total_slots: 0,
            chat_template: String::new(),
            default_generation_settings: Json::Null,
            build_info: String::new(),
        }
    }
}

// ---------------------------------------------------------------- properties

pub struct PropsV {
    pub model_path: Seq<char>,
    pub total_slots: u32,
    pub chat_template: Seq<char>,
    pub default_generation_settings: JsonV,
    pub build_info: Seq<char>,
}

impl View for ServerProps {
    type V = PropsV;

    open spec fn view(&self) -> PropsV {
        PropsV {
            model_path: self.model_path@,
            total_slots: self.total_slots,
            chat_template: self.chat_template@,
            default_generation_settings: self.default_generation_settings@,
            build_info: self.build_info@,
        }
    }
}

impl PropsV {
    /// What is known of a server that says nothing.
    pub open spec fn unknown() -> PropsV {
        PropsV {
            model_path: Seq::empty(),
            total_slots: 0,
            chat_template: Seq::empty(),
            default_generation_settings: JsonV::Null,
            build_info: Seq::empty(),
        }
    }

    pub open spec fn ctx(self) -> u32 {
        match self.default_generation_settings.get("n_ctx"@) {
            Some(v) => match v.u64() {
                Some(n) => n as u32,
                None => 0,
            },
            None => 0,
        }
    }
}

/// A text, empty where there is none; none where what is there is no text.
pub open spec fn text_field(f: Option<JsonV>) -> Option<Seq<char>> {
    match f {
        None => Some(Seq::empty()),
        Some(j) => j.str(),
    }
}

/// A count, zero where there is none; none where what is there is no count.
pub open spec fn count_field(f: Option<JsonV>) -> Option<u32> {
    match f {
        None => Some(0),
        Some(j) => match j.u64() {
            Some(n) => if n <= u32::MAX {
                Some(n as u32)
            } else {
                None
            },
            None => None,
        },
    }
}

/// The properties that a document holds; a document of another shape holds none. An array
/// gives the fields by their place.
pub open spec fn props_in_value(v: JsonV) -> PropsV {
    match (
        text_field(field(v, "model_path"@, 0)),
        count_field(field(v, "total_slots"@, 1)),
        text_field(field(v, "chat_template"@, 2)),
        text_field(field(v, "build_info"@, 4)),
    ) {
        (Some(model_path), Some(total_slots), Some(chat_template), Some(build_info)) => if is_record(v, 5) {
            PropsV {
                model_path,
                total_slots,
                chat_template,
                default_generation_settings: match field(v, "default_generation_settings"@, 3) {
                    Some(j) => j,
                    None => JsonV::Null,
                },
                build_info,
            }
        } else {
            PropsV::unknown()
        },
        _ => PropsV::unknown(),
    }
}

pub open spec fn props_in(text: Seq<char>) -> PropsV {
    match parsed(text) {
        Ok(v) => props_in_value(v),
        Err(_) => PropsV::unknown(),
    }
}

fn read_text_field(f: Option<&Json>) -> (r: Option<String>)
    ensures
        opt_string(r) == text_field(opt_view(f)),
{
    match f {
        None => {
            let e = String::new();
            assert(e@ =~= Seq::empty());
            Some(e)
        },
        Some(j) => match j.as_str() {
            Some(t) => Some(t.to_owned()),
            None => None,
        },
    }
}

fn read_count_field(f: Option<&Json>) -> (r: Option<u32>)
    ensures
        r == count_field(opt_view(f)),
{
    match f {
        None => Some(0),
        Some(j) => match j.as_u64() {
            Some(n) => if n <= 0xffff_ffff {
                Some(n as u32)
            } else {
                None
            },
            None => None,
        },
    }
}

impl ServerProps {
    /// Reads the reply of `/props`.
    pub fn read(text: &str) -> (r: ServerProps)
        ensures
            r@ == props_in(text@),
    {
        if let Ok(v) = Json::parse(text) {
            let found = (
                read_text_field(get_field(&v, "model_path", 0)),
                read_count_field(get_field(&v, "total_slots", 1)),
                read_text_field(get_field(&v, "chat_template", 2)),
                read_text_field(get_field(&v, "build_info", 4)),
                has_fields(&v, 5),
            );
            if let (Some(model_path), Some(total_slots), Some(chat_template), Some(build_info), true) = found {
                let default_generation_settings = match get_field(&v, "default_generation_settings", 3) {
                    Some(j) => j.copy(),
                    None => Json::Null,
                };
                proof {
                    lemma_view(Json::Null);
                }
                return ServerProps {
                    model_path,
                    total_slots,
                    chat_template,
                    default_generation_settings,
                    build_info,
                };
            }
        }
        let r = ServerProps::default();
        proof {
            lemma_view(Json::Null);
            assert(r.model_path@ =~= Seq::empty());
            assert(r.chat_template@ =~= Seq::empty());
            assert(r.build_info@ =~= Seq::empty());
        }
        r
    }

    /// What is shown of it: only what it says.
    pub fn lines(&self) -> (r: Vec<String>)
        ensures
            strings(r@) == shown_props(self@),
    {
        let mut out: Vec<String> = Vec::new();
        assert(strings(out@) =~= Seq::empty());
        if !self.model_path.as_str().is_empty() {
            push_text(&mut out, "  model   : ".to_owned().concat(self.model_path.as_str()));
        }
        let n = self.n_ctx();
        if n > 0 {
            push_text(&mut out, "  n_ctx   : ".to_owned().concat(dec_u64(n as u64).as_str()));
        }
        if self.total_slots > 0 {
            push_text(&mut out, "  slots   : ".to_owned().concat(dec_u64(self.total_slots as u64).as_str()));
        }
        if !self.build_info.as_str().is_empty() {
            push_text(&mut out, "  build   : ".to_owned().concat(self.build_info.as_str()));
        }
        assert(strings(out@) =~= shown_props(self@));
        out
    }
}

fn push_text(v: &mut Vec<String>, s: String)
    ensures
        strings(final(v)@) == strings(old(v)@).push(s@),
{
    let ghost b = v@;
    v.push(s);
    assert(strings(v@) =~= strings(b).push(s@));
}

/// A line, where there is something to say.
pub open spec fn line_if(cond: bool, line: Seq<char>) -> Seq<Seq<char>> {
    if cond {
        seq![line]
    } else {
        Seq::empty()
    }
}

pub open spec fn shown_props(p: PropsV) -> Seq<Seq<char>> {
    line_if(p.model_path.len() > 0, "  model   : "@ + p.model_path) + line_if(
        p.ctx() > 0,
        "  n_ctx   : "@ + dec(p.ctx() as nat),
    ) + line_if(p.total_slots > 0, "  slots   : "@ + dec(p.total_slots as nat)) + line_if(
        p.build_info.len() > 0,
        "  build   : "@ + p.build_info,
    )
}

/// A word asks for an effort: `none` and `off` for medium effort without thinking; `high`,
/// `xhigh` and `max` for the highest; `low` for the lowest; any other for medium effort. The
/// other options are left.
#[verifier::rlimit(40)]
pub proof fn law_a_word_asks_for_an_effort(q: RequestV, word: Seq<char>)
    requires
        q.chat_template_kwargs is None || q.chat_template_kwargs->Some_0 is Object,
    ensures
        ({
            let k = q.with_effort(word).chat_template_kwargs->Some_0;
            let before = |key: Seq<char>| match q.chat_template_kwargs {
                Some(o) => o.get(key),
                None => None,
            };
            let off = word == "none"@ || word == "off"@;
            let high = word == "high"@ || word == "xhigh"@ || word == "max"@;
            let low = word == "low"@;
            &&& q.with_effort(word).chat_template_kwargs is Some
            &&& high && !off ==> k.get("reasoning_effort"@) == Some(JsonV::Str("xhigh"@))
            &&& low && !high && !off ==> k.get("reasoning_effort"@) == Some(JsonV::Str("low"@))
            &&& off || !low && !high ==> k.get("reasoning_effort"@) == Some(JsonV::Str("medium"@))
            &&& off ==> k.get("enable_thinking"@) == Some(JsonV::Bool(false))
            &&& !off ==> k.get("enable_thinking"@) == before("enable_thinking"@)
            &&& forall|key: Seq<char>|
                key != "enable_thinking"@ && key != "reasoning_effort"@ ==> #[trigger] k.get(key) == before(key)
        }),
{
    reveal_strlit("reasoning_effort");
    reveal_strlit("enable_thinking");
    assert("reasoning_effort"@.len() == 16);
    assert("enable_thinking"@.len() == 15);
    let m = match q.chat_template_kwargs {
        Some(JsonV::Object(m)) => m,
        _ => Seq::empty(),
    };
    let (effort, thinks) = effort_of(word);
    let n = with_member(m, "reasoning_effort"@, JsonV::Str(effort));
    assert forall|key: Seq<char>| #[trigger] member(n, key) == if key == "reasoning_effort"@ {
        Some(JsonV::Str(effort))
    } else {
        member(m, key)
    } by {
        lemma_member_set(m, "reasoning_effort"@, JsonV::Str(effort), key);
    }
    let w = with_member(n, "enable_thinking"@, JsonV::Bool(false));
    assert forall|key: Seq<char>| #[trigger] member(w, key) == if key == "enable_thinking"@ {
        Some(JsonV::Bool(false))
    } else {
        member(n, key)
    } by {
        lemma_member_set(n, "enable_thinking"@, JsonV::Bool(false), key);
    }
}

proof fn lemma_member_set(m: Seq<(Seq<char>, JsonV)>, key: Seq<char>, v: JsonV, other: Seq<char>)
    ensures
        member(with_member(m, key, v), other) == if other == key {
            Some(v)
        } else {
            member(m, other)
        },
{
    lemma_index_of_member(m, key, 0);
    let w = with_member(m, key, v);
    match member_index(m, key, 0) {
        Some(k) => {
            lemma_member_updated(m, k, key, v, other);
        },
        None => {
            lemma_member_pushed(m, key, v, other);
        },
    }
}

proof fn lemma_index_of_member(m: Seq<(Seq<char>, JsonV)>, key: Seq<char>, from: int)
    requires
        0 <= from,
    ensures
        match member_index(m, key, from) {
            Some(k) => from <= k < m.len() && m[k].0 == key && forall|j: int|
                from <= j < k ==> (#[trigger] m[j]).0 != key,
            None => forall|j: int| from <= j < m.len() ==> (#[trigger] m[j]).0 != key,
        },
    decreases m.len() - from,
{
    if from < m.len() && m[from].0 != key {
        lemma_index_of_member(m, key, from + 1);
    }
}

proof fn lemma_member_updated(m: Seq<(Seq<char>, JsonV)>, k: int, key: Seq<char>, v: JsonV, other: Seq<char>)
    requires
        0 <= k < m.len(),
        m[k].0 == key,
        forall|j: int| 0 <= j < k ==> (#[trigger] m[j]).0 != key,
    ensures
        member(m.update(k, (key, v)), other) == if other == key {
            Some(v)
        } else {
            member(m, other)
        },
    decreases m.len(),
{
    let w = m.update(k, (key, v));
    if k == 0 {
        assert(w.drop_first() =~= m.drop_first());
    } else {
        assert(w.drop_first() =~= m.drop_first().update(k - 1, (key, v)));
        assert(m.drop_first()[k - 1] == m[k]);
        assert forall|j: int| 0 <= j < k - 1 implies (#[trigger] m.drop_first()[j]).0 != key by {
            assert(m.drop_first()[j] == m[j + 1]);
        }
        lemma_member_updated(m.drop_first(), k - 1, key, v, other);
        assert(w[0] == m[0]);
    }
}

proof fn lemma_member_pushed(m: Seq<(Seq<char>, JsonV)>, key: Seq<char>, v: JsonV, other: Seq<char>)
    requires
        forall|j: int| 0 <= j < m.len() ==> (#[trigger] m[j]).0 != key,
    ensures
        member(m.push((key, v)), other) == if other == key {
            Some(v)
        } else {
            member(m, other)
        },
    decreases m.len(),
{
    let w = m.push((key, v));
    if m.len() == 0 {
        reveal_with_fuel(member, 2);
    } else {
        assert(w.drop_first() =~= m.drop_first().push((key, v)));
        assert forall|j: int| 0 <= j < m.drop_first().len() implies (#[trigger] m.drop_first()[j]).0 != key by {
            assert(m.drop_first()[j] == m[j + 1]);
        }
        lemma_member_pushed(m.drop_first(), key, v, other);
        assert(w[0] == m[0]);
    }
}

/// A request is sent with everything that it says: the model, the messages, the tools, the
/// slot, the sampling and the options.
#[verifier::rlimit(40)]
pub proof fn law_a_request_is_sent_whole(q: RequestV)
    ensures
        q.value() is Object,
        ({
            let o = q.value()->Object_0;
            &&& sends(o, "model"@, JsonV::Str(q.model))
            &&& sends(o, "messages"@, JsonV::Array(q.messages))
            &&& q.tools matches Some(v) ==> sends(o, "tools"@, v)
            &&& q.tool_choice matches Some(v) ==> sends(o, "tool_choice"@, v)
            &&& q.response_format matches Some(v) ==> sends(o, "response_format"@, v)
            &&& sends(o, "stream"@, JsonV::Bool(q.stream))
            &&& q.cache_prompt matches Some(v) ==> sends(o, "cache_prompt"@, JsonV::Bool(v))
            &&& q.id_slot matches Some(v) ==> sends(o, "id_slot"@, json_int(v as i64))
            &&& q.max_tokens matches Some(v) ==> sends(o, "max_tokens"@, json_nat(v as u64))
            &&& sends(o, "temperature"@, json_fraction(q.temperature))
            &&& sends(o, "top_p"@, json_fraction(q.top_p))
            &&& sends(o, "top_k"@, json_nat(q.top_k as u64))
            &&& sends(o, "min_p"@, json_fraction(q.min_p))
            &&& sends(o, "presence_penalty"@, json_fraction(q.presence_penalty))
            &&& sends(o, "repeat_penalty"@, json_fraction(q.repeat_penalty))
            &&& q.chat_template_kwargs matches Some(v) ==> sends(o, "chat_template_kwargs"@, v)
            &&& q.stop matches Some(l) ==> exists|a: Seq<JsonV>| #[trigger]
                sends(o, "stop"@, JsonV::Array(a)) && a.len() == l.len() && forall|i: int|
                    0 <= i < l.len() ==> #[trigger] a[i] == JsonV::Str(l[i])
            &&& q.timings_per_token ==> sends(o, "timings_per_token"@, JsonV::Bool(true))
            &&& q.n_probs matches Some(v) ==> sends(o, "n_probs"@, json_nat(v as u64))
        }),
{
    let t = if q.timings_per_token {
        Some(JsonV::Bool(true))
    } else {
        None
    };
    let a1 = seq![("model"@, JsonV::Str(q.model)), ("messages"@, JsonV::Array(q.messages))];
    lemma_sends(a1, 0);
    assert(sends(a1, "model"@, JsonV::Str(q.model)));
    lemma_sends(a1, 1);
    assert(sends(a1, "messages"@, JsonV::Array(q.messages)));
    let b1 = maybe("tools"@, q.tools);
    let b2 = maybe("tool_choice"@, q.tool_choice);
    let b3 = maybe("response_format"@, q.response_format);
    let b4 = seq![("stream"@, JsonV::Bool(q.stream))];
    let b5 = maybe("cache_prompt"@, opt_flag(q.cache_prompt));
    let b6 = maybe("id_slot"@, opt_i32(q.id_slot));
    let b7 = maybe("max_tokens"@, opt_u32(q.max_tokens));
    let b8 = sampling_members(q);
    let b9 = maybe("chat_template_kwargs"@, q.chat_template_kwargs);
    let c1 = maybe("stop"@, opt_texts(q.stop));
    let c2 = maybe("timings_per_token"@, t);
    let c3 = maybe("n_probs"@, opt_u32(q.n_probs));
    lemma_maybe("tools"@, q.tools);
    lemma_maybe("tool_choice"@, q.tool_choice);
    lemma_maybe("response_format"@, q.response_format);
    lemma_sends(b4, 0);
    assert(sends(b4, "stream"@, JsonV::Bool(q.stream)));
    lemma_maybe("cache_prompt"@, opt_flag(q.cache_prompt));
    lemma_maybe("id_slot"@, opt_i32(q.id_slot));
    lemma_maybe("max_tokens"@, opt_u32(q.max_tokens));
    lemma_sends(b8, 0);
    assert(sends(b8, "temperature"@, json_fraction(q.temperature)));
    lemma_sends(b8, 1);
    assert(sends(b8, "top_p"@, json_fraction(q.top_p)));
    lemma_sends(b8, 2);
    assert(sends(b8, "top_k"@, json_nat(q.top_k as u64)));
    lemma_sends(b8, 3);
    assert(sends(b8, "min_p"@, json_fraction(q.min_p)));
    lemma_sends(b8, 4);
    assert(sends(b8, "presence_penalty"@, json_fraction(q.presence_penalty)));
    lemma_sends(b8, 5);
    assert(sends(b8, "repeat_penalty"@, json_fraction(q.repeat_penalty)));
    lemma_maybe("chat_template_kwargs"@, q.chat_template_kwargs);
    lemma_maybe("stop"@, opt_texts(q.stop));
    lemma_maybe("timings_per_token"@, t);
    lemma_maybe("n_probs"@, opt_u32(q.n_probs));
    lemma_in_both(a1, b1);
    lemma_in_both(a1 + b1, b2);
    lemma_in_both(a1 + b1 + b2, b3);
    let d = a1 + b1 + b2 + b3;
    lemma_in_both(d, b4);
    lemma_in_both(d + b4, b5);
    lemma_in_both(d + b4 + b5, b6);
    lemma_in_both(d + b4 + b5 + b6, b7);
    let e = d + b4 + b5 + b6 + b7;
    lemma_in_both(e, b8);
    lemma_in_both(e + b8, b9);
    lemma_in_both(e + b8 + b9, c1);
    lemma_in_both(e + b8 + b9 + c1, c2);
    lemma_in_both(e + b8 + b9 + c1 + c2, c3);
    assert(q.value() == JsonV::Object(e + b8 + b9 + c1 + c2 + c3));
    if let Some(l) = q.stop {
        assert(sends(c1, "stop"@, JsonV::Array(text_values(l))));
        assert(sends(e + b8 + b9 + c1 + c2 + c3, "stop"@, JsonV::Array(text_values(l))));
    }
}

/// An object holds a member.
#[verifier::opaque]
pub open spec fn sends(o: Seq<(Seq<char>, JsonV)>, key: Seq<char>, v: JsonV) -> bool {
    o.contains((key, v))
}

proof fn lemma_sends(o: Seq<(Seq<char>, JsonV)>, i: int)
    requires
        0 <= i < o.len(),
    ensures
        sends(o, o[i].0, o[i].1),
{
    reveal(sends);
    assert(o[i] == (o[i].0, o[i].1));
}

proof fn lemma_maybe(key: Seq<char>, v: Option<JsonV>)
    ensures
        v matches Some(x) ==> sends(maybe(key, v), key, x),
{
    if let Some(x) = v {
        lemma_sends(maybe(key, v), 0);
    }
}

proof fn lemma_in_both(a: Seq<(Seq<char>, JsonV)>, b: Seq<(Seq<char>, JsonV)>)
    ensures
        forall|k: Seq<char>, v: JsonV| #[trigger] sends(a, k, v) ==> sends(a + b, k, v),
        forall|k: Seq<char>, v: JsonV| #[trigger] sends(b, k, v) ==> sends(a + b, k, v),
{
    reveal(sends);
    assert forall|k: Seq<char>, v: JsonV| #[trigger] sends(a, k, v) implies sends(a + b, k, v) by {
        let i = choose|i: int| 0 <= i < a.len() && a[i] == (k, v);
        assert((a + b)[i] == (k, v));
    }
    assert forall|k: Seq<char>, v: JsonV| #[trigger] sends(b, k, v) implies sends(a + b, k, v) by {
        let i = choose|i: int| 0 <= i < b.len() && b[i] == (k, v);
        assert((a + b)[a.len() + i] == (k, v));
    }
}

/// What a server says of itself is read: its model, its slots, its template, its build and the
/// context of its settings; what it leaves out is empty.
pub proof fn law_properties_are_read(m: Seq<(Seq<char>, JsonV)>, path: Seq<char>, slots: u32, settings: JsonV)
    requires
        member(m, "model_path"@) == Some(JsonV::Str(path)),
        member(m, "total_slots"@) == Some(JsonV::Number(NumberV::PosInt(slots as u64))),
        member(m, "default_generation_settings"@) == Some(settings),
        member(m, "chat_template"@) is None || member(m, "chat_template"@)->Some_0 is Str,
        member(m, "build_info"@) is None || member(m, "build_info"@)->Some_0 is Str,
    ensures
        ({
            let p = props_in_value(JsonV::Object(m));
            &&& p.model_path == path
            &&& p.total_slots == slots
            &&& p.default_generation_settings == settings
            &&& member(m, "chat_template"@) matches Some(JsonV::Str(t)) ==> p.chat_template == t
            &&& member(m, "build_info"@) matches Some(JsonV::Str(t)) ==> p.build_info == t
            &&& settings.get("n_ctx"@) matches Some(JsonV::Number(NumberV::PosInt(n))) ==> (n <= u32::MAX ==> p.ctx() == n)
        }),
{
}

/// As many tokens are counted as the reply lists.
pub proof fn law_tokens_are_counted(v: JsonV, a: Seq<JsonV>)
    requires
        v.get("tokens"@) == Some(JsonV::Array(a)),
    ensures
        tokens_in(v) == a.len(),
{
}

/// An address of the interface has its version once, whether the server's address ends with it
/// or not.
pub proof fn law_the_version_stands_once(host: Seq<char>, path: Seq<char>)
    requires
        !ends(host, "/v1"@),
    ensures
        api_address(host, path) == host + "/v1"@ + path,
        api_address(host + "/v1"@, path) == host + "/v1"@ + path,
{
    let b = host + "/v1"@;
    assert(b.subrange(b.len() - "/v1"@.len(), b.len() as int) =~= "/v1"@);
    assert(ends(b, "/v1"@));
}

} // verus!
