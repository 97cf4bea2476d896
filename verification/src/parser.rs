//! Layered tool-call parser for local models.
//!
//! 1. the calls that the server parsed itself
//! 2. `<function=..>` and `<tool_call>{..}</tool_call>` blocks in the text
//! 3. fenced JSON objects
//! 4. a bare JSON object that ends the text
//! 5. a repair pass on any candidate that is no JSON
//! 6. correction of the tool's name

use crate::json::{
    Json, JsonV, Number, NumberV, find_member, gives, lacks, law_a_member_is_found, lemma_view,
    member, member_index, members, parsed, reads_as, text_of, text_value,
};
use crate::message::{ToolCall, ToolCallV, byte_len, bytes_in, calls_view, object, push_member};
use crate::search::{
    can_score, captures, captures_view, fuzzy_fits, fuzzy_ignore_case, regex_captures,
    regex_replaced, replace_all, score_ignore_case,
};
use crate::sse::{ToolCallAcc, ToolCallAccV, accs};
use crate::text::{
    begins, chars_of, dec, dec_u64, find_char, first_chars, integer, is_space, list_contains,
    lowered, pad_zeros, padded, parse_integer, replace, replace_chars, replaced, str_eq, string_of,
    string_of_range, strings, strip_prefix, strip_prefixes, strip_suffix, take_chars, to_lowered,
    trim, trim_end, trim_matches, trim_str, trimmed, trimmed_end, trimmed_start, with_char,
    without_ends, without_prefix, without_prefixes, without_suffix,
};
use vstd::prelude::*;
use vstd::string::*;

verus! {

#[derive(Debug, Clone, Copy, PartialEq, Eq, Structural)]
pub enum ParseSource {
    ServerNative,
    XmlTag,
    FencedJson,
    BareJson,
}

#[derive(Debug)]
pub struct ParsedCalls {
    pub calls: Vec<ToolCall>,
    pub source: ParseSource,
    pub repaired: bool,
    /// The text with the tool-call blocks removed, for display.
    pub leftover_text: String,
}

#[derive(Debug)]
pub enum ParseOutcome {
    Calls(ParsedCalls),
    NoCalls,
    Malformed { error: String, snippet: String },
}

pub enum OutcomeV {
    Calls { calls: Seq<ToolCallV>, source: ParseSource, repaired: bool, leftover_text: Seq<char> },
    NoCalls,
    Malformed { error: Seq<char>, snippet: Seq<char> },
}

impl View for ParseOutcome {
    type V = OutcomeV;

    open spec fn view(&self) -> OutcomeV {
        match self {
            ParseOutcome::Calls(c) => OutcomeV::Calls {
                calls: calls_view(c.calls@),
                source: c.source,
                repaired: c.repaired,
                leftover_text: c.leftover_text@,
            },
            ParseOutcome::NoCalls => OutcomeV::NoCalls,
            ParseOutcome::Malformed { error, snippet } => OutcomeV::Malformed { error: error@, snippet: snippet@ },
        }
    }
}

// ---------------------------------------------------------------- JSON repair

/// What a control character inside a string is written as.
pub open spec fn control_escape(c: char) -> Seq<char> {
    if c == '\n' {
        seq!['\\', 'n']
    } else if c == '\r' {
        seq!['\\', 'r']
    } else if c == '\t' {
        seq!['\\', 't']
    } else {
        seq![c]
    }
}

/// `s[i..]` with the control characters inside strings escaped. `in_str`: the place
/// is inside a string; `esc`: just behind a backslash there.
pub open spec fn escaped_from(s: Seq<char>, i: int, in_str: bool, esc: bool) -> Seq<char>
    decreases s.len() - i,
{
    if i < 0 || i >= s.len() {
        Seq::empty()
    } else {
        let c = s[i];
        if !in_str {
            seq![c] + escaped_from(s, i + 1, c == '"', esc)
        } else if esc {
            seq![c] + escaped_from(s, i + 1, true, false)
        } else if c == '\\' {
            seq![c] + escaped_from(s, i + 1, true, true)
        } else if c == '"' {
            seq![c] + escaped_from(s, i + 1, false, false)
        } else {
            control_escape(c) + escaped_from(s, i + 1, true, false)
        }
    }
}

/// Escapes raw line feeds, carriage returns and tabs inside strings.
pub fn escape_control_chars_in_strings(s: &Vec<char>) -> (r: Vec<char>)
    ensures
        r@ == escaped_from(s@, 0, false, false),
{
    let mut out: Vec<char> = Vec::new();
    let mut in_str = false;
    let mut esc = false;
    let mut i: usize = 0;
    assert(out@ + escaped_from(s@, 0, false, false) =~= escaped_from(s@, 0, false, false));
    while i < s.len()
        invariant
            i <= s.len(),
            escaped_from(s@, 0, false, false) == out@ + escaped_from(s@, i as int, in_str, esc),
        decreases s.len() - i,
    {
        let c = s[i];
        let ghost before = out@;
        let ghost (in0, esc0) = (in_str, esc);
        let ghost piece = if in_str && !esc && c != '\\' && c != '"' {
            control_escape(c)
        } else {
            seq![c]
        };
        if in_str {
            if esc {
                out.push(c);
                esc = false;
            } else if c == '\\' {
                out.push(c);
                esc = true;
            } else if c == '"' {
                out.push(c);
                in_str = false;
            } else if c == '\n' {
                out.push('\\');
                out.push('n');
            } else if c == '\r' {
                out.push('\\');
                out.push('r');
            } else if c == '\t' {
                out.push('\\');
                out.push('t');
            } else {
                out.push(c);
            }
        } else {
            if c == '"' {
                in_str = true;
            }
            out.push(c);
        }
        assert(out@ =~= before + piece);
        assert(escaped_from(s@, i as int, in0, esc0) == piece + escaped_from(s@, i + 1, in_str, esc));
        assert(before + (piece + escaped_from(s@, i + 1, in_str, esc)) =~= out@ + escaped_from(
            s@,
            i + 1,
            in_str,
            esc,
        ));
        i += 1;
    }
    assert(out@ + escaped_from(s@, i as int, in_str, esc) =~= out@);
    out
}

/// Where a scan of JSON text stands: the braces and brackets that are open, and
/// whether the place is inside a string and just behind a backslash.
pub struct Scan {
    pub braces: int,
    pub brackets: int,
    pub in_str: bool,
    pub esc: bool,
}

pub open spec fn scan_step(st: Scan, c: char) -> Scan {
    if st.esc {
        Scan { esc: false, ..st }
    } else if c == '\\' && st.in_str {
        Scan { esc: true, ..st }
    } else if c == '"' {
        Scan { in_str: !st.in_str, ..st }
    } else if st.in_str {
        st
    } else if c == '{' {
        Scan { braces: st.braces + 1, ..st }
    } else if c == '}' {
        Scan { braces: st.braces - 1, ..st }
    } else if c == '[' {
        Scan { brackets: st.brackets + 1, ..st }
    } else if c == ']' {
        Scan { brackets: st.brackets - 1, ..st }
    } else {
        st
    }
}

/// Where the scan of a text ends.
pub open spec fn scan(s: Seq<char>) -> Scan
    decreases s.len(),
{
    if s.len() == 0 {
        Scan { braces: 0, brackets: 0, in_str: false, esc: false }
    } else {
        scan_step(scan(s.drop_last()), s.last())
    }
}

/// `n` times the character `c`; none where `n` is negative.
pub open spec fn repeated(c: char, n: int) -> Seq<char> {
    Seq::new(
        if n > 0 {
            n as nat
        } else {
            0
        },
        |i: int| c,
    )
}

/// A text with the closers that its scan lacks: of the string, then of the
/// brackets, then of the braces.
pub open spec fn with_closers(s: Seq<char>) -> Seq<char> {
    let st = scan(s);
    s + (if st.in_str {
        seq!['"']
    } else {
        Seq::empty()
    }) + repeated(']', st.brackets) + repeated('}', st.braces)
}

fn push_repeated(out: &mut String, c: char, n: i128)
    ensures
        final(out)@ == old(out)@ + repeated(c, n as int),
{
    let mut i: i128 = 0;
    assert(repeated(c, 0) =~= Seq::<char>::empty());
    while i < n
        invariant
            0 <= i,
            i <= n || i == 0,
            out@ == old(out)@ + repeated(c, i as int),
        decreases n - i,
    {
        out.push(c);
        assert(repeated(c, i as int + 1) =~= repeated(c, i as int).push(c));
        i += 1;
    }
    assert(repeated(c, n as int) =~= repeated(c, i as int));
}

proof fn lemma_scan_closers(s: Seq<char>, c: char, n: int)
    requires
        c == ']' || c == '}',
        !scan(s).in_str,
        !scan(s).esc,
        n >= 0,
    ensures
        scan(s + repeated(c, n)) == (if c == ']' {
            Scan { brackets: scan(s).brackets - n, ..scan(s) }
        } else {
            Scan { braces: scan(s).braces - n, ..scan(s) }
        }),
    decreases n,
{
    let t = s + repeated(c, n);
    if n == 0 {
        assert(t =~= s);
    } else {
        lemma_scan_closers(s, c, n - 1);
        assert(t.drop_last() =~= s + repeated(c, n - 1));
        assert(t.last() == c);
    }
}

/// A text that does not end in a lone backslash within a string is complete once its
/// closers are added: no string, bracket or brace is open, and no closer is lacking any
/// more.
pub proof fn law_closed_text_is_complete(s: Seq<char>)
    requires
        !scan(s).esc,
    ensures
        !scan(with_closers(s)).in_str,
        scan(with_closers(s)).braces <= 0,
        scan(with_closers(s)).brackets <= 0,
        with_closers(with_closers(s)) == with_closers(s),
{
    let st = scan(s);
    let a = s + (if st.in_str {
        seq!['"']
    } else {
        Seq::empty()
    });
    if st.in_str {
        assert(a.drop_last() =~= s);
        assert(a.last() == '"');
    } else {
        assert(a =~= s);
    }
    assert(scan(a) == (Scan { in_str: false, ..st }));
    let nb = if st.brackets > 0 {
        st.brackets
    } else {
        0
    };
    let nc = if st.braces > 0 {
        st.braces
    } else {
        0
    };
    assert(repeated(']', st.brackets) =~= repeated(']', nb));
    assert(repeated('}', st.braces) =~= repeated('}', nc));
    lemma_scan_closers(a, ']', nb);
    lemma_scan_closers(a + repeated(']', nb), '}', nc);
    let w = with_closers(s);
    assert(w == a + repeated(']', nb) + repeated('}', nc));
    let again = scan(w);
    assert(repeated(']', again.brackets) =~= Seq::<char>::empty());
    assert(repeated('}', again.braces) =~= Seq::<char>::empty());
    assert(with_closers(w) =~= w);
}

/// Appends the closers that a JSON text lacks.
pub fn close_json(t: &str) -> (r: String)
    ensures
        r@ == with_closers(t@),
{
    let cs = chars_of(t);
    let mut braces: i128 = 0;
    let mut brackets: i128 = 0;
    let mut in_str = false;
    let mut esc = false;
    let mut i: usize = 0;
    while i < cs.len()
        invariant
            i <= cs.len(),
            -(i as int) <= braces <= i,
            -(i as int) <= brackets <= i,
            scan(cs@.take(i as int)) == (Scan { braces: braces as int, brackets: brackets as int, in_str, esc }),
        decreases cs.len() - i,
    {
        let c = cs[i];
        assert(cs@.take(i + 1).drop_last() =~= cs@.take(i as int));
        if esc {
            esc = false;
        } else if c == '\\' && in_str {
            esc = true;
        } else if c == '"' {
            in_str = !in_str;
        } else if !in_str {
            if c == '{' {
                braces += 1;
            } else if c == '}' {
                braces -= 1;
            } else if c == '[' {
                brackets += 1;
            } else if c == ']' {
                brackets -= 1;
            }
        }
        i += 1;
    }
    assert(cs@.take(cs@.len() as int) =~= cs@);
    let mut out = t.to_owned();
    if in_str {
        out.push('"');
    }
    push_repeated(&mut out, ']', brackets);
    push_repeated(&mut out, '}', braces);
    assert(out@ =~= with_closers(t@));
    out
}

/// A JSON text freed from code fences.
pub open spec fn unfenced(s: Seq<char>) -> Seq<char> {
    trimmed(without_suffix(without_prefix(without_prefix(trimmed(s), "```json"@), "```"@), "```"@))
}

/// Python's literals, where they stand as values, in JSON.
pub open spec fn with_json_literals(s: Seq<char>) -> Seq<char> {
    replaced(replaced(replaced(s, ": True"@, ": true"@), ": False"@, ": false"@), ": None"@, ": null"@)
}

/// Single quotes as double quotes, in a text that has none of the latter.
pub open spec fn with_double_quotes(s: Seq<char>) -> Seq<char> {
    if !s.contains('"') && s.contains('\'') {
        with_char(s, seq!['\''], '"')
    } else {
        s
    }
}

/// The part of the repair that comes before the removal of trailing commas.
pub open spec fn prepared(s: Seq<char>) -> Seq<char> {
    escaped_from(with_double_quotes(with_json_literals(unfenced(s))), 0, false, false)
}

/// A comma before a closer.
pub const TRAILING_COMMA: &'static str = r",\s*([}\]])";

/// A JSON text after the repair of the mistakes that small models make.
pub open spec fn repaired(s: Seq<char>) -> Seq<char> {
    with_closers(regex_replaced(TRAILING_COMMA@, prepared(s), "$1"@))
}

/// Removes fences, turns Python literals and single quotes into JSON, and escapes
/// control characters inside strings.
pub fn prepare_json(s: &str) -> (r: String)
    ensures
        r@ == prepared(s@),
{
    let t = trim(&chars_of(s));
    let t = strip_prefix(&t, "```json");
    let t = strip_prefix(&t, "```");
    let t = strip_suffix(&t, "```");
    let t = trim(&t);
    proof {
        reveal_strlit(": True");
        reveal_strlit(": False");
        reveal_strlit(": None");
    }
    let t = replace(&t, ": True", ": true");
    let t = replace(&t, ": False", ": false");
    let mut t = replace(&t, ": None", ": null");
    if find_char(&t, '"', 0).is_none() && find_char(&t, '\'', 0).is_some() {
        let mut q: Vec<char> = Vec::new();
        q.push('\'');
        assert(q@ =~= seq!['\'']);
        t = replace_chars(&t, &q, '"');
    }
    string_of(&escape_control_chars_in_strings(&t))
}

/// Repairs the mistakes that small models make in JSON.
pub fn repair_json(s: &str) -> (r: String)
    ensures
        r@ == repaired(s@),
{
    let t = prepare_json(s);
    let t = replace_all(TRAILING_COMMA, t.as_str(), "$1");
    close_json(t.as_str())
}

/// What a JSON text denotes: first as it stands, then after repair; the flag says
/// that it was repaired. A text of white space alone is an empty object.
pub open spec fn lenient(s: Seq<char>) -> Option<(JsonV, bool)> {
    let t = trimmed(s);
    if t.len() == 0 {
        Some((JsonV::Object(Seq::empty()), false))
    } else {
        match parsed(t) {
            Ok(v) => Some((v, false)),
            Err(_) => match parsed(repaired(t)) {
                Ok(v) => Some((v, true)),
                Err(_) => None,
            },
        }
    }
}

/// An object without members.
pub fn empty_object() -> (r: Json)
    ensures
        r@ == JsonV::Object(Seq::empty()),
{
    let m: Vec<(String, Json)> = Vec::new();
    assert(members(m@) =~= Seq::empty());
    object(m)
}

/// An optional value with its flag, by its view.
pub open spec fn lenient_view(r: Option<(Json, bool)>) -> Option<(JsonV, bool)> {
    match r {
        Some((v, b)) => Some((v@, b)),
        None => None,
    }
}

/// Strict parse, then a repair pass. Returns the value and whether it was repaired.
pub fn parse_json_lenient(s: &str) -> (r: Option<(Json, bool)>)
    ensures
        lenient_view(r) == lenient(s@),
{
    let t = trim_str(s);
    if t.as_str().is_empty() {
        return Some((empty_object(), false));
    }
    match Json::parse(t.as_str()) {
        Ok(v) => Some((v, false)),
        Err(_) => {
            let fixed = repair_json(t.as_str());
            match Json::parse(fixed.as_str()) {
                Ok(v) => Some((v, true)),
                Err(_) => None,
            }
        },
    }
}

// ---------------------------------------------------------------- bare objects

/// Walks from place `i` back to the brace that closes the open ones, strings
/// skipped: a quote that no backslash precedes opens or ends one.
pub open spec fn opening_brace(t: Seq<char>, i: int, depth: int, in_str: bool) -> Option<int>
    decreases i,
{
    if i <= 0 || i > t.len() {
        None
    } else {
        let k = i - 1;
        let c = t[k];
        if c == '"' && (k == 0 || t[k - 1] != '\\') {
            opening_brace(t, k, depth, !in_str)
        } else if in_str {
            opening_brace(t, k, depth, true)
        } else if c == '}' {
            opening_brace(t, k, depth + 1, false)
        } else if c == '{' {
            if depth == 1 {
                Some(k)
            } else {
                opening_brace(t, k, depth - 1, false)
            }
        } else {
            opening_brace(t, k, depth, false)
        }
    }
}

/// The object that ends a text.
pub open spec fn trailing_object(s: Seq<char>) -> Option<Seq<char>> {
    let t = trimmed_end(s);
    if t.len() > 0 && t.last() == '}' {
        match opening_brace(t, t.len() as int, 0, false) {
            Some(k) => Some(t.skip(k)),
            None => None,
        }
    } else {
        None
    }
}

/// Finds a JSON object that ends the text.
pub fn trailing_json_object(content: &str) -> (r: Option<String>)
    ensures
        match r {
            Some(s) => trailing_object(content@) == Some(s@),
            None => trailing_object(content@) is None,
        },
{
    let t = trim_end(&chars_of(content));
    if t.len() == 0 || t[t.len() - 1] != '}' {
        return None;
    }
    let mut depth: i128 = 0;
    let mut in_str = false;
    let mut i: usize = t.len();
    while i > 0
        invariant
            i <= t.len(),
            i - t.len() <= depth <= t.len() - i,
            opening_brace(t@, t@.len() as int, 0, false) == opening_brace(t@, i as int, depth as int, in_str),
            t@ == trimmed_end(content@),
            t@.len() > 0,
            t@.last() == '}',
        decreases i,
    {
        i -= 1;
        let c = t[i];
        if c == '"' && (i == 0 || t[i - 1] != '\\') {
            in_str = !in_str;
            continue;
        }
        if in_str {
            continue;
        }
        if c == '}' {
            depth += 1;
        } else if c == '{' {
            depth -= 1;
            if depth == 0 {
                let r = string_of_range(&t, i, t.len());
                assert(r@ =~= t@.skip(i as int));
                return Some(r);
            }
        }
    }
    None
}

// ---------------------------------------------------------------- candidates

/// `<tool_call>..</tool_call>`.
pub const XML_TAG: &'static str = r"(?s)<tool_call>\s*(.*?)\s*</tool_call>";

/// `<function=NAME>..</function>`.
pub const QWEN_FN: &'static str = r"(?s)<function=([A-Za-z0-9_.\-]+)>\s*(.*?)\s*</function>";

/// `<parameter=KEY>..</parameter>`.
pub const QWEN_PARAM: &'static str = r"(?s)<parameter=([A-Za-z0-9_.\-]+)>\s*(.*?)\s*</parameter>";

/// `<tool_call>{..` that is never closed.
pub const XML_OPEN_ONLY: &'static str = r"(?s)<tool_call>\s*(\{.*)$";

/// A fenced JSON object.
pub const FENCE: &'static str = r"(?s)```(?:json|tool_call|tool)?\s*(\{.*?\})\s*```";

/// Reasoning between tags.
pub const THINK_TAG: &'static str = r"(?s)<(?:think|thought)>\s*(.*?)\s*</(?:think|thought)>";

/// A parameter's value: an object, array, boolean or integer where it reads as one,
/// else a string.
pub open spec fn qwen_value(raw: Seq<char>) -> JsonV {
    let t = trimmed(raw);
    if t.len() > 0 && ((t[0] == '{' && t.last() == '}') || (t[0] == '[' && t.last() == ']')) {
        match parsed(t) {
            Ok(v) => v,
            Err(_) => JsonV::Str(raw),
        }
    } else if t == "true"@ {
        JsonV::Bool(true)
    } else if t == "false"@ {
        JsonV::Bool(false)
    } else {
        match integer(t) {
            Some(n) => if t[0] != '0' || t.len() == 1 {
                integer_value(n)
            } else {
                JsonV::Str(raw)
            },
            None => JsonV::Str(raw),
        }
    }
}

/// An integer as a JSON number.
pub open spec fn integer_value(n: int) -> JsonV {
    if n >= 0 {
        JsonV::Number(NumberV::PosInt(n as u64))
    } else {
        JsonV::Number(NumberV::NegInt(n as i64))
    }
}

/// Makes a JSON number out of an integer.
pub fn json_integer(n: i64) -> (r: Json)
    ensures
        r@ == integer_value(n as int),
{
    if n >= 0 {
        Json::Number(Number::PosInt(n as u64))
    } else {
        Json::Number(Number::NegInt(n))
    }
}

proof fn lemma_integer_nonempty(s: Seq<char>)
    requires
        integer(s) is Some,
    ensures
        s.len() > 0,
{
}

/// Reads a parameter's value.
pub fn read_qwen_value(raw: &str) -> (r: Json)
    ensures
        r@ == qwen_value(raw@),
{
    let t = trim(&chars_of(raw));
    if t.len() > 0 && ((t[0] == '{' && t[t.len() - 1] == '}') || (t[0] == '[' && t[t.len() - 1] == ']')) {
        let ts = string_of(&t);
        return match Json::parse(ts.as_str()) {
            Ok(v) => v,
            Err(_) => text_value(raw),
        };
    }
    let ts = string_of(&t);
    if str_eq(ts.as_str(), "true") {
        return Json::Bool(true);
    }
    if str_eq(ts.as_str(), "false") {
        return Json::Bool(false);
    }
    match parse_integer(&t) {
        Some(n) => {
            proof {
                lemma_integer_nonempty(t@);
            }
            if t[0] != '0' || t.len() == 1 {
                json_integer(n)
            } else {
                text_value(raw)
            }
        },
        None => text_value(raw),
    }
}

/// The members with `key` set: in its place where it is there, else at the end.
pub open spec fn with_member(m: Seq<(Seq<char>, JsonV)>, key: Seq<char>, v: JsonV) -> Seq<(Seq<char>, JsonV)> {
    match member_index(m, key, 0) {
        Some(k) => m.update(k, (key, v)),
        None => m.push((key, v)),
    }
}

/// Sets a member.
pub fn set_member(m: &mut Vec<(String, Json)>, key: &str, v: Json)
    ensures
        members(final(m)@) == with_member(members(old(m)@), key@, v@),
{
    match find_member(m, key) {
        Some(k) => {
            let ghost before = m@;
            m.set(k, (key.to_owned(), v));
            assert(members(m@) =~= members(before).update(k as int, (key@, v@)));
        },
        None => {
            push_member(m, key, v);
        },
    }
}

/// The arguments that a list of parameters gives: the first capture is the key, the
/// second the value; a later parameter of the same key replaces the earlier.
pub open spec fn qwen_arguments(params: Seq<Seq<Seq<char>>>) -> Seq<(Seq<char>, JsonV)>
    decreases params.len(),
{
    if params.len() == 0 {
        Seq::empty()
    } else {
        let p = params.last();
        with_member(qwen_arguments(params.drop_last()), group(p, 1), qwen_value(group(p, 2)))
    }
}

/// A capture group; empty where the match has none of that number.
pub open spec fn group(p: Seq<Seq<char>>, n: int) -> Seq<char> {
    if 0 <= n < p.len() {
        p[n]
    } else {
        Seq::empty()
    }
}

fn group_of(p: &Vec<String>, n: usize) -> (r: String)
    ensures
        r@ == group(strings(p@), n as int),
{
    if n < p.len() {
        p[n].clone()
    } else {
        String::new()
    }
}

/// The call object of a function block: its name and the arguments of its parameters.
pub open spec fn qwen_object(name: Seq<char>, params: Seq<Seq<Seq<char>>>) -> JsonV {
    JsonV::Object(seq![("name"@, JsonV::Str(name)), ("arguments"@, JsonV::Object(qwen_arguments(params)))])
}

/// Makes the call object of a function block out of its name and parameters.
pub fn qwen_call(name: &str, params: &Vec<Vec<String>>) -> (r: Json)
    ensures
        r@ == qwen_object(name@, captures_view(params@)),
{
    let mut args: Vec<(String, Json)> = Vec::new();
    let ghost pv = captures_view(params@);
    let mut i: usize = 0;
    assert(pv.take(0) =~= Seq::empty());
    assert(members(args@) =~= Seq::empty());
    while i < params.len()
        invariant
            i <= params.len(),
            pv == captures_view(params@),
            members(args@) == qwen_arguments(pv.take(i as int)),
        decreases params.len() - i,
    {
        assert(pv.take(i + 1).drop_last() =~= pv.take(i as int));
        assert(pv.take(i + 1).last() == strings(params@[i as int]@));
        let k = group_of(&params[i], 1);
        let raw = group_of(&params[i], 2);
        set_member(&mut args, k.as_str(), read_qwen_value(raw.as_str()));
        i += 1;
    }
    assert(pv.take(pv.len() as int) =~= pv);
    let ghost av = members(args@);
    let mut m: Vec<(String, Json)> = Vec::new();
    push_member(&mut m, "name", text_value(name));
    push_member(&mut m, "arguments", object(args));
    assert(members(m@) =~= seq![("name"@, JsonV::Str(name@)), ("arguments"@, JsonV::Object(av))]);
    object(m)
}

/// The call texts of the function blocks of a text.
pub open spec fn qwen_texts(content: Seq<char>) -> Seq<Seq<char>> {
    let found = regex_captures(QWEN_FN@, content);
    Seq::new(
        found.len(),
        |i: int|
            text_of(qwen_object(group(found[i], 1), regex_captures(QWEN_PARAM@, group(found[i], 2)))),
    )
}

/// The first group of each match.
pub open spec fn first_groups(found: Seq<Seq<Seq<char>>>) -> Seq<Seq<char>> {
    Seq::new(found.len(), |i: int| group(found[i], 1))
}

fn first_groups_of(found: &Vec<Vec<String>>) -> (r: Vec<String>)
    ensures
        strings(r@) == first_groups(captures_view(found@)),
{
    let mut out: Vec<String> = Vec::new();
    let mut i: usize = 0;
    while i < found.len()
        invariant
            i <= found.len(),
            strings(out@) == first_groups(captures_view(found@)).take(i as int),
        decreases found.len() - i,
    {
        let ghost before = out@;
        out.push(group_of(&found[i], 1));
        assert(captures_view(found@)[i as int] == strings(found@[i as int]@));
        assert(strings(out@) =~= strings(before).push(group(strings(found@[i as int]@), 1)));
        i += 1;
    }
    out
}

/// The candidates for calls, and where they were found: function blocks; else
/// closed blocks; else the first block that is never closed; else fenced objects;
/// else an object that ends the text.
pub open spec fn choose_candidates(
    functions: Seq<Seq<char>>,
    closed: Seq<Seq<char>>,
    open: Seq<Seq<char>>,
    fenced: Seq<Seq<char>>,
    bare: Option<Seq<char>>,
) -> (Seq<Seq<char>>, ParseSource) {
    if functions.len() > 0 {
        (functions, ParseSource::XmlTag)
    } else if closed.len() > 0 {
        (closed, ParseSource::XmlTag)
    } else if open.len() > 0 {
        (open.take(1), ParseSource::XmlTag)
    } else if fenced.len() > 0 {
        (fenced, ParseSource::FencedJson)
    } else {
        match bare {
            Some(b) => (seq![b], ParseSource::BareJson),
            None => (Seq::empty(), ParseSource::BareJson),
        }
    }
}

/// Picks the candidates out of what each search found.
pub fn pick_candidates(
    functions: Vec<String>,
    closed: Vec<String>,
    open: Vec<String>,
    fenced: Vec<String>,
    bare: Option<String>,
) -> (r: (Vec<String>, ParseSource))
    ensures
        (strings(r.0@), r.1) == choose_candidates(
            strings(functions@),
            strings(closed@),
            strings(open@),
            strings(fenced@),
            match bare {
                Some(b) => Some(b@),
                None => None,
            },
        ),
{
    if functions.len() > 0 {
        (functions, ParseSource::XmlTag)
    } else if closed.len() > 0 {
        (closed, ParseSource::XmlTag)
    } else if open.len() > 0 {
        let mut v: Vec<String> = Vec::new();
        v.push(open[0].clone());
        assert(strings(v@) =~= strings(open@).take(1));
        (v, ParseSource::XmlTag)
    } else if fenced.len() > 0 {
        (fenced, ParseSource::FencedJson)
    } else {
        let mut v: Vec<String> = Vec::new();
        match bare {
            Some(b) => {
                v.push(b);
                assert(strings(v@) =~= seq![b@]);
            },
            None => {
                assert(strings(v@) =~= Seq::empty());
            },
        }
        (v, ParseSource::BareJson)
    }
}

/// The candidates of a text, and where they were found.
pub open spec fn candidates(content: Seq<char>) -> (Seq<Seq<char>>, ParseSource) {
    choose_candidates(
        qwen_texts(content),
        first_groups(regex_captures(XML_TAG@, content)),
        first_groups(regex_captures(XML_OPEN_ONLY@, content)),
        first_groups(regex_captures(FENCE@, content)),
        trailing_object(content),
    )
}

fn find_candidates(content: &str) -> (r: (Vec<String>, ParseSource))
    ensures
        (strings(r.0@), r.1) == candidates(content@),
{
    let found = captures(QWEN_FN, content);
    let mut functions: Vec<String> = Vec::new();
    let mut i: usize = 0;
    let ghost fv = captures_view(found@);
    while i < found.len()
        invariant
            i <= found.len(),
            fv == captures_view(found@),
            fv == regex_captures(QWEN_FN@, content@),
            strings(functions@) == qwen_texts(content@).take(i as int),
        decreases found.len() - i,
    {
        let ghost before = functions@;
        let name = group_of(&found[i], 1);
        let body = group_of(&found[i], 2);
        assert(fv[i as int] == strings(found@[i as int]@));
        let params = captures(QWEN_PARAM, body.as_str());
        let text = qwen_call(name.as_str(), &params).to_text();
        functions.push(text);
        assert(strings(functions@) =~= strings(before).push(text@));
        assert(qwen_texts(content@)[i as int] == text@);
        i += 1;
    }
    assert(strings(functions@) =~= qwen_texts(content@));
    let closed = first_groups_of(&captures(XML_TAG, content));
    let open = first_groups_of(&captures(XML_OPEN_ONLY, content));
    let fenced = first_groups_of(&captures(FENCE, content));
    let bare = trailing_json_object(content);
    pick_candidates(functions, closed, open, fenced, bare)
}

/// The text without the tool-call blocks, fences and reasoning.
pub open spec fn stripped(content: Seq<char>) -> Seq<char> {
    let s = regex_replaced(XML_TAG@, content, ""@);
    let s = regex_replaced(QWEN_FN@, s, ""@);
    let s = regex_replaced(XML_OPEN_ONLY@, s, ""@);
    let s = regex_replaced(FENCE@, s, ""@);
    trimmed(regex_replaced(THINK_TAG@, s, ""@))
}

/// Removes tool-call blocks, fences and reasoning, for display.
pub fn strip_blocks(content: &str) -> (r: String)
    ensures
        r@ == stripped(content@),
{
    let s = replace_all(XML_TAG, content, "");
    let s = replace_all(QWEN_FN, s.as_str(), "");
    let s = replace_all(XML_OPEN_ONLY, s.as_str(), "");
    let s = replace_all(FENCE, s.as_str(), "");
    let s = replace_all(THINK_TAG, s.as_str(), "");
    trim_str(s.as_str())
}

// ---------------------------------------------------------------- call objects

/// The first of two values that is there.
pub open spec fn either(a: Option<JsonV>, b: Option<JsonV>) -> Option<JsonV> {
    if a is Some {
        a
    } else {
        b
    }
}

/// Arguments that came as a JSON string, decoded.
pub open spec fn decoded(v: JsonV) -> JsonV {
    match v {
        JsonV::Str(s) => match lenient(s) {
            Some((x, _)) => x,
            None => JsonV::Object(Seq::empty()),
        },
        other => other,
    }
}

/// The value, or null where there is none.
pub open spec fn or_null(v: Option<JsonV>) -> JsonV {
    match v {
        Some(x) => x,
        None => JsonV::Null,
    }
}

/// The text of a value that is one.
pub open spec fn text_in(v: Option<JsonV>) -> Option<Seq<char>> {
    match v {
        Some(x) => x.str(),
        None => None,
    }
}

/// The name and the arguments of a call object. The forms that are understood:
/// `{name, arguments}`, `{name, parameters}`, `{function: {name, arguments}}` and
/// `{tool, args}`.
pub open spec fn name_and_args(v: JsonV) -> (Option<Seq<char>>, JsonV) {
    match v {
        JsonV::Object(m) => match member(m, "function"@) {
            Some(JsonV::Object(f)) => (
                text_in(member(f, "name"@)),
                decoded(or_null(either(member(f, "arguments"@), member(f, "parameters"@)))),
            ),
            _ => (
                text_in(
                    either(
                        either(either(member(m, "name"@), member(m, "tool"@)), member(m, "tool_name"@)),
                        member(m, "function_name"@),
                    ),
                ),
                decoded(
                    or_null(
                        either(
                            either(either(member(m, "arguments"@), member(m, "parameters"@)), member(m, "args"@)),
                            member(m, "input"@),
                        ),
                    ),
                ),
            ),
        },
        _ => (None, JsonV::Null),
    }
}

fn first_of<'a>(a: Option<&'a Json>, b: Option<&'a Json>) -> (r: Option<&'a Json>)
    ensures
        crate::json::opt_view(r) == either(crate::json::opt_view(a), crate::json::opt_view(b)),
{
    match a {
        Some(x) => Some(x),
        None => b,
    }
}

fn text_of_value(v: Option<&Json>) -> (r: Option<String>)
    ensures
        crate::message::opt_string(r) == text_in(crate::json::opt_view(v)),
{
    match v {
        Some(x) => match x.as_str() {
            Some(s) => Some(s.to_owned()),
            None => None,
        },
        None => None,
    }
}

fn decode_args(v: Option<&Json>) -> (r: Json)
    ensures
        r@ == decoded(or_null(crate::json::opt_view(v))),
{
    match v {
        None => Json::Null,
        Some(x) => match x.as_str() {
            Some(s) => match parse_json_lenient(s) {
                Some((j, _)) => j,
                None => empty_object(),
            },
            None => x.copy(),
        },
    }
}

/// Reads the name and the arguments of a call object.
pub fn extract_name_args(v: &Json) -> (r: (Option<String>, Json))
    ensures
        (crate::message::opt_string(r.0), r.1@) == name_and_args(v@),
{
    proof {
        lemma_view(*v);
    }
    match v {
        Json::Object(_) => {},
        _ => {
            return (None, Json::Null);
        },
    }
    if let Some(f) = v.get("function") {
        proof {
            lemma_view(*f);
        }
        if let Json::Object(_) = f {
            let name = text_of_value(f.get("name"));
            let args = decode_args(first_of(f.get("arguments"), f.get("parameters")));
            return (name, args);
        }
    }
    let name = text_of_value(
        first_of(first_of(first_of(v.get("name"), v.get("tool")), v.get("tool_name")), v.get("function_name")),
    );
    let args = decode_args(
        first_of(first_of(first_of(v.get("arguments"), v.get("parameters")), v.get("args")), v.get("input")),
    );
    (name, args)
}

/// The value where it is an object, else an empty object.
pub open spec fn as_object(v: JsonV) -> JsonV {
    match v {
        JsonV::Object(_) => v,
        _ => JsonV::Object(Seq::empty()),
    }
}

pub fn ensure_object(v: Json) -> (r: Json)
    ensures
        r@ == as_object(v@),
{
    match v {
        Json::Object(m) => Json::Object(m),
        _ => empty_object(),
    }
}

// ---------------------------------------------------------------- names

/// A tool's name as a model may have written it, without white space, backticks and
/// namespaces around it.
pub open spec fn bare_name(raw: Seq<char>) -> Seq<char> {
    without_prefixes(without_prefixes(without_ends(trimmed(raw), '`'), "functions."@), "tools."@)
}

/// A name in lower case with underscores for dashes, spaces and dots.
pub open spec fn folded(s: Seq<char>) -> Seq<char> {
    with_char(lowered(s), seq!['-', ' ', '.'], '_')
}

/// The first place from `i` on at which a known name folds to `n`.
pub open spec fn folded_index(known: Seq<Seq<char>>, n: Seq<char>, i: int) -> Option<int>
    decreases known.len() - i,
{
    if i < 0 || i >= known.len() {
        None
    } else if folded(known[i]) == n {
        Some(i)
    } else {
        folded_index(known, n, i + 1)
    }
}

/// The place of the first of the best scores among the first `n`.
pub open spec fn best_score(scores: Seq<Option<u32>>, n: nat) -> Option<int>
    decreases n,
{
    if n == 0 || n > scores.len() {
        None
    } else {
        let b = best_score(scores, (n - 1) as nat);
        match (scores[n - 1], b) {
            (Some(s), Some(k)) => if s > scores[k]->Some_0 {
                Some(n - 1)
            } else {
                b
            },
            (Some(s), None) => Some(n - 1),
            (None, _) => b,
        }
    }
}

/// The known name of the best score, where that score is at least twelve for each
/// byte of the name.
pub open spec fn strong_match(known: Seq<Seq<char>>, scores: Seq<Option<u32>>) -> Option<Seq<char>> {
    match best_score(scores, scores.len()) {
        Some(k) => if scores[k]->Some_0 >= byte_len(known[k]) * 12 {
            Some(known[k])
        } else {
            None
        },
        None => None,
    }
}

/// The fuzzy scores of the known names for a folded name; none where the two are too long
/// to be compared.
pub open spec fn scores_of(known: Seq<Seq<char>>, n: Seq<char>) -> Seq<Option<u32>> {
    Seq::new(
        known.len(),
        |i: int|
            if fuzzy_fits(n, known[i]) {
                fuzzy_ignore_case(n, known[i])
            } else {
                None
            },
    )
}

/// The known name that a model meant: itself, else the first that folds alike, else
/// a strong fuzzy match.
pub open spec fn meant_name(known: Seq<Seq<char>>, raw: Seq<char>) -> Option<Seq<char>> {
    let b = bare_name(raw);
    let n = folded(b);
    if known.contains(b) {
        Some(b)
    } else {
        match folded_index(known, n, 0) {
            Some(k) => Some(known[k]),
            None => if byte_len(n) < 3 {
                None
            } else {
                strong_match(known, scores_of(known, n))
            },
        }
    }
}

fn fold_name(s: &str) -> (r: Vec<char>)
    ensures
        r@ == folded(s@),
{
    let mut from: Vec<char> = Vec::new();
    from.push('-');
    from.push(' ');
    from.push('.');
    assert(from@ =~= seq!['-', ' ', '.']);
    replace_chars(&to_lowered(s), &from, '_')
}

proof fn lemma_best_score_in_range(scores: Seq<Option<u32>>, n: nat)
    requires
        n <= scores.len(),
    ensures
        match best_score(scores, n) {
            Some(k) => 0 <= k < n && scores[k] is Some,
            None => true,
        },
    decreases n,
{
    if n > 0 {
        lemma_best_score_in_range(scores, (n - 1) as nat);
    }
}

/// Picks the known name of the best score, where the match is strong.
pub fn best_name(known: &Vec<String>, scores: &Vec<Option<u32>>) -> (r: Option<String>)
    requires
        known.len() == scores.len(),
    ensures
        crate::message::opt_string(r) == strong_match(strings(known@), scores@),
{
    let mut best: Option<usize> = None;
    let mut i: usize = 0;
    while i < scores.len()
        invariant
            i <= scores.len(),
            match best {
                Some(k) => best_score(scores@, i as nat) == Some(k as int) && k < i && scores@[k as int] is Some,
                None => best_score(scores@, i as nat) is None,
            },
        decreases scores.len() - i,
    {
        if let Some(s) = scores[i] {
            match best {
                Some(k) => {
                    if let Some(t) = scores[k] {
                        if s > t {
                            best = Some(i);
                        }
                    }
                },
                None => {
                    best = Some(i);
                },
            }
        }
        i += 1;
    }
    match best {
        Some(k) => {
            let len = bytes_in(known[k].as_str());
            if let Some(s) = scores[k] {
                if (s / 12) as usize >= len {
                    return Some(known[k].clone());
                }
            }
            None
        },
        None => None,
    }
}

// ---------------------------------------------------------------- the parser

pub struct ToolCallParser {
    known: Vec<String>,
    next_id: u32,
}

pub struct ParserV {
    pub known: Seq<Seq<char>>,
    pub next_id: u32,
}

impl View for ToolCallParser {
    type V = ParserV;

    closed spec fn view(&self) -> ParserV {
        ParserV { known: strings(self.known@), next_id: self.next_id }
    }
}

/// The identifier of the call of a number: the number in at least four digits.
pub open spec fn call_id(n: u32) -> Seq<char> {
    "call_"@ + padded(dec(n as nat), 4)
}

/// What has been gathered of the calls of an answer.
pub struct Gathered {
    pub calls: Seq<ToolCallV>,
    pub repaired: bool,
    pub next_id: u32,
}

/// One more call of the server's, or why it is refused.
pub open spec fn native_step(known: Seq<Seq<char>>, g: Gathered, n: ToolCallAccV) -> Result<Gathered, OutcomeV> {
    match lenient(n.arguments) {
        None => Err(
            OutcomeV::Malformed {
                error: "tool call `"@ + n.name + "` has invalid JSON arguments"@,
                snippet: first_chars(n.arguments, 300),
            },
        ),
        Some((v, r)) => match meant_name(known, n.name) {
            None => Err(
                OutcomeV::Malformed {
                    error: "unknown tool `"@ + n.name + "`"@,
                    snippet: first_chars(n.arguments, 200),
                },
            ),
            Some(name) => Ok(
                Gathered {
                    calls: g.calls.push(
                        ToolCallV {
                            id: if n.id.len() == 0 {
                                call_id(g.next_id)
                            } else {
                                n.id
                            },
                            name,
                            arguments: as_object(v),
                        },
                    ),
                    repaired: g.repaired || r,
                    next_id: if n.id.len() == 0 {
                        g.next_id.wrapping_add(1)
                    } else {
                        g.next_id
                    },
                },
            ),
        },
    }
}

/// The calls of the server from place `i` on.
pub open spec fn native_run(known: Seq<Seq<char>>, g: Gathered, ns: Seq<ToolCallAccV>, i: int) -> (
    Result<Gathered, OutcomeV>,
    u32,
)
    decreases ns.len() - i,
{
    if i < 0 || i >= ns.len() {
        (Ok(g), g.next_id)
    } else {
        match native_step(known, g, ns[i]) {
            Ok(h) => native_run(known, h, ns, i + 1),
            Err(o) => (Err(o), g.next_id),
        }
    }
}

/// One more candidate, or why there is no call: an object that ends the text and is
/// no call is ordinary text, anything else that is no call is malformed.
pub open spec fn candidate_step(
    known: Seq<Seq<char>>,
    g: Gathered,
    raw: Seq<char>,
    source: ParseSource,
) -> Result<Gathered, OutcomeV> {
    match lenient(raw) {
        None => Err(
            OutcomeV::Malformed { error: "could not parse tool call JSON"@, snippet: first_chars(raw, 300) },
        ),
        Some((v, r)) => {
            let (name_raw, args) = name_and_args(v);
            match name_raw {
                None => Err(
                    if source == ParseSource::BareJson {
                        OutcomeV::NoCalls
                    } else {
                        OutcomeV::Malformed { error: "tool call object has no `name`"@, snippet: first_chars(raw, 300) }
                    },
                ),
                Some(nr) => match meant_name(known, nr) {
                    None => Err(
                        if source == ParseSource::BareJson {
                            OutcomeV::NoCalls
                        } else {
                            OutcomeV::Malformed {
                                error: "unknown tool `"@ + nr + "`"@,
                                snippet: first_chars(raw, 200),
                            }
                        },
                    ),
                    Some(name) => Ok(
                        Gathered {
                            calls: g.calls.push(
                                ToolCallV { id: call_id(g.next_id), name, arguments: as_object(args) },
                            ),
                            repaired: g.repaired || r,
                            next_id: g.next_id.wrapping_add(1),
                        },
                    ),
                },
            }
        },
    }
}

/// The candidates from place `i` on.
pub open spec fn candidate_run(
    known: Seq<Seq<char>>,
    g: Gathered,
    raws: Seq<Seq<char>>,
    source: ParseSource,
    i: int,
) -> (Result<Gathered, OutcomeV>, u32)
    decreases raws.len() - i,
{
    if i < 0 || i >= raws.len() {
        (Ok(g), g.next_id)
    } else {
        match candidate_step(known, g, raws[i], source) {
            Ok(h) => candidate_run(known, h, raws, source, i + 1),
            Err(o) => (Err(o), g.next_id),
        }
    }
}

/// The outcome of a run: its calls with the text that is left, or why there are none.
pub open spec fn outcome_of(r: Result<Gathered, OutcomeV>, source: ParseSource, leftover: Seq<char>) -> OutcomeV {
    match r {
        Ok(g) => OutcomeV::Calls { calls: g.calls, source, repaired: g.repaired, leftover_text: leftover },
        Err(o) => o,
    }
}

pub open spec fn nothing_yet(next_id: u32) -> Gathered {
    Gathered { calls: Seq::empty(), repaired: false, next_id }
}

/// The outcome of parsing an answer, and the number of the next call after it.
pub open spec fn parse_outcome(p: ParserV, native: Seq<ToolCallAccV>, content: Seq<char>) -> (OutcomeV, u32) {
    if native.len() > 0 {
        let (r, next) = native_run(p.known, nothing_yet(p.next_id), native, 0);
        (outcome_of(r, ParseSource::ServerNative, stripped(content)), next)
    } else {
        let (raws, source) = candidates(content);
        if raws.len() == 0 {
            (OutcomeV::NoCalls, p.next_id)
        } else {
            let (r, next) = candidate_run(p.known, nothing_yet(p.next_id), raws, source, 0);
            (outcome_of(r, source, stripped(content)), next)
        }
    }
}

/// Every call is one of a known tool and has an object of arguments.
pub open spec fn sound_calls(known: Seq<Seq<char>>, calls: Seq<ToolCallV>) -> bool {
    forall|i: int|
        0 <= i < calls.len() ==> known.contains((#[trigger] calls[i]).name) && calls[i].arguments is Object
}

proof fn lemma_meant_is_known(known: Seq<Seq<char>>, raw: Seq<char>)
    ensures
        meant_name(known, raw) matches Some(n) ==> known.contains(n),
{
    let n = folded(bare_name(raw));
    lemma_folded_in_range(known, n, 0);
    lemma_best_score_in_range(scores_of(known, n), known.len());
}

proof fn lemma_folded_in_range(known: Seq<Seq<char>>, n: Seq<char>, i: int)
    ensures
        folded_index(known, n, i) matches Some(k) ==> i <= k < known.len() && 0 <= k,
    decreases known.len() - i,
{
    if 0 <= i < known.len() && folded(known[i]) != n {
        lemma_folded_in_range(known, n, i + 1);
    }
}

proof fn lemma_native_sound(known: Seq<Seq<char>>, g: Gathered, ns: Seq<ToolCallAccV>, i: int)
    requires
        0 <= i <= ns.len(),
        sound_calls(known, g.calls),
    ensures
        match native_run(known, g, ns, i).0 {
            Ok(h) => sound_calls(known, h.calls) && h.calls.len() == g.calls.len() + ns.len() - i,
            Err(o) => !(o is Calls),
        },
    decreases ns.len() - i,
{
    if i < ns.len() {
        lemma_meant_is_known(known, ns[i].name);
        if let Ok(h) = native_step(known, g, ns[i]) {
            lemma_native_sound(known, h, ns, i + 1);
        }
    }
}

proof fn lemma_candidates_sound(
    known: Seq<Seq<char>>,
    g: Gathered,
    raws: Seq<Seq<char>>,
    source: ParseSource,
    i: int,
)
    requires
        0 <= i <= raws.len(),
        sound_calls(known, g.calls),
    ensures
        match candidate_run(known, g, raws, source, i).0 {
            Ok(h) => sound_calls(known, h.calls) && h.calls.len() == g.calls.len() + raws.len() - i,
            Err(o) => !(o is Calls),
        },
    decreases raws.len() - i,
{
    if i < raws.len() {
        if let Some((v, _)) = lenient(raws[i]) {
            if let Some(nr) = name_and_args(v).0 {
                lemma_meant_is_known(known, nr);
            }
        }
        if let Ok(h) = candidate_step(known, g, raws[i], source) {
            lemma_candidates_sound(known, h, raws, source, i + 1);
        }
    }
}

/// Whatever a model writes, what comes out of it as calls is calls of known tools, at least
/// one, each with an object of arguments; and of calls that the server has told apart none is
/// lost.
pub proof fn law_calls_are_of_known_tools(p: ParserV, native: Seq<ToolCallAccV>, content: Seq<char>)
    ensures
        parse_outcome(p, native, content).0 matches OutcomeV::Calls { calls, .. } ==> sound_calls(p.known, calls)
            && calls.len() > 0 && (native.len() > 0 ==> calls.len() == native.len()),
{
    lemma_native_sound(p.known, nothing_yet(p.next_id), native, 0);
    let (raws, source) = candidates(content);
    lemma_candidates_sound(p.known, nothing_yet(p.next_id), raws, source, 0);
}

// ---------------------------------------------------------------- what an answer says

/// A name as tools have it: letters, digits and underscores.
pub open spec fn is_tool_name(s: Seq<char>) -> bool {
    s.len() > 0 && forall|i: int| 0 <= i < s.len() ==> is_word_char(#[trigger] s[i])
}

pub open spec fn is_word_char(c: char) -> bool {
    'a' <= c <= 'z' || 'A' <= c <= 'Z' || '0' <= c <= '9' || c == '_'
}

proof fn lemma_trimmed_same(s: Seq<char>)
    requires
        s.len() > 0,
        !is_space(s[0]),
        !is_space(s.last()),
    ensures
        trimmed(s) == s,
{
}

proof fn lemma_bare_same(s: Seq<char>)
    requires
        is_tool_name(s),
    ensures
        bare_name(s) == s,
{
    reveal_strlit("functions.");
    reveal_strlit("tools.");
    assert(is_word_char(s[0]) && is_word_char(s[s.len() - 1]));
    lemma_trimmed_same(s);
    assert(!begins(s, "functions."@)) by {
        if begins(s, "functions."@) {
            assert(s.subrange(0, 10)[9] == '.');
            assert(is_word_char(s[9]));
        }
    }
    assert(!begins(s, "tools."@)) by {
        if begins(s, "tools."@) {
            assert(s.subrange(0, 6)[5] == '.');
            assert(is_word_char(s[5]));
        }
    }
}

/// Two names differ in nothing but the case of letters and in dashes, spaces, dots and
/// underscores.
pub open spec fn spelled_alike(a: Seq<char>, b: Seq<char>) -> bool {
    a.len() == b.len() && forall|i: int| 0 <= i < a.len() ==> same_letter(#[trigger] a[i], b[i])
}

pub open spec fn same_letter(a: char, b: char) -> bool {
    ||| a == b
    ||| 'a' <= a <= 'z' && b as int == a as int - 32
    ||| 'a' <= b <= 'z' && a as int == b as int - 32
    ||| is_joint(a) && is_joint(b)
}

pub open spec fn is_joint(c: char) -> bool {
    c == '-' || c == ' ' || c == '.' || c == '_'
}

proof fn lemma_folded(a: Seq<char>, b: Seq<char>)
    ensures
        folded(a) == folded(b) <==> spelled_alike(a, b),
{
    let from = seq!['-', ' ', '.'];
    assert forall|c: char| #[trigger] from.contains(c) == (c == '-' || c == ' ' || c == '.') by {
        assert(from[0] == '-' && from[1] == ' ' && from[2] == '.');
    }
    assert forall|s: Seq<char>, i: int| 0 <= i < s.len() implies #[trigger] folded(s)[i] == (if is_joint(s[i]) {
        '_'
    } else if 'A' <= s[i] <= 'Z' {
        ((s[i] as u32 + 32) as u32) as char
    } else {
        s[i]
    }) by {
        let l = lowered(s)[i];
        assert(from.contains(l) == (l == '-' || l == ' ' || l == '.'));
    }
    if spelled_alike(a, b) {
        assert(folded(a) =~= folded(b)) by {
            assert forall|i: int| 0 <= i < a.len() implies folded(a)[i] == folded(b)[i] by {
                assert(same_letter(a[i], b[i]));
            }
        }
    }
    if folded(a) == folded(b) {
        assert(folded(a).len() == a.len() && folded(b).len() == b.len());
        assert forall|i: int| 0 <= i < a.len() implies same_letter(#[trigger] a[i], b[i]) by {
            assert(folded(a)[i] == folded(b)[i]);
        }
    }
}

proof fn lemma_folded_index(known: Seq<Seq<char>>, n: Seq<char>, i: int)
    requires
        0 <= i <= known.len(),
    ensures
        match folded_index(known, n, i) {
            Some(k) => i <= k < known.len() && folded(known[k]) == n && forall|j: int|
                i <= j < k ==> folded(#[trigger] known[j]) != n,
            None => forall|j: int| i <= j < known.len() ==> folded(#[trigger] known[j]) != n,
        },
    decreases known.len() - i,
{
    if i < known.len() && folded(known[i]) != n {
        lemma_folded_index(known, n, i + 1);
    }
}

/// A known name is taken as it is, with a namespace before it, in backticks or with white space
/// around it too. A name that is not known stands for the first known one that is spelled
/// alike. Whatever is found is a known name.
#[verifier::rlimit(40)]
pub proof fn law_a_name_is_understood(known: Seq<Seq<char>>, name: Seq<char>, k: int)
    requires
        is_tool_name(name),
    ensures
        known.contains(name) ==> meant_name(known, name) == Some(name),
        known.contains(name) ==> meant_name(known, "functions."@ + name) == Some(name),
        known.contains(name) ==> meant_name(known, "tools."@ + name) == Some(name),
        known.contains(name) ==> meant_name(known, seq!['`'] + name + seq!['`']) == Some(name),
        known.contains(name) ==> meant_name(known, seq![' '] + name + seq!['\n']) == Some(name),
        !known.contains(name) && 0 <= k < known.len() && spelled_alike(known[k], name) && (forall|j: int|
            0 <= j < k ==> !spelled_alike(#[trigger] known[j], name)) ==> meant_name(known, name) == Some(known[k]),
        meant_name(known, name) matches Some(n) ==> known.contains(n),
{
    lemma_bare_same(name);
    lemma_meant_is_known(known, name);
    assert(is_word_char(name[0]) && is_word_char(name[name.len() - 1]));
    reveal_strlit("functions.");
    reveal_strlit("tools.");
    let a = "functions."@ + name;
    let b = "tools."@ + name;
    let c = seq!['`'] + name + seq!['`'];
    let d = seq![' '] + name + seq!['\n'];
    lemma_trimmed_same(a);
    assert(a.subrange(0, 10) =~= "functions."@);
    assert(a.skip(10) =~= name);
    assert(!begins(name, "functions."@)) by {
        lemma_no_namespace(name);
    }
    assert(!begins(name, "tools."@)) by {
        lemma_no_namespace(name);
    }
    assert(bare_name(a) == name);
    lemma_trimmed_same(b);
    assert(b.subrange(0, 6) =~= "tools."@);
    assert(b.skip(6) =~= name);
    assert(!begins(b, "functions."@)) by {
        if begins(b, "functions."@) {
            assert(b.subrange(0, 10)[0] == 't');
        }
    }
    assert(bare_name(b) == name);
    lemma_trimmed_same(c);
    assert(c.drop_first() =~= name + seq!['`']);
    assert((name + seq!['`']).drop_last() =~= name);
    reveal_with_fuel(without_ends, 3);
    assert(bare_name(c) == name);
    reveal_with_fuel(trimmed_start, 2);
    reveal_with_fuel(trimmed_end, 2);
    assert(d.drop_first() =~= name + seq!['\n']);
    assert((name + seq!['\n']).drop_last() =~= name);
    assert(bare_name(d) == name);
    if !known.contains(name) && 0 <= k < known.len() && spelled_alike(known[k], name) && (forall|j: int|
        0 <= j < k ==> !spelled_alike(#[trigger] known[j], name)) {
        lemma_folded_index(known, folded(name), 0);
        lemma_folded(known[k], name);
        let i = folded_index(known, folded(name), 0)->Some_0;
        lemma_folded(known[i], name);
        if i < k {
            assert(!spelled_alike(known[i], name));
        } else if k < i {
            assert(folded(known[k]) != folded(name));
        }
    }
}

proof fn lemma_no_namespace(s: Seq<char>)
    requires
        is_tool_name(s),
    ensures
        !begins(s, "functions."@),
        !begins(s, "tools."@),
{
    reveal_strlit("functions.");
    reveal_strlit("tools.");
    if begins(s, "functions."@) {
        assert(s.subrange(0, 10)[9] == '.');
        assert(is_word_char(s[9]));
    }
    if begins(s, "tools."@) {
        assert(s.subrange(0, 6)[5] == '.');
        assert(is_word_char(s[5]));
    }
}

/// A text is a JSON object that asks for a tool with arguments, in one of the ways in which
/// models write it: a name and arguments; a name and parameters; a function with a name and
/// arguments or parameters; a tool and its args or input. Arguments may be an object, or a
/// text that holds one.
#[verifier::opaque]
pub open spec fn asks(raw: Seq<char>, name: Seq<char>, args: Seq<(Seq<char>, JsonV)>) -> bool {
    &&& raw.len() > 1
    &&& raw[0] == '{'
    &&& raw.last() == '}'
    &&& exists|m: Seq<(Seq<char>, JsonV)>| reads_as(raw, JsonV::Object(m)) && #[trigger] asks_for(m, name, args)
}

pub open spec fn asks_for(m: Seq<(Seq<char>, JsonV)>, name: Seq<char>, args: Seq<(Seq<char>, JsonV)>) -> bool {
    ||| exists|f: Seq<(Seq<char>, JsonV)>|
        #[trigger] gives(m, "function"@, JsonV::Object(f)) && gives(f, "name"@, JsonV::Str(name)) && (gives_args(
            f,
            "arguments"@,
            args,
        ) || (lacks(f, "arguments"@) && gives_args(f, "parameters"@, args)))
    ||| lacks(m, "function"@) && names(m, name) && (gives_args(m, "arguments"@, args) || (lacks(m, "arguments"@) && (
    gives_args(m, "parameters"@, args) || (lacks(m, "parameters"@) && (gives_args(m, "args"@, args) || (lacks(
        m,
        "args"@,
    ) && gives_args(m, "input"@, args)))))))
}

/// The first of the keys for a name that is there gives it.
pub open spec fn names(m: Seq<(Seq<char>, JsonV)>, name: Seq<char>) -> bool {
    ||| gives(m, "name"@, JsonV::Str(name))
    ||| lacks(m, "name"@) && gives(m, "tool"@, JsonV::Str(name))
    ||| lacks(m, "name"@) && lacks(m, "tool"@) && gives(m, "tool_name"@, JsonV::Str(name))
    ||| lacks(m, "name"@) && lacks(m, "tool"@) && lacks(m, "tool_name"@) && gives(
        m,
        "function_name"@,
        JsonV::Str(name),
    )
}

/// A key gives arguments: an object, or a text that reads as one.
pub open spec fn gives_args(m: Seq<(Seq<char>, JsonV)>, key: Seq<char>, args: Seq<(Seq<char>, JsonV)>) -> bool {
    ||| gives(m, key, JsonV::Object(args))
    ||| exists|s: Seq<char>|
        #[trigger] gives(m, key, JsonV::Str(s)) && s.len() > 1 && s[0] == '{' && s.last() == '}' && reads_as(
            s,
            JsonV::Object(args),
        )
}

proof fn lemma_gives_args(m: Seq<(Seq<char>, JsonV)>, key: Seq<char>, args: Seq<(Seq<char>, JsonV)>)
    requires
        gives_args(m, key, args),
    ensures
        member(m, key) is Some,
        decoded(member(m, key)->Some_0) == JsonV::Object(args),
{
    law_a_member_is_found(m, key);
    if !gives(m, key, JsonV::Object(args)) {
        let s = choose|s: Seq<char>|
            #[trigger] gives(m, key, JsonV::Str(s)) && s.len() > 1 && s[0] == '{' && s.last() == '}' && reads_as(
                s,
                JsonV::Object(args),
            );
        lemma_trimmed_same(s);
    }
}

proof fn lemma_asks_for(m: Seq<(Seq<char>, JsonV)>, name: Seq<char>, args: Seq<(Seq<char>, JsonV)>)
    requires
        asks_for(m, name, args),
    ensures
        name_and_args(JsonV::Object(m)) == (Some(name), JsonV::Object(args)),
{
    law_a_member_is_found(m, "function"@);
    if exists|f: Seq<(Seq<char>, JsonV)>|
        #[trigger] gives(m, "function"@, JsonV::Object(f)) && gives(f, "name"@, JsonV::Str(name)) && (gives_args(
            f,
            "arguments"@,
            args,
        ) || (lacks(f, "arguments"@) && gives_args(f, "parameters"@, args))) {
        let f = choose|f: Seq<(Seq<char>, JsonV)>|
            #[trigger] gives(m, "function"@, JsonV::Object(f)) && gives(f, "name"@, JsonV::Str(name)) && (gives_args(
                f,
                "arguments"@,
                args,
            ) || (lacks(f, "arguments"@) && gives_args(f, "parameters"@, args)));
        law_a_member_is_found(f, "name"@);
        law_a_member_is_found(f, "arguments"@);
        if gives_args(f, "arguments"@, args) {
            lemma_gives_args(f, "arguments"@, args);
        } else {
            lemma_gives_args(f, "parameters"@, args);
        }
    } else {
        law_a_member_is_found(m, "name"@);
        law_a_member_is_found(m, "tool"@);
        law_a_member_is_found(m, "tool_name"@);
        law_a_member_is_found(m, "function_name"@);
        law_a_member_is_found(m, "arguments"@);
        law_a_member_is_found(m, "parameters"@);
        law_a_member_is_found(m, "args"@);
        if gives_args(m, "arguments"@, args) {
            lemma_gives_args(m, "arguments"@, args);
        } else if gives_args(m, "parameters"@, args) && lacks(m, "arguments"@) {
            lemma_gives_args(m, "parameters"@, args);
        } else if gives_args(m, "args"@, args) && lacks(m, "parameters"@) {
            lemma_gives_args(m, "args"@, args);
        } else {
            lemma_gives_args(m, "input"@, args);
        }
    }
}

/// A call is the one that a text asks for, where it asks for a known tool.
pub open spec fn answers(known: Seq<Seq<char>>, raw: Seq<char>, c: ToolCallV) -> bool {
    forall|name: Seq<char>, args: Seq<(Seq<char>, JsonV)>|
        is_tool_name(name) && known.contains(name) && #[trigger] asks(raw, name, args) ==> c.name == name && c.arguments
            == JsonV::Object(args)
}

/// One candidate: the call that it becomes, whatever came before.
proof fn lemma_candidate(
    known: Seq<Seq<char>>,
    g: Gathered,
    raw: Seq<char>,
    source: ParseSource,
    name: Seq<char>,
    args: Seq<(Seq<char>, JsonV)>,
)
    requires
        asks(raw, name, args),
        is_tool_name(name),
        known.contains(name),
    ensures
        candidate_step(known, g, raw, source) is Ok,
        ({
            let h = candidate_step(known, g, raw, source)->Ok_0;
            h.calls.last().name == name && h.calls.last().arguments == JsonV::Object(args)
        }),
{
    reveal(asks);
    let m = choose|m: Seq<(Seq<char>, JsonV)>|
        reads_as(raw, JsonV::Object(m)) && #[trigger] asks_for(m, name, args);
    lemma_trimmed_same(raw);
    lemma_asks_for(m, name, args);
    law_a_name_is_understood(known, name, 0);
}

proof fn lemma_candidate_answers(known: Seq<Seq<char>>, g: Gathered, raw: Seq<char>, source: ParseSource)
    ensures
        asks_known(known, raw) ==> candidate_step(known, g, raw, source) is Ok,
        candidate_step(known, g, raw, source) matches Ok(h) ==> h.calls.len() == g.calls.len() + 1 && h.calls.take(
            g.calls.len() as int,
        ) == g.calls && answers(known, raw, h.calls.last()),
{
    if asks_known(known, raw) {
        let (name, args) = choose|name: Seq<char>, args: Seq<(Seq<char>, JsonV)>|
            is_tool_name(name) && known.contains(name) && #[trigger] asks(raw, name, args);
        lemma_candidate(known, g, raw, source, name, args);
    }
    if let Ok(h) = candidate_step(known, g, raw, source) {
        assert(h.calls.take(g.calls.len() as int) =~= g.calls);
        assert forall|name: Seq<char>, args: Seq<(Seq<char>, JsonV)>|
            is_tool_name(name) && known.contains(name) && #[trigger] asks(raw, name, args) implies h.calls.last().name
            == name && h.calls.last().arguments == JsonV::Object(args) by {
            lemma_candidate(known, g, raw, source, name, args);
        }
    }
}

/// The run over candidates: as many calls as candidates, and each the one that its candidate
/// asks for.
proof fn lemma_candidate_run(known: Seq<Seq<char>>, g: Gathered, raws: Seq<Seq<char>>, source: ParseSource, i: int)
    requires
        0 <= i <= raws.len(),
    ensures
        candidate_run(known, g, raws, source, i).0 matches Ok(h) ==> {
            &&& h.calls.len() == g.calls.len() + raws.len() - i
            &&& h.calls.take(g.calls.len() as int) == g.calls
            &&& forall|k: int|
                i <= k < raws.len() ==> answers(known, #[trigger] raws[k], h.calls[g.calls.len() + k - i])
        },
        (forall|k: int| i <= k < raws.len() ==> asks_known(known, #[trigger] raws[k])) ==> candidate_run(
            known,
            g,
            raws,
            source,
            i,
        ).0 is Ok,
    decreases raws.len() - i,
{
    if i < raws.len() {
        lemma_candidate_answers(known, g, raws[i], source);
        if let Ok(h) = candidate_step(known, g, raws[i], source) {
            lemma_candidate_run(known, h, raws, source, i + 1);
            if let Ok(e) = candidate_run(known, h, raws, source, i + 1).0 {
                let n = g.calls.len() as int;
                assert(e.calls.take(h.calls.len() as int).take(n) =~= e.calls.take(n));
                assert(e.calls[n] == e.calls.take(h.calls.len() as int)[n]);
                assert forall|k: int| i <= k < raws.len() implies answers(
                    known,
                    #[trigger] raws[k],
                    e.calls[n + k - i],
                ) by {
                    if k > i {
                        assert(n + k - i == h.calls.len() + k - (i + 1));
                    }
                }
            }
        }
    } else {
        assert(g.calls.take(g.calls.len() as int) =~= g.calls);
    }
}

/// A text asks for a known tool.
pub open spec fn asks_known(known: Seq<Seq<char>>, raw: Seq<char>) -> bool {
    exists|name: Seq<char>, args: Seq<(Seq<char>, JsonV)>|
        is_tool_name(name) && known.contains(name) && #[trigger] asks(raw, name, args)
}

/// The calls are those that texts ask for, one by one and in their order.
pub open spec fn calls_of(known: Seq<Seq<char>>, raws: Seq<Seq<char>>, calls: Seq<ToolCallV>) -> bool {
    calls.len() == raws.len() && forall|k: int| 0 <= k < raws.len() ==> answers(known, #[trigger] raws[k], calls[k])
}

/// The first group of every match of a pattern in a text.
pub open spec fn matches_of(pattern: Seq<char>, text: Seq<char>) -> Seq<Seq<char>> {
    Seq::new(
        regex_captures(pattern, text).len(),
        |i: int|
            if regex_captures(pattern, text)[i].len() > 1 {
                regex_captures(pattern, text)[i][1]
            } else {
                Seq::empty()
            },
    )
}

/// Where an answer without function blocks asks for tools: in all its closed blocks; without
/// such, in the first block that is open at its end; else in all its fenced objects; else in
/// the object that ends it.
pub open spec fn places(content: Seq<char>) -> (Seq<Seq<char>>, ParseSource) {
    let closed = matches_of(r"(?s)<tool_call>\s*(.*?)\s*</tool_call>"@, content);
    let open = matches_of(r"(?s)<tool_call>\s*(\{.*)$"@, content);
    let fenced = matches_of(r"(?s)```(?:json|tool_call|tool)?\s*(\{.*?\})\s*```"@, content);
    if closed.len() > 0 {
        (closed, ParseSource::XmlTag)
    } else if open.len() > 0 {
        (seq![open[0]], ParseSource::XmlTag)
    } else if fenced.len() > 0 {
        (fenced, ParseSource::FencedJson)
    } else if trailing_object(content) is Some {
        (seq![trailing_object(content)->Some_0], ParseSource::BareJson)
    } else {
        (Seq::empty(), ParseSource::BareJson)
    }
}

proof fn lemma_places(content: Seq<char>)
    requires
        regex_captures(r"(?s)<function=([A-Za-z0-9_.\-]+)>\s*(.*?)\s*</function>"@, content).len() == 0,
    ensures
        candidates(content) == places(content),
{
    let closed = matches_of(r"(?s)<tool_call>\s*(.*?)\s*</tool_call>"@, content);
    let open = matches_of(r"(?s)<tool_call>\s*(\{.*)$"@, content);
    let fenced = matches_of(r"(?s)```(?:json|tool_call|tool)?\s*(\{.*?\})\s*```"@, content);
    assert(first_groups(regex_captures(XML_TAG@, content)) =~= closed);
    assert(first_groups(regex_captures(XML_OPEN_ONLY@, content)) =~= open);
    assert(first_groups(regex_captures(FENCE@, content)) =~= fenced);
    assert(qwen_texts(content).len() == 0);
    if open.len() > 0 {
        assert(open.take(1) =~= seq![open[0]]);
    }
}

proof fn lemma_outcome(p: ParserV, content: Seq<char>, raws: Seq<Seq<char>>, source: ParseSource)
    requires
        candidates(content) == (raws, source),
    ensures
        ({
            let o = parse_outcome(p, Seq::empty(), content).0;
            &&& o matches OutcomeV::Calls { calls, source: s, .. } ==> calls_of(p.known, raws, calls) && s == source
                && raws.len() > 0
            &&& raws.len() == 0 ==> o is NoCalls
            &&& raws.len() > 0 && (forall|k: int| 0 <= k < raws.len() ==> asks_known(p.known, #[trigger] raws[k]))
                ==> o is Calls
        }),
{
    let g = nothing_yet(p.next_id);
    lemma_candidate_run(p.known, g, raws, source, 0);
    lemma_candidates_sound(p.known, g, raws, source, 0);
    if let Ok(h) = candidate_run(p.known, g, raws, source, 0).0 {
        assert(h.calls.len() == raws.len());
        assert forall|k: int| 0 <= k < raws.len() implies answers(p.known, #[trigger] raws[k], h.calls[k]) by {
            assert(g.calls.len() + k - 0 == k);
        }
    }
}

/// No block of an answer is lost. Without calls of the server's and without function blocks, an
/// answer becomes as many calls as there are places in it that ask for one, each the call that
/// its place asks for; with closed blocks these are all of the blocks. Where each place asks
/// for a known tool there are calls; where there is no place there are none.
pub proof fn law_no_block_is_lost(p: ParserV, content: Seq<char>)
    requires
        regex_captures(r"(?s)<function=([A-Za-z0-9_.\-]+)>\s*(.*?)\s*</function>"@, content).len() == 0,
    ensures
        ({
            let blocks = matches_of(r"(?s)<tool_call>\s*(.*?)\s*</tool_call>"@, content);
            let (raws, source) = places(content);
            let o = parse_outcome(p, Seq::empty(), content).0;
            &&& o matches OutcomeV::Calls { calls, source: s, .. } ==> {
                &&& calls_of(p.known, raws, calls)
                &&& blocks.len() > 0 ==> calls_of(p.known, blocks, calls)
                &&& s == source
                &&& calls.len() > 0
            }
            &&& raws.len() == 0 ==> o is NoCalls
            &&& raws.len() > 0 && (forall|k: int| 0 <= k < raws.len() ==> asks_known(p.known, #[trigger] raws[k]))
                ==> o is Calls
        }),
{
    lemma_places(content);
    let (raws, source) = places(content);
    lemma_outcome(p, content, raws, source);
}

/// The function blocks of an answer, where it has any, are its calls: as many as there are
/// blocks, each with the name of its block and the arguments of its parameters, where a block
/// is read back as it was written.
pub proof fn law_no_function_block_is_lost(p: ParserV, content: Seq<char>, i: int)
    requires
        ({
            let blocks = regex_captures(r"(?s)<function=([A-Za-z0-9_.\-]+)>\s*(.*?)\s*</function>"@, content);
            &&& 0 <= i < blocks.len()
            &&& blocks[i].len() == 3
            &&& is_tool_name(blocks[i][1])
            &&& p.known.contains(blocks[i][1])
        }),
    ensures
        ({
            let blocks = regex_captures(r"(?s)<function=([A-Za-z0-9_.\-]+)>\s*(.*?)\s*</function>"@, content);
            let params = regex_captures(r"(?s)<parameter=([A-Za-z0-9_.\-]+)>\s*(.*?)\s*</parameter>"@, blocks[i][2]);
            let written = JsonV::Object(
                seq![
                    ("name"@, JsonV::Str(blocks[i][1])),
                    ("arguments"@, JsonV::Object(qwen_arguments(params))),
                ],
            );
            parse_outcome(p, Seq::empty(), content).0 matches OutcomeV::Calls { calls, source, .. } ==> {
                &&& source == ParseSource::XmlTag
                &&& calls.len() == blocks.len()
                &&& reads_as(text_of(written), written) && text_of(written).len() > 1 && text_of(written)[0] == '{'
                    && text_of(written).last() == '}' ==> calls[i].name == blocks[i][1] && calls[i].arguments
                    == JsonV::Object(qwen_arguments(params))
            }
        }),
{
    let blocks = regex_captures(QWEN_FN@, content);
    let params = regex_captures(QWEN_PARAM@, blocks[i][2]);
    let args = qwen_arguments(params);
    let m = seq![("name"@, JsonV::Str(blocks[i][1])), ("arguments"@, JsonV::Object(args))];
    let (raws, source) = candidates(content);
    lemma_outcome(p, content, raws, source);
    assert(raws[i] == text_of(JsonV::Object(m)));
    lemma_written_asks(blocks[i][1], args);
    if let OutcomeV::Calls { calls, .. } = parse_outcome(p, Seq::empty(), content).0 {
        let t = text_of(JsonV::Object(m));
        assert(answers(p.known, raws[i], calls[i]));
        if reads_as(t, JsonV::Object(m)) && t.len() > 1 && t[0] == '{' && t.last() == '}' {
            assert(asks(raws[i], blocks[i][1], args)) by {
                reveal(asks);
            }
        }
    }
}

proof fn lemma_written_asks(name: Seq<char>, args: Seq<(Seq<char>, JsonV)>)
    ensures
        asks_for(seq![("name"@, JsonV::Str(name)), ("arguments"@, JsonV::Object(args))], name, args),
{
    let m = seq![("name"@, JsonV::Str(name)), ("arguments"@, JsonV::Object(args))];
    reveal_strlit("name");
    reveal_strlit("arguments");
    reveal_strlit("function");
    assert(m[0].0.len() == 4 && m[1].0.len() == 9 && "function"@.len() == 8);
    assert(gives(m, "name"@, JsonV::Str(name))) by {
        assert(m[0] == ("name"@, JsonV::Str(name)));
    }
    assert(gives(m, "arguments"@, JsonV::Object(args))) by {
        assert(m[1] == ("arguments"@, JsonV::Object(args)));
    }
    assert(lacks(m, "function"@));
}

/// Of the parameters of a function block the last of each name counts; a value is a text unless
/// it reads as something else.
pub proof fn law_parameters_become_arguments(params: Seq<Seq<Seq<char>>>, p: Seq<Seq<char>>, other: Seq<char>)
    requires
        p.len() == 3,
    ensures
        member(qwen_arguments(params.push(p)), p[1]) == Some(qwen_value(p[2])),
        other != p[1] ==> member(qwen_arguments(params.push(p)), other) == member(qwen_arguments(params), other),
        qwen_arguments(Seq::empty()).len() == 0,
        qwen_value("true"@) == JsonV::Bool(true),
        qwen_value("false"@) == JsonV::Bool(false),
        is_tool_name(p[2]) && is_word_letter(p[2][0]) && p[2] != "true"@ && p[2] != "false"@ ==> qwen_value(p[2])
            == JsonV::Str(p[2]),
        p[2].len() > 1 && p[2][0] == '{' && p[2].last() == '}' && parsed(p[2]) is Ok ==> qwen_value(p[2]) == parsed(
            p[2],
        )->Ok_0,
        p[2].len() > 1 && p[2][0] == '[' && p[2].last() == ']' && parsed(p[2]) is Ok ==> qwen_value(p[2]) == parsed(
            p[2],
        )->Ok_0,
{
    assert(params.push(p).drop_last() =~= params);
    crate::ports::law_publish_touches_own_entry_only(qwen_arguments(params), p[1], qwen_value(p[2]), other);
    reveal_strlit("true");
    reveal_strlit("false");
    lemma_trimmed_same("true"@);
    lemma_trimmed_same("false"@);
    assert("true"@.len() != "false"@.len());
    if p[2].len() > 0 {
        if is_tool_name(p[2]) {
            assert(is_word_char(p[2][0]) && is_word_char(p[2][p[2].len() - 1]));
            lemma_trimmed_same(p[2]);
            if is_word_letter(p[2][0]) {
                lemma_no_integer(p[2]);
            }
        }
        if p[2][0] == '{' && p[2].last() == '}' || p[2][0] == '[' && p[2].last() == ']' {
            lemma_trimmed_same(p[2]);
        }
    }
}

pub open spec fn is_word_letter(c: char) -> bool {
    'a' <= c <= 'z' || 'A' <= c <= 'Z' || c == '_'
}

proof fn lemma_no_integer(s: Seq<char>)
    requires
        s.len() > 0,
        is_word_letter(s[0]),
    ensures
        integer(s) is None,
{
}

/// The calls that the server has told apart are taken one by one: each under its own identifier
/// where it has one, with the name of the tool and what its arguments read as.
pub proof fn law_calls_of_the_server_are_kept(p: ParserV, native: Seq<ToolCallAccV>, content: Seq<char>, i: int)
    requires
        0 <= i < native.len(),
    ensures
        parse_outcome(p, native, content).0 matches OutcomeV::Calls { calls, source, .. } ==> {
            let n = native[i];
            &&& source == ParseSource::ServerNative
            &&& calls.len() == native.len()
            &&& n.id.len() > 0 ==> calls[i].id == n.id
            &&& is_tool_name(n.name) && p.known.contains(n.name) ==> calls[i].name == n.name
            &&& forall|args: Seq<(Seq<char>, JsonV)>|
                n.arguments.len() > 1 && n.arguments[0] == '{' && n.arguments.last() == '}' && #[trigger] reads_as(
                    n.arguments,
                    JsonV::Object(args),
                ) ==> calls[i].arguments == JsonV::Object(args)
        },
{
    lemma_native_run(p.known, nothing_yet(p.next_id), native, 0);
    lemma_native_sound(p.known, nothing_yet(p.next_id), native, 0);
}

proof fn lemma_native_run(known: Seq<Seq<char>>, g: Gathered, ns: Seq<ToolCallAccV>, i: int)
    requires
        0 <= i <= ns.len(),
    ensures
        native_run(known, g, ns, i).0 matches Ok(h) ==> {
            &&& h.calls.len() == g.calls.len() + ns.len() - i
            &&& h.calls.take(g.calls.len() as int) == g.calls
            &&& forall|k: int|
                i <= k < ns.len() ==> native_call(known, #[trigger] ns[k], h.calls[g.calls.len() + k - i])
        },
    decreases ns.len() - i,
{
    if i < ns.len() {
        if let Ok(h) = native_step(known, g, ns[i]) {
            lemma_native_run(known, h, ns, i + 1);
            if let Ok(e) = native_run(known, h, ns, i + 1).0 {
                let n = g.calls.len() as int;
                assert(h.calls.take(n) =~= g.calls);
                assert(e.calls.take(h.calls.len() as int).take(n) =~= e.calls.take(n));
                assert(e.calls[n] == e.calls.take(h.calls.len() as int)[n]);
                if ns[i].arguments.len() > 1 && ns[i].arguments[0] == '{' && ns[i].arguments.last() == '}' {
                    lemma_trimmed_same(ns[i].arguments);
                }
                if is_tool_name(ns[i].name) {
                    law_a_name_is_understood(known, ns[i].name, 0);
                }
                assert(native_call(known, ns[i], h.calls.last()));
                assert forall|k: int| i <= k < ns.len() implies native_call(
                    known,
                    #[trigger] ns[k],
                    e.calls[n + k - i],
                ) by {
                    if k > i {
                        assert(n + k - i == h.calls.len() + k - (i + 1));
                    }
                }
            }
        }
    } else {
        assert(g.calls.take(g.calls.len() as int) =~= g.calls);
    }
}

/// A call is the one that the server told.
pub open spec fn native_call(known: Seq<Seq<char>>, n: ToolCallAccV, c: ToolCallV) -> bool {
    &&& n.id.len() > 0 ==> c.id == n.id
    &&& is_tool_name(n.name) && known.contains(n.name) ==> c.name == n.name
    &&& forall|args: Seq<(Seq<char>, JsonV)>|
        n.arguments.len() > 1 && n.arguments[0] == '{' && n.arguments.last() == '}' && #[trigger] reads_as(
            n.arguments,
            JsonV::Object(args),
        ) ==> c.arguments == JsonV::Object(args)
}

/// What is JSON is taken as it stands; only what is not is repaired, and what can then be read
/// is marked so. White space around it does not count.
pub proof fn law_json_is_not_repaired(s: Seq<char>, v: JsonV)
    requires
        s.len() > 0,
        !is_space(s[0]),
        !is_space(s.last()),
    ensures
        reads_as(s, v) ==> lenient(s) == Some((v, false)) && lenient(seq!['\n'] + s + seq![' ']) == Some((v, false)),
        parsed(s) is Err ==> (lenient(s) matches Some((w, b)) ==> b && reads_as(repaired(s), w)),
        parsed(s) is Err && reads_as(repaired(s), v) ==> lenient(s) == Some((v, true)),
{
    lemma_trimmed_same(s);
    let d = seq!['\n'] + s + seq![' '];
    reveal_with_fuel(trimmed_start, 2);
    reveal_with_fuel(trimmed_end, 2);
    assert(d.drop_first() =~= s + seq![' ']);
    assert((s + seq![' ']).drop_last() =~= s);
}

/// Braces and brackets count where they stand outside of strings, and only there; a quote opens
/// or ends a string, but not behind a backslash in it.
pub proof fn law_only_open_braces_are_closed(s: Seq<char>, c: char)
    ensures
        ({
            let a = scan(s);
            let b = scan(s.push(c));
            let code = !a.in_str && !a.esc;
            &&& code && c == '{' ==> b == (Scan { braces: a.braces + 1, ..a })
            &&& code && c == '}' ==> b == (Scan { braces: a.braces - 1, ..a })
            &&& code && c == '[' ==> b == (Scan { brackets: a.brackets + 1, ..a })
            &&& code && c == ']' ==> b == (Scan { brackets: a.brackets - 1, ..a })
            &&& !a.esc && c == '"' ==> b == (Scan { in_str: !a.in_str, ..a })
            &&& a.in_str && !a.esc && c == '\\' ==> b == (Scan { esc: true, ..a })
            &&& a.in_str ==> b.braces == a.braces && b.brackets == a.brackets
            &&& a.esc ==> b == (Scan { esc: false, ..a })
        }),
        scan(Seq::empty()) == (Scan { braces: 0, brackets: 0, in_str: false, esc: false }),
        ({
            let a = scan(s);
            let w = with_closers(s);
            &&& w.take(s.len() as int) == s
            &&& !a.in_str && a.braces == 1 && a.brackets == 0 ==> w == s.push('}')
            &&& !a.in_str && a.braces == 0 && a.brackets == 1 ==> w == s.push(']')
            &&& a.in_str && a.braces == 0 && a.brackets == 0 ==> w == s.push('"')
            &&& a.in_str && a.braces == 1 && a.brackets == 0 ==> w == s.push('"').push('}')
            &&& !a.in_str && a.braces == 1 && a.brackets == 1 ==> w == s.push(']').push('}')
            &&& !a.in_str && a.braces <= 0 && a.brackets <= 0 ==> w == s
        }),
{
    assert(s.push(c).drop_last() =~= s);
    let a = scan(s);
    let w = with_closers(s);
    assert(w.take(s.len() as int) =~= s);
    assert(repeated('}', 1) =~= seq!['}']);
    assert(repeated(']', 1) =~= seq![']']);
    if a.braces <= 0 {
        assert(repeated('}', a.braces) =~= Seq::<char>::empty());
    }
    if a.brackets <= 0 {
        assert(repeated(']', a.brackets) =~= Seq::<char>::empty());
    }
    let e = Seq::<char>::empty();
    if !a.in_str && a.braces == 1 && a.brackets == 0 {
        assert(w =~= s.push('}'));
    }
    if !a.in_str && a.braces == 0 && a.brackets == 1 {
        assert(w =~= s.push(']'));
    }
    if a.in_str && a.braces == 0 && a.brackets == 0 {
        assert(w =~= s.push('"'));
    }
    if a.in_str && a.braces == 1 && a.brackets == 0 {
        assert(w =~= s.push('"').push('}'));
    }
    if !a.in_str && a.braces == 1 && a.brackets == 1 {
        assert(w =~= s.push(']').push('}'));
    }
    if !a.in_str && a.braces <= 0 && a.brackets <= 0 {
        assert(w =~= s);
    }
}

proof fn lemma_escaped_plain(s: Seq<char>, i: int, in_str: bool, esc: bool)
    requires
        0 <= i <= s.len(),
        forall|j: int| i <= j < s.len() ==> #[trigger] s[j] != '\n' && s[j] != '\r' && s[j] != '\t',
    ensures
        escaped_from(s, i, in_str, esc) == s.skip(i),
    decreases s.len() - i,
{
    if i < s.len() {
        let c = s[i];
        assert(c != '\n' && c != '\r' && c != '\t');
        let (a, b) = if !in_str {
            (c == '"', esc)
        } else if esc {
            (true, false)
        } else if c == '\\' {
            (true, true)
        } else if c == '"' {
            (false, false)
        } else {
            (true, false)
        };
        lemma_escaped_plain(s, i + 1, a, b);
        assert(escaped_from(s, i, in_str, esc) =~= s.skip(i));
    } else {
        assert(s.skip(i) =~= Seq::<char>::empty());
    }
}

/// A text without line feeds, carriage returns and tabs stays as it is when those are escaped;
/// one in a string, right behind its opening quote, becomes its escape, and one outside of
/// strings stays.
pub proof fn law_only_raw_controls_are_escaped(s: Seq<char>)
    requires
        forall|j: int| 0 <= j < s.len() ==> #[trigger] s[j] != '\n' && s[j] != '\r' && s[j] != '\t',
    ensures
        escaped_from(s, 0, false, false) == s,
        escaped_from(seq!['"', '\n'] + s, 0, false, false) == seq!['"', '\\', 'n'] + s,
        escaped_from(seq!['"', '\r'] + s, 0, false, false) == seq!['"', '\\', 'r'] + s,
        escaped_from(seq!['"', '\t'] + s, 0, false, false) == seq!['"', '\\', 't'] + s,
        escaped_from(seq!['\n'] + s, 0, false, false) == seq!['\n'] + s,
{
    lemma_escaped_plain(s, 0, false, false);
    assert(s.skip(0) =~= s);
    lemma_escaped_in_string(s, '\n');
    lemma_escaped_in_string(s, '\r');
    lemma_escaped_in_string(s, '\t');
    let t = seq!['\n'] + s;
    assert forall|j: int| 1 <= j < t.len() implies #[trigger] t[j] != '\n' && t[j] != '\r' && t[j] != '\t' by {
        assert(t[j] == s[j - 1]);
    }
    lemma_escaped_plain(t, 1, false, false);
    assert(escaped_from(t, 0, false, false) =~= t);
    assert(escaped_from(seq!['"', '\n'] + s, 0, false, false) =~= seq!['"', '\\', 'n'] + s);
    assert(escaped_from(seq!['"', '\r'] + s, 0, false, false) =~= seq!['"', '\\', 'r'] + s);
    assert(escaped_from(seq!['"', '\t'] + s, 0, false, false) =~= seq!['"', '\\', 't'] + s);
}

proof fn lemma_escaped_in_string(s: Seq<char>, c: char)
    requires
        c == '\n' || c == '\r' || c == '\t',
        forall|j: int| 0 <= j < s.len() ==> #[trigger] s[j] != '\n' && s[j] != '\r' && s[j] != '\t',
    ensures
        escaped_from(seq!['"', c] + s, 0, false, false) == seq!['"'] + (control_escape(c) + s),
{
    let t = seq!['"', c] + s;
    assert forall|j: int| 2 <= j < t.len() implies #[trigger] t[j] != '\n' && t[j] != '\r' && t[j] != '\t' by {
        assert(t[j] == s[j - 2]);
    }
    lemma_escaped_plain(t, 2, true, false);
    assert(t.skip(2) =~= s);
    assert(escaped_from(t, 1, true, false) == control_escape(c) + s);
    assert(escaped_from(t, 0, false, false) == seq!['"'] + escaped_from(t, 1, true, false));
}

proof fn lemma_opening_brace(t: Seq<char>, i: int, depth: int, in_str: bool)
    ensures
        opening_brace(t, i, depth, in_str) matches Some(k) ==> 0 <= k < i && k < t.len() && t[k] == '{',
    decreases i,
{
    if 0 < i <= t.len() {
        let k = i - 1;
        let c = t[k];
        if c == '"' && (k == 0 || t[k - 1] != '\\') {
            lemma_opening_brace(t, k, depth, !in_str);
        } else if in_str {
            lemma_opening_brace(t, k, depth, true);
        } else if c == '}' {
            lemma_opening_brace(t, k, depth + 1, false);
        } else if c == '{' {
            if depth != 1 {
                lemma_opening_brace(t, k, depth - 1, false);
            }
        } else {
            lemma_opening_brace(t, k, depth, false);
        }
    }
}

/// What ends a text as an object is its end, from a brace to the brace; a text that does not
/// end in a brace ends in none. An object without braces and quotes in it is found whatever
/// stands before.
pub proof fn law_a_bare_object_ends_the_text(before: Seq<char>, inner: Seq<char>, s: Seq<char>)
    requires
        forall|j: int|
            0 <= j < inner.len() ==> #[trigger] inner[j] != '{' && inner[j] != '}' && inner[j] != '"',
    ensures
        trailing_object(before + (seq!['{'] + inner + seq!['}'])) == Some(seq!['{'] + inner + seq!['}']),
        s.len() > 0 && !is_space(s.last()) && s.last() != '}' ==> trailing_object(s) is None,
        trailing_object(s) matches Some(o) ==> o.len() > 0 && o[0] == '{' && o.last() == '}',
{
    let o = seq!['{'] + inner + seq!['}'];
    let t = before + o;
    assert(t.last() == '}');
    assert(trimmed_end(t) == t);
    let n = t.len() as int;
    assert(opening_brace(t, n, 0, false) == opening_brace(t, n - 1, 1, false));
    lemma_inner(t, before.len() as int, n - 1);
    assert(t.skip(before.len() as int) =~= o);
    let e = trimmed_end(s);
    lemma_opening_brace(e, e.len() as int, 0, false);
    if let Some(k) = opening_brace(e, e.len() as int, 0, false) {
        if e.len() > 0 && e.last() == '}' {
            assert(e.skip(k)[0] == '{');
            assert(e.skip(k).last() == e.last());
        }
    }
}

proof fn lemma_inner(t: Seq<char>, k: int, i: int)
    requires
        0 <= k < i <= t.len(),
        t[k] == '{',
        forall|j: int| k < j < i ==> #[trigger] t[j] != '{' && t[j] != '}' && t[j] != '"',
    ensures
        opening_brace(t, i, 1, false) == Some(k),
    decreases i - k,
{
    if i > k + 1 {
        assert(t[i - 1] != '{' && t[i - 1] != '}' && t[i - 1] != '"');
        lemma_inner(t, k, i - 1);
    }
}

/// The text that is left of an answer without blocks, fences and reasoning is the answer
/// without the white space around it.
pub proof fn law_text_without_blocks_is_left(content: Seq<char>)
    requires
        regex_replaced(r"(?s)<tool_call>\s*(.*?)\s*</tool_call>"@, content, ""@) == content,
        regex_replaced(r"(?s)<function=([A-Za-z0-9_.\-]+)>\s*(.*?)\s*</function>"@, content, ""@) == content,
        regex_replaced(r"(?s)<tool_call>\s*(\{.*)$"@, content, ""@) == content,
        regex_replaced(r"(?s)```(?:json|tool_call|tool)?\s*(\{.*?\})\s*```"@, content, ""@) == content,
        regex_replaced(r"(?s)<(?:think|thought)>\s*(.*?)\s*</(?:think|thought)>"@, content, ""@) == content,
    ensures
        stripped(content) == trimmed(content),
{
}

impl ToolCallParser {
    pub fn new(known: Vec<String>) -> (r: ToolCallParser)
        ensures
            r@ == (ParserV { known: strings(known@), next_id: 1 }),
    {
        ToolCallParser { known, next_id: 1 }
    }

    /// A fresh identifier. The numbers start again after 2^32 calls.
    pub fn new_id(&mut self) -> (r: String)
        ensures
            r@ == call_id(old(self)@.next_id),
            final(self)@ == (ParserV { next_id: old(self)@.next_id.wrapping_add(1), ..old(self)@ }),
    {
        let n = dec_u64(self.next_id as u64);
        self.next_id = self.next_id.wrapping_add(1);
        "call_".to_owned().concat(pad_zeros(n.as_str(), 4).as_str())
    }

    /// The known name that a model meant by `raw`.
    pub fn fix_name(&self, raw: &str) -> (r: Option<String>)
        ensures
            crate::message::opt_string(r) == meant_name(self@.known, raw@),
    {
        let t = trim_matches(&trim(&chars_of(raw)), '`');
        let t = strip_prefixes(&strip_prefixes(&t, "functions."), "tools.");
        let b = string_of(&t);
        if list_contains(&self.known, b.as_str()) {
            return Some(b);
        }
        let n = fold_name(b.as_str());
        let mut i: usize = 0;
        while i < self.known.len()
            invariant
                i <= self.known.len(),
                n@ == folded(b@),
                folded_index(self@.known, n@, 0) == folded_index(self@.known, n@, i as int),
                !self@.known.contains(b@),
                b@ == bare_name(raw@),
            decreases self.known.len() - i,
        {
            let k = fold_name(self.known[i].as_str());
            if str_eq(string_of(&k).as_str(), string_of(&n).as_str()) {
                return Some(self.known[i].clone());
            }
            i += 1;
        }
        let needle = string_of(&n);
        if bytes_in(needle.as_str()) < 3 {
            return None;
        }
        let mut scores: Vec<Option<u32>> = Vec::new();
        let mut j: usize = 0;
        while j < self.known.len()
            invariant
                j <= self.known.len(),
                needle@ == n@,
                scores@ == scores_of(self@.known, n@).take(j as int),
            decreases self.known.len() - j,
        {
            let k = self.known[j].as_str();
            if can_score(needle.as_str(), k) {
                scores.push(score_ignore_case(needle.as_str(), k));
            } else {
                scores.push(None);
            }
            assert(scores@ =~= scores_of(self@.known, n@).take(j + 1));
            j += 1;
        }
        assert(scores@ =~= scores_of(self@.known, n@));
        best_name(&self.known, &scores)
    }

    /// The calls that the server parsed.
    fn native_calls(&mut self, native: &Vec<ToolCallAcc>, leftover: String) -> (r: ParseOutcome)
        ensures
            ({
                let (run, next) = native_run(old(self)@.known, nothing_yet(old(self)@.next_id), accs(native@), 0);
                &&& r@ == outcome_of(run, ParseSource::ServerNative, leftover@)
                &&& final(self)@ == (ParserV { next_id: next, ..old(self)@ })
            }),
    {
        let ghost p0 = self@;
        let ghost nv = accs(native@);
        let mut calls: Vec<ToolCall> = Vec::new();
        let mut repaired = false;
        let mut i: usize = 0;
        assert(calls_view(calls@) =~= Seq::empty());
        while i < native.len()
            invariant
                i <= native.len(),
                nv == accs(native@),
                p0 == old(self)@,
                self@.known == p0.known,
                native_run(p0.known, nothing_yet(p0.next_id), nv, 0) == native_run(
                    p0.known,
                    (Gathered { calls: calls_view(calls@), repaired, next_id: self@.next_id }),
                    nv,
                    i as int,
                ),
            decreases native.len() - i,
        {
            let n = &native[i];
            assert(nv[i as int] == n@);
            let args = match parse_json_lenient(n.arguments.as_str()) {
                Some((v, b)) => {
                    if b {
                        repaired = true;
                    }
                    v
                },
                None => {
                    return ParseOutcome::Malformed {
                        error: "tool call `".to_owned().concat(n.name.as_str()).concat("` has invalid JSON arguments"),
                        snippet: take_chars(n.arguments.as_str(), 300),
                    };
                },
            };
            let name = match self.fix_name(n.name.as_str()) {
                Some(name) => name,
                None => {
                    return ParseOutcome::Malformed {
                        error: "unknown tool `".to_owned().concat(n.name.as_str()).concat("`"),
                        snippet: take_chars(n.arguments.as_str(), 200),
                    };
                },
            };
            let id = if n.id.as_str().is_empty() {
                self.new_id()
            } else {
                n.id.clone()
            };
            let ghost before = calls@;
            calls.push(ToolCall { id, name, arguments: ensure_object(args) });
            assert(calls_view(calls@) =~= calls_view(before).push(calls@.last()@));
            i += 1;
        }
        ParseOutcome::Calls(
            ParsedCalls { calls, source: ParseSource::ServerNative, repaired, leftover_text: leftover },
        )
    }

    /// The calls that a list of candidates holds.
    pub fn candidate_calls(&mut self, raws: &Vec<String>, source: ParseSource, leftover: String) -> (r: ParseOutcome)
        ensures
            ({
                let (run, next) = candidate_run(
                    old(self)@.known,
                    nothing_yet(old(self)@.next_id),
                    strings(raws@),
                    source,
                    0,
                );
                &&& r@ == outcome_of(run, source, leftover@)
                &&& final(self)@ == (ParserV { next_id: next, ..old(self)@ })
            }),
    {
        let ghost p0 = self@;
        let ghost rv = strings(raws@);
        let mut calls: Vec<ToolCall> = Vec::new();
        let mut repaired = false;
        let mut i: usize = 0;
        assert(calls_view(calls@) =~= Seq::empty());
        while i < raws.len()
            invariant
                i <= raws.len(),
                rv == strings(raws@),
                p0 == old(self)@,
                self@.known == p0.known,
                candidate_run(p0.known, nothing_yet(p0.next_id), rv, source, 0) == candidate_run(
                    p0.known,
                    (Gathered { calls: calls_view(calls@), repaired, next_id: self@.next_id }),
                    rv,
                    source,
                    i as int,
                ),
            decreases raws.len() - i,
        {
            let raw = raws[i].as_str();
            assert(rv[i as int] == raw@);
            let (v, b) = match parse_json_lenient(raw) {
                Some(x) => x,
                None => {
                    return ParseOutcome::Malformed {
                        error: "could not parse tool call JSON".to_owned(),
                        snippet: take_chars(raw, 300),
                    };
                },
            };
            if b {
                repaired = true;
            }
            let (name_raw, args) = extract_name_args(&v);
            let name_raw = match name_raw {
                Some(n) => n,
                None => {
                    if source == ParseSource::BareJson {
                        return ParseOutcome::NoCalls;
                    }
                    return ParseOutcome::Malformed {
                        error: "tool call object has no `name`".to_owned(),
                        snippet: take_chars(raw, 300),
                    };
                },
            };
            let name = match self.fix_name(name_raw.as_str()) {
                Some(n) => n,
                None => {
                    if source == ParseSource::BareJson {
                        return ParseOutcome::NoCalls;
                    }
                    return ParseOutcome::Malformed {
                        error: "unknown tool `".to_owned().concat(name_raw.as_str()).concat("`"),
                        snippet: take_chars(raw, 200),
                    };
                },
            };
            let id = self.new_id();
            let ghost before = calls@;
            calls.push(ToolCall { id, name, arguments: ensure_object(args) });
            assert(calls_view(calls@) =~= calls_view(before).push(calls@.last()@));
            i += 1;
        }
        ParseOutcome::Calls(ParsedCalls { calls, source, repaired, leftover_text: leftover })
    }

    /// The tool calls of an answer: those that the server parsed, else those that
    /// the text holds.
    pub fn parse(&mut self, native: &Vec<ToolCallAcc>, content: &str) -> (r: ParseOutcome)
        ensures
            r@ == parse_outcome(old(self)@, accs(native@), content@).0,
            final(self)@ == (ParserV {
                next_id: parse_outcome(old(self)@, accs(native@), content@).1,
                ..old(self)@
            }),
    {
        let leftover = strip_blocks(content);
        if native.len() > 0 {
            return self.native_calls(native, leftover);
        }
        let (raws, source) = find_candidates(content);
        if raws.len() == 0 {
            return ParseOutcome::NoCalls;
        }
        self.candidate_calls(&raws, source, leftover)
    }
}

/// What is wrong with a text that asks for no known tool: it cannot be read, it has no name, or
/// its name is not known. The complaint quotes the beginning of the text.
pub open spec fn is_complaint(known: Seq<Seq<char>>, raw: Seq<char>, o: OutcomeV) -> bool {
    &&& o is Malformed
    &&& o->snippet.len() <= raw.len()
    &&& raw.take(o->snippet.len() as int) == o->snippet
    &&& o->snippet.len() == raw.len() || o->snippet.len() >= 200
    &&& lenient(raw) is None ==> o->error == "could not parse tool call JSON"@
    &&& lenient(raw) matches Some((v, _)) ==> {
        &&& name_and_args(v).0 is None ==> o->error == "tool call object has no `name`"@
        &&& name_and_args(v).0 matches Some(n) ==> meant_name(known, n) is None && o->error == "unknown tool `"@ + n + "`"@
    }
}

/// A text had to be repaired to be read.
pub open spec fn had_repair(raw: Seq<char>) -> bool {
    lenient(raw) matches Some((_, r)) && r
}

#[verifier::rlimit(40)]
proof fn lemma_run_is_numbered(known: Seq<Seq<char>>, g: Gathered, raws: Seq<Seq<char>>, source: ParseSource, i: int)
    requires
        0 <= i <= raws.len(),
        g.next_id + (raws.len() - i) <= u32::MAX,
    ensures
        match candidate_run(known, g, raws, source, i).0 {
            Ok(h) => {
                &&& h.calls.len() == g.calls.len() + raws.len() - i
                &&& h.calls.take(g.calls.len() as int) == g.calls
                &&& h.next_id == g.next_id + (raws.len() - i)
                &&& candidate_run(known, g, raws, source, i).1 == h.next_id
                &&& forall|j: int|
                    i <= j < raws.len() ==> h.calls[g.calls.len() + j - i].id == call_id(
                        #[trigger] numbered_from(g.next_id, j - i),
                    )
                &&& h.repaired <==> g.repaired || exists|j: int| i <= j < raws.len() && had_repair(#[trigger] raws[j])
            },
            Err(o) => exists|j: int|
                i <= j < raws.len() && (is_complaint(known, #[trigger] raws[j], o) || o is NoCalls && source
                    == ParseSource::BareJson),
        },
    decreases raws.len() - i,
{
    if i < raws.len() {
        let raw = raws[i];
        match candidate_step(known, g, raw, source) {
            Ok(h) => {
                lemma_run_is_numbered(known, h, raws, source, i + 1);
                let r = candidate_run(known, h, raws, source, i + 1).0;
                if let Ok(k) = r {
                    let n = g.calls.len() as int;
                    assert(k.calls.take(n) =~= k.calls.take(n + 1).take(n));
                    assert(h.calls.take(n) =~= g.calls);
                    assert(k.calls[n] == k.calls.take(n + 1)[n]);
                    assert(h.calls[n].id == call_id(g.next_id));
                    assert forall|j: int| i <= j < raws.len() implies k.calls[n + j - i].id == call_id(
                        #[trigger] numbered_from(g.next_id, j - i),
                    ) by {
                        if j > i {
                            assert(numbered_from(h.next_id, j - (i + 1)) == numbered_from(g.next_id, j - i));
                            assert(k.calls[h.calls.len() + j - (i + 1)].id == call_id(
                                numbered_from(h.next_id, j - (i + 1)),
                            ));
                        }
                    }
                    assert(h.repaired <==> g.repaired || had_repair(raws[i]));
                }
            },
            Err(o) => {
                if !(o is NoCalls) {
                    let s = o->snippet;
                    assert(raw.take(s.len() as int) =~= s);
                    assert(is_complaint(known, raws[i], o));
                }
            },
        }
    } else {
        assert(g.calls.take(g.calls.len() as int) =~= g.calls);
    }
}

pub open spec fn numbered_from(next: u32, k: int) -> u32 {
    (next + k) as u32
}

/// Calls that the model wrote into its answer are numbered one after another, from the number
/// that is next, and the text that is left is that without their blocks; they count as repaired
/// where one of them had to be. Where there are no calls though there are blocks, what is wrong
/// with one of them is told.
#[verifier::rlimit(40)]
pub proof fn law_calls_are_numbered_and_faults_told(p: ParserV, content: Seq<char>)
    requires
        regex_captures(r"(?s)<function=([A-Za-z0-9_.\-]+)>\s*(.*?)\s*</function>"@, content).len() == 0,
        p.next_id + places(content).0.len() <= u32::MAX,
    ensures
        ({
            let (raws, source) = places(content);
            let (o, next) = parse_outcome(p, Seq::empty(), content);
            &&& o matches OutcomeV::Calls { calls, repaired, leftover_text, .. } ==> {
                &&& next == p.next_id + calls.len()
                &&& forall|i: int|
                    0 <= i < calls.len() ==> (#[trigger] calls[i]).id == "call_"@ + padded(dec((p.next_id + i) as nat), 4)
                &&& leftover_text == stripped(content)
                &&& repaired <==> exists|j: int| 0 <= j < raws.len() && had_repair(#[trigger] raws[j])
            }
            &&& o is Malformed ==> exists|j: int| 0 <= j < raws.len() && is_complaint(p.known, #[trigger] raws[j], o)
            &&& o is NoCalls ==> raws.len() == 0 || source == ParseSource::BareJson
        }),
{
    lemma_places(content);
    let (raws, source) = candidates(content);
    lemma_run_is_numbered(p.known, nothing_yet(p.next_id), raws, source, 0);
    let (o, next) = parse_outcome(p, Seq::empty(), content);
    if let OutcomeV::Calls { calls, .. } = o {
        assert forall|i: int| 0 <= i < calls.len() implies (#[trigger] calls[i]).id == "call_"@ + padded(
            dec((p.next_id + i) as nat),
            4,
        ) by {
            assert(calls[0 + i - 0].id == call_id(numbered_from(p.next_id, i - 0)));
        }
    }
}

/// Each sort of block is taken out of the text that is left: closed and open tool calls, function
/// blocks, fenced objects and thinking. Where only one sort of them changes a text, what is left
/// is the text without it.
pub proof fn law_blocks_are_taken_out(s: Seq<char>, t: Seq<char>, k: int)
    requires
        0 <= k < 5,
        t == regex_replaced(block_pattern(k), s, ""@),
        forall|j: int| 0 <= j < 5 && j != k ==> regex_replaced(#[trigger] block_pattern(j), s, ""@) == s,
        forall|j: int| 0 <= j < 5 ==> regex_replaced(#[trigger] block_pattern(j), t, ""@) == t,
    ensures
        stripped(s) == trimmed(t),
{
    assert forall|j: int| 0 <= j < 5 && j != k implies regex_replaced(#[trigger] block_pattern(j), s, ""@) == s by {}
    assert(block_pattern(0) == XML_TAG@);
    assert(block_pattern(1) == QWEN_FN@);
    assert(block_pattern(2) == XML_OPEN_ONLY@);
    assert(block_pattern(3) == FENCE@);
    assert(block_pattern(4) == THINK_TAG@);
}

/// What a block of each sort looks like.
pub open spec fn block_pattern(k: int) -> Seq<char> {
    if k == 0 {
        r"(?s)<tool_call>\s*(.*?)\s*</tool_call>"@
    } else if k == 1 {
        r"(?s)<function=([A-Za-z0-9_.\-]+)>\s*(.*?)\s*</function>"@
    } else if k == 2 {
        r"(?s)<tool_call>\s*(\{.*)$"@
    } else if k == 3 {
        r"(?s)```(?:json|tool_call|tool)?\s*(\{.*?\})\s*```"@
    } else {
        r"(?s)<(?:think|thought)>\s*(.*?)\s*</(?:think|thought)>"@
    }
}

/// A call of the server's whose arguments cannot be read, or whose tool is not known, is told by
/// its name, where the calls before it are in order.
#[verifier::rlimit(40)]
pub proof fn law_a_bad_call_of_the_server_is_told(p: ParserV, native: Seq<ToolCallAccV>, content: Seq<char>)
    requires
        native.len() > 0,
    ensures
        ({
            let o = parse_outcome(p, native, content).0;
            &&& o matches OutcomeV::Calls { leftover_text, .. } ==> leftover_text == stripped(content)
            &&& o is Calls <==> forall|k: int| 0 <= k < native.len() ==> is_sound(p.known, #[trigger] native[k])
            &&& !(o is Calls) ==> o is Malformed && exists|k: int|
                0 <= k < native.len() && !is_sound(p.known, #[trigger] native[k]) && (lenient(native[k].arguments)
                    is Some ==> o->error == "unknown tool `"@ + native[k].name + "`"@) && (lenient(native[k].arguments)
                    is None ==> o->error == "tool call `"@ + native[k].name + "` has invalid JSON arguments"@)
        }),
{
    lemma_native_faults(p.known, nothing_yet(p.next_id), native, 0);
}

/// A call of the server's has arguments that can be read, and is of a known tool.
pub open spec fn is_sound(known: Seq<Seq<char>>, n: ToolCallAccV) -> bool {
    lenient(n.arguments) is Some && meant_name(known, n.name) is Some
}

proof fn lemma_native_faults(known: Seq<Seq<char>>, g: Gathered, ns: Seq<ToolCallAccV>, i: int)
    requires
        0 <= i <= ns.len(),
    ensures
        match native_run(known, g, ns, i).0 {
            Ok(_) => forall|k: int| i <= k < ns.len() ==> is_sound(known, #[trigger] ns[k]),
            Err(o) => o is Malformed && exists|k: int|
                i <= k < ns.len() && !is_sound(known, #[trigger] ns[k]) && (lenient(ns[k].arguments) is Some ==> o->error
                    == "unknown tool `"@ + ns[k].name + "`"@) && (lenient(ns[k].arguments) is None ==> o->error
                    == "tool call `"@ + ns[k].name + "` has invalid JSON arguments"@),
        },
    decreases ns.len() - i,
{
    if i < ns.len() {
        match native_step(known, g, ns[i]) {
            Ok(h) => {
                lemma_native_faults(known, h, ns, i + 1);
                assert(is_sound(known, ns[i]));
            },
            Err(o) => {
                assert(!is_sound(known, ns[i]));
            },
        }
    }
}

} // verus!
