//! What is printed of the agent's work where there is no terminal interface.

use crate::events::{AgentEvent, AgentEventV};
use crate::json::{Json, JsonV, text_of};
use crate::message::{at_most, byte_len, byte_prefix, bytes_at, bytes_in};
use crate::text::{
    at, begins, char_lists, chars_of, dec, dec_u64, ends, first_chars, holds, join, joined, lines,
    lines_of, string_of, strings, take_chars,
};
use vstd::prelude::*;
use vstd::string::*;

verus! {

pub const DIM: &'static str = "\u{1b}[2m";
pub const RESET: &'static str = "\u{1b}[0m";

/// The most bytes of a call's arguments that are shown.
pub const ARGUMENTS_CAP: usize = 160;

/// The arguments of a call on a line, cut where they are long.
pub open spec fn shown_arguments(v: JsonV) -> Seq<char> {
    let s = text_of(v);
    if byte_len(s) > ARGUMENTS_CAP {
        match bytes_at(s, ARGUMENTS_CAP as nat, 0) {
            Some(k) => s.take(k) + "…"@,
            None => s,
        }
    } else {
        s
    }
}

/// The arguments of a call on a line. Arguments in which a character lies across the cut
/// are not cut.
pub fn compact(v: &Json) -> (r: String)
    ensures
        r@ == shown_arguments(v@),
{
    let s = v.to_text();
    if bytes_in(s.as_str()) > ARGUMENTS_CAP {
        match byte_prefix(s.as_str(), ARGUMENTS_CAP) {
            Some(h) => h.concat("…"),
            None => s,
        }
    } else {
        s
    }
}

/// The first lines of an output, and how many more there are.
pub open spec fn shown_output(output: Seq<char>) -> Seq<char> {
    let ls = lines_of(output);
    let n = at_most(ls.len(), 8);
    joined(ls.take(n as int), "\n  "@) + (if ls.len() > 8 {
        "\n  … "@ + dec((ls.len() - 8) as nat) + " more lines"@
    } else {
        Seq::empty()
    })
}

fn show_output(output: &str) -> (r: String)
    ensures
        r@ == shown_output(output@),
{
    let ls = lines(&chars_of(output));
    let ghost lv = lines_of(output@);
    let n: usize = if ls.len() <= 8 {
        ls.len()
    } else {
        8
    };
    let mut first: Vec<String> = Vec::new();
    let mut i: usize = 0;
    assert(strings(first@) =~= lv.take(0));
    while i < n
        invariant
            i <= n <= ls.len(),
            lv == char_lists(ls@),
            strings(first@) == lv.take(i as int),
        decreases n - i,
    {
        let ghost b = first@;
        let s = string_of(&ls[i]);
        first.push(s);
        assert(strings(first@) =~= strings(b).push(lv[i as int]));
        i += 1;
    }
    let head = join(&first, "\n  ");
    if ls.len() > 8 {
        let more = "\n  … ".to_owned().concat(dec_u64((ls.len() - 8) as u64).as_str()).concat(" more lines");
        head.concat(more.as_str())
    } else {
        let r = head.concat("");
        proof {
            reveal_strlit("");
            assert(""@ =~= Seq::<char>::empty());
        }
        r
    }
}

/// The first line of a text, at most `n` characters of it.
pub open spec fn first_line_cut(s: Seq<char>, n: nat) -> Seq<char> {
    first_chars(
        if lines_of(s).len() > 0 {
            lines_of(s)[0]
        } else {
            Seq::empty()
        },
        n,
    )
}

fn cut_first_line(s: &str, n: usize) -> (r: String)
    ensures
        r@ == first_line_cut(s@, n as nat),
{
    let ls = lines(&chars_of(s));
    let first = if ls.len() > 0 {
        assert(char_lists(ls@)[0] == ls@[0]@);
        string_of(&ls[0])
    } else {
        String::new()
    };
    take_chars(first.as_str(), n)
}

/// What is printed of an event, and whether thinking is being printed after it. What the
/// server measured is printed with fractions, elsewhere.
pub open spec fn printed(e: AgentEventV, thinking: bool) -> (Seq<char>, bool) {
    match e {
        AgentEventV::ReasoningDelta { text } => if thinking {
            (text, true)
        } else {
            (DIM@ + text, true)
        },
        AgentEventV::ContentDelta { text } => if thinking {
            (RESET@ + "\n"@ + text, false)
        } else {
            (text, false)
        },
        AgentEventV::AssistantMessage { content, tool_calls } => if thinking {
            (RESET@ + "\n"@, false)
        } else {
            ("\n"@, false)
        },
        AgentEventV::ToolCallStart { id, name, arguments } => (
            "\u{1b}[36m▸ "@ + name + " "@ + shown_arguments(arguments) + "\u{1b}[0m\n"@,
            thinking,
        ),
        AgentEventV::ToolCallResult { id, name, output, is_error, truncated, elapsed_ms } => (
            "  \u{1b}["@ + (if is_error {
                "31"@
            } else {
                "90"@
            }) + "m"@ + name + " → "@ + shown_output(output) + "\u{1b}[0m\n"@,
            thinking,
        ),
        AgentEventV::Verify { command, ok, output } => (
            "\u{1b}[35m⚙ verify `"@ + command + "` → "@ + (if ok {
                "ok"@
            } else {
                "FAILED"@
            }) + "\u{1b}[0m\n"@,
            thinking,
        ),
        AgentEventV::Warning { text } => ("\u{1b}[33m! "@ + text + "\u{1b}[0m\n"@, thinking),
        AgentEventV::Error { text } => ("\u{1b}[31m✗ "@ + text + "\u{1b}[0m\n"@, thinking),
        AgentEventV::Compaction { messages_before, messages_after, summary_tokens } => (
            "\u{1b}[33m↻ compacted "@ + dec(messages_before as nat) + "→"@ + dec(messages_after as nat) + " messages ("@
                + dec(summary_tokens as nat) + " summary tokens)\u{1b}[0m\n"@,
            thinking,
        ),
        AgentEventV::Finished { reason, turns } => (
            "\u{1b}[90m— finished ("@ + reason + ", "@ + dec(turns as nat) + " turns)\u{1b}[0m\n"@,
            thinking,
        ),
        AgentEventV::AgentSpawned { id, kind, task } => (
            "\u{1b}[35m▸ worker #"@ + dec(id as nat) + " ("@ + kind + ") started: "@ + first_line_cut(task, 120)
                + "\u{1b}[0m\n"@,
            thinking,
        ),
        AgentEventV::AgentFinished { id, outcome, turns } => (
            "\u{1b}[35m▸ worker #"@ + dec(id as nat) + " finished ("@ + outcome + ", "@ + dec(turns as nat)
                + " turns)\u{1b}[0m\n"@,
            thinking,
        ),
        _ => (Seq::empty(), thinking),
    }
}

fn print_result(name: &str, output: &str, is_error: bool) -> (r: String)
    ensures
        r@ == "  \u{1b}["@ + (if is_error {
            "31"@
        } else {
            "90"@
        }) + "m"@ + name@ + " → "@ + shown_output(output@) + "\u{1b}[0m\n"@,
{
    let colour = if is_error {
        "31"
    } else {
        "90"
    };
    "  \u{1b}[".to_owned().concat(colour).concat("m").concat(name).concat(" → ").concat(
        show_output(output).as_str(),
    ).concat("\u{1b}[0m\n")
}

/// What is printed of an event.
pub fn print_event(e: &AgentEvent, thinking: bool) -> (r: (String, bool))
    ensures
        (r.0@, r.1) == printed(e@, thinking),
{
    match e {
        AgentEvent::ReasoningDelta { text } => if thinking {
            (text.clone(), true)
        } else {
            (DIM.to_owned().concat(text.as_str()), true)
        },
        AgentEvent::ContentDelta { text } => if thinking {
            (RESET.to_owned().concat("\n").concat(text.as_str()), false)
        } else {
            (text.clone(), false)
        },
        AgentEvent::AssistantMessage { .. } => if thinking {
            (RESET.to_owned().concat("\n"), false)
        } else {
            ("\n".to_owned(), false)
        },
        AgentEvent::ToolCallStart { name, arguments, .. } => (
            "\u{1b}[36m▸ ".to_owned().concat(name.as_str()).concat(" ").concat(compact(arguments).as_str()).concat(
                "\u{1b}[0m\n",
            ),
            thinking,
        ),
        AgentEvent::ToolCallResult { name, output, is_error, .. } => (
            print_result(name.as_str(), output.as_str(), *is_error),
            thinking,
        ),
        AgentEvent::Verify { command, ok, .. } => {
            let word = if *ok {
                "ok"
            } else {
                "FAILED"
            };
            (
                "\u{1b}[35m⚙ verify `".to_owned().concat(command.as_str()).concat("` → ").concat(word).concat(
                    "\u{1b}[0m\n",
                ),
                thinking,
            )
        },
        AgentEvent::Warning { text } => (
            "\u{1b}[33m! ".to_owned().concat(text.as_str()).concat("\u{1b}[0m\n"),
            thinking,
        ),
        AgentEvent::Error { text } => (
            "\u{1b}[31m✗ ".to_owned().concat(text.as_str()).concat("\u{1b}[0m\n"),
            thinking,
        ),
        AgentEvent::Compaction { messages_before, messages_after, summary_tokens } => (
            "\u{1b}[33m↻ compacted ".to_owned().concat(dec_u64(*messages_before as u64).as_str()).concat("→").concat(
                dec_u64(*messages_after as u64).as_str(),
            ).concat(" messages (").concat(dec_u64(*summary_tokens as u64).as_str()).concat(
                " summary tokens)\u{1b}[0m\n",
            ),
            thinking,
        ),
        AgentEvent::Finished { reason, turns } => (
            "\u{1b}[90m— finished (".to_owned().concat(reason.as_str()).concat(", ").concat(
                dec_u64(*turns as u64).as_str(),
            ).concat(" turns)\u{1b}[0m\n"),
            thinking,
        ),
        AgentEvent::AgentSpawned { id, kind, task } => (
            "\u{1b}[35m▸ worker #".to_owned().concat(dec_u64(*id).as_str()).concat(" (").concat(kind.as_str()).concat(
                ") started: ",
            ).concat(cut_first_line(task.as_str(), 120).as_str()).concat("\u{1b}[0m\n"),
            thinking,
        ),
        AgentEvent::AgentFinished { id, outcome, turns } => (
            "\u{1b}[35m▸ worker #".to_owned().concat(dec_u64(*id).as_str()).concat(" finished (").concat(
                outcome.as_str(),
            ).concat(", ").concat(dec_u64(*turns as u64).as_str()).concat(" turns)\u{1b}[0m\n"),
            thinking,
        ),
        _ => (String::new(), thinking),
    }
}

/// The output of a tool is shown from its first line on, at most eight lines of it, and it is said
/// how many more there are.
pub proof fn law_the_first_lines_are_shown(output: Seq<char>)
    ensures
        lines_of(output).len() <= 8 ==> shown_output(output) == joined(lines_of(output), "\n  "@),
        lines_of(output).len() > 8 ==> shown_output(output) == joined(lines_of(output).take(8), "\n  "@) + "\n  … "@ + dec(
            (lines_of(output).len() - 8) as nat,
        ) + " more lines"@,
{
    let ls = lines_of(output);
    assert(ls.take(ls.len() as int) =~= ls);
    if ls.len() <= 8 {
        assert(joined(ls, "\n  "@) + Seq::<char>::empty() =~= joined(ls, "\n  "@));
    } else {
        assert(shown_output(output) =~= joined(ls.take(8), "\n  "@) + "\n  … "@ + dec((ls.len() - 8) as nat)
            + " more lines"@);
    }
}

/// What the model writes is printed as it is; what it thinks is dimmed, once at its start, and the
/// dimming ends before the answer.
pub proof fn law_words_are_printed_as_they_are(text: Seq<char>, thinking: bool)
    ensures
        ends(printed(AgentEventV::ContentDelta { text }, thinking).0, text),
        !thinking ==> printed(AgentEventV::ContentDelta { text }, thinking).0 == text,
        !printed(AgentEventV::ContentDelta { text }, thinking).1,
        ends(printed(AgentEventV::ReasoningDelta { text }, thinking).0, text),
        printed(AgentEventV::ReasoningDelta { text }, thinking).1,
        thinking ==> printed(AgentEventV::ReasoningDelta { text }, thinking).0 == text,
        !thinking ==> printed(AgentEventV::ReasoningDelta { text }, thinking).0 == DIM@ + text,
        thinking ==> begins(printed(AgentEventV::ContentDelta { text }, thinking).0, RESET@),
        holds(printed(AgentEventV::Warning { text }, thinking).0, text),
        holds(printed(AgentEventV::Error { text }, thinking).0, text),
{
    let c = printed(AgentEventV::ContentDelta { text }, thinking).0;
    let r = printed(AgentEventV::ReasoningDelta { text }, thinking).0;
    let w = printed(AgentEventV::Warning { text }, thinking).0;
    let e = printed(AgentEventV::Error { text }, thinking).0;
    assert(c.subrange(c.len() - text.len(), c.len() as int) =~= text);
    assert(r.subrange(r.len() - text.len(), r.len() as int) =~= text);
    if thinking {
        assert(c.subrange(0, RESET@.len() as int) =~= RESET@);
    }
    let k = "\u{1b}[33m! "@.len() as int;
    assert(w.subrange(k, k + text.len()) =~= text);
    assert(at(w, k, text));
    let m = "\u{1b}[31m✗ "@.len() as int;
    assert(e.subrange(m, m + text.len()) =~= text);
    assert(at(e, m, text));
}

} // verus!
