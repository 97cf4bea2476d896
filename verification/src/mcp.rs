//! Tools of other servers: how they are named, what is known of them, and how what they
//! give is shown.

use crate::config::McpServer;
use crate::json::{
    Json, JsonV, find_member, keys_distinct, lemma_view, member, member_index, members, opt_view,
    pretty_text,
};
use crate::message::object;
use crate::permission::PermissionClass;
use crate::ports::law_withdraw_touches_own_entry_only;
use crate::text::{
    at, chars_of, first_chars, holds, str_eq, string_of, take_chars, trim_end, trim_str, trimmed,
    trimmed_end,
};
use vstd::prelude::*;
use vstd::string::*;

verus! {

/// One piece of what a tool gave.
#[derive(Debug)]
pub enum McpContent {
    Text(String),
    Image,
    Audio,
    /// A resource, as JSON text.
    Resource(String),
    ResourceLink(String),
    Other,
}

pub open spec fn content_text(c: McpContent) -> Seq<char> {
    match c {
        McpContent::Text(t) => t@ + "\n"@,
        McpContent::Image => "[image omitted]\n"@,
        McpContent::Audio => "[audio omitted]\n"@,
        McpContent::Resource(j) => "[resource "@ + first_chars(j@, 2000) + "]\n"@,
        McpContent::ResourceLink(u) => "[resource link "@ + u@ + "]\n"@,
        McpContent::Other => "[unsupported content omitted]\n"@,
    }
}

/// The first `n` pieces.
pub open spec fn contents_text(v: Seq<McpContent>, n: nat) -> Seq<char>
    decreases n,
{
    if n == 0 || n > v.len() {
        Seq::empty()
    } else {
        contents_text(v, (n - 1) as nat) + content_text(v[n - 1])
    }
}

/// What a tool gave: its pieces, or, where these say nothing, its data.
pub open spec fn shown_result(v: Seq<McpContent>, data: Option<JsonV>) -> Seq<char> {
    let text = contents_text(v, v.len());
    trimmed_end(
        match data {
            Some(j) => if trimmed(text).len() == 0 {
                pretty_text(j)
            } else {
                text
            },
            None => text,
        },
    )
}

fn show_content(c: &McpContent) -> (r: String)
    ensures
        r@ == content_text(*c),
{
    match c {
        McpContent::Text(t) => t.clone().concat("\n"),
        McpContent::Image => "[image omitted]\n".to_owned(),
        McpContent::Audio => "[audio omitted]\n".to_owned(),
        McpContent::Resource(j) => "[resource ".to_owned().concat(take_chars(j.as_str(), 2000).as_str()).concat(
            "]\n",
        ),
        McpContent::ResourceLink(u) => "[resource link ".to_owned().concat(u.as_str()).concat("]\n"),
        McpContent::Other => "[unsupported content omitted]\n".to_owned(),
    }
}

/// What a tool gave, as text.
pub fn show_result(v: &Vec<McpContent>, data: Option<&Json>) -> (r: String)
    ensures
        r@ == shown_result(v@, opt_view(data)),
{
    let mut text = String::new();
    let mut i: usize = 0;
    assert(text@ =~= contents_text(v@, 0));
    while i < v.len()
        invariant
            i <= v.len(),
            text@ == contents_text(v@, i as nat),
        decreases v.len() - i,
    {
        text = text.concat(show_content(&v[i]).as_str());
        i += 1;
    }
    let whole = match data {
        Some(j) => if trim_str(text.as_str()).as_str().is_empty() {
            j.to_pretty_text()
        } else {
            text
        },
        None => text,
    };
    string_of(&trim_end(&chars_of(whole.as_str())))
}

/// The class of a server's tools, by how far it is trusted.
pub fn class_for(trust: &str) -> (r: PermissionClass)
    ensures
        r == if trust@ == "readonly"@ || trust@ == "yolo"@ {
            PermissionClass::ReadOnly
        } else {
            PermissionClass::Network
        },
{
    if str_eq(trust, "readonly") || str_eq(trust, "yolo") {
        PermissionClass::ReadOnly
    } else {
        PermissionClass::Network
    }
}

/// The members without the one of a key; the last takes its place.
pub open spec fn without_member(m: Seq<(Seq<char>, JsonV)>, key: Seq<char>) -> Seq<(Seq<char>, JsonV)> {
    match member_index(m, key, 0) {
        Some(k) => if k == m.len() - 1 {
            m.drop_last()
        } else {
            m.update(k, m.last()).drop_last()
        },
        None => m,
    }
}

/// A tool of a server, as it is offered.
#[derive(Debug)]
pub struct McpTool {
    pub name: String,
    pub remote_name: String,
    pub description: String,
    pub schema: Json,
    pub class: PermissionClass,
    pub timeout_s: u64,
}

/// The tool of a server under its name here.
pub fn describe_tool(server: &McpServer, remote_name: &str, description: Option<&str>, schema: &Json) -> (r: McpTool)
    ensures
        r.name@ == "mcp__"@ + server.name@ + "__"@ + remote_name@,
        r.remote_name@ == remote_name@,
        r.description@ == "[MCP "@ + server.name@ + "] "@ + (match description {
            Some(d) => d@,
            None => Seq::empty(),
        }),
        r.schema@ == (match schema@ {
            JsonV::Object(m) => JsonV::Object(without_member(m, "$schema"@)),
            other => other,
        }),
        r.class == if server.trust@ == "readonly"@ || server.trust@ == "yolo"@ {
            PermissionClass::ReadOnly
        } else {
            PermissionClass::Network
        },
        r.timeout_s == call_timeout(server.timeout_s),
{
    let own = schema.copy();
    proof {
        lemma_view(own);
    }
    let schema = match own {
        Json::Object(m) => {
            let mut m2 = m;
            let ghost mv = members(m2@);
            if let Some(k) = find_member(&m2, "$schema") {
                let _ = m2.swap_remove(k);
                assert(members(m2@) =~= without_member(mv, "$schema"@));
            }
            object(m2)
        },
        other => other,
    };
    let tail = match description {
        Some(d) => d.to_owned(),
        None => String::new(),
    };
    McpTool {
        name: "mcp__".to_owned().concat(server.name.as_str()).concat("__").concat(remote_name),
        remote_name: remote_name.to_owned(),
        description: "[MCP ".to_owned().concat(server.name.as_str()).concat("] ").concat(tail.as_str()),
        schema,
        class: class_for(server.trust.as_str()),
        timeout_s: timeout_for(server),
    }
}

/// How long a server may take: at least five seconds.
pub open spec fn call_timeout(s: u64) -> u64 {
    if s >= 5 {
        s
    } else {
        5
    }
}

pub fn timeout_for(server: &McpServer) -> (r: u64)
    ensures
        r == call_timeout(server.timeout_s),
{
    if server.timeout_s >= 5 {
        server.timeout_s
    } else {
        5
    }
}

/// Whether a server is used.
pub fn is_used(server: &McpServer) -> (r: bool)
    ensures
        r == (server.enabled && server.command@.len() > 0),
{
    server.enabled && !server.command.as_str().is_empty()
}

proof fn lemma_piece_is_there(v: Seq<McpContent>, n: nat, i: int) -> (p: int)
    requires
        0 <= i < n <= v.len(),
    ensures
        at(contents_text(v, n), p, content_text(v[i])),
    decreases n,
{
    let t = contents_text(v, n);
    let b = contents_text(v, (n - 1) as nat);
    let l = content_text(v[i]);
    if i == n - 1 {
        let p = b.len() as int;
        assert(t.subrange(p, p + l.len()) =~= l);
        p
    } else {
        let p = lemma_piece_is_there(v, (n - 1) as nat, i);
        assert(t.subrange(p, p + l.len()) =~= b.subrange(p, p + l.len()));
        p
    }
}

/// Every text that a tool gave stands in what is made of its pieces, on lines of its own; and so
/// does the address of every resource.
pub proof fn law_every_piece_is_shown(v: Seq<McpContent>, n: nat, i: int)
    requires
        0 <= i < n <= v.len(),
    ensures
        v[i] matches McpContent::Text(t) ==> holds(contents_text(v, n), t@ + "\n"@),
        v[i] matches McpContent::ResourceLink(u) ==> holds(contents_text(v, n), u@),
{
    let p = lemma_piece_is_there(v, n, i);
    let t = contents_text(v, n);
    let l = content_text(v[i]);
    if let McpContent::ResourceLink(u) = v[i] {
        let k = "[resource link "@.len() as int;
        assert(l.subrange(k, k + u@.len()) =~= u@);
        let q = p + k;
        assert(t.subrange(q, q + u@.len()) =~= t.subrange(p, p + l.len()).subrange(k, k + u@.len()));
        assert(at(t, q, u@));
    }
}

/// Texts are shown as they are, without the white space at their end; data only where they say
/// nothing.
pub proof fn law_data_is_shown_where_texts_say_nothing(v: Seq<McpContent>, data: JsonV)
    ensures
        shown_result(v, None) == trimmed_end(contents_text(v, v.len())),
        trimmed(contents_text(v, v.len())).len() > 0 ==> shown_result(v, Some(data)) == shown_result(v, None),
        trimmed(contents_text(v, v.len())).len() == 0 ==> shown_result(v, Some(data)) == trimmed_end(pretty_text(data)),
        forall|s: u64| s >= 5 ==> #[trigger] call_timeout(s) == s,
        forall|s: u64| s < 5 ==> #[trigger] call_timeout(s) == 5,
{
}

/// Taking a member out of an object takes out that one and no other.
pub proof fn law_only_the_member_is_taken_out(m: Seq<(Seq<char>, JsonV)>, key: Seq<char>, other: Seq<char>)
    requires
        keys_distinct(m),
    ensures
        member(without_member(m, key), key) is None,
        other != key ==> member(without_member(m, key), other) == member(m, other),
{
    assert(without_member(m, key) == crate::ports::without_member(m, key));
    law_withdraw_touches_own_entry_only(m, key, other);
}

} // verus!
