//! The symbols that a file defines, and the names that it mentions.

use crate::gguf::{from_utf8_lossy, lossy_text};
use crate::lang::{
    Language, SymKind, find_kind, holds_text, kind_from, kind_pairs,
    law_definitions_are_told_by_their_node, texts,
};
use crate::message::{at_most, byte_len, bytes_in, opt_string};
use crate::syntax::{
    NodeV, SyntaxNode, Want, bytes_between, child, child_from, find_child, find_child_from,
    node_text, nodes_view, read_syntax, syntax, text_of_node,
};
use crate::text::{
    all_digits, at, begins, char_from, char_lists, chars_of, contains, digit, find_char,
    first_chars, holds, is_ascii_upper, is_digit, is_space, law_lines_end_at_line_feeds,
    law_trimming_takes_off_white_space, lemma_char_from, lines, lines_of, slice, starts_with,
    str_eq, string_of, take_chars, trim, trim_end, trim_matches, trim_str, trimmed, trimmed_end,
    without_ends,
};
use vstd::hash_map::StringHashMap;
use vstd::prelude::*;
use vstd::string::*;

verus! {

/// Whether a character is an upper-case letter in Unicode.
pub uninterp spec fn unicode_uppercase(c: char) -> bool;

/// `char::is_uppercase`. It depends on the character alone; of the ASCII characters it
/// holds exactly for the capital letters.
pub assume_specification[ char::is_uppercase ](c: char) -> (r: bool)
    ensures
        r == unicode_uppercase(c),
        (c as u32) < 128 ==> r == is_ascii_upper(c),
;

/// A symbol of a file.
#[derive(Debug)]
pub struct Symbol {
    pub name: String,
    pub kind: SymKind,
    /// The first and the last line, from one.
    pub line_start: u32,
    pub line_end: u32,
    /// The first line of the definition, at most 120 characters.
    pub signature: String,
    /// The place of the symbol of the file that encloses it.
    pub parent: Option<u32>,
    pub is_public: bool,
}

#[verifier::ext_equal]
pub struct SymbolV {
    pub name: Seq<char>,
    pub kind: SymKind,
    pub line_start: u32,
    pub line_end: u32,
    pub signature: Seq<char>,
    pub parent: Option<u32>,
    pub is_public: bool,
}

impl View for Symbol {
    type V = SymbolV;

    open spec fn view(&self) -> SymbolV {
        SymbolV {
            name: self.name@,
            kind: self.kind,
            line_start: self.line_start,
            line_end: self.line_end,
            signature: self.signature@,
            parent: self.parent,
            is_public: self.is_public,
        }
    }
}

pub open spec fn symbols_view(v: Seq<Symbol>) -> Seq<SymbolV> {
    Seq::new(v.len(), |i: int| v[i]@)
}

impl Symbol {
    pub fn copy(&self) -> (r: Symbol)
        ensures
            r@ == self@,
    {
        Symbol {
            name: self.name.clone(),
            kind: self.kind,
            line_start: self.line_start,
            line_end: self.line_end,
            signature: self.signature.clone(),
            parent: self.parent,
            is_public: self.is_public,
        }
    }
}

pub fn copy_symbols(v: &Vec<Symbol>) -> (r: Vec<Symbol>)
    ensures
        symbols_view(r@) == symbols_view(v@),
{
    let mut out: Vec<Symbol> = Vec::new();
    let mut i: usize = 0;
    while i < v.len()
        invariant
            i <= v.len(),
            symbols_view(out@) == symbols_view(v@).take(i as int),
        decreases v.len() - i,
    {
        let ghost b = out@;
        out.push(v[i].copy());
        assert(symbols_view(out@) =~= symbols_view(b).push(v@[i as int]@));
        i += 1;
    }
    assert(symbols_view(out@) =~= symbols_view(v@));
    out
}

/// What a file defines, and how often it mentions each name.
#[derive(Debug)]
pub struct ParsedFile {
    pub symbols: Vec<Symbol>,
    pub refs: Vec<(String, u16)>,
}

pub open spec fn refs_view(v: Seq<(String, u16)>) -> Seq<(Seq<char>, u16)> {
    Seq::new(v.len(), |i: int| (v[i].0@, v[i].1))
}

pub struct ParsedV {
    pub symbols: Seq<SymbolV>,
    pub refs: Seq<(Seq<char>, u16)>,
}

impl View for ParsedFile {
    type V = ParsedV;

    open spec fn view(&self) -> ParsedV {
        ParsedV { symbols: symbols_view(self.symbols@), refs: refs_view(self.refs@) }
    }
}

// ---------------------------------------------------------------- names

/// The text of a node without white space at its ends.
pub open spec fn tidy_text(src: Seq<u8>, n: NodeV) -> Option<Seq<char>> {
    match node_text(src, n) {
        Some(t) => Some(trimmed(t)),
        None => None,
    }
}

/// The text without the given character at its start.
pub open spec fn without_leading(s: Seq<char>, c: char) -> Seq<char>
    decreases s.len(),
{
    if s.len() > 0 && s[0] == c {
        without_leading(s.drop_first(), c)
    } else {
        s
    }
}

/// The text without the given character at its end.
pub open spec fn without_trailing(s: Seq<char>, c: char) -> Seq<char>
    decreases s.len(),
{
    if s.len() > 0 && s.last() == c {
        without_trailing(s.drop_last(), c)
    } else {
        s
    }
}

/// The text of a heading without its marks.
pub open spec fn heading_text(t: Seq<char>) -> Seq<char> {
    trimmed(without_trailing(without_trailing(trimmed(without_leading(t, '#')), '='), '-'))
}

/// The name that a declarator declares: the identifier that is reached through its
/// declarators and names.
pub open spec fn declared_name(ns: Seq<NodeV>, src: Seq<u8>, i: int) -> Option<Seq<char>>
    decreases ns.len() - i,
{
    if !(0 <= i < ns.len()) {
        None
    } else if holds(ns[i].kind, "identifier"@) {
        node_text(src, ns[i])
    } else {
        match inner_declarator(ns, i) {
            Some(k) => if i < k < ns.len() {
                declared_name(ns, src, k)
            } else {
                None
            },
            None => None,
        }
    }
}

/// The child through which the declared name is reached.
pub open spec fn inner_declarator(ns: Seq<NodeV>, i: int) -> Option<int> {
    match child(ns, i, Want::DeclaratorField) {
        Some(k) => Some(k),
        None => match child(ns, i, Want::NameField) {
            Some(k) => Some(k),
            None => child(ns, i, Want::Declared),
        },
    }
}

/// The child that has the name of a declarator.
pub open spec fn declarator_part(ns: Seq<NodeV>, k: int) -> Option<int> {
    match child(ns, k, Want::NameField) {
        Some(m) => Some(m),
        None => child(ns, k, Want::DeclaratorField),
    }
}

/// The name of the first declarator of a declaration, from place `j` on, that has one.
pub open spec fn declaration_name(ns: Seq<NodeV>, src: Seq<u8>, i: int, j: int) -> Option<Seq<char>>
    decreases ns.len() - j,
{
    match child_from(ns, i, Want::Declarator, j) {
        Some(k) => if j <= k < ns.len() {
            match declarator_part(ns, k) {
                Some(m) => declared_name(ns, src, m),
                None => declaration_name(ns, src, i, k + 1),
            }
        } else {
            None
        },
        None => None,
    }
}

/// The name of an implementation: the type, with the trait before it where there is one.
pub open spec fn impl_name(ns: Seq<NodeV>, src: Seq<u8>, i: int) -> Option<Seq<char>> {
    match child(ns, i, Want::TypeField) {
        Some(k) => {
            let trait_text = match child(ns, i, Want::TraitField) {
                Some(m) => tidy_text(src, ns[m]),
                None => None,
            };
            match (tidy_text(src, ns[k]), trait_text) {
                (Some(t), Some(tr)) => Some(tr + " for "@ + t),
                (Some(t), None) => Some(t),
                _ => None,
            }
        },
        None => None,
    }
}

/// The text of the first of two children that is there.
pub open spec fn text_of_either(ns: Seq<NodeV>, src: Seq<u8>, a: Option<int>, b: Option<int>) -> Option<Seq<char>> {
    match a {
        Some(k) => tidy_text(src, ns[k]),
        None => match b {
            Some(k) => tidy_text(src, ns[k]),
            None => None,
        },
    }
}

/// The name of the symbol that a node of code defines.
pub open spec fn code_name(ns: Seq<NodeV>, src: Seq<u8>, i: int) -> Option<Seq<char>> {
    let kind = ns[i].kind;
    if child(ns, i, Want::NameField) is Some {
        tidy_text(src, ns[child(ns, i, Want::NameField)->Some_0])
    } else if child(ns, i, Want::DeclaratorField) is Some {
        declared_name(ns, src, child(ns, i, Want::DeclaratorField)->Some_0)
    } else if kind == "impl_item"@ {
        impl_name(ns, src, i)
    } else if kind == "lexical_declaration"@ || kind == "variable_declaration"@ || kind == "declaration"@ {
        declaration_name(ns, src, i, i + 1)
    } else if kind == "template_declaration"@ {
        None
    } else {
        match child(ns, i, Want::Identifier) {
            Some(k) => tidy_text(src, ns[k]),
            None => None,
        }
    }
}

/// The name of the symbol that a node defines.
pub open spec fn symbol_name_of(lang: Language, ns: Seq<NodeV>, src: Seq<u8>, i: int) -> Option<Seq<char>> {
    if lang == Language::Markdown {
        match tidy_text(src, ns[i]) {
            Some(t) => Some(heading_text(t)),
            None => None,
        }
    } else if lang == Language::Json || lang == Language::Toml {
        if ns[i].kind == "pair"@ {
            match text_of_either(ns, src, child(ns, i, Want::KeyField), child(ns, i, Want::Any)) {
                Some(t) => Some(without_ends(t, '"')),
                None => None,
            }
        } else {
            text_of_either(ns, src, child(ns, i, Want::NameField), child(ns, i, Want::Named))
        }
    } else {
        code_name(ns, src, i)
    }
}

fn tidy(src: &[u8], n: &SyntaxNode) -> (r: Option<String>)
    ensures
        opt_string(r) == tidy_text(src@, n@),
{
    match text_of_node(src, n) {
        Some(t) => Some(trim_str(t.as_str())),
        None => None,
    }
}

pub fn trim_leading(s: &Vec<char>, c: char) -> (r: Vec<char>)
    ensures
        r@ == without_leading(s@, c),
{
    let mut i: usize = 0;
    assert(s@.skip(0) =~= s@);
    while i < s.len() && s[i] == c
        invariant
            i <= s.len(),
            without_leading(s@, c) == without_leading(s@.skip(i as int), c),
        decreases s.len() - i,
    {
        assert(s@.skip(i as int).drop_first() =~= s@.skip(i + 1));
        i += 1;
    }
    assert(i < s.len() ==> s@.skip(i as int)[0] == s@[i as int]);
    let r = slice(s, i, s.len());
    assert(r@ =~= s@.skip(i as int));
    r
}

pub fn trim_trailing(s: &Vec<char>, c: char) -> (r: Vec<char>)
    ensures
        r@ == without_trailing(s@, c),
{
    let mut n: usize = s.len();
    assert(s@.take(n as int) =~= s@);
    while n > 0 && s[n - 1] == c
        invariant
            n <= s.len(),
            without_trailing(s@, c) == without_trailing(s@.take(n as int), c),
        decreases n,
    {
        assert(s@.take(n as int).drop_last() =~= s@.take(n - 1));
        n -= 1;
    }
    assert(n > 0 ==> s@.take(n as int).last() == s@[n - 1]);
    let r = slice(s, 0, n);
    assert(r@ =~= s@.take(n as int));
    r
}

fn find_declared(ns: &Vec<SyntaxNode>, src: &[u8], from: usize) -> (r: Option<String>)
    requires
        from < ns.len(),
    ensures
        opt_string(r) == declared_name(nodes_view(ns@), src@, from as int),
{
    let ghost nv = nodes_view(ns@);
    let mut i: usize = from;
    loop
        invariant
            i < ns.len(),
            nv == nodes_view(ns@),
            declared_name(nv, src@, from as int) == declared_name(nv, src@, i as int),
        decreases ns.len() - i,
    {
        assert(nv[i as int] == ns@[i as int]@);
        if contains(ns[i].kind.as_str(), "identifier") {
            return text_of_node(src, &ns[i]);
        }
        let next = match find_child(ns, i, Want::DeclaratorField) {
            Some(k) => Some(k),
            None => match find_child(ns, i, Want::NameField) {
                Some(k) => Some(k),
                None => find_child(ns, i, Want::Declared),
            },
        };
        match next {
            Some(k) => {
                i = k;
            },
            None => {
                return None;
            },
        }
    }
}

fn find_declaration(ns: &Vec<SyntaxNode>, src: &[u8], i: usize) -> (r: Option<String>)
    requires
        i < ns.len(),
    ensures
        opt_string(r) == declaration_name(nodes_view(ns@), src@, i as int, i + 1),
{
    let ghost nv = nodes_view(ns@);
    let mut j: usize = i + 1;
    loop
        invariant
            i < ns.len(),
            i < j <= ns.len(),
            nv == nodes_view(ns@),
            declaration_name(nv, src@, i as int, i + 1) == declaration_name(nv, src@, i as int, j as int),
        decreases ns.len() - j,
    {
        match find_child_from(ns, i, Want::Declarator, j) {
            Some(k) => {
                let part = match find_child(ns, k, Want::NameField) {
                    Some(m) => Some(m),
                    None => find_child(ns, k, Want::DeclaratorField),
                };
                match part {
                    Some(m) => {
                        return find_declared(ns, src, m);
                    },
                    None => {
                        j = k + 1;
                    },
                }
            },
            None => {
                return None;
            },
        }
    }
}

fn find_impl(ns: &Vec<SyntaxNode>, src: &[u8], i: usize) -> (r: Option<String>)
    requires
        i < ns.len(),
    ensures
        opt_string(r) == impl_name(nodes_view(ns@), src@, i as int),
{
    let ghost nv = nodes_view(ns@);
    match find_child(ns, i, Want::TypeField) {
        Some(k) => {
            assert(nv[k as int] == ns@[k as int]@);
            let tr = match find_child(ns, i, Want::TraitField) {
                Some(m) => {
                    assert(nv[m as int] == ns@[m as int]@);
                    tidy(src, &ns[m])
                },
                None => None,
            };
            match (tidy(src, &ns[k]), tr) {
                (Some(t), Some(tr)) => Some(tr.concat(" for ").concat(t.as_str())),
                (Some(t), None) => Some(t),
                _ => None,
            }
        },
        None => None,
    }
}

fn either_text(ns: &Vec<SyntaxNode>, src: &[u8], a: Option<usize>, b: Option<usize>) -> (r: Option<String>)
    requires
        a matches Some(k) ==> k < ns.len(),
        b matches Some(k) ==> k < ns.len(),
    ensures
        opt_string(r) == text_of_either(
            nodes_view(ns@),
            src@,
            match a {
                Some(k) => Some(k as int),
                None => None,
            },
            match b {
                Some(k) => Some(k as int),
                None => None,
            },
        ),
{
    let ghost nv = nodes_view(ns@);
    match a {
        Some(k) => {
            assert(nv[k as int] == ns@[k as int]@);
            tidy(src, &ns[k])
        },
        None => match b {
            Some(k) => {
                assert(nv[k as int] == ns@[k as int]@);
                tidy(src, &ns[k])
            },
            None => None,
        },
    }
}

fn find_code_name(ns: &Vec<SyntaxNode>, src: &[u8], i: usize) -> (r: Option<String>)
    requires
        i < ns.len(),
    ensures
        opt_string(r) == code_name(nodes_view(ns@), src@, i as int),
{
    let ghost nv = nodes_view(ns@);
    assert(nv[i as int] == ns@[i as int]@);
    if let Some(k) = find_child(ns, i, Want::NameField) {
        assert(nv[k as int] == ns@[k as int]@);
        return tidy(src, &ns[k]);
    }
    if let Some(k) = find_child(ns, i, Want::DeclaratorField) {
        return find_declared(ns, src, k);
    }
    let kind = ns[i].kind.as_str();
    if str_eq(kind, "impl_item") {
        return find_impl(ns, src, i);
    }
    if str_eq(kind, "lexical_declaration") || str_eq(kind, "variable_declaration") || str_eq(kind, "declaration") {
        return find_declaration(ns, src, i);
    }
    if str_eq(kind, "template_declaration") {
        return None;
    }
    match find_child(ns, i, Want::Identifier) {
        Some(k) => {
            assert(nv[k as int] == ns@[k as int]@);
            tidy(src, &ns[k])
        },
        None => None,
    }
}

/// The name of the symbol that a node defines.
pub fn symbol_name(lang: Language, ns: &Vec<SyntaxNode>, src: &[u8], i: usize) -> (r: Option<String>)
    requires
        i < ns.len(),
    ensures
        opt_string(r) == symbol_name_of(lang, nodes_view(ns@), src@, i as int),
{
    let ghost nv = nodes_view(ns@);
    assert(nv[i as int] == ns@[i as int]@);
    match lang {
        Language::Markdown => match tidy(src, &ns[i]) {
            Some(t) => {
                let a = trim(&trim_leading(&chars_of(t.as_str()), '#'));
                let b = trim_trailing(&trim_trailing(&a, '='), '-');
                Some(string_of(&trim(&b)))
            },
            None => None,
        },
        Language::Json | Language::Toml => {
            if str_eq(ns[i].kind.as_str(), "pair") {
                let key = find_child(ns, i, Want::KeyField);
                let first = find_child(ns, i, Want::Any);
                match either_text(ns, src, key, first) {
                    Some(t) => Some(string_of(&trim_matches(&chars_of(t.as_str()), '"'))),
                    None => None,
                }
            } else {
                let name = find_child(ns, i, Want::NameField);
                let first = find_child(ns, i, Want::Named);
                either_text(ns, src, name, first)
            }
        },
        _ => find_code_name(ns, src, i),
    }
}

// ---------------------------------------------------------------- signatures

/// The bytes of a node that its signature is taken from, at most 400.
pub open spec fn head_bytes(src: Seq<u8>, n: NodeV) -> Seq<u8> {
    let to = if n.bytes.1 <= n.bytes.0 + 400 {
        n.bytes.1 as int
    } else {
        n.bytes.0 + 400
    };
    if n.bytes.0 <= to <= src.len() {
        src.subrange(n.bytes.0 as int, to)
    } else {
        Seq::empty()
    }
}

pub open spec fn first_line_of(s: Seq<char>) -> Seq<char> {
    if lines_of(s).len() > 0 {
        lines_of(s)[0]
    } else {
        Seq::empty()
    }
}

/// The text up to the first opening brace.
pub open spec fn before_brace(s: Seq<char>) -> Seq<char> {
    match char_from(s, '{', 0) {
        Some(k) => s.take(k),
        None => s,
    }
}

/// The signature of a definition: its first line, at most 120 characters of it, without
/// what follows a brace, and without a colon at its end.
pub open spec fn signature_of(src: Seq<u8>, n: NodeV) -> Seq<char> {
    let line = first_chars(trimmed(first_line_of(lossy_text(head_bytes(src, n)))), 120);
    without_trailing(trimmed_end(before_brace(line)), ':')
}

fn signature_line(src: &[u8], n: &SyntaxNode) -> (r: String)
    ensures
        r@ == signature_of(src@, n@),
{
    let far: usize = if n.bytes.1 <= n.bytes.0 || n.bytes.1 - n.bytes.0 <= 400 {
        n.bytes.1
    } else {
        n.bytes.0 + 400
    };
    let b = bytes_between(src, n.bytes.0, far);
    assert(b@ == head_bytes(src@, n@));
    let text = from_utf8_lossy(b.as_slice());
    let ls = lines(&chars_of(text.as_str()));
    let first: Vec<char> = if ls.len() > 0 {
        assert(char_lists(ls@)[0] == ls@[0]@);
        slice(&ls[0], 0, ls[0].len())
    } else {
        Vec::new()
    };
    assert(first@ =~= first_line_of(text@));
    let line = chars_of(take_chars(string_of(&trim(&first)).as_str(), 120).as_str());
    let cut = match find_char(&line, '{', 0) {
        Some(k) => {
            let c = slice(&line, 0, k);
            assert(c@ =~= line@.take(k as int));
            c
        },
        None => line,
    };
    string_of(&trim_trailing(&trim_end(&cut), ':'))
}

/// Whether a symbol can be used from elsewhere, as far as its text tells.
pub open spec fn public_of(lang: Language, name: Seq<char>, sig: Seq<char>, parent_kind: Option<Seq<char>>) -> bool {
    match lang {
        Language::Rust => begins(sig, "pub"@),
        Language::Go => name.len() > 0 && unicode_uppercase(name[0]),
        Language::Python => !begins(name, "_"@),
        Language::TypeScript | Language::Tsx | Language::JavaScript => holds(sig, "export"@) || parent_kind == Some(
            "export_statement"@,
        ),
        Language::Java | Language::Cpp | Language::C => holds(sig, "public"@) || lang == Language::C,
        _ => true,
    }
}

fn is_public(lang: Language, name: &str, sig: &str, parent_kind: Option<&str>) -> (r: bool)
    ensures
        r == public_of(lang, name@, sig@, crate::json::opt_str(parent_kind)),
{
    match lang {
        Language::Rust => starts_with(sig, "pub"),
        Language::Go => {
            let cs = chars_of(name);
            cs.len() > 0 && cs[0].is_uppercase()
        },
        Language::Python => !starts_with(name, "_"),
        Language::TypeScript | Language::Tsx | Language::JavaScript => contains(sig, "export") || (match parent_kind {
            Some(k) => str_eq(k, "export_statement"),
            None => false,
        }),
        Language::Java | Language::Cpp | Language::C => contains(sig, "public") || lang == Language::C,
        _ => true,
    }
}

// ---------------------------------------------------------------- the walk

/// How many symbols are taken from a file.
pub open spec fn symbol_cap(lang: Language) -> nat {
    if lang.codes() {
        4000
    } else {
        200
    }
}

/// The walk over a tree so far: the nodes above the present one, each with the symbol that
/// encloses what is below it; the symbols; and the names that were mentioned.
pub struct Walk {
    pub open: Seq<(int, Option<u32>)>,
    pub symbols: Seq<SymbolV>,
    pub refs: Seq<(Seq<char>, u16)>,
}

/// The nodes above a node of the given depth.
pub open spec fn above(open: Seq<(int, Option<u32>)>, ns: Seq<NodeV>, depth: u32) -> Seq<(int, Option<u32>)>
    decreases open.len(),
{
    if open.len() > 0 && ns[open.last().0].depth >= depth {
        above(open.drop_last(), ns, depth)
    } else {
        open
    }
}

pub open spec fn ref_index(v: Seq<(Seq<char>, u16)>, name: Seq<char>, i: int) -> Option<int>
    decreases v.len() - i,
{
    if i < 0 || i >= v.len() {
        None
    } else if v[i].0 == name {
        Some(i)
    } else {
        ref_index(v, name, i + 1)
    }
}

/// The names with one more mention of one.
pub open spec fn mentioned(v: Seq<(Seq<char>, u16)>, name: Seq<char>) -> Seq<(Seq<char>, u16)> {
    match ref_index(v, name, 0) {
        Some(k) => v.update(
            k,
            (
                name,
                if v[k].1 < u16::MAX {
                    (v[k].1 + 1) as u16
                } else {
                    v[k].1
                },
            ),
        ),
        None => v.push((name, 1)),
    }
}

/// The name that a leaf mentions: two to 99 bytes that are not all digits.
pub open spec fn mention_of(lang: Language, ns: Seq<NodeV>, src: Seq<u8>, i: int) -> Option<Seq<char>> {
    let leaf = i + 1 >= ns.len() || ns[i + 1].depth <= ns[i].depth;
    if leaf && lang.mentions().contains(ns[i].kind) {
        match node_text(src, ns[i]) {
            Some(t) => if 1 < byte_len(t) < 100 && !all_digits(t) {
                Some(t)
            } else {
                None
            },
            None => None,
        }
    } else {
        None
    }
}

/// The symbol that a node defines, below the given nodes.
pub open spec fn symbol_of(
    lang: Language,
    ns: Seq<NodeV>,
    src: Seq<u8>,
    i: int,
    open: Seq<(int, Option<u32>)>,
) -> Option<SymbolV> {
    match (kind_from(lang.definitions(), ns[i].kind, 0), symbol_name_of(lang, ns, src, i)) {
        (Some(kind), Some(name)) => if name.len() > 0 && byte_len(name) < 200 {
            let sig = signature_of(src, ns[i]);
            Some(
                SymbolV {
                    name,
                    kind,
                    line_start: line_of(ns[i].rows.0),
                    line_end: line_of(ns[i].rows.1),
                    signature: sig,
                    parent: if open.len() > 0 {
                        open.last().1
                    } else {
                        None
                    },
                    is_public: public_of(
                        lang,
                        name,
                        sig,
                        if open.len() > 0 {
                            Some(ns[open.last().0].kind)
                        } else {
                            None
                        },
                    ),
                },
            )
        } else {
            None
        },
        _ => None,
    }
}

/// The line of a row.
pub open spec fn line_of(row: usize) -> u32 {
    at_most(row as nat + 1, u32::MAX as nat) as u32
}

pub open spec fn walked(lang: Language, ns: Seq<NodeV>, src: Seq<u8>, w: Walk, i: int) -> Walk {
    if !lang.codes() && ns[i].depth > 3 {
        w
    } else {
        let open = above(w.open, ns, ns[i].depth);
        let parent = if open.len() > 0 {
            open.last().1
        } else {
            None
        };
        let made = if w.symbols.len() < symbol_cap(lang) {
            symbol_of(lang, ns, src, i, open)
        } else {
            None
        };
        Walk {
            open: open.push(
                (
                    i,
                    match made {
                        Some(_) => Some(w.symbols.len() as u32),
                        None => parent,
                    },
                ),
            ),
            symbols: match made {
                Some(s) => w.symbols.push(s),
                None => w.symbols,
            },
            refs: match mention_of(lang, ns, src, i) {
                Some(t) => mentioned(w.refs, t),
                None => w.refs,
            },
        }
    }
}

/// The walk over the first `n` nodes.
pub open spec fn walk(lang: Language, ns: Seq<NodeV>, src: Seq<u8>, n: nat) -> Walk
    decreases n,
{
    if n == 0 || n > ns.len() {
        Walk { open: Seq::empty(), symbols: Seq::empty(), refs: Seq::empty() }
    } else {
        walked(lang, ns, src, walk(lang, ns, src, (n - 1) as nat), n - 1)
    }
}

// ---------------------------------------------------------------- order

/// Whether a symbol may stand before another: it begins before, or with it and ends no
/// later.
pub open spec fn in_line_order(a: SymbolV, b: SymbolV) -> bool {
    a.line_start < b.line_start || (a.line_start == b.line_start && a.line_end <= b.line_end)
}

/// The places with one more put where its symbol belongs, behind those of the same lines.
pub open spec fn placed(v: Seq<SymbolV>, order: Seq<u32>, x: u32) -> Seq<u32>
    decreases order.len(),
{
    if order.len() == 0 || in_line_order(v[order.last() as int], v[x as int]) {
        order.push(x)
    } else {
        placed(v, order.drop_last(), x).push(order.last())
    }
}

/// The places of the first `n` symbols in the order of their lines.
pub open spec fn line_order(v: Seq<SymbolV>, n: nat) -> Seq<u32>
    decreases n,
{
    if n == 0 || n > v.len() {
        Seq::empty()
    } else {
        placed(v, line_order(v, (n - 1) as nat), (n - 1) as u32)
    }
}

/// The place of a number in a list.
pub open spec fn place_of(order: Seq<u32>, x: u32, i: int) -> Option<u32>
    decreases order.len() - i,
{
    if i < 0 || i >= order.len() {
        None
    } else if order[i] == x {
        Some(i as u32)
    } else {
        place_of(order, x, i + 1)
    }
}

/// The symbols in the order of their lines, each with the new place of the one that
/// encloses it.
pub open spec fn by_lines(v: Seq<SymbolV>) -> Seq<SymbolV> {
    let order = line_order(v, v.len());
    Seq::new(
        order.len(),
        |k: int|
            SymbolV {
                parent: match v[order[k] as int].parent {
                    Some(p) => place_of(order, p, 0),
                    None => None,
                },
                ..v[order[k] as int]
            },
    )
}

/// What the nodes of a file tell.
pub open spec fn extracted(lang: Language, ns: Seq<NodeV>, src: Seq<u8>) -> ParsedV {
    let w = walk(lang, ns, src, ns.len());
    ParsedV { symbols: by_lines(w.symbols), refs: w.refs }
}

/// What a file tells.
pub open spec fn parsed_file(lang: Language, src: Seq<u8>) -> ParsedV {
    match syntax(lang, src) {
        Some(ns) => extracted(lang, ns, src),
        None => ParsedV { symbols: Seq::empty(), refs: Seq::empty() },
    }
}

// ---------------------------------------------------------------- reading a file

/// The names are at the places that a map says.
spec fn indexed(v: Seq<(Seq<char>, u16)>, m: Map<Seq<char>, usize>) -> bool {
    &&& forall|k: int| 0 <= k < v.len() ==> m.contains_key((#[trigger] v[k]).0) && m[v[k].0] == k
    &&& forall|name: Seq<char>|
        #[trigger] m.contains_key(name) ==> m[name] < v.len() && v[m[name] as int].0 == name
}

proof fn lemma_ref_index(v: Seq<(Seq<char>, u16)>, name: Seq<char>, i: int)
    requires
        0 <= i,
    ensures
        match ref_index(v, name, i) {
            Some(k) => i <= k < v.len() && v[k].0 == name,
            None => forall|k: int| i <= k < v.len() ==> (#[trigger] v[k]).0 != name,
        },
    decreases v.len() - i,
{
    if i < v.len() && v[i].0 != name {
        lemma_ref_index(v, name, i + 1);
    }
}

fn note_ref(refs: &mut Vec<(String, u16)>, index: &mut StringHashMap<usize>, name: String)
    requires
        indexed(refs_view(old(refs)@), old(index)@),
    ensures
        refs_view(final(refs)@) == mentioned(refs_view(old(refs)@), name@),
        indexed(refs_view(final(refs)@), final(index)@),
{
    let ghost rv = refs_view(refs@);
    proof {
        lemma_ref_index(rv, name@, 0);
    }
    let at = match index.get(name.as_str()) {
        Some(k) => Some(*k),
        None => None,
    };
    match at {
        Some(k) => {
            assert(rv[k as int].0 == name@);
            assert(ref_index(rv, name@, 0) == Some(k as int)) by {
                let j = ref_index(rv, name@, 0)->Some_0;
                assert(rv[j].0 == name@);
                assert(index@[rv[j].0] == j);
            }
            let n: u16 = refs[k].1.saturating_add(1);
            refs.set(k, (name, n));
            assert(refs_view(refs@) =~= mentioned(rv, name@));
        },
        None => {
            assert(ref_index(rv, name@, 0) is None) by {
                if let Some(j) = ref_index(rv, name@, 0) {
                    assert(index@.contains_key(rv[j].0));
                }
            }
            let k: usize = refs.len();
            index.insert(name.clone(), k);
            refs.push((name, 1));
            assert(refs_view(refs@) =~= mentioned(rv, name@));
        },
    }
}

fn find_mention(lang: Language, kinds: &Vec<&'static str>, ns: &Vec<SyntaxNode>, src: &[u8], i: usize) -> (r: Option<
    String,
>)
    requires
        i < ns.len(),
        texts(kinds@) == lang.mentions(),
    ensures
        opt_string(r) == mention_of(lang, nodes_view(ns@), src@, i as int),
{
    let ghost nv = nodes_view(ns@);
    assert(nv[i as int] == ns@[i as int]@);
    assert(i + 1 < ns.len() ==> nv[i + 1] == ns@[i + 1]@);
    let leaf = i + 1 >= ns.len() || ns[i + 1].depth <= ns[i].depth;
    if !leaf || !holds_text(kinds, ns[i].kind.as_str()) {
        return None;
    }
    match text_of_node(src, &ns[i]) {
        Some(t) => {
            let n = bytes_in(t.as_str());
            if 1 < n && n < 100 && !only_digits(t.as_str()) {
                Some(t)
            } else {
                None
            }
        },
        None => None,
    }
}

fn only_digits(s: &str) -> (r: bool)
    ensures
        r == all_digits(s@),
{
    let cs = chars_of(s);
    let mut i: usize = 0;
    while i < cs.len()
        invariant
            i <= cs.len(),
            cs@ == s@,
            forall|k: int| 0 <= k < i ==> is_digit(#[trigger] cs@[k]),
        decreases cs.len() - i,
    {
        if !digit(cs[i]) {
            assert(!is_digit(s@[i as int]));
            return false;
        }
        i += 1;
    }
    true
}

spec fn open_view(v: Seq<(usize, Option<u32>)>) -> Seq<(int, Option<u32>)> {
    Seq::new(v.len(), |i: int| (v[i].0 as int, v[i].1))
}

fn close_to(open: &mut Vec<(usize, Option<u32>)>, ns: &Vec<SyntaxNode>, depth: u32)
    requires
        forall|k: int| 0 <= k < old(open)@.len() ==> (#[trigger] old(open)@[k]).0 < ns@.len(),
    ensures
        open_view(final(open)@) == above(open_view(old(open)@), nodes_view(ns@), depth),
        forall|k: int| 0 <= k < final(open)@.len() ==> (#[trigger] final(open)@[k]).0 < ns@.len(),
{
    let ghost start = open_view(open@);
    let ghost nv = nodes_view(ns@);
    while open.len() > 0 && ns[open[open.len() - 1].0].depth >= depth
        invariant
            start == open_view(old(open)@),
            nv == nodes_view(ns@),
            above(start, nv, depth) == above(open_view(open@), nv, depth),
            forall|k: int| 0 <= k < open@.len() ==> (#[trigger] open@[k]).0 < ns@.len(),
        decreases open.len(),
    {
        let ghost b = open_view(open@);
        assert(nv[b.last().0] == ns@[open@.last().0 as int]@);
        open.pop();
        assert(open_view(open@) =~= b.drop_last());
    }
    if open.len() > 0 {
        assert(nv[open_view(open@).last().0] == ns@[open@.last().0 as int]@);
    }
}

fn find_symbol(
    lang: Language,
    defs: &Vec<(&'static str, SymKind)>,
    ns: &Vec<SyntaxNode>,
    src: &[u8],
    i: usize,
    open: &Vec<(usize, Option<u32>)>,
) -> (r: Option<Symbol>)
    requires
        i < ns.len(),
        kind_pairs(defs@) == lang.definitions(),
        forall|k: int| 0 <= k < open@.len() ==> (#[trigger] open@[k]).0 < ns@.len(),
    ensures
        match r {
            Some(s) => symbol_of(lang, nodes_view(ns@), src@, i as int, open_view(open@)) == Some(s@),
            None => symbol_of(lang, nodes_view(ns@), src@, i as int, open_view(open@)) is None,
        },
{
    let ghost nv = nodes_view(ns@);
    assert(nv[i as int] == ns@[i as int]@);
    let kind = match find_kind(defs, ns[i].kind.as_str()) {
        Some(k) => k,
        None => {
            return None;
        },
    };
    let name = match symbol_name(lang, ns, src, i) {
        Some(n) => n,
        None => {
            return None;
        },
    };
    if name.as_str().is_empty() || bytes_in(name.as_str()) >= 200 {
        return None;
    }
    let signature = signature_line(src, &ns[i]);
    let public = if open.len() > 0 {
        let top = open[open.len() - 1].0;
        assert(nv[top as int] == ns@[top as int]@);
        is_public(lang, name.as_str(), signature.as_str(), Some(ns[top].kind.as_str()))
    } else {
        is_public(lang, name.as_str(), signature.as_str(), None)
    };
    let parent = if open.len() > 0 {
        open[open.len() - 1].1
    } else {
        None
    };
    Some(
        Symbol {
            name,
            kind,
            line_start: to_line(ns[i].rows.0),
            line_end: to_line(ns[i].rows.1),
            signature,
            parent,
            is_public: public,
        },
    )
}

fn to_line(row: usize) -> (r: u32)
    ensures
        r == line_of(row),
{
    if row < u32::MAX as usize {
        row as u32 + 1
    } else {
        u32::MAX
    }
}

/// The places of symbols in the order of their lines.
fn sort_places(v: &Vec<Symbol>) -> (r: Vec<u32>)
    requires
        v.len() <= u32::MAX,
    ensures
        r@ == line_order(symbols_view(v@), v@.len()),
        forall|k: int| 0 <= k < r@.len() ==> (#[trigger] r@[k]) < v@.len(),
{
    let ghost sv = symbols_view(v@);
    let mut order: Vec<u32> = Vec::new();
    let mut i: usize = 0;
    while i < v.len()
        invariant
            i <= v.len(),
            v.len() <= u32::MAX,
            sv == symbols_view(v@),
            order@ == line_order(sv, i as nat),
            forall|k: int| 0 <= k < order@.len() ==> (#[trigger] order@[k]) < i,
        decreases v.len() - i,
    {
        let x: u32 = i as u32;
        let ghost o = order@;
        let mut j: usize = order.len();
        assert(o.take(j as int) =~= o);
        assert(placed(sv, o.take(j as int), x) + o.skip(j as int) =~= placed(sv, o, x));
        while j > 0 && !line_ordered(&v[order[j - 1] as usize], &v[i])
            invariant
                i < v.len(),
                x == i,
                j <= order.len(),
                o == order@,
                sv == symbols_view(v@),
                forall|k: int| 0 <= k < order@.len() ==> (#[trigger] order@[k]) < i,
                placed(sv, o, x) == placed(sv, o.take(j as int), x) + o.skip(j as int),
            decreases j,
        {
            let ghost p = o.take(j as int);
            assert(p.last() == o[j - 1]);
            assert(p.drop_last() =~= o.take(j - 1));
            assert(placed(sv, p, x) == placed(sv, p.drop_last(), x).push(p.last()));
            assert(placed(sv, o.take(j - 1), x) + o.skip(j - 1) =~= placed(sv, p, x) + o.skip(j as int));
            j -= 1;
        }
        if j > 0 {
            assert(o.take(j as int).last() == o[j - 1]);
        }
        order.insert(j, x);
        assert(order@ =~= o.take(j as int).push(x) + o.skip(j as int));
        i += 1;
    }
    order
}

fn line_ordered(a: &Symbol, b: &Symbol) -> (r: bool)
    ensures
        r == in_line_order(a@, b@),
{
    a.line_start < b.line_start || (a.line_start == b.line_start && a.line_end <= b.line_end)
}

fn find_place(order: &Vec<u32>, x: u32) -> (r: Option<u32>)
    requires
        order.len() <= u32::MAX,
    ensures
        r == place_of(order@, x, 0),
{
    let mut i: usize = 0;
    while i < order.len()
        invariant
            i <= order.len(),
            order.len() <= u32::MAX,
            place_of(order@, x, 0) == place_of(order@, x, i as int),
        decreases order.len() - i,
    {
        if order[i] == x {
            return Some(i as u32);
        }
        i += 1;
    }
    None
}

fn sort_by_lines(v: &Vec<Symbol>) -> (r: Vec<Symbol>)
    requires
        v.len() <= 0x7fff_ffff,
    ensures
        symbols_view(r@) == by_lines(symbols_view(v@)),
{
    let ghost sv = symbols_view(v@);
    let order = sort_places(v);
    proof {
        lemma_order_len(sv, sv.len());
    }
    let mut out: Vec<Symbol> = Vec::new();
    let mut k: usize = 0;
    let ghost want = by_lines(sv);
    while k < order.len()
        invariant
            k <= order.len(),
            order.len() == v.len(),
            v.len() <= 0x7fff_ffff,
            sv == symbols_view(v@),
            want == by_lines(sv),
            order@ == line_order(sv, sv.len()),
            forall|j: int| 0 <= j < order@.len() ==> (#[trigger] order@[j]) < v@.len(),
            symbols_view(out@) == want.take(k as int),
        decreases order.len() - k,
    {
        let at = order[k] as usize;
        assert(sv[at as int] == v@[at as int]@);
        let mut s = v[at].copy();
        s.parent = match s.parent {
            Some(p) => find_place(&order, p),
            None => None,
        };
        assert(s@ == want[k as int]);
        let ghost b = out@;
        out.push(s);
        assert(symbols_view(out@) =~= symbols_view(b).push(want[k as int]));
        k += 1;
    }
    assert(symbols_view(out@) =~= want);
    out
}

proof fn lemma_placed_len(v: Seq<SymbolV>, order: Seq<u32>, x: u32)
    ensures
        placed(v, order, x).len() == order.len() + 1,
    decreases order.len(),
{
    if order.len() > 0 && !in_line_order(v[order.last() as int], v[x as int]) {
        lemma_placed_len(v, order.drop_last(), x);
    }
}

proof fn lemma_order_len(v: Seq<SymbolV>, n: nat)
    requires
        n <= v.len(),
    ensures
        line_order(v, n).len() == n,
    decreases n,
{
    if n > 0 {
        lemma_order_len(v, (n - 1) as nat);
        lemma_placed_len(v, line_order(v, (n - 1) as nat), (n - 1) as u32);
    }
}

/// What the nodes of a file tell.
pub fn extract(lang: Language, ns: &Vec<SyntaxNode>, src: &[u8]) -> (r: ParsedFile)
    ensures
        r@ == extracted(lang, nodes_view(ns@), src@),
{
    let ghost nv = nodes_view(ns@);
    let defs = lang.def_kinds();
    let kinds = lang.ref_kinds();
    let code = lang.is_code();
    let cap: usize = if code {
        4000
    } else {
        200
    };
    let mut open: Vec<(usize, Option<u32>)> = Vec::new();
    let mut symbols: Vec<Symbol> = Vec::new();
    let mut refs: Vec<(String, u16)> = Vec::new();
    let mut index: StringHashMap<usize> = StringHashMap::new();
    assert(open_view(open@) =~= Seq::empty());
    assert(symbols_view(symbols@) =~= Seq::empty());
    assert(refs_view(refs@) =~= Seq::empty());
    let mut i: usize = 0;
    while i < ns.len()
        invariant
            i <= ns.len(),
            nv == nodes_view(ns@),
            kind_pairs(defs@) == lang.definitions(),
            texts(kinds@) == lang.mentions(),
            code == lang.codes(),
            cap == symbol_cap(lang),
            symbols@.len() <= cap,
            indexed(refs_view(refs@), index@),
            forall|k: int| 0 <= k < open@.len() ==> (#[trigger] open@[k]).0 < ns@.len(),
            walk(lang, nv, src@, i as nat) == (Walk {
                open: open_view(open@),
                symbols: symbols_view(symbols@),
                refs: refs_view(refs@),
            }),
        decreases ns.len() - i,
    {
        assert(nv[i as int] == ns@[i as int]@);
        let ghost w = walk(lang, nv, src@, i as nat);
        if code || ns[i].depth <= 3 {
            close_to(&mut open, ns, ns[i].depth);
            let ghost ov = open_view(open@);
            let parent = if open.len() > 0 {
                open[open.len() - 1].1
            } else {
                None
            };
            let made = if symbols.len() < cap {
                find_symbol(lang, &defs, ns, src, i, &open)
            } else {
                None
            };
            let mine = match made {
                Some(s) => {
                    let at: u32 = symbols.len() as u32;
                    let ghost b = symbols@;
                    symbols.push(s);
                    assert(symbols_view(symbols@) =~= symbols_view(b).push(s@));
                    Some(at)
                },
                None => parent,
            };
            open.push((i, mine));
            assert(open_view(open@) =~= ov.push((i as int, mine)));
            if let Some(t) = find_mention(lang, &kinds, ns, src, i) {
                note_ref(&mut refs, &mut index, t);
            }
            assert(walked(lang, nv, src@, w, i as int).open == open_view(open@));
            assert(walked(lang, nv, src@, w, i as int).symbols == symbols_view(symbols@));
            assert(walked(lang, nv, src@, w, i as int).refs == refs_view(refs@));
        }
        i += 1;
    }
    ParsedFile { symbols: sort_by_lines(&symbols), refs }
}

/// Reads the symbols and the mentioned names of a file.
pub fn parse(lang: Language, src: &[u8]) -> (r: ParsedFile)
    ensures
        r@ == parsed_file(lang, src@),
{
    match read_syntax(lang, src) {
        Some(ns) => extract(lang, &ns, src),
        None => {
            let r = ParsedFile { symbols: Vec::new(), refs: Vec::new() };
            assert(r@.symbols =~= Seq::empty());
            assert(r@.refs =~= Seq::empty());
            r
        },
    }
}

impl ParsedFile {
    /// How often a name is mentioned.
    pub fn mentions(&self, name: &str) -> (r: u16)
        ensures
            r == (match ref_index(self@.refs, name@, 0) {
                Some(k) => self@.refs[k].1,
                None => 0,
            }),
    {
        let ghost rv = refs_view(self.refs@);
        let mut i: usize = 0;
        while i < self.refs.len()
            invariant
                i <= self.refs.len(),
                rv == refs_view(self.refs@),
                ref_index(rv, name@, 0) == ref_index(rv, name@, i as int),
            decreases self.refs.len() - i,
        {
            assert(rv[i as int] == (self.refs@[i as int].0@, self.refs@[i as int].1));
            if str_eq(self.refs[i].0.as_str(), name) {
                return self.refs[i].1;
            }
            i += 1;
        }
        0
    }
}

// ---------------------------------------------------------------- laws

proof fn lemma_placed_holds(v: Seq<SymbolV>, order: Seq<u32>, x: u32, y: u32)
    ensures
        placed(v, order, x).contains(y) == (order.contains(y) || y == x),
    decreases order.len(),
{
    let r = placed(v, order, x);
    if order.len() == 0 || in_line_order(v[order.last() as int], v[x as int]) {
        if order.contains(y) {
            let i = choose|i: int| 0 <= i < order.len() && order[i] == y;
            assert(r[i] == y);
        }
        assert(r[order.len() as int] == x);
        if r.contains(y) {
            let i = choose|i: int| 0 <= i < r.len() && r[i] == y;
            if i < order.len() {
                assert(order[i] == y);
            }
        }
    } else {
        let p = order.drop_last();
        lemma_placed_holds(v, p, x, y);
        let q = placed(v, p, x);
        assert(r == q.push(order.last()));
        if order.contains(y) {
            let i = choose|i: int| 0 <= i < order.len() && order[i] == y;
            if i < p.len() {
                assert(p[i] == y);
                let k = choose|k: int| 0 <= k < q.len() && q[k] == y;
                assert(r[k] == y);
            } else {
                assert(r[q.len() as int] == y);
            }
        }
        if y == x {
            let k = choose|k: int| 0 <= k < q.len() && q[k] == y;
            assert(r[k] == y);
        }
        if r.contains(y) {
            let i = choose|i: int| 0 <= i < r.len() && r[i] == y;
            if i < q.len() {
                assert(q[i] == y);
                if p.contains(y) {
                    let k = choose|k: int| 0 <= k < p.len() && p[k] == y;
                    assert(order[k] == y);
                }
            } else {
                assert(order[order.len() - 1] == y);
            }
        }
    }
}

proof fn lemma_order_holds(v: Seq<SymbolV>, n: nat, y: u32)
    requires
        n <= v.len() <= u32::MAX,
    ensures
        line_order(v, n).contains(y) == (y < n),
    decreases n,
{
    if n > 0 {
        lemma_order_holds(v, (n - 1) as nat, y);
        lemma_placed_holds(v, line_order(v, (n - 1) as nat), (n - 1) as u32, y);
    }
}

proof fn lemma_place_of(order: Seq<u32>, x: u32, i: int)
    requires
        0 <= i,
        order.len() <= u32::MAX,
    ensures
        match place_of(order, x, i) {
            Some(k) => i <= k < order.len() && order[k as int] == x,
            None => forall|k: int| i <= k < order.len() ==> #[trigger] order[k] != x,
        },
    decreases order.len() - i,
{
    if i < order.len() && order[i] != x {
        lemma_place_of(order, x, i + 1);
    }
}

/// Sorting keeps every symbol, and the parent of each is still the symbol that encloses
/// it.
pub proof fn law_parents_follow_their_symbols(v: Seq<SymbolV>, k: int)
    requires
        v.len() <= u32::MAX,
        0 <= k < v.len(),
        forall|i: int| 0 <= i < v.len() ==> ((#[trigger] v[i]).parent matches Some(p) ==> p < v.len()),
    ensures
        by_lines(v).len() == v.len(),
        line_order(v, v.len())[k] < v.len(),
        ({
            let old = v[line_order(v, v.len())[k] as int];
            let new = by_lines(v)[k];
            &&& new.name == old.name
            &&& match old.parent {
                Some(p) => new.parent matches Some(q) && q < v.len() && by_lines(v)[q as int].name
                    == v[p as int].name && line_order(v, v.len())[q as int] == p,
                None => new.parent is None,
            }
        }),
{
    let order = line_order(v, v.len());
    lemma_order_len(v, v.len());
    lemma_order_holds(v, v.len(), order[k]);
    assert(order.contains(order[k]));
    if let Some(p) = v[order[k] as int].parent {
        lemma_order_holds(v, v.len(), p);
        lemma_place_of(order, p, 0);
        let i = choose|i: int| 0 <= i < order.len() && order[i] == p;
        assert(order[i] == p);
    }
}

spec fn ordered(v: Seq<SymbolV>, order: Seq<u32>) -> bool {
    forall|i: int, j: int|
        0 <= i < j < order.len() ==> in_line_order(v[(#[trigger] order[i]) as int], v[(#[trigger] order[j]) as int])
}

proof fn lemma_placed_ordered(v: Seq<SymbolV>, order: Seq<u32>, x: u32)
    requires
        ordered(v, order),
    ensures
        ordered(v, placed(v, order, x)),
    decreases order.len(),
{
    let r = placed(v, order, x);
    if order.len() == 0 {
    } else if in_line_order(v[order.last() as int], v[x as int]) {
        assert forall|i: int, j: int| 0 <= i < j < r.len() implies in_line_order(
            v[(#[trigger] r[i]) as int],
            v[(#[trigger] r[j]) as int],
        ) by {
            if j == order.len() {
                if i < order.len() - 1 {
                    assert(in_line_order(v[order[i] as int], v[order[order.len() - 1] as int]));
                }
            } else {
                assert(in_line_order(v[order[i] as int], v[order[j] as int]));
            }
        }
    } else {
        let p = order.drop_last();
        assert(ordered(v, p)) by {
            assert forall|i: int, j: int| 0 <= i < j < p.len() implies in_line_order(
                v[(#[trigger] p[i]) as int],
                v[(#[trigger] p[j]) as int],
            ) by {
                assert(in_line_order(v[order[i] as int], v[order[j] as int]));
            }
        }
        lemma_placed_ordered(v, p, x);
        lemma_placed_len(v, p, x);
        let q = placed(v, p, x);
        assert forall|i: int, j: int| 0 <= i < j < r.len() implies in_line_order(
            v[(#[trigger] r[i]) as int],
            v[(#[trigger] r[j]) as int],
        ) by {
            if j < q.len() {
                assert(in_line_order(v[q[i] as int], v[q[j] as int]));
            } else {
                lemma_placed_holds(v, p, x, q[i]);
                assert(q.contains(q[i]));
                if p.contains(q[i]) {
                    let m = choose|m: int| 0 <= m < p.len() && p[m] == q[i];
                    assert(in_line_order(v[order[m] as int], v[order[order.len() - 1] as int]));
                }
            }
        }
    }
}

proof fn lemma_order_ordered(v: Seq<SymbolV>, n: nat)
    requires
        n <= v.len(),
    ensures
        ordered(v, line_order(v, n)),
    decreases n,
{
    if n > 0 {
        lemma_order_ordered(v, (n - 1) as nat);
        lemma_placed_ordered(v, line_order(v, (n - 1) as nat), (n - 1) as u32);
    }
}

/// The symbols of a file stand in the order of their lines.
pub proof fn law_symbols_are_in_line_order(v: Seq<SymbolV>, i: int, j: int)
    requires
        0 <= i < j < by_lines(v).len(),
    ensures
        in_line_order(by_lines(v)[i], by_lines(v)[j]),
{
    lemma_order_ordered(v, v.len());
    let order = line_order(v, v.len());
    assert(in_line_order(v[order[i] as int], v[order[j] as int]));
}

/// A node is the first child of another that is its name.
pub open spec fn is_name_of(ns: Seq<NodeV>, i: int, j: int) -> bool {
    &&& 0 <= i < j < ns.len()
    &&& ns[j].depth == ns[i].depth + 1
    &&& ns[j].field == Some("name"@)
    &&& forall|m: int|
        i < m < j ==> (#[trigger] ns[m]).depth > ns[i].depth && !(ns[m].depth == ns[i].depth + 1 && ns[m].field == Some(
            "name"@,
        ))
}

proof fn lemma_name_child(ns: Seq<NodeV>, i: int, j: int, m: int)
    requires
        is_name_of(ns, i, j),
        i < m <= j,
    ensures
        child_from(ns, i, Want::NameField, m) == Some(j),
    decreases j - m,
{
    if m < j {
        assert(ns[m].depth > ns[i].depth);
        lemma_name_child(ns, i, j, m + 1);
    }
}

proof fn lemma_kind_at(v: Seq<(Seq<char>, SymKind)>, kind: Seq<char>, k: int, i: int)
    requires
        0 <= i <= k < v.len(),
        v[k].0 == kind,
        forall|a: int, b: int| 0 <= a < b < v.len() ==> (#[trigger] v[a]).0 != (#[trigger] v[b]).0,
    ensures
        kind_from(v, kind, i) == Some(v[k].1),
    decreases k - i,
{
    if i < k {
        assert(v[i].0 != v[k].0);
        lemma_kind_at(v, kind, k, i + 1);
    }
}

proof fn lemma_walk_symbols(lang: Language, ns: Seq<NodeV>, src: Seq<u8>, a: nat, b: nat)
    requires
        a <= b <= ns.len(),
    ensures
        walk(lang, ns, src, a).symbols.len() <= walk(lang, ns, src, b).symbols.len(),
        walk(lang, ns, src, b).symbols.take(walk(lang, ns, src, a).symbols.len() as int) == walk(
            lang,
            ns,
            src,
            a,
        ).symbols,
        walk(lang, ns, src, b).symbols.len() <= b,
    decreases b,
{
    let x = walk(lang, ns, src, a).symbols;
    if a < b {
        lemma_walk_symbols(lang, ns, src, a, (b - 1) as nat);
        let y = walk(lang, ns, src, (b - 1) as nat).symbols;
        let z = walk(lang, ns, src, b).symbols;
        assert(z.take(x.len() as int) =~= y.take(x.len() as int));
    } else {
        if b > 0 {
            lemma_walk_symbols(lang, ns, src, (b - 1) as nat, (b - 1) as nat);
        }
        assert(x.take(x.len() as int) =~= x);
    }
}

/// Every definition of a file of code becomes a symbol: of the sort that its node is of in the
/// language, with the name that its node has, on its lines, counted from one, and with the signature
/// of its node.
pub proof fn law_every_definition_becomes_a_symbol(
    lang: Language,
    ns: Seq<NodeV>,
    src: Seq<u8>,
    i: int,
    j: int,
    k: int,
) -> (q: int)
    requires
        lang.codes(),
        ns.len() <= 4000,
        is_name_of(ns, i, j),
        0 <= k < lang.definitions().len(),
        ns[i].kind == lang.definitions()[k].0,
        node_text(src, ns[j]) matches Some(t) && t.len() > 0 && !is_space(t[0]) && !is_space(t.last()) && byte_len(t)
            < 200,
        ns[i].rows.0 < u32::MAX,
        ns[i].rows.1 < u32::MAX,
    ensures
        0 <= q < extracted(lang, ns, src).symbols.len(),
        ({
            let s = extracted(lang, ns, src).symbols[q];
            &&& s.name == node_text(src, ns[j])->Some_0
            &&& s.kind == lang.definitions()[k].1
            &&& s.line_start == ns[i].rows.0 + 1
            &&& s.line_end == ns[i].rows.1 + 1
            &&& s.signature == signature_of(src, ns[i])
        }),
{
    let t = node_text(src, ns[j])->Some_0;
    lemma_name_child(ns, i, j, i + 1);
    law_definitions_are_told_by_their_node(lang);
    lemma_kind_at(lang.definitions(), ns[i].kind, k, 0);
    assert(trimmed(t) == t);
    let w = walk(lang, ns, src, i as nat);
    lemma_walk_symbols(lang, ns, src, i as nat, i as nat);
    lemma_walk_symbols(lang, ns, src, (i + 1) as nat, ns.len());
    let open = above(w.open, ns, ns[i].depth);
    let made = symbol_of(lang, ns, src, i, open);
    assert(made is Some);
    let next = walk(lang, ns, src, (i + 1) as nat).symbols;
    let v = walk(lang, ns, src, ns.len()).symbols;
    let n = w.symbols.len();
    assert(next[n as int] == made->Some_0);
    assert(v.take(next.len() as int)[n as int] == v[n as int]);
    lemma_walk_symbols(lang, ns, src, ns.len(), ns.len());
    lemma_order_len(v, v.len());
    lemma_order_holds(v, v.len(), n as u32);
    let order = line_order(v, v.len());
    let q = choose|q: int| 0 <= q < order.len() && order[q] == n as u32;
    assert(by_lines(v)[q].name == v[n as int].name);
    q
}

/// The symbol that encloses what a node defines, as the walk finds it.
pub open spec fn enclosing(lang: Language, ns: Seq<NodeV>, src: Seq<u8>, i: int) -> Option<u32> {
    let open = above(walk(lang, ns, src, i as nat).open, ns, ns[i].depth);
    if open.len() > 0 {
        open.last().1
    } else {
        None
    }
}

proof fn lemma_above(open: Seq<(int, Option<u32>)>, ns: Seq<NodeV>, depth: u32)
    ensures
        ({
            let r = above(open, ns, depth);
            &&& r.len() <= open.len()
            &&& open.take(r.len() as int) == r
            &&& r.len() > 0 ==> ns[r.last().0].depth < depth
            &&& forall|m: int| r.len() <= m < open.len() ==> ns[(#[trigger] open[m]).0].depth >= depth
        }),
    decreases open.len(),
{
    if open.len() > 0 && ns[open.last().0].depth >= depth {
        let d = open.drop_last();
        lemma_above(d, ns, depth);
        let r = above(open, ns, depth);
        assert(open.take(r.len() as int) =~= d.take(r.len() as int));
        assert forall|m: int| r.len() <= m < open.len() implies ns[(#[trigger] open[m]).0].depth >= depth by {
            if m < d.len() {
                assert(d[m] == open[m]);
            }
        }
    } else {
        assert(open.take(open.len() as int) =~= open);
    }
}

/// What is popped for a node below a place of the stack leaves that place alone.
proof fn lemma_above_keeps(open: Seq<(int, Option<u32>)>, ns: Seq<NodeV>, depth: u32, k: int)
    requires
        0 <= k < open.len(),
        ns[open[k].0].depth < depth,
    ensures
        above(open, ns, depth).len() > k,
        above(open, ns, depth).take(k + 1) == open.take(k + 1),
    decreases open.len(),
{
    if k < open.len() - 1 && ns[open.last().0].depth >= depth {
        lemma_above_keeps(open.drop_last(), ns, depth, k);
        assert(open.drop_last().take(k + 1) =~= open.take(k + 1));
    }
}

/// Popping down to a depth that all above a place have.
proof fn lemma_above_to(open: Seq<(int, Option<u32>)>, ns: Seq<NodeV>, depth: u32, k: int)
    requires
        0 <= k <= open.len(),
        forall|m: int| k <= m < open.len() ==> ns[(#[trigger] open[m]).0].depth >= depth,
        k > 0 ==> ns[open[k - 1].0].depth < depth,
    ensures
        above(open, ns, depth) == open.take(k),
    decreases open.len(),
{
    if k < open.len() {
        assert(ns[open[open.len() - 1].0].depth >= depth);
        lemma_above_to(open.drop_last(), ns, depth, k);
        assert(open.drop_last().take(k) =~= open.take(k));
    } else {
        assert(open.take(k) =~= open);
    }
}

/// From a node on, as long as the nodes are deeper, it stays on the stack with what was below
/// it, and all above it are deeper.
proof fn lemma_stack(lang: Language, ns: Seq<NodeV>, src: Seq<u8>, i: int, n: nat)
    requires
        lang.codes(),
        0 <= i < n <= ns.len(),
        forall|m: int| i < m < n ==> (#[trigger] ns[m]).depth > ns[i].depth,
    ensures
        ({
            let base = above(walk(lang, ns, src, i as nat).open, ns, ns[i].depth);
            let top = walk(lang, ns, src, (i + 1) as nat).open.last();
            let open = walk(lang, ns, src, n).open;
            &&& open.len() > base.len()
            &&& open.take(base.len() as int + 1) == base.push(top)
            &&& top.0 == i
            &&& forall|m: int| base.len() < m < open.len() ==> ns[(#[trigger] open[m]).0].depth > ns[i].depth
        }),
    decreases n,
{
    let base = above(walk(lang, ns, src, i as nat).open, ns, ns[i].depth);
    let top = walk(lang, ns, src, (i + 1) as nat).open.last();
    let open = walk(lang, ns, src, n).open;
    if n == i + 1 {
        assert(open =~= base.push(top));
        assert(open.take(base.len() as int + 1) =~= open);
    } else {
        lemma_stack(lang, ns, src, i, (n - 1) as nat);
        let before = walk(lang, ns, src, (n - 1) as nat).open;
        let d = ns[n - 1].depth;
        assert(d > ns[i].depth);
        let k = base.len() as int;
        assert(before[k] == before.take(k + 1)[k]);
        lemma_above_keeps(before, ns, d, k);
        lemma_above(before, ns, d);
        let rest = above(before, ns, d);
        assert(open.drop_last() =~= rest);
        assert(open.take(k + 1) =~= rest.take(k + 1));
        assert forall|m: int| base.len() < m < open.len() implies ns[(#[trigger] open[m]).0].depth > ns[i].depth by {
            if m < rest.len() {
                assert(open[m] == rest[m]);
                assert(before.take(rest.len() as int)[m] == before[m]);
            } else {
                assert(open[m].0 == n - 1);
            }
        }
    }
}

/// What a node defines is enclosed by the symbol of the node above it, where that defines one,
/// and else by what encloses that; nodes beside each other are enclosed by the same. A symbol
/// has what encloses its node as its parent.
pub proof fn law_symbols_are_enclosed(lang: Language, ns: Seq<NodeV>, src: Seq<u8>, i: int, j: int)
    requires
        lang.codes(),
        0 <= i < j < ns.len() <= 4000,
    ensures
        ({
            let n = walk(lang, ns, src, i as nat).symbols.len();
            let m = walk(lang, ns, src, (i + 1) as nat).symbols;
            &&& j == i + 1 && ns[j].depth > ns[i].depth ==> enclosing(lang, ns, src, j) == (if m.len() > n {
                Some(n as u32)
            } else {
                enclosing(lang, ns, src, i)
            })
            &&& m.len() > n ==> m[n as int].parent == enclosing(lang, ns, src, i)
            &&& ns[j].depth == ns[i].depth && (forall|k: int| i < k < j ==> (#[trigger] ns[k]).depth > ns[i].depth)
                ==> enclosing(lang, ns, src, j) == enclosing(lang, ns, src, i)
        }),
        enclosing(lang, ns, src, 0) is None,
{
    let w = walk(lang, ns, src, i as nat);
    lemma_walk_symbols(lang, ns, src, i as nat, i as nat);
    let base = above(w.open, ns, ns[i].depth);
    lemma_above(w.open, ns, ns[i].depth);
    if j == i + 1 && ns[j].depth > ns[i].depth {
        let open = walk(lang, ns, src, j as nat).open;
        assert(open.last().0 == i);
        assert(above(open, ns, ns[j].depth) == open);
    }
    if ns[j].depth == ns[i].depth && (forall|k: int| i < k < j ==> (#[trigger] ns[k]).depth > ns[i].depth) {
        lemma_stack(lang, ns, src, i, j as nat);
        let open = walk(lang, ns, src, j as nat).open;
        let k = base.len() as int;
        assert(open.take(k + 1).take(k) =~= open.take(k));
        let top = walk(lang, ns, src, (i + 1) as nat).open.last();
        assert(base.push(top).take(k) =~= base);
        assert(open[k] == open.take(k + 1)[k]);
        assert forall|m: int| k <= m < open.len() implies ns[(#[trigger] open[m]).0].depth >= ns[j].depth by {
            if m == k {
                assert(open[m].0 == i);
            }
        }
        if k > 0 {
            assert(open[k - 1] == open.take(k)[k - 1]);
        }
        lemma_above_to(open, ns, ns[j].depth, k);
    }
}

proof fn lemma_mention_index(v: Seq<(Seq<char>, u16)>, name: Seq<char>, i: int)
    requires
        0 <= i <= v.len(),
    ensures
        match ref_index(v, name, i) {
            Some(k) => i <= k < v.len() && v[k].0 == name && forall|j: int| i <= j < k ==> (#[trigger] v[j]).0 != name,
            None => forall|j: int| i <= j < v.len() ==> (#[trigger] v[j]).0 != name,
        },
    decreases v.len() - i,
{
    if i < v.len() && v[i].0 != name {
        lemma_mention_index(v, name, i + 1);
    }
}

/// A name that is mentioned once more counts one more, from one on; every other name counts as
/// before.
pub proof fn law_mentions_are_counted(v: Seq<(Seq<char>, u16)>, name: Seq<char>, k: int)
    ensures
        (forall|j: int| 0 <= j < v.len() ==> (#[trigger] v[j]).0 != name) ==> mentioned(v, name) == v.push((name, 1u16)),
        0 <= k < v.len() && v[k].0 == name && v[k].1 < u16::MAX && (forall|j: int|
            0 <= j < v.len() && j != k ==> (#[trigger] v[j]).0 != name) ==> mentioned(v, name) == v.update(
            k,
            (name, (v[k].1 + 1) as u16),
        ),
{
    lemma_mention_index(v, name, 0);
    if let Some(i) = ref_index(v, name, 0) {
        assert(v[i].0 == name);
    }
}

/// The signature of a definition is its first line, as it stands, where that is short and has
/// neither a brace nor white space or a colon at its ends; what follows a brace, and the space
/// before it, are left out.
#[verifier::rlimit(40)]
pub proof fn law_a_signature_is_the_first_line(src: Seq<u8>, n: NodeV, line: Seq<char>, more: Seq<char>)
    requires
        n.bytes.0 <= n.bytes.1 <= src.len(),
        n.bytes.1 - n.bytes.0 <= 400,
        line.len() > 0,
        line.len() <= 110,
        !is_space(line[0]),
        !is_space(line.last()),
        line.last() != ':',
        forall|i: int| 0 <= i < line.len() ==> #[trigger] line[i] != '{' && line[i] != '\n' && line[i] != '\r',
    ensures
        ({
            let text = lossy_text(src.subrange(n.bytes.0 as int, n.bytes.1 as int));
            &&& text == line ==> signature_of(src, n) == line
            &&& text == line + seq!['\n'] + more ==> signature_of(src, n) == line
            &&& text == line + seq![' ', '{'] + seq!['\n'] + more ==> signature_of(src, n) == line
        }),
{
    let text = lossy_text(src.subrange(n.bytes.0 as int, n.bytes.1 as int));
    assert(head_bytes(src, n) == src.subrange(n.bytes.0 as int, n.bytes.1 as int));
    lemma_sig_line(line, line);
    if text == line {
        law_lines_end_at_line_feeds(line, Seq::empty());
        assert(first_line_of(text) == line);
    }
    if text == line + seq!['\n'] + more {
        law_lines_end_at_line_feeds(line, more);
        assert(first_line_of(text) == line);
    }
    let opened = line + seq![' ', '{'];
    if text == opened + seq!['\n'] + more {
        assert forall|i: int| 0 <= i < opened.len() implies #[trigger] opened[i] != '\n' && opened[i] != '\r' by {
            if i < line.len() {
                assert(opened[i] == line[i]);
            }
        }
        law_lines_end_at_line_feeds(opened, more);
        assert(first_line_of(text) == opened);
        lemma_sig_line(opened, line);
    }
}

proof fn lemma_sig_line(first: Seq<char>, line: Seq<char>)
    requires
        first == line || first == line + seq![' ', '{'],
        0 < line.len() <= 110,
        !is_space(line[0]),
        !is_space(line.last()),
        line.last() != ':',
        forall|i: int| 0 <= i < line.len() ==> #[trigger] line[i] != '{',
    ensures
        without_trailing(trimmed_end(before_brace(first_chars(trimmed(first), 120))), ':') == line,
{
    let (i, j) = law_trimming_takes_off_white_space(first);
    assert(first[0] == line[0]);
    assert(!is_space('{'));
    assert(!is_space(first[first.len() - 1]));
    assert(i == 0 && j == first.len()) by {
        assert(i <= 0 < j);
        assert(i <= first.len() - 1 < j);
    }
    assert(first.subrange(0, first.len() as int) =~= first);
    assert(first_chars(first, 120) =~= first);
    lemma_char_from(first, '{', 0);
    let b = before_brace(first);
    if first == line {
        assert(b == line);
    } else {
        let k = line.len() as int;
        assert(first[k] == ' ' && first[k + 1] == '{');
        assert forall|m: int| 0 <= m < k + 1 implies first[m] != '{' by {
            if m < k {
                assert(first[m] == line[m]);
            }
        }
        assert(char_from(first, '{', 0) == Some(k + 1));
        assert(b =~= line.push(' '));
        assert(is_space(' '));
        assert(b.drop_last() =~= line);
    }
    assert(trimmed_end(line) == line);
}

/// Who can use a symbol is told by its text: in Rust by `pub` at its start, in Go by a capital
/// letter, in Python by no underscore at its start, in the languages of the TypeScript family by
/// `export`, in C++ and Java by `public`.
pub proof fn law_public_symbols(name: Seq<char>, sig: Seq<char>, parent: Option<Seq<char>>)
    ensures
        public_of(Language::Rust, name, sig, parent) <==> begins(sig, "pub"@),
        name.len() > 0 ==> (public_of(Language::Go, name, sig, parent) <==> unicode_uppercase(name[0])),
        name.len() > 0 ==> (public_of(Language::Python, name, sig, parent) <==> name[0] != '_'),
        holds(sig, "export"@) ==> public_of(Language::TypeScript, name, sig, parent),
        !holds(sig, "export"@) && parent is None ==> !public_of(Language::JavaScript, name, sig, parent),
        parent == Some("export_statement"@) ==> public_of(Language::Tsx, name, sig, parent),
        public_of(Language::Java, name, sig, parent) <==> holds(sig, "public"@),
        public_of(Language::Cpp, name, sig, parent) <==> holds(sig, "public"@),
        public_of(Language::C, name, sig, parent),
{
    reveal_strlit("_");
    if name.len() > 0 {
        assert(name.subrange(0, 1) =~= seq![name[0]]);
        assert("_"@ =~= seq!['_']);
        if name[0] == '_' {
            assert(at(name, 0, "_"@));
        } else if begins(name, "_"@) {
            assert(name.subrange(0, 1)[0] == '_');
        }
    }
}

/// How often a name was mentioned.
pub open spec fn times_mentioned(v: Seq<(Seq<char>, u16)>, name: Seq<char>) -> nat {
    match ref_index(v, name, 0) {
        Some(k) => v[k].1 as nat,
        None => 0,
    }
}

proof fn lemma_one_more_mention(v: Seq<(Seq<char>, u16)>, t: Seq<char>, name: Seq<char>)
    ensures
        t == name ==> times_mentioned(mentioned(v, t), name) == at_most(times_mentioned(v, name) + 1, u16::MAX as nat),
        t != name ==> times_mentioned(mentioned(v, t), name) == times_mentioned(v, name),
{
    let w = mentioned(v, t);
    lemma_mention_index(v, t, 0);
    lemma_mention_index(v, name, 0);
    lemma_mention_index(w, name, 0);
    match ref_index(v, t, 0) {
        Some(k) => {
            assert forall|j: int| 0 <= j < v.len() implies (#[trigger] w[j]).0 == v[j].0 by {}
            if let Some(i) = ref_index(v, name, 0) {
                assert(w[i].0 == name);
            }
            if let Some(i) = ref_index(w, name, 0) {
                assert(v[i].0 == name);
            }
        },
        None => {
            assert forall|j: int| 0 <= j < v.len() implies (#[trigger] w[j]) == v[j] by {}
            assert(w[v.len() as int] == (t, 1u16));
            if let Some(i) = ref_index(v, name, 0) {
                assert(w[i].0 == name);
            }
        },
    }
}

/// What each node of a file mentions.
pub open spec fn mentions_in(lang: Language, ns: Seq<NodeV>, src: Seq<u8>, n: nat) -> Seq<Option<Seq<char>>> {
    Seq::new(n, |i: int| mention_of(lang, ns, src, i))
}

/// Every mention in a file of code counts for its name: as often as it is mentioned, up to 65535.
pub proof fn law_every_mention_counts(lang: Language, ns: Seq<NodeV>, src: Seq<u8>, n: nat, name: Seq<char>)
    requires
        lang.codes(),
        n <= ns.len(),
    ensures
        times_mentioned(walk(lang, ns, src, n).refs, name) == at_most(
            mentions_in(lang, ns, src, n).filter(|m: Option<Seq<char>>| m == Some(name)).len(),
            65535,
        ),
    decreases n,
{
    reveal(Seq::filter);
    let f = |m: Option<Seq<char>>| m == Some(name);
    let ms = mentions_in(lang, ns, src, n);
    if n > 0 {
        law_every_mention_counts(lang, ns, src, (n - 1) as nat, name);
        assert(ms.drop_last() =~= mentions_in(lang, ns, src, (n - 1) as nat));
        assert(ms.last() == mention_of(lang, ns, src, n - 1));
        let b = walk(lang, ns, src, (n - 1) as nat);
        if let Some(t) = mention_of(lang, ns, src, n - 1) {
            lemma_one_more_mention(b.refs, t, name);
        }
    } else {
        assert(ms.len() == 0);
    }
}

/// A leaf of a kind that mentions symbols mentions its text, where that has two to 99 bytes and
/// is no number; a node that is no leaf mentions nothing.
pub proof fn law_leaves_mention_their_text(lang: Language, ns: Seq<NodeV>, src: Seq<u8>, i: int, t: Seq<char>)
    requires
        0 <= i < ns.len(),
        node_text(src, ns[i]) == Some(t),
        lang.mentions().contains(ns[i].kind),
    ensures
        (i + 1 == ns.len() || ns[i + 1].depth <= ns[i].depth) && 2 <= byte_len(t) <= 99 && !all_digits(t) ==> mention_of(
            lang,
            ns,
            src,
            i,
        ) == Some(t),
        i + 1 < ns.len() && ns[i + 1].depth > ns[i].depth ==> mention_of(lang, ns, src, i) is None,
        byte_len(t) <= 1 || byte_len(t) >= 100 || all_digits(t) ==> mention_of(lang, ns, src, i) is None,
{
}

/// An implementation goes by its type, with the trait before it where it is one of a trait.
pub proof fn law_how_an_implementation_is_called(ns: Seq<NodeV>, src: Seq<u8>, i: int, k: int, t: Seq<char>)
    requires
        child(ns, i, Want::TypeField) == Some(k),
        tidy_text(src, ns[k]) == Some(t),
    ensures
        child(ns, i, Want::TraitField) is None ==> impl_name(ns, src, i) == Some(t),
        child(ns, i, Want::TraitField) matches Some(m) ==> (tidy_text(src, ns[m]) matches Some(r) ==> impl_name(ns, src, i)
            == Some(r + " for "@ + t)),
{
}

/// A heading goes by its text: the marks before it, and the line below it, do not count.
pub proof fn law_how_a_heading_is_called(marks: nat, text: Seq<char>)
    requires
        text.len() > 0,
        !is_space(text[0]),
        !is_space(text.last()),
        text[0] != '#',
        text.last() != '=',
        text.last() != '-',
    ensures
        heading_text(Seq::new(marks, |i: int| '#') + seq![' '] + text) == text,
        heading_text(text) == text,
{
    let hashes = Seq::new(marks, |i: int| '#');
    let s = hashes + seq![' '] + text;
    lemma_leading_marks(marks, seq![' '] + text);
    assert(s =~= hashes + (seq![' '] + text));
    lemma_head_trimmed(seq![' '], text);
    lemma_head_trimmed(Seq::empty(), text);
    assert(Seq::<char>::empty() + text =~= text);
    assert(without_leading(text, '#') == text);
    assert(without_trailing(text, '=') == text);
    assert(without_trailing(text, '-') == text);
}

proof fn lemma_leading_marks(n: nat, rest: Seq<char>)
    requires
        rest.len() > 0,
        rest[0] != '#',
    ensures
        without_leading(Seq::new(n, |i: int| '#') + rest, '#') == rest,
    decreases n,
{
    let s = Seq::new(n, |i: int| '#') + rest;
    if n > 0 {
        assert(s[0] == '#');
        assert(s.drop_first() =~= Seq::new((n - 1) as nat, |i: int| '#') + rest);
        lemma_leading_marks((n - 1) as nat, rest);
    } else {
        assert(s =~= rest);
    }
}

proof fn lemma_head_trimmed(before: Seq<char>, text: Seq<char>)
    requires
        forall|i: int| 0 <= i < before.len() ==> is_space(#[trigger] before[i]),
        text.len() > 0,
        !is_space(text[0]),
        !is_space(text.last()),
    ensures
        trimmed(before + text) == text,
{
    let s = before + text;
    let (i, j) = law_trimming_takes_off_white_space(s);
    let b = before.len() as int;
    assert(s[b] == text[0]);
    assert(s[s.len() - 1] == text.last());
    assert(i <= b < j);
    assert(i <= s.len() - 1 < j);
    if i < b {
        assert(s[i] == before[i]);
    }
    assert(s.subrange(b, s.len() as int) =~= text);
}

} // verus!
