//! Syntax trees. A file is read by `tree-sitter`; the nodes of its tree are a list in
//! preorder, each with its depth, and the way about the tree is found by the depths.

use crate::lang::Language;
use crate::text::{contains, ends, ends_with, holds, str_eq};
use tree_sitter::{Parser, Tree};
use tree_sitter_c::LANGUAGE as C;
use tree_sitter_cpp::LANGUAGE as CPP;
use tree_sitter_go::LANGUAGE as GO;
use tree_sitter_java::LANGUAGE as JAVA;
use tree_sitter_javascript::LANGUAGE as JAVASCRIPT;
use tree_sitter_json::LANGUAGE as JSON;
use tree_sitter_md::LANGUAGE as MARKDOWN;
use tree_sitter_python::LANGUAGE as PYTHON;
use tree_sitter_rust::LANGUAGE as RUST;
use tree_sitter_toml_ng::LANGUAGE as TOML;
use tree_sitter_typescript::{LANGUAGE_TSX as TSX, LANGUAGE_TYPESCRIPT as TYPESCRIPT};
use vstd::prelude::*;
use vstd::utf8::{decode_utf8, valid_utf8};

verus! {

/// A node of a syntax tree.
#[derive(Debug)]
pub struct SyntaxNode {
    pub kind: String,
    /// What the node is to its parent.
    pub field: Option<String>,
    pub depth: u32,
    pub named: bool,
    /// The bytes of the text that it spans.
    pub bytes: (usize, usize),
    /// The rows of its first and its last byte, from zero.
    pub rows: (usize, usize),
}

pub struct NodeV {
    pub kind: Seq<char>,
    pub field: Option<Seq<char>>,
    pub depth: u32,
    pub named: bool,
    pub bytes: (usize, usize),
    pub rows: (usize, usize),
}

impl View for SyntaxNode {
    type V = NodeV;

    open spec fn view(&self) -> NodeV {
        NodeV {
            kind: self.kind@,
            field: crate::message::opt_string(self.field),
            depth: self.depth,
            named: self.named,
            bytes: self.bytes,
            rows: self.rows,
        }
    }
}

pub open spec fn nodes_view(v: Seq<SyntaxNode>) -> Seq<NodeV> {
    Seq::new(v.len(), |i: int| v[i]@)
}

/// `tree_sitter::Tree`: a syntax tree.
#[verifier::external_type_specification]
#[verifier::external_body]
pub struct ExTree(tree_sitter::Tree);

/// The nodes of a tree in preorder.
pub uninterp spec fn tree_nodes(t: tree_sitter::Tree) -> Seq<NodeV>;

/// The nodes, in preorder, of the tree that `tree_sitter::Parser::parse` makes of a file
/// by the grammar of a language; none where it makes none.
pub uninterp spec fn syntax(lang: Language, src: Seq<u8>) -> Option<Seq<NodeV>>;

pub open spec fn nodes_of(t: Option<Tree>) -> Option<Seq<NodeV>> {
    match t {
        Some(t) => Some(tree_nodes(t)),
        None => None,
    }
}

/// `tree_sitter::Parser::parse` with the grammar of a language, on no earlier tree. The
/// tree depends on the language and the bytes alone.
#[verifier::external_body]
fn parse_tree(lang: Language, src: &[u8]) -> (r: Option<Tree>)
    ensures
        nodes_of(r) == syntax(lang, src@),
{
    let grammar = match lang {
        Language::Rust => RUST, Language::Python => PYTHON, Language::TypeScript => TYPESCRIPT,
        Language::Tsx => TSX, Language::JavaScript => JAVASCRIPT, Language::Go => GO,
        Language::C => C, Language::Cpp => CPP, Language::Java => JAVA,
        Language::Json => JSON, Language::Toml => TOML, Language::Markdown => MARKDOWN,
    };
    let mut parser = Parser::new();
    parser.set_language(&grammar.into()).ok()?;
    parser.parse(src, None)
}

/// `tree_sitter::Tree::walk`: the nodes as its cursor comes by them, first a node, then
/// its children.
#[verifier::external_body]
fn list_nodes(tree: &Tree) -> (r: Vec<SyntaxNode>)
    ensures
        nodes_view(r@) == tree_nodes(*tree),
{
    let (mut c, mut out) = (tree.walk(), Vec::new());
    loop {
        let (n, g) = (c.node(), c.node().range());
        let (kind, field) = (n.kind().to_owned(), c.field_name().map(str::to_owned));
        let (bytes, rows) = ((g.start_byte, g.end_byte), (g.start_point.row, g.end_point.row));
        out.push(SyntaxNode { kind, field, depth: c.depth(), named: n.is_named(), bytes, rows });
        if !c.goto_first_child() {
            while !c.goto_next_sibling() {
                if !c.goto_parent() {
                    return out;
                }
            }
        }
    }
}

/// The nodes of a file's tree.
pub fn read_syntax(lang: Language, src: &[u8]) -> (r: Option<Vec<SyntaxNode>>)
    ensures
        match r {
            Some(v) => syntax(lang, src@) == Some(nodes_view(v@)),
            None => syntax(lang, src@) is None,
        },
{
    match parse_tree(lang, src) {
        Some(t) => Some(list_nodes(&t)),
        None => None,
    }
}

/// `std::str::from_utf8`: the text of bytes that are valid UTF-8; none of others.
#[verifier::external_body]
fn utf8_text(b: &[u8]) -> (r: Option<String>)
    ensures
        crate::message::opt_string(r) == if valid_utf8(b@) {
            Some(decode_utf8(b@))
        } else {
            None
        },
{
    std::str::from_utf8(b).ok().map(str::to_owned)
}

// ---------------------------------------------------------------- text

/// The bytes of a node.
pub open spec fn node_bytes(src: Seq<u8>, n: NodeV) -> Seq<u8> {
    if n.bytes.0 <= n.bytes.1 <= src.len() {
        src.subrange(n.bytes.0 as int, n.bytes.1 as int)
    } else {
        Seq::empty()
    }
}

/// The text of a node, where it is one.
pub open spec fn node_text(src: Seq<u8>, n: NodeV) -> Option<Seq<char>> {
    if valid_utf8(node_bytes(src, n)) {
        Some(decode_utf8(node_bytes(src, n)))
    } else {
        None
    }
}

/// The bytes `from..to`; none where there are no such.
pub fn bytes_between(src: &[u8], from: usize, to: usize) -> (r: Vec<u8>)
    ensures
        r@ == if from <= to <= src@.len() {
            src@.subrange(from as int, to as int)
        } else {
            Seq::empty()
        },
{
    let mut out: Vec<u8> = Vec::new();
    if from > to || to > src.len() {
        assert(out@ =~= Seq::empty());
        return out;
    }
    let mut i: usize = from;
    while i < to
        invariant
            from <= i <= to <= src.len(),
            out@ == src@.subrange(from as int, i as int),
        decreases to - i,
    {
        out.push(src[i]);
        assert(out@ =~= src@.subrange(from as int, i + 1));
        i += 1;
    }
    out
}

/// The text of a node, where it is one.
pub fn text_of_node(src: &[u8], n: &SyntaxNode) -> (r: Option<String>)
    ensures
        crate::message::opt_string(r) == node_text(src@, n@),
{
    let b = bytes_between(src, n.bytes.0, n.bytes.1);
    utf8_text(b.as_slice())
}

// ---------------------------------------------------------------- the tree

/// What is asked of a child.
#[derive(Debug, Clone, Copy, PartialEq, Eq, Structural)]
pub enum Want {
    Any,
    Named,
    NameField,
    DeclaratorField,
    TypeField,
    TraitField,
    KeyField,
    /// Its kind is some identifier.
    Identifier,
    /// Its kind is some declarator.
    Declarator,
    /// Its kind is some identifier or declarator.
    Declared,
}

/// Whether a node is as asked.
pub open spec fn wanted(w: Want, n: NodeV) -> bool {
    match w {
        Want::Any => true,
        Want::Named => n.named,
        Want::NameField => n.field == Some("name"@),
        Want::DeclaratorField => n.field == Some("declarator"@),
        Want::TypeField => n.field == Some("type"@),
        Want::TraitField => n.field == Some("trait"@),
        Want::KeyField => n.field == Some("key"@),
        Want::Identifier => holds(n.kind, "identifier"@),
        Want::Declarator => ends(n.kind, "declarator"@),
        Want::Declared => holds(n.kind, "identifier"@) || ends(n.kind, "declarator"@),
    }
}

/// The first child of node `i`, from place `j` on, that is as asked: the nodes below `i`
/// are those behind it that are deeper, its children those one deeper.
pub open spec fn child_from(ns: Seq<NodeV>, i: int, w: Want, j: int) -> Option<int>
    decreases ns.len() - j,
{
    if !(0 <= i < j < ns.len()) || ns[j].depth <= ns[i].depth {
        None
    } else if ns[j].depth == ns[i].depth + 1 && wanted(w, ns[j]) {
        Some(j)
    } else {
        child_from(ns, i, w, j + 1)
    }
}

pub open spec fn child(ns: Seq<NodeV>, i: int, w: Want) -> Option<int> {
    child_from(ns, i, w, i + 1)
}

fn has_field(n: &SyntaxNode, name: &str) -> (r: bool)
    ensures
        r == (n@.field == Some(name@)),
{
    match &n.field {
        Some(f) => str_eq(f.as_str(), name),
        None => false,
    }
}

fn is_wanted(w: Want, n: &SyntaxNode) -> (r: bool)
    ensures
        r == wanted(w, n@),
{
    match w {
        Want::Any => true,
        Want::Named => n.named,
        Want::NameField => has_field(n, "name"),
        Want::DeclaratorField => has_field(n, "declarator"),
        Want::TypeField => has_field(n, "type"),
        Want::TraitField => has_field(n, "trait"),
        Want::KeyField => has_field(n, "key"),
        Want::Identifier => contains(n.kind.as_str(), "identifier"),
        Want::Declarator => ends_with(n.kind.as_str(), "declarator"),
        Want::Declared => contains(n.kind.as_str(), "identifier") || ends_with(n.kind.as_str(), "declarator"),
    }
}

/// The first child of node `i`, from place `from` on, that is as asked.
pub fn find_child_from(ns: &Vec<SyntaxNode>, i: usize, w: Want, from: usize) -> (r: Option<usize>)
    requires
        i < ns.len(),
        i < from,
    ensures
        match r {
            Some(k) => child_from(nodes_view(ns@), i as int, w, from as int) == Some(k as int) && from <= k
                < ns.len(),
            None => child_from(nodes_view(ns@), i as int, w, from as int) is None,
        },
{
    let ghost nv = nodes_view(ns@);
    let mut j: usize = from;
    while j < ns.len() && ns[j].depth > ns[i].depth
        invariant
            i < ns.len(),
            i < from <= j,
            nv == nodes_view(ns@),
            child_from(nv, i as int, w, from as int) == child_from(nv, i as int, w, j as int),
        decreases ns.len() - j,
    {
        assert(nv[j as int] == ns@[j as int]@);
        assert(nv[i as int] == ns@[i as int]@);
        if ns[j].depth - ns[i].depth == 1 && is_wanted(w, &ns[j]) {
            return Some(j);
        }
        j += 1;
    }
    assert(j < ns.len() ==> nv[j as int] == ns@[j as int]@);
    assert(nv[i as int] == ns@[i as int]@);
    None
}

pub fn find_child(ns: &Vec<SyntaxNode>, i: usize, w: Want) -> (r: Option<usize>)
    requires
        i < ns.len(),
    ensures
        match r {
            Some(k) => child(nodes_view(ns@), i as int, w) == Some(k as int) && i < k < ns.len(),
            None => child(nodes_view(ns@), i as int, w) is None,
        },
{
    find_child_from(ns, i, w, i + 1)
}

pub proof fn lemma_child_behind(ns: Seq<NodeV>, i: int, w: Want, j: int)
    ensures
        child_from(ns, i, w, j) matches Some(k) ==> 0 <= i < j <= k < ns.len(),
    decreases ns.len() - j,
{
    if 0 <= i < j < ns.len() && ns[j].depth > ns[i].depth && !(ns[j].depth == ns[i].depth + 1 && wanted(w, ns[j])) {
        lemma_child_behind(ns, i, w, j + 1);
    }
}

/// A node that is found as a child lies below the node that was asked: behind it, one
/// deeper, and as asked.
pub proof fn law_child_lies_below(ns: Seq<NodeV>, i: int, w: Want, j: int)
    requires
        0 <= i < j,
    ensures
        child_from(ns, i, w, j) matches Some(k) ==> i < k < ns.len() && ns[k].depth == ns[i].depth + 1 && wanted(
            w,
            ns[k],
        ),
    decreases ns.len() - j,
{
    if j < ns.len() && ns[j].depth > ns[i].depth && !(ns[j].depth == ns[i].depth + 1 && wanted(w, ns[j])) {
        law_child_lies_below(ns, i, w, j + 1);
    }
}

/// The first child that is as asked is found, wherever it stands below its parent: the nodes
/// between are deeper, and none of those one deeper is as asked.
pub proof fn law_the_first_child_is_found(ns: Seq<NodeV>, i: int, w: Want, j: int, k: int)
    requires
        0 <= i < j <= k < ns.len(),
        ns[k].depth == ns[i].depth + 1,
        wanted(w, ns[k]),
        forall|m: int| j <= m < k ==> (#[trigger] ns[m]).depth > ns[i].depth,
        forall|m: int| j <= m < k ==> !((#[trigger] ns[m]).depth == ns[i].depth + 1 && wanted(w, ns[m])),
    ensures
        child_from(ns, i, w, j) == Some(k),
    decreases k - j,
{
    if j < k {
        assert(ns[j].depth > ns[i].depth);
        law_the_first_child_is_found(ns, i, w, j + 1, k);
    }
}

/// What is asked of a child: its field, whether it is named, or what its kind ends with or holds.
pub proof fn law_what_is_asked_of_a_child(n: NodeV)
    ensures
        wanted(Want::Any, n),
        wanted(Want::Named, n) <==> n.named,
        wanted(Want::NameField, n) <==> n.field == Some("name"@),
        wanted(Want::DeclaratorField, n) <==> n.field == Some("declarator"@),
        wanted(Want::TypeField, n) <==> n.field == Some("type"@),
        wanted(Want::TraitField, n) <==> n.field == Some("trait"@),
        wanted(Want::KeyField, n) <==> n.field == Some("key"@),
        wanted(Want::Identifier, n) <==> holds(n.kind, "identifier"@),
        wanted(Want::Declarator, n) <==> ends(n.kind, "declarator"@),
        wanted(Want::Declared, n) <==> wanted(Want::Identifier, n) || wanted(Want::Declarator, n),
{
}

} // verus!
