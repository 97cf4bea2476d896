//! The languages whose files are read: how they are told apart, and which parts of their
//! syntax define or mention symbols.

use crate::pathname::{base_name, file_name};
use crate::text::{chars_of, last_char, lowered, rfind_char, str_eq, string_of, string_of_range, to_lowered};
use vstd::prelude::*;

verus! {

#[derive(Debug, Clone, Copy, PartialEq, Eq, Hash, Structural)]
pub enum Language {
    Rust,
    Python,
    TypeScript,
    Tsx,
    JavaScript,
    Go,
    C,
    Cpp,
    Java,
    Json,
    Toml,
    Markdown,
}

/// The sort of a symbol.
#[derive(Debug, Clone, Copy, PartialEq, Eq, Hash, Structural)]
pub enum SymKind {
    Fn,
    Method,
    Struct,
    Enum,
    Trait,
    Class,
    Interface,
    Const,
    Static,
    Type,
    Module,
    Impl,
    Macro,
}

impl SymKind {
    pub open spec fn name(self) -> Seq<char> {
        match self {
            SymKind::Fn => "fn"@,
            SymKind::Method => "method"@,
            SymKind::Struct => "struct"@,
            SymKind::Enum => "enum"@,
            SymKind::Trait => "trait"@,
            SymKind::Class => "class"@,
            SymKind::Interface => "interface"@,
            SymKind::Const => "const"@,
            SymKind::Static => "static"@,
            SymKind::Type => "type"@,
            SymKind::Module => "mod"@,
            SymKind::Impl => "impl"@,
            SymKind::Macro => "macro"@,
        }
    }

    pub fn label(self) -> (r: &'static str)
        ensures
            r@ == self.name(),
    {
        match self {
            SymKind::Fn => "fn",
            SymKind::Method => "method",
            SymKind::Struct => "struct",
            SymKind::Enum => "enum",
            SymKind::Trait => "trait",
            SymKind::Class => "class",
            SymKind::Interface => "interface",
            SymKind::Const => "const",
            SymKind::Static => "static",
            SymKind::Type => "type",
            SymKind::Module => "mod",
            SymKind::Impl => "impl",
            SymKind::Macro => "macro",
        }
    }

    /// The sort that a word means, whatever its case.
    pub open spec fn meant(word: Seq<char>) -> Option<SymKind> {
        let w = lowered(word);
        if w == "fn"@ || w == "function"@ || w == "func"@ {
            Some(SymKind::Fn)
        } else if w == "method"@ {
            Some(SymKind::Method)
        } else if w == "struct"@ {
            Some(SymKind::Struct)
        } else if w == "enum"@ {
            Some(SymKind::Enum)
        } else if w == "trait"@ {
            Some(SymKind::Trait)
        } else if w == "class"@ {
            Some(SymKind::Class)
        } else if w == "interface"@ {
            Some(SymKind::Interface)
        } else if w == "const"@ {
            Some(SymKind::Const)
        } else if w == "static"@ || w == "var"@ {
            Some(SymKind::Static)
        } else if w == "type"@ {
            Some(SymKind::Type)
        } else if w == "mod"@ || w == "module"@ || w == "namespace"@ {
            Some(SymKind::Module)
        } else if w == "impl"@ {
            Some(SymKind::Impl)
        } else if w == "macro"@ {
            Some(SymKind::Macro)
        } else {
            None
        }
    }

    pub fn parse(s: &str) -> (r: Option<SymKind>)
        ensures
            r == SymKind::meant(s@),
    {
        let l = string_of(&to_lowered(s));
        let w = l.as_str();
        if str_eq(w, "fn") || str_eq(w, "function") || str_eq(w, "func") {
            Some(SymKind::Fn)
        } else if str_eq(w, "method") {
            Some(SymKind::Method)
        } else if str_eq(w, "struct") {
            Some(SymKind::Struct)
        } else if str_eq(w, "enum") {
            Some(SymKind::Enum)
        } else if str_eq(w, "trait") {
            Some(SymKind::Trait)
        } else if str_eq(w, "class") {
            Some(SymKind::Class)
        } else if str_eq(w, "interface") {
            Some(SymKind::Interface)
        } else if str_eq(w, "const") {
            Some(SymKind::Const)
        } else if str_eq(w, "static") || str_eq(w, "var") {
            Some(SymKind::Static)
        } else if str_eq(w, "type") {
            Some(SymKind::Type)
        } else if str_eq(w, "mod") || str_eq(w, "module") || str_eq(w, "namespace") {
            Some(SymKind::Module)
        } else if str_eq(w, "impl") {
            Some(SymKind::Impl)
        } else if str_eq(w, "macro") {
            Some(SymKind::Macro)
        } else {
            None
        }
    }
}

/// What stands behind the last dot of a file's name; none where there is no dot but at
/// its start.
pub open spec fn extension(path: Seq<char>, win: bool) -> Option<Seq<char>> {
    let name = base_name(path, win);
    if name == ".."@ {
        None
    } else {
        match last_char(name, '.') {
            Some(k) => if k > 0 {
                Some(name.skip(k + 1))
            } else {
                None
            },
            None => None,
        }
    }
}

pub fn file_extension(path: &str, windows: bool) -> (r: Option<String>)
    ensures
        match r {
            Some(e) => extension(path@, windows) == Some(e@),
            None => extension(path@, windows) is None,
        },
{
    let name = file_name(path, windows);
    if str_eq(name.as_str(), "..") {
        return None;
    }
    let cs = chars_of(name.as_str());
    match rfind_char(&cs, '.') {
        Some(k) => if k > 0 {
            let e = string_of_range(&cs, k + 1, cs.len());
            assert(e@ =~= cs@.skip(k + 1));
            Some(e)
        } else {
            None
        },
        None => None,
    }
}

/// Node kinds by their texts.
pub open spec fn kind_pairs(v: Seq<(&'static str, SymKind)>) -> Seq<(Seq<char>, SymKind)> {
    Seq::new(v.len(), |i: int| (v[i].0@, v[i].1))
}

pub open spec fn texts(v: Seq<&'static str>) -> Seq<Seq<char>> {
    Seq::new(v.len(), |i: int| v[i]@)
}

impl Language {
    /// The language of a file's extension, whatever its case.
    pub open spec fn of_extension(ext: Seq<char>) -> Option<Language> {
        let e = lowered(ext);
        if e == "rs"@ {
            Some(Language::Rust)
        } else if e == "py"@ || e == "pyi"@ {
            Some(Language::Python)
        } else if e == "ts"@ || e == "mts"@ || e == "cts"@ {
            Some(Language::TypeScript)
        } else if e == "tsx"@ {
            Some(Language::Tsx)
        } else if e == "js"@ || e == "mjs"@ || e == "cjs"@ || e == "jsx"@ {
            Some(Language::JavaScript)
        } else if e == "go"@ {
            Some(Language::Go)
        } else if e == "c"@ || e == "h"@ {
            Some(Language::C)
        } else if e == "cpp"@ || e == "cc"@ || e == "cxx"@ || e == "hpp"@ || e == "hh"@ || e == "hxx"@ {
            Some(Language::Cpp)
        } else if e == "java"@ {
            Some(Language::Java)
        } else if e == "json"@ {
            Some(Language::Json)
        } else if e == "toml"@ {
            Some(Language::Toml)
        } else if e == "md"@ || e == "markdown"@ {
            Some(Language::Markdown)
        } else {
            None
        }
    }

    pub open spec fn of_path(path: Seq<char>, win: bool) -> Option<Language> {
        match extension(path, win) {
            Some(e) => Language::of_extension(e),
            None => None,
        }
    }

    /// The language of a file by its name.
    pub fn from_path(path: &str, windows: bool) -> (r: Option<Language>)
        ensures
            r == Language::of_path(path@, windows),
    {
        let ext = match file_extension(path, windows) {
            Some(e) => e,
            None => {
                return None;
            },
        };
        let l = string_of(&to_lowered(ext.as_str()));
        let e = l.as_str();
        if str_eq(e, "rs") {
            Some(Language::Rust)
        } else if str_eq(e, "py") || str_eq(e, "pyi") {
            Some(Language::Python)
        } else if str_eq(e, "ts") || str_eq(e, "mts") || str_eq(e, "cts") {
            Some(Language::TypeScript)
        } else if str_eq(e, "tsx") {
            Some(Language::Tsx)
        } else if str_eq(e, "js") || str_eq(e, "mjs") || str_eq(e, "cjs") || str_eq(e, "jsx") {
            Some(Language::JavaScript)
        } else if str_eq(e, "go") {
            Some(Language::Go)
        } else if str_eq(e, "c") || str_eq(e, "h") {
            Some(Language::C)
        } else if str_eq(e, "cpp") || str_eq(e, "cc") || str_eq(e, "cxx") || str_eq(e, "hpp") || str_eq(e, "hh") || str_eq(e, "hxx") {
            Some(Language::Cpp)
        } else if str_eq(e, "java") {
            Some(Language::Java)
        } else if str_eq(e, "json") {
            Some(Language::Json)
        } else if str_eq(e, "toml") {
            Some(Language::Toml)
        } else if str_eq(e, "md") || str_eq(e, "markdown") {
            Some(Language::Markdown)
        } else {
            None
        }
    }

    pub open spec fn title(self) -> Seq<char> {
        match self {
            Language::Rust => "rust"@,
            Language::Python => "python"@,
            Language::TypeScript => "typescript"@,
            Language::Tsx => "typescript"@,
            Language::JavaScript => "javascript"@,
            Language::Go => "go"@,
            Language::C => "c"@,
            Language::Cpp => "cpp"@,
            Language::Java => "java"@,
            Language::Json => "json"@,
            Language::Toml => "toml"@,
            Language::Markdown => "markdown"@,
        }
    }

    pub fn name(self) -> (r: &'static str)
        ensures
            r@ == self.title(),
    {
        match self {
            Language::Rust => "rust",
            Language::Python => "python",
            Language::TypeScript => "typescript",
            Language::Tsx => "typescript",
            Language::JavaScript => "javascript",
            Language::Go => "go",
            Language::C => "c",
            Language::Cpp => "cpp",
            Language::Java => "java",
            Language::Json => "json",
            Language::Toml => "toml",
            Language::Markdown => "markdown",
        }
    }

    /// The kinds of nodes that define symbols, and the sort of each.
    pub open spec fn definitions(self) -> Seq<(Seq<char>, SymKind)> {
        match self {
            Language::Rust => seq![
                ("function_item"@, SymKind::Fn),
                ("function_signature_item"@, SymKind::Fn),
                ("struct_item"@, SymKind::Struct),
                ("enum_item"@, SymKind::Enum),
                ("trait_item"@, SymKind::Trait),
                ("impl_item"@, SymKind::Impl),
                ("const_item"@, SymKind::Const),
                ("static_item"@, SymKind::Static),
                ("type_item"@, SymKind::Type),
                ("mod_item"@, SymKind::Module),
                ("macro_definition"@, SymKind::Macro),
                ("union_item"@, SymKind::Struct),
            ],
            Language::Python => seq![
                ("function_definition"@, SymKind::Fn),
                ("class_definition"@, SymKind::Class),
            ],
            Language::TypeScript | Language::Tsx | Language::JavaScript => seq![
                ("function_declaration"@, SymKind::Fn),
                ("generator_function_declaration"@, SymKind::Fn),
                ("class_declaration"@, SymKind::Class),
                ("abstract_class_declaration"@, SymKind::Class),
                ("method_definition"@, SymKind::Method),
                ("interface_declaration"@, SymKind::Interface),
                ("type_alias_declaration"@, SymKind::Type),
                ("enum_declaration"@, SymKind::Enum),
                ("lexical_declaration"@, SymKind::Const),
                ("variable_declaration"@, SymKind::Const),
                ("module"@, SymKind::Module),
                ("internal_module"@, SymKind::Module),
            ],
            Language::Go => seq![
                ("function_declaration"@, SymKind::Fn),
                ("method_declaration"@, SymKind::Method),
                ("type_spec"@, SymKind::Type),
                ("const_spec"@, SymKind::Const),
                ("var_spec"@, SymKind::Static),
            ],
            Language::C => seq![
                ("function_definition"@, SymKind::Fn),
                ("struct_specifier"@, SymKind::Struct),
                ("enum_specifier"@, SymKind::Enum),
                ("union_specifier"@, SymKind::Struct),
                ("type_definition"@, SymKind::Type),
                ("declaration"@, SymKind::Static),
            ],
            Language::Cpp => seq![
                ("function_definition"@, SymKind::Fn),
                ("class_specifier"@, SymKind::Class),
                ("struct_specifier"@, SymKind::Struct),
                ("enum_specifier"@, SymKind::Enum),
                ("namespace_definition"@, SymKind::Module),
                ("type_definition"@, SymKind::Type),
                ("alias_declaration"@, SymKind::Type),
                ("template_declaration"@, SymKind::Type),
            ],
            Language::Java => seq![
                ("class_declaration"@, SymKind::Class),
                ("interface_declaration"@, SymKind::Interface),
                ("enum_declaration"@, SymKind::Enum),
                ("method_declaration"@, SymKind::Method),
                ("constructor_declaration"@, SymKind::Method),
                ("record_declaration"@, SymKind::Class),
            ],
            Language::Json => seq![
                ("pair"@, SymKind::Const),
            ],
            Language::Toml => seq![
                ("table"@, SymKind::Module),
                ("table_array_element"@, SymKind::Module),
                ("pair"@, SymKind::Const),
            ],
            Language::Markdown => seq![
                ("atx_heading"@, SymKind::Module),
                ("setext_heading"@, SymKind::Module),
            ],
        }
    }

    pub fn def_kinds(self) -> (r: Vec<(&'static str, SymKind)>)
        ensures
            kind_pairs(r@) == self.definitions(),
    {
        let r = match self {
            Language::Rust => vec![
                ("function_item", SymKind::Fn),
                ("function_signature_item", SymKind::Fn),
                ("struct_item", SymKind::Struct),
                ("enum_item", SymKind::Enum),
                ("trait_item", SymKind::Trait),
                ("impl_item", SymKind::Impl),
                ("const_item", SymKind::Const),
                ("static_item", SymKind::Static),
                ("type_item", SymKind::Type),
                ("mod_item", SymKind::Module),
                ("macro_definition", SymKind::Macro),
                ("union_item", SymKind::Struct),
            ],
            Language::Python => vec![
                ("function_definition", SymKind::Fn),
                ("class_definition", SymKind::Class),
            ],
            Language::TypeScript | Language::Tsx | Language::JavaScript => vec![
                ("function_declaration", SymKind::Fn),
                ("generator_function_declaration", SymKind::Fn),
                ("class_declaration", SymKind::Class),
                ("abstract_class_declaration", SymKind::Class),
                ("method_definition", SymKind::Method),
                ("interface_declaration", SymKind::Interface),
                ("type_alias_declaration", SymKind::Type),
                ("enum_declaration", SymKind::Enum),
                ("lexical_declaration", SymKind::Const),
                ("variable_declaration", SymKind::Const),
                ("module", SymKind::Module),
                ("internal_module", SymKind::Module),
            ],
            Language::Go => vec![
                ("function_declaration", SymKind::Fn),
                ("method_declaration", SymKind::Method),
                ("type_spec", SymKind::Type),
                ("const_spec", SymKind::Const),
                ("var_spec", SymKind::Static),
            ],
            Language::C => vec![
                ("function_definition", SymKind::Fn),
                ("struct_specifier", SymKind::Struct),
                ("enum_specifier", SymKind::Enum),
                ("union_specifier", SymKind::Struct),
                ("type_definition", SymKind::Type),
                ("declaration", SymKind::Static),
            ],
            Language::Cpp => vec![
                ("function_definition", SymKind::Fn),
                ("class_specifier", SymKind::Class),
                ("struct_specifier", SymKind::Struct),
                ("enum_specifier", SymKind::Enum),
                ("namespace_definition", SymKind::Module),
                ("type_definition", SymKind::Type),
                ("alias_declaration", SymKind::Type),
                ("template_declaration", SymKind::Type),
            ],
            Language::Java => vec![
                ("class_declaration", SymKind::Class),
                ("interface_declaration", SymKind::Interface),
                ("enum_declaration", SymKind::Enum),
                ("method_declaration", SymKind::Method),
                ("constructor_declaration", SymKind::Method),
                ("record_declaration", SymKind::Class),
            ],
            Language::Json => vec![
                ("pair", SymKind::Const),
            ],
            Language::Toml => vec![
                ("table", SymKind::Module),
                ("table_array_element", SymKind::Module),
                ("pair", SymKind::Const),
            ],
            Language::Markdown => vec![
                ("atx_heading", SymKind::Module),
                ("setext_heading", SymKind::Module),
            ],
        };
        assert(kind_pairs(r@) =~= self.definitions());
        r
    }

    /// The kinds of leaves that mention symbols.
    pub open spec fn mentions(self) -> Seq<Seq<char>> {
        match self {
            Language::Rust => seq!["identifier"@, "type_identifier"@, "field_identifier"@, "scoped_identifier"@],
            Language::Python => seq!["identifier"@, "attribute"@],
            Language::TypeScript | Language::Tsx | Language::JavaScript => seq!["identifier"@, "type_identifier"@, "property_identifier"@, "shorthand_property_identifier"@],
            Language::Go => seq!["identifier"@, "type_identifier"@, "field_identifier"@, "package_identifier"@],
            Language::C | Language::Cpp => seq!["identifier"@, "type_identifier"@, "field_identifier"@, "namespace_identifier"@],
            Language::Java => seq!["identifier"@, "type_identifier"@],
            Language::Json | Language::Toml | Language::Markdown => Seq::empty(),
        }
    }

    pub fn ref_kinds(self) -> (r: Vec<&'static str>)
        ensures
            texts(r@) == self.mentions(),
    {
        let r = match self {
            Language::Rust => vec!["identifier", "type_identifier", "field_identifier", "scoped_identifier"],
            Language::Python => vec!["identifier", "attribute"],
            Language::TypeScript | Language::Tsx | Language::JavaScript => vec!["identifier", "type_identifier", "property_identifier", "shorthand_property_identifier"],
            Language::Go => vec!["identifier", "type_identifier", "field_identifier", "package_identifier"],
            Language::C | Language::Cpp => vec!["identifier", "type_identifier", "field_identifier", "namespace_identifier"],
            Language::Java => vec!["identifier", "type_identifier"],
            Language::Json | Language::Toml | Language::Markdown => Vec::new(),
        };
        assert(texts(r@) =~= self.mentions());
        r
    }

    /// The files of the language mention symbols of others: they are neither settings nor
    /// documents.
    pub open spec fn codes(self) -> bool {
        self != Language::Json && self != Language::Toml && self != Language::Markdown
    }

    pub fn is_code(self) -> (r: bool)
        ensures
            r == self.codes(),
    {
        match self {
            Language::Json | Language::Toml | Language::Markdown => false,
            _ => true,
        }
    }
}

/// The sort that a kind of nodes defines, from place `i` of the list on.
pub open spec fn kind_from(v: Seq<(Seq<char>, SymKind)>, kind: Seq<char>, i: int) -> Option<SymKind>
    decreases v.len() - i,
{
    if i < 0 || i >= v.len() {
        None
    } else if v[i].0 == kind {
        Some(v[i].1)
    } else {
        kind_from(v, kind, i + 1)
    }
}

pub fn find_kind(v: &Vec<(&'static str, SymKind)>, kind: &str) -> (r: Option<SymKind>)
    ensures
        r == kind_from(kind_pairs(v@), kind@, 0),
{
    let ghost kv = kind_pairs(v@);
    let mut i: usize = 0;
    while i < v.len()
        invariant
            i <= v.len(),
            kv == kind_pairs(v@),
            kind_from(kv, kind@, 0) == kind_from(kv, kind@, i as int),
        decreases v.len() - i,
    {
        assert(kv[i as int] == (v@[i as int].0@, v@[i as int].1));
        if str_eq(v[i].0, kind) {
            return Some(v[i].1);
        }
        i += 1;
    }
    None
}

pub fn holds_text(v: &Vec<&'static str>, s: &str) -> (r: bool)
    ensures
        r == texts(v@).contains(s@),
{
    let ghost tv = texts(v@);
    let mut i: usize = 0;
    while i < v.len()
        invariant
            i <= v.len(),
            tv == texts(v@),
            forall|k: int| 0 <= k < i ==> #[trigger] tv[k] != s@,
        decreases v.len() - i,
    {
        assert(tv[i as int] == v@[i as int]@);
        if str_eq(v[i], s) {
            return true;
        }
        i += 1;
    }
    false
}

/// A number that tells the nodes of a language apart.
spec fn node_mark(s: Seq<char>) -> int {
    s.len() * 128 + s[3] as int
}

/// In every language there are nodes that define symbols, each of one sort; the languages of
/// the TypeScript family have the same.
pub proof fn law_definitions_are_told_by_their_node(l: Language)
    ensures
        l.definitions().len() > 0,
        forall|i: int, j: int|
            0 <= i < j < l.definitions().len() ==> (#[trigger] l.definitions()[i]).0 != (#[trigger] l.definitions()[j]).0,
        Language::TypeScript.definitions() == Language::Tsx.definitions(),
        Language::TypeScript.definitions() == Language::JavaScript.definitions(),
{
    let d = l.definitions();
    match l {
        Language::Rust => {
            reveal_strlit("function_item");
            assert(node_mark(d[0].0) == 1763);
            reveal_strlit("function_signature_item");
            assert(node_mark(d[1].0) == 3043);
            reveal_strlit("struct_item");
            assert(node_mark(d[2].0) == 1525);
            reveal_strlit("enum_item");
            assert(node_mark(d[3].0) == 1261);
            reveal_strlit("trait_item");
            assert(node_mark(d[4].0) == 1385);
            reveal_strlit("impl_item");
            assert(node_mark(d[5].0) == 1260);
            reveal_strlit("const_item");
            assert(node_mark(d[6].0) == 1395);
            reveal_strlit("static_item");
            assert(node_mark(d[7].0) == 1524);
            reveal_strlit("type_item");
            assert(node_mark(d[8].0) == 1253);
            reveal_strlit("mod_item");
            assert(node_mark(d[9].0) == 1119);
            reveal_strlit("macro_definition");
            assert(node_mark(d[10].0) == 2162);
            reveal_strlit("union_item");
            assert(node_mark(d[11].0) == 1391);
        },
        Language::Python => {
            reveal_strlit("function_definition");
            assert(node_mark(d[0].0) == 2531);
            reveal_strlit("class_definition");
            assert(node_mark(d[1].0) == 2163);
        },
        Language::TypeScript | Language::Tsx | Language::JavaScript => {
            reveal_strlit("function_declaration");
            assert(node_mark(d[0].0) == 2659);
            reveal_strlit("generator_function_declaration");
            assert(node_mark(d[1].0) == 3941);
            reveal_strlit("class_declaration");
            assert(node_mark(d[2].0) == 2291);
            reveal_strlit("abstract_class_declaration");
            assert(node_mark(d[3].0) == 3444);
            reveal_strlit("method_definition");
            assert(node_mark(d[4].0) == 2280);
            reveal_strlit("interface_declaration");
            assert(node_mark(d[5].0) == 2789);
            reveal_strlit("type_alias_declaration");
            assert(node_mark(d[6].0) == 2917);
            reveal_strlit("enum_declaration");
            assert(node_mark(d[7].0) == 2157);
            reveal_strlit("lexical_declaration");
            assert(node_mark(d[8].0) == 2537);
            reveal_strlit("variable_declaration");
            assert(node_mark(d[9].0) == 2665);
            reveal_strlit("module");
            assert(node_mark(d[10].0) == 885);
            reveal_strlit("internal_module");
            assert(node_mark(d[11].0) == 2021);
        },
        Language::Go => {
            reveal_strlit("function_declaration");
            assert(node_mark(d[0].0) == 2659);
            reveal_strlit("method_declaration");
            assert(node_mark(d[1].0) == 2408);
            reveal_strlit("type_spec");
            assert(node_mark(d[2].0) == 1253);
            reveal_strlit("const_spec");
            assert(node_mark(d[3].0) == 1395);
            reveal_strlit("var_spec");
            assert(node_mark(d[4].0) == 1119);
        },
        Language::C => {
            reveal_strlit("function_definition");
            assert(node_mark(d[0].0) == 2531);
            reveal_strlit("struct_specifier");
            assert(node_mark(d[1].0) == 2165);
            reveal_strlit("enum_specifier");
            assert(node_mark(d[2].0) == 1901);
            reveal_strlit("union_specifier");
            assert(node_mark(d[3].0) == 2031);
            reveal_strlit("type_definition");
            assert(node_mark(d[4].0) == 2021);
            reveal_strlit("declaration");
            assert(node_mark(d[5].0) == 1516);
        },
        Language::Cpp => {
            reveal_strlit("function_definition");
            assert(node_mark(d[0].0) == 2531);
            reveal_strlit("class_specifier");
            assert(node_mark(d[1].0) == 2035);
            reveal_strlit("struct_specifier");
            assert(node_mark(d[2].0) == 2165);
            reveal_strlit("enum_specifier");
            assert(node_mark(d[3].0) == 1901);
            reveal_strlit("namespace_definition");
            assert(node_mark(d[4].0) == 2661);
            reveal_strlit("type_definition");
            assert(node_mark(d[5].0) == 2021);
            reveal_strlit("alias_declaration");
            assert(node_mark(d[6].0) == 2273);
            reveal_strlit("template_declaration");
            assert(node_mark(d[7].0) == 2672);
        },
        Language::Java => {
            reveal_strlit("class_declaration");
            assert(node_mark(d[0].0) == 2291);
            reveal_strlit("interface_declaration");
            assert(node_mark(d[1].0) == 2789);
            reveal_strlit("enum_declaration");
            assert(node_mark(d[2].0) == 2157);
            reveal_strlit("method_declaration");
            assert(node_mark(d[3].0) == 2408);
            reveal_strlit("constructor_declaration");
            assert(node_mark(d[4].0) == 3059);
            reveal_strlit("record_declaration");
            assert(node_mark(d[5].0) == 2415);
        },
        Language::Json => {
            reveal_strlit("pair");
            assert(node_mark(d[0].0) == 626);
        },
        Language::Toml => {
            reveal_strlit("table");
            assert(node_mark(d[0].0) == 748);
            reveal_strlit("table_array_element");
            assert(node_mark(d[1].0) == 2540);
            reveal_strlit("pair");
            assert(node_mark(d[2].0) == 626);
        },
        Language::Markdown => {
            reveal_strlit("atx_heading");
            assert(node_mark(d[0].0) == 1503);
            reveal_strlit("setext_heading");
            assert(node_mark(d[1].0) == 1893);
        },
    }
    assert forall|i: int, j: int| 0 <= i < j < d.len() implies (#[trigger] d[i]).0 != (#[trigger] d[j]).0 by {
        assert(node_mark(d[i].0) != node_mark(d[j].0));
    }
}

/// The word for a sort of symbols means that sort.
pub proof fn law_label_is_understood(k: SymKind)
    ensures
        SymKind::meant(k.name()) == Some(k),
{
    reveal_strlit("class");
    reveal_strlit("const");
    reveal_strlit("enum");
    reveal_strlit("fn");
    reveal_strlit("func");
    reveal_strlit("function");
    reveal_strlit("impl");
    reveal_strlit("interface");
    reveal_strlit("macro");
    reveal_strlit("method");
    reveal_strlit("mod");
    reveal_strlit("module");
    reveal_strlit("namespace");
    reveal_strlit("static");
    reveal_strlit("struct");
    reveal_strlit("trait");
    reveal_strlit("type");
    reveal_strlit("var");
    assert(lowered(k.name()) =~= k.name());
    match k {
        SymKind::Fn => {},
        SymKind::Method => {
            assert("method"@.len() != "fn"@.len());
            assert("method"@.len() != "function"@.len());
            assert("method"@.len() != "func"@.len());
        },
        SymKind::Struct => {
            assert("struct"@.len() != "fn"@.len());
            assert("struct"@.len() != "function"@.len());
            assert("struct"@.len() != "func"@.len());
            assert("struct"@[0] != "method"@[0]);
        },
        SymKind::Enum => {
            assert("enum"@.len() != "fn"@.len());
            assert("enum"@.len() != "function"@.len());
            assert("enum"@[0] != "func"@[0]);
            assert("enum"@.len() != "method"@.len());
            assert("enum"@.len() != "struct"@.len());
        },
        SymKind::Trait => {
            assert("trait"@.len() != "fn"@.len());
            assert("trait"@.len() != "function"@.len());
            assert("trait"@.len() != "func"@.len());
            assert("trait"@.len() != "method"@.len());
            assert("trait"@.len() != "struct"@.len());
            assert("trait"@.len() != "enum"@.len());
        },
        SymKind::Class => {
            assert("class"@.len() != "fn"@.len());
            assert("class"@.len() != "function"@.len());
            assert("class"@.len() != "func"@.len());
            assert("class"@.len() != "method"@.len());
            assert("class"@.len() != "struct"@.len());
            assert("class"@.len() != "enum"@.len());
            assert("class"@[0] != "trait"@[0]);
        },
        SymKind::Interface => {
            assert("interface"@.len() != "fn"@.len());
            assert("interface"@.len() != "function"@.len());
            assert("interface"@.len() != "func"@.len());
            assert("interface"@.len() != "method"@.len());
            assert("interface"@.len() != "struct"@.len());
            assert("interface"@.len() != "enum"@.len());
            assert("interface"@.len() != "trait"@.len());
            assert("interface"@.len() != "class"@.len());
        },
        SymKind::Const => {
            assert("const"@.len() != "fn"@.len());
            assert("const"@.len() != "function"@.len());
            assert("const"@.len() != "func"@.len());
            assert("const"@.len() != "method"@.len());
            assert("const"@.len() != "struct"@.len());
            assert("const"@.len() != "enum"@.len());
            assert("const"@[0] != "trait"@[0]);
            assert("const"@[1] != "class"@[1]);
            assert("const"@.len() != "interface"@.len());
        },
        SymKind::Static => {
            assert("static"@.len() != "fn"@.len());
            assert("static"@.len() != "function"@.len());
            assert("static"@.len() != "func"@.len());
            assert("static"@[0] != "method"@[0]);
            assert("static"@[2] != "struct"@[2]);
            assert("static"@.len() != "enum"@.len());
            assert("static"@.len() != "trait"@.len());
            assert("static"@.len() != "class"@.len());
            assert("static"@.len() != "interface"@.len());
            assert("static"@.len() != "const"@.len());
        },
        SymKind::Type => {
            assert("type"@.len() != "fn"@.len());
            assert("type"@.len() != "function"@.len());
            assert("type"@[0] != "func"@[0]);
            assert("type"@.len() != "method"@.len());
            assert("type"@.len() != "struct"@.len());
            assert("type"@[0] != "enum"@[0]);
            assert("type"@.len() != "trait"@.len());
            assert("type"@.len() != "class"@.len());
            assert("type"@.len() != "interface"@.len());
            assert("type"@.len() != "const"@.len());
            assert("type"@.len() != "static"@.len());
            assert("type"@.len() != "var"@.len());
        },
        SymKind::Module => {
            assert("mod"@.len() != "fn"@.len());
            assert("mod"@.len() != "function"@.len());
            assert("mod"@.len() != "func"@.len());
            assert("mod"@.len() != "method"@.len());
            assert("mod"@.len() != "struct"@.len());
            assert("mod"@.len() != "enum"@.len());
            assert("mod"@.len() != "trait"@.len());
            assert("mod"@.len() != "class"@.len());
            assert("mod"@.len() != "interface"@.len());
            assert("mod"@.len() != "const"@.len());
            assert("mod"@.len() != "static"@.len());
            assert("mod"@[0] != "var"@[0]);
            assert("mod"@.len() != "type"@.len());
        },
        SymKind::Impl => {
            assert("impl"@.len() != "fn"@.len());
            assert("impl"@.len() != "function"@.len());
            assert("impl"@[0] != "func"@[0]);
            assert("impl"@.len() != "method"@.len());
            assert("impl"@.len() != "struct"@.len());
            assert("impl"@[0] != "enum"@[0]);
            assert("impl"@.len() != "trait"@.len());
            assert("impl"@.len() != "class"@.len());
            assert("impl"@.len() != "interface"@.len());
            assert("impl"@.len() != "const"@.len());
            assert("impl"@.len() != "static"@.len());
            assert("impl"@.len() != "var"@.len());
            assert("impl"@[0] != "type"@[0]);
            assert("impl"@.len() != "mod"@.len());
            assert("impl"@.len() != "module"@.len());
            assert("impl"@.len() != "namespace"@.len());
        },
        SymKind::Macro => {
            assert("macro"@.len() != "fn"@.len());
            assert("macro"@.len() != "function"@.len());
            assert("macro"@.len() != "func"@.len());
            assert("macro"@.len() != "method"@.len());
            assert("macro"@.len() != "struct"@.len());
            assert("macro"@.len() != "enum"@.len());
            assert("macro"@[0] != "trait"@[0]);
            assert("macro"@[0] != "class"@[0]);
            assert("macro"@.len() != "interface"@.len());
            assert("macro"@[0] != "const"@[0]);
            assert("macro"@.len() != "static"@.len());
            assert("macro"@.len() != "var"@.len());
            assert("macro"@.len() != "type"@.len());
            assert("macro"@.len() != "mod"@.len());
            assert("macro"@.len() != "module"@.len());
            assert("macro"@.len() != "namespace"@.len());
            assert("macro"@.len() != "impl"@.len());
        },
    }
}

/// The language of a file is told by its extension.
pub proof fn law_languages_by_extension()
    ensures
        Language::of_extension("rs"@) == Some(Language::Rust),
        Language::of_extension("py"@) == Some(Language::Python),
        Language::of_extension("pyi"@) == Some(Language::Python),
        Language::of_extension("ts"@) == Some(Language::TypeScript),
        Language::of_extension("mts"@) == Some(Language::TypeScript),
        Language::of_extension("cts"@) == Some(Language::TypeScript),
        Language::of_extension("tsx"@) == Some(Language::Tsx),
        Language::of_extension("js"@) == Some(Language::JavaScript),
        Language::of_extension("mjs"@) == Some(Language::JavaScript),
        Language::of_extension("cjs"@) == Some(Language::JavaScript),
        Language::of_extension("jsx"@) == Some(Language::JavaScript),
        Language::of_extension("go"@) == Some(Language::Go),
        Language::of_extension("c"@) == Some(Language::C),
        Language::of_extension("h"@) == Some(Language::C),
        Language::of_extension("cpp"@) == Some(Language::Cpp),
        Language::of_extension("cc"@) == Some(Language::Cpp),
        Language::of_extension("cxx"@) == Some(Language::Cpp),
        Language::of_extension("hpp"@) == Some(Language::Cpp),
        Language::of_extension("hh"@) == Some(Language::Cpp),
        Language::of_extension("hxx"@) == Some(Language::Cpp),
        Language::of_extension("java"@) == Some(Language::Java),
        Language::of_extension("json"@) == Some(Language::Json),
        Language::of_extension("toml"@) == Some(Language::Toml),
        Language::of_extension("md"@) == Some(Language::Markdown),
        Language::of_extension("markdown"@) == Some(Language::Markdown),
{
    lemma_ext_rs();
    lemma_ext_py();
    lemma_ext_ts();
    lemma_ext_tsx();
    lemma_ext_js();
    lemma_ext_go();
    lemma_ext_c();
    lemma_ext_cpp();
    lemma_ext_java();
    lemma_ext_json();
    lemma_ext_toml();
    lemma_ext_md();
}

proof fn lemma_ext_rs()
    ensures
        Language::of_extension("rs"@) == Some(Language::Rust),
{
    reveal_strlit("rs");
    assert(lowered("rs"@) =~= "rs"@);
}

proof fn lemma_ext_py()
    ensures
        Language::of_extension("py"@) == Some(Language::Python),
        Language::of_extension("pyi"@) == Some(Language::Python),
{
    reveal_strlit("rs");
    reveal_strlit("py");
    reveal_strlit("pyi");
    assert(lowered("py"@) =~= "py"@);
    assert("py"@[0] != "rs"@[0]);
    assert(lowered("pyi"@) =~= "pyi"@);
    assert("pyi"@.len() != "rs"@.len());
}

#[verifier::rlimit(40)]
proof fn lemma_ext_ts()
    ensures
        Language::of_extension("ts"@) == Some(Language::TypeScript),
        Language::of_extension("mts"@) == Some(Language::TypeScript),
        Language::of_extension("cts"@) == Some(Language::TypeScript),
{
    reveal_strlit("rs");
    reveal_strlit("py");
    reveal_strlit("pyi");
    reveal_strlit("ts");
    reveal_strlit("mts");
    reveal_strlit("cts");
    assert(lowered("ts"@) =~= "ts"@);
    assert("ts"@[0] != "rs"@[0]);
    assert("ts"@[0] != "py"@[0]);
    assert("ts"@.len() != "pyi"@.len());
    assert(lowered("mts"@) =~= "mts"@);
    assert("mts"@.len() != "rs"@.len());
    assert("mts"@.len() != "py"@.len());
    assert("mts"@[0] != "pyi"@[0]);
    assert(lowered("cts"@) =~= "cts"@);
    assert("cts"@.len() != "rs"@.len());
    assert("cts"@.len() != "py"@.len());
    assert("cts"@[0] != "pyi"@[0]);
}

proof fn lemma_ext_tsx()
    ensures
        Language::of_extension("tsx"@) == Some(Language::Tsx),
{
    reveal_strlit("rs");
    reveal_strlit("py");
    reveal_strlit("pyi");
    reveal_strlit("ts");
    reveal_strlit("mts");
    reveal_strlit("cts");
    reveal_strlit("tsx");
    assert(lowered("tsx"@) =~= "tsx"@);
    assert("tsx"@.len() != "rs"@.len());
    assert("tsx"@.len() != "py"@.len());
    assert("tsx"@[0] != "pyi"@[0]);
    assert("tsx"@.len() != "ts"@.len());
    assert("tsx"@[0] != "mts"@[0]);
    assert("tsx"@[0] != "cts"@[0]);
}

#[verifier::rlimit(40)]
proof fn lemma_ext_js()
    ensures
        Language::of_extension("js"@) == Some(Language::JavaScript),
        Language::of_extension("mjs"@) == Some(Language::JavaScript),
        Language::of_extension("cjs"@) == Some(Language::JavaScript),
        Language::of_extension("jsx"@) == Some(Language::JavaScript),
{
    reveal_strlit("rs");
    reveal_strlit("py");
    reveal_strlit("pyi");
    reveal_strlit("ts");
    reveal_strlit("mts");
    reveal_strlit("cts");
    reveal_strlit("tsx");
    reveal_strlit("js");
    reveal_strlit("mjs");
    reveal_strlit("cjs");
    reveal_strlit("jsx");
    assert(lowered("js"@) =~= "js"@);
    assert("js"@[0] != "rs"@[0]);
    assert("js"@[0] != "py"@[0]);
    assert("js"@.len() != "pyi"@.len());
    assert("js"@[0] != "ts"@[0]);
    assert("js"@.len() != "mts"@.len());
    assert("js"@.len() != "cts"@.len());
    assert("js"@.len() != "tsx"@.len());
    assert(lowered("mjs"@) =~= "mjs"@);
    assert("mjs"@.len() != "rs"@.len());
    assert("mjs"@.len() != "py"@.len());
    assert("mjs"@[0] != "pyi"@[0]);
    assert("mjs"@.len() != "ts"@.len());
    assert("mjs"@[1] != "mts"@[1]);
    assert("mjs"@[0] != "cts"@[0]);
    assert("mjs"@[0] != "tsx"@[0]);
    assert(lowered("cjs"@) =~= "cjs"@);
    assert("cjs"@.len() != "rs"@.len());
    assert("cjs"@.len() != "py"@.len());
    assert("cjs"@[0] != "pyi"@[0]);
    assert("cjs"@.len() != "ts"@.len());
    assert("cjs"@[0] != "mts"@[0]);
    assert("cjs"@[1] != "cts"@[1]);
    assert("cjs"@[0] != "tsx"@[0]);
    assert(lowered("jsx"@) =~= "jsx"@);
    assert("jsx"@.len() != "rs"@.len());
    assert("jsx"@.len() != "py"@.len());
    assert("jsx"@[0] != "pyi"@[0]);
    assert("jsx"@.len() != "ts"@.len());
    assert("jsx"@[0] != "mts"@[0]);
    assert("jsx"@[0] != "cts"@[0]);
    assert("jsx"@[0] != "tsx"@[0]);
}

proof fn lemma_ext_go()
    ensures
        Language::of_extension("go"@) == Some(Language::Go),
{
    reveal_strlit("rs");
    reveal_strlit("py");
    reveal_strlit("pyi");
    reveal_strlit("ts");
    reveal_strlit("mts");
    reveal_strlit("cts");
    reveal_strlit("tsx");
    reveal_strlit("js");
    reveal_strlit("mjs");
    reveal_strlit("cjs");
    reveal_strlit("jsx");
    reveal_strlit("go");
    assert(lowered("go"@) =~= "go"@);
    assert("go"@[0] != "rs"@[0]);
    assert("go"@[0] != "py"@[0]);
    assert("go"@.len() != "pyi"@.len());
    assert("go"@[0] != "ts"@[0]);
    assert("go"@.len() != "mts"@.len());
    assert("go"@.len() != "cts"@.len());
    assert("go"@.len() != "tsx"@.len());
    assert("go"@[0] != "js"@[0]);
    assert("go"@.len() != "mjs"@.len());
    assert("go"@.len() != "cjs"@.len());
    assert("go"@.len() != "jsx"@.len());
}

proof fn lemma_ext_c()
    ensures
        Language::of_extension("c"@) == Some(Language::C),
        Language::of_extension("h"@) == Some(Language::C),
{
    reveal_strlit("rs");
    reveal_strlit("py");
    reveal_strlit("pyi");
    reveal_strlit("ts");
    reveal_strlit("mts");
    reveal_strlit("cts");
    reveal_strlit("tsx");
    reveal_strlit("js");
    reveal_strlit("mjs");
    reveal_strlit("cjs");
    reveal_strlit("jsx");
    reveal_strlit("go");
    reveal_strlit("c");
    reveal_strlit("h");
    assert(lowered("c"@) =~= "c"@);
    assert("c"@.len() != "rs"@.len());
    assert("c"@.len() != "py"@.len());
    assert("c"@.len() != "pyi"@.len());
    assert("c"@.len() != "ts"@.len());
    assert("c"@.len() != "mts"@.len());
    assert("c"@.len() != "cts"@.len());
    assert("c"@.len() != "tsx"@.len());
    assert("c"@.len() != "js"@.len());
    assert("c"@.len() != "mjs"@.len());
    assert("c"@.len() != "cjs"@.len());
    assert("c"@.len() != "jsx"@.len());
    assert("c"@.len() != "go"@.len());
    assert(lowered("h"@) =~= "h"@);
    assert("h"@.len() != "rs"@.len());
    assert("h"@.len() != "py"@.len());
    assert("h"@.len() != "pyi"@.len());
    assert("h"@.len() != "ts"@.len());
    assert("h"@.len() != "mts"@.len());
    assert("h"@.len() != "cts"@.len());
    assert("h"@.len() != "tsx"@.len());
    assert("h"@.len() != "js"@.len());
    assert("h"@.len() != "mjs"@.len());
    assert("h"@.len() != "cjs"@.len());
    assert("h"@.len() != "jsx"@.len());
    assert("h"@.len() != "go"@.len());
}

#[verifier::rlimit(40)]
proof fn lemma_ext_cpp()
    ensures
        Language::of_extension("cpp"@) == Some(Language::Cpp),
        Language::of_extension("cc"@) == Some(Language::Cpp),
        Language::of_extension("cxx"@) == Some(Language::Cpp),
        Language::of_extension("hpp"@) == Some(Language::Cpp),
        Language::of_extension("hh"@) == Some(Language::Cpp),
        Language::of_extension("hxx"@) == Some(Language::Cpp),
{
    reveal_strlit("rs");
    reveal_strlit("py");
    reveal_strlit("pyi");
    reveal_strlit("ts");
    reveal_strlit("mts");
    reveal_strlit("cts");
    reveal_strlit("tsx");
    reveal_strlit("js");
    reveal_strlit("mjs");
    reveal_strlit("cjs");
    reveal_strlit("jsx");
    reveal_strlit("go");
    reveal_strlit("c");
    reveal_strlit("h");
    reveal_strlit("cpp");
    reveal_strlit("cc");
    reveal_strlit("cxx");
    reveal_strlit("hpp");
    reveal_strlit("hh");
    reveal_strlit("hxx");
    assert(lowered("cpp"@) =~= "cpp"@);
    assert("cpp"@.len() != "rs"@.len());
    assert("cpp"@.len() != "py"@.len());
    assert("cpp"@[0] != "pyi"@[0]);
    assert("cpp"@.len() != "ts"@.len());
    assert("cpp"@[0] != "mts"@[0]);
    assert("cpp"@[1] != "cts"@[1]);
    assert("cpp"@[0] != "tsx"@[0]);
    assert("cpp"@.len() != "js"@.len());
    assert("cpp"@[0] != "mjs"@[0]);
    assert("cpp"@[1] != "cjs"@[1]);
    assert("cpp"@[0] != "jsx"@[0]);
    assert("cpp"@.len() != "go"@.len());
    assert("cpp"@.len() != "c"@.len());
    assert("cpp"@.len() != "h"@.len());
    assert(lowered("cc"@) =~= "cc"@);
    assert("cc"@[0] != "rs"@[0]);
    assert("cc"@[0] != "py"@[0]);
    assert("cc"@.len() != "pyi"@.len());
    assert("cc"@[0] != "ts"@[0]);
    assert("cc"@.len() != "mts"@.len());
    assert("cc"@.len() != "cts"@.len());
    assert("cc"@.len() != "tsx"@.len());
    assert("cc"@[0] != "js"@[0]);
    assert("cc"@.len() != "mjs"@.len());
    assert("cc"@.len() != "cjs"@.len());
    assert("cc"@.len() != "jsx"@.len());
    assert("cc"@[0] != "go"@[0]);
    assert("cc"@.len() != "c"@.len());
    assert("cc"@.len() != "h"@.len());
    assert(lowered("cxx"@) =~= "cxx"@);
    assert("cxx"@.len() != "rs"@.len());
    assert("cxx"@.len() != "py"@.len());
    assert("cxx"@[0] != "pyi"@[0]);
    assert("cxx"@.len() != "ts"@.len());
    assert("cxx"@[0] != "mts"@[0]);
    assert("cxx"@[1] != "cts"@[1]);
    assert("cxx"@[0] != "tsx"@[0]);
    assert("cxx"@.len() != "js"@.len());
    assert("cxx"@[0] != "mjs"@[0]);
    assert("cxx"@[1] != "cjs"@[1]);
    assert("cxx"@[0] != "jsx"@[0]);
    assert("cxx"@.len() != "go"@.len());
    assert("cxx"@.len() != "c"@.len());
    assert("cxx"@.len() != "h"@.len());
    assert(lowered("hpp"@) =~= "hpp"@);
    assert("hpp"@.len() != "rs"@.len());
    assert("hpp"@.len() != "py"@.len());
    assert("hpp"@[0] != "pyi"@[0]);
    assert("hpp"@.len() != "ts"@.len());
    assert("hpp"@[0] != "mts"@[0]);
    assert("hpp"@[0] != "cts"@[0]);
    assert("hpp"@[0] != "tsx"@[0]);
    assert("hpp"@.len() != "js"@.len());
    assert("hpp"@[0] != "mjs"@[0]);
    assert("hpp"@[0] != "cjs"@[0]);
    assert("hpp"@[0] != "jsx"@[0]);
    assert("hpp"@.len() != "go"@.len());
    assert("hpp"@.len() != "c"@.len());
    assert("hpp"@.len() != "h"@.len());
    assert(lowered("hh"@) =~= "hh"@);
    assert("hh"@[0] != "rs"@[0]);
    assert("hh"@[0] != "py"@[0]);
    assert("hh"@.len() != "pyi"@.len());
    assert("hh"@[0] != "ts"@[0]);
    assert("hh"@.len() != "mts"@.len());
    assert("hh"@.len() != "cts"@.len());
    assert("hh"@.len() != "tsx"@.len());
    assert("hh"@[0] != "js"@[0]);
    assert("hh"@.len() != "mjs"@.len());
    assert("hh"@.len() != "cjs"@.len());
    assert("hh"@.len() != "jsx"@.len());
    assert("hh"@[0] != "go"@[0]);
    assert("hh"@.len() != "c"@.len());
    assert("hh"@.len() != "h"@.len());
    assert(lowered("hxx"@) =~= "hxx"@);
    assert("hxx"@.len() != "rs"@.len());
    assert("hxx"@.len() != "py"@.len());
    assert("hxx"@[0] != "pyi"@[0]);
    assert("hxx"@.len() != "ts"@.len());
    assert("hxx"@[0] != "mts"@[0]);
    assert("hxx"@[0] != "cts"@[0]);
    assert("hxx"@[0] != "tsx"@[0]);
    assert("hxx"@.len() != "js"@.len());
    assert("hxx"@[0] != "mjs"@[0]);
    assert("hxx"@[0] != "cjs"@[0]);
    assert("hxx"@[0] != "jsx"@[0]);
    assert("hxx"@.len() != "go"@.len());
    assert("hxx"@.len() != "c"@.len());
    assert("hxx"@.len() != "h"@.len());
}

proof fn lemma_ext_java()
    ensures
        Language::of_extension("java"@) == Some(Language::Java),
{
    reveal_strlit("rs");
    reveal_strlit("py");
    reveal_strlit("pyi");
    reveal_strlit("ts");
    reveal_strlit("mts");
    reveal_strlit("cts");
    reveal_strlit("tsx");
    reveal_strlit("js");
    reveal_strlit("mjs");
    reveal_strlit("cjs");
    reveal_strlit("jsx");
    reveal_strlit("go");
    reveal_strlit("c");
    reveal_strlit("h");
    reveal_strlit("cpp");
    reveal_strlit("cc");
    reveal_strlit("cxx");
    reveal_strlit("hpp");
    reveal_strlit("hh");
    reveal_strlit("hxx");
    reveal_strlit("java");
    assert(lowered("java"@) =~= "java"@);
    assert("java"@.len() != "rs"@.len());
    assert("java"@.len() != "py"@.len());
    assert("java"@.len() != "pyi"@.len());
    assert("java"@.len() != "ts"@.len());
    assert("java"@.len() != "mts"@.len());
    assert("java"@.len() != "cts"@.len());
    assert("java"@.len() != "tsx"@.len());
    assert("java"@.len() != "js"@.len());
    assert("java"@.len() != "mjs"@.len());
    assert("java"@.len() != "cjs"@.len());
    assert("java"@.len() != "jsx"@.len());
    assert("java"@.len() != "go"@.len());
    assert("java"@.len() != "c"@.len());
    assert("java"@.len() != "h"@.len());
    assert("java"@.len() != "cpp"@.len());
    assert("java"@.len() != "cc"@.len());
    assert("java"@.len() != "cxx"@.len());
    assert("java"@.len() != "hpp"@.len());
    assert("java"@.len() != "hh"@.len());
    assert("java"@.len() != "hxx"@.len());
}

proof fn lemma_ext_json()
    ensures
        Language::of_extension("json"@) == Some(Language::Json),
{
    reveal_strlit("rs");
    reveal_strlit("py");
    reveal_strlit("pyi");
    reveal_strlit("ts");
    reveal_strlit("mts");
    reveal_strlit("cts");
    reveal_strlit("tsx");
    reveal_strlit("js");
    reveal_strlit("mjs");
    reveal_strlit("cjs");
    reveal_strlit("jsx");
    reveal_strlit("go");
    reveal_strlit("c");
    reveal_strlit("h");
    reveal_strlit("cpp");
    reveal_strlit("cc");
    reveal_strlit("cxx");
    reveal_strlit("hpp");
    reveal_strlit("hh");
    reveal_strlit("hxx");
    reveal_strlit("java");
    reveal_strlit("json");
    assert(lowered("json"@) =~= "json"@);
    assert("json"@.len() != "rs"@.len());
    assert("json"@.len() != "py"@.len());
    assert("json"@.len() != "pyi"@.len());
    assert("json"@.len() != "ts"@.len());
    assert("json"@.len() != "mts"@.len());
    assert("json"@.len() != "cts"@.len());
    assert("json"@.len() != "tsx"@.len());
    assert("json"@.len() != "js"@.len());
    assert("json"@.len() != "mjs"@.len());
    assert("json"@.len() != "cjs"@.len());
    assert("json"@.len() != "jsx"@.len());
    assert("json"@.len() != "go"@.len());
    assert("json"@.len() != "c"@.len());
    assert("json"@.len() != "h"@.len());
    assert("json"@.len() != "cpp"@.len());
    assert("json"@.len() != "cc"@.len());
    assert("json"@.len() != "cxx"@.len());
    assert("json"@.len() != "hpp"@.len());
    assert("json"@.len() != "hh"@.len());
    assert("json"@.len() != "hxx"@.len());
    assert("json"@[1] != "java"@[1]);
}

proof fn lemma_ext_toml()
    ensures
        Language::of_extension("toml"@) == Some(Language::Toml),
{
    reveal_strlit("rs");
    reveal_strlit("py");
    reveal_strlit("pyi");
    reveal_strlit("ts");
    reveal_strlit("mts");
    reveal_strlit("cts");
    reveal_strlit("tsx");
    reveal_strlit("js");
    reveal_strlit("mjs");
    reveal_strlit("cjs");
    reveal_strlit("jsx");
    reveal_strlit("go");
    reveal_strlit("c");
    reveal_strlit("h");
    reveal_strlit("cpp");
    reveal_strlit("cc");
    reveal_strlit("cxx");
    reveal_strlit("hpp");
    reveal_strlit("hh");
    reveal_strlit("hxx");
    reveal_strlit("java");
    reveal_strlit("json");
    reveal_strlit("toml");
    assert(lowered("toml"@) =~= "toml"@);
    assert("toml"@.len() != "rs"@.len());
    assert("toml"@.len() != "py"@.len());
    assert("toml"@.len() != "pyi"@.len());
    assert("toml"@.len() != "ts"@.len());
    assert("toml"@.len() != "mts"@.len());
    assert("toml"@.len() != "cts"@.len());
    assert("toml"@.len() != "tsx"@.len());
    assert("toml"@.len() != "js"@.len());
    assert("toml"@.len() != "mjs"@.len());
    assert("toml"@.len() != "cjs"@.len());
    assert("toml"@.len() != "jsx"@.len());
    assert("toml"@.len() != "go"@.len());
    assert("toml"@.len() != "c"@.len());
    assert("toml"@.len() != "h"@.len());
    assert("toml"@.len() != "cpp"@.len());
    assert("toml"@.len() != "cc"@.len());
    assert("toml"@.len() != "cxx"@.len());
    assert("toml"@.len() != "hpp"@.len());
    assert("toml"@.len() != "hh"@.len());
    assert("toml"@.len() != "hxx"@.len());
    assert("toml"@[0] != "java"@[0]);
    assert("toml"@[0] != "json"@[0]);
}

proof fn lemma_ext_md()
    ensures
        Language::of_extension("md"@) == Some(Language::Markdown),
        Language::of_extension("markdown"@) == Some(Language::Markdown),
{
    reveal_strlit("rs");
    reveal_strlit("py");
    reveal_strlit("pyi");
    reveal_strlit("ts");
    reveal_strlit("mts");
    reveal_strlit("cts");
    reveal_strlit("tsx");
    reveal_strlit("js");
    reveal_strlit("mjs");
    reveal_strlit("cjs");
    reveal_strlit("jsx");
    reveal_strlit("go");
    reveal_strlit("c");
    reveal_strlit("h");
    reveal_strlit("cpp");
    reveal_strlit("cc");
    reveal_strlit("cxx");
    reveal_strlit("hpp");
    reveal_strlit("hh");
    reveal_strlit("hxx");
    reveal_strlit("java");
    reveal_strlit("json");
    reveal_strlit("toml");
    reveal_strlit("md");
    reveal_strlit("markdown");
    assert(lowered("md"@) =~= "md"@);
    assert("md"@[0] != "rs"@[0]);
    assert("md"@[0] != "py"@[0]);
    assert("md"@.len() != "pyi"@.len());
    assert("md"@[0] != "ts"@[0]);
    assert("md"@.len() != "mts"@.len());
    assert("md"@.len() != "cts"@.len());
    assert("md"@.len() != "tsx"@.len());
    assert("md"@[0] != "js"@[0]);
    assert("md"@.len() != "mjs"@.len());
    assert("md"@.len() != "cjs"@.len());
    assert("md"@.len() != "jsx"@.len());
    assert("md"@[0] != "go"@[0]);
    assert("md"@.len() != "c"@.len());
    assert("md"@.len() != "h"@.len());
    assert("md"@.len() != "cpp"@.len());
    assert("md"@[0] != "cc"@[0]);
    assert("md"@.len() != "cxx"@.len());
    assert("md"@.len() != "hpp"@.len());
    assert("md"@[0] != "hh"@[0]);
    assert("md"@.len() != "hxx"@.len());
    assert("md"@.len() != "java"@.len());
    assert("md"@.len() != "json"@.len());
    assert("md"@.len() != "toml"@.len());
    assert(lowered("markdown"@) =~= "markdown"@);
    assert("markdown"@.len() != "rs"@.len());
    assert("markdown"@.len() != "py"@.len());
    assert("markdown"@.len() != "pyi"@.len());
    assert("markdown"@.len() != "ts"@.len());
    assert("markdown"@.len() != "mts"@.len());
    assert("markdown"@.len() != "cts"@.len());
    assert("markdown"@.len() != "tsx"@.len());
    assert("markdown"@.len() != "js"@.len());
    assert("markdown"@.len() != "mjs"@.len());
    assert("markdown"@.len() != "cjs"@.len());
    assert("markdown"@.len() != "jsx"@.len());
    assert("markdown"@.len() != "go"@.len());
    assert("markdown"@.len() != "c"@.len());
    assert("markdown"@.len() != "h"@.len());
    assert("markdown"@.len() != "cpp"@.len());
    assert("markdown"@.len() != "cc"@.len());
    assert("markdown"@.len() != "cxx"@.len());
    assert("markdown"@.len() != "hpp"@.len());
    assert("markdown"@.len() != "hh"@.len());
    assert("markdown"@.len() != "hxx"@.len());
    assert("markdown"@.len() != "java"@.len());
    assert("markdown"@.len() != "json"@.len());
    assert("markdown"@.len() != "toml"@.len());
}

/// The extension of a file is what stands behind the last dot of its name, and so the directory
/// and the rest of the name do not count; a name with a dot only at its start has none.
pub proof fn law_the_extension_is_behind_the_last_dot(path: Seq<char>, stem: Seq<char>, ext: Seq<char>, win: bool)
    requires
        stem.len() > 0,
        base_name(path, win) == stem + seq!['.'] + ext,
        !ext.contains('.'),
        base_name(path, win) != ".."@,
    ensures
        extension(path, win) == Some(ext),
        Language::of_path(path, win) == Language::of_extension(ext),
{
    let name = stem + seq!['.'] + ext;
    assert forall|j: int| stem.len() < j < name.len() implies name[j] != '.' by {
        assert(name[j] == ext[j - stem.len() - 1]);
    }
    lemma_last_dot(name, stem.len() as int, name.len() as int);
    assert(name.take(name.len() as int) =~= name);
    assert(name.skip(stem.len() as int + 1) =~= ext);
}

proof fn lemma_last_dot(name: Seq<char>, k: int, n: int)
    requires
        0 <= k < n <= name.len(),
        name[k] == '.',
        forall|j: int| k < j < name.len() ==> name[j] != '.',
    ensures
        last_char(name.take(n), '.') == Some(k),
    decreases n - k,
{
    let t = name.take(n);
    assert(t.last() == name[n - 1]);
    if n - 1 > k {
        assert(t.drop_last() =~= name.take(n - 1));
        lemma_last_dot(name, k, n - 1);
    }
}

/// Each language has its definitions: the kinds of nodes, and the sort of symbol that each
/// defines.
pub proof fn law_definitions_of_each_language()
    ensures
        defines_as(Language::Rust, "function_item"@, SymKind::Fn),
        defines_as(Language::Rust, "function_signature_item"@, SymKind::Fn),
        defines_as(Language::Rust, "struct_item"@, SymKind::Struct),
        defines_as(Language::Rust, "enum_item"@, SymKind::Enum),
        defines_as(Language::Rust, "trait_item"@, SymKind::Trait),
        defines_as(Language::Rust, "impl_item"@, SymKind::Impl),
        defines_as(Language::Rust, "const_item"@, SymKind::Const),
        defines_as(Language::Rust, "static_item"@, SymKind::Static),
        defines_as(Language::Rust, "type_item"@, SymKind::Type),
        defines_as(Language::Rust, "mod_item"@, SymKind::Module),
        defines_as(Language::Rust, "macro_definition"@, SymKind::Macro),
        defines_as(Language::Rust, "union_item"@, SymKind::Struct),
        Language::Rust.definitions().len() == 12,
        defines_as(Language::Python, "function_definition"@, SymKind::Fn),
        defines_as(Language::Python, "class_definition"@, SymKind::Class),
        Language::Python.definitions().len() == 2,
        defines_as(Language::TypeScript, "function_declaration"@, SymKind::Fn),
        defines_as(Language::TypeScript, "generator_function_declaration"@, SymKind::Fn),
        defines_as(Language::TypeScript, "class_declaration"@, SymKind::Class),
        defines_as(Language::TypeScript, "abstract_class_declaration"@, SymKind::Class),
        defines_as(Language::TypeScript, "method_definition"@, SymKind::Method),
        defines_as(Language::TypeScript, "interface_declaration"@, SymKind::Interface),
        defines_as(Language::TypeScript, "type_alias_declaration"@, SymKind::Type),
        defines_as(Language::TypeScript, "enum_declaration"@, SymKind::Enum),
        defines_as(Language::TypeScript, "lexical_declaration"@, SymKind::Const),
        defines_as(Language::TypeScript, "variable_declaration"@, SymKind::Const),
        defines_as(Language::TypeScript, "module"@, SymKind::Module),
        defines_as(Language::TypeScript, "internal_module"@, SymKind::Module),
        Language::TypeScript.definitions().len() == 12,
        defines_as(Language::Go, "function_declaration"@, SymKind::Fn),
        defines_as(Language::Go, "method_declaration"@, SymKind::Method),
        defines_as(Language::Go, "type_spec"@, SymKind::Type),
        defines_as(Language::Go, "const_spec"@, SymKind::Const),
        defines_as(Language::Go, "var_spec"@, SymKind::Static),
        Language::Go.definitions().len() == 5,
        defines_as(Language::C, "function_definition"@, SymKind::Fn),
        defines_as(Language::C, "struct_specifier"@, SymKind::Struct),
        defines_as(Language::C, "enum_specifier"@, SymKind::Enum),
        defines_as(Language::C, "union_specifier"@, SymKind::Struct),
        defines_as(Language::C, "type_definition"@, SymKind::Type),
        defines_as(Language::C, "declaration"@, SymKind::Static),
        Language::C.definitions().len() == 6,
        defines_as(Language::Cpp, "function_definition"@, SymKind::Fn),
        defines_as(Language::Cpp, "class_specifier"@, SymKind::Class),
        defines_as(Language::Cpp, "struct_specifier"@, SymKind::Struct),
        defines_as(Language::Cpp, "enum_specifier"@, SymKind::Enum),
        defines_as(Language::Cpp, "namespace_definition"@, SymKind::Module),
        defines_as(Language::Cpp, "type_definition"@, SymKind::Type),
        defines_as(Language::Cpp, "alias_declaration"@, SymKind::Type),
        defines_as(Language::Cpp, "template_declaration"@, SymKind::Type),
        Language::Cpp.definitions().len() == 8,
        defines_as(Language::Java, "class_declaration"@, SymKind::Class),
        defines_as(Language::Java, "interface_declaration"@, SymKind::Interface),
        defines_as(Language::Java, "enum_declaration"@, SymKind::Enum),
        defines_as(Language::Java, "method_declaration"@, SymKind::Method),
        defines_as(Language::Java, "constructor_declaration"@, SymKind::Method),
        defines_as(Language::Java, "record_declaration"@, SymKind::Class),
        Language::Java.definitions().len() == 6,
        defines_as(Language::Json, "pair"@, SymKind::Const),
        Language::Json.definitions().len() == 1,
        defines_as(Language::Toml, "table"@, SymKind::Module),
        defines_as(Language::Toml, "table_array_element"@, SymKind::Module),
        defines_as(Language::Toml, "pair"@, SymKind::Const),
        Language::Toml.definitions().len() == 3,
        defines_as(Language::Markdown, "atx_heading"@, SymKind::Module),
        defines_as(Language::Markdown, "setext_heading"@, SymKind::Module),
        Language::Markdown.definitions().len() == 2,
{
    let d = Language::Rust.definitions();
    assert(d[0] == ("function_item"@, SymKind::Fn));
    assert(d[1] == ("function_signature_item"@, SymKind::Fn));
    assert(d[2] == ("struct_item"@, SymKind::Struct));
    assert(d[3] == ("enum_item"@, SymKind::Enum));
    assert(d[4] == ("trait_item"@, SymKind::Trait));
    assert(d[5] == ("impl_item"@, SymKind::Impl));
    assert(d[6] == ("const_item"@, SymKind::Const));
    assert(d[7] == ("static_item"@, SymKind::Static));
    assert(d[8] == ("type_item"@, SymKind::Type));
    assert(d[9] == ("mod_item"@, SymKind::Module));
    assert(d[10] == ("macro_definition"@, SymKind::Macro));
    assert(d[11] == ("union_item"@, SymKind::Struct));
    let d = Language::Python.definitions();
    assert(d[0] == ("function_definition"@, SymKind::Fn));
    assert(d[1] == ("class_definition"@, SymKind::Class));
    let d = Language::TypeScript.definitions();
    assert(d[0] == ("function_declaration"@, SymKind::Fn));
    assert(d[1] == ("generator_function_declaration"@, SymKind::Fn));
    assert(d[2] == ("class_declaration"@, SymKind::Class));
    assert(d[3] == ("abstract_class_declaration"@, SymKind::Class));
    assert(d[4] == ("method_definition"@, SymKind::Method));
    assert(d[5] == ("interface_declaration"@, SymKind::Interface));
    assert(d[6] == ("type_alias_declaration"@, SymKind::Type));
    assert(d[7] == ("enum_declaration"@, SymKind::Enum));
    assert(d[8] == ("lexical_declaration"@, SymKind::Const));
    assert(d[9] == ("variable_declaration"@, SymKind::Const));
    assert(d[10] == ("module"@, SymKind::Module));
    assert(d[11] == ("internal_module"@, SymKind::Module));
    let d = Language::Go.definitions();
    assert(d[0] == ("function_declaration"@, SymKind::Fn));
    assert(d[1] == ("method_declaration"@, SymKind::Method));
    assert(d[2] == ("type_spec"@, SymKind::Type));
    assert(d[3] == ("const_spec"@, SymKind::Const));
    assert(d[4] == ("var_spec"@, SymKind::Static));
    let d = Language::C.definitions();
    assert(d[0] == ("function_definition"@, SymKind::Fn));
    assert(d[1] == ("struct_specifier"@, SymKind::Struct));
    assert(d[2] == ("enum_specifier"@, SymKind::Enum));
    assert(d[3] == ("union_specifier"@, SymKind::Struct));
    assert(d[4] == ("type_definition"@, SymKind::Type));
    assert(d[5] == ("declaration"@, SymKind::Static));
    let d = Language::Cpp.definitions();
    assert(d[0] == ("function_definition"@, SymKind::Fn));
    assert(d[1] == ("class_specifier"@, SymKind::Class));
    assert(d[2] == ("struct_specifier"@, SymKind::Struct));
    assert(d[3] == ("enum_specifier"@, SymKind::Enum));
    assert(d[4] == ("namespace_definition"@, SymKind::Module));
    assert(d[5] == ("type_definition"@, SymKind::Type));
    assert(d[6] == ("alias_declaration"@, SymKind::Type));
    assert(d[7] == ("template_declaration"@, SymKind::Type));
    let d = Language::Java.definitions();
    assert(d[0] == ("class_declaration"@, SymKind::Class));
    assert(d[1] == ("interface_declaration"@, SymKind::Interface));
    assert(d[2] == ("enum_declaration"@, SymKind::Enum));
    assert(d[3] == ("method_declaration"@, SymKind::Method));
    assert(d[4] == ("constructor_declaration"@, SymKind::Method));
    assert(d[5] == ("record_declaration"@, SymKind::Class));
    let d = Language::Json.definitions();
    assert(d[0] == ("pair"@, SymKind::Const));
    let d = Language::Toml.definitions();
    assert(d[0] == ("table"@, SymKind::Module));
    assert(d[1] == ("table_array_element"@, SymKind::Module));
    assert(d[2] == ("pair"@, SymKind::Const));
    let d = Language::Markdown.definitions();
    assert(d[0] == ("atx_heading"@, SymKind::Module));
    assert(d[1] == ("setext_heading"@, SymKind::Module));
}

/// Nodes of a kind define symbols of a sort in a language.
pub open spec fn defines_as(lang: Language, kind: Seq<char>, sort: SymKind) -> bool {
    lang.definitions().contains((kind, sort))
}

/// The leaves that mention symbols in each language of code.
pub proof fn law_mentions_of_each_language()
    ensures
        Language::Rust.mentions().contains("identifier"@),
        Language::Rust.mentions().contains("type_identifier"@),
        Language::Rust.mentions().contains("field_identifier"@),
        Language::Rust.mentions().contains("scoped_identifier"@),
        Language::Rust.mentions().len() == 4,
        Language::Python.mentions().contains("identifier"@),
        Language::Python.mentions().contains("attribute"@),
        Language::Python.mentions().len() == 2,
        Language::TypeScript.mentions().contains("identifier"@),
        Language::TypeScript.mentions().contains("type_identifier"@),
        Language::TypeScript.mentions().contains("property_identifier"@),
        Language::TypeScript.mentions().contains("shorthand_property_identifier"@),
        Language::TypeScript.mentions().len() == 4,
        Language::Tsx.mentions().contains("identifier"@),
        Language::Tsx.mentions().contains("type_identifier"@),
        Language::Tsx.mentions().contains("property_identifier"@),
        Language::Tsx.mentions().contains("shorthand_property_identifier"@),
        Language::Tsx.mentions().len() == 4,
        Language::JavaScript.mentions().contains("identifier"@),
        Language::JavaScript.mentions().contains("type_identifier"@),
        Language::JavaScript.mentions().contains("property_identifier"@),
        Language::JavaScript.mentions().contains("shorthand_property_identifier"@),
        Language::JavaScript.mentions().len() == 4,
        Language::Go.mentions().contains("identifier"@),
        Language::Go.mentions().contains("type_identifier"@),
        Language::Go.mentions().contains("field_identifier"@),
        Language::Go.mentions().contains("package_identifier"@),
        Language::Go.mentions().len() == 4,
        Language::C.mentions().contains("identifier"@),
        Language::C.mentions().contains("type_identifier"@),
        Language::C.mentions().contains("field_identifier"@),
        Language::C.mentions().contains("namespace_identifier"@),
        Language::C.mentions().len() == 4,
        Language::Cpp.mentions().contains("identifier"@),
        Language::Cpp.mentions().contains("type_identifier"@),
        Language::Cpp.mentions().contains("field_identifier"@),
        Language::Cpp.mentions().contains("namespace_identifier"@),
        Language::Cpp.mentions().len() == 4,
        Language::Java.mentions().contains("identifier"@),
        Language::Java.mentions().contains("type_identifier"@),
        Language::Java.mentions().len() == 2,
{
    let d = Language::Rust.mentions();
    assert(d[0] == "identifier"@);
    assert(d[1] == "type_identifier"@);
    assert(d[2] == "field_identifier"@);
    assert(d[3] == "scoped_identifier"@);
    let d = Language::Python.mentions();
    assert(d[0] == "identifier"@);
    assert(d[1] == "attribute"@);
    let d = Language::TypeScript.mentions();
    assert(d[0] == "identifier"@);
    assert(d[1] == "type_identifier"@);
    assert(d[2] == "property_identifier"@);
    assert(d[3] == "shorthand_property_identifier"@);
    let d = Language::Tsx.mentions();
    assert(d[0] == "identifier"@);
    assert(d[1] == "type_identifier"@);
    assert(d[2] == "property_identifier"@);
    assert(d[3] == "shorthand_property_identifier"@);
    let d = Language::JavaScript.mentions();
    assert(d[0] == "identifier"@);
    assert(d[1] == "type_identifier"@);
    assert(d[2] == "property_identifier"@);
    assert(d[3] == "shorthand_property_identifier"@);
    let d = Language::Go.mentions();
    assert(d[0] == "identifier"@);
    assert(d[1] == "type_identifier"@);
    assert(d[2] == "field_identifier"@);
    assert(d[3] == "package_identifier"@);
    let d = Language::C.mentions();
    assert(d[0] == "identifier"@);
    assert(d[1] == "type_identifier"@);
    assert(d[2] == "field_identifier"@);
    assert(d[3] == "namespace_identifier"@);
    let d = Language::Cpp.mentions();
    assert(d[0] == "identifier"@);
    assert(d[1] == "type_identifier"@);
    assert(d[2] == "field_identifier"@);
    assert(d[3] == "namespace_identifier"@);
    let d = Language::Java.mentions();
    assert(d[0] == "identifier"@);
    assert(d[1] == "type_identifier"@);
}

} // verus!
