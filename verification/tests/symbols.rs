//! The symbols of source files.

use buzzcode::lang::Language;
use buzzcode::symbols::parse;

#[test]
fn rust_symbols() {
    let src = b"pub struct Foo { x: i32 }\nimpl Foo {\n    pub fn new() -> Self { Foo { x: bar() } }\n}\nfn bar() -> i32 { 1 }\n";
    let p = parse(Language::Rust, src);
    let names: Vec<&str> = p.symbols.iter().map(|s| s.name.as_str()).collect();
    assert_eq!(names, vec!["Foo", "Foo", "new", "bar"]);
    assert_eq!(p.symbols[2].parent, Some(1));
    assert!(p.mentions("bar") > 0);
    assert!(p.symbols[0].is_public);
}

#[test]
fn python_symbols() {
    let p = parse(Language::Python, b"class A:\n    def m(self):\n        return helper()\n\ndef helper():\n    pass\n");
    let names: Vec<&str> = p.symbols.iter().map(|s| s.name.as_str()).collect();
    assert_eq!(names, vec!["A", "m", "helper"]);
}

#[test]
fn ts_symbols() {
    let p = parse(
        Language::TypeScript,
        b"export function f(a: number) { return g(a); }\nexport const x = 1;\nclass K { run() {} }\n",
    );
    let names: Vec<&str> = p.symbols.iter().map(|s| s.name.as_str()).collect();
    assert!(names.contains(&"f") && names.contains(&"x") && names.contains(&"K") && names.contains(&"run"), "{names:?}");
}

#[test]
fn definitions_are_told_by_their_node() {
    let all = [
        Language::Rust,
        Language::Python,
        Language::JavaScript,
        Language::TypeScript,
        Language::Tsx,
        Language::Go,
        Language::C,
        Language::Cpp,
        Language::Java,
        Language::Json,
        Language::Toml,
        Language::Markdown,
    ];
    for l in all {
        let mut nodes: Vec<&str> = l.def_kinds().iter().map(|(n, _)| *n).collect();
        let count = nodes.len();
        nodes.sort();
        nodes.dedup();
        assert!(count > 0 && nodes.len() == count, "{l:?}");
    }
    assert_eq!(Language::TypeScript.def_kinds(), Language::JavaScript.def_kinds());
    assert_eq!(Language::Tsx.def_kinds(), Language::JavaScript.def_kinds());
}
