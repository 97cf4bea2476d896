//! The index of a project: its files, their symbols, and what is shown of them.

use buzzcode::config::CodeIntel;
use buzzcode::graph::find_links;
use buzzcode::index::{read_record, show_hits, IndexedFile, Indexer, SeenFile};
use buzzcode::lang::{file_extension, Language, SymKind};
use buzzcode::outline::format_outline;
use buzzcode::rank::rank;
use buzzcode::repomap::{file_weight, is_mappable, map_block, map_budget, search_limit, CapSearch, MapBudget, MapOptions};
use buzzcode::symbols::parse;
use buzzcode::syntax::read_syntax;

const A: &str = "pub struct Alpha { x: u32 }\n\nimpl Alpha {\n    pub fn grow(&mut self) { self.x += 1; }\n}\n";
const B: &str = "fn use_it(a: &mut Alpha) {\n    a.grow();\n    a.grow();\n}\n";

fn seen(rel: &str) -> SeenFile {
    SeenFile { rel: rel.into(), mtime_ns: 7, size: 9, lang: Language::Rust }
}

fn index() -> Indexer {
    let mut i = Indexer::new("/w", &CodeIntel::default(), false);
    let a = i.record(&seen("a.rs"), A.as_bytes());
    let b = i.record(&seen("b.rs"), B.as_bytes());
    i.apply(vec![IndexedFile { path: "b.rs".into(), rec: b }, IndexedFile { path: "a.rs".into(), rec: a }], &vec![]);
    i
}

#[test]
fn files_are_read_once() {
    let mut i = index();
    assert_eq!(i.file_count(), 2);
    assert_eq!(i.files[0].path, "a.rs");
    assert!(!i.needs_reading(&seen("a.rs")));
    assert!(i.needs_reading(&seen("c.rs")));
    assert!(i.needs_reading(&SeenFile { size: 10, ..seen("a.rs") }));
    assert_eq!(i.vanished(&vec![seen("a.rs")]), vec!["b.rs"]);
    i.apply(vec![], &vec!["b.rs".to_string()]);
    assert!(i.get("b.rs").is_none());
    let s = i.scan_stats(1, 0, 0, 1, 5);
    assert_eq!((s.files_seen, s.unchanged, s.removed, s.symbols), (1, 1, 1, i.symbol_count()));
}

#[test]
fn files_are_accepted_by_language_and_size() {
    let i = index();
    assert!(matches!(i.accept("/w/x.py", 10), Some(Language::Python)));
    assert!(i.accept("/w/x.py", u64::MAX).is_none());
    assert!(i.accept("/w/x.bin", 10).is_none());
    assert_eq!(i.rel("/w/src/x.rs"), "src/x.rs");
    assert_eq!(file_extension("a/b.TS", false), Some("TS".to_string()));
    assert_eq!(file_extension("a/.hidden", false), None);
}

#[test]
fn digests_tell_contents_apart() {
    let a = read_record(0, 0, Language::Rust, A.as_bytes());
    let b = read_record(0, 0, Language::Rust, B.as_bytes());
    assert_ne!(a.hash, b.hash);
    let hex: String = read_record(0, 0, Language::Rust, b"").hash.iter().map(|x| format!("{x:02x}")).collect();
    assert_eq!(hex, "af1349b9f5f9a1a6a0404dea36dcc9499bcb25c9adc112b7cc9a93cae41f3262");
}

#[test]
fn symbols_are_found_by_name() {
    let i = index();
    let hits = i.search("grow", None, 10);
    assert_eq!(hits[0].symbol.name, "grow");
    assert_eq!(hits[0].path, "a.rs");
    assert!(i.search("grow", Some(SymKind::Struct), 10).iter().all(|h| h.symbol.name != "grow"));
    assert_eq!(i.search("a", None, 1).len(), 1);
    let long = "gr ".repeat(1000);
    assert_eq!(i.search(&long, None, 10)[0].symbol.name, "grow");
    let name = "g".repeat(2600);
    let mut rec = i.record(&seen("c.rs"), b"fn f() {}\n");
    rec.symbols[0].name = name.clone();
    let mut i = index();
    i.apply(vec![IndexedFile { path: "c.rs".into(), rec }], &vec![]);
    assert_eq!(i.search(&"g".repeat(2520), None, 10)[0].symbol.name, name);
    assert_eq!(i.search(&"gg ".repeat(2000), None, 10)[0].symbol.name, name);
    assert!(show_hits("grow", &hits).contains("a.rs:4"));
    assert!(show_hits("zz", &vec![]).contains("zz"));
}

#[test]
fn outlines_follow_the_lines() {
    let i = index();
    let o = i.outline("a.rs").unwrap();
    assert!(o.windows(2).all(|w| w[0].line_start <= w[1].line_start));
    let text = format_outline("a.rs", &o);
    assert!(text.contains("Alpha") && text.contains("grow"), "{text}");
    assert!(i.outline("zz.rs").is_none());
}

#[test]
fn parents_are_symbols_around() {
    let p = parse(Language::Rust, A.as_bytes());
    for s in &p.symbols {
        if let Some(k) = s.parent {
            let q = &p.symbols[k as usize];
            assert!(q.line_start <= s.line_start && s.line_end <= q.line_end, "{} in {}", s.name, q.name);
        }
    }
    assert_eq!(parse(Language::Rust, B.as_bytes()).mentions("grow"), 2);
}

#[test]
fn a_node_lies_within_its_parent() {
    let ns = read_syntax(Language::Rust, B.as_bytes()).unwrap();
    assert_eq!(ns[0].kind, "source_file");
    assert_eq!(ns[0].depth, 0);
    assert!(ns.iter().any(|n| n.kind == "function_item"));
    assert!(ns.windows(2).all(|w| w[1].depth <= w[0].depth + 1));
}

#[test]
fn links_go_from_use_to_definition() {
    let i = index();
    let recs: Vec<_> = i.files.iter().map(|f| &f.rec).collect();
    let links = find_links(&recs);
    let l = links.iter().find(|l| l.name == "grow").unwrap();
    assert_eq!((l.from, l.to, l.count), (1, 0, 2));
    assert!(links.iter().all(|l| l.from != l.to));
}

#[test]
fn the_map_stays_in_its_budget() {
    let i = index();
    let o = i.outline("a.rs").unwrap();
    let opts = MapOptions { budget_tokens: 100, focus: vec!["a.rs".into()], mentions: vec!["Alpha".into()] };
    assert_eq!(file_weight("a.rs", &o, &opts), 15);
    assert_eq!(file_weight("b.rs", &vec![], &opts), 0);
    assert!(o.iter().any(|s| is_mappable(s)));
    let block = map_block("a.rs", &o, &vec![0], 5);
    assert!(block.starts_with("a.rs"), "{block}");
    let mut b = MapBudget::new(100);
    assert!(b.take(60, false));
    assert!(!b.take(10, true));
    assert!(!b.take(41, false));
    assert!(b.take(40, false));
    assert_eq!(map_budget(None, 1500), 1500);
    assert_eq!(search_limit(None), 20);
}

#[test]
fn the_search_for_a_cap_ends() {
    let mut s = CapSearch::new();
    let mut steps = 0;
    while let Some(mid) = s.next() {
        s.tried(mid, mid <= 3);
        steps += 1;
        assert!(steps < 100);
    }
    assert_eq!(s.best, Some(3));
}

#[test]
fn languages_are_counted() {
    let i = index();
    let l = i.language_summary();
    assert_eq!((l[0].name.as_str(), l[0].count), ("rust", 2));
    let sorted = rank(i.search("a", None, 10));
    assert!(sorted.windows(2).all(|w| w[0].score >= w[1].score));
}

#[test]
fn labels_are_understood() {
    assert!(matches!(SymKind::parse(SymKind::Trait.label()), Some(SymKind::Trait)));
    assert!(SymKind::parse("nope").is_none());
    assert!(matches!(Language::from_path("x/y.tsx", false), Some(Language::Tsx)));
    assert!(Language::Rust.is_code());
    assert!(!Language::Markdown.is_code());
}

#[test]
fn other_grammars() {
    for (lang, src, name) in [
        (Language::Go, "package m\nfunc Run() {}\n", "Run"),
        (Language::C, "int run(void) { return 0; }\n", "run"),
        (Language::Cpp, "class Box { public: int f() { return 1; } };\n", "Box"),
        (Language::Java, "class Box { void f() {} }\n", "Box"),
        (Language::JavaScript, "function run() {}\n", "run"),
        (Language::Tsx, "export function App() { return <p/>; }\n", "App"),
    ] {
        let p = parse(lang, src.as_bytes());
        assert!(p.symbols.iter().any(|s| s.name == name), "{src}");
    }
    for (lang, src) in [(Language::Json, "{\"a\": 1}"), (Language::Toml, "[a]\nb = 1\n"), (Language::Markdown, "# T\n")] {
        assert!(read_syntax(lang, src.as_bytes()).is_some(), "{src}");
    }
}

#[test]
fn capital_letters_are_public_in_go() {
    let p = parse(Language::Go, "package m\nfunc Run() {}\nfunc walk() {}\nfunc Ärger() {}\n".as_bytes());
    let public = |n: &str| p.symbols.iter().find(|s| s.name == n).unwrap().is_public;
    assert!(public("Run"));
    assert!(!public("walk"));
    assert!(public("Ärger"));
}
