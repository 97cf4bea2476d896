//! The outline of a file: its symbols, one on a line, each below the one that encloses it.

use crate::paths::{find_word_end, word_end};
use crate::symbols::{Symbol, SymbolV, symbols_view};
use crate::text::{at, begins, chars_of, dec, dec_u64, holds, str_eq, string_of_range};
use vstd::prelude::*;
use vstd::string::*;

verus! {

/// How many symbols enclose one, at most nine, counted from the one at `p`.
pub open spec fn nesting(v: Seq<SymbolV>, p: Option<u32>, d: nat) -> nat
    decreases 9 - d,
{
    match p {
        Some(i) => if d >= 8 {
            9
        } else {
            nesting(
                v,
                if (i as int) < v.len() {
                    v[i as int].parent
                } else {
                    None
                },
                d + 1,
            )
        },
        None => d,
    }
}

/// The words of a text: what stands between characters that are in no word.
pub open spec fn words_from(s: Seq<char>, i: int) -> Seq<Seq<char>>
    decreases s.len() - i,
{
    if i < 0 || i > s.len() {
        Seq::empty()
    } else {
        let j = word_end(s, i);
        if i <= j < s.len() {
            seq![s.subrange(i, j)] + words_from(s, j + 1)
        } else {
            seq![s.skip(i)]
        }
    }
}

/// Whether a word stands for a sort of symbols.
pub open spec fn names_kind(word: Seq<char>, label: Seq<char>) -> bool {
    ||| word == label
    ||| label == "fn"@ && (word == "def"@ || word == "function"@ || word == "func"@)
    ||| label == "mod"@ && (word == "namespace"@ || word == "module"@)
}

/// Whether a signature says what sort of symbol it is of.
pub open spec fn says_kind(sig: Seq<char>, label: Seq<char>) -> bool {
    exists|i: int| 0 <= i < words_from(sig, 0).len() && names_kind(#[trigger] words_from(sig, 0)[i], label)
}

/// A number with spaces before it, up to a width.
pub open spec fn right(s: Seq<char>, width: nat) -> Seq<char> {
    if s.len() >= width {
        s
    } else {
        Seq::new((width - s.len()) as nat, |i: int| ' ') + s
    }
}

pub open spec fn indent(n: nat) -> Seq<char> {
    Seq::new(2 * n, |i: int| ' ')
}

pub open spec fn outline_line(v: Seq<SymbolV>, s: SymbolV) -> Seq<char> {
    let head = "  "@ + right(dec(s.line_start as nat), 5) + " "@ + indent(nesting(v, s.parent, 0));
    if says_kind(s.signature, s.kind.name()) {
        head + s.signature + "\n"@
    } else {
        head + s.kind.name() + " "@ + s.signature + "\n"@
    }
}

pub open spec fn outline_lines(v: Seq<SymbolV>, n: nat) -> Seq<char>
    decreases n,
{
    if n == 0 || n > v.len() {
        Seq::empty()
    } else {
        outline_lines(v, (n - 1) as nat) + outline_line(v, v[n - 1])
    }
}

pub open spec fn outline_text(rel: Seq<char>, v: Seq<SymbolV>) -> Seq<char> {
    if v.len() == 0 {
        rel + ":\n"@ + "  (no symbols)\n"@
    } else {
        rel + ":\n"@ + outline_lines(v, v.len())
    }
}

fn find_nesting(v: &Vec<Symbol>, p: Option<u32>) -> (r: usize)
    ensures
        r == nesting(symbols_view(v@), p, 0),
        r <= 9,
{
    let ghost sv = symbols_view(v@);
    let mut d: usize = 0;
    let mut at = p;
    loop
        invariant
            d <= 8,
            sv == symbols_view(v@),
            nesting(sv, p, 0) == nesting(sv, at, d as nat),
        decreases 9 - d,
    {
        match at {
            None => {
                return d;
            },
            Some(i) => {
                if d >= 8 {
                    return 9;
                }
                let k: usize = i as usize;
                at = if k < v.len() {
                    assert(sv[k as int] == v@[k as int]@);
                    v[k].parent
                } else {
                    None
                };
                d += 1;
            },
        }
    }
}

fn is_kind_word(word: &str, label: &str) -> (r: bool)
    ensures
        r == names_kind(word@, label@),
{
    str_eq(word, label) || (str_eq(label, "fn") && (str_eq(word, "def") || str_eq(word, "function") || str_eq(
        word,
        "func",
    ))) || (str_eq(label, "mod") && (str_eq(word, "namespace") || str_eq(word, "module")))
}

fn tells_kind(sig: &str, label: &str) -> (r: bool)
    ensures
        r == says_kind(sig@, label@),
{
    let cs = chars_of(sig);
    let ghost all = words_from(sig@, 0);
    let ghost mut done: int = 0;
    let mut i: usize = 0;
    assert(all.skip(0) =~= all);
    loop
        invariant
            cs@ == sig@,
            i <= cs.len(),
            all == words_from(sig@, 0),
            0 <= done <= all.len(),
            all.skip(done) == words_from(sig@, i as int),
            forall|k: int| 0 <= k < done ==> !names_kind(#[trigger] all[k], label@),
        decreases cs.len() - i,
    {
        let j: usize = find_word_end(&cs, i);
        let word = string_of_range(&cs, i, j);
        let ghost rest = all.skip(done);
        proof {
            assert(word@ =~= sig@.subrange(i as int, j as int));
            if j == cs.len() {
                assert(sig@.skip(i as int) =~= word@);
            }
            assert(words_from(sig@, i as int).len() > 0);
            assert(rest.len() > 0);
            assert(rest[0] == word@);
            assert(all.skip(done)[0] == all[done]);
        }
        if is_kind_word(word.as_str(), label) {
            return true;
        }
        if j >= cs.len() {
            assert(rest.len() == 1);
            assert(all.len() == done + 1);
            return false;
        }
        proof {
            assert(rest =~= seq![word@] + words_from(sig@, j + 1));
            assert(all.skip(done + 1) =~= rest.skip(1));
            assert(rest.skip(1) =~= words_from(sig@, j + 1));
            done = done + 1;
        }
        i = j + 1;
    }
}

fn pad_left(s: &str, width: usize) -> (r: String)
    ensures
        r@ == right(s@, width as nat),
{
    let n = s.unicode_len();
    let mut out = String::new();
    let mut i: usize = n;
    while i < width
        invariant
            n == s@.len(),
            n <= i,
            i <= width || i == n,
            out@ == Seq::new((i - n) as nat, |k: int| ' '),
        decreases width - i,
    {
        out.push(' ');
        assert(out@ =~= Seq::new((i + 1 - n) as nat, |k: int| ' '));
        i += 1;
    }
    let r = out.concat(s);
    assert(r@ =~= right(s@, width as nat));
    r
}

fn spaces(n: usize) -> (r: String)
    requires
        n <= 9,
    ensures
        r@ == indent(n as nat),
{
    let mut out = String::new();
    let mut i: usize = 0;
    while i < 2 * n
        invariant
            n <= 9,
            i <= 2 * n,
            out@ == Seq::new(i as nat, |k: int| ' '),
        decreases 2 * n - i,
    {
        out.push(' ');
        assert(out@ =~= Seq::new((i + 1) as nat, |k: int| ' '));
        i += 1;
    }
    out
}

fn show_line(v: &Vec<Symbol>, s: &Symbol) -> (r: String)
    ensures
        r@ == outline_line(symbols_view(v@), s@),
{
    let head = "  ".to_owned().concat(pad_left(dec_u64(s.line_start as u64).as_str(), 5).as_str()).concat(" ").concat(
        spaces(find_nesting(v, s.parent)).as_str(),
    );
    let label = s.kind.label();
    if tells_kind(s.signature.as_str(), label) {
        head.concat(s.signature.as_str()).concat("\n")
    } else {
        head.concat(label).concat(" ").concat(s.signature.as_str()).concat("\n")
    }
}

/// The outline of a file.
pub fn format_outline(rel: &str, symbols: &Vec<Symbol>) -> (r: String)
    ensures
        r@ == outline_text(rel@, symbols_view(symbols@)),
{
    let head = rel.to_owned().concat(":\n");
    if symbols.len() == 0 {
        return head.concat("  (no symbols)\n");
    }
    let ghost sv = symbols_view(symbols@);
    let mut out = String::new();
    let mut i: usize = 0;
    assert(out@ =~= outline_lines(sv, 0));
    while i < symbols.len()
        invariant
            i <= symbols.len(),
            sv == symbols_view(symbols@),
            out@ == outline_lines(sv, i as nat),
        decreases symbols.len() - i,
    {
        assert(sv[i as int] == symbols@[i as int]@);
        out = out.concat(show_line(symbols, &symbols[i]).as_str());
        i += 1;
    }
    head.concat(out.as_str())
}

/// The outline has a line for every symbol, in their order, with the line that it begins on and
/// its signature.
#[verifier::rlimit(40)]
pub proof fn law_every_symbol_is_outlined(rel: Seq<char>, v: Seq<SymbolV>, i: int)
    requires
        0 <= i < v.len(),
    ensures
        begins(outline_text(rel, v), rel + ":\n"@),
        holds(outline_text(rel, v), v[i].signature + "\n"@),
        holds(outline_text(rel, v), right(dec(v[i].line_start as nat), 5) + " "@),
{
    let t = outline_text(rel, v);
    let h = rel + ":\n"@;
    let ls = outline_lines(v, v.len());
    assert(t == h + ls);
    assert(t.subrange(0, h.len() as int) =~= h);
    let (p, l) = lemma_line_is_there(v, v.len(), i);
    let s = v[i];
    let x = s.signature + "\n"@;
    let num = right(dec(s.line_start as nat), 5);
    let head = "  "@ + num + " "@ + indent(nesting(v, s.parent, 0));
    let a = l.len() - x.len();
    if says_kind(s.signature, s.kind.name()) {
        assert(l =~= head + x);
    } else {
        assert(l =~= head + s.kind.name() + " "@ + x);
    }
    assert(l.subrange(a, a + x.len()) =~= x);
    let q = h.len() as int + p + a;
    assert(t.subrange(q, q + x.len()) =~= ls.subrange(p, p + l.len()).subrange(a, a + x.len()));
    assert(at(t, q, x));
    let y = num + " "@;
    let b = "  "@.len() as int;
    assert(l.subrange(b, b + y.len()) =~= y);
    let q2 = h.len() as int + p + b;
    assert(t.subrange(q2, q2 + y.len()) =~= ls.subrange(p, p + l.len()).subrange(b, b + y.len()));
    assert(at(t, q2, y));
}

proof fn lemma_line_is_there(v: Seq<SymbolV>, n: nat, i: int) -> (r: (int, Seq<char>))
    requires
        0 <= i < n <= v.len(),
    ensures
        at(outline_lines(v, n), r.0, r.1),
        r.1 == outline_line(v, v[i]),
    decreases n,
{
    let t = outline_lines(v, n);
    let b = outline_lines(v, (n - 1) as nat);
    let l = outline_line(v, v[i]);
    if i == n - 1 {
        let p = b.len() as int;
        assert(t.subrange(p, p + l.len()) =~= l);
        (p, l)
    } else {
        let (p, m) = lemma_line_is_there(v, (n - 1) as nat, i);
        assert(t.subrange(p, p + m.len()) =~= b.subrange(p, p + m.len()));
        (p, m)
    }
}

/// A symbol is set in by one step for each symbol that encloses it: none at the top, one more than
/// the symbol that it stands in, up to nine.
pub proof fn law_symbols_are_set_in(v: Seq<SymbolV>, p: u32)
    requires
        (p as int) < v.len(),
    ensures
        nesting(v, None, 0) == 0,
        nesting(v, v[p as int].parent, 0) < 9 ==> nesting(v, Some(p), 0) == nesting(v, v[p as int].parent, 0) + 1,
        nesting(v, v[p as int].parent, 0) >= 8 ==> nesting(v, Some(p), 0) == 9,
{
    lemma_nesting_step(v, v[p as int].parent, 0);
}

proof fn lemma_nesting_step(v: Seq<SymbolV>, p: Option<u32>, d: nat)
    requires
        d < 9,
    ensures
        d <= nesting(v, p, d) <= 9,
        d < 8 && nesting(v, p, d) < 9 ==> nesting(v, p, d + 1) == nesting(v, p, d) + 1,
        d < 8 && nesting(v, p, d) >= 9 ==> nesting(v, p, d + 1) == 9,
    decreases 9 - d,
{
    if let Some(i) = p {
        if d < 8 {
            let q = if (i as int) < v.len() {
                v[i as int].parent
            } else {
                None
            };
            lemma_nesting_step(v, q, d + 1);
        }
    }
}

} // verus!
