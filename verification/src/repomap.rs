//! The map of a repository: its most important files and symbols within a budget.

use crate::lang::SymKind;
use crate::message::at_most;
use crate::rank::{
    Ranked, law_ranking_keeps_every_value, law_ranking_sorts, lemma_ranked_len, rank, ranked, views,
};
use crate::symbols::{Symbol, SymbolV, symbols_view};
use crate::text::{dec, dec_u64, str_eq, strings};
use vstd::prelude::*;
use vstd::string::*;

verus! {

/// What a map is asked for.
#[derive(Debug)]
pub struct MapOptions {
    pub budget_tokens: u32,
    /// The files that the conversation is about.
    pub focus: Vec<String>,
    /// The names that were mentioned in it.
    pub mentions: Vec<String>,
}

/// The weight of a file that the conversation is about.
pub const FOCUS_WEIGHT: u32 = 10;

/// The weight of a file that defines a name that was mentioned.
pub const MENTION_WEIGHT: u32 = 5;

/// How often a text stands among the first `n`.
pub open spec fn times(v: Seq<Seq<char>>, s: Seq<char>, n: nat) -> nat
    decreases n,
{
    if n == 0 || n > v.len() {
        0
    } else {
        times(v, s, (n - 1) as nat) + (if v[n - 1] == s {
            1nat
        } else {
            0nat
        })
    }
}

pub open spec fn defines(v: Seq<SymbolV>, name: Seq<char>) -> bool {
    exists|i: int| 0 <= i < v.len() && (#[trigger] v[i]).name == name
}

/// How many of the first `n` names a file defines.
pub open spec fn defined_of(v: Seq<SymbolV>, names: Seq<Seq<char>>, n: nat) -> nat
    decreases n,
{
    if n == 0 || n > names.len() {
        0
    } else {
        defined_of(v, names, (n - 1) as nat) + (if defines(v, names[n - 1]) {
            1nat
        } else {
            0nat
        })
    }
}

/// The extra weight of a file.
pub open spec fn weight_of(path: Seq<char>, symbols: Seq<SymbolV>, focus: Seq<Seq<char>>, mentions: Seq<Seq<char>>) -> nat {
    times(focus, path, focus.len()) * (FOCUS_WEIGHT as nat) + defined_of(symbols, mentions, mentions.len()) * (
    MENTION_WEIGHT as nat)
}

fn count_times(v: &Vec<String>, s: &str) -> (r: usize)
    ensures
        r == times(strings(v@), s@, v@.len()),
        r <= v@.len(),
{
    let ghost sv = strings(v@);
    let mut n: usize = 0;
    let mut i: usize = 0;
    while i < v.len()
        invariant
            i <= v.len(),
            n <= i,
            sv == strings(v@),
            n == times(sv, s@, i as nat),
        decreases v.len() - i,
    {
        assert(sv[i as int] == v@[i as int]@);
        if str_eq(v[i].as_str(), s) {
            n += 1;
        }
        i += 1;
    }
    n
}

fn has_symbol(v: &Vec<Symbol>, name: &str) -> (r: bool)
    ensures
        r == defines(symbols_view(v@), name@),
{
    let ghost sv = symbols_view(v@);
    let mut i: usize = 0;
    while i < v.len()
        invariant
            i <= v.len(),
            sv == symbols_view(v@),
            forall|k: int| 0 <= k < i ==> (#[trigger] sv[k]).name != name@,
        decreases v.len() - i,
    {
        assert(sv[i as int] == v@[i as int]@);
        if str_eq(v[i].name.as_str(), name) {
            return true;
        }
        i += 1;
    }
    false
}

fn count_defined(v: &Vec<Symbol>, names: &Vec<String>) -> (r: usize)
    ensures
        r == defined_of(symbols_view(v@), strings(names@), names@.len()),
        r <= names@.len(),
{
    let ghost nv = strings(names@);
    let mut n: usize = 0;
    let mut i: usize = 0;
    while i < names.len()
        invariant
            i <= names.len(),
            n <= i,
            nv == strings(names@),
            n == defined_of(symbols_view(v@), nv, i as nat),
        decreases names.len() - i,
    {
        assert(nv[i as int] == names@[i as int]@);
        if has_symbol(v, names[i].as_str()) {
            n += 1;
        }
        i += 1;
    }
    n
}

/// The extra weight of a file in the ranking: for each time that the conversation is about
/// it, and for each name of the conversation that it defines.
pub fn file_weight(path: &str, symbols: &Vec<Symbol>, o: &MapOptions) -> (r: u128)
    ensures
        r == weight_of(path@, symbols_view(symbols@), strings(o.focus@), strings(o.mentions@)),
{
    let a: usize = count_times(&o.focus, path);
    let b: usize = count_defined(symbols, &o.mentions);
    a as u128 * FOCUS_WEIGHT as u128 + b as u128 * MENTION_WEIGHT as u128
}

/// A file gains ten for each time that it is among the files that the conversation is about,
/// and five for each mentioned name that one of its symbols has; one that is neither gains
/// nothing.
pub proof fn law_weights_add_up(
    path: Seq<char>,
    symbols: Seq<SymbolV>,
    focus: Seq<Seq<char>>,
    mentions: Seq<Seq<char>>,
    s: Seq<char>,
)
    ensures
        weight_of(path, symbols, Seq::empty(), Seq::empty()) == 0,
        weight_of(path, symbols, focus.push(s), mentions) == weight_of(path, symbols, focus, mentions) + (if s == path {
            10nat
        } else {
            0
        }),
        weight_of(path, symbols, focus, mentions.push(s)) == weight_of(path, symbols, focus, mentions) + (if exists|
            i: int,
        | 0 <= i < symbols.len() && (#[trigger] symbols[i]).name == s {
            5nat
        } else {
            0
        }),
{
    lemma_times_same(focus, s, path, focus.len());
    lemma_defined_same(symbols, mentions, s, mentions.len());
    assert(focus.push(s)[focus.len() as int] == s);
    assert(mentions.push(s)[mentions.len() as int] == s);
}

proof fn lemma_times_same(v: Seq<Seq<char>>, x: Seq<char>, s: Seq<char>, n: nat)
    requires
        n <= v.len(),
    ensures
        times(v.push(x), s, n) == times(v, s, n),
    decreases n,
{
    if n > 0 {
        lemma_times_same(v, x, s, (n - 1) as nat);
        assert(v.push(x)[n - 1] == v[n - 1]);
    }
}

proof fn lemma_defined_same(v: Seq<SymbolV>, names: Seq<Seq<char>>, x: Seq<char>, n: nat)
    requires
        n <= names.len(),
    ensures
        defined_of(v, names.push(x), n) == defined_of(v, names, n),
    decreases n,
{
    if n > 0 {
        lemma_defined_same(v, names, x, (n - 1) as nat);
        assert(names.push(x)[n - 1] == names[n - 1]);
    }
}

// ---------------------------------------------------------------- what is shown

/// Whether a symbol can stand in the map: one that nothing encloses, or a function.
pub open spec fn mappable(s: SymbolV) -> bool {
    s.parent is None || s.kind == SymKind::Method || s.kind == SymKind::Fn
}

pub fn is_mappable(s: &Symbol) -> (r: bool)
    ensures
        r == mappable(s@),
{
    s.parent.is_none() || s.kind == SymKind::Method || s.kind == SymKind::Fn
}

/// A line of the map.
#[derive(Debug)]
pub struct MapLine {
    pub line: u32,
    pub signature: String,
}

impl View for MapLine {
    type V = (u32, Seq<char>);

    open spec fn view(&self) -> (u32, Seq<char>) {
        (self.line, self.signature@)
    }
}

impl Ranked for MapLine {
    open spec fn in_order(a: (u32, Seq<char>), b: (u32, Seq<char>)) -> bool {
        a.0 <= b.0
    }

    fn is_in_order(a: &MapLine, b: &MapLine) -> (r: bool) {
        a.line <= b.line
    }
}

pub open spec fn map_lines(v: Seq<(u32, Seq<char>)>, n: nat) -> Seq<char>
    decreases n,
{
    if n == 0 || n > v.len() {
        Seq::empty()
    } else {
        map_lines(v, (n - 1) as nat) + ("│ "@ + dec(v[n - 1].0 as nat) + " "@ + v[n - 1].1 + "\n"@)
    }
}

/// The first `n` of the symbols that were chosen for a file.
pub open spec fn chosen_lines(v: Seq<SymbolV>, chosen: Seq<usize>, n: nat) -> Seq<(u32, Seq<char>)> {
    Seq::new(n, |i: int| (v[chosen[i] as int].line_start, v[chosen[i] as int].signature))
}

/// A file in the map: at most `per_file` of the symbols that were chosen, in the order of
/// their lines, and how many more there are.
pub open spec fn block_text(path: Seq<char>, v: Seq<SymbolV>, chosen: Seq<usize>, per_file: nat) -> Seq<char> {
    let n = at_most(chosen.len(), per_file);
    let lines = ranked::<MapLine>(chosen_lines(v, chosen, n), n);
    path + ":\n"@ + map_lines(lines, n) + (if v.len() > n {
        "│ … "@ + dec((v.len() - n) as nat) + " more\n"@
    } else {
        Seq::empty()
    })
}

/// A line of a block as it is written.
pub open spec fn written() -> spec_fn((u32, Seq<char>)) -> Seq<char> {
    |l: (u32, Seq<char>)| "│ "@ + dec(l.0 as nat) + " "@ + l.1 + "\n"@
}

proof fn lemma_map_lines(v: Seq<(u32, Seq<char>)>, n: nat)
    requires
        n <= v.len(),
    ensures
        map_lines(v, n) == v.take(n as int).map_values(written()).flatten(),
    decreases n,
{
    if n > 0 {
        lemma_map_lines(v, (n - 1) as nat);
        let a = v.take(n - 1).map_values(written());
        assert(v.take(n as int).map_values(written()) =~= a.push(written()(v[n - 1])));
        Seq::lemma_flatten_push(a, written()(v[n - 1]));
    } else {
        assert(v.take(0).map_values(written()) =~= Seq::<Seq<char>>::empty());
    }
}

/// The line and the signature of a symbol.
pub open spec fn line_of(v: Seq<SymbolV>) -> spec_fn(usize) -> (u32, Seq<char>) {
    |i: usize| (v[i as int].line_start, v[i as int].signature)
}

/// A block is the path and the lines of the most important symbols, as many as the cap allows,
/// each once and in the order of their lines; and where the file has more symbols, how many.
pub open spec fn is_block(
    text: Seq<char>,
    path: Seq<char>,
    v: Seq<SymbolV>,
    chosen: Seq<usize>,
    per_file: nat,
    lines: Seq<(u32, Seq<char>)>,
) -> bool {
    let n = if chosen.len() <= per_file {
        chosen.len()
    } else {
        per_file
    };
    &&& lines.len() == n
    &&& lines.to_multiset() == chosen.take(n as int).map_values(line_of(v)).to_multiset()
    &&& forall|i: int, j: int| 0 <= i < j < n ==> (#[trigger] lines[i]).0 <= (#[trigger] lines[j]).0
    &&& text == path + ":\n"@ + lines.map_values(written()).flatten() + (if v.len() > n {
        "│ … "@ + dec((v.len() - n) as nat) + " more\n"@
    } else {
        Seq::empty()
    })
}

/// The most important symbols of a file are shown: those that stand first in what was chosen.
pub proof fn law_the_most_important_are_shown(path: Seq<char>, v: Seq<SymbolV>, chosen: Seq<usize>, per_file: nat) -> (
    lines: Seq<(u32, Seq<char>)>)
    ensures
        is_block(block_text(path, v, chosen, per_file), path, v, chosen, per_file, lines),
        forall|i: int|
            0 <= i < chosen.len() && i < per_file ==> lines.contains(
                (v[(#[trigger] chosen[i]) as int].line_start, v[chosen[i] as int].signature),
            ),
{
    broadcast use vstd::seq_lib::group_to_multiset_ensures;

    let n = at_most(chosen.len(), per_file);
    let want = chosen_lines(v, chosen, n);
    let lines = ranked::<MapLine>(want, n);
    lemma_ranked_len::<MapLine>(want, n);
    law_ranking_keeps_every_value::<MapLine>(want, n);
    law_ranking_sorts::<MapLine>(want, n);
    assert(want.take(n as int) =~= want);
    assert(want =~= chosen.take(n as int).map_values(line_of(v)));
    lemma_map_lines(lines, n);
    assert(lines.take(n as int) =~= lines);
    assert forall|i: int, j: int| 0 <= i < j < n implies (#[trigger] lines[i]).0 <= (#[trigger] lines[j]).0 by {
        assert(MapLine::in_order(lines[i], lines[j]));
    }
    assert forall|i: int| 0 <= i < chosen.len() && i < per_file implies lines.contains(
        (v[(#[trigger] chosen[i]) as int].line_start, v[chosen[i] as int].signature),
    ) by {
        assert(want[i] == (v[chosen[i] as int].line_start, v[chosen[i] as int].signature));
        assert(want.contains(want[i]));
        assert(want.to_multiset().count(want[i]) > 0);
        assert(lines.to_multiset().count(want[i]) > 0);
    }
    lines
}

/// A file in the map. `chosen` holds the places of the symbols, the most important first.
pub fn map_block(path: &str, symbols: &Vec<Symbol>, chosen: &Vec<usize>, per_file: usize) -> (r: String)
    requires
        forall|i: int| 0 <= i < chosen@.len() ==> (#[trigger] chosen@[i]) < symbols@.len(),
    ensures
        r@ == block_text(path@, symbols_view(symbols@), chosen@, per_file as nat),
        exists|lines: Seq<(u32, Seq<char>)>|
            is_block(r@, path@, symbols_view(symbols@), chosen@, per_file as nat, lines),
{
    proof {
        let lines = law_the_most_important_are_shown(path@, symbols_view(symbols@), chosen@, per_file as nat);
    }
    let ghost sv = symbols_view(symbols@);
    let n: usize = if chosen.len() <= per_file {
        chosen.len()
    } else {
        per_file
    };
    let ghost want = chosen_lines(sv, chosen@, n as nat);
    let mut lines: Vec<MapLine> = Vec::new();
    let mut i: usize = 0;
    assert(views(lines@) =~= want.take(0));
    while i < n
        invariant
            i <= n <= chosen.len(),
            sv == symbols_view(symbols@),
            want == chosen_lines(sv, chosen@, n as nat),
            forall|i: int| 0 <= i < chosen@.len() ==> (#[trigger] chosen@[i]) < symbols@.len(),
            views(lines@) == want.take(i as int),
        decreases n - i,
    {
        let s = &symbols[chosen[i]];
        assert(sv[chosen@[i as int] as int] == s@);
        let l = MapLine { line: s.line_start, signature: s.signature.clone() };
        let ghost b = lines@;
        lines.push(l);
        assert(views(lines@) =~= views(b).push(want[i as int]));
        i += 1;
    }
    assert(want.take(n as int) =~= want);
    let sorted = rank(lines);
    let ghost lv = views(sorted@);
    proof {
        lemma_ranked_len::<MapLine>(want, n as nat);
    }
    let mut text = String::new();
    let mut j: usize = 0;
    assert(text@ =~= map_lines(lv, 0));
    while j < sorted.len()
        invariant
            j <= sorted.len(),
            lv == views(sorted@),
            text@ == map_lines(lv, j as nat),
        decreases sorted.len() - j,
    {
        assert(lv[j as int] == sorted@[j as int]@);
        let line = "│ ".to_owned().concat(dec_u64(sorted[j].line as u64).as_str()).concat(" ").concat(
            sorted[j].signature.as_str(),
        ).concat("\n");
        text = text.concat(line.as_str());
        j += 1;
    }
    let more = if symbols.len() > n {
        "│ … ".to_owned().concat(dec_u64((symbols.len() - n) as u64).as_str()).concat(" more\n")
    } else {
        String::new()
    };
    path.to_owned().concat(":\n").concat(text.as_str()).concat(more.as_str())
}

// ---------------------------------------------------------------- the budget

/// How much of the budget is used.
#[derive(Debug)]
pub struct MapBudget {
    pub budget: u32,
    pub used: u32,
}

/// Whether a block still goes in: it fits, and it is not negligible once half of the
/// budget is used.
pub open spec fn goes_in(budget: u32, used: u32, cost: u32, negligible: bool) -> bool {
    used + cost <= budget && !(negligible && used > budget / 2)
}

/// A block that goes in keeps the map within its budget; one that would not is left out, and
/// so is one of little rank once more than half is used, and no other.
pub proof fn law_the_budget_is_kept(budget: u32, used: u32, cost: u32)
    ensures
        goes_in(budget, used, cost, false) <==> used + cost <= budget,
        goes_in(budget, used, cost, true) <==> used + cost <= budget && 2 * used <= budget + 1 && used <= budget / 2,
{
}

impl MapBudget {
    pub fn new(budget: u32) -> (r: MapBudget)
        ensures
            r.budget == budget,
            r.used == 0,
    {
        MapBudget { budget, used: 0 }
    }

    /// Takes a block of the given cost, where it still goes in.
    pub fn take(&mut self, cost: u32, negligible: bool) -> (r: bool)
        ensures
            r == goes_in(old(self).budget, old(self).used, cost, negligible),
            final(self).budget == old(self).budget,
            final(self).used == if r {
                (old(self).used + cost) as u32
            } else {
                old(self).used
            },
            old(self).used <= old(self).budget ==> final(self).used <= final(self).budget,
    {
        if self.used as u64 + cost as u64 > self.budget as u64 {
            return false;
        }
        if negligible && self.used > self.budget / 2 {
            return false;
        }
        self.used = self.used + cost;
        true
    }
}

/// The search for the number of symbols that each file may show: the greatest, of 1 to 24,
/// at which the map fits the budget.
#[derive(Debug)]
pub struct CapSearch {
    pub lo: usize,
    pub hi: usize,
    /// The greatest number at which the map was seen to fit.
    pub best: Option<usize>,
}

impl CapSearch {
    /// Everything below `lo` was seen to fit or lies below what did; everything above `hi`
    /// was seen not to.
    pub open spec fn wf(self) -> bool {
        &&& 1 <= self.lo <= 25
        &&& self.hi <= 24
        &&& self.lo <= self.hi + 1
        &&& match self.best {
            Some(b) => b + 1 == self.lo,
            None => self.lo == 1,
        }
    }

    pub fn new() -> (r: CapSearch)
        ensures
            r.wf(),
            r.lo == 1,
            r.hi == 24,
            r.best is None,
    {
        CapSearch { lo: 1, hi: 24, best: None }
    }

    /// The number to try next; none once the search is over.
    pub fn next(&self) -> (r: Option<usize>)
        requires
            self.wf(),
        ensures
            match r {
                Some(m) => self.lo <= m <= self.hi && m == (self.lo + self.hi) / 2,
                None => self.lo > self.hi,
            },
    {
        if self.lo <= self.hi {
            Some((self.lo + self.hi) / 2)
        } else {
            None
        }
    }

    /// Takes whether the map fits at a number that was tried.
    pub fn tried(&mut self, mid: usize, fits: bool)
        requires
            old(self).wf(),
            old(self).lo <= mid <= old(self).hi,
        ensures
            final(self).wf(),
            if fits {
                final(self).lo == mid + 1 && final(self).hi == old(self).hi && final(self).best == Some(mid)
            } else {
                final(self).lo == old(self).lo && final(self).hi == mid - 1 && final(self).best == old(self).best
            },
            final(self).hi + 1 - final(self).lo < old(self).hi + 1 - old(self).lo,
    {
        if fits {
            self.best = Some(mid);
            self.lo = mid + 1;
        } else {
            self.hi = mid - 1;
        }
    }
}

/// The search finds the greatest number that fits, where fewer symbols never need more
/// room: what was seen to fit is below all that was not.
pub proof fn law_search_closes_in(s: CapSearch, fits: spec_fn(int) -> bool)
    requires
        s.wf(),
        s.lo > s.hi,
        s.best matches Some(b) ==> fits(b as int),
        s.hi < 24 ==> !fits(s.hi + 1),
        forall|a: int, b: int| 1 <= a <= b <= 24 && #[trigger] fits(b) ==> #[trigger] fits(a),
    ensures
        match s.best {
            Some(b) => fits(b as int) && forall|k: int| b < k <= 24 ==> !#[trigger] fits(k),
            None => forall|k: int| 1 <= k <= 24 ==> !#[trigger] fits(k),
        },
{
    assert forall|k: int| s.lo <= k <= 24 implies !#[trigger] fits(k) by {
        if fits(k) {
            assert(fits(s.hi + 1));
        }
    }
}

/// The budget of a map that a tool asks for: between 200 and 8000 tokens.
pub fn map_budget(asked: Option<u32>, usual: u32) -> (r: u32)
    ensures
        ({
            let n = match asked {
                Some(n) => n,
                None => usual,
            };
            r == if n < 200 {
                200u32
            } else if n > 8000 {
                8000
            } else {
                n
            }
        }),
{
    let n: u32 = match asked {
        Some(n) => n,
        None => usual,
    };
    if n < 200 {
        200
    } else if n > 8000 {
        8000
    } else {
        n
    }
}

/// How many symbols a search gives: 20 unless asked otherwise, between 1 and 100.
pub fn search_limit(asked: Option<u32>) -> (r: usize)
    ensures
        ({
            let n = match asked {
                Some(n) => n,
                None => 20u32,
            };
            r == if n < 1 {
                1u32
            } else if n > 100 {
                100
            } else {
                n
            }
        }),
{
    let n: u32 = match asked {
        Some(n) => n,
        None => 20,
    };
    if n < 1 {
        1
    } else if n > 100 {
        100
    } else {
        n as usize
    }
}

/// A symbol that nothing encloses can stand in the map, whatever its sort, and a function or a
/// method wherever it stands; nothing else can.
pub proof fn law_what_can_stand_in_the_map(s: SymbolV)
    ensures
        s.parent is None ==> mappable(s),
        s.kind == SymKind::Fn || s.kind == SymKind::Method ==> mappable(s),
        s.parent is Some && s.kind != SymKind::Fn && s.kind != SymKind::Method ==> !mappable(s),
{
}

} // verus!
