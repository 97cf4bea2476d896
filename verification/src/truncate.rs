//! Shortening of tool output: the head and the tail stay, with a hint that says where
//! the whole is and how to go on reading.

use crate::message::{byte_len, bytes_in};
use crate::text::{
    at, char_lists, chars_of, dec, dec_u128, dec_u64, holds, lines, lines_of, replace_chars,
    string_of, with_char,
};
use vstd::prelude::*;
use vstd::string::*;

verus! {

/// How much output a tool may show.
#[derive(Debug, Clone, Copy, PartialEq, Eq, Structural)]
pub struct OutputBudget {
    pub max_bytes: usize,
    pub head_lines: usize,
    pub tail_lines: usize,
}

/// What was left out.
#[derive(Debug)]
pub struct TruncInfo {
    pub total_lines: usize,
    pub shown_head: usize,
    pub shown_tail: usize,
    pub spill_path: String,
}

pub struct TruncV {
    pub total_lines: nat,
    pub shown_head: nat,
    pub shown_tail: nat,
    pub spill_path: Seq<char>,
}

impl View for TruncInfo {
    type V = TruncV;

    open spec fn view(&self) -> TruncV {
        TruncV {
            total_lines: self.total_lines as nat,
            shown_head: self.shown_head as nat,
            shown_tail: self.shown_tail as nat,
            spill_path: self.spill_path@,
        }
    }
}

/// The text to show. With `info` it is shortened, and the whole text belongs into
/// the file that `info` names.
#[derive(Debug)]
pub struct Truncated {
    pub text: String,
    pub info: Option<TruncInfo>,
}

/// The text is within the budget.
pub open spec fn fits(text: Seq<char>, b: OutputBudget) -> bool {
    byte_len(text) <= b.max_bytes && lines_of(text).len() <= b.head_lines + b.tail_lines + 10
}

/// How many of the lines `i..n` are shown, `used` bytes having been spent: lines are
/// taken in turn while they fit, each with its line feed.
pub open spec fn shown_from(lines: Seq<Seq<char>>, i: nat, n: nat, used: nat, budget: nat) -> nat
    decreases n - i,
{
    if i >= n || i >= lines.len() || used + byte_len(lines[i as int]) > budget {
        0
    } else {
        1 + shown_from(lines, i + 1, n, used + byte_len(lines[i as int]) + 1, budget)
    }
}

/// The same from the end: how many of the last `n` lines are shown, `i` of them and
/// `used` bytes having been taken.
pub open spec fn shown_back(lines: Seq<Seq<char>>, i: nat, n: nat, used: nat, budget: nat) -> nat
    decreases n - i,
{
    if i >= n || i >= lines.len() || used + byte_len(lines[lines.len() - 1 - i]) > budget {
        0
    } else {
        1 + shown_back(lines, i + 1, n, used + byte_len(lines[lines.len() - 1 - i]) + 1, budget)
    }
}

/// Lines, each with a line feed.
pub open spec fn with_feeds(lines: Seq<Seq<char>>) -> Seq<char>
    decreases lines.len(),
{
    if lines.len() == 0 {
        Seq::empty()
    } else {
        with_feeds(lines.drop_last()) + lines.last() + "\n"@
    }
}

pub open spec fn least(a: nat, b: nat) -> nat {
    if a <= b {
        a
    } else {
        b
    }
}

/// How a text is shortened.
pub struct Cuts {
    pub total: nat,
    pub head: nat,
    pub tail: nat,
    pub omitted: nat,
}

pub open spec fn cuts(text: Seq<char>, b: OutputBudget) -> Cuts {
    let lines = lines_of(text);
    let head_n = least(b.head_lines as nat, lines.len());
    let tail_n = least(b.tail_lines as nat, (lines.len() - head_n) as nat);
    let head = shown_from(lines, 0, head_n, 0, (b.max_bytes as nat * 3) / 4);
    Cuts {
        total: lines.len(),
        head,
        tail: shown_back(lines, 0, tail_n, 0, b.max_bytes as nat / 4),
        omitted: if lines.len() >= head + tail_n {
            (lines.len() - (head + tail_n)) as nat
        } else {
            0
        },
    }
}

impl Cuts {
    /// What is said of the cut of a text whose whole is in a file.
    pub open spec fn told(self, spill: Seq<char>) -> TruncV {
        TruncV { total_lines: self.total, shown_head: self.head, shown_tail: self.tail, spill_path: spill }
    }
}

/// The hint between head and tail.
pub open spec fn hint(c: Cuts, path: Seq<char>) -> Seq<char> {
    "\n… ["@ + dec(c.omitted) + " lines omitted of "@ + dec(c.total) + "; full output saved to "@ + path
        + " — use read_file(path=\""@ + path + "\", offset="@ + dec(c.head + 1) + ") to continue] …\n\n"@
}

/// The shortened text.
pub open spec fn shortened(text: Seq<char>, b: OutputBudget, spill: Seq<char>) -> Seq<char> {
    let lines = lines_of(text);
    let c = cuts(text, b);
    with_feeds(lines.take(c.head as int)) + hint(c, with_char(spill, seq!['\\'], '/')) + with_feeds(
        lines.skip(c.total - c.tail),
    )
}

proof fn lemma_shown_from(lines: Seq<Seq<char>>, i: nat, n: nat, used: nat, budget: nat)
    ensures
        i <= lines.len() && i <= n ==> i + shown_from(lines, i, n, used, budget) <= lines.len() && i + shown_from(
            lines,
            i,
            n,
            used,
            budget,
        ) <= n,
    decreases n - i,
{
    if i < n && i < lines.len() && used + byte_len(lines[i as int]) <= budget {
        lemma_shown_from(lines, i + 1, n, used + byte_len(lines[i as int]) + 1, budget);
    }
}

proof fn lemma_shown_back(lines: Seq<Seq<char>>, i: nat, n: nat, used: nat, budget: nat)
    ensures
        i <= lines.len() && i <= n ==> i + shown_back(lines, i, n, used, budget) <= lines.len() && i + shown_back(
            lines,
            i,
            n,
            used,
            budget,
        ) <= n,
    decreases n - i,
{
    if i < n && i < lines.len() && used + byte_len(lines[lines.len() - 1 - i]) <= budget {
        lemma_shown_back(lines, i + 1, n, used + byte_len(lines[lines.len() - 1 - i]) + 1, budget);
    }
}

/// The head and the tail that are shown do not overlap.
pub proof fn law_head_and_tail_apart(text: Seq<char>, b: OutputBudget)
    ensures
        ({
            let c = cuts(text, b);
            &&& c.total == lines_of(text).len()
            &&& c.head <= b.head_lines
            &&& c.tail <= b.tail_lines
            &&& c.head + c.tail <= c.total
        }),
{
    let lines = lines_of(text);
    let head_n = least(b.head_lines as nat, lines.len());
    let tail_n = least(b.tail_lines as nat, (lines.len() - head_n) as nat);
    lemma_shown_from(lines, 0, head_n, 0, (b.max_bytes as nat * 3) / 4);
    lemma_shown_back(lines, 0, tail_n, 0, b.max_bytes as nat / 4);
}

/// A line with its line feed.
pub open spec fn fed() -> spec_fn(Seq<char>) -> Seq<char> {
    |l: Seq<char>| l + "\n"@
}

proof fn lemma_with_feeds(lines: Seq<Seq<char>>)
    ensures
        with_feeds(lines) == lines.map_values(fed()).flatten(),
    decreases lines.len(),
{
    if lines.len() > 0 {
        let d = lines.drop_last();
        lemma_with_feeds(d);
        let a = d.map_values(fed());
        assert(lines.map_values(fed()) =~= a.push(fed()(lines.last())));
        Seq::lemma_flatten_push(a, fed()(lines.last()));
        assert(with_feeds(d) + lines.last() + "\n"@ =~= with_feeds(d) + (lines.last() + "\n"@));
    } else {
        assert(lines.map_values(fed()) =~= Seq::<Seq<char>>::empty());
    }
}

/// The bytes of the first `n` lines with their line feeds.
pub open spec fn bytes_of_lines(lines: Seq<Seq<char>>, n: nat) -> nat
    decreases n,
{
    if n == 0 || n > lines.len() {
        0
    } else {
        bytes_of_lines(lines, (n - 1) as nat) + byte_len(lines[n - 1]) + 1
    }
}

/// The bytes of the last `n` lines with their line feeds.
pub open spec fn bytes_of_last(lines: Seq<Seq<char>>, n: nat) -> nat
    decreases n,
{
    if n == 0 || n > lines.len() {
        0
    } else {
        bytes_of_last(lines, (n - 1) as nat) + byte_len(lines[lines.len() - n]) + 1
    }
}

proof fn lemma_head_is_greatest(lines: Seq<Seq<char>>, i: nat, n: nat, budget: nat)
    requires
        i <= n <= lines.len(),
    ensures
        ({
            let h = i + shown_from(lines, i, n, bytes_of_lines(lines, i), budget);
            &&& h <= n
            &&& h < n ==> bytes_of_lines(lines, h) + byte_len(lines[h as int]) > budget
            &&& h > i ==> bytes_of_lines(lines, h) <= budget + 1
        }),
    decreases n - i,
{
    if i < n && bytes_of_lines(lines, i) + byte_len(lines[i as int]) <= budget {
        lemma_head_is_greatest(lines, i + 1, n, budget);
    }
}

proof fn lemma_tail_is_greatest(lines: Seq<Seq<char>>, i: nat, n: nat, budget: nat)
    requires
        i <= n <= lines.len(),
    ensures
        ({
            let t = i + shown_back(lines, i, n, bytes_of_last(lines, i), budget);
            &&& t <= n
            &&& t < n ==> bytes_of_last(lines, t) + byte_len(lines[lines.len() - 1 - t]) > budget
            &&& t > i ==> bytes_of_last(lines, t) <= budget + 1
        }),
    decreases n - i,
{
    if i < n && bytes_of_last(lines, i) + byte_len(lines[lines.len() - 1 - i]) <= budget {
        lemma_tail_is_greatest(lines, i + 1, n, budget);
    }
}

/// A text that is too long is shown by its first lines and its last ones, word for word, with a
/// hint between them that says how many lines there are in all and where to go on. As many
/// lines are shown at each end as are asked for and go into three quarters of the budget, and
/// into one quarter. Nothing else is left of it, and a text that is not too long is not touched.
#[verifier::rlimit(40)]
pub proof fn law_the_ends_of_a_text_are_shown(text: Seq<char>, b: OutputBudget, spill: Seq<char>)
    ensures
        fits(text, b) <==> byte_len(text) <= b.max_bytes && lines_of(text).len() <= b.head_lines + b.tail_lines + 10,
        ({
            let lines = lines_of(text);
            let c = cuts(text, b);
            let said = hint(c, with_char(spill, seq!['\\'], '/'));
            let n = if b.head_lines <= lines.len() {
                b.head_lines as nat
            } else {
                lines.len()
            };
            let m = if b.tail_lines <= lines.len() - n {
                b.tail_lines as nat
            } else {
                (lines.len() - n) as nat
            };
            &&& c.total == lines.len()
            &&& c.head <= n
            &&& c.tail <= m
            &&& c.head + c.tail <= lines.len()
            &&& shortened(text, b, spill) == lines.take(c.head as int).map_values(fed()).flatten() + said + lines.skip(
                lines.len() - c.tail,
            ).map_values(fed()).flatten()
            &&& c.head < n ==> bytes_of_lines(lines, c.head) + byte_len(lines[c.head as int]) > b.max_bytes * 3 / 4
            &&& c.head > 0 ==> bytes_of_lines(lines, c.head) <= b.max_bytes * 3 / 4 + 1
            &&& c.tail < m ==> bytes_of_last(lines, c.tail) + byte_len(lines[lines.len() - 1 - c.tail]) > b.max_bytes / 4
            &&& c.tail > 0 ==> bytes_of_last(lines, c.tail) <= b.max_bytes / 4 + 1
            &&& c.omitted == lines.len() - c.head - m
            &&& holds(said, dec(c.omitted) + " lines omitted of "@ + dec(lines.len()))
            &&& holds(said, "offset="@ + dec(c.head + 1))
        }),
{
    let lines = lines_of(text);
    let c = cuts(text, b);
    law_head_and_tail_apart(text, b);
    lemma_with_feeds(lines.take(c.head as int));
    lemma_with_feeds(lines.skip(lines.len() - c.tail));
    let head_n = least(b.head_lines as nat, lines.len());
    let tail_n = least(b.tail_lines as nat, (lines.len() - head_n) as nat);
    lemma_head_is_greatest(lines, 0, head_n, (b.max_bytes as nat * 3) / 4);
    lemma_tail_is_greatest(lines, 0, tail_n, b.max_bytes as nat / 4);
    let path = with_char(spill, seq!['\\'], '/');
    let said = hint(c, path);
    let x = dec(c.omitted) + " lines omitted of "@ + dec(lines.len());
    let a = "\n… ["@;
    let rest = "; full output saved to "@ + path + " — use read_file(path=\""@ + path + "\", offset="@ + dec(c.head + 1)
        + ") to continue] …\n\n"@;
    assert(said =~= a + x + rest);
    assert(said.subrange(a.len() as int, a.len() as int + x.len()) =~= x);
    assert(at(said, a.len() as int, x));
    reveal_strlit("\", offset=");
    reveal_strlit("offset=");
    let front = a + x + "; full output saved to "@ + path + " — use read_file(path=\""@ + path;
    let y = "offset="@ + dec(c.head + 1);
    let k = front.len() + 3;
    assert(said =~= front + "\", offset="@ + dec(c.head + 1) + ") to continue] …\n\n"@);
    assert(said.subrange(k as int, k as int + y.len()) =~= y);
    assert(at(said, k as int, y));
}

fn line_bytes(l: &Vec<char>) -> (r: usize)
    ensures
        r == byte_len(l@),
{
    bytes_in(string_of(l).as_str())
}

fn push_line(out: &mut String, l: &Vec<char>)
    ensures
        final(out)@ == old(out)@ + l@ + "\n"@,
{
    out.append(string_of(l).as_str());
    out.append("\n");
}

/// Keeps a text to a budget. `spill` is the path of the file that is to hold the
/// whole text where it is shortened.
pub fn apply(text: &str, budget: &OutputBudget, spill: &str) -> (r: Truncated)
    ensures
        if fits(text@, *budget) {
            r.text@ == text@ && r.info is None
        } else {
            &&& r.text@ == shortened(text@, *budget, spill@)
            &&& r.info matches Some(i) && i@ == cuts(text@, *budget).told(spill@)
        },
{
    let cs = chars_of(text);
    let ls = lines(&cs);
    let ghost lv = lines_of(text@);
    let too_many = ls.len() as u128 > budget.head_lines as u128 + budget.tail_lines as u128 + 10;
    if bytes_in(text) <= budget.max_bytes && !too_many {
        return Truncated { text: text.to_owned(), info: None };
    }
    let head_n: usize = if budget.head_lines <= ls.len() {
        budget.head_lines
    } else {
        ls.len()
    };
    let tail_n: usize = if budget.tail_lines <= ls.len() - head_n {
        budget.tail_lines
    } else {
        ls.len() - head_n
    };
    let head_budget: u128 = (budget.max_bytes as u128 * 3) / 4;
    let tail_budget: u128 = budget.max_bytes as u128 / 4;
    let mut out = String::new();
    let mut head: usize = 0;
    let mut used: u128 = 0;
    assert(with_feeds(lv.take(0)) =~= Seq::<char>::empty());
    proof {
        lemma_shown_from(lv, 0, head_n as nat, 0, head_budget as nat);
        lemma_shown_back(lv, 0, tail_n as nat, 0, tail_budget as nat);
    }
    while head < head_n && used + line_bytes(&ls[head]) as u128 <= head_budget
        invariant
            head <= head_n <= ls.len(),
            char_lists(ls@) == lv,
            lv.len() == ls.len(),
            head_budget <= 0x10000000000000000,
            used <= head_budget + 1,
            shown_from(lv, 0, head_n as nat, 0, head_budget as nat) == head + shown_from(
                lv,
                head as nat,
                head_n as nat,
                used as nat,
                head_budget as nat,
            ),
            out@ == with_feeds(lv.take(head as int)),
        decreases head_n - head,
    {
        assert(lv[head as int] == ls@[head as int]@);
        assert(lv.take(head + 1).drop_last() =~= lv.take(head as int));
        push_line(&mut out, &ls[head]);
        used = used + line_bytes(&ls[head]) as u128 + 1;
        head += 1;
    }
    if head < head_n {
        assert(lv[head as int] == ls@[head as int]@);
    }
    assert(head == shown_from(lv, 0, head_n as nat, 0, head_budget as nat));
    let mut tail: usize = 0;
    let mut used: u128 = 0;
    while tail < tail_n && used + line_bytes(&ls[ls.len() - 1 - tail]) as u128 <= tail_budget
        invariant
            tail <= tail_n <= ls.len(),
            char_lists(ls@) == lv,
            lv.len() == ls.len(),
            tail_budget <= 0x10000000000000000,
            used <= tail_budget + 1,
            shown_back(lv, 0, tail_n as nat, 0, tail_budget as nat) == tail + shown_back(
                lv,
                tail as nat,
                tail_n as nat,
                used as nat,
                tail_budget as nat,
            ),
        decreases tail_n - tail,
    {
        assert(lv[ls.len() - 1 - tail] == ls@[ls.len() - 1 - tail]@);
        used = used + line_bytes(&ls[ls.len() - 1 - tail]) as u128 + 1;
        tail += 1;
    }
    if tail < tail_n {
        assert(lv[ls.len() - 1 - tail] == ls@[ls.len() - 1 - tail]@);
    }
    assert(tail == shown_back(lv, 0, tail_n as nat, 0, tail_budget as nat));
    let shown = head as u128 + tail_n as u128;
    let omitted: usize = if ls.len() as u128 >= shown {
        ls.len() - head - tail_n
    } else {
        0
    };
    let mut slash: Vec<char> = Vec::new();
    slash.push('\\');
    assert(slash@ =~= seq!['\\']);
    let path = string_of(&replace_chars(&chars_of(spill), &slash, '/'));
    let ghost c = cuts(text@, *budget);
    assert(c == (Cuts { total: lv.len(), head: head as nat, tail: tail as nat, omitted: omitted as nat }));
    let ghost head_text = out@;
    let off: u128 = head as u128 + 1;
    let h = "\n… [".to_owned().concat(dec_u64(omitted as u64).as_str()).concat(" lines omitted of ").concat(
        dec_u64(ls.len() as u64).as_str(),
    ).concat("; full output saved to ").concat(path.as_str()).concat(" — use read_file(path=\"").concat(
        path.as_str(),
    ).concat("\", offset=").concat(dec_u128(off).as_str()).concat(") to continue] …\n\n");
    assert(h@ == hint(c, path@));
    out.append(h.as_str());
    let from: usize = ls.len() - tail;
    let mut i: usize = from;
    let ghost rest = lv.skip(from as int);
    assert(with_feeds(rest.take(0)) =~= Seq::<char>::empty());
    assert(out@ =~= head_text + hint(c, path@) + with_feeds(rest.take(0)));
    while i < ls.len()
        invariant
            from <= i <= ls.len(),
            char_lists(ls@) == lv,
            rest == lv.skip(from as int),
            out@ == head_text + hint(c, path@) + with_feeds(rest.take(i - from)),
        decreases ls.len() - i,
    {
        assert(rest[i - from] == ls@[i as int]@);
        assert(rest.take(i - from + 1).drop_last() =~= rest.take(i - from));
        let ghost b = out@;
        push_line(&mut out, &ls[i]);
        assert(out@ =~= head_text + hint(c, path@) + with_feeds(rest.take(i - from + 1)));
        i += 1;
    }
    assert(rest.take(ls.len() - from) =~= rest);
    Truncated {
        text: out,
        info: Some(
            TruncInfo { total_lines: ls.len(), shown_head: head, shown_tail: tail, spill_path: spill.to_owned() },
        ),
    }
}

} // verus!
