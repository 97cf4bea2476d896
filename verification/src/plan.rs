//! Plans of work: the document that is kept, and the name of its file.

use crate::pathname::{join_path, under};
use crate::text::{
    ascii_alnum, at, begins, char_from, char_lists, chars_of, dec, dec_u64, first_chars, holds,
    is_ascii_alnum, is_ascii_lower, is_ascii_upper, is_digit, join, joined,
    law_joined_pieces_are_taken_apart, lower, lowered, split_char, split_on, string_of, strings,
    take_chars, to_lower,
};
use vstd::prelude::*;
use vstd::string::*;

verus! {

/// One step of a plan.
#[derive(Debug)]
pub struct PlanStep {
    /// The number of the step, from one.
    pub n: u32,
    pub description: String,
    pub files: Vec<String>,
    pub verification: String,
}

pub struct StepV {
    pub n: u32,
    pub description: Seq<char>,
    pub files: Seq<Seq<char>>,
    pub verification: Seq<char>,
}

impl View for PlanStep {
    type V = StepV;

    open spec fn view(&self) -> StepV {
        StepV {
            n: self.n,
            description: self.description@,
            files: strings(self.files@),
            verification: self.verification@,
        }
    }
}

#[derive(Debug)]
pub struct Plan {
    pub title: String,
    pub summary: String,
    pub steps: Vec<PlanStep>,
    pub risks: Vec<String>,
    pub questions: Vec<String>,
}

pub struct PlanDocV {
    pub title: Seq<char>,
    pub summary: Seq<char>,
    pub steps: Seq<StepV>,
    pub risks: Seq<Seq<char>>,
    pub questions: Seq<Seq<char>>,
}

pub open spec fn steps_view(v: Seq<PlanStep>) -> Seq<StepV> {
    Seq::new(v.len(), |i: int| v[i]@)
}

impl View for Plan {
    type V = PlanDocV;

    open spec fn view(&self) -> PlanDocV {
        PlanDocV {
            title: self.title@,
            summary: self.summary@,
            steps: steps_view(self.steps@),
            risks: strings(self.risks@),
            questions: strings(self.questions@),
        }
    }
}

/// The text in lower case with a dash for all but letters and digits.
pub open spec fn dashed(s: Seq<char>) -> Seq<char> {
    Seq::new(
        s.len(),
        |i: int|
            if is_ascii_alnum(lower(s[i])) {
                lower(s[i])
            } else {
                '-'
            },
    )
}

/// The texts that are not empty among the first `n`.
pub open spec fn nonempty(v: Seq<Seq<char>>, n: nat) -> Seq<Seq<char>>
    decreases n,
{
    if n == 0 || n > v.len() {
        Seq::empty()
    } else if v[n - 1].len() == 0 {
        nonempty(v, (n - 1) as nat)
    } else {
        nonempty(v, (n - 1) as nat).push(v[n - 1])
    }
}

/// The words of a title, joined by dashes.
pub open spec fn worded(title: Seq<char>) -> Seq<char> {
    let parts = split_on(dashed(title), '-');
    joined(nonempty(parts, parts.len()), "-"@)
}

/// The name of a plan's file: the words of its title, at most 48 characters of them.
pub open spec fn slug_of(title: Seq<char>) -> Seq<char> {
    let w = worded(title);
    if w.len() == 0 {
        "plan"@
    } else {
        first_chars(w, 48)
    }
}

/// The texts one by one in a list of the first `n`.
pub open spec fn bullets(v: Seq<Seq<char>>, n: nat) -> Seq<char>
    decreases n,
{
    if n == 0 || n > v.len() {
        Seq::empty()
    } else {
        bullets(v, (n - 1) as nat) + ("- "@ + v[n - 1] + "\n"@)
    }
}

pub open spec fn step_text(s: StepV) -> Seq<char> {
    "\n"@ + dec(s.n as nat) + ". "@ + s.description + "\n"@ + (if s.files.len() == 0 {
        Seq::empty()
    } else {
        "   - files: "@ + joined(s.files, ", "@) + "\n"@
    }) + (if s.verification.len() == 0 {
        Seq::empty()
    } else {
        "   - verify: "@ + s.verification + "\n"@
    })
}

/// The first `n` steps.
pub open spec fn steps_text(v: Seq<StepV>, n: nat) -> Seq<char>
    decreases n,
{
    if n == 0 || n > v.len() {
        Seq::empty()
    } else {
        steps_text(v, (n - 1) as nat) + step_text(v[n - 1])
    }
}

pub open spec fn section(head: Seq<char>, v: Seq<Seq<char>>) -> Seq<char> {
    if v.len() == 0 {
        Seq::empty()
    } else {
        head + bullets(v, v.len())
    }
}

impl PlanDocV {
    pub open spec fn markdown(self) -> Seq<char> {
        "# "@ + self.title + "\n\n"@ + self.summary + "\n\n## Steps\n"@ + steps_text(self.steps, self.steps.len())
            + section("\n## Risks\n"@, self.risks) + section("\n## Open questions\n"@, self.questions)
    }
}

fn dash(s: &str) -> (r: Vec<char>)
    ensures
        r@ == dashed(s@),
{
    let cs = chars_of(s);
    let mut out: Vec<char> = Vec::new();
    let mut i: usize = 0;
    while i < cs.len()
        invariant
            i <= cs.len(),
            cs@ == s@,
            out@ == dashed(s@).take(i as int),
        decreases cs.len() - i,
    {
        let c = to_lower(cs[i]);
        if ascii_alnum(c) {
            out.push(c);
        } else {
            out.push('-');
        }
        assert(out@ =~= dashed(s@).take(i + 1));
        i += 1;
    }
    assert(out@ =~= dashed(s@));
    out
}

fn bullet_list(head: &str, v: &Vec<String>) -> (r: String)
    ensures
        r@ == section(head@, strings(v@)),
{
    if v.len() == 0 {
        return String::new();
    }
    let mut out = String::new();
    let mut i: usize = 0;
    assert(out@ =~= bullets(strings(v@), 0));
    while i < v.len()
        invariant
            i <= v.len(),
            out@ == bullets(strings(v@), i as nat),
        decreases v.len() - i,
    {
        assert(strings(v@)[i as int] == v@[i as int]@);
        out = out.concat("- ".to_owned().concat(v[i].as_str()).concat("\n").as_str());
        i += 1;
    }
    head.to_owned().concat(out.as_str())
}

fn show_step(s: &PlanStep) -> (r: String)
    ensures
        r@ == step_text(s@),
{
    let files = if s.files.len() == 0 {
        String::new()
    } else {
        "   - files: ".to_owned().concat(join(&s.files, ", ").as_str()).concat("\n")
    };
    let verify = if s.verification.as_str().is_empty() {
        String::new()
    } else {
        "   - verify: ".to_owned().concat(s.verification.as_str()).concat("\n")
    };
    "\n".to_owned().concat(dec_u64(s.n as u64).as_str()).concat(". ").concat(s.description.as_str()).concat(
        "\n",
    ).concat(files.as_str()).concat(verify.as_str())
}

impl Plan {
    /// The name of the plan's file.
    pub fn slug(&self) -> (r: String)
        ensures
            r@ == slug_of(self@.title),
    {
        let parts = split_char(&dash(self.title.as_str()), '-');
        let ghost pv = char_lists(parts@);
        let mut words: Vec<String> = Vec::new();
        let mut i: usize = 0;
        assert(strings(words@) =~= Seq::empty());
        while i < parts.len()
            invariant
                i <= parts.len(),
                pv == char_lists(parts@),
                strings(words@) == nonempty(pv, i as nat),
            decreases parts.len() - i,
        {
            assert(pv[i as int] == parts@[i as int]@);
            if parts[i].len() > 0 {
                let ghost b = words@;
                let w = string_of(&parts[i]);
                words.push(w);
                assert(strings(words@) =~= strings(b).push(pv[i as int]));
            }
            i += 1;
        }
        let w = join(&words, "-");
        if w.as_str().is_empty() {
            "plan".to_owned()
        } else {
            take_chars(w.as_str(), 48)
        }
    }

    /// The document.
    pub fn to_markdown(&self) -> (r: String)
        ensures
            r@ == self@.markdown(),
    {
        let mut steps = String::new();
        let mut i: usize = 0;
        let ghost sv = steps_view(self.steps@);
        assert(steps@ =~= steps_text(sv, 0));
        while i < self.steps.len()
            invariant
                i <= self.steps.len(),
                sv == steps_view(self.steps@),
                steps@ == steps_text(sv, i as nat),
            decreases self.steps.len() - i,
        {
            assert(sv[i as int] == self.steps@[i as int]@);
            steps = steps.concat(show_step(&self.steps[i]).as_str());
            i += 1;
        }
        "# ".to_owned().concat(self.title.as_str()).concat("\n\n").concat(self.summary.as_str()).concat(
            "\n\n## Steps\n",
        ).concat(steps.as_str()).concat(bullet_list("\n## Risks\n", &self.risks).as_str()).concat(
            bullet_list("\n## Open questions\n", &self.questions).as_str(),
        )
    }
}

/// A character that may stand in the name of a plan's file.
pub open spec fn slug_char(c: char) -> bool {
    is_digit(c) || is_ascii_lower(c) || c == '-'
}

pub open spec fn all_slug(s: Seq<char>) -> bool {
    forall|i: int| 0 <= i < s.len() ==> slug_char(#[trigger] s[i])
}

proof fn lemma_dashed(s: Seq<char>)
    ensures
        all_slug(dashed(s)),
{
    assert forall|i: int| 0 <= i < s.len() implies slug_char(#[trigger] dashed(s)[i]) by {
        let c = s[i];
        if is_ascii_upper(c) {
            let n = c as u32;
            assert(65 <= n <= 90);
            assert(lower(c) as u32 == n + 32);
        }
    }
}

proof fn lemma_char_from_range(s: Seq<char>, c: char, i: int)
    requires
        0 <= i,
    ensures
        char_from(s, c, i) matches Some(k) ==> i <= k < s.len(),
    decreases s.len() - i,
{
    if i < s.len() && s[i] != c {
        lemma_char_from_range(s, c, i + 1);
    }
}

proof fn lemma_split_slug(s: Seq<char>)
    requires
        all_slug(s),
    ensures
        forall|i: int| 0 <= i < split_on(s, '-').len() ==> all_slug(#[trigger] split_on(s, '-')[i]),
    decreases s.len(),
{
    lemma_char_from_range(s, '-', 0);
    if let Some(k) = char_from(s, '-', 0) {
        if 0 <= k < s.len() {
            let rest = s.skip(k + 1);
            assert(all_slug(rest)) by {
                assert forall|i: int| 0 <= i < rest.len() implies slug_char(#[trigger] rest[i]) by {
                    assert(rest[i] == s[i + k + 1]);
                }
            }
            assert(all_slug(s.take(k))) by {
                assert forall|i: int| 0 <= i < s.take(k).len() implies slug_char(#[trigger] s.take(k)[i]) by {
                    assert(s.take(k)[i] == s[i]);
                }
            }
            lemma_split_slug(rest);
            let all = split_on(s, '-');
            assert forall|i: int| 0 <= i < all.len() implies all_slug(#[trigger] all[i]) by {
                if i > 0 {
                    assert(all[i] == split_on(rest, '-')[i - 1]);
                }
            }
        }
    }
}

proof fn lemma_nonempty_slug(v: Seq<Seq<char>>, n: nat)
    requires
        n <= v.len(),
        forall|i: int| 0 <= i < v.len() ==> all_slug(#[trigger] v[i]),
    ensures
        forall|i: int| 0 <= i < nonempty(v, n).len() ==> all_slug(#[trigger] nonempty(v, n)[i]),
    decreases n,
{
    if n > 0 {
        lemma_nonempty_slug(v, (n - 1) as nat);
        let p = nonempty(v, (n - 1) as nat);
        let r = nonempty(v, n);
        assert forall|i: int| 0 <= i < r.len() implies all_slug(#[trigger] r[i]) by {
            if i < p.len() {
                assert(r[i] == p[i]);
            } else {
                assert(r[i] == v[n - 1]);
            }
        }
    }
}

proof fn lemma_joined_slug(v: Seq<Seq<char>>)
    requires
        forall|i: int| 0 <= i < v.len() ==> all_slug(#[trigger] v[i]),
    ensures
        all_slug(joined(v, "-"@)),
    decreases v.len(),
{
    reveal_strlit("-");
    if v.len() == 1 {
        assert(all_slug(v[0]));
    } else if v.len() > 1 {
        let p = v.drop_last();
        assert forall|i: int| 0 <= i < p.len() implies all_slug(#[trigger] p[i]) by {
            assert(p[i] == v[i]);
        }
        lemma_joined_slug(p);
        let a = joined(p, "-"@);
        let r = joined(v, "-"@);
        assert(all_slug(v.last())) by {
            assert(v.last() == v[v.len() - 1]);
        }
        assert forall|i: int| 0 <= i < r.len() implies slug_char(#[trigger] r[i]) by {
            if i < a.len() {
                assert(r[i] == a[i]);
            } else if i == a.len() {
                assert(r[i] == '-');
            } else {
                assert(r[i] == v.last()[i - a.len() - 1]);
            }
        }
    }
}

/// Whatever the title, the name of a plan's file is 1 to 48 lower-case letters, digits and
/// dashes.
pub proof fn law_slug_is_a_file_name(title: Seq<char>)
    ensures
        1 <= slug_of(title).len() <= 48,
        all_slug(slug_of(title)),
{
    reveal_strlit("plan");
    let d = dashed(title);
    lemma_dashed(title);
    lemma_split_slug(d);
    let parts = split_on(d, '-');
    lemma_nonempty_slug(parts, parts.len());
    lemma_joined_slug(nonempty(parts, parts.len()));
    let w = worded(title);
    assert forall|i: int| 0 <= i < slug_of(title).len() implies slug_char(#[trigger] slug_of(title)[i]) by {
        if w.len() > 0 {
            assert(slug_of(title)[i] == w[i]);
        }
    }
}

// ---------------------------------------------------------------- keeping it

/// The latest plan and the file that it is in.
#[derive(Debug)]
pub struct PlanStore {
    pub latest: Option<(Plan, String)>,
}

impl Default for PlanStore {
    fn default() -> (r: PlanStore)
        ensures
            r.latest is None,
    {
        PlanStore { latest: None }
    }
}

/// What is to be written for a plan, or why it is refused.
#[derive(Debug)]
pub enum PlanWrite {
    Refused(String),
    Write { markdown_path: String, json_path: String, markdown: String, reply: String },
}

/// A plan without steps is refused; any other is written as a document and as data, and
/// the reply says where it is.
pub fn write_plan(plan: &Plan, plans_dir: &str, windows: bool) -> (r: PlanWrite)
    ensures
        match r {
            PlanWrite::Refused(m) => plan@.steps.len() == 0 && m@
                == "plan has no steps; add at least one concrete step"@,
            PlanWrite::Write { markdown_path, json_path, markdown, reply } => {
                let base = under(plans_dir@, slug_of(plan@.title), windows);
                &&& plan@.steps.len() > 0
                &&& markdown_path@ == base + ".md"@
                &&& json_path@ == base + ".json"@
                &&& markdown@ == plan@.markdown()
                &&& reply@ == "Plan saved to "@ + markdown_path@ + " ("@ + dec(plan@.steps.len())
                    + " steps). Tell the user the plan is ready for review; do not start implementing."@
            },
        },
{
    if plan.steps.len() == 0 {
        return PlanWrite::Refused("plan has no steps; add at least one concrete step".to_owned());
    }
    let base = join_path(plans_dir, plan.slug().as_str(), windows);
    let md = base.clone().concat(".md");
    let json = base.concat(".json");
    let reply = "Plan saved to ".to_owned().concat(md.as_str()).concat(" (").concat(
        dec_u64(plan.steps.len() as u64).as_str(),
    ).concat(" steps). Tell the user the plan is ready for review; do not start implementing.");
    PlanWrite::Write { markdown_path: md, json_path: json, markdown: plan.to_markdown(), reply }
}

/// The text of a plan holds its title, its summary, and every step with its number and what is
/// to be done.
pub proof fn law_a_plan_is_written_whole(p: PlanDocV, i: int)
    requires
        0 <= i < p.steps.len(),
    ensures
        begins(p.markdown(), "# "@ + p.title + "\n\n"@ + p.summary),
        holds(p.markdown(), "\n"@ + dec(p.steps[i].n as nat) + ". "@ + p.steps[i].description + "\n"@),
{
    let t = p.markdown();
    let h = "# "@ + p.title + "\n\n"@ + p.summary;
    let h2 = h + "\n\n## Steps\n"@;
    let ss = steps_text(p.steps, p.steps.len());
    let risks = section("\n## Risks\n"@, p.risks);
    let questions = section("\n## Open questions\n"@, p.questions);
    assert(t == h2 + ss + risks + questions);
    assert(t.subrange(0, h.len() as int) =~= h);
    let x = "\n"@ + dec(p.steps[i].n as nat) + ". "@ + p.steps[i].description + "\n"@;
    let k = lemma_step_is_there(p.steps, p.steps.len(), i);
    let l = step_text(p.steps[i]);
    assert(l.subrange(0, x.len() as int) =~= x);
    let q = h2.len() as int + k;
    assert(t.subrange(q, q + x.len()) =~= ss.subrange(k, k + l.len()).subrange(0, x.len() as int));
    assert(at(t, q, x));
}

proof fn lemma_step_is_there(v: Seq<StepV>, n: nat, i: int) -> (p: int)
    requires
        0 <= i < n <= v.len(),
    ensures
        at(steps_text(v, n), p, step_text(v[i])),
    decreases n,
{
    let t = steps_text(v, n);
    let b = steps_text(v, (n - 1) as nat);
    let l = step_text(v[i]);
    if i == n - 1 {
        let p = b.len() as int;
        assert(t.subrange(p, p + l.len()) =~= l);
        p
    } else {
        let p = lemma_step_is_there(v, (n - 1) as nat, i);
        assert(t.subrange(p, p + l.len()) =~= b.subrange(p, p + l.len()));
        p
    }
}

/// Every risk and every question stands in the text of its list, on a line of its own.
pub proof fn law_every_point_is_listed(v: Seq<Seq<char>>, n: nat, i: int)
    requires
        0 <= i < n <= v.len(),
    ensures
        holds(bullets(v, n), "- "@ + v[i] + "\n"@),
{
    let p = lemma_point_is_there(v, n, i);
}

proof fn lemma_point_is_there(v: Seq<Seq<char>>, n: nat, i: int) -> (p: int)
    requires
        0 <= i < n <= v.len(),
    ensures
        at(bullets(v, n), p, "- "@ + v[i] + "\n"@),
    decreases n,
{
    let t = bullets(v, n);
    let b = bullets(v, (n - 1) as nat);
    let l = "- "@ + v[i] + "\n"@;
    if i == n - 1 {
        let p = b.len() as int;
        assert(t.subrange(p, p + l.len()) =~= l);
        p
    } else {
        let p = lemma_point_is_there(v, (n - 1) as nat, i);
        assert(t.subrange(p, p + l.len()) =~= b.subrange(p, p + l.len()));
        p
    }
}

proof fn lemma_dashed_adds(a: Seq<char>, b: Seq<char>)
    ensures
        dashed(a + b) == dashed(a) + dashed(b),
{
    assert(dashed(a + b) =~= dashed(a) + dashed(b));
}

/// A word of letters and digits.
pub open spec fn is_plain_word(s: Seq<char>) -> bool {
    s.len() > 0 && forall|i: int| 0 <= i < s.len() ==> is_ascii_alnum(#[trigger] s[i])
}

pub open spec fn all_lowered(v: Seq<Seq<char>>) -> Seq<Seq<char>> {
    Seq::new(v.len(), |i: int| lowered(v[i]))
}

proof fn lemma_dashed_words(v: Seq<Seq<char>>)
    requires
        v.len() > 0,
        forall|i: int| 0 <= i < v.len() ==> is_plain_word(#[trigger] v[i]),
    ensures
        dashed(joined(v, seq![' '])) == joined(all_lowered(v), seq!['-']),
    decreases v.len(),
{
    let w = v.last();
    assert(is_plain_word(w));
    assert forall|i: int| 0 <= i < w.len() implies is_ascii_alnum(lower(#[trigger] w[i])) by {
        assert(is_ascii_alnum(w[i]));
    }
    assert(dashed(w) =~= lowered(w));
    let l = all_lowered(v);
    if v.len() == 1 {
        assert(l[0] == lowered(v[0]));
    } else {
        let d = v.drop_last();
        assert forall|i: int| 0 <= i < d.len() implies is_plain_word(#[trigger] d[i]) by {
            assert(is_plain_word(v[i]));
        }
        lemma_dashed_words(d);
        assert(l.drop_last() =~= all_lowered(d));
        assert(l.last() == lowered(w));
        lemma_dashed_adds(joined(d, seq![' ']), seq![' ']);
        lemma_dashed_adds(joined(d, seq![' ']) + seq![' '], w);
        assert(dashed(seq![' ']) =~= seq!['-']);
    }
}

proof fn lemma_all_nonempty(v: Seq<Seq<char>>, n: nat)
    requires
        n <= v.len(),
        forall|i: int| 0 <= i < v.len() ==> (#[trigger] v[i]).len() > 0,
    ensures
        nonempty(v, n) == v.take(n as int),
    decreases n,
{
    if n > 0 {
        lemma_all_nonempty(v, (n - 1) as nat);
        assert(v.take(n as int) =~= v.take(n - 1).push(v[n - 1]));
    } else {
        assert(v.take(0) =~= Seq::<Seq<char>>::empty());
    }
}

/// The name of a plan's file is made of the words of its title, in lower case, with dashes between
/// them, up to 48 characters.
#[verifier::rlimit(40)]
pub proof fn law_a_slug_has_the_words_of_the_title(v: Seq<Seq<char>>)
    requires
        v.len() > 0,
        forall|i: int| 0 <= i < v.len() ==> is_plain_word(#[trigger] v[i]),
    ensures
        slug_of(joined(v, seq![' '])) == first_chars(joined(all_lowered(v), seq!['-']), 48),
{
    let l = all_lowered(v);
    lemma_dashed_words(v);
    assert forall|i: int| 0 <= i < l.len() implies !(#[trigger] l[i]).contains('-') by {
        assert(is_plain_word(v[i]));
        if l[i].contains('-') {
            let k = choose|k: int| 0 <= k < l[i].len() && l[i][k] == '-';
            assert(is_ascii_alnum(v[i][k]));
            assert(lower(v[i][k]) == '-');
        }
    }
    law_joined_pieces_are_taken_apart(l, '-');
    assert forall|i: int| 0 <= i < l.len() implies (#[trigger] l[i]).len() > 0 by {
        assert(is_plain_word(v[i]));
    }
    lemma_all_nonempty(l, l.len());
    assert(l.take(l.len() as int) =~= l);
    reveal_strlit("-");
    assert("-"@ =~= seq!['-']);
    let w = joined(l, seq!['-']);
    assert(w.len() > 0) by {
        assert(l.last().len() > 0);
        if l.len() == 1 {
            assert(w == l[0]);
        }
    }
}

} // verus!
