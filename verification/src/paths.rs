//! Well-known locations, and path texts with a home directory and variables in them.

use crate::discover::{alike, eq_ignore_case};
use crate::json::opt_str;
use crate::message::opt_string;
use crate::pathname::{join_path, under};
use crate::text::{
    begins, char_from, chars_of, find_char, is_ascii_alnum, lemma_char_from, push_chars,
    starts_with, str_eq, string_of, string_of_range, strings,
};
use vstd::prelude::*;
use vstd::string::*;

verus! {

/// Whether a character is alphabetic or numeric in Unicode.
pub uninterp spec fn unicode_alphanumeric(c: char) -> bool;

/// `char::is_alphanumeric`. It depends on the character alone; of the ASCII characters
/// it holds exactly for the digits and the letters.
pub assume_specification[ char::is_alphanumeric ](c: char) -> (r: bool)
    ensures
        r == unicode_alphanumeric(c),
        (c as u32) < 128 ==> r == is_ascii_alnum(c),
;

/// What the surroundings give: the home directory and the variables.
#[derive(Debug)]
pub struct Surroundings {
    pub home: Option<String>,
    pub vars: Vec<(String, String)>,
    /// On Windows names of variables that differ in their case only are the same.
    pub windows: bool,
}

pub struct SurroundingsV {
    pub home: Option<Seq<char>>,
    pub vars: Seq<(Seq<char>, Seq<char>)>,
    pub windows: bool,
}

impl View for Surroundings {
    type V = SurroundingsV;

    open spec fn view(&self) -> SurroundingsV {
        SurroundingsV { home: opt_string(self.home), vars: text_pairs(self.vars@), windows: self.windows }
    }
}

pub open spec fn text_pairs(v: Seq<(String, String)>) -> Seq<(Seq<char>, Seq<char>)> {
    Seq::new(v.len(), |i: int| (v[i].0@, v[i].1@))
}

/// Two names mean the same variable.
pub open spec fn same_name(a: Seq<char>, b: Seq<char>, any_case: bool) -> bool {
    a == b || (any_case && alike(a, b))
}

/// The second part of the first pair, from `i` on, whose first part is the name.
pub open spec fn paired_from(v: Seq<(Seq<char>, Seq<char>)>, name: Seq<char>, any_case: bool, i: int) -> Option<Seq<char>>
    decreases v.len() - i,
{
    if i < 0 || i >= v.len() {
        None
    } else if same_name(v[i].0, name, any_case) {
        Some(v[i].1)
    } else {
        paired_from(v, name, any_case, i + 1)
    }
}

impl SurroundingsV {
    /// The value of a variable, where it is set.
    pub open spec fn var(self, name: Seq<char>) -> Option<Seq<char>> {
        paired_from(self.vars, name, self.windows, 0)
    }

    /// The value of a variable; nothing where it is not set.
    pub open spec fn value(self, name: Seq<char>) -> Seq<char> {
        match self.var(name) {
            Some(v) => v,
            None => Seq::empty(),
        }
    }
}

impl Surroundings {
    pub fn var(&self, name: &str) -> (r: Option<&str>)
        ensures
            opt_str(r) == self@.var(name@),
    {
        let mut i: usize = 0;
        let ghost vv = text_pairs(self.vars@);
        while i < self.vars.len()
            invariant
                i <= self.vars.len(),
                vv == text_pairs(self.vars@),
                paired_from(vv, name@, self.windows, 0) == paired_from(vv, name@, self.windows, i as int),
            decreases self.vars.len() - i,
        {
            assert(vv[i as int] == (self.vars@[i as int].0@, self.vars@[i as int].1@));
            let own = self.vars[i].0.as_str();
            if str_eq(own, name) || (self.windows && eq_ignore_case(own, name)) {
                return Some(self.vars[i].1.as_str());
            }
            i += 1;
        }
        None
    }

    fn value(&self, name: &str) -> (r: String)
        ensures
            r@ == self@.value(name@),
    {
        match self.var(name) {
            Some(v) => v.to_owned(),
            None => String::new(),
        }
    }
}

// ---------------------------------------------------------------- expansion

pub open spec fn is_word(c: char) -> bool {
    unicode_alphanumeric(c) || c == '_'
}

/// The end of the run of letters, digits and underscores that starts at `i`.
pub open spec fn word_end(s: Seq<char>, i: int) -> int
    decreases s.len() - i,
{
    if 0 <= i < s.len() && is_word(s[i]) {
        word_end(s, i + 1)
    } else {
        i
    }
}

/// What a variable written with `$` at `i` is called, and where the text goes on: in
/// braces up to the closing one (or the end), else a run of word characters.
pub open spec fn dollar_name(s: Seq<char>, i: int) -> (Seq<char>, int) {
    if i + 1 < s.len() && s[i + 1] == '{' {
        match char_from(s, '}', i + 2) {
            Some(j) => (s.subrange(i + 2, j), j + 1),
            None => (s.skip(i + 2), s.len() as int),
        }
    } else {
        let j = word_end(s, i + 1);
        (s.subrange(i + 1, j), j)
    }
}

/// The text from `i` on with its variables, `%NAME%`, `$NAME` or `${NAME}`, put in. A
/// percent sign with no other after it, and a dollar sign with no name, stand for
/// themselves.
pub open spec fn filled(s: Seq<char>, i: int, env: SurroundingsV) -> Seq<char>
    decreases s.len() - i,
{
    if i < 0 || i >= s.len() {
        Seq::empty()
    } else if s[i] == '%' {
        match char_from(s, '%', i + 1) {
            Some(j) => if i < j < s.len() {
                env.value(s.subrange(i + 1, j)) + filled(s, j + 1, env)
            } else {
                Seq::empty()
            },
            None => s.skip(i),
        }
    } else if s[i] == '$' {
        let (name, next) = dollar_name(s, i);
        let head = if name.len() == 0 {
            seq!['$']
        } else {
            env.value(name)
        };
        if i < next <= s.len() {
            head + filled(s, next, env)
        } else {
            head
        }
    } else {
        seq![s[i]] + filled(s, i + 1, env)
    }
}

/// The text with `~` at its start put in.
pub open spec fn with_home(s: Seq<char>, home: Option<Seq<char>>, win: bool) -> Seq<char> {
    match home {
        None => s,
        Some(h) => if begins(s, "~/"@) || begins(s, r"~\"@) {
            under(h, s.skip(2), win)
        } else if s == "~"@ {
            h
        } else {
            s
        },
    }
}

/// A path text with the home directory and the variables put in.
pub open spec fn expanded(s: Seq<char>, env: SurroundingsV) -> Seq<char> {
    filled(with_home(s, env.home, env.windows), 0, env)
}

pub fn find_word_end(s: &Vec<char>, from: usize) -> (r: usize)
    requires
        from <= s.len(),
    ensures
        r == word_end(s@, from as int),
        from <= r <= s.len(),
{
    let mut i: usize = from;
    while i < s.len() && (s[i].is_alphanumeric() || s[i] == '_')
        invariant
            from <= i <= s.len(),
            word_end(s@, from as int) == word_end(s@, i as int),
        decreases s.len() - i,
    {
        i += 1;
    }
    i
}

fn read_dollar_name(s: &Vec<char>, i: usize) -> (r: (String, usize))
    requires
        i < s.len(),
    ensures
        (r.0@, r.1 as int) == dollar_name(s@, i as int),
        i < r.1 <= s.len(),
{
    if i + 1 < s.len() && s[i + 1] == '{' {
        match find_char(s, '}', i + 2) {
            Some(j) => (string_of_range(s, i + 2, j), j + 1),
            None => {
                let n = string_of_range(s, i + 2, s.len());
                assert(n@ =~= s@.skip(i + 2));
                (n, s.len())
            },
        }
    } else {
        let j: usize = find_word_end(s, i + 1);
        (string_of_range(s, i + 1, j), j)
    }
}

fn fill(s: &Vec<char>, env: &Surroundings) -> (r: String)
    ensures
        r@ == filled(s@, 0, env@),
{
    let mut out: Vec<char> = Vec::new();
    let mut i: usize = 0;
    let ghost want = filled(s@, 0, env@);
    while i < s.len()
        invariant
            i <= s.len(),
            want == filled(s@, 0, env@),
            want == out@ + filled(s@, i as int, env@),
        decreases s.len() - i,
    {
        let ghost done = out@;
        if s[i] == '%' {
            match find_char(s, '%', i + 1) {
                Some(j) => {
                    let v = env.value(string_of_range(s, i + 1, j).as_str());
                    push_chars(&mut out, v.as_str());
                    assert(want =~= done + v@ + filled(s@, j + 1, env@));
                    i = j + 1;
                },
                None => {
                    let rest = string_of_range(s, i, s.len());
                    push_chars(&mut out, rest.as_str());
                    assert(rest@ =~= s@.skip(i as int));
                    i = s.len();
                    assert(filled(s@, i as int, env@) =~= Seq::empty());
                    assert(want =~= out@ + filled(s@, i as int, env@));
                },
            }
        } else if s[i] == '$' {
            let (name, next) = read_dollar_name(s, i);
            if name.as_str().is_empty() {
                out.push('$');
                assert(want =~= done + seq!['$'] + filled(s@, next as int, env@));
                assert(out@ =~= done + seq!['$']);
            } else {
                let v = env.value(name.as_str());
                push_chars(&mut out, v.as_str());
                assert(want =~= done + v@ + filled(s@, next as int, env@));
            }
            i = next;
        } else {
            out.push(s[i]);
            assert(want =~= done.push(s@[i as int]) + filled(s@, i + 1, env@));
            i += 1;
        }
    }
    assert(out@ =~= want);
    string_of(&out)
}

/// Puts the home directory and the variables into a path text.
pub fn expand_path(s: &str, env: &Surroundings) -> (r: String)
    ensures
        r@ == expanded(s@, env@),
{
    let cs = chars_of(s);
    let start: Vec<char> = match &env.home {
        None => cs,
        Some(h) => {
            if starts_with(s, "~/") || starts_with(s, r"~\") {
                proof {
                    reveal_strlit("~/");
                    reveal_strlit(r"~\");
                }
                let rest = string_of_range(&cs, 2, cs.len());
                assert(rest@ =~= s@.skip(2));
                chars_of(join_path(h.as_str(), rest.as_str(), env.windows).as_str())
            } else if str_eq(s, "~") {
                chars_of(h.as_str())
            } else {
                cs
            }
        },
    };
    fill(&start, env)
}

proof fn lemma_plain(s: Seq<char>, i: int, env: SurroundingsV)
    requires
        0 <= i <= s.len(),
        forall|k: int| 0 <= k < s.len() ==> (#[trigger] s[k]) != '%' && s[k] != '$',
    ensures
        filled(s, i, env) == s.skip(i),
    decreases s.len() - i,
{
    if i < s.len() {
        lemma_plain(s, i + 1, env);
        assert(seq![s[i]] + s.skip(i + 1) =~= s.skip(i));
    } else {
        assert(s.skip(i) =~= Seq::empty());
    }
}

/// A path with no `%`, no `$` and no `~` in it stands for itself.
pub proof fn law_plain_path_stands_for_itself(s: Seq<char>, env: SurroundingsV)
    requires
        forall|k: int| 0 <= k < s.len() ==> (#[trigger] s[k]) != '%' && s[k] != '$' && s[k] != '~',
    ensures
        expanded(s, env) == s,
{
    reveal_strlit("~/");
    reveal_strlit(r"~\");
    reveal_strlit("~");
    assert(!begins(s, "~/"@)) by {
        if begins(s, "~/"@) {
            assert(s.subrange(0, 2)[0] == s[0]);
        }
    }
    assert(!begins(s, r"~\"@)) by {
        if begins(s, r"~\"@) {
            assert(s.subrange(0, 2)[0] == s[0]);
        }
    }
    assert(s != "~"@) by {
        if s == "~"@ {
            assert(s[0] == '~');
        }
    }
    lemma_plain(s, 0, env);
    assert(s.skip(0) =~= s);
}

// ---------------------------------------------------------------- locations

/// Where the program keeps its files.
#[derive(Debug)]
pub struct Paths {
    pub user_dir: String,
    pub user_config: String,
    pub project_dir: String,
    pub project_state_dir: String,
    pub project_config: String,
    pub windows: bool,
}

pub struct PathsV {
    pub user_dir: Seq<char>,
    pub user_config: Seq<char>,
    pub project_dir: Seq<char>,
    pub project_state_dir: Seq<char>,
    pub project_config: Seq<char>,
    pub windows: bool,
}

impl View for Paths {
    type V = PathsV;

    open spec fn view(&self) -> PathsV {
        PathsV {
            user_dir: self.user_dir@,
            user_config: self.user_config@,
            project_dir: self.project_dir@,
            project_state_dir: self.project_state_dir@,
            project_config: self.project_config@,
            windows: self.windows,
        }
    }
}

impl PathsV {
    /// The locations for a home directory and a project.
    pub open spec fn of(home: Seq<char>, project: Seq<char>, windows: bool) -> PathsV {
        let user = under(home, ".buzzcode"@, windows);
        let state = under(project, ".buzzcode"@, windows);
        PathsV {
            user_dir: user,
            user_config: under(user, "config.toml"@, windows),
            project_dir: project,
            project_state_dir: state,
            project_config: under(state, "config.toml"@, windows),
            windows,
        }
    }

    /// Every directory that is written to.
    pub open spec fn all_dirs(self) -> Seq<Seq<char>> {
        seq![
            self.user_dir,
            under(self.user_dir, "logs"@, self.windows),
            under(self.user_dir, "slots"@, self.windows),
            under(self.user_dir, "engine"@, self.windows),
            under(self.user_dir, "tune"@, self.windows),
            self.project_state_dir,
            under(self.project_state_dir, "tool-out"@, self.windows),
            under(self.project_state_dir, "plans"@, self.windows),
            under(self.project_state_dir, "bench"@, self.windows),
        ]
    }
}

impl Paths {
    /// The locations for a home directory and an absolute project directory; none where
    /// there is no home directory.
    pub fn discover(home: Option<&str>, project: &str, windows: bool) -> (r: Option<Paths>)
        ensures
            match r {
                Some(p) => home is Some && p@ == PathsV::of(home->Some_0@, project@, windows),
                None => home is None,
            },
    {
        match home {
            None => None,
            Some(h) => {
                let user_dir = join_path(h, ".buzzcode", windows);
                let state = join_path(project, ".buzzcode", windows);
                Some(
                    Paths {
                        user_config: join_path(user_dir.as_str(), "config.toml", windows),
                        project_config: join_path(state.as_str(), "config.toml", windows),
                        user_dir,
                        project_dir: project.to_owned(),
                        project_state_dir: state,
                        windows,
                    },
                )
            },
        }
    }

    pub fn logs_dir(&self) -> (r: String)
        ensures
            r@ == under(self.user_dir@, "logs"@, self.windows),
    {
        join_path(self.user_dir.as_str(), "logs", self.windows)
    }

    pub fn slots_dir(&self) -> (r: String)
        ensures
            r@ == under(self.user_dir@, "slots"@, self.windows),
    {
        join_path(self.user_dir.as_str(), "slots", self.windows)
    }

    pub fn engine_dir(&self) -> (r: String)
        ensures
            r@ == under(self.user_dir@, "engine"@, self.windows),
    {
        join_path(self.user_dir.as_str(), "engine", self.windows)
    }

    pub fn tune_dir(&self) -> (r: String)
        ensures
            r@ == under(self.user_dir@, "tune"@, self.windows),
    {
        join_path(self.user_dir.as_str(), "tune", self.windows)
    }

    pub fn tool_out_dir(&self) -> (r: String)
        ensures
            r@ == under(self.project_state_dir@, "tool-out"@, self.windows),
    {
        join_path(self.project_state_dir.as_str(), "tool-out", self.windows)
    }

    pub fn plans_dir(&self) -> (r: String)
        ensures
            r@ == under(self.project_state_dir@, "plans"@, self.windows),
    {
        join_path(self.project_state_dir.as_str(), "plans", self.windows)
    }

    pub fn bench_dir(&self) -> (r: String)
        ensures
            r@ == under(self.project_state_dir@, "bench"@, self.windows),
    {
        join_path(self.project_state_dir.as_str(), "bench", self.windows)
    }

    /// Every directory that is written to, each after the one that holds it.
    pub fn ensure_dirs(&self) -> (r: Vec<String>)
        ensures
            strings(r@) == self@.all_dirs(),
    {
        let r = vec![
            self.user_dir.clone(),
            self.logs_dir(),
            self.slots_dir(),
            self.engine_dir(),
            self.tune_dir(),
            self.project_state_dir.clone(),
            self.tool_out_dir(),
            self.plans_dir(),
            self.bench_dir(),
        ];
        assert(strings(r@) =~= self@.all_dirs());
        r
    }
}

proof fn lemma_char_from_behind(a: Seq<char>, b: Seq<char>, c: char, j: int)
    requires
        0 <= j,
    ensures
        char_from(a + b, c, a.len() + j) == (match char_from(b, c, j) {
            Some(k) => Some(a.len() + k),
            None => None,
        }),
    decreases b.len() - j,
{
    if j < b.len() {
        lemma_char_from_behind(a, b, c, j + 1);
        assert((a + b)[a.len() + j] == b[j]);
        assert(a.len() + j + 1 == a.len() + (j + 1));
    }
}

proof fn lemma_word_end_behind(a: Seq<char>, b: Seq<char>, j: int)
    requires
        0 <= j,
    ensures
        word_end(a + b, a.len() + j) == a.len() + word_end(b, j),
        j <= b.len() ==> j <= word_end(b, j) <= b.len(),
    decreases b.len() - j,
{
    if j < b.len() {
        assert((a + b)[a.len() + j] == b[j]);
        if is_word(b[j]) {
            lemma_word_end_behind(a, b, j + 1);
            assert(a.len() + j + 1 == a.len() + (j + 1));
        }
    }
}

/// What stands before has no say in how a text is filled in from a place on.
#[verifier::rlimit(40)]
proof fn lemma_filled_behind(a: Seq<char>, b: Seq<char>, j: int, env: SurroundingsV)
    requires
        0 <= j,
    ensures
        filled(a + b, a.len() + j, env) == filled(b, j, env),
    decreases b.len() - j,
{
    let s = a + b;
    let n = a.len() as int;
    if j < b.len() {
        assert(s[n + j] == b[j]);
        if b[j] == '%' {
            lemma_char_from_behind(a, b, '%', j + 1);
            lemma_char_from(b, '%', j + 1);
            match char_from(b, '%', j + 1) {
                Some(k) => {
                    assert(s.subrange(n + j + 1, n + k) =~= b.subrange(j + 1, k));
                    lemma_filled_behind(a, b, k + 1, env);
                },
                None => {
                    assert(s.skip(n + j) =~= b.skip(j));
                },
            }
        } else if b[j] == '$' {
            lemma_char_from_behind(a, b, '}', j + 2);
            lemma_char_from(b, '}', j + 2);
            lemma_word_end_behind(a, b, j + 1);
            let (name, next) = dollar_name(b, j);
            if j + 1 < b.len() {
                assert(s[n + j + 1] == b[j + 1]);
            }
            if j + 1 < b.len() && b[j + 1] == '{' {
                match char_from(b, '}', j + 2) {
                    Some(k) => {
                        assert(s.subrange(n + j + 2, n + k) =~= b.subrange(j + 2, k));
                    },
                    None => {
                        assert(s.skip(n + j + 2) =~= b.skip(j + 2));
                    },
                }
            } else {
                assert(s.subrange(n + j + 1, n + next) =~= b.subrange(j + 1, next));
            }
            assert(dollar_name(s, n + j) == (name, n + next));
            if j < next <= b.len() {
                lemma_filled_behind(a, b, next, env);
            }
        } else {
            lemma_filled_behind(a, b, j + 1, env);
        }
    }
}

proof fn lemma_plain_head(a: Seq<char>, b: Seq<char>, j: int, env: SurroundingsV)
    requires
        0 <= j <= a.len(),
        forall|k: int| 0 <= k < a.len() ==> (#[trigger] a[k]) != '%' && a[k] != '$',
    ensures
        filled(a + b, j, env) == a.skip(j) + filled(b, 0, env),
    decreases a.len() - j,
{
    let s = a + b;
    if j < a.len() {
        lemma_plain_head(a, b, j + 1, env);
        assert(s[j] == a[j]);
        assert(a.skip(j) =~= seq![a[j]] + a.skip(j + 1));
        assert(a.skip(j) + filled(b, 0, env) =~= seq![a[j]] + (a.skip(j + 1) + filled(b, 0, env)));
    } else {
        lemma_filled_behind(a, b, 0, env);
        assert(a.skip(j) + filled(b, 0, env) =~= filled(b, 0, env));
    }
}

/// Wherever a variable stands behind plain text, written `%NAME%` or `${NAME}`, its value stands in
/// its place, nothing where it is not set; what is before it is left, and what is behind it is
/// filled in likewise.
#[verifier::rlimit(40)]
pub proof fn law_variables_are_put_in(before: Seq<char>, name: Seq<char>, rest: Seq<char>, env: SurroundingsV)
    requires
        forall|k: int| 0 <= k < before.len() ==> (#[trigger] before[k]) != '%' && before[k] != '$',
        name.len() > 0,
    ensures
        !name.contains('%') ==> filled(before + (seq!['%'] + name + seq!['%'] + rest), 0, env) == before + env.value(name)
            + filled(rest, 0, env),
        !name.contains('}') ==> filled(before + (seq!['$', '{'] + name + seq!['}'] + rest), 0, env) == before + env.value(
            name,
        ) + filled(rest, 0, env),
        (forall|k: int| 0 <= k < name.len() ==> is_word(#[trigger] name[k])) && (rest.len() == 0 || !is_word(rest[0]))
            && name[0] != '{' ==> filled(before + (seq!['$'] + name + rest), 0, env) == before + env.value(name) + filled(
            rest,
            0,
            env,
        ),
{
    let n = name.len() as int;
    assert(before.skip(0) =~= before);
    if !name.contains('%') {
        let a = seq!['%'] + name + seq!['%'];
        let b = seq!['%'] + name + seq!['%'] + rest;
        lemma_plain_head(before, b, 0, env);
        assert(b =~= a + rest);
        lemma_char_from(b, '%', 1);
        assert(b[n + 1] == '%');
        assert forall|j: int| 1 <= j < n + 1 implies b[j] != '%' by {
            assert(b[j] == name[j - 1]);
        }
        assert(char_from(b, '%', 1) == Some(n + 1));
        assert(b.subrange(1, n + 1) =~= name);
        lemma_filled_behind(a, rest, 0, env);
        assert(before + (env.value(name) + filled(rest, 0, env)) =~= before + env.value(name) + filled(rest, 0, env));
    }
    if !name.contains('}') {
        let a = seq!['$', '{'] + name + seq!['}'];
        let b = seq!['$', '{'] + name + seq!['}'] + rest;
        lemma_plain_head(before, b, 0, env);
        assert(b =~= a + rest);
        lemma_char_from(b, '}', 2);
        assert(b[n + 2] == '}');
        assert(b[0] == '$' && b[1] == '{');
        assert forall|j: int| 2 <= j < n + 2 implies b[j] != '}' by {
            assert(b[j] == name[j - 2]);
        }
        assert(char_from(b, '}', 2) == Some(n + 2));
        assert(b.subrange(2, n + 2) =~= name);
        lemma_filled_behind(a, rest, 0, env);
        assert(before + (env.value(name) + filled(rest, 0, env)) =~= before + env.value(name) + filled(rest, 0, env));
    }
    if (forall|k: int| 0 <= k < name.len() ==> is_word(#[trigger] name[k])) && (rest.len() == 0 || !is_word(rest[0]))
        && name[0] != '{' {
        let a = seq!['$'] + name;
        let b = seq!['$'] + name + rest;
        lemma_plain_head(before, b, 0, env);
        assert(b =~= a + rest);
        lemma_word_to(b, 1, n + 1, name);
        assert(b[0] == '$' && b[1] == name[0]);
        assert(b.subrange(1, n + 1) =~= name);
        lemma_filled_behind(a, rest, 0, env);
        assert(before + (env.value(name) + filled(rest, 0, env)) =~= before + env.value(name) + filled(rest, 0, env));
    }
}

proof fn lemma_word_to(b: Seq<char>, i: int, e: int, name: Seq<char>)
    requires
        1 <= i <= e <= b.len(),
        e == name.len() + 1,
        forall|k: int| 0 <= k < name.len() ==> is_word(#[trigger] name[k]),
        forall|k: int| 1 <= k < e ==> b[k] == name[k - 1],
        e == b.len() || !is_word(b[e]),
    ensures
        word_end(b, i) == e,
    decreases e - i,
{
    if i < e {
        assert(b[i] == name[i - 1]);
        lemma_word_to(b, i + 1, e, name);
    }
}

/// A variable has the value of the first entry of its name; on Windows whatever the case.
pub proof fn law_a_variable_has_its_value(env: SurroundingsV, name: Seq<char>, i: int)
    requires
        0 <= i < env.vars.len(),
        env.vars[i].0 == name || env.windows && alike(env.vars[i].0, name),
        forall|j: int|
            0 <= j < i ==> (#[trigger] env.vars[j]).0 != name && !(env.windows && alike(env.vars[j].0, name)),
    ensures
        env.var(name) == Some(env.vars[i].1),
        env.value(name) == env.vars[i].1,
{
    lemma_paired(env.vars, name, env.windows, 0, i);
}

proof fn lemma_paired(v: Seq<(Seq<char>, Seq<char>)>, name: Seq<char>, any_case: bool, from: int, i: int)
    requires
        0 <= from <= i < v.len(),
        v[i].0 == name || any_case && alike(v[i].0, name),
        forall|j: int| from <= j < i ==> (#[trigger] v[j]).0 != name && !(any_case && alike(v[j].0, name)),
    ensures
        paired_from(v, name, any_case, from) == Some(v[i].1),
    decreases i - from,
{
    if from < i {
        lemma_paired(v, name, any_case, from + 1, i);
    }
}

/// `~` alone is the home directory, and `~/` and more is what is under it.
#[verifier::rlimit(40)]
pub proof fn law_home_is_put_in(home: Seq<char>, rest: Seq<char>, win: bool)
    ensures
        with_home("~"@, Some(home), win) == home,
        with_home("~/"@ + rest, Some(home), win) == under(home, rest, win),
        with_home("~\\"@ + rest, Some(home), win) == under(home, rest, win),
        rest.len() > 0 && rest[0] != '~' ==> with_home(rest, Some(home), win) == rest,
        with_home(rest, None, win) == rest,
{
    reveal_strlit("~");
    reveal_strlit("~/");
    reveal_strlit("~\\");
    reveal_strlit(r"~\");
    let a = "~/"@ + rest;
    let b = "~\\"@ + rest;
    assert("~\\"@ =~= r"~\"@);
    assert(a.subrange(0, 2) =~= "~/"@);
    assert(b.subrange(0, 2) =~= "~\\"@);
    assert(a.take(2) =~= "~/"@);
    assert(b.take(2) =~= "~\\"@);
    assert(a.skip(2) =~= rest);
    assert(b.skip(2) =~= rest);
    if rest.len() > 0 && rest[0] != '~' {
        if begins(rest, "~/"@) {
            assert(rest[0] == "~/"@[0]) by {
                assert(rest.take(2)[0] == rest[0]);
            }
        }
        if begins(rest, r"~\"@) {
            assert(rest[0] == r"~\"@[0]) by {
                assert(rest.take(2)[0] == rest[0]);
            }
        }
    }
}

} // verus!
