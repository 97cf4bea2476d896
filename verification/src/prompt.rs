//! The prompts. Nothing in them depends on the time, so that what every request begins
//! with stays the same for a session.

use crate::text::{
    at, begins, chars_of, dec, dec_u64, holds, join, joined, replace_chars, string_of, strings, with_char,
};
use vstd::prelude::*;
use vstd::string::*;

verus! {

/// What the prompts say of the surroundings.
#[derive(Debug)]
pub struct PromptEnv {
    pub os: String,
    pub shell: String,
    pub cwd: String,
    pub is_git: bool,
    pub languages: Vec<String>,
    pub tool_names: Vec<String>,
    pub has_repo_map: bool,
}

pub struct PromptEnvV {
    pub os: Seq<char>,
    pub shell: Seq<char>,
    pub cwd: Seq<char>,
    pub is_git: bool,
    pub languages: Seq<Seq<char>>,
    pub tool_names: Seq<Seq<char>>,
    pub has_repo_map: bool,
}

impl View for PromptEnv {
    type V = PromptEnvV;

    open spec fn view(&self) -> PromptEnvV {
        PromptEnvV {
            os: self.os@,
            shell: self.shell@,
            cwd: self.cwd@,
            is_git: self.is_git,
            languages: strings(self.languages@),
            tool_names: strings(self.tool_names@),
            has_repo_map: self.has_repo_map,
        }
    }
}

/// How commands are written where the shell is PowerShell.
pub const POWERSHELL: &'static str = "PowerShell 5.1 (use PowerShell syntax; no && or ||, use ; to chain)";

impl PromptEnv {
    /// The surroundings of a project. `os` is the system's name, which is not used on
    /// Windows.
    pub fn detect(
        project_dir: &str,
        is_git: bool,
        windows: bool,
        os: &str,
        tool_names: Vec<String>,
        languages: Vec<String>,
        has_repo_map: bool,
    ) -> (r: PromptEnv)
        ensures
            r@ == (PromptEnvV {
                os: if windows {
                    "Windows 11"@
                } else {
                    os@
                },
                shell: if windows {
                    POWERSHELL@
                } else {
                    "bash"@
                },
                cwd: with_char(project_dir@, seq!['\\'], '/'),
                is_git,
                languages: strings(languages@),
                tool_names: strings(tool_names@),
                has_repo_map,
            }),
    {
        let back = vec!['\\'];
        assert(back@ =~= seq!['\\']);
        PromptEnv {
            os: if windows {
                "Windows 11".to_owned()
            } else {
                os.to_owned()
            },
            shell: if windows {
                POWERSHELL.to_owned()
            } else {
                "bash".to_owned()
            },
            cwd: string_of(&replace_chars(&chars_of(project_dir), &back, '/')),
            is_git,
            languages,
            tool_names,
            has_repo_map,
        }
    }
}

/// A part of the main prompt.
pub const MAIN_OPENING: &'static str = r"You are buzzcode, an expert software engineering agent running locally in the user's terminal. You act by calling tools; the harness executes them and returns results. You never pretend to have run a tool.

# Environment
- OS: ";

/// A part of the main prompt.
pub const MAIN_RULES: &'static str = r#"

# How to work
1. Understand before changing: read the relevant files (read_file, grep, outline, symbol_search) before editing. Do not guess file contents.
2. Make minimal, exact edits with edit_file. `old_string` must match the file text exactly (whitespace included) and be unique; include 3+ surrounding lines so it is unambiguous. Use write_file only for new files or full rewrites.
3. After each edit the harness shows you the edited region and runs the project's checks (compiler/linter). Fix any errors it reports before finishing.
4. Verify: run tests or the relevant command with `shell` when the change is testable.
5. Batch independent read-only calls in one message. Never call a tool you do not need.
6. If the same tool call fails twice, change your approach or ask the user. Do not loop.
7. Keep replies short. Final message = what you changed, where, and how you verified it. Do not restate unchanged code.
"#;

/// A part of the main prompt.
pub const MAIN_FORMAT: &'static str = r#"
# Tool-call format
Use the native tool-call mechanism (one or more calls per message). Arguments must be valid JSON matching the tool's schema. Do not wrap tool calls in prose or markdown.
"#;

/// A part of the main prompt.
pub const MAIN_EXAMPLE: &'static str = r#"
# Example
user: Add a `--verbose` flag to the CLI.
assistant: (calls grep {"pattern":"struct Cli","path":"src"})
tool: src/main.rs:12: pub struct Cli {
assistant: (calls read_file {"path":"src/main.rs","offset":1,"limit":60})
tool: ...file content...
assistant: (calls edit_file {"path":"src/main.rs","old_string":"    #[arg(long)]\n    pub json: bool,\n}","new_string":"    #[arg(long)]\n    pub json: bool,\n\n    /// Verbose output.\n    #[arg(short, long)]\n    pub verbose: bool,\n}"})
tool: OK. Edited src/main.rs lines 20-24. cargo check: ok.
assistant: Added `--verbose`/`-v` to `Cli` in src/main.rs:20. `cargo check` passes."#;

/// A part of the prompt of an explorer.
pub const EXPLORE_OPENING: &'static str = r"You are a read-only code exploration agent. Find and report facts about the repository at ";

/// A part of the prompt of an explorer.
pub const EXPLORE_RULES: &'static str = r"). Use read_file, grep, glob, list_dir, outline and symbol_search. Do not edit anything.
Be efficient: batch read-only calls; stop as soon as you have the answer.
Final message format (plain text, <= 400 words):
FINDINGS: bullet list of facts with file:line references
FILES: the relevant files
NEXT: what the caller should look at or do";

/// A part of the prompt of a planner.
pub const PLAN_RULES: &'static str = r". You may only read (read_file, grep, glob, list_dir, outline, symbol_search, repo_map). Investigate, then call write_plan exactly once with a concrete, minimal plan: ordered steps, each naming the files to touch and how to verify. Include risks and open questions. Do not write code in the plan beyond short signatures.";

/// What is said of the repository map.
pub const MAP_NOTE: &'static str =
    "\n- A ranked repository map follows as the first message; use it to pick files, then read them.";

pub open spec fn map_note(env: PromptEnvV) -> Seq<char> {
    if env.has_repo_map {
        MAP_NOTE@
    } else {
        Seq::empty()
    }
}

pub open spec fn git_word(env: PromptEnvV) -> Seq<char> {
    if env.is_git {
        "yes"@
    } else {
        "no"@
    }
}

pub open spec fn languages_of(env: PromptEnvV) -> Seq<char> {
    if env.languages.len() == 0 {
        "unknown"@
    } else {
        joined(env.languages, ", "@)
    }
}

/// The prompt of the main agent.
pub open spec fn main_prompt(env: PromptEnvV) -> Seq<char> {
    MAIN_OPENING@ + env.os + "\n- Shell for the `shell` tool: "@ + env.shell + "\n- Working directory: "@ + env.cwd
        + "\n- Git repository: "@ + git_word(env) + "\n- Main languages: "@ + languages_of(env)
        + "\n- Available tools: "@ + joined(env.tool_names, ", "@) + map_note(env) + MAIN_RULES@ + MAIN_FORMAT@
        + MAIN_EXAMPLE@
}

/// The prompt of an explorer.
pub open spec fn explore_prompt(env: PromptEnvV) -> Seq<char> {
    EXPLORE_OPENING@ + env.cwd + " ("@ + env.os + EXPLORE_RULES@
}

/// The prompt of a planner.
pub open spec fn plan_prompt(env: PromptEnvV) -> Seq<char> {
    "You are a planning agent for the repository at "@ + env.cwd + PLAN_RULES@
}

pub fn main_system_prompt(env: &PromptEnv) -> (r: String)
    ensures
        r@ == main_prompt(env@),
{
    let langs = if env.languages.len() == 0 {
        "unknown".to_owned()
    } else {
        join(&env.languages, ", ")
    };
    let tools = join(&env.tool_names, ", ");
    let git = if env.is_git {
        "yes"
    } else {
        "no"
    };
    let note = if env.has_repo_map {
        MAP_NOTE
    } else {
        ""
    };
    proof {
        reveal_strlit("");
        assert(""@ =~= Seq::<char>::empty());
    }
    MAIN_OPENING.to_owned().concat(env.os.as_str()).concat("\n- Shell for the `shell` tool: ").concat(
        env.shell.as_str(),
    ).concat("\n- Working directory: ").concat(env.cwd.as_str()).concat("\n- Git repository: ").concat(git).concat(
        "\n- Main languages: ",
    ).concat(langs.as_str()).concat("\n- Available tools: ").concat(tools.as_str()).concat(note).concat(
        MAIN_RULES,
    ).concat(MAIN_FORMAT).concat(MAIN_EXAMPLE)
}

pub fn explore_system_prompt(env: &PromptEnv) -> (r: String)
    ensures
        r@ == explore_prompt(env@),
{
    EXPLORE_OPENING.to_owned().concat(env.cwd.as_str()).concat(" (").concat(env.os.as_str()).concat(EXPLORE_RULES)
}

pub fn plan_system_prompt(env: &PromptEnv) -> (r: String)
    ensures
        r@ == plan_prompt(env@),
{
    "You are a planning agent for the repository at ".to_owned().concat(env.cwd.as_str()).concat(PLAN_RULES)
}

/// What is asked for when the conversation is summarized.
pub fn summarize_prompt(max_tokens: u32) -> (r: String)
    ensures
        r@ == SUMMARIZE@ + dec(max_tokens as nat) + " tokens. No preamble."@,
{
    SUMMARIZE.to_owned().concat(dec_u64(max_tokens as u64).as_str()).concat(" tokens. No preamble.")
}

/// The first part of the request for a summary.
pub const SUMMARIZE: &'static str =
    "Summarize the conversation so far for continuation by the same agent. Include: the user's goals; decisions made; files read/edited with key line ranges; current errors or open problems; exact next steps. Plain text, at most ";

/// The request for a commit message.
pub const COMMIT: &'static str =
    "Write a git commit message for the staged diff below. First line: imperative, <= 72 chars, no trailing period. Then a blank line and 1-4 bullet points if needed. Output only the message.";

pub fn commit_message_prompt() -> (r: &'static str)
    ensures
        r@ == COMMIT@,
{
    COMMIT
}

// ---------------------------------------------------------------- what the main prompt holds

/// What the prompt says where there is a repository map.
pub open spec fn map_phrase() -> Seq<char> {
    "A ranked repository map follows"@
}

/// What it says in a git repository.
pub open spec fn git_phrase() -> Seq<char> {
    "- Git repository: yes"@
}

/// What it says where no language was found.
pub open spec fn no_language_phrase() -> Seq<char> {
    "- Main languages: unknown"@
}

/// Nothing in the surroundings holds a phrase itself.
pub open spec fn silent_on(env: PromptEnvV, p: Seq<char>) -> bool {
    &&& !holds(env.os, p)
    &&& !holds(env.shell, p)
    &&& !holds(env.cwd, p)
    &&& forall|i: int| 0 <= i < env.languages.len() ==> !holds(#[trigger] env.languages[i], p)
    &&& forall|i: int| 0 <= i < env.tool_names.len() ==> !holds(#[trigger] env.tool_names[i], p)
}

/// At a place something else stands than the phrase, whatever follows.
spec fn clashes(s: Seq<char>, p: Seq<char>, k: int) -> bool {
    exists|j: int| 0 <= j < p.len() && k + j < s.len() && s[k + j] != #[trigger] p[j]
}

/// No phrase begins in a text, whatever follows.
spec fn avoids(s: Seq<char>, p: Seq<char>) -> bool {
    forall|k: int| 0 <= k < s.len() ==> #[trigger] clashes(s, p, k)
}

spec fn lacks(p: Seq<char>, c: char) -> bool {
    forall|j: int| 0 <= j < p.len() ==> #[trigger] p[j] != c
}

proof fn lemma_skip(s: Seq<char>, rest: Seq<char>, p: Seq<char>)
    requires
        avoids(s, p),
        holds(s + rest, p),
        p.len() > 0,
    ensures
        holds(rest, p),
{
    let t = s + rest;
    let i = choose|i: int| at(t, i, p);
    let w = t.subrange(i, i + p.len());
    if i < s.len() {
        assert(clashes(s, p, i));
        let j = choose|j: int| 0 <= j < p.len() && i + j < s.len() && s[i + j] != #[trigger] p[j];
        assert(w[j] == t[i + j]);
    } else {
        let k = i - s.len();
        assert(rest.subrange(k, k + p.len()) =~= w);
        assert(at(rest, k, p));
    }
}

proof fn lemma_value(v: Seq<char>, rest: Seq<char>, p: Seq<char>)
    requires
        !holds(v, p),
        rest.len() > 0,
        lacks(p, rest[0]),
        p.len() > 0,
        holds(v + rest, p),
    ensures
        holds(rest, p),
{
    let t = v + rest;
    let i = choose|i: int| at(t, i, p);
    let w = t.subrange(i, i + p.len());
    let n = v.len() as int;
    if i + p.len() <= n {
        assert(v.subrange(i, i + p.len()) =~= w);
        assert(at(v, i, p));
    } else if i < n {
        assert(w[n - i] == t[n]);
        assert(t[n] == rest[0]);
        assert(p[n - i] == rest[0]);
    } else {
        let k = i - n;
        assert(rest.subrange(k, k + p.len()) =~= w);
        assert(at(rest, k, p));
    }
}

proof fn lemma_holds_more(a: Seq<char>, b: Seq<char>, p: Seq<char>)
    requires
        holds(a, p) || holds(b, p),
    ensures
        holds(a + b, p),
{
    let t = a + b;
    if holds(a, p) {
        let i = choose|i: int| at(a, i, p);
        assert(t.subrange(i, i + p.len()) =~= a.subrange(i, i + p.len()));
        assert(at(t, i, p));
    } else {
        let i = choose|i: int| at(b, i, p);
        let k = a.len() + i;
        assert(t.subrange(k, k + p.len()) =~= b.subrange(i, i + p.len()));
        assert(at(t, k, p));
    }
}

proof fn lemma_joined(v: Seq<Seq<char>>, p: Seq<char>)
    requires
        forall|i: int| 0 <= i < v.len() ==> !holds(#[trigger] v[i], p),
        lacks(p, ','),
        p.len() > 0,
        p[0] != ' ',
    ensures
        !holds(joined(v, ", "@), p),
    decreases v.len(),
{
    reveal_strlit(", ");
    let sep = ", "@;
    if v.len() == 0 {
        if holds(joined(v, sep), p) {
            let i = choose|i: int| at(joined(v, sep), i, p);
            assert(false);
        }
    } else if v.len() > 1 {
        let d = v.drop_last();
        assert forall|i: int| 0 <= i < d.len() implies !holds(#[trigger] d[i], p) by {
            assert(d[i] == v[i]);
        }
        lemma_joined(d, p);
        let last = v.last();
        assert(!holds(v[v.len() - 1], p));
        let j = joined(d, sep);
        assert(joined(v, sep) =~= j + (sep + last));
        if holds(j + (sep + last), p) {
            lemma_value(j, sep + last, p);
            assert(sep[0] != p[0] && sep[1] != p[0]) by {
                assert(p[0] != ',');
            }
            assert forall|k: int| 0 <= k < sep.len() implies #[trigger] clashes(sep, p, k) by {
                assert(sep[k + 0] != p[0]);
            }
            lemma_skip(sep, last, p);
        }
    }
}

/// A phrase begins with `A r`, with `- G` or with `- M`, and holds neither the end of a line
/// nor a comma.
spec fn is_phrase(p: Seq<char>) -> bool {
    &&& p.len() >= 3
    &&& p[1] == ' '
    &&& (p[0] == 'A' && p[2] == 'r') || (p[0] == '-' && (p[2] == 'G' || p[2] == 'M'))
    &&& lacks(p, '\n')
    &&& lacks(p, ',')
}

/// No phrase begins at a place.
spec fn bare_at(s: Seq<char>, k: int) -> bool {
    ||| s[k] != 'A' && s[k] != '-'
    ||| k + 1 < s.len() && s[k + 1] != ' '
    ||| k + 2 < s.len() && s[k + 2] != 'r' && s[k + 2] != 'G' && s[k + 2] != 'M'
}

/// No phrase begins from a place on.
spec fn bare(s: Seq<char>, k: int) -> bool
    decreases s.len() - k,
{
    k >= s.len() || (bare_at(s, k) && bare(s, k + 1))
}

proof fn lemma_bare_at(s: Seq<char>, from: int, k: int)
    requires
        bare(s, from),
        from <= k < s.len(),
    ensures
        bare_at(s, k),
    decreases k - from,
{
    if from < k {
        lemma_bare_at(s, from + 1, k);
    }
}

proof fn lemma_bare(s: Seq<char>, p: Seq<char>)
    requires
        bare(s, 0),
        is_phrase(p),
    ensures
        avoids(s, p),
{
    assert forall|k: int| 0 <= k < s.len() implies #[trigger] clashes(s, p, k) by {
        lemma_bare_at(s, 0, k);
        if s[k] != p[0] {
            assert(s[k + 0] != p[0]);
        } else if k + 1 < s.len() && s[k + 1] != p[1] {
        } else {
            assert(s[k + 2] != p[2]);
        }
    }
}

/// The phrase does not begin at a place, by its first three characters.
spec fn free_at(s: Seq<char>, p: Seq<char>, k: int) -> bool {
    ||| s[k] != p[0]
    ||| k + 1 < s.len() && s[k + 1] != p[1]
    ||| k + 2 < s.len() && s[k + 2] != p[2]
}

spec fn free(s: Seq<char>, p: Seq<char>, k: int) -> bool
    decreases s.len() - k,
{
    k >= s.len() || (free_at(s, p, k) && free(s, p, k + 1))
}

proof fn lemma_free_at(s: Seq<char>, p: Seq<char>, from: int, k: int)
    requires
        free(s, p, from),
        from <= k < s.len(),
    ensures
        free_at(s, p, k),
    decreases k - from,
{
    if from < k {
        lemma_free_at(s, p, from + 1, k);
    }
}

proof fn lemma_free(s: Seq<char>, p: Seq<char>)
    requires
        free(s, p, 0),
        is_phrase(p),
    ensures
        avoids(s, p),
{
    assert forall|k: int| 0 <= k < s.len() implies #[trigger] clashes(s, p, k) by {
        lemma_free_at(s, p, 0, k);
        if s[k] != p[0] {
            assert(s[k + 0] != p[0]);
        } else if k + 1 < s.len() && s[k + 1] != p[1] {
        } else {
            assert(s[k + 2] != p[2]);
        }
    }
}

spec fn lacks_from(p: Seq<char>, c: char, k: int) -> bool
    decreases p.len() - k,
{
    k >= p.len() || (p[k] != c && lacks_from(p, c, k + 1))
}

proof fn lemma_lacks(p: Seq<char>, c: char, from: int)
    requires
        lacks_from(p, c, from),
        0 <= from,
    ensures
        forall|j: int| from <= j < p.len() ==> #[trigger] p[j] != c,
    decreases p.len() - from,
{
    if from < p.len() {
        lemma_lacks(p, c, from + 1);
    }
}

proof fn lemma_phrases()
    ensures
        is_phrase(map_phrase()),
        is_phrase(git_phrase()),
        is_phrase(no_language_phrase()),
        map_phrase()[0] == 'A',
        git_phrase()[0] == '-',
        git_phrase()[2] == 'G',
        no_language_phrase()[0] == '-',
        no_language_phrase()[2] == 'M',
{
    reveal_strlit("A ranked repository map follows");
    reveal_strlit("- Git repository: yes");
    reveal_strlit("- Main languages: unknown");
    reveal_with_fuel(lacks_from, 40);
    assert(lacks_from(map_phrase(), '\n', 0));
    assert(lacks_from(map_phrase(), ',', 0));
    assert(lacks_from(git_phrase(), '\n', 0));
    assert(lacks_from(git_phrase(), ',', 0));
    assert(lacks_from(no_language_phrase(), '\n', 0));
    assert(lacks_from(no_language_phrase(), ',', 0));
    lemma_lacks(map_phrase(), '\n', 0);
    lemma_lacks(map_phrase(), ',', 0);
    lemma_lacks(git_phrase(), '\n', 0);
    lemma_lacks(git_phrase(), ',', 0);
    lemma_lacks(no_language_phrase(), '\n', 0);
    lemma_lacks(no_language_phrase(), ',', 0);
}

proof fn lemma_opening_is_bare()
    ensures
        bare(MAIN_OPENING@, 0),
{
    reveal_strlit(
        r"You are buzzcode, an expert software engineering agent running locally in the user's terminal. You act by calling tools; the harness executes them and returns results. You never pretend to have run a tool.

# Environment
- OS: ",
    );
    reveal_with_fuel(bare, 70);
    let s = MAIN_OPENING@;
    assert(bare(s, 180));
    assert(bare(s, 120));
    assert(bare(s, 60));
    assert(bare(s, 0));
}

proof fn lemma_rules_are_bare()
    ensures
        bare(MAIN_RULES@, 0),
        MAIN_RULES@.len() > 0,
        MAIN_RULES@[0] == '\n',
{
    reveal_strlit(
        r#"

# How to work
1. Understand before changing: read the relevant files (read_file, grep, outline, symbol_search) before editing. Do not guess file contents.
2. Make minimal, exact edits with edit_file. `old_string` must match the file text exactly (whitespace included) and be unique; include 3+ surrounding lines so it is unambiguous. Use write_file only for new files or full rewrites.
3. After each edit the harness shows you the edited region and runs the project's checks (compiler/linter). Fix any errors it reports before finishing.
4. Verify: run tests or the relevant command with `shell` when the change is testable.
5. Batch independent read-only calls in one message. Never call a tool you do not need.
6. If the same tool call fails twice, change your approach or ask the user. Do not loop.
7. Keep replies short. Final message = what you changed, where, and how you verified it. Do not restate unchanged code.
"#,
    );
    reveal_with_fuel(bare, 70);
    let s = MAIN_RULES@;
    assert(bare(s, 900));
    assert(bare(s, 840));
    assert(bare(s, 780));
    assert(bare(s, 720));
    assert(bare(s, 660));
    assert(bare(s, 600));
    assert(bare(s, 540));
    assert(bare(s, 480));
    assert(bare(s, 420));
    assert(bare(s, 360));
    assert(bare(s, 300));
    assert(bare(s, 240));
    assert(bare(s, 180));
    assert(bare(s, 120));
    assert(bare(s, 60));
    assert(bare(s, 0));
}

proof fn lemma_format_is_bare()
    ensures
        bare(MAIN_FORMAT@, 0),
{
    reveal_strlit(
        r#"
# Tool-call format
Use the native tool-call mechanism (one or more calls per message). Arguments must be valid JSON matching the tool's schema. Do not wrap tool calls in prose or markdown.
"#,
    );
    reveal_with_fuel(bare, 70);
    let s = MAIN_FORMAT@;
    assert(bare(s, 180));
    assert(bare(s, 120));
    assert(bare(s, 60));
    assert(bare(s, 0));
}

proof fn lemma_example_is_bare()
    ensures
        bare(MAIN_EXAMPLE@, 0),
{
    reveal_strlit(
        r#"
# Example
user: Add a `--verbose` flag to the CLI.
assistant: (calls grep {"pattern":"struct Cli","path":"src"})
tool: src/main.rs:12: pub struct Cli {
assistant: (calls read_file {"path":"src/main.rs","offset":1,"limit":60})
tool: ...file content...
assistant: (calls edit_file {"path":"src/main.rs","old_string":"    #[arg(long)]\n    pub json: bool,\n}","new_string":"    #[arg(long)]\n    pub json: bool,\n\n    /// Verbose output.\n    #[arg(short, long)]\n    pub verbose: bool,\n}"})
tool: OK. Edited src/main.rs lines 20-24. cargo check: ok.
assistant: Added `--verbose`/`-v` to `Cli` in src/main.rs:20. `cargo check` passes."#,
    );
    reveal_with_fuel(bare, 70);
    let s = MAIN_EXAMPLE@;
    assert(bare(s, 600));
    assert(bare(s, 540));
    assert(bare(s, 480));
    assert(bare(s, 420));
    assert(bare(s, 360));
    assert(bare(s, 300));
    assert(bare(s, 240));
    assert(bare(s, 180));
    assert(bare(s, 120));
    assert(bare(s, 60));
    assert(bare(s, 0));
}

proof fn lemma_lines_are_bare()
    ensures
        bare("\n- Shell for the `shell` tool: "@, 0),
        bare("\n- Working directory: "@, 0),
        bare("\n- Available tools: "@, 0),
        bare("unknown"@, 0),
{
    reveal_strlit("\n- Shell for the `shell` tool: ");
    reveal_strlit("\n- Working directory: ");
    reveal_strlit("\n- Available tools: ");
    reveal_strlit("unknown");
    reveal_with_fuel(bare, 40);
}

/// The last parts of the prompt.
spec fn from_rules(env: PromptEnvV) -> Seq<char> {
    map_note(env) + all_rules()
}

spec fn all_rules() -> Seq<char> {
    MAIN_RULES@ + (MAIN_FORMAT@ + MAIN_EXAMPLE@)
}

spec fn from_tools(env: PromptEnvV) -> Seq<char> {
    "\n- Available tools: "@ + (joined(env.tool_names, ", "@) + from_rules(env))
}

spec fn from_languages(env: PromptEnvV) -> Seq<char> {
    "\n- Main languages: "@ + (languages_of(env) + from_tools(env))
}

spec fn from_git(env: PromptEnvV) -> Seq<char> {
    ("\n- Git repository: "@ + git_word(env)) + from_languages(env)
}

proof fn lemma_regroup(a: Seq<char>, b: Seq<char>, c: Seq<char>)
    ensures
        (a + b) + c == a + (b + c),
{
    assert((a + b) + c =~= a + (b + c));
}

/// The prompt, part by part.
proof fn lemma_parts(env: PromptEnvV)
    ensures
        main_prompt(env) == MAIN_OPENING@ + (env.os + ("\n- Shell for the `shell` tool: "@ + (env.shell + (
        "\n- Working directory: "@ + (env.cwd + from_git(env)))))),
{
    let o = MAIN_OPENING@;
    let shell = "\n- Shell for the `shell` tool: "@;
    let dir = "\n- Working directory: "@;
    let git = "\n- Git repository: "@;
    let word = git_word(env);
    let lang = "\n- Main languages: "@;
    let langs = languages_of(env);
    let tool = "\n- Available tools: "@;
    let tools = joined(env.tool_names, ", "@);
    let x1 = o + env.os;
    let x2 = x1 + shell;
    let x3 = x2 + env.shell;
    let x4 = x3 + dir;
    let x5 = x4 + env.cwd;
    let x6 = x5 + git;
    let x7 = x6 + word;
    let x8 = x7 + lang;
    let x9 = x8 + langs;
    let x10 = x9 + tool;
    let x11 = x10 + tools;
    let r5 = from_git(env);
    let r4 = env.cwd + r5;
    let r3 = dir + r4;
    let r2 = env.shell + r3;
    let r1 = shell + r2;
    let x12 = x11 + map_note(env);
    lemma_regroup(x12 + MAIN_RULES@, MAIN_FORMAT@, MAIN_EXAMPLE@);
    lemma_regroup(x12, MAIN_RULES@, MAIN_FORMAT@ + MAIN_EXAMPLE@);
    lemma_regroup(x11, map_note(env), all_rules());
    lemma_regroup(x10, tools, from_rules(env));
    lemma_regroup(x9, tool, tools + from_rules(env));
    lemma_regroup(x8, langs, from_tools(env));
    lemma_regroup(x7, lang, langs + from_tools(env));
    lemma_regroup(x5, git, word);
    lemma_regroup(x5, git + word, from_languages(env));
    lemma_regroup(x4, env.cwd, r5);
    lemma_regroup(x3, dir, r4);
    lemma_regroup(x2, env.shell, r3);
    lemma_regroup(x1, shell, r2);
    lemma_regroup(o, env.os, r1);
}

/// A phrase that the prompt holds stands from the line on the repository on.
proof fn lemma_before_git(env: PromptEnvV, p: Seq<char>)
    requires
        is_phrase(p),
        silent_on(env, p),
        holds(main_prompt(env), p),
    ensures
        holds(from_git(env), p),
{
    let shell = "\n- Shell for the `shell` tool: "@;
    let dir = "\n- Working directory: "@;
    reveal_strlit("\n- Shell for the `shell` tool: ");
    reveal_strlit("\n- Working directory: ");
    reveal_strlit("\n- Git repository: ");
    assert(shell[0] == '\n' && dir[0] == '\n');
    lemma_opening_is_bare();
    lemma_lines_are_bare();
    lemma_bare(MAIN_OPENING@, p);
    lemma_bare(shell, p);
    lemma_bare(dir, p);
    let r5 = from_git(env);
    let r4 = env.cwd + r5;
    let r3 = dir + r4;
    let r2 = env.shell + r3;
    let r1 = shell + r2;
    let r0 = env.os + r1;
    lemma_parts(env);
    lemma_skip(MAIN_OPENING@, r0, p);
    lemma_value(env.os, r1, p);
    lemma_skip(shell, r2, p);
    lemma_value(env.shell, r3, p);
    lemma_skip(dir, r4, p);
    assert(r5[0] == '\n');
    lemma_value(env.cwd, r5, p);
}

/// A phrase that the part from the tools on holds stands behind the tools.
proof fn lemma_behind_tools(env: PromptEnvV, p: Seq<char>)
    requires
        is_phrase(p),
        silent_on(env, p),
        holds(from_tools(env), p),
    ensures
        holds(from_rules(env), p),
{
    reveal_strlit("\n- A ranked repository map follows as the first message; use it to pick files, then read them.");
    lemma_lines_are_bare();
    lemma_rules_are_bare();
    let lit = "\n- Available tools: "@;
    lemma_bare(lit, p);
    let tools = joined(env.tool_names, ", "@);
    let rest = from_rules(env);
    assert(rest[0] == '\n');
    lemma_skip(lit, tools + rest, p);
    lemma_joined(env.tool_names, p);
    lemma_value(tools, rest, p);
}

/// The rules hold no phrase.
proof fn lemma_rules_hold_none(p: Seq<char>)
    requires
        is_phrase(p),
    ensures
        !holds(all_rules(), p),
{
    lemma_rules_are_bare();
    lemma_format_is_bare();
    lemma_example_is_bare();
    lemma_bare(MAIN_RULES@, p);
    lemma_bare(MAIN_FORMAT@, p);
    lemma_bare(MAIN_EXAMPLE@, p);
    if holds(all_rules(), p) {
        let none = Seq::<char>::empty();
        assert(MAIN_EXAMPLE@ + none =~= MAIN_EXAMPLE@);
        lemma_skip(MAIN_RULES@, MAIN_FORMAT@ + MAIN_EXAMPLE@, p);
        lemma_skip(MAIN_FORMAT@, MAIN_EXAMPLE@, p);
        lemma_skip(MAIN_EXAMPLE@, none, p);
        let i = choose|i: int| at(none, i, p);
        assert(false);
    }
}

/// Behind the tools only the phrase on the map is found, and only where there is one.
proof fn lemma_behind_the_rules(env: PromptEnvV, p: Seq<char>)
    requires
        is_phrase(p),
        p[0] == '-' || !env.has_repo_map,
    ensures
        !holds(from_rules(env), p),
{
    lemma_rules_hold_none(p);
    if holds(from_rules(env), p) {
        if env.has_repo_map {
            reveal_strlit("\n- A ranked repository map follows as the first message; use it to pick files, then read them.");
            let s = MAP_NOTE@;
            reveal_with_fuel(free, 60);
            assert(free(s, p, 50));
            assert(free(s, p, 0));
            lemma_free(s, p);
            lemma_skip(s, all_rules(), p);
        } else {
            assert(from_rules(env) =~= all_rules());
        }
    }
}

/// A phrase on something else is not found in the line on the repository.
proof fn lemma_behind_git(env: PromptEnvV, p: Seq<char>)
    requires
        is_phrase(p),
        holds(from_git(env), p),
        p[2] != 'G' || (p == git_phrase() && !env.is_git),
    ensures
        holds(from_languages(env), p),
{
    reveal_strlit("\n- Git repository: ");
    reveal_strlit("yes");
    reveal_strlit("no");
    reveal_strlit("- Git repository: yes");
    let s = "\n- Git repository: "@ + git_word(env);
    reveal_with_fuel(free, 30);
    if p[2] != 'G' {
        assert(free(s, p, 0));
        lemma_free(s, p);
    } else {
        assert(free(s, p, 2));
        assert forall|k: int| 0 <= k < s.len() implies #[trigger] clashes(s, p, k) by {
            if k == 0 {
                assert(s[k + 0] != p[0]);
            } else if k == 1 {
                assert(s[k + 18] != p[18]);
            } else {
                lemma_free_at(s, p, 2, k);
                if s[k] != p[0] {
                    assert(s[k + 0] != p[0]);
                } else if k + 1 < s.len() && s[k + 1] != p[1] {
                } else {
                    assert(s[k + 2] != p[2]);
                }
            }
        }
    }
    lemma_skip(s, from_languages(env), p);
}

/// Nor one in the line on the languages.
proof fn lemma_behind_languages(env: PromptEnvV, p: Seq<char>)
    requires
        is_phrase(p),
        silent_on(env, p),
        holds(from_languages(env), p),
        p[2] != 'M' || (p == no_language_phrase() && env.languages.len() > 0 && !begins(
            joined(env.languages, ", "@),
            "unknown"@,
        )),
    ensures
        holds(from_tools(env), p),
{
    reveal_strlit("\n- Main languages: ");
    reveal_strlit("\n- Available tools: ");
    reveal_strlit("- Main languages: unknown");
    reveal_strlit("unknown");
    let s = "\n- Main languages: "@;
    let v = languages_of(env);
    let rest = from_tools(env);
    assert(rest[0] == '\n');
    reveal_with_fuel(free, 30);
    if p[2] != 'M' {
        assert(free(s, p, 0));
        lemma_free(s, p);
        lemma_skip(s, v + rest, p);
    } else {
        assert(free(s, p, 2));
        let t = s + (v + rest);
        let i = choose|i: int| at(t, i, p);
        let w = t.subrange(i, i + p.len());
        if i == 0 {
            assert(w[0] == t[0]);
        } else if i == 1 {
            let u = "unknown"@;
            if v.len() >= 7 {
                assert(v.subrange(0, 7) =~= u) by {
                    assert forall|k: int| 0 <= k < 7 implies v[k] == u[k] by {
                        assert(w[18 + k] == t[19 + k]);
                        assert(t[19 + k] == v[k]);
                        assert(p[18 + k] == u[k]);
                    }
                }
                assert(begins(v, u));
            } else {
                let k = v.len() as int;
                assert(w[18 + k] == t[19 + k]);
                assert(t[19 + k] == '\n');
                assert(p[18 + k] == '\n');
            }
        } else if i < s.len() {
            lemma_free_at(s, p, 2, i);
            assert(w[0] == t[i] && w[1] == t[i + 1] && w[2] == t[i + 2]);
        } else {
            let k = i - s.len();
            let r = v + rest;
            assert(r.subrange(k, k + p.len()) =~= w);
            assert(at(r, k, p));
        }
    }
    if env.languages.len() == 0 {
        lemma_lines_are_bare();
        lemma_bare(v, p);
        lemma_skip(v, rest, p);
    } else {
        lemma_joined(env.languages, p);
        lemma_value(v, rest, p);
    }
}

/// What the part from the repository on holds, the prompt holds.
proof fn lemma_git_in_prompt(env: PromptEnvV, p: Seq<char>)
    requires
        holds(from_git(env), p),
    ensures
        holds(main_prompt(env), p),
{
    let shell = "\n- Shell for the `shell` tool: "@;
    let dir = "\n- Working directory: "@;
    let r5 = from_git(env);
    let r4 = env.cwd + r5;
    let r3 = dir + r4;
    let r2 = env.shell + r3;
    let r1 = shell + r2;
    let r0 = env.os + r1;
    lemma_parts(env);
    lemma_holds_more(env.cwd, r5, p);
    lemma_holds_more(dir, r4, p);
    lemma_holds_more(env.shell, r3, p);
    lemma_holds_more(shell, r2, p);
    lemma_holds_more(env.os, r1, p);
    lemma_holds_more(MAIN_OPENING@, r0, p);
}

/// What the part from the tools on holds, the prompt holds.
proof fn lemma_tools_in_prompt(env: PromptEnvV, p: Seq<char>)
    requires
        holds(from_tools(env), p),
    ensures
        holds(main_prompt(env), p),
{
    lemma_holds_more(languages_of(env), from_tools(env), p);
    lemma_holds_more("\n- Main languages: "@, languages_of(env) + from_tools(env), p);
    lemma_holds_more("\n- Git repository: "@ + git_word(env), from_languages(env), p);
    lemma_git_in_prompt(env, p);
}

proof fn lemma_map_in_prompt(env: PromptEnvV)
    requires
        env.has_repo_map,
    ensures
        holds(main_prompt(env), map_phrase()),
{
    reveal_strlit("\n- A ranked repository map follows as the first message; use it to pick files, then read them.");
    reveal_strlit("A ranked repository map follows");
    let p = map_phrase();
    assert(MAP_NOTE@.subrange(3, 34) =~= p);
    assert(at(MAP_NOTE@, 3, p));
    let tools = joined(env.tool_names, ", "@);
    lemma_holds_more(MAP_NOTE@, all_rules(), p);
    lemma_holds_more(tools, from_rules(env), p);
    lemma_holds_more("\n- Available tools: "@, tools + from_rules(env), p);
    lemma_tools_in_prompt(env, p);
}

proof fn lemma_git_word_in_prompt(env: PromptEnvV)
    requires
        env.is_git,
    ensures
        holds(main_prompt(env), git_phrase()),
{
    reveal_strlit("\n- Git repository: ");
    reveal_strlit("yes");
    reveal_strlit("- Git repository: yes");
    let line = "\n- Git repository: "@ + git_word(env);
    assert(line.subrange(1, 22) =~= git_phrase());
    assert(at(line, 1, git_phrase()));
    lemma_holds_more(line, from_languages(env), git_phrase());
    lemma_git_in_prompt(env, git_phrase());
}

proof fn lemma_no_language_in_prompt(env: PromptEnvV)
    requires
        env.languages.len() == 0,
    ensures
        holds(main_prompt(env), no_language_phrase()),
{
    reveal_strlit("\n- Main languages: ");
    reveal_strlit("unknown");
    reveal_strlit("- Main languages: unknown");
    let p = no_language_phrase();
    let line = "\n- Main languages: "@ + languages_of(env);
    assert(line.subrange(1, 26) =~= p);
    assert(at(line, 1, p));
    lemma_holds_more(line, from_tools(env), p);
    lemma_regroup("\n- Main languages: "@, languages_of(env), from_tools(env));
    lemma_holds_more("\n- Git repository: "@ + git_word(env), from_languages(env), p);
    lemma_git_in_prompt(env, p);
}

/// The main prompt speaks of the repository map exactly where there is one, calls the
/// directory a git repository exactly where it is one, and calls the languages unknown
/// exactly where there are none; and it holds the names of the tools. Left out are
/// surroundings that hold such a phrase themselves, and languages of which the first begins
/// with `unknown`.
pub proof fn law_main_prompt_says_what_there_is(env: PromptEnvV)
    requires
        silent_on(env, map_phrase()),
        silent_on(env, git_phrase()),
        silent_on(env, no_language_phrase()),
        env.languages.len() > 0 ==> !begins(joined(env.languages, ", "@), "unknown"@),
    ensures
        holds(main_prompt(env), map_phrase()) <==> env.has_repo_map,
        holds(main_prompt(env), git_phrase()) <==> env.is_git,
        holds(main_prompt(env), no_language_phrase()) <==> env.languages.len() == 0,
        holds(main_prompt(env), joined(env.tool_names, ", "@)),
{
    lemma_phrases();
    let whole = main_prompt(env);
    let tools = joined(env.tool_names, ", "@);
    assert(tools.subrange(0, tools.len() as int) =~= tools);
    assert(at(tools, 0, tools));
    lemma_holds_more(tools, from_rules(env), tools);
    lemma_holds_more("\n- Available tools: "@, tools + from_rules(env), tools);
    lemma_tools_in_prompt(env, tools);
    if env.has_repo_map {
        lemma_map_in_prompt(env);
    } else if holds(whole, map_phrase()) {
        lemma_before_git(env, map_phrase());
        lemma_behind_git(env, map_phrase());
        lemma_behind_languages(env, map_phrase());
        lemma_behind_tools(env, map_phrase());
        lemma_behind_the_rules(env, map_phrase());
    }
    if env.is_git {
        lemma_git_word_in_prompt(env);
    } else if holds(whole, git_phrase()) {
        lemma_before_git(env, git_phrase());
        lemma_behind_git(env, git_phrase());
        lemma_behind_languages(env, git_phrase());
        lemma_behind_tools(env, git_phrase());
        lemma_behind_the_rules(env, git_phrase());
    }
    if env.languages.len() == 0 {
        lemma_no_language_in_prompt(env);
    } else if holds(whole, no_language_phrase()) {
        lemma_before_git(env, no_language_phrase());
        lemma_behind_git(env, no_language_phrase());
        lemma_behind_languages(env, no_language_phrase());
        lemma_behind_tools(env, no_language_phrase());
        lemma_behind_the_rules(env, no_language_phrase());
    }
}

} // verus!
