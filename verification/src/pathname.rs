//! Paths as text: the parts of one, its last part, and how two are joined and compared, on
//! Windows and elsewhere.
//!
//! The parts stand between slashes, on Windows between backslashes too. There a path can
//! begin with a drive (`C:`) or with the server and the name of a share (`\\host\files`).

use crate::text::{chars_of, lower, replace_chars, str_eq, string_of, string_of_range, to_lower, with_char};
use vstd::prelude::*;
use vstd::string::*;

verus! {

pub open spec fn is_letter(c: char) -> bool {
    'a' <= c <= 'z' || 'A' <= c <= 'Z'
}

/// A character stands between parts.
pub open spec fn parts_at(win: bool, c: char) -> bool {
    c == '/' || (win && c == '\\')
}

/// Where the part at `i` ends.
pub open spec fn part_end(p: Seq<char>, win: bool, i: nat) -> nat
    decreases p.len() - i,
{
    if i < p.len() && !parts_at(win, p[i as int]) {
        part_end(p, win, i + 1)
    } else {
        i
    }
}

/// A path begins with a drive.
pub open spec fn on_drive(p: Seq<char>, win: bool) -> bool {
    win && p.len() >= 2 && is_letter(p[0]) && p[1] == ':'
}

/// Where the name of the share ends that a path begins with, behind two separators and that
/// of the server; zero where it begins with none.
pub open spec fn share_len(p: Seq<char>, win: bool) -> nat {
    if win && p.len() >= 2 && parts_at(win, p[0]) && parts_at(win, p[1]) {
        let server = part_end(p, win, 2);
        let share = part_end(p, win, server + 1);
        if server > 2 && share > server + 1 && share <= p.len() {
            share
        } else {
            0
        }
    } else {
        0
    }
}

/// The length of the drive or the share that a path begins with.
pub open spec fn prefix_len(p: Seq<char>, win: bool) -> nat {
    if on_drive(p, win) {
        2
    } else {
        share_len(p, win)
    }
}

/// The length of what stands before the parts: a drive or a share, and the root.
pub open spec fn start_len(p: Seq<char>, win: bool) -> nat {
    let k = prefix_len(p, win);
    if k < p.len() && parts_at(win, p[k as int]) {
        k + 1
    } else {
        k
    }
}

/// A path begins at a root: that of its drive or share, or of the current one.
pub open spec fn has_root(p: Seq<char>, win: bool) -> bool {
    start_len(p, win) > prefix_len(p, win) || share_len(p, win) > 0
}

/// What is left of the first `n` characters without the separators and the `.` parts at
/// their end. The first `least` always stay.
pub open spec fn kept(p: Seq<char>, win: bool, least: nat, n: nat) -> nat
    decreases n,
{
    if n > least && (parts_at(win, p[n - 1]) || (p[n - 1] == '.' && n >= 2 && parts_at(win, p[n - 2]))) {
        kept(p, win, least, (n - 1) as nat)
    } else {
        n
    }
}

/// Where the last part of the first `n` characters begins, behind the first `least`.
pub open spec fn part_start(p: Seq<char>, win: bool, least: nat, n: nat) -> nat
    decreases n,
{
    if n <= least || parts_at(win, p[n - 1]) {
        n
    } else {
        part_start(p, win, least, (n - 1) as nat)
    }
}

/// Where a path ends, and where its last part begins.
pub open spec fn end_of(p: Seq<char>, win: bool) -> nat {
    kept(p, win, start_len(p, win), p.len())
}

pub open spec fn last_start(p: Seq<char>, win: bool) -> nat {
    part_start(p, win, start_len(p, win), end_of(p, win))
}

/// The last part of a path; empty where there is none: in a root, and where the path leads
/// up or nowhere.
pub open spec fn base_name(p: Seq<char>, win: bool) -> Seq<char> {
    let s = p.subrange(last_start(p, win) as int, end_of(p, win) as int);
    if s == seq!['.'] || s == seq!['.', '.'] {
        Seq::empty()
    } else {
        s
    }
}

/// A path under a directory. One with a drive or a share stands for itself, and so does,
/// elsewhere than on Windows, an absolute one; on Windows that keeps the drive or the share.
pub open spec fn under(dir: Seq<char>, path: Seq<char>, win: bool) -> Seq<char> {
    if prefix_len(path, win) > 0 {
        path
    } else if has_root(path, win) {
        dir.take(prefix_len(dir, win) as int) + path
    } else {
        within(dir, path, win)
    }
}

/// Parts added to those of a directory. Behind a drive alone nothing separates them.
pub open spec fn within(dir: Seq<char>, path: Seq<char>, win: bool) -> Seq<char> {
    if dir.len() == 0 || parts_at(win, dir.last()) || (on_drive(dir, win) && dir.len() == 2) {
        dir + path
    } else if win {
        dir + "\\"@ + path
    } else {
        dir + "/"@ + path
    }
}

/// The directory of the last part of a path.
pub open spec fn dir_of(p: Seq<char>, win: bool) -> Seq<char> {
    p.take(kept(p, win, start_len(p, win), last_start(p, win)) as int)
}

/// A path with another last part.
pub open spec fn with_name(p: Seq<char>, name: Seq<char>, win: bool) -> Seq<char> {
    under(
        if base_name(p, win).len() > 0 {
            dir_of(p, win)
        } else {
            p
        },
        name,
        win,
    )
}

proof fn lemma_part_end(p: Seq<char>, win: bool, i: nat)
    requires
        i <= p.len(),
    ensures
        i <= part_end(p, win, i) <= p.len(),
        part_end(p, win, i) < p.len() ==> parts_at(win, p[part_end(p, win, i) as int]),
    decreases p.len() - i,
{
    if i < p.len() && !parts_at(win, p[i as int]) {
        lemma_part_end(p, win, i + 1);
    }
}

/// What stands before the parts is there, and ends with a separator or is a drive or a share
/// alone, or nothing.
proof fn lemma_start(p: Seq<char>, win: bool)
    ensures
        prefix_len(p, win) <= start_len(p, win) <= p.len(),
        prefix_len(p, win) < start_len(p, win) ==> parts_at(win, p[start_len(p, win) - 1]),
        share_len(p, win) > 0 ==> share_len(p, win) >= 5 && !on_drive(p, win),
        share_len(p, win) > 0 && share_len(p, win) < p.len() ==> start_len(p, win) == share_len(p, win) + 1,
        !win ==> prefix_len(p, win) == 0,
{
    if win && p.len() >= 2 {
        lemma_part_end(p, win, 2);
        let server = part_end(p, win, 2);
        if server < p.len() {
            lemma_part_end(p, win, server + 1);
        }
    }
}

proof fn lemma_kept(p: Seq<char>, win: bool, least: nat, n: nat)
    ensures
        kept(p, win, least, n) <= n,
        n >= least ==> kept(p, win, least, n) >= least,
        kept(p, win, least, kept(p, win, least, n)) == kept(p, win, least, n),
    decreases n,
{
    if n > least && (parts_at(win, p[n - 1]) || (p[n - 1] == '.' && n >= 2 && parts_at(win, p[n - 2]))) {
        lemma_kept(p, win, least, (n - 1) as nat);
    }
}

proof fn lemma_part_start(p: Seq<char>, win: bool, least: nat, n: nat)
    requires
        least <= n,
    ensures
        least <= part_start(p, win, least, n) <= n,
        forall|i: int| part_start(p, win, least, n) <= i < n ==> !parts_at(win, #[trigger] p[i]),
    decreases n,
{
    if n > least && !parts_at(win, p[n - 1]) {
        lemma_part_start(p, win, least, (n - 1) as nat);
    }
}

/// The last part starts where nothing separates any more.
proof fn lemma_part_start_at(p: Seq<char>, win: bool, least: nat, n: nat, s: nat)
    requires
        least <= s <= n,
        s > least ==> parts_at(win, p[s - 1]),
        forall|i: int| s <= i < n ==> !parts_at(win, #[trigger] p[i]),
    ensures
        part_start(p, win, least, n) == s,
    decreases n,
{
    if n > s {
        assert(!parts_at(win, p[n - 1]));
        lemma_part_start_at(p, win, least, (n - 1) as nat, s);
    }
}

/// What is kept depends on the characters before alone.
proof fn lemma_kept_same(p: Seq<char>, q: Seq<char>, win: bool, least: nat, n: nat)
    requires
        n <= p.len(),
        n <= q.len(),
        p.take(n as int) == q.take(n as int),
    ensures
        kept(p, win, least, n) == kept(q, win, least, n),
    decreases n,
{
    if n > 0 {
        assert(p[n - 1] == p.take(n as int)[n - 1]);
        assert(q[n - 1] == q.take(n as int)[n - 1]);
        if n >= 2 {
            assert(p[n - 2] == p.take(n as int)[n - 2]);
            assert(q[n - 2] == q.take(n as int)[n - 2]);
        }
        assert(p.take(n - 1) =~= p.take(n as int).take(n - 1));
        assert(q.take(n - 1) =~= q.take(n as int).take(n - 1));
        lemma_kept_same(p, q, win, least, (n - 1) as nat);
    }
}

pub proof fn lemma_base_name(p: Seq<char>, win: bool)
    ensures
        start_len(p, win) <= last_start(p, win) <= end_of(p, win) <= p.len(),
        base_name(p, win).len() <= p.len(),
        forall|i: int| 0 <= i < base_name(p, win).len() ==> !parts_at(win, #[trigger] base_name(p, win)[i]),
{
    let r = start_len(p, win);
    lemma_start(p, win);
    lemma_kept(p, win, r, p.len());
    let n = end_of(p, win);
    lemma_part_start(p, win, r, n);
    let k = last_start(p, win);
    let s = p.subrange(k as int, n as int);
    assert forall|i: int| 0 <= i < s.len() implies !parts_at(win, #[trigger] s[i]) by {
        assert(s[i] == p[k + i]);
    }
}

/// A part that can stand at the end of a path.
pub open spec fn is_part(win: bool, name: Seq<char>) -> bool {
    &&& name.len() > 0
    &&& forall|i: int| 0 <= i < name.len() ==> !parts_at(win, #[trigger] name[i])
    &&& name != seq!['.']
    &&& name != seq!['.', '.']
}

proof fn lemma_dir_of(p: Seq<char>, win: bool)
    ensures
        start_len(p, win) <= dir_of(p, win).len() <= last_start(p, win) <= p.len(),
        dir_of(p, win) == p.take(dir_of(p, win).len() as int),
        kept(p, win, start_len(p, win), dir_of(p, win).len()) == dir_of(p, win).len(),
{
    let r = start_len(p, win);
    lemma_base_name(p, win);
    lemma_kept(p, win, r, last_start(p, win));
}

proof fn lemma_within(d: Seq<char>, name: Seq<char>, win: bool)
    ensures
        ({
            let q = within(d, name, win);
            let s = q.len() - name.len();
            let m = d.len();
            &&& q.take(m as int) == d
            &&& q.skip(s) == name
            &&& s == m || (s == m + 1 && parts_at(win, q[m as int]))
            &&& s == m ==> m == 0 || parts_at(win, q[m - 1]) || (on_drive(d, win) && m == 2)
            &&& s == m + 1 ==> m > 0 && !parts_at(win, d.last()) && !(on_drive(d, win) && m == 2)
        }),
{
    reveal_strlit("/");
    reveal_strlit("\\");
    let q = within(d, name, win);
    assert(q.take(d.len() as int) =~= d);
    assert(q.skip(q.len() - name.len()) =~= name);
    if d.len() > 0 {
        assert(q[d.len() - 1] == d.last());
    }
}

/// A name without separators that is not read as a drive goes into the directory.
proof fn lemma_goes_into(p: Seq<char>, name: Seq<char>, win: bool)
    requires
        base_name(p, win).len() > 0,
        is_part(win, name),
        prefix_len(name, win) == 0,
    ensures
        with_name(p, name, win) == within(dir_of(p, win), name, win),
{
    assert(!parts_at(win, name[0]));
    assert(share_len(name, win) == 0);
}

/// Replacing the last part gives a path with that part, in the same directory, where the
/// path keeps its drive or its share.
pub proof fn lemma_with_name(p: Seq<char>, name: Seq<char>, win: bool)
    requires
        base_name(p, win).len() > 0,
        is_part(win, name),
        prefix_len(name, win) == 0,
        prefix_len(with_name(p, name, win), win) == prefix_len(p, win),
    ensures
        base_name(with_name(p, name, win), win) == name,
        dir_of(with_name(p, name, win), win) == dir_of(p, win),
{
    lemma_base_name(p, win);
    lemma_dir_of(p, win);
    lemma_start(p, win);
    lemma_goes_into(p, name, win);
    let r = start_len(p, win);
    let d = dir_of(p, win);
    let m = d.len();
    let q = with_name(p, name, win);
    lemma_start(q, win);
    lemma_within(d, name, win);
    let s = (q.len() - name.len()) as nat;
    assert forall|i: int| s <= i < q.len() implies !parts_at(win, #[trigger] q[i]) by {
        assert(q[i] == q.skip(s as int)[i - s]);
    }
    assert forall|i: int| 0 <= i < m implies #[trigger] q[i] == p[i] by {
        assert(q.take(m as int)[i] == d[i]);
    }
    let k = prefix_len(p, win);
    assert(start_len(q, win) == r) by {
        if k == m {
            if share_len(p, win) > 0 {
                assert(k < p.len());
                assert(r == k + 1);
            } else if k == 2 {
                assert(on_drive(p, win));
                assert(d[0] == p[0] && d[1] == p[1]);
                assert(on_drive(d, win));
            }
            assert(s == m);
        } else {
            assert(q[k as int] == p[k as int]);
        }
    }
    let l = q.len();
    assert(kept(q, win, r, l) == l) by {
        assert(!parts_at(win, q[l - 1]));
        if q[l - 1] == '.' && l >= 2 && parts_at(win, q[l - 2]) {
            assert(name.len() == 1);
            assert(q.skip(s as int)[0] == '.');
            assert(name =~= seq!['.']);
        }
    }
    assert(s > r ==> parts_at(win, q[s - 1])) by {
        if s == m && m > r {
            assert(kept(p, win, r, m) == m);
            assert(!parts_at(win, p[m - 1])) by {
                if parts_at(win, p[m - 1]) {
                    lemma_kept(p, win, r, (m - 1) as nat);
                }
            }
            assert(q[m - 1] == p[m - 1]);
            assert(on_drive(d, win) && m == 2);
            assert(d[0] == p[0] && d[1] == p[1]);
            assert(r >= 2);
        }
    }
    lemma_part_start_at(q, win, r, l, s);
    assert(q.subrange(s as int, l as int) =~= name);
    lemma_kept_same(p, q, win, r, m);
    if s == m {
        assert(kept(q, win, r, s) == m);
    } else {
        assert(s == m + 1);
        assert(kept(q, win, r, s) == kept(q, win, r, m));
    }
}

// ---------------------------------------------------------------- the functions

fn letter(c: char) -> (r: bool)
    ensures
        r == is_letter(c),
{
    ('a' <= c && c <= 'z') || ('A' <= c && c <= 'Z')
}

fn separates(win: bool, c: char) -> (r: bool)
    ensures
        r == parts_at(win, c),
{
    c == '/' || (win && c == '\\')
}

fn end_from(cs: &Vec<char>, win: bool, from: usize) -> (r: usize)
    requires
        from <= cs.len(),
    ensures
        r == part_end(cs@, win, from as nat),
        from <= r <= cs.len(),
{
    let mut i: usize = from;
    while i < cs.len() && !separates(win, cs[i])
        invariant
            from <= i <= cs.len(),
            part_end(cs@, win, from as nat) == part_end(cs@, win, i as nat),
        decreases cs.len() - i,
    {
        i += 1;
    }
    i
}

fn drive_first(cs: &Vec<char>, win: bool) -> (r: bool)
    ensures
        r == on_drive(cs@, win),
{
    win && cs.len() >= 2 && letter(cs[0]) && cs[1] == ':'
}

fn share_first(cs: &Vec<char>, win: bool) -> (r: usize)
    ensures
        r == share_len(cs@, win),
        r <= cs.len(),
{
    if !(win && cs.len() >= 2 && separates(win, cs[0]) && separates(win, cs[1])) {
        return 0;
    }
    let server: usize = end_from(cs, win, 2);
    if server == 2 || server >= cs.len() {
        assert(server >= cs.len() ==> part_end(cs@, win, (server + 1) as nat) == server + 1);
        return 0;
    }
    let share: usize = end_from(cs, win, server + 1);
    if share > server + 1 {
        share
    } else {
        0
    }
}

/// The lengths of the drive or share and of all that stands before the parts.
fn starts(cs: &Vec<char>, win: bool) -> (r: (usize, usize))
    ensures
        r.0 == prefix_len(cs@, win),
        r.1 == start_len(cs@, win),
        r.0 <= r.1 <= cs.len(),
{
    let k: usize = if drive_first(cs, win) {
        2
    } else {
        share_first(cs, win)
    };
    if k < cs.len() && separates(win, cs[k]) {
        (k, k + 1)
    } else {
        (k, k)
    }
}

fn keep(cs: &Vec<char>, win: bool, least: usize, from: usize) -> (r: usize)
    requires
        from <= cs.len(),
    ensures
        r == kept(cs@, win, least as nat, from as nat),
        r <= from,
{
    let mut n: usize = from;
    while n > least && (separates(win, cs[n - 1]) || (cs[n - 1] == '.' && n >= 2 && separates(win, cs[n - 2])))
        invariant
            n <= from <= cs.len(),
            kept(cs@, win, least as nat, from as nat) == kept(cs@, win, least as nat, n as nat),
        decreases n,
    {
        n -= 1;
    }
    n
}

fn start_before(cs: &Vec<char>, win: bool, least: usize, from: usize) -> (r: usize)
    requires
        from <= cs.len(),
    ensures
        r == part_start(cs@, win, least as nat, from as nat),
        r <= from,
{
    let mut n: usize = from;
    while n > least && !separates(win, cs[n - 1])
        invariant
            n <= from <= cs.len(),
            part_start(cs@, win, least as nat, from as nat) == part_start(cs@, win, least as nat, n as nat),
        decreases n,
    {
        n -= 1;
    }
    n
}

/// The last part of a path.
pub fn file_name(path: &str, windows: bool) -> (r: String)
    ensures
        r@ == base_name(path@, windows),
{
    let cs = chars_of(path);
    let (_, least) = starts(&cs, windows);
    let n: usize = keep(&cs, windows, least, cs.len());
    let k: usize = start_before(&cs, windows, least, n);
    let r = string_of_range(&cs, k, n);
    let dots = (n - k == 1 && cs[k] == '.') || (n - k == 2 && cs[k] == '.' && cs[k + 1] == '.');
    proof {
        if n - k == 1 && cs[k as int] == '.' {
            assert(r@ =~= seq!['.']);
        }
        if n - k == 2 && cs[k as int] == '.' && cs[k + 1] == '.' {
            assert(r@ =~= seq!['.', '.']);
        }
        if r@ == seq!['.'] {
            assert(r@.len() == 1 && r@[0] == '.');
        }
        if r@ == seq!['.', '.'] {
            assert(r@.len() == 2 && r@[0] == '.' && r@[1] == '.');
        }
    }
    if dots {
        let none = String::new();
        assert(none@ =~= Seq::empty());
        none
    } else {
        r
    }
}

pub fn join_path(dir: &str, path: &str, windows: bool) -> (r: String)
    ensures
        r@ == under(dir@, path@, windows),
{
    let (prefix, start) = starts(&chars_of(path), windows);
    proof {
        lemma_start(path@, windows);
    }
    if prefix > 0 {
        path.to_owned()
    } else if start > 0 {
        let cs = chars_of(dir);
        let (n, _) = starts(&cs, windows);
        let kept_part = string_of_range(&cs, 0, n);
        assert(kept_part@ =~= dir@.take(n as int));
        kept_part.concat(path)
    } else {
        join_parts(dir, path, windows)
    }
}

fn join_parts(dir: &str, path: &str, win: bool) -> (r: String)
    ensures
        r@ == within(dir@, path@, win),
{
    let cs = chars_of(dir);
    if cs.len() == 0 || separates(win, cs[cs.len() - 1]) || (cs.len() == 2 && drive_first(&cs, win)) {
        dir.to_owned().concat(path)
    } else if win {
        dir.to_owned().concat("\\").concat(path)
    } else {
        dir.to_owned().concat("/").concat(path)
    }
}

/// The path with another last part.
pub fn with_file_name(path: &str, name: &str, windows: bool) -> (r: String)
    ensures
        r@ == with_name(path@, name@, windows),
{
    let own = file_name(path, windows);
    if chars_of(own.as_str()).len() == 0 {
        return join_path(path, name, windows);
    }
    let cs = chars_of(path);
    let (_, least) = starts(&cs, windows);
    let n: usize = keep(&cs, windows, least, cs.len());
    let k: usize = start_before(&cs, windows, least, n);
    let m: usize = keep(&cs, windows, least, k);
    let dir = string_of_range(&cs, 0, m);
    assert(dir@ =~= dir_of(path@, windows));
    join_path(dir.as_str(), name, windows)
}

/// The path without the separators and the `.` parts at its end.
pub fn without_end(path: &str, windows: bool) -> (r: String)
    ensures
        r@ == path@.take(end_of(path@, windows) as int),
{
    let cs = chars_of(path);
    let (_, least) = starts(&cs, windows);
    let n: usize = keep(&cs, windows, least, cs.len());
    let r = string_of_range(&cs, 0, n);
    assert(r@ =~= path@.take(n as int));
    r
}

// ---------------------------------------------------------------- one path below another

/// Where the next part begins: separators and `.` parts are passed over.
pub open spec fn next_part(p: Seq<char>, win: bool, i: nat) -> nat
    decreases p.len() - i,
{
    if i < p.len() && (parts_at(win, p[i as int]) || (p[i as int] == '.' && (i + 1 == p.len() || parts_at(
        win,
        p[i as int + 1],
    )))) {
        next_part(p, win, i + 1)
    } else {
        i
    }
}

/// Where the rest begins after the parts of `dir` from `i` on, which `p` has from `j` on.
pub open spec fn rest_after(dir: Seq<char>, p: Seq<char>, win: bool, i: nat, j: nat) -> Option<nat>
    decreases p.len() - j,
{
    let a = part_end(dir, win, i);
    let b = part_end(p, win, j);
    let next = next_part(p, win, b);
    if i >= dir.len() {
        Some(j)
    } else if j < next <= p.len() && dir.subrange(i as int, a as int) == p.subrange(j as int, b as int) {
        rest_after(dir, p, win, next_part(dir, win, a), next)
    } else {
        None
    }
}

/// Two paths are on the same drive, or on none, and both have a root or neither.
pub open spec fn same_start(dir: Seq<char>, p: Seq<char>, win: bool) -> bool {
    &&& on_drive(dir, win) == on_drive(p, win)
    &&& on_drive(p, win) ==> lower(dir[0]) == lower(p[0])
    &&& (share_len(dir, win) > 0) == (share_len(p, win) > 0)
    &&& has_root(dir, win) == has_root(p, win)
}

/// Where the parts of a path begin that are compared: those of the share are.
pub open spec fn first_part(p: Seq<char>, win: bool) -> nat {
    if share_len(p, win) > 0 {
        2
    } else if has_root(p, win) {
        next_part(p, win, start_len(p, win))
    } else {
        prefix_len(p, win)
    }
}

/// Where the rest of a path begins after a directory that it lies in.
pub open spec fn rest_from(dir: Seq<char>, p: Seq<char>, win: bool) -> Option<nat> {
    if same_start(dir, p, win) {
        rest_after(dir, p, win, first_part(dir, win), first_part(p, win))
    } else {
        None
    }
}

/// The path below a directory, with forward slashes; one that is not below it stands for
/// itself.
pub open spec fn below(dir: Seq<char>, p: Seq<char>, win: bool) -> Seq<char> {
    with_char(
        match rest_from(dir, p, win) {
            Some(j) => p.subrange(j as int, kept(p, win, j, p.len()) as int),
            None => p,
        },
        seq!['\\'],
        '/',
    )
}

fn next_from(cs: &Vec<char>, win: bool, from: usize) -> (r: usize)
    requires
        from <= cs.len(),
    ensures
        r == next_part(cs@, win, from as nat),
        from <= r <= cs.len(),
{
    let mut i: usize = from;
    while i < cs.len() && (separates(win, cs[i]) || (cs[i] == '.' && (i + 1 == cs.len() || separates(win, cs[i + 1]))))
        invariant
            from <= i <= cs.len(),
            next_part(cs@, win, from as nat) == next_part(cs@, win, i as nat),
        decreases cs.len() - i,
    {
        i += 1;
    }
    i
}

fn same_range(a: &Vec<char>, i: usize, to_a: usize, b: &Vec<char>, j: usize, to_b: usize) -> (r: bool)
    requires
        i <= to_a <= a.len(),
        j <= to_b <= b.len(),
    ensures
        r == (a@.subrange(i as int, to_a as int) == b@.subrange(j as int, to_b as int)),
{
    let ghost x = a@.subrange(i as int, to_a as int);
    let ghost y = b@.subrange(j as int, to_b as int);
    if to_a - i != to_b - j {
        assert(x.len() != y.len());
        return false;
    }
    let mut k: usize = 0;
    while k < to_a - i
        invariant
            i <= to_a <= a.len(),
            j <= to_b <= b.len(),
            to_a - i == to_b - j,
            k <= to_a - i,
            x == a@.subrange(i as int, to_a as int),
            y == b@.subrange(j as int, to_b as int),
            forall|m: int| 0 <= m < k ==> x[m] == y[m],
        decreases to_a - i - k,
    {
        if a[i + k] != b[j + k] {
            assert(x[k as int] != y[k as int]);
            return false;
        }
        k += 1;
    }
    assert(x =~= y);
    true
}

fn first_of_parts(cs: &Vec<char>, win: bool) -> (r: usize)
    ensures
        r == first_part(cs@, win),
        r <= cs.len(),
{
    if share_first(cs, win) > 0 {
        return 2;
    }
    let (prefix, start) = starts(cs, win);
    if start > prefix {
        next_from(cs, win, start)
    } else {
        prefix
    }
}

fn start_alike(dir: &Vec<char>, p: &Vec<char>, win: bool) -> (r: bool)
    ensures
        r == same_start(dir@, p@, win),
{
    let drive = drive_first(p, win);
    let (a, b) = (share_first(dir, win) > 0, share_first(p, win) > 0);
    let (dp, ds) = starts(dir, win);
    let (pp, ps) = starts(p, win);
    drive_first(dir, win) == drive && (!drive || to_lower(dir[0]) == to_lower(p[0])) && a == b && (ds > dp || a) == (
    ps > pp || b)
}

fn find_rest(dir: &Vec<char>, p: &Vec<char>, win: bool) -> (r: Option<usize>)
    ensures
        match r {
            Some(j) => rest_from(dir@, p@, win) == Some(j as nat) && j <= p.len(),
            None => rest_from(dir@, p@, win) is None,
        },
{
    if !start_alike(dir, p, win) {
        return None;
    }
    let mut i: usize = first_of_parts(dir, win);
    let mut j: usize = first_of_parts(p, win);
    while i < dir.len()
        invariant
            i <= dir.len(),
            j <= p.len(),
            rest_from(dir@, p@, win) == rest_after(dir@, p@, win, i as nat, j as nat),
        decreases dir.len() - i, p.len() - j,
    {
        let a: usize = end_from(dir, win, i);
        let b: usize = end_from(p, win, j);
        let next: usize = next_from(p, win, b);
        if j >= next || !same_range(dir, i, a, p, j, b) {
            return None;
        }
        i = next_from(dir, win, a);
        j = next;
    }
    Some(j)
}

pub fn path_below(dir: &str, path: &str, windows: bool) -> (r: String)
    ensures
        r@ == below(dir@, path@, windows),
{
    let cs = chars_of(path);
    let rest: Vec<char> = match find_rest(&chars_of(dir), &cs, windows) {
        Some(j) => {
            proof {
                lemma_kept(cs@, windows, j as nat, cs@.len());
            }
            let n: usize = keep(&cs, windows, j, cs.len());
            chars_of(string_of_range(&cs, j, n).as_str())
        },
        None => cs,
    };
    let back = vec!['\\'];
    assert(back@ =~= seq!['\\']);
    string_of(&replace_chars(&rest, &back, '/'))
}

// ---------------------------------------------------------------- the order of paths

/// A part of a path in its key: the current directory comes before the one above, and that
/// before any name.
pub open spec fn part_key(s: Seq<char>) -> Seq<char> {
    if s == seq!['.'] {
        seq!['\u{2}', '\0']
    } else if s == seq!['.', '.'] {
        seq!['\u{3}', '\0']
    } else {
        seq!['\u{4}'] + s + seq!['\0']
    }
}

/// The parts of a path from a place on, in its key.
pub open spec fn parts_key(p: Seq<char>, win: bool, i: nat) -> Seq<char>
    decreases p.len() - i,
{
    let end = part_end(p, win, i);
    let next = next_part(p, win, end);
    if i < next <= p.len() {
        part_key(p.subrange(i as int, end as int)) + parts_key(p, win, next)
    } else {
        Seq::empty()
    }
}

/// The drive or the share of a path in its key.
pub open spec fn prefix_key(p: Seq<char>, win: bool) -> Seq<char> {
    if on_drive(p, win) {
        seq!['\0', '\u{2}', lower(p[0]), '\0']
    } else if share_len(p, win) > 0 {
        let server = part_end(p, win, 2) as int;
        seq!['\0', '\u{1}'] + p.subrange(2, server) + seq!['\0'] + p.subrange(server + 1, share_len(p, win) as int)
            + seq!['\0']
    } else {
        Seq::empty()
    }
}

/// What a path is told by and ordered by: its drive or share, its root, and its parts, each
/// before what goes on where it ends. Two texts with the same key are the same path.
pub open spec fn path_key(p: Seq<char>, win: bool) -> Seq<char> {
    prefix_key(p, win) + (if has_root(p, win) {
        seq!['\u{1}', '\0']
    } else {
        Seq::empty()
    }) + parts_key(
        p,
        win,
        if has_root(p, win) {
            next_part(p, win, start_len(p, win))
        } else {
            start_len(p, win)
        },
    )
}

fn push_range(out: &mut Vec<char>, cs: &Vec<char>, from: usize, to: usize)
    requires
        from <= to <= cs.len(),
    ensures
        final(out)@ == old(out)@ + cs@.subrange(from as int, to as int),
{
    let mut i: usize = from;
    assert(out@ =~= old(out)@ + cs@.subrange(from as int, from as int));
    while i < to
        invariant
            from <= i <= to <= cs.len(),
            out@ == old(out)@ + cs@.subrange(from as int, i as int),
        decreases to - i,
    {
        out.push(cs[i]);
        assert(cs@.subrange(from as int, i + 1) =~= cs@.subrange(from as int, i as int).push(cs@[i as int]));
        i += 1;
    }
}

fn push_part(out: &mut Vec<char>, cs: &Vec<char>, from: usize, to: usize)
    requires
        from <= to <= cs.len(),
    ensures
        final(out)@ == old(out)@ + part_key(cs@.subrange(from as int, to as int)),
{
    let ghost s = cs@.subrange(from as int, to as int);
    let n: usize = to - from;
    let one = n == 1 && cs[from] == '.';
    let two = n == 2 && cs[from] == '.' && cs[from + 1] == '.';
    proof {
        if one {
            assert(s =~= seq!['.']);
        }
        if two {
            assert(s =~= seq!['.', '.']);
        }
        if s == seq!['.'] {
            assert(s.len() == 1 && s[0] == '.');
        }
        if s == seq!['.', '.'] {
            assert(s.len() == 2 && s[0] == '.' && s[1] == '.');
        }
    }
    if one {
        out.push('\u{2}');
    } else if two {
        out.push('\u{3}');
    } else {
        out.push('\u{4}');
        push_range(out, cs, from, to);
    }
    out.push('\0');
    assert(out@ =~= old(out)@ + part_key(s));
}

/// The key of a path.
pub fn key_of(path: &str, windows: bool) -> (r: String)
    ensures
        r@ == path_key(path@, windows),
{
    let cs = chars_of(path);
    let (prefix, start) = starts(&cs, windows);
    let share: usize = share_first(&cs, windows);
    let mut out: Vec<char> = Vec::new();
    if drive_first(&cs, windows) {
        out.push('\0');
        out.push('\u{2}');
        out.push(to_lower(cs[0]));
        out.push('\0');
    } else if share > 0 {
        proof {
            lemma_part_end(cs@, windows, 2);
        }
        let server: usize = end_from(&cs, windows, 2);
        out.push('\0');
        out.push('\u{1}');
        push_range(&mut out, &cs, 2, server);
        out.push('\0');
        push_range(&mut out, &cs, server + 1, share);
        out.push('\0');
    }
    assert(out@ =~= prefix_key(cs@, windows));
    let rooted = start > prefix || share > 0;
    let mut i: usize = start;
    if rooted {
        out.push('\u{1}');
        out.push('\0');
        i = next_from(&cs, windows, start);
    }
    let ghost all = path_key(cs@, windows);
    assert(all =~= out@ + parts_key(cs@, windows, i as nat));
    while i < cs.len()
        invariant
            i <= cs.len(),
            all == out@ + parts_key(cs@, windows, i as nat),
        ensures
            all == out@,
        decreases cs.len() - i,
    {
        let ghost b = out@;
        let end: usize = end_from(&cs, windows, i);
        let next: usize = next_from(&cs, windows, end);
        if next <= i {
            assert(all =~= out@);
            break;
        }
        push_part(&mut out, &cs, i, end);
        assert(all =~= out@ + parts_key(cs@, windows, next as nat));
        i = next;
    }
    string_of(&out)
}

/// Two texts are the same path.
pub open spec fn same_path(a: Seq<char>, b: Seq<char>, win: bool) -> bool {
    path_key(a, win) == path_key(b, win)
}

pub fn is_same_path(a: &str, b: &str, windows: bool) -> (r: bool)
    ensures
        r == same_path(a@, b@, windows),
{
    str_eq(key_of(a, windows).as_str(), key_of(b, windows).as_str())
}

proof fn lemma_no_prefix(p: Seq<char>)
    ensures
        prefix_len(p, false) == 0,
        share_len(p, false) == 0,
        has_root(p, false) <==> p.len() > 0 && p[0] == '/',
        start_len(p, false) == if p.len() > 0 && p[0] == '/' {
            1nat
        } else {
            0nat
        },
{
}

proof fn lemma_part_end_within(dir: Seq<char>, p: Seq<char>, i: nat)
    requires
        i <= dir.len(),
        dir.len() < p.len(),
        forall|k: int| 0 <= k < dir.len() ==> p[k] == dir[k],
        p[dir.len() as int] == '/',
    ensures
        part_end(p, false, i) == part_end(dir, false, i),
        i <= part_end(dir, false, i) <= dir.len(),
        part_end(dir, false, i) < dir.len() ==> dir[part_end(dir, false, i) as int] == '/',
    decreases dir.len() - i,
{
    if i < dir.len() && dir[i as int] != '/' {
        lemma_part_end_within(dir, p, i + 1);
    }
}

proof fn lemma_next_part_within(dir: Seq<char>, p: Seq<char>, i: nat)
    requires
        i < dir.len(),
        dir.len() < p.len(),
        forall|k: int| 0 <= k < dir.len() ==> p[k] == dir[k],
        p[dir.len() as int] == '/',
        dir.last() != '/',
        dir.last() != '.',
    ensures
        next_part(p, false, i) == next_part(dir, false, i),
        i <= next_part(dir, false, i) < dir.len(),
        dir[i as int] == '/' ==> next_part(dir, false, i) > i,
    decreases dir.len() - i,
{
    if i == dir.len() - 1 {
        assert(dir[i as int] == dir.last());
    } else if dir[i as int] == '/' || (dir[i as int] == '.' && dir[i as int + 1] == '/') {
        lemma_next_part_within(dir, p, i + 1);
    }
}

proof fn lemma_rest_after(dir: Seq<char>, p: Seq<char>, i: nat)
    requires
        i < dir.len(),
        dir.len() + 1 < p.len(),
        forall|k: int| 0 <= k < dir.len() ==> p[k] == dir[k],
        p[dir.len() as int] == '/',
        p[dir.len() as int + 1] != '/',
        p[dir.len() as int + 1] != '.',
        dir.last() != '/',
        dir.last() != '.',
        dir[i as int] != '/',
    ensures
        rest_after(dir, p, false, i, i) == Some(dir.len() + 1),
    decreases dir.len() - i,
{
    lemma_part_end_within(dir, p, i);
    let a = part_end(dir, false, i);
    assert(a > i) by {
        lemma_part_end_within(dir, p, i + 1);
    }
    assert(dir.subrange(i as int, a as int) =~= p.subrange(i as int, a as int));
    if a < dir.len() {
        lemma_next_part_within(dir, p, a);
        let n = next_part(dir, false, a);
        lemma_stops(dir, false, a);
        lemma_rest_after(dir, p, n);
    } else {
        let n = dir.len();
        assert(next_part(p, false, n + 1) == n + 1);
        assert(next_part(p, false, n) == n + 1);
        assert(next_part(dir, false, n) == n);
        assert(rest_after(dir, p, false, n, n + 1) == Some(n + 1));
    }
}

proof fn lemma_stops(p: Seq<char>, win: bool, i: nat)
    ensures
        next_part(p, win, i) < p.len() ==> !parts_at(win, p[next_part(p, win, i) as int]),
    decreases p.len() - i,
{
    if i < p.len() && (parts_at(win, p[i as int]) || (p[i as int] == '.' && (i + 1 == p.len() || parts_at(
        win,
        p[i as int + 1],
    )))) {
        lemma_stops(p, win, i + 1);
    }
}

/// What stands behind a directory and a slash is the path below that directory, elsewhere than on
/// Windows.
#[verifier::rlimit(40)]
pub proof fn law_the_path_below_a_directory(dir: Seq<char>, rest: Seq<char>)
    requires
        dir.len() > 0,
        dir.last() != '/',
        dir.last() != '.',
        dir[0] != '.',
        rest.len() > 0,
        rest[0] != '/',
        rest[0] != '.',
        rest.last() != '/',
        rest.last() != '.',
        !rest.contains('\\'),
    ensures
        below(dir, dir + seq!['/'] + rest, false) == rest,
{
    let p = dir + seq!['/'] + rest;
    let n = dir.len() as int;
    lemma_no_prefix(dir);
    lemma_no_prefix(p);
    assert(p[0] == dir[0]);
    assert forall|k: int| 0 <= k < dir.len() implies p[k] == dir[k] by {}
    assert(p[n] == '/');
    assert(p[n + 1] == rest[0]);
    if dir[0] == '/' {
        assert(dir.len() > 1);
        lemma_next_part_within(dir, p, 1);
        let f = next_part(dir, false, 1);
        lemma_stops(dir, false, 1);
        lemma_rest_after(dir, p, f);
        assert(first_part(dir, false) == f && first_part(p, false) == f);
    } else {
        lemma_rest_after(dir, p, 0);
        assert(first_part(dir, false) == 0 && first_part(p, false) == 0);
    }
    assert(rest_from(dir, p, false) == Some((n + 1) as nat));
    assert(p[p.len() - 1] == rest.last());
    assert(kept(p, false, (n + 1) as nat, p.len()) == p.len());
    assert(p.subrange(n + 1, p.len() as int) =~= rest);
    assert forall|i: int| 0 <= i < rest.len() implies !seq!['\\'].contains(#[trigger] rest[i]) by {
        if seq!['\\'].contains(rest[i]) {
            assert(rest[i] == '\\');
        }
    }
    assert(with_char(rest, seq!['\\'], '/') =~= rest);
}

/// A part under a directory is the last part of the path, elsewhere than on Windows.
pub proof fn law_a_part_under_a_directory(dir: Seq<char>, name: Seq<char>)
    requires
        is_part(false, name),
        dir.len() > 0,
        dir.last() != '/',
    ensures
        under(dir, name, false) == dir + "/"@ + name,
        base_name(under(dir, name, false), false) == name,
{
    reveal_strlit("/");
    lemma_no_prefix(dir);
    lemma_no_prefix(name);
    assert(!parts_at(false, name[0]));
    let p = under(dir, name, false);
    assert(p == dir + "/"@ + name);
    lemma_no_prefix(p);
    let r = start_len(p, false);
    let s = dir.len() + 1;
    assert forall|i: int| s <= i < p.len() implies !parts_at(false, #[trigger] p[i]) by {
        assert(p[i] == name[i - s]);
    }
    assert(p[p.len() - 1] == name[name.len() - 1]);
    assert(parts_at(false, p[s - 1]));
    if name.len() == 1 {
        assert(name =~= seq![name[0]]);
    }
    assert(end_of(p, false) == p.len());
    lemma_part_start_at(p, false, r, p.len(), s);
    assert(p.subrange(s as int, p.len() as int) =~= name);
}

} // verus!
