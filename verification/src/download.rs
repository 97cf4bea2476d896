//! Downloads that resume: what is to be fetched, from where on, and when it is done.

use crate::message::{byte_len, bytes_in, opt_string};
use crate::pathname::{
    base_name, end_of, file_name, join_path, lemma_base_name, lemma_with_name, parts_at, prefix_len,
    under, with_file_name, with_name, without_end,
};
use crate::text::{
    all_digits, at, chars_of, dec, dec_u64, digit, digit_char, find, find_from, holds, is_digit,
    last_char, law_decimal_is_read_back, lemma_find_from, number, pad_zeros, padded, parse_number,
    rfind_char, slice, string_of, string_of_range, strings,
};
use vstd::prelude::*;
use vstd::string::*;
use vstd::utf8::is_ascii_chars_encode_utf8;

verus! {

#[derive(Debug, Clone, Copy, PartialEq, Eq, Structural)]
pub struct Progress {
    pub downloaded: u64,
    pub total: Option<u64>,
}

/// The address of a file of a repository.
pub open spec fn hub_url(repo: Seq<char>, file: Seq<char>) -> Seq<char> {
    "https://huggingface.co/"@ + repo + "/resolve/main/"@ + file
}

/// The address of a file, and where it goes under a directory.
pub fn hf_target(repo: &str, file: &str, dest_dir: &str, windows: bool) -> (r: (String, String))
    ensures
        r.0@ == hub_url(repo@, file@),
        r.1@ == under(under(dest_dir@, repo@, windows), file@, windows),
{
    (
        "https://huggingface.co/".to_owned().concat(repo).concat("/resolve/main/").concat(file),
        join_path(join_path(dest_dir, repo, windows).as_str(), file, windows),
    )
}

/// The name of the file that holds a download as long as it is not complete. A name
/// without an extension gets an empty one; a path without a name stays as it is.
pub open spec fn part_of(dest: Seq<char>, windows: bool) -> Seq<char> {
    let name = base_name(dest, windows);
    if name.len() == 0 {
        dest
    } else {
        match last_char(name, '.') {
            Some(k) => if k > 0 {
                dest.take(end_of(dest, windows) as int) + ".part"@
            } else {
                dest.take(end_of(dest, windows) as int) + "..part"@
            },
            None => dest.take(end_of(dest, windows) as int) + "..part"@,
        }
    }
}

pub fn part_path(dest: &str, windows: bool) -> (r: String)
    ensures
        r@ == part_of(dest@, windows),
{
    let name = chars_of(file_name(dest, windows).as_str());
    if name.len() == 0 {
        return dest.to_owned();
    }
    match rfind_char(&name, '.') {
        Some(k) => if k > 0 {
            without_end(dest, windows).concat(".part")
        } else {
            without_end(dest, windows).concat("..part")
        },
        None => without_end(dest, windows).concat("..part"),
    }
}

/// What is to be done before anything is fetched.
#[derive(Debug, Clone, Copy, PartialEq, Eq, Structural)]
pub enum Start {
    /// The file is there.
    Done,
    /// The part is the whole: it only has to be renamed.
    Rename,
    /// Fetch from this offset on. `drop_part`: remove a part that is too long first.
    Fetch { from: u64, drop_part: bool },
}

/// How a download starts. `total` is the size that the server gave, `complete` the
/// size of the file where it is there, `part` that of the part, zero where there is
/// none. Without a total nothing is resumed.
pub open spec fn start_of(total: Option<u64>, complete: Option<u64>, part: u64) -> Start {
    match total {
        Some(t) => if complete == Some(t) {
            Start::Done
        } else if part == t {
            Start::Rename
        } else if part > t {
            Start::Fetch { from: 0, drop_part: true }
        } else {
            Start::Fetch { from: part, drop_part: false }
        },
        None => Start::Fetch { from: 0, drop_part: false },
    }
}

pub fn plan_start(total: Option<u64>, complete: Option<u64>, part: u64) -> (r: Start)
    ensures
        r == start_of(total, complete, part),
{
    match total {
        Some(t) => {
            if let Some(c) = complete {
                if c == t {
                    return Start::Done;
                }
            }
            if part == t {
                Start::Rename
            } else if part > t {
                Start::Fetch { from: 0, drop_part: true }
            } else {
                Start::Fetch { from: part, drop_part: false }
            }
        },
        None => Start::Fetch { from: 0, drop_part: false },
    }
}

/// A fetch never starts behind the end: it goes on where a part ends, or at zero.
pub proof fn law_fetch_starts_within(total: Option<u64>, complete: Option<u64>, part: u64)
    ensures
        start_of(total, complete, part) matches Start::Fetch { from, drop_part } ==> {
            &&& from == 0 || from == part
            &&& from > 0 ==> (total matches Some(t) && from < t)
            &&& drop_part ==> from == 0
        },
{
}

/// The `Range` header of a fetch; none from the beginning.
pub open spec fn range_of(from: u64) -> Option<Seq<char>> {
    if from > 0 {
        Some("bytes="@ + dec(from as nat) + "-"@)
    } else {
        None
    }
}

pub fn range_header(from: u64) -> (r: Option<String>)
    ensures
        opt_string(r) == range_of(from),
{
    if from > 0 {
        Some("bytes=".to_owned().concat(dec_u64(from).as_str()).concat("-"))
    } else {
        None
    }
}

/// A download that is under way.
#[derive(Debug, Clone, Copy, PartialEq, Eq, Structural)]
pub struct Download {
    pub total: Option<u64>,
    /// The part is gone on with; otherwise it is begun anew.
    pub resumed: bool,
    pub downloaded: u64,
}

/// Takes the status of the answer to a fetch from `from` on; none where it is no
/// success. The part is gone on with only where the server sends a part.
pub fn begin(status: u16, from: u64, total: Option<u64>) -> (r: Option<Download>)
    ensures
        match r {
            Some(d) => {
                &&& 200 <= status < 300
                &&& d.total == total
                &&& d.resumed == (status == 206 && from > 0)
                &&& d.downloaded == (if status == 206 && from > 0 {
                    from
                } else {
                    0
                })
            },
            None => !(200 <= status < 300),
        },
{
    if status < 200 || status >= 300 {
        return None;
    }
    let resumed = status == 206 && from > 0;
    let downloaded: u64 = if resumed {
        from
    } else {
        0
    };
    Some(Download { total, resumed, downloaded })
}

/// How many bytes were received and how many were to be.
#[derive(Debug, Clone, Copy, PartialEq, Eq, Structural)]
pub struct SizeMismatch {
    pub got: u64,
    pub expected: u64,
}

impl Download {
    /// Counts a chunk.
    pub fn received(&mut self, bytes: u64)
        requires
            old(self).downloaded + bytes <= u64::MAX,
        ensures
            *final(self) == (Download { downloaded: (old(self).downloaded + bytes) as u64, ..*old(self) }),
    {
        self.downloaded = self.downloaded + bytes;
    }

    pub fn progress(&self) -> (r: Progress)
        ensures
            r == (Progress { downloaded: self.downloaded, total: self.total }),
    {
        Progress { downloaded: self.downloaded, total: self.total }
    }

    /// The end of the stream: the download is complete, unless a size was given and
    /// is not met.
    pub fn finish(&self) -> (r: Result<(), SizeMismatch>)
        ensures
            match r {
                Ok(_) => self.total matches Some(t) ==> self.downloaded == t,
                Err(e) => self.total matches Some(t) && self.downloaded != t && e == (SizeMismatch {
                    got: self.downloaded,
                    expected: t,
                }),
            },
    {
        match self.total {
            Some(t) => if self.downloaded != t {
                Err(SizeMismatch { got: self.downloaded, expected: t })
            } else {
                Ok(())
            },
            None => Ok(()),
        }
    }
}

// ---------------------------------------------------------------- shards

/// The place five bytes before place `k`, where a character begins there.
pub open spec fn five_before(s: Seq<char>, k: int, j: int) -> Option<int>
    decreases j + 1,
{
    if j < 0 || j < k - 5 || j > k {
        None
    } else if byte_len(s.subrange(j, k)) == 5 {
        Some(j)
    } else {
        five_before(s, k, j - 1)
    }
}

/// The place of the number of a shard: five bytes before the first `-of-`. None
/// where there is no `-of-`, or fewer than six bytes before it.
pub open spec fn shard_at(s: Seq<char>) -> Option<(int, int)> {
    match find_from(s, "-of-"@, 0) {
        Some(k) => if byte_len(s.take(k)) >= 6 {
            match five_before(s, k, k) {
                Some(j) => Some((j, k)),
                None => None,
            }
        } else {
            None
        },
        None => None,
    }
}

/// A file name can be split at the number of its shard: a character begins five
/// bytes before `-of-`.
pub open spec fn splittable(s: Seq<char>) -> bool {
    match find_from(s, "-of-"@, 0) {
        Some(k) => byte_len(s.take(k)) >= 6 ==> five_before(s, k, k) is Some,
        None => true,
    }
}

proof fn lemma_five_before(s: Seq<char>, k: int, j: int)
    ensures
        five_before(s, k, j) matches Some(i) ==> 0 <= i <= j && i <= k && k - 5 <= i,
    decreases j + 1,
{
    if 0 <= j && k - 5 <= j && j <= k && byte_len(s.subrange(j, k)) != 5 {
        lemma_five_before(s, k, j - 1);
    }
}

/// Finds the number of the shard in a file name.
pub fn find_shard(s: &Vec<char>) -> (r: Option<(usize, usize)>)
    requires
        splittable(s@),
    ensures
        match r {
            Some((j, k)) => shard_at(s@) == Some((j as int, k as int)) && j <= k && k + 4 <= s.len(),
            None => shard_at(s@) is None,
        },
{
    proof {
        reveal_strlit("-of-");
    }
    match find(s, &chars_of("-of-"), 0) {
        Some(k) => {
            assert(s@.subrange(0, k as int) =~= s@.take(k as int));
            if bytes_in(string_of_range(s, 0, k).as_str()) < 6 {
                return None;
            }
            let mut j: usize = k;
            loop
                invariant
                    j <= k <= s.len(),
                    k + 4 <= s.len(),
                    k - 5 <= j,
                    find_from(s@, "-of-"@, 0) == Some(k as int),
                    byte_len(s@.take(k as int)) >= 6,
                    five_before(s@, k as int, k as int) is Some,
                    five_before(s@, k as int, k as int) == five_before(s@, k as int, j as int),
                decreases j,
            {
                if bytes_in(string_of_range(s, j, k).as_str()) == 5 {
                    return Some((j, k));
                }
                proof {
                    lemma_five_before(s@, k as int, j - 1);
                }
                j -= 1;
            }
        },
        None => None,
    }
}

/// Whether a file name can be split at the number of its shard.
pub fn can_split(file: &str) -> (r: bool)
    ensures
        r == splittable(file@),
{
    proof {
        reveal_strlit("-of-");
    }
    let s = chars_of(file);
    match find(&s, &chars_of("-of-"), 0) {
        Some(k) => {
            assert(s@.subrange(0, k as int) =~= s@.take(k as int));
            if bytes_in(string_of_range(&s, 0, k).as_str()) < 6 {
                return true;
            }
            let mut j: usize = k;
            loop
                invariant
                    j <= k <= s.len(),
                    k - 5 <= j,
                    s@ == file@,
                    find_from(s@, "-of-"@, 0) == Some(k as int),
                    five_before(s@, k as int, k as int) == five_before(s@, k as int, j as int),
                ensures
                    five_before(s@, k as int, k as int) is None,
                decreases j,
            {
                if bytes_in(string_of_range(&s, j, k).as_str()) == 5 {
                    return true;
                }
                if j == 0 || k - j >= 5 {
                    assert(five_before(s@, k as int, j - 1) is None);
                    break;
                }
                j -= 1;
            }
            false
        },
        None => true,
    }
}

/// The length of the digits that a text begins with.
pub open spec fn digits_len(s: Seq<char>) -> nat
    decreases s.len(),
{
    if s.len() > 0 && is_digit(s[0]) {
        1 + digits_len(s.drop_first())
    } else {
        0
    }
}

pub fn leading_digits(s: &Vec<char>, from: usize) -> (r: usize)
    requires
        from <= s.len(),
    ensures
        r == digits_len(s@.skip(from as int)),
        from + r <= s.len(),
{
    let mut i: usize = from;
    while i < s.len() && digit(s[i])
        invariant
            from <= i <= s.len(),
            digits_len(s@.skip(from as int)) == (i - from) + digits_len(s@.skip(i as int)),
        decreases s.len() - i,
    {
        assert(s@.skip(i as int).drop_first() =~= s@.skip(i + 1));
        i += 1;
    }
    i - from
}

/// The number of shards that the name of a shard tells: the digits behind `-of-`.
pub open spec fn count_of_shards(file: Seq<char>) -> Option<nat> {
    match shard_at(file) {
        Some((j, k)) => {
            let post = file.skip(k + 4);
            number(post.take(digits_len(post) as int), u32::MAX as nat)
        },
        None => None,
    }
}

/// The names of all shards of a split file: the number of the shard runs from one to
/// the number behind `-of-`. A file that is not split is its only shard.
pub open spec fn shards(file: Seq<char>) -> Seq<Seq<char>> {
    match shard_at(file) {
        Some((j, k)) => {
            let post = file.skip(k + 4);
            let n_str = post.take(digits_len(post) as int);
            let tail = post.skip(digits_len(post) as int);
            match number(n_str, u32::MAX as nat) {
                Some(n) => Seq::new(n, |i: int| shard_name(file.take(j), (i + 1) as nat, n_str, tail)),
                None => seq![file],
            }
        },
        None => seq![file],
    }
}

pub open spec fn shard_name(pre: Seq<char>, i: nat, n_str: Seq<char>, tail: Seq<char>) -> Seq<char> {
    pre + padded(dec(i), 5) + "-of-"@ + n_str + tail
}

/// The names of all shards of a split file.
pub fn shard_names(file: &str) -> (r: Vec<String>)
    requires
        splittable(file@),
    ensures
        strings(r@) == shards(file@),
{
    let cs = chars_of(file);
    if let Some((j, k)) = find_shard(&cs) {
        let pre = string_of_range(&cs, 0, j);
        assert(pre@ =~= file@.take(j as int));
        let d = leading_digits(&cs, k + 4);
        let digits = slice(&cs, k + 4, k + 4 + d);
        let ghost post = file@.skip(k + 4);
        assert(digits@ =~= post.take(d as int));
        if let Some(n) = parse_number(&digits, 0xffff_ffff) {
            let n_str = string_of(&digits);
            let tail = string_of_range(&cs, k + 4 + d, cs.len());
            assert(tail@ =~= post.skip(d as int));
            let ghost want = shards(file@);
            let mut out: Vec<String> = Vec::new();
            let mut i: u64 = 0;
            assert(want.take(0) =~= Seq::empty());
            assert(strings(out@) =~= Seq::empty());
            while i < n
                invariant
                    i <= n <= u32::MAX,
                    want == Seq::new(n as nat, |i: int| shard_name(pre@, (i + 1) as nat, n_str@, tail@)),
                    strings(out@) == want.take(i as int),
                decreases n - i,
            {
                let num = dec_u64(i + 1);
                let name = pre.clone().concat(pad_zeros(num.as_str(), 5).as_str()).concat("-of-").concat(
                    n_str.as_str(),
                ).concat(tail.as_str());
                let ghost b = out@;
                out.push(name);
                assert(strings(out@) =~= strings(b).push(name@));
                i += 1;
            }
            assert(want.take(n as int) =~= want);
            return out;
        }
    }
    let mut out: Vec<String> = Vec::new();
    out.push(file.to_owned());
    assert(strings(out@) =~= seq![file@]);
    out
}

/// The first shard of a split file, which holds the metadata: the shard's number in
/// the last component of the path becomes one.
pub open spec fn first_of(path: Seq<char>, windows: bool) -> Seq<char> {
    let name = base_name(path, windows);
    match shard_at(name) {
        Some((j, k)) => with_name(path, name.take(j) + "00001"@ + name.skip(k), windows),
        None => path,
    }
}

/// Given any shard, the first.
pub fn first_shard(path: &str, windows: bool) -> (r: String)
    requires
        splittable(base_name(path@, windows)),
    ensures
        r@ == first_of(path@, windows),
{
    let name = chars_of(file_name(path, windows).as_str());
    match find_shard(&name) {
        Some((j, k)) => {
            let pre = string_of_range(&name, 0, j);
            assert(pre@ =~= name@.take(j as int));
            let post = string_of_range(&name, k, name.len());
            assert(post@ =~= name@.skip(k as int));
            with_file_name(path, pre.concat("00001").concat(post.as_str()).as_str(), windows)
        },
        None => path.to_owned(),
    }
}

// ---------------------------------------------------------------- the law of shards

proof fn lemma_byte_len_adds(a: Seq<char>, b: Seq<char>)
    ensures
        byte_len(a + b) == byte_len(a) + byte_len(b),
    decreases a.len(),
{
    if a.len() == 0 {
        assert(a + b =~= b);
    } else {
        lemma_byte_len_adds(a.drop_first(), b);
        assert((a + b).drop_first() =~= a.drop_first() + b);
        assert((a + b)[0] == a[0]);
    }
}

proof fn lemma_byte_len_digits(s: Seq<char>)
    requires
        all_digits(s),
    ensures
        byte_len(s) == s.len(),
{
    assert forall|i: int| 0 <= i < s.len() implies '\0' <= #[trigger] s[i] <= '\u{7f}' by {
        assert(is_digit(s[i]));
    }
    is_ascii_chars_encode_utf8(s);
}

proof fn lemma_dec_digits(n: nat)
    ensures
        all_digits(dec(n)),
        dec(n).len() > 0,
        n < 10 ==> dec(n).len() <= 1,
        n < 100 ==> dec(n).len() <= 2,
        n < 1000 ==> dec(n).len() <= 3,
        n < 10000 ==> dec(n).len() <= 4,
        n < 100000 ==> dec(n).len() <= 5,
    decreases n,
{
    if n < 10 {
        assert(is_digit(digit_char(n)));
    } else {
        lemma_dec_digits(n / 10);
        assert(is_digit(digit_char(n % 10)));
        let p = dec(n / 10);
        let r = dec(n);
        assert forall|i: int| 0 <= i < r.len() implies is_digit(#[trigger] r[i]) by {
            if i < p.len() {
                assert(r[i] == p[i]);
            }
        }
    }
}

proof fn lemma_number_text(n: nat)
    requires
        n < 100000,
    ensures
        padded(dec(n), 5).len() == 5,
        all_digits(padded(dec(n), 5)),
{
    lemma_dec_digits(n);
    let d = dec(n);
    let p = padded(d, 5);
    assert forall|i: int| 0 <= i < p.len() implies is_digit(#[trigger] p[i]) by {
        if d.len() < 5 {
            let z = 5 - d.len();
            if i >= z {
                assert(p[i] == d[i - z]);
            }
        }
    }
}

/// The place five bytes before is found through five digits.
proof fn lemma_five_digits(s: Seq<char>, k: int)
    requires
        5 <= k <= s.len(),
        all_digits(s.subrange(k - 5, k)),
    ensures
        five_before(s, k, k) == Some(k - 5),
{
    let d = s.subrange(k - 5, k);
    assert forall|m: int| 0 <= m <= 5 implies byte_len(#[trigger] s.subrange(k - m, k)) == m by {
        let t = s.subrange(k - m, k);
        assert forall|i: int| 0 <= i < t.len() implies is_digit(#[trigger] t[i]) by {
            assert(t[i] == d[i + 5 - m]);
        }
        lemma_byte_len_digits(t);
    }
    assert(byte_len(s.subrange(k - 0, k)) == 0);
    assert(byte_len(s.subrange(k - 1, k)) == 1);
    assert(byte_len(s.subrange(k - 2, k)) == 2);
    assert(byte_len(s.subrange(k - 3, k)) == 3);
    assert(byte_len(s.subrange(k - 4, k)) == 4);
    assert(byte_len(s.subrange(k - 5, k)) == 5);
    reveal_with_fuel(five_before, 7);
}

/// The name of a shard: the part before its number, five digits, and the rest from `-of-`
/// on, of which nothing stands before.
proof fn lemma_shard_at(file: Seq<char>, j: int, k: int, d: Seq<char>, rest: Seq<char>)
    requires
        shard_at(file) == Some((j, k)),
        d.len() == 5,
        all_digits(d),
        rest.len() >= 4,
        rest.take(4) == "-of-"@,
    ensures
        shard_at(file.take(j) + d + rest) == Some((j, j + 5)),
{
    reveal_strlit("-of-");
    let p = "-of-"@;
    let pre = file.take(j);
    let s = pre + d + rest;
    lemma_find_from(file, p, 0);
    lemma_five_before(file, k, k);
    lemma_find_from(s, p, 0);
    assert(s.subrange(j + 5, j + 9) =~= rest.take(4));
    assert(at(s, j + 5, p));
    assert forall|m: int| 0 <= m < j + 5 implies !#[trigger] at(s, m, p) by {
        if at(s, m, p) {
            let w = s.subrange(m, m + 4);
            assert(w[0] == s[m] && w[1] == s[m + 1] && w[2] == s[m + 2] && w[3] == s[m + 3]);
            if m + 4 <= j {
                assert(file.subrange(m, m + 4) =~= w);
                assert(at(file, m, p));
            } else if m >= j {
                assert(s[m] == d[m - j]);
                assert(is_digit(d[m - j]));
            } else {
                assert(s[j] == d[0]);
                assert(is_digit(d[0]));
                assert(w[j - m] == s[j]);
            }
        }
    }
    assert(find_from(s, p, 0) == Some(j + 5));
    assert(s.subrange(j, j + 5) =~= d);
    lemma_five_digits(s, j + 5);
    assert(s.take(j + 5) =~= pre + d);
    lemma_byte_len_adds(pre, d);
    lemma_byte_len_digits(d);
    assert(file.take(k) =~= pre + file.subrange(j, k));
    lemma_byte_len_adds(pre, file.subrange(j, k));
    lemma_five_subrange(file, k, k);
}

proof fn lemma_five_subrange(s: Seq<char>, k: int, j: int)
    ensures
        five_before(s, k, j) matches Some(i) ==> byte_len(s.subrange(i, k)) == 5,
    decreases j + 1,
{
    if 0 <= j && k - 5 <= j && j <= k && byte_len(s.subrange(j, k)) != 5 {
        lemma_five_subrange(s, k, j - 1);
    }
}

/// A path keeps its drive or its share when its last part becomes another. On Windows it
/// does not where that part is read as a drive, or what comes out as a share.
pub open spec fn stays_put(p: Seq<char>, name: Seq<char>, win: bool) -> bool {
    prefix_len(name, win) == 0 && prefix_len(with_name(p, name, win), win) == prefix_len(p, win)
}

/// A shard of another number, under the same path: where its number stands, and its
/// directory.
proof fn lemma_renumbered(p: Seq<char>, j: int, k: int, d: Seq<char>, win: bool)
    requires
        shard_at(base_name(p, win)) == Some((j, k)),
        d.len() == 5,
        all_digits(d),
    ensures
        0 < j <= k,
        k + 4 <= base_name(p, win).len(),
        base_name(p, win).subrange(k, k + 4) == "-of-"@,
        ({
            let name = base_name(p, win);
            let new = name.take(j) + d + name.skip(k);
            stays_put(p, new, win) ==> first_of(with_name(p, new, win), win) == first_of(p, win)
        }),
{
    reveal_strlit("-of-");
    let name = base_name(p, win);
    let new = name.take(j) + d + name.skip(k);
    lemma_find_from(name, "-of-"@, 0);
    lemma_five_before(name, k, k);
    lemma_five_subrange(name, k, k);
    let rest = name.skip(k);
    assert(rest.take(4) =~= name.subrange(k, k + 4));
    assert(name.take(k) =~= name.take(j) + name.subrange(j, k));
    lemma_byte_len_adds(name.take(j), name.subrange(j, k));
    if j == 0 {
        assert(byte_len(name.take(j)) == 0);
    }
    lemma_shard_at(name, j, k, d, rest);
    lemma_base_name(p, win);
    assert forall|i: int| 0 <= i < new.len() implies !parts_at(win, #[trigger] new[i]) by {
        if i < j {
            assert(new[i] == name[i]);
        } else if i < j + 5 {
            assert(new[i] == d[i - j]);
            assert(is_digit(d[i - j]));
        } else {
            assert(new[i] == name[i - j - 5 + k]);
        }
    }
    assert(new.len() > 2);
    assert(seq!['.'].len() == 1 && seq!['.', '.'].len() == 2);
    if stays_put(p, new, win) {
        lemma_with_name(p, new, win);
        assert(new.take(j) =~= name.take(j));
        assert(new.skip(j + 5) =~= rest);
    }
}

/// The name of the first shard.
pub open spec fn first_name(name: Seq<char>) -> Seq<char> {
    match shard_at(name) {
        Some((j, k)) => name.take(j) + "00001"@ + name.skip(k),
        None => name,
    }
}

/// The first shard is its own first shard, whatever the directory and the number of shards;
/// a file whose name does not hold `-of-` is its own too.
pub proof fn law_first_shard_once(p: Seq<char>, win: bool)
    requires
        shard_at(base_name(p, win)) is Some ==> stays_put(p, first_name(base_name(p, win)), win),
    ensures
        first_of(first_of(p, win), win) == first_of(p, win),
        !holds(base_name(p, win), "-of-"@) ==> first_of(p, win) == p,
{
    let name = base_name(p, win);
    lemma_find_from(name, "-of-"@, 0);
    if let Some((j, k)) = shard_at(name) {
        reveal_strlit("00001");
        let d = "00001"@;
        assert forall|i: int| 0 <= i < d.len() implies is_digit(#[trigger] d[i]) by {}
        lemma_renumbered(p, j, k, d, win);
        assert(at(name, find_from(name, "-of-"@, 0)->Some_0, "-of-"@));
    }
}

/// The first shard of a file `X-NNNNN-of-` and more, each `N` a digit, is `X-00001-of-` and
/// the same more in the same directory, where no `-of-` stands before.
pub proof fn law_first_shard_by_form(p: Seq<char>, x: Seq<char>, d: Seq<char>, more: Seq<char>, win: bool)
    requires
        base_name(p, win) == x + "-"@ + d + "-of-"@ + more,
        d.len() == 5,
        all_digits(d),
        !holds(x + "-"@, "-of-"@),
    ensures
        first_of(p, win) == with_name(p, x + "-"@ + "00001"@ + "-of-"@ + more, win),
{
    reveal_strlit("-of-");
    reveal_strlit("-");
    reveal_strlit("00001");
    let of = "-of-"@;
    let pre = x + "-"@;
    let s = base_name(p, win);
    let j = pre.len() as int;
    let k = j + 5;
    assert(s.subrange(k, k + 4) =~= of);
    assert(at(s, k, of));
    lemma_find_from(s, of, 0);
    assert forall|m: int| 0 <= m < k implies !#[trigger] at(s, m, of) by {
        if at(s, m, of) {
            let w = s.subrange(m, m + 4);
            assert(w[0] == s[m] && w[1] == s[m + 1] && w[2] == s[m + 2] && w[3] == s[m + 3]);
            if m + 4 <= j {
                assert(pre.subrange(m, m + 4) =~= w);
                assert(at(pre, m, of));
            } else if m >= j {
                assert(s[m] == d[m - j]);
                assert(is_digit(d[m - j]));
            } else {
                assert(s[j] == d[0]);
                assert(is_digit(d[0]));
                assert(w[j - m] == s[j]);
            }
        }
    }
    assert(find_from(s, of, 0) == Some(k));
    assert(s.subrange(j, k) =~= d);
    lemma_five_digits(s, k);
    assert(s.take(k) =~= pre + d);
    lemma_byte_len_adds(pre, d);
    lemma_byte_len_adds(x, "-"@);
    lemma_byte_len_digits(d);
    assert("-"@ =~= seq!['-']);
    assert(byte_len("-"@) >= 1);
    assert(s.take(j) + "00001"@ + s.skip(k) =~= x + "-"@ + "00001"@ + of + more);
}

/// Whichever shard of a split file is given, the first is found, and it is the first of all:
/// of the shards that five digits can number.
pub proof fn law_first_shard_of_any(p: Seq<char>, i: int, win: bool)
    requires
        count_of_shards(base_name(p, win)) matches Some(n) && 0 <= i < n,
        i < 99999,
        stays_put(p, shards(base_name(p, win))[i], win),
    ensures
        first_of(with_name(p, shards(base_name(p, win))[i], win), win) == first_of(p, win),
        first_of(p, win) == with_name(p, shards(base_name(p, win))[0], win),
{
    reveal_strlit("-of-");
    reveal_strlit("00001");
    let file = base_name(p, win);
    let (j, k) = shard_at(file)->Some_0;
    let d = padded(dec((i + 1) as nat), 5);
    lemma_number_text((i + 1) as nat);
    lemma_renumbered(p, j, k, d, win);
    let post = file.skip(k + 4);
    let dl = digits_len(post) as int;
    lemma_digits_len(post);
    let n_str = post.take(dl);
    let tail = post.skip(dl);
    assert(file.skip(k) =~= "-of-"@ + n_str + tail) by {
        assert(file.skip(k) =~= file.subrange(k, k + 4) + post);
        assert(post =~= n_str + tail);
    }
    assert(shards(file)[i] =~= file.take(j) + d + file.skip(k));
    assert(dec(1) =~= seq!['1']);
    assert(padded(dec(1), 5) =~= "00001"@);
    assert(shards(file)[0] =~= file.take(j) + "00001"@ + file.skip(k));
}

proof fn lemma_digits_len(s: Seq<char>)
    ensures
        digits_len(s) <= s.len(),
    decreases s.len(),
{
    if s.len() > 0 && is_digit(s[0]) {
        lemma_digits_len(s.drop_first());
    }
}

/// A file that is there in full is not fetched; a part that is complete is only renamed; any
/// other part is gone on with where it ends, unless it is too long or the length is not known.
pub proof fn law_a_part_is_gone_on_with(total: u64, complete: Option<u64>, part: u64)
    ensures
        start_of(None, complete, part) == (Start::Fetch { from: 0, drop_part: false }),
        complete == Some(total) ==> start_of(Some(total), complete, part) == Start::Done,
        complete != Some(total) && part == total ==> start_of(Some(total), complete, part) == Start::Rename,
        complete != Some(total) && part < total ==> start_of(Some(total), complete, part) == (Start::Fetch {
            from: part,
            drop_part: false,
        }),
        complete != Some(total) && part > total ==> start_of(Some(total), complete, part) == (Start::Fetch {
            from: 0,
            drop_part: true,
        }),
        range_of(0) is None,
        part > 0 ==> range_of(part) == Some("bytes="@ + dec(part as nat) + "-"@),
{
}

/// A file `X-NNNNN-of-M` and more, each `N` a digit, `M` a number, has `M` shards: `X-00001-of-M`,
/// `X-00002-of-M` and so on, each with the same more behind it, where no `-of-` stands before.
pub proof fn law_all_shards_are_named(x: Seq<char>, d: Seq<char>, n: u32, tail: Seq<char>, i: int)
    requires
        d.len() == 5,
        all_digits(d),
        !holds(x + "-"@, "-of-"@),
        tail.len() > 0,
        !is_digit(tail[0]),
        0 <= i < n,
    ensures
        ({
            let file = x + "-"@ + d + "-of-"@ + dec(n as nat) + tail;
            &&& shards(file).len() == n
            &&& shards(file)[i] == x + "-"@ + padded(dec((i + 1) as nat), 5) + "-of-"@ + dec(n as nat) + tail
        }),
{
    let m = dec(n as nat);
    let more = m + tail;
    let file = x + "-"@ + d + "-of-"@ + m + tail;
    let s = x + "-"@ + d + "-of-"@ + more;
    lemma_put_together(x, d, m, tail);
    lemma_shard_by_form(x, d, more);
    lemma_shards_of(s, x.len() as int + 1, x.len() as int + 6, n, tail);
}

#[verifier::rlimit(40)]
proof fn lemma_put_together(x: Seq<char>, d: Seq<char>, m: Seq<char>, tail: Seq<char>)
    requires
        d.len() == 5,
    ensures
        ({
            let s = x + "-"@ + d + "-of-"@ + (m + tail);
            &&& x + "-"@ + d + "-of-"@ + m + tail == s
            &&& s.take(x.len() as int + 1) == x + "-"@
            &&& s.skip(x.len() as int + 10) == m + tail
        }),
{
    reveal_strlit("-of-");
    reveal_strlit("-");
    let s = x + "-"@ + d + "-of-"@ + (m + tail);
    assert(x + "-"@ + d + "-of-"@ + m + tail =~= s);
    assert(s.take(x.len() as int + 1) =~= x + "-"@);
    assert(s.skip(x.len() as int + 10) =~= m + tail);
}

proof fn lemma_shards_of(s: Seq<char>, j: int, k: int, n: u32, tail: Seq<char>)
    requires
        shard_at(s) == Some((j, k)),
        s.skip(k + 4) == dec(n as nat) + tail,
        tail.len() > 0,
        !is_digit(tail[0]),
    ensures
        shards(s).len() == n,
        forall|i: int| 0 <= i < n ==> #[trigger] shards(s)[i] == shard_name(s.take(j), (i + 1) as nat, dec(n as nat), tail),
{
    let m = dec(n as nat);
    let more = m + tail;
    law_decimal_is_read_back(n as nat, u32::MAX as nat);
    lemma_digits_before(m, tail);
    assert(more.take(m.len() as int) =~= m);
    assert(more.skip(m.len() as int) =~= tail);
}

proof fn lemma_digits_before(m: Seq<char>, tail: Seq<char>)
    requires
        all_digits(m),
        tail.len() > 0,
        !is_digit(tail[0]),
    ensures
        digits_len(m + tail) == m.len(),
    decreases m.len(),
{
    let s = m + tail;
    if m.len() > 0 {
        assert(is_digit(m[0]));
        assert(s.drop_first() =~= m.drop_first() + tail);
        assert forall|i: int| 0 <= i < m.drop_first().len() implies is_digit(#[trigger] m.drop_first()[i]) by {
            assert(is_digit(m[i + 1]));
        }
        lemma_digits_before(m.drop_first(), tail);
    } else {
        assert(s =~= tail);
    }
}

#[verifier::rlimit(40)]
proof fn lemma_shard_by_form(x: Seq<char>, d: Seq<char>, more: Seq<char>)
    requires
        d.len() == 5,
        all_digits(d),
        !holds(x + "-"@, "-of-"@),
    ensures
        shard_at(x + "-"@ + d + "-of-"@ + more) == Some((x.len() as int + 1, x.len() as int + 6)),
{
    reveal_strlit("-of-");
    reveal_strlit("-");
    let of = "-of-"@;
    let pre = x + "-"@;
    let s = x + "-"@ + d + of + more;
    let j = pre.len() as int;
    let k = j + 5;
    assert(s.subrange(k, k + 4) =~= of);
    assert(at(s, k, of));
    lemma_find_from(s, of, 0);
    assert forall|m: int| 0 <= m < k implies !#[trigger] at(s, m, of) by {
        if at(s, m, of) {
            let w = s.subrange(m, m + 4);
            assert(w[0] == s[m] && w[1] == s[m + 1] && w[2] == s[m + 2] && w[3] == s[m + 3]);
            if m + 4 <= j {
                assert(pre.subrange(m, m + 4) =~= w);
                assert(at(pre, m, of));
            } else if m >= j {
                assert(s[m] == d[m - j]);
                assert(is_digit(d[m - j]));
            } else {
                assert(s[j] == d[0]);
                assert(is_digit(d[0]));
                assert(w[j - m] == s[j]);
            }
        }
    }
    assert(find_from(s, of, 0) == Some(k));
    assert(s.subrange(j, k) =~= d);
    lemma_five_digits(s, k);
    assert(s.take(k) =~= pre + d);
    lemma_byte_len_adds(pre, d);
    lemma_byte_len_adds(x, "-"@);
    lemma_byte_len_digits(d);
    assert("-"@ =~= seq!['-']);
    assert(byte_len("-"@) >= 1);
}

/// A download goes to a file of the same name with `.part` behind it, until it is complete; and a
/// file is fetched from its repository.
pub proof fn law_where_a_download_goes(dest: Seq<char>, k: int, windows: bool)
    requires
        end_of(dest, windows) == dest.len(),
        0 < k < base_name(dest, windows).len(),
        base_name(dest, windows)[k] == '.',
    ensures
        part_of(dest, windows) == dest + ".part"@,
        forall|repo: Seq<char>, file: Seq<char>| #[trigger]
            hub_url(repo, file) == "https://huggingface.co/"@ + repo + "/resolve/main/"@ + file,
{
    let name = base_name(dest, windows);
    lemma_last_behind(name, '.', k);
    assert(dest.take(dest.len() as int) =~= dest);
}

proof fn lemma_last_behind(s: Seq<char>, c: char, k: int)
    requires
        0 <= k < s.len(),
        s[k] == c,
    ensures
        last_char(s, c) matches Some(j) && j >= k,
    decreases s.len(),
{
    if s.last() != c {
        assert(k < s.len() - 1);
        lemma_last_behind(s.drop_last(), c, k);
    }
}

} // verus!
