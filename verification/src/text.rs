//! Text helpers. Text is modelled as a sequence of characters; the functions here
//! move between `str`, `String` and `Vec<char>` and carry the searches that the
//! parsers are built from.

use vstd::prelude::*;
use vstd::string::*;
use vstd::utf8::{encode_utf8, encode_utf8_decode_utf8};

verus! {

/// `String::push`: appends one character to the end of the string.
pub assume_specification[ String::push ](s: &mut String, c: char)
    ensures
        final(s)@ == old(s)@.push(c),
;

/// The text in quotes, with what needs it escaped: what `{:?}` gives for it.
pub uninterp spec fn debug_text(s: Seq<char>) -> Seq<char>;

/// The characters that are never escaped in quotes.
pub open spec fn is_unescaped(c: char) -> bool {
    is_ascii_alnum(c) || c == '-' || c == '_' || c == '.' || c == ':' || c == '/' || c == ' '
}

/// `format!` with `{:?}` on a text. It depends on the text alone; letters, digits and
/// the common marks of names stand for themselves between the quotes.
#[verifier::external_body]
pub(crate) fn quoted(s: &str) -> (r: String)
    ensures
        r@ == debug_text(s@),
        (forall|i: int| 0 <= i < s@.len() ==> is_unescaped(#[trigger] s@[i])) ==> r@ == "\""@ + s@ + "\""@,
{
    format!("{:?}", s)
}

/// The characters of a string, in order.
pub fn chars_of(s: &str) -> (r: Vec<char>)
    ensures
        r@ == s@,
{
    let mut out: Vec<char> = Vec::new();
    for c in it: s.chars()
        invariant
            out@ == it.seq().take(it.index() as int),
            it.seq() == s@,
    {
        out.push(c);
    }
    out
}

/// The string that holds the given characters.
pub fn string_of(cs: &[char]) -> (r: String)
    ensures
        r@ == cs@,
{
    let mut out = String::new();
    let mut i: usize = 0;
    while i < cs.len()
        invariant
            i <= cs.len(),
            out@ == cs@.take(i as int),
        decreases cs.len() - i,
    {
        out.push(cs[i]);
        i += 1;
    }
    out
}

/// The string that holds the characters `from..to` of `cs`.
pub fn string_of_range(cs: &Vec<char>, from: usize, to: usize) -> (r: String)
    requires
        from <= to <= cs.len(),
    ensures
        r@ == cs@.subrange(from as int, to as int),
{
    let mut out = String::new();
    let mut i: usize = from;
    while i < to
        invariant
            from <= i <= to <= cs.len(),
            out@ == cs@.subrange(from as int, i as int),
        decreases to - i,
    {
        out.push(cs[i]);
        i += 1;
    }
    out
}

/// Appends the characters of `other` to `out`.
pub fn push_chars(out: &mut Vec<char>, other: &str)
    ensures
        final(out)@ == old(out)@ + other@,
{
    for c in it: other.chars()
        invariant
            out@ == old(out)@ + it.seq().take(it.index() as int),
            it.seq() == other@,
    {
        out.push(c);
    }
    proof {
        assert(other@.take(other@.len() as int) == other@);
    }
}

/// Whether two strings hold the same characters.
pub fn str_eq(a: &str, b: &str) -> (r: bool)
    ensures
        r == (a@ == b@),
{
    let x = a.as_bytes();
    let y = b.as_bytes();
    if x.len() != y.len() {
        return false;
    }
    let mut i: usize = 0;
    while i < x.len()
        invariant
            i <= x.len(),
            x.len() == y.len(),
            x@ == encode_utf8(a@),
            y@ == encode_utf8(b@),
            forall|k: int| 0 <= k < i ==> x@[k] == y@[k],
        decreases x.len() - i,
    {
        if x[i] != y[i] {
            return false;
        }
        i += 1;
    }
    proof {
        assert(x@ =~= y@);
        encode_utf8_decode_utf8(a@);
        encode_utf8_decode_utf8(b@);
    }
    true
}

/// A string list taken by the contents of its items.
pub open spec fn strings(v: Seq<String>) -> Seq<Seq<char>> {
    Seq::new(v.len(), |i: int| v[i]@)
}

/// Whether `v` holds a string with the contents of `s`.
pub fn list_contains(v: &Vec<String>, s: &str) -> (r: bool)
    ensures
        r == strings(v@).contains(s@),
{
    let mut i: usize = 0;
    while i < v.len()
        invariant
            i <= v.len(),
            forall|j: int| 0 <= j < i ==> strings(v@)[j] != s@,
        decreases v.len() - i,
    {
        if str_eq(v[i].as_str(), s) {
            assert(strings(v@)[i as int] == s@);
            return true;
        }
        i += 1;
    }
    false
}

/// A copy of a string list.
pub fn copy_strings(v: &Vec<String>) -> (r: Vec<String>)
    ensures
        strings(r@) == strings(v@),
{
    let mut out: Vec<String> = Vec::new();
    let mut i: usize = 0;
    while i < v.len()
        invariant
            i <= v.len(),
            strings(out@) == strings(v@).take(i as int),
        decreases v.len() - i,
    {
        let ghost before = out@;
        out.push(v[i].clone());
        assert(strings(out@) =~= strings(before).push(v@[i as int]@));
        i += 1;
    }
    assert(strings(v@).take(v@.len() as int) =~= strings(v@));
    out
}

// ---------------------------------------------------------------- characters

pub open spec fn is_digit(c: char) -> bool {
    '0' <= c <= '9'
}

pub fn digit(c: char) -> (r: bool)
    ensures
        r == is_digit(c),
{
    '0' <= c && c <= '9'
}

pub open spec fn is_ascii_upper(c: char) -> bool {
    'A' <= c <= 'Z'
}

pub open spec fn is_ascii_lower(c: char) -> bool {
    'a' <= c <= 'z'
}

pub open spec fn is_ascii_alnum(c: char) -> bool {
    is_digit(c) || is_ascii_upper(c) || is_ascii_lower(c)
}

pub fn ascii_alnum(c: char) -> (r: bool)
    ensures
        r == is_ascii_alnum(c),
{
    digit(c) || ('A' <= c && c <= 'Z') || ('a' <= c && c <= 'z')
}

/// The characters with the Unicode property `White_Space`.
pub open spec fn is_space(c: char) -> bool {
    ||| '\u{9}' <= c <= '\u{d}'
    ||| c == ' '
    ||| c == '\u{85}'
    ||| c == '\u{a0}'
    ||| c == '\u{1680}'
    ||| '\u{2000}' <= c <= '\u{200a}'
    ||| c == '\u{2028}'
    ||| c == '\u{2029}'
    ||| c == '\u{202f}'
    ||| c == '\u{205f}'
    ||| c == '\u{3000}'
}

pub fn space(c: char) -> (r: bool)
    ensures
        r == is_space(c),
{
    ('\u{9}' <= c && c <= '\u{d}') || c == ' ' || c == '\u{85}' || c == '\u{a0}' || c == '\u{1680}' || ('\u{2000}'
        <= c && c <= '\u{200a}') || c == '\u{2028}' || c == '\u{2029}' || c == '\u{202f}' || c == '\u{205f}' || c
        == '\u{3000}'
}

/// The ASCII lower-case form of a character; other characters are themselves.
pub open spec fn lower(c: char) -> char {
    if is_ascii_upper(c) {
        ((c as u32 + 32) as u32) as char
    } else {
        c
    }
}

pub fn to_lower(c: char) -> (r: char)
    ensures
        r == lower(c),
{
    if 'A' <= c && c <= 'Z' {
        ((c as u8) + 32) as char
    } else {
        c
    }
}

/// The ASCII lower-case form of a text.
pub open spec fn lowered(s: Seq<char>) -> Seq<char> {
    Seq::new(s.len(), |i: int| lower(s[i]))
}

pub fn to_lowered(s: &str) -> (r: Vec<char>)
    ensures
        r@ == lowered(s@),
{
    let mut out: Vec<char> = Vec::new();
    for c in it: s.chars()
        invariant
            out@ == lowered(s@).take(it.index() as int),
            it.seq() == s@,
    {
        out.push(to_lower(c));
    }
    out
}

// ---------------------------------------------------------------- searching

/// `p` stands in `s` at position `i`.
pub open spec fn at(s: Seq<char>, i: int, p: Seq<char>) -> bool {
    0 <= i && i + p.len() <= s.len() && s.subrange(i, i + p.len()) == p
}

/// The first position from `i` on at which `p` stands in `s`.
pub open spec fn find_from(s: Seq<char>, p: Seq<char>, i: int) -> Option<int>
    decreases s.len() + 1 - i,
{
    if i < 0 || i + p.len() > s.len() {
        None
    } else if at(s, i, p) {
        Some(i)
    } else {
        find_from(s, p, i + 1)
    }
}

/// `s` begins with `p`.
pub open spec fn begins(s: Seq<char>, p: Seq<char>) -> bool {
    at(s, 0, p)
}

/// `s` ends with `p`.
pub open spec fn ends(s: Seq<char>, p: Seq<char>) -> bool {
    at(s, s.len() - p.len(), p)
}

/// `p` stands somewhere in `s`.
pub open spec fn holds(s: Seq<char>, p: Seq<char>) -> bool {
    exists|i: int| at(s, i, p)
}

/// What `find_from` returns: the first position, and none only where there is none.
pub proof fn lemma_find_from(s: Seq<char>, p: Seq<char>, i: int)
    requires
        0 <= i,
    ensures
        match find_from(s, p, i) {
            Some(k) => i <= k && at(s, k, p) && forall|j: int| i <= j < k ==> !at(s, j, p),
            None => forall|j: int| i <= j ==> !at(s, j, p),
        },
    decreases s.len() + 1 - i,
{
    if i + p.len() > s.len() {
    } else if at(s, i, p) {
    } else {
        lemma_find_from(s, p, i + 1);
    }
}

pub fn is_at(s: &Vec<char>, i: usize, p: &Vec<char>) -> (r: bool)
    ensures
        r == at(s@, i as int, p@),
{
    if i > s.len() || p.len() > s.len() - i {
        return false;
    }
    let mut k: usize = 0;
    while k < p.len()
        invariant
            k <= p.len(),
            i + p.len() <= s.len(),
            forall|j: int| 0 <= j < k ==> s@[i + j] == p@[j],
        decreases p.len() - k,
    {
        if s[i + k] != p[k] {
            assert(s@.subrange(i as int, i + p@.len())[k as int] != p@[k as int]);
            return false;
        }
        k += 1;
    }
    assert(s@.subrange(i as int, i + p@.len()) =~= p@);
    true
}

pub fn find(s: &Vec<char>, p: &Vec<char>, from: usize) -> (r: Option<usize>)
    ensures
        match r {
            Some(k) => find_from(s@, p@, from as int) == Some(k as int) && k + p.len() <= s.len() && from <= k,
            None => find_from(s@, p@, from as int) is None,
        },
{
    let mut i: usize = from;
    while i <= s.len() && p.len() <= s.len() - i
        invariant
            from <= i,
            i <= s.len() + 1 || i == from,
            find_from(s@, p@, from as int) == find_from(s@, p@, i as int),
        decreases s.len() + 1 - i,
    {
        if is_at(s, i, p) {
            return Some(i);
        }
        assert(i < s.len()) by {
            if i == s.len() {
                assert(s@.subrange(i as int, i as int) =~= p@);
            }
        }
        i += 1;
    }
    None
}

pub fn starts_with(s: &str, p: &str) -> (r: bool)
    ensures
        r == begins(s@, p@),
{
    is_at(&chars_of(s), 0, &chars_of(p))
}

pub fn ends_with(s: &str, p: &str) -> (r: bool)
    ensures
        r == ends(s@, p@),
{
    let cs = chars_of(s);
    let cp = chars_of(p);
    if cp.len() > cs.len() {
        return false;
    }
    is_at(&cs, cs.len() - cp.len(), &cp)
}

pub fn contains(s: &str, p: &str) -> (r: bool)
    ensures
        r == holds(s@, p@),
{
    proof {
        lemma_find_from(s@, p@, 0);
    }
    let r = find(&chars_of(s), &chars_of(p), 0);
    r.is_some()
}

/// The first position of character `c` in `s` from `i` on.
pub open spec fn char_from(s: Seq<char>, c: char, i: int) -> Option<int>
    decreases s.len() - i,
{
    if i < 0 || i >= s.len() {
        None
    } else if s[i] == c {
        Some(i)
    } else {
        char_from(s, c, i + 1)
    }
}

pub proof fn lemma_char_from(s: Seq<char>, c: char, i: int)
    requires
        0 <= i,
    ensures
        match char_from(s, c, i) {
            Some(k) => i <= k < s.len() && s[k] == c && forall|j: int| i <= j < k ==> s[j] != c,
            None => forall|j: int| i <= j < s.len() ==> s[j] != c,
        },
    decreases s.len() - i,
{
    if i < s.len() && s[i] != c {
        lemma_char_from(s, c, i + 1);
    }
}

pub fn find_char(s: &Vec<char>, c: char, from: usize) -> (r: Option<usize>)
    ensures
        match r {
            Some(k) => char_from(s@, c, from as int) == Some(k as int) && from <= k < s.len() && s@[k as int] == c
                && (forall|j: int| from <= j < k ==> s@[j] != c),
            None => char_from(s@, c, from as int) is None && (forall|j: int| from <= j < s.len() ==> s@[j] != c),
        },
{
    let mut i: usize = from;
    while i < s.len()
        invariant
            from <= i,
            i <= s.len() || i == from,
            char_from(s@, c, from as int) == char_from(s@, c, i as int),
            forall|j: int| from <= j < i ==> s@[j] != c,
        decreases s.len() - i,
    {
        if s[i] == c {
            return Some(i);
        }
        i += 1;
    }
    None
}

/// The last position of character `c` in `s`.
pub open spec fn last_char(s: Seq<char>, c: char) -> Option<int>
    decreases s.len(),
{
    if s.len() == 0 {
        None
    } else if s.last() == c {
        Some(s.len() - 1)
    } else {
        last_char(s.drop_last(), c)
    }
}

pub fn rfind_char(s: &Vec<char>, c: char) -> (r: Option<usize>)
    ensures
        match r {
            Some(k) => last_char(s@, c) == Some(k as int) && k < s.len() && s@[k as int] == c && (forall|j: int|
                k < j < s.len() ==> s@[j] != c),
            None => last_char(s@, c) is None && (forall|j: int| 0 <= j < s.len() ==> s@[j] != c),
        },
{
    let mut i: usize = s.len();
    assert(s@.take(i as int) =~= s@);
    while i > 0
        invariant
            i <= s.len(),
            last_char(s@, c) == last_char(s@.take(i as int), c),
            forall|j: int| i <= j < s.len() ==> s@[j] != c,
        decreases i,
    {
        assert(s@.take(i as int).drop_last() =~= s@.take(i - 1));
        if s[i - 1] == c {
            return Some(i - 1);
        }
        i -= 1;
    }
    None
}

// ---------------------------------------------------------------- trimming

/// `s` without the white space at its beginning.
pub open spec fn trimmed_start(s: Seq<char>) -> Seq<char>
    decreases s.len(),
{
    if s.len() > 0 && is_space(s[0]) {
        trimmed_start(s.drop_first())
    } else {
        s
    }
}

/// `s` without the white space at its end.
pub open spec fn trimmed_end(s: Seq<char>) -> Seq<char>
    decreases s.len(),
{
    if s.len() > 0 && is_space(s.last()) {
        trimmed_end(s.drop_last())
    } else {
        s
    }
}

/// `s` without the white space at its two ends.
pub open spec fn trimmed(s: Seq<char>) -> Seq<char> {
    trimmed_end(trimmed_start(s))
}

pub fn trim_start(s: &Vec<char>) -> (r: Vec<char>)
    ensures
        r@ == trimmed_start(s@),
        r.len() <= s.len(),
{
    let mut i: usize = 0;
    assert(s@.skip(0) =~= s@);
    while i < s.len() && space(s[i])
        invariant
            i <= s.len(),
            trimmed_start(s@) == trimmed_start(s@.skip(i as int)),
        decreases s.len() - i,
    {
        assert(s@.skip(i as int).drop_first() =~= s@.skip(i + 1));
        i += 1;
    }
    slice(s, i, s.len())
}

pub fn trim_end(s: &Vec<char>) -> (r: Vec<char>)
    ensures
        r@ == trimmed_end(s@),
        r.len() <= s.len(),
{
    let mut i: usize = s.len();
    assert(s@.take(i as int) =~= s@);
    while i > 0 && space(s[i - 1])
        invariant
            i <= s.len(),
            trimmed_end(s@) == trimmed_end(s@.take(i as int)),
        decreases i,
    {
        assert(s@.take(i as int).drop_last() =~= s@.take(i - 1));
        i -= 1;
    }
    assert(s@.subrange(0, i as int) =~= s@.take(i as int));
    slice(s, 0, i)
}

pub fn trim(s: &Vec<char>) -> (r: Vec<char>)
    ensures
        r@ == trimmed(s@),
        r.len() <= s.len(),
{
    trim_end(&trim_start(s))
}

pub fn trim_str(s: &str) -> (r: String)
    ensures
        r@ == trimmed(s@),
{
    string_of(&trim(&chars_of(s)))
}

/// The characters `from..to`.
pub fn slice(s: &Vec<char>, from: usize, to: usize) -> (r: Vec<char>)
    requires
        from <= to <= s.len(),
    ensures
        r@ == s@.subrange(from as int, to as int),
{
    let mut out: Vec<char> = Vec::new();
    let mut i: usize = from;
    while i < to
        invariant
            from <= i <= to <= s.len(),
            out@ == s@.subrange(from as int, i as int),
        decreases to - i,
    {
        out.push(s[i]);
        i += 1;
    }
    out
}

// ---------------------------------------------------------------- splitting

/// The pieces of `s` between the occurrences of `c`; there is always at least one.
pub open spec fn split_on(s: Seq<char>, c: char) -> Seq<Seq<char>>
    decreases s.len(),
{
    match char_from(s, c, 0) {
        Some(k) => if 0 <= k < s.len() {
            seq![s.take(k)] + split_on(s.skip(k + 1), c)
        } else {
            seq![s]
        },
        None => seq![s],
    }
}

/// Lists of characters taken by their contents.
pub open spec fn char_lists(v: Seq<Vec<char>>) -> Seq<Seq<char>> {
    Seq::new(v.len(), |i: int| v[i]@)
}

pub fn split_char(s: &Vec<char>, c: char) -> (r: Vec<Vec<char>>)
    ensures
        char_lists(r@) == split_on(s@, c),
        r.len() > 0,
{
    let mut out: Vec<Vec<char>> = Vec::new();
    let mut i: usize = 0;
    assert(s@.skip(0) =~= s@);
    loop
        invariant
            i <= s.len(),
            split_on(s@, c) == char_lists(out@) + split_on(s@.skip(i as int), c),
        decreases s.len() - i,
    {
        let rest = slice(s, i, s.len());
        assert(rest@ =~= s@.skip(i as int));
        match find_char(&rest, c, 0) {
            Some(k) => {
                let piece = slice(&rest, 0, k);
                let ghost before = out@;
                assert(piece@ =~= rest@.take(k as int));
                out.push(piece);
                assert(char_lists(out@) =~= char_lists(before).push(piece@));
                assert(rest@.skip(k + 1) =~= s@.skip(i + k + 1));
                assert(char_lists(before) + (seq![piece@] + split_on(s@.skip(i + k + 1), c)) =~= char_lists(out@)
                    + split_on(s@.skip(i + k + 1), c));
                i = i + k + 1;
            },
            None => {
                let ghost before = out@;
                out.push(rest);
                assert(char_lists(out@) =~= char_lists(before) + seq![rest@]);
                return out;
            },
        }
    }
}

/// A line without the carriage return that may end it.
pub open spec fn chomped(s: Seq<char>) -> Seq<char> {
    if s.len() > 0 && s.last() == '\r' {
        s.drop_last()
    } else {
        s
    }
}

/// The lines of a text: what stands between the line feeds, each without a closing
/// carriage return; a line feed at the end opens no further line.
pub open spec fn lines_of(s: Seq<char>) -> Seq<Seq<char>>
    decreases s.len(),
{
    if s.len() == 0 {
        Seq::empty()
    } else {
        match char_from(s, '\n', 0) {
            Some(k) => if 0 <= k < s.len() {
                seq![chomped(s.take(k))] + lines_of(s.skip(k + 1))
            } else {
                seq![s]
            },
            None => seq![s],
        }
    }
}

pub fn lines(s: &Vec<char>) -> (r: Vec<Vec<char>>)
    ensures
        char_lists(r@) == lines_of(s@),
{
    let mut out: Vec<Vec<char>> = Vec::new();
    let mut i: usize = 0;
    assert(s@.skip(0) =~= s@);
    assert(char_lists(out@) =~= Seq::<Seq<char>>::empty());
    while i < s.len()
        invariant
            i <= s.len(),
            lines_of(s@) == char_lists(out@) + lines_of(s@.skip(i as int)),
        decreases s.len() - i,
    {
        let rest = slice(s, i, s.len());
        assert(rest@ =~= s@.skip(i as int));
        match find_char(&rest, '\n', 0) {
            Some(k) => {
                let end: usize = if k > 0 && rest[k - 1] == '\r' {
                    k - 1
                } else {
                    k
                };
                let piece = slice(&rest, 0, end);
                let ghost before = out@;
                assert(piece@ =~= chomped(rest@.take(k as int)));
                out.push(piece);
                assert(char_lists(out@) =~= char_lists(before).push(piece@));
                assert(rest@.skip(k + 1) =~= s@.skip(i + k + 1));
                assert(char_lists(before) + (seq![piece@] + lines_of(s@.skip(i + k + 1))) =~= char_lists(out@)
                    + lines_of(s@.skip(i + k + 1)));
                i = i + k + 1;
            },
            None => {
                let ghost before = out@;
                out.push(rest);
                assert(char_lists(out@) =~= char_lists(before) + seq![rest@]);
                return out;
            },
        }
    }
    assert(lines_of(s@.skip(i as int)) =~= Seq::<Seq<char>>::empty());
    out
}

/// The pieces joined, with `sep` between each two.
pub open spec fn joined(v: Seq<Seq<char>>, sep: Seq<char>) -> Seq<char>
    decreases v.len(),
{
    if v.len() == 0 {
        Seq::empty()
    } else if v.len() == 1 {
        v[0]
    } else {
        joined(v.drop_last(), sep) + sep + v.last()
    }
}

pub fn join(v: &Vec<String>, sep: &str) -> (r: String)
    ensures
        r@ == joined(strings(v@), sep@),
{
    let mut out = String::new();
    let mut i: usize = 0;
    while i < v.len()
        invariant
            i <= v.len(),
            out@ == joined(strings(v@).take(i as int), sep@),
        decreases v.len() - i,
    {
        let ghost t = strings(v@).take(i + 1);
        assert(t.drop_last() =~= strings(v@).take(i as int));
        if i > 0 {
            out.append(sep);
        } else {
            assert(t =~= seq![v@[0]@]);
            assert(out@ =~= Seq::<char>::empty());
        }
        let ghost prev = out@;
        out.append(v[i].as_str());
        if i == 0 {
            assert(out@ =~= v@[0]@);
        }
        i += 1;
    }
    assert(strings(v@).take(v@.len() as int) =~= strings(v@));
    out
}

// ---------------------------------------------------------------- numbers

/// The decimal digit of a number below ten.
pub open spec fn digit_char(d: nat) -> char {
    (('0' as u32 + d) as u32) as char
}

/// A number in decimal.
pub open spec fn dec(n: nat) -> Seq<char>
    decreases n,
{
    if n < 10 {
        seq![digit_char(n)]
    } else {
        dec(n / 10).push(digit_char(n % 10))
    }
}

pub fn dec_u128(n: u128) -> (r: String)
    ensures
        r@ == dec(n as nat),
    decreases n,
{
    if n < 10 {
        let mut s = String::new();
        s.push((48u8 + n as u8) as char);
        assert(s@ =~= seq![digit_char(n as nat)]);
        s
    } else {
        let mut s = dec_u128(n / 10);
        s.push((48u8 + (n % 10) as u8) as char);
        s
    }
}

pub fn dec_u64(n: u64) -> (r: String)
    ensures
        r@ == dec(n as nat),
{
    dec_u128(n as u128)
}

/// The value of a text of decimal digits.
pub open spec fn digits_value(s: Seq<char>) -> nat
    decreases s.len(),
{
    if s.len() == 0 {
        0
    } else {
        digits_value(s.drop_last()) * 10 + (s.last() as u32 - '0' as u32) as nat
    }
}

pub open spec fn all_digits(s: Seq<char>) -> bool {
    forall|i: int| 0 <= i < s.len() ==> is_digit(#[trigger] s[i])
}

/// The number that a text of digits denotes, where it is one and is at most `max`.
/// A plus sign may stand before the digits.
pub open spec fn number(s: Seq<char>, max: nat) -> Option<nat> {
    let d = if s.len() > 0 && s[0] == '+' {
        s.drop_first()
    } else {
        s
    };
    if d.len() > 0 && all_digits(d) && digits_value(d) <= max {
        Some(digits_value(d))
    } else {
        None
    }
}

proof fn lemma_dec(n: nat)
    ensures
        dec(n).len() > 0,
        all_digits(dec(n)),
        digits_value(dec(n)) == n,
    decreases n,
{
    if n < 10 {
        let s = dec(n);
        assert(is_digit(s[0]));
        assert(s.drop_last() =~= Seq::<char>::empty());
        assert(digits_value(Seq::<char>::empty()) == 0);
        assert(s.last() as u32 == '0' as u32 + n);
    } else {
        lemma_dec(n / 10);
        let p = dec(n / 10);
        let s = dec(n);
        assert(s.drop_last() =~= p);
        assert(s.last() as u32 == '0' as u32 + n % 10);
        assert forall|i: int| 0 <= i < s.len() implies is_digit(#[trigger] s[i]) by {
            if i < p.len() {
                assert(s[i] == p[i]);
            }
        }
    }
}

/// A number that is written in decimal is read back, and is written in digits alone, without
/// zeros before it.
pub proof fn law_decimal_is_read_back(n: nat, max: nat)
    ensures
        n <= max ==> number(dec(n), max) == Some(n),
        n > max ==> number(dec(n), max) is None,
        all_digits(dec(n)),
        dec(n).len() > 0,
        n > 0 ==> dec(n)[0] != '0',
{
    lemma_dec(n);
    assert(is_digit(dec(n)[0]));
    if n > 0 {
        lemma_dec_first(n);
    }
}

proof fn lemma_dec_first(n: nat)
    requires
        n > 0,
    ensures
        dec(n).len() > 0,
        dec(n)[0] != '0',
    decreases n,
{
    if n < 10 {
        assert(dec(n)[0] as u32 == '0' as u32 + n);
    } else {
        lemma_dec_first(n / 10);
    }
}

pub proof fn lemma_digits_value_grows(s: Seq<char>, n: int)
    requires
        0 <= n <= s.len(),
        all_digits(s),
    ensures
        digits_value(s.take(n)) <= digits_value(s),
    decreases s.len() - n,
{
    if n == s.len() {
        assert(s.take(n) =~= s);
    } else {
        lemma_digits_value_grows(s, n + 1);
        assert(s.take(n + 1).drop_last() =~= s.take(n));
        assert(is_digit(s[n]));
    }
}

/// Reads an unsigned number that is at most `max`.
pub fn parse_number(s: &Vec<char>, max: u64) -> (r: Option<u64>)
    ensures
        match r {
            Some(n) => number(s@, max as nat) == Some(n as nat),
            None => number(s@, max as nat) is None,
        },
{
    let start: usize = if s.len() > 0 && s[0] == '+' {
        1
    } else {
        0
    };
    let ghost d = if s@.len() > 0 && s@[0] == '+' {
        s@.drop_first()
    } else {
        s@
    };
    assert(d =~= s@.skip(start as int));
    if s.len() == start {
        return None;
    }
    let mut n: u64 = 0;
    let mut i: usize = start;
    while i < s.len()
        invariant
            start <= i <= s.len(),
            start <= 1,
            d == s@.skip(start as int),
            d.len() == s@.len() - start,
            forall|j: int| 0 <= j < i - start ==> is_digit(#[trigger] d[j]),
            n == digits_value(d.take(i - start)),
            n <= max,
            all_digits(d) && digits_value(d) <= max ==> number(s@, max as nat) == Some(digits_value(d)),
            !(all_digits(d) && digits_value(d) <= max) ==> number(s@, max as nat) is None,
        decreases s.len() - i,
    {
        let c = s[i];
        assert(d[i - start] == c);
        if !digit(c) {
            return None;
        }
        let v: u64 = (c as u32 - 48) as u64;
        assert(d.take(i + 1 - start).drop_last() =~= d.take(i - start));
        let grown: u128 = n as u128 * 10 + v as u128;
        assert(grown == digits_value(d.take(i + 1 - start)));
        if grown > max as u128 {
            proof {
                if all_digits(d) {
                    lemma_digits_value_grows(d, i + 1 - start);
                }
            }
            return None;
        }
        n = grown as u64;
        i += 1;
    }
    assert(d.take(d.len() as int) =~= d);
    Some(n)
}

// ---------------------------------------------------------------- rewriting

/// `s` without `p` at its beginning, where it begins with `p`.
pub open spec fn without_prefix(s: Seq<char>, p: Seq<char>) -> Seq<char> {
    if begins(s, p) {
        s.skip(p.len() as int)
    } else {
        s
    }
}

/// `s` without `p` at its end, where it ends with `p`.
pub open spec fn without_suffix(s: Seq<char>, p: Seq<char>) -> Seq<char> {
    if ends(s, p) {
        s.take(s.len() - p.len())
    } else {
        s
    }
}

/// `s` without any number of `p` at its beginning.
pub open spec fn without_prefixes(s: Seq<char>, p: Seq<char>) -> Seq<char>
    decreases s.len(),
{
    if p.len() > 0 && begins(s, p) {
        without_prefixes(s.skip(p.len() as int), p)
    } else {
        s
    }
}

pub fn strip_prefix(s: &Vec<char>, p: &str) -> (r: Vec<char>)
    ensures
        r@ == without_prefix(s@, p@),
{
    let cp = chars_of(p);
    if is_at(s, 0, &cp) {
        let r = slice(s, cp.len(), s.len());
        assert(r@ =~= s@.skip(p@.len() as int));
        r
    } else {
        let r = slice(s, 0, s.len());
        assert(r@ =~= s@);
        r
    }
}

pub fn strip_suffix(s: &Vec<char>, p: &str) -> (r: Vec<char>)
    ensures
        r@ == without_suffix(s@, p@),
{
    let cp = chars_of(p);
    if cp.len() <= s.len() && is_at(s, s.len() - cp.len(), &cp) {
        let r = slice(s, 0, s.len() - cp.len());
        assert(r@ =~= s@.take(s@.len() - p@.len()));
        r
    } else {
        let r = slice(s, 0, s.len());
        assert(r@ =~= s@);
        r
    }
}

pub fn strip_prefixes(s: &Vec<char>, p: &str) -> (r: Vec<char>)
    ensures
        r@ == without_prefixes(s@, p@),
{
    let cp = chars_of(p);
    let mut i: usize = 0;
    assert(s@.skip(0) =~= s@);
    while cp.len() > 0 && is_at(s, i, &cp)
        invariant
            cp@ == p@,
            i <= s.len(),
            without_prefixes(s@, p@) == without_prefixes(s@.skip(i as int), p@),
        decreases s.len() - i,
    {
        proof {
            let rest = s@.skip(i as int);
            assert(rest.subrange(0, p@.len() as int) =~= s@.subrange(i as int, i + p@.len()));
            assert(begins(rest, p@));
            assert(rest.skip(p@.len() as int) =~= s@.skip(i + p@.len()));
        }
        i = i + cp.len();
    }
    proof {
        let rest = s@.skip(i as int);
        if p@.len() > 0 && begins(rest, p@) {
            assert(rest.subrange(0, p@.len() as int) =~= s@.subrange(i as int, i + p@.len()));
        }
    }
    let r = slice(s, i, s.len());
    assert(r@ =~= s@.skip(i as int));
    r
}

/// `s` with every occurrence of `from` replaced, from left to right.
pub open spec fn replaced(s: Seq<char>, from: Seq<char>, to: Seq<char>) -> Seq<char>
    decreases s.len(),
{
    match find_from(s, from, 0) {
        Some(k) => if from.len() > 0 && 0 <= k && k + from.len() <= s.len() {
            s.take(k) + to + replaced(s.skip(k + from.len()), from, to)
        } else {
            s
        },
        None => s,
    }
}

pub fn replace(s: &Vec<char>, from: &str, to: &str) -> (r: Vec<char>)
    requires
        from@.len() > 0,
    ensures
        r@ == replaced(s@, from@, to@),
{
    let cf = chars_of(from);
    let mut out: Vec<char> = Vec::new();
    let mut rest = slice(s, 0, s.len());
    assert(rest@ =~= s@);
    assert(out@ + replaced(rest@, from@, to@) =~= replaced(s@, from@, to@));
    loop
        invariant
            cf@ == from@,
            from@.len() > 0,
            replaced(s@, from@, to@) == out@ + replaced(rest@, from@, to@),
        decreases rest.len(),
    {
        match find(&rest, &cf, 0) {
            Some(k) => {
                let ghost before = out@;
                let mut head = slice(&rest, 0, k);
                assert(head@ =~= rest@.take(k as int));
                out.append(&mut head);
                push_chars(&mut out, to);
                let next = slice(&rest, k + cf.len(), rest.len());
                assert(next@ =~= rest@.skip(k + from@.len()));
                assert(out@ + replaced(next@, from@, to@) =~= before + (rest@.take(k as int) + to@ + replaced(
                    next@,
                    from@,
                    to@,
                )));
                rest = next;
            },
            None => {
                out.append(&mut rest);
                return out;
            },
        }
    }
}

/// `s` with each character in `from` replaced by `to`.
pub open spec fn with_char(s: Seq<char>, from: Seq<char>, to: char) -> Seq<char> {
    Seq::new(
        s.len(),
        |i: int|
            if from.contains(s[i]) {
                to
            } else {
                s[i]
            },
    )
}

pub fn replace_chars(s: &Vec<char>, from: &Vec<char>, to: char) -> (r: Vec<char>)
    ensures
        r@ == with_char(s@, from@, to),
{
    let mut out: Vec<char> = Vec::new();
    let mut i: usize = 0;
    while i < s.len()
        invariant
            i <= s.len(),
            out@ == with_char(s@, from@, to).take(i as int),
        decreases s.len() - i,
    {
        if find_char(from, s[i], 0).is_some() {
            assert(from@.contains(s@[i as int]));
            out.push(to);
        } else {
            out.push(s[i]);
        }
        i += 1;
    }
    out
}

/// The first `n` characters, or all where there are fewer.
pub open spec fn first_chars(s: Seq<char>, n: nat) -> Seq<char> {
    if s.len() <= n {
        s
    } else {
        s.take(n as int)
    }
}

pub fn take_chars(s: &str, n: usize) -> (r: String)
    ensures
        r@ == first_chars(s@, n as nat),
{
    let cs = chars_of(s);
    let k: usize = if cs.len() <= n {
        cs.len()
    } else {
        n
    };
    let r = string_of_range(&cs, 0, k);
    assert(r@ =~= first_chars(s@, n as nat));
    r
}

/// `s` without the character `c` at its two ends.
pub open spec fn without_ends(s: Seq<char>, c: char) -> Seq<char>
    decreases s.len(),
{
    if s.len() > 0 && s[0] == c {
        without_ends(s.drop_first(), c)
    } else if s.len() > 0 && s.last() == c {
        without_ends(s.drop_last(), c)
    } else {
        s
    }
}

pub fn trim_matches(s: &Vec<char>, c: char) -> (r: Vec<char>)
    ensures
        r@ == without_ends(s@, c),
{
    let mut i: usize = 0;
    let mut j: usize = s.len();
    assert(s@.subrange(0, s@.len() as int) =~= s@);
    while i < j && (s[i] == c || s[j - 1] == c)
        invariant
            i <= j <= s.len(),
            without_ends(s@, c) == without_ends(s@.subrange(i as int, j as int), c),
        decreases j - i,
    {
        let ghost cur = s@.subrange(i as int, j as int);
        if s[i] == c {
            assert(cur.drop_first() =~= s@.subrange(i + 1, j as int));
            i += 1;
        } else {
            assert(cur.drop_last() =~= s@.subrange(i as int, j - 1));
            j -= 1;
        }
    }
    slice(s, i, j)
}

/// `s` with zeros before it up to a width.
pub open spec fn padded(s: Seq<char>, width: nat) -> Seq<char> {
    if s.len() >= width {
        s
    } else {
        Seq::new((width - s.len()) as nat, |i: int| '0') + s
    }
}

pub fn pad_zeros(s: &str, width: usize) -> (r: String)
    ensures
        r@ == padded(s@, width as nat),
{
    let n = s.unicode_len();
    let mut out = String::new();
    let mut i: usize = n;
    while i < width
        invariant
            n == s@.len(),
            n <= i,
            i <= width || i == n,
            out@ == Seq::new((i - n) as nat, |k: int| '0'),
        decreases width - i,
    {
        out.push('0');
        assert(out@ =~= Seq::new((i + 1 - n) as nat, |k: int| '0'));
        i += 1;
    }
    out.append(s);
    assert(out@ =~= padded(s@, width as nat));
    out
}

/// The integer that a text denotes: decimal digits with an optional sign, in the
/// range of `i64`.
pub open spec fn integer(s: Seq<char>) -> Option<int> {
    if s.len() > 0 && s[0] == '-' {
        let d = s.drop_first();
        if d.len() > 0 && all_digits(d) && digits_value(d) <= 0x8000_0000_0000_0000 {
            Some(-(digits_value(d) as int))
        } else {
            None
        }
    } else {
        match number(s, 0x7fff_ffff_ffff_ffff) {
            Some(n) => Some(n as int),
            None => None,
        }
    }
}

pub fn parse_integer(s: &Vec<char>) -> (r: Option<i64>)
    ensures
        match r {
            Some(n) => integer(s@) == Some(n as int),
            None => integer(s@) is None,
        },
{
    if s.len() > 0 && s[0] == '-' {
        let d = slice(s, 1, s.len());
        assert(d@ =~= s@.drop_first());
        if d.len() > 0 && d[0] == '+' {
            assert(!is_digit(d@[0]));
            return None;
        }
        match parse_number(&d, 0x8000_0000_0000_0000) {
            Some(n) => Some((-(n as i128)) as i64),
            None => None,
        }
    } else {
        match parse_number(s, 0x7fff_ffff_ffff_ffff) {
            Some(n) => Some(n as i64),
            None => None,
        }
    }
}

// ---------------------------------------------------------------- order

/// `a` comes before `b` in the order of strings: by the first character in which
/// they differ, a proper prefix first.
pub open spec fn before(a: Seq<char>, b: Seq<char>) -> bool
    decreases a.len(),
{
    if b.len() == 0 {
        false
    } else if a.len() == 0 {
        true
    } else if a[0] != b[0] {
        a[0] < b[0]
    } else {
        before(a.drop_first(), b.drop_first())
    }
}

pub proof fn lemma_before_irreflexive(a: Seq<char>)
    ensures
        !before(a, a),
    decreases a.len(),
{
    if a.len() > 0 {
        lemma_before_irreflexive(a.drop_first());
    }
}

pub proof fn lemma_before_total(a: Seq<char>, b: Seq<char>)
    ensures
        before(a, b) || a == b || before(b, a),
    decreases a.len(),
{
    if a.len() > 0 && b.len() > 0 {
        if a[0] == b[0] {
            lemma_before_total(a.drop_first(), b.drop_first());
            if a.drop_first() == b.drop_first() {
                assert(a =~= seq![a[0]] + a.drop_first());
                assert(b =~= seq![b[0]] + b.drop_first());
            }
        }
    } else if a.len() == 0 && b.len() == 0 {
        assert(a =~= b);
    }
}

pub proof fn lemma_before_transitive(a: Seq<char>, b: Seq<char>, c: Seq<char>)
    requires
        before(a, b),
        before(b, c),
    ensures
        before(a, c),
    decreases a.len(),
{
    if a.len() > 0 {
        if a[0] == b[0] && b[0] == c[0] {
            lemma_before_transitive(a.drop_first(), b.drop_first(), c.drop_first());
        }
    }
}

pub fn is_before(a: &str, b: &str) -> (r: bool)
    ensures
        r == before(a@, b@),
{
    let ca = chars_of(a);
    let cb = chars_of(b);
    let mut i: usize = 0;
    assert(a@.skip(0) =~= a@);
    assert(b@.skip(0) =~= b@);
    while i < ca.len() && i < cb.len()
        invariant
            ca@ == a@,
            cb@ == b@,
            i <= ca.len(),
            i <= cb.len(),
            before(a@, b@) == before(a@.skip(i as int), b@.skip(i as int)),
        decreases ca.len() - i,
    {
        assert(a@.skip(i as int).drop_first() =~= a@.skip(i + 1));
        assert(b@.skip(i as int).drop_first() =~= b@.skip(i + 1));
        if ca[i] != cb[i] {
            return ca[i] < cb[i];
        }
        i += 1;
    }
    i < cb.len()
}

// ---------------------------------------------------------------- laws

/// Trimming takes off white space at the two ends, all of it, and nothing else.
pub proof fn law_trimming_takes_off_white_space(s: Seq<char>) -> (r: (int, int))
    ensures
        0 <= r.0 <= r.1 <= s.len(),
        trimmed(s) == s.subrange(r.0, r.1),
        forall|k: int| 0 <= k < s.len() && !(r.0 <= k < r.1) ==> is_space(#[trigger] s[k]),
        r.0 < r.1 ==> !is_space(s[r.0]) && !is_space(s[r.1 - 1]),
{
    let i = lemma_trim_start(s);
    let t = trimmed_start(s);
    let j = lemma_trim_end(t);
    assert(t.take(j) =~= s.subrange(i, i + j));
    assert forall|k: int| 0 <= k < s.len() && !(i <= k < i + j) implies is_space(#[trigger] s[k]) by {
        if k >= i {
            assert(t[k - i] == s[k]);
        }
    }
    if j > 0 {
        assert(t[0] == s[i]);
        assert(t[j - 1] == s[i + j - 1]);
    }
    (i, i + j)
}

proof fn lemma_trim_start(s: Seq<char>) -> (i: int)
    ensures
        0 <= i <= s.len(),
        trimmed_start(s) == s.skip(i),
        forall|k: int| 0 <= k < i ==> is_space(#[trigger] s[k]),
        i < s.len() ==> !is_space(s[i]),
    decreases s.len(),
{
    if s.len() > 0 && is_space(s[0]) {
        let d = s.drop_first();
        let i = lemma_trim_start(d);
        assert(d.skip(i) =~= s.skip(i + 1));
        assert forall|k: int| 0 <= k < i + 1 implies is_space(#[trigger] s[k]) by {
            if k > 0 {
                assert(d[k - 1] == s[k]);
            }
        }
        if i < d.len() {
            assert(d[i] == s[i + 1]);
        }
        i + 1
    } else {
        assert(s.skip(0) =~= s);
        0
    }
}

proof fn lemma_trim_end(s: Seq<char>) -> (j: int)
    ensures
        0 <= j <= s.len(),
        trimmed_end(s) == s.take(j),
        forall|k: int| j <= k < s.len() ==> is_space(#[trigger] s[k]),
        j > 0 ==> !is_space(s[j - 1]),
        s.len() > 0 && !is_space(s[0]) ==> j > 0,
    decreases s.len(),
{
    if s.len() > 0 && is_space(s.last()) {
        let d = s.drop_last();
        let j = lemma_trim_end(d);
        assert(d.take(j) =~= s.take(j));
        assert forall|k: int| j <= k < s.len() implies is_space(#[trigger] s[k]) by {
            if k < d.len() {
                assert(d[k] == s[k]);
            }
        }
        j
    } else {
        assert(s.take(s.len() as int) =~= s);
        s.len() as int
    }
}

/// A line ends at a line feed, which belongs to no line; a carriage return before it does not
/// either. What follows the last line feed is a line where it is not empty.
pub proof fn law_lines_end_at_line_feeds(a: Seq<char>, b: Seq<char>)
    requires
        forall|k: int| 0 <= k < a.len() ==> #[trigger] a[k] != '\n' && a[k] != '\r',
    ensures
        lines_of(a + seq!['\n'] + b) == seq![a] + lines_of(b),
        lines_of(a + seq!['\r', '\n'] + b) == seq![a] + lines_of(b),
        a.len() > 0 ==> lines_of(a) == seq![a],
        lines_of(Seq::empty()).len() == 0,
{
    let s = a + seq!['\n'] + b;
    lemma_first_char(s, '\n', 0, a.len() as int);
    assert(s.take(a.len() as int) =~= a);
    assert(s.skip(a.len() as int + 1) =~= b);
    let t = a + seq!['\r', '\n'] + b;
    lemma_first_char(t, '\n', 0, a.len() as int + 1);
    assert(t.take(a.len() as int + 1) =~= a.push('\r'));
    assert(t.skip(a.len() as int + 2) =~= b);
    assert(a.push('\r').drop_last() =~= a);
    if a.len() > 0 {
        assert(a[a.len() - 1] != '\r');
        lemma_no_char(a, '\n', 0);
    }
    assert(chomped(a) == a);
}

proof fn lemma_first_char(s: Seq<char>, c: char, i: int, k: int)
    requires
        0 <= i <= k < s.len(),
        s[k] == c,
        forall|j: int| i <= j < k ==> s[j] != c,
    ensures
        char_from(s, c, i) == Some(k),
    decreases k - i,
{
    if i < k {
        lemma_first_char(s, c, i + 1, k);
    }
}

proof fn lemma_no_char(s: Seq<char>, c: char, i: int)
    requires
        0 <= i <= s.len(),
        forall|j: int| i <= j < s.len() ==> s[j] != c,
    ensures
        char_from(s, c, i) is None,
    decreases s.len() - i,
{
    if i < s.len() {
        lemma_no_char(s, c, i + 1);
    }
}

/// What was joined by a character is taken apart again at it, where none of the pieces holds it.
pub proof fn law_joined_pieces_are_taken_apart(v: Seq<Seq<char>>, c: char)
    requires
        v.len() > 0,
        forall|i: int| 0 <= i < v.len() ==> !(#[trigger] v[i]).contains(c),
    ensures
        split_on(joined(v, seq![c]), c) == v,
    decreases v.len(),
{
    let sep = seq![c];
    if v.len() == 1 {
        lemma_char_from(v[0], c, 0);
        assert(split_on(v[0], c) =~= v);
    } else {
        let rest = v.drop_first();
        lemma_joined_first(v, sep);
        let s = joined(v, sep);
        let k = v[0].len() as int;
        assert(s == v[0] + sep + joined(rest, sep));
        lemma_char_from(s, c, 0);
        assert(s[k] == c);
        assert forall|j: int| 0 <= j < k implies s[j] != c by {
            assert(s[j] == v[0][j]);
        }
        assert(char_from(s, c, 0) == Some(k));
        assert(s.take(k) =~= v[0]);
        assert(s.skip(k + 1) =~= joined(rest, sep));
        assert forall|i: int| 0 <= i < rest.len() implies !(#[trigger] rest[i]).contains(c) by {
            assert(rest[i] == v[i + 1]);
        }
        law_joined_pieces_are_taken_apart(rest, c);
        assert(seq![v[0]] + rest =~= v);
    }
}

proof fn lemma_joined_first(v: Seq<Seq<char>>, sep: Seq<char>)
    requires
        v.len() > 1,
    ensures
        joined(v, sep) == v[0] + sep + joined(v.drop_first(), sep),
    decreases v.len(),
{
    let r = v.drop_first();
    if v.len() == 2 {
        assert(v.drop_last().len() == 1);
        assert(joined(v.drop_last(), sep) == v[0]);
        assert(r.len() == 1 && r[0] == v[1]);
    } else {
        let w = v.drop_last();
        lemma_joined_first(w, sep);
        assert(w.drop_first() =~= r.drop_last());
        assert(r.last() == v.last());
        assert(joined(v, sep) =~= v[0] + sep + (joined(r.drop_last(), sep) + sep + r.last()));
    }
}

/// Every occurrence of a text is replaced, from the first on, and what stands between them is left.
pub proof fn law_every_occurrence_is_replaced(a: Seq<char>, from: Seq<char>, b: Seq<char>, to: Seq<char>)
    requires
        from.len() > 0,
        forall|j: int| 0 <= j < a.len() ==> !#[trigger] at(a + from + b, j, from),
    ensures
        replaced(a + from + b, from, to) == a + to + replaced(b, from, to),
        !holds(b, from) ==> replaced(b, from, to) == b,
{
    let s = a + from + b;
    let k = a.len() as int;
    lemma_find_from(s, from, 0);
    assert(s.subrange(k, k + from.len()) =~= from);
    assert(at(s, k, from));
    assert(find_from(s, from, 0) == Some(k));
    assert(s.take(k) =~= a);
    assert(s.skip(k + from.len()) =~= b);
    lemma_find_from(b, from, 0);
    if !holds(b, from) {
        if let Some(m) = find_from(b, from, 0) {
            assert(at(b, m, from));
        }
    }
}

} // verus!
