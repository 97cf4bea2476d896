//! What the tools of the system say of the GPU and of the memory.

use crate::discover::{strip_suffixes, without_suffixes};
use crate::facts::wide_product;
use crate::message::at_most;
use crate::text::{
    begins, char_lists, chars_of, contains, dec, find, find_from, holds, is_at, is_digit, is_space,
    joined, law_decimal_is_read_back, law_joined_pieces_are_taken_apart,
    law_lines_end_at_line_feeds, law_trimming_takes_off_white_space, lines, lines_of, number,
    parse_number, slice, space, split_char, split_on, starts_with, string_of, trim, trim_str,
    trimmed,
};
use vstd::prelude::*;
use vstd::string::*;

verus! {

#[derive(Debug, Clone, Copy, PartialEq, Eq, Structural)]
pub struct GpuMem {
    pub total_mib: u64,
    pub used_mib: u64,
    pub free_mib: u64,
}

/// MiB in bytes; what is above 2^44 MiB is lost, as the shift loses it.
pub open spec fn mib_bytes(mib: u64) -> nat {
    ((mib as nat * 0x10_0000) % 0x1_0000_0000_0000_0000) as nat
}

pub(crate) fn shift_mib(mib: u64) -> (r: u64)
    ensures
        r == mib_bytes(mib),
{
    ((mib as u128 * 0x10_0000) % 0x1_0000_0000_0000_0000) as u64
}

impl GpuMem {
    pub fn total_bytes(&self) -> (r: u64)
        ensures
            r == mib_bytes(self.total_mib),
    {
        shift_mib(self.total_mib)
    }

    pub fn free_bytes(&self) -> (r: u64)
        ensures
            r == mib_bytes(self.free_mib),
    {
        shift_mib(self.free_mib)
    }
}

#[derive(Debug)]
pub struct GpuInfo {
    pub name: String,
    pub driver: String,
    pub mem: GpuMem,
}

/// Why the output of the tool cannot be used.
#[derive(Debug, Clone, Copy, PartialEq, Eq, Structural)]
pub enum GpuError {
    /// There are fewer than five fields.
    Shape,
    /// The field of that number is no number.
    Field(usize),
}

/// The first line of a text, without white space around it.
pub open spec fn first_line(text: Seq<char>) -> Seq<char> {
    trimmed(
        if lines_of(text).len() > 0 {
            lines_of(text)[0]
        } else {
            Seq::empty()
        },
    )
}

/// The fields of a line, separated by commas, without white space around them.
pub open spec fn fields_of(line: Seq<char>) -> Seq<Seq<char>> {
    let p = split_on(line, ',');
    Seq::new(p.len(), |i: int| trimmed(p[i]))
}

/// What the output says: the name, the driver, and the memory in all, in use and
/// free.
pub open spec fn gpu_of(text: Seq<char>) -> Result<(Seq<char>, Seq<char>, GpuMem), GpuError> {
    let f = fields_of(first_line(text));
    if f.len() < 5 {
        Err(GpuError::Shape)
    } else {
        match (number(f[2], u64::MAX as nat), number(f[3], u64::MAX as nat), number(f[4], u64::MAX as nat)) {
            (Some(t), Some(u), Some(v)) => Ok(
                (f[0], f[1], GpuMem { total_mib: t as u64, used_mib: u as u64, free_mib: v as u64 }),
            ),
            (None, _, _) => Err(GpuError::Field(2)),
            (_, None, _) => Err(GpuError::Field(3)),
            _ => Err(GpuError::Field(4)),
        }
    }
}

fn trim_first_line(text: &str) -> (r: Vec<char>)
    ensures
        r@ == first_line(text@),
{
    let ls = lines(&chars_of(text));
    if ls.len() > 0 {
        assert(char_lists(ls@)[0] == ls@[0]@);
        trim(&ls[0])
    } else {
        let e: Vec<char> = Vec::new();
        assert(e@ =~= Seq::empty());
        trim(&e)
    }
}

/// Reads the output of `nvidia-smi` for one GPU: name, driver, and the memory in all,
/// in use and free, in MiB and separated by commas.
pub fn query(text: &str) -> (r: Result<GpuInfo, GpuError>)
    ensures
        match r {
            Ok(g) => gpu_of(text@) == Ok::<(Seq<char>, Seq<char>, GpuMem), GpuError>((g.name@, g.driver@, g.mem)),
            Err(e) => gpu_of(text@) == Err::<(Seq<char>, Seq<char>, GpuMem), GpuError>(e),
        },
{
    let line = trim_first_line(text);
    let parts = split_char(&line, ',');
    let ghost f = fields_of(line@);
    let ghost pv = char_lists(parts@);
    if parts.len() < 5 {
        return Err(GpuError::Shape);
    }
    assert(forall|i: int| 0 <= i < parts@.len() ==> #[trigger] pv[i] == parts@[i]@);
    assert(f[0] == trimmed(pv[0]) && f[1] == trimmed(pv[1]) && f[2] == trimmed(pv[2]) && f[3] == trimmed(pv[3]) && f[4]
        == trimmed(pv[4]));
    let total_mib = match parse_number(&trim(&parts[2]), u64::MAX) {
        Some(n) => n,
        None => {
            return Err(GpuError::Field(2));
        },
    };
    let used_mib = match parse_number(&trim(&parts[3]), u64::MAX) {
        Some(n) => n,
        None => {
            return Err(GpuError::Field(3));
        },
    };
    let free_mib = match parse_number(&trim(&parts[4]), u64::MAX) {
        Some(n) => n,
        None => {
            return Err(GpuError::Field(4));
        },
    };
    Ok(
        GpuInfo {
            name: string_of(&trim(&parts[0])),
            driver: string_of(&trim(&parts[1])),
            mem: GpuMem { total_mib, used_mib, free_mib },
        },
    )
}

/// The free memory that the output states, in MiB.
pub fn free_mib(text: &str) -> (r: Result<u64, GpuError>)
    ensures
        r == (match gpu_of(text@) {
            Ok((_, _, m)) => Ok::<u64, GpuError>(m.free_mib),
            Err(e) => Err::<u64, GpuError>(e),
        }),
{
    match query(text) {
        Ok(g) => Ok(g.mem.free_mib),
        Err(e) => Err(e),
    }
}

// ---------------------------------------------------------------- memory

/// The words of a text: what stands between white space.
pub open spec fn words_of(s: Seq<char>) -> Seq<Seq<char>>
    decreases s.len(),
{
    if s.len() == 0 {
        Seq::empty()
    } else if is_space(s[0]) {
        words_of(s.drop_first())
    } else {
        let n = word_len(s);
        if 0 < n <= s.len() {
            seq![s.take(n as int)] + words_of(s.skip(n as int))
        } else {
            seq![s]
        }
    }
}

/// The length of the word that a text begins with.
pub open spec fn word_len(s: Seq<char>) -> nat
    decreases s.len(),
{
    if s.len() == 0 || is_space(s[0]) {
        0
    } else {
        1 + word_len(s.drop_first())
    }
}

proof fn lemma_word_len(s: Seq<char>)
    ensures
        word_len(s) <= s.len(),
        s.len() > 0 && !is_space(s[0]) ==> word_len(s) > 0,
    decreases s.len(),
{
    if s.len() > 0 && !is_space(s[0]) {
        lemma_word_len(s.drop_first());
    }
}

/// Splits a text at white space.
pub fn split_words(s: &Vec<char>) -> (r: Vec<Vec<char>>)
    ensures
        char_lists(r@) == words_of(s@),
{
    let mut out: Vec<Vec<char>> = Vec::new();
    let mut i: usize = 0;
    assert(s@.skip(0) =~= s@);
    assert(char_lists(out@) + words_of(s@) =~= words_of(s@));
    while i < s.len()
        invariant
            i <= s.len(),
            words_of(s@) == char_lists(out@) + words_of(s@.skip(i as int)),
        decreases s.len() - i,
    {
        let ghost rest = s@.skip(i as int);
        if space(s[i]) {
            assert(rest.drop_first() =~= s@.skip(i + 1));
            i += 1;
        } else {
            let mut j: usize = i;
            proof {
                lemma_word_len(rest);
            }
            while j < s.len() && !space(s[j])
                invariant
                    i <= j <= s.len(),
                    rest == s@.skip(i as int),
                    word_len(rest) == (j - i) + word_len(s@.skip(j as int)),
                decreases s.len() - j,
            {
                assert(s@.skip(j as int).drop_first() =~= s@.skip(j + 1));
                j += 1;
            }
            let w = slice(s, i, j);
            assert(w@ =~= rest.take(j - i));
            let ghost before = out@;
            out.push(w);
            assert(char_lists(out@) =~= char_lists(before).push(w@));
            assert(rest.skip(j - i) =~= s@.skip(j as int));
            assert(char_lists(before) + (seq![w@] + words_of(s@.skip(j as int))) =~= char_lists(out@) + words_of(
                s@.skip(j as int),
            ));
            i = j;
        }
    }
    assert(words_of(s@.skip(i as int)) =~= Seq::empty());
    assert(char_lists(out@) + Seq::<Seq<char>>::empty() =~= char_lists(out@));
    out
}

/// The number that the second word of a line is; zero where it is none.
pub open spec fn second_number(line: Seq<char>) -> nat {
    let w = words_of(line);
    if w.len() > 1 {
        match number(w[1], u64::MAX as nat) {
            Some(n) => n,
            None => 0,
        }
    } else {
        0
    }
}

fn read_second(line: &Vec<char>) -> (r: u64)
    ensures
        r == second_number(line@),
{
    let w = split_words(line);
    if w.len() > 1 {
        assert(char_lists(w@)[1] == w@[1]@);
        match parse_number(&w[1], u64::MAX) {
            Some(n) => n,
            None => 0,
        }
    } else {
        0
    }
}

/// The total and the available memory in KiB that the first `n` lines state; a later
/// line replaces an earlier.
pub open spec fn meminfo(ls: Seq<Seq<char>>, n: nat) -> (nat, nat)
    decreases n,
{
    if n == 0 || n > ls.len() {
        (0, 0)
    } else {
        let (t, a) = meminfo(ls, (n - 1) as nat);
        let l = ls[n - 1];
        if begins(l, "MemTotal:"@) {
            (second_number(l), a)
        } else if begins(l, "MemAvailable:"@) {
            (t, second_number(l))
        } else {
            (t, a)
        }
    }
}

/// The total and the available memory in bytes. Where the text does not tell, 32 GiB
/// and 16 GiB are taken.
pub open spec fn ram_of(text: Option<Seq<char>>) -> (nat, nat) {
    let fallback = (0x8_0000_0000nat, 0x4_0000_0000nat);
    match text {
        Some(s) => {
            let (t, a) = meminfo(lines_of(s), lines_of(s).len());
            if t > 0 {
                (at_most(t * 1024, u64::MAX as nat), at_most(a * 1024, u64::MAX as nat))
            } else {
                fallback
            }
        },
        None => fallback,
    }
}

fn kib_bytes(n: u64) -> (r: u64)
    ensures
        r == at_most(n as nat * 1024, u64::MAX as nat),
{
    let b: u128 = n as u128 * 1024;
    if b <= u64::MAX as u128 {
        b as u64
    } else {
        u64::MAX
    }
}

/// The total and the available memory, by the text of `/proc/meminfo` where it can be
/// read.
pub fn system_ram(meminfo_text: Option<&str>) -> (r: (u64, u64))
    ensures
        (r.0 as nat, r.1 as nat) == ram_of(crate::json::opt_str(meminfo_text)),
{
    let text = match meminfo_text {
        Some(t) => t,
        None => {
            return (0x8_0000_0000, 0x4_0000_0000);
        },
    };
    let ls = lines(&chars_of(text));
    let ghost lv = lines_of(text@);
    let total_p = chars_of("MemTotal:");
    let avail_p = chars_of("MemAvailable:");
    let mut total: u64 = 0;
    let mut avail: u64 = 0;
    let mut i: usize = 0;
    while i < ls.len()
        invariant
            i <= ls.len(),
            lv == char_lists(ls@),
            total_p@ == "MemTotal:"@,
            avail_p@ == "MemAvailable:"@,
            (total as nat, avail as nat) == meminfo(lv, i as nat),
        decreases ls.len() - i,
    {
        assert(lv[i as int] == ls@[i as int]@);
        if is_at(&ls[i], 0, &total_p) {
            total = read_second(&ls[i]);
        } else if is_at(&ls[i], 0, &avail_p) {
            avail = read_second(&ls[i]);
        }
        i += 1;
    }
    if total > 0 {
        (kib_bytes(total), kib_bytes(avail))
    } else {
        (0x8_0000_0000, 0x4_0000_0000)
    }
}

/// The total and the free memory in bytes, by the two numbers of KiB that begin a text.
/// Where it does not begin so, 32 GiB and 16 GiB are taken.
pub open spec fn two_kib(text: Option<Seq<char>>) -> (nat, nat) {
    let fallback = (0x8_0000_0000nat, 0x4_0000_0000nat);
    match text {
        Some(s) => {
            let w = words_of(s);
            if w.len() >= 2 {
                match (number(w[0], u64::MAX as nat), number(w[1], u64::MAX as nat)) {
                    (Some(t), Some(f)) => (at_most(t * 1024, u64::MAX as nat), at_most(f * 1024, u64::MAX as nat)),
                    _ => fallback,
                }
            } else {
                fallback
            }
        },
        None => fallback,
    }
}

/// The total and the free memory, by what the management interface of Windows printed of
/// them, where it could be asked.
pub fn managed_ram(text: Option<&str>) -> (r: (u64, u64))
    ensures
        (r.0 as nat, r.1 as nat) == two_kib(crate::json::opt_str(text)),
{
    if let Some(t) = text {
        let w = split_words(&chars_of(t));
        if w.len() >= 2 {
            assert(char_lists(w@)[0] == w@[0]@);
            assert(char_lists(w@)[1] == w@[1]@);
            if let Some(total) = parse_number(&w[0], u64::MAX) {
                if let Some(free) = parse_number(&w[1], u64::MAX) {
                    return (kib_bytes(total), kib_bytes(free));
                }
            }
        }
    }
    (0x8_0000_0000, 0x4_0000_0000)
}

/// The number behind the colon of a line of `vm_stat`, without the dots that end it;
/// zero where it is none.
pub open spec fn pages_of(line: Seq<char>) -> nat {
    let p = split_on(line, ':');
    if p.len() > 1 {
        match number(without_suffixes(trimmed(p[1]), "."@), u64::MAX as nat) {
            Some(n) => n,
            None => 0,
        }
    } else {
        0
    }
}

pub fn parse_page_count(line: &str) -> (r: u64)
    ensures
        r == pages_of(line@),
{
    let p = split_char(&chars_of(line), ':');
    if p.len() > 1 {
        assert(char_lists(p@)[1] == p@[1]@);
        let t = string_of(&trim(&p[1]));
        let n = strip_suffixes(t.as_str(), ".");
        match parse_number(&chars_of(n.as_str()), u64::MAX) {
            Some(n) => n,
            None => 0,
        }
    } else {
        0
    }
}

// ---------------------------------------------------------------- unified memory

/// What `vm_stat` says: the size of a page, and the pages that are free, inactive and
/// speculative.
pub struct VmStatV {
    pub page_size: nat,
    pub free: nat,
    pub inactive: nat,
    pub speculative: nat,
}

/// What stands between two texts; none where the first does not stand.
pub open spec fn between(s: Seq<char>, a: Seq<char>, b: Seq<char>) -> Option<Seq<char>> {
    match find_from(s, a, 0) {
        Some(k) => {
            let up_to_next = match find_from(s, a, k + a.len()) {
                Some(m) => s.subrange(k + a.len(), m),
                None => s.skip(k + a.len()),
            };
            Some(
                match find_from(up_to_next, b, 0) {
                    Some(e) => up_to_next.take(e),
                    None => up_to_next,
                },
            )
        },
        None => None,
    }
}

/// What the first `n` lines say; a later line replaces an earlier.
pub open spec fn vm_stat_of(ls: Seq<Seq<char>>, n: nat) -> VmStatV
    decreases n,
{
    if n == 0 || n > ls.len() {
        VmStatV { page_size: 4096, free: 0, inactive: 0, speculative: 0 }
    } else {
        let v = vm_stat_of(ls, (n - 1) as nat);
        let l = trimmed(ls[n - 1]);
        if begins(l, "Mach Virtual Memory Statistics: (page size of"@) {
            match between(l, "page size of"@, "bytes"@) {
                Some(t) => match number(trimmed(t), u64::MAX as nat) {
                    Some(p) => VmStatV { page_size: p, ..v },
                    None => v,
                },
                None => v,
            }
        } else if begins(l, "Pages free:"@) {
            VmStatV { free: pages_of(l), ..v }
        } else if begins(l, "Pages inactive:"@) {
            VmStatV { inactive: pages_of(l), ..v }
        } else if begins(l, "Pages speculative:"@) {
            VmStatV { speculative: pages_of(l), ..v }
        } else {
            v
        }
    }
}

fn find_between(s: &Vec<char>, a: &str, b: &str) -> (r: Option<Vec<char>>)
    requires
        a@.len() > 0,
    ensures
        match r {
            Some(t) => between(s@, a@, b@) == Some(t@),
            None => between(s@, a@, b@) is None,
        },
{
    let ca = chars_of(a);
    let cb = chars_of(b);
    match find(s, &ca, 0) {
        Some(k) => {
            let from: usize = k + ca.len();
            let end: usize = match find(s, &ca, from) {
                Some(m) => m,
                None => s.len(),
            };
            let part = slice(s, from, end);
            assert(find_from(s@, a@, k + a@.len()) is None ==> part@ =~= s@.skip(k + a@.len()));
            match find(&part, &cb, 0) {
                Some(e) => {
                    let head = slice(&part, 0, e);
                    assert(head@ =~= part@.take(e as int));
                    Some(head)
                },
                None => Some(part),
            }
        },
        None => None,
    }
}

/// The bytes that are free, by what `vm_stat` says, as far as the number goes.
pub fn vm_stat_free_bytes(text: &str) -> (r: u64)
    ensures
        ({
            let v = vm_stat_of(lines_of(text@), lines_of(text@).len());
            r == at_most((v.free + v.inactive + v.speculative) * v.page_size, u64::MAX as nat)
        }),
{
    let ls = lines(&chars_of(text));
    let ghost lv = lines_of(text@);
    let mut page: u64 = 4096;
    let mut free: u64 = 0;
    let mut inactive: u64 = 0;
    let mut speculative: u64 = 0;
    let mut i: usize = 0;
    while i < ls.len()
        invariant
            i <= ls.len(),
            lv == char_lists(ls@),
            lv == lines_of(text@),
            vm_stat_of(lv, i as nat) == (VmStatV {
                page_size: page as nat,
                free: free as nat,
                inactive: inactive as nat,
                speculative: speculative as nat,
            }),
        decreases ls.len() - i,
    {
        assert(lv[i as int] == ls@[i as int]@);
        let l = trim(&ls[i]);
        let s = string_of(&l);
        if starts_with(s.as_str(), "Mach Virtual Memory Statistics: (page size of") {
            proof {
                reveal_strlit("page size of");
            }
            if let Some(t) = find_between(&l, "page size of", "bytes") {
                if let Some(p) = parse_number(&trim(&t), u64::MAX) {
                    page = p;
                }
            }
        } else if starts_with(s.as_str(), "Pages free:") {
            free = parse_page_count(s.as_str());
        } else if starts_with(s.as_str(), "Pages inactive:") {
            inactive = parse_page_count(s.as_str());
        } else if starts_with(s.as_str(), "Pages speculative:") {
            speculative = parse_page_count(s.as_str());
        }
        i += 1;
    }
    let pages: u128 = free as u128 + inactive as u128 + speculative as u128;
    capped_product(pages, page)
}

fn capped_product(pages: u128, page: u64) -> (r: u64)
    requires
        pages <= 0x3_0000_0000_0000_0000,
    ensures
        r == at_most(pages as nat * page as nat, u64::MAX as nat),
{
    if page == 0 {
        assert(pages as nat * page as nat == 0) by (nonlinear_arith)
            requires
                page == 0,
        ;
        return 0;
    }
    if pages > u64::MAX as u128 {
        assert(pages as nat * page as nat > u64::MAX) by (nonlinear_arith)
            requires
                pages > u64::MAX,
                page >= 1,
        ;
        return u64::MAX;
    }
    let n = wide_product(pages as u64, page);
    if n <= u64::MAX as u128 {
        n as u64
    } else {
        u64::MAX
    }
}

/// The name of the chip: what the system says, else that of the family.
pub fn chip_name(brand: Option<&str>) -> (r: String)
    ensures
        r@ == (match brand {
            Some(b) => if trimmed(b@).len() == 0 {
                "Apple Silicon (Metal)"@
            } else if holds(trimmed(b@), "Apple"@) {
                trimmed(b@) + " (Metal Unified Memory)"@
            } else {
                trimmed(b@)
            },
            None => "Apple Silicon (Metal)"@,
        }),
{
    if let Some(b) = brand {
        let s = trim_str(b);
        if !s.as_str().is_empty() {
            if contains(s.as_str(), "Apple") {
                return s.concat(" (Metal Unified Memory)");
            }
            return s;
        }
    }
    "Apple Silicon (Metal)".to_owned()
}

/// The GPU of a machine whose memory is shared: three quarters of it can be used.
pub fn unified_gpu(chip: String, total: u64, free: u64) -> (r: GpuInfo)
    ensures
        r.name == chip,
        r.driver@ == "Apple Metal"@,
        ({
            let usable = (total * 3 / 4) as nat;
            let left = at_most(free as nat, usable);
            &&& r.mem.total_mib == usable / 0x10_0000
            &&& r.mem.free_mib == left / 0x10_0000
            &&& r.mem.used_mib == (usable - left) / 0x10_0000
        }),
{
    let usable: u64 = (total as u128 * 3 / 4) as u64;
    let left: u64 = if free <= usable {
        free
    } else {
        usable
    };
    GpuInfo {
        name: chip,
        driver: "Apple Metal".to_owned(),
        mem: GpuMem {
            total_mib: usable / 0x10_0000,
            used_mib: (usable - left) / 0x10_0000,
            free_mib: left / 0x10_0000,
        },
    }
}

/// What the output of the driver says on its first line is read: the name, the driver, and the
/// memory in all, in use and free.
#[verifier::rlimit(40)]
pub proof fn law_the_driver_is_read(name: Seq<char>, driver: Seq<char>, total: u64, used: u64, free: u64)
    requires
        is_field(name),
        is_field(driver),
    ensures
        gpu_of(
            joined(seq![name, driver, dec(total as nat), dec(used as nat), dec(free as nat)], seq![',']),
        ) == Ok::<(Seq<char>, Seq<char>, GpuMem), GpuError>(
            (name, driver, GpuMem { total_mib: total, used_mib: used, free_mib: free }),
        ),
{
    let v = seq![name, driver, dec(total as nat), dec(used as nat), dec(free as nat)];
    let s = joined(v, seq![',']);
    lemma_number_is_field(total as nat);
    lemma_number_is_field(used as nat);
    lemma_number_is_field(free as nat);
    law_decimal_is_read_back(total as nat, u64::MAX as nat);
    law_decimal_is_read_back(used as nat, u64::MAX as nat);
    law_decimal_is_read_back(free as nat, u64::MAX as nat);
    assert forall|i: int| 0 <= i < v.len() implies is_field(#[trigger] v[i]) by {}
    assert forall|i: int| 0 <= i < v.len() implies !(#[trigger] v[i]).contains(',') by {
        assert(is_field(v[i]));
    }
    law_joined_pieces_are_taken_apart(v, ',');
    lemma_fields_joined(v, 5);
    assert(v.take(5) =~= v);
    law_lines_end_at_line_feeds(s, Seq::empty());
    lemma_ends_kept(s);
    let f = fields_of(first_line(s));
    assert forall|i: int| 0 <= i < v.len() implies trimmed(#[trigger] v[i]) == v[i] by {
        lemma_ends_kept(v[i]);
    }
    assert(f =~= v);
}

/// A text can stand between commas: it holds neither a comma nor an end of line, and neither
/// begins nor ends with white space.
pub open spec fn is_field(s: Seq<char>) -> bool {
    &&& s.len() > 0
    &&& !is_space(s[0])
    &&& !is_space(s[s.len() - 1])
    &&& forall|i: int| 0 <= i < s.len() ==> #[trigger] s[i] != ',' && s[i] != '\n' && s[i] != '\r'
}

proof fn lemma_number_is_field(n: nat)
    ensures
        is_field(dec(n)),
{
    law_decimal_is_read_back(n, n);
    let s = dec(n);
    assert(is_digit(s[0]));
    assert(is_digit(s[s.len() - 1]));
    assert forall|i: int| 0 <= i < s.len() implies #[trigger] s[i] != ',' && s[i] != '\n' && s[i] != '\r' by {
        assert(is_digit(s[i]));
    }
}

proof fn lemma_ends_kept(s: Seq<char>)
    requires
        s.len() > 0,
        !is_space(s[0]),
        !is_space(s[s.len() - 1]),
    ensures
        trimmed(s) == s,
{
    let (i, j) = law_trimming_takes_off_white_space(s);
    assert(i == 0 && j == s.len()) by {
        assert(i <= 0 < j);
        assert(i <= s.len() - 1 < j);
    }
    assert(s.subrange(0, s.len() as int) =~= s);
}

proof fn lemma_fields_joined(v: Seq<Seq<char>>, n: nat)
    requires
        0 < n <= v.len(),
        forall|i: int| 0 <= i < v.len() ==> is_field(#[trigger] v[i]),
    ensures
        ({
            let s = joined(v.take(n as int), seq![',']);
            &&& s.len() > 0
            &&& s[0] == v[0][0]
            &&& s[s.len() - 1] == v[n - 1][v[n - 1].len() - 1]
            &&& forall|i: int| 0 <= i < s.len() ==> #[trigger] s[i] != '\n' && s[i] != '\r'
        }),
    decreases n,
{
    let t = v.take(n as int);
    let s = joined(t, seq![',']);
    assert(is_field(v[n - 1]));
    assert(is_field(v[0]));
    if n == 1 {
        assert(s == v[0]);
    } else {
        lemma_fields_joined(v, (n - 1) as nat);
        assert(t.drop_last() =~= v.take(n - 1));
        let b = joined(v.take(n - 1), seq![',']);
        assert(s == b + seq![','] + v[n - 1]);
        assert forall|i: int| 0 <= i < s.len() implies #[trigger] s[i] != '\n' && s[i] != '\r' by {
            if i < b.len() {
                assert(s[i] == b[i]);
            } else if i > b.len() {
                assert(s[i] == v[n - 1][i - b.len() - 1]);
            }
        }
    }
}

/// The memory in all and the memory that can be had are those of the last lines that state them.
pub proof fn law_the_last_statement_of_memory_counts(ls: Seq<Seq<char>>, n: nat, k: int)
    requires
        0 <= k < n <= ls.len(),
    ensures
        begins(ls[k], "MemTotal:"@) && (forall|j: int| k < j < n ==> !begins(#[trigger] ls[j], "MemTotal:"@)) ==> meminfo(
            ls,
            n,
        ).0 == second_number(ls[k]),
        begins(ls[k], "MemAvailable:"@) && (forall|j: int| k < j < n ==> !begins(#[trigger] ls[j], "MemAvailable:"@))
            ==> meminfo(ls, n).1 == second_number(ls[k]),
    decreases n,
{
    reveal_strlit("MemTotal:");
    reveal_strlit("MemAvailable:");
    let l = ls[n - 1];
    if begins(l, "MemTotal:"@) && begins(l, "MemAvailable:"@) {
        assert(l.subrange(0, 9)[3] == l[3]);
        assert(l.subrange(0, 13)[3] == l[3]);
        assert("MemTotal:"@[3] == 'T' && "MemAvailable:"@[3] == 'A');
    }
    if k < n - 1 {
        law_the_last_statement_of_memory_counts(ls, (n - 1) as nat, k);
    }
}

/// Memory that is stated in KiB is counted in bytes; where none is stated, 32 GiB and 16 GiB are
/// taken.
pub proof fn law_memory_is_counted_in_bytes(text: Seq<char>)
    ensures
        ({
            let (t, a) = meminfo(lines_of(text), lines_of(text).len());
            &&& 0 < t <= u64::MAX / 1024 && a <= u64::MAX / 1024 ==> ram_of(Some(text)) == (t * 1024, a * 1024)
            &&& t == 0 ==> ram_of(Some(text)) == (34359738368nat, 17179869184nat)
        }),
        ram_of(None) == (34359738368nat, 17179869184nat),
        forall|m: u64| m < 0x1000_0000_0000 ==> #[trigger] mib_bytes(m) == m * 1048576,
{
}

} // verus!
