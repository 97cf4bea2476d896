//! Floating-point numbers by their decimal text: what can be said of them without
//! floating-point arithmetic.

use crate::text::{
    all_digits, char_from, chars_of, dec, digit, digits_value, find_char, integer, is_digit,
    law_decimal_is_read_back, lemma_char_from, number, parse_integer, slice,
};
use vstd::prelude::*;

verus! {

/// A decimal number: its digits, the first of highest weight, times ten to the
/// power `shift`, with a sign.
pub struct DecimalV {
    pub negative: bool,
    pub digits: Seq<char>,
    pub shift: int,
}

/// The part of a text before the first `c`.
pub open spec fn head_of(s: Seq<char>, c: char) -> Seq<char> {
    match char_from(s, c, 0) {
        Some(k) => s.take(k),
        None => s,
    }
}

/// The part of a text behind the first `c`.
pub open spec fn tail_of(s: Seq<char>, c: char) -> Option<Seq<char>> {
    match char_from(s, c, 0) {
        Some(k) => Some(s.skip(k + 1)),
        None => None,
    }
}

/// The decimal number that a text denotes: a sign, digits, a fraction and an
/// exponent, of which the digits must be there.
pub open spec fn decimal_of(t: Seq<char>) -> Option<DecimalV> {
    let negative = t.len() > 0 && t[0] == '-';
    let body = if negative {
        t.drop_first()
    } else {
        t
    };
    let mantissa = head_of(body, 'e');
    let exponent = match tail_of(body, 'e') {
        Some(e) => integer(e),
        None => Some(0),
    };
    let whole = head_of(mantissa, '.');
    let frac = match tail_of(mantissa, '.') {
        Some(f) => f,
        None => Seq::empty(),
    };
    let digits = whole + frac;
    match exponent {
        Some(e) => if digits.len() > 0 && all_digits(digits) {
            Some(DecimalV { negative, digits, shift: e - frac.len() })
        } else {
            None
        },
        None => None,
    }
}

/// The number has no fractional part: the digits behind the point are zeros.
pub open spec fn integral(t: Seq<char>) -> bool {
    match decimal_of(t) {
        Some(d) => forall|i: int|
            0 <= i < d.digits.len() && i >= d.digits.len() + d.shift ==> #[trigger] d.digits[i] == '0',
        None => false,
    }
}

/// The value of the first `n` digits; behind the last one zeros follow.
pub open spec fn leading_value(d: Seq<char>, n: nat) -> nat
    decreases n,
{
    if n == 0 {
        0
    } else {
        leading_value(d, (n - 1) as nat) * 10 + (if n <= d.len() {
            (d[n - 1] as u32 - '0' as u32) as nat
        } else {
            0
        })
    }
}

/// The number rounded towards zero, held to the range of `u32`; zero where the text
/// is no number.
pub open spec fn truncated_u32(t: Seq<char>) -> nat {
    match decimal_of(t) {
        Some(d) => {
            let n = d.digits.len() + d.shift;
            if d.negative || n <= 0 {
                0
            } else if leading_value(d.digits, n as nat) > u32::MAX {
                u32::MAX as nat
            } else {
                leading_value(d.digits, n as nat)
            }
        },
        None => 0,
    }
}

/// A decimal number read from its text.
pub struct Decimal {
    pub negative: bool,
    pub digits: Vec<char>,
    pub shift: i128,
}

impl View for Decimal {
    type V = DecimalV;

    open spec fn view(&self) -> DecimalV {
        DecimalV { negative: self.negative, digits: self.digits@, shift: self.shift as int }
    }
}

fn split_first(s: &Vec<char>, c: char) -> (r: (Vec<char>, Option<Vec<char>>))
    ensures
        r.0@ == head_of(s@, c),
        match r.1 {
            Some(v) => tail_of(s@, c) == Some(v@),
            None => tail_of(s@, c) is None,
        },
{
    match find_char(s, c, 0) {
        Some(k) => {
            let a = slice(s, 0, k);
            let b = slice(s, k + 1, s.len());
            assert(a@ =~= s@.take(k as int));
            assert(b@ =~= s@.skip(k + 1));
            (a, Some(b))
        },
        None => {
            let a = slice(s, 0, s.len());
            assert(a@ =~= s@);
            (a, None)
        },
    }
}

/// Reads a decimal number.
pub fn read_decimal(t: &str) -> (r: Option<Decimal>)
    ensures
        match r {
            Some(d) => decimal_of(t@) == Some(d@) && all_digits(d.digits@),
            None => decimal_of(t@) is None,
        },
{
    let cs = chars_of(t);
    let negative = cs.len() > 0 && cs[0] == '-';
    let from: usize = if negative {
        1
    } else {
        0
    };
    let body = slice(&cs, from, cs.len());
    assert(body@ =~= if negative {
        t@.drop_first()
    } else {
        t@
    });
    let (mantissa, exp_text) = split_first(&body, 'e');
    let e: i64 = match exp_text {
        Some(x) => match parse_integer(&x) {
            Some(n) => n,
            None => {
                return None;
            },
        },
        None => 0,
    };
    let (whole, frac) = split_first(&mantissa, '.');
    let mut digits = whole;
    let mut places: usize = 0;
    match frac {
        Some(f) => {
            places = f.len();
            let mut f = f;
            digits.append(&mut f);
        },
        None => {
            assert(digits@ + Seq::<char>::empty() =~= digits@);
        },
    }
    if digits.len() == 0 {
        return None;
    }
    let mut i: usize = 0;
    let ghost read = DecimalV { negative, digits: digits@, shift: e - places };
    assert(all_digits(digits@) ==> decimal_of(t@) == Some(read));
    assert(!all_digits(digits@) ==> decimal_of(t@) is None);
    while i < digits.len()
        invariant
            i <= digits.len(),
            !all_digits(digits@) ==> decimal_of(t@) is None,
            forall|k: int| 0 <= k < i ==> is_digit(#[trigger] digits@[k]),
        decreases digits.len() - i,
    {
        if !digit(digits[i]) {
            assert(!is_digit(digits@[i as int]));
            assert(!all_digits(digits@));
            return None;
        }
        i += 1;
    }
    assert(all_digits(digits@));
    Some(Decimal { negative, digits, shift: e as i128 - places as i128 })
}

/// Whether a number has no fractional part.
pub fn is_integral(t: &str) -> (r: bool)
    ensures
        r == integral(t@),
{
    let d = match read_decimal(t) {
        Some(d) => d,
        None => {
            return false;
        },
    };
    let n: i128 = d.digits.len() as i128 + d.shift;
    let mut i: usize = 0;
    while i < d.digits.len()
        invariant
            i <= d.digits.len(),
            n == d.digits.len() + d.shift,
            decimal_of(t@) == Some(d@),
            forall|k: int| 0 <= k < i && k >= n ==> #[trigger] d.digits@[k] == '0',
        decreases d.digits.len() - i,
    {
        if i as i128 >= n && d.digits[i] != '0' {
            proof {
                let dv = decimal_of(t@)->Some_0;
                assert(dv.digits[i as int] != '0' && i >= dv.digits.len() + dv.shift);
            }
            return false;
        }
        i += 1;
    }
    true
}

pub proof fn lemma_leading_grows(d: Seq<char>, a: nat, b: nat)
    requires
        a <= b,
        all_digits(d),
    ensures
        leading_value(d, a) <= leading_value(d, b),
    decreases b - a,
{
    if a < b {
        lemma_leading_grows(d, a, (b - 1) as nat);
        if b <= d.len() {
            assert(is_digit(d[b - 1]));
        }
    }
}

pub proof fn lemma_leading_zero(d: Seq<char>, a: nat, b: nat)
    requires
        d.len() <= a <= b,
        leading_value(d, a) == 0,
    ensures
        leading_value(d, b) == 0,
    decreases b - a,
{
    if a < b {
        lemma_leading_zero(d, a, (b - 1) as nat);
    }
}

/// A number rounded towards zero, held to the range of `u32`.
pub fn to_u32(t: &str) -> (r: u32)
    ensures
        r == truncated_u32(t@),
{
    let d = match read_decimal(t) {
        Some(d) => d,
        None => {
            return 0;
        },
    };
    let n: i128 = d.digits.len() as i128 + d.shift;
    if d.negative || n <= 0 {
        return 0;
    }
    let mut v: u64 = 0;
    let mut i: i128 = 0;
    while i < n
        invariant
            0 <= i <= n,
            n == d.digits.len() + d.shift,
            n > 0,
            decimal_of(t@) == Some(d@),
            !d.negative,
            all_digits(d.digits@),
            v == leading_value(d.digits@, i as nat),
            v <= u32::MAX,
        decreases n - i,
    {
        if i >= d.digits.len() as i128 {
            if v == 0 {
                proof {
                    lemma_leading_zero(d.digits@, i as nat, n as nat);
                }
                return 0;
            }
            v = v * 10;
        } else {
            let c = d.digits[i as usize];
            assert(is_digit(d.digits@[i as int]));
            v = v * 10 + (c as u32 - 48) as u64;
        }
        i += 1;
        if v > 0xffff_ffff {
            proof {
                lemma_leading_grows(d.digits@, i as nat, n as nat);
            }
            return u32::MAX;
        }
    }
    v as u32
}

pub proof fn lemma_leading_is_value(d: Seq<char>, n: nat)
    requires
        n <= d.len(),
    ensures
        leading_value(d, n) == digits_value(d.take(n as int)),
    decreases n,
{
    if n > 0 {
        lemma_leading_is_value(d, (n - 1) as nat);
        let t = d.take(n as int);
        assert(t.drop_last() =~= d.take(n - 1));
        assert(t.last() == d[n - 1]);
    }
}

/// A number that is written with or without a fraction is held to its whole part; and it has no
/// fractional part exactly where its fraction is made of zeros.
#[verifier::rlimit(40)]
pub proof fn law_a_number_is_held_to_its_whole_part(n: u32, f: Seq<char>)
    requires
        all_digits(f),
    ensures
        truncated_u32(dec(n as nat)) == n,
        truncated_u32(dec(n as nat) + seq!['.'] + f) == n,
        truncated_u32(seq!['-'] + dec(n as nat)) == 0,
        integral(dec(n as nat)),
        integral(dec(n as nat) + seq!['.'] + f) <==> forall|i: int| 0 <= i < f.len() ==> #[trigger] f[i] == '0',
{
    let w = dec(n as nat);
    law_decimal_is_read_back(n as nat, u32::MAX as nat);
    assert(is_digit(w[0]));
    lemma_no_mark_in_digits(w, 'e');
    lemma_no_mark_in_digits(w, '.');
    assert(w + Seq::<char>::empty() =~= w);
    assert(w.take(w.len() as int) =~= w);
    lemma_leading_is_value(w, w.len());
    assert(number(w, u32::MAX as nat) == Some(n as nat));
    assert(digits_value(w) == n);
    let neg = seq!['-'] + w;
    assert(neg.drop_first() =~= w);
    let t = w + seq!['.'] + f;
    lemma_char_from(t, 'e', 0);
    lemma_char_from(t, '.', 0);
    let k = w.len() as int;
    assert(t[k] == '.');
    assert forall|j: int| 0 <= j < t.len() implies t[j] != 'e' by {
        if j < k {
            assert(is_digit(w[j]));
        } else if j > k {
            assert(t[j] == f[j - k - 1]);
            assert(is_digit(f[j - k - 1]));
        }
    }
    assert forall|j: int| 0 <= j < k implies t[j] != '.' by {
        assert(is_digit(w[j]));
    }
    assert(char_from(t, '.', 0) == Some(k));
    assert(t.take(k) =~= w);
    assert(t.skip(k + 1) =~= f);
    assert(t[0] == w[0]);
    let d = w + f;
    assert forall|i: int| 0 <= i < d.len() implies is_digit(#[trigger] d[i]) by {
        if i < k {
            assert(is_digit(w[i]));
        } else {
            assert(is_digit(f[i - k]));
        }
    }
    lemma_leading_is_value(d, w.len());
    assert(d.take(k) =~= w);
    assert(decimal_of(t) == Some(DecimalV { negative: false, digits: d, shift: -(f.len() as int) }));
    if integral(t) {
        assert forall|i: int| 0 <= i < f.len() implies #[trigger] f[i] == '0' by {
            let v = decimal_of(t)->Some_0;
            assert(d[k + i] == f[i]);
            assert(0 <= k + i < v.digits.len() && k + i >= v.digits.len() + v.shift);
            assert(v.digits[k + i] == '0');
        }
    }
    if forall|i: int| 0 <= i < f.len() ==> #[trigger] f[i] == '0' {
        assert forall|i: int| 0 <= i < d.len() && i >= d.len() - f.len() implies #[trigger] d[i] == '0' by {
            assert(d[i] == f[i - k]);
        }
    }
}

proof fn lemma_no_mark_in_digits(w: Seq<char>, c: char)
    requires
        all_digits(w),
        !is_digit(c),
    ensures
        char_from(w, c, 0) is None,
{
    lemma_char_from(w, c, 0);
    if let Some(k) = char_from(w, c, 0) {
        assert(is_digit(w[k]));
    }
}

} // verus!
