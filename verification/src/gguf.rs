//! GGUF v2/v3 headers: metadata and tensor descriptions. Tensor data is never read.

use crate::text::{begins, char_from, chars_of, find_char, is_at, number, parse_number, slice, str_eq};
use vstd::prelude::*;
use vstd::string::*;
use vstd::utf8::{decode_utf8, encode_utf8, valid_utf8};

verus! {

/// "GGUF", little-endian.
pub const GGUF_MAGIC: u32 = 0x4655_4747;

/// The longest string that is read.
pub const MAX_STRING: u64 = 67_108_864;

/// The longest array that is read.
pub const MAX_ARRAY: u64 = 50_000_000;

/// The most tensors, and the most metadata entries, that are plausible.
pub const MAX_COUNT: u64 = 1_000_000;

/// A metadata value. Floating-point numbers are kept by their bits.
#[derive(Debug)]
pub enum MetaValue {
    U8(u8),
    I8(i8),
    U16(u16),
    I16(i16),
    U32(u32),
    I32(i32),
    F32(u32),
    Bool(bool),
    Str(String),
    Array(Vec<MetaValue>),
    U64(u64),
    I64(i64),
    F64(u64),
}

#[verifier::ext_equal]
pub enum MetaV {
    U8(u8),
    I8(i8),
    U16(u16),
    I16(i16),
    U32(u32),
    I32(i32),
    F32(u32),
    Bool(bool),
    Str(Seq<char>),
    Array(Seq<MetaV>),
    U64(u64),
    I64(i64),
    F64(u64),
}

impl View for MetaValue {
    type V = MetaV;

    open spec fn view(&self) -> MetaV
        decreases self,
    {
        match self {
            MetaValue::U8(v) => MetaV::U8(*v),
            MetaValue::I8(v) => MetaV::I8(*v),
            MetaValue::U16(v) => MetaV::U16(*v),
            MetaValue::I16(v) => MetaV::I16(*v),
            MetaValue::U32(v) => MetaV::U32(*v),
            MetaValue::I32(v) => MetaV::I32(*v),
            MetaValue::F32(v) => MetaV::F32(*v),
            MetaValue::Bool(v) => MetaV::Bool(*v),
            MetaValue::Str(v) => MetaV::Str(v@),
            MetaValue::Array(v) => MetaV::Array(
                Seq::new(
                    v@.len(),
                    |i: int|
                        if 0 <= i < v@.len() {
                            v@[i].view()
                        } else {
                            MetaV::Bool(false)
                        },
                ),
            ),
            MetaValue::U64(v) => MetaV::U64(*v),
            MetaValue::I64(v) => MetaV::I64(*v),
            MetaValue::F64(v) => MetaV::F64(*v),
        }
    }
}

pub open spec fn metas(v: Seq<MetaValue>) -> Seq<MetaV> {
    Seq::new(v.len(), |i: int| v[i]@)
}

pub proof fn lemma_meta_view(m: MetaValue)
    ensures
        m matches MetaValue::Array(v) ==> m@ == MetaV::Array(metas(v@)),
{
    reveal_with_fuel(<MetaValue as View>::view, 2);
    if let MetaValue::Array(v) = m {
        assert(m@->Array_0 =~= metas(v@));
    }
}

impl MetaV {
    /// An integer value; a negative one wraps around.
    pub open spec fn u64(self) -> Option<u64> {
        match self {
            MetaV::U8(v) => Some(v as u64),
            MetaV::I8(v) => Some(v as u64),
            MetaV::U16(v) => Some(v as u64),
            MetaV::I16(v) => Some(v as u64),
            MetaV::U32(v) => Some(v as u64),
            MetaV::I32(v) => Some(v as u64),
            MetaV::U64(v) => Some(v),
            MetaV::I64(v) => Some(v as u64),
            _ => None,
        }
    }

    pub open spec fn str(self) -> Option<Seq<char>> {
        match self {
            MetaV::Str(s) => Some(s),
            _ => None,
        }
    }
}

impl MetaValue {
    pub fn as_u64(&self) -> (r: Option<u64>)
        ensures
            r == self@.u64(),
    {
        match self {
            MetaValue::U8(v) => Some(*v as u64),
            MetaValue::I8(v) => Some(*v as u64),
            MetaValue::U16(v) => Some(*v as u64),
            MetaValue::I16(v) => Some(*v as u64),
            MetaValue::U32(v) => Some(*v as u64),
            MetaValue::I32(v) => Some(*v as u64),
            MetaValue::U64(v) => Some(*v),
            MetaValue::I64(v) => Some(*v as u64),
            _ => None,
        }
    }

    pub fn as_str(&self) -> (r: Option<&str>)
        ensures
            crate::json::opt_str(r) == self@.str(),
    {
        match self {
            MetaValue::Str(s) => Some(s.as_str()),
            _ => None,
        }
    }

    pub fn as_array(&self) -> (r: Option<&Vec<MetaValue>>)
        ensures
            match r {
                Some(v) => self@ == MetaV::Array(metas(v@)),
                None => !(self@ is Array),
            },
    {
        proof {
            lemma_meta_view(*self);
        }
        match self {
            MetaValue::Array(v) => Some(v),
            _ => None,
        }
    }
}

#[derive(Debug)]
pub struct TensorInfo {
    pub name: String,
    pub dims: Vec<u64>,
    pub ggml_type: u32,
    pub offset: u64,
}

pub struct TensorV {
    pub name: Seq<char>,
    pub dims: Seq<u64>,
    pub ggml_type: u32,
    pub offset: u64,
}

impl View for TensorInfo {
    type V = TensorV;

    open spec fn view(&self) -> TensorV {
        TensorV { name: self.name@, dims: self.dims@, ggml_type: self.ggml_type, offset: self.offset }
    }
}

pub open spec fn tensors_view(v: Seq<TensorInfo>) -> Seq<TensorV> {
    Seq::new(v.len(), |i: int| v[i]@)
}

/// The product of numbers.
pub open spec fn product(d: Seq<u64>) -> nat
    decreases d.len(),
{
    if d.len() == 0 {
        1
    } else {
        product(d.drop_last()) * d.last() as nat
    }
}

/// The elements of a block and the bytes it takes, by the type of a tensor. A type
/// that is not known is taken to be of 16 bits.
pub open spec fn block_of(t: u32) -> (u64, u64) {
    if t == 0 { (1, 4) }
    else if t == 1 { (1, 2) }
    else if t == 2 { (32, 18) }
    else if t == 3 { (32, 20) }
    else if t == 6 { (32, 22) }
    else if t == 7 { (32, 24) }
    else if t == 8 { (32, 34) }
    else if t == 9 { (32, 36) }
    else if t == 10 { (256, 84) }
    else if t == 11 { (256, 110) }
    else if t == 12 { (256, 144) }
    else if t == 13 { (256, 176) }
    else if t == 14 { (256, 210) }
    else if t == 15 { (256, 292) }
    else if t == 16 { (256, 66) }
    else if t == 17 { (256, 74) }
    else if t == 18 { (256, 98) }
    else if t == 19 { (256, 50) }
    else if t == 20 { (32, 18) }
    else if t == 21 { (256, 110) }
    else if t == 22 { (256, 82) }
    else if t == 23 { (256, 136) }
    else if t == 24 { (1, 1) }
    else if t == 25 { (1, 2) }
    else if t == 26 { (1, 4) }
    else if t == 27 { (1, 8) }
    else if t == 28 { (1, 8) }
    else if t == 29 { (256, 56) }
    else if t == 30 { (1, 2) }
    else if t == 34 { (256, 54) }
    else if t == 35 { (256, 66) }
    else if t == 39 { (32, 17) }
    else { (1, 2) }
}

pub fn ggml_type_traits(t: u32) -> (r: (u64, u64))
    ensures
        r == block_of(t),
        1 <= r.0 <= 256,
        1 <= r.1 <= 292,
{
    match t {
        0 => (1, 4),
        1 => (1, 2),
        2 => (32, 18),
        3 => (32, 20),
        6 => (32, 22),
        7 => (32, 24),
        8 => (32, 34),
        9 => (32, 36),
        10 => (256, 84),
        11 => (256, 110),
        12 => (256, 144),
        13 => (256, 176),
        14 => (256, 210),
        15 => (256, 292),
        16 => (256, 66),
        17 => (256, 74),
        18 => (256, 98),
        19 => (256, 50),
        20 => (32, 18),
        21 => (256, 110),
        22 => (256, 82),
        23 => (256, 136),
        24 => (1, 1),
        25 => (1, 2),
        26 => (1, 4),
        27 => (1, 8),
        28 => (1, 8),
        29 => (256, 56),
        30 => (1, 2),
        34 => (256, 54),
        35 => (256, 66),
        39 => (32, 17),
        _ => (1, 2),
    }
}

/// The name of a tensor type.
pub open spec fn name_of_type(t: u32) -> Seq<char> {
    if t == 0 { "F32"@ }
    else if t == 1 { "F16"@ }
    else if t == 2 { "Q4_0"@ }
    else if t == 3 { "Q4_1"@ }
    else if t == 6 { "Q5_0"@ }
    else if t == 7 { "Q5_1"@ }
    else if t == 8 { "Q8_0"@ }
    else if t == 9 { "Q8_1"@ }
    else if t == 10 { "Q2_K"@ }
    else if t == 11 { "Q3_K"@ }
    else if t == 12 { "Q4_K"@ }
    else if t == 13 { "Q5_K"@ }
    else if t == 14 { "Q6_K"@ }
    else if t == 15 { "Q8_K"@ }
    else if t == 16 { "IQ2_XXS"@ }
    else if t == 17 { "IQ2_XS"@ }
    else if t == 18 { "IQ3_XXS"@ }
    else if t == 19 { "IQ1_S"@ }
    else if t == 20 { "IQ4_NL"@ }
    else if t == 21 { "IQ3_S"@ }
    else if t == 22 { "IQ2_S"@ }
    else if t == 23 { "IQ4_XS"@ }
    else if t == 24 { "I8"@ }
    else if t == 25 { "I16"@ }
    else if t == 26 { "I32"@ }
    else if t == 27 { "I64"@ }
    else if t == 28 { "F64"@ }
    else if t == 29 { "IQ1_M"@ }
    else if t == 30 { "BF16"@ }
    else if t == 34 { "TQ1_0"@ }
    else if t == 35 { "TQ2_0"@ }
    else if t == 39 { "MXFP4"@ }
    else { "?"@ }
}

/// The tensor types that have a name.
pub open spec fn is_known_type(t: u32) -> bool {
    t <= 3 || 6 <= t <= 30 || t == 34 || t == 35 || t == 39
}

/// The first `n` characters of a name as one number.
spec fn name_number(s: Seq<char>, n: nat) -> int
    decreases n,
{
    if n == 0 || n > s.len() {
        0
    } else {
        name_number(s, (n - 1) as nat) * 128 + s[n - 1] as int
    }
}

/// The number of the name of each type.
spec fn number_of_type(t: u32) -> int {
    match t {
        0 => 1153458,
        1 => 1153206,
        2 => 170733488,
        3 => 170733489,
        6 => 170749872,
        7 => 170749873,
        8 => 170799024,
        9 => 170799025,
        10 => 170700747,
        11 => 170717131,
        12 => 170733515,
        13 => 170749899,
        14 => 170766283,
        15 => 170799051,
        16 => 323854156573779,
        17 => 2530110598227,
        18 => 323854425009235,
        19 => 19766472659,
        20 => 2530114791244,
        21 => 19766505427,
        22 => 19766489043,
        23 => 2530114792531,
        24 => 9400,
        25 => 1202358,
        26 => 1202610,
        27 => 1202996,
        28 => 1153844,
        29 => 19766472653,
        30 => 139565238,
        34 => 22719262640,
        35 => 22719279024,
        39 => 20855236660,
        _ => 63,
    }
}

proof fn lemma_name_numbers(t: u32)
    ensures
        ({
            let n = name_of_type(t);
            name_number(n, n.len()) == number_of_type(t)
        }),
{
    reveal_with_fuel(name_number, 8);
    match t {
        0 => {
            reveal_strlit("F32");
        },
        1 => {
            reveal_strlit("F16");
        },
        2 => {
            reveal_strlit("Q4_0");
        },
        3 => {
            reveal_strlit("Q4_1");
        },
        6 => {
            reveal_strlit("Q5_0");
        },
        7 => {
            reveal_strlit("Q5_1");
        },
        8 => {
            reveal_strlit("Q8_0");
        },
        9 => {
            reveal_strlit("Q8_1");
        },
        10 => {
            reveal_strlit("Q2_K");
        },
        11 => {
            reveal_strlit("Q3_K");
        },
        12 => {
            reveal_strlit("Q4_K");
        },
        13 => {
            reveal_strlit("Q5_K");
        },
        14 => {
            reveal_strlit("Q6_K");
        },
        15 => {
            reveal_strlit("Q8_K");
        },
        16 => {
            reveal_strlit("IQ2_XXS");
        },
        17 => {
            reveal_strlit("IQ2_XS");
        },
        18 => {
            reveal_strlit("IQ3_XXS");
        },
        19 => {
            reveal_strlit("IQ1_S");
        },
        20 => {
            reveal_strlit("IQ4_NL");
        },
        21 => {
            reveal_strlit("IQ3_S");
        },
        22 => {
            reveal_strlit("IQ2_S");
        },
        23 => {
            reveal_strlit("IQ4_XS");
        },
        24 => {
            reveal_strlit("I8");
        },
        25 => {
            reveal_strlit("I16");
        },
        26 => {
            reveal_strlit("I32");
        },
        27 => {
            reveal_strlit("I64");
        },
        28 => {
            reveal_strlit("F64");
        },
        29 => {
            reveal_strlit("IQ1_M");
        },
        30 => {
            reveal_strlit("BF16");
        },
        34 => {
            reveal_strlit("TQ1_0");
        },
        35 => {
            reveal_strlit("TQ2_0");
        },
        39 => {
            reveal_strlit("MXFP4");
        },
        _ => {
            reveal_strlit("?");
        },
    }
}

/// Exactly the known tensor types have a name, and no two of them the same.
pub proof fn law_known_types_have_distinct_names(t: u32, u: u32)
    ensures
        name_of_type(t) == "?"@ <==> !is_known_type(t),
        t != u && name_of_type(t) == name_of_type(u) ==> !is_known_type(t) && !is_known_type(u),
{
    lemma_name_numbers(t);
    lemma_name_numbers(u);
    lemma_name_numbers(40);
    assert(name_of_type(40) == "?"@);
}

pub fn ggml_type_name(t: u32) -> (r: &'static str)
    ensures
        r@ == name_of_type(t),
{
    match t {
        0 => "F32",
        1 => "F16",
        2 => "Q4_0",
        3 => "Q4_1",
        6 => "Q5_0",
        7 => "Q5_1",
        8 => "Q8_0",
        9 => "Q8_1",
        10 => "Q2_K",
        11 => "Q3_K",
        12 => "Q4_K",
        13 => "Q5_K",
        14 => "Q6_K",
        15 => "Q8_K",
        16 => "IQ2_XXS",
        17 => "IQ2_XS",
        18 => "IQ3_XXS",
        19 => "IQ1_S",
        20 => "IQ4_NL",
        21 => "IQ3_S",
        22 => "IQ2_S",
        23 => "IQ4_XS",
        24 => "I8",
        25 => "I16",
        26 => "I32",
        27 => "I64",
        28 => "F64",
        29 => "IQ1_M",
        30 => "BF16",
        34 => "TQ1_0",
        35 => "TQ2_0",
        39 => "MXFP4",
        _ => "?",
    }
}

/// The name of the quantization of a whole file.
pub open spec fn quant_name(ft: u64) -> Seq<char> {
    if ft == 0 { "F32"@ }
    else if ft == 1 { "F16"@ }
    else if ft == 2 { "Q4_0"@ }
    else if ft == 3 { "Q4_1"@ }
    else if ft == 7 { "Q8_0"@ }
    else if ft == 8 { "Q5_0"@ }
    else if ft == 9 { "Q5_1"@ }
    else if ft == 10 { "Q2_K"@ }
    else if ft == 11 { "Q3_K_S"@ }
    else if ft == 12 { "Q3_K_M"@ }
    else if ft == 13 { "Q3_K_L"@ }
    else if ft == 14 { "Q4_K_S"@ }
    else if ft == 15 { "Q4_K_M"@ }
    else if ft == 16 { "Q5_K_S"@ }
    else if ft == 17 { "Q5_K_M"@ }
    else if ft == 18 { "Q6_K"@ }
    else if ft == 19 { "IQ2_XXS"@ }
    else if ft == 20 { "IQ2_XS"@ }
    else if ft == 21 { "Q2_K_S"@ }
    else if ft == 22 { "IQ3_XS"@ }
    else if ft == 23 { "IQ3_XXS"@ }
    else if ft == 24 { "IQ1_S"@ }
    else if ft == 25 { "IQ4_NL"@ }
    else if ft == 26 { "IQ3_S"@ }
    else if ft == 27 { "IQ3_M"@ }
    else if ft == 28 { "IQ2_S"@ }
    else if ft == 29 { "IQ2_M"@ }
    else if ft == 30 { "IQ4_XS"@ }
    else if ft == 31 { "IQ1_M"@ }
    else if ft == 32 { "BF16"@ }
    else if ft == 36 { "TQ1_0"@ }
    else if ft == 37 { "TQ2_0"@ }
    else if ft == 38 { "MXFP4"@ }
    else { "mixed"@ }
}

pub fn file_type_name(ft: u64) -> (r: &'static str)
    ensures
        r@ == quant_name(ft),
{
    match ft {
        0 => "F32",
        1 => "F16",
        2 => "Q4_0",
        3 => "Q4_1",
        7 => "Q8_0",
        8 => "Q5_0",
        9 => "Q5_1",
        10 => "Q2_K",
        11 => "Q3_K_S",
        12 => "Q3_K_M",
        13 => "Q3_K_L",
        14 => "Q4_K_S",
        15 => "Q4_K_M",
        16 => "Q5_K_S",
        17 => "Q5_K_M",
        18 => "Q6_K",
        19 => "IQ2_XXS",
        20 => "IQ2_XS",
        21 => "Q2_K_S",
        22 => "IQ3_XS",
        23 => "IQ3_XXS",
        24 => "IQ1_S",
        25 => "IQ4_NL",
        26 => "IQ3_S",
        27 => "IQ3_M",
        28 => "IQ2_S",
        29 => "IQ2_M",
        30 => "IQ4_XS",
        31 => "IQ1_M",
        32 => "BF16",
        36 => "TQ1_0",
        37 => "TQ2_0",
        38 => "MXFP4",
        _ => "mixed",
    }
}

/// The quotient rounded up.
pub open spec fn div_up(n: nat, d: nat) -> nat {
    (n + d - 1) as nat / d
}

impl TensorV {
    pub open spec fn elements(self) -> nat {
        product(self.dims)
    }

    /// The bytes of the tensor: whole blocks of its type.
    pub open spec fn bytes(self) -> nat {
        div_up(self.elements(), block_of(self.ggml_type).0 as nat) * block_of(self.ggml_type).1 as nat
    }

    /// The block that the tensor belongs to: the number between `blk.` and the next
    /// dot in its name.
    pub open spec fn block(self) -> Option<nat> {
        if begins(self.name, "blk."@) {
            let rest = self.name.skip("blk."@.len() as int);
            match char_from(rest, '.', 0) {
                Some(k) => number(rest.take(k), u32::MAX as nat),
                None => None,
            }
        } else {
            None
        }
    }
}

proof fn lemma_product_zero(d: Seq<u64>, n: int)
    requires
        0 <= n <= d.len(),
        product(d.take(n)) == 0,
    ensures
        product(d) == 0,
    decreases d.len() - n,
{
    if n == d.len() {
        assert(d.take(n) =~= d);
    } else {
        assert(d.take(n + 1).drop_last() =~= d.take(n));
        assert(0 * d[n] as nat == 0) by (nonlinear_arith);
        lemma_product_zero(d, n + 1);
    }
}

impl TensorInfo {
    /// The number of elements; none where it is out of the range of `u64`.
    pub fn elements_checked(&self) -> (r: Option<u64>)
        ensures
            match r {
                Some(n) => n == self@.elements(),
                None => self@.elements() > u64::MAX,
            },
    {
        // A zero anywhere makes the product zero, whatever the other factors.
        let mut z: usize = 0;
        while z < self.dims.len()
            invariant
                z <= self.dims.len(),
                forall|k: int| 0 <= k < z ==> self.dims@[k] > 0,
            decreases self.dims.len() - z,
        {
            if self.dims[z] == 0 {
                proof {
                    assert(self.dims@.take(z + 1).drop_last() =~= self.dims@.take(z as int));
                    assert(product(self.dims@.take(z + 1)) == product(self.dims@.take(z as int)) * 0);
                    assert(product(self.dims@.take(z as int)) * 0 == 0) by (nonlinear_arith);
                    lemma_product_zero(self.dims@, z + 1);
                }
                return Some(0);
            }
            z += 1;
        }
        let mut n: u64 = 1;
        let mut i: usize = 0;
        while i < self.dims.len()
            invariant
                i <= self.dims.len(),
                n == product(self.dims@.take(i as int)),
                n >= 1,
                forall|k: int| 0 <= k < self.dims@.len() ==> self.dims@[k] > 0,
            decreases self.dims.len() - i,
        {
            assert(self.dims@.take(i + 1).drop_last() =~= self.dims@.take(i as int));
            match n.checked_mul(self.dims[i]) {
                Some(m) => {
                    proof {
                        let a = n as int;
                        let b = self.dims@[i as int] as int;
                        assert(a * b >= 1) by (nonlinear_arith)
                            requires
                                a >= 1,
                                b >= 1,
                        ;
                    }
                    n = m;
                },
                None => {
                    proof {
                        lemma_product_grows(self.dims@, i + 1);
                    }
                    return None;
                },
            }
            i += 1;
        }
        assert(self.dims@.take(self.dims@.len() as int) =~= self.dims@);
        Some(n)
    }

    pub fn n_elements(&self) -> (r: u64)
        requires
            self@.elements() <= u64::MAX,
        ensures
            r == self@.elements(),
    {
        match self.elements_checked() {
            Some(n) => n,
            None => 0,
        }
    }

    /// The bytes of the tensor; none where they are out of the range of `u64`.
    pub fn bytes_checked(&self) -> (r: Option<u64>)
        requires
            self@.elements() <= u64::MAX,
        ensures
            match r {
                Some(n) => n == self@.bytes(),
                None => self@.bytes() > u64::MAX,
            },
    {
        let (block_size, type_size) = ggml_type_traits(self.ggml_type);
        let n = self.n_elements();
        let blocks: u128 = (n as u128 + block_size as u128 - 1) / block_size as u128;
        proof {
            let a = n as int + block_size as int - 1;
            let b = block_size as int;
            assert(a / b <= a) by (nonlinear_arith)
                requires
                    a >= 0,
                    b >= 1,
            ;
            assert(blocks * type_size <= 0x1_0000_0000_0000_00ff * 292) by (nonlinear_arith)
                requires
                    blocks <= 0x1_0000_0000_0000_00ff,
                    type_size <= 292,
            ;
        }
        let size: u128 = blocks * type_size as u128;
        if size <= u64::MAX as u128 {
            Some(size as u64)
        } else {
            None
        }
    }

    /// The bytes of the tensor, on disk and in memory.
    pub fn n_bytes(&self) -> (r: u64)
        requires
            self@.elements() <= u64::MAX,
            self@.bytes() <= u64::MAX,
        ensures
            r == self@.bytes(),
    {
        match self.bytes_checked() {
            Some(n) => n,
            None => 0,
        }
    }

    pub fn block_index(&self) -> (r: Option<u32>)
        ensures
            match r {
                Some(n) => self@.block() == Some(n as nat),
                None => self@.block() is None,
            },
    {
        let name = chars_of(self.name.as_str());
        let p = chars_of("blk.");
        if !is_at(&name, 0, &p) {
            return None;
        }
        let rest = slice(&name, p.len(), name.len());
        assert(rest@ =~= self.name@.skip("blk."@.len() as int));
        match find_char(&rest, '.', 0) {
            Some(k) => {
                let num = slice(&rest, 0, k);
                assert(num@ =~= rest@.take(k as int));
                match parse_number(&num, 0xffff_ffff) {
                    Some(n) => Some(n as u32),
                    None => None,
                }
            },
            None => None,
        }
    }
}

proof fn lemma_product_grows(d: Seq<u64>, n: int)
    requires
        0 <= n <= d.len(),
        forall|k: int| 0 <= k < d.len() ==> d[k] > 0,
    ensures
        product(d.take(n)) <= product(d),
    decreases d.len() - n,
{
    if n == d.len() {
        assert(d.take(n) =~= d);
    } else {
        lemma_product_grows(d, n + 1);
        assert(d.take(n + 1).drop_last() =~= d.take(n));
        let a = product(d.take(n)) as int;
        let b = d[n] as int;
        assert(a <= a * b) by (nonlinear_arith)
            requires
                a >= 0,
                b >= 1,
        ;
    }
}

// ---------------------------------------------------------------- reading

/// Why a header cannot be read.
#[derive(Debug)]
pub enum GgufError {
    /// The bytes end before the header does.
    Truncated,
    NotGguf(u32),
    Version(u32),
    Counts,
    StringTooLong(u64),
    ArrayTooDeep,
    ArrayTooLong(u64),
    ValueType(u32),
    Dims(String, u32),
}

pub enum GgufErrorV {
    Truncated,
    NotGguf(u32),
    Version(u32),
    Counts,
    StringTooLong(u64),
    ArrayTooDeep,
    ArrayTooLong(u64),
    ValueType(u32),
    Dims(Seq<char>, u32),
}

impl View for GgufError {
    type V = GgufErrorV;

    open spec fn view(&self) -> GgufErrorV {
        match self {
            GgufError::Truncated => GgufErrorV::Truncated,
            GgufError::NotGguf(m) => GgufErrorV::NotGguf(*m),
            GgufError::Version(v) => GgufErrorV::Version(*v),
            GgufError::Counts => GgufErrorV::Counts,
            GgufError::StringTooLong(n) => GgufErrorV::StringTooLong(*n),
            GgufError::ArrayTooDeep => GgufErrorV::ArrayTooDeep,
            GgufError::ArrayTooLong(n) => GgufErrorV::ArrayTooLong(*n),
            GgufError::ValueType(t) => GgufErrorV::ValueType(*t),
            GgufError::Dims(s, n) => GgufErrorV::Dims(s@, *n),
        }
    }
}

/// The characters that a byte string stands for, with a replacement character for
/// what is no UTF-8.
pub uninterp spec fn lossy_text(bytes: Seq<u8>) -> Seq<char>;

/// `String::from_utf8_lossy`: the text of the bytes, which for valid UTF-8 is the
/// text that they encode.
#[verifier::external_body]
pub(crate) fn from_utf8_lossy(bytes: &[u8]) -> (r: String)
    ensures
        r@ == lossy_text(bytes@),
        valid_utf8(bytes@) ==> r@ == decode_utf8(bytes@),
{
    String::from_utf8_lossy(bytes).into_owned()
}

/// What a read yields: a value and the place behind it, or why there is none.
pub type ReadV<T> = Result<(T, int), GgufErrorV>;

/// `n` bytes are there from place `p` on.
pub open spec fn there(b: Seq<u8>, p: int, n: int) -> bool {
    0 <= p && 0 <= n && p + n <= b.len()
}

pub open spec fn u16_at(b: Seq<u8>, p: int) -> u16 {
    (b[p] + 256 * b[p + 1]) as u16
}

pub open spec fn u32_at(b: Seq<u8>, p: int) -> u32 {
    (b[p] + 0x100 * b[p + 1] + 0x1_0000 * b[p + 2] + 0x100_0000 * b[p + 3]) as u32
}

pub open spec fn u64_at(b: Seq<u8>, p: int) -> u64 {
    (u32_at(b, p) + 0x1_0000_0000 * u32_at(b, p + 4)) as u64
}

pub open spec fn read_u8(b: Seq<u8>, p: int) -> ReadV<u8> {
    if there(b, p, 1) {
        Ok((b[p], p + 1))
    } else {
        Err(GgufErrorV::Truncated)
    }
}

pub open spec fn read_u16(b: Seq<u8>, p: int) -> ReadV<u16> {
    if there(b, p, 2) {
        Ok((u16_at(b, p), p + 2))
    } else {
        Err(GgufErrorV::Truncated)
    }
}

pub open spec fn read_u32(b: Seq<u8>, p: int) -> ReadV<u32> {
    if there(b, p, 4) {
        Ok((u32_at(b, p), p + 4))
    } else {
        Err(GgufErrorV::Truncated)
    }
}

pub open spec fn read_u64(b: Seq<u8>, p: int) -> ReadV<u64> {
    if there(b, p, 8) {
        Ok((u64_at(b, p), p + 8))
    } else {
        Err(GgufErrorV::Truncated)
    }
}

/// A string: its length in eight bytes, then its bytes.
pub open spec fn read_string(b: Seq<u8>, p: int) -> ReadV<Seq<char>> {
    match read_u64(b, p) {
        Err(e) => Err(e),
        Ok((len, q)) => if len > MAX_STRING {
            Err(GgufErrorV::StringTooLong(len))
        } else if there(b, q, len as int) {
            Ok((lossy_text(b.subrange(q, q + len)), q + len))
        } else {
            Err(GgufErrorV::Truncated)
        },
    }
}

/// What is left of the nesting that is read.
pub open spec fn levels(depth: nat) -> nat {
    if depth <= 6 {
        (6 - depth) as nat
    } else {
        0
    }
}

/// A value of the type `ty`. An array is the type of its items, their number, and
/// the items; arrays nest five deep at most.
pub open spec fn read_value(b: Seq<u8>, p: int, ty: u32, depth: nat) -> ReadV<MetaV>
    decreases levels(depth), 1nat, 0nat,
{
    if ty == 0 {
        match read_u8(b, p) { Ok((v, q)) => Ok((MetaV::U8(v), q)), Err(e) => Err(e) }
    } else if ty == 1 {
        match read_u8(b, p) { Ok((v, q)) => Ok((MetaV::I8(v as i8), q)), Err(e) => Err(e) }
    } else if ty == 2 {
        match read_u16(b, p) { Ok((v, q)) => Ok((MetaV::U16(v), q)), Err(e) => Err(e) }
    } else if ty == 3 {
        match read_u16(b, p) { Ok((v, q)) => Ok((MetaV::I16(v as i16), q)), Err(e) => Err(e) }
    } else if ty == 4 {
        match read_u32(b, p) { Ok((v, q)) => Ok((MetaV::U32(v), q)), Err(e) => Err(e) }
    } else if ty == 5 {
        match read_u32(b, p) { Ok((v, q)) => Ok((MetaV::I32(v as i32), q)), Err(e) => Err(e) }
    } else if ty == 6 {
        match read_u32(b, p) { Ok((v, q)) => Ok((MetaV::F32(v), q)), Err(e) => Err(e) }
    } else if ty == 7 {
        match read_u8(b, p) { Ok((v, q)) => Ok((MetaV::Bool(v != 0), q)), Err(e) => Err(e) }
    } else if ty == 8 {
        match read_string(b, p) { Ok((v, q)) => Ok((MetaV::Str(v), q)), Err(e) => Err(e) }
    } else if ty == 9 {
        if depth > 4 {
            Err(GgufErrorV::ArrayTooDeep)
        } else {
            match read_u32(b, p) {
                Err(e) => Err(e),
                Ok((ety, q)) => match read_u64(b, q) {
                    Err(e) => Err(e),
                    Ok((n, s)) => if n > MAX_ARRAY {
                        Err(GgufErrorV::ArrayTooLong(n))
                    } else {
                        match read_items(b, s, ety, depth, n as nat) {
                            Ok((v, t)) => Ok((MetaV::Array(v), t)),
                            Err(e) => Err(e),
                        }
                    },
                },
            }
        }
    } else if ty == 10 {
        match read_u64(b, p) { Ok((v, q)) => Ok((MetaV::U64(v), q)), Err(e) => Err(e) }
    } else if ty == 11 {
        match read_u64(b, p) { Ok((v, q)) => Ok((MetaV::I64(v as i64), q)), Err(e) => Err(e) }
    } else if ty == 12 {
        match read_u64(b, p) { Ok((v, q)) => Ok((MetaV::F64(v), q)), Err(e) => Err(e) }
    } else {
        Err(GgufErrorV::ValueType(ty))
    }
}

/// The first `n` items of an array whose items begin at `p`.
pub open spec fn read_items(b: Seq<u8>, p: int, ety: u32, depth: nat, n: nat) -> ReadV<Seq<MetaV>>
    decreases levels(depth), 0nat, n,
{
    if depth > 4 {
        Err(GgufErrorV::ArrayTooDeep)
    } else if n == 0 {
        Ok((Seq::empty(), p))
    } else {
        match read_items(b, p, ety, depth, (n - 1) as nat) {
            Err(e) => Err(e),
            Ok((v, q)) => match read_value(b, q, ety, depth + 1) {
                Err(e) => Err(e),
                Ok((x, r)) => Ok((v.push(x), r)),
            },
        }
    }
}

/// The first `n` metadata entries: each a key, a type and a value of that type.
pub open spec fn read_metadata(b: Seq<u8>, p: int, n: nat) -> ReadV<Seq<(Seq<char>, MetaV)>>
    decreases n,
{
    if n == 0 {
        Ok((Seq::empty(), p))
    } else {
        match read_metadata(b, p, (n - 1) as nat) {
            Err(e) => Err(e),
            Ok((m, q)) => match read_entry(b, q) {
                Err(e) => Err(e),
                Ok((x, r)) => Ok((m.push(x), r)),
            },
        }
    }
}

pub open spec fn read_entry(b: Seq<u8>, p: int) -> ReadV<(Seq<char>, MetaV)> {
    match read_string(b, p) {
        Err(e) => Err(e),
        Ok((key, q)) => match read_u32(b, q) {
            Err(e) => Err(e),
            Ok((ty, r)) => match read_value(b, r, ty, 0) {
                Err(e) => Err(e),
                Ok((v, s)) => Ok(((key, v), s)),
            },
        },
    }
}

/// The first `n` numbers of eight bytes each.
pub open spec fn read_dims(b: Seq<u8>, p: int, n: nat) -> ReadV<Seq<u64>>
    decreases n,
{
    if n == 0 {
        Ok((Seq::empty(), p))
    } else {
        match read_dims(b, p, (n - 1) as nat) {
            Err(e) => Err(e),
            Ok((d, q)) => match read_u64(b, q) {
                Err(e) => Err(e),
                Ok((x, r)) => Ok((d.push(x), r)),
            },
        }
    }
}

/// A tensor's description: its name, its dimensions, its type and its offset.
pub open spec fn read_tensor(b: Seq<u8>, p: int) -> ReadV<TensorV> {
    match read_string(b, p) {
        Err(e) => Err(e),
        Ok((name, q)) => match read_u32(b, q) {
            Err(e) => Err(e),
            Ok((n_dims, r)) => if n_dims > 8 {
                Err(GgufErrorV::Dims(name, n_dims))
            } else {
                match read_dims(b, r, n_dims as nat) {
                    Err(e) => Err(e),
                    Ok((dims, s)) => match read_u32(b, s) {
                        Err(e) => Err(e),
                        Ok((ggml_type, t)) => match read_u64(b, t) {
                            Err(e) => Err(e),
                            Ok((offset, u)) => Ok((TensorV { name, dims, ggml_type, offset }, u)),
                        },
                    },
                }
            },
        },
    }
}

/// The first `n` tensor descriptions.
pub open spec fn read_tensors(b: Seq<u8>, p: int, n: nat) -> ReadV<Seq<TensorV>>
    decreases n,
{
    if n == 0 {
        Ok((Seq::empty(), p))
    } else {
        match read_tensors(b, p, (n - 1) as nat) {
            Err(e) => Err(e),
            Ok((m, q)) => match read_tensor(b, q) {
                Err(e) => Err(e),
                Ok((x, r)) => Ok((m.push(x), r)),
            },
        }
    }
}

#[derive(Debug)]
pub struct GgufFile {
    pub path: String,
    pub version: u32,
    /// The metadata in the order of the file; of two entries of one key the later
    /// counts.
    pub metadata: Vec<(String, MetaValue)>,
    pub tensors: Vec<TensorInfo>,
    pub file_size: u64,
}

pub struct GgufV {
    pub path: Seq<char>,
    pub version: u32,
    pub metadata: Seq<(Seq<char>, MetaV)>,
    pub tensors: Seq<TensorV>,
    pub file_size: u64,
}

pub open spec fn entries_view(v: Seq<(String, MetaValue)>) -> Seq<(Seq<char>, MetaV)> {
    Seq::new(v.len(), |i: int| (v[i].0@, v[i].1@))
}

impl View for GgufFile {
    type V = GgufV;

    open spec fn view(&self) -> GgufV {
        GgufV {
            path: self.path@,
            version: self.version,
            metadata: entries_view(self.metadata@),
            tensors: tensors_view(self.tensors@),
            file_size: self.file_size,
        }
    }
}

/// What the bytes of a header say: the magic number, the version, the number of
/// tensors and of metadata entries, then the entries and the tensors.
pub open spec fn read_header(b: Seq<u8>, path: Seq<char>, file_size: u64) -> Result<GgufV, GgufErrorV> {
    match read_u32(b, 0) {
        Err(e) => Err(e),
        Ok((magic, p)) => if magic != GGUF_MAGIC {
            Err(GgufErrorV::NotGguf(magic))
        } else {
            match read_u32(b, p) {
                Err(e) => Err(e),
                Ok((version, q)) => if version < 2 || version > 3 {
                    Err(GgufErrorV::Version(version))
                } else {
                    match read_u64(b, q) {
                        Err(e) => Err(e),
                        Ok((n_tensors, r)) => match read_u64(b, r) {
                            Err(e) => Err(e),
                            Ok((n_kv, s)) => if n_tensors > MAX_COUNT || n_kv > MAX_COUNT {
                                Err(GgufErrorV::Counts)
                            } else {
                                match read_metadata(b, s, n_kv as nat) {
                                    Err(e) => Err(e),
                                    Ok((metadata, t)) => match read_tensors(b, t, n_tensors as nat) {
                                        Err(e) => Err(e),
                                        Ok((tensors, _)) => Ok(GgufV { path, version, metadata, tensors, file_size }),
                                    },
                                }
                            },
                        },
                    }
                },
            }
        },
    }
}

/// A read's result by its view.
pub open spec fn read_result<T, V>(r: Result<(T, usize), GgufError>, f: spec_fn(T) -> V) -> ReadV<V> {
    match r {
        Ok((v, p)) => Ok((f(v), p as int)),
        Err(e) => Err(e@),
    }
}

/// Reads a header from a byte string.
struct Reader<'a> {
    b: &'a [u8],
}

impl<'a> Reader<'a> {
    fn u8(&self, p: usize) -> (r: Result<(u8, usize), GgufError>)
        ensures
            read_result(r, |v: u8| v) == read_u8(self.b@, p as int),
    {
        if p < self.b.len() {
            Ok((self.b[p], p + 1))
        } else {
            Err(GgufError::Truncated)
        }
    }

    fn u16(&self, p: usize) -> (r: Result<(u16, usize), GgufError>)
        ensures
            read_result(r, |v: u16| v) == read_u16(self.b@, p as int),
    {
        if p <= self.b.len() && self.b.len() - p >= 2 {
            let v: u16 = self.b[p] as u16 + 256 * self.b[p + 1] as u16;
            Ok((v, p + 2))
        } else {
            Err(GgufError::Truncated)
        }
    }

    fn u32(&self, p: usize) -> (r: Result<(u32, usize), GgufError>)
        ensures
            read_result(r, |v: u32| v) == read_u32(self.b@, p as int),
    {
        if p <= self.b.len() && self.b.len() - p >= 4 {
            let v: u32 = self.b[p] as u32 + 0x100 * self.b[p + 1] as u32 + 0x1_0000 * self.b[p + 2] as u32 + 0x100_0000
                * self.b[p + 3] as u32;
            Ok((v, p + 4))
        } else {
            Err(GgufError::Truncated)
        }
    }

    fn u64(&self, p: usize) -> (r: Result<(u64, usize), GgufError>)
        ensures
            read_result(r, |v: u64| v) == read_u64(self.b@, p as int),
    {
        if p <= self.b.len() && self.b.len() - p >= 8 {
            let lo: u64 = self.b[p] as u64 + 0x100 * self.b[p + 1] as u64 + 0x1_0000 * self.b[p + 2] as u64 + 0x100_0000
                * self.b[p + 3] as u64;
            let hi: u64 = self.b[p + 4] as u64 + 0x100 * self.b[p + 5] as u64 + 0x1_0000 * self.b[p + 6] as u64
                + 0x100_0000 * self.b[p + 7] as u64;
            Ok((lo + 0x1_0000_0000 * hi, p + 8))
        } else {
            Err(GgufError::Truncated)
        }
    }

    fn string(&self, p: usize) -> (r: Result<(String, usize), GgufError>)
        ensures
            read_result(r, |v: String| v@) == read_string(self.b@, p as int),
    {
        let (len, q) = match self.u64(p) {
            Ok(x) => x,
            Err(e) => {
                return Err(e);
            },
        };
        if len > MAX_STRING {
            return Err(GgufError::StringTooLong(len));
        }
        let n: usize = len as usize;
        if q <= self.b.len() && self.b.len() - q >= n {
            let part = vstd::slice::slice_subrange(self.b, q, q + n);
            Ok((from_utf8_lossy(part), q + n))
        } else {
            Err(GgufError::Truncated)
        }
    }

    fn value(&self, p: usize, ty: u32, depth: u32) -> (r: Result<(MetaValue, usize), GgufError>)
        requires
            depth <= 5,
        ensures
            read_result(r, |v: MetaValue| v@) == read_value(self.b@, p as int, ty, depth as nat),
        decreases 6 - depth,
    {
        match ty {
            0 => match self.u8(p) {
                Ok((v, q)) => Ok((MetaValue::U8(v), q)),
                Err(e) => Err(e),
            },
            1 => match self.u8(p) {
                Ok((v, q)) => Ok((MetaValue::I8(v as i8), q)),
                Err(e) => Err(e),
            },
            2 => match self.u16(p) {
                Ok((v, q)) => Ok((MetaValue::U16(v), q)),
                Err(e) => Err(e),
            },
            3 => match self.u16(p) {
                Ok((v, q)) => Ok((MetaValue::I16(v as i16), q)),
                Err(e) => Err(e),
            },
            4 => match self.u32(p) {
                Ok((v, q)) => Ok((MetaValue::U32(v), q)),
                Err(e) => Err(e),
            },
            5 => match self.u32(p) {
                Ok((v, q)) => Ok((MetaValue::I32(v as i32), q)),
                Err(e) => Err(e),
            },
            6 => match self.u32(p) {
                Ok((v, q)) => Ok((MetaValue::F32(v), q)),
                Err(e) => Err(e),
            },
            7 => match self.u8(p) {
                Ok((v, q)) => Ok((MetaValue::Bool(v != 0), q)),
                Err(e) => Err(e),
            },
            8 => match self.string(p) {
                Ok((v, q)) => Ok((MetaValue::Str(v), q)),
                Err(e) => Err(e),
            },
            9 => {
                if depth > 4 {
                    return Err(GgufError::ArrayTooDeep);
                }
                let (ety, q) = match self.u32(p) {
                    Ok(x) => x,
                    Err(e) => {
                        return Err(e);
                    },
                };
                let (n, s) = match self.u64(q) {
                    Ok(x) => x,
                    Err(e) => {
                        return Err(e);
                    },
                };
                if n > MAX_ARRAY {
                    return Err(GgufError::ArrayTooLong(n));
                }
                let mut v: Vec<MetaValue> = Vec::new();
                let mut at: usize = s;
                let mut i: u64 = 0;
                assert(metas(v@) =~= Seq::empty());
                while i < n
                    invariant
                        i <= n <= MAX_ARRAY,
                        depth <= 4,
                        ty == 9,
                        read_u32(self.b@, p as int) == Ok::<(u32, int), GgufErrorV>((ety, q as int)),
                        read_u64(self.b@, q as int) == Ok::<(u64, int), GgufErrorV>((n, s as int)),
                        read_items(self.b@, s as int, ety, depth as nat, i as nat) == Ok::<(Seq<MetaV>, int), GgufErrorV>(
                            (metas(v@), at as int),
                        ),
                    decreases n - i,
                {
                    match self.value(at, ety, depth + 1) {
                        Ok((x, next)) => {
                            let ghost before = v@;
                            v.push(x);
                            assert(metas(v@) =~= metas(before).push(x@));
                            at = next;
                        },
                        Err(e) => {
                            proof {
                                lemma_items_fail(self.b@, s as int, ety, depth as nat, (i + 1) as nat, n as nat);
                            }
                            return Err(e);
                        },
                    }
                    i += 1;
                }
                let a = MetaValue::Array(v);
                proof {
                    lemma_meta_view(a);
                }
                Ok((a, at))
            },
            10 => match self.u64(p) {
                Ok((v, q)) => Ok((MetaValue::U64(v), q)),
                Err(e) => Err(e),
            },
            11 => match self.u64(p) {
                Ok((v, q)) => Ok((MetaValue::I64(v as i64), q)),
                Err(e) => Err(e),
            },
            12 => match self.u64(p) {
                Ok((v, q)) => Ok((MetaValue::F64(v), q)),
                Err(e) => Err(e),
            },
            other => Err(GgufError::ValueType(other)),
        }
    }

    fn entry(&self, p: usize) -> (r: Result<((String, MetaValue), usize), GgufError>)
        ensures
            read_result(r, |v: (String, MetaValue)| (v.0@, v.1@)) == read_entry(self.b@, p as int),
    {
        let (key, q) = match self.string(p) {
            Ok(x) => x,
            Err(e) => {
                return Err(e);
            },
        };
        let (ty, s) = match self.u32(q) {
            Ok(x) => x,
            Err(e) => {
                return Err(e);
            },
        };
        match self.value(s, ty, 0) {
            Ok((v, t)) => Ok(((key, v), t)),
            Err(e) => Err(e),
        }
    }

    fn metadata(&self, p: usize, n: u64) -> (r: Result<(Vec<(String, MetaValue)>, usize), GgufError>)
        ensures
            read_result(r, |v: Vec<(String, MetaValue)>| entries_view(v@)) == read_metadata(self.b@, p as int, n as nat),
    {
        let mut m: Vec<(String, MetaValue)> = Vec::new();
        let mut at: usize = p;
        let mut i: u64 = 0;
        assert(entries_view(m@) =~= Seq::empty());
        while i < n
            invariant
                i <= n,
                read_metadata(self.b@, p as int, i as nat) == Ok::<(Seq<(Seq<char>, MetaV)>, int), GgufErrorV>(
                    (entries_view(m@), at as int),
                ),
            decreases n - i,
        {
            match self.entry(at) {
                Ok((x, next)) => {
                    let ghost before = m@;
                    m.push(x);
                    assert(entries_view(m@) =~= entries_view(before).push((x.0@, x.1@)));
                    at = next;
                },
                Err(e) => {
                    proof {
                        lemma_metadata_fail(self.b@, p as int, (i + 1) as nat, n as nat);
                    }
                    return Err(e);
                },
            }
            i += 1;
        }
        Ok((m, at))
    }

    fn tensor(&self, p: usize) -> (r: Result<(TensorInfo, usize), GgufError>)
        ensures
            read_result(r, |v: TensorInfo| v@) == read_tensor(self.b@, p as int),
    {
        let (name, q) = match self.string(p) {
            Ok(x) => x,
            Err(e) => {
                return Err(e);
            },
        };
        let (n_dims, s) = match self.u32(q) {
            Ok(x) => x,
            Err(e) => {
                return Err(e);
            },
        };
        if n_dims > 8 {
            return Err(GgufError::Dims(name, n_dims));
        }
        let mut dims: Vec<u64> = Vec::new();
        let mut at: usize = s;
        let mut i: u32 = 0;
        while i < n_dims
            invariant
                i <= n_dims,
                read_dims(self.b@, s as int, i as nat) == Ok::<(Seq<u64>, int), GgufErrorV>((dims@, at as int)),
                n_dims <= 8,
                read_string(self.b@, p as int) == Ok::<(Seq<char>, int), GgufErrorV>((name@, q as int)),
                read_u32(self.b@, q as int) == Ok::<(u32, int), GgufErrorV>((n_dims, s as int)),
            decreases n_dims - i,
        {
            match self.u64(at) {
                Ok((x, next)) => {
                    dims.push(x);
                    at = next;
                },
                Err(e) => {
                    proof {
                        lemma_dims_fail(self.b@, s as int, (i + 1) as nat, n_dims as nat);
                    }
                    return Err(e);
                },
            }
            i += 1;
        }
        let (ggml_type, t) = match self.u32(at) {
            Ok(x) => x,
            Err(e) => {
                return Err(e);
            },
        };
        match self.u64(t) {
            Ok((offset, u)) => Ok((TensorInfo { name, dims, ggml_type, offset }, u)),
            Err(e) => Err(e),
        }
    }

    fn tensors(&self, p: usize, n: u64) -> (r: Result<(Vec<TensorInfo>, usize), GgufError>)
        ensures
            read_result(r, |v: Vec<TensorInfo>| tensors_view(v@)) == read_tensors(self.b@, p as int, n as nat),
    {
        let mut m: Vec<TensorInfo> = Vec::new();
        let mut at: usize = p;
        let mut i: u64 = 0;
        assert(tensors_view(m@) =~= Seq::empty());
        while i < n
            invariant
                i <= n,
                read_tensors(self.b@, p as int, i as nat) == Ok::<(Seq<TensorV>, int), GgufErrorV>(
                    (tensors_view(m@), at as int),
                ),
            decreases n - i,
        {
            match self.tensor(at) {
                Ok((x, next)) => {
                    let ghost before = m@;
                    m.push(x);
                    assert(tensors_view(m@) =~= tensors_view(before).push(x@));
                    at = next;
                },
                Err(e) => {
                    proof {
                        lemma_tensors_fail(self.b@, p as int, (i + 1) as nat, n as nat);
                    }
                    return Err(e);
                },
            }
            i += 1;
        }
        Ok((m, at))
    }
}

proof fn lemma_items_fail(b: Seq<u8>, p: int, ety: u32, depth: nat, n: nat, m: nat)
    requires
        n <= m,
        depth <= 4,
        read_items(b, p, ety, depth, n) is Err,
    ensures
        read_items(b, p, ety, depth, m) == read_items(b, p, ety, depth, n),
    decreases m - n,
{
    if n < m {
        lemma_items_fail(b, p, ety, depth, n, (m - 1) as nat);
    }
}

proof fn lemma_metadata_fail(b: Seq<u8>, p: int, n: nat, m: nat)
    requires
        n <= m,
        read_metadata(b, p, n) is Err,
    ensures
        read_metadata(b, p, m) == read_metadata(b, p, n),
    decreases m - n,
{
    if n < m {
        lemma_metadata_fail(b, p, n, (m - 1) as nat);
    }
}

proof fn lemma_dims_fail(b: Seq<u8>, p: int, n: nat, m: nat)
    requires
        n <= m,
        read_dims(b, p, n) is Err,
    ensures
        read_dims(b, p, m) == read_dims(b, p, n),
    decreases m - n,
{
    if n < m {
        lemma_dims_fail(b, p, n, (m - 1) as nat);
    }
}

proof fn lemma_tensors_fail(b: Seq<u8>, p: int, n: nat, m: nat)
    requires
        n <= m,
        read_tensors(b, p, n) is Err,
    ensures
        read_tensors(b, p, m) == read_tensors(b, p, n),
    decreases m - n,
{
    if n < m {
        lemma_tensors_fail(b, p, n, (m - 1) as nat);
    }
}

// ---------------------------------------------------------------- what is written is read

/// A number in `k` bytes, the lowest first.
pub open spec fn little(n: nat, k: nat) -> Seq<u8>
    decreases k,
{
    if k == 0 {
        Seq::empty()
    } else {
        seq![(n % 256) as u8] + little(n / 256, (k - 1) as nat)
    }
}

pub open spec fn string_bytes(s: Seq<char>) -> Seq<u8> {
    little(encode_utf8(s).len(), 8) + encode_utf8(s)
}

/// The number of the type of a value.
pub open spec fn type_number(v: MetaV) -> u32 {
    match v {
        MetaV::U8(_) => 0,
        MetaV::I8(_) => 1,
        MetaV::U16(_) => 2,
        MetaV::I16(_) => 3,
        MetaV::U32(_) => 4,
        MetaV::I32(_) => 5,
        MetaV::F32(_) => 6,
        MetaV::Bool(_) => 7,
        MetaV::Str(_) => 8,
        MetaV::Array(_) => 9,
        MetaV::U64(_) => 10,
        MetaV::I64(_) => 11,
        MetaV::F64(_) => 12,
    }
}

/// The bytes of a value. An array is the type of its items, their number, and the items.
pub open spec fn value_bytes(v: MetaV) -> Seq<u8>
    decreases v, 0nat,
{
    match v {
        MetaV::U8(x) => little(x as nat, 1),
        MetaV::I8(x) => little(x as nat, 1),
        MetaV::U16(x) => little(x as nat, 2),
        MetaV::I16(x) => little(x as nat, 2),
        MetaV::U32(x) => little(x as nat, 4),
        MetaV::I32(x) => little(x as nat, 4),
        MetaV::F32(x) => little(x as nat, 4),
        MetaV::Bool(x) => little(
            if x {
                1
            } else {
                0
            },
            1,
        ),
        MetaV::Str(s) => string_bytes(s),
        MetaV::Array(a) => little(
            (if a.len() > 0 {
                type_number(a[0])
            } else {
                0
            }) as nat,
            4,
        ) + little(a.len(), 8) + items_bytes(a, a.len()),
        MetaV::U64(x) => little(x as nat, 8),
        MetaV::I64(x) => little(x as nat, 8),
        MetaV::F64(x) => little(x as nat, 8),
    }
}

pub open spec fn items_bytes(a: Seq<MetaV>, n: nat) -> Seq<u8>
    decreases a, n,
{
    if n == 0 || n > a.len() {
        Seq::empty()
    } else {
        items_bytes(a, (n - 1) as nat) + value_bytes(a[n - 1])
    }
}

/// A value that can be written at a depth: numbers that are not negative, texts and arrays that
/// are not too long, the items of an array all of one type, arrays in arrays up to five deep.
pub open spec fn storable(v: MetaV, depth: nat) -> bool
    decreases v,
{
    match v {
        MetaV::I8(x) => x >= 0,
        MetaV::I16(x) => x >= 0,
        MetaV::I32(x) => x >= 0,
        MetaV::I64(x) => x >= 0,
        MetaV::Str(s) => encode_utf8(s).len() <= 64 * 0x10_0000,
        MetaV::Array(a) => depth <= 4 && a.len() <= 50_000_000 && forall|i: int|
            0 <= i < a.len() ==> storable(#[trigger] a[i], depth + 1) && type_number(a[i]) == type_number(a[0]),
        _ => true,
    }
}

/// Bytes stand at a place.
pub open spec fn stands(b: Seq<u8>, p: int, e: Seq<u8>) -> bool {
    0 <= p && p + e.len() <= b.len() && b.subrange(p, p + e.len()) == e
}

proof fn lemma_stands(b: Seq<u8>, p: int, x: Seq<u8>, y: Seq<u8>)
    requires
        stands(b, p, x + y),
    ensures
        stands(b, p, x),
        stands(b, p + x.len(), y),
{
    let e = b.subrange(p, p + (x + y).len());
    assert(b.subrange(p, p + x.len()) =~= x) by {
        assert forall|i: int| 0 <= i < x.len() implies b[p + i] == x[i] by {
            assert(e[i] == (x + y)[i]);
        }
    }
    assert(b.subrange(p + x.len(), p + x.len() + y.len()) =~= y) by {
        assert forall|i: int| 0 <= i < y.len() implies b[p + x.len() + i] == y[i] by {
            assert(e[x.len() + i] == (x + y)[x.len() + i]);
        }
    }
}

proof fn lemma_little_len(n: nat, k: nat)
    ensures
        little(n, k).len() == k,
    decreases k,
{
    if k > 0 {
        lemma_little_len(n / 256, (k - 1) as nat);
    }
}

proof fn lemma_little(b: Seq<u8>, p: int, n: nat)
    ensures
        n < 0x100 && stands(b, p, little(n, 1)) ==> read_u8(b, p) == Ok::<(u8, int), GgufErrorV>((n as u8, p + 1)),
        n < 0x1_0000 && stands(b, p, little(n, 2)) ==> read_u16(b, p) == Ok::<(u16, int), GgufErrorV>(
            (n as u16, p + 2),
        ),
        n < 0x1_0000_0000 && stands(b, p, little(n, 4)) ==> read_u32(b, p) == Ok::<(u32, int), GgufErrorV>(
            (n as u32, p + 4),
        ),
        n <= u64::MAX && stands(b, p, little(n, 8)) ==> read_u64(b, p) == Ok::<(u64, int), GgufErrorV>(
            (n as u64, p + 8),
        ),
{
    if n < 0x100 && stands(b, p, little(n, 1)) {
        lemma_little_1(b, p, n);
    }
    if n < 0x1_0000 && stands(b, p, little(n, 2)) {
        lemma_little_2(b, p, n);
    }
    if n < 0x1_0000_0000 && stands(b, p, little(n, 4)) {
        lemma_little_4(b, p, n);
    }
    if n <= u64::MAX && stands(b, p, little(n, 8)) {
        let low = n % 0x1_0000_0000;
        let high = n / 0x1_0000_0000;
        lemma_little_halves(n);
        lemma_little_len(low, 4);
        lemma_little_len(high, 4);
        lemma_stands(b, p, little(low, 4), little(high, 4));
        lemma_little_4(b, p, low);
        lemma_little_4(b, p + 4, high);
    }
}

proof fn lemma_little_1(b: Seq<u8>, p: int, n: nat)
    requires
        n < 0x100,
        stands(b, p, little(n, 1)),
    ensures
        there(b, p, 1),
        b[p] == n,
{
    lemma_little_len(n, 1);
    reveal_with_fuel(little, 2);
    assert(b.subrange(p, p + 1)[0] == little(n, 1)[0]);
}

proof fn lemma_little_2(b: Seq<u8>, p: int, n: nat)
    requires
        n < 0x1_0000,
        stands(b, p, little(n, 2)),
    ensures
        there(b, p, 2),
        u16_at(b, p) == n,
{
    lemma_little_len(n, 2);
    reveal_with_fuel(little, 3);
    let e = little(n, 2);
    let s = b.subrange(p, p + 2);
    assert(s[0] == e[0] && s[1] == e[1]);
}

/// The lower four of eight bytes, and the upper.
proof fn lemma_little_halves(n: nat)
    ensures
        little(n, 8) == little(n % 0x1_0000_0000, 4) + little(n / 0x1_0000_0000, 4),
{
    let low = n % 0x1_0000_0000;
    let high = n / 0x1_0000_0000;
    let a = n / 256;
    let b = a / 256;
    let c = b / 256;
    assert(c / 256 == high);
    assert(low % 256 == n % 256);
    assert(low / 256 == a % 0x100_0000);
    assert((a % 0x100_0000) % 256 == a % 256);
    assert((a % 0x100_0000) / 256 == b % 0x1_0000);
    assert((b % 0x1_0000) % 256 == b % 256);
    assert((b % 0x1_0000) / 256 == c % 256);
    assert((c % 256) / 256 == 0);
    let e = little(high, 4);
    assert(little(n, 8) == seq![(n % 256) as u8] + little(a, 7));
    assert(little(a, 7) == seq![(a % 256) as u8] + little(b, 6));
    assert(little(b, 6) == seq![(b % 256) as u8] + little(c, 5));
    assert(little(c, 5) == seq![(c % 256) as u8] + e);
    assert(little(low, 4) == seq![(n % 256) as u8] + little(a % 0x100_0000, 3));
    assert(little(a % 0x100_0000, 3) == seq![(a % 256) as u8] + little(b % 0x1_0000, 2));
    assert(little(b % 0x1_0000, 2) == seq![(b % 256) as u8] + little(c % 256, 1));
    assert(little(c % 256, 1) == seq![(c % 256) as u8] + little(0, 0));
    assert(little(0, 0) =~= Seq::<u8>::empty());
    assert(little(n, 8) =~= little(low, 4) + e);
}

proof fn lemma_little_4(b: Seq<u8>, p: int, n: nat)
    requires
        n < 0x1_0000_0000,
        stands(b, p, little(n, 4)),
    ensures
        there(b, p, 4),
        u32_at(b, p) == n,
{
    lemma_little_len(n, 4);
    reveal_with_fuel(little, 5);
    let e = little(n, 4);
    let s = b.subrange(p, p + 4);
    assert(s[0] == e[0] && s[1] == e[1] && s[2] == e[2] && s[3] == e[3]);
    assert(s[0] == b[p] && s[1] == b[p + 1] && s[2] == b[p + 2] && s[3] == b[p + 3]);
}

/// Every text is what its own bytes decode to.
pub open spec fn texts_are_decoded() -> bool {
    forall|s: Seq<char>| lossy_text(#[trigger] encode_utf8(s)) == s
}

proof fn lemma_string(b: Seq<u8>, p: int, s: Seq<char>)
    requires
        stands(b, p, string_bytes(s)),
        encode_utf8(s).len() <= 64 * 0x10_0000,
        texts_are_decoded(),
    ensures
        read_string(b, p) == Ok::<(Seq<char>, int), GgufErrorV>((s, p + string_bytes(s).len())),
{
    let e = encode_utf8(s);
    lemma_little_len(e.len(), 8);
    lemma_stands(b, p, little(e.len(), 8), e);
    lemma_little(b, p, e.len());
    assert(b.subrange(p + 8, p + 8 + e.len()) == e);
}

proof fn lemma_value(b: Seq<u8>, p: int, v: MetaV, depth: nat)
    requires
        stands(b, p, value_bytes(v)),
        storable(v, depth),
        texts_are_decoded(),
    ensures
        read_value(b, p, type_number(v), depth) == Ok::<(MetaV, int), GgufErrorV>((v, p + value_bytes(v).len())),
    decreases v, 0nat,
{
    match v {
        MetaV::U8(x) => {
            lemma_little(b, p, x as nat);
            lemma_little_len(x as nat, 1);
        },
        MetaV::I8(x) => {
            lemma_little(b, p, x as nat);
            lemma_little_len(x as nat, 1);
        },
        MetaV::U16(x) => {
            lemma_little(b, p, x as nat);
            lemma_little_len(x as nat, 2);
        },
        MetaV::I16(x) => {
            lemma_little(b, p, x as nat);
            lemma_little_len(x as nat, 2);
        },
        MetaV::U32(x) => {
            lemma_little(b, p, x as nat);
            lemma_little_len(x as nat, 4);
        },
        MetaV::I32(x) => {
            lemma_little(b, p, x as nat);
            lemma_little_len(x as nat, 4);
        },
        MetaV::F32(x) => {
            lemma_little(b, p, x as nat);
            lemma_little_len(x as nat, 4);
        },
        MetaV::Bool(x) => {
            lemma_little(b, p, 1);
            lemma_little(b, p, 0);
            lemma_little_len(1, 1);
            lemma_little_len(0, 1);
        },
        MetaV::Str(s) => {
            lemma_string(b, p, s);
        },
        MetaV::Array(a) => {
            let ty = if a.len() > 0 {
                type_number(a[0])
            } else {
                0
            };
            let x = little(ty as nat, 4);
            let y = little(a.len(), 8);
            let z = items_bytes(a, a.len());
            lemma_little_len(ty as nat, 4);
            lemma_little_len(a.len(), 8);
            lemma_stands(b, p, x + y, z);
            lemma_stands(b, p, x, y);
            lemma_little(b, p, ty as nat);
            lemma_little(b, p + 4, a.len());
            lemma_items(b, p + 12, a, a.len(), ty, depth);
            assert(a.take(a.len() as int) =~= a);
        },
        MetaV::U64(x) => {
            lemma_little(b, p, x as nat);
            lemma_little_len(x as nat, 8);
        },
        MetaV::I64(x) => {
            lemma_little(b, p, x as nat);
            lemma_little_len(x as nat, 8);
        },
        MetaV::F64(x) => {
            lemma_little(b, p, x as nat);
            lemma_little_len(x as nat, 8);
        },
    }
}

proof fn lemma_items(b: Seq<u8>, p: int, a: Seq<MetaV>, n: nat, ty: u32, depth: nat)
    requires
        n <= a.len(),
        depth <= 4,
        0 <= p <= b.len(),
        stands(b, p, items_bytes(a, n)),
        forall|i: int| 0 <= i < a.len() ==> storable(#[trigger] a[i], depth + 1) && type_number(a[i]) == ty,
        texts_are_decoded(),
    ensures
        read_items(b, p, ty, depth, n) == Ok::<(Seq<MetaV>, int), GgufErrorV>(
            (a.take(n as int), p + items_bytes(a, n).len()),
        ),
    decreases a, n,
{
    if n > 0 {
        let x = items_bytes(a, (n - 1) as nat);
        let y = value_bytes(a[n - 1]);
        lemma_stands(b, p, x, y);
        lemma_items(b, p, a, (n - 1) as nat, ty, depth);
        lemma_value(b, p + x.len(), a[n - 1], depth + 1);
        assert(a.take(n as int) =~= a.take(n - 1).push(a[n - 1]));
    } else {
        assert(a.take(0) =~= Seq::<MetaV>::empty());
    }
}

pub open spec fn entry_bytes(e: (Seq<char>, MetaV)) -> Seq<u8> {
    string_bytes(e.0) + little(type_number(e.1) as nat, 4) + value_bytes(e.1)
}

pub open spec fn metadata_bytes(m: Seq<(Seq<char>, MetaV)>, n: nat) -> Seq<u8>
    decreases n,
{
    if n == 0 || n > m.len() {
        Seq::empty()
    } else {
        metadata_bytes(m, (n - 1) as nat) + entry_bytes(m[n - 1])
    }
}

pub open spec fn dims_bytes(d: Seq<u64>, n: nat) -> Seq<u8>
    decreases n,
{
    if n == 0 || n > d.len() {
        Seq::empty()
    } else {
        dims_bytes(d, (n - 1) as nat) + little(d[n - 1] as nat, 8)
    }
}

pub open spec fn tensor_bytes(t: TensorV) -> Seq<u8> {
    string_bytes(t.name) + little(t.dims.len(), 4) + dims_bytes(t.dims, t.dims.len()) + little(t.ggml_type as nat, 4)
        + little(t.offset as nat, 8)
}

pub open spec fn tensors_bytes(ts: Seq<TensorV>, n: nat) -> Seq<u8>
    decreases n,
{
    if n == 0 || n > ts.len() {
        Seq::empty()
    } else {
        tensors_bytes(ts, (n - 1) as nat) + tensor_bytes(ts[n - 1])
    }
}

/// The bytes of a header: `GGUF`, the version, the numbers of tensors and of metadata entries,
/// the entries and the tensors.
pub open spec fn header_bytes(g: GgufV) -> Seq<u8> {
    seq![0x47u8, 0x47u8, 0x55u8, 0x46u8] + little(g.version as nat, 4) + little(g.tensors.len(), 8) + little(
        g.metadata.len(),
        8,
    ) + metadata_bytes(g.metadata, g.metadata.len()) + tensors_bytes(g.tensors, g.tensors.len())
}

/// A header that can be written.
pub open spec fn writable(g: GgufV) -> bool {
    &&& 2 <= g.version <= 3
    &&& g.tensors.len() <= 1_000_000
    &&& g.metadata.len() <= 1_000_000
    &&& forall|i: int|
        0 <= i < g.metadata.len() ==> encode_utf8((#[trigger] g.metadata[i]).0).len() <= 64 * 0x10_0000 && storable(
            g.metadata[i].1,
            0,
        )
    &&& forall|i: int|
        0 <= i < g.tensors.len() ==> encode_utf8((#[trigger] g.tensors[i]).name).len() <= 64 * 0x10_0000
            && g.tensors[i].dims.len() <= 8
}

proof fn lemma_metadata(b: Seq<u8>, p: int, m: Seq<(Seq<char>, MetaV)>, n: nat)
    requires
        n <= m.len(),
        0 <= p <= b.len(),
        stands(b, p, metadata_bytes(m, n)),
        forall|i: int|
            0 <= i < m.len() ==> encode_utf8((#[trigger] m[i]).0).len() <= 64 * 0x10_0000 && storable(m[i].1, 0),
        texts_are_decoded(),
    ensures
        read_metadata(b, p, n) == Ok::<(Seq<(Seq<char>, MetaV)>, int), GgufErrorV>(
            (m.take(n as int), p + metadata_bytes(m, n).len()),
        ),
    decreases n,
{
    if n > 0 {
        let x = metadata_bytes(m, (n - 1) as nat);
        let e = m[n - 1];
        lemma_stands(b, p, x, entry_bytes(e));
        lemma_metadata(b, p, m, (n - 1) as nat);
        let q = p + x.len();
        let k = string_bytes(e.0);
        let t = little(type_number(e.1) as nat, 4);
        lemma_little_len(type_number(e.1) as nat, 4);
        lemma_stands(b, q, k + t, value_bytes(e.1));
        lemma_stands(b, q, k, t);
        lemma_string(b, q, e.0);
        lemma_little(b, q + k.len(), type_number(e.1) as nat);
        lemma_value(b, q + k.len() + 4, e.1, 0);
        assert(m.take(n as int) =~= m.take(n - 1).push(e));
    } else {
        assert(m.take(0) =~= Seq::<(Seq<char>, MetaV)>::empty());
    }
}

proof fn lemma_dims(b: Seq<u8>, p: int, d: Seq<u64>, n: nat)
    requires
        n <= d.len(),
        0 <= p <= b.len(),
        stands(b, p, dims_bytes(d, n)),
    ensures
        read_dims(b, p, n) == Ok::<(Seq<u64>, int), GgufErrorV>((d.take(n as int), p + dims_bytes(d, n).len())),
    decreases n,
{
    if n > 0 {
        let x = dims_bytes(d, (n - 1) as nat);
        lemma_stands(b, p, x, little(d[n - 1] as nat, 8));
        lemma_dims(b, p, d, (n - 1) as nat);
        lemma_little(b, p + x.len(), d[n - 1] as nat);
        lemma_little_len(d[n - 1] as nat, 8);
        assert(d.take(n as int) =~= d.take(n - 1).push(d[n - 1]));
    } else {
        assert(d.take(0) =~= Seq::<u64>::empty());
    }
}

proof fn lemma_tensor(b: Seq<u8>, p: int, t: TensorV)
    requires
        stands(b, p, tensor_bytes(t)),
        encode_utf8(t.name).len() <= 64 * 0x10_0000,
        t.dims.len() <= 8,
        texts_are_decoded(),
    ensures
        read_tensor(b, p) == Ok::<(TensorV, int), GgufErrorV>((t, p + tensor_bytes(t).len())),
{
    let k = string_bytes(t.name);
    let n = little(t.dims.len(), 4);
    let d = dims_bytes(t.dims, t.dims.len());
    let y = little(t.ggml_type as nat, 4);
    let o = little(t.offset as nat, 8);
    lemma_little_len(t.dims.len(), 4);
    lemma_little_len(t.ggml_type as nat, 4);
    lemma_little_len(t.offset as nat, 8);
    lemma_stands(b, p, k + n + d + y, o);
    lemma_stands(b, p, k + n + d, y);
    lemma_stands(b, p, k + n, d);
    lemma_stands(b, p, k, n);
    lemma_string(b, p, t.name);
    let q = p + k.len();
    lemma_little(b, q, t.dims.len());
    lemma_dims(b, q + 4, t.dims, t.dims.len());
    lemma_little(b, q + 4 + d.len(), t.ggml_type as nat);
    lemma_little(b, q + 4 + d.len() + 4, t.offset as nat);
    assert(t.dims.take(t.dims.len() as int) =~= t.dims);
}

proof fn lemma_tensors(b: Seq<u8>, p: int, ts: Seq<TensorV>, n: nat)
    requires
        n <= ts.len(),
        0 <= p <= b.len(),
        stands(b, p, tensors_bytes(ts, n)),
        forall|i: int|
            0 <= i < ts.len() ==> encode_utf8((#[trigger] ts[i]).name).len() <= 64 * 0x10_0000 && ts[i].dims.len() <= 8,
        texts_are_decoded(),
    ensures
        read_tensors(b, p, n) == Ok::<(Seq<TensorV>, int), GgufErrorV>(
            (ts.take(n as int), p + tensors_bytes(ts, n).len()),
        ),
    decreases n,
{
    if n > 0 {
        let x = tensors_bytes(ts, (n - 1) as nat);
        lemma_stands(b, p, x, tensor_bytes(ts[n - 1]));
        lemma_tensors(b, p, ts, (n - 1) as nat);
        lemma_tensor(b, p + x.len(), ts[n - 1]);
        assert(ts.take(n as int) =~= ts.take(n - 1).push(ts[n - 1]));
    } else {
        assert(ts.take(0) =~= Seq::<TensorV>::empty());
    }
}

proof fn lemma_front(b: Seq<u8>, g: GgufV)
    requires
        writable(g),
        stands(
            b,
            0,
            seq![0x47u8, 0x47u8, 0x55u8, 0x46u8] + little(g.version as nat, 4) + little(g.tensors.len(), 8) + little(
                g.metadata.len(),
                8,
            ),
        ),
    ensures
        read_u32(b, 0) == Ok::<(u32, int), GgufErrorV>((GGUF_MAGIC, 4)),
        read_u32(b, 4) == Ok::<(u32, int), GgufErrorV>((g.version, 8)),
        read_u64(b, 8) == Ok::<(u64, int), GgufErrorV>((g.tensors.len() as u64, 16)),
        read_u64(b, 16) == Ok::<(u64, int), GgufErrorV>((g.metadata.len() as u64, 24)),
{
    let magic = seq![0x47u8, 0x47u8, 0x55u8, 0x46u8];
    let v = little(g.version as nat, 4);
    let nt = little(g.tensors.len(), 8);
    let nm = little(g.metadata.len(), 8);
    lemma_little_len(g.version as nat, 4);
    lemma_little_len(g.tensors.len(), 8);
    lemma_little_len(g.metadata.len(), 8);
    lemma_stands(b, 0, magic + v + nt, nm);
    lemma_stands(b, 0, magic + v, nt);
    lemma_stands(b, 0, magic, v);
    let f = b.subrange(0, 4);
    assert(f[0] == 0x47 && f[1] == 0x47 && f[2] == 0x55 && f[3] == 0x46);
    assert(f[0] == b[0] && f[1] == b[1] && f[2] == b[2] && f[3] == b[3]);
    assert(u32_at(b, 0) == GGUF_MAGIC);
    lemma_little(b, 4, g.version as nat);
    lemma_little(b, 8, g.tensors.len());
    lemma_little(b, 16, g.metadata.len());
}

/// What was written is read: a file that begins with the bytes of a header has its version, its
/// metadata and its tensors, all of them and in their order, whatever follows.
pub proof fn law_a_written_header_is_read(g: GgufV, rest: Seq<u8>)
    requires
        writable(g),
        texts_are_decoded(),
    ensures
        read_header(header_bytes(g) + rest, g.path, g.file_size) == Ok::<GgufV, GgufErrorV>(g),
{
    let front = seq![0x47u8, 0x47u8, 0x55u8, 0x46u8] + little(g.version as nat, 4) + little(g.tensors.len(), 8) + little(
        g.metadata.len(),
        8,
    );
    let m = metadata_bytes(g.metadata, g.metadata.len());
    let t = tensors_bytes(g.tensors, g.tensors.len());
    let h = header_bytes(g);
    let b = h + rest;
    lemma_little_len(g.version as nat, 4);
    lemma_little_len(g.tensors.len(), 8);
    lemma_little_len(g.metadata.len(), 8);
    assert(front.len() == 24);
    assert(b.subrange(0, h.len() as int) =~= h);
    assert(stands(b, 0, front + m + t));
    lemma_stands(b, 0, front + m, t);
    lemma_stands(b, 0, front, m);
    lemma_front(b, g);
    lemma_metadata(b, 24, g.metadata, g.metadata.len());
    lemma_tensors(b, 24 + m.len() as int, g.tensors, g.tensors.len());
    assert(g.metadata.take(g.metadata.len() as int) =~= g.metadata);
    assert(g.tensors.take(g.tensors.len() as int) =~= g.tensors);
}

/// A tensor takes whole blocks, as few as hold all its elements; its elements are the product
/// of its dimensions.
pub proof fn law_a_tensor_takes_whole_blocks(t: TensorV, d: u64)
    ensures
        ({
            let (size, bytes) = block_of(t.ggml_type);
            let blocks = t.bytes() as int / bytes as int;
            &&& size > 0 && bytes > 0
            &&& t.bytes() == blocks * bytes
            &&& blocks * size >= t.elements()
            &&& (blocks - 1) * size < t.elements()
        }),
        (TensorV { dims: t.dims.push(d), ..t }).elements() == t.elements() * d,
        (TensorV { dims: Seq::empty(), ..t }).elements() == 1,
{
    let (size, bytes) = block_of(t.ggml_type);
    let e = t.elements() as int;
    let s = size as int;
    let k = (e + s - 1) / s;
    vstd::arithmetic::div_mod::lemma_fundamental_div_mod(e + s - 1, s);
    vstd::arithmetic::div_mod::lemma_mod_bound(e + s - 1, s);
    assert(k * s == s * k) by (nonlinear_arith);
    assert((k - 1) * s == k * s - s) by (nonlinear_arith);
    assert(k >= 0) by (nonlinear_arith)
        requires
            s * k + (e + s - 1) % s == e + s - 1,
            (e + s - 1) % s < s,
            e >= 0,
            s > 0,
    ;
    vstd::arithmetic::div_mod::lemma_div_multiples_vanish(k, bytes as int);
    assert(bytes as int * k == k * bytes as int) by (nonlinear_arith);
    assert(t.dims.push(d).drop_last() =~= t.dims);
}

/// The value of a key: that of the last entry of the key.
pub open spec fn meta(m: Seq<(Seq<char>, MetaV)>, key: Seq<char>) -> Option<MetaV>
    decreases m.len(),
{
    if m.len() == 0 {
        None
    } else if m.last().0 == key {
        Some(m.last().1)
    } else {
        meta(m.drop_last(), key)
    }
}

impl GgufV {
    pub open spec fn arch(self) -> Seq<char> {
        match meta(self.metadata, "general.architecture"@) {
            Some(MetaV::Str(s)) => s,
            _ => "unknown"@,
        }
    }

    /// The value of a key of the architecture's own.
    pub open spec fn arch_key(self, suffix: Seq<char>) -> Option<MetaV> {
        meta(self.metadata, self.arch() + "."@ + suffix)
    }

    pub open spec fn arch_u64(self, suffix: Seq<char>) -> Option<u64> {
        match self.arch_key(suffix) {
            Some(v) => v.u64(),
            None => None,
        }
    }
}

pub open spec fn opt_meta(r: Option<&MetaValue>) -> Option<MetaV> {
    match r {
        Some(v) => Some(v@),
        None => None,
    }
}

impl GgufFile {
    /// Reads a header from the first bytes of a file. Where the bytes do not reach,
    /// the error is `Truncated`.
    pub fn parse(bytes: &[u8], path: &str, file_size: u64) -> (r: Result<GgufFile, GgufError>)
        ensures
            match r {
                Ok(f) => read_header(bytes@, path@, file_size) == Ok::<GgufV, GgufErrorV>(f@),
                Err(e) => read_header(bytes@, path@, file_size) == Err::<GgufV, GgufErrorV>(e@),
            },
    {
        let rd = Reader { b: bytes };
        let (magic, p) = match rd.u32(0) {
            Ok(x) => x,
            Err(e) => {
                return Err(e);
            },
        };
        if magic != GGUF_MAGIC {
            return Err(GgufError::NotGguf(magic));
        }
        let (version, q) = match rd.u32(p) {
            Ok(x) => x,
            Err(e) => {
                return Err(e);
            },
        };
        if version < 2 || version > 3 {
            return Err(GgufError::Version(version));
        }
        let (n_tensors, s) = match rd.u64(q) {
            Ok(x) => x,
            Err(e) => {
                return Err(e);
            },
        };
        let (n_kv, t) = match rd.u64(s) {
            Ok(x) => x,
            Err(e) => {
                return Err(e);
            },
        };
        if n_tensors > MAX_COUNT || n_kv > MAX_COUNT {
            return Err(GgufError::Counts);
        }
        let (metadata, u) = match rd.metadata(t, n_kv) {
            Ok(x) => x,
            Err(e) => {
                return Err(e);
            },
        };
        let (tensors, _) = match rd.tensors(u, n_tensors) {
            Ok(x) => x,
            Err(e) => {
                return Err(e);
            },
        };
        Ok(GgufFile { path: path.to_owned(), version, metadata, tensors, file_size })
    }

    /// The value of a key.
    pub fn get(&self, key: &str) -> (r: Option<&MetaValue>)
        ensures
            opt_meta(r) == meta(self@.metadata, key@),
    {
        let mut i: usize = self.metadata.len();
        let ghost mv = self@.metadata;
        assert(mv.take(mv.len() as int) =~= mv);
        while i > 0
            invariant
                i <= self.metadata.len(),
                mv == self@.metadata,
                meta(mv, key@) == meta(mv.take(i as int), key@),
            decreases i,
        {
            assert(mv.take(i as int).drop_last() =~= mv.take(i - 1));
            assert(mv.take(i as int).last() == (self.metadata@[i - 1].0@, self.metadata@[i - 1].1@));
            if str_eq(self.metadata[i - 1].0.as_str(), key) {
                return Some(&self.metadata[i - 1].1);
            }
            i -= 1;
        }
        None
    }

    pub fn arch(&self) -> (r: String)
        ensures
            r@ == self@.arch(),
    {
        match self.get("general.architecture") {
            Some(v) => match v.as_str() {
                Some(s) => s.to_owned(),
                None => "unknown".to_owned(),
            },
            None => "unknown".to_owned(),
        }
    }

    pub fn arch_key(&self, suffix: &str) -> (r: Option<&MetaValue>)
        ensures
            opt_meta(r) == self@.arch_key(suffix@),
    {
        let key = self.arch().concat(".").concat(suffix);
        self.get(key.as_str())
    }

    pub fn arch_u64(&self, suffix: &str) -> (r: Option<u64>)
        ensures
            r == self@.arch_u64(suffix@),
    {
        match self.arch_key(suffix) {
            Some(v) => v.as_u64(),
            None => None,
        }
    }
}

/// The types of files by their numbers; any other is of several.
pub proof fn law_types_of_files()
    ensures
        quant_name(0) == "F32"@,
        quant_name(1) == "F16"@,
        quant_name(2) == "Q4_0"@,
        quant_name(3) == "Q4_1"@,
        quant_name(7) == "Q8_0"@,
        quant_name(8) == "Q5_0"@,
        quant_name(9) == "Q5_1"@,
        quant_name(10) == "Q2_K"@,
        quant_name(11) == "Q3_K_S"@,
        quant_name(12) == "Q3_K_M"@,
        quant_name(13) == "Q3_K_L"@,
        quant_name(14) == "Q4_K_S"@,
        quant_name(15) == "Q4_K_M"@,
        quant_name(16) == "Q5_K_S"@,
        quant_name(17) == "Q5_K_M"@,
        quant_name(18) == "Q6_K"@,
        quant_name(19) == "IQ2_XXS"@,
        quant_name(20) == "IQ2_XS"@,
        quant_name(21) == "Q2_K_S"@,
        quant_name(22) == "IQ3_XS"@,
        quant_name(23) == "IQ3_XXS"@,
        quant_name(24) == "IQ1_S"@,
        quant_name(25) == "IQ4_NL"@,
        quant_name(26) == "IQ3_S"@,
        quant_name(27) == "IQ3_M"@,
        quant_name(28) == "IQ2_S"@,
        quant_name(29) == "IQ2_M"@,
        quant_name(30) == "IQ4_XS"@,
        quant_name(31) == "IQ1_M"@,
        quant_name(32) == "BF16"@,
        quant_name(36) == "TQ1_0"@,
        quant_name(37) == "TQ2_0"@,
        quant_name(38) == "MXFP4"@,
        forall|n: u64| n > 38 ==> #[trigger] quant_name(n) == "mixed"@,
{
}

} // verus!
