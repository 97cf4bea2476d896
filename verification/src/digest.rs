//! Content digests (`blake3`, `sha2`).

use sha2::{Digest, Sha256};
use vstd::prelude::*;

verus! {

/// The BLAKE3 digest of a byte string.
pub uninterp spec fn blake3_digest(bytes: Seq<u8>) -> Seq<u8>;

/// `blake3::hash`: the 32 bytes of the digest.
#[verifier::external_body]
pub(crate) fn blake3_hash(bytes: &[u8]) -> (r: [u8; 32])
    ensures
        r@ == blake3_digest(bytes@),
{
    *blake3::hash(bytes).as_bytes()
}

/// Whether two digests are equal.
pub fn same_digest(a: &[u8; 32], b: &[u8; 32]) -> (r: bool)
    ensures
        r == (a@ == b@),
{
    let mut i: usize = 0;
    while i < 32
        invariant
            i <= 32,
            forall|j: int| 0 <= j < i ==> a@[j] == b@[j],
        decreases 32 - i,
    {
        if a[i] != b[i] {
            assert(a@[i as int] != b@[i as int]);
            return false;
        }
        i += 1;
    }
    assert(a@ =~= b@);
    true
}

/// The lower-case hexadecimal digit of a number below sixteen.
pub open spec fn hex_digit(n: u8) -> char {
    if n < 10 {
        (('0' as u32 + n) as u32) as char
    } else {
        (('a' as u32 + (n - 10)) as u32) as char
    }
}

/// Bytes in lower-case hexadecimal, two digits each.
pub open spec fn hex(b: Seq<u8>) -> Seq<char> {
    Seq::new(
        2 * b.len(),
        |i: int|
            if i % 2 == 0 {
                hex_digit((b[i / 2] / 16) as u8)
            } else {
                hex_digit((b[i / 2] % 16) as u8)
            },
    )
}

pub fn hex_char(n: u8) -> (c: char)
    requires
        n < 16,
    ensures
        c == hex_digit(n),
{
    if n < 10 {
        (48u8 + n) as char
    } else {
        (97u8 + (n - 10)) as char
    }
}

/// Writes bytes in lower-case hexadecimal.
pub fn to_hex(b: &[u8]) -> (r: String)
    ensures
        r@ == hex(b@),
{
    let mut out = String::new();
    let mut i: usize = 0;
    while i < b.len()
        invariant
            i <= b.len(),
            out@ == hex(b@).take(2 * i),
        decreases b.len() - i,
    {
        let ghost before = out@;
        out.push(hex_char(b[i] / 16));
        out.push(hex_char(b[i] % 16));
        assert(hex(b@)[2 * i as int] == hex_digit((b@[i as int] / 16) as u8)) by {
            assert((2 * i as int) / 2 == i);
        }
        assert(hex(b@)[2 * i as int + 1] == hex_digit((b@[i as int] % 16) as u8)) by {
            assert((2 * i as int + 1) / 2 == i);
        }
        assert(out@ =~= hex(b@).take(2 * (i + 1)));
        i += 1;
    }
    assert(hex(b@).take(2 * b@.len() as int) =~= hex(b@));
    out
}

// ---------------------------------------------------------------- SHA-256

/// The state of a SHA-256 digest.
#[verifier::external_type_specification]
#[verifier::external_body]
pub struct ExSha256(sha2::Sha256);

/// The bytes that a SHA-256 state was given, in their order.
pub uninterp spec fn sha256_given(h: sha2::Sha256) -> Seq<u8>;

/// The SHA-256 digest of a byte string.
pub uninterp spec fn sha256_digest(bytes: Seq<u8>) -> Seq<u8>;

/// `sha2::Sha256::new` (of `Digest`): a state that was given nothing.
#[verifier::external_body]
fn sha256_new() -> (r: Sha256)
    ensures
        sha256_given(r) == Seq::<u8>::empty(),
{
    Sha256::new()
}

/// `sha2::Sha256::update` (of `Digest`): the bytes follow those that were given before.
#[verifier::external_body]
fn sha256_update(h: &mut Sha256, bytes: &[u8])
    ensures
        sha256_given(*final(h)) == sha256_given(*old(h)) + bytes@,
{
    h.update(bytes)
}

/// `sha2::Sha256::finalize` (of `Digest`): the 32 bytes of the digest of what was given.
#[verifier::external_body]
fn sha256_finalize(h: Sha256) -> (r: [u8; 32])
    ensures
        r@ == sha256_digest(sha256_given(h)),
{
    h.finalize().into()
}

/// The checksum of a file that is read in pieces.
pub struct Checksum {
    state: Sha256,
}

impl View for Checksum {
    type V = Seq<u8>;

    closed spec fn view(&self) -> Seq<u8> {
        sha256_given(self.state)
    }
}

impl Checksum {
    pub fn new() -> (r: Checksum)
        ensures
            r@ == Seq::<u8>::empty(),
    {
        Checksum { state: sha256_new() }
    }

    /// Takes the next piece.
    pub fn update(&mut self, piece: &[u8])
        ensures
            final(self)@ == old(self)@ + piece@,
    {
        sha256_update(&mut self.state, piece);
    }

    /// The SHA-256 digest of all pieces, in hexadecimal.
    pub fn finish(self) -> (r: String)
        ensures
            r@ == hex(sha256_digest(self@)),
    {
        to_hex(&sha256_finalize(self.state))
    }
}

/// Bytes in hexadecimal are told by their digits: different bytes are written differently.
pub proof fn law_hexadecimal_tells_bytes_apart(a: Seq<u8>, b: Seq<u8>)
    ensures
        hex(a).len() == 2 * a.len(),
        hex(a) == hex(b) ==> a == b,
{
    if hex(a) == hex(b) {
        assert(hex(a).len() == hex(b).len());
        assert forall|i: int| 0 <= i < a.len() implies a[i] == b[i] by {
            let x = hex(a)[2 * i];
            let y = hex(a)[2 * i + 1];
            assert(x == hex_digit((a[i] / 16) as u8) && x == hex_digit((b[i] / 16) as u8));
            assert(y == hex_digit((a[i] % 16) as u8) && y == hex_digit((b[i] % 16) as u8));
            lemma_digit_apart((a[i] / 16) as u8, (b[i] / 16) as u8);
            lemma_digit_apart((a[i] % 16) as u8, (b[i] % 16) as u8);
        }
        assert(a =~= b);
    }
}

proof fn lemma_digit_apart(m: u8, n: u8)
    requires
        m < 16,
        n < 16,
        hex_digit(m) == hex_digit(n),
    ensures
        m == n,
{
    assert(hex_digit(m) as u32 == hex_digit(n) as u32);
}

} // verus!
