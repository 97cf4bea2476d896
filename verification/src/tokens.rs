//! Token counts by text, remembered in a bounded cache (`lru`).

use crate::digest::{blake3_digest, blake3_hash};
use lru::LruCache;
use std::num::NonZeroUsize;
use vstd::prelude::*;
use vstd::utf8::encode_utf8;

verus! {

/// `lru::LruCache`: a map that holds at most so many entries and lets the one go that
/// was used longest ago.
#[verifier::external_type_specification]
#[verifier::external_body]
#[verifier::reject_recursive_types(K)]
#[verifier::reject_recursive_types(V)]
#[verifier::reject_recursive_types(S)]
pub struct ExLruCache<K, V, S>(lru::LruCache<K, V, S>);

/// `lru::DefaultHasher`: the hasher of a cache's keys.
#[verifier::external_type_specification]
#[verifier::external_body]
pub struct ExDefaultHasher(lru::DefaultHasher);

/// What a cache holds, the entry that was used last first.
pub uninterp spec fn cache_entries(c: LruCache<[u8; 32], u32>) -> Seq<(Seq<u8>, u32)>;

/// How many entries a cache can hold.
pub uninterp spec fn cache_capacity(c: LruCache<[u8; 32], u32>) -> nat;

/// The place of the entry with a key, from `i` on.
pub open spec fn entry_from(e: Seq<(Seq<u8>, u32)>, key: Seq<u8>, i: int) -> Option<int>
    decreases e.len() - i,
{
    if i < 0 || i >= e.len() {
        None
    } else if e[i].0 == key {
        Some(i)
    } else {
        entry_from(e, key, i + 1)
    }
}

/// The entries after one was asked for: it comes first.
pub open spec fn after_get(e: Seq<(Seq<u8>, u32)>, key: Seq<u8>) -> Seq<(Seq<u8>, u32)> {
    match entry_from(e, key, 0) {
        Some(i) => seq![e[i]] + e.remove(i),
        None => e,
    }
}

/// The count under a key.
pub open spec fn got(e: Seq<(Seq<u8>, u32)>, key: Seq<u8>) -> Option<u32> {
    match entry_from(e, key, 0) {
        Some(i) => Some(e[i].1),
        None => None,
    }
}

/// The entries after one was put in: it comes first, another of its key goes, and in
/// a full cache the last.
pub open spec fn after_put(e: Seq<(Seq<u8>, u32)>, cap: nat, key: Seq<u8>, n: u32) -> Seq<(Seq<u8>, u32)> {
    seq![(key, n)] + (match entry_from(e, key, 0) {
        Some(i) => e.remove(i),
        None => if e.len() >= cap && e.len() > 0 {
            e.drop_last()
        } else {
            e
        },
    })
}

/// `LruCache::new`: an empty cache of a capacity.
#[verifier::external_body]
fn new_cache(cap: usize) -> (r: LruCache<[u8; 32], u32>)
    requires
        0 < cap <= 0x10_0000,
    ensures
        cache_entries(r) == Seq::<(Seq<u8>, u32)>::empty(),
        cache_capacity(r) == cap,
{
    LruCache::new(NonZeroUsize::new(cap).unwrap())
}

/// `LruCache::get`: the value of a key, whose entry then counts as used last.
#[verifier::external_body]
fn cache_get(c: &mut LruCache<[u8; 32], u32>, key: &[u8; 32]) -> (r: Option<u32>)
    ensures
        r == got(cache_entries(*old(c)), key@),
        cache_entries(*final(c)) == after_get(cache_entries(*old(c)), key@),
        cache_capacity(*final(c)) == cache_capacity(*old(c)),
{
    c.get(key).copied()
}

/// `LruCache::put`: sets the value of a key, whose entry then counts as used last; in
/// a full cache a new key takes the place of the entry that was used longest ago.
#[verifier::external_body]
fn cache_put(c: &mut LruCache<[u8; 32], u32>, key: [u8; 32], n: u32)
    ensures
        cache_entries(*final(c)) == after_put(cache_entries(*old(c)), cache_capacity(*old(c)), key@, n),
        cache_capacity(*final(c)) == cache_capacity(*old(c)),
{
    c.put(key, n);
}

/// How many counts are remembered.
pub const CACHE_SIZE: usize = 4096;

/// The key of a text.
pub open spec fn text_key(text: Seq<char>) -> Seq<u8> {
    blake3_digest(encode_utf8(text))
}

/// What is known of the count of a text.
pub enum Lookup {
    /// The count.
    Known(u32),
    /// It must be counted, and is then remembered under this key.
    Unknown([u8; 32]),
}

pub struct TokenCounter {
    cache: LruCache<[u8; 32], u32>,
}

impl View for TokenCounter {
    type V = Seq<(Seq<u8>, u32)>;

    closed spec fn view(&self) -> Seq<(Seq<u8>, u32)> {
        cache_entries(self.cache)
    }
}

proof fn lemma_entry_range(e: Seq<(Seq<u8>, u32)>, key: Seq<u8>, i: int)
    ensures
        entry_from(e, key, i) matches Some(k) ==> i <= k < e.len() && e[k].0 == key,
    decreases e.len() - i,
{
    if 0 <= i < e.len() && e[i].0 != key {
        lemma_entry_range(e, key, i + 1);
    }
}

/// What was put in last is found.
pub proof fn law_put_then_get(e: Seq<(Seq<u8>, u32)>, cap: nat, key: Seq<u8>, n: u32)
    ensures
        got(after_put(e, cap, key, n), key) == Some(n),
{
    let a = after_put(e, cap, key, n);
    assert(a[0] == (key, n));
}

impl TokenCounter {
    /// The cache holds no more than its size.
    pub closed spec fn wf(self) -> bool {
        cache_capacity(self.cache) == CACHE_SIZE && cache_entries(self.cache).len() <= CACHE_SIZE
    }

    pub fn new() -> (r: TokenCounter)
        ensures
            r.wf(),
            r@ == Seq::<(Seq<u8>, u32)>::empty(),
    {
        TokenCounter { cache: new_cache(CACHE_SIZE) }
    }

    /// What is known of the count of a text. An empty text has no tokens.
    pub fn lookup(&mut self, text: &str) -> (r: Lookup)
        requires
            old(self).wf(),
        ensures
            final(self).wf(),
            if text@.len() == 0 {
                r == Lookup::Known(0) && final(self)@ == old(self)@
            } else {
                &&& final(self)@ == after_get(old(self)@, text_key(text@))
                &&& match r {
                    Lookup::Known(n) => got(old(self)@, text_key(text@)) == Some(n),
                    Lookup::Unknown(k) => got(old(self)@, text_key(text@)) is None && k@ == text_key(text@),
                }
            },
    {
        if text.is_empty() {
            return Lookup::Known(0);
        }
        let key = blake3_hash(text.as_bytes());
        proof {
            lemma_entry_range(self@, key@, 0);
        }
        match cache_get(&mut self.cache, &key) {
            Some(n) => Lookup::Known(n),
            None => Lookup::Unknown(key),
        }
    }

    /// Remembers a count.
    pub fn remember(&mut self, key: [u8; 32], n: u32)
        requires
            old(self).wf(),
        ensures
            final(self).wf(),
            final(self)@ == after_put(old(self)@, CACHE_SIZE as nat, key@, n),
    {
        proof {
            lemma_entry_range(self@, key@, 0);
        }
        cache_put(&mut self.cache, key, n);
    }
}

/// The keys of a cache all differ.
pub open spec fn keys_apart(e: Seq<(Seq<u8>, u32)>) -> bool {
    forall|i: int, j: int| 0 <= i < j < e.len() ==> (#[trigger] e[i]).0 != (#[trigger] e[j]).0
}

proof fn lemma_entry_at(e: Seq<(Seq<u8>, u32)>, key: Seq<u8>, i: int)
    requires
        0 <= i,
    ensures
        match entry_from(e, key, i) {
            Some(k) => i <= k < e.len() && e[k].0 == key && forall|j: int| i <= j < k ==> (#[trigger] e[j]).0 != key,
            None => forall|j: int| i <= j < e.len() ==> (#[trigger] e[j]).0 != key,
        },
    decreases e.len() - i,
{
    if i < e.len() && e[i].0 != key {
        lemma_entry_at(e, key, i + 1);
    }
}

/// A count that is asked for is the one that was put in, and no count is lost by asking: the one
/// that was asked for comes first, the others follow in their order.
pub proof fn law_asking_loses_no_count(e: Seq<(Seq<u8>, u32)>, i: int)
    requires
        keys_apart(e),
        0 <= i < e.len(),
    ensures
        got(e, e[i].0) == Some(e[i].1),
        after_get(e, e[i].0).len() == e.len(),
        after_get(e, e[i].0)[0] == e[i],
        forall|j: int| 0 <= j < i ==> after_get(e, e[i].0)[j + 1] == #[trigger] e[j],
        forall|j: int| i < j < e.len() ==> after_get(e, e[i].0)[j] == #[trigger] e[j],
{
    lemma_entry_at(e, e[i].0, 0);
    let k = entry_from(e, e[i].0, 0)->Some_0;
    if k < i {
        assert(e[k].0 != e[i].0);
    }
    assert(k == i);
    let r = after_get(e, e[i].0);
    assert(r == seq![e[i]] + e.remove(i));
}

/// A count that is put in comes first, in the place of another of its key; the others follow in
/// their order. Only where there is no room does one go, and that is the one that was not used
/// for the longest time.
#[verifier::rlimit(40)]
pub proof fn law_the_least_used_count_goes(e: Seq<(Seq<u8>, u32)>, cap: nat, key: Seq<u8>, n: u32)
    requires
        keys_apart(e),
        0 < cap,
        e.len() <= cap,
    ensures
        ({
            let r = after_put(e, cap, key, n);
            let fresh = forall|j: int| 0 <= j < e.len() ==> (#[trigger] e[j]).0 != key;
            &&& keys_apart(r)
            &&& r.len() <= cap
            &&& r[0] == (key, n)
            &&& fresh && e.len() < cap ==> r.skip(1) == e
            &&& fresh && e.len() == cap ==> r.skip(1) == e.take(cap - 1)
            &&& forall|i: int| 0 <= i < e.len() && (#[trigger] e[i]).0 == key ==> r.skip(1) == e.take(i) + e.skip(i + 1)
        }),
{
    lemma_entry_at(e, key, 0);
    let r = after_put(e, cap, key, n);
    match entry_from(e, key, 0) {
        Some(k) => {
            assert(e.remove(k) =~= e.take(k) + e.skip(k + 1));
            assert(r.skip(1) =~= e.remove(k));
            assert forall|i: int| 0 <= i < e.len() && (#[trigger] e[i]).0 == key implies i == k by {
                if i < k {
                    assert(e[i].0 != e[k].0);
                } else if k < i {
                    assert(e[k].0 != e[i].0);
                }
            }
            assert forall|i: int, j: int| 0 <= i < j < r.len() implies (#[trigger] r[i]).0 != (#[trigger] r[j]).0 by {
                let b: int = if j - 1 < k {
                    j - 1
                } else {
                    j
                };
                assert(r[j] == e[b]);
                if i == 0 {
                    if b < k {
                        assert(e[b].0 != e[k].0);
                    } else {
                        assert(e[k].0 != e[b].0);
                    }
                } else {
                    let a: int = if i - 1 < k {
                        i - 1
                    } else {
                        i
                    };
                    assert(r[i] == e[a]);
                    assert(e[a].0 != e[b].0);
                }
            }
        },
        None => {
            if e.len() >= cap {
                assert(r.skip(1) =~= e.take(cap - 1));
            } else {
                assert(r.skip(1) =~= e);
            }
            assert forall|i: int, j: int| 0 <= i < j < r.len() implies (#[trigger] r[i]).0 != (#[trigger] r[j]).0 by {
                assert(r[j] == e[j - 1]);
                if i > 0 {
                    assert(r[i] == e[i - 1]);
                }
            }
        },
    }
}

} // verus!
