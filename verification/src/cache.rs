//! Cache keys and cache-store policy.
//!
//! The cache key of a render is derived from the stable identifier and the
//! helm flag alone: the last six characters of the identifier's canonical
//! string form, a hyphen, and the first letter of the flag.  Two identifiers
//! whose canonical forms share that trailing segment therefore collide; this
//! is a documented limitation of the derivation, kept as designed.
//!
//! The store itself is a plain TTL key-value service reached by the caller;
//! this module holds the policy around it: a stored zero-length value counts
//! as a miss, and a base render is stripped by the compact codec before it is
//! written.
use crate::bytes;
use crate::types::{hex_char, hex_seq, IsEmpty, StableId};
use vstd::prelude::*;

verus! {

/// Seconds a cached base render lives; every write refreshes the expiry.
pub const AVATAR_CACHE_TTL_SECONDS: u64 = 21600;

/// Seconds advertised to clients in response cache headers.
pub const RESPONSE_MAX_AGE_SECONDS: u64 = 1200;

/// The cache key of a render: the last six hexadecimal digits of the
/// identifier's canonical string form, then a hyphen, then `t` for a render
/// with the helm layer and `f` for one without.
pub open spec fn cache_key_spec(id: StableId, helm: bool) -> Seq<char> {
    hex_seq(id.lo as int, 6) + seq!['-'] + seq![if helm { 't' } else { 'f' }]
}

/// Derive the cache key of a render variant.
pub fn get_id(id: &StableId, helm: bool) -> (r: String)
    ensures
        r@ == cache_key_spec(*id, helm),
{
    proof {
        reveal_strlit("-");
        reveal_strlit("t");
        reveal_strlit("f");
    }
    let mut s = crate::types::hex_string(id.lo, 6);
    s.append("-");
    if helm {
        s.append("t");
    } else {
        s.append("f");
    }
    proof {
        assert(s@ =~= cache_key_spec(*id, helm));
    }
    s
}

/// The cache key is a pure function of the identifier and the flag:
/// identical inputs always produce identical keys.
pub proof fn lemma_cache_key_deterministic(id1: StableId, id2: StableId, h1: bool, h2: bool)
    requires
        id1 == id2,
        h1 == h2,
    ensures
        cache_key_spec(id1, h1) == cache_key_spec(id2, h2),
{
}

/// A hexadecimal rendering at width `n` has exactly `n` characters.
pub proof fn lemma_hex_seq_len(v: int, n: nat)
    ensures
        hex_seq(v, n).len() == n,
    decreases n,
{
    if n > 0 {
        lemma_hex_seq_len(v / 16, (n - 1) as nat);
    }
}

/// The trailing digits of a hexadecimal rendering are the rendering of the
/// same value at the shorter width.
pub proof fn lemma_hex_seq_suffix(v: int, n: nat, m: nat)
    requires
        m <= n,
    ensures
        hex_seq(v, n).skip(n - m) == hex_seq(v, m),
    decreases m,
{
    lemma_hex_seq_len(v, n);
    if m == 0 {
        assert(hex_seq(v, n).skip(n as int) =~= hex_seq(v, 0));
    } else {
        lemma_hex_seq_suffix(v / 16, (n - 1) as nat, (m - 1) as nat);
        lemma_hex_seq_len(v / 16, (n - 1) as nat);
        lemma_hex_seq_len(v / 16, (m - 1) as nat);
        assert(hex_seq(v, n).skip(n - m) =~= hex_seq(v / 16, (n - 1) as nat).skip(n - m).push(
            hex_char(v % 16),
        ));
        assert(hex_seq(v, m) =~= hex_seq(v / 16, (m - 1) as nat).push(hex_char(v % 16)));
    }
}

/// The identifier part of the cache key is exactly the last six characters
/// of the identifier's canonical string form.
pub proof fn lemma_cache_key_is_canonical_suffix(id: StableId)
    ensures
        hex_seq(id.lo as int, 6) == crate::types::canonical_id_seq(id).skip(30),
{
    lemma_hex_seq_suffix(id.lo as int, 12, 6);
    lemma_hex_seq_len(id.hi as int / 0x100000000, 8);
    lemma_hex_seq_len(id.hi as int / 0x10000, 4);
    lemma_hex_seq_len(id.hi as int, 4);
    lemma_hex_seq_len(id.lo as int / 0x1000000000000, 4);
    lemma_hex_seq_len(id.lo as int, 12);
    lemma_hex_seq_len(id.lo as int, 6);
    assert(crate::types::canonical_id_seq(id).skip(30) =~= hex_seq(id.lo as int, 12).skip(6));
}

/// What a stored cache value means: a missing or zero-length value is a
/// miss, anything else a hit carrying the stored bytes.
pub open spec fn stored_hit(v: Option<Seq<u8>>) -> Option<Seq<u8>> {
    match v {
        Some(b) => if b.len() > 0 {
            Some(b)
        } else {
            None
        },
        None => None,
    }
}

/// Apply the store's miss rule to a fetched value: a stored value with no
/// bytes is treated identically to a miss.
pub fn interpret_stored(v: Option<Vec<u8>>) -> (r: Option<Vec<u8>>)
    ensures
        match r {
            Some(b) => stored_hit(match v {
                Some(ref x) => Some(x@),
                None => None,
            }) == Some(b@),
            None => stored_hit(
                match v {
                    Some(ref x) => Some(x@),
                    None => None,
                },
            ) is None,
        },
{
    match v {
        Some(b) => {
            if IsEmpty::is_empty(&b) {
                None
            } else {
                Some(b)
            }
        },
        None => None,
    }
}

/// One pending write of a rendered value to the cache store.
pub struct CacheWrite {
    pub key: String,
    pub value: Vec<u8>,
    pub ttl_seconds: u64,
}

/// Prepare the cache write for a freshly encoded base render: strip the
/// canonical header and attach the deployment TTL.  A buffer that does not
/// carry the canonical header is not cacheable and yields no write.
pub fn set_avatar_cache(buffer: Vec<u8>, identifier: String) -> (r: Option<CacheWrite>)
    ensures
        r is Some <==> bytes::has_canonical_header(buffer@),
        r is Some ==> {
            &&& r->0.key@ == identifier@
            &&& r->0.value@ == bytes::strip_spec(buffer@)
            &&& r->0.ttl_seconds == AVATAR_CACHE_TTL_SECONDS
        },
{
    match bytes::strip(buffer) {
        Some(value) => Some(
            CacheWrite { key: identifier, value, ttl_seconds: AVATAR_CACHE_TTL_SECONDS },
        ),
        None => None,
    }
}

} // verus!
