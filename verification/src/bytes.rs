//! Compact codec for cached base renders.
//!
//! Every base-size avatar encoded by this pipeline is an 8-by-8 RGB PNG with
//! the fast, unfiltered settings, so every such byte buffer begins with the
//! same 33 bytes: the PNG signature followed by the IHDR chunk whose fields
//! (dimensions 8x8, bit depth 8, color type RGB, compression 0, filter 0,
//! interlace 0) never vary.  `strip` removes exactly that prefix before a
//! value is written to the cache store; `repair` re-prepends the canonical
//! copy before the stored bytes are decoded again.  The codec is only valid
//! for buffers that actually carry the canonical prefix; `strip` refuses any
//! other buffer instead of corrupting it.
use vstd::prelude::*;

verus! {

/// The length of the canonical prefix: the 8-byte PNG signature plus the
/// 25-byte IHDR chunk (4 length, 4 type, 13 data, 4 checksum).
pub const HEADER_LEN: usize = 33;

/// The canonical prefix itself: PNG signature, then the IHDR chunk of an
/// 8-by-8 image with bit depth 8, color type RGB, compression method 0,
/// filter method 0, no interlace, and that chunk's CRC-32.
pub open spec fn png_header() -> Seq<u8> {
    seq![
        137u8, 80u8, 78u8, 71u8, 13u8, 10u8, 26u8, 10u8,
        0u8, 0u8, 0u8, 13u8,
        73u8, 72u8, 68u8, 82u8,
        0u8, 0u8, 0u8, 8u8,
        0u8, 0u8, 0u8, 8u8,
        8u8, 2u8, 0u8, 0u8, 0u8,
        75u8, 109u8, 41u8, 220u8,
    ]
}

/// A buffer carries the canonical prefix: it is long enough and its first
/// `HEADER_LEN` bytes are exactly `png_header()`.
pub open spec fn has_canonical_header(b: Seq<u8>) -> bool {
    b.len() >= HEADER_LEN && b.subrange(0, HEADER_LEN as int) == png_header()
}

/// What `strip` leaves of a canonical buffer.
pub open spec fn strip_spec(b: Seq<u8>) -> Seq<u8> {
    b.skip(HEADER_LEN as int)
}

/// What `repair` makes of a stored buffer.
pub open spec fn repair_spec(b: Seq<u8>) -> Seq<u8> {
    png_header() + b
}

/// The canonical prefix as an executable vector.
pub fn png_header_vec() -> (r: Vec<u8>)
    ensures
        r@ == png_header(),
{
    let v: Vec<u8> = vec![
        137u8, 80u8, 78u8, 71u8, 13u8, 10u8, 26u8, 10u8,
        0u8, 0u8, 0u8, 13u8,
        73u8, 72u8, 68u8, 82u8,
        0u8, 0u8, 0u8, 8u8,
        0u8, 0u8, 0u8, 8u8,
        8u8, 2u8, 0u8, 0u8, 0u8,
        75u8, 109u8, 41u8, 220u8,
    ];
    proof {
        assert(v@ =~= png_header());
    }
    v
}

/// Remove the canonical prefix from an encoded base render.
///
/// Returns the remaining bytes when the buffer begins with the canonical
/// prefix, and `None` for every other buffer: the codec must never be applied
/// to resized or non-default-color-model images, whose headers differ.
pub fn strip(encoded: Vec<u8>) -> (r: Option<Vec<u8>>)
    ensures
        r is Some <==> has_canonical_header(encoded@),
        r is Some ==> r->0@ == strip_spec(encoded@),
{
    let header = png_header_vec();
    if encoded.len() < HEADER_LEN {
        return None;
    }
    let mut i: usize = 0;
    while i < HEADER_LEN
        invariant
            i <= HEADER_LEN,
            encoded@.len() >= HEADER_LEN,
            header@ == png_header(),
            forall|k: int| 0 <= k < i ==> encoded@[k] == png_header()[k],
        decreases HEADER_LEN - i,
    {
        if encoded[i] != header[i] {
            proof {
                assert(encoded@.subrange(0, HEADER_LEN as int)[i as int] != png_header()[i as int]);
            }
            return None;
        }
        i += 1;
    }
    proof {
        assert(encoded@.subrange(0, HEADER_LEN as int) =~= png_header());
    }
    let mut out: Vec<u8> = Vec::new();
    let mut j: usize = HEADER_LEN;
    while j < encoded.len()
        invariant
            HEADER_LEN <= j <= encoded@.len(),
            out@ == encoded@.subrange(HEADER_LEN as int, j as int),
        decreases encoded@.len() - j,
    {
        out.push(encoded[j]);
        proof {
            assert(out@ =~= encoded@.subrange(HEADER_LEN as int, j + 1));
        }
        j += 1;
    }
    proof {
        assert(out@ =~= strip_spec(encoded@));
    }
    Some(out)
}

/// Re-prepend the canonical prefix to a stored cache value.
pub fn repair(stripped: Vec<u8>) -> (r: Vec<u8>)
    ensures
        r@ == repair_spec(stripped@),
{
    let mut out = png_header_vec();
    let mut rest = stripped;
    out.append(&mut rest);
    out
}

/// Round trip: stripping a canonical buffer and repairing the remainder gives
/// back exactly the original buffer.
pub proof fn lemma_repair_strip_round_trip(x: Seq<u8>)
    requires
        has_canonical_header(x),
    ensures
        repair_spec(strip_spec(x)) == x,
{
    assert(repair_spec(strip_spec(x)) =~= x);
}

/// Round trip the other way: repairing any stored value and stripping the
/// result gives back exactly the stored value, and the repaired buffer always
/// carries the canonical prefix.
pub proof fn lemma_strip_repair_round_trip(b: Seq<u8>)
    ensures
        has_canonical_header(repair_spec(b)),
        strip_spec(repair_spec(b)) == b,
{
    assert(repair_spec(b).subrange(0, HEADER_LEN as int) =~= png_header());
    assert(strip_spec(repair_spec(b)) =~= b);
}

} // verus!
