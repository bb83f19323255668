//! Derivation of the per-frame nonce from the base nonce, the frame counter
//! and the terminal-frame flag.
//!
//! The first 19 bytes of the base nonce are kept; the next four are XORed
//! with the counter's four big-endian bytes, and the last one with a flag
//! that is 1 on the terminal frame and 0 otherwise. Every byte of the base
//! nonce takes part, and for a fixed base nonce distinct frames get distinct
//! nonces.
use vstd::prelude::*;

verus! {

/// Length of a symmetric key in bytes.
pub const KEY_LEN: usize = 32;

/// Length of a base nonce (and of every derived frame nonce) in bytes.
pub const NONCE_LEN: usize = 24;

/// Number of leading base-nonce bytes that every frame nonce shares.
pub const NONCE_PREFIX_LEN: usize = 19;

/// The flag byte of a frame nonce.
pub open spec fn last_flag(last: bool) -> u8 {
    if last { 1u8 } else { 0u8 }
}

/// The counter as four big-endian bytes.
pub open spec fn counter_bytes(counter: u32) -> Seq<u8> {
    seq![(counter >> 24u32) as u8, (counter >> 16u32) as u8, (counter >> 8u32) as u8, counter as u8]
}

/// The nonce under which frame `counter` of a stream is sealed.
pub open spec fn frame_nonce(base: Seq<u8>, counter: u32, last: bool) -> Seq<u8> {
    let p = NONCE_PREFIX_LEN as int;
    let cb = counter_bytes(counter);
    base.subrange(0, p) + seq![
        base[p] ^ cb[0],
        base[p + 1] ^ cb[1],
        base[p + 2] ^ cb[2],
        base[p + 3] ^ cb[3],
        base[p + 4] ^ last_flag(last),
    ]
}

/// Builds the nonce of frame `counter`.
pub fn derive_frame_nonce(base: &Vec<u8>, counter: u32, last: bool) -> (r: Vec<u8>)
    requires
        base@.len() == NONCE_LEN,
    ensures
        r@ == frame_nonce(base@, counter, last),
        r@.len() == NONCE_LEN,
{
    let mut r: Vec<u8> = Vec::new();
    let mut i: usize = 0;
    while i < NONCE_PREFIX_LEN
        invariant
            i <= NONCE_PREFIX_LEN,
            base@.len() == NONCE_LEN,
            r@ == base@.subrange(0, i as int),
        decreases NONCE_PREFIX_LEN - i,
    {
        r.push(base[i]);
        i = i + 1;
        assert(r@ =~= base@.subrange(0, i as int));
    }
    r.push(base[19] ^ ((counter >> 24u32) as u8));
    r.push(base[20] ^ ((counter >> 16u32) as u8));
    r.push(base[21] ^ ((counter >> 8u32) as u8));
    r.push(base[22] ^ (counter as u8));
    r.push(base[23] ^ (if last { 1u8 } else { 0u8 }));
    assert(r@ =~= frame_nonce(base@, counter, last));
    r
}

/// Within one stream, distinct frames get distinct nonces: for a fixed base
/// nonce the derived nonce determines the frame counter and the terminal flag.
pub proof fn lemma_frame_nonce_injective(base: Seq<u8>, c1: u32, l1: bool, c2: u32, l2: bool)
    requires
        base.len() == NONCE_LEN,
        frame_nonce(base, c1, l1) == frame_nonce(base, c2, l2),
    ensures
        c1 == c2,
        l1 == l2,
{
    let n1 = frame_nonce(base, c1, l1);
    let n2 = frame_nonce(base, c2, l2);
    let p = NONCE_PREFIX_LEN as int;
    let (x3, x2, x1, x0, xf) = (base[p], base[p + 1], base[p + 2], base[p + 3], base[p + 4]);
    assert(n1[p] == n2[p] && n1[p + 1] == n2[p + 1] && n1[p + 2] == n2[p + 2] && n1[p + 3] == n2[p + 3]
        && n1[p + 4] == n2[p + 4]);
    let (a3, a2, a1, a0) = ((c1 >> 24u32) as u8, (c1 >> 16u32) as u8, (c1 >> 8u32) as u8, c1 as u8);
    let (b3, b2, b1, b0) = ((c2 >> 24u32) as u8, (c2 >> 16u32) as u8, (c2 >> 8u32) as u8, c2 as u8);
    let (fa, fb) = (last_flag(l1), last_flag(l2));
    assert(x3 ^ a3 == x3 ^ b3 && x2 ^ a2 == x2 ^ b2 && x1 ^ a1 == x1 ^ b1 && x0 ^ a0 == x0 ^ b0 && xf ^ fa == xf ^ fb);
    assert(a3 == b3 && a2 == b2 && a1 == b1 && a0 == b0 && fa == fb) by (bit_vector)
        requires
            x3 ^ a3 == x3 ^ b3,
            x2 ^ a2 == x2 ^ b2,
            x1 ^ a1 == x1 ^ b1,
            x0 ^ a0 == x0 ^ b0,
            xf ^ fa == xf ^ fb;
    assert((c1 >> 24u32) as u8 == (c2 >> 24u32) as u8 && (c1 >> 16u32) as u8 == (c2 >> 16u32) as u8
        && (c1 >> 8u32) as u8 == (c2 >> 8u32) as u8 && c1 as u8 == c2 as u8 ==> c1 == c2) by (bit_vector);
}

/// Distinct base nonces give distinct frame nonces for the same frame
/// counter and terminal flag: every byte of the base nonce takes part.
pub proof fn lemma_frame_nonce_separates_bases(b1: Seq<u8>, b2: Seq<u8>, counter: u32, last: bool)
    requires
        b1.len() == NONCE_LEN,
        b2.len() == NONCE_LEN,
        frame_nonce(b1, counter, last) == frame_nonce(b2, counter, last),
    ensures
        b1 == b2,
{
    let n1 = frame_nonce(b1, counter, last);
    let n2 = frame_nonce(b2, counter, last);
    let p = NONCE_PREFIX_LEN as int;
    let cb = counter_bytes(counter);
    let f = last_flag(last);
    assert forall|j: int| 0 <= j < NONCE_LEN implies b1[j] == b2[j] by {
        assert(n1[j] == n2[j]);
        if j >= p {
            let k: u8 = if j == p + 4 { f } else { cb[j - p] };
            let (x, y) = (b1[j], b2[j]);
            assert(x ^ k == y ^ k);
            assert(x == y) by (bit_vector)
                requires x ^ k == y ^ k;
        }
    }
    assert(b1 =~= b2);
}

} // verus!
