//! The mathematical model of the frame layout: how a plaintext is cut into
//! chunks, what the sealed stream is, and what opening a sealed stream gives.
use vstd::prelude::*;

use crate::aead::{opened_frame, sealed_frame, TAG_LEN};
use crate::nonce::{frame_nonce, NONCE_LEN};

verus! {

/// The number of frames a stream may hold: the frame counter has 32 bits.
pub const MAX_FRAMES: u64 = 4294967296;

/// The chunks of `s` for chunk size `c`: full chunks of `c` bytes, then one
/// terminal chunk strictly shorter than `c` (empty when `c` divides the length).
pub open spec fn chunks_of(s: Seq<u8>, c: nat) -> Seq<Seq<u8>>
    decreases s.len(),
{
    if c == 0 || s.len() < c {
        seq![s]
    } else {
        seq![s.take(c as int)] + chunks_of(s.skip(c as int), c)
    }
}

/// The concatenation of the sealed frames of `chunks`, numbered from `i`;
/// the last of them is the terminal frame.
pub open spec fn seal_chunks(key: Seq<u8>, base: Seq<u8>, chunks: Seq<Seq<u8>>, i: nat) -> Seq<u8>
    decreases chunks.len(),
{
    if chunks.len() == 0 {
        Seq::empty()
    } else {
        sealed_frame(key, frame_nonce(base, i as u32, chunks.len() == 1), chunks[0])
            + seal_chunks(key, base, chunks.skip(1), i + 1)
    }
}

/// The sealed stream of plaintext `s` under chunk size `c`.
pub open spec fn sealed_stream(key: Seq<u8>, base: Seq<u8>, s: Seq<u8>, c: nat) -> Seq<u8> {
    seal_chunks(key, base, chunks_of(s, c), 0)
}

/// Puts `p` in front of an optional plaintext.
pub open spec fn prepend(p: Seq<u8>, rest: Option<Seq<u8>>) -> Option<Seq<u8>> {
    match rest {
        Some(q) => Some(p + q),
        None => None,
    }
}

/// Opens a sealed stream whose frames are numbered from `i`: every piece of
/// `c` plaintext bytes plus a tag is an interior frame, and the first shorter
/// remainder is the terminal frame. A remainder shorter than a tag (an empty
/// one too) holds no frame, and the stream does not open.
pub open spec fn open_frames(key: Seq<u8>, base: Seq<u8>, sealed: Seq<u8>, c: nat, i: nat) -> Option<Seq<u8>>
    decreases sealed.len(),
{
    let f = c + TAG_LEN;
    if i >= MAX_FRAMES {
        None
    } else if sealed.len() < TAG_LEN {
        None
    } else if sealed.len() < f {
        opened_frame(key, frame_nonce(base, i as u32, true), sealed)
    } else {
        match opened_frame(key, frame_nonce(base, i as u32, false), sealed.take(f as int)) {
            Some(p) => prepend(p, open_frames(key, base, sealed.skip(f as int), c, i + 1)),
            None => None,
        }
    }
}

/// The plaintext a sealed stream opens to under chunk size `c`, if any.
pub open spec fn opened_stream(key: Seq<u8>, base: Seq<u8>, sealed: Seq<u8>, c: nat) -> Option<Seq<u8>> {
    open_frames(key, base, sealed, c, 0)
}

/// The facts the AEAD gave when it sealed each chunk (numbered from `i`): the
/// frame is one tag longer than the chunk, and opens back to it.
pub open spec fn frames_sound(key: Seq<u8>, base: Seq<u8>, chunks: Seq<Seq<u8>>, i: nat) -> bool
    decreases chunks.len(),
{
    if chunks.len() == 0 {
        true
    } else {
        let n = frame_nonce(base, i as u32, chunks.len() == 1);
        let sealed = sealed_frame(key, n, chunks[0]);
        &&& sealed.len() == chunks[0].len() + TAG_LEN
        &&& opened_frame(key, n, sealed) == Some(chunks[0])
        &&& frames_sound(key, base, chunks.skip(1), i + 1)
    }
}

/// Cutting into chunks: `len / c + 1` chunks, all but the last of exactly `c`
/// bytes, the last strictly shorter than `c`, and together they are `s`.
pub proof fn lemma_chunks(s: Seq<u8>, c: nat)
    requires
        c > 0,
    ensures
        chunks_of(s, c).len() == s.len() / c + 1,
        forall|j: int| 0 <= j < chunks_of(s, c).len() - 1 ==> (#[trigger] chunks_of(s, c)[j]).len() == c,
        chunks_of(s, c).last().len() < c,
        chunks_of(s, c).last().len() == s.len() % c,
        chunks_of(s, c).flatten() == s,
    decreases s.len(),
{
    let cs = chunks_of(s, c);
    if s.len() < c {
        assert(s.len() / c == 0) by (nonlinear_arith)
            requires s.len() < c;
        assert(s.len() % c == s.len()) by (nonlinear_arith)
            requires s.len() < c;
        assert(cs =~= seq![s]);
        assert(cs.drop_first() =~= Seq::<Seq<u8>>::empty());
        assert(cs.drop_first().flatten() == Seq::<u8>::empty());
        assert(cs.flatten() == cs.first() + cs.drop_first().flatten());
        assert(s + Seq::<u8>::empty() =~= s);
    } else {
        let rest = s.skip(c as int);
        lemma_chunks(rest, c);
        let rs = chunks_of(rest, c);
        assert(cs == seq![s.take(c as int)] + rs);
        let n = s.len() as int;
        let ci = c as int;
        assert(n / ci == (n - ci) / ci + 1 && n % ci == (n - ci) % ci) by {
            vstd::arithmetic::div_mod::lemma_fundamental_div_mod(n - ci, ci);
            let q = (n - ci) / ci;
            assert(n == (q + 1) * ci + (n - ci) % ci) by (nonlinear_arith)
                requires n - ci == ci * q + (n - ci) % ci;
            vstd::arithmetic::div_mod::lemma_fundamental_div_mod_converse(n, ci, q + 1, (n - ci) % ci);
        }
        assert forall|j: int| 0 <= j < cs.len() - 1 implies (#[trigger] cs[j]).len() == c by {
            if j > 0 {
                assert(cs[j] == rs[j - 1]);
            }
        }
        assert(cs.last() == rs.last());
        assert(cs.drop_first() =~= rs);
        assert(cs.first() == s.take(c as int));
        assert(cs.flatten() == cs.first() + cs.drop_first().flatten());
        assert(s.take(c as int) + rest =~= s);
    }
}

/// The number of frames of a sealed stream: `len / c + 1`, that is one more
/// than the number of full chunks, so a length that `c` divides (the empty
/// stream too) ends in an empty terminal frame.
pub proof fn lemma_frame_count(s: Seq<u8>, c: nat)
    requires
        c > 0,
    ensures
        chunks_of(s, c).len() == s.len() / c + 1,
        s.len() % c == 0 ==> chunks_of(s, c).last().len() == 0,
        s.len() % c != 0 ==> chunks_of(s, c).len() == (s.len() + c - 1) / (c as int),
{
    lemma_chunks(s, c);
    let n = s.len() as int;
    let ci = c as int;
    if n % ci != 0 {
        vstd::arithmetic::div_mod::lemma_fundamental_div_mod(n, ci);
        let q = n / ci;
        let r = n % ci;
        assert(n + ci - 1 == (q + 1) * ci + (r - 1)) by (nonlinear_arith)
            requires n == ci * q + r;
        vstd::arithmetic::div_mod::lemma_fundamental_div_mod_converse(n + ci - 1, ci, q + 1, r - 1);
    }
}

/// Opening frames sealed from `s`, numbered from `i`, gives `s` back.
proof fn lemma_open_sealed(key: Seq<u8>, base: Seq<u8>, s: Seq<u8>, c: nat, i: nat)
    requires
        c > 0,
        base.len() == NONCE_LEN,
        i + chunks_of(s, c).len() <= MAX_FRAMES,
        frames_sound(key, base, chunks_of(s, c), i),
    ensures
        open_frames(key, base, seal_chunks(key, base, chunks_of(s, c), i), c, i) == Some(s),
    decreases s.len(),
{
    let cs = chunks_of(s, c);
    let f = c + TAG_LEN;
    if s.len() < c {
        let n = frame_nonce(base, i as u32, true);
        let fr = sealed_frame(key, n, s);
        assert(cs =~= seq![s]);
        assert(cs.skip(1) =~= Seq::<Seq<u8>>::empty());
        assert(seal_chunks(key, base, cs.skip(1), i + 1) == Seq::<u8>::empty());
        assert(seal_chunks(key, base, cs, i) == fr + seal_chunks(key, base, cs.skip(1), i + 1));
        assert(fr + Seq::<u8>::empty() =~= fr);
        assert(fr.len() < f);
    } else {
        let rest = s.skip(c as int);
        let rs = chunks_of(rest, c);
        lemma_chunks(rest, c);
        assert(cs == seq![s.take(c as int)] + rs);
        assert(cs.skip(1) =~= rs);
        assert(cs[0] == s.take(c as int));
        let n = frame_nonce(base, i as u32, false);
        let fr = sealed_frame(key, n, s.take(c as int));
        let tail = seal_chunks(key, base, rs, i + 1);
        assert(seal_chunks(key, base, cs, i) == fr + tail);
        assert(frames_sound(key, base, rs, i + 1));
        lemma_open_sealed(key, base, rest, c, i + 1);
        let sealed = fr + tail;
        assert(sealed.take(f as int) =~= fr);
        assert(sealed.skip(f as int) =~= tail);
        assert(s.take(c as int) + rest =~= s);
    }
}

/// Decrypting what encryption produced gives the plaintext back, for every
/// plaintext and every positive chunk size, provided the stream fits the
/// 32-bit frame counter and the AEAD opened back each frame it sealed (which
/// encryption establishes, frame by frame).
pub proof fn lemma_round_trip(key: Seq<u8>, base: Seq<u8>, s: Seq<u8>, c: nat)
    requires
        c > 0,
        base.len() == NONCE_LEN,
        chunks_of(s, c).len() <= MAX_FRAMES,
        frames_sound(key, base, chunks_of(s, c), 0),
    ensures
        opened_stream(key, base, sealed_stream(key, base, s, c), c) == Some(s),
{
    lemma_open_sealed(key, base, s, c, 0);
}

/// A sealed stream made of whole interior frames only (the empty stream, or
/// one cut at a frame boundary) lacks its terminal frame and does not open.
pub proof fn lemma_missing_terminal_frame(key: Seq<u8>, base: Seq<u8>, sealed: Seq<u8>, c: nat, i: nat)
    requires
        sealed.len() % ((c + TAG_LEN) as nat) == 0,
    ensures
        open_frames(key, base, sealed, c, i) is None,
    decreases sealed.len(),
{
    let f = (c + TAG_LEN) as int;
    let n = sealed.len() as int;
    if i < MAX_FRAMES && n >= f {
        vstd::arithmetic::div_mod::lemma_fundamental_div_mod(n, f);
        let q = n / f;
        assert(q >= 1) by (nonlinear_arith)
            requires n == f * q + 0, n >= f, f > 0;
        assert(n - f == (q - 1) * f + 0) by (nonlinear_arith)
            requires n == f * q;
        vstd::arithmetic::div_mod::lemma_fundamental_div_mod_converse(n - f, f, q - 1, 0);
        let rest = sealed.skip(f);
        lemma_missing_terminal_frame(key, base, rest, c, i + 1);
    } else if i < MAX_FRAMES {
        assert(n == 0) by (nonlinear_arith)
            requires n % f == 0, 0 <= n < f;
    }
}

} // verus!
