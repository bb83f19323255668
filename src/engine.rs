//! The stream cipher engine: seals a plaintext chunk by chunk into frames and
//! opens such frames back, with the frame counter kept in a session.
use vstd::prelude::*;

use crate::aead::{open_frame, opened_frame, seal_frame, sealed_frame, MAX_FRAME_PLAIN_LEN, TAG_LEN};
use crate::error::Error;
use crate::keys::{material_failures, secret_loads_to, stored_view, KeyMaterial};
use crate::nonce::{derive_frame_nonce, frame_nonce, KEY_LEN, NONCE_LEN};
use crate::stream::{
    chunks_of, frames_sound, lemma_chunks, lemma_round_trip, open_frames, opened_stream, prepend,
    seal_chunks, sealed_stream, lemma_missing_terminal_frame, MAX_FRAMES,
};

verus! {

/// The chunk size used when the caller has no reason to pick another.
pub const DEFAULT_BUFFER_LEN: usize = 512;

/// The largest chunk size: the most plaintext XChaCha20-Poly1305 seals in
/// one frame.
pub const MAX_BUFFER_LEN: u64 = MAX_FRAME_PLAIN_LEN;

/// The frame counter of one encryption or decryption session.
pub struct Session {
    next: u64,
    finished: bool,
}

impl Session {
    /// The number of the next frame.
    pub closed spec fn next(&self) -> nat {
        self.next as nat
    }

    /// Whether the terminal frame has been handled, or a frame failed.
    pub closed spec fn finished(&self) -> bool {
        self.finished
    }

    /// A session before its first frame.
    pub fn new() -> (r: Session)
        ensures
            r.next() == 0,
            !r.finished(),
    {
        Session { next: 0, finished: false }
    }

    /// Whether no further frame may follow.
    pub fn is_finished(&self) -> (r: bool)
        ensures
            r == self.finished(),
    {
        self.finished
    }
}

/// Is a service able to encrypt or decrypt files.
pub struct Crypto {
    key: Vec<u8>,
    nonce: Vec<u8>,
    buffer_len: usize,
}

impl Crypto {
    /// The key.
    pub closed spec fn key(&self) -> Seq<u8> {
        self.key@
    }

    /// The base nonce.
    pub closed spec fn nonce(&self) -> Seq<u8> {
        self.nonce@
    }

    /// The chunk size.
    pub closed spec fn chunk_len(&self) -> nat {
        self.buffer_len as nat
    }

    /// Key and nonce have their lengths, and the chunk size is usable.
    pub open spec fn wf(&self) -> bool {
        &&& self.key().len() == KEY_LEN
        &&& self.nonce().len() == NONCE_LEN
        &&& 0 < self.chunk_len() <= MAX_BUFFER_LEN
        &&& self.chunk_len() + TAG_LEN <= usize::MAX
    }

    /// An engine with the chunk size `buffer_len` whose key and base nonce are
    /// what storage holds (`None` where it holds nothing): each stored secret
    /// is used verbatim, each missing one is generated. The two flags say
    /// which were generated; the caller persists each at its own location.
    pub fn new(stored_key: Option<Vec<u8>>, stored_nonce: Option<Vec<u8>>, buffer_len: usize) -> (r: Result<
        (Crypto, bool, bool),
        Error,
    >)
        requires
            0 < buffer_len <= MAX_BUFFER_LEN,
            buffer_len + TAG_LEN <= usize::MAX,
        ensures
            r is Ok ==> r->Ok_0.0.wf() && r->Ok_0.0.chunk_len() == buffer_len,
            r is Ok ==> secret_loads_to(stored_view(stored_key), KEY_LEN as nat, r->Ok_0.0.key(), r->Ok_0.1),
            r is Ok ==> secret_loads_to(stored_view(stored_nonce), NONCE_LEN as nat, r->Ok_0.0.nonce(), r->Ok_0.2),
            material_failures(stored_view(stored_key), stored_view(stored_nonce), r),
    {
        match KeyMaterial::load_or_create(stored_key, stored_nonce) {
            Ok((material, key_generated, nonce_generated)) => Ok(
                (Crypto::from_material(material, buffer_len), key_generated, nonce_generated),
            ),
            Err(e) => Err(e),
        }
    }

    /// An engine over the given key material and chunk size.
    pub fn from_material(material: KeyMaterial, buffer_len: usize) -> (r: Crypto)
        requires
            material.wf(),
            0 < buffer_len <= MAX_BUFFER_LEN,
            buffer_len + TAG_LEN <= usize::MAX,
        ensures
            r.wf(),
            r.key() == material.key(),
            r.nonce() == material.nonce(),
            r.chunk_len() == buffer_len,
    {
        let (key, nonce) = material.into_parts();
        Crypto { key, nonce, buffer_len }
    }

    /// The key bytes.
    pub fn key_bytes(&self) -> (r: &Vec<u8>)
        ensures
            r@ == self.key(),
    {
        &self.key
    }

    /// The base nonce bytes.
    pub fn nonce_bytes(&self) -> (r: &Vec<u8>)
        ensures
            r@ == self.nonce(),
    {
        &self.nonce
    }

    /// The chunk size.
    pub fn buffer_len(&self) -> (r: usize)
        ensures
            r == self.chunk_len(),
    {
        self.buffer_len
    }

    /// Seals the next chunk of a session: a chunk of exactly the chunk size is
    /// an interior frame, a shorter one (possibly empty) the terminal frame.
    pub fn encrypt_chunk(&self, session: &mut Session, chunk: &Vec<u8>) -> (r: Result<Vec<u8>, Error>)
        requires
            self.wf(),
            !old(session).finished(),
            chunk@.len() <= self.chunk_len(),
        ensures
            ({
                let i = old(session).next();
                let n = frame_nonce(self.nonce(), i as u32, chunk@.len() < self.chunk_len());
                &&& r is Ok <==> i < MAX_FRAMES
                &&& r is Ok ==> r->Ok_0@ == sealed_frame(self.key(), n, chunk@)
                &&& r is Ok ==> r->Ok_0@.len() == chunk@.len() + TAG_LEN
                &&& r is Ok ==> opened_frame(self.key(), n, r->Ok_0@) == Some(chunk@)
                &&& r is Ok ==> final(session).next() == i + 1
                &&& r is Ok ==> final(session).finished() == (chunk@.len() < self.chunk_len())
                &&& r is Err ==> (r matches Err(Error::EncryptionError)) && final(session).finished()
            }),
    {
        if session.next >= MAX_FRAMES {
            session.finished = true;
            return Err(Error::EncryptionError);
        }
        let last = chunk.len() < self.buffer_len;
        let nonce = derive_frame_nonce(&self.nonce, session.next as u32, last);
        match seal_frame(&self.key, &nonce, chunk) {
            Ok(frame) => {
                session.next = session.next + 1;
                session.finished = last;
                Ok(frame)
            },
            Err(e) => {
                session.finished = true;
                Err(Error::from(e))
            },
        }
    }

    /// Opens the next frame of a session: a frame of exactly the chunk size
    /// plus a tag is an interior frame, a shorter one (possibly empty) the
    /// terminal frame.
    pub fn decrypt_chunk(&self, session: &mut Session, frame: &Vec<u8>) -> (r: Result<Vec<u8>, Error>)
        requires
            self.wf(),
            !old(session).finished(),
            frame@.len() <= self.chunk_len() + TAG_LEN,
        ensures
            ({
                let i = old(session).next();
                let n = frame_nonce(self.nonce(), i as u32, frame@.len() < self.chunk_len() + TAG_LEN);
                &&& r is Ok <==> i < MAX_FRAMES && opened_frame(self.key(), n, frame@) is Some
                &&& frame@.len() < TAG_LEN ==> r is Err
                &&& r is Ok ==> Some(r->Ok_0@) == opened_frame(self.key(), n, frame@)
                &&& r is Ok ==> final(session).next() == i + 1
                &&& r is Ok ==> final(session).finished() == (frame@.len() < self.chunk_len() + TAG_LEN)
                &&& r is Err ==> (r matches Err(Error::EncryptionError)) && final(session).finished()
            }),
    {
        if session.next >= MAX_FRAMES {
            session.finished = true;
            return Err(Error::EncryptionError);
        }
        let last = frame.len() < self.buffer_len + TAG_LEN;
        let nonce = derive_frame_nonce(&self.nonce, session.next as u32, last);
        match open_frame(&self.key, &nonce, frame) {
            Ok(plain) => {
                session.next = session.next + 1;
                session.finished = last;
                Ok(plain)
            },
            Err(e) => {
                session.finished = true;
                Err(Error::from(e))
            },
        }
    }
}

impl Crypto {
    /// Encrypts a whole plaintext: the concatenation of the sealed frames of
    /// its chunks, which opens back to the plaintext. Fails, with an
    /// encryption error, only when the stream would need more frames than the
    /// 32-bit counter numbers.
    pub fn encrypt(&self, plain: &Vec<u8>) -> (r: Result<Vec<u8>, Error>)
        requires
            self.wf(),
        ensures
            r is Ok <==> chunks_of(plain@, self.chunk_len()).len() <= MAX_FRAMES,
            r is Err ==> r matches Err(Error::EncryptionError),
            r is Ok ==> r->Ok_0@ == sealed_stream(self.key(), self.nonce(), plain@, self.chunk_len()),
            r is Ok ==> r->Ok_0@.len() == plain@.len() + TAG_LEN * chunks_of(plain@, self.chunk_len()).len(),
            r is Ok ==> opened_stream(self.key(), self.nonce(), r->Ok_0@, self.chunk_len()) == Some(plain@),
    {
        let c = self.buffer_len;
        let ghost k = self.key();
        let ghost b = self.nonce();
        let ghost all = chunks_of(plain@, c as nat);
        let mut session = Session::new();
        let mut out: Vec<u8> = Vec::new();
        let mut pos: usize = 0;
        assert(plain@.skip(0) =~= plain@);
        loop
            invariant
                self.wf(),
                c == self.chunk_len(),
                k == self.key(),
                b == self.nonce(),
                all == chunks_of(plain@, c as nat),
                pos <= plain@.len(),
                !session.finished(),
                session.next() + chunks_of(plain@.skip(pos as int), c as nat).len() == all.len(),
                out@ + seal_chunks(k, b, chunks_of(plain@.skip(pos as int), c as nat), session.next())
                    == sealed_stream(k, b, plain@, c as nat),
                frames_sound(k, b, chunks_of(plain@.skip(pos as int), c as nat), session.next())
                    ==> frames_sound(k, b, all, 0),
                out@.len() == pos + TAG_LEN * session.next(),
            decreases plain@.len() - pos,
        {
            let ghost rest = plain@.skip(pos as int);
            let ghost cs = chunks_of(rest, c as nat);
            let ghost i = session.next();
            let last = plain.len() - pos < c;
            let end = if last { plain.len() } else { pos + c };
            let chunk = copy_range(plain, pos, end);
            proof {
                lemma_chunks(rest, c as nat);
                if last {
                    assert(cs =~= seq![rest]);
                    assert(chunk@ =~= rest);
                    assert(cs.skip(1) =~= Seq::<Seq<u8>>::empty());
                } else {
                    let next_rest = plain@.skip(end as int);
                    assert(rest.skip(c as int) =~= next_rest);
                    lemma_chunks(next_rest, c as nat);
                    assert(cs == seq![rest.take(c as int)] + chunks_of(next_rest, c as nat));
                    assert(cs.skip(1) =~= chunks_of(next_rest, c as nat));
                    assert(chunk@ =~= rest.take(c as int));
                }
                assert(cs[0] == chunk@);
            }
            match self.encrypt_chunk(&mut session, &chunk) {
                Err(e) => {
                    return Err(e);
                },
                Ok(frame) => {
                    let mut frame = frame;
                    let ghost sealed = frame@;
                    let ghost prev = out@;
                    out.append(&mut frame);
                    proof {
                        let tail = seal_chunks(k, b, cs.skip(1), i + 1);
                        assert(seal_chunks(k, b, cs, i) == sealed + tail);
                        assert(out@ + tail =~= prev + (sealed + tail));
                        if last {
                            assert(tail == Seq::<u8>::empty());
                            assert(out@ + tail =~= out@);
                            assert(frames_sound(k, b, cs.skip(1), i + 1));
                            assert(frames_sound(k, b, cs, i));
                            lemma_round_trip(k, b, plain@, c as nat);
                        }
                    }
                    if last {
                        return Ok(out);
                    }
                    pos = end;
                },
            }
        }
    }
}

impl Crypto {
    /// Decrypts a whole sealed stream: interior frames of exactly the chunk
    /// size plus a tag, then a shorter terminal frame (an empty remainder is
    /// opened as a terminal frame too, and fails). Fails, with an encryption
    /// error, exactly when some frame does not authenticate.
    pub fn decrypt(&self, sealed: &Vec<u8>) -> (r: Result<Vec<u8>, Error>)
        requires
            self.wf(),
        ensures
            r is Ok <==> opened_stream(self.key(), self.nonce(), sealed@, self.chunk_len()) is Some,
            r is Ok ==> Some(r->Ok_0@) == opened_stream(self.key(), self.nonce(), sealed@, self.chunk_len()),
            r is Err ==> r matches Err(Error::EncryptionError),
            sealed@.len() % ((self.chunk_len() + TAG_LEN) as nat) == 0 ==> r is Err,
    {
        proof {
            if sealed@.len() % ((self.chunk_len() + TAG_LEN) as nat) == 0 {
                lemma_missing_terminal_frame(self.key(), self.nonce(), sealed@, self.chunk_len(), 0);
            }
        }
        let c = self.buffer_len;
        let f = c + TAG_LEN;
        let ghost k = self.key();
        let ghost b = self.nonce();
        let mut session = Session::new();
        let mut out: Vec<u8> = Vec::new();
        let mut pos: usize = 0;
        assert(sealed@.skip(0) =~= sealed@);
        assert(out@ + sealed@ =~= sealed@);
        loop
            invariant
                self.wf(),
                c == self.chunk_len(),
                f == c + TAG_LEN,
                k == self.key(),
                b == self.nonce(),
                pos <= sealed@.len(),
                !session.finished(),
                opened_stream(k, b, sealed@, c as nat)
                    == prepend(out@, open_frames(k, b, sealed@.skip(pos as int), c as nat, session.next())),
                sealed@.len() % ((c + TAG_LEN) as nat) == 0 ==> opened_stream(k, b, sealed@, c as nat) is None,
            decreases sealed@.len() - pos,
        {
            let ghost rest = sealed@.skip(pos as int);
            let ghost i = session.next();
            let last = sealed.len() - pos < f;
            let end = if last { sealed.len() } else { pos + f };
            let frame = copy_range(sealed, pos, end);
            proof {
                if last {
                    assert(frame@ =~= rest);
                } else {
                    assert(frame@ =~= rest.take(f as int));
                    assert(rest.skip(f as int) =~= sealed@.skip(end as int));
                }
            }
            match self.decrypt_chunk(&mut session, &frame) {
                Err(e) => {
                    return Err(e);
                },
                Ok(plain) => {
                    let mut plain = plain;
                    let ghost p = plain@;
                    let ghost prev = out@;
                    out.append(&mut plain);
                    proof {
                        if !last {
                            let later = open_frames(k, b, sealed@.skip(end as int), c as nat, i + 1);
                            assert(open_frames(k, b, rest, c as nat, i) == prepend(p, later));
                            match later {
                                Some(q) => {
                                    assert(prev + (p + q) =~= out@ + q);
                                },
                                None => {},
                            }
                        }
                    }
                    if last {
                        return Ok(out);
                    }
                    pos = end;
                },
            }
        }
    }
}

/// The bytes of `s` from `start` up to `end`.
fn copy_range(s: &Vec<u8>, start: usize, end: usize) -> (r: Vec<u8>)
    requires
        start <= end <= s@.len(),
    ensures
        r@ == s@.subrange(start as int, end as int),
{
    let mut r: Vec<u8> = Vec::new();
    let mut i: usize = start;
    while i < end
        invariant
            start <= i <= end <= s@.len(),
            r@ == s@.subrange(start as int, i as int),
        decreases end - i,
    {
        r.push(s[i]);
        i = i + 1;
        assert(r@ =~= s@.subrange(start as int, i as int));
    }
    r
}

} // verus!
