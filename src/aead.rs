//! AES-256-GCM sealing of single messages and of chunked streams.
//!
//! A stream is a run of frames `[len: u32 big-endian][ciphertext]` ended by
//! a frame of length 0. Each frame seals up to 1024 bytes of plaintext under
//! its own nonce: the first frame uses the given nonce, and each next frame
//! that nonce plus one, read as a 96-bit little-endian integer.
use vstd::prelude::*;
use aes_gcm::aead::{Aead, KeyInit};
use aes_gcm::{Aes256Gcm, Nonce};
use zeroize::Zeroize;

verus! {

/// Key length of AES-256, in bytes.
pub const KEY_LEN: usize = 32;

/// Nonce length of AES-GCM, in bytes.
pub const NONCE_LEN: usize = 12;

/// Length of the authentication tag appended to each ciphertext.
pub const TAG_LEN: usize = 16;

/// Largest plaintext of one chunk of a stream.
pub const CHUNK_LEN: usize = 1024;

/// Largest plaintext that AES-GCM seals (2^36 bytes).
pub const MAX_PLAINTEXT: u64 = 68719476736;

/// Why a sealing or opening failed.
#[derive(Debug, Clone, Copy, PartialEq, Eq, Structural)]
pub enum AeadError {
    /// The key is not 32 bytes long; holds the length given.
    InvalidKeyLength(usize),
    /// The nonce is not 12 bytes long; holds the length given.
    InvalidNonceLength(usize),
    /// The message exceeds what AES-GCM accepts.
    MessageTooLong,
    /// The stream ended inside a declared frame.
    Truncated,
    /// A ciphertext failed authentication.
    AuthFailed,
}

/// What AES-256-GCM makes of `pt` under `key` and `nonce`: the ciphertext
/// followed by the 16-byte tag.
pub uninterp spec fn aes_gcm_seal(key: Seq<u8>, nonce: Seq<u8>, pt: Seq<u8>) -> Seq<u8>;

/// What AES-256-GCM opening makes of `ct` under `key` and `nonce`: the
/// plaintext, or `None` when authentication fails.
pub uninterp spec fn aes_gcm_open(key: Seq<u8>, nonce: Seq<u8>, ct: Seq<u8>) -> Option<Seq<u8>>;

/// Relies on `Aes256Gcm::new_from_slice` (accepts any 32-byte key) and
/// `Aead::encrypt` (ciphertext and tag, refused above 2^36 bytes).
#[verifier::external_body]
fn gcm_seal(key: &[u8], nonce: &[u8], pt: &[u8]) -> (r: Option<Vec<u8>>)
    requires
        key@.len() == KEY_LEN,
        nonce@.len() == NONCE_LEN,
    ensures
        r is Some <==> pt@.len() <= MAX_PLAINTEXT,
        r is Some ==> r->0@ == aes_gcm_seal(key@, nonce@, pt@),
        r is Some ==> r->0@.len() == pt@.len() + TAG_LEN,
{
    let cipher = Aes256Gcm::new_from_slice(key).ok()?;
    cipher.encrypt(Nonce::from_slice(nonce), pt).ok()
}

/// Relies on `Aes256Gcm::new_from_slice` and `Aead::decrypt`: the plaintext
/// when the tag authenticates, which is so exactly when `ct` is what
/// encryption of some plaintext made.
#[verifier::external_body]
fn gcm_open(key: &[u8], nonce: &[u8], ct: &[u8]) -> (r: Option<Vec<u8>>)
    requires
        key@.len() == KEY_LEN,
        nonce@.len() == NONCE_LEN,
        ct@.len() <= MAX_PLAINTEXT + TAG_LEN,
    ensures
        match r {
            Some(p) => aes_gcm_open(key@, nonce@, ct@) == Some(p@),
            None => aes_gcm_open(key@, nonce@, ct@) is None,
        },
        r is Some ==> aes_gcm_seal(key@, nonce@, r->0@) == ct@,
        forall|p: Seq<u8>|
            p.len() <= MAX_PLAINTEXT && #[trigger] aes_gcm_seal(key@, nonce@, p) == ct@ ==> r is Some
                && r->0@ == p,
{
    let cipher = Aes256Gcm::new_from_slice(key).ok()?;
    cipher.decrypt(Nonce::from_slice(nonce), ct).ok()
}

/// The nonce plus one, its bytes read as a little-endian integer; the
/// largest value wraps to zero.
pub open spec fn nonce_increment(n: Seq<u8>) -> Seq<u8>
    decreases n.len(),
{
    if n.len() == 0 {
        n
    } else if n[0] == 255 {
        seq![0u8] + nonce_increment(n.drop_first())
    } else {
        seq![(n[0] + 1) as u8] + n.drop_first()
    }
}

/// `x` as four big-endian bytes.
pub open spec fn be32(x: u32) -> Seq<u8> {
    seq![
        (x / 0x1000000) as u8,
        ((x / 0x10000) % 0x100) as u8,
        ((x / 0x100) % 0x100) as u8,
        (x % 0x100) as u8,
    ]
}

/// The number that four big-endian bytes at `b[0..4]` hold.
pub open spec fn read_be32(b: Seq<u8>) -> int {
    b[0] as int * 0x1000000 + b[1] as int * 0x10000 + b[2] as int * 0x100 + b[3] as int
}

/// The length of the first chunk of `pt`.
pub open spec fn chunk_len(pt: Seq<u8>) -> int {
    if pt.len() < CHUNK_LEN {
        pt.len() as int
    } else {
        CHUNK_LEN as int
    }
}

/// The stream that seals `pt` from nonce `n`.
pub open spec fn frames(k: Seq<u8>, n: Seq<u8>, pt: Seq<u8>) -> Seq<u8>
    decreases pt.len(),
{
    if pt.len() == 0 {
        be32(0)
    } else {
        let c = chunk_len(pt);
        let ct = aes_gcm_seal(k, n, pt.subrange(0, c));
        be32(ct.len() as u32) + ct + frames(k, nonce_increment(n), pt.subrange(c, pt.len() as int))
    }
}

/// The plaintext of a stream read from nonce `n`: input that ends before a
/// length prefix ends the stream cleanly, as a zero length does.
pub open spec fn unframe(k: Seq<u8>, n: Seq<u8>, b: Seq<u8>) -> Result<Seq<u8>, AeadError>
    decreases b.len(),
{
    if b.len() < 4 {
        Ok(Seq::empty())
    } else {
        let len = read_be32(b);
        if len == 0 {
            Ok(Seq::empty())
        } else if b.len() - 4 < len {
            Err(AeadError::Truncated)
        } else {
            match aes_gcm_open(k, n, b.subrange(4, 4 + len)) {
                None => Err(AeadError::AuthFailed),
                Some(p) => match unframe(k, nonce_increment(n), b.subrange(4 + len, b.len() as int)) {
                    Ok(rest) => Ok(p + rest),
                    Err(e) => Err(e),
                },
            }
        }
    }
}

/// Every chunk of `pt`, sealed under its nonce, is 16 bytes longer than
/// the chunk.
pub open spec fn seals_fit(k: Seq<u8>, n: Seq<u8>, pt: Seq<u8>) -> bool
    decreases pt.len(),
{
    if pt.len() == 0 {
        true
    } else {
        let c = chunk_len(pt);
        &&& aes_gcm_seal(k, n, pt.subrange(0, c)).len() == c + TAG_LEN
        &&& seals_fit(k, nonce_increment(n), pt.subrange(c, pt.len() as int))
    }
}

/// The length of the stream that seals `len` bytes: per chunk of at most
/// 1024 bytes a 4-byte prefix, the chunk and its 16-byte tag, then a
/// 4-byte zero.
pub open spec fn framed_len(len: nat) -> nat
    decreases len,
{
    if len == 0 {
        4
    } else {
        let c: nat = if len < CHUNK_LEN { len } else { CHUNK_LEN as nat };
        (4 + c + TAG_LEN + framed_len((len - c) as nat)) as nat
    }
}

/// Every chunk of `pt`, sealed under its nonce, is 16 bytes longer than the
/// chunk and opens back to it.
pub open spec fn chunks_open(k: Seq<u8>, n: Seq<u8>, pt: Seq<u8>) -> bool
    decreases pt.len(),
{
    if pt.len() == 0 {
        true
    } else {
        let c = chunk_len(pt);
        let chunk = pt.subrange(0, c);
        &&& aes_gcm_seal(k, n, chunk).len() == chunk.len() + TAG_LEN
        &&& aes_gcm_open(k, n, aes_gcm_seal(k, n, chunk)) == Some(chunk)
        &&& chunks_open(k, nonce_increment(n), pt.subrange(c, pt.len() as int))
    }
}

pub proof fn lemma_be32_read(x: u32)
    ensures
        read_be32(be32(x)) == x as int,
{
    let b = be32(x);
    assert(b[0] as int == x as int / 0x1000000);
    assert(b[1] as int == (x as int / 0x10000) % 0x100);
    assert(b[2] as int == (x as int / 0x100) % 0x100);
    assert(b[3] as int == x as int % 0x100);
    assert(read_be32(b) == x as int) by (nonlinear_arith)
        requires
            b[0] as int == x as int / 0x1000000,
            b[1] as int == (x as int / 0x10000) % 0x100,
            b[2] as int == (x as int / 0x100) % 0x100,
            b[3] as int == x as int % 0x100,
            0 <= x as int <= 0xffffffff,
            read_be32(b) == b[0] as int * 0x1000000 + b[1] as int * 0x10000 + b[2] as int * 0x100
                + b[3] as int,
    ;
}

/// The framing undoes itself: from the stream that seals `pt`, reading
/// gives `pt` back, whenever each sealed chunk opens back to the chunk.
pub proof fn lemma_stream_round_trip(k: Seq<u8>, n: Seq<u8>, pt: Seq<u8>)
    requires
        chunks_open(k, n, pt),
    ensures
        unframe(k, n, frames(k, n, pt)) == Ok::<Seq<u8>, AeadError>(pt),
    decreases pt.len(),
{
    if pt.len() == 0 {
        lemma_be32_read(0);
        assert(pt =~= Seq::<u8>::empty());
    } else {
        let c = chunk_len(pt);
        let chunk = pt.subrange(0, c);
        let rest = pt.subrange(c, pt.len() as int);
        let ct = aes_gcm_seal(k, n, chunk);
        let tail = frames(k, nonce_increment(n), rest);
        let b = frames(k, n, pt);
        assert(b == be32(ct.len() as u32) + ct + tail);
        lemma_be32_read(ct.len() as u32);
        assert(b.subrange(0, 4) =~= be32(ct.len() as u32));
        assert(read_be32(b) == read_be32(b.subrange(0, 4)));
        assert(b.subrange(4, 4 + ct.len() as int) =~= ct);
        assert(b.subrange(4 + ct.len() as int, b.len() as int) =~= tail);
        lemma_stream_round_trip(k, nonce_increment(n), rest);
        assert(chunk + rest =~= pt);
    }
}

/// An AES-256-GCM key and nonce.
pub struct Aes256GcmEncryption {
    key: Vec<u8>,
    nonce: Vec<u8>,
}

impl Drop for Aes256GcmEncryption {
    /// Relies on `Zeroize::zeroize` for `Vec<u8>`: overwrites the key and
    /// nonce with zeros before they are freed.
    #[verifier::external_body]
    fn drop(&mut self)
        opens_invariants none
        no_unwind
    {
        self.key.zeroize();
        self.nonce.zeroize();
    }
}

impl Aes256GcmEncryption {
    /// The key.
    pub closed spec fn key(&self) -> Seq<u8> {
        self.key@
    }

    /// The nonce.
    pub closed spec fn nonce(&self) -> Seq<u8> {
        self.nonce@
    }

    /// The key holds 32 bytes and the nonce 12.
    pub open spec fn wf(&self) -> bool {
        self.key().len() == KEY_LEN && self.nonce().len() == NONCE_LEN
    }

    /// Takes a 32-byte key and a 12-byte nonce; other lengths are refused.
    pub fn new(key: Vec<u8>, nonce: Vec<u8>) -> (r: Result<Self, AeadError>)
        ensures
            key@.len() != KEY_LEN ==> r == Err::<Self, AeadError>(
                AeadError::InvalidKeyLength(key@.len() as usize),
            ),
            key@.len() == KEY_LEN && nonce@.len() != NONCE_LEN ==> r == Err::<Self, AeadError>(
                AeadError::InvalidNonceLength(nonce@.len() as usize),
            ),
            r is Ok <==> key@.len() == KEY_LEN && nonce@.len() == NONCE_LEN,
            r is Ok ==> r->Ok_0.wf() && r->Ok_0.key() == key@ && r->Ok_0.nonce() == nonce@,
    {
        if key.len() != KEY_LEN {
            return Err(AeadError::InvalidKeyLength(key.len()));
        }
        if nonce.len() != NONCE_LEN {
            return Err(AeadError::InvalidNonceLength(nonce.len()));
        }
        Ok(Aes256GcmEncryption { key, nonce })
    }

    /// Adds one to the nonce, its bytes read as a little-endian integer
    /// (lowest byte first, with carry); the largest value wraps to zero.
    pub fn increment_nonce(nonce: &mut [u8; 12])
        ensures
            final(nonce)@ == nonce_increment(old(nonce)@),
    {
        let ghost orig = nonce@;
        let mut i: usize = 0;
        assert(orig.subrange(0, 12) =~= orig);
        assert(Seq::new(0, |j: int| 0u8) + nonce_increment(orig) =~= nonce_increment(orig));
        while i < 12
            invariant
                i <= 12,
                nonce@.len() == 12,
                orig.len() == 12,
                orig == old(nonce)@,
                nonce_increment(orig) == Seq::new(i as nat, |j: int| 0u8) + nonce_increment(
                    orig.subrange(i as int, 12),
                ),
                forall|j: int| 0 <= j < i ==> nonce@[j] == 0,
                forall|j: int| i <= j < 12 ==> nonce@[j] == orig[j],
            decreases 12 - i,
        {
            let ghost rest = orig.subrange(i as int, 12);
            assert(rest.drop_first() =~= orig.subrange(i + 1, 12));
            let b = nonce[i];
            if b != 255 {
                nonce[i] = b + 1;
                assert(nonce@ =~= Seq::new(i as nat, |j: int| 0u8) + nonce_increment(rest));
                return;
            }
            nonce[i] = 0;
            assert(Seq::new(i as nat, |j: int| 0u8) + (seq![0u8] + nonce_increment(rest.drop_first()))
                =~= Seq::new((i + 1) as nat, |j: int| 0u8) + nonce_increment(rest.drop_first()));
            i += 1;
        }
        assert(orig.subrange(12, 12) =~= Seq::<u8>::empty());
        assert(nonce@ =~= Seq::new(12, |j: int| 0u8));
    }

    /// Seals `plaintext` under the stored key and nonce.
    pub fn encrypt(&self, plaintext: &[u8]) -> (r: Result<Vec<u8>, AeadError>)
        requires
            self.wf(),
        ensures
            r is Ok <==> plaintext@.len() <= MAX_PLAINTEXT,
            r is Ok ==> r->Ok_0@ == aes_gcm_seal(self.key(), self.nonce(), plaintext@),
            r is Ok ==> r->Ok_0@.len() == plaintext@.len() + TAG_LEN,
            r is Err ==> r == Err::<Vec<u8>, AeadError>(AeadError::MessageTooLong),
    {
        match gcm_seal(self.key.as_slice(), self.nonce.as_slice(), plaintext) {
            Some(ct) => Ok(ct),
            None => Err(AeadError::MessageTooLong),
        }
    }

    /// Opens `ciphertext` under the stored key and nonce.
    pub fn decrypt(&self, ciphertext: &[u8]) -> (r: Result<Vec<u8>, AeadError>)
        requires
            self.wf(),
        ensures
            ciphertext@.len() > MAX_PLAINTEXT + TAG_LEN ==> r == Err::<Vec<u8>, AeadError>(
                AeadError::MessageTooLong,
            ),
            ciphertext@.len() <= MAX_PLAINTEXT + TAG_LEN ==> match aes_gcm_open(
                self.key(),
                self.nonce(),
                ciphertext@,
            ) {
                Some(p) => r is Ok && r->Ok_0@ == p,
                None => r == Err::<Vec<u8>, AeadError>(AeadError::AuthFailed),
            },
            ciphertext@.len() <= MAX_PLAINTEXT + TAG_LEN ==> forall|p: Seq<u8>|
                p.len() <= MAX_PLAINTEXT && #[trigger] aes_gcm_seal(self.key(), self.nonce(), p)
                    == ciphertext@ ==> r is Ok && r->Ok_0@ == p,
    {
        if ciphertext.len() as u64 > MAX_PLAINTEXT + TAG_LEN as u64 {
            return Err(AeadError::MessageTooLong);
        }
        match gcm_open(self.key.as_slice(), self.nonce.as_slice(), ciphertext) {
            Some(p) => Ok(p),
            None => Err(AeadError::AuthFailed),
        }
    }

    /// Seals `plaintext` under `session_key` and the stored nonce.
    pub fn encrypt_with_key(&self, plaintext: &[u8], session_key: &[u8]) -> (r: Result<Vec<u8>, AeadError>)
        requires
            self.wf(),
        ensures
            session_key@.len() != KEY_LEN ==> r == Err::<Vec<u8>, AeadError>(
                AeadError::InvalidKeyLength(session_key@.len() as usize),
            ),
            session_key@.len() == KEY_LEN ==> (r is Ok <==> plaintext@.len() <= MAX_PLAINTEXT),
            r is Ok ==> r->Ok_0@ == aes_gcm_seal(session_key@, self.nonce(), plaintext@),
            r is Ok ==> r->Ok_0@.len() == plaintext@.len() + TAG_LEN,
    {
        if session_key.len() != KEY_LEN {
            return Err(AeadError::InvalidKeyLength(session_key.len()));
        }
        match gcm_seal(session_key, self.nonce.as_slice(), plaintext) {
            Some(ct) => Ok(ct),
            None => Err(AeadError::MessageTooLong),
        }
    }

    /// Opens `ciphertext` under `session_key` and the stored nonce.
    pub fn decrypt_with_key(&self, ciphertext: &[u8], session_key: &[u8]) -> (r: Result<Vec<u8>, AeadError>)
        requires
            self.wf(),
        ensures
            session_key@.len() != KEY_LEN ==> r == Err::<Vec<u8>, AeadError>(
                AeadError::InvalidKeyLength(session_key@.len() as usize),
            ),
            session_key@.len() == KEY_LEN && ciphertext@.len() > MAX_PLAINTEXT + TAG_LEN ==> r
                == Err::<Vec<u8>, AeadError>(AeadError::MessageTooLong),
            session_key@.len() == KEY_LEN && ciphertext@.len() <= MAX_PLAINTEXT + TAG_LEN ==> match aes_gcm_open(
                session_key@,
                self.nonce(),
                ciphertext@,
            ) {
                Some(p) => r is Ok && r->Ok_0@ == p,
                None => r == Err::<Vec<u8>, AeadError>(AeadError::AuthFailed),
            },
    {
        if session_key.len() != KEY_LEN {
            return Err(AeadError::InvalidKeyLength(session_key.len()));
        }
        if ciphertext.len() as u64 > MAX_PLAINTEXT + TAG_LEN as u64 {
            return Err(AeadError::MessageTooLong);
        }
        match gcm_open(session_key, self.nonce.as_slice(), ciphertext) {
            Some(p) => Ok(p),
            None => Err(AeadError::AuthFailed),
        }
    }

    /// Seals `input` as a stream of frames under `key`, starting from
    /// `nonce`. Fails only on a key other than 32 bytes or a nonce other
    /// than 12.
    pub fn encrypt_stream(&self, input: &[u8], key: &[u8], nonce: &[u8]) -> (r: Result<Vec<u8>, AeadError>)
        ensures
            nonce@.len() != NONCE_LEN ==> r == Err::<Vec<u8>, AeadError>(
                AeadError::InvalidNonceLength(nonce@.len() as usize),
            ),
            nonce@.len() == NONCE_LEN && key@.len() != KEY_LEN ==> r == Err::<Vec<u8>, AeadError>(
                AeadError::InvalidKeyLength(key@.len() as usize),
            ),
            r is Ok <==> key@.len() == KEY_LEN && nonce@.len() == NONCE_LEN,
            r is Ok ==> r->Ok_0@ == frames(key@, nonce@, input@),
            r is Ok ==> seals_fit(key@, nonce@, input@),
            r is Ok ==> r->Ok_0@.len() == framed_len(input@.len()),
    {
        if nonce.len() != NONCE_LEN {
            return Err(AeadError::InvalidNonceLength(nonce.len()));
        }
        if key.len() != KEY_LEN {
            return Err(AeadError::InvalidKeyLength(key.len()));
        }
        let mut n: [u8; 12] = [0u8; 12];
        let mut j: usize = 0;
        while j < 12
            invariant
                j <= 12,
                nonce@.len() == 12,
                n@.len() == 12,
                forall|t: int| 0 <= t < j ==> n@[t] == nonce@[t],
            decreases 12 - j,
        {
            n[j] = nonce[j];
            j += 1;
        }
        assert(n@ =~= nonce@);
        let mut out: Vec<u8> = Vec::new();
        let mut pos: usize = 0;
        assert(input@.subrange(0, input@.len() as int) =~= input@);
        assert(out@ + frames(key@, n@, input@) =~= frames(key@, n@, input@));
        while pos < input.len()
            invariant
                pos <= input@.len(),
                key@.len() == KEY_LEN,
                n@.len() == 12,
                out@ + frames(key@, n@, input@.subrange(pos as int, input@.len() as int)) == frames(
                    key@,
                    nonce@,
                    input@,
                ),
                out@.len() + framed_len((input@.len() - pos) as nat) == framed_len(input@.len()),
                seals_fit(key@, n@, input@.subrange(pos as int, input@.len() as int)) ==> seals_fit(
                    key@,
                    nonce@,
                    input@,
                ),
            decreases input@.len() - pos,
        {
            let ghost rest = input@.subrange(pos as int, input@.len() as int);
            let end: usize = if input.len() - pos < CHUNK_LEN {
                input.len()
            } else {
                pos + CHUNK_LEN
            };
            let chunk = vstd::slice::slice_subrange(input, pos, end);
            assert(chunk@ =~= rest.subrange(0, chunk_len(rest)));
            assert(input@.subrange(end as int, input@.len() as int) =~= rest.subrange(
                chunk_len(rest),
                rest.len() as int,
            ));
            let ct = match gcm_seal(key, n.as_slice(), chunk) {
                Some(ct) => ct,
                None => {
                    return Err(AeadError::MessageTooLong);
                },
            };
            let len = ct.len() as u32;
            let ghost before = out@;
            let ghost ctv = ct@;
            let ghost n_old = n@;
            push_be32(&mut out, len);
            let mut body = ct;
            out.append(&mut body);
            Self::increment_nonce(&mut n);
            pos = end;
            proof {
                let tail = frames(key@, n@, input@.subrange(pos as int, input@.len() as int));
                assert(frames(key@, n_old, rest) == be32(len) + ctv + tail);
                assert(out@ + tail =~= before + (be32(len) + ctv + tail));
                assert(seals_fit(key@, n_old, rest) == (ctv.len() == chunk_len(rest) + TAG_LEN
                    && seals_fit(key@, n@, input@.subrange(pos as int, input@.len() as int))));
                assert(framed_len(rest.len()) == 4 + chunk_len(rest) + TAG_LEN + framed_len(
                    (input@.len() - pos) as nat,
                ));
            }
        }
        assert(input@.subrange(pos as int, input@.len() as int) =~= Seq::<u8>::empty());
        push_be32(&mut out, 0);
        Ok(out)
    }

    /// Reads a stream of frames sealed under `key` from `nonce`, giving the
    /// plaintext. A zero length, or input ending before a length prefix,
    /// ends it; a frame cut short fails with `Truncated`, one that does not
    /// authenticate with `AuthFailed`.
    pub fn decrypt_stream(&self, input: &[u8], key: &[u8], nonce: &[u8]) -> (r: Result<Vec<u8>, AeadError>)
        ensures
            nonce@.len() != NONCE_LEN ==> r == Err::<Vec<u8>, AeadError>(
                AeadError::InvalidNonceLength(nonce@.len() as usize),
            ),
            nonce@.len() == NONCE_LEN && key@.len() != KEY_LEN ==> r == Err::<Vec<u8>, AeadError>(
                AeadError::InvalidKeyLength(key@.len() as usize),
            ),
            key@.len() == KEY_LEN && nonce@.len() == NONCE_LEN ==> match unframe(key@, nonce@, input@) {
                Ok(p) => r is Ok && r->Ok_0@ == p,
                Err(e) => r == Err::<Vec<u8>, AeadError>(e),
            },
    {
        if nonce.len() != NONCE_LEN {
            return Err(AeadError::InvalidNonceLength(nonce.len()));
        }
        if key.len() != KEY_LEN {
            return Err(AeadError::InvalidKeyLength(key.len()));
        }
        let mut n: [u8; 12] = [0u8; 12];
        let mut j: usize = 0;
        while j < 12
            invariant
                j <= 12,
                nonce@.len() == 12,
                n@.len() == 12,
                forall|t: int| 0 <= t < j ==> n@[t] == nonce@[t],
            decreases 12 - j,
        {
            n[j] = nonce[j];
            j += 1;
        }
        assert(n@ =~= nonce@);
        let mut out: Vec<u8> = Vec::new();
        let mut pos: usize = 0;
        assert(input@.subrange(0, input@.len() as int) =~= input@);
        proof {
            match unframe(key@, nonce@, input@) {
                Ok(q) => {
                    assert(out@ + q =~= q);
                },
                Err(_) => {},
            }
        }
        loop
            invariant
                pos <= input@.len(),
                key@.len() == KEY_LEN,
                nonce@.len() == NONCE_LEN,
                n@.len() == 12,
                match unframe(key@, nonce@, input@) {
                    Ok(p) => match unframe(key@, n@, input@.subrange(pos as int, input@.len() as int)) {
                        Ok(q) => p == out@ + q,
                        Err(_) => false,
                    },
                    Err(e) => unframe(key@, n@, input@.subrange(pos as int, input@.len() as int))
                        == Err::<Seq<u8>, AeadError>(e),
                },
            decreases input@.len() - pos,
        {
            let ghost rest = input@.subrange(pos as int, input@.len() as int);
            if input.len() - pos < 4 {
                assert(out@ + Seq::<u8>::empty() =~= out@);
                return Ok(out);
            }
            let len: u64 = input[pos] as u64 * 0x1000000 + input[pos + 1] as u64 * 0x10000
                + input[pos + 2] as u64 * 0x100 + input[pos + 3] as u64;
            assert(len == read_be32(rest));
            if len == 0 {
                assert(out@ + Seq::<u8>::empty() =~= out@);
                return Ok(out);
            }
            if ((input.len() - pos - 4) as u64) < len {
                return Err(AeadError::Truncated);
            }
            let start: usize = pos + 4;
            let end: usize = start + len as usize;
            let ct = vstd::slice::slice_subrange(input, start, end);
            assert(ct@ =~= rest.subrange(4, 4 + len));
            assert(input@.subrange(end as int, input@.len() as int) =~= rest.subrange(
                4 + len,
                rest.len() as int,
            ));
            let p = match gcm_open(key, n.as_slice(), ct) {
                Some(p) => p,
                None => {
                    return Err(AeadError::AuthFailed);
                },
            };
            let ghost before = out@;
            let ghost pv = p@;
            let ghost n_old = n@;
            let mut body = p;
            out.append(&mut body);
            Self::increment_nonce(&mut n);
            pos = end;
            proof {
                let rest2 = input@.subrange(pos as int, input@.len() as int);
                assert(unframe(key@, n_old, rest) == match unframe(key@, n@, rest2) {
                    Ok(q) => Ok(pv + q),
                    Err(e) => Err(e),
                });
                match unframe(key@, n@, rest2) {
                    Ok(q) => {
                        assert(before + (pv + q) =~= out@ + q);
                    },
                    Err(_) => {},
                }
            }
        }
    }
}

/// Appends `x` as four big-endian bytes.
fn push_be32(out: &mut Vec<u8>, x: u32)
    ensures
        final(out)@ == old(out)@ + be32(x),
{
    out.push((x / 0x1000000) as u8);
    out.push(((x / 0x10000) % 0x100) as u8);
    out.push(((x / 0x100) % 0x100) as u8);
    out.push((x % 0x100) as u8);
    assert(out@ =~= old(out)@ + be32(x));
}

} // verus!
