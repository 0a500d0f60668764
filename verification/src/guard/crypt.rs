use chacha20poly1305::aead::Aead;
use chacha20poly1305::{ChaCha20Poly1305, Key, KeyInit, Nonce};
use rand::{thread_rng, RngCore};
use vstd::prelude::*;
use crate::base::error::Error;
use crate::base::link::Guardable;

verus! {

/// The length of the cipher's key, in bytes.
pub const KEY_LENGTH: usize = 32;

/// The length of a nonce, in bytes.
pub const NONCE_LENGTH: usize = 12;

/// The length of the authentication tag that ends a ciphertext, in bytes.
pub const TAG_LENGTH: usize = 16;

/// The number of 64-byte blocks from which on the cipher refuses a message.
pub const BLOCK_LIMIT: usize = 0xFFFF_FFFF;

/// What ChaCha20-Poly1305 makes of `plaintext` under `key` and `nonce`: the
/// ciphertext with its tag, or nothing where the cipher refuses.
pub uninterp spec fn chacha20poly1305_encrypt(
    key: Seq<u8>,
    nonce: Seq<u8>,
    plaintext: Seq<u8>,
) -> Option<Seq<u8>>;

/// What ChaCha20-Poly1305 makes of `ciphertext` under `key` and `nonce`: the
/// plaintext, or nothing where the ciphertext is not authentic.
pub uninterp spec fn chacha20poly1305_decrypt(
    key: Seq<u8>,
    nonce: Seq<u8>,
    ciphertext: Seq<u8>,
) -> Option<Seq<u8>>;

/// Whether a message of `length` bytes runs over the end of the keystream:
/// it fills all the whole blocks that the cipher has for a message, one less
/// than `BLOCK_LIMIT`, and goes on into one more. The cipher does not refuse
/// such a message; it panics on it.
pub open spec fn overruns(length: nat) -> bool {
    length / 64 == BLOCK_LIMIT - 1 && length % 64 != 0
}

/// Whether the stage encrypts a message of `length` bytes: it is shorter
/// than `BLOCK_LIMIT` blocks of 64 bytes, it does not run over the end of the
/// keystream, and a buffer can hold it with its tag.
pub open spec fn sealable(length: nat) -> bool {
    length / 64 < BLOCK_LIMIT && !overruns(length) && length + TAG_LENGTH <= isize::MAX
}

/// Whether a message of `length` bytes runs over the end of the keystream.
fn overrun(length: usize) -> (over: bool)
    ensures
        over == overruns(length as nat),
{
    length / 64 == BLOCK_LIMIT - 1 && length % 64 != 0
}

/// Encrypts with the `chacha20poly1305` crate: `ChaCha20Poly1305::new` on the
/// key, then `encrypt` of the `aead` crate with the nonce and no associated
/// data. The key must be 32 bytes and the nonce 12, or the crate panics, as
/// it does where the message and its tag are more than a buffer can hold,
/// and where the message runs over the end of the keystream. The cipher
/// refuses a message of `BLOCK_LIMIT` blocks of 64 bytes or more, and no
/// other; the ciphertext is 16 bytes longer than the message. A refusal
/// comes back as the words that the crate's error shows, always the same.
#[verifier::external_body]
fn encrypt(key: &[u8], nonce: &[u8], plaintext: &[u8]) -> (out: Result<Vec<u8>, String>)
    requires
        key@.len() == KEY_LENGTH,
        nonce@.len() == NONCE_LENGTH,
        plaintext@.len() + TAG_LENGTH <= isize::MAX,
        !overruns(plaintext@.len()),
    ensures
        match out {
            Ok(ciphertext) => {
                &&& chacha20poly1305_encrypt(key@, nonce@, plaintext@) == Some(ciphertext@)
                &&& ciphertext@.len() == plaintext@.len() + TAG_LENGTH
            },
            Err(text) => {
                &&& chacha20poly1305_encrypt(key@, nonce@, plaintext@) is None
                &&& text@ == "aead::Error"@
            },
        },
        out is Ok <==> plaintext@.len() / 64 < BLOCK_LIMIT,
{
    match ChaCha20Poly1305::new(Key::from_slice(key)).encrypt(Nonce::from_slice(nonce), plaintext) {
        Ok(ciphertext) => Ok(ciphertext),
        Err(e) => Err(e.to_string()),
    }
}

/// Decrypts with the `chacha20poly1305` crate: `ChaCha20Poly1305::new` on the
/// key, then `decrypt` of the `aead` crate with the nonce and no associated
/// data. The key must be 32 bytes and the nonce 12, or the crate panics, as
/// it may where the message in the ciphertext, which is all but the 16 bytes
/// of the tag, runs over the end of the keystream. A plaintext that comes
/// out is 16 bytes shorter than the ciphertext, and what was encrypted under
/// the same key and nonce comes out as it went in. A refusal comes back as
/// the words that the crate's error shows, always the same.
#[verifier::external_body]
fn decrypt(key: &[u8], nonce: &[u8], ciphertext: &[u8]) -> (out: Result<Vec<u8>, String>)
    requires
        key@.len() == KEY_LENGTH,
        nonce@.len() == NONCE_LENGTH,
        ciphertext@.len() >= TAG_LENGTH ==> !overruns((ciphertext@.len() - TAG_LENGTH) as nat),
    ensures
        match out {
            Ok(plaintext) => {
                &&& chacha20poly1305_decrypt(key@, nonce@, ciphertext@) == Some(plaintext@)
                &&& plaintext@.len() + TAG_LENGTH == ciphertext@.len()
                &&& forall|sent: Seq<u8>| #[trigger]
                    chacha20poly1305_encrypt(key@, nonce@, sent) == Some(ciphertext@) ==> sent
                        == plaintext@
            },
            Err(text) => {
                &&& chacha20poly1305_decrypt(key@, nonce@, ciphertext@) is None
                &&& text@ == "aead::Error"@
                &&& forall|sent: Seq<u8>| #[trigger]
                    chacha20poly1305_encrypt(key@, nonce@, sent) != Some(ciphertext@)
            },
        },
{
    match ChaCha20Poly1305::new(Key::from_slice(key)).decrypt(Nonce::from_slice(nonce), ciphertext) {
        Ok(plaintext) => Ok(plaintext),
        Err(e) => Err(e.to_string()),
    }
}

/// The key that the cipher gets: the first 32 bytes of `key`, with zeros
/// after them where `key` is shorter.
pub open spec fn fixed_key(key: Seq<u8>) -> Seq<u8> {
    Seq::new(
        KEY_LENGTH as nat,
        |i: int|
            if i < key.len() {
                key[i]
            } else {
                0u8
            },
    )
}

/// The encryption stage: it encrypts the data under a fresh nonce, which it
/// puts in front, and decrypts what carries its nonce in front.
pub struct Crypt {
    key: Vec<u8>,
}

impl Crypt {
    #[verifier::type_invariant]
    spec fn keyed(&self) -> bool {
        self.key@.len() == KEY_LENGTH
    }

    /// The key that the cipher gets.
    pub closed spec fn secret(&self) -> Seq<u8> {
        self.key@
    }

    /// An encryption stage with `key`, cut or filled with zeros to 32 bytes.
    pub fn new(key: &[u8]) -> (crypt: Crypt)
        ensures
            crypt.secret() == fixed_key(key@),
    {
        let mut fixed: Vec<u8> = Vec::new();
        let mut i: usize = 0;
        while i < KEY_LENGTH
            invariant
                i <= KEY_LENGTH,
                fixed@.len() == i,
                forall|j: int| 0 <= j < i ==> fixed@[j] == fixed_key(key@)[j],
            decreases KEY_LENGTH - i,
        {
            if i < key.len() {
                fixed.push(key[i]);
            } else {
                fixed.push(0u8);
            }
            i += 1;
        }
        assert(fixed@ =~= fixed_key(key@));
        Crypt { key: fixed }
    }

    /// A nonce from the thread's random generator of the `rand` crate:
    /// `thread_rng`, then `fill_bytes` on 12 bytes. Nothing is claimed of the
    /// bytes. Where the system gives the generator no seed, `rand` panics.
    #[verifier::external_body]
    fn generate_nonce() -> (nonce: [u8; 12]) {
        let mut nonce = [0u8; 12];
        thread_rng().fill_bytes(&mut nonce);
        nonce
    }

    /// What `protect` gives for `data` when it drew `nonce`: the nonce and
    /// then the ciphertext, or the cipher's refusal.
    pub open spec fn sealed(&self, nonce: Seq<u8>, data: Seq<u8>, out: Result<Seq<u8>, Error>) -> bool {
        match out {
            Ok(protected) => {
                &&& chacha20poly1305_encrypt(self.secret(), nonce, data) matches Some(ciphertext)
                &&& protected == nonce + ciphertext
                &&& ciphertext.len() == data.len() + TAG_LENGTH
            },
            Err(e) => {
                &&& !sealable(data.len())
                &&& e matches Error::Guard(m)
                &&& m@ == "aead::Error"@
            },
        }
    }

    /// Encrypts `data` under `nonce`, and puts the nonce in front. Data that
    /// the stage does not encrypt for its length is refused, and no other:
    /// what the cipher refuses, and what it would panic on.
    pub fn protect_with(&self, nonce: &[u8; 12], data: &[u8]) -> (out: Result<Vec<u8>, Error>)
        ensures
            self.sealed(nonce@, data@, crate::base::link::outcome(out)),
            out is Ok <==> sealable(data@.len()),
    {
        proof {
            use_type_invariant(self);
        }
        if data.len() > (isize::MAX as usize) - TAG_LENGTH || overrun(data.len()) {
            return Err(Error::Guard("aead::Error".to_string()));
        }
        match encrypt(self.key.as_slice(), nonce.as_slice(), data) {
            Ok(ciphertext) => {
                let mut protected: Vec<u8> = Vec::new();
                protected.extend_from_slice(nonce.as_slice());
                protected.extend_from_slice(ciphertext.as_slice());
                assert(protected@ =~= nonce@ + ciphertext@);
                Ok(protected)
            },
            Err(text) => Err(Error::Guard(text)),
        }
    }
}

impl Guardable for Crypt {
    /// `protect` succeeds on all data that the stage encrypts for its length,
    /// with some nonce of 12 bytes and then the ciphertext of the data under
    /// that nonce.
    open spec fn protects(&self, data: Seq<u8>, out: Result<Seq<u8>, Error>) -> bool {
        &&& out is Ok <==> sealable(data.len())
        &&& exists|nonce: Seq<u8>| nonce.len() == NONCE_LENGTH && #[trigger] self.sealed(nonce, data, out)
    }

    /// `expose` fails on data shorter than a nonce, and on a ciphertext whose
    /// message runs over the end of the keystream. Otherwise it decrypts what
    /// follows the first 12 bytes under them as the nonce, and fails where
    /// the cipher finds it not authentic. What was encrypted under this key
    /// and nonce comes out as it went in.
    open spec fn exposes(&self, data: Seq<u8>, out: Result<Seq<u8>, Error>) -> bool {
        if data.len() < NONCE_LENGTH {
            out matches Err(Error::Guard(m)) && m@ == "invalid data length"@
        } else if data.len() >= NONCE_LENGTH + TAG_LENGTH && overruns(
            (data.len() - NONCE_LENGTH - TAG_LENGTH) as nat,
        ) {
            out matches Err(Error::Guard(m)) && m@ == "aead::Error"@
        } else {
            let nonce = data.subrange(0, NONCE_LENGTH as int);
            let ciphertext = data.subrange(NONCE_LENGTH as int, data.len() as int);
            &&& match out {
                Ok(plaintext) => {
                    &&& chacha20poly1305_decrypt(self.secret(), nonce, ciphertext) == Some(plaintext)
                    &&& plaintext.len() + TAG_LENGTH == ciphertext.len()
                },
                Err(e) => {
                    &&& chacha20poly1305_decrypt(self.secret(), nonce, ciphertext) is None
                    &&& e matches Error::Guard(m)
                    &&& m@ == "aead::Error"@
                },
            }
            &&& forall|plaintext: Seq<u8>| #[trigger]
                chacha20poly1305_encrypt(self.secret(), nonce, plaintext) == Some(ciphertext)
                    ==> out == Ok::<Seq<u8>, Error>(plaintext)
        }
    }

    fn protect(&self, data: &[u8]) -> (out: Result<Vec<u8>, Error>) {
        let nonce = Self::generate_nonce();
        let out = self.protect_with(&nonce, data);
        assert(nonce@.len() == NONCE_LENGTH);
        assert(self.sealed(nonce@, data@, crate::base::link::outcome(out)));
        out
    }

    fn expose(&self, data: &[u8]) -> (out: Result<Vec<u8>, Error>) {
        proof {
            use_type_invariant(self);
        }
        if data.len() < NONCE_LENGTH {
            return Err(Error::Guard("invalid data length".to_string()));
        }
        let (nonce, ciphertext) = data.split_at(NONCE_LENGTH);
        if ciphertext.len() >= TAG_LENGTH && overrun(ciphertext.len() - TAG_LENGTH) {
            return Err(Error::Guard("aead::Error".to_string()));
        }
        match decrypt(self.key.as_slice(), nonce, ciphertext) {
            Ok(plaintext) => Ok(plaintext),
            Err(text) => Err(Error::Guard(text)),
        }
    }
}

/// What was protected comes back: `expose` of what `protect` gave for `data`
/// succeeds with `data`, and with nothing else. What `protect` gave is 28
/// bytes longer than the data: the nonce and the tag.
pub proof fn lemma_crypt_round_trip(
    crypt: Crypt,
    data: Seq<u8>,
    protected: Seq<u8>,
    out: Result<Seq<u8>, Error>,
)
    requires
        crypt.protects(data, Ok(protected)),
        crypt.exposes(protected, out),
    ensures
        out == Ok::<Seq<u8>, Error>(data),
        protected.len() == data.len() + NONCE_LENGTH + TAG_LENGTH,
{
    let nonce = choose|nonce: Seq<u8>|
        nonce.len() == NONCE_LENGTH && #[trigger] crypt.sealed(nonce, data, Ok(protected));
    let ciphertext = chacha20poly1305_encrypt(crypt.secret(), nonce, data)->0;
    let cut = NONCE_LENGTH as int;
    assert(protected.subrange(0, cut) == nonce);
    assert(protected.subrange(cut, protected.len() as int) == ciphertext);
}

} // verus!
