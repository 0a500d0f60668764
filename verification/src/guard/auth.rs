use hmac::{Hmac, Mac};
use sha2::Sha256;
use vstd::prelude::*;
use crate::base::error::Error;
use crate::base::link::Guardable;

verus! {

/// The length of a signature, in bytes.
pub const SIGNATURE_LENGTH: usize = 32;

/// The HMAC-SHA256 code of `data` under `key`.
pub uninterp spec fn hmac_sha256(key: Seq<u8>, data: Seq<u8>) -> Seq<u8>;

/// Computes the HMAC-SHA256 code of `data` under `key` with the `hmac` and
/// `sha2` crates: `Hmac::<Sha256>::new_from_slice`, which takes a key of any
/// length, then `update` with the data and `finalize`. The code depends on
/// the key and the data alone and is 32 bytes long.
#[verifier::external_body]
fn hmac_sha256_code(key: &[u8], data: &[u8]) -> (code: Vec<u8>)
    ensures
        code@ == hmac_sha256(key@, data@),
        code@.len() == SIGNATURE_LENGTH,
{
    let mut mac = Hmac::<Sha256>::new_from_slice(key).expect("HMAC can take key of any size");
    mac.update(data);
    mac.finalize().into_bytes().to_vec()
}

/// The signing stage: it puts a signature in front of the data, and takes it
/// off again when it matches.
pub struct Auth {
    key: Vec<u8>,
}

impl Auth {
    /// The key that the stage signs with.
    pub closed spec fn secret(&self) -> Seq<u8> {
        self.key@
    }

    /// The signature of `data` under the stage's key.
    pub open spec fn signature(&self, data: Seq<u8>) -> Seq<u8> {
        hmac_sha256(self.secret(), data)
    }

    /// A signing stage with `key`.
    pub fn new(key: &[u8]) -> (auth: Auth)
        ensures
            auth.secret() == key@,
    {
        Auth { key: vstd::slice::slice_to_vec(key) }
    }

    /// The signature of `data`.
    pub fn compute_hmac(&self, data: &[u8]) -> (code: Vec<u8>)
        ensures
            code@ == self.signature(data@),
            code@.len() == SIGNATURE_LENGTH,
    {
        hmac_sha256_code(self.key.as_slice(), data)
    }

    /// Whether `signature` is the signature of `data`. Every byte is compared,
    /// wherever the first difference is.
    pub fn verify_hmac(&self, data: &[u8], signature: &[u8]) -> (same: bool)
        ensures
            same == (signature@ == self.signature(data@)),
    {
        let computed = self.compute_hmac(data);
        if computed.len() != signature.len() {
            return false;
        }
        let mut result: u8 = 0;
        let mut i: usize = 0;
        while i < computed.len()
            invariant
                i <= computed@.len(),
                computed@.len() == signature@.len(),
                result == 0 <==> forall|j: int| 0 <= j < i ==> computed@[j] == signature@[j],
            decreases computed@.len() - i,
        {
            let a: u8 = computed[i];
            let b: u8 = signature[i];
            assert(((result | (a ^ b)) == 0u8) <==> (result == 0u8 && a == b)) by (bit_vector);
            result = result | (a ^ b);
            i += 1;
        }
        assert(result == 0 <==> signature@ =~= computed@);
        result == 0
    }
}

impl Guardable for Auth {
    /// `protect` always succeeds, with the signature and then the data.
    open spec fn protects(&self, data: Seq<u8>, out: Result<Seq<u8>, Error>) -> bool {
        &&& out matches Ok(protected)
        &&& protected == self.signature(data) + data
        &&& self.signature(data).len() == SIGNATURE_LENGTH
    }

    /// `expose` fails on data shorter than a signature, and on data whose
    /// first 32 bytes are not the signature of the rest; otherwise it gives
    /// the rest.
    open spec fn exposes(&self, data: Seq<u8>, out: Result<Seq<u8>, Error>) -> bool {
        if data.len() < SIGNATURE_LENGTH {
            out matches Err(Error::Guard(m)) && m@ == "data too short for signature"@
        } else {
            let signature = data.subrange(0, SIGNATURE_LENGTH as int);
            let content = data.subrange(SIGNATURE_LENGTH as int, data.len() as int);
            if signature == self.signature(content) {
                out == Ok::<Seq<u8>, Error>(content)
            } else {
                out matches Err(Error::Guard(m)) && m@ == "invalid signature"@
            }
        }
    }

    fn protect(&self, data: &[u8]) -> (out: Result<Vec<u8>, Error>) {
        let signature = self.compute_hmac(data);
        let mut protected: Vec<u8> = Vec::new();
        protected.extend_from_slice(signature.as_slice());
        protected.extend_from_slice(data);
        assert(protected@ =~= self.signature(data@) + data@);
        Ok(protected)
    }

    fn expose(&self, data: &[u8]) -> (out: Result<Vec<u8>, Error>) {
        if data.len() < SIGNATURE_LENGTH {
            return Err(Error::Guard("data too short for signature".to_string()));
        }
        let (signature, content) = data.split_at(SIGNATURE_LENGTH);
        if !self.verify_hmac(content, signature) {
            return Err(Error::Guard("invalid signature".to_string()));
        }
        Ok(vstd::slice::slice_to_vec(content))
    }
}

/// What was protected comes back: `expose` of what `protect` gave for `data`
/// succeeds with `data`, and with nothing else.
pub proof fn lemma_auth_round_trip(
    auth: Auth,
    data: Seq<u8>,
    protected: Seq<u8>,
    out: Result<Seq<u8>, Error>,
)
    requires
        auth.protects(data, Ok(protected)),
        auth.exposes(protected, out),
    ensures
        out == Ok::<Seq<u8>, Error>(data),
        protected.len() == data.len() + SIGNATURE_LENGTH,
{
    let cut = SIGNATURE_LENGTH as int;
    assert(protected.subrange(0, cut) == auth.signature(data));
    assert(protected.subrange(cut, protected.len() as int) == data);
}

/// A change in the signature is found: data that differs from protected
/// data, and only within the first 32 bytes, is refused by `expose`.
pub proof fn lemma_auth_refuses_other_signature(
    auth: Auth,
    data: Seq<u8>,
    protected: Seq<u8>,
    changed: Seq<u8>,
    out: Result<Seq<u8>, Error>,
)
    requires
        auth.protects(data, Ok(protected)),
        changed.len() == protected.len(),
        changed != protected,
        forall|i: int| SIGNATURE_LENGTH <= i < protected.len() ==> changed[i] == protected[i],
        auth.exposes(changed, out),
    ensures
        out matches Err(Error::Guard(m)) && m@ == "invalid signature"@,
{
    let cut = SIGNATURE_LENGTH as int;
    let end = protected.len() as int;
    assert(protected.subrange(0, cut) == auth.signature(data));
    assert(protected.subrange(cut, end) == data);
    assert(changed.subrange(cut, end) == data);
    if changed.subrange(0, cut) == auth.signature(data) {
        assert(changed =~= protected);
    }
}

/// `expose` accepts exactly the data that carries the signature of its
/// content: whatever else was changed, data is accepted only where the first
/// 32 bytes are the code of the rest under the stage's key.
pub proof fn lemma_auth_accepts_only_signed(auth: Auth, data: Seq<u8>, out: Result<Seq<u8>, Error>)
    requires
        auth.exposes(data, out),
    ensures
        out is Ok <==> {
            &&& data.len() >= SIGNATURE_LENGTH
            &&& data.subrange(0, SIGNATURE_LENGTH as int) == auth.signature(
                data.subrange(SIGNATURE_LENGTH as int, data.len() as int),
            )
        },
{
}

} // verus!
