//! The Ed25519 signing keypair: construction from a seed, pickling under
//! AES-256-GCM, signing of raw messages and of canonical JSON, and
//! verification.

use vstd::prelude::*;

use crate::canonical::{
    assoc_insert, assoc_remove, assoc_remove_vec, assoc_sorted, canon_fields, json_sorted, Json,
};
use crate::codec::{
    b64_decode, b64_encode, decode, decode_url_safe, encode, encode_url_safe, lemma_b64_no_quote,
    lemma_b64_roundtrip, DecodeError,
};
use crate::crypto::{
    aes256gcm_ciphertext_of, aes256gcm_decrypt, aes256gcm_encrypt, aes256gcm_plaintext_of,
    ed25519_public_key, ed25519_public_of, ed25519_sig_of, ed25519_sign, ed25519_verifies,
    ed25519_verify, random_bytes,
};
use crate::envelope::{
    lemma_envelope_roundtrip, parse_envelope, parse_envelope_chars, render_envelope,
};

verus! {

/// Errors of the canonical-JSON signing operations.
#[derive(Clone, Copy, PartialEq, Eq, Structural, Debug)]
pub enum SignatureError {
    /// The value handed to `sign_json` is not a JSON object.
    NotAnObject,
    /// The signature did not verify, or could not be decoded.
    VerificationError,
}

/// Errors of pickling and restoring.
#[derive(Clone, Copy, PartialEq, Eq, Structural, Debug)]
pub enum SigningError {
    /// A base64 field of the envelope failed to decode.
    Decode(DecodeError),
    /// Decryption failed: the key is wrong or the data was altered, and
    /// the two are indistinguishable by design.
    Decryption,
    /// The envelope is not well-formed version-1 JSON.
    Json,
    /// A seed that is not exactly 32 bytes.
    InvalidSeed,
}

/// A base64 view over public key bytes; equal exactly when the encoded
/// characters are equal, which for one fixed alphabet is byte equality.
pub struct EncodedPublicKey(String);

impl View for EncodedPublicKey {
    type V = Seq<char>;

    closed spec fn view(&self) -> Seq<char> {
        self.0@
    }
}

impl EncodedPublicKey {
    /// The encoded characters.
    pub fn as_str(&self) -> (r: &str)
        ensures
            r@ == self@,
    {
        self.0.as_str()
    }

    /// The encoded characters, as an owned string.
    pub fn to_string(&self) -> (r: String)
        ensures
            r@ == self@,
    {
        self.0.clone()
    }

    /// Wraps already-encoded characters.
    pub(crate) fn wrap(s: String) -> (r: EncodedPublicKey)
        ensures
            r@ == s@,
    {
        EncodedPublicKey(s)
    }
}

impl PartialEq for EncodedPublicKey {
    fn eq(&self, other: &Self) -> (r: bool) {
        self.0 == other.0
    }
}

impl vstd::std_specs::cmp::PartialEqSpecImpl for EncodedPublicKey {
    open spec fn obeys_eq_spec() -> bool {
        true
    }

    open spec fn eq_spec(&self, other: &Self) -> bool {
        self@ == other@
    }
}

/// A base64 view over signature bytes.
pub struct EncodedSignature(String);

impl View for EncodedSignature {
    type V = Seq<char>;

    closed spec fn view(&self) -> Seq<char> {
        self.0@
    }
}

impl EncodedSignature {
    /// The encoded characters.
    pub fn as_str(&self) -> (r: &str)
        ensures
            r@ == self@,
    {
        self.0.as_str()
    }

    /// The encoded characters, as an owned string.
    pub fn to_string(&self) -> (r: String)
        ensures
            r@ == self@,
    {
        self.0.clone()
    }

    /// Wraps already-encoded characters.
    pub(crate) fn wrap(s: String) -> (r: EncodedSignature)
        ensures
            r@ == s@,
    {
        EncodedSignature(s)
    }

    /// Wraps a string that is supposed to hold an encoded signature, as
    /// one arrives from outside.
    pub fn from_string(s: String) -> (r: EncodedSignature)
        ensures
            r@ == s@,
    {
        EncodedSignature(s)
    }
}

/// The serialized pickle envelope of one keypair.
pub struct PickledSigning(String);

impl View for PickledSigning {
    type V = Seq<char>;

    closed spec fn view(&self) -> Seq<char> {
        self.0@
    }
}

impl PickledSigning {
    /// The envelope characters.
    pub fn as_str(&self) -> (r: &str)
        ensures
            r@ == self@,
    {
        self.0.as_str()
    }

    /// Wraps an envelope string, as read back from storage.
    pub fn from_string(s: String) -> (r: PickledSigning)
        ensures
            r@ == s@,
    {
        PickledSigning(s)
    }
}

/// The characters of the JSON field that holds signatures.
pub open spec fn sig_lit() -> Seq<char> {
    seq!['s', 'i', 'g', 'n', 'a', 't', 'u', 'r', 'e', 's']
}

/// The key string whose bindings `sign_json` never signs over.
pub fn signatures_key() -> (r: String)
    ensures
        r@ == sig_lit(),
{
    let s = "signatures";
    proof {
        reveal_strlit("signatures");
        assert(s@ =~= sig_lit());
    }
    s.to_owned()
}

/// What restoring makes of an envelope under a pickle key: the seed, if
/// the envelope parses, its fields decode, the nonce is 12 bytes, and
/// authenticated decryption accepts and yields 32 bytes.
pub open spec fn unpickle_seed(p: Seq<char>, key: Seq<u8>) -> Option<Seq<u8>> {
    match parse_envelope_chars(p) {
        None => None,
        Some(fields) => match (b64_decode(fields.0, true), b64_decode(fields.1, true)) {
            (Some(nonce), Some(ciphertext)) => if nonce.len() == 12 {
                match aes256gcm_plaintext_of(key, nonce, ciphertext) {
                    Some(seed) => if seed.len() == 32 {
                        Some(seed)
                    } else {
                        None
                    },
                    None => None,
                }
            } else {
                None
            },
            _ => None,
        },
    }
}

/// An Ed25519 keypair: the secret seed and the public key derived from
/// it once at construction.
pub struct Signing {
    seed: Vec<u8>,
    public_key: Vec<u8>,
}

impl Signing {
    /// The secret seed, as the contracts speak of it.
    pub closed spec fn seed_bytes(&self) -> Seq<u8> {
        self.seed@
    }

    /// The public key bytes, as the contracts speak of them.
    pub closed spec fn public_key_bytes(&self) -> Seq<u8> {
        self.public_key@
    }

    /// The keypair's invariant: a 32-byte seed, and the public key that
    /// Ed25519 derives from it.
    pub closed spec fn wf(&self) -> bool {
        &&& self.seed@.len() == 32
        &&& self.public_key@ == ed25519_public_of(self.seed@)
        &&& self.public_key@.len() == 32
    }

    /// The core constructor: derives the public key from a 32-byte seed.
    fn from_seed_checked(seed: Vec<u8>) -> (r: Signing)
        requires
            seed@.len() == 32,
        ensures
            r.wf(),
            r.seed_bytes() == seed@,
    {
        let public_key = ed25519_public_key(&seed);
        Signing { seed, public_key }
    }

    /// A fresh keypair from a cryptographically secure random seed.
    pub fn new() -> (r: Signing)
        ensures
            r.wf(),
    {
        let seed = random_bytes(32);
        Signing::from_seed_checked(seed)
    }

    /// The deterministic keypair of a seed; a seed that is not exactly 32
    /// bytes is rejected.
    pub fn from_seed(seed: Vec<u8>) -> (r: Result<Signing, SigningError>)
        ensures
            seed@.len() == 32 ==> (r matches Ok(s) && s.wf() && s.seed_bytes() == seed@),
            seed@.len() != 32 ==> r == Err::<Signing, SigningError>(SigningError::InvalidSeed),
    {
        if seed.len() != 32 {
            return Err(SigningError::InvalidSeed);
        }
        Ok(Signing::from_seed_checked(seed))
    }

    /// The public key, encoded with the standard base64 alphabet.
    pub fn public_key(&self) -> (r: EncodedPublicKey)
        requires
            self.wf(),
        ensures
            r@ == b64_encode(ed25519_public_of(self.seed_bytes()), false),
    {
        EncodedPublicKey::wrap(encode(&self.public_key))
    }

    /// Signs a message with the keypair's secret, encoding the signature
    /// with the standard base64 alphabet.  What it produces verifies
    /// under the keypair's public key.
    pub fn sign(&self, message: &str) -> (r: EncodedSignature)
        requires
            self.wf(),
        ensures
            r@ == b64_encode(ed25519_sig_of(self.seed_bytes(), message@), false),
            ed25519_sig_of(self.seed_bytes(), message@).len() == 64,
            ed25519_verifies(
                ed25519_public_of(self.seed_bytes()),
                message@,
                ed25519_sig_of(self.seed_bytes(), message@),
            ),
    {
        let sig = ed25519_sign(&self.seed, message);
        EncodedSignature::wrap(encode(&sig))
    }

    /// Verifies a signature over a message under this keypair's public
    /// key: accepts exactly when the signature decodes and Ed25519
    /// verification accepts it.
    pub fn verify(&self, message: &str, signature: &EncodedSignature) -> (r: Result<
        (),
        SignatureError,
    >)
        requires
            self.wf(),
        ensures
            r is Ok <==> (b64_decode(signature@, false) matches Some(sb) && ed25519_verifies(
                ed25519_public_of(self.seed_bytes()),
                message@,
                sb,
            )),
            r is Err ==> r == Err::<(), SignatureError>(SignatureError::VerificationError),
    {
        let sig_bytes = match decode(signature.as_str()) {
            Ok(b) => b,
            Err(_) => {
                return Err(SignatureError::VerificationError);
            },
        };
        if ed25519_verify(&self.public_key, message, &sig_bytes) {
            Ok(())
        } else {
            Err(SignatureError::VerificationError)
        }
    }

    /// Signs a JSON object under the canonical-JSON contract: the
    /// `signatures` field is removed, the rest is serialized
    /// deterministically, and those characters are signed.  A value that
    /// is not an object is rejected.  The value must carry its objects in
    /// sorted key order, the invariant of this representation, so that
    /// what is signed is the recursively key-sorted serialization.
    pub fn sign_json(&self, json: Json) -> (r: Result<EncodedSignature, SignatureError>)
        requires
            self.wf(),
            json_sorted(json),
        ensures
            json matches Json::Obj(fields) ==> (r matches Ok(sig) && sig@ == b64_encode(
                ed25519_sig_of(
                    self.seed_bytes(),
                    seq!['{'] + canon_fields(assoc_remove(fields@, sig_lit())) + seq!['}'],
                ),
                false,
            )),
            !(json is Obj) ==> r == Err::<EncodedSignature, SignatureError>(
                SignatureError::NotAnObject,
            ),
    {
        match json {
            Json::Obj(mut fields) => {
                let key = signatures_key();
                assoc_remove_vec(&mut fields, &key);
                let value = Json::Obj(fields);
                let message = crate::canonical::to_canonical_string(&value);
                Ok(self.sign(message.as_str()))
            },
            _ => Err(SignatureError::NotAnObject),
        }
    }

    /// Seals the secret seed under a 32-byte pickle key with a fresh
    /// random nonce: what comes out restores to exactly this seed under
    /// the same key.  The envelope parses, its nonce field decodes to the
    /// 12 drawn bytes, and its ciphertext field decodes to the
    /// deterministic encryption of the seed under key and nonce, seed
    /// length plus 16 tag bytes long.
    pub fn pickle(&self, pickle_key: &Vec<u8>) -> (r: PickledSigning)
        requires
            self.wf(),
            pickle_key@.len() == 32,
        ensures
            unpickle_seed(r@, pickle_key@) == Some(self.seed_bytes()),
            exists|nonce: Seq<u8>|
                #![auto]
                nonce.len() == 12 && parse_envelope_chars(r@) == Some(
                    (
                        b64_encode(nonce, true),
                        b64_encode(aes256gcm_ciphertext_of(pickle_key@, nonce, self.seed_bytes()), true),
                    ),
                ),
            parse_envelope_chars(r@) matches Some(f) && (b64_decode(f.0, true) matches Some(n)
                && n.len() == 12) && (b64_decode(f.1, true) matches Some(c) && c.len()
                == self.seed_bytes().len() + 16),
    {
        let nonce = random_bytes(12);
        let ciphertext = aes256gcm_encrypt(pickle_key, &nonce, &self.seed);
        let nonce_b64 = encode_url_safe(&nonce);
        let ciphertext_b64 = encode_url_safe(&ciphertext);
        let envelope = render_envelope(&nonce_b64, &ciphertext_b64);
        proof {
            lemma_b64_no_quote(nonce@, true);
            lemma_b64_no_quote(ciphertext@, true);
            lemma_envelope_roundtrip(nonce_b64@, ciphertext_b64@);
            lemma_b64_roundtrip(nonce@, true);
            lemma_b64_roundtrip(ciphertext@, true);
        }
        PickledSigning(envelope)
    }

    /// Restores a keypair from a pickle envelope under a 32-byte pickle
    /// key.  Exactly the envelopes whose seed the key recovers restore; a
    /// malformed envelope, bad base64, a wrong key and altered data all
    /// fail, the last two indistinguishably.
    pub fn from_pickle(pickle: PickledSigning, pickle_key: &Vec<u8>) -> (r: Result<
        Signing,
        SigningError,
    >)
        requires
            pickle_key@.len() == 32,
        ensures
            r matches Ok(s) <==> unpickle_seed(pickle@, pickle_key@) is Some,
            r matches Ok(s) ==> s.wf() && Some(s.seed_bytes()) == unpickle_seed(
                pickle@,
                pickle_key@,
            ),
            parse_envelope_chars(pickle@) is None ==> r == Err::<Signing, SigningError>(
                SigningError::Json,
            ),
            (parse_envelope_chars(pickle@) matches Some(f) && (b64_decode(f.0, true) is None
                || b64_decode(f.1, true) is None)) ==> (r matches Err(e) && e is Decode),
            (parse_envelope_chars(pickle@) matches Some(f) && b64_decode(f.0, true) is Some
                && b64_decode(f.1, true) is Some && unpickle_seed(pickle@, pickle_key@) is None)
                ==> r == Err::<Signing, SigningError>(SigningError::Decryption),
    {
        let fields = match parse_envelope(pickle.as_str()) {
            Some(f) => f,
            None => {
                return Err(SigningError::Json);
            },
        };
        let nonce = match decode_url_safe(fields.0.as_str()) {
            Ok(b) => b,
            Err(e) => {
                return Err(SigningError::Decode(e));
            },
        };
        let ciphertext = match decode_url_safe(fields.1.as_str()) {
            Ok(b) => b,
            Err(e) => {
                return Err(SigningError::Decode(e));
            },
        };
        if nonce.len() != 12 {
            return Err(SigningError::Decryption);
        }
        let seed = match aes256gcm_decrypt(pickle_key, &nonce, &ciphertext) {
            Some(p) => p,
            None => {
                return Err(SigningError::Decryption);
            },
        };
        if seed.len() != 32 {
            return Err(SigningError::Decryption);
        }
        Ok(Signing::from_seed_checked(seed))
    }
}

impl PartialEq for Signing {
    /// Two keypairs are the same identity exactly when their public keys
    /// agree.
    fn eq(&self, other: &Self) -> (r: bool) {
        let mut i: usize = 0;
        if self.public_key.len() != other.public_key.len() {
            return false;
        }
        while i < self.public_key.len()
            invariant
                i <= self.public_key@.len(),
                self.public_key@.len() == other.public_key@.len(),
                forall|j: int| 0 <= j < i ==> self.public_key@[j] == other.public_key@[j],
            decreases self.public_key@.len() - i,
        {
            if self.public_key[i] != other.public_key[i] {
                return false;
            }
            i = i + 1;
        }
        proof {
            assert(self.public_key@ =~= other.public_key@);
        }
        true
    }
}

impl vstd::std_specs::cmp::PartialEqSpecImpl for Signing {
    open spec fn obeys_eq_spec() -> bool {
        true
    }

    open spec fn eq_spec(&self, other: &Self) -> bool {
        self.public_key_bytes() == other.public_key_bytes()
    }
}

/// A well-formed keypair's public key bytes are exactly the Ed25519
/// derivation of its seed, and 32 bytes long: the bridge from the
/// keypair invariant to equality of keypairs, which compares public key
/// bytes.
pub proof fn lemma_wf_public_key(s: &Signing)
    requires
        s.wf(),
    ensures
        s.public_key_bytes() == ed25519_public_of(s.seed_bytes()),
        s.public_key_bytes().len() == 32,
{
}

/// The signature field never matters: an object with its `signatures`
/// binding set to anything signs to the same canonical characters as the
/// object without it, so `sign_json` gives both the same signature.
pub proof fn lemma_signatures_field_excluded(
    fields: Seq<(String, Json)>,
    k: String,
    x: Json,
    seed: Seq<u8>,
)
    requires
        assoc_sorted(fields),
        k@ == sig_lit(),
    ensures
        ed25519_sig_of(
            seed,
            seq!['{'] + canon_fields(assoc_remove(assoc_insert(fields, k, x), sig_lit()))
                + seq!['}'],
        ) == ed25519_sig_of(
            seed,
            seq!['{'] + canon_fields(assoc_remove(fields, sig_lit())) + seq!['}'],
        ),
{
    crate::canonical::lemma_remove_insert(fields, k, x);
}

} // verus!
