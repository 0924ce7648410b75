use aes_gcm::aead::generic_array::GenericArray;
use aes_gcm::aead::Aead;
use aes_gcm::Aes256Gcm;
use aes_gcm::KeyInit;
use ed25519_dalek::Signer;

use pk_signing::canonical::{to_canonical_string, Json};
use pk_signing::codec;
use pk_signing::cross_signing::{DeviceKeys, KeyUsage, MasterSigning, SelfSigning, UserSigning};
use pk_signing::envelope::parse_envelope;
use pk_signing::signing::{
    EncodedSignature, PickledSigning, SignatureError, Signing, SigningError,
};

fn seed(n: u8) -> Vec<u8> {
    vec![n; 32]
}

fn envelope_of(nonce_b64: &str, ciphertext_b64: &str) -> PickledSigning {
    PickledSigning::from_string(format!(
        "{{\"version\":1,\"nonce\":\"{}\",\"ciphertext\":\"{}\"}}",
        nonce_b64, ciphertext_b64
    ))
}

#[test]
fn base64_known_vectors() {
    assert_eq!(codec::encode(&vec![77u8, 97, 110]), "TWFu");
    assert_eq!(codec::encode(&vec![77u8, 97]), "TWE");
    assert_eq!(codec::encode(&vec![77u8]), "TQ");
    assert_eq!(codec::encode(&Vec::new()), "");
    assert_eq!(codec::encode(&vec![251u8, 255]), "+/8");
    assert_eq!(codec::encode_url_safe(&vec![251u8, 255]), "-_8");
    assert_eq!(codec::decode("TWFu").unwrap(), vec![77u8, 97, 110]);
    assert_eq!(codec::decode("TWE").unwrap(), vec![77u8, 97]);
    assert_eq!(codec::decode_url_safe("-_8").unwrap(), vec![251u8, 255]);
}

#[test]
fn base64_roundtrip_all_lengths() {
    for len in 0..48usize {
        let bytes: Vec<u8> = (0..len).map(|i| (i * 37 + 11) as u8).collect();
        let std = codec::encode(&bytes);
        let url = codec::encode_url_safe(&bytes);
        assert_eq!(codec::decode(&std).unwrap(), bytes);
        assert_eq!(codec::decode_url_safe(&url).unwrap(), bytes);
    }
}

#[test]
fn base64_rejects_bad_input() {
    assert!(codec::decode("A").is_err());
    assert!(codec::decode("AAAAA").is_err());
    assert!(codec::decode("A!AA").is_err());
    assert!(codec::decode_url_safe("+A==").is_err());
    assert!(codec::decode("-_8").is_err());
}

#[test]
fn canonical_serialization_is_exact() {
    let v = Json::Obj(vec![
        (
            "a".to_string(),
            Json::Arr(vec![
                Json::Bool(true),
                Json::Null,
                Json::Str("x\"y\\z".to_string()),
            ]),
        ),
        ("b".to_string(), Json::Int(1234567890)),
    ]);
    assert_eq!(
        to_canonical_string(&v),
        "{\"a\":[true,null,\"x\\\"y\\\\z\"],\"b\":1234567890}"
    );
    let control = Json::Str("a\nb\tc\u{1}".to_string());
    assert_eq!(to_canonical_string(&control), "\"a\\nb\\tc\\u0001\"");
    assert_eq!(to_canonical_string(&Json::Int(0)), "0");
}

#[test]
fn zero_seed_yields_known_public_key() {
    let s = Signing::from_seed(vec![0u8; 32]).unwrap();
    let ours = codec::decode(s.public_key().as_str()).unwrap();
    let reference = ed25519_dalek::SigningKey::from_bytes(&[0u8; 32]);
    assert_eq!(ours, reference.verifying_key().to_bytes().to_vec());
    let known: [u8; 32] = [
        0x3b, 0x6a, 0x27, 0xbc, 0xce, 0xb6, 0xa4, 0x2d, 0x62, 0xa3, 0xa8, 0xd0, 0x2a, 0x6f, 0x0d,
        0x73, 0x65, 0x32, 0x15, 0x77, 0x1d, 0xe2, 0x43, 0xa6, 0x3a, 0xc0, 0x48, 0xa1, 0x8b, 0x59,
        0xda, 0x29,
    ];
    assert_eq!(ours, known.to_vec());
}

#[test]
fn signature_matches_reference_implementation() {
    let s = Signing::from_seed(seed(7)).unwrap();
    let sig = s.sign("hello world");
    let sig_bytes = codec::decode(sig.as_str()).unwrap();
    let reference = ed25519_dalek::SigningKey::from_bytes(&[7u8; 32]);
    let expected = reference.sign(b"hello world").to_bytes().to_vec();
    assert_eq!(sig_bytes, expected);
}

#[test]
fn pickle_roundtrip_restores_public_key() {
    let s = Signing::from_seed(seed(1)).unwrap();
    let key = vec![9u8; 32];
    let pickled = s.pickle(&key);
    let restored = Signing::from_pickle(pickled, &key).unwrap();
    assert_eq!(restored.public_key().as_str(), s.public_key().as_str());
    assert!(restored == s);
}

#[test]
fn tampering_any_bit_fails_decryption() {
    let s = Signing::from_seed(seed(2)).unwrap();
    let key = vec![3u8; 32];
    let pickled = s.pickle(&key);
    let (nonce_b64, ct_b64) = parse_envelope(pickled.as_str()).unwrap();
    let nonce = codec::decode_url_safe(&nonce_b64).unwrap();
    let ct = codec::decode_url_safe(&ct_b64).unwrap();
    for bit in 0..nonce.len() * 8 {
        let mut flipped = nonce.clone();
        flipped[bit / 8] ^= 1 << (bit % 8);
        let p = envelope_of(&codec::encode_url_safe(&flipped), &ct_b64);
        assert_eq!(
            Signing::from_pickle(p, &key).err().unwrap(),
            SigningError::Decryption
        );
    }
    for bit in 0..ct.len() * 8 {
        let mut flipped = ct.clone();
        flipped[bit / 8] ^= 1 << (bit % 8);
        let p = envelope_of(&nonce_b64, &codec::encode_url_safe(&flipped));
        assert_eq!(
            Signing::from_pickle(p, &key).err().unwrap(),
            SigningError::Decryption
        );
    }
}

#[test]
fn wrong_key_is_rejected() {
    let s = Signing::from_seed(seed(4)).unwrap();
    let pickled = s.pickle(&vec![1u8; 32]);
    assert_eq!(
        Signing::from_pickle(pickled, &vec![2u8; 32]).err().unwrap(),
        SigningError::Decryption
    );
}

#[test]
fn externally_produced_pickle_restores() {
    let key = vec![0u8; 32];
    let nonce = [0u8; 12];
    let seed_bytes = [0u8; 32];
    let cipher = Aes256Gcm::new(GenericArray::from_slice(&key));
    let ct = cipher
        .encrypt(GenericArray::from_slice(&nonce), seed_bytes.as_ref())
        .unwrap();
    let p = envelope_of("AAAAAAAAAAAAAAAA", &codec::encode_url_safe(&ct));
    let restored = Signing::from_pickle(p, &key).unwrap();
    let zero = Signing::from_seed(vec![0u8; 32]).unwrap();
    assert_eq!(restored.public_key().as_str(), zero.public_key().as_str());
}

#[test]
fn signatures_field_is_excluded() {
    let s = Signing::from_seed(seed(5)).unwrap();
    let base = Json::Obj(vec![("alpha".to_string(), Json::Int(1))]);
    let with_str = Json::Obj(vec![
        ("alpha".to_string(), Json::Int(1)),
        ("signatures".to_string(), Json::Str("junk".to_string())),
    ]);
    let with_obj = Json::Obj(vec![
        ("alpha".to_string(), Json::Int(1)),
        (
            "signatures".to_string(),
            Json::Obj(vec![("u".to_string(), Json::Str("v".to_string()))]),
        ),
    ]);
    let s1 = s.sign_json(base).unwrap();
    let s2 = s.sign_json(with_str).unwrap();
    let s3 = s.sign_json(with_obj).unwrap();
    assert_eq!(s1.as_str(), s2.as_str());
    assert_eq!(s1.as_str(), s3.as_str());
}

#[test]
fn sign_json_rejects_non_objects() {
    let s = Signing::from_seed(seed(5)).unwrap();
    assert_eq!(
        s.sign_json(Json::Null).err().unwrap(),
        SignatureError::NotAnObject
    );
    assert_eq!(
        s.sign_json(Json::Arr(Vec::new())).err().unwrap(),
        SignatureError::NotAnObject
    );
}

#[test]
fn sign_verify_roundtrip_and_rejection() {
    let s = Signing::from_seed(seed(6)).unwrap();
    let sig = s.sign("a message");
    assert!(s.verify("a message", &sig).is_ok());
    assert_eq!(
        s.verify("a messagf", &sig).err().unwrap(),
        SignatureError::VerificationError
    );
    let mut altered = sig.as_str().to_string();
    let first = altered.remove(0);
    let replacement = if first == 'A' { 'B' } else { 'A' };
    altered.insert(0, replacement);
    assert!(s
        .verify("a message", &EncodedSignature::from_string(altered))
        .is_err());
    assert!(s
        .verify("a message", &EncodedSignature::from_string("!!".to_string()))
        .is_err());
}

#[test]
fn from_seed_rejects_bad_lengths() {
    assert_eq!(
        Signing::from_seed(vec![0u8; 16]).err().unwrap(),
        SigningError::InvalidSeed
    );
    assert_eq!(
        Signing::from_seed(Vec::new()).err().unwrap(),
        SigningError::InvalidSeed
    );
}

#[test]
fn from_pickle_error_kinds() {
    let key = vec![0u8; 32];
    let p = PickledSigning::from_string("not an envelope".to_string());
    assert_eq!(Signing::from_pickle(p, &key).err().unwrap(), SigningError::Json);
    let p = envelope_of("!!!", "AAAA");
    assert!(matches!(
        Signing::from_pickle(p, &key).err().unwrap(),
        SigningError::Decode(_)
    ));
    // a version the protocol does not know is rejected as malformed
    let p = PickledSigning::from_string(
        "{\"version\":2,\"nonce\":\"AAAAAAAAAAAAAAAA\",\"ciphertext\":\"AAAA\"}".to_string(),
    );
    assert_eq!(Signing::from_pickle(p, &key).err().unwrap(), SigningError::Json);
    // a nonce of the wrong length fails as a decryption error
    let p = envelope_of("AAAA", "AAAAAAAAAAAAAAAAAAAAAAAA");
    assert_eq!(
        Signing::from_pickle(p, &key).err().unwrap(),
        SigningError::Decryption
    );
}

#[test]
fn cross_signing_key_descriptor_shape() {
    let s = Signing::from_seed(seed(8)).unwrap();
    let desc = s.cross_signing_key("@alice:example.org".to_string(), KeyUsage::Master);
    assert_eq!(desc.user_id, "@alice:example.org");
    assert_eq!(desc.usage, vec!["master".to_string()]);
    assert_eq!(desc.keys.len(), 1);
    let expected_id = format!("ed25519:{}", s.public_key().as_str());
    assert_eq!(desc.keys[0].0, expected_id);
    assert_eq!(desc.keys[0].1, s.public_key().as_str());
    assert!(desc.signatures.is_empty());
}

#[test]
fn delegation_inserts_exactly_one_entry() {
    let master_inner = Signing::from_seed(seed(11)).unwrap();
    let master_desc =
        master_inner.cross_signing_key("@alice:example.org".to_string(), KeyUsage::Master);
    let master = MasterSigning {
        inner: master_inner,
        public_key: master_desc,
    };
    let self_inner = Signing::from_seed(seed(12)).unwrap();
    let self_pub = self_inner.public_key().as_str().to_string();
    let mut sub =
        self_inner.cross_signing_key("@alice:example.org".to_string(), KeyUsage::SelfSigning);
    master.sign_subkey(&mut sub);
    assert_eq!(sub.signatures.len(), 1);
    assert_eq!(sub.signatures[0].0, "@alice:example.org");
    assert_eq!(sub.signatures[0].1.len(), 1);
    let master_key_id = format!("ed25519:{}", master.inner.public_key().as_str());
    assert_eq!(sub.signatures[0].1[0].0, master_key_id);
    // the signature verifies over the canonical subkey payload
    let payload = format!(
        "{{\"keys\":{{\"ed25519:{pk}\":\"{pk}\"}},\"usage\":[\"self_signing\"],\"user_id\":\"@alice:example.org\"}}",
        pk = self_pub
    );
    let sig = EncodedSignature::from_string(sub.signatures[0].1[0].1.clone());
    assert!(master.inner.verify(&payload, &sig).is_ok());
}

#[test]
fn delegation_preserves_unrelated_entries() {
    let master_inner = Signing::from_seed(seed(11)).unwrap();
    let master_desc =
        master_inner.cross_signing_key("@alice:example.org".to_string(), KeyUsage::Master);
    let master = MasterSigning {
        inner: master_inner,
        public_key: master_desc,
    };
    let self_inner = Signing::from_seed(seed(12)).unwrap();
    let mut sub =
        self_inner.cross_signing_key("@alice:example.org".to_string(), KeyUsage::SelfSigning);
    sub.signatures.push((
        "@zz:other.org".to_string(),
        vec![("ed25519:unrelated".to_string(), "oldsig".to_string())],
    ));
    master.sign_subkey(&mut sub);
    assert_eq!(sub.signatures.len(), 2);
    assert_eq!(sub.signatures[0].0, "@alice:example.org");
    assert_eq!(sub.signatures[1].0, "@zz:other.org");
    assert_eq!(
        sub.signatures[1].1,
        vec![("ed25519:unrelated".to_string(), "oldsig".to_string())]
    );
}

#[test]
fn sign_user_returns_detached_map() {
    let us_inner = Signing::from_seed(seed(13)).unwrap();
    let us_desc =
        us_inner.cross_signing_key("@alice:example.org".to_string(), KeyUsage::UserSigning);
    let us = UserSigning {
        inner: us_inner,
        public_key: us_desc,
    };
    let bob_inner = Signing::from_seed(seed(14)).unwrap();
    let bob_pub = bob_inner.public_key().as_str().to_string();
    let bob_master = bob_inner.cross_signing_key("@bob:example.org".to_string(), KeyUsage::Master);
    let sigs = us.sign_user(&bob_master).unwrap();
    assert_eq!(sigs.len(), 1);
    assert_eq!(sigs[0].0, "@alice:example.org");
    assert_eq!(sigs[0].1.len(), 1);
    let key_id = format!("ed25519:{}", us.inner.public_key().as_str());
    assert_eq!(sigs[0].1[0].0, key_id);
    // the target descriptor itself is untouched by design
    assert!(bob_master.signatures.is_empty());
    let payload = format!(
        "{{\"keys\":{{\"ed25519:{pk}\":\"{pk}\"}},\"usage\":[\"master\"],\"user_id\":\"@bob:example.org\"}}",
        pk = bob_pub
    );
    let sig = EncodedSignature::from_string(sigs[0].1[0].1.clone());
    assert!(us.inner.verify(&payload, &sig).is_ok());
}

#[test]
fn sign_device_signs_the_documented_subset() {
    let ss_inner = Signing::from_seed(seed(15)).unwrap();
    let ss_desc =
        ss_inner.cross_signing_key("@alice:example.org".to_string(), KeyUsage::SelfSigning);
    let ss = SelfSigning {
        inner: ss_inner,
        public_key: ss_desc,
    };
    let mut dev = DeviceKeys {
        user_id: "@alice:example.org".to_string(),
        device_id: "DEVICEID".to_string(),
        algorithms: vec![
            "m.olm.v1.curve25519-aes-sha2".to_string(),
            "m.megolm.v1.aes-sha2".to_string(),
        ],
        keys: vec![
            ("curve25519:DEVICEID".to_string(), "curvekey".to_string()),
            ("ed25519:DEVICEID".to_string(), "edkey".to_string()),
        ],
        signatures: Vec::new(),
    };
    ss.sign_device(&mut dev).unwrap();
    assert_eq!(dev.signatures.len(), 1);
    assert_eq!(dev.signatures[0].0, "@alice:example.org");
    let key_id = format!("ed25519:{}", ss.inner.public_key().as_str());
    assert_eq!(dev.signatures[0].1[0].0, key_id);
    let payload = "{\"algorithms\":[\"m.olm.v1.curve25519-aes-sha2\",\"m.megolm.v1.aes-sha2\"],\
                   \"device_id\":\"DEVICEID\",\"keys\":{\"curve25519:DEVICEID\":\"curvekey\",\
                   \"ed25519:DEVICEID\":\"edkey\"},\"user_id\":\"@alice:example.org\"}";
    let sig = EncodedSignature::from_string(dev.signatures[0].1[0].1.clone());
    assert!(ss.inner.verify(payload, &sig).is_ok());
}

#[test]
fn role_pickle_roundtrip() {
    let inner = Signing::from_seed(seed(21)).unwrap();
    let desc = inner.cross_signing_key("@carol:example.org".to_string(), KeyUsage::Master);
    let master = MasterSigning {
        inner,
        public_key: desc,
    };
    let key = vec![5u8; 32];
    let pickled = master.pickle(&key);
    assert_eq!(pickled.public_key.user_id, "@carol:example.org");
    let restored = MasterSigning::from_pickle(pickled, &key).unwrap();
    assert_eq!(
        restored.inner.public_key().as_str(),
        master.inner.public_key().as_str()
    );
    assert_eq!(restored.public_key.user_id, "@carol:example.org");
    assert_eq!(restored.public_key.usage, vec!["master".to_string()]);
}

#[test]
fn fresh_keypairs_differ_and_pickle_uses_fresh_nonces() {
    let a = Signing::new();
    let b = Signing::new();
    assert_ne!(a.public_key().as_str(), b.public_key().as_str());
    let key = vec![7u8; 32];
    let p1 = a.pickle(&key);
    let p2 = a.pickle(&key);
    let (n1, _) = parse_envelope(p1.as_str()).unwrap();
    let (n2, _) = parse_envelope(p2.as_str()).unwrap();
    assert_ne!(n1, n2);
}

#[test]
fn usage_tags_are_the_published_strings() {
    assert_eq!(KeyUsage::Master.tag(), "master");
    assert_eq!(KeyUsage::SelfSigning.tag(), "self_signing");
    assert_eq!(KeyUsage::UserSigning.tag(), "user_signing");
}

#[test]
fn encoded_public_keys_compare_by_value() {
    let a = Signing::from_seed(seed(30)).unwrap();
    let b = Signing::from_seed(seed(30)).unwrap();
    let c = Signing::from_seed(seed(31)).unwrap();
    assert!(a.public_key() == b.public_key());
    assert!(!(a.public_key() == c.public_key()));
}

#[test]
fn signing_is_deterministic() {
    let s = Signing::from_seed(seed(32)).unwrap();
    assert_eq!(s.sign("twice").as_str(), s.sign("twice").as_str());
    let t = Signing::from_seed(seed(32)).unwrap();
    assert_eq!(s.sign("twice").as_str(), t.sign("twice").as_str());
}
