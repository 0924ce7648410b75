//! The cross-signing role wrappers: a master, self-signing or
//! user-signing keypair paired with its publishable key descriptor, the
//! role-specific signing operations, and the pickled forms that carry the
//! descriptor beside the sealed seed.

use vstd::prelude::*;

use crate::canonical::{
    assoc_remove, canon, canon_field, canon_fields, canon_items, escape, escape_char, json_sorted,
    str_lt, to_canonical_string, Json,
};
use crate::codec::{b64_decode, b64_encode};
use crate::crypto::{ed25519_public_of, ed25519_sig_of, ed25519_verifies};
use crate::envelope::parse_envelope_chars;
use crate::signing::{
    sig_lit, unpickle_seed, EncodedPublicKey, EncodedSignature, PickledSigning, SignatureError,
    Signing, SigningError,
};

verus! {

/// The three cross-signing roles, as their usage tags are published.
#[derive(Clone, Copy, PartialEq, Eq, Structural, Debug)]
pub enum KeyUsage {
    Master,
    SelfSigning,
    UserSigning,
}

/// The tag characters of a usage.
pub open spec fn usage_chars(u: KeyUsage) -> Seq<char> {
    match u {
        KeyUsage::Master => seq!['m', 'a', 's', 't', 'e', 'r'],
        KeyUsage::SelfSigning => seq!['s', 'e', 'l', 'f', '_', 's', 'i', 'g', 'n', 'i', 'n', 'g'],
        KeyUsage::UserSigning => seq!['u', 's', 'e', 'r', '_', 's', 'i', 'g', 'n', 'i', 'n', 'g'],
    }
}

impl KeyUsage {
    /// The published tag of this usage.
    pub fn tag(&self) -> (r: String)
        ensures
            r@ == usage_chars(*self),
    {
        match self {
            KeyUsage::Master => {
                let s = "master";
                proof {
                    reveal_strlit("master");
                    assert(s@ =~= usage_chars(KeyUsage::Master));
                }
                s.to_owned()
            },
            KeyUsage::SelfSigning => {
                let s = "self_signing";
                proof {
                    reveal_strlit("self_signing");
                    assert(s@ =~= usage_chars(KeyUsage::SelfSigning));
                }
                s.to_owned()
            },
            KeyUsage::UserSigning => {
                let s = "user_signing";
                proof {
                    reveal_strlit("user_signing");
                    assert(s@ =~= usage_chars(KeyUsage::UserSigning));
                }
                s.to_owned()
            },
        }
    }
}

/// A string-to-string map, as the contracts see it.
pub open spec fn str_map_view(m: Seq<(String, String)>) -> Seq<(Seq<char>, Seq<char>)> {
    m.map_values(|p: (String, String)| (p.0@, p.1@))
}

/// A signature map (signer, then key id, then signature), as the
/// contracts see it.
pub open spec fn sigs_view(s: Seq<(String, Vec<(String, String)>)>) -> Seq<
    (Seq<char>, Seq<(Seq<char>, Seq<char>)>),
> {
    s.map_values(|p: (String, Vec<(String, String)>)| (p.0@, str_map_view(p.1@)))
}

/// A list of strings, as the contracts see it.
pub open spec fn strs_view(u: Seq<String>) -> Seq<Seq<char>> {
    u.map_values(|s: String| s@)
}

/// What the contracts see of a published cross-signing key descriptor.
pub struct CrossSigningKeyV {
    pub user_id: Seq<char>,
    pub usage: Seq<Seq<char>>,
    pub keys: Seq<(Seq<char>, Seq<char>)>,
    pub signatures: Seq<(Seq<char>, Seq<(Seq<char>, Seq<char>)>)>,
}

/// A published cross-signing key descriptor: the owning user, the usage
/// tags, the key map (one entry in this design), and the signatures
/// gathered on it.
pub struct CrossSigningKey {
    pub user_id: String,
    pub usage: Vec<String>,
    pub keys: Vec<(String, String)>,
    pub signatures: Vec<(String, Vec<(String, String)>)>,
}

impl View for CrossSigningKey {
    type V = CrossSigningKeyV;

    open spec fn view(&self) -> CrossSigningKeyV {
        CrossSigningKeyV {
            user_id: self.user_id@,
            usage: strs_view(self.usage@),
            keys: str_map_view(self.keys@),
            signatures: sigs_view(self.signatures@),
        }
    }
}

/// What the contracts see of a device-keys record.
pub struct DeviceKeysV {
    pub user_id: Seq<char>,
    pub device_id: Seq<char>,
    pub algorithms: Seq<Seq<char>>,
    pub keys: Seq<(Seq<char>, Seq<char>)>,
    pub signatures: Seq<(Seq<char>, Seq<(Seq<char>, Seq<char>)>)>,
}

/// A device-keys record: the owning user, the device, the algorithms it
/// speaks, its key map, and the signatures gathered on it.
pub struct DeviceKeys {
    pub user_id: String,
    pub device_id: String,
    pub algorithms: Vec<String>,
    pub keys: Vec<(String, String)>,
    pub signatures: Vec<(String, Vec<(String, String)>)>,
}

impl View for DeviceKeys {
    type V = DeviceKeysV;

    open spec fn view(&self) -> DeviceKeysV {
        DeviceKeysV {
            user_id: self.user_id@,
            device_id: self.device_id@,
            algorithms: strs_view(self.algorithms@),
            keys: str_map_view(self.keys@),
            signatures: sigs_view(self.signatures@),
        }
    }
}

/// A quoted JSON string: quote, escaped characters, quote.
pub open spec fn quoted(s: Seq<char>) -> Seq<char> {
    seq!['"'] + escape(s) + seq!['"']
}

/// The canonical entries of a string-to-string object, comma-separated.
pub open spec fn str_map_entries(m: Seq<(Seq<char>, Seq<char>)>) -> Seq<char>
    decreases m.len(),
{
    if m.len() == 0 {
        Seq::<char>::empty()
    } else if m.len() == 1 {
        quoted(m[0].0) + seq![':'] + quoted(m[0].1)
    } else {
        quoted(m[0].0) + seq![':'] + quoted(m[0].1) + seq![','] + str_map_entries(m.skip(1))
    }
}

/// The canonical form of a string-to-string object.
pub open spec fn str_map_chars(m: Seq<(Seq<char>, Seq<char>)>) -> Seq<char> {
    seq!['{'] + str_map_entries(m) + seq!['}']
}

/// The canonical entries of an array of strings, comma-separated.
pub open spec fn str_arr_entries(a: Seq<Seq<char>>) -> Seq<char>
    decreases a.len(),
{
    if a.len() == 0 {
        Seq::<char>::empty()
    } else if a.len() == 1 {
        quoted(a[0])
    } else {
        quoted(a[0]) + seq![','] + str_arr_entries(a.skip(1))
    }
}

/// The canonical form of an array of strings.
pub open spec fn str_arr_chars(a: Seq<Seq<char>>) -> Seq<char> {
    seq!['['] + str_arr_entries(a) + seq![']']
}

/// The characters a subkey attestation signs: the descriptor's `keys`,
/// `usage` and `user_id` fields, canonically serialized, with no
/// `signatures` field.
pub open spec fn subkey_payload_chars(
    user_id: Seq<char>,
    usage: Seq<Seq<char>>,
    keys: Seq<(Seq<char>, Seq<char>)>,
) -> Seq<char> {
    seq!['{', '"', 'k', 'e', 'y', 's', '"', ':'] + str_map_chars(keys) + seq![
        ',',
        '"',
        'u',
        's',
        'a',
        'g',
        'e',
        '"',
        ':',
    ] + str_arr_chars(usage) + seq![',', '"', 'u', 's', 'e', 'r', '_', 'i', 'd', '"', ':']
        + quoted(user_id) + seq!['}']
}

/// The characters a device attestation signs: the device's `algorithms`,
/// `device_id`, `keys` and `user_id` fields, canonically serialized, with
/// no `signatures` field and no unsigned extras.
pub open spec fn device_payload_chars(d: DeviceKeysV) -> Seq<char> {
    seq!['{', '"', 'a', 'l', 'g', 'o', 'r', 'i', 't', 'h', 'm', 's', '"', ':'] + str_arr_chars(
        d.algorithms,
    ) + seq![',', '"', 'd', 'e', 'v', 'i', 'c', 'e', '_', 'i', 'd', '"', ':'] + quoted(d.device_id)
        + seq![',', '"', 'k', 'e', 'y', 's', '"', ':'] + str_map_chars(d.keys) + seq![
        ',',
        '"',
        'u',
        's',
        'e',
        'r',
        '_',
        'i',
        'd',
        '"',
        ':',
    ] + quoted(d.user_id) + seq!['}']
}

/// A character that passes through JSON escaping unchanged.
pub open spec fn plain_char(c: char) -> bool {
    c != '"' && c != '\\' && (c as u32) >= 32
}

/// Escaping leaves a string of plain characters as it is.
pub proof fn lemma_escape_plain(s: Seq<char>)
    requires
        forall|i: int| 0 <= i < s.len() ==> plain_char(#[trigger] s[i]),
    ensures
        escape(s) == s,
    decreases s.len(),
{
    if s.len() > 0 {
        lemma_escape_plain(s.skip(1));
        assert(escape_char(s[0]) =~= seq![s[0]]);
        assert(seq![s[0]] + s.skip(1) =~= s);
    }
}

/// The canonical fields of an object whose values are all strings are the
/// string-map entries of its view.
proof fn lemma_str_map_canon(jf: Seq<(String, Json)>, m: Seq<(Seq<char>, Seq<char>)>)
    requires
        jf.len() == m.len(),
        forall|i: int|
            0 <= i < jf.len() ==> (#[trigger] jf[i]).0@ == m[i].0 && (jf[i].1 matches Json::Str(s)
                && s@ == m[i].1),
    ensures
        canon_fields(jf) == str_map_entries(m),
    decreases jf.len(),
{
    if jf.len() == 0 {
    } else {
        assert(canon_field(jf[0]) =~= quoted(m[0].0) + seq![':'] + quoted(m[0].1));
        if jf.len() > 1 {
            assert(forall|i: int| 0 <= i < jf.len() - 1 ==> #[trigger] jf.skip(1)[i] == jf[i + 1]);
            assert(forall|i: int| 0 <= i < m.len() - 1 ==> #[trigger] m.skip(1)[i] == m[i + 1]);
            lemma_str_map_canon(jf.skip(1), m.skip(1));
            assert(canon_fields(jf) =~= str_map_entries(m));
        } else {
            assert(canon_fields(jf) =~= str_map_entries(m));
        }
    }
}

/// The canonical items of an array whose values are all strings are the
/// string-array entries of its view.
proof fn lemma_str_arr_canon(ji: Seq<Json>, a: Seq<Seq<char>>)
    requires
        ji.len() == a.len(),
        forall|i: int|
            0 <= i < ji.len() ==> ((#[trigger] ji[i]) matches Json::Str(s) && s@ == a[i]),
    ensures
        canon_items(ji) == str_arr_entries(a),
    decreases ji.len(),
{
    if ji.len() == 0 {
    } else {
        assert(canon(ji[0]) =~= quoted(a[0]));
        if ji.len() > 1 {
            assert(forall|i: int| 0 <= i < ji.len() - 1 ==> #[trigger] ji.skip(1)[i] == ji[i + 1]);
            assert(forall|i: int| 0 <= i < a.len() - 1 ==> #[trigger] a.skip(1)[i] == a[i + 1]);
            lemma_str_arr_canon(ji.skip(1), a.skip(1));
            assert(canon_items(ji) =~= str_arr_entries(a));
        } else {
            assert(canon_items(ji) =~= str_arr_entries(a));
        }
    }
}

/// Clones a string-to-string map into JSON string fields.
fn clone_str_map(m: &Vec<(String, String)>) -> (r: Vec<(String, Json)>)
    ensures
        r@.len() == m@.len(),
        forall|i: int|
            0 <= i < m@.len() ==> (#[trigger] r@[i]).0@ == m@[i].0@ && (r@[i].1 matches Json::Str(s)
                && s@ == m@[i].1@),
{
    let mut r: Vec<(String, Json)> = Vec::new();
    let mut i: usize = 0;
    while i < m.len()
        invariant
            i <= m@.len(),
            r@.len() == i,
            forall|j: int|
                0 <= j < i ==> (#[trigger] r@[j]).0@ == m@[j].0@ && (r@[j].1 matches Json::Str(s)
                    && s@ == m@[j].1@),
        decreases m@.len() - i,
    {
        r.push((m[i].0.clone(), Json::Str(m[i].1.clone())));
        i = i + 1;
    }
    r
}

/// Clones a list of strings into JSON string items.
fn clone_str_arr(a: &Vec<String>) -> (r: Vec<Json>)
    ensures
        r@.len() == a@.len(),
        forall|i: int|
            0 <= i < a@.len() ==> ((#[trigger] r@[i]) matches Json::Str(s) && s@ == a@[i]@),
{
    let mut r: Vec<Json> = Vec::new();
    let mut i: usize = 0;
    while i < a.len()
        invariant
            i <= a@.len(),
            r@.len() == i,
            forall|j: int| 0 <= j < i ==> ((#[trigger] r@[j]) matches Json::Str(s) && s@ == a@[j]@),
        decreases a@.len() - i,
    {
        r.push(Json::Str(a[i].clone()));
        i = i + 1;
    }
    r
}

/// Builds the canonical subkey attestation payload of a descriptor.
#[verifier::rlimit(100)]
fn build_subkey_payload(user_id: &String, usage: &Vec<String>, keys: &Vec<(String, String)>) -> (r:
    String)
    ensures
        r@ == subkey_payload_chars(user_id@, strs_view(usage@), str_map_view(keys@)),
{
    let keys_json = clone_str_map(keys);
    let usage_json = clone_str_arr(usage);
    let mut fields: Vec<(String, Json)> = Vec::new();
    let keys_key = "keys";
    let usage_key = "usage";
    let user_id_key = "user_id";
    fields.push((keys_key.to_owned(), Json::Obj(keys_json)));
    fields.push((usage_key.to_owned(), Json::Arr(usage_json)));
    fields.push((user_id_key.to_owned(), Json::Str(user_id.clone())));
    let payload = Json::Obj(fields);
    let out = to_canonical_string(&payload);
    proof {
        reveal_strlit("keys");
        reveal_strlit("usage");
        reveal_strlit("user_id");
        lemma_escape_plain(keys_key@);
        lemma_escape_plain(usage_key@);
        lemma_escape_plain(user_id_key@);
        let f = fields@;
        lemma_str_map_canon(
            (f[0].1)->Obj_0@,
            str_map_view(keys@),
        );
        lemma_str_arr_canon((f[1].1)->Arr_0@, strs_view(usage@));
        assert(f.skip(1)[0] == f[1] && f.skip(1).skip(1) =~= f.skip(2) && f.skip(2)[0] == f[2]);
        assert(canon_fields(f) == canon_field(f[0]) + seq![','] + canon_fields(f.skip(1)));
        assert(canon_fields(f.skip(1)) == canon_field(f[1]) + seq![','] + canon_fields(f.skip(2)));
        assert(canon_fields(f.skip(2)) == canon_field(f[2]));
        assert(out@ =~= subkey_payload_chars(user_id@, strs_view(usage@), str_map_view(keys@)));
    }
    out
}

/// Builds the canonical device attestation payload of a device record.
#[verifier::rlimit(100)]
fn build_device_payload(d: &DeviceKeys) -> (r: String)
    ensures
        r@ == device_payload_chars(d@),
{
    let algorithms_json = clone_str_arr(&d.algorithms);
    let keys_json = clone_str_map(&d.keys);
    let mut fields: Vec<(String, Json)> = Vec::new();
    let algorithms_key = "algorithms";
    let device_id_key = "device_id";
    let keys_key = "keys";
    let user_id_key = "user_id";
    fields.push((algorithms_key.to_owned(), Json::Arr(algorithms_json)));
    fields.push((device_id_key.to_owned(), Json::Str(d.device_id.clone())));
    fields.push((keys_key.to_owned(), Json::Obj(keys_json)));
    fields.push((user_id_key.to_owned(), Json::Str(d.user_id.clone())));
    let payload = Json::Obj(fields);
    let out = to_canonical_string(&payload);
    proof {
        reveal_strlit("algorithms");
        reveal_strlit("device_id");
        reveal_strlit("keys");
        reveal_strlit("user_id");
        lemma_escape_plain(algorithms_key@);
        lemma_escape_plain(device_id_key@);
        lemma_escape_plain(keys_key@);
        lemma_escape_plain(user_id_key@);
        let f = fields@;
        lemma_str_arr_canon((f[0].1)->Arr_0@, strs_view(d.algorithms@));
        lemma_str_map_canon((f[2].1)->Obj_0@, str_map_view(d.keys@));
        assert(f.skip(1)[0] == f[1] && f.skip(1).skip(1) =~= f.skip(2) && f.skip(2)[0] == f[2]
            && f.skip(2).skip(1) =~= f.skip(3) && f.skip(3)[0] == f[3]);
        assert(canon_fields(f) == canon_field(f[0]) + seq![','] + canon_fields(f.skip(1)));
        assert(canon_fields(f.skip(1)) == canon_field(f[1]) + seq![','] + canon_fields(f.skip(2)));
        assert(canon_fields(f.skip(2)) == canon_field(f[2]) + seq![','] + canon_fields(f.skip(3)));
        assert(canon_fields(f.skip(3)) == canon_field(f[3]));
        assert(out@ =~= device_payload_chars(d@));
    }
    out
}

} // verus!

verus! {

/// An association by string keys in strictly increasing order, as a
/// sorted map lays it out.
pub open spec fn keys_sorted<V>(s: Seq<(Seq<char>, V)>) -> bool {
    forall|i: int, j: int| 0 <= i < j < s.len() ==> str_lt(#[trigger] s[i].0, #[trigger] s[j].0)
}

/// Inserts a binding into a key-sorted association, replacing the value
/// when the key is already bound: what `insert` on a sorted map does.
pub open spec fn view_insert<V>(s: Seq<(Seq<char>, V)>, k: Seq<char>, v: V) -> Seq<(Seq<char>, V)>
    decreases s.len(),
{
    if s.len() == 0 {
        seq![(k, v)]
    } else if s[0].0 == k {
        seq![(k, v)] + s.skip(1)
    } else if str_lt(k, s[0].0) {
        seq![(k, v)] + s
    } else {
        seq![s[0]] + view_insert(s.skip(1), k, v)
    }
}

/// The value bound to a key, at its first binding.
pub open spec fn view_get<V>(s: Seq<(Seq<char>, V)>, k: Seq<char>) -> Option<V>
    decreases s.len(),
{
    if s.len() == 0 {
        None
    } else if s[0].0 == k {
        Some(s[0].1)
    } else {
        view_get(s.skip(1), k)
    }
}

/// What inserting one signature does to a signature map: the signer's
/// inner map gains (or replaces) the binding of the key id, and other
/// signers' entries stay as they were.
pub open spec fn updated_signatures(
    sigs: Seq<(Seq<char>, Seq<(Seq<char>, Seq<char>)>)>,
    user: Seq<char>,
    key_id: Seq<char>,
    sig: Seq<char>,
) -> Seq<(Seq<char>, Seq<(Seq<char>, Seq<char>)>)> {
    let inner = match view_get(sigs, user) {
        Some(m) => m,
        None => Seq::<(Seq<char>, Seq<char>)>::empty(),
    };
    view_insert(sigs, user, view_insert(inner, key_id, sig))
}

/// A key bound at `i`, with no earlier binding, is what lookup finds.
proof fn lemma_view_get_at<V>(s: Seq<(Seq<char>, V)>, k: Seq<char>, i: int)
    requires
        0 <= i < s.len(),
        forall|j: int| 0 <= j < i ==> (#[trigger] s[j].0) != k,
        s[i].0 == k,
    ensures
        view_get(s, k) == Some(s[i].1),
    decreases i,
{
    if i > 0 {
        assert(forall|j: int| 0 <= j < i - 1 ==> (#[trigger] s.skip(1)[j].0) != k) by {
            assert(forall|j: int| 0 <= j < i - 1 ==> s.skip(1)[j] == s[j + 1]);
        }
        lemma_view_get_at(s.skip(1), k, i - 1);
    }
}

/// A key bound nowhere is what lookup misses.
proof fn lemma_view_get_absent<V>(s: Seq<(Seq<char>, V)>, k: Seq<char>)
    requires
        forall|j: int| 0 <= j < s.len() ==> (#[trigger] s[j].0) != k,
    ensures
        view_get(s, k) is None,
    decreases s.len(),
{
    if s.len() > 0 {
        lemma_view_get_absent(s.skip(1), k);
    }
}

/// Splitting an insertion at a scan position: once every key before the
/// position is known not to admit the new key, insertion happens in the
/// remainder.
proof fn lemma_view_insert_split<V>(s: Seq<(Seq<char>, V)>, k: Seq<char>, v: V, i: int)
    requires
        0 <= i <= s.len(),
        forall|j: int| 0 <= j < i ==> (#[trigger] s[j].0) != k && !str_lt(k, s[j].0),
    ensures
        view_insert(s, k, v) == s.take(i) + view_insert(s.skip(i), k, v),
    decreases i,
{
    if i == 0 {
        assert(s.take(0) + view_insert(s.skip(0), k, v) =~= view_insert(s, k, v)) by {
            assert(s.skip(0) =~= s);
            assert(s.take(0) =~= Seq::<(Seq<char>, V)>::empty());
        }
    } else {
        assert(forall|j: int|
            0 <= j < i - 1 ==> (#[trigger] s.skip(1)[j].0) != k && !str_lt(k, s.skip(1)[j].0)) by {
            assert(forall|j: int| 0 <= j < i - 1 ==> s.skip(1)[j] == s[j + 1]);
        }
        lemma_view_insert_split(s.skip(1), k, v, i - 1);
        assert(s.skip(1).take(i - 1) =~= s.take(i).skip(1));
        assert(s.skip(1).skip(i - 1) =~= s.skip(i));
        assert(view_insert(s, k, v) == seq![s[0]] + view_insert(s.skip(1), k, v));
        assert(seq![s[0]] + (s.skip(1).take(i - 1) + view_insert(s.skip(i), k, v)) =~= s.take(i)
            + view_insert(s.skip(i), k, v));
    }
}

/// Inserting keeps the keys sorted.
proof fn lemma_view_insert_sorted<V>(s: Seq<(Seq<char>, V)>, k: Seq<char>, v: V)
    requires
        keys_sorted(s),
    ensures
        keys_sorted(view_insert(s, k, v)),
    decreases s.len(),
{
    if s.len() == 0 {
    } else if s[0].0 == k {
        let t = view_insert(s, k, v);
        assert(forall|i: int, j: int|
            0 <= i < j < t.len() ==> str_lt(#[trigger] t[i].0, #[trigger] t[j].0)) by {
            assert(forall|j: int| 1 <= j < t.len() ==> t[j] == s[j]);
        }
    } else if str_lt(k, s[0].0) {
        let t = view_insert(s, k, v);
        assert(forall|i: int, j: int|
            0 <= i < j < t.len() ==> str_lt(#[trigger] t[i].0, #[trigger] t[j].0)) by {
            assert(forall|j: int| 1 <= j < t.len() ==> t[j] == s[j - 1]);
            assert(forall|j: int| 1 <= j < s.len() ==> str_lt(s[0].0, #[trigger] s[j].0));
            assert forall|j: int| 1 <= j < t.len() implies str_lt(k, #[trigger] t[j].0) by {
                if j > 1 {
                    crate::canonical::lemma_str_lt_trans(k, s[0].0, s[j - 1].0);
                }
            }
        }
    } else {
        assert(keys_sorted(s.skip(1))) by {
            assert(forall|i: int, j: int|
                0 <= i < j < s.len() - 1 ==> str_lt(
                    #[trigger] s.skip(1)[i].0,
                    #[trigger] s.skip(1)[j].0,
                )) by {
                assert(forall|j: int| 0 <= j < s.len() - 1 ==> s.skip(1)[j] == s[j + 1]);
            }
        }
        lemma_view_insert_sorted(s.skip(1), k, v);
        let t = view_insert(s, k, v);
        let u = view_insert(s.skip(1), k, v);
        // the head key is below k and below every key that insertion into
        // the tail can place first
        assert(!str_lt(k, s[0].0) && s[0].0 != k);
        crate::canonical::lemma_str_lt_total(k, s[0].0);
        assert(str_lt(s[0].0, k));
        assert forall|j: int| 1 <= j < t.len() implies str_lt(t[0].0, #[trigger] t[j].0) by {
            assert(t[j] == u[j - 1]);
            if u[j - 1].0 != k {
                assert(exists|m: int| 1 <= m < s.len() && u[j - 1] == s[m]) by {
                    lemma_view_insert_members(s.skip(1), k, v, j - 1);
                }
            }
        }
        assert(forall|i: int, j: int|
            1 <= i < j < t.len() ==> str_lt(#[trigger] t[i].0, #[trigger] t[j].0)) by {
            assert(forall|j: int| 1 <= j < t.len() ==> t[j] == u[j - 1]);
            assert(keys_sorted(u));
        }
        assert(keys_sorted(t));
    }
}

/// Every element of an insertion is the new binding or one of the old
/// ones.
proof fn lemma_view_insert_members<V>(s: Seq<(Seq<char>, V)>, k: Seq<char>, v: V, i: int)
    requires
        0 <= i < view_insert(s, k, v).len(),
        view_insert(s, k, v)[i].0 != k,
    ensures
        exists|m: int| 0 <= m < s.len() && view_insert(s, k, v)[i] == s[m],
    decreases s.len(),
{
    let t = view_insert(s, k, v);
    if s.len() == 0 {
    } else if s[0].0 == k {
        assert(t[i] == s.skip(1)[i - 1]);
        assert(t[i] == s[i]);
    } else if str_lt(k, s[0].0) {
        assert(t[i] == s[i - 1]);
    } else {
        if i == 0 {
            assert(t[0] == s[0]);
        } else {
            assert(t[i] == view_insert(s.skip(1), k, v)[i - 1]);
            lemma_view_insert_members(s.skip(1), k, v, i - 1);
            let m = choose|m: int|
                0 <= m < s.skip(1).len() && view_insert(s.skip(1), k, v)[i - 1] == s.skip(1)[m];
            assert(t[i] == s[m + 1]);
        }
    }
}

/// Inserting under one key leaves what is bound under any other key as it
/// was.
pub proof fn lemma_view_insert_get_other<V>(s: Seq<(Seq<char>, V)>, k: Seq<char>, v: V, o: Seq<char>)
    requires
        o != k,
    ensures
        view_get(view_insert(s, k, v), o) == view_get(s, o),
    decreases s.len(),
{
    let t = view_insert(s, k, v);
    if s.len() == 0 {
        assert(t[0].0 == k);
        assert(t.skip(1) =~= Seq::<(Seq<char>, V)>::empty());
        lemma_view_get_absent(t.skip(1), o);
    } else if s[0].0 == k {
        assert(t[0].0 == k);
        assert(t.skip(1) =~= s.skip(1));
    } else if str_lt(k, s[0].0) {
        assert(t[0].0 == k);
        assert(t.skip(1) =~= s);
    } else {
        assert(t[0] == s[0]);
        assert(t.skip(1) =~= view_insert(s.skip(1), k, v));
        if s[0].0 != o {
            lemma_view_insert_get_other(s.skip(1), k, v, o);
        }
    }
}

} // verus!
verus! {

/// Inserting into a string map commutes with taking its view.
proof fn lemma_str_map_view_insert(m: Seq<(String, String)>, k: String, v: String)
    ensures
        str_map_view(crate::canonical::assoc_insert(m, k, v)) == view_insert(
            str_map_view(m),
            k@,
            v@,
        ),
    decreases m.len(),
{
    if m.len() == 0 {
        assert(str_map_view(crate::canonical::assoc_insert(m, k, v)) =~= seq![(k@, v@)]);
        assert(view_insert(str_map_view(m), k@, v@) =~= seq![(k@, v@)]);
    } else if m[0].0@ == k@ {
        assert(str_map_view(m)[0].0 == m[0].0@);
        assert(str_map_view(seq![(k, v)] + m.skip(1)) =~= seq![(k@, v@)] + str_map_view(m).skip(1));
        assert(view_insert(str_map_view(m), k@, v@) == seq![(k@, v@)] + str_map_view(m).skip(1));
    } else if str_lt(k@, m[0].0@) {
        assert(str_map_view(m)[0].0 == m[0].0@);
        assert(str_map_view(seq![(k, v)] + m) =~= seq![(k@, v@)] + str_map_view(m));
    } else {
        lemma_str_map_view_insert(m.skip(1), k, v);
        assert(str_map_view(m.skip(1)) =~= str_map_view(m).skip(1));
        assert(str_map_view(seq![m[0]] + crate::canonical::assoc_insert(m.skip(1), k, v)) =~= seq![
            str_map_view(m)[0],
        ] + str_map_view(crate::canonical::assoc_insert(m.skip(1), k, v)));
        assert(view_insert(str_map_view(m), k@, v@) == seq![str_map_view(m)[0]] + view_insert(
            str_map_view(m).skip(1),
            k@,
            v@,
        ));
    }
}

/// Inserts one signature into a signature map: the signer's inner map
/// gains (or replaces) the binding of the key id; every other signer's
/// entry stays untouched; sorted order is kept.
pub fn insert_signature(
    sigs: &mut Vec<(String, Vec<(String, String)>)>,
    user: &String,
    key_id: &String,
    sig: String,
)
    requires
        keys_sorted(sigs_view(old(sigs)@)),
    ensures
        sigs_view(final(sigs)@) == updated_signatures(sigs_view(old(sigs)@), user@, key_id@, sig@),
        keys_sorted(sigs_view(final(sigs)@)),
{
    let ghost v0 = sigs_view(old(sigs)@);
    let mut i: usize = 0;
    loop
        invariant
            i <= sigs@.len(),
            sigs@ == old(sigs)@,
            v0 == sigs_view(old(sigs)@),
            keys_sorted(v0),
            v0.len() == sigs@.len(),
            forall|j: int| 0 <= j < i ==> (#[trigger] v0[j]).0 != user@ && !str_lt(user@, v0[j].0),
        decreases sigs@.len() - i,
    {
        if i == sigs.len() {
            let mut inner: Vec<(String, String)> = Vec::new();
            inner.push((key_id.clone(), sig));
            sigs.push((user.clone(), inner));
            proof {
                let ni = seq![(key_id@, sig@)];
                lemma_view_get_absent(v0, user@);
                lemma_view_insert_split(v0, user@, ni, i as int);
                assert(v0.skip(i as int) =~= Seq::<
                    (Seq<char>, Seq<(Seq<char>, Seq<char>)>),
                >::empty());
                assert(v0.take(i as int) =~= v0);
                assert(str_map_view(inner@) =~= ni);
                assert(view_insert(Seq::<(Seq<char>, Seq<char>)>::empty(), key_id@, sig@) =~= ni);
                assert(sigs_view(sigs@) =~= v0 + seq![(user@, ni)]);
                assert(view_insert(v0, user@, ni) =~= v0 + seq![(user@, ni)]);
                assert(updated_signatures(v0, user@, key_id@, sig@) == view_insert(v0, user@, ni));
                lemma_view_insert_sorted(v0, user@, ni);
            }
            return ;
        }
        let same = sigs[i].0 == *user;
        if same {
            proof {
                assert(v0[i as int].0 == user@);
                lemma_view_get_at(v0, user@, i as int);
            }
            let mut entry = sigs.remove(i);
            let ghost inner0 = str_map_view(entry.1@);
            let kid = key_id.clone();
            proof {
                lemma_str_map_view_insert(entry.1@, kid, sig);
            }
            crate::canonical::assoc_insert_vec(&mut entry.1, kid, sig);
            sigs.insert(i, (entry.0, entry.1));
            proof {
                let ni = view_insert(inner0, key_id@, sig@);
                assert(inner0 == v0[i as int].1);
                lemma_view_insert_split(v0, user@, ni, i as int);
                assert(v0.skip(i as int)[0] == v0[i as int]);
                assert(view_insert(v0.skip(i as int), user@, ni) == seq![(user@, ni)] + v0.skip(
                    i as int,
                ).skip(1));
                assert(v0.skip(i as int).skip(1) =~= v0.skip(i + 1));
                assert(sigs_view(sigs@) =~= v0.take(i as int) + (seq![(user@, ni)] + v0.skip(
                    i + 1,
                )));
                assert(updated_signatures(v0, user@, key_id@, sig@) == v0.take(i as int) + (seq![
                    (user@, ni),
                ] + v0.skip(i + 1)));
                lemma_view_insert_sorted(v0, user@, ni);
            }
            return ;
        }
        let below = crate::canonical::str_less(user, &sigs[i].0);
        proof {
            assert(v0[i as int].0 == sigs@[i as int].0@);
        }
        if below {
            let mut inner: Vec<(String, String)> = Vec::new();
            inner.push((key_id.clone(), sig));
            sigs.insert(i, (user.clone(), inner));
            proof {
                let ni = seq![(key_id@, sig@)];
                assert forall|j: int| 0 <= j < v0.len() implies (#[trigger] v0[j]).0 != user@ by {
                    if j >= i {
                        if j > i {
                            crate::canonical::lemma_str_lt_trans(
                                user@,
                                v0[i as int].0,
                                v0[j].0,
                            );
                        }
                        crate::canonical::lemma_str_lt_asym(user@, v0[j].0);
                    }
                }
                lemma_view_get_absent(v0, user@);
                lemma_view_insert_split(v0, user@, ni, i as int);
                assert(v0.skip(i as int)[0] == v0[i as int]);
                assert(view_insert(v0.skip(i as int), user@, ni) == seq![(user@, ni)] + v0.skip(
                    i as int,
                ));
                assert(str_map_view(inner@) =~= ni);
                assert(view_insert(Seq::<(Seq<char>, Seq<char>)>::empty(), key_id@, sig@) =~= ni);
                assert(sigs_view(sigs@) =~= v0.take(i as int) + (seq![(user@, ni)] + v0.skip(
                    i as int,
                )));
                assert(updated_signatures(v0, user@, key_id@, sig@) == v0.take(i as int) + (seq![
                    (user@, ni),
                ] + v0.skip(i as int)));
                lemma_view_insert_sorted(v0, user@, ni);
            }
            return ;
        }
        i = i + 1;
    }
}

/// Delegation on a fresh descriptor: inserting into an empty signature
/// map leaves exactly one entry, keyed by the signer and the key id.
pub proof fn lemma_delegation_fresh(user: Seq<char>, key_id: Seq<char>, sig: Seq<char>)
    ensures
        updated_signatures(
            Seq::<(Seq<char>, Seq<(Seq<char>, Seq<char>)>)>::empty(),
            user,
            key_id,
            sig,
        ) == seq![(user, seq![(key_id, sig)])],
{
    let e = Seq::<(Seq<char>, Seq<(Seq<char>, Seq<char>)>)>::empty();
    assert(view_get(e, user) is None);
    assert(view_insert(Seq::<(Seq<char>, Seq<char>)>::empty(), key_id, sig) =~= seq![
        (key_id, sig),
    ]);
    assert(updated_signatures(e, user, key_id, sig) =~= seq![(user, seq![(key_id, sig)])]);
}

/// Delegation preserves unrelated entries: what any other signer has
/// bound stays exactly as it was.
pub proof fn lemma_delegation_preserves_others(
    sigs: Seq<(Seq<char>, Seq<(Seq<char>, Seq<char>)>)>,
    user: Seq<char>,
    key_id: Seq<char>,
    sig: Seq<char>,
    other: Seq<char>,
)
    requires
        other != user,
    ensures
        view_get(updated_signatures(sigs, user, key_id, sig), other) == view_get(sigs, other),
{
    let inner = match view_get(sigs, user) {
        Some(m) => m,
        None => Seq::<(Seq<char>, Seq<char>)>::empty(),
    };
    lemma_view_insert_get_other(sigs, user, view_insert(inner, key_id, sig), other);
}

} // verus!

verus! {

/// The algorithm prefix of a key id: `ed25519:`.
pub open spec fn ed25519_prefix() -> Seq<char> {
    seq!['e', 'd', '2', '5', '5', '1', '9', ':']
}

/// The key id a seed's keypair publishes under: the algorithm prefix and
/// the encoded public key.
pub open spec fn key_id_chars(seed: Seq<u8>) -> Seq<char> {
    ed25519_prefix() + b64_encode(ed25519_public_of(seed), false)
}

/// Builds the key id of an encoded public key.
fn key_id_for(pk: &EncodedPublicKey) -> (r: String)
    ensures
        r@ == ed25519_prefix() + pk@,
{
    let mut s = String::new();
    let lit = "ed25519:";
    proof {
        reveal_strlit("ed25519:");
        assert(lit@ =~= ed25519_prefix());
    }
    s.append(lit);
    s.append(pk.as_str());
    proof {
        assert(s@ =~= ed25519_prefix() + pk@);
    }
    s
}

/// Clones a string-to-string map, keeping its view.
fn clone_string_pairs(m: &Vec<(String, String)>) -> (r: Vec<(String, String)>)
    ensures
        str_map_view(r@) == str_map_view(m@),
{
    let mut r: Vec<(String, String)> = Vec::new();
    let mut i: usize = 0;
    while i < m.len()
        invariant
            i <= m@.len(),
            r@.len() == i,
            forall|j: int| 0 <= j < i ==> (#[trigger] r@[j]).0@ == m@[j].0@ && r@[j].1@ == m@[j].1@,
        decreases m@.len() - i,
    {
        r.push((m[i].0.clone(), m[i].1.clone()));
        i = i + 1;
    }
    proof {
        assert(str_map_view(r@) =~= str_map_view(m@));
    }
    r
}

/// Clones a list of strings, keeping its view.
fn clone_strings(a: &Vec<String>) -> (r: Vec<String>)
    ensures
        strs_view(r@) == strs_view(a@),
{
    let mut r: Vec<String> = Vec::new();
    let mut i: usize = 0;
    while i < a.len()
        invariant
            i <= a@.len(),
            r@.len() == i,
            forall|j: int| 0 <= j < i ==> (#[trigger] r@[j])@ == a@[j]@,
        decreases a@.len() - i,
    {
        r.push(a[i].clone());
        i = i + 1;
    }
    proof {
        assert(strs_view(r@) =~= strs_view(a@));
    }
    r
}

/// Clones a signature map, keeping its view.
fn clone_sigs(s: &Vec<(String, Vec<(String, String)>)>) -> (r: Vec<(String, Vec<(String, String)>)>)
    ensures
        sigs_view(r@) == sigs_view(s@),
{
    let mut r: Vec<(String, Vec<(String, String)>)> = Vec::new();
    let mut i: usize = 0;
    while i < s.len()
        invariant
            i <= s@.len(),
            r@.len() == i,
            forall|j: int|
                0 <= j < i ==> (#[trigger] r@[j]).0@ == s@[j].0@ && str_map_view(r@[j].1@)
                    == str_map_view(s@[j].1@),
        decreases s@.len() - i,
    {
        let inner = clone_string_pairs(&s[i].1);
        r.push((s[i].0.clone(), inner));
        i = i + 1;
    }
    proof {
        assert(sigs_view(r@) =~= sigs_view(s@));
    }
    r
}

/// Clones a descriptor, keeping its view.
pub fn clone_descriptor(d: &CrossSigningKey) -> (r: CrossSigningKey)
    ensures
        r@ == d@,
{
    let r = CrossSigningKey {
        user_id: d.user_id.clone(),
        usage: clone_strings(&d.usage),
        keys: clone_string_pairs(&d.keys),
        signatures: clone_sigs(&d.signatures),
    };
    r
}

impl Signing {
    /// Builds the publishable descriptor of this keypair for a user and
    /// usage: one key-map entry under the `ed25519:` key id, the one
    /// usage tag, and no signatures yet.
    pub fn cross_signing_key(&self, user_id: String, usage: KeyUsage) -> (r: CrossSigningKey)
        requires
            self.wf(),
        ensures
            r@.user_id == user_id@,
            r@.usage == seq![usage_chars(usage)],
            r@.keys == seq![
                (
                    key_id_chars(self.seed_bytes()),
                    b64_encode(ed25519_public_of(self.seed_bytes()), false),
                ),
            ],
            r@.signatures == Seq::<(Seq<char>, Seq<(Seq<char>, Seq<char>)>)>::empty(),
    {
        let pk = self.public_key();
        let key_id = key_id_for(&pk);
        let mut usage_vec: Vec<String> = Vec::new();
        usage_vec.push(usage.tag());
        let mut keys: Vec<(String, String)> = Vec::new();
        keys.push((key_id, pk.to_string()));
        let signatures: Vec<(String, Vec<(String, String)>)> = Vec::new();
        let r = CrossSigningKey { user_id, usage: usage_vec, keys, signatures };
        proof {
            assert(strs_view(r.usage@) =~= seq![usage_chars(usage)]);
            assert(str_map_view(r.keys@) =~= seq![
                (
                    key_id_chars(self.seed_bytes()),
                    b64_encode(ed25519_public_of(self.seed_bytes()), false),
                ),
            ]);
            assert(sigs_view(r.signatures@) =~= Seq::<
                (Seq<char>, Seq<(Seq<char>, Seq<char>)>),
            >::empty());
        }
        r
    }
}

/// The master role: the root of trust, which attests sub-keys.
pub struct MasterSigning {
    pub inner: Signing,
    pub public_key: CrossSigningKey,
}

/// The self-signing role, which attests one's own devices.
pub struct SelfSigning {
    pub inner: Signing,
    pub public_key: CrossSigningKey,
}

/// The user-signing role, which attests other users' master keys.
pub struct UserSigning {
    pub inner: Signing,
    pub public_key: CrossSigningKey,
}

/// The pickled master role: the sealed seed beside the plain descriptor.
pub struct PickledMasterSigning {
    pub pickle: PickledSigning,
    pub public_key: CrossSigningKey,
}

/// The pickled user-signing role.
pub struct PickledUserSigning {
    pub pickle: PickledSigning,
    pub public_key: CrossSigningKey,
}

/// The pickled self-signing role.
pub struct PickledSelfSigning {
    pub pickle: PickledSigning,
    pub public_key: CrossSigningKey,
}

/// The pickled forms of whichever of the three role keys are held.
pub struct PickledSignings {
    pub master_key: Option<PickledMasterSigning>,
    pub user_signing_key: Option<PickledUserSigning>,
    pub self_signing_key: Option<PickledSelfSigning>,
}

impl MasterSigning {
    /// Seals the seed and carries the descriptor beside it, unencrypted.
    pub fn pickle(&self, pickle_key: &Vec<u8>) -> (r: PickledMasterSigning)
        requires
            self.inner.wf(),
            pickle_key@.len() == 32,
        ensures
            unpickle_seed(r.pickle@, pickle_key@) == Some(self.inner.seed_bytes()),
            r.public_key@ == self.public_key@,
    {
        PickledMasterSigning {
            pickle: self.inner.pickle(pickle_key),
            public_key: clone_descriptor(&self.public_key),
        }
    }

    /// Restores the role from its pickled form: the keypair is decrypted,
    /// the descriptor taken verbatim.
    pub fn from_pickle(pickle: PickledMasterSigning, pickle_key: &Vec<u8>) -> (r: Result<
        MasterSigning,
        SigningError,
    >)
        requires
            pickle_key@.len() == 32,
        ensures
            r matches Ok(m) <==> unpickle_seed(pickle.pickle@, pickle_key@) is Some,
            r matches Ok(m) ==> m.inner.wf() && Some(m.inner.seed_bytes()) == unpickle_seed(
                pickle.pickle@,
                pickle_key@,
            ) && m.public_key@ == pickle.public_key@,
            parse_envelope_chars(pickle.pickle@) is None ==> (r matches Err(e) && e
                == SigningError::Json),
            (parse_envelope_chars(pickle.pickle@) matches Some(f) && (b64_decode(f.0, true)
                is None || b64_decode(f.1, true) is None)) ==> (r matches Err(e) && e is Decode),
            (parse_envelope_chars(pickle.pickle@) matches Some(f) && b64_decode(f.0, true)
                is Some && b64_decode(f.1, true) is Some && unpickle_seed(
                pickle.pickle@,
                pickle_key@,
            ) is None) ==> (r matches Err(e) && e == SigningError::Decryption),
    {
        let inner = match Signing::from_pickle(pickle.pickle, pickle_key) {
            Ok(s) => s,
            Err(e) => {
                return Err(e);
            },
        };
        Ok(MasterSigning { inner, public_key: pickle.public_key })
    }

    /// Master delegation: signs the subkey's `user_id`, `keys` and
    /// `usage` fields (never its `signatures`) and records the signature
    /// under this master's user and key id.  Unrelated signature entries
    /// on the subkey stay untouched.
    pub fn sign_subkey(&self, subkey: &mut CrossSigningKey)
        requires
            self.inner.wf(),
            keys_sorted(old(subkey)@.keys),
            keys_sorted(sigs_view(old(subkey).signatures@)),
        ensures
            ed25519_verifies(
                ed25519_public_of(self.inner.seed_bytes()),
                subkey_payload_chars(old(subkey)@.user_id, old(subkey)@.usage, old(subkey)@.keys),
                ed25519_sig_of(
                    self.inner.seed_bytes(),
                    subkey_payload_chars(
                        old(subkey)@.user_id,
                        old(subkey)@.usage,
                        old(subkey)@.keys,
                    ),
                ),
            ),
            final(subkey)@.user_id == old(subkey)@.user_id,
            final(subkey)@.usage == old(subkey)@.usage,
            final(subkey)@.keys == old(subkey)@.keys,
            final(subkey)@.signatures == updated_signatures(
                old(subkey)@.signatures,
                self.public_key@.user_id,
                key_id_chars(self.inner.seed_bytes()),
                b64_encode(
                    ed25519_sig_of(
                        self.inner.seed_bytes(),
                        subkey_payload_chars(
                            old(subkey)@.user_id,
                            old(subkey)@.usage,
                            old(subkey)@.keys,
                        ),
                    ),
                    false,
                ),
            ),
            keys_sorted(final(subkey)@.signatures),
    {
        let message = build_subkey_payload(&subkey.user_id, &subkey.usage, &subkey.keys);
        let signature = self.inner.sign(message.as_str());
        let key_id = key_id_for(&self.inner.public_key());
        insert_signature(
            &mut subkey.signatures,
            &self.public_key.user_id,
            &key_id,
            signature.to_string(),
        );
    }
}

impl UserSigning {
    /// Seals the seed and carries the descriptor beside it, unencrypted.
    pub fn pickle(&self, pickle_key: &Vec<u8>) -> (r: PickledUserSigning)
        requires
            self.inner.wf(),
            pickle_key@.len() == 32,
        ensures
            unpickle_seed(r.pickle@, pickle_key@) == Some(self.inner.seed_bytes()),
            r.public_key@ == self.public_key@,
    {
        PickledUserSigning {
            pickle: self.inner.pickle(pickle_key),
            public_key: clone_descriptor(&self.public_key),
        }
    }

    /// Restores the role from its pickled form.
    pub fn from_pickle(pickle: PickledUserSigning, pickle_key: &Vec<u8>) -> (r: Result<
        UserSigning,
        SigningError,
    >)
        requires
            pickle_key@.len() == 32,
        ensures
            r matches Ok(m) <==> unpickle_seed(pickle.pickle@, pickle_key@) is Some,
            r matches Ok(m) ==> m.inner.wf() && Some(m.inner.seed_bytes()) == unpickle_seed(
                pickle.pickle@,
                pickle_key@,
            ) && m.public_key@ == pickle.public_key@,
            parse_envelope_chars(pickle.pickle@) is None ==> (r matches Err(e) && e
                == SigningError::Json),
            (parse_envelope_chars(pickle.pickle@) matches Some(f) && (b64_decode(f.0, true)
                is None || b64_decode(f.1, true) is None)) ==> (r matches Err(e) && e is Decode),
            (parse_envelope_chars(pickle.pickle@) matches Some(f) && b64_decode(f.0, true)
                is Some && b64_decode(f.1, true) is Some && unpickle_seed(
                pickle.pickle@,
                pickle_key@,
            ) is None) ==> (r matches Err(e) && e == SigningError::Decryption),
    {
        let inner = match Signing::from_pickle(pickle.pickle, pickle_key) {
            Ok(s) => s,
            Err(e) => {
                return Err(e);
            },
        };
        Ok(UserSigning { inner, public_key: pickle.public_key })
    }

    /// Signs another user's master-key descriptor (its `user_id`, `keys`
    /// and `usage`, never its `signatures`) and returns the signature as
    /// a detached map keyed by this signer's user and key id, for the
    /// caller to merge: the target descriptor is owned by another party
    /// and is not written in place.
    pub fn sign_user(&self, user_master: &CrossSigningKey) -> (r: Result<
        Vec<(String, Vec<(String, String)>)>,
        SignatureError,
    >)
        requires
            self.inner.wf(),
            keys_sorted(user_master@.keys),
        ensures
            ed25519_verifies(
                ed25519_public_of(self.inner.seed_bytes()),
                subkey_payload_chars(
                    user_master@.user_id,
                    user_master@.usage,
                    user_master@.keys,
                ),
                ed25519_sig_of(
                    self.inner.seed_bytes(),
                    subkey_payload_chars(
                        user_master@.user_id,
                        user_master@.usage,
                        user_master@.keys,
                    ),
                ),
            ),
            r matches Ok(m) && sigs_view(m@) == seq![
                (
                    self.public_key@.user_id,
                    seq![
                        (
                            key_id_chars(self.inner.seed_bytes()),
                            b64_encode(
                                ed25519_sig_of(
                                    self.inner.seed_bytes(),
                                    subkey_payload_chars(
                                        user_master@.user_id,
                                        user_master@.usage,
                                        user_master@.keys,
                                    ),
                                ),
                                false,
                            ),
                        ),
                    ],
                ),
            ],
    {
        let message = build_subkey_payload(
            &user_master.user_id,
            &user_master.usage,
            &user_master.keys,
        );
        let signature = self.inner.sign(message.as_str());
        let key_id = key_id_for(&self.inner.public_key());
        let mut inner_map: Vec<(String, String)> = Vec::new();
        inner_map.push((key_id, signature.to_string()));
        let mut out: Vec<(String, Vec<(String, String)>)> = Vec::new();
        out.push((self.public_key.user_id.clone(), inner_map));
        proof {
            assert(sigs_view(out@) =~~= seq![
                (
                    self.public_key@.user_id,
                    seq![
                        (
                            key_id_chars(self.inner.seed_bytes()),
                            b64_encode(
                                ed25519_sig_of(
                                    self.inner.seed_bytes(),
                                    subkey_payload_chars(
                                        user_master@.user_id,
                                        user_master@.usage,
                                        user_master@.keys,
                                    ),
                                ),
                                false,
                            ),
                        ),
                    ],
                ),
            ]);
        }
        Ok(out)
    }
}

impl SelfSigning {
    /// Seals the seed and carries the descriptor beside it, unencrypted.
    pub fn pickle(&self, pickle_key: &Vec<u8>) -> (r: PickledSelfSigning)
        requires
            self.inner.wf(),
            pickle_key@.len() == 32,
        ensures
            unpickle_seed(r.pickle@, pickle_key@) == Some(self.inner.seed_bytes()),
            r.public_key@ == self.public_key@,
    {
        PickledSelfSigning {
            pickle: self.inner.pickle(pickle_key),
            public_key: clone_descriptor(&self.public_key),
        }
    }

    /// Restores the role from its pickled form.
    pub fn from_pickle(pickle: PickledSelfSigning, pickle_key: &Vec<u8>) -> (r: Result<
        SelfSigning,
        SigningError,
    >)
        requires
            pickle_key@.len() == 32,
        ensures
            r matches Ok(m) <==> unpickle_seed(pickle.pickle@, pickle_key@) is Some,
            r matches Ok(m) ==> m.inner.wf() && Some(m.inner.seed_bytes()) == unpickle_seed(
                pickle.pickle@,
                pickle_key@,
            ) && m.public_key@ == pickle.public_key@,
            parse_envelope_chars(pickle.pickle@) is None ==> (r matches Err(e) && e
                == SigningError::Json),
            (parse_envelope_chars(pickle.pickle@) matches Some(f) && (b64_decode(f.0, true)
                is None || b64_decode(f.1, true) is None)) ==> (r matches Err(e) && e is Decode),
            (parse_envelope_chars(pickle.pickle@) matches Some(f) && b64_decode(f.0, true)
                is Some && b64_decode(f.1, true) is Some && unpickle_seed(
                pickle.pickle@,
                pickle_key@,
            ) is None) ==> (r matches Err(e) && e == SigningError::Decryption),
    {
        let inner = match Signing::from_pickle(pickle.pickle, pickle_key) {
            Ok(s) => s,
            Err(e) => {
                return Err(e);
            },
        };
        Ok(SelfSigning { inner, public_key: pickle.public_key })
    }

    /// Signs a JSON value under the canonical `sign_json` contract, with
    /// this role's keypair.  As there, the value must carry its objects
    /// in sorted key order.
    pub fn sign_device_helper(&self, value: Json) -> (r: Result<EncodedSignature, SignatureError>)
        requires
            self.inner.wf(),
            json_sorted(value),
        ensures
            value matches Json::Obj(fields) ==> (r matches Ok(sig) && sig@ == b64_encode(
                ed25519_sig_of(
                    self.inner.seed_bytes(),
                    seq!['{'] + canon_fields(assoc_remove(fields@, sig_lit())) + seq!['}'],
                ),
                false,
            )),
            !(value is Obj) ==> r == Err::<EncodedSignature, SignatureError>(
                SignatureError::NotAnObject,
            ),
    {
        self.inner.sign_json(value)
    }

    /// Device attestation: signs the device's `user_id`, `device_id`,
    /// `algorithms` and `keys` fields (never its `signatures` or other
    /// extras) and records the signature in the device record under this
    /// role's user and key id.  The record is written in place because
    /// the caller owns both the key and the local device record.
    pub fn sign_device(&self, device_keys: &mut DeviceKeys) -> (r: Result<(), SignatureError>)
        requires
            self.inner.wf(),
            keys_sorted(old(device_keys)@.keys),
            keys_sorted(sigs_view(old(device_keys).signatures@)),
        ensures
            r is Ok,
            ed25519_verifies(
                ed25519_public_of(self.inner.seed_bytes()),
                device_payload_chars(old(device_keys)@),
                ed25519_sig_of(self.inner.seed_bytes(), device_payload_chars(old(device_keys)@)),
            ),
            final(device_keys)@.user_id == old(device_keys)@.user_id,
            final(device_keys)@.device_id == old(device_keys)@.device_id,
            final(device_keys)@.algorithms == old(device_keys)@.algorithms,
            final(device_keys)@.keys == old(device_keys)@.keys,
            final(device_keys)@.signatures == updated_signatures(
                old(device_keys)@.signatures,
                self.public_key@.user_id,
                key_id_chars(self.inner.seed_bytes()),
                b64_encode(
                    ed25519_sig_of(
                        self.inner.seed_bytes(),
                        device_payload_chars(old(device_keys)@),
                    ),
                    false,
                ),
            ),
            keys_sorted(final(device_keys)@.signatures),
    {
        let message = build_device_payload(device_keys);
        let signature = self.inner.sign(message.as_str());
        let key_id = key_id_for(&self.inner.public_key());
        insert_signature(
            &mut device_keys.signatures,
            &self.public_key.user_id,
            &key_id,
            signature.to_string(),
        );
        Ok(())
    }
}

} // verus!
