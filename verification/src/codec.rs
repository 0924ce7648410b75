//! Unpadded base64, in the standard and the URL-safe alphabet.
//!
//! Public keys and signatures are carried as standard-alphabet base64;
//! the pickle envelope carries its nonce and ciphertext in the URL-safe
//! alphabet.  Both directions are verified against one spec model, and
//! decoding is proved to invert encoding.

use vstd::prelude::*;

use crate::text::push_char;

verus! {

/// Why a base64 string failed to decode.
#[derive(Clone, Copy, PartialEq, Eq, Structural, Debug)]
pub enum DecodeError {
    /// A character outside the expected alphabet.
    InvalidChar,
    /// A length no unpadded base64 encoding can have, or nonzero unused
    /// trailing bits in the final group.
    InvalidLength,
}

/// The base64 character for a six-bit value.
pub open spec fn b64_char(v: u8, url: bool) -> char
    recommends
        v < 64,
{
    if v < 26 {
        ((v + 65) as u8) as char
    } else if v < 52 {
        ((v - 26 + 97) as u8) as char
    } else if v < 62 {
        ((v - 52 + 48) as u8) as char
    } else if v == 62 {
        if url {
            '-'
        } else {
            '+'
        }
    } else {
        if url {
            '_'
        } else {
            '/'
        }
    }
}

/// The six-bit value of a base64 character, if it is in the alphabet.
pub open spec fn b64_val(c: char, url: bool) -> Option<u8> {
    let n = c as u32;
    if 65 <= n && n <= 90 {
        Some((n - 65) as u8)
    } else if 97 <= n && n <= 122 {
        Some((n - 97 + 26) as u8)
    } else if 48 <= n && n <= 57 {
        Some((n - 48 + 52) as u8)
    } else if (!url && c == '+') || (url && c == '-') {
        Some(62u8)
    } else if (!url && c == '/') || (url && c == '_') {
        Some(63u8)
    } else {
        None
    }
}

/// Unpadded base64 encoding of a byte sequence: full three-byte groups
/// become four characters, a final group of one or two bytes becomes two
/// or three characters.
pub open spec fn b64_encode(bytes: Seq<u8>, url: bool) -> Seq<char>
    decreases bytes.len(),
{
    if bytes.len() == 0 {
        Seq::<char>::empty()
    } else if bytes.len() == 1 {
        let b0 = bytes[0];
        seq![b64_char(b0 >> 2, url), b64_char((b0 & 3) << 4, url)]
    } else if bytes.len() == 2 {
        let b0 = bytes[0];
        let b1 = bytes[1];
        seq![
            b64_char(b0 >> 2, url),
            b64_char(((b0 & 3) << 4) | (b1 >> 4), url),
            b64_char((b1 & 15) << 2, url),
        ]
    } else {
        let b0 = bytes[0];
        let b1 = bytes[1];
        let b2 = bytes[2];
        seq![
            b64_char(b0 >> 2, url),
            b64_char(((b0 & 3) << 4) | (b1 >> 4), url),
            b64_char(((b1 & 15) << 2) | (b2 >> 6), url),
            b64_char(b2 & 63, url),
        ] + b64_encode(bytes.skip(3), url)
    }
}

/// Strict unpadded base64 decoding: every character must be in the
/// alphabet, the length must not be 1 mod 4, and the unused low bits of a
/// final short group must be zero.
pub open spec fn b64_decode(s: Seq<char>, url: bool) -> Option<Seq<u8>>
    decreases s.len(),
{
    if s.len() == 0 {
        Some(Seq::<u8>::empty())
    } else if s.len() == 1 {
        None
    } else if s.len() == 2 {
        match (b64_val(s[0], url), b64_val(s[1], url)) {
            (Some(v0), Some(v1)) => if v1 & 15 == 0 {
                Some(seq![(v0 << 2) | (v1 >> 4)])
            } else {
                None
            },
            _ => None,
        }
    } else if s.len() == 3 {
        match (b64_val(s[0], url), b64_val(s[1], url), b64_val(s[2], url)) {
            (Some(v0), Some(v1), Some(v2)) => if v2 & 3 == 0 {
                Some(seq![(v0 << 2) | (v1 >> 4), ((v1 & 15) << 4) | (v2 >> 2)])
            } else {
                None
            },
            _ => None,
        }
    } else {
        match (b64_val(s[0], url), b64_val(s[1], url), b64_val(s[2], url), b64_val(s[3], url)) {
            (Some(v0), Some(v1), Some(v2), Some(v3)) => match b64_decode(s.skip(4), url) {
                Some(rest) => Some(
                    seq![
                        (v0 << 2) | (v1 >> 4),
                        ((v1 & 15) << 4) | (v2 >> 2),
                        ((v2 & 3) << 6) | v3,
                    ] + rest,
                ),
                None => None,
            },
            _ => None,
        }
    }
}

/// A six-bit value maps into the alphabet and back to itself.
proof fn lemma_char_val_inverse(v: u8, url: bool)
    requires
        v < 64,
    ensures
        b64_val(b64_char(v, url), url) == Some(v),
{
}

/// Decoding inverts encoding: one group of at most three bytes.
proof fn lemma_group_roundtrip(b0: u8, b1: u8, b2: u8)
    ensures
        ((b0 >> 2) << 2) | ((((b0 & 3) << 4) | (b1 >> 4)) >> 4) == b0,
        (((((b0 & 3) << 4) | (b1 >> 4)) & 15) << 4) | ((((b1 & 15) << 2) | (b2 >> 6)) >> 2) == b1,
        (((((b1 & 15) << 2) | (b2 >> 6)) & 3) << 6) | (b2 & 63) == b2,
        (((b0 & 3) << 4) | (b1 >> 4)) < 64,
        (b0 >> 2) < 64,
        (((b1 & 15) << 2) | (b2 >> 6)) < 64,
        (b2 & 63) < 64,
        ((b0 & 3) << 4) & 15 == 0,
        ((b0 & 3) << 4) < 64,
        ((b1 & 15) << 2) & 3 == 0,
        ((b1 & 15) << 2) < 64,
        ((b0 >> 2) << 2) | (((b0 & 3) << 4) >> 4) == b0,
        (((((b0 & 3) << 4) | (b1 >> 4)) & 15) << 4) | (((b1 & 15) << 2) >> 2) == b1,
{
    assert(((b0 >> 2) << 2) | ((((b0 & 3) << 4) | (b1 >> 4)) >> 4) == b0) by (bit_vector);
    assert((((((b0 & 3) << 4) | (b1 >> 4)) & 15) << 4) | ((((b1 & 15) << 2) | (b2 >> 6)) >> 2)
        == b1) by (bit_vector);
    assert((((((b1 & 15) << 2) | (b2 >> 6)) & 3) << 6) | (b2 & 63) == b2) by (bit_vector);
    assert((((b0 & 3) << 4) | (b1 >> 4)) < 64) by (bit_vector);
    assert((b0 >> 2) < 64) by (bit_vector);
    assert((((b1 & 15) << 2) | (b2 >> 6)) < 64) by (bit_vector);
    assert((b2 & 63) < 64) by (bit_vector);
    assert(((b0 & 3) << 4) & 15 == 0) by (bit_vector);
    assert(((b0 & 3) << 4) < 64) by (bit_vector);
    assert(((b1 & 15) << 2) & 3 == 0) by (bit_vector);
    assert(((b1 & 15) << 2) < 64) by (bit_vector);
    assert(((b0 >> 2) << 2) | (((b0 & 3) << 4) >> 4) == b0) by (bit_vector);
    assert((((((b0 & 3) << 4) | (b1 >> 4)) & 15) << 4) | (((b1 & 15) << 2) >> 2)
        == b1) by (bit_vector);
}

/// Decoding inverts encoding.
#[verifier::rlimit(100)]
pub proof fn lemma_b64_roundtrip(bytes: Seq<u8>, url: bool)
    ensures
        b64_decode(b64_encode(bytes, url), url) == Some(bytes),
    decreases bytes.len(),
{
    let s = b64_encode(bytes, url);
    if bytes.len() == 0 {
        assert(bytes =~= Seq::<u8>::empty());
    } else if bytes.len() == 1 {
        let b0 = bytes[0];
        lemma_group_roundtrip(b0, 0, 0);
        lemma_char_val_inverse(b0 >> 2, url);
        lemma_char_val_inverse((b0 & 3) << 4, url);
        assert(b64_decode(s, url) == Some(seq![b0]));
        assert(bytes =~= seq![b0]);
    } else if bytes.len() == 2 {
        let b0 = bytes[0];
        let b1 = bytes[1];
        lemma_group_roundtrip(b0, b1, 0);
        lemma_char_val_inverse(b0 >> 2, url);
        lemma_char_val_inverse(((b0 & 3) << 4) | (b1 >> 4), url);
        lemma_char_val_inverse((b1 & 15) << 2, url);
        assert(b64_decode(s, url) == Some(seq![b0, b1]));
        assert(bytes =~= seq![b0, b1]);
    } else {
        let b0 = bytes[0];
        let b1 = bytes[1];
        let b2 = bytes[2];
        lemma_group_roundtrip(b0, b1, b2);
        lemma_char_val_inverse(b0 >> 2, url);
        lemma_char_val_inverse(((b0 & 3) << 4) | (b1 >> 4), url);
        lemma_char_val_inverse(((b1 & 15) << 2) | (b2 >> 6), url);
        lemma_char_val_inverse(b2 & 63, url);
        lemma_b64_roundtrip(bytes.skip(3), url);
        assert(s.skip(4) =~= b64_encode(bytes.skip(3), url));
        assert(b64_decode(s, url) == Some(seq![b0, b1, b2] + bytes.skip(3)));
        assert(bytes =~= seq![b0, b1, b2] + bytes.skip(3));
    }
}

/// The encoding holds no quote and no backslash, so an encoded value can
/// stand inside a JSON string literal unescaped.
pub proof fn lemma_b64_no_quote(bytes: Seq<u8>, url: bool)
    ensures
        forall|i: int|
            0 <= i < b64_encode(bytes, url).len() ==> b64_encode(bytes, url)[i] != '"'
                && b64_encode(bytes, url)[i] != '\\',
    decreases bytes.len(),
{
    let s = b64_encode(bytes, url);
    assert forall|v: u8| b64_char(v, url) != '"' && b64_char(v, url) != '\\' by {
        assert(('"' as u32) == 34 && ('\\' as u32) == 92);
    }
    if bytes.len() <= 2 {
        assert forall|i: int| 0 <= i < s.len() implies s[i] != '"' && s[i] != '\\' by {}
    } else {
        lemma_b64_no_quote(bytes.skip(3), url);
        let tail = b64_encode(bytes.skip(3), url);
        assert forall|i: int| 0 <= i < s.len() implies s[i] != '"' && s[i] != '\\' by {
            if i >= 4 {
                assert(s[i] == tail[i - 4]);
            }
        }
    }
}

/// The executable character table.
fn b64_char_exec(v: u8, url: bool) -> (c: char)
    requires
        v < 64,
    ensures
        c == b64_char(v, url),
{
    if v < 26 {
        (v + 65) as char
    } else if v < 52 {
        (v - 26 + 97) as char
    } else if v < 62 {
        (v - 52 + 48) as char
    } else if v == 62 {
        if url {
            '-'
        } else {
            '+'
        }
    } else {
        if url {
            '_'
        } else {
            '/'
        }
    }
}

/// The executable inverse character table.
fn b64_val_exec(c: char, url: bool) -> (r: Option<u8>)
    ensures
        r == b64_val(c, url),
{
    let n = c as u32;
    if 65 <= n && n <= 90 {
        Some((n - 65) as u8)
    } else if 97 <= n && n <= 122 {
        Some((n - 97 + 26) as u8)
    } else if 48 <= n && n <= 57 {
        Some((n - 48 + 52) as u8)
    } else if (!url && c == '+') || (url && c == '-') {
        Some(62u8)
    } else if (!url && c == '/') || (url && c == '_') {
        Some(63u8)
    } else {
        None
    }
}

/// Encodes `bytes` as unpadded base64 in the chosen alphabet.
pub fn encode_config(bytes: &Vec<u8>, url: bool) -> (r: String)
    ensures
        r@ == b64_encode(bytes@, url),
{
    let mut out = String::new();
    let mut i: usize = 0;
    proof {
        assert(bytes@.skip(0) =~= bytes@);
        assert(Seq::<char>::empty() + b64_encode(bytes@, url) =~= b64_encode(bytes@, url));
    }
    while bytes.len() - i >= 3
        invariant
            i <= bytes.len(),
            out@ + b64_encode(bytes@.skip(i as int), url) == b64_encode(bytes@, url),
        decreases bytes.len() - i,
    {
        let b0 = bytes[i];
        let b1 = bytes[i + 1];
        let b2 = bytes[i + 2];
        let ghost out0 = out@;
        proof {
            assert(b0 >> 2 < 64 && ((b0 & 3) << 4) | (b1 >> 4) < 64 && ((b1 & 15) << 2) | (b2
                >> 6) < 64 && b2 & 63 < 64) by (bit_vector);
        }
        push_char(&mut out, b64_char_exec(b0 >> 2, url));
        push_char(&mut out, b64_char_exec(((b0 & 3) << 4) | (b1 >> 4), url));
        push_char(&mut out, b64_char_exec(((b1 & 15) << 2) | (b2 >> 6), url));
        push_char(&mut out, b64_char_exec(b2 & 63, url));
        proof {
            let rest = bytes@.skip(i as int);
            assert(rest.skip(3) =~= bytes@.skip(i + 3));
            assert(rest[0] == b0 && rest[1] == b1 && rest[2] == b2);
            assert(out@ =~= out0 + seq![
                b64_char(b0 >> 2, url),
                b64_char(((b0 & 3) << 4) | (b1 >> 4), url),
                b64_char(((b1 & 15) << 2) | (b2 >> 6), url),
                b64_char(b2 & 63, url),
            ]);
            assert(out@ + b64_encode(bytes@.skip(i + 3), url) =~= out0 + b64_encode(
                rest,
                url,
            ));
        }
        i = i + 3;
    }
    let ghost out0 = out@;
    if bytes.len() - i == 1 {
        let b0 = bytes[i];
        proof {
            assert(b0 >> 2 < 64 && ((b0 & 3) << 4) < 64) by (bit_vector);
            assert(bytes@.skip(i as int) =~= seq![b0]);
        }
        push_char(&mut out, b64_char_exec(b0 >> 2, url));
        push_char(&mut out, b64_char_exec((b0 & 3) << 4, url));
        proof {
            assert(out@ =~= out0 + seq![b64_char(b0 >> 2, url), b64_char((b0 & 3) << 4, url)]);
        }
    } else if bytes.len() - i == 2 {
        let b0 = bytes[i];
        let b1 = bytes[i + 1];
        proof {
            assert(b0 >> 2 < 64 && ((b0 & 3) << 4) | (b1 >> 4) < 64 && ((b1 & 15) << 2)
                < 64) by (bit_vector);
            assert(bytes@.skip(i as int) =~= seq![b0, b1]);
        }
        push_char(&mut out, b64_char_exec(b0 >> 2, url));
        push_char(&mut out, b64_char_exec(((b0 & 3) << 4) | (b1 >> 4), url));
        push_char(&mut out, b64_char_exec((b1 & 15) << 2, url));
        proof {
            assert(out@ =~= out0 + seq![
                b64_char(b0 >> 2, url),
                b64_char(((b0 & 3) << 4) | (b1 >> 4), url),
                b64_char((b1 & 15) << 2, url),
            ]);
        }
    } else {
        proof {
            assert(bytes@.skip(i as int) =~= Seq::<u8>::empty());
            assert(out@ =~= out0 + b64_encode(bytes@.skip(i as int), url));
        }
    }
    proof {
        assert(out@ =~= b64_encode(bytes@, url));
    }
    out
}

/// Encodes with the standard alphabet, as public keys and signatures are.
pub fn encode(bytes: &Vec<u8>) -> (r: String)
    ensures
        r@ == b64_encode(bytes@, false),
{
    encode_config(bytes, false)
}

/// Encodes with the URL-safe alphabet, as the pickle envelope fields are.
pub fn encode_url_safe(bytes: &Vec<u8>) -> (r: String)
    ensures
        r@ == b64_encode(bytes@, true),
{
    encode_config(bytes, true)
}

/// Decodes strict unpadded base64 in the chosen alphabet.
pub fn decode_config(s: &str, url: bool) -> (r: Result<Vec<u8>, DecodeError>)
    ensures
        r matches Ok(b) ==> b64_decode(s@, url) == Some(b@),
        r is Err ==> b64_decode(s@, url) is None,
{
    let n = s.unicode_len();
    if n % 4 == 1 {
        proof {
            lemma_decode_bad_len(s@, url);
        }
        return Err(DecodeError::InvalidLength);
    }
    let mut out: Vec<u8> = Vec::new();
    let mut i: usize = 0;
    proof {
        assert(s@.skip(0) =~= s@);
        if b64_decode(s@, url) is Some {
            let all = b64_decode(s@, url).unwrap();
            assert(all =~= Seq::<u8>::empty() + all);
        }
    }
    while n - i >= 4
        invariant
            n == s@.len(),
            n % 4 != 1,
            i % 4 == 0,
            i <= n,
            b64_decode(s@, url) matches Some(all) ==> (b64_decode(s@.skip(i as int), url) matches
                Some(rest) && all == out@ + rest),
            b64_decode(s@.skip(i as int), url) is Some ==> b64_decode(s@, url) is Some,
        decreases n - i,
    {
        let c0 = b64_val_exec(s.get_char(i), url);
        let c1 = b64_val_exec(s.get_char(i + 1), url);
        let c2 = b64_val_exec(s.get_char(i + 2), url);
        let c3 = b64_val_exec(s.get_char(i + 3), url);
        proof {
            let rest_i = s@.skip(i as int);
            assert(rest_i[0] == s@[i as int] && rest_i[1] == s@[i + 1] && rest_i[2] == s@[i + 2]
                && rest_i[3] == s@[i + 3]);
            assert(rest_i.skip(4) =~= s@.skip(i + 4));
        }
        match (c0, c1, c2, c3) {
            (Some(v0), Some(v1), Some(v2), Some(v3)) => {
                let ghost out0 = out@;
                let ghost group = seq![
                    (v0 << 2) | (v1 >> 4),
                    ((v1 & 15) << 4) | (v2 >> 2),
                    ((v2 & 3) << 6) | v3,
                ];
                out.push((v0 << 2) | (v1 >> 4));
                out.push(((v1 & 15) << 4) | (v2 >> 2));
                out.push(((v2 & 3) << 6) | v3);
                proof {
                    assert(out@ =~= out0 + group);
                    if b64_decode(s@, url) is Some {
                        let rest = b64_decode(s@.skip(i as int), url).unwrap();
                        let rest2 = b64_decode(s@.skip(i + 4), url).unwrap();
                        assert(rest == group + rest2);
                        assert(out0 + rest =~= out@ + rest2);
                    }
                }
            },
            _ => {
                proof {
                    assert(b64_decode(s@.skip(i as int), url) is None);
                }
                return Err(DecodeError::InvalidChar);
            },
        }
        i = i + 4;
    }
    proof {
        assert((n - i) % 4 == n % 4) by (nonlinear_arith)
            requires
                i % 4 == 0,
                n % 4 != 1,
                i <= n,
        ;
    }
    if n - i == 0 {
        proof {
            assert(s@.skip(i as int) =~= Seq::<char>::empty());
            if b64_decode(s@, url) is Some {
                let all = b64_decode(s@, url).unwrap();
                assert(all =~= out@);
            }
        }
        return Ok(out);
    }
    if n - i == 2 {
        let c0 = b64_val_exec(s.get_char(i), url);
        let c1 = b64_val_exec(s.get_char(i + 1), url);
        proof {
            let rest_i = s@.skip(i as int);
            assert(rest_i.len() == 2);
            assert(rest_i[0] == s@[i as int] && rest_i[1] == s@[i + 1]);
        }
        match (c0, c1) {
            (Some(v0), Some(v1)) => {
                if v1 & 15 == 0 {
                    let ghost out0 = out@;
                    out.push((v0 << 2) | (v1 >> 4));
                    proof {
                        assert(out@ =~= out0 + seq![(v0 << 2) | (v1 >> 4)]);
                        let all = b64_decode(s@, url).unwrap();
                        assert(all =~= out@);
                    }
                    return Ok(out);
                }
                Err(DecodeError::InvalidLength)
            },
            _ => Err(DecodeError::InvalidChar),
        }
    } else {
        let c0 = b64_val_exec(s.get_char(i), url);
        let c1 = b64_val_exec(s.get_char(i + 1), url);
        let c2 = b64_val_exec(s.get_char(i + 2), url);
        proof {
            let rest_i = s@.skip(i as int);
            assert(rest_i.len() == 3);
            assert(rest_i[0] == s@[i as int] && rest_i[1] == s@[i + 1] && rest_i[2] == s@[i + 2]);
        }
        match (c0, c1, c2) {
            (Some(v0), Some(v1), Some(v2)) => {
                if v2 & 3 == 0 {
                    let ghost out0 = out@;
                    out.push((v0 << 2) | (v1 >> 4));
                    out.push(((v1 & 15) << 4) | (v2 >> 2));
                    proof {
                        assert(out@ =~= out0 + seq![(v0 << 2) | (v1 >> 4), ((v1 & 15) << 4) | (
                        v2 >> 2)]);
                        let all = b64_decode(s@, url).unwrap();
                        assert(all =~= out@);
                    }
                    return Ok(out);
                }
                Err(DecodeError::InvalidLength)
            },
            _ => Err(DecodeError::InvalidChar),
        }
    }
}

/// A sequence of length 1 mod 4 never decodes.
proof fn lemma_decode_bad_len(s: Seq<char>, url: bool)
    requires
        s.len() % 4 == 1,
    ensures
        b64_decode(s, url) is None,
    decreases s.len(),
{
    if s.len() > 4 {
        lemma_decode_bad_len(s.skip(4), url);
    }
}

/// Decodes standard-alphabet base64, as signatures are carried.
pub fn decode(s: &str) -> (r: Result<Vec<u8>, DecodeError>)
    ensures
        r matches Ok(b) ==> b64_decode(s@, false) == Some(b@),
        r is Err ==> b64_decode(s@, false) is None,
{
    decode_config(s, false)
}

/// Decodes URL-safe-alphabet base64, as the pickle envelope fields are.
pub fn decode_url_safe(s: &str) -> (r: Result<Vec<u8>, DecodeError>)
    ensures
        r matches Ok(b) ==> b64_decode(s@, true) == Some(b@),
        r is Err ==> b64_decode(s@, true) is None,
{
    decode_config(s, true)
}

} // verus!
