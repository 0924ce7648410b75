//! The pickle envelope: `{"version":1,"nonce":"...","ciphertext":"..."}`.
//!
//! The envelope is rendered exactly as the protocol's compact JSON
//! encoder writes it (fixed field order, no whitespace), and parsed by
//! the same grammar; parsing is proved to invert rendering.  An envelope
//! of any other version, order or shape is rejected.

use vstd::prelude::*;

use crate::text::push_char;

verus! {

/// The characters before the nonce: `{"version":1,"nonce":"`.
pub open spec fn head_lit() -> Seq<char> {
    seq![
        '{',
        '"',
        'v',
        'e',
        'r',
        's',
        'i',
        'o',
        'n',
        '"',
        ':',
        '1',
        ',',
        '"',
        'n',
        'o',
        'n',
        'c',
        'e',
        '"',
        ':',
        '"',
    ]
}

/// The characters between nonce and ciphertext: `","ciphertext":"`.
pub open spec fn mid_lit() -> Seq<char> {
    seq!['"', ',', '"', 'c', 'i', 'p', 'h', 'e', 'r', 't', 'e', 'x', 't', '"', ':', '"']
}

/// The closing characters: `"}`.
pub open spec fn tail_lit() -> Seq<char> {
    seq!['"', '}']
}

/// The rendered envelope around a nonce and a ciphertext, both already
/// base64.
pub open spec fn envelope_chars(nonce: Seq<char>, ciphertext: Seq<char>) -> Seq<char> {
    head_lit() + nonce + mid_lit() + ciphertext + tail_lit()
}

/// No quote character anywhere: what lets a string stand unescaped
/// between quotes.
pub open spec fn quote_free(s: Seq<char>) -> bool {
    forall|i: int| 0 <= i < s.len() ==> s[i] != '"'
}

/// The position of the first quote at or after `from`.
pub open spec fn first_quote(s: Seq<char>, from: int) -> Option<int>
    decreases s.len() - from,
{
    if from < 0 || from >= s.len() {
        None
    } else if s[from] == '"' {
        Some(from)
    } else {
        first_quote(s, from + 1)
    }
}

/// What the envelope grammar makes of a character sequence: the nonce
/// and ciphertext fields, if the sequence is a version-1 envelope.
pub open spec fn parse_envelope_chars(s: Seq<char>) -> Option<(Seq<char>, Seq<char>)> {
    if s.len() < 22 || s.take(22) != head_lit() {
        None
    } else {
        match first_quote(s, 22) {
            None => None,
            Some(i) => if i + 16 > s.len() || s.subrange(i, i + 16) != mid_lit() {
                None
            } else {
                match first_quote(s, i + 16) {
                    None => None,
                    Some(j) => if j + 2 == s.len() && s.subrange(j, s.len() as int) == tail_lit() {
                        Some((s.subrange(22, i), s.subrange(i + 16, j)))
                    } else {
                        None
                    },
                }
            },
        }
    }
}

/// A scan that saw no quote up to a quote finds exactly that quote.
proof fn lemma_first_quote_found(s: Seq<char>, a: int, b: int)
    requires
        0 <= a <= b < s.len(),
        forall|k: int| a <= k < b ==> s[k] != '"',
        s[b] == '"',
    ensures
        first_quote(s, a) == Some(b),
    decreases b - a,
{
    if a < b {
        lemma_first_quote_found(s, a + 1, b);
    }
}

/// Parsing inverts rendering: an envelope around quote-free fields gives
/// those fields back.
pub proof fn lemma_envelope_roundtrip(nonce: Seq<char>, ciphertext: Seq<char>)
    requires
        quote_free(nonce),
        quote_free(ciphertext),
    ensures
        parse_envelope_chars(envelope_chars(nonce, ciphertext)) == Some((nonce, ciphertext)),
{
    let s = envelope_chars(nonce, ciphertext);
    let i = 22 + nonce.len() as int;
    let j = i + 16 + ciphertext.len() as int;
    assert(s.len() == 40 + nonce.len() + ciphertext.len());
    assert(s.take(22) =~= head_lit());
    assert(forall|k: int| 22 <= k < i ==> s[k] == nonce[k - 22]);
    assert(s[i] == mid_lit()[0]);
    lemma_first_quote_found(s, 22, i);
    assert(s.subrange(i, i + 16) =~= mid_lit());
    assert(forall|k: int| i + 16 <= k < j ==> s[k] == ciphertext[k - (i + 16)]);
    assert(s[j] == tail_lit()[0]);
    lemma_first_quote_found(s, i + 16, j);
    assert(s.subrange(j, s.len() as int) =~= tail_lit());
    assert(s.subrange(22, i) =~= nonce);
    assert(s.subrange(i + 16, j) =~= ciphertext);
}

/// Renders the envelope around two already-encoded fields.
pub fn render_envelope(nonce: &String, ciphertext: &String) -> (r: String)
    ensures
        r@ == envelope_chars(nonce@, ciphertext@),
{
    let mut out = String::new();
    push_lit_head(&mut out);
    out.append(nonce.as_str());
    push_lit_mid(&mut out);
    out.append(ciphertext.as_str());
    push_char(&mut out, '"');
    push_char(&mut out, '}');
    proof {
        assert(out@ =~= envelope_chars(nonce@, ciphertext@));
    }
    out
}

/// Appends the opening literal.
fn push_lit_head(out: &mut String)
    ensures
        final(out)@ == old(out)@ + head_lit(),
{
    push_char(out, '{');
    push_char(out, '"');
    push_char(out, 'v');
    push_char(out, 'e');
    push_char(out, 'r');
    push_char(out, 's');
    push_char(out, 'i');
    push_char(out, 'o');
    push_char(out, 'n');
    push_char(out, '"');
    push_char(out, ':');
    push_char(out, '1');
    push_char(out, ',');
    push_char(out, '"');
    push_char(out, 'n');
    push_char(out, 'o');
    push_char(out, 'n');
    push_char(out, 'c');
    push_char(out, 'e');
    push_char(out, '"');
    push_char(out, ':');
    push_char(out, '"');
    proof {
        assert(out@ =~= old(out)@ + head_lit());
    }
}

/// Appends the middle literal.
fn push_lit_mid(out: &mut String)
    ensures
        final(out)@ == old(out)@ + mid_lit(),
{
    push_char(out, '"');
    push_char(out, ',');
    push_char(out, '"');
    push_char(out, 'c');
    push_char(out, 'i');
    push_char(out, 'p');
    push_char(out, 'h');
    push_char(out, 'e');
    push_char(out, 'r');
    push_char(out, 't');
    push_char(out, 'e');
    push_char(out, 'x');
    push_char(out, 't');
    push_char(out, '"');
    push_char(out, ':');
    push_char(out, '"');
    proof {
        assert(out@ =~= old(out)@ + mid_lit());
    }
}

/// Finds the first quote at or after `from`.
fn find_quote(s: &str, from: usize) -> (r: Option<usize>)
    requires
        from <= s@.len(),
    ensures
        r matches Some(i) ==> from <= i < s@.len() && first_quote(s@, from as int) == Some(i as int),
        r is None ==> first_quote(s@, from as int) is None,
{
    let n = s.unicode_len();
    let mut i = from;
    while i < n
        invariant
            from <= i <= n,
            n == s@.len(),
            first_quote(s@, from as int) == first_quote(s@, i as int),
        decreases n - i,
    {
        let c = s.get_char(i);
        if c == '"' {
            return Some(i);
        }
        i = i + 1;
    }
    None
}

/// Whether the characters of `lit` stand in `s` at `pos`.
fn match_at(s: &str, pos: usize, lit: &str) -> (r: bool)
    requires
        pos + lit@.len() <= s@.len(),
        s@.len() <= usize::MAX,
    ensures
        r == (s@.subrange(pos as int, pos + lit@.len()) == lit@),
{
    let n = lit.unicode_len();
    let mut k: usize = 0;
    while k < n
        invariant
            k <= n,
            n == lit@.len(),
            pos + n <= s@.len(),
            s@.len() <= usize::MAX,
            forall|m: int| 0 <= m < k ==> s@[pos + m] == lit@[m],
        decreases n - k,
    {
        let a = s.get_char(pos + k);
        let b = lit.get_char(k);
        if a != b {
            proof {
                assert(s@.subrange(pos as int, pos + lit@.len())[k as int] != lit@[k as int]);
            }
            return false;
        }
        k = k + 1;
    }
    proof {
        assert(s@.subrange(pos as int, pos + lit@.len()) =~= lit@);
    }
    true
}

/// Parses a version-1 envelope into its nonce and ciphertext fields.
pub fn parse_envelope(s: &str) -> (r: Option<(String, String)>)
    ensures
        r matches Some(p) ==> parse_envelope_chars(s@) == Some((p.0@, p.1@)),
        r is None ==> parse_envelope_chars(s@) is None,
{
    let n = s.unicode_len();
    if n < 22 {
        return None;
    }
    proof {
        reveal_strlit("{\"version\":1,\"nonce\":\"");
        assert("{\"version\":1,\"nonce\":\""@ =~= head_lit());
    }
    if !match_at(s, 0, "{\"version\":1,\"nonce\":\"") {
        proof {
            assert(s@.subrange(0, 22) =~= s@.take(22));
        }
        return None;
    }
    proof {
        assert(s@.subrange(0, 22) =~= s@.take(22));
    }
    let i = match find_quote(s, 22) {
        Some(i) => i,
        None => {
            return None;
        },
    };
    if n - i < 16 {
        return None;
    }
    proof {
        reveal_strlit("\",\"ciphertext\":\"");
        assert("\",\"ciphertext\":\""@ =~= mid_lit());
    }
    if !match_at(s, i, "\",\"ciphertext\":\"") {
        return None;
    }
    let j = match find_quote(s, i + 16) {
        Some(j) => j,
        None => {
            return None;
        },
    };
    if n - j != 2 {
        return None;
    }
    proof {
        reveal_strlit("\"}");
        assert("\"}"@ =~= tail_lit());
    }
    if !match_at(s, j, "\"}") {
        proof {
            assert(s@.subrange(j as int, j + 2) =~= s@.subrange(j as int, s@.len() as int));
        }
        return None;
    }
    let nonce = s.substring_char(22, i).to_owned();
    let ciphertext = s.substring_char(i + 16, j).to_owned();
    proof {
        assert(s@.subrange(j as int, j + 2) =~= s@.subrange(j as int, s@.len() as int));
        assert(nonce@ =~= s@.subrange(22, i as int));
        assert(ciphertext@ =~= s@.subrange(i + 16, j as int));
    }
    Some((nonce, ciphertext))
}

} // verus!
