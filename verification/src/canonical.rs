//! The canonical-JSON model: a float-free JSON value type, its
//! deterministic serialization (sorted keys, no whitespace), and the
//! sorted association lists that stand for JSON objects.
//!
//! A JSON object is carried as a key-sorted association list, the shape a
//! sorted map gives it; the builder `assoc_insert` keeps that order, so a
//! value built through it serializes canonically.

use vstd::prelude::*;

use crate::text::push_char;

verus! {

/// A JSON value as the signing protocol sees it: no floating point
/// numbers, which canonical JSON refuses, and integers in the
/// non-negative range the key and device records use.
pub enum Json {
    Null,
    Bool(bool),
    Int(u64),
    Str(String),
    Arr(Vec<Json>),
    Obj(Vec<(String, Json)>),
}

/// A strict total order on key strings: by code point, shorter first on a
/// tie, the order a sorted map of strings uses.
pub open spec fn str_lt(a: Seq<char>, b: Seq<char>) -> bool
    decreases a.len(),
{
    if b.len() == 0 {
        false
    } else if a.len() == 0 {
        true
    } else if a[0] != b[0] {
        (a[0] as u32) < (b[0] as u32)
    } else {
        str_lt(a.skip(1), b.skip(1))
    }
}

/// No string is below itself.
pub proof fn lemma_str_lt_irrefl(a: Seq<char>)
    ensures
        !str_lt(a, a),
    decreases a.len(),
{
    if a.len() > 0 {
        lemma_str_lt_irrefl(a.skip(1));
    }
}

/// The order is transitive.
pub proof fn lemma_str_lt_trans(a: Seq<char>, b: Seq<char>, c: Seq<char>)
    requires
        str_lt(a, b),
        str_lt(b, c),
    ensures
        str_lt(a, c),
    decreases a.len() + b.len() + c.len(),
{
    if a.len() > 0 && b.len() > 0 && c.len() > 0 && a[0] == b[0] && b[0] == c[0] {
        lemma_str_lt_trans(a.skip(1), b.skip(1), c.skip(1));
    }
}

/// The order is asymmetric.
pub proof fn lemma_str_lt_asym(a: Seq<char>, b: Seq<char>)
    requires
        str_lt(a, b),
    ensures
        !str_lt(b, a),
        a != b,
{
    if str_lt(b, a) {
        lemma_str_lt_trans(a, b, a);
        lemma_str_lt_irrefl(a);
    }
    lemma_str_lt_irrefl(a);
}

/// The order is total: two strings are ordered one way or the other, or
/// they are equal.
pub proof fn lemma_str_lt_total(a: Seq<char>, b: Seq<char>)
    ensures
        str_lt(a, b) || str_lt(b, a) || a == b,
    decreases a.len(),
{
    if a.len() == 0 && b.len() == 0 {
        assert(a =~= b);
    } else if a.len() > 0 && b.len() > 0 && a[0] == b[0] {
        lemma_str_lt_total(a.skip(1), b.skip(1));
        if !str_lt(a, b) && !str_lt(b, a) {
            assert(a.skip(1) == b.skip(1));
            assert(a =~= b) by {
                assert(forall|i: int| 1 <= i < a.len() ==> a[i] == a.skip(1)[i - 1]);
                assert(forall|i: int| 1 <= i < b.len() ==> b[i] == b.skip(1)[i - 1]);
            }
        }
    } else if a.len() > 0 && b.len() > 0 {
        if !str_lt(a, b) && !str_lt(b, a) {
            assert((a[0] as u32) == (b[0] as u32));
            vstd::utf8::char_u32_cast(a[0], a[0] as u32);
            vstd::utf8::char_u32_cast(b[0], b[0] as u32);
            assert(a[0] == b[0]);
        }
    }
}

/// An association list in strictly increasing key order: the shape a
/// sorted map gives a JSON object.
pub open spec fn assoc_sorted<V>(s: Seq<(String, V)>) -> bool {
    forall|i: int, j: int| 0 <= i < j < s.len() ==> str_lt(#[trigger] s[i].0@, #[trigger] s[j].0@)
}

/// A value whose every object, at every depth, is in strictly increasing
/// key order: the shape every value built from sorted maps has, and the
/// one whose serialization is canonical.
pub open spec fn json_sorted(v: Json) -> bool
    decreases v,
{
    match v {
        Json::Arr(items) => json_items_sorted(items@),
        Json::Obj(fields) => assoc_sorted(fields@) && json_fields_sorted(fields@),
        _ => true,
    }
}

/// Every item of an array is recursively sorted.
pub open spec fn json_items_sorted(items: Seq<Json>) -> bool
    decreases items,
{
    items.len() == 0 || (json_sorted(items[0]) && json_items_sorted(items.skip(1)))
}

/// Every field value of an object is recursively sorted.
pub open spec fn json_fields_sorted(fields: Seq<(String, Json)>) -> bool
    decreases fields,
{
    fields.len() == 0 || (json_sorted(fields[0].1) && json_fields_sorted(fields.skip(1)))
}

/// Inserts a binding into an association list, keeping sorted order and
/// replacing the value when the key is already bound: what `insert` on a
/// sorted map does.
pub open spec fn assoc_insert<V>(s: Seq<(String, V)>, k: String, v: V) -> Seq<(String, V)>
    decreases s.len(),
{
    if s.len() == 0 {
        seq![(k, v)]
    } else if s[0].0@ == k@ {
        seq![(k, v)] + s.skip(1)
    } else if str_lt(k@, s[0].0@) {
        seq![(k, v)] + s
    } else {
        seq![s[0]] + assoc_insert(s.skip(1), k, v)
    }
}

/// Removes the first binding of a key, if any.
pub open spec fn assoc_remove<V>(s: Seq<(String, V)>, k: Seq<char>) -> Seq<(String, V)>
    decreases s.len(),
{
    if s.len() == 0 {
        s
    } else if s[0].0@ == k {
        s.skip(1)
    } else {
        seq![s[0]] + assoc_remove(s.skip(1), k)
    }
}

/// A key below every key of a sorted list is not bound in it.
pub proof fn lemma_assoc_sorted_below_absent<V>(s: Seq<(String, V)>, k: Seq<char>)
    requires
        assoc_sorted(s),
        s.len() > 0,
        str_lt(k, s[0].0@),
    ensures
        assoc_remove(s, k) == s,
    decreases s.len(),
{
    lemma_str_lt_asym(k, s[0].0@);
    if s.len() > 1 {
        lemma_str_lt_trans(k, s[0].0@, s[1].0@);
        lemma_assoc_sorted_below_absent(s.skip(1), k);
        assert(assoc_sorted(s.skip(1))) by {
            assert(forall|i: int, j: int|
                0 <= i < j < s.skip(1).len() ==> str_lt(
                    #[trigger] s.skip(1)[i].0@,
                    #[trigger] s.skip(1)[j].0@,
                ));
        }
        assert(assoc_remove(s, k) =~= seq![s[0]] + assoc_remove(s.skip(1), k));
        assert(seq![s[0]] + s.skip(1) =~= s);
    } else {
        lemma_str_lt_asym(k, s[0].0@);
        assert(assoc_remove(s, k) =~= seq![s[0]] + assoc_remove(s.skip(1), k));
        assert(seq![s[0]] + s.skip(1) =~= s);
    }
}

/// Removing a key after setting it gives the same list as removing it
/// without setting it: what a binding of that key held makes no
/// difference once it is removed.
pub proof fn lemma_remove_insert<V>(s: Seq<(String, V)>, k: String, v: V)
    requires
        assoc_sorted(s),
    ensures
        assoc_remove(assoc_insert(s, k, v), k@) == assoc_remove(s, k@),
    decreases s.len(),
{
    if s.len() == 0 {
        assert(assoc_remove(assoc_insert(s, k, v), k@) =~= assoc_remove(s, k@));
    } else if s[0].0@ == k@ {
        let t = assoc_insert(s, k, v);
        assert(t == seq![(k, v)] + s.skip(1));
        assert(t[0].0@ == k@);
        assert(t.skip(1) =~= s.skip(1));
    } else if str_lt(k@, s[0].0@) {
        let t = assoc_insert(s, k, v);
        assert(t == seq![(k, v)] + s);
        assert(t[0].0@ == k@);
        assert(t.skip(1) =~= s);
        lemma_assoc_sorted_below_absent(s, k@);
    } else {
        assert(assoc_sorted(s.skip(1))) by {
            assert(forall|i: int, j: int|
                0 <= i < j < s.skip(1).len() ==> str_lt(
                    #[trigger] s.skip(1)[i].0@,
                    #[trigger] s.skip(1)[j].0@,
                ));
        }
        lemma_remove_insert(s.skip(1), k, v);
        let t = assoc_insert(s, k, v);
        assert(t == seq![s[0]] + assoc_insert(s.skip(1), k, v));
        assert(t[0] == s[0]);
        assert(t.skip(1) =~= assoc_insert(s.skip(1), k, v));
        assert(assoc_remove(t, k@) =~= seq![s[0]] + assoc_remove(assoc_insert(s.skip(1), k, v), k@));
        assert(assoc_remove(s, k@) =~= seq![s[0]] + assoc_remove(s.skip(1), k@));
    }
}

/// The canonical serialization of a value, over characters.
pub open spec fn canon(v: Json) -> Seq<char>
    decreases v,
{
    match v {
        Json::Null => seq!['n', 'u', 'l', 'l'],
        Json::Bool(b) => if b {
            seq!['t', 'r', 'u', 'e']
        } else {
            seq!['f', 'a', 'l', 's', 'e']
        },
        Json::Int(n) => dec_digits(n as nat),
        Json::Str(s) => seq!['"'] + escape(s@) + seq!['"'],
        Json::Arr(items) => seq!['['] + canon_items(items@) + seq![']'],
        Json::Obj(fields) => seq!['{'] + canon_fields(fields@) + seq!['}'],
    }
}

/// Comma-separated canonical serializations of array items.
pub open spec fn canon_items(items: Seq<Json>) -> Seq<char>
    decreases items,
{
    if items.len() == 0 {
        Seq::<char>::empty()
    } else if items.len() == 1 {
        canon(items[0])
    } else {
        canon(items[0]) + seq![','] + canon_items(items.skip(1))
    }
}

/// Comma-separated `"key":value` pairs, in the order given.
pub open spec fn canon_fields(fields: Seq<(String, Json)>) -> Seq<char>
    decreases fields,
{
    if fields.len() == 0 {
        Seq::<char>::empty()
    } else if fields.len() == 1 {
        canon_field(fields[0])
    } else {
        canon_field(fields[0]) + seq![','] + canon_fields(fields.skip(1))
    }
}

/// One `"key":value` pair.
pub open spec fn canon_field(field: (String, Json)) -> Seq<char>
    decreases field,
{
    seq!['"'] + escape(field.0@) + seq!['"', ':'] + canon(field.1)
}

/// The decimal digits of `n`, most significant first.
pub open spec fn dec_digits(n: nat) -> Seq<char>
    decreases n,
{
    if n < 10 {
        seq![digit_char(n)]
    } else {
        dec_digits(n / 10) + seq![digit_char(n % 10)]
    }
}

/// The character of one decimal digit.
pub open spec fn digit_char(d: nat) -> char
    recommends
        d < 10,
{
    (((d % 10) + 48) as u8) as char
}

/// JSON string escaping as the protocol's encoder does it: quote and
/// backslash get a two-character escape, control characters their short
/// escape or a `\u00XX` escape, everything else passes through.
pub open spec fn escape(s: Seq<char>) -> Seq<char>
    decreases s.len(),
{
    if s.len() == 0 {
        Seq::<char>::empty()
    } else {
        escape_char(s[0]) + escape(s.skip(1))
    }
}

/// The escape sequence of one character.
pub open spec fn escape_char(c: char) -> Seq<char> {
    if c == '"' {
        seq!['\\', '"']
    } else if c == '\\' {
        seq!['\\', '\\']
    } else if c == '\u{8}' {
        seq!['\\', 'b']
    } else if c == '\u{c}' {
        seq!['\\', 'f']
    } else if c == '\n' {
        seq!['\\', 'n']
    } else if c == '\r' {
        seq!['\\', 'r']
    } else if c == '\t' {
        seq!['\\', 't']
    } else if (c as u32) < 32 {
        seq!['\\', 'u', '0', '0', hex_char(((c as u32) / 16) as nat), hex_char(
            ((c as u32) % 16) as nat,
        )]
    } else {
        seq![c]
    }
}

/// The lower-case hex character of a value below 16.
pub open spec fn hex_char(d: nat) -> char
    recommends
        d < 16,
{
    if d < 10 {
        ((d + 48) as u8) as char
    } else {
        ((d - 10 + 97) as u8) as char
    }
}

/// Whether `a` comes strictly before `b` in key order.
pub fn str_less(a: &String, b: &String) -> (r: bool)
    ensures
        r == str_lt(a@, b@),
{
    let mut i: usize = 0;
    let la = a.as_str().unicode_len();
    let lb = b.as_str().unicode_len();
    proof {
        assert(a@.skip(0) =~= a@);
        assert(b@.skip(0) =~= b@);
    }
    loop
        invariant
            i <= la,
            i <= lb,
            la == a@.len(),
            lb == b@.len(),
            str_lt(a@, b@) == str_lt(a@.skip(i as int), b@.skip(i as int)),
        decreases la - i,
    {
        if i == lb {
            proof {
                assert(b@.skip(i as int).len() == 0);
            }
            return false;
        }
        if i == la {
            proof {
                assert(a@.skip(i as int).len() == 0 && b@.skip(i as int).len() > 0);
            }
            return true;
        }
        let ca = a.as_str().get_char(i);
        let cb = b.as_str().get_char(i);
        proof {
            assert(a@.skip(i as int)[0] == a@[i as int]);
            assert(b@.skip(i as int)[0] == b@[i as int]);
        }
        if ca as u32 != cb as u32 {
            proof {
                assert(ca != cb) by {
                    assert(ca as u32 != cb as u32);
                }
            }
            return (ca as u32) < (cb as u32);
        }
        proof {
            assert(ca == cb) by {
                assert(ca as u32 == cb as u32);
            }
            assert(a@.skip(i as int).skip(1) =~= a@.skip(i + 1));
            assert(b@.skip(i as int).skip(1) =~= b@.skip(i + 1));
        }
        i = i + 1;
    }
}

/// Splitting an insertion at a scan position: once every key before the
/// position is known to be below the new key, insertion happens in the
/// remainder.
proof fn lemma_insert_split<V>(s: Seq<(String, V)>, k: String, v: V, i: int)
    requires
        0 <= i <= s.len(),
        forall|j: int| 0 <= j < i ==> (#[trigger] s[j].0@) != k@ && !str_lt(k@, s[j].0@),
    ensures
        assoc_insert(s, k, v) == s.take(i) + assoc_insert(s.skip(i), k, v),
    decreases i,
{
    if i == 0 {
        assert(s.take(0) + assoc_insert(s.skip(0), k, v) =~= assoc_insert(s, k, v)) by {
            assert(s.skip(0) =~= s);
            assert(s.take(0) =~= Seq::<(String, V)>::empty());
        }
    } else {
        assert(s[0].0@ != k@ && !str_lt(k@, s[0].0@));
        assert(forall|j: int|
            0 <= j < i - 1 ==> (#[trigger] s.skip(1)[j].0@) != k@ && !str_lt(k@, s.skip(1)[j].0@))
            by {
            assert(forall|j: int| 0 <= j < i - 1 ==> s.skip(1)[j] == s[j + 1]);
        }
        lemma_insert_split(s.skip(1), k, v, i - 1);
        assert(s.skip(1).take(i - 1) =~= s.take(i).skip(1));
        assert(s.skip(1).skip(i - 1) =~= s.skip(i));
        assert(assoc_insert(s, k, v) == seq![s[0]] + assoc_insert(s.skip(1), k, v));
        assert(seq![s[0]] + (s.skip(1).take(i - 1) + assoc_insert(s.skip(i), k, v)) =~= s.take(i)
            + assoc_insert(s.skip(i), k, v));
    }
}

/// Splitting a removal at a scan position, in the same way.
proof fn lemma_remove_split<V>(s: Seq<(String, V)>, k: Seq<char>, i: int)
    requires
        0 <= i <= s.len(),
        forall|j: int| 0 <= j < i ==> (#[trigger] s[j].0@) != k,
    ensures
        assoc_remove(s, k) == s.take(i) + assoc_remove(s.skip(i), k),
    decreases i,
{
    if i == 0 {
        assert(s.take(0) + assoc_remove(s.skip(0), k) =~= assoc_remove(s, k)) by {
            assert(s.skip(0) =~= s);
            assert(s.take(0) =~= Seq::<(String, V)>::empty());
        }
    } else {
        assert(forall|j: int| 0 <= j < i - 1 ==> (#[trigger] s.skip(1)[j].0@) != k) by {
            assert(forall|j: int| 0 <= j < i - 1 ==> s.skip(1)[j] == s[j + 1]);
        }
        lemma_remove_split(s.skip(1), k, i - 1);
        assert(s.skip(1).take(i - 1) =~= s.take(i).skip(1));
        assert(s.skip(1).skip(i - 1) =~= s.skip(i));
        assert(assoc_remove(s, k) == seq![s[0]] + assoc_remove(s.skip(1), k));
        assert(seq![s[0]] + (s.skip(1).take(i - 1) + assoc_remove(s.skip(i), k)) =~= s.take(i)
            + assoc_remove(s.skip(i), k));
    }
}

/// Inserts a binding into a key-sorted vector, keeping it sorted and
/// replacing the value if the key is already bound.
pub fn assoc_insert_vec<V>(m: &mut Vec<(String, V)>, k: String, v: V)
    ensures
        final(m)@ == assoc_insert(old(m)@, k, v),
{
    let mut i: usize = 0;
    loop
        invariant
            i <= m@.len(),
            m@ == old(m)@,
            forall|j: int| 0 <= j < i ==> (#[trigger] m@[j].0@) != k@ && !str_lt(k@, m@[j].0@),
        decreases m@.len() - i,
    {
        if i == m.len() {
            proof {
                lemma_insert_split(m@, k, v, i as int);
                assert(m@.skip(i as int) =~= Seq::<(String, V)>::empty());
                assert(m@.take(i as int) =~= m@);
            }
            m.push((k, v));
            proof {
                assert(m@ =~= old(m)@ + seq![(k, v)]);
                assert(old(m)@ + assoc_insert(old(m)@.skip(i as int), k, v) =~= old(m)@ + seq![
                    (k, v),
                ]);
            }
            return ;
        }
        let same = m[i].0 == k;
        if same {
            proof {
                lemma_insert_split(m@, k, v, i as int);
                assert(m@.skip(i as int)[0] == m@[i as int]);
            }
            m.remove(i);
            m.insert(i, (k, v));
            proof {
                assert(m@ =~= old(m)@.take(i as int) + assoc_insert(
                    old(m)@.skip(i as int),
                    k,
                    v,
                )) by {
                    assert(old(m)@.skip(i as int).skip(1) =~= old(m)@.skip(i + 1));
                    assert(seq![(k, v)] + old(m)@.skip(i + 1) =~= assoc_insert(
                        old(m)@.skip(i as int),
                        k,
                        v,
                    ));
                    assert(old(m)@.remove(i as int).insert(i as int, (k, v)) =~= old(m)@.take(
                        i as int,
                    ) + (seq![(k, v)] + old(m)@.skip(i + 1)));
                }
            }
            return ;
        }
        let below = str_less(&k, &m[i].0);
        if below {
            proof {
                lemma_insert_split(m@, k, v, i as int);
                assert(m@.skip(i as int)[0] == m@[i as int]);
            }
            m.insert(i, (k, v));
            proof {
                assert(m@ =~= old(m)@.take(i as int) + assoc_insert(old(m)@.skip(i as int), k, v))
                    by {
                    assert(seq![(k, v)] + old(m)@.skip(i as int) =~= assoc_insert(
                        old(m)@.skip(i as int),
                        k,
                        v,
                    ));
                    assert(old(m)@.insert(i as int, (k, v)) =~= old(m)@.take(i as int) + (seq![
                        (k, v),
                    ] + old(m)@.skip(i as int)));
                }
            }
            return ;
        }
        proof {
            assert(m@.skip(i as int)[0] == m@[i as int]);
        }
        i = i + 1;
    }
}

/// Removes the first binding of a key from a vector, if any.
pub fn assoc_remove_vec<V>(m: &mut Vec<(String, V)>, k: &String)
    ensures
        final(m)@ == assoc_remove(old(m)@, k@),
{
    let mut i: usize = 0;
    loop
        invariant
            i <= m@.len(),
            m@ == old(m)@,
            forall|j: int| 0 <= j < i ==> (#[trigger] m@[j].0@) != k@,
        decreases m@.len() - i,
    {
        if i == m.len() {
            proof {
                lemma_remove_split(m@, k@, i as int);
                assert(m@.skip(i as int) =~= Seq::<(String, V)>::empty());
                assert(m@.take(i as int) =~= m@);
                assert(m@.take(i as int) + assoc_remove(m@.skip(i as int), k@) =~= m@);
            }
            return ;
        }
        let same = m[i].0 == *k;
        if same {
            proof {
                lemma_remove_split(m@, k@, i as int);
                assert(m@.skip(i as int)[0] == m@[i as int]);
            }
            m.remove(i);
            proof {
                assert(m@ =~= old(m)@.take(i as int) + assoc_remove(old(m)@.skip(i as int), k@))
                    by {
                    assert(old(m)@.skip(i as int).skip(1) =~= old(m)@.skip(i + 1));
                    assert(old(m)@.remove(i as int) =~= old(m)@.take(i as int) + old(m)@.skip(
                        i + 1,
                    ));
                }
            }
            return ;
        }
        proof {
            assert(m@.skip(i as int)[0] == m@[i as int]);
        }
        i = i + 1;
    }
}

/// Appends the decimal digits of `n`.
fn push_dec(out: &mut String, n: u64)
    ensures
        final(out)@ == old(out)@ + dec_digits(n as nat),
    decreases n,
{
    if n < 10 {
        push_char(out, ((n as u8) + 48) as char);
        proof {
            assert(old(out)@.push(digit_char(n as nat)) =~= old(out)@ + dec_digits(n as nat));
        }
    } else {
        push_dec(out, n / 10);
        push_char(out, (((n % 10) as u8) + 48) as char);
        proof {
            assert((old(out)@ + dec_digits((n / 10) as nat)).push(digit_char((n % 10) as nat))
                =~= old(out)@ + dec_digits(n as nat));
        }
    }
}

/// Appends the escape sequence of one character.
fn push_escaped_char(out: &mut String, c: char)
    ensures
        final(out)@ == old(out)@ + escape_char(c),
{
    let n = c as u32;
    if c == '"' {
        push_char(out, '\\');
        push_char(out, '"');
    } else if c == '\\' {
        push_char(out, '\\');
        push_char(out, '\\');
    } else if n == 8 {
        proof {
            assert(c == '\u{8}') by {
                assert(('\u{8}' as u32) == 8);
            }
        }
        push_char(out, '\\');
        push_char(out, 'b');
    } else if n == 12 {
        proof {
            assert(c == '\u{c}') by {
                assert(('\u{c}' as u32) == 12);
            }
        }
        push_char(out, '\\');
        push_char(out, 'f');
    } else if n == 10 {
        proof {
            assert(c == '\n') by {
                assert(('\n' as u32) == 10);
            }
        }
        push_char(out, '\\');
        push_char(out, 'n');
    } else if n == 13 {
        proof {
            assert(c == '\r') by {
                assert(('\r' as u32) == 13);
            }
        }
        push_char(out, '\\');
        push_char(out, 'r');
    } else if n == 9 {
        proof {
            assert(c == '\t') by {
                assert(('\t' as u32) == 9);
            }
        }
        push_char(out, '\\');
        push_char(out, 't');
    } else if n < 32 {
        push_char(out, '\\');
        push_char(out, 'u');
        push_char(out, '0');
        push_char(out, '0');
        if n / 16 < 10 {
            push_char(out, (((n / 16) as u8) + 48) as char);
        } else {
            push_char(out, (((n / 16) as u8) - 10 + 97) as char);
        }
        if n % 16 < 10 {
            push_char(out, (((n % 16) as u8) + 48) as char);
        } else {
            push_char(out, (((n % 16) as u8) - 10 + 97) as char);
        }
    } else {
        push_char(out, c);
    }
    proof {
        assert(out@ =~= old(out)@ + escape_char(c));
    }
}

/// Appends the escaped characters of `s`, from position `i` on.
fn push_escaped_from(out: &mut String, s: &str, i: usize)
    requires
        i <= s@.len(),
    ensures
        final(out)@ == old(out)@ + escape(s@.skip(i as int)),
    decreases s@.len() - i,
{
    let n = s.unicode_len();
    if i == n {
        proof {
            assert(s@.skip(i as int).len() == 0);
            assert(old(out)@ + escape(s@.skip(i as int)) =~= old(out)@);
        }
    } else {
        let c = s.get_char(i);
        push_escaped_char(out, c);
        push_escaped_from(out, s, i + 1);
        proof {
            assert(s@.skip(i as int)[0] == s@[i as int]);
            assert(s@.skip(i as int).skip(1) =~= s@.skip(i + 1));
            assert((old(out)@ + escape_char(c)) + escape(s@.skip(i + 1)) =~= old(out)@ + escape(
                s@.skip(i as int),
            ));
        }
    }
}

/// Appends `"` escape(s) `"`.
fn push_quoted(out: &mut String, s: &String)
    ensures
        final(out)@ == old(out)@ + seq!['"'] + escape(s@) + seq!['"'],
{
    push_char(out, '"');
    push_escaped_from(out, s.as_str(), 0);
    proof {
        assert(s@.skip(0) =~= s@);
    }
    push_char(out, '"');
    proof {
        assert(out@ =~= old(out)@ + seq!['"'] + escape(s@) + seq!['"']);
    }
}

/// Appends the canonical serialization of a value.
pub fn push_canon(out: &mut String, v: &Json)
    ensures
        final(out)@ == old(out)@ + canon(*v),
    decreases *v,
{
    match v {
        Json::Null => {
            push_char(out, 'n');
            push_char(out, 'u');
            push_char(out, 'l');
            push_char(out, 'l');
            proof {
                assert(out@ =~= old(out)@ + canon(*v));
            }
        },
        Json::Bool(b) => {
            if *b {
                push_char(out, 't');
                push_char(out, 'r');
                push_char(out, 'u');
                push_char(out, 'e');
            } else {
                push_char(out, 'f');
                push_char(out, 'a');
                push_char(out, 'l');
                push_char(out, 's');
                push_char(out, 'e');
            }
            proof {
                assert(out@ =~= old(out)@ + canon(*v));
            }
        },
        Json::Int(n) => {
            push_dec(out, *n);
        },
        Json::Str(s) => {
            push_quoted(out, s);
            proof {
                assert(out@ =~= old(out)@ + canon(*v));
            }
        },
        Json::Arr(items) => {
            push_char(out, '[');
            proof {
                assert(items@.skip(0) =~= items@);
            }
            push_canon_items(out, items, 0);
            push_char(out, ']');
            proof {
                assert(out@ =~= old(out)@ + canon(*v));
            }
        },
        Json::Obj(fields) => {
            push_char(out, '{');
            proof {
                assert(fields@.skip(0) =~= fields@);
            }
            push_canon_fields(out, fields, 0);
            push_char(out, '}');
            proof {
                assert(out@ =~= old(out)@ + canon(*v));
            }
        },
    }
}

/// Appends the comma-separated items of an array, from position `i` on.
fn push_canon_items(out: &mut String, items: &Vec<Json>, i: usize)
    requires
        i <= items@.len(),
    ensures
        final(out)@ == old(out)@ + canon_items(items@.skip(i as int)),
    decreases items@.skip(i as int),
{
    if i == items.len() {
        proof {
            assert(old(out)@ + canon_items(items@.skip(i as int)) =~= old(out)@);
        }
    } else {
        proof {
            assert(items@.skip(i as int)[0] == items@[i as int]);
        }
        push_canon(out, &items[i]);
        if i + 1 < items.len() {
            push_char(out, ',');
            proof {
                assert(items@.skip(i as int).skip(1) =~= items@.skip(i + 1));
            }
            push_canon_items(out, items, i + 1);
            proof {
                assert(((old(out)@ + canon(items@[i as int])).push(',')) + canon_items(
                    items@.skip(i + 1),
                ) =~= old(out)@ + canon_items(items@.skip(i as int)));
            }
        } else {
            proof {
                assert(items@.skip(i as int).len() == 1);
                assert(old(out)@ + canon(items@[i as int]) =~= old(out)@ + canon_items(
                    items@.skip(i as int),
                ));
            }
        }
    }
}

/// Appends the comma-separated fields of an object, from position `i` on.
fn push_canon_fields(out: &mut String, fields: &Vec<(String, Json)>, i: usize)
    requires
        i <= fields@.len(),
    ensures
        final(out)@ == old(out)@ + canon_fields(fields@.skip(i as int)),
    decreases fields@.skip(i as int),
{
    if i == fields.len() {
        proof {
            assert(old(out)@ + canon_fields(fields@.skip(i as int)) =~= old(out)@);
        }
    } else {
        proof {
            assert(fields@.skip(i as int)[0] == fields@[i as int]);
        }
        push_quoted(out, &fields[i].0);
        push_char(out, ':');
        push_canon(out, &fields[i].1);
        proof {
            assert(out@ =~= old(out)@ + canon_field(fields@[i as int]));
        }
        if i + 1 < fields.len() {
            push_char(out, ',');
            proof {
                assert(fields@.skip(i as int).skip(1) =~= fields@.skip(i + 1));
            }
            push_canon_fields(out, fields, i + 1);
            proof {
                assert(((old(out)@ + canon_field(fields@[i as int])).push(',')) + canon_fields(
                    fields@.skip(i + 1),
                ) =~= old(out)@ + canon_fields(fields@.skip(i as int)));
            }
        } else {
            proof {
                assert(fields@.skip(i as int).len() == 1);
                assert(old(out)@ + canon_field(fields@[i as int]) =~= old(out)@ + canon_fields(
                    fields@.skip(i as int),
                ));
            }
        }
    }
}

/// The canonical serialization of a value, as a string.
pub fn to_canonical_string(v: &Json) -> (r: String)
    ensures
        r@ == canon(*v),
{
    let mut out = String::new();
    push_canon(&mut out, v);
    proof {
        assert(Seq::<char>::empty() + canon(*v) =~= canon(*v));
    }
    out
}

} // verus!
