//! Character-level string helpers the rest of the library is proved against.
//!
//! Strings are reasoned about through their `Seq<char>` view. The few `std`
//! operations that vstd gives no specification for are wrapped here, one
//! function each.

use vstd::prelude::*;

verus! {

/// Append one character to a `String`.
///
/// Wraps `String::push`, which appends `c` to the end of the string and
/// touches nothing else.
#[verifier::external_body]
pub(crate) fn string_push(s: &mut String, c: char)
    ensures
        final(s)@ == old(s)@.push(c),
{
    s.push(c);
}

/// Remove the last character of a `String`, if there is one.
///
/// Wraps `String::pop`, which removes and returns the final character, or
/// returns `None` and leaves an empty string unchanged.
#[verifier::external_body]
pub(crate) fn string_pop(s: &mut String) -> (r: Option<char>)
    ensures
        old(s)@.len() == 0 ==> r is None && final(s)@ == old(s)@,
        old(s)@.len() > 0 ==> r == Some(old(s)@.last()) && final(s)@ == old(s)@.drop_last(),
{
    s.pop()
}

/// The characters of `s`, in order.
pub fn chars_of(s: &str) -> (v: Vec<char>)
    ensures
        v@ == s@,
{
    let mut v: Vec<char> = Vec::new();
    for c in it: s.chars()
        invariant
            it.seq() == s@,
            v@ == it.seq().take(it.index() as int),
    {
        v.push(c);
        assert(it.seq().take(it.index() as int + 1) =~= v@);
    }
    assert(v@ =~= s@);
    v
}

/// A `String` holding exactly the characters `v[from..to]`.
pub fn string_from_chars(v: &[char], from: usize, to: usize) -> (s: String)
    requires
        from <= to <= v@.len(),
    ensures
        s@ == v@.subrange(from as int, to as int),
{
    let mut s = String::new();
    let mut i = from;
    while i < to
        invariant
            from <= i <= to <= v@.len(),
            s@ == v@.subrange(from as int, i as int),
        decreases to - i,
    {
        string_push(&mut s, v[i]);
        assert(s@ =~= v@.subrange(from as int, i + 1));
        i += 1;
    }
    s
}

/// An owned copy of `s`.
pub fn to_string(s: &str) -> (r: String)
    ensures
        r@ == s@,
{
    s.to_owned()
}

/// Whether two character sequences are equal, decided element by element.
pub fn chars_eq(a: &[char], b: &[char]) -> (r: bool)
    ensures
        r == (a@ == b@),
{
    if a.len() != b.len() {
        return false;
    }
    let mut i: usize = 0;
    while i < a.len()
        invariant
            a@.len() == b@.len(),
            0 <= i <= a@.len(),
            forall|k: int| 0 <= k < i ==> a@[k] == b@[k],
        decreases a@.len() - i,
    {
        if a[i] != b[i] {
            return false;
        }
        i += 1;
    }
    assert(a@ =~= b@);
    true
}

/// Whether two strings hold the same characters.
pub fn str_eq(a: &str, b: &str) -> (r: bool)
    ensures
        r == (a@ == b@),
{
    let av = chars_of(a);
    let bv = chars_of(b);
    chars_eq(av.as_slice(), bv.as_slice())
}

} // verus!

verus! {

/// Unicode `White_Space`, the set `char::is_whitespace` tests for.
pub open spec fn is_ws(c: char) -> bool {
    ||| ('\u{9}' <= c <= '\u{d}')
    ||| c == ' '
    ||| c == '\u{85}'
    ||| c == '\u{a0}'
    ||| c == '\u{1680}'
    ||| ('\u{2000}' <= c <= '\u{200a}')
    ||| c == '\u{2028}'
    ||| c == '\u{2029}'
    ||| c == '\u{202f}'
    ||| c == '\u{205f}'
    ||| c == '\u{3000}'
}

/// Whether `c` is whitespace.
pub fn is_whitespace(c: char) -> (r: bool)
    ensures
        r == is_ws(c),
{
    ('\u{9}' <= c && c <= '\u{d}') || c == ' ' || c == '\u{85}' || c == '\u{a0}' || c
        == '\u{1680}' || ('\u{2000}' <= c && c <= '\u{200a}') || c == '\u{2028}' || c
        == '\u{2029}' || c == '\u{202f}' || c == '\u{205f}' || c == '\u{3000}'
}

/// `s` with leading and trailing whitespace removed: the subrange between the
/// first and one past the last non-whitespace character (empty when there is
/// none).
#[verifier::opaque]
pub open spec fn trimmed(s: Seq<char>) -> Seq<char> {
    if forall|i: int| 0 <= i < s.len() ==> is_ws(#[trigger] s[i]) {
        Seq::empty()
    } else {
        let a = choose|a: int|
            0 <= a < s.len() && !is_ws(s[a]) && forall|i: int| 0 <= i < a ==> is_ws(#[trigger] s[i]);
        let b = choose|b: int|
            0 <= b < s.len() && !is_ws(s[b]) && forall|i: int| b < i < s.len() ==> is_ws(#[trigger] s[i]);
        s.subrange(a, b + 1)
    }
}

/// The bounds `[from, to)` of the trimmed part of `v`.
pub fn trim_bounds(v: &[char]) -> (r: (usize, usize))
    ensures
        r.0 <= r.1 <= v@.len(),
        v@.subrange(r.0 as int, r.1 as int) == trimmed(v@),
{
    let mut a: usize = 0;
    while a < v.len()
        invariant
            0 <= a <= v@.len(),
            forall|i: int| 0 <= i < a ==> is_ws(#[trigger] v@[i]),
        ensures
            0 <= a <= v@.len(),
            forall|i: int| 0 <= i < a ==> is_ws(#[trigger] v@[i]),
            a < v@.len() ==> !is_ws(v@[a as int]),
        decreases v@.len() - a,
    {
        if !is_whitespace(v[a]) {
            break;
        }
        a += 1;
    }
    if a == v.len() {
        reveal(trimmed);
        assert(v@.subrange(a as int, a as int) =~= Seq::<char>::empty());
        return (a, a);
    }
    let mut b: usize = v.len();
    while b > a + 1
        invariant
            a < b <= v@.len(),
            !is_ws(v@[a as int]),
            forall|i: int| b <= i < v@.len() ==> is_ws(#[trigger] v@[i]),
        ensures
            a < b <= v@.len(),
            forall|i: int| b <= i < v@.len() ==> is_ws(#[trigger] v@[i]),
            !is_ws(v@[b - 1]),
        decreases b,
    {
        if !is_whitespace(v[b - 1]) {
            break;
        }
        b -= 1;
    }
    proof {
        reveal(trimmed);
        let s = v@;
        assert(!is_ws(s[a as int]));
        let ca = choose|x: int|
            0 <= x < s.len() && !is_ws(s[x]) && forall|i: int| 0 <= i < x ==> is_ws(#[trigger] s[i]);
        let cb = choose|y: int|
            0 <= y < s.len() && !is_ws(s[y]) && forall|i: int| y < i < s.len() ==> is_ws(#[trigger] s[i]);
        assert(0 <= a < s.len() && !is_ws(s[a as int]) && forall|i: int| 0 <= i < a ==> is_ws(#[trigger] s[i]));
        assert(0 <= b - 1 < s.len() && !is_ws(s[b - 1]) && forall|i: int| b - 1 < i < s.len() ==> is_ws(#[trigger] s[i]));
        if ca < a {
            assert(is_ws(s[ca]));
        }
        if ca > a {
            assert(is_ws(s[a as int]));
        }
        if cb < b - 1 {
            assert(is_ws(s[b - 1]));
        }
        if cb > b - 1 {
            assert(is_ws(s[cb]));
        }
    }
    (a, b)
}

/// The characters `v[from..to]`.
pub fn subvec(v: &[char], from: usize, to: usize) -> (r: Vec<char>)
    requires
        from <= to <= v@.len(),
    ensures
        r@ == v@.subrange(from as int, to as int),
{
    let mut r: Vec<char> = Vec::new();
    let mut i = from;
    while i < to
        invariant
            from <= i <= to <= v@.len(),
            r@ == v@.subrange(from as int, i as int),
        decreases to - i,
    {
        r.push(v[i]);
        assert(r@ =~= v@.subrange(from as int, i + 1));
        i += 1;
    }
    r
}

/// The characters of `s`, trimmed.
pub fn trimmed_chars(s: &str) -> (r: Vec<char>)
    ensures
        r@ == trimmed(s@),
{
    let v = chars_of(s);
    let (a, b) = trim_bounds(v.as_slice());
    subvec(v.as_slice(), a, b)
}

/// Whether `a` and `b` are equal once trimmed.
pub fn trimmed_eq(a: &str, b: &str) -> (r: bool)
    ensures
        r == (trimmed(a@) == trimmed(b@)),
{
    let ta = trimmed_chars(a);
    let tb = trimmed_chars(b);
    chars_eq(ta.as_slice(), tb.as_slice())
}

/// Whether `s` is empty once trimmed.
pub fn trimmed_is_empty(s: &str) -> (r: bool)
    ensures
        r == (trimmed(s@).len() == 0),
{
    let v = chars_of(s);
    let (a, b) = trim_bounds(v.as_slice());
    a == b
}

} // verus!

verus! {

/// The UTF-8 encoding of `c`: one byte below 0x80, else a leading byte that
/// carries the length and the high bits, then six bits per continuation byte.
pub(crate) fn char_utf8(c: char) -> (r: Vec<u8>)
    ensures
        r@ == vstd::utf8::encode_scalar(c as u32),
{
    let v = c as u32;
    if v <= 0x7F {
        vec![(v & 0x7F) as u8]
    } else if v <= 0x7FF {
        vec![0xC0 | ((v >> 6) & 0x1F) as u8, 0x80 | (v & 0x3F) as u8]
    } else if v <= 0xFFFF && !(0xD800 <= v && v <= 0xDFFF) {
        vec![0xE0 | ((v >> 12) & 0x0F) as u8, 0x80 | ((v >> 6) & 0x3F) as u8, 0x80 | (v & 0x3F) as u8]
    } else {
        vec![
            0xF0 | ((v >> 18) & 0x7) as u8,
            0x80 | ((v >> 12) & 0x3F) as u8,
            0x80 | ((v >> 6) & 0x3F) as u8,
            0x80 | (v & 0x3F) as u8,
        ]
    }
}

/// Whether `a[from..from + b.len()]` is exactly `b`.
pub fn bytes_at(a: &[u8], from: usize, b: &[u8]) -> (r: bool)
    requires
        from + b@.len() <= a@.len(),
        a@.len() == a.len(),
    ensures
        r == (a@.subrange(from as int, from + b@.len()) == b@),
{
    let mut k: usize = 0;
    while k < b.len()
        invariant
            from + b@.len() <= a@.len(),
            a@.len() == a.len(),
            0 <= k <= b@.len(),
            a@.subrange(from as int, from + k) =~= b@.take(k as int),
        decreases b@.len() - k,
    {
        if a[from + k] != b[k] {
            assert(a@.subrange(from as int, from + b@.len())[k as int] != b@[k as int]);
            return false;
        }
        assert(a@.subrange(from as int, from + k + 1) =~= b@.take(k + 1));
        k += 1;
    }
    assert(b@.take(b@.len() as int) =~= b@);
    true
}

} // verus!

verus! {

/// `c` with ASCII `A`–`Z` mapped to `a`–`z`.
pub open spec fn ascii_lower_char(c: char) -> char {
    if 'A' <= c <= 'Z' {
        ((c as u32) + 32) as char
    } else {
        c
    }
}

/// `s` with ASCII letters lower-cased, as `str::to_ascii_lowercase` does.
pub open spec fn ascii_lower(s: Seq<char>) -> Seq<char> {
    s.map_values(|c: char| ascii_lower_char(c))
}

/// `s` with its ASCII letters lower-cased.
pub fn to_ascii_lowercase(s: &str) -> (r: String)
    ensures
        r@ == ascii_lower(s@),
{
    let v = chars_of(s);
    let mut out = String::new();
    let mut i: usize = 0;
    while i < v.len()
        invariant
            0 <= i <= v@.len(),
            v@ == s@,
            out@ == ascii_lower(v@.take(i as int)),
        decreases v@.len() - i,
    {
        let c = v[i];
        let lower = if 'A' <= c && c <= 'Z' {
            let b = (c as u32) as u8;
            (b + 32) as char
        } else {
            c
        };
        assert(lower == ascii_lower_char(c));
        string_push(&mut out, lower);
        assert(ascii_lower(v@.take(i + 1)) =~= ascii_lower(v@.take(i as int)).push(lower));
        i += 1;
    }
    assert(v@.take(v@.len() as int) =~= v@);
    out
}

/// Lower-casing ASCII letters keeps a string's UTF-8 length.
pub proof fn lemma_ascii_lower_bytes(s: Seq<char>)
    ensures
        vstd::utf8::encode_utf8(ascii_lower(s)).len() == vstd::utf8::encode_utf8(s).len(),
    decreases s.len(),
{
    if s.len() > 0 {
        assert(ascii_lower(s).drop_first() =~= ascii_lower(s.drop_first()));
        lemma_ascii_lower_bytes(s.drop_first());
        let c = s[0];
        if 'A' <= c <= 'Z' {
            assert(ascii_lower_char(c) as u32 == (c as u32) + 32);
        }
    }
}

/// Whether `p` is a prefix of `s`.
pub fn chars_starts_with(s: &[char], p: &[char]) -> (r: bool)
    ensures
        r == (p@.len() <= s@.len() && s@.take(p@.len() as int) == p@),
{
    if p.len() > s.len() {
        return false;
    }
    let mut i: usize = 0;
    while i < p.len()
        invariant
            p@.len() <= s@.len(),
            0 <= i <= p@.len(),
            s@.take(i as int) =~= p@.take(i as int),
        decreases p@.len() - i,
    {
        if s[i] != p[i] {
            assert(s@.take(p@.len() as int)[i as int] != p@[i as int]);
            return false;
        }
        assert(s@.take(i + 1) =~= p@.take(i + 1));
        i += 1;
    }
    assert(p@.take(p@.len() as int) =~= p@);
    true
}

} // verus!

verus! {

/// `a` sorts no later than `b`, comparing characters left to right and a
/// prefix before any longer string — `String`'s order, since UTF-8 bytes
/// compare as their characters do.
pub open spec fn lex_le(a: Seq<char>, b: Seq<char>) -> bool
    decreases a.len(),
{
    if a.len() == 0 {
        true
    } else if b.len() == 0 {
        false
    } else if a[0] != b[0] {
        a[0] < b[0]
    } else {
        lex_le(a.drop_first(), b.drop_first())
    }
}

/// Any two strings are comparable.
pub proof fn lemma_lex_total(a: Seq<char>, b: Seq<char>)
    ensures
        lex_le(a, b) || lex_le(b, a),
    decreases a.len(),
{
    if a.len() > 0 && b.len() > 0 && a[0] == b[0] {
        lemma_lex_total(a.drop_first(), b.drop_first());
    }
}

/// The string order is transitive.
pub proof fn lemma_lex_trans(a: Seq<char>, b: Seq<char>, c: Seq<char>)
    requires
        lex_le(a, b),
        lex_le(b, c),
    ensures
        lex_le(a, c),
    decreases a.len(),
{
    if a.len() > 0 && b.len() > 0 && c.len() > 0 && a[0] == b[0] && b[0] == c[0] {
        lemma_lex_trans(a.drop_first(), b.drop_first(), c.drop_first());
    }
}

/// Decide [`lex_le`].
pub fn chars_lex_le(a: &[char], b: &[char]) -> (r: bool)
    ensures
        r == lex_le(a@, b@),
{
    let mut i: usize = 0;
    proof {
        assert(a@.skip(0) =~= a@);
        assert(b@.skip(0) =~= b@);
    }
    while i < a.len() && i < b.len() && a[i] == b[i]
        invariant
            0 <= i <= a@.len(),
            i <= b@.len(),
            lex_le(a@, b@) == lex_le(a@.skip(i as int), b@.skip(i as int)),
        decreases a@.len() - i,
    {
        proof {
            let sa = a@.skip(i as int);
            let sb = b@.skip(i as int);
            assert(sa.drop_first() =~= a@.skip(i + 1));
            assert(sb.drop_first() =~= b@.skip(i + 1));
        }
        i += 1;
    }
    if i == a.len() {
        true
    } else if i == b.len() {
        false
    } else {
        a[i] < b[i]
    }
}

} // verus!

verus! {

/// `a` followed by `b`.
pub fn concat(a: &str, b: &str) -> (r: String)
    ensures
        r@ == a@ + b@,
{
    let av = chars_of(a);
    let bv = chars_of(b);
    let mut out = string_from_chars(av.as_slice(), 0, av.len());
    let mut i: usize = 0;
    while i < bv.len()
        invariant
            0 <= i <= bv@.len(),
            out@ == av@ + bv@.take(i as int),
        decreases bv@.len() - i,
    {
        string_push(&mut out, bv[i]);
        assert(out@ =~= av@ + bv@.take(i + 1));
        i += 1;
    }
    assert(av@.subrange(0, av@.len() as int) =~= av@);
    assert(bv@.take(bv@.len() as int) =~= bv@);
    out
}

} // verus!

verus! {

/// The decimal digit `d` as a character.
pub open spec fn digit_char(d: int) -> char {
    if d == 0 {
        '0'
    } else if d == 1 {
        '1'
    } else if d == 2 {
        '2'
    } else if d == 3 {
        '3'
    } else if d == 4 {
        '4'
    } else if d == 5 {
        '5'
    } else if d == 6 {
        '6'
    } else if d == 7 {
        '7'
    } else if d == 8 {
        '8'
    } else {
        '9'
    }
}

/// `n` written in decimal, without leading zeros.
pub open spec fn decimal(n: nat) -> Seq<char>
    decreases n,
{
    if n < 10 {
        seq![digit_char(n as int)]
    } else {
        decimal(n / 10).push(digit_char((n % 10) as int))
    }
}

/// A decimal is never empty, and has one digit exactly below ten.
pub proof fn lemma_decimal_len(n: nat)
    ensures
        decimal(n).len() >= 1,
        n >= 10 ==> decimal(n).len() >= 2,
    decreases n,
{
    if n >= 10 {
        lemma_decimal_len(n / 10);
    }
}

/// Different numbers are written differently.
pub proof fn lemma_decimal_injective(a: nat, b: nat)
    requires
        decimal(a) == decimal(b),
    ensures
        a == b,
    decreases a,
{
    lemma_decimal_len(a);
    lemma_decimal_len(b);
    if a >= 10 && b >= 10 {
        assert(decimal(a).drop_last() =~= decimal(a / 10));
        assert(decimal(b).drop_last() =~= decimal(b / 10));
        assert(decimal(a).last() == digit_char((a % 10) as int));
        assert(decimal(b).last() == digit_char((b % 10) as int));
        lemma_decimal_injective(a / 10, b / 10);
    } else if a < 10 && b < 10 {
        assert(decimal(a)[0] == digit_char(a as int));
        assert(decimal(b)[0] == digit_char(b as int));
    }
}

/// The digit `d` as a character.
fn digit(d: usize) -> (c: char)
    requires
        d < 10,
    ensures
        c == digit_char(d as int),
{
    if d == 0 {
        '0'
    } else if d == 1 {
        '1'
    } else if d == 2 {
        '2'
    } else if d == 3 {
        '3'
    } else if d == 4 {
        '4'
    } else if d == 5 {
        '5'
    } else if d == 6 {
        '6'
    } else if d == 7 {
        '7'
    } else if d == 8 {
        '8'
    } else {
        '9'
    }
}

/// Append `n` in decimal to `out`.
pub fn push_decimal(out: &mut String, n: usize)
    ensures
        final(out)@ == old(out)@ + decimal(n as nat),
    decreases n,
{
    if n < 10 {
        string_push(out, digit(n));
        assert(decimal(n as nat) =~= seq![digit_char(n as int)]);
    } else {
        push_decimal(out, n / 10);
        string_push(out, digit(n % 10));
        assert(decimal(n as nat) =~= decimal((n / 10) as nat).push(digit_char((n % 10) as int)));
    }
}

} // verus!
