//! Character-level helpers shared by the parsers of this crate.

use vstd::prelude::*;

verus! {
/// ASCII decimal digit.
pub open spec fn is_digit(c: char) -> bool {
    '0' <= c && c <= '9'
}


/// ASCII letter.
pub open spec fn is_ascii_alpha(c: char) -> bool {
    ('a' <= c && c <= 'z') || ('A' <= c && c <= 'Z')
}

/// ASCII lowercase of a character; other characters are unchanged.
pub open spec fn ascii_lower(c: char) -> char {
    if 'A' <= c && c <= 'Z' {
        ((c as u32) + 32) as char
    } else {
        c
    }
}

/// ASCII uppercase of a character; other characters are unchanged.
pub open spec fn ascii_upper(c: char) -> char {
    if 'a' <= c && c <= 'z' {
        ((c as u32) - 32) as char
    } else {
        c
    }
}

/// Equality that ignores the case of ASCII letters only.
pub open spec fn eq_ignore_case(a: Seq<char>, b: Seq<char>) -> bool {
    a.len() == b.len() && forall|i: int| 0 <= i < a.len() ==> ascii_lower(#[trigger] a[i]) == ascii_lower(b[i])
}

/// Every character is an ASCII digit.
pub open spec fn all_digits(s: Seq<char>) -> bool {
    forall|i: int| 0 <= i < s.len() ==> is_digit(#[trigger] s[i])
}


/// Whether `c` occurs in `s`.
pub open spec fn has_char(s: Seq<char>, c: char) -> bool {
    exists|i: int| 0 <= i < s.len() && s[i] == c
}

/// Number of bytes that UTF-8 uses for `c`.
pub open spec fn utf8_width(c: char) -> nat {
    if (c as u32) < 0x80 {
        1
    } else if (c as u32) < 0x800 {
        2
    } else if (c as u32) < 0x10000 {
        3
    } else {
        4
    }
}

/// Number of bytes that UTF-8 uses for `s`.
pub open spec fn utf8_len(s: Seq<char>) -> nat
    decreases s.len(),
{
    if s.len() == 0 {
        0
    } else {
        utf8_len(s.drop_last()) + utf8_width(s.last())
    }
}

pub proof fn lemma_utf8_len_push(s: Seq<char>, c: char)
    ensures
        utf8_len(s.push(c)) == utf8_len(s) + utf8_width(c),
{
    assert(s.push(c).drop_last() =~= s);
}

pub proof fn lemma_utf8_len_concat(a: Seq<char>, b: Seq<char>)
    ensures
        utf8_len(a + b) == utf8_len(a) + utf8_len(b),
    decreases b.len(),
{
    if b.len() == 0 {
        assert(a + b =~= a);
    } else {
        lemma_utf8_len_concat(a, b.drop_last());
        assert((a + b).drop_last() =~= a + b.drop_last());
    }
}

pub proof fn lemma_utf8_len_bounds(s: Seq<char>)
    ensures
        s.len() <= utf8_len(s) <= 4 * s.len(),
    decreases s.len(),
{
    if s.len() > 0 {
        lemma_utf8_len_bounds(s.drop_last());
    }
}

/// ASCII whitespace as `str::split_ascii_whitespace` understands it.
pub open spec fn is_ascii_ws(c: char) -> bool {
    c == ' ' || c == '\t' || c == '\n' || c == '\r' || c == '\x0C'
}

/// Unicode control characters (general category Cc).
pub open spec fn is_control(c: char) -> bool {
    (c as u32) < 0x20 || (0x7f <= (c as u32) && (c as u32) <= 0x9f)
}

/// Splits `s[i..]` at ASCII whitespace, dropping empty pieces.
pub open spec fn words_from(s: Seq<char>, i: int, current: Seq<char>, words: Seq<Seq<char>>) -> Seq<Seq<char>>
    decreases s.len() - i,
{
    if i < 0 || i >= s.len() {
        if current.len() > 0 { words.push(current) } else { words }
    } else if is_ascii_ws(s[i]) {
        words_from(s, i + 1, seq![], if current.len() > 0 { words.push(current) } else { words })
    } else {
        words_from(s, i + 1, current.push(s[i]), words)
    }
}

/// The words of `s` separated by ASCII whitespace.
pub open spec fn ascii_words(s: Seq<char>) -> Seq<Seq<char>> {
    words_from(s, 0, seq![], seq![])
}

/// The number of UTF-8 bytes of a string.
pub fn byte_len(s: &str) -> (r: usize)
    ensures
        r == vstd::utf8::encode_utf8(s@).len(),
{
    s.as_bytes().len()
}

/// The words of `s` separated by ASCII whitespace.
pub fn split_ascii_words(s: &[char]) -> (r: Vec<Vec<char>>)
    ensures
        r@.map_values(|v: Vec<char>| v@) == ascii_words(s@),
{
    let mut words: Vec<Vec<char>> = Vec::new();
    let mut current: Vec<char> = Vec::new();
    let mut i: usize = 0;
    assert(words@.map_values(|v: Vec<char>| v@) =~= Seq::<Seq<char>>::empty());
    assert(current@ =~= Seq::<char>::empty());
    while i < s.len()
        invariant
            i <= s.len(),
            ascii_words(s@) == words_from(s@, i as int, current@, words@.map_values(|v: Vec<char>| v@)),
        decreases s.len() - i,
    {
        let c = s[i];
        if c == ' ' || c == '\t' || c == '\n' || c == '\r' || c == '\x0C' {
            if current.len() > 0 {
                let ghost before = words@;
                let w = current;
                words.push(w);
                assert(words@.map_values(|v: Vec<char>| v@) =~= before.map_values(|v: Vec<char>| v@).push(w@));
            }
            current = Vec::new();
            assert(current@ =~= Seq::<char>::empty());
        } else {
            current.push(c);
        }
        i += 1;
    }
    if current.len() > 0 {
        let ghost before = words@;
        let w = current;
        words.push(w);
        assert(words@.map_values(|v: Vec<char>| v@) =~= before.map_values(|v: Vec<char>| v@).push(w@));
    }
    words
}

/// Whether some character of `s` is a control character.
pub fn has_control(s: &[char]) -> (r: bool)
    ensures
        r == (exists|i: int| 0 <= i < s@.len() && is_control(s@[i])),
{
    let mut i: usize = 0;
    while i < s.len()
        invariant
            i <= s.len(),
            forall|j: int| 0 <= j < i ==> !is_control(s@[j]),
        decreases s.len() - i,
    {
        let v: u32 = s[i] as u32;
        if v < 0x20 || (0x7f <= v && v <= 0x9f) {
            return true;
        }
        i += 1;
    }
    false
}

/// The characters of `s`, in order.
pub fn chars_of(s: &str) -> (r: Vec<char>)
    ensures
        r@ == s@,
{
    let mut r: Vec<char> = Vec::new();
    for c in it: s.chars()
        invariant
            r@ == it.seq().take(it.index() as int),
            it.seq() == s@,
    {
        r.push(c);
    }
    r
}

/// Appends one character to a string.
#[verifier::external_body]
pub(crate) fn push_char(s: &mut String, c: char)
    ensures
        final(s)@ == old(s)@.push(c),
{
    s.push(c);
}

/// A string holding exactly the characters of `v`.
pub fn string_of(v: &[char]) -> (r: String)
    ensures
        r@ == v@,
{
    let mut r = String::new();
    let mut i: usize = 0;
    while i < v.len()
        invariant
            i <= v.len(),
            r@ == v@.take(i as int),
        decreases v.len() - i,
    {
        push_char(&mut r, v[i]);
        i += 1;
        assert(r@ =~= v@.take(i as int));
    }
    assert(v@.take(i as int) =~= v@);
    r
}

/// A copy of a string slice as an owned string.
pub fn owned(s: &str) -> (r: String)
    ensures
        r@ == s@,
{
    let v = chars_of(s);
    string_of(v.as_slice())
}

/// Concatenation of two strings.
pub fn concat(a: &str, b: &str) -> (r: String)
    ensures
        r@ == a@ + b@,
{
    let mut r = owned(a);
    r.append(b);
    r
}

/// ASCII lowercase.
pub fn lower_char(c: char) -> (r: char)
    ensures
        r == ascii_lower(c),
{
    if 'A' <= c && c <= 'Z' {
        let v: u32 = c as u32;
        let w: u32 = v + 32;
        assert(0x61 <= w <= 0x7a);
        char_from_ascii(w)
    } else {
        c
    }
}

/// ASCII uppercase.
pub fn upper_char(c: char) -> (r: char)
    ensures
        r == ascii_upper(c),
{
    if 'a' <= c && c <= 'z' {
        let v: u32 = c as u32;
        let w: u32 = v - 32;
        char_from_ascii(w)
    } else {
        c
    }
}

/// The character with an ASCII code point.
#[verifier::external_body]
pub(crate) fn char_from_ascii(v: u32) -> (r: char)
    requires
        v < 0x80,
    ensures
        r == v as char,
{
    char::from_u32(v).unwrap()
}

/// Whether two character sequences are equal.
pub fn chars_eq(a: &[char], b: &[char]) -> (r: bool)
    ensures
        r == (a@ == b@),
{
    if a.len() != b.len() {
        return false;
    }
    let mut i: usize = 0;
    while i < a.len()
        invariant
            a.len() == b.len(),
            i <= a.len(),
            forall|j: int| 0 <= j < i ==> a@[j] == b@[j],
        decreases a.len() - i,
    {
        if a[i] != b[i] {
            return false;
        }
        i += 1;
    }
    assert(a@ =~= b@);
    true
}

/// Whether two character sequences are equal, ignoring ASCII case.
pub fn chars_eq_ignore_case(a: &[char], b: &[char]) -> (r: bool)
    ensures
        r == eq_ignore_case(a@, b@),
{
    if a.len() != b.len() {
        return false;
    }
    let mut i: usize = 0;
    while i < a.len()
        invariant
            a.len() == b.len(),
            i <= a.len(),
            forall|j: int| 0 <= j < i ==> ascii_lower(#[trigger] a@[j]) == ascii_lower(b@[j]),
        decreases a.len() - i,
    {
        if lower_char(a[i]) != lower_char(b[i]) {
            return false;
        }
        i += 1;
    }
    true
}

/// Whether a character sequence equals a string, ignoring ASCII case.
pub fn eq_ignore_case_str(a: &[char], b: &str) -> (r: bool)
    ensures
        r == eq_ignore_case(a@, b@),
{
    let bv = chars_of(b);
    chars_eq_ignore_case(a, bv.as_slice())
}

/// Whether a character sequence equals a string.
pub fn eq_str(a: &[char], b: &str) -> (r: bool)
    ensures
        r == (a@ == b@),
{
    let bv = chars_of(b);
    chars_eq(a, bv.as_slice())
}

/// Whether the characters of `a` from position `start` on spell `b`.
pub fn suffix_eq_str(a: &[char], start: usize, b: &str) -> (r: bool)
    requires
        start <= a@.len(),
    ensures
        r == (a@.skip(start as int) == b@),
{
    let bv = chars_of(b);
    if a.len() - start != bv.len() {
        proof {
            if a@.skip(start as int) == b@ {
                assert(a@.skip(start as int).len() == b@.len());
            }
        }
        return false;
    }
    let mut i: usize = 0;
    while i < bv.len()
        invariant
            a.len() == start + bv.len(),
            bv@ == b@,
            start <= a@.len(),
            i <= bv@.len(),
            forall|j: int| 0 <= j < i ==> a@[start + j] == bv@[j],
        decreases bv.len() - i,
    {
        if a[start + i] != bv[i] {
            proof {
                assert(a@.skip(start as int)[i as int] != b@[i as int]);
            }
            return false;
        }
        i += 1;
    }
    assert(a@.skip(start as int) =~= b@);
    true
}

/// Whether `c` occurs in `s`.
pub fn contains_char(s: &[char], c: char) -> (r: bool)
    ensures
        r == has_char(s@, c),
{
    let mut i: usize = 0;
    while i < s.len()
        invariant
            i <= s.len(),
            forall|j: int| 0 <= j < i ==> s@[j] != c,
        decreases s.len() - i,
    {
        if s[i] == c {
            return true;
        }
        i += 1;
    }
    false
}

/// Number of UTF-8 bytes that encode `c`.
pub fn char_width(c: char) -> (r: usize)
    ensures
        r == utf8_width(c),
        1 <= r <= 4,
{
    let v: u32 = c as u32;
    if v < 0x80 {
        1
    } else if v < 0x800 {
        2
    } else if v < 0x10000 {
        3
    } else {
        4
    }
}

/// Whether every character is an ASCII digit.
pub fn chars_all_digits(s: &[char]) -> (r: bool)
    ensures
        r == all_digits(s@),
{
    let mut i: usize = 0;
    while i < s.len()
        invariant
            i <= s.len(),
            forall|j: int| 0 <= j < i ==> is_digit(#[trigger] s@[j]),
        decreases s.len() - i,
    {
        if !('0' <= s[i] && s[i] <= '9') {
            return false;
        }
        i += 1;
    }
    true
}

pub proof fn lemma_push_concat<T>(a: Seq<T>, x: T, m: Seq<T>)
    ensures
        a + (seq![x] + m) == a.push(x) + m,
{
    assert(a + (seq![x] + m) =~= a.push(x) + m);
}

/// The character sequences of a sequence of strings.
pub open spec fn strings_view(v: Seq<String>) -> Seq<Seq<char>> {
    v.map_values(|s: String| s@)
}

pub proof fn lemma_strings_view_push(v: Seq<String>, s: String)
    ensures
        strings_view(v.push(s)) == strings_view(v).push(s@),
{
    assert(strings_view(v.push(s)) =~= strings_view(v).push(s@));
}

/// A copy of the strings of `v` from position `start` on.
pub fn clone_strings_from(v: &[String], start: usize) -> (r: Vec<String>)
    requires
        start <= v@.len(),
    ensures
        strings_view(r@) == strings_view(v@.subrange(start as int, v@.len() as int)),
        r@.len() == v@.len() - start,
{
    let mut r: Vec<String> = Vec::new();
    let mut i: usize = start;
    let ghost tail = v@.subrange(start as int, v@.len() as int);
    while i < v.len()
        invariant
            start <= i <= v.len(),
            tail == v@.subrange(start as int, v@.len() as int),
            strings_view(r@) == strings_view(tail.take(i - start)),
            r@.len() == i - start,
        decreases v.len() - i,
    {
        let s = v[i].clone();
        proof { lemma_strings_view_push(r@, s); }
        r.push(s);
        assert(tail.take(i + 1 - start) =~= tail.take(i - start).push(tail[i - start]));
        proof { lemma_strings_view_push(tail.take(i - start), tail[i - start]); }
        i += 1;
    }
    assert(tail.take(i - start) =~= tail);
    r
}

/// The decimal digit for `d < 10`.
pub open spec fn digit_char(d: nat) -> char {
    ((d + 48) as u32) as char
}

/// The decimal text of `n`, as `to_string` writes it.
pub open spec fn decimal_text(n: nat) -> Seq<char>
    decreases n,
{
    if n < 10 {
        seq![digit_char(n)]
    } else {
        decimal_text(n / 10).push(digit_char(n % 10))
    }
}

/// The decimal text of `n`.
pub fn u64_text(n: u64) -> (r: String)
    ensures
        r@ == decimal_text(n as nat),
{
    let mut digits: Vec<char> = Vec::new();
    let mut m: u64 = n;
    loop
        invariant_except_break
            decimal_text(n as nat) == decimal_text(m as nat) + digits@.reverse(),
        ensures
            decimal_text(n as nat) == digits@.reverse(),
        decreases m,
    {
        let d: u64 = m % 10;
        let c = char_from_ascii((d + 48) as u32);
        assert(c == digit_char((m % 10) as nat));
        let ghost before = digits@;
        digits.push(c);
        assert(digits@.reverse() =~= seq![c] + before.reverse());
        if m < 10 {
            assert(decimal_text(m as nat) == seq![c]);
            assert(decimal_text(n as nat) =~= digits@.reverse());
            break;
        }
        assert(decimal_text(m as nat) == decimal_text((m / 10) as nat).push(c));
        assert(decimal_text((m / 10) as nat).push(c) + before.reverse() =~= decimal_text((m / 10) as nat) + digits@.reverse());
        m = m / 10;
    }
    let mut r = String::new();
    assert(r@ + digits@.reverse() =~= decimal_text(n as nat));
    while digits.len() > 0
        invariant
            r@ + digits@.reverse() == decimal_text(n as nat),
        decreases digits.len(),
    {
        let ghost before = digits@;
        let c = digits.pop().unwrap();
        assert(before.reverse() =~= seq![c] + digits@.reverse());
        let ghost r0 = r@;
        push_char(&mut r, c);
        assert(r@ + digits@.reverse() =~= r0 + before.reverse());
    }
    assert(r@ + digits@.reverse() =~= r@);
    r
}

/// The number that a string of decimal digits spells.
pub open spec fn numeral_value(s: Seq<char>) -> int
    decreases s.len(),
{
    if s.len() == 0 {
        0
    } else {
        numeral_value(s.drop_last()) * 10 + (s.last() as int - '0' as int)
    }
}

/// `decimal_text(n)` is the decimal numeral of `n`: one or more digits that spell `n`, with
/// no leading zero unless `n` is zero.
pub proof fn law_decimal_text(n: nat)
    ensures
        decimal_text(n).len() >= 1,
        forall|k: int| 0 <= k < decimal_text(n).len() ==> is_digit(#[trigger] decimal_text(n)[k]),
        numeral_value(decimal_text(n)) == n,
        decimal_text(n)[0] == '0' ==> n == 0,
    decreases n,
{
    if n < 10 {
        assert('0' as int == 48);
        assert(digit_char(n) as int == n + 48);
        assert(seq![digit_char(n)].drop_last() =~= Seq::<char>::empty());
        assert(numeral_value(seq![digit_char(n)]) == numeral_value(Seq::<char>::empty()) * 10 + n);
    } else {
        law_decimal_text(n / 10);
        let d = (n % 10) as nat;
        assert(digit_char(d) as int == d + 48);
        let t = decimal_text(n / 10);
        assert(decimal_text(n) == t.push(digit_char(d)));
        assert(t.push(digit_char(d)).drop_last() =~= t);
        assert(t.push(digit_char(d))[0] == t[0]);
        assert forall|k: int| 0 <= k < decimal_text(n).len() implies is_digit(#[trigger] decimal_text(n)[k]) by {
            if k < t.len() {
                assert(decimal_text(n)[k] == t[k]);
            }
        }
        assert('0' as int == 48);
        assert(numeral_value(t.push(digit_char(d))) == numeral_value(t) * 10 + d);
        assert((n / 10) * 10 + n % 10 == n);
    }
}

} // verus!
