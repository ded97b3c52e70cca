//! Resource limits of `sort`, and exact decimal numbers for `sort -n`.

use vstd::prelude::*;
use std::cmp::Ordering;
use crate::text::chars_of;

verus! {

pub const MAX_SORT_RECORDS: usize = 262144;
pub const MAX_SORT_BYTES: usize = 67108864;

/// Whether one more record of `next_record_bytes` bytes would go over what `sort` may hold.
pub fn resource_limit_exceeded(record_count: usize, retained_bytes: usize, next_record_bytes: usize) -> (r: bool)
    ensures
        r == (record_count >= MAX_SORT_RECORDS || retained_bytes + next_record_bytes > MAX_SORT_BYTES),
{
    record_count >= MAX_SORT_RECORDS || retained_bytes.saturating_add(next_record_bytes) > MAX_SORT_BYTES
}

/// A decimal number held exactly: its sign, its significant digits (ASCII), and how many of
/// them follow the decimal point.
#[derive(Clone, Debug, Eq, PartialEq)]
pub struct ExactDecimalV1 {
    negative: bool,
    digits: Vec<u8>,
    scale: usize,
}

pub struct SpecDecimal {
    pub negative: bool,
    pub digits: Seq<u8>,
    pub scale: nat,
}

impl View for ExactDecimalV1 {
    type V = SpecDecimal;

    closed spec fn view(&self) -> SpecDecimal {
        SpecDecimal { negative: self.negative, digits: self.digits@, scale: self.scale as nat }
    }
}

pub open spec fn zero_decimal() -> SpecDecimal {
    SpecDecimal { negative: false, digits: seq![0x30u8], scale: 0 }
}

/// `s` without leading and trailing spaces and tabs.
pub open spec fn trim_blanks(s: Seq<char>) -> Seq<char>
    decreases s.len(),
{
    if s.len() > 0 && (s[0] == ' ' || s[0] == '\t') {
        trim_blanks(s.drop_first())
    } else if s.len() > 0 && (s.last() == ' ' || s.last() == '\t') {
        trim_blanks(s.drop_last())
    } else {
        s
    }
}

/// The digits of `p[i..]` (with at most one decimal point), appended to `digits`, and the
/// count of those after the point added to `fraction`; `None` for any other character.
pub open spec fn scan_number(p: Seq<char>, i: int, seen_dot: bool, digits: Seq<u8>, fraction: nat) -> Option<(Seq<u8>, nat)>
    decreases p.len() - i,
{
    if i < 0 || i >= p.len() {
        Some((digits, fraction))
    } else if p[i] == '.' && !seen_dot {
        scan_number(p, i + 1, true, digits, fraction)
    } else if '0' <= p[i] <= '9' {
        scan_number(p, i + 1, seen_dot, digits.push((p[i] as u32) as u8), if seen_dot { fraction + 1 } else { fraction })
    } else {
        None
    }
}

/// Drops trailing zero digits, as long as they follow the decimal point.
pub open spec fn strip_fraction_zeros(d: Seq<u8>, fraction: nat) -> (Seq<u8>, nat)
    decreases fraction,
{
    if fraction > 0 && d.len() > 0 && d.last() == 0x30 {
        strip_fraction_zeros(d.drop_last(), (fraction - 1) as nat)
    } else {
        (d, fraction)
    }
}

/// The index of the first digit other than `0` in `d` at or after `i`.
pub open spec fn first_nonzero(d: Seq<u8>, i: int) -> int
    decreases d.len() - i,
{
    if i < 0 || i >= d.len() || d[i] != 0x30 { i } else { first_nonzero(d, i + 1) }
}

/// The exact decimal a text denotes: optional blanks, an optional sign, digits with at most
/// one decimal point; blank text is zero. Leading zeros and trailing fractional zeros are
/// dropped, and zero is never negative.
pub open spec fn spec_parse_decimal(text: Seq<char>) -> Option<SpecDecimal> {
    let t = trim_blanks(text);
    if t.len() == 0 {
        Some(zero_decimal())
    } else {
        let negative = t[0] == '-';
        let payload = if t[0] == '+' || t[0] == '-' { t.skip(1) } else { t };
        if payload.len() == 0 {
            None
        } else {
            match scan_number(payload, 0, false, seq![], 0) {
                None => None,
                Some((digits, fraction)) => if digits.len() == 0 {
                    None
                } else {
                    let lead = first_nonzero(digits, 0);
                    if lead >= digits.len() {
                        Some(zero_decimal())
                    } else {
                        let (d, scale) = strip_fraction_zeros(digits.skip(lead), fraction);
                        Some(SpecDecimal { negative, digits: d, scale })
                    }
                },
            }
        }
    }
}

fn zero_exact() -> (r: ExactDecimalV1)
    ensures
        r@ == zero_decimal(),
{
    let mut digits: Vec<u8> = Vec::new();
    digits.push(0x30);
    let r = ExactDecimalV1 { negative: false, digits, scale: 0 };
    assert(r@.digits =~= zero_decimal().digits);
    r
}

/// Parses the exact decimal a text denotes, or `None` when it is not a number.
pub fn parse_exact_decimal(text: &str) -> (r: Option<ExactDecimalV1>)
    ensures
        match r {
            Some(d) => spec_parse_decimal(text@) == Some(d@),
            None => spec_parse_decimal(text@) is None,
        },
{
    let s = chars_of(text);
    let mut a: usize = 0;
    let mut b: usize = s.len();
    assert(s@.subrange(0, s@.len() as int) =~= s@);
    while a < b && (s[a] == ' ' || s[a] == '\t')
        invariant
            a <= b == s@.len(),
            s@ == text@,
            trim_blanks(text@) == trim_blanks(s@.subrange(a as int, b as int)),
        decreases b - a,
    {
        assert(s@.subrange(a as int, b as int).drop_first() =~= s@.subrange(a + 1, b as int));
        a += 1;
    }
    while a < b && (s[b - 1] == ' ' || s[b - 1] == '\t')
        invariant
            a <= b <= s@.len(),
            s@ == text@,
            a < b ==> !(s@[a as int] == ' ' || s@[a as int] == '\t'),
            trim_blanks(text@) == trim_blanks(s@.subrange(a as int, b as int)),
        decreases b - a,
    {
        assert(s@.subrange(a as int, b as int).drop_last() =~= s@.subrange(a as int, b - 1));
        b -= 1;
    }
    let ghost t = s@.subrange(a as int, b as int);
    assert(trim_blanks(text@) == t);
    if a == b {
        return Some(zero_exact());
    }
    assert(t[0] == s@[a as int]);
    let negative = s[a] == '-';
    let start: usize = if s[a] == '+' || s[a] == '-' { a + 1 } else { a };
    let ghost payload = s@.subrange(start as int, b as int);
    assert(payload =~= (if t[0] == '+' || t[0] == '-' { t.skip(1) } else { t }));
    if start == b {
        return None;
    }
    let mut seen_dot = false;
    let mut fraction: usize = 0;
    let mut digits: Vec<u8> = Vec::new();
    let mut i: usize = start;
    while i < b
        invariant
            start <= i <= b <= s@.len(),
            payload == s@.subrange(start as int, b as int),
            trim_blanks(text@) == t,
            t.len() > 0,
            payload == (if t[0] == '+' || t[0] == '-' { t.skip(1) } else { t }),
            payload.len() > 0,
            negative == (t[0] == '-'),
            fraction <= i - start,
            digits@.len() <= i - start,
            scan_number(payload, 0, false, seq![], 0)
                == scan_number(payload, i - start, seen_dot, digits@, fraction as nat),
        decreases b - i,
    {
        let c = s[i];
        assert(payload[i - start] == c);
        if c == '.' && !seen_dot {
            seen_dot = true;
        } else if '0' <= c && c <= '9' {
            digits.push((c as u32) as u8);
            if seen_dot {
                fraction += 1;
            }
        } else {
            return None;
        }
        i += 1;
    }
    if digits.len() == 0 {
        return None;
    }
    let ghost all = digits@;
    let mut lead: usize = 0;
    while lead < digits.len() && digits[lead] == 0x30
        invariant
            lead <= digits@.len(),
            first_nonzero(all, 0) == first_nonzero(all, lead as int),
            digits@ == all,
        decreases digits.len() - lead,
    {
        lead += 1;
    }
    if lead >= digits.len() {
        return Some(zero_exact());
    }
    let mut kept: Vec<u8> = Vec::new();
    let mut j: usize = lead;
    while j < digits.len()
        invariant
            lead <= j <= digits@.len(),
            kept@ == digits@.subrange(lead as int, j as int),
        decreases digits.len() - j,
    {
        kept.push(digits[j]);
        j += 1;
        assert(kept@ =~= digits@.subrange(lead as int, j as int));
    }
    assert(kept@ =~= all.skip(lead as int));
    let ghost stripped = strip_fraction_zeros(all.skip(lead as int), fraction as nat);
    while fraction > 0 && kept.len() > 0 && kept[kept.len() - 1] == 0x30
        invariant
            stripped == strip_fraction_zeros(kept@, fraction as nat),
        decreases fraction,
    {
        let ghost before = kept@;
        kept.pop();
        assert(kept@ =~= before.drop_last());
        fraction -= 1;
    }
    Some(ExactDecimalV1 { negative, digits: kept, scale: fraction })
}

/// The sign of an ordering: -1, 0 or 1.
pub open spec fn ordering_sign(o: Ordering) -> int {
    match o {
        Ordering::Less => -1,
        Ordering::Equal => 0,
        Ordering::Greater => 1,
    }
}

pub open spec fn digit_at(d: Seq<u8>, i: int) -> u8 {
    if 0 <= i < d.len() { d[i] } else { 0x30 }
}

pub open spec fn longest(l: Seq<u8>, r: Seq<u8>) -> int {
    if l.len() >= r.len() { l.len() as int } else { r.len() as int }
}

/// Compares digit strings aligned at their first digit, from position `i`, the shorter one
/// padded with zeros: -1, 0 or 1.
pub open spec fn compare_digits_from(l: Seq<u8>, r: Seq<u8>, i: int) -> int
    decreases longest(l, r) - i,
{
    if i < 0 || i >= longest(l, r) {
        0
    } else if digit_at(l, i) < digit_at(r, i) {
        -1
    } else if digit_at(l, i) > digit_at(r, i) {
        1
    } else {
        compare_digits_from(l, r, i + 1)
    }
}

pub open spec fn is_zero(d: SpecDecimal) -> bool {
    d.digits == seq![0x30u8]
}

/// How many digits stand before the decimal point (negative when zeros follow the point).
pub open spec fn integer_digits(d: SpecDecimal) -> int {
    d.digits.len() - d.scale
}

/// Compares absolute values: -1, 0 or 1.
pub open spec fn compare_magnitude(l: SpecDecimal, r: SpecDecimal) -> int {
    if is_zero(l) && is_zero(r) {
        0
    } else if is_zero(l) {
        -1
    } else if is_zero(r) {
        1
    } else if integer_digits(l) < integer_digits(r) {
        -1
    } else if integer_digits(l) > integer_digits(r) {
        1
    } else {
        compare_digits_from(l.digits, r.digits, 0)
    }
}

/// Compares two decimals: -1, 0 or 1.
pub open spec fn compare_decimal(l: SpecDecimal, r: SpecDecimal) -> int {
    if l.negative != r.negative {
        if l.negative { -1 } else { 1 }
    } else if l.negative {
        -compare_magnitude(l, r)
    } else {
        compare_magnitude(l, r)
    }
}

fn is_zero_digits(d: &Vec<u8>) -> (r: bool)
    ensures
        r == (d@ == seq![0x30u8]),
{
    if d.len() == 1 && d[0] == 0x30 {
        assert(d@ =~= seq![0x30u8]);
        true
    } else {
        false
    }
}

/// Compares the counts of integer digits: -1, 0 or 1.
fn integer_digit_order(l_len: usize, l_scale: usize, r_len: usize, r_scale: usize) -> (r: i8)
    ensures
        r == (if l_len - l_scale < r_len - r_scale { -1int } else if l_len - l_scale > r_len - r_scale { 1int } else { 0int }),
{
    let left = (l_len as u128) + (r_scale as u128);
    let right = (r_len as u128) + (l_scale as u128);
    if left < right { -1 } else if left > right { 1 } else { 0 }
}

fn compare_decimal_magnitude(left: &ExactDecimalV1, right: &ExactDecimalV1) -> (r: Ordering)
    ensures
        ordering_sign(r) == compare_magnitude(left@, right@),
{
    let left_zero = is_zero_digits(&left.digits);
    let right_zero = is_zero_digits(&right.digits);
    if left_zero && right_zero {
        return Ordering::Equal;
    } else if left_zero {
        return Ordering::Less;
    } else if right_zero {
        return Ordering::Greater;
    }
    let order = integer_digit_order(left.digits.len(), left.scale, right.digits.len(), right.scale);
    if order < 0 {
        return Ordering::Less;
    } else if order > 0 {
        return Ordering::Greater;
    }
    let maximum = if left.digits.len() >= right.digits.len() { left.digits.len() } else { right.digits.len() };
    let ghost l = left@.digits;
    let ghost r = right@.digits;
    let mut index: usize = 0;
    let ghost mut k: int = 0;
    while index < maximum
        invariant
            index <= maximum,
            k == index,
            maximum == longest(l, r),
            l == left.digits@,
            r == right.digits@,
            compare_digits_from(l, r, 0) == compare_digits_from(l, r, k),
            compare_magnitude(left@, right@) == compare_digits_from(l, r, 0),
        decreases maximum - index,
    {
        let ld = if index < left.digits.len() { left.digits[index] } else { 0x30 };
        let rd = if index < right.digits.len() { right.digits[index] } else { 0x30 };
        assert(ld == digit_at(l, k) && rd == digit_at(r, k));
        if ld < rd {
            return Ordering::Less;
        } else if ld > rd {
            return Ordering::Greater;
        }
        index += 1;
        proof {
            k = k + 1;
        }
    }
    Ordering::Equal
}

/// Compares two exact decimals by value.
pub fn compare_exact_decimal(left: &ExactDecimalV1, right: &ExactDecimalV1) -> (r: Ordering)
    ensures
        ordering_sign(r) == compare_decimal(left@, right@),
{
    if left.negative != right.negative {
        return if left.negative { Ordering::Less } else { Ordering::Greater };
    }
    let magnitude = compare_decimal_magnitude(left, right);
    if left.negative {
        match magnitude {
            Ordering::Less => Ordering::Greater,
            Ordering::Equal => Ordering::Equal,
            Ordering::Greater => Ordering::Less,
        }
    } else {
        magnitude
    }
}

/// Digit comparison from `i` up to position `n`.
pub open spec fn compare_digits_upto(l: Seq<u8>, r: Seq<u8>, i: int, n: int) -> int
    decreases n - i,
{
    if i < 0 || i >= n {
        0
    } else if digit_at(l, i) < digit_at(r, i) {
        -1
    } else if digit_at(l, i) > digit_at(r, i) {
        1
    } else {
        compare_digits_upto(l, r, i + 1, n)
    }
}

proof fn lemma_upto_tail_zero(l: Seq<u8>, r: Seq<u8>, i: int, n: int)
    requires
        0 <= i,
        longest(l, r) <= i,
    ensures
        compare_digits_upto(l, r, i, n) == 0,
    decreases n - i,
{
    if i < n {
        lemma_upto_tail_zero(l, r, i + 1, n);
    }
}

proof fn lemma_digits_upto(l: Seq<u8>, r: Seq<u8>, i: int, n: int)
    requires
        0 <= i,
        longest(l, r) <= n,
    ensures
        compare_digits_from(l, r, i) == compare_digits_upto(l, r, i, n),
    decreases n - i,
{
    if i >= longest(l, r) {
        lemma_upto_tail_zero(l, r, i, n);
    } else {
        lemma_digits_upto(l, r, i + 1, n);
    }
}

proof fn lemma_upto_antisym(l: Seq<u8>, r: Seq<u8>, i: int, n: int)
    ensures
        compare_digits_upto(l, r, i, n) == -compare_digits_upto(r, l, i, n),
    decreases n - i,
{
    if 0 <= i < n {
        lemma_upto_antisym(l, r, i + 1, n);
    }
}

proof fn lemma_upto_refl(l: Seq<u8>, i: int, n: int)
    ensures
        compare_digits_upto(l, l, i, n) == 0,
    decreases n - i,
{
    if 0 <= i < n {
        lemma_upto_refl(l, i + 1, n);
    }
}

proof fn lemma_upto_trans(a: Seq<u8>, b: Seq<u8>, c: Seq<u8>, i: int, n: int)
    requires
        compare_digits_upto(a, b, i, n) <= 0,
        compare_digits_upto(b, c, i, n) <= 0,
    ensures
        compare_digits_upto(a, c, i, n) <= 0,
    decreases n - i,
{
    if 0 <= i < n {
        if digit_at(a, i) == digit_at(b, i) && digit_at(b, i) == digit_at(c, i) {
            lemma_upto_trans(a, b, c, i + 1, n);
        }
    }
}

proof fn lemma_magnitude_antisym(l: SpecDecimal, r: SpecDecimal)
    ensures
        compare_magnitude(l, r) == -compare_magnitude(r, l),
{
    let n = longest(l.digits, r.digits);
    lemma_digits_upto(l.digits, r.digits, 0, n);
    lemma_digits_upto(r.digits, l.digits, 0, n);
    lemma_upto_antisym(l.digits, r.digits, 0, n);
}

proof fn lemma_magnitude_trans(a: SpecDecimal, b: SpecDecimal, c: SpecDecimal)
    requires
        compare_magnitude(a, b) <= 0,
        compare_magnitude(b, c) <= 0,
    ensures
        compare_magnitude(a, c) <= 0,
{
    let n = longest(a.digits, b.digits) + longest(b.digits, c.digits);
    lemma_digits_upto(a.digits, b.digits, 0, n);
    lemma_digits_upto(b.digits, c.digits, 0, n);
    lemma_digits_upto(a.digits, c.digits, 0, n);
    if !is_zero(a) && !is_zero(b) && !is_zero(c) && integer_digits(a) == integer_digits(b)
        && integer_digits(b) == integer_digits(c) {
        lemma_upto_trans(a.digits, b.digits, c.digits, 0, n);
    }
}

/// Comparing exact decimals is antisymmetric and reflexive: swapping the operands flips the
/// result, and every decimal compares equal to itself.
pub proof fn law_decimal_compare_antisymmetric(l: SpecDecimal, r: SpecDecimal)
    ensures
        compare_decimal(l, r) == -compare_decimal(r, l),
        compare_decimal(l, l) == 0,
{
    lemma_magnitude_antisym(l, r);
    let n = longest(l.digits, l.digits);
    lemma_digits_upto(l.digits, l.digits, 0, n);
    lemma_upto_refl(l.digits, 0, n);
}

/// Comparing exact decimals is transitive, so `sort -n` orders by a total preorder.
pub proof fn law_decimal_compare_transitive(a: SpecDecimal, b: SpecDecimal, c: SpecDecimal)
    requires
        compare_decimal(a, b) <= 0,
        compare_decimal(b, c) <= 0,
    ensures
        compare_decimal(a, c) <= 0,
{
    lemma_magnitude_antisym(a, b);
    lemma_magnitude_antisym(b, c);
    lemma_magnitude_antisym(a, c);
    if a.negative == b.negative && b.negative == c.negative {
        if a.negative {
            lemma_magnitude_trans(c, b, a);
        } else {
            lemma_magnitude_trans(a, b, c);
        }
    }
}

/// The decimal with the opposite sign; zero stays unsigned.
pub open spec fn negated(d: SpecDecimal) -> SpecDecimal {
    if is_zero(d) {
        d
    } else {
        SpecDecimal { negative: !d.negative, ..d }
    }
}

/// Zero carries no sign, as every parsed decimal does.
pub open spec fn unsigned_zero(d: SpecDecimal) -> bool {
    is_zero(d) ==> !d.negative
}

/// Numeric order is reversed by negation: `-l` compares to `-r` as `r` compares to `l`. So of
/// two negative numbers the one of larger magnitude is the smaller (`-2 < -1`), and `sort -n`
/// puts it first.
pub proof fn law_negation_reverses_order(l: SpecDecimal, r: SpecDecimal)
    requires
        unsigned_zero(l),
        unsigned_zero(r),
    ensures
        compare_decimal(negated(l), negated(r)) == compare_decimal(r, l),
        unsigned_zero(negated(l)),
{
    lemma_magnitude_antisym(l, r);
    lemma_magnitude_antisym(negated(l), negated(r));
    assert(compare_magnitude(negated(l), negated(r)) == compare_magnitude(l, r));
}

/// Ten to the power `n`.
pub open spec fn pow10(n: nat) -> int
    decreases n,
{
    if n == 0 { 1 } else { 10 * pow10((n - 1) as nat) }
}

/// The value of an ASCII digit.
pub open spec fn digit_value(c: u8) -> int {
    c - 0x30
}

/// The number that digits `i..n` of `d` spell, `d` read as padded with zeros on the right.
pub open spec fn padded_value(d: Seq<u8>, i: int, n: int) -> int
    decreases n - i,
{
    if i < 0 || i >= n {
        0
    } else {
        digit_value(digit_at(d, i)) * pow10((n - 1 - i) as nat) + padded_value(d, i + 1, n)
    }
}

/// The integer that the digits of `d` spell: its value is this over ten to its scale.
pub open spec fn digits_value(d: SpecDecimal) -> int {
    padded_value(d.digits, 0, d.digits.len() as int)
}

/// The digits of `d` times its sign: the decimal's value is this over ten to its scale.
pub open spec fn signed_value(d: SpecDecimal) -> int {
    if d.negative { -digits_value(d) } else { digits_value(d) }
}

/// Every byte of `d` is an ASCII digit.
pub open spec fn ascii_digits(d: Seq<u8>) -> bool {
    forall|k: int| 0 <= k < d.len() ==> 0x30 <= #[trigger] d[k] <= 0x39
}

/// A decimal as parsing gives it: ASCII digits, no leading zero but in zero itself, and zero
/// unsigned.
pub open spec fn canonical_decimal(d: SpecDecimal) -> bool {
    &&& d.digits.len() > 0
    &&& ascii_digits(d.digits)
    &&& (is_zero(d) || d.digits[0] != 0x30)
    &&& unsigned_zero(d)
}

/// -1, 0 or 1 as `x` is negative, zero or positive.
pub open spec fn sign_of(x: int) -> int {
    if x < 0 { -1 } else if x > 0 { 1 } else { 0 }
}

proof fn lemma_pow10_positive(n: nat)
    ensures
        pow10(n) >= 1,
    decreases n,
{
    if n > 0 {
        lemma_pow10_positive((n - 1) as nat);
    }
}

proof fn lemma_pow10_adds(a: nat, b: nat)
    ensures
        pow10(a) * pow10(b) == pow10(a + b),
    decreases b,
{
    if b > 0 {
        lemma_pow10_adds(a, (b - 1) as nat);
        let x = pow10(a);
        let y = pow10((b - 1) as nat);
        assert(x * (10 * y) == 10 * (x * y)) by (nonlinear_arith);
        assert((a + b - 1) as nat == (a + (b - 1)) as nat);
    }
}

proof fn lemma_pow10_monotone(a: nat, b: nat)
    requires
        a <= b,
    ensures
        pow10(a) <= pow10(b),
    decreases b,
{
    if a < b {
        lemma_pow10_monotone(a, (b - 1) as nat);
        lemma_pow10_positive((b - 1) as nat);
    }
}


proof fn lemma_padded_bounds(d: Seq<u8>, i: int, n: int)
    requires
        ascii_digits(d),
        0 <= i <= n,
    ensures
        0 <= padded_value(d, i, n) < pow10((n - i) as nat),
    decreases n - i,
{
    if i < n {
        lemma_padded_bounds(d, i + 1, n);
        let c = digit_at(d, i);
        assert(0x30 <= c <= 0x39) by {
            if 0 <= i < d.len() {
                assert(0x30 <= d[i] <= 0x39);
            }
        }
        let v = digit_value(c);
        let p = pow10((n - 1 - i) as nat);
        let rest = padded_value(d, i + 1, n);
        lemma_pow10_positive((n - 1 - i) as nat);
        assert(pow10((n - i) as nat) == 10 * p);
        assert(0 <= v * p + rest < 10 * p) by (nonlinear_arith)
            requires
                0 <= v <= 9,
                p >= 1,
                0 <= rest < p,
        ;
    }
}

proof fn lemma_padded_order(l: Seq<u8>, r: Seq<u8>, i: int)
    requires
        ascii_digits(l),
        ascii_digits(r),
        0 <= i <= longest(l, r),
    ensures
        compare_digits_from(l, r, i) == sign_of(padded_value(l, i, longest(l, r)) - padded_value(r, i, longest(l, r))),
    decreases longest(l, r) - i,
{
    let n = longest(l, r);
    if i < n {
        lemma_padded_order(l, r, i + 1);
        lemma_padded_bounds(l, i + 1, n);
        lemma_padded_bounds(r, i + 1, n);
        lemma_pow10_positive((n - 1 - i) as nat);
        let p = pow10((n - 1 - i) as nat);
        let a = digit_value(digit_at(l, i));
        let b = digit_value(digit_at(r, i));
        let ra = padded_value(l, i + 1, n);
        let rb = padded_value(r, i + 1, n);
        if a < b {
            assert(a * p + ra < b * p + rb) by (nonlinear_arith)
                requires
                    a + 1 <= b,
                    p >= 1,
                    0 <= ra < p,
                    0 <= rb,
            ;
        } else if a > b {
            assert(a * p + ra > b * p + rb) by (nonlinear_arith)
                requires
                    b + 1 <= a,
                    p >= 1,
                    0 <= rb < p,
                    0 <= ra,
            ;
        }
    }
}

proof fn lemma_padded_widen(d: Seq<u8>, i: int, n: int)
    requires
        d.len() <= n,
        0 <= i <= n,
    ensures
        padded_value(d, i, n + 1) == padded_value(d, i, n) * 10,
    decreases n - i,
{
    if i < n {
        lemma_padded_widen(d, i + 1, n);
        let v = digit_value(digit_at(d, i));
        let p = pow10((n - 1 - i) as nat);
        assert(pow10((n + 1 - 1 - i) as nat) == 10 * p);
        assert(v * (10 * p) + padded_value(d, i + 1, n) * 10 == (v * p + padded_value(d, i + 1, n)) * 10)
            by (nonlinear_arith);
    } else {
        assert(padded_value(d, n + 1, n + 1) == 0);
    }
}

proof fn lemma_padded_scale(d: Seq<u8>, n: int)
    requires
        d.len() <= n,
    ensures
        padded_value(d, 0, n) == padded_value(d, 0, d.len() as int) * pow10((n - d.len()) as nat),
    decreases n - d.len(),
{
    if n > d.len() {
        lemma_padded_scale(d, n - 1);
        lemma_padded_widen(d, 0, n - 1);
        let x = padded_value(d, 0, d.len() as int);
        let y = pow10((n - 1 - d.len()) as nat);
        assert(pow10((n - d.len()) as nat) == 10 * y);
        assert((x * y) * 10 == x * (10 * y)) by (nonlinear_arith);
    }
}

proof fn lemma_leading_digit(d: Seq<u8>)
    requires
        ascii_digits(d),
        d.len() > 0,
        d[0] != 0x30,
    ensures
        padded_value(d, 0, d.len() as int) >= pow10((d.len() - 1) as nat),
{
    let n = d.len() as int;
    lemma_padded_bounds(d, 1, n);
    let v = digit_value(d[0]);
    let p = pow10((n - 1) as nat);
    lemma_pow10_positive((n - 1) as nat);
    assert(0x30 <= d[0] <= 0x39);
    assert(v * p + padded_value(d, 1, n) >= p) by (nonlinear_arith)
        requires
            1 <= v,
            p >= 1,
            padded_value(d, 1, n) >= 0,
    ;
}

/// Nonzero decimals with fewer integer digits are smaller in magnitude.
proof fn lemma_fewer_integer_digits(a: SpecDecimal, b: SpecDecimal)
    requires
        canonical_decimal(a),
        canonical_decimal(b),
        !is_zero(a),
        !is_zero(b),
        integer_digits(a) < integer_digits(b),
    ensures
        digits_value(a) * pow10(b.scale) < digits_value(b) * pow10(a.scale),
{
    let la = a.digits.len();
    let lb = b.digits.len();
    lemma_padded_bounds(a.digits, 0, la as int);
    lemma_leading_digit(b.digits);
    let va = digits_value(a);
    let vb = digits_value(b);
    lemma_pow10_positive(b.scale);
    lemma_pow10_positive(a.scale);
    lemma_pow10_adds(la, b.scale);
    lemma_pow10_adds((lb - 1) as nat, a.scale);
    lemma_pow10_monotone(la + b.scale, ((lb - 1) as nat + a.scale) as nat);
    let pa = pow10(la);
    let pb1 = pow10((lb - 1) as nat);
    let sa = pow10(a.scale);
    let sb = pow10(b.scale);
    assert(va * sb < pa * sb) by (nonlinear_arith)
        requires
            va < pa,
            sb >= 1,
    ;
    assert(pb1 * sa <= vb * sa) by (nonlinear_arith)
        requires
            pb1 <= vb,
            sa >= 1,
    ;
}

proof fn lemma_magnitude_value(l: SpecDecimal, r: SpecDecimal)
    requires
        canonical_decimal(l),
        canonical_decimal(r),
    ensures
        compare_magnitude(l, r) == sign_of(digits_value(l) * pow10(r.scale) - digits_value(r) * pow10(l.scale)),
{
    let vl = digits_value(l);
    let vr = digits_value(r);
    let sl = pow10(l.scale);
    let sr = pow10(r.scale);
    lemma_pow10_positive(l.scale);
    lemma_pow10_positive(r.scale);
    assert(padded_value(seq![0x30u8], 0, 1) == 0) by {
        assert(padded_value(seq![0x30u8], 1, 1) == 0);
    }
    if !is_zero(l) {
        lemma_leading_digit(l.digits);
        lemma_pow10_positive((l.digits.len() - 1) as nat);
    }
    if !is_zero(r) {
        lemma_leading_digit(r.digits);
        lemma_pow10_positive((r.digits.len() - 1) as nat);
    }
    if is_zero(l) || is_zero(r) {
        assert(vl >= 0 && vr >= 0);
        assert(is_zero(l) ==> vl == 0);
        assert(is_zero(r) ==> vr == 0);
        assert(vl > 0 ==> vl * sr > 0) by (nonlinear_arith)
            requires
                sr >= 1,
        ;
        assert(vr > 0 ==> vr * sl > 0) by (nonlinear_arith)
            requires
                sl >= 1,
        ;
        assert(vl == 0 ==> vl * sr == 0) by (nonlinear_arith);
        assert(vr == 0 ==> vr * sl == 0) by (nonlinear_arith);
    } else if integer_digits(l) < integer_digits(r) {
        lemma_fewer_integer_digits(l, r);
    } else if integer_digits(l) > integer_digits(r) {
        lemma_fewer_integer_digits(r, l);
    } else {
        let n = longest(l.digits, r.digits);
        let ll = l.digits.len() as int;
        let lr = r.digits.len() as int;
        lemma_padded_order(l.digits, r.digits, 0);
        lemma_padded_scale(l.digits, n);
        lemma_padded_scale(r.digits, n);
        let e = (l.scale + lr - n) as nat;
        assert(l.scale + lr - n >= 0);
        lemma_pow10_positive(e);
        lemma_pow10_adds((n - ll) as nat, e);
        lemma_pow10_adds((n - lr) as nat, e);
        assert(((n - ll) as nat + e) as nat == r.scale);
        assert(((n - lr) as nat + e) as nat == l.scale);
        let f = pow10(e);
        let pl = pow10((n - ll) as nat);
        let pr = pow10((n - lr) as nat);
        assert(vl * (pl * f) - vr * (pr * f) == (vl * pl - vr * pr) * f) by (nonlinear_arith);
        let x = vl * pl - vr * pr;
        assert(sign_of(x * f) == sign_of(x)) by (nonlinear_arith)
            requires
                f >= 1,
        ;
    }
}

/// Comparing decimals agrees with their values: for decimals as parsing gives them, whose
/// values are `signed_value(l) / 10^l.scale` and `signed_value(r) / 10^r.scale`,
/// `compare_decimal` is the sign of the difference of those values (cross-multiplied).
pub proof fn law_decimal_compare_by_value(l: SpecDecimal, r: SpecDecimal)
    requires
        canonical_decimal(l),
        canonical_decimal(r),
    ensures
        compare_decimal(l, r) == sign_of(signed_value(l) * pow10(r.scale) - signed_value(r) * pow10(l.scale)),
{
    lemma_magnitude_value(l, r);
    let vl = digits_value(l);
    let vr = digits_value(r);
    let sl = pow10(l.scale);
    let sr = pow10(r.scale);
    lemma_pow10_positive(l.scale);
    lemma_pow10_positive(r.scale);
    lemma_padded_bounds(l.digits, 0, l.digits.len() as int);
    lemma_padded_bounds(r.digits, 0, r.digits.len() as int);
    if !is_zero(l) {
        lemma_leading_digit(l.digits);
        lemma_pow10_positive((l.digits.len() - 1) as nat);
    }
    if !is_zero(r) {
        lemma_leading_digit(r.digits);
        lemma_pow10_positive((r.digits.len() - 1) as nat);
    }
    assert((-vl) * sr == -(vl * sr)) by (nonlinear_arith);
    assert((-vr) * sl == -(vr * sl)) by (nonlinear_arith);
    assert(vl > 0 ==> vl * sr > 0) by (nonlinear_arith)
        requires
            sr >= 1,
    ;
    assert(vr > 0 ==> vr * sl > 0) by (nonlinear_arith)
        requires
            sl >= 1,
    ;
    assert(vl >= 0 ==> vl * sr >= 0) by (nonlinear_arith)
        requires
            sr >= 1,
    ;
    assert(vr >= 0 ==> vr * sl >= 0) by (nonlinear_arith)
        requires
            sl >= 1,
    ;
}

} // verus!
