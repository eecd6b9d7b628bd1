//! Numbers as they are written in a cell: decimal integers that fit 32 bits,
//! and floating-point literals.
//!
//! An integer is an optional sign and one or more digits; it is written with
//! `-` before a negative number and without leading zeros. A floating-point
//! literal is an optional sign and then `inf`, `infinity` or `nan` in any
//! case, or digits with an optional point and an optional exponent, at least
//! one digit before or after the point. Nothing else may stand in the text,
//! white space included.

use crate::text::{chars_of, is_digit, lead, lemma_lead_run, skip_leading, text_of, CharClass};
use vstd::prelude::*;

verus! {

/// Whether every character of `s` is a digit.
pub open spec fn all_digits(s: Seq<char>) -> bool {
    forall|i: int| 0 <= i < s.len() ==> is_digit(#[trigger] s[i])
}

/// Whether `s` is one or more digits.
pub open spec fn is_digits(s: Seq<char>) -> bool {
    s.len() > 0 && all_digits(s)
}

/// Whether `s` starts with `+` or `-`.
pub open spec fn has_sign(s: Seq<char>) -> bool {
    s.len() > 0 && (s[0] == '+' || s[0] == '-')
}

/// `s` without its sign, if it has one.
pub open spec fn unsigned(s: Seq<char>) -> Seq<char> {
    if has_sign(s) {
        s.drop_first()
    } else {
        s
    }
}

/// The number that the digit `c` stands for.
pub open spec fn digit_value(c: char) -> int {
    c as u32 - '0' as u32
}

/// The number that the digits `s` write in base ten; 0 for the empty text.
pub open spec fn decimal_value(s: Seq<char>) -> int
    decreases s.len(),
{
    if s.len() == 0 {
        0
    } else {
        10 * decimal_value(s.drop_last()) + digit_value(s.last())
    }
}

/// Whether `s` writes an integer: an optional sign, then one or more digits.
pub open spec fn is_integer(s: Seq<char>) -> bool {
    is_digits(unsigned(s))
}

/// The integer that `s` writes, where `is_integer(s)`.
pub open spec fn integer_value(s: Seq<char>) -> int {
    if s.len() > 0 && s[0] == '-' {
        -decimal_value(unsigned(s))
    } else {
        decimal_value(unsigned(s))
    }
}

/// The 32-bit integer that `s` writes, if it writes an integer and that
/// integer fits.
pub open spec fn i32_of(s: Seq<char>) -> Option<i32> {
    if is_integer(s) && i32::MIN <= integer_value(s) <= i32::MAX {
        Some(integer_value(s) as i32)
    } else {
        None
    }
}

/// The character that writes the digit `d`.
pub open spec fn digit_char(d: int) -> char {
    if d == 0 {
        '0'
    } else if d == 1 {
        '1'
    } else if d == 2 {
        '2'
    } else if d == 3 {
        '3'
    } else if d == 4 {
        '4'
    } else if d == 5 {
        '5'
    } else if d == 6 {
        '6'
    } else if d == 7 {
        '7'
    } else if d == 8 {
        '8'
    } else {
        '9'
    }
}

/// The digits that write `n` in base ten, without leading zeros.
pub open spec fn digits_of(n: nat) -> Seq<char>
    decreases n,
{
    if n < 10 {
        seq![digit_char(n as int)]
    } else {
        digits_of(n / 10).push(digit_char((n % 10) as int))
    }
}

/// The text that writes `v` in base ten, with `-` before a negative number.
pub open spec fn integer_text(v: int) -> Seq<char> {
    if v < 0 {
        seq!['-'] + digits_of((-v) as nat)
    } else {
        digits_of(v as nat)
    }
}

/// Whether `c` is the lower-case letter `letter` or its upper-case form.
pub open spec fn folds_to(c: char, letter: char) -> bool {
    c == letter || c as u32 + 32 == letter as u32
}

/// Whether `s` spells the lower-case word `word`, in any case.
pub open spec fn spells(s: Seq<char>, word: Seq<char>) -> bool {
    s.len() == word.len() && forall|i: int|
        0 <= i < s.len() ==> folds_to(#[trigger] s[i], word[i])
}

/// Whether `s` is `inf`, `infinity` or `nan`, in any case.
pub open spec fn is_special(s: Seq<char>) -> bool {
    ||| spells(s, seq!['i', 'n', 'f'])
    ||| spells(s, seq!['i', 'n', 'f', 'i', 'n', 'i', 't', 'y'])
    ||| spells(s, seq!['n', 'a', 'n'])
}

/// Whether `s` is an exponent: `e` or `E`, an optional sign, one or more digits.
pub open spec fn is_exponent(s: Seq<char>) -> bool {
    &&& s.len() > 0
    &&& (s[0] == 'e' || s[0] == 'E')
    &&& is_digits(unsigned(s.drop_first()))
}

/// Whether `s` is empty or an exponent.
pub open spec fn is_optional_exponent(s: Seq<char>) -> bool {
    s.len() == 0 || is_exponent(s)
}

/// Whether `s` is an unsigned decimal number: digits, an optional point with
/// more digits, at least one digit in all, and an optional exponent.
pub open spec fn is_number(s: Seq<char>) -> bool {
    let whole = lead(s, CharClass::Digit) as int;
    let rest = s.skip(whole);
    if rest.len() > 0 && rest[0] == '.' {
        let after = rest.drop_first();
        let fraction = lead(after, CharClass::Digit) as int;
        whole + fraction > 0 && is_optional_exponent(after.skip(fraction))
    } else {
        whole > 0 && is_optional_exponent(rest)
    }
}

/// Whether `s` is a floating-point literal.
pub open spec fn is_float_literal(s: Seq<char>) -> bool {
    is_special(unsigned(s)) || is_number(unsigned(s))
}

/// The value of digits is no less than the value of any of their prefixes.
pub proof fn lemma_decimal_value_grows(s: Seq<char>, k: int)
    requires
        all_digits(s),
        0 <= k <= s.len(),
    ensures
        0 <= decimal_value(s.take(k)) <= decimal_value(s),
    decreases s.len() - k,
{
    if k == s.len() {
        assert(s.take(k) == s);
        lemma_decimal_value_nonnegative(s);
    } else {
        let t = s.drop_last();
        assert(t.take(k) == s.take(k));
        assert(all_digits(t)) by {
            assert forall|i: int| 0 <= i < t.len() implies is_digit(#[trigger] t[i]) by {
                assert(t[i] == s[i]);
            }
        }
        lemma_decimal_value_grows(t, k);
        assert(is_digit(s[s.len() - 1]));
    }
}

/// The value of digits is not negative.
pub proof fn lemma_decimal_value_nonnegative(s: Seq<char>)
    requires
        all_digits(s),
    ensures
        0 <= decimal_value(s),
    decreases s.len(),
{
    if s.len() > 0 {
        let t = s.drop_last();
        assert forall|i: int| 0 <= i < t.len() implies is_digit(#[trigger] t[i]) by {
            assert(t[i] == s[i]);
        }
        lemma_decimal_value_nonnegative(t);
        assert(is_digit(s[s.len() - 1]));
    }
}

/// Whether `chars[lo..hi]` is one or more digits.
fn digits_at(chars: &Vec<char>, lo: usize, hi: usize) -> (b: bool)
    requires
        lo <= hi <= chars.len(),
    ensures
        b == is_digits(chars@.subrange(lo as int, hi as int)),
{
    let end = skip_leading(chars, lo, hi, CharClass::Digit);
    proof {
        lemma_lead_run(chars@.subrange(lo as int, hi as int), CharClass::Digit);
    }
    lo < hi && end == hi
}

/// The position after the sign of `chars[lo..hi]`, or `lo` if it has none.
fn skip_sign(chars: &Vec<char>, lo: usize, hi: usize) -> (start: usize)
    requires
        lo <= hi <= chars.len(),
    ensures
        lo <= start <= hi,
        chars@.subrange(start as int, hi as int) == unsigned(chars@.subrange(lo as int, hi as int)),
        start == lo + 1 <==> has_sign(chars@.subrange(lo as int, hi as int)),
{
    if lo < hi && (chars[lo] == '+' || chars[lo] == '-') {
        lo + 1
    } else {
        lo
    }
}

/// Reads `chars[lo..hi]` as a 32-bit integer.
pub(crate) fn read_i32(chars: &Vec<char>, lo: usize, hi: usize) -> (r: Option<i32>)
    requires
        lo <= hi <= chars.len(),
    ensures
        r == i32_of(chars@.subrange(lo as int, hi as int)),
{
    let ghost s = chars@.subrange(lo as int, hi as int);
    let start = skip_sign(chars, lo, hi);
    let ghost body = chars@.subrange(start as int, hi as int);
    if !digits_at(chars, start, hi) {
        return None;
    }
    let negative = chars[lo] == '-';
    let limit: i64 = 2147483648;
    let mut total: i64 = 0;
    let mut i: usize = start;
    while i < hi
        invariant
            start <= i <= hi <= chars.len(),
            lo <= start,
            s == chars@.subrange(lo as int, hi as int),
            body == chars@.subrange(start as int, hi as int),
            body == unsigned(s),
            all_digits(body),
            total == decimal_value(body.take(i - start)),
            0 <= total <= limit,
            limit == 2147483648,
        decreases hi - i,
    {
        let c = chars[i];
        proof {
            assert(body[i - start] == c);
            assert(body.take(i - start + 1).drop_last() == body.take(i - start));
        }
        let d: i64 = (c as u32 - '0' as u32) as i64;
        total = total * 10 + d;
        if total > limit {
            proof {
                lemma_decimal_value_grows(body, i - start + 1);
            }
            return None;
        }
        i += 1;
    }
    proof {
        assert(body.take(hi - start) == body);
    }
    if negative {
        Some((-total) as i32)
    } else if total < limit {
        Some(total as i32)
    } else {
        None
    }
}

/// Reads `s` as a 32-bit integer: an optional sign, then one or more digits,
/// and a value that fits.
pub fn parse_i32(s: &str) -> (r: Option<i32>)
    ensures
        r == i32_of(s@),
{
    let chars = chars_of(s);
    proof {
        assert(chars@.subrange(0, chars.len() as int) == chars@);
    }
    read_i32(&chars, 0, chars.len())
}

/// The digits that write a number are digits, and their value is the number.
pub proof fn lemma_digits_value(n: nat)
    ensures
        digits_of(n).len() > 0,
        all_digits(digits_of(n)),
        decimal_value(digits_of(n)) == n,
    decreases n,
{
    let text = digits_of(n);
    if n < 10 {
        assert(text.drop_last() =~= Seq::<char>::empty());
        assert(decimal_value(text.drop_last()) == 0);
        assert(digit_value(text.last()) == n);
    } else {
        let front = digits_of(n / 10);
        let c = digit_char((n % 10) as int);
        lemma_digits_value(n / 10);
        assert(text.drop_last() =~= front);
        assert(text.last() == c);
        assert(digit_value(c) == n % 10);
        assert forall|i: int| 0 <= i < text.len() implies is_digit(#[trigger] text[i]) by {
            if i < front.len() {
                assert(text[i] == front[i]);
            }
        }
    }
}

/// An integer that is written and read again is the same integer.
pub proof fn lemma_integer_text_reads_back(v: i32)
    ensures
        i32_of(integer_text(v as int)) == Some(v),
{
    let text = integer_text(v as int);
    if v < 0 {
        let digits = digits_of((-v) as nat);
        lemma_digits_value((-v) as nat);
        assert(text[0] == '-');
        assert(unsigned(text) =~= digits);
    } else {
        lemma_digits_value(v as nat);
        assert(is_digit(text[0]));
        assert(unsigned(text) == text);
    }
}

/// The character that writes the digit `d`.
fn digit(d: u64) -> (c: char)
    requires
        d < 10,
    ensures
        c == digit_char(d as int),
{
    if d == 0 {
        '0'
    } else if d == 1 {
        '1'
    } else if d == 2 {
        '2'
    } else if d == 3 {
        '3'
    } else if d == 4 {
        '4'
    } else if d == 5 {
        '5'
    } else if d == 6 {
        '6'
    } else if d == 7 {
        '7'
    } else if d == 8 {
        '8'
    } else {
        '9'
    }
}

/// Appends the digits of `n` to `text`.
pub(crate) fn push_digits(text: &mut String, n: u64)
    ensures
        final(text)@ == old(text)@ + digits_of(n as nat),
{
    let mut low: Vec<char> = Vec::new();
    let mut rest: u64 = n;
    while rest >= 10
        invariant
            digits_of(n as nat) == digits_of(rest as nat) + low@.reverse(),
        decreases rest,
    {
        let c = digit(rest % 10);
        proof {
            let grown = low@.push(c);
            assert(grown.reverse() =~= seq![c] + low@.reverse());
            assert(digits_of(rest as nat) == digits_of((rest / 10) as nat).push(c));
            assert(digits_of((rest / 10) as nat).push(c) + low@.reverse() =~= digits_of(
                (rest / 10) as nat,
            ) + grown.reverse());
        }
        low.push(c);
        rest = rest / 10;
    }
    let ghost start = text@;
    text.push(digit(rest));
    let mut i: usize = low.len();
    while i > 0
        invariant
            i <= low.len(),
            text@ == start + digits_of(rest as nat) + low@.reverse().take(low.len() - i),
            rest < 10,
        decreases i,
    {
        i -= 1;
        proof {
            let reversed = low@.reverse();
            let k = low.len() - i - 1;
            assert(reversed[k] == low@[i as int]);
            assert(reversed.take(k + 1) =~= reversed.take(k).push(low@[i as int]));
        }
        text.push(low[i]);
    }
    proof {
        assert(low@.reverse().take(low.len() as int) =~= low@.reverse());
        assert(start + digits_of(rest as nat) + low@.reverse() =~= start + (digits_of(rest as nat)
            + low@.reverse()));
    }
}

/// Appends the text of `v` to `text`.
pub(crate) fn push_integer(text: &mut String, v: i32)
    ensures
        final(text)@ == old(text)@ + integer_text(v as int),
{
    let ghost start = text@;
    if v < 0 {
        text.push('-');
        push_digits(text, (-(v as i64)) as u64);
        proof {
            assert(start.push('-') + digits_of((-v) as nat) =~= start + (seq!['-'] + digits_of(
                (-v) as nat,
            )));
        }
    } else {
        push_digits(text, v as u64);
    }
}

/// Whether `chars[lo..hi]` spells the lower-case word `word`, in any case.
fn spells_at(chars: &Vec<char>, lo: usize, hi: usize, word: &Vec<char>) -> (b: bool)
    requires
        lo <= hi <= chars.len(),
    ensures
        b == spells(chars@.subrange(lo as int, hi as int), word@),
{
    let ghost s = chars@.subrange(lo as int, hi as int);
    if hi - lo != word.len() {
        return false;
    }
    let mut i: usize = 0;
    while i < word.len()
        invariant
            lo <= hi <= chars.len(),
            i <= word.len() == hi - lo,
            s == chars@.subrange(lo as int, hi as int),
            forall|j: int| 0 <= j < i ==> folds_to(#[trigger] s[j], word@[j]),
        decreases word.len() - i,
    {
        let c = chars[lo + i];
        let w = word[i];
        proof {
            assert(s[i as int] == c);
        }
        let letter: u32 = w as u32;
        if !(c == w || (letter >= 32 && c as u32 == letter - 32)) {
            return false;
        }
        i += 1;
    }
    true
}

/// Whether `chars[lo..hi]` is empty or an exponent.
fn optional_exponent_at(chars: &Vec<char>, lo: usize, hi: usize) -> (b: bool)
    requires
        lo <= hi <= chars.len(),
    ensures
        b == is_optional_exponent(chars@.subrange(lo as int, hi as int)),
{
    let ghost s = chars@.subrange(lo as int, hi as int);
    if lo == hi {
        return true;
    }
    proof {
        assert(s.drop_first() == chars@.subrange(lo + 1, hi as int));
    }
    if chars[lo] != 'e' && chars[lo] != 'E' {
        return false;
    }
    let start = skip_sign(chars, lo + 1, hi);
    digits_at(chars, start, hi)
}

/// Whether `chars[lo..hi]` is an unsigned decimal number.
fn number_at(chars: &Vec<char>, lo: usize, hi: usize) -> (b: bool)
    requires
        lo <= hi <= chars.len(),
    ensures
        b == is_number(chars@.subrange(lo as int, hi as int)),
{
    let ghost s = chars@.subrange(lo as int, hi as int);
    let point = skip_leading(chars, lo, hi, CharClass::Digit);
    let ghost rest = s.skip(point - lo);
    proof {
        assert(rest == chars@.subrange(point as int, hi as int));
    }
    if point < hi && chars[point] == '.' {
        let end = skip_leading(chars, point + 1, hi, CharClass::Digit);
        proof {
            let after = rest.drop_first();
            assert(after == chars@.subrange(point + 1, hi as int));
            assert(after.skip(end - point - 1) == chars@.subrange(end as int, hi as int));
        }
        (point - lo) + (end - point - 1) > 0 && optional_exponent_at(chars, end, hi)
    } else {
        point > lo && optional_exponent_at(chars, point, hi)
    }
}

/// Whether `chars[lo..hi]` is a floating-point literal.
pub(crate) fn float_literal_at(chars: &Vec<char>, lo: usize, hi: usize) -> (b: bool)
    requires
        lo <= hi <= chars.len(),
    ensures
        b == is_float_literal(chars@.subrange(lo as int, hi as int)),
{
    let start = skip_sign(chars, lo, hi);
    let inf: Vec<char> = vec!['i', 'n', 'f'];
    let infinity: Vec<char> = vec!['i', 'n', 'f', 'i', 'n', 'i', 't', 'y'];
    let nan: Vec<char> = vec!['n', 'a', 'n'];
    spells_at(chars, start, hi, &inf) || spells_at(chars, start, hi, &infinity) || spells_at(
        chars,
        start,
        hi,
        &nan,
    ) || number_at(chars, start, hi)
}

/// A floating-point number as it is written: the text of a floating-point
/// literal, kept as it was read. Two literals are equal where their texts are.
#[derive(Debug, PartialEq, Eq)]
pub struct FloatLiteral {
    text: String,
}

impl View for FloatLiteral {
    type V = Seq<char>;

    closed spec fn view(&self) -> Seq<char> {
        self.text@
    }
}

impl Clone for FloatLiteral {
    fn clone(&self) -> (copy: Self)
        ensures
            copy@ == self@,
    {
        proof {
            use_type_invariant(self);
        }
        FloatLiteral { text: self.text.clone() }
    }
}

impl FloatLiteral {
    #[verifier::type_invariant]
    spec fn well_formed(self) -> bool {
        is_float_literal(self.text@)
    }

    /// Reads `s` as a floating-point literal.
    pub fn parse(s: &str) -> (r: Option<FloatLiteral>)
        ensures
            r is Some <==> is_float_literal(s@),
            r matches Some(literal) ==> literal@ == s@,
    {
        let chars = chars_of(s);
        proof {
            assert(chars@.subrange(0, chars.len() as int) == chars@);
        }
        if float_literal_at(&chars, 0, chars.len()) {
            Some(FloatLiteral { text: s.to_owned() })
        } else {
            None
        }
    }

    /// Reads `chars[lo..hi]` as a floating-point literal.
    pub(crate) fn read(chars: &Vec<char>, lo: usize, hi: usize) -> (r: Option<FloatLiteral>)
        requires
            lo <= hi <= chars.len(),
        ensures
            r is Some <==> is_float_literal(chars@.subrange(lo as int, hi as int)),
            r matches Some(literal) ==> literal@ == chars@.subrange(lo as int, hi as int),
    {
        if float_literal_at(chars, lo, hi) {
            Some(FloatLiteral { text: text_of(chars, lo, hi) })
        } else {
            None
        }
    }

    /// The literal's text.
    pub fn as_str(&self) -> (s: &str)
        ensures
            s@ == self@,
            is_float_literal(s@),
    {
        proof {
            use_type_invariant(self);
        }
        self.text.as_str()
    }
}

} // verus!
