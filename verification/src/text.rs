//! Text as sequences of characters: classes of characters, runs of a class at
//! either end of a text, trimming, splitting at commas, and suffixes.
//!
//! Executable code works on a `Vec<char>` and a range of positions in it, so
//! that a part of a text is named without copying it.

use vstd::prelude::*;
use vstd::std_specs::iter::IteratorSpec;

verus! {

/// `String::push` appends one character.
pub assume_specification[ String::push ](s: &mut String, ch: char)
    ensures
        final(s)@ == old(s)@.push(ch),
;

/// The text `text` as `Debug` writes a `str`: between double quotes, with
/// escapes for the characters that need one.
pub uninterp spec fn quoted(text: Seq<char>) -> Seq<char>;

/// `format!` with `{:?}` on a `str`: the result is `quoted` of the text.
#[verifier::external_body]
pub(crate) fn quote(s: &str) -> (text: String)
    ensures
        text@ == quoted(s@),
{
    format!("{:?}", s)
}

/// A class of characters.
#[derive(Clone, Copy, Debug, PartialEq, Eq, Structural)]
pub enum CharClass {
    /// `[` and `]`.
    Bracket,
    /// The characters with the Unicode property White_Space.
    Space,
    /// The ten ASCII digits.
    Digit,
    /// Every character but the comma.
    NotComma,
}

/// Whether `c` is an opening or a closing square bracket.
pub open spec fn is_bracket(c: char) -> bool {
    c == '[' || c == ']'
}

/// Whether `c` has the Unicode property White_Space.
pub open spec fn is_space(c: char) -> bool {
    let n = c as u32;
    ||| 0x09 <= n <= 0x0D
    ||| n == 0x20
    ||| n == 0x85
    ||| n == 0xA0
    ||| n == 0x1680
    ||| 0x2000 <= n <= 0x200A
    ||| n == 0x2028
    ||| n == 0x2029
    ||| n == 0x202F
    ||| n == 0x205F
    ||| n == 0x3000
}

/// Whether `c` is one of `0` to `9`.
pub open spec fn is_digit(c: char) -> bool {
    '0' <= c <= '9'
}

impl CharClass {
    /// Whether `c` belongs to the class.
    pub open spec fn has(self, c: char) -> bool {
        match self {
            CharClass::Bracket => is_bracket(c),
            CharClass::Space => is_space(c),
            CharClass::Digit => is_digit(c),
            CharClass::NotComma => c != ',',
        }
    }

    /// Tests whether `c` belongs to the class.
    pub fn contains(self, c: char) -> (b: bool)
        ensures
            b == self.has(c),
    {
        match self {
            CharClass::Bracket => c == '[' || c == ']',
            CharClass::Space => {
                let n: u32 = c as u32;
                (0x09 <= n && n <= 0x0D) || n == 0x20 || n == 0x85 || n == 0xA0 || n == 0x1680
                    || (0x2000 <= n && n <= 0x200A) || n == 0x2028 || n == 0x2029 || n == 0x202F
                    || n == 0x205F || n == 0x3000
            },
            CharClass::Digit => '0' <= c && c <= '9',
            CharClass::NotComma => c != ',',
        }
    }
}

/// How many characters at the start of `s` belong to `class`, counted up to
/// the first that does not.
pub open spec fn lead(s: Seq<char>, class: CharClass) -> nat
    decreases s.len(),
{
    if s.len() > 0 && class.has(s[0]) {
        1 + lead(s.drop_first(), class)
    } else {
        0
    }
}

/// How many characters at the end of `s` belong to `class`, counted back to
/// the last that does not.
pub open spec fn trail(s: Seq<char>, class: CharClass) -> nat
    decreases s.len(),
{
    if s.len() > 0 && class.has(s.last()) {
        1 + trail(s.drop_last(), class)
    } else {
        0
    }
}

/// `s` without the characters of `class` at its start.
pub open spec fn trimmed_start(s: Seq<char>, class: CharClass) -> Seq<char> {
    s.skip(lead(s, class) as int)
}

/// `s` without the characters of `class` at its start and at its end.
pub open spec fn trimmed(s: Seq<char>, class: CharClass) -> Seq<char> {
    let t = trimmed_start(s, class);
    t.take(t.len() - trail(t, class))
}

/// The pieces of `s` between its commas, in order. A text without a comma is
/// one piece, the empty text too; a comma at either end borders an empty piece.
pub open spec fn split_commas(s: Seq<char>) -> Seq<Seq<char>>
    decreases s.len(),
{
    let end = lead(s, CharClass::NotComma) as int;
    if end < s.len() {
        seq![s.take(end)] + split_commas(s.skip(end + 1))
    } else {
        seq![s]
    }
}

/// `lead` is the one position up to which all characters belong to the class
/// and at which the text ends or a character outside the class stands.
pub proof fn lemma_lead_unique(s: Seq<char>, class: CharClass, k: int)
    requires
        0 <= k <= s.len(),
        forall|i: int| 0 <= i < k ==> class.has(#[trigger] s[i]),
        k < s.len() ==> !class.has(s[k]),
    ensures
        lead(s, class) == k,
    decreases k,
{
    if k > 0 {
        let t = s.drop_first();
        assert(class.has(s[0]));
        assert forall|i: int| 0 <= i < k - 1 implies class.has(#[trigger] t[i]) by {
            assert(t[i] == s[i + 1]);
        }
        lemma_lead_unique(t, class, k - 1);
    }
}

/// What `lead` counts: a run of the class that cannot be made longer.
pub proof fn lemma_lead_run(s: Seq<char>, class: CharClass)
    ensures
        lead(s, class) <= s.len(),
        forall|i: int| 0 <= i < lead(s, class) ==> class.has(#[trigger] s[i]),
        lead(s, class) < s.len() ==> !class.has(s[lead(s, class) as int]),
    decreases s.len(),
{
    if s.len() > 0 && class.has(s[0]) {
        let t = s.drop_first();
        lemma_lead_run(t, class);
        assert forall|i: int| 0 <= i < lead(s, class) implies class.has(#[trigger] s[i]) by {
            if i > 0 {
                assert(s[i] == t[i - 1]);
            }
        }
        if lead(s, class) < s.len() {
            assert(s[lead(s, class) as int] == t[lead(t, class) as int]);
        }
    }
}

/// `trail` is the one length of a run of the class at the end of the text
/// before which the text starts or a character outside the class stands.
pub proof fn lemma_trail_unique(s: Seq<char>, class: CharClass, k: int)
    requires
        0 <= k <= s.len(),
        forall|i: int| s.len() - k <= i < s.len() ==> class.has(#[trigger] s[i]),
        k < s.len() ==> !class.has(s[s.len() - k - 1]),
    ensures
        trail(s, class) == k,
    decreases k,
{
    if k > 0 {
        let t = s.drop_last();
        assert(class.has(s[s.len() - 1]));
        assert forall|i: int| t.len() - (k - 1) <= i < t.len() implies class.has(
            #[trigger] t[i],
        ) by {
            assert(t[i] == s[i]);
        }
        lemma_trail_unique(t, class, k - 1);
    }
}

/// The characters of `s`, in order.
pub(crate) fn chars_of(s: &str) -> (chars: Vec<char>)
    ensures
        chars@ == s@,
{
    broadcast use vstd::string::group_string_axioms;

    let mut chars: Vec<char> = Vec::new();
    let mut it = s.chars();
    loop
        invariant
            chars@ + it.remaining() == s@,
            it.obeys_prophetic_iter_laws(),
            it.decrease() is Some,
        decreases it.decrease()->0,
    {
        match it.next() {
            Some(c) => {
                chars.push(c);
            },
            None => {
                return chars;
            },
        }
    }
}

/// The text made of `chars[lo..hi]`.
pub(crate) fn text_of(chars: &Vec<char>, lo: usize, hi: usize) -> (text: String)
    requires
        lo <= hi <= chars.len(),
    ensures
        text@ == chars@.subrange(lo as int, hi as int),
{
    let mut text = String::new();
    let mut i: usize = lo;
    while i < hi
        invariant
            lo <= i <= hi <= chars.len(),
            text@ == chars@.subrange(lo as int, i as int),
        decreases hi - i,
    {
        text.push(chars[i]);
        i += 1;
    }
    text
}

/// The position after the run of `class` that starts `chars[lo..hi]`.
pub(crate) fn skip_leading(chars: &Vec<char>, lo: usize, hi: usize, class: CharClass) -> (mid: usize)
    requires
        lo <= hi <= chars.len(),
    ensures
        lo <= mid <= hi,
        mid == lo + lead(chars@.subrange(lo as int, hi as int), class),
{
    let ghost s = chars@.subrange(lo as int, hi as int);
    let mut mid: usize = lo;
    while mid < hi && class.contains(chars[mid])
        invariant
            lo <= mid <= hi <= chars.len(),
            s == chars@.subrange(lo as int, hi as int),
            forall|i: int| 0 <= i < mid - lo ==> class.has(#[trigger] s[i]),
        decreases hi - mid,
    {
        mid += 1;
    }
    proof {
        lemma_lead_unique(s, class, mid - lo);
    }
    mid
}

/// The position at which the run of `class` that ends `chars[lo..hi]` starts.
pub(crate) fn skip_trailing(chars: &Vec<char>, lo: usize, hi: usize, class: CharClass) -> (mid: usize)
    requires
        lo <= hi <= chars.len(),
    ensures
        lo <= mid <= hi,
        mid == hi - trail(chars@.subrange(lo as int, hi as int), class),
{
    let ghost s = chars@.subrange(lo as int, hi as int);
    let mut mid: usize = hi;
    while mid > lo && class.contains(chars[mid - 1])
        invariant
            lo <= mid <= hi <= chars.len(),
            s == chars@.subrange(lo as int, hi as int),
            forall|i: int| mid - lo <= i < s.len() ==> class.has(#[trigger] s[i]),
        decreases mid - lo,
    {
        mid -= 1;
    }
    proof {
        lemma_trail_unique(s, class, hi - mid);
    }
    mid
}

/// The range left of `chars[lo..hi]` when the characters of `class` at both
/// of its ends are taken away.
pub(crate) fn trim_range(chars: &Vec<char>, lo: usize, hi: usize, class: CharClass) -> (range: (
    usize,
    usize,
))
    requires
        lo <= hi <= chars.len(),
    ensures
        lo <= range.0 <= range.1 <= hi,
        chars@.subrange(range.0 as int, range.1 as int) == trimmed(
            chars@.subrange(lo as int, hi as int),
            class,
        ),
{
    let start = skip_leading(chars, lo, hi, class);
    let end = skip_trailing(chars, start, hi, class);
    proof {
        let s = chars@.subrange(lo as int, hi as int);
        assert(trimmed_start(s, class) == chars@.subrange(start as int, hi as int));
    }
    (start, end)
}

/// Whether `text` ends with `suffix`.
pub(crate) fn ends_with(text: &Vec<char>, suffix: &Vec<char>) -> (b: bool)
    ensures
        b == suffix@.is_suffix_of(text@),
{
    if suffix.len() > text.len() {
        return false;
    }
    let offset: usize = text.len() - suffix.len();
    let ghost tail = text@.subrange(offset as int, text.len() as int);
    let mut i: usize = 0;
    while i < suffix.len()
        invariant
            i <= suffix.len() <= text.len(),
            offset == text.len() - suffix.len(),
            tail == text@.subrange(offset as int, text.len() as int),
            forall|j: int| 0 <= j < i ==> suffix@[j] == #[trigger] tail[j],
        decreases suffix.len() - i,
    {
        if suffix[i] != text[offset + i] {
            return false;
        }
        i += 1;
    }
    true
}

} // verus!
