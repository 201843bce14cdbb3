//! Strings as sequences of characters: the few operations the protocol needs.

use vstd::prelude::*;
use vstd::utf8::*;

verus! {

/// `String::push` appends one character.
pub assume_specification[ String::push ](text: &mut String, c: char)
    ensures
        final(text)@ == old(text)@.push(c),
;

/// How far bytes are valid UTF-8, and how many bytes make up what is not; the latter is missing
/// where the bytes end in the middle of a character.
#[derive(Clone, Copy, Debug, PartialEq, Eq)]
pub struct Utf8Problem {
    pub valid_up_to: usize,
    pub error_len: Option<usize>,
}

/// The length of the longest valid start of `bytes` that is no longer than `n`.
pub open spec fn longest_valid(bytes: Seq<u8>, n: int) -> int
    decreases n,
{
    if n <= 0 || valid_utf8(bytes.take(n)) {
        n
    } else {
        longest_valid(bytes, n - 1)
    }
}

/// Whether bytes begin the encoding of a character, and end before its end.
pub open spec fn begins_character(bytes: Seq<u8>) -> bool {
    exists|c: char| bytes.len() < #[trigger] encode_utf8(seq![c]).len() && bytes == encode_utf8(
        seq![c],
    ).take(bytes.len() as int)
}

/// The length of the longest start of `bytes`, no longer than `n`, that begins a character.
pub open spec fn longest_beginning(bytes: Seq<u8>, n: int) -> int
    decreases n,
{
    if n <= 0 || begins_character(bytes.take(n)) {
        n
    } else {
        longest_beginning(bytes, n - 1)
    }
}

/// How many of the bytes that follow the longest valid start are invalid: as many as begin a
/// character, but at least one. There is no such number where they begin one to the end.
pub open spec fn invalid_length(rest: Seq<u8>) -> Option<usize> {
    let beginning = longest_beginning(rest, rest.len() as int);
    if begins_character(rest) {
        None
    } else if beginning < 1 {
        Some(1)
    } else {
        Some(beginning as usize)
    }
}

/// Why bytes are not UTF-8.
pub open spec fn utf8_problem(bytes: Seq<u8>) -> Utf8Problem {
    let valid = longest_valid(bytes, bytes.len() as int);
    Utf8Problem { valid_up_to: valid as usize, error_len: invalid_length(bytes.skip(valid)) }
}

/// Decodes `bytes` with `std::str::from_utf8`, which accepts exactly the valid UTF-8 sequences
/// and keeps the characters they encode. Of other bytes its error tells the length of their
/// longest valid start and how many bytes are invalid after it, unless the bytes end in the middle
/// of a character.
#[verifier::external_body]
pub(crate) fn utf8_text(bytes: &[u8]) -> (text: Result<String, Utf8Problem>)
    ensures
        match text {
            Ok(decoded) => valid_utf8(bytes@) && decoded@ == decode_utf8(bytes@),
            Err(problem) => !valid_utf8(bytes@) && problem == utf8_problem(bytes@),
        },
{
    match std::str::from_utf8(bytes) {
        Ok(text) => Ok(text.to_owned()),
        Err(error) => Err(
            Utf8Problem { valid_up_to: error.valid_up_to(), error_len: error.error_len() },
        ),
    }
}

/// What `str::to_lowercase` makes of a text.
pub uninterp spec fn lowercase(text: Seq<char>) -> Seq<char>;

/// Calls `str::to_lowercase`, Unicode's lowercase mapping of a whole text.
#[verifier::external_body]
pub(crate) fn lowercase_text(text: &str) -> (lower: String)
    ensures
        lower@ == lowercase(text@),
{
    text.to_lowercase()
}

/// The characters of `text`, in order.
pub fn characters(text: &str) -> (chars: Vec<char>)
    ensures
        chars@ == text@,
{
    let mut chars: Vec<char> = Vec::new();
    for c in iter: text.chars()
        invariant
            chars@ == text@.take(iter.index()),
            iter.seq() == text@,
    {
        chars.push(c);
        assert(text@.take(iter.index() + 1) == text@.take(iter.index()).push(c));
    }
    assert(text@.take(text@.len() as int) == text@);
    chars
}

/// The string made of the characters of `chars` from `start` up to `end`.
pub fn text_between(chars: &[char], start: usize, end: usize) -> (text: String)
    requires
        start <= end <= chars@.len(),
    ensures
        text@ == chars@.subrange(start as int, end as int),
{
    let mut text = String::new();
    let mut i: usize = start;
    while i < end
        invariant
            start <= i <= end <= chars@.len(),
            text@ == chars@.subrange(start as int, i as int),
        decreases end - i,
    {
        text.push(chars[i]);
        i += 1;
        assert(chars@.subrange(start as int, i as int) == chars@.subrange(
            start as int,
            i - 1,
        ).push(chars@[i - 1]));
    }
    text
}

/// Whether two texts hold the same characters.
pub fn same_text(left: &str, right: &str) -> (same: bool)
    ensures
        same == (left@ == right@),
{
    let left_bytes: &[u8] = left.as_bytes();
    let right_bytes: &[u8] = right.as_bytes();
    if left_bytes.len() != right_bytes.len() {
        return false;
    }
    let mut i: usize = 0;
    while i < left_bytes.len()
        invariant
            i <= left_bytes@.len(),
            left_bytes@.len() == right_bytes@.len(),
            left_bytes@ == encode_utf8(left@),
            right_bytes@ == encode_utf8(right@),
            left_bytes@.take(i as int) == right_bytes@.take(i as int),
        decreases left_bytes@.len() - i,
    {
        if left_bytes[i] != right_bytes[i] {
            return false;
        }
        i += 1;
        assert(left_bytes@.take(i as int) == left_bytes@.take(i - 1).push(left_bytes@[i - 1]));
        assert(right_bytes@.take(i as int) == right_bytes@.take(i - 1).push(right_bytes@[i - 1]));
    }
    proof {
        assert(left_bytes@.take(i as int) == left_bytes@);
        assert(right_bytes@.take(i as int) == right_bytes@);
        encode_utf8_decode_utf8(left@);
        encode_utf8_decode_utf8(right@);
    }
    true
}

/// Unicode's control characters (general category Cc).
pub open spec fn is_control(c: char) -> bool {
    c as u32 <= 0x1f || 0x7f <= c as u32 <= 0x9f
}

/// Whether `text` holds a control character.
pub fn has_control(text: &str) -> (found: bool)
    ensures
        found == exists|i: int| 0 <= i < text@.len() && is_control(#[trigger] text@[i]),
{
    let chars: Vec<char> = characters(text);
    let mut i: usize = 0;
    while i < chars.len()
        invariant
            i <= chars@.len(),
            chars@ == text@,
            forall|j: int| 0 <= j < i ==> !is_control(#[trigger] text@[j]),
        decreases chars@.len() - i,
    {
        let code: u32 = chars[i] as u32;
        if code <= 0x1f || (0x7f <= code && code <= 0x9f) {
            assert(is_control(text@[i as int]));
            return true;
        }
        i += 1;
    }
    false
}

/// Whether `text` holds the character `c`.
pub fn has_char(text: &str, c: char) -> (found: bool)
    ensures
        found == text@.contains(c),
{
    let chars: Vec<char> = characters(text);
    match find_char(&chars, c) {
        Some(_) => true,
        None => false,
    }
}

/// The first position of `c` in `chars`.
pub fn find_char(chars: &[char], c: char) -> (found: Option<usize>)
    ensures
        found is Some == chars@.contains(c),
        found matches Some(i) ==> chars@.index_of_first(c) == Some(i as int),
        found is None ==> chars@.index_of_first(c) is None,
        found matches Some(i) ==> i < chars@.len() && chars@[i as int] == c,
{
    let mut i: usize = 0;
    while i < chars.len()
        invariant
            i <= chars@.len(),
            forall|j: int| 0 <= j < i ==> chars@[j] != c,
        decreases chars@.len() - i,
    {
        if chars[i] == c {
            proof {
                lemma_first_position(chars@, c, i as int);
            }
            return Some(i);
        }
        i += 1;
    }
    proof {
        chars@.index_of_first_ensures(c);
    }
    None
}

/// A position that holds `c`, with no `c` before it, is the first one.
pub proof fn lemma_first_position(s: Seq<char>, c: char, i: int)
    requires
        0 <= i < s.len(),
        s[i] == c,
        forall|j: int| 0 <= j < i ==> s[j] != c,
    ensures
        s.contains(c),
        s.index_of_first(c) == Some(i),
{
    s.index_of_first_ensures(c);
    let k = s.index_of_first(c)->0;
    assert(s[k] == c);
    if i < k {
        assert(!s.take(k).contains(s[i])) by {
            assert(s[i] == c);
            assert forall|m: int| 0 <= m < k implies s.take(k)[m] != c by {
                assert(s[m] != c);
            }
        }
    }
}

/// Unicode's white space (property White_Space).
pub open spec fn is_white_space(c: char) -> bool {
    let code = c as u32;
    ||| 0x09 <= code <= 0x0d
    ||| code == 0x20
    ||| code == 0x85
    ||| code == 0xa0
    ||| code == 0x1680
    ||| 0x2000 <= code <= 0x200a
    ||| code == 0x2028
    ||| code == 0x2029
    ||| code == 0x202f
    ||| code == 0x205f
    ||| code == 0x3000
}

fn white_space(c: char) -> (white: bool)
    ensures
        white == is_white_space(c),
{
    let code: u32 = c as u32;
    (0x09 <= code && code <= 0x0d) || code == 0x20 || code == 0x85 || code == 0xa0 || code == 0x1680
        || (0x2000 <= code && code <= 0x200a) || code == 0x2028 || code == 0x2029 || code == 0x202f
        || code == 0x205f || code == 0x3000
}

/// `s` without leading white space.
pub open spec fn trim_start(s: Seq<char>) -> Seq<char>
    decreases s.len(),
{
    if s.len() > 0 && is_white_space(s[0]) {
        trim_start(s.skip(1))
    } else {
        s
    }
}

/// `s` without trailing white space.
pub open spec fn trim_end(s: Seq<char>) -> Seq<char>
    decreases s.len(),
{
    if s.len() > 0 && is_white_space(s.last()) {
        trim_end(s.drop_last())
    } else {
        s
    }
}

/// `s` without white space at either end.
pub open spec fn trimmed(s: Seq<char>) -> Seq<char> {
    trim_end(trim_start(s))
}

/// The bounds of the part of `chars` from `start` up to `end` that `trimmed` keeps.
pub fn trim_bounds(chars: &[char], start: usize, end: usize) -> (bounds: (usize, usize))
    requires
        start <= end <= chars@.len(),
    ensures
        start <= bounds.0 <= bounds.1 <= end,
        chars@.subrange(bounds.0 as int, bounds.1 as int) == trimmed(
            chars@.subrange(start as int, end as int),
        ),
{
    let mut from: usize = start;
    let ghost whole = chars@.subrange(start as int, end as int);
    while from < end && white_space(chars[from])
        invariant
            start <= from <= end <= chars@.len(),
            trim_start(whole) == trim_start(chars@.subrange(from as int, end as int)),
        decreases end - from,
    {
        assert(chars@.subrange(from as int, end as int).skip(1) == chars@.subrange(
            from + 1,
            end as int,
        ));
        from += 1;
    }
    let ghost middle = chars@.subrange(from as int, end as int);
    assert(trim_start(whole) == middle);
    let mut to: usize = end;
    while to > from && white_space(chars[to - 1])
        invariant
            from <= to <= end <= chars@.len(),
            trim_end(middle) == trim_end(chars@.subrange(from as int, to as int)),
        decreases to - from,
    {
        assert(chars@.subrange(from as int, to as int).drop_last() == chars@.subrange(
            from as int,
            to - 1,
        ));
        to -= 1;
    }
    (from, to)
}

/// The lowercase letter of an ASCII capital; any other character as it is.
pub open spec fn ascii_lower(c: char) -> char {
    if 'A' <= c <= 'Z' {
        (c as u8 + 32) as char
    } else {
        c
    }
}

/// Equality up to the case of ASCII letters.
pub open spec fn same_ignoring_case(left: Seq<char>, right: Seq<char>) -> bool {
    left.map_values(|c: char| ascii_lower(c)) == right.map_values(|c: char| ascii_lower(c))
}

fn lower(c: char) -> (l: char)
    ensures
        l == ascii_lower(c),
{
    if 'A' <= c && c <= 'Z' {
        (c as u8 + 32) as char
    } else {
        c
    }
}

/// Compares the first `len` characters of `chars` with `word`, ignoring ASCII case.
pub fn starts_with_word(chars: &[char], len: usize, word: &str) -> (same: bool)
    requires
        len <= chars@.len(),
    ensures
        same == same_ignoring_case(chars@.take(len as int), word@),
{
    let word_chars: Vec<char> = characters(word);
    let ghost left = chars@.take(len as int).map_values(|c: char| ascii_lower(c));
    let ghost right = word@.map_values(|c: char| ascii_lower(c));
    if word_chars.len() != len {
        assert(left.len() != right.len());
        return false;
    }
    let mut i: usize = 0;
    while i < len
        invariant
            i <= len <= chars@.len(),
            word_chars@ == word@,
            word@.len() == len,
            left == chars@.take(len as int).map_values(|c: char| ascii_lower(c)),
            right == word@.map_values(|c: char| ascii_lower(c)),
            forall|j: int| 0 <= j < i ==> left[j] == right[j],
        decreases len - i,
    {
        if lower(chars[i]) != lower(word_chars[i]) {
            assert(left[i as int] != right[i as int]);
            return false;
        }
        i += 1;
    }
    assert(left == right);
    true
}

/// The character of a decimal digit.
pub open spec fn digit_char(digit: nat) -> char {
    (48 + digit) as char
}

pub open spec fn is_digit(c: char) -> bool {
    '0' <= c <= '9'
}

/// The value of a decimal digit.
pub open spec fn digit_value(c: char) -> nat {
    (c as int - 48) as nat
}

/// `n` in decimal, without leading zeros.
pub open spec fn decimal(n: nat) -> Seq<char>
    decreases n,
{
    if n < 10 {
        seq![digit_char(n)]
    } else {
        decimal(n / 10).push(digit_char(n % 10))
    }
}

/// The number that a text of decimal digits denotes.
pub open spec fn digits_value(s: Seq<char>) -> nat
    decreases s.len(),
{
    if s.len() == 0 {
        0
    } else {
        digits_value(s.drop_last()) * 10 + digit_value(s.last())
    }
}

pub open spec fn all_digits(s: Seq<char>) -> bool {
    forall|i: int| 0 <= i < s.len() ==> is_digit(#[trigger] s[i])
}

/// The digits that `s` denotes a number by: all of it but a leading `+`.
pub open spec fn unsigned_part(s: Seq<char>) -> Seq<char> {
    if s.len() > 0 && s[0] == '+' {
        s.skip(1)
    } else {
        s
    }
}

/// The unsigned number that `s` denotes: an optional `+`, then one or more decimal digits.
pub open spec fn unsigned_value(s: Seq<char>) -> Option<nat> {
    let digits = unsigned_part(s);
    if digits.len() > 0 && all_digits(digits) {
        Some(digits_value(digits))
    } else {
        None
    }
}

/// Why a text denotes no number that fits.
#[derive(Clone, Copy, Debug, PartialEq, Eq)]
pub enum NumberProblem {
    /// It is empty.
    Empty,
    /// It holds something other than digits, or no digit.
    InvalidDigit,
    /// Its digits exceed what fits.
    TooLarge,
}

/// How many digits `s` begins with.
pub open spec fn leading_digits(s: Seq<char>) -> int
    decreases s.len(),
{
    if s.len() > 0 && is_digit(s[0]) {
        1 + leading_digits(s.skip(1))
    } else {
        0
    }
}

/// Why `s` denotes no number that fits in a `usize`, where it does not. What comes first counts:
/// digits that exceed it, or something else.
pub open spec fn number_problem(s: Seq<char>) -> NumberProblem {
    let digits = unsigned_part(s);
    if s.len() == 0 {
        NumberProblem::Empty
    } else if digits_value(digits.take(leading_digits(digits))) > usize::MAX {
        NumberProblem::TooLarge
    } else {
        NumberProblem::InvalidDigit
    }
}

/// Where the first `k` characters are digits, at least as many lead, and no more where they are all
/// or something else follows.
proof fn lemma_leading_digits(s: Seq<char>, k: int)
    requires
        0 <= k <= s.len(),
        forall|j: int| 0 <= j < k ==> is_digit(#[trigger] s[j]),
    ensures
        k <= leading_digits(s) <= s.len(),
        k == s.len() || !is_digit(s[k]) ==> leading_digits(s) == k,
    decreases s.len(),
{
    if k > 0 {
        assert forall|j: int| 0 <= j < k - 1 implies is_digit(#[trigger] s.skip(1)[j]) by {
            assert(is_digit(s[j + 1]));
        }
        lemma_leading_digits(s.skip(1), k - 1);
    } else if s.len() > 0 && is_digit(s[0]) {
        lemma_leading_digits(s.skip(1), 0);
    }
}

/// Longer digit strings denote no smaller numbers.
proof fn lemma_prefix_value(s: Seq<char>, k: int)
    requires
        0 <= k <= s.len(),
    ensures
        digits_value(s.take(k)) <= digits_value(s),
    decreases s.len() - k,
{
    if k == s.len() {
        assert(s.take(k) == s);
    } else {
        lemma_prefix_value(s, k + 1);
        assert(s.take(k + 1).drop_last() == s.take(k));
    }
}

/// Parses the part of `chars` from `start` up to `end` as `unsigned_value` says, or tells why it
/// denotes no number that fits in a `usize`.
pub fn parse_unsigned(chars: &[char], start: usize, end: usize) -> (number: Result<
    usize,
    NumberProblem,
>)
    requires
        start <= end <= chars@.len(),
    ensures
        ({
            let text = chars@.subrange(start as int, end as int);
            match unsigned_value(text) {
                Some(value) if value <= usize::MAX => number == Ok::<usize, NumberProblem>(
                    value as usize,
                ),
                _ => number == Err::<usize, NumberProblem>(number_problem(text)),
            }
        }),
{
    if start == end {
        return Err(NumberProblem::Empty);
    }
    let ghost whole = chars@.subrange(start as int, end as int);
    let first: usize = if start < end && chars[start] == '+' {
        start + 1
    } else {
        start
    };
    let ghost digits = chars@.subrange(first as int, end as int);
    proof {
        if first > start {
            assert(whole.skip(1) == digits);
        }
    }
    assert(digits =~= unsigned_part(whole));
    if first == end {
        proof {
            lemma_leading_digits(digits, 0);
            assert(digits.take(0) =~= Seq::<char>::empty());
        }
        return Err(NumberProblem::InvalidDigit);
    }
    let mut value: usize = 0;
    let mut i: usize = first;
    while i < end
        invariant
            start <= first <= i <= end <= chars@.len(),
            first < end,
            whole == chars@.subrange(start as int, end as int),
            digits == chars@.subrange(first as int, end as int),
            digits == unsigned_part(whole),
            whole.len() > 0,
            value == digits_value(digits.take(i - first)),
            forall|j: int| 0 <= j < i - first ==> is_digit(#[trigger] digits[j]),
        decreases end - i,
    {
        let c: char = chars[i];
        proof {
            assert(c == digits[i - first]);
            assert(digits.take(i - first + 1).drop_last() == digits.take(i - first));
            if is_digit(c) {
                lemma_prefix_value(digits, i - first + 1);
            }
        }
        if !('0' <= c && c <= '9') {
            assert(!is_digit(digits[i - first]));
            proof {
                lemma_leading_digits(digits, i - first);
            }
            return Err(NumberProblem::InvalidDigit);
        }
        let digit: usize = (c as u32 - 48) as usize;
        if value > usize::MAX / 10 || value * 10 > usize::MAX - digit {
            proof {
                lemma_leading_digits(digits, i - first + 1);
                let leading = digits.take(leading_digits(digits));
                lemma_prefix_value(leading, i - first + 1);
                assert(leading.take(i - first + 1) =~= digits.take(i - first + 1));
            }
            return Err(NumberProblem::TooLarge);
        }
        value = value * 10 + digit;
        i += 1;
    }
    assert(digits.take(end - first) == digits);
    Ok(value)
}

/// Writes `n` in decimal.
pub fn decimal_text(n: u64) -> (text: String)
    ensures
        text@ == decimal(n as nat),
    decreases n,
{
    let digit: char = (48 + (n % 10) as u8) as char;
    let mut text: String = if n < 10 {
        String::new()
    } else {
        decimal_text(n / 10)
    };
    text.push(digit);
    assert(n < 10 ==> text@ == seq![digit_char(n as nat)]);
    text
}

/// Decimal notation is read back as the number it was written for, and holds digits alone.
pub proof fn law_decimal_is_read_back(n: nat)
    ensures
        all_digits(decimal(n)),
        decimal(n).len() > 0,
        digits_value(decimal(n)) == n,
        unsigned_value(decimal(n)) == Some(n),
    decreases n,
{
    reveal_with_fuel(digits_value, 2);
    if n < 10 {
        assert(seq![digit_char(n)].drop_last() == Seq::<char>::empty());
    } else {
        law_decimal_is_read_back(n / 10);
        let shorter = decimal(n / 10);
        assert(shorter.push(digit_char(n % 10)).drop_last() == shorter);
    }
    assert(is_digit(decimal(n)[0]));
}

/// Whether `needle` occurs somewhere in `text`.
pub open spec fn occurs_in(text: Seq<char>, needle: Seq<char>) -> bool {
    exists|i: int| occurs_at(text, needle, i)
}

/// Whether `needle` stands in `text` at position `i`.
pub open spec fn occurs_at(text: Seq<char>, needle: Seq<char>, i: int) -> bool {
    0 <= i && i + needle.len() <= text.len() && text.subrange(i, i + needle.len()) == needle
}

/// Whether `needle` stands in `chars` from `at` on.
pub fn matches_at(chars: &[char], needle: &[char], at: usize) -> (found: bool)
    ensures
        found == occurs_at(chars@, needle@, at as int),
{
    if at > chars.len() || needle.len() > chars.len() - at {
        return false;
    }
    let mut i: usize = 0;
    while i < needle.len()
        invariant
            i <= needle@.len(),
            at + needle@.len() <= chars@.len() <= usize::MAX,
            forall|j: int| 0 <= j < i ==> chars@[at + j] == needle@[j],
        decreases needle@.len() - i,
    {
        if chars[at + i] != needle[i] {
            assert(chars@.subrange(at as int, at + needle@.len())[i as int] != needle@[i as int]);
            return false;
        }
        i += 1;
    }
    assert(chars@.subrange(at as int, at + needle@.len()) == needle@);
    true
}

/// Whether `needle` occurs somewhere in `text`.
pub fn contains_text(text: &str, needle: &str) -> (found: bool)
    ensures
        found == occurs_in(text@, needle@),
{
    let chars: Vec<char> = characters(text);
    let wanted: Vec<char> = characters(needle);
    let mut i: usize = 0;
    while i < chars.len()
        invariant
            i <= chars@.len(),
            chars@ == text@,
            wanted@ == needle@,
            forall|j: int| 0 <= j < i ==> !occurs_at(text@, needle@, j),
        decreases chars@.len() - i,
    {
        if matches_at(&chars, &wanted, i) {
            return true;
        }
        i += 1;
    }
    let found: bool = matches_at(&chars, &wanted, chars.len());
    proof {
        if !found {
            assert forall|j: int| !occurs_at(text@, needle@, j) by {
                if j == chars@.len() {
                }
            }
        }
    }
    found
}

/// Whether `text` begins with `prefix`.
pub open spec fn has_prefix(text: Seq<char>, prefix: Seq<char>) -> bool {
    occurs_at(text, prefix, 0)
}

/// What follows `prefix` in `text`, where `text` begins with it.
pub fn after_prefix(text: &str, prefix: &str) -> (rest: Option<String>)
    ensures
        rest is Some == has_prefix(text@, prefix@),
        rest matches Some(rest) ==> rest@ == text@.skip(prefix@.len() as int),
{
    let chars: Vec<char> = characters(text);
    let start: Vec<char> = characters(prefix);
    if matches_at(&chars, &start, 0) {
        let rest: String = text_between(&chars, start.len(), chars.len());
        assert(rest@ == text@.skip(prefix@.len() as int));
        Some(rest)
    } else {
        None
    }
}

/// The first line of `text`: what precedes the first line feed, without a carriage return right
/// before that line feed; all of `text` where it holds no line feed.
pub open spec fn first_line(text: Seq<char>) -> Seq<char> {
    match text.index_of_first('\n') {
        Some(i) => if i > 0 && text[i - 1] == '\r' {
            text.take(i - 1)
        } else {
            text.take(i)
        },
        None => text,
    }
}

pub fn first_line_text(text: &str) -> (line: String)
    ensures
        line@ == first_line(text@),
{
    let chars: Vec<char> = characters(text);
    let end: usize = match find_char(&chars, '\n') {
        Some(i) => if i > 0 && chars[i - 1] == '\r' {
            i - 1
        } else {
            i
        },
        None => chars.len(),
    };
    let line: String = text_between(&chars, 0, end);
    proof {
        text@.index_of_first_ensures('\n');
        assert(text@.subrange(0, end as int) == text@.take(end as int));
        assert(text@.take(text@.len() as int) == text@);
    }
    line
}

/// A text occurs in another exactly where the other is made of something, the text, and something
/// again.
pub proof fn law_what_occurs_stands_between(text: Seq<char>, needle: Seq<char>)
    ensures
        occurs_in(text, needle) <==> exists|before: Seq<char>, after: Seq<char>|
            text == #[trigger] (before + needle + after),
{
    if occurs_in(text, needle) {
        let i = choose|i: int| occurs_at(text, needle, i);
        let before = text.take(i);
        let after = text.skip(i + needle.len());
        assert(text =~= before + needle + after);
    }
    if exists|before: Seq<char>, after: Seq<char>| text == #[trigger] (before + needle + after) {
        let (before, after) = choose|before: Seq<char>, after: Seq<char>|
            text == #[trigger] (before + needle + after);
        assert(text.subrange(before.len() as int, before.len() as int + needle.len()) =~= needle);
        assert(occurs_at(text, needle, before.len() as int));
    }
}

/// What occurs in a part of a text occurs in the text.
pub proof fn law_occurrence_is_transitive(text: Seq<char>, part: Seq<char>, needle: Seq<char>)
    requires
        occurs_in(text, part),
        occurs_in(part, needle),
    ensures
        occurs_in(text, needle),
{
    let i = choose|i: int| occurs_at(text, part, i);
    let j = choose|j: int| occurs_at(part, needle, j);
    assert(text.subrange(i + j, i + j + needle.len()) =~= needle) by {
        assert(part =~= text.subrange(i, i + part.len()));
        assert(needle =~= part.subrange(j, j + needle.len()));
    }
    assert(occurs_at(text, needle, i + j));
}

/// A text begins with a prefix exactly where it is the prefix and something after it.
pub proof fn law_prefixes_stand_first(text: Seq<char>, prefix: Seq<char>)
    ensures
        has_prefix(text, prefix) <==> exists|rest: Seq<char>| text == #[trigger] (prefix + rest),
        has_prefix(text, prefix) ==> text == prefix + text.skip(prefix.len() as int),
{
    if has_prefix(text, prefix) {
        assert(text =~= prefix + text.skip(prefix.len() as int));
    }
    if exists|rest: Seq<char>| text == #[trigger] (prefix + rest) {
        let rest = choose|rest: Seq<char>| text == #[trigger] (prefix + rest);
        assert(text.subrange(0, prefix.len() as int) =~= prefix);
    }
}

/// The first line of a text holds no line feed. It is all of a text without one; otherwise the text
/// goes on after it with a line feed, or with a carriage return and a line feed, and it is as short
/// as that allows.
pub proof fn law_first_line_ends_at_the_first_line_feed(text: Seq<char>)
    ensures
        ({
            let line = first_line(text);
            let rest = text.skip(line.len() as int);
            &&& !line.contains('\n')
            &&& text == line + rest
            &&& !text.contains('\n') ==> line == text
            &&& text.contains('\n') ==> {
                ||| rest.len() >= 1 && rest[0] == '\n' && (line.len() > 0 ==> line.last() != '\r')
                ||| rest.len() >= 2 && rest[0] == '\r' && rest[1] == '\n'
            }
        }),
{
    text.index_of_first_ensures('\n');
    let line = first_line(text);
    let rest = text.skip(line.len() as int);
    assert(text =~= line + rest);
    assert forall|j: int| 0 <= j < line.len() implies line[j] != '\n' by {
        assert(line[j] == text[j]);
        if text[j] == '\n' {
            assert(text.contains('\n'));
        }
    }
}

/// Trimming takes nothing but white space off both ends of a text, and all of it.
pub proof fn law_trimming_takes_white_space_alone(text: Seq<char>)
    ensures
        exists|before: Seq<char>, after: Seq<char>|
            #![trigger before + trimmed(text) + after]
            {
                &&& text == before + trimmed(text) + after
                &&& forall|i: int| 0 <= i < before.len() ==> is_white_space(#[trigger] before[i])
                &&& forall|i: int| 0 <= i < after.len() ==> is_white_space(#[trigger] after[i])
            },
        trimmed(text).len() > 0 ==> !is_white_space(trimmed(text)[0]) && !is_white_space(
            trimmed(text).last(),
        ),
{
    let k = lemma_trim_start(text);
    let middle = trim_start(text);
    let m = lemma_trim_end(middle);
    let before = text.take(k);
    let after = middle.skip(m);
    assert(text =~= before + trimmed(text) + after);
}

proof fn lemma_trim_start(s: Seq<char>) -> (k: int)
    ensures
        0 <= k <= s.len(),
        trim_start(s) == s.skip(k),
        forall|i: int| 0 <= i < k ==> is_white_space(#[trigger] s[i]),
        k < s.len() ==> !is_white_space(s[k]),
    decreases s.len(),
{
    if s.len() > 0 && is_white_space(s[0]) {
        let rest = s.skip(1);
        let k = lemma_trim_start(rest);
        assert(rest.skip(k) =~= s.skip(k + 1));
        assert forall|i: int| 0 <= i < k + 1 implies is_white_space(#[trigger] s[i]) by {
            if i > 0 {
                assert(rest[i - 1] == s[i]);
            }
        }
        k + 1
    } else {
        assert(s.skip(0) =~= s);
        0
    }
}

proof fn lemma_trim_end(s: Seq<char>) -> (m: int)
    ensures
        0 <= m <= s.len(),
        trim_end(s) == s.take(m),
        forall|i: int| m <= i < s.len() ==> is_white_space(#[trigger] s[i]),
        m > 0 ==> !is_white_space(s[m - 1]),
    decreases s.len(),
{
    if s.len() > 0 && is_white_space(s.last()) {
        let rest = s.drop_last();
        let m = lemma_trim_end(rest);
        assert(rest.take(m) =~= s.take(m));
        assert forall|i: int| m <= i < s.len() implies is_white_space(#[trigger] s[i]) by {
            if i < rest.len() {
                assert(rest[i] == s[i]);
            }
        }
        m
    } else {
        assert(s.take(s.len() as int) =~= s);
        s.len() as int
    }
}

/// Texts are the same but for case exactly where they are as long as each other and at each place
/// hold the same character, or the two cases of an ASCII letter.
pub proof fn law_case_is_that_of_ascii_letters(left: Seq<char>, right: Seq<char>)
    ensures
        same_ignoring_case(left, right) <==> left.len() == right.len() && forall|i: int|
            0 <= i < left.len() ==> {
                ||| #[trigger] left[i] == right[i]
                ||| 'A' <= left[i] <= 'Z' && right[i] as int == left[i] as int + 32
                ||| 'A' <= right[i] <= 'Z' && left[i] as int == right[i] as int + 32
            },
{
    let l = left.map_values(|c: char| ascii_lower(c));
    let r = right.map_values(|c: char| ascii_lower(c));
    if l == r {
        assert(l.len() == left.len() && r.len() == right.len());
        assert forall|i: int| 0 <= i < left.len() implies {
            ||| #[trigger] left[i] == right[i]
            ||| 'A' <= left[i] <= 'Z' && right[i] as int == left[i] as int + 32
            ||| 'A' <= right[i] <= 'Z' && left[i] as int == right[i] as int + 32
        } by {
            assert(l[i] == r[i]);
        }
    }
    if left.len() == right.len() && forall|i: int|
        0 <= i < left.len() ==> {
            ||| #[trigger] left[i] == right[i]
            ||| 'A' <= left[i] <= 'Z' && right[i] as int == left[i] as int + 32
            ||| 'A' <= right[i] <= 'Z' && left[i] as int == right[i] as int + 32
        } {
        assert forall|i: int| 0 <= i < l.len() implies l[i] == r[i] by {
            assert(left[i] == left[i]);
        }
        assert(l =~= r);
    }
}

/// One digit more makes a number ten times as large, and adds the digit.
pub proof fn law_digits_count_in_tens(s: Seq<char>, c: char)
    requires
        unsigned_value(s) is Some,
        '0' <= c <= '9',
    ensures
        unsigned_value(s.push(c)) == Some((unsigned_value(s)->0 * 10 + (c as nat - 48)) as nat),
{
    let more = s.push(c);
    let digits = unsigned_part(s);
    assert(unsigned_part(more) =~= digits.push(c)) by {
        if s[0] == '+' {
            assert(more.skip(1) =~= s.skip(1).push(c));
        }
    }
    assert(digits.push(c).drop_last() =~= digits);
    assert forall|i: int| 0 <= i < digits.push(c).len() implies is_digit(
        #[trigger] digits.push(c)[i],
    ) by {
        if i < digits.len() {
            assert(is_digit(digits[i]));
        }
    }
}

/// A single digit denotes itself, and a leading `+` makes no difference to digits.
pub proof fn law_a_digit_denotes_itself(c: char, s: Seq<char>)
    requires
        '0' <= c <= '9',
        s.len() > 0,
        s[0] != '+',
    ensures
        unsigned_value(seq![c]) == Some((c as nat - 48) as nat),
        unsigned_value(seq!['+'] + s) == unsigned_value(s),
{
    assert(seq![c].drop_last() =~= Seq::<char>::empty());
    reveal_with_fuel(digits_value, 2);
    assert((seq!['+'] + s).skip(1) =~= s);
}

/// A text denotes a number exactly where it is one or more digits, perhaps after a plus sign.
pub proof fn law_numbers_are_digits(s: Seq<char>)
    ensures
        unsigned_value(s) is Some <==> exists|digits: Seq<char>|
            {
                &&& digits.len() > 0
                &&& forall|i: int| 0 <= i < digits.len() ==> '0' <= #[trigger] digits[i] <= '9'
                &&& s == digits || s == #[trigger] (seq!['+'] + digits)
            },
{
    let part = unsigned_part(s);
    if unsigned_value(s) is Some {
        assert forall|i: int| 0 <= i < part.len() implies '0' <= #[trigger] part[i] <= '9' by {
            assert(is_digit(part[i]));
        }
        if s[0] == '+' {
            assert(s =~= seq!['+'] + part);
        }
        let signed = seq!['+'] + part;
        assert(s == part || s == signed);
    }
    if exists|digits: Seq<char>|
        {
            &&& digits.len() > 0
            &&& forall|i: int| 0 <= i < digits.len() ==> '0' <= #[trigger] digits[i] <= '9'
            &&& s == digits || s == #[trigger] (seq!['+'] + digits)
        } {
        let digits = choose|digits: Seq<char>|
            {
                &&& digits.len() > 0
                &&& forall|i: int| 0 <= i < digits.len() ==> '0' <= #[trigger] digits[i] <= '9'
                &&& s == digits || s == #[trigger] (seq!['+'] + digits)
            };
        assert('0' <= digits[0] <= '9');
        if s != digits {
            assert((seq!['+'] + digits).skip(1) =~= digits);
        }
        assert(part == digits);
        assert(all_digits(digits));
    }
}

/// Of a text that denotes no number, or none that fits, it is told that it is empty, or else what
/// comes first: that its digits exceed what fits, or that something is no digit.
pub proof fn law_numbers_are_refused_for_their_first_fault(
    digits: Seq<char>,
    c: char,
    rest: Seq<char>,
)
    requires
        forall|i: int| 0 <= i < digits.len() ==> '0' <= #[trigger] digits[i] <= '9',
        digits.len() > 0,
        !('0' <= c <= '9'),
    ensures
        number_problem(Seq::empty()) == NumberProblem::Empty,
        unsigned_value(digits)->0 > usize::MAX ==> number_problem(digits) == NumberProblem::TooLarge
            && number_problem(digits + seq![c] + rest) == NumberProblem::TooLarge,
        unsigned_value(digits)->0 <= usize::MAX ==> number_problem(digits + seq![c] + rest)
            == NumberProblem::InvalidDigit,
        c != '+' ==> number_problem(seq![c] + rest) == NumberProblem::InvalidDigit,
{
    let whole = digits + seq![c] + rest;
    let n = digits.len() as int;
    assert(digits[0] != '+' && whole[0] == digits[0]);
    assert(all_digits(digits)) by {
        assert forall|i: int| 0 <= i < digits.len() implies is_digit(#[trigger] digits[i]) by {}
    }
    assert forall|j: int| 0 <= j < n implies is_digit(#[trigger] whole[j]) by {
        assert('0' <= digits[j] <= '9');
    }
    assert(whole[n] == c && !is_digit(whole[n]));
    lemma_leading_digits(digits, n);
    lemma_leading_digits(whole, n);
    assert(digits.take(n) =~= digits);
    assert(whole.take(n) =~= digits);
    let other = seq![c] + rest;
    assert(other[0] == c && !is_digit(other[0]));
    assert(other.take(0) =~= Seq::<char>::empty());
}

/// White space is what Unicode says it is: the tab and the line breaks after it, the space, the next
/// line, the no-break space, and the wider spaces and separators.
pub proof fn law_white_space_is_that_of_unicode(c: char)
    ensures
        is_white_space(c) <==> {
            ||| c == '\t' || c == '\n' || c == '\u{b}' || c == '\u{c}' || c == '\r'
            ||| c == ' ' || c == '\u{85}' || c == '\u{a0}' || c == '\u{1680}'
            ||| '\u{2000}' <= c <= '\u{200a}'
            ||| c == '\u{2028}' || c == '\u{2029}' || c == '\u{202f}'
            ||| c == '\u{205f}' || c == '\u{3000}'
        },
{
}

} // verus!
