//! Exact operations on text that the rest of the library is built from.

use vstd::prelude::*;
use vstd::string::StringSliceAdditionalSpecFns;

verus! {

/// `String::push` of the standard library appends the one character to the string.
pub assume_specification[ String::push ](s: &mut String, c: char)
    ensures
        final(s)@ == old(s)@.push(c),
;

/// The characters of `s`, in order.
pub fn chars_of(s: &str) -> (v: Vec<char>)
    ensures
        v@ == s@,
{
    let mut v: Vec<char> = Vec::new();
    for c in it: s.chars()
        invariant
            v@ == it.seq().take(it.index() as int),
    {
        v.push(c);
    }
    v
}

/// The string made of the characters `v`, in order.
pub fn string_of(v: &Vec<char>) -> (s: String)
    ensures
        s@ == v@,
{
    let mut s = String::new();
    let mut i: usize = 0;
    while i < v.len()
        invariant
            i <= v.len(),
            s@ == v@.take(i as int),
        decreases v.len() - i,
    {
        s.push(v[i]);
        i += 1;
    }
    s
}

/// Whether two strings hold the same text.
pub fn str_eq(a: &str, b: &str) -> (same: bool)
    ensures
        same == (a@ == b@),
{
    let x = a.as_bytes();
    let y = b.as_bytes();
    proof {
        // Two texts with the same encoding are the same text.
        vstd::utf8::encode_utf8_decode_utf8(a@);
        vstd::utf8::encode_utf8_decode_utf8(b@);
    }
    if x.len() != y.len() {
        return false;
    }
    let mut i: usize = 0;
    while i < x.len()
        invariant
            i <= x.len(),
            x.len() == y.len(),
            x@ == a.spec_bytes(),
            y@ == b.spec_bytes(),
            forall|k: int| 0 <= k < i ==> x@[k] == y@[k],
        decreases x.len() - i,
    {
        if x[i] != y[i] {
            return false;
        }
        i += 1;
    }
    assert(x@ =~= y@);
    true
}

/// Whether `pattern` stands in `text` at the position `at`.
pub open spec fn occurs_at(text: Seq<char>, pattern: Seq<char>, at: int) -> bool {
    &&& 0 <= at
    &&& at + pattern.len() <= text.len()
    &&& text.subrange(at, at + pattern.len()) == pattern
}

/// Whether `pattern` stands somewhere in `text`, character for character.
pub open spec fn occurs_in(text: Seq<char>, pattern: Seq<char>) -> bool {
    exists|at: int| occurs_at(text, pattern, at)
}

/// `text` with every occurrence of `pattern` replaced by `with`, found from left to
/// right without overlap. An empty `pattern` occurs nowhere.
pub open spec fn replaced(text: Seq<char>, pattern: Seq<char>, with: Seq<char>) -> Seq<char>
    decreases text.len(),
{
    if pattern.len() == 0 || text.len() < pattern.len() {
        text
    } else if occurs_at(text, pattern, 0) {
        with + replaced(text.skip(pattern.len() as int), pattern, with)
    } else {
        seq![text[0]] + replaced(text.skip(1), pattern, with)
    }
}

/// Whether `pattern` stands in `text` at `at`.
pub fn matches_at(text: &Vec<char>, at: usize, pattern: &Vec<char>) -> (hit: bool)
    ensures
        hit == occurs_at(text@, pattern@, at as int),
{
    if pattern.len() > text.len() || at > text.len() - pattern.len() {
        return false;
    }
    let ghost window = text@.subrange(at as int, at + pattern.len());
    let mut k: usize = 0;
    while k < pattern.len()
        invariant
            k <= pattern.len(),
            at + pattern.len() <= text.len(),
            window == text@.subrange(at as int, at + pattern.len()),
            forall|j: int| 0 <= j < k ==> text@[at + j] == pattern@[j],
        decreases pattern.len() - k,
    {
        if text[at + k] != pattern[k] {
            assert(window[k as int] == text@[at + k]);
            return false;
        }
        k += 1;
    }
    assert(window =~= pattern@);
    true
}

/// Whether `pattern` occurs in `text`.
pub fn contains(text: &str, pattern: &str) -> (found: bool)
    ensures
        found == occurs_in(text@, pattern@),
{
    let t = chars_of(text);
    let p = chars_of(pattern);
    if p.len() > t.len() {
        return false;
    }
    let last = t.len() - p.len();
    let mut at: usize = 0;
    while at < last
        invariant
            at <= last,
            last == t.len() - p.len(),
            t@ == text@,
            p@ == pattern@,
            forall|j: int| 0 <= j < at ==> !occurs_at(t@, p@, j),
        decreases last - at,
    {
        if matches_at(&t, at, &p) {
            return true;
        }
        at += 1;
    }
    matches_at(&t, last, &p)
}

/// Whether `text` begins with `prefix`.
pub fn starts_with(text: &str, prefix: &str) -> (yes: bool)
    ensures
        yes == prefix@.is_prefix_of(text@),
{
    let t = chars_of(text);
    let p = chars_of(prefix);
    matches_at(&t, 0, &p)
}

/// Whether `text` ends with `suffix`.
pub fn ends_with(text: &str, suffix: &str) -> (yes: bool)
    ensures
        yes == suffix@.is_suffix_of(text@),
{
    let t = chars_of(text);
    let s = chars_of(suffix);
    if s.len() > t.len() {
        return false;
    }
    matches_at(&t, t.len() - s.len(), &s)
}

/// What follows `prefix` in `text`, if `text` begins with it.
pub fn strip_prefix(text: &str, prefix: &str) -> (rest: Option<String>)
    ensures
        rest is Some <==> prefix@.is_prefix_of(text@),
        rest matches Some(tail) ==> tail@ == text@.skip(prefix@.len() as int),
{
    let t = chars_of(text);
    let p = chars_of(prefix);
    if !matches_at(&t, 0, &p) {
        return None;
    }
    let mut tail = String::new();
    let mut i: usize = p.len();
    while i < t.len()
        invariant
            p.len() <= i <= t.len(),
            tail@ == t@.subrange(p.len() as int, i as int),
        decreases t.len() - i,
    {
        tail.push(t[i]);
        i += 1;
    }
    Some(tail)
}

/// Appends the characters `more` to `out`.
fn append_chars(out: &mut Vec<char>, more: &Vec<char>)
    ensures
        final(out)@ == old(out)@ + more@,
{
    let ghost before = out@;
    let mut i: usize = 0;
    while i < more.len()
        invariant
            i <= more.len(),
            out@ == before + more@.take(i as int),
        decreases more.len() - i,
    {
        out.push(more[i]);
        i += 1;
    }
    assert(more@.take(i as int) == more@);
}

/// A copy of `text` in which `with` stands for every occurrence of `pattern`.
pub fn replace(text: &str, pattern: &str, with: &str) -> (out: String)
    ensures
        out@ == replaced(text@, pattern@, with@),
{
    let t = chars_of(text);
    let p = chars_of(pattern);
    let w = chars_of(with);
    if p.len() == 0 {
        return text.to_owned();
    }
    let mut out: Vec<char> = Vec::new();
    let mut at: usize = 0;
    assert(t@.skip(0) == t@);
    assert(out@ + t@ == t@);
    while at < t.len()
        invariant
            at <= t.len(),
            p.len() > 0,
            out@ + replaced(t@.skip(at as int), p@, w@) == replaced(t@, p@, w@),
        decreases t.len() - at,
    {
        let ghost rest = t@.skip(at as int);
        let ghost done = out@;
        if matches_at(&t, at, &p) {
            append_chars(&mut out, &w);
            proof {
                assert(rest.subrange(0, p.len() as int) == t@.subrange(
                    at as int,
                    at + p.len(),
                ));
                assert(rest.skip(p.len() as int) == t@.skip(at + p.len()));
                let tail = replaced(t@.skip(at + p.len()), p@, w@);
                assert((done + w@) + tail == done + (w@ + tail));
            }
            at += p.len();
        } else {
            out.push(t[at]);
            proof {
                if rest.len() >= p.len() {
                    assert(rest.subrange(0, p.len() as int) == t@.subrange(
                        at as int,
                        at + p.len(),
                    ));
                    assert(rest.skip(1) == t@.skip(at + 1));
                    let tail = replaced(t@.skip(at + 1), p@, w@);
                    assert(done.push(t@[at as int]) + tail == done + (seq![rest[0]] + tail));
                } else {
                    assert(t@.skip(at + 1).len() < p.len());
                    assert(done.push(t@[at as int]) + t@.skip(at + 1) == done + rest);
                }
            }
            at += 1;
        }
    }
    assert(out@ + Seq::<char>::empty() == out@);
    string_of(&out)
}

/// The number a decimal digit stands for.
pub open spec fn digit_value(c: char) -> Option<u64> {
    if '0' <= c <= '9' {
        Some((c as int - '0' as int) as u64)
    } else {
        None
    }
}

/// The decimal digit for a number below ten.
pub open spec fn digit_char(d: nat) -> char {
    ('0' as int + d) as char
}

/// The number that a run of decimal digits writes.
pub open spec fn decimal_value(digits: Seq<char>) -> nat
    decreases digits.len(),
{
    if digits.len() == 0 {
        0
    } else {
        (decimal_value(digits.drop_last()) * 10 + digit_value(digits.last()).unwrap_or(0)) as nat
    }
}

/// How `n` is written in decimal digits, without leading zeros.
pub open spec fn decimal_digits(n: nat) -> Seq<char>
    decreases n,
{
    if n < 10 {
        seq![digit_char(n)]
    } else {
        decimal_digits(n / 10).push(digit_char(n % 10))
    }
}

/// How many decimal digits `text` begins with.
pub open spec fn leading_digits(text: Seq<char>) -> nat
    decreases text.len(),
{
    if text.len() == 0 || digit_value(text[0]) is None {
        0
    } else {
        1 + leading_digits(text.skip(1))
    }
}

/// Why a text is not the decimal form of a 64-bit unsigned number.
#[derive(Debug, Clone, Copy, PartialEq, Eq, Structural)]
pub enum NumberError {
    /// There is nothing to read.
    Empty,
    /// A character that is no decimal digit comes before any overflow.
    InvalidDigit,
    /// The digits read so far already exceed the largest number.
    Overflow,
}

/// The number that `text` writes: decimal digits, after an optional `+` that something
/// follows, read from the left until one of them fails or the number no longer fits.
pub open spec fn parsed(text: Seq<char>) -> Result<u64, NumberError> {
    if text.len() == 0 {
        Err(NumberError::Empty)
    } else {
        let body = if text[0] == '+' && text.len() > 1 {
            text.skip(1)
        } else {
            text
        };
        let run = body.take(leading_digits(body) as int);
        if decimal_value(run) > u64::MAX {
            Err(NumberError::Overflow)
        } else if run.len() < body.len() {
            Err(NumberError::InvalidDigit)
        } else {
            Ok(decimal_value(run) as u64)
        }
    }
}

/// The number the digit `c` stands for, if it is one.
fn digit_of(c: char) -> (d: Option<u64>)
    ensures
        d == digit_value(c),
{
    match c {
        '0' => Some(0),
        '1' => Some(1),
        '2' => Some(2),
        '3' => Some(3),
        '4' => Some(4),
        '5' => Some(5),
        '6' => Some(6),
        '7' => Some(7),
        '8' => Some(8),
        '9' => Some(9),
        _ => None,
    }
}

/// The digit for `d`.
fn char_of_digit(d: u64) -> (c: char)
    requires
        d < 10,
    ensures
        c == digit_char(d as nat),
{
    if d == 0 {
        '0'
    } else if d == 1 {
        '1'
    } else if d == 2 {
        '2'
    } else if d == 3 {
        '3'
    } else if d == 4 {
        '4'
    } else if d == 5 {
        '5'
    } else if d == 6 {
        '6'
    } else if d == 7 {
        '7'
    } else if d == 8 {
        '8'
    } else {
        '9'
    }
}

/// The decimal form of `n`.
pub fn decimal(n: u64) -> (text: String)
    ensures
        text@ == decimal_digits(n as nat),
{
    let mut digits: Vec<char> = Vec::new();
    digits.push(char_of_digit(n % 10));
    let mut rest: u64 = n / 10;
    assert(digits@ == seq![digit_char((n % 10) as nat)]);
    while rest > 0
        invariant
            decimal_digits(n as nat) == if rest > 0 {
                decimal_digits(rest as nat) + digits@
            } else {
                digits@
            },
        decreases rest,
    {
        let ghost lower = digits@;
        let c = char_of_digit(rest % 10);
        digits.insert(0, c);
        proof {
            assert(digits@ == seq![c] + lower);
            if rest >= 10 {
                assert(decimal_digits((rest / 10) as nat).push(c) + lower == decimal_digits(
                    (rest / 10) as nat,
                ) + digits@);
            }
        }
        rest = rest / 10;
    }
    string_of(&digits)
}

/// In a run of digits, a longer beginning writes no smaller a number.
proof fn lemma_value_grows(digits: Seq<char>, shorter: int, longer: int)
    requires
        0 <= shorter <= longer <= digits.len(),
    ensures
        decimal_value(digits.take(shorter)) <= decimal_value(digits.take(longer)),
    decreases longer - shorter,
{
    if shorter < longer {
        lemma_value_grows(digits, shorter, longer - 1);
        assert(digits.take(longer).drop_last() == digits.take(longer - 1));
        assert(decimal_value(digits.take(longer - 1)) * 10 >= decimal_value(
            digits.take(longer - 1),
        ));
    }
}

/// A text begins with exactly `n` digits when its first `n` characters are digits and the
/// next one, if there is one, is not.
proof fn lemma_leading_digits(text: Seq<char>, n: int)
    requires
        0 <= n <= text.len(),
        forall|j: int| 0 <= j < n ==> digit_value(#[trigger] text[j]) is Some,
        n < text.len() ==> digit_value(text[n]) is None,
    ensures
        leading_digits(text) == n,
    decreases n,
{
    if n > 0 {
        let rest = text.skip(1);
        assert forall|j: int| 0 <= j < n - 1 implies digit_value(#[trigger] rest[j]) is Some by {
            assert(rest[j] == text[j + 1]);
        }
        lemma_leading_digits(rest, n - 1);
    }
}

/// Reads `text` as the decimal form of a 64-bit unsigned number.
pub fn parse_u64(text: &str) -> (number: Result<u64, NumberError>)
    ensures
        number == parsed(text@),
{
    let chars = chars_of(text);
    if chars.len() == 0 {
        return Err(NumberError::Empty);
    }
    let start: usize = if chars[0] == '+' && chars.len() > 1 {
        1
    } else {
        0
    };
    let ghost body = if start == 1 {
        chars@.skip(1)
    } else {
        chars@
    };
    let mut value: u64 = 0;
    let mut i: usize = start;
    while i < chars.len()
        invariant
            start <= i <= chars.len(),
            chars@ == text@,
            chars.len() > 0,
            start == if chars@[0] == '+' && chars.len() > 1 {
                1usize
            } else {
                0usize
            },
            body == if start == 1 {
                chars@.skip(1)
            } else {
                chars@
            },
            forall|j: int| 0 <= j < i - start ==> digit_value(#[trigger] body[j]) is Some,
            value == decimal_value(body.take(i - start)),
        decreases chars.len() - i,
    {
        let ghost read = i - start;
        assert(body[read] == chars@[i as int]);
        assert(body.take(read + 1).drop_last() == body.take(read));
        match digit_of(chars[i]) {
            None => {
                proof {
                    lemma_leading_digits(body, read);
                    assert(body.take(read).len() == read);
                }
                return Err(NumberError::InvalidDigit);
            },
            Some(d) => {
                if value > (u64::MAX - d) / 10 {
                    proof {
                        assert(decimal_value(body.take(read + 1)) > u64::MAX);
                        lemma_leading_digits_bounds(body, read + 1);
                        lemma_value_grows(body, read + 1, leading_digits(body) as int);
                    }
                    return Err(NumberError::Overflow);
                }
                value = value * 10 + d;
            },
        }
        i += 1;
    }
    proof {
        lemma_leading_digits(body, i - start);
        assert(body.take(i - start) == body);
    }
    Ok(value)
}

/// A text whose first `n` characters are digits begins with at least `n` digits, and
/// with no more than it has characters.
proof fn lemma_leading_digits_bounds(text: Seq<char>, n: int)
    requires
        0 <= n <= text.len(),
        forall|j: int| 0 <= j < n ==> digit_value(#[trigger] text[j]) is Some,
    ensures
        n <= leading_digits(text) <= text.len(),
    decreases text.len(),
{
    if text.len() > 0 {
        let rest = text.skip(1);
        let m = if n > 0 {
            n - 1
        } else {
            0
        };
        assert forall|j: int| 0 <= j < m implies digit_value(#[trigger] rest[j]) is Some by {
            assert(rest[j] == text[j + 1]);
        }
        lemma_leading_digits_bounds(rest, m);
    }
}

/// The hexadecimal digit, in lower case, for a number below sixteen.
pub open spec fn hex_lower(n: int) -> char {
    if n < 10 {
        ('0' as int + n) as char
    } else {
        ('a' as int + n - 10) as char
    }
}

/// How one character stands in a JSON string: the quote, the backslash and the control
/// characters are escaped, every other character stands for itself.
pub open spec fn json_char(c: char) -> Seq<char> {
    if c == '"' {
        seq!['\\', '"']
    } else if c == '\\' {
        seq!['\\', '\\']
    } else if c == '\n' {
        seq!['\\', 'n']
    } else if c == '\r' {
        seq!['\\', 'r']
    } else if c == '\t' {
        seq!['\\', 't']
    } else if c == '\u{8}' {
        seq!['\\', 'b']
    } else if c == '\u{c}' {
        seq!['\\', 'f']
    } else if (c as int) < 0x20 {
        seq!['\\', 'u', '0', '0', hex_lower(c as int / 16), hex_lower(c as int % 16)]
    } else {
        seq![c]
    }
}

/// What stands between the quotes of the JSON string that holds `text`.
pub open spec fn json_escaped(text: Seq<char>) -> Seq<char>
    decreases text.len(),
{
    if text.len() == 0 {
        Seq::<char>::empty()
    } else {
        json_escaped(text.drop_last()) + json_char(text.last())
    }
}

/// The lower-case hexadecimal digit for `d`.
fn hex_lower_of(d: u32) -> (c: char)
    requires
        d < 16,
    ensures
        c == hex_lower(d as int),
{
    if d < 10 {
        char_of_digit(d as u64)
    } else if d == 10 {
        'a'
    } else if d == 11 {
        'b'
    } else if d == 12 {
        'c'
    } else if d == 13 {
        'd'
    } else if d == 14 {
        'e'
    } else {
        'f'
    }
}

/// Appends to `out` what stands for `c` in a JSON string.
fn push_json_char(out: &mut String, c: char)
    ensures
        final(out)@ == old(out)@ + json_char(c),
{
    let ghost before = out@;
    if c == '"' {
        out.push('\\');
        out.push('"');
    } else if c == '\\' {
        out.push('\\');
        out.push('\\');
    } else if c == '\n' {
        out.push('\\');
        out.push('n');
    } else if c == '\r' {
        out.push('\\');
        out.push('r');
    } else if c == '\t' {
        out.push('\\');
        out.push('t');
    } else if c == '\u{8}' {
        out.push('\\');
        out.push('b');
    } else if c == '\u{c}' {
        out.push('\\');
        out.push('f');
    } else {
        let code: u32 = c as u32;
        if code < 32 {
            out.push('\\');
            out.push('u');
            out.push('0');
            out.push('0');
            out.push(hex_lower_of(code / 16));
            out.push(hex_lower_of(code % 16));
        } else {
            out.push(c);
        }
    }
    assert(out@ =~= before + json_char(c));
}

/// `text` as it stands between the quotes of a JSON string.
pub fn escape_json(text: &str) -> (out: String)
    ensures
        out@ == json_escaped(text@),
{
    let chars = chars_of(text);
    let mut out = String::new();
    let mut i: usize = 0;
    while i < chars.len()
        invariant
            i <= chars.len(),
            out@ == json_escaped(chars@.take(i as int)),
        decreases chars.len() - i,
    {
        assert(chars@.take(i + 1).drop_last() == chars@.take(i as int));
        push_json_char(&mut out, chars[i]);
        i += 1;
    }
    assert(chars@.take(i as int) == chars@);
    out
}

impl NumberError {
    /// What went wrong, in the words the standard library uses for it.
    pub open spec fn message_text(self) -> Seq<char> {
        match self {
            NumberError::Empty => "cannot parse integer from empty string"@,
            NumberError::InvalidDigit => "invalid digit found in string"@,
            NumberError::Overflow => "number too large to fit in target type"@,
        }
    }

    /// What went wrong, in words.
    pub fn message(&self) -> (text: &'static str)
        ensures
            text@ == self.message_text(),
    {
        match self {
            NumberError::Empty => "cannot parse integer from empty string",
            NumberError::InvalidDigit => "invalid digit found in string",
            NumberError::Overflow => "number too large to fit in target type",
        }
    }
}

/// Every digit of a number's decimal form is a digit, and together they write the number.
proof fn lemma_decimal_digits(n: nat)
    ensures
        decimal_digits(n).len() >= 1,
        forall|j: int|
            0 <= j < decimal_digits(n).len() ==> digit_value(#[trigger] decimal_digits(n)[j])
                is Some,
        decimal_value(decimal_digits(n)) == n,
    decreases n,
{
    let digits = decimal_digits(n);
    if n < 10 {
        assert(digits.drop_last() =~= Seq::<char>::empty());
        assert(decimal_value(digits.drop_last()) == 0);
    } else {
        lemma_decimal_digits(n / 10);
        assert(digits.drop_last() =~= decimal_digits(n / 10));
    }
}

/// Reading the decimal form of a number gives the number back.
pub proof fn lemma_decimal_round_trip(n: u64)
    ensures
        parsed(decimal_digits(n as nat)) == Ok::<u64, NumberError>(n),
{
    let digits = decimal_digits(n as nat);
    lemma_decimal_digits(n as nat);
    lemma_leading_digits(digits, digits.len() as int);
    assert(digits.take(digits.len() as int) == digits);
    assert(digit_value(digits[0]) is Some);
}

} // verus!
